//! A small library for managing a personal address book of remote-host
//! connection profiles: an ordered, persisted collection of named profiles
//! with add / list / delete / field-edit operations, a canonical JSON
//! storage format, and construction of the argument vectors handed to the
//! external secure-shell client.

mod numbers;
mod ops;
mod output;
mod paths;
mod profile;
mod store;
mod strings;

pub use numbers::{parse_u16, parse_u16_spec, u16_to_string, dec_of};
pub use ops::{
    add_connection, delete_connection, delete_spec, edit_connection, find_connection,
    first_match_at, is_profile_field, lemma_add_append_only, lemma_delete_no_match,
    lemma_delete_removes_all, lemma_with_field_updates_exactly, no_match, views, with_field,
    EditOutcome,
};
pub use output::{
    added_message, deleted_message, echo_arg_of, edit_updated_line, edit_updated_message,
    invalid_property_message, list_line_of, list_output, no_connections_line, not_found_line,
    not_found_message, open_plan, snippet_not_found_message, snippet_plan,
    snippet_success_message, LaunchPlan,
};
pub use paths::{config_path, config_path_in, config_path_of};
pub use profile::{Profile, ProfileV};
pub use store::{
    lemma_store_round_trip, load_connections, parse_store_spec, render_store_of,
    save_connections, MalformedStore,
};
