//! The in-memory operations on the ordered profile collection: append,
//! delete-by-name, first-match lookup, and field-level edit.

use vstd::prelude::*;
use vstd::string::*;
use crate::profile::{Profile, ProfileV};
use crate::strings::{str_eq, split_at_first};
use crate::numbers::parse_u16_spec;
use crate::numbers::parse_u16;

verus! {

/// The mathematical value of a collection: the sequence of its profiles'
/// values, in stored order.
pub open spec fn views(s: Seq<Profile>) -> Seq<ProfileV> {
    s.map_values(|p: Profile| p@)
}

/// No profile of the sequence bears the given name.
pub open spec fn no_match(s: Seq<ProfileV>, name: Seq<char>) -> bool {
    forall|j: int| 0 <= j < s.len() ==> s[j].name != name
}

/// `i` is the position of the first profile bearing the given name.
pub open spec fn first_match_at(s: Seq<ProfileV>, name: Seq<char>, i: int) -> bool {
    0 <= i < s.len() && s[i].name == name && no_match(s.take(i), name)
}

/// What deleting a name leaves behind: every profile whose name differs,
/// in stored order.
pub open spec fn delete_spec(s: Seq<ProfileV>, name: Seq<char>) -> Seq<ProfileV> {
    s.filter(|p: ProfileV| p.name != name)
}

/// Appends a profile at the end of the collection.
pub fn add_connection(conns: &mut Vec<Profile>, p: Profile)
    ensures
        views(final(conns)@) == views(old(conns)@).push(p@),
{
    let ghost pv = p@;
    let ghost before = conns@;
    conns.push(p);
    proof {
        assert(views(conns@) =~= views(before).push(pv));
    }
}

/// Adding is append-only: the new collection is one longer, ends with the
/// added profile, and starts with the old collection unchanged.
pub proof fn lemma_add_append_only(c: Seq<ProfileV>, p: ProfileV)
    ensures
        c.push(p).len() == c.len() + 1,
        c.push(p).last() == p,
        c.push(p).take(c.len() as int) == c,
{
    assert(c.push(p).take(c.len() as int) =~= c);
}

/// Removes every profile whose name equals the argument; the rest keep
/// their order. A name that matches nothing leaves the collection as it was.
pub fn delete_connection(conns: &mut Vec<Profile>, name: &str)
    ensures
        views(final(conns)@) == delete_spec(views(old(conns)@), name@),
{
    broadcast use Seq::lemma_filter_push;

    let ghost before = conns@;
    let mut kept: Vec<Profile> = Vec::new();
    let mut i: usize = 0;
    proof {
        assert(views(before.take(0)) =~= Seq::<ProfileV>::empty());
        assert(Seq::<ProfileV>::empty().filter(|p: ProfileV| p.name != name@)
            =~= Seq::<ProfileV>::empty());
    }
    while i < conns.len()
        invariant
            conns@ == before,
            0 <= i <= before.len(),
            views(kept@) == delete_spec(views(before.take(i as int)), name@),
        decreases before.len() - i,
    {
        let ghost kept_before = kept@;
        let ghost pred = (|p: ProfileV| p.name != name@);
        let ghost e = before[i as int]@;
        if !str_eq(conns[i].name.as_str(), name) {
            kept.push(conns[i].clone());
            proof {
                assert(views(kept@) =~= views(kept_before).push(e));
            }
        }
        proof {
            assert(views(before.take(i + 1)) =~= views(before.take(i as int)).push(e));
            Seq::lemma_filter_push(views(before.take(i as int)), e, pred);
        }
        i += 1;
    }
    proof {
        assert(before.take(before.len() as int) =~= before);
    }
    *conns = kept;
}

/// A delete removes all and only the profiles bearing the name: nothing
/// that remains bears it, and every profile that does not bear it remains.
pub proof fn lemma_delete_removes_all(s: Seq<ProfileV>, name: Seq<char>)
    ensures
        forall|j: int|
            0 <= j < delete_spec(s, name).len() ==> delete_spec(s, name)[j].name != name,
        forall|j: int|
            0 <= j < s.len() && s[j].name != name ==> delete_spec(s, name).contains(s[j]),
{
    broadcast use Seq::lemma_filter_pred;
    broadcast use Seq::lemma_filter_contains;

    let pred = (|p: ProfileV| p.name != name);
    assert forall|j: int| 0 <= j < s.len() && s[j].name != name implies delete_spec(
        s,
        name,
    ).contains(s[j]) by {
        assert(pred(s[j]));
        assert(s.filter(pred).contains(s[j]));
    }
}

/// Deleting a name that no profile bears leaves the collection unchanged.
pub proof fn lemma_delete_no_match(s: Seq<ProfileV>, name: Seq<char>)
    requires
        no_match(s, name),
    ensures
        delete_spec(s, name) == s,
    decreases s.len(),
{
    broadcast use Seq::lemma_filter_push;

    if s.len() == 0 {
        assert(delete_spec(s, name) =~= s);
    } else {
        assert(s.drop_last().push(s.last()) =~= s);
        lemma_delete_no_match(s.drop_last(), name);
        assert(delete_spec(s.drop_last().push(s.last()), name) == delete_spec(
            s.drop_last(),
            name,
        ).push(s.last()));
        assert(delete_spec(s, name) =~= s);
    }
}

/// Finds the position of the first profile bearing the given name.
pub fn find_connection(conns: &Vec<Profile>, name: &str) -> (r: Option<usize>)
    ensures
        match r {
            Some(i) => first_match_at(views(conns@), name@, i as int),
            None => no_match(views(conns@), name@),
        },
{
    let mut i: usize = 0;
    while i < conns.len()
        invariant
            0 <= i <= conns@.len(),
            forall|j: int| 0 <= j < i ==> views(conns@)[j].name != name@,
        decreases conns@.len() - i,
    {
        if str_eq(conns[i].name.as_str(), name) {
            proof {
                assert(forall|j: int|
                    0 <= j < i ==> views(conns@).take(i as int)[j] == views(conns@)[j]);
            }
            return Some(i);
        }
        i += 1;
    }
    None
}

/// Whether a property name denotes one of the five profile fields.
pub open spec fn is_profile_field(prop: Seq<char>) -> bool {
    ||| prop == "name"@
    ||| prop == "host"@
    ||| prop == "port"@
    ||| prop == "username"@
    ||| prop == "welcome_message"@
}

/// The profile with the named field overwritten by the given value; a port
/// value is read as a decimal number.
pub open spec fn with_field(p: ProfileV, prop: Seq<char>, value: Seq<char>) -> ProfileV
    recommends
        is_profile_field(prop),
        prop == "port"@ ==> parse_u16_spec(value) is Some,
{
    if prop == "name"@ {
        ProfileV { name: value, ..p }
    } else if prop == "host"@ {
        ProfileV { host: value, ..p }
    } else if prop == "port"@ {
        ProfileV { port: parse_u16_spec(value).unwrap(), ..p }
    } else if prop == "username"@ {
        ProfileV { username: value, ..p }
    } else {
        ProfileV { welcome_message: Some(value), ..p }
    }
}

/// An edit with a recognized property overwrites exactly that field: every
/// other field keeps its value.
pub proof fn lemma_with_field_updates_exactly(p: ProfileV, prop: Seq<char>, value: Seq<char>)
    requires
        is_profile_field(prop),
    ensures
        prop != "name"@ ==> with_field(p, prop, value).name == p.name,
        prop != "host"@ ==> with_field(p, prop, value).host == p.host,
        prop != "port"@ ==> with_field(p, prop, value).port == p.port,
        prop != "username"@ ==> with_field(p, prop, value).username == p.username,
        prop != "welcome_message"@ ==> with_field(p, prop, value).welcome_message
            == p.welcome_message,
{
    lemma_field_literals_distinct();
}

/// How a field edit ended. Which outcomes are persisted and which abort the
/// command follow the store's rules: an update and an unrecognized property
/// are both written back; a missing profile is not; a bad port value or an
/// identifier without a separator aborts before any write.
pub enum EditOutcome {
    /// The named field of the profile at `index`, the first match, was
    /// overwritten.
    Updated { index: usize, name: String, property: String, new_value: String },
    /// The profile at `index` matched but the property is not a profile
    /// field; nothing changed, yet the collection is still written back.
    InvalidProperty { index: usize, name: String, property: String, new_value: String },
    /// No profile bears the name; nothing changed, nothing is written.
    NotFound { name: String, property: String },
    /// The port value is not a decimal port number; the command aborts.
    BadPort { index: usize, name: String, property: String },
    /// The identifier holds no `.` separator; the command aborts.
    NoSeparator,
}

impl EditOutcome {
    /// Whether this outcome has the collection written back to the store.
    pub open spec fn persists_spec(&self) -> bool {
        match self {
            EditOutcome::Updated { .. } => true,
            EditOutcome::InvalidProperty { .. } => true,
            _ => false,
        }
    }

    /// Whether this outcome has the collection written back to the store.
    pub fn persists(&self) -> (b: bool)
        ensures
            b == self.persists_spec(),
    {
        match self {
            EditOutcome::Updated { .. } => true,
            EditOutcome::InvalidProperty { .. } => true,
            _ => false,
        }
    }

    /// Whether this outcome aborts the command with a failure.
    pub open spec fn is_fatal_spec(&self) -> bool {
        match self {
            EditOutcome::BadPort { .. } => true,
            EditOutcome::NoSeparator => true,
            _ => false,
        }
    }

    /// Whether this outcome aborts the command with a failure.
    pub fn is_fatal(&self) -> (b: bool)
        ensures
            b == self.is_fatal_spec(),
    {
        match self {
            EditOutcome::BadPort { .. } => true,
            EditOutcome::NoSeparator => true,
            _ => false,
        }
    }
}

/// The five field names are pairwise distinct.
proof fn lemma_field_literals_distinct()
    ensures
        "name"@ != "host"@,
        "name"@ != "port"@,
        "name"@ != "username"@,
        "name"@ != "welcome_message"@,
        "host"@ != "port"@,
        "host"@ != "username"@,
        "host"@ != "welcome_message"@,
        "port"@ != "username"@,
        "port"@ != "welcome_message"@,
        "username"@ != "welcome_message"@,
{
    reveal_strlit("name");
    reveal_strlit("host");
    reveal_strlit("port");
    reveal_strlit("username");
    reveal_strlit("welcome_message");
    assert("name"@[0] != "host"@[0]);
    assert("name"@[0] != "port"@[0]);
    assert("host"@[0] != "port"@[0]);
    assert("name"@.len() == 4);
    assert("host"@.len() == 4);
    assert("port"@.len() == 4);
    assert("username"@.len() == 8);
    assert("welcome_message"@.len() == 15);
}

/// Replaces the profile at a position.
fn replace_at(conns: &mut Vec<Profile>, i: usize, p: Profile)
    requires
        i < old(conns)@.len(),
    ensures
        final(conns)@ == old(conns)@.update(i as int, p),
{
    let ghost before = conns@;
    let _removed = conns.remove(i);
    conns.insert(i, p);
    proof {
        assert(before.remove(i as int).insert(i as int, p) =~= before.update(i as int, p));
    }
}

/// Edits one field of the first profile matching the name part of the
/// identifier `<name>.<field>`, split at the first `.`.
#[verifier::rlimit(60)]
pub fn edit_connection(conns: &mut Vec<Profile>, nameproperty: &str, value: &str) -> (r:
    EditOutcome)
    ensures
        match r {
            EditOutcome::NoSeparator => {
                &&& forall|j: int| 0 <= j < nameproperty@.len() ==> nameproperty@[j] != '.'
                &&& final(conns)@ == old(conns)@
            },
            EditOutcome::NotFound { name, property } => {
                &&& nameproperty@ == name@ + seq!['.'] + property@
                &&& forall|j: int| 0 <= j < name@.len() ==> name@[j] != '.'
                &&& no_match(views(old(conns)@), name@)
                &&& final(conns)@ == old(conns)@
            },
            EditOutcome::BadPort { index, name, property } => {
                &&& nameproperty@ == name@ + seq!['.'] + property@
                &&& forall|j: int| 0 <= j < name@.len() ==> name@[j] != '.'
                &&& property@ == "port"@
                &&& first_match_at(views(old(conns)@), name@, index as int)
                &&& parse_u16_spec(value@) is None
                &&& final(conns)@ == old(conns)@
            },
            EditOutcome::InvalidProperty { index, name, property, new_value } => {
                &&& nameproperty@ == name@ + seq!['.'] + property@
                &&& forall|j: int| 0 <= j < name@.len() ==> name@[j] != '.'
                &&& !is_profile_field(property@)
                &&& new_value@ == value@
                &&& first_match_at(views(old(conns)@), name@, index as int)
                &&& final(conns)@ == old(conns)@
            },
            EditOutcome::Updated { index, name, property, new_value } => {
                &&& nameproperty@ == name@ + seq!['.'] + property@
                &&& forall|j: int| 0 <= j < name@.len() ==> name@[j] != '.'
                &&& is_profile_field(property@)
                &&& new_value@ == value@
                &&& (property@ == "port"@ ==> parse_u16_spec(value@) is Some)
                &&& first_match_at(views(old(conns)@), name@, index as int)
                &&& views(final(conns)@) == views(old(conns)@).update(
                    index as int,
                    with_field(views(old(conns)@)[index as int], property@, value@),
                )
            },
        },
{
    let parts = split_at_first(nameproperty, '.');
    match parts {
        None => EditOutcome::NoSeparator,
        Some((name, property)) => {
            match find_connection(conns, name.as_str()) {
                None => EditOutcome::NotFound { name, property },
                Some(i) => {
                    let ghost before = conns@;
                    proof {
                        lemma_field_literals_distinct();
                    }
                    if str_eq(property.as_str(), "name") {
                        let mut p = conns[i].clone();
                        p.name = to_string_exec(value);
                        replace_at(conns, i, p);
                        proof {
                            lemma_views_update(before, i as int, conns@[i as int]);
                        }
                        EditOutcome::Updated {
                            index: i,
                            name,
                            property,
                            new_value: to_string_exec(value),
                        }
                    } else if str_eq(property.as_str(), "host") {
                        let mut p = conns[i].clone();
                        p.host = to_string_exec(value);
                        replace_at(conns, i, p);
                        proof {
                            lemma_views_update(before, i as int, conns@[i as int]);
                        }
                        EditOutcome::Updated {
                            index: i,
                            name,
                            property,
                            new_value: to_string_exec(value),
                        }
                    } else if str_eq(property.as_str(), "port") {
                        match parse_u16(value) {
                            None => EditOutcome::BadPort { index: i, name, property },
                            Some(n) => {
                                let mut p = conns[i].clone();
                                p.port = n;
                                replace_at(conns, i, p);
                                proof {
                                    lemma_views_update(before, i as int, conns@[i as int]);
                                }
                                EditOutcome::Updated {
                                    index: i,
                                    name,
                                    property,
                                    new_value: to_string_exec(value),
                                }
                            },
                        }
                    } else if str_eq(property.as_str(), "username") {
                        let mut p = conns[i].clone();
                        p.username = to_string_exec(value);
                        replace_at(conns, i, p);
                        proof {
                            lemma_views_update(before, i as int, conns@[i as int]);
                        }
                        EditOutcome::Updated {
                            index: i,
                            name,
                            property,
                            new_value: to_string_exec(value),
                        }
                    } else if str_eq(property.as_str(), "welcome_message") {
                        let mut p = conns[i].clone();
                        p.welcome_message = Some(to_string_exec(value));
                        replace_at(conns, i, p);
                        proof {
                            lemma_views_update(before, i as int, conns@[i as int]);
                        }
                        EditOutcome::Updated {
                            index: i,
                            name,
                            property,
                            new_value: to_string_exec(value),
                        }
                    } else {
                        EditOutcome::InvalidProperty {
                            index: i,
                            name,
                            property,
                            new_value: to_string_exec(value),
                        }
                    }
                },
            }
        },
    }
}

/// Copies a string slice into an owned string.
fn to_string_exec(s: &str) -> (r: String)
    ensures
        r@ == s@,
{
    s.to_owned()
}

/// The element views of an updated sequence are the updated element views.
proof fn lemma_views_update(s: Seq<Profile>, i: int, p: Profile)
    requires
        0 <= i < s.len(),
    ensures
        views(s.update(i, p)) == views(s).update(i, p@),
{
    assert(views(s.update(i, p)) =~= views(s).update(i, p@));
}

} // verus!
