//! The connection profile: the sole persisted entity.

use vstd::prelude::*;

verus! {

/// A named record of remote-host connection parameters.
///
/// `name` is the lookup key for delete / open / edit / snippet; uniqueness is
/// not enforced, so lookups resolve to the first match in stored order and
/// delete removes every match.
#[derive(Debug)]
pub struct Profile {
    pub name: String,
    pub host: String,
    pub port: u16,
    pub username: String,
    pub welcome_message: Option<String>,
}

/// The mathematical value of a [`Profile`]: its strings as character
/// sequences, its port as the machine integer it is.
pub struct ProfileV {
    pub name: Seq<char>,
    pub host: Seq<char>,
    pub port: u16,
    pub username: Seq<char>,
    pub welcome_message: Option<Seq<char>>,
}

impl View for Profile {
    type V = ProfileV;

    open spec fn view(&self) -> ProfileV {
        ProfileV {
            name: self.name@,
            host: self.host@,
            port: self.port,
            username: self.username@,
            welcome_message: match self.welcome_message {
                Some(ref w) => Some(w@),
                None => None,
            },
        }
    }
}

impl Clone for Profile {
    fn clone(&self) -> (r: Profile)
        ensures
            r@ == self@,
    {
        Profile {
            name: self.name.clone(),
            host: self.host.clone(),
            port: self.port,
            username: self.username.clone(),
            welcome_message: match &self.welcome_message {
                Some(w) => Some(w.clone()),
                None => None,
            },
        }
    }
}

/// Field-for-field equality of two profile values.
pub open spec fn profile_eq(a: ProfileV, b: ProfileV) -> bool {
    a.name == b.name && a.host == b.host && a.port == b.port && a.username == b.username
        && a.welcome_message == b.welcome_message
}

impl PartialEq for Profile {
    fn eq(&self, other: &Profile) -> (r: bool) {
        let welcome_eq: bool = match (&self.welcome_message, &other.welcome_message) {
            (Some(a), Some(b)) => *a == *b,
            (None, None) => true,
            _ => false,
        };
        self.name == other.name && self.host == other.host && self.port == other.port
            && self.username == other.username && welcome_eq
    }
}

impl vstd::std_specs::cmp::PartialEqSpecImpl for Profile {
    open spec fn obeys_eq_spec() -> bool {
        true
    }

    open spec fn eq_spec(&self, other: &Profile) -> bool {
        profile_eq(self@, other@)
    }
}


} // verus!
