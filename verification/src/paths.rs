//! The fixed per-user location of the storage file.

use vstd::prelude::*;
use vstd::string::*;

verus! {

/// Relies on `dirs::home_dir`: the caller's home directory, when the
/// platform reports one that is valid text. Which directory that is depends
/// on the environment, so nothing more is promised of the value.
#[verifier::external_body]
fn home_dir_string() -> (r: Option<String>) {
    match dirs::home_dir() {
        Some(p) => p.into_os_string().into_string().ok(),
        None => None,
    }
}

/// The storage path under a given home directory.
pub open spec fn config_path_of(home: Seq<char>) -> Seq<char> {
    home + "/.ssh_manager/config.json"@
}

/// Builds the storage path under a given home directory.
pub fn config_path_in(home: &str) -> (r: String)
    ensures
        r@ == config_path_of(home@),
{
    let mut s = String::new();
    s.append(home);
    s.append("/.ssh_manager/config.json");
    proof {
        assert(s@ =~= config_path_of(home@));
    }
    s
}

/// The per-user storage path, `<home>/.ssh_manager/config.json`; `None`
/// when no home directory is known, which the caller treats as fatal.
pub fn config_path() -> (r: Option<String>)
    ensures
        r matches Some(p) ==> exists|home: Seq<char>| p@ == config_path_of(home),
{
    match home_dir_string() {
        None => None,
        Some(h) => {
            let p = config_path_in(h.as_str());
            proof {
                assert(p@ == config_path_of(h@));
            }
            Some(p)
        },
    }
}

} // verus!
