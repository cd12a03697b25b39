//! Where the agent keeps its files: `~/.meeting-agent`, its `meetings`
//! directory and its `config.json`.
use vstd::prelude::*;

use crate::paths::{join_spec, path_join};
use crate::text::{chars_of, string_of};

verus! {

broadcast use vstd::string::group_string_axioms;

/// `dirs::home_dir`: the current user's home directory, if one can be found.
/// Trusted: it makes the call; what it finds depends on the environment and
/// nothing is claimed of it.
#[verifier::external_body]
fn home_dir() -> (r: Option<String>) {
    match dirs::home_dir() {
        Some(p) => Some(p.to_string_lossy().into_owned()),
        None => None,
    }
}

/// The data directory under a home directory.
pub open spec fn data_dir_spec(home: Seq<char>) -> Seq<char> {
    join_spec(home, ".meeting-agent"@)
}

/// The data directory, given the home directory found (or not).
pub fn data_dir_in(home: Option<&str>) -> (r: Result<String, String>)
    ensures
        match home {
            Some(h) => r matches Ok(p) && p@ == data_dir_spec(h@),
            None => r matches Err(e) && e@ == "Could not find home directory"@,
        },
{
    match home {
        Some(h) => Ok(path_join(h, ".meeting-agent")),
        None => Err(string_of(&chars_of("Could not find home directory"))),
    }
}

/// The data directory (`~/.meeting-agent`).
pub fn data_dir() -> (r: Result<String, String>)
    ensures
        r matches Ok(p) ==> exists|h: Seq<char>| p@ == data_dir_spec(h),
        r matches Err(e) ==> e@ == "Could not find home directory"@,
{
    let home = home_dir();
    match &home {
        Some(h) => data_dir_in(Some(h.as_str())),
        None => data_dir_in(None),
    }
}

/// The meetings directory under a home directory.
pub open spec fn meetings_dir_spec(home: Seq<char>) -> Seq<char> {
    join_spec(data_dir_spec(home), "meetings"@)
}

/// The config file under a home directory.
pub open spec fn config_path_spec(home: Seq<char>) -> Seq<char> {
    join_spec(data_dir_spec(home), "config.json"@)
}

/// The directory of one meeting under a home directory.
pub open spec fn meeting_dir_spec(home: Seq<char>, meeting_id: Seq<char>) -> Seq<char> {
    join_spec(meetings_dir_spec(home), meeting_id)
}

/// The meetings directory (`~/.meeting-agent/meetings`).
pub fn meetings_dir() -> (r: Result<String, String>)
    ensures
        r matches Ok(p) ==> exists|h: Seq<char>| p@ == meetings_dir_spec(h),
        r matches Err(e) ==> e@ == "Could not find home directory"@,
{
    match data_dir() {
        Ok(d) => {
            let p = path_join(d.as_str(), "meetings");
            proof {
                let h = choose|h: Seq<char>| d@ == data_dir_spec(h);
                assert(p@ == meetings_dir_spec(h));
            }
            Ok(p)
        },
        Err(e) => Err(e),
    }
}

/// The config file path (`~/.meeting-agent/config.json`).
pub fn config_path() -> (r: Result<String, String>)
    ensures
        r matches Ok(p) ==> exists|h: Seq<char>| p@ == config_path_spec(h),
        r matches Err(e) ==> e@ == "Could not find home directory"@,
{
    match data_dir() {
        Ok(d) => {
            let p = path_join(d.as_str(), "config.json");
            proof {
                let h = choose|h: Seq<char>| d@ == data_dir_spec(h);
                assert(p@ == config_path_spec(h));
            }
            Ok(p)
        },
        Err(e) => Err(e),
    }
}

/// The directory of one meeting (`~/.meeting-agent/meetings/<id>`).
pub fn meeting_dir(meeting_id: &str) -> (r: Result<String, String>)
    ensures
        r matches Ok(p) ==> exists|h: Seq<char>| p@ == meeting_dir_spec(h, meeting_id@),
        r matches Err(e) ==> e@ == "Could not find home directory"@,
{
    match meetings_dir() {
        Ok(d) => {
            let p = path_join(d.as_str(), meeting_id);
            proof {
                let h = choose|h: Seq<char>| d@ == meetings_dir_spec(h);
                assert(p@ == meeting_dir_spec(h, meeting_id@));
            }
            Ok(p)
        },
        Err(e) => Err(e),
    }
}

} // verus!
