//! The background loop worker: its settings from the environment, its
//! prompt arguments, and the pid file that keeps one worker alive.

use vstd::prelude::*;
use vstd::string::*;
use crate::runtime::strings_view;
use crate::text::{parse_u32, parse_u64, parse_u64_str, str_eq, trim, trim_str};

verus! {

/// What `serde_json::from_str::<Vec<String>>` reads from a text: the
/// strings of a JSON array of strings, or nothing when the text is not one.
pub uninterp spec fn json_string_array(text: Seq<char>) -> Option<Seq<Seq<char>>>;

/// `serde_json::from_str::<Vec<String>>(text).ok()`: its result is named by
/// `json_string_array`, and nothing more is claimed of it.
#[verifier::external_body]
fn json_strings(text: &str) -> (r: Option<Vec<String>>)
    ensures
        match r {
            Some(v) => json_string_array(text@) == Some(strings_view(v@)),
            None => json_string_array(text@) is None,
        },
{
    serde_json::from_str::<Vec<String>>(text).ok()
}

/// The prompt arguments a worker was given as a JSON array of strings;
/// refused when there are none or the text is not such an array.
pub fn parse_prompt_args(raw: Option<&str>) -> (r: Result<Vec<String>, ()>)
    ensures
        match raw {
            None => r is Err,
            Some(t) => match json_string_array(t@) {
                Some(v) => r matches Ok(x) && strings_view(x@) == v,
                None => r is Err,
            },
        },
{
    let json = match raw {
        Some(j) => j,
        None => {
            return Err(());
        },
    };
    match json_strings(json) {
        Some(v) => Ok(v),
        None => Err(()),
    }
}

/// The seconds between wakes: `ORQA_INTERVAL` when it reads as a number,
/// else a minute.
pub fn worker_interval(value: Option<&str>) -> (r: u64)
    ensures
        r == (match value {
            Some(v) => match parse_u64(v@) {
                Some(n) => n,
                None => 60,
            },
            None => 60,
        }),
{
    match value {
        Some(v) => match parse_u64_str(v) {
            Some(n) => n,
            None => 60,
        },
        None => 60,
    }
}

/// Whether wakes are forced: `ORQA_FORCE` set to `1`.
pub fn worker_force(value: Option<&str>) -> (r: bool)
    ensures
        r == (match value {
            Some(v) => v@ == "1"@,
            None => false,
        }),
{
    match value {
        Some(v) => str_eq(v, "1"),
        None => false,
    }
}

/// Whether the pid file still names this worker: it exists, was read, and
/// holds exactly this pid (an unreadable number counts as zero).
pub fn pidfile_matches(contents: Option<&str>, pid: u32) -> (r: bool)
    ensures
        r == (match contents {
            Some(c) => match parse_u32(trim(c@)) {
                Some(n) => n == pid,
                None => pid == 0,
            },
            None => false,
        }),
{
    match contents {
        Some(c) => {
            let t = trim_str(c);
            let v = crate::text::chars_of(t.as_str());
            proof {
                assert(v@.subrange(0, v@.len() as int) =~= v@);
            }
            let n = match crate::text::parse_u32_range(&v, 0, v.len()) {
                Some(n) => n,
                None => 0,
            };
            n == pid
        },
        None => false,
    }
}

/// The prompt the daemon wakes fins with when none is given.
pub const DEFAULT_DAEMON_PROMPT: &'static str = "handle your open Orqa mail and tasks";

/// Refuses a daemon interval of zero seconds.
pub fn validate_daemon_interval(interval: u64) -> (r: Result<(), String>)
    ensures
        r is Ok <==> interval != 0,
        r matches Err(e) ==> e@ == "daemon interval must be at least 1 second"@,
{
    if interval == 0 {
        Err(String::from_str("daemon interval must be at least 1 second"))
    } else {
        Ok(())
    }
}

/// The prompt arguments of the daemon: those given, else the default prompt.
pub fn daemon_args(args: Vec<String>) -> (r: Vec<String>)
    ensures
        args@.len() > 0 ==> r@ == args@,
        args@.len() == 0 ==> r@.len() == 1 && r@[0]@ == DEFAULT_DAEMON_PROMPT@,
{
    if args.len() > 0 {
        args
    } else {
        let mut r: Vec<String> = Vec::new();
        r.push(String::from_str(DEFAULT_DAEMON_PROMPT));
        r
    }
}

} // verus!
