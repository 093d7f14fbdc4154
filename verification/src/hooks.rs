//! Pod hooks: commands a pod runs before a wake plan, defined by small TOML
//! files next to their scripts.

use vstd::prelude::*;
use vstd::string::*;
use crate::config::{
    bool_field, duration_fits, duration_spec, flag_of, parse_duration, string_field, sub_table,
    table_get, table_of, text_of, ConfigValue,
};
use crate::model::{slug_error, slug_ok, validate_slug, PodRef};
use crate::paths::file_name;
use crate::runtime::{signed_text, strings_view};
use crate::service::{join_with, joined};
use crate::text::{
    append, chars_of, debug_quoted, debug_text, is_alnum, replace_char, replace_char_str, str_eq,
    string_of_range,
};

verus! {

/// The one hook phase: before a wake plan.
pub const PRE_PLAN: &'static str = "pre-plan";

/// Refuses every phase but `pre-plan`.
pub fn validate_phase(phase: &str) -> (r: Result<(), String>)
    ensures
        r is Ok <==> phase@ == "pre-plan"@,
        r matches Err(e) ==> e@ == "invalid hook phase "@ + debug_text(phase@)
            + "; currently supported: pre-plan"@,
{
    if str_eq(phase, PRE_PLAN) {
        Ok(())
    } else {
        let mut e = String::from_str("invalid hook phase ");
        append(&mut e, debug_quoted(phase).as_str());
        append(&mut e, "; currently supported: pre-plan");
        Err(e)
    }
}

/// The timeout a new hook is given: a duration of at least one second.
pub open spec fn hook_timeout_spec(timeout: Seq<char>) -> Result<nat, Seq<char>> {
    match duration_spec(timeout) {
        Err(e) => Err("invalid hook timeout "@ + debug_text(timeout) + ": "@ + e),
        Ok(d) => if d == 0 {
            Err("hook timeout must be at least 1 second"@)
        } else {
            Ok(d)
        },
    }
}

/// Checks the timeout of a new hook.
pub fn hook_timeout(timeout: &str) -> (r: Result<u64, String>)
    requires
        duration_fits(timeout@),
    ensures
        match hook_timeout_spec(timeout@) {
            Ok(d) => r matches Ok(x) && x as nat == d,
            Err(e) => r matches Err(x) && x@ == e,
        },
{
    match parse_duration(timeout) {
        Err(error) => {
            let mut e = String::from_str("invalid hook timeout ");
            append(&mut e, debug_quoted(timeout).as_str());
            append(&mut e, ": ");
            append(&mut e, error.as_str());
            Err(e)
        },
        Ok(d) => if d == 0 {
            Err(String::from_str("hook timeout must be at least 1 second"))
        } else {
            Ok(d)
        },
    }
}

/// A byte a hook command word may hold unquoted.
pub open spec fn shell_safe_char(c: char) -> bool {
    is_alnum(c) || c == '/' || c == '.' || c == '-' || c == '_' || c == ':' || c == '=' || c == '+'
}

/// A hook command word as written: as is when every character is safe,
/// else single-quoted with each `'` closed, escaped and reopened.
pub open spec fn hook_word(w: Seq<char>) -> Seq<char> {
    if forall|i: int| 0 <= i < w.len() ==> shell_safe_char(#[trigger] w[i]) {
        w
    } else {
        "'"@ + replace_char(w, '\'', "'\\''"@) + "'"@
    }
}

/// Quotes one word of a hook command for `sh` when it needs quoting.
pub fn shell_quote(arg: &str) -> (r: String)
    ensures
        r@ == hook_word(arg@),
{
    let v = chars_of(arg);
    let mut i: usize = 0;
    let mut safe = true;
    while i < v.len()
        invariant
            v@ == arg@,
            i <= v@.len(),
            safe == forall|j: int| 0 <= j < i ==> shell_safe_char(#[trigger] v@[j]),
        decreases v@.len() - i,
    {
        let c = v[i];
        let ok = ('a' <= c && c <= 'z') || ('A' <= c && c <= 'Z') || ('0' <= c && c <= '9') || c
            == '/' || c == '.' || c == '-' || c == '_' || c == ':' || c == '=' || c == '+';
        proof {
            assert(ok == shell_safe_char(v@[i as int]));
            if !ok {
                assert(!shell_safe_char(v@[i as int]));
            }
        }
        safe = safe && ok;
        i = i + 1;
    }
    if safe {
        String::from_str(arg)
    } else {
        let mut r = String::from_str("'");
        append(&mut r, replace_char_str(arg, '\'', "'\\''").as_str());
        append(&mut r, "'");
        r
    }
}

/// A hook command from its words: each quoted as needed, joined by spaces;
/// at least one word is required.
pub fn shell_join(args: &Vec<String>) -> (r: Result<String, String>)
    ensures
        args@.len() == 0 ==> (r matches Err(e) && e@ == "hook command is required after --"@),
        args@.len() > 0 ==> (r matches Ok(s) && s@ == joined(
            strings_view(args@).map_values(|w: Seq<char>| hook_word(w)),
            " "@,
        )),
{
    if args.len() == 0 {
        return Err(String::from_str("hook command is required after --"));
    }
    let ghost src = strings_view(args@);
    let mut parts: Vec<String> = Vec::new();
    let mut i: usize = 0;
    while i < args.len()
        invariant
            src == strings_view(args@),
            i <= args@.len(),
            strings_view(parts@) == src.subrange(0, i as int).map_values(|w: Seq<char>| hook_word(w)),
        decreases args@.len() - i,
    {
        let q = shell_quote(args[i].as_str());
        let ghost before = strings_view(parts@);
        parts.push(q);
        proof {
            assert(strings_view(parts@) =~= before.push(hook_word(src[i as int])));
            assert(src.subrange(0, i + 1).map_values(|w: Seq<char>| hook_word(w)) =~= src.subrange(
                0,
                i as int,
            ).map_values(|w: Seq<char>| hook_word(w)).push(hook_word(src[i as int])));
        }
        i = i + 1;
    }
    proof {
        assert(src.subrange(0, i as int) =~= src);
    }
    Ok(join_with(&parts, " "))
}

/// The TOML file of a new hook: enabled, with its command and timeout.
pub fn hook_toml(command: &str, timeout: &str) -> (r: String)
    ensures
        r@ == "[hook]\nenabled = true\ncommand = "@ + debug_text(command@) + "\ntimeout = "@
            + debug_text(timeout@) + "\n"@,
{
    let mut r = String::from_str("[hook]\nenabled = true\ncommand = ");
    append(&mut r, debug_quoted(command).as_str());
    append(&mut r, "\ntimeout = ");
    append(&mut r, debug_quoted(timeout).as_str());
    append(&mut r, "\n");
    r
}

/// The script a new hook starts with.
pub const HOOK_SCRIPT: &'static str = "#!/usr/bin/env sh\nset -eu\n\n# Fill in this hook script, or update command in the adjacent TOML.\n";

/// Index of the last `.` of a name, or -1.
pub open spec fn last_dot_from(n: Seq<char>, i: int) -> int
    decreases i,
{
    if i <= 0 || i > n.len() {
        -1
    } else if n[i - 1] == '.' {
        i - 1
    } else {
        last_dot_from(n, i - 1)
    }
}

/// `Path::file_stem`: the file name without its last extension; a name whose
/// only dot leads it is its own stem.
pub open spec fn file_stem(p: Seq<char>) -> Option<Seq<char>> {
    match file_name(p) {
        None => None,
        Some(n) => {
            let i = last_dot_from(n, n.len() as int);
            if i <= 0 {
                Some(n)
            } else {
                Some(n.subrange(0, i))
            }
        },
    }
}

/// `Path::file_stem`.
pub fn file_stem_exec(path: &str) -> (r: Option<String>)
    ensures
        match r {
            Some(s) => file_stem(path@) == Some(s@),
            None => file_stem(path@) is None,
        },
{
    let name = match crate::paths::file_name_exec(path) {
        Some(n) => n,
        None => {
            return None;
        },
    };
    let v = chars_of(name.as_str());
    let mut i = v.len();
    while i > 0 && v[i - 1] != '.'
        invariant
            i <= v@.len(),
            v@ == name@,
            last_dot_from(v@, v@.len() as int) == last_dot_from(v@, i as int),
        decreases i,
    {
        i = i - 1;
    }
    if i <= 1 {
        Some(name)
    } else {
        Some(string_of_range(&v, 0, i - 1))
    }
}

/// A hook as its TOML file defines it.
pub struct Hook {
    pub id: String,
    pub phase: String,
    pub enabled: bool,
    pub command: String,
    pub timeout: String,
    pub path: String,
}

/// The `[hook]` table of a hook file, or the error for its absence.
pub open spec fn hook_table_spec(t: Seq<(String, ConfigValue)>) -> Option<Seq<(String, ConfigValue)>> {
    table_of(table_get(t, "hook"@))
}

/// A hook read from its file at `path` in `phase`: the `[hook]` table must
/// hold a string command and a string timeout that reads as a duration; the
/// file's stem, a slug, is the hook's id; a hook is enabled unless it says
/// otherwise.
pub open spec fn read_hook_spec(path: Seq<char>, phase: Seq<char>, t: Seq<(String, ConfigValue)>) -> Result<
    (Seq<char>, bool, Seq<char>, Seq<char>),
    Seq<char>,
> {
    match hook_table_spec(t) {
        None => Err("hook TOML must contain a [hook] table"@),
        Some(h) => match text_of(table_get(h, "command"@)) {
            None => Err("hook command must be a string"@),
            Some(command) => match text_of(table_get(h, "timeout"@)) {
                None => Err("hook timeout must be a string"@),
                Some(timeout) => match duration_spec(timeout) {
                    Err(e) => Err("invalid hook timeout "@ + debug_text(timeout) + " in "@ + path + ": "@
                        + e),
                    Ok(_) => match file_stem(path) {
                        None => Err("hook path has no filename: "@ + path),
                        Some(id) => if !slug_ok(id) {
                            Err(slug_error(id))
                        } else {
                            Ok(
                                (
                                    id,
                                    match flag_of(table_get(h, "enabled"@)) {
                                        Some(b) => b,
                                        None => true,
                                    },
                                    command,
                                    timeout,
                                ),
                            )
                        },
                    },
                },
            },
        },
    }
}

/// Whether a hook file's timeout, when it is a string, reads without
/// overflow.
pub open spec fn hook_file_fits(t: Seq<(String, ConfigValue)>) -> bool {
    match hook_table_spec(t) {
        Some(h) => match text_of(table_get(h, "timeout"@)) {
            Some(timeout) => duration_fits(timeout),
            None => true,
        },
        None => true,
    }
}

/// Reads a hook from its parsed TOML file.
pub fn read_hook(path: &str, phase: &str, table: &Vec<(String, ConfigValue)>) -> (r: Result<Hook, String>)
    requires
        hook_file_fits(table@),
    ensures
        match read_hook_spec(path@, phase@, table@) {
            Ok(h) => r matches Ok(x) && x.id@ == h.0 && x.enabled == h.1 && x.command@ == h.2
                && x.timeout@ == h.3 && x.phase@ == phase@ && x.path@ == path@,
            Err(e) => r matches Err(x) && x@ == e,
        },
{
    let hook = match sub_table(table, "hook") {
        Some(h) => h,
        None => {
            return Err(String::from_str("hook TOML must contain a [hook] table"));
        },
    };
    let command = match string_field(hook, "command") {
        Some(c) => c,
        None => {
            return Err(String::from_str("hook command must be a string"));
        },
    };
    let timeout = match string_field(hook, "timeout") {
        Some(t) => t,
        None => {
            return Err(String::from_str("hook timeout must be a string"));
        },
    };
    match parse_duration(timeout.as_str()) {
        Err(error) => {
            let mut e = String::from_str("invalid hook timeout ");
            append(&mut e, debug_quoted(timeout.as_str()).as_str());
            append(&mut e, " in ");
            append(&mut e, path);
            append(&mut e, ": ");
            append(&mut e, error.as_str());
            return Err(e);
        },
        Ok(_) => {},
    }
    let id = match file_stem_exec(path) {
        Some(s) => s,
        None => {
            let mut e = String::from_str("hook path has no filename: ");
            append(&mut e, path);
            return Err(e);
        },
    };
    validate_slug(id.as_str())?;
    let enabled = match bool_field(hook, "enabled") {
        Some(b) => b,
        None => true,
    };
    Ok(Hook {
        id,
        phase: String::from_str(phase),
        enabled,
        command,
        timeout,
        path: String::from_str(path),
    })
}

/// The line `pod hook list` prints for a hook.
pub fn hook_list_line(hook: &Hook) -> (r: String)
    ensures
        r@ == hook.phase@ + " "@ + hook.id@ + " enabled="@ + (if hook.enabled {
            "true"@
        } else {
            "false"@
        }) + " timeout="@ + hook.timeout@ + " command="@ + hook.command@ + " path="@ + hook.path@,
{
    let mut r = hook.phase.clone();
    append(&mut r, " ");
    append(&mut r, hook.id.as_str());
    append(&mut r, " enabled=");
    append(&mut r, if hook.enabled { "true" } else { "false" });
    append(&mut r, " timeout=");
    append(&mut r, hook.timeout.as_str());
    append(&mut r, " command=");
    append(&mut r, hook.command.as_str());
    append(&mut r, " path=");
    append(&mut r, hook.path.as_str());
    r
}

/// How running a hook went.
pub enum HookRun {
    /// The command exited successfully.
    Succeeded,
    /// The command failed with this exit code, or was ended by a signal.
    Failed(Option<i32>),
    /// The command outlived its timeout and was killed.
    TimedOut,
    /// The command could not be run.
    Error(String),
}

/// The line printed after running a hook.
pub open spec fn hook_run_line_spec(pod: Seq<char>, phase: Seq<char>, id: Seq<char>, run: HookRun) -> Seq<char> {
    "hook "@ + pod + " "@ + phase + "/"@ + id + match run {
        HookRun::Succeeded => " status=ok"@,
        HookRun::Failed(code) => " status=failed exit="@ + match code {
            Some(c) => signed_text(c as int),
            None => "signal"@,
        },
        HookRun::TimedOut => " status=timeout"@,
        HookRun::Error(e) => " status=error detail="@ + e@,
    }
}

/// Writes the line printed after running a hook.
pub fn hook_run_line(pod: &PodRef, phase: &str, id: &str, run: &HookRun) -> (r: String)
    ensures
        r@ == hook_run_line_spec(pod.slug@, phase@, id@, *run),
{
    let mut r = String::from_str("hook ");
    append(&mut r, pod.slug.as_str());
    append(&mut r, " ");
    append(&mut r, phase);
    append(&mut r, "/");
    append(&mut r, id);
    match run {
        HookRun::Succeeded => append(&mut r, " status=ok"),
        HookRun::Failed(code) => {
            append(&mut r, " status=failed exit=");
            append(&mut r, crate::runs::exit_code_text(*code).as_str());
        },
        HookRun::TimedOut => append(&mut r, " status=timeout"),
        HookRun::Error(e) => {
            append(&mut r, " status=error detail=");
            append(&mut r, e.as_str());
        },
    }
    r
}

/// Checks a hook reference and gives the line printed once the hook's
/// `enabled` flag is set.
pub open spec fn toggle_spec(pod: Seq<char>, phase: Seq<char>, hook: Seq<char>, enabled: bool) -> Result<
    Seq<char>,
    Seq<char>,
> {
    if phase != "pre-plan"@ {
        Err("invalid hook phase "@ + debug_text(phase) + "; currently supported: pre-plan"@)
    } else if !slug_ok(hook) {
        Err(slug_error(hook))
    } else {
        Ok((if enabled {
            "enabled "@
        } else {
            "disabled "@
        }) + pod + " "@ + phase + "/"@ + hook)
    }
}

fn toggle_hook(pod: &PodRef, phase: &str, hook: &str, enabled: bool) -> (r: Result<String, String>)
    ensures
        crate::model::text_result(r) == toggle_spec(pod.slug@, phase@, hook@, enabled),
{
    validate_phase(phase)?;
    validate_slug(hook)?;
    let mut r = String::from_str(if enabled { "enabled " } else { "disabled " });
    append(&mut r, pod.slug.as_str());
    append(&mut r, " ");
    append(&mut r, phase);
    append(&mut r, "/");
    append(&mut r, hook);
    Ok(r)
}

/// Checks a hook to enable and gives the line printed once it is.
pub fn enable_hook(pod: &PodRef, phase: &str, hook: &str) -> (r: Result<String, String>)
    ensures
        crate::model::text_result(r) == toggle_spec(pod.slug@, phase@, hook@, true),
{
    toggle_hook(pod, phase, hook, true)
}

/// Checks a hook to disable and gives the line printed once it is.
pub fn disable_hook(pod: &PodRef, phase: &str, hook: &str) -> (r: Result<String, String>)
    ensures
        crate::model::text_result(r) == toggle_spec(pod.slug@, phase@, hook@, false),
{
    toggle_hook(pod, phase, hook, false)
}

/// Checks the phase of `pod hook run`.
pub fn run_hooks(phase: &str) -> (r: Result<(), String>)
    ensures
        r is Ok <==> phase@ == "pre-plan"@,
        r matches Err(e) ==> e@ == "invalid hook phase "@ + debug_text(phase@)
            + "; currently supported: pre-plan"@,
{
    validate_phase(phase)
}

} // verus!
