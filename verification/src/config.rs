//! Pod and fin configuration: templates, run policy durations and backend
//! command selection.

use vstd::prelude::*;
use vstd::string::*;
use crate::mailbox::tasks::{fields_view, lex_less, lex_lt};
use crate::model::{fin_home_of, pod_root_spec, slug_error, slug_ok, FinRef, Orqa, PodRef};
use crate::paths::{join, join_path};
use crate::text::{
    all_digits, append, chars_of, debug_quoted, debug_text, is_digit, lower_matches,
    lower_matches_range, parse_u64, parse_u64_range, replace_all, replace_char, replace_char_str,
    opt_string, replace_str, trim, trim_bounds, trim_str,
};

verus! {

/// When a fin may run: the shortest gap between runs while work waits, and the
/// longest an idle fin goes without a run, both in seconds. `None` turns the
/// rule off.
pub struct RunPolicy {
    pub debounce: Option<u64>,
    pub exec_always: Option<u64>,
}

/// Index of the first character at or after `i` that is not an ASCII digit, or
/// the length.
pub open spec fn first_non_digit(s: Seq<char>, i: int) -> int
    decreases s.len() - i,
{
    if i < 0 || i >= s.len() {
        s.len() as int
    } else if is_digit(s[i]) {
        first_non_digit(s, i + 1)
    } else {
        i
    }
}

/// Seconds per unit for a duration suffix, compared ignoring ASCII case.
pub open spec fn unit_factor(u: Seq<char>) -> Option<nat> {
    if u.len() == 0 || lower_matches(u, "s"@) || lower_matches(u, "sec"@) || lower_matches(
        u,
        "secs"@,
    ) || lower_matches(u, "second"@) || lower_matches(u, "seconds"@) {
        Some(1)
    } else if lower_matches(u, "m"@) || lower_matches(u, "min"@) || lower_matches(u, "mins"@)
        || lower_matches(u, "minute"@) || lower_matches(u, "minutes"@) {
        Some(60)
    } else if lower_matches(u, "h"@) || lower_matches(u, "hr"@) || lower_matches(u, "hrs"@)
        || lower_matches(u, "hour"@) || lower_matches(u, "hours"@) {
        Some(3600)
    } else if lower_matches(u, "d"@) || lower_matches(u, "day"@) || lower_matches(u, "days"@) {
        Some(86400)
    } else {
        None
    }
}

/// A duration text read as a number and a unit factor: leading digits, then an
/// optional unit after optional white space.
pub open spec fn duration_parts(s: Seq<char>) -> Result<(u64, nat), Seq<char>> {
    let v = trim(s);
    if v.len() == 0 {
        Err("duration cannot be empty"@)
    } else {
        let k = first_non_digit(v, 0);
        match parse_u64(v.subrange(0, k)) {
            None => Err("duration must start with a positive integer"@),
            Some(n) => match unit_factor(trim(v.subrange(k, v.len() as int))) {
                None => Err("use a duration like 30s, 5m, 3h, or 1 day"@),
                Some(f) => Ok((n, f)),
            },
        }
    }
}

/// The seconds a duration text stands for, or why it is refused.
pub open spec fn duration_spec(s: Seq<char>) -> Result<nat, Seq<char>> {
    match duration_parts(s) {
        Ok(p) => Ok((p.0 * p.1) as nat),
        Err(e) => Err(e),
    }
}

/// Whether the seconds of a well-formed duration text fit in a `u64`.
pub open spec fn duration_fits(s: Seq<char>) -> bool {
    match duration_parts(s) {
        Ok(p) => p.0 * p.1 <= u64::MAX,
        Err(_) => true,
    }
}

proof fn lemma_first_non_digit(s: Seq<char>, i: int)
    requires
        0 <= i <= s.len(),
    ensures
        i <= first_non_digit(s, i) <= s.len(),
        forall|j: int| i <= j < first_non_digit(s, i) ==> is_digit(#[trigger] s[j]),
        first_non_digit(s, i) < s.len() ==> !is_digit(s[first_non_digit(s, i)]),
    decreases s.len() - i,
{
    if i < s.len() && is_digit(s[i]) {
        lemma_first_non_digit(s, i + 1);
    }
}

/// An ASCII letter.
pub open spec fn is_letter(c: char) -> bool {
    ('a' <= c && c <= 'z') || ('A' <= c && c <= 'Z')
}

/// The first non-digit from `i` is at `k` when digits run from `i` to `k`.
proof fn lemma_first_non_digit_at(s: Seq<char>, i: int, k: int)
    requires
        0 <= i <= k <= s.len(),
        forall|j: int| i <= j < k ==> is_digit(s[j]),
        k < s.len() ==> !is_digit(s[k]),
    ensures
        first_non_digit(s, i) == k,
    decreases k - i,
{
    if i < k {
        lemma_first_non_digit_at(s, i + 1, k);
    }
}

/// A text made of a number, an optional space and a unit word reads as that
/// number followed by that word.
pub proof fn lemma_split_duration(n: u64, sep: Seq<char>, u: Seq<char>)
    requires
        sep == Seq::<char>::empty() || sep == " "@,
        u.len() > 0,
        is_letter(u[0]),
        is_letter(u.last()),
    ensures
        ({
            let d = crate::text::decimal(n as nat);
            let v = d + sep + u;
            &&& trim(v) == v
            &&& first_non_digit(v, 0) == d.len()
            &&& v.subrange(0, d.len() as int) == d
            &&& trim(v.subrange(d.len() as int, v.len() as int)) == u
            &&& parse_u64(d) == Some(n)
        }),
{
    reveal_strlit(" ");
    let d = crate::text::decimal(n as nat);
    crate::text::lemma_decimal_digits(n as nat);
    crate::text::lemma_parse_decimal(n);
    let v = d + sep + u;
    assert(is_digit(d[0]));
    assert(v[0] == d[0]);
    assert(v[v.len() - 1] == u.last());
    assert(!crate::text::is_ws(v[0]) && !crate::text::is_ws(v[v.len() - 1]));
    assert(crate::text::skip_ws_from(v, 0) == 0);
    assert(crate::text::back_ws_to(v, v.len() as int) == v.len());
    assert(v.subrange(0, v.len() as int) =~= v);
    assert forall|j: int| 0 <= j < d.len() implies is_digit(v[j]) by {
        assert(v[j] == d[j]);
    }
    assert(v[d.len() as int] == (if sep.len() == 0 { u[0] } else { ' ' }));
    lemma_first_non_digit_at(v, 0, d.len() as int);
    assert(v.subrange(0, d.len() as int) =~= d);
    let rest = v.subrange(d.len() as int, v.len() as int);
    assert(rest =~= sep + u);
    assert(rest[rest.len() - 1] == u.last());
    assert(crate::text::back_ws_to(rest, rest.len() as int) == rest.len());
    if sep.len() == 0 {
        assert(crate::text::skip_ws_from(rest, 0) == 0);
        assert(rest.subrange(0, rest.len() as int) =~= u);
    } else {
        assert(rest[0] == ' ' && rest[1] == u[0]);
        assert(crate::text::skip_ws_from(rest, 1) == 1);
        assert(crate::text::skip_ws_from(rest, 0) == 1);
        assert(rest.subrange(1, rest.len() as int) =~= u);
    }
}

/// Each unit word, in any letter case, has its fixed number of seconds:
/// `s`, `sec`, `secs`, `second`, `seconds` one; `m`, `min`, `mins`,
/// `minute`, `minutes` sixty; `h`, `hr`, `hrs`, `hour`, `hours` 3600; `d`,
/// `day`, `days` 86400.
pub proof fn law_unit_words(u: Seq<char>)
    ensures
        lower_matches(u, "s"@) || lower_matches(u, "sec"@) || lower_matches(u, "secs"@) || lower_matches(
            u,
            "second"@,
        ) || lower_matches(u, "seconds"@) ==> unit_factor(u) == Some(1nat),
        lower_matches(u, "m"@) || lower_matches(u, "min"@) || lower_matches(u, "mins"@) || lower_matches(
            u,
            "minute"@,
        ) || lower_matches(u, "minutes"@) ==> unit_factor(u) == Some(60nat),
        lower_matches(u, "h"@) || lower_matches(u, "hr"@) || lower_matches(u, "hrs"@) || lower_matches(
            u,
            "hour"@,
        ) || lower_matches(u, "hours"@) ==> unit_factor(u) == Some(3600nat),
        lower_matches(u, "d"@) || lower_matches(u, "day"@) || lower_matches(u, "days"@) ==> unit_factor(u)
            == Some(86400nat),
{
    reveal_strlit("s");
    reveal_strlit("sec");
    reveal_strlit("secs");
    reveal_strlit("second");
    reveal_strlit("seconds");
    reveal_strlit("m");
    reveal_strlit("min");
    reveal_strlit("mins");
    reveal_strlit("minute");
    reveal_strlit("minutes");
    reveal_strlit("h");
    reveal_strlit("hr");
    reveal_strlit("hrs");
    reveal_strlit("hour");
    reveal_strlit("hours");
    reveal_strlit("d");
    reveal_strlit("day");
    reveal_strlit("days");
    if u.len() > 0 {
        // The unit classes differ in their first letter, lowercased.
        let first = crate::text::lower_code(u[0]);
        assert(first == first);
    }
}

/// A duration written as a number, an optional space and a unit word is
/// that number of units: `N hour` is N times 3600 seconds.
pub proof fn law_duration_text(n: u64, sep: Seq<char>, u: Seq<char>)
    requires
        sep == Seq::<char>::empty() || sep == " "@,
        u.len() > 0,
        is_letter(u[0]),
        is_letter(u.last()),
        unit_factor(u) is Some,
    ensures
        duration_spec(crate::text::decimal(n as nat) + sep + u) == Ok::<nat, Seq<char>>(
            (n * unit_factor(u)->Some_0) as nat,
        ),
{
    lemma_split_duration(n, sep, u);
}

/// The number and unit factor of a duration text.
fn duration_parts_exec(value: &str) -> (r: Result<(u64, u64), String>)
    ensures
        match duration_parts(value@) {
            Ok(p) => r matches Ok(q) && q.0 == p.0 && q.1 == p.1,
            Err(e) => r matches Err(x) && x@ == e,
        },
{
    let v = chars_of(value);
    let (a, b) = trim_bounds(&v, 0, v.len());
    proof {
        assert(v@.subrange(0, v@.len() as int) =~= value@);
    }
    let ghost t = trim(value@);
    assert(t == v@.subrange(a as int, b as int));
    if a == b {
        return Err(String::from_str("duration cannot be empty"));
    }
    let mut k = a;
    while k < b && '0' <= v[k] && v[k] <= '9'
        invariant
            a <= k <= b <= v@.len(),
            t == v@.subrange(a as int, b as int),
            first_non_digit(t, 0) == first_non_digit(t, k - a),
        decreases b - k,
    {
        k = k + 1;
    }
    proof {
        assert(first_non_digit(t, 0) == k - a);
        assert(t.subrange(0, k - a) =~= v@.subrange(a as int, k as int));
    }
    let n = match parse_u64_range(&v, a, k) {
        Some(n) => n,
        None => {
            return Err(String::from_str("duration must start with a positive integer"));
        },
    };
    let (ua, ub) = trim_bounds(&v, k, b);
    proof {
        assert(t.subrange(k - a, t.len() as int) =~= v@.subrange(k as int, b as int));
    }
    let ghost u = v@.subrange(ua as int, ub as int);
    assert(u == trim(t.subrange(k - a, t.len() as int)));
    let f: u64 = if ua == ub || lower_matches_range(&v, ua, ub, "s") || lower_matches_range(
        &v,
        ua,
        ub,
        "sec",
    ) || lower_matches_range(&v, ua, ub, "secs") || lower_matches_range(&v, ua, ub, "second")
        || lower_matches_range(&v, ua, ub, "seconds") {
        1
    } else if lower_matches_range(&v, ua, ub, "m") || lower_matches_range(&v, ua, ub, "min")
        || lower_matches_range(&v, ua, ub, "mins") || lower_matches_range(&v, ua, ub, "minute")
        || lower_matches_range(&v, ua, ub, "minutes") {
        60
    } else if lower_matches_range(&v, ua, ub, "h") || lower_matches_range(&v, ua, ub, "hr")
        || lower_matches_range(&v, ua, ub, "hrs") || lower_matches_range(&v, ua, ub, "hour")
        || lower_matches_range(&v, ua, ub, "hours") {
        3600
    } else if lower_matches_range(&v, ua, ub, "d") || lower_matches_range(&v, ua, ub, "day")
        || lower_matches_range(&v, ua, ub, "days") {
        86400
    } else {
        return Err(String::from_str("use a duration like 30s, 5m, 3h, or 1 day"));
    };
    Ok((n, f))
}

/// Whether a duration text is refused or its seconds fit in a `u64`; where this
/// is false, reading it overflows.
pub fn duration_in_range(value: &str) -> (r: bool)
    ensures
        r == duration_fits(value@),
{
    match duration_parts_exec(value) {
        Ok((n, f)) => n.checked_mul(f).is_some(),
        Err(_) => true,
    }
}

/// Reads a duration such as `30s`, `5m`, `3h` or `1 day` as seconds; a bare
/// number is seconds.
pub fn parse_duration(value: &str) -> (r: Result<u64, String>)
    requires
        duration_fits(value@),
    ensures
        match duration_spec(value@) {
            Ok(d) => r matches Ok(x) && x as nat == d,
            Err(e) => r matches Err(x) && x@ == e,
        },
{
    match duration_parts_exec(value) {
        Ok((n, f)) => Ok(n * f),
        Err(e) => Err(e),
    }
}

/// A duration with zero treated as no duration.
pub fn nonzero_duration(duration: Option<u64>) -> (r: Option<u64>)
    ensures
        r == (match duration {
            Some(d) => if d == 0 {
                None
            } else {
                Some(d)
            },
            None => None,
        }),
{
    match duration {
        Some(d) => if d == 0 {
            None
        } else {
            Some(d)
        },
        None => None,
    }
}

/// The duration a fin runs under for one policy key: the fin's own value
/// first, then the pod's.
pub open spec fn duration_override_spec(
    pod_value: Option<Seq<char>>,
    fin_value: Option<Seq<char>>,
    key: Seq<char>,
) -> Result<Option<nat>, Seq<char>> {
    let chosen = match fin_value {
        Some(v) => Some(v),
        None => pod_value,
    };
    match chosen {
        Some(v) => match duration_spec(v) {
            Ok(d) => Ok(Some(d)),
            Err(e) => Err("invalid "@ + key + " "@ + debug_text(v) + ": "@ + e),
        },
        None => Ok(None),
    }
}

/// Whether the value a policy key resolves to can be read without overflow.
pub open spec fn override_fits(pod_value: Option<Seq<char>>, fin_value: Option<Seq<char>>) -> bool {
    match fin_value {
        Some(v) => duration_fits(v),
        None => match pod_value {
            Some(v) => duration_fits(v),
            None => true,
        },
    }
}

/// Reads the duration for `key`, preferring the fin's value over the pod's.
pub fn duration_override(pod_value: Option<&str>, fin_value: Option<&str>, key: &str) -> (r:
    Result<Option<u64>, String>)
    requires
        override_fits(crate::model::opt_text(pod_value), crate::model::opt_text(fin_value)),
    ensures
        match duration_override_spec(
            crate::model::opt_text(pod_value),
            crate::model::opt_text(fin_value),
            key@,
        ) {
            Ok(d) => r matches Ok(x) && match d {
                Some(n) => x matches Some(m) && m as nat == n,
                None => x is None,
            },
            Err(e) => r matches Err(x) && x@ == e,
        },
{
    let chosen = match fin_value {
        Some(v) => Some(v),
        None => pod_value,
    };
    match chosen {
        Some(v) => match parse_duration(v) {
            Ok(d) => Ok(Some(d)),
            Err(e) => {
                let mut m = String::from_str("invalid ");
                append(&mut m, key);
                append(&mut m, " ");
                append(&mut m, debug_quoted(v).as_str());
                append(&mut m, ": ");
                append(&mut m, e.as_str());
                Err(m)
            },
        },
        None => Ok(None),
    }
}

/// Which of a backend's argument lists a command uses.
#[derive(Clone, Copy, PartialEq, Eq, Debug, Structural)]
pub enum BackendMode {
    Exec,
    Chat,
}

impl BackendMode {
    /// The pod.toml key of the argument list for this mode.
    pub fn args_key(&self) -> (r: &'static str)
        ensures
            r@ == (match *self {
                BackendMode::Exec => "exec_args"@,
                BackendMode::Chat => "chat_args"@,
            }),
    {
        match self {
            BackendMode::Exec => "exec_args",
            BackendMode::Chat => "chat_args",
        }
    }

    /// The name recorded for runs in this mode.
    pub fn as_str(&self) -> (r: &'static str)
        ensures
            r@ == (match *self {
                BackendMode::Exec => "exec"@,
                BackendMode::Chat => "chat"@,
            }),
    {
        match self {
            BackendMode::Exec => "exec",
            BackendMode::Chat => "chat",
        }
    }
}

/// A value escaped for a TOML basic string: backslashes, then quotes.
pub open spec fn toml_escaped(v: Seq<char>) -> Seq<char> {
    replace_char(replace_char(v, '\\', "\\\\"@), '"', "\\\""@)
}

/// Escapes backslashes and double quotes for a TOML basic string.
pub fn escape_toml_string(value: &str) -> (r: String)
    ensures
        r@ == toml_escaped(value@),
{
    let once = replace_char_str(value, '\\', "\\\\");
    replace_char_str(once.as_str(), '"', "\\\"")
}

/// The charter a new pod starts with.
pub const DEFAULT_CHARTER: &'static str = "No pod charter has been set yet.";

/// The role a new fin starts with.
pub const DEFAULT_ROLE: &'static str = "No fin role has been set yet.";

/// The pod-level `AGENTS.md` template; `{pod}` and `{charter}` are filled in.
pub const POD_AGENTS_TEMPLATE: &'static str = r#"# {pod}

You are a fin of the `{pod}` Orqa pod. Orqa gives each fin its own mailbox,
task queue and runtime home under `.orqa/fins/<fin>/`, and wakes a fin when
mail or tasks wait for it.

## Charter

{charter}

## Working with the other fins

- `orqa fin list` shows the fins of this pod.
- `orqa mail send --to <fin> --subject <subject> --body <text>` sends mail to
  another fin of this pod.
- `orqa task send --to <fin> --title <title> --body <text>` queues a task for
  another fin of this pod.
- `orqa mail list`, `orqa mail read <id>` and `orqa mail done <id>` work
  through your own mail; `orqa task list`, `orqa task read <id>` and
  `orqa task done <id>` work through your own tasks.

## Reaching the operator

Mail `operator@$ORQA_POD.orqa` to open an issue for the human operator of this
pod. Replies from the operator arrive from `operator@ops.orqa`.
"#;

/// The fin-level `AGENTS.md` template; `{pod}`, `{fin}` and `{role}` are
/// filled in.
pub const FIN_AGENTS_TEMPLATE: &'static str = r#"---
fin: {fin}
pod: {pod}
required_context:
  - .orqa/CHARTER.md
  - .orqa/AGENTS.md
  - .orqa/fins/{fin}/ROLE.md
---

# {fin}

You are `{fin}`, a fin of the `{pod}` Orqa pod.

Before acting, read every path listed under `required_context` above. They
hold the pod charter, the pod-wide instructions and your role.

## Role

{role}
"#;

/// `pod.toml` up to the pod slug.
pub const POD_CONFIG_HEAD: &'static str = r#"# Orqa pod configuration.
#
# The pod owns backend definitions and the default backend used by fins that do
# not set their own override in fin.toml.
#
# Backend exec_args and chat_args are argv arrays, not shell strings. Supported
# template values
# include:
#   {orqa_home}, {pod}, {pod_root}, {pod_home}, {fin}, {fin_home}, {home},
#   {codex_home}, {grok_home}, {hermes_home}, {mail_home}, {task_home},
#   {model}, {prompt}

[pod]
slug = ""#;

/// `pod.toml` after the pod slug.
pub const POD_CONFIG_TAIL: &'static str = r#""
default_backend = "codex"
# Minimum interval between runs for each fin. A fin can override this in
# fin.toml. Examples: "30s", "5m", "3h". Use "0" to run any time there is work.
debounce = "5m"
# Run idle fins at least this often even when they have no mail or tasks. A fin
# can override this in fin.toml. Use "0" to run only when there is work.
exec_always = "0"

# Codex is enabled by default. Adjust command/exec_args/chat_args here if the
# Codex CLI shape changes on this machine.
[backends.codex]
enabled = true
command = "codex"
exec_args = [
    "exec",
    "--skip-git-repo-check",
    "--sandbox", "workspace-write",
    "--cd", "{pod_root}",
    "--model", "{model}",
    "{prompt}",
]
chat_args = [
    "--sandbox", "workspace-write",
    "--cd", "{pod_root}",
    "--model", "{model}",
]

[backends.codex.defaults]
model = "gpt-5.3-codex"

# Built-in backend definitions are enabled up front. They do nothing unless a
# fin selects them with `backend = "..."`

[backends.opencode]
enabled = true
command = "opencode"
exec_args = ["run", "--model", "{model}", "{prompt}"]
chat_args = ["--model", "{model}"]

[backends.opencode.defaults]
model = "provider/model"

[backends.hermes]
enabled = true
command = "hermes"
exec_args = ["--model", "{model}", "--oneshot", "{prompt}"]
chat_args = ["chat", "--model", "{model}"]

[backends.hermes.defaults]
model = "anthropic/sonnet-4.6"

[backends.pi]
enabled = true
command = "pi"
exec_args = [
    "--model", "{model}",
    "--session-dir", "{fin_home}/.pi/sessions",
    "--print",
    "{prompt}",
]
chat_args = [
    "--model", "{model}",
    "--session-dir", "{fin_home}/.pi/sessions",
]

[backends.pi.defaults]
model = "provider/model"

# Grok (xAI Grok Build) is a powerful coding agent with strong headless support.
# Use `-p` for single-turn execution and the TUI for interactive chat.
[backends.grok]
enabled = true
command = "grok"
exec_args = ["-p", "{prompt}", "--output-format", "streaming-json", "--always-approve"]
chat_args = []

[backends.grok.defaults]
model = "grok-code-latest"

# Ollama is most useful through a coding-agent integration. This runs Codex
# against an Ollama model while keeping Codex's tool loop and fin-local
# CODEX_HOME.
[backends.ollama_codex]
enabled = true
command = "ollama"
exec_args = [
    "launch", "codex",
    "--model", "{model}",
    "--",
    "exec",
    "--skip-git-repo-check",
    "--sandbox", "workspace-write",
    "--cd", "{pod_root}",
    "{prompt}",
]
chat_args = [
    "launch", "codex",
    "--model", "{model}",
    "--",
    "--sandbox", "workspace-write",
    "--cd", "{pod_root}",
]

[backends.ollama_codex.defaults]
model = "gpt-oss:120b"

# [backends.custom]
# enabled = true
# command = "custom-fin-runner"
# exec_args = ["{prompt}"]
# chat_args = []
"#;

/// `fin.toml` up to the fin slug.
pub const FIN_CONFIG_HEAD: &'static str = r#"# Orqa fin configuration.
#
# By default a fin inherits the pod default backend from pod.toml.
# Uncomment fin.backend only when this fin should use a different enabled
# backend from its pod.

[fin]
slug = ""#;

/// `fin.toml` between the fin slug and the backend line.
pub const FIN_CONFIG_MID: &'static str = r#""
"#;

/// `fin.toml` after the backend line.
pub const FIN_CONFIG_TAIL: &'static str = r#"
# Use "0" to run any time there is work.
# debounce = "5m"
# Use "0" to run only when there is work.
# exec_always = "3h"

# Per-fin template values. These can be used by backend exec_args and chat_args
# in pod.toml.
[backend]
model = "gpt-5.3-codex"
"#;

/// An agents template with its placeholders filled in, in order: `{pod}`,
/// `{fin}`, then the trimmed `{charter}` and `{role}`.
pub open spec fn agents_spec(
    template: Seq<char>,
    pod: Seq<char>,
    fin: Seq<char>,
    charter: Seq<char>,
    role: Seq<char>,
) -> Seq<char> {
    replace_all(
        replace_all(
            replace_all(replace_all(template, "{pod}"@, pod), "{fin}"@, fin),
            "{charter}"@,
            trim(charter),
        ),
        "{role}"@,
        trim(role),
    )
}

/// Fills in an agents template.
pub fn render_agents_template(template: &str, pod: &str, fin: &str, charter: &str, role: &str) -> (r:
    String)
    ensures
        r@ == agents_spec(template@, pod@, fin@, charter@, role@),
{
    proof {
        reveal_strlit("{pod}");
        reveal_strlit("{fin}");
        reveal_strlit("{charter}");
        reveal_strlit("{role}");
    }
    let a = replace_str(template, "{pod}", pod);
    let b = replace_str(a.as_str(), "{fin}", fin);
    let c = trim_str(charter);
    let d = replace_str(b.as_str(), "{charter}", c.as_str());
    let e = trim_str(role);
    replace_str(d.as_str(), "{role}", e.as_str())
}

/// The `AGENTS.md` of a new pod.
pub fn pod_agents_template(pod: &PodRef, charter: &str) -> (r: String)
    ensures
        r@ == agents_spec(POD_AGENTS_TEMPLATE@, pod.slug@, ""@, charter@, ""@),
{
    render_agents_template(POD_AGENTS_TEMPLATE, pod.slug.as_str(), "", charter, "")
}

/// The `AGENTS.md` of a new fin.
pub fn fin_agents_template(fin: &FinRef, role: &str) -> (r: String)
    ensures
        r@ == agents_spec(FIN_AGENTS_TEMPLATE@, fin.pod@, fin.fin@, ""@, role@),
{
    render_agents_template(FIN_AGENTS_TEMPLATE, fin.pod.as_str(), fin.fin.as_str(), "", role)
}

/// The `pod.toml` of a new pod: built-in backends enabled, `codex` the
/// default, a five-minute debounce and no idle runs.
pub fn pod_config_template(pod: &PodRef) -> (r: String)
    ensures
        r@ == POD_CONFIG_HEAD@ + pod.slug@ + POD_CONFIG_TAIL@,
{
    let mut r = String::from_str(POD_CONFIG_HEAD);
    append(&mut r, pod.slug.as_str());
    append(&mut r, POD_CONFIG_TAIL);
    r
}

/// The backend line of a new `fin.toml`: the chosen backend, or a commented
/// example that leaves the pod default in force.
pub open spec fn backend_line(backend: Option<Seq<char>>) -> Seq<char> {
    match backend {
        Some(b) => "backend = \""@ + toml_escaped(b) + "\""@,
        None => "# backend = \"codex\""@,
    }
}

/// The `fin.toml` of a new fin, with an optional backend override.
pub fn fin_config_template_with_backend(fin: &FinRef, backend: Option<&str>) -> (r: String)
    ensures
        r@ == FIN_CONFIG_HEAD@ + fin.fin@ + FIN_CONFIG_MID@ + backend_line(
            crate::model::opt_text(backend),
        ) + FIN_CONFIG_TAIL@,
{
    let mut r = String::from_str(FIN_CONFIG_HEAD);
    append(&mut r, fin.fin.as_str());
    append(&mut r, FIN_CONFIG_MID);
    match backend {
        Some(b) => {
            append(&mut r, "backend = \"");
            append(&mut r, escape_toml_string(b).as_str());
            append(&mut r, "\"");
        },
        None => append(&mut r, "# backend = \"codex\""),
    }
    append(&mut r, FIN_CONFIG_TAIL);
    r
}

/// The `fin.toml` of a new fin that inherits the pod's default backend.
pub fn fin_config_template(fin: &FinRef) -> (r: String)
    ensures
        r@ == FIN_CONFIG_HEAD@ + fin.fin@ + FIN_CONFIG_MID@ + backend_line(None) + FIN_CONFIG_TAIL@,
{
    fin_config_template_with_backend(fin, None)
}

/// A value of a TOML config file, as far as the rules here read it: text,
/// booleans, arrays and tables; other values (numbers, dates) are carried
/// as parsed, unread.
pub enum ConfigValue {
    Text(String),
    Flag(bool),
    List(Vec<ConfigValue>),
    Table(Vec<(String, ConfigValue)>),
    Other(toml::Value),
}

/// The keys of a table in strictly ascending order, so each comes once.
pub open spec fn keys_ascending(t: Seq<(String, ConfigValue)>) -> bool {
    forall|i: int, j: int| 0 <= i < j < t.len() ==> lex_lt(t[i].0@, t[j].0@)
}

/// A table, and each table it holds, with keys in strictly ascending order.
pub open spec fn tables_ascending(t: Seq<(String, ConfigValue)>) -> bool {
    &&& keys_ascending(t)
    &&& forall|i: int|
        0 <= i < t.len() ==> match #[trigger] t[i].1 {
            ConfigValue::Table(s) => keys_ascending(s@),
            _ => true,
        }
}

/// A table read from a table whose tables keep ascending keys keeps them too.
pub proof fn lemma_table_get_ascending(t: Seq<(String, ConfigValue)>, key: Seq<char>, i: int)
    requires
        tables_ascending(t),
        0 <= i,
    ensures
        table_of(table_get_from(t, key, i)) matches Some(s) ==> keys_ascending(s),
    decreases t.len() - i,
{
    if i < t.len() {
        lemma_table_get_ascending(t, key, i + 1);
        assert(match t[i].1 {
            ConfigValue::Table(s) => keys_ascending(s@),
            _ => true,
        });
    }
}

/// The value of the first entry named `key` at or after `i`.
pub open spec fn table_get_from(t: Seq<(String, ConfigValue)>, key: Seq<char>, i: int) -> Option<
    ConfigValue,
>
    decreases t.len() - i,
{
    if i < 0 || i >= t.len() {
        None
    } else if t[i].0@ == key {
        Some(t[i].1)
    } else {
        table_get_from(t, key, i + 1)
    }
}

/// The value named `key` in a table.
pub open spec fn table_get(t: Seq<(String, ConfigValue)>, key: Seq<char>) -> Option<ConfigValue> {
    table_get_from(t, key, 0)
}

/// The text of a value that is text.
pub open spec fn text_of(v: Option<ConfigValue>) -> Option<Seq<char>> {
    match v {
        Some(ConfigValue::Text(s)) => Some(s@),
        _ => None,
    }
}

/// The boolean of a value that is a boolean.
pub open spec fn flag_of(v: Option<ConfigValue>) -> Option<bool> {
    match v {
        Some(ConfigValue::Flag(b)) => Some(b),
        _ => None,
    }
}

/// The entries of a value that is a table.
pub open spec fn table_of(v: Option<ConfigValue>) -> Option<Seq<(String, ConfigValue)>> {
    match v {
        Some(ConfigValue::Table(t)) => Some(t@),
        _ => None,
    }
}

/// The index of the entry named `key`.
fn table_index(t: &Vec<(String, ConfigValue)>, key: &str) -> (r: Option<usize>)
    ensures
        match r {
            Some(i) => i < t@.len() && table_get(t@, key@) == Some(t@[i as int].1),
            None => table_get(t@, key@) is None,
        },
{
    let mut i: usize = 0;
    while i < t.len()
        invariant
            i <= t@.len(),
            table_get(t@, key@) == table_get_from(t@, key@, i as int),
        decreases t@.len() - i,
    {
        if crate::text::str_eq(t[i].0.as_str(), key) {
            return Some(i);
        }
        i = i + 1;
    }
    None
}

/// The text named `key`, when it is text.
pub fn string_field(t: &Vec<(String, ConfigValue)>, key: &str) -> (r: Option<String>)
    ensures
        opt_string(r) == text_of(table_get(t@, key@)),
{
    match table_index(t, key) {
        Some(i) => match &t[i].1 {
            ConfigValue::Text(s) => Some(s.clone()),
            _ => None,
        },
        None => None,
    }
}

/// The boolean named `key`, when it is a boolean.
pub fn bool_field(t: &Vec<(String, ConfigValue)>, key: &str) -> (r: Option<bool>)
    ensures
        r == flag_of(table_get(t@, key@)),
{
    match table_index(t, key) {
        Some(i) => match &t[i].1 {
            ConfigValue::Flag(b) => Some(*b),
            _ => None,
        },
        None => None,
    }
}

/// The table named `key`, when it is a table.
pub fn sub_table<'a>(t: &'a Vec<(String, ConfigValue)>, key: &str) -> (r: Option<
    &'a Vec<(String, ConfigValue)>,
>)
    ensures
        match r {
            Some(s) => table_of(table_get(t@, key@)) == Some(s@),
            None => table_of(table_get(t@, key@)) is None,
        },
{
    match table_index(t, key) {
        Some(i) => match &t[i].1 {
            ConfigValue::Table(s) => Some(s),
            _ => None,
        },
        None => None,
    }
}

/// The backend a pod runs fins with unless a fin chooses another: its
/// `pod.default_backend`, else `codex`.
pub open spec fn default_backend_spec(pod_config: Seq<(String, ConfigValue)>) -> Seq<char> {
    match table_of(table_get(pod_config, "pod"@)) {
        Some(p) => match text_of(table_get(p, "default_backend"@)) {
            Some(b) => b,
            None => "codex"@,
        },
        None => "codex"@,
    }
}

/// The backend a fin chooses in its `fin.backend`.
pub open spec fn fin_backend_spec(fin_config: Seq<(String, ConfigValue)>) -> Option<Seq<char>> {
    match table_of(table_get(fin_config, "fin"@)) {
        Some(f) => text_of(table_get(f, "backend"@)),
        None => None,
    }
}

/// The backend a fin runs with: its own choice, else the pod default.
pub open spec fn backend_name_spec(
    pod_config: Seq<(String, ConfigValue)>,
    fin_config: Seq<(String, ConfigValue)>,
) -> Seq<char> {
    match fin_backend_spec(fin_config) {
        Some(b) => b,
        None => default_backend_spec(pod_config),
    }
}

/// The pod's default backend.
pub fn pod_default_backend(pod_config: &Vec<(String, ConfigValue)>) -> (r: String)
    ensures
        r@ == default_backend_spec(pod_config@),
{
    match sub_table(pod_config, "pod") {
        Some(p) => match string_field(p, "default_backend") {
            Some(b) => b,
            None => String::from_str("codex"),
        },
        None => String::from_str("codex"),
    }
}

/// The backend a fin's config chooses, if any.
pub fn fin_backend(fin_config: &Vec<(String, ConfigValue)>) -> (r: Option<String>)
    ensures
        opt_string(r) == fin_backend_spec(fin_config@),
{
    match sub_table(fin_config, "fin") {
        Some(f) => string_field(f, "backend"),
        None => None,
    }
}

/// The definition of a backend in `pod.toml`.
pub open spec fn backend_table_spec(pod_config: Seq<(String, ConfigValue)>, name: Seq<char>) -> Option<
    Seq<(String, ConfigValue)>,
> {
    match table_of(table_get(pod_config, "backends"@)) {
        Some(bs) => table_of(table_get(bs, name)),
        None => None,
    }
}

/// The definition of the backend `name`, or an error when `pod.toml` does
/// not define it.
pub fn backend_table<'a>(pod_config: &'a Vec<(String, ConfigValue)>, backend_name: &str) -> (r:
    Result<&'a Vec<(String, ConfigValue)>, String>)
    ensures
        match backend_table_spec(pod_config@, backend_name@) {
            Some(t) => r matches Ok(s) && s@ == t,
            None => r matches Err(e) && e@ == "backend "@ + debug_text(backend_name@)
                + " is not defined in pod.toml"@,
        },
{
    let found = match sub_table(pod_config, "backends") {
        Some(bs) => sub_table(bs, backend_name),
        None => None,
    };
    match found {
        Some(t) => Ok(t),
        None => {
            let mut e = String::from_str("backend ");
            append(&mut e, debug_quoted(backend_name).as_str());
            append(&mut e, " is not defined in pod.toml");
            Err(e)
        },
    }
}

/// Whether every value is text.
pub open spec fn all_text(items: Seq<ConfigValue>) -> bool {
    forall|i: int| 0 <= i < items.len() ==> items[i] is Text
}

/// The texts of values that are all text.
pub open spec fn texts(items: Seq<ConfigValue>) -> Seq<Seq<char>> {
    items.map_values(|v: ConfigValue| match v {
        ConfigValue::Text(s) => s@,
        _ => Seq::empty(),
    })
}

/// The array of strings named `key`, or why it is not one.
pub open spec fn string_array_spec(t: Seq<(String, ConfigValue)>, key: Seq<char>) -> Result<
    Seq<Seq<char>>,
    Seq<char>,
> {
    match table_get(t, key) {
        None => Err(key + " must be defined as an array of strings"@),
        Some(ConfigValue::List(items)) => if all_text(items@) {
            Ok(texts(items@))
        } else {
            Err(key + " must be an array of strings"@)
        },
        Some(_) => Err(key + " must be an array of strings"@),
    }
}

/// The array of strings named `key`.
pub fn required_string_array_field(t: &Vec<(String, ConfigValue)>, key: &str) -> (r: Result<
    Vec<String>,
    String,
>)
    ensures
        match string_array_spec(t@, key@) {
            Ok(v) => r matches Ok(x) && crate::runtime::strings_view(x@) == v,
            Err(e) => r matches Err(x) && x@ == e,
        },
{
    let items = match table_index(t, key) {
        Some(i) => match &t[i].1 {
            ConfigValue::List(items) => items,
            _ => {
                let mut e = String::from_str(key);
                append(&mut e, " must be an array of strings");
                return Err(e);
            },
        },
        None => {
            let mut e = String::from_str(key);
            append(&mut e, " must be defined as an array of strings");
            return Err(e);
        },
    };
    assert(table_get(t@, key@) == Some(ConfigValue::List(*items)));
    let mut out: Vec<String> = Vec::new();
    let mut i: usize = 0;
    while i < items.len()
        invariant
            table_get(t@, key@) == Some(ConfigValue::List(*items)),
            i <= items@.len(),
            forall|j: int| 0 <= j < i ==> items@[j] is Text,
            crate::runtime::strings_view(out@) == texts(items@.subrange(0, i as int)),
        decreases items@.len() - i,
    {
        match &items[i] {
            ConfigValue::Text(s) => {
                let ghost before = out@;
                out.push(s.clone());
                proof {
                    assert(texts(items@.subrange(0, i + 1)) =~= texts(items@.subrange(0, i as int)).push(s@));
                    assert(crate::runtime::strings_view(out@) =~= crate::runtime::strings_view(before).push(s@));
                }
            },
            _ => {
                assert(!(items@[i as int] is Text));
                assert(!all_text(items@));
                let mut e = String::from_str(key);
                append(&mut e, " must be an array of strings");
                return Err(e);
            },
        }
        i = i + 1;
    }
    proof {
        assert(items@.subrange(0, i as int) =~= items@);
    }
    Ok(out)
}

/// The text entries of a table, in order.
pub open spec fn string_values_spec(t: Seq<(String, ConfigValue)>) -> Seq<(Seq<char>, Seq<char>)>
    decreases t.len(),
{
    if t.len() == 0 {
        Seq::empty()
    } else {
        string_values_spec(t.drop_last()) + match t.last().1 {
            ConfigValue::Text(s) => seq![(t.last().0@, s@)],
            _ => Seq::empty(),
        }
    }
}

/// The text entries of a table.
pub fn string_values(t: &Vec<(String, ConfigValue)>) -> (r: Vec<(String, String)>)
    ensures
        fields_view(r@) == string_values_spec(t@),
{
    let mut out: Vec<(String, String)> = Vec::new();
    let mut i: usize = 0;
    while i < t.len()
        invariant
            i <= t@.len(),
            fields_view(out@) == string_values_spec(t@.subrange(0, i as int)),
        decreases t@.len() - i,
    {
        proof {
            assert(t@.subrange(0, i + 1).drop_last() =~= t@.subrange(0, i as int));
        }
        match &t[i].1 {
            ConfigValue::Text(s) => {
                let ghost before = out@;
                out.push((t[i].0.clone(), s.clone()));
                proof {
                    assert(fields_view(out@) =~= fields_view(before).push((t@[i as int].0@, s@)));
                }
            },
            _ => {},
        }
        i = i + 1;
    }
    proof {
        assert(t@.subrange(0, i as int) =~= t@);
    }
    out
}

/// `map.insert(k, v)` on a map kept as pairs in ascending key order.
pub open spec fn sorted_insert(m: Seq<(Seq<char>, Seq<char>)>, k: Seq<char>, v: Seq<char>) -> Seq<
    (Seq<char>, Seq<char>),
>
    decreases m.len(),
{
    if m.len() == 0 {
        seq![(k, v)]
    } else if m[0].0 == k {
        seq![(k, v)] + m.drop_first()
    } else if lex_lt(k, m[0].0) {
        seq![(k, v)] + m
    } else {
        seq![m[0]] + sorted_insert(m.drop_first(), k, v)
    }
}

/// Each pair inserted in turn.
pub open spec fn insert_all(m: Seq<(Seq<char>, Seq<char>)>, ps: Seq<(Seq<char>, Seq<char>)>) -> Seq<
    (Seq<char>, Seq<char>),
>
    decreases ps.len(),
{
    if ps.len() == 0 {
        m
    } else {
        sorted_insert(insert_all(m, ps.drop_last()), ps.last().0, ps.last().1)
    }
}

proof fn lemma_sorted_insert_skip(m: Seq<(Seq<char>, Seq<char>)>, k: Seq<char>, v: Seq<char>, i: int)
    requires
        0 <= i <= m.len(),
        forall|j: int| 0 <= j < i ==> m[j].0 != k && !lex_lt(k, #[trigger] m[j].0),
    ensures
        sorted_insert(m, k, v) == m.subrange(0, i) + sorted_insert(m.subrange(i, m.len() as int), k, v),
    decreases i,
{
    if i > 0 {
        let t = m.drop_first();
        assert forall|j: int| 0 <= j < i - 1 implies t[j].0 != k && !lex_lt(k, #[trigger] t[j].0) by {
            assert(t[j] == m[j + 1]);
        }
        lemma_sorted_insert_skip(t, k, v, i - 1);
        assert(t.subrange(0, i - 1) =~= m.subrange(1, i));
        assert(t.subrange(i - 1, t.len() as int) =~= m.subrange(i, m.len() as int));
        assert(m.subrange(0, i) =~= seq![m[0]] + m.subrange(1, i));
    } else {
        assert(m.subrange(0, 0) =~= Seq::<(Seq<char>, Seq<char>)>::empty());
        assert(m.subrange(0, m.len() as int) =~= m);
    }
}

/// Inserts `key = value` into a map kept as pairs in ascending key order,
/// replacing the value of an equal key.
pub fn map_insert(m: &mut Vec<(String, String)>, key: String, value: String)
    ensures
        fields_view(final(m)@) == sorted_insert(fields_view(old(m)@), key@, value@),
{
    let ghost fs = fields_view(m@);
    let kv = chars_of(key.as_str());
    let mut i: usize = 0;
    while i < m.len()
        invariant
            fs == fields_view(m@),
            m@ == old(m)@,
            kv@ == key@,
            i <= m@.len(),
            forall|j: int| 0 <= j < i ==> fs[j].0 != key@ && !lex_lt(key@, #[trigger] fs[j].0),
        decreases m@.len() - i,
    {
        let cur = chars_of(m[i].0.as_str());
        if crate::text::chars_eq(&cur, &kv) {
            proof {
                lemma_sorted_insert_skip(fs, key@, value@, i as int);
                let rest = fs.subrange(i as int, fs.len() as int);
                assert(rest[0] == fs[i as int]);
            }
            m.set(i, (key, value));
            proof {
                let rest = fs.subrange(i as int, fs.len() as int);
                assert(cur@ == fs[i as int].0);
                assert(sorted_insert(rest, key@, value@) == seq![(key@, value@)] + rest.drop_first());
                assert(fields_view(m@) =~= fs.subrange(0, i as int) + (seq![(key@, value@)]
                    + rest.drop_first()));
            }
            return;
        }
        if lex_less(&kv, &cur) {
            proof {
                lemma_sorted_insert_skip(fs, key@, value@, i as int);
                let rest = fs.subrange(i as int, fs.len() as int);
                assert(rest[0] == fs[i as int]);
            }
            m.insert(i, (key, value));
            proof {
                let rest = fs.subrange(i as int, fs.len() as int);
                assert(cur@ == fs[i as int].0);
                assert(sorted_insert(rest, key@, value@) == seq![(key@, value@)] + rest);
                assert(fields_view(m@) =~= fs.subrange(0, i as int) + (seq![(key@, value@)] + rest));
            }
            return;
        }
        i = i + 1;
    }
    proof {
        lemma_sorted_insert_skip(fs, key@, value@, i as int);
        assert(fs.subrange(i as int, fs.len() as int) =~= Seq::<(Seq<char>, Seq<char>)>::empty());
    }
    m.push((key, value));
    proof {
        assert(fields_view(m@) =~= fs.subrange(0, i as int) + seq![(key@, value@)]);
    }
}

/// Inserts each pair in turn.
pub fn map_insert_all(m: &mut Vec<(String, String)>, pairs: &Vec<(String, String)>)
    ensures
        fields_view(final(m)@) == insert_all(fields_view(old(m)@), fields_view(pairs@)),
{
    let ghost start = fields_view(m@);
    let mut i: usize = 0;
    while i < pairs.len()
        invariant
            i <= pairs@.len(),
            fields_view(m@) == insert_all(start, fields_view(pairs@).subrange(0, i as int)),
        decreases pairs@.len() - i,
    {
        map_insert(m, pairs[i].0.clone(), pairs[i].1.clone());
        proof {
            let ps = fields_view(pairs@).subrange(0, i + 1);
            assert(ps.drop_last() =~= fields_view(pairs@).subrange(0, i as int));
        }
        i = i + 1;
    }
    proof {
        assert(fields_view(pairs@).subrange(0, i as int) =~= fields_view(pairs@));
    }
}

/// An argument with the first `n` template values filled in, in map order:
/// each `{key}` replaced by its value.
pub open spec fn expand_upto(input: Seq<char>, vals: Seq<(Seq<char>, Seq<char>)>, n: int) -> Seq<char>
    decreases n,
{
    if n <= 0 || n > vals.len() {
        input
    } else {
        replace_all(expand_upto(input, vals, n - 1), "{"@ + vals[n - 1].0 + "}"@, vals[n - 1].1)
    }
}

/// An argument with every template value filled in.
pub open spec fn expand_spec(input: Seq<char>, vals: Seq<(Seq<char>, Seq<char>)>) -> Seq<char> {
    expand_upto(input, vals, vals.len() as int)
}

/// Fills `{key}` placeholders with their values, one key at a time in the
/// order of the map.
pub fn expand_templates(input: &str, values: &Vec<(String, String)>) -> (r: String)
    ensures
        r@ == expand_spec(input@, fields_view(values@)),
{
    proof {
        reveal_strlit("{");
        reveal_strlit("}");
    }
    let ghost vals = fields_view(values@);
    let mut expanded = String::from_str(input);
    let mut i: usize = 0;
    while i < values.len()
        invariant
            vals == fields_view(values@),
            i <= values@.len(),
            expanded@ == expand_upto(input@, vals, i as int),
        decreases values@.len() - i,
    {
        proof {
            reveal_strlit("{");
            reveal_strlit("}");
        }
        let mut pat = String::from_str("{");
        append(&mut pat, values[i].0.as_str());
        append(&mut pat, "}");
        expanded = replace_str(expanded.as_str(), pat.as_str(), values[i].1.as_str());
        i = i + 1;
    }
    expanded
}

/// Arguments joined with single spaces.
pub open spec fn join_spaces(args: Seq<Seq<char>>) -> Seq<char>
    decreases args.len(),
{
    if args.len() == 0 {
        Seq::empty()
    } else if args.len() == 1 {
        args[0]
    } else {
        join_spaces(args.drop_last()) + " "@ + args.last()
    }
}

/// The prompt text of prompt arguments: joined with single spaces.
pub fn prompt_args_to_string(args: &Vec<String>) -> (r: String)
    ensures
        r@ == join_spaces(crate::runtime::strings_view(args@)),
{
    let ghost a = crate::runtime::strings_view(args@);
    let mut r = String::new();
    let mut i: usize = 0;
    while i < args.len()
        invariant
            a == crate::runtime::strings_view(args@),
            i <= args@.len(),
            r@ == join_spaces(a.subrange(0, i as int)),
        decreases args@.len() - i,
    {
        proof {
            assert(a.subrange(0, i + 1).drop_last() =~= a.subrange(0, i as int));
        }
        if i > 0 {
            append(&mut r, " ");
        }
        append(&mut r, args[i].as_str());
        i = i + 1;
    }
    proof {
        assert(a.subrange(0, i as int) =~= a);
    }
    r
}

/// The template values every backend gets, before its defaults and the fin's
/// own values.
pub open spec fn base_values_spec(
    home: Seq<char>,
    pod: Seq<char>,
    root: Seq<char>,
    fin: Seq<char>,
    prompt: Seq<char>,
) -> Seq<(Seq<char>, Seq<char>)> {
    let h = fin_home_of(root, fin);
    seq![
        ("orqa_home"@, home),
        ("pod"@, pod),
        ("pod_root"@, root),
        ("pod_home"@, join(root, ".orqa"@)),
        ("fin"@, fin),
        ("fin_home"@, h),
        ("codex_home"@, join(h, ".codex"@)),
        ("grok_home"@, join(h, ".grok"@)),
        ("hermes_home"@, join(h, ".hermes"@)),
        ("home"@, h),
        ("mail_home"@, join(h, "mail"@)),
        ("task_home"@, join(h, "tasks"@)),
        ("prompt"@, prompt),
    ]
}

/// The entries of an optional table, none when absent.
pub open spec fn opt_entries(t: Option<Seq<(String, ConfigValue)>>) -> Seq<(String, ConfigValue)> {
    match t {
        Some(x) => x,
        None => Seq::empty(),
    }
}

/// The template values of a backend run: the base values, then the
/// backend's `defaults`, then the fin's `[backend]` values, later ones
/// replacing earlier ones with the same key; kept in key order.
pub open spec fn values_spec(
    o: Orqa,
    fin: FinRef,
    prompt: Seq<char>,
    backend: Seq<(String, ConfigValue)>,
    fin_config: Seq<(String, ConfigValue)>,
) -> Result<Seq<(Seq<char>, Seq<char>)>, Seq<char>> {
    if !slug_ok(fin.pod@) {
        Err(slug_error(fin.pod@))
    } else {
        match pod_root_spec(o, fin.pod@) {
            Err(e) => Err(e),
            Ok(root) => Ok(
                insert_all(
                    insert_all(
                        insert_all(
                            Seq::empty(),
                            base_values_spec(o.home@, fin.pod@, root, fin.fin@, prompt),
                        ),
                        string_values_spec(opt_entries(table_of(table_get(backend, "defaults"@)))),
                    ),
                    string_values_spec(opt_entries(table_of(table_get(fin_config, "backend"@)))),
                ),
            ),
        }
    }
}

/// Looking up a key behind a first entry: that entry when it has the key,
/// else the rest.
proof fn lemma_lookup_cons(x: (Seq<char>, Seq<char>), m: Seq<(Seq<char>, Seq<char>)>, key: Seq<char>)
    ensures
        crate::mailbox::tasks::lookup(seq![x] + m, key) == (if x.0 == key {
            Some(x.1)
        } else {
            crate::mailbox::tasks::lookup(m, key)
        }),
{
    let c = seq![x] + m;
    crate::mailbox::tasks::lemma_field_index_bounds(c, key, 0);
    crate::mailbox::tasks::lemma_field_index_bounds(c, key, 1);
    crate::mailbox::tasks::lemma_field_index_bounds(m, key, 0);
    let r = crate::mailbox::tasks::field_index_from(m, key, 0);
    let r1 = crate::mailbox::tasks::field_index_from(c, key, 1);
    if x.0 != key {
        assert(crate::mailbox::tasks::field_index(c, key) == r1);
        if r1 >= 0 {
            assert(c[r1] == m[r1 - 1]);
            assert forall|j: int| 0 <= j < r1 - 1 implies m[j].0 != key by {
                assert(c[j + 1] == m[j]);
            }
            if r >= 0 && r < r1 - 1 {
                assert(c[r + 1] == m[r]);
            }
        } else {
            if r >= 0 {
                assert(c[r + 1] == m[r]);
            }
        }
    }
}

/// After putting `k` in, `k` reads the new value and every other key reads
/// as before.
proof fn lemma_lookup_sorted_insert(m: Seq<(Seq<char>, Seq<char>)>, k: Seq<char>, v: Seq<char>, key: Seq<char>)
    ensures
        crate::mailbox::tasks::lookup(sorted_insert(m, k, v), key) == (if key == k {
            Some(v)
        } else {
            crate::mailbox::tasks::lookup(m, key)
        }),
    decreases m.len(),
{
    if m.len() == 0 {
        lemma_lookup_cons((k, v), m, key);
        assert(seq![(k, v)] + m =~= seq![(k, v)]);
    } else if m[0].0 == k {
        lemma_lookup_cons((k, v), m.drop_first(), key);
        lemma_lookup_cons(m[0], m.drop_first(), key);
        assert(seq![m[0]] + m.drop_first() =~= m);
    } else if lex_lt(k, m[0].0) {
        lemma_lookup_cons((k, v), m, key);
    } else {
        lemma_lookup_sorted_insert(m.drop_first(), k, v, key);
        lemma_lookup_cons(m[0], sorted_insert(m.drop_first(), k, v), key);
        lemma_lookup_cons(m[0], m.drop_first(), key);
        assert(seq![m[0]] + m.drop_first() =~= m);
    }
}

/// The value of the last pair with this key.
pub open spec fn last_value(ps: Seq<(Seq<char>, Seq<char>)>, key: Seq<char>) -> Option<Seq<char>>
    decreases ps.len(),
{
    if ps.len() == 0 {
        None
    } else if ps.last().0 == key {
        Some(ps.last().1)
    } else {
        last_value(ps.drop_last(), key)
    }
}

/// After pairs are put in, a key reads the value of the last pair with that
/// key, or as before when there is none.
proof fn lemma_lookup_insert_all(m: Seq<(Seq<char>, Seq<char>)>, ps: Seq<(Seq<char>, Seq<char>)>, key: Seq<char>)
    ensures
        crate::mailbox::tasks::lookup(insert_all(m, ps), key) == (match last_value(ps, key) {
            Some(v) => Some(v),
            None => crate::mailbox::tasks::lookup(m, key),
        }),
    decreases ps.len(),
{
    if ps.len() > 0 {
        lemma_lookup_insert_all(m, ps.drop_last(), key);
        lemma_lookup_sorted_insert(insert_all(m, ps.drop_last()), ps.last().0, ps.last().1, key);
    }
}

/// The last pair with a key is the one pair that has it.
proof fn lemma_last_value_unique(ps: Seq<(Seq<char>, Seq<char>)>, key: Seq<char>, i: int)
    requires
        0 <= i < ps.len(),
        ps[i].0 == key,
        forall|j: int| 0 <= j < ps.len() && j != i ==> ps[j].0 != key,
    ensures
        last_value(ps, key) == Some(ps[i].1),
    decreases ps.len(),
{
    if i < ps.len() - 1 {
        let d = ps.drop_last();
        assert forall|j: int| 0 <= j < d.len() && j != i implies d[j].0 != key by {
            assert(d[j] == ps[j]);
        }
        lemma_last_value_unique(d, key, i);
    }
}

/// A table without an entry named `key` gives no text value under it.
proof fn lemma_string_values_absent(t: Seq<(String, ConfigValue)>, key: Seq<char>)
    requires
        forall|j: int| 0 <= j < t.len() ==> (#[trigger] t[j]).0@ != key,
    ensures
        last_value(string_values_spec(t), key) is None,
    decreases t.len(),
{
    if t.len() > 0 {
        let d = t.drop_last();
        assert forall|j: int| 0 <= j < d.len() implies (#[trigger] d[j]).0@ != key by {
            assert(d[j] == t[j]);
        }
        lemma_string_values_absent(d, key);
        let a = string_values_spec(d);
        match t.last().1 {
            ConfigValue::Text(s) => {
                let b = a + seq![(t.last().0@, s@)];
                assert(b.drop_last() =~= a);
            },
            _ => {
                assert(a + Seq::<(Seq<char>, Seq<char>)>::empty() =~= a);
            },
        }
    }
}

/// The template values name the fin's own directories: with no override in
/// the backend's `defaults` or the fin's `[backend]` table, `fin_home` and
/// `home` are `<pod root>/.orqa/fins/<fin>`, and `codex_home`, `mail_home`
/// and `task_home` lie in it.
pub proof fn law_fin_home_values(
    o: Orqa,
    fin: FinRef,
    prompt: Seq<char>,
    backend: Seq<(String, ConfigValue)>,
    fin_config: Seq<(String, ConfigValue)>,
    key: Seq<char>,
)
    requires
        values_spec(o, fin, prompt, backend, fin_config) is Ok,
        key == "fin_home"@ || key == "home"@ || key == "codex_home"@ || key == "mail_home"@ || key
            == "task_home"@,
        forall|j: int|
            0 <= j < opt_entries(table_of(table_get(backend, "defaults"@))).len() ==> (#[trigger] opt_entries(
                table_of(table_get(backend, "defaults"@)),
            )[j]).0@ != key,
        forall|j: int|
            0 <= j < opt_entries(table_of(table_get(fin_config, "backend"@))).len() ==> (#[trigger] opt_entries(
                table_of(table_get(fin_config, "backend"@)),
            )[j]).0@ != key,
    ensures
        ({
            let root = pod_root_spec(o, fin.pod@)->Ok_0;
            let h = join(join(join(root, ".orqa"@), "fins"@), fin.fin@);
            crate::mailbox::tasks::lookup(values_spec(o, fin, prompt, backend, fin_config)->Ok_0, key) == Some(
                if key == "fin_home"@ || key == "home"@ {
                    h
                } else if key == "codex_home"@ {
                    join(h, ".codex"@)
                } else if key == "mail_home"@ {
                    join(h, "mail"@)
                } else {
                    join(h, "tasks"@)
                },
            )
        }),
{
    reveal_strlit("orqa_home");
    reveal_strlit("pod");
    reveal_strlit("pod_root");
    reveal_strlit("pod_home");
    reveal_strlit("fin");
    reveal_strlit("fin_home");
    reveal_strlit("codex_home");
    reveal_strlit("grok_home");
    reveal_strlit("hermes_home");
    reveal_strlit("home");
    reveal_strlit("mail_home");
    reveal_strlit("task_home");
    reveal_strlit("prompt");
    let root = pod_root_spec(o, fin.pod@)->Ok_0;
    let base = base_values_spec(o.home@, fin.pod@, root, fin.fin@, prompt);
    let d = string_values_spec(opt_entries(table_of(table_get(backend, "defaults"@))));
    let f = string_values_spec(opt_entries(table_of(table_get(fin_config, "backend"@))));
    lemma_string_values_absent(opt_entries(table_of(table_get(backend, "defaults"@))), key);
    lemma_string_values_absent(opt_entries(table_of(table_get(fin_config, "backend"@))), key);
    lemma_lookup_insert_all(insert_all(insert_all(Seq::empty(), base), d), f, key);
    lemma_lookup_insert_all(insert_all(Seq::empty(), base), d, key);
    lemma_lookup_insert_all(Seq::empty(), base, key);
    let i: int = if key == "fin_home"@ {
        5
    } else if key == "codex_home"@ {
        6
    } else if key == "home"@ {
        9
    } else if key == "mail_home"@ {
        10
    } else {
        11
    };
    assert("orqa_home"@[0] == 'o' && "pod"@[0] == 'p' && "pod_root"@[0] == 'p' && "pod_home"@[0] == 'p'
        && "fin"@.len() == 3 && "fin_home"@[0] == 'f' && "codex_home"@[0] == 'c' && "grok_home"@[0] == 'g'
        && "hermes_home"@[0] == 'h' && "home"@[0] == 'h' && "mail_home"@[0] == 'm' && "task_home"@[0]
        == 't' && "prompt"@[0] == 'p');
    assert("hermes_home"@.len() == 11 && "home"@.len() == 4 && "fin_home"@.len() == 8 && "fin"@.len() == 3);
    assert forall|j: int| 0 <= j < base.len() && j != i implies base[j].0 != key by {}
    lemma_last_value_unique(base, key, i);
}

fn pair(k: &str, v: String) -> (r: (String, String))
    ensures
        r.0@ == k@,
        r.1@ == v@,
{
    (String::from_str(k), v)
}

/// The template values for running `backend` for a fin with this prompt.
pub fn backend_values(
    orqa: &Orqa,
    fin: &FinRef,
    prompt_args: &Vec<String>,
    backend: &Vec<(String, ConfigValue)>,
    fin_config: &Vec<(String, ConfigValue)>,
) -> (r: Result<Vec<(String, String)>, String>)
    ensures
        match values_spec(
            *orqa,
            *fin,
            join_spaces(crate::runtime::strings_view(prompt_args@)),
            backend@,
            fin_config@,
        ) {
            Ok(v) => r matches Ok(x) && fields_view(x@) == v,
            Err(e) => r matches Err(x) && x@ == e,
        },
{
    let _pod = PodRef::new(fin.pod.as_str())?;
    let root = orqa.pod_root_for_slug(fin.pod.as_str())?;
    let a = join_path(root.as_str(), ".orqa");
    let b = join_path(a.as_str(), "fins");
    let h = join_path(b.as_str(), fin.fin.as_str());
    let mut base: Vec<(String, String)> = Vec::new();
    base.push(pair("orqa_home", orqa.home.clone()));
    base.push(pair("pod", fin.pod.clone()));
    base.push(pair("pod_root", root.clone()));
    base.push(pair("pod_home", join_path(root.as_str(), ".orqa")));
    base.push(pair("fin", fin.fin.clone()));
    base.push(pair("fin_home", h.clone()));
    base.push(pair("codex_home", join_path(h.as_str(), ".codex")));
    base.push(pair("grok_home", join_path(h.as_str(), ".grok")));
    base.push(pair("hermes_home", join_path(h.as_str(), ".hermes")));
    base.push(pair("home", h.clone()));
    base.push(pair("mail_home", join_path(h.as_str(), "mail")));
    base.push(pair("task_home", join_path(h.as_str(), "tasks")));
    base.push(pair("prompt", prompt_args_to_string(prompt_args)));
    proof {
        assert(fields_view(base@) =~= base_values_spec(
            orqa.home@,
            fin.pod@,
            root@,
            fin.fin@,
            join_spaces(crate::runtime::strings_view(prompt_args@)),
        ));
    }
    let mut values: Vec<(String, String)> = Vec::new();
    proof {
        assert(fields_view(values@) =~= Seq::<(Seq<char>, Seq<char>)>::empty());
    }
    map_insert_all(&mut values, &base);
    let defaults = match sub_table(backend, "defaults") {
        Some(t) => string_values(t),
        None => Vec::new(),
    };
    proof {
        assert(fields_view(defaults@) =~= string_values_spec(
            opt_entries(table_of(table_get(backend@, "defaults"@))),
        ));
    }
    map_insert_all(&mut values, &defaults);
    let own = match sub_table(fin_config, "backend") {
        Some(t) => string_values(t),
        None => Vec::new(),
    };
    proof {
        assert(fields_view(own@) =~= string_values_spec(
            opt_entries(table_of(table_get(fin_config@, "backend"@))),
        ));
    }
    map_insert_all(&mut values, &own);
    Ok(values)
}

/// A backend command: the backend's name, the program to run, its
/// arguments, and the mode they were chosen for.
pub struct BackendCommand {
    pub backend: String,
    pub command: String,
    pub args: Vec<String>,
    pub mode: BackendMode,
}

/// The key of a mode's argument list.
pub open spec fn mode_key(mode: BackendMode) -> Seq<char> {
    match mode {
        BackendMode::Exec => "exec_args"@,
        BackendMode::Chat => "chat_args"@,
    }
}

/// The backend command for a fin: the backend the fin or pod chooses, which
/// must be defined and enabled and have a command, with the mode's arguments
/// expanded by the template values.
pub open spec fn backend_command_spec(
    o: Orqa,
    fin: FinRef,
    prompt: Seq<char>,
    mode: BackendMode,
    pod_config: Seq<(String, ConfigValue)>,
    fin_config: Seq<(String, ConfigValue)>,
) -> Result<(Seq<char>, Seq<char>, Seq<Seq<char>>), Seq<char>> {
    if !slug_ok(fin.pod@) {
        Err(slug_error(fin.pod@))
    } else {
        match pod_root_spec(o, fin.pod@) {
            Err(e) => Err(e),
            Ok(_) => {
                let name = backend_name_spec(pod_config, fin_config);
                match backend_table_spec(pod_config, name) {
                    None => Err("backend "@ + debug_text(name) + " is not defined in pod.toml"@),
                    Some(bt) => if flag_of(table_get(bt, "enabled"@)) != Some(true) {
                        Err("backend "@ + debug_text(name) + " is not enabled"@)
                    } else {
                        match text_of(table_get(bt, "command"@)) {
                            None => Err("backend "@ + debug_text(name) + " is missing command"@),
                            Some(cmd) => match string_array_spec(bt, mode_key(mode)) {
                                Err(e) => Err(e),
                                Ok(args) => match values_spec(o, fin, prompt, bt, fin_config) {
                                    Err(e) => Err(e),
                                    Ok(vals) => Ok(
                                        (
                                            name,
                                            cmd,
                                            args.map_values(|a: Seq<char>| expand_spec(a, vals)),
                                        ),
                                    ),
                                },
                            },
                        }
                    },
                }
            },
        }
    }
}

/// The plain values of a backend command.
pub open spec fn command_view(c: BackendCommand) -> (Seq<char>, Seq<char>, Seq<Seq<char>>) {
    (c.backend@, c.command@, crate::runtime::strings_view(c.args@))
}

/// Resolves the backend command for a fin from the parsed `pod.toml` and
/// `fin.toml`.
pub fn backend_command_for(
    orqa: &Orqa,
    fin: &FinRef,
    prompt_args: &Vec<String>,
    mode: BackendMode,
    pod_config: &Vec<(String, ConfigValue)>,
    fin_config: &Vec<(String, ConfigValue)>,
) -> (r: Result<BackendCommand, String>)
    ensures
        match backend_command_spec(
            *orqa,
            *fin,
            join_spaces(crate::runtime::strings_view(prompt_args@)),
            mode,
            pod_config@,
            fin_config@,
        ) {
            Ok(c) => r matches Ok(x) && command_view(x) == c && x.mode == mode,
            Err(e) => r matches Err(x) && x@ == e,
        },
{
    let _pod = PodRef::new(fin.pod.as_str())?;
    let _root = orqa.pod_root_for_slug(fin.pod.as_str())?;
    let backend_name = match fin_backend(fin_config) {
        Some(b) => b,
        None => pod_default_backend(pod_config),
    };
    let backend = backend_table(pod_config, backend_name.as_str())?;
    let enabled = match bool_field(backend, "enabled") {
        Some(b) => b,
        None => false,
    };
    if !enabled {
        let mut e = String::from_str("backend ");
        append(&mut e, debug_quoted(backend_name.as_str()).as_str());
        append(&mut e, " is not enabled");
        return Err(e);
    }
    let command = match string_field(backend, "command") {
        Some(c) => c,
        None => {
            let mut e = String::from_str("backend ");
            append(&mut e, debug_quoted(backend_name.as_str()).as_str());
            append(&mut e, " is missing command");
            return Err(e);
        },
    };
    let backend_args = required_string_array_field(backend, mode.args_key())?;
    let values = backend_values(orqa, fin, prompt_args, backend, fin_config)?;
    let ghost vals = fields_view(values@);
    let ghost src = crate::runtime::strings_view(backend_args@);
    let mut args: Vec<String> = Vec::new();
    let mut i: usize = 0;
    while i < backend_args.len()
        invariant
            vals == fields_view(values@),
            src == crate::runtime::strings_view(backend_args@),
            i <= backend_args@.len(),
            crate::runtime::strings_view(args@) == src.subrange(0, i as int).map_values(
                |a: Seq<char>| expand_spec(a, vals),
            ),
        decreases backend_args@.len() - i,
    {
        let x = expand_templates(backend_args[i].as_str(), &values);
        let ghost before = args@;
        args.push(x);
        proof {
            assert(src.subrange(0, i + 1).map_values(|a: Seq<char>| expand_spec(a, vals))
                =~= src.subrange(0, i as int).map_values(|a: Seq<char>| expand_spec(a, vals)).push(
                expand_spec(src[i as int], vals),
            ));
            assert(crate::runtime::strings_view(args@) =~= crate::runtime::strings_view(before).push(
                expand_spec(src[i as int], vals),
            ));
        }
        i = i + 1;
    }
    proof {
        assert(src.subrange(0, i as int) =~= src);
    }
    Ok(BackendCommand { backend: backend_name, command, args, mode })
}

/// The command that runs a fin once with a prompt.
pub fn backend_command(
    orqa: &Orqa,
    fin: &FinRef,
    prompt_args: &Vec<String>,
    pod_config: &Vec<(String, ConfigValue)>,
    fin_config: &Vec<(String, ConfigValue)>,
) -> (r: Result<BackendCommand, String>)
    ensures
        match backend_command_spec(
            *orqa,
            *fin,
            join_spaces(crate::runtime::strings_view(prompt_args@)),
            BackendMode::Exec,
            pod_config@,
            fin_config@,
        ) {
            Ok(c) => r matches Ok(x) && command_view(x) == c && x.mode == BackendMode::Exec,
            Err(e) => r matches Err(x) && x@ == e,
        },
{
    backend_command_for(orqa, fin, prompt_args, BackendMode::Exec, pod_config, fin_config)
}

/// The command that opens an interactive chat with a fin.
pub fn backend_chat_command(
    orqa: &Orqa,
    fin: &FinRef,
    pod_config: &Vec<(String, ConfigValue)>,
    fin_config: &Vec<(String, ConfigValue)>,
) -> (r: Result<BackendCommand, String>)
    ensures
        match backend_command_spec(*orqa, *fin, Seq::empty(), BackendMode::Chat, pod_config@, fin_config@) {
            Ok(c) => r matches Ok(x) && command_view(x) == c && x.mode == BackendMode::Chat,
            Err(e) => r matches Err(x) && x@ == e,
        },
{
    let none: Vec<String> = Vec::new();
    proof {
        assert(crate::runtime::strings_view(none@) =~= Seq::<Seq<char>>::empty());
    }
    backend_command_for(orqa, fin, &none, BackendMode::Chat, pod_config, fin_config)
}

/// A policy duration as written in a table.
pub open spec fn policy_text(t: Option<Seq<(String, ConfigValue)>>, key: Seq<char>) -> Option<Seq<char>> {
    match t {
        Some(x) => text_of(table_get(x, key)),
        None => None,
    }
}

/// The run policy of a fin: `debounce` and `exec_always` from `fin.toml`,
/// else `pod.toml`, with zero turning a rule off.
pub open spec fn run_policy_spec(
    pod_config: Seq<(String, ConfigValue)>,
    fin_config: Seq<(String, ConfigValue)>,
) -> Result<(Option<nat>, Option<nat>), Seq<char>> {
    let pod = table_of(table_get(pod_config, "pod"@));
    let fin = table_of(table_get(fin_config, "fin"@));
    match duration_override_spec(policy_text(pod, "debounce"@), policy_text(fin, "debounce"@), "debounce"@) {
        Err(e) => Err(e),
        Ok(d) => match duration_override_spec(
            policy_text(pod, "exec_always"@),
            policy_text(fin, "exec_always"@),
            "exec_always"@,
        ) {
            Err(e) => Err(e),
            Ok(x) => Ok(
                (
                    if d == Some(0nat) {
                        None
                    } else {
                        d
                    },
                    if x == Some(0nat) {
                        None
                    } else {
                        x
                    },
                ),
            ),
        },
    }
}

/// Whether both policy values can be read without overflow.
pub open spec fn run_policy_fits(
    pod_config: Seq<(String, ConfigValue)>,
    fin_config: Seq<(String, ConfigValue)>,
) -> bool {
    let pod = table_of(table_get(pod_config, "pod"@));
    let fin = table_of(table_get(fin_config, "fin"@));
    override_fits(policy_text(pod, "debounce"@), policy_text(fin, "debounce"@)) && override_fits(
        policy_text(pod, "exec_always"@),
        policy_text(fin, "exec_always"@),
    )
}

fn policy_value(t: Option<&Vec<(String, ConfigValue)>>, key: &str) -> (r: Option<String>)
    ensures
        opt_string(r) == policy_text(
            match t {
                Some(x) => Some(x@),
                None => None,
            },
            key@,
        ),
{
    match t {
        Some(x) => string_field(x, key),
        None => None,
    }
}

fn opt_str(o: &Option<String>) -> (r: Option<&str>)
    ensures
        crate::model::opt_text(r) == opt_string(*o),
{
    match o {
        Some(s) => Some(s.as_str()),
        None => None,
    }
}

/// Whether a fin's run policy can be read without overflow; where this is
/// false, reading it overflows.
pub fn run_policy_in_range(
    pod_config: &Vec<(String, ConfigValue)>,
    fin_config: &Vec<(String, ConfigValue)>,
) -> (r: bool)
    ensures
        r == run_policy_fits(pod_config@, fin_config@),
{
    let pod = sub_table(pod_config, "pod");
    let fin = sub_table(fin_config, "fin");
    let pd = policy_value(pod, "debounce");
    let fd = policy_value(fin, "debounce");
    let pe = policy_value(pod, "exec_always");
    let fe = policy_value(fin, "exec_always");
    let d_ok = match &fd {
        Some(v) => duration_in_range(v.as_str()),
        None => match &pd {
            Some(v) => duration_in_range(v.as_str()),
            None => true,
        },
    };
    let e_ok = match &fe {
        Some(v) => duration_in_range(v.as_str()),
        None => match &pe {
            Some(v) => duration_in_range(v.as_str()),
            None => true,
        },
    };
    d_ok && e_ok
}

/// Reads a fin's run policy from the parsed `pod.toml` and `fin.toml`.
pub fn run_policy(pod_config: &Vec<(String, ConfigValue)>, fin_config: &Vec<(String, ConfigValue)>) -> (r:
    Result<RunPolicy, String>)
    requires
        run_policy_fits(pod_config@, fin_config@),
    ensures
        match run_policy_spec(pod_config@, fin_config@) {
            Ok(p) => r matches Ok(x) && (match p.0 {
                Some(n) => x.debounce matches Some(m) && m as nat == n,
                None => x.debounce is None,
            }) && (match p.1 {
                Some(n) => x.exec_always matches Some(m) && m as nat == n,
                None => x.exec_always is None,
            }),
            Err(e) => r matches Err(x) && x@ == e,
        },
{
    let pod = sub_table(pod_config, "pod");
    let fin = sub_table(fin_config, "fin");
    let pd = policy_value(pod, "debounce");
    let fd = policy_value(fin, "debounce");
    let debounce = duration_override(opt_str(&pd), opt_str(&fd), "debounce")?;
    let pe = policy_value(pod, "exec_always");
    let fe = policy_value(fin, "exec_always");
    let exec_always = duration_override(opt_str(&pe), opt_str(&fe), "exec_always")?;
    Ok(RunPolicy { debounce: nonzero_duration(debounce), exec_always: nonzero_duration(exec_always) })
}

} // verus!
