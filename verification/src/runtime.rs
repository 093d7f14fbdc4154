//! Wake planning for fins, run durations, lock files and the arguments of a
//! supervised run.

use vstd::prelude::*;
use vstd::string::*;
use crate::config::{duration_fits, duration_parts, duration_spec, first_non_digit, unit_factor,
    RunPolicy};
use crate::mailbox::tasks::{lemma_lex_irreflexive, lemma_lex_trans, lex_less, lex_lt};
use crate::model::PodRef;
use crate::mailbox::tasks::{field_index, field_index_from, fields_view, lemma_field_index_bounds,
    lookup};
use crate::model::{fin_label, FinRef};
use crate::text::{all_digits, append, os_debug_quoted, os_debug_text, back_ws_to, chars_of, decimal, find_char_from, is_digit,
    is_ws, lemma_decimal_digits, lemma_parse_decimal, line_at, lines, lines_from, matches_at,
    matches_at_exec, opt_string, parse_u32, parse_u32_range, skip_ws_from, starts_with, strip_cr,
    string_of_range, trim, u128_to_decimal, u64_to_decimal};

verus! {

/// Whether a fin would be started.
#[derive(Clone, Copy, PartialEq, Eq, Debug, Structural)]
pub enum WakeDecision {
    WouldWake,
    WouldSkip,
}

/// Why a fin would or would not be started.
#[derive(Clone, Copy, PartialEq, Eq, Debug, Structural)]
pub enum WakeReason {
    Mail,
    Task,
    MailAndTask,
    PodSleeping,
    FinSleeping,
    AlreadyRunning,
    NoAction,
    Debounced,
    ExecAlways,
    ConfigError,
    BackendError,
}

impl WakeDecision {
    /// The kebab-case name of the decision.
    pub fn as_str(&self) -> (r: &'static str)
        ensures
            r@ == (match *self {
                WakeDecision::WouldWake => "would-wake"@,
                WakeDecision::WouldSkip => "would-skip"@,
            }),
    {
        match self {
            WakeDecision::WouldWake => "would-wake",
            WakeDecision::WouldSkip => "would-skip",
        }
    }
}

/// The kebab-case name of a wake reason.
pub open spec fn reason_text(r: WakeReason) -> Seq<char> {
    match r {
        WakeReason::Mail => "mail"@,
        WakeReason::Task => "task"@,
        WakeReason::MailAndTask => "mail-and-task"@,
        WakeReason::PodSleeping => "pod-sleeping"@,
        WakeReason::FinSleeping => "fin-sleeping"@,
        WakeReason::AlreadyRunning => "already-running"@,
        WakeReason::NoAction => "no-action"@,
        WakeReason::Debounced => "debounced"@,
        WakeReason::ExecAlways => "exec-always"@,
        WakeReason::ConfigError => "config-error"@,
        WakeReason::BackendError => "backend-error"@,
    }
}

impl WakeReason {
    /// The kebab-case name of the reason.
    pub fn as_str(&self) -> (r: &'static str)
        ensures
            r@ == reason_text(*self),
    {
        match self {
            WakeReason::Mail => "mail",
            WakeReason::Task => "task",
            WakeReason::MailAndTask => "mail-and-task",
            WakeReason::PodSleeping => "pod-sleeping",
            WakeReason::FinSleeping => "fin-sleeping",
            WakeReason::AlreadyRunning => "already-running",
            WakeReason::NoAction => "no-action",
            WakeReason::Debounced => "debounced",
            WakeReason::ExecAlways => "exec-always",
            WakeReason::ConfigError => "config-error",
            WakeReason::BackendError => "backend-error",
        }
    }
}

/// A duration in the largest whole unit: hours, minutes, or seconds.
pub open spec fn duration_text(s: nat) -> Seq<char> {
    if s >= 3600 && s % 3600 == 0 {
        decimal(s / 3600) + "h"@
    } else if s >= 60 && s % 60 == 0 {
        decimal(s / 60) + "m"@
    } else {
        decimal(s) + "s"@
    }
}

/// Writes a duration of whole seconds as `3h`, `5m` or `42s`.
pub fn format_duration(seconds: u64) -> (r: String)
    ensures
        r@ == duration_text(seconds as nat),
{
    if seconds >= 3600 && seconds % 3600 == 0 {
        let mut r = u64_to_decimal(seconds / 3600);
        append(&mut r, "h");
        r
    } else if seconds >= 60 && seconds % 60 == 0 {
        let mut r = u64_to_decimal(seconds / 60);
        append(&mut r, "m");
        r
    } else {
        let mut r = u64_to_decimal(seconds);
        append(&mut r, "s");
        r
    }
}

/// Whether a fin has unread mail or open tasks.
pub fn has_work(unread_mail: usize, open_tasks: usize) -> (r: bool)
    ensures
        r == (unread_mail > 0 || open_tasks > 0),
{
    unread_mail > 0 || open_tasks > 0
}

/// The decision for a fin that may run: wake for mail and tasks, else wake
/// an idle fin once `exec_always` has passed since its last run.
pub open spec fn idle_spec(
    unread_mail: nat,
    open_tasks: nat,
    exec_always: Option<u64>,
    last_run_age: Option<u64>,
) -> (WakeDecision, WakeReason, Option<Seq<char>>) {
    if unread_mail > 0 && open_tasks > 0 {
        (WakeDecision::WouldWake, WakeReason::MailAndTask, None)
    } else if unread_mail > 0 {
        (WakeDecision::WouldWake, WakeReason::Mail, None)
    } else if open_tasks > 0 {
        (WakeDecision::WouldWake, WakeReason::Task, None)
    } else {
        match exec_always {
            Some(e) => match last_run_age {
                Some(age) => if age >= e {
                    (
                        WakeDecision::WouldWake,
                        WakeReason::ExecAlways,
                        Some("exec_always="@ + duration_text(e as nat)),
                    )
                } else {
                    (
                        WakeDecision::WouldSkip,
                        WakeReason::NoAction,
                        Some("age="@ + duration_text(age as nat) + " exec_always="@
                            + duration_text(e as nat)),
                    )
                },
                None => (
                    WakeDecision::WouldWake,
                    WakeReason::ExecAlways,
                    Some("exec_always="@ + duration_text(e as nat)),
                ),
            },
            None => (WakeDecision::WouldSkip, WakeReason::NoAction, None),
        }
    }
}

/// The view of a decision triple.
pub open spec fn decision_view(d: (WakeDecision, WakeReason, Option<String>)) -> (
    WakeDecision,
    WakeReason,
    Option<Seq<char>>,
) {
    (d.0, d.1, opt_string(d.2))
}

/// Decides between waking for work, waking an idle fin, and doing nothing.
/// Durations are whole seconds.
pub fn work_or_idle_decision(
    unread_mail: usize,
    open_tasks: usize,
    exec_always: Option<u64>,
    last_run_age: Option<u64>,
) -> (r: (WakeDecision, WakeReason, Option<String>))
    ensures
        decision_view(r) == idle_spec(
            unread_mail as nat,
            open_tasks as nat,
            exec_always,
            last_run_age,
        ),
{
    if unread_mail > 0 && open_tasks > 0 {
        (WakeDecision::WouldWake, WakeReason::MailAndTask, None)
    } else if unread_mail > 0 {
        (WakeDecision::WouldWake, WakeReason::Mail, None)
    } else if open_tasks > 0 {
        (WakeDecision::WouldWake, WakeReason::Task, None)
    } else {
        match exec_always {
            Some(e) => {
                let due = match last_run_age {
                    Some(age) => age >= e,
                    None => true,
                };
                if due {
                    let mut d = String::from_str("exec_always=");
                    append(&mut d, format_duration(e).as_str());
                    (WakeDecision::WouldWake, WakeReason::ExecAlways, Some(d))
                } else {
                    let age = match last_run_age {
                        Some(a) => a,
                        None => 0,
                    };
                    let mut d = String::from_str("age=");
                    append(&mut d, format_duration(age).as_str());
                    append(&mut d, " exec_always=");
                    append(&mut d, format_duration(e).as_str());
                    (WakeDecision::WouldSkip, WakeReason::NoAction, Some(d))
                }
            },
            None => (WakeDecision::WouldSkip, WakeReason::NoAction, None),
        }
    }
}

/// The full wake decision for a fin whose run policy was read: sleeping pods
/// and fins are skipped unless forced, a running fin is skipped, a fin with
/// work is held back while its last run is younger than the debounce
/// interval (unless forced), and otherwise work and idleness decide.
pub open spec fn wake_spec(
    pod_sleeping: bool,
    fin_sleeping: bool,
    running: bool,
    force: bool,
    policy: RunPolicy,
    unread_mail: nat,
    open_tasks: nat,
    last_run_age: Option<u64>,
) -> (WakeDecision, WakeReason, Option<Seq<char>>) {
    if pod_sleeping && !force {
        (WakeDecision::WouldSkip, WakeReason::PodSleeping, None)
    } else if fin_sleeping && !force {
        (WakeDecision::WouldSkip, WakeReason::FinSleeping, None)
    } else if running {
        (WakeDecision::WouldSkip, WakeReason::AlreadyRunning, None)
    } else {
        match policy.debounce {
            Some(debounce) => if !force && (unread_mail > 0 || open_tasks > 0)
                && last_run_age is Some && last_run_age.unwrap() < debounce {
                (
                    WakeDecision::WouldSkip,
                    WakeReason::Debounced,
                    Some("age="@ + duration_text(last_run_age.unwrap() as nat) + " debounce="@
                        + duration_text(debounce as nat)),
                )
            } else {
                idle_spec(unread_mail, open_tasks, policy.exec_always, last_run_age)
            },
            None => idle_spec(unread_mail, open_tasks, policy.exec_always, last_run_age),
        }
    }
}

/// Decides whether a fin would be started, from the pod and fin sleep markers,
/// whether its lock holder is alive, its run policy, how much work waits and
/// the age in seconds of its last run.
pub fn fin_wake_decision(
    pod_sleeping: bool,
    fin_sleeping: bool,
    running: bool,
    force: bool,
    policy: &RunPolicy,
    unread_mail: usize,
    open_tasks: usize,
    last_run_age: Option<u64>,
) -> (r: (WakeDecision, WakeReason, Option<String>))
    ensures
        decision_view(r) == wake_spec(
            pod_sleeping,
            fin_sleeping,
            running,
            force,
            *policy,
            unread_mail as nat,
            open_tasks as nat,
            last_run_age,
        ),
{
    if pod_sleeping && !force {
        (WakeDecision::WouldSkip, WakeReason::PodSleeping, None)
    } else if fin_sleeping && !force {
        (WakeDecision::WouldSkip, WakeReason::FinSleeping, None)
    } else if running {
        (WakeDecision::WouldSkip, WakeReason::AlreadyRunning, None)
    } else {
        match policy.debounce {
            Some(debounce) => {
                let young = match last_run_age {
                    Some(age) => age < debounce,
                    None => false,
                };
                if !force && has_work(unread_mail, open_tasks) && young {
                    let age = match last_run_age {
                        Some(a) => a,
                        None => 0,
                    };
                    let mut d = String::from_str("age=");
                    append(&mut d, format_duration(age).as_str());
                    append(&mut d, " debounce=");
                    append(&mut d, format_duration(debounce).as_str());
                    (WakeDecision::WouldSkip, WakeReason::Debounced, Some(d))
                } else {
                    work_or_idle_decision(unread_mail, open_tasks, policy.exec_always, last_run_age)
                }
            },
            None => work_or_idle_decision(
                unread_mail,
                open_tasks,
                policy.exec_always,
                last_run_age,
            ),
        }
    }
}

/// The wake plan of one fin.
pub struct FinWakePlan {
    pub fin: String,
    pub decision: WakeDecision,
    pub reason: WakeReason,
    pub fin_sleeping: bool,
    pub running: bool,
    pub pid: Option<u32>,
    pub unread_mail: usize,
    pub open_tasks: usize,
    pub backend: Option<String>,
    pub detail: Option<String>,
}

/// A fin wake plan as plain values.
pub open spec fn plan_view(p: FinWakePlan) -> (
    Seq<char>,
    WakeDecision,
    WakeReason,
    bool,
    bool,
    Option<u32>,
    nat,
    nat,
    Option<Seq<char>>,
    Option<Seq<char>>,
) {
    (
        p.fin@,
        p.decision,
        p.reason,
        p.fin_sleeping,
        p.running,
        p.pid,
        p.unread_mail as nat,
        p.open_tasks as nat,
        opt_string(p.backend),
        opt_string(p.detail),
    )
}

/// The text of a result whose values are strings.
pub open spec fn text_res<T>(r: Result<T, String>) -> Result<T, Seq<char>> {
    match r {
        Ok(t) => Ok(t),
        Err(e) => Err(e@),
    }
}

/// The text of a result of strings.
pub open spec fn string_res(r: Result<String, String>) -> Result<Seq<char>, Seq<char>> {
    match r {
        Ok(t) => Ok(t@),
        Err(e) => Err(e@),
    }
}

/// The plan for one fin. `lock` is the pid in the fin's lock file and whether
/// that process is alive; a policy that could not be read skips the fin with
/// its error; the backend is consulted only when the fin would wake, and a
/// backend error then skips the fin with that error.
pub open spec fn plan_fin_spec(
    fin: Seq<char>,
    pod_sleeping: bool,
    force: bool,
    fin_sleeping: bool,
    unread_mail: nat,
    open_tasks: nat,
    lock: Option<(u32, bool)>,
    policy: Result<RunPolicy, Seq<char>>,
    last_run_age: Option<u64>,
    backend: Result<Seq<char>, Seq<char>>,
) -> (
    Seq<char>,
    WakeDecision,
    WakeReason,
    bool,
    bool,
    Option<u32>,
    nat,
    nat,
    Option<Seq<char>>,
    Option<Seq<char>>,
) {
    let pid = match lock {
        Some(l) => Some(l.0),
        None => None,
    };
    let running = match lock {
        Some(l) => l.1,
        None => false,
    };
    match policy {
        Err(e) => (
            fin,
            WakeDecision::WouldSkip,
            WakeReason::ConfigError,
            fin_sleeping,
            running,
            pid,
            unread_mail,
            open_tasks,
            None,
            Some(e),
        ),
        Ok(p) => {
            let d = wake_spec(
                pod_sleeping,
                fin_sleeping,
                running,
                force,
                p,
                unread_mail,
                open_tasks,
                last_run_age,
            );
            if d.0 == WakeDecision::WouldWake {
                match backend {
                    Ok(b) => (
                        fin,
                        d.0,
                        d.1,
                        fin_sleeping,
                        running,
                        pid,
                        unread_mail,
                        open_tasks,
                        Some(b),
                        d.2,
                    ),
                    Err(e) => (
                        fin,
                        WakeDecision::WouldSkip,
                        WakeReason::BackendError,
                        fin_sleeping,
                        running,
                        pid,
                        unread_mail,
                        open_tasks,
                        None,
                        Some(e),
                    ),
                }
            } else {
                (
                    fin,
                    d.0,
                    d.1,
                    fin_sleeping,
                    running,
                    pid,
                    unread_mail,
                    open_tasks,
                    None,
                    d.2,
                )
            }
        },
    }
}

/// Builds the wake plan of one fin from what was read about it.
pub fn plan_fin(
    fin: &str,
    pod_sleeping: bool,
    force: bool,
    fin_sleeping: bool,
    unread_mail: usize,
    open_tasks: usize,
    lock: Option<(u32, bool)>,
    policy: &Result<RunPolicy, String>,
    last_run_age: Option<u64>,
    backend: &Result<String, String>,
) -> (r: FinWakePlan)
    ensures
        plan_view(r) == plan_fin_spec(
            fin@,
            pod_sleeping,
            force,
            fin_sleeping,
            unread_mail as nat,
            open_tasks as nat,
            lock,
            text_res(*policy),
            last_run_age,
            string_res(*backend),
        ),
{
    let pid = match lock {
        Some(l) => Some(l.0),
        None => None,
    };
    let running = match lock {
        Some(l) => l.1,
        None => false,
    };
    match policy {
        Err(e) => FinWakePlan {
            fin: String::from_str(fin),
            decision: WakeDecision::WouldSkip,
            reason: WakeReason::ConfigError,
            fin_sleeping,
            running,
            pid,
            unread_mail,
            open_tasks,
            backend: None,
            detail: Some(e.clone()),
        },
        Ok(p) => {
            let (decision, reason, detail) = fin_wake_decision(
                pod_sleeping,
                fin_sleeping,
                running,
                force,
                p,
                unread_mail,
                open_tasks,
                last_run_age,
            );
            if decision == WakeDecision::WouldWake {
                match backend {
                    Ok(b) => FinWakePlan {
                        fin: String::from_str(fin),
                        decision,
                        reason,
                        fin_sleeping,
                        running,
                        pid,
                        unread_mail,
                        open_tasks,
                        backend: Some(b.clone()),
                        detail,
                    },
                    Err(e) => FinWakePlan {
                        fin: String::from_str(fin),
                        decision: WakeDecision::WouldSkip,
                        reason: WakeReason::BackendError,
                        fin_sleeping,
                        running,
                        pid,
                        unread_mail,
                        open_tasks,
                        backend: None,
                        detail: Some(e.clone()),
                    },
                }
            } else {
                FinWakePlan {
                    fin: String::from_str(fin),
                    decision,
                    reason,
                    fin_sleeping,
                    running,
                    pid,
                    unread_mail,
                    open_tasks,
                    backend: None,
                    detail,
                }
            }
        },
    }
}

/// The wake plan of a pod: its fins in order of name.
pub struct WakePlan {
    pub pod: String,
    pub pod_sleeping: bool,
    pub fins: Vec<FinWakePlan>,
}

/// Fin plans in non-decreasing order of fin name.
pub open spec fn fins_sorted(fs: Seq<FinWakePlan>) -> bool {
    forall|i: int, j: int| 0 <= i < j < fs.len() ==> !lex_lt(fs[j].fin@, fs[i].fin@)
}

/// Keeps the plans for the fin named `name`.
pub open spec fn plan_for(name: Seq<char>) -> spec_fn(FinWakePlan) -> bool {
    |p: FinWakePlan| p.fin@ == name
}

/// Orders fin plans by fin name, keeping plans with the same name in the
/// order they came in.
pub fn sort_fin_plans(fins: Vec<FinWakePlan>) -> (r: Vec<FinWakePlan>)
    ensures
        r@.map_values(|p: FinWakePlan| plan_view(p)).to_multiset() == fins@.map_values(
            |p: FinWakePlan| plan_view(p),
        ).to_multiset(),
        fins_sorted(r@),
        forall|name: Seq<char>| #[trigger] r@.filter(plan_for(name)) == fins@.filter(plan_for(name)),
{
    broadcast use vstd::seq_lib::group_to_multiset_ensures;

    let ghost orig = fins@.map_values(|p: FinWakePlan| plan_view(p));
    let ghost input = fins@;
    let mut rest = fins;
    let mut keys: Vec<Vec<char>> = Vec::new();
    let mut i: usize = 0;
    while i < rest.len()
        invariant
            i <= rest@.len(),
            keys@.len() == i,
            forall|j: int| 0 <= j < i ==> (#[trigger] keys@[j])@ == rest@[j].fin@,
        decreases rest@.len() - i,
    {
        keys.push(chars_of(rest[i].fin.as_str()));
        i = i + 1;
    }
    let mut out: Vec<FinWakePlan> = Vec::new();
    proof {
        assert forall|name: Seq<char>| #[trigger]
            out@.filter(plan_for(name)) + rest@.filter(plan_for(name)) == input.filter(plan_for(name)) by {
            crate::stable::lemma_filter_empty(out@, plan_for(name));
            assert(out@.filter(plan_for(name)) + rest@.filter(plan_for(name)) =~= rest@.filter(plan_for(name)));
        }
    }
    while rest.len() > 0
        invariant
            keys@.len() == rest@.len(),
            forall|name: Seq<char>| #[trigger]
                out@.filter(plan_for(name)) + rest@.filter(plan_for(name)) == input.filter(plan_for(name)),
            forall|j: int| 0 <= j < rest@.len() ==> (#[trigger] keys@[j])@ == rest@[j].fin@,
            rest@.map_values(|p: FinWakePlan| plan_view(p)).to_multiset().add(
                out@.map_values(|p: FinWakePlan| plan_view(p)).to_multiset(),
            ) == orig.to_multiset(),
            fins_sorted(out@),
            forall|a: int, b: int|
                0 <= a < out@.len() && 0 <= b < rest@.len() ==> !lex_lt(
                    (#[trigger] rest@[b]).fin@,
                    (#[trigger] out@[a]).fin@,
                ),
        decreases rest@.len(),
    {
        let mut best: usize = 0;
        let mut j: usize = 1;
        proof {
            lemma_lex_irreflexive(rest@[0].fin@);
        }
        while j < rest.len()
            invariant
                keys@.len() == rest@.len(),
                forall|x: int| 0 <= x < rest@.len() ==> (#[trigger] keys@[x])@ == rest@[x].fin@,
                0 <= best < j <= rest@.len(),
                forall|x: int| 0 <= x < j ==> !lex_lt((#[trigger] rest@[x]).fin@, rest@[best as int].fin@),
                forall|x: int| 0 <= x < best ==> (#[trigger] rest@[x]).fin@ != rest@[best as int].fin@,
            decreases rest@.len() - j,
        {
            if lex_less(&keys[j], &keys[best]) {
                proof {
                    assert forall|x: int| 0 <= x < j implies !lex_lt((#[trigger] rest@[x]).fin@, rest@[j as int].fin@) by {
                        if lex_lt(rest@[x].fin@, rest@[j as int].fin@) {
                            lemma_lex_trans(rest@[x].fin@, rest@[j as int].fin@, rest@[best as int].fin@);
                        }
                    }
                    lemma_lex_irreflexive(rest@[j as int].fin@);
                }
                best = j;
            }
            j = j + 1;
        }
        let ghost before_rest = rest@;
        let ghost before_out = out@;
        let t = rest.remove(best);
        let _ = keys.remove(best);
        let ghost vt = before_rest.map_values(|p: FinWakePlan| plan_view(p));
        let ghost vo = before_out.map_values(|p: FinWakePlan| plan_view(p));
        proof {
            assert(rest@.map_values(|p: FinWakePlan| plan_view(p)) =~= vt.remove(best as int));
            assert(vt[best as int] == plan_view(t));
            vt.to_multiset_ensures();
            vo.to_multiset_ensures();
            assert(vt.remove(best as int).to_multiset() =~= vt.to_multiset().remove(vt[best as int]));
        }
        out.push(t);
        proof {
            assert forall|name: Seq<char>| #[trigger]
                out@.filter(plan_for(name)) + rest@.filter(plan_for(name)) == input.filter(plan_for(name)) by {
                let p = plan_for(name);
                assert(p(before_rest[best as int]) ==> forall|x: int|
                    0 <= x < best ==> !p(#[trigger] before_rest[x]));
                crate::stable::lemma_filter_move(before_out, before_rest, best as int, p);
            }
            assert(out@.map_values(|p: FinWakePlan| plan_view(p)) =~= vo.push(plan_view(t)));
            assert(vo.push(plan_view(t)).to_multiset() =~= vo.to_multiset().insert(plan_view(t)));
            assert(vt.to_multiset().count(plan_view(t)) > 0);
            assert(vt.to_multiset().remove(plan_view(t)).add(vo.to_multiset().insert(plan_view(t)))
                =~= vt.to_multiset().add(vo.to_multiset()));
            assert forall|a: int, b: int|
                0 <= a < out@.len() && 0 <= b < rest@.len() implies !lex_lt(
                    (#[trigger] rest@[b]).fin@,
                    (#[trigger] out@[a]).fin@,
                ) by {
                if b < best {
                    assert(rest@[b] == before_rest[b]);
                } else {
                    assert(rest@[b] == before_rest[b + 1]);
                }
            }
        }
    }
    proof {
        assert(rest@.map_values(|p: FinWakePlan| plan_view(p)) =~= Seq::<
            (
                Seq<char>,
                WakeDecision,
                WakeReason,
                bool,
                bool,
                Option<u32>,
                nat,
                nat,
                Option<Seq<char>>,
                Option<Seq<char>>,
            ),
        >::empty());
        assert(out@.map_values(|p: FinWakePlan| plan_view(p)).to_multiset() =~= orig.to_multiset());
        assert forall|name: Seq<char>| #[trigger] out@.filter(plan_for(name)) == input.filter(plan_for(name)) by {
            crate::stable::lemma_filter_empty(rest@, plan_for(name));
            assert(out@.filter(plan_for(name)) + rest@.filter(plan_for(name)) =~= out@.filter(plan_for(name)));
        }
    }
    out
}

/// The plan of a pod from the plans of its fins; a pod without `pod.toml`
/// is refused.
pub fn plan_pod(pod: &PodRef, pod_exists: bool, pod_sleeping: bool, fins: Vec<FinWakePlan>) -> (r:
    Result<WakePlan, String>)
    ensures
        r is Ok <==> pod_exists,
        r matches Err(e) ==> e@ == "pod '"@ + pod.slug@ + "' does not exist (run 'orqa pod create "@
            + pod.slug@ + "' to create it)"@,
        r matches Ok(p) ==> p.pod@ == pod.slug@ && p.pod_sleeping == pod_sleeping
            && fins_sorted(p.fins@) && p.fins@.map_values(|f: FinWakePlan| plan_view(f)).to_multiset()
            == fins@.map_values(|f: FinWakePlan| plan_view(f)).to_multiset(),
{
    if !pod_exists {
        let mut e = String::from_str("pod '");
        append(&mut e, pod.slug.as_str());
        append(&mut e, "' does not exist (run 'orqa pod create ");
        append(&mut e, pod.slug.as_str());
        append(&mut e, "' to create it)");
        return Err(e);
    }
    let sorted = sort_fin_plans(fins);
    Ok(WakePlan { pod: pod.slug.clone(), pod_sleeping, fins: sorted })
}

proof fn lemma_first_non_digit_of(d: Seq<char>, c: char, i: int)
    requires
        all_digits(d),
        !is_digit(c),
        0 <= i <= d.len(),
    ensures
        first_non_digit(d.push(c), i) == d.len(),
    decreases d.len() - i,
{
    let t = d.push(c);
    if i < d.len() {
        assert(t[i] == d[i]);
        lemma_first_non_digit_of(d, c, i + 1);
    } else {
        assert(t[i] == c);
    }
}

/// The text of a number of seconds in a unit, read back.
proof fn lemma_unit_round_trip(q: u64, c: char, f: nat)
    requires
        c == 's' || c == 'm' || c == 'h',
        f == (if c == 's' {
            1nat
        } else if c == 'm' {
            60nat
        } else {
            3600nat
        }),
    ensures
        duration_parts(decimal(q as nat).push(c)) == Ok::<(u64, nat), Seq<char>>((q, f)),
{
    let d = decimal(q as nat);
    let t = d.push(c);
    lemma_decimal_digits(q as nat);
    lemma_parse_decimal(q);
    assert(!is_ws(t[0])) by {
        assert(t[0] == d[0]);
        assert(is_digit(d[0]));
    }
    assert(skip_ws_from(t, 0) == 0);
    assert(t[t.len() - 1] == c);
    assert(back_ws_to(t, t.len() as int) == t.len());
    assert(trim(t) =~= t);
    lemma_first_non_digit_of(d, c, 0);
    assert(t.subrange(0, d.len() as int) =~= d);
    let u = t.subrange(d.len() as int, t.len() as int);
    assert(u =~= seq![c]);
    assert(!is_ws(c));
    assert(skip_ws_from(u, 0) == 0);
    assert(back_ws_to(u, 1) == 1);
    assert(trim(u) =~= u);
    reveal_strlit("s");
    reveal_strlit("sec");
    reveal_strlit("secs");
    reveal_strlit("second");
    reveal_strlit("seconds");
    reveal_strlit("m");
    reveal_strlit("min");
    reveal_strlit("mins");
    reveal_strlit("minute");
    reveal_strlit("minutes");
    reveal_strlit("h");
    reveal_strlit("hr");
    reveal_strlit("hrs");
    reveal_strlit("hour");
    reveal_strlit("hours");
    reveal_strlit("d");
    reveal_strlit("day");
    reveal_strlit("days");
    assert(unit_factor(u) == Some(f));
}

/// A duration written by `format_duration` reads back, through
/// `parse_duration`, as the same number of seconds, without overflow.
pub proof fn law_duration_round_trip(seconds: u64)
    ensures
        duration_fits(duration_text(seconds as nat)),
        duration_spec(duration_text(seconds as nat)) == Ok::<nat, Seq<char>>(seconds as nat),
{
    reveal_strlit("h");
    reveal_strlit("m");
    reveal_strlit("s");
    let s = seconds as nat;
    if s >= 3600 && s % 3600 == 0 {
        let q = (seconds / 3600) as u64;
        assert(decimal(q as nat) + "h"@ =~= decimal(q as nat).push('h'));
        lemma_unit_round_trip(q, 'h', 3600);
        assert(q * 3600 == s);
        assert(duration_text(s) == decimal(q as nat).push('h'));
        assert(duration_parts(duration_text(s)) == Ok::<(u64, nat), Seq<char>>((q, 3600nat)));
        let p = duration_parts(duration_text(s))->Ok_0;
        assert(p.0 * p.1 == s);
    } else if s >= 60 && s % 60 == 0 {
        let q = (seconds / 60) as u64;
        assert(decimal(q as nat) + "m"@ =~= decimal(q as nat).push('m'));
        lemma_unit_round_trip(q, 'm', 60);
        assert(q * 60 == s);
        assert(duration_text(s) == decimal(q as nat).push('m'));
        assert(duration_parts(duration_text(s)) == Ok::<(u64, nat), Seq<char>>((q, 60nat)));
        let p = duration_parts(duration_text(s))->Ok_0;
        assert(p.0 * p.1 == s);
    } else {
        assert(decimal(s) + "s"@ =~= decimal(s).push('s'));
        lemma_unit_round_trip(seconds, 's', 1);
        assert(duration_text(s) == decimal(s).push('s'));
        assert(duration_parts(duration_text(s)) == Ok::<(u64, nat), Seq<char>>((seconds, 1nat)));
        let p = duration_parts(duration_text(s))->Ok_0;
        assert(p.0 == seconds && p.1 == 1);
        assert(p.0 * p.1 == s) by (nonlinear_arith)
            requires
                p.0 == seconds && p.1 == 1 && s == seconds,
        ;
    }
}

/// The rest of the first line that starts with `p`.
pub open spec fn first_with_prefix(ls: Seq<Seq<char>>, p: Seq<char>) -> Option<Seq<char>>
    decreases ls.len(),
{
    if ls.len() == 0 {
        None
    } else if starts_with(ls[0], p) {
        Some(ls[0].subrange(p.len() as int, ls[0].len() as int))
    } else {
        first_with_prefix(ls.drop_first(), p)
    }
}

/// The value of the first `key=value` line of a lock file.
pub open spec fn lock_field_spec(contents: Seq<char>, key: Seq<char>) -> Option<Seq<char>> {
    first_with_prefix(lines(contents), key + "="@)
}

/// The first `pid=` line whose value reads as a `u32`.
pub open spec fn first_pid(ls: Seq<Seq<char>>) -> Option<u32>
    decreases ls.len(),
{
    if ls.len() == 0 {
        None
    } else if starts_with(ls[0], "pid="@) && parse_u32(ls[0].subrange(4, ls[0].len() as int)) is Some {
        parse_u32(ls[0].subrange(4, ls[0].len() as int))
    } else {
        first_pid(ls.drop_first())
    }
}

/// The pid a lock file names.
pub open spec fn lock_pid_spec(contents: Seq<char>) -> Option<u32> {
    first_pid(lines(contents))
}

/// A lock file: one `key=value` line per field, each ending in a newline.
pub open spec fn lock_text(fs: Seq<(Seq<char>, Seq<char>)>) -> Seq<char>
    decreases fs.len(),
{
    if fs.len() == 0 {
        Seq::empty()
    } else {
        fs[0].0 + "="@ + fs[0].1 + "\n"@ + lock_text(fs.drop_first())
    }
}

proof fn lemma_first_with_prefix_cons(l: Seq<char>, rest: Seq<Seq<char>>, p: Seq<char>)
    ensures
        first_with_prefix(seq![l] + rest, p) == (if starts_with(l, p) {
            Some(l.subrange(p.len() as int, l.len() as int))
        } else {
            first_with_prefix(rest, p)
        }),
        first_pid(seq![l] + rest) == (if starts_with(l, "pid="@) && parse_u32(
            l.subrange(4, l.len() as int),
        ) is Some {
            parse_u32(l.subrange(4, l.len() as int))
        } else {
            first_pid(rest)
        }),
{
    assert((seq![l] + rest).drop_first() =~= rest);
    assert((seq![l] + rest)[0] == l);
}

/// Whether line `v[a..b]` starts with `p`.
fn line_starts_with(v: &Vec<char>, a: usize, b: usize, p: &Vec<char>) -> (r: bool)
    requires
        a <= b <= v@.len(),
    ensures
        r == starts_with(v@.subrange(a as int, b as int), p@),
{
    if p.len() > b - a {
        return false;
    }
    let r = matches_at_exec(v, p, a);
    proof {
        assert(v@.subrange(a as int, b as int).subrange(0, p@.len() as int) =~= v@.subrange(
            a as int,
            a + p@.len(),
        ));
    }
    r
}

/// The value of the first `key=` line of a lock file.
pub fn lock_field(contents: &str, key: &str) -> (r: Option<String>)
    ensures
        opt_string(r) == lock_field_spec(contents@, key@),
{
    let v = chars_of(contents);
    let mut prefix = String::from_str(key);
    append(&mut prefix, "=");
    let p = chars_of(prefix.as_str());
    let mut i: usize = 0;
    while i < v.len()
        invariant
            v@ == contents@,
            p@ == key@ + "="@,
            i <= v@.len(),
            first_with_prefix(lines_from(v@, i as int), p@) == lock_field_spec(contents@, key@),
        decreases v@.len() - i,
    {
        let (a, b, next) = line_at(&v, i);
        proof {
            lemma_first_with_prefix_cons(
                v@.subrange(a as int, b as int),
                lines_from(v@, next as int),
                p@,
            );
        }
        if line_starts_with(&v, a, b, &p) {
            let rest = string_of_range(&v, a + p.len(), b);
            proof {
                assert(v@.subrange(a as int, b as int).subrange(p@.len() as int, b - a) =~= v@.subrange(
                    a + p@.len(),
                    b as int,
                ));
            }
            return Some(rest);
        }
        i = next;
    }
    None
}

/// The pid a lock file names: the first `pid=` line whose value reads as a
/// `u32`.
pub fn lock_pid(contents: &str) -> (r: Option<u32>)
    ensures
        r == lock_pid_spec(contents@),
{
    let v = chars_of(contents);
    let p = chars_of("pid=");
    proof {
        reveal_strlit("pid=");
    }
    let mut i: usize = 0;
    while i < v.len()
        invariant
            v@ == contents@,
            p@ == "pid="@,
            p@.len() == 4,
            i <= v@.len(),
            first_pid(lines_from(v@, i as int)) == lock_pid_spec(contents@),
        decreases v@.len() - i,
    {
        let (a, b, next) = line_at(&v, i);
        proof {
            lemma_first_with_prefix_cons(
                v@.subrange(a as int, b as int),
                lines_from(v@, next as int),
                p@,
            );
        }
        if line_starts_with(&v, a, b, &p) {
            proof {
                assert(v@.subrange(a as int, b as int).subrange(4, b - a) =~= v@.subrange(
                    a + 4,
                    b as int,
                ));
            }
            match parse_u32_range(&v, a + 4, b) {
                Some(n) => {
                    return Some(n);
                },
                None => {},
            }
        }
        i = next;
    }
    None
}

/// Writes lock fields as `key=value` lines.
pub fn lock_contents(fields: &Vec<(String, String)>) -> (r: String)
    ensures
        r@ == lock_text(fields_view(fields@)),
{
    let ghost fs = fields_view(fields@);
    let mut out = String::new();
    let mut i: usize = 0;
    proof {
        assert(fs.skip(0) =~= fs);
        assert(out@ + lock_text(fs) =~= lock_text(fs));
    }
    while i < fields.len()
        invariant
            fs == fields_view(fields@),
            i <= fields@.len(),
            out@ + lock_text(fs.skip(i as int)) == lock_text(fs),
        decreases fields@.len() - i,
    {
        proof {
            assert(fs.skip(i as int).drop_first() =~= fs.skip(i + 1));
            assert(fs.skip(i as int)[0] == fs[i as int]);
        }
        append(&mut out, fields[i].0.as_str());
        append(&mut out, "=");
        append(&mut out, fields[i].1.as_str());
        append(&mut out, "\n");
        proof {
            assert(out@ + lock_text(fs.skip(i + 1)) =~= lock_text(fs));
        }
        i = i + 1;
    }
    proof {
        assert(lock_text(fs.skip(i as int)) =~= Seq::<char>::empty());
        assert(out@ =~= out@ + lock_text(fs.skip(i as int)));
    }
    out
}

/// The token that marks a lock as ours: the pid and the nanoseconds since
/// the epoch when it was claimed.
pub fn lock_token(pid: u32, nanos: u128) -> (r: String)
    ensures
        r@ == decimal(pid as nat) + "-"@ + decimal(nanos as nat),
{
    let mut r = u64_to_decimal(pid as u64);
    append(&mut r, "-");
    append(&mut r, u128_to_decimal(nanos).as_str());
    r
}

/// Lock fields that read back: keys without `=`, and neither keys nor values
/// holding a line break.
pub open spec fn lock_fields_ok(fs: Seq<(Seq<char>, Seq<char>)>) -> bool {
    forall|i: int| 0 <= i < fs.len() ==> {
        &&& !fs[i].0.contains('=')
        &&& !fs[i].0.contains('\n')
        &&& !fs[i].0.contains('\r')
        &&& !fs[i].1.contains('\n')
        &&& !fs[i].1.contains('\r')
    }
}

/// The line a lock field is written as.
pub open spec fn lock_line(f: (Seq<char>, Seq<char>)) -> Seq<char> {
    f.0 + "="@ + f.1
}

pub proof fn lemma_find_char_at(s: Seq<char>, c: char, i: int, k: int)
    requires
        0 <= i <= k < s.len(),
        s[k] == c,
        forall|j: int| i <= j < k ==> s[j] != c,
    ensures
        find_char_from(s, c, i) == k,
    decreases k - i,
{
    if i < k {
        lemma_find_char_at(s, c, i + 1, k);
    }
}

proof fn lemma_find_char_shift(x: Seq<char>, y: Seq<char>, c: char, j: int)
    requires
        0 <= j,
    ensures
        find_char_from(x + y, c, x.len() + j) == (if find_char_from(y, c, j) < 0 {
            -1
        } else {
            find_char_from(y, c, j) + x.len()
        }),
    decreases y.len() - j,
{
    if j < y.len() {
        assert((x + y)[x.len() + j] == y[j]);
        if y[j] != c {
            lemma_find_char_shift(x, y, c, j + 1);
        }
    }
}

proof fn lemma_lines_shift(x: Seq<char>, y: Seq<char>, j: int)
    requires
        0 <= j,
    ensures
        lines_from(x + y, x.len() + j) == lines_from(y, j),
    decreases y.len() - j,
{
    let s = x + y;
    if j < y.len() {
        lemma_find_char_shift(x, y, '\n', j);
        crate::text::lemma_find_char_from_bounds(y, '\n', j);
        let f = find_char_from(y, '\n', j);
        if f < 0 {
            assert(s.subrange(x.len() + j, s.len() as int) =~= y.subrange(j, y.len() as int));
        } else {
            assert(s.subrange(x.len() + j, f + x.len()) =~= y.subrange(j, f));
            lemma_lines_shift(x, y, f + 1);
            assert(lines_from(s, f + x.len() + 1) == lines_from(y, f + 1));
        }
    }
}

proof fn lemma_lines_line(l: Seq<char>, y: Seq<char>)
    requires
        !l.contains('\n'),
        !(l.len() > 0 && l.last() == '\r'),
    ensures
        lines(l + "\n"@ + y) == seq![l] + lines(y),
{
    reveal_strlit("\n");
    let x = l + "\n"@;
    let s = x + y;
    assert(s[l.len() as int] == '\n');
    assert forall|j: int| 0 <= j < l.len() implies s[j] != '\n' by {
        assert(s[j] == l[j]);
    }
    lemma_find_char_at(s, '\n', 0, l.len() as int);
    assert(s.subrange(0, l.len() as int) =~= l);
    assert(strip_cr(l) == l);
    lemma_lines_shift(x, y, 0);
    assert(x.len() == l.len() + 1);
    assert(lines_from(s, l.len() + 1int) == lines(y));
    assert(lines_from(s, 0) =~= seq![l] + lines_from(s, l.len() + 1int));
}

proof fn lemma_lock_lines(fs: Seq<(Seq<char>, Seq<char>)>)
    requires
        lock_fields_ok(fs),
    ensures
        lines(lock_text(fs)) == fs.map_values(|f: (Seq<char>, Seq<char>)| lock_line(f)),
    decreases fs.len(),
{
    reveal_strlit("=");
    reveal_strlit("\n");
    let m = fs.map_values(|f: (Seq<char>, Seq<char>)| lock_line(f));
    if fs.len() == 0 {
        assert(lines(Seq::<char>::empty()) =~= Seq::<Seq<char>>::empty());
        assert(m =~= Seq::<Seq<char>>::empty());
    } else {
        let rest = fs.drop_first();
        assert(lock_fields_ok(rest)) by {
            assert forall|i: int| 0 <= i < rest.len() implies {
                &&& !rest[i].0.contains('=')
                &&& !rest[i].0.contains('\n')
                &&& !rest[i].0.contains('\r')
                &&& !rest[i].1.contains('\n')
                &&& !rest[i].1.contains('\r')
            } by {
                assert(rest[i] == fs[i + 1]);
            }
        }
        lemma_lock_lines(rest);
        let l = lock_line(fs[0]);
        assert(!l.contains('\n')) by {
            if l.contains('\n') {
                let k = choose|k: int| 0 <= k < l.len() && l[k] == '\n';
                if k < fs[0].0.len() {
                    assert(fs[0].0.contains('\n'));
                } else if k == fs[0].0.len() {
                } else {
                    assert(fs[0].1[k - fs[0].0.len() - 1] == '\n');
                    assert(fs[0].1.contains('\n'));
                }
            }
        }
        assert(!(l.len() > 0 && l.last() == '\r')) by {
            if fs[0].1.len() > 0 {
                assert(l.last() == fs[0].1.last());
                assert(fs[0].1.contains(fs[0].1.last()));
            }
        }
        lemma_lines_line(l, lock_text(rest));
        assert(lock_text(fs) =~= l + "\n"@ + lock_text(rest));
        assert(m =~= seq![l] + rest.map_values(|f: (Seq<char>, Seq<char>)| lock_line(f)));
    }
}

proof fn lemma_key_prefix(k: Seq<char>, v: Seq<char>, key: Seq<char>)
    requires
        !k.contains('='),
        !key.contains('='),
    ensures
        starts_with(k + "="@ + v, key + "="@) <==> k == key,
        k == key ==> (k + "="@ + v).subrange(key.len() + 1int, (k + "="@ + v).len() as int) == v,
{
    reveal_strlit("=");
    let l = k + "="@ + v;
    let p = key + "="@;
    if k == key {
        assert(l.subrange(0, p.len() as int) =~= p);
        assert(l.subrange(key.len() + 1int, l.len() as int) =~= v);
    } else if starts_with(l, p) {
        if k.len() < key.len() {
            assert(l[k.len() as int] == '=');
            assert(p[k.len() as int] == key[k.len() as int]);
            assert(l.subrange(0, p.len() as int)[k.len() as int] == l[k.len() as int]);
            assert(key.contains(key[k.len() as int]));
        } else if k.len() > key.len() {
            assert(p[key.len() as int] == '=');
            assert(l[key.len() as int] == k[key.len() as int]);
            assert(l.subrange(0, p.len() as int)[key.len() as int] == l[key.len() as int]);
            assert(k.contains(k[key.len() as int]));
        } else {
            assert forall|i: int| 0 <= i < k.len() implies k[i] == key[i] by {
                assert(l.subrange(0, p.len() as int)[i] == p[i]);
            }
            assert(k =~= key);
        }
    }
}

/// Reading a field back from written lock contents gives the value of the
/// first field with that key, for keys without `=` and fields without line
/// breaks.
pub proof fn law_lock_field_reads_back(fs: Seq<(Seq<char>, Seq<char>)>, key: Seq<char>)
    requires
        lock_fields_ok(fs),
        !key.contains('='),
    ensures
        lock_field_spec(lock_text(fs), key) == lookup(fs, key),
{
    lemma_lock_lines(fs);
    let m = fs.map_values(|f: (Seq<char>, Seq<char>)| lock_line(f));
    lemma_field_lookup_lines(fs, key, 0);
    assert(m.skip(0) =~= m);
}

proof fn lemma_field_lookup_lines(fs: Seq<(Seq<char>, Seq<char>)>, key: Seq<char>, i: int)
    requires
        lock_fields_ok(fs),
        !key.contains('='),
        0 <= i <= fs.len(),
    ensures
        first_with_prefix(
            fs.map_values(|f: (Seq<char>, Seq<char>)| lock_line(f)).skip(i),
            key + "="@,
        ) == (if field_index_from(fs, key, i) < 0 {
            None
        } else {
            Some(fs[field_index_from(fs, key, i)].1)
        }),
    decreases fs.len() - i,
{
    let m = fs.map_values(|f: (Seq<char>, Seq<char>)| lock_line(f));
    lemma_field_index_bounds(fs, key, i);
    if i < fs.len() {
        assert(m.skip(i).drop_first() =~= m.skip(i + 1));
        assert(m.skip(i)[0] == lock_line(fs[i]));
        lemma_key_prefix(fs[i].0, fs[i].1, key);
        if fs[i].0 != key {
            lemma_field_lookup_lines(fs, key, i + 1);
        }
    } else {
        assert(m.skip(i).len() == 0);
    }
}

proof fn lemma_pid_lines(fs: Seq<(Seq<char>, Seq<char>)>, pid: u32, i: int)
    requires
        lock_fields_ok(fs),
        0 <= i <= field_index(fs, "pid"@),
        field_index(fs, "pid"@) >= 0,
        fs[field_index(fs, "pid"@)].1 == decimal(pid as nat),
    ensures
        first_pid(fs.map_values(|f: (Seq<char>, Seq<char>)| lock_line(f)).skip(i)) == Some(pid),
    decreases fs.len() - i,
{
    reveal_strlit("pid");
    reveal_strlit("pid=");
    reveal_strlit("=");
    let m = fs.map_values(|f: (Seq<char>, Seq<char>)| lock_line(f));
    let k = field_index(fs, "pid"@);
    lemma_field_index_bounds(fs, "pid"@, 0);
    assert(m.skip(i).drop_first() =~= m.skip(i + 1));
    assert(m.skip(i)[0] == lock_line(fs[i]));
    assert(!"pid"@.contains('='));
    assert("pid"@ + "="@ =~= "pid="@);
    lemma_key_prefix(fs[i].0, fs[i].1, "pid"@);
    if i < k {
        lemma_pid_lines(fs, pid, i + 1);
    } else {
        lemma_parse_decimal(pid as u64);
    }
}

/// The pid read back from written lock contents is the value written for the
/// first `pid` field, when that value is the decimal form of a `u32`.
pub proof fn law_lock_pid_reads_back(fs: Seq<(Seq<char>, Seq<char>)>, pid: u32)
    requires
        lock_fields_ok(fs),
        lookup(fs, "pid"@) == Some(decimal(pid as nat)),
    ensures
        lock_pid_spec(lock_text(fs)) == Some(pid),
{
    lemma_lock_lines(fs);
    let m = fs.map_values(|f: (Seq<char>, Seq<char>)| lock_line(f));
    lemma_pid_lines(fs, pid, 0);
    assert(m.skip(0) =~= m);
}

/// A fin's lock as read from its lock file, or as claimed by this process.
pub struct FinLock {
    pub path: String,
    pub pid: u32,
    pub token: String,
    pub owned: bool,
}

impl FinLock {
    /// The lock an existing lock file describes: its pid and token. A file
    /// without a readable pid is an error; a missing token reads as empty.
    pub fn from_contents(path: &str, contents: &str) -> (r: Result<FinLock, String>)
        ensures
            match lock_pid_spec(contents@) {
                Some(pid) => r matches Ok(l) && l.pid == pid && l.path@ == path@ && !l.owned
                    && l.token@ == (match lock_field_spec(contents@, "token"@) {
                    Some(t) => t,
                    None => Seq::<char>::empty(),
                }),
                None => r matches Err(e) && e@ == "lock "@ + path@ + " does not contain a valid pid"@,
            },
    {
        match lock_pid(contents) {
            Some(pid) => {
                let token = match lock_field(contents, "token") {
                    Some(t) => t,
                    None => String::new(),
                };
                Ok(FinLock { path: String::from_str(path), pid, token, owned: false })
            },
            None => {
                let mut e = String::from_str("lock ");
                append(&mut e, path);
                append(&mut e, " does not contain a valid pid");
                Err(e)
            },
        }
    }

    /// The pid of the process holding the lock.
    pub fn pid(&self) -> (r: u32)
        ensures
            r == self.pid,
    {
        self.pid
    }

    /// Whether lock file contents still carry this lock's token.
    pub fn owns(&self, contents: &str) -> (r: bool)
        ensures
            r == (lock_field_spec(contents@, "token"@) == Some(self.token@)),
    {
        match lock_field(contents, "token") {
            Some(t) => crate::text::str_eq(t.as_str(), self.token.as_str()),
            None => false,
        }
    }
}

/// What to do with the lock file found while claiming a lock.
pub enum ClaimStep {
    /// A live process holds the lock: give up with this error.
    Refuse(String),
    /// The holder is gone: remove its file, then create ours.
    RemoveStale,
    /// No lock file: create ours.
    Create,
}

/// Decides a claim attempt from the lock found: its pid and whether that
/// process is alive.
pub fn claim_step(fin: &FinRef, existing: Option<(u32, bool)>) -> (r: ClaimStep)
    ensures
        match existing {
            Some(l) => if l.1 {
                r matches ClaimStep::Refuse(e) && e@ == "fin "@ + fin_label(fin.pod@, fin.fin@)
                    + " is already starting or running as pid "@ + decimal(l.0 as nat)
            } else {
                r is RemoveStale
            },
            None => r is Create,
        },
{
    match existing {
        Some((pid, live)) => {
            if live {
                let mut e = String::from_str("fin ");
                append(&mut e, fin.label().as_str());
                append(&mut e, " is already starting or running as pid ");
                append(&mut e, u64_to_decimal(pid as u64).as_str());
                ClaimStep::Refuse(e)
            } else {
                ClaimStep::RemoveStale
            }
        },
        None => ClaimStep::Create,
    }
}

/// How many times a claim retries when another process creates the lock file
/// first.
pub const CLAIM_ATTEMPTS: u32 = 8;

/// What creating the lock file gave: the contents read back from the file
/// just written, or another process's file already in its place.
pub enum CreateOutcome {
    Created(String),
    AlreadyExists,
}

/// What a claim does after trying to create the lock file.
pub enum ClaimNext {
    /// The file read back carries our token: the lock is ours.
    Held,
    /// Another process created the file first: try again.
    Retry,
    /// Give up with this error.
    Fail(String),
    /// The file read back is not ours: remove it and fail with this error.
    RemoveAndFail(String),
}

/// Decides a claim after attempt `attempt` (counted from 0) tried to create
/// the lock file with `token`: the lock is held when the file reads back
/// with that token; another process's file means another attempt, until
/// the attempts run out.
pub fn claim_next(fin: &FinRef, attempt: u32, token: &str, outcome: &CreateOutcome) -> (r: ClaimNext)
    requires
        attempt < CLAIM_ATTEMPTS,
    ensures
        match outcome {
            CreateOutcome::Created(w) => if lock_field_spec(w@, "token"@) == Some(token@) {
                r is Held
            } else {
                r matches ClaimNext::RemoveAndFail(e) && e@ == "lock verification failed for "@ + fin_label(
                    fin.pod@,
                    fin.fin@,
                ) + " after claim (race or corruption)"@
            },
            CreateOutcome::AlreadyExists => if attempt + 1 < CLAIM_ATTEMPTS {
                r is Retry
            } else {
                r matches ClaimNext::Fail(e) && e@ == "fin "@ + fin_label(fin.pod@, fin.fin@)
                    + " lock was acquired by another process (race)"@
            },
        },
{
    match outcome {
        CreateOutcome::Created(w) => {
            let ours = match lock_field(w.as_str(), "token") {
                Some(t) => crate::text::str_eq(t.as_str(), token),
                None => false,
            };
            if ours {
                ClaimNext::Held
            } else {
                ClaimNext::RemoveAndFail(claim_verify_error(fin))
            }
        },
        CreateOutcome::AlreadyExists => {
            if attempt + 1 < CLAIM_ATTEMPTS {
                ClaimNext::Retry
            } else {
                ClaimNext::Fail(claim_race_error(fin))
            }
        },
    }
}

/// The error after every claim attempt lost the race.
pub fn claim_race_error(fin: &FinRef) -> (r: String)
    ensures
        r@ == "fin "@ + fin_label(fin.pod@, fin.fin@) + " lock was acquired by another process (race)"@,
{
    let mut e = String::from_str("fin ");
    append(&mut e, fin.label().as_str());
    append(&mut e, " lock was acquired by another process (race)");
    e
}

/// The error when the lock read back after a claim is not ours.
pub fn claim_verify_error(fin: &FinRef) -> (r: String)
    ensures
        r@ == "lock verification failed for "@ + fin_label(fin.pod@, fin.fin@)
            + " after claim (race or corruption)"@,
{
    let mut e = String::from_str("lock verification failed for ");
    append(&mut e, fin.label().as_str());
    append(&mut e, " after claim (race or corruption)");
    e
}

/// The fields of a freshly claimed lock.
pub open spec fn claim_fields_spec(
    pid: u32,
    owner: Seq<char>,
    pod: Seq<char>,
    fin: Seq<char>,
    command: Seq<char>,
    token: Seq<char>,
) -> Seq<(Seq<char>, Seq<char>)> {
    seq![
        ("state"@, "claimed"@),
        ("pid"@, decimal(pid as nat)),
        ("owner"@, owner),
        ("pod"@, pod),
        ("fin"@, fin),
        ("command"@, os_debug_text(command)),
        ("token"@, token),
    ]
}

fn field(k: &str, v: String) -> (r: (String, String))
    ensures
        r.0@ == k@,
        r.1@ == v@,
{
    (String::from_str(k), v)
}

/// The fields written when a lock is claimed for `owner` (the kind of run)
/// by process `pid`.
pub fn claim_fields(pid: u32, owner: &str, fin: &FinRef, command: &str, token: &str) -> (r: Vec<
    (String, String),
>)
    ensures
        fields_view(r@) == claim_fields_spec(pid, owner@, fin.pod@, fin.fin@, command@, token@),
{
    let mut r: Vec<(String, String)> = Vec::new();
    r.push(field("state", String::from_str("claimed")));
    r.push(field("pid", u64_to_decimal(pid as u64)));
    r.push(field("owner", String::from_str(owner)));
    r.push(field("pod", fin.pod.clone()));
    r.push(field("fin", fin.fin.clone()));
    r.push(field("command", os_debug_quoted(command)));
    r.push(field("token", String::from_str(token)));
    assert(fields_view(r@) =~= claim_fields_spec(pid, owner@, fin.pod@, fin.fin@, command@, token@));
    r
}

/// The fields written once the fin process runs as `child_pid`.
pub open spec fn running_fields_spec(
    child_pid: u32,
    claimed_pid: u32,
    run_id: Seq<char>,
    command: Seq<char>,
    token: Seq<char>,
) -> Seq<(Seq<char>, Seq<char>)> {
    seq![
        ("state"@, "running"@),
        ("pid"@, decimal(child_pid as nat)),
        ("claimed_pid"@, decimal(claimed_pid as nat)),
        ("run_id"@, run_id),
        ("command"@, os_debug_text(command)),
        ("token"@, token),
    ]
}

/// The fields that hand a claimed lock to the started fin process.
pub fn running_fields(
    child_pid: u32,
    claimed_pid: u32,
    run_id: &str,
    command: &str,
    token: &str,
) -> (r: Vec<(String, String)>)
    ensures
        fields_view(r@) == running_fields_spec(child_pid, claimed_pid, run_id@, command@, token@),
{
    let mut r: Vec<(String, String)> = Vec::new();
    r.push(field("state", String::from_str("running")));
    r.push(field("pid", u64_to_decimal(child_pid as u64)));
    r.push(field("claimed_pid", u64_to_decimal(claimed_pid as u64)));
    r.push(field("run_id", String::from_str(run_id)));
    r.push(field("command", os_debug_quoted(command)));
    r.push(field("token", String::from_str(token)));
    assert(fields_view(r@) =~= running_fields_spec(child_pid, claimed_pid, run_id@, command@, token@));
    r
}

/// No line break in a text.
pub open spec fn one_line(s: Seq<char>) -> bool {
    !s.contains('\n') && !s.contains('\r')
}

/// A claimed lock, once written, reads back with the claimer's token and pid,
/// so the claimer recognises the lock as its own.
pub proof fn law_claimed_lock_is_ours(
    pid: u32,
    owner: Seq<char>,
    pod: Seq<char>,
    fin: Seq<char>,
    command: Seq<char>,
    token: Seq<char>,
)
    requires
        one_line(owner),
        one_line(pod),
        one_line(fin),
        one_line(os_debug_text(command)),
        one_line(token),
    ensures
        lock_field_spec(lock_text(claim_fields_spec(pid, owner, pod, fin, command, token)), "token"@)
            == Some(token),
        lock_pid_spec(lock_text(claim_fields_spec(pid, owner, pod, fin, command, token))) == Some(
            pid,
        ),
{
    let fs = claim_fields_spec(pid, owner, pod, fin, command, token);
    reveal_strlit("state");
    reveal_strlit("claimed");
    reveal_strlit("pid");
    reveal_strlit("owner");
    reveal_strlit("pod");
    reveal_strlit("fin");
    reveal_strlit("command");
    reveal_strlit("token");
    lemma_decimal_digits(pid as nat);
    assert(!decimal(pid as nat).contains('\n') && !decimal(pid as nat).contains('\r')) by {
        if decimal(pid as nat).contains('\n') || decimal(pid as nat).contains('\r') {
            let k = choose|k: int| 0 <= k < decimal(pid as nat).len() && (decimal(pid as nat)[k] == '\n' || decimal(pid as nat)[k] == '\r');
            assert(crate::text::is_digit(decimal(pid as nat)[k]));
        }
    }
    assert(lock_fields_ok(fs)) by {
        assert forall|i: int| 0 <= i < fs.len() implies {
            &&& !fs[i].0.contains('=')
            &&& !fs[i].0.contains('\n')
            &&& !fs[i].0.contains('\r')
            &&& !fs[i].1.contains('\n')
            &&& !fs[i].1.contains('\r')
        } by {
            if fs[i].0.contains('=') || fs[i].0.contains('\n') || fs[i].0.contains('\r') {
                let k = choose|k: int| 0 <= k < fs[i].0.len() && (fs[i].0[k] == '=' || fs[i].0[k] == '\n' || fs[i].0[k] == '\r');
            }
        }
    }
    assert(!"token"@.contains('=')) by {
        if "token"@.contains('=') {
            let k = choose|k: int| 0 <= k < "token"@.len() && "token"@[k] == '=';
        }
    }
    law_lock_field_reads_back(fs, "token"@);
    assert("state"@ != "token"@ && "pid"@ != "token"@ && "owner"@ != "token"@ && "pod"@ != "token"@
        && "fin"@ != "token"@ && "command"@ != "token"@) by {
        assert("state"@[0] != "token"@[0]);
        assert("owner"@[0] != "token"@[0]);
        assert("command"@[0] != "token"@[0]);
    }
    assert("state"@ != "pid"@);
    assert(field_index_from(fs, "token"@, 6) == 6);
    assert(field_index_from(fs, "token"@, 5) == 6);
    assert(field_index_from(fs, "token"@, 4) == 6);
    assert(field_index_from(fs, "token"@, 3) == 6);
    assert(field_index_from(fs, "token"@, 2) == 6);
    assert(field_index_from(fs, "token"@, 1) == 6);
    assert(field_index(fs, "token"@) == 6);
    assert(field_index_from(fs, "pid"@, 1) == 1);
    assert(field_index(fs, "pid"@) == 1);
    law_lock_pid_reads_back(fs, pid);
}

/// The arguments that start a supervised run of a fin's backend command.
pub open spec fn supervisor_args_spec(backend: Seq<char>, command: Seq<char>, args: Seq<Seq<char>>) -> Seq<Seq<char>> {
    seq!["--backend"@, backend, "--backend-command"@, command] + (if args.len() > 0 {
        seq!["--"@] + args
    } else {
        Seq::empty()
    })
}

/// The text of each string.
pub open spec fn strings_view(v: Seq<String>) -> Seq<Seq<char>> {
    v.map_values(|s: String| s@)
}

/// Arguments for `orqa fin supervise`: the backend, its command, and the
/// backend arguments after `--` when there are any.
pub fn supervisor_args(backend: &str, command: &str, args: &Vec<String>) -> (r: Vec<String>)
    ensures
        strings_view(r@) == supervisor_args_spec(backend@, command@, strings_view(args@)),
{
    let mut r: Vec<String> = Vec::new();
    r.push(String::from_str("--backend"));
    r.push(String::from_str(backend));
    r.push(String::from_str("--backend-command"));
    r.push(String::from_str(command));
    let ghost head = strings_view(r@);
    if args.len() > 0 {
        r.push(String::from_str("--"));
        let mut i: usize = 0;
        while i < args.len()
            invariant
                i <= args@.len(),
                strings_view(r@) == head + seq!["--"@] + strings_view(args@).subrange(0, i as int),
            decreases args@.len() - i,
        {
            let ghost before = r@;
            let a = args[i].clone();
            assert(a@ == args@[i as int]@);
            r.push(a);
            proof {
                assert(strings_view(r@) =~= strings_view(before).push(args@[i as int]@));
                assert(strings_view(r@) =~= head + seq!["--"@] + strings_view(args@).subrange(
                    0,
                    i + 1,
                ));
            }
            i = i + 1;
        }
        proof {
            assert(strings_view(args@).subrange(0, args@.len() as int) =~= strings_view(args@));
            assert(strings_view(r@) =~= supervisor_args_spec(backend@, command@, strings_view(args@)));
        }
    } else {
        proof {
            assert(strings_view(r@) =~= supervisor_args_spec(backend@, command@, strings_view(args@)));
        }
    }
    r
}

/// The decimal text of a signed integer.
pub open spec fn signed_text(n: int) -> Seq<char> {
    if n < 0 {
        "-"@ + decimal((-n) as nat)
    } else {
        decimal(n as nat)
    }
}

/// `n.to_string()` for an `i32`.
pub fn i32_to_decimal(n: i32) -> (r: String)
    ensures
        r@ == signed_text(n as int),
{
    if n < 0 {
        let m: u64 = (0i64 - n as i64) as u64;
        let mut r = String::from_str("-");
        append(&mut r, u64_to_decimal(m).as_str());
        r
    } else {
        u64_to_decimal(n as u64)
    }
}

/// The error for a command that failed: its exit code, or `signal` when it
/// was ended by a signal.
pub fn exit_error(command: &str, code: Option<i32>) -> (r: String)
    ensures
        r@ == os_debug_text(command@) + " exited with "@ + (match code {
            Some(c) => signed_text(c as int),
            None => "signal"@,
        }),
{
    let mut r = os_debug_quoted(command);
    append(&mut r, " exited with ");
    match code {
        Some(c) => append(&mut r, i32_to_decimal(c).as_str()),
        None => append(&mut r, "signal"),
    }
    r
}

/// `true` or `false`.
pub open spec fn bool_text(b: bool) -> Seq<char> {
    if b {
        "true"@
    } else {
        "false"@
    }
}

fn bool_str(b: bool) -> (r: &'static str)
    ensures
        r@ == bool_text(b),
{
    if b {
        "true"
    } else {
        "false"
    }
}

/// The kebab-case name of a decision.
pub open spec fn decision_text(d: WakeDecision) -> Seq<char> {
    match d {
        WakeDecision::WouldWake => "would-wake"@,
        WakeDecision::WouldSkip => "would-skip"@,
    }
}

/// One line of a dry-run plan.
pub open spec fn plan_line_spec(pod: Seq<char>, p: FinWakePlan) -> Seq<char> {
    "pod="@ + pod + " fin="@ + p.fin@ + " decision="@ + decision_text(p.decision) + " reason="@
        + reason_text(p.reason) + " unread_mail="@ + decimal(p.unread_mail as nat)
        + " open_tasks="@ + decimal(p.open_tasks as nat) + " sleeping="@ + bool_text(
        p.fin_sleeping,
    ) + " running="@ + bool_text(p.running) + (match p.detail {
        Some(d) => " detail="@ + d@,
        None => Seq::empty(),
    })
}

/// Writes one line of a dry-run plan.
pub fn plan_line(pod: &str, p: &FinWakePlan) -> (r: String)
    ensures
        r@ == plan_line_spec(pod@, *p),
{
    let mut r = String::from_str("pod=");
    append(&mut r, pod);
    append(&mut r, " fin=");
    append(&mut r, p.fin.as_str());
    append(&mut r, " decision=");
    append(&mut r, p.decision.as_str());
    append(&mut r, " reason=");
    append(&mut r, p.reason.as_str());
    append(&mut r, " unread_mail=");
    append(&mut r, u64_to_decimal(p.unread_mail as u64).as_str());
    append(&mut r, " open_tasks=");
    append(&mut r, u64_to_decimal(p.open_tasks as u64).as_str());
    append(&mut r, " sleeping=");
    append(&mut r, bool_str(p.fin_sleeping));
    append(&mut r, " running=");
    append(&mut r, bool_str(p.running));
    match &p.detail {
        Some(d) => {
            append(&mut r, " detail=");
            append(&mut r, d.as_str());
        },
        None => {},
    }
    r
}

/// The lines of a dry-run plan: a sleeping pod first says so, then one line
/// per fin.
pub fn plan_report(plan: &WakePlan) -> (r: Vec<String>)
    ensures
        strings_view(r@) == (if plan.pod_sleeping {
            seq!["pod "@ + plan.pod@ + " sleeping=true"@]
        } else {
            Seq::empty()
        }) + plan.fins@.map_values(|p: FinWakePlan| plan_line_spec(plan.pod@, p)),
{
    let mut r: Vec<String> = Vec::new();
    if plan.pod_sleeping {
        let mut l = String::from_str("pod ");
        append(&mut l, plan.pod.as_str());
        append(&mut l, " sleeping=true");
        r.push(l);
    }
    let ghost head = strings_view(r@);
    let mut i: usize = 0;
    while i < plan.fins.len()
        invariant
            i <= plan.fins@.len(),
            strings_view(r@) == head + plan.fins@.subrange(0, i as int).map_values(
                |p: FinWakePlan| plan_line_spec(plan.pod@, p),
            ),
        decreases plan.fins@.len() - i,
    {
        let l = plan_line(plan.pod.as_str(), &plan.fins[i]);
        let ghost before = r@;
        r.push(l);
        proof {
            assert(strings_view(r@) =~= strings_view(before).push(plan_line_spec(plan.pod@, plan.fins@[i as int])));
            assert(plan.fins@.subrange(0, i + 1).map_values(
                |p: FinWakePlan| plan_line_spec(plan.pod@, p),
            ) =~= plan.fins@.subrange(0, i as int).map_values(
                |p: FinWakePlan| plan_line_spec(plan.pod@, p),
            ).push(plan_line_spec(plan.pod@, plan.fins@[i as int])));
            assert(strings_view(r@) =~= head + plan.fins@.subrange(0, i + 1).map_values(
                |p: FinWakePlan| plan_line_spec(plan.pod@, p),
            ));
        }
        i = i + 1;
    }
    proof {
        assert(plan.fins@.subrange(0, i as int) =~= plan.fins@);
    }
    r
}

/// The line a wake prints for a fin it does not start, unless the fin simply
/// had nothing to do.
pub fn skip_line(p: &FinWakePlan) -> (r: Option<String>)
    ensures
        match r {
            Some(l) => p.decision != WakeDecision::WouldWake && p.reason != WakeReason::NoAction
                && l@ == "skip "@ + p.fin@ + " reason="@ + reason_text(p.reason) + " unread_mail="@
                + decimal(p.unread_mail as nat) + " open_tasks="@ + decimal(p.open_tasks as nat),
            None => p.decision == WakeDecision::WouldWake || p.reason == WakeReason::NoAction,
        },
{
    if p.decision == WakeDecision::WouldWake || p.reason == WakeReason::NoAction {
        return None;
    }
    let mut l = String::from_str("skip ");
    append(&mut l, p.fin.as_str());
    append(&mut l, " reason=");
    append(&mut l, p.reason.as_str());
    append(&mut l, " unread_mail=");
    append(&mut l, u64_to_decimal(p.unread_mail as u64).as_str());
    append(&mut l, " open_tasks=");
    append(&mut l, u64_to_decimal(p.open_tasks as u64).as_str());
    Some(l)
}

/// The line a wake prints for a fin it starts.
pub fn wake_line(fin: &FinRef, pid: u32, p: &FinWakePlan) -> (r: String)
    ensures
        r@ == "wake "@ + fin_label(fin.pod@, fin.fin@) + " pid="@ + decimal(pid as nat)
            + " unread_mail="@ + decimal(p.unread_mail as nat) + " open_tasks="@ + decimal(
            p.open_tasks as nat,
        ),
{
    let mut l = String::from_str("wake ");
    append(&mut l, fin.label().as_str());
    append(&mut l, " pid=");
    append(&mut l, u64_to_decimal(pid as u64).as_str());
    append(&mut l, " unread_mail=");
    append(&mut l, u64_to_decimal(p.unread_mail as u64).as_str());
    append(&mut l, " open_tasks=");
    append(&mut l, u64_to_decimal(p.open_tasks as u64).as_str());
    l
}

/// A sleeping pod or fin is never woken unless the wake is forced.
pub proof fn law_sleep_blocks_wake(
    pod_sleeping: bool,
    fin_sleeping: bool,
    running: bool,
    force: bool,
    policy: RunPolicy,
    unread_mail: nat,
    open_tasks: nat,
    last_run_age: Option<u64>,
)
    requires
        pod_sleeping || fin_sleeping,
        !force,
    ensures
        wake_spec(
            pod_sleeping,
            fin_sleeping,
            running,
            force,
            policy,
            unread_mail,
            open_tasks,
            last_run_age,
        ).0 == WakeDecision::WouldSkip,
{
}

/// A fin whose lock holder is alive is never woken, forced or not.
pub proof fn law_running_fin_not_woken(
    pod_sleeping: bool,
    fin_sleeping: bool,
    force: bool,
    policy: RunPolicy,
    unread_mail: nat,
    open_tasks: nat,
    last_run_age: Option<u64>,
)
    ensures
        wake_spec(
            pod_sleeping,
            fin_sleeping,
            true,
            force,
            policy,
            unread_mail,
            open_tasks,
            last_run_age,
        ).0 == WakeDecision::WouldSkip,
{
}

/// Waiting mail or tasks wake a fin that is awake (or forced) and not
/// running, unless a debounce holds it back; forcing lifts the debounce.
pub proof fn law_work_wakes(
    pod_sleeping: bool,
    fin_sleeping: bool,
    force: bool,
    policy: RunPolicy,
    unread_mail: nat,
    open_tasks: nat,
    last_run_age: Option<u64>,
)
    requires
        force || (!pod_sleeping && !fin_sleeping),
        unread_mail > 0 || open_tasks > 0,
        force || policy.debounce is None || last_run_age is None || last_run_age.unwrap()
            >= policy.debounce.unwrap(),
    ensures
        ({
            let d = wake_spec(
                pod_sleeping,
                fin_sleeping,
                false,
                force,
                policy,
                unread_mail,
                open_tasks,
                last_run_age,
            );
            &&& d.0 == WakeDecision::WouldWake
            &&& d.1 == (if unread_mail > 0 && open_tasks > 0 {
                WakeReason::MailAndTask
            } else if unread_mail > 0 {
                WakeReason::Mail
            } else {
                WakeReason::Task
            })
        }),
{
}

/// A debounce holds back an awake, idle fin with waiting work, whether the
/// work is mail, tasks or both, while its last run is younger than the
/// debounce; the detail gives the run's age and the debounce.
pub proof fn law_debounce_holds_back_work(
    policy: RunPolicy,
    unread_mail: nat,
    open_tasks: nat,
    age: u64,
    debounce: u64,
)
    requires
        unread_mail > 0 || open_tasks > 0,
        policy.debounce == Some(debounce),
        age < debounce,
    ensures
        wake_spec(false, false, false, false, policy, unread_mail, open_tasks, Some(age)) == (
            WakeDecision::WouldSkip,
            WakeReason::Debounced,
            Some("age="@ + duration_text(age as nat) + " debounce="@ + duration_text(debounce as nat)),
        ),
{
}

/// An idle fin that may run is woken once `exec_always` has passed since its
/// last run, or when it never ran; before that it is left alone.
pub proof fn law_idle_wake_after_exec_always(
    policy: RunPolicy,
    last_run_age: Option<u64>,
)
    requires
        policy.exec_always is Some,
    ensures
        ({
            let d = wake_spec(false, false, false, false, policy, 0, 0, last_run_age);
            &&& (last_run_age is None || last_run_age.unwrap() >= policy.exec_always.unwrap()) ==> d.0
                == WakeDecision::WouldWake && d.1 == WakeReason::ExecAlways
            &&& (last_run_age is Some && last_run_age.unwrap() < policy.exec_always.unwrap()) ==> d.0
                == WakeDecision::WouldSkip && d.1 == WakeReason::NoAction
        }),
{
}

/// A fin is woken exactly for mail, tasks, both, or an idle `exec_always`
/// run; every other reason skips it.
pub proof fn law_wake_reasons(
    pod_sleeping: bool,
    fin_sleeping: bool,
    running: bool,
    force: bool,
    policy: RunPolicy,
    unread_mail: nat,
    open_tasks: nat,
    last_run_age: Option<u64>,
)
    ensures
        ({
            let d = wake_spec(
                pod_sleeping,
                fin_sleeping,
                running,
                force,
                policy,
                unread_mail,
                open_tasks,
                last_run_age,
            );
            d.0 == WakeDecision::WouldWake <==> (d.1 == WakeReason::Mail || d.1 == WakeReason::Task
                || d.1 == WakeReason::MailAndTask || d.1 == WakeReason::ExecAlways)
        }),
{
}

} // verus!
