//! Status of fins and pods: what each fin holds and is doing, and the
//! totals of a pod.

use vstd::prelude::*;
use vstd::string::*;
use crate::model::{fin_label, FinRef, PodRef};
use crate::runs::RunRecord;
use crate::runtime::{bool_text, signed_text, strings_view};
use crate::text::{append, decimal, u64_to_decimal};

verus! {

/// The status of one fin.
pub struct FinStatus {
    pub fin: String,
    pub home: String,
    pub sleeping: bool,
    pub running: bool,
    pub pid: Option<u32>,
    pub unread_mail: usize,
    pub open_tasks: usize,
    pub last_run: Option<RunRecord>,
}

/// The status of a fin from what was read about it: the pid in its lock
/// file and whether that process is alive decide whether it runs.
pub fn fin_status(
    fin: &FinRef,
    home: &str,
    sleeping: bool,
    lock_pid: Option<u32>,
    pid_alive: bool,
    unread_mail: usize,
    open_tasks: usize,
    last_run: Option<RunRecord>,
) -> (r: FinStatus)
    ensures
        r.fin@ == fin_label(fin.pod@, fin.fin@),
        r.home@ == home@,
        r.sleeping == sleeping,
        r.running == (lock_pid is Some && pid_alive),
        r.pid == lock_pid,
        r.unread_mail == unread_mail,
        r.open_tasks == open_tasks,
        r.last_run == last_run,
{
    FinStatus {
        fin: fin.label(),
        home: String::from_str(home),
        sleeping,
        running: lock_pid.is_some() && pid_alive,
        pid: lock_pid,
        unread_mail,
        open_tasks,
        last_run,
    }
}

/// Whether a fin would be woken by a plain wake: awake, not running, with
/// mail or tasks waiting.
pub open spec fn wakeable(f: FinStatus) -> bool {
    !f.sleeping && !f.running && (f.unread_mail > 0 || f.open_tasks > 0)
}

/// How many fins satisfy a count.
pub open spec fn count_wakeable(fs: Seq<FinStatus>) -> nat
    decreases fs.len(),
{
    if fs.len() == 0 {
        0
    } else {
        count_wakeable(fs.drop_last()) + if wakeable(fs.last()) {
            1nat
        } else {
            0nat
        }
    }
}

/// How many fins run.
pub open spec fn count_running(fs: Seq<FinStatus>) -> nat
    decreases fs.len(),
{
    if fs.len() == 0 {
        0
    } else {
        count_running(fs.drop_last()) + if fs.last().running {
            1nat
        } else {
            0nat
        }
    }
}

/// The unread mail of all fins.
pub open spec fn total_mail(fs: Seq<FinStatus>) -> nat
    decreases fs.len(),
{
    if fs.len() == 0 {
        0
    } else {
        total_mail(fs.drop_last()) + fs.last().unread_mail as nat
    }
}

/// The open tasks of all fins.
pub open spec fn total_tasks(fs: Seq<FinStatus>) -> nat
    decreases fs.len(),
{
    if fs.len() == 0 {
        0
    } else {
        total_tasks(fs.drop_last()) + fs.last().open_tasks as nat
    }
}

/// The status of a pod: its fins and their totals.
pub struct PodStatus {
    pub pod: String,
    pub home: String,
    pub sleeping: bool,
    pub fins: Vec<FinStatus>,
    pub fin_count: usize,
    pub wakeable: usize,
    pub running: usize,
    pub unread_mail: usize,
    pub open_tasks: usize,
}

proof fn lemma_totals_prefix(fs: Seq<FinStatus>, i: int)
    requires
        0 <= i <= fs.len(),
    ensures
        total_mail(fs.subrange(0, i)) <= total_mail(fs),
        total_tasks(fs.subrange(0, i)) <= total_tasks(fs),
    decreases fs.len() - i,
{
    if i < fs.len() {
        lemma_totals_prefix(fs, i + 1);
        assert(fs.subrange(0, i + 1).drop_last() =~= fs.subrange(0, i));
    } else {
        assert(fs.subrange(0, i) =~= fs);
    }
}

/// The status of a pod from the statuses of its fins. The totals must fit
/// in a `usize`.
pub fn pod_status(pod: &PodRef, home: &str, sleeping: bool, fins: Vec<FinStatus>) -> (r: PodStatus)
    requires
        total_mail(fins@) <= usize::MAX,
        total_tasks(fins@) <= usize::MAX,
    ensures
        r.pod@ == pod.slug@,
        r.home@ == home@,
        r.sleeping == sleeping,
        r.fins@ == fins@,
        r.fin_count == fins@.len(),
        r.wakeable == count_wakeable(fins@),
        r.running == count_running(fins@),
        r.unread_mail == total_mail(fins@),
        r.open_tasks == total_tasks(fins@),
{
    let mut wake: usize = 0;
    let mut run: usize = 0;
    let mut mail: usize = 0;
    let mut tasks: usize = 0;
    let mut i: usize = 0;
    while i < fins.len()
        invariant
            i <= fins@.len(),
            total_mail(fins@) <= usize::MAX,
            total_tasks(fins@) <= usize::MAX,
            wake == count_wakeable(fins@.subrange(0, i as int)),
            run == count_running(fins@.subrange(0, i as int)),
            mail == total_mail(fins@.subrange(0, i as int)),
            tasks == total_tasks(fins@.subrange(0, i as int)),
            wake <= i,
            run <= i,
        decreases fins@.len() - i,
    {
        proof {
            assert(fins@.subrange(0, i + 1).drop_last() =~= fins@.subrange(0, i as int));
            lemma_totals_prefix(fins@, i + 1);
        }
        let f = &fins[i];
        if !f.sleeping && !f.running && (f.unread_mail > 0 || f.open_tasks > 0) {
            wake = wake + 1;
        }
        if f.running {
            run = run + 1;
        }
        mail = mail + f.unread_mail;
        tasks = tasks + f.open_tasks;
        i = i + 1;
    }
    proof {
        assert(fins@.subrange(0, i as int) =~= fins@);
    }
    let n = fins.len();
    PodStatus {
        pod: pod.slug.clone(),
        home: String::from_str(home),
        sleeping,
        fins,
        fin_count: n,
        wakeable: wake,
        running: run,
        unread_mail: mail,
        open_tasks: tasks,
    }
}

/// The line `pod list` and the overview print for a pod.
pub open spec fn pod_list_line_spec(s: PodStatus) -> Seq<char> {
    s.pod@ + " fins="@ + decimal(s.fin_count as nat) + " sleeping="@ + bool_text(s.sleeping)
        + " wakeable="@ + decimal(s.wakeable as nat) + " running="@ + decimal(s.running as nat)
        + " unread_mail="@ + decimal(s.unread_mail as nat) + " open_tasks="@ + decimal(
        s.open_tasks as nat,
    )
}

fn bool_str(b: bool) -> (r: &'static str)
    ensures
        r@ == bool_text(b),
{
    if b {
        "true"
    } else {
        "false"
    }
}

fn num(n: usize) -> (r: String)
    ensures
        r@ == decimal(n as nat),
{
    u64_to_decimal(n as u64)
}

/// Writes the listing line of a pod.
pub fn pod_list_line(s: &PodStatus) -> (r: String)
    ensures
        r@ == pod_list_line_spec(*s),
{
    let mut r = s.pod.clone();
    append(&mut r, " fins=");
    append(&mut r, num(s.fin_count).as_str());
    append(&mut r, " sleeping=");
    append(&mut r, bool_str(s.sleeping));
    append(&mut r, " wakeable=");
    append(&mut r, num(s.wakeable).as_str());
    append(&mut r, " running=");
    append(&mut r, num(s.running).as_str());
    append(&mut r, " unread_mail=");
    append(&mut r, num(s.unread_mail).as_str());
    append(&mut r, " open_tasks=");
    append(&mut r, num(s.open_tasks).as_str());
    r
}

/// The line of one fin in a pod's status.
pub open spec fn pod_fin_line_spec(f: FinStatus) -> Seq<char> {
    "fin "@ + f.fin@ + " sleeping="@ + bool_text(f.sleeping) + " running="@ + bool_text(f.running)
        + " unread_mail="@ + decimal(f.unread_mail as nat) + " open_tasks="@ + decimal(
        f.open_tasks as nat,
    )
}

/// The lines of `pod status`.
pub open spec fn pod_status_lines_spec(s: PodStatus) -> Seq<Seq<char>> {
    seq![
        "pod "@ + s.pod@,
        "home="@ + s.home@,
        "sleeping="@ + bool_text(s.sleeping),
        "fins="@ + decimal(s.fin_count as nat),
        "wakeable="@ + decimal(s.wakeable as nat),
        "running="@ + decimal(s.running as nat),
        "unread_mail="@ + decimal(s.unread_mail as nat),
        "open_tasks="@ + decimal(s.open_tasks as nat),
    ] + s.fins@.map_values(|f: FinStatus| pod_fin_line_spec(f))
}

fn line2(a: &str, b: &str) -> (r: String)
    ensures
        r@ == a@ + b@,
{
    let mut r = String::from_str(a);
    append(&mut r, b);
    r
}

/// Writes the lines of `pod status`.
pub fn pod_status_lines(s: &PodStatus) -> (r: Vec<String>)
    ensures
        strings_view(r@) == pod_status_lines_spec(*s),
{
    let mut r: Vec<String> = Vec::new();
    r.push(line2("pod ", s.pod.as_str()));
    r.push(line2("home=", s.home.as_str()));
    r.push(line2("sleeping=", bool_str(s.sleeping)));
    r.push(line2("fins=", num(s.fin_count).as_str()));
    r.push(line2("wakeable=", num(s.wakeable).as_str()));
    r.push(line2("running=", num(s.running).as_str()));
    r.push(line2("unread_mail=", num(s.unread_mail).as_str()));
    r.push(line2("open_tasks=", num(s.open_tasks).as_str()));
    let ghost head = strings_view(r@);
    let mut i: usize = 0;
    while i < s.fins.len()
        invariant
            i <= s.fins@.len(),
            strings_view(r@) == head + s.fins@.subrange(0, i as int).map_values(
                |f: FinStatus| pod_fin_line_spec(f),
            ),
        decreases s.fins@.len() - i,
    {
        let f = &s.fins[i];
        let mut l = String::from_str("fin ");
        append(&mut l, f.fin.as_str());
        append(&mut l, " sleeping=");
        append(&mut l, bool_str(f.sleeping));
        append(&mut l, " running=");
        append(&mut l, bool_str(f.running));
        append(&mut l, " unread_mail=");
        append(&mut l, num(f.unread_mail).as_str());
        append(&mut l, " open_tasks=");
        append(&mut l, num(f.open_tasks).as_str());
        let ghost before = strings_view(r@);
        r.push(l);
        proof {
            assert(strings_view(r@) =~= before.push(pod_fin_line_spec(s.fins@[i as int])));
            assert(s.fins@.subrange(0, i + 1).map_values(|f: FinStatus| pod_fin_line_spec(f))
                =~= s.fins@.subrange(0, i as int).map_values(|f: FinStatus| pod_fin_line_spec(f)).push(
                pod_fin_line_spec(s.fins@[i as int]),
            ));
        }
        i = i + 1;
    }
    proof {
        assert(s.fins@.subrange(0, i as int) =~= s.fins@);
        assert(strings_view(r@) =~= pod_status_lines_spec(*s));
    }
    r
}

/// The lines of `fin status`.
pub open spec fn fin_status_lines_spec(f: FinStatus) -> Seq<Seq<char>> {
    seq!["fin "@ + f.fin@, "home="@ + f.home@, "sleeping="@ + bool_text(f.sleeping), "running="@
        + bool_text(f.running)] + (match f.pid {
        Some(p) => seq!["pid="@ + decimal(p as nat)],
        None => Seq::empty(),
    }) + seq!["unread_mail="@ + decimal(f.unread_mail as nat), "open_tasks="@ + decimal(
        f.open_tasks as nat,
    )] + (match f.last_run {
        Some(run) => seq!["last_run="@ + run.id@, "last_status="@ + run.status@] + (match run.exit_code {
            Some(c) => seq!["last_exit="@ + signed_text(c as int)],
            None => Seq::empty(),
        }),
        None => Seq::empty(),
    })
}

/// Writes the lines of `fin status`.
pub fn fin_status_lines(f: &FinStatus) -> (r: Vec<String>)
    ensures
        strings_view(r@) == fin_status_lines_spec(*f),
{
    let mut r: Vec<String> = Vec::new();
    r.push(line2("fin ", f.fin.as_str()));
    r.push(line2("home=", f.home.as_str()));
    r.push(line2("sleeping=", bool_str(f.sleeping)));
    r.push(line2("running=", bool_str(f.running)));
    let ghost a = strings_view(r@);
    match f.pid {
        Some(p) => r.push(line2("pid=", u64_to_decimal(p as u64).as_str())),
        None => {},
    }
    let ghost b = strings_view(r@);
    assert(b =~= a + (match f.pid {
        Some(p) => seq!["pid="@ + decimal(p as nat)],
        None => Seq::<Seq<char>>::empty(),
    }));
    r.push(line2("unread_mail=", num(f.unread_mail).as_str()));
    r.push(line2("open_tasks=", num(f.open_tasks).as_str()));
    let ghost c = strings_view(r@);
    match &f.last_run {
        Some(run) => {
            r.push(line2("last_run=", run.id.as_str()));
            r.push(line2("last_status=", run.status.as_str()));
            match run.exit_code {
                Some(code) => r.push(line2("last_exit=", crate::runtime::i32_to_decimal(code).as_str())),
                None => {},
            }
        },
        None => {},
    }
    assert(strings_view(r@) =~= fin_status_lines_spec(*f));
    r
}

/// The totals line of the overview; none without pods, and none when a
/// total does not fit in a `usize`, where summing it overflows.
pub fn overview_totals(pods: &Vec<PodStatus>) -> (r: Option<String>)
    ensures
        pods@.len() == 0 ==> r is None,
        pods@.len() > 0 && !(total_of(pods@, 0) <= usize::MAX && total_of(pods@, 1) <= usize::MAX
            && total_of(pods@, 2) <= usize::MAX && total_of(pods@, 3) <= usize::MAX) ==> r is None,
        pods@.len() > 0 && total_of(pods@, 0) <= usize::MAX && total_of(pods@, 1) <= usize::MAX
            && total_of(pods@, 2) <= usize::MAX && total_of(pods@, 3) <= usize::MAX ==> (r matches Some(
            l,
        ) && l@ == "totals: "@ + decimal(pods@.len()) + " pods, "@ + decimal(total_of(pods@, 0))
            + " fins, "@ + decimal(total_of(pods@, 1)) + " wakeable, "@ + decimal(total_of(pods@, 2))
            + " unread mail, "@ + decimal(total_of(pods@, 3)) + " open tasks"@),
{
    if pods.len() == 0 {
        return None;
    }
    let mut t0: u64 = 0;
    let mut t1: u64 = 0;
    let mut t2: u64 = 0;
    let mut t3: u64 = 0;
    let mut i: usize = 0;
    let mut fits = true;
    while i < pods.len()
        invariant
            i <= pods@.len(),
            fits ==> (t0 == total_of(pods@.subrange(0, i as int), 0) && t1 == total_of(
                pods@.subrange(0, i as int),
                1,
            ) && t2 == total_of(pods@.subrange(0, i as int), 2) && t3 == total_of(
                pods@.subrange(0, i as int),
                3,
            ) && t0 <= usize::MAX && t1 <= usize::MAX && t2 <= usize::MAX && t3 <= usize::MAX),
            !fits ==> !(total_of(pods@, 0) <= usize::MAX && total_of(pods@, 1) <= usize::MAX
                && total_of(pods@, 2) <= usize::MAX && total_of(pods@, 3) <= usize::MAX),
        decreases pods@.len() - i,
    {
        proof {
            assert(pods@.subrange(0, i + 1).drop_last() =~= pods@.subrange(0, i as int));
            lemma_pod_totals_prefix(pods@, i + 1);
        }
        let p = &pods[i];
        if fits {
            let a = t0.checked_add(p.fin_count as u64);
            let b = t1.checked_add(p.wakeable as u64);
            let c = t2.checked_add(p.unread_mail as u64);
            let d = t3.checked_add(p.open_tasks as u64);
            match (a, b, c, d) {
                (Some(a), Some(b), Some(c), Some(d)) => {
                    if a <= usize::MAX as u64 && b <= usize::MAX as u64 && c <= usize::MAX as u64 && d
                        <= usize::MAX as u64 {
                        t0 = a;
                        t1 = b;
                        t2 = c;
                        t3 = d;
                    } else {
                        fits = false;
                    }
                },
                _ => {
                    fits = false;
                },
            }
        }
        i = i + 1;
    }
    proof {
        assert(pods@.subrange(0, i as int) =~= pods@);
    }
    if !fits {
        return None;
    }
    let mut l = String::from_str("totals: ");
    append(&mut l, num(pods.len()).as_str());
    append(&mut l, " pods, ");
    append(&mut l, u64_to_decimal(t0).as_str());
    append(&mut l, " fins, ");
    append(&mut l, u64_to_decimal(t1).as_str());
    append(&mut l, " wakeable, ");
    append(&mut l, u64_to_decimal(t2).as_str());
    append(&mut l, " unread mail, ");
    append(&mut l, u64_to_decimal(t3).as_str());
    append(&mut l, " open tasks");
    Some(l)
}

/// A pod's fins, wakeable fins, unread mail or open tasks, by index.
pub open spec fn pod_count(p: PodStatus, k: int) -> nat {
    if k == 0 {
        p.fin_count as nat
    } else if k == 1 {
        p.wakeable as nat
    } else if k == 2 {
        p.unread_mail as nat
    } else {
        p.open_tasks as nat
    }
}

/// The sum of one count over pods.
pub open spec fn total_of(ps: Seq<PodStatus>, k: int) -> nat
    decreases ps.len(),
{
    if ps.len() == 0 {
        0
    } else {
        total_of(ps.drop_last(), k) + pod_count(ps.last(), k)
    }
}

proof fn lemma_pod_totals_prefix(ps: Seq<PodStatus>, i: int)
    requires
        0 <= i <= ps.len(),
    ensures
        forall|k: int| total_of(ps.subrange(0, i), k) <= total_of(ps, k),
    decreases ps.len() - i,
{
    if i < ps.len() {
        lemma_pod_totals_prefix(ps, i + 1);
        assert(ps.subrange(0, i + 1).drop_last() =~= ps.subrange(0, i));
    } else {
        assert(ps.subrange(0, i) =~= ps);
    }
}

/// A wakeable fin is never a running one, so a pod's wakeable and running
/// fins together never outnumber its fins.
pub proof fn law_wakeable_and_running_disjoint(fs: Seq<FinStatus>)
    ensures
        count_wakeable(fs) + count_running(fs) <= fs.len(),
    decreases fs.len(),
{
    if fs.len() > 0 {
        law_wakeable_and_running_disjoint(fs.drop_last());
    }
}

} // verus!
