//! Run records of fin processes: ids, statuses, the latest-run pointer and
//! tails of run logs.

use vstd::prelude::*;
use vstd::string::*;
use crate::model::{fin_label, FinRef};
use crate::paths::{join, join_path};
use crate::report::first_segment;
use crate::runtime::{signed_text, strings_view, i32_to_decimal};
use crate::service::{join_with, joined};
use crate::text::{
    append, chars_of, decimal, find_char_in, lemma_find_char_from_bounds, line_at, lines,
    lines_from, opt_string, parse_u64, parse_u64_range, string_of_range, trim, trim_str,
    u128_to_decimal, u64_to_decimal,
};

verus! {

/// What is known of one run of a fin.
pub struct RunRecord {
    pub id: String,
    pub fin: String,
    pub backend: String,
    pub mode: String,
    pub command: String,
    pub args: Vec<String>,
    pub status: String,
    pub exit_code: Option<i32>,
    pub run_dir: String,
    pub stdout_log: String,
    pub stderr_log: String,
    pub events_log: String,
}

/// The line `fin runs` prints for a run: its id, status, exit code (`-`
/// while there is none), mode, backend and command.
pub open spec fn run_list_line_spec(r: RunRecord) -> Seq<char> {
    r.id@ + " status="@ + r.status@ + " exit_code="@ + (match r.exit_code {
        Some(c) => crate::runtime::signed_text(c as int),
        None => "-"@,
    }) + " mode="@ + r.mode@ + " backend="@ + r.backend@ + " command="@ + r.command@
}

/// The line `fin runs` prints for a run.
pub fn run_list_line(r: &RunRecord) -> (s: String)
    ensures
        s@ == run_list_line_spec(*r),
{
    let mut s = r.id.clone();
    crate::text::append(&mut s, " status=");
    crate::text::append(&mut s, r.status.as_str());
    crate::text::append(&mut s, " exit_code=");
    match r.exit_code {
        Some(c) => crate::text::append(&mut s, crate::runtime::i32_to_decimal(c).as_str()),
        None => crate::text::append(&mut s, "-"),
    }
    crate::text::append(&mut s, " mode=");
    crate::text::append(&mut s, r.mode.as_str());
    crate::text::append(&mut s, " backend=");
    crate::text::append(&mut s, r.backend.as_str());
    crate::text::append(&mut s, " command=");
    crate::text::append(&mut s, r.command.as_str());
    s
}

/// The lines `fin run-status` prints for a run: its id, then its fin,
/// status, mode, backend and command, its exit code when it has one, and its
/// directory.
pub open spec fn run_status_lines_spec(r: RunRecord) -> Seq<Seq<char>> {
    seq![
        "run "@ + r.id@,
        "fin="@ + r.fin@,
        "status="@ + r.status@,
        "mode="@ + r.mode@,
        "backend="@ + r.backend@,
        "command="@ + r.command@,
    ] + (match r.exit_code {
        Some(c) => seq!["exit_code="@ + crate::runtime::signed_text(c as int)],
        None => Seq::empty(),
    }) + seq!["run_dir="@ + r.run_dir@]
}

fn prefixed(prefix: &str, value: &str) -> (s: String)
    ensures
        s@ == prefix@ + value@,
{
    let mut s = String::from_str(prefix);
    crate::text::append(&mut s, value);
    s
}

/// The lines `fin run-status` prints for a run.
pub fn run_status_lines(r: &RunRecord) -> (v: Vec<String>)
    ensures
        strings_view(v@) == run_status_lines_spec(*r),
{
    let mut v: Vec<String> = Vec::new();
    v.push(prefixed("run ", r.id.as_str()));
    v.push(prefixed("fin=", r.fin.as_str()));
    v.push(prefixed("status=", r.status.as_str()));
    v.push(prefixed("mode=", r.mode.as_str()));
    v.push(prefixed("backend=", r.backend.as_str()));
    v.push(prefixed("command=", r.command.as_str()));
    if let Some(c) = r.exit_code {
        v.push(prefixed("exit_code=", crate::runtime::i32_to_decimal(c).as_str()));
    }
    v.push(prefixed("run_dir=", r.run_dir.as_str()));
    proof {
        assert(strings_view(v@) =~= run_status_lines_spec(*r));
    }
    v
}

/// A run record as plain values, without its status and exit code.
pub open spec fn record_base(r: RunRecord) -> (
    Seq<char>,
    Seq<char>,
    Seq<char>,
    Seq<char>,
    Seq<char>,
    Seq<Seq<char>>,
    Seq<char>,
    Seq<char>,
    Seq<char>,
    Seq<char>,
) {
    (
        r.id@,
        r.fin@,
        r.backend@,
        r.mode@,
        r.command@,
        strings_view(r.args@),
        r.run_dir@,
        r.stdout_log@,
        r.stderr_log@,
        r.events_log@,
    )
}

fn clone_strings(v: &Vec<String>) -> (r: Vec<String>)
    ensures
        strings_view(r@) == strings_view(v@),
{
    let mut r: Vec<String> = Vec::new();
    let mut i: usize = 0;
    while i < v.len()
        invariant
            i <= v@.len(),
            strings_view(r@) == strings_view(v@).subrange(0, i as int),
        decreases v@.len() - i,
    {
        let ghost before = r@;
        r.push(v[i].clone());
        proof {
            assert(strings_view(r@) =~= strings_view(before).push(v@[i as int]@));
            assert(strings_view(v@).subrange(0, i + 1) =~= strings_view(v@).subrange(0, i as int).push(
                v@[i as int]@,
            ));
        }
        i = i + 1;
    }
    proof {
        assert(strings_view(v@).subrange(0, i as int) =~= strings_view(v@));
    }
    r
}

impl RunRecord {
    /// The record of a new run in `run_dir`: `planned`, with its logs in the
    /// run directory.
    pub fn planned(
        id: &str,
        fin: &FinRef,
        backend: &str,
        mode: &str,
        command: &str,
        args: &Vec<String>,
        run_dir: &str,
    ) -> (r: RunRecord)
        ensures
            record_base(r) == (
                id@,
                fin_label(fin.pod@, fin.fin@),
                backend@,
                mode@,
                command@,
                strings_view(args@),
                run_dir@,
                join(run_dir@, "stdout.log"@),
                join(run_dir@, "stderr.log"@),
                join(run_dir@, "events.jsonl"@),
            ),
            r.status@ == "planned"@,
            r.exit_code is None,
    {
        RunRecord {
            id: String::from_str(id),
            fin: fin.label(),
            backend: String::from_str(backend),
            mode: String::from_str(mode),
            command: String::from_str(command),
            args: clone_strings(args),
            status: String::from_str("planned"),
            exit_code: None,
            run_dir: String::from_str(run_dir),
            stdout_log: join_path(run_dir, "stdout.log"),
            stderr_log: join_path(run_dir, "stderr.log"),
            events_log: join_path(run_dir, "events.jsonl"),
        }
    }

    /// The same record with another status and exit code.
    pub fn with_status(&self, status: &str, exit_code: Option<i32>) -> (r: RunRecord)
        ensures
            record_base(r) == record_base(*self),
            r.status@ == status@,
            r.exit_code == exit_code,
    {
        RunRecord {
            id: self.id.clone(),
            fin: self.fin.clone(),
            backend: self.backend.clone(),
            mode: self.mode.clone(),
            command: self.command.clone(),
            args: clone_strings(&self.args),
            status: String::from_str(status),
            exit_code,
            run_dir: self.run_dir.clone(),
            stdout_log: self.stdout_log.clone(),
            stderr_log: self.stderr_log.clone(),
            events_log: self.events_log.clone(),
        }
    }

    /// The record once the process runs.
    pub fn mark_spawned(&self) -> (r: RunRecord)
        ensures
            record_base(r) == record_base(*self),
            r.status@ == "running"@,
            r.exit_code is None,
    {
        self.with_status("running", None)
    }

    /// The record when the process could not be started.
    pub fn mark_spawn_failed(&self) -> (r: RunRecord)
        ensures
            record_base(r) == record_base(*self),
            r.status@ == "spawn-failed"@,
            r.exit_code is None,
    {
        self.with_status("spawn-failed", None)
    }

    /// The record once the process exited, with its code (none when a signal
    /// ended it).
    pub fn finish_with_exit(&self, exit_code: Option<i32>) -> (r: RunRecord)
        ensures
            record_base(r) == record_base(*self),
            r.status@ == "finished"@,
            r.exit_code == exit_code,
    {
        self.with_status("finished", exit_code)
    }
}

/// The value of the `exit_code` field of a `finished` event.
pub fn exit_code_text(exit_code: Option<i32>) -> (r: String)
    ensures
        r@ == (match exit_code {
            Some(c) => signed_text(c as int),
            None => "signal"@,
        }),
{
    match exit_code {
        Some(c) => i32_to_decimal(c),
        None => String::from_str("signal"),
    }
}

/// The text of a run id: microseconds since the epoch, process id and a
/// per-process counter, joined by dots.
pub open spec fn run_name(micros: nat, pid: nat, counter: nat) -> Seq<char> {
    decimal(micros) + "."@ + decimal(pid) + "."@ + decimal(counter)
}

/// The id of a new run: microseconds since the epoch, process id and a
/// per-process counter.
pub fn run_id(micros: u128, pid: u32, counter: u64) -> (r: String)
    ensures
        r@ == run_name(micros as nat, pid as nat, counter as nat),
{
    let mut r = u128_to_decimal(micros);
    append(&mut r, ".");
    append(&mut r, u64_to_decimal(pid as u64).as_str());
    append(&mut r, ".");
    append(&mut r, u64_to_decimal(counter).as_str());
    r
}

/// The command line of a run as one text: the command and its arguments
/// separated by spaces.
pub fn command_text(command: &str, args: &Vec<String>) -> (r: String)
    ensures
        r@ == joined(seq![command@] + strings_view(args@), " "@),
{
    let mut parts: Vec<String> = Vec::new();
    parts.push(String::from_str(command));
    let rest = clone_strings(args);
    let mut i: usize = 0;
    let ghost head = strings_view(parts@);
    while i < rest.len()
        invariant
            i <= rest@.len(),
            head == seq![command@],
            strings_view(parts@) == head + strings_view(rest@).subrange(0, i as int),
        decreases rest@.len() - i,
    {
        let ghost before = parts@;
        parts.push(rest[i].clone());
        proof {
            assert(strings_view(parts@) =~= strings_view(before).push(rest@[i as int]@));
            assert(strings_view(rest@).subrange(0, i + 1) =~= strings_view(rest@).subrange(
                0,
                i as int,
            ).push(rest@[i as int]@));
        }
        i = i + 1;
    }
    proof {
        assert(strings_view(rest@).subrange(0, i as int) =~= strings_view(rest@));
    }
    join_with(&parts, " ")
}

/// The contents of the latest-run pointer.
pub fn latest_pointer_contents(run: &str) -> (r: String)
    ensures
        r@ == run@ + "\n"@,
{
    let mut r = String::from_str(run);
    append(&mut r, "\n");
    r
}

/// When the run a latest-run pointer names started, in microseconds since
/// the epoch; `None` when the pointer does not start with a number.
pub open spec fn pointer_start_spec(contents: Seq<char>) -> Option<u64> {
    parse_u64(first_segment(trim(contents)))
}

/// Reads the start time of the latest run from the pointer's contents.
pub fn latest_run_started_at(contents: &str) -> (r: Option<u64>)
    ensures
        r == pointer_start_spec(contents@),
{
    let t = trim_str(contents);
    let v = chars_of(t.as_str());
    proof {
        lemma_find_char_from_bounds(v@, '.', 0);
    }
    match find_char_in(&v, '.', 0) {
        Some(i) => parse_u64_range(&v, 0, i),
        None => {
            assert(v@.subrange(0, v@.len() as int) =~= v@);
            parse_u64_range(&v, 0, v.len())
        },
    }
}

/// The age in whole seconds of a run that started at `started` when it is
/// `now` (both in microseconds since the epoch); none when it started later.
pub fn latest_run_age(now: u64, started: Option<u64>) -> (r: Option<u64>)
    ensures
        r == (match started {
            Some(s) => if s <= now {
                Some(((now - s) / 1_000_000) as u64)
            } else {
                None::<u64>
            },
            None => None::<u64>,
        }),
{
    match started {
        Some(s) => if s <= now {
            Some((now - s) / 1_000_000)
        } else {
            None
        },
        None => None,
    }
}

/// What reading the latest-run pointer gave.
pub enum LatestPointer {
    /// The pointer file does not exist.
    Missing,
    /// The pointer file could not be read.
    Unreadable,
    /// The pointer's contents.
    Contents(String),
}

/// The run a command means: the one named, or for `latest` and no name the
/// one the pointer names.
pub open spec fn run_id_spec(
    fin: Seq<char>,
    pointer_path: Seq<char>,
    run: Option<Seq<char>>,
    pointer: LatestPointer,
) -> Result<Seq<char>, Seq<char>> {
    match run {
        Some(r) if r != "latest"@ => Ok(r),
        _ => match pointer {
            LatestPointer::Contents(c) => if trim(c@).len() == 0 {
                Err("fin "@ + fin + " has no valid latest run (pointer is empty). Run the fin at least once."@)
            } else {
                Ok(trim(c@))
            },
            LatestPointer::Missing => Err("fin "@ + fin
                + " has no latest run yet. Run it at least once before using 'latest'."@),
            LatestPointer::Unreadable => Err("fin "@ + fin + " latest-run pointer is corrupt. Inspect or remove "@
                + pointer_path + " and re-run the fin."@),
        },
    }
}

/// Resolves the run a command means.
pub fn resolve_run_id(fin: &FinRef, pointer_path: &str, run: Option<&str>, pointer: &LatestPointer) -> (r:
    Result<String, String>)
    ensures
        crate::model::text_result(r) == run_id_spec(
            fin_label(fin.pod@, fin.fin@),
            pointer_path@,
            crate::model::opt_text(run),
            *pointer,
        ),
{
    if let Some(r) = run {
        if !crate::text::str_eq(r, "latest") {
            return Ok(String::from_str(r));
        }
    }
    match pointer {
        LatestPointer::Contents(c) => {
            let t = trim_str(c.as_str());
            if t.unicode_len() == 0 {
                let mut e = String::from_str("fin ");
                append(&mut e, fin.label().as_str());
                append(&mut e, " has no valid latest run (pointer is empty). Run the fin at least once.");
                Err(e)
            } else {
                Ok(t)
            }
        },
        LatestPointer::Missing => {
            let mut e = String::from_str("fin ");
            append(&mut e, fin.label().as_str());
            append(&mut e, " has no latest run yet. Run it at least once before using 'latest'.");
            Err(e)
        },
        LatestPointer::Unreadable => {
            let mut e = String::from_str("fin ");
            append(&mut e, fin.label().as_str());
            append(&mut e, " latest-run pointer is corrupt. Inspect or remove ");
            append(&mut e, pointer_path);
            append(&mut e, " and re-run the fin.");
            Err(e)
        },
    }
}

/// The last `n` lines of a log, each ending in a newline; nothing when no
/// line is shown.
pub open spec fn last_lines_spec(contents: Seq<char>, n: nat) -> Seq<char> {
    let all = lines(contents);
    let start = if all.len() >= n {
        all.len() - n
    } else {
        0
    };
    let selected = joined(all.subrange(start, all.len() as int), "\n"@);
    if n == 0 || selected.len() == 0 {
        Seq::empty()
    } else {
        selected + "\n"@
    }
}

/// The lines of a text.
pub fn text_lines(contents: &str) -> (r: Vec<String>)
    ensures
        strings_view(r@) == lines(contents@),
{
    let v = chars_of(contents);
    let mut out: Vec<String> = Vec::new();
    let mut i: usize = 0;
    proof {
        assert(strings_view(out@) + lines_from(v@, 0) =~= lines(contents@));
    }
    while i < v.len()
        invariant
            v@ == contents@,
            i <= v@.len(),
            strings_view(out@) + lines_from(v@, i as int) == lines(contents@),
        decreases v@.len() - i,
    {
        let (a, b, next) = line_at(&v, i);
        let l = string_of_range(&v, a, b);
        let ghost before = strings_view(out@);
        out.push(l);
        proof {
            assert(strings_view(out@) =~= before.push(l@));
            assert(strings_view(out@) + lines_from(v@, next as int) =~= before + (seq![l@]
                + lines_from(v@, next as int)));
        }
        i = next;
    }
    proof {
        assert(lines_from(v@, i as int) =~= Seq::<Seq<char>>::empty());
        assert(strings_view(out@) + lines_from(v@, i as int) =~= strings_view(out@));
    }
    out
}

/// The last `n` lines of a log.
pub fn last_lines(contents: &str, n: usize) -> (r: String)
    ensures
        r@ == last_lines_spec(contents@, n as nat),
{
    if n == 0 {
        return String::new();
    }
    let all = text_lines(contents);
    let start = if all.len() >= n {
        all.len() - n
    } else {
        0
    };
    let mut tail: Vec<String> = Vec::new();
    let mut i = start;
    while i < all.len()
        invariant
            start <= i <= all@.len(),
            strings_view(tail@) == strings_view(all@).subrange(start as int, i as int),
        decreases all@.len() - i,
    {
        let ghost before = tail@;
        tail.push(all[i].clone());
        proof {
            assert(strings_view(tail@) =~= strings_view(before).push(all@[i as int]@));
            assert(strings_view(all@).subrange(start as int, i + 1) =~= strings_view(all@).subrange(
                start as int,
                i as int,
            ).push(all@[i as int]@));
        }
        i = i + 1;
    }
    let selected = join_with(&tail, "\n");
    if selected.unicode_len() == 0 {
        selected
    } else {
        let mut r = selected;
        append(&mut r, "\n");
        r
    }
}

/// The lines a tail prints for one log: each line tagged with the target
/// and the log's label.
pub fn tagged_lines(target: &str, label: &str, contents: &str) -> (r: Vec<String>)
    ensures
        strings_view(r@) == lines(contents@).map_values(
            |l: Seq<char>| "["@ + target@ + " "@ + label@ + "] "@ + l,
        ),
{
    let ls = text_lines(contents);
    let ghost src = strings_view(ls@);
    let mut out: Vec<String> = Vec::new();
    let mut i: usize = 0;
    while i < ls.len()
        invariant
            src == strings_view(ls@),
            i <= ls@.len(),
            strings_view(out@) == src.subrange(0, i as int).map_values(
                |l: Seq<char>| "["@ + target@ + " "@ + label@ + "] "@ + l,
            ),
        decreases ls@.len() - i,
    {
        let mut t = String::from_str("[");
        append(&mut t, target);
        append(&mut t, " ");
        append(&mut t, label);
        append(&mut t, "] ");
        append(&mut t, ls[i].as_str());
        let ghost before = strings_view(out@);
        out.push(t);
        proof {
            assert(strings_view(out@) =~= before.push(t@));
            assert(src.subrange(0, i + 1).map_values(
                |l: Seq<char>| "["@ + target@ + " "@ + label@ + "] "@ + l,
            ) =~= src.subrange(0, i as int).map_values(
                |l: Seq<char>| "["@ + target@ + " "@ + label@ + "] "@ + l,
            ).push("["@ + target@ + " "@ + label@ + "] "@ + src[i as int]));
        }
        i = i + 1;
    }
    proof {
        assert(src.subrange(0, i as int) =~= src);
    }
    out
}

/// The latest-run pointer written for a run reads back the time the run's
/// id records, for every id whose time fits in a `u64`.
pub proof fn law_latest_run_start_reads_back(micros: u64, pid: u32, counter: u64)
    ensures
        pointer_start_spec(run_name(micros as nat, pid as nat, counter as nat) + "\n"@) == Some(
            micros,
        ),
{
    let dm = decimal(micros as nat);
    let dp = decimal(pid as nat);
    let dc = decimal(counter as nat);
    crate::text::lemma_decimal_digits(micros as nat);
    crate::text::lemma_decimal_digits(pid as nat);
    crate::text::lemma_decimal_digits(counter as nat);
    crate::text::lemma_parse_decimal(micros);
    let x = run_name(micros as nat, pid as nat, counter as nat);
    let dot = "."@;
    let nl = "\n"@;
    assert(dot.len() == 1 && dot[0] == '.') by {
        reveal_strlit(".");
    }
    assert(nl.len() == 1 && nl[0] == '\n') by {
        reveal_strlit("\n");
    }
    let s = x + nl;
    let n = x.len() as int;
    assert(x =~= dm + dot + dp + dot + dc);
    assert(x[0] == dm[0]);
    assert(x[n - 1] == dc[dc.len() - 1]);
    assert(crate::text::is_digit(x[0]) && crate::text::is_digit(x[n - 1]));
    assert(!crate::text::is_ws(s[0]) && crate::text::is_ws(s[n]) && !crate::text::is_ws(s[n - 1]));
    assert(crate::text::skip_ws_from(s, 0) == 0);
    assert(crate::text::back_ws_to(s, n) == n);
    assert(crate::text::back_ws_to(s, n + 1) == n);
    assert(trim(s) =~= x);
    let k = dm.len() as int;
    assert(x[k] == '.');
    assert forall|j: int| 0 <= j < k implies x[j] != '.' by {
        assert(x[j] == dm[j]);
        assert(crate::text::is_digit(dm[j]));
    }
    lemma_find_char_from_bounds(x, '.', 0);
    assert(crate::text::find_char(x, '.') == k);
    assert(first_segment(x) =~= dm);
}

} // verus!
