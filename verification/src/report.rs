//! The operator's Markdown report: mail headers, clipped context, `--since`
//! filters and the entries printed for issues, tasks and mail.

use vstd::prelude::*;
use vstd::string::*;
use crate::config::{first_non_digit, unit_factor};
use crate::mailbox::tasks::{field_value, fields_view, lookup, split_spec, split_front_matter};
use crate::paths::{file_name, file_name_exec};
use crate::runtime::strings_view;
use crate::text::{
    append, chars_of, debug_quoted, debug_text, eq_ignore_case, eq_ignore_case_exec, find_char,
    find_char_from, find_char_in, find_str_from, find_str_in, lemma_find_char_from_bounds,
    lemma_find_str_from, line_at, lines, lines_from, lower_matches_range, parse_u64,
    parse_u64_range, push_char, replace_char, replace_char_str, string_of_range, trim, trim_bounds,
    trim_str,
};

verus! {

/// The most bytes of context a report shows for one item.
pub const CONTEXT_LIMIT: usize = 600;

/// The header a mail line holds: split at the first colon, both sides
/// trimmed; lines without a colon hold none.
pub open spec fn header_line(l: Seq<char>) -> Seq<(Seq<char>, Seq<char>)> {
    let i = find_char(l, ':');
    if i < 0 {
        Seq::empty()
    } else {
        seq![(trim(l.subrange(0, i)), trim(l.subrange(i + 1, l.len() as int)))]
    }
}

/// The headers of a sequence of lines.
pub open spec fn header_lines(ls: Seq<Seq<char>>) -> Seq<(Seq<char>, Seq<char>)>
    decreases ls.len(),
{
    if ls.len() == 0 {
        Seq::empty()
    } else {
        header_line(ls[0]) + header_lines(ls.drop_first())
    }
}

/// A mail split at its first blank line into headers and body; without a
/// blank line it has no headers and is all body.
pub open spec fn split_headers_spec(m: Seq<char>) -> (Seq<(Seq<char>, Seq<char>)>, Seq<char>) {
    let k = find_str_from(m, "\n\n"@, 0);
    if k < 0 {
        (Seq::empty(), m)
    } else {
        (header_lines(lines(m.subrange(0, k))), m.subrange(k + 2, m.len() as int))
    }
}

/// Splits a mail message into its headers and body.
pub fn split_headers(message: &str) -> (r: (Vec<(String, String)>, String))
    ensures
        (fields_view(r.0@), r.1@) == split_headers_spec(message@),
{
    proof {
        reveal_strlit("\n\n");
    }
    let m = chars_of(message);
    let mlen = m.len();
    let sep = chars_of("\n\n");
    let k = match find_str_in(&m, &sep, 0) {
        None => {
            return (Vec::new(), String::from_str(message));
        },
        Some(k) => k,
    };
    proof {
        lemma_find_str_from(m@, sep@, 0);
    }
    assert(sep@.len() == 2);
    assert(k + 2 <= mlen);
    let hv = v_prefix(&m, k);
    let ghost h = m@.subrange(0, k as int);
    let mut out: Vec<(String, String)> = Vec::new();
    let mut i: usize = 0;
    proof {
        assert(fields_view(out@) + header_lines(lines_from(hv@, 0)) =~= header_lines(lines(h)));
    }
    while i < hv.len()
        invariant
            hv@ == h,
            k + 2 <= mlen,
            mlen == m@.len(),
            i <= hv@.len(),
            fields_view(out@) + header_lines(lines_from(hv@, i as int)) == header_lines(lines(h)),
        decreases hv@.len() - i,
    {
        let (a, b, next) = line_at(&hv, i);
        let ghost l = hv@.subrange(a as int, b as int);
        proof {
            assert((seq![l] + lines_from(hv@, next as int)).drop_first() =~= lines_from(
                hv@,
                next as int,
            ));
            lemma_find_char_from_bounds(hv@, ':', a as int);
            lemma_find_char_from_bounds(l, ':', 0);
        }
        let ghost before = fields_view(out@);
        match find_char_in(&hv, ':', a) {
            Some(c) if c < b => {
                proof {
                    assert(find_char(l, ':') == c - a) by {
                        assert(l[c - a] == ':');
                        if find_char(l, ':') >= 0 && find_char(l, ':') < c - a {
                            assert(hv@[a + find_char(l, ':')] == ':');
                        }
                    }
                    assert(l.subrange(0, c - a) =~= hv@.subrange(a as int, c as int));
                    assert(l.subrange(c - a + 1, l.len() as int) =~= hv@.subrange(c + 1, b as int));
                }
                let (ka, kb) = trim_bounds(&hv, a, c);
                let (va, vb) = trim_bounds(&hv, c + 1, b);
                out.push((string_of_range(&hv, ka, kb), string_of_range(&hv, va, vb)));
                proof {
                    assert(fields_view(out@) =~= before + header_line(l));
                }
            },
            _ => {
                proof {
                    if find_char(l, ':') >= 0 {
                        assert(hv@[a + find_char(l, ':')] == ':');
                    }
                    assert(header_line(l) =~= Seq::<(Seq<char>, Seq<char>)>::empty());
                    assert(fields_view(out@) =~= before + header_line(l));
                }
            },
        }
        proof {
            assert(fields_view(out@) + header_lines(lines_from(hv@, next as int)) =~= before + (
            header_line(l) + header_lines(lines_from(hv@, next as int))));
        }
        i = next;
    }
    proof {
        assert(lines_from(hv@, i as int) =~= Seq::<Seq<char>>::empty());
        assert(fields_view(out@) =~= fields_view(out@) + header_lines(lines_from(hv@, i as int)));
    }
    let body = string_of_range(&m, k + 2, m.len());
    (out, body)
}

fn v_prefix(v: &Vec<char>, k: usize) -> (r: Vec<char>)
    requires
        k <= v@.len(),
    ensures
        r@ == v@.subrange(0, k as int),
{
    let mut r: Vec<char> = Vec::new();
    let mut i: usize = 0;
    while i < k
        invariant
            i <= k <= v@.len(),
            r@ == v@.subrange(0, i as int),
        decreases k - i,
    {
        r.push(v[i]);
        i = i + 1;
    }
    r
}

/// The value of the first header whose name equals `key` ignoring ASCII
/// case, at or after `i`.
pub open spec fn header_value_from(hs: Seq<(Seq<char>, Seq<char>)>, key: Seq<char>, i: int) -> Option<
    Seq<char>,
>
    decreases hs.len() - i,
{
    if i < 0 || i >= hs.len() {
        None
    } else if eq_ignore_case(hs[i].0, key) {
        Some(hs[i].1)
    } else {
        header_value_from(hs, key, i + 1)
    }
}

/// The value of a header, its name compared ignoring ASCII case.
pub fn header_value(headers: &Vec<(String, String)>, key: &str) -> (r: Option<String>)
    ensures
        crate::text::opt_string(r) == header_value_from(fields_view(headers@), key@, 0),
{
    let kv = chars_of(key);
    let mut i: usize = 0;
    while i < headers.len()
        invariant
            kv@ == key@,
            i <= headers@.len(),
            header_value_from(fields_view(headers@), key@, 0) == header_value_from(
                fields_view(headers@),
                key@,
                i as int,
            ),
        decreases headers@.len() - i,
    {
        let h = chars_of(headers[i].0.as_str());
        if eq_ignore_case_exec(&h, &kv) {
            return Some(headers[i].1.clone());
        }
        i = i + 1;
    }
    None
}

/// The number of bytes a character takes in UTF-8.
pub open spec fn char_utf8_len(c: char) -> nat {
    if (c as u32) < 0x80 {
        1
    } else if (c as u32) < 0x800 {
        2
    } else if (c as u32) < 0x10000 {
        3
    } else {
        4
    }
}

/// The number of bytes characters take in UTF-8.
pub open spec fn utf8_len(s: Seq<char>) -> nat
    decreases s.len(),
{
    if s.len() == 0 {
        0
    } else {
        utf8_len(s.drop_last()) + char_utf8_len(s.last())
    }
}

fn char_len(c: char) -> (r: usize)
    ensures
        r == char_utf8_len(c),
{
    let n = c as u32;
    if n < 0x80 {
        1
    } else if n < 0x800 {
        2
    } else if n < 0x10000 {
        3
    } else {
        4
    }
}

/// How many characters from `i` on fit, with `acc` bytes already taken,
/// in the context limit.
pub open spec fn clip_count(s: Seq<char>, i: int, acc: nat) -> int
    decreases s.len() - i,
{
    if i < 0 || i >= s.len() || acc + char_utf8_len(s[i]) > 600 {
        i
    } else {
        clip_count(s, i + 1, acc + char_utf8_len(s[i]))
    }
}

/// Context as a report shows it: trimmed, and when longer than the limit in
/// UTF-8 bytes, cut to the whole characters that fit and marked `[clipped]`.
pub open spec fn clip_spec(v: Seq<char>) -> Seq<char> {
    let t = trim(v);
    if utf8_len(t) <= 600 {
        t
    } else {
        t.subrange(0, clip_count(t, 0, 0)) + "\n[clipped]"@
    }
}

proof fn lemma_utf8_len_prefix(s: Seq<char>, i: int)
    requires
        0 <= i <= s.len(),
    ensures
        utf8_len(s.subrange(0, i)) <= utf8_len(s),
    decreases s.len() - i,
{
    if i < s.len() {
        lemma_utf8_len_prefix(s, i + 1);
        assert(s.subrange(0, i + 1).drop_last() =~= s.subrange(0, i));
    } else {
        assert(s.subrange(0, i) =~= s);
    }
}

/// Clips context for a report.
pub fn clip(value: &str) -> (r: String)
    ensures
        r@ == clip_spec(value@),
{
    let trimmed = trim_str(value);
    let t = chars_of(trimmed.as_str());
    let mut acc: usize = 0;
    let mut i: usize = 0;
    proof {
        assert(t@.subrange(0, 0) =~= Seq::<char>::empty());
    }
    while i < t.len() && acc + char_len(t[i]) <= CONTEXT_LIMIT
        invariant
            t@ == trim(value@),
            i <= t@.len(),
            acc == utf8_len(t@.subrange(0, i as int)),
            acc <= 600,
            clip_count(t@, 0, 0) == clip_count(t@, i as int, acc as nat),
        decreases t@.len() - i,
    {
        proof {
            assert(t@.subrange(0, i + 1).drop_last() =~= t@.subrange(0, i as int));
        }
        acc = acc + char_len(t[i]);
        i = i + 1;
    }
    if i == t.len() {
        proof {
            assert(t@.subrange(0, i as int) =~= t@);
        }
        return trimmed;
    }
    proof {
        lemma_utf8_len_prefix(t@, i + 1);
        assert(t@.subrange(0, i + 1).drop_last() =~= t@.subrange(0, i as int));
        assert(utf8_len(t@) > 600);
    }
    let mut clipped = string_of_range(&t, 0, i);
    append(&mut clipped, "\n[clipped]");
    clipped
}

/// Text put on one line inside backticks: backticks become `'` and
/// newlines spaces.
pub open spec fn inline_spec(v: Seq<char>) -> Seq<char> {
    replace_char(replace_char(v, '`', "'"@), '\n', " "@)
}

/// Puts text on one line for a report.
pub fn inline(value: &str) -> (r: String)
    ensures
        r@ == inline_spec(value@),
{
    let a = replace_char_str(value, '`', "'");
    replace_char_str(a.as_str(), '\n', " ")
}

/// A field as a report shows it: inlined, or `-` when missing.
pub open spec fn inline_field_spec(fs: Seq<(Seq<char>, Seq<char>)>, key: Seq<char>) -> Seq<char> {
    match lookup(fs, key) {
        Some(v) => inline_spec(v),
        None => "-"@,
    }
}

/// A field of front matter as a report shows it.
pub fn inline_field(fields: &Vec<(String, String)>, key: &str) -> (r: String)
    ensures
        r@ == inline_field_spec(fields_view(fields@), key@),
{
    match field_value(fields, key) {
        Some(v) => inline(v.as_str()),
        None => String::from_str("-"),
    }
}

/// The part of a file name before its first `.`.
pub open spec fn first_segment(n: Seq<char>) -> Seq<char> {
    let i = find_char(n, '.');
    if i < 0 {
        n
    } else {
        n.subrange(0, i)
    }
}

/// When a message was written, in microseconds since the epoch, read from
/// the first part of its file name.
pub open spec fn message_time_spec(path: Seq<char>) -> Option<u64> {
    match file_name(path) {
        Some(n) => parse_u64(first_segment(n)),
        None => None,
    }
}

/// The time a message id records, in microseconds since the epoch.
pub fn time_from_message_id(path: &str) -> (r: Option<u64>)
    ensures
        r == message_time_spec(path@),
{
    let name = match file_name_exec(path) {
        Some(n) => n,
        None => {
            return None;
        },
    };
    let v = chars_of(name.as_str());
    proof {
        lemma_find_char_from_bounds(v@, '.', 0);
    }
    match find_char_in(&v, '.', 0) {
        Some(i) => parse_u64_range(&v, 0, i),
        None => {
            assert(v@.subrange(0, v@.len() as int) =~= v@);
            parse_u64_range(&v, 0, v.len())
        },
    }
}

/// A `--since` filter: its label and the earliest time shown, in
/// microseconds since the epoch (negative before it).
pub struct SinceFilter {
    pub label: String,
    pub time: i128,
}

/// The error for a `--since` value that is neither seconds nor a duration.
pub open spec fn since_error(v: Seq<char>) -> Seq<char> {
    "invalid --since "@ + debug_text(v) + "; use Unix seconds or a duration like 30m, 2h, or 1d"@
}

/// A `--since` duration: leading digits, then an optional unit after
/// optional white space, as seconds.
pub open spec fn since_duration_spec(v: Seq<char>) -> Result<nat, Seq<char>> {
    let k = first_non_digit(v, 0);
    if k == 0 {
        Err(since_error(v))
    } else {
        match parse_u64(v.subrange(0, k)) {
            None => Err("invalid --since "@ + debug_text(v) + "; duration must start with a number"@),
            Some(n) => match unit_factor(trim(v.subrange(k, v.len() as int))) {
                None => Err(since_error(v)),
                Some(f) => Ok((n * f) as nat),
            },
        }
    }
}

/// A `--since` duration written as a number, an optional space and a unit
/// word is that number of units: `N hour` is N times 3600 seconds.
pub proof fn law_since_duration_text(n: u64, sep: Seq<char>, u: Seq<char>)
    requires
        sep == Seq::<char>::empty() || sep == " "@,
        u.len() > 0,
        crate::config::is_letter(u[0]),
        crate::config::is_letter(u.last()),
        unit_factor(u) is Some,
    ensures
        since_duration_spec(crate::text::decimal(n as nat) + sep + u) == Ok::<nat, Seq<char>>(
            (n * unit_factor(u)->Some_0) as nat,
        ),
{
    crate::config::lemma_split_duration(n, sep, u);
    crate::text::lemma_decimal_digits(n as nat);
}

/// Whether a `--since` duration's seconds fit in a `u64`.
pub open spec fn since_duration_fits(v: Seq<char>) -> bool {
    let k = first_non_digit(v, 0);
    k == 0 || match parse_u64(v.subrange(0, k)) {
        None => true,
        Some(n) => match unit_factor(trim(v.subrange(k, v.len() as int))) {
            None => true,
            Some(f) => n * f <= u64::MAX,
        },
    }
}

fn since_duration_parts(value: &str) -> (r: Result<(u64, u64), String>)
    ensures
        ({
            let v = value@;
            let k = first_non_digit(v, 0);
            if k == 0 {
                r matches Err(e) && e@ == since_error(v)
            } else {
                match parse_u64(v.subrange(0, k)) {
                    None => r matches Err(e) && e@ == "invalid --since "@ + debug_text(v)
                        + "; duration must start with a number"@,
                    Some(n) => match unit_factor(trim(v.subrange(k, v.len() as int))) {
                        None => r matches Err(e) && e@ == since_error(v),
                        Some(f) => r matches Ok(p) && p.0 == n && p.1 == f,
                    },
                }
            }
        }),
{
    let v = chars_of(value);
    let mut k: usize = 0;
    while k < v.len() && '0' <= v[k] && v[k] <= '9'
        invariant
            v@ == value@,
            k <= v@.len(),
            first_non_digit(v@, 0) == first_non_digit(v@, k as int),
        decreases v@.len() - k,
    {
        k = k + 1;
    }
    if k == 0 {
        let mut e = String::from_str("invalid --since ");
        append(&mut e, debug_quoted(value).as_str());
        append(&mut e, "; use Unix seconds or a duration like 30m, 2h, or 1d");
        return Err(e);
    }
    let n = match parse_u64_range(&v, 0, k) {
        Some(n) => n,
        None => {
            let mut e = String::from_str("invalid --since ");
            append(&mut e, debug_quoted(value).as_str());
            append(&mut e, "; duration must start with a number");
            return Err(e);
        },
    };
    let (ua, ub) = trim_bounds(&v, k, v.len());
    let f: u64 = if ua == ub || lower_matches_range(&v, ua, ub, "s") || lower_matches_range(
        &v,
        ua,
        ub,
        "sec",
    ) || lower_matches_range(&v, ua, ub, "secs") || lower_matches_range(&v, ua, ub, "second")
        || lower_matches_range(&v, ua, ub, "seconds") {
        1
    } else if lower_matches_range(&v, ua, ub, "m") || lower_matches_range(&v, ua, ub, "min")
        || lower_matches_range(&v, ua, ub, "mins") || lower_matches_range(&v, ua, ub, "minute")
        || lower_matches_range(&v, ua, ub, "minutes") {
        60
    } else if lower_matches_range(&v, ua, ub, "h") || lower_matches_range(&v, ua, ub, "hr")
        || lower_matches_range(&v, ua, ub, "hrs") || lower_matches_range(&v, ua, ub, "hour")
        || lower_matches_range(&v, ua, ub, "hours") {
        3600
    } else if lower_matches_range(&v, ua, ub, "d") || lower_matches_range(&v, ua, ub, "day")
        || lower_matches_range(&v, ua, ub, "days") {
        86400
    } else {
        let mut e = String::from_str("invalid --since ");
        append(&mut e, debug_quoted(value).as_str());
        append(&mut e, "; use Unix seconds or a duration like 30m, 2h, or 1d");
        return Err(e);
    };
    Ok((n, f))
}

/// Reads a `--since` duration as seconds.
pub fn parse_duration(value: &str) -> (r: Result<u64, String>)
    requires
        since_duration_fits(value@),
    ensures
        match since_duration_spec(value@) {
            Ok(d) => r matches Ok(x) && x as nat == d,
            Err(e) => r matches Err(x) && x@ == e,
        },
{
    match since_duration_parts(value) {
        Ok((n, f)) => Ok(n * f),
        Err(e) => Err(e),
    }
}

/// Whether a `--since` value can be read without overflow: where this is
/// false, reading it overflows.
pub fn since_in_range(value: &str) -> (r: bool)
    ensures
        r == (trim(value@).len() == 0 || parse_u64(trim(value@)) is Some || since_duration_fits(
            trim(value@),
        )),
{
    let t = trim_str(value);
    if t.unicode_len() == 0 {
        return true;
    }
    match crate::text::parse_u64_str(t.as_str()) {
        Some(_) => true,
        None => match since_duration_parts(t.as_str()) {
            Ok((n, f)) => n.checked_mul(f).is_some(),
            Err(_) => true,
        },
    }
}

/// Whether the system clock, which keeps whole seconds since the epoch as an
/// `i64`, cannot go back `d` seconds from `now` (microseconds).
pub open spec fn before_clock_start(now: int, d: int) -> bool {
    now / 1_000_000 - d < i64::MIN
}

/// A `--since` filter read at `now` (microseconds since the epoch): Unix
/// seconds, or a duration before now; refused when the clock cannot hold a
/// time that far back.
pub open spec fn since_spec(value: Seq<char>, now: int) -> Result<(Seq<char>, int), Seq<char>> {
    let v = trim(value);
    if v.len() == 0 {
        Err("--since cannot be empty"@)
    } else {
        match parse_u64(v) {
            Some(s) => Ok((v, s * 1_000_000)),
            None => match since_duration_spec(v) {
                Err(e) => Err(e),
                Ok(d) => if before_clock_start(now, d as int) {
                    Err("--since "@ + debug_text(v) + " is before the Unix epoch"@)
                } else {
                    Ok((v + " ago"@, now - d * 1_000_000))
                },
            },
        }
    }
}

/// Reads a `--since` value at the time `now`.
pub fn parse_since(value: &str, now: i128) -> (r: Result<SinceFilter, String>)
    requires
        trim(value@).len() == 0 || parse_u64(trim(value@)) is Some || since_duration_fits(trim(value@)),
        -0x1_0000_0000_0000_0000_0000_0000 < now < 0x1_0000_0000_0000_0000_0000_0000,
    ensures
        match since_spec(value@, now as int) {
            Ok(p) => r matches Ok(s) && s.label@ == p.0 && s.time as int == p.1,
            Err(e) => r matches Err(x) && x@ == e,
        },
{
    let v = trim_str(value);
    if v.unicode_len() == 0 {
        return Err(String::from_str("--since cannot be empty"));
    }
    match crate::text::parse_u64_str(v.as_str()) {
        Some(s) => {
            let t = (s as i128) * 1_000_000;
            Ok(SinceFilter { label: v, time: t })
        },
        None => {
            let d = parse_duration(v.as_str())?;
            let bound: i128 = (-0x8000_0000_0000_0000i128 + (d as i128)) * 1_000_000;
            proof {
                assert((now as int) / 1_000_000 < -0x8000_0000_0000_0000int + d <==> (now as int) < (
                -0x8000_0000_0000_0000int + d) * 1_000_000) by (nonlinear_arith);
            }
            if now < bound {
                let mut e = String::from_str("--since ");
                append(&mut e, crate::text::debug_quoted(v.as_str()).as_str());
                append(&mut e, " is before the Unix epoch");
                return Err(e);
            }
            let mut label = v.clone();
            append(&mut label, " ago");
            let t = now - (d as i128) * 1_000_000;
            Ok(SinceFilter { label, time: t })
        },
    }
}

/// Whether an item is shown under a `--since` filter, when its file name
/// records its time; `None` when the file's modification time must decide.
pub fn include_by_id(since: Option<&SinceFilter>, path: &str) -> (r: Option<bool>)
    ensures
        match since {
            None => r == Some(true),
            Some(s) => match message_time_spec(path@) {
                Some(t) => r == Some(t as int >= s.time as int),
                None => r is None,
            },
        },
{
    match since {
        None => Some(true),
        Some(s) => match time_from_message_id(path) {
            Some(t) => Some((t as i128) >= s.time),
            None => None,
        },
    }
}

/// The lines a report prints for one task: its fields, its context when it
/// has any, and its id and path.
pub open spec fn task_entry_spec(state: Seq<char>, contents: Seq<char>, id: Seq<char>, path: Seq<char>) -> Seq<
    Seq<char>,
> {
    let fs = split_spec(contents).0;
    let ctx = clip_spec(split_spec(contents).1);
    seq![
        "- state=`"@ + state + "` status=`"@ + inline_field_spec(fs, "status"@) + "` priority=`"@
            + inline_field_spec(fs, "priority"@) + "` kind=`"@ + inline_field_spec(fs, "kind"@)
            + "` from=`"@ + inline_field_spec(fs, "from"@) + "` to=`"@ + inline_field_spec(fs, "to"@)
            + "` title=`"@ + inline_field_spec(fs, "title"@) + "`"@,
    ] + (if ctx.len() == 0 {
        Seq::empty()
    } else {
        seq!["  context=`"@ + inline_spec(ctx) + "`"@]
    }) + seq!["  id=`"@ + id + "` path=`"@ + path + "`"@]
}

fn compact_context(body: &str, out: &mut Vec<String>)
    ensures
        strings_view(final(out)@) == strings_view(old(out)@) + (if clip_spec(body@).len() == 0 {
            Seq::empty()
        } else {
            seq!["  context=`"@ + inline_spec(clip_spec(body@)) + "`"@]
        }),
{
    let ctx = clip(body);
    let ghost before = strings_view(out@);
    if ctx.unicode_len() > 0 {
        let mut l = String::from_str("  context=`");
        append(&mut l, inline(ctx.as_str()).as_str());
        append(&mut l, "`");
        out.push(l);
        assert(strings_view(out@) =~= before.push(l@));
    } else {
        assert(strings_view(out@) =~= before + Seq::<Seq<char>>::empty());
    }
}

/// The report entry of a task.
pub fn task_entry(state: &str, contents: &str, id: &str, path: &str) -> (r: Vec<String>)
    ensures
        strings_view(r@) == task_entry_spec(state@, contents@, id@, path@),
{
    let (fields, body) = split_front_matter(contents);
    let mut l = String::from_str("- state=`");
    append(&mut l, state);
    append(&mut l, "` status=`");
    append(&mut l, inline_field(&fields, "status").as_str());
    append(&mut l, "` priority=`");
    append(&mut l, inline_field(&fields, "priority").as_str());
    append(&mut l, "` kind=`");
    append(&mut l, inline_field(&fields, "kind").as_str());
    append(&mut l, "` from=`");
    append(&mut l, inline_field(&fields, "from").as_str());
    append(&mut l, "` to=`");
    append(&mut l, inline_field(&fields, "to").as_str());
    append(&mut l, "` title=`");
    append(&mut l, inline_field(&fields, "title").as_str());
    append(&mut l, "`");
    let mut out: Vec<String> = Vec::new();
    out.push(l);
    compact_context(body.as_str(), &mut out);
    let mut last = String::from_str("  id=`");
    append(&mut last, id);
    append(&mut last, "` path=`");
    append(&mut last, path);
    append(&mut last, "`");
    let ghost before = strings_view(out@);
    out.push(last);
    assert(strings_view(out@) =~= before.push(last@));
    assert(strings_view(out@) =~= task_entry_spec(state@, contents@, id@, path@));
    out
}

/// A header as a report shows it: inlined, or a fallback when missing.
pub open spec fn header_shown(hs: Seq<(Seq<char>, Seq<char>)>, key: Seq<char>, fallback: Seq<char>) -> Seq<
    char,
> {
    inline_spec(
        match header_value_from(hs, key, 0) {
            Some(v) => v,
            None => fallback,
        },
    )
}

/// The lines a report prints for one mail message.
pub open spec fn mail_entry_spec(state: Seq<char>, contents: Seq<char>, id: Seq<char>, path: Seq<char>) -> Seq<
    Seq<char>,
> {
    let hs = split_headers_spec(contents).0;
    let ctx = clip_spec(split_headers_spec(contents).1);
    seq![
        "- state=`"@ + state + "` from=`"@ + header_shown(hs, "From"@, "-"@) + "` to=`"@
            + header_shown(hs, "To"@, "-"@) + "` subject=`"@ + header_shown(
            hs,
            "Subject"@,
            "(no subject)"@,
        ) + "`"@,
    ] + (if ctx.len() == 0 {
        Seq::empty()
    } else {
        seq!["  context=`"@ + inline_spec(ctx) + "`"@]
    }) + seq!["  id=`"@ + id + "` path=`"@ + path + "`"@]
}

fn shown_header(headers: &Vec<(String, String)>, key: &str, fallback: &str) -> (r: String)
    ensures
        r@ == header_shown(fields_view(headers@), key@, fallback@),
{
    match header_value(headers, key) {
        Some(v) => inline(v.as_str()),
        None => inline(fallback),
    }
}

/// The report entry of a mail message.
pub fn mail_entry(state: &str, contents: &str, id: &str, path: &str) -> (r: Vec<String>)
    ensures
        strings_view(r@) == mail_entry_spec(state@, contents@, id@, path@),
{
    let (headers, body) = split_headers(contents);
    let mut l = String::from_str("- state=`");
    append(&mut l, state);
    append(&mut l, "` from=`");
    append(&mut l, shown_header(&headers, "From", "-").as_str());
    append(&mut l, "` to=`");
    append(&mut l, shown_header(&headers, "To", "-").as_str());
    append(&mut l, "` subject=`");
    append(&mut l, shown_header(&headers, "Subject", "(no subject)").as_str());
    append(&mut l, "`");
    let mut out: Vec<String> = Vec::new();
    out.push(l);
    compact_context(body.as_str(), &mut out);
    let mut last = String::from_str("  id=`");
    append(&mut last, id);
    append(&mut last, "` path=`");
    append(&mut last, path);
    append(&mut last, "`");
    let ghost before = strings_view(out@);
    out.push(last);
    assert(strings_view(out@) =~= before.push(last@));
    assert(strings_view(out@) =~= mail_entry_spec(state@, contents@, id@, path@));
    out
}

/// The fields an issue entry shows, in order, when the issue has them.
pub open spec fn issue_keys() -> Seq<Seq<char>> {
    seq!["pod"@, "fin"@, "status"@, "severity"@, "kind"@, "title"@, "from"@]
}

/// The field lines of an issue entry for the first `n` keys.
pub open spec fn issue_field_lines(fs: Seq<(Seq<char>, Seq<char>)>, n: int) -> Seq<Seq<char>>
    decreases n,
{
    if n <= 0 || n > 7 {
        Seq::empty()
    } else {
        issue_field_lines(fs, n - 1) + match lookup(fs, issue_keys()[n - 1]) {
            Some(v) => seq!["- "@ + issue_keys()[n - 1] + ": `"@ + inline_spec(v) + "`"@],
            None => Seq::empty(),
        }
    }
}

/// The lines a report prints for one operator issue: a heading with its id,
/// its state and path, the fields it has, and its context in a text block.
pub open spec fn issue_entry_spec(state: Seq<char>, contents: Seq<char>, id: Seq<char>, path: Seq<char>) -> Seq<
    Seq<char>,
> {
    let fs = split_spec(contents).0;
    let ctx = clip_spec(split_spec(contents).1);
    seq![""@, "### `"@ + id + "`"@, "- state: `"@ + state + "`"@, "- path: `"@ + path + "`"@]
        + issue_field_lines(fs, 7) + (if ctx.len() == 0 {
        Seq::empty()
    } else {
        seq![""@, "```text"@, ctx, "```"@]
    })
}

/// The report entry of an operator issue.
pub fn issue_entry(state: &str, contents: &str, id: &str, path: &str) -> (r: Vec<String>)
    ensures
        strings_view(r@) == issue_entry_spec(state@, contents@, id@, path@),
{
    proof {
        reveal_strlit("");
    }
    let (fields, body) = split_front_matter(contents);
    let ghost fs = fields_view(fields@);
    let mut out: Vec<String> = Vec::new();
    let e = String::new();
    assert(e@ == ""@);
    out.push(e);
    let mut h = String::from_str("### `");
    append(&mut h, id);
    append(&mut h, "`");
    out.push(h);
    let mut s = String::from_str("- state: `");
    append(&mut s, state);
    append(&mut s, "`");
    out.push(s);
    let mut p = String::from_str("- path: `");
    append(&mut p, path);
    append(&mut p, "`");
    out.push(p);
    let ghost head = strings_view(out@);
    assert(out@.len() == 4);
    assert(head[0] == ""@);
    assert(head[1] == "### `"@ + id@ + "`"@);
    assert(head[2] == "- state: `"@ + state@ + "`"@);
    assert(head[3] == "- path: `"@ + path@ + "`"@);
    assert(head =~= seq![""@, "### `"@ + id@ + "`"@, "- state: `"@ + state@ + "`"@, "- path: `"@ + path@
        + "`"@]);
    let keys: [&str; 7] = ["pod", "fin", "status", "severity", "kind", "title", "from"];
    let mut k: usize = 0;
    while k < 7
        invariant
            k <= 7,
            fs == fields_view(fields@),
            keys@.len() == 7,
            forall|j: int| 0 <= j < 7 ==> (#[trigger] keys@[j])@ == issue_keys()[j],
            strings_view(out@) == head + issue_field_lines(fs, k as int),
        decreases 7 - k,
    {
        let ghost before = strings_view(out@);
        match field_value(&fields, keys[k]) {
            Some(v) => {
                let mut l = String::from_str("- ");
                append(&mut l, keys[k]);
                append(&mut l, ": `");
                append(&mut l, inline(v.as_str()).as_str());
                append(&mut l, "`");
                out.push(l);
                assert(strings_view(out@) =~= before.push(l@));
            },
            None => {},
        }
        proof {
            assert(strings_view(out@) =~= head + issue_field_lines(fs, k + 1));
        }
        k = k + 1;
    }
    let ctx = clip(body.as_str());
    if ctx.unicode_len() > 0 {
        let ghost before = strings_view(out@);
        proof {
            reveal_strlit("");
        }
        out.push(String::new());
        out.push(String::from_str("```text"));
        out.push(ctx);
        out.push(String::from_str("```"));
        assert(strings_view(out@) =~= before + seq![""@, "```text"@, clip_spec(split_spec(contents@).1), "```"@]);
    }
    assert(strings_view(out@) =~= issue_entry_spec(state@, contents@, id@, path@));
    out
}

} // verus!
