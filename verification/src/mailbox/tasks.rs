//! Task documents: YAML-style front matter, canonical task bodies, task
//! filters, sorting and list formatting.

use vstd::prelude::*;
use vstd::string::*;
use crate::model::{address_label, MailAddress};
use crate::text::{debug_quoted, debug_text, decimal, is_alnum, replace_char, replace_char_str, u64_to_decimal};
use crate::text::{
    append, chars_eq, chars_of, find_char, find_char_in, find_str_from, find_str_in, line_at,
    lemma_find_char_from_bounds, lemma_find_str_from, lines, lines_from, push_char, str_eq,
    string_of_range, trim, trim_bounds, trim_str,
};

verus! {

/// Front-matter fields as text pairs.
pub open spec fn fields_view(v: Seq<(String, String)>) -> Seq<(Seq<char>, Seq<char>)> {
    v.map_values(|p: (String, String)| (p.0@, p.1@))
}

/// Index of the first field named `key` at or after `i`, or -1.
pub open spec fn field_index_from(fs: Seq<(Seq<char>, Seq<char>)>, key: Seq<char>, i: int) -> int
    decreases fs.len() - i,
{
    if i < 0 || i >= fs.len() {
        -1
    } else if fs[i].0 == key {
        i
    } else {
        field_index_from(fs, key, i + 1)
    }
}

pub open spec fn field_index(fs: Seq<(Seq<char>, Seq<char>)>, key: Seq<char>) -> int {
    field_index_from(fs, key, 0)
}

pub proof fn lemma_field_index_bounds(fs: Seq<(Seq<char>, Seq<char>)>, key: Seq<char>, i: int)
    ensures
        field_index_from(fs, key, i) == -1 || (0 <= i <= field_index_from(fs, key, i) < fs.len()
            && fs[field_index_from(fs, key, i)].0 == key && forall|j: int|
            i <= j < field_index_from(fs, key, i) ==> fs[j].0 != key),
        field_index_from(fs, key, i) == -1 ==> forall|j: int|
            0 <= i <= j < fs.len() ==> fs[j].0 != key,
    decreases fs.len() - i,
{
    if i < 0 || i >= fs.len() {
    } else if fs[i].0 == key {
    } else {
        lemma_field_index_bounds(fs, key, i + 1);
    }
}

/// The value of the first field named `key`.
pub open spec fn lookup(fs: Seq<(Seq<char>, Seq<char>)>, key: Seq<char>) -> Option<Seq<char>> {
    let i = field_index(fs, key);
    if i < 0 {
        None
    } else {
        Some(fs[i].1)
    }
}

/// Adds `key: value` unless a field named `key` exists.
pub open spec fn ensure_spec(fs: Seq<(Seq<char>, Seq<char>)>, key: Seq<char>, value: Seq<char>) -> Seq<
    (Seq<char>, Seq<char>),
> {
    if lookup(fs, key) is None {
        fs.push((key, value))
    } else {
        fs
    }
}

/// Sets the first field named `key` to `value`, or adds it at the end.
pub open spec fn upsert_spec(fs: Seq<(Seq<char>, Seq<char>)>, key: Seq<char>, value: Seq<char>) -> Seq<
    (Seq<char>, Seq<char>),
> {
    let i = field_index(fs, key);
    if i < 0 {
        fs.push((key, value))
    } else {
        fs.update(i, (key, value))
    }
}

/// Index of the first field named `key`.
fn find_field(fields: &Vec<(String, String)>, key: &str) -> (r: Option<usize>)
    ensures
        match r {
            Some(i) => i as int == field_index(fields_view(fields@), key@) && i < fields@.len()
                && fields@[i as int].0@ == key@,
            None => field_index(fields_view(fields@), key@) == -1,
        },
{
    let ghost fs = fields_view(fields@);
    proof {
        lemma_field_index_bounds(fs, key@, 0);
    }
    let mut i: usize = 0;
    while i < fields.len()
        invariant
            fs == fields_view(fields@),
            i <= fields@.len(),
            field_index(fs, key@) == field_index_from(fs, key@, i as int),
        decreases fields@.len() - i,
    {
        if str_eq(fields[i].0.as_str(), key) {
            assert(fs[i as int].0 == key@);
            return Some(i);
        }
        i = i + 1;
    }
    None
}

/// The value of the first field named `key`.
pub fn field_value(fields: &Vec<(String, String)>, key: &str) -> (r: Option<String>)
    ensures
        match r {
            Some(v) => lookup(fields_view(fields@), key@) == Some(v@),
            None => lookup(fields_view(fields@), key@) is None,
        },
{
    match find_field(fields, key) {
        Some(i) => Some(fields[i].1.clone()),
        None => None,
    }
}

/// Adds `key: value` unless a field named `key` already exists.
pub fn ensure_field(fields: &mut Vec<(String, String)>, key: &str, value: &str)
    ensures
        fields_view(final(fields)@) == ensure_spec(fields_view(old(fields)@), key@, value@),
{
    if field_value(fields, key).is_none() {
        fields.push((String::from_str(key), String::from_str(value)));
        proof {
            assert(fields_view(fields@) =~= fields_view(old(fields)@).push((key@, value@)));
        }
    }
}

/// Sets the first field named `key` to `value`, or appends it.
pub fn upsert_field(fields: &mut Vec<(String, String)>, key: &str, value: &str)
    ensures
        fields_view(final(fields)@) == upsert_spec(fields_view(old(fields)@), key@, value@),
{
    match find_field(fields, key) {
        Some(i) => {
            let k = fields[i].0.clone();
            fields.set(i, (k, String::from_str(value)));
            proof {
                assert(fields_view(fields@) =~= fields_view(old(fields)@).update(
                    i as int,
                    (key@, value@),
                ));
            }
        },
        None => {
            fields.push((String::from_str(key), String::from_str(value)));
            proof {
                assert(fields_view(fields@) =~= fields_view(old(fields)@).push((key@, value@)));
            }
        },
    }
}

/// The field a front-matter line holds: `key: value` split at the first
/// colon, both sides trimmed; lines without a colon or with an empty key hold
/// none.
pub open spec fn parse_line(l: Seq<char>) -> Seq<(Seq<char>, Seq<char>)> {
    let i = find_char(l, ':');
    if i < 0 {
        Seq::empty()
    } else if trim(l.subrange(0, i)).len() == 0 {
        Seq::empty()
    } else {
        seq![(trim(l.subrange(0, i)), trim(l.subrange(i + 1, l.len() as int)))]
    }
}

/// The fields of a sequence of lines.
pub open spec fn parse_lines(ls: Seq<Seq<char>>) -> Seq<(Seq<char>, Seq<char>)>
    decreases ls.len(),
{
    if ls.len() == 0 {
        Seq::empty()
    } else {
        parse_line(ls[0]) + parse_lines(ls.drop_first())
    }
}

/// The fields of a front-matter block.
pub open spec fn front_fields(s: Seq<char>) -> Seq<(Seq<char>, Seq<char>)> {
    parse_lines(lines(s))
}

/// Parses `key: value` lines; other lines are skipped.
pub fn parse_front_matter(front_matter: &str) -> (r: Vec<(String, String)>)
    ensures
        fields_view(r@) == front_fields(front_matter@),
{
    let v = chars_of(front_matter);
    let mut out: Vec<(String, String)> = Vec::new();
    let mut i: usize = 0;
    while i < v.len()
        invariant
            v@ == front_matter@,
            i <= v@.len(),
            fields_view(out@) + parse_lines(lines_from(v@, i as int)) == front_fields(v@),
        decreases v@.len() - i,
    {
        let (a, b, next) = line_at(&v, i);
        let ghost l = v@.subrange(a as int, b as int);
        proof {
            assert((seq![l] + lines_from(v@, next as int)).drop_first() =~= lines_from(
                v@,
                next as int,
            ));
            lemma_find_char_from_bounds(v@, ':', a as int);
        }
        let ghost before = fields_view(out@);
        match find_char_in(&v, ':', a) {
            Some(c) if c < b => {
                proof {
                    assert(find_char(l, ':') == c - a) by {
                        lemma_find_char_from_bounds(l, ':', 0);
                        lemma_find_char_in_sub(v@, a as int, b as int, c as int);
                    }
                }
                let (ka, kb) = trim_bounds(&v, a, c);
                let (va, vb) = trim_bounds(&v, c + 1, b);
                proof {
                    assert(l.subrange(0, c - a) =~= v@.subrange(a as int, c as int));
                    assert(l.subrange(c - a + 1, l.len() as int) =~= v@.subrange(
                        c + 1,
                        b as int,
                    ));
                }
                if ka < kb {
                    let key = string_of_range(&v, ka, kb);
                    let value = string_of_range(&v, va, vb);
                    out.push((key, value));
                    proof {
                        assert(fields_view(out@) =~= before + parse_line(l));
                    }
                } else {
                    proof {
                        assert(parse_line(l) =~= Seq::<(Seq<char>, Seq<char>)>::empty());
                        assert(fields_view(out@) =~= before + parse_line(l));
                    }
                }
            },
            _ => {
                proof {
                    lemma_no_colon_in_line(v@, a as int, b as int);
                    assert(parse_line(l) =~= Seq::<(Seq<char>, Seq<char>)>::empty());
                    assert(fields_view(out@) =~= before + parse_line(l));
                }
            },
        }
        proof {
            assert(fields_view(out@) + parse_lines(lines_from(v@, next as int)) =~= before + (
            parse_line(l) + parse_lines(lines_from(v@, next as int))));
        }
        i = next;
    }
    proof {
        assert(lines_from(v@, i as int) =~= Seq::<Seq<char>>::empty());
        assert(fields_view(out@) =~= fields_view(out@) + parse_lines(lines_from(v@, i as int)));
    }
    out
}

/// The first `:` of `s[a..b]` is at `c - a` when `c` is the first one at or
/// after `a` and lies before `b`.
proof fn lemma_find_char_in_sub(s: Seq<char>, a: int, b: int, c: int)
    requires
        0 <= a <= c < b <= s.len(),
        find_char_from(s, ':', a) == c,
    ensures
        find_char(s.subrange(a, b), ':') == c - a,
{
    lemma_find_char_from_bounds(s, ':', a);
    let l = s.subrange(a, b);
    lemma_find_char_from_bounds(l, ':', 0);
    assert(l[c - a] == ':');
    let f = find_char(l, ':');
    if f == -1 {
    } else if f < c - a {
        assert(s[a + f] == ':');
    }
}

/// No `:` in `s[a..b]` when the first one at or after `a` is at or beyond `b`.
proof fn lemma_no_colon_in_line(s: Seq<char>, a: int, b: int)
    requires
        0 <= a <= b <= s.len(),
        find_char_from(s, ':', a) == -1 || find_char_from(s, ':', a) >= b,
    ensures
        find_char(s.subrange(a, b), ':') == -1,
{
    lemma_find_char_from_bounds(s, ':', a);
    let l = s.subrange(a, b);
    lemma_find_char_from_bounds(l, ':', 0);
    let f = find_char(l, ':');
    if f >= 0 {
        assert(s[a + f] == ':');
    }
}

use crate::text::{find_char_from, matches_at};

/// Finding in a suffix is finding in the whole, shifted.
pub proof fn lemma_find_str_shift(s: Seq<char>, p: Seq<char>, a: int, k: int)
    requires
        0 <= a <= s.len(),
        0 <= k,
        p.len() > 0,
    ensures
        find_str_from(s.subrange(a, s.len() as int), p, k) == (if find_str_from(s, p, a + k) < 0 {
            -1
        } else {
            find_str_from(s, p, a + k) - a
        }),
    decreases s.len() - a - k,
{
    let t = s.subrange(a, s.len() as int);
    if k + p.len() > t.len() {
    } else {
        assert(matches_at(t, p, k) == matches_at(s, p, a + k)) by {
            assert(t.subrange(k, k + p.len()) =~= s.subrange(a + k, a + k + p.len()));
        }
        if !matches_at(t, p, k) {
            lemma_find_str_shift(s, p, a, k + 1);
        }
    }
}

/// The fields and description of a task document: front matter is present
/// when the text starts with `---` and a newline and a later line starts with
/// `---`; one newline after that marker is dropped from the description.
pub open spec fn split_spec(b: Seq<char>) -> (Seq<(Seq<char>, Seq<char>)>, Seq<char>) {
    if !(b.len() >= 4 && b.subrange(0, 4) == "---\n"@) {
        (Seq::empty(), b)
    } else {
        let rest = b.subrange(4, b.len() as int);
        let k = find_str_from(rest, "\n---"@, 0);
        if k < 0 {
            (Seq::empty(), b)
        } else {
            let d = rest.subrange(k + 4, rest.len() as int);
            (front_fields(rest.subrange(0, k)), if d.len() > 0 && d[0] == '\n' {
                d.drop_first()
            } else {
                d
            })
        }
    }
}

/// Splits a task document into its front-matter fields and its description.
pub fn split_front_matter(body: &str) -> (r: (Vec<(String, String)>, String))
    ensures
        (fields_view(r.0@), r.1@) == split_spec(body@),
{
    let v = chars_of(body);
    proof {
        reveal_strlit("---\n");
        reveal_strlit("\n---");
    }
    let starts = v.len() >= 4 && v[0] == '-' && v[1] == '-' && v[2] == '-' && v[3] == '\n';
    proof {
        if v@.len() >= 4 {
            if starts {
                assert(v@.subrange(0, 4) =~= "---\n"@);
            } else if v@.subrange(0, 4) == "---\n"@ {
                assert(v@.subrange(0, 4)[0] == '-');
                assert(v@.subrange(0, 4)[1] == '-');
                assert(v@.subrange(0, 4)[2] == '-');
                assert(v@.subrange(0, 4)[3] == '\n');
            }
        }
    }
    if !starts {
        return (Vec::new(), String::from_str(body));
    }
    let pat = chars_of("\n---");
    proof {
        lemma_find_str_shift(v@, pat@, 4, 0);
        lemma_find_str_from(v@, pat@, 4);
    }
    match find_str_in(&v, &pat, 4) {
        None => (Vec::new(), String::from_str(body)),
        Some(k) => {
            let ghost rest = v@.subrange(4, v@.len() as int);
            assert(k + 4 <= v.len());
            let front = string_of_range(&v, 4, k);
            let fields = parse_front_matter(front.as_str());
            let start = if k + 4 < v.len() && v[k + 4] == '\n' {
                k + 5
            } else {
                k + 4
            };
            let desc = string_of_range(&v, start, v.len());
            proof {
                assert(rest.subrange(0, k - 4) =~= v@.subrange(4, k as int));
                let d = rest.subrange(k - 4 + 4, rest.len() as int);
                assert(d =~= v@.subrange(k + 4, v@.len() as int));
                if k + 4 < v@.len() && v@[k + 4] == '\n' {
                    assert(d.drop_first() =~= v@.subrange(k + 5, v@.len() as int));
                }
            }
            (fields, desc)
        },
    }
}

/// One rendered field: `key: value` and a newline.
pub open spec fn field_line(f: (Seq<char>, Seq<char>)) -> Seq<char> {
    f.0 + ": "@ + f.1 + "\n"@
}

/// The rendered fields, one per line.
pub open spec fn render_fields(fs: Seq<(Seq<char>, Seq<char>)>) -> Seq<char>
    decreases fs.len(),
{
    if fs.len() == 0 {
        Seq::empty()
    } else {
        render_fields(fs.drop_last()) + field_line(fs.last())
    }
}

/// A task document: the fields between `---` markers, a blank line, the
/// trimmed description and a final newline.
pub open spec fn render_task(fs: Seq<(Seq<char>, Seq<char>)>, desc: Seq<char>) -> Seq<char> {
    "---\n"@ + render_fields(fs) + "---\n\n"@ + trim(desc) + "\n"@
}

/// Renders fields and a description as a task document.
pub fn render_task_document(fields: &Vec<(String, String)>, description: &str) -> (r: String)
    ensures
        r@ == render_task(fields_view(fields@), description@),
{
    let mut task = String::from_str("---\n");
    let mut i: usize = 0;
    while i < fields.len()
        invariant
            i <= fields@.len(),
            task@ == "---\n"@ + render_fields(fields_view(fields@).take(i as int)),
        decreases fields@.len() - i,
    {
        append(&mut task, fields[i].0.as_str());
        append(&mut task, ": ");
        append(&mut task, fields[i].1.as_str());
        append(&mut task, "\n");
        proof {
            let fs = fields_view(fields@);
            assert(fs.take(i + 1).drop_last() =~= fs.take(i as int));
            assert(fs.take(i + 1).last() == fs[i as int]);
        }
        i = i + 1;
    }
    proof {
        assert(fields_view(fields@).take(fields@.len() as int) =~= fields_view(fields@));
    }
    append(&mut task, "---\n\n");
    let d = trim_str(description);
    append(&mut task, d.as_str());
    append(&mut task, "\n");
    task
}

/// The task document `task send` stores: the sender, the assignee and the
/// title are set; priority, status, kind and dependencies get defaults when
/// absent; other fields are kept in order.
pub open spec fn canonical_spec(
    from: Seq<char>,
    to: Seq<char>,
    title_arg: Option<Seq<char>>,
    body: Seq<char>,
) -> Seq<char> {
    render_task(canonical_fields(from, to, title_arg, body), split_spec(body).1)
}

/// The title a canonical task gets: the one given, else the body's own,
/// else `(untitled task)`.
pub open spec fn canonical_title(title_arg: Option<Seq<char>>, f0: Seq<(Seq<char>, Seq<char>)>) -> Seq<char> {
    match title_arg {
        Some(t) => t,
        None => match lookup(f0, "title"@) {
            Some(t) => t,
            None => "(untitled task)"@,
        },
    }
}

/// The front matter of a canonical task document.
pub open spec fn canonical_fields(
    from: Seq<char>,
    to: Seq<char>,
    title_arg: Option<Seq<char>>,
    body: Seq<char>,
) -> Seq<(Seq<char>, Seq<char>)> {
    let f0 = split_spec(body).0;
    let title = canonical_title(title_arg, f0);
    let f1 = upsert_spec(f0, "from"@, from);
    let f2 = upsert_spec(f1, "to"@, to);
    let f3 = upsert_spec(f2, "title"@, title);
    let f4 = ensure_spec(f3, "priority"@, "normal"@);
    let f5 = ensure_spec(f4, "status"@, "open"@);
    let f6 = ensure_spec(f5, "kind"@, "need"@);
    ensure_spec(f6, "depends_on"@, "[]"@)
}

/// Normalizes a task body into a document with canonical front matter.
pub fn canonical_task_body(
    from: &MailAddress,
    to: &MailAddress,
    title_arg: Option<&str>,
    body: &str,
) -> (r: String)
    ensures
        r@ == canonical_spec(
            address_label(from.fin@, from.pod@),
            address_label(to.fin@, to.pod@),
            match title_arg {
                Some(t) => Some(t@),
                None => None,
            },
            body@,
        ),
{
    let (mut fields, description) = split_front_matter(body);
    let title = match title_arg {
        Some(t) => String::from_str(t),
        None => match field_value(&fields, "title") {
            Some(t) => t,
            None => String::from_str("(untitled task)"),
        },
    };
    let from_label = from.label();
    let to_label = to.label();
    upsert_field(&mut fields, "from", from_label.as_str());
    upsert_field(&mut fields, "to", to_label.as_str());
    upsert_field(&mut fields, "title", title.as_str());
    ensure_field(&mut fields, "priority", "normal");
    ensure_field(&mut fields, "status", "open");
    ensure_field(&mut fields, "kind", "need");
    ensure_field(&mut fields, "depends_on", "[]");
    render_task_document(&fields, description.as_str())
}

/// The document after marking a task done: `status` set to `done`, all other
/// fields kept.
pub open spec fn mark_done_spec(body: Seq<char>) -> Seq<char> {
    render_task(upsert_spec(split_spec(body).0, "status"@, "done"@), split_spec(body).1)
}

/// Sets `status: done` in a task document.
pub fn mark_task_done(body: &str) -> (r: String)
    ensures
        r@ == mark_done_spec(body@),
{
    let (mut fields, description) = split_front_matter(body);
    upsert_field(&mut fields, "status", "done");
    render_task_document(&fields, description.as_str())
}


/// A character a list value may hold without quotes.
pub open spec fn plain_value_char(c: char) -> bool {
    is_alnum(c) || c == '-' || c == '_' || c == '.' || c == '/' || c == ':' || c == '[' || c
        == ']'
}

/// A value shown as is in `key=value` output, or quoted with `\` and `"`
/// escaped.
pub open spec fn quote_spec(v: Seq<char>) -> Seq<char> {
    if forall|i: int| 0 <= i < v.len() ==> plain_value_char(#[trigger] v[i]) {
        v
    } else {
        "\""@ + replace_char(replace_char(v, '\\', "\\\\"@), '"', "\\\""@) + "\""@
    }
}

/// Whether every character of `v` may stand unquoted.
fn all_plain(v: &Vec<char>) -> (r: bool)
    ensures
        r == forall|i: int| 0 <= i < v@.len() ==> plain_value_char(#[trigger] v@[i]),
{
    let mut i: usize = 0;
    while i < v.len()
        invariant
            i <= v@.len(),
            forall|j: int| 0 <= j < i ==> plain_value_char(#[trigger] v@[j]),
        decreases v@.len() - i,
    {
        let c = v[i];
        let ok = ('a' <= c && c <= 'z') || ('A' <= c && c <= 'Z') || ('0' <= c && c <= '9') || c
            == '-' || c == '_' || c == '.' || c == '/' || c == ':' || c == '[' || c == ']';
        if !ok {
            assert(!plain_value_char(v@[i as int]));
            return false;
        }
        i = i + 1;
    }
    true
}

/// Quotes a value for shell-friendly `key=value` output.
pub fn quote_value(value: &str) -> (r: String)
    ensures
        r@ == quote_spec(value@),
{
    let v = chars_of(value);
    if all_plain(&v) {
        return String::from_str(value);
    }
    let a = replace_char_str(value, '\\', "\\\\");
    let b = replace_char_str(a.as_str(), '"', "\\\"");
    let mut r = String::from_str("\"");
    append(&mut r, b.as_str());
    append(&mut r, "\"");
    r
}

/// The rank of a priority: critical and urgent first, then high, normal and
/// medium, low, and anything else last.
pub open spec fn priority_rank(p: Seq<char>) -> nat {
    if p == "critical"@ || p == "urgent"@ {
        0
    } else if p == "high"@ {
        1
    } else if p == "normal"@ || p == "medium"@ {
        2
    } else if p == "low"@ {
        3
    } else {
        9
    }
}

/// The sort key of a priority: its rank, a colon, then the priority.
pub open spec fn priority_key(p: Seq<char>) -> Seq<char> {
    decimal(priority_rank(p)) + ":"@ + p
}

/// The sort key of a priority.
pub fn priority_sort_value(priority: &str) -> (r: String)
    ensures
        r@ == priority_key(priority@),
{
    let rank: u64 = if str_eq(priority, "critical") || str_eq(priority, "urgent") {
        0
    } else if str_eq(priority, "high") {
        1
    } else if str_eq(priority, "normal") || str_eq(priority, "medium") {
        2
    } else if str_eq(priority, "low") {
        3
    } else {
        9
    };
    let mut r = u64_to_decimal(rank);
    append(&mut r, ":");
    append(&mut r, priority);
    r
}

/// The key of a priority of rank below ten opens with that rank's digit.
proof fn lemma_priority_key_head(p: Seq<char>)
    ensures
        priority_key(p).len() > 0,
        priority_key(p)[0] == crate::text::digit_char(priority_rank(p) as int),
{
    assert(priority_rank(p) < 10);
    assert(decimal(priority_rank(p)) == seq![crate::text::digit_char(priority_rank(p) as int)]);
}

/// Sorting by priority ranks by severity: `critical` and `urgent` come
/// before `high`, `high` before `normal` and `medium`, those before `low`,
/// and `low` before any other priority.
pub proof fn law_priority_order(p: Seq<char>, q: Seq<char>)
    ensures
        (p == "critical"@ || p == "urgent"@) && q == "high"@ ==> lex_lt(priority_key(p), priority_key(q)),
        p == "high"@ && (q == "normal"@ || q == "medium"@) ==> lex_lt(priority_key(p), priority_key(q)),
        (p == "normal"@ || p == "medium"@) && q == "low"@ ==> lex_lt(priority_key(p), priority_key(q)),
        p == "low"@ && !(q == "critical"@ || q == "urgent"@ || q == "high"@ || q == "normal"@
            || q == "medium"@ || q == "low"@) ==> lex_lt(priority_key(p), priority_key(q)),
{
    lemma_priority_key_head(p);
    lemma_priority_key_head(q);
    let ds = seq!['0', '1', '2', '3', '4', '5', '6', '7', '8', '9'];
    assert(crate::text::digit_char(0) == ds[0] && crate::text::digit_char(1) == ds[1] && crate::text::digit_char(2) == ds[2]);
    assert(crate::text::digit_char(3) == ds[3] && crate::text::digit_char(9) == ds[9]);
    reveal_strlit("critical");
    reveal_strlit("urgent");
    reveal_strlit("high");
    reveal_strlit("normal");
    reveal_strlit("medium");
    reveal_strlit("low");
    assert("critical"@.len() == 8 && "urgent"@.len() == 6 && "high"@.len() == 4 && "normal"@.len() == 6
        && "medium"@.len() == 6 && "low"@.len() == 3);
    assert("normal"@[0] != "urgent"@[0] && "medium"@[0] != "urgent"@[0] && "medium"@[0] != "normal"@[0]);
    assert("normal"@ != "urgent"@ && "medium"@ != "urgent"@ && "medium"@ != "normal"@);
    assert(priority_rank("critical"@) == 0 && priority_rank("urgent"@) == 0);
    assert(priority_rank("high"@) == 1);
    assert(priority_rank("normal"@) == 2 && priority_rank("medium"@) == 2);
    assert(priority_rank("low"@) == 3);
}

/// The options of `task list` that select and order tasks.
pub struct TaskListArgs {
    pub all: bool,
    pub status: Option<String>,
    pub priority: Option<String>,
    pub kind: Option<String>,
    pub fields: Vec<String>,
    pub sort: Option<String>,
    pub reverse: bool,
}

/// One `key=value` filter: split at the first `=`, both sides trimmed; the
/// key must not be empty.
pub open spec fn head_filter(f: Seq<char>) -> Result<(Seq<char>, Seq<char>), Seq<char>> {
    let i = find_char(f, '=');
    if i < 0 {
        Err("invalid --field "@ + debug_text(f) + "; expected key=value"@)
    } else if trim(f.subrange(0, i)).len() == 0 {
        Err("invalid --field "@ + debug_text(f) + "; key cannot be empty"@)
    } else {
        Ok((trim(f.subrange(0, i)), trim(f.subrange(i + 1, f.len() as int))))
    }
}

/// The filters given as `key=value` texts, or the error of the first bad one.
pub open spec fn field_filters(fs: Seq<Seq<char>>) -> Result<
    Seq<(Seq<char>, Seq<char>)>,
    Seq<char>,
>
    decreases fs.len(),
{
    if fs.len() == 0 {
        Ok(Seq::empty())
    } else {
        match head_filter(fs[0]) {
            Err(e) => Err(e),
            Ok(p) => match field_filters(fs.drop_first()) {
                Ok(rest) => Ok(seq![p] + rest),
                Err(e) => Err(e),
            },
        }
    }
}

/// The filter for one optional front-matter option.
pub open spec fn option_filter(key: Seq<char>, v: Option<String>) -> Seq<(Seq<char>, Seq<char>)> {
    match v {
        Some(s) => seq![(key, s@)],
        None => Seq::empty(),
    }
}

/// All filters of `task list`: status, priority and kind, then each `--field`.
pub open spec fn task_filters_spec(a: TaskListArgs) -> Result<Seq<(Seq<char>, Seq<char>)>, Seq<char>> {
    match field_filters(a.fields@.map_values(|s: String| s@)) {
        Ok(rest) => Ok(option_filter("status"@, a.status) + option_filter("priority"@, a.priority)
            + option_filter("kind"@, a.kind) + rest),
        Err(e) => Err(e),
    }
}

/// Exact-match filters on task front matter.
pub struct TaskFilters {
    pub fields: Vec<(String, String)>,
}

/// Parses one `key=value` filter.
pub(crate) fn parse_field_filter(field: &str) -> (r: Result<(String, String), String>)
    ensures
        match head_filter(field@) {
            Ok(p) => r matches Ok(q) && p == (q.0@, q.1@),
            Err(e) => r matches Err(x) && x@ == e,
        },
{
    let v = chars_of(field);
    proof {
        lemma_find_char_from_bounds(v@, '=', 0);
    }
    match find_char_in(&v, '=', 0) {
        None => {
            let mut e = String::from_str("invalid --field ");
            append(&mut e, debug_quoted(field).as_str());
            append(&mut e, "; expected key=value");
            Err(e)
        },
        Some(i) => {
            let (ka, kb) = trim_bounds(&v, 0, i);
            if ka == kb {
                let mut e = String::from_str("invalid --field ");
                append(&mut e, debug_quoted(field).as_str());
                append(&mut e, "; key cannot be empty");
                return Err(e);
            }
            assert(i < v.len());
            let (va, vb) = trim_bounds(&v, i + 1, v.len());
            let key = string_of_range(&v, ka, kb);
            let value = string_of_range(&v, va, vb);
            Ok((key, value))
        },
    }
}

impl TaskFilters {
    /// The filters selected by `task list` options.
    pub fn new(args: &TaskListArgs) -> (r: Result<TaskFilters, String>)
        ensures
            match task_filters_spec(*args) {
                Ok(fs) => r matches Ok(t) && fields_view(t.fields@) == fs,
                Err(e) => r matches Err(x) && x@ == e,
            },
    {
        let mut fields: Vec<(String, String)> = Vec::new();
        if let Some(status) = &args.status {
            fields.push((String::from_str("status"), status.clone()));
        }
        if let Some(priority) = &args.priority {
            fields.push((String::from_str("priority"), priority.clone()));
        }
        if let Some(kind) = &args.kind {
            fields.push((String::from_str("kind"), kind.clone()));
        }
        let ghost base = fields_view(fields@);
        proof {
            assert(base =~= option_filter("status"@, args.status) + option_filter(
                "priority"@,
                args.priority,
            ) + option_filter("kind"@, args.kind));
        }
        let ghost all = args.fields@.map_values(|s: String| s@);
        proof {
            assert(all.subrange(0, all.len() as int) =~= all);
            assert(fields_view(fields@).subrange(base.len() as int, fields@.len() as int)
                =~= Seq::<(Seq<char>, Seq<char>)>::empty());
            assert(fields_view(fields@).subrange(0, base.len() as int) =~= base);
            match field_filters(all) {
                Ok(rest) => {
                    assert(Seq::<(Seq<char>, Seq<char>)>::empty() + rest =~= rest);
                },
                Err(e) => {},
            }
        }
        let mut i: usize = 0;
        while i < args.fields.len()
            invariant
                i <= args.fields@.len(),
                all == args.fields@.map_values(|s: String| s@),
                base == option_filter("status"@, args.status) + option_filter(
                    "priority"@,
                    args.priority,
                ) + option_filter("kind"@, args.kind),
                field_filters(all) == (match field_filters(all.subrange(i as int, all.len() as int)) {
                    Ok(rest) => Ok(fields_view(fields@).subrange(base.len() as int, fields@.len() as int) + rest),
                    Err(e) => Err(e),
                }),
                fields_view(fields@).subrange(0, base.len() as int) == base,
                base.len() <= fields@.len(),
            decreases args.fields@.len() - i,
        {
            let ghost tail = all.subrange(i as int, all.len() as int);
            proof {
                assert(tail[0] == args.fields@[i as int]@);
                assert(tail.drop_first() =~= all.subrange(i + 1, all.len() as int));
            }
            match parse_field_filter(args.fields[i].as_str()) {
                Err(e) => {
                    return Err(e);
                },
                Ok(p) => {
                    let ghost before = fields_view(fields@);
                    fields.push(p);
                    proof {
                        assert(fields_view(fields@) =~= before.push((p.0@, p.1@)));
                        assert(fields_view(fields@).subrange(base.len() as int, fields@.len() as int)
                            =~= before.subrange(base.len() as int, before.len() as int) + seq![(p.0@, p.1@)]);
                        assert(fields_view(fields@).subrange(0, base.len() as int) =~= before.subrange(0, base.len() as int));
                        match field_filters(all.subrange(i + 1, all.len() as int)) {
                            Ok(rest) => {
                                assert(before.subrange(base.len() as int, before.len() as int) + (seq![(p.0@, p.1@)] + rest)
                                    =~= fields_view(fields@).subrange(base.len() as int, fields@.len() as int) + rest);
                            },
                            Err(e) => {},
                        }
                    }
                },
            }
            i = i + 1;
        }
        proof {
            assert(all.subrange(i as int, all.len() as int) =~= Seq::<Seq<char>>::empty());
            assert(fields_view(fields@) =~= fields_view(fields@).subrange(0, base.len() as int)
                + fields_view(fields@).subrange(base.len() as int, fields@.len() as int));
        }
        Ok(TaskFilters { fields })
    }

    /// Whether every filter field of the task equals the filter value.
    pub fn matches(&self, task: &TaskSummary) -> (r: bool)
        ensures
            r == forall|i: int|
                0 <= i < self.fields@.len() ==> lookup(fields_view(task.fields@), #[trigger] self.fields@[i].0@)
                    == Some(self.fields@[i].1@),
    {
        let mut i: usize = 0;
        while i < self.fields.len()
            invariant
                i <= self.fields@.len(),
                forall|j: int|
                    0 <= j < i ==> lookup(fields_view(task.fields@), #[trigger] self.fields@[j].0@)
                        == Some(self.fields@[j].1@),
            decreases self.fields@.len() - i,
        {
            let ok = match task.field(self.fields[i].0.as_str()) {
                Some(v) => str_eq(v.as_str(), self.fields[i].1.as_str()),
                None => false,
            };
            if !ok {
                return false;
            }
            i = i + 1;
        }
        true
    }
}

/// A task as `task list` shows it: its state directory, id, and fields.
pub struct TaskSummary {
    pub state: String,
    pub id: String,
    pub fields: Vec<(String, String)>,
}

/// The key `task list --sort key` orders by.
pub open spec fn sort_value_spec(t: TaskSummary, key: Seq<char>) -> Seq<char> {
    if key == "state"@ {
        t.state@
    } else if key == "id"@ {
        t.id@
    } else if key == "priority"@ {
        priority_key(
            match lookup(fields_view(t.fields@), "priority"@) {
                Some(p) => p,
                None => Seq::empty(),
            },
        )
    } else {
        match lookup(fields_view(t.fields@), key) {
            Some(v) => v,
            None => Seq::empty(),
        }
    }
}

/// ` key=value` when the field is present.
pub open spec fn shown_field(t: TaskSummary, key: Seq<char>) -> Seq<char> {
    match lookup(fields_view(t.fields@), key) {
        Some(v) => " "@ + key + "="@ + quote_spec(v),
        None => Seq::empty(),
    }
}

/// The `task list` line: state, id, then priority, status, kind and title
/// when present.
pub open spec fn format_spec(t: TaskSummary) -> Seq<char> {
    t.state@ + " "@ + t.id@ + shown_field(t, "priority"@) + shown_field(t, "status"@)
        + shown_field(t, "kind"@) + shown_field(t, "title"@)
}

impl TaskSummary {
    /// The summary of a task document found in `state` under `id`.
    pub fn from_document(state: &str, id: &str, body: &str) -> (r: TaskSummary)
        ensures
            r.state@ == state@,
            r.id@ == id@,
            fields_view(r.fields@) == split_spec(body@).0,
    {
        let (fields, _) = split_front_matter(body);
        TaskSummary { state: String::from_str(state), id: String::from_str(id), fields }
    }

    /// The value of the first field named `key`.
    pub fn field(&self, key: &str) -> (r: Option<String>)
        ensures
            match r {
                Some(v) => lookup(fields_view(self.fields@), key@) == Some(v@),
                None => lookup(fields_view(self.fields@), key@) is None,
            },
    {
        field_value(&self.fields, key)
    }

    /// The text a task is ordered by for one `--sort` field.
    pub fn sort_value(&self, key: &str) -> (r: String)
        ensures
            r@ == sort_value_spec(*self, key@),
    {
        if str_eq(key, "state") {
            self.state.clone()
        } else if str_eq(key, "id") {
            self.id.clone()
        } else if str_eq(key, "priority") {
            let p = match self.field("priority") {
                Some(p) => p,
                None => String::new(),
            };
            priority_sort_value(p.as_str())
        } else {
            match self.field(key) {
                Some(v) => v,
                None => String::new(),
            }
        }
    }

    fn push_shown(&self, line: &mut String, key: &str)
        ensures
            final(line)@ == old(line)@ + shown_field(*self, key@),
    {
        if let Some(value) = self.field(key) {
            append(line, " ");
            append(line, key);
            append(line, "=");
            let q = quote_value(value.as_str());
            append(line, q.as_str());
        }
    }

    /// The shell-friendly `task list` line.
    pub fn format(&self) -> (r: String)
        ensures
            r@ == format_spec(*self),
    {
        let mut line = self.state.clone();
        append(&mut line, " ");
        append(&mut line, self.id.as_str());
        self.push_shown(&mut line, "priority");
        self.push_shown(&mut line, "status");
        self.push_shown(&mut line, "kind");
        self.push_shown(&mut line, "title");
        line
    }
}


/// Lexicographic order of character sequences by code point, as `str`
/// compares (byte order of UTF-8 is code point order).
pub open spec fn lex_lt(a: Seq<char>, b: Seq<char>) -> bool
    decreases a.len(),
{
    if a.len() == 0 {
        b.len() > 0
    } else if b.len() == 0 {
        false
    } else if a[0] != b[0] {
        a[0] < b[0]
    } else {
        lex_lt(a.drop_first(), b.drop_first())
    }
}

pub proof fn lemma_lex_trans(a: Seq<char>, b: Seq<char>, c: Seq<char>)
    requires
        lex_lt(a, b),
        lex_lt(b, c),
    ensures
        lex_lt(a, c),
    decreases a.len(),
{
    if a.len() > 0 && b.len() > 0 && c.len() > 0 && a[0] == b[0] && b[0] == c[0] {
        lemma_lex_trans(a.drop_first(), b.drop_first(), c.drop_first());
    }
}

pub proof fn lemma_lex_irreflexive(a: Seq<char>)
    ensures
        !lex_lt(a, a),
    decreases a.len(),
{
    if a.len() > 0 {
        lemma_lex_irreflexive(a.drop_first());
    }
}

pub proof fn lemma_lex_total(a: Seq<char>, b: Seq<char>)
    ensures
        a == b || lex_lt(a, b) || lex_lt(b, a),
    decreases a.len(),
{
    if a.len() > 0 && b.len() > 0 && a[0] == b[0] {
        lemma_lex_total(a.drop_first(), b.drop_first());
        if a.drop_first() == b.drop_first() {
            assert(a =~= seq![a[0]] + a.drop_first());
            assert(b =~= seq![b[0]] + b.drop_first());
        }
    } else if a.len() == 0 && b.len() == 0 {
        assert(a =~= b);
    }
}

/// `a < b` for strings.
pub fn lex_less(a: &Vec<char>, b: &Vec<char>) -> (r: bool)
    ensures
        r == lex_lt(a@, b@),
{
    let mut i: usize = 0;
    proof {
        assert(a@.subrange(0, a@.len() as int) =~= a@);
        assert(b@.subrange(0, b@.len() as int) =~= b@);
    }
    while i < a.len() && i < b.len() && a[i] == b[i]
        invariant
            i <= a@.len(),
            i <= b@.len(),
            lex_lt(a@, b@) == lex_lt(
                a@.subrange(i as int, a@.len() as int),
                b@.subrange(i as int, b@.len() as int),
            ),
        decreases a@.len() - i,
    {
        proof {
            let x = a@.subrange(i as int, a@.len() as int);
            let y = b@.subrange(i as int, b@.len() as int);
            assert(x.drop_first() =~= a@.subrange(i + 1, a@.len() as int));
            assert(y.drop_first() =~= b@.subrange(i + 1, b@.len() as int));
        }
        i = i + 1;
    }
    proof {
        assert(a@.subrange(0, a@.len() as int) =~= a@);
        assert(b@.subrange(0, b@.len() as int) =~= b@);
    }
    if i == a.len() {
        i < b.len()
    } else if i == b.len() {
        false
    } else {
        a[i] < b[i]
    }
}

/// The order of tasks for a sort key: the key's value, then the id.
pub open spec fn key_lt(a: (Seq<char>, Seq<char>), b: (Seq<char>, Seq<char>)) -> bool {
    lex_lt(a.0, b.0) || (a.0 == b.0 && lex_lt(a.1, b.1))
}

pub proof fn lemma_key_trans(a: (Seq<char>, Seq<char>), b: (Seq<char>, Seq<char>), c: (Seq<char>, Seq<char>))
    requires
        key_lt(a, b),
        key_lt(b, c),
    ensures
        key_lt(a, c),
{
    if lex_lt(a.0, b.0) && lex_lt(b.0, c.0) {
        lemma_lex_trans(a.0, b.0, c.0);
    } else if lex_lt(a.1, b.1) && lex_lt(b.1, c.1) {
        lemma_lex_trans(a.1, b.1, c.1);
    }
}

/// The sort key of a task.
pub open spec fn task_key(t: TaskSummary, key: Seq<char>) -> (Seq<char>, Seq<char>) {
    (sort_value_spec(t, key), t.id@)
}

/// A task as plain text values.
pub open spec fn summary_view(t: TaskSummary) -> (Seq<char>, Seq<char>, Seq<(Seq<char>, Seq<char>)>) {
    (t.state@, t.id@, fields_view(t.fields@))
}

/// Tasks in non-decreasing order of their keys.
pub open spec fn sorted_by_key(ts: Seq<TaskSummary>, key: Seq<char>) -> bool {
    forall|i: int, j: int|
        0 <= i < j < ts.len() ==> !key_lt(task_key(ts[j], key), task_key(ts[i], key))
}

/// Keeps the tasks whose sort key under `k` is `kk`.
pub open spec fn task_has_key(k: Seq<char>, kk: (Seq<char>, Seq<char>)) -> spec_fn(TaskSummary) -> bool {
    |t: TaskSummary| task_key(t, k) == kk
}

/// The tasks of each sort key come in `sorted` in the order they have in
/// `input`.
pub open spec fn keeps_key_order(sorted: Seq<TaskSummary>, input: Seq<TaskSummary>, k: Seq<char>) -> bool {
    forall|kk: (Seq<char>, Seq<char>)| #[trigger]
        sorted.filter(task_has_key(k, kk)) == input.filter(task_has_key(k, kk))
}

/// The key `task list --sort` uses: the given one, else `id`.
pub open spec fn sort_key_of(sort: Option<Seq<char>>) -> Seq<char> {
    match sort {
        Some(k) => k,
        None => "id"@,
    }
}

/// Sorts tasks by the sort key's value and then the id, keeping tasks with
/// equal keys in the order they came in, then reverses the order when asked.
pub fn sort_tasks(tasks: &mut Vec<TaskSummary>, sort: Option<&str>, reverse: bool)
    ensures
        final(tasks)@.map_values(|t: TaskSummary| summary_view(t)).to_multiset() == old(
            tasks,
        )@.map_values(|t: TaskSummary| summary_view(t)).to_multiset(),
        sorted_by_key(
            if reverse {
                final(tasks)@.reverse()
            } else {
                final(tasks)@
            },
            sort_key_of(
                match sort {
                    Some(s) => Some(s@),
                    None => None,
                },
            ),
        ),
        keeps_key_order(
            if reverse {
                final(tasks)@.reverse()
            } else {
                final(tasks)@
            },
            old(tasks)@,
            sort_key_of(
                match sort {
                    Some(s) => Some(s@),
                    None => None,
                },
            ),
        ),
{
    broadcast use vstd::seq_lib::group_to_multiset_ensures;

    let key = match sort {
        Some(s) => s,
        None => "id",
    };
    proof {
        reveal_strlit("id");
    }
    let ghost k = key@;
    let ghost orig = old(tasks)@.map_values(|t: TaskSummary| summary_view(t));
    let mut keys: Vec<(Vec<char>, Vec<char>)> = Vec::new();
    let mut i: usize = 0;
    while i < tasks.len()
        invariant
            i <= tasks@.len(),
            tasks@ == old(tasks)@,
            k == key@,
            keys@.len() == i,
            forall|j: int| 0 <= j < i ==> (#[trigger] keys@[j]).0@ == task_key(tasks@[j], k).0
                && keys@[j].1@ == task_key(tasks@[j], k).1,
        decreases tasks@.len() - i,
    {
        let sv = tasks[i].sort_value(key);
        keys.push((chars_of(sv.as_str()), chars_of(tasks[i].id.as_str())));
        i = i + 1;
    }
    let mut out: Vec<TaskSummary> = Vec::new();
    proof {
        assert forall|kk: (Seq<char>, Seq<char>)| #[trigger]
            out@.filter(task_has_key(k, kk)) + tasks@.filter(task_has_key(k, kk)) == old(
                tasks,
            )@.filter(task_has_key(k, kk)) by {
            crate::stable::lemma_filter_empty(out@, task_has_key(k, kk));
            assert(out@.filter(task_has_key(k, kk)) + tasks@.filter(task_has_key(k, kk))
                =~= tasks@.filter(task_has_key(k, kk)));
        }
    }
    while tasks.len() > 0
        invariant
            keys@.len() == tasks@.len(),
            forall|kk: (Seq<char>, Seq<char>)| #[trigger]
                out@.filter(task_has_key(k, kk)) + tasks@.filter(task_has_key(k, kk)) == old(
                    tasks,
                )@.filter(task_has_key(k, kk)),
            forall|j: int| 0 <= j < tasks@.len() ==> (#[trigger] keys@[j]).0@ == task_key(tasks@[j], k).0
                && keys@[j].1@ == task_key(tasks@[j], k).1,
            tasks@.map_values(|t: TaskSummary| summary_view(t)).to_multiset().add(
                out@.map_values(|t: TaskSummary| summary_view(t)).to_multiset(),
            ) == orig.to_multiset(),
            sorted_by_key(out@, k),
            forall|a: int, b: int|
                0 <= a < out@.len() && 0 <= b < tasks@.len() ==> !key_lt(
                    task_key(#[trigger] tasks@[b], k),
                    task_key(#[trigger] out@[a], k),
                ),
        decreases tasks@.len(),
    {
        let mut best: usize = 0;
        let mut j: usize = 1;
        proof {
            lemma_lex_irreflexive(task_key(tasks@[0], k).0);
            lemma_lex_irreflexive(task_key(tasks@[0], k).1);
        }
        while j < tasks.len()
            invariant
                keys@.len() == tasks@.len(),
                forall|x: int| 0 <= x < tasks@.len() ==> (#[trigger] keys@[x]).0@ == task_key(tasks@[x], k).0
                    && keys@[x].1@ == task_key(tasks@[x], k).1,
                0 <= best < j <= tasks@.len(),
                forall|x: int| 0 <= x < j ==> !key_lt(task_key(#[trigger] tasks@[x], k), task_key(tasks@[best as int], k)),
                forall|x: int| 0 <= x < best ==> task_key(#[trigger] tasks@[x], k) != task_key(tasks@[best as int], k),
            decreases tasks@.len() - j,
        {
            let lt0 = lex_less(&keys[j].0, &keys[best].0);
            let eq0 = chars_eq(&keys[j].0, &keys[best].0);
            let lt1 = lex_less(&keys[j].1, &keys[best].1);
            if lt0 || (eq0 && lt1) {
                proof {
                    assert forall|x: int| 0 <= x < j implies !key_lt(task_key(#[trigger] tasks@[x], k), task_key(tasks@[j as int], k)) by {
                        if key_lt(task_key(tasks@[x], k), task_key(tasks@[j as int], k)) {
                            lemma_key_trans(task_key(tasks@[x], k), task_key(tasks@[j as int], k), task_key(tasks@[best as int], k));
                        }
                    }
                    lemma_lex_irreflexive(task_key(tasks@[j as int], k).0);
                    lemma_lex_irreflexive(task_key(tasks@[j as int], k).1);
                }
                best = j;
            }
            j = j + 1;
        }
        let ghost before_tasks = tasks@;
        let ghost before_out = out@;
        let t = tasks.remove(best);
        let _ = keys.remove(best);
        let ghost vt = before_tasks.map_values(|t: TaskSummary| summary_view(t));
        let ghost vo = before_out.map_values(|t: TaskSummary| summary_view(t));
        proof {
            assert(tasks@.map_values(|t: TaskSummary| summary_view(t)) =~= vt.remove(best as int));
            assert(vt[best as int] == summary_view(t));
            vt.to_multiset_ensures();
            vo.to_multiset_ensures();
            assert(vt.remove(best as int).to_multiset() =~= vt.to_multiset().remove(vt[best as int]));
        }
        out.push(t);
        proof {
            assert forall|kk: (Seq<char>, Seq<char>)| #[trigger]
                out@.filter(task_has_key(k, kk)) + tasks@.filter(task_has_key(k, kk)) == old(
                    tasks,
                )@.filter(task_has_key(k, kk)) by {
                let p = task_has_key(k, kk);
                assert(p(before_tasks[best as int]) ==> forall|x: int|
                    0 <= x < best ==> !p(#[trigger] before_tasks[x]));
                crate::stable::lemma_filter_move(before_out, before_tasks, best as int, p);
            }
            assert(out@.map_values(|t: TaskSummary| summary_view(t)) =~= vo.push(summary_view(t)));
            assert(vo.push(summary_view(t)).to_multiset() =~= vo.to_multiset().insert(summary_view(t)));
            assert(vt.to_multiset().count(summary_view(t)) > 0);
            assert(vt.to_multiset().remove(summary_view(t)).add(vo.to_multiset().insert(summary_view(t)))
                =~= vt.to_multiset().add(vo.to_multiset()));
            assert forall|a: int, b: int|
                0 <= a < out@.len() && 0 <= b < tasks@.len() implies !key_lt(
                    task_key(#[trigger] tasks@[b], k),
                    task_key(#[trigger] out@[a], k),
                ) by {
                if b < best {
                    assert(tasks@[b] == before_tasks[b]);
                } else {
                    assert(tasks@[b] == before_tasks[b + 1]);
                }
            }
        }
    }
    proof {
        assert forall|kk: (Seq<char>, Seq<char>)| #[trigger]
            out@.filter(task_has_key(k, kk)) == old(tasks)@.filter(task_has_key(k, kk)) by {
            crate::stable::lemma_filter_empty(tasks@, task_has_key(k, kk));
            assert(out@.filter(task_has_key(k, kk)) + tasks@.filter(task_has_key(k, kk))
                =~= out@.filter(task_has_key(k, kk)));
        }
    }
    if reverse {
        let mut rev: Vec<TaskSummary> = Vec::new();
        let ghost sorted = out@;
        while out.len() > 0
            invariant
                out@ == sorted.subrange(0, out@.len() as int),
                out@.len() <= sorted.len(),
                rev@ == sorted.subrange(out@.len() as int, sorted.len() as int).reverse(),
            decreases out@.len(),
        {
            let t = out.pop().unwrap();
            proof {
                assert(rev@.push(t) =~= sorted.subrange(out@.len() as int, sorted.len() as int).reverse());
            }
            rev.push(t);
        }
        proof {
            assert(sorted.subrange(0, sorted.len() as int) =~= sorted);
            assert(rev@.reverse() =~= sorted);
            sorted.lemma_reverse_to_multiset();
            assert(rev@.map_values(|t: TaskSummary| summary_view(t)) =~= sorted.map_values(
                |t: TaskSummary| summary_view(t),
            ).reverse());
            sorted.map_values(|t: TaskSummary| summary_view(t)).lemma_reverse_to_multiset();
        }
        *tasks = rev;
    } else {
        *tasks = out;
    }
    proof {
        assert(sort_key_of(
            match sort {
                Some(s) => Some(s@),
                None => None,
            },
        ) == k);
    }
}

proof fn lemma_index_same_keys(
    fs: Seq<(Seq<char>, Seq<char>)>,
    gs: Seq<(Seq<char>, Seq<char>)>,
    key: Seq<char>,
    i: int,
)
    requires
        fs.len() == gs.len(),
        forall|j: int| 0 <= j < fs.len() ==> fs[j].0 == gs[j].0,
    ensures
        field_index_from(fs, key, i) == field_index_from(gs, key, i),
    decreases fs.len() - i,
{
    if 0 <= i < fs.len() {
        lemma_index_same_keys(fs, gs, key, i + 1);
    }
}

proof fn lemma_index_push(
    fs: Seq<(Seq<char>, Seq<char>)>,
    x: (Seq<char>, Seq<char>),
    key: Seq<char>,
    i: int,
)
    requires
        0 <= i <= fs.len(),
    ensures
        field_index_from(fs.push(x), key, i) == (if field_index_from(fs, key, i) >= 0 {
            field_index_from(fs, key, i)
        } else if x.0 == key {
            fs.len() as int
        } else {
            -1
        }),
    decreases fs.len() - i,
{
    if i < fs.len() {
        assert(fs.push(x)[i] == fs[i]);
        lemma_index_push(fs, x, key, i + 1);
    } else {
        assert(fs.push(x)[i] == x);
        assert(field_index_from(fs.push(x), key, i + 1) == -1);
    }
}

/// After a field is set, it reads back as the new value, and every other
/// field reads as before.
pub proof fn law_upsert_reads_back(
    fs: Seq<(Seq<char>, Seq<char>)>,
    key: Seq<char>,
    value: Seq<char>,
    other: Seq<char>,
)
    ensures
        lookup(upsert_spec(fs, key, value), key) == Some(value),
        other != key ==> lookup(upsert_spec(fs, key, value), other) == lookup(fs, other),
{
    lemma_field_index_bounds(fs, key, 0);
    lemma_field_index_bounds(fs, other, 0);
    let j = field_index(fs, key);
    if j < 0 {
        lemma_index_push(fs, (key, value), key, 0);
        lemma_index_push(fs, (key, value), other, 0);
        let k = field_index(fs, other);
        if k >= 0 {
            assert(fs.push((key, value))[k] == fs[k]);
        }
    } else {
        let gs = fs.update(j, (key, value));
        lemma_index_same_keys(fs, gs, key, 0);
        lemma_index_same_keys(fs, gs, other, 0);
        let k = field_index(fs, other);
        if k >= 0 && other != key {
            assert(k != j);
            assert(gs[k] == fs[k]);
        }
    }
}

/// Adding a default keeps a field that is already set and otherwise sets
/// it; every other field reads as before.
pub proof fn law_ensure_keeps_existing(
    fs: Seq<(Seq<char>, Seq<char>)>,
    key: Seq<char>,
    value: Seq<char>,
    other: Seq<char>,
)
    ensures
        lookup(ensure_spec(fs, key, value), key) == (match lookup(fs, key) {
            Some(x) => Some(x),
            None => Some(value),
        }),
        other != key ==> lookup(ensure_spec(fs, key, value), other) == lookup(fs, other),
{
    lemma_field_index_bounds(fs, key, 0);
    lemma_field_index_bounds(fs, other, 0);
    if lookup(fs, key) is None {
        lemma_index_push(fs, (key, value), key, 0);
        lemma_index_push(fs, (key, value), other, 0);
        let k = field_index(fs, other);
        if k >= 0 {
            assert(fs.push((key, value))[k] == fs[k]);
        }
    }
}

/// The error for an item path without a file name.
pub open spec fn no_name_error(path: Seq<char>) -> Seq<char> {
    "message path has no filename: "@ + path
}

/// The task summaries of the files of one state, given each file's path and
/// contents, in order; refused at the first path without a file name.
pub open spec fn collect_spec(state: Seq<char>, items: Seq<(Seq<char>, Seq<char>)>) -> Result<
    Seq<(Seq<char>, Seq<char>, Seq<(Seq<char>, Seq<char>)>)>,
    Seq<char>,
>
    decreases items.len(),
{
    if items.len() == 0 {
        Ok(Seq::empty())
    } else {
        match collect_spec(state, items.drop_last()) {
            Err(e) => Err(e),
            Ok(a) => match crate::paths::file_name(items.last().0) {
                None => Err(no_name_error(items.last().0)),
                Some(id) => Ok(a.push((state, id, split_spec(items.last().1).0))),
            },
        }
    }
}

/// A refusal on a prefix is the refusal of every longer prefix.
proof fn lemma_collect_err(state: Seq<char>, items: Seq<(Seq<char>, Seq<char>)>, k: int, n: int)
    requires
        0 < k <= n <= items.len(),
        collect_spec(state, items.subrange(0, k)) is Err,
    ensures
        collect_spec(state, items.subrange(0, n)) == collect_spec(state, items.subrange(0, k)),
    decreases n - k,
{
    if n > k {
        lemma_collect_err(state, items, k, n - 1);
        assert(items.subrange(0, n).drop_last() =~= items.subrange(0, n - 1));
    }
}

/// What collecting appends: the summaries of the files before the first
/// one whose name gives no id (all of them when every name gives one).
pub open spec fn collected_spec(state: Seq<char>, items: Seq<(Seq<char>, Seq<char>)>) -> Seq<
    (Seq<char>, Seq<char>, Seq<(Seq<char>, Seq<char>)>),
>
    decreases items.len(),
{
    if items.len() == 0 {
        Seq::empty()
    } else {
        match collect_spec(state, items.drop_last()) {
            Err(_) => collected_spec(state, items.drop_last()),
            Ok(a) => match crate::paths::file_name(items.last().0) {
                None => a,
                Some(id) => a.push((state, id, split_spec(items.last().1).0)),
            },
        }
    }
}

/// Once a prefix is refused, longer prefixes append nothing more.
proof fn lemma_collected_after_err(state: Seq<char>, items: Seq<(Seq<char>, Seq<char>)>, k: int, n: int)
    requires
        0 < k <= n <= items.len(),
        collect_spec(state, items.subrange(0, k)) is Err,
    ensures
        collected_spec(state, items.subrange(0, n)) == collected_spec(state, items.subrange(0, k)),
    decreases n - k,
{
    if n > k {
        lemma_collected_after_err(state, items, k, n - 1);
        lemma_collect_err(state, items, k, n - 1);
        assert(items.subrange(0, n).drop_last() =~= items.subrange(0, n - 1));
    }
}

/// Appends the summaries of the task files of one state, given each file's
/// path and contents.
pub fn collect_tasks_in_state(state: &str, items: &Vec<(String, String)>, tasks: &mut Vec<TaskSummary>) -> (r:
    Result<(), String>)
    ensures
        match collect_spec(state@, fields_view(items@)) {
            Ok(a) => r is Ok && final(tasks)@.map_values(|t: TaskSummary| summary_view(t)) == old(
                tasks,
            )@.map_values(|t: TaskSummary| summary_view(t)) + a,
            Err(e) => r matches Err(x) && x@ == e,
        },
        collect_spec(state@, fields_view(items@)) is Err ==> final(tasks)@.map_values(
            |t: TaskSummary| summary_view(t),
        ) == old(tasks)@.map_values(|t: TaskSummary| summary_view(t)) + collected_spec(
            state@,
            fields_view(items@),
        ),
{
    let ghost its = fields_view(items@);
    let ghost start = tasks@.map_values(|t: TaskSummary| summary_view(t));
    let mut i: usize = 0;
    while i < items.len()
        invariant
            its == fields_view(items@),
            start == old(tasks)@.map_values(|t: TaskSummary| summary_view(t)),
            i <= items@.len(),
            collect_spec(state@, its.subrange(0, i as int)) matches Ok(a) && tasks@.map_values(
                |t: TaskSummary| summary_view(t),
            ) == start + a,
        decreases items@.len() - i,
    {
        let ghost a = collect_spec(state@, its.subrange(0, i as int))->Ok_0;
        proof {
            assert(its.subrange(0, i + 1).drop_last() =~= its.subrange(0, i as int));
            assert(its.subrange(0, i + 1).last() == its[i as int]);
        }
        let id = match crate::mailbox::storage::message_id(items[i].0.as_str()) {
            Ok(id) => id,
            Err(e) => {
                proof {
                    assert(collected_spec(state@, its.subrange(0, i + 1)) == a);
                    lemma_collect_err(state@, its, i + 1, its.len() as int);
                    lemma_collected_after_err(state@, its, i + 1, its.len() as int);
                    assert(its.subrange(0, its.len() as int) =~= its);
                }
                return Err(e);
            },
        };
        let t = TaskSummary::from_document(state, id.as_str(), items[i].1.as_str());
        let ghost before = tasks@;
        tasks.push(t);
        proof {
            assert(tasks@.map_values(|t: TaskSummary| summary_view(t)) =~= before.map_values(
                |t: TaskSummary| summary_view(t),
            ).push(summary_view(tasks@.last())));
        }
        i = i + 1;
    }
    proof {
        assert(its.subrange(0, i as int) =~= its);
    }
    Ok(())
}

/// The summaries of a fin's tasks: those in `new`, then, when done tasks
/// are included, those in `cur`.
pub open spec fn collect_tasks_spec(
    new_items: Seq<(Seq<char>, Seq<char>)>,
    cur_items: Seq<(Seq<char>, Seq<char>)>,
    include_done: bool,
) -> Result<Seq<(Seq<char>, Seq<char>, Seq<(Seq<char>, Seq<char>)>)>, Seq<char>> {
    match collect_spec("new"@, new_items) {
        Err(e) => Err(e),
        Ok(a) => if include_done {
            match collect_spec("cur"@, cur_items) {
                Err(e) => Err(e),
                Ok(b) => Ok(a + b),
            }
        } else {
            Ok(a)
        },
    }
}

/// The summaries of a fin's tasks from the files of `new` and `cur`.
pub fn collect_tasks(new_items: &Vec<(String, String)>, cur_items: &Vec<(String, String)>, include_done: bool) -> (r:
    Result<Vec<TaskSummary>, String>)
    ensures
        match collect_tasks_spec(fields_view(new_items@), fields_view(cur_items@), include_done) {
            Ok(a) => r matches Ok(v) && v@.map_values(|t: TaskSummary| summary_view(t)) == a,
            Err(e) => r matches Err(x) && x@ == e,
        },
{
    let mut tasks: Vec<TaskSummary> = Vec::new();
    proof {
        assert(tasks@.map_values(|t: TaskSummary| summary_view(t)) =~= Seq::<
            (Seq<char>, Seq<char>, Seq<(Seq<char>, Seq<char>)>),
        >::empty());
    }
    collect_tasks_in_state("new", new_items, &mut tasks)?;
    if include_done {
        collect_tasks_in_state("cur", cur_items, &mut tasks)?;
    }
    proof {
        reveal_strlit("new");
        reveal_strlit("cur");
    }
    Ok(tasks)
}

} // verus!
