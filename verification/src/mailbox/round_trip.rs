//! What a task document gives back when it is read again: the front matter
//! that rendering writes is the front matter that splitting reads.

use vstd::prelude::*;
use crate::mailbox::tasks::{
    canonical_fields, canonical_spec, canonical_title, ensure_spec, field_line, front_fields,
    law_ensure_keeps_existing, law_upsert_reads_back, lookup, mark_done_spec, parse_line,
    parse_lines, render_fields, render_task, split_spec, upsert_spec,
};
use crate::text::{
    back_ws_to, find_char, find_char_from, is_ws, lemma_find_char_from_bounds, lines, lines_from,
    skip_ws_from, starts_with, strip_cr, trim,
};

verus! {

/// Text without white space at either end.
pub open spec fn trimmed(x: Seq<char>) -> bool {
    x.len() == 0 || (!is_ws(x[0]) && !is_ws(x.last()))
}

/// A field as parsing yields it: a non-empty key without `:`, both sides
/// trimmed and on one line.
pub open spec fn field_shape(f: (Seq<char>, Seq<char>)) -> bool {
    &&& f.0.len() > 0
    &&& trimmed(f.0)
    &&& trimmed(f.1)
    &&& !f.0.contains(':')
    &&& !f.0.contains('\n')
    &&& !f.1.contains('\n')
}

/// A field that reads back as written: of the parsed shape, with a key that
/// does not open with `---`.
pub open spec fn field_ok(f: (Seq<char>, Seq<char>)) -> bool {
    field_shape(f) && !starts_with(f.0, "---"@)
}

/// Every field reads back as written.
pub open spec fn fields_ok(fs: Seq<(Seq<char>, Seq<char>)>) -> bool {
    forall|i: int| 0 <= i < fs.len() ==> field_ok(#[trigger] fs[i])
}

proof fn lemma_skip_ws(s: Seq<char>, i: int)
    requires
        0 <= i <= s.len(),
    ensures
        i <= skip_ws_from(s, i) <= s.len(),
        skip_ws_from(s, i) < s.len() ==> !is_ws(s[skip_ws_from(s, i)]),
    decreases s.len() - i,
{
    if i < s.len() && is_ws(s[i]) {
        lemma_skip_ws(s, i + 1);
    }
}

proof fn lemma_back_ws(s: Seq<char>, j: int)
    requires
        0 <= j <= s.len(),
    ensures
        0 <= back_ws_to(s, j) <= j,
        back_ws_to(s, j) > 0 ==> !is_ws(s[back_ws_to(s, j) - 1]),
    decreases j,
{
    if j > 0 && is_ws(s[j - 1]) {
        lemma_back_ws(s, j - 1);
    }
}

/// Trimmed text is its own trim.
proof fn lemma_trim_trimmed(x: Seq<char>)
    requires
        trimmed(x),
    ensures
        trim(x) == x,
{
    if x.len() > 0 {
        assert(skip_ws_from(x, 0) == 0);
        assert(back_ws_to(x, x.len() as int) == x.len());
        assert(x.subrange(0, x.len() as int) =~= x);
    }
}

/// The trim of any text is trimmed, and is a piece of it.
proof fn lemma_trim_shape(x: Seq<char>)
    ensures
        trimmed(trim(x)),
        exists|a: int, b: int| 0 <= a <= b <= x.len() && trim(x) == x.subrange(a, b),
{
    lemma_skip_ws(x, 0);
    lemma_back_ws(x, x.len() as int);
    let a = skip_ws_from(x, 0);
    let b = back_ws_to(x, x.len() as int);
    if a < b {
        assert(trim(x) == x.subrange(a, b));
        assert(trim(x).last() == x[b - 1]);
    } else {
        assert(trim(x) == x.subrange(0, 0));
    }
}

/// A trimmed value after one space trims back to itself.
proof fn lemma_trim_after_space(v: Seq<char>)
    requires
        trimmed(v),
    ensures
        trim(" "@ + v) == v,
{
    let s = " "@ + v;
    assert(s.len() == v.len() + 1 && s[0] == ' ') by {
        reveal_strlit(" ");
    }
    assert(is_ws(s[0]));
    if v.len() == 0 {
        assert(skip_ws_from(s, 1) == 1);
        assert(skip_ws_from(s, 0) == 1);
        lemma_back_ws(s, 1);
        assert(trim(s) =~= v);
    } else {
        assert(s[1] == v[0]);
        assert(skip_ws_from(s, 1) == 1);
        assert(skip_ws_from(s, 0) == 1);
        assert(s[s.len() - 1] == v.last());
        assert(back_ws_to(s, s.len() as int) == s.len());
        assert(s.subrange(1, s.len() as int) =~= v);
    }
}

/// A trimmed text between two newlines trims back to itself.
proof fn lemma_trim_between_newlines(v: Seq<char>)
    requires
        trimmed(v),
    ensures
        trim("\n"@ + v + "\n"@) == v,
{
    let nl = "\n"@;
    assert(nl.len() == 1 && nl[0] == '\n') by {
        reveal_strlit("\n");
    }
    let s = nl + v + nl;
    assert(s.len() == v.len() + 2 && s[0] == '\n' && s[s.len() - 1] == '\n');
    assert(is_ws('\n'));
    if v.len() == 0 {
        assert(skip_ws_from(s, 2) == 2);
        assert(skip_ws_from(s, 1) == 2);
        assert(skip_ws_from(s, 0) == 2);
        assert(back_ws_to(s, 0) == 0);
        assert(back_ws_to(s, 1) == 0);
        assert(back_ws_to(s, 2) == 0);
        assert(trim(s) =~= v);
    } else {
        assert(s[1] == v[0]);
        assert(skip_ws_from(s, 1) == 1);
        assert(skip_ws_from(s, 0) == 1);
        assert(s[s.len() - 2] == v.last());
        assert(back_ws_to(s, s.len() - 1) == s.len() - 1);
        assert(back_ws_to(s, s.len() as int) == s.len() - 1);
        assert(s.subrange(1, s.len() - 1) =~= v);
    }
}

/// The first `:` of a line is at `k` when `l[k]` is one and none comes before.
proof fn lemma_first_colon(l: Seq<char>, k: int)
    requires
        0 <= k < l.len(),
        l[k] == ':',
        forall|j: int| 0 <= j < k ==> l[j] != ':',
    ensures
        find_char(l, ':') == k,
{
    lemma_find_char_from_bounds(l, ':', 0);
}

/// The line of a field reads back as the field.
proof fn lemma_parse_field_line(f: (Seq<char>, Seq<char>))
    requires
        field_ok(f),
    ensures
        parse_line(f.0 + ": "@ + f.1) == seq![f],
{
    let k = f.0;
    let v = f.1;
    let l = k + ": "@ + v;
    let sep = ": "@;
    assert(sep.len() == 2 && sep[0] == ':' && sep[1] == ' ') by {
        reveal_strlit(": ");
    }
    assert(l[k.len() as int] == ':');
    assert forall|j: int| 0 <= j < k.len() implies l[j] != ':' by {
        assert(l[j] == k[j]);
        if k[j] == ':' {
            assert(k.contains(':'));
        }
    }
    lemma_first_colon(l, k.len() as int);
    assert(l.subrange(0, k.len() as int) =~= k);
    lemma_trim_trimmed(k);
    assert(l.subrange(k.len() as int + 1, l.len() as int) =~= " "@ + v) by {
        reveal_strlit(" ");
    }
    lemma_trim_after_space(v);
}

/// The line a field is written on, without its newline.
pub open spec fn line_text(f: (Seq<char>, Seq<char>)) -> Seq<char> {
    f.0 + ": "@ + f.1
}

/// A field's line holds no newline, is not empty and does not end in a
/// carriage return.
proof fn lemma_line_text_shape(f: (Seq<char>, Seq<char>))
    requires
        field_ok(f),
    ensures
        !line_text(f).contains('\n'),
        line_text(f).len() >= 3,
        line_text(f).last() != '\r',
        field_line(f) == line_text(f) + "\n"@,
{
    let k = f.0;
    let v = f.1;
    let l = line_text(f);
    let sep = ": "@;
    assert(sep.len() == 2 && sep[0] == ':' && sep[1] == ' ') by {
        reveal_strlit(": ");
    }
    assert forall|j: int| 0 <= j < l.len() implies l[j] != '\n' by {
        if j < k.len() {
            assert(l[j] == k[j]);
            if k[j] == '\n' {
                assert(k.contains('\n'));
            }
        } else if j < k.len() + 2 {
            assert(l[j] == sep[j - k.len()]);
        } else {
            assert(l[j] == v[j - k.len() - 2]);
            if v[j - k.len() - 2] == '\n' {
                assert(v.contains('\n'));
            }
        }
    }
    if v.len() > 0 {
        assert(l.last() == v.last());
        assert(is_ws('\r'));
    } else {
        assert(l.last() == ' ');
    }
}

/// Lines read from `i` on split at a line start `m`: those before it, then
/// those from it.
proof fn lemma_lines_split_at(s: Seq<char>, m: int, i: int)
    requires
        0 <= i <= m <= s.len(),
        m == 0 || s[m - 1] == '\n',
    ensures
        lines_from(s, i) == lines_from(s.subrange(0, m), i) + lines_from(s, m),
    decreases m - i,
{
    let p = s.subrange(0, m);
    if i == m {
        assert(lines_from(p, i) =~= Seq::<Seq<char>>::empty());
        assert(lines_from(s, i) =~= lines_from(p, i) + lines_from(s, m));
    } else {
        lemma_find_char_from_bounds(s, '\n', i);
        lemma_find_char_from_bounds(p, '\n', i);
        let e = find_char_from(s, '\n', i);
        let e2 = find_char_from(p, '\n', i);
        assert(s[m - 1] == '\n');
        assert(p[m - 1] == '\n');
        assert(0 <= e <= m - 1);
        assert(0 <= e2 <= m - 1);
        if e < e2 {
            assert(p[e] == s[e]);
        } else if e2 < e {
            assert(p[e2] == s[e2]);
        }
        assert(e == e2);
        lemma_lines_split_at(s, m, e + 1);
        assert(s.subrange(i, e) =~= p.subrange(i, e));
        assert(lines_from(s, i) == seq![strip_cr(s.subrange(i, e))] + lines_from(s, e + 1));
        assert(lines_from(p, i) == seq![strip_cr(p.subrange(i, e))] + lines_from(p, e + 1));
        assert(lines_from(s, i) =~= lines_from(p, i) + lines_from(s, m));
    }
}

/// The lines after a line start `m` where one last line without a newline
/// begins: just that line, whether or not a newline ends it.
proof fn lemma_last_line(a: Seq<char>, l: Seq<char>, nl: bool)
    requires
        a.len() == 0 || a.last() == '\n',
        l.len() > 0,
        !l.contains('\n'),
        l.last() != '\r',
    ensures
        lines(a + l + (if nl { "\n"@ } else { Seq::<char>::empty() })) == lines(a) + seq![l],
{
    let t = if nl { "\n"@ } else { Seq::<char>::empty() };
    assert(nl ==> t.len() == 1 && t[0] == '\n') by {
        reveal_strlit("\n");
    }
    let s = a + l + t;
    let m = a.len() as int;
    assert(s.subrange(0, m) =~= a);
    if m > 0 {
        assert(s[m - 1] == a.last());
    }
    lemma_lines_split_at(s, m, 0);
    lemma_find_char_from_bounds(s, '\n', m);
    let e = find_char_from(s, '\n', m);
    assert forall|j: int| m <= j < m + l.len() implies s[j] != '\n' by {
        assert(s[j] == l[j - m]);
        if l[j - m] == '\n' {
            assert(l.contains('\n'));
        }
    }
    assert(s.subrange(m, m + l.len()) =~= l);
    if nl {
        assert(s[m + l.len()] == '\n');
        assert(e == m + l.len());
        assert(strip_cr(l) == l);
        assert(lines_from(s, e + 1) =~= Seq::<Seq<char>>::empty());
        assert(lines_from(s, m) =~= seq![l]);
    } else {
        assert(s.len() == m + l.len());
        assert(e == -1);
        assert(lines_from(s, m) =~= seq![l]);
    }
}

/// The rendered fields end with a newline, and read back as one line per
/// field, with or without that final newline.
proof fn lemma_render_lines(fs: Seq<(Seq<char>, Seq<char>)>)
    requires
        fields_ok(fs),
    ensures
        render_fields(fs).len() == 0 || render_fields(fs).last() == '\n',
        lines(render_fields(fs)) == fs.map_values(|f: (Seq<char>, Seq<char>)| line_text(f)),
        fs.len() > 0 ==> lines(render_fields(fs).drop_last()) == fs.map_values(
            |f: (Seq<char>, Seq<char>)| line_text(f),
        ),
    decreases fs.len(),
{
    if fs.len() == 0 {
        assert(lines(render_fields(fs)) =~= Seq::<Seq<char>>::empty());
        assert(fs.map_values(|f: (Seq<char>, Seq<char>)| line_text(f)) =~= Seq::<Seq<char>>::empty());
    } else {
        let d = fs.drop_last();
        let f = fs.last();
        assert(fields_ok(d)) by {
            assert forall|i: int| 0 <= i < d.len() implies field_ok(#[trigger] d[i]) by {
                assert(d[i] == fs[i]);
            }
        }
        assert(field_ok(f)) by {
            assert(f == fs[fs.len() - 1]);
        }
        lemma_render_lines(d);
        lemma_line_text_shape(f);
        let a = render_fields(d);
        let l = line_text(f);
        assert(render_fields(fs) =~= a + l + "\n"@);
        assert("\n"@.len() == 1 && "\n"@[0] == '\n') by {
            reveal_strlit("\n");
        }
        lemma_last_line(a, l, true);
        lemma_last_line(a, l, false);
        assert(a + l + "\n"@ =~= a + l + (if true { "\n"@ } else { Seq::<char>::empty() }));
        assert(a + l =~= a + l + (if false { "\n"@ } else { Seq::<char>::empty() }));
        assert(render_fields(fs).drop_last() =~= a + l);
        assert(fs.map_values(|f: (Seq<char>, Seq<char>)| line_text(f)) =~= d.map_values(
            |f: (Seq<char>, Seq<char>)| line_text(f),
        ) + seq![l]);
    }
}

/// Parsing two runs of lines is parsing each.
proof fn lemma_parse_lines_append(a: Seq<Seq<char>>, b: Seq<Seq<char>>)
    ensures
        parse_lines(a + b) == parse_lines(a) + parse_lines(b),
    decreases a.len(),
{
    if a.len() == 0 {
        assert(a + b =~= b);
        assert(parse_lines(a) =~= Seq::<(Seq<char>, Seq<char>)>::empty());
        assert(parse_lines(a + b) =~= parse_lines(a) + parse_lines(b));
    } else {
        assert((a + b).drop_first() =~= a.drop_first() + b);
        assert((a + b)[0] == a[0]);
        lemma_parse_lines_append(a.drop_first(), b);
        assert(parse_lines(a + b) =~= parse_lines(a) + parse_lines(b));
    }
}

/// The lines of well-formed fields parse back into those fields.
proof fn lemma_parse_field_lines(fs: Seq<(Seq<char>, Seq<char>)>)
    requires
        fields_ok(fs),
    ensures
        parse_lines(fs.map_values(|f: (Seq<char>, Seq<char>)| line_text(f))) == fs,
    decreases fs.len(),
{
    if fs.len() == 0 {
        assert(fs.map_values(|f: (Seq<char>, Seq<char>)| line_text(f)) =~= Seq::<Seq<char>>::empty());
        assert(parse_lines(Seq::<Seq<char>>::empty()) =~= fs);
    } else {
        let d = fs.drop_last();
        let f = fs.last();
        assert(fields_ok(d)) by {
            assert forall|i: int| 0 <= i < d.len() implies field_ok(#[trigger] d[i]) by {
                assert(d[i] == fs[i]);
            }
        }
        assert(field_ok(f)) by {
            assert(f == fs[fs.len() - 1]);
        }
        lemma_parse_field_lines(d);
        lemma_parse_field_line(f);
        let ls = fs.map_values(|f: (Seq<char>, Seq<char>)| line_text(f));
        assert(ls =~= d.map_values(|f: (Seq<char>, Seq<char>)| line_text(f)) + seq![line_text(f)]);
        lemma_parse_lines_append(
            d.map_values(|f: (Seq<char>, Seq<char>)| line_text(f)),
            seq![line_text(f)],
        );
        assert(seq![line_text(f)].drop_first() =~= Seq::<Seq<char>>::empty());
        assert(seq![line_text(f)][0] == line_text(f));
        assert(parse_lines(Seq::<Seq<char>>::empty()) =~= Seq::<(Seq<char>, Seq<char>)>::empty());
        assert(parse_line(f.0 + ": "@ + f.1) == seq![f]);
        assert(parse_lines(seq![line_text(f)]) =~= seq![f]);
        assert(parse_lines(ls) =~= fs);
    }
}

/// In rendered fields every newline but the last is followed by three
/// more characters that are not `---`.
proof fn lemma_no_marker(fs: Seq<(Seq<char>, Seq<char>)>)
    requires
        fields_ok(fs),
    ensures
        forall|p: int|
            0 <= p < render_fields(fs).len() - 1 && #[trigger] render_fields(fs)[p] == '\n' ==> p + 4
                <= render_fields(fs).len() && !(render_fields(fs)[p + 1] == '-' && render_fields(
                fs,
            )[p + 2] == '-' && render_fields(fs)[p + 3] == '-'),
    decreases fs.len(),
{
    if fs.len() > 0 {
        let d = fs.drop_last();
        let f = fs.last();
        assert(fields_ok(d)) by {
            assert forall|i: int| 0 <= i < d.len() implies field_ok(#[trigger] d[i]) by {
                assert(d[i] == fs[i]);
            }
        }
        assert(field_ok(f)) by {
            assert(f == fs[fs.len() - 1]);
        }
        lemma_no_marker(d);
        lemma_line_text_shape(f);
        lemma_render_lines(d);
        let a = render_fields(d);
        let l = line_text(f);
        let r = render_fields(fs);
        assert(r =~= a + l + "\n"@);
        assert("\n"@.len() == 1 && "\n"@[0] == '\n') by {
            reveal_strlit("\n");
        }
        let dash = "---"@;
        assert(dash.len() == 3 && dash[0] == '-' && dash[1] == '-' && dash[2] == '-') by {
            reveal_strlit("---");
        }
        let sep = ": "@;
        assert(sep.len() == 2 && sep[0] == ':' && sep[1] == ' ') by {
            reveal_strlit(": ");
        }
        assert forall|p: int|
            0 <= p < r.len() - 1 && #[trigger] r[p] == '\n' implies p + 4 <= r.len() && !(r[p + 1]
                == '-' && r[p + 2] == '-' && r[p + 3] == '-') by {
            if p < a.len() - 1 {
                assert(r[p] == a[p]);
                assert(r[p + 1] == a[p + 1] && r[p + 2] == a[p + 2] && r[p + 3] == a[p + 3]);
            } else if p == a.len() - 1 {
                let k = f.0;
                assert(r[p + 1] == l[0] && r[p + 2] == l[1] && r[p + 3] == l[2]);
                if k.len() >= 3 {
                    assert(l[0] == k[0] && l[1] == k[1] && l[2] == k[2]);
                    if k[0] == '-' && k[1] == '-' && k[2] == '-' {
                        assert(k.subrange(0, 3) =~= dash);
                    }
                } else if k.len() == 2 {
                    assert(l[2] == ':');
                } else {
                    assert(l[1] == ':');
                }
            } else {
                assert(r[p] == l[p - a.len()]);
                assert(l.contains('\n'));
            }
        }
    }
}

/// After rendered fields, a `---` line is the first `\n---` there is: it
/// starts at the fields' last newline.
proof fn lemma_marker_found(fs: Seq<(Seq<char>, Seq<char>)>, tail: Seq<char>)
    requires
        fields_ok(fs),
        fs.len() > 0,
        tail.len() >= 3,
        tail[0] == '-' && tail[1] == '-' && tail[2] == '-',
    ensures
        crate::text::find_str_from(render_fields(fs) + tail, "\n---"@, 0) == render_fields(fs).len()
            - 1,
{
    let r = render_fields(fs);
    let s = r + tail;
    let pat = "\n---"@;
    assert(pat.len() == 4 && pat[0] == '\n' && pat[1] == '-' && pat[2] == '-' && pat[3] == '-') by {
        reveal_strlit("\n---");
    }
    lemma_render_lines(fs);
    lemma_no_marker(fs);
    lemma_line_text_shape(fs.last());
    assert(r.len() > 0) by {
        assert(field_ok(fs[fs.len() - 1]));
        assert(render_fields(fs) =~= render_fields(fs.drop_last()) + field_line(fs.last()));
    }
    let k = r.len() - 1;
    assert(s.subrange(k, k + 4) =~= pat) by {
        assert(s[k] == r.last());
        assert(s[k + 1] == tail[0] && s[k + 2] == tail[1] && s[k + 3] == tail[2]);
    }
    assert(crate::text::matches_at(s, pat, k));
    crate::text::lemma_find_str_from(s, pat, 0);
    let found = crate::text::find_str_from(s, pat, 0);
    assert(found != -1);
    if found < k {
        assert(s.subrange(found, found + 4) == pat);
        assert(s[found] == s.subrange(found, found + 4)[0]);
        assert(s[found] == r[found]);
        assert(r[found] == '\n');
        assert(found + 4 <= r.len());
        assert(s[found + 1] == s.subrange(found, found + 4)[1]);
        assert(s[found + 2] == s.subrange(found, found + 4)[2]);
        assert(s[found + 3] == s.subrange(found, found + 4)[3]);
        assert(s[found + 1] == r[found + 1] && s[found + 2] == r[found + 2] && s[found + 3] == r[found
            + 3]);
    }
}

/// Splitting a rendered task document gives back its fields.
pub proof fn lemma_split_render(fs: Seq<(Seq<char>, Seq<char>)>, desc: Seq<char>)
    requires
        fields_ok(fs),
        fs.len() > 0,
    ensures
        split_spec(render_task(fs, desc)).0 == fs,
        split_spec(render_task(fs, desc)).1 == "\n"@ + trim(desc) + "\n"@,
{
    let r = render_fields(fs);
    let open = "---\n"@;
    let close = "---\n\n"@;
    assert(open.len() == 4 && open[0] == '-' && open[1] == '-' && open[2] == '-' && open[3] == '\n')
        by {
        reveal_strlit("---\n");
    }
    assert(close.len() == 5 && close[0] == '-' && close[1] == '-' && close[2] == '-') by {
        reveal_strlit("---\n\n");
    }
    let b = render_task(fs, desc);
    let tail = close + trim(desc) + "\n"@;
    assert(b =~= open + (r + tail));
    assert(b.subrange(0, 4) =~= open);
    let rest = b.subrange(4, b.len() as int);
    assert(rest =~= r + tail);
    lemma_marker_found(fs, tail);
    let k = r.len() - 1;
    assert(crate::text::find_str_from(rest, "\n---"@, 0) == k);
    lemma_render_lines(fs);
    assert(rest.subrange(0, k) =~= r.drop_last());
    lemma_parse_field_lines(fs);
    assert(front_fields(rest.subrange(0, k)) == fs);
    let d = rest.subrange(k + 4, rest.len() as int);
    assert(r.len() > 0 && r[r.len() - 1] == '\n');
    assert(d =~= tail.subrange(3, tail.len() as int));
    let nl = "\n"@;
    assert(nl.len() == 1 && nl[0] == '\n') by {
        reveal_strlit("\n");
    }
    assert(close[3] == '\n' && close[4] == '\n') by {
        reveal_strlit("---\n\n");
    }
    assert(d.len() > 0 && d[0] == '\n');
    assert(d.drop_first() =~= nl + trim(desc) + nl);
}

/// A piece of text lacks what the whole lacks.
proof fn lemma_piece_lacks(x: Seq<char>, a: int, b: int, c: char)
    requires
        0 <= a <= b <= x.len(),
        forall|j: int| 0 <= j < x.len() ==> x[j] != c,
    ensures
        !x.subrange(a, b).contains(c),
{
    let y = x.subrange(a, b);
    assert forall|j: int| 0 <= j < y.len() implies y[j] != c by {
        assert(y[j] == x[a + j]);
    }
}

/// No line read from text holds a newline.
proof fn lemma_lines_one_line(s: Seq<char>, i: int)
    ensures
        forall|j: int| 0 <= j < lines_from(s, i).len() ==> !(#[trigger] lines_from(s, i)[j]).contains('\n'),
    decreases s.len() - i,
{
    if 0 <= i < s.len() {
        lemma_find_char_from_bounds(s, '\n', i);
        let e = find_char_from(s, '\n', i);
        if e < 0 {
            let l = s.subrange(i, s.len() as int);
            assert forall|j: int| 0 <= j < l.len() implies l[j] != '\n' by {
                assert(l[j] == s[i + j]);
            }
            assert(lines_from(s, i) == seq![l]);
        } else {
            let l = s.subrange(i, e);
            assert forall|j: int| 0 <= j < l.len() implies l[j] != '\n' by {
                assert(l[j] == s[i + j]);
            }
            let c = strip_cr(l);
            assert forall|j: int| 0 <= j < c.len() implies c[j] != '\n' by {
                assert(c[j] == l[j]);
            }
            lemma_lines_one_line(s, e + 1);
            let rest = lines_from(s, e + 1);
            assert(lines_from(s, i) == seq![c] + rest);
            assert forall|j: int| 0 <= j < lines_from(s, i).len() implies !(#[trigger] lines_from(
                s,
                i,
            )[j]).contains('\n') by {
                if j > 0 {
                    assert(lines_from(s, i)[j] == rest[j - 1]);
                }
            }
        }
    }
}

/// A field parsed from a line has the parsed shape.
proof fn lemma_parse_line_shape(l: Seq<char>)
    requires
        !l.contains('\n'),
    ensures
        forall|i: int| 0 <= i < parse_line(l).len() ==> field_shape(#[trigger] parse_line(l)[i]),
{
    let c = find_char(l, ':');
    lemma_find_char_from_bounds(l, ':', 0);
    if c >= 0 && trim(l.subrange(0, c)).len() > 0 {
        let x = l.subrange(0, c);
        let y = l.subrange(c + 1, l.len() as int);
        assert forall|j: int| 0 <= j < x.len() implies x[j] != ':' && x[j] != '\n' by {
            assert(x[j] == l[j]);
        }
        assert forall|j: int| 0 <= j < y.len() implies y[j] != '\n' by {
            assert(y[j] == l[c + 1 + j]);
        }
        lemma_trim_shape(x);
        lemma_trim_shape(y);
        let (a, b) = choose|a: int, b: int| 0 <= a <= b <= x.len() && trim(x) == x.subrange(a, b);
        let (a2, b2) = choose|a: int, b: int| 0 <= a <= b <= y.len() && trim(y) == y.subrange(a, b);
        lemma_piece_lacks(x, a, b, ':');
        lemma_piece_lacks(x, a, b, '\n');
        lemma_piece_lacks(y, a2, b2, '\n');
        assert(parse_line(l) == seq![(trim(x), trim(y))]);
        assert(field_shape(parse_line(l)[0]));
    } else {
        assert(parse_line(l) =~= Seq::<(Seq<char>, Seq<char>)>::empty());
    }
}

/// Fields parsed from lines have the parsed shape.
proof fn lemma_parse_lines_shape(ls: Seq<Seq<char>>)
    requires
        forall|j: int| 0 <= j < ls.len() ==> !(#[trigger] ls[j]).contains('\n'),
    ensures
        forall|i: int| 0 <= i < parse_lines(ls).len() ==> field_shape(#[trigger] parse_lines(ls)[i]),
    decreases ls.len(),
{
    if ls.len() > 0 {
        let rest = ls.drop_first();
        assert forall|j: int| 0 <= j < rest.len() implies !(#[trigger] rest[j]).contains('\n') by {
            assert(rest[j] == ls[j + 1]);
        }
        lemma_parse_lines_shape(rest);
        lemma_parse_line_shape(ls[0]);
        let h = parse_line(ls[0]);
        let t = parse_lines(rest);
        assert(parse_lines(ls) == h + t);
        assert forall|i: int| 0 <= i < parse_lines(ls).len() implies field_shape(
            #[trigger] parse_lines(ls)[i],
        ) by {
            if i < h.len() {
                assert(parse_lines(ls)[i] == h[i]);
            } else {
                assert(parse_lines(ls)[i] == t[i - h.len()]);
            }
        }
    }
}

/// The fields split from any document have the parsed shape.
proof fn lemma_split_shape(body: Seq<char>)
    ensures
        forall|i: int| 0 <= i < split_spec(body).0.len() ==> field_shape(#[trigger] split_spec(body).0[i]),
{
    if body.len() >= 4 && body.subrange(0, 4) == "---\n"@ {
        let rest = body.subrange(4, body.len() as int);
        let k = crate::text::find_str_from(rest, "\n---"@, 0);
        if k >= 0 {
            crate::text::lemma_find_str_from(rest, "\n---"@, 0);
            let front = rest.subrange(0, k);
            lemma_lines_one_line(front, 0);
            lemma_parse_lines_shape(lines(front));
        }
    }
}

/// Setting a well-formed field keeps every field well-formed.
proof fn lemma_upsert_ok(fs: Seq<(Seq<char>, Seq<char>)>, key: Seq<char>, value: Seq<char>)
    requires
        fields_ok(fs),
        field_ok((key, value)),
    ensures
        fields_ok(upsert_spec(fs, key, value)),
        upsert_spec(fs, key, value).len() > 0,
{
    crate::mailbox::tasks::lemma_field_index_bounds(fs, key, 0);
    let u = upsert_spec(fs, key, value);
    assert forall|i: int| 0 <= i < u.len() implies field_ok(#[trigger] u[i]) by {
        if i < fs.len() && u[i] != (key, value) {
            assert(u[i] == fs[i]);
        }
    }
}

/// Marking a task done and reading the document again gives back its front
/// matter with `status: done` set and every other field as before; the
/// status then reads `done`. This holds for every document whose front
/// matter has no key opening with `---`.
pub proof fn law_mark_done_reads_back(body: Seq<char>)
    requires
        forall|i: int|
            0 <= i < split_spec(body).0.len() ==> !starts_with(#[trigger] split_spec(body).0[i].0, "---"@),
    ensures
        split_spec(mark_done_spec(body)).0 == upsert_spec(split_spec(body).0, "status"@, "done"@),
        crate::mailbox::tasks::lookup(split_spec(mark_done_spec(body)).0, "status"@) == Some("done"@),
{
    let fs = split_spec(body).0;
    lemma_split_shape(body);
    assert(fields_ok(fs));
    let key = "status"@;
    let value = "done"@;
    assert(key.len() == 6 && key[0] == 's' && key[5] == 's') by {
        reveal_strlit("status");
    }
    assert(value.len() == 4 && value[0] == 'd' && value[3] == 'e') by {
        reveal_strlit("done");
    }
    assert(!key.contains(':') && !key.contains('\n') && !value.contains('\n')) by {
        reveal_strlit("status");
        reveal_strlit("done");
    }
    assert(!starts_with(key, "---"@)) by {
        reveal_strlit("---");
        assert(key.subrange(0, 3)[0] == 's');
    }
    assert(field_ok((key, value)));
    lemma_upsert_ok(fs, key, value);
    lemma_split_render(upsert_spec(fs, key, value), split_spec(body).1);
    crate::mailbox::tasks::law_upsert_reads_back(fs, key, value, key);
}

/// Adding a well-formed default keeps every field well-formed.
proof fn lemma_ensure_ok(fs: Seq<(Seq<char>, Seq<char>)>, key: Seq<char>, value: Seq<char>)
    requires
        fields_ok(fs),
        field_ok((key, value)),
    ensures
        fields_ok(ensure_spec(fs, key, value)),
{
    let u = ensure_spec(fs, key, value);
    assert forall|i: int| 0 <= i < u.len() implies field_ok(#[trigger] u[i]) by {
        if i < fs.len() {
            assert(u[i] == fs[i]);
        }
    }
}

/// A value read from well-formed fields is trimmed and on one line.
proof fn lemma_lookup_ok(fs: Seq<(Seq<char>, Seq<char>)>, key: Seq<char>)
    requires
        fields_ok(fs),
    ensures
        lookup(fs, key) matches Some(v) ==> trimmed(v) && !v.contains('\n'),
{
    crate::mailbox::tasks::lemma_field_index_bounds(fs, key, 0);
    let i = crate::mailbox::tasks::field_index(fs, key);
    if i >= 0 {
        assert(field_ok(fs[i]));
    }
}

/// The keys a canonical task sets or fills in.
pub open spec fn canonical_key(k: Seq<char>) -> bool {
    k == "from"@ || k == "to"@ || k == "title"@ || k == "priority"@ || k == "status"@ || k == "kind"@
        || k == "depends_on"@
}

/// A value the body gave, or the default.
pub open spec fn given_or(v: Option<Seq<char>>, default: Seq<char>) -> Seq<char> {
    match v {
        Some(x) => x,
        None => default,
    }
}

/// A task stored by `task send` reads back as its canonical front matter:
/// the sender, assignee and title as set; the priority, status, kind and
/// dependencies the body gave, or `normal`, `open`, `need` and `[]`; every
/// other field of the body with its value; and the body's description,
/// trimmed. This holds when the sender, assignee and a given title are each
/// one trimmed line and no key of the body's front matter opens with `---`.
pub proof fn law_canonical_task_reads_back(
    from: Seq<char>,
    to: Seq<char>,
    title_arg: Option<Seq<char>>,
    body: Seq<char>,
)
    requires
        forall|i: int|
            0 <= i < split_spec(body).0.len() ==> !starts_with(#[trigger] split_spec(body).0[i].0, "---"@),
        trimmed(from) && !from.contains('\n'),
        trimmed(to) && !to.contains('\n'),
        title_arg matches Some(t) ==> trimmed(t) && !t.contains('\n'),
    ensures
        split_spec(canonical_spec(from, to, title_arg, body)).0 == canonical_fields(
            from,
            to,
            title_arg,
            body,
        ),
        lookup(split_spec(canonical_spec(from, to, title_arg, body)).0, "from"@) == Some(from),
        lookup(split_spec(canonical_spec(from, to, title_arg, body)).0, "to"@) == Some(to),
        lookup(split_spec(canonical_spec(from, to, title_arg, body)).0, "title"@) == Some(
            canonical_title(title_arg, split_spec(body).0),
        ),
        lookup(split_spec(canonical_spec(from, to, title_arg, body)).0, "status"@) == Some(
            match lookup(split_spec(body).0, "status"@) {
                Some(s) => s,
                None => "open"@,
            },
        ),
        lookup(split_spec(canonical_spec(from, to, title_arg, body)).0, "priority"@) == Some(
            given_or(lookup(split_spec(body).0, "priority"@), "normal"@),
        ),
        lookup(split_spec(canonical_spec(from, to, title_arg, body)).0, "kind"@) == Some(
            given_or(lookup(split_spec(body).0, "kind"@), "need"@),
        ),
        lookup(split_spec(canonical_spec(from, to, title_arg, body)).0, "depends_on"@) == Some(
            given_or(lookup(split_spec(body).0, "depends_on"@), "[]"@),
        ),
        forall|k: Seq<char>|
            !canonical_key(k) ==> #[trigger] lookup(split_spec(canonical_spec(from, to, title_arg, body)).0, k)
                == lookup(split_spec(body).0, k),
        trim(split_spec(canonical_spec(from, to, title_arg, body)).1) == trim(split_spec(body).1),
{
    reveal_strlit("from");
    reveal_strlit("to");
    reveal_strlit("title");
    reveal_strlit("priority");
    reveal_strlit("status");
    reveal_strlit("kind");
    reveal_strlit("depends_on");
    reveal_strlit("normal");
    reveal_strlit("open");
    reveal_strlit("need");
    reveal_strlit("[]");
    reveal_strlit("(untitled task)");
    reveal_strlit("---");
    let f0 = split_spec(body).0;
    lemma_split_shape(body);
    assert(fields_ok(f0));
    let title = canonical_title(title_arg, f0);
    lemma_lookup_ok(f0, "title"@);
    assert(trimmed(title) && !title.contains('\n'));
    assert(!starts_with("from"@, "---"@) && !starts_with("to"@, "---"@) && !starts_with(
        "title"@,
        "---"@,
    ) && !starts_with("priority"@, "---"@) && !starts_with("status"@, "---"@) && !starts_with(
        "kind"@,
        "---"@,
    ) && !starts_with("depends_on"@, "---"@)) by {
        assert("from"@.subrange(0, 3)[0] == 'f');
        assert("title"@.subrange(0, 3)[0] == 't');
        assert("priority"@.subrange(0, 3)[0] == 'p');
        assert("status"@.subrange(0, 3)[0] == 's');
        assert("kind"@.subrange(0, 3)[0] == 'k');
        assert("depends_on"@.subrange(0, 3)[0] == 'd');
    }
    let f1 = upsert_spec(f0, "from"@, from);
    let f2 = upsert_spec(f1, "to"@, to);
    let f3 = upsert_spec(f2, "title"@, title);
    let f4 = ensure_spec(f3, "priority"@, "normal"@);
    let f5 = ensure_spec(f4, "status"@, "open"@);
    let f6 = ensure_spec(f5, "kind"@, "need"@);
    let f7 = ensure_spec(f6, "depends_on"@, "[]"@);
    lemma_upsert_ok(f0, "from"@, from);
    lemma_upsert_ok(f1, "to"@, to);
    lemma_upsert_ok(f2, "title"@, title);
    lemma_ensure_ok(f3, "priority"@, "normal"@);
    lemma_ensure_ok(f4, "status"@, "open"@);
    lemma_ensure_ok(f5, "kind"@, "need"@);
    lemma_ensure_ok(f6, "depends_on"@, "[]"@);
    assert(f7.len() > 0) by {
        assert(f3.len() > 0);
        assert(f7.len() >= f3.len());
    }
    assert(f7 == canonical_fields(from, to, title_arg, body));
    lemma_split_render(f7, split_spec(body).1);
    law_upsert_reads_back(f0, "from"@, from, "status"@);
    law_upsert_reads_back(f1, "to"@, to, "from"@);
    law_upsert_reads_back(f1, "to"@, to, "status"@);
    law_upsert_reads_back(f2, "title"@, title, "from"@);
    law_upsert_reads_back(f2, "title"@, title, "to"@);
    law_upsert_reads_back(f2, "title"@, title, "status"@);
    law_ensure_keeps_existing(f3, "priority"@, "normal"@, "from"@);
    law_ensure_keeps_existing(f3, "priority"@, "normal"@, "to"@);
    law_ensure_keeps_existing(f3, "priority"@, "normal"@, "title"@);
    law_ensure_keeps_existing(f3, "priority"@, "normal"@, "status"@);
    law_ensure_keeps_existing(f4, "status"@, "open"@, "from"@);
    law_ensure_keeps_existing(f4, "status"@, "open"@, "to"@);
    law_ensure_keeps_existing(f4, "status"@, "open"@, "title"@);
    law_ensure_keeps_existing(f5, "kind"@, "need"@, "from"@);
    law_ensure_keeps_existing(f5, "kind"@, "need"@, "to"@);
    law_ensure_keeps_existing(f5, "kind"@, "need"@, "title"@);
    law_ensure_keeps_existing(f5, "kind"@, "need"@, "status"@);
    law_ensure_keeps_existing(f6, "depends_on"@, "[]"@, "from"@);
    law_ensure_keeps_existing(f6, "depends_on"@, "[]"@, "to"@);
    law_ensure_keeps_existing(f6, "depends_on"@, "[]"@, "title"@);
    law_ensure_keeps_existing(f6, "depends_on"@, "[]"@, "status"@);
    law_ensure_keeps_existing(f3, "priority"@, "normal"@, "priority"@);
    law_ensure_keeps_existing(f4, "status"@, "open"@, "priority"@);
    law_ensure_keeps_existing(f5, "kind"@, "need"@, "priority"@);
    law_ensure_keeps_existing(f6, "depends_on"@, "[]"@, "priority"@);
    law_ensure_keeps_existing(f5, "kind"@, "need"@, "kind"@);
    law_ensure_keeps_existing(f6, "depends_on"@, "[]"@, "kind"@);
    law_ensure_keeps_existing(f6, "depends_on"@, "[]"@, "depends_on"@);
    law_upsert_reads_back(f0, "from"@, from, "priority"@);
    law_upsert_reads_back(f1, "to"@, to, "priority"@);
    law_upsert_reads_back(f2, "title"@, title, "priority"@);
    law_upsert_reads_back(f0, "from"@, from, "kind"@);
    law_upsert_reads_back(f1, "to"@, to, "kind"@);
    law_upsert_reads_back(f2, "title"@, title, "kind"@);
    law_ensure_keeps_existing(f3, "priority"@, "normal"@, "kind"@);
    law_ensure_keeps_existing(f4, "status"@, "open"@, "kind"@);
    law_upsert_reads_back(f0, "from"@, from, "depends_on"@);
    law_upsert_reads_back(f1, "to"@, to, "depends_on"@);
    law_upsert_reads_back(f2, "title"@, title, "depends_on"@);
    law_ensure_keeps_existing(f3, "priority"@, "normal"@, "depends_on"@);
    law_ensure_keeps_existing(f4, "status"@, "open"@, "depends_on"@);
    law_ensure_keeps_existing(f5, "kind"@, "need"@, "depends_on"@);
    assert("kind"@ != "from"@ && "kind"@ != "to"@ && "kind"@ != "title"@ && "kind"@ != "priority"@
        && "kind"@ != "status"@ && "kind"@ != "depends_on"@) by {
        assert("kind"@[0] != "from"@[0]);
        assert("kind"@[0] != "title"@[0]);
    }
    assert forall|k: Seq<char>| !canonical_key(k) implies #[trigger] lookup(f7, k) == lookup(f0, k) by {
        law_upsert_reads_back(f0, "from"@, from, k);
        law_upsert_reads_back(f1, "to"@, to, k);
        law_upsert_reads_back(f2, "title"@, title, k);
        law_ensure_keeps_existing(f3, "priority"@, "normal"@, k);
        law_ensure_keeps_existing(f4, "status"@, "open"@, k);
        law_ensure_keeps_existing(f5, "kind"@, "need"@, k);
        law_ensure_keeps_existing(f6, "depends_on"@, "[]"@, k);
    }
    let d0 = split_spec(body).1;
    lemma_trim_shape(d0);
    lemma_trim_between_newlines(trim(d0));
}

/// The label of an address made of two slugs is one trimmed line.
proof fn lemma_label_one_line(fin: Seq<char>, pod: Seq<char>)
    requires
        crate::model::slug_ok(fin),
        crate::model::slug_ok(pod),
    ensures
        trimmed(crate::model::address_label(fin, pod)),
        !crate::model::address_label(fin, pod).contains('\n'),
{
    let dom = ".orqa"@;
    assert(dom.len() == 5 && dom[0] == '.' && dom[1] == 'o' && dom[2] == 'r' && dom[3] == 'q' && dom[4] == 'a')
        by {
        reveal_strlit(".orqa");
    }
    let l = crate::model::address_label(fin, pod);
    assert(l == fin + seq!['@'] + pod + dom);
    assert(crate::model::is_slug_char(fin[0]));
    assert(l[0] == fin[0]);
    assert(l[l.len() - 1] == 'a');
    assert forall|j: int| 0 <= j < l.len() implies l[j] != '\n' by {
        if j < fin.len() {
            assert(l[j] == fin[j] && crate::model::is_slug_char(fin[j]));
        } else if j == fin.len() {
            assert(l[j] == '@');
        } else if j < fin.len() + 1 + pod.len() {
            assert(l[j] == pod[j - fin.len() - 1] && crate::model::is_slug_char(pod[j - fin.len() - 1]));
        } else {
            assert(l[j] == dom[j - fin.len() - 1 - pod.len()]);
        }
    }
}

/// A task that `task send` stores between two fins reads back as its
/// canonical front matter: the sender's and assignee's addresses and the
/// title as set; the priority, status, kind and dependencies the body gave,
/// or `normal`, `open`, `need` and `[]`; every other field of the body with
/// its value; and the body's description, trimmed. This holds when a given
/// title is one trimmed line and no key of the body's front matter opens
/// with `---`.
pub proof fn law_task_between_fins_reads_back(
    from_fin: Seq<char>,
    from_pod: Seq<char>,
    to_fin: Seq<char>,
    to_pod: Seq<char>,
    title_arg: Option<Seq<char>>,
    body: Seq<char>,
)
    requires
        crate::model::slug_ok(from_fin) && crate::model::slug_ok(from_pod),
        crate::model::slug_ok(to_fin) && crate::model::slug_ok(to_pod),
        forall|i: int|
            0 <= i < split_spec(body).0.len() ==> !starts_with(#[trigger] split_spec(body).0[i].0, "---"@),
        title_arg matches Some(t) ==> trimmed(t) && !t.contains('\n'),
    ensures
        ({
            let from = crate::model::address_label(from_fin, from_pod);
            let to = crate::model::address_label(to_fin, to_pod);
            let f = split_spec(canonical_spec(from, to, title_arg, body)).0;
            let f0 = split_spec(body).0;
            &&& lookup(f, "from"@) == Some(from)
            &&& lookup(f, "to"@) == Some(to)
            &&& lookup(f, "title"@) == Some(canonical_title(title_arg, f0))
            &&& lookup(f, "status"@) == Some(given_or(lookup(f0, "status"@), "open"@))
            &&& lookup(f, "priority"@) == Some(given_or(lookup(f0, "priority"@), "normal"@))
            &&& lookup(f, "kind"@) == Some(given_or(lookup(f0, "kind"@), "need"@))
            &&& lookup(f, "depends_on"@) == Some(given_or(lookup(f0, "depends_on"@), "[]"@))
            &&& forall|k: Seq<char>| !canonical_key(k) ==> #[trigger] lookup(f, k) == lookup(f0, k)
            &&& trim(split_spec(canonical_spec(from, to, title_arg, body)).1) == trim(split_spec(body).1)
        }),
{
    lemma_label_one_line(from_fin, from_pod);
    lemma_label_one_line(to_fin, to_pod);
    let from = crate::model::address_label(from_fin, from_pod);
    let to = crate::model::address_label(to_fin, to_pod);
    law_canonical_task_reads_back(from, to, title_arg, body);
    let f = split_spec(canonical_spec(from, to, title_arg, body)).0;
    assert forall|k: Seq<char>| !canonical_key(k) implies #[trigger] lookup(f, k) == lookup(split_spec(body).0, k) by {
        assert(lookup(split_spec(canonical_spec(from, to, title_arg, body)).0, k) == lookup(split_spec(body).0, k));
    }
}

} // verus!
