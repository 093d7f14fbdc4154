//! Slash-separated paths held as text: joining and component prefixes.

use vstd::prelude::*;
use vstd::string::*;
use crate::text::{
    append, chars_eq, chars_of, find_char_from, find_char_in, lemma_find_char_from_bounds,
    push_char, string_of,
};

verus! {

/// `PathBuf::join` of a base and one more path on Unix: an absolute `name`
/// replaces the base; otherwise a separator is added unless the base is empty
/// or already ends with one.
pub open spec fn join(base: Seq<char>, name: Seq<char>) -> Seq<char> {
    if name.len() > 0 && name[0] == '/' {
        name
    } else if base.len() == 0 || base.last() == '/' {
        base + name
    } else {
        base + seq!['/'] + name
    }
}

/// `base.join(name)`.
pub fn join_path(base: &str, name: &str) -> (r: String)
    ensures
        r@ == join(base@, name@),
{
    let b = chars_of(base);
    let n = chars_of(name);
    if n.len() > 0 && n[0] == '/' {
        return String::from_str(name);
    }
    let mut r = String::from_str(base);
    if !(b.len() == 0 || b[b.len() - 1] == '/') {
        push_char(&mut r, '/');
    }
    append(&mut r, name);
    r
}

/// `base.join(a).join(b)`.
pub fn join2(base: &str, a: &str, b: &str) -> (r: String)
    ensures
        r@ == join(join(base@, a@), b@),
{
    let first = join_path(base, a);
    join_path(first.as_str(), b)
}

/// The slash-separated segments of `p[i..]`, each without its separator.
pub open spec fn segments_from(p: Seq<char>, i: int) -> Seq<Seq<char>>
    decreases p.len() + 1 - i,
{
    if i < 0 || i > p.len() {
        Seq::empty()
    } else {
        let e = find_char_from(p, '/', i);
        if e < 0 {
            seq![p.subrange(i, p.len() as int)]
        } else {
            proof {
                lemma_find_char_from_bounds(p, '/', i);
            }
            seq![p.subrange(i, e)] + segments_from(p, e + 1)
        }
    }
}

/// Whether a segment is dropped when a path is split into components: empty
/// segments, and `.` anywhere but at the very start of a relative path.
pub open spec fn dropped_segment(seg: Seq<char>, first_of_relative: bool) -> bool {
    seg.len() == 0 || (seg == seq!['.'] && !first_of_relative)
}

/// The kept segments of `segs[k..]`, as `Path::components` keeps them.
pub open spec fn kept_from(segs: Seq<Seq<char>>, k: int, relative: bool) -> Seq<Seq<char>>
    decreases segs.len() - k,
{
    if k < 0 || k >= segs.len() {
        Seq::empty()
    } else if dropped_segment(segs[k], relative && k == 0) {
        kept_from(segs, k + 1, relative)
    } else {
        seq![segs[k]] + kept_from(segs, k + 1, relative)
    }
}

/// `Path::components` of a Unix path: the root first for an absolute path
/// (written as a lone `/`), then the normal parts; a leading `.` of a
/// relative path is kept.
pub open spec fn components(p: Seq<char>) -> Seq<Seq<char>> {
    let relative = !(p.len() > 0 && p[0] == '/');
    let segs = segments_from(p, 0);
    if relative {
        kept_from(segs, 0, true)
    } else {
        seq![seq!['/']] + kept_from(segs, 0, false)
    }
}

/// `Path::starts_with`: the components of `base` are a prefix of those of `p`.
pub open spec fn path_starts_with(p: Seq<char>, base: Seq<char>) -> bool {
    components(base).len() <= components(p).len() && components(p).subrange(
        0,
        components(base).len() as int,
    ) == components(base)
}

/// The segments of `v[i..]`.
fn segments_of(v: &Vec<char>) -> (r: Vec<Vec<char>>)
    ensures
        r@.len() == segments_from(v@, 0).len(),
        forall|k: int| 0 <= k < r@.len() ==> #[trigger] r@[k]@ == segments_from(v@, 0)[k],
{
    let mut r: Vec<Vec<char>> = Vec::new();
    let mut i: usize = 0;
    let ghost mut done: Seq<Seq<char>> = Seq::empty();
    loop
        invariant
            i <= v@.len(),
            r@.len() == done.len(),
            forall|k: int| 0 <= k < r@.len() ==> #[trigger] r@[k]@ == done[k],
            segments_from(v@, 0) == done + segments_from(v@, i as int),
        decreases v@.len() + 1 - i,
    {
        proof {
            lemma_find_char_from_bounds(v@, '/', i as int);
        }
        match find_char_in(v, '/', i) {
            None => {
                let seg = v_range(v, i, v.len());
                proof {
                    done = done.push(seg@);
                }
                r.push(seg);
                proof {
                    assert(segments_from(v@, 0) =~= done);
                }
                return r;
            },
            Some(e) => {
                let seg = v_range(v, i, e);
                proof {
                    done = done.push(seg@);
                    assert(segments_from(v@, i as int) == seq![seg@] + segments_from(
                        v@,
                        e + 1,
                    ));
                }
                r.push(seg);
                proof {
                    assert(done + segments_from(v@, e + 1) =~= (done.drop_last() + seq![seg@])
                        + segments_from(v@, e + 1));
                }
                assert(e < v.len());
                i = e + 1;
            },
        }
    }
}

/// `v[lo..hi]` as a new vector.
pub fn v_range(v: &Vec<char>, lo: usize, hi: usize) -> (r: Vec<char>)
    requires
        lo <= hi <= v@.len(),
    ensures
        r@ == v@.subrange(lo as int, hi as int),
{
    let mut r: Vec<char> = Vec::new();
    let mut i = lo;
    while i < hi
        invariant
            lo <= i <= hi <= v@.len(),
            r@ == v@.subrange(lo as int, i as int),
        decreases hi - i,
    {
        r.push(v[i]);
        i = i + 1;
    }
    r
}

/// `Path::components` of `p`.
fn components_of(p: &str) -> (r: Vec<Vec<char>>)
    ensures
        r@.len() == components(p@).len(),
        forall|k: int| 0 <= k < r@.len() ==> #[trigger] r@[k]@ == components(p@)[k],
{
    let v = chars_of(p);
    let segs = segments_of(&v);
    let relative = !(v.len() > 0 && v[0] == '/');
    let ghost sseq = segments_from(v@, 0);
    let mut r: Vec<Vec<char>> = Vec::new();
    let ghost mut done: Seq<Seq<char>> = Seq::empty();
    if !relative {
        let mut root: Vec<char> = Vec::new();
        root.push('/');
        proof {
            done = done.push(root@);
        }
        r.push(root);
    }
    let ghost pre = done;
    let mut k: usize = 0;
    while k < segs.len()
        invariant
            k <= segs@.len(),
            segs@.len() == sseq.len(),
            forall|j: int| 0 <= j < segs@.len() ==> #[trigger] segs@[j]@ == sseq[j],
            r@.len() == done.len(),
            forall|j: int| 0 <= j < r@.len() ==> #[trigger] r@[j]@ == done[j],
            done == pre + kept_from(sseq, 0, relative).subrange(0, 0) + (kept_from(sseq, 0, relative)
                .subrange(0, kept_from(sseq, 0, relative).len() - kept_from(sseq, k as int, relative).len())),
            kept_from(sseq, 0, relative).len() >= kept_from(sseq, k as int, relative).len(),
            kept_from(sseq, 0, relative) == kept_from(sseq, 0, relative).subrange(
                0,
                kept_from(sseq, 0, relative).len() - kept_from(sseq, k as int, relative).len(),
            ) + kept_from(sseq, k as int, relative),
        decreases segs@.len() - k,
    {
        let seg = &segs[k];
        let dropped = seg.len() == 0 || (seg.len() == 1 && seg[0] == '.' && !(relative && k == 0));
        proof {
            let s = segs@[k as int]@;
            assert(s == sseq[k as int]);
            if s.len() == 1 && s[0] == '.' {
                assert(s =~= seq!['.']);
            }
            if s =~= seq!['.'] {
                assert(s.len() == 1 && s[0] == '.');
            }
            assert(dropped == dropped_segment(sseq[k as int], relative && k == 0));
        }
        if !dropped {
            let copy = v_range(seg, 0, seg.len());
            proof {
                assert(seg@.subrange(0, seg@.len() as int) =~= seg@);
                let whole = kept_from(sseq, 0, relative);
                let rest = kept_from(sseq, k + 1, relative);
                assert(kept_from(sseq, k as int, relative) == seq![sseq[k as int]] + rest);
                assert(whole.subrange(0, whole.len() - rest.len()) =~= whole.subrange(
                    0,
                    whole.len() - rest.len() - 1,
                ).push(sseq[k as int]));
                done = done.push(copy@);
            }
            r.push(copy);
            proof {
                let whole = kept_from(sseq, 0, relative);
                let rest = kept_from(sseq, k + 1, relative);
                assert(whole =~= whole.subrange(0, whole.len() - rest.len()) + rest);
            }
        }
        k = k + 1;
    }
    proof {
        let whole = kept_from(sseq, 0, relative);
        assert(kept_from(sseq, k as int, relative).len() == 0);
        assert(whole.subrange(0, whole.len() as int) =~= whole);
        assert(whole.subrange(0, 0) =~= Seq::<Seq<char>>::empty());
        if relative {
            assert(done =~= components(p@));
        } else {
            assert(done =~= components(p@));
        }
    }
    r
}

/// `p.starts_with(base)` for paths.
pub fn path_starts_with_exec(p: &str, base: &str) -> (r: bool)
    ensures
        r == path_starts_with(p@, base@),
{
    let pc = components_of(p);
    let bc = components_of(base);
    if bc.len() > pc.len() {
        return false;
    }
    let mut k: usize = 0;
    while k < bc.len()
        invariant
            bc@.len() <= pc@.len(),
            bc@.len() == components(base@).len(),
            pc@.len() == components(p@).len(),
            forall|j: int| 0 <= j < bc@.len() ==> #[trigger] bc@[j]@ == components(base@)[j],
            forall|j: int| 0 <= j < pc@.len() ==> #[trigger] pc@[j]@ == components(p@)[j],
            k <= bc@.len(),
            forall|j: int| 0 <= j < k ==> components(p@)[j] == components(base@)[j],
        decreases bc@.len() - k,
    {
        if !chars_eq(&pc[k], &bc[k]) {
            proof {
                assert(components(p@).subrange(0, components(base@).len() as int)[k as int]
                    != components(base@)[k as int]);
            }
            return false;
        }
        k = k + 1;
    }
    proof {
        assert(components(p@).subrange(0, components(base@).len() as int) =~= components(base@));
    }
    true
}

/// The last component of a path, as `Path::file_name` gives it: `None` for a
/// path with no normal last component (empty, the root, or ending in `..`).
pub open spec fn file_name(p: Seq<char>) -> Option<Seq<char>> {
    let c = components(p);
    if c.len() == 0 {
        None
    } else {
        let last = c.last();
        if last == seq!['/'] || last == seq!['.'] || last == seq!['.', '.'] {
            None
        } else {
            Some(last)
        }
    }
}

/// `Path::file_name`.
pub fn file_name_exec(p: &str) -> (r: Option<String>)
    ensures
        match r {
            Some(s) => file_name(p@) == Some(s@),
            None => file_name(p@) is None,
        },
{
    let c = components_of(p);
    if c.len() == 0 {
        return None;
    }
    let last = &c[c.len() - 1];
    let is_root = last.len() == 1 && last[0] == '/';
    let is_cur = last.len() == 1 && last[0] == '.';
    let is_parent = last.len() == 2 && last[0] == '.' && last[1] == '.';
    proof {
        let l = last@;
        assert(l == components(p@).last());
        assert(is_root == (l =~= seq!['/']));
        assert(is_cur == (l =~= seq!['.']));
        assert(is_parent == (l =~= seq!['.', '.']));
    }
    if is_root || is_cur || is_parent {
        None
    } else {
        Some(string_of(last))
    }
}

/// The segments of a path from `i` end with what follows its last `/`.
proof fn lemma_segments_last(p: Seq<char>, i: int, s: int)
    requires
        0 <= i <= s < p.len(),
        p[s] == '/',
        forall|j: int| s < j < p.len() ==> p[j] != '/',
    ensures
        segments_from(p, i).len() >= 2,
        segments_from(p, i).last() == p.subrange(s + 1, p.len() as int),
    decreases s - i,
{
    lemma_find_char_from_bounds(p, '/', i);
    let e = find_char_from(p, '/', i);
    assert(e != -1);
    lemma_find_char_from_bounds(p, '/', s + 1);
    assert(find_char_from(p, '/', s + 1) == -1);
    if e < s {
        lemma_segments_last(p, e + 1, s);
    }
}

/// Components keep a last segment that is neither empty nor `.`.
proof fn lemma_kept_last(segs: Seq<Seq<char>>, k: int, relative: bool)
    requires
        0 <= k < segs.len(),
        segs.len() >= 2,
        segs.last().len() > 0,
        segs.last() != seq!['.'],
    ensures
        kept_from(segs, k, relative).len() > 0,
        kept_from(segs, k, relative).last() == segs.last(),
    decreases segs.len() - k,
{
    if k < segs.len() - 1 {
        lemma_kept_last(segs, k + 1, relative);
    } else {
        assert(kept_from(segs, k + 1, relative) == Seq::<Seq<char>>::empty());
        assert(seq![segs[k]] + Seq::<Seq<char>>::empty() =~= seq![segs[k]]);
    }
}

/// The file name of `base/name` is `name`, for a name without `/` that is
/// neither `.` nor `..`, under a base that does not end with `/`.
pub proof fn lemma_file_name_of_join(base: Seq<char>, name: Seq<char>)
    requires
        base.len() > 0,
        base.last() != '/',
        name.len() > 0,
        forall|j: int| 0 <= j < name.len() ==> name[j] != '/',
        name != seq!['.'],
        name != seq!['.', '.'],
    ensures
        file_name(join(base, name)) == Some(name),
{
    let p = join(base, name);
    assert(p == base + seq!['/'] + name);
    let s = base.len() as int;
    assert(p[s] == '/');
    assert forall|j: int| s < j < p.len() implies p[j] != '/' by {
        assert(p[j] == name[j - s - 1]);
    }
    lemma_segments_last(p, 0, s);
    assert(p.subrange(s + 1, p.len() as int) =~= name);
    let segs = segments_from(p, 0);
    lemma_kept_last(segs, 0, true);
    lemma_kept_last(segs, 0, false);
    let c = components(p);
    assert(c.last() == name);
}

} // verus!
