//! Pod templates: where they live, which fins they define, and how syncing a
//! template into a pod adds, adopts, updates and deletes fins.

use vstd::prelude::*;
use vstd::string::*;
use crate::config::{agents_spec, fin_agents_template, toml_escaped, FIN_AGENTS_TEMPLATE};
use crate::model::{fin_label, slug_error, slug_ok, validate_slug, FinRef, Orqa};
use crate::paths::{join, join_path};
use crate::runtime::strings_view;
use crate::service::{join_with, joined};
use crate::mailbox::tasks::{lemma_lex_irreflexive, lemma_lex_total, lemma_lex_trans, lex_less, lex_lt};
use crate::text::{append, chars_of, str_eq};

verus! {

/// `<home>/templates`.
pub fn templates_home(orqa: &Orqa) -> (r: String)
    ensures
        r@ == join(orqa.home@, "templates"@),
{
    join_path(orqa.home.as_str(), "templates")
}

/// `<home>/templates/<template>`.
pub fn template_home(orqa: &Orqa, template: &str) -> (r: String)
    ensures
        r@ == join(join(orqa.home@, "templates"@), template@),
{
    join_path(templates_home(orqa).as_str(), template)
}

/// The directory of a template's fins: `.orqa/fins` in pod style, else
/// `fins`, given whether the template exists and which of the two is a
/// directory.
pub fn template_fins_dir(template_dir: &str, exists: bool, pod_style_is_dir: bool, compact_is_dir: bool) -> (r:
    Result<String, String>)
    ensures
        !exists ==> (r matches Err(e) && e@ == "template '"@ + template_dir@ + "' does not exist"@),
        exists && pod_style_is_dir ==> (r matches Ok(d) && d@ == join(
            join(template_dir@, ".orqa"@),
            "fins"@,
        )),
        exists && !pod_style_is_dir && compact_is_dir ==> (r matches Ok(d) && d@ == join(
            template_dir@,
            "fins"@,
        )),
        exists && !pod_style_is_dir && !compact_is_dir ==> (r matches Err(e) && e@ == "template '"@
            + template_dir@ + "' must contain .orqa/fins or fins"@),
{
    if !exists {
        let mut e = String::from_str("template '");
        append(&mut e, template_dir);
        append(&mut e, "' does not exist");
        return Err(e);
    }
    if pod_style_is_dir {
        let a = join_path(template_dir, ".orqa");
        return Ok(join_path(a.as_str(), "fins"));
    }
    if compact_is_dir {
        return Ok(join_path(template_dir, "fins"));
    }
    let mut e = String::from_str("template '");
    append(&mut e, template_dir);
    append(&mut e, "' must contain .orqa/fins or fins");
    Err(e)
}

/// A fin a template defines: its slug and its role file.
pub struct TemplateFin {
    pub slug: String,
    pub role_path: String,
}

/// The fins of a template directory, in order: each must be a slug and have
/// a `ROLE.md`.
pub open spec fn template_fins_spec(fins_dir: Seq<char>, slugs: Seq<Seq<char>>, role_is_file: Seq<bool>) -> Result<
    Seq<(Seq<char>, Seq<char>)>,
    Seq<char>,
>
    decreases slugs.len(),
{
    if slugs.len() == 0 || role_is_file.len() != slugs.len() {
        Ok(Seq::empty())
    } else {
        match template_fins_spec(fins_dir, slugs.drop_last(), role_is_file.drop_last()) {
            Err(e) => Err(e),
            Ok(fs) => {
                let s = slugs.last();
                let role = join(join(fins_dir, s), "ROLE.md"@);
                if !slug_ok(s) {
                    Err(slug_error(s))
                } else if !role_is_file.last() {
                    Err("template fin '"@ + s + "' is missing "@ + role)
                } else {
                    Ok(fs.push((s, role)))
                }
            },
        }
    }
}

/// A template fin as plain values.
pub open spec fn template_fin_view(f: TemplateFin) -> (Seq<char>, Seq<char>) {
    (f.slug@, f.role_path@)
}

proof fn lemma_template_err(
    dir: Seq<char>,
    slugs: Seq<Seq<char>>,
    files: Seq<bool>,
    k: int,
    n: int,
)
    requires
        0 <= k <= n <= slugs.len(),
        slugs.len() == files.len(),
        k > 0,
        template_fins_spec(dir, slugs.subrange(0, k), files.subrange(0, k)) is Err,
    ensures
        template_fins_spec(dir, slugs.subrange(0, n), files.subrange(0, n)) == template_fins_spec(
            dir,
            slugs.subrange(0, k),
            files.subrange(0, k),
        ),
    decreases n - k,
{
    if n > k {
        lemma_template_err(dir, slugs, files, k, n - 1);
        assert(slugs.subrange(0, n).drop_last() =~= slugs.subrange(0, n - 1));
        assert(files.subrange(0, n).drop_last() =~= files.subrange(0, n - 1));
    }
}

/// A listing of fin directories: each name with whether it holds a
/// `ROLE.md` file.
pub open spec fn listing(slugs: Seq<Seq<char>>, files: Seq<bool>) -> Seq<(Seq<char>, bool)> {
    Seq::new(slugs.len(), |i: int| (slugs[i], files[i]))
}

/// The names of a listing.
pub open spec fn listing_names(es: Seq<(Seq<char>, bool)>) -> Seq<Seq<char>> {
    es.map_values(|e: (Seq<char>, bool)| e.0)
}

/// Names in strictly increasing order, so each comes once.
pub open spec fn names_ascending(ns: Seq<Seq<char>>) -> bool {
    forall|i: int, j: int| 0 <= i < j < ns.len() ==> lex_lt(ns[i], ns[j])
}

/// A listed directory put into a listing kept in name order; a name that is
/// already there keeps its entry.
pub open spec fn insert_listed(t: Seq<(Seq<char>, bool)>, e: (Seq<char>, bool)) -> Seq<(Seq<char>, bool)>
    decreases t.len(),
{
    if t.len() == 0 {
        seq![e]
    } else if t[0].0 == e.0 {
        t
    } else if lex_lt(e.0, t[0].0) {
        seq![e] + t
    } else {
        seq![t[0]] + insert_listed(t.drop_first(), e)
    }
}

/// A listing in name order, each name once with its first entry.
pub open spec fn ordered_listing(es: Seq<(Seq<char>, bool)>) -> Seq<(Seq<char>, bool)>
    decreases es.len(),
{
    if es.len() == 0 {
        Seq::empty()
    } else {
        insert_listed(ordered_listing(es.drop_last()), es.last())
    }
}

/// Putting an entry in at the first position whose name is not below it.
proof fn lemma_insert_listed_at(t: Seq<(Seq<char>, bool)>, e: (Seq<char>, bool), p: int)
    requires
        0 <= p <= t.len(),
        forall|q: int| 0 <= q < p ==> lex_lt(#[trigger] t[q].0, e.0),
        p < t.len() ==> !lex_lt(t[p].0, e.0),
    ensures
        insert_listed(t, e) == (if p < t.len() && t[p].0 == e.0 {
            t
        } else {
            t.insert(p, e)
        }),
    decreases p,
{
    if p == 0 {
        if t.len() == 0 {
            assert(seq![e] =~= t.insert(0, e));
        } else if t[0].0 != e.0 {
            lemma_lex_total(e.0, t[0].0);
            assert(seq![e] + t =~= t.insert(0, e));
        }
    } else {
        let d = t.drop_first();
        lemma_lex_irreflexive(e.0);
        if lex_lt(e.0, t[0].0) {
            lemma_lex_trans(e.0, t[0].0, e.0);
        }
        assert forall|q: int| 0 <= q < p - 1 implies lex_lt(#[trigger] d[q].0, e.0) by {
            assert(d[q] == t[q + 1]);
        }
        lemma_insert_listed_at(d, e, p - 1);
        if p < t.len() && t[p].0 == e.0 {
            assert(seq![t[0]] + d =~= t);
        } else {
            assert(seq![t[0]] + d.insert(p - 1, e) =~= t.insert(p, e));
        }
    }
}

/// Inserting at that position keeps the names ascending and adds the new
/// name to them.
proof fn lemma_insert_listed_sorted(t: Seq<(Seq<char>, bool)>, e: (Seq<char>, bool), p: int)
    requires
        0 <= p <= t.len(),
        forall|q: int| 0 <= q < p ==> lex_lt(#[trigger] t[q].0, e.0),
        p < t.len() ==> !lex_lt(t[p].0, e.0),
        names_ascending(listing_names(t)),
    ensures
        names_ascending(listing_names(insert_listed(t, e))),
        forall|n: Seq<char>| #[trigger]
            listing_names(insert_listed(t, e)).contains(n) <==> (listing_names(t).contains(n) || n == e.0),
{
    lemma_insert_listed_at(t, e, p);
    let r = insert_listed(t, e);
    if p < t.len() && t[p].0 == e.0 {
        assert(listing_names(t)[p] == e.0);
    } else {
        if p < t.len() {
            lemma_lex_total(e.0, t[p].0);
        }
        assert forall|i: int, j: int| 0 <= i < j < r.len() implies lex_lt(
            listing_names(r)[i],
            listing_names(r)[j],
        ) by {
            assert(listing_names(t)[p] == t[p].0 || p >= t.len());
            if j < p {
                assert(listing_names(t)[i] == t[i].0 && listing_names(t)[j] == t[j].0);
            } else if j == p {
                assert(r[i] == t[i]);
            } else if i < p {
                assert(r[i] == t[i] && r[j] == t[j - 1]);
                assert(listing_names(t)[p] == t[p].0 && listing_names(t)[j - 1] == t[j - 1].0);
                if j - 1 > p {
                    lemma_lex_trans(e.0, t[p].0, t[j - 1].0);
                }
                lemma_lex_trans(t[i].0, e.0, t[j - 1].0);
            } else if i == p {
                assert(r[j] == t[j - 1]);
                assert(listing_names(t)[p] == t[p].0 && listing_names(t)[j - 1] == t[j - 1].0);
                if j - 1 > p {
                    lemma_lex_trans(e.0, t[p].0, t[j - 1].0);
                }
            } else {
                assert(r[i] == t[i - 1] && r[j] == t[j - 1]);
                assert(listing_names(t)[i - 1] == t[i - 1].0 && listing_names(t)[j - 1] == t[j - 1].0);
            }
        }
        assert forall|n: Seq<char>| #[trigger] listing_names(r).contains(n) implies (listing_names(
            t,
        ).contains(n) || n == e.0) by {
            let k = choose|k: int| 0 <= k < r.len() && listing_names(r)[k] == n;
            if k < p {
                assert(listing_names(t)[k] == n);
            } else if k > p {
                assert(listing_names(t)[k - 1] == n);
            }
        }
        assert forall|n: Seq<char>| (listing_names(t).contains(n) || n == e.0) implies #[trigger] listing_names(
            r,
        ).contains(n) by {
            if n == e.0 {
                assert(listing_names(r)[p] == n);
            } else {
                let k = choose|k: int| 0 <= k < t.len() && listing_names(t)[k] == n;
                if k < p {
                    assert(listing_names(r)[k] == n);
                } else {
                    assert(listing_names(r)[k + 1] == n);
                }
            }
        }
    }
}

/// The listed fin directories in name order, each name once.
fn order_listing(slugs: &Vec<String>, role_is_file: &Vec<bool>) -> (r: (Vec<String>, Vec<bool>))
    requires
        slugs@.len() == role_is_file@.len(),
    ensures
        r.0@.len() == r.1@.len(),
        listing(strings_view(r.0@), r.1@) == ordered_listing(listing(strings_view(slugs@), role_is_file@)),
        names_ascending(strings_view(r.0@)),
        forall|n: Seq<char>| #[trigger]
            strings_view(r.0@).contains(n) <==> strings_view(slugs@).contains(n),
{
    let ghost l = listing(strings_view(slugs@), role_is_file@);
    let mut names: Vec<String> = Vec::new();
    let mut flags: Vec<bool> = Vec::new();
    let mut i: usize = 0;
    proof {
        assert(listing(strings_view(names@), flags@) =~= Seq::<(Seq<char>, bool)>::empty());
        assert(l.subrange(0, 0) =~= Seq::<(Seq<char>, bool)>::empty());
    }
    while i < slugs.len()
        invariant
            slugs@.len() == role_is_file@.len(),
            l == listing(strings_view(slugs@), role_is_file@),
            i <= slugs@.len(),
            names@.len() == flags@.len(),
            listing(strings_view(names@), flags@) == ordered_listing(l.subrange(0, i as int)),
            names_ascending(strings_view(names@)),
            forall|n: Seq<char>| #[trigger]
                strings_view(names@).contains(n) <==> strings_view(slugs@).subrange(0, i as int).contains(n),
        decreases slugs@.len() - i,
    {
        let ghost cur = listing(strings_view(names@), flags@);
        let ghost e = (slugs@[i as int]@, role_is_file@[i as int]);
        proof {
            assert(listing_names(cur) =~= strings_view(names@));
            assert(l.subrange(0, i + 1).drop_last() =~= l.subrange(0, i as int));
            assert(l.subrange(0, i + 1).last() == e);
        }
        let key = chars_of(slugs[i].as_str());
        let mut p: usize = 0;
        while p < names.len() && lex_less(&chars_of(names[p].as_str()), &key)
            invariant
                p <= names@.len(),
                key@ == e.0,
                forall|q: int| 0 <= q < p ==> lex_lt(#[trigger] strings_view(names@)[q], e.0),
            decreases names@.len() - p,
        {
            p = p + 1;
        }
        proof {
            assert forall|q: int| 0 <= q < p implies lex_lt(#[trigger] cur[q].0, e.0) by {
                assert(cur[q].0 == strings_view(names@)[q]);
            }
            lemma_insert_listed_at(cur, e, p as int);
            lemma_insert_listed_sorted(cur, e, p as int);
        }
        let present = p < names.len() && str_eq(names[p].as_str(), slugs[i].as_str());
        if !present {
            let ghost before_names = names@;
            let ghost before_flags = flags@;
            names.insert(p, slugs[i].clone());
            flags.insert(p, role_is_file[i]);
            proof {
                assert(strings_view(names@) =~= strings_view(before_names).insert(p as int, e.0));
                assert(listing(strings_view(names@), flags@) =~= cur.insert(p as int, e));
            }
        }
        proof {
            assert(listing_names(listing(strings_view(names@), flags@)) =~= strings_view(names@));
            assert forall|n: Seq<char>| #[trigger]
                strings_view(names@).contains(n) <==> strings_view(slugs@).subrange(0, i + 1).contains(n) by {
                let sv = strings_view(slugs@);
                let s0 = sv.subrange(0, i as int);
                let s1 = sv.subrange(0, i + 1);
                assert(s1 =~= s0.push(e.0));
                if s0.contains(n) {
                    let k = choose|k: int| 0 <= k < s0.len() && s0[k] == n;
                    assert(s1[k] == n);
                }
                if n == e.0 {
                    assert(s1[i as int] == n);
                }
                if s1.contains(n) {
                    let k = choose|k: int| 0 <= k < s1.len() && s1[k] == n;
                    if k < i {
                        assert(s0[k] == n);
                    }
                }
            }
        }
        i = i + 1;
    }
    proof {
        assert(l.subrange(0, i as int) =~= l);
        assert(strings_view(slugs@).subrange(0, i as int) =~= strings_view(slugs@));
    }
    (names, flags)
}

/// The flags of a listing.
pub open spec fn listing_flags(es: Seq<(Seq<char>, bool)>) -> Seq<bool> {
    es.map_values(|e: (Seq<char>, bool)| e.1)
}

/// The slugs of template fins.
pub open spec fn fin_slugs(fs: Seq<TemplateFin>) -> Seq<Seq<char>> {
    fs.map_values(|f: TemplateFin| f.slug@)
}

/// The template fins a listing gives: the listed directories in name
/// order, each name once, checked in that order.
pub open spec fn listed_fins_spec(fins_dir: Seq<char>, slugs: Seq<Seq<char>>, role_is_file: Seq<bool>) -> Result<
    Seq<(Seq<char>, Seq<char>)>,
    Seq<char>,
> {
    let o = ordered_listing(listing(slugs, role_is_file));
    template_fins_spec(fins_dir, listing_names(o), listing_flags(o))
}

/// The fins checked are the names given, in order.
proof fn lemma_template_fins_names(dir: Seq<char>, slugs: Seq<Seq<char>>, files: Seq<bool>)
    requires
        slugs.len() == files.len(),
        template_fins_spec(dir, slugs, files) is Ok,
    ensures
        template_fins_spec(dir, slugs, files)->Ok_0.map_values(|f: (Seq<char>, Seq<char>)| f.0) == slugs,
    decreases slugs.len(),
{
    if slugs.len() > 0 {
        lemma_template_fins_names(dir, slugs.drop_last(), files.drop_last());
        let fs = template_fins_spec(dir, slugs.drop_last(), files.drop_last())->Ok_0;
        assert(template_fins_spec(dir, slugs, files)->Ok_0.map_values(|f: (Seq<char>, Seq<char>)| f.0)
            =~= fs.map_values(|f: (Seq<char>, Seq<char>)| f.0).push(slugs.last()));
        assert(slugs.drop_last().push(slugs.last()) =~= slugs);
    } else {
        assert(template_fins_spec(dir, slugs, files)->Ok_0.map_values(|f: (Seq<char>, Seq<char>)| f.0)
            =~= slugs);
    }
}

/// The fins of a template, from the fin directories listed and whether
/// each has a `ROLE.md` file: in slug order, each slug once.
pub fn template_fins(fins_dir: &str, slugs: &Vec<String>, role_is_file: &Vec<bool>) -> (r: Result<
    Vec<TemplateFin>,
    String,
>)
    requires
        slugs@.len() == role_is_file@.len(),
    ensures
        match listed_fins_spec(fins_dir@, strings_view(slugs@), role_is_file@) {
            Ok(fs) => r matches Ok(x) && x@.map_values(|f: TemplateFin| template_fin_view(f)) == fs,
            Err(e) => r matches Err(x) && x@ == e,
        },
        r matches Ok(x) ==> names_ascending(fin_slugs(x@)) && forall|n: Seq<char>| #[trigger]
            fin_slugs(x@).contains(n) <==> strings_view(slugs@).contains(n),
{
    let (names, flags) = order_listing(slugs, role_is_file);
    let ghost o = ordered_listing(listing(strings_view(slugs@), role_is_file@));
    proof {
        assert(listing_names(o) =~= strings_view(names@));
        assert(listing_flags(o) =~= flags@);
    }
    let r = check_template_fins(fins_dir, &names, &flags);
    proof {
        if r is Ok {
            let x = r->Ok_0;
            lemma_template_fins_names(fins_dir@, strings_view(names@), flags@);
            let fs = template_fins_spec(fins_dir@, strings_view(names@), flags@)->Ok_0;
            assert(fin_slugs(x@) =~= fs.map_values(|f: (Seq<char>, Seq<char>)| f.0)) by {
                assert forall|k: int| 0 <= k < x@.len() implies fin_slugs(x@)[k] == fs.map_values(
                    |f: (Seq<char>, Seq<char>)| f.0,
                )[k] by {
                    assert(x@.map_values(|f: TemplateFin| template_fin_view(f))[k] == fs[k]);
                }
            }
        }
    }
    r
}

/// The fins of a template, checked in the order given.
fn check_template_fins(fins_dir: &str, slugs: &Vec<String>, role_is_file: &Vec<bool>) -> (r: Result<
    Vec<TemplateFin>,
    String,
>)
    requires
        slugs@.len() == role_is_file@.len(),
    ensures
        match template_fins_spec(fins_dir@, strings_view(slugs@), role_is_file@) {
            Ok(fs) => r matches Ok(x) && x@.map_values(|f: TemplateFin| template_fin_view(f)) == fs,
            Err(e) => r matches Err(x) && x@ == e,
        },
{
    let ghost sv = strings_view(slugs@);
    let mut out: Vec<TemplateFin> = Vec::new();
    let mut i: usize = 0;
    proof {
        assert(out@.map_values(|f: TemplateFin| template_fin_view(f)) =~= Seq::<
            (Seq<char>, Seq<char>),
        >::empty());
    }
    while i < slugs.len()
        invariant
            sv == strings_view(slugs@),
            slugs@.len() == role_is_file@.len(),
            i <= slugs@.len(),
            template_fins_spec(fins_dir@, sv.subrange(0, i as int), role_is_file@.subrange(0, i as int))
                matches Ok(fs) && out@.map_values(|f: TemplateFin| template_fin_view(f)) == fs,
        decreases slugs@.len() - i,
    {
        proof {
            assert(sv.subrange(0, i + 1).drop_last() =~= sv.subrange(0, i as int));
            assert(role_is_file@.subrange(0, i + 1).drop_last() =~= role_is_file@.subrange(0, i as int));
            assert(sv.subrange(0, i + 1).last() == slugs@[i as int]@);
            assert(role_is_file@.subrange(0, i + 1).last() == role_is_file@[i as int]);
        }
        let slug = &slugs[i];
        let dir = join_path(fins_dir, slug.as_str());
        let role_path = join_path(dir.as_str(), "ROLE.md");
        match validate_slug(slug.as_str()) {
            Err(e) => {
                proof {
                    lemma_template_err(fins_dir@, sv, role_is_file@, i + 1, sv.len() as int);
                    assert(sv.subrange(0, sv.len() as int) =~= sv);
                    assert(role_is_file@.subrange(0, sv.len() as int) =~= role_is_file@);
                }
                return Err(e);
            },
            Ok(()) => {},
        }
        if !role_is_file[i] {
            let mut e = String::from_str("template fin '");
            append(&mut e, slug.as_str());
            append(&mut e, "' is missing ");
            append(&mut e, role_path.as_str());
            proof {
                lemma_template_err(fins_dir@, sv, role_is_file@, i + 1, sv.len() as int);
                assert(sv.subrange(0, sv.len() as int) =~= sv);
                assert(role_is_file@.subrange(0, sv.len() as int) =~= role_is_file@);
            }
            return Err(e);
        }
        let ghost before = out@.map_values(|f: TemplateFin| template_fin_view(f));
        out.push(TemplateFin { slug: slug.clone(), role_path });
        proof {
            assert(out@.map_values(|f: TemplateFin| template_fin_view(f)) =~= before.push(
                (slugs@[i as int]@, join(join(fins_dir@, slugs@[i as int]@), "ROLE.md"@)),
            ));
        }
        i = i + 1;
    }
    proof {
        assert(sv.subrange(0, i as int) =~= sv);
        assert(role_is_file@.subrange(0, i as int) =~= role_is_file@);
    }
    Ok(out)
}

/// Whether a template defines the fin `operator`, which pods seed
/// themselves.
pub open spec fn has_operator(fs: Seq<(Seq<char>, Seq<char>)>) -> bool {
    exists|i: int| 0 <= i < fs.len() && #[trigger] fs[i].0 == "operator"@
}

/// The fins a template gives a pod, from its fin directory listing: the
/// template name must be a slug, and its fins must be there and must not
/// include `operator`.
pub open spec fn load_fins_spec(
    template: Seq<char>,
    fins_dir: Seq<char>,
    slugs: Seq<Seq<char>>,
    role_is_file: Seq<bool>,
) -> Result<Seq<(Seq<char>, Seq<char>)>, Seq<char>> {
    if !slug_ok(template) {
        Err(slug_error(template))
    } else {
        match listed_fins_spec(fins_dir, slugs, role_is_file) {
            Err(e) => Err(e),
            Ok(fs) => if fs.len() == 0 {
                Err("template '"@ + template + "' has no fins under "@ + fins_dir)
            } else if has_operator(fs) {
                Err(
                    "template fins may not include 'operator'; pods seed that local human fin automatically"@,
                )
            } else {
                Ok(fs)
            },
        }
    }
}

/// Checks the fins of a template, listed in its fins directory with
/// whether each has a `ROLE.md`; they come in slug order, each slug once.
pub fn load_template_fins(template: &str, fins_dir: &str, slugs: &Vec<String>, role_is_file: &Vec<bool>) -> (r:
    Result<(String, Vec<TemplateFin>), String>)
    requires
        slugs@.len() == role_is_file@.len(),
    ensures
        match load_fins_spec(template@, fins_dir@, strings_view(slugs@), role_is_file@) {
            Ok(fs) => r matches Ok(p) && p.0@ == template@ && p.1@.map_values(
                |f: TemplateFin| template_fin_view(f),
            ) == fs,
            Err(e) => r matches Err(x) && x@ == e,
        },
        r matches Ok(p) ==> names_ascending(fin_slugs(p.1@)) && forall|n: Seq<char>| #[trigger]
            fin_slugs(p.1@).contains(n) <==> strings_view(slugs@).contains(n),
{
    validate_slug(template)?;
    let fins = template_fins(fins_dir, slugs, role_is_file)?;
    let ghost fv = fins@.map_values(|f: TemplateFin| template_fin_view(f));
    if fins.len() == 0 {
        let mut e = String::from_str("template '");
        append(&mut e, template);
        append(&mut e, "' has no fins under ");
        append(&mut e, fins_dir);
        return Err(e);
    }
    let mut i: usize = 0;
    while i < fins.len()
        invariant
            fv == fins@.map_values(|f: TemplateFin| template_fin_view(f)),
            slug_ok(template@),
            fins@.len() > 0,
            listed_fins_spec(fins_dir@, strings_view(slugs@), role_is_file@) == Ok::<
                Seq<(Seq<char>, Seq<char>)>,
                Seq<char>,
            >(fv),
            i <= fins@.len(),
            forall|j: int| 0 <= j < i ==> fins@[j].slug@ != "operator"@,
        decreases fins@.len() - i,
    {
        if str_eq(fins[i].slug.as_str(), "operator") {
            proof {
                assert(fv[i as int].0 == "operator"@);
                assert(has_operator(fv));
            }
            return Err(
                String::from_str(
                    "template fins may not include 'operator'; pods seed that local human fin automatically",
                ),
            );
        }
        i = i + 1;
    }
    proof {
        assert forall|j: int| 0 <= j < fv.len() implies #[trigger] fv[j].0 != "operator"@ by {
            assert(fv[j].0 == fins@[j].slug@);
        }
    }
    Ok((String::from_str(template), fins))
}

/// Checks the fins of a template before syncing it into a pod.
pub fn load_template_fins_for_sync(
    template: &str,
    fins_dir: &str,
    slugs: &Vec<String>,
    role_is_file: &Vec<bool>,
) -> (r: Result<(String, Vec<TemplateFin>), String>)
    requires
        slugs@.len() == role_is_file@.len(),
    ensures
        match load_fins_spec(template@, fins_dir@, strings_view(slugs@), role_is_file@) {
            Ok(fs) => r matches Ok(p) && p.0@ == template@ && p.1@.map_values(
                |f: TemplateFin| template_fin_view(f),
            ) == fs,
            Err(e) => r matches Err(x) && x@ == e,
        },
        r matches Ok(p) ==> names_ascending(fin_slugs(p.1@)) && forall|n: Seq<char>| #[trigger]
            fin_slugs(p.1@).contains(n) <==> strings_view(slugs@).contains(n),
{
    load_template_fins(template, fins_dir, slugs, role_is_file)
}

/// The line `template list` prints for a template and its fins.
pub fn template_list_line(name: &str, fins: &Vec<String>) -> (r: String)
    ensures
        fins@.len() == 0 ==> r@ == name@ + " fins=0"@,
        fins@.len() > 0 ==> r@ == name@ + " fins="@ + crate::text::decimal(fins@.len()) + " ["@
            + joined(strings_view(fins@), ", "@) + "]"@,
{
    let mut r = String::from_str(name);
    if fins.len() == 0 {
        append(&mut r, " fins=0");
    } else {
        append(&mut r, " fins=");
        append(&mut r, crate::text::u64_to_decimal(fins.len() as u64).as_str());
        append(&mut r, " [");
        append(&mut r, join_with(fins, ", ").as_str());
        append(&mut r, "]");
    }
    r
}

/// A fin config with the template that owns the fin recorded in a
/// `[template]` table.
pub open spec fn origin_text_spec(contents: Seq<char>, template: Seq<char>, fin: Seq<char>) -> Seq<char> {
    crate::commands::with_newline(contents) + "\n[template]\nname = \""@ + toml_escaped(template)
        + "\"\nfin = \""@ + toml_escaped(fin) + "\"\n"@
}

/// Records in a fin config the template that owns the fin.
pub fn template_origin_text(contents: &str, template: &str, fin: &str) -> (r: String)
    ensures
        r@ == origin_text_spec(contents@, template@, fin@),
{
    let mut r = crate::commands::markdown_with_trailing_newline(contents);
    append(&mut r, "\n[template]\nname = \"");
    append(&mut r, crate::config::escape_toml_string(template).as_str());
    append(&mut r, "\"\nfin = \"");
    append(&mut r, crate::config::escape_toml_string(fin).as_str());
    append(&mut r, "\"\n");
    r
}

/// One step of a template sync: a line to print, or a change to make.
pub enum SyncStep {
    Print(String),
    /// Create the fin from the template.
    CreateFin,
    /// Record the template as the fin's owner.
    WriteOrigin,
    /// Write the template's role into `ROLE.md`.
    WriteRole,
    /// Write these agents instructions into `AGENTS.md`.
    WriteAgents(String),
    /// Delete the fin's directory.
    DeleteFin,
}

/// A step as a kind and a text.
pub open spec fn step_view(s: SyncStep) -> (nat, Seq<char>) {
    match s {
        SyncStep::Print(l) => (0, l@),
        SyncStep::CreateFin => (1, Seq::empty()),
        SyncStep::WriteOrigin => (2, Seq::empty()),
        SyncStep::WriteRole => (3, Seq::empty()),
        SyncStep::WriteAgents(a) => (4, a@),
        SyncStep::DeleteFin => (5, Seq::empty()),
    }
}

/// Steps as plain values.
pub open spec fn steps_view(v: Seq<SyncStep>) -> Seq<(nat, Seq<char>)> {
    v.map_values(|s: SyncStep| step_view(s))
}

/// A printed line as a step.
pub open spec fn print(l: Seq<char>) -> (nat, Seq<char>) {
    (0, l)
}

/// A change, unless the sync is a dry run.
pub open spec fn act(dry_run: bool, s: (nat, Seq<char>)) -> Seq<(nat, Seq<char>)> {
    if dry_run {
        Seq::empty()
    } else {
        seq![s]
    }
}

/// Whether a sync must read a fin's current `ROLE.md` and `AGENTS.md`: the
/// fin exists and is not owned by another template.
pub open spec fn needs_contents_spec(config_exists: bool, origin: Option<Seq<char>>, template: Seq<char>) -> bool {
    config_exists && match origin {
        Some(o) => o == template,
        None => true,
    }
}

/// Whether syncing a fin compares its current files.
pub fn sync_needs_contents(config_exists: bool, origin: Option<&str>, template: &str) -> (r: bool)
    ensures
        r == needs_contents_spec(config_exists, crate::model::opt_text(origin), template@),
{
    config_exists && match origin {
        Some(o) => str_eq(o, template),
        None => true,
    }
}

/// The steps for one template fin: a missing fin is added; a fin owned by
/// another template is skipped; an unowned fin is adopted; then `ROLE.md`
/// and `AGENTS.md` are updated when they differ from the template. Also
/// whether anything changed.
pub open spec fn sync_fin_spec(
    template: Seq<char>,
    pod: Seq<char>,
    fins_dir: Seq<char>,
    slug: Seq<char>,
    role: Seq<char>,
    config_exists: bool,
    origin: Option<Seq<char>>,
    role_current: Seq<char>,
    agents_current: Seq<char>,
    dry_run: bool,
) -> Result<(Seq<(nat, Seq<char>)>, bool), Seq<char>> {
    let h = join(fins_dir, slug);
    if !slug_ok(pod) {
        Err(slug_error(pod))
    } else if !slug_ok(slug) {
        Err(slug_error(slug))
    } else if !config_exists {
        Ok(
            (
                seq![
                    print("ADD fin "@ + slug),
                    print("  + "@ + join(h, "fin.toml"@)),
                    print("  + "@ + join(h, "ROLE.md"@)),
                    print("  + "@ + join(h, "AGENTS.md"@)),
                ] + act(dry_run, (1, Seq::empty())),
                true,
            ),
        )
    } else if origin is Some && origin.unwrap() != template {
        Ok(
            (
                seq![
                    print(
                        "SKIP fin "@ + slug + ": owned by template '"@ + origin.unwrap() + "', not '"@
                            + template + "'"@,
                    ),
                ],
                false,
            ),
        )
    } else {
        let adopt = origin is None;
        let agents = agents_spec(FIN_AGENTS_TEMPLATE@, pod, slug, ""@, role);
        let ru = role_current != role;
        let au = agents_current != agents;
        let s1 = if adopt {
            seq![print("ADOPT fin "@ + slug), print("  ~ "@ + join(h, "fin.toml"@))] + act(
                dry_run,
                (2, Seq::empty()),
            )
        } else {
            Seq::empty()
        };
        let s2 = if ru {
            seq![print("UPDATE fin "@ + slug), print("  ~ "@ + join(h, "ROLE.md"@))] + act(
                dry_run,
                (3, Seq::empty()),
            )
        } else {
            Seq::empty()
        };
        let s3 = if au {
            (if !ru {
                seq![print("UPDATE fin "@ + slug)]
            } else {
                Seq::empty()
            }) + seq![print("  ~ "@ + join(h, "AGENTS.md"@))] + act(dry_run, (4, agents))
        } else {
            Seq::empty()
        };
        Ok((s1 + s2 + s3, adopt || ru || au))
    }
}

fn push_print(out: &mut Vec<SyncStep>, a: &str, b: &str)
    ensures
        steps_view(final(out)@) == steps_view(old(out)@).push(print(a@ + b@)),
{
    let mut l = String::from_str(a);
    append(&mut l, b);
    let ghost before = steps_view(out@);
    out.push(SyncStep::Print(l));
    assert(steps_view(out@) =~= before.push(print(a@ + b@)));
}

fn push_act(out: &mut Vec<SyncStep>, dry_run: bool, s: SyncStep)
    ensures
        steps_view(final(out)@) == steps_view(old(out)@) + act(dry_run, step_view(s)),
{
    let ghost before = steps_view(out@);
    let ghost sv = step_view(s);
    if !dry_run {
        out.push(s);
        assert(steps_view(out@) =~= before + act(dry_run, sv));
    } else {
        assert(steps_view(out@) =~= before + act(dry_run, sv));
    }
}

/// The steps that sync one template fin into a pod, given what the pod
/// holds for it (its config's presence and owner, and its current role and
/// agents texts, read only when `sync_needs_contents` asks).
pub fn sync_fin(
    template: &str,
    pod: &str,
    fins_dir: &str,
    slug: &str,
    role: &str,
    config_exists: bool,
    origin: Option<&str>,
    role_current: &str,
    agents_current: &str,
    dry_run: bool,
) -> (r: Result<(Vec<SyncStep>, bool), String>)
    ensures
        match sync_fin_spec(
            template@,
            pod@,
            fins_dir@,
            slug@,
            role@,
            config_exists,
            crate::model::opt_text(origin),
            role_current@,
            agents_current@,
            dry_run,
        ) {
            Ok(p) => r matches Ok(x) && steps_view(x.0@) == p.0 && x.1 == p.1,
            Err(e) => r matches Err(x) && x@ == e,
        },
{
    let fin = FinRef::new(pod, slug)?;
    let h = join_path(fins_dir, slug);
    let mut out: Vec<SyncStep> = Vec::new();
    proof {
        assert(steps_view(out@) =~= Seq::<(nat, Seq<char>)>::empty());
    }
    if !config_exists {
        push_print(&mut out, "ADD fin ", slug);
        push_print(&mut out, "  + ", join_path(h.as_str(), "fin.toml").as_str());
        push_print(&mut out, "  + ", join_path(h.as_str(), "ROLE.md").as_str());
        push_print(&mut out, "  + ", join_path(h.as_str(), "AGENTS.md").as_str());
        push_act(&mut out, dry_run, SyncStep::CreateFin);
        return Ok((out, true));
    }
    if let Some(o) = origin {
        if !str_eq(o, template) {
            let mut l = String::from_str("SKIP fin ");
            append(&mut l, slug);
            append(&mut l, ": owned by template '");
            append(&mut l, o);
            append(&mut l, "', not '");
            append(&mut l, template);
            append(&mut l, "'");
            let ghost before = steps_view(out@);
            out.push(SyncStep::Print(l));
            assert(steps_view(out@) =~= before.push(print(l@)));
            return Ok((out, false));
        }
    }
    let adopt = origin.is_none();
    if adopt {
        push_print(&mut out, "ADOPT fin ", slug);
        push_print(&mut out, "  ~ ", join_path(h.as_str(), "fin.toml").as_str());
        push_act(&mut out, dry_run, SyncStep::WriteOrigin);
    }
    let ghost s1 = steps_view(out@);
    let agents = fin_agents_template(&fin, role);
    let ru = !str_eq(role_current, role);
    let au = !str_eq(agents_current, agents.as_str());
    if ru {
        push_print(&mut out, "UPDATE fin ", slug);
        push_print(&mut out, "  ~ ", join_path(h.as_str(), "ROLE.md").as_str());
        push_act(&mut out, dry_run, SyncStep::WriteRole);
    }
    let ghost s2 = steps_view(out@);
    if au {
        if !ru {
            push_print(&mut out, "UPDATE fin ", slug);
        }
        push_print(&mut out, "  ~ ", join_path(h.as_str(), "AGENTS.md").as_str());
        let ghost a = agents@;
        push_act(&mut out, dry_run, SyncStep::WriteAgents(agents));
        assert(step_view(SyncStep::WriteAgents(agents)) == (4nat, a));
    }
    proof {
        let spec = sync_fin_spec(
            template@,
            pod@,
            fins_dir@,
            slug@,
            role@,
            config_exists,
            crate::model::opt_text(origin),
            role_current@,
            agents_current@,
            dry_run,
        );
        assert(steps_view(out@) =~= spec->Ok_0.0);
    }
    Ok((out, adopt || ru || au))
}

/// Whether a fin of the pod is a candidate for deletion by a sync: not
/// `operator`, and not defined by the template.
pub fn sync_delete_candidate(slug: &str, template_fins: &Vec<TemplateFin>) -> (r: bool)
    ensures
        r == (slug@ != "operator"@ && forall|i: int|
            0 <= i < template_fins@.len() ==> template_fins@[i].slug@ != slug@),
{
    if str_eq(slug, "operator") {
        return false;
    }
    let mut i: usize = 0;
    while i < template_fins.len()
        invariant
            i <= template_fins@.len(),
            forall|j: int| 0 <= j < i ==> template_fins@[j].slug@ != slug@,
        decreases template_fins@.len() - i,
    {
        if str_eq(template_fins[i].slug.as_str(), slug) {
            return false;
        }
        i = i + 1;
    }
    true
}

/// The steps for a fin that left the template: deleted when the template
/// owns it. Also whether anything changed.
pub fn sync_delete(template: &str, fins_dir: &str, slug: &str, origin: Option<&str>, dry_run: bool) -> (r: (
    Vec<SyncStep>,
    bool,
))
    ensures
        (match origin {
            Some(o) => o@ == template@,
            None => false,
        }) ==> steps_view(r.0@) == seq![
            print(
                "DELETE fin "@ + slug@ + ": removed from template '"@ + template@
                    + "' and template-owned"@,
            ),
            print("  ! "@ + join(fins_dir@, slug@)),
        ] + act(dry_run, (5, Seq::empty())) && r.1,
        !(match origin {
            Some(o) => o@ == template@,
            None => false,
        }) ==> r.0@.len() == 0 && !r.1,
{
    let mut out: Vec<SyncStep> = Vec::new();
    let owned = match origin {
        Some(o) => str_eq(o, template),
        None => false,
    };
    if !owned {
        return (out, false);
    }
    proof {
        assert(steps_view(out@) =~= Seq::<(nat, Seq<char>)>::empty());
    }
    let mut l = String::from_str("DELETE fin ");
    append(&mut l, slug);
    append(&mut l, ": removed from template '");
    append(&mut l, template);
    append(&mut l, "' and template-owned");
    out.push(SyncStep::Print(l));
    push_print(&mut out, "  ! ", join_path(fins_dir, slug).as_str());
    push_act(&mut out, dry_run, SyncStep::DeleteFin);
    assert(steps_view(out@) =~= seq![
        print(
            "DELETE fin "@ + slug@ + ": removed from template '"@ + template@ + "' and template-owned"@,
        ),
        print("  ! "@ + join(fins_dir@, slug@)),
    ] + act(dry_run, (5, Seq::empty())));
    (out, true)
}

/// The first line of a sync.
pub fn sync_header(template: &str, pod: &str, dry_run: bool) -> (r: String)
    ensures
        r@ == "Sync template '"@ + template@ + "' into pod '"@ + pod@ + "'"@ + (if dry_run {
            " (dry run)"@
        } else {
            ""@
        }),
{
    let mut r = String::from_str("Sync template '");
    append(&mut r, template);
    append(&mut r, "' into pod '");
    append(&mut r, pod);
    append(&mut r, "'");
    append(&mut r, if dry_run { " (dry run)" } else { "" });
    r
}

/// Steps that only print.
pub open spec fn only_prints(steps: Seq<(nat, Seq<char>)>) -> bool {
    forall|i: int| 0 <= i < steps.len() ==> steps[i].0 == 0
}

/// A dry run of a template sync only prints: it creates, writes and deletes
/// nothing.
pub proof fn law_dry_run_only_prints(
    template: Seq<char>,
    pod: Seq<char>,
    fins_dir: Seq<char>,
    slug: Seq<char>,
    role: Seq<char>,
    config_exists: bool,
    origin: Option<Seq<char>>,
    role_current: Seq<char>,
    agents_current: Seq<char>,
)
    ensures
        sync_fin_spec(
            template,
            pod,
            fins_dir,
            slug,
            role,
            config_exists,
            origin,
            role_current,
            agents_current,
            true,
        ) matches Ok(p) ==> only_prints(p.0),
{
    let r = sync_fin_spec(
        template,
        pod,
        fins_dir,
        slug,
        role,
        config_exists,
        origin,
        role_current,
        agents_current,
        true,
    );
    if r is Ok {
        let steps = r->Ok_0.0;
        assert forall|i: int| 0 <= i < steps.len() implies steps[i].0 == 0 by {
            if config_exists && !(origin is Some && origin.unwrap() != template) {
                let h = join(fins_dir, slug);
                let agents = agents_spec(FIN_AGENTS_TEMPLATE@, pod, slug, ""@, role);
                let ru = role_current != role;
                let au = agents_current != agents;
                let s1 = if origin is None {
                    seq![print("ADOPT fin "@ + slug), print("  ~ "@ + join(h, "fin.toml"@))]
                } else {
                    Seq::empty()
                };
                let s2 = if ru {
                    seq![print("UPDATE fin "@ + slug), print("  ~ "@ + join(h, "ROLE.md"@))]
                } else {
                    Seq::empty()
                };
                let s3 = if au {
                    (if !ru {
                        seq![print("UPDATE fin "@ + slug)]
                    } else {
                        Seq::empty()
                    }) + seq![print("  ~ "@ + join(h, "AGENTS.md"@))]
                } else {
                    Seq::empty()
                };
                assert(steps =~= s1 + s2 + s3);
                if i < s1.len() {
                    assert(steps[i] == s1[i]);
                } else if i < s1.len() + s2.len() {
                    assert(steps[i] == s2[i - s1.len()]);
                } else {
                    assert(steps[i] == s3[i - s1.len() - s2.len()]);
                }
            }
        }
    }
}

/// Syncing never touches a fin that another template owns: it only says so.
pub proof fn law_foreign_fin_untouched(
    template: Seq<char>,
    pod: Seq<char>,
    fins_dir: Seq<char>,
    slug: Seq<char>,
    role: Seq<char>,
    owner: Seq<char>,
    role_current: Seq<char>,
    agents_current: Seq<char>,
    dry_run: bool,
)
    requires
        slug_ok(pod),
        slug_ok(slug),
        owner != template,
    ensures
        sync_fin_spec(
            template,
            pod,
            fins_dir,
            slug,
            role,
            true,
            Some(owner),
            role_current,
            agents_current,
            dry_run,
        ) matches Ok(p) && only_prints(p.0) && !p.1 && p.0.len() == 1,
{
}

} // verus!
