//! Checks and file contents behind the pod and fin commands: slugs and
//! backend names, Markdown sources, seed files and `.gitignore` upkeep.

use vstd::prelude::*;
use vstd::string::*;
use crate::config::{
    agents_spec, backend_line, fin_agents_template, fin_config_template_with_backend,
    pod_agents_template, pod_config_template, DEFAULT_CHARTER, DEFAULT_ROLE, FIN_AGENTS_TEMPLATE,
    FIN_CONFIG_HEAD, FIN_CONFIG_MID, FIN_CONFIG_TAIL, POD_AGENTS_TEMPLATE, POD_CONFIG_HEAD,
    POD_CONFIG_TAIL,
};
use crate::model::{opt_text, slug_error, slug_ok, validate_slug, FinRef, PodRef};
use crate::paths::{file_name, file_name_exec, join, join_path};
use crate::runtime::strings_view;
use crate::text::{
    append, chars_of, debug_quoted, debug_text, ends_with, is_alnum, line_at, lines, lines_from,
    starts_with, str_eq, trim, trim_bounds,
};

verus! {

/// The role of the `operator` fin every pod is seeded with.
pub const OPERATOR_ROLE: &'static str = "Human operator identity for the TUI. Use this fin as the stable local address\nfor messages that require human attention.";

/// Checks the slug of a pod being initialised.
pub fn validate_slug_for_init(slug: &str) -> (r: Result<(), String>)
    ensures
        r is Ok <==> slug_ok(slug@),
        r matches Err(e) ==> e@ == "invalid pod slug: "@ + slug_error(slug@),
{
    match validate_slug(slug) {
        Ok(()) => Ok(()),
        Err(e) => {
            let mut m = String::from_str("invalid pod slug: ");
            append(&mut m, e.as_str());
            Err(m)
        },
    }
}

/// A backend name: non-empty ASCII letters, digits, `-` and `_`.
pub open spec fn backend_name_ok(name: Seq<char>) -> bool {
    name.len() > 0 && forall|i: int| 0 <= i < name.len() ==> (is_alnum(#[trigger] name[i])
        || name[i] == '-' || name[i] == '_')
}

/// Checks a backend name given on the command line.
pub fn validate_backend_name(name: &str) -> (r: Result<(), String>)
    ensures
        r is Ok <==> backend_name_ok(name@),
        r matches Err(e) ==> e@ == "invalid backend name "@ + debug_text(name@)
            + "; use ASCII letters, numbers, '-' or '_'"@,
{
    let v = chars_of(name);
    let mut ok = v.len() > 0;
    let mut i: usize = 0;
    while i < v.len()
        invariant
            v@ == name@,
            i <= v@.len(),
            ok == (v@.len() > 0 && forall|j: int| 0 <= j < i ==> (is_alnum(#[trigger] v@[j])
                || v@[j] == '-' || v@[j] == '_')),
        decreases v@.len() - i,
    {
        let c = v[i];
        let good = ('a' <= c && c <= 'z') || ('A' <= c && c <= 'Z') || ('0' <= c && c <= '9') || c
            == '-' || c == '_';
        proof {
            if !good {
                assert(!(is_alnum(v@[i as int]) || v@[i as int] == '-' || v@[i as int] == '_'));
            }
        }
        ok = ok && good;
        i = i + 1;
    }
    if ok {
        Ok(())
    } else {
        let mut e = String::from_str("invalid backend name ");
        append(&mut e, debug_quoted(name).as_str());
        append(&mut e, "; use ASCII letters, numbers, '-' or '_'");
        Err(e)
    }
}

/// Text with a final newline, added when missing.
pub open spec fn with_newline(c: Seq<char>) -> Seq<char> {
    if c.len() > 0 && c.last() == '\n' {
        c
    } else {
        c + "\n"@
    }
}

/// Ends Markdown text with a newline.
pub fn markdown_with_trailing_newline(contents: &str) -> (r: String)
    ensures
        r@ == with_newline(contents@),
{
    let v = chars_of(contents);
    if v.len() > 0 && v[v.len() - 1] == '\n' {
        String::from_str(contents)
    } else {
        let mut r = String::from_str(contents);
        append(&mut r, "\n");
        r
    }
}

/// Where Markdown given on the command line comes from.
pub enum MarkdownSource {
    /// `-`: standard input.
    Stdin,
    /// `@path`: a file.
    File(String),
    /// Anything else: the text itself, already ending in a newline.
    Text(String),
}

/// How a Markdown argument is read: `-` from standard input, `@path` from a
/// file (the path may not be empty), anything else as text.
pub open spec fn markdown_source_spec(source: Seq<char>) -> Result<(nat, Seq<char>), Seq<char>> {
    if source == "-"@ {
        Ok((0, Seq::empty()))
    } else if source.len() > 0 && source[0] == '@' {
        if source.len() == 1 {
            Err("expected a file path after @"@)
        } else {
            Ok((1, source.drop_first()))
        }
    } else {
        Ok((2, with_newline(source)))
    }
}

/// The kind and text of a Markdown source.
pub open spec fn source_view(s: MarkdownSource) -> (nat, Seq<char>) {
    match s {
        MarkdownSource::Stdin => (0, Seq::empty()),
        MarkdownSource::File(p) => (1, p@),
        MarkdownSource::Text(t) => (2, t@),
    }
}

/// Classifies a Markdown argument.
pub fn read_markdown_source(source: &str) -> (r: Result<MarkdownSource, String>)
    ensures
        match markdown_source_spec(source@) {
            Ok(p) => r matches Ok(s) && source_view(s) == p,
            Err(e) => r matches Err(x) && x@ == e,
        },
{
    if str_eq(source, "-") {
        return Ok(MarkdownSource::Stdin);
    }
    let v = chars_of(source);
    if v.len() > 0 && v[0] == '@' {
        if v.len() == 1 {
            return Err(String::from_str("expected a file path after @"));
        }
        let path = crate::text::string_of_range(&v, 1, v.len());
        assert(v@.subrange(1, v@.len() as int) =~= source@.drop_first());
        return Ok(MarkdownSource::File(path));
    }
    Ok(MarkdownSource::Text(markdown_with_trailing_newline(source)))
}

/// Classifies an optional Markdown argument; without one the default text
/// is used.
pub fn read_optional_markdown_source(source: Option<&str>, default_contents: &str) -> (r: Result<
    MarkdownSource,
    String,
>)
    ensures
        match source {
            Some(s) => match markdown_source_spec(s@) {
                Ok(p) => r matches Ok(x) && source_view(x) == p,
                Err(e) => r matches Err(x) && x@ == e,
            },
            None => r matches Ok(x) && source_view(x) == (2nat, with_newline(default_contents@)),
        },
{
    match source {
        Some(s) => read_markdown_source(s),
        None => Ok(MarkdownSource::Text(markdown_with_trailing_newline(default_contents))),
    }
}

/// The arguments of `fin role set`: a role alone, or a fin and a role.
pub struct FinRoleSetArgs {
    pub refs: Vec<String>,
}

impl FinRoleSetArgs {
    /// The fin (if named) and the role.
    pub fn resolve_refs(&self) -> (r: Result<(Option<String>, String), String>)
        ensures
            self.refs@.len() == 1 ==> (r matches Ok(p) && p.0 is None && p.1@ == self.refs@[0]@),
            self.refs@.len() == 2 ==> (r matches Ok(p) && p.0 matches Some(f) && f@
                == self.refs@[0]@ && p.1@ == self.refs@[1]@),
            self.refs@.len() != 1 && self.refs@.len() != 2 ==> (r matches Err(e) && e@
                == "usage: orqa fin role set [fin] <role>"@),
    {
        if self.refs.len() == 1 {
            Ok((None, self.refs[0].clone()))
        } else if self.refs.len() == 2 {
            Ok((Some(self.refs[0].clone()), self.refs[1].clone()))
        } else {
            Err(String::from_str("usage: orqa fin role set [fin] <role>"))
        }
    }
}

/// The slug of a pod being initialised: the one given, else the name of its
/// directory.
pub fn init_slug(slug: Option<&str>, target_dir: &str) -> (r: Result<String, String>)
    ensures
        match slug {
            Some(s) => r matches Ok(x) && x@ == s@,
            None => match file_name(target_dir@) {
                Some(n) => r matches Ok(x) && x@ == n,
                None => r matches Err(e) && e@
                    == "could not determine slug from directory name; please provide one explicitly"@,
            },
        },
{
    match slug {
        Some(s) => Ok(String::from_str(s)),
        None => match file_name_exec(target_dir) {
            Some(n) => Ok(n),
            None => Err(
                String::from_str(
                    "could not determine slug from directory name; please provide one explicitly",
                ),
            ),
        },
    }
}

/// The error for initialising a directory that already holds a pod.
pub fn already_initialized_error(orqa_dir: &str) -> (r: String)
    ensures
        r@ == "orqa is already initialized in this directory (found "@ + orqa_dir@
            + "). Run 'orqa pod list' or 'orqa init' with a different directory."@,
{
    let mut e = String::from_str("orqa is already initialized in this directory (found ");
    append(&mut e, orqa_dir);
    append(
        &mut e,
        "). Run 'orqa pod list' or 'orqa init' with a different directory.",
    );
    e
}

/// The files of a new pod's data home, by name: its slug record, its
/// config, its charter and its agents file.
pub open spec fn pod_seed_spec(pod: Seq<char>, charter: Seq<char>) -> Seq<(Seq<char>, Seq<char>)> {
    seq![
        ("pod.txt"@, "slug="@ + pod + "\n"@),
        ("pod.toml"@, POD_CONFIG_HEAD@ + pod + POD_CONFIG_TAIL@),
        ("CHARTER.md"@, charter),
        ("AGENTS.md"@, agents_spec(POD_AGENTS_TEMPLATE@, pod, ""@, charter, ""@)),
    ]
}

/// The files a new pod starts with.
pub fn pod_seed_files(pod: &PodRef, charter: &str) -> (r: Vec<(String, String)>)
    ensures
        crate::mailbox::tasks::fields_view(r@) == pod_seed_spec(pod.slug@, charter@),
{
    let mut txt = String::from_str("slug=");
    append(&mut txt, pod.slug.as_str());
    append(&mut txt, "\n");
    let mut r: Vec<(String, String)> = Vec::new();
    r.push((String::from_str("pod.txt"), txt));
    r.push((String::from_str("pod.toml"), pod_config_template(pod)));
    r.push((String::from_str("CHARTER.md"), String::from_str(charter)));
    r.push((String::from_str("AGENTS.md"), pod_agents_template(pod, charter)));
    assert(crate::mailbox::tasks::fields_view(r@) =~= pod_seed_spec(pod.slug@, charter@));
    r
}

/// The files of a new fin's home, by name.
pub open spec fn fin_seed_spec(pod: Seq<char>, fin: Seq<char>, role: Seq<char>, backend: Option<Seq<char>>) -> Seq<
    (Seq<char>, Seq<char>),
> {
    seq![
        ("fin.txt"@, "slug="@ + fin + "\n"@),
        ("fin.toml"@, FIN_CONFIG_HEAD@ + fin + FIN_CONFIG_MID@ + backend_line(backend) + FIN_CONFIG_TAIL@),
        ("ROLE.md"@, role),
        ("AGENTS.md"@, agents_spec(FIN_AGENTS_TEMPLATE@, pod, fin, ""@, role)),
    ]
}

/// The files a new fin starts with, after checking its backend name.
pub fn create_fin_in_current_pod(fin: &FinRef, role: &str, backend: Option<&str>) -> (r: Result<
    Vec<(String, String)>,
    String,
>)
    ensures
        match backend {
            Some(b) => if backend_name_ok(b@) {
                r matches Ok(v) && crate::mailbox::tasks::fields_view(v@) == fin_seed_spec(
                    fin.pod@,
                    fin.fin@,
                    role@,
                    Some(b@),
                )
            } else {
                r matches Err(e) && e@ == "invalid backend name "@ + debug_text(b@)
                    + "; use ASCII letters, numbers, '-' or '_'"@
            },
            None => r matches Ok(v) && crate::mailbox::tasks::fields_view(v@) == fin_seed_spec(
                fin.pod@,
                fin.fin@,
                role@,
                None,
            ),
        },
{
    if let Some(b) = backend {
        validate_backend_name(b)?;
    }
    let mut txt = String::from_str("slug=");
    append(&mut txt, fin.fin.as_str());
    append(&mut txt, "\n");
    let mut r: Vec<(String, String)> = Vec::new();
    r.push((String::from_str("fin.txt"), txt));
    r.push((String::from_str("fin.toml"), fin_config_template_with_backend(fin, backend)));
    r.push((String::from_str("ROLE.md"), String::from_str(role)));
    r.push((String::from_str("AGENTS.md"), fin_agents_template(fin, role)));
    assert(crate::mailbox::tasks::fields_view(r@) =~= fin_seed_spec(
        fin.pod@,
        fin.fin@,
        role@,
        opt_text(backend),
    ));
    Ok(r)
}

/// Whether a `.gitignore` line already ignores the pod data directory.
pub open spec fn ignores_orqa(l: Seq<char>) -> bool {
    let t = trim(l);
    t == "/.orqa"@ || t == "/.orqa/"@ || starts_with(t, ".orqa"@)
}

/// The lines `.gitignore` gains for the pod data directory.
pub open spec fn gitignore_block() -> Seq<char> {
    "\n# Orqa coordination data (local only)\n/.orqa\n"@
}

/// A `.gitignore` that ignores `/.orqa`: unchanged (`None`) when a line
/// already ignores it, else with a block appended after a final newline.
pub open spec fn gitignore_spec(content: Seq<char>) -> Option<Seq<char>> {
    if exists|i: int| 0 <= i < lines(content).len() && ignores_orqa(#[trigger] lines(content)[i]) {
        None
    } else {
        Some(
            (if content.len() > 0 && content.last() != '\n' {
                content + "\n"@
            } else {
                content
            }) + gitignore_block(),
        )
    }
}

fn line_ignores_orqa(v: &Vec<char>, a: usize, b: usize) -> (r: bool)
    requires
        a <= b <= v@.len(),
    ensures
        r == ignores_orqa(v@.subrange(a as int, b as int)),
{
    proof {
        reveal_strlit("/.orqa");
        reveal_strlit("/.orqa/");
        reveal_strlit(".orqa");
    }
    let (ta, tb) = trim_bounds(v, a, b);
    let ghost t = v@.subrange(ta as int, tb as int);
    let n = tb - ta;
    let is_slash = n == 6 && v[ta] == '/' && v[ta + 1] == '.' && v[ta + 2] == 'o' && v[ta + 3] == 'r'
        && v[ta + 4] == 'q' && v[ta + 5] == 'a';
    let is_slash_dir = n == 7 && v[ta] == '/' && v[ta + 1] == '.' && v[ta + 2] == 'o' && v[ta + 3]
        == 'r' && v[ta + 4] == 'q' && v[ta + 5] == 'a' && v[ta + 6] == '/';
    let is_prefix = n >= 5 && v[ta] == '.' && v[ta + 1] == 'o' && v[ta + 2] == 'r' && v[ta + 3] == 'q'
        && v[ta + 4] == 'a';
    proof {
        if is_slash {
            assert(t =~= "/.orqa"@);
        } else if t == "/.orqa"@ {
            assert(t[0] == '/' && t[1] == '.' && t[2] == 'o' && t[3] == 'r' && t[4] == 'q' && t[5] == 'a');
        }
        if is_slash_dir {
            assert(t =~= "/.orqa/"@);
        } else if t == "/.orqa/"@ {
            assert(t[0] == '/' && t[1] == '.' && t[2] == 'o' && t[3] == 'r' && t[4] == 'q' && t[5] == 'a'
                && t[6] == '/');
        }
        if is_prefix {
            assert(t.subrange(0, 5) =~= ".orqa"@);
        } else if starts_with(t, ".orqa"@) {
            assert(t.subrange(0, 5)[0] == '.' && t.subrange(0, 5)[1] == 'o' && t.subrange(0, 5)[2]
                == 'r' && t.subrange(0, 5)[3] == 'q' && t.subrange(0, 5)[4] == 'a');
        }
    }
    is_slash || is_slash_dir || is_prefix
}

/// The `.gitignore` contents after making sure `/.orqa` is ignored, or
/// `None` when it already is.
pub fn gitignore_update(content: &str) -> (r: Option<String>)
    ensures
        crate::text::opt_string(r) == gitignore_spec(content@),
{
    let v = chars_of(content);
    let mut i: usize = 0;
    let ghost all = lines(content@);
    let ghost mut seen: int = 0;
    while i < v.len()
        invariant
            v@ == content@,
            all == lines(content@),
            i <= v@.len(),
            0 <= seen <= all.len(),
            all == all.subrange(0, seen) + lines_from(v@, i as int),
            forall|j: int| 0 <= j < seen ==> !ignores_orqa(#[trigger] all[j]),
        decreases v@.len() - i,
    {
        let (a, b, next) = line_at(&v, i);
        proof {
            assert(all[seen] == v@.subrange(a as int, b as int)) by {
                assert((all.subrange(0, seen) + lines_from(v@, i as int))[seen] == lines_from(
                    v@,
                    i as int,
                )[0]);
            }
        }
        if line_ignores_orqa(&v, a, b) {
            proof {
                assert(ignores_orqa(all[seen]));
            }
            return None;
        }
        proof {
            assert(all =~= all.subrange(0, seen + 1) + lines_from(v@, next as int)) by {
                assert(lines_from(v@, i as int) =~= seq![v@.subrange(a as int, b as int)]
                    + lines_from(v@, next as int));
            }
            seen = seen + 1;
        }
        i = next;
    }
    proof {
        assert(lines_from(v@, i as int) =~= Seq::<Seq<char>>::empty());
        assert(seen == all.len());
    }
    let mut out = String::from_str(content);
    if v.len() > 0 && v[v.len() - 1] != '\n' {
        append(&mut out, "\n");
    }
    append(&mut out, "\n# Orqa coordination data (local only)\n/.orqa\n");
    Some(out)
}

/// The line that starts at `j` is one of the lines read from `i` on, when
/// `j` starts a line: it is `i` itself or follows a newline.
proof fn lemma_line_start_is_listed(s: Seq<char>, i: int, j: int)
    requires
        0 <= i <= j < s.len(),
        j == i || s[j - 1] == '\n',
    ensures
        lines_from(s, i).contains(lines_from(s, j)[0]),
    decreases j - i,
{
    crate::text::lemma_find_char_from_bounds(s, '\n', i);
    if j == i {
        assert(lines_from(s, i)[0] == lines_from(s, j)[0]);
    } else {
        let e = crate::text::find_char_from(s, '\n', i);
        assert(e != -1 && e <= j - 1);
        lemma_line_start_is_listed(s, e + 1, j);
        let rest = lines_from(s, e + 1);
        let k = choose|k: int| 0 <= k < rest.len() && rest[k] == lines_from(s, j)[0];
        assert(lines_from(s, i)[k + 1] == rest[k]);
    }
}

/// Updating `.gitignore` for the pod data directory is needed at most once:
/// the updated file already ignores `/.orqa`.
pub proof fn law_gitignore_update_once(content: Seq<char>)
    requires
        gitignore_spec(content) is Some,
    ensures
        gitignore_spec(gitignore_spec(content).unwrap()) is None,
{
    let u = gitignore_spec(content).unwrap();
    let n = u.len() as int;
    let line = "/.orqa"@;
    let tail = "\n/.orqa\n"@;
    assert(line.len() == 6 && line[0] == '/' && line[1] == '.' && line[2] == 'o' && line[3] == 'r'
        && line[4] == 'q' && line[5] == 'a') by {
        reveal_strlit("/.orqa");
    }
    assert(gitignore_block().len() >= 8 && gitignore_block().subrange(
        gitignore_block().len() - 8,
        gitignore_block().len() as int,
    ) == tail) by {
        reveal_strlit("\n# Orqa coordination data (local only)\n/.orqa\n");
        reveal_strlit("\n/.orqa\n");
        assert(gitignore_block().subrange(gitignore_block().len() - 8, gitignore_block().len() as int)
            =~= tail);
    }
    assert(tail.len() == 8 && tail[0] == '\n' && tail[1] == '/' && tail[2] == '.' && tail[3] == 'o'
        && tail[4] == 'r' && tail[5] == 'q' && tail[6] == 'a' && tail[7] == '\n') by {
        reveal_strlit("\n/.orqa\n");
    }
    assert(u.subrange(n - 8, n) == tail);
    let j = n - 7;
    assert(u[j - 1] == '\n');
    assert(u[j] == '/' && u[j + 1] == '.' && u[j + 2] == 'o' && u[j + 3] == 'r' && u[j + 4] == 'q'
        && u[j + 5] == 'a' && u[j + 6] == '\n') by {
        assert(u[j] == u.subrange(n - 8, n)[1]);
        assert(u[j + 1] == u.subrange(n - 8, n)[2]);
        assert(u[j + 2] == u.subrange(n - 8, n)[3]);
        assert(u[j + 3] == u.subrange(n - 8, n)[4]);
        assert(u[j + 4] == u.subrange(n - 8, n)[5]);
        assert(u[j + 5] == u.subrange(n - 8, n)[6]);
        assert(u[j + 6] == u.subrange(n - 8, n)[7]);
    }
    assert(u[j - 1] == u.subrange(n - 8, n)[0]);
    crate::text::lemma_find_char_from_bounds(u, '\n', j);
    assert(crate::text::find_char_from(u, '\n', j) == j + 6);
    let l = u.subrange(j, j + 6);
    assert(l =~= line);
    assert(lines_from(u, j)[0] == crate::text::strip_cr(l));
    assert(crate::text::strip_cr(l) == l);
    assert(trim(l) == l) by {
        assert(!crate::text::is_ws(l[0]));
        assert(!crate::text::is_ws(l[5]));
        assert(crate::text::skip_ws_from(l, 0) == 0);
        assert(crate::text::back_ws_to(l, 6) == 6);
        assert(l.subrange(0, 6) =~= l);
    }
    assert(ignores_orqa(l));
    lemma_line_start_is_listed(u, 0, j);
    let k = choose|k: int| 0 <= k < lines(u).len() && lines(u)[k] == lines_from(u, j)[0];
    assert(ignores_orqa(lines(u)[k]));
}

} // verus!
