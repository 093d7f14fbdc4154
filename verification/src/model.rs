//! Pods, fins, mail addresses, and the on-disk layout of a pod.

use vstd::prelude::*;
use vstd::string::*;
use crate::paths::{join, join_path};
use crate::text::{append, chars_of, debug_quoted, debug_text, find_char, find_char_in, is_digit,
    is_lower, lemma_find_char_from_bounds, str_eq, string_of_range};

verus! {

/// A valid slug: non-empty, made of lowercase ASCII letters, digits and `-`.
pub open spec fn slug_ok(s: Seq<char>) -> bool {
    s.len() > 0 && forall|i: int| 0 <= i < s.len() ==> is_slug_char(#[trigger] s[i])
}

pub open spec fn is_slug_char(c: char) -> bool {
    is_lower(c) || is_digit(c) || c == '-'
}

/// The error text for an invalid slug.
pub open spec fn slug_error(s: Seq<char>) -> Seq<char> {
    "invalid slug "@ + debug_text(s) + "; use lowercase letters, digits, and hyphens"@
}

/// Checks that `slug` is made of lowercase letters, digits and hyphens.
pub fn validate_slug(slug: &str) -> (r: Result<(), String>)
    ensures
        r is Ok <==> slug_ok(slug@),
        r matches Err(e) ==> e@ == slug_error(slug@),
{
    let v = chars_of(slug);
    let mut ok = v.len() > 0;
    let mut i: usize = 0;
    while ok && i < v.len()
        invariant
            v@ == slug@,
            i <= v@.len(),
            ok ==> v@.len() > 0,
            ok ==> forall|j: int| 0 <= j < i ==> is_slug_char(#[trigger] v@[j]),
            !ok ==> !slug_ok(slug@),
        decreases v@.len() - i,
    {
        let c = v[i];
        if !(('a' <= c && c <= 'z') || ('0' <= c && c <= '9') || c == '-') {
            ok = false;
            assert(!is_slug_char(v@[i as int]));
        }
        i = i + 1;
    }
    if ok {
        Ok(())
    } else {
        let mut e = String::from_str("invalid slug ");
        let q = debug_quoted(slug);
        append(&mut e, q.as_str());
        append(&mut e, "; use lowercase letters, digits, and hyphens");
        Err(e)
    }
}

/// A pod, named by its slug.
pub struct PodRef {
    pub slug: String,
}

impl PodRef {
    /// A pod reference for a valid slug.
    pub fn new(slug: &str) -> (r: Result<PodRef, String>)
        ensures
            r is Ok <==> slug_ok(slug@),
            r matches Ok(p) ==> p.slug@ == slug@,
            r matches Err(e) ==> e@ == slug_error(slug@),
    {
        validate_slug(slug)?;
        Ok(PodRef { slug: String::from_str(slug) })
    }
}

/// A fin inside a pod.
pub struct FinRef {
    pub pod: String,
    pub fin: String,
}

/// `pod/fin`.
pub open spec fn fin_label(pod: Seq<char>, fin: Seq<char>) -> Seq<char> {
    pod + seq!['/'] + fin
}

impl FinRef {
    /// A fin reference for a valid pod slug and fin slug.
    pub fn new(pod: &str, fin: &str) -> (r: Result<FinRef, String>)
        ensures
            r is Ok <==> slug_ok(pod@) && slug_ok(fin@),
            r matches Ok(f) ==> f.pod@ == pod@ && f.fin@ == fin@,
            r matches Err(e) ==> e@ == (if !slug_ok(pod@) {
                slug_error(pod@)
            } else {
                slug_error(fin@)
            }),
    {
        validate_slug(pod)?;
        validate_slug(fin)?;
        Ok(FinRef { pod: String::from_str(pod), fin: String::from_str(fin) })
    }

    /// `pod/fin`.
    pub fn label(&self) -> (r: String)
        ensures
            r@ == fin_label(self.pod@, self.fin@),
    {
        let mut r = self.pod.clone();
        append(&mut r, "/");
        append(&mut r, self.fin.as_str());
        proof {
            reveal_strlit("/");
        }
        r
    }
}

/// A pod-local mail address `fin@pod.orqa`.
pub struct MailAddress {
    pub fin: String,
    pub pod: String,
}

/// `fin@pod.orqa`.
pub open spec fn address_label(fin: Seq<char>, pod: Seq<char>) -> Seq<char> {
    fin + seq!['@'] + pod + ".orqa"@
}

/// The fin and pod parts of `fin@pod.orqa`, before slug validation.
pub open spec fn address_parts(a: Seq<char>) -> Option<(Seq<char>, Seq<char>)> {
    let i = find_char(a, '@');
    if i < 0 {
        None
    } else {
        let domain = a.subrange(i + 1, a.len() as int);
        if domain.len() >= 5 && domain.subrange(domain.len() - 5, domain.len() as int)
            == ".orqa"@ {
            Some((a.subrange(0, i), domain.subrange(0, domain.len() - 5)))
        } else {
            None
        }
    }
}

/// The error for text that is not shaped like `fin@pod.orqa`.
pub open spec fn address_shape_error(a: Seq<char>) -> Seq<char> {
    "invalid local address "@ + debug_text(a) + "; expected fin@pod.orqa"@
}

impl Clone for MailAddress {
    fn clone(&self) -> (r: MailAddress)
        ensures
            r.fin@ == self.fin@,
            r.pod@ == self.pod@,
    {
        MailAddress { fin: self.fin.clone(), pod: self.pod.clone() }
    }
}

impl MailAddress {
    /// Parses `fin@pod.orqa`: the text before the first `@` is the fin, the
    /// rest must end in `.orqa`, and both parts must be slugs.
    pub fn parse(address: &str) -> (r: Result<MailAddress, String>)
        ensures
            r is Ok <==> (address_parts(address@) matches Some(p) && slug_ok(p.0) && slug_ok(
                p.1,
            )),
            r matches Ok(m) ==> address_parts(address@) == Some((m.fin@, m.pod@)),
            r matches Err(e) ==> e@ == (match address_parts(address@) {
                None => address_shape_error(address@),
                Some(p) => if !slug_ok(p.0) {
                    slug_error(p.0)
                } else {
                    slug_error(p.1)
                },
            }),
    {
        let v = chars_of(address);
        proof {
            lemma_find_char_from_bounds(v@, '@', 0);
            reveal_strlit(".orqa");
        }
        let at = match find_char_in(&v, '@', 0) {
            Some(at) => at,
            None => {
                return Err(shape_error(address));
            },
        };
        let ghost domain = v@.subrange(at + 1, v@.len() as int);
        let n = v.len();
        let ends = n - (at + 1) >= 5 && v[n - 5] == '.' && v[n - 4] == 'o' && v[n - 3] == 'r'
            && v[n - 2] == 'q' && v[n - 1] == 'a';
        proof {
            if n - (at + 1) >= 5 {
                let tail = domain.subrange(domain.len() - 5, domain.len() as int);
                assert(tail =~= v@.subrange(n - 5, n as int));
                if ends {
                    assert(tail =~= ".orqa"@);
                } else {
                    if tail == ".orqa"@ {
                        assert(tail[0] == '.' && tail[1] == 'o' && tail[2] == 'r' && tail[3] == 'q'
                            && tail[4] == 'a');
                    }
                }
            }
        }
        if !ends {
            return Err(shape_error(address));
        }
        let fin = string_of_range(&v, 0, at);
        let pod = string_of_range(&v, at + 1, n - 5);
        proof {
            assert(domain.subrange(0, domain.len() - 5) =~= v@.subrange(at + 1, n - 5));
        }
        validate_slug(fin.as_str())?;
        validate_slug(pod.as_str())?;
        Ok(MailAddress { fin, pod })
    }

    /// `fin@pod.orqa`.
    pub fn label(&self) -> (r: String)
        ensures
            r@ == address_label(self.fin@, self.pod@),
    {
        let mut r = self.fin.clone();
        append(&mut r, "@");
        append(&mut r, self.pod.as_str());
        append(&mut r, ".orqa");
        proof {
            reveal_strlit("@");
        }
        r
    }
}

fn shape_error(address: &str) -> (e: String)
    ensures
        e@ == address_shape_error(address@),
{
    let mut e = String::from_str("invalid local address ");
    let q = debug_quoted(address);
    append(&mut e, q.as_str());
    append(&mut e, "; expected fin@pod.orqa");
    e
}

/// A pod registered in the global registry: its slug, its root directory,
/// and whether it is enabled.
pub struct PodRegistration {
    pub slug: String,
    pub path: String,
    pub enabled: bool,
}

/// The global home plus what the process learned about pods: the pod
/// detected from the working directory (slug and root), and the registry.
pub struct Orqa {
    pub home: String,
    pub detected: Option<(String, String)>,
    pub registry: Vec<PodRegistration>,
    /// Why the global config could not be read, if it could not; it matters
    /// only where a pod is looked up in the registry.
    pub registry_error: Option<String>,
}

/// Index of the first registration with this slug, or -1.
pub open spec fn registry_index_from(regs: Seq<PodRegistration>, slug: Seq<char>, i: int) -> int
    decreases regs.len() - i,
{
    if i < 0 || i >= regs.len() {
        -1
    } else if regs[i].slug@ == slug {
        i
    } else {
        registry_index_from(regs, slug, i + 1)
    }
}

pub open spec fn registry_index(regs: Seq<PodRegistration>, slug: Seq<char>) -> int {
    registry_index_from(regs, slug, 0)
}

pub proof fn lemma_registry_index_bounds(regs: Seq<PodRegistration>, slug: Seq<char>, i: int)
    ensures
        registry_index_from(regs, slug, i) == -1 || (0 <= i <= registry_index_from(regs, slug, i)
            < regs.len() && regs[registry_index_from(regs, slug, i)].slug@ == slug),
    decreases regs.len() - i,
{
    if i < 0 || i >= regs.len() {
    } else if regs[i].slug@ == slug {
    } else {
        lemma_registry_index_bounds(regs, slug, i + 1);
    }
}

/// Whether the detected pod has this slug.
pub open spec fn detected_matches(d: Option<(String, String)>, slug: Seq<char>) -> bool {
    match d {
        Some(pair) => pair.0@ == slug,
        None => false,
    }
}

/// The root of the detected pod.
pub open spec fn detected_root(d: Option<(String, String)>) -> Seq<char> {
    match d {
        Some(pair) => pair.1@,
        None => Seq::empty(),
    }
}

/// The root directory of the pod with this slug: the detected pod when its
/// slug matches, else an enabled registration.
pub open spec fn pod_root_spec(o: Orqa, slug: Seq<char>) -> Result<Seq<char>, Seq<char>> {
    if detected_matches(o.detected, slug) {
        Ok(detected_root(o.detected))
    } else if o.registry_error is Some {
        Err(o.registry_error->Some_0@)
    } else {
        let i = registry_index(o.registry@, slug);
        if i < 0 {
            Err("pod '"@ + slug
                + "' is not registered. Run 'orqa init "@ + slug
                + " --path <pod-root>' or cd into a pod root containing .orqa/pod.toml"@)
        } else if o.registry@[i].enabled {
            Ok(o.registry@[i].path@)
        } else {
            Err("pod '"@ + slug + "' is registered but disabled"@)
        }
    }
}

/// Maps a result of text to its view.
pub open spec fn text_result(r: Result<String, String>) -> Result<Seq<char>, Seq<char>> {
    match r {
        Ok(s) => Ok(s@),
        Err(e) => Err(e@),
    }
}

impl Orqa {
    /// Finds the first registration with the given slug.
    fn find_registration(&self, slug: &str) -> (r: Option<usize>)
        ensures
            match r {
                Some(i) => i as int == registry_index(self.registry@, slug@) && i
                    < self.registry@.len(),
                None => registry_index(self.registry@, slug@) == -1,
            },
    {
        proof {
            lemma_registry_index_bounds(self.registry@, slug@, 0);
        }
        let mut i: usize = 0;
        while i < self.registry.len()
            invariant
                i <= self.registry@.len(),
                registry_index(self.registry@, slug@) == registry_index_from(
                    self.registry@,
                    slug@,
                    i as int,
                ),
            decreases self.registry@.len() - i,
        {
            if str_eq(self.registry[i].slug.as_str(), slug) {
                return Some(i);
            }
            i = i + 1;
        }
        None
    }

    /// The real filesystem root of a pod: the detected pod root when the
    /// slug matches, else the registered path of an enabled pod; a global
    /// config that could not be read is reported only here.
    pub fn pod_root_for_slug(&self, slug: &str) -> (r: Result<String, String>)
        ensures
            text_result(r) == pod_root_spec(*self, slug@),
    {
        if let Some((detected, root)) = &self.detected {
            if str_eq(detected.as_str(), slug) {
                return Ok(root.clone());
            }
        }
        if let Some(e) = &self.registry_error {
            return Err(e.clone());
        }
        match self.find_registration(slug) {
            Some(i) => {
                if self.registry[i].enabled {
                    Ok(self.registry[i].path.clone())
                } else {
                    let mut e = String::from_str("pod '");
                    append(&mut e, slug);
                    append(&mut e, "' is registered but disabled");
                    Err(e)
                }
            },
            None => {
                let mut e = String::from_str("pod '");
                append(&mut e, slug);
                append(&mut e, "' is not registered. Run 'orqa init ");
                append(&mut e, slug);
                append(
                    &mut e,
                    " --path <pod-root>' or cd into a pod root containing .orqa/pod.toml",
                );
                Err(e)
            },
        }
    }

    /// The root directory of `pod`.
    pub fn pod_root(&self, pod: &PodRef) -> (r: Result<String, String>)
        ensures
            text_result(r) == pod_root_spec(*self, pod.slug@),
    {
        self.pod_root_for_slug(pod.slug.as_str())
    }

    /// `<root>/.orqa`.
    pub fn pod_data_home(&self, pod: &PodRef) -> (r: Result<String, String>)
        ensures
            text_result(r) == (match pod_root_spec(*self, pod.slug@) {
                Ok(root) => Ok(join(root, ".orqa"@)),
                Err(e) => Err(e),
            }),
    {
        let root = self.pod_root(pod)?;
        Ok(join_path(root.as_str(), ".orqa"))
    }

    /// `<root>/.orqa/fins/<fin>`.
    pub fn fin_data_home(&self, fin: &FinRef) -> (r: Result<String, String>)
        ensures
            text_result(r) == (match pod_root_spec(*self, fin.pod@) {
                Ok(root) => Ok(fin_home_of(root, fin.fin@)),
                Err(e) => Err(e),
            }),
    {
        let root = self.pod_root_for_slug(fin.pod.as_str())?;
        let a = join_path(root.as_str(), ".orqa");
        let b = join_path(a.as_str(), "fins");
        Ok(join_path(b.as_str(), fin.fin.as_str()))
    }
}

/// `<root>/.orqa/fins/<fin>`.
pub open spec fn fin_home_of(root: Seq<char>, fin: Seq<char>) -> Seq<char> {
    join(join(join(root, ".orqa"@), "fins"@), fin)
}


/// A path below the fin home, or the error that resolving the pod gave.
pub open spec fn under_fin(o: Orqa, fin: FinRef, rel: Seq<char>) -> Result<Seq<char>, Seq<char>> {
    match pod_root_spec(o, fin.pod@) {
        Ok(root) => Ok(join(fin_home_of(root, fin.fin@), rel)),
        Err(e) => Err(e),
    }
}

/// A path below the pod data home, or the error that resolving the pod gave.
pub open spec fn under_pod(o: Orqa, pod: Seq<char>, rel: Seq<char>) -> Result<Seq<char>, Seq<char>> {
    match pod_root_spec(o, pod) {
        Ok(root) => Ok(join(join(root, ".orqa"@), rel)),
        Err(e) => Err(e),
    }
}

impl Orqa {
    fn fin_path(&self, fin: &FinRef, rel: &str) -> (r: Result<String, String>)
        ensures
            text_result(r) == under_fin(*self, *fin, rel@),
    {
        let home = self.fin_data_home(fin)?;
        Ok(join_path(home.as_str(), rel))
    }

    fn pod_path(&self, pod: &PodRef, rel: &str) -> (r: Result<String, String>)
        ensures
            text_result(r) == under_pod(*self, pod.slug@, rel@),
    {
        let home = self.pod_data_home(pod)?;
        Ok(join_path(home.as_str(), rel))
    }

    /// Where operator issues live: `<home>/ops/issues`.
    pub fn issues_home(&self) -> (r: String)
        ensures
            r@ == join(join(self.home@, "ops"@), "issues"@),
    {
        let ops = join_path(self.home.as_str(), "ops");
        join_path(ops.as_str(), "issues")
    }

    /// The fin's maildir.
    pub fn mail_home(&self, fin: &FinRef) -> (r: Result<String, String>)
        ensures
            text_result(r) == under_fin(*self, *fin, "mail"@),
    {
        self.fin_path(fin, "mail")
    }

    /// The fin's task queue.
    pub fn task_home(&self, fin: &FinRef) -> (r: Result<String, String>)
        ensures
            text_result(r) == under_fin(*self, *fin, "tasks"@),
    {
        self.fin_path(fin, "tasks")
    }

    /// The fin's run lock.
    pub fn lock_path(&self, fin: &FinRef) -> (r: Result<String, String>)
        ensures
            text_result(r) == under_fin(*self, *fin, "run.lock"@),
    {
        self.fin_path(fin, "run.lock")
    }

    /// The fin's run directory.
    pub fn runs_home(&self, fin: &FinRef) -> (r: Result<String, String>)
        ensures
            text_result(r) == under_fin(*self, *fin, "runs"@),
    {
        self.fin_path(fin, "runs")
    }

    /// The directory of one run.
    pub fn run_home(&self, fin: &FinRef, run: &str) -> (r: Result<String, String>)
        ensures
            text_result(r) == (match under_fin(*self, *fin, "runs"@) {
                Ok(p) => Ok(join(p, run@)),
                Err(e) => Err(e),
            }),
    {
        let runs = self.runs_home(fin)?;
        Ok(join_path(runs.as_str(), run))
    }

    /// The latest-run pointer.
    pub fn latest_run_path(&self, fin: &FinRef) -> (r: Result<String, String>)
        ensures
            text_result(r) == under_fin(*self, *fin, "latest-run"@),
    {
        self.fin_path(fin, "latest-run")
    }

    /// The run ledger.
    pub fn runs_ledger_path(&self, fin: &FinRef) -> (r: Result<String, String>)
        ensures
            text_result(r) == under_fin(*self, *fin, "runs.jsonl"@),
    {
        self.fin_path(fin, "runs.jsonl")
    }

    /// The pod pause marker.
    pub fn pod_sleep_path(&self, pod: &PodRef) -> (r: Result<String, String>)
        ensures
            text_result(r) == under_pod(*self, pod.slug@, "sleep.lock"@),
    {
        self.pod_path(pod, "sleep.lock")
    }

    /// The fin pause marker.
    pub fn fin_sleep_path(&self, fin: &FinRef) -> (r: Result<String, String>)
        ensures
            text_result(r) == under_fin(*self, *fin, "sleep.lock"@),
    {
        self.fin_path(fin, "sleep.lock")
    }

    /// The pod hook directory.
    pub fn pod_hooks_home(&self, pod: &PodRef) -> (r: Result<String, String>)
        ensures
            text_result(r) == under_pod(*self, pod.slug@, "hooks"@),
    {
        self.pod_path(pod, "hooks")
    }

    /// The directory of one hook phase.
    pub fn pod_hook_phase_home(&self, pod: &PodRef, phase: &str) -> (r: Result<String, String>)
        ensures
            text_result(r) == (match under_pod(*self, pod.slug@, "hooks"@) {
                Ok(p) => Ok(join(p, phase@)),
                Err(e) => Err(e),
            }),
    {
        let hooks = self.pod_hooks_home(pod)?;
        Ok(join_path(hooks.as_str(), phase))
    }

    /// The state directory of one hook.
    pub fn pod_hook_state_home(&self, pod: &PodRef, hook: &str) -> (r: Result<String, String>)
        ensures
            text_result(r) == (match under_pod(*self, pod.slug@, "hooks"@) {
                Ok(p) => Ok(join(join(p, "state"@), hook@)),
                Err(e) => Err(e),
            }),
    {
        let hooks = self.pod_hooks_home(pod)?;
        let state = join_path(hooks.as_str(), "state");
        Ok(join_path(state.as_str(), hook))
    }

    /// Succeeds when the pod's `pod.toml` is present, else explains how to
    /// create the pod.
    pub fn ensure_pod_exists(&self, pod: &PodRef, config_present: bool) -> (r: Result<(), String>)
        ensures
            r is Ok <==> config_present,
            r matches Err(e) ==> e@ == "pod '"@ + pod.slug@ + "' does not exist (run 'orqa pod create "@
                + pod.slug@ + "' to create it)"@,
    {
        if config_present {
            Ok(())
        } else {
            let mut e = String::from_str("pod '");
            append(&mut e, pod.slug.as_str());
            append(&mut e, "' does not exist (run 'orqa pod create ");
            append(&mut e, pod.slug.as_str());
            append(&mut e, "' to create it)");
            Err(e)
        }
    }

    /// Succeeds when the fin's `fin.toml` is present, else explains how to
    /// create the fin.
    pub fn ensure_fin_exists(&self, fin: &FinRef, config_present: bool) -> (r: Result<(), String>)
        ensures
            r is Ok <==> config_present,
            r matches Err(e) ==> e@ == "fin '"@ + fin_label(fin.pod@, fin.fin@)
                + "' does not exist (run 'orqa fin create "@ + fin_label(fin.pod@, fin.fin@)
                + "' to create it)"@,
    {
        if config_present {
            Ok(())
        } else {
            let label = fin.label();
            let mut e = String::from_str("fin '");
            append(&mut e, label.as_str());
            append(&mut e, "' does not exist (run 'orqa fin create ");
            append(&mut e, label.as_str());
            append(&mut e, "' to create it)");
            Err(e)
        }
    }
}

/// Which pod a command runs in: an explicit pod first, then `ORQA_POD`, then
/// the pod detected from the working directory.
pub open spec fn pod_context_spec(
    o: Orqa,
    cli_pod: Option<Seq<char>>,
    env_pod: Option<Seq<char>>,
) -> Result<(Seq<char>, Seq<char>), Seq<char>> {
    let chosen = match cli_pod {
        Some(p) => Some(p),
        None => env_pod,
    };
    match chosen {
        Some(slug) => match pod_root_spec(o, slug) {
            Ok(root) => Ok((slug, root)),
            Err(e) => Err(e),
        },
        None => match o.detected {
            Some(pair) => Ok((pair.0@, pair.1@)),
            None => Err(
                "missing pod: no pod specified and no pod detected in current directory tree. Pass a pod slug, set ORQA_POD, or cd into a pod root that contains .orqa/pod.toml"@,
            ),
        },
    }
}

/// Maps an optional string to its text.
pub open spec fn opt_text(o: Option<&str>) -> Option<Seq<char>> {
    match o {
        Some(s) => Some(s@),
        None => None,
    }
}

/// Resolves the pod slug and root from an explicit pod, `ORQA_POD`, or the
/// detected pod, in that order.
pub fn resolve_pod_context(orqa: &Orqa, cli_pod: Option<&str>, env_pod: Option<&str>) -> (r:
    Result<(String, String), String>)
    ensures
        match pod_context_spec(*orqa, opt_text(cli_pod), opt_text(env_pod)) {
            Ok(p) => r matches Ok(q) && q.0@ == p.0 && q.1@ == p.1,
            Err(e) => r matches Err(x) && x@ == e,
        },
{
    let chosen = match cli_pod {
        Some(p) => Some(p),
        None => env_pod,
    };
    match chosen {
        Some(slug) => {
            let root = orqa.pod_root_for_slug(slug)?;
            Ok((String::from_str(slug), root))
        },
        None => match &orqa.detected {
            Some((slug, root)) => Ok((slug.clone(), root.clone())),
            None => Err(
                String::from_str(
                    "missing pod: no pod specified and no pod detected in current directory tree. Pass a pod slug, set ORQA_POD, or cd into a pod root that contains .orqa/pod.toml",
                ),
            ),
        },
    }
}

/// Where a registered pod lives: `~/` expanded with `$HOME` when it is set,
/// and a relative path taken from the working directory.
pub open spec fn registered_path(path: Seq<char>, home: Option<Seq<char>>, cwd: Seq<char>) -> Seq<char> {
    let expanded = if path.len() >= 2 && path[0] == '~' && path[1] == '/' {
        match home {
            Some(h) => join(h, path.subrange(2, path.len() as int)),
            None => path,
        }
    } else {
        path
    };
    if expanded.len() > 0 && expanded[0] == '/' {
        expanded
    } else {
        join(cwd, expanded)
    }
}

/// The registration an entry of `[pods]` makes, if it is a table with a
/// string `path`; a pod is enabled unless it says otherwise.
pub open spec fn registration_entry(
    value: crate::config::ConfigValue,
    home: Option<Seq<char>>,
    cwd: Seq<char>,
) -> Option<(Seq<char>, bool)> {
    match crate::config::table_of(Some(value)) {
        None => None,
        Some(t) => match crate::config::text_of(crate::config::table_get(t, "path"@)) {
            None => None,
            Some(p) => Some(
                (
                    registered_path(p, home, cwd),
                    match crate::config::flag_of(crate::config::table_get(t, "enabled"@)) {
                        Some(b) => b,
                        None => true,
                    },
                ),
            ),
        },
    }
}

/// The registrations of the `[pods]` entries, in order; an entry whose
/// slug is invalid makes the registry unreadable.
pub open spec fn registry_entries(
    es: Seq<(String, crate::config::ConfigValue)>,
    home: Option<Seq<char>>,
    cwd: Seq<char>,
) -> Result<Seq<(Seq<char>, Seq<char>, bool)>, Seq<char>>
    decreases es.len(),
{
    if es.len() == 0 {
        Ok(Seq::empty())
    } else {
        match registry_entries(es.drop_last(), home, cwd) {
            Err(e) => Err(e),
            Ok(rs) => match registration_entry(es.last().1, home, cwd) {
                None => Ok(rs),
                Some(p) => if !slug_ok(es.last().0@) {
                    Err(slug_error(es.last().0@))
                } else {
                    Ok(rs.push((es.last().0@, p.0, p.1)))
                },
            },
        }
    }
}

/// The pods the global config registers.
pub open spec fn registry_spec(
    config: Seq<(String, crate::config::ConfigValue)>,
    home: Option<Seq<char>>,
    cwd: Seq<char>,
) -> Result<Seq<(Seq<char>, Seq<char>, bool)>, Seq<char>> {
    match crate::config::table_of(crate::config::table_get(config, "pods"@)) {
        None => Ok(Seq::empty()),
        Some(pods) => registry_entries(pods, home, cwd),
    }
}

/// A registration as plain values.
pub open spec fn registration_view(r: PodRegistration) -> (Seq<char>, Seq<char>, bool) {
    (r.slug@, r.path@, r.enabled)
}

fn registered_path_exec(path: &str, home: Option<&str>, cwd: &str) -> (r: String)
    ensures
        r@ == registered_path(path@, opt_text(home), cwd@),
{
    let v = chars_of(path);
    let expanded = if v.len() >= 2 && v[0] == '~' && v[1] == '/' {
        match home {
            Some(h) => {
                let rest = string_of_range(&v, 2, v.len());
                join_path(h, rest.as_str())
            },
            None => String::from_str(path),
        }
    } else {
        String::from_str(path)
    };
    let e = chars_of(expanded.as_str());
    if e.len() > 0 && e[0] == '/' {
        expanded
    } else {
        join_path(cwd, expanded.as_str())
    }
}

/// The slugs of registrations in strictly ascending order, so each comes
/// once, as the keys of a map.
pub open spec fn slugs_ascending(regs: Seq<PodRegistration>) -> bool {
    forall|i: int, j: int| 0 <= i < j < regs.len() ==> crate::mailbox::tasks::lex_lt(regs[i].slug@, regs[j].slug@)
}

/// The pods the parsed global config registers, with `$HOME` (if set) and
/// the working directory used to complete their paths; read from a parsed
/// file, they come in slug order, each slug once.
pub fn load_registry(
    config: &Vec<(String, crate::config::ConfigValue)>,
    home: Option<&str>,
    cwd: &str,
) -> (r: Result<Vec<PodRegistration>, String>)
    ensures
        match registry_spec(config@, opt_text(home), cwd@) {
            Ok(rs) => r matches Ok(x) && x@.map_values(|p: PodRegistration| registration_view(p)) == rs,
            Err(e) => r matches Err(x) && x@ == e,
        },
        crate::config::tables_ascending(config@) ==> (r matches Ok(x) ==> slugs_ascending(x@)),
{
    let mut out: Vec<PodRegistration> = Vec::new();
    let pods = match crate::config::sub_table(config, "pods") {
        Some(p) => p,
        None => {
            assert(out@.map_values(|p: PodRegistration| registration_view(p)) =~= Seq::<
                (Seq<char>, Seq<char>, bool),
            >::empty());
            return Ok(out);
        },
    };
    let ghost es = pods@;
    let ghost asc = crate::config::tables_ascending(config@);
    proof {
        if asc {
            crate::config::lemma_table_get_ascending(config@, "pods"@, 0);
        }
    }
    let mut i: usize = 0;
    proof {
        assert(out@.map_values(|p: PodRegistration| registration_view(p)) =~= Seq::<
            (Seq<char>, Seq<char>, bool),
        >::empty());
        assert(es.subrange(0, 0) =~= Seq::<(String, crate::config::ConfigValue)>::empty());
    }
    while i < pods.len()
        invariant
            es == pods@,
            crate::config::table_of(crate::config::table_get(config@, "pods"@)) == Some(es),
            i <= es.len(),
            registry_entries(es.subrange(0, i as int), opt_text(home), cwd@) matches Ok(rs)
                && out@.map_values(|p: PodRegistration| registration_view(p)) == rs,
            asc == crate::config::tables_ascending(config@),
            asc ==> crate::config::keys_ascending(es),
            asc ==> slugs_ascending(out@),
            asc ==> forall|a: int, j: int|
                0 <= a < out@.len() && i <= j < es.len() ==> crate::mailbox::tasks::lex_lt(
                    #[trigger] out@[a].slug@,
                    #[trigger] es[j].0@,
                ),
        decreases es.len() - i,
    {
        proof {
            assert(es.subrange(0, i + 1).drop_last() =~= es.subrange(0, i as int));
            assert(es.subrange(0, i + 1).last() == es[i as int]);
        }
        let entry = &pods[i];
        let table = match &entry.1 {
            crate::config::ConfigValue::Table(t) => Some(t),
            _ => None,
        };
        if let Some(t) = table {
            match crate::config::string_field(t, "path") {
                Some(path) => {
                    let enabled = match crate::config::bool_field(t, "enabled") {
                        Some(b) => b,
                        None => true,
                    };
                    match validate_slug(entry.0.as_str()) {
                        Err(e) => {
                            proof {
                                assert(crate::config::table_of(Some(entry.1)) == Some(t@));
                                assert(registration_entry(es[i as int].1, opt_text(home), cwd@) is Some);
                                assert(registry_entries(es.subrange(0, i + 1), opt_text(home), cwd@)
                                    == Err::<Seq<(Seq<char>, Seq<char>, bool)>, Seq<char>>(
                                    slug_error(entry.0@),
                                ));
                                lemma_registry_err(es, i + 1, es.len() as int, opt_text(home), cwd@);
                                assert(es.subrange(0, es.len() as int) =~= es);
                            }
                            return Err(e);
                        },
                        Ok(()) => {},
                    }
                    let p = registered_path_exec(path.as_str(), home, cwd);
                    let ghost before = out@.map_values(|p: PodRegistration| registration_view(p));
                    out.push(PodRegistration { slug: entry.0.clone(), path: p, enabled });
                    proof {
                        assert(out@.map_values(|p: PodRegistration| registration_view(p)) =~= before.push(
                            (entry.0@, registered_path(path@, opt_text(home), cwd@), enabled),
                        ));
                    }
                },
                None => {},
            }
        }
        i = i + 1;
    }
    proof {
        assert(es.subrange(0, i as int) =~= es);
    }
    Ok(out)
}

proof fn lemma_registry_err(
    es: Seq<(String, crate::config::ConfigValue)>,
    k: int,
    n: int,
    home: Option<Seq<char>>,
    cwd: Seq<char>,
)
    requires
        0 <= k <= n <= es.len(),
        registry_entries(es.subrange(0, k), home, cwd) is Err,
    ensures
        registry_entries(es.subrange(0, n), home, cwd) == registry_entries(es.subrange(0, k), home, cwd),
    decreases n - k,
{
    if n > k {
        lemma_registry_err(es, k, n - 1, home, cwd);
        assert(es.subrange(0, n).drop_last() =~= es.subrange(0, n - 1));
    }
}

/// A mail address written from a fin and a pod reads back as the same fin
/// and pod.
pub proof fn law_address_round_trip(fin: Seq<char>, pod: Seq<char>)
    requires
        slug_ok(fin),
        slug_ok(pod),
    ensures
        address_parts(address_label(fin, pod)) == Some((fin, pod)),
{
    reveal_strlit(".orqa");
    let a = address_label(fin, pod);
    assert(a[fin.len() as int] == '@');
    assert forall|j: int| 0 <= j < fin.len() implies a[j] != '@' by {
        assert(a[j] == fin[j]);
        assert(is_slug_char(fin[j]));
    }
    lemma_find_char_from_bounds(a, '@', 0);
    let i = find_char(a, '@');
    if i != fin.len() {
        if i >= 0 && i < fin.len() {
            assert(a[i] == '@');
        }
    }
    assert(i == fin.len());
    let domain = a.subrange(i + 1, a.len() as int);
    assert(domain =~= pod + ".orqa"@);
    assert(domain.subrange(domain.len() - 5, domain.len() as int) =~= ".orqa"@);
    assert(a.subrange(0, i) =~= fin);
    assert(domain.subrange(0, domain.len() - 5) =~= pod);
}

/// An address that is shaped like `fin@pod.orqa` is exactly the label of
/// its parts.
pub proof fn law_address_label_of_parts(a: Seq<char>)
    requires
        address_parts(a) is Some,
    ensures
        address_label(address_parts(a)->Some_0.0, address_parts(a)->Some_0.1) == a,
{
    reveal_strlit(".orqa");
    lemma_find_char_from_bounds(a, '@', 0);
    let i = find_char(a, '@');
    let domain = a.subrange(i + 1, a.len() as int);
    let p = address_parts(a)->Some_0;
    assert(domain =~= p.1 + ".orqa"@);
    assert(a =~= p.0 + seq!['@'] + domain);
}

/// Pod context precedence: an explicit pod wins over `ORQA_POD`, which wins
/// over the pod detected from the working directory.
pub proof fn law_pod_context_precedence(
    o: Orqa,
    cli_pod: Option<Seq<char>>,
    env_pod: Option<Seq<char>>,
)
    ensures
        cli_pod is Some ==> pod_context_spec(o, cli_pod, env_pod) == pod_context_spec(o, cli_pod, None),
        cli_pod is Some ==> pod_context_spec(o, cli_pod, env_pod) == (match pod_root_spec(
            o,
            cli_pod.unwrap(),
        ) {
            Ok(root) => Ok((cli_pod.unwrap(), root)),
            Err(e) => Err(e),
        }),
        cli_pod is None && env_pod is Some ==> pod_context_spec(o, cli_pod, env_pod)
            == pod_context_spec(o, env_pod, None),
        cli_pod is None && env_pod is None && o.detected is Some ==> pod_context_spec(
            o,
            cli_pod,
            env_pod,
        ) == Ok::<(Seq<char>, Seq<char>), Seq<char>>((o.detected.unwrap().0@, o.detected.unwrap().1@)),
{
}

} // verus!
