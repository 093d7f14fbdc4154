//! `pod doctor`: which paths a healthy pod and fin have, and the lines the
//! checks print.

use vstd::prelude::*;
use vstd::string::*;
use crate::config::toml_escaped;
use crate::model::{fin_label, slug_error, slug_ok, FinRef, PodRef};
use crate::paths::{join, join_path};
use crate::runtime::{signed_text, strings_view};
use crate::text::{append, replace_char_str};

verus! {

/// Refuses a probe timeout of zero seconds.
pub fn doctor_timeout(timeout: u64) -> (r: Result<(), String>)
    ensures
        r is Ok <==> timeout != 0,
        r matches Err(e) ==> e@ == "pod doctor timeout must be at least 1 second"@,
{
    if timeout == 0 {
        Err(String::from_str("pod doctor timeout must be at least 1 second"))
    } else {
        Ok(())
    }
}

/// The fins a doctor run checks: the one named, which must exist, or every
/// fin directory of the pod.
pub fn doctor_fins(pod: &PodRef, fin: Option<&str>, fin_config_present: bool, listed: &Vec<String>) -> (r:
    Result<Vec<String>, String>)
    ensures
        match fin {
            Some(f) => if !slug_ok(pod.slug@) || !slug_ok(f@) {
                r matches Err(e) && e@ == (if !slug_ok(pod.slug@) {
                    slug_error(pod.slug@)
                } else {
                    slug_error(f@)
                })
            } else if !fin_config_present {
                r matches Err(e) && e@ == "fin '"@ + fin_label(pod.slug@, f@)
                    + "' does not exist (run 'orqa fin create "@ + fin_label(pod.slug@, f@)
                    + "' to create it)"@
            } else {
                r matches Ok(v) && strings_view(v@) == seq![f@]
            },
            None => r matches Ok(v) && strings_view(v@) == strings_view(listed@),
        },
{
    match fin {
        Some(f) => {
            let fr = FinRef::new(pod.slug.as_str(), f)?;
            let o = crate::model::Orqa { home: String::new(), detected: None, registry: Vec::new(), registry_error: None };
            o.ensure_fin_exists(&fr, fin_config_present)?;
            let mut v: Vec<String> = Vec::new();
            v.push(String::from_str(f));
            assert(strings_view(v@) =~= seq![f@]);
            Ok(v)
        },
        None => {
            let mut v: Vec<String> = Vec::new();
            let mut i: usize = 0;
            while i < listed.len()
                invariant
                    i <= listed@.len(),
                    strings_view(v@) == strings_view(listed@).subrange(0, i as int),
                decreases listed@.len() - i,
            {
                let ghost before = v@;
                v.push(listed[i].clone());
                proof {
                    assert(strings_view(v@) =~= strings_view(before).push(listed@[i as int]@));
                    assert(strings_view(listed@).subrange(0, i + 1) =~= strings_view(listed@).subrange(
                        0,
                        i as int,
                    ).push(listed@[i as int]@));
                }
                i = i + 1;
            }
            assert(strings_view(listed@).subrange(0, i as int) =~= strings_view(listed@));
            Ok(v)
        },
    }
}

/// The paths a healthy pod has, each with its check label.
pub open spec fn pod_checks_spec(root: Seq<char>, data: Seq<char>) -> Seq<(Seq<char>, Seq<char>)> {
    seq![
        ("pod root"@, root),
        ("pod config"@, join(data, "pod.toml"@)),
        ("pod charter"@, join(data, "CHARTER.md"@)),
        ("pod agents"@, join(data, "AGENTS.md"@)),
        ("fins dir"@, join(data, "fins"@)),
    ]
}

fn check(label: &str, path: String) -> (r: (String, String))
    ensures
        r.0@ == label@,
        r.1@ == path@,
{
    (String::from_str(label), path)
}

/// The paths `pod doctor` checks for a pod.
pub fn pod_checks(pod_root: &str, pod_data: &str) -> (r: Vec<(String, String)>)
    ensures
        crate::mailbox::tasks::fields_view(r@) == pod_checks_spec(pod_root@, pod_data@),
{
    let mut r: Vec<(String, String)> = Vec::new();
    r.push(check("pod root", String::from_str(pod_root)));
    r.push(check("pod config", join_path(pod_data, "pod.toml")));
    r.push(check("pod charter", join_path(pod_data, "CHARTER.md")));
    r.push(check("pod agents", join_path(pod_data, "AGENTS.md")));
    r.push(check("fins dir", join_path(pod_data, "fins")));
    assert(crate::mailbox::tasks::fields_view(r@) =~= pod_checks_spec(pod_root@, pod_data@));
    r
}

/// The paths a healthy fin has, each with its check label: its home, its
/// config, role and agents files, and its runtime directories.
pub open spec fn fin_checks_spec(h: Seq<char>) -> Seq<(Seq<char>, Seq<char>)> {
    seq![
        ("fin home"@, h),
        ("fin config"@, join(h, "fin.toml"@)),
        ("fin role"@, join(h, "ROLE.md"@)),
        ("fin agents"@, join(h, "AGENTS.md"@)),
        ("fin runtime path"@, join(join(h, "mail"@), "cur"@)),
        ("fin runtime path"@, join(join(h, "mail"@), "new"@)),
        ("fin runtime path"@, join(join(h, "mail"@), "tmp"@)),
        ("fin runtime path"@, join(join(h, "tasks"@), "cur"@)),
        ("fin runtime path"@, join(join(h, "tasks"@), "new"@)),
        ("fin runtime path"@, join(join(h, "tasks"@), "tmp"@)),
        ("fin runtime path"@, join(h, ".codex"@)),
        ("fin runtime path"@, join(h, ".hermes"@)),
        ("fin runtime path"@, join(h, ".pi/agent"@)),
        ("fin runtime path"@, join(h, ".pi/sessions"@)),
    ]
}

/// The paths `pod doctor` checks for a fin.
pub fn fin_checks(fin_home: &str) -> (r: Vec<(String, String)>)
    ensures
        crate::mailbox::tasks::fields_view(r@) == fin_checks_spec(fin_home@),
{
    let mail = join_path(fin_home, "mail");
    let tasks = join_path(fin_home, "tasks");
    let mut r: Vec<(String, String)> = Vec::new();
    r.push(check("fin home", String::from_str(fin_home)));
    r.push(check("fin config", join_path(fin_home, "fin.toml")));
    r.push(check("fin role", join_path(fin_home, "ROLE.md")));
    r.push(check("fin agents", join_path(fin_home, "AGENTS.md")));
    r.push(check("fin runtime path", join_path(mail.as_str(), "cur")));
    r.push(check("fin runtime path", join_path(mail.as_str(), "new")));
    r.push(check("fin runtime path", join_path(mail.as_str(), "tmp")));
    r.push(check("fin runtime path", join_path(tasks.as_str(), "cur")));
    r.push(check("fin runtime path", join_path(tasks.as_str(), "new")));
    r.push(check("fin runtime path", join_path(tasks.as_str(), "tmp")));
    r.push(check("fin runtime path", join_path(fin_home, ".codex")));
    r.push(check("fin runtime path", join_path(fin_home, ".hermes")));
    r.push(check("fin runtime path", join_path(fin_home, ".pi/agent")));
    r.push(check("fin runtime path", join_path(fin_home, ".pi/sessions")));
    assert(crate::mailbox::tasks::fields_view(r@) =~= fin_checks_spec(fin_home@));
    r
}

/// The line a path check prints.
pub fn check_line(label: &str, path: &str, exists: bool) -> (r: String)
    ensures
        r@ == (if exists {
            "ok"@
        } else {
            "fail"@
        }) + " check="@ + label@ + " path="@ + path@,
{
    let mut r = String::from_str(if exists { "ok" } else { "fail" });
    append(&mut r, " check=");
    append(&mut r, label);
    append(&mut r, " path=");
    append(&mut r, path);
    r
}

/// Text in double quotes with `\` and `"` escaped.
pub open spec fn quoted(v: Seq<char>) -> Seq<char> {
    "\""@ + toml_escaped(v) + "\""@
}

/// Quotes text for a check line.
pub fn quote(value: &str) -> (r: String)
    ensures
        r@ == quoted(value@),
{
    let mut r = String::from_str("\"");
    append(&mut r, crate::config::escape_toml_string(value).as_str());
    append(&mut r, "\"");
    r
}

/// The line the backend check prints: the backend that resolved, or the
/// quoted error.
pub fn backend_check_line(fin: &FinRef, backend: &Result<String, String>) -> (r: String)
    ensures
        r@ == (match backend {
            Ok(b) => "ok "@ + fin_label(fin.pod@, fin.fin@) + " check=backend backend="@ + b@,
            Err(e) => "fail "@ + fin_label(fin.pod@, fin.fin@) + " check=backend detail="@ + quoted(
                e@,
            ),
        }),
{
    match backend {
        Ok(b) => {
            let mut r = String::from_str("ok ");
            append(&mut r, fin.label().as_str());
            append(&mut r, " check=backend backend=");
            append(&mut r, b.as_str());
            r
        },
        Err(e) => {
            let mut r = String::from_str("fail ");
            append(&mut r, fin.label().as_str());
            append(&mut r, " check=backend detail=");
            append(&mut r, quote(e.as_str()).as_str());
            r
        },
    }
}

/// How a backend probe ended.
pub enum ProbeOutcome {
    Success,
    Failed(i32),
    Signaled,
    TimedOut,
    SpawnFailed(String),
}

/// The line a probe prints, and whether it counts as healthy.
pub open spec fn probe_spec(fin: Seq<char>, o: ProbeOutcome) -> (Seq<char>, bool) {
    match o {
        ProbeOutcome::Success => ("ok "@ + fin + " check=probe"@, true),
        ProbeOutcome::Failed(c) => ("fail "@ + fin + " check=probe exit_code="@ + signed_text(c as int), false),
        ProbeOutcome::Signaled => ("fail "@ + fin + " check=probe exit_code=signal"@, false),
        ProbeOutcome::TimedOut => ("fail "@ + fin + " check=probe detail=timeout"@, false),
        ProbeOutcome::SpawnFailed(e) => ("fail "@ + fin + " check=probe detail="@ + quoted(e@), false),
    }
}

/// Reports a probe outcome.
pub fn probe_line(fin: &FinRef, outcome: &ProbeOutcome) -> (r: (String, bool))
    ensures
        (r.0@, r.1) == probe_spec(fin_label(fin.pod@, fin.fin@), *outcome),
{
    match outcome {
        ProbeOutcome::Success => {
            let mut r = String::from_str("ok ");
            append(&mut r, fin.label().as_str());
            append(&mut r, " check=probe");
            (r, true)
        },
        ProbeOutcome::Failed(c) => {
            let mut r = String::from_str("fail ");
            append(&mut r, fin.label().as_str());
            append(&mut r, " check=probe exit_code=");
            append(&mut r, crate::runtime::i32_to_decimal(*c).as_str());
            (r, false)
        },
        ProbeOutcome::Signaled => {
            let mut r = String::from_str("fail ");
            append(&mut r, fin.label().as_str());
            append(&mut r, " check=probe exit_code=signal");
            (r, false)
        },
        ProbeOutcome::TimedOut => {
            let mut r = String::from_str("fail ");
            append(&mut r, fin.label().as_str());
            append(&mut r, " check=probe detail=timeout");
            (r, false)
        },
        ProbeOutcome::SpawnFailed(e) => {
            let mut r = String::from_str("fail ");
            append(&mut r, fin.label().as_str());
            append(&mut r, " check=probe detail=");
            append(&mut r, quote(e.as_str()).as_str());
            (r, false)
        },
    }
}

/// The end of a doctor run: a status line when every check passed, else the
/// error.
pub fn doctor_verdict(pod: &PodRef, ok: bool) -> (r: Result<String, String>)
    ensures
        ok ==> (r matches Ok(l) && l@ == "doctor pod="@ + pod.slug@ + " status=ok"@),
        !ok ==> (r matches Err(e) && e@ == "pod "@ + pod.slug@ + " doctor failed"@),
{
    if ok {
        let mut l = String::from_str("doctor pod=");
        append(&mut l, pod.slug.as_str());
        append(&mut l, " status=ok");
        Ok(l)
    } else {
        let mut e = String::from_str("pod ");
        append(&mut e, pod.slug.as_str());
        append(&mut e, " doctor failed");
        Err(e)
    }
}

/// The line printed when a pod has no fins.
pub fn no_fins_line(pod: &PodRef) -> (r: String)
    ensures
        r@ == "fail pod="@ + pod.slug@ + " check=fins detail=no-fins"@,
{
    let mut l = String::from_str("fail pod=");
    append(&mut l, pod.slug.as_str());
    append(&mut l, " check=fins detail=no-fins");
    l
}

} // verus!
