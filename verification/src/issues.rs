//! Operator issues: documents with YAML front matter that fins open by mailing
//! `operator`, and that the operator acknowledges, resolves or dismisses.

use vstd::prelude::*;
use vstd::string::*;
use crate::mailbox::storage::message_id;
use crate::mailbox::tasks::{
    ensure_spec, field_filters, field_value, fields_view, lemma_lex_irreflexive, lemma_lex_trans,
    lex_less, lex_lt, lookup, parse_field_filter, quote_spec, quote_value, render_task,
    render_task_document, split_front_matter, split_spec, upsert_field, upsert_spec, ensure_field,
    option_filter,
};
use crate::model::{address_label, fin_label, slug_error, slug_ok, FinRef, MailAddress};
use crate::paths::{file_name, join, join_path, path_starts_with, path_starts_with_exec};
use crate::runtime::strings_view;
use crate::text::{
    append, chars_of, contains_seq, contains_str, debug_quoted, debug_text, decimal, ends_with,
    replace_char, replace_char_str, starts_with, str_eq, u128_to_decimal, u64_to_decimal,
};

verus! {

/// The value shown for a missing issue field.
pub open spec fn issue_field_spec(fs: Seq<(Seq<char>, Seq<char>)>, key: Seq<char>) -> Seq<char> {
    match lookup(fs, key) {
        Some(v) => v,
        None => "-"@,
    }
}

/// An issue field's value, or `-` when the issue lacks it.
pub fn issue_field(fields: &Vec<(String, String)>, key: &str) -> (r: String)
    ensures
        r@ == issue_field_spec(fields_view(fields@), key@),
{
    match field_value(fields, key) {
        Some(v) => v,
        None => String::from_str("-"),
    }
}

/// Whether a YAML scalar must be quoted to read back as the same string:
/// empty, containing `: `, ` #` or a newline, a word YAML reads as a boolean
/// or null, or starting with an indicator character.
pub open spec fn needs_quote_spec(v: Seq<char>) -> bool {
    ||| v.len() == 0
    ||| contains_seq(v, ": "@)
    ||| contains_seq(v, " #"@)
    ||| v.contains('\n')
    ||| v == "true"@ || v == "false"@ || v == "null"@ || v == "Null"@ || v == "NULL"@ || v
        == "~"@ || v == "yes"@ || v == "no"@ || v == "on"@ || v == "off"@
    ||| (v.len() > 0 && (v[0] == '-' || v[0] == '?' || v[0] == ':' || v[0] == '!' || v[0] == '&'
        || v[0] == '*' || v[0] == '#' || v[0] == '@' || v[0] == '`'))
}

/// Whether a value must be quoted in YAML front matter.
pub fn needs_quoted_yaml_string(value: &str) -> (r: bool)
    ensures
        r == needs_quote_spec(value@),
{
    proof {
        reveal_strlit(": ");
        reveal_strlit(" #");
    }
    let v = chars_of(value);
    if v.len() == 0 {
        return true;
    }
    let colon = chars_of(": ");
    let hash = chars_of(" #");
    if contains_str(&v, &colon) || contains_str(&v, &hash) {
        return true;
    }
    let mut i: usize = 0;
    while i < v.len()
        invariant
            v@ == value@,
            i <= v@.len(),
            forall|j: int| 0 <= j < i ==> v@[j] != '\n',
        decreases v@.len() - i,
    {
        if v[i] == '\n' {
            assert(v@.contains('\n'));
            return true;
        }
        i = i + 1;
    }
    assert(!v@.contains('\n'));
    if str_eq(value, "true") || str_eq(value, "false") || str_eq(value, "null") || str_eq(value, "Null")
        || str_eq(value, "NULL") || str_eq(value, "~") || str_eq(value, "yes") || str_eq(value, "no")
        || str_eq(value, "on") || str_eq(value, "off") {
        return true;
    }
    let c = v[0];
    c == '-' || c == '?' || c == ':' || c == '!' || c == '&' || c == '*' || c == '#' || c == '@'
        || c == '`'
}

/// A value as written in issue front matter: a flow list as is, a plain
/// scalar as is, else double-quoted with `\`, `"` and newlines escaped.
pub open spec fn yaml_value_spec(v: Seq<char>) -> Seq<char> {
    if v == "[]"@ || (starts_with(v, "["@) && ends_with(v, "]"@)) {
        v
    } else if !needs_quote_spec(v) {
        v
    } else {
        "\""@ + replace_char(replace_char(replace_char(v, '\\', "\\\\"@), '"', "\\\""@), '\n', "\\n"@)
            + "\""@
    }
}

/// Writes a value for issue front matter.
pub fn format_yaml_value(value: &str) -> (r: String)
    ensures
        r@ == yaml_value_spec(value@),
{
    proof {
        reveal_strlit("[");
        reveal_strlit("]");
        reveal_strlit("[]");
    }
    let v = chars_of(value);
    let n = v.len();
    if n >= 1 && v[0] == '[' && v[n - 1] == ']' {
        proof {
            assert(v@.subrange(0, 1) =~= "["@);
            assert(v@.subrange(n - 1, n as int) =~= "]"@);
        }
        return String::from_str(value);
    }
    proof {
        if starts_with(value@, "["@) && ends_with(value@, "]"@) {
            assert(value@.subrange(0, 1)[0] == '[');
            assert(value@.subrange(n - 1, n as int)[0] == ']');
        }
        if value@ == "[]"@ {
            assert(value@[0] == '[' && value@[1] == ']');
        }
    }
    if !needs_quoted_yaml_string(value) {
        return String::from_str(value);
    }
    let a = replace_char_str(value, '\\', "\\\\");
    let b = replace_char_str(a.as_str(), '"', "\\\"");
    let c = replace_char_str(b.as_str(), '\n', "\\n");
    let mut r = String::from_str("\"");
    append(&mut r, c.as_str());
    append(&mut r, "\"");
    r
}

/// Fields with their values written for front matter.
pub open spec fn yaml_fields(fs: Seq<(Seq<char>, Seq<char>)>) -> Seq<(Seq<char>, Seq<char>)> {
    fs.map_values(|f: (Seq<char>, Seq<char>)| (f.0, yaml_value_spec(f.1)))
}

/// An issue document: front matter between `---` markers, a blank line, the
/// trimmed body and a final newline.
pub open spec fn issue_text(fs: Seq<(Seq<char>, Seq<char>)>, body: Seq<char>) -> Seq<char> {
    render_task(yaml_fields(fs), body)
}

/// Renders an issue document.
pub fn render_issue(fields: &Vec<(String, String)>, body: &str) -> (r: String)
    ensures
        r@ == issue_text(fields_view(fields@), body@),
{
    let mut shown: Vec<(String, String)> = Vec::new();
    let mut i: usize = 0;
    while i < fields.len()
        invariant
            i <= fields@.len(),
            fields_view(shown@) == yaml_fields(fields_view(fields@).subrange(0, i as int)),
        decreases fields@.len() - i,
    {
        let ghost before = fields_view(shown@);
        shown.push((fields[i].0.clone(), format_yaml_value(fields[i].1.as_str())));
        proof {
            assert(fields_view(shown@) =~= before.push(
                (fields@[i as int].0@, yaml_value_spec(fields@[i as int].1@)),
            ));
            assert(yaml_fields(fields_view(fields@).subrange(0, i + 1)) =~= yaml_fields(
                fields_view(fields@).subrange(0, i as int),
            ).push((fields@[i as int].0@, yaml_value_spec(fields@[i as int].1@))));
        }
        i = i + 1;
    }
    proof {
        assert(fields_view(fields@).subrange(0, i as int) =~= fields_view(fields@));
    }
    render_task_document(&shown, body)
}

/// The id of a new issue: microseconds since the epoch, process id and a
/// per-process counter, then `.issue`.
pub fn issue_id(micros: u128, pid: u32, counter: u64) -> (r: String)
    ensures
        r@ == decimal(micros as nat) + "."@ + decimal(pid as nat) + "."@ + decimal(counter as nat)
            + ".issue"@,
{
    let mut r = u128_to_decimal(micros);
    append(&mut r, ".");
    append(&mut r, u64_to_decimal(pid as u64).as_str());
    append(&mut r, ".");
    append(&mut r, u64_to_decimal(counter).as_str());
    append(&mut r, ".issue");
    r
}

/// The fields of a new operator issue: the body's own front matter with the
/// sender's identity, the subject and `status: open` set, and a severity,
/// kind, source and creation time added where the body did not give them.
pub open spec fn operator_issue_fields(
    id: Seq<char>,
    from_fin: Seq<char>,
    from_pod: Seq<char>,
    subject: Seq<char>,
    body: Seq<char>,
    now: Seq<char>,
) -> Seq<(Seq<char>, Seq<char>)> {
    let f0 = split_spec(body).0;
    let f1 = upsert_spec(f0, "id"@, id);
    let f2 = upsert_spec(f1, "from"@, address_label(from_fin, from_pod));
    let f3 = upsert_spec(f2, "to"@, "operator@"@ + from_pod + ".orqa"@);
    let f4 = upsert_spec(f3, "pod"@, from_pod);
    let f5 = upsert_spec(f4, "fin"@, from_fin);
    let f6 = upsert_spec(f5, "title"@, subject);
    let f7 = upsert_spec(f6, "status"@, "open"@);
    let f8 = ensure_spec(f7, "severity"@, "needs-input"@);
    let f9 = ensure_spec(f8, "kind"@, "other"@);
    let f10 = ensure_spec(f9, "source"@, "operator-mail"@);
    ensure_spec(f10, "created_at"@, now)
}

/// The document of an operator issue opened by mail from `from`; `now` is
/// the creation time in seconds since the epoch, as text.
pub fn create_operator_issue(
    id: &str,
    from: &MailAddress,
    subject: &str,
    body: &str,
    now: &str,
) -> (r: String)
    ensures
        r@ == issue_text(
            operator_issue_fields(id@, from.fin@, from.pod@, subject@, body@, now@),
            split_spec(body@).1,
        ),
{
    let (mut fields, description) = split_front_matter(body);
    upsert_field(&mut fields, "id", id);
    upsert_field(&mut fields, "from", from.label().as_str());
    let mut to = String::from_str("operator@");
    append(&mut to, from.pod.as_str());
    append(&mut to, ".orqa");
    upsert_field(&mut fields, "to", to.as_str());
    upsert_field(&mut fields, "pod", from.pod.as_str());
    upsert_field(&mut fields, "fin", from.fin.as_str());
    upsert_field(&mut fields, "title", subject);
    upsert_field(&mut fields, "status", "open");
    ensure_field(&mut fields, "severity", "needs-input");
    ensure_field(&mut fields, "kind", "other");
    ensure_field(&mut fields, "source", "operator-mail");
    ensure_field(&mut fields, "created_at", now);
    render_issue(&fields, description.as_str())
}

/// An issue document with fields set: its front matter updated in order,
/// its body kept.
pub open spec fn update_issue_spec(contents: Seq<char>, updates: Seq<(Seq<char>, Seq<char>)>) -> Seq<char> {
    issue_text(upsert_all(split_spec(contents).0, updates), split_spec(contents).1)
}

/// Each update applied in turn.
pub open spec fn upsert_all(fs: Seq<(Seq<char>, Seq<char>)>, us: Seq<(Seq<char>, Seq<char>)>) -> Seq<
    (Seq<char>, Seq<char>),
>
    decreases us.len(),
{
    if us.len() == 0 {
        fs
    } else {
        upsert_spec(upsert_all(fs, us.drop_last()), us.last().0, us.last().1)
    }
}

/// Rewrites an issue document with updated fields.
pub fn update_issue_document(contents: &str, updates: &Vec<(String, String)>) -> (r: String)
    ensures
        r@ == update_issue_spec(contents@, fields_view(updates@)),
{
    let (mut fields, body) = split_front_matter(contents);
    let ghost f0 = fields_view(fields@);
    let mut i: usize = 0;
    while i < updates.len()
        invariant
            i <= updates@.len(),
            fields_view(fields@) == upsert_all(f0, fields_view(updates@).subrange(0, i as int)),
        decreases updates@.len() - i,
    {
        upsert_field(&mut fields, updates[i].0.as_str(), updates[i].1.as_str());
        proof {
            assert(fields_view(updates@).subrange(0, i + 1).drop_last() =~= fields_view(updates@).subrange(
                0,
                i as int,
            ));
        }
        i = i + 1;
    }
    proof {
        assert(fields_view(updates@).subrange(0, i as int) =~= fields_view(updates@));
    }
    render_issue(&fields, body.as_str())
}

/// The fields an acknowledgement sets.
pub fn ack_updates() -> (r: Vec<(String, String)>)
    ensures
        fields_view(r@) == seq![("status"@, "acknowledged"@)],
{
    let mut r: Vec<(String, String)> = Vec::new();
    r.push((String::from_str("status"), String::from_str("acknowledged")));
    assert(fields_view(r@) =~= seq![("status"@, "acknowledged"@)]);
    r
}

/// The note of a resolution: the one given, else `Issue <status>.`.
pub open spec fn resolution_note(status: Seq<char>, note: Option<Seq<char>>) -> Seq<char> {
    match note {
        Some(n) => n,
        None => "Issue "@ + status + "."@,
    }
}

/// The fields a resolution or dismissal sets: the terminal status, the time
/// under `resolved_at` or `dismissed_at`, and the note.
pub open spec fn resolution_updates_spec(status: Seq<char>, now: Seq<char>, note: Seq<char>) -> Seq<
    (Seq<char>, Seq<char>),
> {
    seq![
        ("status"@, status),
        (if status == "resolved"@ {
            "resolved_at"@
        } else {
            "dismissed_at"@
        }, now),
        ("resolution"@, note),
    ]
}

/// The note recorded when an issue reaches a terminal status.
pub fn resolution_note_text(status: &str, note: Option<&str>) -> (r: String)
    ensures
        r@ == resolution_note(status@, crate::model::opt_text(note)),
{
    match note {
        Some(n) => String::from_str(n),
        None => {
            let mut r = String::from_str("Issue ");
            append(&mut r, status);
            append(&mut r, ".");
            r
        },
    }
}

/// The fields set when an issue is resolved or dismissed.
pub fn resolution_updates(status: &str, now: &str, note: &str) -> (r: Vec<(String, String)>)
    ensures
        fields_view(r@) == resolution_updates_spec(status@, now@, note@),
{
    let time_key = if str_eq(status, "resolved") {
        "resolved_at"
    } else {
        "dismissed_at"
    };
    let mut r: Vec<(String, String)> = Vec::new();
    r.push((String::from_str("status"), String::from_str(status)));
    r.push((String::from_str(time_key), String::from_str(now)));
    r.push((String::from_str("resolution"), String::from_str(note)));
    assert(fields_view(r@) =~= resolution_updates_spec(status@, now@, note@));
    r
}

/// The fin an issue came from, named by its `pod` and `fin` fields.
pub fn issue_fin(fields: &Vec<(String, String)>) -> (r: Result<FinRef, String>)
    ensures
        ({
            let pod = issue_field_spec(fields_view(fields@), "pod"@);
            let fin = issue_field_spec(fields_view(fields@), "fin"@);
            &&& r is Ok <==> slug_ok(pod) && slug_ok(fin)
            &&& r matches Ok(f) ==> f.pod@ == pod && f.fin@ == fin
            &&& r matches Err(e) ==> e@ == (if !slug_ok(pod) {
                slug_error(pod)
            } else {
                slug_error(fin)
            })
        }),
{
    let pod = issue_field(fields, "pod");
    let fin = issue_field(fields, "fin");
    FinRef::new(pod.as_str(), fin.as_str())
}

/// The mail that tells the originating fin how its issue ended.
pub open spec fn resolution_mail_spec(
    pod: Seq<char>,
    fin: Seq<char>,
    title: Seq<char>,
    status: Seq<char>,
    note: Seq<char>,
    id: Seq<char>,
) -> Seq<char> {
    "From: operator@"@ + pod + ".orqa\nTo: "@ + fin + "@"@ + pod + ".orqa\nSubject: Re: "@ + title
        + "\n\nIssue "@ + status + ".\n\n"@ + note + "\n\nIssue: "@ + id + "\n"@
}

/// The fin to mail about an issue's end, and the mail: refused when the
/// issue does not name a valid fin.
pub fn mail_issue_resolution(fields: &Vec<(String, String)>, id: &str, status: &str, note: &str) -> (r:
    Result<(FinRef, String), String>)
    ensures
        ({
            let fs = fields_view(fields@);
            let pod = issue_field_spec(fs, "pod"@);
            let fin = issue_field_spec(fs, "fin"@);
            &&& r is Ok <==> slug_ok(pod) && slug_ok(fin)
            &&& r matches Ok(p) ==> p.0.pod@ == pod && p.0.fin@ == fin && p.1@ == resolution_mail_spec(
                pod,
                fin,
                issue_field_spec(fs, "title"@),
                status@,
                note@,
                id@,
            )
            &&& r matches Err(e) ==> e@ == (if !slug_ok(pod) {
                slug_error(pod)
            } else {
                slug_error(fin)
            })
        }),
{
    let pod = issue_field(fields, "pod");
    let fin = issue_field(fields, "fin");
    let title = issue_field(fields, "title");
    let fin_ref = FinRef::new(pod.as_str(), fin.as_str())?;
    let mut m = String::from_str("From: operator@");
    append(&mut m, pod.as_str());
    append(&mut m, ".orqa\nTo: ");
    append(&mut m, fin.as_str());
    append(&mut m, "@");
    append(&mut m, pod.as_str());
    append(&mut m, ".orqa\nSubject: Re: ");
    append(&mut m, title.as_str());
    append(&mut m, "\n\nIssue ");
    append(&mut m, status);
    append(&mut m, ".\n\n");
    append(&mut m, note);
    append(&mut m, "\n\nIssue: ");
    append(&mut m, id);
    append(&mut m, "\n");
    Ok((fin_ref, m))
}

/// The states an issue moves through, in the order they are searched.
pub open spec fn issue_states() -> Seq<Seq<char>> {
    seq!["new"@, "cur"@, "closed"@]
}

/// Where an issue named on the command line may be: the text as a path,
/// then that file name in `new`, `cur` and `closed`.
pub open spec fn issue_candidates_spec(home: Seq<char>, issue: Seq<char>) -> Seq<Seq<char>> {
    seq![
        issue,
        join(join(home, "new"@), issue),
        join(join(home, "cur"@), issue),
        join(join(home, "closed"@), issue),
    ]
}

/// The paths to try for an issue, in order.
pub fn issue_candidates(issues_home: &str, issue: &str) -> (r: Vec<String>)
    ensures
        strings_view(r@) == issue_candidates_spec(issues_home@, issue@),
{
    let mut r: Vec<String> = Vec::new();
    r.push(String::from_str(issue));
    let n = join_path(issues_home, "new");
    r.push(join_path(n.as_str(), issue));
    let c = join_path(issues_home, "cur");
    r.push(join_path(c.as_str(), issue));
    let d = join_path(issues_home, "closed");
    r.push(join_path(d.as_str(), issue));
    assert(strings_view(r@) =~= issue_candidates_spec(issues_home@, issue@));
    r
}

/// The first issue candidate that exists.
pub open spec fn issue_path_spec(home: Seq<char>, issue: Seq<char>, present: Seq<bool>) -> Result<
    Seq<char>,
    Seq<char>,
> {
    let c = issue_candidates_spec(home, issue);
    if present[0] {
        Ok(c[0])
    } else if present[1] {
        Ok(c[1])
    } else if present[2] {
        Ok(c[2])
    } else if present[3] {
        Ok(c[3])
    } else {
        Err("issue "@ + debug_text(issue) + " not found in "@ + home)
    }
}

/// The path of the issue a command names, given which candidates exist.
pub fn resolve_issue_path(issues_home: &str, issue: &str, present: &Vec<bool>) -> (r: Result<
    String,
    String,
>)
    requires
        present@.len() == 4,
    ensures
        crate::model::text_result(r) == issue_path_spec(issues_home@, issue@, present@),
{
    let c = issue_candidates(issues_home, issue);
    assert(strings_view(c@).len() == 4);
    let mut k: usize = 0;
    while k < 4
        invariant
            k <= 4,
            present@.len() == 4,
            c@.len() == 4,
            strings_view(c@) == issue_candidates_spec(issues_home@, issue@),
            forall|j: int| 0 <= j < k ==> !present@[j],
        decreases 4 - k,
    {
        if present[k] {
            assert(strings_view(c@)[k as int] == c@[k as int]@);
            return Ok(c[k].clone());
        }
        k = k + 1;
    }
    let mut e = String::from_str("issue ");
    append(&mut e, debug_quoted(issue).as_str());
    append(&mut e, " not found in ");
    append(&mut e, issues_home);
    Err(e)
}

/// The state directory an issue path lies in.
pub open spec fn issue_state_spec(home: Seq<char>, path: Seq<char>) -> Result<Seq<char>, Seq<char>> {
    if path_starts_with(path, join(home, "new"@)) {
        Ok("new"@)
    } else if path_starts_with(path, join(home, "cur"@)) {
        Ok("cur"@)
    } else if path_starts_with(path, join(home, "closed"@)) {
        Ok("closed"@)
    } else {
        Err("issue "@ + path + " is not inside "@ + home)
    }
}

/// The state of an issue: the directory of `new`, `cur` and `closed` its
/// path lies in.
pub fn issue_state(issues_home: &str, path: &str) -> (r: Result<String, String>)
    ensures
        crate::model::text_result(r) == issue_state_spec(issues_home@, path@),
{
    let n = join_path(issues_home, "new");
    if path_starts_with_exec(path, n.as_str()) {
        return Ok(String::from_str("new"));
    }
    let c = join_path(issues_home, "cur");
    if path_starts_with_exec(path, c.as_str()) {
        return Ok(String::from_str("cur"));
    }
    let d = join_path(issues_home, "closed");
    if path_starts_with_exec(path, d.as_str()) {
        return Ok(String::from_str("closed"));
    }
    let mut e = String::from_str("issue ");
    append(&mut e, path);
    append(&mut e, " is not inside ");
    append(&mut e, issues_home);
    Err(e)
}

/// The file name of an issue, which is its id.
pub fn issue_file_name(path: &str) -> (r: Result<String, String>)
    ensures
        match file_name(path@) {
            Some(n) => r matches Ok(s) && s@ == n,
            None => r matches Err(e) && e@ == "message path has no filename: "@ + path@,
        },
{
    message_id(path)
}

/// An issue as `ops issues` lists it.
pub struct IssueSummary {
    pub state: String,
    pub id: String,
    pub pod: String,
    pub fin: String,
    pub title: String,
    pub status: String,
    pub severity: String,
    pub kind: String,
}

/// The listed fields of an issue, by name.
pub open spec fn summary_field_spec(s: IssueSummary, key: Seq<char>) -> Option<Seq<char>> {
    if key == "state"@ {
        Some(s.state@)
    } else if key == "id"@ {
        Some(s.id@)
    } else if key == "pod"@ {
        Some(s.pod@)
    } else if key == "fin"@ {
        Some(s.fin@)
    } else if key == "title"@ {
        Some(s.title@)
    } else if key == "status"@ {
        Some(s.status@)
    } else if key == "severity"@ {
        Some(s.severity@)
    } else if key == "kind"@ {
        Some(s.kind@)
    } else {
        None
    }
}

impl IssueSummary {
    /// The summary of an issue in a state, from its id and front matter.
    pub fn from_fields(state: &str, id: &str, fields: &Vec<(String, String)>) -> (r: IssueSummary)
        ensures
            r.state@ == state@,
            r.id@ == id@,
            r.pod@ == issue_field_spec(fields_view(fields@), "pod"@),
            r.fin@ == issue_field_spec(fields_view(fields@), "fin"@),
            r.title@ == issue_field_spec(fields_view(fields@), "title"@),
            r.status@ == issue_field_spec(fields_view(fields@), "status"@),
            r.severity@ == issue_field_spec(fields_view(fields@), "severity"@),
            r.kind@ == issue_field_spec(fields_view(fields@), "kind"@),
    {
        IssueSummary {
            state: String::from_str(state),
            id: String::from_str(id),
            pod: issue_field(fields, "pod"),
            fin: issue_field(fields, "fin"),
            title: issue_field(fields, "title"),
            status: issue_field(fields, "status"),
            severity: issue_field(fields, "severity"),
            kind: issue_field(fields, "kind"),
        }
    }

    /// A listed field by name.
    pub fn field(&self, key: &str) -> (r: Option<String>)
        ensures
            opt_string(r) == summary_field_spec(*self, key@),
    {
        if str_eq(key, "state") {
            Some(self.state.clone())
        } else if str_eq(key, "id") {
            Some(self.id.clone())
        } else if str_eq(key, "pod") {
            Some(self.pod.clone())
        } else if str_eq(key, "fin") {
            Some(self.fin.clone())
        } else if str_eq(key, "title") {
            Some(self.title.clone())
        } else if str_eq(key, "status") {
            Some(self.status.clone())
        } else if str_eq(key, "severity") {
            Some(self.severity.clone())
        } else if str_eq(key, "kind") {
            Some(self.kind.clone())
        } else {
            None
        }
    }

    /// The listing line of an issue.
    pub fn format(&self) -> (r: String)
        ensures
            r@ == self.state@ + " "@ + self.id@ + " pod="@ + self.pod@ + " fin="@ + self.fin@
                + " severity="@ + self.severity@ + " status="@ + self.status@ + " kind="@
                + self.kind@ + " title="@ + quote_spec(self.title@),
    {
        let mut r = self.state.clone();
        append(&mut r, " ");
        append(&mut r, self.id.as_str());
        append(&mut r, " pod=");
        append(&mut r, self.pod.as_str());
        append(&mut r, " fin=");
        append(&mut r, self.fin.as_str());
        append(&mut r, " severity=");
        append(&mut r, self.severity.as_str());
        append(&mut r, " status=");
        append(&mut r, self.status.as_str());
        append(&mut r, " kind=");
        append(&mut r, self.kind.as_str());
        append(&mut r, " title=");
        append(&mut r, quote_value(self.title.as_str()).as_str());
        r
    }
}

/// The text of an optional string.
pub open spec fn opt_string(o: Option<String>) -> Option<Seq<char>> {
    crate::text::opt_string(o)
}

/// The options of `ops issues` that select issues.
pub struct IssueListArgs {
    pub all: bool,
    pub pod: Option<String>,
    pub fin: Option<String>,
    pub status: Option<String>,
    pub severity: Option<String>,
    pub kind: Option<String>,
    pub fields: Vec<String>,
}

/// All filters of `ops issues`: pod, fin, status, severity and kind, then
/// each `--field`.
pub open spec fn issue_filters_spec(a: IssueListArgs) -> Result<Seq<(Seq<char>, Seq<char>)>, Seq<char>> {
    match field_filters(strings_view(a.fields@)) {
        Ok(rest) => Ok(option_filter("pod"@, a.pod) + option_filter("fin"@, a.fin) + option_filter(
            "status"@,
            a.status,
        ) + option_filter("severity"@, a.severity) + option_filter("kind"@, a.kind) + rest),
        Err(e) => Err(e),
    }
}

/// Parses `key=value` filters in order, stopping at the first bad one.
pub fn parse_field_filters(raw: &Vec<String>) -> (r: Result<Vec<(String, String)>, String>)
    ensures
        match field_filters(strings_view(raw@)) {
            Ok(fs) => r matches Ok(x) && fields_view(x@) == fs,
            Err(e) => r matches Err(x) && x@ == e,
        },
{
    let ghost all = strings_view(raw@);
    let mut out: Vec<(String, String)> = Vec::new();
    let mut i: usize = 0;
    proof {
        assert(all.subrange(0, all.len() as int) =~= all);
        match field_filters(all) {
            Ok(rest) => {
                assert(fields_view(out@) + rest =~= rest);
            },
            Err(_) => {},
        }
    }
    while i < raw.len()
        invariant
            i <= raw@.len(),
            all == strings_view(raw@),
            field_filters(all) == (match field_filters(all.subrange(i as int, all.len() as int)) {
                Ok(rest) => Ok(fields_view(out@) + rest),
                Err(e) => Err(e),
            }),
        decreases raw@.len() - i,
    {
        let ghost tail = all.subrange(i as int, all.len() as int);
        proof {
            assert(tail[0] == raw@[i as int]@);
            assert(tail.drop_first() =~= all.subrange(i + 1, all.len() as int));
        }
        match parse_field_filter(raw[i].as_str()) {
            Err(e) => {
                return Err(e);
            },
            Ok(p) => {
                let ghost before = fields_view(out@);
                out.push(p);
                proof {
                    assert(fields_view(out@) =~= before.push((p.0@, p.1@)));
                    match field_filters(all.subrange(i + 1, all.len() as int)) {
                        Ok(rest) => {
                            assert(before + (seq![(p.0@, p.1@)] + rest) =~= fields_view(out@) + rest);
                        },
                        Err(_) => {},
                    }
                }
            },
        }
        i = i + 1;
    }
    proof {
        assert(all.subrange(i as int, all.len() as int) =~= Seq::<Seq<char>>::empty());
        assert(fields_view(out@) + Seq::<(Seq<char>, Seq<char>)>::empty() =~= fields_view(out@));
    }
    Ok(out)
}

fn push_option(fields: &mut Vec<(String, String)>, key: &str, value: &Option<String>)
    ensures
        fields_view(final(fields)@) == fields_view(old(fields)@) + option_filter(key@, *value),
{
    let ghost before = fields_view(fields@);
    match value {
        Some(v) => {
            fields.push((String::from_str(key), v.clone()));
            assert(fields_view(fields@) =~= before + option_filter(key@, *value));
        },
        None => {
            assert(fields_view(fields@) =~= before + option_filter(key@, *value));
        },
    }
}

/// Exact-match filters on listed issue fields.
pub struct IssueFilters {
    pub fields: Vec<(String, String)>,
}

impl IssueFilters {
    /// The filters selected by `ops issues` options.
    pub fn new(args: &IssueListArgs) -> (r: Result<IssueFilters, String>)
        ensures
            match issue_filters_spec(*args) {
                Ok(fs) => r matches Ok(t) && fields_view(t.fields@) == fs,
                Err(e) => r matches Err(x) && x@ == e,
            },
    {
        let mut fields: Vec<(String, String)> = Vec::new();
        proof {
            assert(fields_view(fields@) =~= Seq::<(Seq<char>, Seq<char>)>::empty());
        }
        push_option(&mut fields, "pod", &args.pod);
        push_option(&mut fields, "fin", &args.fin);
        push_option(&mut fields, "status", &args.status);
        push_option(&mut fields, "severity", &args.severity);
        push_option(&mut fields, "kind", &args.kind);
        let rest = parse_field_filters(&args.fields)?;
        let ghost before = fields_view(fields@);
        let mut i: usize = 0;
        while i < rest.len()
            invariant
                i <= rest@.len(),
                fields_view(fields@) == before + fields_view(rest@).subrange(0, i as int),
            decreases rest@.len() - i,
        {
            let ghost b = fields_view(fields@);
            fields.push((rest[i].0.clone(), rest[i].1.clone()));
            proof {
                assert(fields_view(fields@) =~= b.push(fields_view(rest@)[i as int]));
                assert(fields_view(rest@).subrange(0, i + 1) =~= fields_view(rest@).subrange(
                    0,
                    i as int,
                ).push(fields_view(rest@)[i as int]));
            }
            i = i + 1;
        }
        proof {
            assert(fields_view(rest@).subrange(0, i as int) =~= fields_view(rest@));
        }
        Ok(IssueFilters { fields })
    }

    /// Whether every filter field of the issue equals the filter value.
    pub fn matches(&self, issue: &IssueSummary) -> (r: bool)
        ensures
            r == forall|i: int|
                0 <= i < self.fields@.len() ==> summary_field_spec(
                    *issue,
                    #[trigger] self.fields@[i].0@,
                ) == Some(self.fields@[i].1@),
    {
        let mut i: usize = 0;
        while i < self.fields.len()
            invariant
                i <= self.fields@.len(),
                forall|j: int|
                    0 <= j < i ==> summary_field_spec(*issue, #[trigger] self.fields@[j].0@) == Some(
                        self.fields@[j].1@,
                    ),
            decreases self.fields@.len() - i,
        {
            let ok = match issue.field(self.fields[i].0.as_str()) {
                Some(v) => str_eq(v.as_str(), self.fields[i].1.as_str()),
                None => false,
            };
            if !ok {
                return false;
            }
            i = i + 1;
        }
        true
    }
}

/// A summary as plain values.
pub open spec fn issue_view(s: IssueSummary) -> (
    Seq<char>,
    Seq<char>,
    Seq<char>,
    Seq<char>,
    Seq<char>,
    Seq<char>,
    Seq<char>,
    Seq<char>,
) {
    (s.state@, s.id@, s.pod@, s.fin@, s.title@, s.status@, s.severity@, s.kind@)
}

/// Issues in non-decreasing order of id.
pub open spec fn issues_sorted(v: Seq<IssueSummary>) -> bool {
    forall|i: int, j: int| 0 <= i < j < v.len() ==> !lex_lt(v[j].id@, v[i].id@)
}

/// Keeps the issues with id `id`.
pub open spec fn issue_with_id(id: Seq<char>) -> spec_fn(IssueSummary) -> bool {
    |s: IssueSummary| s.id@ == id
}

/// Orders issues by id, keeping issues with the same id in the order they
/// came in.
pub fn collect_issues(issues: Vec<IssueSummary>) -> (r: Vec<IssueSummary>)
    ensures
        r@.map_values(|s: IssueSummary| issue_view(s)).to_multiset() == issues@.map_values(
            |s: IssueSummary| issue_view(s),
        ).to_multiset(),
        issues_sorted(r@),
        forall|id: Seq<char>| #[trigger] r@.filter(issue_with_id(id)) == issues@.filter(issue_with_id(id)),
{
    broadcast use vstd::seq_lib::group_to_multiset_ensures;

    let ghost orig = issues@.map_values(|s: IssueSummary| issue_view(s));
    let ghost input = issues@;
    let mut rest = issues;
    let mut keys: Vec<Vec<char>> = Vec::new();
    let mut i: usize = 0;
    while i < rest.len()
        invariant
            i <= rest@.len(),
            keys@.len() == i,
            forall|j: int| 0 <= j < i ==> (#[trigger] keys@[j])@ == rest@[j].id@,
        decreases rest@.len() - i,
    {
        keys.push(chars_of(rest[i].id.as_str()));
        i = i + 1;
    }
    let mut out: Vec<IssueSummary> = Vec::new();
    proof {
        assert forall|id: Seq<char>| #[trigger]
            out@.filter(issue_with_id(id)) + rest@.filter(issue_with_id(id)) == input.filter(issue_with_id(id)) by {
            crate::stable::lemma_filter_empty(out@, issue_with_id(id));
            assert(out@.filter(issue_with_id(id)) + rest@.filter(issue_with_id(id)) =~= rest@.filter(issue_with_id(id)));
        }
    }
    while rest.len() > 0
        invariant
            keys@.len() == rest@.len(),
            forall|id: Seq<char>| #[trigger]
                out@.filter(issue_with_id(id)) + rest@.filter(issue_with_id(id)) == input.filter(issue_with_id(id)),
            forall|j: int| 0 <= j < rest@.len() ==> (#[trigger] keys@[j])@ == rest@[j].id@,
            rest@.map_values(|s: IssueSummary| issue_view(s)).to_multiset().add(
                out@.map_values(|s: IssueSummary| issue_view(s)).to_multiset(),
            ) == orig.to_multiset(),
            issues_sorted(out@),
            forall|a: int, b: int|
                0 <= a < out@.len() && 0 <= b < rest@.len() ==> !lex_lt(
                    (#[trigger] rest@[b]).id@,
                    (#[trigger] out@[a]).id@,
                ),
        decreases rest@.len(),
    {
        let mut best: usize = 0;
        let mut j: usize = 1;
        proof {
            lemma_lex_irreflexive(rest@[0].id@);
        }
        while j < rest.len()
            invariant
                keys@.len() == rest@.len(),
                forall|x: int| 0 <= x < rest@.len() ==> (#[trigger] keys@[x])@ == rest@[x].id@,
                0 <= best < j <= rest@.len(),
                forall|x: int| 0 <= x < j ==> !lex_lt((#[trigger] rest@[x]).id@, rest@[best as int].id@),
                forall|x: int| 0 <= x < best ==> (#[trigger] rest@[x]).id@ != rest@[best as int].id@,
            decreases rest@.len() - j,
        {
            if lex_less(&keys[j], &keys[best]) {
                proof {
                    assert forall|x: int| 0 <= x < j implies !lex_lt((#[trigger] rest@[x]).id@, rest@[j as int].id@) by {
                        if lex_lt(rest@[x].id@, rest@[j as int].id@) {
                            lemma_lex_trans(rest@[x].id@, rest@[j as int].id@, rest@[best as int].id@);
                        }
                    }
                    lemma_lex_irreflexive(rest@[j as int].id@);
                }
                best = j;
            }
            j = j + 1;
        }
        let ghost before_rest = rest@;
        let ghost before_out = out@;
        let t = rest.remove(best);
        let _ = keys.remove(best);
        let ghost vt = before_rest.map_values(|s: IssueSummary| issue_view(s));
        let ghost vo = before_out.map_values(|s: IssueSummary| issue_view(s));
        proof {
            assert(rest@.map_values(|s: IssueSummary| issue_view(s)) =~= vt.remove(best as int));
            assert(vt[best as int] == issue_view(t));
            vt.to_multiset_ensures();
            vo.to_multiset_ensures();
            assert(vt.remove(best as int).to_multiset() =~= vt.to_multiset().remove(vt[best as int]));
        }
        out.push(t);
        proof {
            assert forall|id: Seq<char>| #[trigger]
                out@.filter(issue_with_id(id)) + rest@.filter(issue_with_id(id)) == input.filter(issue_with_id(id)) by {
                let p = issue_with_id(id);
                assert(p(before_rest[best as int]) ==> forall|x: int|
                    0 <= x < best ==> !p(#[trigger] before_rest[x]));
                crate::stable::lemma_filter_move(before_out, before_rest, best as int, p);
            }
            assert(out@.map_values(|s: IssueSummary| issue_view(s)) =~= vo.push(issue_view(t)));
            assert(vo.push(issue_view(t)).to_multiset() =~= vo.to_multiset().insert(issue_view(t)));
            assert(vt.to_multiset().count(issue_view(t)) > 0);
            assert(vt.to_multiset().remove(issue_view(t)).add(vo.to_multiset().insert(issue_view(t)))
                =~= vt.to_multiset().add(vo.to_multiset()));
            assert forall|a: int, b: int|
                0 <= a < out@.len() && 0 <= b < rest@.len() implies !lex_lt(
                    (#[trigger] rest@[b]).id@,
                    (#[trigger] out@[a]).id@,
                ) by {
                if b < best {
                    assert(rest@[b] == before_rest[b]);
                } else {
                    assert(rest@[b] == before_rest[b + 1]);
                }
            }
        }
    }
    proof {
        assert(rest@.map_values(|s: IssueSummary| issue_view(s)).to_multiset() =~= vstd::multiset::Multiset::empty());
        assert(out@.map_values(|s: IssueSummary| issue_view(s)).to_multiset() =~= orig.to_multiset());
        assert forall|id: Seq<char>| #[trigger] out@.filter(issue_with_id(id)) == input.filter(issue_with_id(id)) by {
            crate::stable::lemma_filter_empty(rest@, issue_with_id(id));
            assert(out@.filter(issue_with_id(id)) + rest@.filter(issue_with_id(id)) =~= out@.filter(issue_with_id(id)));
        }
    }
    out
}

/// The line printed when resolving an issue wakes its fin.
pub fn issue_wake_line(fin: &FinRef, status: &str) -> (r: String)
    ensures
        r@ == "wake "@ + fin_label(fin.pod@, fin.fin@) + " reason=issue-"@ + status@,
{
    let mut r = String::from_str("wake ");
    append(&mut r, fin.label().as_str());
    append(&mut r, " reason=issue-");
    append(&mut r, status);
    r
}

/// The summary an issue file gives in a state, as plain values.
pub open spec fn issue_item_view(state: Seq<char>, id: Seq<char>, contents: Seq<char>) -> (
    Seq<char>,
    Seq<char>,
    Seq<char>,
    Seq<char>,
    Seq<char>,
    Seq<char>,
    Seq<char>,
    Seq<char>,
) {
    let fs = split_spec(contents).0;
    (
        state,
        id,
        issue_field_spec(fs, "pod"@),
        issue_field_spec(fs, "fin"@),
        issue_field_spec(fs, "title"@),
        issue_field_spec(fs, "status"@),
        issue_field_spec(fs, "severity"@),
        issue_field_spec(fs, "kind"@),
    )
}

/// The issue summaries of the files of one state, given each file's path
/// and contents, in order; refused at the first path without a file name.
pub open spec fn collect_issues_spec(state: Seq<char>, items: Seq<(Seq<char>, Seq<char>)>) -> Result<
    Seq<(Seq<char>, Seq<char>, Seq<char>, Seq<char>, Seq<char>, Seq<char>, Seq<char>, Seq<char>)>,
    Seq<char>,
>
    decreases items.len(),
{
    if items.len() == 0 {
        Ok(Seq::empty())
    } else {
        match collect_issues_spec(state, items.drop_last()) {
            Err(e) => Err(e),
            Ok(a) => match file_name(items.last().0) {
                None => Err("message path has no filename: "@ + items.last().0),
                Some(id) => Ok(a.push(issue_item_view(state, id, items.last().1))),
            },
        }
    }
}

proof fn lemma_collect_issues_err(state: Seq<char>, items: Seq<(Seq<char>, Seq<char>)>, k: int, n: int)
    requires
        0 < k <= n <= items.len(),
        collect_issues_spec(state, items.subrange(0, k)) is Err,
    ensures
        collect_issues_spec(state, items.subrange(0, n)) == collect_issues_spec(state, items.subrange(0, k)),
    decreases n - k,
{
    if n > k {
        lemma_collect_issues_err(state, items, k, n - 1);
        assert(items.subrange(0, n).drop_last() =~= items.subrange(0, n - 1));
    }
}

/// What collecting appends: the summaries of the files before the first
/// one without a file name (all of them when every path has one).
pub open spec fn collected_issues_spec(state: Seq<char>, items: Seq<(Seq<char>, Seq<char>)>) -> Seq<
    (Seq<char>, Seq<char>, Seq<char>, Seq<char>, Seq<char>, Seq<char>, Seq<char>, Seq<char>),
>
    decreases items.len(),
{
    if items.len() == 0 {
        Seq::empty()
    } else {
        match collect_issues_spec(state, items.drop_last()) {
            Err(_) => collected_issues_spec(state, items.drop_last()),
            Ok(a) => match file_name(items.last().0) {
                None => a,
                Some(id) => a.push(issue_item_view(state, id, items.last().1)),
            },
        }
    }
}

/// Once a prefix is refused, longer prefixes append nothing more.
proof fn lemma_collected_issues_after_err(state: Seq<char>, items: Seq<(Seq<char>, Seq<char>)>, k: int, n: int)
    requires
        0 < k <= n <= items.len(),
        collect_issues_spec(state, items.subrange(0, k)) is Err,
    ensures
        collected_issues_spec(state, items.subrange(0, n)) == collected_issues_spec(state, items.subrange(0, k)),
    decreases n - k,
{
    if n > k {
        lemma_collected_issues_after_err(state, items, k, n - 1);
        lemma_collect_issues_err(state, items, k, n - 1);
        assert(items.subrange(0, n).drop_last() =~= items.subrange(0, n - 1));
    }
}

/// Appends the summaries of the issue files of one state, given each file's
/// path and contents.
pub fn collect_issues_in_state(state: &str, items: &Vec<(String, String)>, issues: &mut Vec<IssueSummary>) -> (r:
    Result<(), String>)
    ensures
        match collect_issues_spec(state@, fields_view(items@)) {
            Ok(a) => r is Ok && final(issues)@.map_values(|s: IssueSummary| issue_view(s)) == old(
                issues,
            )@.map_values(|s: IssueSummary| issue_view(s)) + a,
            Err(e) => r matches Err(x) && x@ == e,
        },
        collect_issues_spec(state@, fields_view(items@)) is Err ==> final(issues)@.map_values(
            |s: IssueSummary| issue_view(s),
        ) == old(issues)@.map_values(|s: IssueSummary| issue_view(s)) + collected_issues_spec(
            state@,
            fields_view(items@),
        ),
{
    let ghost its = fields_view(items@);
    let ghost start = issues@.map_values(|s: IssueSummary| issue_view(s));
    let mut i: usize = 0;
    while i < items.len()
        invariant
            its == fields_view(items@),
            start == old(issues)@.map_values(|s: IssueSummary| issue_view(s)),
            i <= items@.len(),
            collect_issues_spec(state@, its.subrange(0, i as int)) matches Ok(a) && issues@.map_values(
                |s: IssueSummary| issue_view(s),
            ) == start + a,
        decreases items@.len() - i,
    {
        proof {
            assert(its.subrange(0, i + 1).drop_last() =~= its.subrange(0, i as int));
            assert(its.subrange(0, i + 1).last() == its[i as int]);
        }
        let id = match issue_file_name(items[i].0.as_str()) {
            Ok(id) => id,
            Err(e) => {
                proof {
                    assert(collected_issues_spec(state@, its.subrange(0, i + 1)) == collect_issues_spec(
                        state@,
                        its.subrange(0, i as int),
                    )->Ok_0);
                    lemma_collect_issues_err(state@, its, i + 1, its.len() as int);
                    lemma_collected_issues_after_err(state@, its, i + 1, its.len() as int);
                    assert(its.subrange(0, its.len() as int) =~= its);
                }
                return Err(e);
            },
        };
        let (fields, _) = split_front_matter(items[i].1.as_str());
        let summary = IssueSummary::from_fields(state, id.as_str(), &fields);
        let ghost before = issues@;
        issues.push(summary);
        proof {
            assert(issues@.map_values(|s: IssueSummary| issue_view(s)) =~= before.map_values(
                |s: IssueSummary| issue_view(s),
            ).push(issue_view(issues@.last())));
        }
        i = i + 1;
    }
    proof {
        assert(its.subrange(0, i as int) =~= its);
    }
    Ok(())
}

} // verus!
