//! Mail and tasks between fins: routing rules, message text, listings and
//! what marking an item done does.

pub mod storage;
pub mod tasks;
pub mod round_trip;

use vstd::prelude::*;
use vstd::string::*;
use crate::model::{address_label, fin_label, text_result, under_fin, FinRef, MailAddress, Orqa};
use crate::paths::{join, join_path};
use crate::runtime::{first_with_prefix, strings_view};
use crate::text::{append, chars_of, line_at, lines, lines_from, str_eq, string_of_range};
use storage::{mail_state, mail_state_spec, message_id, resolve_message_path,
    message_candidates_spec};
use crate::paths::file_name;
use crate::text::debug_text;

verus! {

/// Mail or task: the two kinds of item a fin receives.
#[derive(Clone, Copy, PartialEq, Eq, Debug, Structural)]
pub enum ItemKind {
    Mail,
    Task,
}

/// The directory below the fin home that holds items of a kind.
pub open spec fn kind_dir(kind: ItemKind) -> Seq<char> {
    match kind {
        ItemKind::Mail => "mail"@,
        ItemKind::Task => "tasks"@,
    }
}

/// The header line prefix that carries an item's title.
pub open spec fn title_header_spec(kind: ItemKind) -> Seq<char> {
    match kind {
        ItemKind::Mail => "Subject: "@,
        ItemKind::Task => "title: "@,
    }
}

impl ItemKind {
    /// The maildir that holds items of this kind for a fin.
    pub fn home(&self, orqa: &Orqa, fin: &FinRef) -> (r: Result<String, String>)
        ensures
            text_result(r) == under_fin(*orqa, *fin, kind_dir(*self)),
    {
        match self {
            ItemKind::Mail => orqa.mail_home(fin),
            ItemKind::Task => orqa.task_home(fin),
        }
    }

    /// The header that carries an item's title.
    pub fn title_header(&self) -> (r: &'static str)
        ensures
            r@ == title_header_spec(*self),
    {
        match self {
            ItemKind::Mail => "Subject: ",
            ItemKind::Task => "title: ",
        }
    }
}

/// The title of an item: the rest of its first line that starts with the
/// kind's title header, or `(no title)`.
pub open spec fn title_spec(contents: Seq<char>, kind: ItemKind) -> Seq<char> {
    match first_with_prefix(lines(contents), title_header_spec(kind)) {
        Some(t) => t,
        None => "(no title)"@,
    }
}

/// The title of an item with these contents.
pub fn message_title(contents: &str, kind: ItemKind) -> (r: String)
    ensures
        r@ == title_spec(contents@, kind),
{
    let v = chars_of(contents);
    let p = chars_of(kind.title_header());
    let mut i: usize = 0;
    while i < v.len()
        invariant
            v@ == contents@,
            p@ == title_header_spec(kind),
            i <= v@.len(),
            first_with_prefix(lines_from(v@, i as int), p@) == first_with_prefix(lines(contents@), p@),
        decreases v@.len() - i,
    {
        let (a, b, next) = line_at(&v, i);
        let ghost l = v@.subrange(a as int, b as int);
        proof {
            assert((seq![l] + lines_from(v@, next as int)).drop_first() =~= lines_from(v@, next as int));
            assert((seq![l] + lines_from(v@, next as int))[0] == l);
        }
        if p.len() <= b - a && crate::text::matches_at_exec(&v, &p, a) {
            proof {
                assert(l.subrange(0, p@.len() as int) =~= v@.subrange(a as int, a + p@.len()));
                assert(l.subrange(p@.len() as int, l.len() as int) =~= v@.subrange(a + p@.len(), b as int));
            }
            return string_of_range(&v, a + p.len(), b);
        }
        proof {
            if p@.len() <= l.len() {
                assert(l.subrange(0, p@.len() as int) =~= v@.subrange(a as int, a + p@.len()));
            }
        }
        i = next;
    }
    String::from_str("(no title)")
}

/// Whether a pod is the operator's bridge pod, from which tasks may cross
/// pods.
pub fn is_operator_bridge(pod: &str) -> (r: bool)
    ensures
        r == (pod@ == "operator"@),
{
    str_eq(pod, "operator")
}

/// The pods through which mail may cross: the central `ops` pod, which
/// receives escalations from every pod and answers them, and the operator
/// bridge pod.
pub open spec fn mail_bridge_pod(pod: Seq<char>) -> bool {
    pod == "ops"@ || pod == "operator"@
}

/// Whether mail between two pods passes a bridge: one end is the `ops` pod
/// or the operator bridge pod. Other cross-pod mail stays blocked.
pub fn is_operator_mail_bridge(from_pod: &str, to_pod: &str) -> (r: bool)
    ensures
        r == (mail_bridge_pod(from_pod@) || mail_bridge_pod(to_pod@)),
{
    str_eq(from_pod, "ops") || str_eq(from_pod, "operator") || str_eq(to_pod, "ops") || str_eq(
        to_pod,
        "operator",
    )
}

/// Succeeds when the target fin's `fin.toml` is present.
pub fn ensure_target_fin(fin: &FinRef, config_present: bool) -> (r: Result<(), String>)
    ensures
        r is Ok <==> config_present,
        r matches Err(e) ==> e@ == "target fin "@ + fin_label(fin.pod@, fin.fin@) + " does not exist"@,
{
    if config_present {
        Ok(())
    } else {
        let mut e = String::from_str("target fin ");
        append(&mut e, fin.label().as_str());
        append(&mut e, " does not exist");
        Err(e)
    }
}

/// Where a piece of mail goes.
#[derive(Clone, Copy, PartialEq, Eq, Debug, Structural)]
pub enum MailRoute {
    /// Mail to `operator` opens an issue for the operator.
    OperatorIssue,
    /// Other mail is delivered to the target fin's maildir.
    Deliver,
}

/// The route of mail: refused across pods unless one end is a bridge pod
/// (`ops` or `operator`); mail to the `operator` fin opens an issue; other mail is
/// delivered.
pub fn mail_route(from: &MailAddress, to: &MailAddress) -> (r: Result<MailRoute, String>)
    ensures
        from.pod@ != to.pod@ && !(mail_bridge_pod(from.pod@) || mail_bridge_pod(to.pod@)) ==> (r matches Err(
            e,
        ) && e@ == "cross-pod mail is not supported: "@ + address_label(from.fin@, from.pod@) + " -> "@
            + address_label(to.fin@, to.pod@)),
        !(from.pod@ != to.pod@ && !(mail_bridge_pod(from.pod@) || mail_bridge_pod(to.pod@))) ==> r
            == (if to.fin@ == "operator"@ {
            Ok::<MailRoute, String>(MailRoute::OperatorIssue)
        } else {
            Ok::<MailRoute, String>(MailRoute::Deliver)
        }),
{
    if !str_eq(from.pod.as_str(), to.pod.as_str()) && !is_operator_mail_bridge(
        from.pod.as_str(),
        to.pod.as_str(),
    ) {
        let mut e = String::from_str("cross-pod mail is not supported: ");
        append(&mut e, from.label().as_str());
        append(&mut e, " -> ");
        append(&mut e, to.label().as_str());
        return Err(e);
    }
    if str_eq(to.fin.as_str(), "operator") {
        Ok(MailRoute::OperatorIssue)
    } else {
        Ok(MailRoute::Deliver)
    }
}

/// Refuses tasks across pods unless they come from the operator bridge.
pub fn task_route(from: &MailAddress, to: &MailAddress) -> (r: Result<(), String>)
    ensures
        r is Ok <==> (from.pod@ == to.pod@ || from.pod@ == "operator"@),
        r matches Err(e) ==> e@ == "cross-pod tasks are not supported: "@ + address_label(
            from.fin@,
            from.pod@,
        ) + " -> "@ + address_label(to.fin@, to.pod@),
{
    if !str_eq(from.pod.as_str(), to.pod.as_str()) && !is_operator_bridge(from.pod.as_str()) {
        let mut e = String::from_str("cross-pod tasks are not supported: ");
        append(&mut e, from.label().as_str());
        append(&mut e, " -> ");
        append(&mut e, to.label().as_str());
        return Err(e);
    }
    Ok(())
}

/// The text of a mail message: `From`, `To` and `Subject` headers, a blank
/// line, and the body with a final newline.
pub open spec fn mail_text(from: Seq<char>, to: Seq<char>, subject: Seq<char>, body: Seq<char>) -> Seq<
    char,
> {
    "From: "@ + from + "\nTo: "@ + to + "\nSubject: "@ + subject + "\n\n"@ + body + "\n"@
}

/// Writes a mail message.
pub fn mail_message(from: &MailAddress, to: &MailAddress, subject: &str, body: &str) -> (r: String)
    ensures
        r@ == mail_text(
            address_label(from.fin@, from.pod@),
            address_label(to.fin@, to.pod@),
            subject@,
            body@,
        ),
{
    let mut r = String::from_str("From: ");
    append(&mut r, from.label().as_str());
    append(&mut r, "\nTo: ");
    append(&mut r, to.label().as_str());
    append(&mut r, "\nSubject: ");
    append(&mut r, subject);
    append(&mut r, "\n\n");
    append(&mut r, body);
    append(&mut r, "\n");
    r
}

/// One listing line: the state, the id and the title of an item.
pub open spec fn list_line_spec(state: Seq<char>, path: Seq<char>, contents: Seq<char>, kind: ItemKind) -> Result<
    Seq<char>,
    Seq<char>,
> {
    match file_name(path) {
        Some(id) => Ok(state + " "@ + id + " "@ + title_spec(contents, kind)),
        None => Err("message path has no filename: "@ + path),
    }
}

/// Lists items of a kind: every item in `new`, then, when `all` is set,
/// every item in `cur`. Each entry is a path and its contents, in the
/// order the directory listing sorted them.
pub open spec fn list_items_spec(
    new_items: Seq<(Seq<char>, Seq<char>)>,
    cur_items: Seq<(Seq<char>, Seq<char>)>,
    all: bool,
    kind: ItemKind,
) -> Result<Seq<Seq<char>>, Seq<char>> {
    match list_lines_spec("new"@, new_items, kind) {
        Err(e) => Err(e),
        Ok(a) => if all {
            match list_lines_spec("cur"@, cur_items, kind) {
                Err(e) => Err(e),
                Ok(b) => Ok(a + b),
            }
        } else {
            Ok(a)
        },
    }
}

/// Listing lines for items in one state; the first item without a file
/// name stops the listing with an error.
pub open spec fn list_lines_spec(state: Seq<char>, items: Seq<(Seq<char>, Seq<char>)>, kind: ItemKind) -> Result<
    Seq<Seq<char>>,
    Seq<char>,
>
    decreases items.len(),
{
    if items.len() == 0 {
        Ok(Seq::empty())
    } else {
        match list_lines_spec(state, items.drop_last(), kind) {
            Err(e) => Err(e),
            Ok(a) => match list_line_spec(state, items.last().0, items.last().1, kind) {
                Err(e) => Err(e),
                Ok(l) => Ok(a.push(l)),
            },
        }
    }
}

proof fn lemma_list_err(
    state: Seq<char>,
    its: Seq<(Seq<char>, Seq<char>)>,
    k: int,
    n: int,
    kind: ItemKind,
)
    requires
        0 <= k <= n <= its.len(),
        list_lines_spec(state, its.subrange(0, k), kind) is Err,
    ensures
        list_lines_spec(state, its.subrange(0, n), kind) == list_lines_spec(
            state,
            its.subrange(0, k),
            kind,
        ),
    decreases n - k,
{
    if n > k {
        lemma_list_err(state, its, k, n - 1, kind);
        assert(its.subrange(0, n).drop_last() =~= its.subrange(0, n - 1));
    }
}

fn list_lines(
    state: &str,
    items: &Vec<(String, String)>,
    kind: ItemKind,
    out: &mut Vec<String>,
) -> (r: Result<(), String>)
    ensures
        match list_lines_spec(state@, tasks::fields_view(items@), kind) {
            Ok(a) => r is Ok && strings_view(final(out)@) == strings_view(old(out)@) + a,
            Err(e) => r matches Err(x) && x@ == e,
        },
{
    let ghost start = strings_view(out@);
    let ghost its = tasks::fields_view(items@);
    let mut i: usize = 0;
    while i < items.len()
        invariant
            its == tasks::fields_view(items@),
            i <= items@.len(),
            list_lines_spec(state@, its.subrange(0, i as int), kind) matches Ok(a) && strings_view(
                out@,
            ) == start + a,
        decreases items@.len() - i,
    {
        proof {
            assert(its.subrange(0, i + 1).drop_last() =~= its.subrange(0, i as int));
        }
        let id = match message_id(items[i].0.as_str()) {
            Ok(id) => id,
            Err(e) => {
                proof {
                    lemma_list_err(state@, its, i + 1, items@.len() as int, kind);
                    assert(its.subrange(0, items@.len() as int) =~= its);
                }
                return Err(e);
            },
        };
        let title = message_title(items[i].1.as_str(), kind);
        let mut l = String::from_str(state);
        append(&mut l, " ");
        append(&mut l, id.as_str());
        append(&mut l, " ");
        append(&mut l, title.as_str());
        let ghost before = out@;
        out.push(l);
        proof {
            assert(strings_view(out@) =~= strings_view(before).push(l@));
            let a = list_lines_spec(state@, its.subrange(0, i as int), kind)->Ok_0;
            assert(strings_view(out@) =~= start + a.push(l@));
        }
        i = i + 1;
    }
    proof {
        assert(its.subrange(0, i as int) =~= its);
    }
    Ok(())
}

/// The listing of a fin's items of one kind: given each item's path and
/// contents, in `new` and in `cur`.
pub fn list_items(
    new_items: &Vec<(String, String)>,
    cur_items: &Vec<(String, String)>,
    all: bool,
    kind: ItemKind,
) -> (r: Result<Vec<String>, String>)
    ensures
        match list_items_spec(
            tasks::fields_view(new_items@),
            tasks::fields_view(cur_items@),
            all,
            kind,
        ) {
            Ok(a) => r matches Ok(x) && strings_view(x@) == a,
            Err(e) => r matches Err(x) && x@ == e,
        },
{
    let mut out: Vec<String> = Vec::new();
    proof {
        assert(strings_view(out@) =~= Seq::<Seq<char>>::empty());
    }
    list_lines("new", new_items, kind, &mut out)?;
    if all {
        list_lines("cur", cur_items, kind, &mut out)?;
    }
    Ok(out)
}

/// The mail listing of a fin.
pub fn list_mail(new_items: &Vec<(String, String)>, cur_items: &Vec<(String, String)>, all: bool) -> (r:
    Result<Vec<String>, String>)
    ensures
        match list_items_spec(
            tasks::fields_view(new_items@),
            tasks::fields_view(cur_items@),
            all,
            ItemKind::Mail,
        ) {
            Ok(a) => r matches Ok(x) && strings_view(x@) == a,
            Err(e) => r matches Err(x) && x@ == e,
        },
{
    list_items(new_items, cur_items, all, ItemKind::Mail)
}

/// The item a command names: resolved in the kind's maildir of the fin,
/// given which of the candidate paths exist.
pub open spec fn item_path_spec(
    o: Orqa,
    kind: ItemKind,
    fin: FinRef,
    message: Seq<char>,
    present: Seq<bool>,
) -> Result<Seq<char>, Seq<char>> {
    match under_fin(o, fin, kind_dir(kind)) {
        Err(e) => Err(e),
        Ok(home) => {
            let c = message_candidates_spec(home, message);
            if present[0] {
                Ok(c[0])
            } else if present[1] {
                Ok(c[1])
            } else if present[2] {
                Ok(c[2])
            } else {
                Err("message "@ + debug_text(message) + " not found in "@ + home)
            }
        },
    }
}

/// The path of the item a command names.
pub fn item_path(orqa: &Orqa, kind: ItemKind, fin: &FinRef, message: &str, present: &Vec<bool>) -> (r:
    Result<String, String>)
    requires
        present@.len() == 3,
    ensures
        text_result(r) == item_path_spec(*orqa, kind, *fin, message@, present@),
{
    let home = kind.home(orqa, fin)?;
    let r = resolve_message_path(home.as_str(), message, present);
    proof {
        if r is Ok {
            let k = choose|k: int| 0 <= k < 3 && present@[k] && r->Ok_0@
                == message_candidates_spec(home@, message@)[k] && forall|j: int|
                0 <= j < k ==> !present@[j];
            assert(k == 0 || k == 1 || k == 2);
        }
    }
    r
}

/// The mail message to show.
pub fn read_mail(orqa: &Orqa, fin: &FinRef, message: &str, present: &Vec<bool>) -> (r: Result<
    String,
    String,
>)
    requires
        present@.len() == 3,
    ensures
        text_result(r) == item_path_spec(*orqa, ItemKind::Mail, *fin, message@, present@),
{
    item_path(orqa, ItemKind::Mail, fin, message, present)
}

/// The mail message to delete.
pub fn delete_mail(orqa: &Orqa, fin: &FinRef, message: &str, present: &Vec<bool>) -> (r: Result<
    String,
    String,
>)
    requires
        present@.len() == 3,
    ensures
        text_result(r) == item_path_spec(*orqa, ItemKind::Mail, *fin, message@, present@),
{
    item_path(orqa, ItemKind::Mail, fin, message, present)
}

/// What marking an item done does: which file it concerns, whether a task's
/// front matter is rewritten with `status: done`, and where the file moves
/// when it is still new.
pub struct DonePlan {
    pub path: String,
    pub rewrite_task: bool,
    pub move_to: Option<String>,
}

/// The plan for marking an item done: a task's status is always rewritten;
/// an item in `new` moves to `cur` under its id; an item already in `cur`
/// stays.
pub open spec fn done_spec(
    o: Orqa,
    kind: ItemKind,
    fin: FinRef,
    message: Seq<char>,
    present: Seq<bool>,
) -> Result<(Seq<char>, bool, Option<Seq<char>>), Seq<char>> {
    match under_fin(o, fin, kind_dir(kind)) {
        Err(e) => Err(e),
        Ok(home) => match item_path_spec(o, kind, fin, message, present) {
            Err(e) => Err(e),
            Ok(path) => match file_name(path) {
                None => Err("message path has no filename: "@ + path),
                Some(id) => match mail_state_spec(home, path) {
                    Err(e) => Err(e),
                    Ok(state) => if state == "cur"@ {
                        Ok((path, kind == ItemKind::Task, None))
                    } else {
                        Ok((path, kind == ItemKind::Task, Some(join(join(home, "cur"@), id))))
                    },
                },
            },
        },
    }
}

/// Plans marking an item done.
pub fn done_item(orqa: &Orqa, kind: ItemKind, fin: &FinRef, message: &str, present: &Vec<bool>) -> (r:
    Result<DonePlan, String>)
    requires
        present@.len() == 3,
    ensures
        match done_spec(*orqa, kind, *fin, message@, present@) {
            Ok(p) => r matches Ok(x) && x.path@ == p.0 && x.rewrite_task == p.1 && opt_text_s(x.move_to)
                == p.2,
            Err(e) => r matches Err(x) && x@ == e,
        },
{
    let home = kind.home(orqa, fin)?;
    let path = item_path(orqa, kind, fin, message, present)?;
    let id = message_id(path.as_str())?;
    let state = mail_state(home.as_str(), path.as_str())?;
    let rewrite_task = kind == ItemKind::Task;
    if str_eq(state.as_str(), "cur") {
        Ok(DonePlan { path, rewrite_task, move_to: None })
    } else {
        let cur = join_path(home.as_str(), "cur");
        let to = join_path(cur.as_str(), id.as_str());
        Ok(DonePlan { path, rewrite_task, move_to: Some(to) })
    }
}

/// The text of an optional string.
pub open spec fn opt_text_s(o: Option<String>) -> Option<Seq<char>> {
    crate::text::opt_string(o)
}

/// Plans marking a mail message done.
pub fn done_mail(orqa: &Orqa, fin: &FinRef, message: &str, present: &Vec<bool>) -> (r: Result<
    DonePlan,
    String,
>)
    requires
        present@.len() == 3,
    ensures
        match done_spec(*orqa, ItemKind::Mail, *fin, message@, present@) {
            Ok(p) => r matches Ok(x) && x.path@ == p.0 && x.rewrite_task == p.1 && opt_text_s(x.move_to)
                == p.2,
            Err(e) => r matches Err(x) && x@ == e,
        },
{
    done_item(orqa, ItemKind::Mail, fin, message, present)
}

} // verus!
