//! Maildir storage: message names, states, addresses and message paths.

use vstd::prelude::*;
use vstd::string::*;
use crate::model::{
    address_parts, address_shape_error, fin_label, slug_error, slug_ok, FinRef, MailAddress,
};
use crate::paths::{file_name, file_name_exec, join, join_path, path_starts_with,
    path_starts_with_exec};
use crate::text::{append, chars_of, debug_quoted, debug_text, decimal, find_char, find_char_in,
    lemma_find_char_from_bounds, u64_to_decimal};

verus! {

/// A maildir file name: microseconds since the epoch, process id and a
/// per-process counter, then `.orqa`.
pub open spec fn mail_name(micros: u64, pid: u32, counter: u64) -> Seq<char> {
    decimal(micros as nat) + "."@ + decimal(pid as nat) + "."@ + decimal(counter as nat) + ".orqa"@
}

/// The file name for a new message.
pub fn unique_mail_name(micros: u64, pid: u32, counter: u64) -> (r: String)
    ensures
        r@ == mail_name(micros, pid, counter),
{
    let mut r = u64_to_decimal(micros);
    append(&mut r, ".");
    append(&mut r, u64_to_decimal(pid as u64).as_str());
    append(&mut r, ".");
    append(&mut r, u64_to_decimal(counter).as_str());
    append(&mut r, ".orqa");
    r
}

/// The id of a message: its file name.
pub fn message_id(path: &str) -> (r: Result<String, String>)
    ensures
        match file_name(path@) {
            Some(n) => r matches Ok(s) && s@ == n,
            None => r matches Err(e) && e@ == "message path has no filename: "@ + path@,
        },
{
    match file_name_exec(path) {
        Some(name) => Ok(name),
        None => {
            let mut e = String::from_str("message path has no filename: ");
            append(&mut e, path);
            Err(e)
        },
    }
}

/// Which maildir state holds a message path: `new` or `cur`.
pub open spec fn mail_state_spec(home: Seq<char>, path: Seq<char>) -> Result<Seq<char>, Seq<char>> {
    if path_starts_with(path, join(home, "new"@)) {
        Ok("new"@)
    } else if path_starts_with(path, join(home, "cur"@)) {
        Ok("cur"@)
    } else {
        Err("message "@ + path + " is not inside "@ + home)
    }
}

/// The maildir state of a message path.
pub fn mail_state(mail_home: &str, path: &str) -> (r: Result<String, String>)
    ensures
        crate::model::text_result(r) == mail_state_spec(mail_home@, path@),
{
    let new_dir = join_path(mail_home, "new");
    if path_starts_with_exec(path, new_dir.as_str()) {
        return Ok(String::from_str("new"));
    }
    let cur_dir = join_path(mail_home, "cur");
    if path_starts_with_exec(path, cur_dir.as_str()) {
        return Ok(String::from_str("cur"));
    }
    let mut e = String::from_str("message ");
    append(&mut e, path);
    append(&mut e, " is not inside ");
    append(&mut e, mail_home);
    Err(e)
}

/// Where a message named on the command line may be: the text as a path,
/// then the file of that name in `new`, then in `cur`.
pub open spec fn message_candidates_spec(home: Seq<char>, message: Seq<char>) -> Seq<Seq<char>> {
    seq![message, join(join(home, "new"@), message), join(join(home, "cur"@), message)]
}

/// The paths to try for a message, in order.
pub fn message_candidates(mail_home: &str, message: &str) -> (r: Vec<String>)
    ensures
        r@.map_values(|s: String| s@) == message_candidates_spec(mail_home@, message@),
{
    let mut r: Vec<String> = Vec::new();
    r.push(String::from_str(message));
    let n = join_path(mail_home, "new");
    r.push(join_path(n.as_str(), message));
    let c = join_path(mail_home, "cur");
    r.push(join_path(c.as_str(), message));
    proof {
        assert(r@.map_values(|s: String| s@) =~= message_candidates_spec(mail_home@, message@));
    }
    r
}

/// The first candidate that exists, given which of them exist.
pub fn resolve_message_path(mail_home: &str, message: &str, present: &Vec<bool>) -> (r: Result<
    String,
    String,
>)
    requires
        present@.len() == 3,
    ensures
        match r {
            Ok(p) => exists|k: int| 0 <= k < 3 && present@[k] && p@ == message_candidates_spec(
                mail_home@,
                message@,
            )[k] && forall|j: int| 0 <= j < k ==> !present@[j],
            Err(e) => !present@[0] && !present@[1] && !present@[2] && e@ == "message "@ + debug_text(
                message@,
            ) + " not found in "@ + mail_home@,
        },
{
    let c = message_candidates(mail_home, message);
    assert(c@.map_values(|s: String| s@).len() == 3);
    let mut k: usize = 0;
    while k < 3
        invariant
            k <= 3,
            present@.len() == 3,
            c@.len() == 3,
            c@.map_values(|s: String| s@) == message_candidates_spec(mail_home@, message@),
            forall|j: int| 0 <= j < k ==> !present@[j],
        decreases 3 - k,
    {
        if present[k] {
            assert(c@.map_values(|s: String| s@)[k as int] == c@[k as int]@);
            return Ok(c[k].clone());
        }
        k = k + 1;
    }
    let mut e = String::from_str("message ");
    append(&mut e, debug_quoted(message).as_str());
    append(&mut e, " not found in ");
    append(&mut e, mail_home);
    Err(e)
}

/// The address a bare fin slug or a full `fin@pod.orqa` names.
pub open spec fn resolve_address_spec(address: Seq<char>, pod_hint: Option<Seq<char>>) -> Result<
    (Seq<char>, Seq<char>),
    Seq<char>,
> {
    if find_char(address, '@') >= 0 {
        match address_parts(address) {
            None => Err(address_shape_error(address)),
            Some(p) => if !slug_ok(p.0) {
                Err(slug_error(p.0))
            } else if !slug_ok(p.1) {
                Err(slug_error(p.1))
            } else {
                Ok(p)
            },
        }
    } else {
        match pod_hint {
            None => Err("bare address "@ + debug_text(address)
                + " needs ORQA_POD; use fin@pod.orqa or run with ORQA_POD set"@),
            Some(pod) => if !slug_ok(address) {
                Err(slug_error(address))
            } else if !slug_ok(pod) {
                Err(slug_error(pod))
            } else {
                Ok((address, pod))
            },
        }
    }
}

/// An address result as text.
pub open spec fn address_result(r: Result<MailAddress, String>) -> Result<(Seq<char>, Seq<char>), Seq<char>> {
    match r {
        Ok(m) => Ok((m.fin@, m.pod@)),
        Err(e) => Err(e@),
    }
}

/// Resolves a full address, or a bare fin slug inside the hinted pod.
pub fn resolve_address(address: &str, pod_hint: Option<&str>) -> (r: Result<MailAddress, String>)
    ensures
        address_result(r) == resolve_address_spec(address@, crate::model::opt_text(pod_hint)),
{
    let v = chars_of(address);
    proof {
        lemma_find_char_from_bounds(v@, '@', 0);
    }
    if find_char_in(&v, '@', 0).is_some() {
        return MailAddress::parse(address);
    }
    let pod = match pod_hint {
        Some(pod) => pod,
        None => {
            let mut e = String::from_str("bare address ");
            append(&mut e, debug_quoted(address).as_str());
            append(&mut e, " needs ORQA_POD; use fin@pod.orqa or run with ORQA_POD set");
            return Err(e);
        },
    };
    crate::model::validate_slug(address)?;
    crate::model::validate_slug(pod)?;
    Ok(MailAddress { fin: String::from_str(address), pod: String::from_str(pod) })
}

/// The sender of a message: `--from`, resolved inside `ORQA_POD`, or the
/// fin named by `ORQA_FIN` in `ORQA_POD`.
pub open spec fn resolve_sender_spec(
    from: Option<Seq<char>>,
    env_pod: Option<Seq<char>>,
    env_fin: Option<Seq<char>>,
) -> Result<(Seq<char>, Seq<char>), Seq<char>> {
    match from {
        Some(f) => resolve_address_spec(f, env_pod),
        None => match (env_pod, env_fin) {
            (Some(pod), Some(fin)) => resolve_address_spec(fin, Some(pod)),
            _ => Err(
                "missing sender; use --from fin@pod.orqa or run with ORQA_POD and ORQA_FIN set"@,
            ),
        },
    }
}

/// Resolves the sender from `--from` or from `ORQA_POD` and `ORQA_FIN`.
pub fn resolve_sender(from: Option<&str>, env_pod: Option<&str>, env_fin: Option<&str>) -> (r:
    Result<MailAddress, String>)
    ensures
        address_result(r) == resolve_sender_spec(
            crate::model::opt_text(from),
            crate::model::opt_text(env_pod),
            crate::model::opt_text(env_fin),
        ),
{
    match from {
        Some(from) => resolve_address(from, env_pod),
        None => match (env_pod, env_fin) {
            (Some(pod), Some(fin)) => resolve_address(fin, Some(pod)),
            _ => Err(
                String::from_str(
                    "missing sender; use --from fin@pod.orqa or run with ORQA_POD and ORQA_FIN set",
                ),
            ),
        },
    }
}

/// The fin a mail or task command reads: the pod and fin given, each
/// falling back to its environment variable.
pub fn resolve_fin(pod: Option<&str>, fin: Option<&str>) -> (r: Result<FinRef, String>)
    ensures
        match (pod, fin) {
            (None, _) => r matches Err(e) && e@ == "missing pod; use --pod or run with ORQA_POD set"@,
            (Some(_), None) => r matches Err(e) && e@
                == "missing fin; use --fin or run with ORQA_FIN set"@,
            (Some(p), Some(f)) => (r is Ok <==> slug_ok(p@) && slug_ok(f@)) && (r matches Ok(x)
                ==> x.pod@ == p@ && x.fin@ == f@) && (r matches Err(e) ==> e@ == (if !slug_ok(p@) {
                slug_error(p@)
            } else {
                slug_error(f@)
            })),
        },
{
    let pod = match pod {
        Some(p) => p,
        None => {
            return Err(String::from_str("missing pod; use --pod or run with ORQA_POD set"));
        },
    };
    let fin = match fin {
        Some(f) => f,
        None => {
            return Err(String::from_str("missing fin; use --fin or run with ORQA_FIN set"));
        },
    };
    FinRef::new(pod, fin)
}

/// The contents of a pause marker.
pub fn sleep_marker_contents() -> (r: String)
    ensures
        r@ == "sleeping=true\n"@,
{
    String::from_str("sleeping=true\n")
}

/// The three numbers a maildir file name starts with, read between its
/// first three dots.
pub open spec fn mail_name_numbers(s: Seq<char>) -> (nat, nat, nat) {
    let i1 = find_char(s, '.');
    let i2 = crate::text::find_char_from(s, '.', i1 + 1);
    let i3 = crate::text::find_char_from(s, '.', i2 + 1);
    (
        crate::text::digits_value(s.subrange(0, i1)),
        crate::text::digits_value(s.subrange(i1 + 1, i2)),
        crate::text::digits_value(s.subrange(i2 + 1, i3)),
    )
}

proof fn lemma_no_dot_in_digits(d: Seq<char>, s: Seq<char>, off: int)
    requires
        crate::text::all_digits(d),
        0 <= off,
        off + d.len() <= s.len(),
        s.subrange(off, off + d.len()) == d,
    ensures
        forall|j: int| off <= j < off + d.len() ==> s[j] != '.',
{
    assert forall|j: int| off <= j < off + d.len() implies s[j] != '.' by {
        assert(s.subrange(off, off + d.len())[j - off] == s[j]);
        assert(crate::text::is_digit(d[j - off]));
    }
}

/// A maildir file name reads back as the microseconds, pid and counter it
/// was made from.
pub proof fn lemma_mail_name_numbers(micros: u64, pid: u32, counter: u64)
    ensures
        mail_name_numbers(mail_name(micros, pid, counter)) == (micros as nat, pid as nat, counter as nat),
{
    reveal_strlit(".");
    reveal_strlit(".orqa");
    let d1 = decimal(micros as nat);
    let d2 = decimal(pid as nat);
    let d3 = decimal(counter as nat);
    crate::text::lemma_decimal_digits(micros as nat);
    crate::text::lemma_decimal_digits(pid as nat);
    crate::text::lemma_decimal_digits(counter as nat);
    let s = mail_name(micros, pid, counter);
    assert(s =~= d1 + seq!['.'] + d2 + seq!['.'] + d3 + ".orqa"@);
    let a = d1.len() as int;
    let b = a + 1 + d2.len();
    let c = b + 1 + d3.len();
    assert(s.subrange(0, a) =~= d1);
    assert(s.subrange(a + 1, b) =~= d2);
    assert(s.subrange(b + 1, c) =~= d3);
    lemma_no_dot_in_digits(d1, s, 0);
    lemma_no_dot_in_digits(d2, s, a + 1);
    lemma_no_dot_in_digits(d3, s, b + 1);
    assert(s[a] == '.');
    assert(s[b] == '.');
    assert(s[c] == '.');
    crate::runtime::lemma_find_char_at(s, '.', 0, a);
    crate::runtime::lemma_find_char_at(s, '.', a + 1, b);
    crate::runtime::lemma_find_char_at(s, '.', b + 1, c);
}

/// Maildir file names are unique: two names are equal only when made from
/// the same microseconds, pid and counter.
pub proof fn law_mail_names_unique(
    m1: u64,
    p1: u32,
    c1: u64,
    m2: u64,
    p2: u32,
    c2: u64,
)
    requires
        m1 != m2 || p1 != p2 || c1 != c2,
    ensures
        mail_name(m1, p1, c1) != mail_name(m2, p2, c2),
{
    lemma_mail_name_numbers(m1, p1, c1);
    lemma_mail_name_numbers(m2, p2, c2);
}

/// A message delivered into `new/` under its maildir name is found by that
/// name: the name is the delivered file's name, and while no file of that
/// name is in the working directory, the path the lookup picks is the
/// delivered one.
pub proof fn law_delivered_mail_resolves(home: Seq<char>, micros: u64, pid: u32, counter: u64, present: Seq<bool>)
    requires
        present.len() == 3,
        !present[0],
        present[1],
    ensures
        file_name(join(join(home, "new"@), mail_name(micros, pid, counter))) == Some(
            mail_name(micros, pid, counter),
        ),
        forall|k: int|
            0 <= k < 3 && present[k] && (forall|j: int| 0 <= j < k ==> !present[j]) ==> #[trigger]
                message_candidates_spec(home, mail_name(micros, pid, counter))[k] == join(
                join(home, "new"@),
                mail_name(micros, pid, counter),
            ),
{
    reveal_strlit("new");
    reveal_strlit(".");
    reveal_strlit(".orqa");
    let base = join(home, "new"@);
    assert(base.len() > 0 && base.last() == 'w');
    let a = decimal(micros as nat);
    let b = decimal(pid as nat);
    let c = decimal(counter as nat);
    crate::text::lemma_decimal_digits(micros as nat);
    crate::text::lemma_decimal_digits(pid as nat);
    crate::text::lemma_decimal_digits(counter as nat);
    let name = mail_name(micros, pid, counter);
    let dot = "."@;
    let tail = ".orqa"@;
    assert(name == a + dot + b + dot + c + tail);
    assert forall|j: int| 0 <= j < name.len() implies name[j] != '/' by {
        if j < a.len() {
            assert(name[j] == a[j] && crate::text::is_digit(a[j]));
        } else if j < a.len() + 1 {
            assert(name[j] == '.');
        } else if j < a.len() + 1 + b.len() {
            assert(name[j] == b[j - a.len() - 1] && crate::text::is_digit(b[j - a.len() - 1]));
        } else if j < a.len() + 2 + b.len() {
            assert(name[j] == '.');
        } else if j < a.len() + 2 + b.len() + c.len() {
            assert(name[j] == c[j - a.len() - 2 - b.len()] && crate::text::is_digit(c[j - a.len() - 2 - b.len()]));
        } else {
            assert(name[j] == tail[j - a.len() - 2 - b.len() - c.len()]);
        }
    }
    assert(name.len() >= 5);
    crate::paths::lemma_file_name_of_join(base, name);
}

/// An explicit `--from` names the sender whatever `ORQA_FIN` says: the
/// sender is the same under any `ORQA_FIN`; a full address `fin@pod.orqa`
/// gives that fin and pod under any environment; a bare fin slug is placed
/// in `ORQA_POD`.
pub proof fn law_explicit_sender_wins(
    from: Seq<char>,
    env_pod: Option<Seq<char>>,
    env_fin: Option<Seq<char>>,
    other_fin: Option<Seq<char>>,
    fin: Seq<char>,
    pod: Seq<char>,
)
    ensures
        resolve_sender_spec(Some(from), env_pod, env_fin) == resolve_sender_spec(Some(from), env_pod, other_fin),
        slug_ok(fin) && slug_ok(pod) ==> resolve_sender_spec(
            Some(crate::model::address_label(fin, pod)),
            env_pod,
            env_fin,
        ) == Ok::<(Seq<char>, Seq<char>), Seq<char>>((fin, pod)),
        slug_ok(fin) && slug_ok(pod) ==> resolve_sender_spec(Some(fin), Some(pod), env_fin) == Ok::<
            (Seq<char>, Seq<char>),
            Seq<char>,
        >((fin, pod)),
{
    if slug_ok(fin) && slug_ok(pod) {
        crate::model::law_address_round_trip(fin, pod);
        let a = crate::model::address_label(fin, pod);
        assert(a[fin.len() as int] == '@');
        lemma_find_char_from_bounds(a, '@', 0);
        lemma_find_char_from_bounds(fin, '@', 0);
        assert forall|j: int| 0 <= j < fin.len() implies fin[j] != '@' by {
            assert(crate::model::is_slug_char(fin[j]));
        }
    }
}

} // verus!
