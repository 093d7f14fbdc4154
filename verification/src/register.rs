//! Registering a pod in the global configuration: the `[registry]` table
//! records the format version and `[pods]` gets the pod's entry.

use vstd::prelude::*;
use vstd::string::*;
use crate::config::{table_get, table_get_from, table_of, text_of, ConfigValue};
use crate::config_file::{
    integer_value, parse_toml_table, render_toml_compact, render_toml_table, toml_compact_text, toml_integer,
    toml_pretty_text, toml_table,
};
use crate::model::{registered_path, registration_entry, registry_entries, registry_spec, slug_ok};
use crate::text::{append, str_eq};

verus! {

/// The index of the first entry named `key` at or after `i`, or -1.
pub open spec fn key_index_from(t: Seq<(String, ConfigValue)>, key: Seq<char>, i: int) -> int
    decreases t.len() - i,
{
    if i < 0 || i >= t.len() {
        -1
    } else if t[i].0@ == key {
        i
    } else {
        key_index_from(t, key, i + 1)
    }
}

/// The index of the first entry named `key`, or -1.
pub open spec fn key_index(t: Seq<(String, ConfigValue)>, key: Seq<char>) -> int {
    key_index_from(t, key, 0)
}

/// `t2` is `t` with `key` set to `v`: the first entry of that name takes the
/// value, or, when there is none, an entry of that name is added at the end.
pub open spec fn set_at(t: Seq<(String, ConfigValue)>, t2: Seq<(String, ConfigValue)>, key: Seq<char>, v: ConfigValue) -> bool {
    let i = key_index(t, key);
    if i >= 0 {
        t2 == t.update(i, (t[i].0, v))
    } else {
        t2.len() == t.len() + 1 && t2.drop_last() == t && t2.last().0@ == key && t2.last().1 == v
    }
}

proof fn lemma_key_index_from(t: Seq<(String, ConfigValue)>, key: Seq<char>, i: int)
    requires
        0 <= i <= t.len(),
    ensures
        -1 <= key_index_from(t, key, i) < t.len(),
        key_index_from(t, key, i) >= 0 ==> i <= key_index_from(t, key, i) && t[key_index_from(t, key, i)].0@
            == key && forall|j: int| i <= j < key_index_from(t, key, i) ==> t[j].0@ != key,
        key_index_from(t, key, i) < 0 ==> forall|j: int| i <= j < t.len() ==> t[j].0@ != key,
        table_get_from(t, key, i) == (if key_index_from(t, key, i) >= 0 {
            Some(t[key_index_from(t, key, i)].1)
        } else {
            None
        }),
    decreases t.len() - i,
{
    if i < t.len() {
        lemma_key_index_from(t, key, i + 1);
    }
}

/// The first index of a name is the one entry of that name with none of that
/// name before it.
proof fn lemma_key_index_is(t: Seq<(String, ConfigValue)>, key: Seq<char>, k: int)
    requires
        -1 <= k < t.len(),
        k >= 0 ==> t[k].0@ == key,
        forall|j: int| 0 <= j < t.len() && (k < 0 || j < k) ==> t[j].0@ != key,
    ensures
        key_index(t, key) == k,
{
    lemma_key_index_from(t, key, 0);
}

/// After setting, the key reads the new value and every other key reads as
/// before.
proof fn lemma_set_at_get(
    t: Seq<(String, ConfigValue)>,
    t2: Seq<(String, ConfigValue)>,
    key: Seq<char>,
    v: ConfigValue,
    other: Seq<char>,
)
    requires
        set_at(t, t2, key, v),
    ensures
        table_get(t2, key) == Some(v),
        other != key ==> table_get(t2, other) == table_get(t, other),
{
    lemma_key_index_from(t, key, 0);
    lemma_key_index_from(t, other, 0);
    let i = key_index(t, key);
    let o = key_index(t, other);
    if i >= 0 {
        assert forall|j: int| 0 <= j < t2.len() implies t2[j].0 == t[j].0 by {}
        lemma_key_index_is(t2, key, i);
        if other != key {
            if o >= 0 {
                assert(o != i);
            }
            lemma_key_index_is(t2, other, o);
        }
    } else {
        assert forall|j: int| 0 <= j < t.len() implies t2[j] == t[j] by {
            assert(t2.drop_last()[j] == t2[j]);
        }
        lemma_key_index_is(t2, key, t.len() as int);
        if other != key {
            lemma_key_index_is(t2, other, o);
        }
    }
    lemma_key_index_from(t2, key, 0);
    lemma_key_index_from(t2, other, 0);
}

/// The index of the first entry named `key`.
fn entry_index(t: &Vec<(String, ConfigValue)>, key: &str) -> (r: Option<usize>)
    ensures
        match r {
            Some(i) => i as int == key_index(t@, key@),
            None => key_index(t@, key@) < 0,
        },
{
    let mut i: usize = 0;
    while i < t.len()
        invariant
            i <= t@.len(),
            key_index(t@, key@) == key_index_from(t@, key@, i as int),
        decreases t@.len() - i,
    {
        if str_eq(t[i].0.as_str(), key) {
            return Some(i);
        }
        i = i + 1;
    }
    None
}

/// Sets `key` to `v` in a table.
fn set_entry(t: &mut Vec<(String, ConfigValue)>, key: &str, v: ConfigValue)
    ensures
        set_at(old(t)@, final(t)@, key@, v),
{
    proof {
        lemma_key_index_from(t@, key@, 0);
    }
    match entry_index(t, key) {
        Some(i) => {
            let (k, _) = t.remove(i);
            t.insert(i, (k, v));
            proof {
                assert(t@ =~= old(t)@.update(i as int, (old(t)@[i as int].0, v)));
            }
        },
        None => {
            t.push((String::from_str(key), v));
            proof {
                assert(t@.drop_last() =~= old(t)@);
            }
        },
    }
}

/// The entries of the table a config holds under `name`: none yet when the
/// name is missing, and nothing when it holds something other than a table.
pub open spec fn sub_entries(t: Seq<(String, ConfigValue)>, name: Seq<char>) -> Option<Seq<(String, ConfigValue)>> {
    match table_get(t, name) {
        None => Some(Seq::empty()),
        Some(ConfigValue::Table(s)) => Some(s@),
        Some(_) => None,
    }
}

/// `t2` is `t` with `key` set to `v` in its table `name`; every other entry
/// of `t` reads as before.
pub open spec fn set_in_sub(
    t: Seq<(String, ConfigValue)>,
    t2: Seq<(String, ConfigValue)>,
    name: Seq<char>,
    key: Seq<char>,
    v: ConfigValue,
) -> bool {
    &&& sub_entries(t, name) matches Some(s) && table_get(t2, name) matches Some(ConfigValue::Table(s2))
        && set_at(s, s2@, key, v)
    &&& forall|k: Seq<char>| k != name ==> #[trigger] table_get(t2, k) == table_get(t, k)
}

/// Sets `key` to `v` in the table `name` of a config; `None` when `name`
/// holds something other than a table.
pub(crate) fn set_sub_entry(t: Vec<(String, ConfigValue)>, name: &str, key: &str, v: ConfigValue) -> (r: Option<
    Vec<(String, ConfigValue)>,
>)
    ensures
        r is None <==> sub_entries(t@, name@) is None,
        r matches Some(t2) ==> set_in_sub(t@, t2@, name@, key@, v),
{
    let ghost t0 = t@;
    let mut t = t;
    match entry_index(&t, name) {
        Some(i) => {
            proof {
                lemma_key_index_from(t0, name@, 0);
            }
            let (k, val) = t.remove(i);
            match val {
                ConfigValue::Table(mut s) => {
                    set_entry(&mut s, key, v);
                    t.insert(i, (k, ConfigValue::Table(s)));
                    proof {
                        assert(t@ =~= t0.update(i as int, (t0[i as int].0, ConfigValue::Table(s))));
                        assert forall|q: Seq<char>| q != name@ implies #[trigger] table_get(t@, q) == table_get(t0, q) by {
                            lemma_set_at_get(t0, t@, name@, ConfigValue::Table(s), q);
                        }
                        lemma_set_at_get(t0, t@, name@, ConfigValue::Table(s), name@);
                    }
                },
                _ => {
                    return None;
                },
            }
        },
        None => {
            proof {
                lemma_key_index_from(t0, name@, 0);
            }
            let mut s: Vec<(String, ConfigValue)> = Vec::new();
            set_entry(&mut s, key, v);
            t.push((String::from_str(name), ConfigValue::Table(s)));
            proof {
                assert(t@.drop_last() =~= t0);
                assert forall|q: Seq<char>| q != name@ implies #[trigger] table_get(t@, q) == table_get(t0, q) by {
                    lemma_set_at_get(t0, t@, name@, ConfigValue::Table(s), q);
                }
                lemma_set_at_get(t0, t@, name@, ConfigValue::Table(s), name@);
            }
        },
    }
    Some(t)
}

/// The new text of a hook file with its `[hook]` table's `enabled` flag
/// set, from the file's current text.
pub fn toggled_hook_text(path: &str, contents: &str, enabled: bool) -> (r: Result<String, String>)
    ensures
        match toml_table(contents@) {
            Err(e) => r matches Err(x) && x@ == "failed to parse "@ + path@ + ": "@ + e,
            Ok(t) => if table_of(table_get(t, "hook"@)) is None {
                r matches Err(x) && x@ == "hook TOML must contain a [hook] table"@
            } else {
                exists|t2: Seq<(String, ConfigValue)>| #[trigger]
                    set_in_sub(t, t2, "hook"@, "enabled"@, ConfigValue::Flag(enabled)) && match toml_compact_text(t2) {
                        Ok(s) => r matches Ok(x) && x@ == s,
                        Err(e) => r matches Err(x) && x@ == e,
                    }
            },
        },
{
    let t = crate::config_file::read_toml_file(path, contents)?;
    if crate::config::sub_table(&t, "hook").is_none() {
        return Err(String::from_str("hook TOML must contain a [hook] table"));
    }
    let ghost t0 = t@;
    match set_sub_entry(t, "hook", "enabled", ConfigValue::Flag(enabled)) {
        Some(t2) => {
            proof {
                assert(set_in_sub(t0, t2@, "hook"@, "enabled"@, ConfigValue::Flag(enabled)));
            }
            render_toml_compact(&t2)
        },
        None => Err(String::from_str("hook TOML must contain a [hook] table")),
    }
}

/// The entry a registration writes for a pod: `enabled = true` and the
/// pod's root as `path`.
pub open spec fn pod_entry_ok(v: ConfigValue, root: Seq<char>) -> bool {
    match v {
        ConfigValue::Table(e) => e@.len() == 2 && e@[0].0@ == "enabled"@ && e@[0].1 == ConfigValue::Flag(true)
            && e@[1].0@ == "path"@ && text_of(Some(e@[1].1)) == Some(root),
        _ => false,
    }
}

/// `t` is `config` with the pod registered: its `[registry]` table has
/// `version = 1`, and its `[pods]` table has the pod's entry under its slug,
/// replacing the first entry of that slug or added after the others.
pub open spec fn registered(
    config: Seq<(String, ConfigValue)>,
    t: Seq<(String, ConfigValue)>,
    slug: Seq<char>,
    root: Seq<char>,
) -> bool {
    exists|mid: Seq<(String, ConfigValue)>, e: ConfigValue|
        #![trigger set_in_sub(config, mid, "registry"@, "version"@, toml_integer(1)), pod_entry_ok(e, root)]
        set_in_sub(config, mid, "registry"@, "version"@, toml_integer(1)) && set_in_sub(mid, t, "pods"@, slug, e)
            && pod_entry_ok(e, root)
}

/// Registers a pod in a parsed global config: `[registry]` gets
/// `version = 1` and `[pods]` the pod's entry; refused when either holds
/// something other than a table.
pub fn register_pod_table(config: Vec<(String, ConfigValue)>, slug: &str, root: &str) -> (r: Result<
    Vec<(String, ConfigValue)>,
    String,
>)
    ensures
        sub_entries(config@, "registry"@) is None ==> (r matches Err(x) && x@ == "invalid registry section in config.toml"@),
        sub_entries(config@, "registry"@) is Some && sub_entries(config@, "pods"@) is None ==> (r matches Err(x) && x@ == "invalid pods section"@),
        sub_entries(config@, "registry"@) is Some && sub_entries(config@, "pods"@) is Some ==> (r matches Ok(t) && registered(config@, t@, slug@, root@)),
{
    let ghost c0 = config@;
    proof {
        reveal_strlit("registry");
        reveal_strlit("pods");
        assert("pods"@.len() != "registry"@.len());
    }
    let version = integer_value(1);
    let t1 = match set_sub_entry(config, "registry", "version", version) {
        Some(t) => t,
        None => {
            return Err(String::from_str("invalid registry section in config.toml"));
        },
    };
    proof {
        assert(table_get(t1@, "pods"@) == table_get(c0, "pods"@));
    }
    let mut entry: Vec<(String, ConfigValue)> = Vec::new();
    entry.push((String::from_str("enabled"), ConfigValue::Flag(true)));
    entry.push((String::from_str("path"), ConfigValue::Text(String::from_str(root))));
    let e = ConfigValue::Table(entry);
    let ghost ev = e;
    proof {
        assert(pod_entry_ok(ev, root@));
    }
    let t2 = match set_sub_entry(t1, "pods", slug, e) {
        Some(t) => t,
        None => {
            return Err(String::from_str("invalid pods section"));
        },
    };
    proof {
        assert(set_in_sub(c0, t1@, "registry"@, "version"@, toml_integer(1)));
        assert(pod_entry_ok(ev, root@));
        assert(registered(c0, t2@, slug@, root@));
    }
    Ok(t2)
}

/// The global config a registration starts from: the file's table, or an
/// empty one when its text does not parse.
pub open spec fn config_base(current: Seq<char>) -> Seq<(String, ConfigValue)> {
    match toml_table(current) {
        Ok(t) => t,
        Err(_) => Seq::empty(),
    }
}

/// The new text of the global `config.toml` after registering a pod, from
/// its current text (empty when there is no file).
pub fn registered_config_text(current: &str, slug: &str, root: &str) -> (r: Result<String, String>)
    ensures
        sub_entries(config_base(current@), "registry"@) is None ==> (r matches Err(x) && x@ == "invalid registry section in config.toml"@),
        sub_entries(config_base(current@), "registry"@) is Some && sub_entries(config_base(current@), "pods"@)
            is None ==> (r matches Err(x) && x@ == "invalid pods section"@),
        sub_entries(config_base(current@), "registry"@) is Some && sub_entries(config_base(current@), "pods"@)
            is Some ==> exists|t: Seq<(String, ConfigValue)>| #[trigger]
            registered(config_base(current@), t, slug@, root@) && match toml_pretty_text(t) {
                Ok(s) => r matches Ok(x) && x@ == s,
                Err(e) => r matches Err(x) && x@ == "failed to serialize config: "@ + e,
            },
{
    let base = match parse_toml_table(current) {
        Ok(t) => t,
        Err(_) => Vec::new(),
    };
    proof {
        assert(base@ == config_base(current@));
    }
    let t = register_pod_table(base, slug, root)?;
    match render_toml_table(&t) {
        Ok(s) => Ok(s),
        Err(e) => {
            let mut m = String::from_str("failed to serialize config: ");
            append(&mut m, e.as_str());
            Err(m)
        },
    }
}

/// The registration of `slug` in a registry: the first one of that slug,
/// as its path and whether it is enabled.
pub open spec fn registration_of(rs: Seq<(Seq<char>, Seq<char>, bool)>, slug: Seq<char>) -> Option<(Seq<char>, bool)>
    decreases rs.len(),
{
    if rs.len() == 0 {
        None
    } else {
        match registration_of(rs.drop_last(), slug) {
            Some(x) => Some(x),
            None => if rs.last().0 == slug {
                Some((rs.last().1, rs.last().2))
            } else {
                None
            },
        }
    }
}

proof fn lemma_registration_push(rs: Seq<(Seq<char>, Seq<char>, bool)>, x: (Seq<char>, Seq<char>, bool), slug: Seq<char>)
    ensures
        registration_of(rs.push(x), slug) == (match registration_of(rs, slug) {
            Some(y) => Some(y),
            None => if x.0 == slug {
                Some((x.1, x.2))
            } else {
                None
            },
        }),
{
    assert(rs.push(x).drop_last() =~= rs);
}

/// A registry read from entries is read from each prefix of them.
proof fn lemma_registry_prefix(es: Seq<(String, ConfigValue)>, n: int, home: Option<Seq<char>>, cwd: Seq<char>)
    requires
        0 <= n <= es.len(),
        registry_entries(es, home, cwd) is Ok,
    ensures
        registry_entries(es.take(n), home, cwd) is Ok,
    decreases es.len() - n,
{
    if n < es.len() {
        lemma_registry_prefix(es, n + 1, home, cwd);
        assert(es.take(n + 1).drop_last() =~= es.take(n));
    } else {
        assert(es.take(n) =~= es);
    }
}

/// Entries of which none is named `slug` register no pod of that slug.
proof fn lemma_registry_without(es: Seq<(String, ConfigValue)>, slug: Seq<char>, home: Option<Seq<char>>, cwd: Seq<char>)
    requires
        registry_entries(es, home, cwd) is Ok,
        forall|j: int| 0 <= j < es.len() ==> (#[trigger] es[j]).0@ != slug,
    ensures
        registration_of(registry_entries(es, home, cwd)->Ok_0, slug) is None,
    decreases es.len(),
{
    if es.len() > 0 {
        let d = es.drop_last();
        assert forall|j: int| 0 <= j < d.len() implies (#[trigger] d[j]).0@ != slug by {
            assert(d[j] == es[j]);
        }
        lemma_registry_prefix(es, es.len() - 1, home, cwd);
        assert(es.take(es.len() - 1) =~= d);
        lemma_registry_without(d, slug, home, cwd);
        let rs = registry_entries(d, home, cwd)->Ok_0;
        match registration_entry(es.last().1, home, cwd) {
            None => {},
            Some(p) => {
                lemma_registration_push(rs, (es.last().0@, p.0, p.1), slug);
            },
        }
    }
}

/// Replacing the first entry of a slug with the pod's entry: on every
/// prefix, the slug is registered once its entry is reached, and every other
/// slug as before.
proof fn lemma_registry_replace(
    s: Seq<(String, ConfigValue)>,
    s2: Seq<(String, ConfigValue)>,
    slug: Seq<char>,
    root: Seq<char>,
    home: Option<Seq<char>>,
    cwd: Seq<char>,
    n: int,
)
    requires
        key_index(s, slug) >= 0,
        s2 == s.update(key_index(s, slug), (s[key_index(s, slug)].0, s2[key_index(s, slug)].1)),
        registration_entry(s2[key_index(s, slug)].1, home, cwd) == Some((root, true)),
        slug_ok(slug),
        registry_entries(s, home, cwd) is Ok,
        0 <= n <= s.len(),
    ensures
        registry_entries(s2.take(n), home, cwd) is Ok,
        registry_entries(s.take(n), home, cwd) is Ok,
        forall|k: Seq<char>|
            k != slug ==> #[trigger] registration_of(registry_entries(s2.take(n), home, cwd)->Ok_0, k)
                == registration_of(registry_entries(s.take(n), home, cwd)->Ok_0, k),
        registration_of(registry_entries(s2.take(n), home, cwd)->Ok_0, slug) == (if n > key_index(s, slug) {
            Some((root, true))
        } else {
            None::<(Seq<char>, bool)>
        }),
    decreases n,
{
    let i = key_index(s, slug);
    lemma_key_index_from(s, slug, 0);
    lemma_registry_prefix(s, n, home, cwd);
    if n == 0 {
        assert(s2.take(0) =~= Seq::<(String, ConfigValue)>::empty());
        assert(s.take(0) =~= Seq::<(String, ConfigValue)>::empty());
    } else {
        lemma_registry_replace(s, s2, slug, root, home, cwd, n - 1);
        assert(s.take(n).drop_last() =~= s.take(n - 1));
        assert(s2.take(n).drop_last() =~= s2.take(n - 1));
        assert(s.take(n).last() == s[n - 1]);
        assert(s2.take(n).last() == s2[n - 1]);
        let a = registry_entries(s.take(n - 1), home, cwd)->Ok_0;
        let a2 = registry_entries(s2.take(n - 1), home, cwd)->Ok_0;
        if n - 1 != i {
            assert(s2[n - 1] == s[n - 1]);
            match registration_entry(s[n - 1].1, home, cwd) {
                None => {},
                Some(p) => {
                    let x = (s[n - 1].0@, p.0, p.1);
                    assert forall|k: Seq<char>| k != slug implies #[trigger] registration_of(
                        registry_entries(s2.take(n), home, cwd)->Ok_0,
                        k,
                    ) == registration_of(registry_entries(s.take(n), home, cwd)->Ok_0, k) by {
                        lemma_registration_push(a, x, k);
                        lemma_registration_push(a2, x, k);
                    }
                    lemma_registration_push(a2, x, slug);
                },
            }
        } else {
            assert(s2[n - 1].0@ == slug);
            let x2 = (slug, root, true);
            assert forall|k: Seq<char>| k != slug implies #[trigger] registration_of(
                registry_entries(s2.take(n), home, cwd)->Ok_0,
                k,
            ) == registration_of(registry_entries(s.take(n), home, cwd)->Ok_0, k) by {
                lemma_registration_push(a2, x2, k);
                match registration_entry(s[n - 1].1, home, cwd) {
                    None => {},
                    Some(p) => {
                        lemma_registration_push(a, (s[n - 1].0@, p.0, p.1), k);
                    },
                }
            }
            lemma_registration_push(a2, x2, slug);
        }
    }
}

/// Loading the registry after a pod is registered finds the pod under its
/// slug with its root, enabled, and every other pod as before. This holds
/// for a valid slug and an absolute root, when the registry loaded before.
pub proof fn law_registered_pod_loads(
    config: Seq<(String, ConfigValue)>,
    t: Seq<(String, ConfigValue)>,
    slug: Seq<char>,
    root: Seq<char>,
    home: Option<Seq<char>>,
    cwd: Seq<char>,
)
    requires
        registered(config, t, slug, root),
        slug_ok(slug),
        root.len() > 0 && root[0] == '/',
        registry_spec(config, home, cwd) is Ok,
    ensures
        registry_spec(t, home, cwd) matches Ok(rs) && registration_of(rs, slug) == Some((root, true))
            && forall|k: Seq<char>|
            k != slug ==> #[trigger] registration_of(rs, k) == registration_of(
                registry_spec(config, home, cwd)->Ok_0,
                k,
            ),
{
    reveal_strlit("registry");
    reveal_strlit("pods");
    reveal_strlit("enabled");
    reveal_strlit("path");
    let (mid, e) = choose|mid: Seq<(String, ConfigValue)>, e: ConfigValue|
        #![trigger set_in_sub(config, mid, "registry"@, "version"@, toml_integer(1)), pod_entry_ok(e, root)]
        set_in_sub(config, mid, "registry"@, "version"@, toml_integer(1)) && set_in_sub(mid, t, "pods"@, slug, e)
            && pod_entry_ok(e, root);
    assert("pods"@.len() != "registry"@.len());
    assert(table_get(mid, "pods"@) == table_get(config, "pods"@));
    let s = sub_entries(mid, "pods"@)->Some_0;
    let s2 = match table_get(t, "pods"@) {
        Some(ConfigValue::Table(x)) => x@,
        _ => Seq::empty(),
    };
    assert(set_at(s, s2, slug, e));
    assert(registry_spec(config, home, cwd) == registry_entries(s, home, cwd));
    assert(registry_spec(t, home, cwd) == registry_entries(s2, home, cwd));
    let et = match e {
        ConfigValue::Table(x) => x@,
        _ => Seq::empty(),
    };
    assert("enabled"@.len() != "path"@.len());
    lemma_key_index_is(et, "path"@, 1);
    lemma_key_index_from(et, "path"@, 0);
    assert(table_get(et, "path"@) == Some(et[1].1));
    assert(table_get(et, "enabled"@) == Some(et[0].1));
    assert(registered_path(root, home, cwd) == root);
    assert(registration_entry(e, home, cwd) == Some((root, true)));
    lemma_key_index_from(s, slug, 0);
    let i = key_index(s, slug);
    if i >= 0 {
        lemma_registry_replace(s, s2, slug, root, home, cwd, s.len() as int);
        assert(s.take(s.len() as int) =~= s);
        assert(s2.take(s.len() as int) =~= s2);
    } else {
        lemma_registry_without(s, slug, home, cwd);
        let rs0 = registry_entries(s, home, cwd)->Ok_0;
        assert(s2.drop_last() == s);
        assert forall|k: Seq<char>| k != slug implies #[trigger] registration_of(
            registry_entries(s2, home, cwd)->Ok_0,
            k,
        ) == registration_of(rs0, k) by {
            lemma_registration_push(rs0, (slug, root, true), k);
        }
        lemma_registration_push(rs0, (slug, root, true), slug);
    }
}

} // verus!
