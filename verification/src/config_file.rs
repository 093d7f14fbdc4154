//! Configuration files: TOML text read into the tables the rules use.

use vstd::prelude::*;
use vstd::string::*;
use crate::config::{string_field, sub_table, table_get, table_of, tables_ascending, text_of, ConfigValue};
use crate::text::append;

verus! {

/// A value of a parsed TOML document.
#[verifier::external_type_specification]
#[verifier::external_body]
pub struct ExTomlValue(toml::Value);

/// Converts a parsed TOML value into configuration, one value for one:
/// strings, booleans, arrays and tables keep their contents, and every other
/// value (numbers, dates) is carried as it is.
#[verifier::external_body]
fn config_of(v: &toml::Value) -> ConfigValue {
    match v {
        toml::Value::String(s) => ConfigValue::Text(s.clone()),
        toml::Value::Boolean(b) => ConfigValue::Flag(*b),
        toml::Value::Array(a) => ConfigValue::List(a.iter().map(config_of).collect()),
        toml::Value::Table(t) => ConfigValue::Table(t.iter().map(|(k, x)| (k.clone(), config_of(x))).collect()),
        _ => ConfigValue::Other(v.clone()),
    }
}

/// Converts configuration back into a TOML value, one value for one: the
/// inverse of `config_of`.
#[verifier::external_body]
fn value_of(c: &ConfigValue) -> toml::Value {
    match c {
        ConfigValue::Text(s) => toml::Value::String(s.clone()),
        ConfigValue::Flag(b) => toml::Value::Boolean(*b),
        ConfigValue::List(a) => toml::Value::Array(a.iter().map(value_of).collect()),
        ConfigValue::Table(t) => toml::Value::Table(t.iter().map(|(k, x)| (k.clone(), value_of(x))).collect()),
        ConfigValue::Other(v) => v.clone(),
    }
}

/// What `toml::to_string_pretty` writes for a table, or its error message.
pub uninterp spec fn toml_pretty_text(t: Seq<(String, ConfigValue)>) -> Result<Seq<char>, Seq<char>>;

/// `toml::to_string_pretty` on a table built from the entries (converted by
/// `value_of`), its error written by `Display`. The result is named by
/// `toml_pretty_text`; nothing more is claimed of the writer.
#[verifier::external_body]
pub(crate) fn render_toml_table(t: &Vec<(String, ConfigValue)>) -> (r: Result<String, String>)
    ensures
        match toml_pretty_text(t@) {
            Ok(s) => r matches Ok(x) && x@ == s,
            Err(e) => r matches Err(x) && x@ == e,
        },
{
    let table: toml::Table = t.iter().map(|(k, v)| (k.clone(), value_of(v))).collect();
    toml::to_string_pretty(&table).map_err(|e| e.to_string())
}

/// What `toml::to_string` writes for a table, or its error message.
pub uninterp spec fn toml_compact_text(t: Seq<(String, ConfigValue)>) -> Result<Seq<char>, Seq<char>>;

/// `toml::to_string` on a table built from the entries (converted by
/// `value_of`), its error written by `Display`. The result is named by
/// `toml_compact_text`; nothing more is claimed of the writer.
#[verifier::external_body]
pub(crate) fn render_toml_compact(t: &Vec<(String, ConfigValue)>) -> (r: Result<String, String>)
    ensures
        match toml_compact_text(t@) {
            Ok(s) => r matches Ok(x) && x@ == s,
            Err(e) => r matches Err(x) && x@ == e,
        },
{
    let table: toml::Table = t.iter().map(|(k, v)| (k.clone(), value_of(v))).collect();
    toml::to_string(&table).map_err(|e| e.to_string())
}

/// The configuration value `toml::Value::Integer(n)`.
pub uninterp spec fn toml_integer(n: i64) -> ConfigValue;

/// `toml::Value::Integer(n)` as configuration: a value the rules carry but
/// do not read.
#[verifier::external_body]
pub(crate) fn integer_value(n: i64) -> (r: ConfigValue)
    ensures
        r == toml_integer(n),
        r is Other,
{
    ConfigValue::Other(toml::Value::Integer(n))
}

/// What parsing a text as a TOML table gives: the table's entries as
/// configuration values, in key order, or the parser's error message.
pub uninterp spec fn toml_table(text: Seq<char>) -> Result<Seq<(String, ConfigValue)>, Seq<char>>;

/// `text.parse::<toml::Table>()`, its entries converted by `config_of` and
/// its error written by `Display`. The result is named by `toml_table`.
/// A `toml::Table` is a `BTreeMap` (the `preserve_order` feature is off),
/// so a table and each table in it come with their keys in strictly
/// ascending order; nothing more is claimed of the parser.
#[verifier::external_body]
pub(crate) fn parse_toml_table(text: &str) -> (r: Result<Vec<(String, ConfigValue)>, String>)
    ensures
        match toml_table(text@) {
            Ok(t) => r matches Ok(x) && x@ == t,
            Err(e) => r matches Err(x) && x@ == e,
        },
        r matches Ok(x) ==> tables_ascending(x@),
{
    match text.parse::<toml::Table>() {
        Ok(t) => Ok(t.iter().map(|(k, v)| (k.clone(), config_of(v))).collect()),
        Err(e) => Err(e.to_string()),
    }
}

/// Parses the contents of a TOML file; an error starts with `prefix` and
/// names the file.
fn parse_named(prefix: &str, path: &str, contents: &str) -> (r: Result<Vec<(String, ConfigValue)>, String>)
    ensures
        match toml_table(contents@) {
            Ok(t) => r matches Ok(x) && x@ == t,
            Err(e) => r matches Err(x) && x@ == prefix@ + path@ + ": "@ + e,
        },
        r matches Ok(x) ==> tables_ascending(x@),
{
    match parse_toml_table(contents) {
        Ok(t) => Ok(t),
        Err(e) => {
            let mut m = String::from_str(prefix);
            append(&mut m, path);
            append(&mut m, ": ");
            append(&mut m, e.as_str());
            Err(m)
        },
    }
}

/// Reads `pod.toml` or `fin.toml` from its contents.
pub fn read_toml(path: &str, contents: &str) -> (r: Result<Vec<(String, ConfigValue)>, String>)
    ensures
        match toml_table(contents@) {
            Ok(t) => r matches Ok(x) && x@ == t,
            Err(e) => r matches Err(x) && x@ == "failed to parse config "@ + path@ + ": "@ + e,
        },
        r matches Ok(x) ==> tables_ascending(x@),
{
    parse_named("failed to parse config ", path, contents)
}

/// Reads the global `config.toml` from its contents.
pub fn read_global_config(path: &str, contents: &str) -> (r: Result<Vec<(String, ConfigValue)>, String>)
    ensures
        match toml_table(contents@) {
            Ok(t) => r matches Ok(x) && x@ == t,
            Err(e) => r matches Err(x) && x@ == "failed to parse global config "@ + path@ + ": "@ + e,
        },
        r matches Ok(x) ==> tables_ascending(x@),
{
    parse_named("failed to parse global config ", path, contents)
}

/// Reads a hook file or a fin's template record from its contents.
pub fn read_toml_file(path: &str, contents: &str) -> (r: Result<Vec<(String, ConfigValue)>, String>)
    ensures
        match toml_table(contents@) {
            Ok(t) => r matches Ok(x) && x@ == t,
            Err(e) => r matches Err(x) && x@ == "failed to parse "@ + path@ + ": "@ + e,
        },
        r matches Ok(x) ==> tables_ascending(x@),
{
    parse_named("failed to parse ", path, contents)
}

/// The template that owns a fin, as its `fin.toml` records it.
pub open spec fn origin_spec(t: Seq<(String, ConfigValue)>) -> Option<Seq<char>> {
    match table_of(table_get(t, "template"@)) {
        Some(x) => text_of(table_get(x, "name"@)),
        None => None,
    }
}

/// Reads the template that owns a fin from the contents of its `fin.toml`.
pub fn read_template_origin(path: &str, contents: &str) -> (r: Result<Option<String>, String>)
    ensures
        match toml_table(contents@) {
            Ok(t) => r matches Ok(o) && crate::text::opt_string(o) == origin_spec(t),
            Err(e) => r matches Err(x) && x@ == "failed to parse "@ + path@ + ": "@ + e,
        },
{
    let t = read_toml_file(path, contents)?;
    match sub_table(&t, "template") {
        Some(x) => Ok(string_field(x, "name")),
        None => Ok(None),
    }
}

} // verus!
