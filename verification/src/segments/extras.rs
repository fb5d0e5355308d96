//! Reading a segment's own keys out of `[segments.<id>]`. A value of the
//! wrong kind is reported and ignored; an absent key is silent.

use vstd::prelude::*;
use vstd::string::StringExecFns;

use crate::diagnostics::Messages;
use crate::value::{lookup, table_at, text_at, Entry, Table, Value};

verus! {

/// What a key comes to, and what is reported on the way.
pub struct Setting<T> {
    pub value: T,
    pub warnings: Seq<Seq<char>>,
}

/// The flag under `key`, where it is one.
pub open spec fn flag_at(entries: Seq<Entry<Value>>, key: Seq<char>) -> Option<bool> {
    match lookup(entries, key) {
        Some(Value::Boolean(b)) => Some(b),
        _ => None,
    }
}

/// The report on what stands under `key` of `[segments.<id>]`, where that is
/// not what was `expected`.
pub open spec fn kind_warning(id: Seq<char>, key: Seq<char>, expected: Seq<char>) -> Seq<char> {
    "segments."@ + id + "."@ + key + ": expected "@ + expected + "; ignoring"@
}

/// The report on what stands under `key`, where that is no flag.
pub open spec fn flag_warnings(entries: Seq<Entry<Value>>, key: Seq<char>, id: Seq<char>) -> Seq<
    Seq<char>,
> {
    match lookup(entries, key) {
        None => seq![],
        Some(Value::Boolean(_)) => seq![],
        Some(_) => seq![kind_warning(id, key, "bool"@)],
    }
}

/// The report on what stands under `key`, where that is no text.
pub open spec fn text_warnings(entries: Seq<Entry<Value>>, key: Seq<char>, id: Seq<char>) -> Seq<
    Seq<char>,
> {
    if lookup(entries, key) is Some && text_at(entries, key) is None {
        seq![kind_warning(id, key, "string"@)]
    } else {
        seq![]
    }
}

/// The report on what stands under `key`, where that is no table.
pub open spec fn table_warnings(entries: Seq<Entry<Value>>, key: Seq<char>, id: Seq<char>) -> Seq<
    Seq<char>,
> {
    if lookup(entries, key) is Some && table_at(entries, key) is None {
        seq![kind_warning(id, key, "table"@)]
    } else {
        seq![]
    }
}

fn report_kind(id: &str, key: &str, expected: &str, warnings: &mut Messages)
    ensures
        final(warnings)@ == old(warnings)@ + seq![kind_warning(id@, key@, expected@)],
{
    let ghost before = warnings@;
    let mut message = "segments.".to_owned();
    message.append(id);
    message.append(".");
    message.append(key);
    message.append(": expected ");
    message.append(expected);
    message.append("; ignoring");
    warnings.push(message);
    assert(warnings@ =~= before + seq![message@]);
}

/// Read a flag from `[segments.<id>]`.
#[must_use]
pub fn parse_bool(extras: &Table<Value>, key: &str, id: &str, warnings: &mut Messages) -> (r: Option<bool>)
    ensures
        r == flag_at(extras@, key@),
        final(warnings)@ == old(warnings)@ + flag_warnings(extras@, key@, id@),
{
    let ghost before = warnings@;
    assert(before + seq![] =~= before);
    match extras.get(key) {
        None => None,
        Some(v) => match v {
            Value::Boolean(b) => Some(*b),
            _ => {
                report_kind(id, key, "bool", warnings);
                None
            },
        },
    }
}

/// Read a text from `[segments.<id>]`.
#[must_use]
pub fn parse_text<'a>(
    extras: &'a Table<Value>,
    key: &str,
    id: &str,
    warnings: &mut Messages,
) -> (r: Option<&'a str>)
    ensures
        match r {
            Some(s) => text_at(extras@, key@) == Some(s@),
            None => text_at(extras@, key@) is None,
        },
        final(warnings)@ == old(warnings)@ + text_warnings(extras@, key@, id@),
{
    let ghost before = warnings@;
    assert(before + seq![] =~= before);
    match extras.get(key) {
        None => None,
        Some(v) => match v.as_str() {
            Some(s) => Some(s),
            None => {
                report_kind(id, key, "string", warnings);
                None
            },
        },
    }
}

/// Read a table from `[segments.<id>]`.
#[must_use]
pub fn parse_table<'a>(
    extras: &'a Table<Value>,
    key: &str,
    id: &str,
    warnings: &mut Messages,
) -> (r: Option<&'a Table<Value>>)
    ensures
        match r {
            Some(t) => table_at(extras@, key@) == Some(t@),
            None => table_at(extras@, key@) is None,
        },
        final(warnings)@ == old(warnings)@ + table_warnings(extras@, key@, id@),
{
    let ghost before = warnings@;
    assert(before + seq![] =~= before);
    match extras.get(key) {
        None => None,
        Some(v) => match v {
            Value::Table(t) => Some(t),
            _ => {
                report_kind(id, key, "table", warnings);
                None
            },
        },
    }
}

} // verus!
