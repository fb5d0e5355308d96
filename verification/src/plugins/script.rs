//! Script values: what a plugin is configured with, and what it returns.

use vstd::prelude::*;

use crate::value::{distinct_keys, lemma_lookup_absent, lemma_table_decreases, Table, Value};

verus! {

/// A value of the scripting language.
#[derive(Debug, PartialEq, Eq)]
pub enum ScriptValue {
    Unit,
    Boolean(bool),
    Integer(i64),
    /// The bits of a double.
    Float(u64),
    Text(String),
    Array(Vec<ScriptValue>),
    Table(Table<ScriptValue>),
    /// A value of any other type.
    Other,
}

/// Is `s` what a script sees of the configuration value `v`? A point in time
/// is seen as its text; all else keeps its kind.
pub open spec fn mirrors(v: Value, s: ScriptValue) -> bool
    decreases v,
{
    match (v, s) {
        (Value::String(a), ScriptValue::Text(b)) => a@ == b@,
        (Value::Integer(a), ScriptValue::Integer(b)) => a == b,
        (Value::Float(a), ScriptValue::Float(b)) => a == b,
        (Value::Boolean(a), ScriptValue::Boolean(b)) => a == b,
        (Value::Datetime(a), ScriptValue::Text(b)) => a@ == b@,
        (Value::Array(a), ScriptValue::Array(b)) => {
            &&& a@.len() == b@.len()
            &&& forall|i: int| 0 <= i < a@.len() ==> mirrors(#[trigger] a@[i], b@[i])
        },
        (Value::Table(a), ScriptValue::Table(b)) => {
            proof {
                lemma_table_decreases(a);
            }
            &&& a@.len() == b@.len()
            &&& forall|i: int|
                0 <= i < a@.len() ==> (#[trigger] a@[i]).key@ == b@[i].key@ && mirrors(
                    a@[i].value,
                    b@[i].value,
                )
        },
        _ => false,
    }
}

/// The map that a plugin sees of its configuration table.
pub fn toml_table_to_dynamic(table: &Table<Value>) -> (r: Table<ScriptValue>)
    ensures
        r@.len() == table@.len(),
        forall|i: int|
            0 <= i < table@.len() ==> (#[trigger] table@[i]).key@ == r@[i].key@ && mirrors(
                table@[i].value,
                r@[i].value,
            ),
    decreases table,
{
    let entries = table.entries();
    let mut out: Table<ScriptValue> = Table::new();
    let mut i: usize = 0;
    while i < entries.len()
        invariant
            i <= entries@.len(),
            entries@ == table@,
            distinct_keys(table@),
            out@.len() == i,
            forall|k: int|
                0 <= k < i ==> (#[trigger] table@[k]).key@ == out@[k].key@ && mirrors(
                    table@[k].value,
                    out@[k].value,
                ),
        decreases entries@.len() - i,
    {
        proof {
            lemma_table_decreases(*table);
            assert forall|k: int| 0 <= k < out@.len() implies (#[trigger] out@[k]).key@
                != entries@[i as int].key@ by {
                assert(table@[k].key@ != table@[i as int].key@);
            }
            lemma_lookup_absent(out@, entries@[i as int].key@);
        }
        let value = toml_value_to_dynamic(&entries[i].value);
        out = out.insert(entries[i].key.clone(), value);
        i += 1;
    }
    out
}

/// What a script sees of a configuration value.
pub fn toml_value_to_dynamic(value: &Value) -> (r: ScriptValue)
    ensures
        mirrors(*value, r),
    decreases value,
{
    proof {
        reveal_with_fuel(mirrors, 2);
    }
    match value {
        Value::String(s) => ScriptValue::Text(s.clone()),
        Value::Integer(n) => ScriptValue::Integer(*n),
        Value::Float(bits) => ScriptValue::Float(*bits),
        Value::Boolean(b) => ScriptValue::Boolean(*b),
        Value::Datetime(s) => ScriptValue::Text(s.clone()),
        Value::Array(items) => {
            let mut out: Vec<ScriptValue> = Vec::new();
            let mut i: usize = 0;
            while i < items.len()
                invariant
                    i <= items@.len(),
                    *value == Value::Array(*items),
                    out@.len() == i,
                    forall|k: int| 0 <= k < i ==> mirrors(#[trigger] items@[k], out@[k]),
                decreases items@.len() - i,
            {
                assert(decreases_to!(*value => value->Array_0));
                assert(decreases_to!(value->Array_0 => items@));
                assert(decreases_to!(items@ => items@[i as int]));
                let item = toml_value_to_dynamic(&items[i]);
                out.push(item);
                i += 1;
            }
            ScriptValue::Array(out)
        },
        Value::Table(table) => ScriptValue::Table(toml_table_to_dynamic(table)),
    }
}

} // verus!
