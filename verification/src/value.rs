//! Configuration values: what a segment's own keys may hold.

use vstd::prelude::*;

use crate::text::same_text;

verus! {

/// The kind of a configuration value.
#[derive(Debug, Clone, Copy, PartialEq, Eq, Structural)]
pub enum ValueKind {
    String,
    Integer,
    Float,
    Boolean,
    Datetime,
    Array,
    Table,
}

impl ValueKind {
    /// The kind in words.
    pub open spec fn words(self) -> Seq<char> {
        match self {
            ValueKind::String => "string"@,
            ValueKind::Integer => "integer"@,
            ValueKind::Float => "float"@,
            ValueKind::Boolean => "boolean"@,
            ValueKind::Datetime => "datetime"@,
            ValueKind::Array => "array"@,
            ValueKind::Table => "table"@,
        }
    }

    /// The kind in words.
    pub fn describe(self) -> (r: &'static str)
        ensures
            r@ == self.words(),
    {
        match self {
            ValueKind::String => "string",
            ValueKind::Integer => "integer",
            ValueKind::Float => "float",
            ValueKind::Boolean => "boolean",
            ValueKind::Datetime => "datetime",
            ValueKind::Array => "array",
            ValueKind::Table => "table",
        }
    }
}

/// A configuration value.
#[derive(Debug, PartialEq, Eq)]
pub enum Value {
    String(String),
    Integer(i64),
    /// The bits of a double.
    Float(u64),
    Boolean(bool),
    /// The point in time as it is written.
    Datetime(String),
    Array(Vec<Value>),
    Table(Table<Value>),
}

/// A key and its value.
#[derive(Debug, PartialEq, Eq)]
pub struct Entry<V> {
    pub key: String,
    pub value: V,
}

/// Keys and their values. No key occurs twice.
#[derive(Debug, PartialEq, Eq)]
pub struct Table<V> {
    entries: Vec<Entry<V>>,
}

/// The value of `key` among `entries`.
pub open spec fn lookup<V>(entries: Seq<Entry<V>>, key: Seq<char>) -> Option<V>
    decreases entries.len(),
{
    if entries.len() == 0 {
        None
    } else if entries.last().key@ == key {
        Some(entries.last().value)
    } else {
        lookup(entries.drop_last(), key)
    }
}

/// No key occurs twice.
pub open spec fn distinct_keys<V>(entries: Seq<Entry<V>>) -> bool {
    forall|i: int, j: int|
        0 <= i < j < entries.len() ==> (#[trigger] entries[i]).key@ != (#[trigger] entries[j]).key@
}

proof fn lemma_lookup_at<V>(entries: Seq<Entry<V>>, i: int)
    requires
        distinct_keys(entries),
        0 <= i < entries.len(),
    ensures
        lookup(entries, entries[i].key@) == Some(entries[i].value),
    decreases entries.len(),
{
    if i < entries.len() - 1 {
        assert(entries[i].key@ != entries[entries.len() - 1].key@);
        let before = entries.drop_last();
        assert(distinct_keys(before)) by {
            assert forall|a: int, b: int| 0 <= a < b < before.len() implies (
            #[trigger] before[a]).key@ != (#[trigger] before[b]).key@ by {
                assert(before[a] == entries[a] && before[b] == entries[b]);
            }
        }
        lemma_lookup_at(before, i);
    }
}

/// A key that no entry has is not found.
pub proof fn lemma_lookup_absent<V>(entries: Seq<Entry<V>>, key: Seq<char>)
    requires
        forall|i: int| 0 <= i < entries.len() ==> (#[trigger] entries[i]).key@ != key,
    ensures
        lookup(entries, key) is None,
    decreases entries.len(),
{
    if entries.len() > 0 {
        assert(entries[entries.len() - 1].key@ != key);
        assert forall|i: int| 0 <= i < entries.drop_last().len() implies (
        #[trigger] entries.drop_last()[i]).key@ != key by {
            assert(entries.drop_last()[i] == entries[i]);
        }
        lemma_lookup_absent(entries.drop_last(), key);
    }
}

proof fn lemma_lookup_update<V>(entries: Seq<Entry<V>>, i: int, entry: Entry<V>, key: Seq<char>)
    requires
        distinct_keys(entries),
        0 <= i < entries.len(),
        entry.key@ == entries[i].key@,
    ensures
        distinct_keys(entries.update(i, entry)),
        lookup(entries.update(i, entry), key) == if key == entry.key@ {
            Some(entry.value)
        } else {
            lookup(entries, key)
        },
    decreases entries.len(),
{
    let out = entries.update(i, entry);
    assert(distinct_keys(out)) by {
        assert forall|a: int, b: int| 0 <= a < b < out.len() implies (#[trigger] out[a]).key@ != (
        #[trigger] out[b]).key@ by {
            assert(entries[a].key@ != entries[b].key@);
        }
    }
    if key == entry.key@ {
        lemma_lookup_at(out, i);
    } else {
        lemma_lookup_other(entries, out, key);
    }
}

proof fn lemma_lookup_other<V>(a: Seq<Entry<V>>, b: Seq<Entry<V>>, key: Seq<char>)
    requires
        a.len() == b.len(),
        forall|i: int|
            0 <= i < a.len() ==> (#[trigger] a[i] == b[i] || (a[i].key@ != key && b[i].key@
                != key)),
    ensures
        lookup(a, key) == lookup(b, key),
    decreases a.len(),
{
    if a.len() > 0 {
        let n = a.len() - 1;
        assert(a[n] == b[n] || (a[n].key@ != key && b[n].key@ != key));
        assert forall|i: int| 0 <= i < a.drop_last().len() implies (#[trigger] a.drop_last()[i]
            == b.drop_last()[i] || (a.drop_last()[i].key@ != key && b.drop_last()[i].key@
            != key)) by {
            assert(a[i] == b[i] || (a[i].key@ != key && b[i].key@ != key));
        }
        lemma_lookup_other(a.drop_last(), b.drop_last(), key);
    }
}

impl<V> View for Table<V> {
    type V = Seq<Entry<V>>;

    closed spec fn view(&self) -> Seq<Entry<V>> {
        self.entries@
    }
}

impl<V> Table<V> {
    #[verifier::type_invariant]
    closed spec fn inv(self) -> bool {
        distinct_keys(self.entries@)
    }

    /// A table without keys.
    pub fn new() -> (r: Table<V>)
        ensures
            r@ == Seq::<Entry<V>>::empty(),
    {
        Table { entries: Vec::new() }
    }

    /// The entries, in the order in which their keys came.
    pub fn entries(&self) -> (r: &Vec<Entry<V>>)
        ensures
            r@ == self@,
            distinct_keys(self@),
    {
        proof {
            use_type_invariant(self);
        }
        &self.entries
    }

    /// The value of `key`.
    pub fn get(&self, key: &str) -> (r: Option<&V>)
        ensures
            match r {
                Some(v) => lookup(self@, key@) == Some(*v),
                None => lookup(self@, key@) is None,
            },
    {
        proof {
            use_type_invariant(self);
        }
        let mut i: usize = 0;
        while i < self.entries.len()
            invariant
                i <= self.entries@.len(),
                distinct_keys(self.entries@),
                forall|k: int| 0 <= k < i ==> (#[trigger] self.entries@[k]).key@ != key@,
            decreases self.entries@.len() - i,
        {
            if same_text(self.entries[i].key.as_str(), key) {
                proof {
                    lemma_lookup_at(self.entries@, i as int);
                }
                return Some(&self.entries[i].value);
            }
            i += 1;
        }
        proof {
            lemma_lookup_absent(self.entries@, key@);
        }
        None
    }

    /// The same table with the value `value` for `key`: at the place of the one
    /// that it has, or else behind all others.
    pub fn insert(self, key: String, value: V) -> (r: Table<V>)
        ensures
            forall|k: Seq<char>| #[trigger]
                lookup(r@, k) == if k == key@ {
                    Some(value)
                } else {
                    lookup(self@, k)
                },
            lookup(self@, key@) is None ==> r@ == self@.push(Entry { key, value }),
            forall|i: int|
                0 <= i < self@.len() && (#[trigger] self@[i]).key@ == key@ ==> r@ == self@.update(
                    i,
                    Entry { key, value },
                ),
            lookup(self@, key@) is Some ==> exists|i: int|
                0 <= i < self@.len() && (#[trigger] self@[i]).key@ == key@,
    {
        proof {
            use_type_invariant(&self);
        }
        let mut entries = self.entries;
        let ghost before = entries@;
        let mut i: usize = 0;
        while i < entries.len()
            invariant
                i <= entries@.len(),
                entries@ == before,
                before == self@,
                distinct_keys(before),
                forall|k: int| 0 <= k < i ==> (#[trigger] before[k]).key@ != key@,
            decreases entries@.len() - i,
        {
            if same_text(entries[i].key.as_str(), key.as_str()) {
                let entry = Entry { key, value };
                proof {
                    assert forall|k: Seq<char>| #[trigger]
                        lookup(before.update(i as int, entry), k) == if k == key@ {
                            Some(value)
                        } else {
                            lookup(before, k)
                        } by {
                        lemma_lookup_update(before, i as int, entry, k);
                    }
                    lemma_lookup_update(before, i as int, entry, key@);
                    lemma_lookup_at(before, i as int);
                    assert forall|k: int| 0 <= k < before.len() && (
                    #[trigger] before[k]).key@ == key@ implies k == i by {
                        if k < i {
                            assert(before[k].key@ != key@);
                        } else if i < k {
                            assert(before[i as int].key@ != before[k].key@);
                        }
                    }
                    assert(self@[i as int].key@ == key@);
                }
                entries.set(i, entry);
                return Table { entries };
            }
            i += 1;
        }
        let entry = Entry { key, value };
        proof {
            lemma_lookup_absent(before, key@);
            let out = before.push(entry);
            assert(out.drop_last() =~= before);
            assert(distinct_keys(out)) by {
                assert forall|a: int, b: int| 0 <= a < b < out.len() implies (
                #[trigger] out[a]).key@ != (#[trigger] out[b]).key@ by {
                    assert(out[a] == before[a]);
                    if b < before.len() {
                        assert(out[b] == before[b]);
                    }
                }
            }
        }
        entries.push(entry);
        Table { entries }
    }
}

/// A table is larger than its entries.
pub proof fn lemma_table_decreases<V>(t: Table<V>)
    ensures
        decreases_to!(t => t@),
{
}

impl<V> Default for Table<V> {
    fn default() -> (r: Table<V>)
        ensures
            r@ == Seq::<Entry<V>>::empty(),
    {
        Table::new()
    }
}

impl Value {
    /// The kind of the value.
    pub open spec fn spec_kind(self) -> ValueKind {
        match self {
            Value::String(_) => ValueKind::String,
            Value::Integer(_) => ValueKind::Integer,
            Value::Float(_) => ValueKind::Float,
            Value::Boolean(_) => ValueKind::Boolean,
            Value::Datetime(_) => ValueKind::Datetime,
            Value::Array(_) => ValueKind::Array,
            Value::Table(_) => ValueKind::Table,
        }
    }

    /// The kind of the value.
    pub fn kind(&self) -> (r: ValueKind)
        ensures
            r == self.spec_kind(),
    {
        match self {
            Value::String(_) => ValueKind::String,
            Value::Integer(_) => ValueKind::Integer,
            Value::Float(_) => ValueKind::Float,
            Value::Boolean(_) => ValueKind::Boolean,
            Value::Datetime(_) => ValueKind::Datetime,
            Value::Array(_) => ValueKind::Array,
            Value::Table(_) => ValueKind::Table,
        }
    }

    /// The integer from `lo` to `hi` that the value is.
    pub open spec fn integer_within(self, lo: int, hi: int) -> Option<int> {
        match self {
            Value::Integer(n) => if lo <= n <= hi {
                Some(n as int)
            } else {
                None
            },
            _ => None,
        }
    }

    /// The value as an integer from `lo` to `hi`, bounds of a `u16`.
    pub fn as_integer_within(&self, lo: u16, hi: u16) -> (r: Option<u16>)
        ensures
            match r {
                Some(n) => self.integer_within(lo as int, hi as int) == Some(n as int),
                None => self.integer_within(lo as int, hi as int) is None,
            },
            r matches Some(n) ==> lo <= n <= hi,
    {
        match self {
            Value::Integer(n) => if lo as i64 <= *n && *n <= hi as i64 {
                Some(*n as u16)
            } else {
                None
            },
            _ => None,
        }
    }

    /// The text that the value is.
    pub open spec fn text(self) -> Option<Seq<char>> {
        match self {
            Value::String(s) => Some(s@),
            _ => None,
        }
    }

    /// The value as a text.
    pub fn as_str(&self) -> (r: Option<&str>)
        ensures
            match r {
                Some(s) => self.text() == Some(s@),
                None => self.text() is None,
            },
    {
        match self {
            Value::String(s) => Some(s.as_str()),
            _ => None,
        }
    }
}

/// The text under `key`, where there is one.
pub open spec fn text_at(entries: Seq<Entry<Value>>, key: Seq<char>) -> Option<Seq<char>> {
    match lookup(entries, key) {
        Some(v) => v.text(),
        None => None,
    }
}

/// The entries of the table under `key`, where there is one.
pub open spec fn table_at(entries: Seq<Entry<Value>>, key: Seq<char>) -> Option<Seq<Entry<Value>>> {
    match lookup(entries, key) {
        Some(Value::Table(t)) => Some(t@),
        _ => None,
    }
}

/// What is found under a key is the value of an entry of that key; nothing is
/// found exactly where no entry has it.
pub proof fn lookup_finds_its_own_key<V>(entries: Seq<Entry<V>>, key: Seq<char>)
    ensures
        lookup(entries, key) matches Some(v) ==> exists|i: int|
            0 <= i < entries.len() && (#[trigger] entries[i]).key@ == key && entries[i].value == v,
        lookup(entries, key) is None <==> forall|i: int|
            0 <= i < entries.len() ==> (#[trigger] entries[i]).key@ != key,
    decreases entries.len(),
{
    if entries.len() > 0 {
        let front = entries.drop_last();
        lookup_finds_its_own_key(front, key);
        assert forall|i: int| 0 <= i < front.len() implies #[trigger] front[i] == entries[i] by {}
        if entries.last().key@ == key {
            assert(entries[entries.len() - 1].key@ == key);
        } else if lookup(front, key) is Some {
            let i = choose|i: int|
                0 <= i < front.len() && (#[trigger] front[i]).key@ == key && front[i].value
                    == lookup(front, key)->0;
            assert(entries[i].key@ == key);
        } else {
            assert forall|i: int| 0 <= i < entries.len() implies (#[trigger] entries[i]).key@
                != key by {
                if i < front.len() {
                    assert(front[i].key@ != key);
                }
            }
        }
    }
}

/// A value that is put under a key is found there, and under every other key
/// what was there before.
pub proof fn inserted_value_is_found<V>(
    t: Table<V>,
    key: String,
    value: V,
    r: Table<V>,
    other: &str,
    before: Option<&V>,
    after: Option<&V>,
)
    requires
        call_ensures(Table::<V>::insert, (t, key, value), r),
        call_ensures(Table::<V>::get, (&t, other), before),
        call_ensures(Table::<V>::get, (&r, other), after),
    ensures
        other@ == key@ ==> (after matches Some(v) && *v == value),
        other@ != key@ ==> (before is None <==> after is None),
        other@ != key@ && before is Some ==> *(after->0) == *(before->0),
        r@.len() == t@.len() || r@.len() == t@.len() + 1,
{
    if lookup(t@, key@) is Some {
        let i = choose|i: int| 0 <= i < t@.len() && (#[trigger] t@[i]).key@ == key@;
        assert(r@ == t@.update(i, Entry { key, value }));
    }
}

/// The kind of a value is told by the word for what it holds.
pub proof fn kind_is_told_by_its_word(v: Value)
    ensures
        v.spec_kind().words() == match v {
            Value::String(_) => "string"@,
            Value::Integer(_) => "integer"@,
            Value::Float(_) => "float"@,
            Value::Boolean(_) => "boolean"@,
            Value::Datetime(_) => "datetime"@,
            Value::Array(_) => "array"@,
            Value::Table(_) => "table"@,
        },
        v.text() is Some <==> v is String,
{
}

} // verus!
