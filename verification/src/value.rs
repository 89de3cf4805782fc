//! The payload type of requests, responses and events: a tagged union with
//! structural equality, and the lenient projections that read it.

use crate::text::{decimal, decimal_text, same_text};
use vstd::prelude::*;
use vstd::string::StringExecFns;
use vstd::std_specs::cmp::PartialEqSpecImpl;

verus! {

/// A tagged-union payload. Arrays and mappings keep the order in which their
/// items were put in; a mapping is well formed when no key occurs twice in it.
#[derive(Debug)]
pub enum Value {
    Null,
    Bool(bool),
    Number(i64),
    String(String),
    Bytes(Vec<u8>),
    Array(Vec<Value>),
    Mapping(Vec<(String, Value)>),
    Document(Box<Value>),
}

/// What a [`Value`] stands for.
pub enum ValueModel {
    Null,
    Bool(bool),
    Number(int),
    Text(Seq<char>),
    Bytes(Seq<u8>),
    Array(Seq<ValueModel>),
    Mapping(Seq<(Seq<char>, ValueModel)>),
    Document(Box<ValueModel>),
}

/// The model of a value, node by node.
pub open spec fn model_of(v: Value) -> ValueModel
    decreases v,
{
    match v {
        Value::Null => ValueModel::Null,
        Value::Bool(b) => ValueModel::Bool(b),
        Value::Number(n) => ValueModel::Number(n as int),
        Value::String(s) => ValueModel::Text(s@),
        Value::Bytes(b) => ValueModel::Bytes(b@),
        Value::Array(items) => ValueModel::Array(
            Seq::new(
                items@.len(),
                |i: int|
                    if 0 <= i < items@.len() {
                        model_of(items@[i])
                    } else {
                        ValueModel::Null
                    },
            ),
        ),
        Value::Mapping(entries) => ValueModel::Mapping(
            Seq::new(
                entries@.len(),
                |i: int|
                    if 0 <= i < entries@.len() {
                        (entries@[i].0@, model_of(entries@[i].1))
                    } else {
                        (Seq::empty(), ValueModel::Null)
                    },
            ),
        ),
        Value::Document(inner) => ValueModel::Document(Box::new(model_of(*inner))),
    }
}

impl View for Value {
    type V = ValueModel;

    open spec fn view(&self) -> ValueModel {
        model_of(*self)
    }
}


/// The position of the first entry of `entries` whose key is `key`, or -1.
pub open spec fn key_index(entries: Seq<(Seq<char>, ValueModel)>, key: Seq<char>) -> int
    decreases entries.len(),
{
    if entries.len() == 0 {
        -1
    } else if entries.first().0 == key {
        0
    } else {
        let rest = key_index(entries.drop_first(), key);
        if rest < 0 {
            -1
        } else {
            rest + 1
        }
    }
}

/// What `entries` holds under `key`, if anything.
pub open spec fn lookup(entries: Seq<(Seq<char>, ValueModel)>, key: Seq<char>) -> Option<
    ValueModel,
> {
    if key_index(entries, key) >= 0 {
        Some(entries[key_index(entries, key)].1)
    } else {
        None
    }
}

/// No key occurs twice.
pub open spec fn distinct_keys(entries: Seq<(Seq<char>, ValueModel)>) -> bool {
    forall|i: int, j: int|
        0 <= i < j < entries.len() ==> (#[trigger] entries[i]).0 != (#[trigger] entries[j]).0
}

/// `entries` with `value` under `key`: in the place of the entry that had
/// that key, or at the end where none had it.
pub open spec fn put(
    entries: Seq<(Seq<char>, ValueModel)>,
    key: Seq<char>,
    value: ValueModel,
) -> Seq<(Seq<char>, ValueModel)> {
    if key_index(entries, key) >= 0 {
        entries.update(key_index(entries, key), (key, value))
    } else {
        entries.push((key, value))
    }
}

/// `base` with every entry of `extra` put in, in order: an entry of `extra`
/// takes the place of the entry of `base` that has its key.
pub open spec fn merge(
    base: Seq<(Seq<char>, ValueModel)>,
    extra: Seq<(Seq<char>, ValueModel)>,
) -> Seq<(Seq<char>, ValueModel)>
    decreases extra.len(),
{
    if extra.len() == 0 {
        base
    } else {
        put(merge(base, extra.drop_last()), extra.last().0, extra.last().1)
    }
}

/// A value written out for a person to read.
pub open spec fn rendering(v: ValueModel) -> Seq<char>
    decreases v,
{
    match v {
        ValueModel::Null => "null"@,
        ValueModel::Bool(b) => if b {
            "true"@
        } else {
            "false"@
        },
        ValueModel::Number(n) => decimal_text(n),
        ValueModel::Text(s) => "\""@ + s + "\""@,
        ValueModel::Bytes(b) => "bytes("@ + decimal_text(b.len() as int) + ")"@,
        ValueModel::Array(items) => "["@ + rendering_of_items(items) + "]"@,
        ValueModel::Mapping(entries) => "{"@ + rendering_of_entries(entries) + "}"@,
        ValueModel::Document(inner) => rendering(*inner),
    }
}

/// The items of an array written out, with a comma between two of them.
pub open spec fn rendering_of_items(items: Seq<ValueModel>) -> Seq<char>
    decreases items,
{
    if items.len() == 0 {
        Seq::empty()
    } else if items.len() == 1 {
        rendering(items[0])
    } else {
        rendering_of_items(items.drop_last()) + ", "@ + rendering(items.last())
    }
}

/// The entries of a mapping written out, each as key, colon and value, with
/// a comma between two of them.
pub open spec fn rendering_of_entries(entries: Seq<(Seq<char>, ValueModel)>) -> Seq<char>
    decreases entries,
{
    if entries.len() == 0 {
        Seq::empty()
    } else if entries.len() == 1 {
        entries[0].0 + ": "@ + rendering(entries[0].1)
    } else {
        rendering_of_entries(entries.drop_last()) + ", "@ + entries.last().0 + ": "@ + rendering(
            entries.last().1,
        )
    }
}

/// The mapping that holds `value` under `key` and nothing else.
pub open spec fn single(key: Seq<char>, value: ValueModel) -> ValueModel {
    ValueModel::Mapping(seq![(key, value)])
}

impl ValueModel {
    /// The text under `key`, where the value is a mapping that holds a text
    /// there.
    pub open spec fn text_field(self, key: Seq<char>) -> Option<Seq<char>> {
        match self.field(key) {
            Some(ValueModel::Text(s)) => Some(s),
            _ => None,
        }
    }

    /// The number under `key`, where the value is a mapping that holds a
    /// number there.
    pub open spec fn number_field(self, key: Seq<char>) -> Option<int> {
        match self.field(key) {
            Some(ValueModel::Number(n)) => Some(n),
            _ => None,
        }
    }

    /// Every mapping inside has distinct keys.
    pub open spec fn wf(self) -> bool
        decreases self,
    {
        match self {
            ValueModel::Array(items) => forall|i: int|
                0 <= i < items.len() ==> (#[trigger] items[i]).wf(),
            ValueModel::Mapping(entries) => distinct_keys(entries) && forall|i: int|
                0 <= i < entries.len() ==> (#[trigger] entries[i]).1.wf(),
            ValueModel::Document(inner) => inner.wf(),
            _ => true,
        }
    }

    /// A value that stands for itself as a request body: a boolean, a number,
    /// a text or a run of bytes.
    pub open spec fn is_scalar(self) -> bool {
        self is Bool || self is Number || self is Text || self is Bytes
    }

    /// The field `key` of a mapping; nothing for any other value.
    pub open spec fn field(self, key: Seq<char>) -> Option<ValueModel> {
        match self {
            ValueModel::Mapping(entries) => lookup(entries, key),
            _ => None,
        }
    }

    /// The text that this value is, or `default`.
    pub open spec fn text_or(self, default: Seq<char>) -> Seq<char> {
        match self {
            ValueModel::Text(s) => s,
            _ => default,
        }
    }

    /// The number that this value is, or `default`.
    pub open spec fn number_or(self, default: int) -> int {
        match self {
            ValueModel::Number(n) => n,
            _ => default,
        }
    }

    /// The boolean that this value is, or `default`.
    pub open spec fn bool_or(self, default: bool) -> bool {
        match self {
            ValueModel::Bool(b) => b,
            _ => default,
        }
    }

    /// The entries of a mapping; none for any other value.
    pub open spec fn entries(self) -> Seq<(Seq<char>, ValueModel)> {
        match self {
            ValueModel::Mapping(entries) => entries,
            _ => Seq::empty(),
        }
    }

    /// The text under `key`, or `default` where the field is missing or is
    /// no text.
    pub open spec fn field_text_or(self, key: Seq<char>, default: Seq<char>) -> Seq<char> {
        match self.field(key) {
            Some(v) => v.text_or(default),
            None => default,
        }
    }

    /// The number under `key`, or `default`.
    pub open spec fn field_number_or(self, key: Seq<char>, default: int) -> int {
        match self.field(key) {
            Some(v) => v.number_or(default),
            None => default,
        }
    }

    /// The boolean under `key`, or `default`.
    pub open spec fn field_bool_or(self, key: Seq<char>, default: bool) -> bool {
        match self.field(key) {
            Some(v) => v.bool_or(default),
            None => default,
        }
    }
}


/// The first entry under a key is where `key_index` says.
pub proof fn lemma_key_index(entries: Seq<(Seq<char>, ValueModel)>, key: Seq<char>)
    ensures
        -1 <= key_index(entries, key) < entries.len(),
        key_index(entries, key) >= 0 ==> entries[key_index(entries, key)].0 == key,
        forall|i: int|
            0 <= i < entries.len() && (key_index(entries, key) < 0 || i < key_index(
                entries,
                key,
            )) ==> (#[trigger] entries[i]).0 != key,
    decreases entries.len(),
{
    if entries.len() > 0 && entries.first().0 != key {
        let rest = entries.drop_first();
        lemma_key_index(rest, key);
        let r = key_index(rest, key);
        assert forall|i: int|
            0 <= i < entries.len() && (key_index(entries, key) < 0 || i < key_index(
                entries,
                key,
            )) implies (#[trigger] entries[i]).0 != key by {
            if i > 0 {
                assert(entries[i] == rest[i - 1]);
            }
        }
    }
}

/// An entry under `key` with none before it is the one that `key_index` finds.
pub proof fn lemma_key_index_at(entries: Seq<(Seq<char>, ValueModel)>, key: Seq<char>, at: int)
    requires
        -1 <= at < entries.len(),
        at >= 0 ==> entries[at].0 == key,
        forall|i: int|
            0 <= i < entries.len() && (at < 0 || i < at) ==> (#[trigger] entries[i]).0 != key,
    ensures
        key_index(entries, key) == at,
{
    lemma_key_index(entries, key);
}

/// Putting a value under a key keeps the keys distinct, makes the key hold
/// that value, and leaves every other key as it was.
pub proof fn lemma_put(
    entries: Seq<(Seq<char>, ValueModel)>,
    key: Seq<char>,
    value: ValueModel,
    other: Seq<char>,
)
    ensures
        distinct_keys(entries) ==> distinct_keys(put(entries, key, value)),
        lookup(put(entries, key, value), key) == Some(value),
        other != key ==> lookup(put(entries, key, value), other) == lookup(entries, other),
{
    let at = key_index(entries, key);
    let after = put(entries, key, value);
    lemma_key_index(entries, key);
    lemma_key_index(entries, other);
    if at >= 0 {
        lemma_key_index_at(after, key, at);
        if other != key {
            lemma_key_index_at(after, other, key_index(entries, other));
        }
    } else {
        lemma_key_index_at(after, key, entries.len() as int);
        if other != key {
            if key_index(entries, other) >= 0 {
                lemma_key_index_at(after, other, key_index(entries, other));
            } else {
                lemma_key_index_at(after, other, -1);
            }
        }
    }
}

impl Clone for Value {
    fn clone(&self) -> (res: Self)
        ensures
            res@ == self@,
        decreases self,
    {
        match self {
            Value::Null => Value::Null,
            Value::Bool(b) => Value::Bool(*b),
            Value::Number(n) => Value::Number(*n),
            Value::String(s) => Value::String(s.clone()),
            Value::Bytes(b) => Value::Bytes(b.clone()),
            Value::Array(items) => {
                let mut out: Vec<Value> = Vec::new();
                let mut i: usize = 0;
                while i < items.len()
                    invariant
                        decreases_to!(*self => *items),
                        i <= items.len(),
                        out@.len() == i,
                        forall|j: int| 0 <= j < i ==> (#[trigger] out@[j])@ == items@[j]@,
                    decreases items.len() - i,
                {
                    assert(decreases_to!(*items => items[i as int]));
                    out.push(items[i].clone());
                    i += 1;
                }
                let res = Value::Array(out);
                assert(res@->Array_0 =~= self@->Array_0);
                res
            },
            Value::Mapping(entries) => {
                let mut out: Vec<(String, Value)> = Vec::new();
                let mut i: usize = 0;
                while i < entries.len()
                    invariant
                        decreases_to!(*self => *entries),
                        i <= entries.len(),
                        out@.len() == i,
                        forall|j: int|
                            0 <= j < i ==> (#[trigger] out@[j]).0@ == entries@[j].0@
                                && out@[j].1@ == entries@[j].1@,
                    decreases entries.len() - i,
                {
                    assert(decreases_to!(*entries => entries[i as int]));
                    out.push((entries[i].0.clone(), entries[i].1.clone()));
                    i += 1;
                }
                let res = Value::Mapping(out);
                assert(res@->Mapping_0 =~= self@->Mapping_0);
                res
            },
            Value::Document(inner) => Value::Document(Box::new((**inner).clone())),
        }
    }
}


/// Whether two runs of bytes are the same.
pub fn same_bytes(a: &Vec<u8>, b: &Vec<u8>) -> (r: bool)
    ensures
        r == (a@ == b@),
{
    if a.len() != b.len() {
        return false;
    }
    let mut i: usize = 0;
    while i < a.len()
        invariant
            i <= a.len(),
            a.len() == b.len(),
            forall|j: int| 0 <= j < i ==> a@[j] == b@[j],
        decreases a.len() - i,
    {
        if a[i] != b[i] {
            return false;
        }
        i += 1;
    }
    assert(a@ =~= b@);
    true
}

/// The position in `entries` of the first entry under `key`.
pub fn find_key(entries: &Vec<(String, Value)>, key: &str) -> (r: Option<usize>)
    ensures
        match r {
            Some(i) => i < entries.len() && key_index(Value::Mapping(*entries)@.entries(), key@)
                == i,
            None => key_index(Value::Mapping(*entries)@.entries(), key@) == -1,
        },
{
    let ghost model = Value::Mapping(*entries)@.entries();
    let mut i: usize = 0;
    while i < entries.len()
        invariant
            i <= entries.len(),
            model == Value::Mapping(*entries)@.entries(),
            forall|j: int| 0 <= j < i ==> (#[trigger] model[j]).0 != key@,
        decreases entries.len() - i,
    {
        if same_text(entries[i].0.as_str(), key) {
            proof {
                lemma_key_index_at(model, key@, i as int);
            }
            return Some(i);
        }
        i += 1;
    }
    proof {
        lemma_key_index_at(model, key@, -1);
    }
    None
}

impl Value {
    /// An empty mapping.
    pub fn mapping() -> (r: Value)
        ensures
            r@ == ValueModel::Mapping(Seq::empty()),
            r@.wf(),
    {
        let r = Value::Mapping(Vec::new());
        assert(r@->Mapping_0 =~= Seq::empty());
        r
    }

    /// The mapping that holds `value` under `key` and nothing else.
    pub fn single(key: &str, value: Value) -> (r: Value)
        ensures
            r@ == single(key@, value@),
            value@.wf() ==> r@.wf(),
    {
        let mut entries: Vec<(String, Value)> = Vec::new();
        entries.push((key.to_owned(), value));
        let r = Value::Mapping(entries);
        assert(r@->Mapping_0 =~= seq![(key@, value@)]);
        r
    }

    /// The text under `key`, where this is a mapping that holds a text
    /// there.
    pub fn text_field(&self, key: &str) -> (r: Option<&str>)
        ensures
            match r {
                Some(s) => self@.text_field(key@) == Some(s@),
                None => self@.text_field(key@) is None,
            },
    {
        match self.get(key) {
            Some(Value::String(s)) => Some(s.as_str()),
            _ => None,
        }
    }

    /// The number under `key`, where this is a mapping that holds a number
    /// there.
    pub fn number_field(&self, key: &str) -> (r: Option<i64>)
        ensures
            match r {
                Some(n) => self@.number_field(key@) == Some(n as int),
                None => self@.number_field(key@) is None,
            },
    {
        match self.get(key) {
            Some(Value::Number(n)) => Some(*n),
            _ => None,
        }
    }

    /// A text value.
    pub fn text(s: &str) -> (r: Value)
        ensures
            r@ == ValueModel::Text(s@),
    {
        Value::String(s.to_owned())
    }

    /// Whether this value is a boolean, a number, a text or a run of bytes.
    pub fn is_scalar(&self) -> (r: bool)
        ensures
            r == self@.is_scalar(),
    {
        match self {
            Value::Bool(_) => true,
            Value::Number(_) => true,
            Value::String(_) => true,
            Value::Bytes(_) => true,
            _ => false,
        }
    }

    /// The field `key` of a mapping. Any other value has no fields.
    pub fn get(&self, key: &str) -> (r: Option<&Value>)
        ensures
            match r {
                Some(v) => self@.field(key@) == Some(v@),
                None => self@.field(key@) is None,
            },
    {
        match self {
            Value::Mapping(entries) => match find_key(entries, key) {
                Some(i) => Some(&entries[i].1),
                None => None,
            },
            _ => None,
        }
    }

    /// Puts `value` under `key`: in the place of the entry that had the key,
    /// or behind the last entry. A value that is no mapping becomes a mapping
    /// of this one entry.
    pub fn set(&mut self, key: &str, value: Value)
        ensures
            final(self)@ == ValueModel::Mapping(put(old(self)@.entries(), key@, value@)),
            old(self)@.wf() && value@.wf() ==> final(self)@.wf(),
    {
        let ghost before = self@.entries();
        let ghost was_wf = self@.wf();
        proof {
            lemma_put(before, key@, value@, key@);
        }
        match self {
            Value::Mapping(entries) => {
                match find_key(entries, key) {
                    Some(i) => {
                        entries[i] = (key.to_owned(), value);
                    },
                    None => {
                        entries.push((key.to_owned(), value));
                    },
                }
                assert(Value::Mapping(*entries)@.entries() =~= put(before, key@, value@));
            },
            _ => {
                let mut entries: Vec<(String, Value)> = Vec::new();
                entries.push((key.to_owned(), value));
                *self = Value::Mapping(entries);
                assert(self@.entries() =~= put(before, key@, value@));
            },
        }
        proof {
            let after = put(before, key@, value@);
            if was_wf && value@.wf() {
                assert forall|i: int| 0 <= i < after.len() implies (#[trigger] after[i]).1.wf() by {
                    if i < before.len() && i != key_index(before, key@) {
                        assert(after[i] == before[i]);
                    }
                }
            }
        }
    }

    /// The text that this value is, or `default` for any other value.
    pub fn string_or(&self, default: &str) -> (r: String)
        ensures
            r@ == self@.text_or(default@),
    {
        match self {
            Value::String(s) => s.clone(),
            _ => default.to_owned(),
        }
    }

    /// The number that this value is, or `default` for any other value.
    pub fn number_or(&self, default: i64) -> (r: i64)
        ensures
            r == self@.number_or(default as int),
    {
        match self {
            Value::Number(n) => *n,
            _ => default,
        }
    }

    /// The boolean that this value is, or `default` for any other value.
    pub fn bool_or(&self, default: bool) -> (r: bool)
        ensures
            r == self@.bool_or(default),
    {
        match self {
            Value::Bool(b) => *b,
            _ => default,
        }
    }

    /// This value with the entries of `extra` put into it, in order: an
    /// entry of `extra` takes the place of the entry that has its key. A
    /// value that is no mapping counts as the empty mapping.
    pub fn merged(&self, extra: &Value) -> (r: Value)
        ensures
            r@ == ValueModel::Mapping(merge(self@.entries(), extra@.entries())),
            self@.wf() && extra@.wf() ==> r@.wf(),
    {
        let mut r = match self {
            Value::Mapping(_) => self.clone(),
            _ => Value::mapping(),
        };
        proof {
            assert(r@ == ValueModel::Mapping(self@.entries())) by {
                if !(self@ is Mapping) {
                    assert(self@.entries() =~= Seq::empty());
                }
            }
            if self@.wf() && !(self@ is Mapping) {
                assert(r@.wf());
            }
        }
        match extra {
            Value::Mapping(entries) => {
                let ghost all = extra@.entries();
                let mut i: usize = 0;
                proof {
                    assert(all.take(0) =~= Seq::empty());
                }
                while i < entries.len()
                    invariant
                        i <= entries.len(),
                        *extra == Value::Mapping(*entries),
                        all == extra@.entries(),
                        r@ == ValueModel::Mapping(merge(self@.entries(), all.take(i as int))),
                        self@.wf() && extra@.wf() ==> r@.wf(),
                    decreases entries.len() - i,
                {
                    proof {
                        assert(all.take(i + 1).drop_last() =~= all.take(i as int));
                        assert(all.take(i + 1).last() == all[i as int]);
                        assert(all[i as int].1 == entries@[i as int].1@);
                        if extra@.wf() {
                            assert(all[i as int].1.wf());
                        }
                    }
                    r.set(entries[i].0.as_str(), entries[i].1.clone());
                    i += 1;
                }
                proof {
                    assert(all.take(entries.len() as int) =~= all);
                }
            },
            _ => {
                proof {
                    assert(extra@.entries() =~= Seq::empty());
                }
            },
        }
        r
    }

    /// This value written out for a person to read: texts in quotes, the
    /// items of an array in brackets, the entries of a mapping in braces.
    pub fn render(&self) -> (r: String)
        ensures
            r@ == rendering(self@),
        decreases self,
    {
        match self {
            Value::Null => "null".to_owned(),
            Value::Bool(b) => if *b {
                "true".to_owned()
            } else {
                "false".to_owned()
            },
            Value::Number(n) => decimal(*n),
            Value::String(s) => {
                let mut r = "\"".to_owned();
                r.append(s.as_str());
                r.append("\"");
                r
            },
            Value::Bytes(b) => {
                let mut r = "bytes(".to_owned();
                let n = crate::text::digits_of(b.len() as u64);
                r.append(n.as_str());
                r.append(")");
                r
            },
            Value::Array(items) => {
                let mut r = "[".to_owned();
                let ghost all = self@->Array_0;
                let mut i: usize = 0;
                proof {
                    assert(all.take(0) =~= Seq::empty());
                    assert(r@ =~= "["@ + rendering_of_items(all.take(0)));
                }
                while i < items.len()
                    invariant
                        decreases_to!(*self => *items),
                        i <= items.len(),
                        all.len() == items.len(),
                        forall|j: int| 0 <= j < items.len() ==> all[j] == (#[trigger] items@[j])@,
                        r@ == "["@ + rendering_of_items(all.take(i as int)),
                    decreases items.len() - i,
                {
                    proof {
                        assert(decreases_to!(*items => items[i as int]));
                        assert(all.take(i + 1).drop_last() =~= all.take(i as int));
                        assert(all.take(i + 1).last() == all[i as int]);
                        assert(all.take(i + 1)[0] == all[0]);
                    }
                    let ghost before = r@;
                    if i > 0 {
                        r.append(", ");
                    }
                    let item = items[i].render();
                    r.append(item.as_str());
                    proof {
                        if i == 0 {
                            assert(rendering_of_items(all.take(0)) =~= Seq::empty());
                            assert(r@ =~= "["@ + rendering_of_items(all.take(1)));
                        } else {
                            assert(r@ =~= "["@ + rendering_of_items(all.take(i + 1)));
                        }
                    }
                    i += 1;
                }
                proof {
                    assert(all.take(items.len() as int) =~= all);
                }
                r.append("]");
                r
            },
            Value::Mapping(entries) => {
                let mut r = "{".to_owned();
                let ghost all = self@->Mapping_0;
                let mut i: usize = 0;
                proof {
                    assert(all.take(0) =~= Seq::empty());
                    assert(r@ =~= "{"@ + rendering_of_entries(all.take(0)));
                }
                while i < entries.len()
                    invariant
                        decreases_to!(*self => *entries),
                        i <= entries.len(),
                        all.len() == entries.len(),
                        forall|j: int|
                            0 <= j < entries.len() ==> all[j] == ((#[trigger] entries@[j]).0@,
                                entries@[j].1@),
                        r@ == "{"@ + rendering_of_entries(all.take(i as int)),
                    decreases entries.len() - i,
                {
                    proof {
                        assert(decreases_to!(*entries => entries[i as int]));
                        assert(all.take(i + 1).drop_last() =~= all.take(i as int));
                        assert(all.take(i + 1).last() == all[i as int]);
                        assert(all.take(i + 1)[0] == all[0]);
                    }
                    if i > 0 {
                        r.append(", ");
                    }
                    r.append(entries[i].0.as_str());
                    r.append(": ");
                    let item = entries[i].1.render();
                    r.append(item.as_str());
                    proof {
                        if i == 0 {
                            assert(rendering_of_entries(all.take(0)) =~= Seq::empty());
                            assert(r@ =~= "{"@ + rendering_of_entries(all.take(1)));
                        } else {
                            assert(r@ =~= "{"@ + rendering_of_entries(all.take(i + 1)));
                        }
                    }
                    i += 1;
                }
                proof {
                    assert(all.take(entries.len() as int) =~= all);
                }
                r.append("}");
                r
            },
            Value::Document(inner) => (**inner).render(),
        }
    }

    /// Whether two values are structurally equal.
    pub fn equals(&self, other: &Value) -> (r: bool)
        ensures
            r == (self@ == other@),
        decreases self,
    {
        match (self, other) {
            (Value::Null, Value::Null) => true,
            (Value::Bool(a), Value::Bool(b)) => *a == *b,
            (Value::Number(a), Value::Number(b)) => *a == *b,
            (Value::String(a), Value::String(b)) => same_text(a.as_str(), b.as_str()),
            (Value::Bytes(a), Value::Bytes(b)) => same_bytes(a, b),
            (Value::Array(a), Value::Array(b)) => {
                if a.len() != b.len() {
                    assert(self@->Array_0.len() != other@->Array_0.len());
                    return false;
                }
                let mut i: usize = 0;
                while i < a.len()
                    invariant
                        decreases_to!(*self => *a),
                        i <= a.len(),
                        a.len() == b.len(),
                        self@ == ValueModel::Array(Value::Array(*a)@->Array_0),
                        other@ == ValueModel::Array(Value::Array(*b)@->Array_0),
                        forall|j: int| 0 <= j < i ==> (#[trigger] a@[j])@ == b@[j]@,
                    decreases a.len() - i,
                {
                    assert(decreases_to!(*a => a[i as int]));
                    if !a[i].equals(&b[i]) {
                        assert(self@->Array_0[i as int] != other@->Array_0[i as int]);
                        return false;
                    }
                    i += 1;
                }
                assert(self@->Array_0 =~= other@->Array_0);
                true
            },
            (Value::Mapping(a), Value::Mapping(b)) => {
                if a.len() != b.len() {
                    assert(self@->Mapping_0.len() != other@->Mapping_0.len());
                    return false;
                }
                let mut i: usize = 0;
                while i < a.len()
                    invariant
                        decreases_to!(*self => *a),
                        i <= a.len(),
                        a.len() == b.len(),
                        self@ == ValueModel::Mapping(Value::Mapping(*a)@->Mapping_0),
                        other@ == ValueModel::Mapping(Value::Mapping(*b)@->Mapping_0),
                        forall|j: int|
                            0 <= j < i ==> (#[trigger] a@[j]).0@ == b@[j].0@ && a@[j].1@
                                == b@[j].1@,
                    decreases a.len() - i,
                {
                    assert(decreases_to!(*a => a[i as int]));
                    if !same_text(a[i].0.as_str(), b[i].0.as_str()) {
                        assert(self@->Mapping_0[i as int] != other@->Mapping_0[i as int]);
                        return false;
                    }
                    if !a[i].1.equals(&b[i].1) {
                        assert(self@->Mapping_0[i as int] != other@->Mapping_0[i as int]);
                        return false;
                    }
                    i += 1;
                }
                assert(self@->Mapping_0 =~= other@->Mapping_0);
                true
            },
            (Value::Document(a), Value::Document(b)) => (**a).equals(&**b),
            _ => false,
        }
    }
}

impl PartialEq for Value {
    fn eq(&self, other: &Value) -> (r: bool) {
        self.equals(other)
    }
}

impl PartialEqSpecImpl for Value {
    open spec fn obeys_eq_spec() -> bool {
        true
    }

    open spec fn eq_spec(&self, other: &Value) -> bool {
        self@ == other@
    }
}

/// The text under `key` in `value`, or `default` where `value` is no
/// mapping, has no such field, or holds something else than a text there.
pub fn get_string(value: &Value, key: &str, default: &str) -> (r: String)
    ensures
        r@ == value@.field_text_or(key@, default@),
{
    match value.get(key) {
        Some(v) => v.string_or(default),
        None => default.to_owned(),
    }
}

/// The number under `key` in `value`, or `default`.
pub fn get_number(value: &Value, key: &str, default: i64) -> (r: i64)
    ensures
        r == value@.field_number_or(key@, default as int),
{
    match value.get(key) {
        Some(v) => v.number_or(default),
        None => default,
    }
}

/// The boolean under `key` in `value`, or `default`.
pub fn get_bool(value: &Value, key: &str, default: bool) -> (r: bool)
    ensures
        r == value@.field_bool_or(key@, default),
{
    match value.get(key) {
        Some(v) => v.bool_or(default),
        None => default,
    }
}

} // verus!
