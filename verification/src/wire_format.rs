//! The wire form of a value: a tag for the kind of value, then what it
//! holds, sizes as eight bytes with the least significant first, texts in
//! UTF-8. No sequence of bytes is the wire form of two values.

use crate::value::{distinct_keys, Value, ValueModel};
use vstd::bytes::{
    lemma_auto_spec_u64_to_from_le_bytes, spec_u64_from_le_bytes, spec_u64_to_le_bytes,
};
use vstd::prelude::*;
use vstd::utf8::encode_utf8;

verus! {

/// A size on the wire.
pub open spec fn size_bytes(n: nat) -> Seq<u8> {
    spec_u64_to_le_bytes(n as u64)
}

/// A number on the wire: a byte that says whether it is negative, and its
/// distance from 0, or from -1 where it is negative.
pub open spec fn number_bytes(n: int) -> Seq<u8> {
    if n >= 0 {
        seq![0u8] + spec_u64_to_le_bytes(n as u64)
    } else {
        seq![1u8] + spec_u64_to_le_bytes((-(n + 1)) as u64)
    }
}

/// A text on the wire: the number of its bytes in UTF-8, and those bytes.
pub open spec fn text_bytes(s: Seq<char>) -> Seq<u8> {
    size_bytes(encode_utf8(s).len()) + encode_utf8(s)
}

/// The wire form of a value.
pub open spec fn encoding(v: ValueModel) -> Seq<u8>
    decreases v, 0nat,
{
    match v {
        ValueModel::Null => seq![0u8],
        ValueModel::Bool(b) => seq![
            1u8,
            if b {
                1u8
            } else {
                0u8
            },
        ],
        ValueModel::Number(n) => seq![2u8] + number_bytes(n),
        ValueModel::Text(s) => seq![3u8] + text_bytes(s),
        ValueModel::Bytes(b) => seq![4u8] + size_bytes(b.len()) + b,
        ValueModel::Array(items) => seq![5u8] + size_bytes(items.len()) + encoding_of_items(items),
        ValueModel::Mapping(entries) => seq![6u8] + size_bytes(entries.len())
            + encoding_of_entries(entries),
        ValueModel::Document(inner) => seq![7u8] + encoding(*inner),
    }
}

/// The wire forms of the items of an array, one after the other.
pub open spec fn encoding_of_items(items: Seq<ValueModel>) -> Seq<u8>
    decreases items, items.len(),
{
    if items.len() == 0 {
        Seq::empty()
    } else {
        encoding_of_items(items.drop_last()) + encoding(items.last())
    }
}

/// The wire form of one entry of a mapping: the key as a text, then the
/// value.
pub open spec fn encoding_of_entry(entry: (Seq<char>, ValueModel)) -> Seq<u8>
    decreases entry, 1nat,
{
    text_bytes(entry.0) + encoding(entry.1)
}

/// The wire forms of the entries of a mapping, one after the other.
pub open spec fn encoding_of_entries(entries: Seq<(Seq<char>, ValueModel)>) -> Seq<u8>
    decreases entries, entries.len(),
{
    if entries.len() == 0 {
        Seq::empty()
    } else {
        encoding_of_entries(entries.drop_last()) + encoding_of_entry(entries.last())
    }
}

/// Whether a value can be written: its numbers are in the range of 64 bits
/// and its sizes can be written in eight bytes.
pub open spec fn fits(v: ValueModel) -> bool
    decreases v,
{
    match v {
        ValueModel::Number(n) => i64::MIN <= n <= i64::MAX,
        ValueModel::Text(s) => encode_utf8(s).len() <= u64::MAX,
        ValueModel::Bytes(b) => b.len() <= u64::MAX,
        ValueModel::Array(items) => items.len() <= u64::MAX && forall|i: int|
            0 <= i < items.len() ==> fits(#[trigger] items[i]),
        ValueModel::Mapping(entries) => entries.len() <= u64::MAX && forall|i: int|
            0 <= i < entries.len() ==> encode_utf8((#[trigger] entries[i]).0).len() <= u64::MAX
                && fits(entries[i].1),
        ValueModel::Document(inner) => fits(*inner),
        _ => true,
    }
}

/// Whether `s` starts with `p`.
pub open spec fn starts_with(s: Seq<u8>, p: Seq<u8>) -> bool {
    p.len() <= s.len() && s.take(p.len() as int) == p
}

/// What starts with a sequence of two parts starts with the first part,
/// and goes on with the second.
pub proof fn lemma_starts_with_parts(s: Seq<u8>, a: Seq<u8>, b: Seq<u8>)
    requires
        starts_with(s, a + b),
    ensures
        starts_with(s, a),
        starts_with(s.skip(a.len() as int), b),
{
    let p = a + b;
    assert(s.take(a.len() as int) =~= p.take(a.len() as int));
    assert(p.take(a.len() as int) =~= a);
    assert(s.skip(a.len() as int).take(b.len() as int) =~= s.take(p.len() as int).skip(
        a.len() as int,
    ));
    assert(p.skip(a.len() as int) =~= b);
}

/// Two sizes that are written alike are the same size.
pub proof fn lemma_size_bytes(a: nat, b: nat)
    requires
        a <= u64::MAX,
        b <= u64::MAX,
    ensures
        size_bytes(a).len() == 8,
        size_bytes(a) == size_bytes(b) ==> a == b,
{
    lemma_auto_spec_u64_to_from_le_bytes();
    if size_bytes(a) == size_bytes(b) {
        assert(spec_u64_from_le_bytes(spec_u64_to_le_bytes(a as u64)) == a as u64);
        assert(spec_u64_from_le_bytes(spec_u64_to_le_bytes(b as u64)) == b as u64);
    }
}

/// Two numbers that are written alike are the same number.
pub proof fn lemma_number_bytes(a: int, b: int)
    requires
        i64::MIN <= a <= i64::MAX,
        i64::MIN <= b <= i64::MAX,
    ensures
        number_bytes(a).len() == 9,
        number_bytes(a) == number_bytes(b) ==> a == b,
{
    lemma_auto_spec_u64_to_from_le_bytes();
    let x = number_bytes(a);
    let y = number_bytes(b);
    if x == y {
        assert(x[0] == y[0]);
        assert(x.skip(1) == y.skip(1));
        if a >= 0 {
            assert(x.skip(1) =~= spec_u64_to_le_bytes(a as u64));
            assert(y.skip(1) =~= spec_u64_to_le_bytes(b as u64));
            assert(spec_u64_from_le_bytes(spec_u64_to_le_bytes(a as u64)) == a as u64);
            assert(spec_u64_from_le_bytes(spec_u64_to_le_bytes(b as u64)) == b as u64);
        } else {
            assert(x.skip(1) =~= spec_u64_to_le_bytes((-(a + 1)) as u64));
            assert(y.skip(1) =~= spec_u64_to_le_bytes((-(b + 1)) as u64));
            assert(spec_u64_from_le_bytes(spec_u64_to_le_bytes((-(a + 1)) as u64)) == (-(a
                + 1)) as u64);
            assert(spec_u64_from_le_bytes(spec_u64_to_le_bytes((-(b + 1)) as u64)) == (-(b
                + 1)) as u64);
        }
    }
}

/// Two texts that start the same sequence of bytes are the same text.
pub proof fn lemma_one_text(a: Seq<char>, b: Seq<char>, s: Seq<u8>)
    requires
        encode_utf8(a).len() <= u64::MAX,
        encode_utf8(b).len() <= u64::MAX,
        starts_with(s, text_bytes(a)),
        starts_with(s, text_bytes(b)),
    ensures
        a == b,
{
    let x = encode_utf8(a);
    let y = encode_utf8(b);
    lemma_size_bytes(x.len(), y.len());
    lemma_size_bytes(y.len(), x.len());
    lemma_starts_with_parts(s, size_bytes(x.len()), x);
    lemma_starts_with_parts(s, size_bytes(y.len()), y);
    assert(size_bytes(x.len()) == s.take(8));
    assert(size_bytes(y.len()) == s.take(8));
    assert(x == s.skip(8).take(x.len() as int));
    vstd::utf8::encode_utf8_decode_utf8(a);
    vstd::utf8::encode_utf8_decode_utf8(b);
}

/// A wire form is not empty and starts with the tag of its kind.
pub proof fn lemma_encoding_tag(v: ValueModel)
    ensures
        encoding(v).len() >= 1,
        encoding(v)[0] == match v {
            ValueModel::Null => 0u8,
            ValueModel::Bool(_) => 1u8,
            ValueModel::Number(_) => 2u8,
            ValueModel::Text(_) => 3u8,
            ValueModel::Bytes(_) => 4u8,
            ValueModel::Array(_) => 5u8,
            ValueModel::Mapping(_) => 6u8,
            ValueModel::Document(_) => 7u8,
        },
{
}

/// The wire forms of the first items of an array start the wire forms of
/// all its items.
pub proof fn lemma_items_prefix(items: Seq<ValueModel>, k: int)
    requires
        0 <= k <= items.len(),
    ensures
        starts_with(encoding_of_items(items), encoding_of_items(items.take(k))),
        k < items.len() ==> encoding_of_items(items.take(k + 1)) == encoding_of_items(
            items.take(k),
        ) + encoding(items[k]),
    decreases items.len() - k,
{
    if k == items.len() {
        assert(items.take(k) =~= items);
        assert(encoding_of_items(items).take(encoding_of_items(items).len() as int)
            =~= encoding_of_items(items));
    } else {
        assert(items.take(k + 1).drop_last() =~= items.take(k));
        assert(items.take(k + 1).last() == items[k]);
        lemma_items_prefix(items, k + 1);
        let all = encoding_of_items(items);
        let more = encoding_of_items(items.take(k + 1));
        let fewer = encoding_of_items(items.take(k));
        assert(more == fewer + encoding(items[k]));
        assert(all.take(fewer.len() as int) =~= more.take(fewer.len() as int));
        assert(more.take(fewer.len() as int) =~= fewer);
    }
}

/// The wire forms of the first entries of a mapping start the wire forms
/// of all its entries.
pub proof fn lemma_entries_prefix(entries: Seq<(Seq<char>, ValueModel)>, k: int)
    requires
        0 <= k <= entries.len(),
    ensures
        starts_with(encoding_of_entries(entries), encoding_of_entries(entries.take(k))),
        k < entries.len() ==> encoding_of_entries(entries.take(k + 1)) == encoding_of_entries(
            entries.take(k),
        ) + encoding_of_entry(entries[k]),
    decreases entries.len() - k,
{
    if k == entries.len() {
        assert(entries.take(k) =~= entries);
        assert(encoding_of_entries(entries).take(encoding_of_entries(entries).len() as int)
            =~= encoding_of_entries(entries));
    } else {
        assert(entries.take(k + 1).drop_last() =~= entries.take(k));
        assert(entries.take(k + 1).last() == entries[k]);
        lemma_entries_prefix(entries, k + 1);
        let all = encoding_of_entries(entries);
        let more = encoding_of_entries(entries.take(k + 1));
        let fewer = encoding_of_entries(entries.take(k));
        assert(more == fewer + encoding_of_entry(entries[k]));
        assert(all.take(fewer.len() as int) =~= more.take(fewer.len() as int));
        assert(more.take(fewer.len() as int) =~= fewer);
    }
}

/// What starts with something that starts with `p` starts with `p`.
pub proof fn lemma_starts_with_trans(s: Seq<u8>, q: Seq<u8>, p: Seq<u8>)
    requires
        starts_with(s, q),
        starts_with(q, p),
    ensures
        starts_with(s, p),
{
    assert(s.take(p.len() as int) =~= s.take(q.len() as int).take(p.len() as int));
}

/// A sequence of bytes starts with the wire form of at most one value.
pub proof fn lemma_one_reading(a: ValueModel, b: ValueModel, s: Seq<u8>)
    requires
        fits(a),
        fits(b),
        starts_with(s, encoding(a)),
        starts_with(s, encoding(b)),
    ensures
        a == b,
    decreases a, 0nat,
{
    lemma_encoding_tag(a);
    lemma_encoding_tag(b);
    let x = encoding(a);
    let y = encoding(b);
    assert(x[0] == s.take(x.len() as int)[0]);
    assert(y[0] == s.take(y.len() as int)[0]);
    assert(x[0] == y[0]);
    let rest = s.skip(1);
    match a {
        ValueModel::Null => {},
        ValueModel::Bool(p) => {
            let q = b->Bool_0;
            assert(x[1] == s.take(x.len() as int)[1]);
            assert(y[1] == s.take(y.len() as int)[1]);
        },
        ValueModel::Number(n) => {
            let m = b->Number_0;
            lemma_number_bytes(n, m);
            lemma_number_bytes(m, n);
            lemma_starts_with_parts(s, seq![2u8], number_bytes(n));
            lemma_starts_with_parts(s, seq![2u8], number_bytes(m));
            assert(number_bytes(n) == rest.take(9));
            assert(number_bytes(m) == rest.take(9));
        },
        ValueModel::Text(t) => {
            let u = b->Text_0;
            lemma_starts_with_parts(s, seq![3u8], text_bytes(t));
            lemma_starts_with_parts(s, seq![3u8], text_bytes(u));
            lemma_one_text(t, u, rest);
        },
        ValueModel::Bytes(t) => {
            let u = b->Bytes_0;
            lemma_size_bytes(t.len(), u.len());
            lemma_size_bytes(u.len(), t.len());
            assert(x == seq![4u8] + (size_bytes(t.len()) + t)) by {
                assert(x =~= seq![4u8] + (size_bytes(t.len()) + t));
            }
            assert(y == seq![4u8] + (size_bytes(u.len()) + u)) by {
                assert(y =~= seq![4u8] + (size_bytes(u.len()) + u));
            }
            lemma_starts_with_parts(s, seq![4u8], size_bytes(t.len()) + t);
            lemma_starts_with_parts(s, seq![4u8], size_bytes(u.len()) + u);
            lemma_starts_with_parts(rest, size_bytes(t.len()), t);
            lemma_starts_with_parts(rest, size_bytes(u.len()), u);
            assert(size_bytes(t.len()) == rest.take(8));
            assert(size_bytes(u.len()) == rest.take(8));
            assert(t == rest.skip(8).take(t.len() as int));
            assert(u == rest.skip(8).take(u.len() as int));
        },
        ValueModel::Array(items) => {
            let others = b->Array_0;
            lemma_size_bytes(items.len(), others.len());
            lemma_size_bytes(others.len(), items.len());
            assert(x == seq![5u8] + (size_bytes(items.len()) + encoding_of_items(items))) by {
                assert(x =~= seq![5u8] + (size_bytes(items.len()) + encoding_of_items(items)));
            }
            assert(y == seq![5u8] + (size_bytes(others.len()) + encoding_of_items(others))) by {
                assert(y =~= seq![5u8] + (size_bytes(others.len()) + encoding_of_items(
                    others,
                )));
            }
            lemma_starts_with_parts(
                s,
                seq![5u8],
                size_bytes(items.len()) + encoding_of_items(items),
            );
            lemma_starts_with_parts(
                s,
                seq![5u8],
                size_bytes(others.len()) + encoding_of_items(others),
            );
            lemma_starts_with_parts(rest, size_bytes(items.len()), encoding_of_items(items));
            lemma_starts_with_parts(rest, size_bytes(others.len()), encoding_of_items(others));
            assert(size_bytes(items.len()) == rest.take(8));
            assert(size_bytes(others.len()) == rest.take(8));
            lemma_one_reading_of_items(items, others, rest.skip(8), items.len() as int);
            assert(items.take(items.len() as int) =~= items);
            assert(others.take(others.len() as int) =~= others);
        },
        ValueModel::Mapping(entries) => {
            let others = b->Mapping_0;
            lemma_size_bytes(entries.len(), others.len());
            lemma_size_bytes(others.len(), entries.len());
            assert(x == seq![6u8] + (size_bytes(entries.len()) + encoding_of_entries(
                entries,
            ))) by {
                assert(x =~= seq![6u8] + (size_bytes(entries.len()) + encoding_of_entries(
                    entries,
                )));
            }
            assert(y == seq![6u8] + (size_bytes(others.len()) + encoding_of_entries(
                others,
            ))) by {
                assert(y =~= seq![6u8] + (size_bytes(others.len()) + encoding_of_entries(
                    others,
                )));
            }
            lemma_starts_with_parts(
                s,
                seq![6u8],
                size_bytes(entries.len()) + encoding_of_entries(entries),
            );
            lemma_starts_with_parts(
                s,
                seq![6u8],
                size_bytes(others.len()) + encoding_of_entries(others),
            );
            lemma_starts_with_parts(
                rest,
                size_bytes(entries.len()),
                encoding_of_entries(entries),
            );
            lemma_starts_with_parts(rest, size_bytes(others.len()), encoding_of_entries(others));
            assert(size_bytes(entries.len()) == rest.take(8));
            assert(size_bytes(others.len()) == rest.take(8));
            lemma_one_reading_of_entries(entries, others, rest.skip(8), entries.len() as int);
            assert(entries.take(entries.len() as int) =~= entries);
            assert(others.take(others.len() as int) =~= others);
        },
        ValueModel::Document(inner) => {
            let other = b->Document_0;
            lemma_starts_with_parts(s, seq![7u8], encoding(*inner));
            lemma_starts_with_parts(s, seq![7u8], encoding(*other));
            lemma_one_reading(*inner, *other, rest);
        },
    }
}

/// Two arrays whose items start the same sequence of bytes have the same
/// first `k` items.
pub proof fn lemma_one_reading_of_items(
    items: Seq<ValueModel>,
    others: Seq<ValueModel>,
    s: Seq<u8>,
    k: int,
)
    requires
        0 <= k <= items.len(),
        k <= others.len(),
        forall|i: int| 0 <= i < items.len() ==> fits(#[trigger] items[i]),
        forall|i: int| 0 <= i < others.len() ==> fits(#[trigger] others[i]),
        starts_with(s, encoding_of_items(items)),
        starts_with(s, encoding_of_items(others)),
    ensures
        items.take(k) == others.take(k),
    decreases items, k,
{
    if k == 0 {
        assert(items.take(0) =~= others.take(0));
    } else {
        lemma_one_reading_of_items(items, others, s, k - 1);
        let done = encoding_of_items(items.take(k - 1));
        lemma_items_prefix(items, k - 1);
        lemma_items_prefix(items, k);
        lemma_items_prefix(others, k - 1);
        lemma_items_prefix(others, k);
        lemma_starts_with_trans(s, encoding_of_items(items), encoding_of_items(items.take(k)));
        lemma_starts_with_trans(s, encoding_of_items(others), encoding_of_items(others.take(k)));
        lemma_starts_with_parts(s, done, encoding(items[k - 1]));
        lemma_starts_with_parts(s, done, encoding(others[k - 1]));
        lemma_one_reading(items[k - 1], others[k - 1], s.skip(done.len() as int));
        assert(items.take(k) =~= items.take(k - 1).push(items[k - 1]));
        assert(others.take(k) =~= others.take(k - 1).push(others[k - 1]));
    }
}

/// Two mappings whose entries start the same sequence of bytes have the
/// same first `k` entries.
pub proof fn lemma_one_reading_of_entries(
    entries: Seq<(Seq<char>, ValueModel)>,
    others: Seq<(Seq<char>, ValueModel)>,
    s: Seq<u8>,
    k: int,
)
    requires
        0 <= k <= entries.len(),
        k <= others.len(),
        forall|i: int|
            0 <= i < entries.len() ==> encode_utf8((#[trigger] entries[i]).0).len() <= u64::MAX
                && fits(entries[i].1),
        forall|i: int|
            0 <= i < others.len() ==> encode_utf8((#[trigger] others[i]).0).len() <= u64::MAX
                && fits(others[i].1),
        starts_with(s, encoding_of_entries(entries)),
        starts_with(s, encoding_of_entries(others)),
    ensures
        entries.take(k) == others.take(k),
    decreases entries, k,
{
    if k == 0 {
        assert(entries.take(0) =~= others.take(0));
    } else {
        lemma_one_reading_of_entries(entries, others, s, k - 1);
        let done = encoding_of_entries(entries.take(k - 1));
        lemma_entries_prefix(entries, k - 1);
        lemma_entries_prefix(entries, k);
        lemma_entries_prefix(others, k - 1);
        lemma_entries_prefix(others, k);
        lemma_starts_with_trans(
            s,
            encoding_of_entries(entries),
            encoding_of_entries(entries.take(k)),
        );
        lemma_starts_with_trans(
            s,
            encoding_of_entries(others),
            encoding_of_entries(others.take(k)),
        );
        let e = entries[k - 1];
        let o = others[k - 1];
        lemma_starts_with_parts(s, done, encoding_of_entry(e));
        lemma_starts_with_parts(s, done, encoding_of_entry(o));
        let from = s.skip(done.len() as int);
        lemma_starts_with_parts(from, text_bytes(e.0), encoding(e.1));
        lemma_starts_with_parts(from, text_bytes(o.0), encoding(o.1));
        lemma_one_text(e.0, o.0, from);
        lemma_one_reading(e.1, o.1, from.skip(text_bytes(e.0).len() as int));
        assert(entries.take(k) =~= entries.take(k - 1).push(e));
        assert(others.take(k) =~= others.take(k - 1).push(o));
    }
}

/// Whether `bytes` is the wire form of the well-formed value `v`.
pub open spec fn is_wire_form(bytes: Seq<u8>, v: ValueModel) -> bool {
    v.wf() && fits(v) && encoding(v) == bytes
}

/// The well-formed value that `bytes` is the wire form of, if it is the
/// wire form of one.
pub open spec fn decoded(bytes: Seq<u8>) -> Option<ValueModel> {
    if exists|v: ValueModel| is_wire_form(bytes, v) {
        Some(choose|v: ValueModel| is_wire_form(bytes, v))
    } else {
        None
    }
}

/// Whether the bytes of `s` from `pos` on start with the wire form of a
/// well-formed value.
pub open spec fn readable(s: Seq<u8>, pos: int) -> bool {
    exists|v: ValueModel| reads_as(s, pos, v)
}

/// Whether the bytes of `s` from `pos` on start with the wire form of the
/// well-formed value `v`.
pub open spec fn reads_as(s: Seq<u8>, pos: int, v: ValueModel) -> bool {
    v.wf() && fits(v) && starts_with(s.skip(pos), encoding(v))
}

/// A sequence starts with itself.
pub proof fn lemma_starts_with_self(s: Seq<u8>)
    ensures
        starts_with(s, s),
{
    assert(s.take(s.len() as int) =~= s);
}

/// Writing a value and reading what was written gives the value: the wire
/// form of a well-formed value is the wire form of no other value.
pub proof fn lemma_round_trip(v: ValueModel)
    requires
        v.wf(),
        fits(v),
    ensures
        decoded(encoding(v)) == Some(v),
{
    let bytes = encoding(v);
    assert(is_wire_form(bytes, v));
    let w = choose|w: ValueModel| is_wire_form(bytes, w);
    lemma_starts_with_self(bytes);
    lemma_one_reading(v, w, bytes);
}

/// The wire forms of the items of an array take at least one byte each.
pub proof fn lemma_items_length(items: Seq<ValueModel>)
    ensures
        encoding_of_items(items).len() >= items.len(),
    decreases items.len(),
{
    if items.len() > 0 {
        lemma_items_length(items.drop_last());
        lemma_encoding_tag(items.last());
    }
}

/// The wire forms of the entries of a mapping take at least one byte each.
pub proof fn lemma_entries_length(entries: Seq<(Seq<char>, ValueModel)>)
    ensures
        encoding_of_entries(entries).len() >= entries.len(),
    decreases entries.len(),
{
    if entries.len() > 0 {
        lemma_entries_length(entries.drop_last());
        lemma_encoding_tag(entries.last().1);
        assert(encoding_of_entry(entries.last()).len() >= encoding(entries.last().1).len());
    }
}

/// What it takes for the bytes of `s` from `pos` on to start with the wire
/// form of `v`, kind by kind.
pub proof fn lemma_reading_shape(s: Seq<u8>, pos: int, v: ValueModel)
    requires
        0 <= pos <= s.len(),
        fits(v),
        starts_with(s.skip(pos), encoding(v)),
    ensures
        pos < s.len(),
        pos + encoding(v).len() <= s.len(),
        s.subrange(pos, pos + encoding(v).len()) == encoding(v),
        match v {
            ValueModel::Null => s[pos] == 0,
            ValueModel::Bool(b) => s[pos] == 1 && pos + 1 < s.len() && s[pos + 1] == if b {
                1u8
            } else {
                0u8
            },
            ValueModel::Number(n) => s[pos] == 2 && pos + 10 <= s.len() && s.subrange(
                pos + 1,
                pos + 10,
            ) == number_bytes(n),
            ValueModel::Text(t) => s[pos] == 3 && starts_with(s.skip(pos + 1), text_bytes(t)),
            ValueModel::Bytes(b) => {
                &&& s[pos] == 4
                &&& pos + 9 + b.len() <= s.len()
                &&& s.subrange(pos + 1, pos + 9) == size_bytes(b.len())
                &&& s.subrange(pos + 9, pos + 9 + b.len()) == b
            },
            ValueModel::Array(items) => {
                &&& s[pos] == 5
                &&& pos + 9 <= s.len()
                &&& s.subrange(pos + 1, pos + 9) == size_bytes(items.len())
                &&& starts_with(s.skip(pos + 9), encoding_of_items(items))
            },
            ValueModel::Mapping(entries) => {
                &&& s[pos] == 6
                &&& pos + 9 <= s.len()
                &&& s.subrange(pos + 1, pos + 9) == size_bytes(entries.len())
                &&& starts_with(s.skip(pos + 9), encoding_of_entries(entries))
            },
            ValueModel::Document(inner) => s[pos] == 7 && starts_with(
                s.skip(pos + 1),
                encoding(*inner),
            ),
        },
{
    let e = encoding(v);
    let from = s.skip(pos);
    lemma_encoding_tag(v);
    lemma_auto_spec_u64_to_from_le_bytes();
    assert(from.take(e.len() as int) =~= s.subrange(pos, pos + e.len()));
    assert(e[0] == s[pos]);
    assert(from.skip(1) =~= s.skip(pos + 1));
    match v {
        ValueModel::Null => {},
        ValueModel::Bool(b) => {
            assert(e[1] == s[pos + 1]);
        },
        ValueModel::Number(n) => {
            lemma_number_bytes(n, n);
            lemma_starts_with_parts(from, seq![2u8], number_bytes(n));
            assert(from.skip(1).take(9) =~= s.subrange(pos + 1, pos + 10));
        },
        ValueModel::Text(t) => {
            lemma_starts_with_parts(from, seq![3u8], text_bytes(t));
        },
        ValueModel::Bytes(b) => {
            assert(e =~= seq![4u8] + (size_bytes(b.len()) + b));
            lemma_starts_with_parts(from, seq![4u8], size_bytes(b.len()) + b);
            lemma_starts_with_parts(from.skip(1), size_bytes(b.len()), b);
            assert(from.skip(1).take(8) =~= s.subrange(pos + 1, pos + 9));
            assert(from.skip(1).skip(8).take(b.len() as int) =~= s.subrange(
                pos + 9,
                pos + 9 + b.len(),
            ));
        },
        ValueModel::Array(items) => {
            assert(e =~= seq![5u8] + (size_bytes(items.len()) + encoding_of_items(items)));
            lemma_starts_with_parts(
                from,
                seq![5u8],
                size_bytes(items.len()) + encoding_of_items(items),
            );
            lemma_starts_with_parts(
                from.skip(1),
                size_bytes(items.len()),
                encoding_of_items(items),
            );
            assert(from.skip(1).take(8) =~= s.subrange(pos + 1, pos + 9));
            assert(from.skip(1).skip(8) =~= s.skip(pos + 9));
        },
        ValueModel::Mapping(entries) => {
            assert(e =~= seq![6u8] + (size_bytes(entries.len()) + encoding_of_entries(entries)));
            lemma_starts_with_parts(
                from,
                seq![6u8],
                size_bytes(entries.len()) + encoding_of_entries(entries),
            );
            lemma_starts_with_parts(
                from.skip(1),
                size_bytes(entries.len()),
                encoding_of_entries(entries),
            );
            assert(from.skip(1).take(8) =~= s.subrange(pos + 1, pos + 9));
            assert(from.skip(1).skip(8) =~= s.skip(pos + 9));
        },
        ValueModel::Document(inner) => {
            lemma_starts_with_parts(from, seq![7u8], encoding(*inner));
        },
    }
}

/// What it takes for the bytes of `s` from `pos` on to start with a text.
pub proof fn lemma_text_shape(s: Seq<u8>, pos: int, t: Seq<char>)
    requires
        0 <= pos <= s.len(),
        encode_utf8(t).len() <= u64::MAX,
        starts_with(s.skip(pos), text_bytes(t)),
    ensures
        pos + 8 + encode_utf8(t).len() <= s.len(),
        s.subrange(pos, pos + 8) == size_bytes(encode_utf8(t).len()),
        s.subrange(pos + 8, pos + 8 + encode_utf8(t).len()) == encode_utf8(t),
{
    let from = s.skip(pos);
    let u = encode_utf8(t);
    lemma_auto_spec_u64_to_from_le_bytes();
    lemma_starts_with_parts(from, size_bytes(u.len()), u);
    assert(from.take(8) =~= s.subrange(pos, pos + 8));
    assert(from.skip(8).take(u.len() as int) =~= s.subrange(pos + 8, pos + 8 + u.len()));
}

/// Bytes that hold a wire form from `pos` to `end` start with it from
/// `pos` on.
pub proof fn lemma_reads_range(s: Seq<u8>, pos: int, end: int, e: Seq<u8>)
    requires
        0 <= pos <= end <= s.len(),
        s.subrange(pos, end) == e,
    ensures
        starts_with(s.skip(pos), e),
{
    assert(s.skip(pos).take(e.len() as int) =~= s.subrange(pos, end));
}

/// The values that a vector holds.
pub open spec fn models(v: Seq<Value>) -> Seq<ValueModel> {
    Seq::new(v.len(), |i: int| v[i]@)
}

/// The entries that a vector holds.
pub open spec fn entry_models(v: Seq<(String, Value)>) -> Seq<(Seq<char>, ValueModel)> {
    Seq::new(v.len(), |i: int| (v[i].0@, v[i].1@))
}

/// Bytes that announce an array and do not hold its next item hold no
/// array.
pub proof fn lemma_item_missing(
    s: Seq<u8>,
    pos: int,
    count: nat,
    parsed: Seq<ValueModel>,
    cur: int,
)
    requires
        0 <= pos,
        pos + 9 <= cur <= s.len(),
        s[pos] == 5,
        count <= u64::MAX,
        s.subrange(pos + 1, pos + 9) == size_bytes(count),
        parsed.len() < count,
        forall|i: int| 0 <= i < parsed.len() ==> fits(#[trigger] parsed[i]),
        s.subrange(pos + 9, cur) == encoding_of_items(parsed),
        !readable(s, cur),
    ensures
        !readable(s, pos),
{
    if readable(s, pos) {
        let m = choose|m: ValueModel| reads_as(s, pos, m);
        lemma_reading_shape(s, pos, m);
        let items = m->Array_0;
        lemma_size_bytes(items.len(), count);
        let from = s.skip(pos + 9);
        let k = parsed.len() as int;
        lemma_reads_range(s, pos + 9, cur, encoding_of_items(parsed));
        lemma_one_reading_of_items(items, parsed, from, k);
        assert(parsed.take(k) =~= parsed);
        lemma_items_prefix(items, k);
        lemma_items_prefix(items, k + 1);
        lemma_starts_with_trans(
            from,
            encoding_of_items(items),
            encoding_of_items(items.take(k + 1)),
        );
        lemma_starts_with_parts(from, encoding_of_items(parsed), encoding(items[k]));
        assert(from.skip(encoding_of_items(parsed).len() as int) =~= s.skip(cur));
        assert(reads_as(s, cur, items[k]));
    }
}

/// Bytes that announce a mapping and do not hold its next entry hold no
/// mapping.
pub proof fn lemma_entry_missing(
    s: Seq<u8>,
    pos: int,
    count: nat,
    parsed: Seq<(Seq<char>, ValueModel)>,
    cur: int,
)
    requires
        0 <= pos,
        pos + 9 <= cur <= s.len(),
        s[pos] == 6,
        count <= u64::MAX,
        s.subrange(pos + 1, pos + 9) == size_bytes(count),
        parsed.len() < count,
        forall|i: int|
            0 <= i < parsed.len() ==> encode_utf8((#[trigger] parsed[i]).0).len() <= u64::MAX
                && fits(parsed[i].1),
        s.subrange(pos + 9, cur) == encoding_of_entries(parsed),
        forall|e: (Seq<char>, ValueModel)|
            encode_utf8(e.0).len() <= u64::MAX && fits(e.1) && e.1.wf() ==> !starts_with(
                s.skip(cur),
                #[trigger] encoding_of_entry(e),
            ),
    ensures
        !readable(s, pos),
{
    if readable(s, pos) {
        let m = choose|m: ValueModel| reads_as(s, pos, m);
        lemma_reading_shape(s, pos, m);
        let entries = m->Mapping_0;
        lemma_size_bytes(entries.len(), count);
        let from = s.skip(pos + 9);
        let k = parsed.len() as int;
        lemma_reads_range(s, pos + 9, cur, encoding_of_entries(parsed));
        lemma_one_reading_of_entries(entries, parsed, from, k);
        assert(parsed.take(k) =~= parsed);
        lemma_entries_prefix(entries, k);
        lemma_entries_prefix(entries, k + 1);
        lemma_starts_with_trans(
            from,
            encoding_of_entries(entries),
            encoding_of_entries(entries.take(k + 1)),
        );
        lemma_starts_with_parts(from, encoding_of_entries(parsed), encoding_of_entry(entries[k]));
        assert(from.skip(encoding_of_entries(parsed).len() as int) =~= s.skip(cur));
        assert(entries[k].1.wf());
    }
}

/// Bytes that hold a mapping with a key twice hold no well-formed value.
pub proof fn lemma_key_twice(s: Seq<u8>, pos: int, parsed: Seq<(Seq<char>, ValueModel)>, end: int)
    requires
        0 <= pos,
        pos + 9 <= end <= s.len(),
        s[pos] == 6,
        parsed.len() <= u64::MAX,
        s.subrange(pos + 1, pos + 9) == size_bytes(parsed.len()),
        forall|i: int|
            0 <= i < parsed.len() ==> encode_utf8((#[trigger] parsed[i]).0).len() <= u64::MAX
                && fits(parsed[i].1),
        s.subrange(pos + 9, end) == encoding_of_entries(parsed),
        !distinct_keys(parsed),
    ensures
        !readable(s, pos),
{
    if readable(s, pos) {
        let m = choose|m: ValueModel| reads_as(s, pos, m);
        lemma_reading_shape(s, pos, m);
        let entries = m->Mapping_0;
        lemma_size_bytes(entries.len(), parsed.len());
        let from = s.skip(pos + 9);
        lemma_reads_range(s, pos + 9, end, encoding_of_entries(parsed));
        lemma_one_reading_of_entries(entries, parsed, from, parsed.len() as int);
        assert(parsed.take(parsed.len() as int) =~= parsed);
        assert(entries.take(entries.len() as int) =~= entries);
    }
}

} // verus!
