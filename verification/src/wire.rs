//! Writing values in their wire form and reading them back.

use crate::value::{distinct_keys, Value, ValueModel};
use crate::wire_format::{
    decoded, encoding, encoding_of_entries, encoding_of_entry, encoding_of_items, entry_models,
    fits, is_wire_form, lemma_entries_length, lemma_entries_prefix, lemma_entry_missing,
    lemma_item_missing, lemma_items_length, lemma_items_prefix, lemma_key_twice,
    lemma_one_reading, lemma_one_text, lemma_reading_shape, lemma_reads_range, lemma_size_bytes,
    lemma_starts_with_parts, lemma_starts_with_self, lemma_text_shape, models, number_bytes,
    readable, reads_as, size_bytes, starts_with, text_bytes,
};
use vstd::bytes::{
    lemma_auto_spec_u64_to_from_le_bytes, spec_u64_from_le_bytes, spec_u64_to_le_bytes,
    u64_from_le_bytes, u64_to_le_bytes,
};
use vstd::prelude::*;
use vstd::slice::slice_subrange;
use vstd::utf8::{encode_utf8, valid_utf8};

verus! {

/// Bytes that are no wire form.
#[derive(Clone, Copy, Debug, PartialEq, Eq, Structural)]
pub struct WireError;

impl WireError {
    /// A message for a person to read.
    pub fn message(&self) -> (r: String)
        ensures
            r@ == "bytes are not the wire form of a value"@,
    {
        "bytes are not the wire form of a value".to_owned()
    }
}

/// The text that bytes are in UTF-8.
///
/// Calls `String::from_utf8` of the standard library. The contract claims
/// that a text comes back where the bytes are valid UTF-8 and then has
/// exactly these bytes, and that nothing comes back where they are not.
#[verifier::external_body]
fn text_from_utf8(bytes: Vec<u8>) -> (r: Option<String>)
    ensures
        match r {
            Some(s) => encode_utf8(s@) == bytes@,
            None => !valid_utf8(bytes@),
        },
{
    match String::from_utf8(bytes) {
        Ok(s) => Some(s),
        Err(_) => None,
    }
}

/// Writes a size.
fn put_size(out: &mut Vec<u8>, n: usize)
    ensures
        final(out)@ == old(out)@ + size_bytes(n as nat),
{
    let ghost before = out@;
    let bytes = u64_to_le_bytes(n as u64);
    out.extend_from_slice(bytes.as_slice());
    assert(out@ =~= before + size_bytes(n as nat));
}

/// Writes a text.
fn put_text(out: &mut Vec<u8>, s: &str)
    ensures
        final(out)@ == old(out)@ + text_bytes(s@),
        encode_utf8(s@).len() <= u64::MAX,
{
    let ghost before = out@;
    let bytes = s.as_bytes();
    put_size(out, bytes.len());
    out.extend_from_slice(bytes);
    assert(out@ =~= before + text_bytes(s@));
}

/// Writes the wire form of a value behind what `out` holds.
fn encode_into(value: &Value, out: &mut Vec<u8>)
    ensures
        final(out)@ == old(out)@ + encoding(value@),
        fits(value@),
    decreases value,
{
    let ghost before = out@;
    match value {
        Value::Null => {
            out.push(0);
            assert(out@ =~= before + encoding(value@));
        },
        Value::Bool(b) => {
            out.push(1);
            out.push(if *b { 1 } else { 0 });
            assert(out@ =~= before + encoding(value@));
        },
        Value::Number(n) => {
            out.push(2);
            if *n >= 0 {
                out.push(0);
                let bytes = u64_to_le_bytes(*n as u64);
                out.extend_from_slice(bytes.as_slice());
            } else {
                out.push(1);
                let less: i64 = -(*n + 1);
                let bytes = u64_to_le_bytes(less as u64);
                out.extend_from_slice(bytes.as_slice());
            }
            assert(out@ =~= before + encoding(value@));
        },
        Value::String(s) => {
            out.push(3);
            put_text(out, s.as_str());
            assert(out@ =~= before + encoding(value@));
        },
        Value::Bytes(b) => {
            out.push(4);
            put_size(out, b.len());
            out.extend_from_slice(b.as_slice());
            assert(out@ =~= before + encoding(value@));
        },
        Value::Array(items) => {
            out.push(5);
            put_size(out, items.len());
            let ghost head = out@;
            let ghost all = value@->Array_0;
            let mut i: usize = 0;
            proof {
                assert(all.take(0) =~= Seq::<ValueModel>::empty());
            }
            while i < items.len()
                invariant
                    decreases_to!(*value => *items),
                    i <= items.len(),
                    all.len() == items.len(),
                    forall|j: int| 0 <= j < items.len() ==> all[j] == (#[trigger] items@[j])@,
                    out@ == head + encoding_of_items(all.take(i as int)),
                    forall|j: int| 0 <= j < i ==> fits(#[trigger] all[j]),
                decreases items.len() - i,
            {
                proof {
                    assert(decreases_to!(*items => items[i as int]));
                    lemma_items_prefix(all, i as int);
                }
                encode_into(&items[i], out);
                i += 1;
                proof {
                    assert(out@ =~= head + encoding_of_items(all.take(i as int)));
                }
            }
            proof {
                assert(all.take(items.len() as int) =~= all);
                assert(out@ =~= before + encoding(value@));
            }
        },
        Value::Mapping(entries) => {
            out.push(6);
            put_size(out, entries.len());
            let ghost head = out@;
            let ghost all = value@->Mapping_0;
            let mut i: usize = 0;
            proof {
                assert(all.take(0) =~= Seq::<(Seq<char>, ValueModel)>::empty());
            }
            while i < entries.len()
                invariant
                    decreases_to!(*value => *entries),
                    i <= entries.len(),
                    all.len() == entries.len(),
                    forall|j: int|
                        0 <= j < entries.len() ==> all[j] == ((#[trigger] entries@[j]).0@,
                            entries@[j].1@),
                    out@ == head + encoding_of_entries(all.take(i as int)),
                    forall|j: int|
                        0 <= j < i ==> encode_utf8((#[trigger] all[j]).0).len() <= u64::MAX
                            && fits(all[j].1),
                decreases entries.len() - i,
            {
                proof {
                    assert(decreases_to!(*entries => entries[i as int]));
                    lemma_entries_prefix(all, i as int);
                }
                put_text(out, entries[i].0.as_str());
                encode_into(&entries[i].1, out);
                i += 1;
                proof {
                    assert(out@ =~= head + encoding_of_entries(all.take(i as int)));
                }
            }
            proof {
                assert(all.take(entries.len() as int) =~= all);
                assert(out@ =~= before + encoding(value@));
            }
        },
        Value::Document(inner) => {
            out.push(7);
            encode_into(&**inner, out);
            assert(out@ =~= before + encoding(value@));
        },
    }
}

/// The wire form of a value.
pub fn encode(value: &Value) -> (bytes: Vec<u8>)
    ensures
        bytes@ == encoding(value@),
        fits(value@),
{
    let mut out: Vec<u8> = Vec::new();
    encode_into(value, &mut out);
    assert(out@ =~= encoding(value@));
    out
}

/// Reads a size.
fn get_size(bytes: &[u8], pos: usize) -> (r: Option<u64>)
    requires
        pos <= bytes.len(),
    ensures
        match r {
            Some(n) => pos + 8 <= bytes.len() && bytes@.subrange(pos as int, pos + 8)
                == size_bytes(n as nat),
            None => pos + 8 > bytes.len(),
        },
{
    if bytes.len() - pos < 8 {
        return None;
    }
    let part = slice_subrange(bytes, pos, pos + 8);
    let n = u64_from_le_bytes(part);
    proof {
        lemma_auto_spec_u64_to_from_le_bytes();
        assert(spec_u64_to_le_bytes(spec_u64_from_le_bytes(part@)) == part@);
    }
    Some(n)
}

/// Copies a range of bytes.
fn copy_range(bytes: &[u8], from: usize, to: usize) -> (r: Vec<u8>)
    requires
        from <= to <= bytes.len(),
    ensures
        r@ == bytes@.subrange(from as int, to as int),
{
    let mut r: Vec<u8> = Vec::new();
    let part = slice_subrange(bytes, from, to);
    r.extend_from_slice(part);
    assert(r@ =~= bytes@.subrange(from as int, to as int));
    r
}

/// Reads a text: its size, and as many bytes of UTF-8.
fn get_text(bytes: &[u8], pos: usize) -> (r: Option<(String, usize)>)
    requires
        pos <= bytes.len(),
    ensures
        match r {
            Some((t, end)) => {
                &&& pos + 8 <= end <= bytes.len()
                &&& encode_utf8(t@).len() <= u64::MAX
                &&& bytes@.subrange(pos as int, end as int) == text_bytes(t@)
            },
            None => forall|t: Seq<char>|
                encode_utf8(t).len() <= u64::MAX ==> !starts_with(
                    bytes@.skip(pos as int),
                    #[trigger] text_bytes(t),
                ),
        },
{
    let ghost s = bytes@;
    let size = match get_size(bytes, pos) {
        Some(n) => n,
        None => {
            proof {
                assert forall|t: Seq<char>| encode_utf8(t).len() <= u64::MAX implies !starts_with(
                    s.skip(pos as int),
                    #[trigger] text_bytes(t),
                ) by {
                    if starts_with(s.skip(pos as int), text_bytes(t)) {
                        lemma_text_shape(s, pos as int, t);
                    }
                }
            }
            return None;
        },
    };
    let start = pos + 8;
    if size > (bytes.len() - start) as u64 {
        proof {
            assert forall|t: Seq<char>| encode_utf8(t).len() <= u64::MAX implies !starts_with(
                s.skip(pos as int),
                #[trigger] text_bytes(t),
            ) by {
                if starts_with(s.skip(pos as int), text_bytes(t)) {
                    lemma_text_shape(s, pos as int, t);
                    lemma_size_bytes(encode_utf8(t).len(), size as nat);
                }
            }
        }
        return None;
    }
    let end = start + size as usize;
    let raw = copy_range(bytes, start, end);
    match text_from_utf8(raw) {
        Some(t) => {
            proof {
                assert(s.subrange(pos as int, end as int) =~= s.subrange(pos as int, start as int)
                    + s.subrange(start as int, end as int));
            }
            Some((t, end))
        },
        None => {
            proof {
                assert forall|t: Seq<char>| encode_utf8(t).len() <= u64::MAX implies !starts_with(
                    s.skip(pos as int),
                    #[trigger] text_bytes(t),
                ) by {
                    if starts_with(s.skip(pos as int), text_bytes(t)) {
                        lemma_text_shape(s, pos as int, t);
                        lemma_size_bytes(encode_utf8(t).len(), size as nat);
                        vstd::utf8::encode_utf8_valid_utf8(t);
                    }
                }
            }
            None
        },
    }
}

/// Reads the value whose wire form starts at `pos`, and says where it
/// ends.
fn decode_at(bytes: &[u8], pos: usize) -> (r: Result<(Value, usize), WireError>)
    requires
        pos <= bytes.len(),
    ensures
        match r {
            Ok((v, end)) => {
                &&& pos < end <= bytes.len()
                &&& v@.wf()
                &&& fits(v@)
                &&& bytes@.subrange(pos as int, end as int) == encoding(v@)
            },
            Err(_) => !readable(bytes@, pos as int),
        },
    decreases bytes.len() - pos, 0nat,
{
    let ghost s = bytes@;
    if pos >= bytes.len() {
        proof {
            if readable(s, pos as int) {
                let m = choose|m: ValueModel| reads_as(s, pos as int, m);
                lemma_reading_shape(s, pos as int, m);
            }
        }
        return Err(WireError);
    }
    let tag = bytes[pos];
    if tag == 0 {
        let v = Value::Null;
        assert(s.subrange(pos as int, pos + 1) =~= encoding(v@));
        Ok((v, pos + 1))
    } else if tag == 1 {
        if bytes.len() - pos < 2 || bytes[pos + 1] > 1 {
            proof {
                if readable(s, pos as int) {
                    let m = choose|m: ValueModel| reads_as(s, pos as int, m);
                    lemma_reading_shape(s, pos as int, m);
                }
            }
            return Err(WireError);
        }
        let v = Value::Bool(bytes[pos + 1] == 1);
        assert(s.subrange(pos as int, pos + 2) =~= encoding(v@));
        Ok((v, pos + 2))
    } else if tag == 2 {
        decode_number(bytes, pos)
    } else if tag == 3 {
        match get_text(bytes, pos + 1) {
            Some((t, end)) => {
                let v = Value::String(t);
                assert(s.subrange(pos as int, end as int) =~= seq![3u8] + s.subrange(
                    pos + 1,
                    end as int,
                ));
                Ok((v, end))
            },
            None => {
                proof {
                    if readable(s, pos as int) {
                        let m = choose|m: ValueModel| reads_as(s, pos as int, m);
                        lemma_reading_shape(s, pos as int, m);
                        assert(starts_with(s.skip(pos + 1), text_bytes(m->Text_0)));
                    }
                }
                Err(WireError)
            },
        }
    } else if tag == 4 {
        decode_bytes(bytes, pos)
    } else if tag == 5 {
        decode_array(bytes, pos)
    } else if tag == 6 {
        decode_mapping(bytes, pos)
    } else if tag == 7 {
        match decode_at(bytes, pos + 1) {
            Ok((inner, end)) => {
                let v = Value::Document(Box::new(inner));
                assert(s.subrange(pos as int, end as int) =~= seq![7u8] + s.subrange(
                    pos + 1,
                    end as int,
                ));
                Ok((v, end))
            },
            Err(e) => {
                proof {
                    if readable(s, pos as int) {
                        let m = choose|m: ValueModel| reads_as(s, pos as int, m);
                        lemma_reading_shape(s, pos as int, m);
                        assert(reads_as(s, pos + 1, *m->Document_0));
                    }
                }
                Err(e)
            },
        }
    } else {
        proof {
            if readable(s, pos as int) {
                let m = choose|m: ValueModel| reads_as(s, pos as int, m);
                lemma_reading_shape(s, pos as int, m);
            }
        }
        Err(WireError)
    }
}

/// Reads a number.
fn decode_number(bytes: &[u8], pos: usize) -> (r: Result<(Value, usize), WireError>)
    requires
        pos < bytes.len(),
        bytes@[pos as int] == 2,
    ensures
        match r {
            Ok((v, end)) => {
                &&& pos < end <= bytes.len()
                &&& v@.wf()
                &&& fits(v@)
                &&& bytes@.subrange(pos as int, end as int) == encoding(v@)
            },
            Err(_) => !readable(bytes@, pos as int),
        },
{
    let ghost s = bytes@;
    if bytes.len() - pos < 10 || bytes[pos + 1] > 1 {
        proof {
            if readable(s, pos as int) {
                let m = choose|m: ValueModel| reads_as(s, pos as int, m);
                lemma_reading_shape(s, pos as int, m);
                assert(number_bytes(m->Number_0)[0] == s.subrange(pos + 1, pos + 10)[0]);
            }
        }
        return Err(WireError);
    }
    let negative = bytes[pos + 1] == 1;
    let distance = match get_size(bytes, pos + 2) {
        Some(d) => d,
        None => {
            return Err(WireError);
        },
    };
    if distance > i64::MAX as u64 {
        proof {
            lemma_auto_spec_u64_to_from_le_bytes();
            if readable(s, pos as int) {
                let m = choose|m: ValueModel| reads_as(s, pos as int, m);
                lemma_reading_shape(s, pos as int, m);
                let n = m->Number_0;
                let nb = number_bytes(n);
                assert(nb.skip(1) =~= s.subrange(pos + 2, pos + 10));
                if n >= 0 {
                    assert(nb.skip(1) =~= spec_u64_to_le_bytes(n as u64));
                    assert(spec_u64_from_le_bytes(spec_u64_to_le_bytes(n as u64)) == n as u64);
                } else {
                    assert(nb.skip(1) =~= spec_u64_to_le_bytes((-(n + 1)) as u64));
                    assert(spec_u64_from_le_bytes(spec_u64_to_le_bytes((-(n + 1)) as u64)) == (
                    -(n + 1)) as u64);
                }
                assert(spec_u64_from_le_bytes(spec_u64_to_le_bytes(distance)) == distance);
            }
        }
        return Err(WireError);
    }
    let n: i64 = if negative {
        -(distance as i64) - 1
    } else {
        distance as i64
    };
    let v = Value::Number(n);
    proof {
        let nb = number_bytes(n as int);
        assert(s.subrange(pos as int, pos + 10) =~= seq![2u8] + nb) by {
            assert(s.subrange(pos + 2, pos + 10) == spec_u64_to_le_bytes(distance));
            if negative {
                assert((-(n + 1)) as u64 == distance);
            }
            assert forall|i: int| 0 <= i < 10 implies s.subrange(pos as int, pos + 10)[i] == (
            seq![2u8] + nb)[i] by {
                if i >= 2 {
                    assert(s.subrange(pos + 2, pos + 10)[i - 2] == s[pos + i]);
                }
            }
            lemma_auto_spec_u64_to_from_le_bytes();
        }
    }
    Ok((v, pos + 10))
}

/// Reads a run of bytes.
fn decode_bytes(bytes: &[u8], pos: usize) -> (r: Result<(Value, usize), WireError>)
    requires
        pos < bytes.len(),
        bytes@[pos as int] == 4,
    ensures
        match r {
            Ok((v, end)) => {
                &&& pos < end <= bytes.len()
                &&& v@.wf()
                &&& fits(v@)
                &&& bytes@.subrange(pos as int, end as int) == encoding(v@)
            },
            Err(_) => !readable(bytes@, pos as int),
        },
{
    let ghost s = bytes@;
    let size = match get_size(bytes, pos + 1) {
        Some(n) => n,
        None => {
            proof {
                if readable(s, pos as int) {
                    let m = choose|m: ValueModel| reads_as(s, pos as int, m);
                    lemma_reading_shape(s, pos as int, m);
                }
            }
            return Err(WireError);
        },
    };
    let start = pos + 9;
    if size > (bytes.len() - start) as u64 {
        proof {
            if readable(s, pos as int) {
                let m = choose|m: ValueModel| reads_as(s, pos as int, m);
                lemma_reading_shape(s, pos as int, m);
                lemma_size_bytes(m->Bytes_0.len(), size as nat);
            }
        }
        return Err(WireError);
    }
    let end = start + size as usize;
    let raw = copy_range(bytes, start, end);
    let v = Value::Bytes(raw);
    proof {
        assert(s.subrange(pos as int, end as int) =~= seq![4u8] + size_bytes(size as nat)
            + s.subrange(start as int, end as int)) by {
            assert forall|i: int| 0 <= i < end - pos implies s.subrange(pos as int, end as int)[i]
                == (seq![4u8] + size_bytes(size as nat) + s.subrange(
                start as int,
                end as int,
            ))[i] by {
                lemma_size_bytes(size as nat, size as nat);
                if 1 <= i < 9 {
                    assert(s.subrange(pos + 1, pos + 9)[i - 1] == s[pos + i]);
                }
            }
            lemma_size_bytes(size as nat, size as nat);
        }
    }
    Ok((v, end))
}

/// Reads an array.
fn decode_array(bytes: &[u8], pos: usize) -> (r: Result<(Value, usize), WireError>)
    requires
        pos < bytes.len(),
        bytes@[pos as int] == 5,
    ensures
        match r {
            Ok((v, end)) => {
                &&& pos < end <= bytes.len()
                &&& v@.wf()
                &&& fits(v@)
                &&& bytes@.subrange(pos as int, end as int) == encoding(v@)
            },
            Err(_) => !readable(bytes@, pos as int),
        },
    decreases bytes.len() - pos - 1, 1nat,
{
    let ghost s = bytes@;
    let count = match get_size(bytes, pos + 1) {
        Some(n) => n,
        None => {
            proof {
                if readable(s, pos as int) {
                    let m = choose|m: ValueModel| reads_as(s, pos as int, m);
                    lemma_reading_shape(s, pos as int, m);
                }
            }
            return Err(WireError);
        },
    };
    let start = pos + 9;
    if count > (bytes.len() - start) as u64 {
        proof {
            if readable(s, pos as int) {
                let m = choose|m: ValueModel| reads_as(s, pos as int, m);
                lemma_reading_shape(s, pos as int, m);
                lemma_size_bytes(m->Array_0.len(), count as nat);
                lemma_items_length(m->Array_0);
            }
        }
        return Err(WireError);
    }
    let mut items: Vec<Value> = Vec::new();
    let mut cur = start;
    proof {
        assert(s.subrange(start as int, cur as int) =~= encoding_of_items(models(items@)));
    }
    while (items.len() as u64) < count
        invariant
            s == bytes@,
            pos < bytes.len(),
            s[pos as int] == 5,
            start == pos + 9,
            start <= cur <= bytes.len(),
            s.subrange(pos + 1, pos + 9) == size_bytes(count as nat),
            count <= bytes.len() - start,
            items@.len() <= count,
            forall|i: int|
                0 <= i < items@.len() ==> (#[trigger] items@[i])@.wf() && fits(items@[i]@),
            s.subrange(start as int, cur as int) == encoding_of_items(models(items@)),
        decreases count - items@.len(),
    {
        let ghost parsed = models(items@);
        match decode_at(bytes, cur) {
            Ok((v, end)) => {
                items.push(v);
                proof {
                    assert(models(items@) =~= parsed.push(v@));
                    assert(models(items@).drop_last() =~= parsed);
                    assert(s.subrange(start as int, end as int) =~= s.subrange(
                        start as int,
                        cur as int,
                    ) + s.subrange(cur as int, end as int));
                }
                cur = end;
            },
            Err(e) => {
                proof {
                    lemma_item_missing(s, pos as int, count as nat, parsed, cur as int);
                }
                return Err(e);
            },
        }
    }
    let ghost parsed = models(items@);
    let v = Value::Array(items);
    proof {
        assert(v@->Array_0 =~= parsed);
        lemma_size_bytes(count as nat, count as nat);
        assert(s.subrange(pos as int, cur as int) =~= seq![5u8] + size_bytes(count as nat)
            + encoding_of_items(parsed)) by {
            assert forall|i: int| 0 <= i < cur - pos implies s.subrange(pos as int, cur as int)[i]
                == (seq![5u8] + size_bytes(count as nat) + encoding_of_items(parsed))[i] by {
                if 1 <= i < 9 {
                    assert(s.subrange(pos + 1, pos + 9)[i - 1] == s[pos + i]);
                } else if i >= 9 {
                    assert(s.subrange(start as int, cur as int)[i - 9] == s[pos + i]);
                }
            }
        }
    }
    Ok((v, cur))
}

/// Whether no key occurs twice among the entries.
fn keys_are_distinct(entries: &Vec<(String, Value)>) -> (r: bool)
    ensures
        r == distinct_keys(entry_models(entries@)),
{
    let ghost all = entry_models(entries@);
    let mut j: usize = 0;
    while j < entries.len()
        invariant
            j <= entries.len(),
            all == entry_models(entries@),
            forall|a: int, b: int|
                0 <= a < b < j ==> (#[trigger] all[a]).0 != (#[trigger] all[b]).0,
        decreases entries.len() - j,
    {
        let mut i: usize = 0;
        while i < j
            invariant
                i <= j < entries.len(),
                all == entry_models(entries@),
                forall|a: int| 0 <= a < i ==> (#[trigger] all[a]).0 != all[j as int].0,
            decreases j - i,
        {
            if crate::text::same_text(entries[i].0.as_str(), entries[j].0.as_str()) {
                assert(all[i as int].0 == all[j as int].0);
                return false;
            }
            i += 1;
        }
        j += 1;
    }
    true
}

/// Reads a mapping.
fn decode_mapping(bytes: &[u8], pos: usize) -> (r: Result<(Value, usize), WireError>)
    requires
        pos < bytes.len(),
        bytes@[pos as int] == 6,
    ensures
        match r {
            Ok((v, end)) => {
                &&& pos < end <= bytes.len()
                &&& v@.wf()
                &&& fits(v@)
                &&& bytes@.subrange(pos as int, end as int) == encoding(v@)
            },
            Err(_) => !readable(bytes@, pos as int),
        },
    decreases bytes.len() - pos - 1, 1nat,
{
    let ghost s = bytes@;
    let count = match get_size(bytes, pos + 1) {
        Some(n) => n,
        None => {
            proof {
                if readable(s, pos as int) {
                    let m = choose|m: ValueModel| reads_as(s, pos as int, m);
                    lemma_reading_shape(s, pos as int, m);
                }
            }
            return Err(WireError);
        },
    };
    let start = pos + 9;
    if count > (bytes.len() - start) as u64 {
        proof {
            if readable(s, pos as int) {
                let m = choose|m: ValueModel| reads_as(s, pos as int, m);
                lemma_reading_shape(s, pos as int, m);
                lemma_size_bytes(m->Mapping_0.len(), count as nat);
                lemma_entries_length(m->Mapping_0);
            }
        }
        return Err(WireError);
    }
    let mut entries: Vec<(String, Value)> = Vec::new();
    let mut cur = start;
    proof {
        assert(s.subrange(start as int, cur as int) =~= encoding_of_entries(
            entry_models(entries@),
        ));
    }
    while (entries.len() as u64) < count
        invariant
            s == bytes@,
            pos < bytes.len(),
            s[pos as int] == 6,
            start == pos + 9,
            start <= cur <= bytes.len(),
            s.subrange(pos + 1, pos + 9) == size_bytes(count as nat),
            count <= bytes.len() - start,
            entries@.len() <= count,
            forall|i: int|
                0 <= i < entries@.len() ==> (#[trigger] entries@[i]).1@.wf() && fits(
                    entries@[i].1@,
                ) && encode_utf8(entries@[i].0@).len() <= u64::MAX,
            s.subrange(start as int, cur as int) == encoding_of_entries(entry_models(entries@)),
        decreases count - entries@.len(),
    {
        let ghost parsed = entry_models(entries@);
        let (key, mid) = match get_text(bytes, cur) {
            Some(read) => read,
            None => {
                proof {
                    assert forall|e: (Seq<char>, ValueModel)|
                        encode_utf8(e.0).len() <= u64::MAX && fits(e.1)
                            && e.1.wf() implies !starts_with(
                        s.skip(cur as int),
                        #[trigger] encoding_of_entry(e),
                    ) by {
                        if starts_with(s.skip(cur as int), encoding_of_entry(e)) {
                            lemma_starts_with_parts(
                                s.skip(cur as int),
                                text_bytes(e.0),
                                encoding(e.1),
                            );
                        }
                    }
                    lemma_entry_missing(s, pos as int, count as nat, parsed, cur as int);
                }
                return Err(WireError);
            },
        };
        match decode_at(bytes, mid) {
            Ok((v, end)) => {
                entries.push((key, v));
                proof {
                    assert(entry_models(entries@) =~= parsed.push((key@, v@)));
                    assert(entry_models(entries@).drop_last() =~= parsed);
                    assert(s.subrange(start as int, end as int) =~= s.subrange(
                        start as int,
                        cur as int,
                    ) + s.subrange(cur as int, mid as int) + s.subrange(mid as int, end as int));
                    assert(encoding_of_entry((key@, v@)) =~= s.subrange(cur as int, mid as int)
                        + s.subrange(mid as int, end as int));
                }
                cur = end;
            },
            Err(e) => {
                proof {
                    assert forall|e: (Seq<char>, ValueModel)|
                        encode_utf8(e.0).len() <= u64::MAX && fits(e.1)
                            && e.1.wf() implies !starts_with(
                        s.skip(cur as int),
                        #[trigger] encoding_of_entry(e),
                    ) by {
                        if starts_with(s.skip(cur as int), encoding_of_entry(e)) {
                            let from = s.skip(cur as int);
                            lemma_starts_with_parts(from, text_bytes(e.0), encoding(e.1));
                            lemma_reads_range(s, cur as int, mid as int, text_bytes(key@));
                            lemma_one_text(e.0, key@, from);
                            assert(from.skip(text_bytes(key@).len() as int) =~= s.skip(
                                mid as int,
                            ));
                            assert(reads_as(s, mid as int, e.1));
                        }
                    }
                    lemma_entry_missing(s, pos as int, count as nat, parsed, cur as int);
                }
                return Err(e);
            },
        }
    }
    let ghost parsed = entry_models(entries@);
    if !keys_are_distinct(&entries) {
        proof {
            lemma_key_twice(s, pos as int, parsed, cur as int);
        }
        return Err(WireError);
    }
    let v = Value::Mapping(entries);
    proof {
        assert(v@->Mapping_0 =~= parsed);
        lemma_size_bytes(count as nat, count as nat);
        assert(s.subrange(pos as int, cur as int) =~= seq![6u8] + size_bytes(count as nat)
            + encoding_of_entries(parsed)) by {
            assert forall|i: int| 0 <= i < cur - pos implies s.subrange(pos as int, cur as int)[i]
                == (seq![6u8] + size_bytes(count as nat) + encoding_of_entries(parsed))[i] by {
                if 1 <= i < 9 {
                    assert(s.subrange(pos + 1, pos + 9)[i - 1] == s[pos + i]);
                } else if i >= 9 {
                    assert(s.subrange(start as int, cur as int)[i - 9] == s[pos + i]);
                }
            }
        }
    }
    Ok((v, cur))
}

/// Reads a value from its wire form. Bytes that are the wire form of no
/// well-formed value are refused; among them are bytes that go on behind
/// the end of a value, and mappings that hold a key twice.
pub fn decode(bytes: &[u8]) -> (r: Result<Value, WireError>)
    ensures
        match decoded(bytes@) {
            Some(v) => r matches Ok(w) && w@ == v,
            None => r is Err,
        },
{
    let ghost s = bytes@;
    match decode_at(bytes, 0) {
        Ok((v, end)) => {
            proof {
                lemma_reads_range(s, 0, end as int, encoding(v@));
                assert(s.skip(0) =~= s);
                if exists|w: ValueModel| is_wire_form(s, w) {
                    let w = choose|w: ValueModel| is_wire_form(s, w);
                    lemma_starts_with_self(s);
                    lemma_one_reading(w, v@, s);
                }
                if end == bytes.len() {
                    assert(s.subrange(0, end as int) =~= s);
                    assert(is_wire_form(s, v@));
                }
            }
            if end == bytes.len() {
                Ok(v)
            } else {
                Err(WireError)
            }
        },
        Err(e) => {
            proof {
                if exists|w: ValueModel| is_wire_form(s, w) {
                    let w = choose|w: ValueModel| is_wire_form(s, w);
                    lemma_starts_with_self(s);
                    assert(s.skip(0) =~= s);
                    assert(reads_as(s, 0, w));
                }
            }
            Err(e)
        },
    }
}

} // verus!
