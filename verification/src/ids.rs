//! Identifiers: random 128-bit ids and the text form in which they are
//! written.

use crate::text::chars_of;
use vstd::prelude::*;

verus! {

/// The digit of `d` in base 16, in lower case.
pub open spec fn hex_digit(d: int) -> char {
    if d == 0 {
        '0'
    } else if d == 1 {
        '1'
    } else if d == 2 {
        '2'
    } else if d == 3 {
        '3'
    } else if d == 4 {
        '4'
    } else if d == 5 {
        '5'
    } else if d == 6 {
        '6'
    } else if d == 7 {
        '7'
    } else if d == 8 {
        '8'
    } else if d == 9 {
        '9'
    } else if d == 10 {
        'a'
    } else if d == 11 {
        'b'
    } else if d == 12 {
        'c'
    } else if d == 13 {
        'd'
    } else if d == 14 {
        'e'
    } else {
        'f'
    }
}

/// The last `width` digits of `value` in base 16, in lower case, the most
/// significant first.
pub open spec fn hex_text(value: nat, width: nat) -> Seq<char>
    decreases width,
{
    if width == 0 {
        Seq::empty()
    } else {
        hex_text(value / 16, (width - 1) as nat).push(hex_digit((value % 16) as int))
    }
}

/// The hyphenated text of a 128-bit id: its 32 digits in base 16, in lower
/// case, in groups of 8, 4, 4, 4 and 12.
pub open spec fn hyphenated(raw: u128) -> Seq<char> {
    hex_text(raw as nat / 0x1_0000_0000_0000_0000_0000_0000, 8) + seq!['-'] + hex_text(
        raw as nat / 0x1_0000_0000_0000_0000_0000,
        4,
    ) + seq!['-'] + hex_text(raw as nat / 0x1_0000_0000_0000_0000, 4) + seq!['-'] + hex_text(
        raw as nat / 0x1_0000_0000_0000,
        4,
    ) + seq!['-'] + hex_text(raw as nat, 12)
}

/// The first group of the hyphenated text of an id.
pub open spec fn first_group(raw: u128) -> Seq<char> {
    hex_text(raw as nat / 0x1_0000_0000_0000_0000_0000_0000, 8)
}

/// `s` up to its first `stop`, or all of `s` where it has none.
pub open spec fn up_to(s: Seq<char>, stop: char) -> Seq<char>
    decreases s.len(),
{
    if s.len() == 0 || s.first() == stop {
        Seq::empty()
    } else {
        seq![s.first()] + up_to(s.drop_first(), stop)
    }
}

/// A text in base 16 has the width that was asked for and no hyphen in it.
pub proof fn lemma_hex_text(value: nat, width: nat)
    ensures
        hex_text(value, width).len() == width,
        forall|i: int| 0 <= i < width ==> #[trigger] hex_text(value, width)[i] != '-',
    decreases width,
{
    if width > 0 {
        lemma_hex_text(value / 16, (width - 1) as nat);
    }
}

/// A text without `stop`, followed by `stop`, is what stands before the
/// first `stop` of the whole.
pub proof fn lemma_up_to(head: Seq<char>, stop: char, tail: Seq<char>)
    requires
        forall|i: int| 0 <= i < head.len() ==> head[i] != stop,
    ensures
        up_to(head + seq![stop] + tail, stop) == head,
    decreases head.len(),
{
    let s = head + seq![stop] + tail;
    if head.len() == 0 {
        assert(s.first() == stop);
        assert(head =~= Seq::<char>::empty());
    } else {
        assert(s.first() == head.first());
        assert(s.drop_first() =~= head.drop_first() + seq![stop] + tail);
        lemma_up_to(head.drop_first(), stop, tail);
        assert(head =~= seq![head.first()] + head.drop_first());
    }
}

/// The hyphenated text of an id starts with its first group, up to the
/// first hyphen.
pub proof fn lemma_first_group(raw: u128)
    ensures
        up_to(hyphenated(raw), '-') == first_group(raw),
        first_group(raw).len() == 8,
{
    let head = first_group(raw);
    lemma_hex_text(raw as nat / 0x1_0000_0000_0000_0000_0000_0000, 8);
    let tail = hex_text(raw as nat / 0x1_0000_0000_0000_0000_0000, 4) + seq!['-'] + hex_text(
        raw as nat / 0x1_0000_0000_0000_0000,
        4,
    ) + seq!['-'] + hex_text(raw as nat / 0x1_0000_0000_0000, 4) + seq!['-'] + hex_text(
        raw as nat,
        12,
    );
    assert(hyphenated(raw) =~= head + seq!['-'] + tail);
    lemma_up_to(head, '-', tail);
}

/// A random 128-bit id.
///
/// Calls `uuid::Uuid::new_v4` and hands out the id as a number. Of the id
/// only this is claimed: it says of itself that it is a random id of the
/// standard layout, which fixes six of its bits.
#[verifier::external_body]
pub(crate) fn random_id() -> (raw: u128)
    ensures
        (raw as nat / 0x1_0000_0000_0000_0000_000) % 16 == 4,
        (raw as nat / 0x4000_0000_0000_0000) % 4 == 2,
{
    uuid::Uuid::new_v4().as_u128()
}

/// The hyphenated text of an id.
///
/// Calls `uuid::Uuid::from_u128` and formats the result in its hyphenated,
/// lower-case form. The contract claims that this text is the 32 digits of
/// the number in base 16, most significant first, in groups of 8, 4, 4, 4
/// and 12 with a hyphen between two groups.
#[verifier::external_body]
pub(crate) fn id_text(raw: u128) -> (text: String)
    ensures
        text@ == hyphenated(raw),
{
    uuid::Uuid::from_u128(raw).hyphenated().to_string()
}

/// A fresh random id.
pub fn new_id() -> (raw: u128)
    ensures
        is_random_id(raw),
{
    random_id()
}

/// Whether an id says of itself that it is a random id of the standard
/// layout.
pub open spec fn is_random_id(raw: u128) -> bool {
    (raw as nat / 0x1_0000_0000_0000_0000_000) % 16 == 4 && (raw as nat / 0x4000_0000_0000_0000)
        % 4 == 2
}

/// The hyphenated text of an id, such as
/// `67e55044-10b1-426f-9247-bb680e5fe0c8`.
pub fn format_id(raw: u128) -> (text: String)
    ensures
        text@ == hyphenated(raw),
{
    id_text(raw)
}

/// What stands before the first `stop` in `s`.
pub fn prefix_before(s: &str, stop: char) -> (r: String)
    ensures
        r@ == up_to(s@, stop),
{
    let chars = chars_of(s);
    let mut i: usize = 0;
    while i < chars.len() && chars[i] != stop
        invariant
            i <= chars.len(),
            chars@ == s@,
            forall|k: int| 0 <= k < i ==> chars@[k] != stop,
        decreases chars.len() - i,
    {
        i += 1;
    }
    proof {
        lemma_up_to_at(s@, stop, i as int);
    }
    s.substring_char(0, i).to_owned()
}

/// Where the first `stop` of `s` stands, what is before it ends.
pub proof fn lemma_up_to_at(s: Seq<char>, stop: char, at: int)
    requires
        0 <= at <= s.len(),
        forall|k: int| 0 <= k < at ==> s[k] != stop,
        at < s.len() ==> s[at] == stop,
    ensures
        up_to(s, stop) == s.subrange(0, at),
    decreases at,
{
    if at == 0 {
        assert(s.subrange(0, 0) =~= Seq::<char>::empty());
    } else {
        let t = s.drop_first();
        assert forall|k: int| 0 <= k < at - 1 implies t[k] != stop by {
            assert(t[k] == s[k + 1]);
        }
        lemma_up_to_at(t, stop, at - 1);
        assert(s.subrange(0, at) =~= seq![s.first()] + t.subrange(0, at - 1));
    }
}

} // verus!
