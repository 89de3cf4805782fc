//! Request addresses: `<service path>/<operation>`.

use crate::error::DispatchError;
use crate::text::{
    chars_of, find_last_slash, is_normal, last_slash, lemma_last_slash, lemma_last_slash_at,
    lemma_normalize_path, lemma_strip_leading, lemma_strip_leading_at, lemma_strip_trailing,
    lemma_strip_trailing_at, normalize_path, skip_slashes, skip_slashes_back, strip_trailing,
};
use vstd::prelude::*;

verus! {

/// What an address names.
pub struct AddressModel {
    pub path: Seq<char>,
    pub operation: Seq<char>,
}

/// An address taken apart: the path of the service, in normal form, and the
/// name of the operation.
#[derive(Debug)]
pub struct Address {
    pub path: String,
    pub operation: String,
}

impl View for Address {
    type V = AddressModel;

    open spec fn view(&self) -> AddressModel {
        AddressModel { path: self.path@, operation: self.operation@ }
    }
}

/// The address that `text` is: slashes at its ends do not count; the
/// operation is the segment behind the last slash, the path what stands
/// before that slash, in normal form. A text without a slash inside is no
/// address.
pub open spec fn split_address(text: Seq<char>) -> Option<AddressModel> {
    let inner = normalize_path(text);
    let at = last_slash(inner);
    if at < 0 {
        None
    } else {
        Some(
            AddressModel {
                path: strip_trailing(inner.subrange(0, at)),
                operation: inner.subrange(at + 1, inner.len() as int),
            },
        )
    }
}

/// The address of the operation `operation` of the service at `path`.
pub open spec fn join_address(path: Seq<char>, operation: Seq<char>) -> Seq<char> {
    path + seq!['/'] + operation
}

/// Whether `s` has no slash in it.
pub open spec fn slash_free(s: Seq<char>) -> bool {
    forall|i: int| 0 <= i < s.len() ==> s[i] != '/'
}

/// The parts of an address are not empty, the path is in normal form and the
/// operation has no slash in it.
pub proof fn lemma_split_address(text: Seq<char>)
    ensures
        match split_address(text) {
            Some(a) => a.path.len() > 0 && is_normal(a.path) && a.operation.len() > 0
                && slash_free(a.operation),
            None => true,
        },
{
    let inner = normalize_path(text);
    lemma_normalize_path(text);
    lemma_last_slash(inner);
    let at = last_slash(inner);
    if at >= 0 {
        let head = inner.subrange(0, at);
        lemma_strip_trailing(head);
        lemma_strip_leading(head);
        assert(head[0] == inner[0]);
        let path = strip_trailing(head);
        if path.len() == 0 {
            assert(head[0] == '/');
        }
        assert(path.first() == head[0]);
        let op = inner.subrange(at + 1, inner.len() as int);
        assert forall|i: int| 0 <= i < op.len() implies op[i] != '/' by {
            assert(op[i] == inner[at + 1 + i]);
        }
    }
}

/// An address written from a path in normal form and an operation is taken
/// apart into these two.
pub proof fn lemma_split_joined(path: Seq<char>, operation: Seq<char>)
    requires
        path.len() > 0,
        is_normal(path),
        operation.len() > 0,
        slash_free(operation),
    ensures
        split_address(join_address(path, operation)) == Some(AddressModel { path, operation }),
{
    let text = join_address(path, operation);
    assert(text.first() == path.first());
    assert(text.last() == operation.last());
    lemma_normalize_path(text);
    let at = path.len() as int;
    assert(text[at] == '/');
    assert forall|i: int| at < i < text.len() implies text[i] != '/' by {
        assert(text[i] == operation[i - at - 1]);
    }
    lemma_last_slash_at(text, at);
    assert(text.subrange(0, at) =~= path);
    assert(text.subrange(at + 1, text.len() as int) =~= operation);
    lemma_strip_trailing_at(path, at);
    assert(path.subrange(0, at) =~= path);
}

/// Takes an address apart.
pub fn parse_address(text: &str) -> (r: Result<Address, DispatchError>)
    ensures
        match split_address(text@) {
            Some(a) => r matches Ok(address) && address@ == a,
            None => r == Err::<Address, DispatchError>(DispatchError::AddressFormatError),
        },
{
    let chars = chars_of(text);
    let from = skip_slashes(&chars, 0, chars.len());
    let to = skip_slashes_back(&chars, from, chars.len());
    let ghost s = text@;
    let ghost inner = s.subrange(from as int, to as int);
    proof {
        lemma_strip_leading_at(s, from as int);
        let a = s.subrange(from as int, s.len() as int);
        lemma_strip_trailing_at(a, to - from);
        assert(a.subrange(0, to - from) =~= inner);
    }
    match find_last_slash(&chars, from, to) {
        None => Err(DispatchError::AddressFormatError),
        Some(at) => {
            let end = skip_slashes_back(&chars, from, at);
            proof {
                let head = inner.subrange(0, at - from);
                assert(head =~= s.subrange(from as int, at as int));
                lemma_strip_trailing_at(head, end - from);
                assert(head.subrange(0, end - from) =~= s.subrange(from as int, end as int));
                assert(inner.subrange(at - from + 1, inner.len() as int) =~= s.subrange(
                    at + 1,
                    to as int,
                ));
            }
            let path = text.substring_char(from, end).to_owned();
            let operation = text.substring_char(at + 1, to).to_owned();
            Ok(Address { path, operation })
        },
    }
}

} // verus!
