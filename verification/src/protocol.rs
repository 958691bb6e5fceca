//! Protocol ids: the fixed ones of the negotiation, and the table of those a
//! caller offers.

use vstd::prelude::*;
use vstd::utf8::{
    encode_utf8, is_leading_byte_width_1, partial_valid_utf8, partial_valid_utf8_extend_ascii_block,
    valid_utf8,
};

verus! {

/// `/multistream/1.0.0`, the header that both peers send first.
pub open spec fn header_id() -> Seq<u8> {
    seq![47u8, 109, 117, 108, 116, 105, 115, 116, 114, 101, 97, 109, 47, 49, 46, 48, 46, 48]
}

/// `na`, the answer to a protocol that the responder does not know.
pub open spec fn na_id() -> Seq<u8> {
    seq![110u8, 97]
}

/// `ls`, the request for a listing.
pub open spec fn ls_id() -> Seq<u8> {
    seq![108u8, 115]
}

/// The header as bytes.
pub fn header() -> (id: Vec<u8>)
    ensures
        id@ == header_id(),
{
    let id = vec![47u8, 109, 117, 108, 116, 105, 115, 116, 114, 101, 97, 109, 47, 49, 46, 48, 46, 48];
    assert(id@ =~= header_id());
    id
}

/// `na` as bytes.
pub fn na() -> (id: Vec<u8>)
    ensures
        id@ == na_id(),
{
    let id = vec![110u8, 97];
    assert(id@ =~= na_id());
    id
}

/// `ls` as bytes.
pub fn ls() -> (id: Vec<u8>)
    ensures
        id@ == ls_id(),
{
    let id = vec![108u8, 115];
    assert(id@ =~= ls_id());
    id
}

/// `std::str::from_utf8`, which succeeds on the byte strings that are valid
/// UTF-8 and on no others.
#[verifier::external_body]
pub(crate) fn is_utf8(bytes: &[u8]) -> (valid: bool)
    ensures
        valid == valid_utf8(bytes@),
{
    std::str::from_utf8(bytes).is_ok()
}

/// Bytes below 128 are text: each is one character.
pub proof fn lemma_ascii_is_utf8(bytes: Seq<u8>)
    requires
        forall|i: int| 0 <= i < bytes.len() ==> bytes[i] < 128,
    ensures
        valid_utf8(bytes),
{
    assert(bytes.subrange(0, 0) =~= Seq::<u8>::empty());
    assert(partial_valid_utf8(bytes, 0));
    assert forall|i: int| 0 <= 0 <= i < bytes.len() <= bytes.len() implies #[trigger] is_leading_byte_width_1(
        bytes[i],
    ) by {}
    partial_valid_utf8_extend_ascii_block(bytes, 0, bytes.len() as int);
    assert(bytes.subrange(0, bytes.len() as int) =~= bytes);
}

/// The three fixed ids are text.
pub proof fn lemma_fixed_ids_are_utf8()
    ensures
        valid_utf8(header_id()),
        valid_utf8(na_id()),
        valid_utf8(ls_id()),
{
    lemma_ascii_is_utf8(header_id());
    lemma_ascii_is_utf8(na_id());
    lemma_ascii_is_utf8(ls_id());
}

/// Whether two byte strings are the same.
pub fn same_bytes(a: &[u8], b: &[u8]) -> (same: bool)
    ensures
        same == (a@ == b@),
{
    if a.len() != b.len() {
        return false;
    }
    let mut i: usize = 0;
    while i < a.len()
        invariant
            a@.len() == b@.len(),
            i <= a@.len(),
            forall|j: int| 0 <= j < i ==> a@[j] == b@[j],
        decreases a@.len() - i,
    {
        if a[i] != b[i] {
            return false;
        }
        i += 1;
    }
    assert(a@ =~= b@);
    true
}

/// The ids of a table of protocols, each as the bytes that go on the wire, in
/// the order of the table.
pub open spec fn table_ids<F>(protocols: Seq<(String, F)>) -> Seq<Seq<u8>> {
    Seq::new(protocols.len(), |i: int| encode_utf8(protocols[i].0@))
}

/// The first place at or after `start` where `id` stands in `ids`.
pub open spec fn position_from(ids: Seq<Seq<u8>>, id: Seq<u8>, start: nat) -> Option<nat>
    decreases ids.len() - start,
{
    if start >= ids.len() {
        None
    } else if ids[start as int] == id {
        Some(start)
    } else {
        position_from(ids, id, start + 1)
    }
}

/// The first place where `id` stands in `ids`.
pub open spec fn position(ids: Seq<Seq<u8>>, id: Seq<u8>) -> Option<nat> {
    position_from(ids, id, 0)
}

/// Where `id` is found, it stands.
pub proof fn lemma_position_holds(ids: Seq<Seq<u8>>, id: Seq<u8>, start: nat)
    ensures
        position_from(ids, id, start) matches Some(i) ==> start <= i < ids.len() && ids[i as int]
            == id,
    decreases ids.len() - start,
{
    if start < ids.len() && ids[start as int] != id {
        lemma_position_holds(ids, id, start + 1);
    }
}

/// Finds the first entry of the table whose id is `id`.
pub fn find_protocol<F>(protocols: &Vec<(String, F)>, id: &[u8]) -> (found: Option<usize>)
    ensures
        match position(table_ids(protocols@), id@) {
            Some(i) => found matches Some(k) && k == i && i < protocols@.len(),
            None => found.is_none(),
        },
{
    let ghost ids = table_ids(protocols@);
    let mut i: usize = 0;
    while i < protocols.len()
        invariant
            i <= protocols.len(),
            ids == table_ids(protocols@),
            position_from(ids, id@, i as nat) == position(ids, id@),
        decreases protocols.len() - i,
    {
        if same_bytes(protocols[i].0.as_str().as_bytes(), id) {
            return Some(i);
        }
        i += 1;
    }
    None
}

} // verus!
