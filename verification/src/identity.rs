//! Learner identities and the deterministic per-owner record key.
//!
//! An identity is a 32-byte value (four 64-bit words). Each learner's record
//! is addressed by a key derived from the identity alone: a fixed namespace
//! tag followed by the identity's bytes, little-endian word by word. The
//! derivation is a pure function of the identity and is collision-free.

use vstd::prelude::*;

verus! {

/// A 32-byte identity, held as four 64-bit words.
///
/// The words are ordered: `w0` holds bytes 0..8 of the identity, `w1`
/// bytes 8..16, and so on, each word little-endian.
#[derive(Clone, Copy, PartialEq, Eq, Structural, Debug)]
pub struct Identity {
    pub w0: u64,
    pub w1: u64,
    pub w2: u64,
    pub w3: u64,
}

/// The little-endian bytes of one 64-bit word.
pub open spec fn word_bytes(w: u64) -> Seq<u8> {
    seq![
        (w & 0xff) as u8,
        ((w >> 8) & 0xff) as u8,
        ((w >> 16) & 0xff) as u8,
        ((w >> 24) & 0xff) as u8,
        ((w >> 32) & 0xff) as u8,
        ((w >> 40) & 0xff) as u8,
        ((w >> 48) & 0xff) as u8,
        ((w >> 56) & 0xff) as u8,
    ]
}

/// The namespace tag that prefixes every record key: the bytes of
/// `"user-progress"`.
pub open spec fn key_tag() -> Seq<u8> {
    seq![117u8, 115u8, 101u8, 114u8, 45u8, 112u8, 114u8, 111u8, 103u8, 114u8, 101u8, 115u8, 115u8]
}

/// The record key of an identity: the namespace tag followed by the
/// identity's 32 bytes.
pub open spec fn key_of(id: Identity) -> Seq<u8> {
    key_tag() + word_bytes(id.w0) + word_bytes(id.w1) + word_bytes(id.w2) + word_bytes(id.w3)
}

/// Pushes the little-endian bytes of `w` onto `v`.
fn push_word_bytes(v: &mut Vec<u8>, w: u64)
    ensures
        final(v)@ == old(v)@ + word_bytes(w),
{
    v.push((w & 0xff) as u8);
    v.push(((w >> 8) & 0xff) as u8);
    v.push(((w >> 16) & 0xff) as u8);
    v.push(((w >> 24) & 0xff) as u8);
    v.push(((w >> 32) & 0xff) as u8);
    v.push(((w >> 40) & 0xff) as u8);
    v.push(((w >> 48) & 0xff) as u8);
    v.push(((w >> 56) & 0xff) as u8);
    proof {
        assert(v@ =~= old(v)@ + word_bytes(w));
    }
}

/// The deterministic key under which `id`'s record is stored: the namespace
/// tag `"user-progress"` followed by the identity's 32 bytes.
pub fn record_key(id: &Identity) -> (r: Vec<u8>)
    ensures
        r@ == key_of(*id),
{
    let mut v: Vec<u8> = Vec::new();
    v.push(117u8);
    v.push(115u8);
    v.push(101u8);
    v.push(114u8);
    v.push(45u8);
    v.push(112u8);
    v.push(114u8);
    v.push(111u8);
    v.push(103u8);
    v.push(114u8);
    v.push(101u8);
    v.push(115u8);
    v.push(115u8);
    proof {
        assert(v@ =~= key_tag());
    }
    push_word_bytes(&mut v, id.w0);
    push_word_bytes(&mut v, id.w1);
    push_word_bytes(&mut v, id.w2);
    push_word_bytes(&mut v, id.w3);
    proof {
        assert(v@ =~= key_of(*id));
    }
    v
}

/// A word is determined by its little-endian bytes.
proof fn lemma_word_bytes_injective(a: u64, b: u64)
    requires
        word_bytes(a) == word_bytes(b),
    ensures
        a == b,
{
    assert(word_bytes(a)[0] == word_bytes(b)[0]);
    assert(word_bytes(a)[1] == word_bytes(b)[1]);
    assert(word_bytes(a)[2] == word_bytes(b)[2]);
    assert(word_bytes(a)[3] == word_bytes(b)[3]);
    assert(word_bytes(a)[4] == word_bytes(b)[4]);
    assert(word_bytes(a)[5] == word_bytes(b)[5]);
    assert(word_bytes(a)[6] == word_bytes(b)[6]);
    assert(word_bytes(a)[7] == word_bytes(b)[7]);
    assert(a == b) by (bit_vector)
        requires
            (a & 0xff) as u8 == (b & 0xff) as u8,
            ((a >> 8) & 0xff) as u8 == ((b >> 8) & 0xff) as u8,
            ((a >> 16) & 0xff) as u8 == ((b >> 16) & 0xff) as u8,
            ((a >> 24) & 0xff) as u8 == ((b >> 24) & 0xff) as u8,
            ((a >> 32) & 0xff) as u8 == ((b >> 32) & 0xff) as u8,
            ((a >> 40) & 0xff) as u8 == ((b >> 40) & 0xff) as u8,
            ((a >> 48) & 0xff) as u8 == ((b >> 48) & 0xff) as u8,
            ((a >> 56) & 0xff) as u8 == ((b >> 56) & 0xff) as u8,
    ;
}

/// Record addressing is collision-free: two identities share a key exactly
/// when they are the same identity.
pub proof fn lemma_record_key_injective(a: Identity, b: Identity)
    ensures
        (key_of(a) == key_of(b)) <==> (a == b),
{
    if key_of(a) == key_of(b) {
        assert forall|i: int| 0 <= i < 8 implies word_bytes(a.w0)[i] == word_bytes(b.w0)[i] by {
            assert(key_of(a)[13 + i] == key_of(b)[13 + i]);
        }
        assert forall|i: int| 0 <= i < 8 implies word_bytes(a.w1)[i] == word_bytes(b.w1)[i] by {
            assert(key_of(a)[21 + i] == key_of(b)[21 + i]);
        }
        assert forall|i: int| 0 <= i < 8 implies word_bytes(a.w2)[i] == word_bytes(b.w2)[i] by {
            assert(key_of(a)[29 + i] == key_of(b)[29 + i]);
        }
        assert forall|i: int| 0 <= i < 8 implies word_bytes(a.w3)[i] == word_bytes(b.w3)[i] by {
            assert(key_of(a)[37 + i] == key_of(b)[37 + i]);
        }
        assert(word_bytes(a.w0) =~= word_bytes(b.w0));
        assert(word_bytes(a.w1) =~= word_bytes(b.w1));
        assert(word_bytes(a.w2) =~= word_bytes(b.w2));
        assert(word_bytes(a.w3) =~= word_bytes(b.w3));
        lemma_word_bytes_injective(a.w0, b.w0);
        lemma_word_bytes_injective(a.w1, b.w1);
        lemma_word_bytes_injective(a.w2, b.w2);
        lemma_word_bytes_injective(a.w3, b.w3);
    }
}

} // verus!
