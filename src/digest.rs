use vstd::prelude::*;
use vstd::string::*;

verus! {

/// The BLAKE3 digest of a byte string.
pub uninterp spec fn blake3_of(data: Seq<u8>) -> Seq<u8>;

/// Relies on `blake3::hash`: the 32-byte BLAKE3 digest of `data`, which depends
/// on the bytes of `data` alone.
#[verifier::external_body]
pub(crate) fn blake3_digest(data: &[u8]) -> (r: [u8; 32])
    ensures
        r@ == blake3_of(data@),
{
    *blake3::hash(data).as_bytes()
}

/// Domain separator that every escrow derivation starts with.
pub open spec fn escrow_domain() -> Seq<u8> {
    seq![112u8, 97u8, 121u8, 109u8, 101u8, 110u8, 116u8, 115u8, 47u8, 101u8, 115u8, 99u8, 114u8, 111u8, 119u8]
}

/// The bytes hashed to obtain the escrow selector of the intent with id `id`:
/// the domain separator followed by the id's UTF-8 bytes.
pub open spec fn escrow_preimage(id_bytes: Seq<u8>) -> Seq<u8> {
    escrow_domain() + id_bytes
}

/// The escrow selector of the intent whose id has the UTF-8 bytes `id_bytes`.
pub open spec fn escrow_of(id_bytes: Seq<u8>) -> Seq<u8> {
    blake3_of(escrow_preimage(id_bytes))
}

/// Derives the 32-byte escrow selector of an intent from its id: a hash of a
/// fixed domain prefix followed by the id. The result depends on the id alone,
/// and distinct ids give distinct hashed inputs.
pub fn derive_escrow_subaccount(intent_id: &str) -> (r: [u8; 32])
    ensures
        r@ == escrow_of(intent_id.spec_bytes()),
        forall|other: Seq<u8>| other != intent_id.spec_bytes()
            ==> #[trigger] escrow_preimage(other) != escrow_preimage(intent_id.spec_bytes()),
{
    let domain: [u8; 15] = [112u8, 97u8, 121u8, 109u8, 101u8, 110u8, 116u8, 115u8, 47u8, 101u8, 115u8, 99u8, 114u8, 111u8, 119u8];
    let mut input: Vec<u8> = Vec::new();
    let mut i: usize = 0;
    while i < 15
        invariant
            i <= 15,
            input@ == domain@.subrange(0, i as int),
        decreases 15 - i,
    {
        input.push(domain[i]);
        i = i + 1;
    }
    let id_bytes = intent_id.as_bytes();
    let mut j: usize = 0;
    while j < id_bytes.len()
        invariant
            j <= id_bytes@.len(),
            input@ == domain@ + id_bytes@.subrange(0, j as int),
        decreases id_bytes@.len() - j,
    {
        input.push(id_bytes[j]);
        j = j + 1;
        assert(input@ =~= domain@ + id_bytes@.subrange(0, j as int));
    }
    assert(id_bytes@.subrange(0, id_bytes@.len() as int) =~= id_bytes@);
    assert(domain@ =~= escrow_domain());
    proof {
        assert forall|other: Seq<u8>| other != intent_id.spec_bytes()
            implies #[trigger] escrow_preimage(other) != escrow_preimage(intent_id.spec_bytes()) by {
            if escrow_preimage(other) == escrow_preimage(intent_id.spec_bytes()) {
                assert(other =~= escrow_preimage(other).subrange(15, escrow_preimage(other).len() as int));
                assert(intent_id.spec_bytes() =~= escrow_preimage(intent_id.spec_bytes()).subrange(
                    15, escrow_preimage(intent_id.spec_bytes()).len() as int));
            }
        }
    }
    blake3_digest(input.as_slice())
}

} // verus!
