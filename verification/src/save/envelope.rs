//! The versioned save envelope.
//!
//! It wraps a serialized payload (world metadata or player data) with a
//! BLAKE3 integrity hash.
//!
//! - From save format 2 on, the hash covers a domain tag, the canonical header
//!   fields and the payload: `tag ‖ save_version ‖ generator_version ‖
//!   payload_size ‖ payload`, integers little-endian.
//! - Save format 1 (and below) hashes the payload alone; such saves still
//!   verify, and packing again upgrades them to the newer domain.

use vstd::prelude::*;

use crate::storage::bytes::{lemma_read_u32, push_bytes, push_u32, u32_le};
use crate::storage::envelope::{blake3_digest, blake3_hash};
use crate::storage::error::StorageError;
use crate::storage::text::string_of;

verus! {

/// Current save format version; it changes only with the byte layout or hash domain.
pub const SAVE_FORMAT_VERSION: u32 = 2;

/// Magic bytes of a save envelope, `"STSV"`.
pub const MAGIC: [u8; 4] = [0x53, 0x54, 0x53, 0x56];

pub open spec fn save_magic() -> Seq<u8> {
    seq![0x53u8, 0x54u8, 0x53u8, 0x56u8]
}

/// The domain tag of the format-2 hash, `"STSV-SAVE-ENVELOPE-V2"`.
pub open spec fn hash_domain() -> Seq<u8> {
    seq![
        0x53u8, 0x54u8, 0x53u8, 0x56u8, 0x2du8, 0x53u8, 0x41u8, 0x56u8, 0x45u8, 0x2du8, 0x45u8,
        0x4eu8, 0x56u8, 0x45u8, 0x4cu8, 0x4fu8, 0x50u8, 0x45u8, 0x2du8, 0x56u8, 0x32u8,
    ]
}

/// The bytes the format-2 hash covers.
pub open spec fn canonical_bytes(
    save_version: u32,
    generator_version: u32,
    payload_size: u32,
    payload: Seq<u8>,
) -> Seq<u8> {
    hash_domain() + u32_le(save_version) + u32_le(generator_version) + u32_le(payload_size)
        + payload
}

/// The hash an envelope of `save_version` must carry over these fields.
pub open spec fn expected_hash(
    save_version: u32,
    generator_version: u32,
    payload_size: u32,
    payload: Seq<u8>,
) -> Seq<u8> {
    if save_version >= 2 {
        blake3_digest(canonical_bytes(save_version, generator_version, payload_size, payload))
    } else {
        blake3_digest(payload)
    }
}

fn domain_bytes() -> (r: Vec<u8>)
    ensures
        r@ == hash_domain(),
{
    let r: Vec<u8> = vec![
        0x53u8, 0x54u8, 0x53u8, 0x56u8, 0x2du8, 0x53u8, 0x41u8, 0x56u8, 0x45u8, 0x2du8, 0x45u8,
        0x4eu8, 0x56u8, 0x45u8, 0x4cu8, 0x4fu8, 0x50u8, 0x45u8, 0x2du8, 0x56u8, 0x32u8,
    ];
    assert(r@ =~= hash_domain());
    r
}

/// A versioned, integrity-checked save container.
#[derive(Clone, Debug)]
pub struct SaveEnvelope {
    /// Always `"STSV"`.
    pub magic: [u8; 4],
    /// Save format version, distinct from the generator version.
    pub save_version: u32,
    /// World generator version.
    pub generator_version: u32,
    /// BLAKE3 integrity hash (its domain depends on `save_version`).
    pub payload_hash: [u8; 32],
    /// Length of `payload` in bytes.
    pub payload_size: u32,
    /// Signature slot: zeroed by `pack`, filled by signers, not hashed.
    pub signature: [u8; 32],
    /// The serialized inner record.
    pub payload: Vec<u8>,
}

impl SaveEnvelope {
    /// The magic is right, the size field matches the payload, and the
    /// stored hash is the one its version calls for.
    pub open spec fn spec_verifies(&self) -> bool {
        &&& self.magic@ == save_magic()
        &&& self.payload_size == self.payload@.len()
        &&& self.payload_hash@ == expected_hash(
            self.save_version,
            self.generator_version,
            self.payload_size,
            self.payload@,
        )
    }

    /// BLAKE3 over `tag ‖ save_version ‖ generator_version ‖ payload_size ‖
    /// payload`. (It hashes the concatenation in one call; BLAKE3's
    /// incremental hasher gives the same digest over the same bytes.)
    pub fn hash_canonical(
        save_version: u32,
        generator_version: u32,
        payload_size: u32,
        payload: &[u8],
    ) -> (r: [u8; 32])
        ensures
            r@ == blake3_digest(
                canonical_bytes(save_version, generator_version, payload_size, payload@),
            ),
    {
        let mut buf = domain_bytes();
        push_u32(&mut buf, save_version);
        push_u32(&mut buf, generator_version);
        push_u32(&mut buf, payload_size);
        push_bytes(&mut buf, payload);
        assert(buf@ =~= canonical_bytes(save_version, generator_version, payload_size, payload@));
        blake3_hash(buf.as_slice())
    }

    /// Build an envelope around `payload`. Version 2 and above use the
    /// header‖payload hash; version 1 keeps the payload-only hash.
    pub fn pack(save_version: u32, generator_version: u32, payload: &[u8]) -> (r: Result<
        SaveEnvelope,
        StorageError,
    >)
        requires
            payload@.len() <= u32::MAX,
        ensures
            r matches Ok(env) && env.spec_verifies() && env.save_version == save_version
                && env.generator_version == generator_version && env.payload@ == payload@
                && env.signature@ == Seq::new(32, |i: int| 0u8),
    {
        let payload_size = payload.len() as u32;
        let hash = if save_version >= 2 {
            Self::hash_canonical(save_version, generator_version, payload_size, payload)
        } else {
            blake3_hash(payload)
        };
        let env = SaveEnvelope {
            magic: MAGIC,
            save_version,
            generator_version,
            payload_hash: hash,
            payload_size,
            signature: [0u8; 32],
            payload: crate::storage::bytes::copy_range(payload, 0, payload.len()),
        };
        assert(env.magic@ =~= save_magic());
        assert(payload@.subrange(0, payload@.len() as int) =~= payload@);
        assert(env.signature@ =~= Seq::new(32, |i: int| 0u8));
        Ok(env)
    }

    /// Check the magic, the size field and the stored hash.
    pub fn verify(&self) -> (r: Result<(), StorageError>)
        ensures
            r is Ok <==> self.spec_verifies(),
            r matches Err(e) ==> e is Envelope && e.message() == (if self.magic@ != save_magic() {
                "bad save magic"@
            } else if self.payload_size != self.payload@.len() {
                "payload_size mismatch"@
            } else {
                "payload hash mismatch"@
            }),
    {
        if !(self.magic[0] == MAGIC[0] && self.magic[1] == MAGIC[1] && self.magic[2] == MAGIC[2]
            && self.magic[3] == MAGIC[3]) {
            assert(self.magic@ != save_magic()) by {
                if self.magic@ == save_magic() {
                    assert(self.magic@[0] == MAGIC[0] && self.magic@[3] == MAGIC[3]);
                }
            }
            return Err(StorageError::Envelope(string_of("bad save magic")));
        }
        assert(self.magic@ =~= save_magic());
        if self.payload_size as usize != self.payload.len() {
            return Err(StorageError::Envelope(string_of("payload_size mismatch")));
        }
        let expected = if self.save_version >= 2 {
            Self::hash_canonical(
                self.save_version,
                self.generator_version,
                self.payload_size,
                self.payload.as_slice(),
            )
        } else {
            blake3_hash(self.payload.as_slice())
        };
        let mut k: usize = 0;
        while k < 32
            invariant
                k <= 32,
                self.magic@ == save_magic(),
                self.payload_size == self.payload@.len(),
                expected@ == expected_hash(
                    self.save_version,
                    self.generator_version,
                    self.payload_size,
                    self.payload@,
                ),
                forall|j: int| 0 <= j < k ==> expected@[j] == self.payload_hash@[j],
            decreases 32 - k,
        {
            if expected[k] != self.payload_hash[k] {
                assert(expected@ != self.payload_hash@) by {
                    assert(expected@[k as int] != self.payload_hash@[k as int]);
                }
                return Err(StorageError::Envelope(string_of("payload hash mismatch")));
            }
            k = k + 1;
        }
        assert(expected@ =~= self.payload_hash@);
        Ok(())
    }
}

/// The signature lies outside the integrity hash: filling it in after
/// packing does not change whether an envelope verifies.
pub proof fn lemma_signature_not_hashed(e: SaveEnvelope, signed: SaveEnvelope)
    requires
        signed.magic == e.magic,
        signed.save_version == e.save_version,
        signed.generator_version == e.generator_version,
        signed.payload_hash == e.payload_hash,
        signed.payload_size == e.payload_size,
        signed.payload@ == e.payload@,
    ensures
        signed.spec_verifies() == e.spec_verifies(),
{
}

/// From format 2 on the hash covers every header field and the payload: an
/// envelope that verifies, changed in its save version, generator version or
/// payload (size kept equal to the payload's length) with the stored hash
/// kept, hashes a different byte string, so it still verifies only where
/// BLAKE3 gives two different inputs one digest. A wrong magic or a size field
/// that disagrees with the payload never verifies.
pub proof fn lemma_tampering_changes_hashed_bytes(e: SaveEnvelope, t: SaveEnvelope)
    requires
        e.spec_verifies(),
        e.save_version >= 2,
        t.save_version >= 2,
        t.payload_hash == e.payload_hash,
        t.payload_size == t.payload@.len(),
        t.save_version != e.save_version || t.generator_version != e.generator_version
            || t.payload@ != e.payload@,
    ensures
        canonical_bytes(t.save_version, t.generator_version, t.payload_size, t.payload@)
            != canonical_bytes(e.save_version, e.generator_version, e.payload_size, e.payload@),
        t.spec_verifies() ==> blake3_digest(
            canonical_bytes(t.save_version, t.generator_version, t.payload_size, t.payload@),
        ) == blake3_digest(
            canonical_bytes(e.save_version, e.generator_version, e.payload_size, e.payload@),
        ),
        t.magic@ != save_magic() ==> !t.spec_verifies(),
{
    let ct = canonical_bytes(t.save_version, t.generator_version, t.payload_size, t.payload@);
    let ce = canonical_bytes(e.save_version, e.generator_version, e.payload_size, e.payload@);
    if ct == ce {
        assert(hash_domain().len() == 21);
        assert(ct.len() == 33 + t.payload@.len());
        assert(ct.subrange(21, 25) =~= u32_le(t.save_version));
        assert(ce.subrange(21, 25) =~= u32_le(e.save_version));
        assert(ct.subrange(25, 29) =~= u32_le(t.generator_version));
        assert(ce.subrange(25, 29) =~= u32_le(e.generator_version));
        lemma_read_u32(ct, 21, t.save_version);
        lemma_read_u32(ce, 21, e.save_version);
        lemma_read_u32(ct, 25, t.generator_version);
        lemma_read_u32(ce, 25, e.generator_version);
        assert(ct.subrange(33, ct.len() as int) =~= t.payload@);
        assert(ce.subrange(33, ce.len() as int) =~= e.payload@);
    }
}

} // verus!
