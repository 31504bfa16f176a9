//! Compression entry points: zstd at the tier's level over a whole payload,
//! and decoding capped at a size no real sector reaches, so a crafted frame
//! (a compression bomb) is refused instead of exhausting memory.

use vstd::prelude::*;

use crate::storage::bytes::copy_range;
use crate::storage::envelope::{self, zstd_decoded, zstd_encoded, zstd_decode_prefix, Tier};
use crate::storage::error::StorageError;
use crate::storage::text::string_of;

verus! {

/// The largest decoded sector `decompress` accepts (4 MiB): far above any
/// real sector, small enough that a hostile frame cannot fill memory.
pub const MAX_DECOMPRESSED_SECTOR_BYTES: usize = 4194304;

/// The four bytes every zstd frame starts with (`0xFD2FB528`, little-endian).
pub const ZSTD_MAGIC: [u8; 4] = [0x28, 0xB5, 0x2F, 0xFD];

/// Compress `payload` at the tier's zstd level.
pub fn compress(payload: &[u8], tier: Tier) -> (r: Result<Vec<u8>, StorageError>)
    ensures
        r is Ok,
        r matches Ok(v) ==> v@ == zstd_encoded(payload@, tier.spec_zstd_level()) && zstd_decoded(
            v@,
        ) == Some(payload@),
{
    envelope::compress(payload, tier)
}

/// Decompress `bytes`, refusing with a `Decompress` error any input that does
/// not decode or decodes to more than `limit` bytes; at most `limit + 1`
/// decoded bytes are ever held.
pub fn decompress_with_limit(bytes: &[u8], limit: usize) -> (r: Result<Vec<u8>, StorageError>)
    requires
        limit < usize::MAX,
    ensures
        r is Ok <==> (zstd_decoded(bytes@) matches Some(d) && d.len() <= limit),
        r matches Ok(v) ==> zstd_decoded(bytes@) == Some(v@),
        r matches Err(e) ==> e is Decompress,
{
    let cap: u64 = limit as u64 + 1;
    match zstd_decode_prefix(bytes, cap) {
        Ok(v) => {
            if v.len() <= limit {
                Ok(v)
            } else {
                Err(StorageError::Decompress(string_of("decompressed sector exceeds the size cap")))
            }
        },
        Err(msg) => Err(StorageError::Decompress(msg)),
    }
}

/// Decompress a blob produced by `compress`, refusing a decoding longer than
/// `MAX_DECOMPRESSED_SECTOR_BYTES`.
pub fn decompress(bytes: &[u8]) -> (r: Result<Vec<u8>, StorageError>)
    ensures
        r is Ok <==> (zstd_decoded(bytes@) matches Some(d) && d.len() <= MAX_DECOMPRESSED_SECTOR_BYTES),
        r matches Ok(v) ==> zstd_decoded(bytes@) == Some(v@),
        r matches Err(e) ==> e is Decompress,
{
    decompress_with_limit(bytes, MAX_DECOMPRESSED_SECTOR_BYTES)
}

/// Whether `bytes` starts with the zstd frame magic.
pub open spec fn starts_with_zstd_magic(bytes: Seq<u8>) -> bool {
    bytes.len() >= 4 && bytes.subrange(0, 4) == ZSTD_MAGIC@
}

/// True when `bytes` starts like a zstd frame.
pub fn is_zstd_frame(bytes: &[u8]) -> (r: bool)
    ensures
        r == starts_with_zstd_magic(bytes@),
{
    if bytes.len() < 4 {
        return false;
    }
    let r = bytes[0] == ZSTD_MAGIC[0] && bytes[1] == ZSTD_MAGIC[1] && bytes[2] == ZSTD_MAGIC[2]
        && bytes[3] == ZSTD_MAGIC[3];
    proof {
        if r {
            assert(bytes@.subrange(0, 4) =~= ZSTD_MAGIC@);
        } else {
            assert(!(bytes@.subrange(0, 4) =~= ZSTD_MAGIC@) ==> bytes@.subrange(0, 4) != ZSTD_MAGIC@);
            if bytes@.subrange(0, 4) == ZSTD_MAGIC@ {
                assert(bytes@.subrange(0, 4)[0] == bytes@[0]);
                assert(bytes@.subrange(0, 4)[1] == bytes@[1]);
                assert(bytes@.subrange(0, 4)[2] == bytes@[2]);
                assert(bytes@.subrange(0, 4)[3] == bytes@[3]);
            }
        }
    }
    r
}

/// The payload a stored sector hands back: bytes that start like a zstd frame
/// are decompressed (and a frame that does not decode, or decodes past the
/// cap, is an error: a damaged frame never passes as raw data); any other
/// bytes are returned as they are.
pub fn decode_stored_payload(bytes: &[u8]) -> (r: Result<Vec<u8>, StorageError>)
    ensures
        !starts_with_zstd_magic(bytes@) ==> (r matches Ok(v) && v@ == bytes@),
        starts_with_zstd_magic(bytes@) ==> {
            &&& r is Ok <==> (zstd_decoded(bytes@) matches Some(d) && d.len()
                <= MAX_DECOMPRESSED_SECTOR_BYTES)
            &&& r matches Ok(v) ==> zstd_decoded(bytes@) == Some(v@)
            &&& r matches Err(e) ==> e is Decompress
        },
{
    if is_zstd_frame(bytes) {
        decompress(bytes)
    } else {
        let v = copy_range(bytes, 0, bytes.len());
        assert(v@ =~= bytes@);
        Ok(v)
    }
}

} // verus!
