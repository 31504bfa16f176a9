//! The sector envelope: the fixed 72-byte `SectorHeader` stored in front of
//! each compressed sector payload, the tier to compression-level mapping, and
//! the compression and integrity primitives the header relies on.
//!
//! `payload_hash` is BLAKE3 over the compressed payload (identical sectors
//! share it, so it doubles as the deduplication key); `frame_checksum` is an
//! independent xxHash64 over the same bytes, a second detector for bit rot.

use vstd::prelude::*;

use crate::storage::bytes::{
    i32_le, lemma_read_i32, lemma_read_u16, lemma_read_u32, lemma_read_u64, push_bytes, push_i32,
    push_u16, push_u32, push_u64, read_i32, read_u16, read_u32, read_u64, u16_le, u32_le, u64_le,
    get_i32, get_u16, get_u32, get_u64,
};
use crate::storage::coord::SectorCoord;
use crate::storage::compress::MAX_DECOMPRESSED_SECTOR_BYTES;
use crate::storage::error::StorageError;

verus! {

/// What `blake3::hash` returns for `data`: its 32-byte BLAKE3 digest.
pub uninterp spec fn blake3_digest(data: Seq<u8>) -> Seq<u8>;

/// What `xxhash_rust::xxh64::xxh64` returns for `data` under `seed`.
pub uninterp spec fn xxh64_digest(data: Seq<u8>, seed: u64) -> u64;

/// What `zstd::stream::encode_all` produces for `data` at `level`.
pub uninterp spec fn zstd_encoded(data: Seq<u8>, level: i32) -> Seq<u8>;

/// What `zstd::stream::decode_all` produces for `data`: the decoded bytes,
/// or `None` where `data` is not a well-formed sequence of zstd frames.
pub uninterp spec fn zstd_decoded(data: Seq<u8>) -> Option<Seq<u8>>;

/// Calls `blake3::hash`. Claims: the result is the BLAKE3 digest of the
/// input bytes, which depends on those bytes alone.
#[verifier::external_body]
pub(crate) fn blake3_hash(data: &[u8]) -> (r: [u8; 32])
    ensures
        r@ == blake3_digest(data@),
{
    blake3::hash(data).into()
}

/// Calls `xxhash_rust::xxh64::xxh64`. Claims: the result is the xxHash64 of
/// the input bytes under the seed, which depends on those two alone.
#[verifier::external_body]
fn xxh64(data: &[u8], seed: u64) -> (r: u64)
    ensures
        r == xxh64_digest(data@, seed),
{
    xxhash_rust::xxh64::xxh64(data, seed)
}

/// Calls `zstd::stream::encode_all` on an in-memory source. Claims: it
/// succeeds, with the encoding of the input at that level, and decoding that
/// gives the input back (zstd's lossless round trip). Reading a slice and
/// writing a `Vec` cannot fail and any level is clamped to zstd's range, so
/// the one failure zstd could report is its own allocator running out, which
/// this contract, like every allocation failure, leaves out.
#[verifier::external_body]
fn zstd_encode_all(data: &[u8], level: i32) -> (r: Result<Vec<u8>, String>)
    ensures
        r is Ok,
        r matches Ok(v) ==> v@ == zstd_encoded(data@, level) && zstd_decoded(v@) == Some(data@),
{
    match zstd::stream::encode_all(data, level) {
        Ok(v) => Ok(v),
        Err(e) => Err(e.to_string()),
    }
}

/// Reads at most `cap` decoded bytes from a `zstd::stream::read::Decoder`
/// over `data` (through `Read::take` and `read_to_end`), so a frame that
/// decodes to more never fills memory. Claims: it never hands back more than
/// `cap` bytes; when the whole of `data` decodes to fewer than `cap` bytes it
/// succeeds with exactly them; and a success with fewer than `cap` bytes means
/// the decoder reached the clean end of `data`, so those bytes are the whole
/// decoding. Of a longer or broken stream it claims nothing more: the failure
/// text is the `io::Error` rendered.
#[verifier::external_body]
pub(crate) fn zstd_decode_prefix(data: &[u8], cap: u64) -> (r: Result<Vec<u8>, String>)
    ensures
        r matches Ok(v) ==> v@.len() <= cap,
        r matches Ok(v) ==> (v@.len() < cap ==> zstd_decoded(data@) == Some(v@)),
        r matches Ok(v) ==> (zstd_decoded(data@) is Some && zstd_decoded(data@)->0.len() < cap
            ==> v@ == zstd_decoded(data@)->0),
        r is Ok || !(zstd_decoded(data@) is Some && zstd_decoded(data@)->0.len() < cap),
{
    let mut out: Vec<u8> = Vec::new();
    match zstd::stream::read::Decoder::new(data) {
        Ok(d) => match std::io::Read::read_to_end(&mut std::io::Read::take(d, cap), &mut out) {
            Ok(_) => Ok(out),
            Err(e) => Err(e.to_string()),
        },
        Err(e) => Err(e.to_string()),
    }
}

/// The tier a sector is persisted at; it selects the zstd level.
#[derive(Clone, Copy, Debug, PartialEq, Eq, Structural)]
pub enum Tier {
    /// Fast cache tier: zstd level 1.
    Warm,
    /// Middle tier: zstd level 3.
    Distant,
    /// Write-once, read-rarely tier: zstd level 19.
    Archive,
}

impl Tier {
    pub open spec fn spec_zstd_level(self) -> i32 {
        match self {
            Tier::Warm => 1,
            Tier::Distant => 3,
            Tier::Archive => 19,
        }
    }

    pub open spec fn spec_to_u8(self) -> u8 {
        match self {
            Tier::Warm => 0,
            Tier::Distant => 1,
            Tier::Archive => 2,
        }
    }

    pub open spec fn spec_from_u8(v: u8) -> Tier {
        if v == 0 {
            Tier::Warm
        } else if v == 2 {
            Tier::Archive
        } else {
            Tier::Distant
        }
    }

    /// The zstd compression level of this tier.
    pub fn zstd_level(self) -> (r: i32)
        ensures
            r == self.spec_zstd_level(),
    {
        match self {
            Tier::Warm => 1,
            Tier::Distant => 3,
            Tier::Archive => 19,
        }
    }

    /// The byte stored for this tier in a header.
    pub fn to_u8(self) -> (r: u8)
        ensures
            r == self.spec_to_u8(),
    {
        match self {
            Tier::Warm => 0,
            Tier::Distant => 1,
            Tier::Archive => 2,
        }
    }

    /// Decode a stored tier byte; unknown values fall back to `Distant`.
    pub fn from_u8(v: u8) -> (r: Tier)
        ensures
            r == Tier::spec_from_u8(v),
    {
        if v == 0 {
            Tier::Warm
        } else if v == 2 {
            Tier::Archive
        } else {
            Tier::Distant
        }
    }
}

/// Decoding the stored byte of a tier gives the tier back.
pub proof fn lemma_tier_byte_round_trip(t: Tier)
    ensures
        Tier::spec_from_u8(t.spec_to_u8()) == t,
{
}

/// Byte length of a `SectorHeader` on disk.
pub const SECTOR_HEADER_LEN: usize = 72;

/// xxHash64 seed, fixed so checksums are reproducible across runs.
pub const XXH_SEED: u64 = 0x5472_a3d0_5f1a_b1e2;

/// The fixed header stored in front of each compressed sector payload.
/// Its byte image (`image`) is 72 bytes, little-endian, fields in order.
#[derive(Clone, Copy, Debug)]
pub struct SectorHeader {
    /// `"STSV"`, rejects foreign blobs.
    pub magic: [u8; 4],
    /// Save format version.
    pub version: u16,
    pub _pad: u16,
    /// Sector coordinate.
    pub coord: [i32; 3],
    /// Tier byte (0 Warm, 1 Distant, 2 Archive).
    pub tier: u8,
    /// zstd level actually used (redundant with the tier, aids recovery).
    pub compression_level: i8,
    pub _pad2: [u8; 2],
    /// BLAKE3 over the compressed payload.
    pub payload_hash: [u8; 32],
    /// Compressed payload length in bytes.
    pub payload_size: u32,
    pub _pad3: [u8; 4],
    /// xxHash64 over the compressed payload.
    pub frame_checksum: u64,
}

/// The sector envelope magic, `"STSV"`.
pub open spec fn sector_magic() -> Seq<u8> {
    seq![0x53u8, 0x54u8, 0x53u8, 0x56u8]
}

impl SectorHeader {
    /// Magic bytes of a sector envelope, `"STSV"`.
    pub const MAGIC: [u8; 4] = [0x53, 0x54, 0x53, 0x56];

    /// Current on-disk format version.
    pub const VERSION: u16 = 1;

    /// The coordinate the header records.
    pub open spec fn spec_coord(self) -> SectorCoord {
        SectorCoord(self.coord[0], self.coord[1], self.coord[2])
    }

    /// The stored hash and checksum both match `payload`.
    pub open spec fn matches_payload(self, payload: Seq<u8>) -> bool {
        &&& self.payload_hash@ == blake3_digest(payload)
        &&& self.frame_checksum == xxh64_digest(payload, XXH_SEED)
    }

    /// `self` is the header that `new` builds for `payload` at `coord`, `tier`.
    pub open spec fn describes(self, coord: SectorCoord, tier: Tier, payload: Seq<u8>) -> bool {
        &&& self.magic@ == sector_magic()
        &&& self.version == 1
        &&& self._pad == 0
        &&& self.spec_coord() == coord
        &&& self.tier == tier.spec_to_u8()
        &&& self.compression_level == tier.spec_zstd_level() as i8
        &&& self._pad2@ == seq![0u8, 0u8]
        &&& self.payload_size == payload.len()
        &&& self._pad3@ == seq![0u8, 0u8, 0u8, 0u8]
        &&& self.matches_payload(payload)
    }

    /// The 72-byte little-endian image of the header.
    pub open spec fn image(self) -> Seq<u8> {
        self.magic@ + u16_le(self.version) + u16_le(self._pad) + i32_le(self.coord[0]) + i32_le(
            self.coord[1],
        ) + i32_le(self.coord[2]) + seq![self.tier, self.compression_level as u8] + self._pad2@
            + self.payload_hash@ + u32_le(self.payload_size) + self._pad3@ + u64_le(
            self.frame_checksum,
        )
    }

    /// `self` is the header whose fields are read from the first 72 bytes of `s`.
    pub open spec fn decoded_from(self, s: Seq<u8>) -> bool {
        &&& self.magic@ == s.subrange(0, 4)
        &&& self.version == read_u16(s, 4)
        &&& self._pad == read_u16(s, 6)
        &&& self.coord[0] == read_i32(s, 8)
        &&& self.coord[1] == read_i32(s, 12)
        &&& self.coord[2] == read_i32(s, 16)
        &&& self.tier == s[20]
        &&& self.compression_level == s[21] as i8
        &&& self._pad2@ == s.subrange(22, 24)
        &&& self.payload_hash@ == s.subrange(24, 56)
        &&& self.payload_size == read_u32(s, 56)
        &&& self._pad3@ == s.subrange(60, 64)
        &&& self.frame_checksum == read_u64(s, 64)
    }

    /// Build the header for `payload` (already compressed) of `coord` at `tier`.
    pub fn new(coord: SectorCoord, tier: Tier, payload: &[u8]) -> (r: SectorHeader)
        requires
            payload@.len() <= u32::MAX,
        ensures
            r.describes(coord, tier, payload@),
    {
        let hash = blake3_hash(payload);
        let checksum = xxh64(payload, XXH_SEED);
        let level = tier.zstd_level();
        let r = SectorHeader {
            magic: Self::MAGIC,
            version: Self::VERSION,
            _pad: 0,
            coord: [coord.0, coord.1, coord.2],
            tier: tier.to_u8(),
            compression_level: level as i8,
            _pad2: [0; 2],
            payload_hash: hash,
            payload_size: payload.len() as u32,
            _pad3: [0; 4],
            frame_checksum: checksum,
        };
        assert(r.magic@ =~= sector_magic());
        assert(r._pad2@ =~= seq![0u8, 0u8]);
        assert(r._pad3@ =~= seq![0u8, 0u8, 0u8, 0u8]);
        r
    }

    /// Check the stored magic, hash and checksum against `payload`.
    pub fn verify(&self, payload: &[u8]) -> (r: Result<(), StorageError>)
        ensures
            r is Ok <==> (self.magic@ == sector_magic() && self.matches_payload(payload@)),
            r matches Err(e) ==> if self.magic@ != sector_magic() {
                e is Envelope && e.message() == "bad sector magic"@
            } else {
                e == (StorageError::CorruptPayload { coord: self.spec_coord() })
            },
    {
        let magic = Self::MAGIC;
        if !(self.magic[0] == magic[0] && self.magic[1] == magic[1] && self.magic[2] == magic[2]
            && self.magic[3] == magic[3]) {
            assert(self.magic@ != sector_magic()) by {
                if self.magic@ == sector_magic() {
                    assert(self.magic@[0] == magic[0]);
                    assert(self.magic@[3] == magic[3]);
                }
            }
            return Err(StorageError::Envelope(crate::storage::text::string_of("bad sector magic")));
        }
        assert(self.magic@ =~= sector_magic());
        let hash = blake3_hash(payload);
        if !bytes32_eq(&hash, &self.payload_hash) {
            return Err(
                StorageError::CorruptPayload {
                    coord: SectorCoord(self.coord[0], self.coord[1], self.coord[2]),
                },
            );
        }
        let checksum = xxh64(payload, XXH_SEED);
        if checksum != self.frame_checksum {
            return Err(
                StorageError::CorruptPayload {
                    coord: SectorCoord(self.coord[0], self.coord[1], self.coord[2]),
                },
            );
        }
        Ok(())
    }

    /// The 72-byte on-disk image of the header.
    pub fn to_bytes(&self) -> (r: Vec<u8>)
        ensures
            r@ == self.image(),
            r@.len() == SECTOR_HEADER_LEN,
    {
        let mut out: Vec<u8> = Vec::new();
        push_bytes(&mut out, self.magic.as_slice());
        push_u16(&mut out, self.version);
        push_u16(&mut out, self._pad);
        push_i32(&mut out, self.coord[0]);
        push_i32(&mut out, self.coord[1]);
        push_i32(&mut out, self.coord[2]);
        out.push(self.tier);
        out.push(self.compression_level as u8);
        push_bytes(&mut out, self._pad2.as_slice());
        push_bytes(&mut out, self.payload_hash.as_slice());
        push_u32(&mut out, self.payload_size);
        push_bytes(&mut out, self._pad3.as_slice());
        push_u64(&mut out, self.frame_checksum);
        assert(out@ =~= self.image());
        out
    }

    /// Read a header from the first 72 bytes of `b`.
    pub fn from_bytes(b: &[u8]) -> (r: SectorHeader)
        requires
            b@.len() >= SECTOR_HEADER_LEN,
        ensures
            r.decoded_from(b@),
    {
        let mut magic = [0u8; 4];
        let mut k: usize = 0;
        while k < 4
            invariant
                k <= 4,
                b@.len() >= 72,
                forall|j: int| 0 <= j < k ==> magic[j] == b@[j],
            decreases 4 - k,
        {
            magic[k] = b[k];
            k = k + 1;
        }
        let mut hash = [0u8; 32];
        let mut k: usize = 0;
        while k < 32
            invariant
                k <= 32,
                b@.len() >= 72,
                forall|j: int| 0 <= j < k ==> hash[j] == b@[24 + j],
            decreases 32 - k,
        {
            hash[k] = b[24 + k];
            k = k + 1;
        }
        let r = SectorHeader {
            magic,
            version: get_u16(b, 4),
            _pad: get_u16(b, 6),
            coord: [get_i32(b, 8), get_i32(b, 12), get_i32(b, 16)],
            tier: b[20],
            compression_level: b[21] as i8,
            _pad2: [b[22], b[23]],
            payload_hash: hash,
            payload_size: get_u32(b, 56),
            _pad3: [b[60], b[61], b[62], b[63]],
            frame_checksum: get_u64(b, 64),
        };
        assert(r.magic@ =~= b@.subrange(0, 4));
        assert(r._pad2@ =~= b@.subrange(22, 24));
        assert(r.payload_hash@ =~= b@.subrange(24, 56));
        assert(r._pad3@ =~= b@.subrange(60, 64));
        r
    }
}

/// The header read back from a header's image (whatever follows it) is that header.
pub proof fn lemma_header_image_round_trip(h: SectorHeader, tail: Seq<u8>, r: SectorHeader)
    requires
        r.decoded_from(h.image() + tail),
    ensures
        r == h,
{
    let s = h.image() + tail;
    assert(h.image().len() == 72);
    assert(s.subrange(0, 4) =~= h.magic@);
    assert(s.subrange(4, 6) =~= u16_le(h.version));
    lemma_read_u16(s, 4, h.version);
    assert(s.subrange(6, 8) =~= u16_le(h._pad));
    lemma_read_u16(s, 6, h._pad);
    assert(s.subrange(8, 12) =~= i32_le(h.coord[0]));
    lemma_read_i32(s, 8, h.coord[0]);
    assert(s.subrange(12, 16) =~= i32_le(h.coord[1]));
    lemma_read_i32(s, 12, h.coord[1]);
    assert(s.subrange(16, 20) =~= i32_le(h.coord[2]));
    lemma_read_i32(s, 16, h.coord[2]);
    assert(s[20] == h.tier);
    assert(s[21] == h.compression_level as u8);
    let lv = h.compression_level;
    assert((lv as u8) as i8 == lv) by (bit_vector);
    assert(s.subrange(22, 24) =~= h._pad2@);
    assert(s.subrange(24, 56) =~= h.payload_hash@);
    assert(s.subrange(56, 60) =~= u32_le(h.payload_size));
    lemma_read_u32(s, 56, h.payload_size);
    assert(s.subrange(60, 64) =~= h._pad3@);
    assert(s.subrange(64, 72) =~= u64_le(h.frame_checksum));
    lemma_read_u64(s, 64, h.frame_checksum);
    assert(r.magic =~= h.magic);
    assert(r.coord =~= h.coord);
    assert(r._pad2 =~= h._pad2);
    assert(r.payload_hash =~= h.payload_hash);
    assert(r._pad3 =~= h._pad3);
}

fn bytes32_eq(a: &[u8; 32], b: &[u8; 32]) -> (r: bool)
    ensures
        r == (a@ == b@),
{
    let mut k: usize = 0;
    while k < 32
        invariant
            k <= 32,
            forall|j: int| 0 <= j < k ==> a@[j] == b@[j],
        decreases 32 - k,
    {
        if a[k] != b[k] {
            return false;
        }
        k = k + 1;
    }
    assert(a@ =~= b@);
    true
}

/// Compress `payload` at the tier's zstd level.
pub fn compress(payload: &[u8], tier: Tier) -> (r: Result<Vec<u8>, StorageError>)
    ensures
        r is Ok,
        r matches Ok(v) ==> v@ == zstd_encoded(payload@, tier.spec_zstd_level()) && zstd_decoded(
            v@,
        ) == Some(payload@),
{
    match zstd_encode_all(payload, tier.zstd_level()) {
        Ok(v) => Ok(v),
        Err(msg) => Err(StorageError::Compress(msg)),
    }
}

/// Decompress bytes produced by `compress`, refusing a decoding longer than
/// `MAX_DECOMPRESSED_SECTOR_BYTES`.
pub fn decompress(bytes: &[u8]) -> (r: Result<Vec<u8>, StorageError>)
    ensures
        r is Ok <==> (zstd_decoded(bytes@) matches Some(d) && d.len() <= MAX_DECOMPRESSED_SECTOR_BYTES),
        r matches Ok(v) ==> zstd_decoded(bytes@) == Some(v@),
        r matches Err(e) ==> e is Decompress,
{
    crate::storage::compress::decompress_with_limit(bytes, MAX_DECOMPRESSED_SECTOR_BYTES)
}

/// BLAKE3 over a compressed payload: the deduplication key.
pub fn compute_hash(bytes: &[u8]) -> (r: [u8; 32])
    ensures
        r@ == blake3_digest(bytes@),
{
    blake3_hash(bytes)
}

/// xxHash64 over a compressed payload: the independent bit-rot checksum.
pub fn compute_frame_checksum(bytes: &[u8]) -> (r: u64)
    ensures
        r == xxh64_digest(bytes@, XXH_SEED),
{
    xxh64(bytes, XXH_SEED)
}

/// A header built for payload `p` verifies against `p` (`verify` gives
/// `Ok`), and so does the header read back from its byte image; against a
/// payload `q` whose BLAKE3 digest or xxHash64 differs from `p`'s it fails
/// with `CorruptPayload` naming the header's coordinate. (A header whose
/// magic is not `STSV` fails with an `Envelope` error: `verify` says so.)
pub proof fn lemma_new_header_verifies(
    h: SectorHeader,
    coord: SectorCoord,
    tier: Tier,
    p: Seq<u8>,
    q: Seq<u8>,
    decoded: SectorHeader,
)
    requires
        h.describes(coord, tier, p),
    ensures
        h.magic@ == sector_magic(),
        h.matches_payload(p),
        decoded.decoded_from(h.image()) ==> decoded == h && decoded.magic@ == sector_magic()
            && decoded.matches_payload(p),
        (blake3_digest(q) != blake3_digest(p) || xxh64_digest(q, XXH_SEED) != xxh64_digest(
            p,
            XXH_SEED,
        )) ==> !h.matches_payload(q) && h.spec_coord() == coord,
{
    if decoded.decoded_from(h.image()) {
        assert(h.image() + Seq::<u8>::empty() =~= h.image());
        lemma_header_image_round_trip(h, Seq::empty(), decoded);
    }
}

} // verus!
