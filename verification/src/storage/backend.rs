//! The decisions of the storage worker: in which order a burst of requests
//! is served and how a write is prepared (a read payload is decoded by
//! `compress::decode_stored_payload`).
//! Channels, tasks and file access are the caller's.

use vstd::prelude::*;

use crate::storage::coord::SectorCoord;
use crate::storage::envelope::{self, zstd_decoded, zstd_encoded, SectorHeader, Tier};
use crate::storage::error::StorageError;
use crate::storage::text::string_of;

verus! {

/// Request priorities; a lower number is served first.
pub const PRIORITY_ACTIVE: u8 = 0;

pub const PRIORITY_WARM: u8 = 1;

pub const PRIORITY_DISTANT: u8 = 2;

pub const PRIORITY_ARCHIVE: u8 = 3;

/// Request `a` is served before request `b`: lower priority number first,
/// arrival order among equal priorities.
pub open spec fn served_before(pr: Seq<u8>, a: int, b: int) -> bool {
    pr[a] < pr[b] || (pr[a] == pr[b] && a < b)
}

/// The order in which to serve a burst of requests with priorities
/// `priorities` (in arrival order): every index once, by ascending priority,
/// stable among equal priorities.
pub fn priority_order(priorities: &[u8]) -> (r: Vec<usize>)
    ensures
        forall|k: int| 0 <= k < r@.len() ==> r@[k] < priorities@.len(),
        forall|i: usize| i < priorities@.len() ==> #[trigger] r@.contains(i),
        forall|k1: int, k2: int|
            0 <= k1 < k2 < r@.len() ==> served_before(priorities@, r@[k1] as int, r@[k2] as int),
{
    let n = priorities.len();
    let ghost pr = priorities@;
    let mut out: Vec<usize> = Vec::new();
    let mut p: u16 = 0;
    while p < 256
        invariant
            pr == priorities@,
            n == pr.len(),
            p <= 256,
            forall|k: int| 0 <= k < out@.len() ==> out@[k] < n && pr[out@[k] as int] < p,
            forall|j: usize| j < n && pr[j as int] < p ==> #[trigger] out@.contains(j),
            forall|k1: int, k2: int|
                0 <= k1 < k2 < out@.len() ==> served_before(pr, out@[k1] as int, out@[k2] as int),
        decreases 256 - p,
    {
        let ghost start = out@.len();
        let mut i: usize = 0;
        while i < n
            invariant
                pr == priorities@,
                n == pr.len(),
                p < 256,
                i <= n,
                start <= out@.len(),
                forall|k: int| 0 <= k < start ==> out@[k] < n && pr[out@[k] as int] < p,
                forall|k: int| start <= k < out@.len() ==> out@[k] < i && pr[out@[k] as int] == p,
                forall|j: usize| j < n && pr[j as int] < p ==> #[trigger] out@.contains(j),
                forall|j: usize| j < i && pr[j as int] == p ==> #[trigger] out@.contains(j),
                forall|k1: int, k2: int|
                    0 <= k1 < k2 < out@.len() ==> served_before(pr, out@[k1] as int, out@[k2] as int),
            decreases n - i,
        {
            if priorities[i] as u16 == p {
                let ghost before = out@;
                out.push(i);
                proof {
                    assert forall|j: usize| j < n && pr[j as int] < p implies #[trigger] out@.contains(j) by {
                        assert(before.contains(j));
                        let k = choose|k: int| 0 <= k < before.len() && before[k] == j;
                        assert(out@[k] == j);
                    }
                    assert forall|j: usize| j < i + 1 && pr[j as int] == p implies #[trigger] out@.contains(j) by {
                        if j < i {
                            assert(before.contains(j));
                            let k = choose|k: int| 0 <= k < before.len() && before[k] == j;
                            assert(out@[k] == j);
                        } else {
                            assert(out@[before.len() as int] == j);
                        }
                    }
                    assert forall|k1: int, k2: int|
                        0 <= k1 < k2 < out@.len() implies served_before(pr, out@[k1] as int, out@[k2] as int) by {
                        if k2 == before.len() {
                            if k1 < start {
                                assert(pr[out@[k1] as int] < p);
                            } else {
                                assert(out@[k1] < i);
                            }
                        } else {
                            assert(out@[k1] == before[k1] && out@[k2] == before[k2]);
                        }
                    }
                }
            }
            i = i + 1;
        }
        p = p + 1;
    }
    proof {
        assert forall|i: usize| i < n implies #[trigger] out@.contains(i) by {
            assert(pr[i as int] < 256);
        }
    }
    out
}

/// Compress a sector payload at the warm tier and build its header. A
/// compressed result too long for the header's 32-bit size field is refused.
pub fn prepare_write(coord: SectorCoord, payload: &[u8]) -> (r: Result<(SectorHeader, Vec<u8>), StorageError>)
    ensures
        r is Ok <==> zstd_encoded(payload@, 1).len() <= u32::MAX,
        r matches Ok(v) ==> v.1@ == zstd_encoded(payload@, 1) && zstd_decoded(v.1@) == Some(payload@)
            && v.0.describes(coord, Tier::Warm, v.1@),
        r matches Err(e) ==> e is Region && e.message()
            == "compressed sector exceeds the 32-bit size field"@,
{
    let compressed = match envelope::compress(payload, Tier::Warm) {
        Ok(v) => v,
        Err(e) => return Err(e),
    };
    if compressed.len() > u32::MAX as usize {
        return Err(StorageError::Region(string_of("compressed sector exceeds the 32-bit size field")));
    }
    let header = SectorHeader::new(coord, Tier::Warm, compressed.as_slice());
    Ok((header, compressed))
}

} // verus!
