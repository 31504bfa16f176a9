//! Binary greedy mesher: per-axis face masks, neighbor-aware face culling,
//! per-vertex ambient occlusion, and AO-safe greedy merging of coplanar faces.

use vstd::prelude::*;
use crate::meshing::block::{BlockId, BlockRegistry, VoxelCoord};
use crate::meshing::merge::{greedy_merge, is_greedy_cover, Rect};
use crate::meshing::packed_quad::{PackedQuad, pack_ao_spec, pack_light_spec, lemma_spec_new_fields, FLIP_FLAG};
use crate::meshing::visbuf::{meshdata_to_gpu_bytes, quad_bytes};

verus! {

/// Voxels in one 32^3 sector snapshot.
pub const SNAPSHOT_LEN: usize = 32768;
/// Voxels in one 32x32 sector-boundary plane.
pub const PLANE_LEN: usize = 1024;

/// Snapshot index of `(x, y, z)`: `x + y * 32 + z * 1024`.
pub open spec fn snap_index_spec(x: int, y: int, z: int) -> int {
    x + y * 32 + z * 1024
}

/// Boundary-plane index of an in-plane sample for neighbor direction `idx`
/// (0 = +X .. 5 = -Z): the two tangent coordinates.
pub open spec fn plane_index_spec(idx: int, nx: int, ny: int, nz: int) -> int {
    if idx == 0 || idx == 1 {
        ny * 32 + nz
    } else if idx == 2 || idx == 3 {
        nx * 32 + nz
    } else {
        nx * 32 + ny
    }
}

pub open spec fn in_sector(x: int, y: int, z: int) -> bool {
    0 <= x < 32 && 0 <= y < 32 && 0 <= z < 32
}

/// Coordinates within one voxel of the sector box.
pub open spec fn near_sector(x: int, y: int, z: int) -> bool {
    -1 <= x <= 32 && -1 <= y <= 32 && -1 <= z <= 32
}

/// Wrap a coordinate in `-1..=32` into the neighbor-local range `0..32`.
pub open spec fn wrap32(v: int) -> int {
    if v < 0 {
        v + 32
    } else if v > 31 {
        v - 32
    } else {
        v
    }
}

/// `p` moved by `delta` along axis `a`.
pub open spec fn bump(p: [i32; 3], a: int, delta: int) -> [i32; 3] {
    [
        if a == 0 { (p[0] + delta) as i32 } else { p[0] },
        if a == 1 { (p[1] + delta) as i32 } else { p[1] },
        if a == 2 { (p[2] + delta) as i32 } else { p[2] },
    ]
}

/// Whether the face of `a` toward neighbor `b` is drawn: `a` must be solid;
/// air always exposes it; an opaque/transparent boundary always shows; two
/// transparent blocks expose each other only when they differ.
pub open spec fn face_visible_spec(a: BlockId, b: BlockId, reg: &BlockRegistry) -> bool {
    if a == BlockId(0) {
        false
    } else if b == BlockId(0) {
        true
    } else if reg.spec_is_transparent(a) != reg.spec_is_transparent(b) {
        true
    } else if reg.spec_is_transparent(a) && reg.spec_is_transparent(b) {
        a != b
    } else {
        false
    }
}

/// Whether `a`'s outward face toward `b` is visible (see [`face_visible_spec`]).
pub fn face_visible(a: BlockId, b: BlockId, reg: &BlockRegistry) -> (r: bool)
    ensures
        r == face_visible_spec(a, b, reg),
{
    if a == BlockId::air() {
        return false;
    }
    if b == BlockId::air() {
        return true;
    }
    let ta = reg.is_transparent(a);
    let tb = reg.is_transparent(b);
    if ta != tb {
        return true;
    }
    if ta && tb {
        return a != b;
    }
    false
}

/// Face culling. Air owns no face; a solid block shows its face toward air;
/// a face between an opaque and a transparent block always shows; between two
/// transparent blocks it shows exactly when they are different blocks (so
/// glass beside water draws both shared faces, glass beside glass none);
/// between two opaque blocks it never shows. Between two solid blocks the
/// face is drawn from both sides or from neither.
pub proof fn lemma_face_visibility(a: BlockId, b: BlockId, reg: &BlockRegistry)
    ensures
        a == BlockId(0) ==> !face_visible_spec(a, b, reg),
        a != BlockId(0) && b == BlockId(0) ==> face_visible_spec(a, b, reg),
        a != BlockId(0) && b != BlockId(0) && reg.spec_is_transparent(a) != reg.spec_is_transparent(b)
            ==> face_visible_spec(a, b, reg),
        a != BlockId(0) && b != BlockId(0) && reg.spec_is_transparent(a) && reg.spec_is_transparent(b)
            ==> (face_visible_spec(a, b, reg) <==> a != b),
        a != BlockId(0) && b != BlockId(0) && !reg.spec_is_transparent(a) && !reg.spec_is_transparent(b)
            ==> !face_visible_spec(a, b, reg),
        a != BlockId(0) && b != BlockId(0) ==> face_visible_spec(a, b, reg) == face_visible_spec(b, a, reg),
{
}

fn snap_index(x: u32, y: u32, z: u32) -> (r: usize)
    requires
        x < 32 && y < 32 && z < 32,
    ensures
        r == snap_index_spec(x as int, y as int, z as int),
        r < 32768,
{
    (x + y * 32 + z * 1024) as usize
}

fn plane_index(idx: usize, nx: u32, ny: u32, nz: u32) -> (r: usize)
    requires
        nx < 32 && ny < 32 && nz < 32,
    ensures
        r == plane_index_spec(idx as int, nx as int, ny as int, nz as int),
        r < 1024,
{
    if idx == 0 || idx == 1 {
        (ny * 32 + nz) as usize
    } else if idx == 2 || idx == 3 {
        (nx * 32 + nz) as usize
    } else {
        (nx * 32 + ny) as usize
    }
}

fn wrap_coord(v: i32) -> (r: u32)
    requires
        -1 <= v <= 32,
    ensures
        r == wrap32(v as int),
        r < 32,
{
    if v < 0 {
        (v + 32) as u32
    } else if v > 31 {
        (v - 32) as u32
    } else {
        v as u32
    }
}

/// Read-only view of a sector's voxels and its six neighbors' facing
/// boundary planes (neighbor index 0 = +X, 1 = -X, 2 = +Y, 3 = -Y, 4 = +Z,
/// 5 = -Z); an absent neighbor reads as `unloaded`.
pub struct SectorSampler<'a> {
    pub self_vox: &'a [BlockId],
    pub neighbors: &'a [Option<&'a [BlockId]>],
    pub unloaded: BlockId,
}

impl<'a> SectorSampler<'a> {
    /// The snapshot has 32^3 voxels and there are six neighbor planes of 32^2.
    pub open spec fn wf(&self) -> bool {
        &&& self.self_vox@.len() == 32768
        &&& self.neighbors@.len() == 6
        &&& forall|k: int| 0 <= k < 6 ==> (#[trigger] self.neighbors@[k] matches Some(p) ==> p@.len() == 1024)
    }

    /// The block at `(x, y, z)`: a voxel of the sector, or, one step outside,
    /// the facing neighbor plane's voxel (the other axes wrapped into range).
    #[verifier::opaque]
    pub open spec fn spec_sample(&self, x: int, y: int, z: int) -> BlockId {
        if in_sector(x, y, z) {
            self.self_vox@[snap_index_spec(x, y, z)]
        } else {
            let (nx, ny, nz, idx) = if x < 0 {
                (31int, y, z, 1int)
            } else if x > 31 {
                (0int, y, z, 0int)
            } else if y < 0 {
                (x, 31int, z, 3int)
            } else if y > 31 {
                (x, 0int, z, 2int)
            } else if z < 0 {
                (x, y, 31int, 5int)
            } else {
                (x, y, 0int, 4int)
            };
            match self.neighbors@[idx] {
                Some(p) => p@[plane_index_spec(idx, wrap32(nx), wrap32(ny), wrap32(nz))],
                None => self.unloaded,
            }
        }
    }

    pub open spec fn spec_solid(&self, x: int, y: int, z: int) -> bool {
        self.spec_sample(x, y, z) != BlockId(0)
    }

    pub open spec fn spec_solid_at(&self, p: [i32; 3]) -> bool {
        self.spec_solid(p[0] as int, p[1] as int, p[2] as int)
    }

    /// Vertex AO (0 = occluded .. 3 = open) from the two edge neighbors and the
    /// diagonal corner of `base` toward `(du, dv)` in the `(u, v)` plane.
    #[verifier::opaque]
    pub open spec fn spec_ao_at(&self, base: [i32; 3], u: int, v: int, du: int, dv: int) -> u8 {
        let s1: u8 = if self.spec_solid_at(bump(base, u, du)) { 1 } else { 0 };
        let s2: u8 = if self.spec_solid_at(bump(base, v, dv)) { 1 } else { 0 };
        let c: u8 = if self.spec_solid_at(bump(bump(base, u, du), v, dv)) { 1 } else { 0 };
        if s1 == 1 && s2 == 1 {
            0
        } else {
            (3 - (s1 + s2 + c)) as u8
        }
    }

    fn sample_block(&self, x: i32, y: i32, z: i32) -> (r: BlockId)
        requires
            self.wf(),
            near_sector(x as int, y as int, z as int),
        ensures
            r == self.spec_sample(x as int, y as int, z as int),
    {
        reveal(SectorSampler::spec_sample);
        if 0 <= x && x < 32 && 0 <= y && y < 32 && 0 <= z && z < 32 {
            return self.self_vox[snap_index(x as u32, y as u32, z as u32)];
        }
        let (nx, ny, nz, idx): (i32, i32, i32, usize) = if x < 0 {
            (31, y, z, 1)
        } else if x > 31 {
            (0, y, z, 0)
        } else if y < 0 {
            (x, 31, z, 3)
        } else if y > 31 {
            (x, 0, z, 2)
        } else if z < 0 {
            (x, y, 31, 5)
        } else {
            (x, y, 0, 4)
        };
        let wx = wrap_coord(nx);
        let wy = wrap_coord(ny);
        let wz = wrap_coord(nz);
        match self.neighbors[idx] {
            Some(plane) => {
                assert(self.neighbors@[idx as int] matches Some(p) ==> p@.len() == 1024);
                plane[plane_index(idx, wx, wy, wz)]
            },
            None => self.unloaded,
        }
    }

    fn solid_at(&self, p: [i32; 3]) -> (r: bool)
        requires
            self.wf(),
            near_sector(p[0] as int, p[1] as int, p[2] as int),
        ensures
            r == self.spec_solid_at(p),
    {
        self.sample_block(p[0], p[1], p[2]) != BlockId::air()
    }

    fn ao_at(&self, base: [i32; 3], u: usize, v: usize, du: i32, dv: i32) -> (r: u8)
        requires
            self.wf(),
            u < 3 && v < 3 && u != v,
            du == 1 || du == -1,
            dv == 1 || dv == -1,
            near_sector(base[0] as int, base[1] as int, base[2] as int),
            0 <= base[u as int] <= 31,
            0 <= base[v as int] <= 31,
        ensures
            r == self.spec_ao_at(base, u as int, v as int, du as int, dv as int),
            r <= 3,
    {
        let mut c1 = base;
        c1[u] = c1[u] + du;
        let mut c2 = base;
        c2[v] = c2[v] + dv;
        let mut c3 = c1;
        c3[v] = c3[v] + dv;
        assert(c1@ =~= bump(base, u as int, du as int)@);
        assert(c2@ =~= bump(base, v as int, dv as int)@);
        assert(c3@ =~= bump(bump(base, u as int, du as int), v as int, dv as int)@);
        reveal(SectorSampler::spec_ao_at);
        let s1: u8 = if self.solid_at(c1) { 1 } else { 0 };
        let s2: u8 = if self.solid_at(c2) { 1 } else { 0 };
        let corner: u8 = if self.solid_at(c3) { 1 } else { 0 };
        if s1 == 1 && s2 == 1 {
            0
        } else {
            3 - (s1 + s2 + corner)
        }
    }
}

/// Decoded light nibble pair, each `0..=15`.
#[derive(Clone, Copy, Debug, Default, PartialEq, Eq, Structural)]
pub struct LightSample {
    pub sky: u8,
    pub block: u8,
}

/// Read-only view of a sector's 32^3 light values (`sky` in the low nibble,
/// `block` in the next nibble), indexed `(y * 32 + z) * 32 + x`.
pub struct SectorLightView<'a> {
    pub data: &'a [u16],
}

pub open spec fn light_index_spec(x: int, y: int, z: int) -> int {
    (y * 32 + z) * 32 + x
}

impl<'a> SectorLightView<'a> {
    pub open spec fn wf(&self) -> bool {
        self.data@.len() == 32768
    }

    pub open spec fn spec_get(&self, x: int, y: int, z: int) -> LightSample {
        let raw = self.data@[light_index_spec(x, y, z)];
        LightSample { sky: (raw & 0xF) as u8, block: ((raw >> 4u16) & 0xF) as u8 }
    }

    /// Wrap a 32^3 light array.
    pub fn new(data: &'a [u16]) -> (r: Self)
        requires
            data@.len() == 32768,
        ensures
            r.data@ == data@,
            r.wf(),
    {
        SectorLightView { data }
    }

    /// Wrap a sector's 32^3 light array.
    pub fn from_light_data(data: &'a [u16]) -> (r: Self)
        requires
            data@.len() == 32768,
        ensures
            r.data@ == data@,
            r.wf(),
    {
        SectorLightView { data }
    }

    /// Light sample at `c`.
    pub fn get(&self, c: VoxelCoord) -> (r: LightSample)
        requires
            self.wf(),
            c.x < 32 && c.y < 32 && c.z < 32,
        ensures
            r == self.spec_get(c.x as int, c.y as int, c.z as int),
            r.sky < 16 && r.block < 16,
    {
        let idx = ((c.y * 32 + c.z) * 32 + c.x) as usize;
        let raw = self.data[idx];
        assert((raw & 0xF) < 16 && ((raw >> 4u16) & 0xF) < 16) by (bit_vector);
        LightSample { sky: (raw & 0xF) as u8, block: ((raw >> 4u16) & 0xF) as u8 }
    }
}

/// Tangent axes of the face axis `d`.
pub open spec fn axis_u(d: int) -> int {
    (d + 1) % 3
}

pub open spec fn axis_v(d: int) -> int {
    (d + 2) % 3
}

/// The point with coordinate `a` on axis `d`, `i` on the first tangent axis
/// and `j` on the second.
pub open spec fn axis_point(d: int, a: int, i: int, j: int) -> [i32; 3] {
    [
        (if d == 0 { a } else if axis_u(d) == 0 { i } else { j }) as i32,
        (if d == 1 { a } else if axis_u(d) == 1 { i } else { j }) as i32,
        (if d == 2 { a } else if axis_u(d) == 2 { i } else { j }) as i32,
    ]
}

/// First plane layer of a face pass: `+` faces use layers `0..32`, `-` faces `-1..31`.
pub open spec fn layer_start(s: int) -> int {
    if s > 0 { 0 } else { -1 }
}

/// Coordinate (along `d`) of the voxel that owns the faces between layers `n` and `n + 1`.
pub open spec fn owner_layer(s: int, n: int) -> int {
    if s > 0 { n } else { n + 1 }
}

pub open spec fn clamp31(v: int) -> int {
    if v < 0 {
        0
    } else if v > 31 {
        31
    } else {
        v
    }
}

impl<'a> SectorSampler<'a> {
    pub open spec fn spec_sample_at(&self, p: [i32; 3]) -> BlockId {
        self.spec_sample(p[0] as int, p[1] as int, p[2] as int)
    }

    /// The face entry at cell `(i, j)` of the plane between layers `n` and
    /// `n + 1` along axis `d`: the owning block when its face (toward `s`)
    /// is visible.
    pub open spec fn spec_face_entry(&self, reg: &BlockRegistry, d: int, s: int, n: int, i: int, j: int) -> Option<BlockId> {
        let b = self.spec_sample_at(axis_point(d, n, i, j));
        let f = self.spec_sample_at(axis_point(d, n + 1, i, j));
        if s > 0 {
            if face_visible_spec(b, f, reg) { Some(b) } else { None }
        } else {
            if face_visible_spec(f, b, reg) { Some(f) } else { None }
        }
    }

    pub open spec fn spec_face_mask(&self, reg: &BlockRegistry, d: int, s: int, n: int) -> Seq<Option<BlockId>> {
        Seq::new(1024, |k: int| self.spec_face_entry(reg, d, s, n, k % 32, k / 32))
    }

    /// AO of the four corners of one owning voxel's face (`base` is the owner).
    pub open spec fn spec_ao_signature(&self, base: [i32; 3], d: int, s: int) -> [u8; 4] {
        let side = bump(base, d, s);
        let u = axis_u(d);
        let v = axis_v(d);
        [
            self.spec_ao_at(side, u, v, -1, -1),
            self.spec_ao_at(side, u, v, 1, -1),
            self.spec_ao_at(side, u, v, -1, 1),
            self.spec_ao_at(side, u, v, 1, 1),
        ]
    }

    /// Packed AO signature of each face cell (0 where no face shows).
    pub open spec fn spec_sig_cell(&self, reg: &BlockRegistry, d: int, s: int, n: int, i: int, j: int) -> u8 {
        if self.spec_face_entry(reg, d, s, n, i, j) is Some {
            let a = self.spec_ao_signature(axis_point(d, owner_layer(s, n), i, j), d, s);
            pack_ao_spec(a[0], a[1], a[2], a[3])
        } else {
            0
        }
    }

    pub open spec fn spec_face_sig(&self, reg: &BlockRegistry, d: int, s: int, n: int) -> Seq<u8> {
        Seq::new(1024, |k: int| self.spec_sig_cell(reg, d, s, n, k % 32, k / 32))
    }

    /// AO at the four corners of a `w x h` quad whose min-corner owner voxel is `base`.
    pub open spec fn spec_compute_ao(&self, base: [i32; 3], d: int, s: int, w: int, h: int) -> [u8; 4] {
        let side = bump(base, d, s);
        let u = axis_u(d);
        let v = axis_v(d);
        let c1 = bump(side, u, w - 1);
        let c2 = bump(side, v, h - 1);
        let c3 = bump(c1, v, h - 1);
        [
            self.spec_ao_at(side, u, v, -1, -1),
            self.spec_ao_at(c1, u, v, 1, -1),
            self.spec_ao_at(c2, u, v, -1, 1),
            self.spec_ao_at(c3, u, v, 1, 1),
        ]
    }

    fn ao_signature(&self, base: [i32; 3], d: usize, s: i32) -> (r: [u8; 4])
        requires
            self.wf(),
            d < 3,
            s == 1 || s == -1,
            in_sector(base[0] as int, base[1] as int, base[2] as int),
        ensures
            r == self.spec_ao_signature(base, d as int, s as int),
            r[0] <= 3 && r[1] <= 3 && r[2] <= 3 && r[3] <= 3,
    {
        let (u, v) = tangents(d);
        let mut side = base;
        side[d] = side[d] + s;
        assert(side@ =~= bump(base, d as int, s as int)@);
        assert(side == bump(base, d as int, s as int));
        let r = [
            self.ao_at(side, u, v, -1, -1),
            self.ao_at(side, u, v, 1, -1),
            self.ao_at(side, u, v, -1, 1),
            self.ao_at(side, u, v, 1, 1),
        ];
        assert(r@ =~= self.spec_ao_signature(base, d as int, s as int)@);
        r
    }

    fn compute_ao(&self, base: [i32; 3], d: usize, s: i32, w: i32, h: i32) -> (r: [u8; 4])
        requires
            self.wf(),
            d < 3,
            s == 1 || s == -1,
            in_sector(base[0] as int, base[1] as int, base[2] as int),
            1 <= w && 1 <= h,
            base[axis_u(d as int)] + w <= 32,
            base[axis_v(d as int)] + h <= 32,
        ensures
            r == self.spec_compute_ao(base, d as int, s as int, w as int, h as int),
            r[0] <= 3 && r[1] <= 3 && r[2] <= 3 && r[3] <= 3,
    {
        let (u, v) = tangents(d);
        let mut side = base;
        side[d] = side[d] + s;
        assert(side@ =~= bump(base, d as int, s as int)@);
        assert(side == bump(base, d as int, s as int));
        let mut c1 = side;
        c1[u] = c1[u] + (w - 1);
        assert(c1@ =~= bump(side, u as int, (w - 1) as int)@);
        assert(c1 == bump(side, u as int, (w - 1) as int));
        let mut c2 = side;
        c2[v] = c2[v] + (h - 1);
        assert(c2@ =~= bump(side, v as int, (h - 1) as int)@);
        assert(c2 == bump(side, v as int, (h - 1) as int));
        let mut c3 = c1;
        c3[v] = c3[v] + (h - 1);
        assert(c3@ =~= bump(c1, v as int, (h - 1) as int)@);
        assert(c3 == bump(c1, v as int, (h - 1) as int));
        let r = [
            self.ao_at(side, u, v, -1, -1),
            self.ao_at(c1, u, v, 1, -1),
            self.ao_at(c2, u, v, -1, 1),
            self.ao_at(c3, u, v, 1, 1),
        ];
        assert(r@ =~= self.spec_compute_ao(base, d as int, s as int, w as int, h as int)@);
        r
    }
}

/// Tangent axes `(u, v)` of axis `d`.
fn tangents(d: usize) -> (r: (usize, usize))
    requires
        d < 3,
    ensures
        r.0 == axis_u(d as int),
        r.1 == axis_v(d as int),
        r.0 < 3 && r.1 < 3 && r.0 != r.1 && r.0 != d && r.1 != d,
{
    if d == 0 {
        (1, 2)
    } else if d == 1 {
        (2, 0)
    } else {
        (0, 1)
    }
}

proof fn lemma_cell_divmod(i: int, j: int)
    requires
        0 <= i < 32,
        0 <= j,
    ensures
        (j * 32 + i) % 32 == i,
        (j * 32 + i) / 32 == j,
{
    vstd::arithmetic::div_mod::lemma_fundamental_div_mod_converse(j * 32 + i, 32, j, i);
}

fn make_point(d: usize, a: i32, i: i32, j: i32) -> (r: [i32; 3])
    requires
        d < 3,
    ensures
        r == axis_point(d as int, a as int, i as int, j as int),
{
    let (u, v) = tangents(d);
    let mut p: [i32; 3] = [0, 0, 0];
    p[u] = i;
    p[v] = j;
    p[d] = a;
    assert(p@ =~= axis_point(d as int, a as int, i as int, j as int)@);
    p
}

impl<'a> SectorSampler<'a> {
    fn face_entry(&self, reg: &BlockRegistry, d: usize, s: i32, n: i32, i: i32, j: i32) -> (r: Option<BlockId>)
        requires
            self.wf(),
            d < 3,
            s == 1 || s == -1,
            -1 <= n <= 31,
            0 <= i < 32,
            0 <= j < 32,
        ensures
            r == self.spec_face_entry(reg, d as int, s as int, n as int, i as int, j as int),
    {
        let back = make_point(d, n, i, j);
        let front = make_point(d, n + 1, i, j);
        let b = self.sample_block(back[0], back[1], back[2]);
        let f = self.sample_block(front[0], front[1], front[2]);
        if s > 0 {
            if face_visible(b, f, reg) { Some(b) } else { None }
        } else {
            if face_visible(f, b, reg) { Some(f) } else { None }
        }
    }

    /// Face mask of the plane between layers `n` and `n + 1` along axis `d`.
    fn build_face_mask(&self, reg: &BlockRegistry, d: usize, s: i32, n: i32) -> (mask: Vec<Option<BlockId>>)
        requires
            self.wf(),
            d < 3,
            s == 1 || s == -1,
            -1 <= n <= 31,
        ensures
            mask@ == self.spec_face_mask(reg, d as int, s as int, n as int),
    {
        let mut mask: Vec<Option<BlockId>> = Vec::new();
        let mut j: i32 = 0;
        while j < 32
            invariant
                self.wf(),
                d < 3,
                s == 1 || s == -1,
                -1 <= n <= 31,
                0 <= j <= 32,
                mask@.len() == j * 32,
                forall|k: int| 0 <= k < mask@.len() ==> #[trigger] mask@[k] == self.spec_face_entry(reg, d as int, s as int, n as int, k % 32, k / 32),
            decreases 32 - j,
        {
            let mut i: i32 = 0;
            while i < 32
                invariant
                    self.wf(),
                    d < 3,
                    s == 1 || s == -1,
                    -1 <= n <= 31,
                    0 <= j < 32,
                    0 <= i <= 32,
                    mask@.len() == j * 32 + i,
                    forall|k: int| 0 <= k < mask@.len() ==> #[trigger] mask@[k] == self.spec_face_entry(reg, d as int, s as int, n as int, k % 32, k / 32),
                decreases 32 - i,
            {
                let e = self.face_entry(reg, d, s, n, i, j);
                proof {
                    lemma_cell_divmod(i as int, j as int);
                }
                mask.push(e);
                i += 1;
            }
            j += 1;
        }
        assert(mask@ =~= self.spec_face_mask(reg, d as int, s as int, n as int));
        mask
    }

    /// Packed AO signatures of the face cells of `mask`.
    fn build_face_sig(&self, reg: &BlockRegistry, mask: &Vec<Option<BlockId>>, d: usize, s: i32, n: i32) -> (sig: Vec<u8>)
        requires
            self.wf(),
            d < 3,
            s == 1 || s == -1,
            -1 <= n <= 31,
            (s == 1 ==> n >= 0),
            (s == -1 ==> n <= 30),
            mask@ == self.spec_face_mask(reg, d as int, s as int, n as int),
        ensures
            sig@ == self.spec_face_sig(reg, d as int, s as int, n as int),
    {
        let sd: i32 = if s > 0 { n } else { n + 1 };
        let mut sig: Vec<u8> = Vec::new();
        let mut j: i32 = 0;
        while j < 32
            invariant
                self.wf(),
                d < 3,
                s == 1 || s == -1,
                sd == owner_layer(s as int, n as int),
                0 <= sd < 32,
                mask@ == self.spec_face_mask(reg, d as int, s as int, n as int),
                0 <= j <= 32,
                sig@.len() == j * 32,
                forall|k: int| 0 <= k < sig@.len() ==> #[trigger] sig@[k] == self.spec_sig_cell(reg, d as int, s as int, n as int, k % 32, k / 32),
            decreases 32 - j,
        {
            let mut i: i32 = 0;
            while i < 32
                invariant
                    self.wf(),
                    d < 3,
                    s == 1 || s == -1,
                    sd == owner_layer(s as int, n as int),
                    0 <= sd < 32,
                    mask@ == self.spec_face_mask(reg, d as int, s as int, n as int),
                    0 <= j < 32,
                    0 <= i <= 32,
                    sig@.len() == j * 32 + i,
                    forall|k: int| 0 <= k < sig@.len() ==> #[trigger] sig@[k] == self.spec_sig_cell(reg, d as int, s as int, n as int, k % 32, k / 32),
                decreases 32 - i,
            {
                let k = (j * 32 + i) as usize;
                proof {
                    lemma_cell_divmod(i as int, j as int);
                }
                let v: u8 = if mask[k].is_some() {
                    let base = make_point(d, sd, i, j);
                    let a = self.ao_signature(base, d, s);
                    PackedQuad::pack_ao(a)
                } else {
                    0
                };
                sig.push(v);
                i += 1;
            }
            j += 1;
        }
        assert(sig@ =~= self.spec_face_sig(reg, d as int, s as int, n as int));
        sig
    }
}

/// Light byte of a `w x h` quad whose min-corner owner voxel is `base`: the
/// per-channel average (rounded down) of the four corner samples, each corner
/// clamped into the sector; `0` without a light view.
pub open spec fn spec_quad_light(light: Option<&SectorLightView>, base: [i32; 3], d: int, w: int, h: int) -> u8 {
    match light {
        None => 0,
        Some(lv) => {
            let u = axis_u(d);
            let v = axis_v(d);
            let c0 = base;
            let c1 = bump(base, u, w);
            let c2 = bump(base, v, h);
            let c3 = bump(bump(base, u, w), v, h);
            let s0 = lv.spec_get(clamp31(c0[0] as int), clamp31(c0[1] as int), clamp31(c0[2] as int));
            let s1 = lv.spec_get(clamp31(c1[0] as int), clamp31(c1[1] as int), clamp31(c1[2] as int));
            let s2 = lv.spec_get(clamp31(c2[0] as int), clamp31(c2[1] as int), clamp31(c2[2] as int));
            let s3 = lv.spec_get(clamp31(c3[0] as int), clamp31(c3[1] as int), clamp31(c3[2] as int));
            let sky = ((s0.sky + s1.sky + s2.sky + s3.sky) / 4) as u8;
            let blk = ((s0.block + s1.block + s2.block + s3.block) / 4) as u8;
            pack_light_spec(sky, blk)
        },
    }
}

fn clamp_coord(v: i32) -> (r: u32)
    ensures
        r == clamp31(v as int),
{
    if v < 0 {
        0
    } else if v > 31 {
        31
    } else {
        v as u32
    }
}

fn sample_clamped(lv: &SectorLightView, c: [i32; 3]) -> (r: LightSample)
    requires
        lv.wf(),
    ensures
        r == lv.spec_get(clamp31(c[0] as int), clamp31(c[1] as int), clamp31(c[2] as int)),
        r.sky < 16 && r.block < 16,
{
    lv.get(VoxelCoord::new(clamp_coord(c[0]), clamp_coord(c[1]), clamp_coord(c[2])))
}

fn quad_light(light: Option<&SectorLightView>, base: [i32; 3], d: usize, w: i32, h: i32) -> (r: u8)
    requires
        d < 3,
        light matches Some(lv) ==> lv.wf(),
        in_sector(base[0] as int, base[1] as int, base[2] as int),
        1 <= w <= 32,
        1 <= h <= 32,
    ensures
        r == spec_quad_light(light, base, d as int, w as int, h as int),
{
    match light {
        None => 0,
        Some(lv) => {
            let (u, v) = tangents(d);
            let mut c1 = base;
            c1[u] = c1[u] + w;
            let mut c2 = base;
            c2[v] = c2[v] + h;
            let mut c3 = c1;
            c3[v] = c3[v] + h;
            assert(c1 == bump(base, u as int, w as int)) by {
                assert(c1@ =~= bump(base, u as int, w as int)@);
            }
            assert(c2 == bump(base, v as int, h as int)) by {
                assert(c2@ =~= bump(base, v as int, h as int)@);
            }
            assert(c3 == bump(bump(base, u as int, w as int), v as int, h as int)) by {
                assert(c3@ =~= bump(bump(base, u as int, w as int), v as int, h as int)@);
            }
            let s0 = sample_clamped(lv, base);
            let s1 = sample_clamped(lv, c1);
            let s2 = sample_clamped(lv, c2);
            let s3 = sample_clamped(lv, c3);
            let sky = ((s0.sky as u16 + s1.sky as u16 + s2.sky as u16 + s3.sky as u16) / 4) as u8;
            let blk = ((s0.block as u16 + s1.block as u16 + s2.block as u16 + s3.block as u16) / 4) as u8;
            PackedQuad::pack_light(sky, blk)
        },
    }
}

/// Face index of a pass along axis `d` with sign `s`: `2d` for `+`, `2d + 1` for `-`.
pub open spec fn face_index_spec(d: int, s: int) -> int {
    if s > 0 { 2 * d } else { 2 * d + 1 }
}

impl<'a> SectorSampler<'a> {
    /// The quad emitted for merged rectangle `r` of the plane between layers
    /// `n` and `n + 1` along axis `d`, facing `s`.
    pub open spec fn spec_rect_quad(&self, light: Option<&SectorLightView>, d: int, s: int, n: int, r: Rect) -> PackedQuad {
        let base = axis_point(d, owner_layer(s, n), r.i as int, r.j as int);
        let ao = self.spec_compute_ao(base, d, s, r.w as int, r.h as int);
        let flags: u8 = if ao[0] + ao[3] > ao[1] + ao[2] { 1 } else { 0 };
        PackedQuad::spec_new(
            base[0] as u32,
            base[1] as u32,
            base[2] as u32,
            r.w as u32,
            r.h as u32,
            face_index_spec(d, s) as u8,
            (r.block.0 & 0xFF) as u8,
            pack_ao_spec(ao[0], ao[1], ao[2], ao[3]),
            spec_quad_light(light, base, d, r.w as int, r.h as int),
            flags,
        )
    }

    /// Quads for the rectangles `rs` of one plane, keeping those whose block
    /// transparency is `tr`, in rectangle order.
    pub open spec fn spec_quads_of(&self, reg: &BlockRegistry, light: Option<&SectorLightView>, d: int, s: int, n: int, rs: Seq<Rect>, tr: bool) -> Seq<PackedQuad>
        decreases rs.len(),
    {
        if rs.len() == 0 {
            Seq::empty()
        } else {
            let prev = self.spec_quads_of(reg, light, d, s, n, rs.drop_last(), tr);
            if reg.spec_is_transparent(rs.last().block) == tr {
                prev.push(self.spec_rect_quad(light, d, s, n, rs.last()))
            } else {
                prev
            }
        }
    }

    fn rect_quad(&self, light: Option<&SectorLightView>, d: usize, s: i32, n: i32, r: Rect) -> (q: PackedQuad)
        requires
            self.wf(),
            d < 3,
            s == 1 || s == -1,
            -1 <= n <= 31,
            (s == 1 ==> n >= 0),
            (s == -1 ==> n <= 30),
            light matches Some(lv) ==> lv.wf(),
            1 <= r.w && 1 <= r.h,
            r.i + r.w <= 32,
            r.j + r.h <= 32,
        ensures
            q == self.spec_rect_quad(light, d as int, s as int, n as int, r),
    {
        let sd: i32 = if s > 0 { n } else { n + 1 };
        let base = make_point(d, sd, r.i as i32, r.j as i32);
        let ao = self.compute_ao(base, d, s, r.w as i32, r.h as i32);
        let face_idx: u8 = if s > 0 { (2 * d) as u8 } else { (2 * d + 1) as u8 };
        let flip: u8 = if PackedQuad::needs_flip(ao) { FLIP_FLAG } else { 0 };
        let light_byte = quad_light(light, base, d, r.w as i32, r.h as i32);
        PackedQuad::new(
            base[0] as u32,
            base[1] as u32,
            base[2] as u32,
            r.w as u32,
            r.h as u32,
            face_idx,
            (r.block.0 & 0xFF) as u8,
            PackedQuad::pack_ao(ao),
            light_byte,
            flip,
        )
    }
}

/// Mesh output: opaque and transparent quad batches, their flattened GPU
/// byte images, the voxel-space bounds of the quads' corners, and a
/// generation counter the mesh store bumps.
#[derive(Clone, Debug)]
pub struct MeshData {
    pub opaque: Vec<PackedQuad>,
    pub transparent: Vec<PackedQuad>,
    pub opaque_gpu: Vec<u8>,
    pub transparent_gpu: Vec<u8>,
    pub aabb: VoxelAabb,
    pub generation: u64,
}

/// Axis-aligned box in sector-local voxel units (corner positions of quads).
#[derive(Clone, Copy, Debug, Default, PartialEq, Eq, Structural)]
pub struct VoxelAabb {
    pub min_x: u32,
    pub min_y: u32,
    pub min_z: u32,
    pub max_x: u32,
    pub max_y: u32,
    pub max_z: u32,
}

impl MeshData {
    /// An empty mesh.
    pub fn new() -> (r: Self)
        ensures
            r.opaque@.len() == 0,
            r.transparent@.len() == 0,
            r.opaque_gpu@.len() == 0,
            r.transparent_gpu@.len() == 0,
            r.aabb == (VoxelAabb { min_x: 0, min_y: 0, min_z: 0, max_x: 0, max_y: 0, max_z: 0 }),
            r.generation == 0,
    {
        MeshData {
            opaque: Vec::new(),
            transparent: Vec::new(),
            opaque_gpu: Vec::new(),
            transparent_gpu: Vec::new(),
            aabb: VoxelAabb { min_x: 0, min_y: 0, min_z: 0, max_x: 0, max_y: 0, max_z: 0 },
            generation: 0,
        }
    }

    /// Number of quads in both batches.
    pub fn total_quads(&self) -> (r: usize)
        requires
            self.opaque@.len() + self.transparent@.len() <= usize::MAX,
        ensures
            r == self.opaque@.len() + self.transparent@.len(),
    {
        self.opaque.len() + self.transparent.len()
    }

    /// True when neither batch holds a quad.
    pub fn is_empty(&self) -> (r: bool)
        ensures
            r == (self.opaque@.len() == 0 && self.transparent@.len() == 0),
    {
        self.opaque.len() == 0 && self.transparent.len() == 0
    }
}

impl Default for MeshData {
    fn default() -> (r: Self)
        ensures
            r.opaque@.len() == 0,
            r.transparent@.len() == 0,
            r.opaque_gpu@.len() == 0,
            r.transparent_gpu@.len() == 0,
            r.generation == 0,
    {
        MeshData::new()
    }
}

impl<'a> SectorSampler<'a> {
    /// `rs` is the greedy cover of the plane between layers `n` and `n + 1`.
    pub open spec fn spec_plane_cover(&self, reg: &BlockRegistry, d: int, s: int, n: int, rs: Seq<Rect>) -> bool {
        is_greedy_cover(self.spec_face_mask(reg, d, s, n), self.spec_face_sig(reg, d, s, n), rs)
    }

    /// Mesh one plane: merge its face cells greedily and append one quad per
    /// rectangle to the opaque or transparent batch by block transparency.
    fn mesh_plane(&self, reg: &BlockRegistry, light: Option<&SectorLightView>, d: usize, s: i32, n: i32, out: &mut MeshData)
        requires
            self.wf(),
            d < 3,
            s == 1 || s == -1,
            -1 <= n <= 31,
            (s == 1 ==> n >= 0),
            (s == -1 ==> n <= 30),
            light matches Some(lv) ==> lv.wf(),
        ensures
            exists|rs: Seq<Rect>| {
                &&& self.spec_plane_cover(reg, d as int, s as int, n as int, rs)
                &&& final(out).opaque@ == old(out).opaque@ + self.spec_quads_of(reg, light, d as int, s as int, n as int, rs, false)
                &&& final(out).transparent@ == old(out).transparent@ + self.spec_quads_of(reg, light, d as int, s as int, n as int, rs, true)
            },
            final(out).opaque_gpu@ == old(out).opaque_gpu@,
            final(out).transparent_gpu@ == old(out).transparent_gpu@,
            final(out).aabb == old(out).aabb,
            final(out).generation == old(out).generation,
    {
        let mask = self.build_face_mask(reg, d, s, n);
        let sig = self.build_face_sig(reg, &mask, d, s, n);
        let rects = greedy_merge(&mask, &sig);
        let ghost rs = rects@;
        let ghost o0 = out.opaque@;
        let ghost t0 = out.transparent@;
        let mut k: usize = 0;
        while k < rects.len()
            invariant
                self.wf(),
                d < 3,
                s == 1 || s == -1,
                -1 <= n <= 31,
                (s == 1 ==> n >= 0),
                (s == -1 ==> n <= 30),
                light matches Some(lv) ==> lv.wf(),
                rects@ == rs,
                self.spec_plane_cover(reg, d as int, s as int, n as int, rs),
                k <= rs.len(),
                out.opaque@ == o0 + self.spec_quads_of(reg, light, d as int, s as int, n as int, rs.take(k as int), false),
                out.transparent@ == t0 + self.spec_quads_of(reg, light, d as int, s as int, n as int, rs.take(k as int), true),
                out.opaque_gpu@ == old(out).opaque_gpu@,
                out.transparent_gpu@ == old(out).transparent_gpu@,
                out.aabb == old(out).aabb,
                out.generation == old(out).generation,
            decreases rs.len() - k,
        {
            let r = rects[k];
            assert(rs.take(k + 1).drop_last() =~= rs.take(k as int));
            assert(rs.take(k + 1).last() == r);
            let q = self.rect_quad(light, d, s, n, r);
            if reg.is_transparent(r.block) {
                out.transparent.push(q);
            } else {
                out.opaque.push(q);
            }
            k += 1;
        }
        assert(rs.take(rs.len() as int) =~= rs);
    }
}

impl<'a> SectorSampler<'a> {
    /// Quads of a whole pass along axis `d` facing `s`: plane by plane from
    /// the first layer, each plane's quads in rectangle order.
    pub open spec fn spec_axis_quads(&self, reg: &BlockRegistry, light: Option<&SectorLightView>, d: int, s: int, rss: Seq<Seq<Rect>>, tr: bool) -> Seq<PackedQuad>
        decreases rss.len(),
    {
        if rss.len() == 0 {
            Seq::empty()
        } else {
            self.spec_axis_quads(reg, light, d, s, rss.drop_last(), tr) + self.spec_quads_of(reg, light, d, s, layer_start(s) + rss.len() - 1, rss.last(), tr)
        }
    }

    /// `rss[p]` is the greedy cover of plane `p` of the pass along `d` facing `s`.
    pub open spec fn spec_axis_cover(&self, reg: &BlockRegistry, d: int, s: int, rss: Seq<Seq<Rect>>) -> bool {
        &&& rss.len() == 32
        &&& forall|p: int| 0 <= p < 32 ==> self.spec_plane_cover(reg, d, s, layer_start(s) + p, #[trigger] rss[p])
    }

    /// Mesh every plane of the pass along axis `d` facing `s`.
    #[verifier::spinoff_prover]
    #[verifier::rlimit(40)]
    fn mesh_face_axis(&self, reg: &BlockRegistry, light: Option<&SectorLightView>, d: usize, s: i32, out: &mut MeshData)
        requires
            self.wf(),
            d < 3,
            s == 1 || s == -1,
            light matches Some(lv) ==> lv.wf(),
        ensures
            exists|rss: Seq<Seq<Rect>>| {
                &&& self.spec_axis_cover(reg, d as int, s as int, rss)
                &&& final(out).opaque@ == old(out).opaque@ + self.spec_axis_quads(reg, light, d as int, s as int, rss, false)
                &&& final(out).transparent@ == old(out).transparent@ + self.spec_axis_quads(reg, light, d as int, s as int, rss, true)
            },
            final(out).opaque_gpu@ == old(out).opaque_gpu@,
            final(out).transparent_gpu@ == old(out).transparent_gpu@,
            final(out).aabb == old(out).aabb,
            final(out).generation == old(out).generation,
    {
        let n_start: i32 = if s > 0 { 0 } else { -1 };
        let ghost o0 = out.opaque@;
        let ghost t0 = out.transparent@;
        let ghost mut rss: Seq<Seq<Rect>> = Seq::empty();
        let mut p: i32 = 0;
        while p < 32
            invariant
                self.wf(),
                d < 3,
                s == 1 || s == -1,
                light matches Some(lv) ==> lv.wf(),
                n_start == layer_start(s as int),
                0 <= p <= 32,
                rss.len() == p,
                forall|q: int| 0 <= q < p ==> self.spec_plane_cover(reg, d as int, s as int, layer_start(s as int) + q, #[trigger] rss[q]),
                out.opaque@ == o0 + self.spec_axis_quads(reg, light, d as int, s as int, rss, false),
                out.transparent@ == t0 + self.spec_axis_quads(reg, light, d as int, s as int, rss, true),
                out.opaque_gpu@ == old(out).opaque_gpu@,
                out.transparent_gpu@ == old(out).transparent_gpu@,
                out.aabb == old(out).aabb,
                out.generation == old(out).generation,
            decreases 32 - p,
        {
            let n = n_start + p;
            let ghost op = out.opaque@;
            let ghost tp = out.transparent@;
            self.mesh_plane(reg, light, d, s, n, out);
            proof {
                let rs = choose|rs: Seq<Rect>| {
                    &&& self.spec_plane_cover(reg, d as int, s as int, n as int, rs)
                    &&& out.opaque@ == op + self.spec_quads_of(reg, light, d as int, s as int, n as int, rs, false)
                    &&& out.transparent@ == tp + self.spec_quads_of(reg, light, d as int, s as int, n as int, rs, true)
                };
                let old_rss = rss;
                rss = rss.push(rs);
                assert(rss.drop_last() =~= old_rss);
                assert(out.opaque@ =~= o0 + self.spec_axis_quads(reg, light, d as int, s as int, rss, false));
                assert(out.transparent@ =~= t0 + self.spec_axis_quads(reg, light, d as int, s as int, rss, true));
                assert forall|q: int| 0 <= q < p + 1 implies self.spec_plane_cover(reg, d as int, s as int, layer_start(s as int) + q, #[trigger] rss[q]) by {
                    if q < p {
                        assert(rss[q] == old_rss[q]);
                    }
                }
            }
            p += 1;
        }
        assert(self.spec_axis_cover(reg, d as int, s as int, rss));
        assert(out.opaque@ == old(out).opaque@ + self.spec_axis_quads(reg, light, d as int, s as int, rss, false));
    }
}

/// Axis of pass `k` (passes run +X, -X, +Y, -Y, +Z, -Z).
pub open spec fn pass_axis(k: int) -> int {
    k / 2
}

/// Facing sign of pass `k`.
pub open spec fn pass_sign(k: int) -> int {
    if k % 2 == 0 { 1 } else { -1 }
}

impl<'a> SectorSampler<'a> {
    /// Quads of the first `passes.len()` passes, in pass order.
    pub open spec fn spec_sector_quads(&self, reg: &BlockRegistry, light: Option<&SectorLightView>, passes: Seq<Seq<Seq<Rect>>>, tr: bool) -> Seq<PackedQuad>
        decreases passes.len(),
    {
        if passes.len() == 0 {
            Seq::empty()
        } else {
            let k = passes.len() - 1;
            self.spec_sector_quads(reg, light, passes.drop_last(), tr) + self.spec_axis_quads(reg, light, pass_axis(k), pass_sign(k), passes.last(), tr)
        }
    }

    /// `passes[k]` holds the greedy covers of every plane of pass `k`.
    pub open spec fn spec_sector_cover(&self, reg: &BlockRegistry, passes: Seq<Seq<Seq<Rect>>>) -> bool {
        &&& passes.len() == 6
        &&& forall|k: int| 0 <= k < 6 ==> self.spec_axis_cover(reg, pass_axis(k), pass_sign(k), #[trigger] passes[k])
    }

    /// Run the six face passes into `out`.
    fn mesh_all_axes(&self, reg: &BlockRegistry, light: Option<&SectorLightView>, out: &mut MeshData)
        requires
            self.wf(),
            light matches Some(lv) ==> lv.wf(),
        ensures
            exists|passes: Seq<Seq<Seq<Rect>>>| {
                &&& self.spec_sector_cover(reg, passes)
                &&& final(out).opaque@ == old(out).opaque@ + self.spec_sector_quads(reg, light, passes, false)
                &&& final(out).transparent@ == old(out).transparent@ + self.spec_sector_quads(reg, light, passes, true)
            },
            final(out).opaque_gpu@ == old(out).opaque_gpu@,
            final(out).transparent_gpu@ == old(out).transparent_gpu@,
            final(out).aabb == old(out).aabb,
            final(out).generation == old(out).generation,
    {
        let ghost o0 = out.opaque@;
        let ghost t0 = out.transparent@;
        let ghost mut passes: Seq<Seq<Seq<Rect>>> = Seq::empty();
        let mut k: usize = 0;
        while k < 6
            invariant
                self.wf(),
                light matches Some(lv) ==> lv.wf(),
                0 <= k <= 6,
                passes.len() == k,
                forall|q: int| 0 <= q < k ==> self.spec_axis_cover(reg, pass_axis(q), pass_sign(q), #[trigger] passes[q]),
                out.opaque@ == o0 + self.spec_sector_quads(reg, light, passes, false),
                out.transparent@ == t0 + self.spec_sector_quads(reg, light, passes, true),
                out.opaque_gpu@ == old(out).opaque_gpu@,
                out.transparent_gpu@ == old(out).transparent_gpu@,
                out.aabb == old(out).aabb,
                out.generation == old(out).generation,
            decreases 6 - k,
        {
            let d = k / 2;
            let s: i32 = if k % 2 == 0 { 1 } else { -1 };
            let ghost op = out.opaque@;
            let ghost tp = out.transparent@;
            self.mesh_face_axis(reg, light, d, s, out);
            proof {
                let rss = choose|rss: Seq<Seq<Rect>>| {
                    &&& self.spec_axis_cover(reg, d as int, s as int, rss)
                    &&& out.opaque@ == op + self.spec_axis_quads(reg, light, d as int, s as int, rss, false)
                    &&& out.transparent@ == tp + self.spec_axis_quads(reg, light, d as int, s as int, rss, true)
                };
                let old_passes = passes;
                passes = passes.push(rss);
                assert(passes.drop_last() =~= old_passes);
                assert(pass_axis(k as int) == d as int);
                assert(pass_sign(k as int) == s as int);
                assert(out.opaque@ =~= o0 + self.spec_sector_quads(reg, light, passes, false));
                assert(out.transparent@ =~= t0 + self.spec_sector_quads(reg, light, passes, true));
                assert forall|q: int| 0 <= q < k + 1 implies self.spec_axis_cover(reg, pass_axis(q), pass_sign(q), #[trigger] passes[q]) by {
                    if q < k {
                        assert(passes[q] == old_passes[q]);
                    }
                }
            }
            k += 1;
        }
        assert(self.spec_sector_cover(reg, passes));
        assert(out.opaque@ == old(out).opaque@ + self.spec_sector_quads(reg, light, passes, false));
    }
}

/// Every quad of `qs` names one of the six faces.
pub open spec fn all_valid_faces(qs: Seq<PackedQuad>) -> bool {
    forall|k: int| 0 <= k < qs.len() ==> (#[trigger] qs[k]).has_valid_face()
}

impl<'a> SectorSampler<'a> {
    proof fn lemma_rect_quad_valid(&self, light: Option<&SectorLightView>, d: int, s: int, n: int, r: Rect)
        requires
            0 <= d < 3,
            s == 1 || s == -1,
        ensures
            self.spec_rect_quad(light, d, s, n, r).has_valid_face(),
    {
        let base = axis_point(d, owner_layer(s, n), r.i as int, r.j as int);
        let ao = self.spec_compute_ao(base, d, s, r.w as int, r.h as int);
        let flags: u8 = if ao[0] + ao[3] > ao[1] + ao[2] { 1 } else { 0 };
        let f = face_index_spec(d, s) as u8;
        lemma_spec_new_fields(
            base[0] as u32,
            base[1] as u32,
            base[2] as u32,
            r.w as u32,
            r.h as u32,
            f,
            (r.block.0 & 0xFF) as u8,
            pack_ao_spec(ao[0], ao[1], ao[2], ao[3]),
            spec_quad_light(light, base, d, r.w as int, r.h as int),
            flags,
        );
        assert(f < 6);
        assert(f < 6 ==> (f as u32) & 0x7 == f as u32) by (bit_vector);
    }

    proof fn lemma_quads_of_valid(&self, reg: &BlockRegistry, light: Option<&SectorLightView>, d: int, s: int, n: int, rs: Seq<Rect>, tr: bool)
        requires
            0 <= d < 3,
            s == 1 || s == -1,
        ensures
            all_valid_faces(self.spec_quads_of(reg, light, d, s, n, rs, tr)),
        decreases rs.len(),
    {
        if rs.len() > 0 {
            self.lemma_quads_of_valid(reg, light, d, s, n, rs.drop_last(), tr);
            self.lemma_rect_quad_valid(light, d, s, n, rs.last());
        }
    }

    proof fn lemma_axis_quads_valid(&self, reg: &BlockRegistry, light: Option<&SectorLightView>, d: int, s: int, rss: Seq<Seq<Rect>>, tr: bool)
        requires
            0 <= d < 3,
            s == 1 || s == -1,
        ensures
            all_valid_faces(self.spec_axis_quads(reg, light, d, s, rss, tr)),
        decreases rss.len(),
    {
        if rss.len() > 0 {
            self.lemma_axis_quads_valid(reg, light, d, s, rss.drop_last(), tr);
            self.lemma_quads_of_valid(reg, light, d, s, layer_start(s) + rss.len() - 1, rss.last(), tr);
            let a = self.spec_axis_quads(reg, light, d, s, rss.drop_last(), tr);
            let b = self.spec_quads_of(reg, light, d, s, layer_start(s) + rss.len() - 1, rss.last(), tr);
            assert forall|k: int| 0 <= k < (a + b).len() implies (#[trigger] (a + b)[k]).has_valid_face() by {
                if k < a.len() {
                    assert((a + b)[k] == a[k]);
                } else {
                    assert((a + b)[k] == b[k - a.len()]);
                }
            }
        }
    }

    proof fn lemma_sector_quads_valid(&self, reg: &BlockRegistry, light: Option<&SectorLightView>, passes: Seq<Seq<Seq<Rect>>>, tr: bool)
        requires
            passes.len() <= 6,
        ensures
            all_valid_faces(self.spec_sector_quads(reg, light, passes, tr)),
        decreases passes.len(),
    {
        if passes.len() > 0 {
            let k = passes.len() - 1;
            self.lemma_sector_quads_valid(reg, light, passes.drop_last(), tr);
            self.lemma_axis_quads_valid(reg, light, pass_axis(k), pass_sign(k), passes.last(), tr);
            let a = self.spec_sector_quads(reg, light, passes.drop_last(), tr);
            let b = self.spec_axis_quads(reg, light, pass_axis(k), pass_sign(k), passes.last(), tr);
            assert forall|q: int| 0 <= q < (a + b).len() implies (#[trigger] (a + b)[q]).has_valid_face() by {
                if q < a.len() {
                    assert((a + b)[q] == a[q]);
                } else {
                    assert((a + b)[q] == b[q - a.len()]);
                }
            }
        }
    }
}

pub open spec fn point_box(p: [u32; 3]) -> VoxelAabb {
    VoxelAabb { min_x: p[0], min_y: p[1], min_z: p[2], max_x: p[0], max_y: p[1], max_z: p[2] }
}

pub open spec fn min_u32(a: u32, b: u32) -> u32 {
    if a <= b { a } else { b }
}

pub open spec fn max_u32(a: u32, b: u32) -> u32 {
    if a >= b { a } else { b }
}

/// Smallest box containing both boxes.
pub open spec fn box_union(a: VoxelAabb, b: VoxelAabb) -> VoxelAabb {
    VoxelAabb {
        min_x: min_u32(a.min_x, b.min_x),
        min_y: min_u32(a.min_y, b.min_y),
        min_z: min_u32(a.min_z, b.min_z),
        max_x: max_u32(a.max_x, b.max_x),
        max_y: max_u32(a.max_y, b.max_y),
        max_z: max_u32(a.max_z, b.max_z),
    }
}

/// Box of a quad's four corners.
pub open spec fn quad_box(q: PackedQuad) -> VoxelAabb {
    box_union(
        box_union(box_union(point_box(q.spec_corner_pos(0)), point_box(q.spec_corner_pos(1))), point_box(q.spec_corner_pos(2))),
        point_box(q.spec_corner_pos(3)),
    )
}

/// Box of all corners of all quads (`None` for no quads).
pub open spec fn quads_box(qs: Seq<PackedQuad>) -> Option<VoxelAabb>
    decreases qs.len(),
{
    if qs.len() == 0 {
        None
    } else {
        match quads_box(qs.drop_last()) {
            None => Some(quad_box(qs.last())),
            Some(b) => Some(box_union(b, quad_box(qs.last()))),
        }
    }
}

/// Corner bounds of a quad list; the all-zero box when there are no quads.
pub open spec fn spec_aabb_of_quads(qs: Seq<PackedQuad>) -> VoxelAabb {
    match quads_box(qs) {
        None => VoxelAabb { min_x: 0, min_y: 0, min_z: 0, max_x: 0, max_y: 0, max_z: 0 },
        Some(b) => b,
    }
}

/// Point `p` lies in box `b` on every axis.
pub open spec fn box_contains(b: VoxelAabb, p: [u32; 3]) -> bool {
    b.min_x <= p[0] <= b.max_x && b.min_y <= p[1] <= b.max_y && b.min_z <= p[2] <= b.max_z
}

/// Corner `c` of quad `i` of `qs`.
pub open spec fn corner_of(qs: Seq<PackedQuad>, i: int, c: u8) -> [u32; 3] {
    qs[i].spec_corner_pos(c)
}

/// Each face of `b` is reached by some corner of some quad of `qs`.
pub open spec fn box_is_tight(b: VoxelAabb, qs: Seq<PackedQuad>) -> bool {
    &&& exists|i: int, c: u8| 0 <= i < qs.len() && c < 4 && #[trigger] corner_of(qs, i, c)[0] == b.min_x
    &&& exists|i: int, c: u8| 0 <= i < qs.len() && c < 4 && #[trigger] corner_of(qs, i, c)[1] == b.min_y
    &&& exists|i: int, c: u8| 0 <= i < qs.len() && c < 4 && #[trigger] corner_of(qs, i, c)[2] == b.min_z
    &&& exists|i: int, c: u8| 0 <= i < qs.len() && c < 4 && #[trigger] corner_of(qs, i, c)[0] == b.max_x
    &&& exists|i: int, c: u8| 0 <= i < qs.len() && c < 4 && #[trigger] corner_of(qs, i, c)[1] == b.max_y
    &&& exists|i: int, c: u8| 0 <= i < qs.len() && c < 4 && #[trigger] corner_of(qs, i, c)[2] == b.max_z
}

/// The mesh box is the smallest box holding all four corners of every quad:
/// each corner lies inside it, and each of its six faces is reached by a
/// corner. A mesh without quads gets the all-zero box.
pub proof fn lemma_aabb_bounds_every_corner(qs: Seq<PackedQuad>)
    ensures
        qs.len() == 0 ==> spec_aabb_of_quads(qs) == (VoxelAabb {
            min_x: 0,
            min_y: 0,
            min_z: 0,
            max_x: 0,
            max_y: 0,
            max_z: 0,
        }),
        forall|i: int, c: u8| 0 <= i < qs.len() && c < 4 ==> box_contains(spec_aabb_of_quads(qs), #[trigger] corner_of(qs, i, c)),
        qs.len() > 0 ==> box_is_tight(spec_aabb_of_quads(qs), qs),
    decreases qs.len(),
{
    if qs.len() > 0 {
        lemma_quads_box(qs);
    }
}

proof fn lemma_quads_box(qs: Seq<PackedQuad>)
    requires
        qs.len() > 0,
    ensures
        quads_box(qs) is Some,
        forall|i: int, c: u8| 0 <= i < qs.len() && c < 4 ==> box_contains(quads_box(qs)->0, #[trigger] corner_of(qs, i, c)),
        box_is_tight(quads_box(qs)->0, qs),
    decreases qs.len(),
{
    let d = qs.drop_last();
    let n = qs.len() - 1;
    let q = qs.last();
    let qb = quad_box(q);
    assert forall|i: int, c: u8| 0 <= i < d.len() && c < 4 implies #[trigger] corner_of(d, i, c) == corner_of(qs, i, c) by {
        assert(d[i] == qs[i]);
    }
    let (c0, c1, c2, c3) = (corner_of(qs, n, 0), corner_of(qs, n, 1), corner_of(qs, n, 2), corner_of(qs, n, 3));
    assert forall|c: u8| c < 4 implies box_contains(qb, #[trigger] corner_of(qs, n, c)) by {
        assert(c == 0 || c == 1 || c == 2 || c == 3);
    }
    if d.len() == 0 {
        assert(quads_box(qs) == Some(qb));
        assert forall|i: int, c: u8| 0 <= i < qs.len() && c < 4 implies box_contains(qb, #[trigger] corner_of(qs, i, c)) by {
            assert(i == n);
        }
    } else {
        lemma_quads_box(d);
        let ob = quads_box(d)->0;
        let b = box_union(ob, qb);
        assert(quads_box(qs) == Some(b));
        assert forall|i: int, c: u8| 0 <= i < qs.len() && c < 4 implies box_contains(b, #[trigger] corner_of(qs, i, c)) by {
            if i < n {
                assert(box_contains(ob, corner_of(d, i, c)));
            }
        }
        // each face of the union comes from the old box or from the new quad
        if b.min_x == ob.min_x {
            let (i, c) = choose|i: int, c: u8| 0 <= i < d.len() && c < 4 && #[trigger] corner_of(d, i, c)[0] == ob.min_x;
            assert(corner_of(qs, i, c)[0] == b.min_x);
        }
        if b.min_y == ob.min_y {
            let (i, c) = choose|i: int, c: u8| 0 <= i < d.len() && c < 4 && #[trigger] corner_of(d, i, c)[1] == ob.min_y;
            assert(corner_of(qs, i, c)[1] == b.min_y);
        }
        if b.min_z == ob.min_z {
            let (i, c) = choose|i: int, c: u8| 0 <= i < d.len() && c < 4 && #[trigger] corner_of(d, i, c)[2] == ob.min_z;
            assert(corner_of(qs, i, c)[2] == b.min_z);
        }
        if b.max_x == ob.max_x {
            let (i, c) = choose|i: int, c: u8| 0 <= i < d.len() && c < 4 && #[trigger] corner_of(d, i, c)[0] == ob.max_x;
            assert(corner_of(qs, i, c)[0] == b.max_x);
        }
        if b.max_y == ob.max_y {
            let (i, c) = choose|i: int, c: u8| 0 <= i < d.len() && c < 4 && #[trigger] corner_of(d, i, c)[1] == ob.max_y;
            assert(corner_of(qs, i, c)[1] == b.max_y);
        }
        if b.max_z == ob.max_z {
            let (i, c) = choose|i: int, c: u8| 0 <= i < d.len() && c < 4 && #[trigger] corner_of(d, i, c)[2] == ob.max_z;
            assert(corner_of(qs, i, c)[2] == b.max_z);
        }
    }
    // faces reached by the last quad's corners
    let bb = quads_box(qs)->0;
    assert(corner_of(qs, n, 0) == c0 && corner_of(qs, n, 1) == c1 && corner_of(qs, n, 2) == c2
        && corner_of(qs, n, 3) == c3);
}

fn union_box(a: VoxelAabb, b: VoxelAabb) -> (r: VoxelAabb)
    ensures
        r == box_union(a, b),
{
    VoxelAabb {
        min_x: if a.min_x <= b.min_x { a.min_x } else { b.min_x },
        min_y: if a.min_y <= b.min_y { a.min_y } else { b.min_y },
        min_z: if a.min_z <= b.min_z { a.min_z } else { b.min_z },
        max_x: if a.max_x >= b.max_x { a.max_x } else { b.max_x },
        max_y: if a.max_y >= b.max_y { a.max_y } else { b.max_y },
        max_z: if a.max_z >= b.max_z { a.max_z } else { b.max_z },
    }
}

fn box_of_point(p: [u32; 3]) -> (r: VoxelAabb)
    ensures
        r == point_box(p),
{
    VoxelAabb { min_x: p[0], min_y: p[1], min_z: p[2], max_x: p[0], max_y: p[1], max_z: p[2] }
}

fn box_of_quad(q: &PackedQuad) -> (r: VoxelAabb)
    requires
        q.has_valid_face(),
    ensures
        r == quad_box(*q),
{
    let b0 = box_of_point(q.corner_pos(0));
    let b1 = box_of_point(q.corner_pos(1));
    let b2 = box_of_point(q.corner_pos(2));
    let b3 = box_of_point(q.corner_pos(3));
    union_box(union_box(union_box(b0, b1), b2), b3)
}

/// Voxel-space bounds of every corner of every quad (opaque, then
/// transparent); the all-zero box for an empty mesh.
pub fn aabb_of_mesh(mesh: &MeshData) -> (r: VoxelAabb)
    requires
        all_valid_faces(mesh.opaque@),
        all_valid_faces(mesh.transparent@),
    ensures
        r == spec_aabb_of_quads(mesh.opaque@ + mesh.transparent@),
{
    let ghost all = mesh.opaque@ + mesh.transparent@;
    let mut acc: Option<VoxelAabb> = None;
    let no = mesh.opaque.len();
    let nt = mesh.transparent.len();
    let mut k: usize = 0;
    while k < no
        invariant
            no == mesh.opaque@.len(),
            k <= no,
            all == mesh.opaque@ + mesh.transparent@,
            all_valid_faces(mesh.opaque@),
            acc == quads_box(all.take(k as int)),
        decreases no - k,
    {
        let b = box_of_quad(&mesh.opaque[k]);
        assert(all.take(k + 1).drop_last() =~= all.take(k as int));
        assert(all.take(k + 1).last() == mesh.opaque@[k as int]);
        acc = match acc {
            None => Some(b),
            Some(a) => Some(union_box(a, b)),
        };
        k += 1;
    }
    let mut t: usize = 0;
    while t < nt
        invariant
            no == mesh.opaque@.len(),
            nt == mesh.transparent@.len(),
            t <= nt,
            all == mesh.opaque@ + mesh.transparent@,
            all_valid_faces(mesh.transparent@),
            acc == quads_box(all.take(no + t)),
        decreases nt - t,
    {
        let b = box_of_quad(&mesh.transparent[t]);
        assert(all.take(no + t + 1).drop_last() =~= all.take(no + t));
        assert(all.take(no + t + 1).last() == mesh.transparent@[t as int]);
        acc = match acc {
            None => Some(b),
            Some(a) => Some(union_box(a, b)),
        };
        t += 1;
    }
    assert(all.take(no + nt) =~= all);
    match acc {
        None => VoxelAabb { min_x: 0, min_y: 0, min_z: 0, max_x: 0, max_y: 0, max_z: 0 },
        Some(b) => b,
    }
}

/// The greedy mesher. Faces toward an absent neighbor sample it as air, so
/// every boundary face facing an unloaded sector is emitted.
#[derive(Clone, Copy)]
pub struct GreedyMesher {
    unloaded: BlockId,
}

impl GreedyMesher {
    /// Block that absent neighbors read as.
    pub closed spec fn spec_unloaded(&self) -> BlockId {
        self.unloaded
    }

    /// The sampler this mesher reads a sector through.
    pub open spec fn sampler<'a>(&self, self_vox: &'a [BlockId], neighbors: &'a [Option<&'a [BlockId]>]) -> SectorSampler<'a> {
        SectorSampler { self_vox, neighbors, unloaded: self.spec_unloaded() }
    }

    pub fn new(_registry: &BlockRegistry) -> (r: Self)
        ensures
            r.spec_unloaded() == BlockId(0),
    {
        GreedyMesher { unloaded: BlockId::air() }
    }

    /// Mesh a sector from its voxel snapshot (`x + y * 32 + z * 1024`) and the
    /// boundary planes of its six neighbors (`None` for an unloaded one).
    ///
    /// The six passes (+X, -X, +Y, -Y, +Z, -Z) each mesh 32 planes; every
    /// plane's face cells are merged by the greedy cover and each rectangle
    /// becomes one quad, in the opaque or transparent batch by its block's
    /// transparency. The GPU images and corner bounds are filled in too.
    pub fn mesh_sector_planes(
        &self,
        self_vox: &[BlockId],
        neighbors: &[Option<&[BlockId]>],
        registry: &BlockRegistry,
        light: Option<&SectorLightView>,
    ) -> (r: MeshData)
        requires
            self_vox@.len() == 32768,
            neighbors@.len() == 6,
            forall|k: int| 0 <= k < 6 ==> (#[trigger] neighbors@[k] matches Some(p) ==> p@.len() == 1024),
            light matches Some(lv) ==> lv.wf(),
        ensures
            exists|passes: Seq<Seq<Seq<Rect>>>| #![trigger self.sampler(self_vox, neighbors).spec_sector_cover(registry, passes)] {
                &&& self.sampler(self_vox, neighbors).spec_sector_cover(registry, passes)
                &&& r.opaque@ == self.sampler(self_vox, neighbors).spec_sector_quads(registry, light, passes, false)
                &&& r.transparent@ == self.sampler(self_vox, neighbors).spec_sector_quads(registry, light, passes, true)
            },
            all_valid_faces(r.opaque@),
            all_valid_faces(r.transparent@),
            r.opaque_gpu@ == quad_bytes(r.opaque@),
            r.transparent_gpu@ == quad_bytes(r.transparent@),
            r.aabb == spec_aabb_of_quads(r.opaque@ + r.transparent@),
            r.generation == 0,
    {
        let sampler = SectorSampler { self_vox, neighbors, unloaded: self.unloaded };
        let mut mesh = MeshData::new();
        sampler.mesh_all_axes(registry, light, &mut mesh);
        proof {
            let passes = choose|passes: Seq<Seq<Seq<Rect>>>| {
                &&& sampler.spec_sector_cover(registry, passes)
                &&& mesh.opaque@ == Seq::<PackedQuad>::empty() + sampler.spec_sector_quads(registry, light, passes, false)
                &&& mesh.transparent@ == Seq::<PackedQuad>::empty() + sampler.spec_sector_quads(registry, light, passes, true)
            };
            assert(mesh.opaque@ =~= sampler.spec_sector_quads(registry, light, passes, false));
            assert(mesh.transparent@ =~= sampler.spec_sector_quads(registry, light, passes, true));
            sampler.lemma_sector_quads_valid(registry, light, passes, false);
            sampler.lemma_sector_quads_valid(registry, light, passes, true);
            assert(sampler == self.sampler(self_vox, neighbors));
        }
        let (opaque_gpu, transparent_gpu) = meshdata_to_gpu_bytes(&mesh);
        mesh.opaque_gpu = opaque_gpu;
        mesh.transparent_gpu = transparent_gpu;
        mesh.aabb = aabb_of_mesh(&mesh);
        mesh
    }
}

impl<'a> SectorSampler<'a> {
    /// The six passes of greedy covers of a sector are unique, so the quads
    /// `GreedyMesher::mesh_sector_planes` returns are determined by its inputs.
    pub proof fn lemma_sector_cover_unique(
        &self,
        reg: &BlockRegistry,
        p1: Seq<Seq<Seq<Rect>>>,
        p2: Seq<Seq<Seq<Rect>>>,
    )
        requires
            self.spec_sector_cover(reg, p1),
            self.spec_sector_cover(reg, p2),
        ensures
            p1 == p2,
    {
        assert forall|k: int| 0 <= k < 6 implies #[trigger] p1[k] == p2[k] by {
            let (d, s) = (pass_axis(k), pass_sign(k));
            assert(self.spec_axis_cover(reg, d, s, p1[k]));
            assert(self.spec_axis_cover(reg, d, s, p2[k]));
            assert forall|p: int| 0 <= p < 32 implies #[trigger] p1[k][p] == p2[k][p] by {
                let n = layer_start(s) + p;
                assert(self.spec_plane_cover(reg, d, s, n, p1[k][p]));
                assert(self.spec_plane_cover(reg, d, s, n, p2[k][p]));
                crate::meshing::merge_unique::lemma_greedy_cover_unique(
                    self.spec_face_mask(reg, d, s, n),
                    self.spec_face_sig(reg, d, s, n),
                    p1[k][p],
                    p2[k][p],
                );
            }
            assert(p1[k] =~= p2[k]);
        }
        assert(p1 =~= p2);
    }
}

} // verus!
