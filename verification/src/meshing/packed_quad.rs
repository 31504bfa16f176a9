//! Packed 8-byte quad and 4-byte vertex formats produced by the greedy mesher.
//!
//! `PackedQuad` layout (little-endian): bytes 0..4 hold the geometry word
//! `x(5)|y(5)|z(5)|width(6)|height(6)|face(3)` (two high bits reserved),
//! byte 4 the block type, byte 5 the four 2-bit corner AO values, byte 6 the
//! light (`sky << 4 | block`) and byte 7 the flags (bit 0 = flipped diagonal).

use vstd::prelude::*;

verus! {

/// Face direction, ordered as the mesher's `axis * 2 + sign` encoding:
/// +X, -X, +Y, -Y, +Z, -Z.
#[derive(Clone, Copy, Debug, PartialEq, Eq, Structural)]
pub enum FaceDir {
    PosX,
    NegX,
    PosY,
    NegY,
    PosZ,
    NegZ,
}

impl FaceDir {
    /// The face's index in `0..6`.
    pub open spec fn spec_index(self) -> nat {
        match self {
            FaceDir::PosX => 0,
            FaceDir::NegX => 1,
            FaceDir::PosY => 2,
            FaceDir::NegY => 3,
            FaceDir::PosZ => 4,
            FaceDir::NegZ => 5,
        }
    }

    /// The face with index `i` (meaningful for `i < 6`).
    pub open spec fn spec_from_index(i: nat) -> FaceDir {
        if i == 0 {
            FaceDir::PosX
        } else if i == 1 {
            FaceDir::NegX
        } else if i == 2 {
            FaceDir::PosY
        } else if i == 3 {
            FaceDir::NegY
        } else if i == 4 {
            FaceDir::PosZ
        } else {
            FaceDir::NegZ
        }
    }

    /// Index of this face in `0..6`.
    pub fn index(self) -> (r: u8)
        ensures
            r == self.spec_index(),
    {
        match self {
            FaceDir::PosX => 0,
            FaceDir::NegX => 1,
            FaceDir::PosY => 2,
            FaceDir::NegY => 3,
            FaceDir::PosZ => 4,
            FaceDir::NegZ => 5,
        }
    }

    /// Face for index `i`; only indices below 6 name a face.
    pub fn from_index(i: u8) -> (r: FaceDir)
        requires
            i < 6,
        ensures
            r == FaceDir::spec_from_index(i as nat),
            r.spec_index() == i,
    {
        match i {
            0 => FaceDir::PosX,
            1 => FaceDir::NegX,
            2 => FaceDir::PosY,
            3 => FaceDir::NegY,
            4 => FaceDir::PosZ,
            _ => FaceDir::NegZ,
        }
    }

    /// Axis index (0 = X, 1 = Y, 2 = Z) this face points along.
    pub fn axis(self) -> (r: usize)
        ensures
            r == self.spec_index() / 2,
            r < 3,
    {
        (self.index() / 2) as usize
    }

    /// `1` for positive faces, `-1` for negative faces.
    pub fn sign(self) -> (r: i32)
        ensures
            r == (if self.spec_index() % 2 == 0 { 1int } else { -1int }),
    {
        if self.index() % 2 == 0 {
            1
        } else {
            -1
        }
    }
}

/// Mask of a 5-bit sector-local position field.
pub const POS_MASK: u32 = 0x1F;
/// Mask of a 6-bit quad size field.
pub const SIZE_MASK: u32 = 0x3F;
/// Mask of the 3-bit face field.
pub const FACE_MASK: u32 = 0x7;
/// Flags bit 0: the quad uses the flipped diagonal split.
pub const FLIP_FLAG: u8 = 0x1;

/// Little-endian `u32` assembled from four bytes.
pub open spec fn le_u32(b0: u8, b1: u8, b2: u8, b3: u8) -> u32 {
    (b0 as u32) | ((b1 as u32) << 8u32) | ((b2 as u32) << 16u32) | ((b3 as u32) << 24u32)
}

/// The geometry word for the given fields, each masked to its width.
pub open spec fn pack_geometry(x: u32, y: u32, z: u32, width: u32, height: u32, face: u32) -> u32 {
    (x & 0x1F) | ((y & 0x1F) << 5u32) | ((z & 0x1F) << 10u32) | ((width & 0x3F) << 15u32)
        | ((height & 0x3F) << 21u32) | ((face & 0x7) << 27u32)
}

/// Four 2-bit corner values packed into one byte (corner 0 in the low bits).
pub open spec fn pack_ao_spec(c0: u8, c1: u8, c2: u8, c3: u8) -> u8 {
    (c0 & 3u8) | ((c1 & 3u8) << 2u8) | ((c2 & 3u8) << 4u8) | ((c3 & 3u8) << 6u8)
}

/// The four 2-bit corner values of an AO byte.
pub open spec fn unpack_ao_spec(a: u8) -> [u8; 4] {
    [a & 3u8, (a >> 2u8) & 3u8, (a >> 4u8) & 3u8, (a >> 6u8) & 3u8]
}

/// Largest of four values.
pub open spec fn max4(a: u8, b: u8, c: u8, d: u8) -> u8 {
    let ab = if a >= b { a } else { b };
    let cd = if c >= d { c } else { d };
    if ab >= cd { ab } else { cd }
}

/// `sky << 4 | block`, both masked to 4 bits.
pub open spec fn pack_light_spec(sky: u8, block: u8) -> u8 {
    ((sky & 0xFu8) << 4u8) | (block & 0xFu8)
}

/// In-plane (tangent) axes `(u, v)` of a face along axis `d`.
pub open spec fn tangent_axes_spec(d: nat) -> (nat, nat) {
    ((d + 1) % 3, (d + 2) % 3)
}

/// Corner offsets along the tangents: corner 0 = (0,0), 1 = (1,0), 2 = (0,1), 3 = (1,1).
pub open spec fn corner_du(corner: u8) -> u32 {
    if corner % 4 == 1 || corner % 4 == 3 { 1 } else { 0 }
}

pub open spec fn corner_dv(corner: u8) -> u32 {
    if corner % 4 >= 2 { 1 } else { 0 }
}

/// An 8-byte packed greedy-meshed quad.
#[derive(Clone, Copy, Debug, Default, PartialEq, Eq)]
pub struct PackedQuad {
    pub data: [u8; 8],
}

impl PackedQuad {
    /// The 32-bit geometry word held in bytes 0..4.
    pub open spec fn geometry_word(self) -> u32 {
        le_u32(self.data[0], self.data[1], self.data[2], self.data[3])
    }

    pub open spec fn spec_x(self) -> u32 {
        self.geometry_word() & 0x1F
    }

    pub open spec fn spec_y(self) -> u32 {
        (self.geometry_word() >> 5u32) & 0x1F
    }

    pub open spec fn spec_z(self) -> u32 {
        (self.geometry_word() >> 10u32) & 0x1F
    }

    pub open spec fn spec_width(self) -> u32 {
        (self.geometry_word() >> 15u32) & 0x3F
    }

    pub open spec fn spec_height(self) -> u32 {
        (self.geometry_word() >> 21u32) & 0x3F
    }

    /// The raw 3-bit face field.
    pub open spec fn spec_face_bits(self) -> u32 {
        (self.geometry_word() >> 27u32) & 0x7
    }

    /// A quad whose face field names one of the six faces.
    pub open spec fn has_valid_face(self) -> bool {
        self.spec_face_bits() < 6
    }

    pub open spec fn spec_face(self) -> FaceDir {
        FaceDir::spec_from_index(self.spec_face_bits() as nat)
    }

    pub open spec fn spec_ao(self) -> [u8; 4] {
        unpack_ao_spec(self.data[5])
    }

    /// Position of corner `corner` (taken modulo 4): the base position moved by
    /// `du * width` along the first tangent and `dv * height` along the second.
    pub open spec fn spec_corner_pos(self, corner: u8) -> [u32; 3] {
        let d = self.spec_face().spec_index() / 2;
        let (u, v) = tangent_axes_spec(d);
        let base = [self.spec_x(), self.spec_y(), self.spec_z()];
        let du = corner_du(corner) * self.spec_width();
        let dv = corner_dv(corner) * self.spec_height();
        [
            (base[0] + (if u == 0 { du } else { 0 }) + (if v == 0 { dv } else { 0 })) as u32,
            (base[1] + (if u == 1 { du } else { 0 }) + (if v == 1 { dv } else { 0 })) as u32,
            (base[2] + (if u == 2 { du } else { 0 }) + (if v == 2 { dv } else { 0 })) as u32,
        ]
    }

    /// The quad `new` builds from these fields.
    pub open spec fn spec_new(
        x: u32,
        y: u32,
        z: u32,
        width: u32,
        height: u32,
        face: u8,
        block_type: u8,
        ao: u8,
        light: u8,
        flags: u8,
    ) -> PackedQuad {
        let g = pack_geometry(x, y, z, width, height, face as u32);
        PackedQuad {
            data: [
                (g & 0xFF) as u8,
                ((g >> 8u32) & 0xFF) as u8,
                ((g >> 16u32) & 0xFF) as u8,
                ((g >> 24u32) & 0xFF) as u8,
                block_type,
                ao,
                light,
                flags,
            ],
        }
    }

    /// True when the corner AO values call for the flipped diagonal split:
    /// `a00 + a11 > a01 + a10`.
    pub fn needs_flip(corners: [u8; 4]) -> (r: bool)
        ensures
            r == (corners[0] + corners[3] > corners[1] + corners[2]),
    {
        (corners[0] as u32 + corners[3] as u32) > (corners[1] as u32 + corners[2] as u32)
    }

    /// Pack a quad; each field is masked to its width.
    pub fn new(
        x: u32,
        y: u32,
        z: u32,
        width: u32,
        height: u32,
        face: u8,
        block_type: u8,
        ao: u8,
        light: u8,
        flags: u8,
    ) -> (r: Self)
        ensures
            r == PackedQuad::spec_new(x, y, z, width, height, face, block_type, ao, light, flags),
            r.geometry_word() == pack_geometry(x, y, z, width, height, face as u32),
            r.data[4] == block_type,
            r.data[5] == ao,
            r.data[6] == light,
            r.data[7] == flags,
            r.spec_x() == x & 0x1F,
            r.spec_y() == y & 0x1F,
            r.spec_z() == z & 0x1F,
            r.spec_width() == width & 0x3F,
            r.spec_height() == height & 0x3F,
            r.spec_face_bits() == (face as u32) & 0x7,
            r.geometry_word() >> 30u32 == 0,
    {
        let geometry: u32 = (x & POS_MASK) | ((y & POS_MASK) << 5u32) | ((z & POS_MASK) << 10u32)
            | ((width & SIZE_MASK) << 15u32) | ((height & SIZE_MASK) << 21u32) | (((face as u32)
            & FACE_MASK) << 27u32);
        let d: [u8; 8] = [
            (geometry & 0xFF) as u8,
            ((geometry >> 8u32) & 0xFF) as u8,
            ((geometry >> 16u32) & 0xFF) as u8,
            ((geometry >> 24u32) & 0xFF) as u8,
            block_type,
            ao,
            light,
            flags,
        ];
        let r = PackedQuad { data: d };
        proof {
            lemma_le_u32_of_bytes(geometry);
            lemma_geometry_fields(x, y, z, width, height, face as u32);
        }
        r
    }

    fn geometry(&self) -> (r: u32)
        ensures
            r == self.geometry_word(),
    {
        (self.data[0] as u32) | ((self.data[1] as u32) << 8u32) | ((self.data[2] as u32) << 16u32)
            | ((self.data[3] as u32) << 24u32)
    }

    pub fn x(&self) -> (r: u32)
        ensures
            r == self.spec_x(),
            r < 32,
    {
        let g = self.geometry();
        assert(g & 0x1F < 32) by (bit_vector);
        g & POS_MASK
    }

    pub fn y(&self) -> (r: u32)
        ensures
            r == self.spec_y(),
            r < 32,
    {
        let g = self.geometry();
        assert((g >> 5u32) & 0x1F < 32) by (bit_vector);
        (g >> 5u32) & POS_MASK
    }

    pub fn z(&self) -> (r: u32)
        ensures
            r == self.spec_z(),
            r < 32,
    {
        let g = self.geometry();
        assert((g >> 10u32) & 0x1F < 32) by (bit_vector);
        (g >> 10u32) & POS_MASK
    }

    pub fn width(&self) -> (r: u32)
        ensures
            r == self.spec_width(),
            r < 64,
    {
        let g = self.geometry();
        assert((g >> 15u32) & 0x3F < 64) by (bit_vector);
        (g >> 15u32) & SIZE_MASK
    }

    pub fn height(&self) -> (r: u32)
        ensures
            r == self.spec_height(),
            r < 64,
    {
        let g = self.geometry();
        assert((g >> 21u32) & 0x3F < 64) by (bit_vector);
        (g >> 21u32) & SIZE_MASK
    }

    /// The raw 3-bit face field.
    pub fn face_bits(&self) -> (r: u8)
        ensures
            r == self.spec_face_bits(),
            r < 8,
    {
        let g = self.geometry();
        assert((g >> 27u32) & 0x7 < 8) by (bit_vector);
        ((g >> 27u32) & FACE_MASK) as u8
    }

    /// The quad's face; the face field must name one of the six faces.
    pub fn face(&self) -> (r: FaceDir)
        requires
            self.has_valid_face(),
        ensures
            r == self.spec_face(),
            r.spec_index() == self.spec_face_bits(),
    {
        FaceDir::from_index(self.face_bits())
    }

    pub fn block_type(&self) -> (r: u8)
        ensures
            r == self.data[4],
    {
        self.data[4]
    }

    /// Corner AO values (0 = occluded .. 3 = open), corner 0 to corner 3.
    pub fn ao(&self) -> (r: [u8; 4])
        ensures
            r == self.spec_ao(),
            r[0] < 4 && r[1] < 4 && r[2] < 4 && r[3] < 4,
    {
        let a = self.data[5];
        assert((a & 3u8) < 4 && ((a >> 2u8) & 3u8) < 4 && ((a >> 4u8) & 3u8) < 4 && ((a >> 6u8)
            & 3u8) < 4) by (bit_vector);
        [a & 0x3, (a >> 2u8) & 0x3, (a >> 4u8) & 0x3, (a >> 6u8) & 0x3]
    }

    /// Pack four corner AO values (each masked to 2 bits) into one byte.
    pub fn pack_ao(corners: [u8; 4]) -> (r: u8)
        ensures
            r == pack_ao_spec(corners[0], corners[1], corners[2], corners[3]),
            unpack_ao_spec(r) == [corners[0] & 3u8, corners[1] & 3u8, corners[2] & 3u8, corners[3]
                & 3u8],
    {
        let r = (corners[0] & 0x3) | ((corners[1] & 0x3) << 2u8) | ((corners[2] & 0x3) << 4u8) | ((
        corners[3] & 0x3) << 6u8);
        proof {
            lemma_ao_round_trip(corners[0], corners[1], corners[2], corners[3]);
        }
        r
    }

    /// Largest of the four corner AO values.
    pub fn ao_max(&self) -> (r: u8)
        ensures
            r == max4(self.spec_ao()[0], self.spec_ao()[1], self.spec_ao()[2], self.spec_ao()[3]),
            r < 4,
    {
        let c = self.ao();
        let ab = if c[0] >= c[1] { c[0] } else { c[1] };
        let cd = if c[2] >= c[3] { c[2] } else { c[3] };
        if ab >= cd { ab } else { cd }
    }

    /// `sky << 4 | block` with both nibbles masked to 4 bits.
    pub fn pack_light(sky: u8, block: u8) -> (r: u8)
        ensures
            r == pack_light_spec(sky, block),
            (r >> 4u8) == sky & 0xFu8,
            (r & 0xFu8) == block & 0xFu8,
    {
        assert((((sky & 0xFu8) << 4u8) | (block & 0xFu8)) >> 4u8 == sky & 0xFu8) by (bit_vector);
        assert((((sky & 0xFu8) << 4u8) | (block & 0xFu8)) & 0xFu8 == block & 0xFu8) by (bit_vector);
        ((sky & 0xF) << 4u8) | (block & 0xF)
    }

    pub fn light(&self) -> (r: u8)
        ensures
            r == self.data[6],
    {
        self.data[6]
    }

    /// Overwrite the light byte, leaving every other byte unchanged.
    pub fn set_light(&mut self, light: u8)
        ensures
            final(self).data[6] == light,
            forall|i: int| 0 <= i < 8 && i != 6 ==> final(self).data[i] == old(self).data[i],
    {
        self.data[6] = light;
    }

    pub fn flags(&self) -> (r: u8)
        ensures
            r == self.data[7],
    {
        self.data[7]
    }

    /// Re-pack this quad from its own fields, the two reserved geometry bits
    /// included: the result is byte for byte the quad itself.
    pub fn repack(&self) -> (r: Self)
        requires
            self.has_valid_face(),
        ensures
            r == *self,
    {
        let c = self.ao();
        let f = self.face().index();
        let fresh = Self::new(
            self.x(),
            self.y(),
            self.z(),
            self.width(),
            self.height(),
            f,
            self.block_type(),
            PackedQuad::pack_ao(c),
            self.light(),
            self.flags(),
        );
        let reserved: u8 = self.data[3] & 0xC0u8;
        let r = PackedQuad {
            data: [
                fresh.data[0],
                fresh.data[1],
                fresh.data[2],
                fresh.data[3] | reserved,
                fresh.data[4],
                fresh.data[5],
                fresh.data[6],
                fresh.data[7],
            ],
        };
        proof {
            let g = self.geometry_word();
            lemma_geometry_repack(g);
            lemma_ao_repack(self.data[5]);
            lemma_reserved_restore(fresh.data[0], fresh.data[1], fresh.data[2], fresh.data[3],
                self.data[0], self.data[1], self.data[2], self.data[3]);
            assert(r.data =~= self.data);
        }
        r
    }

    /// Tangent axes `(u, v)` of this quad's face.
    fn tangent_axes(&self) -> (r: (usize, usize))
        requires
            self.has_valid_face(),
        ensures
            r.0 == tangent_axes_spec(self.spec_face().spec_index() / 2).0,
            r.1 == tangent_axes_spec(self.spec_face().spec_index() / 2).1,
            r.0 < 3 && r.1 < 3,
    {
        let d = self.face().axis();
        ((d + 1) % 3, (d + 2) % 3)
    }

    /// Sector-local position of corner `corner` (taken modulo 4).
    pub fn corner_pos(&self, corner: u8) -> (r: [u32; 3])
        requires
            self.has_valid_face(),
        ensures
            r == self.spec_corner_pos(corner),
    {
        let (u, v) = self.tangent_axes();
        let w = self.width();
        let h = self.height();
        let mut p: [u32; 3] = [self.x(), self.y(), self.z()];
        let du: u32 = if corner % 4 == 1 || corner % 4 == 3 { 1 } else { 0 };
        let dv: u32 = if corner % 4 >= 2 { 1 } else { 0 };
        p[u] = p[u] + du * w;
        p[v] = p[v] + dv * h;
        assert(p@ =~= self.spec_corner_pos(corner)@);
        p
    }

    /// Expand corner `corner` (taken modulo 4) into the 4-byte vertex format.
    pub fn vertex(&self, corner: u8) -> (r: PackedVertex4)
        requires
            self.has_valid_face(),
        ensures
            r.data == pack_vertex_spec(
                self.spec_corner_pos(corner),
                self.spec_face_bits() as u8,
                [corner_du(corner) as u8, corner_dv(corner) as u8],
                self.spec_ao()[(corner % 4) as int],
                self.data[4],
            ),
    {
        let pos = self.corner_pos(corner);
        let normal = self.face().index();
        let uv_u: u8 = if corner % 4 == 1 || corner % 4 == 3 { 1 } else { 0 };
        let uv_v: u8 = if corner % 4 >= 2 { 1 } else { 0 };
        let ao = self.ao()[(corner % 4) as usize];
        let color = self.block_type();
        PackedVertex4::pack(pos, normal, [uv_u, uv_v], ao, color)
    }
}

/// The vertex word for the given fields, each masked to its width:
/// `pos(6|6|6) | normal(3) | uv(2|2) | ao(2) | color(3)`.
pub open spec fn pack_vertex_spec(pos: [u32; 3], normal: u8, uv: [u8; 2], ao: u8, color: u8) -> u32 {
    (pos[0] & 0x3F) | ((pos[1] & 0x3F) << 6u32) | ((pos[2] & 0x3F) << 12u32) | (((normal as u32)
        & 0x7) << 18u32) | (((uv[0] as u32) & 0x3) << 21u32) | (((uv[1] as u32) & 0x3) << 23u32) | (
    ((ao as u32) & 0x3) << 25u32) | (((color as u32) & 0x7) << 27u32)
}

/// 4-byte packed vertex: position, normal, uv, AO and a 3-bit color.
#[derive(Clone, Copy, Debug, Default, PartialEq, Eq, Structural)]
pub struct PackedVertex4 {
    pub data: u32,
}

impl PackedVertex4 {
    pub fn pack(pos: [u32; 3], normal: u8, uv: [u8; 2], ao: u8, color: u8) -> (r: Self)
        ensures
            r.data == pack_vertex_spec(pos, normal, uv, ao, color),
            r.spec_unpack() == (
                [pos[0] & 0x3F, pos[1] & 0x3F, pos[2] & 0x3F],
                normal & 7u8,
                [uv[0] & 3u8, uv[1] & 3u8],
                ao & 3u8,
                color & 7u8,
            ),
    {
        let g = (pos[0] & 0x3F) | ((pos[1] & 0x3F) << 6u32) | ((pos[2] & 0x3F) << 12u32) | (((
        normal as u32) & 0x7) << 18u32) | (((uv[0] as u32) & 0x3) << 21u32) | (((uv[1] as u32)
            & 0x3) << 23u32) | (((ao as u32) & 0x3) << 25u32) | (((color as u32) & 0x7) << 27u32);
        let r = PackedVertex4 { data: g };
        proof {
            lemma_vertex_round_trip(pos[0], pos[1], pos[2], normal, uv[0], uv[1], ao, color);
            assert(r.spec_unpack().0 =~= [pos[0] & 0x3F, pos[1] & 0x3F, pos[2] & 0x3F]);
            assert(r.spec_unpack().2 =~= [uv[0] & 3u8, uv[1] & 3u8]);
        }
        r
    }

    pub open spec fn spec_unpack(self) -> ([u32; 3], u8, [u8; 2], u8, u8) {
        let g = self.data;
        (
            [g & 0x3F, (g >> 6u32) & 0x3F, (g >> 12u32) & 0x3F],
            ((g >> 18u32) & 0x7) as u8,
            [((g >> 21u32) & 0x3) as u8, ((g >> 23u32) & 0x3) as u8],
            ((g >> 25u32) & 0x3) as u8,
            ((g >> 27u32) & 0x7) as u8,
        )
    }

    pub fn unpack(&self) -> (r: ([u32; 3], u8, [u8; 2], u8, u8))
        ensures
            r == self.spec_unpack(),
    {
        let g = self.data;
        (
            [g & 0x3F, (g >> 6u32) & 0x3F, (g >> 12u32) & 0x3F],
            ((g >> 18u32) & 0x7) as u8,
            [((g >> 21u32) & 0x3) as u8, ((g >> 23u32) & 0x3) as u8],
            ((g >> 25u32) & 0x3) as u8,
            ((g >> 27u32) & 0x7) as u8,
        )
    }
}

/// The fields decoded from the quad `spec_new` builds are its masked inputs.
pub proof fn lemma_spec_new_fields(
    x: u32,
    y: u32,
    z: u32,
    width: u32,
    height: u32,
    face: u8,
    block_type: u8,
    ao: u8,
    light: u8,
    flags: u8,
)
    ensures
        ({
            let q = PackedQuad::spec_new(x, y, z, width, height, face, block_type, ao, light, flags);
            &&& q.geometry_word() == pack_geometry(x, y, z, width, height, face as u32)
            &&& q.spec_x() == x & 0x1F
            &&& q.spec_y() == y & 0x1F
            &&& q.spec_z() == z & 0x1F
            &&& q.spec_width() == width & 0x3F
            &&& q.spec_height() == height & 0x3F
            &&& q.spec_face_bits() == (face as u32) & 0x7
            &&& q.data[4] == block_type
            &&& q.data[5] == ao
            &&& q.data[6] == light
            &&& q.data[7] == flags
        }),
{
    let g = pack_geometry(x, y, z, width, height, face as u32);
    lemma_le_u32_of_bytes(g);
    lemma_geometry_fields(x, y, z, width, height, face as u32);
}

/// A quad packed with a face index whose low three bits name one of the six
/// faces reads back that face: `new(.., face, ..).face()` is
/// `FaceDir::from_index(face & 7)`. With the bits 6 or 7 the quad has no valid
/// face, and reading it is refused.
pub proof fn lemma_new_face(
    x: u32,
    y: u32,
    z: u32,
    width: u32,
    height: u32,
    face: u8,
    block_type: u8,
    ao: u8,
    light: u8,
    flags: u8,
)
    ensures
        ({
            let q = PackedQuad::spec_new(x, y, z, width, height, face, block_type, ao, light, flags);
            &&& q.has_valid_face() <==> (face & 7u8) < 6
            &&& (face & 7u8) < 6 ==> q.spec_face() == FaceDir::spec_from_index((face & 7u8) as nat)
            &&& (face & 7u8) < 6 ==> q.spec_face().spec_index() == (face & 7u8)
        }),
{
    lemma_spec_new_fields(x, y, z, width, height, face, block_type, ao, light, flags);
    assert((face as u32) & 0x7 == (face & 7u8) as u32) by (bit_vector);
}

pub(crate) proof fn lemma_le_u32_of_bytes(g: u32)
    ensures
        le_u32((g & 0xFF) as u8, ((g >> 8u32) & 0xFF) as u8, ((g >> 16u32) & 0xFF) as u8, ((g
            >> 24u32) & 0xFF) as u8) == g,
{
    assert(((((g & 0xFF) as u8) as u32) | (((((g >> 8u32) & 0xFF) as u8) as u32) << 8u32) | ((((
    (g >> 16u32) & 0xFF) as u8) as u32) << 16u32) | (((((g >> 24u32) & 0xFF) as u8) as u32)
        << 24u32)) == g) by (bit_vector);
}

/// Bytes whose word is another word with its top two bits cleared agree with
/// it, once those two bits of the last byte are put back.
proof fn lemma_reserved_restore(a0: u8, a1: u8, a2: u8, a3: u8, b0: u8, b1: u8, b2: u8, b3: u8)
    requires
        le_u32(a0, a1, a2, a3) == le_u32(b0, b1, b2, b3) & 0x3FFF_FFFF,
    ensures
        a0 == b0,
        a1 == b1,
        a2 == b2,
        a3 | (b3 & 0xC0u8) == b3,
{
    assert(((a0 as u32) | ((a1 as u32) << 8u32) | ((a2 as u32) << 16u32) | ((a3 as u32) << 24u32))
        == (((b0 as u32) | ((b1 as u32) << 8u32) | ((b2 as u32) << 16u32) | ((b3 as u32) << 24u32))
        & 0x3FFF_FFFF) ==> a0 == b0 && a1 == b1 && a2 == b2 && a3 | (b3 & 0xC0u8) == b3)
        by (bit_vector);
}

proof fn lemma_geometry_fields(x: u32, y: u32, z: u32, w: u32, h: u32, f: u32)
    ensures
        ({
            let g = pack_geometry(x, y, z, w, h, f);
            &&& g & 0x1F == x & 0x1F
            &&& (g >> 5u32) & 0x1F == y & 0x1F
            &&& (g >> 10u32) & 0x1F == z & 0x1F
            &&& (g >> 15u32) & 0x3F == w & 0x3F
            &&& (g >> 21u32) & 0x3F == h & 0x3F
            &&& (g >> 27u32) & 0x7 == f & 0x7
            &&& g >> 30u32 == 0
        }),
{
    let g = pack_geometry(x, y, z, w, h, f);
    assert(g == (x & 0x1F) | ((y & 0x1F) << 5u32) | ((z & 0x1F) << 10u32) | ((w & 0x3F) << 15u32)
        | ((h & 0x3F) << 21u32) | ((f & 0x7) << 27u32));
    assert({
        let g = (x & 0x1F) | ((y & 0x1F) << 5u32) | ((z & 0x1F) << 10u32) | ((w & 0x3F) << 15u32)
            | ((h & 0x3F) << 21u32) | ((f & 0x7) << 27u32);
        &&& g & 0x1F == x & 0x1F
        &&& (g >> 5u32) & 0x1F == y & 0x1F
        &&& (g >> 10u32) & 0x1F == z & 0x1F
        &&& (g >> 15u32) & 0x3F == w & 0x3F
        &&& (g >> 21u32) & 0x3F == h & 0x3F
        &&& (g >> 27u32) & 0x7 == f & 0x7
        &&& g >> 30u32 == 0
    }) by (bit_vector);
}

proof fn lemma_geometry_repack(g: u32)
    ensures
        pack_geometry(
            g & 0x1F,
            (g >> 5u32) & 0x1F,
            (g >> 10u32) & 0x1F,
            (g >> 15u32) & 0x3F,
            (g >> 21u32) & 0x3F,
            (((g >> 27u32) & 0x7) as u8) as u32,
        ) == g & 0x3FFF_FFFF,
{
    assert(((g & 0x1F) & 0x1F) | ((((g >> 5u32) & 0x1F) & 0x1F) << 5u32) | ((((g >> 10u32) & 0x1F)
        & 0x1F) << 10u32) | ((((g >> 15u32) & 0x3F) & 0x3F) << 15u32) | ((((g >> 21u32) & 0x3F)
        & 0x3F) << 21u32) | (((((((g >> 27u32) & 0x7) as u8) as u32)) & 0x7) << 27u32) == g
        & 0x3FFF_FFFF) by (bit_vector);
}

proof fn lemma_ao_round_trip(c0: u8, c1: u8, c2: u8, c3: u8)
    ensures
        unpack_ao_spec(pack_ao_spec(c0, c1, c2, c3)) == [c0 & 3u8, c1 & 3u8, c2 & 3u8, c3 & 3u8],
{
    let a = pack_ao_spec(c0, c1, c2, c3);
    assert({
        let a = (c0 & 3u8) | ((c1 & 3u8) << 2u8) | ((c2 & 3u8) << 4u8) | ((c3 & 3u8) << 6u8);
        &&& a & 3u8 == c0 & 3u8
        &&& (a >> 2u8) & 3u8 == c1 & 3u8
        &&& (a >> 4u8) & 3u8 == c2 & 3u8
        &&& (a >> 6u8) & 3u8 == c3 & 3u8
    }) by (bit_vector);
    assert(unpack_ao_spec(a) =~= [c0 & 3u8, c1 & 3u8, c2 & 3u8, c3 & 3u8]);
}

proof fn lemma_ao_repack(a: u8)
    ensures
        pack_ao_spec(unpack_ao_spec(a)[0], unpack_ao_spec(a)[1], unpack_ao_spec(a)[2], unpack_ao_spec(
            a,
        )[3]) == a,
{
    assert(((a & 3u8) & 3u8) | ((((a >> 2u8) & 3u8) & 3u8) << 2u8) | ((((a >> 4u8) & 3u8) & 3u8)
        << 4u8) | ((((a >> 6u8) & 3u8) & 3u8) << 6u8) == a) by (bit_vector);
}

proof fn lemma_vertex_round_trip(p0: u32, p1: u32, p2: u32, n: u8, u0: u8, u1: u8, ao: u8, c: u8)
    ensures
        ({
            let g = pack_vertex_spec([p0, p1, p2], n, [u0, u1], ao, c);
            &&& g & 0x3F == p0 & 0x3F
            &&& (g >> 6u32) & 0x3F == p1 & 0x3F
            &&& (g >> 12u32) & 0x3F == p2 & 0x3F
            &&& ((g >> 18u32) & 0x7) as u8 == n & 7u8
            &&& ((g >> 21u32) & 0x3) as u8 == u0 & 3u8
            &&& ((g >> 23u32) & 0x3) as u8 == u1 & 3u8
            &&& ((g >> 25u32) & 0x3) as u8 == ao & 3u8
            &&& ((g >> 27u32) & 0x7) as u8 == c & 7u8
        }),
{
    let g = pack_vertex_spec([p0, p1, p2], n, [u0, u1], ao, c);
    assert(g == (p0 & 0x3F) | ((p1 & 0x3F) << 6u32) | ((p2 & 0x3F) << 12u32) | (((n as u32) & 0x7)
        << 18u32) | (((u0 as u32) & 0x3) << 21u32) | (((u1 as u32) & 0x3) << 23u32) | (((ao as u32)
        & 0x3) << 25u32) | (((c as u32) & 0x7) << 27u32));
    assert({
        let g = (p0 & 0x3F) | ((p1 & 0x3F) << 6u32) | ((p2 & 0x3F) << 12u32) | (((n as u32) & 0x7)
            << 18u32) | (((u0 as u32) & 0x3) << 21u32) | (((u1 as u32) & 0x3) << 23u32) | (((
        ao as u32) & 0x3) << 25u32) | (((c as u32) & 0x7) << 27u32);
        &&& g & 0x3F == p0 & 0x3F
        &&& (g >> 6u32) & 0x3F == p1 & 0x3F
        &&& (g >> 12u32) & 0x3F == p2 & 0x3F
        &&& ((g >> 18u32) & 0x7) as u8 == n & 7u8
        &&& ((g >> 21u32) & 0x3) as u8 == u0 & 3u8
        &&& ((g >> 23u32) & 0x3) as u8 == u1 & 3u8
        &&& ((g >> 25u32) & 0x3) as u8 == ao & 3u8
        &&& ((g >> 27u32) & 0x7) as u8 == c & 7u8
    }) by (bit_vector);
}

} // verus!
