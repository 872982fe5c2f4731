//! A chunk with a material per voxel, its visible faces, and packed quads.

use vstd::prelude::*;

use crate::mesh_cpu;
use crate::mesh_laws;
use crate::occupancy;
use crate::pool::{CS, CS_P, CS_P3, MATERIAL_EMPTY};
use crate::scene::OccupancyBuilder;

verus! {

/// A padded chunk: a material per voxel, and one bit per solid voxel.
pub struct BinaryChunk {
    occupancy: OccupancyBuilder,
    materials: Vec<u16>,
}

impl BinaryChunk {
    /// The material of a voxel; the empty material where there is none.
    pub closed spec fn at(&self, x: int, y: int, z: int) -> u16 {
        self.materials@[mesh_cpu::voxel_index(x, y, z)]
    }

    /// The occupancy words of the chunk.
    pub closed spec fn words(&self) -> Seq<u32> {
        self.occupancy@
    }

    /// A voxel is solid where it has a material.
    pub closed spec fn wf(&self) -> bool {
        &&& self.occupancy.wf()
        &&& self.materials@.len() == CS_P3
        &&& forall|x: int, y: int, z: int|
            #![trigger self.occupancy.has(x, y, z)]
            occupancy::in_chunk(x, y, z) ==> self.occupancy.has(x, y, z) == (self.at(x, y, z)
                != MATERIAL_EMPTY)
    }

    /// The occupancy words show the voxels that have a material.
    pub proof fn words_show_materials(&self, x: int, y: int, z: int)
        requires
            self.wf(),
            occupancy::in_chunk(x, y, z),
        ensures
            occupancy::occupied(self.words(), x, y, z) == (self.at(x, y, z) != MATERIAL_EMPTY),
            self.words().len() == crate::pool::OCCUPANCY_WORDS_PER_SLOT,
    {
        assert(self.occupancy.has(x, y, z) == (self.at(x, y, z) != MATERIAL_EMPTY));
    }

    /// An empty chunk.
    pub fn new() -> (c: Self)
        ensures
            c.wf(),
            forall|x: int, y: int, z: int|
                occupancy::in_chunk(x, y, z) ==> #[trigger] c.at(x, y, z) == MATERIAL_EMPTY,
    {
        let c = BinaryChunk {
            occupancy: OccupancyBuilder::new(),
            materials: vec![MATERIAL_EMPTY; CS_P3 as usize],
        };
        assert forall|x: int, y: int, z: int|
            occupancy::in_chunk(x, y, z) implies #[trigger] c.at(x, y, z) == MATERIAL_EMPTY by {
            lemma_voxel_index(x, y, z, x, y, z);
        }
        c
    }

    /// An empty chunk on the heap.
    pub fn new_boxed() -> (c: Box<Self>)
        ensures
            c.wf(),
            forall|x: int, y: int, z: int|
                occupancy::in_chunk(x, y, z) ==> #[trigger] c.at(x, y, z) == MATERIAL_EMPTY,
    {
        Box::new(BinaryChunk::new())
    }

    /// Set a voxel's material; the empty material removes the voxel.
    pub fn set(&mut self, x: usize, y: usize, z: usize, material: u16)
        requires
            old(self).wf(),
            occupancy::in_chunk(x as int, y as int, z as int),
        ensures
            final(self).wf(),
            forall|a: int, b: int, c: int|
                occupancy::in_chunk(a, b, c) ==> #[trigger] final(self).at(a, b, c) == (if a == x
                    && b == y && c == z {
                    material
                } else {
                    old(self).at(a, b, c)
                }),
    {
        let i: usize = x * 4096 + y * 64 + z;
        let ghost before = *self;
        proof {
            lemma_voxel_index(x as int, y as int, z as int, x as int, y as int, z as int);
        }
        self.materials.set(i, material);
        if material == MATERIAL_EMPTY {
            self.occupancy.clear(x as u32, y as u32, z as u32);
        } else {
            self.occupancy.set(x as u32, y as u32, z as u32);
        }
        proof {
            assert forall|a: int, b: int, c: int|
                occupancy::in_chunk(a, b, c) implies #[trigger] self.at(a, b, c) == (if a == x && b
                == y && c == z {
                material
            } else {
                before.at(a, b, c)
            }) by {
                lemma_voxel_index(a, b, c, x as int, y as int, z as int);
            }
            assert forall|a: int, b: int, c: int|
                #![trigger self.occupancy.has(a, b, c)]
                occupancy::in_chunk(a, b, c) implies self.occupancy.has(a, b, c) == (self.at(
                a,
                b,
                c,
            ) != MATERIAL_EMPTY) by {
                assert(before.occupancy.has(a, b, c) == (before.at(a, b, c) != MATERIAL_EMPTY));
            }
        }
    }

    /// The material of a voxel.
    pub fn get_material(&self, x: usize, y: usize, z: usize) -> (m: u16)
        requires
            self.wf(),
            occupancy::in_chunk(x as int, y as int, z as int),
        ensures
            m == self.at(x as int, y as int, z as int),
    {
        proof {
            lemma_voxel_index(x as int, y as int, z as int, x as int, y as int, z as int);
        }
        self.materials[x * 4096 + y * 64 + z]
    }

    /// Whether a voxel is solid.
    pub fn is_solid(&self, x: usize, y: usize, z: usize) -> (b: bool)
        requires
            self.wf(),
            occupancy::in_chunk(x as int, y as int, z as int),
        ensures
            b == (self.at(x as int, y as int, z as int) != MATERIAL_EMPTY),
    {
        self.occupancy.get(x as u32, y as u32, z as u32)
    }

    /// Number of solid voxels.
    pub fn solid_count(&self) -> (n: usize)
        requires
            self.wf(),
        ensures
            n == solid_set(*self).len(),
    {
        proof {
            lemma_solid_set(*self);
        }
        self.occupancy.popcount() as usize
    }

    /// Whether no voxel is solid.
    pub fn is_empty(&self) -> (b: bool)
        requires
            self.wf(),
        ensures
            b == (solid_set(*self) == Set::<(int, int, int)>::empty()),
    {
        let n: usize = self.solid_count();
        proof {
            lemma_solid_set(*self);
            occupancy::occupied_set_len(self.words());
            if solid_set(*self).len() == 0 {
                assert(solid_set(*self) =~= Set::empty());
            }
        }
        n == 0
    }

    /// The occupancy words of the chunk.
    pub fn occupancy_words(&self) -> (w: &[u32])
        ensures
            w@ == self.words(),
    {
        self.occupancy.as_words()
    }
}

/// The solid voxels of a chunk.
pub open spec fn solid_set(c: BinaryChunk) -> Set<(int, int, int)> {
    Set::new(
        |v: (int, int, int)|
            occupancy::in_chunk(v.0, v.1, v.2) && c.at(v.0, v.1, v.2) != MATERIAL_EMPTY,
    )
}

proof fn lemma_solid_set(c: BinaryChunk)
    requires
        c.wf(),
    ensures
        solid_set(c) == occupancy::occupied_set(c.words()),
{
    assert forall|v: (int, int, int)| solid_set(c).contains(v) == occupancy::occupied_set(
        c.words(),
    ).contains(v) by {
        if occupancy::in_chunk(v.0, v.1, v.2) {
            assert(c.occupancy.has(v.0, v.1, v.2) == (c.at(v.0, v.1, v.2) != MATERIAL_EMPTY));
        }
    }
    assert(solid_set(c) =~= occupancy::occupied_set(c.words()));
}

/// Voxels of a chunk have numbers of their own.
proof fn lemma_voxel_index(x: int, y: int, z: int, a: int, b: int, c: int)
    requires
        occupancy::in_chunk(x, y, z),
        occupancy::in_chunk(a, b, c),
    ensures
        mesh_cpu::voxel_index(x, y, z) == x * 4096 + y * 64 + z,
        0 <= mesh_cpu::voxel_index(x, y, z) < CS_P3,
        mesh_cpu::voxel_index(x, y, z) == mesh_cpu::voxel_index(a, b, c) ==> x == a && y == b && z
            == c,
{
}

/// Visible faces of a chunk, one mask of columns for each direction.
pub struct FaceMasks {
    masks: [Vec<u64>; 6],
}

impl View for FaceMasks {
    type V = Seq<Vec<u64>>;

    closed spec fn view(&self) -> Seq<Vec<u64>> {
        self.masks@
    }
}

/// Whether the face of a voxel is visible: the voxel is solid and the one
/// behind the face is not.
pub open spec fn face_exposed(c: BinaryChunk, face: int, x: int, y: int, z: int) -> bool {
    let d = mesh_cpu::face_step(face);
    c.at(x, y, z) != MATERIAL_EMPTY && c.at(x + d.0, y + d.1, z + d.2) == MATERIAL_EMPTY
}

/// The masks of a chunk: for each direction, column and usable height, whether
/// that face is visible.
pub open spec fn are_masks_of(c: BinaryChunk, masks: Seq<Vec<u64>>) -> bool {
    forall|face: int, x: int, y: int, z: int|
        0 <= face < 6 && occupancy::in_chunk(x, y, z) ==> #[trigger] mesh_cpu::mask_bit(
            masks,
            face,
            x,
            y,
            z,
        ) == (1 <= x <= CS && y < CS && 1 <= z <= CS && face_exposed(c, face, x, y + 1, z))
}

impl FaceMasks {
    /// Every column is there.
    pub open spec fn wf(&self) -> bool {
        &&& self@.len() == 6
        &&& forall|face: int| 0 <= face < 6 ==> (#[trigger] self@[face])@.len() == CS_P * CS_P
    }

    /// Masks without a visible face.
    pub fn new() -> (m: Self)
        ensures
            m.wf(),
            forall|face: int, i: int|
                0 <= face < 6 && 0 <= i < CS_P * CS_P ==> #[trigger] m@[face]@[i] == 0,
    {
        let m = FaceMasks {
            masks: [
                vec![0u64; 4096],
                vec![0u64; 4096],
                vec![0u64; 4096],
                vec![0u64; 4096],
                vec![0u64; 4096],
                vec![0u64; 4096],
            ],
        };
        m
    }

    /// One column of a mask.
    pub fn get(&self, face: usize, x: usize, z: usize) -> (w: u64)
        requires
            self.wf(),
            face < 6,
            x < CS_P,
            z < CS_P,
        ensures
            w == self@[face as int]@[occupancy::column_index(x as int, z as int)],
    {
        assert(self@[face as int]@.len() == CS_P * CS_P);
        self.masks[face][x * 64 + z]
    }

    /// Number of visible faces.
    pub fn total_faces(&self) -> (n: usize)
        requires
            self.wf(),
        ensures
            n == mesh_cpu::all_faces(self@),
    {
        proof {
            lemma_face_total(self@);
        }
        mesh_cpu::total_face_count(&self.masks) as usize
    }
}

proof fn lemma_face_total(masks: Seq<Vec<u64>>)
    requires
        masks.len() == 6,
        forall|face: int| 0 <= face < 6 ==> (#[trigger] masks[face])@.len() == CS_P * CS_P,
    ensures
        mesh_cpu::all_faces(masks) <= 6 * 64 * 4096,
        forall|face: int|
            0 <= face < 6 ==> crate::bits::ones_sum((#[trigger] masks[face])@) <= 64 * 4096,
{
    assert forall|face: int| 0 <= face < 6 implies crate::bits::ones_sum(
        (#[trigger] masks[face])@,
    ) <= 64 * 4096 by {
        crate::bits::lemma_ones_sum_prefix(masks[face]@, 0);
        assert(masks[face]@.take(0) =~= Seq::empty());
    }
    assert(masks[0]@.len() == 4096 && masks[1]@.len() == 4096 && masks[2]@.len() == 4096
        && masks[3]@.len() == 4096 && masks[4]@.len() == 4096 && masks[5]@.len() == 4096);
}

/// Find the visible faces of a chunk.
pub fn cull_faces(chunk: &BinaryChunk, masks: &mut FaceMasks)
    requires
        chunk.wf(),
    ensures
        final(masks).wf(),
        are_masks_of(*chunk, final(masks)@),
        mesh_cpu::are_face_masks(chunk.words(), final(masks)@),
{
    proof {
        chunk.words_show_materials(0, 0, 0);
    }
    let found = mesh_cpu::cull_faces_cpu(chunk.occupancy_words());
    *masks = FaceMasks { masks: found };
    proof {
        assert forall|face: int, x: int, y: int, z: int|
            0 <= face < 6 && occupancy::in_chunk(x, y, z) implies #[trigger] mesh_cpu::mask_bit(
            masks@,
            face,
            x,
            y,
            z,
        ) == (1 <= x <= CS && y < CS && 1 <= z <= CS && face_exposed(
            *chunk,
            face,
            x,
            y + 1,
            z,
        )) by {
            if 1 <= x <= CS && y < CS && 1 <= z <= CS {
                let d = mesh_cpu::face_step(face);
                chunk.words_show_materials(x, y + 1, z);
                chunk.words_show_materials(x + d.0, y + 1 + d.1, z + d.2);
            }
        }
    }
}

/// The number of set mask bits is the number of visible faces.
pub proof fn mask_bits_count_visible_faces(c: BinaryChunk, masks: Seq<Vec<u64>>, face: int)
    requires
        mesh_cpu::are_face_masks(c.words(), masks),
        0 <= face < 6,
    ensures
        mesh_laws::exposed_set(c.words(), face).len() == crate::bits::ones_sum(masks[face]@),
{
    mesh_laws::mask_bits_count_exposed_faces(c.words(), masks, face);
}

/// A packed quad: five fields of six bits and a material.
pub open spec fn packed(x: int, y: int, z: int, width: int, height: int, material: int) -> int {
    x + y * 64 + z * 4096 + width * 262_144 + height * 16_777_216 + material * 0x1_0000_0000
}

/// Pack a quad into a word.
pub fn pack_quad(x: u32, y: u32, z: u32, width: u32, height: u32, material: u16) -> (q: u64)
    requires
        x < 64 && y < 64 && z < 64 && width < 64 && height < 64,
    ensures
        q == packed(
            x as int,
            y as int,
            z as int,
            width as int,
            height as int,
            material as int,
        ),
{
    x as u64 + y as u64 * 64 + z as u64 * 4096 + width as u64 * 262_144 + height as u64 * 16_777_216
        + material as u64 * 0x1_0000_0000
}

/// The fields of a packed quad: x, y, z, width, height, material.
pub open spec fn unpacked(q: u64) -> (int, int, int, int, int, int) {
    (
        q as int % 64,
        q as int / 64 % 64,
        q as int / 4096 % 64,
        q as int / 262_144 % 64,
        q as int / 16_777_216 % 64,
        q as int / 0x1_0000_0000 % 0x1_0000,
    )
}

/// Read the fields of a packed quad.
pub fn unpack_quad(q: u64) -> (f: (u32, u32, u32, u32, u32, u16))
    ensures
        (
            f.0 as int,
            f.1 as int,
            f.2 as int,
            f.3 as int,
            f.4 as int,
            f.5 as int,
        ) == unpacked(q),
{
    (
        (q % 64) as u32,
        (q / 64 % 64) as u32,
        (q / 4096 % 64) as u32,
        (q / 262_144 % 64) as u32,
        (q / 16_777_216 % 64) as u32,
        (q / 0x1_0000_0000 % 0x1_0000) as u16,
    )
}

/// Unpacking gives back what was packed.
pub proof fn pack_roundtrip(x: int, y: int, z: int, width: int, height: int, material: int)
    requires
        0 <= x < 64 && 0 <= y < 64 && 0 <= z < 64 && 0 <= width < 64 && 0 <= height < 64,
        0 <= material < 0x1_0000,
    ensures
        0 <= packed(x, y, z, width, height, material) <= u64::MAX,
        unpacked(packed(x, y, z, width, height, material) as u64) == (
            x,
            y,
            z,
            width,
            height,
            material,
        ),
{
    let q = packed(x, y, z, width, height, material);
    let r4 = height + 256 * material;
    let r3 = width + 64 * r4;
    let r2 = z + 64 * r3;
    let r1 = y + 64 * r2;
    lemma_digits(q, 64, x, r1);
    lemma_digits(r1, 64, y, r2);
    lemma_digits(q, 4096, x + 64 * y, r2);
    lemma_digits(r2, 64, z, r3);
    lemma_digits(q, 262_144, x + 64 * y + 4096 * z, r3);
    lemma_digits(r3, 64, width, r4);
    lemma_digits(q, 16_777_216, x + 64 * y + 4096 * z + 262_144 * width, r4);
    lemma_digits(r4, 64, height, 4 * material);
    lemma_digits(
        q,
        0x1_0000_0000,
        x + 64 * y + 4096 * z + 262_144 * width + 16_777_216 * height,
        material,
    );
    lemma_digits(material, 0x1_0000, material, 0);
}

/// Division and remainder of a number written as low part and rest.
proof fn lemma_digits(q: int, base: int, low: int, rest: int)
    requires
        base > 0,
        0 <= low < base,
        q == low + base * rest,
    ensures
        q / base == rest,
        q % base == low,
{
    vstd::arithmetic::mul::lemma_mul_is_commutative(base, rest);
    vstd::arithmetic::div_mod::lemma_fundamental_div_mod_converse(q, base, rest, low);
}

/// The fields of a packed quad lie from the lowest bits up: x, y, z, width, height,
/// six bits each, two bits unused, and the material.
pub proof fn packed_fields_lie_in_order(
    x: int,
    y: int,
    z: int,
    width: int,
    height: int,
    material: int,
)
    ensures
        packed(x, y, z, width, height, material) == x + 64 * (y + 64 * (z + 64 * (width + 64 * (height
            + 256 * material)))),
{
}

} // verus!
