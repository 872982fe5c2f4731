//! Material table entries and the tables of the test scenes.
//!
//! Numbers are given as single-precision bit patterns.

use vstd::prelude::*;

use crate::half;
use crate::pool::{MATERIAL_DEFAULT, MAX_MATERIALS};
use crate::scene::{
    MAT_BLUE, MAT_EMISSIVE, MAT_GOLD, MAT_GREEN, MAT_LIGHT, MAT_RED, MAT_ROUGH_GRAY, MAT_STONE,
    MAT_WHITE,
};

verus! {

/// A material entry: four words of packed half-precision pairs.
#[derive(Debug, Clone, Copy, PartialEq, Eq, Structural)]
pub struct MaterialEntry {
    pub albedo_rg: u32,
    pub albedo_b_roughness: u32,
    pub emissive_rg: u32,
    pub emissive_b_opacity: u32,
}

/// The entry of a material.
pub open spec fn material_entry(
    albedo: Seq<u32>,
    roughness: u32,
    emissive: Seq<u32>,
    opacity: u32,
) -> MaterialEntry {
    MaterialEntry {
        albedo_rg: half::half_pair(albedo[0], albedo[1]) as u32,
        albedo_b_roughness: half::half_pair(albedo[2], roughness) as u32,
        emissive_rg: half::half_pair(emissive[0], emissive[1]) as u32,
        emissive_b_opacity: half::half_pair(emissive[2], opacity) as u32,
    }
}

impl MaterialEntry {
    /// Create a material from albedo, roughness, emission and opacity.
    pub fn new(albedo: [u32; 3], roughness: u32, emissive: [u32; 3], opacity: u32) -> (m: Self)
        ensures
            m == material_entry(albedo@, roughness, emissive@, opacity),
    {
        MaterialEntry {
            albedo_rg: half::pack_f16_pair(albedo[0], albedo[1]),
            albedo_b_roughness: half::pack_f16_pair(albedo[2], roughness),
            emissive_rg: half::pack_f16_pair(emissive[0], emissive[1]),
            emissive_b_opacity: half::pack_f16_pair(emissive[2], opacity),
        }
    }

    /// The four words of the entry, in memory order.
    pub open spec fn words_spec(&self) -> Seq<u32> {
        seq![
            self.albedo_rg,
            self.albedo_b_roughness,
            self.emissive_rg,
            self.emissive_b_opacity,
        ]
    }
}

/// An entry without light.
pub open spec fn black() -> MaterialEntry {
    MaterialEntry {
        albedo_rg: 0,
        albedo_b_roughness: 0,
        emissive_rg: 0,
        emissive_b_opacity: 0,
    }
}

/// One half.
pub const N_0_5: u32 = 0x3F00_0000;

/// One.
pub const N_1: u32 = 0x3F80_0000;

/// A table of black entries.
pub fn empty_table(n: u32) -> (t: Vec<MaterialEntry>)
    ensures
        t@ == Seq::new(n as nat, |i: int| black()),
{
    let dark: MaterialEntry = MaterialEntry {
        albedo_rg: 0,
        albedo_b_roughness: 0,
        emissive_rg: 0,
        emissive_b_opacity: 0,
    };
    let mut t: Vec<MaterialEntry> = Vec::new();
    let mut i: u32 = 0;
    while i < n
        invariant
            i <= n,
            dark == black(),
            t@ == Seq::new(i as nat, |i: int| black()),
        decreases n - i,
    {
        t.push(dark);
        i = i + 1;
    }
    t
}

/// The default material: medium gray.
pub open spec fn default_entry() -> MaterialEntry {
    material_entry(seq![N_0_5, N_0_5, N_0_5], N_0_5, seq![0u32, 0u32, 0u32], N_1)
}

/// Entries of the test scene's table.
pub open spec fn test_scene_entry(id: int) -> MaterialEntry {
    let dark = seq![0u32, 0u32, 0u32];
    if id == MATERIAL_DEFAULT {
        default_entry()
    } else if id == MAT_STONE {
        material_entry(seq![0x3EE6_6666u32, 0x3EDC_28F6, 0x3ECC_CCCD], 0x3F4C_CCCD, dark, N_1)
    } else if id == MAT_BLUE {
        material_entry(seq![0x3E4C_CCCDu32, 0x3EB3_3333, 0x3F33_3333], 0x3ECC_CCCD, dark, N_1)
    } else if id == MAT_EMISSIVE {
        material_entry(
            seq![N_1, 0x3F66_6666, 0x3E99_999A],
            0x3E4C_CCCD,
            seq![0x4000_0000u32, 0x3FE6_6666, N_0_5],
            N_1,
        )
    } else {
        black()
    }
}

/// Build the global material table for the test scene.
pub fn test_scene_materials() -> (t: Vec<MaterialEntry>)
    ensures
        t@ == Seq::new(MAX_MATERIALS as nat, |i: int| test_scene_entry(i)),
{
    let dark: [u32; 3] = [0, 0, 0];
    let mut t: Vec<MaterialEntry> = empty_table(MAX_MATERIALS);
    t[MATERIAL_DEFAULT as usize] = MaterialEntry::new([N_0_5, N_0_5, N_0_5], N_0_5, dark, N_1);
    // Stone gray: 0.45, 0.43, 0.40; rough.
    t[MAT_STONE as usize] = MaterialEntry::new(
        [0x3EE6_6666, 0x3EDC_28F6, 0x3ECC_CCCD],
        0x3F4C_CCCD,
        dark,
        N_1,
    );
    // Blue: 0.2, 0.35, 0.7.
    t[MAT_BLUE as usize] = MaterialEntry::new(
        [0x3E4C_CCCD, 0x3EB3_3333, 0x3F33_3333],
        0x3ECC_CCCD,
        dark,
        N_1,
    );
    // Emissive yellow: 1.0, 0.9, 0.3; emits 2.0, 1.8, 0.5.
    t[MAT_EMISSIVE as usize] = MaterialEntry::new(
        [N_1, 0x3F66_6666, 0x3E99_999A],
        0x3E4C_CCCD,
        [0x4000_0000, 0x3FE6_6666, N_0_5],
        N_1,
    );
    proof {
        let want = Seq::new(MAX_MATERIALS as nat, |i: int| test_scene_entry(i));
        assert(dark@ =~= seq![0u32, 0u32, 0u32]);
        assert([N_0_5, N_0_5, N_0_5]@ =~= seq![N_0_5, N_0_5, N_0_5]);
        assert([0x3EE6_6666u32, 0x3EDC_28F6, 0x3ECC_CCCD]@ =~= seq![
            0x3EE6_6666u32,
            0x3EDC_28F6,
            0x3ECC_CCCD,
        ]);
        assert([0x3E4C_CCCDu32, 0x3EB3_3333, 0x3F33_3333]@ =~= seq![
            0x3E4C_CCCDu32,
            0x3EB3_3333,
            0x3F33_3333,
        ]);
        assert([N_1, 0x3F66_6666, 0x3E99_999A]@ =~= seq![N_1, 0x3F66_6666, 0x3E99_999A]);
        assert([0x4000_0000u32, 0x3FE6_6666, N_0_5]@ =~= seq![0x4000_0000u32, 0x3FE6_6666, N_0_5]);
        assert(t@ =~= want);
    }
    t
}

/// Entries of the Cornell box's table.
pub open spec fn cornell_entry(id: int) -> MaterialEntry {
    let dark = seq![0u32, 0u32, 0u32];
    if id == MATERIAL_DEFAULT {
        default_entry()
    } else if id == MAT_WHITE {
        material_entry(seq![0x3F3A_E148u32, 0x3F3A_E148, 0x3F3A_E148], 0x3F66_6666, dark, N_1)
    } else if id == MAT_RED {
        material_entry(seq![0x3F26_6666u32, 0x3D4C_CCCD, 0x3D4C_CCCD], 0x3F66_6666, dark, N_1)
    } else if id == MAT_GREEN {
        material_entry(seq![0x3DF5_C28Fu32, 0x3EE6_6666, 0x3E19_999A], 0x3F66_6666, dark, N_1)
    } else if id == MAT_LIGHT {
        material_entry(
            seq![N_1, N_1, N_1],
            0x3DCC_CCCD,
            seq![0x4100_0000u32, 0x40E0_0000, 0x40A0_0000],
            N_1,
        )
    } else if id == MAT_GOLD {
        material_entry(seq![0x3F54_7AE1u32, 0x3F30_A3D7, 0x3E61_47AE], 0x3E19_999A, dark, N_1)
    } else if id == MAT_ROUGH_GRAY {
        material_entry(seq![0x3ECC_CCCDu32, 0x3ECC_CCCD, 0x3ECC_CCCD], 0x3F73_3333, dark, N_1)
    } else {
        black()
    }
}

/// Build the material table for the Cornell box test scene.
pub fn cornell_box_materials() -> (t: Vec<MaterialEntry>)
    ensures
        t@ == Seq::new(MAX_MATERIALS as nat, |i: int| cornell_entry(i)),
{
    let dark: [u32; 3] = [0, 0, 0];
    let gray: [u32; 3] = [N_0_5, N_0_5, N_0_5];
    // White: 0.73.
    let white: [u32; 3] = [0x3F3A_E148, 0x3F3A_E148, 0x3F3A_E148];
    // Red: 0.65, 0.05, 0.05.
    let red: [u32; 3] = [0x3F26_6666, 0x3D4C_CCCD, 0x3D4C_CCCD];
    // Green: 0.12, 0.45, 0.15.
    let green: [u32; 3] = [0x3DF5_C28F, 0x3EE6_6666, 0x3E19_999A];
    let bright: [u32; 3] = [N_1, N_1, N_1];
    // Ceiling light: emits 8.0, 7.0, 5.0.
    let glow: [u32; 3] = [0x4100_0000, 0x40E0_0000, 0x40A0_0000];
    // Gold: 0.83, 0.69, 0.22.
    let gold: [u32; 3] = [0x3F54_7AE1, 0x3F30_A3D7, 0x3E61_47AE];
    // Rough gray: 0.4.
    let rough: [u32; 3] = [0x3ECC_CCCD, 0x3ECC_CCCD, 0x3ECC_CCCD];
    let mut t: Vec<MaterialEntry> = empty_table(MAX_MATERIALS);
    t[MATERIAL_DEFAULT as usize] = MaterialEntry::new(gray, N_0_5, dark, N_1);
    t[MAT_WHITE as usize] = MaterialEntry::new(white, 0x3F66_6666, dark, N_1);
    t[MAT_RED as usize] = MaterialEntry::new(red, 0x3F66_6666, dark, N_1);
    t[MAT_GREEN as usize] = MaterialEntry::new(green, 0x3F66_6666, dark, N_1);
    t[MAT_LIGHT as usize] = MaterialEntry::new(bright, 0x3DCC_CCCD, glow, N_1);
    t[MAT_GOLD as usize] = MaterialEntry::new(gold, 0x3E19_999A, dark, N_1);
    t[MAT_ROUGH_GRAY as usize] = MaterialEntry::new(rough, 0x3F73_3333, dark, N_1);
    proof {
        let want = Seq::new(MAX_MATERIALS as nat, |i: int| cornell_entry(i));
        assert(dark@ =~= seq![0u32, 0u32, 0u32]);
        assert(gray@ =~= seq![N_0_5, N_0_5, N_0_5]);
        assert(white@ =~= seq![0x3F3A_E148u32, 0x3F3A_E148, 0x3F3A_E148]);
        assert(red@ =~= seq![0x3F26_6666u32, 0x3D4C_CCCD, 0x3D4C_CCCD]);
        assert(green@ =~= seq![0x3DF5_C28Fu32, 0x3EE6_6666, 0x3E19_999A]);
        assert(bright@ =~= seq![N_1, N_1, N_1]);
        assert(glow@ =~= seq![0x4100_0000u32, 0x40E0_0000, 0x40A0_0000]);
        assert(gold@ =~= seq![0x3F54_7AE1u32, 0x3F30_A3D7, 0x3E61_47AE]);
        assert(rough@ =~= seq![0x3ECC_CCCDu32, 0x3ECC_CCCD, 0x3ECC_CCCD]);
        assert(t@ =~= want);
    }
    t
}

/// The value of a half pattern in the normal range, in units of the smallest one.
pub open spec fn half_units(h: int) -> int {
    (1024 + h % 1024) * vstd::arithmetic::power2::pow2((h / 1024 - 1) as nat)
}

/// A half pattern stands for a number given in thousandths: it is the largest that is
/// not above it.
#[verifier::opaque]
pub open spec fn stands_for(h: int, thousandths: int) -> bool {
    if thousandths == 0 {
        h == 0
    } else {
        &&& 1024 <= h < 31 * 1024
        &&& half_units(h) * 1000 <= thousandths * 0x100_0000 < half_units(h + 1) * 1000
    }
}

/// An opaque entry has an albedo, a roughness and an emission, in thousandths.
#[verifier::opaque]
pub open spec fn looks_like(
    m: MaterialEntry,
    r: int,
    g: int,
    b: int,
    roughness: int,
    er: int,
    eg: int,
    eb: int,
) -> bool {
    &&& stands_for(m.albedo_rg as int % 0x1_0000, r)
    &&& stands_for(m.albedo_rg as int / 0x1_0000, g)
    &&& stands_for(m.albedo_b_roughness as int % 0x1_0000, b)
    &&& stands_for(m.albedo_b_roughness as int / 0x1_0000, roughness)
    &&& stands_for(m.emissive_rg as int % 0x1_0000, er)
    &&& stands_for(m.emissive_rg as int / 0x1_0000, eg)
    &&& stands_for(m.emissive_b_opacity as int % 0x1_0000, eb)
    &&& stands_for(m.emissive_b_opacity as int / 0x1_0000, 1000)
}

proof fn lemma_looks(
    r: (u32, int),
    g: (u32, int),
    b: (u32, int),
    roughness: (u32, int),
    er: (u32, int),
    eg: (u32, int),
    eb: (u32, int),
)
    requires
        stands_for(half::half_of(r.0), r.1),
        stands_for(half::half_of(g.0), g.1),
        stands_for(half::half_of(b.0), b.1),
        stands_for(half::half_of(roughness.0), roughness.1),
        stands_for(half::half_of(er.0), er.1),
        stands_for(half::half_of(eg.0), eg.1),
        stands_for(half::half_of(eb.0), eb.1),
        stands_for(half::half_of(N_1), 1000),
    ensures
        looks_like(
            material_entry(seq![r.0, g.0, b.0], roughness.0, seq![er.0, eg.0, eb.0], N_1),
            r.1,
            g.1,
            b.1,
            roughness.1,
            er.1,
            eg.1,
            eb.1,
        ),
{
    reveal(looks_like);
    half::pairs_hold_both_halves(r.0, g.0);
    half::pairs_hold_both_halves(b.0, roughness.0);
    half::pairs_hold_both_halves(er.0, eg.0);
    half::pairs_hold_both_halves(eb.0, N_1);
}

/// A number's half pattern, by its parts.
proof fn lemma_stands(b: u32, e: int, f: int, thousandths: int)
    requires
        b == (e + 112) * 0x80_0000 + f * 0x2000 + b % 0x2000,
        1 <= e <= 30,
        0 <= f < 1023,
        thousandths > 0,
        (1024 + f) * vstd::arithmetic::power2::pow2((e - 1) as nat) * 1000 <= thousandths * 0x100_0000,
        thousandths * 0x100_0000 < (1025 + f) * vstd::arithmetic::power2::pow2((e - 1) as nat) * 1000,
    ensures
        stands_for(half::half_of(b), thousandths),
{
    reveal(stands_for);
    assert(half::exponent_field(b) == e + 112);
    assert(half::fraction_of(b) / 0x2000 == f);
    let h = half::half_of(b);
    assert(h == e * 0x400 + f);
    assert(h / 1024 == e && h % 1024 == f);
    assert((h + 1) / 1024 == e && (h + 1) % 1024 == f + 1);
}

/// The numbers of the tables, as half patterns.
proof fn lemma_table_numbers()
    ensures
        stands_for(half::half_of(0), 0),
        stands_for(half::half_of(0x3D4CCCCD), 50),
        stands_for(half::half_of(0x3DCCCCCD), 100),
        stands_for(half::half_of(0x3DF5C28F), 120),
        stands_for(half::half_of(0x3E19999A), 150),
        stands_for(half::half_of(0x3E4CCCCD), 200),
        stands_for(half::half_of(0x3E6147AE), 220),
        stands_for(half::half_of(0x3E99999A), 300),
        stands_for(half::half_of(0x3EB33333), 350),
        stands_for(half::half_of(0x3ECCCCCD), 400),
        stands_for(half::half_of(0x3EDC28F6), 430),
        stands_for(half::half_of(0x3EE66666), 450),
        stands_for(half::half_of(0x3F000000), 500),
        stands_for(half::half_of(0x3F266666), 650),
        stands_for(half::half_of(0x3F30A3D7), 690),
        stands_for(half::half_of(0x3F333333), 700),
        stands_for(half::half_of(0x3F3AE148), 730),
        stands_for(half::half_of(0x3F4CCCCD), 800),
        stands_for(half::half_of(0x3F547AE1), 830),
        stands_for(half::half_of(0x3F666666), 900),
        stands_for(half::half_of(0x3F733333), 950),
        stands_for(half::half_of(0x3F800000), 1000),
        stands_for(half::half_of(0x3FE66666), 1800),
        stands_for(half::half_of(0x40000000), 2000),
        stands_for(half::half_of(0x40A00000), 5000),
        stands_for(half::half_of(0x40E00000), 7000),
        stands_for(half::half_of(0x41000000), 8000),
{
    vstd::arithmetic::power2::lemma2_to64();
    assert(stands_for(half::half_of(0), 0)) by {
        reveal(stands_for);
    }
    lemma_stands(0x3D4CCCCD, 10, 614, 50);
    lemma_stands(0x3DCCCCCD, 11, 614, 100);
    lemma_stands(0x3DF5C28F, 11, 942, 120);
    lemma_stands(0x3E19999A, 12, 204, 150);
    lemma_stands(0x3E4CCCCD, 12, 614, 200);
    lemma_stands(0x3E6147AE, 12, 778, 220);
    lemma_stands(0x3E99999A, 13, 204, 300);
    lemma_stands(0x3EB33333, 13, 409, 350);
    lemma_stands(0x3ECCCCCD, 13, 614, 400);
    lemma_stands(0x3EDC28F6, 13, 737, 430);
    lemma_stands(0x3EE66666, 13, 819, 450);
    lemma_stands(0x3F000000, 14, 0, 500);
    lemma_stands(0x3F266666, 14, 307, 650);
    lemma_stands(0x3F30A3D7, 14, 389, 690);
    lemma_stands(0x3F333333, 14, 409, 700);
    lemma_stands(0x3F3AE148, 14, 471, 730);
    lemma_stands(0x3F4CCCCD, 14, 614, 800);
    lemma_stands(0x3F547AE1, 14, 675, 830);
    lemma_stands(0x3F666666, 14, 819, 900);
    lemma_stands(0x3F733333, 14, 921, 950);
    lemma_stands(0x3F800000, 15, 0, 1000);
    lemma_stands(0x3FE66666, 15, 819, 1800);
    lemma_stands(0x40000000, 16, 0, 2000);
    lemma_stands(0x40A00000, 17, 256, 5000);
    lemma_stands(0x40E00000, 17, 768, 7000);
    lemma_stands(0x41000000, 18, 0, 8000);
}

/// The test scene's table: medium gray, rough stone gray, blue, and a yellow that
/// glows; all other entries are black and emit nothing.
pub proof fn test_scene_table_looks_right(id: int)
    ensures
        looks_like(test_scene_entry(MATERIAL_DEFAULT as int), 500, 500, 500, 500, 0, 0, 0),
        looks_like(test_scene_entry(MAT_STONE as int), 450, 430, 400, 800, 0, 0, 0),
        looks_like(test_scene_entry(MAT_BLUE as int), 200, 350, 700, 400, 0, 0, 0),
        looks_like(test_scene_entry(MAT_EMISSIVE as int), 1000, 900, 300, 200, 2000, 1800, 500),
        id != MATERIAL_DEFAULT && id != MAT_STONE && id != MAT_BLUE && id != MAT_EMISSIVE ==> {
            let m = test_scene_entry(id);
            m.albedo_rg == 0 && m.albedo_b_roughness == 0 && m.emissive_rg == 0
                && m.emissive_b_opacity == 0
        },
{
    lemma_table_numbers();
    lemma_looks((0x3F000000, 500), (0x3F000000, 500), (0x3F000000, 500), (0x3F000000, 500), (0, 0), (0, 0), (0, 0));
    lemma_looks((0x3EE66666, 450), (0x3EDC28F6, 430), (0x3ECCCCCD, 400), (0x3F4CCCCD, 800), (0, 0), (0, 0), (0, 0));
    lemma_looks((0x3E4CCCCD, 200), (0x3EB33333, 350), (0x3F333333, 700), (0x3ECCCCCD, 400), (0, 0), (0, 0), (0, 0));
    lemma_looks((0x3F800000, 1000), (0x3F666666, 900), (0x3E99999A, 300), (0x3E4CCCCD, 200), (0x40000000, 2000), (0x3FE66666, 1800), (0x3F000000, 500));
}

/// The Cornell box's table: medium gray, white, red, green, a lamp, gold and rough
/// gray; all other entries are black and emit nothing.
pub proof fn cornell_table_looks_right(id: int)
    ensures
        looks_like(cornell_entry(MATERIAL_DEFAULT as int), 500, 500, 500, 500, 0, 0, 0),
        looks_like(cornell_entry(MAT_WHITE as int), 730, 730, 730, 900, 0, 0, 0),
        looks_like(cornell_entry(MAT_RED as int), 650, 50, 50, 900, 0, 0, 0),
        looks_like(cornell_entry(MAT_GREEN as int), 120, 450, 150, 900, 0, 0, 0),
        looks_like(cornell_entry(MAT_LIGHT as int), 1000, 1000, 1000, 100, 8000, 7000, 5000),
        looks_like(cornell_entry(MAT_GOLD as int), 830, 690, 220, 150, 0, 0, 0),
        looks_like(cornell_entry(MAT_ROUGH_GRAY as int), 400, 400, 400, 950, 0, 0, 0),
        id != MATERIAL_DEFAULT && id != MAT_WHITE && id != MAT_RED && id != MAT_GREEN && id != MAT_LIGHT && id != MAT_GOLD && id != MAT_ROUGH_GRAY ==> {
            let m = cornell_entry(id);
            m.albedo_rg == 0 && m.albedo_b_roughness == 0 && m.emissive_rg == 0
                && m.emissive_b_opacity == 0
        },
{
    lemma_table_numbers();
    lemma_looks((0x3F000000, 500), (0x3F000000, 500), (0x3F000000, 500), (0x3F000000, 500), (0, 0), (0, 0), (0, 0));
    lemma_looks((0x3F3AE148, 730), (0x3F3AE148, 730), (0x3F3AE148, 730), (0x3F666666, 900), (0, 0), (0, 0), (0, 0));
    lemma_looks((0x3F266666, 650), (0x3D4CCCCD, 50), (0x3D4CCCCD, 50), (0x3F666666, 900), (0, 0), (0, 0), (0, 0));
    lemma_looks((0x3DF5C28F, 120), (0x3EE66666, 450), (0x3E19999A, 150), (0x3F666666, 900), (0, 0), (0, 0), (0, 0));
    lemma_looks((0x3F800000, 1000), (0x3F800000, 1000), (0x3F800000, 1000), (0x3DCCCCCD, 100), (0x41000000, 8000), (0x40E00000, 7000), (0x40A00000, 5000));
    lemma_looks((0x3F547AE1, 830), (0x3F30A3D7, 690), (0x3E6147AE, 220), (0x3E19999A, 150), (0, 0), (0, 0), (0, 0));
    lemma_looks((0x3ECCCCCD, 400), (0x3ECCCCCD, 400), (0x3ECCCCCD, 400), (0x3F733333, 950), (0, 0), (0, 0), (0, 0));
}

/// An entry made from an albedo, a roughness, an emission and an opacity holds them in
/// this order, two halves a word.
pub proof fn entries_hold_their_parts(
    albedo: Seq<u32>,
    roughness: u32,
    emissive: Seq<u32>,
    opacity: u32,
)
    requires
        albedo.len() == 3 && emissive.len() == 3,
    ensures
        ({
            let m = material_entry(albedo, roughness, emissive, opacity);
            &&& m.albedo_rg as int % 0x1_0000 == half::half_of(albedo[0])
            &&& m.albedo_rg as int / 0x1_0000 == half::half_of(albedo[1])
            &&& m.albedo_b_roughness as int % 0x1_0000 == half::half_of(albedo[2])
            &&& m.albedo_b_roughness as int / 0x1_0000 == half::half_of(roughness)
            &&& m.emissive_rg as int % 0x1_0000 == half::half_of(emissive[0])
            &&& m.emissive_rg as int / 0x1_0000 == half::half_of(emissive[1])
            &&& m.emissive_b_opacity as int % 0x1_0000 == half::half_of(emissive[2])
            &&& m.emissive_b_opacity as int / 0x1_0000 == half::half_of(opacity)
        }),
{
    half::pairs_hold_both_halves(albedo[0], albedo[1]);
    half::pairs_hold_both_halves(albedo[2], roughness);
    half::pairs_hold_both_halves(emissive[0], emissive[1]);
    half::pairs_hold_both_halves(emissive[2], opacity);
}

} // verus!
