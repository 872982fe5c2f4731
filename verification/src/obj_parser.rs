//! Wavefront OBJ parser.
//!
//! Reads vertex positions, face indices (with fan triangulation of polygons)
//! and material group assignments. Normals and texture coordinates are
//! ignored. Positions are kept as the number literals that the file holds.

use vstd::prelude::*;

use crate::text;

verus! {

/// Position literals of one vertex.
#[derive(Debug, Clone)]
pub struct VertexText {
    pub x: Vec<char>,
    pub y: Vec<char>,
    pub z: Vec<char>,
}

impl VertexText {
    pub open spec fn literals(&self) -> Seq<Seq<char>> {
        seq![self.x@, self.y@, self.z@]
    }
}

/// Parsed OBJ mesh data.
#[derive(Debug, Clone)]
pub struct ParsedObj {
    /// Vertex positions, three literals per vertex.
    pub positions: Vec<VertexText>,
    /// Triangle index triples (indices into `positions`).
    pub triangles: Vec<[u32; 3]>,
    /// Material group index per triangle (indices into `material_names`).
    pub triangle_materials: Vec<u32>,
    /// Material group names in order of first appearance.
    /// Index 0 is always "(default)", for faces before any `usemtl`.
    pub material_names: Vec<String>,
}

/// A parsed mesh, by value.
#[verifier::ext_equal]
pub struct ObjMesh {
    pub positions: Seq<Seq<Seq<char>>>,
    pub triangles: Seq<Seq<u32>>,
    pub triangle_materials: Seq<u32>,
    pub material_names: Seq<Seq<char>>,
}

impl View for ParsedObj {
    type V = ObjMesh;

    open spec fn view(&self) -> ObjMesh {
        ObjMesh {
            positions: self.positions@.map_values(|p: VertexText| p.literals()),
            triangles: self.triangles@.map_values(|t: [u32; 3]| t@),
            triangle_materials: self.triangle_materials@,
            material_names: self.material_names@.map_values(|n: String| n@),
        }
    }
}

/// A mesh being read, and the material group of the next face.
#[verifier::ext_equal]
pub struct ObjState {
    pub mesh: ObjMesh,
    pub current: u32,
}

/// The name of the material group of faces before any `usemtl`.
pub open spec fn default_name() -> Seq<char> {
    seq!['(', 'd', 'e', 'f', 'a', 'u', 'l', 't', ')']
}

/// The state before the first line.
pub open spec fn initial_state() -> ObjState {
    ObjState {
        mesh: ObjMesh {
            positions: Seq::empty(),
            triangles: Seq::empty(),
            triangle_materials: Seq::empty(),
            material_names: seq![default_name()],
        },
        current: 0,
    }
}

/// First position from `i` on of a name in a list, or the list's length.
pub open spec fn name_position(names: Seq<Seq<char>>, name: Seq<char>, i: int) -> int
    decreases names.len() - i,
{
    if 0 <= i < names.len() && names[i] != name {
        name_position(names, name, i + 1)
    } else {
        i
    }
}

/// Switch to a material group, which is added when it is new.
pub open spec fn use_material(st: ObjState, name: Seq<char>) -> ObjState {
    let names = st.mesh.material_names;
    let i = name_position(names, name, 0);
    ObjState {
        mesh: ObjMesh {
            material_names: if i < names.len() {
                names
            } else {
                names.push(name)
            },
            ..st.mesh
        },
        current: i as u32,
    }
}

/// Add a vertex if the first three words behind the keyword are numbers.
pub open spec fn add_vertex(st: ObjState, w: Seq<Seq<char>>) -> ObjState {
    if w.len() >= 4 && text::is_float_literal(w[1]) && text::is_float_literal(w[2])
        && text::is_float_literal(w[3]) {
        ObjState {
            mesh: ObjMesh {
                positions: st.mesh.positions.push(seq![w[1], w[2], w[3]]),
                ..st.mesh
            },
            ..st
        }
    } else {
        st
    }
}

/// The digits of a vertex reference: what stands before the first slash,
/// without a plus sign.
pub open spec fn reference_digits(w: Seq<char>) -> Seq<char> {
    let raw = w.take(text::find(w, '/', 0));
    if raw.len() > 0 && raw[0] == '+' {
        raw.skip(1)
    } else {
        raw
    }
}

pub open spec fn all_digits(d: Seq<char>) -> bool {
    forall|i: int| 0 <= i < d.len() ==> text::is_digit(#[trigger] d[i])
}

/// The vertex that a word of a face refers to, counted from zero. None unless
/// the reference is a positive 32-bit integer.
pub open spec fn vertex_index(w: Seq<char>) -> Option<u32> {
    let d = reference_digits(w);
    if d.len() > 0 && all_digits(d) && 1 <= text::decimal(d) <= i32::MAX {
        Some((text::decimal(d) - 1) as u32)
    } else {
        None
    }
}

/// The vertices that the words from `i` on refer to, in order.
pub open spec fn face_vertices(w: Seq<Seq<char>>, i: int) -> Seq<u32>
    decreases w.len() - i,
{
    if 0 <= i < w.len() {
        (match vertex_index(w[i]) {
            Some(v) => seq![v],
            None => Seq::empty(),
        }) + face_vertices(w, i + 1)
    } else {
        Seq::empty()
    }
}

/// A polygon as a fan of triangles around its first vertex.
pub open spec fn fan(v: Seq<u32>) -> Seq<Seq<u32>> {
    if v.len() >= 3 {
        Seq::new((v.len() - 2) as nat, |i: int| seq![v[0], v[i + 1], v[i + 2]])
    } else {
        Seq::empty()
    }
}

/// Add the triangles of a face.
pub open spec fn add_face(st: ObjState, w: Seq<Seq<char>>) -> ObjState {
    if w.len() >= 4 {
        let tris = fan(face_vertices(w, 1));
        ObjState {
            mesh: ObjMesh {
                triangles: st.mesh.triangles + tris,
                triangle_materials: st.mesh.triangle_materials + Seq::new(
                    tris.len(),
                    |i: int| st.current,
                ),
                ..st.mesh
            },
            ..st
        }
    } else {
        st
    }
}

/// The effect of one trimmed line.
pub open spec fn step(st: ObjState, t: Seq<char>) -> ObjState {
    if text::starts_with(t, seq!['u', 's', 'e', 'm', 't', 'l', ' ']) {
        use_material(st, text::trim(t.skip(7)))
    } else if text::starts_with(t, seq!['v', ' ']) {
        add_vertex(st, text::words(t))
    } else if text::starts_with(t, seq!['f', ' ']) {
        add_face(st, text::words(t))
    } else {
        st
    }
}

/// The effect of all lines from position `i` on.
pub open spec fn parse_from(s: Seq<char>, i: int, st: ObjState) -> ObjState
    decreases s.len() + 1 - i,
    when 0 <= i
    via parse_from_decreases
{
    if i > s.len() {
        st
    } else {
        let end = text::find(s, '\n', i);
        parse_from(s, end + 1, step(st, text::trim(s.subrange(i, end))))
    }
}

#[via_fn]
proof fn parse_from_decreases(s: Seq<char>, i: int, st: ObjState) {
    text::lemma_find(s, '\n', i);
}

/// The mesh that an OBJ text describes.
pub open spec fn parsed(s: Seq<char>) -> ObjMesh {
    parse_from(s, 0, initial_state()).mesh
}

proof fn lemma_decimal_prefix(d: Seq<char>, n: int)
    requires
        all_digits(d),
        0 <= n <= d.len(),
    ensures
        text::decimal(d.take(n)) <= text::decimal(d),
    decreases d.len() - n,
{
    if n < d.len() {
        lemma_decimal_prefix(d, n + 1);
        assert(d.take(n + 1).drop_last() =~= d.take(n));
        assert(text::is_digit(d[n]));
    } else {
        assert(d.take(n) =~= d);
    }
}

/// The vertex that a word of a face refers to.
pub fn read_vertex_index(w: &Vec<char>) -> (r: Option<u32>)
    ensures
        r == vertex_index(w@),
{
    let end: usize = text::position_of(w, '/', 0);
    let from: usize = if end > 0 && w[0] == '+' { 1 } else { 0 };
    let ghost d = reference_digits(w@);
    proof {
        assert(d =~= w@.subrange(from as int, end as int));
    }
    if from >= end {
        return None;
    }
    let mut value: u64 = 0;
    let mut i: usize = from;
    while i < end
        invariant
            from <= i <= end <= w@.len(),
            d == w@.subrange(from as int, end as int),
            d == reference_digits(w@),
            value <= i32::MAX,
            value == text::decimal(d.take(i - from)),
            forall|j: int| 0 <= j < i - from ==> text::is_digit(#[trigger] d[j]),
        decreases end - i,
    {
        let c: char = w[i];
        assert(c == d[i - from]);
        if !text::digit(c) {
            assert(!all_digits(d));
            return None;
        }
        value = value * 10 + (c as u32 - '0' as u32) as u64;
        proof {
            assert(d.take(i - from + 1).drop_last() =~= d.take(i - from));
        }
        if value > 0x7FFF_FFFF {
            proof {
                if all_digits(d) {
                    lemma_decimal_prefix(d, i - from + 1);
                }
            }
            return None;
        }
        i = i + 1;
    }
    proof {
        assert(d.take(i - from) =~= d);
    }
    if value == 0 {
        None
    } else {
        Some((value - 1) as u32)
    }
}

/// The vertices of a face line.
fn read_face(w: &Vec<Vec<char>>) -> (v: Vec<u32>)
    ensures
        v@ == face_vertices(text::deep(w@), 1),
{
    let ghost d = text::deep(w@);
    let mut v: Vec<u32> = Vec::new();
    let mut i: usize = 1;
    proof {
        assert(v@ + face_vertices(d, 1) =~= face_vertices(d, 1));
    }
    while i < w.len()
        invariant
            i >= 1,
            d == text::deep(w@),
            v@ + face_vertices(d, i as int) == face_vertices(d, 1),
        decreases w@.len() - i,
    {
        let ghost before = v@;
        let r: Option<u32> = read_vertex_index(&w[i]);
        assert(d[i as int] == w@[i as int]@);
        if let Some(x) = r {
            v.push(x);
            assert(v@ + face_vertices(d, i + 1) =~= before + (seq![x] + face_vertices(d, i + 1)));
        } else {
            assert(Seq::<u32>::empty() + face_vertices(d, i + 1) =~= face_vertices(d, i + 1));
        }
        i = i + 1;
    }
    proof {
        assert(v@ + Seq::<u32>::empty() =~= v@);
    }
    v
}

/// Append the triangles of a polygon.
fn push_fan(obj: &mut ParsedObj, v: &Vec<u32>, current: u32)
    ensures
        ({
            let tris = fan(v@);
            final(obj)@ == (ObjMesh {
                triangles: old(obj)@.triangles + tris,
                triangle_materials: old(obj)@.triangle_materials + Seq::new(
                    tris.len(),
                    |i: int| current,
                ),
                ..old(obj)@
            })
        }),
        final(obj).material_names == old(obj).material_names,
{
    let ghost before = obj@;
    let ghost tris = fan(v@);
    if v.len() >= 3 {
        let mut i: usize = 1;
        while i < v.len() - 1
            invariant
                1 <= i <= v@.len() - 1,
                tris == fan(v@),
                obj.material_names == old(obj).material_names,
                obj.positions == old(obj).positions,
                before == old(obj)@,
                obj@.triangles == before.triangles + tris.take(i - 1),
                obj@.triangle_materials == before.triangle_materials + Seq::new(
                    (i - 1) as nat,
                    |i: int| current,
                ),
            decreases v@.len() - i,
        {
            let ghost listed = obj.triangles@.map_values(|t: [u32; 3]| t@);
            let t: [u32; 3] = [v[0], v[i], v[i + 1]];
            obj.triangles.push(t);
            obj.triangle_materials.push(current);
            proof {
                assert(t@ =~= tris[i - 1]);
                assert(tris.take(i as int) =~= tris.take(i - 1).push(t@));
                assert(obj@.triangles =~= listed.push(t@));
                assert(obj@.triangles =~= before.triangles + tris.take(i as int));
                assert(obj@.triangle_materials =~= before.triangle_materials + Seq::new(
                    i as nat,
                    |i: int| current,
                ));
            }
            i = i + 1;
        }
        proof {
            assert(tris.take(i - 1) =~= tris);
        }
    } else {
        proof {
            assert(before.triangles + tris =~= before.triangles);
            assert(before.triangle_materials + Seq::new(tris.len(), |i: int| current)
                =~= before.triangle_materials);
        }
    }
}

/// The group names as character lists beside their strings.
spec fn names_match(obj: ParsedObj, names: Seq<Vec<char>>) -> bool {
    obj@.material_names == text::deep(names)
}

/// Position of a name, or the number of names.
fn find_name(names: &Vec<Vec<char>>, name: &Vec<char>) -> (r: usize)
    ensures
        r == name_position(text::deep(names@), name@, 0),
        r <= names@.len(),
{
    let ghost d = text::deep(names@);
    let mut i: usize = 0;
    while i < names.len()
        invariant
            i <= names@.len(),
            d == text::deep(names@),
            name_position(d, name@, 0) == name_position(d, name@, i as int),
        decreases names@.len() - i,
    {
        assert(d[i as int] == names@[i as int]@);
        if text::same_text(&names[i], name) {
            return i;
        }
        i = i + 1;
    }
    i
}

/// Take up one trimmed line, which stands at `offset` of the input. Returns
/// the material group of the next face.
fn read_line(
    obj: &mut ParsedObj,
    names: &mut Vec<Vec<char>>,
    current: u32,
    t: &Vec<char>,
    input: &str,
    offset: usize,
) -> (next: u32)
    requires
        names_match(*old(obj), old(names)@),
        offset + t@.len() <= input@.len(),
        input@.len() <= usize::MAX,
        input@.subrange(offset as int, offset + t@.len()) == t@,
    ensures
        names_match(*final(obj), final(names)@),
        (ObjState { mesh: final(obj)@, current: next }) == step(
            ObjState { mesh: old(obj)@, current },
            t@,
        ),
{
    let usemtl: [char; 7] = ['u', 's', 'e', 'm', 't', 'l', ' '];
    let v: [char; 2] = ['v', ' '];
    let f: [char; 2] = ['f', ' '];
    proof {
        assert(usemtl@ =~= seq!['u', 's', 'e', 'm', 't', 'l', ' ']);
        assert(v@ =~= seq!['v', ' ']);
        assert(f@ =~= seq!['f', ' ']);
    }
    let ghost st = ObjState { mesh: obj@, current };
    if text::has_prefix(t, usemtl.as_slice()) {
        let rest: Vec<char> = text::part(t, 7, t.len());
        assert(rest@ =~= t@.skip(7));
        let (a, b) = text::trim_bounds(&rest);
        let name: Vec<char> = text::part(&rest, a, b);
        let i: usize = find_name(names, &name);
        if i >= names.len() {
            let from: usize = offset + 7 + a;
            let to: usize = offset + 7 + b;
            let s: String = input.substring_char(from, to).to_owned();
            let ghost strings = obj.material_names@;
            let ghost lists = names@;
            proof {
                assert(s@ =~= name@) by {
                    assert forall|k: int| 0 <= k < b - a implies s@[k] == name@[k] by {
                        assert(input@.subrange(offset as int, offset + t@.len())[7 + a + k]
                            == t@[7 + a + k]);
                    }
                }
            }
            obj.material_names.push(s);
            names.push(name);
            proof {
                assert(obj@.material_names =~= strings.map_values(|n: String| n@).push(s@));
                assert(text::deep(names@) =~= text::deep(lists).push(name@));
                assert((ObjState { mesh: obj@, current: i as u32 }) =~= step(st, t@));
            }
        }
        i as u32
    } else if text::has_prefix(t, v.as_slice()) {
        let w: Vec<Vec<char>> = text::split_words(t);
        let ghost d = text::deep(w@);
        if w.len() >= 4 {
            assert(d[1] == w@[1]@ && d[2] == w@[2]@ && d[3] == w@[3]@);
            if text::float_literal(&w[1]) && text::float_literal(&w[2]) && text::float_literal(
                &w[3],
            ) {
                let ghost listed = obj.positions@;
                let x: Vec<char> = text::part(&w[1], 0, w[1].len());
                let y: Vec<char> = text::part(&w[2], 0, w[2].len());
                let z: Vec<char> = text::part(&w[3], 0, w[3].len());
                let p: VertexText = VertexText { x, y, z };
                obj.positions.push(p);
                proof {
                    assert(x@ =~= d[1] && y@ =~= d[2] && z@ =~= d[3]);
                    assert(obj@.positions =~= listed.map_values(
                        |p: VertexText| p.literals(),
                    ).push(seq![d[1], d[2], d[3]]));
                    assert((ObjState { mesh: obj@, current }) =~= step(st, t@));
                }
            }
        }
        current
    } else if text::has_prefix(t, f.as_slice()) {
        let w: Vec<Vec<char>> = text::split_words(t);
        if w.len() >= 4 {
            let face: Vec<u32> = read_face(&w);
            push_fan(obj, &face, current);
            assert((ObjState { mesh: obj@, current }) =~= step(st, t@));
        }
        current
    } else {
        current
    }
}

/// Parse an OBJ string into mesh data.
///
/// Handles `v` (vertex positions), `f` (faces with fan triangulation), and
/// `usemtl` (material group switching). Face indices may use the `v/vt/vn`
/// format; only the vertex index is extracted. Negative indices are not
/// supported. Degenerate faces (fewer than 3 vertices) are skipped.
pub fn parse_obj(input: &str) -> (obj: ParsedObj)
    ensures
        obj@ == parsed(input@),
{
    let chars: Vec<char> = text::chars_of(input);
    let n: usize = chars.len();
    let default_text: [char; 9] = ['(', 'd', 'e', 'f', 'a', 'u', 'l', 't', ')'];
    let mut names: Vec<Vec<char>> = Vec::new();
    let mut first: Vec<char> = Vec::new();
    first.extend_from_slice(default_text.as_slice());
    names.push(first);
    let mut material_names: Vec<String> = Vec::new();
    proof {
        reveal_strlit("(default)");
    }
    material_names.push("(default)".to_owned());
    let mut obj: ParsedObj = ParsedObj {
        positions: Vec::new(),
        triangles: Vec::new(),
        triangle_materials: Vec::new(),
        material_names,
    };
    let mut current: u32 = 0;
    let mut i: usize = 0;
    proof {
        assert(first@ =~= default_name());
        assert("(default)"@ =~= default_name());
        assert(text::deep(names@) =~= seq![default_name()]);
        assert(obj@ =~= initial_state().mesh);
    }
    loop
        invariant
            i <= n,
            n == chars@.len(),
            chars@ == input@,
            names_match(obj, names@),
            parse_from(input@, 0, initial_state()) == parse_from(
                input@,
                i as int,
                ObjState { mesh: obj@, current },
            ),
        decreases n - i,
    {
        let end: usize = text::position_of(&chars, '\n', i);
        let line: Vec<char> = text::part(&chars, i, end);
        let (a, b) = text::trim_bounds(&line);
        let t: Vec<char> = text::part(&line, a, b);
        proof {
            assert(input@.subrange(i + a, i + a + t@.len()) =~= t@);
        }
        current = read_line(&mut obj, &mut names, current, &t, input, i + a);
        if end >= n {
            proof {
                let st = ObjState { mesh: obj@, current };
                assert(parse_from(input@, end + 1, st) == st);
            }
            return obj;
        }
        i = end + 1;
    }
}

/// What every state of reading keeps: one material per triangle, each naming a
/// known group; the default group first, and no group twice.
pub open spec fn state_inv(st: ObjState) -> bool {
    &&& st.mesh.triangle_materials.len() == st.mesh.triangles.len()
    &&& forall|i: int|
        0 <= i < st.mesh.triangle_materials.len() ==> (#[trigger] st.mesh.triangle_materials[i])
            < st.mesh.material_names.len()
    &&& forall|i: int|
        0 <= i < st.mesh.triangles.len() ==> (#[trigger] st.mesh.triangles[i]).len() == 3
    &&& st.current < st.mesh.material_names.len()
    &&& st.mesh.material_names.len() > 0
    &&& st.mesh.material_names[0] == default_name()
    &&& st.mesh.material_names.no_duplicates()
}

pub proof fn lemma_name_position(names: Seq<Seq<char>>, name: Seq<char>, i: int)
    requires
        0 <= i <= names.len(),
    ensures
        i <= name_position(names, name, i) <= names.len(),
        name_position(names, name, i) < names.len() ==> names[name_position(names, name, i)]
            == name,
        forall|j: int| i <= j < name_position(names, name, i) ==> (#[trigger] names[j]) != name,
    decreases names.len() - i,
{
    if i < names.len() && names[i] != name {
        lemma_name_position(names, name, i + 1);
    }
}

proof fn lemma_step_keeps(st: ObjState, t: Seq<char>)
    requires
        state_inv(st),
        st.mesh.material_names.len() < u32::MAX,
    ensures
        state_inv(step(st, t)),
        step(st, t).mesh.material_names.len() <= st.mesh.material_names.len() + 1,
{
    if text::starts_with(t, seq!['u', 's', 'e', 'm', 't', 'l', ' ']) {
        lemma_name_position(st.mesh.material_names, text::trim(t.skip(7)), 0);
    }
}

proof fn lemma_parse_keeps(s: Seq<char>, i: int, st: ObjState)
    requires
        0 <= i,
        state_inv(st),
        st.mesh.material_names.len() + (s.len() + 1 - i) < u32::MAX,
    ensures
        state_inv(parse_from(s, i, st)),
    decreases s.len() + 1 - i,
{
    if i <= s.len() {
        let end = text::find(s, '\n', i);
        text::lemma_find(s, '\n', i);
        let t = text::trim(s.subrange(i, end));
        lemma_step_keeps(st, t);
        if end + 1 <= s.len() {
            lemma_parse_keeps(s, end + 1, step(st, t));
        }
    }
}

/// Every parsed mesh has one material group per triangle, all of them named,
/// with the default group first and no group named twice.
pub proof fn parsed_mesh_is_consistent(s: Seq<char>)
    requires
        s.len() + 2 < u32::MAX,
    ensures
        state_inv(parse_from(s, 0, initial_state())),
{
    lemma_parse_keeps(s, 0, initial_state());
}

/// A polygon of n vertices gives n - 2 triangles, which share its first vertex
/// and follow its boundary.
pub proof fn fan_shape(v: Seq<u32>, i: int)
    requires
        v.len() >= 3,
        0 <= i < v.len() - 2,
    ensures
        fan(v).len() == v.len() - 2,
        fan(v)[i] == seq![v[0], v[i + 1], v[i + 2]],
{
}

} // verus!
