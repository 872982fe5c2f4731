//! What the lines of an OBJ text do, line by line.

use vstd::prelude::*;

use crate::obj_parser;
use crate::obj_parser::{ObjState, ParsedObj};
use crate::text;

verus! {

/// The state after reading a whole text.
pub open spec fn state_of(s: Seq<char>) -> ObjState {
    obj_parser::parse_from(s, 0, obj_parser::initial_state())
}

/// A text with one more line.
pub open spec fn with_line(s: Seq<char>, line: Seq<char>) -> Seq<char> {
    s + seq!['\n'] + line
}

/// Whether a text is a single line.
pub open spec fn is_line(t: Seq<char>) -> bool {
    forall|i: int| 0 <= i < t.len() ==> (#[trigger] t[i]) != '\n'
}

/// Two states that differ in nothing but their positions.
pub open spec fn same_but_positions(a: ObjState, b: ObjState) -> bool {
    &&& a.mesh.triangles == b.mesh.triangles
    &&& a.mesh.triangle_materials == b.mesh.triangle_materials
    &&& a.mesh.material_names == b.mesh.material_names
    &&& a.current == b.current
}

/// Two states that differ in nothing but their triangles.
pub open spec fn same_but_triangles(a: ObjState, b: ObjState) -> bool {
    &&& a.mesh.positions == b.mesh.positions
    &&& a.mesh.material_names == b.mesh.material_names
    &&& a.current == b.current
}

proof fn lemma_find_in_prefix(s: Seq<char>, more: Seq<char>, i: int)
    requires
        0 <= i <= s.len(),
    ensures
        text::find(s, '\n', i) < s.len() ==> text::find(s + more, '\n', i) == text::find(
            s,
            '\n',
            i,
        ),
        text::find(s, '\n', i) >= s.len() ==> text::find(s + more, '\n', i) == text::find(
            s + more,
            '\n',
            s.len() as int,
        ),
    decreases s.len() - i,
{
    if i < s.len() {
        assert((s + more)[i] == s[i]);
        if s[i] != '\n' {
            lemma_find_in_prefix(s, more, i + 1);
        }
    }
}

proof fn lemma_find_nothing(t: Seq<char>, i: int)
    requires
        0 <= i <= t.len(),
        forall|j: int| i <= j < t.len() ==> (#[trigger] t[j]) != '\n',
    ensures
        text::find(t, '\n', i) == t.len(),
    decreases t.len() - i,
{
    if i < t.len() {
        assert(t[i] != '\n');
        lemma_find_nothing(t, i + 1);
    }
}

proof fn lemma_line_comes_last(s: Seq<char>, line: Seq<char>, i: int, st: ObjState)
    requires
        0 <= i <= s.len(),
        is_line(line),
    ensures
        obj_parser::parse_from(with_line(s, line), i, st) == obj_parser::step(
            obj_parser::parse_from(s, i, st),
            text::trim(line),
        ),
    decreases s.len() - i,
{
    let t = with_line(s, line);
    let more = seq!['\n'] + line;
    assert(t =~= s + more);
    let end = text::find(s, '\n', i);
    text::lemma_find(s, '\n', i);
    lemma_find_in_prefix(s, more, i);
    let n = s.len() as int;
    if end < n {
        assert(t.subrange(i, end) =~= s.subrange(i, end));
        lemma_line_comes_last(
            s,
            line,
            end + 1,
            obj_parser::step(st, text::trim(s.subrange(i, end))),
        );
    } else {
        assert(t[n] == '\n');
        assert(text::find(t, '\n', n) == n);
        assert(t.subrange(i, n) =~= s.subrange(i, n));
        let mid = obj_parser::step(st, text::trim(s.subrange(i, n)));
        assert(obj_parser::parse_from(s, n + 1, mid) == mid);
        assert forall|j: int| n + 1 <= j < t.len() implies (#[trigger] t[j]) != '\n' by {
            assert(t[j] == line[j - n - 1]);
        }
        lemma_find_nothing(t, n + 1);
        assert(t.subrange(n + 1, t.len() as int) =~= line);
        let done = obj_parser::step(mid, text::trim(line));
        assert(obj_parser::parse_from(t, (t.len() + 1) as int, done) == done);
        assert(obj_parser::parse_from(t, n + 1, mid) == done);
        assert(obj_parser::parse_from(t, i, st) == obj_parser::parse_from(t, n + 1, mid));
    }
}

/// Spaces round a line change nothing, carriage returns among them.
pub proof fn outer_spaces_do_not_matter(
    s: Seq<char>,
    left: Seq<char>,
    t: Seq<char>,
    right: Seq<char>,
)
    requires
        is_line(left) && is_line(t) && is_line(right),
        forall|i: int| 0 <= i < left.len() ==> text::is_space(#[trigger] left[i]),
        forall|i: int| 0 <= i < right.len() ==> text::is_space(#[trigger] right[i]),
        t.len() > 0 ==> !text::is_space(t[0]) && !text::is_space(t.last()),
    ensures
        state_of(with_line(s, left + t + right)) == state_of(with_line(s, t)),
{
    let none = Seq::<char>::empty();
    let line = left + t + right;
    assert(is_line(line)) by {
        assert forall|i: int| 0 <= i < line.len() implies (#[trigger] line[i]) != '\n' by {
            if i < left.len() {
                assert(line[i] == left[i]);
            } else if i < left.len() + t.len() {
                assert(line[i] == t[i - left.len()]);
            } else {
                assert(line[i] == right[i - left.len() - t.len()]);
            }
        }
    }
    text::trim_takes_off_outer_spaces(left, t, right);
    text::trim_takes_off_outer_spaces(none, t, none);
    assert(none + t + none =~= t);
    lemma_line_comes_last(s, line, 0, obj_parser::initial_state());
    lemma_line_comes_last(s, t, 0, obj_parser::initial_state());
}

/// Words contain no line feed.
proof fn lemma_spaced_is_line(ws: Seq<Seq<char>>)
    requires
        forall|k: int| 0 <= k < ws.len() ==> text::is_word(#[trigger] ws[k]),
    ensures
        is_line(text::spaced(ws)),
        ws.len() > 0 ==> text::spaced(ws).len() >= 2 && text::spaced(ws)[0] == ' '
            && !text::is_space(text::spaced(ws).last()),
    decreases ws.len(),
{
    if ws.len() > 0 {
        let w = ws[0];
        let rest = ws.skip(1);
        assert(text::is_word(w));
        assert forall|k: int| 0 <= k < rest.len() implies text::is_word(#[trigger] rest[k]) by {
            assert(rest[k] == ws[k + 1]);
        }
        lemma_spaced_is_line(rest);
        let t = text::spaced(ws);
        assert(t =~= seq![' '] + w + text::spaced(rest));
        assert forall|i: int| 0 <= i < t.len() implies (#[trigger] t[i]) != '\n' by {
            if 1 <= i <= w.len() {
                assert(t[i] == w[i - 1]);
                assert(!text::is_space(w[i - 1]));
            } else if i > w.len() {
                assert(t[i] == text::spaced(rest)[i - 1 - w.len()]);
            }
        }
        if rest.len() == 0 {
            assert(t.last() == w.last());
            assert(!text::is_space(w[w.len() - 1]));
        } else {
            assert(t.last() == text::spaced(rest).last());
        }
    }
}

/// The effect of a line of words that starts with a one-letter keyword.
proof fn lemma_keyword_line(s: Seq<char>, key: char, ws: Seq<Seq<char>>)
    requires
        key == 'v' || key == 'f',
        ws.len() > 0,
        forall|k: int| 0 <= k < ws.len() ==> text::is_word(#[trigger] ws[k]),
    ensures
        ({
            let line = seq![key] + text::spaced(ws);
            &&& text::words(line) == seq![seq![key]] + ws
            &&& state_of(with_line(s, line)) == (if key == 'v' {
                obj_parser::add_vertex(state_of(s), seq![seq![key]] + ws)
            } else {
                obj_parser::add_face(state_of(s), seq![seq![key]] + ws)
            })
        }),
{
    let tail = text::spaced(ws);
    let line = seq![key] + tail;
    let none = Seq::<char>::empty();
    lemma_spaced_is_line(ws);
    text::words_of_a_line(seq![key], ws);
    assert(line[0] == key && line[1] == ' ' && line.last() == tail.last());
    assert(is_line(line)) by {
        assert forall|i: int| 0 <= i < line.len() implies (#[trigger] line[i]) != '\n' by {
            if i > 0 {
                assert(line[i] == tail[i - 1]);
            }
        }
    }
    text::trim_takes_off_outer_spaces(none, line, none);
    assert(none + line + none =~= line);
    lemma_line_comes_last(s, line, 0, obj_parser::initial_state());
    let usemtl = seq!['u', 's', 'e', 'm', 't', 'l', ' '];
    assert(!text::starts_with(line, usemtl)) by {
        if line.len() >= 7 {
            assert(line.take(7)[0] == line[0]);
        }
    }
    assert(line.take(2) =~= seq![key, ' ']);
    if key == 'f' {
        assert(!text::starts_with(line, seq!['v', ' '])) by {
            assert(line.take(2)[0] == 'f');
        }
    }
}

/// A line `v a b c` of three numbers adds the position with these coordinates, in
/// this order, and changes nothing else. More words behind them are passed over.
pub proof fn vertex_line_adds_a_position(
    s: Seq<char>,
    a: Seq<char>,
    b: Seq<char>,
    c: Seq<char>,
    more: Seq<Seq<char>>,
)
    requires
        text::is_float_literal(a) && text::is_float_literal(b) && text::is_float_literal(c),
        forall|k: int| 0 <= k < more.len() ==> text::is_word(#[trigger] more[k]),
    ensures
        ({
            let after = state_of(with_line(s, seq!['v'] + text::spaced(seq![a, b, c] + more)));
            &&& after.mesh.positions.len() == state_of(s).mesh.positions.len() + 1
            &&& after.mesh.positions.drop_last() == state_of(s).mesh.positions
            &&& after.mesh.positions.last().len() == 3
            &&& after.mesh.positions.last()[0] == a
            &&& after.mesh.positions.last()[1] == b
            &&& after.mesh.positions.last()[2] == c
            &&& same_but_positions(after, state_of(s))
        }),
{
    let ws = seq![a, b, c] + more;
    text::literals_are_words(a);
    text::literals_are_words(b);
    text::literals_are_words(c);
    assert forall|k: int| 0 <= k < ws.len() implies text::is_word(#[trigger] ws[k]) by {
        if k >= 3 {
            assert(ws[k] == more[k - 3]);
        }
    }
    lemma_keyword_line(s, 'v', ws);
    let w = seq![seq!['v']] + ws;
    assert(w[1] == a && w[2] == b && w[3] == c);
    let before = state_of(s).mesh.positions;
    let after = state_of(with_line(s, seq!['v'] + text::spaced(ws)));
    assert(after.mesh.positions.drop_last() =~= before);
}

/// A line `v` with fewer than three words, or with one that is no number among the
/// first three, changes nothing.
pub proof fn bad_vertex_lines_change_nothing(s: Seq<char>, ws: Seq<Seq<char>>)
    requires
        ws.len() > 0,
        forall|k: int| 0 <= k < ws.len() ==> text::is_word(#[trigger] ws[k]),
        ws.len() < 3 || !text::is_float_literal(ws[0]) || !text::is_float_literal(ws[1])
            || !text::is_float_literal(ws[2]),
    ensures
        state_of(with_line(s, seq!['v'] + text::spaced(ws))) == state_of(s),
{
    lemma_keyword_line(s, 'v', ws);
    let w = seq![seq!['v']] + ws;
    assert(forall|k: int| 0 <= k < ws.len() ==> w[k + 1] == ws[k]);
}

proof fn lemma_face_vertices(w: Seq<Seq<char>>, i: int, v: Seq<u32>)
    requires
        0 <= i <= w.len(),
        v.len() == w.len() - i,
        forall|k: int|
            0 <= k < v.len() ==> obj_parser::vertex_index(w[i + k]) == Some(#[trigger] v[k]),
    ensures
        obj_parser::face_vertices(w, i) == v,
    decreases w.len() - i,
{
    if i < w.len() {
        let rest = v.skip(1);
        assert forall|k: int| 0 <= k < rest.len() implies obj_parser::vertex_index(w[i + 1 + k])
            == Some(#[trigger] rest[k]) by {
            assert(rest[k] == v[k + 1]);
            assert(obj_parser::vertex_index(w[i + (k + 1)]) == Some(v[k + 1]));
        }
        lemma_face_vertices(w, i + 1, rest);
        assert(obj_parser::vertex_index(w[i + 0]) == Some(v[0]));
        assert(seq![v[0]] + rest =~= v);
    } else {
        assert(obj_parser::face_vertices(w, i) =~= v);
    }
}

/// A line `f` of n references, n at least three, adds n - 2 triangles: each has the
/// polygon's first vertex and two that follow each other round it, and the current
/// material group. It changes nothing else.
pub proof fn face_line_adds_a_fan(s: Seq<char>, ws: Seq<Seq<char>>, v: Seq<u32>)
    requires
        ws.len() >= 3,
        v.len() == ws.len(),
        forall|k: int| 0 <= k < ws.len() ==> text::is_word(#[trigger] ws[k]),
        forall|k: int| 0 <= k < ws.len() ==> obj_parser::vertex_index(#[trigger] ws[k]) == Some(v[k]),
    ensures
        ({
            let before = state_of(s);
            let after = state_of(with_line(s, seq!['f'] + text::spaced(ws)));
            let old = before.mesh.triangles;
            let new = after.mesh.triangles;
            &&& new.len() == old.len() + v.len() - 2
            &&& after.mesh.triangle_materials.len() == before.mesh.triangle_materials.len()
                + v.len() - 2
            &&& forall|i: int| 0 <= i < old.len() ==> (#[trigger] new[i]) == old[i]
            &&& forall|i: int|
                0 <= i < before.mesh.triangle_materials.len()
                    ==> (#[trigger] after.mesh.triangle_materials[i])
                    == before.mesh.triangle_materials[i]
            &&& forall|i: int|
                0 <= i < v.len() - 2 ==> (#[trigger] new[old.len() + i]).len() == 3 && new[old.len()
                    + i][0] == v[0] && new[old.len() + i][1] == v[i + 1] && new[old.len() + i][2]
                    == v[i + 2]
            &&& forall|i: int|
                0 <= i < v.len() - 2
                    ==> (#[trigger] after.mesh.triangle_materials[before.mesh.triangle_materials.len()
                    + i]) == before.current
            &&& same_but_triangles(after, before)
        }),
{
    lemma_keyword_line(s, 'f', ws);
    let w = seq![seq!['f']] + ws;
    assert forall|k: int| 0 <= k < v.len() implies obj_parser::vertex_index(w[1 + k]) == Some(
        #[trigger] v[k],
    ) by {
        assert(w[1 + k] == ws[k]);
    }
    lemma_face_vertices(w, 1, v);
}

/// A face line of fewer than three words changes nothing.
pub proof fn short_faces_change_nothing(s: Seq<char>, ws: Seq<Seq<char>>)
    requires
        0 < ws.len() < 3,
        forall|k: int| 0 <= k < ws.len() ==> text::is_word(#[trigger] ws[k]),
    ensures
        state_of(with_line(s, seq!['f'] + text::spaced(ws))) == state_of(s),
{
    lemma_keyword_line(s, 'f', ws);
}

/// The reference `n`, also as `n/..` and with a plus sign, names the vertex before
/// number n, for positive numbers of 31 bits.
pub proof fn references_count_from_one(plus: bool, d: Seq<char>, tail: Seq<char>)
    requires
        d.len() > 0,
        text::are_digits(d),
        tail.len() > 0 ==> tail[0] == '/',
    ensures
        ({
            let sign = if plus {
                seq!['+']
            } else {
                Seq::empty()
            };
            let n = text::decimal(d);
            obj_parser::vertex_index(sign + d + tail) == (if 1 <= n <= i32::MAX {
                Some((n - 1) as u32)
            } else {
                None
            })
        }),
{
    let sign = if plus {
        seq!['+']
    } else {
        Seq::empty()
    };
    let raw = sign + d;
    let w = raw + tail;
    assert(sign + d + tail =~= w);
    assert(text::is_digit(d[0]));
    lemma_find_slash(w, 0, raw.len() as int);
    assert(w.take(raw.len() as int) =~= raw);
    if plus {
        assert(raw[0] == '+');
        assert(raw.skip(1) =~= d);
    } else {
        assert(raw =~= d);
    }
    assert(obj_parser::reference_digits(w) == d);
}

proof fn lemma_find_slash(w: Seq<char>, i: int, e: int)
    requires
        0 <= i <= e <= w.len(),
        forall|j: int| i <= j < e ==> (#[trigger] w[j]) != '/',
        e == w.len() || w[e] == '/',
    ensures
        text::find(w, '/', i) == e,
    decreases e - i,
{
    if i < e {
        assert(w[i] != '/');
        lemma_find_slash(w, i + 1, e);
    }
}

/// A negative reference, or one with anything but digits before the slash, names no
/// vertex.
pub proof fn other_references_name_nothing(w: Seq<char>, i: int)
    requires
        0 <= i < w.len(),
        !text::is_digit(w[i]) && w[i] != '/',
        i > 0 || w[i] != '+',
        forall|j: int| 0 <= j < i ==> (#[trigger] w[j]) != '/',
    ensures
        obj_parser::vertex_index(w) is None,
{
    let e = text::find(w, '/', 0);
    lemma_find_after(w, 0, i);
    text::lemma_find(w, '/', 0);
    let raw = w.take(e);
    let d = obj_parser::reference_digits(w);
    assert(raw[i] == w[i]);
    if raw[0] == '+' {
        assert(i > 0);
        assert(d[i - 1] == w[i]);
    } else {
        assert(d[i] == w[i]);
    }
}

proof fn lemma_find_after(w: Seq<char>, k: int, i: int)
    requires
        0 <= k <= i < w.len(),
        forall|j: int| k <= j <= i ==> (#[trigger] w[j]) != '/',
    ensures
        text::find(w, '/', k) > i,
    decreases i - k,
{
    assert(w[k] != '/');
    if k < i {
        lemma_find_after(w, k + 1, i);
    } else {
        text::lemma_find(w, '/', k + 1);
    }
}

/// A line `usemtl name` makes the group of that name the one of the faces that
/// follow. A new name is added behind the others; geometry does not change.
pub proof fn usemtl_line_switches_the_group(s: Seq<char>, name: Seq<char>)
    requires
        s.len() + 2 < u32::MAX,
        is_line(name),
        name.len() > 0 && !text::is_space(name[0]) && !text::is_space(name.last()),
    ensures
        ({
            let before = state_of(s);
            let after = state_of(
                with_line(s, seq!['u', 's', 'e', 'm', 't', 'l', ' '] + name),
            );
            let old = before.mesh.material_names;
            let new = after.mesh.material_names;
            &&& after.current < new.len()
            &&& new[after.current as int] == name
            &&& old.contains(name) ==> new == old
            &&& !old.contains(name) ==> new == old.push(name)
            &&& after.mesh.positions == before.mesh.positions
            &&& after.mesh.triangles == before.mesh.triangles
            &&& after.mesh.triangle_materials == before.mesh.triangle_materials
        }),
{
    let key = seq!['u', 's', 'e', 'm', 't', 'l', ' '];
    let line = key + name;
    let none = Seq::<char>::empty();
    assert(line.last() == name.last());
    assert(is_line(line)) by {
        assert forall|i: int| 0 <= i < line.len() implies (#[trigger] line[i]) != '\n' by {
            if i >= 7 {
                assert(line[i] == name[i - 7]);
            }
        }
    }
    text::trim_takes_off_outer_spaces(none, line, none);
    assert(none + line + none =~= line);
    lemma_line_comes_last(s, line, 0, obj_parser::initial_state());
    assert(line.take(7) =~= key);
    assert(line.skip(7) =~= name);
    text::trim_takes_off_outer_spaces(none, name, none);
    assert(none + name + none =~= name);
    obj_parser::parsed_mesh_is_consistent(s);
    lemma_names_bound(s, 0, obj_parser::initial_state());
    let old = state_of(s).mesh.material_names;
    obj_parser::lemma_name_position(old, name, 0);
    let i = obj_parser::name_position(old, name, 0);
    if i < old.len() {
        assert(old[i] == name);
    } else if old.contains(name) {
        let k = choose|k: int| 0 <= k < old.len() && old[k] == name;
        assert(old[k] != name);
    }
}

/// There is at most one group more than there are lines.
proof fn lemma_names_bound(s: Seq<char>, i: int, st: ObjState)
    requires
        0 <= i,
    ensures
        i <= s.len() + 1 ==> obj_parser::parse_from(s, i, st).mesh.material_names.len()
            <= st.mesh.material_names.len() + (s.len() + 1 - i),
    decreases s.len() + 1 - i,
{
    if i <= s.len() {
        let end = text::find(s, '\n', i);
        text::lemma_find(s, '\n', i);
        lemma_names_bound(s, end + 1, obj_parser::step(st, text::trim(s.subrange(i, end))));
    }
}

/// A line that starts with anything but `v `, `f ` or `usemtl ` changes nothing:
/// comments, normals, texture coordinates, groups and blank lines.
pub proof fn other_lines_change_nothing(s: Seq<char>, t: Seq<char>)
    requires
        is_line(t),
        t.len() > 0 ==> !text::is_space(t[0]) && !text::is_space(t.last()),
        t.len() >= 2 ==> t[1] != ' ' || (t[0] != 'v' && t[0] != 'f'),
        t.len() >= 7 ==> t[0] != 'u' || t[1] != 's' || t[2] != 'e' || t[3] != 'm' || t[4] != 't'
            || t[5] != 'l' || t[6] != ' ',
    ensures
        state_of(with_line(s, t)) == state_of(s),
{
    let none = Seq::<char>::empty();
    text::trim_takes_off_outer_spaces(none, t, none);
    assert(none + t + none =~= t);
    lemma_line_comes_last(s, t, 0, obj_parser::initial_state());
    let usemtl = seq!['u', 's', 'e', 'm', 't', 'l', ' '];
    if text::starts_with(t, usemtl) {
        assert(t.take(7)[0] == usemtl[0] && t.take(7)[1] == usemtl[1] && t.take(7)[2] == usemtl[2]
            && t.take(7)[3] == usemtl[3] && t.take(7)[4] == usemtl[4] && t.take(7)[5] == usemtl[5]
            && t.take(7)[6] == usemtl[6]);
    }
    if text::starts_with(t, seq!['v', ' ']) {
        assert(t.take(2)[0] == 'v' && t.take(2)[1] == ' ');
    }
    if text::starts_with(t, seq!['f', ' ']) {
        assert(t.take(2)[0] == 'f' && t.take(2)[1] == ' ');
    }
}

/// An empty text has no positions and no triangles, and the default group.
pub proof fn nothing_is_read_from_nothing()
    ensures
        ({
            let st = state_of(Seq::empty());
            &&& st.mesh.positions.len() == 0 && st.mesh.triangles.len() == 0
            &&& st.mesh.triangle_materials.len() == 0
            &&& st.mesh.material_names.len() == 1
            &&& st.mesh.material_names[0] == seq!['(', 'd', 'e', 'f', 'a', 'u', 'l', 't', ')']
            &&& st.current == 0
        }),
{
    let s = Seq::<char>::empty();
    let st = obj_parser::initial_state();
    text::lemma_find(s, '\n', 0);
    assert(s.subrange(0, 0) =~= s);
    assert(text::trim(s) =~= s);
    assert(obj_parser::step(st, s) == st);
    assert(obj_parser::parse_from(s, 1, st) == st);
    assert(obj_parser::parse_from(s, 0, st) == st);
}

/// A word of a face that names no vertex is passed over.
pub proof fn bad_references_are_passed_over(
    s: Seq<char>,
    a: Seq<Seq<char>>,
    bad: Seq<char>,
    b: Seq<Seq<char>>,
)
    requires
        a.len() + b.len() >= 3,
        text::is_word(bad),
        obj_parser::vertex_index(bad) is None,
        forall|k: int| 0 <= k < a.len() ==> text::is_word(#[trigger] a[k]),
        forall|k: int| 0 <= k < b.len() ==> text::is_word(#[trigger] b[k]),
    ensures
        state_of(with_line(s, seq!['f'] + text::spaced(a + seq![bad] + b))) == state_of(
            with_line(s, seq!['f'] + text::spaced(a + b)),
        ),
{
    let with_bad = a + seq![bad] + b;
    let without = a + b;
    assert forall|k: int| 0 <= k < with_bad.len() implies text::is_word(#[trigger] with_bad[k]) by {
        if k < a.len() {
            assert(with_bad[k] == a[k]);
        } else if k > a.len() {
            assert(with_bad[k] == b[k - a.len() - 1]);
        }
    }
    assert forall|k: int| 0 <= k < without.len() implies text::is_word(#[trigger] without[k]) by {
        if k < a.len() {
            assert(without[k] == a[k]);
        } else {
            assert(without[k] == b[k - a.len()]);
        }
    }
    lemma_keyword_line(s, 'f', with_bad);
    lemma_keyword_line(s, 'f', without);
    let key = seq![seq!['f']];
    let w = key + with_bad;
    let v = key + without;
    let n = (1 + a.len()) as int;
    assert forall|k: int| 0 <= k < v.len() - n implies w[n + 1 + k] == #[trigger] v[n + k] by {
        assert(w[n + 1 + k] == b[k] && v[n + k] == b[k]);
    }
    lemma_same_tail(w, n + 1, v, n);
    assert(w[n] == bad);
    assert(obj_parser::face_vertices(w, n) =~= obj_parser::face_vertices(v, n));
    assert forall|k: int| 1 <= k < n implies #[trigger] w[k] == v[k] by {
        assert(w[k] == a[k - 1] && v[k] == a[k - 1]);
    }
    lemma_same_head(w, v, 1, n);
}

proof fn lemma_same_tail(w: Seq<Seq<char>>, i: int, v: Seq<Seq<char>>, j: int)
    requires
        0 <= i <= w.len(),
        0 <= j <= v.len(),
        w.len() - i == v.len() - j,
        forall|k: int| 0 <= k < v.len() - j ==> w[i + k] == #[trigger] v[j + k],
    ensures
        obj_parser::face_vertices(w, i) == obj_parser::face_vertices(v, j),
    decreases w.len() - i,
{
    if i < w.len() {
        assert(w[i + 0] == v[j + 0]);
        assert forall|k: int| 0 <= k < v.len() - (j + 1) implies w[i + 1 + k] == #[trigger] v[j + 1
            + k] by {
            assert(w[i + (k + 1)] == v[j + (k + 1)]);
        }
        lemma_same_tail(w, i + 1, v, j + 1);
    }
}

proof fn lemma_same_head(w: Seq<Seq<char>>, v: Seq<Seq<char>>, i: int, n: int)
    requires
        0 <= i <= n <= w.len(),
        n <= v.len(),
        obj_parser::face_vertices(w, n) == obj_parser::face_vertices(v, n),
        forall|k: int| i <= k < n ==> #[trigger] w[k] == v[k],
    ensures
        obj_parser::face_vertices(w, i) == obj_parser::face_vertices(v, i),
    decreases n - i,
{
    if i < n {
        assert(w[i] == v[i]);
        lemma_same_head(w, v, i + 1, n);
    }
}

/// A face with at most two words that name a vertex changes nothing.
pub proof fn faces_of_two_vertices_change_nothing(
    s: Seq<char>,
    ws: Seq<Seq<char>>,
    i: int,
    j: int,
)
    requires
        ws.len() > 0,
        forall|k: int| 0 <= k < ws.len() ==> text::is_word(#[trigger] ws[k]),
        forall|k: int|
            0 <= k < ws.len() && k != i && k != j ==> obj_parser::vertex_index(#[trigger] ws[k]) is None,
    ensures
        state_of(with_line(s, seq!['f'] + text::spaced(ws))) == state_of(s),
{
    lemma_keyword_line(s, 'f', ws);
    let w = seq![seq!['f']] + ws;
    assert forall|k: int|
        1 <= k < w.len() && k != i + 1 && k != j + 1 implies obj_parser::vertex_index(
        #[trigger] w[k],
    ) is None by {
        assert(w[k] == ws[k - 1]);
    }
    lemma_few_vertices(w, 1, i + 1, j + 1);
    let st = state_of(s);
    let after = obj_parser::add_face(st, w);
    assert(after.mesh.triangles =~= st.mesh.triangles);
    assert(after.mesh.triangle_materials =~= st.mesh.triangle_materials);
}

proof fn lemma_few_vertices(w: Seq<Seq<char>>, n: int, i: int, j: int)
    requires
        0 <= n <= w.len(),
        forall|k: int|
            n <= k < w.len() && k != i && k != j ==> obj_parser::vertex_index(#[trigger] w[k]) is None,
    ensures
        obj_parser::face_vertices(w, n).len() <= (if n <= i {
            1int
        } else {
            0
        }) + (if n <= j {
            1int
        } else {
            0
        }),
    decreases w.len() - n,
{
    if n < w.len() {
        lemma_few_vertices(w, n + 1, i, j);
        if n != i && n != j {
            assert(obj_parser::vertex_index(w[n]) is None);
        }
    }
}

/// A reference without a digit before its slash names no vertex.
pub proof fn empty_references_name_nothing(plus: bool, tail: Seq<char>)
    requires
        tail.len() > 0 ==> tail[0] == '/',
    ensures
        obj_parser::vertex_index(
            (if plus {
                seq!['+']
            } else {
                Seq::empty()
            }) + tail,
        ) is None,
{
    let sign = if plus {
        seq!['+']
    } else {
        Seq::empty()
    };
    let w = sign + tail;
    if plus {
        assert(w[0] == '+');
    }
    lemma_find_slash(w, 0, sign.len() as int);
    assert(w.take(sign.len() as int) =~= sign);
    assert(obj_parser::reference_digits(w).len() == 0);
}

/// What is parsed is the mesh of the state after the last line.
pub proof fn the_whole_text_is_parsed(s: Seq<char>)
    ensures
        obj_parser::parsed(s) == state_of(s).mesh,
{
}

/// A parsed mesh is seen as its fields are: positions by their three literals in
/// order, triangles by their three vertices, groups by number and by name.
pub proof fn parsed_meshes_show_their_fields(obj: ParsedObj, i: int)
    requires
        0 <= i,
    ensures
        obj@.positions.len() == obj.positions@.len(),
        obj@.triangles.len() == obj.triangles@.len(),
        obj@.material_names.len() == obj.material_names@.len(),
        obj@.triangle_materials == obj.triangle_materials@,
        i < obj.positions@.len() ==> {
            let p = obj@.positions[i];
            p.len() == 3 && p[0] == obj.positions@[i].x@ && p[1] == obj.positions@[i].y@ && p[2]
                == obj.positions@[i].z@
        },
        i < obj.triangles@.len() ==> {
            let t = obj@.triangles[i];
            t.len() == 3 && t[0] == obj.triangles@[i][0] && t[1] == obj.triangles@[i][1] && t[2]
                == obj.triangles@[i][2]
        },
        i < obj.material_names@.len() ==> obj@.material_names[i] == obj.material_names@[i]@,
{
}

} // verus!
