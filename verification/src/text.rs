//! Words, lines and number literals in character sequences.

use vstd::prelude::*;

verus! {

/// Characters of the Unicode property White_Space.
pub open spec fn is_space(c: char) -> bool {
    let n = c as u32;
    ||| 0x09 <= n <= 0x0D
    ||| n == 0x20
    ||| n == 0x85
    ||| n == 0xA0
    ||| n == 0x1680
    ||| 0x2000 <= n <= 0x200A
    ||| n == 0x2028
    ||| n == 0x2029
    ||| n == 0x202F
    ||| n == 0x205F
    ||| n == 0x3000
}

pub open spec fn is_digit(c: char) -> bool {
    '0' <= c <= '9'
}

/// First position from `i` on whose character is not a space.
pub open spec fn skip_space(t: Seq<char>, i: int) -> int
    decreases t.len() - i,
{
    if 0 <= i < t.len() && is_space(t[i]) {
        skip_space(t, i + 1)
    } else {
        i
    }
}

/// First position from `i` on whose character is a space, or the end.
pub open spec fn word_end(t: Seq<char>, i: int) -> int
    decreases t.len() - i,
{
    if 0 <= i < t.len() && !is_space(t[i]) {
        word_end(t, i + 1)
    } else {
        i
    }
}

/// The length of `t` up to `n` without the spaces at its end.
pub open spec fn space_start(t: Seq<char>, n: int) -> int
    decreases n,
{
    if 0 < n <= t.len() && is_space(t[n - 1]) {
        space_start(t, n - 1)
    } else {
        n
    }
}

/// A text without the spaces at both ends.
pub open spec fn trim(t: Seq<char>) -> Seq<char> {
    let a = skip_space(t, 0);
    let b = space_start(t, t.len() as int);
    if a < b {
        t.subrange(a, b)
    } else {
        Seq::empty()
    }
}

/// The words of a text from position `i` on: its longest runs of characters
/// that are not spaces.
pub open spec fn words_from(t: Seq<char>, i: int) -> Seq<Seq<char>>
    decreases t.len() - i,
    when 0 <= i
    via words_from_decreases
{
    let a = skip_space(t, i);
    let b = word_end(t, a);
    if a >= t.len() {
        Seq::empty()
    } else {
        seq![t.subrange(a, b)] + words_from(t, b)
    }
}

#[via_fn]
proof fn words_from_decreases(t: Seq<char>, i: int) {
    lemma_skip_space(t, i);
    lemma_word_end(t, skip_space(t, i));
}

/// The words of a text.
pub open spec fn words(t: Seq<char>) -> Seq<Seq<char>> {
    words_from(t, 0)
}

/// First position from `i` on that holds `c`, or the end.
pub open spec fn find(t: Seq<char>, c: char, i: int) -> int
    decreases t.len() - i,
{
    if 0 <= i < t.len() && t[i] != c {
        find(t, c, i + 1)
    } else {
        i
    }
}

/// First position from `i` on that holds no digit.
pub open spec fn digits_end(t: Seq<char>, i: int) -> int
    decreases t.len() - i,
{
    if 0 <= i < t.len() && is_digit(t[i]) {
        digits_end(t, i + 1)
    } else {
        i
    }
}

pub open spec fn starts_with(t: Seq<char>, p: Seq<char>) -> bool {
    p.len() <= t.len() && t.take(p.len() as int) == p
}

/// Value of a run of decimal digits.
pub open spec fn decimal(t: Seq<char>) -> nat
    decreases t.len(),
{
    if t.len() == 0 {
        0
    } else {
        decimal(t.drop_last()) * 10 + ((t.last() as u32 - '0' as u32) as nat)
    }
}

/// A text without one leading sign.
pub open spec fn unsigned(t: Seq<char>) -> Seq<char> {
    if t.len() > 0 && (t[0] == '+' || t[0] == '-') {
        t.skip(1)
    } else {
        t
    }
}

/// An ASCII letter in lower case.
pub open spec fn lower(c: char) -> int {
    if 'A' <= c <= 'Z' {
        c as u32 + 32
    } else {
        c as u32 as int
    }
}

/// Whether a text spells a word, whatever the case of its letters.
pub open spec fn spells(t: Seq<char>, w: Seq<char>) -> bool {
    t.len() == w.len() && forall|i: int| 0 <= i < t.len() ==> lower(#[trigger] t[i]) == w[i] as u32
}

/// A decimal number: digits with an optional point among them, at least one
/// digit, and an optional exponent.
pub open spec fn is_number(t: Seq<char>) -> bool {
    let i = digits_end(t, 0);
    let dot = i < t.len() && t[i] == '.';
    let j = if dot {
        digits_end(t, i + 1)
    } else {
        i
    };
    &&& i > 0 || (dot && j > i + 1)
    &&& j == t.len() || is_exponent(t, j)
}

/// An exponent from position `j` to the end: `e` or `E`, an optional sign, and
/// digits.
pub open spec fn is_exponent(t: Seq<char>, j: int) -> bool {
    let k = if j + 1 < t.len() && (t[j + 1] == '+' || t[j + 1] == '-') {
        j + 2
    } else {
        j + 1
    };
    &&& j < t.len()
    &&& t[j] == 'e' || t[j] == 'E'
    &&& digits_end(t, k) > k
    &&& digits_end(t, k) == t.len()
}

/// Literals of floating-point numbers: a decimal number, an infinity or a NaN,
/// with an optional sign.
pub open spec fn is_float_literal(t: Seq<char>) -> bool {
    let u = unsigned(t);
    ||| is_number(u)
    ||| spells(u, seq!['i', 'n', 'f'])
    ||| spells(u, seq!['i', 'n', 'f', 'i', 'n', 'i', 't', 'y'])
    ||| spells(u, seq!['n', 'a', 'n'])
}

pub proof fn lemma_skip_space(t: Seq<char>, i: int)
    ensures
        skip_space(t, i) >= i,
        0 <= i <= t.len() ==> skip_space(t, i) <= t.len(),
        0 <= skip_space(t, i) < t.len() ==> !is_space(t[skip_space(t, i)]),
    decreases t.len() - i,
{
    if 0 <= i < t.len() && is_space(t[i]) {
        lemma_skip_space(t, i + 1);
    }
}

pub proof fn lemma_word_end(t: Seq<char>, i: int)
    ensures
        word_end(t, i) >= i,
        0 <= i <= t.len() ==> word_end(t, i) <= t.len(),
        0 <= i < t.len() && !is_space(t[i]) ==> word_end(t, i) > i,
    decreases t.len() - i,
{
    if 0 <= i < t.len() && !is_space(t[i]) {
        lemma_word_end(t, i + 1);
    }
}

pub proof fn lemma_space_start(t: Seq<char>, n: int)
    requires
        0 <= n <= t.len(),
    ensures
        0 <= space_start(t, n) <= n,
    decreases n,
{
    if 0 < n && is_space(t[n - 1]) {
        lemma_space_start(t, n - 1);
    }
}

pub proof fn lemma_find(t: Seq<char>, c: char, i: int)
    ensures
        find(t, c, i) >= i,
        0 <= i <= t.len() ==> find(t, c, i) <= t.len(),
    decreases t.len() - i,
{
    if 0 <= i < t.len() && t[i] != c {
        lemma_find(t, c, i + 1);
    }
}

pub proof fn lemma_digits_end(t: Seq<char>, i: int)
    ensures
        digits_end(t, i) >= i,
        0 <= i <= t.len() ==> digits_end(t, i) <= t.len(),
    decreases t.len() - i,
{
    if 0 <= i < t.len() && is_digit(t[i]) {
        lemma_digits_end(t, i + 1);
    }
}

/// The characters of a string.
pub fn chars_of(input: &str) -> (v: Vec<char>)
    ensures
        v@ == input@,
{
    let mut v: Vec<char> = Vec::new();
    for c in it: input.chars()
        invariant
            v@ == it.seq().take(it.index()),
            it.seq() == input@,
    {
        v.push(c);
        proof {
            assert(it.seq().take(it.index() + 1) =~= it.seq().take(it.index()).push(c));
        }
    }
    v
}

/// Part of a text.
pub fn part(t: &Vec<char>, a: usize, b: usize) -> (r: Vec<char>)
    requires
        a <= b <= t@.len(),
    ensures
        r@ == t@.subrange(a as int, b as int),
{
    let mut r: Vec<char> = Vec::new();
    let mut i: usize = a;
    while i < b
        invariant
            a <= i <= b <= t@.len(),
            r@ == t@.subrange(a as int, i as int),
        decreases b - i,
    {
        r.push(t[i]);
        i = i + 1;
    }
    r
}

/// Whether a character is white space.
pub fn space(c: char) -> (b: bool)
    ensures
        b == is_space(c),
{
    let n: u32 = c as u32;
    (0x09 <= n && n <= 0x0D) || n == 0x20 || n == 0x85 || n == 0xA0 || n == 0x1680 || (0x2000 <= n
        && n <= 0x200A) || n == 0x2028 || n == 0x2029 || n == 0x202F || n == 0x205F || n == 0x3000
}

/// Whether a character is an ASCII digit.
pub fn digit(c: char) -> (b: bool)
    ensures
        b == is_digit(c),
{
    '0' <= c && c <= '9'
}

/// First position from `i` on whose character is not a space.
pub fn past_space(t: &Vec<char>, i: usize) -> (r: usize)
    requires
        i <= t@.len(),
    ensures
        r == skip_space(t@, i as int),
        i <= r <= t@.len(),
{
    let mut j: usize = i;
    while j < t.len() && space(t[j])
        invariant
            i <= j <= t@.len(),
            skip_space(t@, i as int) == skip_space(t@, j as int),
        decreases t@.len() - j,
    {
        j = j + 1;
    }
    j
}

/// First position from `i` on whose character is a space, or the end.
pub fn past_word(t: &Vec<char>, i: usize) -> (r: usize)
    requires
        i <= t@.len(),
    ensures
        r == word_end(t@, i as int),
        i <= r <= t@.len(),
{
    let mut j: usize = i;
    while j < t.len() && !space(t[j])
        invariant
            i <= j <= t@.len(),
            word_end(t@, i as int) == word_end(t@, j as int),
        decreases t@.len() - j,
    {
        j = j + 1;
    }
    j
}

/// First position from `i` on that holds `c`, or the end.
pub fn position_of(t: &Vec<char>, c: char, i: usize) -> (r: usize)
    requires
        i <= t@.len(),
    ensures
        r == find(t@, c, i as int),
        i <= r <= t@.len(),
{
    let mut j: usize = i;
    while j < t.len() && t[j] != c
        invariant
            i <= j <= t@.len(),
            find(t@, c, i as int) == find(t@, c, j as int),
        decreases t@.len() - j,
    {
        j = j + 1;
    }
    j
}

/// First position from `i` on that holds no digit.
pub fn past_digits(t: &Vec<char>, i: usize) -> (r: usize)
    requires
        i <= t@.len(),
    ensures
        r == digits_end(t@, i as int),
        i <= r <= t@.len(),
{
    let mut j: usize = i;
    while j < t.len() && digit(t[j])
        invariant
            i <= j <= t@.len(),
            digits_end(t@, i as int) == digits_end(t@, j as int),
        decreases t@.len() - j,
    {
        j = j + 1;
    }
    j
}

/// Bounds of a text without the spaces at both ends.
pub fn trim_bounds(t: &Vec<char>) -> (r: (usize, usize))
    ensures
        r.0 <= r.1 <= t@.len(),
        t@.subrange(r.0 as int, r.1 as int) == trim(t@),
{
    let a: usize = past_space(t, 0);
    let mut b: usize = t.len();
    while b > 0 && space(t[b - 1])
        invariant
            b <= t@.len(),
            space_start(t@, t@.len() as int) == space_start(t@, b as int),
        decreases b,
    {
        b = b - 1;
    }
    if a < b {
        (a, b)
    } else {
        assert(t@.subrange(0, 0) =~= Seq::empty());
        (0, 0)
    }
}

/// The words of a text, by value.
pub open spec fn deep(v: Seq<Vec<char>>) -> Seq<Seq<char>> {
    v.map_values(|w: Vec<char>| w@)
}

/// Split a text into words.
pub fn split_words(t: &Vec<char>) -> (v: Vec<Vec<char>>)
    ensures
        deep(v@) == words(t@),
{
    let mut v: Vec<Vec<char>> = Vec::new();
    let mut i: usize = 0;
    proof {
        assert(deep(v@) + words_from(t@, 0) =~= words_from(t@, 0));
    }
    loop
        invariant
            i <= t@.len(),
            deep(v@) + words_from(t@, i as int) == words(t@),
        decreases t@.len() - i,
    {
        let ghost before = v@;
        let a: usize = past_space(t, i);
        if a >= t.len() {
            proof {
                assert(words_from(t@, i as int) == Seq::<Seq<char>>::empty());
                assert(deep(v@) + Seq::<Seq<char>>::empty() =~= deep(v@));
            }
            return v;
        }
        let b: usize = past_word(t, a);
        proof {
            lemma_skip_space(t@, i as int);
            lemma_word_end(t@, a as int);
        }
        let w: Vec<char> = part(t, a, b);
        v.push(w);
        proof {
            assert(deep(v@) =~= deep(before).push(w@));
            assert(deep(v@) + words_from(t@, b as int) =~= deep(before) + (seq![w@] + words_from(
                t@,
                b as int,
            )));
        }
        i = b;
    }
}

/// Whether a text starts with a prefix.
pub fn has_prefix(t: &Vec<char>, p: &[char]) -> (b: bool)
    ensures
        b == starts_with(t@, p@),
{
    if p.len() > t.len() {
        return false;
    }
    let mut i: usize = 0;
    while i < p.len()
        invariant
            i <= p@.len() <= t@.len(),
            forall|j: int| 0 <= j < i ==> t@[j] == p@[j],
        decreases p@.len() - i,
    {
        if t[i] != p[i] {
            assert(t@.take(p@.len() as int)[i as int] != p@[i as int]);
            return false;
        }
        i = i + 1;
    }
    assert(t@.take(p@.len() as int) =~= p@);
    true
}

/// Whether two texts are equal.
pub fn same_text(t: &Vec<char>, u: &Vec<char>) -> (b: bool)
    ensures
        b == (t@ == u@),
{
    if t.len() != u.len() {
        return false;
    }
    let mut i: usize = 0;
    while i < t.len()
        invariant
            i <= t@.len(),
            t@.len() == u@.len(),
            forall|j: int| 0 <= j < i ==> t@[j] == u@[j],
        decreases t@.len() - i,
    {
        if t[i] != u[i] {
            return false;
        }
        i = i + 1;
    }
    assert(t@ =~= u@);
    true
}

/// Whether a text spells a word, whatever the case of its letters.
fn spelled(t: &Vec<char>, from: usize, w: &[char]) -> (b: bool)
    requires
        from <= t@.len(),
    ensures
        b == spells(t@.skip(from as int), w@),
{
    let ghost u = t@.skip(from as int);
    let n: usize = t.len();
    if n - from != w.len() {
        return false;
    }
    let mut i: usize = 0;
    while i < w.len()
        invariant
            i <= w@.len(),
            n == t@.len(),
            from + w@.len() == n,
            u == t@.skip(from as int),
            forall|j: int| 0 <= j < i ==> lower(#[trigger] u[j]) == w@[j] as u32,
        decreases w@.len() - i,
    {
        let c: char = t[from + i];
        assert(c == u[i as int]);
        let small: u32 = if 'A' <= c && c <= 'Z' { c as u32 + 32 } else { c as u32 };
        if small != w[i] as u32 {
            assert(lower(u[i as int]) != w@[i as int] as u32);
            return false;
        }
        i = i + 1;
    }
    true
}

proof fn lemma_digits_shift(t: Seq<char>, from: int, i: int)
    requires
        0 <= from <= t.len(),
        0 <= i <= t.len() - from,
    ensures
        digits_end(t.skip(from), i) == digits_end(t, from + i) - from,
    decreases t.len() - from - i,
{
    let u = t.skip(from);
    if i < u.len() && is_digit(u[i]) {
        lemma_digits_shift(t, from, i + 1);
    }
}

/// Whether the text from `from` on is a decimal number.
fn number_from(t: &Vec<char>, from: usize) -> (b: bool)
    requires
        from <= t@.len(),
    ensures
        b == is_number(t@.skip(from as int)),
{
    let ghost u = t@.skip(from as int);
    let n: usize = t.len();
    let i: usize = past_digits(t, from);
    proof {
        lemma_digits_shift(t@, from as int, 0);
        lemma_digits_shift(t@, from as int, i - from);
    }
    let dot: bool = i < n && t[i] == '.';
    let j: usize = if dot { past_digits(t, i + 1) } else { i };
    proof {
        if dot {
            lemma_digits_shift(t@, from as int, i + 1 - from);
        }
    }
    if !(i > from || (dot && j > i + 1)) {
        return false;
    }
    if j == n {
        return true;
    }
    if !(t[j] == 'e' || t[j] == 'E') {
        return false;
    }
    let k: usize = if j + 1 < n && (t[j + 1] == '+' || t[j + 1] == '-') { j + 2 } else { j + 1 };
    let m: usize = past_digits(t, k);
    proof {
        lemma_digits_shift(t@, from as int, k - from);
    }
    m > k && m == n
}

/// Whether a text is a floating-point literal.
pub fn float_literal(t: &Vec<char>) -> (b: bool)
    ensures
        b == is_float_literal(t@),
{
    let from: usize = if t.len() > 0 && (t[0] == '+' || t[0] == '-') { 1 } else { 0 };
    proof {
        assert(unsigned(t@) =~= t@.skip(from as int));
    }
    let inf: [char; 3] = ['i', 'n', 'f'];
    let infinity: [char; 8] = ['i', 'n', 'f', 'i', 'n', 'i', 't', 'y'];
    let nan: [char; 3] = ['n', 'a', 'n'];
    proof {
        assert(inf@ =~= seq!['i', 'n', 'f']);
        assert(infinity@ =~= seq!['i', 'n', 'f', 'i', 'n', 'i', 't', 'y']);
        assert(nan@ =~= seq!['n', 'a', 'n']);
    }
    number_from(t, from) || spelled(t, from, inf.as_slice()) || spelled(
        t,
        from,
        infinity.as_slice(),
    ) || spelled(t, from, nan.as_slice())
}

/// The ASCII white space: tab, line feed, vertical tab, form feed, carriage return
/// and space.
pub proof fn ascii_spaces(c: char)
    requires
        c as u32 <= 0x7F,
    ensures
        is_space(c) <==> c == '\t' || c == '\n' || c as u32 == 0x0B || c as u32 == 0x0C || c == '\r' || c
            == ' ',
{
}

/// No letter, digit, sign, point, slash or number sign is white space.
pub proof fn printing_is_no_space(c: char)
    requires
        0x21 <= c as u32 <= 0x7E,
    ensures
        !is_space(c),
{
}

/// A word: some characters, none of them white space.
pub open spec fn is_word(w: Seq<char>) -> bool {
    w.len() > 0 && forall|i: int| 0 <= i < w.len() ==> !is_space(#[trigger] w[i])
}

/// Words, each behind a space.
pub open spec fn spaced(ws: Seq<Seq<char>>) -> Seq<char>
    decreases ws.len(),
{
    if ws.len() == 0 {
        Seq::empty()
    } else {
        seq![' '] + ws[0] + spaced(ws.skip(1))
    }
}

proof fn lemma_word_end_at(t: Seq<char>, a: int, b: int)
    requires
        0 <= a <= b <= t.len(),
        forall|i: int| a <= i < b ==> !is_space(#[trigger] t[i]),
        b == t.len() || is_space(t[b]),
    ensures
        word_end(t, a) == b,
    decreases b - a,
{
    if a < b {
        assert(!is_space(t[a]));
        lemma_word_end_at(t, a + 1, b);
    }
}

proof fn lemma_words_of_spaced(t: Seq<char>, i: int, ws: Seq<Seq<char>>)
    requires
        0 <= i <= t.len(),
        t.skip(i) == spaced(ws),
        forall|k: int| 0 <= k < ws.len() ==> is_word(#[trigger] ws[k]),
    ensures
        words_from(t, i) == ws,
    decreases ws.len(),
{
    if ws.len() == 0 {
        assert(t.skip(i).len() == 0);
        assert(words_from(t, i) =~= ws);
    } else {
        let w = ws[0];
        let rest = ws.skip(1);
        let u = t.skip(i);
        assert(is_word(w));
        assert(u =~= seq![' '] + w + spaced(rest));
        assert(t[i] == u[0] && u[0] == ' ');
        assert(is_space(t[i]));
        assert(t[i + 1] == u[1] && u[1] == w[0]);
        assert(skip_space(t, i) == skip_space(t, i + 1));
        assert(skip_space(t, i + 1) == i + 1);
        let a = i + 1;
        let b = a + w.len();
        assert forall|j: int| a <= j < b implies !is_space(#[trigger] t[j]) by {
            assert(t[j] == u[j - i] && u[j - i] == w[j - a]);
        }
        assert(t.skip(b) =~= spaced(rest)) by {
            assert forall|j: int| 0 <= j < spaced(rest).len() implies t.skip(b)[j] == spaced(
                rest,
            )[j] by {
                assert(t[b + j] == u[b + j - i]);
            }
        }
        if b < t.len() {
            assert(rest.len() > 0);
            assert(t[b] == t.skip(b)[0] && spaced(rest)[0] == ' ');
        }
        lemma_word_end_at(t, a, b);
        assert(t.subrange(a, b) =~= w) by {
            assert forall|j: int| 0 <= j < w.len() implies t.subrange(a, b)[j] == w[j] by {
                assert(t[a + j] == u[a + j - i]);
            }
        }
        assert forall|k: int| 0 <= k < rest.len() implies is_word(#[trigger] rest[k]) by {
            assert(rest[k] == ws[k + 1]);
        }
        lemma_words_of_spaced(t, b, rest);
        lemma_skip_space(t, i);
        assert(seq![w] + rest =~= ws);
    }
}

/// Splitting gives back what was joined: a word, and others behind spaces, are
/// found again, in order.
pub proof fn words_of_a_line(first: Seq<char>, ws: Seq<Seq<char>>)
    requires
        is_word(first),
        forall|k: int| 0 <= k < ws.len() ==> is_word(#[trigger] ws[k]),
    ensures
        words(first + spaced(ws)) == seq![first] + ws,
{
    let t = first + spaced(ws);
    let n = first.len() as int;
    assert(!is_space(first[0]) && t[0] == first[0]);
    assert forall|j: int| 0 <= j < n implies !is_space(#[trigger] t[j]) by {
        assert(t[j] == first[j]);
    }
    if n < t.len() {
        assert(ws.len() > 0);
        assert(t[n] == spaced(ws)[0] && spaced(ws)[0] == ' ');
    }
    assert(skip_space(t, 0) == 0);
    lemma_word_end_at(t, 0, n);
    assert(t.subrange(0, n) =~= first);
    assert(t.skip(n) =~= spaced(ws));
    lemma_words_of_spaced(t, n, ws);
}

proof fn lemma_skip_spaces_to(t: Seq<char>, i: int, a: int)
    requires
        0 <= i <= a <= t.len(),
        forall|j: int| i <= j < a ==> is_space(#[trigger] t[j]),
        a == t.len() || !is_space(t[a]),
    ensures
        skip_space(t, i) == a,
    decreases a - i,
{
    if i < a {
        assert(is_space(t[i]));
        lemma_skip_spaces_to(t, i + 1, a);
    }
}

proof fn lemma_space_start_at(t: Seq<char>, n: int, b: int)
    requires
        0 <= b <= n <= t.len(),
        forall|j: int| b <= j < n ==> is_space(#[trigger] t[j]),
        b == 0 || !is_space(t[b - 1]),
    ensures
        space_start(t, n) == b,
    decreases n - b,
{
    if b < n {
        assert(is_space(t[n - 1]));
        lemma_space_start_at(t, n - 1, b);
    }
}

/// Trimming takes off the spaces round a text and nothing else.
pub proof fn trim_takes_off_outer_spaces(left: Seq<char>, t: Seq<char>, right: Seq<char>)
    requires
        forall|i: int| 0 <= i < left.len() ==> is_space(#[trigger] left[i]),
        forall|i: int| 0 <= i < right.len() ==> is_space(#[trigger] right[i]),
        t.len() > 0 ==> !is_space(t[0]) && !is_space(t.last()),
    ensures
        trim(left + t + right) == t,
{
    let u = left + t + right;
    let a = left.len() as int;
    let b = a + t.len();
    assert forall|j: int| 0 <= j < a implies is_space(#[trigger] u[j]) by {
        assert(u[j] == left[j]);
    }
    assert forall|j: int| b <= j < u.len() implies is_space(#[trigger] u[j]) by {
        assert(u[j] == right[j - b]);
    }
    if t.len() > 0 {
        assert(u[a] == t[0] && u[b - 1] == t.last());
        lemma_skip_spaces_to(u, 0, a);
        lemma_space_start_at(u, u.len() as int, b);
        assert(u.subrange(a, b) =~= t);
    } else {
        assert forall|j: int| 0 <= j < u.len() implies is_space(#[trigger] u[j]) by {
            if j < a {
                assert(u[j] == left[j]);
            } else {
                assert(u[j] == right[j - b]);
            }
        }
        lemma_skip_spaces_to(u, 0, u.len() as int);
        lemma_space_start_at(u, u.len() as int, 0);
        assert(trim(u) =~= t);
    }
}

/// Value of digits written one behind the other.
pub proof fn decimal_of_joined(a: Seq<char>, b: Seq<char>)
    ensures
        decimal(a + b) == decimal(a) * vstd::arithmetic::power::pow(10, b.len()) + decimal(b),
    decreases b.len(),
{
    vstd::arithmetic::power::lemma_pow_positive(10, b.len());
    if b.len() == 0 {
        assert(a + b =~= a);
        vstd::arithmetic::power::lemma_pow0(10);
    } else {
        let c = b.drop_last();
        assert((a + b).drop_last() =~= a + c);
        assert((a + b).last() == b.last());
        decimal_of_joined(a, c);
        vstd::arithmetic::power::lemma_pow_positive(10, c.len());
        assert(vstd::arithmetic::power::pow(10, b.len()) == 10 * vstd::arithmetic::power::pow(
            10,
            c.len(),
        )) by {
            reveal(vstd::arithmetic::power::pow);
        }
        let p = vstd::arithmetic::power::pow(10, c.len());
        let d = decimal(a) as int;
        assert((d * p) * 10 == d * (10 * p)) by (nonlinear_arith);
    }
}

/// One digit stands for its value.
pub proof fn decimal_of_digit(c: char)
    requires
        is_digit(c),
    ensures
        decimal(seq![c]) == c as u32 - '0' as u32,
        decimal(seq![c]) <= 9,
{
    reveal_with_fuel(decimal, 2);
    assert(seq![c].drop_last() =~= Seq::empty());
}

proof fn lemma_digits_end_at(t: Seq<char>, i: int, e: int)
    requires
        0 <= i <= e <= t.len(),
        forall|j: int| i <= j < e ==> is_digit(#[trigger] t[j]),
        e == t.len() || !is_digit(t[e]),
    ensures
        digits_end(t, i) == e,
    decreases e - i,
{
    if i < e {
        assert(is_digit(t[i]));
        lemma_digits_end_at(t, i + 1, e);
    }
}

/// Some decimal digits.
pub open spec fn are_digits(d: Seq<char>) -> bool {
    forall|i: int| 0 <= i < d.len() ==> is_digit(#[trigger] d[i])
}

/// Digits, and digits round a point, are number literals, with or without a sign;
/// a point alone is none.
pub proof fn decimal_literals(sign: Seq<char>, whole: Seq<char>, fraction: Seq<char>, point: bool)
    requires
        sign == Seq::<char>::empty() || sign == seq!['+'] || sign == seq!['-'],
        are_digits(whole) && are_digits(fraction),
        !point ==> fraction.len() == 0,
    ensures
        is_float_literal(
            sign + whole + (if point {
                seq!['.'] + fraction
            } else {
                Seq::empty()
            }),
        ) <==> whole.len() + fraction.len() > 0,
{
    let tail = if point {
        seq!['.'] + fraction
    } else {
        Seq::empty()
    };
    let t = sign + whole + tail;
    let u = whole + tail;
    let n = whole.len() as int;
    assert(unsigned(t) =~= u) by {
        if sign.len() == 0 {
            assert(t =~= u);
            if u.len() > 0 && n > 0 {
                assert(is_digit(whole[0]) && u[0] == whole[0]);
            }
        } else {
            assert(t[0] == sign[0]);
            assert(t.skip(1) =~= u);
        }
    }
    assert forall|j: int| 0 <= j < n implies is_digit(#[trigger] u[j]) by {
        assert(u[j] == whole[j]);
    }
    if point {
        assert(u[n] == '.');
        lemma_digits_end_at(u, 0, n);
        assert forall|j: int| n + 1 <= j < u.len() implies is_digit(#[trigger] u[j]) by {
            assert(u[j] == fraction[j - n - 1]);
        }
        lemma_digits_end_at(u, n + 1, u.len() as int);
    } else {
        lemma_digits_end_at(u, 0, n);
    }
    if n == 0 && fraction.len() == 0 {
        assert(u.len() <= 1);
    }
}

/// A number literal is a word: it is not empty and holds no white space.
pub proof fn literals_are_words(t: Seq<char>)
    requires
        is_float_literal(t),
    ensures
        is_word(t),
{
    let u = unsigned(t);
    if is_number(u) {
        lemma_number_is_word(u);
    } else {
        assert forall|i: int| 0 <= i < u.len() implies !is_space(#[trigger] u[i]) by {
            if spells(u, seq!['i', 'n', 'f']) {
                assert(lower(u[i]) == seq!['i', 'n', 'f'][i] as u32);
            } else if spells(u, seq!['n', 'a', 'n']) {
                assert(lower(u[i]) == seq!['n', 'a', 'n'][i] as u32);
            } else {
                assert(lower(u[i]) == seq!['i', 'n', 'f', 'i', 'n', 'i', 't', 'y'][i] as u32);
            }
        }
    }
    assert forall|i: int| 0 <= i < t.len() implies !is_space(#[trigger] t[i]) by {
        if u.len() < t.len() {
            if i > 0 {
                assert(t[i] == u[i - 1]);
            }
        }
    }
}

proof fn lemma_digits_before_end(t: Seq<char>, i: int)
    requires
        0 <= i <= t.len(),
    ensures
        i <= digits_end(t, i) <= t.len(),
        forall|j: int| i <= j < digits_end(t, i) ==> is_digit(#[trigger] t[j]),
    decreases t.len() - i,
{
    if i < t.len() && is_digit(t[i]) {
        lemma_digits_before_end(t, i + 1);
    }
}

proof fn lemma_number_is_word(t: Seq<char>)
    requires
        is_number(t),
    ensures
        is_word(t),
{
    let i = digits_end(t, 0);
    lemma_digits_before_end(t, 0);
    let dot = i < t.len() && t[i] == '.';
    let j = if dot {
        digits_end(t, i + 1)
    } else {
        i
    };
    if dot {
        lemma_digits_before_end(t, i + 1);
    }
    let k = if j + 1 < t.len() && (t[j + 1] == '+' || t[j + 1] == '-') {
        j + 2
    } else {
        j + 1
    };
    if j < t.len() {
        if k <= t.len() {
            lemma_digits_before_end(t, k);
        }
    }
    assert forall|n: int| 0 <= n < t.len() implies !is_space(#[trigger] t[n]) by {
        if n < i {
            assert(is_digit(t[n]));
        } else if dot && i < n < j {
            assert(is_digit(t[n]));
        } else if n >= k {
            assert(is_digit(t[n]));
        }
    }
}

/// A decimal number stays one with an exponent behind it: the letter e in either case,
/// an optional sign and at least one digit. Without a digit it is none.
pub proof fn exponents_extend_numbers(t: Seq<char>, e: char, sign: Seq<char>, d: Seq<char>)
    requires
        are_digits(t) && t.len() > 0,
        e == 'e' || e == 'E',
        sign.len() == 0 || (sign.len() == 1 && (sign[0] == '+' || sign[0] == '-')),
        are_digits(d),
    ensures
        is_float_literal(t + seq![e] + sign + d) <==> d.len() > 0,
{
    let u = t + seq![e] + sign + d;
    let n = t.len() as int;
    assert(is_digit(t[0]) && u[0] == t[0]);
    assert(unsigned(u) =~= u);
    lemma_digits_run(u, 0, n);
    assert(u[n] == e);
    let j = n + 1;
    let k = j + sign.len();
    if sign.len() > 0 {
        assert(u[j] == sign[0]);
    }
    assert forall|i: int| k <= i < u.len() implies is_digit(#[trigger] u[i]) by {
        assert(u[i] == d[i - k]);
        assert(is_digit(d[i - k]));
    }
    lemma_digits_run(u, k, u.len() as int);
    if sign.len() == 0 && d.len() > 0 {
        assert(is_digit(d[0]) && u[j] == d[0]);
    }
}

proof fn lemma_digits_run(t: Seq<char>, i: int, e: int)
    requires
        0 <= i <= e <= t.len(),
        forall|k: int| i <= k < e ==> is_digit(#[trigger] t[k]),
        e == t.len() || !is_digit(t[e]),
    ensures
        digits_end(t, i) == e,
    decreases e - i,
{
    if i < e {
        assert(is_digit(t[i]));
        lemma_digits_run(t, i + 1, e);
    }
}

/// Infinities and NaNs are numbers in any case, with an optional sign.
pub proof fn names_of_numbers(sign: Seq<char>, t: Seq<char>)
    requires
        sign.len() == 0 || (sign.len() == 1 && (sign[0] == '+' || sign[0] == '-')),
        t == seq!['i', 'n', 'f'] || t == seq!['I', 'N', 'F'] || t == seq!['i', 'n', 'f', 'i', 'n',
            'i', 't', 'y'] || t == seq!['I', 'n', 'f', 'i', 'n', 'i', 't', 'y'] || t == seq!['n', 'a', 'n'] || t
            == seq!['N', 'a', 'N'],
    ensures
        is_float_literal(sign + t),
{
    let u = sign + t;
    if sign.len() == 0 {
        assert(u =~= t);
    } else {
        assert(u[0] == sign[0]);
        assert(u.skip(1) =~= t);
    }
    assert(unsigned(u) =~= t);
}

/// Text that begins with a letter other than those of the names is no number.
pub proof fn other_letters_are_no_numbers(t: Seq<char>)
    requires
        t.len() > 0,
        'a' as u32 <= t[0] as u32 <= 'z' as u32,
        t[0] != 'i' && t[0] != 'n',
    ensures
        !is_float_literal(t),
{
    assert(unsigned(t) == t);
    lemma_digits_run(t, 0, 0);
    assert(lower(t[0]) == t[0] as u32);
    lemma_letters(t[0]);
    lemma_other_first(t, seq!['i', 'n', 'f']);
    lemma_other_first(t, seq!['i', 'n', 'f', 'i', 'n', 'i', 't', 'y']);
    lemma_other_first(t, seq!['n', 'a', 'n']);
}

proof fn lemma_letters(c: char)
    requires
        c != 'i' && c != 'n',
    ensures
        c as u32 != 'i' as u32 && c as u32 != 'n' as u32,
{
}

proof fn lemma_other_first(t: Seq<char>, w: Seq<char>)
    requires
        t.len() > 0,
        w.len() > 0,
        lower(t[0]) != w[0] as u32,
    ensures
        !spells(t, w),
{
}

/// White space beyond ASCII: the next-line character, no-break spaces, the spaces of
/// fixed width, the line and paragraph separators, and the ideographic space.
pub proof fn wide_spaces(c: char)
    requires
        c as u32 > 0x7F,
    ensures
        is_space(c) <==> {
            let n = c as u32;
            ||| n == 0x85 || n == 0xA0 || n == 0x1680
            ||| 0x2000 <= n && n <= 0x200A
            ||| n == 0x2028 || n == 0x2029 || n == 0x202F || n == 0x205F || n == 0x3000
        },
{
}

} // verus!
