//! OBJ structure parsing: the vertex and face records of an OBJ source, read
//! line by line, with the line number of the first malformed record.
//!
//! Vertex coordinates are checked against the decimal floating-point syntax
//! and handed on as text; polygon faces are validated against the vertices
//! read so far and fan-triangulated.

use vstd::prelude::*;

verus! {

/// Why an OBJ source was rejected.
#[derive(Clone, Copy, Debug, PartialEq, Eq, Structural)]
pub enum FormationImportError {
    /// A `v` record without three valid coordinates.
    InvalidVertex { line: usize },
    /// An `f` record with fewer than three valid, in-range vertex indices.
    InvalidFace { line: usize },
    /// The source holds no vertex.
    Empty,
}

/// Unicode `White_Space` characters, the separators of OBJ fields.
pub open spec fn is_whitespace(c: char) -> bool {
    let u = c as u32;
    (0x09 <= u <= 0x0D) || u == 0x20 || u == 0x85 || u == 0xA0 || u == 0x1680 || (0x2000 <= u <= 0x200A) || u
        == 0x2028 || u == 0x2029 || u == 0x202F || u == 0x205F || u == 0x3000
}

pub open spec fn is_digit(c: char) -> bool {
    '0' <= c <= '9'
}

/// The characters that end a run: field separators, line breaks, or the
/// `/` that ends a face vertex index.
pub enum Separator {
    Whitespace,
    Newline,
    Slash,
}

pub open spec fn separates(sep: Separator, c: char) -> bool {
    match sep {
        Separator::Whitespace => is_whitespace(c),
        Separator::Newline => c == '\n',
        Separator::Slash => c == '/',
    }
}

/// Length of the longest prefix of `s` without a `stop` character.
pub open spec fn run_len(s: Seq<char>, stop: Separator) -> int
    decreases s.len(),
{
    if s.len() == 0 || separates(stop, s[0]) {
        0
    } else {
        1 + run_len(s.drop_first(), stop)
    }
}

/// A run is no longer than its text, and non-empty when the text starts
/// outside the stop set.
pub proof fn lemma_run_len_bounds(s: Seq<char>, stop: Separator)
    ensures
        0 <= run_len(s, stop) <= s.len(),
        s.len() > 0 && !separates(stop, s[0]) ==> run_len(s, stop) >= 1,
    decreases s.len(),
{
    if s.len() > 0 && !separates(stop, s[0]) {
        lemma_run_len_bounds(s.drop_first(), stop);
    }
}

/// A run measured directly: `n` characters without `stop`, then the end or
/// a `stop` character.
proof fn lemma_run_len_is(s: Seq<char>, stop: Separator, n: int)
    requires
        0 <= n <= s.len(),
        forall|k: int| 0 <= k < n ==> !separates(stop, #[trigger] s[k]),
        n == s.len() || separates(stop, s[n]),
    ensures
        run_len(s, stop) == n,
    decreases n,
{
    if n > 0 {
        let t = s.drop_first();
        assert forall|k: int| 0 <= k < n - 1 implies !separates(stop, #[trigger] t[k]) by {
            assert(t[k] == s[k + 1]);
        }
        if n - 1 < t.len() {
            assert(t[n - 1] == s[n]);
        }
        lemma_run_len_is(t, stop, n - 1);
    }
}

/// The whitespace-separated fields of a line, in order.
pub open spec fn tokens(s: Seq<char>) -> Seq<Seq<char>>
    decreases s.len(),
{
    if s.len() == 0 {
        seq![]
    } else if is_whitespace(s[0]) {
        tokens(s.drop_first())
    } else {
        let n = run_len(s, Separator::Whitespace);
        proof {
            lemma_run_len_bounds(s, Separator::Whitespace);
        }
        seq![s.take(n)] + tokens(s.skip(n))
    }
}

/// The texts of character ranges of `chars`.
pub open spec fn range_texts(chars: Seq<char>, ranges: Seq<(usize, usize)>) -> Seq<Seq<char>> {
    Seq::new(ranges.len(), |i: int| chars.subrange(ranges[i].0 as int, ranges[i].1 as int))
}

/// Splits `chars[start..end]` into its whitespace-separated fields, as
/// ranges of `chars`.
fn split_fields(chars: &[char], start: usize, end: usize) -> (r: Vec<(usize, usize)>)
    requires
        start <= end <= chars.len(),
    ensures
        range_texts(chars@, r@) == tokens(chars@.subrange(start as int, end as int)),
        forall|i: int| 0 <= i < r.len() ==> start <= #[trigger] r@[i].0 < r@[i].1 <= end,
{

    let mut ranges: Vec<(usize, usize)> = Vec::new();
    let mut p = start;
    while p < end
        invariant
            start <= p <= end <= chars.len(),
            tokens(chars@.subrange(start as int, end as int)) == range_texts(chars@, ranges@) + tokens(
                chars@.subrange(p as int, end as int),
            ),
            forall|i: int| 0 <= i < ranges.len() ==> start <= #[trigger] ranges@[i].0 < ranges@[i].1 <= end,
        decreases end - p,
    {
        let ghost rest = chars@.subrange(p as int, end as int);
        if is_whitespace_char(chars[p]) {
            assert(rest.drop_first() =~= chars@.subrange(p + 1, end as int));
            p = p + 1;
        } else {
            let mut q = p + 1;
            while q < end && !is_whitespace_char(chars[q])
                invariant
                    p < q <= end <= chars.len(),
                    forall|k: int| p <= k < q ==> !is_whitespace(#[trigger] chars@[k]),
                decreases end - q,
            {
                q = q + 1;
            }
            proof {
                assert forall|k: int| 0 <= k < q - p implies !separates(Separator::Whitespace, #[trigger] rest[k]) by {
                    assert(rest[k] == chars@[p + k]);
                }
                if q < end {
                    assert(rest[q - p] == chars@[q as int]);
                }
                lemma_run_len_is(rest, Separator::Whitespace, q - p);
                assert(rest.take(q - p) =~= chars@.subrange(p as int, q as int));
                assert(rest.skip(q - p) =~= chars@.subrange(q as int, end as int));
                let before = range_texts(chars@, ranges@);
                let after = range_texts(chars@, ranges@.push((p, q)));
                assert(after =~= before.push(chars@.subrange(p as int, q as int)));
                assert(before + tokens(rest) =~= after + tokens(chars@.subrange(q as int, end as int)));
            }
            ranges.push((p, q));
            p = q;
        }
    }
    proof {
        assert(chars@.subrange(p as int, end as int) =~= Seq::<char>::empty());
        assert(range_texts(chars@, ranges@) + tokens(chars@.subrange(p as int, end as int)) =~= range_texts(
            chars@,
            ranges@,
        ));
    }
    ranges
}

fn is_whitespace_char(c: char) -> (r: bool)
    ensures
        r == is_whitespace(c),
{
    let u = c as u32;
    (0x09 <= u && u <= 0x0D) || u == 0x20 || u == 0x85 || u == 0xA0 || u == 0x1680 || (0x2000 <= u && u
        <= 0x200A) || u == 0x2028 || u == 0x2029 || u == 0x202F || u == 0x205F || u == 0x3000
}

/// ASCII upper-case letters folded to lower case.
pub open spec fn lower(c: char) -> char {
    if 'A' <= c <= 'Z' { ((c as u32) + 32) as char } else { c }
}

/// `t` spells the lower-case word `w`, ignoring ASCII case.
pub open spec fn spells(t: Seq<char>, w: Seq<char>) -> bool {
    t.len() == w.len() && forall|i: int| 0 <= i < t.len() ==> lower(#[trigger] t[i]) == w[i]
}

pub open spec fn is_sign(c: char) -> bool {
    c == '+' || c == '-'
}

/// A literal without its optional leading sign.
pub open spec fn unsigned_part(t: Seq<char>) -> Seq<char> {
    if t.len() > 0 && is_sign(t[0]) { t.drop_first() } else { t }
}

/// `Digit+ | Digit+ '.' Digit* | Digit* '.' Digit+`: digits with at most
/// one decimal point and at least one digit.
pub open spec fn is_mantissa(m: Seq<char>) -> bool {
    &&& forall|i: int| 0 <= i < m.len() ==> is_digit(#[trigger] m[i]) || m[i] == '.'
    &&& forall|i: int, j: int| 0 <= i < j < m.len() && #[trigger] m[i] == '.' ==> #[trigger] m[j] != '.'
    &&& exists|i: int| 0 <= i < m.len() && is_digit(#[trigger] m[i])
}

/// `'e' Sign? Digit+`, the `e` in either case.
pub open spec fn is_exponent(e: Seq<char>) -> bool {
    &&& e.len() >= 2
    &&& (e[0] == 'e' || e[0] == 'E')
    &&& exponent_digits(e).len() >= 1
    &&& all_digits(exponent_digits(e))
}

/// The digits of an exponent, after the `e` and the optional sign.
pub open spec fn exponent_digits(e: Seq<char>) -> Seq<char> {
    if is_sign(e[1]) { e.skip(2) } else { e.skip(1) }
}

pub open spec fn all_digits(s: Seq<char>) -> bool {
    forall|i: int| 0 <= i < s.len() ==> is_digit(#[trigger] s[i])
}

/// `Number ::= Mantissa Exp?`.
pub open spec fn is_decimal(b: Seq<char>) -> bool {
    exists|k: int| 0 <= k <= b.len() && #[trigger] is_mantissa(b.take(k)) && (k == b.len() || is_exponent(b.skip(k)))
}

/// The text is accepted by `f32::from_str`:
/// `Sign? ('inf' | 'infinity' | 'nan' | Number)`, letters in either case.
pub open spec fn is_float_literal(t: Seq<char>) -> bool {
    let b = unsigned_part(t);
    spells(b, seq!['i', 'n', 'f']) || spells(b, seq!['i', 'n', 'f', 'i', 'n', 'i', 't', 'y']) || spells(
        b,
        seq!['n', 'a', 'n'],
    ) || is_decimal(b)
}

fn is_digit_char(c: char) -> (r: bool)
    ensures
        r == is_digit(c),
{
    '0' <= c && c <= '9'
}

/// Whether `chars[a..b]` spells the lower-case word `w`, ignoring ASCII case.
fn spells_at(chars: &[char], a: usize, b: usize, w: &[char]) -> (r: bool)
    requires
        a <= b <= chars.len(),
        forall|i: int| 0 <= i < w.len() ==> 'a' <= #[trigger] w@[i] <= 'z',
    ensures
        r == spells(chars@.subrange(a as int, b as int), w@),
{
    if b - a != w.len() {
        return false;
    }
    let ghost t = chars@.subrange(a as int, b as int);
    let mut i: usize = 0;
    while i < w.len()
        invariant
            b - a == w.len(),
            a <= b <= chars.len(),
            t == chars@.subrange(a as int, b as int),
            forall|k: int| 0 <= k < w.len() ==> 'a' <= #[trigger] w@[k] <= 'z',
            0 <= i <= w.len(),
            forall|k: int| 0 <= k < i ==> lower(#[trigger] t[k]) == w@[k],
        decreases w.len() - i,
    {
        let c = chars[a + i];
        let target = w[i];
        assert(t[i as int] == c);
        if !(c == target || (c as u32) == (target as u32) - 32) {
            assert(lower(t[i as int]) != w@[i as int]);
            return false;
        }
        i = i + 1;
    }
    true
}

/// Whether `chars[a..b]` is a mantissa.
fn mantissa_at(chars: &[char], a: usize, b: usize) -> (r: bool)
    requires
        a <= b <= chars.len(),
    ensures
        r == is_mantissa(chars@.subrange(a as int, b as int)),
{
    let ghost m = chars@.subrange(a as int, b as int);
    let mut seen_point = false;
    let mut seen_digit = false;
    let mut i = a;
    while i < b
        invariant
            a <= i <= b <= chars.len(),
            m == chars@.subrange(a as int, b as int),
            forall|k: int| 0 <= k < i - a ==> is_digit(#[trigger] m[k]) || m[k] == '.',
            forall|k: int, l: int| 0 <= k < l < i - a && #[trigger] m[k] == '.' ==> #[trigger] m[l] != '.',
            seen_point <==> exists|k: int| 0 <= k < i - a && #[trigger] m[k] == '.',
            seen_digit <==> exists|k: int| 0 <= k < i - a && is_digit(#[trigger] m[k]),
        decreases b - i,
    {
        let c = chars[i];
        assert(m[i - a] == c);
        if c == '.' {
            if seen_point {
                let ghost k = choose|k: int| 0 <= k < i - a && #[trigger] m[k] == '.';
                assert(m[k] == '.' && m[i - a] == '.');
                return false;
            }
            seen_point = true;
        } else if is_digit_char(c) {
            seen_digit = true;
        } else {
            return false;
        }
        i = i + 1;
    }
    seen_digit
}

/// Whether `chars[a..b]` is an exponent.
fn exponent_at(chars: &[char], a: usize, b: usize) -> (r: bool)
    requires
        a <= b <= chars.len(),
    ensures
        r == is_exponent(chars@.subrange(a as int, b as int)),
{
    let ghost e = chars@.subrange(a as int, b as int);
    if b - a < 2 || !(chars[a] == 'e' || chars[a] == 'E') {
        return false;
    }
    let start = if chars[a + 1] == '+' || chars[a + 1] == '-' { a + 2 } else { a + 1 };
    let ghost d = exponent_digits(e);
    assert(d =~= chars@.subrange(start as int, b as int));
    if start == b {
        return false;
    }
    let mut i = start;
    while i < b
        invariant
            start <= i <= b <= chars.len(),
            d == chars@.subrange(start as int, b as int),
            e == chars@.subrange(a as int, b as int),
            e.len() >= 2,
            e[0] == 'e' || e[0] == 'E',
            d == exponent_digits(e),
            d.len() >= 1,
            forall|k: int| 0 <= k < i - start ==> is_digit(#[trigger] d[k]),
        decreases b - i,
    {
        assert(d[i - start] == chars@[i as int]);
        if !is_digit_char(chars[i]) {
            assert(!is_digit(d[i - start]));
            return false;
        }
        i = i + 1;
    }
    true
}

/// Whether `chars[a..b]` is accepted by `f32::from_str`.
fn float_literal_at(chars: &[char], a: usize, b: usize) -> (r: bool)
    requires
        a <= b <= chars.len(),
    ensures
        r == is_float_literal(chars@.subrange(a as int, b as int)),
{
    let ghost t = chars@.subrange(a as int, b as int);
    let start = if a < b && (chars[a] == '+' || chars[a] == '-') { a + 1 } else { a };
    let ghost body = unsigned_part(t);
    assert(body =~= chars@.subrange(start as int, b as int));
    let inf = ['i', 'n', 'f'];
    let infinity = ['i', 'n', 'f', 'i', 'n', 'i', 't', 'y'];
    let nan = ['n', 'a', 'n'];
    assert(inf@ =~= seq!['i', 'n', 'f']);
    assert(infinity@ =~= seq!['i', 'n', 'f', 'i', 'n', 'i', 't', 'y']);
    assert(nan@ =~= seq!['n', 'a', 'n']);
    if spells_at(chars, start, b, &inf) || spells_at(chars, start, b, &infinity) || spells_at(chars, start, b, &nan) {
        return true;
    }
    let mut k = start;
    while k < b && !(chars[k] == 'e' || chars[k] == 'E')
        invariant
            start <= k <= b <= chars.len(),
            forall|j: int| start <= j < k ==> #[trigger] chars@[j] != 'e' && chars@[j] != 'E',
        decreases b - k,
    {
        k = k + 1;
    }
    let decimal = mantissa_at(chars, start, k) && (k == b || exponent_at(chars, k, b));
    proof {
        let split = k - start;
        assert(body.take(split) =~= chars@.subrange(start as int, k as int));
        assert(body.skip(split) =~= chars@.subrange(k as int, b as int));
        if decimal {
            assert(is_mantissa(body.take(split)));
        } else {
            assert forall|j: int| 0 <= j <= body.len() implies !(#[trigger] is_mantissa(body.take(j)) && (j == body.len()
                || is_exponent(body.skip(j)))) by {
                if j < split {
                    let e = body.skip(j);
                    assert(e[0] == chars@[start + j]);
                } else if j > split {
                    let m = body.take(j);
                    assert(m[split] == chars@[k as int]);
                    assert(!(is_digit(m[split]) || m[split] == '.'));
                }
            }
        }
    }
    decimal
}

/// The index text of a face field: the part before the first `/`, without
/// a leading `+`.
pub open spec fn reference_digits(t: Seq<char>) -> Seq<char> {
    let p = t.take(run_len(t, Separator::Slash));
    if p.len() > 0 && p[0] == '+' { p.drop_first() } else { p }
}

/// Value of a decimal digit string.
pub open spec fn digits_value(d: Seq<char>) -> int
    decreases d.len(),
{
    if d.len() == 0 {
        0
    } else {
        digits_value(d.drop_last()) * 10 + (d.last() as int - '0' as int)
    }
}

/// A face field names (1-based, as `usize::from_str` reads it) one of the
/// first `vertex_count` vertices.
pub open spec fn is_vertex_reference(t: Seq<char>, vertex_count: int) -> bool {
    let d = reference_digits(t);
    d.len() >= 1 && all_digits(d) && 1 <= digits_value(d) <= vertex_count
}

/// The 0-based vertex a face field names.
pub open spec fn vertex_reference(t: Seq<char>) -> int {
    digits_value(reference_digits(t)) - 1
}

proof fn lemma_digits_value_grows(d: Seq<char>, k: int)
    requires
        0 <= k <= d.len(),
        all_digits(d),
    ensures
        0 <= digits_value(d.take(k)) <= digits_value(d),
    decreases d.len(),
{
    if d.len() > 0 {
        if k == d.len() {
            assert(d.take(k) =~= d);
            lemma_digits_value_grows(d.drop_last(), k - 1);
        } else {
            assert(d.take(k) =~= d.drop_last().take(k));
            lemma_digits_value_grows(d.drop_last(), k);
        }
        assert(all_digits(d.drop_last()));
        lemma_digits_value_grows(d.drop_last(), d.len() - 1);
        assert(d.drop_last().take(d.len() - 1) =~= d.drop_last());
    } else {
        assert(d.take(k) =~= d);
    }
}

/// The 0-based vertex that face field `chars[a..b]` names, if it names one
/// of the first `vertex_count` vertices.
fn vertex_reference_at(chars: &[char], a: usize, b: usize, vertex_count: usize) -> (r: Option<usize>)
    requires
        a <= b <= chars.len(),
    ensures
        r is Some <==> is_vertex_reference(chars@.subrange(a as int, b as int), vertex_count as int),
        r matches Some(i) ==> i == vertex_reference(chars@.subrange(a as int, b as int)),
{
    let ghost t = chars@.subrange(a as int, b as int);
    let mut s = a;
    while s < b && chars[s] != '/'
        invariant
            a <= s <= b <= chars.len(),
            forall|k: int| a <= k < s ==> #[trigger] chars@[k] != '/',
        decreases b - s,
    {
        s = s + 1;
    }
    proof {
        assert forall|k: int| 0 <= k < s - a implies !separates(Separator::Slash, #[trigger] t[k]) by {
            assert(t[k] == chars@[a + k]);
        }
        if s < b {
            assert(t[s - a] == chars@[s as int]);
        }
        lemma_run_len_is(t, Separator::Slash, s - a);
    }
    let mut i = a;
    if i < s && chars[i] == '+' {
        i = i + 1;
    }
    let ghost d = reference_digits(t);
    assert(d =~= chars@.subrange(i as int, s as int));
    if i == s {
        return None;
    }
    let mut value: usize = 0;
    let mut j = i;
    while j < s
        invariant
            i <= j <= s <= b <= chars.len(),
            t == chars@.subrange(a as int, b as int),
            d == reference_digits(t),
            d == chars@.subrange(i as int, s as int),
            all_digits(d.take(j - i)),
            value == digits_value(d.take(j - i)),
        decreases s - j,
    {
        let c = chars[j];
        assert(d[j - i] == c);
        assert(d.take(j - i + 1).drop_last() =~= d.take(j - i));
        if !is_digit_char(c) {
            assert(!is_digit(d[j - i]));
            return None;
        }
        let digit = (c as u32 - '0' as u32) as usize;
        assert(digits_value(d.take(j - i + 1)) == value * 10 + digit);
        match value.checked_mul(10) {
            None => {
                proof {
                    if all_digits(d) {
                        lemma_digits_value_grows(d, j - i + 1);
                    }
                }
                return None;
            },
            Some(scaled) => match scaled.checked_add(digit) {
                None => {
                    proof {
                        if all_digits(d) {
                            lemma_digits_value_grows(d, j - i + 1);
                        }
                    }
                    return None;
                },
                Some(next) => {
                    value = next;
                },
            },
        }
        assert(all_digits(d.take(j - i + 1)));
        j = j + 1;
    }
    assert(d.take(j - i) =~= d);
    if 1 <= value && value <= vertex_count {
        Some(value - 1)
    } else {
        None
    }
}

/// One vertex record in the model: its line and coordinate fields.
pub struct VertexRecord {
    pub line: int,
    pub x: Seq<char>,
    pub y: Seq<char>,
    pub z: Seq<char>,
}

/// The records read from an OBJ source.
pub struct ObjModel {
    pub vertices: Seq<VertexRecord>,
    pub triangles: Seq<(usize, usize, usize)>,
}

/// A `v` record: the line it stands on and its three coordinate fields,
/// each accepted by `f32::from_str`.
pub struct ObjVertex {
    pub line: usize,
    pub x: Vec<char>,
    pub y: Vec<char>,
    pub z: Vec<char>,
}

/// Vertex records and fan-triangulated faces (0-based vertex indices) of an
/// OBJ source.
pub struct ObjStructure {
    pub vertices: Vec<ObjVertex>,
    pub triangles: Vec<(usize, usize, usize)>,
}

pub open spec fn vertex_record(v: ObjVertex) -> VertexRecord {
    VertexRecord { line: v.line as int, x: v.x@, y: v.y@, z: v.z@ }
}

pub open spec fn model_of(vertices: Seq<ObjVertex>, triangles: Seq<(usize, usize, usize)>) -> ObjModel {
    ObjModel { vertices: vertices.map_values(|v: ObjVertex| vertex_record(v)), triangles }
}

impl View for ObjStructure {
    type V = ObjModel;

    open spec fn view(&self) -> ObjModel {
        model_of(self.vertices@, self.triangles@)
    }
}

/// Fan triangulation of a face record's fields (field 0 is `f`).
pub open spec fn fan(fields: Seq<Seq<char>>) -> Seq<(usize, usize, usize)> {
    Seq::new(
        (fields.len() - 3) as nat,
        |i: int|
            (
                vertex_reference(fields[1]) as usize,
                vertex_reference(fields[i + 2]) as usize,
                vertex_reference(fields[i + 3]) as usize,
            ),
    )
}

/// Reads line `number` into the model: `v` needs three coordinates, `f`
/// needs at least three references to vertices already read, anything else
/// is skipped.
pub open spec fn read_line(m: ObjModel, line: Seq<char>, number: int) -> Result<ObjModel, FormationImportError> {
    let fields = tokens(line);
    if fields.len() == 0 {
        Ok(m)
    } else if fields[0] == seq!['v'] {
        if fields.len() >= 4 && is_float_literal(fields[1]) && is_float_literal(fields[2]) && is_float_literal(
            fields[3],
        ) {
            Ok(
                ObjModel {
                    vertices: m.vertices.push(VertexRecord { line: number, x: fields[1], y: fields[2], z: fields[3] }),
                    ..m
                },
            )
        } else {
            Err(FormationImportError::InvalidVertex { line: number as usize })
        }
    } else if fields[0] == seq!['f'] {
        if fields.len() >= 4 && forall|i: int|
            1 <= i < fields.len() ==> #[trigger] is_vertex_reference(fields[i], m.vertices.len() as int) {
            Ok(ObjModel { triangles: m.triangles + fan(fields), ..m })
        } else {
            Err(FormationImportError::InvalidFace { line: number as usize })
        }
    } else {
        Ok(m)
    }
}

/// Reads the lines of `s` (split at `\n`), the first one being line
/// `number`, stopping at the first malformed record.
pub open spec fn read_from(s: Seq<char>, m: ObjModel, number: int) -> Result<ObjModel, FormationImportError>
    decreases s.len(),
{
    if s.len() == 0 {
        Ok(m)
    } else {
        let n = run_len(s, Separator::Newline);
        proof {
            lemma_run_len_bounds(s, Separator::Newline);
        }
        match read_line(m, s.take(n), number) {
            Err(e) => Err(e),
            Ok(next) => if n < s.len() {
                read_from(s.skip(n + 1), next, number + 1)
            } else {
                Ok(next)
            },
        }
    }
}

/// An OBJ source read from line 1; a source without vertices is empty.
pub open spec fn parse_obj_spec(s: Seq<char>) -> Result<ObjModel, FormationImportError> {
    match read_from(s, ObjModel { vertices: seq![], triangles: seq![] }, 1) {
        Err(e) => Err(e),
        Ok(m) => if m.vertices.len() == 0 {
            Err(FormationImportError::Empty)
        } else {
            Ok(m)
        },
    }
}

fn copy_range(chars: &[char], a: usize, b: usize) -> (r: Vec<char>)
    requires
        a <= b <= chars.len(),
    ensures
        r@ == chars@.subrange(a as int, b as int),
{
    let mut out: Vec<char> = Vec::new();
    let mut i = a;
    while i < b
        invariant
            a <= i <= b <= chars.len(),
            out@ == chars@.subrange(a as int, i as int),
        decreases b - i,
    {
        out.push(chars[i]);
        i = i + 1;
        assert(out@ =~= chars@.subrange(a as int, i as int));
    }
    out
}

fn field_is(chars: &[char], field: (usize, usize), letter: char) -> (r: bool)
    requires
        field.0 <= field.1 <= chars.len(),
    ensures
        r == (chars@.subrange(field.0 as int, field.1 as int) == seq![letter]),
{
    let r = field.1 - field.0 == 1 && chars[field.0] == letter;
    if field.1 - field.0 == 1 {
        assert(chars@.subrange(field.0 as int, field.1 as int) =~= seq![chars@[field.0 as int]]);
        proof {
            if chars@.subrange(field.0 as int, field.1 as int) == seq![letter] {
                assert(seq![chars@[field.0 as int]][0] == seq![letter][0]);
            }
        }
    } else {
        assert(chars@.subrange(field.0 as int, field.1 as int).len() != seq![letter].len());
    }
    r
}

/// Reads the line `chars[start..end]`, which is line `number`, into the
/// vertices and triangles read so far.
fn read_obj_line(
    chars: &[char],
    start: usize,
    end: usize,
    number: usize,
    vertices: &mut Vec<ObjVertex>,
    triangles: &mut Vec<(usize, usize, usize)>,
) -> (r: Result<(), FormationImportError>)
    requires
        start <= end <= chars.len(),
    ensures
        match read_line(model_of(old(vertices)@, old(triangles)@), chars@.subrange(start as int, end as int), number as int) {
            Ok(m) => r is Ok && model_of(final(vertices)@, final(triangles)@) == m,
            Err(e) => r == Err::<(), FormationImportError>(e),
        },
{
    let ghost m = model_of(vertices@, triangles@);
    let ghost line = chars@.subrange(start as int, end as int);
    let fields = split_fields(chars, start, end);
    let ghost texts = tokens(line);
    assert(texts == range_texts(chars@, fields@));
    if fields.len() == 0 {
        return Ok(());
    }
    assert(texts[0] == chars@.subrange(fields@[0].0 as int, fields@[0].1 as int));
    if field_is(chars, fields[0], 'v') {
        if fields.len() >= 4 {
            assert(texts[1] == chars@.subrange(fields@[1].0 as int, fields@[1].1 as int));
            assert(texts[2] == chars@.subrange(fields@[2].0 as int, fields@[2].1 as int));
            assert(texts[3] == chars@.subrange(fields@[3].0 as int, fields@[3].1 as int));
            let (x0, x1) = fields[1];
            let (y0, y1) = fields[2];
            let (z0, z1) = fields[3];
            if float_literal_at(chars, x0, x1) && float_literal_at(chars, y0, y1) && float_literal_at(chars, z0, z1) {
                let vertex = ObjVertex {
                    line: number,
                    x: copy_range(chars, x0, x1),
                    y: copy_range(chars, y0, y1),
                    z: copy_range(chars, z0, z1),
                };
                vertices.push(vertex);
                assert(model_of(vertices@, triangles@).vertices =~= m.vertices.push(
                    VertexRecord { line: number as int, x: texts[1], y: texts[2], z: texts[3] },
                ));
                return Ok(());
            }
        }
        return Err(FormationImportError::InvalidVertex { line: number });
    }
    if field_is(chars, fields[0], 'f') {
        if fields.len() < 4 {
            return Err(FormationImportError::InvalidFace { line: number });
        }
        let vertex_count = vertices.len();
        let mut references: Vec<usize> = Vec::new();
        let mut k: usize = 1;
        while k < fields.len()
            invariant
                fields.len() >= 4,
                m == model_of(vertices@, triangles@),
                m == model_of(old(vertices)@, old(triangles)@),
                line == chars@.subrange(start as int, end as int),
                texts == tokens(line),
                texts[0] == seq!['f'],
                texts[0] != seq!['v'],
                texts == range_texts(chars@, fields@),
                texts.len() == fields.len(),
                forall|i: int| 0 <= i < fields.len() ==> #[trigger] fields@[i].0 < fields@[i].1 <= chars.len(),
                vertex_count == m.vertices.len(),
                1 <= k <= fields.len(),
                references.len() == k - 1,
                forall|i: int| 1 <= i < k ==> #[trigger] is_vertex_reference(texts[i], vertex_count as int),
                forall|i: int| 1 <= i < k ==> references@[i - 1] == vertex_reference(#[trigger] texts[i]),
            decreases fields.len() - k,
        {
            let (f0, f1) = fields[k];
            assert(texts[k as int] == chars@.subrange(f0 as int, f1 as int));
            match vertex_reference_at(chars, f0, f1, vertex_count) {
                Some(index) => {
                    references.push(index);
                },
                None => {
                    assert(!is_vertex_reference(texts[k as int], m.vertices.len() as int));
                    return Err(FormationImportError::InvalidFace { line: number });
                },
            }
            k = k + 1;
        }
        let ghost before = triangles@;
        let mut i: usize = 0;
        while i + 3 < fields.len()
            invariant
                fields.len() >= 4,
                m == model_of(vertices@, before),
                m == model_of(old(vertices)@, old(triangles)@),
                line == chars@.subrange(start as int, end as int),
                texts == tokens(line),
                texts[0] == seq!['f'],
                texts[0] != seq!['v'],
                vertex_count == m.vertices.len(),
                references.len() == fields.len() - 1,
                texts.len() == fields.len(),
                forall|j: int| 1 <= j < fields.len() ==> references@[j - 1] == vertex_reference(#[trigger] texts[j]),
                forall|j: int| 1 <= j < fields.len() ==> #[trigger] is_vertex_reference(texts[j], vertex_count as int),
                0 <= i <= fields.len() - 3,
                triangles@ == before + fan(texts).take(i as int),
            decreases fields.len() - i,
        {
            let triangle = (references[0], references[i + 1], references[i + 2]);
            triangles.push(triangle);
            assert(fan(texts).take(i + 1) =~= fan(texts).take(i as int).push(triangle));
            i = i + 1;
        }
        assert(fan(texts).take(i as int) =~= fan(texts));
        return Ok(());
    }
    Ok(())
}

/// Every triangle index names one of the vertices.
pub open spec fn triangles_in_range(m: ObjModel) -> bool {
    forall|i: int|
        0 <= i < m.triangles.len() ==> (#[trigger] m.triangles[i]).0 < m.vertices.len() && m.triangles[i].1
            < m.vertices.len() && m.triangles[i].2 < m.vertices.len()
}

proof fn lemma_read_line_keeps_triangles_in_range(m: ObjModel, line: Seq<char>, number: int)
    requires
        triangles_in_range(m),
    ensures
        read_line(m, line, number) matches Ok(next) ==> triangles_in_range(next) && next.vertices.len()
            >= m.vertices.len(),
{
    let fields = tokens(line);
    if fields.len() > 0 && fields[0] != seq!['v'] && fields[0] == seq!['f'] && fields.len() >= 4 && forall|i: int|
        1 <= i < fields.len() ==> #[trigger] is_vertex_reference(fields[i], m.vertices.len() as int) {
        let next = ObjModel { triangles: m.triangles + fan(fields), ..m };
        assert forall|i: int| 0 <= i < next.triangles.len() implies (#[trigger] next.triangles[i]).0 < next.vertices.len()
            && next.triangles[i].1 < next.vertices.len() && next.triangles[i].2 < next.vertices.len() by {
            if i >= m.triangles.len() {
                let j = i - m.triangles.len();
                assert(is_vertex_reference(fields[1], m.vertices.len() as int));
                assert(is_vertex_reference(fields[j + 2], m.vertices.len() as int));
                assert(is_vertex_reference(fields[j + 3], m.vertices.len() as int));
            }
        }
    }
}

proof fn lemma_read_from_keeps_triangles_in_range(s: Seq<char>, m: ObjModel, number: int)
    requires
        triangles_in_range(m),
    ensures
        read_from(s, m, number) matches Ok(r) ==> triangles_in_range(r),
    decreases s.len(),
{
    if s.len() > 0 {
        let n = run_len(s, Separator::Newline);
        lemma_run_len_bounds(s, Separator::Newline);
        lemma_read_line_keeps_triangles_in_range(m, s.take(n), number);
        if let Ok(next) = read_line(m, s.take(n), number) {
            if n < s.len() {
                lemma_read_from_keeps_triangles_in_range(s.skip(n + 1), next, number + 1);
            }
        }
    }
}

/// Every triangle of a parsed source references one of its vertices, so a
/// Scientific notation as `f32::from_str` reads it: digits, then `e` or
/// `E`, then an optional `+` or `-`, then at least one digit, with an
/// optional leading sign on the whole number. So `1.5e+00`, `2E-3` and
/// `-7e10` are coordinates.
pub proof fn lemma_scientific_notation_is_a_float(sign: Seq<char>, mantissa: Seq<char>, marker: char, exp_sign: Seq<char>, digits: Seq<char>)
    requires
        sign.len() == 0 || (sign.len() == 1 && (sign[0] == '+' || sign[0] == '-')),
        is_mantissa(mantissa),
        marker == 'e' || marker == 'E',
        exp_sign.len() == 0 || (exp_sign.len() == 1 && (exp_sign[0] == '+' || exp_sign[0] == '-')),
        digits.len() >= 1,
        forall|i: int| 0 <= i < digits.len() ==> '0' <= #[trigger] digits[i] <= '9',
    ensures
        is_exponent(seq![marker] + exp_sign + digits),
        is_float_literal(sign + mantissa + seq![marker] + exp_sign + digits),
{
    let e = seq![marker] + exp_sign + digits;
    assert(e[0] == marker);
    if exp_sign.len() == 1 {
        assert(e[1] == exp_sign[0]);
        assert(exponent_digits(e) =~= digits);
    } else {
        assert(e[1] == digits[0]);
        assert(exponent_digits(e) =~= digits);
    }
    assert forall|i: int| 0 <= i < digits.len() implies is_digit(#[trigger] digits[i]) by {
        assert('0' <= digits[i] <= '9');
    }
    let t = sign + mantissa + e;
    assert(sign + mantissa + seq![marker] + exp_sign + digits =~= t);
    let b = mantissa + e;
    assert(unsigned_part(t) =~= b) by {
        if sign.len() == 1 {
            assert(t[0] == sign[0]);
        } else {
            assert(t =~= b);
            assert(mantissa.len() >= 1);
            assert(is_digit(mantissa[0]) || mantissa[0] == '.');
            assert(t[0] == mantissa[0]);
        }
    }
    assert(b.take(mantissa.len() as int) =~= mantissa);
    assert(b.skip(mantissa.len() as int) =~= e);
    assert(is_mantissa(b.take(mantissa.len() as int)));
    assert(is_decimal(b));
}

/// surface sampler can index the vertex list without a bounds failure.
pub proof fn lemma_parsed_triangles_reference_vertices(s: Seq<char>)
    ensures
        parse_obj_spec(s) matches Ok(m) ==> m.vertices.len() >= 1 && triangles_in_range(m),
{
    let start = ObjModel { vertices: seq![], triangles: seq![] };
    lemma_read_from_keeps_triangles_in_range(s, start, 1);
}

fn to_chars(source: &str) -> (r: Vec<char>)
    ensures
        r@ == source@,
{
    let mut chars: Vec<char> = Vec::new();
    for c in it: source.chars()
        invariant
            chars@ == it.seq().take(it.index() as int),
    {
        chars.push(c);
    }
    chars
}

/// Reads the vertex and face records of an OBJ source, line by line, and
/// reports the first malformed record (by its 1-based line) or a source
/// without vertices.
pub fn parse_obj(source: &str) -> (r: Result<ObjStructure, FormationImportError>)
    ensures
        match r {
            Ok(structure) => parse_obj_spec(source@) == Ok::<ObjModel, FormationImportError>(structure@),
            Err(e) => parse_obj_spec(source@) == Err::<ObjModel, FormationImportError>(e),
        },
{
    let chars = to_chars(source);
    let mut vertices: Vec<ObjVertex> = Vec::new();
    let mut triangles: Vec<(usize, usize, usize)> = Vec::new();
    let ghost start_model = ObjModel { vertices: seq![], triangles: seq![] };
    assert(model_of(vertices@, triangles@).vertices =~= start_model.vertices);
    assert(model_of(vertices@, triangles@).triangles =~= start_model.triangles);
    assert(chars@.skip(0) =~= chars@);
    let mut pos: usize = 0;
    let mut line_index: usize = 0;
    while pos < chars.len()
        invariant
            chars@ == source@,
            start_model == (ObjModel { vertices: seq![], triangles: seq![] }),
            pos <= chars.len(),
            line_index <= pos,
            read_from(chars@, start_model, 1) == read_from(
                chars@.skip(pos as int),
                model_of(vertices@, triangles@),
                line_index + 1,
            ),
        decreases chars.len() - pos,
    {
        let number = line_index + 1;
        let mut end = pos;
        while end < chars.len() && chars[end] != '\n'
            invariant
                pos <= end <= chars.len(),
                forall|k: int| pos <= k < end ==> #[trigger] chars@[k] != '\n',
            decreases chars.len() - end,
        {
            end = end + 1;
        }
        let ghost rest = chars@.skip(pos as int);
        let ghost before = model_of(vertices@, triangles@);
        proof {
            assert forall|k: int| 0 <= k < end - pos implies !separates(Separator::Newline, #[trigger] rest[k]) by {
                assert(rest[k] == chars@[pos + k]);
            }
            if end < chars.len() {
                assert(rest[end - pos] == chars@[end as int]);
            }
            lemma_run_len_is(rest, Separator::Newline, end - pos);
            assert(rest.take(end - pos) =~= chars@.subrange(pos as int, end as int));
            if end < chars.len() {
                assert(rest.skip(end - pos + 1) =~= chars@.skip(end + 1));
            }
        }
        match read_obj_line(&chars, pos, end, number, &mut vertices, &mut triangles) {
            Err(e) => {
                assert(rest.len() > 0);
                assert(read_line(before, rest.take(run_len(rest, Separator::Newline)), number as int) == Err::<ObjModel, FormationImportError>(e));
                assert(read_from(rest, before, number as int) == Err::<ObjModel, FormationImportError>(e));
                assert(read_from(chars@, start_model, 1) == Err::<ObjModel, FormationImportError>(e));
                assert(parse_obj_spec(source@) == Err::<ObjModel, FormationImportError>(e));
                return Err(e);
            },
            Ok(()) => {},
        }
        if end < chars.len() {
            pos = end + 1;
            line_index = line_index + 1;
        } else {
            pos = end;
            assert(chars@.skip(pos as int) =~= Seq::<char>::empty());
        }
    }
    assert(chars@.skip(pos as int) =~= Seq::<char>::empty());
    if vertices.len() == 0 {
        return Err(FormationImportError::Empty);
    }
    Ok(ObjStructure { vertices, triangles })
}

} // verus!
