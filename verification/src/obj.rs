//! Reading triangle meshes from the text format of vertex, texture
//! coordinate, normal and face statements, one statement per line.

use crate::error::ConfigError;
use crate::text::{
    chars_of, fields, index_at, index_or_zero, is_number, number_at, ranges_within, slices,
    split_fields, split_words, words,
};
use vstd::prelude::*;
use vstd::string::StrSliceExecFns;
use vstd::string::StringExecFns;

verus! {

/// One corner of a face: the indices of its vertex, of its texture
/// coordinate and of its normal. Indices count from 1, and 0 stands for "not
/// given".
#[derive(Clone, Copy, Debug, PartialEq, Eq, Structural)]
pub struct FaceIdx {
    pub vert_idx: usize,
    pub uv_idx: usize,
    pub normal_idx: usize,
}

/// The corner that a list of indices describes: the first is the vertex,
/// the second the texture coordinate, the third the normal. An index that
/// the list does not reach is 0.
pub open spec fn face_idx_of(v: Seq<usize>) -> FaceIdx {
    FaceIdx {
        vert_idx: if v.len() >= 1 {
            v[0]
        } else {
            0
        },
        uv_idx: if v.len() >= 2 {
            v[1]
        } else {
            0
        },
        normal_idx: if v.len() >= 3 {
            v[2]
        } else {
            0
        },
    }
}

impl From<Vec<usize>> for FaceIdx {
    fn from(value: Vec<usize>) -> (r: Self) {
        let vert_idx: usize = if value.len() >= 1 {
            value[0]
        } else {
            0
        };
        let uv_idx: usize = if value.len() >= 2 {
            value[1]
        } else {
            0
        };
        let normal_idx: usize = if value.len() >= 3 {
            value[2]
        } else {
            0
        };
        FaceIdx { vert_idx, uv_idx, normal_idx }
    }
}

impl vstd::std_specs::convert::FromSpecImpl<Vec<usize>> for FaceIdx {
    open spec fn obeys_from_spec() -> bool {
        true
    }

    open spec fn from_spec(v: Vec<usize>) -> Self {
        face_idx_of(v@)
    }
}

/// One face: its corners, in the order in which the statement lists them.
pub struct FaceInfo {
    pub verts: Vec<FaceIdx>,
}

impl View for FaceInfo {
    type V = Seq<FaceIdx>;

    open spec fn view(&self) -> Seq<FaceIdx> {
        self.verts@
    }
}

/// A real number as a mesh file writes it. The text is kept as written; it
/// always satisfies [`is_number`].
pub struct Number {
    text: String,
}

impl View for Number {
    type V = Seq<char>;

    closed spec fn view(&self) -> Seq<char> {
        self.text@
    }
}

impl Number {
    #[verifier::type_invariant]
    spec fn well_formed(self) -> bool {
        is_number(self.text@)
    }

    /// Reads `s` as a number: `Some` exactly when `s` writes one.
    pub fn parse(s: &str) -> (r: Option<Number>)
        ensures
            r is Some <==> is_number(s@),
            r matches Some(n) ==> n@ == s@,
    {
        let chars = chars_of(s);
        assert(chars@.subrange(0, chars@.len() as int) == s@);
        if number_at(&chars, 0, chars.len()) {
            Some(Number { text: String::from_str(s) })
        } else {
            None
        }
    }

    /// The text of the number.
    pub fn as_str(&self) -> (r: &str)
        ensures
            r@ == self@,
            is_number(r@),
    {
        proof {
            use_type_invariant(self);
        }
        self.text.as_str()
    }
}

/// The texts of a list of string slices.
pub open spec fn texts(parts: Seq<&str>) -> Seq<Seq<char>> {
    Seq::new(parts.len(), |i: int| parts[i]@)
}

/// The texts of a list of numbers.
pub open spec fn number_texts(v: Seq<Number>) -> Seq<Seq<char>> {
    Seq::new(v.len(), |i: int| v[i]@)
}

/// Whether every text of `parts` writes a number.
pub open spec fn all_numbers(parts: Seq<Seq<char>>) -> bool {
    forall|i: int| 0 <= i < parts.len() ==> is_number(#[trigger] parts[i])
}

/// Reads every part as a number. The result is `None` as soon as one part
/// does not write a number; otherwise it holds the numbers in the order of
/// the parts.
pub fn parse_parts(parts: &[&str]) -> (r: Option<Vec<Number>>)
    ensures
        r is Some <==> all_numbers(texts(parts@)),
        r matches Some(v) ==> number_texts(v@) == texts(parts@),
{
    let mut v: Vec<Number> = Vec::new();
    let mut i: usize = 0;
    while i < parts.len()
        invariant
            i <= parts.len(),
            number_texts(v@) == texts(parts@).take(i as int),
            all_numbers(texts(parts@).take(i as int)),
        decreases parts.len() - i,
    {
        match Number::parse(parts[i]) {
            Some(n) => {
                proof {
                    let before = texts(parts@).take(i as int);
                    let after = texts(parts@).take(i + 1);
                    assert(after == before.push(parts@[i as int]@));
                    assert(number_texts(v@.push(n)) == number_texts(v@).push(n@));
                    assert forall|k: int| 0 <= k < after.len() implies is_number(
                        #[trigger] after[k],
                    ) by {
                        if k < i {
                            assert(after[k] == before[k]);
                        }
                    }
                }
                v.push(n);
            },
            None => {
                assert(!is_number(texts(parts@)[i as int]));
                return None;
            },
        }
        i += 1;
    }
    assert(texts(parts@).take(i as int) == texts(parts@));
    Some(v)
}

/// What one line of a mesh file states, with each number as the text that
/// writes it.
pub enum Statement {
    /// `v x y z`: a vertex position.
    Vertex(Seq<char>, Seq<char>, Seq<char>),
    /// `vt u v`: a texture coordinate.
    TexCoord(Seq<char>, Seq<char>),
    /// `vn x y z`: a normal.
    Normal(Seq<char>, Seq<char>, Seq<char>),
    /// `f c1 c2 ...`: a face, with its corners.
    Face(Seq<FaceIdx>),
    /// A blank line, a comment or a statement that is not read.
    Other,
}

/// The corner that one word of a face statement writes: up to three
/// indices with `/` between them. An index that is left out, or that is no
/// unsigned integer, counts as 0.
pub open spec fn corner(word: Seq<char>) -> FaceIdx {
    let parts = fields(word, '/');
    face_idx_of(Seq::new(parts.len(), |k: int| index_or_zero(parts[k]) as usize))
}

/// The corners that the words of a face statement write.
pub open spec fn corners(w: Seq<Seq<char>>) -> Seq<FaceIdx> {
    Seq::new(w.len(), |k: int| corner(w[k]))
}

/// What `line` states, or `None` where it starts a vertex, texture
/// coordinate or normal statement and is malformed: one of the words after
/// the first writes no number, or there are fewer numbers than the
/// statement needs (three, and two for a texture coordinate). Numbers beyond
/// those are checked and dropped.
pub open spec fn statement(line: Seq<char>) -> Option<Statement> {
    let w = words(line);
    if w.len() == 0 {
        Some(Statement::Other)
    } else if w[0] == seq!['v'] {
        if all_numbers(w.skip(1)) && w.len() >= 4 {
            Some(Statement::Vertex(w[1], w[2], w[3]))
        } else {
            None
        }
    } else if w[0] == seq!['v', 't'] {
        if all_numbers(w.skip(1)) && w.len() >= 3 {
            Some(Statement::TexCoord(w[1], w[2]))
        } else {
            None
        }
    } else if w[0] == seq!['v', 'n'] {
        if all_numbers(w.skip(1)) && w.len() >= 4 {
            Some(Statement::Normal(w[1], w[2], w[3]))
        } else {
            None
        }
    } else if w[0] == seq!['f'] {
        Some(Statement::Face(corners(w.skip(1))))
    } else {
        Some(Statement::Other)
    }
}

/// One line of a mesh file, read.
pub enum Line {
    /// A vertex position.
    Vertex(Number, Number, Number),
    /// A texture coordinate.
    TexCoord(Number, Number),
    /// A normal.
    Normal(Number, Number, Number),
    /// A face.
    Face(FaceInfo),
    /// A line that states nothing that is read.
    Other,
}

impl View for Line {
    type V = Statement;

    open spec fn view(&self) -> Statement {
        match self {
            Line::Vertex(x, y, z) => Statement::Vertex(x@, y@, z@),
            Line::TexCoord(u, v) => Statement::TexCoord(u@, v@),
            Line::Normal(x, y, z) => Statement::Normal(x@, y@, z@),
            Line::Face(f) => Statement::Face(f@),
            Line::Other => Statement::Other,
        }
    }
}

/// The first word of a statement that is read.
enum Keyword {
    Vertex,
    TexCoord,
    Normal,
    Face,
    Other,
}

/// Which statement the word of `s` from `from` up to `to` starts.
fn keyword(s: &Vec<char>, from: usize, to: usize) -> (k: Keyword)
    requires
        from <= to <= s.len(),
    ensures
        k is Vertex <==> s@.subrange(from as int, to as int) == seq!['v'],
        k is TexCoord <==> s@.subrange(from as int, to as int) == seq!['v', 't'],
        k is Normal <==> s@.subrange(from as int, to as int) == seq!['v', 'n'],
        k is Face <==> s@.subrange(from as int, to as int) == seq!['f'],
{
    let ghost t = s@.subrange(from as int, to as int);
    let n = to - from;
    proof {
        assert(seq!['v'].len() == 1 && seq!['v'][0] == 'v');
        assert(seq!['f'].len() == 1 && seq!['f'][0] == 'f');
        assert(seq!['v', 't'].len() == 2 && seq!['v', 'n'].len() == 2);
    }
    if n == 1 {
        assert(t[0] == s@[from as int]);
        if s[from] == 'v' {
            assert(t == seq!['v']);
            Keyword::Vertex
        } else if s[from] == 'f' {
            assert(t == seq!['f']);
            Keyword::Face
        } else {
            Keyword::Other
        }
    } else if n == 2 {
        assert(t[0] == s@[from as int] && t[1] == s@[from + 1]);
        if s[from] == 'v' && s[from + 1] == 't' {
            assert(t == seq!['v', 't']);
            Keyword::TexCoord
        } else if s[from] == 'v' && s[from + 1] == 'n' {
            assert(t == seq!['v', 'n']);
            Keyword::Normal
        } else {
            assert(seq!['v', 't'][0] == 'v' && seq!['v', 't'][1] == 't');
            assert(seq!['v', 'n'][0] == 'v' && seq!['v', 'n'][1] == 'n');
            Keyword::Other
        }
    } else {
        Keyword::Other
    }
}

/// The corner written in `s` from `from` up to `to`.
fn corner_at(s: &Vec<char>, from: usize, to: usize) -> (c: FaceIdx)
    requires
        from <= to <= s.len(),
    ensures
        c == corner(s@.subrange(from as int, to as int)),
{
    let ghost word = s@.subrange(from as int, to as int);
    let ghost parts = fields(word, '/');
    let r = split_fields(s, from, to, '/');
    let mut v: Vec<usize> = Vec::new();
    let mut k: usize = 0;
    while k < r.len()
        invariant
            k <= r.len(),
            from <= to <= s.len(),
            ranges_within(r@, from as int, to as int),
            slices(s@, r@) == parts,
            v@ == Seq::new(k as nat, |j: int| index_or_zero(parts[j]) as usize),
        decreases r.len() - k,
    {
        let (a, b) = r[k];
        let x = index_at(s, a, b);
        proof {
            assert(slices(s@, r@)[k as int] == s@.subrange(a as int, b as int));
            assert(v@.push(x) == Seq::new(
                (k + 1) as nat,
                |j: int| index_or_zero(parts[j]) as usize,
            ));
        }
        v.push(x);
        k += 1;
    }
    assert(parts.len() == r@.len());
    FaceIdx::from(v)
}

/// The numbers that the words of `w` after the first write, where all of
/// them do.
fn numbers_after_first(line: &str, chars: &Vec<char>, w: &Vec<(usize, usize)>) -> (r: Option<
    Vec<Number>,
>)
    requires
        chars@ == line@,
        w@.len() >= 1,
        ranges_within(w@, 0, chars@.len() as int),
        slices(chars@, w@) == words(line@),
    ensures
        r is Some <==> all_numbers(words(line@).skip(1)),
        r matches Some(v) ==> number_texts(v@) == words(line@).skip(1),
{
    let ghost rest = words(line@).skip(1);
    let mut parts: Vec<&str> = Vec::new();
    let mut k: usize = 1;
    while k < w.len()
        invariant
            1 <= k <= w.len(),
            chars@ == line@,
            ranges_within(w@, 0, chars@.len() as int),
            slices(chars@, w@) == words(line@),
            rest == words(line@).skip(1),
            texts(parts@) == rest.take(k - 1),
        decreases w.len() - k,
    {
        let (a, b) = w[k];
        let part = line.substring_char(a, b);
        proof {
            assert(slices(chars@, w@)[k as int] == chars@.subrange(a as int, b as int));
            assert(rest[k - 1] == words(line@)[k as int]);
            assert(texts(parts@.push(part)) == texts(parts@).push(part@));
            assert(rest.take(k - 1).push(rest[k - 1]) == rest.take(k as int));
        }
        parts.push(part);
        k += 1;
    }
    assert(rest.take(k - 1) == rest);
    parse_parts(parts.as_slice())
}

/// Reads one line: what it states, or `None` where it is malformed.
pub fn parse_line(line: &str) -> (r: Option<Line>)
    ensures
        match r {
            Some(l) => statement(line@) == Some(l@),
            None => statement(line@) is None,
        },
{
    let chars = chars_of(line);
    let w = split_words(&chars);
    if w.len() == 0 {
        return Some(Line::Other);
    }
    let ghost ws = words(line@);
    let (a, b) = w[0];
    assert(slices(chars@, w@)[0] == chars@.subrange(a as int, b as int));
    match keyword(&chars, a, b) {
        Keyword::Vertex => {
            match numbers_after_first(line, &chars, &w) {
                Some(v) => {
                    assert(number_texts(v@).len() == ws.skip(1).len());
                    if v.len() < 3 {
                        None
                    } else {
                        assert(number_texts(v@)[0] == ws[1] && number_texts(v@)[1] == ws[2]
                            && number_texts(v@)[2] == ws[3]);
                        let (x, y, z) = first_three(v);
                        Some(Line::Vertex(x, y, z))
                    }
                },
                None => None,
            }
        },
        Keyword::TexCoord => {
            match numbers_after_first(line, &chars, &w) {
                Some(v) => {
                    assert(number_texts(v@).len() == ws.skip(1).len());
                    if v.len() < 2 {
                        None
                    } else {
                        assert(number_texts(v@)[0] == ws[1] && number_texts(v@)[1] == ws[2]);
                        let (x, y) = first_two(v);
                        Some(Line::TexCoord(x, y))
                    }
                },
                None => None,
            }
        },
        Keyword::Normal => {
            match numbers_after_first(line, &chars, &w) {
                Some(v) => {
                    assert(number_texts(v@).len() == ws.skip(1).len());
                    if v.len() < 3 {
                        None
                    } else {
                        assert(number_texts(v@)[0] == ws[1] && number_texts(v@)[1] == ws[2]
                            && number_texts(v@)[2] == ws[3]);
                        let (x, y, z) = first_three(v);
                        Some(Line::Normal(x, y, z))
                    }
                },
                None => None,
            }
        },
        Keyword::Face => {
            let mut verts: Vec<FaceIdx> = Vec::new();
            let mut k: usize = 1;
            while k < w.len()
                invariant
                    1 <= k <= w.len(),
                    chars@ == line@,
                    ws == words(line@),
                    ranges_within(w@, 0, chars@.len() as int),
                    slices(chars@, w@) == ws,
                    verts@ == corners(ws.skip(1)).take(k - 1),
                decreases w.len() - k,
            {
                let (a, b) = w[k];
                let c = corner_at(&chars, a, b);
                proof {
                    assert(slices(chars@, w@)[k as int] == chars@.subrange(a as int, b as int));
                    assert(ws.skip(1)[k - 1] == ws[k as int]);
                    assert(corners(ws.skip(1)).take(k - 1).push(c) == corners(ws.skip(1)).take(
                        k as int,
                    ));
                }
                verts.push(c);
                k += 1;
            }
            assert(corners(ws.skip(1)).take(k - 1) == corners(ws.skip(1)));
            Some(Line::Face(FaceInfo { verts }))
        },
        Keyword::Other => Some(Line::Other),
    }
}

/// What a mesh file holds, with each number as the text that writes it:
/// the vertex positions, the faces, the texture coordinates and the normals,
/// each in the order of the file.
pub struct ObjModel {
    pub vers: Seq<(Seq<char>, Seq<char>, Seq<char>)>,
    pub faces: Seq<Seq<FaceIdx>>,
    pub uvs: Seq<(Seq<char>, Seq<char>)>,
    pub normals: Seq<(Seq<char>, Seq<char>, Seq<char>)>,
}

impl ObjModel {
    /// The mesh of a file without statements.
    pub open spec fn empty() -> ObjModel {
        ObjModel { vers: Seq::empty(), faces: Seq::empty(), uvs: Seq::empty(), normals: Seq::empty() }
    }

    /// The mesh after one more statement.
    pub open spec fn with(self, st: Statement) -> ObjModel {
        match st {
            Statement::Vertex(x, y, z) => ObjModel { vers: self.vers.push((x, y, z)), ..self },
            Statement::TexCoord(u, v) => ObjModel { uvs: self.uvs.push((u, v)), ..self },
            Statement::Normal(x, y, z) => ObjModel {
                normals: self.normals.push((x, y, z)),
                ..self
            },
            Statement::Face(f) => ObjModel { faces: self.faces.push(f), ..self },
            Statement::Other => self,
        }
    }
}

/// Whether no line of `lines` is malformed.
pub open spec fn well_formed(lines: Seq<Seq<char>>) -> bool {
    forall|i: int| 0 <= i < lines.len() ==> (#[trigger] statement(lines[i])) is Some
}

/// Whether line `i` is malformed and no line before it is.
pub open spec fn first_malformed(lines: Seq<Seq<char>>, i: int) -> bool {
    &&& 0 <= i < lines.len()
    &&& statement(lines[i]) is None
    &&& well_formed(lines.take(i))
}

/// The mesh that the lines of a file state, line by line.
pub open spec fn model(lines: Seq<Seq<char>>) -> ObjModel
    recommends
        well_formed(lines),
    decreases lines.len(),
{
    if lines.len() == 0 {
        ObjModel::empty()
    } else {
        model(lines.drop_last()).with(statement(lines.last())->0)
    }
}

/// A mesh as read from a file.
pub struct OBJ {
    pub vers: Vec<(Number, Number, Number)>,
    pub faces: Vec<FaceInfo>,
    pub uvs: Vec<(Number, Number)>,
    pub normals: Vec<(Number, Number, Number)>,
}

impl View for OBJ {
    type V = ObjModel;

    open spec fn view(&self) -> ObjModel {
        ObjModel {
            vers: Seq::new(
                self.vers@.len(),
                |i: int| (self.vers@[i].0@, self.vers@[i].1@, self.vers@[i].2@),
            ),
            faces: Seq::new(self.faces@.len(), |i: int| self.faces@[i]@),
            uvs: Seq::new(self.uvs@.len(), |i: int| (self.uvs@[i].0@, self.uvs@[i].1@)),
            normals: Seq::new(
                self.normals@.len(),
                |i: int| (self.normals@[i].0@, self.normals@[i].1@, self.normals@[i].2@),
            ),
        }
    }
}

impl OBJ {
    /// A mesh without vertices and faces.
    pub fn new() -> (r: OBJ)
        ensures
            r@ == ObjModel::empty(),
    {
        let r = OBJ { vers: Vec::new(), faces: Vec::new(), uvs: Vec::new(), normals: Vec::new() };
        proof {
            let m = ObjModel::empty();
            assert(r@.vers == m.vers && r@.faces == m.faces && r@.uvs == m.uvs && r@.normals
                == m.normals);
        }
        r
    }

    /// Adds what one line states.
    pub fn add(&mut self, line: Line)
        ensures
            final(self)@ == old(self)@.with(line@),
    {
        let ghost m = self@.with(line@);
        match line {
            Line::Vertex(x, y, z) => {
                self.vers.push((x, y, z));
            },
            Line::TexCoord(u, v) => {
                self.uvs.push((u, v));
            },
            Line::Normal(x, y, z) => {
                self.normals.push((x, y, z));
            },
            Line::Face(f) => {
                self.faces.push(f);
            },
            Line::Other => {},
        }
        proof {
            assert(self@.vers == m.vers);
            assert(self@.faces == m.faces);
            assert(self@.uvs == m.uvs);
            assert(self@.normals == m.normals);
        }
    }
}

/// Reads a mesh from the lines of a file. A malformed line ends the
/// reading: the error names the first such line.
pub fn load_obj(lines: &[&str]) -> (r: Result<OBJ, ConfigError>)
    ensures
        match r {
            Ok(obj) => well_formed(texts(lines@)) && obj@ == model(texts(lines@)),
            Err(e) => e matches ConfigError::MalformedLine(i) && first_malformed(
                texts(lines@),
                i as int,
            ),
        },
{
    let ghost all = texts(lines@);
    let mut obj = OBJ::new();
    let mut i: usize = 0;
    assert(all.take(0) == Seq::<Seq<char>>::empty());
    while i < lines.len()
        invariant
            i <= lines.len(),
            all == texts(lines@),
            well_formed(all.take(i as int)),
            obj@ == model(all.take(i as int)),
        decreases lines.len() - i,
    {
        let ghost before = all.take(i as int);
        let ghost after = all.take(i + 1);
        proof {
            assert(after.drop_last() == before);
            assert(after.last() == lines@[i as int]@);
        }
        match parse_line(lines[i]) {
            Some(line) => {
                obj.add(line);
                proof {
                    assert forall|k: int| 0 <= k < after.len() implies (#[trigger] statement(
                        after[k],
                    )) is Some by {
                        if k < i {
                            assert(after[k] == before[k]);
                        }
                    }
                }
            },
            None => {
                return Err(ConfigError::MalformedLine(i));
            },
        }
        i += 1;
    }
    assert(all.take(i as int) == all);
    Ok(obj)
}

/// The first three numbers of `v`.
fn first_three(v: Vec<Number>) -> (r: (Number, Number, Number))
    requires
        v@.len() >= 3,
    ensures
        r.0@ == v@[0]@,
        r.1@ == v@[1]@,
        r.2@ == v@[2]@,
{
    let mut v = v;
    v.truncate(3);
    let z = v.pop().unwrap();
    let y = v.pop().unwrap();
    let x = v.pop().unwrap();
    (x, y, z)
}

/// The first two numbers of `v`.
fn first_two(v: Vec<Number>) -> (r: (Number, Number))
    requires
        v@.len() >= 2,
    ensures
        r.0@ == v@[0]@,
        r.1@ == v@[1]@,
{
    let mut v = v;
    v.truncate(2);
    let y = v.pop().unwrap();
    let x = v.pop().unwrap();
    (x, y)
}

} // verus!
