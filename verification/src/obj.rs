//! The Wavefront OBJ mesh format, as far as the renderer reads it.
//!
//! A file is read line by line. A line is split into parts at each space.
//! A line whose first part is `v` declares a vertex from its next three
//! parts (the coordinate texts, kept as they stand). A line whose first part
//! is `f` declares a triangle from its next three parts, each of the form
//! `vertex/texture/normal`; the vertex number counts from 1 and must name a
//! vertex declared on an earlier line. Every other line is ignored.
use vstd::prelude::*;

verus! {

/// The byte that separates the parts of a line.
pub const SPACE: u8 = 0x20;

/// The byte that separates the fields of a face corner.
pub const SLASH: u8 = 0x2f;

/// The keyword of a vertex line, `v`.
pub const VERTEX_KEYWORD: u8 = 0x76;

/// The keyword of a face line, `f`.
pub const FACE_KEYWORD: u8 = 0x66;

/// The sign byte `+`, allowed before the digits of a number.
pub const PLUS: u8 = 0x2b;

/// The byte `0`.
pub const DIGIT_ZERO: u8 = 0x30;

/// The byte `9`.
pub const DIGIT_NINE: u8 = 0x39;

/// The pieces of `s` between the occurrences of `sep`, in order. There is
/// always at least one piece; two adjacent separators give an empty piece.
pub open spec fn split_on(s: Seq<u8>, sep: u8) -> Seq<Seq<u8>>
    decreases s.len(),
{
    if s.len() == 0 {
        seq![Seq::empty()]
    } else {
        let prev = split_on(s.drop_last(), sep);
        if s.last() == sep {
            prev.push(Seq::empty())
        } else {
            prev.update(prev.len() - 1, prev.last().push(s.last()))
        }
    }
}

/// The contents of a sequence of byte vectors.
pub open spec fn byte_vecs_view(v: Seq<Vec<u8>>) -> Seq<Seq<u8>> {
    v.map_values(|p: Vec<u8>| p@)
}

/// Splitting always gives at least one piece.
pub proof fn lemma_split_on_nonempty(s: Seq<u8>, sep: u8)
    ensures
        split_on(s, sep).len() >= 1,
    decreases s.len(),
{
    if s.len() > 0 {
        lemma_split_on_nonempty(s.drop_last(), sep);
    }
}

/// Splits `s` at each occurrence of `sep`.
pub fn split_bytes(s: &Vec<u8>, sep: u8) -> (res: Vec<Vec<u8>>)
    ensures
        byte_vecs_view(res@) == split_on(s@, sep),
{
    let mut done: Vec<Vec<u8>> = Vec::new();
    let mut cur: Vec<u8> = Vec::new();
    let mut i: usize = 0;
    assert(s@.take(0) =~= Seq::<u8>::empty());
    assert(byte_vecs_view(done@).push(cur@) =~= split_on(s@.take(0), sep));
    while i < s.len()
        invariant
            i <= s.len(),
            byte_vecs_view(done@).push(cur@) == split_on(s@.take(i as int), sep),
        decreases s.len() - i,
    {
        let ghost before = split_on(s@.take(i as int), sep);
        assert(s@.take(i + 1).drop_last() =~= s@.take(i as int));
        assert(s@.take(i + 1).last() == s@[i as int]);
        let b = s[i];
        if b == sep {
            let piece = cur;
            done.push(piece);
            cur = Vec::new();
            assert(byte_vecs_view(done@).push(cur@) =~= before.push(Seq::empty()));
        } else {
            cur.push(b);
            assert(byte_vecs_view(done@).push(cur@) =~= before.update(
                before.len() - 1,
                before.last().push(b),
            ));
        }
        i = i + 1;
    }
    assert(s@.take(i as int) =~= s@);
    done.push(cur);
    assert(byte_vecs_view(done@) =~= split_on(s@, sep));
    done
}

/// Every byte of `s` is a decimal digit.
pub open spec fn all_digits(s: Seq<u8>) -> bool {
    forall|i: int| 0 <= i < s.len() ==> DIGIT_ZERO <= #[trigger] s[i] <= DIGIT_NINE
}

/// The number that the decimal digits `s` write.
pub open spec fn digits_value(s: Seq<u8>) -> nat
    decreases s.len(),
{
    if s.len() == 0 {
        0
    } else {
        digits_value(s.drop_last()) * 10 + (s.last() - DIGIT_ZERO) as nat
    }
}

/// The digits of an unsigned number: the text without one leading `+`.
pub open spec fn unsigned_digits(s: Seq<u8>) -> Seq<u8> {
    if s.len() > 0 && s[0] == PLUS {
        s.drop_first()
    } else {
        s
    }
}

/// The `usize` that the text `s` writes: an optional `+` and then at least
/// one decimal digit, with a value that fits in `usize`.
pub open spec fn usize_value(s: Seq<u8>) -> Option<nat> {
    let d = unsigned_digits(s);
    if d.len() > 0 && all_digits(d) && digits_value(d) <= usize::MAX {
        Some(digits_value(d))
    } else {
        None
    }
}

/// A prefix of a digit string never writes a larger number.
pub proof fn lemma_digits_prefix_le(s: Seq<u8>, j: int)
    requires
        all_digits(s),
        0 <= j <= s.len(),
    ensures
        digits_value(s.take(j)) <= digits_value(s),
    decreases s.len(),
{
    if j < s.len() {
        let t = s.drop_last();
        assert(t.take(j) =~= s.take(j));
        assert(all_digits(t)) by {
            assert forall|i: int| 0 <= i < t.len() implies DIGIT_ZERO <= #[trigger] t[i] <= DIGIT_NINE by {
                assert(t[i] == s[i]);
            }
        }
        lemma_digits_prefix_le(t, j);
    } else {
        assert(s.take(j) =~= s);
    }
}

/// Reads an unsigned decimal number: an optional `+` followed by decimal
/// digits. `None` where the text is empty, holds another byte, or writes a
/// number larger than `usize::MAX`.
pub fn parse_usize(s: &Vec<u8>) -> (res: Option<usize>)
    ensures
        match res {
            Some(v) => usize_value(s@) == Some(v as nat),
            None => usize_value(s@) is None,
        },
{
    let n = s.len();
    if n == 0 {
        return None;
    }
    let start: usize = if s[0] == PLUS {
        1
    } else {
        0
    };
    let ghost d = unsigned_digits(s@);
    assert(d =~= s@.subrange(start as int, n as int));
    if start == n {
        return None;
    }
    let mut acc: usize = 0;
    let mut i: usize = start;
    assert(d.take(0) =~= Seq::<u8>::empty());
    while i < n
        invariant
            start <= i <= n,
            n == s.len(),
            d == s@.subrange(start as int, n as int),
            d == unsigned_digits(s@),
            d.len() > 0,
            all_digits(d.take(i - start)),
            acc as nat == digits_value(d.take(i - start)),
        decreases n - i,
    {
        let c = s[i];
        let ghost k: int = i - start;
        assert(d[k] == c);
        if c < DIGIT_ZERO || c > DIGIT_NINE {
            assert(!all_digits(d));
            return None;
        }
        let ghost next = d.take(k + 1);
        assert(next.drop_last() =~= d.take(k));
        assert(next.last() == c);
        assert(all_digits(next)) by {
            assert forall|j: int| 0 <= j < next.len() implies DIGIT_ZERO <= #[trigger] next[j] <= DIGIT_NINE by {
                if j < k {
                    assert(next[j] == d.take(k)[j]);
                }
            }
        }
        let digit: usize = (c - DIGIT_ZERO) as usize;
        match acc.checked_mul(10) {
            None => {
                proof {
                    lemma_digits_overflow(d, k + 1);
                }
                return None;
            },
            Some(t) => match t.checked_add(digit) {
                None => {
                    proof {
                        lemma_digits_overflow(d, k + 1);
                    }
                    return None;
                },
                Some(u) => {
                    acc = u;
                },
            },
        }
        i = i + 1;
    }
    assert(d.take(i - start) =~= d);
    Some(acc)
}

/// Where a prefix of a digit text already writes more than `usize::MAX`,
/// the text as a whole has no `usize` value.
proof fn lemma_digits_overflow(d: Seq<u8>, j: int)
    requires
        0 <= j <= d.len(),
        digits_value(d.take(j)) > usize::MAX,
    ensures
        !(all_digits(d) && digits_value(d) <= usize::MAX),
{
    if all_digits(d) {
        lemma_digits_prefix_le(d, j);
    }
}

/// A vertex line's three coordinate texts.
pub struct VertexFields {
    pub x: Vec<u8>,
    pub y: Vec<u8>,
    pub z: Vec<u8>,
}

impl View for VertexFields {
    type V = (Seq<u8>, Seq<u8>, Seq<u8>);

    open spec fn view(&self) -> (Seq<u8>, Seq<u8>, Seq<u8>) {
        (self.x@, self.y@, self.z@)
    }
}

/// A triangle, as the indices (from 0) of its three corners in the vertex list.
#[derive(PartialEq, Eq, Structural, Clone, Copy, Debug)]
pub struct Face {
    pub a: usize,
    pub b: usize,
    pub c: usize,
}

/// The vertices and triangles read so far.
pub struct ObjMesh {
    pub vertices: Vec<VertexFields>,
    pub faces: Vec<Face>,
}

/// The contents of a mesh: each vertex as its three coordinate texts, and
/// the triangles.
#[verifier::ext_equal]
pub struct ObjModel {
    pub vertices: Seq<(Seq<u8>, Seq<u8>, Seq<u8>)>,
    pub faces: Seq<Face>,
}

impl View for ObjMesh {
    type V = ObjModel;

    open spec fn view(&self) -> ObjModel {
        ObjModel {
            vertices: self.vertices@.map_values(|v: VertexFields| v@),
            faces: self.faces@,
        }
    }
}

/// Why a file cannot be read, with the index (from 0) of the line at fault.
#[derive(PartialEq, Eq, Structural, Clone, Copy, Debug)]
pub enum ObjError {
    /// A vertex line has fewer than three coordinates.
    MissingVertexField(usize),
    /// A face line has fewer than three corners.
    MissingFaceCorner(usize),
    /// A face corner has fewer than three `/`-separated fields.
    MissingCornerField(usize),
    /// A face corner's vertex number is not an unsigned decimal number.
    BadVertexIndex(usize),
    /// A face corner's vertex number is 0 or names no vertex declared before it.
    VertexIndexOutOfRange(usize),
}

/// The text of the vertex number of a face corner: its first field.
pub open spec fn corner_vertex_text(part: Seq<u8>) -> Seq<u8> {
    split_on(part, SLASH)[0]
}

/// Corner `k` (1 to 3) of a face line's parts is present and has three fields.
pub open spec fn corner_ok(parts: Seq<Seq<u8>>, k: int) -> bool {
    parts.len() > k && split_on(parts[k], SLASH).len() >= 3
}

/// The first fault in the shape of a face line's corners, taking the corners
/// in order: a missing corner, or a corner with fewer than three fields.
pub open spec fn face_shape_error(parts: Seq<Seq<u8>>, line: usize) -> Option<ObjError> {
    if parts.len() <= 1 {
        Some(ObjError::MissingFaceCorner(line))
    } else if !corner_ok(parts, 1) {
        Some(ObjError::MissingCornerField(line))
    } else if parts.len() <= 2 {
        Some(ObjError::MissingFaceCorner(line))
    } else if !corner_ok(parts, 2) {
        Some(ObjError::MissingCornerField(line))
    } else if parts.len() <= 3 {
        Some(ObjError::MissingFaceCorner(line))
    } else if !corner_ok(parts, 3) {
        Some(ObjError::MissingCornerField(line))
    } else {
        None
    }
}

/// The index (from 0) that a vertex number names, given how many vertices
/// are declared so far.
pub open spec fn resolve_index(text: Seq<u8>, nverts: nat, line: usize) -> Result<usize, ObjError> {
    match usize_value(text) {
        None => Err(ObjError::BadVertexIndex(line)),
        Some(v) => if v == 0 || v > nverts {
            Err(ObjError::VertexIndexOutOfRange(line))
        } else {
            Ok((v - 1) as usize)
        },
    }
}

/// A line whose first part is exactly the keyword `key`.
pub open spec fn starts_with_keyword(parts: Seq<Seq<u8>>, key: u8) -> bool {
    parts[0] == seq![key]
}

/// What reading line number `n` (from 0), `line`, does to the mesh `m`.
pub open spec fn read_line(m: ObjModel, line: Seq<u8>, n: usize) -> Result<ObjModel, ObjError> {
    let parts = split_on(line, SPACE);
    if starts_with_keyword(parts, VERTEX_KEYWORD) {
        if parts.len() < 4 {
            Err(ObjError::MissingVertexField(n))
        } else {
            Ok(ObjModel { vertices: m.vertices.push((parts[1], parts[2], parts[3])), faces: m.faces })
        }
    } else if starts_with_keyword(parts, FACE_KEYWORD) {
        match face_shape_error(parts, n) {
            Some(e) => Err(e),
            None => {
                let nv = m.vertices.len();
                match resolve_index(corner_vertex_text(parts[1]), nv, n) {
                    Err(e) => Err(e),
                    Ok(a) => match resolve_index(corner_vertex_text(parts[2]), nv, n) {
                        Err(e) => Err(e),
                        Ok(b) => match resolve_index(corner_vertex_text(parts[3]), nv, n) {
                            Err(e) => Err(e),
                            Ok(c) => Ok(
                                ObjModel {
                                    vertices: m.vertices,
                                    faces: m.faces.push(Face { a, b, c }),
                                },
                            ),
                        },
                    },
                }
            },
        }
    } else {
        Ok(m)
    }
}

/// The mesh with no vertices and no triangles.
pub open spec fn empty_model() -> ObjModel {
    ObjModel { vertices: Seq::empty(), faces: Seq::empty() }
}

/// The mesh that reading `lines` in order gives, or the first fault met.
pub open spec fn read_lines(lines: Seq<Seq<u8>>) -> Result<ObjModel, ObjError>
    decreases lines.len(),
{
    if lines.len() == 0 {
        Ok(empty_model())
    } else {
        match read_lines(lines.drop_last()) {
            Err(e) => Err(e),
            Ok(m) => read_line(m, lines.last(), (lines.len() - 1) as usize),
        }
    }
}

/// Once reading a prefix of the lines fails, reading all of them fails with
/// the same fault.
pub proof fn lemma_read_lines_error_sticks(lines: Seq<Seq<u8>>, i: int)
    requires
        0 <= i <= lines.len(),
        read_lines(lines.take(i)) is Err,
    ensures
        read_lines(lines) == read_lines(lines.take(i)),
    decreases lines.len(),
{
    if i < lines.len() {
        let t = lines.drop_last();
        assert(t.take(i) =~= lines.take(i));
        lemma_read_lines_error_sticks(t, i);
    } else {
        assert(lines.take(i) =~= lines);
    }
}

/// The index (from 0) named by the vertex number `text`, given how many
/// vertices are declared so far.
pub fn resolve_vertex_index(text: &Vec<u8>, nverts: usize, line: usize) -> (res: Result<usize, ObjError>)
    ensures
        res == resolve_index(text@, nverts as nat, line),
{
    match parse_usize(text) {
        None => Err(ObjError::BadVertexIndex(line)),
        Some(v) => {
            if v == 0 || v > nverts {
                Err(ObjError::VertexIndexOutOfRange(line))
            } else {
                Ok(v - 1)
            }
        },
    }
}

/// Whether the byte vector is exactly the one-byte keyword `key`.
fn is_keyword(part: &Vec<u8>, key: u8) -> (res: bool)
    ensures
        res == (part@ == seq![key]),
{
    if part.len() == 1 && part[0] == key {
        assert(part@ =~= seq![key]);
        true
    } else {
        assert(part@.len() != 1 ==> part@.len() != seq![key].len());
        false
    }
}

/// Reads line number `n` (from 0) into `mesh`; on a fault, says which.
pub fn read_line_into(mesh: &mut ObjMesh, line: &Vec<u8>, n: usize) -> (res: Result<(), ObjError>)
    ensures
        match res {
            Ok(_) => read_line(old(mesh)@, line@, n) == Ok::<ObjModel, ObjError>(final(mesh)@),
            Err(e) => read_line(old(mesh)@, line@, n) == Err::<ObjModel, ObjError>(e),
        },
{
    let parts = split_bytes(line, SPACE);
    let ghost ps = split_on(line@, SPACE);
    proof {
        lemma_split_on_nonempty(line@, SPACE);
        assert(parts@.len() == ps.len());
        assert forall|k: int| 0 <= k < parts@.len() implies #[trigger] parts@[k]@ == ps[k] by {
            assert(byte_vecs_view(parts@)[k] == parts@[k]@);
        }
    }
    if is_keyword(&parts[0], VERTEX_KEYWORD) {
        if parts.len() < 4 {
            return Err(ObjError::MissingVertexField(n));
        }
        let x = parts[1].clone();
        let y = parts[2].clone();
        let z = parts[3].clone();
        assert(x@ =~= parts@[1]@);
        assert(y@ =~= parts@[2]@);
        assert(z@ =~= parts@[3]@);
        let ghost before = mesh@;
        mesh.vertices.push(VertexFields { x, y, z });
        assert(mesh@ =~= ObjModel {
            vertices: before.vertices.push((ps[1], ps[2], ps[3])),
            faces: before.faces,
        });
        return Ok(());
    }
    if !is_keyword(&parts[0], FACE_KEYWORD) {
        return Ok(());
    }
    if parts.len() <= 1 {
        return Err(ObjError::MissingFaceCorner(n));
    }
    let corner1 = split_bytes(&parts[1], SLASH);
    if corner1.len() < 3 {
        return Err(ObjError::MissingCornerField(n));
    }
    if parts.len() <= 2 {
        return Err(ObjError::MissingFaceCorner(n));
    }
    let corner2 = split_bytes(&parts[2], SLASH);
    if corner2.len() < 3 {
        return Err(ObjError::MissingCornerField(n));
    }
    if parts.len() <= 3 {
        return Err(ObjError::MissingFaceCorner(n));
    }
    let corner3 = split_bytes(&parts[3], SLASH);
    if corner3.len() < 3 {
        return Err(ObjError::MissingCornerField(n));
    }
    assert(face_shape_error(ps, n) is None);
    proof {
        assert(byte_vecs_view(corner1@)[0] == corner1@[0]@);
        assert(byte_vecs_view(corner2@)[0] == corner2@[0]@);
        assert(byte_vecs_view(corner3@)[0] == corner3@[0]@);
    }
    let nverts = mesh.vertices.len();
    let a = match resolve_vertex_index(&corner1[0], nverts, n) {
        Err(e) => {
            return Err(e);
        },
        Ok(a) => a,
    };
    let b = match resolve_vertex_index(&corner2[0], nverts, n) {
        Err(e) => {
            return Err(e);
        },
        Ok(b) => b,
    };
    let c = match resolve_vertex_index(&corner3[0], nverts, n) {
        Err(e) => {
            return Err(e);
        },
        Ok(c) => c,
    };
    let ghost before = mesh@;
    mesh.faces.push(Face { a, b, c });
    assert(mesh@ =~= ObjModel { vertices: before.vertices, faces: before.faces.push(Face { a, b, c }) });
    Ok(())
}

/// Reads a mesh from the lines of an OBJ file (each line without its line
/// ending): the vertices and triangles it declares, or the first fault,
/// with the index of the line where it stands.
pub fn parse_obj_lines(lines: &Vec<Vec<u8>>) -> (res: Result<ObjMesh, ObjError>)
    ensures
        match res {
            Ok(mesh) => read_lines(byte_vecs_view(lines@)) == Ok::<ObjModel, ObjError>(mesh@),
            Err(e) => read_lines(byte_vecs_view(lines@)) == Err::<ObjModel, ObjError>(e),
        },
{
    let ghost all = byte_vecs_view(lines@);
    let mut mesh = ObjMesh { vertices: Vec::new(), faces: Vec::new() };
    let mut i: usize = 0;
    assert(all.take(0) =~= Seq::<Seq<u8>>::empty());
    assert(mesh@ =~= empty_model());
    while i < lines.len()
        invariant
            i <= lines.len(),
            all == byte_vecs_view(lines@),
            read_lines(all.take(i as int)) == Ok::<ObjModel, ObjError>(mesh@),
        decreases lines.len() - i,
    {
        let ghost prefix = all.take(i + 1);
        assert(prefix.drop_last() =~= all.take(i as int));
        assert(prefix.last() == lines@[i as int]@);
        match read_line_into(&mut mesh, &lines[i], i) {
            Err(e) => {
                proof {
                    lemma_read_lines_error_sticks(all, i + 1);
                }
                return Err(e);
            },
            Ok(_) => {},
        }
        i = i + 1;
    }
    assert(all.take(i as int) =~= all);
    Ok(mesh)
}

/// The pieces joined back together, with `sep` between each two.
pub open spec fn join_with(pieces: Seq<Seq<u8>>, sep: u8) -> Seq<u8>
    decreases pieces.len(),
{
    if pieces.len() <= 1 {
        if pieces.len() == 1 {
            pieces[0]
        } else {
            Seq::empty()
        }
    } else {
        join_with(pieces.drop_last(), sep).push(sep) + pieces.last()
    }
}

/// Splitting loses nothing: joining the pieces with the separator gives the
/// text back, and no piece holds the separator.
pub proof fn lemma_split_on_join(s: Seq<u8>, sep: u8)
    ensures
        join_with(split_on(s, sep), sep) == s,
        forall|k: int| 0 <= k < split_on(s, sep).len() ==> !(#[trigger] split_on(s, sep)[k]).contains(sep),
    decreases s.len(),
{
    if s.len() == 0 {
        assert(join_with(split_on(s, sep), sep) =~= s);
    } else {
        let t = s.drop_last();
        let prev = split_on(t, sep);
        lemma_split_on_join(t, sep);
        lemma_split_on_nonempty(t, sep);
        let c = s.last();
        if c == sep {
            let now = prev.push(Seq::empty());
            assert(now.drop_last() =~= prev);
            assert(join_with(now, sep) =~= s);
            assert forall|k: int| 0 <= k < now.len() implies !(#[trigger] now[k]).contains(sep) by {
                if k < prev.len() {
                    assert(now[k] == prev[k]);
                }
            }
        } else {
            let last = prev.last().push(c);
            let now = prev.update(prev.len() - 1, last);
            if prev.len() == 1 {
                assert(join_with(now, sep) =~= s);
            } else {
                assert(now.drop_last() =~= prev.drop_last());
                let head = join_with(prev.drop_last(), sep).push(sep);
                assert(join_with(prev, sep) == head + prev.last());
                assert(join_with(now, sep) == head + last);
                assert(head + last =~= (head + prev.last()).push(c));
                assert(s =~= t.push(c));
            }
            assert forall|k: int| 0 <= k < now.len() implies !(#[trigger] now[k]).contains(sep) by {
                if k < prev.len() - 1 {
                    assert(now[k] == prev[k]);
                } else {
                    assert(!prev[k].contains(sep));
                    if now[k].contains(sep) {
                        let j = choose|j: int| 0 <= j < now[k].len() && now[k][j] == sep;
                        if j < prev[k].len() {
                            assert(prev[k][j] == sep);
                        }
                    }
                }
            }
        }
    }
}

/// Every triangle of a mesh read from a file names only vertices that the
/// file declares.
pub proof fn lemma_faces_name_declared_vertices(lines: Seq<Seq<u8>>)
    requires
        read_lines(lines) is Ok,
    ensures
        forall|k: int|
            0 <= k < read_lines(lines)->Ok_0.faces.len() ==> {
                let f = #[trigger] read_lines(lines)->Ok_0.faces[k];
                let n = read_lines(lines)->Ok_0.vertices.len();
                &&& f.a < n
                &&& f.b < n
                &&& f.c < n
            },
    decreases lines.len(),
{
    if lines.len() > 0 {
        let t = lines.drop_last();
        lemma_faces_name_declared_vertices(t);
        let m = read_lines(t)->Ok_0;
        let m2 = read_lines(lines)->Ok_0;
        assert forall|k: int| 0 <= k < m2.faces.len() implies {
            let f = #[trigger] m2.faces[k];
            &&& f.a < m2.vertices.len()
            &&& f.b < m2.vertices.len()
            &&& f.c < m2.vertices.len()
        } by {
            if k < m.faces.len() {
                assert(m2.faces[k] == m.faces[k]);
            }
        }
    }
}

/// A line that is neither a vertex line nor a face line (a comment, a
/// texture coordinate, a normal, an empty line) changes nothing.
pub proof fn lemma_other_lines_ignored(lines: Seq<Seq<u8>>, line: Seq<u8>)
    requires
        split_on(line, 0x20) [0] != seq![0x76u8],
        split_on(line, 0x20) [0] != seq![0x66u8],
    ensures
        read_lines(lines.push(line)) == read_lines(lines),
{
    assert(lines.push(line).drop_last() =~= lines);
}

/// Each vertex line adds exactly one vertex with its three coordinate texts
/// (and any further parts are ignored), leaving the triangles as they were.
pub proof fn lemma_vertex_line_adds_vertex(lines: Seq<Seq<u8>>, line: Seq<u8>)
    requires
        read_lines(lines) is Ok,
        split_on(line, 0x20)[0] == seq![0x76u8],
        split_on(line, 0x20).len() >= 4,
    ensures
        read_lines(lines.push(line)) == Ok::<ObjModel, ObjError>(
            ObjModel {
                vertices: read_lines(lines)->Ok_0.vertices.push(
                    (split_on(line, SPACE)[1], split_on(line, SPACE)[2], split_on(line, SPACE)[3]),
                ),
                faces: read_lines(lines)->Ok_0.faces,
            },
        ),
{
    assert(lines.push(line).drop_last() =~= lines);
}

/// A single decimal digit writes its own value.
pub proof fn lemma_usize_value_one_digit(c: u8)
    requires
        0x30 <= c <= 0x39,
    ensures
        usize_value(seq![c]) == Some((c - 0x30) as nat),
{
    let s = seq![c];
    assert(s[0] != PLUS);
    assert(unsigned_digits(s) == s);
    assert(s.drop_last() =~= Seq::<u8>::empty());
    assert(s.last() == c);
    assert(digits_value(s) == digits_value(s.drop_last()) * 10 + (c - DIGIT_ZERO) as nat);
    assert(all_digits(s));
}

/// Writing one more decimal digit `c` after a number `x` gives the number
/// `10 * x + c`, or no `usize` at all where that is larger than
/// `usize::MAX`.
pub proof fn lemma_usize_value_append_digit(d: Seq<u8>, c: u8, x: nat)
    requires
        0x30 <= c <= 0x39,
        d.len() > 0,
        forall|i: int| 0 <= i < d.len() ==> 0x30 <= #[trigger] d[i] <= 0x39,
        usize_value(d) == Some(x),
    ensures
        x * 10 + (c - 0x30) <= usize::MAX ==> usize_value(d.push(c)) == Some(x * 10 + (c - 0x30) as nat),
        x * 10 + (c - 0x30) > usize::MAX ==> usize_value(d.push(c)) is None,
{
    let e = d.push(c);
    assert(unsigned_digits(d) == d);
    assert(unsigned_digits(e) == e);
    assert(e.drop_last() =~= d);
    assert(all_digits(e)) by {
        assert forall|i: int| 0 <= i < e.len() implies DIGIT_ZERO <= #[trigger] e[i] <= DIGIT_NINE by {
            if i < d.len() {
                assert(e[i] == d[i]);
            }
        }
    }
}

/// A digit text that already writes more than `usize::MAX` still does so
/// with one more digit.
pub proof fn lemma_usize_value_stays_too_large(d: Seq<u8>, c: u8)
    requires
        0x30 <= c <= 0x39,
        d.len() > 0,
        forall|i: int| 0 <= i < d.len() ==> 0x30 <= #[trigger] d[i] <= 0x39,
        usize_value(d) is None,
    ensures
        usize_value(d.push(c)) is None,
{
    let e = d.push(c);
    assert(unsigned_digits(d) == d);
    assert(unsigned_digits(e) == e);
    assert(e.drop_last() =~= d);
    assert(all_digits(d));
}

/// One leading `+` before the digits changes nothing.
pub proof fn lemma_usize_value_plus_sign(d: Seq<u8>)
    requires
        d.len() > 0,
        forall|i: int| 0 <= i < d.len() ==> 0x30 <= #[trigger] d[i] <= 0x39,
    ensures
        usize_value(seq![0x2bu8] + d) == usize_value(d),
{
    let e = seq![0x2bu8] + d;
    assert(e.drop_first() =~= d);
    assert(d[0] != 0x2b);
}

/// No number is written by an empty text, by a lone `+`, or by a text with
/// a byte other than a digit after its optional leading `+`.
pub proof fn lemma_usize_value_refuses(s: Seq<u8>, k: int)
    requires
        0 <= k < s.len(),
        !(0x30 <= s[k] <= 0x39),
        !(k == 0 && s[k] == 0x2b),
    ensures
        usize_value(s) is None,
        usize_value(Seq::empty()) is None,
        usize_value(seq![0x2bu8]) is None,
{
    let d = unsigned_digits(s);
    if s[0] == 0x2b {
        assert(d[k - 1] == s[k]);
    } else {
        assert(d[k] == s[k]);
    }
    assert(seq![0x2bu8].drop_first().len() == 0);
}

/// A vertex number `v` resolves to index `v - 1` when `1 <= v <= nverts`;
/// it is refused as out of range when it is 0 or above `nverts`, and as bad
/// when the text writes no number.
pub proof fn lemma_resolve_index(text: Seq<u8>, nverts: nat, line: usize)
    ensures
        usize_value(text) is None ==> resolve_index(text, nverts, line) == Err::<usize, ObjError>(
            ObjError::BadVertexIndex(line),
        ),
        forall|v: nat|
            usize_value(text) == Some(v) && 1 <= v <= nverts ==> resolve_index(text, nverts, line)
                == Ok::<usize, ObjError>((v - 1) as usize),
        forall|v: nat|
            usize_value(text) == Some(v) && (v == 0 || v > nverts) ==> resolve_index(text, nverts, line)
                == Err::<usize, ObjError>(ObjError::VertexIndexOutOfRange(line)),
{
}

/// A well-formed face line, whose corners write the vertex numbers `v1`,
/// `v2`, `v3` (each between 1 and the number of vertices declared so far),
/// adds the triangle of vertices `v1 - 1, v2 - 1, v3 - 1`, corners in the
/// order written, and leaves the vertices as they are.
pub proof fn lemma_face_line_adds_face(m: ObjModel, line: Seq<u8>, n: usize, v1: nat, v2: nat, v3: nat)
    requires
        split_on(line, 0x20)[0] == seq![0x66u8],
        split_on(line, 0x20).len() >= 4,
        split_on(split_on(line, 0x20)[1], 0x2f).len() >= 3,
        split_on(split_on(line, 0x20)[2], 0x2f).len() >= 3,
        split_on(split_on(line, 0x20)[3], 0x2f).len() >= 3,
        usize_value(split_on(split_on(line, 0x20)[1], 0x2f)[0]) == Some(v1),
        usize_value(split_on(split_on(line, 0x20)[2], 0x2f)[0]) == Some(v2),
        usize_value(split_on(split_on(line, 0x20)[3], 0x2f)[0]) == Some(v3),
        1 <= v1 <= m.vertices.len(),
        1 <= v2 <= m.vertices.len(),
        1 <= v3 <= m.vertices.len(),
    ensures
        read_line(m, line, n) == Ok::<ObjModel, ObjError>(
            ObjModel {
                vertices: m.vertices,
                faces: m.faces.push(Face { a: (v1 - 1) as usize, b: (v2 - 1) as usize, c: (v3 - 1) as usize }),
            },
        ),
{
    let parts = split_on(line, SPACE);
    assert(parts[0] != seq![VERTEX_KEYWORD]) by {
        assert(parts[0][0] == 0x66u8);
    }
}

/// The index of the line that a fault names.
pub open spec fn fault_line(e: ObjError) -> usize {
    match e {
        ObjError::MissingVertexField(n) => n,
        ObjError::MissingFaceCorner(n) => n,
        ObjError::MissingCornerField(n) => n,
        ObjError::BadVertexIndex(n) => n,
        ObjError::VertexIndexOutOfRange(n) => n,
    }
}

/// A fault met on a line names that line.
proof fn lemma_read_line_fault_line(m: ObjModel, line: Seq<u8>, n: usize)
    requires
        read_line(m, line, n) is Err,
    ensures
        fault_line(read_line(m, line, n)->Err_0) == n,
{
    let parts = split_on(line, SPACE);
    if !starts_with_keyword(parts, VERTEX_KEYWORD) && starts_with_keyword(parts, FACE_KEYWORD) {
        if face_shape_error(parts, n) is None {
            let nv = m.vertices.len();
            let r1 = resolve_index(corner_vertex_text(parts[1]), nv, n);
            let r2 = resolve_index(corner_vertex_text(parts[2]), nv, n);
            let r3 = resolve_index(corner_vertex_text(parts[3]), nv, n);
            assert(r1 is Err ==> fault_line(r1->Err_0) == n);
            assert(r2 is Err ==> fault_line(r2->Err_0) == n);
            assert(r3 is Err ==> fault_line(r3->Err_0) == n);
        }
    }
}

/// A fault names the first line that cannot be read: that line exists, all
/// lines before it read without fault, and reading it after them gives this
/// very fault.
pub proof fn lemma_fault_names_its_line(lines: Seq<Seq<u8>>)
    requires
        read_lines(lines) is Err,
        lines.len() <= usize::MAX,
    ensures
        ({
            let e = read_lines(lines)->Err_0;
            let k = fault_line(e) as int;
            &&& 0 <= k < lines.len()
            &&& read_lines(lines.take(k)) is Ok
            &&& read_line(read_lines(lines.take(k))->Ok_0, lines[k], k as usize) == Err::<ObjModel, ObjError>(e)
        }),
    decreases lines.len(),
{
    let t = lines.drop_last();
    match read_lines(t) {
        Err(e) => {
            lemma_fault_names_its_line(t);
            let k = fault_line(e) as int;
            assert(lines.take(k) =~= t.take(k));
            assert(lines[k] == t[k]);
        },
        Ok(m) => {
            assert(lines.take(lines.len() - 1) =~= t);
            let e = read_lines(lines)->Err_0;
            let n = (lines.len() - 1) as usize;
            lemma_read_line_fault_line(m, lines.last(), n);
            assert(fault_line(e) == n);
        },
    }
}

/// The kind of fault a malformed line gives: a vertex line with fewer than
/// three coordinates; a face line with no corner at all; a face line whose
/// first corner has fewer than three fields; a face line whose first corner
/// writes no number.
pub proof fn lemma_line_faults(m: ObjModel, line: Seq<u8>, n: usize)
    ensures
        split_on(line, 0x20)[0] == seq![0x76u8] && split_on(line, 0x20).len() < 4 ==> read_line(m, line, n)
            == Err::<ObjModel, ObjError>(ObjError::MissingVertexField(n)),
        split_on(line, 0x20)[0] == seq![0x66u8] && split_on(line, 0x20).len() == 1 ==> read_line(m, line, n)
            == Err::<ObjModel, ObjError>(ObjError::MissingFaceCorner(n)),
        split_on(line, 0x20)[0] == seq![0x66u8] && split_on(line, 0x20).len() >= 2 && split_on(
            split_on(line, 0x20)[1],
            0x2f,
        ).len() < 3 ==> read_line(m, line, n) == Err::<ObjModel, ObjError>(ObjError::MissingCornerField(n)),
        split_on(line, 0x20)[0] == seq![0x66u8] && split_on(line, 0x20).len() >= 4 && split_on(
            split_on(line, 0x20)[1],
            0x2f,
        ).len() >= 3 && split_on(split_on(line, 0x20)[2], 0x2f).len() >= 3 && split_on(
            split_on(line, 0x20)[3],
            0x2f,
        ).len() >= 3 && usize_value(split_on(split_on(line, 0x20)[1], 0x2f)[0]) is None ==> read_line(
            m,
            line,
            n,
        ) == Err::<ObjModel, ObjError>(ObjError::BadVertexIndex(n)),
{
    let parts = split_on(line, SPACE);
    if parts[0] == seq![0x66u8] {
        assert(parts[0] != seq![VERTEX_KEYWORD]) by {
            assert(parts[0][0] == 0x66u8);
        }
    }
}

} // verus!
