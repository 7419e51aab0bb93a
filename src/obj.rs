//! Reader for the OBJ-style triangle meshes that mesh surfaces are built from.
//!
//! The reader works on the file's bytes. Vertex positions (`v x y z`), vertex
//! normals (`vn x y z`) and texture coordinates (`vt u v`) are kept as the
//! text of their numbers; turning that text into floating-point values is left
//! to the caller. Faces (`f a b c`) are triangles whose three corners are
//! written `v/vt/vn` with one-based indices into the records read so far. Each
//! distinct corner becomes one entry of `corners`, and `indices` lists, three
//! per triangle, which corner each face corner is. Other lines are ignored.
use vstd::prelude::*;
use crate::text::{
    all_digits, decimal, decimal_at_most, digits_only, lemma_texts_push, split_bytes, split_on, split_tokens, texts,
    tokens,
};

verus! {

/// One corner of a triangle: zero-based indices of its position, texture
/// coordinate and normal records.
#[derive(Clone, Copy, Debug, PartialEq, Eq, Structural)]
pub struct Corner {
    pub vertex: usize,
    pub texture: usize,
    pub normal: usize,
}

/// Why a mesh file was refused; `line` counts from zero.
#[derive(Clone, Copy, Debug, PartialEq, Eq, Structural)]
pub enum ObjError {
    /// A `v` or `vn` line with fewer than three numbers, or a `vt` line with
    /// fewer than two.
    MissingCoordinate { line: usize },
    /// An `f` line that does not list exactly three corners.
    NotATriangle { line: usize },
    /// A face corner that is not three decimal numbers joined by `/`.
    BadFaceElement { line: usize },
    /// A face corner index that is zero or names a record not yet read.
    IndexOutOfRange { line: usize },
}

/// Why a single face corner was refused.
#[derive(Clone, Copy, Debug, PartialEq, Eq, Structural)]
pub enum CornerFault {
    Syntax,
    Range,
}

/// The kind of an OBJ line, by its first token.
#[derive(Clone, Copy, Debug, PartialEq, Eq, Structural)]
pub enum LineKind {
    Position,
    Normal,
    TextureCoord,
    Face,
    Other,
}

/// What the lines read so far describe: the records, each as the text of
/// its numbers, and every face corner in the order written.
pub struct ObjModel {
    pub positions: Seq<Seq<Seq<u8>>>,
    pub normals: Seq<Seq<Seq<u8>>>,
    pub texture_coords: Seq<Seq<Seq<u8>>>,
    pub references: Seq<Corner>,
}

pub open spec fn empty_model() -> ObjModel {
    ObjModel { positions: seq![], normals: seq![], texture_coords: seq![], references: seq![] }
}

/// `v`, `vn`, `vt` and `f` name the four kinds of line that are read.
pub open spec fn line_kind(t: Seq<u8>) -> LineKind {
    if t == seq![118u8] {
        LineKind::Position
    } else if t == seq![118u8, 110u8] {
        LineKind::Normal
    } else if t == seq![118u8, 116u8] {
        LineKind::TextureCoord
    } else if t == seq![102u8] {
        LineKind::Face
    } else {
        LineKind::Other
    }
}

/// The corner written `tok` (`v/vt/vn`, one-based) when `nv` positions, `nt`
/// texture coordinates and `nn` normals have been read.
pub open spec fn corner_of(tok: Seq<u8>, nv: nat, nt: nat, nn: nat) -> Result<Corner, CornerFault> {
    let parts = split_on(tok, 47u8);
    if parts.len() != 3 || !all_digits(parts[0]) || !all_digits(parts[1]) || !all_digits(parts[2]) {
        Err(CornerFault::Syntax)
    } else {
        let v = decimal(parts[0]);
        let t = decimal(parts[1]);
        let n = decimal(parts[2]);
        if 1 <= v <= nv && 1 <= t <= nt && 1 <= n <= nn {
            Ok(Corner { vertex: (v - 1) as usize, texture: (t - 1) as usize, normal: (n - 1) as usize })
        } else {
            Err(CornerFault::Range)
        }
    }
}

pub open spec fn fault_error(f: CornerFault, line: nat) -> ObjError {
    match f {
        CornerFault::Syntax => ObjError::BadFaceElement { line: line as usize },
        CornerFault::Range => ObjError::IndexOutOfRange { line: line as usize },
    }
}

/// The face line `toks` (keyword included) read on top of `m`: its corners
/// are appended, or the first faulty corner decides the error.
pub open spec fn face_step(m: ObjModel, toks: Seq<Seq<u8>>, line: nat) -> Result<ObjModel, ObjError> {
    if toks.len() != 4 {
        Err(ObjError::NotATriangle { line: line as usize })
    } else {
        let nv = m.positions.len();
        let nt = m.texture_coords.len();
        let nn = m.normals.len();
        let a = corner_of(toks[1], nv, nt, nn);
        let b = corner_of(toks[2], nv, nt, nn);
        let c = corner_of(toks[3], nv, nt, nn);
        if a is Err {
            Err(fault_error(a->Err_0, line))
        } else if b is Err {
            Err(fault_error(b->Err_0, line))
        } else if c is Err {
            Err(fault_error(c->Err_0, line))
        } else {
            Ok(ObjModel {
                references: m.references.push(a->Ok_0).push(b->Ok_0).push(c->Ok_0),
                ..m
            })
        }
    }
}

/// The line with tokens `toks`, number `line`, read on top of `m`.
pub open spec fn line_step(m: ObjModel, toks: Seq<Seq<u8>>, line: nat) -> Result<ObjModel, ObjError> {
    if toks.len() == 0 {
        Ok(m)
    } else {
        match line_kind(toks[0]) {
            LineKind::Position => if toks.len() < 4 {
                Err(ObjError::MissingCoordinate { line: line as usize })
            } else {
                Ok(ObjModel { positions: m.positions.push(toks.subrange(1, 4)), ..m })
            },
            LineKind::Normal => if toks.len() < 4 {
                Err(ObjError::MissingCoordinate { line: line as usize })
            } else {
                Ok(ObjModel { normals: m.normals.push(toks.subrange(1, 4)), ..m })
            },
            LineKind::TextureCoord => if toks.len() < 3 {
                Err(ObjError::MissingCoordinate { line: line as usize })
            } else {
                Ok(ObjModel { texture_coords: m.texture_coords.push(toks.subrange(1, 3)), ..m })
            },
            LineKind::Face => face_step(m, toks, line),
            LineKind::Other => Ok(m),
        }
    }
}

/// The lines `ls` read in order; the first refused line decides the error.
pub open spec fn read_lines(ls: Seq<Seq<u8>>) -> Result<ObjModel, ObjError>
    decreases ls.len(),
{
    if ls.len() == 0 {
        Ok(empty_model())
    } else {
        match read_lines(ls.drop_last()) {
            Ok(m) => line_step(m, tokens(ls.last()), (ls.len() - 1) as nat),
            Err(e) => Err(e),
        }
    }
}

/// What the mesh file `data` describes: its lines are cut at `\n`.
pub open spec fn obj_spec(data: Seq<u8>) -> Result<ObjModel, ObjError> {
    read_lines(split_on(data, 10u8))
}

/// The distinct elements of `s`, in order of first occurrence.
pub open spec fn dedup(s: Seq<Corner>) -> Seq<Corner>
    decreases s.len(),
{
    if s.len() == 0 {
        seq![]
    } else {
        let d = dedup(s.drop_last());
        if d.contains(s.last()) {
            d
        } else {
            d.push(s.last())
        }
    }
}

/// For each element of `refs`, its position in `d`.
pub open spec fn index_map(d: Seq<Corner>, refs: Seq<Corner>) -> Seq<int> {
    refs.map_values(|c: Corner| d.index_of(c))
}

pub open spec fn widen(v: Seq<usize>) -> Seq<int> {
    v.map_values(|i: usize| i as int)
}

pub open spec fn records(v: Seq<Vec<Vec<u8>>>) -> Seq<Seq<Seq<u8>>> {
    v.map_values(|r: Vec<Vec<u8>>| texts(r@))
}

/// A mesh read from an OBJ file.
pub struct ObjMesh {
    /// The three coordinates of each `v` line, as text.
    pub positions: Vec<Vec<Vec<u8>>>,
    /// The three coordinates of each `vn` line, as text.
    pub normals: Vec<Vec<Vec<u8>>>,
    /// The two coordinates of each `vt` line, as text.
    pub texture_coords: Vec<Vec<Vec<u8>>>,
    /// The distinct face corners, in order of first use.
    pub corners: Vec<Corner>,
    /// For every face corner, in file order, its index in `corners`; three
    /// consecutive entries form one triangle.
    pub indices: Vec<usize>,
}

impl ObjMesh {
    /// Every corner names existing records, every index names a corner, and
    /// the indices form whole triangles.
    pub open spec fn well_formed(&self) -> bool {
        &&& forall|i: int|
            0 <= i < self.corners@.len() ==> (#[trigger] self.corners@[i]).vertex < self.positions@.len()
                && self.corners@[i].texture < self.texture_coords@.len() && self.corners@[i].normal
                < self.normals@.len()
        &&& forall|k: int| 0 <= k < self.indices@.len() ==> (#[trigger] self.indices@[k]) < self.corners@.len()
        &&& self.indices@.len() % 3 == 0
        &&& forall|i: int| 0 <= i < self.positions@.len() ==> (#[trigger] self.positions@[i]).len() == 3
        &&& forall|i: int| 0 <= i < self.normals@.len() ==> (#[trigger] self.normals@[i]).len() == 3
        &&& forall|i: int| 0 <= i < self.texture_coords@.len() ==> (#[trigger] self.texture_coords@[i]).len() == 2
    }

    /// Whether this mesh is what the model `m` describes.
    pub open spec fn represents(&self, m: ObjModel) -> bool {
        &&& records(self.positions@) == m.positions
        &&& records(self.normals@) == m.normals
        &&& records(self.texture_coords@) == m.texture_coords
        &&& self.corners@ == dedup(m.references)
        &&& widen(self.indices@) == index_map(dedup(m.references), m.references)
    }
}

proof fn lemma_dedup(s: Seq<Corner>)
    ensures
        dedup(s).no_duplicates(),
        forall|k: int| 0 <= k < s.len() ==> dedup(s).contains(#[trigger] s[k]),
        forall|i: int| 0 <= i < dedup(s).len() ==> s.contains(#[trigger] dedup(s)[i]),
    decreases s.len(),
{
    if s.len() > 0 {
        let p = s.drop_last();
        lemma_dedup(p);
        assert forall|k: int| 0 <= k < s.len() implies dedup(s).contains(#[trigger] s[k]) by {
            if k < s.len() - 1 {
                assert(p[k] == s[k]);
                let j = choose|j: int| 0 <= j < dedup(p).len() && dedup(p)[j] == p[k];
                assert(dedup(s)[j] == s[k]);
            } else {
                if !dedup(p).contains(s.last()) {
                    assert(dedup(s)[dedup(s).len() - 1] == s[k]);
                }
            }
        }
        assert forall|i: int| 0 <= i < dedup(s).len() implies s.contains(#[trigger] dedup(s)[i]) by {
            if i < dedup(p).len() {
                assert(dedup(s)[i] == dedup(p)[i]);
                let k = choose|k: int| 0 <= k < p.len() && p[k] == dedup(p)[i];
                assert(s[k] == p[k]);
            } else {
                assert(s[s.len() - 1] == dedup(s)[i]);
            }
        }
    }
}

proof fn lemma_index_of_unique(d: Seq<Corner>, x: Corner, j: int)
    requires
        d.no_duplicates(),
        0 <= j < d.len(),
        d[j] == x,
    ensures
        d.index_of(x) == j,
{
    assert(d.contains(x));
}

proof fn lemma_index_map_push(s: Seq<Corner>, c: Corner)
    ensures
        index_map(dedup(s.push(c)), s.push(c)) == index_map(dedup(s), s).push(
            dedup(s.push(c)).index_of(c),
        ),
{
    let t = s.push(c);
    assert(t.drop_last() =~= s);
    lemma_dedup(s);
    lemma_dedup(t);
    assert forall|k: int| 0 <= k < s.len() implies #[trigger] dedup(t).index_of(s[k]) == dedup(s).index_of(s[k]) by {
        assert(dedup(s).contains(s[k]));
        let j = dedup(s).index_of(s[k]);
        assert(dedup(t)[j] == s[k]);
        lemma_index_of_unique(dedup(t), s[k], j);
    }
    assert(index_map(dedup(t), t) =~= index_map(dedup(s), s).push(dedup(t).index_of(c)));
}

proof fn lemma_widen_push(v: Seq<usize>, x: usize)
    ensures
        widen(v.push(x)) == widen(v).push(x as int),
{
    assert(widen(v.push(x)) =~= widen(v).push(x as int));
}

proof fn lemma_error_persists(ls: Seq<Seq<u8>>, k: int)
    requires
        0 <= k <= ls.len(),
        read_lines(ls.take(k)) is Err,
    ensures
        read_lines(ls) == read_lines(ls.take(k)),
    decreases ls.len() - k,
{
    if k < ls.len() {
        assert(ls.take(k + 1).drop_last() =~= ls.take(k));
        lemma_error_persists(ls, k + 1);
    } else {
        assert(ls.take(k) =~= ls);
    }
}

fn copy_bytes(s: &Vec<u8>) -> (r: Vec<u8>)
    ensures
        r@ == s@,
{
    let mut r: Vec<u8> = Vec::new();
    let mut i: usize = 0;
    while i < s.len()
        invariant
            0 <= i <= s.len(),
            r@ == s@.take(i as int),
        decreases s.len() - i,
    {
        r.push(s[i]);
        i += 1;
        assert(r@ =~= s@.take(i as int));
    }
    assert(s@.take(i as int) =~= s@);
    r
}

/// Tokens `1..=n` of `toks`, copied.
fn copy_fields(toks: &Vec<Vec<u8>>, n: usize) -> (r: Vec<Vec<u8>>)
    requires
        n < toks.len(),
    ensures
        texts(r@) == texts(toks@).subrange(1, n + 1),
{
    let mut r: Vec<Vec<u8>> = Vec::new();
    let mut i: usize = 1;
    while i <= n
        invariant
            1 <= i <= n + 1,
            n < toks.len(),
            texts(r@) == texts(toks@).subrange(1, i as int),
        decreases n + 1 - i,
    {
        let t = copy_bytes(&toks[i]);
        proof {
            lemma_texts_push(r@, t);
            assert(texts(toks@)[i as int] == toks@[i as int]@);
        }
        r.push(t);
        assert(texts(r@) =~= texts(toks@).subrange(1, i + 1));
        i += 1;
    }
    r
}

/// The kind of a line whose first token is `t`.
fn kind_of(t: &Vec<u8>) -> (r: LineKind)
    ensures
        r == line_kind(t@),
{
    let n = t.len();
    let r = if n == 1 && t[0] == 118 {
        LineKind::Position
    } else if n == 2 && t[0] == 118 && t[1] == 110 {
        LineKind::Normal
    } else if n == 2 && t[0] == 118 && t[1] == 116 {
        LineKind::TextureCoord
    } else if n == 1 && t[0] == 102 {
        LineKind::Face
    } else {
        LineKind::Other
    };
    assert(t@ == seq![118u8] <==> (n == 1 && t@[0] == 118)) by {
        if n == 1 && t@[0] == 118 {
            assert(t@ =~= seq![118u8]);
        }
    }
    assert(t@ == seq![118u8, 110u8] <==> (n == 2 && t@[0] == 118 && t@[1] == 110)) by {
        if n == 2 && t@[0] == 118 && t@[1] == 110 {
            assert(t@ =~= seq![118u8, 110u8]);
        }
    }
    assert(t@ == seq![118u8, 116u8] <==> (n == 2 && t@[0] == 118 && t@[1] == 116)) by {
        if n == 2 && t@[0] == 118 && t@[1] == 116 {
            assert(t@ =~= seq![118u8, 116u8]);
        }
    }
    assert(t@ == seq![102u8] <==> (n == 1 && t@[0] == 102)) by {
        if n == 1 && t@[0] == 102 {
            assert(t@ =~= seq![102u8]);
        }
    }
    r
}

/// Reads one face corner `v/vt/vn` against the record counts.
fn parse_corner(tok: &Vec<u8>, nv: usize, nt: usize, nn: usize) -> (r: Result<Corner, CornerFault>)
    ensures
        r == corner_of(tok@, nv as nat, nt as nat, nn as nat),
{
    let parts = split_bytes(tok.as_slice(), 47);
    proof {
        if parts.len() == 3 {
            assert(texts(parts@)[0] == parts@[0]@);
            assert(texts(parts@)[1] == parts@[1]@);
            assert(texts(parts@)[2] == parts@[2]@);
        }
    }
    if parts.len() != 3 {
        return Err(CornerFault::Syntax);
    }
    if !digits_only(parts[0].as_slice()) || !digits_only(parts[1].as_slice()) || !digits_only(
        parts[2].as_slice(),
    ) {
        return Err(CornerFault::Syntax);
    }
    let v = decimal_at_most(parts[0].as_slice(), nv);
    let t = decimal_at_most(parts[1].as_slice(), nt);
    let n = decimal_at_most(parts[2].as_slice(), nn);
    match (v, t, n) {
        (Some(v), Some(t), Some(n)) => {
            if v == 0 || t == 0 || n == 0 {
                Err(CornerFault::Range)
            } else {
                Ok(Corner { vertex: v - 1, texture: t - 1, normal: n - 1 })
            }
        },
        _ => Err(CornerFault::Range),
    }
}

proof fn lemma_records_push(v: Seq<Vec<Vec<u8>>>, r: Vec<Vec<u8>>)
    ensures
        records(v.push(r)) == records(v).push(texts(r@)),
{
    assert(records(v.push(r)) =~= records(v).push(texts(r@)));
}

/// A mesh under construction, with, for each position record, the corners
/// that use it, so that a repeated corner is found without a full scan.
struct MeshBuilder {
    mesh: ObjMesh,
    by_vertex: Vec<Vec<usize>>,
}

impl MeshBuilder {
    spec fn index_ok(&self) -> bool {
        let corners = self.mesh.corners@;
        let b = self.by_vertex@;
        &&& b.len() == self.mesh.positions@.len()
        &&& forall|v: int, j: int|
            0 <= v < b.len() && 0 <= j < b[v]@.len() ==> (#[trigger] b[v]@[j]) < corners.len()
                && corners[b[v]@[j] as int].vertex == v
        &&& forall|i: int|
            0 <= i < corners.len() ==> (#[trigger] corners[i]).vertex < b.len()
                && b[corners[i].vertex as int]@.contains(i as usize)
    }

    /// Appends the face corner `c`, reusing its entry in `corners` if it has one.
    fn insert_corner(&mut self, c: Corner, Ghost(m): Ghost<ObjModel>)
        requires
            old(self).index_ok(),
            old(self).mesh.represents(m),
            c.vertex < old(self).mesh.positions.len(),
        ensures
            final(self).index_ok(),
            final(self).mesh.represents(ObjModel { references: m.references.push(c), ..m }),
    {
        let ghost refs = m.references;
        let ghost t = refs.push(c);
        proof {
            lemma_dedup(refs);
            lemma_dedup(t);
            lemma_index_map_push(refs, c);
            assert(t.drop_last() =~= refs);
        }
        let v = c.vertex;
        let n = self.by_vertex[v].len();
        let nc = self.mesh.corners.len();
        let mut j: usize = 0;
        while j < n
            invariant
                0 <= j <= n,
                v == c.vertex,
                v < self.by_vertex@.len(),
                n == self.by_vertex@[v as int]@.len(),
                self.index_ok(),
                *self == *old(self),
                nc == self.mesh.corners@.len(),
                self.mesh.represents(m),
                refs == m.references,
                t == refs.push(c),
                t.drop_last() == refs,
                dedup(refs).no_duplicates(),
                dedup(t).no_duplicates(),
                index_map(dedup(t), t) == index_map(dedup(refs), refs).push(dedup(t).index_of(c)),
                forall|jj: int| 0 <= jj < j ==> self.mesh.corners@[#[trigger] self.by_vertex@[v as int]@[jj] as int] != c,
            decreases n - j,
        {
            let id = self.by_vertex[v][j];
            if self.mesh.corners[id] == c {
                proof {
                    assert(dedup(t) == dedup(refs));
                    lemma_index_of_unique(dedup(t), c, id as int);
                    lemma_widen_push(self.mesh.indices@, id);
                }
                self.mesh.indices.push(id);
                return;
            }
            j += 1;
        }
        proof {
            assert(!dedup(refs).contains(c)) by {
                if dedup(refs).contains(c) {
                    let i = choose|i: int| 0 <= i < dedup(refs).len() && dedup(refs)[i] == c;
                    let corners = self.mesh.corners@;
                    let bucket = self.by_vertex@[v as int]@;
                    assert(corners[i] == c);
                    assert(i < nc);
                    assert(corners[i].vertex == v);
                    assert(bucket.contains(i as usize));
                    let jj = choose|jj: int| 0 <= jj < bucket.len() && bucket[jj] == i as usize;
                    assert(bucket[jj] as int == i);
                    assert(corners[bucket[jj] as int] != c);
                }
            }
            assert(dedup(t) == dedup(refs).push(c));
        }
        let id = self.mesh.corners.len();
        proof {
            lemma_widen_push(self.mesh.indices@, id);
        }
        self.mesh.corners.push(c);
        self.by_vertex[v].push(id);
        self.mesh.indices.push(id);
        proof {
            lemma_index_of_unique(dedup(t), c, id as int);
            let corners = self.mesh.corners@;
            let b = self.by_vertex@;
            assert(b[v as int]@ == old(self).by_vertex@[v as int]@.push(id));
            assert(forall|w: int| 0 <= w < b.len() && w != v ==> b[w] == old(self).by_vertex@[w]);
            assert forall|i: int| 0 <= i < corners.len() implies (#[trigger] corners[i]).vertex < b.len()
                && b[corners[i].vertex as int]@.contains(i as usize) by {
                if i == id {
                    assert(b[v as int]@[b[v as int]@.len() - 1] == id);
                } else {
                    assert(old(self).by_vertex@[corners[i].vertex as int]@.contains(i as usize));
                    let jj = choose|jj: int| 0 <= jj < old(self).by_vertex@[corners[i].vertex as int]@.len()
                        && old(self).by_vertex@[corners[i].vertex as int]@[jj] == i as usize;
                    assert(b[corners[i].vertex as int]@[jj] == i as usize);
                }
            }
            assert forall|w: int, jj: int| 0 <= w < b.len() && 0 <= jj < b[w]@.len() implies (#[trigger] b[w]@[jj]) < corners.len()
                && corners[b[w]@[jj] as int].vertex == w by {
                if w == v && jj == b[w]@.len() - 1 {
                } else {
                    assert(b[w]@[jj] == old(self).by_vertex@[w]@[jj]);
                }
            }
        }
    }

    /// Reads one line, given as its tokens.
    fn read_line(&mut self, toks: &Vec<Vec<u8>>, line: usize, Ghost(m): Ghost<ObjModel>) -> (r: Result<(), ObjError>)
        requires
            old(self).index_ok(),
            old(self).mesh.represents(m),
        ensures
            line_step(m, texts(toks@), line as nat) is Ok ==> r is Ok && final(self).index_ok()
                && final(self).mesh.represents(line_step(m, texts(toks@), line as nat)->Ok_0),
            line_step(m, texts(toks@), line as nat) is Err ==> r == Err::<(), ObjError>(
                line_step(m, texts(toks@), line as nat)->Err_0,
            ),
    {
        let ghost ts = texts(toks@);
        if toks.len() == 0 {
            return Ok(());
        }
        assert(ts[0] == toks@[0]@);
        let kind = kind_of(&toks[0]);
        match kind {
            LineKind::Position => {
                if toks.len() < 4 {
                    return Err(ObjError::MissingCoordinate { line });
                }
                let rec = copy_fields(toks, 3);
                proof {
                    lemma_records_push(self.mesh.positions@, rec);
                }
                self.mesh.positions.push(rec);
                self.by_vertex.push(Vec::new());
                proof {
                    let corners = self.mesh.corners@;
                    let b = self.by_vertex@;
                    assert forall|i: int| 0 <= i < corners.len() implies (#[trigger] corners[i]).vertex < b.len()
                        && b[corners[i].vertex as int]@.contains(i as usize) by {
                        assert(b[corners[i].vertex as int] == old(self).by_vertex@[corners[i].vertex as int]);
                    }
                    assert forall|w: int, jj: int| 0 <= w < b.len() && 0 <= jj < b[w]@.len() implies (#[trigger] b[w]@[jj]) < corners.len()
                        && corners[b[w]@[jj] as int].vertex == w by {
                        assert(b[w] == old(self).by_vertex@[w]);
                    }
                }
                Ok(())
            },
            LineKind::Normal => {
                if toks.len() < 4 {
                    return Err(ObjError::MissingCoordinate { line });
                }
                let rec = copy_fields(toks, 3);
                proof {
                    lemma_records_push(self.mesh.normals@, rec);
                }
                self.mesh.normals.push(rec);
                Ok(())
            },
            LineKind::TextureCoord => {
                if toks.len() < 3 {
                    return Err(ObjError::MissingCoordinate { line });
                }
                let rec = copy_fields(toks, 2);
                proof {
                    lemma_records_push(self.mesh.texture_coords@, rec);
                }
                self.mesh.texture_coords.push(rec);
                Ok(())
            },
            LineKind::Face => {
                if toks.len() != 4 {
                    return Err(ObjError::NotATriangle { line });
                }
                assert(ts[1] == toks@[1]@ && ts[2] == toks@[2]@ && ts[3] == toks@[3]@);
                let nv = self.mesh.positions.len();
                let nt = self.mesh.texture_coords.len();
                let nn = self.mesh.normals.len();
                let a = parse_corner(&toks[1], nv, nt, nn);
                let b = parse_corner(&toks[2], nv, nt, nn);
                let c = parse_corner(&toks[3], nv, nt, nn);
                match (a, b, c) {
                    (Ok(a), Ok(b), Ok(c)) => {
                        let ghost m1 = ObjModel { references: m.references.push(a), ..m };
                        let ghost m2 = ObjModel { references: m1.references.push(b), ..m1 };
                        self.insert_corner(a, Ghost(m));
                        self.insert_corner(b, Ghost(m1));
                        self.insert_corner(c, Ghost(m2));
                        Ok(())
                    },
                    (Err(CornerFault::Syntax), _, _) => Err(ObjError::BadFaceElement { line }),
                    (Err(CornerFault::Range), _, _) => Err(ObjError::IndexOutOfRange { line }),
                    (_, Err(CornerFault::Syntax), _) => Err(ObjError::BadFaceElement { line }),
                    (_, Err(CornerFault::Range), _) => Err(ObjError::IndexOutOfRange { line }),
                    (_, _, Err(CornerFault::Syntax)) => Err(ObjError::BadFaceElement { line }),
                    (_, _, Err(CornerFault::Range)) => Err(ObjError::IndexOutOfRange { line }),
                }
            },
            LineKind::Other => Ok(()),
        }
    }
}

/// Reads the mesh file `data`. The result is what `obj_spec` says the file
/// describes, with its corners deduplicated; the error is that of the first
/// refused line.
pub fn parse_obj(data: &[u8]) -> (r: Result<ObjMesh, ObjError>)
    ensures
        r is Ok <==> obj_spec(data@) is Ok,
        r is Ok ==> r->Ok_0.represents(obj_spec(data@)->Ok_0),
        r is Ok ==> r->Ok_0.well_formed(),
        r is Err ==> obj_spec(data@) == Err::<ObjModel, ObjError>(r->Err_0),
{
    let lines = split_bytes(data, 10);
    let ghost ls = texts(lines@);
    let mut b = MeshBuilder {
        mesh: ObjMesh {
            positions: Vec::new(),
            normals: Vec::new(),
            texture_coords: Vec::new(),
            corners: Vec::new(),
            indices: Vec::new(),
        },
        by_vertex: Vec::new(),
    };
    proof {
        assert(ls.take(0) =~= Seq::<Seq<u8>>::empty());
        assert(records(b.mesh.positions@) =~= Seq::<Seq<Seq<u8>>>::empty());
        assert(records(b.mesh.normals@) =~= Seq::<Seq<Seq<u8>>>::empty());
        assert(records(b.mesh.texture_coords@) =~= Seq::<Seq<Seq<u8>>>::empty());
        assert(index_map(dedup(seq![]), seq![]) =~= Seq::<int>::empty());
        assert(widen(b.mesh.indices@) =~= Seq::<int>::empty());
    }
    let mut k: usize = 0;
    while k < lines.len()
        invariant
            ls == texts(lines@),
            ls == split_on(data@, 10u8),
            0 <= k <= lines.len(),
            read_lines(ls.take(k as int)) is Ok,
            b.index_ok(),
            b.mesh.represents(read_lines(ls.take(k as int))->Ok_0),
        decreases lines.len() - k,
    {
        let toks = split_tokens(lines[k].as_slice());
        let ghost m = read_lines(ls.take(k as int))->Ok_0;
        proof {
            assert(ls.take(k + 1).drop_last() =~= ls.take(k as int));
            assert(ls.take(k + 1).last() == lines@[k as int]@);
        }
        match b.read_line(&toks, k, Ghost(m)) {
            Ok(()) => {},
            Err(e) => {
                proof {
                    lemma_error_persists(ls, k + 1);
                }
                return Err(e);
            },
        }
        k += 1;
    }
    proof {
        assert(ls.take(k as int) =~= ls);
        lemma_mesh_well_formed(data@);
        let m = obj_spec(data@)->Ok_0;
        let mesh = b.mesh;
        assert forall|i: int| 0 <= i < mesh.positions@.len() implies (#[trigger] mesh.positions@[i]).len() == 3 by {
            assert(records(mesh.positions@)[i] == texts(mesh.positions@[i]@));
        }
        assert forall|i: int| 0 <= i < mesh.normals@.len() implies (#[trigger] mesh.normals@[i]).len() == 3 by {
            assert(records(mesh.normals@)[i] == texts(mesh.normals@[i]@));
        }
        assert forall|i: int| 0 <= i < mesh.texture_coords@.len() implies (#[trigger] mesh.texture_coords@[i]).len() == 2 by {
            assert(records(mesh.texture_coords@)[i] == texts(mesh.texture_coords@[i]@));
        }
        assert forall|k: int| 0 <= k < mesh.indices@.len() implies (#[trigger] mesh.indices@[k]) < mesh.corners@.len() by {
            assert(widen(mesh.indices@)[k] == mesh.indices@[k] as int);
        }
        assert(mesh.indices@.len() == widen(mesh.indices@).len());
    }
    Ok(b.mesh)
}

/// The records of `m` have their full number of coordinates, its face
/// corners come in whole triangles, and each names records that exist.
pub open spec fn model_well_formed(m: ObjModel) -> bool {
    &&& forall|i: int| 0 <= i < m.positions.len() ==> (#[trigger] m.positions[i]).len() == 3
    &&& forall|i: int| 0 <= i < m.normals.len() ==> (#[trigger] m.normals[i]).len() == 3
    &&& forall|i: int| 0 <= i < m.texture_coords.len() ==> (#[trigger] m.texture_coords[i]).len() == 2
    &&& m.references.len() % 3 == 0
    &&& forall|k: int|
        0 <= k < m.references.len() ==> (#[trigger] m.references[k]).vertex < m.positions.len()
            && m.references[k].texture < m.texture_coords.len() && m.references[k].normal
            < m.normals.len()
}

proof fn lemma_corner_in_range(tok: Seq<u8>, nv: nat, nt: nat, nn: nat)
    requires
        corner_of(tok, nv, nt, nn) is Ok,
    ensures
        corner_of(tok, nv, nt, nn)->Ok_0.vertex < nv,
        corner_of(tok, nv, nt, nn)->Ok_0.texture < nt,
        corner_of(tok, nv, nt, nn)->Ok_0.normal < nn,
{
}

proof fn lemma_step_well_formed(m: ObjModel, toks: Seq<Seq<u8>>, line: nat)
    requires
        model_well_formed(m),
        line_step(m, toks, line) is Ok,
    ensures
        model_well_formed(line_step(m, toks, line)->Ok_0),
{
    let r = line_step(m, toks, line)->Ok_0;
    if toks.len() > 0 && line_kind(toks[0]) == LineKind::Face {
        let nv = m.positions.len();
        let nt = m.texture_coords.len();
        let nn = m.normals.len();
        lemma_corner_in_range(toks[1], nv, nt, nn);
        lemma_corner_in_range(toks[2], nv, nt, nn);
        lemma_corner_in_range(toks[3], nv, nt, nn);
        assert forall|k: int| 0 <= k < r.references.len() implies (#[trigger] r.references[k]).vertex
            < r.positions.len() && r.references[k].texture < r.texture_coords.len()
            && r.references[k].normal < r.normals.len() by {
            if k < m.references.len() {
                assert(r.references[k] == m.references[k]);
            }
        }
    } else if toks.len() > 0 && line_kind(toks[0]) == LineKind::Position {
        assert(r.positions.last().len() == 3);
    } else if toks.len() > 0 && line_kind(toks[0]) == LineKind::Normal {
        assert(r.normals.last().len() == 3);
    } else if toks.len() > 0 && line_kind(toks[0]) == LineKind::TextureCoord {
        assert(r.texture_coords.last().len() == 2);
    }
}

proof fn lemma_read_well_formed(ls: Seq<Seq<u8>>)
    requires
        read_lines(ls) is Ok,
    ensures
        model_well_formed(read_lines(ls)->Ok_0),
    decreases ls.len(),
{
    if ls.len() > 0 {
        lemma_read_well_formed(ls.drop_last());
        lemma_step_well_formed(read_lines(ls.drop_last())->Ok_0, tokens(ls.last()), (ls.len() - 1) as nat);
    }
}

/// A mesh that was read is a valid indexed triangle list: position and
/// normal records have three coordinates and texture records two; the
/// corners are distinct and name existing records; the index list holds
/// whole triangles, and each entry names the corner written at its place.
pub proof fn lemma_mesh_well_formed(data: Seq<u8>)
    requires
        obj_spec(data) is Ok,
    ensures
        ({
            let m = obj_spec(data)->Ok_0;
            let corners = dedup(m.references);
            let indices = index_map(corners, m.references);
            &&& forall|i: int| 0 <= i < m.positions.len() ==> (#[trigger] m.positions[i]).len() == 3
            &&& forall|i: int| 0 <= i < m.normals.len() ==> (#[trigger] m.normals[i]).len() == 3
            &&& forall|i: int| 0 <= i < m.texture_coords.len() ==> (#[trigger] m.texture_coords[i]).len() == 2
            &&& corners.no_duplicates()
            &&& forall|i: int|
                0 <= i < corners.len() ==> (#[trigger] corners[i]).vertex < m.positions.len()
                    && corners[i].texture < m.texture_coords.len() && corners[i].normal < m.normals.len()
            &&& indices.len() % 3 == 0
            &&& indices.len() == m.references.len()
            &&& forall|k: int|
                0 <= k < indices.len() ==> 0 <= #[trigger] indices[k] < corners.len()
                    && corners[indices[k]] == m.references[k]
        }),
{
    let m = obj_spec(data)->Ok_0;
    let refs = m.references;
    let corners = dedup(refs);
    let indices = index_map(corners, refs);
    lemma_read_well_formed(split_on(data, 10u8));
    lemma_dedup(refs);
    assert forall|i: int| 0 <= i < corners.len() implies (#[trigger] corners[i]).vertex < m.positions.len()
        && corners[i].texture < m.texture_coords.len() && corners[i].normal < m.normals.len() by {
        assert(refs.contains(corners[i]));
        let k = choose|k: int| 0 <= k < refs.len() && refs[k] == corners[i];
        assert(refs[k].vertex < m.positions.len());
    }
    assert forall|k: int| 0 <= k < indices.len() implies 0 <= #[trigger] indices[k] < corners.len()
        && corners[indices[k]] == refs[k] by {
        assert(corners.contains(refs[k]));
    }
}

} // verus!
