use vstd::prelude::*;

verus! {

/// One vertex of a static mesh: four attributes of four components each,
/// every component held as the bit pattern of its IEEE-754 single-precision
/// value.
#[derive(Clone, Copy, Debug, PartialEq, Eq)]
pub struct Vertex {
    /// Model-space position.
    pub position: [u32; 4],
    /// Texture coordinates.
    pub tex_coord: [u32; 4],
    /// Normal.
    pub normal: [u32; 4],
    /// Tangent.
    pub tangent: [u32; 4],
}

/// Why mesh bytes could not be read.
#[derive(Clone, Copy, Debug, PartialEq, Eq)]
pub enum MeshError {
    /// The bytes end before the part that the counts announce.
    UnexpectedEof,
}

/// Number of bytes of one stored vertex.
pub const VERTEX_BYTES: usize = 64;

/// The little-endian unsigned 32-bit word at byte `at`.
pub open spec fn le_word(b: Seq<u8>, at: int) -> int {
    b[at] + b[at + 1] * 0x100 + b[at + 2] * 0x1_0000 + b[at + 3] * 0x100_0000
}

/// The little-endian signed 32-bit count at byte `at`.
pub open spec fn le_count(b: Seq<u8>, at: int) -> int {
    if le_word(b, at) < 0x8000_0000 {
        le_word(b, at)
    } else {
        le_word(b, at) - 0x1_0000_0000
    }
}

/// Layout of the mesh format: a vertex count, the vertices, the length of a
/// name, the name, an index count, the indices; counts are little-endian
/// `i32`, vertex components and indices little-endian 32-bit words.
pub open spec fn vertex_count(b: Seq<u8>) -> int {
    le_count(b, 0)
}

pub open spec fn name_len_at(b: Seq<u8>) -> int {
    4 + 64 * vertex_count(b)
}

pub open spec fn name_len(b: Seq<u8>) -> int {
    le_count(b, name_len_at(b))
}

pub open spec fn index_count_at(b: Seq<u8>) -> int {
    name_len_at(b) + 4 + name_len(b)
}

pub open spec fn index_count(b: Seq<u8>) -> int {
    le_count(b, index_count_at(b))
}

pub open spec fn indices_at(b: Seq<u8>) -> int {
    index_count_at(b) + 4
}

pub open spec fn mesh_end(b: Seq<u8>) -> int {
    indices_at(b) + 4 * index_count(b)
}

/// Every count that a reader reaches before the bytes run out is
/// non-negative.
pub open spec fn counts_nonnegative(b: Seq<u8>) -> bool {
    b.len() >= 4 ==> {
        &&& vertex_count(b) >= 0
        &&& b.len() >= name_len_at(b) + 4 ==> {
            &&& name_len(b) >= 0
            &&& b.len() >= index_count_at(b) + 4 ==> index_count(b) >= 0
        }
    }
}

/// The bytes hold every part that their counts announce.
pub open spec fn complete(b: Seq<u8>) -> bool {
    &&& b.len() >= 4
    &&& b.len() >= name_len_at(b) + 4
    &&& b.len() >= index_count_at(b) + 4
    &&& b.len() >= mesh_end(b)
}

/// `v` holds the sixteen words stored from byte `at` on: position, texture
/// coordinates, normal, tangent.
pub open spec fn vertex_stored_at(v: Vertex, b: Seq<u8>, at: int) -> bool {
    forall|k: int|
        0 <= k < 4 ==> {
            &&& #[trigger] v.position[k] == le_word(b, at + 4 * k)
            &&& v.tex_coord[k] == le_word(b, at + 16 + 4 * k)
            &&& v.normal[k] == le_word(b, at + 32 + 4 * k)
            &&& v.tangent[k] == le_word(b, at + 48 + 4 * k)
        }
}

/// `m` holds the vertices and the indices that the bytes `b` store.
pub open spec fn read_from(m: StaticMeshView, b: Seq<u8>) -> bool {
    &&& m.vertices.len() == vertex_count(b)
    &&& forall|k: int| 0 <= k < m.vertices.len() ==> vertex_stored_at(#[trigger] m.vertices[k], b, 4 + 64 * k)
    &&& m.indices.len() == index_count(b)
    &&& forall|k: int| 0 <= k < m.indices.len() ==> #[trigger] m.indices[k] == le_word(b, indices_at(b) + 4 * k)
}

/// Byte `j` (from `0` to `3`) of the little-endian encoding of `w`.
pub open spec fn byte_of(w: u32, j: int) -> u8 {
    if j == 0 {
        (w % 0x100) as u8
    } else if j == 1 {
        ((w / 0x100) % 0x100) as u8
    } else if j == 2 {
        ((w / 0x1_0000) % 0x100) as u8
    } else {
        (w / 0x100_0000) as u8
    }
}

/// The words `ws` written one after another, little-endian.
pub open spec fn encode_words(ws: Seq<u32>) -> Seq<u8> {
    Seq::new((4 * ws.len()) as nat, |i: int| byte_of(ws[i / 4], i % 4))
}

/// Word `k` (from `0` to `15`) of a vertex: position, texture coordinates,
/// normal, tangent.
pub open spec fn vertex_word(v: Vertex, k: int) -> u32 {
    if k < 4 {
        v.position[k]
    } else if k < 8 {
        v.tex_coord[k - 4]
    } else if k < 12 {
        v.normal[k - 8]
    } else {
        v.tangent[k - 12]
    }
}

/// The words of the vertices `vs`, sixteen per vertex.
pub open spec fn vertices_words(vs: Seq<Vertex>) -> Seq<u32> {
    Seq::new((16 * vs.len()) as nat, |i: int| vertex_word(vs[i / 16], i % 16))
}

/// The bytes of a mesh file holding the vertices `vs`, the name `name` and
/// the indices `is`.
pub open spec fn encode_mesh(vs: Seq<Vertex>, name: Seq<u8>, is: Seq<u32>) -> Seq<u8> {
    encode_words(seq![vs.len() as u32]) + encode_words(vertices_words(vs)) + encode_words(
        seq![name.len() as u32],
    ) + name + encode_words(seq![is.len() as u32]) + encode_words(is)
}

/// The four little-endian bytes of a word give the word back.
proof fn lemma_word_bytes(w: u32)
    ensures
        byte_of(w, 0) + byte_of(w, 1) * 0x100 + byte_of(w, 2) * 0x1_0000 + byte_of(w, 3) * 0x100_0000
            == w,
{
    let x = w as int;
    vstd::arithmetic::div_mod::lemma_fundamental_div_mod(x, 0x100);
    vstd::arithmetic::div_mod::lemma_fundamental_div_mod(x / 0x100, 0x100);
    vstd::arithmetic::div_mod::lemma_fundamental_div_mod(x / 0x100 / 0x100, 0x100);
    vstd::arithmetic::div_mod::lemma_div_denominator(x, 0x100, 0x100);
    vstd::arithmetic::div_mod::lemma_div_denominator(x, 0x1_0000, 0x100);
    assert(x / 0x100_0000 < 0x100);
}

/// Bytes that hold the little-endian encoding of `w` from `at` on read as `w`.
proof fn lemma_le_word_of_bytes(b: Seq<u8>, at: int, w: u32)
    requires
        forall|j: int| 0 <= j < 4 ==> #[trigger] b[at + j] == byte_of(w, j),
    ensures
        le_word(b, at) == w,
{
    assert(b[at + 0] == byte_of(w, 0));
    assert(b[at + 1] == byte_of(w, 1));
    assert(b[at + 2] == byte_of(w, 2));
    assert(b[at + 3] == byte_of(w, 3));
    lemma_word_bytes(w);
}

/// Byte `j` of word `k` sits at `4 * k + j` of the encoding.
proof fn lemma_encode_words_index(ws: Seq<u32>, k: int, j: int)
    requires
        0 <= k < ws.len(),
        0 <= j < 4,
    ensures
        0 <= 4 * k + j < encode_words(ws).len(),
        encode_words(ws)[4 * k + j] == byte_of(ws[k], j),
{
    vstd::arithmetic::div_mod::lemma_fundamental_div_mod_converse(4 * k + j, 4, k, j);
}

/// Word `k` of vertex `q` sits at `16 * q + k` of the vertices' words.
proof fn lemma_vertices_words_index(vs: Seq<Vertex>, q: int, k: int)
    requires
        0 <= q < vs.len(),
        0 <= k < 16,
    ensures
        0 <= 16 * q + k < vertices_words(vs).len(),
        vertices_words(vs)[16 * q + k] == vertex_word(vs[q], k),
{
    vstd::arithmetic::div_mod::lemma_fundamental_div_mod_converse(16 * q + k, 16, q, k);
    assert(16 * q + k < 16 * vs.len()) by (nonlinear_arith)
        requires 0 <= q < vs.len(), 0 <= k < 16;
}

/// Bytes that hold the encoding of the words `ws` from `off` on read as
/// those words.
proof fn lemma_words_read_back(b: Seq<u8>, off: int, ws: Seq<u32>)
    requires
        0 <= off,
        off + 4 * ws.len() <= b.len(),
        b.subrange(off, off + 4 * ws.len()) == encode_words(ws),
    ensures
        forall|k: int| 0 <= k < ws.len() ==> #[trigger] le_word(b, off + 4 * k) == ws[k],
{
    assert forall|k: int| 0 <= k < ws.len() implies #[trigger] le_word(b, off + 4 * k) == ws[k] by {
        assert forall|j: int| 0 <= j < 4 implies #[trigger] b[off + 4 * k + j] == byte_of(ws[k], j) by {
            lemma_encode_words_index(ws, k, j);
            assert(b[off + (4 * k + j)] == b.subrange(off, off + 4 * ws.len())[4 * k + j]);
        }
        lemma_le_word_of_bytes(b, off + 4 * k, ws[k]);
    }
}

/// The two parts of a concatenation are subranges of it.
proof fn lemma_concat_parts(x: Seq<u8>, y: Seq<u8>)
    ensures
        (x + y).subrange(0, x.len() as int) == x,
        (x + y).subrange(x.len() as int, (x.len() + y.len()) as int) == y,
{
    assert((x + y).subrange(0, x.len() as int) =~= x);
    assert((x + y).subrange(x.len() as int, (x.len() + y.len()) as int) =~= y);
}

/// A subrange of a prefix is a subrange of the whole.
proof fn lemma_subrange_of_prefix(s: Seq<u8>, n: int, i: int, j: int)
    requires
        0 <= i <= j <= n <= s.len(),
    ensures
        s.subrange(0, n).subrange(i, j) == s.subrange(i, j),
{
    assert(s.subrange(0, n).subrange(i, j) =~= s.subrange(i, j));
}

/// Where each part of the mesh encoding lies.
proof fn lemma_mesh_parts(vs: Seq<Vertex>, name: Seq<u8>, is: Seq<u32>)
    ensures
        ({
            let b = encode_mesh(vs, name, is);
            let o2 = 4 + 64 * (vs.len() as int);
            let o3 = o2 + 4 + (name.len() as int);
            let o4 = o3 + 4;
            &&& b.len() == o4 + 4 * is.len()
            &&& b.subrange(0, 4) == encode_words(seq![vs.len() as u32])
            &&& b.subrange(4, o2) == encode_words(vertices_words(vs))
            &&& b.subrange(o2, o2 + 4) == encode_words(seq![name.len() as u32])
            &&& b.subrange(o3, o4) == encode_words(seq![is.len() as u32])
            &&& b.subrange(o4, o4 + 4 * (is.len() as int)) == encode_words(is)
        }),
{
    let c1 = encode_words(seq![vs.len() as u32]);
    let vb = encode_words(vertices_words(vs));
    let c2 = encode_words(seq![name.len() as u32]);
    let c3 = encode_words(seq![is.len() as u32]);
    let ib = encode_words(is);
    let p1 = c1 + vb;
    let p2 = p1 + c2;
    let p3 = p2 + name;
    let p4 = p3 + c3;
    let b = p4 + ib;
    assert(b == encode_mesh(vs, name, is));
    let o2 = 4 + 64 * (vs.len() as int);
    let o3 = o2 + 4 + (name.len() as int);
    let o4 = o3 + 4;
    lemma_concat_parts(p4, ib);
    lemma_concat_parts(p3, c3);
    lemma_concat_parts(p2, name);
    lemma_concat_parts(p1, c2);
    lemma_concat_parts(c1, vb);
    lemma_subrange_of_prefix(b, o4, o3, o4);
    lemma_subrange_of_prefix(b, o4, 0, o3);
    lemma_subrange_of_prefix(b, o3, 0, o2 + 4);
    lemma_subrange_of_prefix(b, o3, o2, o2 + 4);
    lemma_subrange_of_prefix(b, o2 + 4, 0, o2);
    lemma_subrange_of_prefix(b, o2, 0, 4);
    lemma_subrange_of_prefix(b, o2, 4, o2);
    assert(b.subrange(0, o4) == p4);
    assert(b.subrange(0, o3) == p3);
    assert(b.subrange(0, o2 + 4) == p2);
    assert(b.subrange(0, o2) == p1);
}

/// The vertices written from byte 4 on are stored where the format puts them.
proof fn lemma_vertices_stored(vs: Seq<Vertex>, b: Seq<u8>)
    requires
        4 + 64 * vs.len() <= b.len(),
        b.subrange(4, 4 + 64 * (vs.len() as int)) == encode_words(vertices_words(vs)),
    ensures
        forall|q: int| 0 <= q < vs.len() ==> vertex_stored_at(#[trigger] vs[q], b, 4 + 64 * q),
{
    let ww = vertices_words(vs);
    lemma_words_read_back(b, 4, ww);
    assert forall|q: int| 0 <= q < vs.len() implies vertex_stored_at(#[trigger] vs[q], b, 4 + 64 * q) by {
        assert forall|k: int| 0 <= k < 4 implies {
            &&& #[trigger] vs[q].position[k] == le_word(b, 4 + 64 * q + 4 * k)
            &&& vs[q].tex_coord[k] == le_word(b, 4 + 64 * q + 16 + 4 * k)
            &&& vs[q].normal[k] == le_word(b, 4 + 64 * q + 32 + 4 * k)
            &&& vs[q].tangent[k] == le_word(b, 4 + 64 * q + 48 + 4 * k)
        } by {
            lemma_vertices_words_index(vs, q, k);
            lemma_vertices_words_index(vs, q, k + 4);
            lemma_vertices_words_index(vs, q, k + 8);
            lemma_vertices_words_index(vs, q, k + 12);
            assert(le_word(b, 4 + 4 * (16 * q + k)) == ww[16 * q + k]);
            assert(le_word(b, 4 + 4 * (16 * q + k + 4)) == ww[16 * q + k + 4]);
            assert(le_word(b, 4 + 4 * (16 * q + k + 8)) == ww[16 * q + k + 8]);
            assert(le_word(b, 4 + 4 * (16 * q + k + 12)) == ww[16 * q + k + 12]);
        }
    }
}

/// Writing a mesh in the file format and reading it back gives the same mesh:
/// the bytes of vertices `vs`, name `name` and indices `is` announce every
/// part they hold, no count is negative, and what they store is exactly `vs`
/// and `is`.
pub proof fn lemma_mesh_round_trip(vs: Seq<Vertex>, name: Seq<u8>, is: Seq<u32>)
    requires
        vs.len() < 0x8000_0000,
        name.len() < 0x8000_0000,
        is.len() < 0x8000_0000,
    ensures
        counts_nonnegative(encode_mesh(vs, name, is)),
        complete(encode_mesh(vs, name, is)),
        mesh_end(encode_mesh(vs, name, is)) == encode_mesh(vs, name, is).len(),
        read_from(StaticMeshView { vertices: vs, indices: is }, encode_mesh(vs, name, is)),
{
    let nv = vs.len() as int;
    let nn = name.len() as int;
    let ni = is.len() as int;
    let b = encode_mesh(vs, name, is);
    let o2 = 4 + 64 * nv;
    let o3 = o2 + 4 + nn;
    let o4 = o3 + 4;
    lemma_mesh_parts(vs, name, is);
    lemma_words_read_back(b, 0, seq![vs.len() as u32]);
    lemma_words_read_back(b, o2, seq![name.len() as u32]);
    lemma_words_read_back(b, o3, seq![is.len() as u32]);
    lemma_words_read_back(b, o4, is);
    assert(le_word(b, 0int + 4 * 0) == vs.len());
    assert(vertex_count(b) == nv);
    assert(le_word(b, o2 + 4 * 0) == name.len());
    assert(name_len(b) == nn);
    assert(le_word(b, o3 + 4 * 0) == is.len());
    assert(index_count(b) == ni);
    assert(indices_at(b) == o4);
    lemma_vertices_stored(vs, b);
    assert forall|k: int| 0 <= k < ni implies #[trigger] is[k] == le_word(b, indices_at(b) + 4 * k) by {
        assert(le_word(b, o4 + 4 * k) == is[k]);
    }
}

/// Bytes determine the mesh read from them.
pub proof fn lemma_read_from_unique(m1: StaticMeshView, m2: StaticMeshView, b: Seq<u8>)
    requires
        read_from(m1, b),
        read_from(m2, b),
    ensures
        m1 == m2,
{
    broadcast use vstd::array::group_array_axioms;

    assert forall|q: int| 0 <= q < m1.vertices.len() implies #[trigger] m1.vertices[q] == m2.vertices[q] by {
        let v1 = m1.vertices[q];
        let v2 = m2.vertices[q];
        assert(vertex_stored_at(v1, b, 4 + 64 * q));
        assert(vertex_stored_at(v2, b, 4 + 64 * q));
        assert forall|k: int| 0 <= k < 4 implies v1.position[k] == v2.position[k] && v1.tex_coord[k]
            == v2.tex_coord[k] && v1.normal[k] == v2.normal[k] && v1.tangent[k] == v2.tangent[k] by {
            assert(v1.position[k] == le_word(b, 4 + 64 * q + 4 * k));
            assert(v2.position[k] == le_word(b, 4 + 64 * q + 4 * k));
        }
        assert(v1.position =~= v2.position);
        assert(v1.tex_coord =~= v2.tex_coord);
        assert(v1.normal =~= v2.normal);
        assert(v1.tangent =~= v2.tangent);
    }
    assert(m1.vertices =~= m2.vertices);
    assert(m1.indices =~= m2.indices);
}

/// Reading back the bytes written for a mesh gives exactly that mesh: a mesh
/// that `from_bytes` returns for `encode_mesh(vs, name, is)` holds `vs` and
/// `is`.
pub proof fn lemma_decode_encoded(vs: Seq<Vertex>, name: Seq<u8>, is: Seq<u32>, m: StaticMeshView)
    requires
        vs.len() < 0x8000_0000,
        name.len() < 0x8000_0000,
        is.len() < 0x8000_0000,
        read_from(m, encode_mesh(vs, name, is)),
    ensures
        m == (StaticMeshView { vertices: vs, indices: is }),
{
    lemma_mesh_round_trip(vs, name, is);
    lemma_read_from_unique(m, StaticMeshView { vertices: vs, indices: is }, encode_mesh(vs, name, is));
}

/// The mathematical model of a mesh: its vertices and its triangle indices.
pub struct StaticMeshView {
    pub vertices: Seq<Vertex>,
    pub indices: Seq<u32>,
}

/// A triangle mesh: vertices and, three per triangle, indices into them.
pub struct StaticMesh {
    vertices: Vec<Vertex>,
    indices: Vec<u32>,
}

impl View for StaticMesh {
    type V = StaticMeshView;

    closed spec fn view(&self) -> StaticMeshView {
        StaticMeshView { vertices: self.vertices@, indices: self.indices@ }
    }
}

/// The little-endian word at `at`.
fn read_word(b: &[u8], at: usize) -> (w: u32)
    requires
        at + 4 <= b.len(),
    ensures
        w == le_word(b@, at as int),
{
    (b[at] as u32) + (b[at + 1] as u32) * 0x100 + (b[at + 2] as u32) * 0x1_0000 + (b[at + 3] as u32)
        * 0x100_0000
}

/// The vertex stored from byte `at` on.
fn read_vertex(b: &[u8], at: usize) -> (v: Vertex)
    requires
        at + 64 <= b.len(),
    ensures
        vertex_stored_at(v, b@, at as int),
{
    let v = Vertex {
        position: [read_word(b, at), read_word(b, at + 4), read_word(b, at + 8), read_word(b, at + 12)],
        tex_coord: [
            read_word(b, at + 16),
            read_word(b, at + 20),
            read_word(b, at + 24),
            read_word(b, at + 28),
        ],
        normal: [
            read_word(b, at + 32),
            read_word(b, at + 36),
            read_word(b, at + 40),
            read_word(b, at + 44),
        ],
        tangent: [
            read_word(b, at + 48),
            read_word(b, at + 52),
            read_word(b, at + 56),
            read_word(b, at + 60),
        ],
    };
    assert forall|k: int| 0 <= k < 4 implies {
        &&& #[trigger] v.position[k] == le_word(b@, at + 4 * k)
        &&& v.tex_coord[k] == le_word(b@, at + 16 + 4 * k)
        &&& v.normal[k] == le_word(b@, at + 32 + 4 * k)
        &&& v.tangent[k] == le_word(b@, at + 48 + 4 * k)
    } by {
        if k == 0 {
        } else if k == 1 {
        } else if k == 2 {
        } else {
        }
    }
    v
}

impl StaticMesh {
    /// A mesh with no vertices and no indices.
    pub fn new() -> (mesh: Self)
        ensures
            mesh@.vertices.len() == 0,
            mesh@.indices.len() == 0,
    {
        Self { vertices: Vec::new(), indices: Vec::new() }
    }

    /// The mesh stored in `bytes`; trailing bytes are ignored.
    /// Fails when the bytes end before a part that the counts announce.
    pub fn from_bytes(bytes: &[u8]) -> (r: Result<Self, MeshError>)
        requires
            counts_nonnegative(bytes@),
        ensures
            r is Ok <==> complete(bytes@),
            r matches Ok(mesh) ==> read_from(mesh@, bytes@),
            r matches Err(e) ==> e == MeshError::UnexpectedEof,
    {
        let len = bytes.len();
        if len < 4 {
            return Err(MeshError::UnexpectedEof);
        }
        let nv = read_word(bytes, 0) as usize;
        if (len - 4) / 64 < nv {
            proof {
                vstd::arithmetic::div_mod::lemma_fundamental_div_mod((len - 4) as int, 64);
            }
            return Err(MeshError::UnexpectedEof);
        }
        proof {
            vstd::arithmetic::div_mod::lemma_fundamental_div_mod((len - 4) as int, 64);
            assert(64 * nv <= 64 * ((len - 4) as int / 64)) by (nonlinear_arith)
                requires nv <= (len - 4) as int / 64;
        }
        let mut vertices: Vec<Vertex> = Vec::new();
        let mut k: usize = 0;
        while k < nv
            invariant
                k <= nv,
                4 + 64 * nv <= len,
                len == bytes@.len(),
                vertices@.len() == k,
                forall|q: int| 0 <= q < k ==> vertex_stored_at(#[trigger] vertices@[q], bytes@, 4 + 64 * q),
            decreases nv - k,
        {
            assert(4 + 64 * k + 64 <= 4 + 64 * nv) by (nonlinear_arith)
                requires k < nv;
            vertices.push(read_vertex(bytes, 4 + 64 * k));
            k = k + 1;
        }
        let mut pos: usize = 4 + 64 * nv;
        if len - pos < 4 {
            return Err(MeshError::UnexpectedEof);
        }
        let nn = read_word(bytes, pos) as usize;
        pos = pos + 4;
        if len - pos < nn {
            return Err(MeshError::UnexpectedEof);
        }
        pos = pos + nn;
        if len - pos < 4 {
            return Err(MeshError::UnexpectedEof);
        }
        let ni = read_word(bytes, pos) as usize;
        pos = pos + 4;
        if (len - pos) / 4 < ni {
            proof {
                vstd::arithmetic::div_mod::lemma_fundamental_div_mod((len - pos) as int, 4);
            }
            return Err(MeshError::UnexpectedEof);
        }
        proof {
            vstd::arithmetic::div_mod::lemma_fundamental_div_mod((len - pos) as int, 4);
        }
        let mut indices: Vec<u32> = Vec::new();
        let mut q: usize = 0;
        while q < ni
            invariant
                q <= ni,
                pos + 4 * ni <= len,
                len == bytes@.len(),
                pos == indices_at(bytes@),
                indices@.len() == q,
                forall|t: int| 0 <= t < q ==> #[trigger] indices@[t] == le_word(bytes@, pos + 4 * t),
            decreases ni - q,
        {
            indices.push(read_word(bytes, pos + 4 * q));
            q = q + 1;
        }
        Ok(Self { vertices, indices })
    }

    /// Whether every count that `from_bytes` reaches in `bytes` is
    /// non-negative, as `from_bytes` requires.
    pub fn counts_are_nonnegative(bytes: &[u8]) -> (ok: bool)
        ensures
            ok == counts_nonnegative(bytes@),
    {
        let len = bytes.len();
        if len < 4 {
            return true;
        }
        let wv = read_word(bytes, 0);
        if wv >= 0x8000_0000 {
            return false;
        }
        let nv = wv as usize;
        if (len - 4) / 64 < nv {
            proof {
                vstd::arithmetic::div_mod::lemma_fundamental_div_mod((len - 4) as int, 64);
            }
            return true;
        }
        proof {
            vstd::arithmetic::div_mod::lemma_fundamental_div_mod((len - 4) as int, 64);
            assert(64 * nv <= 64 * ((len - 4) as int / 64)) by (nonlinear_arith)
                requires nv <= (len - 4) as int / 64;
        }
        let mut pos: usize = 4 + 64 * nv;
        if len - pos < 4 {
            return true;
        }
        let wn = read_word(bytes, pos);
        if wn >= 0x8000_0000 {
            return false;
        }
        pos = pos + 4;
        if len - pos < wn as usize {
            return true;
        }
        pos = pos + wn as usize;
        if len - pos < 4 {
            return true;
        }
        let wi = read_word(bytes, pos);
        wi < 0x8000_0000
    }

    /// The vertex indices of each triangle, three consecutive indices per
    /// triangle; `None` when the indices do not come in whole triangles or one
    /// of them names no vertex.
    pub fn triangles(&self) -> (t: Option<Vec<[usize; 3]>>)
        ensures
            t is Some <==> self@.indices.len() % 3 == 0 && forall|k: int|
                0 <= k < self@.indices.len() ==> #[trigger] self@.indices[k] < self@.vertices.len(),
            t matches Some(t) ==> {
                &&& t@.len() == self@.indices.len() / 3
                &&& forall|q: int, c: int|
                    0 <= q < t@.len() && 0 <= c < 3 ==> #[trigger] t@[q][c] == self@.indices[3 * q + c]
            },
    {
        let n = self.indices.len();
        if n % 3 != 0 {
            return None;
        }
        let nv = self.vertices.len();
        let mut k: usize = 0;
        while k < n
            invariant
                k <= n,
                n == self.indices@.len(),
                nv == self.vertices@.len(),
                forall|q: int| 0 <= q < k ==> #[trigger] self.indices@[q] < nv,
            decreases n - k,
        {
            if self.indices[k] as usize >= nv {
                return None;
            }
            k = k + 1;
        }
        let mut t: Vec<[usize; 3]> = Vec::new();
        let mut i: usize = 0;
        while i < n
            invariant
                n == self.indices@.len(),
                n % 3 == 0,
                i % 3 == 0,
                i <= n,
                t@.len() == i / 3,
                forall|q: int, c: int|
                    0 <= q < t@.len() && 0 <= c < 3 ==> #[trigger] t@[q][c] == self.indices@[3 * q + c],
            decreases n - i,
        {
            let tri = [self.indices[i] as usize, self.indices[i + 1] as usize, self.indices[i + 2] as usize];
            t.push(tri);
            i = i + 3;
        }
        Some(t)
    }

    pub fn indices(&self) -> (i: &Vec<u32>)
        ensures
            i@ == self@.indices,
    {
        &self.indices
    }

    pub fn vertices(&self) -> (v: &Vec<Vertex>)
        ensures
            v@ == self@.vertices,
    {
        &self.vertices
    }
}

} // verus!
