//! Collada geometry: assembling the index lists of a `<mesh>` into faces.
use vstd::prelude::*;

use crate::text::str_eq;
use crate::scene::{PrimitiveTypes, faces_view, flatten, prefix_total, lemma_prefix_total_mono,
    lemma_prefix_total_push};

verus! {

/// Different types of input data to a vertex or face.
#[derive(Clone, Copy, Debug, PartialEq, Eq, Structural)]
pub enum InputType {
    Invalid,
    /// Per-index data referring to the `<vertices>` element.
    Vertex,
    Position,
    Normal,
    Texcoord,
    Color,
    Tangent,
    Bitangent,
}

/// The input type a Collada semantic names.
pub open spec fn input_type_of(s: Seq<char>) -> InputType {
    if s == "VERTEX"@ {
        InputType::Vertex
    } else if s == "POSITION"@ {
        InputType::Position
    } else if s == "NORMAL"@ {
        InputType::Normal
    } else if s == "TEXCOORD"@ || s == "UV"@ {
        InputType::Texcoord
    } else if s == "COLOR"@ {
        InputType::Color
    } else if s == "TANGENT"@ || s == "TEXTANGENT"@ {
        InputType::Tangent
    } else if s == "BINORMAL"@ || s == "TEXBINORMAL"@ {
        InputType::Bitangent
    } else {
        InputType::Invalid
    }
}

impl InputType {
    /// The input type a Collada semantic names (`VERTEX`, `POSITION`,
    /// `NORMAL`, `TEXCOORD` or `UV`, `COLOR`, `TANGENT` or `TEXTANGENT`,
    /// `BINORMAL` or `TEXBINORMAL`); any other is invalid.
    pub fn from_semantic_str(semantic: &str) -> (r: InputType)
        ensures
            r == input_type_of(semantic@),
    {
        if str_eq(semantic, "VERTEX") {
            InputType::Vertex
        } else if str_eq(semantic, "POSITION") {
            InputType::Position
        } else if str_eq(semantic, "NORMAL") {
            InputType::Normal
        } else if str_eq(semantic, "TEXCOORD") || str_eq(semantic, "UV") {
            InputType::Texcoord
        } else if str_eq(semantic, "COLOR") {
            InputType::Color
        } else if str_eq(semantic, "TANGENT") || str_eq(semantic, "TEXTANGENT") {
            InputType::Tangent
        } else if str_eq(semantic, "BINORMAL") || str_eq(semantic, "TEXBINORMAL") {
            InputType::Bitangent
        } else {
            InputType::Invalid
        }
    }
}

/// An input channel for mesh data, referring to a single accessor/source.
#[derive(Debug)]
pub struct InputChannel {
    pub type_: InputType,
    pub index: usize,
    pub offset: usize,
    pub accessor: String,
}

/// An input channel, as a value.
pub struct ChannelView {
    pub type_: InputType,
    pub index: usize,
    pub offset: usize,
    pub accessor: Seq<char>,
}

impl View for InputChannel {
    type V = ChannelView;

    open spec fn view(&self) -> ChannelView {
        ChannelView { type_: self.type_, index: self.index, offset: self.offset, accessor: self.accessor@ }
    }
}

/// The views of a channel list.
pub open spec fn channels_view(chs: Seq<InputChannel>) -> Seq<ChannelView> {
    Seq::new(chs.len(), |i: int| chs[i]@)
}

impl InputChannel {
    /// A copy of this channel.
    pub fn copy(&self) -> (c: InputChannel)
        ensures
            c@ == self@,
    {
        InputChannel { type_: self.type_, index: self.index, offset: self.offset, accessor: self.accessor.clone() }
    }

    /// The channel of a per-index input: the set number counts for texture
    /// coordinates and colours only (none means set 0).
    pub fn new(type_: InputType, set: Option<u32>, offset: u32, accessor: String) -> (c: InputChannel)
        ensures
            c.type_ == type_,
            c.offset == offset,
            c.accessor@ == accessor@,
            c.index == (if type_ == InputType::Texcoord || type_ == InputType::Color {
                match set { Some(s) => s as usize, None => 0usize }
            } else {
                0usize
            }),
    {
        let index: usize = if type_ == InputType::Texcoord || type_ == InputType::Color {
            match set {
                Some(s) => s as usize,
                None => 0,
            }
        } else {
            0
        };
        InputChannel { type_, index, offset: offset as usize, accessor }
    }
}

/// Which type of primitives a primitive element holds.
#[derive(Clone, Copy, Debug, PartialEq, Eq, Structural)]
pub enum PrimitiveType {
    Lines,
    LineStrip,
    Polygon,
    Polylist,
    Triangles,
    TriFans,
    TriStrips,
}

/// Why the index lists of a primitive element could not be assembled.
#[derive(Clone, Copy, Debug, PartialEq, Eq, Structural)]
pub enum MeshIndexError {
    /// The index count the element needs does not fit a `usize`.
    IndexCountOverflow,
    /// The element holds fewer indices than it needs.
    TooFewIndices { required: usize, found: usize },
    /// A corner names a position past the end of the position source.
    PositionOutOfBounds { index: usize, count: usize },
    /// The `VERTEX` input lies past the index stride.
    VertexOffsetBeyondStride { offset: usize, stride: usize },
}

/// Why a Collada mesh could not be read.
#[derive(Debug)]
pub enum DaeMeshError {
    /// A referenced element (by id, or a required input by semantic) is missing.
    MissingLocalMapEntry(String),
    /// The index lists do not fit the element.
    InvalidMeshIndices(MeshIndexError),
}

/// The index stride of a primitive element: one past the largest input
/// offset, and 1 when there is no input.
pub open spec fn stride(chs: Seq<ChannelView>) -> nat
    decreases chs.len(),
{
    if chs.len() == 0 {
        1
    } else {
        let rest = stride(chs.drop_last());
        let o = chs.last().offset + 1;
        if chs.len() == 1 {
            o as nat
        } else if o > rest {
            o as nat
        } else {
            rest
        }
    }
}

/// The first `VERTEX` input, if any.
pub open spec fn first_vertex_channel(chs: Seq<ChannelView>) -> Option<int> {
    if exists|i: int| 0 <= i < chs.len() && chs[i].type_ == InputType::Vertex {
        Some(choose|i: int| 0 <= i < chs.len() && chs[i].type_ == InputType::Vertex
            && forall|j: int| 0 <= j < i ==> chs[j].type_ != InputType::Vertex)
    } else {
        None
    }
}

proof fn lemma_stride_bounds(chs: Seq<ChannelView>)
    ensures
        stride(chs) >= 1,
        forall|i: int| 0 <= i < chs.len() ==> chs[i].offset < stride(chs),
        chs.len() > 0 ==> exists|i: int| 0 <= i < chs.len() && stride(chs) == chs[i].offset + 1,
    decreases chs.len(),
{
    if chs.len() > 0 {
        lemma_stride_bounds(chs.drop_last());
        if chs.len() > 1 {
            let i = choose|i: int| 0 <= i < chs.len() - 1 && stride(chs.drop_last()) == chs.drop_last()[i].offset + 1;
            assert(chs.drop_last()[i] == chs[i]);
        }
        assert forall|i: int| 0 <= i < chs.len() implies chs[i].offset < stride(chs) by {
            if i < chs.len() - 1 {
                assert(chs.drop_last()[i] == chs[i]);
            }
        }
    }
}

/// The index stride of a primitive element's inputs.
pub fn input_stride(chs: &Vec<InputChannel>) -> (n: usize)
    requires
        forall|i: int| 0 <= i < chs.len() ==> #[trigger] chs@[i].offset < usize::MAX,
    ensures
        n == stride(channels_view(chs@)),
{
    let ghost cv = channels_view(chs@);
    let mut n: usize = 1;
    let mut i: usize = 0;
    while i < chs.len()
        invariant
            forall|k: int| 0 <= k < chs.len() ==> #[trigger] chs@[k].offset < usize::MAX,
            i <= chs.len(),
            cv == channels_view(chs@),
            n == stride(cv.take(i as int)),
        decreases chs.len() - i,
    {
        let o = chs[i].offset + 1;
        assert(cv.take(i + 1).drop_last() =~= cv.take(i as int));
        if i == 0 || o > n {
            n = o;
        }
        i = i + 1;
    }
    assert(cv.take(chs.len() as int) =~= cv);
    n
}

/// The first `VERTEX` input of a primitive element.
pub fn find_vertex_channel(chs: &Vec<InputChannel>) -> (r: Option<usize>)
    ensures
        match r {
            Some(i) => i < chs.len() && first_vertex_channel(channels_view(chs@)) == Some(i as int),
            None => first_vertex_channel(channels_view(chs@)) is None,
        },
{
    let mut i: usize = 0;
    while i < chs.len()
        invariant
            i <= chs.len(),
            forall|j: int| 0 <= j < i ==> chs@[j].type_ != InputType::Vertex,
        decreases chs.len() - i,
    {
        if chs[i].type_ == InputType::Vertex {
            proof {
                let cv = channels_view(chs@);
                assert(cv[i as int].type_ == InputType::Vertex);
                let c = choose|k: int| 0 <= k < cv.len() && cv[k].type_ == InputType::Vertex
                    && forall|j: int| 0 <= j < k ==> cv[j].type_ != InputType::Vertex;
                assert forall|j: int| 0 <= j < c implies cv[j].type_ != InputType::Vertex by {}
                if c < i {
                    assert(cv[c].type_ == chs@[c].type_);
                }
                assert(c == i);
            }
            return Some(i);
        }
        i = i + 1;
    }
    None
}

/// The total corner count of the first `n` polygons of a polylist.
pub open spec fn corner_total(vcount: Seq<usize>, n: nat) -> nat {
    prefix_total(vcount, if n < vcount.len() { n as int } else { vcount.len() as int })
}

/// The position indices of `corners` consecutive corners, read at input
/// offset `pvo` with index stride `no`.
pub open spec fn corner_positions(indices: Seq<u32>, corners: nat, no: nat, pvo: nat) -> Seq<usize> {
    Seq::new(corners, |k: int| indices[k * no + pvo] as usize)
}

/// Whether corner `k` names a position past `count`.
pub open spec fn corner_out_of_bounds(indices: Seq<u32>, no: nat, pvo: nat, count: nat, k: int) -> bool {
    indices[k * no + pvo] as nat >= count
}

/// The first of `corners` corners that names a position past `count`.
pub open spec fn first_bad_corner(indices: Seq<u32>, corners: nat, no: nat, pvo: nat, count: nat) -> Option<int> {
    if exists|k: int| 0 <= k < corners && corner_out_of_bounds(indices, no, pvo, count, k) {
        Some(choose|k: int| 0 <= k < corners && corner_out_of_bounds(indices, no, pvo, count, k)
            && forall|j: int| 0 <= j < k ==> !corner_out_of_bounds(indices, no, pvo, count, j))
    } else {
        None
    }
}

/// The result of assembling `corners` corners: their position indices, or
/// the first that lies out of bounds.
pub open spec fn assemble_spec(indices: Seq<u32>, corners: nat, no: nat, pvo: nat, count: nat)
    -> Result<Seq<usize>, MeshIndexError>
{
    match first_bad_corner(indices, corners, no, pvo, count) {
        Some(k) => Err(MeshIndexError::PositionOutOfBounds { index: indices[k * no + pvo] as usize, count: count as usize }),
        None => Ok(corner_positions(indices, corners, no, pvo)),
    }
}

proof fn lemma_slot_bound(k: int, corners: int, no: int, pvo: int)
    requires
        0 <= k < corners,
        0 <= pvo < no,
    ensures
        k * no + pvo < corners * no,
        0 <= k * no + pvo,
{
    assert(k * no + pvo < corners * no) by (nonlinear_arith)
        requires
            0 <= k < corners,
            0 <= pvo < no;
    assert(0 <= k * no) by (nonlinear_arith)
        requires
            0 <= k,
            0 <= pvo < no;
}

/// Reads the position index of each of `corners` consecutive corners.
fn assemble_corners(indices: &Vec<u32>, corners: usize, no: usize, pvo: usize, count: usize)
    -> (r: Result<Vec<usize>, MeshIndexError>)
    requires
        pvo < no,
        corners * no <= indices.len(),
    ensures
        match r {
            Ok(v) => assemble_spec(indices@, corners as nat, no as nat, pvo as nat, count as nat) == Ok::<Seq<usize>, MeshIndexError>(v@),
            Err(e) => assemble_spec(indices@, corners as nat, no as nat, pvo as nat, count as nat) == Err::<Seq<usize>, MeshIndexError>(e),
        },
{
    let mut out: Vec<usize> = Vec::new();
    let mut k: usize = 0;
    while k < corners
        invariant
            pvo < no,
            corners * no <= indices.len(),
            k <= corners,
            out@.len() == k,
            forall|j: int| 0 <= j < k ==> !corner_out_of_bounds(indices@, no as nat, pvo as nat, count as nat, j),
            forall|j: int| 0 <= j < k ==> #[trigger] out@[j] == indices@[j * no + pvo] as usize,
        decreases corners - k,
    {
        proof {
            lemma_slot_bound(k as int, corners as int, no as int, pvo as int);
        }
        let slot = k * no + pvo;
        let index = indices[slot] as usize;
        if index >= count {
            proof {
                assert(corner_out_of_bounds(indices@, no as nat, pvo as nat, count as nat, k as int));
                let c = choose|c: int| 0 <= c < corners && corner_out_of_bounds(indices@, no as nat, pvo as nat, count as nat, c)
                    && forall|j: int| 0 <= j < c ==> !corner_out_of_bounds(indices@, no as nat, pvo as nat, count as nat, j);
                assert(c == k);
            }
            return Err(MeshIndexError::PositionOutOfBounds { index, count });
        }
        out.push(index);
        k = k + 1;
    }
    assert(out@ =~= corner_positions(indices@, corners as nat, no as nat, pvo as nat));
    Ok(out)
}

/// A `MissingLocalMapEntry` or `InvalidMeshIndices` error, as a value.
pub enum DaeMeshErrorView {
    MissingLocalMapEntry(Seq<char>),
    InvalidMeshIndices(MeshIndexError),
}

impl View for DaeMeshError {
    type V = DaeMeshErrorView;

    open spec fn view(&self) -> DaeMeshErrorView {
        match self {
            DaeMeshError::MissingLocalMapEntry(s) => DaeMeshErrorView::MissingLocalMapEntry(s@),
            DaeMeshError::InvalidMeshIndices(e) => DaeMeshErrorView::InvalidMeshIndices(*e),
        }
    }
}

/// The `<vertices>` element of a Collada mesh: its id and the source its
/// `POSITION` input reads.
pub struct VerticesInfo {
    pub id: String,
    pub inputs: Vec<(InputType, String)>,
    pub position_source: String,
}

/// A `<source>` of a Collada mesh: its id and how many XYZ triples it
/// holds (none when it cannot be read as XYZ triples).
pub struct SourceInfo {
    pub id: Option<String>,
    pub xyz_count: Option<usize>,
}

/// A primitive element of a Collada mesh (`<triangles>`, `<polylist>`, ...).
pub struct PrimitiveElement {
    pub kind: PrimitiveType,
    pub material: Option<String>,
    pub count: usize,
    pub inputs: Vec<InputChannel>,
    /// The `<p>` index list (empty where the element kind keeps none).
    pub prim: Vec<u32>,
    /// The `<vcount>` list of a polylist (empty otherwise).
    pub vcount: Vec<usize>,
}

/// The `<mesh>` of a Collada geometry.
pub struct DocumentMesh {
    pub vertices: Option<VerticesInfo>,
    pub sources: Vec<SourceInfo>,
    pub elements: Vec<PrimitiveElement>,
}

/// The first source whose id is `id`.
pub open spec fn find_source_spec(sources: Seq<SourceInfo>, id: Seq<char>) -> Option<int> {
    if exists|i: int| 0 <= i < sources.len() && (#[trigger] sources[i]).id is Some && sources[i].id->0@ == id {
        Some(choose|i: int| 0 <= i < sources.len() && (#[trigger] sources[i]).id is Some && sources[i].id->0@ == id
            && forall|j: int| 0 <= j < i ==> !(sources[j].id is Some && sources[j].id->0@ == id))
    } else {
        None
    }
}

/// How many positions the `<vertices>` element `vertices_id` gives, or
/// the id that could not be resolved.
pub open spec fn position_count_spec(dm: DocumentMesh, vertices_id: Seq<char>) -> Result<nat, Seq<char>> {
    match dm.vertices {
        Some(v) => if v.id@ == vertices_id {
            match find_source_spec(dm.sources@, v.position_source@) {
                Some(i) => match dm.sources@[i].xyz_count {
                    Some(n) => Ok(n as nat),
                    None => Err(v.position_source@),
                },
                None => Err(v.position_source@),
            }
        } else {
            Err(vertices_id)
        },
        None => Err(vertices_id),
    }
}

fn find_source(sources: &Vec<SourceInfo>, id: &String) -> (r: Option<usize>)
    ensures
        match r {
            Some(i) => i < sources.len() && find_source_spec(sources@, id@) == Some(i as int),
            None => find_source_spec(sources@, id@) is None,
        },
{
    let mut i: usize = 0;
    while i < sources.len()
        invariant
            i <= sources.len(),
            forall|j: int| 0 <= j < i ==> !((#[trigger] sources@[j]).id is Some && sources@[j].id->0@ == id@),
        decreases sources.len() - i,
    {
        let hit = match &sources[i].id {
            Some(s) => *s == *id,
            None => false,
        };
        if hit {
            proof {
                let c = choose|c: int| 0 <= c < sources.len() && (#[trigger] sources@[c]).id is Some && sources@[c].id->0@ == id@
                    && forall|j: int| 0 <= j < c ==> !(sources@[j].id is Some && sources@[j].id->0@ == id@);
                assert(c == i);
            }
            return Some(i);
        }
        i = i + 1;
    }
    None
}

/// How many positions the `<vertices>` element `vertices_id` gives.
pub fn position_count(dm: &DocumentMesh, vertices_id: &String) -> (r: Result<usize, String>)
    ensures
        match r {
            Ok(n) => position_count_spec(*dm, vertices_id@) == Ok::<nat, Seq<char>>(n as nat),
            Err(s) => position_count_spec(*dm, vertices_id@) == Err::<nat, Seq<char>>(s@),
        },
{
    match &dm.vertices {
        Some(v) => if v.id == *vertices_id {
            match find_source(&dm.sources, &v.position_source) {
                Some(i) => match sources_count(&dm.sources, i) {
                    Some(n) => Ok(n),
                    None => Err(v.position_source.clone()),
                },
                None => Err(v.position_source.clone()),
            }
        } else {
            Err(vertices_id.clone())
        },
        None => Err(vertices_id.clone()),
    }
}

fn sources_count(sources: &Vec<SourceInfo>, i: usize) -> (r: Option<usize>)
    requires
        i < sources.len(),
    ensures
        r == sources@[i as int].xyz_count,
{
    sources[i].xyz_count
}

/// Faces assembled from a primitive element: the position index of each
/// corner, the corner count of each face, and the number of faces.
pub struct AssembledFaces {
    pub face_pos_indices: Vec<usize>,
    pub face_size: Vec<usize>,
    pub count: usize,
}

/// Assembled faces, as values.
pub struct AssembledView {
    pub face_pos_indices: Seq<usize>,
    pub face_size: Seq<usize>,
    pub count: nat,
}

impl View for AssembledFaces {
    type V = AssembledView;

    open spec fn view(&self) -> AssembledView {
        AssembledView { face_pos_indices: self.face_pos_indices@, face_size: self.face_size@, count: self.count as nat }
    }
}

/// No faces.
pub open spec fn no_faces() -> AssembledView {
    AssembledView { face_pos_indices: Seq::empty(), face_size: Seq::empty(), count: 0 }
}

/// Whether the inputs of an element leave the index arithmetic in range:
/// offsets below `usize::MAX`, three strides fitting a `usize`, and the
/// corner total of a polylist fitting a `usize`.
pub open spec fn element_in_range(chs: Seq<ChannelView>, np: nat, vcount: Seq<usize>) -> bool {
    &&& forall|i: int| 0 <= i < chs.len() ==> #[trigger] chs[i].offset < usize::MAX
    &&& 3 * stride(chs) <= usize::MAX
    &&& corner_total(vcount, np) <= usize::MAX
}

/// The faces a primitive element gives once its inputs are resolved:
/// the position count, the stride and the `VERTEX` offset.
pub open spec fn faces_spec(np: nat, vcount: Seq<usize>, indices: Seq<u32>, pt: PrimitiveType,
    count: nat, no: nat, pvo: nat) -> Result<AssembledView, DaeMeshErrorView>
{
    match pt {
        PrimitiveType::Triangles => {
            let required = np * (3 * no) * no;
            if required > usize::MAX {
                Err(DaeMeshErrorView::InvalidMeshIndices(MeshIndexError::IndexCountOverflow))
            } else if indices.len() < required {
                Err(DaeMeshErrorView::InvalidMeshIndices(MeshIndexError::TooFewIndices { required: required as usize, found: indices.len() as usize }))
            } else {
                match assemble_spec(indices, 3 * np, no, pvo, count) {
                    Err(e) => Err(DaeMeshErrorView::InvalidMeshIndices(e)),
                    Ok(fp) => Ok(AssembledView { face_pos_indices: fp, face_size: Seq::new(np, |i: int| 3usize), count: np }),
                }
            }
        },
        PrimitiveType::Polylist => {
            let total = corner_total(vcount, np);
            let required = total * no;
            let n = if np < vcount.len() { np } else { vcount.len() };
            if required > usize::MAX {
                Err(DaeMeshErrorView::InvalidMeshIndices(MeshIndexError::IndexCountOverflow))
            } else if indices.len() < required {
                Err(DaeMeshErrorView::InvalidMeshIndices(MeshIndexError::TooFewIndices { required: required as usize, found: indices.len() as usize }))
            } else {
                match assemble_spec(indices, total, no, pvo, count) {
                    Err(e) => Err(DaeMeshErrorView::InvalidMeshIndices(e)),
                    Ok(fp) => Ok(AssembledView { face_pos_indices: fp, face_size: vcount.take(n as int), count: n }),
                }
            }
        },
        _ => Ok(no_faces()),
    }
}

/// What reading the index list of a primitive element gives: the inputs are
/// resolved in order (the `VERTEX` input, the `<vertices>` it names, its
/// positions), then the faces are assembled.
pub open spec fn read_primitives_spec(dm: DocumentMesh, vertex_id: Seq<char>, chs: Seq<ChannelView>,
    np: nat, vcount: Seq<usize>, indices: Seq<u32>, pt: PrimitiveType) -> Result<AssembledView, DaeMeshErrorView>
{
    let no = stride(chs);
    match first_vertex_channel(chs) {
        None => Err(DaeMeshErrorView::MissingLocalMapEntry("VERTEX"@)),
        Some(v) => {
            let ch = chs[v];
            if vertex_id.len() != 0 && ch.accessor != vertex_id {
                Err(DaeMeshErrorView::MissingLocalMapEntry(ch.accessor))
            } else {
                match position_count_spec(dm, ch.accessor) {
                    Err(id) => Err(DaeMeshErrorView::MissingLocalMapEntry(id)),
                    Ok(count) => if ch.offset >= no {
                        Err(DaeMeshErrorView::InvalidMeshIndices(MeshIndexError::VertexOffsetBeyondStride { offset: ch.offset, stride: no as usize }))
                    } else {
                        faces_spec(np, vcount, indices, pt, count, no, ch.offset as nat)
                    },
                }
            }
        },
    }
}

proof fn lemma_corner_total_take(vcount: Seq<usize>, np: nat)
    ensures
        corner_total(vcount, np) == prefix_total(vcount.take(if np < vcount.len() { np as int } else { vcount.len() as int }),
            if np < vcount.len() { np as int } else { vcount.len() as int }),
{
    let n = if np < vcount.len() { np as int } else { vcount.len() as int };
    lemma_prefix_total_take(vcount, n, n);
}

proof fn lemma_prefix_total_take(s: Seq<usize>, n: int, k: int)
    requires
        0 <= k <= n <= s.len(),
    ensures
        prefix_total(s.take(n), k) == prefix_total(s, k),
    decreases k,
{
    if k > 0 {
        lemma_prefix_total_take(s, n, k - 1);
        assert(s.take(n)[k - 1] == s[k - 1]);
    }
}

/// The sum of the first `n` entries of `vcount` (all, when it is shorter).
fn corner_sum(vcount: &Vec<usize>, np: usize) -> (t: usize)
    requires
        corner_total(vcount@, np as nat) <= usize::MAX,
    ensures
        t == corner_total(vcount@, np as nat),
{
    let n = if np < vcount.len() { np } else { vcount.len() };
    let mut t: usize = 0;
    let mut i: usize = 0;
    while i < n
        invariant
            n <= vcount.len(),
            n == (if np < vcount.len() { np as int } else { vcount.len() as int }),
            corner_total(vcount@, np as nat) <= usize::MAX,
            i <= n,
            t == prefix_total(vcount@, i as int),
        decreases n - i,
    {
        proof {
            lemma_prefix_total_mono(vcount@, i + 1, n as int);
        }
        t = t + vcount[i];
        i = i + 1;
    }
    t
}

/// Assembles the faces of a primitive element once its inputs are resolved.
fn assemble_faces(np: usize, vcount: &Vec<usize>, indices: &Vec<u32>, pt: PrimitiveType,
    count: usize, no: usize, pvo: usize) -> (r: Result<AssembledFaces, DaeMeshError>)
    requires
        pvo < no,
        3 * no <= usize::MAX,
        corner_total(vcount@, np as nat) <= usize::MAX,
    ensures
        match r {
            Ok(a) => faces_spec(np as nat, vcount@, indices@, pt, count as nat, no as nat, pvo as nat) == Ok::<AssembledView, DaeMeshErrorView>(a@),
            Err(e) => faces_spec(np as nat, vcount@, indices@, pt, count as nat, no as nat, pvo as nat) == Err::<AssembledView, DaeMeshErrorView>(e@),
        },
{
    match pt {
        PrimitiveType::Triangles => {
            let three_no = 3 * no;
            let required = match np.checked_mul(three_no) {
                Some(c) => c.checked_mul(no),
                None => None,
            };
            proof {
                if np * three_no > usize::MAX {
                    assert(np * three_no * no >= np * three_no) by (nonlinear_arith)
                        requires no >= 1, np * three_no >= 0;
                }
            }
            let required = match required {
                Some(r) => r,
                None => return Err(DaeMeshError::InvalidMeshIndices(MeshIndexError::IndexCountOverflow)),
            };
            if indices.len() < required {
                return Err(DaeMeshError::InvalidMeshIndices(MeshIndexError::TooFewIndices { required, found: indices.len() }));
            }
            proof {
                assert(3 * np * no <= np * (3 * no) * no) by (nonlinear_arith)
                    requires no >= 1;
                assert(3 * np <= np * (3 * no)) by (nonlinear_arith)
                    requires no >= 1;
            }
            match assemble_corners(indices, 3 * np, no, pvo, count) {
                Err(e) => Err(DaeMeshError::InvalidMeshIndices(e)),
                Ok(fp) => {
                    let mut sizes: Vec<usize> = Vec::new();
                    let mut i: usize = 0;
                    while i < np
                        invariant
                            i <= np,
                            sizes@.len() == i,
                            forall|j: int| 0 <= j < i ==> #[trigger] sizes@[j] == 3usize,
                        decreases np - i,
                    {
                        sizes.push(3);
                        i = i + 1;
                    }
                    let a = AssembledFaces { face_pos_indices: fp, face_size: sizes, count: np };
                    assert(a@.face_size =~= Seq::new(np as nat, |i: int| 3usize));
                    Ok(a)
                },
            }
        },
        PrimitiveType::Polylist => {
            let total = corner_sum(vcount, np);
            let required = match total.checked_mul(no) {
                Some(r) => r,
                None => return Err(DaeMeshError::InvalidMeshIndices(MeshIndexError::IndexCountOverflow)),
            };
            if indices.len() < required {
                return Err(DaeMeshError::InvalidMeshIndices(MeshIndexError::TooFewIndices { required, found: indices.len() }));
            }
            match assemble_corners(indices, total, no, pvo, count) {
                Err(e) => Err(DaeMeshError::InvalidMeshIndices(e)),
                Ok(fp) => {
                    let n = if np < vcount.len() { np } else { vcount.len() };
                    let mut sizes: Vec<usize> = Vec::new();
                    let mut i: usize = 0;
                    while i < n
                        invariant
                            n <= vcount.len(),
                            i <= n,
                            sizes@ == vcount@.take(i as int),
                        decreases n - i,
                    {
                        sizes.push(vcount[i]);
                        assert(vcount@.take(i + 1) =~= vcount@.take(i as int).push(vcount@[i as int]));
                        i = i + 1;
                    }
                    Ok(AssembledFaces { face_pos_indices: fp, face_size: sizes, count: n })
                },
            }
        },
        _ => {
            let a = AssembledFaces { face_pos_indices: Vec::new(), face_size: Vec::new(), count: 0 };
            assert(a@ =~= no_faces());
            Ok(a)
        },
    }
}

/// Reads the index list of a primitive element (positions only): finds
/// the `VERTEX` input, checks that it names the mesh's `<vertices>`
/// (`vertex_id`, when known), resolves the position source, and assembles
/// the faces of triangles and polylists; other element kinds give none.
pub fn read_primitives(dm: &DocumentMesh, vertex_id: &String, chs: &Vec<InputChannel>, np: usize,
    vcount: &Vec<usize>, indices: &Vec<u32>, pt: PrimitiveType) -> (r: Result<AssembledFaces, DaeMeshError>)
    requires
        element_in_range(channels_view(chs@), np as nat, vcount@),
    ensures
        match r {
            Ok(a) => read_primitives_spec(*dm, vertex_id@, channels_view(chs@), np as nat, vcount@, indices@, pt) == Ok::<AssembledView, DaeMeshErrorView>(a@),
            Err(e) => read_primitives_spec(*dm, vertex_id@, channels_view(chs@), np as nat, vcount@, indices@, pt) == Err::<AssembledView, DaeMeshErrorView>(e@),
        },
{
    let ghost cv = channels_view(chs@);
    proof {
        assert forall|i: int| 0 <= i < chs.len() implies #[trigger] chs@[i].offset < usize::MAX by {
            assert(cv[i].offset == chs@[i].offset);
        }
    }
    let no = input_stride(chs);
    let v = match find_vertex_channel(chs) {
        None => {
            proof { reveal_strlit("VERTEX"); }
            return Err(DaeMeshError::MissingLocalMapEntry(String::from_str("VERTEX")));
        },
        Some(v) => v,
    };
    let ch = &chs[v];
    assert(cv[v as int] == ch@);
    if !crate::text::string_is_empty(vertex_id) && !(ch.accessor == *vertex_id) {
        return Err(DaeMeshError::MissingLocalMapEntry(ch.accessor.clone()));
    }
    let count = match position_count(dm, &ch.accessor) {
        Err(id) => return Err(DaeMeshError::MissingLocalMapEntry(id)),
        Ok(n) => n,
    };
    if ch.offset >= no {
        return Err(DaeMeshError::InvalidMeshIndices(MeshIndexError::VertexOffsetBeyondStride { offset: ch.offset, stride: no }));
    }
    assemble_faces(np, vcount, indices, pt, count, no, ch.offset)
}

/// The inputs of an element that name a known semantic, in order.
pub open spec fn valid_channels(cv: Seq<ChannelView>) -> Seq<ChannelView>
    decreases cv.len(),
{
    if cv.len() == 0 {
        cv
    } else {
        let r = valid_channels(cv.drop_last());
        if cv.last().type_ != InputType::Invalid { r.push(cv.last()) } else { r }
    }
}

/// The inputs of an element that name a known semantic, in order.
pub fn per_index_channels(chs: &Vec<InputChannel>) -> (r: Vec<InputChannel>)
    ensures
        channels_view(r@) == valid_channels(channels_view(chs@)),
{
    let ghost cv = channels_view(chs@);
    let mut r: Vec<InputChannel> = Vec::new();
    let mut i: usize = 0;
    while i < chs.len()
        invariant
            cv == channels_view(chs@),
            i <= chs.len(),
            channels_view(r@) == valid_channels(cv.take(i as int)),
        decreases chs.len() - i,
    {
        assert(cv.take(i + 1).drop_last() =~= cv.take(i as int));
        assert(cv.take(i + 1).last() == chs@[i as int]@);
        if chs[i].type_ != InputType::Invalid {
            let ghost before = channels_view(r@);
            r.push(chs[i].copy());
            assert(channels_view(r@) =~= before.push(chs@[i as int]@));
        }
        i = i + 1;
    }
    assert(cv.take(chs.len() as int) =~= cv);
    r
}

/// Whether an element kind is read even without a `<p>` list.
pub open spec fn read_without_p(kind: PrimitiveType) -> bool {
    kind == PrimitiveType::Polygon || kind == PrimitiveType::TriFans
        || kind == PrimitiveType::TriStrips || kind == PrimitiveType::LineStrip
}

/// The material symbol of an element (empty when it names none).
pub open spec fn element_material(e: PrimitiveElement) -> Seq<char> {
    match e.material {
        Some(m) => m@,
        None => Seq::empty(),
    }
}

/// What reading one primitive element gives: its faces, or the error.
/// Triangles, polylists and lines without a `<p>` list give no face and
/// are not read further.
pub open spec fn element_spec(dm: DocumentMesh, vertex_id: Seq<char>, e: PrimitiveElement)
    -> Result<AssembledView, DaeMeshErrorView>
{
    if e.prim.len() == 0 && !read_without_p(e.kind) {
        Ok(no_faces())
    } else {
        read_primitives_spec(dm, vertex_id, valid_channels(channels_view(e.inputs@)), e.count as nat,
            e.vcount@, e.prim@, e.kind)
    }
}

/// Whether the index arithmetic of an element stays in range.
pub open spec fn element_ok(e: PrimitiveElement) -> bool {
    element_in_range(valid_channels(channels_view(e.inputs@)), e.count as nat, e.vcount@)
}

/// Whether the corner total of the first `np` polygons of `vcount` fits a
/// `usize` (see `corner_total`).
fn corners_fit(vcount: &Vec<usize>, np: usize) -> (b: bool)
    ensures
        b == (corner_total(vcount@, np as nat) <= usize::MAX),
{
    let n = if np < vcount.len() { np } else { vcount.len() };
    let mut total: usize = 0;
    let mut i: usize = 0;
    while i < n
        invariant
            n <= vcount.len(),
            n == (if (np as nat) < vcount@.len() { np as int } else { vcount@.len() as int }),
            i <= n,
            total == prefix_total(vcount@, i as int),
        decreases n - i,
    {
        match total.checked_add(vcount[i]) {
            Some(t) => total = t,
            None => {
                proof { lemma_prefix_total_mono(vcount@, i + 1, n as int); }
                return false;
            },
        }
        i = i + 1;
    }
    true
}

/// Whether the index arithmetic of an element stays in range (see
/// `element_ok`).
pub fn element_in_range_check(e: &PrimitiveElement) -> (b: bool)
    ensures
        b == element_ok(*e),
{
    let chs = per_index_channels(&e.inputs);
    let ghost cv = channels_view(chs@);
    let mut i: usize = 0;
    while i < chs.len()
        invariant
            cv == channels_view(chs@),
            cv == valid_channels(channels_view(e.inputs@)),
            i <= chs.len(),
            forall|k: int| 0 <= k < i ==> #[trigger] cv[k].offset < usize::MAX,
        decreases chs.len() - i,
    {
        if chs[i].offset == usize::MAX {
            assert(cv[i as int].offset == usize::MAX);
            return false;
        }
        i = i + 1;
    }
    assert forall|k: int| 0 <= k < chs.len() implies #[trigger] chs@[k].offset < usize::MAX by {
        assert(cv[k].offset == chs@[k].offset);
    }
    let n = input_stride(&chs);
    if n > usize::MAX / 3 {
        return false;
    }
    corners_fit(&e.vcount, e.count)
}

/// Whether the index arithmetic of every element of a geometry stays in
/// range (see `geometry_ok`), as `import_mesh_library` requires.
pub fn geometry_in_range(g: &GeometryInfo) -> (b: bool)
    ensures
        b == geometry_ok(*g),
{
    match &g.mesh {
        None => true,
        Some(m) => {
            let mut i: usize = 0;
            while i < m.elements.len()
                invariant
                    g.mesh is Some,
                    *m == g.mesh->0,
                    i <= m.elements@.len(),
                    forall|k: int| 0 <= k < i ==> element_ok(#[trigger] m.elements@[k]),
                decreases m.elements@.len() - i,
            {
                if !element_in_range_check(&m.elements[i]) {
                    assert(!element_ok(m.elements@[i as int]));
                    return false;
                }
                i = i + 1;
            }
            true
        },
    }
}

/// A subset of a mesh with a certain material symbol.
pub struct SubMesh {
    pub material: String,
    pub num_faces: usize,
}

/// A Collada mesh with its faces assembled: the position index of every
/// face corner, the corner count of every face, and the faces grouped by
/// material symbol, in document order.
pub struct Mesh {
    pub id: String,
    pub name: String,
    /// The id of the `<vertices>` element.
    pub vertex_id: String,
    pub per_vertex_data: Vec<InputChannel>,
    /// Corners per face: 1 point, 2 line, 3 triangle, more polygon.
    pub face_size: Vec<usize>,
    /// The position index of every face corner, face after face.
    pub face_pos_indices: Vec<usize>,
    pub sub_meshes: Vec<SubMesh>,
}

/// The faces of a mesh so far.
pub struct FacesView {
    pub face_size: Seq<usize>,
    pub face_pos_indices: Seq<usize>,
    pub subs: Seq<(Seq<char>, usize)>,
}

/// The sub-meshes of a mesh, as (material symbol, face count) pairs.
pub open spec fn subs_view(s: Seq<SubMesh>) -> Seq<(Seq<char>, usize)> {
    Seq::new(s.len(), |i: int| (s[i].material@, s[i].num_faces))
}

/// The face counts of the sub-meshes.
pub open spec fn sub_counts(s: Seq<(Seq<char>, usize)>) -> Seq<usize> {
    Seq::new(s.len(), |i: int| s[i].1)
}

/// What reading the elements of a mesh in order gives.
pub open spec fn elements_spec(dm: DocumentMesh, vertex_id: Seq<char>, es: Seq<PrimitiveElement>)
    -> Result<FacesView, DaeMeshErrorView>
    decreases es.len(),
{
    if es.len() == 0 {
        Ok(FacesView { face_size: Seq::empty(), face_pos_indices: Seq::empty(), subs: Seq::empty() })
    } else {
        match elements_spec(dm, vertex_id, es.drop_last()) {
            Err(e) => Err(e),
            Ok(f) => match element_spec(dm, vertex_id, es.last()) {
                Err(e) => Err(e),
                Ok(a) => Ok(FacesView {
                    face_size: f.face_size + a.face_size,
                    face_pos_indices: f.face_pos_indices + a.face_pos_indices,
                    subs: f.subs.push((element_material(es.last()), a.count as usize)),
                }),
            },
        }
    }
}

/// The assembled faces of a mesh are consistent: the face counts of the
/// sub-meshes add up to the faces, and the face sizes to the corners.
pub open spec fn faces_consistent(face_size: Seq<usize>, face_pos: Seq<usize>, counts: Seq<usize>) -> bool {
    prefix_total(counts, counts.len() as int) == face_size.len()
        && prefix_total(face_size, face_size.len() as int) == face_pos.len()
}

proof fn lemma_prefix_total_append(a: Seq<usize>, b: Seq<usize>, k: int)
    requires
        0 <= k <= b.len(),
    ensures
        prefix_total(a + b, a.len() + k) == prefix_total(a, a.len() as int) + prefix_total(b, k),
    decreases k,
{
    if k > 0 {
        lemma_prefix_total_append(a, b, k - 1);
        assert((a + b)[a.len() + k - 1] == b[k - 1]);
    } else {
        lemma_prefix_total_append_left(a, b, a.len() as int);
    }
}

proof fn lemma_prefix_total_append_left(a: Seq<usize>, b: Seq<usize>, k: int)
    requires
        0 <= k <= a.len(),
    ensures
        prefix_total(a + b, k) == prefix_total(a, k),
    decreases k,
{
    if k > 0 {
        lemma_prefix_total_append_left(a, b, k - 1);
        assert((a + b)[k - 1] == a[k - 1]);
    }
}

proof fn lemma_assembled_consistent(a: AssembledView, np: nat, vcount: Seq<usize>, indices: Seq<u32>, pt: PrimitiveType,
    count: nat, no: nat, pvo: nat)
    requires
        faces_spec(np, vcount, indices, pt, count, no, pvo) == Ok::<AssembledView, DaeMeshErrorView>(a),
    ensures
        a.face_size.len() == a.count,
        prefix_total(a.face_size, a.face_size.len() as int) == a.face_pos_indices.len(),
{
    match pt {
        PrimitiveType::Triangles => {
            lemma_all_threes(np);
        },
        PrimitiveType::Polylist => {
            lemma_corner_total_take(vcount, np);
        },
        _ => {},
    }
}

proof fn lemma_all_threes(np: nat)
    ensures
        prefix_total(Seq::new(np, |i: int| 3usize), np as int) == 3 * np,
    decreases np,
{
    if np > 0 {
        let s = Seq::new(np, |i: int| 3usize);
        let t = Seq::new((np - 1) as nat, |i: int| 3usize);
        lemma_all_threes((np - 1) as nat);
        assert(s.drop_last() =~= t);
        lemma_prefix_total_drop_last(s, np - 1);
    }
}

proof fn lemma_prefix_total_drop_last(s: Seq<usize>, k: int)
    requires
        0 <= k <= s.len() - 1,
    ensures
        prefix_total(s.drop_last(), k) == prefix_total(s, k),
    decreases k,
{
    if k > 0 {
        lemma_prefix_total_drop_last(s, k - 1);
    }
}

/// Reads one primitive element.
pub fn read_element(dm: &DocumentMesh, vertex_id: &String, e: &PrimitiveElement) -> (r: Result<AssembledFaces, DaeMeshError>)
    requires
        element_ok(*e),
    ensures
        match r {
            Ok(a) => element_spec(*dm, vertex_id@, *e) == Ok::<AssembledView, DaeMeshErrorView>(a@),
            Err(err) => element_spec(*dm, vertex_id@, *e) == Err::<AssembledView, DaeMeshErrorView>(err@),
        },
{
    let reads_without_p = match e.kind {
        PrimitiveType::Polygon | PrimitiveType::TriFans | PrimitiveType::TriStrips | PrimitiveType::LineStrip => true,
        _ => false,
    };
    if e.prim.len() == 0 && !reads_without_p {
        let a = AssembledFaces { face_pos_indices: Vec::new(), face_size: Vec::new(), count: 0 };
        assert(a@ =~= no_faces());
        return Ok(a);
    }
    let chs = per_index_channels(&e.inputs);
    read_primitives(dm, vertex_id, &chs, e.count, &e.vcount, &e.prim, e.kind)
}

/// A Collada `<geometry>`: its id, its name and its `<mesh>` (none when it
/// holds another kind of geometry).
pub struct GeometryInfo {
    pub id: Option<String>,
    pub name: Option<String>,
    pub mesh: Option<DocumentMesh>,
}

/// An optional text, empty when absent.
pub open spec fn text_or_empty(s: Option<String>) -> Seq<char> {
    match s {
        Some(t) => t@,
        None => Seq::empty(),
    }
}

fn string_or_empty(s: &Option<String>) -> (r: String)
    ensures
        r@ == text_or_empty(*s),
{
    match s {
        Some(t) => t.clone(),
        None => String::new(),
    }
}

/// The per-vertex inputs declared by `<vertices>`.
pub open spec fn per_vertex_spec(v: Option<VerticesInfo>) -> Seq<ChannelView> {
    match v {
        Some(vi) => Seq::new(vi.inputs@.len(), |i: int| ChannelView {
            type_: vi.inputs@[i].0, index: 0, offset: 0, accessor: vi.inputs@[i].1@ }),
        None => Seq::empty(),
    }
}

/// The id of `<vertices>` (empty when there is none).
pub open spec fn vertex_id_spec(v: Option<VerticesInfo>) -> Seq<char> {
    match v {
        Some(vi) => vi.id@,
        None => Seq::empty(),
    }
}

/// Whether `m` is the mesh read from the geometry `g`.
pub open spec fn is_mesh_of(g: GeometryInfo, m: Mesh) -> bool {
    &&& g.mesh is Some
    &&& m.wf()
    &&& m.id@ == text_or_empty(g.id)
    &&& m.name@ == text_or_empty(g.name)
    &&& m.vertex_id@ == vertex_id_spec(g.mesh->0.vertices)
    &&& channels_view(m.per_vertex_data@) == per_vertex_spec(g.mesh->0.vertices)
    &&& elements_spec(g.mesh->0, m.vertex_id@, g.mesh->0.elements@) == Ok::<FacesView, DaeMeshErrorView>(m.faces())
}

/// Whether a geometry gives a mesh.
pub open spec fn reads_ok(g: GeometryInfo) -> bool {
    g.mesh is Some && elements_spec(g.mesh->0, vertex_id_spec(g.mesh->0.vertices), g.mesh->0.elements@) is Ok
}

/// Whether the index arithmetic of every element of a geometry stays in range.
pub open spec fn geometry_ok(g: GeometryInfo) -> bool {
    g.mesh is Some ==> forall|i: int| 0 <= i < g.mesh->0.elements.len()
        ==> element_ok(#[trigger] g.mesh->0.elements@[i])
}

impl Mesh {
    /// The assembled faces of this mesh.
    pub open spec fn faces(&self) -> FacesView {
        FacesView {
            face_size: self.face_size@,
            face_pos_indices: self.face_pos_indices@,
            subs: subs_view(self.sub_meshes@),
        }
    }

    /// The face counts of the sub-meshes add up to the faces, and the face
    /// sizes to the corners.
    pub open spec fn wf(&self) -> bool {
        faces_consistent(self.face_size@, self.face_pos_indices@, sub_counts(subs_view(self.sub_meshes@)))
    }

    /// Reads the mesh of a Collada geometry: its identity, the inputs of
    /// its `<vertices>`, and every primitive element in document order. A
    /// geometry without a `<mesh>` is refused as a missing `mesh` entry.
    pub fn try_from(g: &GeometryInfo) -> (r: Result<Mesh, DaeMeshError>)
        requires
            geometry_ok(*g),
        ensures
            match r {
                Ok(m) => is_mesh_of(*g, m),
                Err(e) => match g.mesh {
                    None => e@ == DaeMeshErrorView::MissingLocalMapEntry("mesh"@),
                    Some(dm) => elements_spec(dm, vertex_id_spec(dm.vertices), dm.elements@) == Err::<FacesView, DaeMeshErrorView>(e@),
                },
            },
    {
        let dm = match &g.mesh {
            None => {
                proof { reveal_strlit("mesh"); }
                return Err(DaeMeshError::MissingLocalMapEntry(String::from_str("mesh")));
            },
            Some(dm) => dm,
        };
        let mut vertex_id = String::new();
        let mut per_vertex_data: Vec<InputChannel> = Vec::new();
        match &dm.vertices {
            Some(v) => {
                vertex_id = v.id.clone();
                let mut i: usize = 0;
                while i < v.inputs.len()
                    invariant
                        i <= v.inputs.len(),
                        channels_view(per_vertex_data@) == per_vertex_spec(dm.vertices).take(i as int),
                        dm.vertices == Some(*v),
                    decreases v.inputs.len() - i,
                {
                    let ghost before = channels_view(per_vertex_data@);
                    let t = v.inputs[i].0;
                    let src = v.inputs[i].1.clone();
                    per_vertex_data.push(InputChannel { type_: t, index: 0, offset: 0, accessor: src });
                    assert(channels_view(per_vertex_data@) =~= before.push(per_vertex_data@.last()@));
                    assert(per_vertex_spec(dm.vertices).take(i + 1) =~= per_vertex_spec(dm.vertices).take(i as int).push(per_vertex_data@.last()@));
                    i = i + 1;
                }
                assert(per_vertex_spec(dm.vertices).take(v.inputs.len() as int) =~= per_vertex_spec(dm.vertices));
            },
            None => {
                assert(channels_view(per_vertex_data@) =~= per_vertex_spec(dm.vertices));
            },
        }
        let mut mesh = Mesh {
            id: string_or_empty(&g.id),
            name: string_or_empty(&g.name),
            vertex_id,
            per_vertex_data,
            face_size: Vec::new(),
            face_pos_indices: Vec::new(),
            sub_meshes: Vec::new(),
        };
        let ghost es = dm.elements@;
        assert(subs_view(mesh.sub_meshes@) =~= Seq::empty());
        assert(sub_counts(subs_view(mesh.sub_meshes@)) =~= Seq::empty());
        let mut k: usize = 0;
        while k < dm.elements.len()
            invariant
                es == dm.elements@,
                g.mesh == Some(*dm),
                forall|i: int| 0 <= i < es.len() ==> element_ok(#[trigger] es[i]),
                k <= es.len(),
                mesh.vertex_id@ == vertex_id_spec(dm.vertices),
                mesh.wf(),
                elements_spec(*dm, mesh.vertex_id@, es.take(k as int)) == Ok::<FacesView, DaeMeshErrorView>(mesh.faces()),
                mesh.id@ == text_or_empty(g.id),
                mesh.name@ == text_or_empty(g.name),
                channels_view(mesh.per_vertex_data@) == per_vertex_spec(dm.vertices),
            decreases es.len() - k,
        {
            let e = &dm.elements[k];
            assert(es.take(k + 1).drop_last() =~= es.take(k as int));
            assert(es.take(k + 1).last() == *e);
            let a = match read_element(dm, &mesh.vertex_id, e) {
                Err(err) => {
                    proof {
                        assert(elements_spec(*dm, mesh.vertex_id@, es.take(k + 1))
                            == Err::<FacesView, DaeMeshErrorView>(err@));
                        lemma_elements_err_extends(*dm, mesh.vertex_id@, es, (k + 1) as int);
                    }
                    return Err(err);
                },
                Ok(a) => a,
            };
            proof {
                lemma_element_consistent(*dm, mesh.vertex_id@, *e, a@);
            }
            let ghost old_size = mesh.face_size@;
            let ghost old_pos = mesh.face_pos_indices@;
            let ghost old_counts = sub_counts(subs_view(mesh.sub_meshes@));
            let ghost old_subs = subs_view(mesh.sub_meshes@);
            let mut fs = a.face_size;
            let mut fp = a.face_pos_indices;
            mesh.face_size.append(&mut fs);
            mesh.face_pos_indices.append(&mut fp);
            let material = string_or_empty(&e.material);
            mesh.sub_meshes.push(SubMesh { material, num_faces: a.count });
            proof {
                assert(subs_view(mesh.sub_meshes@) =~= old_subs.push((element_material(*e), a@.count as usize)));
                assert(sub_counts(subs_view(mesh.sub_meshes@)) =~= old_counts.push(a.count));
                lemma_prefix_total_push(old_counts, a.count, old_counts.len() as int);
                lemma_prefix_total_append(old_size, a@.face_size, a@.face_size.len() as int);
            }
            k = k + 1;
        }
        assert(es.take(es.len() as int) =~= es);
        Ok(mesh)
    }
}

proof fn lemma_element_consistent(dm: DocumentMesh, vid: Seq<char>, e: PrimitiveElement, a: AssembledView)
    requires
        element_spec(dm, vid, e) == Ok::<AssembledView, DaeMeshErrorView>(a),
    ensures
        a.face_size.len() == a.count,
        prefix_total(a.face_size, a.face_size.len() as int) == a.face_pos_indices.len(),
{
    if e.prim.len() == 0 && !read_without_p(e.kind) {
    } else {
        let chs = valid_channels(channels_view(e.inputs@));
        let no = stride(chs);
        let v = first_vertex_channel(chs)->0;
        let ch = chs[v];
        let count = position_count_spec(dm, ch.accessor)->Ok_0;
        lemma_assembled_consistent(a, e.count as nat, e.vcount@, e.prim@, e.kind, count, no, ch.offset as nat);
    }
}

proof fn lemma_elements_err_extends(dm: DocumentMesh, vid: Seq<char>, es: Seq<PrimitiveElement>, k: int)
    requires
        0 < k <= es.len(),
        elements_spec(dm, vid, es.take(k)) is Err,
    ensures
        elements_spec(dm, vid, es) == elements_spec(dm, vid, es.take(k)),
    decreases es.len() - k,
{
    if k < es.len() {
        assert(es.take(k + 1).drop_last() =~= es.take(k));
        lemma_elements_err_extends(dm, vid, es, k + 1);
    } else {
        assert(es.take(k) =~= es);
    }
}

/// The meshes of a geometry library, by geometry id, in document order.
pub struct MeshLibrary {
    pub entries: Vec<(String, Mesh)>,
}

/// The library entries read from `gs`: (id, position of the geometry).
/// A geometry is taken when it has a non-empty id not taken before and its
/// mesh can be read; the others are passed over.
pub open spec fn library_spec(gs: Seq<GeometryInfo>) -> Seq<(Seq<char>, int)>
    decreases gs.len(),
{
    if gs.len() == 0 {
        Seq::empty()
    } else {
        let l = library_spec(gs.drop_last());
        let g = gs.last();
        match g.id {
            Some(id) => if id@.len() > 0 && !library_ids(l).contains(id@) && reads_ok(g) {
                l.push((id@, gs.len() - 1))
            } else {
                l
            },
            None => l,
        }
    }
}

/// The ids of library entries.
pub open spec fn library_ids(l: Seq<(Seq<char>, int)>) -> Seq<Seq<char>> {
    Seq::new(l.len(), |i: int| l[i].0)
}

/// A library holds each geometry id at most once.
pub proof fn lemma_library_ids_distinct(gs: Seq<GeometryInfo>)
    ensures
        forall|i: int, j: int| 0 <= i < library_spec(gs).len() && 0 <= j < library_spec(gs).len() && i != j
            ==> library_spec(gs)[i].0 != library_spec(gs)[j].0,
    decreases gs.len(),
{
    if gs.len() > 0 {
        lemma_library_ids_distinct(gs.drop_last());
        let l = library_spec(gs.drop_last());
        let r = library_spec(gs);
        if r.len() > l.len() {
            assert forall|i: int| 0 <= i < l.len() implies (#[trigger] r[i]).0 != r[l.len() as int].0 by {
                assert(library_ids(l)[i] == l[i].0);
            }
        }
    }
}

impl MeshLibrary {
    /// Whether the entries are those read from `gs`.
    pub open spec fn read_from(&self, gs: Seq<GeometryInfo>) -> bool {
        let l = library_spec(gs);
        &&& self.entries.len() == l.len()
        &&& forall|i: int| 0 <= i < l.len() ==> (#[trigger] self.entries@[i]).0@ == l[i].0
            && 0 <= l[i].1 < gs.len() && is_mesh_of(gs[l[i].1], self.entries@[i].1)
    }

    /// The mesh of the geometry `id`.
    pub fn get(&self, id: &String) -> (r: Option<&Mesh>)
        ensures
            match r {
                Some(m) => exists|i: int| 0 <= i < self.entries.len() && self.entries@[i].0@ == id@
                    && self.entries@[i].1 == *m
                    && forall|j: int| 0 <= j < i ==> self.entries@[j].0@ != id@,
                None => forall|i: int| 0 <= i < self.entries.len() ==> self.entries@[i].0@ != id@,
            },
    {
        let mut i: usize = 0;
        while i < self.entries.len()
            invariant
                i <= self.entries.len(),
                forall|j: int| 0 <= j < i ==> self.entries@[j].0@ != id@,
            decreases self.entries.len() - i,
        {
            if self.entries[i].0 == *id {
                return Some(&self.entries[i].1);
            }
            i = i + 1;
        }
        None
    }

    fn contains(&self, id: &String) -> (b: bool)
        ensures
            b == exists|i: int| 0 <= i < self.entries.len() && self.entries@[i].0@ == id@,
    {
        let mut i: usize = 0;
        while i < self.entries.len()
            invariant
                i <= self.entries.len(),
                forall|j: int| 0 <= j < i ==> self.entries@[j].0@ != id@,
            decreases self.entries.len() - i,
        {
            if self.entries[i].0 == *id {
                return true;
            }
            i = i + 1;
        }
        false
    }
}

/// Reads the mesh of every geometry of a document into a library keyed by
/// geometry id: geometries without an id, with an id already taken, or
/// whose mesh cannot be read are passed over.
pub fn import_mesh_library(geometries: &Vec<GeometryInfo>) -> (lib: MeshLibrary)
    requires
        forall|i: int| 0 <= i < geometries.len() ==> geometry_ok(#[trigger] geometries@[i]),
    ensures
        lib.read_from(geometries@),
{
    let ghost gs = geometries@;
    let mut lib = MeshLibrary { entries: Vec::new() };
    let mut k: usize = 0;
    while k < geometries.len()
        invariant
            gs == geometries@,
            forall|i: int| 0 <= i < gs.len() ==> geometry_ok(#[trigger] gs[i]),
            k <= gs.len(),
            lib.entries.len() == library_spec(gs.take(k as int)).len(),
            forall|i: int| 0 <= i < library_spec(gs.take(k as int)).len() ==> (#[trigger] lib.entries@[i]).0@ == library_spec(gs.take(k as int))[i].0
                && 0 <= library_spec(gs.take(k as int))[i].1 < k
                && is_mesh_of(gs[library_spec(gs.take(k as int))[i].1], lib.entries@[i].1),
        decreases gs.len() - k,
    {
        let g = &geometries[k];
        let ghost l = library_spec(gs.take(k as int));
        assert(gs.take(k + 1).drop_last() =~= gs.take(k as int));
        assert(gs.take(k + 1).last() == *g);
        let id = match &g.id {
            Some(id) => id,
            None => {
                assert(library_spec(gs.take(k + 1)) == l);
                k = k + 1;
                continue;
            },
        };
        let empty = is_empty_id(id);
        let taken = lib.contains(id);
        proof {
            assert(taken == library_ids(l).contains(id@)) by {
                if taken {
                    let i = choose|i: int| 0 <= i < lib.entries.len() && lib.entries@[i].0@ == id@;
                    assert(library_ids(l)[i] == id@);
                }
                if library_ids(l).contains(id@) {
                    let i = choose|i: int| 0 <= i < library_ids(l).len() && library_ids(l)[i] == id@;
                    assert(lib.entries@[i].0@ == id@);
                }
            }
        }
        if empty || taken {
            assert(library_spec(gs.take(k + 1)) == l);
            k = k + 1;
            continue;
        }
        match Mesh::try_from(g) {
            Ok(m) => {
                assert(reads_ok(*g));
                assert(library_spec(gs.take(k + 1)) == l.push((id@, k as int)));
                let ghost old_entries = lib.entries@;
                lib.entries.push((id.clone(), m));
                assert forall|i: int| 0 <= i < l.len() + 1 implies (#[trigger] lib.entries@[i]).0@ == l.push((id@, k as int))[i].0
                    && 0 <= l.push((id@, k as int))[i].1 < k + 1
                    && is_mesh_of(gs[l.push((id@, k as int))[i].1], lib.entries@[i].1) by {
                    if i < l.len() {
                        assert(lib.entries@[i] == old_entries[i]);
                    }
                }
            },
            Err(_) => {
                assert(!reads_ok(*g));
                assert(library_spec(gs.take(k + 1)) == l);
            },
        }
        k = k + 1;
    }
    assert(gs.take(gs.len() as int) =~= gs);
    assert forall|i: int| 0 <= i < library_spec(gs).len() implies (#[trigger] lib.entries@[i]).0@ == library_spec(gs)[i].0
        && 0 <= library_spec(gs)[i].1 < gs.len() && is_mesh_of(gs[library_spec(gs)[i].1], lib.entries@[i].1) by {
        assert(lib.entries@[i].0@ == library_spec(gs.take(gs.len() as int))[i].0);
    }
    lib
}

fn is_empty_id(s: &String) -> (b: bool)
    ensures
        b == (s@.len() == 0),
{
    crate::text::string_is_empty(s)
}

/// The faces of one sub-mesh over corners numbered from 0: face `f` holds
/// the corners after those of the faces before it.
pub open spec fn numbered_faces(sizes: Seq<usize>) -> Seq<Seq<usize>> {
    Seq::new(sizes.len(), |f: int| Seq::new(sizes[f] as nat, |i: int| (prefix_total(sizes, f) + i) as usize))
}

/// The primitive kinds of faces of the given sizes (any size other than
/// 1, 2 and 3 counts as a polygon).
pub open spec fn dae_primitive_types(sizes: Seq<usize>) -> PrimitiveTypes {
    PrimitiveTypes {
        point: sizes.contains(1usize),
        line: sizes.contains(2usize),
        triangle: sizes.contains(3usize),
        polygon: exists|i: int| 0 <= i < sizes.len() && sizes[i] != 1 && sizes[i] != 2 && sizes[i] != 3,
    }
}

/// The faces, primitive kinds and corner count of the faces `lo..hi`.
pub fn number_faces(face_size: &Vec<usize>, lo: usize, hi: usize) -> (r: (Vec<Vec<usize>>, PrimitiveTypes, usize))
    requires
        lo <= hi <= face_size.len(),
        prefix_total(face_size@, face_size.len() as int) <= usize::MAX,
    ensures
        faces_view(r.0@) == numbered_faces(face_size@.subrange(lo as int, hi as int)),
        r.1 == dae_primitive_types(face_size@.subrange(lo as int, hi as int)),
        r.2 == prefix_total(face_size@.subrange(lo as int, hi as int), (hi - lo) as int),
{
    let ghost sizes = face_size@.subrange(lo as int, hi as int);
    proof {
        lemma_subrange_total_bound(face_size@, lo as int, hi as int);
    }
    let mut faces: Vec<Vec<usize>> = Vec::new();
    let mut types = PrimitiveTypes::empty();
    let mut vertex: usize = 0;
    let mut f: usize = lo;
    while f < hi
        invariant
            sizes == face_size@.subrange(lo as int, hi as int),
            prefix_total(sizes, sizes.len() as int) <= usize::MAX,
            lo <= f <= hi <= face_size.len(),
            vertex == prefix_total(sizes, (f - lo) as int),
            faces@.len() == f - lo,
            forall|k: int| 0 <= k < f - lo ==> #[trigger] faces@[k]@ == numbered_faces(sizes)[k],
            types.point == exists|k: int| 0 <= k < f - lo && sizes[k] == 1,
            types.line == exists|k: int| 0 <= k < f - lo && sizes[k] == 2,
            types.triangle == exists|k: int| 0 <= k < f - lo && sizes[k] == 3,
            types.polygon == exists|k: int| 0 <= k < f - lo && sizes[k] != 1 && sizes[k] != 2 && sizes[k] != 3,
        decreases hi - f,
    {
        let size = face_size[f];
        assert(sizes[(f - lo) as int] == size);
        proof {
            lemma_prefix_total_mono(sizes, (f - lo + 1) as int, sizes.len() as int);
        }
        if size == 1 {
            types.point = true;
        } else if size == 2 {
            types.line = true;
        } else if size == 3 {
            types.triangle = true;
        } else {
            types.polygon = true;
        }
        let mut face: Vec<usize> = Vec::new();
        let mut i: usize = 0;
        while i < size
            invariant
                i <= size,
                vertex + size <= usize::MAX,
                face@.len() == i,
                forall|m: int| 0 <= m < i ==> #[trigger] face@[m] == (vertex + m) as usize,
            decreases size - i,
        {
            face.push(vertex + i);
            i = i + 1;
        }
        assert(face@ =~= numbered_faces(sizes)[(f - lo) as int]);
        faces.push(face);
        vertex = vertex + size;
        f = f + 1;
    }
    assert(faces_view(faces@) =~= numbered_faces(sizes));
    (faces, types, vertex)
}

proof fn lemma_subrange_total_bound(s: Seq<usize>, lo: int, hi: int)
    requires
        0 <= lo <= hi <= s.len(),
    ensures
        prefix_total(s.subrange(lo, hi), hi - lo) <= prefix_total(s, s.len() as int),
    decreases hi - lo,
{
    if hi > lo {
        lemma_subrange_total_bound(s, lo, hi - 1);
        assert(s.subrange(lo, hi).drop_last() =~= s.subrange(lo, hi - 1));
        lemma_prefix_total_drop_last(s.subrange(lo, hi), hi - lo - 1);
        lemma_prefix_total_mono(s, hi, s.len() as int);
        lemma_subrange_total_split(s, lo, hi);
    } else {
        lemma_prefix_total_mono(s, 0, s.len() as int);
    }
}

pub proof fn lemma_subrange_total_split(s: Seq<usize>, lo: int, hi: int)
    requires
        0 <= lo <= hi <= s.len(),
    ensures
        prefix_total(s.subrange(lo, hi), hi - lo) + prefix_total(s, lo) == prefix_total(s, hi),
    decreases hi - lo,
{
    if hi > lo {
        lemma_subrange_total_split(s, lo, hi - 1);
        assert(s.subrange(lo, hi).drop_last() =~= s.subrange(lo, hi - 1));
        lemma_prefix_total_drop_last(s.subrange(lo, hi), hi - lo - 1);
    }
}

proof fn lemma_numbered_prefix(sizes: Seq<usize>, k: int)
    requires
        0 <= k <= sizes.len(),
        prefix_total(sizes, sizes.len() as int) <= usize::MAX,
    ensures
        flatten(numbered_faces(sizes).take(k)) =~= Seq::new(prefix_total(sizes, k), |j: int| j as usize),
    decreases k,
{
    let fs = numbered_faces(sizes);
    if k > 0 {
        lemma_numbered_prefix(sizes, k - 1);
        lemma_prefix_total_mono(sizes, k, sizes.len() as int);
        assert(fs.take(k).drop_last() =~= fs.take(k - 1));
        let prev = Seq::new(prefix_total(sizes, k - 1), |j: int| j as usize);
        assert(prev + fs[k - 1] =~= Seq::new(prefix_total(sizes, k), |j: int| j as usize));
    } else {
        assert(fs.take(0) =~= Seq::<Seq<usize>>::empty());
    }
}

/// The faces split off a sub-mesh number its corners consecutively from
/// 0: one after the other they are `0, 1, ..., n - 1` for `n` corners.
pub proof fn lemma_numbered_faces_are_consecutive(sizes: Seq<usize>)
    requires
        prefix_total(sizes, sizes.len() as int) <= usize::MAX,
    ensures
        flatten(numbered_faces(sizes)) == Seq::new(prefix_total(sizes, sizes.len() as int), |j: int| j as usize),
{
    lemma_numbered_prefix(sizes, sizes.len() as int);
    assert(numbered_faces(sizes).take(sizes.len() as int) =~= numbered_faces(sizes));
}

} // verus!
