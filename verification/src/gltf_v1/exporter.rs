//! The glTF 1.0 exporter: laying out accessor data in the body buffer.
use vstd::prelude::*;

use crate::gltf_v1::asset::{ComponentType, PrimitiveMode, Value, component_size, num_components};
use crate::gltf_v1::names::{UniqueNames, generate_unique_name, unique_name_spec};
use crate::scene::PrimitiveTypes;
use crate::textmap::TextMap;
use crate::text::{path_file_name, path_file_name_spec, path_with_extension, path_with_extension_spec};

verus! {

/// Which file the exporter writes.
#[derive(Clone, Copy, Debug, PartialEq, Eq, Structural)]
pub enum Output {
    /// Standard glTF: a `.gltf` document beside a `.bin` body.
    Standard,
    /// Binary glTF: one `.glb` file.
    Binary,
}

impl Default for Output {
    fn default() -> (o: Output)
        ensures
            o == Output::Standard,
    {
        Output::Standard
    }
}

/// The glTF 1.0 exporter.
#[derive(Debug)]
pub struct GltfExporter {
    pub output_type: Output,
}

impl GltfExporter {
    /// An exporter that writes the given kind of file.
    pub fn new(output_type: Output) -> (e: GltfExporter)
        ensures
            e.output_type == output_type,
    {
        GltfExporter { output_type }
    }
}

impl Default for GltfExporter {
    fn default() -> (e: GltfExporter)
        ensures
            e.output_type == Output::Standard,
    {
        GltfExporter { output_type: Output::Standard }
    }
}

/// What a buffer view holds.
#[derive(Clone, Copy, Debug, PartialEq, Eq, Structural)]
pub enum BufferViewTarget {
    ArrayBuffer,
    ElementArrayBuffer,
}

/// How the data of one accessor is laid out: its elements are read as
/// `type_in` and written as `type_out`.
#[derive(Clone, Copy, Debug, PartialEq, Eq, Structural)]
pub struct AccessorLayout {
    pub target: BufferViewTarget,
    pub type_in: Value,
    pub type_out: Value,
    pub component_type: ComponentType,
    pub count: u32,
}

/// A buffer view of the exported document.
#[derive(Debug)]
pub struct BufferView {
    pub byte_offset: u64,
    pub byte_length: u64,
    pub target: BufferViewTarget,
    pub name: String,
    pub buffer: String,
}

/// An accessor of the exported document (its bounds are set by the caller).
#[derive(Debug)]
pub struct Accessor {
    pub buffer_view: String,
    pub byte_offset: u32,
    pub byte_stride: u32,
    pub component_type: ComponentType,
    pub count: u32,
    pub type_: Value,
    pub name: String,
}

/// The buffer views and accessors of the exported document, by name.
pub struct ExportRoot {
    pub buffer_views: TextMap<BufferView>,
    pub accessors: TextMap<Accessor>,
}

impl ExportRoot {
    /// A document with no buffer view and no accessor.
    pub fn new() -> (r: ExportRoot)
        ensures
            r.wf(),
            r.buffer_views.as_map() == Map::<Seq<char>, BufferView>::empty(),
            r.accessors.as_map() == Map::<Seq<char>, Accessor>::empty(),
    {
        ExportRoot { buffer_views: TextMap::new(), accessors: TextMap::new() }
    }

    /// Both maps are well formed.
    pub open spec fn wf(&self) -> bool {
        self.buffer_views.wf() && self.accessors.wf()
    }
}

/// The bytes an accessor writes: element `i`, component `j` takes byte
/// `i * n_out + j` of the data when `j` is below both component counts,
/// else zero.
pub open spec fn packed_bytes(data: Seq<u8>, count: nat, n_in: nat, n_out: nat) -> Seq<u8> {
    Seq::new(count * n_out, |k: int| if k % (n_out as int) < n_in && k % (n_out as int) < n_out { data[k] } else { 0u8 })
}

/// The zero bytes that align the start of an accessor's data: as many as
/// the buffer length modulo the component size.
pub open spec fn alignment_padding(len: nat, bpc: nat) -> nat {
    len % bpc
}

/// Whether the data of an accessor fits its layout: it holds
/// `count * n_in * size` bytes, every byte read lies in it, and the
/// offsets and lengths fit a `usize`.
pub open spec fn layout_fits(old_len: nat, data: Seq<u8>, l: AccessorLayout) -> bool {
    let n_in = num_components(l.type_in) as nat;
    let n_out = num_components(l.type_out) as nat;
    let bpc = component_size(l.component_type) as nat;
    let m = if n_in < n_out { n_in } else { n_out };
    &&& data.len() == l.count * n_in * bpc
    &&& (l.count == 0 || (l.count - 1) * n_out + m <= data.len())
    &&& old_len + alignment_padding(old_len, bpc) + l.count * n_out * bpc <= usize::MAX
}

pub(crate) proof fn lemma_div_mod_of(i: int, n: int, j: int)
    requires
        n > 0,
        0 <= j < n,
    ensures
        (i * n + j) % n == j,
        (i * n + j) / n == i,
{
    vstd::arithmetic::div_mod::lemma_fundamental_div_mod_converse(i * n + j, n, i, j);
}

proof fn lemma_read_in_range(i: int, j: int, count: int, n_out: int, m: int, len: int)
    requires
        0 <= i < count,
        0 <= j < m,
        n_out > 0,
        (count - 1) * n_out + m <= len,
    ensures
        i * n_out + j < len,
        0 <= i * n_out + j,
{
    assert(i * n_out <= (count - 1) * n_out) by (nonlinear_arith)
        requires
            0 <= i < count,
            n_out > 0;
    assert(0 <= i * n_out) by (nonlinear_arith)
        requires
            0 <= i,
            n_out > 0;
}

/// Appends the data of one accessor to the body buffer: first zero bytes
/// up to the buffer length modulo the component size, then one byte per
/// written component (see `packed_bytes`). Records a buffer view named
/// after `view` over `count * n_out * size` bytes at the aligned offset,
/// and an accessor named after `accessor` over it; gives the accessor's
/// name.
pub fn export_data(
    root: &mut ExportRoot,
    buffer_data: &mut Vec<u8>,
    data: &Vec<u8>,
    names: &mut UniqueNames,
    layout: AccessorLayout,
) -> (accessor_name: String)
    requires
        old(root).wf(),
        old(names).wf(),
        old(names).key_seq().len() + old(names).calls() + 2 < u32::MAX,
        layout_fits(old(buffer_data)@.len(), data@, layout),
    ensures
        final(root).wf(),
        final(names).wf(),
        final(names).calls() == old(names).calls() + 2,
        ({
            let n_in = num_components(layout.type_in) as nat;
            let n_out = num_components(layout.type_out) as nat;
            let bpc = component_size(layout.component_type) as nat;
            let old_len = old(buffer_data)@.len();
            let pad = alignment_padding(old_len, bpc);
            let (view_name, k1, c1) = unique_name_spec(old(names).key_seq(), old(names).counter_seq(), "view"@);
            let (acc_name, k2, c2) = unique_name_spec(k1, c1, "accessor"@);
            &&& final(buffer_data)@ == old(buffer_data)@ + Seq::new(pad, |i: int| 0u8)
                + packed_bytes(data@, layout.count as nat, n_in, n_out)
            &&& accessor_name@ == acc_name
            &&& final(names).key_seq() == k2
            &&& final(names).counter_seq() == c2
            &&& final(root).buffer_views.as_map().dom() == old(root).buffer_views.as_map().dom().insert(view_name)
            &&& final(root).accessors.as_map().dom() == old(root).accessors.as_map().dom().insert(acc_name)
            &&& ({
                let v = final(root).buffer_views.as_map()[view_name];
                &&& v.byte_offset == old_len + pad
                &&& v.byte_length == layout.count * n_out * bpc
                &&& v.target == layout.target
                &&& v.name@ == view_name
                &&& v.buffer@ == "body"@
            })
            &&& ({
                let a = final(root).accessors.as_map()[acc_name];
                &&& a.buffer_view@ == view_name
                &&& a.byte_offset == 0
                &&& a.byte_stride == 0
                &&& a.component_type == layout.component_type
                &&& a.count == layout.count
                &&& a.type_ == layout.type_out
                &&& a.name@ == acc_name
            })
            &&& forall|k: Seq<char>| k != view_name && old(root).buffer_views.as_map().dom().contains(k)
                ==> #[trigger] final(root).buffer_views.as_map()[k] == old(root).buffer_views.as_map()[k]
            &&& forall|k: Seq<char>| k != acc_name && old(root).accessors.as_map().dom().contains(k)
                ==> #[trigger] final(root).accessors.as_map()[k] == old(root).accessors.as_map()[k]
        }),
{
    let n_in = layout.type_in.get_num_components() as usize;
    let n_out = layout.type_out.get_num_components() as usize;
    let bpc = layout.component_type.size() as usize;
    let count = layout.count as usize;
    let ghost old_buf = buffer_data@;
    let old_len = buffer_data.len();
    let padding = old_len % bpc;
    let offset = old_len + padding;
    proof {
        assert(count * n_out * bpc <= usize::MAX);
        assert(count * n_out <= count * n_out * bpc) by (nonlinear_arith)
            requires bpc >= 1;
    }
    let length = count * n_out * bpc;
    let mut p: usize = 0;
    while p < padding
        invariant
            p <= padding,
            buffer_data@ == old_buf + Seq::new(p as nat, |i: int| 0u8),
        decreases padding - p,
    {
        buffer_data.push(0);
        assert(old_buf + Seq::new((p + 1) as nat, |i: int| 0u8) =~= (old_buf + Seq::new(p as nat, |i: int| 0u8)).push(0u8));
        p = p + 1;
    }
    let ghost head = buffer_data@;
    let m = if n_in < n_out { n_in } else { n_out };
    let ghost body = packed_bytes(data@, count as nat, n_in as nat, n_out as nat);
    let mut i: usize = 0;
    while i < count
        invariant
            n_in == num_components(layout.type_in),
            n_out == num_components(layout.type_out),
            n_out > 0,
            m == (if n_in < n_out { n_in } else { n_out }),
            count == layout.count,
            count * n_out <= usize::MAX,
            layout_fits(old_buf.len(), data@, layout),
            bpc == component_size(layout.component_type),
            i <= count,
            body == packed_bytes(data@, count as nat, n_in as nat, n_out as nat),
            buffer_data@ == head + body.take(i * n_out),
        decreases count - i,
    {
        proof {
            assert((i + 1) * n_out <= count * n_out) by (nonlinear_arith)
                requires i < count, n_out > 0;
            assert((i + 1) * n_out == i * n_out + n_out) by (nonlinear_arith);
        }
        let base = i * n_out;
        let mut j: usize = 0;
        while j < n_out
            invariant
                n_in == num_components(layout.type_in),
                n_out == num_components(layout.type_out),
                n_out > 0,
                m == (if n_in < n_out { n_in } else { n_out }),
                count == layout.count,
                layout_fits(old_buf.len(), data@, layout),
                bpc == component_size(layout.component_type),
                i < count,
                base == i * n_out,
                base + n_out <= count * n_out,
                j <= n_out,
                body == packed_bytes(data@, count as nat, n_in as nat, n_out as nat),
                buffer_data@ == head + body.take(base + j),
            decreases n_out - j,
        {
            proof {
                lemma_div_mod_of(i as int, n_out as int, j as int);
            }
            if j < m {
                proof {
                    lemma_read_in_range(i as int, j as int, count as int, n_out as int, m as int, data@.len() as int);
                }
                buffer_data.push(data[base + j]);
            } else {
                buffer_data.push(0);
            }
            assert(body.take(base + j + 1) =~= body.take(base + j).push(body[base + j]));
            j = j + 1;
        }
        i = i + 1;
    }
    assert(body.take(count * n_out) =~= body);
    proof { names.lemma_counters_have_room(); }
    let view_name = generate_unique_name("view", names);
    proof { names.lemma_counters_have_room(); }
    let accessor_name = generate_unique_name("accessor", names);
    proof {
        reveal_strlit("body");
    }
    let view = BufferView {
        byte_offset: offset as u64,
        byte_length: length as u64,
        target: layout.target,
        name: view_name.clone(),
        buffer: String::from_str("body"),
    };
    root.buffer_views.insert(view_name.clone(), view);
    let accessor = Accessor {
        buffer_view: view_name,
        byte_offset: 0,
        byte_stride: 0,
        component_type: layout.component_type,
        count: layout.count,
        type_: layout.type_out,
        name: accessor_name.clone(),
    };
    root.accessors.insert(accessor_name.clone(), accessor);
    accessor_name
}

/// The data of an accessor starts at a multiple of its component size:
/// padding the buffer length `len` by `len % size` zero bytes aligns it
/// for one- and two-byte components, and for four-byte components after
/// a buffer of even length. (After an odd length, four-byte data starts
/// two bytes off: length 1 gives offset 2.)
pub proof fn lemma_view_offset_aligned(len: nat, size: nat)
    requires
        size == 1 || size == 2 || size == 4,
        !(size == 4 && len % 2 == 1),
    ensures
        (len + alignment_padding(len, size)) % size == 0,
{
    assert((len + len % size) % size == 0) by (nonlinear_arith)
        requires
            size == 1 || size == 2 || size == 4,
            !(size == 4 && len % 2 == 1);
}

/// The little-endian bytes of a list of 16-bit values.
pub open spec fn le_bytes_u16(v: Seq<u16>) -> Seq<u8> {
    Seq::new(2 * v.len(), |k: int| if k % 2 == 0 { (v[k / 2] % 256) as u8 } else { (v[k / 2] / 256) as u8 })
}

/// The smallest and largest of a list of values (none when it is empty).
pub open spec fn bounds_u16(v: Seq<u16>) -> Option<(u16, u16)> {
    if v.len() == 0 {
        None
    } else {
        Some((
            choose|lo: u16| v.contains(lo) && forall|i: int| 0 <= i < v.len() ==> lo <= v[i],
            choose|hi: u16| v.contains(hi) && forall|i: int| 0 <= i < v.len() ==> v[i] <= hi,
        ))
    }
}

/// The little-endian bytes of a list of 16-bit values, with its smallest
/// and largest value (none when it is empty).
pub fn short_bytes(v: &Vec<u16>) -> (r: (Vec<u8>, Option<(u16, u16)>))
    ensures
        r.0@ == le_bytes_u16(v@),
        r.1 == bounds_u16(v@),
{
    let mut out: Vec<u8> = Vec::new();
    let mut lo: u16 = 0;
    let mut hi: u16 = 0;
    let mut i: usize = 0;
    while i < v.len()
        invariant
            i <= v.len(),
            out@ == le_bytes_u16(v@).take(2 * i),
            i > 0 ==> (exists|k: int| 0 <= k < i && v@[k] == lo) && (exists|k: int| 0 <= k < i && v@[k] == hi),
            i > 0 ==> forall|k: int| 0 <= k < i ==> lo <= v@[k] && v@[k] <= hi,
        decreases v.len() - i,
    {
        let x = v[i];
        if i == 0 || x < lo {
            lo = x;
        }
        if i == 0 || x > hi {
            hi = x;
        }
        out.push((x % 256) as u8);
        out.push((x / 256) as u8);
        proof {
            let b = le_bytes_u16(v@);
            assert((2 * i) % 2 == 0 && (2 * i) / 2 == i) by (nonlinear_arith);
            assert((2 * i + 1) % 2 == 1 && (2 * i + 1) / 2 == i) by (nonlinear_arith);
            assert(b.take(2 * i + 2) =~= b.take(2 * i).push(b[2 * i]).push(b[2 * i + 1]));
        }
        i = i + 1;
    }
    assert(le_bytes_u16(v@).take(2 * v.len()) =~= le_bytes_u16(v@));
    if v.len() == 0 {
        (out, None)
    } else {
        proof {
            let klo = choose|k: int| 0 <= k < v.len() && v@[k] == lo;
            let khi = choose|k: int| 0 <= k < v.len() && v@[k] == hi;
            assert(v@.contains(lo));
            assert(v@.contains(hi));
            let l = choose|l: u16| v@.contains(l) && forall|k: int| 0 <= k < v@.len() ==> l <= v@[k];
            let h = choose|h: u16| v@.contains(h) && forall|k: int| 0 <= k < v@.len() ==> v@[k] <= h;
            let il = choose|k: int| 0 <= k < v@.len() && v@[k] == l;
            let ih = choose|k: int| 0 <= k < v@.len() && v@[k] == h;
            assert(l <= v@[klo]);
            assert(lo <= v@[il]);
            assert(v@[khi] <= h);
            assert(v@[ih] <= hi);
        }
        (out, Some((lo, hi)))
    }
}

/// Exports a list of 16-bit indices as a scalar accessor of unsigned
/// shorts over an element-array view; gives the accessor's name and the
/// smallest and largest index (none for an empty list). As `export_data`
/// writes one byte per component, the body receives the first `n` of the
/// `2 n` little-endian bytes, while the view spans `2 n` bytes.
pub fn export_short(root: &mut ExportRoot, buffer_data: &mut Vec<u8>, short_data: &Vec<u16>, names: &mut UniqueNames)
    -> (r: (String, Option<(u16, u16)>))
    requires
        old(root).wf(),
        old(names).wf(),
        old(names).key_seq().len() + old(names).calls() + 2 < u32::MAX,
        short_data.len() <= u32::MAX,
        old(buffer_data)@.len() + 1 + 2 * short_data.len() <= usize::MAX,
    ensures
        final(root).wf(),
        final(names).wf(),
        r.1 == bounds_u16(short_data@),
        ({
            let old_len = old(buffer_data)@.len();
            let (view_name, k1, c1) = unique_name_spec(old(names).key_seq(), old(names).counter_seq(), "view"@);
            let (acc_name, k2, c2) = unique_name_spec(k1, c1, "accessor"@);
            &&& final(buffer_data)@ == old(buffer_data)@ + Seq::new(old_len % 2, |i: int| 0u8)
                + le_bytes_u16(short_data@).take(short_data.len() as int)
            &&& r.0@ == acc_name
            &&& final(names).key_seq() == k2
            &&& final(root).accessors.as_map().dom().contains(acc_name)
            &&& final(root).accessors.as_map()[acc_name].count == short_data.len()
            &&& final(root).accessors.as_map()[acc_name].component_type == ComponentType::UnsignedShort
            &&& final(root).accessors.as_map()[acc_name].type_ == Value::SCALAR
            &&& final(root).buffer_views.as_map().dom().contains(view_name)
            &&& final(root).buffer_views.as_map()[view_name].target == BufferViewTarget::ElementArrayBuffer
            &&& final(root).buffer_views.as_map()[view_name].byte_offset == old_len + old_len % 2
            &&& final(root).buffer_views.as_map()[view_name].byte_length == 2 * short_data.len()
        }),
{
    let (data, bounds) = short_bytes(short_data);
    let layout = AccessorLayout {
        target: BufferViewTarget::ElementArrayBuffer,
        type_in: Value::SCALAR,
        type_out: Value::SCALAR,
        component_type: ComponentType::UnsignedShort,
        count: short_data.len() as u32,
    };
    proof {
        let n = short_data.len() as nat;
        assert(data@.len() == n * 1 * 2);
        let old_len = buffer_data@.len();
        assert(old_len % 2 <= 1);
    }
    let name = export_data(root, buffer_data, &data, names, layout);
    proof {
        let p = packed_bytes(data@, short_data.len() as nat, 1, 1);
        assert forall|k: int| 0 <= k < p.len() implies p[k] == data@[k] by {
            assert(k % 1 == 0);
        }
        assert(p =~= le_bytes_u16(short_data@).take(short_data.len() as int));
    }
    (name, bounds)
}

/// The index list of a mesh's faces as 16-bit values: every face
/// contributes as many indices as the first face has, each truncated to
/// 16 bits.
pub open spec fn face_indices_spec(faces: Seq<Seq<usize>>) -> Seq<u16> {
    if faces.len() == 0 {
        Seq::empty()
    } else {
        let per = faces[0].len();
        Seq::new(faces.len() * per, |k: int| faces[k / (per as int)][k % (per as int)] as u16)
    }
}

/// The index list of a mesh's faces as 16-bit values.
pub fn face_indices(faces: &Vec<Vec<usize>>) -> (r: Vec<u16>)
    requires
        faces.len() > 0 ==> forall|i: int| 0 <= i < faces.len() ==> (#[trigger] faces@[i]).len() >= faces@[0].len(),
        faces.len() > 0 ==> faces.len() * faces@[0].len() <= usize::MAX,
    ensures
        r@ == face_indices_spec(crate::scene::faces_view(faces@)),
{
    let mut out: Vec<u16> = Vec::new();
    if faces.len() == 0 {
        return out;
    }
    let per = faces[0].len();
    let ghost fv = crate::scene::faces_view(faces@);
    let ghost want = face_indices_spec(fv);
    let mut i: usize = 0;
    while i < faces.len()
        invariant
            faces.len() > 0,
            per == faces@[0].len(),
            forall|k: int| 0 <= k < faces.len() ==> (#[trigger] faces@[k]).len() >= per,
            faces.len() * per <= usize::MAX,
            fv == crate::scene::faces_view(faces@),
            want == face_indices_spec(fv),
            i <= faces.len(),
            out@ == want.take(i * per),
        decreases faces.len() - i,
    {
        proof {
            assert((i + 1) * per <= faces.len() * per) by (nonlinear_arith)
                requires i < faces.len();
            assert((i + 1) * per == i * per + per) by (nonlinear_arith);
        }
        let mut j: usize = 0;
        while j < per
            invariant
                faces.len() > 0,
                per == faces@[0].len(),
                i < faces.len(),
                faces@[i as int].len() >= per,
                (i + 1) * per <= faces.len() * per,
                (i + 1) * per == i * per + per,
                fv == crate::scene::faces_view(faces@),
                want == face_indices_spec(fv),
                j <= per,
                out@ == want.take(i * per + j),
            decreases per - j,
        {
            proof {
                lemma_div_mod_of(i as int, per as int, j as int);
                assert(want[i * per + j] == faces@[i as int]@[j as int] as u16);
            }
            out.push(faces[i][j] as u16);
            assert(want.take(i * per + j + 1) =~= want.take(i * per + j).push(want[i * per + j]));
            j = j + 1;
        }
        i = i + 1;
    }
    assert(want.take(faces.len() * per) =~= want);
    out
}

/// The primitive mode of a mesh: triangles if it holds any, else lines,
/// else points, else triangles.
pub open spec fn primitive_mode_spec(t: PrimitiveTypes) -> PrimitiveMode {
    if t.triangle {
        PrimitiveMode::Triangles
    } else if t.line {
        PrimitiveMode::Lines
    } else if t.point {
        PrimitiveMode::Points
    } else {
        PrimitiveMode::Triangles
    }
}

/// The primitive mode of a mesh with the given primitive kinds.
pub fn primitive_mode(t: &PrimitiveTypes) -> (m: PrimitiveMode)
    ensures
        m == primitive_mode_spec(*t),
{
    if t.triangle {
        PrimitiveMode::Triangles
    } else if t.line {
        PrimitiveMode::Lines
    } else if t.point {
        PrimitiveMode::Points
    } else {
        PrimitiveMode::Triangles
    }
}

/// A buffer of an exported glTF 1.0 document (always an array buffer):
/// its URI, its length in bytes and its name.
pub struct BufferEntry {
    pub uri: String,
    pub byte_length: usize,
    pub name: String,
}

/// A buffer, as a value.
pub open spec fn buffer_entry_view(b: BufferEntry) -> (Seq<char>, usize, Seq<char>) {
    (b.uri@, b.byte_length, b.name@)
}

fn text(s: &str) -> (r: String)
    ensures
        r@ == s@,
{
    crate::text::string_from_chars(&crate::text::chars_of(s))
}

/// Registers the body buffer of an exported document. A standard document
/// gets the buffer `body`, stored in the file `bin_uri` (`0.bin` when that
/// is not known). In a binary document every buffer so far refers to the
/// binary body (`binary_glTF`), and the buffer `binary_glTF` holds it.
pub fn register_body_buffer(buffers: &mut TextMap<BufferEntry>, output: Output, bin_uri: Option<String>, body_len: usize)
    requires
        old(buffers).wf(),
    ensures
        final(buffers).wf(),
        output == Output::Standard ==> {
            &&& final(buffers).keys() == (if old(buffers).keys().contains("body"@) {
                old(buffers).keys()
            } else {
                old(buffers).keys().push("body"@)
            })
            &&& buffer_entry_view(final(buffers).as_map()["body"@]) == (match bin_uri {
                Some(u) => u@,
                None => "0.bin"@,
            }, body_len, "body"@)
            &&& forall|k: Seq<char>| k != "body"@ && old(buffers).as_map().dom().contains(k)
                ==> #[trigger] final(buffers).as_map()[k] == old(buffers).as_map()[k]
        },
        output == Output::Binary ==> {
            &&& final(buffers).keys() == (if old(buffers).keys().contains("binary_glTF"@) {
                old(buffers).keys()
            } else {
                old(buffers).keys().push("binary_glTF"@)
            })
            &&& buffer_entry_view(final(buffers).as_map()["binary_glTF"@]) == ("data:,"@, body_len, "binary_glTF"@)
            &&& forall|k: Seq<char>| k != "binary_glTF"@ && old(buffers).as_map().dom().contains(k) ==> {
                let b = #[trigger] final(buffers).as_map()[k];
                let o = old(buffers).as_map()[k];
                &&& b.uri@ == "binary_glTF"@
                &&& b.byte_length == o.byte_length
                &&& b.name@ == o.name@
            }
        },
{
    match output {
        Output::Standard => {
            let uri = match bin_uri {
                Some(u) => u,
                None => text("0.bin"),
            };
            buffers.insert(text("body"), BufferEntry { uri, byte_length: body_len, name: text("body") });
            proof {
                buffers.lemma_dom_is_keys("body"@);
            }
        },
        Output::Binary => {
            let ghost m0 = buffers.as_map();
            let mut i: usize = 0;
            while i < buffers.len()
                invariant
                    buffers.wf(),
                    i <= buffers.keys().len(),
                    buffers.keys() == old(buffers).keys(),
                    forall|j: int| 0 <= j < buffers.keys().len() ==> {
                        let k = #[trigger] buffers.keys()[j];
                        let b = buffers.as_map()[k];
                        let o = m0[k];
                        &&& b.byte_length == o.byte_length
                        &&& b.name@ == o.name@
                        &&& (j < i ==> b.uri@ == "binary_glTF"@)
                    },
                    m0 == old(buffers).as_map(),
                decreases buffers.keys().len() - i,
            {
                let ghost before = buffers.as_map();
                let k = buffers.key_at(i).clone();
                let (byte_length, name) = match buffers.get(k.as_str()) {
                    Some(b) => (b.byte_length, b.name.clone()),
                    None => (0, String::new()),
                };
                proof {
                    buffers.lemma_dom_is_keys(k@);
                    buffers.lemma_keys_distinct();
                }
                buffers.set_at(i, BufferEntry { uri: text("binary_glTF"), byte_length, name });
                proof {
                    assert forall|j: int| 0 <= j < buffers.keys().len() implies {
                        let kk = #[trigger] buffers.keys()[j];
                        let b = buffers.as_map()[kk];
                        let o = m0[kk];
                        &&& b.byte_length == o.byte_length
                        &&& b.name@ == o.name@
                        &&& (j < i + 1 ==> b.uri@ == "binary_glTF"@)
                    } by {
                        let kk = buffers.keys()[j];
                        if j != i as int {
                            assert(kk != k@);
                            assert(buffers.as_map()[kk] == before[kk]);
                        }
                    }
                }
                i = i + 1;
            }
            buffers.insert(text("binary_glTF"), BufferEntry { uri: text("data:,"), byte_length: body_len, name: text("binary_glTF") });
            proof {
                assert forall|k: Seq<char>| k != "binary_glTF"@ && old(buffers).as_map().dom().contains(k) implies {
                    let b = #[trigger] buffers.as_map()[k];
                    let o = old(buffers).as_map()[k];
                    &&& b.uri@ == "binary_glTF"@
                    &&& b.byte_length == o.byte_length
                    &&& b.name@ == o.name@
                } by {
                    old(buffers).lemma_dom_is_keys(k);
                    let j = choose|j: int| 0 <= j < old(buffers).keys().len() && old(buffers).keys()[j] == k;
                    assert(old(buffers).keys()[j] == k);
                }
            }
        },
    }
}

/// The files an export writes and how the document refers to its body.
pub struct OutputPlan {
    /// The JSON document (standard output).
    pub gltf_file: Option<String>,
    /// The body buffer's file (standard output).
    pub bin_file: Option<String>,
    /// The one binary file (binary output).
    pub glb_file: Option<String>,
    /// The URI the body buffer is recorded under.
    pub body_uri: String,
    /// The body buffer's length in bytes.
    pub body_byte_length: usize,
}

/// The files of an export to `path`: a standard export writes the document
/// to `path` with extension `gltf` and the body to `path` with extension
/// `bin`, which the body buffer names by its file name (`0.bin` when it has
/// none); a binary export writes `path` with extension `glb`, whose body
/// the buffer `binary_glTF` names as `data:,`.
pub open spec fn output_plan_spec(output: Output, path: Seq<char>, body_len: usize)
    -> (Option<Seq<char>>, Option<Seq<char>>, Option<Seq<char>>, Seq<char>, usize)
{
    match output {
        Output::Standard => {
            let bin = path_with_extension_spec(path, "bin"@);
            (Some(path_with_extension_spec(path, "gltf"@)), Some(bin), None,
                match path_file_name_spec(bin) { Some(n) => n, None => "0.bin"@ }, body_len)
        },
        Output::Binary => (None, None, Some(path_with_extension_spec(path, "glb"@)), "data:,"@, body_len),
    }
}

/// Plans the files of an export to `path` (see `output_plan_spec`).
pub fn plan_output(output: Output, path: &str, body_len: usize) -> (r: OutputPlan)
    ensures
        output_plan_spec(output, path@, body_len) == (
            match r.gltf_file { Some(s) => Some(s@), None => None },
            match r.bin_file { Some(s) => Some(s@), None => None },
            match r.glb_file { Some(s) => Some(s@), None => None },
            r.body_uri@,
            r.body_byte_length,
        ),
{
    proof {
        reveal_strlit("bin");
        reveal_strlit("gltf");
        reveal_strlit("glb");
    }
    match output {
        Output::Standard => {
            let bin = path_with_extension(path, "bin");
            let uri = match path_file_name(bin.as_str()) {
                Some(n) => n,
                None => text("0.bin"),
            };
            OutputPlan {
                gltf_file: Some(path_with_extension(path, "gltf")),
                bin_file: Some(bin),
                glb_file: None,
                body_uri: uri,
                body_byte_length: body_len,
            }
        },
        Output::Binary => OutputPlan {
            gltf_file: None,
            bin_file: None,
            glb_file: Some(path_with_extension(path, "glb")),
            body_uri: text("data:,"),
            body_byte_length: body_len,
        },
    }
}

/// The frame of an exported document around its content: the one scene,
/// named after the scene, whose nodes are the first exported node (none
/// when no node was exported), the copyright of the asset, and the files
/// written (see `plan_output`).
pub struct DocumentFrame {
    pub scene_name: String,
    pub scene_nodes: Vec<String>,
    pub copyright: Option<String>,
    pub plan: OutputPlan,
}

/// Frames an exported document (see `DocumentFrame`) and registers its
/// body buffer (see `register_body_buffer`): a standard document's body
/// buffer is stored in the file its plan names.
pub fn frame_document(
    scene_name: &String,
    copyright: Option<String>,
    first_node: Option<String>,
    output: Output,
    path: &str,
    body_len: usize,
    buffers: &mut TextMap<BufferEntry>,
) -> (r: DocumentFrame)
    requires
        old(buffers).wf(),
    ensures
        final(buffers).wf(),
        r.scene_name@ == scene_name@,
        r.scene_nodes@.len() == (if first_node is Some { 1int } else { 0int }),
        first_node is Some ==> r.scene_nodes@[0]@ == first_node->0@,
        r.copyright == copyright,
        output_plan_spec(output, path@, body_len) == (
            match r.plan.gltf_file { Some(s) => Some(s@), None => None },
            match r.plan.bin_file { Some(s) => Some(s@), None => None },
            match r.plan.glb_file { Some(s) => Some(s@), None => None },
            r.plan.body_uri@,
            r.plan.body_byte_length,
        ),
        output == Output::Standard ==> {
            &&& final(buffers).keys() == (if old(buffers).keys().contains("body"@) {
                old(buffers).keys()
            } else {
                old(buffers).keys().push("body"@)
            })
            &&& buffer_entry_view(final(buffers).as_map()["body"@]) == (r.plan.body_uri@, body_len, "body"@)
            &&& forall|k: Seq<char>| k != "body"@ && old(buffers).as_map().dom().contains(k)
                ==> #[trigger] final(buffers).as_map()[k] == old(buffers).as_map()[k]
        },
        output == Output::Binary ==> {
            &&& final(buffers).keys() == (if old(buffers).keys().contains("binary_glTF"@) {
                old(buffers).keys()
            } else {
                old(buffers).keys().push("binary_glTF"@)
            })
            &&& buffer_entry_view(final(buffers).as_map()["binary_glTF"@]) == ("data:,"@, body_len, "binary_glTF"@)
            &&& forall|k: Seq<char>| k != "binary_glTF"@ && old(buffers).as_map().dom().contains(k) ==> {
                let b = #[trigger] final(buffers).as_map()[k];
                let o = old(buffers).as_map()[k];
                &&& b.uri@ == "binary_glTF"@
                &&& b.byte_length == o.byte_length
                &&& b.name@ == o.name@
            }
        },
{
    let plan = plan_output(output, path, body_len);
    let uri = text(plan.body_uri.as_str());
    register_body_buffer(buffers, output, Some(uri), body_len);
    let mut scene_nodes: Vec<String> = Vec::new();
    match first_node {
        Some(n) => scene_nodes.push(n),
        None => {},
    }
    DocumentFrame { scene_name: text(scene_name.as_str()), scene_nodes, copyright, plan }
}

} // verus!
