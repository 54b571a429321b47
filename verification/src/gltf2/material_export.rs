//! Exporting the textures of materials into a glTF 2.0 document: images,
//! samplers and textures, each created once and found again by name.
use vstd::prelude::*;

use crate::gltf_v1::names::{generate_unique_name, unique_name_spec, UniqueNames};
use crate::scene::{MaterialProperty, PropView, PropertyValue, TextureType, ValueView};
use crate::text::{chars_of, decimal, push_decimal, string_from_chars};
use crate::textmap::TextMap;

verus! {

/// The value of a material property, as a mathematical value.
pub open spec fn value_view(v: PropertyValue) -> ValueView {
    match v {
        PropertyValue::Text(t) => ValueView::Text(t@),
        PropertyValue::Bytes(b) => ValueView::Bytes(b@),
        PropertyValue::Byte(b) => ValueView::Byte(b),
    }
}

/// Whether a property is the one stored under `key` for slot `sem`,
/// index `idx`.
pub open spec fn prop_matches(p: PropView, key: Seq<char>, sem: TextureType, idx: u32) -> bool {
    p.key == key && p.semantic == sem && p.index == idx
}

/// The value of the first property stored under `key` for slot `sem`,
/// index `idx`.
pub open spec fn find_prop(ps: Seq<PropView>, key: Seq<char>, sem: TextureType, idx: u32) -> Option<ValueView>
    decreases ps.len(),
{
    if ps.len() == 0 {
        None
    } else if prop_matches(ps[0], key, sem, idx) {
        Some(ps[0].value)
    } else {
        find_prop(ps.drop_first(), key, sem, idx)
    }
}

/// The views of a property list.
pub open spec fn props_of(ps: Seq<MaterialProperty>) -> Seq<PropView> {
    Seq::new(ps.len(), |i: int| ps[i]@)
}

/// The value of the first property stored under `key` for slot `sem`,
/// index `idx`.
pub fn find_property<'a>(props: &'a Vec<MaterialProperty>, key: &str, sem: TextureType, idx: u32) -> (r: Option<&'a PropertyValue>)
    ensures
        match r {
            Some(v) => find_prop(props_of(props@), key@, sem, idx) == Some(value_view(*v)),
            None => find_prop(props_of(props@), key@, sem, idx) is None,
        },
{
    let ghost ps = props_of(props@);
    assert(ps.skip(0) =~= ps);
    let mut i: usize = 0;
    while i < props.len()
        invariant
            ps == props_of(props@),
            i <= props@.len(),
            find_prop(ps, key@, sem, idx) == find_prop(ps.skip(i as int), key@, sem, idx),
        decreases props@.len() - i,
    {
        let p = &props[i];
        assert(ps.skip(i as int)[0] == p@);
        assert(ps.skip(i as int).drop_first() =~= ps.skip(i + 1));
        if crate::text::str_eq(p.key.as_str(), key) && p.semantic == sem && p.index == idx {
            return Some(&p.value);
        }
        i = i + 1;
    }
    assert(ps.skip(i as int).len() == 0);
    None
}

/// The bytes of a value that is stored as bytes (a text value has none).
pub open spec fn binary_of(v: Option<ValueView>) -> Option<Seq<u8>> {
    match v {
        Some(ValueView::Bytes(b)) => Some(b),
        Some(ValueView::Byte(b)) => Some(seq![b]),
        _ => None,
    }
}

/// The text of a value: a text value's own text, or the text that a value
/// stored as bytes encodes in UTF-8 (none when the bytes are not UTF-8).
pub open spec fn text_of(v: Option<ValueView>) -> Option<Seq<char>> {
    match v {
        Some(ValueView::Text(t)) => Some(t),
        _ => match binary_of(v) {
            Some(b) => if vstd::utf8::valid_utf8(b) {
                Some(vstd::utf8::decode_utf8(b))
            } else {
                None
            },
            None => None,
        },
    }
}

/// Four bytes read as a little-endian `u32`.
pub open spec fn le_u32(b: Seq<u8>) -> u32 {
    (b[0] + 256 * b[1] + 65536 * b[2] + 16777216 * b[3]) as u32
}

/// The bytes of a value stored as bytes.
pub(crate) fn binary_value(v: Option<&PropertyValue>) -> (r: Option<Vec<u8>>)
    ensures
        match r {
            Some(b) => binary_of(match v {
                Some(x) => Some(value_view(*x)),
                None => None,
            }) == Some(b@),
            None => binary_of(match v {
                Some(x) => Some(value_view(*x)),
                None => None,
            }) is None,
        },
{
    match v {
        Some(PropertyValue::Bytes(b)) => Some(b.clone()),
        Some(PropertyValue::Byte(b)) => {
            let mut r: Vec<u8> = Vec::new();
            r.push(*b);
            assert(r@ =~= seq![*b]);
            Some(r)
        },
        _ => None,
    }
}

/// Four bytes read as a little-endian `u32`.
fn read_le_u32(b: &Vec<u8>) -> (r: u32)
    requires
        b@.len() == 4,
    ensures
        r == le_u32(b@),
{
    let v: u64 = b[0] as u64 + 256 * (b[1] as u64) + 65536 * (b[2] as u64) + 16777216 * (b[3] as u64);
    assert(v < 0x1_0000_0000);
    v as u32
}

/// The texture coordinate set of a texture slot: the little-endian `u32`
/// stored under `$tex.uvwsrc` as four bytes, else 0.
pub open spec fn tex_coord_spec(ps: Seq<PropView>, sem: TextureType, idx: u32) -> u32 {
    match binary_of(find_prop(ps, seq!['$', 't', 'e', 'x', '.', 'u', 'v', 'w', 's', 'r', 'c'], sem, idx)) {
        Some(b) => if b.len() == 4 { le_u32(b) } else { 0 },
        None => 0,
    }
}

/// The texture coordinate set of a texture slot.
pub fn texture_coordinate(props: &Vec<MaterialProperty>, sem: TextureType, idx: u32) -> (r: u32)
    ensures
        r == tex_coord_spec(props_of(props@), sem, idx),
{
    let key = "$tex.uvwsrc";
    proof {
        reveal_strlit("$tex.uvwsrc");
    }
    assert(key@ =~= seq!['$', 't', 'e', 'x', '.', 'u', 'v', 'w', 's', 'r', 'c']);
    match binary_value(find_property(props, key, sem, idx)) {
        Some(b) => if b.len() == 4 { read_le_u32(&b) } else { 0 },
        None => 0,
    }
}

/// The file name of a texture slot: the text stored under `$tex.file`.
pub open spec fn texture_file_spec(ps: Seq<PropView>, sem: TextureType, idx: u32) -> Option<Seq<char>> {
    text_of(find_prop(ps, seq!['$', 't', 'e', 'x', '.', 'f', 'i', 'l', 'e'], sem, idx))
}

/// The file name of a texture slot.
pub fn texture_file(props: &Vec<MaterialProperty>, sem: TextureType, idx: u32) -> (r: Option<String>)
    ensures
        match r {
            Some(s) => texture_file_spec(props_of(props@), sem, idx) == Some(s@),
            None => texture_file_spec(props_of(props@), sem, idx) is None,
        },
{
    let key = "$tex.file";
    proof {
        reveal_strlit("$tex.file");
    }
    assert(key@ =~= seq!['$', 't', 'e', 'x', '.', 'f', 'i', 'l', 'e']);
    text_value(find_property(props, key, sem, idx))
}

/// A texture of the scene, as the material exporter reads it: its file
/// name, the MIME type and file extension of its format hint, and the MIME
/// type and bytes it is written with into a binary document.
pub struct SceneTexture {
    pub filename: String,
    pub hint_mime: String,
    pub hint_extension: String,
    pub export_mime: String,
    pub export_bytes: Vec<u8>,
}

/// A magnification or minification filter.
#[derive(Clone, Copy, Debug, PartialEq, Eq, Structural)]
pub enum Filter {
    Nearest,
    Linear,
}

/// A wrapping mode.
#[derive(Clone, Copy, Debug, PartialEq, Eq, Structural)]
pub enum Wrap {
    ClampToEdge,
    MirroredRepeat,
    Repeat,
}

/// An exported image: the buffer view holding it (binary documents), its
/// MIME type, its name and its URI (other documents).
pub struct ExportImage {
    pub buffer_view: Option<usize>,
    pub mime: String,
    pub name: String,
    pub uri: Option<String>,
}

/// An exported buffer view: where its bytes start in the body buffer, how
/// many there are, and its name.
pub struct ExportView {
    pub offset: usize,
    pub length: usize,
    pub name: String,
}

/// An exported sampler.
pub struct ExportSampler {
    pub name: Option<String>,
    pub mag_filter: Option<Filter>,
    pub min_filter: Option<Filter>,
    pub wrap_s: Wrap,
    pub wrap_t: Wrap,
}

/// An exported texture: its name, its sampler and its image.
pub struct ExportTexture {
    pub name: String,
    pub sampler: Option<usize>,
    pub source: usize,
}

/// A reference from a material to an exported texture.
#[derive(Clone, Copy, Debug, PartialEq, Eq, Structural)]
pub struct TextureInfo {
    pub index: usize,
    pub tex_coord: u32,
}

/// An exported image, as a value.
pub struct ImageView {
    pub buffer_view: Option<usize>,
    pub mime: Seq<char>,
    pub name: Seq<char>,
    pub uri: Option<Seq<char>>,
}

/// An exported buffer view, as a value.
pub struct BufferViewView {
    pub offset: usize,
    pub length: usize,
    pub name: Seq<char>,
}

/// An exported sampler, as a value.
pub struct SamplerView {
    pub name: Option<Seq<char>>,
    pub mag_filter: Option<Filter>,
    pub min_filter: Option<Filter>,
    pub wrap_s: Wrap,
    pub wrap_t: Wrap,
}

/// An exported texture, as a value.
pub struct TextureView {
    pub name: Seq<char>,
    pub sampler: Option<usize>,
    pub source: usize,
}

pub open spec fn opt_text(o: Option<String>) -> Option<Seq<char>> {
    match o {
        Some(s) => Some(s@),
        None => None,
    }
}

pub open spec fn image_view(i: ExportImage) -> ImageView {
    ImageView { buffer_view: i.buffer_view, mime: i.mime@, name: i.name@, uri: opt_text(i.uri) }
}

pub open spec fn buffer_view_view(v: ExportView) -> BufferViewView {
    BufferViewView { offset: v.offset, length: v.length, name: v.name@ }
}

pub open spec fn sampler_view(s: ExportSampler) -> SamplerView {
    SamplerView { name: opt_text(s.name), mag_filter: s.mag_filter, min_filter: s.min_filter, wrap_s: s.wrap_s, wrap_t: s.wrap_t }
}

pub open spec fn texture_view(t: ExportTexture) -> TextureView {
    TextureView { name: t.name@, sampler: t.sampler, source: t.source }
}

/// The part of a glTF document that exporting material textures builds:
/// images, buffer views, samplers and textures, the body buffer, the names
/// handed out, and the texture exported for each texture file name.
pub struct MaterialExport {
    pub images: Vec<ExportImage>,
    pub views: Vec<ExportView>,
    pub samplers: Vec<ExportSampler>,
    pub textures: Vec<ExportTexture>,
    pub buffer: Vec<u8>,
    pub names: UniqueNames,
    pub texture_ids: TextMap<usize>,
}

/// What exporting material textures has built, as a value.
pub struct ExportState {
    pub images: Seq<ImageView>,
    pub views: Seq<BufferViewView>,
    pub samplers: Seq<SamplerView>,
    pub textures: Seq<TextureView>,
    pub buffer: Seq<u8>,
    pub name_keys: Seq<Seq<char>>,
    pub name_counters: Seq<u32>,
    pub texture_ids: Map<Seq<char>, usize>,
}

impl MaterialExport {
    /// What has been built, as a value.
    pub open spec fn state(&self) -> ExportState {
        ExportState {
            images: self.images@.map_values(|i: ExportImage| image_view(i)),
            views: self.views@.map_values(|v: ExportView| buffer_view_view(v)),
            samplers: self.samplers@.map_values(|s: ExportSampler| sampler_view(s)),
            textures: self.textures@.map_values(|t: ExportTexture| texture_view(t)),
            buffer: self.buffer@,
            name_keys: self.names.key_seq(),
            name_counters: self.names.counter_seq(),
            texture_ids: self.texture_ids.as_map(),
        }
    }

    /// The name table and the texture map are well formed.
    pub open spec fn wf(&self) -> bool {
        self.names.wf() && self.texture_ids.wf()
    }

    /// Room for `k` more names.
    pub open spec fn name_room(&self, k: nat) -> bool {
        self.names.key_seq().len() + self.names.calls() + k < u32::MAX
    }

    /// Nothing built yet, with the given name table.
    pub fn new(names: UniqueNames) -> (r: MaterialExport)
        requires
            names.wf(),
        ensures
            r.wf(),
            r.names == names,
            r.state().images.len() == 0,
            r.state().views.len() == 0,
            r.state().samplers.len() == 0,
            r.state().textures.len() == 0,
            r.state().buffer.len() == 0,
            r.state().texture_ids == Map::<Seq<char>, usize>::empty(),
    {
        MaterialExport {
            images: Vec::new(),
            views: Vec::new(),
            samplers: Vec::new(),
            textures: Vec::new(),
            buffer: Vec::new(),
            names,
            texture_ids: TextMap::new(),
        }
    }
}

/// Whether `s` ends with `suffix`.
pub open spec fn ends_with(s: Seq<char>, suffix: Seq<char>) -> bool {
    suffix.len() <= s.len() && s.skip(s.len() - suffix.len()) == suffix
}

fn ends_with_chars(s: &Vec<char>, suffix: &Vec<char>) -> (r: bool)
    ensures
        r == ends_with(s@, suffix@),
{
    if suffix.len() > s.len() {
        return false;
    }
    let sl = s.len();
    let off = sl - suffix.len();
    let mut i: usize = 0;
    while i < suffix.len()
        invariant
            sl == s@.len(),
            off + suffix@.len() == sl,
            i <= suffix@.len(),
            forall|j: int| 0 <= j < i ==> s@[off + j] == suffix@[j],
        decreases suffix@.len() - i,
    {
        if s[off + i] != suffix[i] {
            assert(s@.skip(off as int)[i as int] != suffix@[i as int]);
            return false;
        }
        i = i + 1;
    }
    assert(s@.skip(off as int) =~= suffix@);
    true
}

/// The first scene texture whose file name ends the given texture name
/// (texture names have the form `*name`).
pub open spec fn scene_texture_index(ts: Seq<SceneTexture>, name: Seq<char>) -> Option<int> {
    if exists|k: int| 0 <= k < ts.len() && ends_with(name, (#[trigger] ts[k]).filename@) {
        Some(choose|k: int| 0 <= k < ts.len() && ends_with(name, (#[trigger] ts[k]).filename@)
            && forall|j: int| 0 <= j < k ==> !ends_with(name, (#[trigger] ts[j]).filename@))
    } else {
        None
    }
}

/// The first scene texture whose file name ends the given texture name.
pub fn find_scene_texture(textures: &Vec<SceneTexture>, name: &String) -> (r: Option<usize>)
    ensures
        match r {
            Some(k) => scene_texture_index(textures@, name@) == Some(k as int) && k < textures@.len(),
            None => scene_texture_index(textures@, name@) is None,
        },
{
    let n = chars_of(name.as_str());
    let mut k: usize = 0;
    while k < textures.len()
        invariant
            n@ == name@,
            k <= textures@.len(),
            forall|j: int| 0 <= j < k ==> !ends_with(name@, (#[trigger] textures@[j]).filename@),
        decreases textures@.len() - k,
    {
        let f = chars_of(textures[k].filename.as_str());
        if ends_with_chars(&n, &f) {
            proof {
                let c = choose|c: int| 0 <= c < textures@.len() && ends_with(name@, (#[trigger] textures@[c]).filename@)
                    && forall|j: int| 0 <= j < c ==> !ends_with(name@, (#[trigger] textures@[j]).filename@);
                if c < k {
                } else if c > k {
                    assert(!ends_with(name@, textures@[k as int].filename@));
                }
            }
            return Some(k);
        }
        k = k + 1;
    }
    None
}

pub open spec fn key_mapping_id() -> Seq<char> {
    "$tex.mappingid"@
}

pub open spec fn key_mapping_name() -> Seq<char> {
    "$tex.mappingname"@
}

pub open spec fn key_filter_mag() -> Seq<char> {
    "$tex.mappingfiltermag"@
}

pub open spec fn key_filter_min() -> Seq<char> {
    "$tex.mappingfiltermin"@
}

pub open spec fn key_map_mode_u() -> Seq<char> {
    "$tex.mapmodeu"@
}

pub open spec fn key_map_mode_v() -> Seq<char> {
    "$tex.mapmodev"@
}

/// A filter stored as one byte: 2 is linear, 1 nearest.
pub open spec fn filter_of(b: Option<Seq<u8>>) -> Option<Filter> {
    match b {
        Some(b) => if b.len() == 1 && b[0] == 2 {
            Some(Filter::Linear)
        } else if b.len() == 1 && b[0] == 1 {
            Some(Filter::Nearest)
        } else {
            None
        },
        None => None,
    }
}

/// A wrapping mode stored as one byte: 1 clamps, 2 mirrors, 3 repeats;
/// anything else clamps.
pub open spec fn wrap_of(b: Option<Seq<u8>>) -> Wrap {
    match b {
        Some(b) => if b.len() == 1 && b[0] == 2 {
            Wrap::MirroredRepeat
        } else if b.len() == 1 && b[0] == 3 {
            Wrap::Repeat
        } else {
            Wrap::ClampToEdge
        },
        None => Wrap::ClampToEdge,
    }
}

/// The sampler that a texture slot asks for when none is found: its name,
/// filters and wrapping modes as stored for index 0 of the slot.
pub open spec fn new_sampler(ps: Seq<PropView>, sem: TextureType) -> SamplerView {
    SamplerView {
        name: text_of(find_prop(ps, key_mapping_name(), sem, 0)),
        mag_filter: filter_of(binary_of(find_prop(ps, key_filter_mag(), sem, 0))),
        min_filter: filter_of(binary_of(find_prop(ps, key_filter_min(), sem, 0))),
        wrap_s: wrap_of(binary_of(find_prop(ps, key_map_mode_u(), sem, 0))),
        wrap_t: wrap_of(binary_of(find_prop(ps, key_map_mode_v(), sem, 0))),
    }
}

/// The sampler name a texture slot refers to: the decimal form of the
/// little-endian `u32` stored under `$tex.mappingid` as four bytes.
pub open spec fn mapping_id(ps: Seq<PropView>, sem: TextureType, idx: u32) -> Option<Seq<char>> {
    match binary_of(find_prop(ps, key_mapping_id(), sem, idx)) {
        Some(b) => if b.len() == 4 { Some(decimal(le_u32(b) as nat)) } else { None },
        None => None,
    }
}

/// The first sampler with the given name.
pub open spec fn sampler_index(ss: Seq<SamplerView>, name: Seq<char>) -> Option<int> {
    if exists|k: int| 0 <= k < ss.len() && (#[trigger] ss[k]).name == Some(name) {
        Some(choose|k: int| 0 <= k < ss.len() && (#[trigger] ss[k]).name == Some(name)
            && forall|j: int| 0 <= j < k ==> (#[trigger] ss[j]).name != Some(name))
    } else {
        None
    }
}

/// The sampler of a texture slot, with the samplers after it is found or
/// added: none without a mapping id; else the first sampler named by the
/// mapping id, or a new sampler at the end.
pub open spec fn sampler_spec(ss: Seq<SamplerView>, ps: Seq<PropView>, sem: TextureType, idx: u32)
    -> (Option<usize>, Seq<SamplerView>)
{
    match mapping_id(ps, sem, idx) {
        None => (None, ss),
        Some(id) => match sampler_index(ss, id) {
            Some(k) => (Some(k as usize), ss),
            None => (Some(ss.len() as usize), ss.push(new_sampler(ps, sem))),
        },
    }
}

fn opt_bytes(v: Option<&PropertyValue>) -> (r: Option<Vec<u8>>)
    ensures
        opt_seq(r) == binary_of(match v {
            Some(x) => Some(value_view(*x)),
            None => None,
        }),
{
    binary_value(v)
}

pub open spec fn opt_seq(o: Option<Vec<u8>>) -> Option<Seq<u8>> {
    match o {
        Some(v) => Some(v@),
        None => None,
    }
}

fn filter_value(b: Option<Vec<u8>>) -> (r: Option<Filter>)
    ensures
        r == filter_of(opt_seq(b)),
{
    match b {
        Some(b) => if b.len() == 1 && b[0] == 2 {
            Some(Filter::Linear)
        } else if b.len() == 1 && b[0] == 1 {
            Some(Filter::Nearest)
        } else {
            None
        },
        None => None,
    }
}

fn wrap_value(b: Option<Vec<u8>>) -> (r: Wrap)
    ensures
        r == wrap_of(opt_seq(b)),
{
    match b {
        Some(b) => if b.len() == 1 && b[0] == 2 {
            Wrap::MirroredRepeat
        } else if b.len() == 1 && b[0] == 3 {
            Wrap::Repeat
        } else {
            Wrap::ClampToEdge
        },
        None => Wrap::ClampToEdge,
    }
}

pub(crate) fn text_value(v: Option<&PropertyValue>) -> (r: Option<String>)
    ensures
        opt_text(r) == text_of(match v {
            Some(x) => Some(value_view(*x)),
            None => None,
        }),
{
    match v {
        Some(PropertyValue::Text(t)) => Some(t.clone()),
        _ => match binary_value(v) {
            Some(b) => crate::text::utf8_text(b),
            None => None,
        },
    }
}

/// The sampler of a texture slot, found among the samplers or added.
pub fn sampler_for(samplers: &mut Vec<ExportSampler>, props: &Vec<MaterialProperty>, sem: TextureType, idx: u32) -> (r: Option<usize>)
    ensures
        (r, final(samplers)@.map_values(|s: ExportSampler| sampler_view(s)))
            == sampler_spec(old(samplers)@.map_values(|s: ExportSampler| sampler_view(s)), props_of(props@), sem, idx),
{
    let ghost ss = samplers@.map_values(|s: ExportSampler| sampler_view(s));
    let ghost ps = props_of(props@);
    let id_bytes = opt_bytes(find_property(props, "$tex.mappingid", sem, idx));
    let id = match id_bytes {
        Some(b) => if b.len() == 4 {
            let mut v: Vec<char> = Vec::new();
            push_decimal(&mut v, read_le_u32(&b) as usize);
            assert(v@ =~= decimal(le_u32(b@) as nat));
            v
        } else {
            return None;
        },
        None => {
            return None;
        },
    };
    assert(mapping_id(ps, sem, idx) == Some(id@));
    let mut k: usize = 0;
    while k < samplers.len()
        invariant
            ss == samplers@.map_values(|s: ExportSampler| sampler_view(s)),
            ss == old(samplers)@.map_values(|s: ExportSampler| sampler_view(s)),
            ps == props_of(props@),
            mapping_id(ps, sem, idx) == Some(id@),
            k <= samplers@.len(),
            forall|j: int| 0 <= j < k ==> (#[trigger] ss[j]).name != Some(id@),
        decreases samplers@.len() - k,
    {
        let same = match &samplers[k].name {
            Some(nm) => {
                let c = chars_of(nm.as_str());
                crate::text::chars_eq(&c, &id)
            },
            None => false,
        };
        assert(ss[k as int] == sampler_view(samplers@[k as int]));
        if same {
            proof {
                assert(ss[k as int].name == Some(id@));
                let c = choose|c: int| 0 <= c < ss.len() && (#[trigger] ss[c]).name == Some(id@)
                    && forall|j: int| 0 <= j < c ==> (#[trigger] ss[j]).name != Some(id@);
                if c > k {
                    assert(ss[k as int].name != Some(id@));
                }
                if c < k {
                    assert(ss[c].name != Some(id@));
                }
            }
            return Some(k);
        }
        k = k + 1;
    }
    let n = samplers.len();
    let sampler = ExportSampler {
        name: text_value(find_property(props, "$tex.mappingname", sem, 0)),
        mag_filter: filter_value(opt_bytes(find_property(props, "$tex.mappingfiltermag", sem, 0))),
        min_filter: filter_value(opt_bytes(find_property(props, "$tex.mappingfiltermin", sem, 0))),
        wrap_s: wrap_value(opt_bytes(find_property(props, "$tex.mapmodeu", sem, 0))),
        wrap_t: wrap_value(opt_bytes(find_property(props, "$tex.mapmodev", sem, 0))),
    };
    assert(sampler_view(sampler) == new_sampler(ps, sem));
    samplers.push(sampler);
    assert(samplers@.map_values(|s: ExportSampler| sampler_view(s)) =~= ss.push(new_sampler(ps, sem)));
    Some(n)
}

/// The state after the image of scene texture `t` is exported: into a
/// binary document its bytes go to the end of the body buffer, behind a
/// new buffer view named by `imgdata`, and the image refers to that view;
/// otherwise the image refers to the file `filename.extension`.
pub open spec fn image_spec(st: ExportState, t: SceneTexture, binary: bool) -> ExportState {
    if binary {
        let named = unique_name_spec(st.name_keys, st.name_counters, "imgdata"@);
        ExportState {
            images: st.images.push(ImageView {
                buffer_view: Some(st.views.len() as usize),
                mime: t.export_mime@,
                name: t.filename@,
                uri: None,
            }),
            views: st.views.push(BufferViewView {
                offset: st.buffer.len() as usize,
                length: t.export_bytes@.len() as usize,
                name: named.0,
            }),
            samplers: st.samplers,
            textures: st.textures,
            buffer: st.buffer + t.export_bytes@,
            name_keys: named.1,
            name_counters: named.2,
            texture_ids: st.texture_ids,
        }
    } else {
        ExportState {
            images: st.images.push(ImageView {
                buffer_view: None,
                mime: t.hint_mime@,
                name: t.filename@,
                uri: Some(t.filename@ + seq!['.'] + t.hint_extension@),
            }),
            views: st.views,
            samplers: st.samplers,
            textures: st.textures,
            buffer: st.buffer,
            name_keys: st.name_keys,
            name_counters: st.name_counters,
            texture_ids: st.texture_ids,
        }
    }
}

/// What exporting the texture of a material slot gives and leaves: none
/// when the slot names no texture file or no scene texture matches it;
/// the texture exported before under that file name; else a new image,
/// sampler (if asked for and new) and texture, recorded under the name.
#[verifier::opaque]
pub open spec fn material_texture_spec(
    st: ExportState,
    ts: Seq<SceneTexture>,
    ps: Seq<PropView>,
    sem: TextureType,
    idx: u32,
    binary: bool,
) -> (Option<TextureInfo>, ExportState) {
    let tc = tex_coord_spec(ps, sem, idx);
    match texture_file_spec(ps, sem, idx) {
        None => (None, st),
        Some(name) => if st.texture_ids.dom().contains(name) {
            (Some(TextureInfo { index: st.texture_ids[name], tex_coord: tc }), st)
        } else {
            match scene_texture_index(ts, name) {
                None => (None, st),
                Some(k) => {
                    let st1 = image_spec(st, ts[k], binary);
                    let smp = sampler_spec(st1.samplers, ps, sem, idx);
                    let ti = st.textures.len() as usize;
                    (
                        Some(TextureInfo { index: ti, tex_coord: tc }),
                        ExportState {
                            images: st1.images,
                            views: st1.views,
                            samplers: smp.1,
                            textures: st1.textures.push(TextureView {
                                name: ts[k].filename@,
                                sampler: smp.0,
                                source: st.images.len() as usize,
                            }),
                            buffer: st1.buffer,
                            name_keys: st1.name_keys,
                            name_counters: st1.name_counters,
                            texture_ids: st1.texture_ids.insert(name, ti),
                        },
                    )
                },
            }
        },
    }
}

fn copy_string(s: &String) -> (r: String)
    ensures
        r@ == s@,
{
    s.clone()
}

/// Exports the image of a scene texture.
pub fn export_image(st: &mut MaterialExport, t: &SceneTexture, binary: bool)
    requires
        old(st).wf(),
        old(st).name_room(1),
    ensures
        final(st).wf(),
        final(st).names.calls() <= old(st).names.calls() + 1,
        final(st).names.key_seq().len() <= old(st).names.key_seq().len() + 1,
        final(st).state() == image_spec(old(st).state(), *t, binary),
{
    let ghost s0 = st.state();
    if binary {
        let offset = st.buffer.len();
        let mut bytes = t.export_bytes.clone();
        let length = bytes.len();
        st.buffer.append(&mut bytes);
        proof { st.names.lemma_counters_have_room(); }
        let name = generate_unique_name("imgdata", &mut st.names);
        let view_index = st.views.len();
        st.views.push(ExportView { offset, length, name });
        st.images.push(ExportImage {
            buffer_view: Some(view_index),
            mime: copy_string(&t.export_mime),
            name: copy_string(&t.filename),
            uri: None,
        });
        assert(st.state().images =~= image_spec(s0, *t, binary).images);
        assert(st.state().views =~= image_spec(s0, *t, binary).views);
    } else {
        let mut uri = chars_of(t.filename.as_str());
        uri.push('.');
        let ext = chars_of(t.hint_extension.as_str());
        let mut i: usize = 0;
        while i < ext.len()
            invariant
                i <= ext@.len(),
                uri@ == t.filename@ + seq!['.'] + ext@.take(i as int),
            decreases ext@.len() - i,
        {
            uri.push(ext[i]);
            assert(ext@.take(i + 1) =~= ext@.take(i as int).push(ext@[i as int]));
            i = i + 1;
        }
        assert(ext@.take(ext@.len() as int) =~= ext@);
        st.images.push(ExportImage {
            buffer_view: None,
            mime: copy_string(&t.hint_mime),
            name: copy_string(&t.filename),
            uri: Some(string_from_chars(&uri)),
        });
        assert(st.state().images =~= image_spec(s0, *t, binary).images);
    }
}

/// Exports the texture of a material slot (texture type `sem`, index
/// `idx`): the texture exported before under the slot's file name, or a
/// new image, sampler and texture for the first scene texture whose file
/// name ends it. None when the slot names no texture file or no scene
/// texture matches.
pub fn get_material_texture(
    st: &mut MaterialExport,
    scene_textures: &Vec<SceneTexture>,
    props: &Vec<MaterialProperty>,
    sem: TextureType,
    idx: u32,
    binary: bool,
) -> (r: Option<TextureInfo>)
    requires
        old(st).wf(),
        old(st).name_room(1),
    ensures
        final(st).wf(),
        final(st).names.calls() <= old(st).names.calls() + 1,
        final(st).names.key_seq().len() <= old(st).names.key_seq().len() + 1,
        (r, final(st).state()) == material_texture_spec(old(st).state(), scene_textures@, props_of(props@), sem, idx, binary),
{
    reveal(material_texture_spec);
    let ghost s0 = st.state();
    let tex_coord = texture_coordinate(props, sem, idx);
    let name = match texture_file(props, sem, idx) {
        Some(n) => n,
        None => {
            return None;
        },
    };
    match st.texture_ids.get(name.as_str()) {
        Some(i) => {
            return Some(TextureInfo { index: *i, tex_coord });
        },
        None => {},
    }
    let k = match find_scene_texture(scene_textures, &name) {
        Some(k) => k,
        None => {
            return None;
        },
    };
    let t = &scene_textures[k];
    export_image(st, t, binary);
    let ghost s1 = st.state();
    assert(s1 == image_spec(s0, scene_textures@[k as int], binary));
    assert(st.images@.len() == s1.images.len());
    assert(s1.images.len() == s0.images.len() + 1);
    let sampler = sampler_for(&mut st.samplers, props, sem, idx);
    let ghost smp = sampler_spec(s1.samplers, props_of(props@), sem, idx);
    assert(sampler == smp.0);
    let source = st.images.len() - 1;
    let index = st.textures.len();
    assert(s0.textures.len() == index);
    let tex = ExportTexture { name: copy_string(&t.filename), sampler, source };
    assert(texture_view(tex) == TextureView { name: scene_textures@[k as int].filename@, sampler: smp.0, source: s0.images.len() as usize });
    st.textures.push(tex);
    st.texture_ids.insert(name, index);
    assert(st.state().textures =~= s1.textures.push(texture_view(tex)));
    Some(TextureInfo { index, tex_coord })
}

/// A texture file name is exported once: asking again for a slot that
/// gave a texture gives the same texture and changes nothing.
pub proof fn lemma_texture_found_again(
    st: ExportState,
    ts: Seq<SceneTexture>,
    ps: Seq<PropView>,
    sem: TextureType,
    idx: u32,
    binary: bool,
)
    requires
        material_texture_spec(st, ts, ps, sem, idx, binary).0 is Some,
    ensures
        ({
            let first = material_texture_spec(st, ts, ps, sem, idx, binary);
            material_texture_spec(first.1, ts, ps, sem, idx, binary) == first
        }),
{
    reveal(material_texture_spec);
}

/// The texture references of an exported material, with the stored bytes
/// of the normal map's scale and the occlusion map's strength (four
/// little-endian bytes of a float, when stored that way).
pub struct MaterialTextures {
    pub base_color: Option<TextureInfo>,
    pub metallic_roughness: Option<TextureInfo>,
    pub normal: Option<TextureInfo>,
    pub normal_scale: Option<Vec<u8>>,
    pub occlusion: Option<TextureInfo>,
    pub occlusion_strength: Option<Vec<u8>>,
    pub emissive: Option<TextureInfo>,
}

/// The first of two texture references that is present.
pub open spec fn or_else(a: Option<TextureInfo>, b: Option<TextureInfo>) -> Option<TextureInfo> {
    match a {
        Some(x) => Some(x),
        None => b,
    }
}

/// Four stored bytes of a float property, when it is stored as four bytes.
pub open spec fn four_bytes(v: Option<ValueView>) -> Option<Seq<u8>> {
    match binary_of(v) {
        Some(b) => if b.len() == 4 { Some(b) } else { None },
        None => None,
    }
}

/// The texture references of a material and the state after them, in the
/// order the exporter asks for them: base colour (base colour slot, else
/// diffuse), metallic-roughness (diffuse-roughness, else metalness, else
/// unknown), then normal, occlusion and emissive, all three from the
/// normals slot. Every slot is asked for, even when an earlier one gave
/// a texture.
pub open spec fn material_textures_spec(st: ExportState, ts: Seq<SceneTexture>, ps: Seq<PropView>, binary: bool)
    -> (Seq<Option<TextureInfo>>, ExportState)
{
    let a = material_texture_spec(st, ts, ps, TextureType::BaseColor, 0, binary);
    let b = material_texture_spec(a.1, ts, ps, TextureType::Diffuse, 0, binary);
    let c = material_texture_spec(b.1, ts, ps, TextureType::DiffuseRoughness, 0, binary);
    let d = material_texture_spec(c.1, ts, ps, TextureType::Metalness, 0, binary);
    let e = material_texture_spec(d.1, ts, ps, TextureType::Unknown, 0, binary);
    let f = material_texture_spec(e.1, ts, ps, TextureType::Normals, 0, binary);
    let g = material_texture_spec(f.1, ts, ps, TextureType::Normals, 0, binary);
    let h = material_texture_spec(g.1, ts, ps, TextureType::Normals, 0, binary);
    (seq![or_else(a.0, b.0), or_else(c.0, or_else(d.0, e.0)), f.0, g.0, h.0], h.1)
}

fn first_of(a: Option<TextureInfo>, b: Option<TextureInfo>) -> (r: Option<TextureInfo>)
    ensures
        r == or_else(a, b),
{
    match a {
        Some(x) => Some(x),
        None => b,
    }
}

fn four_bytes_value(v: Option<&PropertyValue>) -> (r: Option<Vec<u8>>)
    ensures
        opt_seq(r) == four_bytes(match v {
            Some(x) => Some(value_view(*x)),
            None => None,
        }),
{
    match binary_value(v) {
        Some(b) => if b.len() == 4 { Some(b) } else { None },
        None => None,
    }
}

/// Exports the textures of a material (see `material_textures_spec`),
/// with the normal scale and occlusion strength bytes when those maps are
/// present.
pub fn export_material_textures(
    st: &mut MaterialExport,
    scene_textures: &Vec<SceneTexture>,
    props: &Vec<MaterialProperty>,
    binary: bool,
) -> (r: MaterialTextures)
    requires
        old(st).wf(),
        old(st).name_room(16),
    ensures
        final(st).wf(),
        final(st).names.calls() <= old(st).names.calls() + 8,
        final(st).names.key_seq().len() <= old(st).names.key_seq().len() + 8,
        ({
            let m = material_textures_spec(old(st).state(), scene_textures@, props_of(props@), binary);
            &&& final(st).state() == m.1
            &&& r.base_color == m.0[0]
            &&& r.metallic_roughness == m.0[1]
            &&& r.normal == m.0[2]
            &&& r.occlusion == m.0[3]
            &&& r.emissive == m.0[4]
        }),
        opt_seq(r.normal_scale) == if r.normal is Some {
            four_bytes(find_prop(props_of(props@), "$tex.scale"@, TextureType::Normals, 0))
        } else {
            None
        },
        opt_seq(r.occlusion_strength) == if r.occlusion is Some {
            four_bytes(find_prop(props_of(props@), "$tex.file.strength"@, TextureType::Normals, 0))
        } else {
            None
        },
{
    let a = get_material_texture(st, scene_textures, props, TextureType::BaseColor, 0, binary);
    let b = get_material_texture(st, scene_textures, props, TextureType::Diffuse, 0, binary);
    let c = get_material_texture(st, scene_textures, props, TextureType::DiffuseRoughness, 0, binary);
    let d = get_material_texture(st, scene_textures, props, TextureType::Metalness, 0, binary);
    let e = get_material_texture(st, scene_textures, props, TextureType::Unknown, 0, binary);
    let f = get_material_texture(st, scene_textures, props, TextureType::Normals, 0, binary);
    let g = get_material_texture(st, scene_textures, props, TextureType::Normals, 0, binary);
    let h = get_material_texture(st, scene_textures, props, TextureType::Normals, 0, binary);
    let normal_scale = if f.is_some() {
        four_bytes_value(find_property(props, "$tex.scale", TextureType::Normals, 0))
    } else {
        None
    };
    let occlusion_strength = if g.is_some() {
        four_bytes_value(find_property(props, "$tex.file.strength", TextureType::Normals, 0))
    } else {
        None
    };
    MaterialTextures {
        base_color: first_of(a, b),
        metallic_roughness: first_of(c, first_of(d, e)),
        normal: f,
        normal_scale,
        occlusion: g,
        occlusion_strength,
        emissive: h,
    }
}

/// The name a material is exported under is asked for as the text stored
/// under `?mat.name`, else as `material`.
pub open spec fn material_base_name(ps: Seq<PropView>) -> Seq<char> {
    match text_of(find_prop(ps, "?mat.name"@, TextureType::NoTexture, 0)) {
        Some(t) => t,
        None => "material"@,
    }
}

/// Whether a material's name can be read: it has no name property, or the
/// one it has holds text (bytes that are valid UTF-8).
pub open spec fn material_name_readable(ps: Seq<PropView>) -> bool {
    let v = find_prop(ps, "?mat.name"@, TextureType::NoTexture, 0);
    v is None || text_of(v) is Some
}

/// Why a material cannot be exported under a name.
#[derive(Clone, Copy, Debug, PartialEq, Eq, Structural)]
pub enum MaterialNameError {
    /// The stored name is not UTF-8.
    NotUtf8,
}

/// The unique name a material is exported under, or an error when its
/// stored name is not UTF-8 (the names are then left as they were).
pub fn material_name(props: &Vec<MaterialProperty>, names: &mut UniqueNames) -> (r: Result<String, MaterialNameError>)
    requires
        old(names).wf(),
        old(names).key_seq().len() + old(names).calls() < u32::MAX,
    ensures
        final(names).wf(),
        r is Ok <==> material_name_readable(props_of(props@)),
        match r {
            Ok(s) => {
                &&& final(names).calls() == old(names).calls() + 1
                &&& final(names).key_seq().len() <= old(names).key_seq().len() + 1
                &&& (s@, final(names).key_seq(), final(names).counter_seq())
                    == unique_name_spec(old(names).key_seq(), old(names).counter_seq(), material_base_name(props_of(props@)))
            },
            Err(_) => *final(names) == *old(names),
        },
{
    let v = find_property(props, "?mat.name", TextureType::NoTexture, 0);
    match v {
        None => {
            proof { names.lemma_counters_have_room(); }
            Ok(generate_unique_name("material", names))
        },
        Some(_) => match text_value(v) {
            Some(t) => {
                proof { names.lemma_counters_have_room(); }
                Ok(generate_unique_name(t.as_str(), names))
            },
            None => Err(MaterialNameError::NotUtf8),
        },
    }
}

/// How an exported material's alpha is used.
#[derive(Clone, Copy, Debug, PartialEq, Eq, Structural)]
pub enum AlphaMode {
    Opaque,
    Mask,
    Blend,
}

/// The alpha mode of an exported material: the mode named by the text
/// stored under `$mat.gltf.alphaCutoff` (`OPAQUE`, `BLEND` or `MASK`);
/// otherwise blending when an opacity is stored as four bytes under
/// `$mat.opacity`, else opaque.
pub open spec fn alpha_mode_spec(ps: Seq<PropView>) -> AlphaMode {
    let named = text_of(find_prop(ps, "$mat.gltf.alphaCutoff"@, TextureType::NoTexture, 0));
    if named == Some("OPAQUE"@) {
        AlphaMode::Opaque
    } else if named == Some("BLEND"@) {
        AlphaMode::Blend
    } else if named == Some("MASK"@) {
        AlphaMode::Mask
    } else if four_bytes(find_prop(ps, "$mat.opacity"@, TextureType::NoTexture, 0)) is Some {
        AlphaMode::Blend
    } else {
        AlphaMode::Opaque
    }
}

/// The alpha mode of an exported material.
pub fn alpha_mode(props: &Vec<MaterialProperty>) -> (r: AlphaMode)
    ensures
        r == alpha_mode_spec(props_of(props@)),
{
    let fallback = match four_bytes_value(find_property(props, "$mat.opacity", TextureType::NoTexture, 0)) {
        Some(_) => AlphaMode::Blend,
        None => AlphaMode::Opaque,
    };
    match text_value(find_property(props, "$mat.gltf.alphaCutoff", TextureType::NoTexture, 0)) {
        Some(t) => {
            if crate::text::str_eq(t.as_str(), "OPAQUE") {
                AlphaMode::Opaque
            } else if crate::text::str_eq(t.as_str(), "BLEND") {
                AlphaMode::Blend
            } else if crate::text::str_eq(t.as_str(), "MASK") {
                AlphaMode::Mask
            } else {
                fallback
            }
        },
        None => fallback,
    }
}

/// Whether an exported material is double sided: one byte 1 stored under
/// `$mat.twosided`.
pub open spec fn double_sided_spec(ps: Seq<PropView>) -> bool {
    match binary_of(find_prop(ps, "$mat.twosided"@, TextureType::NoTexture, 0)) {
        Some(b) => b.len() == 1 && b[0] == 1,
        None => false,
    }
}

/// Whether an exported material is double sided.
pub fn double_sided(props: &Vec<MaterialProperty>) -> (r: bool)
    ensures
        r == double_sided_spec(props_of(props@)),
{
    match binary_value(find_property(props, "$mat.twosided", TextureType::NoTexture, 0)) {
        Some(b) => b.len() == 1 && b[0] == 1,
        None => false,
    }
}

/// The bytes of a value stored as bytes, when there are exactly `n` of them.
pub open spec fn sized_bytes(v: Option<ValueView>, n: nat) -> Option<Seq<u8>> {
    match binary_of(v) {
        Some(b) => if b.len() == n { Some(b) } else { None },
        None => None,
    }
}

/// The bytes stored under `key` for no texture slot, when there are
/// exactly `n` of them.
pub open spec fn factor_bytes(ps: Seq<PropView>, key: Seq<char>, n: nat) -> Option<Seq<u8>> {
    sized_bytes(find_prop(ps, key, TextureType::NoTexture, 0), n)
}

/// The first of two byte lists that is present.
pub open spec fn first_bytes(a: Option<Seq<u8>>, b: Option<Seq<u8>>) -> Option<Seq<u8>> {
    match a {
        Some(x) => Some(x),
        None => b,
    }
}

/// The stored bytes that the numeric factors of an exported material are
/// read from, each present when stored with the length its value needs.
/// The floats in them are read by the caller.
pub struct MaterialFactorBytes {
    /// A colour of four floats: under `$clr.base`, else under `$clr.diffuse`.
    pub base_color: Option<Vec<u8>>,
    /// One float under `$mat.metallicFactor`.
    pub metallic: Option<Vec<u8>>,
    /// One float under `$mat.roughnessFactor`.
    pub roughness: Option<Vec<u8>>,
    /// Without a roughness factor, the shininess (one float under
    /// `$mat.shininess`) and specular colour (three floats under
    /// `$clr.specular`) that the roughness is derived from, when both are
    /// stored.
    pub shininess_specular: Option<(Vec<u8>, Vec<u8>)>,
    /// A colour of three floats under `$clr.emissive`.
    pub emissive: Option<Vec<u8>>,
    /// One float under `$mat.gltf.alphaCutoff`.
    pub alpha_cutoff: Option<Vec<u8>>,
    /// One float under `$mat.opacity`.
    pub opacity: Option<Vec<u8>>,
}

/// The shininess and specular bytes that a missing roughness factor is
/// derived from.
pub open spec fn shininess_specular_spec(ps: Seq<PropView>) -> Option<(Seq<u8>, Seq<u8>)> {
    if factor_bytes(ps, "$mat.roughnessFactor"@, 4) is Some {
        None
    } else {
        match (factor_bytes(ps, "$mat.shininess"@, 4), factor_bytes(ps, "$clr.specular"@, 12)) {
            (Some(a), Some(b)) => Some((a, b)),
            _ => None,
        }
    }
}

fn stored_factor(props: &Vec<MaterialProperty>, key: &str, n: usize) -> (r: Option<Vec<u8>>)
    ensures
        opt_seq(r) == factor_bytes(props_of(props@), key@, n as nat),
{
    match binary_value(find_property(props, key, TextureType::NoTexture, 0)) {
        Some(b) => if b.len() == n { Some(b) } else { None },
        None => None,
    }
}

/// The stored bytes of the numeric factors of a material (see

/// Whether `r` holds the factor bytes stored in the properties `ps`: the
/// base colour (under `$clr.base`, else `$clr.diffuse`), metallic and
/// roughness factors, the shininess and specular colour a roughness is
/// derived from, the emissive colour, the alpha cut-off and the opacity.
pub open spec fn factors_spec(r: MaterialFactorBytes, ps: Seq<PropView>) -> bool {
    &&& opt_seq(r.base_color) == first_bytes(factor_bytes(ps, "$clr.base"@, 16), factor_bytes(ps, "$clr.diffuse"@, 16))
    &&& opt_seq(r.metallic) == factor_bytes(ps, "$mat.metallicFactor"@, 4)
    &&& opt_seq(r.roughness) == factor_bytes(ps, "$mat.roughnessFactor"@, 4)
    &&& match r.shininess_specular {
        Some((a, b)) => shininess_specular_spec(ps) == Some((a@, b@)),
        None => shininess_specular_spec(ps) is None,
    }
    &&& opt_seq(r.emissive) == factor_bytes(ps, "$clr.emissive"@, 12)
    &&& opt_seq(r.alpha_cutoff) == factor_bytes(ps, "$mat.gltf.alphaCutoff"@, 4)
    &&& opt_seq(r.opacity) == factor_bytes(ps, "$mat.opacity"@, 4)
}

/// `MaterialFactorBytes`).
pub fn material_factor_bytes(props: &Vec<MaterialProperty>) -> (r: MaterialFactorBytes)
    ensures
        factors_spec(r, props_of(props@)),
{
    let base_color = match stored_factor(props, "$clr.base", 16) {
        Some(b) => Some(b),
        None => stored_factor(props, "$clr.diffuse", 16),
    };
    let roughness = stored_factor(props, "$mat.roughnessFactor", 4);
    let shininess_specular = if roughness.is_some() {
        None
    } else {
        match stored_factor(props, "$mat.shininess", 4) {
            Some(a) => match stored_factor(props, "$clr.specular", 12) {
                Some(b) => Some((a, b)),
                None => None,
            },
            None => None,
        }
    };
    MaterialFactorBytes {
        base_color,
        metallic: stored_factor(props, "$mat.metallicFactor", 4),
        roughness,
        shininess_specular,
        emissive: stored_factor(props, "$clr.emissive", 12),
        alpha_cutoff: stored_factor(props, "$mat.gltf.alphaCutoff", 4),
        opacity: stored_factor(props, "$mat.opacity", 4),
    }
}

/// Whether a material is unlit: the shading model stored as one byte under
/// `$mat.shadingm` is the unlit code; any other or no code counts as PBR.
pub open spec fn unlit_spec(ps: Seq<PropView>) -> bool {
    match binary_of(find_prop(ps, "$mat.shadingm"@, TextureType::NoTexture, 0)) {
        Some(b) => b.len() == 1 && b[0] == crate::scene::shading_code(crate::scene::ShadingMode::Unlit),
        None => false,
    }
}

/// Whether a material is unlit (its export then lists the
/// `KHR_materials_unlit` extension).
pub fn is_unlit(props: &Vec<MaterialProperty>) -> (r: bool)
    ensures
        r == unlit_spec(props_of(props@)),
{
    match binary_value(find_property(props, "$mat.shadingm", TextureType::NoTexture, 0)) {
        Some(b) => b.len() == 1 && b[0] == crate::scene::ShadingMode::Unlit.code(),
        None => false,
    }
}

/// Which material extensions the exporter was built with.
#[derive(Clone, Copy, Debug, PartialEq, Eq, Structural)]
pub struct ExtensionFeatures {
    pub specular: bool,
    pub transmission: bool,
    pub volume: bool,
    pub ior: bool,
    pub emissive_strength: bool,
    pub specular_glossiness: bool,
}

/// The extensions an exported material uses.
#[derive(Clone, Copy, Debug, PartialEq, Eq, Structural)]
pub struct MaterialExtensions {
    pub specular_glossiness: bool,
    pub unlit: bool,
    pub specular: bool,
    pub transmission: bool,
    pub volume: bool,
    pub ior: bool,
    pub emissive_strength: bool,
}

/// The texts of a list of strings.
pub open spec fn string_texts(v: Seq<String>) -> Seq<Seq<char>> {
    Seq::new(v.len(), |i: int| v[i]@)
}

/// Whether four little-endian bytes are a float zero (either sign).
pub open spec fn float_zero(b: Seq<u8>) -> bool {
    b[0] == 0 && b[1] == 0 && b[2] == 0 && (b[3] == 0 || b[3] == 0x80)
}

/// Whether the four little-endian bytes at `i` are the float 1.
pub open spec fn float_one_at(b: Seq<u8>, i: int) -> bool {
    b[i] == 0 && b[i + 1] == 0 && b[i + 2] == 0x80 && b[i + 3] == 0x3f
}

/// Whether a material gets the specular extension: a specular colour
/// (three floats under `$clr.specular`) and factor (one float under
/// `$mat.specularFactor`) are stored, and not both a zero factor and a
/// white colour.
pub open spec fn specular_applies(ps: Seq<PropView>) -> bool {
    match (factor_bytes(ps, "$clr.specular"@, 12), factor_bytes(ps, "$mat.specularFactor"@, 4)) {
        (Some(c), Some(f)) => !(float_zero(f) && float_one_at(c, 0) && float_one_at(c, 4) && float_one_at(c, 8)),
        _ => false,
    }
}

/// The extensions of an exported material: specular-glossiness when asked
/// for; unlit for an unlit material; otherwise, unless the built-in
/// specular-glossiness extension was applied, each extension that was
/// built in and whose values are stored (the specular one as
/// `specular_applies` says, transmission with a factor under
/// `$mat.transmission.factor`, volume with a thickness, attenuation
/// distance and attenuation colour under `$mat.volume.*`; index of
/// refraction and emissive strength always).
pub open spec fn extensions_spec(ps: Seq<PropView>, f: ExtensionFeatures, use_sg: bool) -> MaterialExtensions {
    let unlit = unlit_spec(ps);
    let other = !unlit && !(f.specular_glossiness && use_sg);
    MaterialExtensions {
        specular_glossiness: use_sg,
        unlit,
        specular: other && f.specular && specular_applies(ps),
        transmission: other && f.transmission && factor_bytes(ps, "$mat.transmission.factor"@, 4) is Some,
        volume: other && f.volume && factor_bytes(ps, "$mat.volume.thicknessFactor"@, 4) is Some
            && factor_bytes(ps, "$mat.volume.attenuationDistance"@, 4) is Some
            && factor_bytes(ps, "$mat.volume.attenuationColor"@, 12) is Some,
        ior: other && f.ior,
        emissive_strength: other && f.emissive_strength,
    }
}

/// The names an exported material adds to the document's used extensions,
/// in order.
pub open spec fn extension_names(e: MaterialExtensions) -> Seq<Seq<char>> {
    named(e.specular_glossiness, "KHR_materials_pbrSpecularGlossiness"@)
        + named(e.unlit, "KHR_materials_unlit"@)
        + named(e.specular, "KHR_materials_specular"@)
        + named(e.transmission, "KHR_materials_transmission"@)
        + named(e.volume, "KHR_materials_volume"@)
        + named(e.ior, "KHR_materials_ior"@)
        + named(e.emissive_strength, "KHR_materials_emissive_strength"@)
}

/// A name when `on`, else nothing.
pub open spec fn named(on: bool, name: Seq<char>) -> Seq<Seq<char>> {
    if on { seq![name] } else { Seq::empty() }
}

fn with_name(used: Vec<String>, on: bool, name: &str) -> (r: Vec<String>)
    ensures
        string_texts(r@) == string_texts(used@) + named(on, name@),
{
    let mut used = used;
    let ghost before = string_texts(used@);
    if on {
        let t = string_from_chars(&chars_of(name));
        used.push(t);
        assert(string_texts(used@) =~= before + seq![name@]);
    } else {
        assert(string_texts(used@) =~= before + Seq::<Seq<char>>::empty());
    }
    used
}

fn four_bytes_flag(v: &Option<Vec<u8>>) -> (r: bool)
    requires
        match v { Some(b) => b@.len() == 4, None => true },
    ensures
        r == (match v { Some(b) => float_zero(b@), None => false }),
{
    match v {
        Some(b) => b.len() == 4 && b[0] == 0 && b[1] == 0 && b[2] == 0 && (b[3] == 0 || b[3] == 0x80),
        None => false,
    }
}

fn specular_is_stored(props: &Vec<MaterialProperty>) -> (r: bool)
    ensures
        r == specular_applies(props_of(props@)),
{
    let color = stored_factor(props, "$clr.specular", 12);
    let factor = stored_factor(props, "$mat.specularFactor", 4);
    match (&color, &factor) {
        (Some(c), Some(_)) => {
            let white = c[0] == 0 && c[1] == 0 && c[2] == 0x80 && c[3] == 0x3f
                && c[4] == 0 && c[5] == 0 && c[6] == 0x80 && c[7] == 0x3f
                && c[8] == 0 && c[9] == 0 && c[10] == 0x80 && c[11] == 0x3f;
            !(four_bytes_flag(&factor) && white)
        },
        _ => false,
    }
}

proof fn lemma_seq_assoc(p: Seq<Seq<char>>, q: Seq<Seq<char>>, r: Seq<Seq<char>>)
    ensures
        p + q + r == p + (q + r),
{
    assert(p + q + r =~= p + (q + r));
}

fn extension_name_list(used: Vec<String>, r: MaterialExtensions) -> (out: Vec<String>)
    ensures
        string_texts(out@) == string_texts(used@) + extension_names(r),
{
    let ghost u0 = string_texts(used@);
    let ghost a = named(r.specular_glossiness, "KHR_materials_pbrSpecularGlossiness"@);
    let ghost b = named(r.unlit, "KHR_materials_unlit"@);
    let ghost c = named(r.specular, "KHR_materials_specular"@);
    let ghost d = named(r.transmission, "KHR_materials_transmission"@);
    let ghost e = named(r.volume, "KHR_materials_volume"@);
    let ghost f = named(r.ior, "KHR_materials_ior"@);
    let ghost g = named(r.emissive_strength, "KHR_materials_emissive_strength"@);
    let v1 = with_name(used, r.specular_glossiness, "KHR_materials_pbrSpecularGlossiness");
    let v2 = with_name(v1, r.unlit, "KHR_materials_unlit");
    proof { lemma_seq_assoc(u0, a, b); }
    let v3 = with_name(v2, r.specular, "KHR_materials_specular");
    proof { lemma_seq_assoc(u0, a + b, c); }
    let v4 = with_name(v3, r.transmission, "KHR_materials_transmission");
    proof { lemma_seq_assoc(u0, a + b + c, d); }
    let v5 = with_name(v4, r.volume, "KHR_materials_volume");
    proof { lemma_seq_assoc(u0, a + b + c + d, e); }
    let v6 = with_name(v5, r.ior, "KHR_materials_ior");
    proof { lemma_seq_assoc(u0, a + b + c + d + e, f); }
    let v7 = with_name(v6, r.emissive_strength, "KHR_materials_emissive_strength");
    proof { lemma_seq_assoc(u0, a + b + c + d + e + f, g); }
    v7
}

/// Decides the extensions of an exported material (see `extensions_spec`)
/// and adds their names to the document's used extensions (see
/// `extension_names`).
pub fn material_extensions(
    props: &Vec<MaterialProperty>,
    features: ExtensionFeatures,
    use_sg: bool,
    used: &mut Vec<String>,
) -> (r: MaterialExtensions)
    ensures
        r == extensions_spec(props_of(props@), features, use_sg),
        string_texts(final(used)@) == string_texts(old(used)@) + extension_names(r),
{
    let ghost ps = props_of(props@);
    let unlit = is_unlit(props);
    let other = !unlit && !(features.specular_glossiness && use_sg);
    let specular_stored = specular_is_stored(props);
    let transmission = stored_factor(props, "$mat.transmission.factor", 4).is_some();
    let volume = stored_factor(props, "$mat.volume.thicknessFactor", 4).is_some()
        && stored_factor(props, "$mat.volume.attenuationDistance", 4).is_some()
        && stored_factor(props, "$mat.volume.attenuationColor", 12).is_some();
    let r = MaterialExtensions {
        specular_glossiness: use_sg,
        unlit,
        specular: other && features.specular && specular_stored,
        transmission: other && features.transmission && transmission,
        volume: other && features.volume && volume,
        ior: other && features.ior,
        emissive_strength: other && features.emissive_strength,
    };
    let mut taken: Vec<String> = Vec::new();
    std::mem::swap(&mut taken, used);
    *used = extension_name_list(taken, r);
    r
}

/// A material as the exporter writes it: its unique name, its textures,
/// its factor bytes, its alpha mode, whether it is double sided, and the
/// extensions it uses.
pub struct ExportedMaterial {
    pub name: String,
    pub textures: MaterialTextures,
    pub factors: MaterialFactorBytes,
    pub alpha_mode: AlphaMode,
    pub double_sided: bool,
    pub extensions: MaterialExtensions,
}

/// The export state with another name table.
pub open spec fn with_names(s: ExportState, keys: Seq<Seq<char>>, counters: Seq<u32>) -> ExportState {
    ExportState {
        images: s.images,
        views: s.views,
        samplers: s.samplers,
        textures: s.textures,
        buffer: s.buffer,
        name_keys: keys,
        name_counters: counters,
        texture_ids: s.texture_ids,
    }
}

/// Exports one material: its unique name first (an error, with nothing
/// changed, when its stored name is not UTF-8), then its textures (see
/// `material_textures_spec`, after the name was taken), its factor bytes,
/// alpha mode and sidedness, and its extensions, whose names go to the
/// document's used extensions.
pub fn export_material(
    st: &mut MaterialExport,
    scene_textures: &Vec<SceneTexture>,
    props: &Vec<MaterialProperty>,
    features: ExtensionFeatures,
    use_sg: bool,
    binary: bool,
    used: &mut Vec<String>,
) -> (r: Result<ExportedMaterial, MaterialNameError>)
    requires
        old(st).wf(),
        old(st).name_room(18),
    ensures
        final(st).wf(),
        final(st).names.calls() <= old(st).names.calls() + 9,
        final(st).names.key_seq().len() <= old(st).names.key_seq().len() + 9,
        r is Ok <==> material_name_readable(props_of(props@)),
        r is Err ==> *final(st) == *old(st) && final(used)@ == old(used)@,
        r is Ok ==> ({
            let ps = props_of(props@);
            let u = unique_name_spec(old(st).state().name_keys, old(st).state().name_counters, material_base_name(ps));
            let m = material_textures_spec(with_names(old(st).state(), u.1, u.2), scene_textures@, ps, binary);
            let e = r->Ok_0;
            &&& e.name@ == u.0
            &&& final(st).state() == m.1
            &&& e.textures.base_color == m.0[0]
            &&& e.textures.metallic_roughness == m.0[1]
            &&& e.textures.normal == m.0[2]
            &&& e.textures.occlusion == m.0[3]
            &&& e.textures.emissive == m.0[4]
            &&& opt_seq(e.textures.normal_scale) == if e.textures.normal is Some {
                four_bytes(find_prop(ps, "$tex.scale"@, TextureType::Normals, 0))
            } else {
                None
            }
            &&& opt_seq(e.textures.occlusion_strength) == if e.textures.occlusion is Some {
                four_bytes(find_prop(ps, "$tex.file.strength"@, TextureType::Normals, 0))
            } else {
                None
            }
            &&& factors_spec(e.factors, ps)
            &&& e.alpha_mode == alpha_mode_spec(ps)
            &&& e.double_sided == double_sided_spec(ps)
            &&& e.extensions == extensions_spec(ps, features, use_sg)
            &&& string_texts(final(used)@) == string_texts(old(used)@) + extension_names(e.extensions)
        }),
{
    let name = match material_name(props, &mut st.names) {
        Err(e) => return Err(e),
        Ok(n) => n,
    };
    let textures = export_material_textures(st, scene_textures, props, binary);
    let factors = material_factor_bytes(props);
    let alpha = alpha_mode(props);
    let sided = double_sided(props);
    let extensions = material_extensions(props, features, use_sg, used);
    Ok(ExportedMaterial { name, textures, factors, alpha_mode: alpha, double_sided: sided, extensions })
}

/// The names and texture references of materials exported in order, and
/// the state after them: each takes its unique name, then its textures.
pub open spec fn materials_spec(s: ExportState, ts: Seq<SceneTexture>, ms: Seq<Seq<PropView>>, binary: bool)
    -> (Seq<(Seq<char>, Seq<Option<TextureInfo>>)>, ExportState)
    decreases ms.len(),
{
    if ms.len() == 0 {
        (Seq::empty(), s)
    } else {
        let r = materials_spec(s, ts, ms.drop_last(), binary);
        let ps = ms.last();
        let u = unique_name_spec(r.1.name_keys, r.1.name_counters, material_base_name(ps));
        let m = material_textures_spec(with_names(r.1, u.1, u.2), ts, ps, binary);
        (r.0.push((u.0, m.0)), m.1)
    }
}

proof fn lemma_materials_spec_len(s: ExportState, ts: Seq<SceneTexture>, ms: Seq<Seq<PropView>>, binary: bool)
    ensures
        materials_spec(s, ts, ms, binary).0.len() == ms.len(),
    decreases ms.len(),
{
    if ms.len() > 0 {
        lemma_materials_spec_len(s, ts, ms.drop_last(), binary);
    }
}

proof fn lemma_materials_step(
    s0: ExportState,
    ts: Seq<SceneTexture>,
    ms: Seq<Seq<PropView>>,
    i: int,
    binary: bool,
    features: ExtensionFeatures,
    use_sg: bool,
)
    requires
        0 <= i < ms.len(),
    ensures
        ({
            let prev = materials_spec(s0, ts, ms.take(i), binary);
            let want = materials_spec(s0, ts, ms.take(i + 1), binary);
            let u = unique_name_spec(prev.1.name_keys, prev.1.name_counters, material_base_name(ms[i]));
            let m = material_textures_spec(with_names(prev.1, u.1, u.2), ts, ms[i], binary);
            &&& want.0.len() == i + 1
            &&& forall|j: int| 0 <= j < i ==> want.0[j] == prev.0[j]
            &&& want.0[i] == (u.0, m.0)
            &&& want.1 == m.1
            &&& materials_extension_names(ms.take(i + 1), features, use_sg)
                == materials_extension_names(ms.take(i), features, use_sg) + extension_names(extensions_spec(ms[i], features, use_sg))
        }),
{
    assert(ms.take(i + 1).drop_last() =~= ms.take(i));
    assert(ms.take(i + 1).last() == ms[i]);
    lemma_materials_spec_len(s0, ts, ms.take(i), binary);
}

/// The names of the extensions materials use, in order.
pub open spec fn materials_extension_names(ms: Seq<Seq<PropView>>, features: ExtensionFeatures, use_sg: bool) -> Seq<Seq<char>>
    decreases ms.len(),
{
    if ms.len() == 0 {
        Seq::empty()
    } else {
        materials_extension_names(ms.drop_last(), features, use_sg)
            + extension_names(extensions_spec(ms.last(), features, use_sg))
    }
}

/// Whether `e` is the material exported from the properties `ps` under the
/// name and texture references `nt`.
pub open spec fn material_matches(
    e: ExportedMaterial,
    nt: (Seq<char>, Seq<Option<TextureInfo>>),
    ps: Seq<PropView>,
    features: ExtensionFeatures,
    use_sg: bool,
) -> bool {
    &&& e.name@ == nt.0
    &&& e.textures.base_color == nt.1[0]
    &&& e.textures.metallic_roughness == nt.1[1]
    &&& e.textures.normal == nt.1[2]
    &&& e.textures.occlusion == nt.1[3]
    &&& e.textures.emissive == nt.1[4]
    &&& opt_seq(e.textures.normal_scale) == if e.textures.normal is Some {
        four_bytes(find_prop(ps, "$tex.scale"@, TextureType::Normals, 0))
    } else {
        None
    }
    &&& opt_seq(e.textures.occlusion_strength) == if e.textures.occlusion is Some {
        four_bytes(find_prop(ps, "$tex.file.strength"@, TextureType::Normals, 0))
    } else {
        None
    }
    &&& factors_spec(e.factors, ps)
    &&& e.alpha_mode == alpha_mode_spec(ps)
    &&& e.double_sided == double_sided_spec(ps)
    &&& e.extensions == extensions_spec(ps, features, use_sg)
}

/// The property lists of materials, as values.
pub open spec fn material_props(ms: Seq<Vec<MaterialProperty>>) -> Seq<Seq<PropView>> {
    Seq::new(ms.len(), |i: int| props_of(ms[i]@))
}

/// Exports the materials of a scene in order (see `materials_spec`), their
/// extension names going to the document's used extensions. A material
/// whose stored name is not UTF-8 stops the export with an error, after
/// the materials before it.
#[verifier::spinoff_prover]
#[verifier::rlimit(60)]
pub fn export_materials(
    st: &mut MaterialExport,
    scene_textures: &Vec<SceneTexture>,
    materials: &Vec<Vec<MaterialProperty>>,
    features: ExtensionFeatures,
    use_sg: bool,
    binary: bool,
    used: &mut Vec<String>,
) -> (r: Result<Vec<ExportedMaterial>, MaterialNameError>)
    requires
        old(st).wf(),
        old(st).name_room(18 * materials@.len()),
    ensures
        final(st).wf(),
        ({
            let ms = material_props(materials@);
            &&& r is Ok <==> forall|i: int| 0 <= i < ms.len() ==> material_name_readable(#[trigger] ms[i])
            &&& r is Ok ==> {
                let want = materials_spec(old(st).state(), scene_textures@, ms, binary);
                &&& r->Ok_0@.len() == ms.len()
                &&& final(st).state() == want.1
                &&& forall|i: int| 0 <= i < ms.len()
                    ==> material_matches(#[trigger] r->Ok_0@[i], want.0[i], ms[i], features, use_sg)
                &&& string_texts(final(used)@) == string_texts(old(used)@) + materials_extension_names(ms, features, use_sg)
            }
            &&& r is Err ==> exists|k: int| {
                &&& 0 <= k < ms.len()
                &&& !material_name_readable(#[trigger] ms[k])
                &&& (forall|j: int| 0 <= j < k ==> material_name_readable(ms[j]))
                &&& final(st).state() == materials_spec(old(st).state(), scene_textures@, ms.take(k), binary).1
                &&& string_texts(final(used)@)
                    == string_texts(old(used)@) + materials_extension_names(ms.take(k), features, use_sg)
            }
        }),
{
    let ghost ms = material_props(materials@);
    let ghost s0 = st.state();
    let ghost used0 = string_texts(used@);
    let ghost room0 = st.names.key_seq().len() + st.names.calls();
    let mut out: Vec<ExportedMaterial> = Vec::new();
    let mut i: usize = 0;
    assert(ms.take(0) =~= Seq::<Seq<PropView>>::empty());
    while i < materials.len()
        invariant
            ms == material_props(materials@),
            s0 == old(st).state(),
            used0 == string_texts(old(used)@),
            i <= materials@.len(),
            st.wf(),
            room0 + 18 * materials@.len() < u32::MAX,
            st.names.key_seq().len() + st.names.calls() <= room0 + 18 * i,
            forall|j: int| 0 <= j < i ==> material_name_readable(#[trigger] ms[j]),
            out@.len() == i,
            ({
                let want = materials_spec(s0, scene_textures@, ms.take(i as int), binary);
                &&& st.state() == want.1
                &&& forall|j: int| 0 <= j < i ==> material_matches(#[trigger] out@[j], want.0[j], ms[j], features, use_sg)
                &&& string_texts(used@) == used0 + materials_extension_names(ms.take(i as int), features, use_sg)
            }),
        decreases materials@.len() - i,
    {
        let ghost before = st.state();
        let ghost used_before = string_texts(used@);
        let ghost prev = materials_spec(s0, scene_textures@, ms.take(i as int), binary);
        assert(ms[i as int] == props_of(materials@[i as int]@));
        assert(ms.take(i + 1).drop_last() =~= ms.take(i as int));
        assert(ms.take(i + 1).last() == ms[i as int]);
        match export_material(st, scene_textures, &materials[i], features, use_sg, binary, used) {
            Err(e) => {
                proof {
                    assert(!material_name_readable(ms[i as int]));
                    assert(st.state() == prev.1);
                    assert(string_texts(used@) == used0 + materials_extension_names(ms.take(i as int), features, use_sg));
                    let k = i as int;
                    assert({
                        &&& 0 <= k < ms.len()
                        &&& !material_name_readable(ms[k])
                        &&& (forall|j: int| 0 <= j < k ==> material_name_readable(ms[j]))
                        &&& st.state() == materials_spec(s0, scene_textures@, ms.take(k), binary).1
                        &&& string_texts(used@) == used0 + materials_extension_names(ms.take(k), features, use_sg)
                    });
                    assert(exists|k: int| {
                        &&& 0 <= k < ms.len()
                        &&& !material_name_readable(#[trigger] ms[k])
                        &&& (forall|j: int| 0 <= j < k ==> material_name_readable(ms[j]))
                        &&& st.state() == materials_spec(s0, scene_textures@, ms.take(k), binary).1
                        &&& string_texts(used@) == used0 + materials_extension_names(ms.take(k), features, use_sg)
                    });
                }
                return Err(e);
            },
            Ok(m) => {
                proof {
                    lemma_materials_step(s0, scene_textures@, ms, i as int, binary, features, use_sg);
                    let want = materials_spec(s0, scene_textures@, ms.take(i + 1), binary);
                    assert forall|j: int| 0 <= j < i + 1 implies material_matches(#[trigger] out@.push(m)[j], want.0[j], ms[j], features, use_sg) by {
                        if j < i {
                            assert(out@.push(m)[j] == out@[j]);
                        }
                    }
                    assert(used_before + extension_names(m.extensions)
                        =~= used0 + materials_extension_names(ms.take(i + 1), features, use_sg));
                }
                out.push(m);
            },
        }
        i = i + 1;
    }
    assert(ms.take(materials@.len() as int) =~= ms);
    Ok(out)
}

/// The first property stored under a key, slot and index is the one
/// `find_prop` finds.
proof fn lemma_find_prop_at(ps: Seq<PropView>, key: Seq<char>, sem: TextureType, idx: u32, i: int)
    requires
        0 <= i < ps.len(),
        prop_matches(ps[i], key, sem, idx),
        forall|j: int| 0 <= j < i ==> !prop_matches(#[trigger] ps[j], key, sem, idx),
    ensures
        find_prop(ps, key, sem, idx) == Some(ps[i].value),
    decreases i,
{
    if i > 0 {
        assert(!prop_matches(ps[0], key, sem, idx));
        let t = ps.drop_first();
        assert forall|j: int| 0 <= j < i - 1 implies !prop_matches(#[trigger] t[j], key, sem, idx) by {
            assert(t[j] == ps[j + 1]);
        }
        lemma_find_prop_at(t, key, sem, idx, i - 1);
    }
}

/// A named alpha mode wins: when the first property stored under
/// `$mat.gltf.alphaCutoff` (no texture, index 0) is the text `OPAQUE`,
/// `BLEND` or `MASK`, the material is exported with the glTF alpha mode of
/// that name, whatever opacity it also stores.
pub proof fn lemma_alpha_mode_named(ps: Seq<PropView>, i: int)
    requires
        0 <= i < ps.len(),
        ps[i].key == "$mat.gltf.alphaCutoff"@,
        ps[i].semantic == TextureType::NoTexture,
        ps[i].index == 0,
        forall|j: int| 0 <= j < i ==> !((#[trigger] ps[j]).key == "$mat.gltf.alphaCutoff"@
            && ps[j].semantic == TextureType::NoTexture && ps[j].index == 0),
    ensures
        ps[i].value == ValueView::Text("OPAQUE"@) ==> alpha_mode_spec(ps) == AlphaMode::Opaque,
        ps[i].value == ValueView::Text("BLEND"@) ==> alpha_mode_spec(ps) == AlphaMode::Blend,
        ps[i].value == ValueView::Text("MASK"@) ==> alpha_mode_spec(ps) == AlphaMode::Mask,
{
    assert forall|j: int| 0 <= j < i implies !prop_matches(#[trigger] ps[j], "$mat.gltf.alphaCutoff"@, TextureType::NoTexture, 0) by {
        assert(!(ps[j].key == "$mat.gltf.alphaCutoff"@ && ps[j].semantic == TextureType::NoTexture && ps[j].index == 0));
    }
    lemma_find_prop_at(ps, "$mat.gltf.alphaCutoff"@, TextureType::NoTexture, 0, i);
    reveal_strlit("OPAQUE");
    reveal_strlit("BLEND");
    reveal_strlit("MASK");
    assert("OPAQUE"@[0] == 'O' && "BLEND"@[0] == 'B' && "MASK"@[0] == 'M');
}

/// Without a named alpha mode (no property under `$mat.gltf.alphaCutoff`),
/// a material blends when the first opacity it stores (no texture, index
/// 0) is four bytes, and is opaque when it stores no opacity.
pub proof fn lemma_alpha_mode_unnamed(ps: Seq<PropView>, i: int)
    requires
        forall|j: int| 0 <= j < ps.len() ==> (#[trigger] ps[j]).key != "$mat.gltf.alphaCutoff"@,
    ensures
        (0 <= i < ps.len() && prop_matches(ps[i], "$mat.opacity"@, TextureType::NoTexture, 0)
            && (forall|j: int| 0 <= j < i ==> !prop_matches(#[trigger] ps[j], "$mat.opacity"@, TextureType::NoTexture, 0))
            && ps[i].value is Bytes && ps[i].value->Bytes_0.len() == 4)
            ==> alpha_mode_spec(ps) == AlphaMode::Blend,
        (forall|j: int| 0 <= j < ps.len() ==> !prop_matches(#[trigger] ps[j], "$mat.opacity"@, TextureType::NoTexture, 0))
            ==> alpha_mode_spec(ps) == AlphaMode::Opaque,
{
    assert forall|j: int| 0 <= j < ps.len() implies !prop_matches(#[trigger] ps[j], "$mat.gltf.alphaCutoff"@, TextureType::NoTexture, 0) by {
        assert(ps[j].key != "$mat.gltf.alphaCutoff"@);
    }
    lemma_find_prop_none(ps, "$mat.gltf.alphaCutoff"@, TextureType::NoTexture, 0);
    if 0 <= i < ps.len() && prop_matches(ps[i], "$mat.opacity"@, TextureType::NoTexture, 0)
        && (forall|j: int| 0 <= j < i ==> !prop_matches(#[trigger] ps[j], "$mat.opacity"@, TextureType::NoTexture, 0)) {
        lemma_find_prop_at(ps, "$mat.opacity"@, TextureType::NoTexture, 0, i);
    }
    if forall|j: int| 0 <= j < ps.len() ==> !prop_matches(#[trigger] ps[j], "$mat.opacity"@, TextureType::NoTexture, 0) {
        lemma_find_prop_none(ps, "$mat.opacity"@, TextureType::NoTexture, 0);
    }
}

proof fn lemma_find_prop_none(ps: Seq<PropView>, key: Seq<char>, sem: TextureType, idx: u32)
    requires
        forall|j: int| 0 <= j < ps.len() ==> !prop_matches(#[trigger] ps[j], key, sem, idx),
    ensures
        find_prop(ps, key, sem, idx) is None,
    decreases ps.len(),
{
    if ps.len() > 0 {
        assert(!prop_matches(ps[0], key, sem, idx));
        let t = ps.drop_first();
        assert forall|j: int| 0 <= j < t.len() implies !prop_matches(#[trigger] t[j], key, sem, idx) by {
            assert(t[j] == ps[j + 1]);
        }
        lemma_find_prop_none(t, key, sem, idx);
    }
}

} // verus!
