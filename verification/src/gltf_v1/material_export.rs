//! Exporting the textures of materials into a glTF 1.0 document: a
//! texture, a sampler and an image per material slot, keyed by unique
//! names.
use vstd::prelude::*;

use crate::dae::texture::{map_mode_code, TextureMapMode};
use crate::gltf2::material_export::{
    binary_of, binary_value, find_prop, find_property, material_base_name, material_name_readable, props_of, text_of,
    text_value, MaterialNameError,
};
use crate::gltf_v1::names::{generate_unique_name, unique_name_spec, UniqueNames};
use crate::scene::{MaterialProperty, PropView, TextureType};
use crate::text::{chars_of, parse_usize, parse_usize_spec, string_from_chars};
use crate::textmap::TextMap;

verus! {

/// A wrapping mode of a glTF 1.0 sampler.
#[derive(Clone, Copy, Debug, PartialEq, Eq, Structural)]
pub enum SamplerWrap {
    ClampToEdge,
    MirroredRepeat,
    Repeat,
}

/// A sampler of a glTF 1.0 document. Both filters are linear; the
/// wrapping modes come from the material.
#[derive(Clone, Copy, Debug, PartialEq, Eq, Structural)]
pub struct SamplerEntry {
    pub wrap_s: SamplerWrap,
    pub wrap_t: SamplerWrap,
}

/// An image of a glTF 1.0 document: its name and URI.
pub struct ImageEntry {
    pub name: Option<String>,
    pub uri: String,
}

/// A texture of a glTF 1.0 document: the names of its image and sampler.
pub struct TextureEntry {
    pub source: String,
    pub sampler: String,
}

/// A scene texture as the exporter embeds it: its file name, and the MIME
/// type and bytes it exports to (none when it does not export).
pub struct EmbeddedTextureExport {
    pub filename: String,
    pub exported: Option<(String, Vec<u8>)>,
}

/// What exporting material textures builds in a glTF 1.0 document.
pub struct MaterialTextureExport {
    pub samplers: TextMap<SamplerEntry>,
    pub images: TextMap<ImageEntry>,
    pub textures: TextMap<TextureEntry>,
    pub textures_by_path: TextMap<String>,
    pub names: UniqueNames,
}

impl MaterialTextureExport {
    /// Every table is well formed.
    pub open spec fn wf(&self) -> bool {
        &&& self.samplers.wf()
        &&& self.images.wf()
        &&& self.textures.wf()
        &&& self.textures_by_path.wf()
        &&& self.names.wf()
    }

    /// Nothing built yet.
    pub fn new() -> (r: MaterialTextureExport)
        ensures
            r.wf(),
            r.samplers.as_map() == Map::<Seq<char>, SamplerEntry>::empty(),
            r.images.as_map() == Map::<Seq<char>, ImageEntry>::empty(),
            r.textures.as_map() == Map::<Seq<char>, TextureEntry>::empty(),
            r.textures_by_path.as_map() == Map::<Seq<char>, String>::empty(),
            r.names.key_seq() == Seq::<Seq<char>>::empty(),
            r.names.counter_seq() == Seq::<u32>::empty(),
            r.names.calls() == 0,
    {
        MaterialTextureExport {
            samplers: TextMap::new(),
            images: TextMap::new(),
            textures: TextMap::new(),
            textures_by_path: TextMap::new(),
            names: UniqueNames::new(),
        }
    }
}

/// A wrapping mode stored as one byte: clamping and mirroring as such;
/// any other mode, or none, repeats.
pub open spec fn wrap_spec(b: Option<Seq<u8>>) -> SamplerWrap {
    match b {
        Some(b) => if b.len() == 1 && b[0] == map_mode_code(TextureMapMode::Clamp) {
            SamplerWrap::ClampToEdge
        } else if b.len() == 1 && b[0] == map_mode_code(TextureMapMode::Mirror) {
            SamplerWrap::MirroredRepeat
        } else {
            SamplerWrap::Repeat
        },
        None => SamplerWrap::Repeat,
    }
}

/// The sampler of a texture slot.
pub open spec fn sampler_spec(ps: Seq<PropView>, sem: TextureType) -> SamplerEntry {
    SamplerEntry {
        wrap_s: wrap_spec(binary_of(find_prop(ps, "$tex.mapmodeu"@, sem, 0))),
        wrap_t: wrap_spec(binary_of(find_prop(ps, "$tex.mapmodev"@, sem, 0))),
    }
}

fn wrap_value(b: Option<Vec<u8>>) -> (r: SamplerWrap)
    ensures
        r == wrap_spec(match b {
            Some(v) => Some(v@),
            None => None,
        }),
{
    match b {
        Some(b) => if b.len() == 1 && b[0] == TextureMapMode::Clamp.code() {
            SamplerWrap::ClampToEdge
        } else if b.len() == 1 && b[0] == TextureMapMode::Mirror.code() {
            SamplerWrap::MirroredRepeat
        } else {
            SamplerWrap::Repeat
        },
        None => SamplerWrap::Repeat,
    }
}

/// The character of a six-bit value in the standard base64 alphabet:
/// `A`-`Z`, `a`-`z`, `0`-`9`, `+` and `/`.
pub open spec fn base64_char(v: int) -> char {
    if v < 26 {
        (65 + v) as char
    } else if v < 52 {
        (97 + v - 26) as char
    } else if v < 62 {
        (48 + v - 52) as char
    } else if v == 62 {
        '+'
    } else {
        '/'
    }
}

/// Standard base64 with padding: every three bytes become four characters
/// of six bits each; a last group of one or two bytes becomes two or three
/// characters, padded with `=` to four.
pub open spec fn base64_encoded(b: Seq<u8>) -> Seq<char>
    decreases b.len(),
{
    if b.len() == 0 {
        Seq::empty()
    } else if b.len() == 1 {
        seq![base64_char(b[0] as int / 4), base64_char((b[0] as int % 4) * 16), '=', '=']
    } else if b.len() == 2 {
        seq![
            base64_char(b[0] as int / 4),
            base64_char((b[0] as int % 4) * 16 + b[1] as int / 16),
            base64_char((b[1] as int % 16) * 4),
            '=',
        ]
    } else {
        seq![
            base64_char(b[0] as int / 4),
            base64_char((b[0] as int % 4) * 16 + b[1] as int / 16),
            base64_char((b[1] as int % 16) * 4 + b[2] as int / 64),
            base64_char(b[2] as int % 64),
        ] + base64_encoded(b.skip(3))
    }
}

proof fn lemma_base64_char_ne_pad(v: int)
    requires
        0 <= v < 64,
    ensures
        base64_char(v) != '=',
{
    if v < 26 {
        assert((65 + v) as char as int == 65 + v);
    } else if v < 52 {
        assert((97 + v - 26) as char as int == 97 + v - 26);
    } else if v < 62 {
        assert((48 + v - 52) as char as int == 48 + v - 52);
    }
}

proof fn lemma_base64_char_injective(v: int, w: int)
    requires
        0 <= v < 64,
        0 <= w < 64,
        base64_char(v) == base64_char(w),
    ensures
        v == w,
{
    let cv = base64_char(v) as int;
    let cw = base64_char(w) as int;
    if v < 26 {
        assert((65 + v) as char as int == 65 + v);
    } else if v < 52 {
        assert((97 + v - 26) as char as int == 97 + v - 26);
    } else if v < 62 {
        assert((48 + v - 52) as char as int == 48 + v - 52);
    }
    if w < 26 {
        assert((65 + w) as char as int == 65 + w);
    } else if w < 52 {
        assert((97 + w - 26) as char as int == 97 + w - 26);
    } else if w < 62 {
        assert((48 + w - 52) as char as int == 48 + w - 52);
    }
    assert(cv == cw);
}

proof fn lemma_group_bytes(a0: u8, a1: u8, a2: u8, b0: u8, b1: u8, b2: u8)
    requires
        a0 / 4 == b0 / 4,
        (a0 % 4) * 16 + a1 / 16 == (b0 % 4) * 16 + b1 / 16,
        (a1 % 16) * 4 + a2 / 64 == (b1 % 16) * 4 + b2 / 64,
        a2 % 64 == b2 % 64,
    ensures
        a0 == b0 && a1 == b1 && a2 == b2,
{
    assert(a0 == b0 && a1 == b1 && a2 == b2) by (bit_vector)
        requires
            a0 / 4 == b0 / 4,
            (a0 % 4) * 16 + a1 / 16 == (b0 % 4) * 16 + b1 / 16,
            (a1 % 16) * 4 + a2 / 64 == (b1 % 16) * 4 + b2 / 64,
            a2 % 64 == b2 % 64,
    ;
}

proof fn lemma_base64_len(b: Seq<u8>)
    ensures
        b.len() == 0 <==> base64_encoded(b).len() == 0,
        b.len() > 0 ==> base64_encoded(b).len() >= 4,
    decreases b.len(),
{
    if b.len() >= 3 {
        lemma_base64_len(b.skip(3));
    }
}

/// Base64 encoding is one to one: different bytes never have the same
/// encoding.
pub proof fn lemma_base64_injective(a: Seq<u8>, b: Seq<u8>)
    requires
        base64_encoded(a) == base64_encoded(b),
    ensures
        a == b,
    decreases a.len(),
{
    let e = base64_encoded(a);
    lemma_base64_len(a);
    lemma_base64_len(b);
    if a.len() == 0 {
        assert(b =~= a);
    } else {
        assert(b.len() > 0);
        // the fourth character tells a last group of one or two bytes from a full one
        if a.len() == 1 {
            if b.len() == 2 {
                lemma_base64_char_ne_pad((b[1] as int % 16) * 4);
            } else if b.len() >= 3 {
                lemma_base64_char_ne_pad(b[2] as int % 64);
            }
            assert(b.len() == 1);
            lemma_base64_char_injective(a[0] as int / 4, b[0] as int / 4);
            lemma_base64_char_injective((a[0] as int % 4) * 16, (b[0] as int % 4) * 16);
            lemma_group_bytes(a[0], 0, 0, b[0], 0, 0);
            assert(b =~= a);
        } else if a.len() == 2 {
            lemma_base64_char_ne_pad((a[1] as int % 16) * 4);
            if b.len() >= 3 {
                lemma_base64_char_ne_pad(b[2] as int % 64);
            }
            assert(b.len() == 2);
            lemma_base64_char_injective(a[0] as int / 4, b[0] as int / 4);
            lemma_base64_char_injective((a[0] as int % 4) * 16 + a[1] as int / 16, (b[0] as int % 4) * 16 + b[1] as int / 16);
            lemma_base64_char_injective((a[1] as int % 16) * 4, (b[1] as int % 16) * 4);
            lemma_group_bytes(a[0], a[1], 0, b[0], b[1], 0);
            assert(b =~= a);
        } else {
            lemma_base64_char_ne_pad(a[2] as int % 64);
            if b.len() == 2 {
                lemma_base64_char_ne_pad((b[1] as int % 16) * 4);
            }
            assert(b.len() >= 3);
            let ha = seq![
                base64_char(a[0] as int / 4),
                base64_char((a[0] as int % 4) * 16 + a[1] as int / 16),
                base64_char((a[1] as int % 16) * 4 + a[2] as int / 64),
                base64_char(a[2] as int % 64),
            ];
            let hb = seq![
                base64_char(b[0] as int / 4),
                base64_char((b[0] as int % 4) * 16 + b[1] as int / 16),
                base64_char((b[1] as int % 16) * 4 + b[2] as int / 64),
                base64_char(b[2] as int % 64),
            ];
            assert(e == ha + base64_encoded(a.skip(3)));
            assert(e == hb + base64_encoded(b.skip(3)));
            assert(e[0] == ha[0] && e[0] == hb[0]);
            assert(e[1] == ha[1] && e[1] == hb[1]);
            assert(e[2] == ha[2] && e[2] == hb[2]);
            assert(e[3] == ha[3] && e[3] == hb[3]);
            lemma_base64_char_injective(a[0] as int / 4, b[0] as int / 4);
            lemma_base64_char_injective((a[0] as int % 4) * 16 + a[1] as int / 16, (b[0] as int % 4) * 16 + b[1] as int / 16);
            lemma_base64_char_injective((a[1] as int % 16) * 4 + a[2] as int / 64, (b[1] as int % 16) * 4 + b[2] as int / 64);
            lemma_base64_char_injective(a[2] as int % 64, b[2] as int % 64);
            lemma_group_bytes(a[0], a[1], a[2], b[0], b[1], b[2]);
            let ea = base64_encoded(a.skip(3));
            let eb = base64_encoded(b.skip(3));
            assert(ea =~= e.skip(4));
            assert(eb =~= e.skip(4));
            lemma_base64_injective(a.skip(3), b.skip(3));
            assert(a =~= seq![a[0], a[1], a[2]] + a.skip(3));
            assert(b =~= seq![b[0], b[1], b[2]] + b.skip(3));
        }
    }
}

/// Encodes bytes as base64 with the standard alphabet and padding
/// (`base64::encode`, the `STANDARD` engine): the contract claims the
/// result is `base64_encoded` of the bytes.
#[allow(deprecated)]
#[verifier::external_body]
fn base64_encode(b: &Vec<u8>) -> (r: String)
    ensures
        r@ == base64_encoded(b@),
{
    base64::encode(b)
}

/// `path` without its leading `*` characters.
pub open spec fn after_stars(path: Seq<char>) -> Seq<char>
    decreases path.len(),
{
    if path.len() > 0 && path[0] == '*' { after_stars(path.drop_first()) } else { path }
}

/// The index an embedded texture path (`*N`) names: `N` read as a `u32`.
pub open spec fn embedded_index(path: Seq<char>) -> Option<nat> {
    match parse_usize_spec(after_stars(path)) {
        Some(n) => if n <= u32::MAX { Some(n) } else { None },
        None => None,
    }
}

/// The image of a texture slot: for an embedded path (`*N`), the `N`th
/// scene texture's file name and, when it exports, a `data:` URI with its
/// MIME type and base64 bytes behind the marker `;baseW64,` (an empty URI otherwise, and no name when
/// there is no such texture); for any other path, the path as URI.
pub open spec fn image_spec(ts: Seq<EmbeddedTextureExport>, path: Seq<char>) -> (Option<Seq<char>>, Seq<char>) {
    if path.len() > 0 && path[0] == '*' {
        match embedded_index(path) {
            Some(n) => if n < ts.len() {
                let t = ts[n as int];
                (Some(t.filename@), match t.exported {
                    Some((mime, data)) => "data:"@ + mime@ + ";baseW64,"@ + base64_encoded(data@),
                    None => Seq::empty(),
                })
            } else {
                (None, Seq::empty())
            },
            None => (None, Seq::empty()),
        }
    } else {
        (None, path)
    }
}

pub open spec fn image_entry_view(e: ImageEntry) -> (Option<Seq<char>>, Seq<char>) {
    (match e.name {
        Some(n) => Some(n@),
        None => None,
    }, e.uri@)
}

fn strip_stars(path: &Vec<char>) -> (r: Vec<char>)
    ensures
        r@ == after_stars(path@),
{
    assert(path@.skip(0) =~= path@);
    let mut i: usize = 0;
    while i < path.len() && path[i] == '*'
        invariant
            i <= path@.len(),
            after_stars(path@) == after_stars(path@.skip(i as int)),
        decreases path@.len() - i,
    {
        assert(path@.skip(i as int).drop_first() =~= path@.skip(i + 1));
        i = i + 1;
    }
    assert(after_stars(path@.skip(i as int)) == path@.skip(i as int));
    crate::text::sub_chars(path, i, path.len())
}

fn append_chars(dst: &mut Vec<char>, s: &str)
    ensures
        final(dst)@ == old(dst)@ + s@,
{
    let c = chars_of(s);
    let mut i: usize = 0;
    while i < c.len()
        invariant
            c@ == s@,
            i <= c@.len(),
            dst@ == old(dst)@ + c@.take(i as int),
        decreases c@.len() - i,
    {
        dst.push(c[i]);
        assert(c@.take(i + 1) =~= c@.take(i as int).push(c@[i as int]));
        i = i + 1;
    }
    assert(c@.take(c@.len() as int) =~= c@);
}

/// The image of a texture slot.
fn image_for(textures: &Vec<EmbeddedTextureExport>, path: &String) -> (r: ImageEntry)
    ensures
        image_entry_view(r) == image_spec(textures@, path@),
{
    let p = chars_of(path.as_str());
    if p.len() > 0 && p[0] == '*' {
        let digits = strip_stars(&p);
        match parse_usize(&digits) {
            Some(n) => {
                if n <= 0xffff_ffffusize && n < textures.len() {
                    let t = &textures[n];
                    let uri = match &t.exported {
                        Some((mime, data)) => {
                            let mut u: Vec<char> = Vec::new();
                            append_chars(&mut u, "data:");
                            append_chars(&mut u, mime.as_str());
                            append_chars(&mut u, ";baseW64,");
                            let enc = base64_encode(data);
                            append_chars(&mut u, enc.as_str());
                            proof {
                                reveal_strlit("data:");
                                reveal_strlit(";baseW64,");
                            }
                            string_from_chars(&u)
                        },
                        None => String::new(),
                    };
                    ImageEntry { name: Some(t.filename.clone()), uri }
                } else {
                    ImageEntry { name: None, uri: String::new() }
                }
            },
            None => ImageEntry { name: None, uri: String::new() },
        }
    } else {
        ImageEntry { name: None, uri: path.clone() }
    }
}

/// The names of the texture, sampler and image created for a slot, in
/// the order they are asked for, with the name table after them.
pub open spec fn slot_names(keys: Seq<Seq<char>>, cs: Seq<u32>) -> (Seq<Seq<char>>, Seq<Seq<char>>, Seq<u32>) {
    let t = unique_name_spec(keys, cs, "texture"@);
    let s = unique_name_spec(t.1, t.2, "sampler"@);
    let i = unique_name_spec(s.1, s.2, "image"@);
    (seq![t.0, s.0, i.0], i.1, i.2)
}

/// The texture file a material slot names, when it names a non-empty one.
pub open spec fn slot_path(ps: Seq<PropView>, sem: TextureType) -> Option<Seq<char>> {
    match text_of(find_prop(ps, "$tex.file"@, sem, 0)) {
        Some(p) => if p.len() > 0 { Some(p) } else { None },
        None => None,
    }
}

/// An optional text, as a value.
pub open spec fn opt_text(o: Option<String>) -> Option<Seq<char>> {
    match o {
        Some(s) => Some(s@),
        None => None,
    }
}

/// The keys after `k` is set: unchanged when present, else `k` last.
pub open spec fn add_key(keys: Seq<Seq<char>>, k: Seq<char>) -> Seq<Seq<char>> {
    if keys.contains(k) { keys } else { keys.push(k) }
}

/// What exporting material textures has built, as a value: the name
/// table, and each table's keys in order with its entries.
pub struct TextureExportState {
    pub name_keys: Seq<Seq<char>>,
    pub name_counters: Seq<u32>,
    pub sampler_keys: Seq<Seq<char>>,
    pub samplers: Map<Seq<char>, SamplerEntry>,
    pub image_keys: Seq<Seq<char>>,
    pub images: Map<Seq<char>, (Option<Seq<char>>, Seq<char>)>,
    pub texture_keys: Seq<Seq<char>>,
    pub textures: Map<Seq<char>, (Seq<char>, Seq<char>)>,
    pub path_keys: Seq<Seq<char>>,
    pub by_path: Map<Seq<char>, Seq<char>>,
}

pub open spec fn texture_entry_view(t: TextureEntry) -> (Seq<char>, Seq<char>) {
    (t.source@, t.sampler@)
}

impl MaterialTextureExport {
    /// What has been built, as a value.
    pub open spec fn state(&self) -> TextureExportState {
        TextureExportState {
            name_keys: self.names.key_seq(),
            name_counters: self.names.counter_seq(),
            sampler_keys: self.samplers.keys(),
            samplers: self.samplers.as_map(),
            image_keys: self.images.keys(),
            images: self.images.as_map().map_values(|e: ImageEntry| image_entry_view(e)),
            texture_keys: self.textures.keys(),
            textures: self.textures.as_map().map_values(|t: TextureEntry| texture_entry_view(t)),
            path_keys: self.textures_by_path.keys(),
            by_path: self.textures_by_path.as_map().map_values(|s: String| s@),
        }
    }
}

/// What exporting the texture of a material slot gives and leaves (see
/// `export_material_texture`); `has_color_key` says whether the
/// material's values hold the slot's colour key.
pub open spec fn slot_spec(
    st: TextureExportState,
    ts: Seq<EmbeddedTextureExport>,
    ps: Seq<PropView>,
    has_color_key: bool,
    sem: TextureType,
) -> (Option<Seq<char>>, TextureExportState) {
    match slot_path(ps, sem) {
        None => (None, st),
        Some(path) => if has_color_key {
            (if path[0] != '*' && st.by_path.dom().contains(path) { Some(st.by_path[path]) } else { None }, st)
        } else {
            let n = slot_names(st.name_keys, st.name_counters);
            (
                Some(n.0[0]),
                TextureExportState {
                    name_keys: n.1,
                    name_counters: n.2,
                    sampler_keys: add_key(st.sampler_keys, n.0[1]),
                    samplers: st.samplers.insert(n.0[1], sampler_spec(ps, sem)),
                    image_keys: add_key(st.image_keys, n.0[2]),
                    images: st.images.insert(n.0[2], image_spec(ts, path)),
                    texture_keys: add_key(st.texture_keys, n.0[0]),
                    textures: st.textures.insert(n.0[0], (n.0[2], n.0[1])),
                    path_keys: add_key(st.path_keys, path),
                    by_path: st.by_path.insert(path, n.0[0]),
                },
            )
        },
    }
}

/// Exports the texture of a material slot (texture type `sem`) and returns
/// the texture name the material's parameter `property` is set to. Without
/// a non-empty texture path: nothing. When the material's values already
/// hold the slot's colour key: the texture exported before for the same
/// (non-embedded) path, if any, and nothing new. Otherwise a new texture,
/// sampler and image are added under fresh names, and the path is
/// recorded with the new texture.
pub fn export_material_texture<V>(
    st: &mut MaterialTextureExport,
    scene_textures: &Vec<EmbeddedTextureExport>,
    props: &Vec<MaterialProperty>,
    values: &TextMap<V>,
    color_key: &str,
    sem: TextureType,
) -> (r: Option<String>)
    requires
        old(st).wf(),
        values.wf(),
        old(st).names.key_seq().len() + old(st).names.calls() + 6 < u32::MAX,
    ensures
        final(st).wf(),
        final(st).names.calls() <= old(st).names.calls() + 3,
        final(st).names.key_seq().len() <= old(st).names.key_seq().len() + 3,
        (opt_text(r), final(st).state())
            == slot_spec(old(st).state(), scene_textures@, props_of(props@), values.as_map().dom().contains(color_key@), sem),
{
    let ghost ps = props_of(props@);
    let path = match text_value(find_property(props, "$tex.file", sem, 0)) {
        Some(p) => p,
        None => {
            return None;
        },
    };
    if crate::text::string_is_empty(&path) {
        return None;
    }
    assert(slot_path(ps, sem) == Some(path@));
    match values.get(color_key) {
        Some(_) => {
            let p = chars_of(path.as_str());
            assert(p@[0] == path@[0]);
            if p[0] != '*' {
                match st.textures_by_path.get(path.as_str()) {
                    Some(t) => {
                        return Some(t.clone());
                    },
                    None => {
                        return None;
                    },
                }
            }
            return None;
        },
        None => {},
    }
    let ghost k0 = st.names.key_seq();
    let ghost c0 = st.names.counter_seq();
    let ghost s0 = st.state();
    proof { st.names.lemma_counters_have_room(); }
    let texture_name = generate_unique_name("texture", &mut st.names);
    let ghost bp = st.textures_by_path.as_map();
    st.textures_by_path.insert(path.clone(), texture_name.clone());
    proof { st.names.lemma_counters_have_room(); }
    let sampler_name = generate_unique_name("sampler", &mut st.names);
    let sampler = SamplerEntry {
        wrap_s: wrap_value(binary_value(find_property(props, "$tex.mapmodeu", sem, 0))),
        wrap_t: wrap_value(binary_value(find_property(props, "$tex.mapmodev", sem, 0))),
    };
    st.samplers.insert(sampler_name.clone(), sampler);
    proof { st.names.lemma_counters_have_room(); }
    let source_name = generate_unique_name("image", &mut st.names);
    let image = image_for(scene_textures, &path);
    let ghost iv = image_entry_view(image);
    let ghost im = st.images.as_map();
    st.images.insert(source_name.clone(), image);
    let ghost tm = st.textures.as_map();
    let tex = TextureEntry { source: source_name.clone(), sampler: sampler_name.clone() };
    let ghost tv = texture_entry_view(tex);
    st.textures.insert(texture_name.clone(), tex);
    proof {
        let n = slot_names(k0, c0);
        assert(n.0[0] == texture_name@);
        assert(n.0[1] == sampler_name@);
        assert(n.0[2] == source_name@);
        let want = slot_spec(s0, scene_textures@, ps, false, sem).1;
        assert(st.state().by_path =~= want.by_path);
        assert(st.state().images =~= want.images);
        assert(st.state().textures =~= want.textures);
    }
    Some(texture_name)
}

/// The value of a parameter of an exported glTF 1.0 material: a colour, a
/// texture name, a flag or a number.
pub enum ParamValue<C, N> {
    Color(C),
    Texture(String),
    Flag(bool),
    Number(N),
}

/// A parameter value, as a value.
pub enum ParamView<C, N> {
    Color(C),
    Texture(Seq<char>),
    Flag(bool),
    Number(N),
}

pub open spec fn param_view<C, N>(v: ParamValue<C, N>) -> ParamView<C, N> {
    match v {
        ParamValue::Color(c) => ParamView::Color(c),
        ParamValue::Texture(t) => ParamView::Texture(t@),
        ParamValue::Flag(b) => ParamView::Flag(b),
        ParamValue::Number(n) => ParamView::Number(n),
    }
}

/// The parameters of a material, as keys in order and values.
pub open spec fn values_view<C, N>(t: TextMap<ParamValue<C, N>>) -> (Seq<Seq<char>>, Map<Seq<char>, ParamView<C, N>>) {
    (t.keys(), t.as_map().map_values(|v: ParamValue<C, N>| param_view(v)))
}

/// A scene material as the glTF 1.0 exporter reads it: its properties, its
/// ambient, diffuse, specular and emissive colours, whether it is two
/// sided, its opacity with whether that differs from 1, and its shininess.
pub struct MaterialInput<C, N> {
    pub props: Vec<MaterialProperty>,
    pub ambient: Option<C>,
    pub diffuse: Option<C>,
    pub specular: Option<C>,
    pub emissive: Option<C>,
    pub two_sided: Option<bool>,
    pub opacity: Option<(N, bool)>,
    pub shininess: Option<N>,
}

/// An exported glTF 1.0 material: its name and parameters.
pub struct ExportedMaterial<C, N> {
    pub name: String,
    pub values: TextMap<ParamValue<C, N>>,
}

/// The parameters after `k` is set to `x`.
pub open spec fn put<C, N>(v: (Seq<Seq<char>>, Map<Seq<char>, ParamView<C, N>>), k: Seq<char>, x: ParamView<C, N>)
    -> (Seq<Seq<char>>, Map<Seq<char>, ParamView<C, N>>)
{
    (add_key(v.0, k), v.1.insert(k, x))
}

/// One colour-and-texture slot of a material: the colour, when there is
/// one, then the texture of the slot, when it gives one, under the
/// parameter `prop`.
pub open spec fn slot_values<C, N>(
    v: (Seq<Seq<char>>, Map<Seq<char>, ParamView<C, N>>),
    st: TextureExportState,
    ts: Seq<EmbeddedTextureExport>,
    ps: Seq<PropView>,
    prop: Seq<char>,
    color_key: Seq<char>,
    color: Option<C>,
    sem: TextureType,
) -> ((Seq<Seq<char>>, Map<Seq<char>, ParamView<C, N>>), TextureExportState) {
    let v1 = match color {
        Some(c) => put(v, prop, ParamView::Color(c)),
        None => v,
    };
    let t = slot_spec(st, ts, ps, v1.1.dom().contains(color_key), sem);
    (match t.0 {
        Some(name) => put(v1, prop, ParamView::Texture(name)),
        None => v1,
    }, t.1)
}

/// The export of one material: its unique name (asked for as its name
/// property, or `material`), its ambient, diffuse, specular and emission
/// slots, then `doubleSided`, `transparency` (with `transparent` when the
/// opacity is not 1) and `shininess` when the material has them.
pub open spec fn material_spec<C, N>(st: TextureExportState, ts: Seq<EmbeddedTextureExport>, m: MaterialInput<C, N>)
    -> (Seq<char>, (Seq<Seq<char>>, Map<Seq<char>, ParamView<C, N>>), TextureExportState)
{
    let ps = props_of(m.props@);
    let u = unique_name_spec(st.name_keys, st.name_counters, material_base_name(ps));
    let st1 = TextureExportState { name_keys: u.1, name_counters: u.2, ..st };
    let v0 = (Seq::<Seq<char>>::empty(), Map::<Seq<char>, ParamView<C, N>>::empty());
    let a = slot_values(v0, st1, ts, ps, "ambient"@, "$clr.ambient"@, m.ambient, TextureType::Ambient);
    let d = slot_values(a.0, a.1, ts, ps, "diffuse"@, "$clr.diffuse"@, m.diffuse, TextureType::Diffuse);
    let sp = slot_values(d.0, d.1, ts, ps, "specular"@, "$clr.specular"@, m.specular, TextureType::Specular);
    let e = slot_values(sp.0, sp.1, ts, ps, "emission"@, "$clr.emissive"@, m.emissive, TextureType::Emissive);
    let v6 = match m.two_sided {
        Some(b) => put(e.0, "doubleSided"@, ParamView::Flag(b)),
        None => e.0,
    };
    let v7 = match m.opacity {
        Some((o, not_one)) => {
            let w = put(v6, "transparency"@, ParamView::Number(o));
            if not_one { put(w, "transparent"@, ParamView::Flag(true)) } else { w }
        },
        None => v6,
    };
    let v8 = match m.shininess {
        Some(x) => put(v7, "shininess"@, ParamView::Number(x)),
        None => v7,
    };
    (u.0, v8, e.1)
}

/// The export of the materials `ms`, in order.
pub open spec fn materials_spec<C, N>(st: TextureExportState, ts: Seq<EmbeddedTextureExport>, ms: Seq<MaterialInput<C, N>>)
    -> (Seq<(Seq<char>, (Seq<Seq<char>>, Map<Seq<char>, ParamView<C, N>>))>, TextureExportState)
    decreases ms.len(),
{
    if ms.len() == 0 {
        (Seq::empty(), st)
    } else {
        let r = materials_spec(st, ts, ms.drop_last());
        let m = material_spec(r.1, ts, ms.last());
        (r.0.push((m.0, m.1)), m.2)
    }
}

fn text_of_str(s: &str) -> (r: String)
    ensures
        r@ == s@,
{
    string_from_chars(&chars_of(s))
}

fn put_value<C, N>(values: &mut TextMap<ParamValue<C, N>>, key: &str, x: ParamValue<C, N>)
    requires
        old(values).wf(),
    ensures
        final(values).wf(),
        values_view(*final(values)) == put(values_view(*old(values)), key@, param_view(x)),
{
    let ghost v0 = values_view(*values);
    let ghost m0 = values.as_map();
    values.insert(text_of_str(key), x);
    assert(values.as_map().map_values(|v: ParamValue<C, N>| param_view(v))
        =~= m0.map_values(|v: ParamValue<C, N>| param_view(v)).insert(key@, param_view(x)));
}

fn export_slot<C: Copy, N: Copy>(
    values: &mut TextMap<ParamValue<C, N>>,
    st: &mut MaterialTextureExport,
    ts: &Vec<EmbeddedTextureExport>,
    props: &Vec<MaterialProperty>,
    prop: &str,
    color_key: &str,
    color: Option<C>,
    sem: TextureType,
)
    requires
        old(values).wf(),
        old(st).wf(),
        old(st).names.key_seq().len() + old(st).names.calls() + 6 < u32::MAX,
    ensures
        final(values).wf(),
        final(st).wf(),
        final(st).names.calls() <= old(st).names.calls() + 3,
        final(st).names.key_seq().len() <= old(st).names.key_seq().len() + 3,
        (values_view(*final(values)), final(st).state())
            == slot_values(values_view(*old(values)), old(st).state(), ts@, props_of(props@), prop@, color_key@, color, sem),
{
    match color {
        Some(c) => put_value(values, prop, ParamValue::Color(c)),
        None => {},
    }
    proof {
        values.lemma_dom_is_keys(color_key@);
    }
    match export_material_texture(st, ts, props, values, color_key, sem) {
        Some(t) => put_value(values, prop, ParamValue::Texture(t)),
        None => {},
    }
}

/// Exports one material (see `material_spec`), or fails, changing
/// nothing, when its stored name is not UTF-8.
pub fn export_material<C: Copy, N: Copy>(
    st: &mut MaterialTextureExport,
    ts: &Vec<EmbeddedTextureExport>,
    m: &MaterialInput<C, N>,
) -> (r: Result<ExportedMaterial<C, N>, MaterialNameError>)
    requires
        old(st).wf(),
        old(st).names.key_seq().len() + old(st).names.calls() + 32 < u32::MAX,
    ensures
        final(st).wf(),
        r is Ok <==> material_name_readable(props_of(m.props@)),
        match r {
            Ok(e) => {
                &&& e.values.wf()
                &&& final(st).names.calls() <= old(st).names.calls() + 13
                &&& final(st).names.key_seq().len() <= old(st).names.key_seq().len() + 13
                &&& (e.name@, values_view(e.values), final(st).state()) == material_spec(old(st).state(), ts@, *m)
            },
            Err(_) => *final(st) == *old(st),
        },
{
    let ghost s0 = st.state();
    let name = match crate::gltf2::material_export::material_name(&m.props, &mut st.names) {
        Ok(n) => n,
        Err(e) => {
            return Err(e);
        },
    };
    assert(st.state() == TextureExportState { name_keys: st.names.key_seq(), name_counters: st.names.counter_seq(), ..s0 });
    let mut values: TextMap<ParamValue<C, N>> = TextMap::new();
    assert(values_view(values) =~= (Seq::<Seq<char>>::empty(), Map::<Seq<char>, ParamView<C, N>>::empty()));
    export_slot(&mut values, st, ts, &m.props, "ambient", "$clr.ambient", m.ambient, TextureType::Ambient);
    export_slot(&mut values, st, ts, &m.props, "diffuse", "$clr.diffuse", m.diffuse, TextureType::Diffuse);
    export_slot(&mut values, st, ts, &m.props, "specular", "$clr.specular", m.specular, TextureType::Specular);
    export_slot(&mut values, st, ts, &m.props, "emission", "$clr.emissive", m.emissive, TextureType::Emissive);
    match m.two_sided {
        Some(b) => put_value(&mut values, "doubleSided", ParamValue::Flag(b)),
        None => {},
    }
    match m.opacity {
        Some((o, not_one)) => {
            put_value(&mut values, "transparency", ParamValue::Number(o));
            if not_one {
                put_value(&mut values, "transparent", ParamValue::Flag(true));
            }
        },
        None => {},
    }
    match m.shininess {
        Some(x) => put_value(&mut values, "shininess", ParamValue::Number(x)),
        None => {},
    }
    Ok(ExportedMaterial { name, values })
}

/// Whether the stored names of all the materials can be read.
pub open spec fn names_readable<C, N>(ms: Seq<MaterialInput<C, N>>) -> bool {
    forall|j: int| 0 <= j < ms.len() ==> material_name_readable(props_of((#[trigger] ms[j]).props@))
}

/// Exports the materials of a scene, in order (see `materials_spec`): the
/// material at each position is exported under the returned name. The
/// export stops at the first material whose stored name is not UTF-8;
/// what was exported before it stays exported.
pub fn export_materials<C: Copy, N: Copy>(
    st: &mut MaterialTextureExport,
    ts: &Vec<EmbeddedTextureExport>,
    materials: &Vec<MaterialInput<C, N>>,
) -> (r: Result<Vec<ExportedMaterial<C, N>>, MaterialNameError>)
    requires
        old(st).wf(),
        old(st).names.key_seq().len() + old(st).names.calls() + 26 * materials@.len() + 32 < u32::MAX,
    ensures
        final(st).wf(),
        r is Ok <==> names_readable(materials@),
        match r {
            Ok(v) => {
                let w = materials_spec(old(st).state(), ts@, materials@);
                &&& forall|i: int| 0 <= i < v@.len() ==> (#[trigger] v@[i]).values.wf()
                &&& Seq::new(v@.len(), |i: int| (v@[i].name@, values_view(v@[i].values))) == w.0
                &&& final(st).state() == w.1
            },
            Err(_) => exists|k: int| {
                &&& 0 <= k < materials@.len()
                &&& names_readable(materials@.take(k))
                &&& !material_name_readable(props_of((#[trigger] materials@[k]).props@))
                &&& final(st).state() == materials_spec(old(st).state(), ts@, materials@.take(k)).1
            },
        },
{
    let ghost s0 = st.state();
    let ghost used0 = st.names.key_seq().len() + st.names.calls();
    let mut r: Vec<ExportedMaterial<C, N>> = Vec::new();
    let mut i: usize = 0;
    assert(materials@.take(0) =~= Seq::<MaterialInput<C, N>>::empty());
    assert(Seq::new(r@.len(), |j: int| (r@[j].name@, values_view(r@[j].values))) =~= Seq::empty());
    while i < materials.len()
        invariant
            st.wf(),
            s0 == old(st).state(),
            i <= materials@.len(),
            used0 + 26 * materials@.len() + 32 < u32::MAX,
            st.names.key_seq().len() + st.names.calls() <= used0 + 26 * i,
            names_readable(materials@.take(i as int)),
            forall|j: int| 0 <= j < r@.len() ==> (#[trigger] r@[j]).values.wf(),
            ({
                let w = materials_spec(s0, ts@, materials@.take(i as int));
                &&& Seq::new(r@.len(), |j: int| (r@[j].name@, values_view(r@[j].values))) == w.0
                &&& st.state() == w.1
            }),
        decreases materials@.len() - i,
    {
        assert(materials@.take(i + 1).drop_last() =~= materials@.take(i as int));
        assert(materials@.take(i + 1).last() == materials@[i as int]);
        let ghost rv = Seq::new(r@.len(), |j: int| (r@[j].name@, values_view(r@[j].values)));
        let ghost before = st.state();
        let e = match export_material(st, ts, &materials[i]) {
            Ok(e) => e,
            Err(err) => {
                assert(st.state() == before);
                assert({
                    &&& 0 <= i < materials@.len()
                    &&& names_readable(materials@.take(i as int))
                    &&& !material_name_readable(props_of(materials@[i as int].props@))
                    &&& st.state() == materials_spec(s0, ts@, materials@.take(i as int)).1
                });
                return Err(err);
            },
        };
        let ghost ev = (e.name@, values_view(e.values));
        r.push(e);
        assert(Seq::new(r@.len(), |j: int| (r@[j].name@, values_view(r@[j].values))) =~= rv.push(ev));
        assert forall|j: int| 0 <= j < i + 1 implies material_name_readable(
            props_of((#[trigger] materials@.take(i + 1)[j]).props@),
        ) by {
            if j < i {
                assert(materials@.take(i + 1)[j] == materials@.take(i as int)[j]);
            }
        }
        i = i + 1;
    }
    assert(materials@.take(materials@.len() as int) =~= materials@);
    Ok(r)
}

} // verus!
