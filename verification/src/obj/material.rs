//! The materials of an OBJ file (its MTL library) as scene materials.
//!
//! Every texture a material names is loaded once: the first material slot
//! that names a file registers it, and every slot that names it refers to
//! it as `*<index>`, its position among the registered files.
use vstd::prelude::*;

use crate::scene::{
    MaterialProperty, PropView, ShadingMode, TextureType, byte_prop, byte_view, bytes_prop,
    bytes_view, props_view, shading_code, text_prop, text_view,
};
use crate::text::{decimal, push_decimal, string_from_chars};

verus! {

/// The texture files a set of materials refers to, in the order they were
/// first named; a file's index is its position.
pub struct TextureRegistry {
    names: Vec<String>,
}

/// The text of each entry of a list of strings.
pub open spec fn texts(v: Seq<String>) -> Seq<Seq<char>> {
    Seq::new(v.len(), |i: int| v[i]@)
}

/// Whether no text occurs twice.
pub open spec fn distinct_texts(s: Seq<Seq<char>>) -> bool {
    forall|i: int, j: int| 0 <= i < s.len() && 0 <= j < s.len() && i != j ==> s[i] != s[j]
}

/// The index of `x` among the registered files, or the index it gets when
/// it is registered next.
pub open spec fn texture_index(s: Seq<Seq<char>>, x: Seq<char>) -> int {
    if s.contains(x) {
        choose|i: int| 0 <= i < s.len() && s[i] == x
    } else {
        s.len() as int
    }
}

/// The registered files after `x` is named.
pub open spec fn registered(s: Seq<Seq<char>>, x: Seq<char>) -> Seq<Seq<char>> {
    if s.contains(x) { s } else { s.push(x) }
}

/// How a slot refers to the registered file of index `i`.
pub open spec fn texture_uri(i: nat) -> Seq<char> {
    seq!['*'] + decimal(i)
}

impl TextureRegistry {
    /// The registered file names, by index.
    pub closed spec fn view_names(&self) -> Seq<Seq<char>> {
        texts(self.names@)
    }

    /// No file is registered twice.
    pub closed spec fn wf(&self) -> bool {
        distinct_texts(texts(self.names@))
    }

    /// A registry with no file.
    pub fn new() -> (r: TextureRegistry)
        ensures
            r.wf(),
            r.view_names() == Seq::<Seq<char>>::empty(),
    {
        let r = TextureRegistry { names: Vec::new() };
        assert(texts(r.names@) =~= Seq::<Seq<char>>::empty());
        r
    }

    /// The registered file names, by index.
    pub fn names(&self) -> (v: &Vec<String>)
        ensures
            texts(v@) == self.view_names(),
    {
        &self.names
    }

    /// The index of `name`, if it is registered.
    pub fn lookup(&self, name: &String) -> (r: Option<usize>)
        requires
            self.wf(),
        ensures
            match r {
                Some(i) => self.view_names().contains(name@) && i == texture_index(self.view_names(), name@),
                None => !self.view_names().contains(name@),
            },
    {
        let ghost s = self.view_names();
        let mut i: usize = 0;
        while i < self.names.len()
            invariant
                s == texts(self.names@),
                distinct_texts(s),
                i <= self.names.len(),
                forall|k: int| 0 <= k < i ==> s[k] != name@,
            decreases self.names.len() - i,
        {
            if self.names[i] == *name {
                assert(s[i as int] == name@);
                let ghost c = choose|j: int| 0 <= j < s.len() && s[j] == name@;
                assert(c == i);
                return Some(i);
            }
            i = i + 1;
        }
        None
    }

    /// Names a file: registers it when it is new. Gives its index and
    /// whether it was new.
    pub fn register(&mut self, name: &String) -> (r: (usize, bool))
        requires
            old(self).wf(),
        ensures
            final(self).wf(),
            final(self).view_names() == registered(old(self).view_names(), name@),
            r.0 == texture_index(old(self).view_names(), name@),
            r.1 == !old(self).view_names().contains(name@),
            r.0 < final(self).view_names().len(),
            final(self).view_names()[r.0 as int] == name@,
    {
        match self.lookup(name) {
            Some(i) => {
                let ghost s = self.view_names();
                let ghost c = choose|j: int| 0 <= j < s.len() && s[j] == name@;
                (i, false)
            },
            None => {
                let ghost s = self.view_names();
                let i = self.names.len();
                self.names.push(name.clone());
                assert(texts(self.names@) =~= s.push(name@));
                (i, true)
            },
        }
    }
}

/// Naming a file keeps the registry free of repeats, and the index handed
/// out for a name refers back to it, now and after it is named again.
pub proof fn lemma_registered_refers_back(s: Seq<Seq<char>>, x: Seq<char>)
    requires
        distinct_texts(s),
    ensures
        distinct_texts(registered(s, x)),
        0 <= texture_index(s, x) < registered(s, x).len(),
        registered(s, x)[texture_index(s, x)] == x,
        texture_index(registered(s, x), x) == texture_index(s, x),
        registered(registered(s, x), x) == registered(s, x),
{
    let r = registered(s, x);
    if s.contains(x) {
        let i = choose|i: int| 0 <= i < s.len() && s[i] == x;
    } else {
        assert(r[s.len() as int] == x);
        assert(r.contains(x));
        let j = choose|j: int| 0 <= j < r.len() && r[j] == x;
        if j < s.len() {
            assert(s[j] == x);
        }
        assert(j == s.len());
    }
}

/// `*<index>`, how a slot refers to the registered file of that index.
pub fn texture_uri_string(index: usize) -> (s: String)
    ensures
        s@ == texture_uri(index as nat),
{
    let mut v: Vec<char> = Vec::new();
    v.push('*');
    push_decimal(&mut v, index);
    assert(v@ =~= texture_uri(index as nat));
    string_from_chars(&v)
}

/// A material of an MTL library. Colours and numbers come already encoded
/// as the bytes the scene stores (a colour as four little-endian floats, a
/// number as one).
pub struct ObjMaterialInput {
    pub name: String,
    pub ambient: Option<Vec<u8>>,
    pub diffuse: Option<Vec<u8>>,
    pub specular: Option<Vec<u8>>,
    pub shininess: Option<Vec<u8>>,
    pub dissolve: Option<Vec<u8>>,
    pub optical_density: Option<Vec<u8>>,
    pub illumination_model: Option<u8>,
    pub ambient_texture: Option<String>,
    pub diffuse_texture: Option<String>,
    pub specular_texture: Option<String>,
    pub normal_texture: Option<String>,
    pub dissolve_texture: Option<String>,
    pub shininess_texture: Option<String>,
}

/// The shading an MTL illumination model asks for: `0` flat, `1` Gouraud,
/// `2` Phong, and Gouraud for any other or none.
pub open spec fn obj_shading(illum: Option<u8>) -> ShadingMode {
    match illum {
        Some(0) => ShadingMode::Flat,
        Some(1) => ShadingMode::Gouraud,
        Some(2) => ShadingMode::Phong,
        _ => ShadingMode::Gouraud,
    }
}

/// The shading an MTL illumination model asks for.
pub fn shading_for_illumination(illum: Option<u8>) -> (m: ShadingMode)
    ensures
        m == obj_shading(illum),
{
    match illum {
        Some(0) => ShadingMode::Flat,
        Some(1) => ShadingMode::Gouraud,
        Some(2) => ShadingMode::Phong,
        _ => ShadingMode::Gouraud,
    }
}

/// The property for an optional encoded value (none when it is absent).
pub open spec fn opt_bytes(key: Seq<char>, v: Option<Vec<u8>>) -> Seq<PropView> {
    match v {
        Some(b) => seq![bytes_view(key, TextureType::NoTexture, b@)],
        None => Seq::empty(),
    }
}

/// The registered files after an optional texture slot is filled.
pub open spec fn after_slot(s: Seq<Seq<char>>, tex: Option<String>) -> Seq<Seq<char>> {
    match tex {
        Some(t) => registered(s, t@),
        None => s,
    }
}

/// The property of an optional texture slot, given the registered files
/// before the slot is filled.
pub open spec fn slot_props(s: Seq<Seq<char>>, tex: Option<String>, slot: TextureType) -> Seq<PropView> {
    match tex {
        Some(t) => seq![text_view("$tex.file"@, slot, texture_uri(texture_index(s, t@) as nat))],
        None => Seq::empty(),
    }
}

/// The registered files before each texture slot of `m`, in slot order:
/// ambient, diffuse, specular, opacity, bump (height), shininess.
pub open spec fn slot_states(s: Seq<Seq<char>>, m: ObjMaterialInput) -> Seq<Seq<Seq<char>>> {
    let s1 = after_slot(s, m.ambient_texture);
    let s2 = after_slot(s1, m.diffuse_texture);
    let s3 = after_slot(s2, m.specular_texture);
    let s4 = after_slot(s3, m.dissolve_texture);
    let s5 = after_slot(s4, m.normal_texture);
    let s6 = after_slot(s5, m.shininess_texture);
    seq![s, s1, s2, s3, s4, s5, s6]
}

/// The registered files after every texture slot of `m` is filled.
pub open spec fn after_material(s: Seq<Seq<char>>, m: ObjMaterialInput) -> Seq<Seq<char>> {
    slot_states(s, m)[6]
}

/// The properties of the scene material made from `m`, given the files
/// registered before it, in the order they are added.
pub open spec fn obj_material_props(s: Seq<Seq<char>>, m: ObjMaterialInput) -> Seq<PropView> {
    let st = slot_states(s, m);
    seq![text_view("?mat.name"@, TextureType::NoTexture, m.name@)]
        + opt_bytes("$clr.ambient"@, m.ambient)
        + slot_props(st[0], m.ambient_texture, TextureType::Ambient)
        + opt_bytes("$clr.diffuse"@, m.diffuse)
        + slot_props(st[1], m.diffuse_texture, TextureType::Diffuse)
        + opt_bytes("$clr.specular"@, m.specular)
        + slot_props(st[2], m.specular_texture, TextureType::Specular)
        + opt_bytes("$mat.opacity"@, m.dissolve)
        + slot_props(st[3], m.dissolve_texture, TextureType::Opacity)
        + slot_props(st[4], m.normal_texture, TextureType::Height)
        + seq![byte_view("$mat.shadingm"@, TextureType::NoTexture, shading_code(obj_shading(m.illumination_model)))]
        + seq![byte_view("$mat.illum"@, TextureType::NoTexture,
            match m.illumination_model { Some(v) => v, None => 0u8 })]
        + opt_bytes("$mat.shininess"@, m.shininess)
        + slot_props(st[5], m.shininess_texture, TextureType::Specular)
        + opt_bytes("$mat.refracti"@, m.optical_density)
}

fn push_opt_bytes(props: &mut Vec<MaterialProperty>, key: &str, v: &Option<Vec<u8>>)
    ensures
        props_view(final(props)@) == props_view(old(props)@) + opt_bytes(key@, *v),
{
    let ghost before = props_view(props@);
    match v {
        Some(b) => {
            props.push(bytes_prop(key, TextureType::NoTexture, b.clone()));
            assert(props_view(props@) =~= before + opt_bytes(key@, *v));
        },
        None => {
            assert(props_view(props@) =~= before + opt_bytes(key@, *v));
        },
    }
}

fn push_slot(
    props: &mut Vec<MaterialProperty>,
    registry: &mut TextureRegistry,
    tex: &Option<String>,
    slot: TextureType,
)
    requires
        old(registry).wf(),
    ensures
        final(registry).wf(),
        final(registry).view_names() == after_slot(old(registry).view_names(), *tex),
        props_view(final(props)@) == props_view(old(props)@) + slot_props(old(registry).view_names(), *tex, slot),
{
    let ghost before = props_view(props@);
    match tex {
        Some(t) => {
            let (index, _) = registry.register(t);
            proof { reveal_strlit("$tex.file"); }
            props.push(text_prop("$tex.file", slot, texture_uri_string(index)));
            assert(props_view(props@) =~= before + slot_props(old(registry).view_names(), *tex, slot));
        },
        None => {
            assert(props_view(props@) =~= before + slot_props(old(registry).view_names(), *tex, slot));
        },
    }
}

/// The scene material made from `m`; names its textures in `registry`.
pub fn import_material(m: &ObjMaterialInput, registry: &mut TextureRegistry) -> (props: Vec<MaterialProperty>)
    requires
        old(registry).wf(),
    ensures
        final(registry).wf(),
        final(registry).view_names() == after_material(old(registry).view_names(), *m),
        props_view(props@) == obj_material_props(old(registry).view_names(), *m),
{
    let ghost st = slot_states(registry.view_names(), *m);
    let mut props: Vec<MaterialProperty> = Vec::new();
    props.push(text_prop("?mat.name", TextureType::NoTexture, m.name.clone()));
    let ghost p0 = seq![text_view("?mat.name"@, TextureType::NoTexture, m.name@)];
    assert(props_view(props@) =~= p0);
    push_opt_bytes(&mut props, "$clr.ambient", &m.ambient);
    push_slot(&mut props, registry, &m.ambient_texture, TextureType::Ambient);
    push_opt_bytes(&mut props, "$clr.diffuse", &m.diffuse);
    push_slot(&mut props, registry, &m.diffuse_texture, TextureType::Diffuse);
    push_opt_bytes(&mut props, "$clr.specular", &m.specular);
    push_slot(&mut props, registry, &m.specular_texture, TextureType::Specular);
    push_opt_bytes(&mut props, "$mat.opacity", &m.dissolve);
    push_slot(&mut props, registry, &m.dissolve_texture, TextureType::Opacity);
    push_slot(&mut props, registry, &m.normal_texture, TextureType::Height);
    let ghost p1 = p0
        + opt_bytes("$clr.ambient"@, m.ambient)
        + slot_props(st[0], m.ambient_texture, TextureType::Ambient)
        + opt_bytes("$clr.diffuse"@, m.diffuse)
        + slot_props(st[1], m.diffuse_texture, TextureType::Diffuse)
        + opt_bytes("$clr.specular"@, m.specular)
        + slot_props(st[2], m.specular_texture, TextureType::Specular)
        + opt_bytes("$mat.opacity"@, m.dissolve)
        + slot_props(st[3], m.dissolve_texture, TextureType::Opacity)
        + slot_props(st[4], m.normal_texture, TextureType::Height);
    assert(props_view(props@) == p1);
    let ghost mid = props_view(props@);
    let shading = shading_for_illumination(m.illumination_model);
    props.push(byte_prop("$mat.shadingm", TextureType::NoTexture, shading.code()));
    let illum: u8 = match m.illumination_model {
        Some(v) => v,
        None => 0,
    };
    props.push(byte_prop("$mat.illum", TextureType::NoTexture, illum));
    let ghost p2 = p1
        + seq![byte_view("$mat.shadingm"@, TextureType::NoTexture, shading_code(obj_shading(m.illumination_model)))]
        + seq![byte_view("$mat.illum"@, TextureType::NoTexture,
            match m.illumination_model { Some(v) => v, None => 0u8 })];
    assert(props_view(props@) =~= p2);
    push_opt_bytes(&mut props, "$mat.shininess", &m.shininess);
    push_slot(&mut props, registry, &m.shininess_texture, TextureType::Specular);
    push_opt_bytes(&mut props, "$mat.refracti", &m.optical_density);
    assert(props_view(props@) =~= obj_material_props(st[0], *m));
    props
}

/// The registered files after the materials of `ms` are made in order.
pub open spec fn after_materials(s: Seq<Seq<char>>, ms: Seq<ObjMaterialInput>) -> Seq<Seq<char>>
    decreases ms.len(),
{
    if ms.len() == 0 {
        s
    } else {
        after_material(after_materials(s, ms.drop_last()), ms.last())
    }
}

/// The scene materials of an MTL library, in order, and the texture files
/// they refer to, each listed once in the order first named. Loading those
/// files is left to the caller; material `k` refers to file `i` as `*i`.
pub fn import_materials(materials: &Vec<ObjMaterialInput>) -> (r: (Vec<Vec<MaterialProperty>>, TextureRegistry))
    ensures
        r.1.wf(),
        r.0.len() == materials.len(),
        r.1.view_names() == after_materials(Seq::empty(), materials@),
        forall|k: int| 0 <= k < materials.len() ==> props_view(#[trigger] r.0@[k]@)
            == obj_material_props(after_materials(Seq::empty(), materials@.take(k)), materials@[k]),
{
    let mut registry = TextureRegistry::new();
    let mut out: Vec<Vec<MaterialProperty>> = Vec::new();
    let mut k: usize = 0;
    while k < materials.len()
        invariant
            k <= materials.len(),
            registry.wf(),
            out.len() == k,
            registry.view_names() == after_materials(Seq::empty(), materials@.take(k as int)),
            forall|j: int| 0 <= j < k ==> props_view(#[trigger] out@[j]@)
                == obj_material_props(after_materials(Seq::empty(), materials@.take(j)), materials@[j]),
        decreases materials.len() - k,
    {
        assert(materials@.take(k + 1).drop_last() =~= materials@.take(k as int));
        let props = import_material(&materials[k], &mut registry);
        out.push(props);
        k = k + 1;
    }
    assert(materials@.take(materials.len() as int) =~= materials@);
    (out, registry)
}

/// Whether a material names no texture file.
pub open spec fn no_textures(m: ObjMaterialInput) -> bool {
    &&& m.ambient_texture is None
    &&& m.diffuse_texture is None
    &&& m.specular_texture is None
    &&& m.normal_texture is None
    &&& m.dissolve_texture is None
    &&& m.shininess_texture is None
}

/// The properties of a material that names no texture file: its name,
/// then each colour or value it has, then its shading and illumination
/// model.
pub open spec fn untextured_props(m: ObjMaterialInput) -> Seq<PropView> {
    seq![text_view("?mat.name"@, TextureType::NoTexture, m.name@)]
        + opt_bytes("$clr.ambient"@, m.ambient)
        + opt_bytes("$clr.diffuse"@, m.diffuse)
        + opt_bytes("$clr.specular"@, m.specular)
        + opt_bytes("$mat.opacity"@, m.dissolve)
        + seq![byte_view("$mat.shadingm"@, TextureType::NoTexture, shading_code(obj_shading(m.illumination_model)))]
        + seq![byte_view("$mat.illum"@, TextureType::NoTexture,
            match m.illumination_model { Some(v) => v, None => 0u8 })]
        + opt_bytes("$mat.shininess"@, m.shininess)
        + opt_bytes("$mat.refracti"@, m.optical_density)
}

proof fn lemma_after_untextured(ms: Seq<ObjMaterialInput>)
    requires
        forall|k: int| 0 <= k < ms.len() ==> no_textures(#[trigger] ms[k]),
    ensures
        after_materials(Seq::empty(), ms) == Seq::<Seq<char>>::empty(),
    decreases ms.len(),
{
    if ms.len() > 0 {
        lemma_after_untextured(ms.drop_last());
        assert(no_textures(ms[ms.len() - 1]));
    }
}

/// Importing materials that name no texture file registers no file, and
/// each material gets exactly its name, the colours and values it has, its
/// shading and its illumination model (see `untextured_props`).
pub proof fn lemma_untextured_materials(ms: Seq<ObjMaterialInput>)
    requires
        forall|k: int| 0 <= k < ms.len() ==> no_textures(#[trigger] ms[k]),
    ensures
        after_materials(Seq::empty(), ms) == Seq::<Seq<char>>::empty(),
        forall|k: int| 0 <= k < ms.len()
            ==> obj_material_props(after_materials(Seq::empty(), ms.take(k)), #[trigger] ms[k]) == untextured_props(ms[k]),
{
    lemma_after_untextured(ms);
    assert forall|k: int| 0 <= k < ms.len() implies obj_material_props(after_materials(Seq::empty(), ms.take(k)), #[trigger] ms[k])
        == untextured_props(ms[k]) by {
        let pre = ms.take(k);
        assert forall|j: int| 0 <= j < pre.len() implies no_textures(#[trigger] pre[j]) by {
            assert(pre[j] == ms[j]);
        }
        lemma_after_untextured(pre);
        let m = ms[k];
        assert(obj_material_props(Seq::empty(), m) =~= untextured_props(m));
    }
}

/// How many of `props` have the key `key`.
pub open spec fn key_count(props: Seq<PropView>, key: Seq<char>) -> nat
    decreases props.len(),
{
    if props.len() == 0 {
        0
    } else {
        key_count(props.drop_last(), key) + if props.last().key == key { 1nat } else { 0nat }
    }
}

/// How many properties `opt_bytes(k2, v)` gives with the key `key`.
pub open spec fn opt_count(k2: Seq<char>, v: Option<Vec<u8>>, key: Seq<char>) -> nat {
    if v is Some && k2 == key { 1 } else { 0 }
}

proof fn lemma_key_count_one(x: PropView, key: Seq<char>)
    ensures
        key_count(seq![x], key) == if x.key == key { 1nat } else { 0nat },
{
    assert(seq![x].drop_last() =~= Seq::<PropView>::empty());
    assert(key_count(Seq::<PropView>::empty(), key) == 0);
    assert(seq![x].last() == x);
}

proof fn lemma_key_count_opt(k2: Seq<char>, v: Option<Vec<u8>>, key: Seq<char>)
    ensures
        key_count(opt_bytes(k2, v), key) == opt_count(k2, v, key),
{
    match v {
        Some(b) => lemma_key_count_one(bytes_view(k2, TextureType::NoTexture, b@), key),
        None => {},
    }
}

proof fn lemma_untextured_count(m: ObjMaterialInput, key: Seq<char>)
    ensures
        key_count(untextured_props(m), key) == (if "?mat.name"@ == key { 1nat } else { 0nat })
            + opt_count("$clr.ambient"@, m.ambient, key) + opt_count("$clr.diffuse"@, m.diffuse, key)
            + opt_count("$clr.specular"@, m.specular, key) + opt_count("$mat.opacity"@, m.dissolve, key)
            + (if "$mat.shadingm"@ == key { 1nat } else { 0nat }) + (if "$mat.illum"@ == key { 1nat } else { 0nat })
            + opt_count("$mat.shininess"@, m.shininess, key) + opt_count("$mat.refracti"@, m.optical_density, key),
{
    let p1 = seq![text_view("?mat.name"@, TextureType::NoTexture, m.name@)];
    let p2 = opt_bytes("$clr.ambient"@, m.ambient);
    let p3 = opt_bytes("$clr.diffuse"@, m.diffuse);
    let p4 = opt_bytes("$clr.specular"@, m.specular);
    let p5 = opt_bytes("$mat.opacity"@, m.dissolve);
    let p6 = seq![byte_view("$mat.shadingm"@, TextureType::NoTexture, shading_code(obj_shading(m.illumination_model)))];
    let p7 = seq![byte_view("$mat.illum"@, TextureType::NoTexture, match m.illumination_model { Some(v) => v, None => 0u8 })];
    let p8 = opt_bytes("$mat.shininess"@, m.shininess);
    let p9 = opt_bytes("$mat.refracti"@, m.optical_density);
    assert(untextured_props(m) == p1 + p2 + p3 + p4 + p5 + p6 + p7 + p8 + p9);
    lemma_key_count_one(p1[0], key);
    assert(seq![p1[0]] == p1);
    lemma_key_count_one(p6[0], key);
    assert(seq![p6[0]] == p6);
    lemma_key_count_one(p7[0], key);
    assert(seq![p7[0]] == p7);
    lemma_key_count_opt("$clr.ambient"@, m.ambient, key);
    lemma_key_count_opt("$clr.diffuse"@, m.diffuse, key);
    lemma_key_count_opt("$clr.specular"@, m.specular, key);
    lemma_key_count_opt("$mat.opacity"@, m.dissolve, key);
    lemma_key_count_opt("$mat.shininess"@, m.shininess, key);
    lemma_key_count_opt("$mat.refracti"@, m.optical_density, key);
    lemma_key_count_concat(p1, p2, key);
    lemma_key_count_concat(p1 + p2, p3, key);
    lemma_key_count_concat(p1 + p2 + p3, p4, key);
    lemma_key_count_concat(p1 + p2 + p3 + p4, p5, key);
    lemma_key_count_concat(p1 + p2 + p3 + p4 + p5, p6, key);
    lemma_key_count_concat(p1 + p2 + p3 + p4 + p5 + p6, p7, key);
    lemma_key_count_concat(p1 + p2 + p3 + p4 + p5 + p6 + p7, p8, key);
    lemma_key_count_concat(p1 + p2 + p3 + p4 + p5 + p6 + p7 + p8, p9, key);
}

/// A material that names no texture file gets exactly one name property,
/// one ambient, diffuse and specular colour, opacity, shininess and
/// refraction property each exactly when it has that value (none when it
/// has not), and no texture file property.
pub proof fn lemma_untextured_keys(m: ObjMaterialInput)
    ensures
        key_count(untextured_props(m), "?mat.name"@) == 1,
        key_count(untextured_props(m), "$clr.ambient"@) == if m.ambient is Some { 1nat } else { 0nat },
        key_count(untextured_props(m), "$clr.diffuse"@) == if m.diffuse is Some { 1nat } else { 0nat },
        key_count(untextured_props(m), "$clr.specular"@) == if m.specular is Some { 1nat } else { 0nat },
        key_count(untextured_props(m), "$mat.opacity"@) == if m.dissolve is Some { 1nat } else { 0nat },
        key_count(untextured_props(m), "$mat.shininess"@) == if m.shininess is Some { 1nat } else { 0nat },
        key_count(untextured_props(m), "$mat.refracti"@) == if m.optical_density is Some { 1nat } else { 0nat },
        key_count(untextured_props(m), "$tex.file"@) == 0,
{
    reveal_strlit("?mat.name");
    reveal_strlit("$clr.ambient");
    reveal_strlit("$clr.diffuse");
    reveal_strlit("$clr.specular");
    reveal_strlit("$mat.opacity");
    reveal_strlit("$mat.shadingm");
    reveal_strlit("$mat.illum");
    reveal_strlit("$mat.shininess");
    reveal_strlit("$mat.refracti");
    reveal_strlit("$tex.file");
    assert("?mat.name"@[0] == '?' && "?mat.name"@[1] == 'm' && "?mat.name"@[5] == 'n' && "?mat.name"@[7] == 'm');
    assert("$clr.ambient"@[0] == '$' && "$clr.ambient"@[1] == 'c' && "$clr.ambient"@[5] == 'a' && "$clr.ambient"@[7] == 'b');
    assert("$clr.diffuse"@[0] == '$' && "$clr.diffuse"@[1] == 'c' && "$clr.diffuse"@[5] == 'd' && "$clr.diffuse"@[7] == 'f');
    assert("$clr.specular"@[0] == '$' && "$clr.specular"@[1] == 'c' && "$clr.specular"@[5] == 's' && "$clr.specular"@[7] == 'e');
    assert("$mat.opacity"@[0] == '$' && "$mat.opacity"@[1] == 'm' && "$mat.opacity"@[5] == 'o' && "$mat.opacity"@[7] == 'a');
    assert("$mat.shadingm"@[0] == '$' && "$mat.shadingm"@[1] == 'm' && "$mat.shadingm"@[5] == 's' && "$mat.shadingm"@[7] == 'a');
    assert("$mat.illum"@[0] == '$' && "$mat.illum"@[1] == 'm' && "$mat.illum"@[5] == 'i' && "$mat.illum"@[7] == 'l');
    assert("$mat.shininess"@[0] == '$' && "$mat.shininess"@[1] == 'm' && "$mat.shininess"@[5] == 's' && "$mat.shininess"@[7] == 'i');
    assert("$mat.refracti"@[0] == '$' && "$mat.refracti"@[1] == 'm' && "$mat.refracti"@[5] == 'r' && "$mat.refracti"@[7] == 'f');
    assert("$tex.file"@[0] == '$' && "$tex.file"@[1] == 't' && "$tex.file"@[5] == 'f' && "$tex.file"@[7] == 'l');
    lemma_untextured_count(m, "?mat.name"@);
    lemma_untextured_count(m, "$clr.ambient"@);
    lemma_untextured_count(m, "$clr.diffuse"@);
    lemma_untextured_count(m, "$clr.specular"@);
    lemma_untextured_count(m, "$mat.opacity"@);
    lemma_untextured_count(m, "$mat.shininess"@);
    lemma_untextured_count(m, "$mat.refracti"@);
    lemma_untextured_count(m, "$tex.file"@);
}

/// Every key of `props` starts with `$`.
pub open spec fn dollar_keys(props: Seq<PropView>) -> bool {
    forall|i: int| 0 <= i < props.len() ==> (#[trigger] props[i]).key.len() > 0 && props[i].key[0] == '$'
}

proof fn lemma_key_count_concat(a: Seq<PropView>, b: Seq<PropView>, key: Seq<char>)
    ensures
        key_count(a + b, key) == key_count(a, key) + key_count(b, key),
    decreases b.len(),
{
    if b.len() > 0 {
        assert((a + b).drop_last() =~= a + b.drop_last());
        lemma_key_count_concat(a, b.drop_last(), key);
    } else {
        assert(a + b =~= a);
    }
}

proof fn lemma_key_count_none(a: Seq<PropView>, key: Seq<char>)
    requires
        dollar_keys(a),
        key.len() > 0,
        key[0] != '$',
    ensures
        key_count(a, key) == 0,
    decreases a.len(),
{
    if a.len() > 0 {
        assert(dollar_keys(a.drop_last())) by {
            assert forall|i: int| 0 <= i < a.drop_last().len() implies (#[trigger] a.drop_last()[i]).key.len() > 0
                && a.drop_last()[i].key[0] == '$' by {
                assert(a.drop_last()[i] == a[i]);
            }
        }
        lemma_key_count_none(a.drop_last(), key);
        assert(a.last() == a[a.len() - 1]);
    }
}

proof fn lemma_dollar_concat(a: Seq<PropView>, b: Seq<PropView>)
    requires
        dollar_keys(a),
        dollar_keys(b),
    ensures
        dollar_keys(a + b),
{
    assert forall|i: int| 0 <= i < (a + b).len() implies (#[trigger] (a + b)[i]).key.len() > 0 && (a + b)[i].key[0] == '$' by {
        if i < a.len() {
            assert((a + b)[i] == a[i]);
        } else {
            assert((a + b)[i] == b[i - a.len()]);
        }
    }
}

proof fn lemma_opt_bytes_dollar(key: Seq<char>, v: Option<Vec<u8>>)
    requires
        key.len() > 0,
        key[0] == '$',
    ensures
        dollar_keys(opt_bytes(key, v)),
{
}

proof fn lemma_slot_dollar(s: Seq<Seq<char>>, tex: Option<String>, slot: TextureType)
    ensures
        dollar_keys(slot_props(s, tex, slot)),
{
    reveal_strlit("$tex.file");
}

/// Every material imported from an OBJ file has exactly one name
/// property, its first, which holds the material's name.
pub proof fn lemma_one_name_property(s: Seq<Seq<char>>, m: ObjMaterialInput)
    ensures
        obj_material_props(s, m)[0] == text_view("?mat.name"@, TextureType::NoTexture, m.name@),
        key_count(obj_material_props(s, m), "?mat.name"@) == 1,
{
    reveal_strlit("?mat.name");
    reveal_strlit("$clr.ambient");
    reveal_strlit("$clr.diffuse");
    reveal_strlit("$clr.specular");
    reveal_strlit("$mat.opacity");
    reveal_strlit("$mat.shadingm");
    reveal_strlit("$mat.illum");
    reveal_strlit("$mat.shininess");
    reveal_strlit("$mat.refracti");
    let st = slot_states(s, m);
    let name = seq![text_view("?mat.name"@, TextureType::NoTexture, m.name@)];
    let a1 = opt_bytes("$clr.ambient"@, m.ambient);
    let a2 = slot_props(st[0], m.ambient_texture, TextureType::Ambient);
    let a3 = opt_bytes("$clr.diffuse"@, m.diffuse);
    let a4 = slot_props(st[1], m.diffuse_texture, TextureType::Diffuse);
    let a5 = opt_bytes("$clr.specular"@, m.specular);
    let a6 = slot_props(st[2], m.specular_texture, TextureType::Specular);
    let a7 = opt_bytes("$mat.opacity"@, m.dissolve);
    let a8 = slot_props(st[3], m.dissolve_texture, TextureType::Opacity);
    let a9 = slot_props(st[4], m.normal_texture, TextureType::Height);
    let a10 = seq![byte_view("$mat.shadingm"@, TextureType::NoTexture, shading_code(obj_shading(m.illumination_model)))];
    let a11 = seq![byte_view("$mat.illum"@, TextureType::NoTexture,
        match m.illumination_model { Some(v) => v, None => 0u8 })];
    let a12 = opt_bytes("$mat.shininess"@, m.shininess);
    let a13 = slot_props(st[5], m.shininess_texture, TextureType::Specular);
    let a14 = opt_bytes("$mat.refracti"@, m.optical_density);
    lemma_opt_bytes_dollar("$clr.ambient"@, m.ambient);
    lemma_opt_bytes_dollar("$clr.diffuse"@, m.diffuse);
    lemma_opt_bytes_dollar("$clr.specular"@, m.specular);
    lemma_opt_bytes_dollar("$mat.opacity"@, m.dissolve);
    lemma_opt_bytes_dollar("$mat.shininess"@, m.shininess);
    lemma_opt_bytes_dollar("$mat.refracti"@, m.optical_density);
    lemma_slot_dollar(st[0], m.ambient_texture, TextureType::Ambient);
    lemma_slot_dollar(st[1], m.diffuse_texture, TextureType::Diffuse);
    lemma_slot_dollar(st[2], m.specular_texture, TextureType::Specular);
    lemma_slot_dollar(st[3], m.dissolve_texture, TextureType::Opacity);
    lemma_slot_dollar(st[4], m.normal_texture, TextureType::Height);
    lemma_slot_dollar(st[5], m.shininess_texture, TextureType::Specular);
    assert(dollar_keys(a10));
    assert(dollar_keys(a11));
    let segs = seq![a1, a2, a3, a4, a5, a6, a7, a8, a9, a10, a11, a12, a13, a14];
    assert forall|k: int| 0 <= k < segs.len() implies dollar_keys(#[trigger] segs[k]) by {}
    let p = obj_material_props(s, m);
    assert(p == name + a1 + a2 + a3 + a4 + a5 + a6 + a7 + a8 + a9 + a10 + a11 + a12 + a13 + a14);
    lemma_fold_segments(name, segs);
    assert(fold_segments(name, segs) == p) by {
        reveal_with_fuel(fold_segments, 15);
    }
    assert(name.drop_last() =~= Seq::<PropView>::empty());
    assert(key_count(name.drop_last(), "?mat.name"@) == 0);
    assert(name.last().key == "?mat.name"@);
    assert(key_count(name, "?mat.name"@) == 1);
}

/// `start` followed by each of `segs`, in order.
pub open spec fn fold_segments(start: Seq<PropView>, segs: Seq<Seq<PropView>>) -> Seq<PropView>
    decreases segs.len(),
{
    if segs.len() == 0 {
        start
    } else {
        fold_segments(start, segs.drop_last()) + segs.last()
    }
}

proof fn lemma_fold_segments(start: Seq<PropView>, segs: Seq<Seq<PropView>>)
    requires
        start.len() > 0,
        forall|k: int| 0 <= k < segs.len() ==> dollar_keys(#[trigger] segs[k]),
    ensures
        fold_segments(start, segs)[0] == start[0],
        fold_segments(start, segs).len() >= start.len(),
        key_count(fold_segments(start, segs), "?mat.name"@) == key_count(start, "?mat.name"@),
    decreases segs.len(),
{
    if segs.len() > 0 {
        reveal_strlit("?mat.name");
        let d = segs.drop_last();
        assert forall|k: int| 0 <= k < d.len() implies dollar_keys(#[trigger] d[k]) by {
            assert(d[k] == segs[k]);
        }
        lemma_fold_segments(start, d);
        let f = fold_segments(start, d);
        assert(dollar_keys(segs[segs.len() - 1]));
        lemma_key_count_none(segs.last(), "?mat.name"@);
        lemma_key_count_concat(f, segs.last(), "?mat.name"@);
    }
}

/// Whether the properties file the texture a slot names (if any) under
/// the texture type `ty`, as `$tex.file` referring to the index the file
/// has in the registered files `reg`.
pub open spec fn files_texture(props: Seq<PropView>, reg: Seq<Seq<char>>, tex: Option<String>, ty: TextureType) -> bool {
    tex matches Some(t) ==> exists|i: int| #![trigger reg[i]] 0 <= i < reg.len() && reg[i] == t@
        && props.contains(text_view("$tex.file"@, ty, texture_uri(i as nat)))
}

proof fn lemma_after_slot_keeps(s: Seq<Seq<char>>, tex: Option<String>)
    ensures
        s.len() <= after_slot(s, tex).len(),
        forall|j: int| 0 <= j < s.len() ==> #[trigger] after_slot(s, tex)[j] == s[j],
{
}

proof fn lemma_registered_at(s: Seq<Seq<char>>, x: Seq<char>)
    ensures
        0 <= texture_index(s, x) < registered(s, x).len(),
        registered(s, x)[texture_index(s, x)] == x,
{
    if s.contains(x) {
        let i = choose|i: int| 0 <= i < s.len() && s[i] == x;
    }
}

proof fn lemma_kept_to_end(st: Seq<Seq<Seq<char>>>, os: Seq<Option<String>>, q: int, i: int, x: Seq<char>)
    requires
        st.len() == 7,
        os.len() == 6,
        1 <= q <= 6,
        0 <= i < st[q].len(),
        st[q][i] == x,
        forall|q2: int| #![trigger os[q2]] 0 <= q2 < 6 ==> st[q2 + 1] == after_slot(st[q2], os[q2]),
    ensures
        0 <= i < st[6].len(),
        st[6][i] == x,
    decreases 6 - q,
{
    if q < 6 {
        assert(st[q + 1] == after_slot(st[q], os[q]));
        lemma_after_slot_keeps(st[q], os[q]);
        lemma_kept_to_end(st, os, q + 1, i, x);
    }
}

/// A slot's texture, filed at position `k` of the properties with the
/// index of its file before the slot, is filed with the index it keeps in
/// the files registered after the whole material.
proof fn lemma_slot_filed(props: Seq<PropView>, st: Seq<Seq<Seq<char>>>, os: Seq<Option<String>>, from: int,
    tex: Option<String>, ty: TextureType, k: int)
    requires
        st.len() == 7,
        os.len() == 6,
        0 <= from < 6,
        os[from] == tex,
        forall|q2: int| #![trigger os[q2]] 0 <= q2 < 6 ==> st[q2 + 1] == after_slot(st[q2], os[q2]),
        tex is Some ==> 0 <= k < props.len()
            && props[k] == text_view("$tex.file"@, ty, texture_uri(texture_index(st[from], tex->0@) as nat)),
    ensures
        files_texture(props, st[6], tex, ty),
{
    if let Some(t) = tex {
        let i = texture_index(st[from], t@);
        lemma_registered_at(st[from], t@);
        assert(st[from + 1] == after_slot(st[from], os[from]));
        lemma_kept_to_end(st, os, from + 1, i, t@);
        assert(props[k] == text_view("$tex.file"@, ty, texture_uri(i as nat)));
        assert(st[6][i] == t@);
    }
}

/// Every texture slot of an OBJ material keeps its own texture type: the
/// ambient map is filed as an ambient texture, the diffuse map as a
/// diffuse one, the specular and shininess maps as specular ones, the
/// opacity map as an opacity one and the bump map as a height one, each
/// referring to its file by the index the file has among the registered
/// files after the material.
pub proof fn lemma_slots_keep_their_types(s: Seq<Seq<char>>, m: ObjMaterialInput)
    ensures
        files_texture(obj_material_props(s, m), after_material(s, m), m.ambient_texture, TextureType::Ambient),
        files_texture(obj_material_props(s, m), after_material(s, m), m.diffuse_texture, TextureType::Diffuse),
        files_texture(obj_material_props(s, m), after_material(s, m), m.specular_texture, TextureType::Specular),
        files_texture(obj_material_props(s, m), after_material(s, m), m.dissolve_texture, TextureType::Opacity),
        files_texture(obj_material_props(s, m), after_material(s, m), m.normal_texture, TextureType::Height),
        files_texture(obj_material_props(s, m), after_material(s, m), m.shininess_texture, TextureType::Specular),
{
    let st = slot_states(s, m);
    let p = obj_material_props(s, m);
    let a0 = seq![text_view("?mat.name"@, TextureType::NoTexture, m.name@)];
    let a1 = opt_bytes("$clr.ambient"@, m.ambient);
    let a2 = slot_props(st[0], m.ambient_texture, TextureType::Ambient);
    let a3 = opt_bytes("$clr.diffuse"@, m.diffuse);
    let a4 = slot_props(st[1], m.diffuse_texture, TextureType::Diffuse);
    let a5 = opt_bytes("$clr.specular"@, m.specular);
    let a6 = slot_props(st[2], m.specular_texture, TextureType::Specular);
    let a7 = opt_bytes("$mat.opacity"@, m.dissolve);
    let a8 = slot_props(st[3], m.dissolve_texture, TextureType::Opacity);
    let a9 = slot_props(st[4], m.normal_texture, TextureType::Height);
    let a10 = seq![byte_view("$mat.shadingm"@, TextureType::NoTexture, shading_code(obj_shading(m.illumination_model)))];
    let a11 = seq![byte_view("$mat.illum"@, TextureType::NoTexture,
        match m.illumination_model { Some(v) => v, None => 0u8 })];
    let a12 = opt_bytes("$mat.shininess"@, m.shininess);
    let a13 = slot_props(st[5], m.shininess_texture, TextureType::Specular);
    let a14 = opt_bytes("$mat.refracti"@, m.optical_density);
    assert(p == a0 + a1 + a2 + a3 + a4 + a5 + a6 + a7 + a8 + a9 + a10 + a11 + a12 + a13 + a14);
    let k2 = (a0 + a1).len() as int;
    let k4 = (a0 + a1 + a2 + a3).len() as int;
    let k6 = (a0 + a1 + a2 + a3 + a4 + a5).len() as int;
    let k8 = (a0 + a1 + a2 + a3 + a4 + a5 + a6 + a7).len() as int;
    let k9 = (a0 + a1 + a2 + a3 + a4 + a5 + a6 + a7 + a8).len() as int;
    let k13 = (a0 + a1 + a2 + a3 + a4 + a5 + a6 + a7 + a8 + a9 + a10 + a11 + a12).len() as int;
    if a2.len() > 0 { assert(p[k2] == a2[0]); }
    if a4.len() > 0 { assert(p[k4] == a4[0]); }
    if a6.len() > 0 { assert(p[k6] == a6[0]); }
    if a8.len() > 0 { assert(p[k8] == a8[0]); }
    if a9.len() > 0 { assert(p[k9] == a9[0]); }
    if a13.len() > 0 { assert(p[k13] == a13[0]); }
    assert(st[1] == after_slot(st[0], m.ambient_texture));
    assert(st[2] == after_slot(st[1], m.diffuse_texture));
    assert(st[3] == after_slot(st[2], m.specular_texture));
    assert(st[4] == after_slot(st[3], m.dissolve_texture));
    assert(st[5] == after_slot(st[4], m.normal_texture));
    assert(st[6] == after_slot(st[5], m.shininess_texture));
    let os = seq![m.ambient_texture, m.diffuse_texture, m.specular_texture, m.dissolve_texture, m.normal_texture, m.shininess_texture];
    assert forall|q: int| #![trigger os[q]] 0 <= q < 6 implies st[q + 1] == after_slot(st[q], os[q]) by {
        if q == 0 {} else if q == 1 {} else if q == 2 {} else if q == 3 {} else if q == 4 {} else {}
    }
    assert(after_material(s, m) == st[6]);
    lemma_slot_filed(p, st, os, 0, m.ambient_texture, TextureType::Ambient, k2);
    lemma_slot_filed(p, st, os, 1, m.diffuse_texture, TextureType::Diffuse, k4);
    lemma_slot_filed(p, st, os, 2, m.specular_texture, TextureType::Specular, k6);
    lemma_slot_filed(p, st, os, 3, m.dissolve_texture, TextureType::Opacity, k8);
    lemma_slot_filed(p, st, os, 4, m.normal_texture, TextureType::Height, k9);
    lemma_slot_filed(p, st, os, 5, m.shininess_texture, TextureType::Specular, k13);
}

} // verus!
