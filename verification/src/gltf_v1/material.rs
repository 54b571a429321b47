//! glTF 1.0 materials as scene materials.
use vstd::prelude::*;

use crate::obj::material::{texture_uri, texture_uri_string};
use crate::scene::{
    MaterialProperty, PropView, TextureType, byte_prop, byte_view, bytes_prop, bytes_view,
    props_view, text_prop, text_view,
};
use crate::textmap::TextMap;

verus! {

/// A colour-or-texture value of a glTF 1.0 material.
pub enum TexProperty {
    /// A texture, by the id of its image.
    Texture(String),
    /// A colour, already encoded as the bytes the scene stores.
    Color(Vec<u8>),
}

/// A glTF 1.0 material. Opacity and shininess come already encoded, and
/// only when the material sets them (a transparency other than 1 on a
/// transparent material; a positive shininess).
pub struct GltfMaterialInput {
    pub id: String,
    pub name: Option<String>,
    pub ambient: TexProperty,
    pub diffuse: TexProperty,
    pub specular: TexProperty,
    pub emission: TexProperty,
    pub double_sided: bool,
    pub opacity: Option<Vec<u8>>,
    pub shininess: Option<Vec<u8>>,
}

/// How a material refers to the image `id`: `*<i>` with `i` the index of
/// its embedded texture, else `*<id>`.
pub open spec fn image_uri(tex_ids: Map<Seq<char>, usize>, id: Seq<char>) -> Seq<char> {
    if tex_ids.dom().contains(id) { texture_uri(tex_ids[id] as nat) } else { seq!['*'] + id }
}

/// The property of one colour-or-texture value.
pub open spec fn tex_prop_spec(tex_ids: Map<Seq<char>, usize>, p: TexProperty, slot: TextureType, color_key: Seq<char>) -> PropView {
    match p {
        TexProperty::Texture(id) => text_view("$tex.file"@, slot, image_uri(tex_ids, id@)),
        TexProperty::Color(c) => bytes_view(color_key, TextureType::NoTexture, c@),
    }
}

/// The name property, when there is a name.
pub open spec fn name_props(name: Option<String>) -> Seq<PropView> {
    match name { Some(n) => seq![text_view("?mat.name"@, TextureType::NoTexture, n@)], None => Seq::empty() }
}

/// The property of an optional encoded value.
pub open spec fn opt_props(key: Seq<char>, v: Option<Vec<u8>>) -> Seq<PropView> {
    match v { Some(b) => seq![bytes_view(key, TextureType::NoTexture, b@)], None => Seq::empty() }
}

/// The properties of the scene material made from `m`, in order: name (if
/// any), ambient, diffuse, specular and emission (each a texture file or a
/// colour), two-sidedness, then opacity and shininess when set.
pub open spec fn gltf_material_props(tex_ids: Map<Seq<char>, usize>, m: GltfMaterialInput) -> Seq<PropView> {
    name_props(m.name)
        + seq![
            tex_prop_spec(tex_ids, m.ambient, TextureType::Ambient, "$clr.ambient"@),
            tex_prop_spec(tex_ids, m.diffuse, TextureType::Diffuse, "$clr.diffuse"@),
            tex_prop_spec(tex_ids, m.specular, TextureType::Specular, "$clr.specular"@),
            tex_prop_spec(tex_ids, m.emission, TextureType::Emissive, "$clr.emissive"@),
            byte_view("$mat.twosided"@, TextureType::NoTexture, if m.double_sided { 1u8 } else { 0u8 }),
        ]
        + opt_props("$mat.opacity"@, m.opacity)
        + opt_props("$mat.shininess"@, m.shininess)
}

fn star_id(id: &String) -> (s: String)
    ensures
        s@ == seq!['*'] + id@,
{
    let mut v: Vec<char> = Vec::new();
    v.push('*');
    let c = crate::text::chars_of(id.as_str());
    let mut i: usize = 0;
    while i < c.len()
        invariant
            i <= c.len(),
            v@ == seq!['*'] + c@.take(i as int),
        decreases c.len() - i,
    {
        v.push(c[i]);
        assert(c@.take(i + 1) =~= c@.take(i as int).push(c@[i as int]));
        i = i + 1;
    }
    assert(c@.take(c.len() as int) =~= c@);
    crate::text::string_from_chars(&v)
}

fn tex_prop(tex_ids: &TextMap<usize>, p: &TexProperty, slot: TextureType, color_key: &str) -> (r: MaterialProperty)
    requires
        tex_ids.wf(),
    ensures
        r@ == tex_prop_spec(tex_ids.as_map(), *p, slot, color_key@),
{
    match p {
        TexProperty::Texture(id) => {
            let uri = match tex_ids.get(id.as_str()) {
                Some(i) => texture_uri_string(*i),
                None => star_id(id),
            };
            proof { reveal_strlit("$tex.file"); }
            text_prop("$tex.file", slot, uri)
        },
        TexProperty::Color(c) => bytes_prop(color_key, TextureType::NoTexture, c.clone()),
    }
}

/// The scene material made from a glTF 1.0 material.
pub fn import_material(tex_ids: &TextMap<usize>, m: &GltfMaterialInput) -> (props: Vec<MaterialProperty>)
    requires
        tex_ids.wf(),
    ensures
        props_view(props@) == gltf_material_props(tex_ids.as_map(), *m),
{
    let mut props: Vec<MaterialProperty> = Vec::new();
    match &m.name {
        Some(n) => props.push(text_prop("?mat.name", TextureType::NoTexture, n.clone())),
        None => {},
    }
    let ghost p0 = props_view(props@);
    props.push(tex_prop(tex_ids, &m.ambient, TextureType::Ambient, "$clr.ambient"));
    props.push(tex_prop(tex_ids, &m.diffuse, TextureType::Diffuse, "$clr.diffuse"));
    props.push(tex_prop(tex_ids, &m.specular, TextureType::Specular, "$clr.specular"));
    props.push(tex_prop(tex_ids, &m.emission, TextureType::Emissive, "$clr.emissive"));
    props.push(byte_prop("$mat.twosided", TextureType::NoTexture, if m.double_sided { 1 } else { 0 }));
    let ghost p1 = props_view(props@);
    assert(p1 =~= p0 + seq![
        tex_prop_spec(tex_ids.as_map(), m.ambient, TextureType::Ambient, "$clr.ambient"@),
        tex_prop_spec(tex_ids.as_map(), m.diffuse, TextureType::Diffuse, "$clr.diffuse"@),
        tex_prop_spec(tex_ids.as_map(), m.specular, TextureType::Specular, "$clr.specular"@),
        tex_prop_spec(tex_ids.as_map(), m.emission, TextureType::Emissive, "$clr.emissive"@),
        byte_view("$mat.twosided"@, TextureType::NoTexture, if m.double_sided { 1u8 } else { 0u8 }),
    ]);
    match &m.opacity {
        Some(b) => props.push(bytes_prop("$mat.opacity", TextureType::NoTexture, b.clone())),
        None => {},
    }
    let ghost p2 = props_view(props@);
    match &m.shininess {
        Some(b) => props.push(bytes_prop("$mat.shininess", TextureType::NoTexture, b.clone())),
        None => {},
    }
    proof {
        assert(p2 =~= p1 + opt_props("$mat.opacity"@, m.opacity));
        assert(props_view(props@) =~= p2 + opt_props("$mat.shininess"@, m.shininess));
        assert(p0 =~= name_props(m.name));
    }
    props
}

/// The scene materials of a glTF 1.0 document, in order, and the index of
/// each by material id (a later material of the same id replacing an
/// earlier one).
pub fn import_embedded_materials(materials: &Vec<GltfMaterialInput>, tex_ids: &TextMap<usize>)
    -> (r: (Vec<Vec<MaterialProperty>>, TextMap<usize>))
    requires
        tex_ids.wf(),
    ensures
        r.1.wf(),
        r.0.len() == materials.len(),
        forall|k: int| 0 <= k < materials.len() ==> props_view(#[trigger] r.0@[k]@) == gltf_material_props(tex_ids.as_map(), materials@[k]),
        forall|id: Seq<char>| #[trigger] r.1.as_map().dom().contains(id) <==> exists|k: int| 0 <= k < materials.len() && materials@[k].id@ == id,
        forall|id: Seq<char>| #[trigger] r.1.as_map().dom().contains(id) ==> {
            let k = r.1.as_map()[id] as int;
            &&& 0 <= k < materials.len()
            &&& materials@[k].id@ == id
            &&& forall|j: int| k < j < materials.len() ==> materials@[j].id@ != id
        },
{
    let mut out: Vec<Vec<MaterialProperty>> = Vec::new();
    let mut index: TextMap<usize> = TextMap::new();
    let mut k: usize = 0;
    while k < materials.len()
        invariant
            tex_ids.wf(),
            index.wf(),
            k <= materials.len(),
            out.len() == k,
            forall|j: int| 0 <= j < k ==> props_view(#[trigger] out@[j]@) == gltf_material_props(tex_ids.as_map(), materials@[j]),
            forall|id: Seq<char>| #[trigger] index.as_map().dom().contains(id) <==> exists|j: int| 0 <= j < k && materials@[j].id@ == id,
            forall|id: Seq<char>| #[trigger] index.as_map().dom().contains(id) ==> {
                let j = index.as_map()[id] as int;
                &&& 0 <= j < k
                &&& materials@[j].id@ == id
                &&& forall|l: int| j < l < k ==> materials@[l].id@ != id
            },
        decreases materials.len() - k,
    {
        let m = &materials[k];
        index.insert(m.id.clone(), k);
        out.push(import_material(tex_ids, m));
        proof {
            assert forall|id: Seq<char>| #[trigger] index.as_map().dom().contains(id) <==> exists|j: int| 0 <= j < k + 1 && materials@[j].id@ == id by {
                if id == m.id@ {
                    assert(materials@[k as int].id@ == id);
                }
            }
        }
        k = k + 1;
    }
    (out, index)
}

proof fn lemma_not_two_sided_key(key: Seq<char>)
    requires
        key == "?mat.name"@ || key == "$tex.file"@ || key == "$clr.ambient"@ || key == "$clr.diffuse"@
            || key == "$clr.specular"@ || key == "$clr.emissive"@ || key == "$mat.opacity"@ || key == "$mat.shininess"@,
    ensures
        key != "$mat.twosided"@,
{
    reveal_strlit("?mat.name");
    reveal_strlit("$tex.file");
    reveal_strlit("$clr.ambient");
    reveal_strlit("$clr.diffuse");
    reveal_strlit("$clr.specular");
    reveal_strlit("$clr.emissive");
    reveal_strlit("$mat.opacity");
    reveal_strlit("$mat.shininess");
    reveal_strlit("$mat.twosided");
    let t = "$mat.twosided"@;
    assert(t.len() == 13);
    assert("?mat.name"@.len() != t.len());
    assert("$tex.file"@.len() != t.len());
    assert("$clr.ambient"@.len() != t.len());
    assert("$clr.diffuse"@.len() != t.len());
    assert("$mat.opacity"@.len() != t.len());
    assert("$mat.shininess"@.len() != t.len());
    assert("$clr.specular"@[1] != t[1]);
    assert("$clr.emissive"@[1] != t[1]);
}

/// A glTF 1.0 material is imported two-sided exactly when it is double
/// sided: the imported properties hold a `$mat.twosided` property, and
/// every such property is the byte 1 for a double-sided material and 0
/// for a single-sided one.
pub proof fn lemma_two_sided(tex_ids: Map<Seq<char>, usize>, m: GltfMaterialInput)
    ensures
        ({
            let ps = gltf_material_props(tex_ids, m);
            &&& exists|k: int| 0 <= k < ps.len() && (#[trigger] ps[k]).key == "$mat.twosided"@
            &&& forall|k: int| 0 <= k < ps.len() && (#[trigger] ps[k]).key == "$mat.twosided"@
                ==> ps[k].semantic == TextureType::NoTexture
                    && ps[k].value == crate::scene::ValueView::Byte(if m.double_sided { 1u8 } else { 0u8 })
        }),
{
    let a = name_props(m.name);
    let b = seq![
        tex_prop_spec(tex_ids, m.ambient, TextureType::Ambient, "$clr.ambient"@),
        tex_prop_spec(tex_ids, m.diffuse, TextureType::Diffuse, "$clr.diffuse"@),
        tex_prop_spec(tex_ids, m.specular, TextureType::Specular, "$clr.specular"@),
        tex_prop_spec(tex_ids, m.emission, TextureType::Emissive, "$clr.emissive"@),
        byte_view("$mat.twosided"@, TextureType::NoTexture, if m.double_sided { 1u8 } else { 0u8 }),
    ];
    let c = opt_props("$mat.opacity"@, m.opacity);
    let d = opt_props("$mat.shininess"@, m.shininess);
    let ps = gltf_material_props(tex_ids, m);
    assert(ps == a + b + c + d);
    let n = a.len() as int;
    assert(ps[n + 4] == b[4]);
    assert forall|k: int| 0 <= k < ps.len() && (#[trigger] ps[k]).key == "$mat.twosided"@
        implies ps[k].semantic == TextureType::NoTexture
            && ps[k].value == crate::scene::ValueView::Byte(if m.double_sided { 1u8 } else { 0u8 }) by {
        if k < n {
            assert(ps[k] == a[k]);
            lemma_not_two_sided_key(a[k].key);
        } else if k < n + 4 {
            assert(ps[k] == b[k - n]);
            let j = k - n;
            let (tp, key) = if j == 0 { (m.ambient, "$clr.ambient"@) } else if j == 1 { (m.diffuse, "$clr.diffuse"@) }
                else if j == 2 { (m.specular, "$clr.specular"@) } else { (m.emission, "$clr.emissive"@) };
            match tp {
                TexProperty::Texture(_) => {},
                TexProperty::Color(_) => {},
            }
            lemma_not_two_sided_key(b[j].key);
        } else if k == n + 4 {
        } else if k < n + 5 + c.len() {
            assert(ps[k] == c[k - n - 5]);
            lemma_not_two_sided_key(c[k - n - 5].key);
        } else {
            assert(ps[k] == d[k - n - 5 - c.len()]);
            lemma_not_two_sided_key(d[k - n - 5 - c.len()].key);
        }
    }
}

} // verus!
