//! Scene-level values shared by the importers and exporters.
use vstd::prelude::*;

verus! {

/// The kinds of primitives that the faces of a mesh hold.
#[derive(Clone, Copy, Debug, PartialEq, Eq, Structural)]
pub struct PrimitiveTypes {
    pub point: bool,
    pub line: bool,
    pub triangle: bool,
    pub polygon: bool,
}

impl PrimitiveTypes {
    /// No primitive kind at all.
    pub fn empty() -> (r: PrimitiveTypes)
        ensures
            !r.point && !r.line && !r.triangle && !r.polygon,
    {
        PrimitiveTypes { point: false, line: false, triangle: false, polygon: false }
    }

    /// The flag word: point `1`, line `2`, triangle `4`, polygon `8`.
    pub fn bits(&self) -> (b: u32)
        ensures
            b == (if self.point { 1u32 } else { 0u32 }) + (if self.line { 2u32 } else { 0u32 })
                + (if self.triangle { 4u32 } else { 0u32 }) + (if self.polygon { 8u32 } else { 0u32 }),
    {
        let mut b: u32 = 0;
        if self.point {
            b = b + 1;
        }
        if self.line {
            b = b + 2;
        }
        if self.triangle {
            b = b + 4;
        }
        if self.polygon {
            b = b + 8;
        }
        b
    }
}

/// The index lists of a face list.
pub open spec fn faces_view(faces: Seq<Vec<usize>>) -> Seq<Seq<usize>> {
    Seq::new(faces.len(), |i: int| faces[i]@)
}

/// The index lists of a face list, one after the other.
pub open spec fn flatten(faces: Seq<Seq<usize>>) -> Seq<usize>
    decreases faces.len(),
{
    if faces.len() == 0 { Seq::empty() } else { flatten(faces.drop_last()) + faces.last() }
}

/// `prefix_total(s, k)`: the sum of the first `k` entries of `s`.
pub open spec fn prefix_total(s: Seq<usize>, k: int) -> nat
    decreases k,
{
    if k <= 0 || k > s.len() {
        0
    } else {
        prefix_total(s, k - 1) + s[k - 1] as nat
    }
}

/// The running totals are monotone.
pub proof fn lemma_prefix_total_mono(s: Seq<usize>, j: int, k: int)
    requires
        0 <= j <= k <= s.len(),
    ensures
        prefix_total(s, j) <= prefix_total(s, k),
    decreases k - j,
{
    if j < k {
        lemma_prefix_total_mono(s, j, k - 1);
    }
}

/// The running totals of a sequence extended at its end.
pub proof fn lemma_prefix_total_push(s: Seq<usize>, x: usize, k: int)
    requires
        0 <= k <= s.len(),
    ensures
        prefix_total(s.push(x), k) == prefix_total(s, k),
    decreases k,
{
    if k > 0 {
        lemma_prefix_total_push(s, x, k - 1);
    }
}

} // verus!

verus! {

/// How a material is shaded (the numbering of the scene format).
#[derive(Clone, Copy, Debug, PartialEq, Eq, Structural)]
pub enum ShadingMode {
    Flat,
    Gouraud,
    Phong,
    Blinn,
    Unlit,
    Pbr,
}

/// The code a shading mode is stored under.
pub open spec fn shading_code(m: ShadingMode) -> u8 {
    match m {
        ShadingMode::Flat => 1,
        ShadingMode::Gouraud => 2,
        ShadingMode::Phong => 3,
        ShadingMode::Blinn => 4,
        ShadingMode::Unlit => 9,
        ShadingMode::Pbr => 11,
    }
}

impl ShadingMode {
    /// The code this shading mode is stored under.
    pub fn code(&self) -> (c: u8)
        ensures
            c == shading_code(*self),
    {
        match self {
            ShadingMode::Flat => 1,
            ShadingMode::Gouraud => 2,
            ShadingMode::Phong => 3,
            ShadingMode::Blinn => 4,
            ShadingMode::Unlit => 9,
            ShadingMode::Pbr => 11,
        }
    }
}

/// What a material property or texture slot is about.
#[derive(Clone, Copy, Debug, PartialEq, Eq, Structural)]
pub enum TextureType {
    /// Not about a texture (the scene format's `None`).
    NoTexture,
    Diffuse,
    Specular,
    Ambient,
    Emissive,
    Height,
    Normals,
    Shininess,
    Opacity,
    Displacement,
    Lightmap,
    Reflection,
    BaseColor,
    NormalCamera,
    EmissionColor,
    Metalness,
    DiffuseRoughness,
    AmbientOcclusion,
    Unknown,
}

/// The value of a material property.
#[derive(Debug)]
pub enum PropertyValue {
    /// Text, stored as its UTF-8 bytes.
    Text(String),
    /// Raw bytes (encoded numbers and colours).
    Bytes(Vec<u8>),
    /// One byte.
    Byte(u8),
}

/// One property of a material: a key, the texture slot it is about, the
/// slot's index, and its value.
#[derive(Debug)]
pub struct MaterialProperty {
    pub key: String,
    pub semantic: TextureType,
    pub index: u32,
    pub value: PropertyValue,
}

/// The value of a material property, as a mathematical value.
pub enum ValueView {
    Text(Seq<char>),
    Bytes(Seq<u8>),
    Byte(u8),
}

/// A material property, as a mathematical value.
pub struct PropView {
    pub key: Seq<char>,
    pub semantic: TextureType,
    pub index: u32,
    pub value: ValueView,
}

impl View for MaterialProperty {
    type V = PropView;

    open spec fn view(&self) -> PropView {
        PropView {
            key: self.key@,
            semantic: self.semantic,
            index: self.index,
            value: match self.value {
                PropertyValue::Text(t) => ValueView::Text(t@),
                PropertyValue::Bytes(b) => ValueView::Bytes(b@),
                PropertyValue::Byte(b) => ValueView::Byte(b),
            },
        }
    }
}

/// The views of a property list.
pub open spec fn props_view(ps: Seq<MaterialProperty>) -> Seq<PropView> {
    Seq::new(ps.len(), |i: int| ps[i]@)
}

/// A text property of slot index 0.
pub open spec fn text_view(key: Seq<char>, semantic: TextureType, text: Seq<char>) -> PropView {
    PropView { key, semantic, index: 0, value: ValueView::Text(text) }
}

/// A byte-list property of slot index 0.
pub open spec fn bytes_view(key: Seq<char>, semantic: TextureType, bytes: Seq<u8>) -> PropView {
    PropView { key, semantic, index: 0, value: ValueView::Bytes(bytes) }
}

/// A one-byte property of slot index 0.
pub open spec fn byte_view(key: Seq<char>, semantic: TextureType, byte: u8) -> PropView {
    PropView { key, semantic, index: 0, value: ValueView::Byte(byte) }
}

/// A text property of slot index 0.
pub fn text_prop(key: &str, semantic: TextureType, text: String) -> (p: MaterialProperty)
    ensures
        p@ == text_view(key@, semantic, text@),
{
    MaterialProperty { key: String::from_str(key), semantic, index: 0, value: PropertyValue::Text(text) }
}

/// A byte-list property of slot index 0.
pub fn bytes_prop(key: &str, semantic: TextureType, bytes: Vec<u8>) -> (p: MaterialProperty)
    ensures
        p@ == bytes_view(key@, semantic, bytes@),
{
    MaterialProperty { key: String::from_str(key), semantic, index: 0, value: PropertyValue::Bytes(bytes) }
}

/// A one-byte property of slot index 0.
pub fn byte_prop(key: &str, semantic: TextureType, byte: u8) -> (p: MaterialProperty)
    ensures
        p@ == byte_view(key@, semantic, byte),
{
    MaterialProperty { key: String::from_str(key), semantic, index: 0, value: PropertyValue::Byte(byte) }
}

} // verus!
