//! The glTF 1.0 asset vocabulary: component and attribute types, buffers
//! and light kinds.
use vstd::prelude::*;

use crate::text::str_eq;

verus! {

/// The data type of one accessor component.
#[derive(Clone, Copy, Debug, PartialEq, Eq, Structural)]
pub enum ComponentType {
    Byte,
    UnsignedByte,
    Short,
    UnsignedShort,
    UnsignedInt,
    Float,
}

/// The size in bytes of one component of type `c`.
pub open spec fn component_size(c: ComponentType) -> u32 {
    match c {
        ComponentType::Byte | ComponentType::UnsignedByte => 1,
        ComponentType::Short | ComponentType::UnsignedShort => 2,
        ComponentType::UnsignedInt | ComponentType::Float => 4,
    }
}

/// The GL enumeration value of a component type.
pub open spec fn component_code(c: ComponentType) -> u32 {
    match c {
        ComponentType::Byte => 5120,
        ComponentType::UnsignedByte => 5121,
        ComponentType::Short => 5122,
        ComponentType::UnsignedShort => 5123,
        ComponentType::UnsignedInt => 5125,
        ComponentType::Float => 5126,
    }
}

impl ComponentType {
    /// The size in bytes of one component.
    pub fn size(&self) -> (s: u32)
        ensures
            s == component_size(*self),
    {
        match self {
            ComponentType::Byte | ComponentType::UnsignedByte => 1,
            ComponentType::Short | ComponentType::UnsignedShort => 2,
            ComponentType::UnsignedInt | ComponentType::Float => 4,
        }
    }

    /// The GL enumeration value of this component type.
    pub fn code(&self) -> (c: u32)
        ensures
            c == component_code(*self),
    {
        match self {
            ComponentType::Byte => 5120,
            ComponentType::UnsignedByte => 5121,
            ComponentType::Short => 5122,
            ComponentType::UnsignedShort => 5123,
            ComponentType::UnsignedInt => 5125,
            ComponentType::Float => 5126,
        }
    }
}

/// The element type of an accessor.
#[allow(non_camel_case_types)]
#[derive(Clone, Copy, Debug, PartialEq, Eq, Structural)]
pub enum Value {
    SCALAR,
    VEC2,
    VEC3,
    VEC4,
    MAT2,
    MAT3,
    MAT4,
}

/// How many components an element of type `v` holds.
pub open spec fn num_components(v: Value) -> u32 {
    match v {
        Value::SCALAR => 1,
        Value::VEC2 => 2,
        Value::VEC3 => 3,
        Value::VEC4 => 4,
        Value::MAT2 => 4,
        Value::MAT3 => 9,
        Value::MAT4 => 16,
    }
}

/// The element type a name gives; any unknown name gives `SCALAR`.
pub open spec fn value_of_name(s: Seq<char>) -> Value {
    if s == "VEC2"@ {
        Value::VEC2
    } else if s == "VEC3"@ {
        Value::VEC3
    } else if s == "VEC4"@ {
        Value::VEC4
    } else if s == "MAT2"@ {
        Value::MAT2
    } else if s == "MAT3"@ {
        Value::MAT3
    } else if s == "MAT4"@ {
        Value::MAT4
    } else {
        Value::SCALAR
    }
}

impl Value {
    /// How many components an element of this type holds.
    pub fn get_num_components(&self) -> (n: u32)
        ensures
            n == num_components(*self),
    {
        match self {
            Value::SCALAR => 1,
            Value::VEC2 => 2,
            Value::VEC3 => 3,
            Value::VEC4 => 4,
            Value::MAT2 => 4,
            Value::MAT3 => 9,
            Value::MAT4 => 16,
        }
    }

    /// The element type of a name (`SCALAR`, `VEC2` to `VEC4`, `MAT2` to
    /// `MAT4`); any other name gives `SCALAR`.
    pub fn from_str(s: &str) -> (v: Value)
        ensures
            v == value_of_name(s@),
    {
        if str_eq(s, "VEC2") {
            Value::VEC2
        } else if str_eq(s, "VEC3") {
            Value::VEC3
        } else if str_eq(s, "VEC4") {
            Value::VEC4
        } else if str_eq(s, "MAT2") {
            Value::MAT2
        } else if str_eq(s, "MAT3") {
            Value::MAT3
        } else if str_eq(s, "MAT4") {
            Value::MAT4
        } else {
            Value::SCALAR
        }
    }
}

/// How the data of a buffer is held.
#[derive(Clone, Copy, Debug, PartialEq, Eq, Structural)]
pub enum BufferType {
    ArrayBuffer,
    Text,
}

/// A region of a buffer that was decoded from an embedded encoding.
#[derive(Debug)]
pub struct SEncodedRegion {
    pub offset: usize,
    pub length: usize,
    pub decoded_data: Vec<u8>,
    pub decoded_length: usize,
    pub id: String,
}

/// A buffer of the asset: its data, the regions decoded into it, and the
/// region being read (by position among the regions).
#[derive(Debug)]
pub struct Buffer {
    pub length: usize,
    pub buffer_type: BufferType,
    pub current_region: Option<usize>,
    pub data: Vec<u8>,
    pub is_special: bool,
    pub capacity: usize,
    pub regions: Vec<SEncodedRegion>,
}

impl Buffer {
    /// An empty array buffer.
    pub fn new() -> (b: Buffer)
        ensures
            b.length == 0,
            b.buffer_type == BufferType::ArrayBuffer,
            b.current_region is None,
            b.data@.len() == 0,
            !b.is_special,
            b.capacity == 0,
            b.regions@.len() == 0,
    {
        Buffer {
            length: 0,
            buffer_type: BufferType::ArrayBuffer,
            current_region: None,
            data: Vec::new(),
            is_special: false,
            capacity: 0,
            regions: Vec::new(),
        }
    }
}

/// The kind of a light.
#[derive(Clone, Copy, Debug, PartialEq, Eq, Structural)]
pub enum LightType {
    Undefined,
    Ambient,
    Directional,
    Point,
    Spot,
}

/// How the vertices of a primitive are joined.
#[derive(Clone, Copy, Debug, PartialEq, Eq, Structural)]
pub enum PrimitiveMode {
    Points,
    Lines,
    LineLoop,
    LineStrip,
    Triangles,
    TriangleStrip,
    TriangleFan,
}

} // verus!
