//! Errors met while reading the meshes of a glTF 2.0 document.
use vstd::prelude::*;

verus! {

/// Why the data of a mesh could not be read.
#[derive(Clone, Copy, Debug, PartialEq, Eq, Structural)]
pub enum MeshError {
    ExceedsBounds,
    InvalidStride,
    SizeExceedsTarget,
    MissingBufferData,
    BrokenSparseDataAccess,
    AttributeNotFound,
}

/// The message that describes a mesh error.
pub open spec fn mesh_error_message(e: MeshError) -> Seq<char> {
    match e {
        MeshError::MissingBufferData => "Missing Buffer Data"@,
        MeshError::BrokenSparseDataAccess => "Sparse Data Missing despite being expected"@,
        MeshError::ExceedsBounds => "Bounds Check Failed"@,
        MeshError::AttributeNotFound => "Expected Primitive Attribute Not Found"@,
        MeshError::SizeExceedsTarget => "Size provided exceeds Target"@,
        MeshError::InvalidStride => "Stride is Less than Element Size"@,
    }
}

impl MeshError {
    /// The message that describes this error.
    pub fn message(&self) -> (s: String)
        ensures
            s@ == mesh_error_message(*self),
    {
        match self {
            MeshError::MissingBufferData => String::from_str("Missing Buffer Data"),
            MeshError::BrokenSparseDataAccess => String::from_str("Sparse Data Missing despite being expected"),
            MeshError::ExceedsBounds => String::from_str("Bounds Check Failed"),
            MeshError::AttributeNotFound => String::from_str("Expected Primitive Attribute Not Found"),
            MeshError::SizeExceedsTarget => String::from_str("Size provided exceeds Target"),
            MeshError::InvalidStride => String::from_str("Stride is Less than Element Size"),
        }
    }
}

} // verus!
