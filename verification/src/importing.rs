//! Importer descriptions, post-processing steps and importer selection.
use vstd::prelude::*;

verus! {

/// Capabilities and characteristics of an importer.
#[derive(Clone, Copy, Debug, PartialEq, Eq, Structural)]
pub enum AiImporterFlags {
    /// The importer supports text-based file formats.
    SupportTextFlavor,
    /// The importer supports binary file formats.
    SupportBinaryFlavor,
    /// The importer supports compressed file formats.
    SupportCompressedFlavor,
    /// The importer has limited support for the format.
    LimitedSupport,
    /// The importer is experimental and may have bugs or incomplete features.
    Experimental,
}

/// The bit of each importer flag.
pub open spec fn importer_flag_bit(f: AiImporterFlags) -> u8 {
    match f {
        AiImporterFlags::SupportTextFlavor => 0x01,
        AiImporterFlags::SupportBinaryFlavor => 0x02,
        AiImporterFlags::SupportCompressedFlavor => 0x04,
        AiImporterFlags::LimitedSupport => 0x08,
        AiImporterFlags::Experimental => 0x10,
    }
}

impl AiImporterFlags {
    /// The flag's bit in a flag set.
    pub fn bits(self) -> (b: u8)
        ensures
            b == importer_flag_bit(self),
    {
        match self {
            AiImporterFlags::SupportTextFlavor => 0x01,
            AiImporterFlags::SupportBinaryFlavor => 0x02,
            AiImporterFlags::SupportCompressedFlavor => 0x04,
            AiImporterFlags::LimitedSupport => 0x08,
            AiImporterFlags::Experimental => 0x10,
        }
    }
}

/// The post-processing steps that can be applied to an imported scene.
#[derive(Clone, Copy, Debug, PartialEq, Eq, Structural)]
pub enum AiPostProcessSteps {
    CalcTangentSpaces,
    JoinIdenticalVertices,
    MakeLeftHanded,
    Triangulate,
    RemoveComponent,
    GenNormals,
    GenSmoothNormals,
    SplitLargeMeshes,
    PreTransformVertices,
    LimitBoneWeights,
    ValidateDataStructure,
    ImproveCacheLocality,
    RemoveRedundantMaterials,
    FixInfacingNormals,
    PopulateArmatureData,
    SortByPType,
    FindDegenerates,
    FindInvalidData,
    GenUVCoords,
    TransformUVCoords,
    FindInstances,
    OptimizeMeshes,
    OptimizeGraph,
    FlipUVs,
    FlipWindingOrder,
    SplitByBoneCount,
    Debone,
    GlobalScale,
    EmbedTextures,
    ForceGenNormals,
    DropNormals,
    GenBoundingBoxes,
}

/// The position of each step's bit, in declaration order.
pub open spec fn post_process_bit_index(s: AiPostProcessSteps) -> nat {
    match s {
        AiPostProcessSteps::CalcTangentSpaces => 0,
        AiPostProcessSteps::JoinIdenticalVertices => 1,
        AiPostProcessSteps::MakeLeftHanded => 2,
        AiPostProcessSteps::Triangulate => 3,
        AiPostProcessSteps::RemoveComponent => 4,
        AiPostProcessSteps::GenNormals => 5,
        AiPostProcessSteps::GenSmoothNormals => 6,
        AiPostProcessSteps::SplitLargeMeshes => 7,
        AiPostProcessSteps::PreTransformVertices => 8,
        AiPostProcessSteps::LimitBoneWeights => 9,
        AiPostProcessSteps::ValidateDataStructure => 10,
        AiPostProcessSteps::ImproveCacheLocality => 11,
        AiPostProcessSteps::RemoveRedundantMaterials => 12,
        AiPostProcessSteps::FixInfacingNormals => 13,
        AiPostProcessSteps::PopulateArmatureData => 14,
        AiPostProcessSteps::SortByPType => 15,
        AiPostProcessSteps::FindDegenerates => 16,
        AiPostProcessSteps::FindInvalidData => 17,
        AiPostProcessSteps::GenUVCoords => 18,
        AiPostProcessSteps::TransformUVCoords => 19,
        AiPostProcessSteps::FindInstances => 20,
        AiPostProcessSteps::OptimizeMeshes => 21,
        AiPostProcessSteps::OptimizeGraph => 22,
        AiPostProcessSteps::FlipUVs => 23,
        AiPostProcessSteps::FlipWindingOrder => 24,
        AiPostProcessSteps::SplitByBoneCount => 25,
        AiPostProcessSteps::Debone => 26,
        AiPostProcessSteps::GlobalScale => 27,
        AiPostProcessSteps::EmbedTextures => 28,
        AiPostProcessSteps::ForceGenNormals => 29,
        AiPostProcessSteps::DropNormals => 30,
        AiPostProcessSteps::GenBoundingBoxes => 31,
    }
}

impl AiPostProcessSteps {
    /// The step's bit in a step set: `1 << index` in declaration order.
    pub fn bits(self) -> (b: u32)
        ensures
            b == vstd::arithmetic::power2::pow2(post_process_bit_index(self)),
    {
        let r: u32 = match self {
            AiPostProcessSteps::CalcTangentSpaces => 0x1,
            AiPostProcessSteps::JoinIdenticalVertices => 0x2,
            AiPostProcessSteps::MakeLeftHanded => 0x4,
            AiPostProcessSteps::Triangulate => 0x8,
            AiPostProcessSteps::RemoveComponent => 0x10,
            AiPostProcessSteps::GenNormals => 0x20,
            AiPostProcessSteps::GenSmoothNormals => 0x40,
            AiPostProcessSteps::SplitLargeMeshes => 0x80,
            AiPostProcessSteps::PreTransformVertices => 0x100,
            AiPostProcessSteps::LimitBoneWeights => 0x200,
            AiPostProcessSteps::ValidateDataStructure => 0x400,
            AiPostProcessSteps::ImproveCacheLocality => 0x800,
            AiPostProcessSteps::RemoveRedundantMaterials => 0x1000,
            AiPostProcessSteps::FixInfacingNormals => 0x2000,
            AiPostProcessSteps::PopulateArmatureData => 0x4000,
            AiPostProcessSteps::SortByPType => 0x8000,
            AiPostProcessSteps::FindDegenerates => 0x10000,
            AiPostProcessSteps::FindInvalidData => 0x20000,
            AiPostProcessSteps::GenUVCoords => 0x40000,
            AiPostProcessSteps::TransformUVCoords => 0x80000,
            AiPostProcessSteps::FindInstances => 0x100000,
            AiPostProcessSteps::OptimizeMeshes => 0x200000,
            AiPostProcessSteps::OptimizeGraph => 0x400000,
            AiPostProcessSteps::FlipUVs => 0x800000,
            AiPostProcessSteps::FlipWindingOrder => 0x1000000,
            AiPostProcessSteps::SplitByBoneCount => 0x2000000,
            AiPostProcessSteps::Debone => 0x4000000,
            AiPostProcessSteps::GlobalScale => 0x8000000,
            AiPostProcessSteps::EmbedTextures => 0x10000000,
            AiPostProcessSteps::ForceGenNormals => 0x20000000,
            AiPostProcessSteps::DropNormals => 0x40000000,
            AiPostProcessSteps::GenBoundingBoxes => 0x80000000,
        };
        proof {
            vstd::arithmetic::power2::lemma2_to64();
            vstd::arithmetic::power2::lemma2_to64_rest();
        }
        r
    }
}

/// Whether an importer that lists `extensions` is a candidate for a file
/// with extension `extension`.
pub fn accepts_extension(extensions: &Vec<String>, extension: &str) -> (b: bool)
    ensures
        b == exists|i: int| 0 <= i < extensions.len() && #[trigger] extensions@[i]@ == extension@,
{
    let e = String::from_str(extension);
    let mut i: usize = 0;
    while i < extensions.len()
        invariant
            i <= extensions.len(),
            e@ == extension@,
            forall|j: int| 0 <= j < i ==> #[trigger] extensions@[j]@ != extension@,
        decreases extensions.len() - i,
    {
        if extensions[i] == e {
            return true;
        }
        i = i + 1;
    }
    false
}

/// The importer that `Importer::import_file` hands a file to: the first,
/// in registration order, that lists the file's extension and says it can
/// read the file.  `can_read[i]` is what importer `i` answered.
pub fn select_importer(importer_extensions: &Vec<Vec<String>>, can_read: &Vec<bool>, extension: &str) -> (r: Option<usize>)
    requires
        importer_extensions.len() == can_read.len(),
    ensures
        match r {
            Some(i) => i < can_read.len() && can_read@[i as int]
                && (exists|k: int| 0 <= k < importer_extensions@[i as int].len()
                    && #[trigger] importer_extensions@[i as int]@[k]@ == extension@)
                && forall|j: int| 0 <= j < i ==> !(can_read@[j] && exists|k: int|
                    0 <= k < importer_extensions@[j].len() && #[trigger] importer_extensions@[j]@[k]@ == extension@),
            None => forall|j: int| 0 <= j < can_read.len() ==> !(can_read@[j] && exists|k: int|
                    0 <= k < importer_extensions@[j].len() && #[trigger] importer_extensions@[j]@[k]@ == extension@),
        },
{
    let mut i: usize = 0;
    while i < importer_extensions.len()
        invariant
            i <= importer_extensions.len() == can_read.len(),
            forall|j: int| 0 <= j < i ==> !(can_read@[j] && exists|k: int|
                0 <= k < importer_extensions@[j].len() && #[trigger] importer_extensions@[j]@[k]@ == extension@),
        decreases importer_extensions.len() - i,
    {
        if accepts_extension(&importer_extensions[i], extension) && can_read[i] {
            return Some(i);
        }
        i = i + 1;
    }
    None
}

} // verus!
