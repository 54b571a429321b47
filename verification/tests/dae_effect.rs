use asset_importer_rs::dae::effect::{ShaderKind, collect_effect_slots, shader_slot_types};
use asset_importer_rs::dae::texture::{EffectSampler, TextureMapMode};
use asset_importer_rs::scene::TextureType;

fn sampler(name: &str) -> EffectSampler {
    EffectSampler {
        name: name.to_string(),
        uv_channel: "UVSET0".to_string(),
        uv_id: None,
        wrap_u: TextureMapMode::Wrap,
        wrap_v: TextureMapMode::Wrap,
        transform: vec![],
        op: 0,
        weighting: vec![],
    }
}

fn names_and_kinds(v: &[(EffectSampler, TextureType)]) -> Vec<(String, TextureType)> {
    v.iter().map(|(s, t)| (s.name.clone(), *t)).collect()
}

#[test]
fn bump_extra_maps_to_normals() {
    // a Phong effect whose colour slots hold no texture, with a bump map in
    // its extras
    let slots = vec![sampler(""), sampler(""), sampler(""), sampler(""), sampler(""), sampler("")];
    let r = collect_effect_slots(Some(ShaderKind::Phong), slots, Some(sampler("bump-sampler")));
    assert_eq!(names_and_kinds(&r), vec![("bump-sampler".to_string(), TextureType::Normals)]);
}

#[test]
fn shader_slots_keep_their_order_and_kinds() {
    assert_eq!(
        shader_slot_types(ShaderKind::Constant),
        vec![TextureType::Emissive, TextureType::Opacity, TextureType::Reflection]
    );
    assert_eq!(shader_slot_types(ShaderKind::Lambert).len(), 5);
    assert_eq!(shader_slot_types(ShaderKind::Blinn), shader_slot_types(ShaderKind::Phong));
    let slots = vec![sampler("amb"), sampler(""), sampler("spec"), sampler("diff"), sampler(""), sampler("refl")];
    let r = collect_effect_slots(Some(ShaderKind::Blinn), slots, None);
    assert_eq!(
        names_and_kinds(&r),
        vec![
            ("amb".to_string(), TextureType::Lightmap),
            ("spec".to_string(), TextureType::Specular),
            ("diff".to_string(), TextureType::Diffuse),
            ("refl".to_string(), TextureType::Reflection),
        ]
    );
    let r = collect_effect_slots(None, vec![], None);
    assert!(r.is_empty());
}
