//! The texture slots of a Collada effect: which colour slot of its shader
//! becomes which kind of texture, and the bump map of its extras.
use vstd::prelude::*;

use crate::dae::texture::EffectSampler;
use crate::scene::TextureType;
use crate::text::string_is_empty;

verus! {

/// The shading model of an effect's common profile.
#[derive(Clone, Copy, Debug, PartialEq, Eq, Structural)]
pub enum ShaderKind {
    Constant,
    Lambert,
    Blinn,
    Phong,
}

/// The texture kinds of a shader's colour slots, in the order the shader
/// lists them: a constant shader has emission, transparent and reflective;
/// a Lambert shader ambient (a light map), emission, diffuse, transparent
/// and reflective; Blinn and Phong also specular, after emission.
pub open spec fn shader_slots(k: ShaderKind) -> Seq<TextureType> {
    match k {
        ShaderKind::Constant => seq![TextureType::Emissive, TextureType::Opacity, TextureType::Reflection],
        ShaderKind::Lambert => seq![
            TextureType::Lightmap,
            TextureType::Emissive,
            TextureType::Diffuse,
            TextureType::Opacity,
            TextureType::Reflection,
        ],
        _ => seq![
            TextureType::Lightmap,
            TextureType::Emissive,
            TextureType::Specular,
            TextureType::Diffuse,
            TextureType::Opacity,
            TextureType::Reflection,
        ],
    }
}

/// The texture kinds of a shader's colour slots (see `shader_slots`).
pub fn shader_slot_types(k: ShaderKind) -> (r: Vec<TextureType>)
    ensures
        r@ == shader_slots(k),
{
    let mut v: Vec<TextureType> = Vec::new();
    match k {
        ShaderKind::Constant => {
            v.push(TextureType::Emissive);
            v.push(TextureType::Opacity);
            v.push(TextureType::Reflection);
        },
        ShaderKind::Lambert => {
            v.push(TextureType::Lightmap);
            v.push(TextureType::Emissive);
            v.push(TextureType::Diffuse);
            v.push(TextureType::Opacity);
            v.push(TextureType::Reflection);
        },
        _ => {
            v.push(TextureType::Lightmap);
            v.push(TextureType::Emissive);
            v.push(TextureType::Specular);
            v.push(TextureType::Diffuse);
            v.push(TextureType::Opacity);
            v.push(TextureType::Reflection);
        },
    }
    assert(v@ =~= shader_slots(k));
    v
}

/// The first `n` slots whose sampler names a texture, each with its kind.
pub open spec fn kept_slots(samplers: Seq<EffectSampler>, kinds: Seq<TextureType>, n: int) -> Seq<(EffectSampler, TextureType)>
    decreases n,
{
    if n <= 0 {
        Seq::empty()
    } else {
        kept_slots(samplers, kinds, n - 1) + if samplers[n - 1].name@.len() > 0 {
            seq![(samplers[n - 1], kinds[n - 1])]
        } else {
            Seq::empty()
        }
    }
}

/// The textures of an effect: the slots of its shader (none when it has
/// no shader) whose sampler names a texture, each with the slot's kind, in
/// slot order; then the bump map of its extras, if any, as a normal map.
pub open spec fn effect_slots_spec(shader: Option<ShaderKind>, samplers: Seq<EffectSampler>, bump: Option<EffectSampler>)
    -> Seq<(EffectSampler, TextureType)>
{
    (match shader {
        None => Seq::empty(),
        Some(k) => kept_slots(samplers, shader_slots(k), shader_slots(k).len() as int),
    }) + match bump {
        Some(b) => seq![(b, TextureType::Normals)],
        None => Seq::empty(),
    }
}

/// The textures of an effect (see `effect_slots_spec`), given the sampler
/// of each colour slot of its shader, in slot order.
pub fn collect_effect_slots(shader: Option<ShaderKind>, samplers: Vec<EffectSampler>, bump: Option<EffectSampler>)
    -> (r: Vec<(EffectSampler, TextureType)>)
    requires
        shader is Some ==> samplers@.len() == shader_slots(shader->0).len(),
    ensures
        r@ == effect_slots_spec(shader, samplers@, bump),
{
    let ghost s0 = samplers@;
    let mut out: Vec<(EffectSampler, TextureType)> = Vec::new();
    match shader {
        None => {},
        Some(k) => {
            let kinds = shader_slot_types(k);
            let mut samplers = samplers;
            let mut rest: Vec<EffectSampler> = Vec::new();
            // take the samplers out in reverse, so that they come back in order
            while samplers.len() > 0
                invariant
                    s0.len() == kinds@.len(),
                    rest@.len() + samplers@.len() == s0.len(),
                    samplers@ == s0.take(samplers@.len() as int),
                    forall|i: int| 0 <= i < rest@.len() ==> rest@[i] == s0[s0.len() - 1 - i],
                decreases samplers@.len(),
            {
                let ghost before = samplers@;
                let s = samplers.pop().unwrap();
                proof {
                    assert(s == s0[before.len() - 1]);
                    assert(samplers@ =~= s0.take(samplers@.len() as int));
                }
                rest.push(s);
            }
            let mut i: usize = 0;
            while i < kinds.len()
                invariant
                    kinds@ == shader_slots(k),
                    s0.len() == kinds@.len(),
                    i <= kinds@.len(),
                    rest@.len() == s0.len() - i,
                    forall|t: int| 0 <= t < rest@.len() ==> rest@[t] == s0[s0.len() - 1 - t],
                    out@ == kept_slots(s0, kinds@, i as int),
                decreases kinds@.len() - i,
            {
                let s = rest.pop().unwrap();
                assert(s == s0[i as int]);
                if !string_is_empty(&s.name) {
                    out.push((s, kinds[i]));
                }
                assert(out@ =~= kept_slots(s0, kinds@, i + 1));
                i = i + 1;
            }
        },
    }
    match bump {
        Some(b) => {
            out.push((b, TextureType::Normals));
        },
        None => {},
    }
    assert(out@ =~= effect_slots_spec(shader, s0, bump));
    out
}

proof fn lemma_kept_contains(samplers: Seq<EffectSampler>, kinds: Seq<TextureType>, n: int, p: int)
    requires
        0 <= p < n <= samplers.len(),
        n <= kinds.len(),
        samplers[p].name@.len() > 0,
    ensures
        kept_slots(samplers, kinds, n).contains((samplers[p], kinds[p])),
    decreases n,
{
    let prev = kept_slots(samplers, kinds, n - 1);
    let last: Seq<(EffectSampler, TextureType)> = if samplers[n - 1].name@.len() > 0 {
        seq![(samplers[n - 1], kinds[n - 1])]
    } else {
        Seq::empty()
    };
    assert(kept_slots(samplers, kinds, n) == prev + last);
    if p < n - 1 {
        lemma_kept_contains(samplers, kinds, n - 1, p);
        let j = choose|j: int| 0 <= j < prev.len() && prev[j] == (samplers[p], kinds[p]);
        assert((prev + last)[j] == prev[j]);
    } else {
        assert((prev + last)[prev.len() as int] == (samplers[p], kinds[p]));
    }
}

proof fn lemma_slot_kept(k: ShaderKind, s: Seq<EffectSampler>, bump: Option<EffectSampler>, p: int)
    requires
        s.len() == shader_slots(k).len(),
        0 <= p < s.len(),
        s[p].name@.len() > 0,
    ensures
        effect_slots_spec(Some(k), s, bump).contains((s[p], shader_slots(k)[p])),
{
    let kinds = shader_slots(k);
    let kept = kept_slots(s, kinds, kinds.len() as int);
    let extra: Seq<(EffectSampler, TextureType)> = match bump {
        Some(b) => seq![(b, TextureType::Normals)],
        None => Seq::empty(),
    };
    assert(effect_slots_spec(Some(k), s, bump) == kept + extra);
    lemma_kept_contains(s, kinds, kinds.len() as int, p);
    let j = choose|j: int| 0 <= j < kept.len() && kept[j] == (s[p], kinds[p]);
    assert((kept + extra)[j] == kept[j]);
}

/// A Lambert effect files the texture of each colour slot that names one
/// under that slot's own kind: ambient as a light map, emission as
/// emissive, diffuse as diffuse, transparent as opacity and reflective as
/// reflection (slots in that order).
pub proof fn lemma_lambert_slot_kinds(s: Seq<EffectSampler>, bump: Option<EffectSampler>)
    requires
        s.len() == 5,
    ensures
        ({
            let out = effect_slots_spec(Some(ShaderKind::Lambert), s, bump);
            &&& s[0].name@.len() > 0 ==> out.contains((s[0], TextureType::Lightmap))
            &&& s[1].name@.len() > 0 ==> out.contains((s[1], TextureType::Emissive))
            &&& s[2].name@.len() > 0 ==> out.contains((s[2], TextureType::Diffuse))
            &&& s[3].name@.len() > 0 ==> out.contains((s[3], TextureType::Opacity))
            &&& s[4].name@.len() > 0 ==> out.contains((s[4], TextureType::Reflection))
        }),
{
    let k = ShaderKind::Lambert;
    assert(shader_slots(k).len() == 5);
    if s[0].name@.len() > 0 { lemma_slot_kept(k, s, bump, 0); }
    if s[1].name@.len() > 0 { lemma_slot_kept(k, s, bump, 1); }
    if s[2].name@.len() > 0 { lemma_slot_kept(k, s, bump, 2); }
    if s[3].name@.len() > 0 { lemma_slot_kept(k, s, bump, 3); }
    if s[4].name@.len() > 0 { lemma_slot_kept(k, s, bump, 4); }
}

/// A Blinn or Phong effect files the texture of each colour slot that
/// names one under that slot's own kind: ambient as a light map, emission
/// as emissive, specular as specular, diffuse as diffuse, transparent as
/// opacity and reflective as reflection (slots in that order).
pub proof fn lemma_specular_shader_slot_kinds(k: ShaderKind, s: Seq<EffectSampler>, bump: Option<EffectSampler>)
    requires
        k == ShaderKind::Blinn || k == ShaderKind::Phong,
        s.len() == 6,
    ensures
        ({
            let out = effect_slots_spec(Some(k), s, bump);
            &&& s[0].name@.len() > 0 ==> out.contains((s[0], TextureType::Lightmap))
            &&& s[1].name@.len() > 0 ==> out.contains((s[1], TextureType::Emissive))
            &&& s[2].name@.len() > 0 ==> out.contains((s[2], TextureType::Specular))
            &&& s[3].name@.len() > 0 ==> out.contains((s[3], TextureType::Diffuse))
            &&& s[4].name@.len() > 0 ==> out.contains((s[4], TextureType::Opacity))
            &&& s[5].name@.len() > 0 ==> out.contains((s[5], TextureType::Reflection))
        }),
{
    assert(shader_slots(k).len() == 6);
    if s[0].name@.len() > 0 { lemma_slot_kept(k, s, bump, 0); }
    if s[1].name@.len() > 0 { lemma_slot_kept(k, s, bump, 1); }
    if s[2].name@.len() > 0 { lemma_slot_kept(k, s, bump, 2); }
    if s[3].name@.len() > 0 { lemma_slot_kept(k, s, bump, 3); }
    if s[4].name@.len() > 0 { lemma_slot_kept(k, s, bump, 4); }
    if s[5].name@.len() > 0 { lemma_slot_kept(k, s, bump, 5); }
}

/// A constant effect files the texture of each colour slot that names one
/// under that slot's own kind: emission as emissive, transparent as
/// opacity and reflective as reflection (slots in that order).
pub proof fn lemma_constant_slot_kinds(s: Seq<EffectSampler>, bump: Option<EffectSampler>)
    requires
        s.len() == 3,
    ensures
        ({
            let out = effect_slots_spec(Some(ShaderKind::Constant), s, bump);
            &&& s[0].name@.len() > 0 ==> out.contains((s[0], TextureType::Emissive))
            &&& s[1].name@.len() > 0 ==> out.contains((s[1], TextureType::Opacity))
            &&& s[2].name@.len() > 0 ==> out.contains((s[2], TextureType::Reflection))
        }),
{
    let k = ShaderKind::Constant;
    assert(shader_slots(k).len() == 3);
    if s[0].name@.len() > 0 { lemma_slot_kept(k, s, bump, 0); }
    if s[1].name@.len() > 0 { lemma_slot_kept(k, s, bump, 1); }
    if s[2].name@.len() > 0 { lemma_slot_kept(k, s, bump, 2); }
}

/// The bump map of an effect's extras comes out last, as a normal map,
/// whatever the shader; an effect without a shader gives nothing else.
pub proof fn lemma_bump_is_normal_map(shader: Option<ShaderKind>, s: Seq<EffectSampler>, b: EffectSampler)
    ensures
        effect_slots_spec(shader, s, Some(b)).len() > 0,
        effect_slots_spec(shader, s, Some(b)).last() == (b, TextureType::Normals),
        shader is None ==> effect_slots_spec(shader, s, Some(b)) == seq![(b, TextureType::Normals)],
{
    let front: Seq<(EffectSampler, TextureType)> = match shader {
        None => Seq::empty(),
        Some(k) => kept_slots(s, shader_slots(k), shader_slots(k).len() as int),
    };
    assert(effect_slots_spec(shader, s, Some(b)) == front + seq![(b, TextureType::Normals)]);
    if shader is None {
        assert(front + seq![(b, TextureType::Normals)] =~= seq![(b, TextureType::Normals)]);
    }
}

} // verus!
