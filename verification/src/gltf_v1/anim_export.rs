//! Exporting animation channels into a glTF 1.0 document: one animation
//! per channel, its keys resampled to a common count.
use vstd::prelude::*;

use crate::gltf_v1::names::{generate_unique_name, unique_name_spec, UniqueNames};
use crate::text::{chars_of, decimal, push_decimal, string_from_chars};

verus! {

/// The number of key frames a channel is exported with: the largest of
/// its position, rotation and scaling key counts.
pub open spec fn keyframe_count(p: nat, r: nat, s: nat) -> nat {
    let m = if p >= r { p } else { r };
    if m >= s { m } else { s }
}

/// The number of key frames a channel is exported with.
pub fn num_keyframes(p: usize, r: usize, s: usize) -> (n: usize)
    ensures
        n == keyframe_count(p as nat, r as nat, s as nat),
{
    let m = if p >= r { p } else { r };
    if m >= s { m } else { s }
}

/// Resampling `len` keys to `num` frames: frame `i` takes key
/// `i * len / num`.
pub open spec fn resampled<T>(keys: Seq<T>, num: nat) -> Seq<T> {
    Seq::new(num, |i: int| keys[i * keys.len() / (num as int)])
}

/// Resamples keys to `num` frames: frame `i` takes key `i * len / num`.
pub fn resample<T: Copy>(keys: &Vec<T>, num: usize) -> (r: Vec<T>)
    requires
        keys@.len() > 0,
        keys@.len() <= num,
        num * keys@.len() <= usize::MAX,
    ensures
        r@ == resampled(keys@, num as nat),
{
    let len = keys.len();
    let mut r: Vec<T> = Vec::new();
    let mut i: usize = 0;
    while i < num
        invariant
            len == keys@.len(),
            0 < len <= num,
            num * len <= usize::MAX,
            i <= num,
            r@ == resampled(keys@, num as nat).take(i as int),
        decreases num - i,
    {
        proof {
            assert(i * len <= num * len) by (nonlinear_arith)
                requires i <= num;
            assert(i * len < num * len) by (nonlinear_arith)
                requires i < num, len > 0;
            assert((i * len) as int / (num as int) < len) by (nonlinear_arith)
                requires i * len < num * len, num > 0;
        }
        let k = i * len / num;
        r.push(keys[k]);
        assert(r@ =~= resampled(keys@, num as nat).take(i + 1));
        i = i + 1;
    }
    assert(resampled(keys@, num as nat).take(num as int) =~= resampled(keys@, num as nat));
    r
}

/// The base name of an animation's channels: its own name, or `anim`
/// when it has none.
pub open spec fn anim_base(name: Seq<char>) -> Seq<char> {
    if name.len() == 0 { "anim"@ } else { name }
}

/// The name a channel is exported under is asked for as
/// `base_j` (base from `anim_base`, `j` the channel's number).
pub open spec fn channel_base_name(anim_name: Seq<char>, j: nat) -> Seq<char> {
    anim_base(anim_name) + seq!['_'] + decimal(j)
}

/// The unique name of the `j`th channel of an animation.
pub fn channel_name(anim_name: &String, j: usize, names: &mut UniqueNames) -> (r: String)
    requires
        old(names).wf(),
        old(names).key_seq().len() + old(names).calls() < u32::MAX,
    ensures
        final(names).wf(),
        final(names).calls() == old(names).calls() + 1,
        final(names).key_seq().len() <= old(names).key_seq().len() + 1,
        (r@, final(names).key_seq(), final(names).counter_seq())
            == unique_name_spec(old(names).key_seq(), old(names).counter_seq(), channel_base_name(anim_name@, j as nat)),
{
    let mut base = chars_of(anim_name.as_str());
    if base.len() == 0 {
        base = chars_of("anim");
    }
    base.push('_');
    push_decimal(&mut base, j);
    assert(base@ =~= channel_base_name(anim_name@, j as nat));
    let s = string_from_chars(&base);
    proof { names.lemma_counters_have_room(); }
    generate_unique_name(s.as_str(), names)
}

/// The path an animation channel drives.
#[derive(Clone, Copy, Debug, PartialEq, Eq, Structural)]
pub enum AnimationPath {
    Translation,
    Rotation,
    Scale,
}

/// The parameter name a path's samples are stored under.
pub open spec fn path_parameter(p: AnimationPath) -> Seq<char> {
    match p {
        AnimationPath::Translation => "translation"@,
        AnimationPath::Rotation => "rotation"@,
        AnimationPath::Scale => "scale"@,
    }
}

/// A sampler and channel of an exported animation: the sampler's name
/// (`animation_parameter`) and the path its channel drives.
pub struct ChannelSampler {
    pub sampler_name: String,
    pub path: AnimationPath,
}

/// The samplers of an exported channel: translation, rotation and scale,
/// each when the channel has keys for it, named after the animation and
/// the parameter.
pub open spec fn channel_samplers_spec(name: Seq<char>, p: nat, r: nat, s: nat) -> Seq<(Seq<char>, AnimationPath)> {
    let t = if p > 0 { seq![(name + seq!['_'] + path_parameter(AnimationPath::Translation), AnimationPath::Translation)] } else { Seq::empty() };
    let ro = if r > 0 { seq![(name + seq!['_'] + path_parameter(AnimationPath::Rotation), AnimationPath::Rotation)] } else { Seq::empty() };
    let sc = if s > 0 { seq![(name + seq!['_'] + path_parameter(AnimationPath::Scale), AnimationPath::Scale)] } else { Seq::empty() };
    t + ro + sc
}

fn sampler_named(name: &String, path: AnimationPath) -> (r: ChannelSampler)
    ensures
        r.sampler_name@ == name@ + seq!['_'] + path_parameter(path),
        r.path == path,
{
    let mut v = chars_of(name.as_str());
    v.push('_');
    let p = match path {
        AnimationPath::Translation => chars_of("translation"),
        AnimationPath::Rotation => chars_of("rotation"),
        AnimationPath::Scale => chars_of("scale"),
    };
    let mut i: usize = 0;
    let ghost v0 = v@;
    while i < p.len()
        invariant
            i <= p@.len(),
            v@ == v0 + p@.take(i as int),
        decreases p@.len() - i,
    {
        v.push(p[i]);
        assert(p@.take(i + 1) =~= p@.take(i as int).push(p@[i as int]));
        i = i + 1;
    }
    assert(p@.take(p@.len() as int) =~= p@);
    ChannelSampler { sampler_name: string_from_chars(&v), path }
}

pub open spec fn samplers_view(v: Seq<ChannelSampler>) -> Seq<(Seq<char>, AnimationPath)> {
    Seq::new(v.len(), |i: int| (v[i].sampler_name@, v[i].path))
}

/// The samplers of an exported channel.
pub fn channel_samplers(name: &String, position_keys: usize, rotation_keys: usize, scaling_keys: usize) -> (r: Vec<ChannelSampler>)
    ensures
        samplers_view(r@) == channel_samplers_spec(name@, position_keys as nat, rotation_keys as nat, scaling_keys as nat),
{
    let mut r: Vec<ChannelSampler> = Vec::new();
    if position_keys > 0 {
        r.push(sampler_named(name, AnimationPath::Translation));
    }
    if rotation_keys > 0 {
        r.push(sampler_named(name, AnimationPath::Rotation));
    }
    if scaling_keys > 0 {
        r.push(sampler_named(name, AnimationPath::Scale));
    }
    assert(samplers_view(r@) =~= channel_samplers_spec(name@, position_keys as nat, rotation_keys as nat, scaling_keys as nat));
    r
}

} // verus!
