//! The recursion policy of the color integrator.
//!
//! A traced ray that hits a surface is shaded locally; whether reflected and
//! refracted child rays are spawned depends only on the bounce counter, the
//! scene's bounce limit and whether the material's reflectance and
//! transmittance are above the cut-off. This module makes that decision.
use vstd::prelude::*;

verus! {

/// What the integrator does with a ray that hit a surface.
#[derive(Clone, Copy, Debug, PartialEq, Eq, Structural)]
pub enum Shading {
    /// The bounce limit is reached: the local color is returned unmodified.
    LocalOnly,
    /// The local color is weighted by `1 - reflectance - transmittance` and
    /// the marked child rays are traced with bounce counter `next_bounce`.
    Blend { reflection: bool, refraction: bool, next_bounce: usize },
}

/// The decision for a ray at bounce `current` under the limit `max_bounces`:
/// the limit caps the depth of recursion, so a ray at bounce `max_bounces`
/// or beyond spawns no child ray.
pub open spec fn shading_spec(current: nat, max_bounces: nat, reflective: bool, transmissive: bool) -> Shading {
    if current >= max_bounces {
        Shading::LocalOnly
    } else {
        Shading::Blend {
            reflection: reflective,
            refraction: transmissive,
            next_bounce: (current + 1) as usize,
        }
    }
}

/// Decides how a hit at bounce `current` is shaded. `reflective` and
/// `transmissive` say whether the material's reflectance and transmittance
/// exceed the cut-off.
pub fn plan_shading(current: usize, max_bounces: usize, reflective: bool, transmissive: bool) -> (s: Shading)
    ensures
        s == shading_spec(current as nat, max_bounces as nat, reflective, transmissive),
{
    if current >= max_bounces {
        Shading::LocalOnly
    } else {
        Shading::Blend { reflection: reflective, refraction: transmissive, next_bounce: current + 1 }
    }
}

/// At or past the bounce limit no child ray is spawned, whatever the
/// material's reflectance and transmittance: the result is the unmodified
/// local color.
pub proof fn lemma_limit_cuts_recursion(current: nat, max_bounces: nat, reflective: bool, transmissive: bool)
    requires
        current >= max_bounces,
    ensures
        shading_spec(current, max_bounces, reflective, transmissive) == Shading::LocalOnly,
{
}

/// With a bounce limit of zero every hit is shaded locally, with nothing
/// reflected or refracted.
pub proof fn lemma_zero_limit_is_local(current: nat, reflective: bool, transmissive: bool)
    ensures
        shading_spec(current, 0, reflective, transmissive) == Shading::LocalOnly,
{
}

/// Every child ray carries a counter one above its parent's and at most the
/// limit, so a chain of nested rays starting at bounce 0 has at most
/// `max_bounces + 1` members: the ray at bounce `max_bounces` is shaded
/// locally.
pub proof fn lemma_recursion_depth_bounded(current: nat, max_bounces: nat, reflective: bool, transmissive: bool)
    requires
        current <= max_bounces <= usize::MAX,
    ensures
        shading_spec(current, max_bounces, reflective, transmissive) matches Shading::Blend { next_bounce, .. }
            ==> next_bounce == current + 1 && next_bounce <= max_bounces,
        shading_spec(max_bounces, max_bounces, reflective, transmissive) == Shading::LocalOnly,
{
}

} // verus!
