use crate::effects::direct::DirectApplyFlags;
use vstd::prelude::*;

verus! {

/// How the occlusion of a source is estimated.
#[derive(Debug, Clone, Copy, PartialEq, Eq, Structural)]
pub enum OcclusionType {
    /// A single ray between listener and source.
    Raycast,
    /// Rays from the listener to sample points inside a sphere around the source.
    Volumetric,
}

/// What a simulation step does with the occlusion factor of a direct sound path.
#[derive(Debug, Clone, Copy, PartialEq, Eq, Structural)]
pub enum OcclusionUpdate {
    /// Recompute it by tracing one ray.
    Raycast,
    /// Recompute it from volumetric samples.
    Volumetric,
    /// Leave the previous value in place.
    Keep,
    /// Set it to `1`: nothing occludes the source.
    Unoccluded,
}

/// What a simulation step does with the transmission factors of a direct sound path.
#[derive(Debug, Clone, Copy, PartialEq, Eq, Structural)]
pub enum TransmissionUpdate {
    /// Recompute them by tracing transmission rays through the scene.
    Trace,
    /// Leave the previous values in place.
    Keep,
    /// Set every band to `1`: full transmission.
    Full,
}

/// The occlusion step of a direct simulation: without a scene the source is unoccluded;
/// with one, occlusion is recomputed by the chosen method when the occlusion flag is set,
/// and otherwise left as it was.
pub fn occlusion_update(flags: DirectApplyFlags, has_scene: bool, occlusion_type: OcclusionType)
    -> (update: OcclusionUpdate)
    ensures
        !has_scene ==> update == OcclusionUpdate::Unoccluded,
        has_scene && !flags.occlusion ==> update == OcclusionUpdate::Keep,
        has_scene && flags.occlusion && occlusion_type == OcclusionType::Raycast ==> update
            == OcclusionUpdate::Raycast,
        has_scene && flags.occlusion && occlusion_type == OcclusionType::Volumetric ==> update
            == OcclusionUpdate::Volumetric,
{
    if !has_scene {
        OcclusionUpdate::Unoccluded
    } else if flags.occlusion {
        match occlusion_type {
            OcclusionType::Raycast => OcclusionUpdate::Raycast,
            OcclusionType::Volumetric => OcclusionUpdate::Volumetric,
        }
    } else {
        OcclusionUpdate::Keep
    }
}

/// The transmission step of a direct simulation: without a scene transmission is full;
/// with one, it is traced when the transmission flag is set and at least one ray is
/// allowed, and otherwise left as it was.
pub fn transmission_update(flags: DirectApplyFlags, has_scene: bool, num_transmission_rays: usize)
    -> (update: TransmissionUpdate)
    ensures
        !has_scene ==> update == TransmissionUpdate::Full,
        has_scene && flags.transmission && num_transmission_rays > 0 ==> update
            == TransmissionUpdate::Trace,
        has_scene && (!flags.transmission || num_transmission_rays == 0) ==> update
            == TransmissionUpdate::Keep,
{
    if !has_scene {
        TransmissionUpdate::Full
    } else if flags.transmission && num_transmission_rays != 0 {
        TransmissionUpdate::Trace
    } else {
        TransmissionUpdate::Keep
    }
}

} // verus!
