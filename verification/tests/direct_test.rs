use phonon::effects::direct::{DirectApplyFlags, OcclusionTreatment, TransmissionType};
use phonon::simulators::direct::{
    occlusion_update, transmission_update, OcclusionType, OcclusionUpdate, TransmissionUpdate,
};

#[test]
fn apply_flags_all_and_none() {
    let all = DirectApplyFlags::all();
    assert!(all.distance_attenuation && all.air_absorption && all.directivity);
    assert!(all.occlusion && all.transmission && all.delay);
    let none = DirectApplyFlags::none();
    assert!(!none.distance_attenuation && !none.air_absorption && !none.directivity);
    assert!(!none.occlusion && !none.transmission && !none.delay);
    assert_ne!(all, none);
}

#[test]
fn eq_is_applied_for_air_absorption_or_dependent_transmission() {
    let none = DirectApplyFlags::none();
    assert!(!none.applies_eq(TransmissionType::FrequencyDependent));

    let mut flags = DirectApplyFlags::none();
    flags.air_absorption = true;
    assert!(flags.applies_eq(TransmissionType::FrequencyIndependent));

    let mut flags = DirectApplyFlags::none();
    flags.transmission = true;
    assert!(flags.applies_eq(TransmissionType::FrequencyDependent));
    assert!(!flags.applies_eq(TransmissionType::FrequencyIndependent));
}

#[test]
fn occlusion_treatment_cases() {
    let all = DirectApplyFlags::all();
    assert_eq!(
        OcclusionTreatment::AverageTransmission,
        all.occlusion_treatment(TransmissionType::FrequencyIndependent)
    );
    assert_eq!(
        OcclusionTreatment::PerBandTransmission,
        all.occlusion_treatment(TransmissionType::FrequencyDependent)
    );

    let mut flags = DirectApplyFlags::none();
    assert_eq!(
        OcclusionTreatment::Unapplied,
        flags.occlusion_treatment(TransmissionType::FrequencyDependent)
    );
    flags.occlusion = true;
    assert_eq!(
        OcclusionTreatment::OcclusionOnly,
        flags.occlusion_treatment(TransmissionType::FrequencyDependent)
    );
    flags.occlusion = false;
    flags.transmission = true;
    assert_eq!(
        OcclusionTreatment::Unapplied,
        flags.occlusion_treatment(TransmissionType::FrequencyIndependent)
    );
}

#[test]
fn simulation_updates() {
    let all = DirectApplyFlags::all();
    let none = DirectApplyFlags::none();

    assert_eq!(OcclusionUpdate::Unoccluded, occlusion_update(all, false, OcclusionType::Raycast));
    assert_eq!(OcclusionUpdate::Raycast, occlusion_update(all, true, OcclusionType::Raycast));
    assert_eq!(OcclusionUpdate::Volumetric, occlusion_update(all, true, OcclusionType::Volumetric));
    assert_eq!(OcclusionUpdate::Keep, occlusion_update(none, true, OcclusionType::Volumetric));

    assert_eq!(TransmissionUpdate::Full, transmission_update(all, false, 1));
    assert_eq!(TransmissionUpdate::Trace, transmission_update(all, true, 1));
    assert_eq!(TransmissionUpdate::Keep, transmission_update(all, true, 0));
    assert_eq!(TransmissionUpdate::Keep, transmission_update(none, true, 3));
}
