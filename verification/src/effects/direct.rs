use vstd::prelude::*;

verus! {

/// Selects which parts of a simulated direct sound path an effect applies.
#[derive(Debug, Clone, Copy, PartialEq, Eq, Structural, PartialOrd, Ord, Hash)]
pub struct DirectApplyFlags {
    pub distance_attenuation: bool,
    pub air_absorption: bool,
    pub directivity: bool,
    pub occlusion: bool,
    pub transmission: bool,
    pub delay: bool,
}

/// How transmission through occluding geometry is modelled.
#[derive(Debug, Clone, Copy, PartialEq, Eq, Structural)]
pub enum TransmissionType {
    /// One transmission factor, the average over the frequency bands.
    FrequencyIndependent,
    /// One transmission factor per frequency band.
    FrequencyDependent,
}

/// How occlusion and transmission enter the gain and the per-band EQ of the direct effect.
#[derive(Debug, Clone, Copy, PartialEq, Eq, Structural)]
pub enum OcclusionTreatment {
    /// Occlusion is not applied.
    Unapplied,
    /// The overall gain is multiplied by the occlusion factor.
    OcclusionOnly,
    /// The overall gain is multiplied by the occlusion factor blended with the average
    /// transmission factor.
    AverageTransmission,
    /// Each band's EQ gain is multiplied by the occlusion factor blended with that band's
    /// transmission factor.
    PerBandTransmission,
}

impl DirectApplyFlags {
    /// Every part of the direct sound path is applied.
    pub fn all() -> (flags: Self)
        ensures
            flags == (DirectApplyFlags {
                distance_attenuation: true,
                air_absorption: true,
                directivity: true,
                occlusion: true,
                transmission: true,
                delay: true,
            }),
    {
        Self {
            distance_attenuation: true,
            air_absorption: true,
            directivity: true,
            occlusion: true,
            transmission: true,
            delay: true,
        }
    }

    /// No part of the direct sound path is applied.
    pub fn none() -> (flags: Self)
        ensures
            flags == (DirectApplyFlags {
                distance_attenuation: false,
                air_absorption: false,
                directivity: false,
                occlusion: false,
                transmission: false,
                delay: false,
            }),
    {
        Self {
            distance_attenuation: false,
            air_absorption: false,
            directivity: false,
            occlusion: false,
            transmission: false,
            delay: false,
        }
    }

    /// Whether the direct effect filters its input through the per-band EQ (and normalizes
    /// the EQ gains): when air absorption is applied, or frequency-dependent transmission.
    pub fn applies_eq(&self, transmission_type: TransmissionType) -> (eq: bool)
        ensures
            eq == (self.air_absorption || (self.transmission && transmission_type
                == TransmissionType::FrequencyDependent)),
    {
        self.air_absorption || (self.transmission && transmission_type
            == TransmissionType::FrequencyDependent)
    }

    /// How the direct effect applies occlusion: not at all without the occlusion flag; with
    /// it, through the transmission factors of the given type when transmission is applied,
    /// else through the occlusion factor alone.
    pub fn occlusion_treatment(&self, transmission_type: TransmissionType) -> (treatment:
        OcclusionTreatment)
        ensures
            !self.occlusion ==> treatment == OcclusionTreatment::Unapplied,
            self.occlusion && !self.transmission ==> treatment
                == OcclusionTreatment::OcclusionOnly,
            self.occlusion && self.transmission && transmission_type
                == TransmissionType::FrequencyIndependent ==> treatment
                == OcclusionTreatment::AverageTransmission,
            self.occlusion && self.transmission && transmission_type
                == TransmissionType::FrequencyDependent ==> treatment
                == OcclusionTreatment::PerBandTransmission,
    {
        if !self.occlusion {
            return OcclusionTreatment::Unapplied;
        }
        if self.transmission {
            match transmission_type {
                TransmissionType::FrequencyIndependent => OcclusionTreatment::AverageTransmission,
                TransmissionType::FrequencyDependent => OcclusionTreatment::PerBandTransmission,
            }
        } else {
            OcclusionTreatment::OcclusionOnly
        }
    }
}

} // verus!
