use vstd::prelude::*;

verus! {

/// Arrangement of the speakers that audio is rendered to.
#[derive(Debug, Clone, Copy, PartialEq, Eq, Structural)]
pub enum SpeakerLayoutType {
    Mono,
    Stereo,
    Quadraphonic,
    FivePointOne,
    SevenPointOne,
    /// Speakers at positions given by the user.
    Custom,
}

/// Number of speakers of a predefined layout (a custom layout has no fixed count).
pub fn num_speakers_for_layout(layout_type: SpeakerLayoutType) -> (n: i16)
    requires
        layout_type != SpeakerLayoutType::Custom,
    ensures
        n == match layout_type {
            SpeakerLayoutType::Mono => 1i16,
            SpeakerLayoutType::Stereo => 2i16,
            SpeakerLayoutType::Quadraphonic => 4i16,
            SpeakerLayoutType::FivePointOne => 6i16,
            SpeakerLayoutType::SevenPointOne => 8i16,
            SpeakerLayoutType::Custom => 0i16,
        },
{
    match layout_type {
        SpeakerLayoutType::Mono => 1,
        SpeakerLayoutType::Stereo => 2,
        SpeakerLayoutType::Quadraphonic => 4,
        SpeakerLayoutType::FivePointOne => 6,
        SpeakerLayoutType::SevenPointOne => 8,
        SpeakerLayoutType::Custom => 0,
    }
}

} // verus!
