//! Errors of the conversion.

use crate::keyframe::{AttributeKind, Interpolation};
use vstd::prelude::*;

verus! {

/// What went wrong while turning authored animation data into timelines.
#[derive(Debug)]
pub enum ParseAnimationError {
    /// A part declares a negative index: its name and the index.
    PartIndexError(String, i32),
    NonSupportedFps { fps: u32 },
    NotSetFloatValue,
    NotSetBoolValue,
    NotSetMapId,
    NotSetCellName,
    NotSetColor,
    NotSetText,
    JsonDeserializeError { err: serde_json::Error, source: String },
    ConflictPositionZ,
    NonSupportedAttribute { attribute: AttributeKind },
    UnsupportedInterpolation { interpolation: Interpolation },
    /// Keyframe times of a track decrease somewhere.
    UnsortedKeyframes,
    /// A cell keyframe names a sheet that does not exist.
    UnknownCellMap { map_id: i32 },
    /// A cell keyframe names a cell absent from its sheet.
    UnknownCellName { map_id: i32, name: String },
    /// A pack lists a cell map by a name that the project lacks.
    UnknownCellMapName { name: String },
    /// A part refers to a pack that the project lacks.
    UnknownPack { name: String },
    /// A part refers to an animation that its pack lacks.
    UnknownAnimation { pack: String, name: String },
}


/// An error raised while sampling one attribute track, with the frame of the
/// keyframe at fault when there is one.
#[derive(Debug)]
pub struct TrackError {
    pub attribute: AttributeKind,
    pub time: Option<u32>,
    pub error: ParseAnimationError,
}

/// An error with the place in the project where it arose.
#[derive(Debug)]
pub struct ConvertError {
    pub pack: String,
    pub animation: Option<String>,
    pub part: Option<String>,
    pub attribute: Option<AttributeKind>,
    pub time: Option<u32>,
    pub error: ParseAnimationError,
}

impl ParseAnimationError {
    /// Errors that abort the whole conversion whatever the policy: the project
    /// itself is malformed, or holds curves that cannot be sampled.
    pub open spec fn is_structural(&self) -> bool {
        ||| self is PartIndexError
        ||| self is UnsupportedInterpolation
        ||| self is UnsortedKeyframes
        ||| self is UnknownCellMapName
        ||| self is UnknownPack
        ||| self is UnknownAnimation
    }
}

} // verus!
