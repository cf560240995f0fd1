//! The raw keyframe model: tagged fields, interpolation modes, attribute kinds,
//! and the typed values that the value folders produce.

use vstd::prelude::*;

verus! {

/// How the interval that starts at a keyframe is filled.
#[derive(Clone, Copy, Debug, PartialEq, Eq, Structural)]
pub enum Interpolation {
    Step,
    Linear,
    Hermite,
    Bezier,
    Accelerate,
    Decelerate,
}

impl Interpolation {
    /// Only step holds and linear blends can be sampled without curve control points.
    pub open spec fn supported(self) -> bool {
        self is Step || self is Linear
    }
}

/// The animatable property that an attribute track drives.
#[derive(Clone, Copy, Debug, PartialEq, Eq, Structural)]
pub enum AttributeKind {
    Cell,
    PositionX,
    PositionY,
    PositionZ,
    RotationX,
    RotationY,
    RotationZ,
    ScaleX,
    ScaleY,
    Alpha,
    Priority,
    FlipH,
    FlipV,
    Hide,
    Color,
    Vertex,
    User,
    Instance,
    Effect,
    /// An attribute of the authoring tool that no sampler handles.
    Other,
}

/// One tagged raw value of a keyframe. Floating-point payloads are held as
/// their IEEE-754 single-precision bit patterns.
#[derive(Clone, Debug)]
pub enum RawField {
    Simple(u32),
    Color(u32, u32, u32, u32),
    MapId(i32),
    Name(String),
    Text(String),
    LoopNum(i32),
    StartOffset(i32),
    EndOffset(i32),
    Speed(u32),
    Infinity(bool),
    Reverse(bool),
    PingPong(bool),
    Independent(bool),
    VertexLT(Offset),
    VertexRT(Offset),
    VertexLB(Offset),
    VertexRB(Offset),
    StartTime(i32),
    /// A user keyframe's integer.
    Integer(i32),
    /// A user keyframe's point.
    Point(Offset),
    /// A user keyframe's rectangle.
    Rect(UserRect),
}

/// A keyframe as authored: its frame, the interpolation of the interval that
/// starts at it, and its raw fields.
#[derive(Clone, Debug)]
pub struct RawKeyframe {
    pub time: u32,
    pub interpolation: Interpolation,
    pub fields: Vec<RawField>,
}

/// The sparse keyframes of one attribute of one part.
#[derive(Clone, Debug)]
pub struct AttributeTrack {
    pub kind: AttributeKind,
    pub keyframes: Vec<RawKeyframe>,
}

/// The frame of each keyframe of a sequence.
pub open spec fn times_of(keys: Seq<RawKeyframe>) -> Seq<u32> {
    keys.map_values(|k: RawKeyframe| k.time)
}

/// The interpolation mode of each keyframe of a sequence.
pub open spec fn interpolations_of(keys: Seq<RawKeyframe>) -> Seq<Interpolation> {
    keys.map_values(|k: RawKeyframe| k.interpolation)
}

/// Frames never decrease along the sequence.
pub open spec fn sorted_times(times: Seq<u32>) -> bool {
    forall|i: int, j: int| 0 <= i <= j < times.len() ==> times[i] <= times[j]
}

/// A sprite cell, resolved to numeric indices.
#[derive(Clone, Copy, Debug, PartialEq, Eq, Structural)]
pub struct CellRef {
    pub sheet_index: usize,
    pub cell_index: usize,
}

/// An RGBA colour, each channel as a single-precision bit pattern.
#[derive(Clone, Copy, Debug, PartialEq, Eq, Structural)]
pub struct Rgba {
    pub r: u32,
    pub g: u32,
    pub b: u32,
    pub a: u32,
}

/// Playback of a nested animation.
#[derive(Clone, Copy, Debug, PartialEq, Eq, Structural)]
pub struct InstanceKey {
    pub loop_count: i32,
    pub start_offset: i32,
    pub end_offset: i32,
    pub infinite: bool,
    pub reversed: bool,
    pub pingpong: bool,
    pub independent: bool,
    /// Speed rate as a single-precision bit pattern.
    pub speed_rate: u32,
}

/// A 2D offset, each coordinate a single-precision bit pattern.
#[derive(Clone, Copy, Debug, PartialEq, Eq, Structural)]
pub struct Offset {
    pub x: u32,
    pub y: u32,
}

/// A rectangle of a user keyframe, each member a single-precision bit pattern.
#[derive(Clone, Copy, Debug, PartialEq, Eq, Structural)]
pub struct UserRect {
    pub x: u32,
    pub y: u32,
    pub w: u32,
    pub h: u32,
}

/// The raw sub-fields of a user keyframe beside its JSON payload.
#[derive(Clone, Copy, Debug, PartialEq, Eq)]
pub struct UserFields {
    pub integer: Option<i32>,
    pub point: Option<Offset>,
    pub rect: Option<UserRect>,
}

/// Offsets of the four corners of a quad.
#[derive(Clone, Copy, Debug, PartialEq, Eq, Structural)]
pub struct VertexKey {
    pub lt: Offset,
    pub rt: Offset,
    pub lb: Offset,
    pub rb: Offset,
}

/// Playback of an effect.
#[derive(Clone, Copy, Debug, PartialEq, Eq, Structural)]
pub struct EffectKey {
    pub start_time: i32,
    /// Speed as a single-precision bit pattern.
    pub speed: u32,
    pub independent: bool,
}

/// The bit pattern of `1.0f32`.
pub const ONE_BITS: u32 = 0x3f80_0000;

/// The bit pattern of `0.0f32`.
pub const ZERO_BITS: u32 = 0;

} // verus!
