//! The timeline builder: all channels of one part in one animation.

use crate::dict::CellDictionary;
use crate::error::{ParseAnimationError, TrackError};
use crate::keyframe::{AttributeKind, AttributeTrack};
use crate::track::{channel_len, channel_spec, sample_track, track_error, track_ok, ChannelData};
use vstd::prelude::*;

verus! {

/// One sampled attribute of a part.
#[derive(Debug)]
pub struct Channel {
    pub kind: AttributeKind,
    pub data: ChannelData,
}

/// Which attribute feeds the depth slot of a part.
#[derive(Clone, Copy, Debug, PartialEq, Eq, Structural)]
pub enum DepthSource {
    Position,
    Priority,
}

/// The dense timeline of one part in one animation: one channel per attribute
/// track of the part, in track order.
#[derive(Debug)]
pub struct SampledTimeline {
    pub part_id: u32,
    pub parent_id: Option<u32>,
    pub frame_count: u32,
    pub fps: u32,
    pub depth_source: Option<DepthSource>,
    pub channels: Vec<Channel>,
}

impl SampledTimeline {
    /// Every channel holds exactly one entry per frame.
    pub open spec fn dense(&self) -> bool {
        forall|i: int| 0 <= i < self.channels.len() ==> channel_len(#[trigger] self.channels[i].data) == self.frame_count
    }
}

/// Some track of the given kind has keyframes.
pub open spec fn has_keyed(tracks: Seq<AttributeTrack>, kind: AttributeKind) -> bool {
    exists|i: int| 0 <= i < tracks.len() && tracks[i].kind == kind && tracks[i].keyframes.len() > 0
}

/// Position Z and priority both drive the depth slot of the part.
pub open spec fn depth_conflict(tracks: Seq<AttributeTrack>) -> bool {
    has_keyed(tracks, AttributeKind::PositionZ) && has_keyed(tracks, AttributeKind::Priority)
}

/// The attribute that claims the depth slot, if any does.
pub open spec fn depth_source_of(tracks: Seq<AttributeTrack>) -> Option<DepthSource> {
    if has_keyed(tracks, AttributeKind::PositionZ) {
        Some(DepthSource::Position)
    } else if has_keyed(tracks, AttributeKind::Priority) {
        Some(DepthSource::Priority)
    } else {
        None
    }
}

/// Whether every track of a part can be sampled, with no conflict over depth.
pub open spec fn timeline_ok(tracks: Seq<AttributeTrack>, frame_count: u32, sheets: Seq<Seq<String>>) -> bool {
    !depth_conflict(tracks) && forall|i: int|
        0 <= i < tracks.len() ==> track_ok(#[trigger] tracks[i], frame_count, sheets)
}

/// The error of a part that cannot be sampled: the depth conflict, checked
/// first, or else the error of its first track that cannot be sampled.
pub open spec fn timeline_error(tracks: Seq<AttributeTrack>, frame_count: u32, sheets: Seq<Seq<String>>, e: TrackError) -> bool {
    if depth_conflict(tracks) {
        e.error is ConflictPositionZ && (e.attribute is PositionZ || e.attribute is Priority)
    } else {
        exists|i: int|
            0 <= i < tracks.len() && !track_ok(tracks[i], frame_count, sheets) && (forall|j: int|
                0 <= j < i ==> track_ok(#[trigger] tracks[j], frame_count, sheets))
                && track_error(tracks[i], frame_count, sheets, e)
    }
}

/// The timeline of a part: its identity, the animation's rate and length, and one
/// channel per track that meets that track's contract.
pub open spec fn timeline_spec(
    tracks: Seq<AttributeTrack>,
    frame_count: u32,
    fps: u32,
    sheets: Seq<Seq<String>>,
    part_id: u32,
    parent_id: Option<u32>,
    t: SampledTimeline,
) -> bool {
    &&& t.part_id == part_id
    &&& t.parent_id == parent_id
    &&& t.frame_count == frame_count
    &&& t.fps == fps
    &&& t.depth_source == depth_source_of(tracks)
    &&& t.channels.len() == tracks.len()
    &&& forall|i: int|
        0 <= i < tracks.len() ==> t.channels[i].kind == tracks[i].kind && channel_spec(
            tracks[i],
            frame_count,
            sheets,
            #[trigger] t.channels[i].data,
        )
    &&& t.dense()
}

/// A channel that meets its track's contract has one entry per frame.
pub proof fn lemma_channel_density(track: AttributeTrack, frame_count: u32, sheets: Seq<Seq<String>>, data: ChannelData)
    requires
        channel_spec(track, frame_count, sheets, data),
    ensures
        channel_len(data) == frame_count,
{
}

/// Whether some track of the kind has keyframes.
fn find_keyed(tracks: &Vec<AttributeTrack>, kind: AttributeKind) -> (r: bool)
    ensures
        r == has_keyed(tracks@, kind),
{
    let mut i: usize = 0;
    while i < tracks.len()
        invariant
            i <= tracks.len(),
            forall|j: int| 0 <= j < i ==> !(tracks[j].kind == kind && tracks[j].keyframes.len() > 0),
        decreases tracks.len() - i,
    {
        if tracks[i].kind == kind && tracks[i].keyframes.len() > 0 {
            return true;
        }
        i += 1;
    }
    false
}

/// Samples every attribute track of one part over `frame_count` frames.
///
/// A part whose position Z and priority tracks both have keyframes is refused
/// before any track is sampled; otherwise the first track that cannot be
/// sampled decides the error.
pub fn build_timeline(
    part_id: u32,
    parent_id: Option<u32>,
    frame_count: u32,
    fps: u32,
    tracks: &Vec<AttributeTrack>,
    dict: &CellDictionary,
) -> (r: Result<SampledTimeline, TrackError>)
    ensures
        r is Ok <==> timeline_ok(tracks@, frame_count, dict@),
        r matches Ok(t) ==> timeline_spec(tracks@, frame_count, fps, dict@, part_id, parent_id, t),
        r matches Err(e) ==> timeline_error(tracks@, frame_count, dict@, e),
        depth_conflict(tracks@) ==> (r matches Err(e) && e.error is ConflictPositionZ),
{
    let keyed_z = find_keyed(tracks, AttributeKind::PositionZ);
    let keyed_priority = find_keyed(tracks, AttributeKind::Priority);
    if keyed_z && keyed_priority {
        return Err(TrackError {
            attribute: AttributeKind::Priority,
            time: None,
            error: ParseAnimationError::ConflictPositionZ,
        });
    }
    let depth_source = if keyed_z {
        Some(DepthSource::Position)
    } else if keyed_priority {
        Some(DepthSource::Priority)
    } else {
        None
    };
    let mut channels: Vec<Channel> = Vec::new();
    let mut i: usize = 0;
    while i < tracks.len()
        invariant
            !depth_conflict(tracks@),
            i <= tracks.len(),
            channels.len() == i,
            forall|j: int| 0 <= j < i ==> track_ok(#[trigger] tracks[j], frame_count, dict@),
            forall|j: int|
                0 <= j < i ==> channels[j].kind == tracks[j].kind && channel_spec(
                    tracks[j],
                    frame_count,
                    dict@,
                    #[trigger] channels[j].data,
                ),
        decreases tracks.len() - i,
    {
        match sample_track(&tracks[i], frame_count, dict) {
            Ok(data) => channels.push(Channel { kind: tracks[i].kind, data }),
            Err(e) => {
                assert(0 <= i < tracks.len() && !track_ok(tracks[i as int], frame_count, dict@) && (forall|
                    j: int,
                | 0 <= j < i ==> track_ok(#[trigger] tracks[j], frame_count, dict@))
                    && track_error(tracks[i as int], frame_count, dict@, e));
                return Err(e);
            },
        }
        i += 1;
    }
    let t = SampledTimeline { part_id, parent_id, frame_count, fps, depth_source, channels };
    assert forall|j: int| 0 <= j < t.channels.len() implies channel_len(
        #[trigger] t.channels[j].data,
    ) == t.frame_count by {
        lemma_channel_density(tracks[j], frame_count, dict@, t.channels[j].data);
    }
    Ok(t)
}

} // verus!
