//! Sampling of one attribute track into one dense channel.

use crate::dict::CellDictionary;
use crate::error::{ParseAnimationError, TrackError};
use crate::fold::{
    fold_bool, fold_cell, fold_color, fold_effect, fold_float, fold_instance, fold_user, fold_user_fields,
    fold_vertex, neutral_instance_key, no_user_fields, user_fold,
    cell_error, cell_resolution, default_effect, first_map_id, first_name, effect_fold, first_color, first_simple,
    instance_fold, neutral_instance, truthy, user_accepted, user_error, vertex_fold, zero_vertex,
};
use crate::keyframe::{
    interpolations_of, sorted_times, times_of, AttributeKind, AttributeTrack, CellRef, EffectKey,
    InstanceKey, Interpolation, Offset, RawField, RawKeyframe, Rgba, UserFields, VertexKey, ONE_BITS,
    ZERO_BITS,
};
use crate::sample::{blended_value, blocks_sampling, sample_blended, sample_steps, step_value, Sample};
use vstd::prelude::*;

verus! {

/// The dense samples of one attribute, one entry per frame.
#[derive(Debug)]
pub enum ChannelData {
    /// A float attribute. With `to_radians` the values are angles in degrees
    /// that the engine takes in radians.
    Scalar { samples: Vec<Sample<u32>>, to_radians: bool },
    Color(Vec<Sample<Rgba>>),
    Vertex(Vec<Sample<VertexKey>>),
    Flag(Vec<bool>),
    Cell(Vec<Option<CellRef>>),
    Instance(Vec<InstanceKey>),
    Effect(Vec<Option<EffectKey>>),
    /// Each frame names the user keyframe in force, an index into `payloads`,
    /// which holds the parsed payload of every user keyframe in order; `fields`
    /// holds, per frame, the raw sub-fields of that keyframe.
    User {
        frames: Vec<Option<usize>>,
        payloads: Vec<serde_json::Value>,
        fields: Vec<Option<UserFields>>,
    },
}

/// Float attributes, sampled with interpolation.
pub open spec fn is_scalar_kind(kind: AttributeKind) -> bool {
    ||| kind is PositionX
    ||| kind is PositionY
    ||| kind is PositionZ
    ||| kind is Priority
    ||| kind is RotationZ
    ||| kind is ScaleX
    ||| kind is ScaleY
    ||| kind is Alpha
}

/// Boolean attributes, sampled with step holds. For `Hide` a true flag hides
/// the part.
pub open spec fn is_flag_kind(kind: AttributeKind) -> bool {
    kind is FlipH || kind is FlipV || kind is Hide
}

/// Attributes that have a sampler.
pub open spec fn is_supported_kind(kind: AttributeKind) -> bool {
    !(kind is RotationX || kind is RotationY || kind is Other)
}

/// Attributes whose keyframe intervals are interpolated.
pub open spec fn is_interpolated_kind(kind: AttributeKind) -> bool {
    is_scalar_kind(kind) || kind is Color || kind is Vertex
}

/// Value of a float attribute before its first keyframe: scales and alpha are 1,
/// positions, depth and rotation 0.
pub open spec fn scalar_default(kind: AttributeKind) -> u32 {
    if kind is ScaleX || kind is ScaleY || kind is Alpha {
        ONE_BITS
    } else {
        ZERO_BITS
    }
}

/// The sign bit flipped: the exact negation of a single-precision value.
pub open spec fn negated(bits: u32) -> u32 {
    bits ^ 0x8000_0000u32
}

/// Priority shares the depth slot with position Z, with its sign inverted:
/// a higher priority lies nearer, at a smaller Z.
pub open spec fn scalar_value(kind: AttributeKind, bits: u32) -> u32 {
    if kind is Priority {
        negated(bits)
    } else {
        bits
    }
}

pub open spec fn zero_rgba() -> Rgba {
    Rgba { r: 0, g: 0, b: 0, a: 0 }
}

/// Whether the fields of one keyframe fold into a value of the attribute.
pub open spec fn key_ok(kind: AttributeKind, fields: Seq<RawField>, sheets: Seq<Seq<String>>) -> bool {
    if is_scalar_kind(kind) || is_flag_kind(kind) {
        first_simple(fields) is Some
    } else if kind is Color {
        first_color(fields) is Some
    } else if kind is Cell {
        cell_resolution(fields, sheets) is Some
    } else if kind is User {
        user_accepted(fields)
    } else {
        true
    }
}

/// The error of one keyframe whose fields do not fold.
pub open spec fn key_error(
    kind: AttributeKind,
    fields: Seq<RawField>,
    sheets: Seq<Seq<String>>,
    e: ParseAnimationError,
) -> bool {
    if is_scalar_kind(kind) {
        e is NotSetFloatValue
    } else if is_flag_kind(kind) {
        e is NotSetBoolValue
    } else if kind is Color {
        e is NotSetColor
    } else if kind is Cell {
        cell_error(fields, sheets, e)
    } else {
        user_error(fields, e)
    }
}

/// Keyframe `i` is the first one whose fields do not fold.
pub open spec fn first_bad_key(
    kind: AttributeKind,
    keys: Seq<RawKeyframe>,
    sheets: Seq<Seq<String>>,
    i: int,
) -> bool {
    &&& 0 <= i < keys.len()
    &&& !key_ok(kind, keys[i].fields@, sheets)
    &&& forall|j: int| 0 <= j < i ==> key_ok(kind, keys[j].fields@, sheets)
}

/// Whether a track can be sampled over `frame_count` frames.
pub open spec fn track_ok(track: AttributeTrack, frame_count: u32, sheets: Seq<Seq<String>>) -> bool {
    let keys = track.keyframes@;
    &&& is_supported_kind(track.kind)
    &&& sorted_times(times_of(keys))
    &&& forall|i: int| 0 <= i < keys.len() ==> key_ok(track.kind, keys[i].fields@, sheets)
    &&& is_interpolated_kind(track.kind) ==> forall|j: int|
        !blocks_sampling(times_of(keys), interpolations_of(keys), frame_count as int, j)
}

/// The error that sampling a failing track reports: an unsupported attribute,
/// then unsorted times, then the first keyframe that does not fold, then the
/// first interval whose interpolation needs curve data.
pub open spec fn track_error(
    track: AttributeTrack,
    frame_count: u32,
    sheets: Seq<Seq<String>>,
    e: TrackError,
) -> bool {
    let keys = track.keyframes@;
    let times = times_of(keys);
    let interps = interpolations_of(keys);
    &&& e.attribute == track.kind
    &&& if !is_supported_kind(track.kind) {
        e.error matches ParseAnimationError::NonSupportedAttribute { attribute }
            && attribute == track.kind && e.time is None
    } else if !sorted_times(times) {
        e.error is UnsortedKeyframes
    } else if exists|i: int| first_bad_key(track.kind, keys, sheets, i) {
        exists|i: int|
            first_bad_key(track.kind, keys, sheets, i) && e.time == Some(keys[i].time) && key_error(
                track.kind,
                keys[i].fields@,
                sheets,
                e.error,
            )
    } else {
        exists|i: int|
            {
                &&& blocks_sampling(times, interps, frame_count as int, i)
                &&& forall|j: int|
                    0 <= j < i ==> !blocks_sampling(times, interps, frame_count as int, j)
                &&& e.time == Some(times[i])
                &&& e.error matches ParseAnimationError::UnsupportedInterpolation { interpolation }
                &&& interpolation == interps[i]
            }
    }
}

/// The instance descriptor in force at each keyframe: each keyframe's fields
/// override the descriptor of the keyframe before it.
pub open spec fn instance_values(keys: Seq<RawKeyframe>) -> Seq<InstanceKey>
    decreases keys.len(),
{
    if keys.len() == 0 {
        Seq::empty()
    } else {
        let prev = instance_values(keys.drop_last());
        let base = if prev.len() == 0 {
            neutral_instance()
        } else {
            prev.last()
        };
        prev.push(instance_fold(base, keys.last().fields@))
    }
}

pub proof fn lemma_instance_values_len(keys: Seq<RawKeyframe>)
    ensures
        instance_values(keys).len() == keys.len(),
    decreases keys.len(),
{
    if keys.len() > 0 {
        lemma_instance_values_len(keys.drop_last());
    }
}

/// The dense channel that a track that can be sampled yields.
pub open spec fn channel_spec(
    track: AttributeTrack,
    frame_count: u32,
    sheets: Seq<Seq<String>>,
    data: ChannelData,
) -> bool {
    let keys = track.keyframes@;
    let kind = track.kind;
    let n = keys.len();
    let times = times_of(keys);
    let interps = interpolations_of(keys);
    let fc = frame_count as int;
    if is_scalar_kind(kind) {
        let values = Seq::new(n, |i: int| scalar_value(kind, first_simple(keys[i].fields@)->Some_0));
        data matches ChannelData::Scalar { samples, to_radians } && to_radians == (kind is RotationZ)
            && samples.len() == fc && forall|f: int|
            0 <= f < fc ==> samples[f] == blended_value(times, interps, values, scalar_default(kind), f)
    } else if kind is Color {
        let values = Seq::new(n, |i: int| first_color(keys[i].fields@)->Some_0);
        data matches ChannelData::Color(samples) && samples.len() == fc && forall|f: int|
            0 <= f < fc ==> samples[f] == blended_value(times, interps, values, zero_rgba(), f)
    } else if kind is Vertex {
        let values = Seq::new(n, |i: int| vertex_fold(zero_vertex(), keys[i].fields@));
        data matches ChannelData::Vertex(samples) && samples.len() == fc && forall|f: int|
            0 <= f < fc ==> samples[f] == blended_value(times, interps, values, zero_vertex(), f)
    } else if is_flag_kind(kind) {
        let values = Seq::new(n, |i: int| truthy(first_simple(keys[i].fields@)->Some_0));
        data matches ChannelData::Flag(flags) && flags.len() == fc && forall|f: int|
            0 <= f < fc ==> flags[f] == step_value(times, values, false, f)
    } else if kind is Cell {
        let values = Seq::new(
            n,
            |i: int| Some(cell_resolution(keys[i].fields@, sheets)->Some_0),
        );
        data matches ChannelData::Cell(cells) && cells.len() == fc && forall|f: int|
            0 <= f < fc ==> cells[f] == step_value(times, values, None, f)
    } else if kind is Instance {
        data matches ChannelData::Instance(instances) && instances.len() == fc && forall|f: int|
            0 <= f < fc ==> instances[f] == step_value(
                times,
                instance_values(keys),
                neutral_instance(),
                f,
            )
    } else if kind is Effect {
        let values = Seq::new(n, |i: int| Some(effect_fold(default_effect(), keys[i].fields@)));
        data matches ChannelData::Effect(effects) && effects.len() == fc && forall|f: int|
            0 <= f < fc ==> effects[f] == step_value(times, values, None, f)
    } else {
        let values = Seq::new(n, |i: int| Some(i as usize));
        let subs = Seq::new(n, |i: int| Some(user_fold(no_user_fields(), keys[i].fields@)));
        data matches ChannelData::User { frames, payloads, fields } && payloads.len() == n
            && frames.len() == fc && fields.len() == fc && forall|f: int|
            0 <= f < fc ==> frames[f] == step_value(times, values, None, f) && fields[f]
                == step_value(times, subs, None, f)
    }
}

/// The number of frames in a channel.
pub open spec fn channel_len(data: ChannelData) -> int {
    match data {
        ChannelData::Scalar { samples, .. } => samples.len() as int,
        ChannelData::Color(v) => v.len() as int,
        ChannelData::Vertex(v) => v.len() as int,
        ChannelData::Flag(v) => v.len() as int,
        ChannelData::Cell(v) => v.len() as int,
        ChannelData::Instance(v) => v.len() as int,
        ChannelData::Effect(v) => v.len() as int,
        ChannelData::User { frames, .. } => frames.len() as int,
    }
}

fn key_times(keys: &Vec<RawKeyframe>) -> (r: Vec<u32>)
    ensures
        r@ == times_of(keys@),
{
    let mut r: Vec<u32> = Vec::new();
    let mut i: usize = 0;
    while i < keys.len()
        invariant
            i <= keys.len(),
            r@ == times_of(keys@.subrange(0, i as int)),
        decreases keys.len() - i,
    {
        r.push(keys[i].time);
        i += 1;
        assert(times_of(keys@.subrange(0, i as int)) =~= r@);
    }
    assert(keys@.subrange(0, i as int) =~= keys@);
    r
}

fn key_interpolations(keys: &Vec<RawKeyframe>) -> (r: Vec<Interpolation>)
    ensures
        r@ == interpolations_of(keys@),
{
    let mut r: Vec<Interpolation> = Vec::new();
    let mut i: usize = 0;
    while i < keys.len()
        invariant
            i <= keys.len(),
            r@ == interpolations_of(keys@.subrange(0, i as int)),
        decreases keys.len() - i,
    {
        r.push(keys[i].interpolation);
        i += 1;
        assert(interpolations_of(keys@.subrange(0, i as int)) =~= r@);
    }
    assert(keys@.subrange(0, i as int) =~= keys@);
    r
}

/// Whether frames never decrease along the sequence.
pub fn is_sorted(times: &Vec<u32>) -> (r: bool)
    ensures
        r == sorted_times(times@),
{
    let mut i: usize = 1;
    if times.len() == 0 {
        return true;
    }
    while i < times.len()
        invariant
            1 <= i <= times.len(),
            forall|a: int, b: int| 0 <= a <= b < i ==> times[a] <= times[b],
        decreases times.len() - i,
    {
        if times[i] < times[i - 1] {
            return false;
        }
        i += 1;
    }
    true
}

/// What folding every keyframe of a track yields: the values when every
/// keyframe folds, otherwise the error of the first that does not.
pub open spec fn fold_outcome<T>(
    kind: AttributeKind,
    keys: Seq<RawKeyframe>,
    sheets: Seq<Seq<String>>,
    r: Result<Vec<T>, TrackError>,
    values: Seq<T>,
) -> bool {
    match r {
        Ok(v) => (forall|i: int| 0 <= i < keys.len() ==> key_ok(kind, keys[i].fields@, sheets))
            && v@ == values,
        Err(e) => e.attribute == kind && exists|i: int|
            first_bad_key(kind, keys, sheets, i) && e.time == Some(keys[i].time) && key_error(
                kind,
                keys[i].fields@,
                sheets,
                e.error,
            ),
    }
}

fn scalar_values(kind: AttributeKind, keys: &Vec<RawKeyframe>, dict: &CellDictionary) -> (r: Result<Vec<u32>, TrackError>)
    requires
        is_scalar_kind(kind),
    ensures
        fold_outcome(
            kind,
            keys@,
            dict@,
            r,
            Seq::new(keys.len() as nat, |i: int| scalar_value(kind, first_simple(keys@[i].fields@)->Some_0)),
        ),
{
    let mut v: Vec<u32> = Vec::new();
    let mut i: usize = 0;
    while i < keys.len()
        invariant
            is_scalar_kind(kind),
            i <= keys.len(),
            v.len() == i,
            forall|j: int| 0 <= j < i ==> key_ok(kind, keys[j].fields@, dict@),
            forall|j: int| 0 <= j < i ==> v[j] == scalar_value(kind, first_simple(keys@[j].fields@)->Some_0),
        decreases keys.len() - i,
    {
        match fold_float(&keys[i].fields) {
            Ok(b) => {
                if kind == AttributeKind::Priority {
                    v.push(b ^ 0x8000_0000u32);
                } else {
                    v.push(b);
                }
            },
            Err(error) => {
                assert(first_bad_key(kind, keys@, dict@, i as int));
                return Err(TrackError { attribute: kind, time: Some(keys[i].time), error });
            },
        }
        i += 1;
    }
    assert(v@ =~= Seq::new(keys.len() as nat, |i: int| scalar_value(kind, first_simple(keys@[i].fields@)->Some_0)));
    Ok(v)
}

fn flag_values(kind: AttributeKind, keys: &Vec<RawKeyframe>, dict: &CellDictionary) -> (r: Result<Vec<bool>, TrackError>)
    requires
        is_flag_kind(kind),
    ensures
        fold_outcome(
            kind,
            keys@,
            dict@,
            r,
            Seq::new(keys.len() as nat, |i: int| truthy(first_simple(keys@[i].fields@)->Some_0)),
        ),
{
    let mut v: Vec<bool> = Vec::new();
    let mut i: usize = 0;
    while i < keys.len()
        invariant
            is_flag_kind(kind),
            i <= keys.len(),
            v.len() == i,
            forall|j: int| 0 <= j < i ==> key_ok(kind, keys[j].fields@, dict@),
            forall|j: int| 0 <= j < i ==> v[j] == truthy(first_simple(keys@[j].fields@)->Some_0),
        decreases keys.len() - i,
    {
        match fold_bool(&keys[i].fields) {
            Ok(b) => v.push(b),
            Err(error) => {
                assert(first_bad_key(kind, keys@, dict@, i as int));
                return Err(TrackError { attribute: kind, time: Some(keys[i].time), error });
            },
        }
        i += 1;
    }
    assert(v@ =~= Seq::new(keys.len() as nat, |i: int| truthy(first_simple(keys@[i].fields@)->Some_0)));
    Ok(v)
}

fn color_values(keys: &Vec<RawKeyframe>, dict: &CellDictionary) -> (r: Result<Vec<Rgba>, TrackError>)
    ensures
        fold_outcome(
            AttributeKind::Color,
            keys@,
            dict@,
            r,
            Seq::new(keys.len() as nat, |i: int| first_color(keys@[i].fields@)->Some_0),
        ),
{
    let ghost kind = AttributeKind::Color;
    let mut v: Vec<Rgba> = Vec::new();
    let mut i: usize = 0;
    while i < keys.len()
        invariant
            kind == AttributeKind::Color,
            i <= keys.len(),
            v.len() == i,
            forall|j: int| 0 <= j < i ==> key_ok(kind, keys[j].fields@, dict@),
            forall|j: int| 0 <= j < i ==> v[j] == first_color(keys@[j].fields@)->Some_0,
        decreases keys.len() - i,
    {
        match fold_color(&keys[i].fields) {
            Ok(c) => v.push(c),
            Err(error) => {
                assert(first_bad_key(kind, keys@, dict@, i as int));
                return Err(TrackError { attribute: AttributeKind::Color, time: Some(keys[i].time), error });
            },
        }
        i += 1;
    }
    assert(v@ =~= Seq::new(keys.len() as nat, |i: int| first_color(keys@[i].fields@)->Some_0));
    Ok(v)
}

fn cell_values(keys: &Vec<RawKeyframe>, dict: &CellDictionary) -> (r: Result<Vec<Option<CellRef>>, TrackError>)
    ensures
        fold_outcome(
            AttributeKind::Cell,
            keys@,
            dict@,
            r,
            Seq::new(keys.len() as nat, |i: int| Some(cell_resolution(keys@[i].fields@, dict@)->Some_0)),
        ),
{
    let ghost kind = AttributeKind::Cell;
    let mut v: Vec<Option<CellRef>> = Vec::new();
    let mut i: usize = 0;
    while i < keys.len()
        invariant
            kind == AttributeKind::Cell,
            i <= keys.len(),
            v.len() == i,
            forall|j: int| 0 <= j < i ==> key_ok(kind, keys[j].fields@, dict@),
            forall|j: int| 0 <= j < i ==> v[j] == Some(cell_resolution(keys@[j].fields@, dict@)->Some_0),
        decreases keys.len() - i,
    {
        match fold_cell(&keys[i].fields, dict) {
            Ok(c) => v.push(Some(c)),
            Err(error) => {
                assert(first_bad_key(kind, keys@, dict@, i as int));
                return Err(TrackError { attribute: AttributeKind::Cell, time: Some(keys[i].time), error });
            },
        }
        i += 1;
    }
    assert(v@ =~= Seq::new(keys.len() as nat, |i: int| Some(cell_resolution(keys@[i].fields@, dict@)->Some_0)));
    Ok(v)
}

fn user_values(keys: &Vec<RawKeyframe>, dict: &CellDictionary) -> (r: Result<Vec<serde_json::Value>, TrackError>)
    ensures
        match r {
            Ok(v) => v.len() == keys.len() && forall|i: int|
                0 <= i < keys.len() ==> key_ok(AttributeKind::User, keys[i].fields@, dict@),
            Err(e) => e.attribute == AttributeKind::User && exists|i: int|
                first_bad_key(AttributeKind::User, keys@, dict@, i) && e.time == Some(keys[i].time)
                    && key_error(AttributeKind::User, keys[i].fields@, dict@, e.error),
        },
{
    let ghost kind = AttributeKind::User;
    let mut v: Vec<serde_json::Value> = Vec::new();
    let mut i: usize = 0;
    while i < keys.len()
        invariant
            kind == AttributeKind::User,
            i <= keys.len(),
            v.len() == i,
            forall|j: int| 0 <= j < i ==> key_ok(kind, keys[j].fields@, dict@),
        decreases keys.len() - i,
    {
        match fold_user(&keys[i].fields) {
            Ok(p) => v.push(p),
            Err(error) => {
                assert(first_bad_key(kind, keys@, dict@, i as int));
                return Err(TrackError { attribute: AttributeKind::User, time: Some(keys[i].time), error });
            },
        }
        i += 1;
    }
    Ok(v)
}

fn instance_values_of(keys: &Vec<RawKeyframe>) -> (r: Vec<InstanceKey>)
    ensures
        r@ == instance_values(keys@),
{
    let mut v: Vec<InstanceKey> = Vec::new();
    let mut i: usize = 0;
    while i < keys.len()
        invariant
            i <= keys.len(),
            v@ == instance_values(keys@.subrange(0, i as int)),
        decreases keys.len() - i,
    {
        let ghost prefix = keys@.subrange(0, i + 1);
        proof {
            assert(prefix.drop_last() =~= keys@.subrange(0, i as int));
            lemma_instance_values_len(keys@.subrange(0, i as int));
        }
        let base = if v.len() == 0 {
            neutral_instance_key()
        } else {
            v[v.len() - 1]
        };
        v.push(fold_instance(base, &keys[i].fields));
        i += 1;
    }
    assert(keys@.subrange(0, i as int) =~= keys@);
    v
}

fn vertex_values(keys: &Vec<RawKeyframe>) -> (r: Vec<VertexKey>)
    ensures
        r@ == Seq::new(keys.len() as nat, |i: int| vertex_fold(zero_vertex(), keys@[i].fields@)),
{
    let mut v: Vec<VertexKey> = Vec::new();
    let mut i: usize = 0;
    while i < keys.len()
        invariant
            i <= keys.len(),
            v.len() == i,
            forall|j: int| 0 <= j < i ==> v[j] == vertex_fold(zero_vertex(), keys@[j].fields@),
        decreases keys.len() - i,
    {
        v.push(fold_vertex(&keys[i].fields));
        i += 1;
    }
    assert(v@ =~= Seq::new(keys.len() as nat, |i: int| vertex_fold(zero_vertex(), keys@[i].fields@)));
    v
}

fn effect_values(keys: &Vec<RawKeyframe>) -> (r: Vec<Option<EffectKey>>)
    ensures
        r@ == Seq::new(keys.len() as nat, |i: int| Some(effect_fold(default_effect(), keys@[i].fields@))),
{
    let mut v: Vec<Option<EffectKey>> = Vec::new();
    let mut i: usize = 0;
    while i < keys.len()
        invariant
            i <= keys.len(),
            v.len() == i,
            forall|j: int| 0 <= j < i ==> v[j] == Some(effect_fold(default_effect(), keys@[j].fields@)),
        decreases keys.len() - i,
    {
        v.push(Some(fold_effect(&keys[i].fields)));
        i += 1;
    }
    assert(v@ =~= Seq::new(keys.len() as nat, |i: int| Some(effect_fold(default_effect(), keys@[i].fields@))));
    v
}

fn user_sub_values(keys: &Vec<RawKeyframe>) -> (r: Vec<Option<UserFields>>)
    ensures
        r@ == Seq::new(keys.len() as nat, |i: int| Some(user_fold(no_user_fields(), keys@[i].fields@))),
{
    let mut v: Vec<Option<UserFields>> = Vec::new();
    let mut i: usize = 0;
    while i < keys.len()
        invariant
            i <= keys.len(),
            v.len() == i,
            forall|j: int| 0 <= j < i ==> v[j] == Some(user_fold(no_user_fields(), keys@[j].fields@)),
        decreases keys.len() - i,
    {
        v.push(Some(fold_user_fields(&keys[i].fields)));
        i += 1;
    }
    assert(v@ =~= Seq::new(keys.len() as nat, |i: int| Some(user_fold(no_user_fields(), keys@[i].fields@))));
    v
}

fn user_indices(n: usize) -> (r: Vec<Option<usize>>)
    ensures
        r@ == Seq::new(n as nat, |i: int| Some(i as usize)),
{
    let mut v: Vec<Option<usize>> = Vec::new();
    let mut i: usize = 0;
    while i < n
        invariant
            i <= n,
            v.len() == i,
            forall|j: int| 0 <= j < i ==> v[j] == Some(j as usize),
        decreases n - i,
    {
        v.push(Some(i));
        i += 1;
    }
    assert(v@ =~= Seq::new(n as nat, |i: int| Some(i as usize)));
    v
}

/// The error of the first interval whose interpolation cannot be sampled.
fn interpolation_error(kind: AttributeKind, times: &Vec<u32>, interps: &Vec<Interpolation>, i: usize) -> (r: TrackError)
    requires
        i < times.len(),
        times.len() == interps.len(),
    ensures
        r.attribute == kind,
        r.time == Some(times[i as int]),
        r.error matches ParseAnimationError::UnsupportedInterpolation { interpolation }
            && interpolation == interps[i as int],
{
    TrackError {
        attribute: kind,
        time: Some(times[i]),
        error: ParseAnimationError::UnsupportedInterpolation { interpolation: interps[i] },
    }
}

/// Samples one attribute track over `frame_count` frames.
pub fn sample_track(track: &AttributeTrack, frame_count: u32, dict: &CellDictionary) -> (r: Result<ChannelData, TrackError>)
    ensures
        r is Ok <==> track_ok(*track, frame_count, dict@),
        r matches Ok(d) ==> channel_spec(*track, frame_count, dict@, d),
        r matches Err(e) ==> track_error(*track, frame_count, dict@, e),
{
    let kind = track.kind;
    let keys = &track.keyframes;
    if kind == AttributeKind::RotationX || kind == AttributeKind::RotationY || kind
        == AttributeKind::Other {
        return Err(TrackError {
            attribute: kind,
            time: None,
            error: ParseAnimationError::NonSupportedAttribute { attribute: kind },
        });
    }
    let times = key_times(keys);
    if !is_sorted(&times) {
        return Err(TrackError { attribute: kind, time: None, error: ParseAnimationError::UnsortedKeyframes });
    }
    let interps = key_interpolations(keys);
    match kind {
        AttributeKind::PositionX | AttributeKind::PositionY | AttributeKind::PositionZ
        | AttributeKind::Priority | AttributeKind::RotationZ | AttributeKind::ScaleX
        | AttributeKind::ScaleY | AttributeKind::Alpha => {
            let values = match scalar_values(kind, keys, dict) {
                Ok(v) => v,
                Err(e) => return Err(e),
            };
            let default = if kind == AttributeKind::ScaleX || kind == AttributeKind::ScaleY
                || kind == AttributeKind::Alpha {
                ONE_BITS
            } else {
                ZERO_BITS
            };
            match sample_blended(&times, &interps, &values, default, frame_count) {
                Ok(samples) => Ok(
                    ChannelData::Scalar { samples, to_radians: kind == AttributeKind::RotationZ },
                ),
                Err(i) => Err(interpolation_error(kind, &times, &interps, i)),
            }
        },
        AttributeKind::Color => {
            let values = match color_values(keys, dict) {
                Ok(v) => v,
                Err(e) => return Err(e),
            };
            match sample_blended(&times, &interps, &values, Rgba { r: 0, g: 0, b: 0, a: 0 }, frame_count) {
                Ok(samples) => Ok(ChannelData::Color(samples)),
                Err(i) => Err(interpolation_error(kind, &times, &interps, i)),
            }
        },
        AttributeKind::Vertex => {
            let values = vertex_values(keys);
            let o = Offset { x: 0, y: 0 };
            match sample_blended(&times, &interps, &values, VertexKey { lt: o, rt: o, lb: o, rb: o }, frame_count) {
                Ok(samples) => Ok(ChannelData::Vertex(samples)),
                Err(i) => Err(interpolation_error(kind, &times, &interps, i)),
            }
        },
        AttributeKind::FlipH | AttributeKind::FlipV | AttributeKind::Hide => {
            let values = match flag_values(kind, keys, dict) {
                Ok(v) => v,
                Err(e) => return Err(e),
            };
            Ok(ChannelData::Flag(sample_steps(&times, &values, false, frame_count)))
        },
        AttributeKind::Cell => {
            let values = match cell_values(keys, dict) {
                Ok(v) => v,
                Err(e) => return Err(e),
            };
            Ok(ChannelData::Cell(sample_steps(&times, &values, None, frame_count)))
        },
        AttributeKind::Instance => {
            let values = instance_values_of(keys);
            proof {
                lemma_instance_values_len(keys@);
            }
            Ok(ChannelData::Instance(sample_steps(&times, &values, neutral_instance_key(), frame_count)))
        },
        AttributeKind::Effect => {
            let values = effect_values(keys);
            Ok(ChannelData::Effect(sample_steps(&times, &values, None, frame_count)))
        },
        _ => {
            let payloads = match user_values(keys, dict) {
                Ok(v) => v,
                Err(e) => return Err(e),
            };
            let indices = user_indices(keys.len());
            let frames = sample_steps(&times, &indices, None, frame_count);
            let subs = user_sub_values(keys);
            let fields = sample_steps(&times, &subs, None, frame_count);
            Ok(ChannelData::User { frames, payloads, fields })
        },
    }
}

/// A cell track with a keyframe that lacks the name field cannot be sampled;
/// when that keyframe carries a sheet id and is the first that does not fold in
/// a sorted track, the track fails with the missing name at that keyframe's frame.
pub proof fn lemma_cell_track_without_name_fails(
    track: AttributeTrack,
    frame_count: u32,
    sheets: Seq<Seq<String>>,
    i: int,
    e: TrackError,
)
    requires
        track.kind is Cell,
        0 <= i < track.keyframes.len(),
        first_name(track.keyframes@[i].fields@) is None,
    ensures
        !track_ok(track, frame_count, sheets),
        sorted_times(times_of(track.keyframes@)) && first_map_id(track.keyframes@[i].fields@) is Some
            && (forall|j: int|
            0 <= j < i ==> key_ok(track.kind, #[trigger] track.keyframes@[j].fields@, sheets))
            && track_error(track, frame_count, sheets, e) ==> e.error is NotSetCellName && e.time
            == Some(track.keyframes@[i].time),
{
    let keys = track.keyframes@;
    assert(!key_ok(track.kind, keys[i].fields@, sheets));
    if sorted_times(times_of(keys)) && first_map_id(keys[i].fields@) is Some && (forall|j: int|
        0 <= j < i ==> key_ok(track.kind, #[trigger] keys[j].fields@, sheets)) && track_error(
        track,
        frame_count,
        sheets,
        e,
    ) {
        assert(first_bad_key(track.kind, keys, sheets, i));
        let i2 = choose|i2: int|
            first_bad_key(track.kind, keys, sheets, i2) && e.time == Some(keys[i2].time) && key_error(
                track.kind,
                keys[i2].fields@,
                sheets,
                e.error,
            );
        if i2 < i {
            assert(key_ok(track.kind, keys[i2].fields@, sheets));
        }
        if i2 > i {
            assert(key_ok(track.kind, keys[i].fields@, sheets));
        }
        assert(i2 == i);
    }
}

} // verus!
