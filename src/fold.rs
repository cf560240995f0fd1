//! Value folders: each turns the raw fields of one keyframe into one typed value.

use crate::dict::{find_position, position_of, CellDictionary};
use crate::error::ParseAnimationError;
use crate::json::{json_accepts, parse_json};
use crate::keyframe::{
    CellRef, EffectKey, InstanceKey, Offset, RawField, Rgba, UserFields, VertexKey, ONE_BITS,
};
use vstd::prelude::*;

verus! {

/// The first field of the sequence that `pick` maps to a value, mapped.
pub open spec fn first_some<T>(fields: Seq<RawField>, pick: spec_fn(RawField) -> Option<T>) -> Option<T>
    decreases fields.len(),
{
    if fields.len() == 0 {
        None
    } else if pick(fields[0]) is Some {
        pick(fields[0])
    } else {
        first_some(fields.drop_first(), pick)
    }
}

/// Skipping a field that `pick` does not map leaves the first mapped one unchanged.
proof fn lemma_first_some_skip<T>(fields: Seq<RawField>, pick: spec_fn(RawField) -> Option<T>, i: int)
    requires
        0 <= i < fields.len(),
        pick(fields[i]) is None,
    ensures
        first_some(fields.subrange(i, fields.len() as int), pick) == first_some(
            fields.subrange(i + 1, fields.len() as int),
            pick,
        ),
{
    assert(fields.subrange(i, fields.len() as int).drop_first() =~= fields.subrange(
        i + 1,
        fields.len() as int,
    ));
}

/// The first mapped field is the one at `i` when it is mapped and the fields
/// from `i` on are all that remain.
proof fn lemma_first_some_hit<T>(fields: Seq<RawField>, pick: spec_fn(RawField) -> Option<T>, i: int)
    requires
        0 <= i < fields.len(),
        pick(fields[i]) is Some,
    ensures
        first_some(fields.subrange(i, fields.len() as int), pick) == pick(fields[i]),
{
}

proof fn lemma_first_some_whole<T>(fields: Seq<RawField>, pick: spec_fn(RawField) -> Option<T>)
    ensures
        first_some(fields, pick) == first_some(fields.subrange(0, fields.len() as int), pick),
        first_some(fields.subrange(fields.len() as int, fields.len() as int), pick) is None,
{
    assert(fields.subrange(0, fields.len() as int) =~= fields);
}

pub open spec fn simple_of(f: RawField) -> Option<u32> {
    match f {
        RawField::Simple(v) => Some(v),
        _ => None,
    }
}

pub open spec fn color_of(f: RawField) -> Option<Rgba> {
    match f {
        RawField::Color(r, g, b, a) => Some(Rgba { r, g, b, a }),
        _ => None,
    }
}

pub open spec fn map_id_of(f: RawField) -> Option<i32> {
    match f {
        RawField::MapId(m) => Some(m),
        _ => None,
    }
}

pub open spec fn name_of(f: RawField) -> Option<Seq<char>> {
    match f {
        RawField::Name(n) => Some(n@),
        _ => None,
    }
}

pub open spec fn text_of(f: RawField) -> Option<Seq<char>> {
    match f {
        RawField::Text(t) => Some(t@),
        _ => None,
    }
}

/// The first scalar field, if any.
pub open spec fn first_simple(fields: Seq<RawField>) -> Option<u32> {
    first_some(fields, |f: RawField| simple_of(f))
}

/// A scalar is true exactly when it is not zero (of either sign).
pub open spec fn truthy(bits: u32) -> bool {
    bits & 0x7fff_ffffu32 != 0
}

/// The scalar of a float keyframe, as a bit pattern.
#[verifier::loop_isolation(false)]
pub fn fold_float(fields: &Vec<RawField>) -> (r: Result<u32, ParseAnimationError>)
    ensures
        match first_simple(fields@) {
            Some(v) => r == Ok::<u32, ParseAnimationError>(v),
            None => r matches Err(ParseAnimationError::NotSetFloatValue),
        },
{
    let ghost pick = |f: RawField| simple_of(f);
    proof {
        lemma_first_some_whole(fields@, pick);
    }
    let mut i: usize = 0;
    while i < fields.len()
        invariant
            i <= fields.len(),
            first_some(fields@, pick) == first_some(fields@.subrange(i as int, fields.len() as int), pick),
        decreases fields.len() - i,
    {
        if let RawField::Simple(v) = &fields[i] {
            proof {
                lemma_first_some_hit(fields@, pick, i as int);
            }
            return Ok(*v);
        }
        proof {
            lemma_first_some_skip(fields@, pick, i as int);
        }
        i += 1;
    }
    Err(ParseAnimationError::NotSetFloatValue)
}

/// The flag of a boolean keyframe: its first scalar, true when not zero.
pub fn fold_bool(fields: &Vec<RawField>) -> (r: Result<bool, ParseAnimationError>)
    ensures
        match first_simple(fields@) {
            Some(v) => r == Ok::<bool, ParseAnimationError>(truthy(v)),
            None => r matches Err(ParseAnimationError::NotSetBoolValue),
        },
{
    match fold_float(fields) {
        Ok(v) => Ok(v & 0x7fff_ffffu32 != 0),
        Err(_) => Err(ParseAnimationError::NotSetBoolValue),
    }
}

/// The first colour field, if any.
pub open spec fn first_color(fields: Seq<RawField>) -> Option<Rgba> {
    first_some(fields, |f: RawField| color_of(f))
}

/// The colour of a colour keyframe.
#[verifier::loop_isolation(false)]
pub fn fold_color(fields: &Vec<RawField>) -> (r: Result<Rgba, ParseAnimationError>)
    ensures
        match first_color(fields@) {
            Some(c) => r == Ok::<Rgba, ParseAnimationError>(c),
            None => r matches Err(ParseAnimationError::NotSetColor),
        },
{
    let ghost pick = |f: RawField| color_of(f);
    proof {
        lemma_first_some_whole(fields@, pick);
    }
    let mut i: usize = 0;
    while i < fields.len()
        invariant
            i <= fields.len(),
            first_some(fields@, pick) == first_some(fields@.subrange(i as int, fields.len() as int), pick),
        decreases fields.len() - i,
    {
        if let RawField::Color(r, g, b, a) = &fields[i] {
            proof {
                lemma_first_some_hit(fields@, pick, i as int);
            }
            return Ok(Rgba { r: *r, g: *g, b: *b, a: *a });
        }
        proof {
            lemma_first_some_skip(fields@, pick, i as int);
        }
        i += 1;
    }
    Err(ParseAnimationError::NotSetColor)
}

/// The first sheet id field, if any.
pub open spec fn first_map_id(fields: Seq<RawField>) -> Option<i32> {
    first_some(fields, |f: RawField| map_id_of(f))
}

/// The first cell name field, if any.
pub open spec fn first_name(fields: Seq<RawField>) -> Option<Seq<char>> {
    first_some(fields, |f: RawField| name_of(f))
}

/// The first text field, if any.
pub open spec fn first_text(fields: Seq<RawField>) -> Option<Seq<char>> {
    first_some(fields, |f: RawField| text_of(f))
}

#[verifier::loop_isolation(false)]
fn find_map_id(fields: &Vec<RawField>) -> (r: Option<i32>)
    ensures
        r == first_map_id(fields@),
{
    let ghost pick = |f: RawField| map_id_of(f);
    proof {
        lemma_first_some_whole(fields@, pick);
    }
    let mut i: usize = 0;
    while i < fields.len()
        invariant
            i <= fields.len(),
            first_some(fields@, pick) == first_some(fields@.subrange(i as int, fields.len() as int), pick),
        decreases fields.len() - i,
    {
        if let RawField::MapId(m) = &fields[i] {
            proof {
                lemma_first_some_hit(fields@, pick, i as int);
            }
            return Some(*m);
        }
        proof {
            lemma_first_some_skip(fields@, pick, i as int);
        }
        i += 1;
    }
    None
}

/// The position of the first name field, if any.
#[verifier::loop_isolation(false)]
fn find_name(fields: &Vec<RawField>) -> (r: Option<usize>)
    ensures
        match r {
            Some(i) => i < fields.len() && fields[i as int] is Name && first_name(fields@) == Some(
                fields[i as int]->Name_0@,
            ),
            None => first_name(fields@) is None,
        },
{
    let ghost pick = |f: RawField| name_of(f);
    proof {
        lemma_first_some_whole(fields@, pick);
    }
    let mut i: usize = 0;
    while i < fields.len()
        invariant
            i <= fields.len(),
            first_some(fields@, pick) == first_some(fields@.subrange(i as int, fields.len() as int), pick),
        decreases fields.len() - i,
    {
        if let RawField::Name(_) = &fields[i] {
            proof {
                lemma_first_some_hit(fields@, pick, i as int);
            }
            return Some(i);
        }
        proof {
            lemma_first_some_skip(fields@, pick, i as int);
        }
        i += 1;
    }
    None
}

/// The position of the first text field, if any.
#[verifier::loop_isolation(false)]
fn find_text(fields: &Vec<RawField>) -> (r: Option<usize>)
    ensures
        match r {
            Some(i) => i < fields.len() && fields[i as int] is Text && first_text(fields@) == Some(
                fields[i as int]->Text_0@,
            ),
            None => first_text(fields@) is None,
        },
{
    let ghost pick = |f: RawField| text_of(f);
    proof {
        lemma_first_some_whole(fields@, pick);
    }
    let mut i: usize = 0;
    while i < fields.len()
        invariant
            i <= fields.len(),
            first_some(fields@, pick) == first_some(fields@.subrange(i as int, fields.len() as int), pick),
        decreases fields.len() - i,
    {
        if let RawField::Text(_) = &fields[i] {
            proof {
                lemma_first_some_hit(fields@, pick, i as int);
            }
            return Some(i);
        }
        proof {
            lemma_first_some_skip(fields@, pick, i as int);
        }
        i += 1;
    }
    None
}

/// The cell a keyframe resolves to: its first sheet id and first cell name,
/// looked up in that sheet's names.
pub open spec fn cell_resolution(fields: Seq<RawField>, sheets: Seq<Seq<String>>) -> Option<CellRef> {
    match (first_map_id(fields), first_name(fields)) {
        (Some(m), Some(n)) => if 0 <= m < sheets.len() {
            match position_of(sheets[m as int], n) {
                Some(c) => Some(CellRef { sheet_index: m as usize, cell_index: c as usize }),
                None => None,
            }
        } else {
            None
        },
        _ => None,
    }
}

/// The error of a cell keyframe that does not resolve.
pub open spec fn cell_error(fields: Seq<RawField>, sheets: Seq<Seq<String>>, e: ParseAnimationError) -> bool {
    match first_map_id(fields) {
        None => e is NotSetMapId,
        Some(m) => match first_name(fields) {
            None => e is NotSetCellName,
            Some(n) => if m < 0 || m >= sheets.len() {
                e matches ParseAnimationError::UnknownCellMap { map_id } && map_id == m
            } else {
                e matches ParseAnimationError::UnknownCellName { map_id, name } && map_id == m
                    && name@ == n
            },
        },
    }
}

/// Resolves a cell keyframe: its first sheet id and first cell name, looked up
/// in that sheet's names.
pub fn fold_cell(fields: &Vec<RawField>, dict: &CellDictionary) -> (r: Result<CellRef, ParseAnimationError>)
    ensures
        match cell_resolution(fields@, dict@) {
            Some(c) => r == Ok::<CellRef, ParseAnimationError>(c),
            None => r matches Err(e) && cell_error(fields@, dict@, e),
        },
{
    let m = match find_map_id(fields) {
        Some(m) => m,
        None => return Err(ParseAnimationError::NotSetMapId),
    };
    let at = match find_name(fields) {
        Some(at) => at,
        None => return Err(ParseAnimationError::NotSetCellName),
    };
    let name = match &fields[at] {
        RawField::Name(name) => name,
        _ => return Err(ParseAnimationError::NotSetCellName),
    };
    if m < 0 || m as usize >= dict.sheets.len() {
        return Err(ParseAnimationError::UnknownCellMap { map_id: m });
    }
    let sheet = m as usize;
    match find_position(&dict.sheets[sheet], name) {
        Some(c) => Ok(CellRef { sheet_index: sheet, cell_index: c }),
        None => Err(ParseAnimationError::UnknownCellName { map_id: m, name: name.clone() }),
    }
}

/// A user keyframe has a text field, and its first one is JSON.
pub open spec fn user_accepted(fields: Seq<RawField>) -> bool {
    first_text(fields) matches Some(t) && json_accepts(t)
}

/// The error of a user keyframe that is not accepted.
pub open spec fn user_error(fields: Seq<RawField>, e: ParseAnimationError) -> bool {
    match first_text(fields) {
        None => e is NotSetText,
        Some(t) => e matches ParseAnimationError::JsonDeserializeError { source, .. } && source@ == t,
    }
}

/// Parses the first text field of a user keyframe as JSON.
pub fn fold_user(fields: &Vec<RawField>) -> (r: Result<serde_json::Value, ParseAnimationError>)
    ensures
        r is Ok <==> user_accepted(fields@),
        r matches Err(e) ==> user_error(fields@, e),
{
    let at = match find_text(fields) {
        Some(at) => at,
        None => return Err(ParseAnimationError::NotSetText),
    };
    let text = match &fields[at] {
        RawField::Text(text) => text,
        _ => return Err(ParseAnimationError::NotSetText),
    };
    match parse_json(text.as_str()) {
        Ok(v) => Ok(v),
        Err(err) => Err(ParseAnimationError::JsonDeserializeError { err, source: text.clone() }),
    }
}

/// The descriptor a nested animation plays with when no keyframe says otherwise:
/// once, from the start to the end, forward, in step with its parent, at speed 1.
pub open spec fn neutral_instance() -> InstanceKey {
    InstanceKey {
        loop_count: 1,
        start_offset: 0,
        end_offset: 0,
        infinite: false,
        reversed: false,
        pingpong: false,
        independent: false,
        speed_rate: ONE_BITS,
    }
}

/// One field overriding one member of an instance descriptor.
pub open spec fn apply_instance(k: InstanceKey, f: RawField) -> InstanceKey {
    match f {
        RawField::LoopNum(n) => InstanceKey { loop_count: n, ..k },
        RawField::StartOffset(o) => InstanceKey { start_offset: o, ..k },
        RawField::EndOffset(o) => InstanceKey { end_offset: o, ..k },
        RawField::Infinity(b) => InstanceKey { infinite: b, ..k },
        RawField::Reverse(b) => InstanceKey { reversed: b, ..k },
        RawField::PingPong(b) => InstanceKey { pingpong: b, ..k },
        RawField::Independent(b) => InstanceKey { independent: b, ..k },
        RawField::Speed(s) => InstanceKey { speed_rate: s, ..k },
        _ => k,
    }
}

/// Left fold of `apply_instance` over the fields.
pub open spec fn instance_fold(k: InstanceKey, fields: Seq<RawField>) -> InstanceKey
    decreases fields.len(),
{
    if fields.len() == 0 {
        k
    } else {
        apply_instance(instance_fold(k, fields.drop_last()), fields.last())
    }
}

/// The neutral instance descriptor.
pub fn neutral_instance_key() -> (r: InstanceKey)
    ensures
        r == neutral_instance(),
{
    InstanceKey {
        loop_count: 1,
        start_offset: 0,
        end_offset: 0,
        infinite: false,
        reversed: false,
        pingpong: false,
        independent: false,
        speed_rate: ONE_BITS,
    }
}

/// Applies the fields of an instance keyframe, in order, over the descriptor in
/// force before it; members that no field sets keep their value.
pub fn fold_instance(prev: InstanceKey, fields: &Vec<RawField>) -> (r: InstanceKey)
    ensures
        r == instance_fold(prev, fields@),
{
    let mut k = prev;
    let mut i: usize = 0;
    while i < fields.len()
        invariant
            i <= fields.len(),
            k == instance_fold(prev, fields@.subrange(0, i as int)),
        decreases fields.len() - i,
    {
        assert(fields@.subrange(0, i + 1).drop_last() =~= fields@.subrange(0, i as int));
        k = match &fields[i] {
            RawField::LoopNum(n) => InstanceKey { loop_count: *n, ..k },
            RawField::StartOffset(o) => InstanceKey { start_offset: *o, ..k },
            RawField::EndOffset(o) => InstanceKey { end_offset: *o, ..k },
            RawField::Infinity(b) => InstanceKey { infinite: *b, ..k },
            RawField::Reverse(b) => InstanceKey { reversed: *b, ..k },
            RawField::PingPong(b) => InstanceKey { pingpong: *b, ..k },
            RawField::Independent(b) => InstanceKey { independent: *b, ..k },
            RawField::Speed(s) => InstanceKey { speed_rate: *s, ..k },
            _ => k,
        };
        i += 1;
    }
    assert(fields@.subrange(0, i as int) =~= fields@);
    k
}

/// All four corners at the origin.
pub open spec fn zero_vertex() -> VertexKey {
    let o = Offset { x: 0, y: 0 };
    VertexKey { lt: o, rt: o, lb: o, rb: o }
}

/// One field setting one corner.
pub open spec fn apply_vertex(k: VertexKey, f: RawField) -> VertexKey {
    match f {
        RawField::VertexLT(o) => VertexKey { lt: o, ..k },
        RawField::VertexRT(o) => VertexKey { rt: o, ..k },
        RawField::VertexLB(o) => VertexKey { lb: o, ..k },
        RawField::VertexRB(o) => VertexKey { rb: o, ..k },
        _ => k,
    }
}

/// Left fold of `apply_vertex` over the fields.
pub open spec fn vertex_fold(k: VertexKey, fields: Seq<RawField>) -> VertexKey
    decreases fields.len(),
{
    if fields.len() == 0 {
        k
    } else {
        apply_vertex(vertex_fold(k, fields.drop_last()), fields.last())
    }
}

/// The corner offsets of a vertex keyframe; corners it does not set stay at the origin.
pub fn fold_vertex(fields: &Vec<RawField>) -> (r: VertexKey)
    ensures
        r == vertex_fold(zero_vertex(), fields@),
{
    let o = Offset { x: 0, y: 0 };
    let mut k = VertexKey { lt: o, rt: o, lb: o, rb: o };
    let mut i: usize = 0;
    while i < fields.len()
        invariant
            i <= fields.len(),
            k == vertex_fold(zero_vertex(), fields@.subrange(0, i as int)),
        decreases fields.len() - i,
    {
        assert(fields@.subrange(0, i + 1).drop_last() =~= fields@.subrange(0, i as int));
        k = match &fields[i] {
            RawField::VertexLT(o) => VertexKey { lt: *o, ..k },
            RawField::VertexRT(o) => VertexKey { rt: *o, ..k },
            RawField::VertexLB(o) => VertexKey { lb: *o, ..k },
            RawField::VertexRB(o) => VertexKey { rb: *o, ..k },
            _ => k,
        };
        i += 1;
    }
    assert(fields@.subrange(0, i as int) =~= fields@);
    k
}

/// An effect starting with its parent, at speed 1, in step with its parent.
pub open spec fn default_effect() -> EffectKey {
    EffectKey { start_time: 0, speed: ONE_BITS, independent: false }
}

/// One field setting one member of an effect key.
pub open spec fn apply_effect(k: EffectKey, f: RawField) -> EffectKey {
    match f {
        RawField::StartTime(t) => EffectKey { start_time: t, ..k },
        RawField::Speed(s) => EffectKey { speed: s, ..k },
        RawField::Independent(b) => EffectKey { independent: b, ..k },
        _ => k,
    }
}

/// Left fold of `apply_effect` over the fields.
pub open spec fn effect_fold(k: EffectKey, fields: Seq<RawField>) -> EffectKey
    decreases fields.len(),
{
    if fields.len() == 0 {
        k
    } else {
        apply_effect(effect_fold(k, fields.drop_last()), fields.last())
    }
}

/// The playback of an effect keyframe; members it does not set keep their defaults.
pub fn fold_effect(fields: &Vec<RawField>) -> (r: EffectKey)
    ensures
        r == effect_fold(default_effect(), fields@),
{
    let mut k = EffectKey { start_time: 0, speed: ONE_BITS, independent: false };
    let mut i: usize = 0;
    while i < fields.len()
        invariant
            i <= fields.len(),
            k == effect_fold(default_effect(), fields@.subrange(0, i as int)),
        decreases fields.len() - i,
    {
        assert(fields@.subrange(0, i + 1).drop_last() =~= fields@.subrange(0, i as int));
        k = match &fields[i] {
            RawField::StartTime(t) => EffectKey { start_time: *t, ..k },
            RawField::Speed(s) => EffectKey { speed: *s, ..k },
            RawField::Independent(b) => EffectKey { independent: *b, ..k },
            _ => k,
        };
        i += 1;
    }
    assert(fields@.subrange(0, i as int) =~= fields@);
    k
}

/// A user keyframe that sets none of its sub-fields.
pub open spec fn no_user_fields() -> UserFields {
    UserFields { integer: None, point: None, rect: None }
}

/// One field setting one sub-field of a user keyframe.
pub open spec fn apply_user(k: UserFields, f: RawField) -> UserFields {
    match f {
        RawField::Integer(n) => UserFields { integer: Some(n), ..k },
        RawField::Point(p) => UserFields { point: Some(p), ..k },
        RawField::Rect(r) => UserFields { rect: Some(r), ..k },
        _ => k,
    }
}

/// Left fold of `apply_user` over the fields: the last field of each kind wins.
pub open spec fn user_fold(k: UserFields, fields: Seq<RawField>) -> UserFields
    decreases fields.len(),
{
    if fields.len() == 0 {
        k
    } else {
        apply_user(user_fold(k, fields.drop_last()), fields.last())
    }
}

/// The integer, point and rectangle of a user keyframe; each is the last field
/// of its kind, and absent when the keyframe has none.
pub fn fold_user_fields(fields: &Vec<RawField>) -> (r: UserFields)
    ensures
        r == user_fold(no_user_fields(), fields@),
{
    let mut k = UserFields { integer: None, point: None, rect: None };
    let mut i: usize = 0;
    while i < fields.len()
        invariant
            i <= fields.len(),
            k == user_fold(no_user_fields(), fields@.subrange(0, i as int)),
        decreases fields.len() - i,
    {
        assert(fields@.subrange(0, i + 1).drop_last() =~= fields@.subrange(0, i as int));
        k = match &fields[i] {
            RawField::Integer(n) => UserFields { integer: Some(*n), ..k },
            RawField::Point(p) => UserFields { point: Some(*p), ..k },
            RawField::Rect(r) => UserFields { rect: Some(*r), ..k },
            _ => k,
        };
        i += 1;
    }
    assert(fields@.subrange(0, i as int) =~= fields@);
    k
}

/// A cell keyframe without a name never resolves to a default cell: it fails
/// with a missing-field error, the missing name whenever a sheet id is present.
pub proof fn lemma_cell_without_name_fails(fields: Seq<RawField>, sheets: Seq<Seq<String>>, e: ParseAnimationError)
    requires
        first_name(fields) is None,
        cell_error(fields, sheets, e),
    ensures
        cell_resolution(fields, sheets) is None,
        e is NotSetCellName || e is NotSetMapId,
        first_map_id(fields) is Some ==> e is NotSetCellName,
{
}

} // verus!
