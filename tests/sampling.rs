use sprite_timeline::dict::CellDictionary;
use sprite_timeline::error::ParseAnimationError;
use sprite_timeline::fold::{
    fold_bool, fold_cell, fold_color, fold_effect, fold_float, fold_instance, fold_user,
    fold_user_fields, fold_vertex, neutral_instance_key,
};
use sprite_timeline::keyframe::{
    AttributeKind, AttributeTrack, CellRef, EffectKey, Interpolation, Offset, RawField,
    RawKeyframe, Rgba, UserFields, UserRect,
};
use sprite_timeline::sample::{sample_blended, sample_steps, Sample};
use sprite_timeline::timeline::{build_timeline, DepthSource};
use sprite_timeline::track::{sample_track, ChannelData};

fn bits(v: f32) -> u32 {
    v.to_bits()
}

fn key(time: u32, interpolation: Interpolation, fields: Vec<RawField>) -> RawKeyframe {
    RawKeyframe { time, interpolation, fields }
}

fn scalar(time: u32, interpolation: Interpolation, v: f32) -> RawKeyframe {
    key(time, interpolation, vec![RawField::Simple(bits(v))])
}

fn no_cells() -> CellDictionary {
    CellDictionary { sheets: vec![] }
}

fn abc_cells() -> CellDictionary {
    CellDictionary { sheets: vec![vec!["a".to_string(), "b".to_string(), "c".to_string()]] }
}

fn evaluate(s: &Sample<u32>) -> f32 {
    match s {
        Sample::Exact(v) => f32::from_bits(*v),
        Sample::Blend { from, to, step, span } => {
            let a = f32::from_bits(*from);
            let b = f32::from_bits(*to);
            a + (b - a) * (*step as f32) / (*span as f32)
        }
    }
}

fn scalar_samples(track: &AttributeTrack, frame_count: u32) -> (Vec<Sample<u32>>, bool) {
    match sample_track(track, frame_count, &no_cells()) {
        Ok(ChannelData::Scalar { samples, to_radians }) => (samples, to_radians),
        other => panic!("unexpected channel: {:?}", other),
    }
}

#[test]
fn single_keyframe_holds_for_every_interpolation() {
    for m in [Interpolation::Step, Interpolation::Linear, Interpolation::Bezier] {
        let out = sample_blended(&vec![0], &vec![m], &vec![7u32], 0u32, 6).unwrap();
        assert_eq!(out, vec![Sample::Exact(7u32); 6]);
    }
    let steps = sample_steps(&vec![0], &vec![true], false, 4);
    assert_eq!(steps, vec![true; 4]);
}

#[test]
fn single_position_keyframe_fills_every_frame() {
    let track = AttributeTrack {
        kind: AttributeKind::PositionX,
        keyframes: vec![scalar(0, Interpolation::Linear, 3.5)],
    };
    let (samples, to_radians) = scalar_samples(&track, 8);
    assert!(!to_radians);
    assert_eq!(samples, vec![Sample::Exact(bits(3.5)); 8]);
}

#[test]
fn linear_interpolation_boundary() {
    let track = AttributeTrack {
        kind: AttributeKind::PositionX,
        keyframes: vec![scalar(0, Interpolation::Linear, 0.0), scalar(10, Interpolation::Step, 10.0)],
    };
    let (samples, _) = scalar_samples(&track, 10);
    assert_eq!(samples.len(), 10);
    assert_eq!(samples[5], Sample::Blend { from: bits(0.0), to: bits(10.0), step: 5, span: 10 });
    assert_eq!(evaluate(&samples[0]), 0.0);
    assert_eq!(evaluate(&samples[5]), 5.0);
    assert_eq!(evaluate(&samples[9]), 9.0);
}

#[test]
fn value_holds_after_last_keyframe() {
    let track = AttributeTrack {
        kind: AttributeKind::Alpha,
        keyframes: vec![scalar(0, Interpolation::Linear, 0.0), scalar(2, Interpolation::Linear, 0.5)],
    };
    let (samples, _) = scalar_samples(&track, 6);
    assert_eq!(evaluate(&samples[1]), 0.25);
    for f in 2..6 {
        assert_eq!(samples[f], Sample::Exact(bits(0.5)));
    }
}

#[test]
fn defaults_before_first_keyframe() {
    let scale = AttributeTrack {
        kind: AttributeKind::ScaleY,
        keyframes: vec![scalar(3, Interpolation::Step, 2.0)],
    };
    let (samples, _) = scalar_samples(&scale, 5);
    assert_eq!(samples[0], Sample::Exact(bits(1.0)));
    assert_eq!(samples[2], Sample::Exact(bits(1.0)));
    assert_eq!(samples[3], Sample::Exact(bits(2.0)));
    let position = AttributeTrack {
        kind: AttributeKind::PositionY,
        keyframes: vec![scalar(2, Interpolation::Step, 4.0)],
    };
    let (samples, _) = scalar_samples(&position, 3);
    assert_eq!(samples[1], Sample::Exact(bits(0.0)));
}

#[test]
fn step_interpolation_holds_until_next_keyframe() {
    let track = AttributeTrack {
        kind: AttributeKind::PositionX,
        keyframes: vec![scalar(0, Interpolation::Step, 1.0), scalar(3, Interpolation::Step, 2.0)],
    };
    let (samples, _) = scalar_samples(&track, 5);
    let values: Vec<f32> = samples.iter().map(evaluate).collect();
    assert_eq!(values, vec![1.0, 1.0, 1.0, 2.0, 2.0]);
}

#[test]
fn later_of_two_keyframes_at_one_frame_wins() {
    let times = vec![0, 2, 2];
    let values = vec![1u32, 2, 3];
    assert_eq!(sample_steps(&times, &values, 0u32, 4), vec![1, 1, 3, 3]);
}

#[test]
fn rotation_is_marked_for_radians() {
    let track = AttributeTrack {
        kind: AttributeKind::RotationZ,
        keyframes: vec![scalar(0, Interpolation::Step, 180.0)],
    };
    let (samples, to_radians) = scalar_samples(&track, 2);
    assert!(to_radians);
    let angle = evaluate(&samples[0]).to_radians();
    assert!((angle - std::f32::consts::PI).abs() < 1e-6);
}

#[test]
fn priority_sign_is_inverted() {
    let track = AttributeTrack {
        kind: AttributeKind::Priority,
        keyframes: vec![scalar(0, Interpolation::Step, 2.0)],
    };
    let (samples, _) = scalar_samples(&track, 1);
    assert_eq!(samples[0], Sample::Exact(bits(-2.0)));
}

#[test]
fn unsupported_interpolation_is_refused() {
    let track = AttributeTrack {
        kind: AttributeKind::PositionX,
        keyframes: vec![scalar(0, Interpolation::Hermite, 0.0), scalar(4, Interpolation::Step, 1.0)],
    };
    let e = sample_track(&track, 10, &no_cells()).unwrap_err();
    assert_eq!(e.time, Some(0));
    assert!(matches!(
        e.error,
        ParseAnimationError::UnsupportedInterpolation { interpolation: Interpolation::Hermite }
    ));
    // The same interval lying past the sampled frames needs no curve.
    let late = AttributeTrack {
        kind: AttributeKind::PositionX,
        keyframes: vec![scalar(20, Interpolation::Bezier, 0.0), scalar(24, Interpolation::Step, 1.0)],
    };
    assert!(sample_track(&late, 10, &no_cells()).is_ok());
}

#[test]
fn unsorted_keyframes_are_refused() {
    let track = AttributeTrack {
        kind: AttributeKind::PositionX,
        keyframes: vec![scalar(5, Interpolation::Step, 0.0), scalar(2, Interpolation::Step, 1.0)],
    };
    let e = sample_track(&track, 10, &no_cells()).unwrap_err();
    assert!(matches!(e.error, ParseAnimationError::UnsortedKeyframes));
}

#[test]
fn rotation_about_x_is_not_supported() {
    let track = AttributeTrack { kind: AttributeKind::RotationX, keyframes: vec![] };
    let e = sample_track(&track, 3, &no_cells()).unwrap_err();
    assert!(matches!(
        e.error,
        ParseAnimationError::NonSupportedAttribute { attribute: AttributeKind::RotationX }
    ));
}

#[test]
fn float_folder_takes_first_scalar() {
    let fields = vec![RawField::MapId(3), RawField::Simple(bits(1.5)), RawField::Simple(bits(2.5))];
    assert_eq!(fold_float(&fields).unwrap(), bits(1.5));
    assert!(matches!(fold_float(&vec![RawField::MapId(3)]), Err(ParseAnimationError::NotSetFloatValue)));
}

#[test]
fn bool_folder_is_true_when_not_zero() {
    assert!(!fold_bool(&vec![RawField::Simple(bits(0.0))]).unwrap());
    assert!(!fold_bool(&vec![RawField::Simple(bits(-0.0))]).unwrap());
    assert!(fold_bool(&vec![RawField::Simple(bits(0.5))]).unwrap());
    assert!(fold_bool(&vec![RawField::Simple(bits(-1.0))]).unwrap());
    assert!(matches!(fold_bool(&vec![]), Err(ParseAnimationError::NotSetBoolValue)));
}

#[test]
fn color_folder() {
    let fields = vec![RawField::Color(1, 2, 3, 4)];
    assert_eq!(fold_color(&fields).unwrap(), Rgba { r: 1, g: 2, b: 3, a: 4 });
    assert!(matches!(fold_color(&vec![RawField::Simple(0)]), Err(ParseAnimationError::NotSetColor)));
}

#[test]
fn cell_resolves_by_name() {
    let fields = vec![RawField::MapId(0), RawField::Name("b".to_string())];
    assert_eq!(fold_cell(&fields, &abc_cells()).unwrap(), CellRef { sheet_index: 0, cell_index: 1 });
}

#[test]
fn cell_without_name_fails() {
    let fields = vec![RawField::MapId(0)];
    assert!(matches!(fold_cell(&fields, &abc_cells()), Err(ParseAnimationError::NotSetCellName)));
    let track = AttributeTrack {
        kind: AttributeKind::Cell,
        keyframes: vec![key(4, Interpolation::Step, fields)],
    };
    let e = sample_track(&track, 6, &abc_cells()).unwrap_err();
    assert_eq!(e.time, Some(4));
    assert!(matches!(e.error, ParseAnimationError::NotSetCellName));
}

#[test]
fn cell_errors() {
    let no_map = vec![RawField::Name("a".to_string())];
    assert!(matches!(fold_cell(&no_map, &abc_cells()), Err(ParseAnimationError::NotSetMapId)));
    let bad_map = vec![RawField::MapId(1), RawField::Name("a".to_string())];
    assert!(matches!(
        fold_cell(&bad_map, &abc_cells()),
        Err(ParseAnimationError::UnknownCellMap { map_id: 1 })
    ));
    let bad_name = vec![RawField::MapId(0), RawField::Name("z".to_string())];
    match fold_cell(&bad_name, &abc_cells()) {
        Err(ParseAnimationError::UnknownCellName { map_id, name }) => {
            assert_eq!(map_id, 0);
            assert_eq!(name, "z");
        }
        other => panic!("unexpected: {:?}", other),
    }
}

#[test]
fn cell_track_steps() {
    let track = AttributeTrack {
        kind: AttributeKind::Cell,
        keyframes: vec![
            key(1, Interpolation::Linear, vec![RawField::MapId(0), RawField::Name("c".to_string())]),
            key(3, Interpolation::Step, vec![RawField::MapId(0), RawField::Name("a".to_string())]),
        ],
    };
    match sample_track(&track, 5, &abc_cells()).unwrap() {
        ChannelData::Cell(cells) => {
            let c = Some(CellRef { sheet_index: 0, cell_index: 2 });
            let a = Some(CellRef { sheet_index: 0, cell_index: 0 });
            assert_eq!(cells, vec![None, c, c, a, a]);
        }
        other => panic!("unexpected: {:?}", other),
    }
}

#[test]
fn user_payload_is_parsed_json() {
    let fields = vec![RawField::Text("{\"hit\": 3}".to_string())];
    let v = fold_user(&fields).unwrap();
    assert_eq!(v.get("hit").and_then(|h| h.as_i64()), Some(3));
    match fold_user(&vec![RawField::Text("{oops".to_string())]) {
        Err(ParseAnimationError::JsonDeserializeError { source, .. }) => assert_eq!(source, "{oops"),
        other => panic!("unexpected: {:?}", other),
    }
    assert!(matches!(fold_user(&vec![RawField::Simple(0)]), Err(ParseAnimationError::NotSetText)));
}

#[test]
fn user_track_points_at_keyframes() {
    let track = AttributeTrack {
        kind: AttributeKind::User,
        keyframes: vec![
            key(1, Interpolation::Step, vec![RawField::Text("1".to_string())]),
            key(2, Interpolation::Step, vec![RawField::Text("\"two\"".to_string())]),
        ],
    };
    match sample_track(&track, 4, &no_cells()).unwrap() {
        ChannelData::User { frames, payloads, .. } => {
            assert_eq!(frames, vec![None, Some(0), Some(1), Some(1)]);
            assert_eq!(payloads.len(), 2);
            assert_eq!(payloads[1].as_str(), Some("two"));
        }
        other => panic!("unexpected: {:?}", other),
    }
}

#[test]
fn instance_fields_carry_over_keyframes() {
    let first = fold_instance(neutral_instance_key(), &vec![RawField::LoopNum(3), RawField::Reverse(true)]);
    assert_eq!(first.loop_count, 3);
    assert!(first.reversed);
    assert_eq!(first.speed_rate, bits(1.0));
    let track = AttributeTrack {
        kind: AttributeKind::Instance,
        keyframes: vec![
            key(0, Interpolation::Step, vec![RawField::LoopNum(3)]),
            key(2, Interpolation::Step, vec![RawField::Speed(bits(2.0))]),
        ],
    };
    match sample_track(&track, 3, &no_cells()).unwrap() {
        ChannelData::Instance(keys) => {
            assert_eq!(keys[0].loop_count, 3);
            assert_eq!(keys[0].speed_rate, bits(1.0));
            assert_eq!(keys[2].loop_count, 3);
            assert_eq!(keys[2].speed_rate, bits(2.0));
        }
        other => panic!("unexpected: {:?}", other),
    }
}

#[test]
fn vertex_and_effect_folders() {
    let o = Offset { x: bits(1.0), y: bits(2.0) };
    let v = fold_vertex(&vec![RawField::VertexRB(o)]);
    assert_eq!(v.rb, o);
    assert_eq!(v.lt, Offset { x: 0, y: 0 });
    let e = fold_effect(&vec![RawField::StartTime(4), RawField::Independent(true)]);
    assert_eq!(e, EffectKey { start_time: 4, speed: bits(1.0), independent: true });
}

#[test]
fn hide_track_hides_on_nonzero() {
    let track = AttributeTrack {
        kind: AttributeKind::Hide,
        keyframes: vec![scalar(1, Interpolation::Step, 1.0), scalar(2, Interpolation::Step, 0.0)],
    };
    match sample_track(&track, 3, &no_cells()).unwrap() {
        ChannelData::Flag(hidden) => assert_eq!(hidden, vec![false, true, false]),
        other => panic!("unexpected: {:?}", other),
    }
}

#[test]
fn depth_channels_are_exclusive() {
    let z = AttributeTrack {
        kind: AttributeKind::PositionZ,
        keyframes: vec![scalar(0, Interpolation::Step, 1.0)],
    };
    let priority = AttributeTrack {
        kind: AttributeKind::Priority,
        keyframes: vec![scalar(0, Interpolation::Step, 2.0)],
    };
    let e = build_timeline(0, None, 4, 30, &vec![z.clone(), priority.clone()], &no_cells()).unwrap_err();
    assert!(matches!(e.error, ParseAnimationError::ConflictPositionZ));
    let e = build_timeline(0, None, 4, 30, &vec![priority.clone(), z.clone()], &no_cells()).unwrap_err();
    assert!(matches!(e.error, ParseAnimationError::ConflictPositionZ));
    let empty_priority = AttributeTrack { kind: AttributeKind::Priority, keyframes: vec![] };
    let t = build_timeline(0, None, 4, 30, &vec![z, empty_priority], &no_cells()).unwrap();
    assert_eq!(t.depth_source, Some(DepthSource::Position));
    let t = build_timeline(0, None, 4, 30, &vec![priority], &no_cells()).unwrap();
    assert_eq!(t.depth_source, Some(DepthSource::Priority));
}

#[test]
fn timeline_channels_are_dense() {
    let tracks = vec![
        AttributeTrack { kind: AttributeKind::PositionX, keyframes: vec![scalar(3, Interpolation::Linear, 1.0)] },
        AttributeTrack { kind: AttributeKind::FlipH, keyframes: vec![] },
        AttributeTrack {
            kind: AttributeKind::Color,
            keyframes: vec![key(0, Interpolation::Linear, vec![RawField::Color(0, 0, 0, 0)])],
        },
    ];
    let t = build_timeline(2, Some(1), 7, 60, &tracks, &no_cells()).unwrap();
    assert_eq!(t.part_id, 2);
    assert_eq!(t.parent_id, Some(1));
    assert_eq!(t.channels.len(), 3);
    for c in &t.channels {
        let n = match &c.data {
            ChannelData::Scalar { samples, .. } => samples.len(),
            ChannelData::Flag(v) => v.len(),
            ChannelData::Color(v) => v.len(),
            other => panic!("unexpected: {:?}", other),
        };
        assert_eq!(n, 7);
    }
    let empty = build_timeline(0, None, 0, 30, &tracks, &no_cells()).unwrap();
    assert_eq!(empty.frame_count, 0);
}

#[test]
fn user_sub_fields_are_held() {
    let p = Offset { x: bits(1.0), y: bits(2.0) };
    let r = UserRect { x: 1, y: 2, w: 3, h: 4 };
    let track = AttributeTrack {
        kind: AttributeKind::User,
        keyframes: vec![
            key(1, Interpolation::Step, vec![
                RawField::Integer(7),
                RawField::Point(p),
                RawField::Text("null".to_string()),
            ]),
            key(3, Interpolation::Step, vec![
                RawField::Rect(r),
                RawField::Integer(8),
                RawField::Integer(9),
                RawField::Text("0".to_string()),
            ]),
        ],
    };
    match sample_track(&track, 5, &no_cells()).unwrap() {
        ChannelData::User { frames, fields, .. } => {
            assert_eq!(frames, vec![None, Some(0), Some(0), Some(1), Some(1)]);
            let first = Some(UserFields { integer: Some(7), point: Some(p), rect: None });
            let second = Some(UserFields { integer: Some(9), point: None, rect: Some(r) });
            assert_eq!(fields, vec![None, first, first, second, second]);
        }
        other => panic!("unexpected: {:?}", other),
    }
    let none = fold_user_fields(&vec![RawField::Text("1".to_string())]);
    assert_eq!(none, UserFields { integer: None, point: None, rect: None });
}
