use sprite_timeline::error::ParseAnimationError;
use sprite_timeline::keyframe::{AttributeKind, AttributeTrack, Interpolation, RawField, RawKeyframe};
use sprite_timeline::assemble::{convert, is_setup, supports_fps, ErrorPolicy, FpsProfile, Options, SetupPolicy};
use sprite_timeline::project::{
    pack_cell_dictionary, part_order, Animation, AnimationRef, Bounds, CellMap, Pack, Part,
    PartAnime, PartType, Project,
};
use sprite_timeline::track::ChannelData;

fn part(name: &str, index: i32, parent: i32) -> Part {
    Part {
        name: name.to_string(),
        index,
        parent,
        part_type: PartType::Normal,
        bounds: None,
        reference_animation: None,
        reference_effect: None,
    }
}

fn position_track(v: f32) -> AttributeTrack {
    AttributeTrack {
        kind: AttributeKind::PositionX,
        keyframes: vec![RawKeyframe {
            time: 0,
            interpolation: Interpolation::Step,
            fields: vec![RawField::Simple(v.to_bits())],
        }],
    }
}

fn animation(name: &str, fps: u32, frame_count: u32, parts: &[&str]) -> Animation {
    Animation {
        name: name.to_string(),
        fps,
        frame_count,
        part_animes: parts
            .iter()
            .map(|p| PartAnime { name: p.to_string(), tracks: vec![position_track(1.0)] })
            .collect(),
    }
}

fn sheets() -> Vec<CellMap> {
    vec![
        CellMap { name: "body".to_string(), cells: vec!["a".to_string(), "b".to_string()] },
        CellMap { name: "face".to_string(), cells: vec!["c".to_string()] },
    ]
}

fn options(on_animation_error: ErrorPolicy, setup: SetupPolicy) -> Options {
    Options { fps_profile: FpsProfile::Standard, on_animation_error, setup }
}

fn project(parts: Vec<Part>, animations: Vec<Animation>) -> Project {
    Project {
        cell_maps: sheets(),
        packs: vec![Pack {
            name: "hero".to_string(),
            cell_map_names: vec![],
            parts,
            animations,
        }],
        effects: vec!["spark".to_string()],
    }
}

#[test]
fn parts_come_out_ordered_by_index() {
    let parts = vec![part("arm", 2, 0), part("root", 0, -1), part("leg", 1, 0)];
    assert_eq!(part_order(&parts), vec![1, 2, 0]);
    let p = project(parts, vec![animation("walk", 30, 4, &["arm", "root"])]);
    let out = convert(&p, options(ErrorPolicy::Abort, SetupPolicy::Skip)).unwrap();
    let pack = &out[0];
    let ids: Vec<u32> = pack.parts.iter().map(|p| p.part_id).collect();
    assert_eq!(ids, vec![0, 1, 2]);
    assert_eq!(pack.parts[0].parent_id, None);
    assert_eq!(pack.parts[2].parent_id, Some(0));
    let walk = &pack.animations[0];
    assert_eq!(walk.frame_count, 4);
    assert!(walk.parts[0].is_some());
    assert!(walk.parts[1].is_none());
    let arm = walk.parts[2].as_ref().unwrap();
    assert_eq!(arm.part_id, 2);
    match &arm.channels[0].data {
        ChannelData::Scalar { samples, .. } => assert_eq!(samples.len(), 4),
        other => panic!("unexpected: {:?}", other),
    }
}

#[test]
fn negative_part_index_is_refused() {
    let p = project(vec![part("bad", -1, -1)], vec![]);
    let e = convert(&p, options(ErrorPolicy::Skip, SetupPolicy::Skip)).unwrap_err();
    match e.error {
        ParseAnimationError::PartIndexError(name, index) => {
            assert_eq!(name, "bad");
            assert_eq!(index, -1);
        }
        other => panic!("unexpected: {:?}", other),
    }
    assert_eq!(e.pack, "hero");
}

#[test]
fn unsupported_fps_follows_policy() {
    let anims = vec![animation("slow", 24, 3, &["root"]), animation("walk", 60, 3, &["root"])];
    let p = project(vec![part("root", 0, -1)], anims);
    let e = convert(&p, options(ErrorPolicy::Abort, SetupPolicy::Skip)).unwrap_err();
    assert!(matches!(e.error, ParseAnimationError::NonSupportedFps { fps: 24 }));
    assert_eq!(e.animation.as_deref(), Some("slow"));
    let out = convert(&p, options(ErrorPolicy::Skip, SetupPolicy::Skip)).unwrap();
    assert_eq!(out[0].animations.len(), 1);
    assert_eq!(out[0].animations[0].id, 1);
    assert_eq!(out[0].skipped.len(), 1);
    assert!(supports_fps(FpsProfile::Standard, 30));
    assert!(!supports_fps(FpsProfile::HighRate, 30));
    assert!(supports_fps(FpsProfile::HighRate, 60));
}

#[test]
fn setup_animation_policy() {
    let anims = vec![animation("Setup", 1, 1, &["root"]), animation("walk", 30, 2, &["root"])];
    let p = project(vec![part("root", 0, -1)], anims);
    let kept = convert(&p, options(ErrorPolicy::Abort, SetupPolicy::DefaultPose)).unwrap();
    assert_eq!(kept[0].setup.as_ref().map(|s| s.id), Some(0));
    assert_eq!(kept[0].animations.len(), 1);
    let dropped = convert(&p, options(ErrorPolicy::Abort, SetupPolicy::Skip)).unwrap();
    assert!(dropped[0].setup.is_none());
    assert!(is_setup(&"Setup".to_string()));
    assert!(!is_setup(&"setup".to_string()));
}

#[test]
fn structural_error_aborts_under_skip() {
    let mut walk = animation("walk", 30, 8, &["root"]);
    walk.part_animes[0].tracks[0].keyframes.push(RawKeyframe {
        time: 4,
        interpolation: Interpolation::Step,
        fields: vec![RawField::Simple(0)],
    });
    walk.part_animes[0].tracks[0].keyframes[0].interpolation = Interpolation::Bezier;
    let p = project(vec![part("root", 0, -1)], vec![walk]);
    let e = convert(&p, options(ErrorPolicy::Skip, SetupPolicy::Skip)).unwrap_err();
    assert!(matches!(e.error, ParseAnimationError::UnsupportedInterpolation { .. }));
    assert_eq!(e.part.as_deref(), Some("root"));
    assert_eq!(e.attribute, Some(AttributeKind::PositionX));
    assert_eq!(e.time, Some(0));
}

#[test]
fn field_error_is_skipped_under_skip() {
    let mut walk = animation("walk", 30, 2, &["root"]);
    walk.part_animes[0].tracks[0].keyframes[0].fields = vec![];
    let p = project(vec![part("root", 0, -1)], vec![walk]);
    let out = convert(&p, options(ErrorPolicy::Skip, SetupPolicy::Skip)).unwrap();
    assert!(out[0].animations.is_empty());
    assert!(matches!(out[0].skipped[0].error, ParseAnimationError::NotSetFloatValue));
    let e = convert(&p, options(ErrorPolicy::Abort, SetupPolicy::Skip)).unwrap_err();
    assert!(matches!(e.error, ParseAnimationError::NotSetFloatValue));
}

#[test]
fn references_resolve_to_ids() {
    let mut root = part("root", 0, -1);
    root.part_type = PartType::Instance;
    root.bounds = Some(Bounds::Quad);
    root.reference_animation = Some(("hero".to_string(), "walk".to_string()));
    root.reference_effect = Some("spark".to_string());
    let p = project(vec![root], vec![animation("idle", 30, 1, &[]), animation("walk", 30, 1, &[])]);
    let out = convert(&p, options(ErrorPolicy::Abort, SetupPolicy::Skip)).unwrap();
    let info = &out[0].parts[0];
    assert_eq!(info.reference, Some(AnimationRef { pack: 0, animation: 1 }));
    assert_eq!(info.effect, Some(0));
    assert_eq!(info.part_type, PartType::Instance);
    assert_eq!(info.bounds, Some(Bounds::Quad));
}

#[test]
fn unresolved_references_are_refused() {
    let mut root = part("root", 0, -1);
    root.reference_animation = Some(("villain".to_string(), "walk".to_string()));
    let p = project(vec![root.clone()], vec![]);
    let e = convert(&p, options(ErrorPolicy::Skip, SetupPolicy::Skip)).unwrap_err();
    assert!(matches!(e.error, ParseAnimationError::UnknownPack { .. }));
    root.reference_animation = Some(("hero".to_string(), "run".to_string()));
    let p = project(vec![root], vec![]);
    let e = convert(&p, options(ErrorPolicy::Skip, SetupPolicy::Skip)).unwrap_err();
    match e.error {
        ParseAnimationError::UnknownAnimation { pack, name } => {
            assert_eq!(pack, "hero");
            assert_eq!(name, "run");
        }
        other => panic!("unexpected: {:?}", other),
    }
}

#[test]
fn pack_sees_listed_cell_maps() {
    let mut pack = Pack {
        name: "hero".to_string(),
        cell_map_names: vec!["face".to_string()],
        parts: vec![],
        animations: vec![],
    };
    let d = pack_cell_dictionary(&pack, &sheets()).unwrap();
    assert_eq!(d.sheets, vec![vec!["c".to_string()]]);
    pack.cell_map_names = vec![];
    let d = pack_cell_dictionary(&pack, &sheets()).unwrap();
    assert_eq!(d.sheets.len(), 2);
    pack.cell_map_names = vec!["tail".to_string()];
    match pack_cell_dictionary(&pack, &sheets()) {
        Err(ParseAnimationError::UnknownCellMapName { name }) => assert_eq!(name, "tail"),
        other => panic!("unexpected: {:?}", other),
    }
}

#[test]
fn cell_keyframes_use_pack_sheets() {
    let mut walk = animation("walk", 30, 2, &["root"]);
    walk.part_animes[0].tracks = vec![AttributeTrack {
        kind: AttributeKind::Cell,
        keyframes: vec![RawKeyframe {
            time: 0,
            interpolation: Interpolation::Step,
            fields: vec![RawField::MapId(0), RawField::Name("c".to_string())],
        }],
    }];
    let mut p = project(vec![part("root", 0, -1)], vec![walk]);
    p.packs[0].cell_map_names = vec!["face".to_string()];
    let out = convert(&p, options(ErrorPolicy::Abort, SetupPolicy::Skip)).unwrap();
    match &out[0].animations[0].parts[0].as_ref().unwrap().channels[0].data {
        ChannelData::Cell(cells) => {
            assert_eq!(cells[1].map(|c| (c.sheet_index, c.cell_index)), Some((0, 0)));
        }
        other => panic!("unexpected: {:?}", other),
    }
}

#[test]
fn failed_setup_pose_is_recorded_under_skip() {
    let mut setup = animation("Setup", 30, 2, &["root"]);
    setup.part_animes[0].tracks[0].keyframes[0].fields = vec![];
    let p = project(vec![part("root", 0, -1)], vec![setup, animation("walk", 30, 2, &["root"])]);
    let out = convert(&p, options(ErrorPolicy::Skip, SetupPolicy::DefaultPose)).unwrap();
    assert!(out[0].setup.is_none());
    assert_eq!(out[0].skipped[0].animation.as_deref(), Some("Setup"));
    assert_eq!(out[0].animations.len(), 1);
}

#[test]
fn refused_fps_is_recorded_with_its_rate() {
    let anims = vec![animation("slow", 24, 3, &["root"])];
    let p = project(vec![part("root", 0, -1)], anims);
    let out = convert(
        &p,
        Options { fps_profile: FpsProfile::HighRate, on_animation_error: ErrorPolicy::Skip, setup: SetupPolicy::Skip },
    )
    .unwrap();
    assert!(out[0].animations.is_empty());
    assert_eq!(out[0].skipped[0].animation.as_deref(), Some("slow"));
    assert!(matches!(out[0].skipped[0].error, ParseAnimationError::NonSupportedFps { fps: 24 }));
}

#[test]
fn equal_part_indices_keep_list_order() {
    let parts = vec![part("b", 1, -1), part("a", 0, -1), part("c", 1, -1)];
    assert_eq!(part_order(&parts), vec![1, 0, 2]);
}
