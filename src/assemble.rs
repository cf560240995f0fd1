//! The pack and project assembler: every part of every animation of every
//! pack sampled, under explicit policies for errors and reference poses.

use crate::dict::{find_position, lemma_position_in_range, position_of, CellDictionary};
use crate::error::{ConvertError, ParseAnimationError, TrackError};
use crate::project::{
    animation_names, convert_part, listed, names_of_animations, names_of_packs, pack_cell_dictionary,
    pack_names, pack_sheets, pack_sheets_ok, part_info_spec, part_ok, part_order, Animation, Pack,
    PartAnime, PartInfo, Project,
};
use crate::timeline::{
    build_timeline, depth_conflict, timeline_error, timeline_ok, timeline_spec, SampledTimeline,
};
use crate::track::channel_len;
use vstd::prelude::*;

verus! {

pub open spec fn names_of_animes(animes: Seq<PartAnime>) -> Seq<String> {
    animes.map_values(|a: PartAnime| a.name)
}

/// The tracks an animation holds for a part: the first part animation that
/// carries the part's name.
pub open spec fn anime_of(animation: Animation, name: Seq<char>) -> Option<int> {
    position_of(names_of_animes(animation.part_animes@), name)
}

/// Whether the tracks of the named part in the animation, if it has any, can be sampled.
pub open spec fn name_timeline_ok(animation: Animation, name: Seq<char>, sheets: Seq<Seq<String>>) -> bool {
    match anime_of(animation, name) {
        None => true,
        Some(x) => timeline_ok(animation.part_animes[x].tracks@, animation.frame_count, sheets),
    }
}

/// Whether the part's tracks in the animation, if it has any, can be sampled.
pub open spec fn part_timeline_ok(info: PartInfo, animation: Animation, sheets: Seq<Seq<String>>) -> bool {
    name_timeline_ok(animation, info.name@, sheets)
}

/// The timeline of a part in an animation: none when the animation holds no
/// tracks for the part.
pub open spec fn part_timeline_spec(
    info: PartInfo,
    animation: Animation,
    sheets: Seq<Seq<String>>,
    t: Option<SampledTimeline>,
) -> bool {
    match anime_of(animation, info.name@) {
        None => t is None,
        Some(x) => t matches Some(tl) && timeline_spec(
            animation.part_animes[x].tracks@,
            animation.frame_count,
            animation.fps,
            sheets,
            info.part_id,
            info.parent_id,
            tl,
        ),
    }
}

/// The error of an animation in which some part cannot be sampled: that of
/// the first such part, placed in the pack, the animation and the part.
pub open spec fn animation_error(
    pack_name: String,
    parts: Seq<PartInfo>,
    animation: Animation,
    sheets: Seq<Seq<String>>,
    e: ConvertError,
) -> bool {
    exists|j: int|
        {
            &&& 0 <= j < parts.len()
            &&& !part_timeline_ok(parts[j], animation, sheets)
            &&& forall|k: int| 0 <= k < j ==> part_timeline_ok(#[trigger] parts[k], animation, sheets)
            &&& e.pack == pack_name
            &&& e.animation == Some(animation.name)
            &&& e.part == Some(parts[j].name)
            &&& exists|te: TrackError|
                timeline_error(
                    animation.part_animes[anime_of(animation, parts[j].name@)->Some_0].tracks@,
                    animation.frame_count,
                    sheets,
                    te,
                ) && e.attribute == Some(te.attribute) && e.time == te.time && e.error == te.error
        }
}

fn anime_names(animation: &Animation) -> (r: Vec<String>)
    ensures
        r@ == names_of_animes(animation.part_animes@),
{
    let animes = &animation.part_animes;
    let mut r: Vec<String> = Vec::new();
    let mut i: usize = 0;
    while i < animes.len()
        invariant
            i <= animes.len(),
            r@ == names_of_animes(animes@.subrange(0, i as int)),
        decreases animes.len() - i,
    {
        r.push(animes[i].name.clone());
        i += 1;
        assert(names_of_animes(animes@.subrange(0, i as int)) =~= r@);
    }
    assert(animes@.subrange(0, i as int) =~= animes@);
    r
}

/// Samples every part of one animation; entry `j` belongs to `parts[j]`.
pub fn convert_animation(
    pack_name: &String,
    parts: &Vec<PartInfo>,
    animation: &Animation,
    dict: &CellDictionary,
) -> (r: Result<Vec<Option<SampledTimeline>>, ConvertError>)
    ensures
        r is Ok <==> forall|j: int| 0 <= j < parts.len() ==> part_timeline_ok(#[trigger] parts[j], *animation, dict@),
        r matches Ok(v) ==> v.len() == parts.len() && forall|j: int|
            0 <= j < parts.len() ==> part_timeline_spec(#[trigger] parts[j], *animation, dict@, v[j]),
        r matches Err(e) ==> animation_error(*pack_name, parts@, *animation, dict@, e),
        r matches Err(e) ==> e.pack == *pack_name && e.animation == Some(animation.name),
{
    let names = anime_names(animation);
    let mut v: Vec<Option<SampledTimeline>> = Vec::new();
    let mut j: usize = 0;
    while j < parts.len()
        invariant
            names@ == names_of_animes(animation.part_animes@),
            j <= parts.len(),
            v.len() == j,
            forall|k: int| 0 <= k < j ==> part_timeline_ok(#[trigger] parts[k], *animation, dict@),
            forall|k: int| 0 <= k < j ==> part_timeline_spec(#[trigger] parts[k], *animation, dict@, v[k]),
        decreases parts.len() - j,
    {
        match find_position(&names, &parts[j].name) {
            None => v.push(None),
            Some(x) => {
                proof {
                    lemma_position_in_range(names@, parts[j as int].name@);
                }
                match build_timeline(
                    parts[j].part_id,
                    parts[j].parent_id,
                    animation.frame_count,
                    animation.fps,
                    &animation.part_animes[x].tracks,
                    dict,
                ) {
                    Ok(t) => v.push(Some(t)),
                    Err(te) => {
                        let e = ConvertError {
                            pack: pack_name.clone(),
                            animation: Some(animation.name.clone()),
                            part: Some(parts[j].name.clone()),
                            attribute: Some(te.attribute),
                            time: te.time,
                            error: te.error,
                        };
                        assert(!part_timeline_ok(parts[j as int], *animation, dict@));
                        return Err(e);
                    },
                }
            },
        }
        j += 1;
    }
    Ok(v)
}

/// The frame rates a target engine accepts.
#[derive(Clone, Copy, Debug, PartialEq, Eq, Structural)]
pub enum FpsProfile {
    /// 30 or 60 frames per second.
    Standard,
    /// 60 frames per second only.
    HighRate,
}

/// What an error confined to one animation does to the conversion.
#[derive(Clone, Copy, Debug, PartialEq, Eq, Structural)]
pub enum ErrorPolicy {
    /// The whole conversion fails.
    Abort,
    /// The animation is left out and its error recorded.
    Skip,
}

/// What becomes of an animation named "Setup", the authoring tool's reference pose.
#[derive(Clone, Copy, Debug, PartialEq, Eq, Structural)]
pub enum SetupPolicy {
    /// Sampled, without a frame rate check, as the pack's default pose.
    DefaultPose,
    /// Left out.
    Skip,
}

/// The choices a conversion makes explicitly.
#[derive(Clone, Copy, Debug, PartialEq, Eq, Structural)]
pub struct Options {
    pub fps_profile: FpsProfile,
    pub on_animation_error: ErrorPolicy,
    pub setup: SetupPolicy,
}

pub open spec fn fps_supported(profile: FpsProfile, fps: u32) -> bool {
    match profile {
        FpsProfile::Standard => fps == 30 || fps == 60,
        FpsProfile::HighRate => fps == 60,
    }
}

/// Whether the frame rate is accepted by the profile.
pub fn supports_fps(profile: FpsProfile, fps: u32) -> (r: bool)
    ensures
        r == fps_supported(profile, fps),
{
    match profile {
        FpsProfile::Standard => fps == 30 || fps == 60,
        FpsProfile::HighRate => fps == 60,
    }
}

pub open spec fn is_setup_name(name: Seq<char>) -> bool {
    name == "Setup"@
}

/// Whether an animation is the reference pose.
pub fn is_setup(name: &String) -> (r: bool)
    ensures
        r == is_setup_name(name@),
{
    let setup = "Setup".to_owned();
    *name == setup
}

/// The sampled parts of one animation.
#[derive(Debug)]
pub struct AnimationTimelines {
    pub name: String,
    /// Position of the animation in its pack.
    pub id: usize,
    pub fps: u32,
    pub frame_count: u32,
    /// Entry `j` belongs to part `j` of the pack; none when the animation does
    /// not animate that part.
    pub parts: Vec<Option<SampledTimeline>>,
}

/// Everything a pack converts to.
#[derive(Debug)]
pub struct PackTimelines {
    pub name: String,
    /// The parts, ordered by declared index.
    pub parts: Vec<PartInfo>,
    /// The playable animations, in pack order.
    pub animations: Vec<AnimationTimelines>,
    /// The default pose, when kept.
    pub setup: Option<AnimationTimelines>,
    /// The animations left out under the skip policy, with their errors.
    pub skipped: Vec<ConvertError>,
}

/// The sampled form of animation `id` of a pack, over the given parts.
pub open spec fn animation_spec(
    pack: Pack,
    parts: Seq<PartInfo>,
    sheets: Seq<Seq<String>>,
    a: AnimationTimelines,
) -> bool {
    let animation = pack.animations[a.id as int];
    &&& a.id < pack.animations.len()
    &&& a.name == animation.name
    &&& a.fps == animation.fps
    &&& a.frame_count == animation.frame_count
    &&& a.parts.len() == parts.len()
    &&& forall|j: int| 0 <= j < parts.len() ==> part_timeline_spec(#[trigger] parts[j], animation, sheets, a.parts[j])
}

/// Every part of the pack has the tracks of every animation sampled without error.
pub open spec fn animations_ok(pack: Pack, sheets: Seq<Seq<String>>) -> bool {
    forall|i: int, p: int|
        0 <= i < pack.animations.len() && 0 <= p < pack.parts.len() ==> name_timeline_ok(
            #[trigger] pack.animations[i],
            #[trigger] pack.parts[p].name@,
            sheets,
        )
}

/// An error that the policy lets through ends the conversion.
fn fails_conversion(e: &ConvertError, options: Options) -> (r: bool)
    ensures
        r == (options.on_animation_error is Abort || e.error.is_structural()),
{
    if options.on_animation_error == ErrorPolicy::Abort {
        return true;
    }
    match e.error {
        ParseAnimationError::PartIndexError(..) | ParseAnimationError::UnsupportedInterpolation { .. }
        | ParseAnimationError::UnsortedKeyframes | ParseAnimationError::UnknownCellMapName { .. }
        | ParseAnimationError::UnknownPack { .. } | ParseAnimationError::UnknownAnimation { .. } => true,
        _ => false,
    }
}

/// The ids of the pack names and of the animation names of each pack.
pub open spec fn ids_match(project: Project, pack_ids: Seq<String>, animation_ids: Seq<Vec<String>>) -> bool {
    &&& pack_ids == names_of_packs(project.packs@)
    &&& animation_ids.len() == project.packs.len()
    &&& forall|p: int|
        0 <= p < animation_ids.len() ==> #[trigger] animation_ids[p]@ == names_of_animations(
            project.packs[p].animations@,
        )
}

/// Whether a pack converts whatever the policy: its cell maps and part
/// references resolve, every part's tracks can be sampled, and every playable
/// animation runs at a supported rate.
pub open spec fn pack_ok(project: Project, pack: Pack, options: Options) -> bool {
    &&& pack_sheets_ok(pack, project.cell_maps@)
    &&& forall|q: int| 0 <= q < pack.parts.len() ==> part_ok(#[trigger] pack.parts[q], project.packs@)
    &&& animations_ok(pack, pack_sheets(pack, project.cell_maps@))
    &&& forall|i: int|
        0 <= i < pack.animations.len() && !is_setup_name(#[trigger] pack.animations[i].name@)
            ==> fps_supported(options.fps_profile, pack.animations[i].fps)
}

/// A playable animation of the pack, sampled over the given parts.
pub open spec fn playable_entry(
    pack: Pack,
    parts: Seq<PartInfo>,
    sheets: Seq<Seq<String>>,
    options: Options,
    a: AnimationTimelines,
) -> bool {
    &&& animation_spec(pack, parts, sheets, a)
    &&& !is_setup_name(pack.animations[a.id as int].name@)
    &&& fps_supported(options.fps_profile, pack.animations[a.id as int].fps)
}

/// Animation `i` of the pack is playable and every part of it can be sampled.
pub open spec fn accepted(
    pack: Pack,
    parts: Seq<PartInfo>,
    sheets: Seq<Seq<String>>,
    options: Options,
    i: int,
) -> bool {
    &&& 0 <= i < pack.animations.len()
    &&& !is_setup_name(pack.animations[i].name@)
    &&& fps_supported(options.fps_profile, pack.animations[i].fps)
    &&& forall|j: int| 0 <= j < parts.len() ==> part_timeline_ok(#[trigger] parts[j], pack.animations[i], sheets)
}

/// Animation `i` has an entry in the list.
pub open spec fn has_entry(animations: Seq<AnimationTimelines>, i: int) -> bool {
    exists|m: int| 0 <= m < animations.len() && animations[m].id == i
}

/// Some recorded error belongs to the animation.
pub open spec fn reported(skipped: Seq<ConvertError>, animation: Animation) -> bool {
    exists|k: int| 0 <= k < skipped.len() && skipped[k].animation == Some(animation.name)
}

/// Some recorded error refuses the animation's frame rate.
pub open spec fn fps_reported(skipped: Seq<ConvertError>, animation: Animation) -> bool {
    exists|k: int|
        {
            &&& 0 <= k < skipped.len()
            &&& skipped[k].animation == Some(animation.name)
            &&& skipped[k].error matches ParseAnimationError::NonSupportedFps { fps }
            &&& fps == animation.fps
        }
}

/// Animation `i` of the pack is accounted for: a reference pose kept under
/// `DefaultPose` is the default pose; a playable one at a refused frame rate is
/// recorded as such; any other playable one has its entry; and what is missing
/// is recorded under the skip policy.
pub open spec fn accounted(
    pack: Pack,
    animations: Seq<AnimationTimelines>,
    setup: Option<AnimationTimelines>,
    skipped: Seq<ConvertError>,
    options: Options,
    i: int,
) -> bool {
    let a = pack.animations[i];
    if is_setup_name(a.name@) {
        options.setup is DefaultPose ==> (setup is Some || (options.on_animation_error is Skip
            && reported(skipped, a)))
    } else if !fps_supported(options.fps_profile, a.fps) {
        options.on_animation_error is Skip && fps_reported(skipped, a)
    } else {
        has_entry(animations, i) || (options.on_animation_error is Skip && reported(skipped, a))
    }
}

/// Accounting survives appending entries, keeping a default pose, and
/// recording more errors.
proof fn lemma_accounted_grows(
    pack: Pack,
    an1: Seq<AnimationTimelines>,
    an2: Seq<AnimationTimelines>,
    s1: Option<AnimationTimelines>,
    s2: Option<AnimationTimelines>,
    sk1: Seq<ConvertError>,
    sk2: Seq<ConvertError>,
    options: Options,
    i: int,
)
    requires
        0 <= i < pack.animations.len(),
        accounted(pack, an1, s1, sk1, options, i),
        an1.len() <= an2.len(),
        forall|m: int| 0 <= m < an1.len() ==> an2[m] == an1[m],
        s1 is Some ==> s2 is Some,
        sk1.len() <= sk2.len(),
        forall|m: int| 0 <= m < sk1.len() ==> sk2[m] == sk1[m],
    ensures
        accounted(pack, an2, s2, sk2, options, i),
{
    let a = pack.animations[i];
    if reported(sk1, a) {
        let k = choose|k: int| 0 <= k < sk1.len() && sk1[k].animation == Some(a.name);
        assert(sk2[k] == sk1[k]);
    }
    if fps_reported(sk1, a) {
        let k = choose|k: int|
            {
                &&& 0 <= k < sk1.len()
                &&& sk1[k].animation == Some(a.name)
                &&& sk1[k].error matches ParseAnimationError::NonSupportedFps { fps }
                &&& fps == a.fps
            };
        assert(sk2[k] == sk1[k]);
    }
    if has_entry(an1, i) {
        let m = choose|m: int| 0 <= m < an1.len() && an1[m].id == i;
        assert(an2[m] == an1[m]);
    }
}

/// What a converted pack holds: its parts ordered by declared index, every
/// animation that can be sampled in pack order, the default pose when kept,
/// and only errors that the skip policy lets through.
pub open spec fn pack_spec(project: Project, pack: Pack, options: Options, pt: PackTimelines) -> bool {
    let sheets = pack_sheets(pack, project.cell_maps@);
    &&& pt.name == pack.name
    &&& parts_spec(project, pack, pt.parts@)
    &&& forall|k: int| 0 <= k < pt.animations.len() ==> #[trigger] playable_entry(pack, pt.parts@, sheets, options, pt.animations@[k])
    &&& forall|k: int, l: int| 0 <= k < l < pt.animations.len() ==> pt.animations[k].id < pt.animations[l].id
    &&& forall|i: int| #[trigger] accepted(pack, pt.parts@, sheets, options, i) ==> has_entry(pt.animations@, i)
    &&& forall|i: int|
        0 <= i < pack.animations.len() ==> #[trigger] accounted(pack, pt.animations@, pt.setup, pt.skipped@, options, i)
    &&& pt.setup matches Some(a) ==> options.setup is DefaultPose && is_setup_name(
        pack.animations[a.id as int].name@,
    ) && animation_spec(pack, pt.parts@, sheets, a)
    &&& forall|k: int|
        0 <= k < pt.skipped.len() ==> options.on_animation_error is Skip && !(
        #[trigger] pt.skipped[k]).error.is_structural()
}

/// The descriptor is that of some part of the pack.
pub open spec fn describes_some_part(project: Project, pack: Pack, info: PartInfo) -> bool {
    exists|q: int| 0 <= q < pack.parts.len() && part_info_spec(pack.parts[q], project.packs@, project.effects@, info)
}

/// Part `q` of the pack has its descriptor in the list.
pub open spec fn part_described(project: Project, pack: Pack, parts: Seq<PartInfo>, q: int) -> bool {
    exists|k: int| 0 <= k < parts.len() && part_info_spec(pack.parts[q], project.packs@, project.effects@, parts[k])
}

/// The part descriptors of a pack, ordered by declared index, each the
/// descriptor of one of its parts and each part described; every part of the
/// pack has a non-negative index and references that resolve.
pub open spec fn parts_spec(project: Project, pack: Pack, parts: Seq<PartInfo>) -> bool {
    &&& parts.len() == pack.parts.len()
    &&& forall|k: int, l: int| 0 <= k <= l < parts.len() ==> parts[k].part_id <= parts[l].part_id
    &&& forall|k: int| 0 <= k < parts.len() ==> #[trigger] describes_some_part(project, pack, parts[k])
    &&& forall|q: int| 0 <= q < pack.parts.len() ==> #[trigger] part_described(project, pack, parts, q)
    &&& forall|q: int| 0 <= q < pack.parts.len() ==> part_ok(#[trigger] pack.parts[q], project.packs@)
}

/// Converts the parts of a pack, ordered by declared index.
#[verifier::rlimit(40)]
fn convert_parts(
    project: &Project,
    p: usize,
    pack_ids: &Vec<String>,
    animation_ids: &Vec<Vec<String>>,
) -> (r: Result<Vec<PartInfo>, ConvertError>)
    requires
        p < project.packs.len(),
        ids_match(*project, pack_ids@, animation_ids@),
    ensures
        (forall|q: int|
            0 <= q < project.packs[p as int].parts.len() ==> part_ok(
                #[trigger] project.packs[p as int].parts[q],
                project.packs@,
            )) ==> r is Ok,
        r matches Ok(parts) ==> parts_spec(*project, project.packs[p as int], parts@),
        r matches Err(e) ==> e.pack == project.packs[p as int].name && exists|q: int|
            0 <= q < project.packs[p as int].parts.len() && !part_ok(
                #[trigger] project.packs[p as int].parts[q],
                project.packs@,
            ),
{
    let pack = &project.packs[p];
    let order = part_order(&pack.parts);
    let mut parts: Vec<PartInfo> = Vec::new();
    let mut k: usize = 0;
    while k < order.len()
        invariant
            ids_match(*project, pack_ids@, animation_ids@),
            pack == project.packs[p as int],
            order.len() == pack.parts.len(),
            forall|m: int| 0 <= m < order.len() ==> #[trigger] order[m] < pack.parts.len(),
            forall|m: int, l: int|
                0 <= m <= l < order.len() ==> pack.parts[order[m] as int].index <= pack.parts[order[l] as int].index,
            k <= order.len(),
            parts.len() == k,
            forall|m: int|
                0 <= m < k ==> part_info_spec(
                    pack.parts[order[m] as int],
                    project.packs@,
                    project.effects@,
                    #[trigger] parts[m],
                ) && part_ok(pack.parts[order[m] as int], project.packs@),
        decreases order.len() - k,
    {
        match convert_part(&pack.parts[order[k]], project, pack_ids, animation_ids) {
            Ok(info) => parts.push(info),
            Err(error) => {
                assert(!part_ok(pack.parts[order[k as int] as int], project.packs@));
                return Err(ConvertError {
                    pack: pack.name.clone(),
                    animation: None,
                    part: Some(pack.parts[order[k]].name.clone()),
                    attribute: None,
                    time: None,
                    error,
                });
            },
        }
        k += 1;
    }
    proof {
        assert forall|m: int| 0 <= m < parts.len() implies #[trigger] describes_some_part(*project, *pack, parts@[m]) by {
            let q = order[m] as int;
            assert(part_info_spec(pack.parts[q], project.packs@, project.effects@, parts[m]));
        }
        assert forall|q: int| 0 <= q < pack.parts.len() implies #[trigger] part_described(*project, *pack, parts@, q) by {
            assert(listed(order@, q));
            let m = choose|m: int| 0 <= m < order.len() && order[m] == q;
            assert(part_info_spec(pack.parts[q], project.packs@, project.effects@, parts[m]));
        }
        assert forall|q: int| 0 <= q < pack.parts.len() implies part_ok(#[trigger] pack.parts[q], project.packs@) by {
            assert(listed(order@, q));
            let m = choose|m: int| 0 <= m < order.len() && order[m] == q;
            assert(part_info_spec(pack.parts[q], project.packs@, project.effects@, parts[m]));
        }
        assert forall|m: int, l: int|
            0 <= m <= l < parts.len() implies parts[m].part_id <= parts[l].part_id by {
            assert(part_ok(pack.parts[order[m] as int], project.packs@));
            assert(part_ok(pack.parts[order[l] as int], project.packs@));
        }
        assert(parts_spec(*project, *pack, parts@));
    }
    Ok(parts)
}

/// In a pack whose animations can all be sampled, so can every animation over
/// the pack's part descriptors.
proof fn lemma_animation_parts_ok(project: Project, pack: Pack, parts: Seq<PartInfo>, sheets: Seq<Seq<String>>, i: int)
    requires
        parts_spec(project, pack, parts),
        animations_ok(pack, sheets),
        0 <= i < pack.animations.len(),
    ensures
        forall|j: int| 0 <= j < parts.len() ==> part_timeline_ok(#[trigger] parts[j], pack.animations[i], sheets),
{
    assert forall|j: int| 0 <= j < parts.len() implies part_timeline_ok(#[trigger] parts[j], pack.animations[i], sheets) by {
        assert(describes_some_part(project, pack, parts[j]));
        let q = choose|q: int| 0 <= q < pack.parts.len() && part_info_spec(pack.parts[q], project.packs@, project.effects@, parts[j]);
        assert(name_timeline_ok(pack.animations[i], pack.parts[q].name@, sheets));
    }
}

/// Converts one pack: its parts, ordered by declared index, then each of its
/// animations under the policies of `options`.
#[verifier::rlimit(60)]
pub fn convert_pack(
    project: &Project,
    p: usize,
    pack_ids: &Vec<String>,
    animation_ids: &Vec<Vec<String>>,
    options: Options,
) -> (r: Result<PackTimelines, ConvertError>)
    requires
        p < project.packs.len(),
        ids_match(*project, pack_ids@, animation_ids@),
    ensures
        pack_ok(*project, project.packs[p as int], options) ==> r is Ok,
        r matches Ok(pt) ==> pack_spec(*project, project.packs[p as int], options, pt),
        r matches Err(e) ==> e.pack == project.packs[p as int].name && (!pack_sheets_ok(
            project.packs[p as int],
            project.cell_maps@,
        ) || (exists|q: int|
            0 <= q < project.packs[p as int].parts.len() && !part_ok(
                #[trigger] project.packs[p as int].parts[q],
                project.packs@,
            )) || options.on_animation_error is Abort || e.error.is_structural()),
{
    let pack = &project.packs[p];
    let ghost sheets = pack_sheets(*pack, project.cell_maps@);
    let dict = match pack_cell_dictionary(pack, &project.cell_maps) {
        Ok(d) => d,
        Err(error) => {
            return Err(ConvertError {
                pack: pack.name.clone(),
                animation: None,
                part: None,
                attribute: None,
                time: None,
                error,
            });
        },
    };
    let parts = match convert_parts(project, p, pack_ids, animation_ids) {
        Ok(parts) => parts,
        Err(e) => return Err(e),
    };
    let mut animations: Vec<AnimationTimelines> = Vec::new();
    let mut setup: Option<AnimationTimelines> = None;
    let mut skipped: Vec<ConvertError> = Vec::new();
    let ghost ok = pack_ok(*project, *pack, options);
    let mut i: usize = 0;
    while i < pack.animations.len()
        invariant
            ok == pack_ok(*project, *pack, options),
            pack == project.packs[p as int],
            sheets == pack_sheets(*pack, project.cell_maps@),
            dict@ == sheets,
            parts_spec(*project, *pack, parts@),
            i <= pack.animations.len(),
            forall|m: int| 0 <= m < animations.len() ==> #[trigger] playable_entry(*pack, parts@, sheets, options, animations@[m]),
            forall|m: int| 0 <= m < animations.len() ==> animations[m].id < i,
            forall|m: int, l: int| 0 <= m < l < animations.len() ==> animations[m].id < animations[l].id,
            forall|a: int| 0 <= a < i && #[trigger] accepted(*pack, parts@, sheets, options, a) ==> has_entry(animations@, a),
            setup matches Some(a) ==> options.setup is DefaultPose && is_setup_name(
                pack.animations[a.id as int].name@,
            ) && animation_spec(*pack, parts@, sheets, a),
            forall|m: int|
                0 <= m < skipped.len() ==> options.on_animation_error is Skip && !(
                #[trigger] skipped[m]).error.is_structural(),
            forall|a: int|
                0 <= a < i ==> !is_setup_name(#[trigger] pack.animations[a].name@) ==> !fps_supported(
                    options.fps_profile,
                    pack.animations[a].fps,
                ) ==> options.on_animation_error is Skip,
            forall|a: int|
                0 <= a < i ==> #[trigger] accounted(*pack, animations@, setup, skipped@, options, a),
        decreases pack.animations.len() - i,
    {
        let ghost an0 = animations@;
        let ghost s0 = setup;
        let ghost sk0 = skipped@;
        let animation = &pack.animations[i];
        if is_setup(&animation.name) {
            if options.setup == SetupPolicy::DefaultPose {
                match convert_animation(&pack.name, &parts, animation, &dict) {
                    Ok(timelines) => {
                        setup = Some(AnimationTimelines {
                            name: animation.name.clone(),
                            id: i,
                            fps: animation.fps,
                            frame_count: animation.frame_count,
                            parts: timelines,
                        });
                    },
                    Err(e) => {
                        proof {
                            if ok {
                                lemma_animation_parts_ok(*project, *pack, parts@, sheets, i as int);
                            }
                        }
                        if fails_conversion(&e, options) {
                            return Err(e);
                        }
                        skipped.push(e);
                        assert(skipped@[skipped.len() - 1].animation == Some(animation.name));
                    },
                }
            }
        } else if !supports_fps(options.fps_profile, animation.fps) {
            let e = ConvertError {
                pack: pack.name.clone(),
                animation: Some(animation.name.clone()),
                part: None,
                attribute: None,
                time: None,
                error: ParseAnimationError::NonSupportedFps { fps: animation.fps },
            };
            assert(!ok);
            if fails_conversion(&e, options) {
                return Err(e);
            }
            skipped.push(e);
            assert(skipped@[skipped.len() - 1].animation == Some(animation.name));
            assert(skipped@[skipped.len() - 1].error matches ParseAnimationError::NonSupportedFps { fps } && fps == animation.fps);
        } else {
            match convert_animation(&pack.name, &parts, animation, &dict) {
                Ok(timelines) => {
                    let ghost before = animations@;
                    animations.push(AnimationTimelines {
                        name: animation.name.clone(),
                        id: i,
                        fps: animation.fps,
                        frame_count: animation.frame_count,
                        parts: timelines,
                    });
                    proof {
                        assert(forall|m: int| 0 <= m < before.len() ==> animations[m] == before[m]);
                        assert(animations[before.len() as int].id == i);
                        assert forall|a: int| 0 <= a < i + 1 && #[trigger] accepted(*pack, parts@, sheets, options, a) implies has_entry(animations@, a) by {
                            if a < i {
                                assert(has_entry(before, a));
                                let m = choose|m: int| 0 <= m < before.len() && before[m].id == a;
                                assert(animations[m].id == a);
                            } else {
                                assert(animations[before.len() as int].id == a);
                            }
                        }
                    }
                },
                Err(e) => {
                    proof {
                        if ok {
                            lemma_animation_parts_ok(*project, *pack, parts@, sheets, i as int);
                        }
                    }
                    if fails_conversion(&e, options) {
                        return Err(e);
                    }
                    skipped.push(e);
                    assert(skipped@[skipped.len() - 1].animation == Some(animation.name));
                },
            }
        }
        proof {
            assert(accounted(*pack, animations@, setup, skipped@, options, i as int));
            assert forall|a: int| 0 <= a < i + 1 implies #[trigger] accounted(
                *pack,
                animations@,
                setup,
                skipped@,
                options,
                a,
            ) by {
                if a < i {
                    lemma_accounted_grows(*pack, an0, animations@, s0, setup, sk0, skipped@, options, a);
                }
            }
        }
        i += 1;
    }
    Ok(PackTimelines { name: pack.name.clone(), parts, animations, setup, skipped })
}

/// Converts a whole project: every pack, in project order.
///
/// Succeeds whenever every pack converts whatever the policy; under the skip
/// policy an animation whose error is not structural is left out and its error
/// recorded in its pack.
pub fn convert(project: &Project, options: Options) -> (r: Result<Vec<PackTimelines>, ConvertError>)
    ensures
        (forall|p: int| 0 <= p < project.packs.len() ==> pack_ok(*project, #[trigger] project.packs[p], options))
            ==> r is Ok,
        r matches Ok(packs) ==> packs.len() == project.packs.len() && forall|p: int|
            0 <= p < packs.len() ==> pack_spec(*project, #[trigger] project.packs[p], options, packs[p]),
        r matches Err(e) ==> exists|p: int|
            0 <= p < project.packs.len() && e.pack == #[trigger] project.packs[p].name && (!pack_sheets_ok(
                project.packs[p],
                project.cell_maps@,
            ) || (exists|q: int|
                0 <= q < project.packs[p].parts.len() && !part_ok(
                    #[trigger] project.packs[p].parts[q],
                    project.packs@,
                )) || options.on_animation_error is Abort || e.error.is_structural()),
{
    let pack_ids = pack_names(project);
    let animation_ids = animation_names(project);
    let mut packs: Vec<PackTimelines> = Vec::new();
    let mut p: usize = 0;
    while p < project.packs.len()
        invariant
            ids_match(*project, pack_ids@, animation_ids@),
            p <= project.packs.len(),
            packs.len() == p,
            forall|q: int| 0 <= q < p ==> pack_spec(*project, #[trigger] project.packs[q], options, packs[q]),
        decreases project.packs.len() - p,
    {
        match convert_pack(project, p, &pack_ids, &animation_ids, options) {
            Ok(pt) => packs.push(pt),
            Err(e) => return Err(e),
        }
        p += 1;
    }
    Ok(packs)
}

/// Every timeline of a converted pack is dense: each of its channels holds
/// exactly one entry per frame of its animation.
pub proof fn lemma_converted_timelines_dense(
    project: Project,
    pack: Pack,
    options: Options,
    pt: PackTimelines,
    k: int,
    j: int,
)
    requires
        pack_spec(project, pack, options, pt),
        0 <= k < pt.animations.len(),
        0 <= j < pt.animations[k].parts.len(),
        pt.animations[k].parts[j] is Some,
    ensures
        ({
            let t = pt.animations[k].parts[j]->Some_0;
            &&& t.frame_count == pt.animations[k].frame_count
            &&& forall|c: int| 0 <= c < t.channels.len() ==> channel_len(#[trigger] t.channels[c].data) == t.frame_count
        }),
{
    let sheets = pack_sheets(pack, project.cell_maps@);
    assert(playable_entry(pack, pt.parts@, sheets, options, pt.animations@[k]));
    assert(part_timeline_spec(pt.parts[j], pack.animations[pt.animations[k].id as int], sheets, pt.animations[k].parts[j]));
}

/// A part whose position Z and priority tracks both have keyframes makes its
/// animation fail; when it is the first part that fails, the animation's error
/// is the depth conflict, placed at that part.
pub proof fn lemma_depth_conflict_refused(
    pack_name: String,
    parts: Seq<PartInfo>,
    animation: Animation,
    sheets: Seq<Seq<String>>,
    j: int,
    e: ConvertError,
)
    requires
        0 <= j < parts.len(),
        anime_of(animation, parts[j].name@) is Some,
        depth_conflict(animation.part_animes[anime_of(animation, parts[j].name@)->Some_0].tracks@),
    ensures
        !part_timeline_ok(parts[j], animation, sheets),
        (forall|k: int| 0 <= k < j ==> part_timeline_ok(#[trigger] parts[k], animation, sheets))
            && animation_error(pack_name, parts, animation, sheets, e) ==> e.error is ConflictPositionZ
            && e.part == Some(parts[j].name),
{
    if (forall|k: int| 0 <= k < j ==> part_timeline_ok(#[trigger] parts[k], animation, sheets))
        && animation_error(pack_name, parts, animation, sheets, e) {
        let j2 = choose|j2: int|
            {
                &&& 0 <= j2 < parts.len()
                &&& !part_timeline_ok(parts[j2], animation, sheets)
                &&& forall|k: int| 0 <= k < j2 ==> part_timeline_ok(#[trigger] parts[k], animation, sheets)
                &&& e.pack == pack_name
                &&& e.animation == Some(animation.name)
                &&& e.part == Some(parts[j2].name)
                &&& exists|te: TrackError|
                    timeline_error(
                        animation.part_animes[anime_of(animation, parts[j2].name@)->Some_0].tracks@,
                        animation.frame_count,
                        sheets,
                        te,
                    ) && e.attribute == Some(te.attribute) && e.time == te.time && e.error == te.error
            };
        if j2 < j {
            assert(part_timeline_ok(parts[j2], animation, sheets));
        }
        if j2 > j {
            assert(part_timeline_ok(parts[j], animation, sheets));
        }
        assert(j2 == j);
    }
}

} // verus!
