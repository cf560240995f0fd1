//! The authored project model, the cell dictionaries of packs, and the
//! conversion of parts to descriptors with their references resolved.

use crate::dict::{find_position, lemma_position_in_range, position_of, CellDictionary};
use crate::error::ParseAnimationError;
use crate::keyframe::AttributeTrack;
use vstd::prelude::*;

verus! {

/// What kind of element a part is.
#[derive(Clone, Copy, Debug, PartialEq, Eq, Structural)]
pub enum PartType {
    Null,
    Normal,
    Text,
    Instance,
    Mesh,
    Bone,
    Joint,
    Armature,
    Effect,
    Mask,
}

/// The hit-test shape of a part.
#[derive(Clone, Copy, Debug, PartialEq, Eq, Structural)]
pub enum Bounds {
    Quad,
    Aabb,
    Circle,
    CircleMin,
    CircleMax,
}

/// A part as authored. A negative `parent` means the part has none.
#[derive(Clone, Debug)]
pub struct Part {
    pub name: String,
    pub index: i32,
    pub parent: i32,
    pub part_type: PartType,
    pub bounds: Option<Bounds>,
    /// The pack and animation that the part plays, by name.
    pub reference_animation: Option<(String, String)>,
    /// The effect that the part plays, by name.
    pub reference_effect: Option<String>,
}

/// The attribute tracks of one part in one animation, matched to the part by name.
#[derive(Clone, Debug)]
pub struct PartAnime {
    pub name: String,
    pub tracks: Vec<AttributeTrack>,
}

/// One animation of a pack.
#[derive(Clone, Debug)]
pub struct Animation {
    pub name: String,
    pub fps: u32,
    pub frame_count: u32,
    pub part_animes: Vec<PartAnime>,
}

/// A sprite sheet: its name and the names of its cells, in order.
#[derive(Clone, Debug)]
pub struct CellMap {
    pub name: String,
    pub cells: Vec<String>,
}

/// Parts and animations sharing one rig. An empty `cell_map_names` lets the
/// pack see every cell map of the project.
#[derive(Clone, Debug)]
pub struct Pack {
    pub name: String,
    pub cell_map_names: Vec<String>,
    pub parts: Vec<Part>,
    pub animations: Vec<Animation>,
}

/// An authored project.
#[derive(Clone, Debug)]
pub struct Project {
    pub cell_maps: Vec<CellMap>,
    pub packs: Vec<Pack>,
    pub effects: Vec<String>,
}

/// A pack and one of its animations, by numeric id.
#[derive(Clone, Copy, Debug, PartialEq, Eq, Structural)]
pub struct AnimationRef {
    pub pack: usize,
    pub animation: usize,
}

/// A part with its cross-references resolved.
#[derive(Debug)]
pub struct PartInfo {
    pub name: String,
    pub part_id: u32,
    pub parent_id: Option<u32>,
    pub part_type: PartType,
    pub bounds: Option<Bounds>,
    pub reference: Option<AnimationRef>,
    pub effect: Option<usize>,
}

pub open spec fn names_of_packs(packs: Seq<Pack>) -> Seq<String> {
    packs.map_values(|p: Pack| p.name)
}

pub open spec fn names_of_animations(animations: Seq<Animation>) -> Seq<String> {
    animations.map_values(|a: Animation| a.name)
}

pub open spec fn names_of_cell_maps(maps: Seq<CellMap>) -> Seq<String> {
    maps.map_values(|m: CellMap| m.name)
}

/// The names of the packs, in order: pack ids are positions in it.
pub fn pack_names(project: &Project) -> (r: Vec<String>)
    ensures
        r@ == names_of_packs(project.packs@),
{
    let mut r: Vec<String> = Vec::new();
    let mut i: usize = 0;
    while i < project.packs.len()
        invariant
            i <= project.packs.len(),
            r@ == names_of_packs(project.packs@.subrange(0, i as int)),
        decreases project.packs.len() - i,
    {
        r.push(project.packs[i].name.clone());
        i += 1;
        assert(names_of_packs(project.packs@.subrange(0, i as int)) =~= r@);
    }
    assert(project.packs@.subrange(0, i as int) =~= project.packs@);
    r
}

/// The names of the animations of each pack: animation ids are positions in them.
pub fn animation_names(project: &Project) -> (r: Vec<Vec<String>>)
    ensures
        r.len() == project.packs.len(),
        forall|p: int|
            0 <= p < r.len() ==> #[trigger] r[p]@ == names_of_animations(project.packs[p].animations@),
{
    let mut r: Vec<Vec<String>> = Vec::new();
    let mut p: usize = 0;
    while p < project.packs.len()
        invariant
            p <= project.packs.len(),
            r.len() == p,
            forall|q: int|
                0 <= q < p ==> #[trigger] r[q]@ == names_of_animations(project.packs[q].animations@),
        decreases project.packs.len() - p,
    {
        let animations = &project.packs[p].animations;
        let mut names: Vec<String> = Vec::new();
        let mut i: usize = 0;
        while i < animations.len()
            invariant
                i <= animations.len(),
                names@ == names_of_animations(animations@.subrange(0, i as int)),
            decreases animations.len() - i,
        {
            names.push(animations[i].name.clone());
            i += 1;
            assert(names_of_animations(animations@.subrange(0, i as int)) =~= names@);
        }
        assert(animations@.subrange(0, i as int) =~= animations@);
        r.push(names);
        p += 1;
    }
    r
}

/// The sheets a pack sees: the cell maps it lists, in its order, or every cell
/// map of the project when it lists none.
pub open spec fn pack_sheets_ok(pack: Pack, maps: Seq<CellMap>) -> bool {
    forall|k: int|
        0 <= k < pack.cell_map_names.len() ==> position_of(names_of_cell_maps(maps), #[trigger] pack.cell_map_names[k]@) is Some
}

/// The cell names of each sheet a pack sees.
pub open spec fn pack_sheets(pack: Pack, maps: Seq<CellMap>) -> Seq<Seq<String>> {
    if pack.cell_map_names.len() == 0 {
        maps.map_values(|m: CellMap| m.cells@)
    } else {
        pack.cell_map_names@.map_values(
            |name: String| maps[position_of(names_of_cell_maps(maps), name@)->Some_0].cells@,
        )
    }
}

/// Builds the cell dictionary of a pack. Fails on the first listed cell map
/// that the project lacks.
pub fn pack_cell_dictionary(pack: &Pack, maps: &Vec<CellMap>) -> (r: Result<CellDictionary, ParseAnimationError>)
    ensures
        r is Ok <==> pack_sheets_ok(*pack, maps@),
        r matches Ok(d) ==> d@ == pack_sheets(*pack, maps@),
        r matches Err(e) ==> exists|k: int|
            {
                &&& 0 <= k < pack.cell_map_names.len()
                &&& position_of(names_of_cell_maps(maps@), pack.cell_map_names[k]@) is None
                &&& e matches ParseAnimationError::UnknownCellMapName { name }
                &&& name == pack.cell_map_names[k]
            },
{
    let mut sheets: Vec<Vec<String>> = Vec::new();
    if pack.cell_map_names.len() == 0 {
        let mut k: usize = 0;
        while k < maps.len()
            invariant
                pack.cell_map_names.len() == 0,
                k <= maps.len(),
                sheets.len() == k,
                forall|j: int| 0 <= j < k ==> #[trigger] sheets[j]@ == maps[j].cells@,
            decreases maps.len() - k,
        {
            sheets.push(copy_names(&maps[k].cells));
            k += 1;
        }
        let d = CellDictionary { sheets };
        assert(d@ =~= pack_sheets(*pack, maps@));
        return Ok(d);
    }
    let mut map_names: Vec<String> = Vec::new();
    let mut i: usize = 0;
    while i < maps.len()
        invariant
            i <= maps.len(),
            map_names@ == names_of_cell_maps(maps@.subrange(0, i as int)),
        decreases maps.len() - i,
    {
        map_names.push(maps[i].name.clone());
        i += 1;
        assert(names_of_cell_maps(maps@.subrange(0, i as int)) =~= map_names@);
    }
    assert(maps@.subrange(0, i as int) =~= maps@);
    let mut k: usize = 0;
    while k < pack.cell_map_names.len()
        invariant
            map_names@ == names_of_cell_maps(maps@),
            map_names.len() == maps.len(),
            k <= pack.cell_map_names.len(),
            sheets.len() == k,
            forall|j: int| 0 <= j < k ==> position_of(names_of_cell_maps(maps@), #[trigger] pack.cell_map_names[j]@) is Some,
            forall|j: int|
                0 <= j < k ==> #[trigger] sheets[j]@ == maps[position_of(
                    names_of_cell_maps(maps@),
                    pack.cell_map_names[j]@,
                )->Some_0].cells@,
        decreases pack.cell_map_names.len() - k,
    {
        match find_position(&map_names, &pack.cell_map_names[k]) {
            Some(m) => {
                proof {
                    lemma_position_in_range(map_names@, pack.cell_map_names[k as int]@);
                }
                sheets.push(copy_names(&maps[m].cells));
            },
            None => {
                return Err(ParseAnimationError::UnknownCellMapName { name: pack.cell_map_names[k].clone() });
            },
        }
        k += 1;
    }
    let d = CellDictionary { sheets };
    assert(d@ =~= pack_sheets(*pack, maps@));
    Ok(d)
}

/// A copy of a list of names.
fn copy_names(names: &Vec<String>) -> (r: Vec<String>)
    ensures
        r@ == names@,
{
    let mut r: Vec<String> = Vec::new();
    let mut i: usize = 0;
    while i < names.len()
        invariant
            i <= names.len(),
            r@ == names@.subrange(0, i as int),
        decreases names.len() - i,
    {
        r.push(names[i].clone());
        i += 1;
        assert(r@ =~= names@.subrange(0, i as int));
    }
    assert(r@ =~= names@);
    r
}

/// The animation a part refers to, resolved to ids; `None` when a name does not
/// resolve.
pub open spec fn resolve_reference(r: Option<(String, String)>, packs: Seq<Pack>) -> Option<Option<AnimationRef>> {
    match r {
        None => Some(None),
        Some((pack_name, animation_name)) => match position_of(names_of_packs(packs), pack_name@) {
            None => None,
            Some(p) => match position_of(names_of_animations(packs[p].animations@), animation_name@) {
                None => None,
                Some(a) => Some(Some(AnimationRef { pack: p as usize, animation: a as usize })),
            },
        },
    }
}

/// The effect a part refers to, by position among the project's effects; an
/// effect name that no effect carries refers to none.
pub open spec fn resolve_effect(r: Option<String>, effects: Seq<String>) -> Option<usize> {
    match r {
        None => None,
        Some(name) => match position_of(effects, name@) {
            None => None,
            Some(i) => Some(i as usize),
        },
    }
}

/// Whether a part converts: its index is not negative and its animation
/// reference resolves.
pub open spec fn part_ok(part: Part, packs: Seq<Pack>) -> bool {
    part.index >= 0 && resolve_reference(part.reference_animation, packs) is Some
}

/// The descriptor of a part that converts.
pub open spec fn part_info_spec(part: Part, packs: Seq<Pack>, effects: Seq<String>, info: PartInfo) -> bool {
    &&& info.name == part.name
    &&& info.part_id == part.index as u32
    &&& info.parent_id == (if part.parent < 0 { None } else { Some(part.parent as u32) })
    &&& info.part_type == part.part_type
    &&& info.bounds == part.bounds
    &&& info.reference == resolve_reference(part.reference_animation, packs)->Some_0
    &&& info.effect == resolve_effect(part.reference_effect, effects)
}

/// The error of a part that does not convert.
pub open spec fn part_error(part: Part, packs: Seq<Pack>, e: ParseAnimationError) -> bool {
    if part.index < 0 {
        e matches ParseAnimationError::PartIndexError(name, index) && name == part.name && index == part.index
    } else {
        let (pack_name, animation_name) = part.reference_animation->Some_0;
        if position_of(names_of_packs(packs), pack_name@) is None {
            e matches ParseAnimationError::UnknownPack { name } && name == pack_name
        } else {
            e matches ParseAnimationError::UnknownAnimation { pack, name } && pack == pack_name
                && name == animation_name
        }
    }
}

/// Converts a part: checks its index and resolves its references.
pub(crate) fn convert_part(
    part: &Part,
    project: &Project,
    pack_ids: &Vec<String>,
    animation_ids: &Vec<Vec<String>>,
) -> (r: Result<PartInfo, ParseAnimationError>)
    requires
        pack_ids@ == names_of_packs(project.packs@),
        animation_ids.len() == project.packs.len(),
        forall|p: int|
            0 <= p < animation_ids.len() ==> #[trigger] animation_ids[p]@ == names_of_animations(
                project.packs[p].animations@,
            ),
    ensures
        r is Ok <==> part_ok(*part, project.packs@),
        r matches Ok(info) ==> part_info_spec(*part, project.packs@, project.effects@, info),
        r matches Err(e) ==> part_error(*part, project.packs@, e),
{
    if part.index < 0 {
        return Err(ParseAnimationError::PartIndexError(part.name.clone(), part.index));
    }
    let reference = match &part.reference_animation {
        None => None,
        Some((pack_name, animation_name)) => {
            let p = match find_position(pack_ids, pack_name) {
                Some(p) => p,
                None => return Err(ParseAnimationError::UnknownPack { name: pack_name.clone() }),
            };
            proof {
                lemma_position_in_range(pack_ids@, pack_name@);
            }
            match find_position(&animation_ids[p], animation_name) {
                Some(a) => Some(AnimationRef { pack: p, animation: a }),
                None => return Err(
                    ParseAnimationError::UnknownAnimation {
                        pack: pack_name.clone(),
                        name: animation_name.clone(),
                    },
                ),
            }
        },
    };
    let effect = match &part.reference_effect {
        None => None,
        Some(name) => find_position(&project.effects, name),
    };
    Ok(PartInfo {
        name: part.name.clone(),
        part_id: part.index as u32,
        parent_id: if part.parent < 0 {
            None
        } else {
            Some(part.parent as u32)
        },
        part_type: part.part_type,
        bounds: part.bounds,
        reference,
        effect,
    })
}

/// The position `p` occurs in the list.
pub open spec fn listed(order: Seq<usize>, p: int) -> bool {
    exists|k: int| 0 <= k < order.len() && order[k] == p
}

/// The positions of the parts ordered by declared index, ties kept in list order.
pub fn part_order(parts: &Vec<Part>) -> (order: Vec<usize>)
    ensures
        order.len() == parts.len(),
        forall|k: int| 0 <= k < order.len() ==> #[trigger] order[k] < parts.len(),
        forall|k: int, l: int| 0 <= k < l < order.len() ==> order[k] != order[l],
        forall|p: int| 0 <= p < parts.len() ==> #[trigger] listed(order@, p),
        forall|k: int, l: int|
            0 <= k <= l < order.len() ==> parts[order[k] as int].index <= parts[order[l] as int].index,
        forall|k: int, l: int|
            0 <= k < l < order.len() && parts[order[k] as int].index == parts[order[l] as int].index
                ==> order[k] < order[l],
{
    let mut order: Vec<usize> = Vec::new();
    let mut i: usize = 0;
    while i < parts.len()
        invariant
            i <= parts.len(),
            order.len() == i,
            forall|k: int| 0 <= k < order.len() ==> #[trigger] order[k] < i,
            forall|k: int, l: int| 0 <= k < l < order.len() ==> order[k] != order[l],
            forall|p: int| 0 <= p < i ==> #[trigger] listed(order@, p),
            forall|k: int, l: int|
                0 <= k <= l < order.len() ==> parts[order[k] as int].index <= parts[order[l] as int].index,
            forall|k: int, l: int|
                0 <= k < l < order.len() && parts[order[k] as int].index == parts[order[l] as int].index
                    ==> order[k] < order[l],
        decreases parts.len() - i,
    {
        let key = parts[i].index;
        let mut at: usize = 0;
        while at < order.len() && parts[order[at]].index <= key
            invariant
                at <= order.len(),
                forall|k: int| 0 <= k < order.len() ==> #[trigger] order[k] < i,
                i < parts.len(),
                key == parts[i as int].index,
                forall|k: int| 0 <= k < at ==> parts[order[k] as int].index <= key,
            decreases order.len() - at,
        {
            at += 1;
        }
        let ghost old_order = order@;
        order.insert(at, i);
        proof {
            old_order.insert_ensures(at as int, i);
            assert forall|p: int| 0 <= p < i + 1 implies #[trigger] listed(order@, p) by {
                if p == i {
                    assert(order[at as int] == p);
                } else {
                    assert(listed(old_order, p));
                    let k = choose|k: int| 0 <= k < old_order.len() && old_order[k] == p;
                    if k < at {
                        assert(order[k] == p);
                    } else {
                        assert(order[k + 1] == p);
                    }
                }
            }
            assert forall|k: int, l: int|
                0 <= k <= l < order.len() implies parts[order[k] as int].index <= parts[order[l] as int].index by {
                if l < at {
                } else if k > at {
                    assert(order[k] == old_order[k - 1]);
                    assert(order[l] == old_order[l - 1]);
                } else if k == at && l > at {
                    assert(order[l] == old_order[l - 1]);
                    assert(at < old_order.len());
                    assert(parts[old_order[at as int] as int].index > key);
                } else if k < at && l > at {
                    assert(order[l] == old_order[l - 1]);
                } else {
                }
            }
            assert forall|k: int, l: int|
                0 <= k < l < order.len() && parts[order[k] as int].index == parts[order[l] as int].index
                    implies order[k] < order[l] by {
                if l < at {
                } else if k > at {
                    assert(order[k] == old_order[k - 1]);
                    assert(order[l] == old_order[l - 1]);
                } else if k == at {
                    assert(order[l] == old_order[l - 1]);
                    assert(parts[old_order[at as int] as int].index > key);
                    assert(parts[order[l] as int].index >= parts[old_order[at as int] as int].index);
                } else if l == at {
                    assert(order[k] == old_order[k]);
                } else {
                    assert(order[l] == old_order[l - 1]);
                }
            }
        }
        i += 1;
    }
    order
}

} // verus!
