//! What a hand can reach, and what it holds.

use vstd::prelude::*;
use vstd::string::StringExecFns;

use crate::engine::{
    text_of, GripKind, GripPointDef, Hand, PartAnimationDef, SkyDef, Transform,
};
use crate::nearest::{closest, closest_is_admitted, closest_is_smallest, closest_of};
use crate::protocol::{WireHeldGrip, WireObjectBounds};
use crate::scalar::{Quat, Scalar, Vec3};
use crate::scene::{GameObject, Scene};
use crate::table::{position, position_is_first, Table};
use crate::text::{decimal, to_decimal};

verus! {

/// The bit pattern of 0.15: how far a hand reaches, in metres.
pub const GRAB_RANGE: u32 = 0x3e19_999a;

/// How far a hand reaches.
#[verifier::allow_in_spec]
pub fn grab_range() -> Scalar
    returns
        (Scalar { bits: GRAB_RANGE }),
{
    Scalar { bits: GRAB_RANGE }
}

/// The box around an object, where it stands now.
#[derive(Clone, Copy, Debug, PartialEq, Eq, Structural)]
pub struct LiveCuboid {
    pub position: Vec3,
    pub rotation: Quat,
    pub half_size: Vec3,
}

/// Every object's box, by id.
#[derive(Debug)]
pub struct LiveObjects {
    pub by_id: Table<LiveCuboid>,
}

/// The box that a list of bounds gives an object: the last one that names it.
pub open spec fn bounds_of(bounds: Seq<WireObjectBounds>, id: Seq<char>) -> Option<LiveCuboid>
    decreases bounds.len(),
{
    if bounds.len() == 0 {
        None
    } else if bounds.last().id@ == id {
        let b = bounds.last();
        Some(LiveCuboid { position: b.position, rotation: b.rotation, half_size: b.half_size })
    } else {
        bounds_of(bounds.drop_last(), id)
    }
}

impl LiveObjects {
    /// No object at all.
    pub fn new() -> (r: LiveObjects)
        ensures
            r.by_id.entries@.len() == 0,
            r.by_id.distinct(),
            forall|k: Seq<char>| #[trigger] r.by_id.lookup(k) is None,
    {
        LiveObjects { by_id: Table::new() }
    }

    /// Replaces every box by those of a new account of the world.
    pub fn update(&mut self, object_bounds: &[WireObjectBounds])
        ensures
            final(self).by_id.distinct(),
            forall|k: Seq<char>| #[trigger]
                final(self).by_id.lookup(k) == bounds_of(object_bounds@, k),
    {
        let mut by_id: Table<LiveCuboid> = Table::new();
        let mut i: usize = 0;
        while i < object_bounds.len()
            invariant
                i <= object_bounds@.len(),
                by_id.distinct(),
                forall|k: Seq<char>| #[trigger]
                    by_id.lookup(k) == bounds_of(object_bounds@.take(i as int), k),
            decreases object_bounds@.len() - i,
        {
            let b = &object_bounds[i];
            by_id.insert(
                b.id.clone(),
                LiveCuboid { position: b.position, rotation: b.rotation, half_size: b.half_size },
            );
            proof {
                assert(object_bounds@.take(i + 1).drop_last() =~= object_bounds@.take(i as int));
            }
            i = i + 1;
        }
        proof {
            assert(object_bounds@.take(i as int) =~= object_bounds@);
        }
        self.by_id = by_id;
    }
}

/// The parts of a scene that the client itself acts on.
#[derive(Debug)]
pub struct StaticScene {
    pub scene_name: String,
    pub grip_points: Table<Vec<GripPointDef>>,
    pub part_animations: Table<Vec<PartAnimationDef>>,
    pub sky: Option<SkyDef>,
}

/// The grip points that a scene gives an object: those of the last object of
/// that id that has any.
pub open spec fn grips_of(objects: Seq<GameObject>, id: Seq<char>) -> Option<Vec<GripPointDef>>
    decreases objects.len(),
{
    if objects.len() == 0 {
        None
    } else if objects.last().id@ == id && objects.last().grip_points@.len() > 0 {
        Some(objects.last().grip_points)
    } else {
        grips_of(objects.drop_last(), id)
    }
}

/// The part animations that a scene gives an object: those of the last object
/// of that id that has any.
pub open spec fn parts_of(objects: Seq<GameObject>, id: Seq<char>) -> Option<Vec<PartAnimationDef>>
    decreases objects.len(),
{
    if objects.len() == 0 {
        None
    } else if objects.last().id@ == id && objects.last().part_animations@.len() > 0 {
        Some(objects.last().part_animations)
    } else {
        parts_of(objects.drop_last(), id)
    }
}

/// Whether a scene is a document sorted by object, under a name. A document that
/// could not be read gives a scene in which nothing can be gripped and nothing
/// moves.
pub open spec fn is_sorted_from(r: StaticScene, name: Seq<char>, document: Option<Scene>) -> bool {
    &&& r.scene_name@ == name
    &&& r.grip_points.distinct()
    &&& r.part_animations.distinct()
    &&& match document {
        Some(s) => {
            &&& forall|k: Seq<char>| #[trigger] r.grip_points.lookup(k) == grips_of(s.objects@, k)
            &&& forall|k: Seq<char>| #[trigger]
                r.part_animations.lookup(k) == parts_of(s.objects@, k)
            &&& r.sky == s.sky
        },
        None => {
            &&& r.grip_points.entries@.len() == 0
            &&& r.part_animations.entries@.len() == 0
            &&& r.sky is None
        },
    }
}

impl StaticScene {
    /// Sorts a scene document by object. A document that could not be read
    /// gives a scene in which nothing can be gripped and nothing moves.
    pub fn load(scene_name: &String, scene: Option<Scene>) -> (r: StaticScene)
        ensures
            is_sorted_from(r, scene_name@, scene),
    {
        let mut grip_points: Table<Vec<GripPointDef>> = Table::new();
        let mut part_animations: Table<Vec<PartAnimationDef>> = Table::new();
        let mut sky: Option<SkyDef> = None;
        if let Some(s) = scene {
            sky = s.sky;
            let ghost objects = s.objects@;
            for o in it: s.objects
                invariant
                    it.seq() == objects,
                    grip_points.distinct(),
                    part_animations.distinct(),
                    forall|k: Seq<char>| #[trigger]
                        grip_points.lookup(k) == grips_of(objects.take(it.index() as int), k),
                    forall|k: Seq<char>| #[trigger]
                        part_animations.lookup(k) == parts_of(objects.take(it.index() as int), k),
            {
                proof {
                    let n = it.index() as int;
                    assert(objects.take(n + 1).drop_last() =~= objects.take(n));
                    assert(objects.take(n + 1).last() == o);
                }
                let id = o.id.clone();
                if o.grip_points.len() > 0 {
                    grip_points.insert(id, o.grip_points);
                }
                if o.part_animations.len() > 0 {
                    part_animations.insert(o.id, o.part_animations);
                }
            }
            proof {
                assert(objects.take(objects.len() as int) =~= objects);
            }
        }
        StaticScene { scene_name: scene_name.clone(), grip_points, part_animations, sky }
    }
}

/// Which of a list of distances a hand reaches.
pub open spec fn within_reach(distances: Seq<Scalar>) -> Seq<bool> {
    distances.map_values(|d: Scalar| d.at_most(grab_range()))
}

/// The nearest object within reach, where `distances` measures each object in
/// the order of the walk.
pub open spec fn nearest_object(live: LiveObjects, distances: Seq<Scalar>) -> Option<Seq<char>> {
    match closest(distances, within_reach(distances)) {
        Some(i) => Some(live.by_id.entries@[i].0@),
        None => None,
    }
}

/// The nearest object within reach of a hand.
pub fn nearest_object_to(live: &LiveObjects, distances: &[Scalar]) -> (r: Option<String>)
    requires
        distances@.len() == live.by_id.entries@.len(),
    ensures
        text_of(r) == nearest_object(*live, distances@),
{
    let mut admitted: Vec<bool> = Vec::new();
    let mut i: usize = 0;
    while i < distances.len()
        invariant
            i <= distances@.len(),
            admitted@ =~= within_reach(distances@).take(i as int),
        decreases distances@.len() - i,
    {
        admitted.push(distances[i].le(grab_range()));
        i = i + 1;
    }
    assert(admitted@ =~= within_reach(distances@));
    match closest_of(distances, admitted.as_slice()) {
        Some(k) => Some(live.by_id.entries[k].0.clone()),
        None => None,
    }
}

/// Which objects a bare-proximity grab may take: those within reach that no
/// author gave a grip point.
pub open spec fn grabbable(
    live: LiveObjects,
    scene: StaticScene,
    distances: Seq<Scalar>,
) -> Seq<bool> {
    Seq::new(
        distances.len(),
        |i: int|
            distances[i].at_most(grab_range()) && !scene.grip_points.holds(
                live.by_id.entries@[i].0@,
            ),
    )
}

/// The nearest object that a bare-proximity grab may take.
pub open spec fn nearest_grabbable(
    live: LiveObjects,
    scene: StaticScene,
    distances: Seq<Scalar>,
) -> Option<Seq<char>> {
    match closest(distances, grabbable(live, scene, distances)) {
        Some(i) => Some(live.by_id.entries@[i].0@),
        None => None,
    }
}

/// The nearest object that a bare-proximity grab may take.
///
/// An object with grip points is left out: those points are how it is held, and
/// a grab elsewhere on it would attach it at whatever offset it happened to have.
pub fn nearest_grabbable_object_to(
    live: &LiveObjects,
    static_scene: &StaticScene,
    distances: &[Scalar],
) -> (r: Option<String>)
    requires
        distances@.len() == live.by_id.entries@.len(),
    ensures
        text_of(r) == nearest_grabbable(*live, *static_scene, distances@),
{
    let mut admitted: Vec<bool> = Vec::new();
    let mut i: usize = 0;
    while i < distances.len()
        invariant
            i <= distances@.len(),
            distances@.len() == live.by_id.entries@.len(),
            admitted@ =~= grabbable(*live, *static_scene, distances@).take(i as int),
        decreases distances@.len() - i,
    {
        let free = !static_scene.grip_points.contains_key(&live.by_id.entries[i].0);
        admitted.push(distances[i].le(grab_range()) && free);
        i = i + 1;
    }
    assert(admitted@ =~= grabbable(*live, *static_scene, distances@));
    match closest_of(distances, admitted.as_slice()) {
        Some(k) => Some(live.by_id.entries[k].0.clone()),
        None => None,
    }
}

/// The pose that was last published for the part that a grip point rides.
pub open spec fn pose_of_part(
    gp: GripPointDef,
    object_id: Seq<char>,
    part_transforms: Table<Table<Transform>>,
) -> Option<Transform> {
    match gp.part {
        Some(name) => match part_transforms.lookup(object_id) {
            Some(parts) => parts.lookup(name@),
            None => None,
        },
        None => None,
    }
}

/// The pose of the part that a grip point rides, if it rides one.
pub fn part_pose(
    gp: &GripPointDef,
    object_id: &String,
    part_transforms: &Table<Table<Transform>>,
) -> (r: Option<Transform>)
    ensures
        r == pose_of_part(*gp, object_id@, *part_transforms),
{
    match &gp.part {
        Some(name) => match part_transforms.get(object_id) {
            Some(parts) => match parts.get(name) {
                Some(t) => Some(*t),
                None => None,
            },
            None => None,
        },
        None => None,
    }
}

/// Which grip points a search looks at.
#[derive(Clone, Copy, Debug, PartialEq, Eq, Structural)]
pub enum GripSearch {
    /// All of the hand's.
    Any,
    /// Those of the hand's that it reaches; a pinch also needs the trigger.
    Reachable { trigger_only: bool },
}

/// How far a hand may be from a grip point and still take it.
pub open spec fn range_of(gp: GripPointDef) -> Scalar {
    match gp.grab_range {
        Some(r) => r,
        None => grab_range(),
    }
}

/// Whether a search for a hand's grip points admits one at a distance.
pub open spec fn admits(search: GripSearch, hand: Hand, gp: GripPointDef, d: Scalar) -> bool {
    gp.hand == hand && match search {
        GripSearch::Any => true,
        GripSearch::Reachable { trigger_only } => d.at_most(range_of(gp)) && (gp.kind
            != GripKind::Pinch || trigger_only),
    }
}

/// The admitted points of one object, numbered in their own order.
pub open spec fn admitted_points(
    search: GripSearch,
    hand: Hand,
    points: Seq<GripPointDef>,
    distances: Seq<Scalar>,
) -> Seq<int>
    decreases points.len(),
{
    if points.len() == 0 {
        Seq::empty()
    } else {
        let before = admitted_points(search, hand, points.drop_last(), distances);
        let last = points.len() - 1;
        if admits(search, hand, points[last], distances[last]) {
            before.push(last)
        } else {
            before
        }
    }
}

/// The admitted points of every object that is there, as pairs of the object's
/// place in the walk and the point's number.
pub open spec fn admitted_grips(
    search: GripSearch,
    hand: Hand,
    live: LiveObjects,
    grips: Seq<(String, Vec<GripPointDef>)>,
    distances: Seq<Vec<Scalar>>,
) -> Seq<(int, int)>
    decreases grips.len(),
{
    if grips.len() == 0 {
        Seq::empty()
    } else {
        let before = admitted_grips(search, hand, live, grips.drop_last(), distances);
        let last = grips.len() - 1;
        if live.by_id.holds(grips[last].0@) {
            before + admitted_points(
                search,
                hand,
                grips[last].1@,
                distances[last]@,
            ).map_values(|j: int| (last, j))
        } else {
            before
        }
    }
}

/// How far the hand is from each of a list of grip points.
pub open spec fn measured(chosen: Seq<(int, int)>, distances: Seq<Vec<Scalar>>) -> Seq<Scalar> {
    chosen.map_values(|p: (int, int)| distances[p.0]@[p.1])
}

/// The nearest admitted grip point.
pub open spec fn grip_choice(
    search: GripSearch,
    hand: Hand,
    live: LiveObjects,
    grips: Seq<(String, Vec<GripPointDef>)>,
    distances: Seq<Vec<Scalar>>,
) -> Option<(int, int)> {
    let chosen = admitted_grips(search, hand, live, grips, distances);
    match closest(measured(chosen, distances), Seq::new(chosen.len(), |i: int| true)) {
        Some(i) => Some(chosen[i]),
        None => None,
    }
}

/// Whether there is one distance for every grip point.
pub open spec fn one_distance_each(
    grips: Seq<(String, Vec<GripPointDef>)>,
    distances: Seq<Vec<Scalar>>,
) -> bool {
    &&& distances.len() == grips.len()
    &&& forall|i: int|
        0 <= i < grips.len() ==> (#[trigger] distances[i])@.len() == grips[i].1@.len()
}

fn admits_point(search: GripSearch, hand: Hand, gp: &GripPointDef, d: Scalar) -> (r: bool)
    ensures
        r == admits(search, hand, *gp, d),
{
    if gp.hand != hand {
        return false;
    }
    match search {
        GripSearch::Any => true,
        GripSearch::Reachable { trigger_only } => {
            let range = match gp.grab_range {
                Some(r) => r,
                None => grab_range(),
            };
            d.le(range) && (gp.kind != GripKind::Pinch || trigger_only)
        },
    }
}

/// Where the nearest admitted grip point stands.
fn choose_grip(
    search: GripSearch,
    hand: Hand,
    live: &LiveObjects,
    static_scene: &StaticScene,
    distances: &[Vec<Scalar>],
) -> (r: Option<(usize, usize)>)
    requires
        one_distance_each(static_scene.grip_points.entries@, distances@),
    ensures
        match r {
            Some(p) => grip_choice(
                search,
                hand,
                *live,
                static_scene.grip_points.entries@,
                distances@,
            ) == Some((p.0 as int, p.1 as int)) && p.0 < distances@.len() && p.1
                < distances@[p.0 as int]@.len(),
            None => grip_choice(
                search,
                hand,
                *live,
                static_scene.grip_points.entries@,
                distances@,
            ) is None,
        },
{
    let ghost grips = static_scene.grip_points.entries@;
    let mut chosen: Vec<(usize, usize)> = Vec::new();
    let mut lengths: Vec<Scalar> = Vec::new();
    let mut flags: Vec<bool> = Vec::new();
    let mut i: usize = 0;
    while i < distances.len()
        invariant
            i <= distances@.len(),
            grips == static_scene.grip_points.entries@,
            one_distance_each(grips, distances@),
            chosen@.len() == lengths@.len() == flags@.len(),
            forall|k: int| 0 <= k < flags@.len() ==> flags@[k],
            forall|k: int|
                0 <= k < chosen@.len() ==> {
                    let p = #[trigger] chosen@[k];
                    p.0 < distances@.len() && p.1 < distances@[p.0 as int]@.len() && lengths@[k]
                        == distances@[p.0 as int]@[p.1 as int]
                },
            chosen@.map_values(|p: (usize, usize)| (p.0 as int, p.1 as int)) =~= admitted_grips(
                search,
                hand,
                *live,
                grips.take(i as int),
                distances@,
            ),
        decreases distances@.len() - i,
    {
        let ghost before = admitted_grips(search, hand, *live, grips.take(i as int), distances@);
        proof {
            assert(grips.take(i + 1).drop_last() =~= grips.take(i as int));
            assert(distances@[i as int]@.len() == grips[i as int].1@.len());
        }
        if live.by_id.contains_key(&static_scene.grip_points.entries[i].0) {
            let points = &static_scene.grip_points.entries[i].1;
            let mut j: usize = 0;
            while j < points.len()
                invariant
                    i < distances@.len(),
                    j <= points@.len(),
                    points@ == grips[i as int].1@,
                    grips == static_scene.grip_points.entries@,
                    one_distance_each(grips, distances@),
                    points@.len() == distances@[i as int]@.len(),
                    chosen@.len() == lengths@.len() == flags@.len(),
                    forall|k: int| 0 <= k < flags@.len() ==> flags@[k],
                    forall|k: int|
                        0 <= k < chosen@.len() ==> {
                            let p = #[trigger] chosen@[k];
                            p.0 < distances@.len() && p.1 < distances@[p.0 as int]@.len()
                                && lengths@[k] == distances@[p.0 as int]@[p.1 as int]
                        },
                    chosen@.map_values(|p: (usize, usize)| (p.0 as int, p.1 as int)) =~= before
                        + admitted_points(
                        search,
                        hand,
                        points@.take(j as int),
                        distances@[i as int]@,
                    ).map_values(|q: int| (i as int, q)),
                decreases points@.len() - j,
            {
                proof {
                    assert(points@.take(j + 1).drop_last() =~= points@.take(j as int));
                }
                let ghost pairs = |p: (usize, usize)| (p.0 as int, p.1 as int);
                let ghost tag = |q: int| (i as int, q);
                let ghost had = chosen@;
                let ghost found = admitted_points(
                    search,
                    hand,
                    points@.take(j as int),
                    distances@[i as int]@,
                );
                let d: Scalar = distances[i][j];
                if admits_point(search, hand, &points[j], d) {
                    chosen.push((i, j));
                    lengths.push(d);
                    flags.push(true);
                    proof {
                        assert(chosen@.map_values(pairs) =~= had.map_values(pairs).push(
                            (i as int, j as int),
                        ));
                        assert(found.push(j as int).map_values(tag) =~= found.map_values(tag).push(
                            (i as int, j as int),
                        ));
                    }
                }
                j = j + 1;
            }
            proof {
                assert(points@.take(j as int) =~= points@);
            }
        }
        i = i + 1;
    }
    proof {
        assert(grips.take(i as int) =~= grips);
        let all = admitted_grips(search, hand, *live, grips, distances@);
        assert(chosen@.map_values(|p: (usize, usize)| (p.0 as int, p.1 as int)) =~= all);
        assert forall|k: int| 0 <= k < all.len() implies #[trigger] all[k] == (
            chosen@[k].0 as int,
            chosen@[k].1 as int,
        ) by {
            assert(chosen@.map_values(|p: (usize, usize)| (p.0 as int, p.1 as int))[k] == all[k]);
        }
        assert(lengths@ =~= measured(all, distances@));
        assert(flags@ =~= Seq::new(all.len(), |k: int| true));
    }
    match closest_of(lengths.as_slice(), flags.as_slice()) {
        Some(k) => Some(chosen[k]),
        None => None,
    }
}

/// The nearest grip point that a hand can take now, as the object's id and the
/// point's name.
pub open spec fn nearest_grip(
    live: LiveObjects,
    scene: StaticScene,
    distances: Seq<Vec<Scalar>>,
    trigger_only: bool,
    hand: Hand,
) -> Option<(Seq<char>, Seq<char>)> {
    let grips = scene.grip_points.entries@;
    match grip_choice(GripSearch::Reachable { trigger_only }, hand, live, grips, distances) {
        Some(p) => Some((grips[p.0].0@, grips[p.0].1@[p.1].name@)),
        None => None,
    }
}

/// The nearest grip point that a hand can take now. `distances` measures the
/// points of each object of the scene, in the order of the walk.
pub fn nearest_grip_point_to(
    live: &LiveObjects,
    static_scene: &StaticScene,
    distances: &[Vec<Scalar>],
    trigger_only: bool,
    hand: Hand,
) -> (r: Option<(String, String)>)
    requires
        one_distance_each(static_scene.grip_points.entries@, distances@),
    ensures
        match r {
            Some(found) => nearest_grip(*live, *static_scene, distances@, trigger_only, hand)
                == Some((found.0@, found.1@)),
            None => nearest_grip(*live, *static_scene, distances@, trigger_only, hand) is None,
        },
{
    match choose_grip(
        GripSearch::Reachable { trigger_only },
        hand,
        live,
        static_scene,
        distances,
    ) {
        Some(p) => {
            let entry = &static_scene.grip_points.entries[p.0];
            Some((entry.0.clone(), entry.1[p.1].name.clone()))
        },
        None => None,
    }
}

/// What a hand holds: what the server says, or else what the hand grabbed and
/// has not let go, or else what is nearest to it.
pub open spec fn holding(
    held: Option<WireHeldGrip>,
    grabbed: Option<Seq<char>>,
    live: LiveObjects,
    distances: Seq<Scalar>,
) -> Option<Seq<char>> {
    match held {
        Some(h) => Some(h.object_id@),
        None => match grabbed {
            Some(id) => Some(id),
            None => nearest_object(live, distances),
        },
    }
}

/// What this hand holds.
///
/// The server's answer comes first, then what the hand grabbed and has not let
/// go. The second is not redundant: a proximity grab names no grip point, so the
/// server may report an empty hand for an object that the player plainly
/// carries. Proximity is the last resort.
pub fn held_object_id(
    held: Option<&WireHeldGrip>,
    grabbed: &Option<String>,
    live: &LiveObjects,
    distances: &[Scalar],
) -> (r: Option<String>)
    requires
        distances@.len() == live.by_id.entries@.len(),
    ensures
        text_of(r) == holding(
            match held {
                Some(h) => Some(*h),
                None => None,
            },
            text_of(*grabbed),
            *live,
            distances@,
        ),
{
    if let Some(h) = held {
        return Some(h.object_id.clone());
    }
    if let Some(id) = grabbed {
        return Some(id.clone());
    }
    nearest_object_to(live, distances)
}

/// What surrounds a hand, for the log.
#[derive(Debug)]
pub struct GrabDiag {
    /// The nearest object and its distance.
    pub nearest_obj: Option<(String, Scalar)>,
    /// The nearest grip point for the hand: object, point, distance and range.
    pub nearest_grip: Option<(String, String, Scalar, Scalar)>,
    pub live_count: usize,
}

/// The numbers of a diagnosis, written out.
#[derive(Debug)]
pub struct DiagNumbers {
    pub hand_x: String,
    pub hand_y: String,
    pub hand_z: String,
    pub object_distance: String,
    pub grip_distance: String,
    pub grip_range: String,
}

/// The words for a hand.
pub open spec fn hand_name(hand: Hand) -> Seq<char> {
    match hand {
        Hand::Left => "Left"@,
        Hand::Right => "Right"@,
    }
}

impl GrabDiag {
    /// What the log says of the nearest object.
    pub open spec fn object_words(self, n: DiagNumbers) -> Seq<char> {
        match self.nearest_obj {
            Some(o) => "nearest_obj='"@ + o.0@ + "' surf_d="@ + n.object_distance@
                + "m (grab<=0.15)"@,
            None => "nearest_obj=none"@,
        }
    }

    /// What the log says of the nearest grip point.
    pub open spec fn grip_words(self, n: DiagNumbers) -> Seq<char> {
        match self.nearest_grip {
            Some(g) => "nearest_grip='"@ + g.0@ + "'."@ + g.1@ + " d="@ + n.grip_distance@
                + "m (need<="@ + n.grip_range@ + ") "@ + (if g.2.at_most(g.3) {
                "IN-RANGE"@
            } else {
                "too-far"@
            }),
            None => "nearest_grip=none-for-hand"@,
        }
    }

    /// One line for the log.
    pub fn summary(&self, hand: Hand, n: &DiagNumbers) -> (r: String)
        ensures
            r@ == "GRABDIAG "@ + hand_name(hand) + ": hand=("@ + n.hand_x@ + ","@ + n.hand_y@
                + ","@ + n.hand_z@ + ") live="@ + decimal(self.live_count as nat) + " "@
                + self.object_words(*n) + " "@ + self.grip_words(*n),
    {
        let mut out = String::from_str("GRABDIAG ");
        match hand {
            Hand::Left => out.append("Left"),
            Hand::Right => out.append("Right"),
        }
        out.append(": hand=(");
        out.append(n.hand_x.as_str());
        out.append(",");
        out.append(n.hand_y.as_str());
        out.append(",");
        out.append(n.hand_z.as_str());
        out.append(") live=");
        let count = to_decimal(self.live_count as u64);
        out.append(count.as_str());
        out.append(" ");
        let ghost head = out@;
        match &self.nearest_obj {
            Some(o) => {
                out.append("nearest_obj='");
                out.append(o.0.as_str());
                out.append("' surf_d=");
                out.append(n.object_distance.as_str());
                out.append("m (grab<=0.15)");
            },
            None => {
                out.append("nearest_obj=none");
            },
        }
        assert(out@ =~= head + self.object_words(*n));
        out.append(" ");
        let ghost body = out@;
        match &self.nearest_grip {
            Some(g) => {
                out.append("nearest_grip='");
                out.append(g.0.as_str());
                out.append("'.");
                out.append(g.1.as_str());
                out.append(" d=");
                out.append(n.grip_distance.as_str());
                out.append("m (need<=");
                out.append(n.grip_range.as_str());
                out.append(") ");
                if g.2.le(g.3) {
                    out.append("IN-RANGE");
                } else {
                    out.append("too-far");
                }
            },
            None => {
                out.append("nearest_grip=none-for-hand");
            },
        }
        assert(out@ =~= body + self.grip_words(*n));
        out
    }
}

/// Whether a diagnosis says what is around a hand.
pub open spec fn is_around(
    r: GrabDiag,
    live: LiveObjects,
    static_scene: StaticScene,
    object_distances: Seq<Scalar>,
    grip_distances: Seq<Vec<Scalar>>,
    hand: Hand,
) -> bool {
    &&& r.live_count == live.by_id.entries@.len()
    &&& match closest(object_distances, Seq::new(object_distances.len(), |i: int| true)) {
        Some(i) => r.nearest_obj matches Some(o) && o.0@ == live.by_id.entries@[i].0@ && o.1
            == object_distances[i],
        None => r.nearest_obj is None,
    }
    &&& match grip_choice(
        GripSearch::Any,
        hand,
        live,
        static_scene.grip_points.entries@,
        grip_distances,
    ) {
        Some(p) => {
            let entry = static_scene.grip_points.entries@[p.0];
            r.nearest_grip matches Some(g) && g.0@ == entry.0@ && g.1@ == entry.1@[p.1].name@
                && g.2 == grip_distances[p.0]@[p.1] && g.3 == range_of(entry.1@[p.1])
        },
        None => r.nearest_grip is None,
    }
}

/// Looks around a hand: the nearest object however far, and the nearest of the
/// hand's grip points however far.
pub fn grab_diagnostic(
    live: &LiveObjects,
    static_scene: &StaticScene,
    object_distances: &[Scalar],
    grip_distances: &[Vec<Scalar>],
    hand: Hand,
) -> (r: GrabDiag)
    requires
        object_distances@.len() == live.by_id.entries@.len(),
        one_distance_each(static_scene.grip_points.entries@, grip_distances@),
        object_distances@.len() >= 2 ==> forall|i: int|
            0 <= i < object_distances@.len() ==> !(#[trigger] object_distances@[i]).nan(),
        ({
            let m = measured(
                admitted_grips(
                    GripSearch::Any,
                    hand,
                    *live,
                    static_scene.grip_points.entries@,
                    grip_distances@,
                ),
                grip_distances@,
            );
            m.len() >= 2 ==> forall|i: int| 0 <= i < m.len() ==> !(#[trigger] m[i]).nan()
        }),
    ensures
        is_around(r, *live, *static_scene, object_distances@, grip_distances@, hand),
{
    let mut flags: Vec<bool> = Vec::new();
    let mut i: usize = 0;
    while i < object_distances.len()
        invariant
            i <= object_distances@.len(),
            flags@ =~= Seq::new(i as nat, |k: int| true),
        decreases object_distances@.len() - i,
    {
        flags.push(true);
        i = i + 1;
    }
    let nearest_obj = match closest_of(object_distances, flags.as_slice()) {
        Some(k) => Some((live.by_id.entries[k].0.clone(), object_distances[k])),
        None => None,
    };
    let nearest_grip = match choose_grip(
        GripSearch::Any,
        hand,
        live,
        static_scene,
        grip_distances,
    ) {
        Some(p) => {
            let entry = &static_scene.grip_points.entries[p.0];
            let gp = &entry.1[p.1];
            let range = match gp.grab_range {
                Some(g) => g,
                None => grab_range(),
            };
            Some((entry.0.clone(), gp.name.clone(), grip_distances[p.0][p.1], range))
        },
        None => None,
    };
    GrabDiag { nearest_obj, nearest_grip, live_count: live.by_id.len() }
}

/// What a bare-proximity grab takes is within reach, and is never an object that
/// its author gave grip points.
pub proof fn grip_points_are_the_way_to_hold(
    live: LiveObjects,
    scene: StaticScene,
    distances: Seq<Scalar>,
)
    requires
        distances.len() == live.by_id.entries@.len(),
    ensures
        nearest_grabbable(live, scene, distances) matches Some(id) ==> !scene.grip_points.holds(id)
            && exists|i: int|
            0 <= i < distances.len() && (#[trigger] live.by_id.entries@[i]).0@ == id
                && distances[i].at_most(grab_range()),
{
    let admitted = grabbable(live, scene, distances);
    closest_is_admitted(distances, admitted);
    if let Some(i) = closest(distances, admitted) {
        assert(live.by_id.entries@[i].0@ == nearest_grabbable(live, scene, distances)->0);
    }
}

proof fn admitted_points_are_listed(
    search: GripSearch,
    hand: Hand,
    points: Seq<GripPointDef>,
    distances: Seq<Scalar>,
    j: int,
)
    ensures
        admitted_points(search, hand, points, distances).contains(j) <==> 0 <= j < points.len()
            && admits(search, hand, points[j], distances[j]),
    decreases points.len(),
{
    if points.len() > 0 {
        let front = points.drop_last();
        let before = admitted_points(search, hand, front, distances);
        let now = admitted_points(search, hand, points, distances);
        let last = points.len() - 1;
        admitted_points_are_listed(search, hand, front, distances, j);
        if before.contains(j) {
            let k = choose|k: int| 0 <= k < before.len() && before[k] == j;
            assert(now[k] == j);
        }
        if now.contains(j) {
            let k = choose|k: int| 0 <= k < now.len() && now[k] == j;
            if k < before.len() {
                assert(before[k] == j);
            }
        }
        if j == last && admits(search, hand, points[last], distances[last]) {
            assert(now[before.len() as int] == j);
        }
    }
}

proof fn admitted_grips_are_listed(
    search: GripSearch,
    hand: Hand,
    live: LiveObjects,
    grips: Seq<(String, Vec<GripPointDef>)>,
    distances: Seq<Vec<Scalar>>,
    i: int,
    j: int,
)
    ensures
        admitted_grips(search, hand, live, grips, distances).contains((i, j)) <==> 0 <= i
            < grips.len() && live.by_id.holds(grips[i].0@) && 0 <= j < grips[i].1@.len()
            && admits(search, hand, grips[i].1@[j], distances[i]@[j]),
    decreases grips.len(),
{
    if grips.len() > 0 {
        let front = grips.drop_last();
        let before = admitted_grips(search, hand, live, front, distances);
        let now = admitted_grips(search, hand, live, grips, distances);
        let last = grips.len() - 1;
        let points = admitted_points(search, hand, grips[last].1@, distances[last]@);
        let tagged = points.map_values(|q: int| (last, q));
        admitted_grips_are_listed(search, hand, live, front, distances, i, j);
        admitted_points_are_listed(search, hand, grips[last].1@, distances[last]@, j);
        if before.contains((i, j)) {
            let k = choose|k: int| 0 <= k < before.len() && before[k] == (i, j);
            assert(now[k] == (i, j));
        }
        if live.by_id.holds(grips[last].0@) {
            assert(now =~= before + tagged);
            if i == last && points.contains(j) {
                let k = choose|k: int| 0 <= k < points.len() && points[k] == j;
                assert(tagged[k] == (last, j));
                assert(now[before.len() + k] == (i, j));
            }
            if now.contains((i, j)) {
                let k = choose|k: int| 0 <= k < now.len() && now[k] == (i, j);
                if k < before.len() {
                    assert(before[k] == (i, j));
                } else {
                    assert(tagged[k - before.len()] == (i, j));
                    assert(points[k - before.len()] == j);
                }
            }
        }
    }
}

/// Whether an object is among those that are there.
pub open spec fn is_there(live: LiveObjects, id: Seq<char>) -> bool {
    exists|l: int| 0 <= l < live.by_id.entries@.len() && (#[trigger] live.by_id.entries@[l]).0@
        == id
}

/// Whether an author gave an object grip points.
pub open spec fn has_grips(scene: StaticScene, id: Seq<char>) -> bool {
    exists|i: int|
        0 <= i < scene.grip_points.entries@.len() && (
        #[trigger] scene.grip_points.entries@[i]).0@ == id
}

/// Whether a grip point of the scene is one for the hand, on an object that is
/// there.
pub open spec fn is_offered(
    live: LiveObjects,
    scene: StaticScene,
    hand: Hand,
    i: int,
    j: int,
) -> bool {
    let grips = scene.grip_points.entries@;
    &&& 0 <= i < grips.len()
    &&& 0 <= j < grips[i].1@.len()
    &&& is_there(live, grips[i].0@)
    &&& grips[i].1@[j].hand == hand
}

/// Whether a hand can take a grip point of the scene: it is offered, within its
/// own range or else within fifteen centimetres, and no pinch unless the trigger
/// is pulled.
pub open spec fn can_be_taken(
    live: LiveObjects,
    scene: StaticScene,
    distances: Seq<Vec<Scalar>>,
    trigger_only: bool,
    hand: Hand,
    i: int,
    j: int,
) -> bool {
    let point = scene.grip_points.entries@[i].1@[j];
    let d = distances[i]@[j];
    &&& is_offered(live, scene, hand, i, j)
    &&& match point.grab_range {
        Some(range) => d.at_most(range),
        None => d.at_most(Scalar { bits: 0x3e19_999a }),
    }
    &&& point.kind == GripKind::Palm || trigger_only
}

proof fn grip_choice_is_nearest(
    search: GripSearch,
    hand: Hand,
    live: LiveObjects,
    grips: Seq<(String, Vec<GripPointDef>)>,
    distances: Seq<Vec<Scalar>>,
)
    requires
        forall|i: int, j: int|
            0 <= i < grips.len() && 0 <= j < grips[i].1@.len() && live.by_id.holds(grips[i].0@)
                && admits(search, hand, grips[i].1@[j], distances[i]@[j]) ==> !(
            #[trigger] distances[i]@[j]).nan(),
    ensures
        match grip_choice(search, hand, live, grips, distances) {
            Some(p) => {
                &&& 0 <= p.0 < grips.len() && 0 <= p.1 < grips[p.0].1@.len()
                &&& live.by_id.holds(grips[p.0].0@)
                &&& admits(search, hand, grips[p.0].1@[p.1], distances[p.0]@[p.1])
                &&& forall|k: int, l: int|
                    0 <= k < grips.len() && 0 <= l < grips[k].1@.len() && live.by_id.holds(
                        grips[k].0@,
                    ) && admits(search, hand, grips[k].1@[l], distances[k]@[l])
                        ==> distances[p.0]@[p.1].at_most(#[trigger] distances[k]@[l])
            },
            None => forall|k: int, l: int|
                0 <= k < grips.len() && 0 <= l < grips[k].1@.len() && live.by_id.holds(
                    grips[k].0@,
                ) ==> !admits(search, hand, grips[k].1@[l], #[trigger] distances[k]@[l]),
        },
{
    let chosen = admitted_grips(search, hand, live, grips, distances);
    let lengths = measured(chosen, distances);
    let all = Seq::new(chosen.len(), |i: int| true);
    assert forall|n: int| 0 <= n < lengths.len() && #[trigger] all[n] implies !lengths[n].nan() by {
        let p = chosen[n];
        assert(chosen.contains(p));
        admitted_grips_are_listed(search, hand, live, grips, distances, p.0, p.1);
        assert(lengths[n] == distances[p.0]@[p.1]);
    }
    closest_is_admitted(lengths, all);
    closest_is_smallest(lengths, all);
    match closest(lengths, all) {
        Some(n) => {
            let p = chosen[n];
            assert(chosen.contains(p));
            admitted_grips_are_listed(search, hand, live, grips, distances, p.0, p.1);
            assert forall|k: int, l: int|
                0 <= k < grips.len() && 0 <= l < grips[k].1@.len() && live.by_id.holds(grips[k].0@)
                    && admits(
                    search,
                    hand,
                    grips[k].1@[l],
                    distances[k]@[l],
                ) implies distances[p.0]@[p.1].at_most(#[trigger] distances[k]@[l]) by {
                admitted_grips_are_listed(search, hand, live, grips, distances, k, l);
                let m = choose|m: int| 0 <= m < chosen.len() && chosen[m] == (k, l);
                assert(all[m]);
                assert(lengths[m] == distances[k]@[l]);
            }
        },
        None => {
            assert forall|k: int, l: int|
                0 <= k < grips.len() && 0 <= l < grips[k].1@.len() && live.by_id.holds(
                    grips[k].0@,
                ) implies !admits(search, hand, grips[k].1@[l], #[trigger] distances[k]@[l]) by {
                admitted_grips_are_listed(search, hand, live, grips, distances, k, l);
                if admits(search, hand, grips[k].1@[l], distances[k]@[l]) {
                    let m = choose|m: int| 0 <= m < chosen.len() && chosen[m] == (k, l);
                    assert(all[m]);
                }
            }
        },
    }
}

proof fn is_there_is_held(live: LiveObjects, id: Seq<char>)
    ensures
        is_there(live, id) <==> live.by_id.holds(id),
{
    position_is_first(live.by_id.entries@, id);
    if live.by_id.holds(id) {
        let l = position(live.by_id.entries@, id)->0;
        assert(live.by_id.entries@[l].0@ == id);
    }
}

/// Where any grip point can be taken, one is, and the one that is taken can be,
/// and is no farther from the hand than any other that can be, of whatever object.
pub proof fn the_nearest_grip_point_is_taken(
    live: LiveObjects,
    scene: StaticScene,
    distances: Seq<Vec<Scalar>>,
    trigger_only: bool,
    hand: Hand,
)
    requires
        one_distance_each(scene.grip_points.entries@, distances),
    ensures
        match nearest_grip(live, scene, distances, trigger_only, hand) {
            Some((id, name)) => exists|i: int, j: int|
                #![trigger scene.grip_points.entries@[i].1@[j]]
                {
                    &&& can_be_taken(live, scene, distances, trigger_only, hand, i, j)
                    &&& scene.grip_points.entries@[i].0@ == id
                    &&& scene.grip_points.entries@[i].1@[j].name@ == name
                    &&& forall|k: int, l: int| #[trigger]
                        can_be_taken(live, scene, distances, trigger_only, hand, k, l)
                            ==> distances[i]@[j].at_most(distances[k]@[l])
                },
            None => forall|k: int, l: int|
                !#[trigger] can_be_taken(live, scene, distances, trigger_only, hand, k, l),
        },
{
    let grips = scene.grip_points.entries@;
    let search = GripSearch::Reachable { trigger_only };
    grip_choice_is_nearest(search, hand, live, grips, distances);
    assert forall|k: int, l: int| #[trigger]
        can_be_taken(live, scene, distances, trigger_only, hand, k, l) <==> 0 <= k < grips.len()
            && 0 <= l < grips[k].1@.len() && live.by_id.holds(grips[k].0@) && admits(
            search,
            hand,
            grips[k].1@[l],
            distances[k]@[l],
        ) by {
        if 0 <= k < grips.len() {
            is_there_is_held(live, grips[k].0@);
        }
    }
    if let Some(p) = grip_choice(search, hand, live, grips, distances) {
        assert(can_be_taken(live, scene, distances, trigger_only, hand, p.0, p.1));
        let _ = scene.grip_points.entries@[p.0].1@[p.1];
    }
}

/// Where an object is within fifteen centimetres of a hand, the nearest object is
/// one, and no other is nearer. The nearest that a bare grab may take is one that
/// has no grip points, and no other of those is nearer.
pub proof fn the_nearest_object_is_found(
    live: LiveObjects,
    scene: StaticScene,
    distances: Seq<Scalar>,
)
    requires
        distances.len() == live.by_id.entries@.len(),
    ensures
        match nearest_object(live, distances) {
            Some(id) => exists|i: int|
                {
                    &&& 0 <= i < distances.len()
                    &&& (#[trigger] live.by_id.entries@[i]).0@ == id
                    &&& distances[i].at_most(Scalar { bits: 0x3e19_999a })
                    &&& forall|k: int|
                        0 <= k < distances.len() && !distances[k].nan() ==> distances[i].at_most(
                            #[trigger] distances[k],
                        )
                },
            None => forall|k: int|
                0 <= k < distances.len() ==> !(#[trigger] distances[k]).at_most(
                    Scalar { bits: 0x3e19_999a },
                ),
        },
        match nearest_grabbable(live, scene, distances) {
            Some(id) => exists|i: int|
                {
                    &&& 0 <= i < distances.len()
                    &&& (#[trigger] live.by_id.entries@[i]).0@ == id
                    &&& distances[i].at_most(Scalar { bits: 0x3e19_999a })
                    &&& !has_grips(scene, id)
                    &&& forall|k: int|
                        0 <= k < distances.len() && !(#[trigger] distances[k]).nan() && !has_grips(
                            scene,
                            live.by_id.entries@[k].0@,
                        ) ==> distances[i].at_most(distances[k])
                },
            None => forall|k: int|
                0 <= k < distances.len() && (#[trigger] distances[k]).at_most(
                    Scalar { bits: 0x3e19_999a },
                ) ==> has_grips(scene, live.by_id.entries@[k].0@),
        },
{
    let range = Scalar { bits: 0x3e19_999a };
    let near = within_reach(distances);
    closest_is_admitted(distances, near);
    closest_is_smallest(distances, near);
    match closest(distances, near) {
        Some(i) => {
            assert(live.by_id.entries@[i].0@ == nearest_object(live, distances)->0);
            assert forall|k: int|
                0 <= k < distances.len() && !distances[k].nan() implies distances[i].at_most(
                #[trigger] distances[k],
            ) by {
                if near[k] {
                } else {
                    assert(near[i]);
                }
            }
        },
        None => {
            assert forall|k: int| 0 <= k < distances.len() implies !(
            #[trigger] distances[k]).at_most(range) by {
                assert(!near[k]);
            }
        },
    }
    let free = grabbable(live, scene, distances);
    closest_is_admitted(distances, free);
    closest_is_smallest(distances, free);
    assert forall|k: int| 0 <= k < distances.len() implies (#[trigger] free[k]
        <==> distances[k].at_most(range) && !has_grips(scene, live.by_id.entries@[k].0@)) by {
        let id = live.by_id.entries@[k].0@;
        position_is_first(scene.grip_points.entries@, id);
        if scene.grip_points.holds(id) {
            let l = position(scene.grip_points.entries@, id)->0;
            assert(scene.grip_points.entries@[l].0@ == id);
        }
    }
    match closest(distances, free) {
        Some(i) => {
            assert(live.by_id.entries@[i].0@ == nearest_grabbable(live, scene, distances)->0);
            assert(free[i]);
            assert forall|k: int|
                0 <= k < distances.len() && !(#[trigger] distances[k]).nan() && !has_grips(
                    scene,
                    live.by_id.entries@[k].0@,
                ) implies distances[i].at_most(distances[k]) by {
                let _ = free[k];
            }
        },
        None => {
            assert forall|k: int|
                0 <= k < distances.len() && (#[trigger] distances[k]).at_most(
                    range,
                ) implies has_grips(scene, live.by_id.entries@[k].0@) by {
                assert(!free[k]);
            }
        },
    }
}

/// Whether an object is within fifteen centimetres, and no other that is is nearer.
pub open spec fn is_nearest_in_reach(
    live: LiveObjects,
    distances: Seq<Scalar>,
    id: Seq<char>,
) -> bool {
    exists|i: int|
        {
            &&& 0 <= i < distances.len()
            &&& (#[trigger] live.by_id.entries@[i]).0@ == id
            &&& distances[i].at_most(Scalar { bits: 0x3e19_999a })
            &&& forall|k: int|
                0 <= k < distances.len() && (#[trigger] distances[k]).at_most(
                    Scalar { bits: 0x3e19_999a },
                ) ==> distances[i].at_most(distances[k])
        }
}

/// A hand that the server says holds something holds that. One of which the
/// server says nothing holds what it grabbed and has not let go. Only one that
/// grabbed nothing is taken to hold what is near.
pub proof fn what_is_held_is_asked_in_turn(
    held: Option<WireHeldGrip>,
    grabbed: Option<Seq<char>>,
    live: LiveObjects,
    distances: Seq<Scalar>,
)
    ensures
        held matches Some(h) ==> holding(held, grabbed, live, distances) == Some(h.object_id@),
        held is None && grabbed is Some ==> holding(held, grabbed, live, distances) == grabbed,
        held is None && grabbed is None && distances.len() == live.by_id.entries@.len() ==> match
        holding(
            held,
            grabbed,
            live,
            distances,
        ) {
            Some(id) => is_nearest_in_reach(live, distances, id),
            None => forall|k: int|
                0 <= k < distances.len() ==> !(#[trigger] distances[k]).at_most(
                    Scalar { bits: 0x3e19_999a },
                ),
        },
{
    if held is None && grabbed is None && distances.len() == live.by_id.entries@.len() {
        let near = within_reach(distances);
        closest_is_admitted(distances, near);
        closest_is_smallest(distances, near);
        match closest(distances, near) {
            Some(i) => {
                assert(live.by_id.entries@[i].0@ == nearest_object(live, distances)->0);
                assert forall|k: int|
                    0 <= k < distances.len() && (#[trigger] distances[k]).at_most(
                        Scalar { bits: 0x3e19_999a },
                    ) implies distances[i].at_most(distances[k]) by {
                    assert(near[k]);
                }
            },
            None => {
                assert forall|k: int| 0 <= k < distances.len() implies !(
                #[trigger] distances[k]).at_most(Scalar { bits: 0x3e19_999a }) by {
                    assert(!near[k]);
                }
            },
        }
    }
}

/// The box of an object is the one that the last bounds of its id give it, and an
/// object that no bounds name has none.
pub proof fn the_last_bounds_count(bounds: Seq<WireObjectBounds>, id: Seq<char>)
    ensures
        match bounds_of(bounds, id) {
            Some(c) => exists|i: int|
                {
                    &&& 0 <= i < bounds.len()
                    &&& (#[trigger] bounds[i]).id@ == id
                    &&& c.position == bounds[i].position
                    &&& c.rotation == bounds[i].rotation
                    &&& c.half_size == bounds[i].half_size
                    &&& forall|k: int| i < k < bounds.len() ==> (#[trigger] bounds[k]).id@ != id
                },
            None => forall|k: int| 0 <= k < bounds.len() ==> (#[trigger] bounds[k]).id@ != id,
        },
    decreases bounds.len(),
{
    if bounds.len() > 0 {
        let front = bounds.drop_last();
        let last = bounds.len() - 1;
        if bounds[last].id@ != id {
            the_last_bounds_count(front, id);
            match bounds_of(front, id) {
                Some(c) => {
                    let i = choose|i: int|
                        {
                            &&& 0 <= i < front.len()
                            &&& (#[trigger] front[i]).id@ == id
                            &&& c.position == front[i].position
                            &&& c.rotation == front[i].rotation
                            &&& c.half_size == front[i].half_size
                            &&& forall|k: int|
                                i < k < front.len() ==> (#[trigger] front[k]).id@ != id
                        };
                    assert(bounds[i].id@ == id);
                    assert forall|k: int| i < k < bounds.len() implies (
                    #[trigger] bounds[k]).id@ != id by {
                        if k < last {
                            assert(front[k].id@ != id);
                        }
                    }
                },
                None => {
                    assert forall|k: int| 0 <= k < bounds.len() implies (
                    #[trigger] bounds[k]).id@ != id by {
                        if k < last {
                            assert(front[k].id@ != id);
                        }
                    }
                },
            }
        }
    }
}

/// An object's grip points and part animations are those of the last object of
/// its id that has any.
pub proof fn the_last_object_with_any_counts(objects: Seq<GameObject>, id: Seq<char>)
    ensures
        match grips_of(objects, id) {
            Some(points) => exists|i: int|
                {
                    &&& 0 <= i < objects.len()
                    &&& (#[trigger] objects[i]).id@ == id
                    &&& points == objects[i].grip_points
                    &&& points@.len() > 0
                    &&& forall|k: int|
                        i < k < objects.len() && (#[trigger] objects[k]).id@ == id
                            ==> objects[k].grip_points@.len() == 0
                },
            None => forall|k: int|
                0 <= k < objects.len() && (#[trigger] objects[k]).id@ == id
                    ==> objects[k].grip_points@.len() == 0,
        },
        match parts_of(objects, id) {
            Some(parts) => exists|i: int|
                {
                    &&& 0 <= i < objects.len()
                    &&& (#[trigger] objects[i]).id@ == id
                    &&& parts == objects[i].part_animations
                    &&& parts@.len() > 0
                    &&& forall|k: int|
                        i < k < objects.len() && (#[trigger] objects[k]).id@ == id
                            ==> objects[k].part_animations@.len() == 0
                },
            None => forall|k: int|
                0 <= k < objects.len() && (#[trigger] objects[k]).id@ == id
                    ==> objects[k].part_animations@.len() == 0,
        },
    decreases objects.len(),
{
    if objects.len() > 0 {
        let front = objects.drop_last();
        let last = objects.len() - 1;
        the_last_object_with_any_counts(front, id);
        assert(forall|k: int| 0 <= k < last ==> front[k] == #[trigger] objects[k]);
        if grips_of(objects, id) is Some {
            if objects[last].id@ == id && objects[last].grip_points@.len() > 0 {
                assert(objects[last].id@ == id);
            } else {
                let points = grips_of(front, id)->0;
                let i = choose|i: int|
                    {
                        &&& 0 <= i < front.len()
                        &&& (#[trigger] front[i]).id@ == id
                        &&& points == front[i].grip_points
                        &&& points@.len() > 0
                        &&& forall|k: int|
                            i < k < front.len() && (#[trigger] front[k]).id@ == id
                                ==> front[k].grip_points@.len() == 0
                    };
                assert(objects[i].id@ == id);
            }
        }
        if parts_of(objects, id) is Some {
            if objects[last].id@ == id && objects[last].part_animations@.len() > 0 {
                assert(objects[last].id@ == id);
            } else {
                let parts = parts_of(front, id)->0;
                let i = choose|i: int|
                    {
                        &&& 0 <= i < front.len()
                        &&& (#[trigger] front[i]).id@ == id
                        &&& parts == front[i].part_animations
                        &&& parts@.len() > 0
                        &&& forall|k: int|
                            i < k < front.len() && (#[trigger] front[k]).id@ == id
                                ==> front[k].part_animations@.len() == 0
                    };
                assert(objects[i].id@ == id);
            }
        }
    }
}

/// A grip point that rides a part is where that part of its object was last
/// published to be, and one that rides none, or a part of which nothing was
/// published, has no such place.
pub proof fn a_grip_rides_its_own_part(
    gp: GripPointDef,
    object_id: Seq<char>,
    part_transforms: Table<Table<Transform>>,
)
    ensures
        gp.part is None ==> pose_of_part(gp, object_id, part_transforms) is None,
        part_transforms.lookup(object_id) is None ==> pose_of_part(gp, object_id, part_transforms)
            is None,
        gp.part matches Some(name) ==> (part_transforms.lookup(object_id) matches Some(parts)
            ==> pose_of_part(gp, object_id, part_transforms) == parts.lookup(name@)),
{
}

/// A diagnosis names the object nearest to the hand, where anything is there, and
/// of the grip points for that hand on what is there the nearest, with its distance
/// and its own range, or fifteen centimetres where it has none, however far they
/// are. The distances are numbers.
pub proof fn a_diagnosis_names_what_is_nearest(
    r: GrabDiag,
    live: LiveObjects,
    scene: StaticScene,
    object_distances: Seq<Scalar>,
    distances: Seq<Vec<Scalar>>,
    hand: Hand,
)
    requires
        is_around(r, live, scene, object_distances, distances, hand),
        object_distances.len() == live.by_id.entries@.len(),
        one_distance_each(scene.grip_points.entries@, distances),
        forall|i: int| 0 <= i < object_distances.len() ==> !(#[trigger] object_distances[i]).nan(),
        forall|i: int, j: int|
            0 <= i < distances.len() && 0 <= j < distances[i]@.len() ==> !(
            #[trigger] distances[i]@[j]).nan(),
    ensures
        r.live_count == live.by_id.entries@.len(),
        match r.nearest_obj {
            Some(o) => exists|i: int|
                {
                    &&& 0 <= i < object_distances.len()
                    &&& live.by_id.entries@[i].0@ == o.0@
                    &&& #[trigger] object_distances[i] == o.1
                    &&& forall|k: int|
                        0 <= k < object_distances.len() ==> o.1.at_most(
                            #[trigger] object_distances[k],
                        )
                },
            None => live.by_id.entries@.len() == 0,
        },
        ({
            let grips = scene.grip_points.entries@;
            match r.nearest_grip {
                Some(g) => {
                    &&& exists|i: int, j: int|
                        #![trigger grips[i].1@[j]]
                        {
                            &&& 0 <= i < grips.len() && 0 <= j < grips[i].1@.len()
                            &&& is_there(live, grips[i].0@) && grips[i].1@[j].hand == hand
                            &&& g.0@ == grips[i].0@ && g.1@ == grips[i].1@[j].name@
                            &&& g.2 == distances[i]@[j]
                            &&& g.3 == match grips[i].1@[j].grab_range {
                                Some(range) => range,
                                None => Scalar { bits: 0x3e19_999a },
                            }
                        }
                    &&& forall|k: int, l: int|
                        0 <= k < grips.len() && 0 <= l < grips[k].1@.len() && is_there(
                            live,
                            grips[k].0@,
                        ) && (#[trigger] grips[k].1@[l]).hand == hand ==> g.2.at_most(
                            distances[k]@[l],
                        )
                },
                None => forall|k: int, l: int|
                    0 <= k < grips.len() && 0 <= l < grips[k].1@.len() && is_there(
                        live,
                        grips[k].0@,
                    ) ==> (#[trigger] grips[k].1@[l]).hand != hand,
            }
        }),
{
    let grips = scene.grip_points.entries@;
    let all = Seq::new(object_distances.len(), |i: int| true);
    assert forall|n: int| 0 <= n < object_distances.len() && #[trigger] all[n] implies
        !object_distances[n].nan() by {}
    closest_is_admitted(object_distances, all);
    closest_is_smallest(object_distances, all);
    if object_distances.len() > 0 {
        assert(all[0]);
    }
    if let Some(i) = closest(object_distances, all) {
        assert forall|k: int| 0 <= k < object_distances.len() implies object_distances[i].at_most(
            #[trigger] object_distances[k],
        ) by {
            assert(all[k]);
        }
    }
    grip_choice_is_nearest(GripSearch::Any, hand, live, grips, distances);
    assert forall|k: int, l: int|
        0 <= k < grips.len() && 0 <= l < grips[k].1@.len() && is_there(live, grips[k].0@) && (
        #[trigger] grips[k].1@[l]).hand == hand implies live.by_id.holds(grips[k].0@) && admits(
        GripSearch::Any,
        hand,
        grips[k].1@[l],
        distances[k]@[l],
    ) by {
        is_there_is_held(live, grips[k].0@);
    }
    if let Some(p) = grip_choice(GripSearch::Any, hand, live, grips, distances) {
        is_there_is_held(live, grips[p.0].0@);
        let _ = grips[p.0].1@[p.1];
    }
}

/// The words on what is near begin with its name, and those on a grip point end with
/// whether the hand is in its range. Where nothing is near they say so.
pub proof fn the_words_name_what_is_near(d: GrabDiag, n: DiagNumbers)
    ensures
        ({
            let before = "nearest_obj='"@;
            let words = d.object_words(n);
            match d.nearest_obj {
                Some(o) => {
                    &&& (before + o.0@).is_prefix_of(words)
                    &&& exists|i: int|
                        0 <= i && words.subrange(i, i + n.object_distance@.len())
                            == n.object_distance@ && #[trigger] words.skip(
                            i + n.object_distance@.len(),
                        ) == "m (grab<=0.15)"@
                },
                None => words == "nearest_obj=none"@,
            }
        }),
        ({
            let before = "nearest_grip='"@;
            let words = d.grip_words(n);
            match d.nearest_grip {
                Some(g) => {
                    let verdict = if g.2.at_most(g.3) {
                        "IN-RANGE"@
                    } else {
                        "too-far"@
                    };
                    &&& (before + g.0@ + "'."@ + g.1@).is_prefix_of(words)
                    &&& words.skip(words.len() - verdict.len()) == verdict
                },
                None => words == "nearest_grip=none-for-hand"@,
            }
        }),
{
    let words = d.object_words(n);
    if let Some(o) = d.nearest_obj {
        let before = "nearest_obj='"@;
        let i = (before + o.0@ + "' surf_d="@).len() as int;
        assert((before + o.0@).is_prefix_of(words));
        assert(words.subrange(i, i + n.object_distance@.len()) =~= n.object_distance@);
        assert(words.skip(i + n.object_distance@.len()) =~= "m (grab<=0.15)"@);
    }
    let told = d.grip_words(n);
    if let Some(g) = d.nearest_grip {
        let verdict = if g.2.at_most(g.3) {
            "IN-RANGE"@
        } else {
            "too-far"@
        };
        assert(("nearest_grip='"@ + g.0@ + "'."@ + g.1@).is_prefix_of(told));
        assert(told.skip(told.len() - verdict.len()) =~= verdict);
    }
}

} // verus!
