//! What a frame of input comes to, hand by hand.
//!
//! The laws here speak of the controllers, of the world and of what was measured,
//! and of what the player is then said to have done.

use vstd::prelude::*;

use crate::engine::{
    text_of, ButtonPress, ControllerState, Hand, InputFrame, PartAnimationDef, PartDriver, PerHand,
};
use crate::grab_detect::{
    can_be_taken, has_grips, holding, is_nearest_in_reach, the_nearest_grip_point_is_taken,
    the_nearest_object_is_found, what_is_held_is_asked_in_turn, LiveObjects, StaticScene,
};
use crate::part_pull::{
    blend_sources, buttons, down_edges, driven_blend, eased_from, edge_of, first_pullable,
    grab_list, grabbed_after, grabs, grabs_go_on, in_hand, is_what_was_done, last_source, let_go,
    manual_of, presses, pull_of, pullable, pulls_go_on, reach_fits, release_list, releases,
    session_after, started, taken, up_edges, Along, BlendSource, Button, HandReach, PrevInput,
    PullReach, PullSession,
};
use crate::protocol::{mesh_position, WireHeldGrip, WireRenderMesh, WireWorld};
use crate::scalar::Scalar;
use crate::table::Table;

verus! {

/// Whether a number is above one half.
pub open spec fn over_half(x: Scalar) -> bool {
    (Scalar { bits: 0x3f00_0000 }).below(x)
}

/// Whether a hand pulls its trigger or squeezes, by more than half.
pub open spec fn grips_hard(cs: ControllerState, hand: Hand) -> bool {
    match hand {
        Hand::Left => over_half(cs.l_trigger) || over_half(cs.l_squeeze),
        Hand::Right => over_half(cs.r_trigger) || over_half(cs.r_squeeze),
    }
}

/// Whether a hand pulls its trigger by more than half.
pub open spec fn pulls_trigger(cs: ControllerState, hand: Hand) -> bool {
    match hand {
        Hand::Left => over_half(cs.l_trigger),
        Hand::Right => over_half(cs.r_trigger),
    }
}

/// What the server says that a hand holds.
pub open spec fn said_to_hold(world: Option<WireWorld>, hand: Hand) -> Option<WireHeldGrip> {
    match (world, hand) {
        (Some(w), Hand::Left) => w.left_hand_held,
        (Some(w), Hand::Right) => w.right_hand_held,
        (None, _) => None,
    }
}

/// What the server says that the other hand holds.
pub open spec fn said_across(world: Option<WireWorld>, hand: Hand) -> Option<WireHeldGrip> {
    match (world, hand) {
        (Some(w), Hand::Left) => w.right_hand_held,
        (Some(w), Hand::Right) => w.left_hand_held,
        (None, _) => None,
    }
}

/// What was measured around a hand.
pub open spec fn around(reach: PerHand<HandReach>, hand: Hand) -> HandReach {
    match hand {
        Hand::Left => reach.left,
        Hand::Right => reach.right,
    }
}

/// What belongs to a hand.
pub open spec fn ones<T>(each: PerHand<Option<T>>, hand: Hand) -> Option<T> {
    match hand {
        Hand::Left => each.left,
        Hand::Right => each.right,
    }
}

/// Whether a hand that closes would begin to pull a part of what the other hand
/// holds: the part is pulled by hand, and its handle no farther than nine
/// centimetres.
pub open spec fn can_be_pulled(
    world: Option<WireWorld>,
    scene: StaticScene,
    near: HandReach,
    hand: Hand,
    i: int,
) -> bool {
    match (said_across(world, hand), near.pulls) {
        (Some(h), Some(pulls)) => match scene.part_animations.lookup(h.object_id@) {
            Some(parts) => {
                &&& 0 <= i < parts@.len()
                &&& parts@[i].driver == PartDriver::HandPull
                &&& match pulls@[i] {
                    Some(p) => p.distance.at_most(Scalar { bits: 0x3db8_51ec }),
                    None => false,
                }
            },
            None => false,
        },
        _ => false,
    }
}

proof fn first_pullable_is_first(parts: Seq<PartAnimationDef>, reach: Seq<Option<PullReach>>)
    ensures
        match first_pullable(parts, reach) {
            Some(i) => 0 <= i < parts.len() && pullable(parts[i], reach[i]) && forall|k: int|
                0 <= k < i ==> !pullable(#[trigger] parts[k], reach[k]),
            None => forall|k: int|
                0 <= k < parts.len() ==> !pullable(#[trigger] parts[k], reach[k]),
        },
    decreases parts.len(),
{
    if parts.len() > 0 {
        let front = parts.drop_last();
        first_pullable_is_first(front, reach);
        assert(forall|k: int| 0 <= k < front.len() ==> front[k] == #[trigger] parts[k]);
    }
}

proof fn pulls_start_as_they_can(
    cs: ControllerState,
    last: ControllerState,
    world: Option<WireWorld>,
    scene: StaticScene,
    near: HandReach,
    hand: Hand,
)
    ensures
        match started(cs, PrevInput::now(last), world, scene, near, hand) {
            Some((p, i)) => {
                &&& grips_hard(cs, hand) && !grips_hard(last, hand)
                &&& can_be_pulled(world, scene, near, hand, i)
                &&& forall|k: int| 0 <= k < i ==> !can_be_pulled(world, scene, near, hand, k)
                &&& p.object_id == said_across(world, hand)->0.object_id@
                &&& p.clip == scene.part_animations.lookup(p.object_id)->0@[i].clip@
                &&& p.grab_local == near.local
                &&& p.axis_model == near.pulls->0@[i]->0.axis_model
                &&& p.travel == near.pulls->0@[i]->0.travel
                &&& p.b0.bits == 0
            },
            None => grips_hard(cs, hand) && !grips_hard(last, hand) ==> forall|i: int|
                !#[trigger] can_be_pulled(world, scene, near, hand, i),
        },
{
    match (said_across(world, hand), near.pulls) {
        (Some(h), Some(pulls)) => match scene.part_animations.lookup(h.object_id@) {
            Some(parts) => {
                first_pullable_is_first(parts@, pulls@);
                assert(forall|i: int| #[trigger]
                    can_be_pulled(world, scene, near, hand, i) ==> pullable(parts@[i], pulls@[i]));
            },
            None => {},
        },
        _ => {},
    }
}

/// Whether a hand finds something to take: a grip point that it can take, or an
/// object without grip points within fifteen centimetres.
pub open spec fn finds_something(
    cs: ControllerState,
    scene: StaticScene,
    live: LiveObjects,
    near: HandReach,
    hand: Hand,
) -> bool {
    ||| exists|i: int, j: int| #[trigger]
        can_be_taken(live, scene, near.grips@, pulls_trigger(cs, hand), hand, i, j)
    ||| exists|k: int|
        0 <= k < near.objects@.len() && (#[trigger] near.objects@[k]).at_most(
            Scalar { bits: 0x3e19_999a },
        ) && !has_grips(scene, live.by_id.entries@[k].0@)
}

/// Whether a hand takes rightly: by a grip point that it can take and that is no
/// farther than any other such point, or, where there is no such point, an object
/// without grip points that is within reach and no farther than any other.
pub open spec fn takes_rightly(
    cs: ControllerState,
    scene: StaticScene,
    live: LiveObjects,
    near: HandReach,
    hand: Hand,
    id: Seq<char>,
    point: Seq<char>,
) -> bool {
    let down = pulls_trigger(cs, hand);
    ||| exists|i: int, j: int|
        #![trigger scene.grip_points.entries@[i].1@[j]]
        {
            &&& can_be_taken(live, scene, near.grips@, down, hand, i, j)
            &&& scene.grip_points.entries@[i].0@ == id
            &&& scene.grip_points.entries@[i].1@[j].name@ == point
            &&& forall|k: int, l: int| #[trigger]
                can_be_taken(live, scene, near.grips@, down, hand, k, l)
                    ==> near.grips@[i]@[j].at_most(near.grips@[k]@[l])
        }
    ||| {
        &&& forall|k: int, l: int|
            !#[trigger] can_be_taken(live, scene, near.grips@, down, hand, k, l)
        &&& point.len() == 0
        &&& exists|i: int|
            {
                &&& 0 <= i < near.objects@.len()
                &&& (#[trigger] live.by_id.entries@[i]).0@ == id
                &&& near.objects@[i].at_most(Scalar { bits: 0x3e19_999a })
                &&& !has_grips(scene, id)
                &&& forall|k: int|
                    0 <= k < near.objects@.len() && !(#[trigger] near.objects@[k]).nan()
                        && !has_grips(scene, live.by_id.entries@[k].0@)
                        ==> near.objects@[i].at_most(near.objects@[k])
            }
    }
}

proof fn hands_take_as_they_can(
    cs: ControllerState,
    last: ControllerState,
    world: Option<WireWorld>,
    scene: StaticScene,
    live: LiveObjects,
    near: HandReach,
    hand: Hand,
)
    requires
        reach_fits(world, scene, live, near, hand),
    ensures
        match taken(cs, PrevInput::now(last), world, scene, live, near, hand) {
            Some((id, point)) => {
                &&& grips_hard(cs, hand) && !grips_hard(last, hand)
                &&& forall|i: int| !#[trigger] can_be_pulled(world, scene, near, hand, i)
                &&& takes_rightly(cs, scene, live, near, hand, id, point)
            },
            None => !(grips_hard(cs, hand) && !grips_hard(last, hand)) || (exists|i: int|
                #[trigger] can_be_pulled(world, scene, near, hand, i)) || !finds_something(
                cs,
                scene,
                live,
                near,
                hand,
            ),
        },
{
    pulls_start_as_they_can(cs, last, world, scene, near, hand);
    the_nearest_grip_point_is_taken(live, scene, near.grips@, pulls_trigger(cs, hand), hand);
    the_nearest_object_is_found(live, scene, near.objects@);
    if let Some((p, i)) = started(cs, PrevInput::now(last), world, scene, near, hand) {
        assert(can_be_pulled(world, scene, near, hand, i));
    }
}

/// A hand that closes, by its trigger or by its grip, takes something wherever it
/// starts no pull and finds something to take. What it takes is named with the
/// hand, and is rightly taken. A hand that does not close takes nothing. This
/// holds of either hand alike.
pub proof fn a_closing_hand_takes_what_it_finds<F: Fn(u32, Scalar) -> Scalar>(
    input: InputFrame,
    cs: ControllerState,
    last: ControllerState,
    world: Option<WireWorld>,
    meshes: Seq<WireRenderMesh>,
    scene: StaticScene,
    live: LiveObjects,
    reach: PerHand<HandReach>,
    ease: F,
    before: PerHand<Option<PullSession>>,
    after: PerHand<Option<PullSession>>,
    grabbed: PerHand<Option<String>>,
    hand: Hand,
)
    requires
        is_what_was_done(
            input,
            cs,
            PrevInput::now(last),
            world,
            meshes,
            scene,
            live,
            reach,
            ease,
            before,
            after,
            grabbed,
        ),
        reach_fits(world, scene, live, reach.left, Hand::Left),
        reach_fits(world, scene, live, reach.right, Hand::Right),
    ensures
        ({
            let near = around(reach, hand);
            let closes = grips_hard(cs, hand) && !grips_hard(last, hand);
            &&& closes && (forall|i: int| !#[trigger] can_be_pulled(world, scene, near, hand, i))
                && finds_something(cs, scene, live, near, hand) ==> exists|g: int|
                0 <= g < input.grabbed@.len() && (#[trigger] input.grabbed@[g]).1 == hand
            &&& forall|g: int|
                0 <= g < input.grabbed@.len() && (#[trigger] input.grabbed@[g]).1 == hand ==> {
                    &&& closes
                    &&& forall|i: int| !#[trigger] can_be_pulled(world, scene, near, hand, i)
                    &&& takes_rightly(
                        cs,
                        scene,
                        live,
                        near,
                        hand,
                        input.grabbed@[g].0@,
                        input.grabbed@[g].2@,
                    )
                }
            &&& forall|g: int, k: int|
                0 <= g < k < input.grabbed@.len() ==> (#[trigger] input.grabbed@[g]).1 != (
                #[trigger] input.grabbed@[k]).1
        }),
{
    let prev = PrevInput::now(last);
    hands_take_as_they_can(cs, last, world, scene, live, reach.left, Hand::Left);
    hands_take_as_they_can(cs, last, world, scene, live, reach.right, Hand::Right);
    let right = grab_list(
        taken(cs, prev, world, scene, live, reach.right, Hand::Right),
        Hand::Right,
    );
    let left = grab_list(
        taken(cs, prev, world, scene, live, reach.left, Hand::Left),
        Hand::Left,
    );
    let all = grabs(input.grabbed@);
    assert(all.len() == input.grabbed@.len());
    assert forall|g: int| 0 <= g < input.grabbed@.len() implies (#[trigger] input.grabbed@[g]).1
        == all[g].1 && input.grabbed@[g].0@ == all[g].0 && input.grabbed@[g].2@ == all[g].2 by {}
    if hand is Right && right.len() > 0 {
        assert(input.grabbed@[0].1 == Hand::Right);
    }
    if hand is Left && left.len() > 0 {
        assert(all[right.len() as int] == left[0]);
        assert(input.grabbed@[right.len() as int].1 == Hand::Left);
    }
}

/// A hand that opens lets go of what is nearest to it within fifteen centimetres,
/// unless it was pulling a part. A hand that does not open lets nothing go.
pub proof fn an_opening_hand_lets_go_of_what_is_near<F: Fn(u32, Scalar) -> Scalar>(
    input: InputFrame,
    cs: ControllerState,
    last: ControllerState,
    world: Option<WireWorld>,
    meshes: Seq<WireRenderMesh>,
    scene: StaticScene,
    live: LiveObjects,
    reach: PerHand<HandReach>,
    ease: F,
    before: PerHand<Option<PullSession>>,
    after: PerHand<Option<PullSession>>,
    grabbed: PerHand<Option<String>>,
    hand: Hand,
)
    requires
        is_what_was_done(
            input,
            cs,
            PrevInput::now(last),
            world,
            meshes,
            scene,
            live,
            reach,
            ease,
            before,
            after,
            grabbed,
        ),
        reach_fits(world, scene, live, reach.left, Hand::Left),
        reach_fits(world, scene, live, reach.right, Hand::Right),
    ensures
        ({
            let near = around(reach, hand).objects@;
            let opens = !grips_hard(cs, hand) && grips_hard(last, hand);
            &&& opens && ones(before, hand) is None && (exists|k: int|
                0 <= k < near.len() && (#[trigger] near[k]).at_most(Scalar { bits: 0x3e19_999a }))
                ==> exists|g: int|
                0 <= g < input.released@.len() && (#[trigger] input.released@[g]).1 == hand
            &&& forall|g: int|
                0 <= g < input.released@.len() && (#[trigger] input.released@[g]).1 == hand ==> {
                    &&& opens
                    &&& ones(before, hand) is None
                    &&& exists|i: int|
                        {
                            &&& 0 <= i < near.len()
                            &&& (#[trigger] live.by_id.entries@[i]).0@ == input.released@[g].0@
                            &&& near[i].at_most(Scalar { bits: 0x3e19_999a })
                            &&& forall|k: int|
                                0 <= k < near.len() && !near[k].nan() ==> near[i].at_most(
                                    #[trigger] near[k],
                                )
                        }
                }
            &&& forall|g: int, k: int|
                0 <= g < k < input.released@.len() ==> (#[trigger] input.released@[g]).1 != (
                #[trigger] input.released@[k]).1
        }),
{
    let prev = PrevInput::now(last);
    the_nearest_object_is_found(live, scene, reach.left.objects@);
    the_nearest_object_is_found(live, scene, reach.right.objects@);
    let right = release_list(
        let_go(cs, prev, live, reach.right, before.right, Hand::Right),
        Hand::Right,
    );
    let left = release_list(
        let_go(cs, prev, live, reach.left, before.left, Hand::Left),
        Hand::Left,
    );
    let all = releases(input.released@);
    assert(all.len() == input.released@.len());
    assert forall|g: int| 0 <= g < input.released@.len() implies (#[trigger] input.released@[g]).1
        == all[g].1 && input.released@[g].0@ == all[g].0 by {}
    if hand is Right && right.len() > 0 {
        assert(input.released@[0].1 == Hand::Right);
    }
    if hand is Left && left.len() > 0 {
        assert(all[right.len() as int] == left[0]);
        assert(input.released@[right.len() as int].1 == Hand::Left);
    }
}

/// Which hand the server says holds an object: the left, where both do.
pub open spec fn said_holder(world: Option<WireWorld>, id: Seq<char>) -> Option<Hand> {
    match (said_to_hold(world, Hand::Left), said_to_hold(world, Hand::Right)) {
        (Some(l), Some(r)) => if l.object_id@ == id {
            Some(Hand::Left)
        } else if r.object_id@ == id {
            Some(Hand::Right)
        } else {
            None
        },
        (Some(l), None) => if l.object_id@ == id {
            Some(Hand::Left)
        } else {
            None
        },
        (None, Some(r)) => if r.object_id@ == id {
            Some(Hand::Right)
        } else {
            None
        },
        (None, None) => None,
    }
}

/// A measure taken in what a hand holds.
pub open spec fn taken_in(a: Along, hand: Hand) -> Scalar {
    match hand {
        Hand::Left => a.left,
        Hand::Right => a.right,
    }
}

/// A pull begins where a hand closes on the handle of a part of what the other
/// hand holds: on the first such part, from where the hand is. It goes on, the
/// same pull, while the hand stays closed and a hand holds the object, and else
/// ends. Wherever it stands, it stands where it is measured in the object as its
/// holder holds it, between the ends of its travel. This holds of either hand
/// alike.
pub proof fn pulls_begin_go_on_and_end(
    after: PerHand<Option<PullSession>>,
    before: PerHand<Option<PullSession>>,
    cs: ControllerState,
    last: ControllerState,
    world: Option<WireWorld>,
    scene: StaticScene,
    reach: PerHand<HandReach>,
    hand: Hand,
)
    requires
        pulls_go_on(after, before, cs, PrevInput::now(last), world, scene, reach),
    ensures
        ({
            let near = around(reach, hand);
            let closes = grips_hard(cs, hand) && !grips_hard(last, hand);
            let begins = closes && exists|i: int| #[trigger]
                can_be_pulled(world, scene, near, hand, i);
            &&& !grips_hard(cs, hand) ==> ones(after, hand) is None
            &&& begins ==> (ones(after, hand) matches Some(s) && exists|i: int|
                #![trigger near.pulls->0@[i]]
                {
                    let reached = near.pulls->0@[i]->0;
                    &&& can_be_pulled(world, scene, near, hand, i)
                    &&& forall|k: int| 0 <= k < i ==> !can_be_pulled(world, scene, near, hand, k)
                    &&& s.object_id@ == said_across(world, hand)->0.object_id@
                    &&& s.clip@ == scene.part_animations.lookup(s.object_id@)->0@[i].clip@
                    &&& s.grab_local == near.local
                    &&& s.axis_model == reached.axis_model
                    &&& s.travel == reached.travel
                    &&& s.b0.bits == 0
                    &&& said_holder(world, s.object_id@) matches Some(by) && s.blend == taken_in(
                        reached.pulled,
                        by,
                    ).in_unit()
                })
            &&& !begins ==> match ones(before, hand) {
                Some(was) => if grips_hard(cs, hand) && said_holder(world, was.object_id@) is Some {
                    &&& ones(after, hand) matches Some(s)
                    &&& s.object_id@ == was.object_id@
                    &&& s.clip@ == was.clip@
                    &&& s.grab_local == was.grab_local
                    &&& s.axis_model == was.axis_model
                    &&& s.travel == was.travel
                    &&& s.b0 == was.b0
                    &&& s.blend == taken_in(
                        near.pulled,
                        said_holder(world, was.object_id@)->0,
                    ).in_unit()
                } else {
                    ones(after, hand) is None
                },
                None => ones(after, hand) is None,
            }
        }),
{
    let near = around(reach, hand);
    pulls_start_as_they_can(cs, last, world, scene, near, hand);
    assert(pull_of(after.of(hand)) == session_after(
        cs,
        PrevInput::now(last),
        world,
        scene,
        reach.of(hand),
        before.of(hand),
        hand,
    ));
    if let Some((p, i)) = started(cs, PrevInput::now(last), world, scene, near, hand) {
        assert(can_be_pulled(world, scene, near, hand, i));
        let _ = near.pulls->0@[i];
        assert(ones(after, hand)->0@ == session_after(
            cs,
            PrevInput::now(last),
            world,
            scene,
            near,
            ones(before, hand),
            hand,
        )->0);
    }
    if ones(after, hand) is Some {
        assert(ones(after, hand)->0@ == pull_of(after.of(hand))->0);
    }
}

/// What a hand has grabbed and not let go is what it took in this frame, and is
/// nothing where the hand opened. Else it is what it was before.
pub proof fn what_is_grabbed_is_kept_until_let_go<F: Fn(u32, Scalar) -> Scalar>(
    input: InputFrame,
    cs: ControllerState,
    last: ControllerState,
    world: Option<WireWorld>,
    meshes: Seq<WireRenderMesh>,
    scene: StaticScene,
    live: LiveObjects,
    reach: PerHand<HandReach>,
    ease: F,
    before: PerHand<Option<PullSession>>,
    after: PerHand<Option<PullSession>>,
    had: PerHand<Option<String>>,
    has: PerHand<Option<String>>,
    hand: Hand,
)
    requires
        is_what_was_done(
            input,
            cs,
            PrevInput::now(last),
            world,
            meshes,
            scene,
            live,
            reach,
            ease,
            before,
            after,
            has,
        ),
        grabs_go_on(has, had, cs, PrevInput::now(last), world, scene, live, reach),
    ensures
        forall|g: int|
            0 <= g < input.grabbed@.len() && (#[trigger] input.grabbed@[g]).1 == hand ==> (ones(
                has,
                hand,
            ) matches Some(id) && id@ == input.grabbed@[g].0@),
        (forall|g: int|
            0 <= g < input.grabbed@.len() ==> (#[trigger] input.grabbed@[g]).1 != hand) ==> if
        !grips_hard(cs, hand) && grips_hard(last, hand) {
            ones(has, hand) is None
        } else {
            match (ones(has, hand), ones(had, hand)) {
                (Some(now), Some(before)) => now@ == before@,
                (None, None) => true,
                _ => false,
            }
        },
{
    let prev = PrevInput::now(last);
    let right = grab_list(
        taken(cs, prev, world, scene, live, reach.right, Hand::Right),
        Hand::Right,
    );
    let left = grab_list(
        taken(cs, prev, world, scene, live, reach.left, Hand::Left),
        Hand::Left,
    );
    let all = grabs(input.grabbed@);
    assert(all.len() == input.grabbed@.len());
    assert forall|g: int| 0 <= g < input.grabbed@.len() implies (#[trigger] input.grabbed@[g]).1
        == all[g].1 && input.grabbed@[g].0@ == all[g].0 by {}
    assert(text_of(has.of(hand)) == grabbed_after(
        cs,
        prev,
        world,
        scene,
        live,
        reach.of(hand),
        had.of(hand),
        hand,
    ));
    if hand is Right && right.len() > 0 {
        assert(input.grabbed@[0].1 == Hand::Right);
    }
    if hand is Left && left.len() > 0 {
        assert(all[right.len() as int] == left[0]);
        assert(input.grabbed@[right.len() as int].1 == Hand::Left);
    }
}

/// Whether a button of a hand goes from up to down between two frames: A and B
/// are the right hand's, X and Y the left's, and each hand has a trigger and a
/// grip, which are down beyond one half.
pub open spec fn goes_down(
    from: ControllerState,
    to: ControllerState,
    button: Seq<char>,
    hand: Hand,
) -> bool {
    ||| button == "btn_a"@ && hand is Right && !from.btn_a && to.btn_a
    ||| button == "btn_b"@ && hand is Right && !from.btn_b && to.btn_b
    ||| button == "btn_x"@ && hand is Left && !from.btn_x && to.btn_x
    ||| button == "btn_y"@ && hand is Left && !from.btn_y && to.btn_y
    ||| button == "trigger"@ && hand is Right && !over_half(from.r_trigger) && over_half(
        to.r_trigger,
    )
    ||| button == "trigger"@ && hand is Left && !over_half(from.l_trigger) && over_half(
        to.l_trigger,
    )
    ||| button == "grip"@ && hand is Right && !over_half(from.r_squeeze) && over_half(to.r_squeeze)
    ||| button == "grip"@ && hand is Left && !over_half(from.l_squeeze) && over_half(to.l_squeeze)
}

/// Whether edges name what the hands on their buttons hold: what the server says,
/// or else what the hand grabbed and has not let go, or else the nearest object in
/// reach, if there is any.
pub open spec fn name_what_is_held(
    edges: Seq<ButtonPress>,
    world: Option<WireWorld>,
    grabbed: PerHand<Option<String>>,
    live: LiveObjects,
    reach: PerHand<HandReach>,
) -> bool {
    forall|k: int|
        0 <= k < edges.len() ==> ((#[trigger] edges[k]).hand matches Some(hand) && match
        said_to_hold(world, hand) {
            Some(h) => edges[k].object_id matches Some(id) && id@ == h.object_id@,
            None => match ones(grabbed, hand) {
                Some(g) => edges[k].object_id matches Some(id) && id@ == g@,
                None => match edges[k].object_id {
                    Some(id) => is_nearest_in_reach(live, around(reach, hand).objects@, id@),
                    None => forall|n: int|
                        0 <= n < around(reach, hand).objects@.len() ==> !(#[trigger] around(
                            reach,
                            hand,
                        ).objects@[n]).at_most(Scalar { bits: 0x3e19_999a }),
                },
            },
        })
}

proof fn edges_are_listed(
    all: Seq<Button>,
    left: Option<Seq<char>>,
    right: Option<Seq<char>>,
)
    ensures
        forall|i: int|
            0 <= i < all.len() && (#[trigger] all[i]).down && !all[i].was ==> down_edges(
                all,
                left,
                right,
            ).contains(edge_of(all[i], left, right)),
        forall|i: int|
            0 <= i < all.len() && !(#[trigger] all[i]).down && all[i].was ==> up_edges(
                all,
                left,
                right,
            ).contains(edge_of(all[i], left, right)),
        forall|k: int|
            0 <= k < down_edges(all, left, right).len() ==> exists|i: int|
                0 <= i < all.len() && (#[trigger] all[i]).down && !all[i].was
                    && #[trigger] down_edges(all, left, right)[k] == edge_of(all[i], left, right),
        forall|k: int|
            0 <= k < up_edges(all, left, right).len() ==> exists|i: int|
                0 <= i < all.len() && !(#[trigger] all[i]).down && all[i].was
                    && #[trigger] up_edges(all, left, right)[k] == edge_of(all[i], left, right),
    decreases all.len(),
{
    if all.len() > 0 {
        let front = all.drop_last();
        edges_are_listed(front, left, right);
        let down = down_edges(all, left, right);
        let up = up_edges(all, left, right);
        let down_before = down_edges(front, left, right);
        let up_before = up_edges(front, left, right);
        let last = all.len() - 1;
        assert forall|i: int| 0 <= i < all.len() && (#[trigger] all[i]).down
            && !all[i].was implies down.contains(edge_of(all[i], left, right)) by {
            if i < last {
                assert(front[i] == all[i]);
                let e = edge_of(all[i], left, right);
                let k = choose|k: int| 0 <= k < down_before.len() && down_before[k] == e;
                assert(down[k] == e);
            } else {
                assert(down[down_before.len() as int] == edge_of(all[i], left, right));
            }
        }
        assert forall|i: int| 0 <= i < all.len() && !(#[trigger] all[i]).down
            && all[i].was implies up.contains(edge_of(all[i], left, right)) by {
            if i < last {
                assert(front[i] == all[i]);
                let e = edge_of(all[i], left, right);
                let k = choose|k: int| 0 <= k < up_before.len() && up_before[k] == e;
                assert(up[k] == e);
            } else {
                assert(up[up_before.len() as int] == edge_of(all[i], left, right));
            }
        }
        assert forall|k: int| 0 <= k < down.len() implies exists|i: int|
            0 <= i < all.len() && (#[trigger] all[i]).down && !all[i].was && #[trigger] down[k]
                == edge_of(all[i], left, right) by {
            if k < down_before.len() {
                let i = choose|i: int|
                    0 <= i < front.len() && (#[trigger] front[i]).down && !front[i].was
                        && down_before[k] == edge_of(front[i], left, right);
                assert(all[i] == front[i]);
            } else {
                assert(all[last].down);
            }
        }
        assert forall|k: int| 0 <= k < up.len() implies exists|i: int|
            0 <= i < all.len() && !(#[trigger] all[i]).down && all[i].was && #[trigger] up[k]
                == edge_of(all[i], left, right) by {
            if k < up_before.len() {
                let i = choose|i: int|
                    0 <= i < front.len() && !(#[trigger] front[i]).down && front[i].was
                        && up_before[k] == edge_of(front[i], left, right);
                assert(all[i] == front[i]);
            } else {
                assert(all[last].was);
            }
        }
    }
}

/// Whether a list of edges has one of a button.
pub open spec fn has_edge(edges: Seq<ButtonPress>, button: Seq<char>, hand: Hand) -> bool {
    exists|k: int|
        0 <= k < edges.len() && (#[trigger] edges[k]).button@ == button && edges[k].hand == Some(
            hand,
        )
}

proof fn edges_match(
    edges: Seq<ButtonPress>,
    down: bool,
    cs: ControllerState,
    last: ControllerState,
    left: Option<Seq<char>>,
    right: Option<Seq<char>>,
)
    requires
        presses(edges) == if down {
            down_edges(buttons(cs, PrevInput::now(last)), left, right)
        } else {
            up_edges(buttons(cs, PrevInput::now(last)), left, right)
        },
    ensures
        forall|button: Seq<char>, hand: Hand| #[trigger]
            has_edge(edges, button, hand) <==> if down {
                goes_down(last, cs, button, hand)
            } else {
                goes_down(cs, last, button, hand)
            },
        forall|k: int|
            0 <= k < edges.len() ==> ((#[trigger] edges[k]).hand matches Some(hand) && text_of(
                edges[k].object_id,
            ) == match hand {
                Hand::Left => left,
                Hand::Right => right,
            }),
{
    let all = buttons(cs, PrevInput::now(last));
    let listed = presses(edges);
    edges_are_listed(all, left, right);
    assert(listed.len() == edges.len());
    assert forall|k: int| 0 <= k < edges.len() implies #[trigger] listed[k] == edges[k]@ by {}
    assert forall|k: int| 0 <= k < edges.len() implies ((#[trigger] edges[k]).hand matches Some(
        hand,
    ) && text_of(edges[k].object_id) == match hand {
        Hand::Left => left,
        Hand::Right => right,
    }) by {
        assert(listed[k] == edges[k]@);
        if down {
            let i = choose|i: int|
                0 <= i < all.len() && (#[trigger] all[i]).down && !all[i].was
                    && listed[k] == edge_of(all[i], left, right);
            assert(edges[k].hand == Some(all[i].hand));
        } else {
            let i = choose|i: int|
                0 <= i < all.len() && !(#[trigger] all[i]).down && all[i].was
                    && listed[k] == edge_of(all[i], left, right);
            assert(edges[k].hand == Some(all[i].hand));
        }
    }
    assert forall|button: Seq<char>, hand: Hand| #[trigger]
        has_edge(edges, button, hand) <==> (if down {
            goes_down(last, cs, button, hand)
        } else {
            goes_down(cs, last, button, hand)
        }) by {
        if has_edge(edges, button, hand) {
            let k = choose|k: int|
                0 <= k < edges.len() && (#[trigger] edges[k]).button@ == button && edges[k].hand
                    == Some(hand);
            assert(listed[k] == edges[k]@);
            if down {
                let i = choose|i: int|
                    0 <= i < all.len() && (#[trigger] all[i]).down && !all[i].was
                        && listed[k] == edge_of(all[i], left, right);
                assert(0 <= i < 8);
            } else {
                let i = choose|i: int|
                    0 <= i < all.len() && !(#[trigger] all[i]).down && all[i].was
                        && listed[k] == edge_of(all[i], left, right);
                assert(0 <= i < 8);
            }
        }
        let found = |i: int|
            0 <= i < 8 && all[i].name == button && all[i].hand == hand && listed.contains(
                edge_of(all[i], left, right),
            );
        assert forall|i: int| #[trigger] found(i) implies has_edge(edges, button, hand) by {
            let e = edge_of(all[i], left, right);
            let k = choose|k: int| 0 <= k < listed.len() && listed[k] == e;
            assert(listed[k] == edges[k]@);
            assert(edges[k].button@ == button);
        }
        if if down {
            goes_down(last, cs, button, hand)
        } else {
            goes_down(cs, last, button, hand)
        } {
            assert(found(0) || found(1) || found(2) || found(3) || found(4) || found(5) || found(6)
                || found(7));
        }
    }
}

/// A button is reported as pressed where it goes from up to down between two
/// frames, as let go where it goes from down to up, and else not at all. What is
/// named with it is what the button's own hand holds.
pub proof fn every_edge_is_reported_and_no_other<F: Fn(u32, Scalar) -> Scalar>(
    input: InputFrame,
    cs: ControllerState,
    last: ControllerState,
    world: Option<WireWorld>,
    meshes: Seq<WireRenderMesh>,
    scene: StaticScene,
    live: LiveObjects,
    reach: PerHand<HandReach>,
    ease: F,
    before: PerHand<Option<PullSession>>,
    after: PerHand<Option<PullSession>>,
    grabbed: PerHand<Option<String>>,
)
    requires
        is_what_was_done(
            input,
            cs,
            PrevInput::now(last),
            world,
            meshes,
            scene,
            live,
            reach,
            ease,
            before,
            after,
            grabbed,
        ),
        reach_fits(world, scene, live, reach.left, Hand::Left),
        reach_fits(world, scene, live, reach.right, Hand::Right),
    ensures
        forall|button: Seq<char>, hand: Hand| #[trigger]
            has_edge(input.button_presses@, button, hand) <==> goes_down(last, cs, button, hand),
        forall|button: Seq<char>, hand: Hand| #[trigger]
            has_edge(input.button_releases@, button, hand) <==> goes_down(cs, last, button, hand),
        name_what_is_held(input.button_presses@, world, grabbed, live, reach),
        name_what_is_held(input.button_releases@, world, grabbed, live, reach),
{
    let left = in_hand(world, grabbed, live, reach, Hand::Left);
    let right = in_hand(world, grabbed, live, reach, Hand::Right);
    edges_match(input.button_presses@, true, cs, last, left, right);
    edges_match(input.button_releases@, false, cs, last, left, right);
    what_is_held_is_asked_in_turn(
        said_to_hold(world, Hand::Left),
        text_of(grabbed.left),
        live,
        reach.left.objects@,
    );
    what_is_held_is_asked_in_turn(
        said_to_hold(world, Hand::Right),
        text_of(grabbed.right),
        live,
        reach.right.objects@,
    );
    assert(left == holding(
        said_to_hold(world, Hand::Left),
        text_of(grabbed.left),
        live,
        reach.left.objects@,
    ));
    assert(right == holding(
        said_to_hold(world, Hand::Right),
        text_of(grabbed.right),
        live,
        reach.right.objects@,
    ));
}

/// What the controllers say is reported as they say it, each value as its own
/// hand's, and nothing is ever pointed at. What the next frame takes for the frame
/// before is what this one saw.
pub proof fn values_are_reported_as_they_are<F: Fn(u32, Scalar) -> Scalar>(
    input: InputFrame,
    cs: ControllerState,
    prev: PrevInput,
    world: Option<WireWorld>,
    meshes: Seq<WireRenderMesh>,
    scene: StaticScene,
    live: LiveObjects,
    reach: PerHand<HandReach>,
    ease: F,
    before: PerHand<Option<PullSession>>,
    after: PerHand<Option<PullSession>>,
    grabbed: PerHand<Option<String>>,
)
    requires
        is_what_was_done(
            input,
            cs,
            prev,
            world,
            meshes,
            scene,
            live,
            reach,
            ease,
            before,
            after,
            grabbed,
        ),
    ensures
        input.axes.l_trigger == cs.l_trigger && input.axes.r_trigger == cs.r_trigger,
        input.axes.l_grip == cs.l_squeeze && input.axes.r_grip == cs.r_squeeze,
        input.axes.l_stick == cs.l_stick && input.axes.r_stick == cs.r_stick,
        input.pointed@.len() == 0,
        ({
            let next = PrevInput::now(cs);
            &&& next.l_trigger == over_half(cs.l_trigger)
            &&& next.r_trigger == over_half(cs.r_trigger)
            &&& next.l_squeeze == over_half(cs.l_squeeze)
            &&& next.r_squeeze == over_half(cs.r_squeeze)
            &&& next.btn_a == cs.btn_a && next.btn_b == cs.btn_b
            &&& next.btn_x == cs.btn_x && next.btn_y == cs.btn_y
        }),
{
}

/// The blend that a part of a held object is driven to: by the trigger or the grip
/// of the hand that holds it, by the pull on it, or by what a script set.
pub open spec fn is_driven_to(
    raw: Scalar,
    part: PartAnimationDef,
    object_id: Seq<char>,
    hand: Hand,
    cs: ControllerState,
    pulls: PerHand<Option<PullSession>>,
    meshes: Seq<WireRenderMesh>,
) -> bool {
    match part.driver {
        PartDriver::HoldTrigger => raw == match hand {
            Hand::Left => cs.l_trigger,
            Hand::Right => cs.r_trigger,
        },
        PartDriver::HoldGrip => raw == match hand {
            Hand::Left => cs.l_squeeze,
            Hand::Right => cs.r_squeeze,
        },
        PartDriver::HandPull => {
            let by_left = pulls.left matches Some(s) && s.object_id@ == object_id && s.clip@
                == part.clip@;
            let by_right = pulls.right matches Some(s) && s.object_id@ == object_id && s.clip@
                == part.clip@;
            &&& by_left ==> raw == pulls.left->0.blend
            &&& !by_left && by_right ==> raw == pulls.right->0.blend
            &&& !by_left && !by_right ==> raw.bits == 0
        },
        PartDriver::Manual => {
            &&& forall|m: int|
                0 <= m < meshes.len() && (#[trigger] meshes[m]).id@ == object_id && (forall|n: int|
                    0 <= n < m ==> (#[trigger] meshes[n]).id@ != object_id) ==> match
                meshes[m].manual_part_blends.lookup(part.clip@) {
                    Some(set) => raw == set,
                    None => raw.bits == 0,
                }
            &&& (forall|n: int| 0 <= n < meshes.len() ==> (#[trigger] meshes[n]).id@ != object_id)
                ==> raw.bits == 0
        },
    }
}

/// Whether a table gives each part of an object its blend: what the part is driven
/// to, shaped by the part's curve. Of two parts with one clip the later counts.
pub open spec fn blends_each_part<F: Fn(u32, Scalar) -> Scalar>(
    blends: Table<Scalar>,
    parts: Seq<PartAnimationDef>,
    object_id: Seq<char>,
    hand: Hand,
    cs: ControllerState,
    pulls: PerHand<Option<PullSession>>,
    meshes: Seq<WireRenderMesh>,
    ease: F,
) -> bool {
    &&& forall|i: int|
        #![trigger parts[i]]
        0 <= i < parts.len() && (forall|k: int|
            i < k < parts.len() ==> (#[trigger] parts[k]).clip@ != parts[i].clip@) ==> {
            &&& blends.lookup(parts[i].clip@) is Some
            &&& exists|raw: Scalar|
                is_driven_to(raw, parts[i], object_id, hand, cs, pulls, meshes)
                    && #[trigger] call_ensures(
                    ease,
                    (parts[i].easing, raw),
                    blends.lookup(parts[i].clip@)->0,
                )
        }
    &&& forall|clip: Seq<char>|
        (forall|i: int| 0 <= i < parts.len() ==> (#[trigger] parts[i]).clip@ != clip)
            ==> #[trigger] blends.lookup(clip) is None
}

proof fn last_source_is_last(sources: Seq<BlendSource>, clip: Seq<char>)
    ensures
        match last_source(sources, clip) {
            Some(i) => 0 <= i < sources.len() && sources[i].clip == clip && forall|k: int|
                i < k < sources.len() ==> (#[trigger] sources[k]).clip != clip,
            None => forall|k: int| 0 <= k < sources.len() ==> (#[trigger] sources[k]).clip != clip,
        },
    decreases sources.len(),
{
    if sources.len() > 0 {
        let front = sources.drop_last();
        last_source_is_last(front, clip);
        assert(forall|k: int| 0 <= k < front.len() ==> front[k] == #[trigger] sources[k]);
    }
}

proof fn mesh_position_is_first(meshes: Seq<WireRenderMesh>, id: Seq<char>)
    ensures
        match mesh_position(meshes, id) {
            Some(i) => 0 <= i < meshes.len() && meshes[i].id@ == id && forall|k: int|
                0 <= k < i ==> (#[trigger] meshes[k]).id@ != id,
            None => forall|k: int| 0 <= k < meshes.len() ==> (#[trigger] meshes[k]).id@ != id,
        },
    decreases meshes.len(),
{
    if meshes.len() > 0 {
        let front = meshes.drop_last();
        mesh_position_is_first(front, id);
        assert(forall|k: int| 0 <= k < front.len() ==> front[k] == #[trigger] meshes[k]);
    }
}

/// The blends of an object are those that its parts are driven to.
pub proof fn parts_are_blended_as_they_are_driven<F: Fn(u32, Scalar) -> Scalar>(
    blends: Table<Scalar>,
    parts: Seq<PartAnimationDef>,
    object_id: Seq<char>,
    hand: Hand,
    cs: ControllerState,
    pulls: PerHand<Option<PullSession>>,
    meshes: Seq<WireRenderMesh>,
    ease: F,
)
    requires
        eased_from(
            blend_sources(object_id, parts, hand, cs, pulls, manual_of(meshes, object_id)),
            ease,
            blends,
        ),
    ensures
        blends_each_part(blends, parts, object_id, hand, cs, pulls, meshes, ease),
{
    let sources = blend_sources(object_id, parts, hand, cs, pulls, manual_of(meshes, object_id));
    mesh_position_is_first(meshes, object_id);
    assert forall|i: int|
        #![trigger parts[i]]
        0 <= i < parts.len() && (forall|k: int|
            i < k < parts.len() ==> (#[trigger] parts[k]).clip@ != parts[i].clip@) implies {
        &&& blends.lookup(parts[i].clip@) is Some
        &&& exists|raw: Scalar|
            is_driven_to(raw, parts[i], object_id, hand, cs, pulls, meshes)
                && #[trigger] call_ensures(
                ease,
                (parts[i].easing, raw),
                blends.lookup(parts[i].clip@)->0,
            )
    } by {
        let clip = parts[i].clip@;
        last_source_is_last(sources, clip);
        assert(sources[i].clip == clip);
        let j = last_source(sources, clip)->0;
        if j > i {
            assert(parts[j].clip@ != clip);
        }
        assert(j == i);
        let _ = blends.lookup(clip);
        let raw = sources[i].raw;
        assert(call_ensures(ease, (parts[i].easing, raw), blends.lookup(clip)->0));
        assert(is_driven_to(raw, parts[i], object_id, hand, cs, pulls, meshes)) by {
            if let Some(m) = mesh_position(meshes, object_id) {
                assert forall|q: int|
                    0 <= q < meshes.len() && (#[trigger] meshes[q]).id@ == object_id && (forall|
                        n: int,
                    |
                        0 <= n < q ==> (#[trigger] meshes[n]).id@ != object_id) implies q == m by {
                    if q < m {
                        assert(meshes[q].id@ != object_id);
                    }
                    if m < q {
                        assert(meshes[m].id@ != object_id);
                    }
                }
            }
        }
    }
    assert forall|clip: Seq<char>|
        (forall|i: int| 0 <= i < parts.len() ==> (#[trigger] parts[i]).clip@ != clip) implies (
    #[trigger] blends.lookup(clip)) is None by {
        last_source_is_last(sources, clip);
        if let Some(j) = last_source(sources, clip) {
            assert(parts[j].clip@ != clip);
        }
    }
}

/// Of every object that a hand holds and that has parts, the blends of its parts
/// are reported, as that hand drives them; where both hands hold it, as the right
/// hand does. Of no other object are any reported.
pub proof fn the_blends_of_what_is_held_are_reported<F: Fn(u32, Scalar) -> Scalar>(
    input: InputFrame,
    cs: ControllerState,
    prev: PrevInput,
    world: Option<WireWorld>,
    meshes: Seq<WireRenderMesh>,
    scene: StaticScene,
    live: LiveObjects,
    reach: PerHand<HandReach>,
    ease: F,
    before: PerHand<Option<PullSession>>,
    after: PerHand<Option<PullSession>>,
    grabbed: PerHand<Option<String>>,
    id: Seq<char>,
)
    requires
        is_what_was_done(
            input,
            cs,
            prev,
            world,
            meshes,
            scene,
            live,
            reach,
            ease,
            before,
            after,
            grabbed,
        ),
    ensures
        ({
            let in_right = said_to_hold(world, Hand::Right) matches Some(h) && h.object_id@ == id;
            let in_left = said_to_hold(world, Hand::Left) matches Some(h) && h.object_id@ == id;
            match scene.part_animations.lookup(id) {
                Some(parts) => if parts@.len() > 0 && (in_right || in_left) {
                    &&& input.part_blends.lookup(id) matches Some(t)
                    &&& blends_each_part(
                        t,
                        parts@,
                        id,
                        if in_right {
                            Hand::Right
                        } else {
                            Hand::Left
                        },
                        cs,
                        after,
                        meshes,
                        ease,
                    )
                } else {
                    input.part_blends.lookup(id) is None
                },
                None => input.part_blends.lookup(id) is None,
            }
        }),
{
    let _ = input.part_blends.lookup(id);
    if let Some(parts) = scene.part_animations.lookup(id) {
        if let Some(t) = input.part_blends.lookup(id) {
            let in_right = said_to_hold(world, Hand::Right) matches Some(h) && h.object_id@ == id;
            let hand = if in_right {
                Hand::Right
            } else {
                Hand::Left
            };
            assert(eased_from(
                blend_sources(id, parts@, hand, cs, after, manual_of(meshes, id)),
                ease,
                t,
            ));
            parts_are_blended_as_they_are_driven(
                t,
                parts@,
                id,
                hand,
                cs,
                after,
                meshes,
                ease,
            );
        }
    }
}

/// A controller drives the parts that follow its trigger or its grip as far as that
/// hand pulls or squeezes, and no other parts at all.
pub proof fn the_controllers_drive_their_own_parts(
    driver: PartDriver,
    hand: Hand,
    cs: ControllerState,
)
    ensures
        driver is HoldTrigger && hand is Left ==> driven_blend(driver, hand, cs) == cs.l_trigger,
        driver is HoldTrigger && hand is Right ==> driven_blend(driver, hand, cs) == cs.r_trigger,
        driver is HoldGrip && hand is Left ==> driven_blend(driver, hand, cs) == cs.l_squeeze,
        driver is HoldGrip && hand is Right ==> driven_blend(driver, hand, cs) == cs.r_squeeze,
        driver is HandPull || driver is Manual ==> driven_blend(driver, hand, cs).bits == 0,
{
}

proof fn edges_come_in_turn(
    all: Seq<Button>,
    left: Option<Seq<char>>,
    right: Option<Seq<char>>,
    down: bool,
) -> (from: Seq<int>)
    ensures
        ({
            let edges = if down {
                down_edges(all, left, right)
            } else {
                up_edges(all, left, right)
            };
            &&& from.len() == edges.len()
            &&& forall|j: int, k: int|
                0 <= j < k < from.len() ==> #[trigger] from[j] < #[trigger] from[k]
            &&& forall|k: int|
                0 <= k < from.len() ==> 0 <= #[trigger] from[k] < all.len() && edges[k] == edge_of(
                    all[from[k]],
                    left,
                    right,
                )
        }),
    decreases all.len(),
{
    if all.len() == 0 {
        Seq::empty()
    } else {
        let had = edges_come_in_turn(all.drop_last(), left, right, down);
        let last = all.len() - 1;
        let is_edge = if down {
            all[last].down && !all[last].was
        } else {
            !all[last].down && all[last].was
        };
        let now = if is_edge {
            had.push(last)
        } else {
            had
        };
        let edges = if down {
            down_edges(all, left, right)
        } else {
            up_edges(all, left, right)
        };
        assert(edges.len() == now.len());
        assert forall|k: int| 0 <= k < now.len() implies 0 <= #[trigger] now[k] < all.len()
            && edges[k] == edge_of(all[now[k]], left, right) by {
            if k < had.len() {
                assert(now[k] == had[k]);
                assert(all.drop_last()[had[k]] == all[had[k]]);
            }
        }
        assert forall|j: int, k: int| 0 <= j < k < now.len() implies #[trigger] now[j]
            < #[trigger] now[k] by {
            assert(now[j] == had[j]);
            if k < had.len() {
                assert(now[k] == had[k]);
            }
        }
        now
    }
}

proof fn buttons_are_told_apart(cs: ControllerState, prev: PrevInput, i: int, j: int)
    requires
        0 <= i < j < buttons(cs, prev).len(),
    ensures
        buttons(cs, prev)[i].name != buttons(cs, prev)[j].name || buttons(cs, prev)[i].hand
            != buttons(cs, prev)[j].hand,
{
    reveal_strlit("btn_a");
    reveal_strlit("btn_b");
    reveal_strlit("btn_x");
    reveal_strlit("btn_y");
    reveal_strlit("trigger");
    reveal_strlit("grip");
    assert("btn_a"@[4] != "btn_b"@[4]);
    assert("btn_x"@[4] != "btn_y"@[4]);
    assert("btn_a"@.len() == 5 && "trigger"@.len() == 7 && "grip"@.len() == 4);
    assert("btn_b"@.len() == 5 && "btn_x"@.len() == 5 && "btn_y"@.len() == 5);
}

proof fn edges_differ(
    edges: Seq<ButtonPress>,
    down: bool,
    cs: ControllerState,
    last: ControllerState,
    left: Option<Seq<char>>,
    right: Option<Seq<char>>,
)
    requires
        presses(edges) == if down {
            down_edges(buttons(cs, PrevInput::now(last)), left, right)
        } else {
            up_edges(buttons(cs, PrevInput::now(last)), left, right)
        },
    ensures
        forall|j: int, k: int|
            0 <= j < k < edges.len() ==> (#[trigger] edges[j]).button@ != (
            #[trigger] edges[k]).button@ || edges[j].hand != edges[k].hand,
{
    let all = buttons(cs, PrevInput::now(last));
    let from = edges_come_in_turn(all, left, right, down);
    let listed = presses(edges);
    assert(listed.len() == edges.len());
    assert forall|j: int, k: int| 0 <= j < k < edges.len() implies (#[trigger] edges[j]).button@
        != (#[trigger] edges[k]).button@ || edges[j].hand != edges[k].hand by {
        assert(listed[j] == edges[j]@ && listed[k] == edges[k]@);
        assert(from[j] < from[k]);
        buttons_are_told_apart(cs, PrevInput::now(last), from[j], from[k]);
    }
}

/// No edge is reported twice. What the right hand takes or lets go is reported
/// before what the left hand does.
pub proof fn nothing_is_reported_twice<F: Fn(u32, Scalar) -> Scalar>(
    input: InputFrame,
    cs: ControllerState,
    last: ControllerState,
    world: Option<WireWorld>,
    meshes: Seq<WireRenderMesh>,
    scene: StaticScene,
    live: LiveObjects,
    reach: PerHand<HandReach>,
    ease: F,
    before: PerHand<Option<PullSession>>,
    after: PerHand<Option<PullSession>>,
    grabbed: PerHand<Option<String>>,
)
    requires
        is_what_was_done(
            input,
            cs,
            PrevInput::now(last),
            world,
            meshes,
            scene,
            live,
            reach,
            ease,
            before,
            after,
            grabbed,
        ),
    ensures
        forall|j: int, k: int|
            0 <= j < k < input.button_presses@.len() ==> (
            #[trigger] input.button_presses@[j]).button@ != (
            #[trigger] input.button_presses@[k]).button@ || input.button_presses@[j].hand
                != input.button_presses@[k].hand,
        forall|j: int, k: int|
            0 <= j < k < input.button_releases@.len() ==> (
            #[trigger] input.button_releases@[j]).button@ != (
            #[trigger] input.button_releases@[k]).button@ || input.button_releases@[j].hand
                != input.button_releases@[k].hand,
        forall|j: int, k: int|
            0 <= j < k < input.grabbed@.len() ==> (#[trigger] input.grabbed@[j]).1 is Right && (
            #[trigger] input.grabbed@[k]).1 is Left,
        forall|j: int, k: int|
            0 <= j < k < input.released@.len() ==> (#[trigger] input.released@[j]).1 is Right && (
            #[trigger] input.released@[k]).1 is Left,
{
    let left = in_hand(world, grabbed, live, reach, Hand::Left);
    let right = in_hand(world, grabbed, live, reach, Hand::Right);
    edges_differ(input.button_presses@, true, cs, last, left, right);
    edges_differ(input.button_releases@, false, cs, last, left, right);
    let took = grabs(input.grabbed@);
    assert(took.len() == input.grabbed@.len());
    assert forall|g: int| 0 <= g < input.grabbed@.len() implies (#[trigger] input.grabbed@[g]).1
        == took[g].1 by {}
    let gave = releases(input.released@);
    assert(gave.len() == input.released@.len());
    assert forall|g: int| 0 <= g < input.released@.len() implies (#[trigger] input.released@[g]).1
        == gave[g].1 by {}
}

} // verus!
