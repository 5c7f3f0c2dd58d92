//! What the client remembers from frame to frame, and what it makes of one.

use vstd::prelude::*;

use crate::avatar::LocalPose;
use crate::engine::{
    texts, ControllerState, Hand, InputFrame, LocomotionInput, PerHand, PlayerRig, Transform,
};
use crate::frame_log::{
    log_frame_status, send_local_pose, status_line, FrameCounts, FrameLog, HANDS_EVERY,
    STATUS_EVERY,
};
use crate::frame_loop::{world_lists, ServerView, WorldLists};
use crate::grab_detect::{bounds_of, the_last_bounds_count, LiveObjects, StaticScene};
use crate::mesh_load::{batches, gathered, objects, queue_new_meshes, wanted};
use crate::movement::{
    asked, is_step, step_locomotion, the_player_is_moved_as_the_sticks_ask, Step,
};
use crate::hands::{
    every_edge_is_reported_and_no_other, goes_down, has_edge, values_are_reported_as_they_are,
};
use crate::part_pull::{
    grabs_go_on, handle_input, is_what_was_done, pulls_go_on, reach_fits, HandReach, PrevInput,
    PullSession,
};
use crate::protocol::{WireObjectBounds, WireRenderMesh, WireWorld};
use crate::render_prep::MeshFacts;
use crate::scalar::{Scalar, Vec3};
use crate::table::Table;

verus! {

/// What the client remembers from frame to frame.
#[derive(Debug)]
pub struct Client {
    /// What the server last said of where the player stands.
    pub view: ServerView,
    /// The boxes around the objects that are there.
    pub live: LiveObjects,
    /// The objects whose meshes were asked for.
    pub requested: Vec<String>,
    /// The parts that the hands pull.
    pub sessions: PerHand<Option<PullSession>>,
    /// What the hands grabbed and have not let go.
    pub grabbed: PerHand<Option<String>>,
    /// Which buttons were down.
    pub prev: PrevInput,
}

/// What one frame comes to.
#[derive(Debug)]
pub struct Played {
    /// The mesh files to read, and the objects that wait for them.
    pub requests: Vec<(String, Vec<String>)>,
    /// What the player did.
    pub input: InputFrame,
    /// Where the player went, and what the server is told.
    pub step: Step,
    /// The pose that the server is sent.
    pub pose: LocalPose,
    /// What is logged.
    pub log: FrameLog,
}

/// The meshes of a world, none where there is no world.
pub open spec fn meshes_of(world: Option<WireWorld>) -> Seq<WireRenderMesh> {
    match world {
        Some(w) => w.meshes@,
        None => Seq::empty(),
    }
}

/// The bounds of a world's objects, none where there is no world.
pub open spec fn bounds_in(world: Option<WireWorld>) -> Seq<WireObjectBounds> {
    match world {
        Some(w) => w.object_bounds@,
        None => Seq::empty(),
    }
}

/// What a frame's counts are.
pub open spec fn counts(
    frame_count: u64,
    world: Option<WireWorld>,
    live: LiveObjects,
) -> FrameCounts {
    FrameCounts {
        frame_count,
        cuboids: match world {
            Some(w) => w.cuboids@.len() as usize,
            None => 0,
        },
        meshes: meshes_of(world).len() as usize,
        lights: match world {
            Some(w) => w.lights@.len() as usize,
            None => 0,
        },
        bounds: live.by_id.entries@.len() as usize,
        connected: world is Some,
    }
}

/// Whether boxes are those of a world's objects.
pub open spec fn are_live(live: LiveObjects, world: Option<WireWorld>) -> bool {
    &&& live.by_id.distinct()
    &&& forall|k: Seq<char>| #[trigger] live.by_id.lookup(k) == bounds_of(bounds_in(world), k)
}

/// Whether `measure` always measures what fits the scene and the objects.
pub open spec fn measures<
    M: Fn(&LiveObjects, &PerHand<Option<PullSession>>) -> PerHand<HandReach>,
>(
    measure: M,
    world: Option<WireWorld>,
    scene: StaticScene,
) -> bool {
    &&& forall|live: &LiveObjects, sessions: &PerHand<Option<PullSession>>| #[trigger]
        call_requires(measure, (live, sessions))
    &&& forall|
        live: &LiveObjects,
        sessions: &PerHand<Option<PullSession>>,
        reach: PerHand<HandReach>,
    | #[trigger]
        call_ensures(measure, (live, sessions), reach) ==> reach_fits(
            world,
            scene,
            *live,
            reach.left,
            Hand::Left,
        ) && reach_fits(world, scene, *live, reach.right, Hand::Right)
}

/// Whether a frame was played: what the client remembers after it, and what came of
/// it.
pub open spec fn is_played<
    M: Fn(&LiveObjects, &PerHand<Option<PullSession>>) -> PerHand<HandReach>,
    E: Fn(u32, Scalar) -> Scalar,
    A: FnOnce(LocomotionInput) -> (Vec3, Scalar),
>(
    before: Client,
    after: Client,
    r: Played,
    frame_count: u64,
    cs: ControllerState,
    rig: PlayerRig,
    head: Transform,
    grips: PerHand<Transform>,
    world: Option<WireWorld>,
    static_scene: StaticScene,
    mesh_cache: Table<MeshFacts>,
    measure: M,
    ease: E,
    advance: A,
) -> bool {
    let list = wanted(meshes_of(world), mesh_cache.entries@, texts(before.requested@));
    &&& after.view == before.view
    &&& are_live(after.live, world)
    &&& batches(r.requests@) == gathered(list)
    &&& texts(after.requested@) == texts(before.requested@) + objects(list)
    &&& after.prev == PrevInput::now(cs)
    &&& exists|reach: PerHand<HandReach>|
        #![trigger call_ensures(measure, (&after.live, &before.sessions), reach)]
        {
            &&& call_ensures(measure, (&after.live, &before.sessions), reach)
            &&& pulls_go_on(
                after.sessions,
                before.sessions,
                cs,
                before.prev,
                world,
                static_scene,
                reach,
            )
            &&& grabs_go_on(
                after.grabbed,
                before.grabbed,
                cs,
                before.prev,
                world,
                static_scene,
                after.live,
                reach,
            )
            &&& is_what_was_done(
                r.input,
                cs,
                before.prev,
                world,
                meshes_of(world),
                static_scene,
                after.live,
                reach,
                ease,
                before.sessions,
                after.sessions,
                after.grabbed,
            )
        }
    &&& is_step(
        r.step,
        cs,
        rig,
        frame_count,
        before.view.player_offset,
        before.view.player_yaw,
        PrevInput::now(cs).r_trigger,
        r.input,
        advance,
    )
    &&& r.pose == (LocalPose {
        head,
        left_hand: Some(grips.left),
        right_hand: Some(grips.right),
    })
    &&& match r.log.status {
        Some(line) => frame_count % STATUS_EVERY == 0 && line@ == status_line(
            counts(frame_count, world, after.live),
        ),
        None => frame_count % STATUS_EVERY != 0,
    }
    &&& r.log.hands == (frame_count % HANDS_EVERY == 0)
}

impl Client {
    /// Before the first frame.
    pub fn new() -> (r: Client)
        ensures
            r.view == (ServerView { player_offset: None, player_yaw: None }),
            r.live.by_id.entries@.len() == 0,
            r.requested@.len() == 0,
            r.sessions.left is None && r.sessions.right is None,
            r.grabbed.left is None && r.grabbed.right is None,
            r.prev == (PrevInput {
                r_trigger: false,
                l_trigger: false,
                r_squeeze: false,
                l_squeeze: false,
                btn_a: false,
                btn_b: false,
                btn_x: false,
                btn_y: false,
            }),
    {
        Client {
            view: ServerView { player_offset: None, player_yaw: None },
            live: LiveObjects::new(),
            requested: Vec::new(),
            sessions: PerHand { left: None, right: None },
            grabbed: PerHand { left: None, right: None },
            prev: PrevInput {
                r_trigger: false,
                l_trigger: false,
                r_squeeze: false,
                l_squeeze: false,
                btn_a: false,
                btn_b: false,
                btn_x: false,
                btn_y: false,
            },
        }
    }

    /// Plays one frame, in the scene that is loaded: takes in the objects that are
    /// there, asks for meshes, works out what the player did, moves the player,
    /// and says what to send and to log.
    ///
    /// `measure` measures what the hands are near, given the objects and the
    /// pulls; `ease` shapes a blend by a curve; `advance` moves the player and
    /// gives the new offset and yaw. The movement is worked out after the input
    /// was taken in, so the trigger that it takes for the one before is this
    /// frame's.
    pub fn play<
        M: Fn(&LiveObjects, &PerHand<Option<PullSession>>) -> PerHand<HandReach>,
        E: Fn(u32, Scalar) -> Scalar,
        A: FnOnce(LocomotionInput) -> (Vec3, Scalar),
    >(
        &mut self,
        frame_count: u64,
        cs: &ControllerState,
        rig: &PlayerRig,
        head: Transform,
        grips: &PerHand<Transform>,
        world: &Option<WireWorld>,
        static_scene: &StaticScene,
        mesh_cache: &Table<MeshFacts>,
        measure: &M,
        ease: &E,
        advance: A,
    ) -> (r: Played)
        requires
            measures(*measure, *world, *static_scene),
            forall|e: u32, raw: Scalar| #[trigger] call_requires(*ease, (e, raw)),
            call_requires(advance, (asked(*cs, PrevInput::now(*cs).r_trigger),)),
        ensures
            is_played(
                *old(self),
                *final(self),
                r,
                frame_count,
                *cs,
                *rig,
                head,
                *grips,
                *world,
                *static_scene,
                *mesh_cache,
                *measure,
                *ease,
                advance,
            ),
    {
        let lists: WorldLists = world_lists(world);
        proof {
            assert(lists.meshes@ =~= meshes_of(*world));
            assert(lists.object_bounds@ =~= bounds_in(*world));
        }
        self.live.update(lists.object_bounds);
        let requests = queue_new_meshes(lists.meshes, mesh_cache, &mut self.requested);
        let reach = measure(&self.live, &self.sessions);
        let input = handle_input(
            cs,
            world,
            lists.meshes,
            static_scene,
            &self.live,
            &reach,
            ease,
            &mut self.sessions,
            &mut self.grabbed,
            &mut self.prev,
        );
        let step = step_locomotion(
            cs,
            rig,
            frame_count,
            self.view.player_offset,
            self.view.player_yaw,
            self.prev.r_trigger,
            &input,
            advance,
        );
        let log = log_frame_status(
            FrameCounts {
                frame_count,
                cuboids: lists.cuboids.len(),
                meshes: lists.meshes.len(),
                lights: lists.lights.len(),
                bounds: self.live.by_id.len(),
                connected: world.is_some(),
            },
        );
        Played { requests, input, step, pose: send_local_pose(head, grips), log }
    }
}

/// Of two frames played one after the other the second reports the buttons that went
/// down or came up between them, whatever else happened, and the values that the
/// controllers have in it. The sticks move the player, and no teleport is asked for.
/// The head and the hands are sent where they are tracked, each hand as its own.
pub proof fn a_frame_reports_what_changed_since_the_last<
    M: Fn(&LiveObjects, &PerHand<Option<PullSession>>) -> PerHand<HandReach>,
    E: Fn(u32, Scalar) -> Scalar,
    A: FnOnce(LocomotionInput) -> (Vec3, Scalar),
>(
    states: (Client, Client, Client),
    played: (Played, Played),
    frames: (u64, u64),
    controllers: (ControllerState, ControllerState),
    rigs: (PlayerRig, PlayerRig),
    heads: (Transform, Transform),
    grips: (PerHand<Transform>, PerHand<Transform>),
    worlds: (Option<WireWorld>, Option<WireWorld>),
    static_scene: StaticScene,
    mesh_cache: Table<MeshFacts>,
    measure: M,
    ease: E,
    advances: (A, A),
)
    requires
        is_played(
            states.0,
            states.1,
            played.0,
            frames.0,
            controllers.0,
            rigs.0,
            heads.0,
            grips.0,
            worlds.0,
            static_scene,
            mesh_cache,
            measure,
            ease,
            advances.0,
        ),
        is_played(
            states.1,
            states.2,
            played.1,
            frames.1,
            controllers.1,
            rigs.1,
            heads.1,
            grips.1,
            worlds.1,
            static_scene,
            mesh_cache,
            measure,
            ease,
            advances.1,
        ),
        measures(measure, worlds.1, static_scene),
    ensures
        ({
            let (last, cs) = controllers;
            let done = played.1;
            &&& forall|button: Seq<char>, hand: Hand| #[trigger]
                has_edge(done.input.button_presses@, button, hand) <==> goes_down(
                    last,
                    cs,
                    button,
                    hand,
                )
            &&& forall|button: Seq<char>, hand: Hand| #[trigger]
                has_edge(done.input.button_releases@, button, hand) <==> goes_down(
                    cs,
                    last,
                    button,
                    hand,
                )
            &&& done.input.axes.l_trigger == cs.l_trigger
            &&& done.input.axes.r_trigger == cs.r_trigger
            &&& done.input.axes.l_stick == cs.l_stick
            &&& done.input.axes.r_stick == cs.r_stick
            &&& done.step.pending.locomotion_input.move_stick == cs.l_stick
            &&& done.step.pending.locomotion_input.turn_stick_x == cs.r_stick.x
            &&& !done.step.pending.locomotion_input.teleport_pressed
            &&& !done.step.pending.locomotion_input.teleport_released
            &&& done.pose.head == heads.1
            &&& done.pose.left_hand == Some(grips.1.left)
            &&& done.pose.right_hand == Some(grips.1.right)
            &&& states.2.view == states.0.view
        }),
{
    let (last, cs) = controllers;
    let reach = choose|reach: PerHand<HandReach>|
        #![trigger call_ensures(measure, (&states.2.live, &states.1.sessions), reach)]
        {
            &&& call_ensures(measure, (&states.2.live, &states.1.sessions), reach)
            &&& is_what_was_done(
                played.1.input,
                cs,
                states.1.prev,
                worlds.1,
                meshes_of(worlds.1),
                static_scene,
                states.2.live,
                reach,
                ease,
                states.1.sessions,
                states.2.sessions,
                states.2.grabbed,
            )
        };
    every_edge_is_reported_and_no_other(
        played.1.input,
        cs,
        last,
        worlds.1,
        meshes_of(worlds.1),
        static_scene,
        states.2.live,
        reach,
        ease,
        states.1.sessions,
        states.2.sessions,
        states.2.grabbed,
    );
    values_are_reported_as_they_are(
        played.1.input,
        cs,
        states.1.prev,
        worlds.1,
        meshes_of(worlds.1),
        static_scene,
        states.2.live,
        reach,
        ease,
        states.1.sessions,
        states.2.sessions,
        states.2.grabbed,
    );
    the_player_is_moved_as_the_sticks_ask(
        played.1.step,
        cs,
        cs,
        rigs.1,
        frames.1,
        states.1.view.player_offset,
        states.1.view.player_yaw,
        played.1.input,
        advances.1,
    );
}

/// An object is there just where the world gives it bounds, and its box is the last
/// that the world gives it. Where there is no world nothing is there.
pub proof fn an_object_is_where_the_world_last_put_it(
    live: LiveObjects,
    world: Option<WireWorld>,
    id: Seq<char>,
)
    requires
        are_live(live, world),
    ensures
        world is None ==> live.by_id.lookup(id) is None,
        world matches Some(w) ==> match live.by_id.lookup(id) {
            Some(c) => exists|i: int|
                {
                    &&& 0 <= i < w.object_bounds@.len()
                    &&& (#[trigger] w.object_bounds@[i]).id@ == id
                    &&& c.position == w.object_bounds@[i].position
                    &&& c.rotation == w.object_bounds@[i].rotation
                    &&& c.half_size == w.object_bounds@[i].half_size
                    &&& forall|k: int|
                        i < k < w.object_bounds@.len() ==> (#[trigger] w.object_bounds@[k]).id@
                            != id
                },
            None => forall|k: int|
                0 <= k < w.object_bounds@.len() ==> (#[trigger] w.object_bounds@[k]).id@ != id,
        },
{
    let _ = live.by_id.lookup(id);
    the_last_bounds_count(bounds_in(world), id);
}

} // verus!
