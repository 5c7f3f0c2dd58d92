//! The loop that runs once for every frame.
//!
//! A pass through the loop begins with [`FrameLoop::begin`], hears what the
//! runtime has to say through [`FrameLoop::hear`], and asks [`FrameLoop::proceed`]
//! what comes next. Where a frame is drawn it ends with [`FrameLoop::drawn`].

use vstd::prelude::*;
use vstd::string::StringExecFns;

use crate::brush_render::{is_loaded, loadable, BrushGeometry};
use crate::debug_packet::DebugLink;
use crate::grab_detect::StaticScene;
use crate::protocol::{
    WireObjectBounds, WireRenderCuboid, WireRenderLaser, WireRenderLight, WireRenderMesh,
    WireRenderParticleEmitter, WireSoundState, WireWorld,
};
use crate::scalar::{Scalar, Vec3};
use crate::scene::Scene;
use crate::soundmap_client::{OcclusionGrid, SoundmapUpdate};
use crate::table::Table;
use crate::text::{decimal, to_decimal};

verus! {

/// A viewer that is missing is looked for once in so many frames.
pub const RECONNECT_EVERY: u64 = 60;

/// The controllers and the hands are logged once in so many frames.
pub const INPUT_LOG_EVERY: u64 = 90;

/// Waiting is logged once in so many passes.
pub const WAIT_LOG_EVERY: u64 = 50;

/// The frame's number is logged once in so many frames.
pub const FRAME_LOG_EVERY: u64 = 500;

/// How long a pass takes while there is no session.
pub const IDLE_MILLIS: u64 = 100;

/// The bit pattern of one ninetieth, the length of the first frame in seconds.
pub const FIRST_FRAME: u32 = 0x3c36_0b61;

/// Where the loop stands.
#[derive(Clone, Copy, Debug, PartialEq, Eq)]
pub struct FrameLoop {
    pub exit: bool,
    pub frame_count: u64,
    pub input_log_timer: u64,
    pub link: DebugLink,
}

/// What the runtime has to say.
#[derive(Clone, Copy, Debug, PartialEq, Eq, Structural)]
pub enum XrEvent {
    /// The session changed its state; `ends` where that ends it.
    StateChanged { ends: bool },
    /// The runtime is about to go away.
    InstanceLossPending,
    /// Something that does not matter here.
    Other,
}

/// How a pass through the loop begins.
#[derive(Clone, Copy, Debug, PartialEq, Eq, Structural)]
pub enum Begin {
    /// The client leaves.
    Leave,
    /// A viewer is looked for before the pass goes on.
    SeekViewer,
    /// The pass goes on.
    Go,
}

/// How a pass through the loop goes on.
#[derive(Debug)]
pub enum Proceed {
    /// The client leaves.
    Leave,
    /// There is no session yet: log the line, if there is one, wait, and begin
    /// the next pass.
    Idle(Option<String>),
    /// A frame begins.
    Frame,
}

/// The line that says that the client waits for a session.
pub open spec fn idle_line(frame_count: u64) -> Seq<char> {
    "idle: waiting for XR session READY ("@ + decimal((frame_count / 10) as nat) + "s elapsed)"@
}

/// The line that says that a session does not want frames.
pub open spec fn waiting_line(frame_count: u64) -> Seq<char> {
    "waiting: session running but should_render=false ("@ + decimal((frame_count / 10) as nat)
        + "s elapsed)"@
}

/// The line that counts a frame.
pub open spec fn frame_line(frame_count: u64) -> Seq<char> {
    "Frame "@ + decimal(frame_count as nat)
}

/// Whether a line is logged, and is the right one, just in every so many passes.
pub open spec fn logs(
    line: Option<String>,
    count: u64,
    every: u64,
    text: Seq<char>,
) -> bool {
    match line {
        Some(l) => count % every == 0 && l@ == text,
        None => count % every != 0,
    }
}

/// Whether a pass begins as it should: the client leaves once it is to, and a viewer
/// that is missing is looked for once in so many passes.
pub open spec fn begins(before: FrameLoop, after: FrameLoop, r: Begin) -> bool {
    &&& after.exit == before.exit
    &&& after.frame_count == before.frame_count
    &&& after.input_log_timer == before.input_log_timer
    &&& after.link.connected == before.link.connected
    &&& r == (if before.exit {
        Begin::Leave
    } else if !before.link.connected && before.link.reconnect_timer + 1 == RECONNECT_EVERY {
        Begin::SeekViewer
    } else {
        Begin::Go
    })
    &&& after.link.reconnect_timer == (if before.exit || before.link.connected {
        before.link.reconnect_timer as int
    } else {
        (before.link.reconnect_timer + 1) % (RECONNECT_EVERY as int)
    })
}

/// Whether what the runtime said was heard: the client is to leave where the session
/// ends or the runtime goes away.
pub open spec fn hears(
    before: FrameLoop,
    after: FrameLoop,
    event: Option<XrEvent>,
    more: bool,
) -> bool {
    &&& more == (event is Some)
    &&& after == (FrameLoop {
        exit: before.exit || (match event {
            Some(XrEvent::StateChanged { ends }) => ends,
            Some(XrEvent::InstanceLossPending) => true,
            _ => false,
        }),
        ..before
    })
}

/// Whether a pass goes on as it should.
pub open spec fn proceeds(before: FrameLoop, after: FrameLoop, running: bool, r: Proceed) -> bool {
    match r {
        Proceed::Leave => before.exit && after == before,
        Proceed::Idle(line) => !before.exit && !running && logs(
            line,
            before.frame_count,
            WAIT_LOG_EVERY,
            idle_line(before.frame_count),
        ) && after == (FrameLoop { frame_count: (before.frame_count + 1) as u64, ..before }),
        Proceed::Frame => !before.exit && running && after == before,
    }
}

/// Whether a look at the controllers was counted, and is logged where it should be.
pub open spec fn syncs(before: FrameLoop, after: FrameLoop, logged: bool) -> bool {
    &&& logged == (before.input_log_timer + 1 == INPUT_LOG_EVERY)
    &&& after == (FrameLoop {
        input_log_timer: ((before.input_log_timer + 1) % (INPUT_LOG_EVERY as int)) as u64,
        ..before
    })
}

/// Whether a frame that is not wanted was counted, and is logged where it should be.
pub open spec fn passes_over(before: FrameLoop, after: FrameLoop, line: Option<String>) -> bool {
    &&& logs(line, before.frame_count, WAIT_LOG_EVERY, waiting_line(before.frame_count))
    &&& after == (FrameLoop { frame_count: (before.frame_count + 1) as u64, ..before })
}

/// Whether a frame that was drawn was counted, and is logged where it should be.
pub open spec fn counts_frame(before: FrameLoop, after: FrameLoop, line: Option<String>) -> bool {
    &&& after == (FrameLoop { frame_count: (before.frame_count + 1) as u64, ..before })
    &&& logs(line, after.frame_count, FRAME_LOG_EVERY, frame_line(after.frame_count))
}

fn elapsed(before: &str, frame_count: u64) -> (r: String)
    ensures
        r@ == before@ + decimal((frame_count / 10) as nat) + "s elapsed)"@,
{
    let mut line = String::from_str(before);
    line.append(to_decimal(frame_count / 10).as_str());
    line.append("s elapsed)");
    line
}

impl FrameLoop {
    /// Whether the timers stand where the loop lets them.
    pub open spec fn in_step(self) -> bool {
        &&& self.input_log_timer < INPUT_LOG_EVERY
        &&& self.link.reconnect_timer < RECONNECT_EVERY
    }

    /// Before the first pass.
    pub fn new() -> (r: FrameLoop)
        ensures
            r.in_step(),
            r == (FrameLoop {
                exit: false,
                frame_count: 0,
                input_log_timer: 0,
                link: DebugLink { connected: false, reconnect_timer: 0 },
            }),
    {
        FrameLoop {
            exit: false,
            frame_count: 0,
            input_log_timer: 0,
            link: DebugLink { connected: false, reconnect_timer: 0 },
        }
    }

    /// Begins a pass, after the activity was heard.
    pub fn begin(&mut self) -> (r: Begin)
        requires
            old(self).in_step(),
        ensures
            final(self).in_step(),
            begins(*old(self), *final(self), r),
    {
        if self.exit {
            return Begin::Leave;
        }
        if !self.link.connected {
            self.link.reconnect_timer = self.link.reconnect_timer + 1;
            if self.link.reconnect_timer >= RECONNECT_EVERY {
                self.link.reconnect_timer = 0;
                return Begin::SeekViewer;
            }
        }
        Begin::Go
    }

    /// Notes that a viewer was found.
    pub fn viewer_found(&mut self)
        ensures
            *final(self) == (FrameLoop {
                link: DebugLink { connected: true, ..old(self).link },
                ..*old(self)
            }),
    {
        self.link.connected = true;
    }

    /// Hears what the runtime has to say. `None` says that there is nothing more;
    /// the result is whether there may be.
    pub fn hear(&mut self, event: Option<XrEvent>) -> (r: bool)
        ensures
            hears(*old(self), *final(self), event, r),
    {
        match event {
            Some(XrEvent::StateChanged { ends }) => {
                if ends {
                    self.exit = true;
                }
                true
            },
            Some(XrEvent::InstanceLossPending) => {
                self.exit = true;
                true
            },
            Some(XrEvent::Other) => true,
            None => false,
        }
    }

    /// Says how a pass goes on once the runtime has nothing more to say.
    pub fn proceed(&mut self, running: bool) -> (r: Proceed)
        requires
            old(self).frame_count < u64::MAX,
        ensures
            proceeds(*old(self), *final(self), running, r),
    {
        if self.exit {
            return Proceed::Leave;
        }
        if !running {
            let line = if self.frame_count % WAIT_LOG_EVERY == 0 {
                Some(elapsed("idle: waiting for XR session READY (", self.frame_count))
            } else {
                None
            };
            self.frame_count = self.frame_count + 1;
            return Proceed::Idle(line);
        }
        Proceed::Frame
    }

    /// Counts a look at the controllers and the hands, and says whether they are
    /// logged.
    pub fn synced(&mut self) -> (r: bool)
        requires
            old(self).in_step(),
        ensures
            final(self).in_step(),
            syncs(*old(self), *final(self), r),
    {
        self.input_log_timer = self.input_log_timer + 1;
        if self.input_log_timer >= INPUT_LOG_EVERY {
            self.input_log_timer = 0;
            return true;
        }
        false
    }

    /// Counts a frame that is not wanted, and says what is logged of it.
    pub fn not_wanted(&mut self) -> (r: Option<String>)
        requires
            old(self).frame_count < u64::MAX,
        ensures
            passes_over(*old(self), *final(self), r),
    {
        let line = if self.frame_count % WAIT_LOG_EVERY == 0 {
            Some(
                elapsed("waiting: session running but should_render=false (", self.frame_count),
            )
        } else {
            None
        };
        self.frame_count = self.frame_count + 1;
        line
    }

    /// Counts a frame that was drawn, and says what is logged of it.
    pub fn drawn(&mut self) -> (r: Option<String>)
        requires
            old(self).frame_count < u64::MAX,
        ensures
            counts_frame(*old(self), *final(self), r),
    {
        self.frame_count = self.frame_count + 1;
        if self.frame_count % FRAME_LOG_EVERY == 0 {
            let mut line = String::from_str("Frame ");
            line.append(to_decimal(self.frame_count).as_str());
            Some(line)
        } else {
            None
        }
    }
}

/// How long a frame took: what was measured, or the usual length where there was
/// no frame before.
pub fn frame_length(measured: Option<Scalar>) -> (r: Scalar)
    ensures
        r == (match measured {
            Some(dt) => dt,
            None => Scalar { bits: FIRST_FRAME },
        }),
{
    match measured {
        Some(dt) => dt,
        None => Scalar { bits: FIRST_FRAME },
    }
}

// ---------------------------------------------------------------------------
// What the server says of the world
// ---------------------------------------------------------------------------

/// What the server last said of where the player stands.
#[derive(Clone, Copy, Debug, PartialEq, Eq)]
pub struct ServerView {
    pub player_offset: Option<Vec3>,
    pub player_yaw: Option<Scalar>,
}

/// The line that says that the scene changed.
pub open spec fn change_line(from: Seq<char>, to: Seq<char>) -> Seq<char> {
    "Scene changed: '"@ + from + "' -> '"@ + to + "' — reloading local grip-point data"@
}

/// Takes in what the world says of the player, and returns the line to log where
/// the world is in another scene than the one that is loaded. A world that is
/// not there says nothing.
pub fn observe(world: &Option<WireWorld>, view: &mut ServerView, loaded: &StaticScene) -> (r:
    Option<String>)
    ensures
        *final(view) == (match world {
            Some(w) => ServerView {
                player_offset: Some(w.player_offset),
                player_yaw: Some(w.player_yaw),
            },
            None => *old(view),
        }),
        match r {
            Some(line) => *world matches Some(w) && w.scene_name@ != loaded.scene_name@ && line@
                == change_line(loaded.scene_name@, w.scene_name@),
            None => *world matches Some(w) ==> w.scene_name@ == loaded.scene_name@,
        },
{
    match world {
        Some(w) => {
            view.player_offset = Some(w.player_offset);
            view.player_yaw = Some(w.player_yaw);
            if w.scene_name == loaded.scene_name {
                None
            } else {
                let mut line = String::from_str("Scene changed: '");
                line.append(loaded.scene_name.as_str());
                line.append("' -> '");
                line.append(w.scene_name.as_str());
                line.append("' — reloading local grip-point data");
                Some(line)
            }
        },
        None => None,
    }
}

/// The lists of the world that a frame works through.
#[derive(Clone, Copy, Debug)]
pub struct WorldLists<'a> {
    pub cuboids: &'a [WireRenderCuboid],
    pub meshes: &'a [WireRenderMesh],
    pub lights: &'a [WireRenderLight],
    pub object_bounds: &'a [WireObjectBounds],
    pub particle_emitters: &'a [WireRenderParticleEmitter],
    pub lasers: &'a [WireRenderLaser],
    pub hidden_brushes: &'a [String],
    pub sounds: &'a [WireSoundState],
}

/// The lists of the world that a frame works through. They are empty where there
/// is no world yet, so the level is drawn whole: a wall that was not told that it
/// is gone is a frame behind, and one that vanishes is a hole that nobody made.
pub fn world_lists(world: &Option<WireWorld>) -> (r: WorldLists)
    ensures
        match world {
            Some(w) => r.cuboids@ == w.cuboids@ && r.meshes@ == w.meshes@ && r.lights@ == w.lights@
                && r.object_bounds@ == w.object_bounds@ && r.particle_emitters@
                == w.particle_emitters@ && r.lasers@ == w.lasers@ && r.hidden_brushes@
                == w.hidden_brushes@ && r.sounds@ == w.sounds@,
            None => r.cuboids@.len() == 0 && r.meshes@.len() == 0 && r.lights@.len() == 0
                && r.object_bounds@.len() == 0 && r.particle_emitters@.len() == 0
                && r.lasers@.len() == 0 && r.hidden_brushes@.len() == 0 && r.sounds@.len() == 0,
        },
{
    match world {
        Some(w) => WorldLists {
            cuboids: w.cuboids.as_slice(),
            meshes: w.meshes.as_slice(),
            lights: w.lights.as_slice(),
            object_bounds: w.object_bounds.as_slice(),
            particle_emitters: w.particle_emitters.as_slice(),
            lasers: w.lasers.as_slice(),
            hidden_brushes: w.hidden_brushes.as_slice(),
            sounds: w.sounds.as_slice(),
        },
        None => WorldLists {
            cuboids: &[],
            meshes: &[],
            lights: &[],
            object_bounds: &[],
            particle_emitters: &[],
            lasers: &[],
            hidden_brushes: &[],
            sounds: &[],
        },
    }
}

// ---------------------------------------------------------------------------
// Occlusion
// ---------------------------------------------------------------------------

/// The last update for an object among updates.
pub open spec fn last_grid(updates: Seq<SoundmapUpdate>, id: Seq<char>) -> Option<OcclusionGrid>
    decreases updates.len(),
{
    if updates.len() == 0 {
        None
    } else if updates.last().object_id@ == id {
        Some(updates.last().grid)
    } else {
        last_grid(updates.drop_last(), id)
    }
}

/// Takes in the grids that arrived. A later one for an object replaces an
/// earlier.
pub fn take_soundmaps(grids: &mut Table<OcclusionGrid>, updates: Vec<SoundmapUpdate>)
    ensures
        forall|id: Seq<char>| #[trigger]
            final(grids).lookup(id) == match last_grid(updates@, id) {
                Some(g) => Some(g),
                None => old(grids).lookup(id),
            },
{
    let ghost all = updates@;
    for update in it: updates
        invariant
            it.seq() == all,
            forall|id: Seq<char>| #[trigger]
                grids.lookup(id) == match last_grid(all.take(it.index() as int), id) {
                    Some(g) => Some(g),
                    None => old(grids).lookup(id),
                },
    {
        let ghost n = it.index() as int;
        let ghost had = *grids;
        proof {
            assert(all.take(n + 1).drop_last() =~= all.take(n));
        }
        grids.insert(update.object_id, update.grid);
        proof {
            assert forall|id: Seq<char>| #[trigger]
                grids.lookup(id) == (match last_grid(all.take(n + 1), id) {
                    Some(g) => Some(g),
                    None => old(grids).lookup(id),
                }) by {
                let _ = had.lookup(id);
            }
        }
    }
    proof {
        assert(all.take(all.len() as int) =~= all);
    }
}

/// The last sound of an object among sounds.
pub open spec fn last_sound(sounds: Seq<WireSoundState>, id: Seq<char>) -> Option<int>
    decreases sounds.len(),
{
    if sounds.len() == 0 {
        None
    } else if sounds.last().object_id@ == id {
        Some(sounds.len() - 1)
    } else {
        last_sound(sounds.drop_last(), id)
    }
}

/// Whether a table says how much of each sound is held back: what `measure` makes
/// of the sound and its object's grid, and nothing for a sound without a grid.
pub open spec fn occluded<M: Fn(&WireSoundState, &OcclusionGrid) -> Scalar>(
    t: Table<Scalar>,
    sounds: Seq<WireSoundState>,
    grids: Table<OcclusionGrid>,
    measure: M,
) -> bool {
    forall|id: Seq<char>|
        match last_sound(sounds, id) {
            Some(i) => match grids.lookup(id) {
                Some(grid) => (#[trigger] t.lookup(id)) matches Some(v) && call_ensures(
                    measure,
                    (&sounds[i], &grid),
                    v,
                ),
                None => t.lookup(id) is None,
            },
            None => t.lookup(id) is None,
        }
}

proof fn last_sound_in_range(sounds: Seq<WireSoundState>, id: Seq<char>)
    ensures
        last_sound(sounds, id) matches Some(i) ==> 0 <= i < sounds.len(),
    decreases sounds.len(),
{
    if sounds.len() > 0 {
        last_sound_in_range(sounds.drop_last(), id);
    }
}

/// How much of each sound is held back, for the sounds whose objects have a grid.
pub fn occlusion<M: Fn(&WireSoundState, &OcclusionGrid) -> Scalar>(
    sounds: &[WireSoundState],
    grids: &Table<OcclusionGrid>,
    measure: &M,
) -> (r: Table<Scalar>)
    requires
        forall|s: &WireSoundState, g: &OcclusionGrid| #[trigger] call_requires(*measure, (s, g)),
    ensures
        occluded(r, sounds@, *grids, *measure),
{
    let mut out: Table<Scalar> = Table::new();
    let mut i: usize = 0;
    while i < sounds.len()
        invariant
            i <= sounds@.len(),
            forall|s: &WireSoundState, g: &OcclusionGrid| #[trigger]
                call_requires(*measure, (s, g)),
            occluded(out, sounds@.take(i as int), *grids, *measure),
        decreases sounds@.len() - i,
    {
        let sound = &sounds[i];
        let ghost had = out;
        if let Some(grid) = grids.get(&sound.object_id) {
            let held_back = measure(sound, grid);
            out.insert(sound.object_id.clone(), held_back);
        }
        proof {
            let now = sounds@.take(i + 1);
            assert(now.drop_last() =~= sounds@.take(i as int));
            assert forall|id: Seq<char>|
                match last_sound(now, id) {
                    Some(j) => match grids.lookup(id) {
                        Some(grid) => (#[trigger] out.lookup(id)) matches Some(v) && call_ensures(
                            *measure,
                            (&now[j], &grid),
                            v,
                        ),
                        None => out.lookup(id) is None,
                    },
                    None => out.lookup(id) is None,
                } by {
                last_sound_in_range(sounds@.take(i as int), id);
                let _ = had.lookup(id);
            }
        }
        i = i + 1;
    }
    proof {
        assert(sounds@.take(i as int) =~= sounds@);
    }
    out
}

// ---------------------------------------------------------------------------
// Scenes
// ---------------------------------------------------------------------------

/// The name of the file that a scene is in, below the directory of scenes.
pub fn scene_file(scene_name: &String) -> (r: String)
    ensures
        r@ == scene_name@ + ".json"@,
{
    let mut file = scene_name.clone();
    file.append(".json");
    file
}

/// Whether geometry is that of a scene's brushes, with at most `limit` materials
/// and nothing assembled yet. A scene that could not be read has none.
pub open spec fn are_brushes_of(r: BrushGeometry, scene: Option<Scene>, limit: usize) -> bool {
    match scene {
        Some(s) => is_loaded(r, s, limit),
        None => r.objects@.len() == 0 && r.materials@.len() == 0 && r.vertices@.len() == 0
            && r.indices@.len() == 0 && r.built_for is None,
    }
}

/// The brushes of a scene, with at most `limit` materials. A scene that could
/// not be read has none: a level without walls is better than none.
pub fn load_scene_brushes(scene: &Option<Scene>, limit: usize) -> (r: BrushGeometry)
    requires
        *scene matches Some(s) ==> loadable(s, limit),
    ensures
        are_brushes_of(r, *scene, limit),
{
    match scene {
        Some(s) => BrushGeometry::load(s, limit),
        None => BrushGeometry::empty(),
    }
}

/// A viewer that is missing is looked for in every sixtieth pass since it went
/// missing, and in no other. `passes` are the states at the beginning of the passes
/// and `ends` those after it; in between nothing touches the count.
pub proof fn a_missing_viewer_is_looked_for_every_sixty_passes(
    passes: Seq<FrameLoop>,
    ends: Seq<FrameLoop>,
    results: Seq<Begin>,
    n: int,
)
    requires
        0 <= n < passes.len(),
        ends.len() == passes.len(),
        results.len() == passes.len(),
        passes[0].link.reconnect_timer == 0,
        forall|i: int|
            0 <= i < passes.len() ==> !(#[trigger] passes[i]).exit && !passes[i].link.connected,
        forall|i: int|
            0 <= i < passes.len() ==> begins(#[trigger] passes[i], ends[i], results[i]),
        forall|i: int|
            0 < i < passes.len() ==> (#[trigger] passes[i]).link.reconnect_timer
                == ends[i - 1].link.reconnect_timer,
    ensures
        results[n] is SeekViewer <==> (n + 1) % 60 == 0,
        results[n] is Go <==> (n + 1) % 60 != 0,
        ends[n].link.reconnect_timer == (n + 1) % 60,
    decreases n,
{
    let _ = passes[n];
    if n > 0 {
        a_missing_viewer_is_looked_for_every_sixty_passes(passes, ends, results, n - 1);
        assert(passes[n].link.reconnect_timer == n % 60);
    }
}

/// The controllers and the hands are logged at every ninetieth look, and at no
/// other.
pub proof fn every_ninetieth_look_is_logged(
    looks: Seq<FrameLoop>,
    ends: Seq<FrameLoop>,
    logged: Seq<bool>,
    n: int,
)
    requires
        0 <= n < looks.len(),
        ends.len() == looks.len(),
        logged.len() == looks.len(),
        looks[0].input_log_timer == 0,
        forall|i: int| 0 <= i < looks.len() ==> syncs(#[trigger] looks[i], ends[i], logged[i]),
        forall|i: int|
            0 < i < looks.len() ==> (#[trigger] looks[i]).input_log_timer
                == ends[i - 1].input_log_timer,
    ensures
        logged[n] <==> (n + 1) % 90 == 0,
        ends[n].input_log_timer == (n + 1) % 90,
        ends[n].frame_count == looks[n].frame_count,
        ends[n].exit == looks[n].exit,
        ends[n].link == looks[n].link,
    decreases n,
{
    let _ = looks[n];
    if n > 0 {
        every_ninetieth_look_is_logged(looks, ends, logged, n - 1);
        assert(looks[n].input_log_timer == n % 90);
    }
}

/// The client leaves once the session has ended or the runtime goes away, and never
/// else: nothing that the runtime says before that makes it leave, and nothing that
/// it says after that keeps it. While it stays, it draws where the session runs and
/// idles where it does not. Every pass that does not leave at once is counted once,
/// whichever way it went.
pub proof fn the_client_leaves_when_the_session_ends(
    before: FrameLoop,
    heard: FrameLoop,
    after: FrameLoop,
    done: FrameLoop,
    event: XrEvent,
    more: bool,
    running: bool,
    r: Proceed,
    wanted: bool,
    line: Option<String>,
)
    requires
        hears(before, heard, Some(event), more),
        proceeds(heard, after, running, r),
        before.frame_count < u64::MAX,
        r is Frame ==> if wanted {
            counts_frame(after, done, line)
        } else {
            passes_over(after, done, line)
        },
    ensures
        more,
        r is Leave <==> before.exit || event is InstanceLossPending || (
        event matches XrEvent::StateChanged { ends } && ends),
        !(r is Leave) ==> (r is Frame <==> running),
        r is Leave ==> after.frame_count == before.frame_count,
        r is Idle ==> after.frame_count == before.frame_count + 1,
        r is Frame ==> done.frame_count == before.frame_count + 1,
        heard.link == before.link && after.link == before.link,
        heard.input_log_timer == before.input_log_timer,
        after.input_log_timer == before.input_log_timer,
        r is Frame ==> done.link == before.link && done.input_log_timer == before.input_log_timer,
        r matches Proceed::Idle(said) ==> (said is Some <==> before.frame_count % 50 == 0),
        r is Frame && wanted ==> (line is Some <==> (before.frame_count + 1) % 500 == 0),
        r is Frame && !wanted ==> (line is Some <==> before.frame_count % 50 == 0),
{
}

/// The grid of an object is the last that arrived for it.
pub proof fn the_last_grid_counts(updates: Seq<SoundmapUpdate>, id: Seq<char>)
    ensures
        match last_grid(updates, id) {
            Some(g) => exists|i: int|
                {
                    &&& 0 <= i < updates.len()
                    &&& (#[trigger] updates[i]).object_id@ == id
                    &&& updates[i].grid == g
                    &&& forall|k: int|
                        i < k < updates.len() ==> (#[trigger] updates[k]).object_id@ != id
                },
            None => forall|k: int|
                0 <= k < updates.len() ==> (#[trigger] updates[k]).object_id@ != id,
        },
    decreases updates.len(),
{
    if updates.len() > 0 {
        let front = updates.drop_last();
        let last = updates.len() - 1;
        assert(forall|k: int| 0 <= k < front.len() ==> front[k] == #[trigger] updates[k]);
        if updates.last().object_id@ == id {
            assert(updates[last].object_id@ == id);
        } else {
            the_last_grid_counts(front, id);
            if let Some(g) = last_grid(front, id) {
                let i = choose|i: int|
                    {
                        &&& 0 <= i < front.len()
                        &&& (#[trigger] front[i]).object_id@ == id
                        &&& front[i].grid == g
                        &&& forall|k: int|
                            i < k < front.len() ==> (#[trigger] front[k]).object_id@ != id
                    };
                assert(updates[i].object_id@ == id);
                assert forall|k: int| i < k < updates.len() implies (
                #[trigger] updates[k]).object_id@ != id by {
                    if k < last {
                        assert(front[k].object_id@ != id);
                    }
                }
            }
        }
    }
}

/// As much of a sound is held back as `measure` makes of it and of the grid of its
/// own object. A sound whose object has no grid has no entry, and neither has an
/// object without a sound. Of two sounds of one object the later counts.
pub proof fn each_sound_is_held_back_by_its_own_grid<
    M: Fn(&WireSoundState, &OcclusionGrid) -> Scalar,
>(
    t: Table<Scalar>,
    sounds: Seq<WireSoundState>,
    grids: Table<OcclusionGrid>,
    measure: M,
    id: Seq<char>,
)
    requires
        occluded(t, sounds, grids, measure),
    ensures
        t.lookup(id) is Some <==> grids.lookup(id) is Some && exists|i: int|
            0 <= i < sounds.len() && (#[trigger] sounds[i]).object_id@ == id,
        forall|i: int|
            0 <= i < sounds.len() && (#[trigger] sounds[i]).object_id@ == id && (forall|k: int|
                i < k < sounds.len() ==> (#[trigger] sounds[k]).object_id@ != id) && grids.lookup(
                id,
            ) is Some ==> call_ensures(
                measure,
                (&sounds[i], &grids.lookup(id)->0),
                t.lookup(id)->0,
            ),
{
    last_sound_is_last(sounds, id);
    let _ = t.lookup(id);
    if let Some(at) = last_sound(sounds, id) {
        assert(sounds[at].object_id@ == id);
        assert forall|i: int|
            0 <= i < sounds.len() && (#[trigger] sounds[i]).object_id@ == id && (forall|k: int|
                i < k < sounds.len() ==> (#[trigger] sounds[k]).object_id@ != id) implies i
            == at by {
            if i < at {
                assert(sounds[at].object_id@ != id);
            }
        }
    }
}

proof fn last_sound_is_last(sounds: Seq<WireSoundState>, id: Seq<char>)
    ensures
        match last_sound(sounds, id) {
            Some(i) => 0 <= i < sounds.len() && sounds[i].object_id@ == id && forall|k: int|
                i < k < sounds.len() ==> (#[trigger] sounds[k]).object_id@ != id,
            None => forall|k: int|
                0 <= k < sounds.len() ==> (#[trigger] sounds[k]).object_id@ != id,
        },
    decreases sounds.len(),
{
    if sounds.len() > 0 {
        let front = sounds.drop_last();
        last_sound_is_last(front, id);
        assert(forall|k: int| 0 <= k < front.len() ==> front[k] == #[trigger] sounds[k]);
    }
}

} // verus!
