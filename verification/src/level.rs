//! The level that the client plays in.
//!
//! Everything of a level is read from the device and belongs to one scene. When
//! the world moves on to another scene, all of it is replaced at once: a wall, a
//! ground or a paint of the level before would stand in the new one.

use vstd::prelude::*;

use crate::brush_render::{is_loaded, loadable, BrushGeometry, TerrainImage};
use crate::frame_loop::{are_brushes_of, load_scene_brushes};
use crate::grab_detect::{grips_of, is_sorted_from, parts_of, StaticScene};
use crate::protocol::WireWorld;
use crate::scene::Scene;
use crate::terrain_render::{load_scene_terrain, with_splat, Splat, TerrainGeometry};

verus! {

/// What was read of a scene. `E` is what only the engine can read of it, such as
/// its colliders.
#[derive(Debug)]
pub struct LevelFiles<E> {
    /// The scene's document, for what hands can grip and move.
    pub document: Option<Scene>,
    /// The scene's document, with its brushes meshed.
    pub brushes: Option<Scene>,
    /// The ground, where the scene has any.
    pub ground: Option<TerrainGeometry>,
    /// The painted weights of the ground.
    pub splat: Splat,
    pub engine: E,
}

/// Everything of the scene that is loaded.
#[derive(Debug)]
pub struct Level<E> {
    pub statics: StaticScene,
    /// The ground, with its painted weights where there are any.
    pub terrain: Option<(TerrainGeometry, Option<TerrainImage>)>,
    pub brushes: BrushGeometry,
    pub engine: E,
}

/// Whether a level is, in all its parts, what was read of a scene.
pub open spec fn is_level_of<E>(
    level: Level<E>,
    name: Seq<char>,
    files: LevelFiles<E>,
    limit: usize,
) -> bool {
    &&& is_sorted_from(level.statics, name, files.document)
    &&& level.terrain == with_splat(files.ground, files.splat)
    &&& are_brushes_of(level.brushes, files.brushes, limit)
    &&& level.engine == files.engine
}

/// Whether the brushes of what was read can be loaded.
pub open spec fn can_be_loaded<E>(files: LevelFiles<E>, limit: usize) -> bool {
    files.brushes matches Some(s) ==> loadable(s, limit)
}

/// The scene that a world asks for, where it is another than the one that is
/// loaded.
pub open spec fn asked_for<E>(level: Level<E>, world: Option<WireWorld>) -> Option<String> {
    match world {
        Some(w) => if w.scene_name@ == level.statics.scene_name@ {
            None
        } else {
            Some(w.scene_name)
        },
        None => None,
    }
}

/// Whether a level follows a world: another scene replaces all of the level by
/// what `read` reads of it, and the same scene replaces nothing.
pub open spec fn followed<E, R: FnOnce(&String) -> LevelFiles<E>>(
    before: Level<E>,
    after: Level<E>,
    world: Option<WireWorld>,
    limit: usize,
    read: R,
) -> bool {
    match asked_for(before, world) {
        Some(name) => exists|files: LevelFiles<E>| #[trigger]
            call_ensures(read, (&name,), files) && is_level_of(after, name@, files, limit),
        None => after == before,
    }
}

impl<E> Level<E> {
    /// The level of a scene, from what was read of it, with at most `limit`
    /// brush materials.
    pub fn load(scene_name: &String, files: LevelFiles<E>, limit: usize) -> (r: Level<E>)
        requires
            can_be_loaded(files, limit),
        ensures
            is_level_of(r, scene_name@, files, limit),
    {
        Level {
            statics: StaticScene::load(scene_name, files.document),
            terrain: load_scene_terrain(files.ground, files.splat),
            brushes: load_scene_brushes(&files.brushes, limit),
            engine: files.engine,
        }
    }

    /// Follows the world to another scene, and says whether it did. `read` reads
    /// a scene's files.
    pub fn follow<R: FnOnce(&String) -> LevelFiles<E>>(
        &mut self,
        world: &Option<WireWorld>,
        limit: usize,
        read: R,
    ) -> (r: bool)
        requires
            asked_for(*old(self), *world) matches Some(name) ==> {
                &&& call_requires(read, (&name,))
                &&& forall|files: LevelFiles<E>| #[trigger]
                    call_ensures(read, (&name,), files) ==> can_be_loaded(files, limit)
            },
        ensures
            r == (asked_for(*old(self), *world) is Some),
            followed(*old(self), *final(self), *world, limit, read),
    {
        match world {
            Some(w) => {
                if w.scene_name == self.statics.scene_name {
                    false
                } else {
                    let files = read(&w.scene_name);
                    *self = Level::load(&w.scene_name, files, limit);
                    true
                }
            },
            None => false,
        }
    }

    /// The painted weights of the ground, which the renderer is handed with a new
    /// level. A level that has none takes those of the level before away.
    pub fn splat(&self) -> (r: Option<&TerrainImage>)
        ensures
            match self.terrain {
                Some((ground, Some(image))) => r == Some(&image),
                _ => r is None,
            },
    {
        match &self.terrain {
            Some((_, Some(image))) => Some(image),
            _ => None,
        }
    }
}

/// Whether levels follow worlds, one after the other.
pub open spec fn followed_in_turn<E, R: FnOnce(&String) -> LevelFiles<E>>(
    levels: Seq<Level<E>>,
    worlds: Seq<Option<WireWorld>>,
    limit: usize,
    reads: Seq<R>,
) -> bool {
    &&& levels.len() == worlds.len() + 1
    &&& reads.len() == worlds.len()
    &&& forall|i: int|
        0 <= i < worlds.len() ==> followed(
            #[trigger] levels[i],
            levels[i + 1],
            worlds[i],
            limit,
            reads[i],
        )
}

/// Whether a level is, in all its parts, what was read of its scene when some
/// world asked for it, or the level that there was at first.
pub open spec fn comes_from_one_scene<E, R: FnOnce(&String) -> LevelFiles<E>>(
    level: Level<E>,
    first: Level<E>,
    worlds: Seq<Option<WireWorld>>,
    limit: usize,
    reads: Seq<R>,
) -> bool {
    level == first || exists|i: int, name: String, files: LevelFiles<E>|
        #![trigger call_ensures(reads[i], (&name,), files)]
        0 <= i < worlds.len() && (worlds[i] matches Some(w) && w.scene_name@ == name@)
            && call_ensures(reads[i], (&name,), files) && is_level_of(level, name@, files, limit)
}

/// A level is always all of one scene: its grip points, its ground, the paint on
/// it and its brushes were read together, and nothing of a level before stays.
/// It is the scene that the last world was in, and while worlds stay in that
/// scene nothing is read again.
pub proof fn nothing_of_the_level_before_stays<E, R: FnOnce(&String) -> LevelFiles<E>>(
    levels: Seq<Level<E>>,
    worlds: Seq<Option<WireWorld>>,
    limit: usize,
    reads: Seq<R>,
    n: int,
)
    requires
        followed_in_turn(levels, worlds, limit, reads),
        0 <= n <= worlds.len(),
    ensures
        comes_from_one_scene(levels[n], levels[0], worlds, limit, reads),
        n > 0 ==> (worlds[n - 1] matches Some(w) ==> levels[n].statics.scene_name@
            == w.scene_name@),
        n > 0 && asked_for(levels[n - 1], worlds[n - 1]) is None ==> levels[n] == levels[n - 1],
    decreases n,
{
    if n > 0 {
        nothing_of_the_level_before_stays(levels, worlds, limit, reads, n - 1);
        assert(followed(levels[n - 1], levels[n - 1 + 1], worlds[n - 1], limit, reads[n - 1]));
        if let Some(name) = asked_for(levels[n - 1], worlds[n - 1]) {
            let files = choose|files: LevelFiles<E>| #[trigger]
                call_ensures(reads[n - 1], (&name,), files) && is_level_of(
                    levels[n],
                    name@,
                    files,
                    limit,
                );
            assert(call_ensures(reads[n - 1], (&name,), files));
        }
    }
}

/// Every part of a level is what was read of its scene: the grip points and part
/// animations of its objects, its sky, its ground and the paint on it, its brushes,
/// and what the engine reads. What could not be read is not there.
pub proof fn a_level_is_what_was_read<E>(
    level: Level<E>,
    name: Seq<char>,
    files: LevelFiles<E>,
    limit: usize,
)
    requires
        is_level_of(level, name, files, limit),
    ensures
        level.statics.scene_name@ == name,
        level.engine == files.engine,
        files.document matches Some(scene) ==> level.statics.sky == scene.sky && forall|
            id: Seq<char>,
        |
            #![trigger level.statics.grip_points.lookup(id)]
            #![trigger level.statics.part_animations.lookup(id)]
            level.statics.grip_points.lookup(id) == grips_of(scene.objects@, id)
                && level.statics.part_animations.lookup(id) == parts_of(scene.objects@, id),
        files.document is None ==> level.statics.sky is None
            && level.statics.grip_points.entries@.len() == 0
            && level.statics.part_animations.entries@.len() == 0,
        level.terrain is Some <==> files.ground is Some,
        level.terrain matches Some((ground, paint)) ==> files.ground == Some(ground) && (
        paint is Some <==> files.splat is Read),
        level.terrain matches Some((_, Some(image))) ==> (files.splat matches Splat::Read {
            width,
            height,
            bytes,
        } && image.width == width && image.height == height && image.rgba@ == bytes@),
        files.brushes matches Some(scene) ==> is_loaded(level.brushes, scene, limit),
        files.brushes is None ==> level.brushes.objects@.len() == 0,
        level.brushes.vertices@.len() == 0 && level.brushes.indices@.len() == 0,
        level.brushes.built_for is None,
{
}

} // verus!
