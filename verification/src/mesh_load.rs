//! Which meshes still have to be loaded.

use vstd::prelude::*;

use crate::engine::{copy_texts, lists, texts};
use crate::protocol::WireRenderMesh;
use crate::table::{position, Table};

verus! {

/// A mesh file, and the objects that wait for it.
pub struct Batch {
    pub path: Seq<char>,
    pub ids: Seq<Seq<char>>,
}

/// What the requests for files say.
pub open spec fn batches(requests: Seq<(String, Vec<String>)>) -> Seq<Batch> {
    requests.map_values(|r: (String, Vec<String>)| Batch { path: r.0@, ids: texts(r.1@) })
}

/// Whether an object is among those that are asked for.
pub open spec fn asks_for(wanted: Seq<(Seq<char>, Seq<char>)>, id: Seq<char>) -> bool {
    exists|k: int| 0 <= k < wanted.len() && (#[trigger] wanted[k]).1 == id
}

/// The files and objects to ask for: those of the meshes that are neither
/// loaded nor asked for already, each object once.
pub open spec fn wanted<M>(
    meshes: Seq<WireRenderMesh>,
    loaded: Seq<(String, M)>,
    requested: Seq<Seq<char>>,
) -> Seq<(Seq<char>, Seq<char>)>
    decreases meshes.len(),
{
    if meshes.len() == 0 {
        Seq::empty()
    } else {
        let before = wanted(meshes.drop_last(), loaded, requested);
        let mesh = meshes.last();
        if position(loaded, mesh.id@) is Some || requested.contains(mesh.id@) || asks_for(
            before,
            mesh.id@,
        ) {
            before
        } else {
            before.push((mesh.path@, mesh.id@))
        }
    }
}

/// The objects among files and objects.
pub open spec fn objects(wanted: Seq<(Seq<char>, Seq<char>)>) -> Seq<Seq<char>> {
    wanted.map_values(|w: (Seq<char>, Seq<char>)| w.1)
}

/// Which batch a file has, if it has one.
pub open spec fn batch_of(groups: Seq<Batch>, path: Seq<char>) -> Option<int>
    decreases groups.len(),
{
    if groups.len() == 0 {
        None
    } else {
        match batch_of(groups.drop_last(), path) {
            Some(i) => Some(i),
            None => if groups.last().path == path {
                Some(groups.len() - 1)
            } else {
                None
            },
        }
    }
}

/// Files and objects gathered by file, so that each file is read once.
pub open spec fn gathered(wanted: Seq<(Seq<char>, Seq<char>)>) -> Seq<Batch>
    decreases wanted.len(),
{
    if wanted.len() == 0 {
        Seq::empty()
    } else {
        let before = gathered(wanted.drop_last());
        let (path, id) = wanted.last();
        match batch_of(before, path) {
            Some(i) => before.update(i, Batch { path, ids: before[i].ids.push(id) }),
            None => before.push(Batch { path, ids: seq![id] }),
        }
    }
}

proof fn batch_in_range(groups: Seq<Batch>, path: Seq<char>)
    ensures
        match batch_of(groups, path) {
            Some(i) => 0 <= i < groups.len() && groups[i].path == path,
            None => true,
        },
    decreases groups.len(),
{
    if groups.len() > 0 {
        batch_in_range(groups.drop_last(), path);
    }
}

fn find_batch(requests: &Vec<(String, Vec<String>)>, path: &String) -> (r: Option<usize>)
    ensures
        match r {
            Some(i) => batch_of(batches(requests@), path@) == Some(i as int) && i
                < requests@.len(),
            None => batch_of(batches(requests@), path@) is None,
        },
{
    let ghost all = batches(requests@);
    let mut found: Option<usize> = None;
    let mut i: usize = 0;
    while i < requests.len()
        invariant
            i <= requests@.len(),
            all == batches(requests@),
            match found {
                Some(f) => batch_of(all.take(i as int), path@) == Some(f as int) && f < i,
                None => batch_of(all.take(i as int), path@) is None,
            },
        decreases requests@.len() - i,
    {
        proof {
            assert(all.take(i + 1).drop_last() =~= all.take(i as int));
        }
        if found.is_none() && requests[i].0 == *path {
            found = Some(i);
        }
        i = i + 1;
    }
    proof {
        assert(all.take(i as int) =~= all);
    }
    found
}

fn add_to_batch(requests: &mut Vec<(String, Vec<String>)>, path: &String, id: &String)
    ensures
        batches(final(requests)@) == (match batch_of(batches(old(requests)@), path@) {
            Some(i) => batches(old(requests)@).update(
                i,
                Batch { path: path@, ids: batches(old(requests)@)[i].ids.push(id@) },
            ),
            None => batches(old(requests)@).push(Batch { path: path@, ids: seq![id@] }),
        }),
{
    let ghost had = requests@;
    match find_batch(requests, path) {
        Some(i) => {
            proof {
                batch_in_range(batches(had), path@);
            }
            let mut ids: Vec<String> = copy_texts(&requests[i].1);
            let ghost copied = ids@;
            ids.push(id.clone());
            proof {
                assert(texts(ids@) =~= texts(copied).push(id@));
            }
            requests.set(i, (path.clone(), ids));
            proof {
                assert(batches(requests@) =~= batches(had).update(
                    i as int,
                    Batch { path: path@, ids: batches(had)[i as int].ids.push(id@) },
                ));
            }
        },
        None => {
            let mut ids: Vec<String> = Vec::new();
            ids.push(id.clone());
            proof {
                assert(texts(ids@) =~= seq![id@]);
            }
            requests.push((path.clone(), ids));
            proof {
                assert(batches(requests@) =~= batches(had).push(
                    Batch { path: path@, ids: seq![id@] },
                ));
            }
        },
    }
}

/// Asks for the meshes of the world that are neither loaded nor asked for, file
/// by file, and remembers what was asked for.
pub fn queue_new_meshes<M>(
    world_meshes: &[WireRenderMesh],
    mesh_cache: &Table<M>,
    requested: &mut Vec<String>,
) -> (r: Vec<(String, Vec<String>)>)
    ensures
        batches(r@) == gathered(
            wanted(world_meshes@, mesh_cache.entries@, texts(old(requested)@)),
        ),
        texts(final(requested)@) == texts(old(requested)@) + objects(
            wanted(world_meshes@, mesh_cache.entries@, texts(old(requested)@)),
        ),
{
    let ghost before = texts(requested@);
    let ghost mut list: Seq<(Seq<char>, Seq<char>)> = Seq::empty();
    let mut requests: Vec<(String, Vec<String>)> = Vec::new();
    let mut i: usize = 0;
    proof {
        assert(batches(requests@) =~= gathered(list));
        assert(texts(requested@) =~= before + objects(list));
        assert(world_meshes@.take(0) =~= Seq::empty());
    }
    while i < world_meshes.len()
        invariant
            i <= world_meshes@.len(),
            list == wanted(world_meshes@.take(i as int), mesh_cache.entries@, before),
            batches(requests@) == gathered(list),
            texts(requested@) == before + objects(list),
        decreases world_meshes@.len() - i,
    {
        let mesh = &world_meshes[i];
        proof {
            assert(world_meshes@.take(i + 1).drop_last() =~= world_meshes@.take(i as int));
            asked_for_or_before(before, list, mesh.id@);
        }
        if !mesh_cache.contains_key(&mesh.id) && !lists(requested.as_slice(), &mesh.id) {
            let ghost had = requested@;
            add_to_batch(&mut requests, &mesh.path, &mesh.id);
            requested.push(mesh.id.clone());
            proof {
                let entry = (mesh.path@, mesh.id@);
                assert(list.push(entry).drop_last() =~= list);
                assert(objects(list.push(entry)) =~= objects(list).push(mesh.id@));
                assert(texts(requested@) =~= texts(had).push(mesh.id@));
                assert(texts(requested@) =~= before + objects(list.push(entry)));
                list = list.push(entry);
            }
        }
        i = i + 1;
    }
    proof {
        assert(world_meshes@.take(i as int) =~= world_meshes@);
    }
    requests
}

proof fn asked_for_or_before(
    before: Seq<Seq<char>>,
    list: Seq<(Seq<char>, Seq<char>)>,
    id: Seq<char>,
)
    ensures
        (before + objects(list)).contains(id) <==> before.contains(id) || asks_for(list, id),
{
    let all = before + objects(list);
    if all.contains(id) {
        let k = choose|k: int| 0 <= k < all.len() && all[k] == id;
        if k < before.len() {
            assert(before[k] == id);
        } else {
            assert(list[k - before.len()].1 == id);
        }
    }
    if before.contains(id) {
        let k = choose|k: int| 0 <= k < before.len() && before[k] == id;
        assert(all[k] == id);
    }
    if asks_for(list, id) {
        let k = choose|k: int| 0 <= k < list.len() && (#[trigger] list[k]).1 == id;
        assert(all[before.len() + k] == id);
    }
}

/// Nothing is asked for that is loaded or was asked for before, and no object is
/// asked for twice.
pub proof fn objects_are_asked_for_once<M>(
    meshes: Seq<WireRenderMesh>,
    loaded: Seq<(String, M)>,
    requested: Seq<Seq<char>>,
)
    ensures
        ({
            let w = wanted(meshes, loaded, requested);
            &&& forall|k: int|
                0 <= k < w.len() ==> position(loaded, (#[trigger] w[k]).1) is None
                    && !requested.contains(w[k].1)
            &&& forall|j: int, k: int|
                0 <= j < k < w.len() ==> (#[trigger] w[j]).1 != (#[trigger] w[k]).1
        }),
    decreases meshes.len(),
{
    if meshes.len() > 0 {
        objects_are_asked_for_once(meshes.drop_last(), loaded, requested);
    }
}

/// Every mesh of the world is loaded, or was asked for before, or is asked for
/// now.
pub proof fn no_object_is_forgotten<M>(
    meshes: Seq<WireRenderMesh>,
    loaded: Seq<(String, M)>,
    requested: Seq<Seq<char>>,
    i: int,
)
    requires
        0 <= i < meshes.len(),
    ensures
        position(loaded, meshes[i].id@) is Some || requested.contains(meshes[i].id@) || asks_for(
            wanted(meshes, loaded, requested),
            meshes[i].id@,
        ),
    decreases meshes.len(),
{
    let before = wanted(meshes.drop_last(), loaded, requested);
    let after = wanted(meshes, loaded, requested);
    let id = meshes[i].id@;
    if i == meshes.len() - 1 {
        if after.len() > before.len() {
            assert(after[before.len() as int].1 == id);
        }
    } else {
        no_object_is_forgotten(meshes.drop_last(), loaded, requested, i);
        if asks_for(before, id) {
            let k = choose|k: int| 0 <= k < before.len() && (#[trigger] before[k]).1 == id;
            assert(after[k].1 == id);
        }
    }
}

/// A second look at the same world asks for nothing.
pub proof fn a_second_look_asks_for_nothing<M>(
    meshes: Seq<WireRenderMesh>,
    loaded: Seq<(String, M)>,
    requested: Seq<Seq<char>>,
)
    ensures
        wanted(
            meshes,
            loaded,
            requested + objects(wanted(meshes, loaded, requested)),
        ).len() == 0,
{
    let list = wanted(meshes, loaded, requested);
    let now = requested + objects(list);
    assert forall|i: int| 0 <= i < meshes.len() implies position(
        loaded,
        (#[trigger] meshes[i]).id@,
    ) is Some || now.contains(meshes[i].id@) by {
        no_object_is_forgotten(meshes, loaded, requested, i);
        asked_for_or_before(requested, list, meshes[i].id@);
    }
    nothing_is_wanted(meshes, loaded, now);
}

proof fn nothing_is_wanted<M>(
    meshes: Seq<WireRenderMesh>,
    loaded: Seq<(String, M)>,
    requested: Seq<Seq<char>>,
)
    requires
        forall|i: int|
            0 <= i < meshes.len() ==> position(loaded, (#[trigger] meshes[i]).id@) is Some
                || requested.contains(meshes[i].id@),
    ensures
        wanted(meshes, loaded, requested).len() == 0,
    decreases meshes.len(),
{
    if meshes.len() > 0 {
        assert forall|i: int| 0 <= i < meshes.drop_last().len() implies position(
            loaded,
            (#[trigger] meshes.drop_last()[i]).id@,
        ) is Some || requested.contains(meshes.drop_last()[i].id@) by {
            assert(meshes.drop_last()[i] == meshes[i]);
        }
        nothing_is_wanted(meshes.drop_last(), loaded, requested);
        assert(meshes.last() == meshes[meshes.len() - 1]);
    }
}

proof fn batch_is_found(groups: Seq<Batch>, path: Seq<char>)
    ensures
        batch_of(groups, path) is None ==> forall|b: int|
            0 <= b < groups.len() ==> (#[trigger] groups[b]).path != path,
    decreases groups.len(),
{
    if groups.len() > 0 {
        let front = groups.drop_last();
        batch_is_found(front, path);
        assert(forall|b: int| 0 <= b < front.len() ==> front[b] == #[trigger] groups[b]);
    }
}

/// How many objects wait in batches.
pub open spec fn waiting(groups: Seq<Batch>) -> nat
    decreases groups.len(),
{
    if groups.len() == 0 {
        0
    } else {
        waiting(groups.drop_last()) + groups.last().ids.len()
    }
}

proof fn one_more_waits(groups: Seq<Batch>, i: int, id: Seq<char>)
    requires
        0 <= i < groups.len(),
    ensures
        waiting(groups.update(i, Batch { path: groups[i].path, ids: groups[i].ids.push(id) }))
            == waiting(groups) + 1,
    decreases groups.len(),
{
    let more = groups.update(i, Batch { path: groups[i].path, ids: groups[i].ids.push(id) });
    if i < groups.len() - 1 {
        one_more_waits(groups.drop_last(), i, id);
        assert(more.drop_last() =~= groups.drop_last().update(
            i,
            Batch { path: groups[i].path, ids: groups[i].ids.push(id) },
        ));
        assert(more.last() == groups.last());
    } else {
        assert(more.drop_last() =~= groups.drop_last());
    }
}

/// What is gathered by file is what was wanted, no more and no less: each file has
/// one batch, each object waits in the batch of its own file, and as many wait as
/// were wanted.
pub proof fn every_object_waits_for_its_own_file(list: Seq<(Seq<char>, Seq<char>)>)
    ensures
        ({
            let groups = gathered(list);
            &&& forall|a: int, b: int|
                0 <= a < b < groups.len() ==> (#[trigger] groups[a]).path != (
                #[trigger] groups[b]).path
            &&& forall|k: int|
                0 <= k < list.len() ==> exists|b: int|
                    0 <= b < groups.len() && (#[trigger] groups[b]).path == (
                    #[trigger] list[k]).0 && groups[b].ids.contains(list[k].1)
            &&& forall|b: int, j: int|
                #![trigger groups[b].ids[j]]
                0 <= b < groups.len() && 0 <= j < groups[b].ids.len() ==> list.contains(
                    (groups[b].path, groups[b].ids[j]),
                )
            &&& waiting(groups) == list.len()
        }),
    decreases list.len(),
{
    if list.len() > 0 {
        let front = list.drop_last();
        let before = gathered(front);
        let groups = gathered(list);
        let (path, id) = list.last();
        let last = list.len() - 1;
        every_object_waits_for_its_own_file(front);
        batch_in_range(before, path);
        batch_is_found(before, path);
        assert(forall|k: int| 0 <= k < front.len() ==> front[k] == #[trigger] list[k]);
        let at = match batch_of(before, path) {
            Some(i) => i,
            None => before.len() as int,
        };
        assert forall|k: int| 0 <= k < list.len() implies exists|b: int|
            0 <= b < groups.len() && (#[trigger] groups[b]).path == (#[trigger] list[k]).0
                && groups[b].ids.contains(list[k].1) by {
            if k < last {
                let b = choose|b: int|
                    0 <= b < before.len() && (#[trigger] before[b]).path == front[k].0
                        && before[b].ids.contains(front[k].1);
                let j = choose|j: int|
                    0 <= j < before[b].ids.len() && before[b].ids[j] == front[k].1;
                assert(groups[b].ids[j] == list[k].1);
                assert(groups[b].path == list[k].0);
            } else {
                assert(groups[at].ids.last() == id);
                assert(groups[at].path == path);
            }
        }
        assert forall|b: int, j: int|
            #![trigger groups[b].ids[j]]
            0 <= b < groups.len() && 0 <= j < groups[b].ids.len() implies list.contains(
            (groups[b].path, groups[b].ids[j]),
        ) by {
            if b < before.len() && j < before[b].ids.len() {
                assert(groups[b].ids[j] == before[b].ids[j]);
                assert(front.contains((before[b].path, before[b].ids[j])));
                let k = choose|k: int|
                    0 <= k < front.len() && front[k] == (before[b].path, before[b].ids[j]);
                assert(list[k] == (groups[b].path, groups[b].ids[j]));
            } else {
                assert(list[last] == (groups[b].path, groups[b].ids[j]));
            }
        }
        if batch_of(before, path) is Some {
            one_more_waits(before, at, id);
            assert(groups =~= before.update(
                at,
                Batch { path: before[at].path, ids: before[at].ids.push(id) },
            ));
        } else {
            assert(groups.drop_last() =~= before);
        }
    }
}

/// What is wanted of an object is the file of the first mesh that has its id.
pub proof fn an_object_wants_the_file_of_its_mesh<M>(
    meshes: Seq<WireRenderMesh>,
    loaded: Seq<(String, M)>,
    requested: Seq<Seq<char>>,
)
    ensures
        ({
            let list = wanted(meshes, loaded, requested);
            forall|k: int|
                0 <= k < list.len() ==> exists|i: int|
                    {
                        &&& 0 <= i < meshes.len()
                        &&& (#[trigger] meshes[i]).id@ == (#[trigger] list[k]).1
                        &&& meshes[i].path@ == list[k].0
                        &&& forall|j: int| 0 <= j < i ==> (#[trigger] meshes[j]).id@ != list[k].1
                    }
        }),
    decreases meshes.len(),
{
    if meshes.len() > 0 {
        let front = meshes.drop_last();
        let before = wanted(front, loaded, requested);
        let list = wanted(meshes, loaded, requested);
        let last = meshes.len() - 1;
        an_object_wants_the_file_of_its_mesh(front, loaded, requested);
        assert(forall|i: int| 0 <= i < front.len() ==> front[i] == #[trigger] meshes[i]);
        assert forall|k: int| 0 <= k < list.len() implies exists|i: int|
            {
                &&& 0 <= i < meshes.len()
                &&& (#[trigger] meshes[i]).id@ == (#[trigger] list[k]).1
                &&& meshes[i].path@ == list[k].0
                &&& forall|j: int| 0 <= j < i ==> (#[trigger] meshes[j]).id@ != list[k].1
            } by {
            if k < before.len() {
                assert(list[k] == before[k]);
                let i = choose|i: int|
                    {
                        &&& 0 <= i < front.len()
                        &&& (#[trigger] front[i]).id@ == before[k].1
                        &&& front[i].path@ == before[k].0
                        &&& forall|j: int| 0 <= j < i ==> (#[trigger] front[j]).id@ != before[k].1
                    };
                assert(meshes[i].id@ == list[k].1);
                assert forall|j: int| 0 <= j < i implies (#[trigger] meshes[j]).id@
                    != list[k].1 by {
                    assert(front[j].id@ != before[k].1);
                }
            } else {
                assert(meshes[last].id@ == list[k].1);
                assert forall|j: int| 0 <= j < last implies (#[trigger] meshes[j]).id@
                    != list[k].1 by {
                    if meshes[j].id@ == list[k].1 {
                        no_object_is_forgotten(front, loaded, requested, j);
                    }
                }
            }
        }
    }
}

} // verus!
