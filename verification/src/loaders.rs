//! Files that are read beside the frame loop.

use vstd::prelude::*;
use vstd::string::StringExecFns;

use crate::engine::{texts, SkyDef};
use crate::scalar::Scalar;

verus! {

/// What came of handing a loaded mesh to the objects that wait for it: one
/// answer for each object that it was sent to, in order, up to the first that
/// could not be reached.
pub open spec fn answered<S: Fn(&String) -> bool>(
    answers: Seq<bool>,
    ids: Seq<String>,
    send: S,
) -> bool {
    &&& answers.len() <= ids.len()
    &&& forall|i: int|
        0 <= i < answers.len() ==> call_ensures(send, (&ids[i],), #[trigger] answers[i])
    &&& forall|i: int| 0 <= i < answers.len() - 1 ==> #[trigger] answers[i]
    &&& answers.len() < ids.len() ==> answers.len() > 0 && !answers.last()
}

/// Hands a loaded mesh to the objects that wait for it. `send` says whether
/// anyone still listens; the loader goes on only while someone does.
pub fn deliver<S: Fn(&String) -> bool>(ids: &Vec<String>, send: &S) -> (r: bool)
    requires
        forall|id: &String| #[trigger] call_requires(*send, (id,)),
    ensures
        exists|answers: Seq<bool>| #[trigger]
            answered(answers, ids@, *send) && r == (answers.len() == 0 || answers.last()),
{
    let ghost mut answers: Seq<bool> = Seq::empty();
    let mut i: usize = 0;
    while i < ids.len()
        invariant
            i <= ids@.len(),
            forall|id: &String| #[trigger] call_requires(*send, (id,)),
            answers.len() == i,
            forall|k: int|
                0 <= k < i ==> call_ensures(*send, (&ids@[k],), #[trigger] answers[k]),
            forall|k: int| 0 <= k < i ==> #[trigger] answers[k],
        decreases ids@.len() - i,
    {
        let heard = send(&ids[i]);
        proof {
            answers = answers.push(heard);
        }
        if !heard {
            assert(answered(answers, ids@, *send));
            return false;
        }
        i = i + 1;
    }
    assert(answered(answers, ids@, *send));
    true
}

/// Where a sky's panorama is, below the game's directory.
pub open spec fn sky_parts(id: Seq<char>) -> Seq<Seq<char>> {
    seq!["skies"@, id, "sky.hdr"@]
}

fn sky_file(def: &SkyDef) -> (r: Vec<String>)
    ensures
        texts(r@) == sky_parts(def.id@),
{
    let mut parts: Vec<String> = Vec::new();
    parts.push(String::from_str("skies"));
    parts.push(def.id.clone());
    parts.push(String::from_str("sky.hdr"));
    assert(texts(parts@) =~= sky_parts(def.id@));
    parts
}

/// The panorama that a scene's sky names, with the turn and the brightness that
/// the scene gives it. `read` fetches a file, and `decode` makes a panorama of
/// what is in it.
///
/// `None` covers every way in which there is none: the scene names no sky, the
/// file is absent, or it does not decode. The level is then drawn without.
pub fn load_scene_sky<
    P,
    R: FnOnce(Vec<String>) -> Option<Vec<u8>>,
    D: FnOnce(Vec<u8>) -> Option<P>,
>(
    sky: Option<&SkyDef>,
    read: R,
    decode: D,
) -> (r: Option<(P, Scalar, Scalar)>)
    requires
        forall|parts: Vec<String>| #[trigger] call_requires(read, (parts,)),
        forall|bytes: Vec<u8>| #[trigger] call_requires(decode, (bytes,)),
    ensures
        match sky {
            None => r is None,
            Some(def) => exists|parts: Vec<String>, bytes: Option<Vec<u8>>| #[trigger]
                call_ensures(read, (parts,), bytes) && texts(parts@) == sky_parts(def.id@)
                    && match bytes {
                    None => r is None,
                    Some(b) => exists|pano: Option<P>| #[trigger]
                        call_ensures(decode, (b,), pano) && r == match pano {
                            Some(p) => Some((p, def.rotation_deg, def.intensity)),
                            None => None,
                        },
                },
        },
{
    match sky {
        None => None,
        Some(def) => {
            let parts = sky_file(def);
            match read(parts) {
                None => None,
                Some(bytes) => match decode(bytes) {
                    Some(pano) => Some((pano, def.rotation_deg, def.intensity)),
                    None => None,
                },
            }
        },
    }
}

/// A mesh went to every object that waits for it just where the last answer says so,
/// and nobody is asked after the first who does not answer.
pub proof fn delivery_stops_at_the_first_who_is_gone<S: Fn(&String) -> bool>(
    answers: Seq<bool>,
    ids: Seq<String>,
    send: S,
)
    requires
        answered(answers, ids, send),
    ensures
        answers.len() == 0 || answers.last() <==> answers.len() == ids.len() && !answers.contains(
            false,
        ),
        answers.contains(false) ==> exists|n: int|
            {
                &&& 0 <= n < ids.len()
                &&& answers.len() == n + 1
                &&& #[trigger] call_ensures(send, (&ids[n],), false)
                &&& forall|i: int| 0 <= i < n ==> call_ensures(send, (&#[trigger] ids[i],), true)
            },
        !answers.contains(false) ==> forall|i: int|
            0 <= i < ids.len() ==> call_ensures(send, (&#[trigger] ids[i],), true),
{
    if answers.contains(false) {
        let n = choose|n: int| 0 <= n < answers.len() && answers[n] == false;
        assert(n == answers.len() - 1);
        assert(call_ensures(send, (&ids[n],), false));
        assert forall|i: int| 0 <= i < n implies call_ensures(
            send,
            (&#[trigger] ids[i],),
            true,
        ) by {
            assert(answers[i]);
        }
    } else {
        if answers.len() > 0 {
            assert(answers.contains(answers.last()));
        }
        assert forall|i: int| 0 <= i < ids.len() implies call_ensures(
            send,
            (&#[trigger] ids[i],),
            true,
        ) by {
            assert(answers.contains(answers[i]));
        }
    }
}

} // verus!
