//! Players' bodies, as far as they are tracked.

use vstd::prelude::*;

use crate::engine::{copy_texts, texts, Transform};

verus! {

/// The tracked pose of a player who is somewhere else.
#[derive(Clone, Copy, Debug, PartialEq, Eq)]
pub struct RemotePlayerState {
    pub head: Transform,
    pub left_hand: Option<Transform>,
    pub right_hand: Option<Transform>,
}

/// The tracked pose of the player who wears this headset.
#[derive(Clone, Copy, Debug, PartialEq, Eq)]
pub struct LocalPose {
    pub head: Transform,
    pub left_hand: Option<Transform>,
    pub right_hand: Option<Transform>,
}

/// The skin of a mesh: its joints, whose parent each is, and where each rests.
/// `B` is how a joint's rest is written, `M` how its inverse is.
#[derive(Debug)]
pub struct GltfSkin<B, M> {
    pub joint_names: Vec<String>,
    pub joint_parents: Vec<Option<usize>>,
    pub joint_local_bind: Vec<B>,
    pub inv_bind_mats: Vec<M>,
}

/// The skeleton that a body is posed with.
#[derive(Debug)]
pub struct SkeletonData<B, M> {
    pub joint_names: Vec<String>,
    pub joint_parents: Vec<Option<usize>>,
    pub joint_local_bind: Vec<B>,
    pub inv_bind_mats: Vec<M>,
}

fn copy_all<T: Copy>(from: &Vec<T>) -> (r: Vec<T>)
    ensures
        r@ == from@,
{
    let mut out: Vec<T> = Vec::new();
    let mut i: usize = 0;
    while i < from.len()
        invariant
            i <= from@.len(),
            out@ =~= from@.take(i as int),
        decreases from@.len() - i,
    {
        out.push(from[i]);
        i = i + 1;
    }
    assert(out@ =~= from@);
    out
}

/// The skeleton of a skin.
pub fn skeleton_data_from_skin<B: Copy, M: Copy>(skin: &GltfSkin<B, M>) -> (r: SkeletonData<B, M>)
    ensures
        texts(r.joint_names@) == texts(skin.joint_names@),
        r.joint_parents@ == skin.joint_parents@,
        r.joint_local_bind@ == skin.joint_local_bind@,
        r.inv_bind_mats@ == skin.inv_bind_mats@,
{
    SkeletonData {
        joint_names: copy_texts(&skin.joint_names),
        joint_parents: copy_all(&skin.joint_parents),
        joint_local_bind: copy_all(&skin.joint_local_bind),
        inv_bind_mats: copy_all(&skin.inv_bind_mats),
    }
}

} // verus!
