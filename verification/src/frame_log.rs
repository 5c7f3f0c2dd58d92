//! What is reported of every frame.

use vstd::prelude::*;
use vstd::string::StringExecFns;

use crate::avatar::LocalPose;
use crate::engine::{PerHand, Transform};
use crate::text::{decimal, to_decimal};

verus! {

/// The frame's counts are logged once in so many frames.
pub const STATUS_EVERY: u64 = 90;

/// What the hands are near is logged once in so many frames.
pub const HANDS_EVERY: u64 = 30;

/// The pose that the server is sent: both hands are always tracked here.
pub fn send_local_pose(head: Transform, grips: &PerHand<Transform>) -> (r: LocalPose)
    ensures
        r == (LocalPose { head, left_hand: Some(grips.left), right_hand: Some(grips.right) }),
{
    LocalPose { head, left_hand: Some(grips.left), right_hand: Some(grips.right) }
}

/// What a frame has in it.
#[derive(Clone, Copy, Debug, PartialEq, Eq)]
pub struct FrameCounts {
    pub frame_count: u64,
    pub cuboids: usize,
    pub meshes: usize,
    pub lights: usize,
    pub bounds: usize,
    pub connected: bool,
}

/// The words for yes and no.
pub open spec fn truth(b: bool) -> Seq<char> {
    if b {
        "true"@
    } else {
        "false"@
    }
}

/// The line that says what a frame has in it.
pub open spec fn status_line(c: FrameCounts) -> Seq<char> {
    "Frame "@ + decimal(c.frame_count as nat) + ": cuboids="@ + decimal(c.cuboids as nat)
        + " meshes="@ + decimal(c.meshes as nat) + " lights="@ + decimal(c.lights as nat)
        + " bounds="@ + decimal(c.bounds as nat) + " connected="@ + truth(c.connected)
}

/// What is logged of a frame: its counts, and whether to say what the hands are
/// near.
#[derive(Debug)]
pub struct FrameLog {
    pub status: Option<String>,
    pub hands: bool,
}

fn status(c: FrameCounts) -> (r: String)
    ensures
        r@ == status_line(c),
{
    let mut out = String::from_str("Frame ");
    out.append(to_decimal(c.frame_count).as_str());
    out.append(": cuboids=");
    out.append(to_decimal(c.cuboids as u64).as_str());
    out.append(" meshes=");
    out.append(to_decimal(c.meshes as u64).as_str());
    out.append(" lights=");
    out.append(to_decimal(c.lights as u64).as_str());
    out.append(" bounds=");
    out.append(to_decimal(c.bounds as u64).as_str());
    out.append(" connected=");
    if c.connected {
        out.append("true");
    } else {
        out.append("false");
    }
    out
}

/// What is logged of a frame.
pub fn log_frame_status(c: FrameCounts) -> (r: FrameLog)
    ensures
        match r.status {
            Some(line) => c.frame_count % STATUS_EVERY == 0 && line@ == status_line(c),
            None => c.frame_count % STATUS_EVERY != 0,
        },
        r.hands == (c.frame_count % HANDS_EVERY == 0),
{
    FrameLog {
        status: if c.frame_count % STATUS_EVERY == 0 {
            Some(status(c))
        } else {
            None
        },
        hands: c.frame_count % HANDS_EVERY == 0,
    }
}

/// A frame whose counts are logged is one whose hands are logged too.
pub proof fn status_comes_with_the_hands(frame_count: u64)
    requires
        frame_count % STATUS_EVERY == 0,
    ensures
        frame_count % HANDS_EVERY == 0,
{
}

} // verus!
