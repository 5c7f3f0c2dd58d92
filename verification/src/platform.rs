//! The device under the client.

use vstd::prelude::*;
use vstd::string::StrSliceExecFns;
use vstd::string::StringExecFns;

use crate::text::{decimal, to_decimal};

verus! {

/// The looper source that carries the activity's life cycle.
pub const ANDROID_LOOPER_ID_MAIN: u32 = 0;

/// The looper source that carries input.
pub const ANDROID_LOOPER_ID_INPUT: u32 = 1;

/// How often a runtime that is still busy is asked again.
pub const XR_ATTEMPTS: u32 = 25;

/// How long to wait before it is asked again.
pub const XR_RETRY_MILLIS: u64 = 200;

/// How long to wait for the activity between two looks at its events.
pub const RESUME_POLL_MILLIS: u64 = 10;

/// Where the game's files are on the device.
pub fn game_dir() -> (r: String)
    ensures
        r@ == "/sdcard/Android/data/com.example.questapp/files/game"@,
{
    String::from_str("/sdcard/Android/data/com.example.questapp/files/game")
}

/// What the activity's life cycle brings.
#[derive(Clone, Copy, Debug, PartialEq, Eq, Structural)]
pub enum ActivityEvent {
    Resume,
    Destroy,
    Other,
}

/// What to do while waiting for the activity.
#[derive(Clone, Copy, Debug, PartialEq, Eq, Structural)]
pub enum WaitStep {
    /// The activity is there: start.
    Start,
    /// The activity is gone: leave, with nothing wrong.
    Leave,
    /// Look at the next event.
    Next,
    /// No event is left: wait, and look again.
    Sleep,
}

/// What an event means to a client that waits for its activity.
pub fn wait_for_resume(event: Option<ActivityEvent>) -> (r: WaitStep)
    ensures
        r == (match event {
            Some(ActivityEvent::Resume) => WaitStep::Start,
            Some(ActivityEvent::Destroy) => WaitStep::Leave,
            Some(ActivityEvent::Other) => WaitStep::Next,
            None => WaitStep::Sleep,
        }),
{
    match event {
        Some(ActivityEvent::Resume) => WaitStep::Start,
        Some(ActivityEvent::Destroy) => WaitStep::Leave,
        Some(ActivityEvent::Other) => WaitStep::Next,
        None => WaitStep::Sleep,
    }
}

/// What the looper has for the client.
#[derive(Clone, Copy, Debug, PartialEq, Eq, Structural)]
pub enum LooperSource {
    /// The activity's life cycle.
    Main,
    /// Input events.
    Input,
    /// Something that the client does not know.
    Unknown,
}

/// What the looper has for the client, by the number that it gives.
pub fn looper_source(ident: i32) -> (r: LooperSource)
    ensures
        r == (if ident == ANDROID_LOOPER_ID_MAIN {
            LooperSource::Main
        } else if ident == ANDROID_LOOPER_ID_INPUT {
            LooperSource::Input
        } else {
            LooperSource::Unknown
        }),
{
    if ident < 0 {
        LooperSource::Unknown
    } else if ident as u32 == ANDROID_LOOPER_ID_MAIN {
        LooperSource::Main
    } else if ident as u32 == ANDROID_LOOPER_ID_INPUT {
        LooperSource::Input
    } else {
        LooperSource::Unknown
    }
}

/// What came of one look at the looper.
#[derive(Clone, Copy, Debug, PartialEq, Eq, Structural)]
pub enum Pumped {
    /// The looper had nothing, or failed.
    Idle,
    /// The life cycle had this, or nothing.
    Activity(Option<ActivityEvent>),
    /// There was an input event.
    Input,
    /// There was no input queue, no event in it, or it failed.
    NoInput,
    /// A source that the client does not know.
    Unknown,
}

/// What to do after one look at the looper.
#[derive(Clone, Copy, Debug, PartialEq, Eq, Structural)]
pub enum PumpStep {
    /// Look again.
    Next,
    /// Hand the input event back unhandled, and look again.
    Finish,
    /// Stop looking.
    Stop,
}

/// What one look at the looper means. An activity that is destroyed ends the
/// client; nothing else touches `exit`.
pub fn pump_android_events(exit: &mut bool, seen: Pumped) -> (r: PumpStep)
    ensures
        r == (match seen {
            Pumped::Activity(Some(_)) => PumpStep::Next,
            Pumped::Input => PumpStep::Finish,
            _ => PumpStep::Stop,
        }),
        *final(exit) == (*old(exit) || seen == Pumped::Activity(Some(ActivityEvent::Destroy))),
{
    match seen {
        Pumped::Activity(Some(ActivityEvent::Destroy)) => {
            *exit = true;
            PumpStep::Next
        },
        Pumped::Activity(Some(_)) => PumpStep::Next,
        Pumped::Activity(None) => PumpStep::Stop,
        Pumped::Input => PumpStep::Finish,
        Pumped::Idle => PumpStep::Stop,
        Pumped::NoInput => PumpStep::Stop,
        Pumped::Unknown => PumpStep::Stop,
    }
}

/// Whether one text stands inside another.
pub open spec fn stands_in(part: Seq<char>, whole: Seq<char>) -> bool {
    exists|i: int|
        #![trigger whole.subrange(i, i + part.len())]
        0 <= i <= whole.len() - part.len() && whole.subrange(i, i + part.len()) == part
}

fn contains(whole: &str, part: &str) -> (r: bool)
    ensures
        r == stands_in(part@, whole@),
{
    let n: usize = whole.unicode_len();
    let m: usize = part.unicode_len();
    if m > n {
        return false;
    }
    let mut i: usize = 0;
    while i <= n - m
        invariant
            n == whole@.len(),
            m == part@.len(),
            m <= n,
            i <= n - m + 1,
            forall|k: int|
                0 <= k < i ==> #[trigger] whole@.subrange(k, k + m as int) != part@,
        decreases n - m + 1 - i,
    {
        let mut j: usize = 0;
        while j < m && whole.get_char(i + j) == part.get_char(j)
            invariant
                n == whole@.len(),
                m == part@.len(),
                i <= n - m,
                j <= m,
                forall|k: int| 0 <= k < j ==> whole@[i + k] == part@[k],
            ensures
                j <= m,
                forall|k: int| 0 <= k < j ==> whole@[i + k] == part@[k],
                j < m ==> whole@[i + j] != part@[j as int],
            decreases m - j,
        {
            j = j + 1;
        }
        if j == m {
            assert(whole@.subrange(i as int, i + part@.len()) =~= part@);
            return true;
        }
        proof {
            assert(whole@.subrange(i as int, i + m as int)[j as int] == whole@[i + j]);
            assert(whole@.subrange(i as int, i + m as int) != part@);
        }
        i = i + 1;
    }
    false
}

/// Whether an attempt that failed is made again: the runtime says that it has
/// "no more" room, as it does while an earlier session is still being cleaned
/// up, and there are attempts left.
pub open spec fn is_tried_again(error: Seq<char>, attempts: u32) -> bool {
    stands_in("no more"@, error) && attempts < XR_ATTEMPTS
}

/// The line that says that an attempt is made again.
pub open spec fn retry_line(attempts: u32) -> Seq<char> {
    "xr: limit reached — previous session still cleaning up (attempt "@ + decimal(
        (attempts + 1) as nat,
    ) + "/25), retrying in 200ms"@
}

/// What to do about a runtime that could not be reached: `Some` with the line to
/// log where it is to be tried again, `None` where the error stands. `attempts`
/// counts the attempts that were made again so far.
pub fn init_xr(error: &str, attempts: &mut u32) -> (r: Option<String>)
    ensures
        match r {
            Some(line) => is_tried_again(error@, *old(attempts)) && line@ == retry_line(
                *old(attempts),
            ) && *final(attempts) == *old(attempts) + 1,
            None => !is_tried_again(error@, *old(attempts)) && *final(attempts) == *old(attempts),
        },
{
    if *attempts < XR_ATTEMPTS && contains(error, "no more") {
        let mut line = String::from_str(
            "xr: limit reached — previous session still cleaning up (attempt ",
        );
        *attempts = *attempts + 1;
        line.append(to_decimal(*attempts as u64).as_str());
        line.append("/25), retrying in 200ms");
        Some(line)
    } else {
        None
    }
}

/// The name of a tracked hand's joint, in the order in which the runtime lists
/// them.
pub open spec fn joint_title(i: int) -> Seq<char> {
    if i == 0 {
        "palm"@
    } else if i == 1 {
        "wrist"@
    } else if i == 2 {
        "thumb_meta"@
    } else if i == 3 {
        "thumb_prox"@
    } else if i == 4 {
        "thumb_dist"@
    } else if i == 5 {
        "thumb_tip"@
    } else if i == 6 {
        "index_meta"@
    } else if i == 7 {
        "index_prox"@
    } else if i == 8 {
        "index_inter"@
    } else if i == 9 {
        "index_dist"@
    } else if i == 10 {
        "index_tip"@
    } else if i == 11 {
        "middle_meta"@
    } else if i == 12 {
        "middle_prox"@
    } else if i == 13 {
        "middle_inter"@
    } else if i == 14 {
        "middle_dist"@
    } else if i == 15 {
        "middle_tip"@
    } else if i == 16 {
        "ring_meta"@
    } else if i == 17 {
        "ring_prox"@
    } else if i == 18 {
        "ring_inter"@
    } else if i == 19 {
        "ring_dist"@
    } else if i == 20 {
        "ring_tip"@
    } else if i == 21 {
        "little_meta"@
    } else if i == 22 {
        "little_prox"@
    } else if i == 23 {
        "little_inter"@
    } else if i == 24 {
        "little_dist"@
    } else if i == 25 {
        "little_tip"@
    } else {
        "unknown"@
    }
}

/// The name of a tracked hand's joint; "unknown" beyond the last.
pub fn joint_name(i: usize) -> (r: &'static str)
    ensures
        r@ == joint_title(i as int),
{
    match i {
        0 => "palm",
        1 => "wrist",
        2 => "thumb_meta",
        3 => "thumb_prox",
        4 => "thumb_dist",
        5 => "thumb_tip",
        6 => "index_meta",
        7 => "index_prox",
        8 => "index_inter",
        9 => "index_dist",
        10 => "index_tip",
        11 => "middle_meta",
        12 => "middle_prox",
        13 => "middle_inter",
        14 => "middle_dist",
        15 => "middle_tip",
        16 => "ring_meta",
        17 => "ring_prox",
        18 => "ring_inter",
        19 => "ring_dist",
        20 => "ring_tip",
        21 => "little_meta",
        22 => "little_prox",
        23 => "little_inter",
        24 => "little_dist",
        25 => "little_tip",
        _ => "unknown",
    }
}

/// A text stands in another where its characters follow one another there.
pub proof fn a_text_stands_where_its_characters_do(part: Seq<char>, whole: Seq<char>)
    ensures
        stands_in(part, whole) <==> exists|i: int|
            0 <= i <= whole.len() - part.len() && #[trigger] is_at(part, whole, i),
{
    if stands_in(part, whole) {
        let i = choose|i: int|
            #![trigger whole.subrange(i, i + part.len())]
            0 <= i <= whole.len() - part.len() && whole.subrange(i, i + part.len()) == part;
        assert forall|k: int| 0 <= k < part.len() implies whole[i + k] == #[trigger] part[k] by {
            assert(whole.subrange(i, i + part.len())[k] == part[k]);
        }
        assert(is_at(part, whole, i));
    }
    if exists|i: int| 0 <= i <= whole.len() - part.len() && #[trigger] is_at(part, whole, i) {
        let i = choose|i: int|
            0 <= i <= whole.len() - part.len() && #[trigger] is_at(part, whole, i);
        assert(whole.subrange(i, i + part.len()) =~= part);
    }
}

/// Whether the characters of a text follow one another in another from a place on.
pub open spec fn is_at(part: Seq<char>, whole: Seq<char>, i: int) -> bool {
    forall|k: int| 0 <= k < part.len() ==> whole[i + k] == #[trigger] part[k]
}

/// An attempt is made again only for want of room, and twenty-five times at most.
pub proof fn attempts_come_to_an_end(error: Seq<char>, attempts: u32)
    ensures
        is_tried_again(error, attempts) <==> attempts < 25 && stands_in("no more"@, error),
        attempts >= 25 ==> !is_tried_again(error, attempts),
{
}

} // verus!
