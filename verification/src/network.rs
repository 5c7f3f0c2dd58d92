//! The multiplayer session.

use std::collections::HashMap;

use vstd::prelude::*;
use vstd::string::StrSliceExecFns;
use vstd::string::StringExecFns;

use crate::avatar::{LocalPose, RemotePlayerState};
use crate::engine::Transform;
use crate::protocol::{
    Pose, WireHand, WireInputAxes, WireInputFrame, WireLocomotionInput, WirePlayerRig,
    WireTeleportTarget, WireWorld,
};
use crate::scalar::{Quat, Scalar, Vec2, Vec3};
use crate::table::Table;

verus! {

broadcast use vstd::std_specs::hash::group_hash_axioms;

/// How long the client waits before it connects again.
pub const RECONNECT_SECONDS: u64 = 2;

/// What the next message to the server will say of the player's input.
#[derive(Clone, Debug)]
pub struct PendingInput {
    pub input: WireInputFrame,
    pub locomotion_input: WireLocomotionInput,
    pub rig: WirePlayerRig,
    pub teleport_target: Option<WireTeleportTarget>,
}

/// Whether an input says that the player did nothing.
pub open spec fn is_idle(p: PendingInput) -> bool {
    &&& p.input.pointed@.len() == 0
    &&& p.input.grabbed@.len() == 0
    &&& p.input.released@.len() == 0
    &&& p.input.button_presses@.len() == 0
    &&& p.input.button_releases@.len() == 0
    &&& p.input.axes == resting_axes()
    &&& p.input.part_blends.entries@.len() == 0
    &&& p.locomotion_input == (WireLocomotionInput {
        move_stick: Vec2 { x: Scalar::zero(), y: Scalar::zero() },
        turn_stick_x: Scalar::zero(),
        teleport_pressed: false,
        teleport_released: false,
        teleport_hand: WireHand::Right,
        player_offset: None,
        player_yaw: None,
    })
    &&& p.rig.joints@.len() == 0
    &&& p.rig.hand_tracking_active@.len() == 0
    &&& p.teleport_target is None
}

/// Controllers that nobody touches.
pub open spec fn resting_axes() -> WireInputAxes {
    WireInputAxes {
        l_trigger: Scalar::zero(),
        r_trigger: Scalar::zero(),
        l_grip: Scalar::zero(),
        r_grip: Scalar::zero(),
        l_stick: Vec2 { x: Scalar::zero(), y: Scalar::zero() },
        r_stick: Vec2 { x: Scalar::zero(), y: Scalar::zero() },
    }
}

impl Default for PendingInput {
    fn default() -> (r: PendingInput)
        ensures
            is_idle(r),
    {
        let still = Vec2 { x: Scalar::zero(), y: Scalar::zero() };
        PendingInput {
            input: WireInputFrame {
                pointed: Vec::new(),
                grabbed: Vec::new(),
                released: Vec::new(),
                button_presses: Vec::new(),
                button_releases: Vec::new(),
                axes: WireInputAxes {
                    l_trigger: Scalar::zero(),
                    r_trigger: Scalar::zero(),
                    l_grip: Scalar::zero(),
                    r_grip: Scalar::zero(),
                    l_stick: still,
                    r_stick: still,
                },
                part_blends: Table::new(),
            },
            locomotion_input: WireLocomotionInput {
                move_stick: still,
                turn_stick_x: Scalar::zero(),
                teleport_pressed: false,
                teleport_released: false,
                teleport_hand: WireHand::Right,
                player_offset: None,
                player_yaw: None,
            },
            rig: WirePlayerRig { joints: Vec::new(), hand_tracking_active: Vec::new() },
            teleport_target: None,
        }
    }
}

/// The pose that is sent before the first frame was tracked.
pub fn resting_pose() -> (r: LocalPose)
    ensures
        r == (LocalPose {
            head: Transform { position: Vec3::origin(), rotation: Quat::identity() },
            left_hand: None,
            right_hand: None,
        }),
{
    LocalPose {
        head: Transform { position: Vec3::origin(), rotation: Quat::identity() },
        left_hand: None,
        right_hand: None,
    }
}

/// A transform as it travels.
pub open spec fn on_wire(t: Transform) -> Pose {
    Pose { position: t.position, rotation: t.rotation }
}

/// A transform that has arrived.
pub open spec fn off_wire(p: Pose) -> Transform {
    Transform { position: p.position, rotation: p.rotation }
}

/// A hand's transform as it travels, if the hand is tracked.
pub open spec fn hand_on_wire(t: Option<Transform>) -> Option<Pose> {
    match t {
        Some(x) => Some(on_wire(x)),
        None => None,
    }
}

/// A hand's transform that has arrived, if the hand is tracked.
pub open spec fn hand_off_wire(p: Option<Pose>) -> Option<Transform> {
    match p {
        Some(x) => Some(off_wire(x)),
        None => None,
    }
}

/// A transform as it travels.
pub fn to_wire(t: Transform) -> (r: Pose)
    ensures
        r == on_wire(t),
{
    Pose { position: t.position, rotation: t.rotation }
}

/// A transform that has arrived.
pub fn from_wire(p: Pose) -> (r: Transform)
    ensures
        r == off_wire(p),
{
    Transform { position: p.position, rotation: p.rotation }
}

fn hand_to_wire(t: Option<Transform>) -> (r: Option<Pose>)
    ensures
        r == hand_on_wire(t),
{
    match t {
        Some(x) => Some(to_wire(x)),
        None => None,
    }
}

fn hand_from_wire(p: Option<Pose>) -> (r: Option<Transform>)
    ensures
        r == hand_off_wire(p),
{
    match p {
        Some(x) => Some(from_wire(x)),
        None => None,
    }
}

/// What travels arrives unchanged.
pub proof fn transforms_survive_the_wire(t: Transform, p: Pose)
    ensures
        off_wire(on_wire(t)) == t,
        on_wire(off_wire(p)) == p,
{
}

/// Whether a character is white space, as Unicode sees it: the twenty-five code
/// points that have the property `White_Space`.
pub open spec fn white_space(c: char) -> bool {
    let n = c as u32;
    ||| 0x9 <= n <= 0xd
    ||| n == 0x20 || n == 0x85 || n == 0xa0 || n == 0x1680
    ||| 0x2000 <= n <= 0x200a
    ||| n == 0x2028 || n == 0x2029 || n == 0x202f || n == 0x205f || n == 0x3000
}

fn is_white_space(c: char) -> (r: bool)
    ensures
        r == white_space(c),
{
    let n: u32 = c as u32;
    let in_a_row = (0x9 <= n && n <= 0xd) || (0x2000 <= n && n <= 0x200a);
    in_a_row || n == 0x20 || n == 0x85 || n == 0xa0 || n == 0x1680 || n == 0x2028 || n == 0x2029
        || n == 0x202f || n == 0x205f || n == 0x3000
}

/// Which characters of a text are white space.
pub open spec fn white_in(s: Seq<char>) -> Seq<bool> {
    Seq::new(s.len(), |i: int| white_space(s[i]))
}

/// How many flags are set before the first that is not.
pub open spec fn leading(white: Seq<bool>) -> int
    decreases white.len(),
{
    if white.len() > 0 && white[0] {
        1 + leading(white.drop_first())
    } else {
        0
    }
}

/// How many flags are set after the last that is not.
pub open spec fn trailing(white: Seq<bool>) -> int
    decreases white.len(),
{
    if white.len() > 0 && white.last() {
        1 + trailing(white.drop_last())
    } else {
        0
    }
}

/// A text without white space at its ends, given which of its characters are
/// white space.
pub open spec fn trimmed(s: Seq<char>, white: Seq<bool>) -> Seq<char> {
    if leading(white) >= s.len() {
        Seq::empty()
    } else {
        s.subrange(leading(white), s.len() - trailing(white))
    }
}

proof fn leading_flags(white: Seq<bool>)
    ensures
        0 <= leading(white) <= white.len(),
        forall|i: int| 0 <= i < leading(white) ==> white[i],
        leading(white) < white.len() ==> !white[leading(white)],
    decreases white.len(),
{
    if white.len() > 0 && white[0] {
        let rest = white.drop_first();
        leading_flags(rest);
        assert forall|i: int| 0 <= i < leading(white) implies white[i] by {
            if i > 0 {
                assert(rest[i - 1]);
            }
        }
    }
}

proof fn trailing_flags(white: Seq<bool>)
    ensures
        0 <= trailing(white) <= white.len(),
        forall|i: int| white.len() - trailing(white) <= i < white.len() ==> white[i],
        trailing(white) < white.len() ==> !white[white.len() - trailing(white) - 1],
    decreases white.len(),
{
    if white.len() > 0 && white.last() {
        let rest = white.drop_last();
        trailing_flags(rest);
        assert forall|i: int| white.len() - trailing(white) <= i < white.len() implies white[i] by {
            if i < rest.len() {
                assert(rest[i]);
            }
        }
    }
}

proof fn leading_is(white: Seq<bool>, n: int)
    requires
        0 <= n <= white.len(),
        forall|i: int| 0 <= i < n ==> white[i],
        n < white.len() ==> !white[n],
    ensures
        leading(white) == n,
{
    leading_flags(white);
    if leading(white) < n {
        assert(white[leading(white)]);
    }
}

proof fn trailing_is(white: Seq<bool>, n: int)
    requires
        0 <= n <= white.len(),
        forall|i: int| white.len() - n <= i < white.len() ==> white[i],
        n < white.len() ==> !white[white.len() - n - 1],
    ensures
        trailing(white) == n,
{
    trailing_flags(white);
    if trailing(white) < n {
        assert(white[white.len() - trailing(white) - 1]);
    }
}

/// The address in a settings file, given which of its characters are white
/// space: the text without white space at its ends, or `None` where nothing is
/// left.
pub fn address_in(contents: &String, white: &Vec<bool>) -> (r: Option<String>)
    requires
        white@.len() == contents@.len(),
    ensures
        match r {
            Some(url) => url@ == trimmed(contents@, white@) && url@.len() > 0,
            None => trimmed(contents@, white@).len() == 0,
        },
{
    let n: usize = white.len();
    let mut from: usize = 0;
    while from < n && white[from]
        invariant
            from <= n,
            n == white@.len(),
            forall|i: int| 0 <= i < from ==> white@[i],
        ensures
            from <= n,
            forall|i: int| 0 <= i < from ==> white@[i],
            from < n ==> !white@[from as int],
        decreases n - from,
    {
        from = from + 1;
    }
    proof {
        leading_is(white@, from as int);
    }
    if from == n {
        return None;
    }
    let mut to: usize = n;
    while white[to - 1]
        invariant
            from < to <= n,
            n == white@.len(),
            !white@[from as int],
            forall|i: int| to <= i < n ==> white@[i],
        ensures
            from < to <= n,
            forall|i: int| to <= i < n ==> white@[i],
            !white@[to - 1],
        decreases to,
    {
        to = to - 1;
    }
    proof {
        trailing_is(white@, n - to);
    }
    Some(String::from_str(contents.as_str().substring_char(from, to)))
}

fn find_white(s: &String) -> (r: Vec<bool>)
    ensures
        r@ == white_in(s@),
{
    let text = s.as_str();
    let n: usize = text.unicode_len();
    let mut white: Vec<bool> = Vec::new();
    let mut i: usize = 0;
    while i < n
        invariant
            i <= n,
            n == s@.len(),
            text@ == s@,
            white@ =~= white_in(s@).take(i as int),
        decreases n - i,
    {
        white.push(is_white_space(text.get_char(i)));
        i = i + 1;
    }
    assert(white@ =~= white_in(s@));
    white
}

/// The address of the server: what the settings file says, without the white
/// space around it, or the developer's own machine where it says nothing.
pub open spec fn url_of(contents: Option<Seq<char>>) -> Seq<char> {
    match contents {
        Some(s) => if trimmed(s, white_in(s)).len() > 0 {
            trimmed(s, white_in(s))
        } else {
            "ws://127.0.0.1:9001"@
        },
        None => "ws://127.0.0.1:9001"@,
    }
}

/// The address of the server, from what the settings file holds, if it could be
/// read.
pub fn server_url(contents: Option<String>) -> (r: String)
    ensures
        r@ == url_of(
            match contents {
                Some(s) => Some(s@),
                None => None,
            },
        ),
        r@.len() > 0,
{
    proof {
        reveal_strlit("ws://127.0.0.1:9001");
    }
    if let Some(s) = contents {
        let white = find_white(&s);
        if let Some(url) = address_in(&s, &white) {
            return url;
        }
    }
    String::from_str("ws://127.0.0.1:9001")
}

/// What the client shares with the session: who else is there, and what the
/// world looks like.
#[derive(Debug)]
pub struct SharedState {
    pub remote_players: HashMap<u64, RemotePlayerState>,
    pub latest_world: Option<WireWorld>,
}

/// What the server says.
#[derive(Debug)]
pub enum ServerMessage {
    Welcome { id: u64 },
    PlayerUpdate { id: u64, head: Pose, left_hand: Option<Pose>, right_hand: Option<Pose> },
    PlayerLeft { id: u64 },
    World(WireWorld),
}

/// What the client says.
#[derive(Debug)]
pub enum ClientMessage {
    Join,
    Update { head: Pose, left_hand: Option<Pose>, right_hand: Option<Pose> },
    Input {
        input: WireInputFrame,
        locomotion_input: WireLocomotionInput,
        rig: WirePlayerRig,
        teleport_target: Option<WireTeleportTarget>,
    },
}

/// The pose of a player in an update.
pub open spec fn arrived(
    head: Pose,
    left_hand: Option<Pose>,
    right_hand: Option<Pose>,
) -> RemotePlayerState {
    RemotePlayerState {
        head: off_wire(head),
        left_hand: hand_off_wire(left_hand),
        right_hand: hand_off_wire(right_hand),
    }
}

/// The players after a message.
pub open spec fn players_after(
    players: Map<u64, RemotePlayerState>,
    msg: Option<ServerMessage>,
) -> Map<u64, RemotePlayerState> {
    match msg {
        Some(ServerMessage::PlayerUpdate { id, head, left_hand, right_hand }) => players.insert(
            id,
            arrived(head, left_hand, right_hand),
        ),
        Some(ServerMessage::PlayerLeft { id }) => players.remove(id),
        _ => players,
    }
}

/// The world after a message.
pub open spec fn world_after(
    world: Option<WireWorld>,
    msg: Option<ServerMessage>,
) -> Option<WireWorld> {
    match msg {
        Some(ServerMessage::World(w)) => Some(w),
        _ => world,
    }
}

impl SharedState {
    /// Nobody there, and no world yet.
    pub fn new() -> (r: SharedState)
        ensures
            r.remote_players@ == Map::<u64, RemotePlayerState>::empty(),
            r.latest_world is None,
    {
        SharedState { remote_players: HashMap::new(), latest_world: None }
    }

    /// Takes a message in. `None` stands for a text that is no message; it
    /// changes nothing.
    pub fn handle_server_message(&mut self, msg: Option<ServerMessage>)
        ensures
            final(self).remote_players@ == players_after(old(self).remote_players@, msg),
            final(self).latest_world == world_after(old(self).latest_world, msg),
    {
        match msg {
            Some(ServerMessage::PlayerUpdate { id, head, left_hand, right_hand }) => {
                let state = RemotePlayerState {
                    head: from_wire(head),
                    left_hand: hand_from_wire(left_hand),
                    right_hand: hand_from_wire(right_hand),
                };
                self.remote_players.insert(id, state);
            },
            Some(ServerMessage::PlayerLeft { id }) => {
                self.remote_players.remove(&id);
            },
            Some(ServerMessage::World(world)) => {
                self.latest_world = Some(world);
            },
            Some(ServerMessage::Welcome { id: _ }) => {},
            None => {},
        }
    }

    /// Forgets everyone and everything: a session that ended says nothing of
    /// who is still there.
    pub fn disconnected(&mut self)
        ensures
            final(self).remote_players@ == Map::<u64, RemotePlayerState>::empty(),
            final(self).latest_world is None,
    {
        self.remote_players.clear();
        self.latest_world = None;
    }
}

/// What happens during a session.
#[derive(Debug)]
pub enum SessionEvent {
    /// The player's pose changed.
    Pose(LocalPose),
    /// The player's input changed.
    Input(PendingInput),
    /// The frame loop is gone.
    SenderGone,
    /// A text came in; `None` where it is no message.
    Text(Option<ServerMessage>),
    /// The server closed the session, or the stream ended.
    Closed,
    /// The stream failed.
    Failed,
    /// Something came in that is neither text nor a close.
    Other,
}

/// What the session does next.
#[derive(Debug)]
pub enum SessionAction {
    /// Send a message, and go on.
    Send(ClientMessage),
    /// Go on.
    Continue,
    /// End, with nothing wrong.
    End,
    /// End, because something failed.
    Fail,
}

/// What every session begins with.
pub fn session_start() -> (r: ClientMessage)
    ensures
        r == ClientMessage::Join,
{
    ClientMessage::Join
}

/// The action that an event asks for.
pub open spec fn action_for(event: SessionEvent) -> SessionAction {
    match event {
        SessionEvent::Pose(pose) => SessionAction::Send(
            ClientMessage::Update {
                head: on_wire(pose.head),
                left_hand: hand_on_wire(pose.left_hand),
                right_hand: hand_on_wire(pose.right_hand),
            },
        ),
        SessionEvent::Input(pending) => SessionAction::Send(
            ClientMessage::Input {
                input: pending.input,
                locomotion_input: pending.locomotion_input,
                rig: pending.rig,
                teleport_target: pending.teleport_target,
            },
        ),
        SessionEvent::SenderGone => SessionAction::Fail,
        SessionEvent::Text(_) => SessionAction::Continue,
        SessionEvent::Closed => SessionAction::End,
        SessionEvent::Failed => SessionAction::Fail,
        SessionEvent::Other => SessionAction::Continue,
    }
}

/// The message that an event brings.
pub open spec fn message_in(event: SessionEvent) -> Option<ServerMessage> {
    match event {
        SessionEvent::Text(msg) => msg,
        _ => None,
    }
}

/// One step of a session: takes in what the event brings, and says what to do.
pub fn run_session(state: &mut SharedState, event: SessionEvent) -> (r: SessionAction)
    ensures
        r == action_for(event),
        final(state).remote_players@ == players_after(
            old(state).remote_players@,
            message_in(event),
        ),
        final(state).latest_world == world_after(old(state).latest_world, message_in(event)),
{
    match event {
        SessionEvent::Pose(pose) => SessionAction::Send(
            ClientMessage::Update {
                head: to_wire(pose.head),
                left_hand: hand_to_wire(pose.left_hand),
                right_hand: hand_to_wire(pose.right_hand),
            },
        ),
        SessionEvent::Input(pending) => SessionAction::Send(
            ClientMessage::Input {
                input: pending.input,
                locomotion_input: pending.locomotion_input,
                rig: pending.rig,
                teleport_target: pending.teleport_target,
            },
        ),
        SessionEvent::SenderGone => SessionAction::Fail,
        SessionEvent::Text(msg) => {
            state.handle_server_message(msg);
            SessionAction::Continue
        },
        SessionEvent::Closed => SessionAction::End,
        SessionEvent::Failed => SessionAction::Fail,
        SessionEvent::Other => SessionAction::Continue,
    }
}

/// What a player sent last is what others see, and a player who left is gone,
/// whatever came before.
pub proof fn last_word_on_a_player_counts(
    players: Map<u64, RemotePlayerState>,
    id: u64,
    head: Pose,
    left_hand: Option<Pose>,
    right_hand: Option<Pose>,
)
    ensures
        ({
            let seen = players_after(
                players,
                Some(ServerMessage::PlayerUpdate { id, head, left_hand, right_hand }),
            );
            &&& seen.contains_key(id)
            &&& seen[id] == arrived(head, left_hand, right_hand)
            &&& players_after(seen, Some(ServerMessage::PlayerLeft { id })) == players.remove(id)
        }),
        !players_after(players, Some(ServerMessage::PlayerLeft { id })).contains_key(id),
{
    let seen = players_after(
        players,
        Some(ServerMessage::PlayerUpdate { id, head, left_hand, right_hand }),
    );
    assert(seen.remove(id) =~= players.remove(id));
}

/// A trimmed text has no white space at its ends, so trimming it again changes
/// nothing.
pub proof fn trimming_leaves_no_space_around(s: Seq<char>)
    ensures
        ({
            let t = trimmed(s, white_in(s));
            &&& t.len() > 0 ==> !white_space(t[0]) && !white_space(t.last())
            &&& trimmed(t, white_in(t)) == t
        }),
{
    let white = white_in(s);
    let t = trimmed(s, white);
    leading_flags(white);
    trailing_flags(white);
    if leading(white) < s.len() {
        assert(trailing(white) < s.len() - leading(white)) by {
            if trailing(white) >= s.len() - leading(white) {
                assert(white[leading(white)]);
            }
        }
        leading_is(white_in(t), 0);
        trailing_is(white_in(t), 0);
        assert(t.subrange(0, t.len() as int) =~= t);
    }
}

/// A pose that the player strikes is sent, each hand as its own, and whoever takes
/// the update in sees the player as they stood: the head and both hands where they
/// were tracked, and no hand that was not. Nobody else is moved by it.
pub proof fn a_pose_arrives_as_it_was_struck(
    players: Map<u64, RemotePlayerState>,
    id: u64,
    pose: LocalPose,
)
    ensures
        match action_for(SessionEvent::Pose(pose)) {
            SessionAction::Send(ClientMessage::Update { head, left_hand, right_hand }) => {
                let seen = players_after(
                    players,
                    Some(ServerMessage::PlayerUpdate { id, head, left_hand, right_hand }),
                );
                &&& head.position == pose.head.position && head.rotation == pose.head.rotation
                &&& match (left_hand, pose.left_hand) {
                    (Some(sent), Some(struck)) => sent.position == struck.position && sent.rotation
                        == struck.rotation,
                    (None, None) => true,
                    _ => false,
                }
                &&& match (right_hand, pose.right_hand) {
                    (Some(sent), Some(struck)) => sent.position == struck.position && sent.rotation
                        == struck.rotation,
                    (None, None) => true,
                    _ => false,
                }
                &&& seen.contains_key(id)
                &&& seen[id].head == pose.head
                &&& seen[id].left_hand == pose.left_hand
                &&& seen[id].right_hand == pose.right_hand
                &&& forall|other: u64|
                    other != id ==> #[trigger] seen.contains_key(other) == players.contains_key(
                        other,
                    ) && (seen.contains_key(other) ==> seen[other] == players[other])
            },
            _ => false,
        },
{
}

/// Every input is sent whole. The session ends where the server closes it, fails
/// where the stream fails or nobody is left to send for, and goes on at anything
/// else. Only a pose and an input are sent.
pub proof fn a_session_goes_on_until_it_is_over(event: SessionEvent)
    ensures
        event matches SessionEvent::Input(pending) ==> (action_for(
            event,
        ) matches SessionAction::Send(
            ClientMessage::Input { input, locomotion_input, rig, teleport_target },
        ) && input == pending.input && locomotion_input == pending.locomotion_input && rig
            == pending.rig && teleport_target == pending.teleport_target),
        action_for(event) is Send <==> event is Pose || event is Input,
        action_for(event) is End <==> event is Closed,
        action_for(event) is Fail <==> event is SenderGone || event is Failed,
        action_for(event) is Continue <==> event is Text || event is Other,
{
}

/// What the server says of one thing changes nothing else: an update moves its own
/// player to where it says, each hand as its own; a parting takes away who left;
/// a world takes the place of the world before; a welcome and a text that is no
/// message change nothing, and so does every event that brings no text.
pub proof fn a_message_changes_what_it_speaks_of(
    players: Map<u64, RemotePlayerState>,
    world: Option<WireWorld>,
    event: SessionEvent,
    id: u64,
)
    ensures
        ({
            let seen = players_after(players, message_in(event));
            let after = world_after(world, message_in(event));
            match event {
                SessionEvent::Text(Some(ServerMessage::PlayerUpdate {
                    id: who,
                    head,
                    left_hand,
                    right_hand,
                })) => {
                    &&& after == world
                    &&& seen.contains_key(id) <==> id == who || players.contains_key(id)
                    &&& id != who && players.contains_key(id) ==> seen[id] == players[id]
                    &&& id == who ==> {
                        &&& seen[id].head.position == head.position
                        &&& seen[id].head.rotation == head.rotation
                        &&& match (seen[id].left_hand, left_hand) {
                            (Some(t), Some(p)) => t.position == p.position && t.rotation
                                == p.rotation,
                            (None, None) => true,
                            _ => false,
                        }
                        &&& match (seen[id].right_hand, right_hand) {
                            (Some(t), Some(p)) => t.position == p.position && t.rotation
                                == p.rotation,
                            (None, None) => true,
                            _ => false,
                        }
                    }
                },
                SessionEvent::Text(Some(ServerMessage::PlayerLeft { id: who })) => {
                    &&& after == world
                    &&& seen.contains_key(id) <==> id != who && players.contains_key(id)
                    &&& seen.contains_key(id) ==> seen[id] == players[id]
                },
                SessionEvent::Text(Some(ServerMessage::World(w))) => {
                    &&& after == Some(w)
                    &&& seen == players
                },
                _ => after == world && seen == players,
            }
        }),
{
}

/// White space is what Unicode counts as such, and nothing else.
pub proof fn white_space_is_one_of_these(c: char)
    ensures
        white_space(c) <==> {
            let n = c as u32;
            ||| n == 0x09 || n == 0x0a || n == 0x0b || n == 0x0c || n == 0x0d
            ||| n == 0x20 || n == 0x85 || n == 0xa0 || n == 0x1680
            ||| n == 0x2000 || n == 0x2001 || n == 0x2002 || n == 0x2003 || n == 0x2004
            ||| n == 0x2005 || n == 0x2006 || n == 0x2007 || n == 0x2008 || n == 0x2009
            ||| n == 0x200a || n == 0x2028 || n == 0x2029 || n == 0x202f || n == 0x205f
            ||| n == 0x3000
        },
{
}

/// The address is what the settings hold between the white space before it and the
/// white space behind it, with nothing else lost. The developer's own machine is
/// asked where the settings hold nothing but white space, or cannot be read.
pub proof fn the_address_is_what_the_settings_say(contents: Option<Seq<char>>)
    ensures
        match contents {
            Some(s) => if forall|i: int| 0 <= i < s.len() ==> white_space(#[trigger] s[i]) {
                url_of(contents) == "ws://127.0.0.1:9001"@
            } else {
                exists|from: int, to: int|
                    {
                        &&& 0 <= from < to <= s.len()
                        &&& url_of(contents) == #[trigger] s.subrange(from, to)
                        &&& !white_space(s[from]) && !white_space(s[to - 1])
                        &&& forall|i: int|
                            0 <= i < from || to <= i < s.len() ==> white_space(#[trigger] s[i])
                    }
            },
            None => url_of(contents) == "ws://127.0.0.1:9001"@,
        },
{
    if let Some(s) = contents {
        let white = white_in(s);
        leading_flags(white);
        trailing_flags(white);
        assert forall|i: int| 0 <= i < s.len() implies white[i] == white_space(#[trigger] s[i]) by {
        }
        let from = leading(white);
        let to = s.len() - trailing(white);
        assert forall|i: int| 0 <= i < from || to <= i < s.len() implies white_space(
            #[trigger] s[i],
        ) by {
            assert(white[i]);
        }
        if forall|i: int| 0 <= i < s.len() ==> white_space(#[trigger] s[i]) {
            if from < s.len() {
                assert(white_space(s[from]));
            }
        } else {
            let k = choose|i: int| 0 <= i < s.len() && !white_space(#[trigger] s[i]);
            assert(!white[k]);
            assert(from <= k < to);
            assert(s.subrange(from, to).len() > 0);
            assert(!white_space(s[from]) && !white_space(s[to - 1]));
        }
    }
}

} // verus!
