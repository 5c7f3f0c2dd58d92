//! The decision-making core of a headset client.
//!
//! The client connects to a game server, draws the world that the server
//! describes, and tells the server what the player does. This library holds what
//! the client decides and computes; devices, files, sockets and floating-point
//! arithmetic are its caller's.
//!
//! Numbers from tracked devices are carried as bit patterns ([`scalar`]). The
//! library stores and compares them. Where a decision needs arithmetic, the
//! caller passes the measured value, or a closure that measures it.

pub mod avatar;
pub mod avatar_render;
pub mod brush_render;
pub mod client;
pub mod client_audio;
pub mod convert;
pub mod debug_packet;
pub mod engine;
pub mod fnv;
pub mod frame_log;
pub mod frame_loop;
pub mod grab_detect;
pub mod hands;
pub mod level;
pub mod lightmap_client;
pub mod loaders;
pub mod map_stream;
pub mod mesh_load;
pub mod movement;
pub mod nearest;
pub mod network;
pub mod part_pull;
pub mod particles;
pub mod picture;
pub mod platform;
pub mod protocol;
pub mod render_prep;
pub mod scalar;
pub mod scene;
pub mod sight;
pub mod soundmap_client;
pub mod table;
pub mod terrain_render;
pub mod text;
pub mod to_wire;
pub mod triangles;

use vstd::prelude::*;
use vstd::string::StringExecFns;

verus! {

/// How serious a line of the log is.
#[derive(Clone, Copy, Debug, PartialEq, Eq, Structural)]
pub enum Severity {
    Info,
    Error,
}

/// A line of the log.
#[derive(Debug)]
pub struct LogLine {
    pub level: Severity,
    pub text: String,
}

/// The last line of the log: how the client ended. An error is given as its
/// text.
pub fn run(outcome: Result<(), String>) -> (r: LogLine)
    ensures
        match outcome {
            Ok(_) => r.level == Severity::Info && r.text@ == "App exited cleanly"@,
            Err(e) => r.level == Severity::Error && r.text@ == "App error: "@ + e@,
        },
{
    match outcome {
        Ok(_) => LogLine { level: Severity::Info, text: String::from_str("App exited cleanly") },
        Err(e) => {
            let mut text = String::from_str("App error: ");
            text.append(e.as_str());
            LogLine { level: Severity::Error, text }
        },
    }
}

} // verus!
