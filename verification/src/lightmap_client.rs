//! Baked lighting, pushed by the scene editor while a level is being lit.

use vstd::prelude::*;
use vstd::string::StringExecFns;

use crate::picture::{decode_picture, pixels_in};

verus! {

/// New baked lighting for one object.
#[derive(Debug)]
pub struct LightmapUpdate {
    pub object_id: String,
    pub width: u32,
    pub height: u32,
    pub rgba: Vec<u8>,
}

/// What the editor sends: an image file in Base64, and whose lighting it is.
#[derive(Debug)]
pub struct WireLightmapMessage {
    pub object_id: String,
    pub width: u32,
    pub height: u32,
    pub png_b64: String,
}

/// The address that serves a scene's lightmaps, on the developer's own machine.
pub fn server_ws_url(scene_name: &str) -> (r: String)
    ensures
        r@ == "ws://127.0.0.1:8000/api/lightmap/"@ + scene_name@,
{
    let mut url = String::from_str("ws://127.0.0.1:8000/api/lightmap/");
    url.append(scene_name);
    url
}

/// The update that a message amounts to, given the pixels that its text encodes.
pub fn update_from(msg: WireLightmapMessage, pixels: Option<Vec<u8>>) -> (r: Option<LightmapUpdate>)
    ensures
        match pixels {
            Some(p) => r == Some(
                LightmapUpdate {
                    object_id: msg.object_id,
                    width: msg.width,
                    height: msg.height,
                    rgba: p,
                },
            ),
            None => r is None,
        },
{
    match pixels {
        Some(rgba) => Some(
            LightmapUpdate { object_id: msg.object_id, width: msg.width, height: msg.height, rgba },
        ),
        None => None,
    }
}

/// Turns a message into an update. A message whose text holds no image is
/// dropped.
pub fn handle_message(msg: WireLightmapMessage) -> (r: Option<LightmapUpdate>)
    ensures
        match r {
            Some(u) => pixels_in(msg.png_b64@) == Some(u.rgba@) && u.object_id == msg.object_id
                && u.width == msg.width && u.height == msg.height,
            None => pixels_in(msg.png_b64@) is None,
        },
{
    let pixels = decode_picture(&msg.png_b64);
    update_from(msg, pixels)
}

} // verus!
