//! What the renderer is handed of what the server describes.
//!
//! The renderer draws in the player's frame. The functions here are told how a
//! point, a rotation and a direction of the world look from there.

use vstd::prelude::*;

use crate::protocol::{
    WireColor3, WireCuboidShape, WireCuboidStyle, WireLightKind, WireRenderCuboid,
    WireRenderLaser, WireRenderLight,
};
use crate::scalar::{Quat, Scalar, Vec3};

verus! {

/// A colour with its opacity, as the renderer takes it.
#[derive(Clone, Copy, Debug, PartialEq, Eq, Structural)]
pub struct Color3(pub u8, pub u8, pub u8, pub u8);

/// What a cuboid is painted with.
#[derive(Clone, Copy, Debug, PartialEq, Eq, Structural)]
pub enum CuboidPaint {
    Solid { color: Color3 },
    Wireframe { wire_color: Color3 },
    SolidAndWire { color: Color3, wire_color: Color3 },
}

/// The shape inside a cuboid's bounds, as the renderer takes it.
#[derive(Clone, Copy, Debug, PartialEq, Eq, Structural)]
pub enum CuboidShape {
    Box,
    Cylinder,
}

/// A cuboid, in the player's frame.
#[derive(Debug)]
pub struct Cuboid {
    pub position: Vec3,
    pub half_size: Vec3,
    pub rotation: Quat,
    pub paint: CuboidPaint,
    pub lightmap_key: Option<String>,
    pub reflectivity: Scalar,
    pub shape: CuboidShape,
}

/// How a light spreads, as the renderer takes it.
#[derive(Clone, Copy, Debug, PartialEq, Eq, Structural)]
pub enum LightKind {
    Point,
    Spot,
}

/// A light, in the player's frame.
#[derive(Clone, Copy, Debug, PartialEq, Eq, Structural)]
pub struct Light {
    pub position: Vec3,
    pub direction: Vec3,
    pub kind: LightKind,
    pub color: Color3,
    pub intensity: Scalar,
    pub range: Scalar,
    pub cone_angle_deg: Scalar,
}

/// A beam, in the player's frame.
#[derive(Clone, Copy, Debug, PartialEq, Eq, Structural)]
pub struct Beam {
    pub start: Vec3,
    pub end: Vec3,
    pub width: Scalar,
    pub color: Color3,
}

/// A colour as the renderer takes it.
pub open spec fn shade(c: WireColor3) -> Color3 {
    Color3(c.0, c.1, c.2, c.3)
}

/// A colour as the renderer takes it.
pub fn ss_color(c: WireColor3) -> (r: Color3)
    ensures
        r == shade(c),
{
    Color3(c.0, c.1, c.2, c.3)
}

/// The paint of a cuboid: only the colours that its style shows.
pub open spec fn paint_of(rc: WireRenderCuboid) -> CuboidPaint {
    match rc.style {
        WireCuboidStyle::Solid => CuboidPaint::Solid { color: shade(rc.color) },
        WireCuboidStyle::Wireframe => CuboidPaint::Wireframe { wire_color: shade(rc.wire_color) },
        WireCuboidStyle::SolidAndWire => CuboidPaint::SolidAndWire {
            color: shade(rc.color),
            wire_color: shade(rc.wire_color),
        },
    }
}

/// The shape of a cuboid, as the renderer takes it.
pub open spec fn shape_of(shape: WireCuboidShape) -> CuboidShape {
    match shape {
        WireCuboidShape::Box => CuboidShape::Box,
        WireCuboidShape::Cylinder => CuboidShape::Cylinder,
    }
}

/// Whether a cuboid is drawn as the server describes it.
pub open spec fn draws<P: Fn(Vec3) -> Vec3, R: Fn(Quat) -> Quat>(
    c: Cuboid,
    rc: WireRenderCuboid,
    point: P,
    turn: R,
) -> bool {
    &&& call_ensures(point, (rc.position,), c.position)
    &&& call_ensures(turn, (rc.rotation,), c.rotation)
    &&& c.half_size == rc.half_size
    &&& c.paint == paint_of(rc)
    &&& c.lightmap_key matches Some(key) && key@ == rc.id@
    &&& c.reflectivity == rc.reflectivity.in_unit()
    &&& c.shape == shape_of(rc.shape)
}

/// A cuboid in the player's frame. Its light map is found by its id, and its
/// reflectivity limited to the range from zero to one.
pub fn to_space_soup_cuboid<P: Fn(Vec3) -> Vec3, R: Fn(Quat) -> Quat>(
    rc: &WireRenderCuboid,
    point: &P,
    turn: &R,
) -> (r: Cuboid)
    requires
        call_requires(*point, (rc.position,)),
        call_requires(*turn, (rc.rotation,)),
    ensures
        draws(r, *rc, *point, *turn),
{
    Cuboid {
        position: point(rc.position),
        half_size: rc.half_size,
        rotation: turn(rc.rotation),
        paint: match rc.style {
            WireCuboidStyle::Solid => CuboidPaint::Solid { color: ss_color(rc.color) },
            WireCuboidStyle::Wireframe => CuboidPaint::Wireframe {
                wire_color: ss_color(rc.wire_color),
            },
            WireCuboidStyle::SolidAndWire => CuboidPaint::SolidAndWire {
                color: ss_color(rc.color),
                wire_color: ss_color(rc.wire_color),
            },
        },
        lightmap_key: Some(rc.id.clone()),
        reflectivity: rc.reflectivity.clamp_unit(),
        shape: match rc.shape {
            WireCuboidShape::Box => CuboidShape::Box,
            WireCuboidShape::Cylinder => CuboidShape::Cylinder,
        },
    }
}

/// Whether a light shines as the server describes it.
pub open spec fn shines<P: Fn(Vec3) -> Vec3, D: Fn(Vec3) -> Vec3>(
    l: Light,
    rl: WireRenderLight,
    point: P,
    aim: D,
) -> bool {
    &&& call_ensures(point, (rl.position,), l.position)
    &&& call_ensures(aim, (rl.direction,), l.direction)
    &&& l.kind == (match rl.kind {
        WireLightKind::Point => LightKind::Point,
        WireLightKind::Spot => LightKind::Spot,
    })
    &&& l.color == shade(rl.color)
    &&& l.intensity == rl.intensity
    &&& l.range == rl.range
    &&& l.cone_angle_deg == rl.cone_angle_deg
}

/// A light in the player's frame.
pub fn to_space_soup_light<P: Fn(Vec3) -> Vec3, D: Fn(Vec3) -> Vec3>(
    rl: &WireRenderLight,
    point: &P,
    aim: &D,
) -> (r: Light)
    requires
        call_requires(*point, (rl.position,)),
        call_requires(*aim, (rl.direction,)),
    ensures
        shines(r, *rl, *point, *aim),
{
    Light {
        position: point(rl.position),
        direction: aim(rl.direction),
        kind: match rl.kind {
            WireLightKind::Point => LightKind::Point,
            WireLightKind::Spot => LightKind::Spot,
        },
        color: ss_color(rl.color),
        intensity: rl.intensity,
        range: rl.range,
        cone_angle_deg: rl.cone_angle_deg,
    }
}

/// Whether a beam glows as the server describes it.
pub open spec fn glows<P: Fn(Vec3) -> Vec3>(b: Beam, rl: WireRenderLaser, point: P) -> bool {
    &&& call_ensures(point, (rl.origin,), b.start)
    &&& call_ensures(point, (rl.end,), b.end)
    &&& b.width == rl.beam_width
    &&& b.color == shade(rl.color)
}

/// A beam in the player's frame.
pub fn to_space_soup_beam<P: Fn(Vec3) -> Vec3>(rl: &WireRenderLaser, point: &P) -> (r: Beam)
    requires
        call_requires(*point, (rl.origin,)),
        call_requires(*point, (rl.end,)),
    ensures
        glows(r, *rl, *point),
{
    Beam {
        start: point(rl.origin),
        end: point(rl.end),
        width: rl.beam_width,
        color: ss_color(rl.color),
    }
}

} // verus!
