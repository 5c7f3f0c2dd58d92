//! A scene document, as far as the client reads it.

use vstd::prelude::*;

use crate::engine::{GripPointDef, PartAnimationDef, SkyDef};
use crate::scalar::{Scalar, Vec4};

verus! {

/// The triangles of one material on one brush, flattened: three numbers to a
/// position and to a normal, four to a tangent, two to each texture coordinate.
#[derive(Debug)]
pub struct MeshGroup {
    pub material: String,
    pub positions: Vec<Scalar>,
    pub normals: Vec<Scalar>,
    pub tangents: Vec<Scalar>,
    pub uvs: Vec<Scalar>,
    pub uv2: Vec<Scalar>,
    pub indices: Vec<u32>,
}

/// An object that the author placed.
#[derive(Debug)]
pub struct GameObject {
    pub id: String,
    /// The meshed solid, where the object is a brush.
    pub brush: Option<Vec<MeshGroup>>,
    /// The object's colour, in linear light.
    pub tint: Vec4,
    pub grip_points: Vec<GripPointDef>,
    pub part_animations: Vec<PartAnimationDef>,
}

/// The objects of a level, and the sky over them.
#[derive(Debug)]
pub struct Scene {
    pub objects: Vec<GameObject>,
    pub sky: Option<SkyDef>,
}

} // verus!
