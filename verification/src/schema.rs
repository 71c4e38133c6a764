//! The parts of the renderer, panel and physics schemas that name lumps and
//! kinds. Values of these types travel as message payloads; the runtime does
//! not interpret them.

use vstd::prelude::*;
use crate::lump::LumpId;

verus! {

/// A renderer request succeeded.
#[derive(Clone, Copy, Debug, PartialEq, Eq, Structural)]
pub enum RendererSuccess {
    /// The request succeeded. What capabilities come with the response depends
    /// on the request.
    Done,
}

/// A renderer request failed.
#[derive(Clone, Copy, Debug, PartialEq, Eq, Structural)]
pub enum RendererError {
    /// A lump involved in the operation was improperly formatted or not
    /// found.
    LumpError,
}

/// The direction of a normal texture's Y axis.
#[derive(Clone, Copy, Debug, PartialEq, Eq, Structural)]
pub enum NormalTextureYDirection {
    /// Right handed: X right, Y up.
    Up,
    /// Left handed: X right, Y down.
    Down,
}

/// The components of a texture that hold the normal.
#[derive(Clone, Copy, Debug, PartialEq, Eq, Structural)]
pub enum NormalTextureComponents {
    /// The normal is stored in the RGB values.
    Tricomponent,
    /// The normal is stored in the RG values; the third is reconstructed.
    Bicomponent,
    /// The normal is stored in the green and alpha values; the third is
    /// reconstructed.
    BicomponentSwizzled,
}

/// A normal texture.
#[derive(Clone, Copy, Debug, PartialEq, Eq)]
pub struct NormalTexture {
    /// The texture data of this normal texture.
    pub texture: LumpId,
    /// The direction of the texture's normals.
    pub direction: NormalTextureYDirection,
    /// The texture's components to use for normal mapping.
    pub components: NormalTextureComponents,
}

/// How ambient occlusion, metallic and roughness values are stored.
#[derive(Clone, Copy, Debug, PartialEq, Eq)]
pub enum AoMRTextures {
    /// No texture.
    Absent,
    /// One texture with ambient occlusion in R, roughness in G, metallic in B.
    Combined { texture: Option<LumpId> },
    /// Ambient occlusion in R of one texture; roughness in G and metallic in B
    /// of another.
    SwizzledSplit { ao_texture: Option<LumpId>, mr_texture: Option<LumpId> },
    /// Ambient occlusion in R of one texture; roughness in R and metallic in G
    /// of another.
    Split { ao_texture: Option<LumpId>, mr_texture: Option<LumpId> },
    /// Ambient occlusion, metallic and roughness each in R of a texture of its
    /// own.
    BWSplit { ao_texture: Option<LumpId>, m_texture: Option<LumpId>, r_texture: Option<LumpId> },
}

/// How clearcoat values are stored.
#[derive(Clone, Copy, Debug, PartialEq, Eq)]
pub enum ClearcoatTextures {
    /// No texture.
    Absent,
    /// One texture with clearcoat in R and clearcoat roughness in G.
    GltfCombined { texture: Option<LumpId> },
    /// Clearcoat in R of one texture, clearcoat roughness in G of another.
    GltfSplit { clearcoat_texture: Option<LumpId>, clearcoat_roughness_texture: Option<LumpId> },
    /// Clearcoat in R of one texture, clearcoat roughness in R of another.
    BWSplit { clearcoat_texture: Option<LumpId>, clearcoat_roughness_texture: Option<LumpId> },
}

/// A material value that comes as a constant, as a texture, or as both.
#[derive(Clone, Copy, Debug, PartialEq, Eq)]
pub struct MaterialComponent<T> {
    pub value: Option<T>,
    pub texture: Option<LumpId>,
}

/// How a texture is sampled.
#[derive(Clone, Copy, Debug, PartialEq, Eq, Structural)]
pub enum SampleType {
    Nearest,
    Linear,
}

/// What a cursor did on a panel.
#[derive(Clone, Copy, Debug, PartialEq, Eq, Structural)]
pub enum CursorEventKind {
    /// The cursor has entered the panel; carries the state of the select
    /// button.
    Entered(bool),
    /// The cursor has left the panel.
    Left,
    /// The cursor has moved on the panel.
    Move,
    /// The cursor has pressed its select button.
    ClickDown,
    /// The cursor has released its select button.
    ClickUp,
}

/// How a rigid body takes part in the simulation.
#[derive(Clone, Copy, Debug, PartialEq, Eq, Structural)]
pub enum RigidBodyKind {
    /// Can be affected by external forces.
    Dynamic,
    /// Cannot be affected by external forces.
    Fixed,
    /// Controlled at the position level; acts on dynamic bodies, is not acted
    /// upon.
    KinematicPositionBased,
    /// Controlled at the velocity level; acts on dynamic bodies, is not acted
    /// upon.
    KinematicVelocityBased,
}

/// An event for a port of a rigid body or of one of its colliders.
#[derive(Debug)]
pub struct PortEvent {
    /// The collider that the event targets, or `None` for the body.
    pub collider: Option<usize>,
    /// The name of the port that the event targets.
    pub target: String,
    /// The inner event data.
    pub data: (),
}

/// One result of a physics query.
#[derive(Clone, Copy, Debug, PartialEq, Eq, Structural)]
pub struct QueryItem {}

} // verus!
