//! What the renderer's asset loaders decide before they hand data to the
//! renderer: whether a texture has the bytes that its size calls for, and
//! which attributes of a mesh are complete.

use vstd::prelude::*;
use crate::asset::{AssetError, Loaded};
use crate::schema::RendererError;

verus! {

/// The number of bytes of one pixel.
pub const BYTES_PER_PIXEL: u64 = 4;

/// The number of faces of a cube texture.
pub const CUBE_FACES: u64 = 6;

/// The width and height of a texture, in pixels.
#[derive(Clone, Copy, Debug, PartialEq, Eq, Structural)]
pub struct TextureSize {
    pub x: u32,
    pub y: u32,
}

/// A texture as a lump holds it.
#[derive(Clone, Debug)]
pub struct TextureData {
    /// An optional label for this texture.
    pub label: Option<String>,
    /// The size of this texture.
    pub size: TextureSize,
    /// The pixels, four bytes each.
    pub data: Vec<u8>,
}

/// The number of bytes that a texture of `size` with `faces` faces has.
pub open spec fn texture_len(size: TextureSize, faces: int) -> int {
    size.x * size.y * BYTES_PER_PIXEL * faces
}

/// Whether `len` bytes are what a texture of `size` with `faces` faces has.
fn has_texture_len(len: usize, size: TextureSize, faces: u64) -> (r: bool)
    requires
        faces <= CUBE_FACES,
    ensures
        r == (len == texture_len(size, faces as int)),
{
    let x = size.x as u128;
    let y = size.y as u128;
    assert(x * y <= 0xFFFF_FFFF * 0xFFFF_FFFF) by (nonlinear_arith)
        requires
            x <= 0xFFFF_FFFF,
            y <= 0xFFFF_FFFF,
    ;
    let pixels: u128 = x * y;
    let per_face: u128 = pixels * 4;
    assert(per_face * faces <= 0xFFFF_FFFF * 0xFFFF_FFFF * 4 * 6) by (nonlinear_arith)
        requires
            per_face <= 0xFFFF_FFFF * 0xFFFF_FFFF * 4,
            faces <= 6,
    ;
    let expected: u128 = per_face * (faces as u128);
    assert(expected == size.x * size.y * BYTES_PER_PIXEL * faces) by (nonlinear_arith)
        requires
            expected == per_face * faces,
            per_face == pixels * 4,
            pixels == size.x * size.y,
            BYTES_PER_PIXEL == 4,
    ;
    len as u128 == expected
}

/// Accepts a flat texture: one with four bytes for each pixel of its size.
pub fn check_texture(data: &TextureData) -> (r: Result<(), AssetError>)
    ensures
        r is Ok <==> data.data@.len() == texture_len(data.size, 1),
        r is Err ==> r == Err::<(), AssetError>(AssetError::LumpMalformed),
{
    if has_texture_len(data.data.len(), data.size, 1) {
        Ok(())
    } else {
        Err(AssetError::LumpMalformed)
    }
}

/// Accepts a cube texture: one with four bytes for each pixel of each of its
/// six faces.
pub fn check_cube_texture(data: &TextureData) -> (r: Result<(), AssetError>)
    ensures
        r is Ok <==> data.data@.len() == texture_len(data.size, CUBE_FACES as int),
        r is Err ==> r == Err::<(), AssetError>(AssetError::LumpMalformed),
{
    if has_texture_len(data.data.len(), data.size, CUBE_FACES) {
        Ok(())
    } else {
        Err(AssetError::LumpMalformed)
    }
}

/// How many values a mesh holds of each attribute.
#[derive(Clone, Copy, Debug, PartialEq, Eq, Structural)]
pub struct MeshCounts {
    pub vertex_num: u32,
    pub positions: usize,
    pub normals: usize,
    pub tangents: usize,
    pub uv0: usize,
    pub uv1: usize,
    pub colors: usize,
    pub joint_indices: usize,
    pub joint_weights: usize,
}

/// Which attributes of a mesh go to the renderer.
#[derive(Clone, Copy, Debug, PartialEq, Eq, Structural)]
pub struct MeshAttributes {
    pub normals: bool,
    pub tangents: bool,
    pub uv0: bool,
    pub uv1: bool,
    pub colors: bool,
    pub joint_indices: bool,
    pub joint_weights: bool,
}

/// The attributes of `counts` that hold one value for each vertex.
pub open spec fn complete_attributes(counts: MeshCounts) -> MeshAttributes {
    MeshAttributes {
        normals: counts.normals == counts.vertex_num,
        tangents: counts.tangents == counts.vertex_num,
        uv0: counts.uv0 == counts.vertex_num,
        uv1: counts.uv1 == counts.vertex_num,
        colors: counts.colors == counts.vertex_num,
        joint_indices: counts.joint_indices == counts.vertex_num,
        joint_weights: counts.joint_weights == counts.vertex_num,
    }
}

/// Accepts a mesh that has a position for each vertex, and says which of its
/// other attributes are used: those that have a value for each vertex. An
/// attribute of another length is left out.
pub fn check_mesh(counts: &MeshCounts) -> (r: Result<MeshAttributes, AssetError>)
    ensures
        r is Ok <==> counts.positions == counts.vertex_num,
        r matches Ok(attributes) ==> attributes == complete_attributes(*counts),
        r is Err ==> r == Err::<MeshAttributes, AssetError>(AssetError::LumpMalformed),
{
    let num = counts.vertex_num as usize;
    if counts.positions != num {
        return Err(AssetError::LumpMalformed);
    }
    Ok(
        MeshAttributes {
            normals: counts.normals == num,
            tangents: counts.tangents == num,
            uv0: counts.uv0 == num,
            uv1: counts.uv1 == num,
            colors: counts.colors == num,
            joint_indices: counts.joint_indices == num,
            joint_weights: counts.joint_weights == num,
        },
    )
}

/// What the renderer answers for a load of an asset: the outcome of the
/// load where it did not fail, and a lump error where it failed, whatever
/// the failure was.
pub open spec fn renderer_load_of(loaded: Result<Loaded, AssetError>) -> Result<
    Loaded,
    RendererError,
> {
    match loaded {
        Ok(found) => Ok(found),
        Err(_) => Err(RendererError::LumpError),
    }
}

/// The renderer's answer for the outcome `loaded` of a load, as
/// [`renderer_load_of`] says.
pub fn try_load_asset(loaded: Result<Loaded, AssetError>) -> (r: Result<Loaded, RendererError>)
    ensures
        r == renderer_load_of(loaded),
{
    match loaded {
        Ok(found) => Ok(found),
        Err(_) => Err(RendererError::LumpError),
    }
}

} // verus!
