//! The whole conversion, from a decoded luminance/alpha buffer to STL text.
use vstd::prelude::*;
use crate::height::{HeightField, cell_height};
use crate::mask::{Mask, background_spec, in_grid};
use crate::mesh::{build_mesh, mesh_spec};
use crate::stl::{stl_spec, stl_text};

verus! {

/// Why a conversion was refused.
#[derive(Clone, Copy, PartialEq, Eq, Structural, Debug)]
pub enum ReliefError {
    /// The buffer does not hold two bytes for each pixel of the image.
    BufferSize,
    /// The image has no pixel.
    EmptyImage,
}

/// `m` is the mask of the interleaved luminance/alpha buffer `raw` of a
/// `width` by `height` image.
pub open spec fn is_mask_of(m: &Mask, width: u32, height: u32, raw: Seq<u8>) -> bool {
    &&& m.wf()
    &&& m.width == width
    &&& m.height == height
    &&& forall|i: int|
        0 <= i < (width as int) * (height as int) ==> m.cells@[i] == !background_spec(
            raw[2 * i],
            raw[2 * i + 1],
        )
}

/// `f` is the height field of `m` for `radius`, with or without a plate.
pub open spec fn is_field_of(f: &HeightField, m: &Mask, radius: u32, plate: bool) -> bool {
    &&& f.wf()
    &&& f.width == m.width
    &&& f.height == m.height
    &&& f.plate == plate
    &&& forall|x: int, y: int|
        in_grid(m.width as int, m.height as int, x, y) ==> f.at(x, y) == cell_height(
            m,
            x,
            y,
            radius as int,
            plate,
        )
}

/// Converts a decoded image, given as interleaved luminance/alpha bytes in
/// row-major order, into the ASCII STL text of its relief mesh.
pub fn relief_stl(width: u32, height: u32, raw: &Vec<u8>, radius: u32, plate: bool) -> (r: Result<
    String,
    ReliefError,
>)
    ensures
        raw@.len() != 2 * ((width as int) * (height as int)) <==> r == Err::<
            String,
            ReliefError,
        >(ReliefError::BufferSize),
        raw@.len() == 2 * ((width as int) * (height as int)) ==> ((width == 0 || height == 0)
            <==> r == Err::<String, ReliefError>(ReliefError::EmptyImage)),
        raw@.len() == 2 * ((width as int) * (height as int)) && width > 0 && height > 0 ==> r is Ok,
        r matches Ok(s) ==> exists|m: Mask, f: HeightField|
            #![trigger is_mask_of(&m, width, height, raw@), is_field_of(&f, &m, radius, plate)]
            is_mask_of(&m, width, height, raw@) && is_field_of(&f, &m, radius, plate) && s@
                == stl_spec(mesh_spec(&f)),
{
    let mask = match Mask::from_luma_alpha(width, height, raw) {
        Some(m) => m,
        None => {
            return Err(ReliefError::BufferSize);
        },
    };
    if width == 0 || height == 0 {
        return Err(ReliefError::EmptyImage);
    }
    let field = HeightField::compute(&mask, radius, plate);
    let triangles = build_mesh(&field);
    let text = stl_text(&triangles);
    assert(is_mask_of(&mask, width, height, raw@) && is_field_of(&field, &mask, radius, plate));
    Ok(text)
}

} // verus!
