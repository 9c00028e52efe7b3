//! The sprite atlas: one packed texture plus, for every sprite, its packed
//! rectangle and whether the packer stored it rotated a quarter turn.
//!
//! Packing itself is an external collaborator; the library validates the
//! frames it is handed and owns all sampling arithmetic.
use crate::image::{Img, Rgba};
use vstd::prelude::*;

verus! {

/// One sprite's packed rectangle. `w` and `h` are the packed sides; when
/// `rotated` is set the sprite's logical sides are `(h, w)`.
#[derive(Clone, Copy, Debug, PartialEq, Eq, Structural)]
pub struct Frame {
    pub id: u16,
    pub x: u32,
    pub y: u32,
    pub w: u32,
    pub h: u32,
    pub rotated: bool,
}

/// The sprite's logical width as drawn.
pub open spec fn spec_logical_w(fr: Frame) -> int {
    if fr.rotated {
        fr.h as int
    } else {
        fr.w as int
    }
}

/// The sprite's logical height as drawn.
pub open spec fn spec_logical_h(fr: Frame) -> int {
    if fr.rotated {
        fr.w as int
    } else {
        fr.h as int
    }
}

/// The packed texture with the frame table.
pub struct Atlas {
    pub img: Img,
    pub frames: Vec<Frame>,
}

/// A frame is non-empty and lies inside the sheet.
pub open spec fn frame_ok(fr: Frame, img: Img) -> bool {
    &&& 1 <= fr.w
    &&& 1 <= fr.h
    &&& fr.x + fr.w <= img.width
    &&& fr.y + fr.h <= img.height
}

impl Atlas {
    pub open spec fn wf(self) -> bool {
        &&& self.img.wf()
        &&& self.frames.len() >= 1
        &&& forall|i: int| 0 <= i < self.frames.len() ==> frame_ok(#[trigger] self.frames[i], self.img)
    }

    /// Validate a sheet and frame table handed over by the packer; `None`
    /// exactly when some frame is empty or sticks out of the sheet, or the
    /// table is empty.
    pub fn new(img: Img, frames: Vec<Frame>) -> (r: Option<Atlas>)
        requires
            img.wf(),
        ensures
            match r {
                Some(atlas) => {
                    &&& atlas.wf()
                    &&& atlas.img == img
                    &&& atlas.frames == frames
                    &&& frames.len() >= 1
                    &&& forall|i: int|
                        0 <= i < frames.len() ==> frame_ok(#[trigger] frames[i], img)
                },
                None => frames.len() == 0 || exists|i: int|
                    0 <= i < frames.len() && !frame_ok(#[trigger] frames[i], img),
            },
    {
        if frames.len() == 0 {
            return None;
        }
        let mut i: usize = 0;
        while i < frames.len()
            invariant
                i <= frames.len(),
                img.wf(),
                forall|j: int| 0 <= j < i ==> frame_ok(#[trigger] frames[j], img),
            decreases frames.len() - i,
        {
            let fr = frames[i];
            if fr.w < 1 || fr.h < 1 {
                return None;
            }
            if fr.x as u64 + fr.w as u64 > img.width as u64 {
                return None;
            }
            if fr.y as u64 + fr.h as u64 > img.height as u64 {
                return None;
            }
            i = i + 1;
        }
        Some(Atlas { img, frames })
    }

    /// The number of sprites in the table.
    pub fn sprite_count(&self) -> (n: usize)
        ensures
            n == self.frames.len(),
    {
        self.frames.len()
    }
}

/// The texel of sprite `fr` at logical coordinates `(u, v)`, read from the
/// sheet: a frame stored rotated a quarter turn clockwise is read back with
/// the inverse permutation of coordinates.
pub open spec fn spec_sprite_texel(atlas: Atlas, fr: Frame, u: int, v: int) -> Rgba {
    if fr.rotated {
        atlas.img.pixel_at(fr.x + (spec_logical_h(fr) - 1 - v), fr.y + u)
    } else {
        atlas.img.pixel_at(fr.x + u, fr.y + v)
    }
}

/// Read one sprite texel from the sheet.
pub fn sprite_texel(atlas: &Atlas, frame_index: usize, u: i64, v: i64) -> (p: Rgba)
    requires
        atlas.wf(),
        frame_index < atlas.frames.len(),
        0 <= u < spec_logical_w(atlas.frames[frame_index as int]),
        0 <= v < spec_logical_h(atlas.frames[frame_index as int]),
    ensures
        p == spec_sprite_texel(*atlas, atlas.frames[frame_index as int], u as int, v as int),
{
    let fr = atlas.frames[frame_index];
    if fr.rotated {
        let px = fr.x as usize + (fr.w as usize - 1 - v as usize);
        let py = fr.y as usize + u as usize;
        atlas.img.get(px, py)
    } else {
        let px = fr.x as usize + u as usize;
        let py = fr.y as usize + v as usize;
        atlas.img.get(px, py)
    }
}

} // verus!
