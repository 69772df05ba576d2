use vstd::prelude::*;

use crate::errors::{InputError, ProcessError};
use crate::image::Plane;

verus! {

/// Side length of the square region that the sharpness scores examine.
pub const CROP_SIZE: usize = 200;

/// An axis-aligned rectangle of pixels.
#[derive(Clone, Copy, Debug, PartialEq, Eq, Structural)]
pub struct Rect {
    pub x: usize,
    pub y: usize,
    pub width: usize,
    pub height: usize,
}

/// The centered `CROP_SIZE` square of a `width` x `height` image: its corner
/// lies `CROP_SIZE / 2` left of and above the image center.
pub open spec fn center_rect_of(width: usize, height: usize) -> Rect {
    Rect {
        x: (width / 2 - CROP_SIZE / 2) as usize,
        y: (height / 2 - CROP_SIZE / 2) as usize,
        width: CROP_SIZE,
        height: CROP_SIZE,
    }
}

/// The region scored for sharpness, or `ImageTooSmall` when the image is
/// narrower or shorter than `CROP_SIZE`.
pub fn center_crop_rect(width: usize, height: usize) -> (r: Result<Rect, ProcessError>)
    ensures
        (width < CROP_SIZE || height < CROP_SIZE) <==> r == Err::<Rect, ProcessError>(
            ProcessError::Input(InputError::ImageTooSmall),
        ),
        (width >= CROP_SIZE && height >= CROP_SIZE) ==> r is Ok,
        r matches Ok(rect) ==> {
            &&& rect == center_rect_of(width, height)
            &&& rect.x + rect.width <= width
            &&& rect.y + rect.height <= height
        },
{
    if width < CROP_SIZE || height < CROP_SIZE {
        return Err(ProcessError::Input(InputError::ImageTooSmall));
    }
    Ok(Rect { x: width / 2 - CROP_SIZE / 2, y: height / 2 - CROP_SIZE / 2, width: CROP_SIZE, height: CROP_SIZE })
}

/// The samples of `p` inside `rect`, row by row.
pub open spec fn region_of(p: Plane, rect: Rect) -> Seq<u8> {
    Seq::new(
        (rect.width * rect.height) as nat,
        |k: int| p.at(rect.x + k % (rect.width as int), rect.y + k / (rect.width as int)),
    )
}

/// Cuts the centered `CROP_SIZE` square out of a grayscale plane, or fails with
/// `ImageTooSmall` when the plane is narrower or shorter than `CROP_SIZE`.
pub fn center_crop(plane: &Plane) -> (r: Result<Plane, ProcessError>)
    requires
        plane.wf(),
    ensures
        (plane.width < CROP_SIZE || plane.height < CROP_SIZE) <==> r == Err::<Plane, ProcessError>(
            ProcessError::Input(InputError::ImageTooSmall),
        ),
        (plane.width >= CROP_SIZE && plane.height >= CROP_SIZE) ==> r is Ok,
        r matches Ok(c) ==> {
            &&& c.width == CROP_SIZE
            &&& c.height == CROP_SIZE
            &&& c.wf()
            &&& c.data@ == region_of(*plane, center_rect_of(plane.width, plane.height))
        },
{
    let rect = match center_crop_rect(plane.width, plane.height) {
        Ok(rect) => rect,
        Err(e) => return Err(e),
    };
    let ghost src = *plane;
    let len = plane.data.len();
    let mut data: Vec<u8> = Vec::new();
    let mut row: usize = 0;
    while row < rect.height
        invariant
            plane.wf(),
            len == plane.data@.len(),
            src == *plane,
            rect == center_rect_of(plane.width, plane.height),
            rect.x + rect.width <= plane.width,
            rect.y + rect.height <= plane.height,
            rect.width == CROP_SIZE,
            rect.height == CROP_SIZE,
            row <= rect.height,
            data@ == region_of(src, rect).take(row * rect.width),
        decreases rect.height - row,
    {
        let mut col: usize = 0;
        while col < rect.width
            invariant
                plane.wf(),
                len == plane.data@.len(),
                src == *plane,
                rect.x + rect.width <= plane.width,
                rect.y + rect.height <= plane.height,
                rect.width == CROP_SIZE,
                rect.height == CROP_SIZE,
                row < rect.height,
                col <= rect.width,
                data@ == region_of(src, rect).take(row * rect.width + col),
            decreases rect.width - col,
        {
            let y = rect.y + row;
            let x = rect.x + col;
            proof {
                assert(y * plane.width + x < plane.width * plane.height) by (nonlinear_arith)
                    requires
                        y < plane.height,
                        x < plane.width,
                ;
                let k = row * rect.width + col;
                assert(k % (rect.width as int) == col && k / (rect.width as int) == row) by (nonlinear_arith)
                    requires
                        k == row * rect.width + col,
                        col < rect.width,
                        rect.width > 0,
                ;
                assert(k < rect.width * rect.height) by (nonlinear_arith)
                    requires
                        k == row * rect.width + col,
                        col < rect.width,
                        row < rect.height,
                ;
            }
            data.push(plane.data[y * plane.width + x]);
            col = col + 1;
            proof {
                assert(data@ =~= region_of(src, rect).take(row * rect.width + col));
            }
        }
        row = row + 1;
        assert(row * rect.width == (row - 1) * rect.width + rect.width) by (nonlinear_arith);
    }
    assert(data@ =~= region_of(src, rect));
    Ok(Plane { width: CROP_SIZE, height: CROP_SIZE, data })
}

} // verus!
