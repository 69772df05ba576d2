use vstd::prelude::*;

use crate::errors::{InputError, ProcessError};

verus! {

/// A single-component 2-D grid of 8-bit samples, stored row by row.
#[derive(Clone, Debug)]
pub struct Plane {
    pub width: usize,
    pub height: usize,
    pub data: Vec<u8>,
}

impl Plane {
    /// The buffer holds exactly one sample per pixel.
    pub open spec fn wf(&self) -> bool {
        self.data@.len() == self.width * self.height
    }

    /// The sample at column `x`, row `y`.
    pub open spec fn at(&self, x: int, y: int) -> u8 {
        self.data@[y * self.width + x]
    }

    /// Builds a plane, refusing a buffer whose length is not `width * height`.
    pub fn new(width: usize, height: usize, data: Vec<u8>) -> (r: Result<Plane, ProcessError>)
        ensures
            (width * height == data@.len()) ==> r == Ok::<Plane, ProcessError>(
                Plane { width, height, data },
            ),
            (width * height != data@.len()) ==> r == Err::<Plane, ProcessError>(
                ProcessError::Input(InputError::SizeMismatch),
            ),
    {
        let len = data.len();
        match width.checked_mul(height) {
            Some(n) if n == len => Ok(Plane { width, height, data }),
            _ => Err(ProcessError::Input(InputError::SizeMismatch)),
        }
    }
}

/// A 3-component image with interleaved blue, green, red samples, row by row.
#[derive(Clone, Debug)]
pub struct BgrImage {
    pub width: usize,
    pub height: usize,
    pub data: Vec<u8>,
}

impl BgrImage {
    /// The buffer holds exactly three samples per pixel.
    pub open spec fn wf(&self) -> bool {
        self.data@.len() == 3 * (self.width * self.height)
    }

    /// Builds an image, refusing a buffer whose length is not `3 * width * height`.
    pub fn new(width: usize, height: usize, data: Vec<u8>) -> (r: Result<BgrImage, ProcessError>)
        ensures
            (3 * (width * height) == data@.len()) ==> r == Ok::<BgrImage, ProcessError>(
                BgrImage { width, height, data },
            ),
            (3 * (width * height) != data@.len()) ==> r == Err::<BgrImage, ProcessError>(
                ProcessError::Input(InputError::SizeMismatch),
            ),
    {
        let len = data.len();
        let n = width.checked_mul(height);
        match n {
            Some(n) => match n.checked_mul(3) {
                Some(m) if m == len => Ok(BgrImage { width, height, data }),
                _ => Err(ProcessError::Input(InputError::SizeMismatch)),
            },
            None => {
                proof {
                    assert(width * height > usize::MAX);
                    assert(3 * (width * height) > usize::MAX);
                }
                Err(ProcessError::Input(InputError::SizeMismatch))
            },
        }
    }
}

/// Component `c` (0 blue, 1 green, 2 red) of `img`, as a plane of the same size.
pub open spec fn channel_of(img: BgrImage, c: int) -> Seq<u8> {
    Seq::new((img.width * img.height) as nat, |i: int| img.data@[3 * i + c])
}

/// Splits an image into its blue, green and red planes, in that order.
pub fn split_planes(img: &BgrImage) -> (r: Vec<Plane>)
    requires
        img.wf(),
    ensures
        r@.len() == 3,
        forall|c: int|
            0 <= c < 3 ==> {
                &&& (#[trigger] r@[c]).width == img.width
                &&& r@[c].height == img.height
                &&& r@[c].data@ == channel_of(*img, c)
            },
{
    let len = img.data.len();
    let n = len / 3;
    assert(n == img.width * img.height);
    let mut b: Vec<u8> = Vec::new();
    let mut g: Vec<u8> = Vec::new();
    let mut rd: Vec<u8> = Vec::new();
    let mut i: usize = 0;
    while i < n
        invariant
            img.wf(),
            n == img.width * img.height,
            len == img.data@.len(),
            3 * n == len,
            i <= n,
            b@ == channel_of(*img, 0).take(i as int),
            g@ == channel_of(*img, 1).take(i as int),
            rd@ == channel_of(*img, 2).take(i as int),
        decreases n - i,
    {
        b.push(img.data[3 * i]);
        g.push(img.data[3 * i + 1]);
        rd.push(img.data[3 * i + 2]);
        i = i + 1;
        proof {
            assert(b@ =~= channel_of(*img, 0).take(i as int));
            assert(g@ =~= channel_of(*img, 1).take(i as int));
            assert(rd@ =~= channel_of(*img, 2).take(i as int));
        }
    }
    proof {
        assert(b@ =~= channel_of(*img, 0));
        assert(g@ =~= channel_of(*img, 1));
        assert(rd@ =~= channel_of(*img, 2));
    }
    let mut r: Vec<Plane> = Vec::new();
    r.push(Plane { width: img.width, height: img.height, data: b });
    r.push(Plane { width: img.width, height: img.height, data: g });
    r.push(Plane { width: img.width, height: img.height, data: rd });
    r
}

} // verus!

verus! {

/// A drawing color given by its blue, green and red components.
#[derive(Clone, Copy, Debug, PartialEq, Eq, Structural)]
pub struct Color {
    pub b: u8,
    pub g: u8,
    pub r: u8,
}

/// A pixel position: `x` columns right of and `y` rows below the top-left corner.
#[derive(Clone, Copy, Debug, PartialEq, Eq, Structural)]
pub struct Point {
    pub x: i64,
    pub y: i64,
}

} // verus!
