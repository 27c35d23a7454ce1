use vstd::prelude::*;

use crate::raster::{Pixel, Raster};

verus! {

/// The one pixel the solid generator paints: pure red, fully opaque.
pub open spec fn solid_pixel() -> Pixel {
    Pixel { red: 255, green: 0, blue: 0, alpha: 255 }
}

/// Fills a raster of the given dimensions with the solid pixel.
pub fn solid(width: u32, height: u32) -> (r: Raster)
    requires
        (width as nat) * (height as nat) <= usize::MAX as nat,
    ensures
        r.wf(),
        r.width == width,
        r.height == height,
        r@ == Seq::new((width as nat) * (height as nat), |i: int| solid_pixel()),
{
    let mut pixels: Vec<Pixel> = Vec::new();
    let mut y: u32 = 0;
    while y < height
        invariant
            y <= height,
            pixels@.len() == (y as nat) * (width as nat),
            (width as nat) * (height as nat) <= usize::MAX as nat,
            forall|i: int| 0 <= i < pixels@.len() ==> #[trigger] pixels@[i] == solid_pixel(),
        decreases height - y,
    {
        let mut x: u32 = 0;
        while x < width
            invariant
                y < height,
                x <= width,
                pixels@.len() == (y as nat) * (width as nat) + (x as nat),
                (width as nat) * (height as nat) <= usize::MAX as nat,
                forall|i: int| 0 <= i < pixels@.len() ==> #[trigger] pixels@[i] == solid_pixel(),
            decreases width - x,
        {
            proof {
                assert((y as int) * (width as int) + (x as int)
                    < (width as int) * (height as int)) by (nonlinear_arith)
                    requires
                        x < width,
                        y < height,
                ;
            }
            pixels.push(Pixel { red: 255, green: 0, blue: 0, alpha: 255 });
            x = x + 1;
        }
        proof {
            assert((y as nat) * (width as nat) + (width as nat)
                == ((y + 1) as nat) * (width as nat)) by (nonlinear_arith);
        }
        y = y + 1;
    }
    proof {
        assert((height as nat) * (width as nat) == (width as nat) * (height as nat))
            by (nonlinear_arith);
        assert(pixels@ =~= Seq::new((width as nat) * (height as nat), |i: int| solid_pixel()));
    }
    Raster { width, height, pixels }
}

} // verus!
