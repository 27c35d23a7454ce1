use vstd::prelude::*;

verus! {

/// One picture element: four colour channels of eight bits each.
#[derive(Clone, Copy, PartialEq, Eq, Structural, Debug)]
pub struct Pixel {
    pub red: u8,
    pub green: u8,
    pub blue: u8,
    pub alpha: u8,
}

/// A rectangular grid of pixels in row-major order: the pixel of column
/// `x` and row `y` stands at index `y * width + x` of `pixels`.
#[derive(Debug)]
pub struct Raster {
    pub width: u32,
    pub height: u32,
    pub pixels: Vec<Pixel>,
}

impl View for Raster {
    type V = Seq<Pixel>;

    open spec fn view(&self) -> Seq<Pixel> {
        self.pixels@
    }
}

impl Raster {
    /// A raster is well formed when it holds exactly one pixel per grid cell.
    pub open spec fn wf(&self) -> bool {
        self@.len() == (self.width as nat) * (self.height as nat)
    }

    /// The row-major index of the cell of column `x` and row `y`.
    pub open spec fn index_of(&self, x: u32, y: u32) -> int {
        (y as int) * (self.width as int) + (x as int)
    }

    pub fn pixel_at(&self, x: u32, y: u32) -> (p: Pixel)
        requires
            self.wf(),
            x < self.width,
            y < self.height,
        ensures
            p == self@[self.index_of(x, y)],
    {
        let n = self.pixels.len();
        proof {
            assert((y as int) * (self.width as int) + (x as int)
                < (self.width as int) * (self.height as int)) by (nonlinear_arith)
                requires
                    x < self.width,
                    y < self.height,
            ;
        }
        let idx: usize = (y as usize) * (self.width as usize) + (x as usize);
        self.pixels[idx]
    }
}

} // verus!
