use vstd::prelude::*;

verus! {

/// The pre-baked raster bundle that the simulation reads: one cell per raster
/// pixel, stored row by row (`y * width + x`).
///
/// `depth` runs from 0 (far) to 255 (near); normals and flow vectors are
/// signed components where 127 stands for 1; `ground` is 1 on cells that water
/// can rest on. Nothing writes to a scene once it is built.
pub struct Scene {
    pub width: usize,
    pub height: usize,
    pub depth: Vec<u8>,
    pub normal_x: Vec<i8>,
    pub normal_y: Vec<i8>,
    pub flow_x: Vec<i8>,
    pub flow_y: Vec<i8>,
    pub ground: Vec<u8>,
}

impl Scene {
    /// The number of cells of the raster.
    pub open spec fn cells(&self) -> int {
        self.width as int * self.height as int
    }

    /// Every layer holds exactly one value per cell.
    pub open spec fn wf(&self) -> bool {
        &&& self.cells() <= usize::MAX
        &&& self.depth@.len() == self.cells()
        &&& self.normal_x@.len() == self.cells()
        &&& self.normal_y@.len() == self.cells()
        &&& self.flow_x@.len() == self.cells()
        &&& self.flow_y@.len() == self.cells()
        &&& self.ground@.len() == self.cells()
    }

    /// Whether `(x, y)` names a cell of the raster.
    pub open spec fn in_bounds(&self, x: int, y: int) -> bool {
        0 <= x < self.width && 0 <= y < self.height
    }

    /// The position of cell `(x, y)` in each layer.
    pub open spec fn cell(&self, x: int, y: int) -> int {
        y * self.width + x
    }

    /// Builds a scene from its layers; `None` unless every layer holds
    /// `width * height` values.
    pub fn new(
        width: usize,
        height: usize,
        depth: Vec<u8>,
        normal_x: Vec<i8>,
        normal_y: Vec<i8>,
        flow_x: Vec<i8>,
        flow_y: Vec<i8>,
        ground: Vec<u8>,
    ) -> (r: Option<Scene>)
        ensures
            r is Some <==> {
                &&& depth@.len() == width * height
                &&& normal_x@.len() == width * height
                &&& normal_y@.len() == width * height
                &&& flow_x@.len() == width * height
                &&& flow_y@.len() == width * height
                &&& ground@.len() == width * height
            },
            r matches Some(s) ==> {
                &&& s.wf()
                &&& s.width == width
                &&& s.height == height
                &&& s.depth@ == depth@
                &&& s.normal_x@ == normal_x@
                &&& s.normal_y@ == normal_y@
                &&& s.flow_x@ == flow_x@
                &&& s.flow_y@ == flow_y@
                &&& s.ground@ == ground@
            },
    {
        let len = depth.len();
        let n = match width.checked_mul(height) {
            Some(n) => n,
            None => return None,
        };
        if len != n {
            return None;
        }
        if normal_x.len() != n || normal_y.len() != n || flow_x.len() != n || flow_y.len() != n
            || ground.len() != n {
            return None;
        }
        Some(Scene { width, height, depth, normal_x, normal_y, flow_x, flow_y, ground })
    }
}

/// The position of an in-bounds cell `(x, y)` in each layer.
pub(crate) fn cell_index(sc: &Scene, x: usize, y: usize) -> (r: usize)
    requires
        sc.wf(),
        sc.in_bounds(x as int, y as int),
    ensures
        r == sc.cell(x as int, y as int),
        r < sc.cells(),
{
    proof {
        assert(y as int * sc.width as int + (x as int) < sc.width as int * sc.height as int)
            by (nonlinear_arith)
            requires x < sc.width, y < sc.height;
        assert(sc.cells() == sc.depth@.len());
    }
    y * sc.width + x
}

} // verus!
