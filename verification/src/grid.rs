use crate::tile::Tile;
use vstd::prelude::*;
use vstd::std_specs::cmp::PartialEqSpecImpl;

verus! {

/// The integer type of a grid dimension and of a coordinate.
pub type DimensionType = u32;

/// What a grid is, apart from how it is stored: its dimensions and, layer by
/// layer, its cells in row-major order.
pub struct GridModel {
    pub width: DimensionType,
    pub height: DimensionType,
    pub layers: Seq<Seq<Tile>>,
}

impl GridModel {
    /// Every layer holds exactly `width * height` cells.
    pub open spec fn wf(self) -> bool {
        forall|i: int|
            0 <= i < self.layers.len() ==> (#[trigger] self.layers[i]).len() == self.width
                * self.height
    }

    /// The coordinate lies inside the grid.
    pub open spec fn in_bounds(self, x: DimensionType, y: DimensionType) -> bool {
        x < self.width && y < self.height
    }

    /// The row-major index of a coordinate.
    pub open spec fn index_of(self, x: DimensionType, y: DimensionType) -> int {
        y * self.width + x
    }

    /// The coordinate, as `(x, y)`, of a row-major index.
    pub open spec fn coordinate_of(self, index: int) -> (int, int) {
        (index % (self.width as int), index / (self.width as int))
    }

    /// The coordinate names a cell that the layer holds.
    pub open spec fn has_cell(self, x: DimensionType, y: DimensionType, layer: int) -> bool {
        &&& self.in_bounds(x, y)
        &&& 0 <= layer < self.layers.len()
        &&& self.index_of(x, y) < self.layers[layer].len()
    }

    /// The grid after one cell was overwritten.
    pub open spec fn with_cell(
        self,
        x: DimensionType,
        y: DimensionType,
        layer: int,
        tile: Tile,
    ) -> GridModel {
        GridModel {
            width: self.width,
            height: self.height,
            layers: self.layers.update(
                layer,
                self.layers[layer].update(self.index_of(x, y), tile),
            ),
        }
    }
}

/// A layer in which every cell is `fill`.
pub open spec fn uniform_layer(cells: nat, fill: Tile) -> Seq<Tile> {
    Seq::new(cells, |i: int| fill)
}

/// A rectangular grid of cells in one or more layers.
#[derive(Debug)]
pub struct IMF {
    pub width: DimensionType,
    pub height: DimensionType,
    pub layers: Vec<Vec<Tile>>,
}

impl View for IMF {
    type V = GridModel;

    open spec fn view(&self) -> GridModel {
        GridModel {
            width: self.width,
            height: self.height,
            layers: self.layers@.map_values(|l: Vec<Tile>| l@),
        }
    }
}

fn filled_layer(cells: u32, fill: Tile) -> (layer: Vec<Tile>)
    ensures
        layer@ == uniform_layer(cells as nat, fill),
{
    let mut layer: Vec<Tile> = Vec::new();
    let mut i: u32 = 0;
    while i < cells
        invariant
            i <= cells,
            layer@ == uniform_layer(i as nat, fill),
        decreases cells - i,
    {
        layer.push(fill);
        i = i + 1;
        assert(layer@ =~= uniform_layer(i as nat, fill));
    }
    layer
}

impl IMF {
    /// Every layer holds exactly `width * height` cells.
    pub open spec fn wf(&self) -> bool {
        self@.wf()
    }

    /// A grid of one layer in which every cell is `fill`.
    pub fn new(width: DimensionType, height: DimensionType, fill: Tile) -> (r: IMF)
        requires
            width * height <= u32::MAX,
        ensures
            r@ == (GridModel {
                width,
                height,
                layers: seq![uniform_layer((width * height) as nat, fill)],
            }),
            r.wf(),
    {
        let cells: u32 = width * height;
        let mut layers: Vec<Vec<Tile>> = Vec::new();
        layers.push(filled_layer(cells, fill));
        let r = IMF { width, height, layers };
        assert(r@.layers =~= seq![uniform_layer((width * height) as nat, fill)]);
        r
    }

    /// A grid with one layer for each entry of `fill`, every cell of a layer
    /// being that layer's entry. Fails exactly when `width * height` does not
    /// fit in 32 bits.
    pub fn new_with_layers(width: DimensionType, height: DimensionType, fill: Vec<Tile>) -> (r:
        Result<IMF, ()>)
        ensures
            r is Ok <==> width * height <= u32::MAX,
            r matches Ok(g) ==> g@ == (GridModel {
                width,
                height,
                layers: Seq::new(
                    fill@.len(),
                    |i: int| uniform_layer((width * height) as nat, fill@[i]),
                ),
            }) && g.wf(),
    {
        let cells: u32 = match width.checked_mul(height) {
            Some(c) => c,
            None => { return Err(()); },
        };
        let mut layers: Vec<Vec<Tile>> = Vec::new();
        let mut i: usize = 0;
        while i < fill.len()
            invariant
                i <= fill.len(),
                cells == width * height,
                layers@.len() == i,
                forall|j: int|
                    0 <= j < i ==> (#[trigger] layers@[j])@ == uniform_layer(
                        cells as nat,
                        fill@[j],
                    ),
            decreases fill.len() - i,
        {
            layers.push(filled_layer(cells, fill[i]));
            i = i + 1;
        }
        let g = IMF { width, height, layers };
        assert(g@.layers =~= Seq::new(
            fill@.len(),
            |i: int| uniform_layer((width * height) as nat, fill@[i]),
        ));
        Ok(g)
    }

    /// The row-major index of a coordinate; `None` exactly when the coordinate
    /// lies outside the grid.
    pub fn coordinate_to_index(&self, x: DimensionType, y: DimensionType) -> (r: Option<u64>)
        ensures
            r is Some <==> self@.in_bounds(x, y),
            r matches Some(index) ==> index == self@.index_of(x, y) && index < self.width
                * self.height,
    {
        if x >= self.width || y >= self.height {
            return None;
        }
        let w: u64 = self.width as u64;
        assert(y * w + x < w * self.height && w * self.height <= 0xffff_ffff * 0xffff_ffff)
            by (nonlinear_arith)
            requires
                x < w,
                y < self.height,
                w <= 0xffff_ffff,
                self.height <= 0xffff_ffff,
        ;
        Some(y as u64 * w + x as u64)
    }

    /// The coordinate, as `(x, y)`, of a row-major index; `None` exactly when
    /// the index is not below `width * height`.
    pub fn index_to_coordinate(&self, index: u64) -> (r: Option<(DimensionType, DimensionType)>)
        ensures
            r is Some <==> index < self.width * self.height,
            r matches Some((x, y)) ==> (x as int, y as int) == self@.coordinate_of(index as int)
                && self@.in_bounds(x, y),
    {
        let w: u64 = self.width as u64;
        let h: u64 = self.height as u64;
        assert(w * h <= 0xffff_ffff * 0xffff_ffff) by (nonlinear_arith)
            requires
                w <= 0xffff_ffff,
                h <= 0xffff_ffff,
        ;
        if index >= w * h {
            return None;
        }
        assert(w > 0) by (nonlinear_arith)
            requires
                index < w * h,
        ;
        let x: u64 = index % w;
        let y: u64 = index / w;
        assert(y < h) by (nonlinear_arith)
            requires
                index < w * h,
                w > 0,
                y == index / w,
        ;
        Some((x as u32, y as u32))
    }

    /// The cell at a coordinate of a layer; `None` exactly when the coordinate
    /// or the layer is out of range.
    pub fn get(&self, x: DimensionType, y: DimensionType, layer: usize) -> (r: Option<&Tile>)
        ensures
            r is Some <==> self@.has_cell(x, y, layer as int),
            r matches Some(tile) ==> *tile == self@.layers[layer as int][self@.index_of(x, y)],
    {
        let index: u64 = match self.coordinate_to_index(x, y) {
            Some(index) => index,
            None => { return None; },
        };
        if layer >= self.layers.len() {
            return None;
        }
        let cells: &Vec<Tile> = &self.layers[layer];
        if index >= cells.len() as u64 {
            return None;
        }
        Some(&cells[index as usize])
    }

    /// Overwrites the cell at a coordinate of a layer. Returns `None`, and
    /// leaves the grid as it was, exactly when the coordinate or the layer is
    /// out of range.
    pub fn set(&mut self, x: DimensionType, y: DimensionType, layer: usize, tile: Tile) -> (r:
        Option<()>)
        ensures
            r is Some <==> old(self)@.has_cell(x, y, layer as int),
            r is Some ==> final(self)@ == old(self)@.with_cell(x, y, layer as int, tile),
            r is None ==> *final(self) == *old(self),
            old(self).wf() ==> final(self).wf(),
    {
        let index: u64 = match self.coordinate_to_index(x, y) {
            Some(index) => index,
            None => { return None; },
        };
        if layer >= self.layers.len() {
            return None;
        }
        if index >= self.layers[layer].len() as u64 {
            return None;
        }
        self.layers[layer][index as usize] = tile;
        assert(self@.layers =~= old(self)@.with_cell(x, y, layer as int, tile).layers);
        Some(())
    }

    /// The cells of a layer in row-major order; `None` exactly when there is
    /// no such layer.
    pub fn get_layer(&self, layer: usize) -> (r: Option<&[Tile]>)
        ensures
            r is Some <==> layer < self.layers.len(),
            r matches Some(cells) ==> cells@ == self@.layers[layer as int],
    {
        if layer < self.layers.len() {
            Some(self.layers[layer].as_slice())
        } else {
            None
        }
    }

    /// The cells of a layer, to be overwritten in place; `None`, with the grid
    /// left as it was, exactly when there is no such layer. Whatever the
    /// caller writes through the slice is what the layer then holds; the
    /// dimensions and the other layers stay.
    pub fn get_layer_mut(&mut self, layer: usize) -> (r: Option<&mut [Tile]>)
        ensures
            r is Some <==> layer < old(self).layers.len(),
            r matches Some(cells) ==> cells@ == old(self)@.layers[layer as int],
            r matches Some(cells) ==> final(self).width == old(self).width,
            r matches Some(cells) ==> final(self).height == old(self).height,
            r matches Some(cells) ==> final(self).layers@.len() == old(self).layers@.len(),
            r matches Some(cells) ==> final(self).layers@[layer as int]@ == final(cells)@,
            r matches Some(cells) ==> forall|i: int|
                0 <= i < old(self).layers@.len() && i != layer ==> #[trigger] final(self).layers@[i] == old(self).layers@[i],
            r is None ==> *final(self) == *old(self),
    {
        if layer < self.layers.len() {
            Some(self.layers[layer].as_mut_slice())
        } else {
            None
        }
    }
}

impl Default for IMF {
    /// An 8 by 8 grid of one layer in which every cell is the plain value 0.
    fn default() -> (r: IMF)
        ensures
            r@ == (GridModel {
                width: 8,
                height: 8,
                layers: seq![uniform_layer(64, Tile::Int(0))],
            }),
            r.wf(),
    {
        IMF::new(8, 8, Tile::Int(0))
    }
}

impl Clone for IMF {
    /// A grid with the same dimensions and the same cells.
    fn clone(&self) -> (r: IMF)
        ensures
            r@ == self@,
    {
        let mut layers: Vec<Vec<Tile>> = Vec::new();
        let mut i: usize = 0;
        while i < self.layers.len()
            invariant
                i <= self.layers.len(),
                layers@.len() == i,
                forall|k: int| 0 <= k < i ==> (#[trigger] layers@[k])@ == self.layers@[k]@,
            decreases self.layers.len() - i,
        {
            let source: &Vec<Tile> = &self.layers[i];
            let mut layer: Vec<Tile> = Vec::new();
            let mut j: usize = 0;
            while j < source.len()
                invariant
                    j <= source.len(),
                    layer@ == source@.take(j as int),
                decreases source.len() - j,
            {
                layer.push(source[j]);
                assert(layer@ =~= source@.take(j + 1));
                j = j + 1;
            }
            assert(layer@ =~= source@);
            layers.push(layer);
            i = i + 1;
        }
        let r = IMF { width: self.width, height: self.height, layers };
        assert(r@.layers =~= self@.layers);
        r
    }
}

impl PartialEq for IMF {
    /// Two grids are equal when they have the same dimensions and hold the
    /// same cells in the same layers.
    fn eq(&self, other: &IMF) -> (r: bool) {
        if self.width != other.width || self.height != other.height {
            return false;
        }
        if self.layers.len() != other.layers.len() {
            assert(self@.layers.len() != other@.layers.len());
            return false;
        }
        let mut i: usize = 0;
        while i < self.layers.len()
            invariant
                i <= self.layers.len(),
                self.layers.len() == other.layers.len(),
                forall|k: int| 0 <= k < i ==> (#[trigger] self.layers[k])@ == other.layers[k]@,
            decreases self.layers.len() - i,
        {
            let a: &Vec<Tile> = &self.layers[i];
            let b: &Vec<Tile> = &other.layers[i];
            assert(self@.layers[i as int] == a@ && other@.layers[i as int] == b@);
            if a.len() != b.len() {
                return false;
            }
            let mut j: usize = 0;
            while j < a.len()
                invariant
                    j <= a.len(),
                    a.len() == b.len(),
                    i < self.layers.len() == other.layers.len(),
                    self@.layers[i as int] == a@,
                    other@.layers[i as int] == b@,
                    forall|k: int| 0 <= k < j ==> a[k] == b[k],
                decreases a.len() - j,
            {
                if a[j] != b[j] {
                    return false;
                }
                j = j + 1;
            }
            assert(a@ =~= b@);
            i = i + 1;
        }
        assert(self@.layers =~= other@.layers);
        true
    }
}

impl Eq for IMF {

}

impl PartialEqSpecImpl for IMF {
    open spec fn obeys_eq_spec() -> bool {
        true
    }

    open spec fn eq_spec(&self, other: &IMF) -> bool {
        self@ == other@
    }
}

} // verus!
