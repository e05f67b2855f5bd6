use vstd::prelude::*;

use crate::text::{decimal_nat, push_decimal_nat};

verus! {

/// Integer grid coordinate (column `x`, row `y`).
#[derive(Debug, Clone, Copy, PartialEq, Eq, Hash, Structural)]
pub struct IVec2 {
    pub x: i32,
    pub y: i32,
}

impl IVec2 {
    pub fn new(x: i32, y: i32) -> (r: IVec2)
        ensures
            r.x == x,
            r.y == y,
    {
        IVec2 { x, y }
    }
}

/// The kind of a single tile.
#[derive(Debug, Clone, Copy, PartialEq, Eq, Hash, Structural)]
pub enum TileKind {
    Floor,
    Wall,
}

impl TileKind {
    /// Floors can be walked on, walls cannot.
    pub fn is_walkable(&self) -> (b: bool)
        ensures
            b == (*self == TileKind::Floor),
    {
        match self {
            TileKind::Floor => true,
            TileKind::Wall => false,
        }
    }
}

/// Per-tile cell data stored in a [`TileGrid`].
pub trait TileData: Sized + Clone {
    /// The value that fills a freshly created grid.
    spec fn empty_value() -> Self;

    /// Value used to fill newly created grids.
    fn empty() -> (r: Self)
        ensures
            r == Self::empty_value(),
    ;
}

impl TileData for TileKind {
    open spec fn empty_value() -> Self {
        TileKind::Floor
    }

    fn empty() -> (r: Self) {
        TileKind::Floor
    }
}

/// Shared grid dimensions.  All tile grids of one map agree on them.
#[derive(Debug, Clone, Copy, PartialEq, Eq, Structural)]
pub struct GridSize {
    pub width: u32,
    pub height: u32,
}

/// The mathematical content of a grid: its dimensions and its cells in
/// row-major order (`y * width + x`).
pub struct GridView<T> {
    pub width: nat,
    pub height: nat,
    pub cells: Seq<T>,
}

impl<T> GridView<T> {
    /// Whether `(x, y)` addresses a cell.  Coordinates are `i32`, and a side
    /// longer than `i32::MAX` turns negative when compared as one, so a grid
    /// that wide or that tall has no cell that a lookup finds.
    pub open spec fn in_bounds(self, x: int, y: int) -> bool {
        &&& self.width <= i32::MAX
        &&& self.height <= i32::MAX
        &&& 0 <= x < self.width
        &&& 0 <= y < self.height
    }

    /// The cell at `(x, y)`, or `None` outside the grid.
    pub open spec fn cell(self, x: int, y: int) -> Option<T> {
        if self.in_bounds(x, y) {
            Some(self.cells[y * self.width + x])
        } else {
            None
        }
    }

    pub open spec fn wf(self) -> bool {
        self.cells.len() == self.width * self.height
    }
}

/// Row-major indices of in-bounds coordinates stay inside the cell sequence.
pub proof fn lemma_row_major_index(x: int, y: int, w: int, h: int)
    requires
        0 <= x < w,
        0 <= y < h,
    ensures
        0 <= y * w + x < w * h,
        y * w + x < h * w,
        y * w + x < (y + 1) * w,
        y * w <= y * w + x,
{
    assert(0 <= y * w) by (nonlinear_arith)
        requires
            0 <= y,
            0 <= w,
    ;
    assert((y + 1) * w <= h * w) by (nonlinear_arith)
        requires
            y + 1 <= h,
            0 <= w,
    ;
    assert((y + 1) * w == y * w + w) by (nonlinear_arith);
    assert(h * w == w * h) by (nonlinear_arith);
}

/// Distinct in-bounds coordinates have distinct row-major indices.
pub proof fn lemma_row_major_injective(x1: int, y1: int, x2: int, y2: int, w: int)
    requires
        0 <= x1 < w,
        0 <= x2 < w,
        0 <= y1,
        0 <= y2,
        y1 * w + x1 == y2 * w + x2,
    ensures
        x1 == x2,
        y1 == y2,
{
    if y1 < y2 {
        assert((y1 + 1) * w <= y2 * w) by (nonlinear_arith)
            requires
                y1 + 1 <= y2,
                0 <= w,
        ;
        assert((y1 + 1) * w == y1 * w + w) by (nonlinear_arith);
    } else if y2 < y1 {
        assert((y2 + 1) * w <= y1 * w) by (nonlinear_arith)
            requires
                y2 + 1 <= y1,
                0 <= w,
        ;
        assert((y2 + 1) * w == y2 * w + w) by (nonlinear_arith);
    }
}

/// Reasons why a grid cannot be built from raw cell data.
#[derive(Debug, Clone, Copy, PartialEq, Eq, Structural)]
pub enum TileGridError {
    /// `width * height` does not fit in `usize`.
    DimensionsOverflow { width: u32, height: u32 },
    /// The number of cells differs from `width * height`.
    LengthMismatch { expected: usize, actual: usize },
}

/// The text of a grid construction error.
pub open spec fn tile_grid_error_text(e: TileGridError) -> Seq<char> {
    match e {
        TileGridError::DimensionsOverflow { width, height } => "TileGrid dimensions "@ + decimal_nat(
            width as nat,
        ) + "×"@ + decimal_nat(height as nat) + " overflow"@,
        TileGridError::LengthMismatch { expected, actual } => "cell data length mismatch: expected "@
            + decimal_nat(expected as nat) + ", got "@ + decimal_nat(actual as nat),
    }
}

impl TileGridError {
    /// The error as text.
    pub fn message(&self) -> (r: String)
        ensures
            r@ == tile_grid_error_text(*self),
    {
        match self {
            TileGridError::DimensionsOverflow { width, height } => {
                let mut s = String::from_str("TileGrid dimensions ");
                push_decimal_nat(&mut s, *width as u64);
                s.append("×");
                push_decimal_nat(&mut s, *height as u64);
                s.append(" overflow");
                s
            },
            TileGridError::LengthMismatch { expected, actual } => {
                let mut s = String::from_str("cell data length mismatch: expected ");
                push_decimal_nat(&mut s, *expected as u64);
                s.append(", got ");
                push_decimal_nat(&mut s, *actual as u64);
                s
            },
        }
    }
}

/// A typed grid storing per-tile data of type `T` in row-major order.
#[derive(Debug)]
pub struct TileGrid<T: TileData> {
    width: u32,
    height: u32,
    cells: Vec<T>,
}

impl<T: TileData> View for TileGrid<T> {
    type V = GridView<T>;

    closed spec fn view(&self) -> GridView<T> {
        GridView { width: self.width as nat, height: self.height as nat, cells: self.cells@ }
    }
}

impl<T: TileData> Clone for TileGrid<T> {
    /// A grid of the same size whose cells are clones of these.
    fn clone(&self) -> (r: Self)
        ensures
            r@.width == self@.width,
            r@.height == self@.height,
            r@.cells.len() == self@.cells.len(),
            forall|i: int| 0 <= i < self@.cells.len() ==> cloned::<T>(self@.cells[i], r@.cells[i]),
    {
        proof {
            use_type_invariant(self);
        }
        TileGrid { width: self.width, height: self.height, cells: self.cells.clone() }
    }
}

impl<T: TileData> TileGrid<T> {
    /// Every grid holds exactly `width * height` cells.
    #[verifier::type_invariant]
    pub open spec fn cells_fit(&self) -> bool {
        self@.wf()
    }

    /// Create a grid filled with [`TileData::empty()`].
    pub fn new(width: u32, height: u32) -> (r: Self)
        requires
            width * height <= usize::MAX,
        ensures
            r@.width == width,
            r@.height == height,
            r@.cells == Seq::new(width as nat * height as nat, |i: int| T::empty_value()),
            r@.wf(),
    {
        let size = (width as usize) * (height as usize);
        let mut cells: Vec<T> = Vec::with_capacity(size);
        let mut i: usize = 0;
        while i < size
            invariant
                i <= size,
                cells.len() == i,
                forall|j: int| 0 <= j < i ==> cells@[j] == T::empty_value(),
            decreases size - i,
        {
            cells.push(T::empty());
            i = i + 1;
        }
        let r = TileGrid { width, height, cells };
        assert(r@.cells =~= Seq::new(width as nat * height as nat, |i: int| T::empty_value()));
        r
    }

    /// Create a grid filled with a specific value.
    pub fn new_fill(width: u32, height: u32, fill: T) -> (r: Self)
        requires
            width * height <= usize::MAX,
        ensures
            r@.width == width,
            r@.height == height,
            r@.wf(),
            forall|i: int| 0 <= i < r@.cells.len() ==> cloned(fill, #[trigger] r@.cells[i]),
    {
        let size = (width as usize) * (height as usize);
        TileGrid { width, height, cells: vec![fill; size] }
    }

    /// Construct from a pre-built cells vec, validating its length.
    pub fn from_cells(width: u32, height: u32, cells: Vec<T>) -> (r: Result<Self, TileGridError>)
        ensures
            width * height > usize::MAX ==> r == Err::<Self, TileGridError>(
                TileGridError::DimensionsOverflow { width, height },
            ),
            width * height <= usize::MAX && cells.len() != width * height ==> r == Err::<
                Self,
                TileGridError,
            >(TileGridError::LengthMismatch { expected: (width * height) as usize, actual: cells.len() }),
            width * height <= usize::MAX && cells.len() == width * height ==> (r matches Ok(g)
                && g@ == GridView { width: width as nat, height: height as nat, cells: cells@ }
                && g@.wf()),
    {
        let expected = match (width as usize).checked_mul(height as usize) {
            Some(e) => e,
            None => {
                return Err(TileGridError::DimensionsOverflow { width, height });
            },
        };
        if cells.len() != expected {
            return Err(TileGridError::LengthMismatch { expected, actual: cells.len() });
        }
        Ok(TileGrid { width, height, cells })
    }

    pub fn width(&self) -> (w: u32)
        ensures
            w == self@.width,
    {
        self.width
    }

    pub fn height(&self) -> (h: u32)
        ensures
            h == self@.height,
    {
        self.height
    }

    fn coord_to_index(&self, pos: IVec2) -> (r: Option<usize>)
        ensures
            r is Some <==> self@.in_bounds(pos.x as int, pos.y as int),
            r matches Some(i) ==> i == pos.y * self@.width + pos.x && i < self@.cells.len(),
    {
        proof {
            use_type_invariant(self);
        }
        if self.width <= 0x7fff_ffff && self.height <= 0x7fff_ffff && pos.x >= 0 && (pos.x as u32)
            < self.width && pos.y >= 0 && (pos.y as u32) < self.height {
            proof {
                lemma_row_major_index(
                    pos.x as int,
                    pos.y as int,
                    self.width as int,
                    self.height as int,
                );
                assert(pos.y * self.width + pos.x < self.cells.len());
            }
            Some((pos.y as usize) * (self.width as usize) + (pos.x as usize))
        } else {
            None
        }
    }

    /// Returns a reference to the cell at `pos`, or `None` if out of bounds.
    pub fn get(&self, pos: IVec2) -> (r: Option<&T>)
        ensures
            match r {
                Some(c) => self@.cell(pos.x as int, pos.y as int) == Some(*c),
                None => self@.cell(pos.x as int, pos.y as int) is None,
            },
    {
        match self.coord_to_index(pos) {
            Some(idx) => Some(&self.cells[idx]),
            None => None,
        }
    }

    /// Sets the cell at `pos`. Returns `true` if in bounds; out-of-bounds
    /// writes change nothing.
    pub fn set(&mut self, pos: IVec2, value: T) -> (r: bool)
        ensures
            r == old(self)@.in_bounds(pos.x as int, pos.y as int),
            final(self)@.width == old(self)@.width,
            final(self)@.height == old(self)@.height,
            r ==> final(self)@.cells == old(self)@.cells.update(
                pos.y * old(self)@.width + pos.x,
                value,
            ),
            !r ==> final(self)@.cells == old(self)@.cells,
            final(self)@.wf(),
    {
        proof {
            use_type_invariant(&*self);
        }
        match self.coord_to_index(pos) {
            Some(idx) => {
                self.cells[idx] = value;
                true
            },
            None => false,
        }
    }

    /// All cells with their positions, in row-major order.  Positions are
    /// the `i32` values of the coordinates, which wrap on a side longer than
    /// `i32::MAX`.
    pub fn iter(&self) -> (r: Vec<(IVec2, &T)>)
        ensures
            r.len() == self@.width * self@.height,
            forall|y: int, x: int|
                0 <= y < self@.height && 0 <= x < self@.width ==> {
                    let e = #[trigger] r@[y * self@.width + x];
                    &&& e.0.x == x as i32
                    &&& e.0.y == y as i32
                    &&& *e.1 == self@.cells[y * self@.width + x]
                },
    {
        proof {
            use_type_invariant(self);
        }
        let mut out: Vec<(IVec2, &T)> = Vec::new();
        let mut y: u32 = 0;
        while y < self.height
            invariant
                self.cells.len() == self.width * self.height,
                y <= self.height,
                out.len() == y * self.width,
                forall|yy: int, xx: int|
                    0 <= yy < y && 0 <= xx < self.width ==> {
                        let e = #[trigger] out@[yy * self.width + xx];
                        &&& e.0.x == xx as i32
                        &&& e.0.y == yy as i32
                        &&& *e.1 == self@.cells[yy * self@.width + xx]
                    },
            decreases self.height - y,
        {
            let mut x: u32 = 0;
            while x < self.width
                invariant
                    self.cells.len() == self.width * self.height,
                    y < self.height,
                    x <= self.width,
                    out.len() == y * self.width + x,
                    forall|yy: int, xx: int|
                        (0 <= yy < y && 0 <= xx < self.width) || (yy == y && 0 <= xx < x) ==> {
                            let e = #[trigger] out@[yy * self.width + xx];
                            &&& e.0.x == xx as i32
                            &&& e.0.y == yy as i32
                            &&& *e.1 == self@.cells[yy * self@.width + xx]
                        },
                decreases self.width - x,
            {
                proof {
                    lemma_row_major_index(x as int, y as int, self.width as int, self.height as int);
                }
                let idx = (y as usize) * (self.width as usize) + (x as usize);
                let ghost before = out@;
                out.push((IVec2 { x: x as i32, y: y as i32 }, &self.cells[idx]));
                proof {
                    assert forall|yy: int, xx: int|
                        (0 <= yy < y && 0 <= xx < self.width) || (yy == y && 0 <= xx < x + 1)
                        implies {
                        let e = #[trigger] out@[yy * self.width + xx];
                        &&& e.0.x == xx as i32
                        &&& e.0.y == yy as i32
                        &&& *e.1 == self@.cells[yy * self@.width + xx]
                    } by {
                        if yy == y && xx == x {
                        } else {
                            lemma_row_major_index(xx, yy, self.width as int, y as int + 1);
                            assert(yy * self.width + xx < y * self.width + x) by {
                                if yy < y {
                                    lemma_row_major_index(xx, yy, self.width as int, y as int);
                                }
                            }
                            assert(out@[yy * self.width + xx] == before[yy * self.width + xx]);
                        }
                    }
                }
                x = x + 1;
            }
            proof {
                assert((y + 1) * self.width == y * self.width + self.width) by (nonlinear_arith);
            }
            y = y + 1;
        }
        proof {
            assert(self@.height * self@.width == self@.width * self@.height) by (nonlinear_arith);
        }
        out
    }

    /// Direct access to the underlying cells, in row-major order.
    pub fn cells(&self) -> (r: &[T])
        ensures
            r@ == self@.cells,
    {
        self.cells.as_slice()
    }
}

impl<T: TileData + Copy> TileGrid<T> {
    /// Returns a copy of the cell at `pos`, or `None` if out of bounds.
    pub fn get_copy(&self, pos: IVec2) -> (r: Option<T>)
        ensures
            r == self@.cell(pos.x as int, pos.y as int),
    {
        match self.coord_to_index(pos) {
            Some(idx) => Some(self.cells[idx]),
            None => None,
        }
    }
}

/// A per-tile bitmask: bit 0 marks walkable tiles, bit 1 tiles that let gas
/// pass.
#[derive(Debug, Clone, Copy, PartialEq, Eq, Default, Structural)]
pub struct TileFlag {
    pub bits: u8,
}

impl TileFlag {
    pub open spec fn has(self, other: TileFlag) -> bool {
        self.bits & other.bits == other.bits
    }

    /// No flag set.
    pub fn empty() -> (r: TileFlag)
        ensures
            r.bits == 0,
    {
        TileFlag { bits: 0 }
    }

    /// The tile can be walked on.
    pub fn walkable() -> (r: TileFlag)
        ensures
            r.bits == 1,
    {
        TileFlag { bits: 1 }
    }

    /// Gas can flow through the tile.
    pub fn gas_pass() -> (r: TileFlag)
        ensures
            r.bits == 2,
    {
        TileFlag { bits: 2 }
    }

    /// The union of two flag sets.
    pub fn union(self, other: TileFlag) -> (r: TileFlag)
        ensures
            r.bits == self.bits | other.bits,
    {
        TileFlag { bits: self.bits | other.bits }
    }

    /// Whether every flag of `other` is set in `self`.
    pub fn contains(self, other: TileFlag) -> (r: bool)
        ensures
            r == self.has(other),
    {
        self.bits & other.bits == other.bits
    }
}

/// The flags that a tile of the given kind derives.
pub open spec fn flag_of_kind(kind: TileKind) -> TileFlag {
    match kind {
        TileKind::Floor => TileFlag { bits: 3 },
        TileKind::Wall => TileFlag { bits: 0 },
    }
}

/// Derived per-tile bitmask cache, rebuilt from the tile grid.  Consumers
/// such as atmospherics read it instead of the source grid.
#[derive(Debug, Clone)]
pub struct TileFlags {
    width: u32,
    height: u32,
    flags: Vec<TileFlag>,
}

impl View for TileFlags {
    type V = GridView<TileFlag>;

    closed spec fn view(&self) -> GridView<TileFlag> {
        GridView { width: self.width as nat, height: self.height as nat, cells: self.flags@ }
    }
}

impl TileFlags {
    /// A mask of the given size with every flag cleared.
    pub fn new(width: u32, height: u32) -> (r: TileFlags)
        requires
            width * height <= usize::MAX,
        ensures
            r@.width == width,
            r@.height == height,
            r@.cells == Seq::new(width as nat * height as nat, |i: int| TileFlag { bits: 0 }),
            r@.wf(),
    {
        let size = (width as usize) * (height as usize);
        let flags = vec![TileFlag::empty(); size];
        let r = TileFlags { width, height, flags };
        assert(r@.cells =~= Seq::new(width as nat * height as nat, |i: int| TileFlag { bits: 0 }));
        r
    }

    fn coord_to_index(&self, pos: IVec2) -> (r: Option<usize>)
        requires
            self@.wf(),
        ensures
            r is Some <==> self@.in_bounds(pos.x as int, pos.y as int),
            r matches Some(i) ==> i == pos.y * self@.width + pos.x && i < self@.cells.len(),
    {
        if self.width <= 0x7fff_ffff && self.height <= 0x7fff_ffff && pos.x >= 0 && (pos.x as u32)
            < self.width && pos.y >= 0 && (pos.y as u32) < self.height {
            proof {
                lemma_row_major_index(
                    pos.x as int,
                    pos.y as int,
                    self.width as int,
                    self.height as int,
                );
                assert(pos.y * self.width + pos.x < self.flags.len());
            }
            Some((pos.y as usize) * (self.width as usize) + (pos.x as usize))
        } else {
            None
        }
    }

    pub fn get(&self, pos: IVec2) -> (r: Option<TileFlag>)
        requires
            self@.wf(),
        ensures
            r == self@.cell(pos.x as int, pos.y as int),
    {
        match self.coord_to_index(pos) {
            Some(idx) => Some(self.flags[idx]),
            None => None,
        }
    }

    /// Sets the flags at `pos`; out-of-bounds positions are ignored.
    pub fn set(&mut self, pos: IVec2, flag: TileFlag)
        requires
            old(self)@.wf(),
        ensures
            final(self)@.width == old(self)@.width,
            final(self)@.height == old(self)@.height,
            final(self)@.wf(),
            old(self)@.in_bounds(pos.x as int, pos.y as int) ==> final(self)@.cells == old(
                self,
            )@.cells.update(pos.y * old(self)@.width + pos.x, flag),
            !old(self)@.in_bounds(pos.x as int, pos.y as int) ==> final(self)@.cells == old(
                self,
            )@.cells,
    {
        if let Some(idx) = self.coord_to_index(pos) {
            self.flags.set(idx, flag);
        }
    }

    /// In bounds and marked walkable.
    pub fn is_walkable(&self, pos: IVec2) -> (r: bool)
        requires
            self@.wf(),
        ensures
            r == (self@.cell(pos.x as int, pos.y as int) matches Some(f) && f.has(
                TileFlag { bits: 1 },
            )),
    {
        match self.get(pos) {
            Some(f) => f.contains(TileFlag::walkable()),
            None => false,
        }
    }

    /// In bounds and letting gas pass.
    pub fn is_gas_passable(&self, pos: IVec2) -> (r: bool)
        requires
            self@.wf(),
        ensures
            r == (self@.cell(pos.x as int, pos.y as int) matches Some(f) && f.has(
                TileFlag { bits: 2 },
            )),
    {
        match self.get(pos) {
            Some(f) => f.contains(TileFlag::gas_pass()),
            None => false,
        }
    }

    pub fn width(&self) -> (w: u32)
        ensures
            w == self@.width,
    {
        self.width
    }

    pub fn height(&self) -> (h: u32)
        ensures
            h == self@.height,
    {
        self.height
    }

    /// Rebuilds the mask from the tile grid: floors are walkable and let gas
    /// pass, walls have no flag.
    pub fn from_grid(grid: &TileGrid<TileKind>) -> (r: TileFlags)
        ensures
            r@.width == grid@.width,
            r@.height == grid@.height,
            r@.wf(),
            forall|i: int| 0 <= i < r@.cells.len() ==> #[trigger] r@.cells[i] == flag_of_kind(
                grid@.cells[i],
            ),
    {
        proof {
            use_type_invariant(grid);
        }
        let cells = grid.cells();
        let mut flags: Vec<TileFlag> = Vec::with_capacity(cells.len());
        let mut i: usize = 0;
        while i < cells.len()
            invariant
                cells@ == grid@.cells,
                i <= cells.len(),
                flags.len() == i,
                forall|j: int| 0 <= j < i ==> #[trigger] flags@[j] == flag_of_kind(cells@[j]),
            decreases cells.len() - i,
        {
            let flag = match cells[i] {
                TileKind::Floor => TileFlag::walkable().union(TileFlag::gas_pass()),
                TileKind::Wall => TileFlag::empty(),
            };
            proof {
                assert(1u8 | 2u8 == 3u8) by (bit_vector);
            }
            flags.push(flag);
            i = i + 1;
        }
        TileFlags { width: grid.width(), height: grid.height(), flags }
    }
}

/// Wire format of the server-to-client tiles stream.
#[derive(Debug, Clone)]
pub enum TilesStreamMessage {
    /// Full tilemap snapshot sent once on connect.
    TilemapData { width: u32, height: u32, tiles: Vec<TileKind> },
    /// Incremental mutation broadcast after the server applies a toggle.
    TileMutated { position: [i32; 2], kind: TileKind },
}

/// Event fired when a tile mutation is applied.
#[derive(Debug, Clone, Copy, PartialEq, Eq, Structural)]
pub struct TileMutated {
    pub position: IVec2,
    pub kind: TileKind,
}

/// Stream tag of the server-to-client tiles stream.
pub const TILES_STREAM_TAG: u8 = 1;

/// Why a stream message could not become a tile grid.
#[derive(Debug, Clone, Copy, PartialEq, Eq, Structural)]
pub enum TilemapMessageError {
    /// The snapshot's dimensions do not fit its tile list.
    Grid(TileGridError),
    /// A single mutation is not a full snapshot.
    NotASnapshot,
}

impl TilesStreamMessage {
    /// The full snapshot of a grid.
    pub fn from_grid(grid: &TileGrid<TileKind>) -> (r: TilesStreamMessage)
        ensures
            r matches TilesStreamMessage::TilemapData { width, height, tiles } && width
                == grid@.width && height == grid@.height && tiles@ == grid@.cells,
    {
        let tiles = grid.cells.clone();
        assert(tiles@ =~= grid@.cells);
        TilesStreamMessage::TilemapData { width: grid.width(), height: grid.height(), tiles }
    }
}

impl TileGrid<TileKind> {
    /// Rebuilds a grid from a snapshot message.
    pub fn try_from_message(msg: TilesStreamMessage) -> (r: Result<
        TileGrid<TileKind>,
        TilemapMessageError,
    >)
        ensures
            match msg {
                TilesStreamMessage::TilemapData { width, height, tiles } => {
                    &&& width * height > usize::MAX ==> r == Err::<TileGrid<TileKind>, TilemapMessageError>(
                        TilemapMessageError::Grid(TileGridError::DimensionsOverflow { width, height }),
                    )
                    &&& width * height <= usize::MAX && tiles.len() != width * height ==> r == Err::<
                        TileGrid<TileKind>,
                        TilemapMessageError,
                    >(
                        TilemapMessageError::Grid(
                            TileGridError::LengthMismatch {
                                expected: (width * height) as usize,
                                actual: tiles.len(),
                            },
                        ),
                    )
                    &&& width * height <= usize::MAX && tiles.len() == width * height ==> (r matches Ok(g)
                        && g@ == GridView { width: width as nat, height: height as nat, cells: tiles@ }
                        && g@.wf())
                },
                TilesStreamMessage::TileMutated { .. } => r == Err::<
                    TileGrid<TileKind>,
                    TilemapMessageError,
                >(TilemapMessageError::NotASnapshot),
            },
    {
        match msg {
            TilesStreamMessage::TilemapData { width, height, tiles } => {
                match TileGrid::from_cells(width, height, tiles) {
                    Ok(g) => Ok(g),
                    Err(e) => Err(TilemapMessageError::Grid(e)),
                }
            },
            TilesStreamMessage::TileMutated { .. } => Err(TilemapMessageError::NotASnapshot),
        }
    }
}

/// The view of an optional tilemap.
pub open spec fn map_view(map: Option<TileGrid<TileKind>>) -> Option<GridView<TileKind>> {
    match map {
        Some(g) => Some(g@),
        None => None,
    }
}

/// `g` with the tile at `pos` set to `kind`, when `pos` lies on it.
pub open spec fn grid_set(g: GridView<TileKind>, pos: IVec2, kind: TileKind) -> GridView<TileKind> {
    if g.in_bounds(pos.x as int, pos.y as int) {
        GridView { cells: g.cells.update(pos.y * g.width + pos.x, kind), ..g }
    } else {
        g
    }
}

/// The grid a message carries, when it is a snapshot whose tile list fits
/// its dimensions.
pub open spec fn snapshot_view(msg: TilesStreamMessage) -> Option<GridView<TileKind>> {
    match msg {
        TilesStreamMessage::TilemapData { width, height, tiles } => if width * height <= usize::MAX
            && tiles.len() == width * height {
            Some(GridView { width: width as nat, height: height as nat, cells: tiles@ })
        } else {
            None
        },
        TilesStreamMessage::TileMutated { .. } => None,
    }
}

/// Messages of the tiles stream handled in order: the grid in use with the
/// mutations applied to it, the last valid snapshot received, and the
/// mutation events raised.  Mutations apply only while a grid is in use.
pub open spec fn run_tiles_stream(grid: Option<GridView<TileKind>>, msgs: Seq<TilesStreamMessage>) -> (
    Option<GridView<TileKind>>,
    Option<GridView<TileKind>>,
    Seq<TileMutated>,
)
    decreases msgs.len(),
{
    if msgs.len() == 0 {
        (grid, None, Seq::empty())
    } else {
        let (g, snap, em) = run_tiles_stream(grid, msgs.drop_last());
        match msgs.last() {
            TilesStreamMessage::TilemapData { .. } => match snapshot_view(msgs.last()) {
                Some(s) => (g, Some(s), em),
                None => (g, snap, em),
            },
            TilesStreamMessage::TileMutated { position, kind } => {
                let pos = IVec2 { x: position[0], y: position[1] };
                match g {
                    Some(gv) => (
                        Some(grid_set(gv, pos, kind)),
                        snap,
                        em.push(TileMutated { position: pos, kind }),
                    ),
                    None => (g, snap, em),
                }
            },
        }
    }
}

/// Applies the messages drained from the tiles stream: mutations change the
/// grid in use and are raised as events; a valid snapshot replaces the grid
/// once all messages are handled (the last one wins); an invalid snapshot
/// is dropped.
pub fn handle_tiles_stream(grid: &mut Option<TileGrid<TileKind>>, msgs: &Vec<TilesStreamMessage>) -> (r:
    Vec<TileMutated>)
    ensures
        ({
            let (g, snap, em) = run_tiles_stream(map_view(*old(grid)), msgs@);
            &&& r@ == em
            &&& map_view(*final(grid)) == match snap {
                Some(s) => Some(s),
                None => g,
            }
        }),
{
    let ghost start = map_view(*grid);
    let mut pending: Option<TileGrid<TileKind>> = None;
    let mut out: Vec<TileMutated> = Vec::new();
    let mut i: usize = 0;
    while i < msgs.len()
        invariant
            i <= msgs@.len(),
            ({
                let (g, snap, em) = run_tiles_stream(start, msgs@.take(i as int));
                &&& map_view(*grid) == g
                &&& map_view(pending) == snap
                &&& out@ == em
            }),
        decreases msgs@.len() - i,
    {
        proof {
            let t = msgs@.take(i as int + 1);
            assert(t.drop_last() =~= msgs@.take(i as int));
            assert(t.last() == msgs@[i as int]);
        }
        match &msgs[i] {
            TilesStreamMessage::TilemapData { width, height, tiles } => {
                let cells = tiles.clone();
                assert(cells@ =~= tiles@);
                match TileGrid::from_cells(*width, *height, cells) {
                    Ok(g) => {
                        pending = Some(g);
                    },
                    Err(_) => {},
                }
            },
            TilesStreamMessage::TileMutated { position, kind } => {
                let pos = IVec2 { x: position[0], y: position[1] };
                match grid {
                    Some(g) => {
                        g.set(pos, *kind);
                        out.push(TileMutated { position: pos, kind: *kind });
                    },
                    None => {},
                }
            },
        }
        i = i + 1;
    }
    assert(msgs@.take(i as int) =~= msgs@);
    match pending {
        Some(p) => {
            *grid = Some(p);
        },
        None => {},
    }
    out
}

/// The first tile entity at `pos` among `tiles` (entity and position, in
/// query order): the one a mutation at `pos` replaces.
pub fn tile_entity_at(tiles: &Vec<(u64, IVec2)>, pos: IVec2) -> (r: Option<u64>)
    ensures
        match r {
            Some(e) => exists|i: int|
                0 <= i < tiles@.len() && tiles@[i] == (e, pos) && forall|j: int|
                    0 <= j < i ==> (#[trigger] tiles@[j]).1 != pos,
            None => forall|i: int| 0 <= i < tiles@.len() ==> (#[trigger] tiles@[i]).1 != pos,
        },
{
    let mut i: usize = 0;
    while i < tiles.len()
        invariant
            i <= tiles@.len(),
            forall|j: int| 0 <= j < i ==> (#[trigger] tiles@[j]).1 != pos,
        decreases tiles@.len() - i,
    {
        let (e, p) = tiles[i];
        if p == pos {
            assert(tiles@[i as int] == (e, pos));
            return Some(e);
        }
        i = i + 1;
    }
    None
}

/// Reading a cell after setting it gives the value set, and every other
/// cell keeps its value.
pub proof fn lemma_set_then_get<T>(g0: GridView<T>, g1: GridView<T>, x: int, y: int, v: T)
    requires
        g0.wf(),
        g0.in_bounds(x, y),
        g1 == (GridView { cells: g0.cells.update(y * g0.width + x, v), ..g0 }),
    ensures
        g1.wf(),
        g1.cell(x, y) == Some(v),
        forall|a: int, b: int| #![trigger g1.cell(a, b)] (a != x || b != y) ==> g1.cell(a, b) == g0.cell(a, b),
{
    lemma_row_major_index(x, y, g0.width as int, g0.height as int);
    assert forall|a: int, b: int| #![trigger g1.cell(a, b)] (a != x || b != y) implies g1.cell(a, b) == g0.cell(a, b) by {
        if g0.in_bounds(a, b) {
            lemma_row_major_index(a, b, g0.width as int, g0.height as int);
            if b * g0.width + a == y * g0.width + x {
                lemma_row_major_injective(a, b, x, y, g0.width as int);
            }
        }
    }
}

/// A grid's snapshot message carries that very grid: sending a snapshot
/// and rebuilding a grid from it gives the grid back.
pub proof fn lemma_snapshot_round_trip(g: GridView<TileKind>, msg: TilesStreamMessage)
    requires
        g.wf(),
        msg matches TilesStreamMessage::TilemapData { width, height, tiles } && width == g.width
            && height == g.height && tiles@ == g.cells,
    ensures
        snapshot_view(msg) == Some(g),
{
    if let TilesStreamMessage::TilemapData { tiles, .. } = msg {
        vstd::std_specs::vec::axiom_spec_len(&tiles);
    }
}

/// A tile mutation from the stream lands where it says: when a grid is in
/// use and `[x, y]` lies on it, handling `TileMutated { position: [x, y],
/// kind }` makes the tile at column `x`, row `y` read `kind`, leaves every
/// other tile as it was, and raises one event, for `IVec2 { x, y }` and
/// `kind`.
pub proof fn lemma_tile_mutation_lands_in_place(
    grid: Option<GridView<TileKind>>,
    msgs: Seq<TilesStreamMessage>,
    g: GridView<TileKind>,
)
    requires
        msgs.len() > 0,
        run_tiles_stream(grid, msgs.drop_last()).0 == Some(g),
        g.wf(),
        msgs.last() matches TilesStreamMessage::TileMutated { position, .. } && g.in_bounds(
            position[0] as int,
            position[1] as int,
        ),
    ensures
        ({
            let (position, kind) = (msgs.last()->TileMutated_position, msgs.last()->TileMutated_kind);
            let (g1, snap1, em1) = run_tiles_stream(grid, msgs);
            let (_, snap0, em0) = run_tiles_stream(grid, msgs.drop_last());
            &&& g1 matches Some(h) && h.wf() && h.width == g.width && h.height == g.height
                && h.cell(position[0] as int, position[1] as int) == Some(kind) && forall|a: int, b: int|
                #![trigger h.cell(a, b)]
                (a != position[0] || b != position[1]) ==> h.cell(a, b) == g.cell(a, b)
            &&& snap1 == snap0
            &&& em1 == em0.push(TileMutated { position: IVec2 { x: position[0], y: position[1] }, kind })
        }),
{
    let position = msgs.last()->TileMutated_position;
    let kind = msgs.last()->TileMutated_kind;
    let g1 = GridView { cells: g.cells.update(position[1] * g.width + position[0], kind), ..g };
    lemma_set_then_get(g, g1, position[0] as int, position[1] as int, kind);
}

/// Snapshots and mutations without a grid: a snapshot that fits its
/// dimensions becomes the pending grid (a later one replaces an earlier
/// one) and one that does not is dropped, neither touching the grid in use
/// or raising an event; a mutation while no grid is in use changes nothing
/// and raises nothing; a mutation off the grid in use leaves the grid as
/// it was and is still raised.
pub proof fn lemma_tiles_stream_other_messages(
    grid: Option<GridView<TileKind>>,
    msgs: Seq<TilesStreamMessage>,
)
    requires
        msgs.len() > 0,
    ensures
        ({
            let (g0, snap0, em0) = run_tiles_stream(grid, msgs.drop_last());
            let (g1, snap1, em1) = run_tiles_stream(grid, msgs);
            let position = msgs.last()->TileMutated_position;
            let kind = msgs.last()->TileMutated_kind;
            &&& msgs.last() is TilemapData ==> {
                &&& g1 == g0
                &&& em1 == em0
                &&& snapshot_view(msgs.last()) is Some ==> snap1 == snapshot_view(msgs.last())
                &&& snapshot_view(msgs.last()) is None ==> snap1 == snap0
            }
            &&& msgs.last() is TileMutated && g0 is None ==> g1 == g0 && snap1 == snap0 && em1 == em0
            &&& msgs.last() is TileMutated && g0 is Some && !g0->0.in_bounds(
                position[0] as int,
                position[1] as int,
            ) ==> g1 == g0 && snap1 == snap0 && em1 == em0.push(
                TileMutated { position: IVec2 { x: position[0], y: position[1] }, kind },
            )
        }),
{
}

} // verus!
