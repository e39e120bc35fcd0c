//! The game map grid and its binary format: a little-endian header of the
//! height and width as 32-bit words, sixteen reserved bytes, then one byte
//! per cell in row-major order. Reading the file from disk is the caller's
//! job; this module parses the bytes.

use vstd::prelude::*;

verus! {

/// One map cell: its raw byte code.
#[derive(Clone, Copy, PartialEq, Eq, Structural, Debug)]
pub struct Cell(pub u8);

/// The bytes are too short for the header or for the cell grid the header
/// announces.
#[derive(Debug)]
pub struct MapFormatError;

/// The value of four bytes read as a little-endian 32-bit word.
pub open spec fn le32(b0: u8, b1: u8, b2: u8, b3: u8) -> int {
    b0 + 256 * b1 + 65536 * b2 + 16777216 * b3
}

/// Read four bytes as a little-endian 32-bit word.
pub fn le32_value(b0: u8, b1: u8, b2: u8, b3: u8) -> (r: u32)
    ensures
        r as int == le32(b0, b1, b2, b3),
{
    b0 as u32 + 256 * b1 as u32 + 65536 * b2 as u32 + 16777216 * b3 as u32
}

/// The number of header bytes before the cell grid: two 32-bit words and
/// sixteen reserved bytes.
pub const HEADER_BYTES: usize = 24;

/// A rectangular game map of cells, stored row by row in one flat list.
pub struct GameMap {
    pub grid: Vec<Cell>,
    pub height: usize,
    pub width: usize,
}

impl GameMap {
    /// The grid holds exactly one cell per position.
    pub open spec fn wf(&self) -> bool {
        self.grid@.len() == self.height * self.width
    }

    /// An all-zero map of the given size.
    pub fn new(height: u32, width: u32) -> (m: GameMap)
        requires
            height * width <= usize::MAX,
        ensures
            m.wf(),
            m.height == height,
            m.width == width,
            forall|k: int| 0 <= k < m.grid@.len() ==> (#[trigger] m.grid@[k]).0 == 0u8,
    {
        proof {
            assert(height * width == (height as u64) * (width as u64)) by (nonlinear_arith);
        }
        let n: usize = (height as u64 * width as u64) as usize;
        let mut grid: Vec<Cell> = Vec::new();
        for k in 0..n
            invariant
                grid@.len() == k,
                forall|j: int| 0 <= j < k ==> (#[trigger] grid@[j]).0 == 0u8,
        {
            grid.push(Cell(0));
        }
        proof {
            assert(height * width == height as u64 * width as u64) by (nonlinear_arith);
        }
        GameMap { grid, height: height as usize, width: width as usize }
    }

    /// The number of rows.
    pub fn height(&self) -> (h: usize)
        ensures
            h == self.height,
    {
        self.height
    }

    /// The number of columns.
    pub fn width(&self) -> (w: usize)
        ensures
            w == self.width,
    {
        self.width
    }

    /// Parse a map file image: the header gives the size, and exactly
    /// `height * width` cell bytes must follow the reserved block. Bytes too
    /// short for either are rejected and leave the map unchanged.
    pub fn load(&mut self, bytes: &[u8]) -> (r: Result<(), MapFormatError>)
        ensures
            ({
                let blen = bytes@.len();
                let h = if blen >= 8 {
                    le32(bytes@[0], bytes@[1], bytes@[2], bytes@[3])
                } else {
                    0
                };
                let w = if blen >= 8 {
                    le32(bytes@[4], bytes@[5], bytes@[6], bytes@[7])
                } else {
                    0
                };
                if blen >= 8 && blen >= HEADER_BYTES + h * w {
                    &&& r is Ok
                    &&& final(self).height == h
                    &&& final(self).width == w
                    &&& final(self).wf()
                    &&& final(self).grid@.len() == h * w
                    &&& forall|k: int|
                        0 <= k < h * w ==> (#[trigger] final(self).grid@[k]).0 == bytes@[
                            HEADER_BYTES + k]
                } else {
                    r is Err && *final(self) == *old(self)
                }
            }),
    {
        if bytes.len() < 8 {
            return Err(MapFormatError);
        }
        let h: u32 = le32_value(bytes[0], bytes[1], bytes[2], bytes[3]);
        let w: u32 = le32_value(bytes[4], bytes[5], bytes[6], bytes[7]);
        proof {
            assert(h * w == (h as u64) * (w as u64) && (h as u64) * (w as u64) <= u64::MAX) by (nonlinear_arith)
                requires
                    h <= u32::MAX,
                    w <= u32::MAX,
            ;
        }
        let cell_count: u64 = h as u64 * w as u64;
        let need: u128 = HEADER_BYTES as u128 + cell_count as u128;
        if (bytes.len() as u128) < need {
            return Err(MapFormatError);
        }
        let n: usize = cell_count as usize;
        proof {
            assert(n + HEADER_BYTES <= bytes@.len());
        }
        let mut grid: Vec<Cell> = Vec::new();
        for k in 0..n
            invariant
                grid@.len() == k,
                n + HEADER_BYTES <= bytes@.len() <= usize::MAX,
                forall|j: int|
                    0 <= j < k ==> (#[trigger] grid@[j]).0 == bytes@[HEADER_BYTES + j],
        {
            grid.push(Cell(bytes[HEADER_BYTES + k]));
        }
        self.grid = grid;
        self.height = h as usize;
        self.width = w as usize;
        Ok(())
    }

    /// Parse a map file image into a fresh map.
    pub fn from_bytes(bytes: &[u8]) -> (r: Result<GameMap, MapFormatError>)
        ensures
            ({
                let blen = bytes@.len();
                let h = if blen >= 8 {
                    le32(bytes@[0], bytes@[1], bytes@[2], bytes@[3])
                } else {
                    0
                };
                let w = if blen >= 8 {
                    le32(bytes@[4], bytes@[5], bytes@[6], bytes@[7])
                } else {
                    0
                };
                if blen >= 8 && blen >= HEADER_BYTES + h * w {
                    &&& r matches Ok(m)
                    &&& m.wf()
                    &&& m.height == h
                    &&& m.width == w
                    &&& forall|k: int|
                        0 <= k < h * w ==> (#[trigger] r->Ok_0.grid@[k]).0 == bytes@[HEADER_BYTES
                            + k]
                } else {
                    r is Err
                }
            }),
    {
        let mut m = GameMap::new(0, 0);
        match m.load(bytes) {
            Ok(()) => Ok(m),
            Err(e) => Err(e),
        }
    }
}

} // verus!
