//! The LED matrix protocol: control-file commands, the frame-buffer
//! grid, and the wire encoding of a frame.
//!
//! Nothing here touches a file.  Every operation returns the write
//! it asks for — target path and bytes — as a [`ControlWrite`]; the
//! surrounding program appends the bytes to the file in append mode
//! and flushes after each one, in the order given.

use vstd::prelude::*;
use vstd::pervasive::VecAdditionalExecFns;

use crate::color::Color;
use crate::razer::OpenRazerError;
use crate::strutil::{parse_uint, parse_uint_spec, trim_spec, trim_str};

verus! {

/// Columns of the observed hardware's matrix.  The grid itself
/// treats its dimensions as configuration; these are the defaults
/// that [`DeviceMatrixEffectManager::effect_custom`] uses.
pub const MATRIX_WIDTH: usize = 22;

/// Rows of the observed hardware's matrix.
pub const MATRIX_HEIGHT: usize = 6;

/// One pending write: append `data` to the file at `path`, then
/// flush.
#[derive(Debug)]
pub struct ControlWrite {
    pub path: String,
    pub data: Vec<u8>,
}

/// The control directory of one device's LED matrix.
#[derive(Debug)]
pub struct DeviceMatrixEffectManager {
    pub path: String,
}

/// A direction for the wave effect.
#[derive(Debug, Copy, Clone, PartialEq, Eq, Structural)]
pub enum EffectWaveDirection {
    Left,
    Right,
}

/// The decimal digits of a byte, as ASCII.
pub open spec fn brightness_bytes(b: int) -> Seq<u8> {
    if b < 10 {
        seq![(48 + b) as u8]
    } else if b < 100 {
        seq![(48 + b / 10) as u8, (48 + b % 10) as u8]
    } else {
        seq![(48 + b / 100) as u8, (48 + (b / 10) % 10) as u8, (48 + b % 10) as u8]
    }
}

impl DeviceMatrixEffectManager {
    /// Wraps a control directory path.
    pub fn new(path: String) -> (r: DeviceMatrixEffectManager)
        ensures
            r.path == path,
    {
        DeviceMatrixEffectManager { path }
    }

    /// The path of one file in the control directory.
    pub open spec fn subpath_spec(&self, file: Seq<char>) -> Seq<char> {
        self.path@ + seq!['/'] + file
    }

    /// Joins the control directory path with a file name.
    pub fn subpath(&self, file: &str) -> (r: String)
        ensures
            r@ == self.subpath_spec(file@),
    {
        proof {
            reveal_strlit("/");
        }
        let mut r = self.path.clone();
        r.append("/");
        r.append(file);
        proof {
            assert(r@ =~= self.subpath_spec(file@));
        }
        r
    }

    /// Reads a brightness value out of the brightness file's text: a
    /// decimal byte, surrounded by optional whitespace.
    pub fn parse_brightness(data: &str) -> (r: Result<u8, OpenRazerError>)
        ensures
            match parse_uint_spec(trim_spec(data@), 10, 255) {
                Some(v) => r == Ok::<u8, OpenRazerError>(v as u8),
                None => r matches Err(OpenRazerError::MatrixEffectBrightnessParseError),
            },
    {
        match parse_uint(trim_str(data), 10, 255) {
            Some(v) => Ok(v as u8),
            None => Err(OpenRazerError::MatrixEffectBrightnessParseError),
        }
    }

    /// The write that sets the matrix brightness: the decimal digits
    /// of the byte, into the brightness file.
    pub fn set_brightness(&self, brightness: u8) -> (r: ControlWrite)
        ensures
            r.path@ == self.subpath_spec("matrix_brightness"@),
            r.data@ == brightness_bytes(brightness as int),
    {
        let mut data: Vec<u8> = Vec::new();
        if brightness >= 100 {
            data.push(48 + brightness / 100);
        }
        if brightness >= 10 {
            data.push(48 + (brightness / 10) % 10);
        }
        data.push(48 + brightness % 10);
        proof {
            if brightness < 10 {
                assert(data@ =~= brightness_bytes(brightness as int));
            } else if brightness < 100 {
                assert(brightness as int / 10 % 10 == brightness as int / 10);
                assert(data@ =~= brightness_bytes(brightness as int));
            } else {
                assert(data@ =~= brightness_bytes(brightness as int));
            }
        }
        ControlWrite { path: self.subpath("matrix_brightness"), data }
    }

    /// The write that selects the no-effect mode.
    pub fn effect_none(&self) -> (r: ControlWrite)
        ensures
            r.path@ == self.subpath_spec("matrix_effect_none"@),
            r.data@ == seq![0u8],
    {
        let mut data: Vec<u8> = Vec::new();
        data.push(0);
        proof {
            assert(data@ =~= seq![0u8]);
        }
        ControlWrite { path: self.subpath("matrix_effect_none"), data }
    }

    /// The write that shows a single static color.
    pub fn effect_static(&self, color: Color) -> (r: ControlWrite)
        ensures
            r.path@ == self.subpath_spec("matrix_effect_static"@),
            r.data@ == seq![color.r, color.g, color.b],
    {
        let mut data: Vec<u8> = Vec::new();
        data.push(color.r);
        data.push(color.g);
        data.push(color.b);
        proof {
            assert(data@ =~= seq![color.r, color.g, color.b]);
        }
        ControlWrite { path: self.subpath("matrix_effect_static"), data }
    }

    /// The write that selects the spectrum effect.
    pub fn effect_spectrum(&self) -> (r: ControlWrite)
        ensures
            r.path@ == self.subpath_spec("matrix_effect_spectrum"@),
            r.data@ == seq![0u8],
    {
        let mut data: Vec<u8> = Vec::new();
        data.push(0);
        proof {
            assert(data@ =~= seq![0u8]);
        }
        ControlWrite { path: self.subpath("matrix_effect_spectrum"), data }
    }

    /// The write that selects the wave effect in one direction.  The
    /// control byte goes to the spectrum mode file.
    pub fn effect_wave(&self, direction: EffectWaveDirection) -> (r: ControlWrite)
        ensures
            r.path@ == self.subpath_spec("matrix_effect_spectrum"@),
            r.data@ == (match direction {
                EffectWaveDirection::Left => seq![2u8],
                EffectWaveDirection::Right => seq![1u8],
            }),
    {
        let mut data: Vec<u8> = Vec::new();
        match direction {
            EffectWaveDirection::Left => data.push(2),
            EffectWaveDirection::Right => data.push(1),
        }
        proof {
            assert(data@.len() == 1);
            assert(data@ =~= seq![data@[0]]);
        }
        ControlWrite { path: self.subpath("matrix_effect_spectrum"), data }
    }

    /// Opens a custom frame on this matrix: an all-black grid of the
    /// hardware's dimensions.  The manager stays exclusively
    /// borrowed for the life of the handle, so only one custom frame
    /// can be open per manager at a time.
    pub fn effect_custom(&mut self) -> (r: DeviceMatrixCustom<'_>)
        ensures
            r.wf(),
            r.width == MATRIX_WIDTH,
            r.height == MATRIX_HEIGHT,
            r.manager.path@ == old(self).path@,
            forall|k: int|
                0 <= k < r.cells@.len() ==> #[trigger] r.cells@[k] == (Color {
                    r: 0,
                    g: 0,
                    b: 0,
                }),
    {
        DeviceMatrixCustom::new(&*self, MATRIX_WIDTH, MATRIX_HEIGHT)
    }
}

/// An in-memory frame: a grid of colors, row-major, owned by
/// whichever component currently renders.  Every cell always holds a
/// defined color.
#[derive(Debug)]
pub struct DeviceMatrixCustom<'a> {
    pub manager: &'a DeviceMatrixEffectManager,
    pub width: usize,
    pub height: usize,
    pub cells: Vec<Color>,
}

impl<'a> DeviceMatrixCustom<'a> {
    /// A well-formed grid: one cell per coordinate, and dimensions
    /// that the row packets can carry in one byte each.
    pub open spec fn wf(&self) -> bool {
        &&& self.cells.len() == self.width * self.height
        &&& 1 <= self.width <= 256
        &&& 1 <= self.height <= 256
    }

    /// The color at a coordinate.
    pub open spec fn cell(&self, x: int, y: int) -> Color {
        self.cells@[x + y * self.width]
    }

    /// Builds an all-black grid of the given dimensions.
    pub fn new(
        manager: &'a DeviceMatrixEffectManager,
        width: usize,
        height: usize,
    ) -> (r: DeviceMatrixCustom<'a>)
        requires
            1 <= width <= 256,
            1 <= height <= 256,
        ensures
            r.wf(),
            r.width == width,
            r.height == height,
            r.manager == manager,
            forall|k: int|
                0 <= k < r.cells@.len() ==> #[trigger] r.cells@[k] == (Color {
                    r: 0,
                    g: 0,
                    b: 0,
                }),
    {
        proof {
            assert(width * height <= 256 * 256) by (nonlinear_arith)
                requires
                    width <= 256usize,
                    height <= 256usize,
            ;
        }
        let n = width * height;
        let mut cells: Vec<Color> = Vec::new();
        let mut k: usize = 0;
        while k < n
            invariant
                k <= n,
                cells.len() == k,
                forall|m: int|
                    0 <= m < k ==> #[trigger] cells@[m] == (Color { r: 0, g: 0, b: 0 }),
            decreases n - k,
        {
            cells.push(Color { r: 0, g: 0, b: 0 });
            k = k + 1;
        }
        DeviceMatrixCustom { manager, width, height, cells }
    }

    /// The flat index of a coordinate, if it is on the grid.
    pub fn index(&self, x: usize, y: usize) -> (r: Option<usize>)
        requires
            self.wf(),
        ensures
            (x >= self.width || y >= self.height) ==> r is None,
            (x < self.width && y < self.height) ==> r == Some((x + y * self.width) as usize)
                && x + y * self.width < self.cells.len(),
    {
        if x >= self.width || y >= self.height {
            return None;
        }
        proof {
            assert(x + y * self.width < self.width * self.height) by (nonlinear_arith)
                requires
                    x < self.width,
                    y < self.height,
            ;
        }
        Some(x + y * self.width)
    }

    /// The color at a coordinate; absent off the grid, never a
    /// fault.
    pub fn get(&self, x: usize, y: usize) -> (r: Option<Color>)
        requires
            self.wf(),
        ensures
            (x >= self.width || y >= self.height) ==> r is None,
            (x < self.width && y < self.height) ==> r == Some(self.cell(x as int, y as int)),
    {
        match self.index(x, y) {
            None => None,
            Some(k) => Some(self.cells[k]),
        }
    }

    /// Repaints a coordinate; reports whether it was on the grid,
    /// and leaves the grid unchanged when it was not.
    pub fn set(&mut self, x: usize, y: usize, color: Color) -> (r: bool)
        requires
            old(self).wf(),
        ensures
            final(self).wf(),
            final(self).width == old(self).width,
            final(self).height == old(self).height,
            final(self).manager == old(self).manager,
            r == (x < old(self).width && y < old(self).height),
            r ==> final(self).cells@ == old(self).cells@.update(
                x + y * old(self).width,
                color,
            ),
            !r ==> *final(self) == *old(self),
    {
        match self.index(x, y) {
            None => false,
            Some(k) => {
                self.cells.set(k, color);
                true
            },
        }
    }

    /// Every cell with its coordinates, row-major: exactly one entry
    /// per cell of the grid.
    pub fn cells_with_coords(&self) -> (r: Vec<(usize, usize, Color)>)
        requires
            self.wf(),
        ensures
            r.len() == self.width * self.height,
            forall|k: int|
                0 <= k < r.len() ==> #[trigger] r@[k] == (
                    (k % self.width as int) as usize,
                    (k / self.width as int) as usize,
                    self.cells@[k],
                ),
    {
        let mut out: Vec<(usize, usize, Color)> = Vec::new();
        let mut k: usize = 0;
        let n = self.cells.len();
        while k < n
            invariant
                self.wf(),
                n == self.cells.len(),
                k <= n,
                out.len() == k,
                forall|m: int|
                    0 <= m < k ==> #[trigger] out@[m] == (
                        (m % self.width as int) as usize,
                        (m / self.width as int) as usize,
                        self.cells@[m],
                    ),
            decreases n - k,
        {
            let x = k % self.width;
            let y = k / self.width;
            out.push((x, y, self.cells[k]));
            k = k + 1;
        }
        out
    }

    /// The pixel bytes of one row, for the first `x` columns.
    pub open spec fn row_pixels(&self, y: int, x: int) -> Seq<u8>
        decreases x,
    {
        if x <= 0 {
            Seq::<u8>::empty()
        } else {
            self.row_pixels(y, x - 1) + seq![
                self.cell(x - 1, y).r,
                self.cell(x - 1, y).g,
                self.cell(x - 1, y).b,
            ]
        }
    }

    /// One row's wire packet: row index, column zero, last column,
    /// then the quantized triple of every cell of the row.  The
    /// column range always covers the full row: the hardware rejects
    /// a non-zero start column.
    pub open spec fn row_packet(&self, y: int) -> Seq<u8> {
        seq![y as u8, 0u8, (self.width - 1) as u8] + self.row_pixels(y, self.width as int)
    }

    /// The packets of the first `y` rows, concatenated.
    pub open spec fn frame_rows(&self, y: int) -> Seq<u8>
        decreases y,
    {
        if y <= 0 {
            Seq::<u8>::empty()
        } else {
            self.frame_rows(y - 1) + self.row_packet(y - 1)
        }
    }

    /// The wire encoding of the whole frame: every row's packet, in
    /// row order.
    pub open spec fn frame_bytes(&self) -> Seq<u8> {
        self.frame_rows(self.height as int)
    }

    /// The two writes that latch this frame onto the hardware, in
    /// order: the full frame encoding into the frame file, then one
    /// non-zero byte into the mode file.
    pub fn send_update(&self) -> (r: Vec<ControlWrite>)
        requires
            self.wf(),
        ensures
            r.len() == 2,
            r@[0].path@ == self.manager.subpath_spec("matrix_custom_frame"@),
            r@[0].data@ == self.frame_bytes(),
            r@[1].path@ == self.manager.subpath_spec("matrix_effect_custom"@),
            r@[1].data@ == seq![1u8],
    {
        let mut data: Vec<u8> = Vec::new();
        let mut y: usize = 0;
        while y < self.height
            invariant
                self.wf(),
                y <= self.height,
                data@ == self.frame_rows(y as int),
            decreases self.height - y,
        {
            data.push(y as u8);
            data.push(0);
            data.push((self.width - 1) as u8);
            let mut x: usize = 0;
            while x < self.width
                invariant
                    self.wf(),
                    y < self.height,
                    x <= self.width,
                    data@ == self.frame_rows(y as int) + seq![
                        y as u8,
                        0u8,
                        (self.width - 1) as u8,
                    ] + self.row_pixels(y as int, x as int),
                decreases self.width - x,
            {
                proof {
                    assert(x + y * self.width < self.width * self.height) by (nonlinear_arith)
                        requires
                            x < self.width,
                            y < self.height,
                    ;
                }
                let c = self.cells[x + y * self.width];
                data.push(c.r);
                data.push(c.g);
                data.push(c.b);
                proof {
                    assert(data@ =~= self.frame_rows(y as int) + seq![
                        y as u8,
                        0u8,
                        (self.width - 1) as u8,
                    ] + self.row_pixels(y as int, x as int + 1));
                }
                x = x + 1;
            }
            proof {
                assert(data@ =~= self.frame_rows(y as int + 1));
            }
            y = y + 1;
        }
        let frame_write = ControlWrite {
            path: self.manager.subpath("matrix_custom_frame"),
            data,
        };
        let mut latch: Vec<u8> = Vec::new();
        latch.push(1);
        proof {
            assert(latch@ =~= seq![1u8]);
        }
        let latch_write = ControlWrite {
            path: self.manager.subpath("matrix_effect_custom"),
            data: latch,
        };
        let mut out: Vec<ControlWrite> = Vec::new();
        out.push(frame_write);
        out.push(latch_write);
        out
    }
}

/// The grid enumeration visits each coordinate exactly once: entries
/// of [`DeviceMatrixCustom::cells_with_coords`] at distinct indexes
/// carry distinct coordinates, and every on-grid coordinate appears.
pub proof fn lemma_grid_enumeration(m: &DeviceMatrixCustom<'_>, k1: int, k2: int, x: int, y: int)
    requires
        m.wf(),
        0 <= k1 < m.width * m.height,
        0 <= k2 < m.width * m.height,
        k1 != k2,
        0 <= x < m.width,
        0 <= y < m.height,
    ensures
        k1 % m.width as int != k2 % m.width as int || k1 / m.width as int != k2 / m.width as int,
        x + y * m.width < m.width * m.height && (x + y * m.width) % m.width as int == x && (x + y
            * m.width) / m.width as int == y,
{
    let w = m.width as int;
    assert(w >= 1);
    vstd::arithmetic::div_mod::lemma_fundamental_div_mod(k1, w);
    vstd::arithmetic::div_mod::lemma_fundamental_div_mod(k2, w);
    assert(x + y * w < w * m.height) by (nonlinear_arith)
        requires
            0 <= x < w,
            0 <= y < m.height as int,
    ;
    assert((x + y * w) % w == x && (x + y * w) / w == y) by (nonlinear_arith)
        requires
            0 <= x < w,
            0 <= y,
            w >= 1,
    ;
}

} // verus!
