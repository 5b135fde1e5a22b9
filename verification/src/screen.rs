//! Screen frames of the Flipper Zero's 128x64 monochrome display: pixel
//! access, ASCII rendering and PNG encoding.
use image::ImageEncoder;
use vstd::prelude::*;

use crate::text::{decimal, lemma_split_after_piece, lemma_split_single, push_decimal, push_str, split_on};
use vstd::arithmetic::div_mod::{
    lemma_fundamental_div_mod_converse_div, lemma_fundamental_div_mod_converse_mod,
};

verus! {

/// Flipper Zero screen dimensions
pub const SCREEN_WIDTH: u32 = 128;

pub const SCREEN_HEIGHT: u32 = 64;

/// Bytes per row (1-bit depth, 8 pixels per byte): `SCREEN_WIDTH / 8`.
pub const BYTES_PER_ROW: usize = 16;

/// Total frame size in bytes
pub const FRAME_SIZE: usize = BYTES_PER_ROW * 64;

/// Errors of frame handling.
#[derive(Debug)]
pub enum ScreenError {
    /// Fewer bytes than a frame holds.
    InvalidFrameSize { actual: usize, expected: usize },
    /// The PNG encoder refused the image; its message.
    Encoding(String),
}

impl ScreenError {
    /// The error's message.
    pub fn message(&self) -> (r: String)
        ensures
            self matches ScreenError::InvalidFrameSize { actual, expected } ==> r@
                == "Invalid frame size: "@ + decimal(actual as nat) + " (expected "@ + decimal(
                expected as nat,
            ) + ")"@,
            self matches ScreenError::Encoding(m) ==> r@ == m@,
    {
        match self {
            ScreenError::InvalidFrameSize { actual, expected } => {
                let mut r = String::new();
                push_str(&mut r, "Invalid frame size: ");
                push_decimal(&mut r, *actual as u128);
                push_str(&mut r, " (expected ");
                push_decimal(&mut r, *expected as u128);
                push_str(&mut r, ")");
                r
            },
            ScreenError::Encoding(m) => m.clone(),
        }
    }
}

/// Bit `k` of `b`, counting from the least significant.
pub open spec fn bit_of(b: u8, k: u32) -> bool {
    (b >> k) & 1 == 1
}

/// Screen frame data
#[derive(Debug)]
pub struct ScreenFrame {
    pub data: Vec<u8>,
    pub width: u32,
    pub height: u32,
}

/// The byte that holds pixel `(x, y)`: 16 bytes per row.
pub open spec fn byte_index(x: u32, y: u32) -> int {
    y * 16 + x / 8
}

/// The bit of that byte: the leftmost pixel is the most significant bit.
pub open spec fn bit_index(x: u32) -> u32 {
    (7 - x % 8) as u32
}

/// The ASCII block character for a pair of stacked pixels.
pub open spec fn block_char(top: bool, bottom: bool) -> char {
    if top && bottom {
        '█'
    } else if top {
        '▀'
    } else if bottom {
        '▄'
    } else {
        ' '
    }
}

/// A border line: its corners and `w` horizontal bars between them.
pub open spec fn border(w: nat, left: char, right: char) -> Seq<char> {
    seq![left] + Seq::new(w, |i: int| '─') + seq![right]
}

/// The grey value of a pixel in a PNG: lit pixels white, or black if inverted.
pub open spec fn gray_of(lit: bool, invert: bool) -> u8 {
    if lit != invert {
        255
    } else {
        0
    }
}

impl ScreenFrame {
    /// Whether pixel `(x, y)` is lit; pixels outside the frame, or past its
    /// data, are not.
    pub open spec fn pixel(&self, x: u32, y: u32) -> bool {
        &&& x < self.width
        &&& y < self.height
        &&& byte_index(x, y) < self.data@.len()
        &&& bit_of(self.data@[byte_index(x, y)], bit_index(x))
    }

    /// The pixel `(x, y)` lies in the frame and its byte in the data.
    pub open spec fn addressable(&self, x: u32, y: u32) -> bool {
        x < self.width && y < self.height && byte_index(x, y) < self.data@.len()
    }

    /// One line of the ASCII picture: pixel rows `y` and `y + 1`.
    pub open spec fn ascii_row(&self, y: u32) -> Seq<char> {
        seq!['│'] + Seq::new(
            self.width as nat,
            |x: int|
                block_char(
                    self.pixel(x as u32, y),
                    y + 1 < self.height && self.pixel(x as u32, (y + 1) as u32),
                ),
        ) + seq!['│', '\n']
    }

    /// One line of the ASCII picture without its line break: pixel rows `y`
    /// and `y + 1` between two side bars.
    pub open spec fn ascii_line(&self, y: u32) -> Seq<char> {
        seq!['│'] + Seq::new(
            self.width as nat,
            |x: int|
                block_char(
                    self.pixel(x as u32, y),
                    y + 1 < self.height && self.pixel(x as u32, (y + 1) as u32),
                ),
        ) + seq!['│']
    }

    /// The first `k` lines of the ASCII picture's body.
    pub open spec fn ascii_rows(&self, k: nat) -> Seq<char>
        decreases k,
    {
        if k == 0 {
            seq![]
        } else {
            self.ascii_rows((k - 1) as nat) + self.ascii_row((2 * (k - 1)) as u32)
        }
    }

    /// The whole ASCII picture: a box around one line per two pixel rows.
    pub open spec fn ascii_art(&self) -> Seq<char> {
        border(self.width as nat, '┌', '┐') + seq!['\n'] + self.ascii_rows(
            ((self.height as nat + 1) / 2) as nat,
        ) + border(self.width as nat, '└', '┘')
    }

    /// The grey-scale picture `to_png` encodes, row by row, each pixel
    /// repeated `scale` times in both directions.
    pub open spec fn gray_raster(&self, scale: u32, invert: bool) -> Seq<u8> {
        let w: int = self.width * scale;
        let h: int = self.height * scale;
        let s: int = scale as int;
        Seq::new(
            (w * h) as nat,
            |i: int| gray_of(self.pixel(((i % w) / s) as u32, ((i / w) / s) as u32), invert),
        )
    }

    /// The data after pixel `(x, y)` is set to `value`: its bit set or
    /// cleared where the pixel is addressable, the data unchanged elsewhere.
    pub open spec fn data_with_pixel(&self, x: u32, y: u32, value: bool) -> Seq<u8> {
        if self.addressable(x, y) {
            let b = self.data@[byte_index(x, y)];
            self.data@.update(
                byte_index(x, y),
                if value {
                    b | (1u8 << bit_index(x))
                } else {
                    b & !(1u8 << bit_index(x))
                },
            )
        } else {
            self.data@
        }
    }

    /// Create a new empty frame
    pub fn new() -> (r: Self)
        ensures
            r.width == SCREEN_WIDTH,
            r.height == SCREEN_HEIGHT,
            r.data@ == Seq::new(FRAME_SIZE as nat, |i: int| 0u8),
    {
        let r = Self { data: vec![0u8; FRAME_SIZE], width: SCREEN_WIDTH, height: SCREEN_HEIGHT };
        proof {
            assert(r.data@ =~= Seq::new(FRAME_SIZE as nat, |i: int| 0u8));
        }
        r
    }

    /// Create from raw bytes: the first `FRAME_SIZE` bytes make the frame.
    pub fn from_bytes(data: &[u8]) -> (r: Result<Self, ScreenError>)
        ensures
            data@.len() < FRAME_SIZE ==> (r matches Err(ScreenError::InvalidFrameSize {
                actual,
                expected,
            }) && actual == data@.len() && expected == FRAME_SIZE),
            data@.len() >= FRAME_SIZE ==> (r matches Ok(f) && f.width == SCREEN_WIDTH && f.height
                == SCREEN_HEIGHT && f.data@ == data@.take(FRAME_SIZE as int)),
    {
        if data.len() < FRAME_SIZE {
            return Err(ScreenError::InvalidFrameSize { actual: data.len(), expected: FRAME_SIZE });
        }
        let mut v: Vec<u8> = Vec::new();
        let mut i: usize = 0;
        while i < FRAME_SIZE
            invariant
                i <= FRAME_SIZE <= data@.len(),
                v@ == data@.take(i as int),
            decreases FRAME_SIZE - i,
        {
            v.push(data[i]);
            i = i + 1;
            proof {
                assert(v@ =~= data@.take(i as int));
            }
        }
        Ok(Self { data: v, width: SCREEN_WIDTH, height: SCREEN_HEIGHT })
    }

    /// Get pixel value at (x, y)
    pub fn get_pixel(&self, x: u32, y: u32) -> (r: bool)
        ensures
            r == self.pixel(x, y),
    {
        if x >= self.width || y >= self.height {
            return false;
        }
        let byte_index = (y as u64) * 16 + (x as u64) / 8;
        let bit_index = 7 - (x % 8);
        if byte_index < self.data.len() as u64 {
            (self.data[byte_index as usize] >> bit_index) & 1 == 1
        } else {
            false
        }
    }

    /// Set pixel value at (x, y): the one bit that holds it is set or
    /// cleared; nothing changes where the pixel is not addressable.
    pub fn set_pixel(&mut self, x: u32, y: u32, value: bool)
        ensures
            final(self).width == old(self).width,
            final(self).height == old(self).height,
            final(self).data@ == old(self).data_with_pixel(x, y, value),
    {
        if x >= self.width || y >= self.height {
            return;
        }
        let byte_index = ((y as u64) * 16 + (x as u64) / 8);
        let bit_index = 7 - (x % 8);
        if byte_index < self.data.len() as u64 {
            let byte_index = byte_index as usize;
            let b = self.data[byte_index];
            if value {
                self.data.set(byte_index, b | (1u8 << bit_index));
            } else {
                self.data.set(byte_index, b & !(1u8 << bit_index));
            }
        }
    }

    /// Render to ASCII art: a box drawn with line characters around one line
    /// per two pixel rows, each character a block showing the upper and the
    /// lower pixel.
    pub fn to_ascii(&self) -> (r: String)
        ensures
            r@ == self.ascii_art(),
    {
        let mut out = String::new();
        push_border(&mut out, self.width, '┌', '┐');
        out.push('\n');
        let ghost top = out@;
        let mut y: u64 = 0;
        proof {
            assert(top + self.ascii_rows(0) =~= top);
        }
        while y < self.height as u64
            invariant
                y % 2 == 0,
                y <= self.height as u64 + 1,
                out@ == top + self.ascii_rows((y / 2) as nat),
            decreases self.height as u64 + 2 - y,
        {
            let yy = y as u32;
            let ghost start = out@;
            out.push('│');
            let mut x: u32 = 0;
            while x < self.width
                invariant
                    x <= self.width,
                    yy < self.height,
                    out@ == start + seq!['│'] + Seq::new(
                        x as nat,
                        |i: int|
                            block_char(
                                self.pixel(i as u32, yy),
                                yy + 1 < self.height && self.pixel(i as u32, (yy + 1) as u32),
                            ),
                    ),
                decreases self.width - x,
            {
                let top_lit = self.get_pixel(x, yy);
                let bottom_lit = if yy + 1 < self.height {
                    self.get_pixel(x, yy + 1)
                } else {
                    false
                };
                let ch = if top_lit && bottom_lit {
                    '█'
                } else if top_lit {
                    '▀'
                } else if bottom_lit {
                    '▄'
                } else {
                    ' '
                };
                let ghost prev = out@;
                out.push(ch);
                x = x + 1;
                proof {
                    assert(out@ =~= start + seq!['│'] + Seq::new(
                        x as nat,
                        |i: int|
                            block_char(
                                self.pixel(i as u32, yy),
                                yy + 1 < self.height && self.pixel(i as u32, (yy + 1) as u32),
                            ),
                    ));
                }
            }
            out.push('│');
            out.push('\n');
            proof {
                let k = (y / 2) as nat;
                assert(2 * k == y);
                assert(self.ascii_rows(k + 1) == self.ascii_rows(k) + self.ascii_row(yy));
                assert(out@ =~= start + self.ascii_row(yy));
            }
            y = y + 2;
        }
        proof {
            assert((y / 2) as nat == ((self.height as nat + 1) / 2) as nat);
        }
        push_border(&mut out, self.width, '└', '┘');
        proof {
            assert(out@ =~= self.ascii_art());
        }
        out
    }

    /// The grey-scale picture of the frame, scaled.
    fn gray_pixels(&self, scale: u32, invert: bool) -> (r: Vec<u8>)
        requires
            self.width * scale <= u32::MAX,
            self.height * scale <= u32::MAX,
        ensures
            r@ == self.gray_raster(scale, invert),
    {
        let w = self.width * scale;
        let h = self.height * scale;
        let ghost wi: int = w as int;
        let mut v: Vec<u8> = Vec::new();
        let mut py: u32 = 0;
        while py < h
            invariant
                py <= h == self.height * scale,
                w == self.width * scale,
                wi == w,
                v@.len() == py * wi,
                forall|i: int|
                    0 <= i < v@.len() ==> #[trigger] v@[i] == self.gray_raster(scale, invert)[i],
                self.gray_raster(scale, invert).len() == wi * h,
            decreases h - py,
        {
            let mut px: u32 = 0;
            while px < w
                invariant
                    py < h == self.height * scale,
                    px <= w == self.width * scale,
                    wi == w,
                    v@.len() == py * wi + px,
                    forall|i: int|
                        0 <= i < v@.len() ==> #[trigger] v@[i] == self.gray_raster(scale, invert)[i],
                    self.gray_raster(scale, invert).len() == wi * h,
                decreases w - px,
            {
                let lit = self.get_pixel(px / scale, py / scale);
                let g: u8 = if lit != invert {
                    255
                } else {
                    0
                };
                proof {
                    let i = py * wi + px;
                    lemma_fundamental_div_mod_converse_mod(i, wi, py as int, px as int);
                    lemma_fundamental_div_mod_converse_div(i, wi, py as int, px as int);
                    assert(i < wi * h) by (nonlinear_arith)
                        requires
                            i == py * wi + px,
                            px < wi,
                            py < h,
                    ;
                }
                v.push(g);
                px = px + 1;
            }
            proof {
                assert(py * wi + wi == (py + 1) * wi) by (nonlinear_arith);
            }
            py = py + 1;
        }
        proof {
            assert(v@.len() == wi * h) by (nonlinear_arith)
                requires
                    v@.len() == py * wi,
                    py == h,
            ;
            assert(v@ =~= self.gray_raster(scale, invert));
        }
        v
    }

    /// Convert to PNG bytes: the frame as an 8-bit grey-scale picture, each
    /// pixel `scale` times wider and higher, lit pixels white (black when
    /// inverted).
    pub fn to_png(&self, scale: u32, invert: bool) -> (r: Result<Vec<u8>, ScreenError>)
        requires
            self.width * scale <= u32::MAX,
            self.height * scale <= u32::MAX,
        ensures
            r matches Ok(png) ==> png@ == png_gray_encoding(
                self.gray_raster(scale, invert),
                (self.width * scale) as u32,
                (self.height * scale) as u32,
            ),
            r is Ok <==> (self.width * scale > 0 && self.height * scale > 0),
            r matches Err(e) ==> e is Encoding,
    {
        let raw = self.gray_pixels(scale, invert);
        match encode_png_gray(raw.as_slice(), self.width * scale, self.height * scale) {
            Ok(png) => Ok(png),
            Err(e) => Err(ScreenError::Encoding(image_error_text(&e))),
        }
    }
}

/// What the terminal mirror does with one capture.
#[derive(Debug)]
pub enum MirrorAction {
    /// Draw this picture at the top of the terminal, then wait and capture again.
    Draw(String),
    /// The captured bytes make no frame: stop with this error.
    Fail(ScreenError),
    /// The capture failed: stop.
    Stop,
}

/// The wait between two captures of the terminal mirror, in milliseconds:
/// a second divided by the frame rate.
pub fn mirror_delay_ms(frame_rate: u32) -> (r: u64)
    requires
        frame_rate > 0,
    ensures
        r == 1000int / (frame_rate as int),
{
    1000 / (frame_rate as u64)
}

/// One step of the terminal mirror: a failed capture (`None`) stops it; the
/// captured bytes are read as a frame and drawn as ASCII art, or, where they
/// are too few, stop it with that error.
pub fn mirror_step(captured: Option<&[u8]>) -> (r: MirrorAction)
    ensures
        match captured {
            None => r is Stop,
            Some(data) => if data@.len() < FRAME_SIZE {
                r matches MirrorAction::Fail(ScreenError::InvalidFrameSize { actual, expected })
                    && actual == data@.len() && expected == FRAME_SIZE
            } else {
                r matches MirrorAction::Draw(art) && exists|f: ScreenFrame|
                    f.width == SCREEN_WIDTH && f.height == SCREEN_HEIGHT && f.data@ == data@.take(
                        FRAME_SIZE as int,
                    ) && art@ == #[trigger] f.ascii_art()
            },
        },
{
    match captured {
        None => MirrorAction::Stop,
        Some(data) => match ScreenFrame::from_bytes(data) {
            Ok(f) => MirrorAction::Draw(f.to_ascii()),
            Err(e) => MirrorAction::Fail(e),
        },
    }
}

impl Default for ScreenFrame {
    fn default() -> (r: Self)
        ensures
            r.width == SCREEN_WIDTH,
            r.height == SCREEN_HEIGHT,
            r.data@ == Seq::new(FRAME_SIZE as nat, |i: int| 0u8),
    {
        Self::new()
    }
}

impl Clone for ScreenFrame {
    fn clone(&self) -> (r: Self)
        ensures
            r.width == self.width,
            r.height == self.height,
            r.data@ == self.data@,
    {
        let mut data: Vec<u8> = Vec::new();
        let mut i: usize = 0;
        while i < self.data.len()
            invariant
                i <= self.data@.len(),
                data@ == self.data@.take(i as int),
            decreases self.data@.len() - i,
        {
            data.push(self.data[i]);
            i = i + 1;
            proof {
                assert(data@ =~= self.data@.take(i as int));
            }
        }
        proof {
            assert(self.data@.take(self.data@.len() as int) =~= self.data@);
        }
        ScreenFrame { data, width: self.width, height: self.height }
    }
}

/// Appends a border line of `w` bars between two corners.
fn push_border(out: &mut String, w: u32, left: char, right: char)
    ensures
        final(out)@ == old(out)@ + border(w as nat, left, right),
{
    out.push(left);
    let mut i: u32 = 0;
    while i < w
        invariant
            i <= w,
            out@ == old(out)@ + seq![left] + Seq::new(i as nat, |k: int| '─'),
        decreases w - i,
    {
        out.push('─');
        i = i + 1;
        proof {
            assert(out@ =~= old(out)@ + seq![left] + Seq::new(i as nat, |k: int| '─'));
        }
    }
    out.push(right);
    proof {
        assert(out@ =~= old(out)@ + border(w as nat, left, right));
    }
}

/// Pixel setting changes exactly the pixel set: after `set_pixel(x, y, v)`
/// on a frame at most 128 pixels wide, pixel `(x, y)` reads `v` where it is
/// addressable, and every other pixel reads as before.
pub proof fn lemma_set_pixel_then_get(f: ScreenFrame, g: ScreenFrame, x: u32, y: u32, v: bool, x2: u32, y2: u32)
    requires
        f.width <= SCREEN_WIDTH,
        g.width == f.width,
        g.height == f.height,
        g.data@ == f.data_with_pixel(x, y, v),
    ensures
        g.pixel(x2, y2) == if x2 == x && y2 == y && f.addressable(x, y) {
            v
        } else {
            f.pixel(x2, y2)
        },
{
    if f.addressable(x, y) && f.addressable(x2, y2) {
        let b = f.data@[byte_index(x, y)];
        let k = bit_index(x);
        let j = bit_index(x2);
        if byte_index(x2, y2) == byte_index(x, y) {
            assert(y2 == y && x2 / 8 == x / 8);
            lemma_bit_set(b, k, j);
            lemma_bit_clear(b, k, j);
            if x2 != x {
                assert(j != k);
            }
        }
    }
}

proof fn lemma_ascii_rows_len(f: ScreenFrame, k: nat)
    ensures
        f.ascii_rows(k).len() == k * (f.width + 3),
    decreases k,
{
    if k > 0 {
        lemma_ascii_rows_len(f, (k - 1) as nat);
        assert(f.ascii_rows(k) == f.ascii_rows((k - 1) as nat) + f.ascii_row((2 * (k - 1)) as u32));
        assert(f.ascii_row((2 * (k - 1)) as u32).len() == f.width + 3);
        assert(f.ascii_rows(k).len() == (k - 1) * (f.width + 3) + (f.width + 3));
        assert((k - 1) * (f.width + 3) + (f.width + 3) == k * (f.width + 3)) by (nonlinear_arith);
    } else {
        assert(f.ascii_rows(k).len() == 0);
        assert(k * (f.width + 3) == 0);
    }
}

/// The ASCII picture is a box: two border lines of `width + 2` characters,
/// a line break after the top one, and one line of `width + 3` characters
/// (bars and line break included) per two pixel rows.
pub proof fn lemma_ascii_art_size(f: ScreenFrame)
    ensures
        f.ascii_art().len() == 2 * (f.width + 2) + 1 + ((f.height + 1) / 2) * (f.width + 3),
{
    lemma_ascii_rows_len(f, ((f.height as nat + 1) / 2) as nat);
}

/// No line break in the picture's borders or in its lines.
proof fn lemma_ascii_pieces_unbroken(f: ScreenFrame, y: u32)
    ensures
        !f.ascii_line(y).contains('\n'),
        !border(f.width as nat, '┌', '┐').contains('\n'),
        !border(f.width as nat, '└', '┘').contains('\n'),
        f.ascii_row(y) == f.ascii_line(y) + seq!['\n'],
{
    let l = f.ascii_line(y);
    assert forall|i: int| 0 <= i < l.len() implies #[trigger] l[i] != '\n' by {
        if 0 < i < l.len() - 1 {
            assert(l[i] == block_char(
                f.pixel((i - 1) as u32, y),
                y + 1 < f.height && f.pixel((i - 1) as u32, (y + 1) as u32),
            ));
        }
    }
    let t = border(f.width as nat, '┌', '┐');
    assert forall|i: int| 0 <= i < t.len() implies #[trigger] t[i] != '\n' by {}
    let u = border(f.width as nat, '└', '┘');
    assert forall|i: int| 0 <= i < u.len() implies #[trigger] u[i] != '\n' by {}
    assert(f.ascii_row(y) =~= f.ascii_line(y) + seq!['\n']);
}

/// The first `k` body lines, followed by any text, split into those lines
/// and then the text's own pieces.
proof fn lemma_ascii_rows_split(f: ScreenFrame, k: nat, t: Seq<char>)
    ensures
        split_on(f.ascii_rows(k) + t, '\n') == Seq::new(k, |j: int| f.ascii_line((2 * j) as u32))
            + split_on(t, '\n'),
    decreases k,
{
    if k == 0 {
        assert(f.ascii_rows(0) + t =~= t);
        assert(Seq::new(0, |j: int| f.ascii_line((2 * j) as u32)) + split_on(t, '\n') =~= split_on(
            t,
            '\n',
        ));
    } else {
        let y = (2 * (k - 1)) as u32;
        let rest = f.ascii_row(y) + t;
        lemma_ascii_rows_split(f, (k - 1) as nat, rest);
        assert(f.ascii_rows(k) + t =~= f.ascii_rows((k - 1) as nat) + rest);
        lemma_ascii_pieces_unbroken(f, y);
        assert(rest =~= f.ascii_line(y) + seq!['\n'] + t);
        lemma_split_after_piece(f.ascii_line(y), '\n', t);
        assert(Seq::new((k - 1) as nat, |j: int| f.ascii_line((2 * j) as u32)) + seq![
            f.ascii_line(y),
        ] =~= Seq::new(k, |j: int| f.ascii_line((2 * j) as u32)));
        assert(Seq::new((k - 1) as nat, |j: int| f.ascii_line((2 * j) as u32)) + (seq![
            f.ascii_line(y),
        ] + split_on(t, '\n')) =~= Seq::new(k, |j: int| f.ascii_line((2 * j) as u32)) + split_on(
            t,
            '\n',
        ));
    }
}

/// The ASCII picture, split at its line breaks, is the top border, then one
/// line for each two pixel rows (rows `2k` and `2k + 1`), then the bottom
/// border: `(height + 1) / 2 + 2` lines in all.
pub proof fn lemma_ascii_art_lines(f: ScreenFrame)
    ensures
        split_on(f.ascii_art(), '\n') == seq![border(f.width as nat, '┌', '┐')] + Seq::new(
            ((f.height as nat + 1) / 2) as nat,
            |k: int| f.ascii_line((2 * k) as u32),
        ) + seq![border(f.width as nat, '└', '┘')],
        split_on(f.ascii_art(), '\n').len() == (f.height as nat + 1) / 2 + 2,
{
    let n = ((f.height as nat + 1) / 2) as nat;
    let top = border(f.width as nat, '┌', '┐');
    let bottom = border(f.width as nat, '└', '┘');
    lemma_ascii_pieces_unbroken(f, 0);
    assert(f.ascii_art() =~= top + seq!['\n'] + (f.ascii_rows(n) + bottom));
    lemma_split_after_piece(top, '\n', f.ascii_rows(n) + bottom);
    lemma_ascii_rows_split(f, n, bottom);
    lemma_split_single(bottom, '\n');
    let body = Seq::new(n, |k: int| f.ascii_line((2 * k) as u32));
    assert(seq![top] + (body + seq![bottom]) =~= seq![top] + body + seq![bottom]);
}

/// Each frame pixel `(x, y)` fills the `scale` by `scale` block of the
/// grey picture at `(x * scale .. x * scale + scale, y * scale .. y * scale +
/// scale)`: the picture is `width * scale` by `height * scale`, and its
/// pixel `(px, py)` is white (255) exactly when frame pixel
/// `(px / scale, py / scale)` is lit (unlit when inverted), else black (0).
pub proof fn lemma_gray_raster_scales(f: ScreenFrame, scale: u32, invert: bool, px: int, py: int)
    requires
        scale >= 1,
        0 <= px < f.width * scale,
        0 <= py < f.height * scale,
    ensures
        f.gray_raster(scale, invert).len() == (f.width * scale) * (f.height * scale),
        f.gray_raster(scale, invert)[py * (f.width * scale) + px] == if f.pixel(
            (px / (scale as int)) as u32,
            (py / (scale as int)) as u32,
        ) != invert {
            255u8
        } else {
            0u8
        },
{
    let w: int = f.width * scale;
    let h: int = f.height * scale;
    let i = py * w + px;
    lemma_fundamental_div_mod_converse_mod(i, w, py, px);
    lemma_fundamental_div_mod_converse_div(i, w, py, px);
    assert(0 <= i < w * h) by (nonlinear_arith)
        requires
            i == py * w + px,
            0 <= px < w,
            0 <= py < h,
    ;
    assert(0 <= w * h) by (nonlinear_arith)
        requires
            0 <= w,
            0 <= h,
    ;
}

/// Inverting a picture swaps black and white pixel for pixel.
pub proof fn lemma_invert_swaps_gray(f: ScreenFrame, scale: u32)
    ensures
        f.gray_raster(scale, true).len() == f.gray_raster(scale, false).len(),
        forall|i: int|
            0 <= i < f.gray_raster(scale, true).len() ==> #[trigger] f.gray_raster(scale, true)[i]
                == 255 - f.gray_raster(scale, false)[i],
{
}

/// Reading a frame's own data back gives the same frame: for a full-size
/// frame, `from_bytes(&frame.data)` keeps every byte and the dimensions.
pub proof fn lemma_from_bytes_keeps_frame(f: ScreenFrame, data: Seq<u8>)
    requires
        f.width == SCREEN_WIDTH,
        f.height == SCREEN_HEIGHT,
        f.data@.len() == FRAME_SIZE,
        data == f.data@,
    ensures
        data.len() >= FRAME_SIZE,
        data.take(FRAME_SIZE as int) == f.data@,
{
    assert(data.take(FRAME_SIZE as int) =~= f.data@);
}

proof fn lemma_bit_set(b: u8, k: u32, j: u32)
    requires
        k < 8,
        j < 8,
    ensures
        bit_of(b | (1u8 << k), j) == (j == k || bit_of(b, j)),
{
    assert(((b | (1u8 << k)) >> j) & 1 == 1 <==> (j == k || (b >> j) & 1 == 1)) by (bit_vector)
        requires
            k < 8,
            j < 8,
    ;
}

proof fn lemma_bit_clear(b: u8, k: u32, j: u32)
    requires
        k < 8,
        j < 8,
    ensures
        bit_of(b & !(1u8 << k), j) == (j != k && bit_of(b, j)),
{
    assert(((b & !(1u8 << k)) >> j) & 1 == 1 <==> (j != k && (b >> j) & 1 == 1)) by (bit_vector)
        requires
            k < 8,
            j < 8,
    ;
}

#[verifier::external_type_specification]
#[verifier::external_body]
pub struct ExImageError(image::ImageError);

/// The bytes of the PNG file that the `image` crate's `PngEncoder` writes for
/// an 8-bit grey-scale picture, row by row, of the given size.
pub uninterp spec fn png_gray_encoding(raw: Seq<u8>, width: u32, height: u32) -> Seq<u8>;

/// Calls `image::codecs::png::PngEncoder::write_image` with `ExtendedColorType::L8`
/// into a fresh buffer. The encoder asserts that the buffer holds
/// `width * height` bytes (required here). For 8-bit grey the `png` crate
/// returns an error only for a zero width or height: its other error paths
/// are a failed write, which a `Vec` never gives, an invalid colour and depth
/// combination, a missing palette, animation settings and a wrong data
/// length, none of which this call can meet. Claimed: the call succeeds
/// exactly when both dimensions are non-zero, and then returns the named
/// encoding of the arguments.
#[verifier::external_body]
fn encode_png_gray(raw: &[u8], width: u32, height: u32) -> (r: Result<Vec<u8>, image::ImageError>)
    requires
        raw@.len() == width * height,
    ensures
        r matches Ok(png) ==> png@ == png_gray_encoding(raw@, width, height),
        r is Ok <==> (width > 0 && height > 0),
{
    let mut buffer = Vec::new();
    match image::codecs::png::PngEncoder::new(&mut buffer).write_image(
        raw,
        width,
        height,
        image::ExtendedColorType::L8,
    ) {
        Ok(()) => Ok(buffer),
        Err(e) => Err(e),
    }
}

/// The message of an `image::ImageError` (its `Display` text).
#[verifier::external_body]
fn image_error_text(e: &image::ImageError) -> String {
    format!("{}", e)
}

} // verus!
