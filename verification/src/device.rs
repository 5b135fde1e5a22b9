//! What the device connection decides: the command lines it sends, when a
//! reply is complete, and how replies are read into device facts, file
//! listings, storage figures and screen frames. The serial port itself is
//! driven outside this crate.
use vstd::prelude::*;
use vstd::arithmetic::div_mod::{
    lemma_fundamental_div_mod_converse_div, lemma_fundamental_div_mod_converse_mod,
};

use crate::screen::bit_of;
use crate::text::{
    chars_of, contains, contains_text, decimal, line_spans, lines, parse_unsigned, parse_unsigned_span, push_decimal,
    push_str, span_equals, span_starts_with, span_texts, spans_valid, starts_with, string_of_span,
    trim, trim_span, word_spans, words,
};

verus! {

/// Flipper Zero USB vendor ID
pub const FLIPPER_VID: u16 = 0x0483;

/// Flipper Zero USB product ID
pub const FLIPPER_PID: u16 = 0x5740;

/// Whether a serial port is a Flipper Zero: a USB port (given by its vendor
/// and product IDs) with the Flipper's IDs.
pub fn is_flipper_port(usb_ids: Option<(u16, u16)>) -> (r: bool)
    ensures
        r == (usb_ids == Some((FLIPPER_VID, FLIPPER_PID))),
{
    match usb_ids {
        Some((vid, pid)) => vid == FLIPPER_VID && pid == FLIPPER_PID,
        None => false,
    }
}

/// A reply is complete once it holds the prompt `>:` or an empty line
/// (`"\r\n\r\n"`).
pub fn response_complete(response: &str) -> (r: bool)
    ensures
        r == (contains(response@, ">:"@) || contains(response@, "\r\n\r\n"@)),
{
    let s = chars_of(response);
    let prompt = chars_of(">:");
    let blank = chars_of("\r\n\r\n");
    contains_text(&s, &prompt) || contains_text(&s, &blank)
}

/// The command line `storage <verb> <path>`.
pub fn storage_command(verb: &str, path: &str) -> (r: String)
    ensures
        r@ == "storage "@ + verb@ + " "@ + path@,
{
    let mut r = String::new();
    push_str(&mut r, "storage ");
    push_str(&mut r, verb);
    push_str(&mut r, " ");
    push_str(&mut r, path);
    r
}

/// The command line `storage rename <old> <new>`.
pub fn storage_rename_command(old_path: &str, new_path: &str) -> (r: String)
    ensures
        r@ == "storage rename "@ + old_path@ + " "@ + new_path@,
{
    let mut r = storage_command("rename", old_path);
    push_str(&mut r, " ");
    push_str(&mut r, new_path);
    proof {
        reveal_strlit("storage rename ");
        reveal_strlit("storage ");
        reveal_strlit("rename");
        reveal_strlit(" ");
        assert(r@ =~= "storage rename "@ + old_path@ + " "@ + new_path@);
    }
    r
}

/// Button on Flipper Zero
#[derive(Debug, Clone, Copy, PartialEq, Eq, Structural)]
pub enum Button {
    Up,
    Down,
    Left,
    Right,
    Center,
    Back,
}

/// The name of a button in button commands.
pub open spec fn button_word(b: Button) -> Seq<char> {
    match b {
        Button::Up => "up"@,
        Button::Down => "down"@,
        Button::Left => "left"@,
        Button::Right => "right"@,
        Button::Center => "ok"@,
        Button::Back => "back"@,
    }
}

impl Button {
    /// The command that presses the button: `button <name>`.
    pub fn press_command(&self) -> (r: &'static str)
        ensures
            r@ == "button "@ + button_word(*self),
    {
        proof {
            reveal_strlit("button ");
        }
        match self {
            Button::Up => {
                proof {
                    reveal_strlit("up");
                    reveal_strlit("button up");
                    assert("button up"@ =~= "button "@ + "up"@);
                }
                "button up"
            },
            Button::Down => {
                proof {
                    reveal_strlit("down");
                    reveal_strlit("button down");
                    assert("button down"@ =~= "button "@ + "down"@);
                }
                "button down"
            },
            Button::Left => {
                proof {
                    reveal_strlit("left");
                    reveal_strlit("button left");
                    assert("button left"@ =~= "button "@ + "left"@);
                }
                "button left"
            },
            Button::Right => {
                proof {
                    reveal_strlit("right");
                    reveal_strlit("button right");
                    assert("button right"@ =~= "button "@ + "right"@);
                }
                "button right"
            },
            Button::Center => {
                proof {
                    reveal_strlit("ok");
                    reveal_strlit("button ok");
                    assert("button ok"@ =~= "button "@ + "ok"@);
                }
                "button ok"
            },
            Button::Back => {
                proof {
                    reveal_strlit("back");
                    reveal_strlit("button back");
                    assert("button back"@ =~= "button "@ + "back"@);
                }
                "button back"
            },
        }
    }

    /// The command that releases the button: `button <name> release`.
    pub fn release_command(&self) -> (r: String)
        ensures
            r@ == "button "@ + button_word(*self) + " release"@,
    {
        let mut r = String::new();
        push_str(&mut r, self.press_command());
        push_str(&mut r, " release");
        r
    }
}

/// File information
#[derive(Debug)]
pub struct FileInfo {
    pub name: String,
    pub is_directory: bool,
    pub size: u64,
}

/// The contents of a `FileInfo`.
pub struct FileInfoView {
    pub name: Seq<char>,
    pub is_directory: bool,
    pub size: u64,
}

impl View for FileInfo {
    type V = FileInfoView;

    open spec fn view(&self) -> FileInfoView {
        FileInfoView { name: self.name@, is_directory: self.is_directory, size: self.size }
    }
}

/// The entry that a listing line describes: at least two words, the first
/// `[D]` for a directory, the second the name, the third (if any) the size,
/// 0 where it is not a number.
pub open spec fn listing_entry(line: Seq<char>) -> Option<FileInfoView> {
    let w = words(line);
    if w.len() < 2 {
        None
    } else {
        Some(
            FileInfoView {
                name: w[1],
                is_directory: w[0] == "[D]"@,
                size: if w.len() > 2 {
                    match parse_unsigned(w[2], u64::MAX as nat) {
                        Some(n) => n as u64,
                        None => 0,
                    }
                } else {
                    0
                },
            },
        )
    }
}

/// The entries of a listing reply, one per line that describes one, in order.
pub open spec fn listing_entries(ls: Seq<Seq<char>>) -> Seq<FileInfoView>
    decreases ls.len(),
{
    if ls.len() == 0 {
        seq![]
    } else {
        let prev = listing_entries(ls.drop_last());
        match listing_entry(ls.last()) {
            Some(e) => prev.push(e),
            None => prev,
        }
    }
}

impl Clone for FileInfo {
    fn clone(&self) -> (r: Self)
        ensures
            r@ == self@,
    {
        FileInfo { name: self.name.clone(), is_directory: self.is_directory, size: self.size }
    }
}

impl FileInfo {
    fn parse_span(s: &Vec<char>, lo: usize, hi: usize) -> (r: Option<Self>)
        requires
            lo <= hi <= s@.len(),
        ensures
            match r {
                Some(f) => listing_entry(s@.subrange(lo as int, hi as int)) == Some(f@),
                None => listing_entry(s@.subrange(lo as int, hi as int)) is None,
            },
    {
        let w = word_spans(s, lo, hi);
        proof {
            assert(span_texts(s@, w@).len() == w@.len());
        }
        if w.len() < 2 {
            return None;
        }
        let dir_mark = chars_of("[D]");
        let (a0, b0) = w[0];
        let (a1, b1) = w[1];
        proof {
            assert(spans_valid(s@, w@));
            assert(w@[0].0 <= w@[0].1 <= s@.len());
            assert(w@[1].0 <= w@[1].1 <= s@.len());
            assert(span_texts(s@, w@)[0] == s@.subrange(a0 as int, b0 as int));
            assert(span_texts(s@, w@)[1] == s@.subrange(a1 as int, b1 as int));
        }
        let is_directory = span_equals(s, a0, b0, &dir_mark);
        let name = string_of_span(s, a1, b1);
        let size = if w.len() > 2 {
            let (a2, b2) = w[2];
            proof {
                assert(w@[2].0 <= w@[2].1 <= s@.len());
                assert(span_texts(s@, w@)[2] == s@.subrange(a2 as int, b2 as int));
            }
            match parse_unsigned_span(s, a2, b2, u64::MAX) {
                Some(v) => v,
                None => 0,
            }
        } else {
            0
        };
        Some(FileInfo { name, is_directory, size })
    }

    /// Reads one line of a directory listing, such as `[D] apps` or
    /// `[F] test.sub 1024`.
    pub fn parse(line: &str) -> (r: Option<Self>)
        ensures
            match r {
                Some(f) => listing_entry(line@) == Some(f@),
                None => listing_entry(line@) is None,
            },
    {
        let s = chars_of(line);
        proof {
            assert(s@.subrange(0, s@.len() as int) =~= s@);
        }
        Self::parse_span(&s, 0, s.len())
    }
}

/// Reads a directory listing reply: the entries of the lines that describe one.
pub fn parse_directory_listing(response: &str) -> (r: Vec<FileInfo>)
    ensures
        r@.len() == listing_entries(lines(response@)).len(),
        forall|i: int| 0 <= i < r@.len() ==> #[trigger] r@[i]@ == listing_entries(lines(response@))[i],
{
    let s = chars_of(response);
    let ls = line_spans(&s);
    let ghost all = lines(s@);
    let mut files: Vec<FileInfo> = Vec::new();
    let mut i: usize = 0;
    proof {
        assert(all.take(0) =~= seq![]);
    }
    while i < ls.len()
        invariant
            i <= ls@.len() == all.len(),
            all == lines(s@),
            spans_valid(s@, ls@),
            span_texts(s@, ls@) == all,
            files@.len() == listing_entries(all.take(i as int)).len(),
            forall|k: int|
                0 <= k < files@.len() ==> #[trigger] files@[k]@ == listing_entries(
                    all.take(i as int),
                )[k],
        decreases ls@.len() - i,
    {
        let (lo, hi) = ls[i];
        proof {
            assert(ls@[i as int].0 <= ls@[i as int].1 <= s@.len());
            assert(all[i as int] == s@.subrange(lo as int, hi as int));
            assert(all.take(i + 1).drop_last() =~= all.take(i as int));
        }
        match FileInfo::parse_span(&s, lo, hi) {
            Some(f) => {
                files.push(f);
            },
            None => {},
        }
        i = i + 1;
    }
    proof {
        assert(all.take(all.len() as int) =~= all);
    }
    files
}

/// Storage information
#[derive(Debug, Clone, Copy, PartialEq, Eq, Structural)]
pub struct StorageInfo {
    pub total: u64,
    pub free: u64,
}

/// A `u64` read from text, 0 where the text is not one.
pub open spec fn u64_or_zero(s: Seq<char>) -> u64 {
    match parse_unsigned(s, u64::MAX as nat) {
        Some(n) => n as u64,
        None => 0,
    }
}

/// The storage figures that reply lines give: the (trimmed) number after
/// `total:` and after `free:` at the start of a line, the last line of each
/// kind counting, 0 where there is none or it is not a number.
pub open spec fn storage_figures(ls: Seq<Seq<char>>) -> StorageInfo
    decreases ls.len(),
{
    if ls.len() == 0 {
        StorageInfo { total: 0, free: 0 }
    } else {
        let prev = storage_figures(ls.drop_last());
        let l = ls.last();
        if starts_with(l, "total:"@) {
            StorageInfo { total: u64_or_zero(trim(l.skip("total:"@.len() as int))), ..prev }
        } else if starts_with(l, "free:"@) {
            StorageInfo { free: u64_or_zero(trim(l.skip("free:"@.len() as int))), ..prev }
        } else {
            prev
        }
    }
}

impl StorageInfo {
    /// Reads a `storage info` reply.
    pub fn parse(response: &str) -> (r: Self)
        ensures
            r == storage_figures(lines(response@)),
    {
        let s = chars_of(response);
        let total_p = chars_of("total:");
        let free_p = chars_of("free:");
        let ls = line_spans(&s);
        let ghost all = lines(s@);
        let mut r = StorageInfo { total: 0, free: 0 };
        let mut i: usize = 0;
        proof {
            assert(all.take(0) =~= seq![]);
        }
        while i < ls.len()
            invariant
                i <= ls@.len() == all.len(),
                all == lines(s@),
                total_p@ == "total:"@,
                free_p@ == "free:"@,
                spans_valid(s@, ls@),
                span_texts(s@, ls@) == all,
                r == storage_figures(all.take(i as int)),
            decreases ls@.len() - i,
        {
            let (lo, hi) = ls[i];
            proof {
                assert(ls@[i as int].0 <= ls@[i as int].1 <= s@.len());
                assert(all[i as int] == s@.subrange(lo as int, hi as int));
                assert(all.take(i + 1).drop_last() =~= all.take(i as int));
            }
            let ghost l = s@.subrange(lo as int, hi as int);
            if span_starts_with(&s, lo, hi, &total_p) {
                let (a, b) = trim_span(&s, lo + total_p.len(), hi);
                proof {
                    assert(l.skip(total_p@.len() as int) =~= s@.subrange(
                        lo + total_p@.len(),
                        hi as int,
                    ));
                }
                let v = match parse_unsigned_span(&s, a, b, u64::MAX) {
                    Some(v) => v,
                    None => 0,
                };
                r = StorageInfo { total: v, free: r.free };
            } else if span_starts_with(&s, lo, hi, &free_p) {
                let (a, b) = trim_span(&s, lo + free_p.len(), hi);
                proof {
                    assert(l.skip(free_p@.len() as int) =~= s@.subrange(
                        lo + free_p@.len(),
                        hi as int,
                    ));
                }
                let v = match parse_unsigned_span(&s, a, b, u64::MAX) {
                    Some(v) => v,
                    None => 0,
                };
                r = StorageInfo { total: r.total, free: v };
            }
            i = i + 1;
        }
        proof {
            assert(all.take(all.len() as int) =~= all);
        }
        r
    }
}


/// Errors of screen frame handling.
#[derive(Debug)]
pub enum FrameError {
    /// Fewer bytes than a frame holds.
    InsufficientData { actual: usize, expected: usize },
}

impl FrameError {
    /// The error's message.
    pub fn message(&self) -> (r: String)
        ensures
            self matches FrameError::InsufficientData { actual, expected } ==> r@
                == "Insufficient screen data: "@ + decimal(actual as nat) + " < "@ + decimal(
                expected as nat,
            ),
    {
        match self {
            FrameError::InsufficientData { actual, expected } => {
                let mut r = String::new();
                push_str(&mut r, "Insufficient screen data: ");
                push_decimal(&mut r, *actual as u128);
                push_str(&mut r, " < ");
                push_decimal(&mut r, *expected as u128);
                r
            },
        }
    }
}

/// Screen frame (128x64 1-bit display), pixels numbered row by row, eight
/// to a byte, the leftmost in the least significant bit.
#[derive(Debug)]
pub struct ScreenFrame {
    pub width: u32,
    pub height: u32,
    pub data: Vec<u8>,
}

/// The colour of a pixel in an RGBA picture: lit pixels orange, others black,
/// all opaque; `c` picks the channel.
pub open spec fn rgba_channel(lit: bool, c: int) -> u8 {
    if c == 3 {
        0xFF
    } else if !lit {
        0
    } else if c == 0 {
        0xFF
    } else if c == 1 {
        0x80
    } else {
        0
    }
}

impl Clone for ScreenFrame {
    fn clone(&self) -> (r: Self)
        ensures
            r.width == self.width,
            r.height == self.height,
            r.data@ == self.data@,
    {
        let mut data: Vec<u8> = Vec::new();
        let mut i: usize = 0;
        while i < self.data.len()
            invariant
                i <= self.data@.len(),
                data@ == self.data@.take(i as int),
            decreases self.data@.len() - i,
        {
            data.push(self.data[i]);
            i = i + 1;
            proof {
                assert(data@ =~= self.data@.take(i as int));
            }
        }
        proof {
            assert(self.data@.take(self.data@.len() as int) =~= self.data@);
        }
        ScreenFrame { width: self.width, height: self.height, data }
    }
}

impl ScreenFrame {
    pub const WIDTH: u32 = 128;

    pub const HEIGHT: u32 = 64;

    /// Whether pixel `(x, y)` is lit; pixels outside the frame, or past its
    /// data, are not.
    pub open spec fn pixel(&self, x: u32, y: u32) -> bool {
        &&& x < self.width
        &&& y < self.height
        &&& (y * self.width + x) / 8 < self.data@.len()
        &&& bit_of(self.data@[(y * self.width + x) / 8], (x % 8) as u32)
    }

    /// Every pixel's number `y * width + x` fits in a `u32`.
    pub open spec fn numbered(&self) -> bool {
        self.width * self.height <= u32::MAX + 1
    }

    /// The RGBA picture of the frame, row by row, each pixel `scale` times
    /// wider and higher.
    pub open spec fn rgba_image(&self, scale: u32) -> Seq<u8> {
        let w: int = self.width * scale;
        let h: int = self.height * scale;
        let s: int = scale as int;
        Seq::new(
            (w * h * 4) as nat,
            |i: int|
                rgba_channel(
                    self.pixel((((i / 4) % w) / s) as u32, (((i / 4) / w) / s) as u32),
                    i % 4,
                ),
        )
    }

    /// Create from raw bytes: the first 1024 bytes (128 x 64 pixels, one bit
    /// each) make the frame.
    pub fn from_bytes(data: &[u8]) -> (r: Result<Self, FrameError>)
        ensures
            data@.len() < 1024 ==> (r matches Err(FrameError::InsufficientData { actual, expected })
                && actual == data@.len() && expected == 1024),
            data@.len() >= 1024 ==> (r matches Ok(f) && f.width == Self::WIDTH && f.height
                == Self::HEIGHT && f.data@ == data@.take(1024)),
    {
        let expected_size: usize = 1024;
        if data.len() < expected_size {
            return Err(FrameError::InsufficientData { actual: data.len(), expected: expected_size });
        }
        let mut v: Vec<u8> = Vec::new();
        let mut i: usize = 0;
        while i < expected_size
            invariant
                expected_size == 1024,
                i <= expected_size <= data@.len(),
                v@ == data@.take(i as int),
            decreases expected_size - i,
        {
            v.push(data[i]);
            i = i + 1;
            proof {
                assert(v@ =~= data@.take(i as int));
            }
        }
        Ok(Self { width: Self::WIDTH, height: Self::HEIGHT, data: v })
    }

    /// Get pixel at (x, y)
    pub fn get_pixel(&self, x: u32, y: u32) -> (r: bool)
        requires
            x < self.width && y < self.height ==> y * self.width + x <= u32::MAX,
        ensures
            r == self.pixel(x, y),
    {
        if x >= self.width || y >= self.height {
            return false;
        }
        let byte_idx = ((y * self.width + x) / 8) as usize;
        let bit_idx = (x % 8) as u8;
        if byte_idx < self.data.len() {
            (self.data[byte_idx] >> bit_idx) & 1 == 1
        } else {
            false
        }
    }

    /// Convert to RGBA image data: four bytes per pixel, lit pixels orange
    /// (`FF 80 00 FF`), others black, each frame pixel `scale` times wider
    /// and higher.
    pub fn to_rgba(&self, scale: u32) -> (r: Vec<u8>)
        requires
            self.numbered(),
            self.width * scale <= u32::MAX,
            self.height * scale <= u32::MAX,
            (self.width * scale) * (self.height * scale) * 4 <= u32::MAX,
        ensures
            r@ == self.rgba_image(scale),
    {
        let w = self.width * scale;
        let h = self.height * scale;
        let ghost wi: int = w as int;
        let ghost img = self.rgba_image(scale);
        let mut v: Vec<u8> = Vec::new();
        let mut py: u32 = 0;
        while py < h
            invariant
                py <= h == self.height * scale,
                w == self.width * scale,
                wi == w,
                self.numbered(),
                img == self.rgba_image(scale),
                img.len() == wi * h * 4,
                v@.len() == py * wi * 4,
                forall|i: int| 0 <= i < v@.len() ==> #[trigger] v@[i] == img[i],
            decreases h - py,
        {
            let mut px: u32 = 0;
            while px < w
                invariant
                    py < h == self.height * scale,
                    px <= w == self.width * scale,
                    wi == w,
                    self.numbered(),
                    img == self.rgba_image(scale),
                    img.len() == wi * h * 4,
                    v@.len() == (py * wi + px) * 4,
                    forall|i: int| 0 <= i < v@.len() ==> #[trigger] v@[i] == img[i],
                decreases w - px,
            {
                let x = px / scale;
                let y = py / scale;
                proof {
                    assert(x < self.width && y < self.height) by (nonlinear_arith)
                        requires
                            px < w,
                            py < h,
                            w == self.width * scale,
                            h == self.height * scale,
                            x == px / scale,
                            y == py / scale,
                            scale > 0,
                    ;
                    assert(y * self.width + x <= u32::MAX) by (nonlinear_arith)
                        requires
                            x < self.width,
                            y < self.height,
                            self.width * self.height <= u32::MAX + 1,
                    ;
                }
                let lit = self.get_pixel(x, y);
                let ghost p = py * wi + px;
                proof {
                    lemma_fundamental_div_mod_converse_mod(p, wi, py as int, px as int);
                    lemma_fundamental_div_mod_converse_div(p, wi, py as int, px as int);
                    assert(p < wi * h) by (nonlinear_arith)
                        requires
                            p == py * wi + px,
                            px < wi,
                            py < h,
                    ;
                }
                let ghost before = v@;
                if lit {
                    v.push(0xFF);
                    v.push(0x80);
                    v.push(0x00);
                    v.push(0xFF);
                } else {
                    v.push(0x00);
                    v.push(0x00);
                    v.push(0x00);
                    v.push(0xFF);
                }
                proof {
                    assert forall|i: int| 0 <= i < v@.len() implies #[trigger] v@[i] == img[i] by {
                        if i >= before.len() {
                            assert(i / 4 == p);
                        }
                    }
                }
                px = px + 1;
            }
            proof {
                assert((py * wi + wi) * 4 == (py + 1) * wi * 4) by (nonlinear_arith);
            }
            py = py + 1;
        }
        proof {
            assert(v@.len() == wi * h * 4) by (nonlinear_arith)
                requires
                    v@.len() == py * wi * 4,
                    py == h,
            ;
            assert(v@ =~= img);
        }
        v
    }
}

/// What the device told of itself: its name, port and versions.
pub struct DeviceIdentity {
    name: String,
    port_name: String,
    firmware_version: Option<String>,
    hardware_version: Option<String>,
}

/// The contents of a `DeviceIdentity`.
pub struct DeviceIdentityView {
    pub name: Seq<char>,
    pub port_name: Seq<char>,
    pub firmware_version: Option<Seq<char>>,
    pub hardware_version: Option<Seq<char>>,
}

/// The text of an optional string.
pub open spec fn opt_view(o: Option<String>) -> Option<Seq<char>> {
    match o {
        Some(s) => Some(s@),
        None => None,
    }
}

/// One line of a `device_info` reply applied to what earlier lines gave:
/// a line that starts with `firmware_version:`, `hardware_version:` or
/// `hardware_name:` sets that field to the trimmed rest of the line.
pub open spec fn apply_identity_line(m: DeviceIdentityView, l: Seq<char>) -> DeviceIdentityView {
    if starts_with(l, "firmware_version:"@) {
        DeviceIdentityView {
            firmware_version: Some(trim(l.skip("firmware_version:"@.len() as int))),
            ..m
        }
    } else if starts_with(l, "hardware_version:"@) {
        DeviceIdentityView {
            hardware_version: Some(trim(l.skip("hardware_version:"@.len() as int))),
            ..m
        }
    } else if starts_with(l, "hardware_name:"@) {
        DeviceIdentityView { name: trim(l.skip("hardware_name:"@.len() as int)), ..m }
    } else {
        m
    }
}

/// What a sequence of `device_info` reply lines makes of an identity, in order.
pub open spec fn identity_after(m: DeviceIdentityView, ls: Seq<Seq<char>>) -> DeviceIdentityView
    decreases ls.len(),
{
    if ls.len() == 0 {
        m
    } else {
        apply_identity_line(identity_after(m, ls.drop_last()), ls.last())
    }
}

impl View for DeviceIdentity {
    type V = DeviceIdentityView;

    closed spec fn view(&self) -> DeviceIdentityView {
        DeviceIdentityView {
            name: self.name@,
            port_name: self.port_name@,
            firmware_version: opt_view(self.firmware_version),
            hardware_version: opt_view(self.hardware_version),
        }
    }
}

impl DeviceIdentity {
    /// A freshly connected device: named "Flipper Zero", versions unknown.
    pub fn new(port_name: &str) -> (r: Self)
        ensures
            r@.name == "Flipper Zero"@,
            r@.port_name == port_name@,
            r@.firmware_version is None,
            r@.hardware_version is None,
    {
        let mut name = String::new();
        push_str(&mut name, "Flipper Zero");
        let mut port = String::new();
        push_str(&mut port, port_name);
        DeviceIdentity { name, port_name: port, firmware_version: None, hardware_version: None }
    }

    /// Get device name
    pub fn name(&self) -> (r: &str)
        ensures
            r@ == self@.name,
    {
        self.name.as_str()
    }

    /// Get port name
    pub fn port_name(&self) -> (r: &str)
        ensures
            r@ == self@.port_name,
    {
        self.port_name.as_str()
    }

    /// Get firmware version
    pub fn firmware_version(&self) -> (r: Option<&str>)
        ensures
            r is Some <==> self@.firmware_version is Some,
            r matches Some(v) ==> self@.firmware_version == Some(v@),
    {
        match &self.firmware_version {
            Some(v) => Some(v.as_str()),
            None => None,
        }
    }

    /// Get hardware version
    pub fn hardware_version(&self) -> (r: Option<&str>)
        ensures
            r is Some <==> self@.hardware_version is Some,
            r matches Some(v) ==> self@.hardware_version == Some(v@),
    {
        match &self.hardware_version {
            Some(v) => Some(v.as_str()),
            None => None,
        }
    }

    /// Takes in a `device_info` reply, line by line.
    pub fn apply_device_info(&mut self, response: &str)
        ensures
            final(self)@ == identity_after(old(self)@, lines(response@)),
    {
        let s = chars_of(response);
        let fw_p = chars_of("firmware_version:");
        let hw_p = chars_of("hardware_version:");
        let name_p = chars_of("hardware_name:");
        let ls = line_spans(&s);
        let ghost all = lines(s@);
        let ghost start = self@;
        let mut i: usize = 0;
        proof {
            assert(all.take(0) =~= seq![]);
        }
        while i < ls.len()
            invariant
                i <= ls@.len() == all.len(),
                all == lines(s@),
                fw_p@ == "firmware_version:"@,
                hw_p@ == "hardware_version:"@,
                name_p@ == "hardware_name:"@,
                spans_valid(s@, ls@),
                span_texts(s@, ls@) == all,
                self@ == identity_after(start, all.take(i as int)),
            decreases ls@.len() - i,
        {
            let (lo, hi) = ls[i];
            proof {
                assert(ls@[i as int].0 <= ls@[i as int].1 <= s@.len());
                assert(all[i as int] == s@.subrange(lo as int, hi as int));
                assert(all.take(i + 1).drop_last() =~= all.take(i as int));
            }
            let ghost l = s@.subrange(lo as int, hi as int);
            if span_starts_with(&s, lo, hi, &fw_p) {
                let (a, b) = trim_span(&s, lo + fw_p.len(), hi);
                proof {
                    assert(l.skip(fw_p@.len() as int) =~= s@.subrange(lo + fw_p@.len(), hi as int));
                }
                self.firmware_version = Some(string_of_span(&s, a, b));
            } else if span_starts_with(&s, lo, hi, &hw_p) {
                let (a, b) = trim_span(&s, lo + hw_p.len(), hi);
                proof {
                    assert(l.skip(hw_p@.len() as int) =~= s@.subrange(lo + hw_p@.len(), hi as int));
                }
                self.hardware_version = Some(string_of_span(&s, a, b));
            } else if span_starts_with(&s, lo, hi, &name_p) {
                let (a, b) = trim_span(&s, lo + name_p.len(), hi);
                proof {
                    assert(l.skip(name_p@.len() as int) =~= s@.subrange(
                        lo + name_p@.len(),
                        hi as int,
                    ));
                }
                self.name = string_of_span(&s, a, b);
            }
            i = i + 1;
        }
        proof {
            assert(all.take(all.len() as int) =~= all);
        }
    }
}

/// Each frame pixel `(x, y)` fills the `scale` by `scale` block of the RGBA
/// picture at `(x * scale .., y * scale ..)`: the picture is `width * scale`
/// by `height * scale` pixels of four bytes, and its pixel `(px, py)` is
/// orange `FF 80 00 FF` where frame pixel `(px / scale, py / scale)` is lit,
/// else black `00 00 00 FF`.
pub proof fn lemma_rgba_scales(f: ScreenFrame, scale: u32, px: int, py: int)
    requires
        scale >= 1,
        0 <= px < f.width * scale,
        0 <= py < f.height * scale,
    ensures
        f.rgba_image(scale).len() == (f.width * scale) * (f.height * scale) * 4,
        ({
            let i = (py * (f.width * scale) + px) * 4;
            let lit = f.pixel((px / (scale as int)) as u32, (py / (scale as int)) as u32);
            &&& f.rgba_image(scale)[i] == if lit { 0xFFu8 } else { 0u8 }
            &&& f.rgba_image(scale)[i + 1] == if lit { 0x80u8 } else { 0u8 }
            &&& f.rgba_image(scale)[i + 2] == 0u8
            &&& f.rgba_image(scale)[i + 3] == 0xFFu8
        }),
{
    let w: int = f.width * scale;
    let h: int = f.height * scale;
    let k = py * w + px;
    lemma_fundamental_div_mod_converse_mod(k, w, py, px);
    lemma_fundamental_div_mod_converse_div(k, w, py, px);
    assert(0 <= k < w * h) by (nonlinear_arith)
        requires
            k == py * w + px,
            0 <= px < w,
            0 <= py < h,
    ;
    assert(0 <= w * h) by (nonlinear_arith)
        requires
            0 <= w,
            0 <= h,
    ;
    let i = k * 4;
    assert forall|c: int| 0 <= c < 4 implies (#[trigger] (i + c)) / 4 == k && (i + c) % 4 == c by {
        lemma_fundamental_div_mod_converse_mod(i + c, 4, k, c);
        lemma_fundamental_div_mod_converse_div(i + c, 4, k, c);
    }
    assert(i + 3 < w * h * 4);
}

/// A reply line `total:` followed by a number sets the total, and one with
/// `free:` the free space, to that number read without its surrounding
/// white space (0 where it is none); the other figure stays as the earlier
/// lines left it.
pub proof fn lemma_storage_lines(ls: Seq<Seq<char>>, v: Seq<char>)
    ensures
        storage_figures(ls.push("total:"@ + v)) == (StorageInfo {
            total: match parse_unsigned(trim(v), u64::MAX as nat) {
                Some(n) => n as u64,
                None => 0u64,
            },
            free: storage_figures(ls).free,
        }),
        storage_figures(ls.push("free:"@ + v)) == (StorageInfo {
            total: storage_figures(ls).total,
            free: match parse_unsigned(trim(v), u64::MAX as nat) {
                Some(n) => n as u64,
                None => 0u64,
            },
        }),
{
    reveal_strlit("total:");
    reveal_strlit("free:");
    let t = "total:"@ + v;
    let f = "free:"@ + v;
    assert(ls.push(t).drop_last() =~= ls);
    assert(ls.push(f).drop_last() =~= ls);
    assert(t.take(6) =~= "total:"@);
    assert(t.skip(6) =~= v);
    assert(f.take(5) =~= "free:"@);
    assert(f.skip(5) =~= v);
    assert(f[0] != "total:"@[0]);
}

} // verus!
