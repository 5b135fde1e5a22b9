//! The Flipper Zero's text protocol: command lines and the parsing of replies.
use vstd::prelude::*;
use vstd::string::StrSliceExecFns;

use crate::text::{
    all_ascii, ascii_lower, lemma_char_index, lemma_trim_after_trim_end, lemma_trim_end_append, trim_end,
    trim_start, chars_of, char_index, find_char, is_space, line_spans, lines, lower_text, parse_unsigned,
    parse_unsigned_span, push_span, push_str, span_starts_with, span_texts, spans_valid,
    starts_with, str_eq, string_of_span, to_lowercase, to_uppercase, trim, trim_span, upper_text,
    word_spans, words,
};

verus! {

/// Protocol version
pub const PROTOCOL_VERSION: u32 = 1;

/// Command types
#[derive(Debug, Clone, Copy, PartialEq, Eq, Structural)]
pub enum CommandType {
    Ping,
    DeviceInfo,
    Reboot,
    RebootDfu,
    ScreenFrame,
    ScreenStream,
    ButtonPress,
    ButtonRelease,
    StorageInfo,
    StorageList,
    StorageRead,
    StorageWrite,
    StorageDelete,
    StorageMkdir,
    StorageRename,
    AppStart,
    AppStop,
    AppList,
    GpioSetMode,
    GpioRead,
    GpioWrite,
    PropertyGet,
    PropertySet,
}

/// Response status
#[derive(Debug, Clone, Copy, PartialEq, Eq, Structural)]
pub enum ResponseStatus {
    Success,
    Error,
    NotImplemented,
    Busy,
    InvalidArgument,
    StorageFull,
    FileNotFound,
    PermissionDenied,
}

/// The status that a status code stands for; unknown codes are errors.
pub open spec fn status_of_code(code: u8) -> ResponseStatus {
    if code == 0 {
        ResponseStatus::Success
    } else if code == 1 {
        ResponseStatus::Error
    } else if code == 2 {
        ResponseStatus::NotImplemented
    } else if code == 3 {
        ResponseStatus::Busy
    } else if code == 4 {
        ResponseStatus::InvalidArgument
    } else if code == 5 {
        ResponseStatus::StorageFull
    } else if code == 6 {
        ResponseStatus::FileNotFound
    } else if code == 7 {
        ResponseStatus::PermissionDenied
    } else {
        ResponseStatus::Error
    }
}

impl ResponseStatus {
    pub fn from_code(code: u8) -> (r: Self)
        ensures
            r == status_of_code(code),
    {
        match code {
            0 => ResponseStatus::Success,
            1 => ResponseStatus::Error,
            2 => ResponseStatus::NotImplemented,
            3 => ResponseStatus::Busy,
            4 => ResponseStatus::InvalidArgument,
            5 => ResponseStatus::StorageFull,
            6 => ResponseStatus::FileNotFound,
            7 => ResponseStatus::PermissionDenied,
            _ => ResponseStatus::Error,
        }
    }

    pub fn is_ok(&self) -> (r: bool)
        ensures
            r == (*self == ResponseStatus::Success),
    {
        match self {
            ResponseStatus::Success => true,
            _ => false,
        }
    }
}

/// The words of a command line joined by single spaces.
pub open spec fn join_words(parts: Seq<Seq<char>>) -> Seq<char>
    decreases parts.len(),
{
    if parts.len() == 0 {
        seq![]
    } else if parts.len() == 1 {
        parts[0]
    } else {
        join_words(parts.drop_last()) + seq![' '] + parts.last()
    }
}

/// An argument between double quotes.
pub open spec fn quoted(s: Seq<char>) -> Seq<char> {
    seq!['"'] + s + seq!['"']
}

/// Flipper CLI command builder
pub struct CommandBuilder {
    parts: Vec<String>,
}

impl View for CommandBuilder {
    type V = Seq<Seq<char>>;

    /// The words of the command line, in order.
    closed spec fn view(&self) -> Seq<Seq<char>> {
        self.parts@.map_values(|p: String| p@)
    }
}

impl CommandBuilder {
    pub fn new(cmd: &str) -> (r: Self)
        ensures
            r@ == seq![cmd@],
    {
        let mut s = String::new();
        push_str(&mut s, cmd);
        let mut parts: Vec<String> = Vec::new();
        parts.push(s);
        let r = Self { parts };
        proof {
            assert(r@ =~= seq![cmd@]);
        }
        r
    }

    pub fn arg(self, arg: &str) -> (r: Self)
        ensures
            r@ == self@.push(arg@),
    {
        let mut s = String::new();
        push_str(&mut s, arg);
        let mut parts = self.parts;
        parts.push(s);
        let r = Self { parts };
        proof {
            assert(r@ =~= self@.push(arg@));
        }
        r
    }

    pub fn arg_quoted(self, arg: &str) -> (r: Self)
        ensures
            r@ == self@.push(quoted(arg@)),
    {
        let mut s = String::new();
        s.push('"');
        push_str(&mut s, arg);
        s.push('"');
        let mut parts = self.parts;
        parts.push(s);
        let r = Self { parts };
        proof {
            assert(s@ =~= quoted(arg@));
            assert(r@ =~= self@.push(quoted(arg@)));
        }
        r
    }

    pub fn build(self) -> (r: String)
        ensures
            r@ == join_words(self@),
    {
        let ghost v = self@;
        let parts = self.parts;
        let mut r = String::new();
        let mut i: usize = 0;
        proof {
            assert(v.take(0) =~= seq![]);
        }
        while i < parts.len()
            invariant
                i <= parts@.len() == v.len(),
                forall|k: int| 0 <= k < v.len() ==> #[trigger] v[k] == parts@[k]@,
                r@ == join_words(v.take(i as int)),
            decreases parts@.len() - i,
        {
            if i > 0 {
                r.push(' ');
            }
            push_str(&mut r, parts[i].as_str());
            proof {
                let t = v.take(i + 1);
                assert(t.drop_last() =~= v.take(i as int));
                assert(r@ =~= join_words(t));
            }
            i = i + 1;
        }
        proof {
            assert(v.take(v.len() as int) =~= v);
        }
        r
    }
}

/// Appending an argument to a command line adds a space and the argument:
/// building after `arg(a)` gives the earlier line, a space, and `a`.
pub proof fn lemma_build_after_arg(b: CommandBuilder, a: Seq<char>)
    requires
        b@.len() >= 1,
    ensures
        join_words(b@.push(a)) == join_words(b@) + seq![' '] + a,
{
    assert(b@.push(a).drop_last() =~= b@);
}

/// A quoted argument reaches the command line between double quotes.
pub proof fn lemma_build_after_quoted_arg(b: CommandBuilder, a: Seq<char>)
    requires
        b@.len() >= 1,
    ensures
        join_words(b@.push(quoted(a))) == join_words(b@) + seq![' ', '"'] + a + seq!['"'],
{
    lemma_build_after_arg(b, quoted(a));
    assert(join_words(b@) + seq![' '] + quoted(a) =~= join_words(b@) + seq![' ', '"'] + a + seq![
        '"',
    ]);
}

/// A size text with a unit scales its number by the unit's power of 1024,
/// the short name of a unit meaning the same as the long one, in any letter
/// case: `B` is 1, `K`/`KB` 2^10, `M`/`MB` 2^20, `G`/`GB` 2^30, `T`/`TB`
/// 2^40, and any other unit 1. The number is the first word, kept as text.
pub proof fn lemma_size_units(r: SizeText, s: Seq<char>)
    requires
        reads_size(r, s),
        words(s).len() >= 2,
    ensures
        ({
            let u = upper_text(words(s)[1]);
            r matches SizeText::Scaled(num, m) && num@ == words(s)[0] && (u == "B"@ ==> m == 1)
                && (u == "K"@ || u == "KB"@ ==> m == 1024) && (u == "M"@ || u == "MB"@ ==> m
                == 1024 * 1024) && (u == "G"@ || u == "GB"@ ==> m == 1024 * 1024 * 1024) && (u
                == "T"@ || u == "TB"@ ==> m == 1024 * 1024 * 1024 * 1024) && (!(u == "B"@ || u
                == "K"@ || u == "KB"@ || u == "M"@ || u == "MB"@ || u == "G"@ || u == "GB"@ || u
                == "T"@ || u == "TB"@) ==> m == 1)
        }),
{
    reveal_strlit("B");
    reveal_strlit("K");
    reveal_strlit("KB");
    reveal_strlit("M");
    reveal_strlit("MB");
    reveal_strlit("G");
    reveal_strlit("GB");
    reveal_strlit("T");
    reveal_strlit("TB");
    let u = upper_text(words(s)[1]);
    if u.len() >= 1 {
        assert(u == "M"@ || u == "MB"@ ==> u[0] == 'M');
        assert(u == "G"@ || u == "GB"@ ==> u[0] == 'G');
        assert(u == "T"@ || u == "TB"@ ==> u[0] == 'T');
        assert(u == "K"@ || u == "KB"@ ==> u[0] == 'K');
    }
}

/// Only status code 0 reads as success.
pub proof fn lemma_only_zero_is_success(code: u8)
    ensures
        (status_of_code(code) == ResponseStatus::Success) <==> code == 0,
{
}

/// How a size text was read: a plain byte count, or a number and the byte
/// multiplier of its unit. The number is decimal text; the product of it and
/// the multiplier is computed in floating point outside this crate.
#[derive(Debug)]
pub enum SizeText {
    Plain(u64),
    Scaled(String, u64),
}

/// The multiplier of a size unit (already upper-cased); unknown units count 1.
pub open spec fn unit_multiplier(u: Seq<char>) -> u64 {
    if u == "B"@ {
        1
    } else if u == "KB"@ || u == "K"@ {
        1024
    } else if u == "MB"@ || u == "M"@ {
        1048576
    } else if u == "GB"@ || u == "G"@ {
        1073741824
    } else if u == "TB"@ || u == "T"@ {
        1099511627776
    } else {
        1
    }
}

/// `r` is how the size text `s` reads: with fewer than two words the whole
/// text is an integer (0 where it is none); else the first word is the
/// number and the upper-cased second word the unit.
pub open spec fn reads_size(r: SizeText, s: Seq<char>) -> bool {
    let w = words(s);
    match r {
        SizeText::Plain(v) => w.len() < 2 && v as nat == match parse_unsigned(s, u64::MAX as nat) {
            Some(n) => n,
            None => 0,
        },
        SizeText::Scaled(num, m) => w.len() >= 2 && num@ == w[0] && m == unit_multiplier(
            upper_text(w[1]),
        ),
    }
}

fn unit_multiplier_of(u: &str) -> (r: u64)
    ensures
        r == unit_multiplier(u@),
{
    if str_eq(u, "B") {
        1
    } else if str_eq(u, "KB") || str_eq(u, "K") {
        1024
    } else if str_eq(u, "MB") || str_eq(u, "M") {
        1024 * 1024
    } else if str_eq(u, "GB") || str_eq(u, "G") {
        1024 * 1024 * 1024
    } else if str_eq(u, "TB") || str_eq(u, "T") {
        1024 * 1024 * 1024 * 1024
    } else {
        1
    }
}

/// Reads `s[lo..hi]` as a size text.
fn size_text_of_span(s: &Vec<char>, lo: usize, hi: usize) -> (r: SizeText)
    requires
        lo <= hi <= s@.len(),
    ensures
        reads_size(r, s@.subrange(lo as int, hi as int)),
{
    let ghost t = s@.subrange(lo as int, hi as int);
    let w = word_spans(s, lo, hi);
    proof {
        assert(span_texts(s@, w@).len() == w@.len());
    }
    if w.len() < 2 {
        let v = match parse_unsigned_span(s, lo, hi, u64::MAX) {
            Some(v) => v,
            None => 0,
        };
        SizeText::Plain(v)
    } else {
        let (a0, b0) = w[0];
        let (a1, b1) = w[1];
        proof {
            assert(span_texts(s@, w@)[0] == s@.subrange(a0 as int, b0 as int));
            assert(span_texts(s@, w@)[1] == s@.subrange(a1 as int, b1 as int));
            assert(spans_valid(s@, w@));
            assert(w@[0].0 <= w@[0].1 <= s@.len());
            assert(w@[1].0 <= w@[1].1 <= s@.len());
        }
        let num = string_of_span(s, a0, b0);
        let unit = string_of_span(s, a1, b1);
        let upper = to_uppercase(unit.as_str());
        let m = unit_multiplier_of(upper.as_str());
        SizeText::Scaled(num, m)
    }
}

/// Reads a size text such as `"32.5 GB"` or `"1024"`.
pub fn parse_size_parts(s: &str) -> (r: SizeText)
    ensures
        reads_size(r, s@),
{
    let c = chars_of(s);
    let r = size_text_of_span(&c, 0, c.len());
    proof {
        assert(c@.subrange(0, c@.len() as int) =~= s@);
    }
    r
}

/// The size texts after `Total:` and `Free:` in a storage reply, the last
/// line of each kind counting; each line and each text is trimmed.
pub open spec fn storage_texts(ls: Seq<Seq<char>>) -> (Option<Seq<char>>, Option<Seq<char>>)
    decreases ls.len(),
{
    if ls.len() == 0 {
        (None, None)
    } else {
        let prev = storage_texts(ls.drop_last());
        let l = trim(ls.last());
        if starts_with(l, "Total:"@) {
            (Some(trim(l.skip("Total:"@.len() as int))), prev.1)
        } else if starts_with(l, "Free:"@) {
            (prev.0, Some(trim(l.skip("Free:"@.len() as int))))
        } else {
            prev
        }
    }
}

/// `r` reads the size text `t`, or is a plain 0 where there is none.
pub open spec fn reads_size_or_zero(r: SizeText, t: Option<Seq<char>>) -> bool {
    match t {
        Some(s) => reads_size(r, s),
        None => r matches SizeText::Plain(v) && v == 0,
    }
}

/// A reply line that starts with `prefix` (its first and last characters not
/// white space), trimmed, is the prefix followed by the rest with its end
/// trimmed.
proof fn lemma_trim_prefixed_line(prefix: Seq<char>, v: Seq<char>)
    requires
        prefix.len() > 0,
        !is_space(prefix[0]),
        !is_space(prefix.last()),
    ensures
        trim(prefix + v) == prefix + trim_end(v),
{
    let line = prefix + v;
    assert(line[0] == prefix[0]);
    assert(trim_start(line) == line);
    lemma_trim_end_append(prefix, v);
    assert(trim_end(prefix) == prefix);
    if trim_end(v).len() == 0 {
        assert(prefix + trim_end(v) =~= prefix);
    }
}

/// A reply line `Total:` followed by a size text gives the total's text,
/// and one with `Free:` the free space's, each without its surrounding white
/// space; the other text stays as the earlier lines left it.
pub proof fn lemma_storage_text_lines(ls: Seq<Seq<char>>, v: Seq<char>)
    ensures
        storage_texts(ls.push("Total:"@ + v)) == (Some(trim(v)), storage_texts(ls).1),
        storage_texts(ls.push("Free:"@ + v)) == (storage_texts(ls).0, Some(trim(v))),
{
    reveal_strlit("Total:");
    reveal_strlit("Free:");
    let t = "Total:"@ + v;
    let f = "Free:"@ + v;
    assert(ls.push(t).drop_last() =~= ls);
    assert(ls.push(f).drop_last() =~= ls);
    lemma_trim_prefixed_line("Total:"@, v);
    lemma_trim_prefixed_line("Free:"@, v);
    let tt = "Total:"@ + trim_end(v);
    let ft = "Free:"@ + trim_end(v);
    assert(tt.take(6) =~= "Total:"@);
    assert(tt.skip(6) =~= trim_end(v));
    assert(ft.take(5) =~= "Free:"@);
    assert(ft.skip(5) =~= trim_end(v));
    assert(ft[0] != "Total:"@[0]);
    lemma_trim_after_trim_end(v);
}

/// Reads a storage info reply into its total and free size texts.
#[verifier::rlimit(30)]
pub fn parse_storage_info(response: &str) -> (r: (SizeText, SizeText))
    ensures
        reads_size_or_zero(r.0, storage_texts(lines(response@)).0),
        reads_size_or_zero(r.1, storage_texts(lines(response@)).1),
{
    let s = chars_of(response);
    let total_p = chars_of("Total:");
    let free_p = chars_of("Free:");
    let ls = line_spans(&s);
    let ghost all = lines(s@);
    let mut total: Option<(usize, usize)> = None;
    let mut free: Option<(usize, usize)> = None;
    let mut i: usize = 0;
    proof {
        assert(all.take(0) =~= seq![]);
    }
    while i < ls.len()
        invariant
            i <= ls@.len() == all.len(),
            s@ == response@,
            all == lines(s@),
            total_p@ == "Total:"@,
            free_p@ == "Free:"@,
            spans_valid(s@, ls@),
            span_texts(s@, ls@) == all,
            match total {
                Some(sp) => sp.0 <= sp.1 <= s@.len() && storage_texts(all.take(i as int)).0
                    == Some(s@.subrange(sp.0 as int, sp.1 as int)),
                None => storage_texts(all.take(i as int)).0 is None,
            },
            match free {
                Some(sp) => sp.0 <= sp.1 <= s@.len() && storage_texts(all.take(i as int)).1
                    == Some(s@.subrange(sp.0 as int, sp.1 as int)),
                None => storage_texts(all.take(i as int)).1 is None,
            },
        decreases ls@.len() - i,
    {
        let (lo, hi) = ls[i];
        proof {
            assert(ls@[i as int].0 <= ls@[i as int].1 <= s@.len());
            assert(all[i as int] == s@.subrange(lo as int, hi as int));
            assert(all.take(i + 1).drop_last() =~= all.take(i as int));
        }
        let (a, b) = trim_span(&s, lo, hi);
        let ghost l = s@.subrange(a as int, b as int);
        if span_starts_with(&s, a, b, &total_p) {
            let (c, d) = trim_span(&s, a + total_p.len(), b);
            proof {
                assert(l.skip(total_p@.len() as int) =~= s@.subrange(
                    a + total_p@.len(),
                    b as int,
                ));
            }
            total = Some((c, d));
        } else if span_starts_with(&s, a, b, &free_p) {
            let (c, d) = trim_span(&s, a + free_p.len(), b);
            proof {
                assert(l.skip(free_p@.len() as int) =~= s@.subrange(a + free_p@.len(), b as int));
            }
            free = Some((c, d));
        }
        i = i + 1;
    }
    proof {
        assert(all.take(all.len() as int) =~= all);
    }
    let t = match total {
        Some((c, d)) => size_text_of_span(&s, c, d),
        None => SizeText::Plain(0),
    };
    let f = match free {
        Some((c, d)) => size_text_of_span(&s, c, d),
        None => SizeText::Plain(0),
    };
    (t, f)
}


/// Device information
#[derive(Debug)]
pub struct DeviceInfo {
    pub hardware_model: String,
    pub hardware_version: String,
    pub hardware_target: String,
    pub firmware_version: String,
    pub firmware_branch: String,
    pub firmware_build_date: String,
    pub protobuf_version: (u32, u32),
    pub device_name: String,
}

/// The contents of a `DeviceInfo`.
pub struct DeviceInfoView {
    pub hardware_model: Seq<char>,
    pub hardware_version: Seq<char>,
    pub hardware_target: Seq<char>,
    pub firmware_version: Seq<char>,
    pub firmware_branch: Seq<char>,
    pub firmware_build_date: Seq<char>,
    pub protobuf_version: (u32, u32),
    pub device_name: Seq<char>,
}

impl View for DeviceInfo {
    type V = DeviceInfoView;

    open spec fn view(&self) -> DeviceInfoView {
        DeviceInfoView {
            hardware_model: self.hardware_model@,
            hardware_version: self.hardware_version@,
            hardware_target: self.hardware_target@,
            firmware_version: self.firmware_version@,
            firmware_branch: self.firmware_branch@,
            firmware_build_date: self.firmware_build_date@,
            protobuf_version: self.protobuf_version,
            device_name: self.device_name@,
        }
    }
}

/// No information: every text empty, protobuf version (0, 0).
pub open spec fn empty_device_info() -> DeviceInfoView {
    DeviceInfoView {
        hardware_model: seq![],
        hardware_version: seq![],
        hardware_target: seq![],
        firmware_version: seq![],
        firmware_branch: seq![],
        firmware_build_date: seq![],
        protobuf_version: (0, 0),
        device_name: seq![],
    }
}

/// A `u32` read from text, 0 where the text is not one.
pub open spec fn u32_or_zero(s: Seq<char>) -> u32 {
    match parse_unsigned(s, u32::MAX as nat) {
        Some(n) => n as u32,
        None => 0,
    }
}

/// One line of a device info reply applied to what the earlier lines gave:
/// the trimmed line is split at its first `':'`; the trimmed, lower-cased key
/// picks the field, which takes the trimmed value. Other lines change nothing.
pub open spec fn apply_info_line(m: DeviceInfoView, line: Seq<char>) -> DeviceInfoView {
    let t = trim(line);
    let c = char_index(t, ':');
    if c < t.len() {
        let key = lower_text(trim(t.take(c as int)));
        let value = trim(t.skip((c + 1) as int));
        if key == "hardware_model"@ || key == "hardware_name"@ {
            DeviceInfoView { hardware_model: value, ..m }
        } else if key == "hardware_version"@ {
            DeviceInfoView { hardware_version: value, ..m }
        } else if key == "hardware_target"@ {
            DeviceInfoView { hardware_target: value, ..m }
        } else if key == "firmware_version"@ {
            DeviceInfoView { firmware_version: value, ..m }
        } else if key == "firmware_branch"@ {
            DeviceInfoView { firmware_branch: value, ..m }
        } else if key == "firmware_build_date"@ {
            DeviceInfoView { firmware_build_date: value, ..m }
        } else if key == "protobuf_version_major"@ {
            DeviceInfoView { protobuf_version: (u32_or_zero(value), m.protobuf_version.1), ..m }
        } else if key == "protobuf_version_minor"@ {
            DeviceInfoView { protobuf_version: (m.protobuf_version.0, u32_or_zero(value)), ..m }
        } else if key == "device_name"@ {
            DeviceInfoView { device_name: value, ..m }
        } else {
            m
        }
    } else {
        m
    }
}

/// The device information that a sequence of reply lines gives, in order.
pub open spec fn info_from_lines(ls: Seq<Seq<char>>) -> DeviceInfoView
    decreases ls.len(),
{
    if ls.len() == 0 {
        empty_device_info()
    } else {
        apply_info_line(info_from_lines(ls.drop_last()), ls.last())
    }
}

/// A line made of a key, a `':'` and a value splits there: the key, taken
/// as written where it is lower case and has no `':'` or white space at its
/// ends, and the value trimmed.
proof fn lemma_key_line(k: Seq<char>, v: Seq<char>)
    requires
        k.len() > 0,
        !is_space(k[0]),
        !is_space(k.last()),
        all_ascii(k),
        forall|i: int| 0 <= i < k.len() ==> #[trigger] k[i] != ':' && !('A' <= k[i] && k[i] <= 'Z'),
    ensures
        ({
            let t = trim(k + seq![':'] + v);
            let c = char_index(t, ':');
            &&& c < t.len()
            &&& lower_text(trim(t.take(c as int))) == k
            &&& trim(t.skip((c + 1) as int)) == trim(v)
        }),
{
    let a = k + seq![':'];
    let line = k + seq![':'] + v;
    assert(line =~= a + v);
    assert(line[0] == k[0]);
    assert(trim_start(line) == line);
    lemma_trim_end_append(a, v);
    assert(a.last() == ':');
    assert(trim_end(a) == a);
    let t = trim(line);
    assert(t =~= a + trim_end(v));
    assert forall|i: int| 0 <= i < k.len() implies #[trigger] t[i] != ':' by {
        assert(t[i] == k[i]);
    }
    assert(t[k.len() as int] == ':');
    lemma_char_index(t, ':', k.len() as int);
    assert(t.take(k.len() as int) =~= k);
    assert(trim_start(k) == k);
    assert(trim_end(k) == k);
    assert(k.map_values(|c: char| ascii_lower(c)) =~= k);
    assert(t.skip(k.len() + 1 as int) =~= trim_end(v));
    lemma_trim_after_trim_end(v);
}

/// A reply line `key: value` with a known key (in any letter case of the
/// key as the device writes it) sets that key's field to the value without
/// its surrounding white space, and leaves every other field as it was;
/// `hardware_name` is another name for the hardware model, and the protocol
/// versions read the value as a number (0 where it is none). A reply of one
/// line gives that line applied to empty information.
pub proof fn lemma_info_line_fields(m: DeviceInfoView, v: Seq<char>, l: Seq<char>)
    ensures
        apply_info_line(m, "hardware_model:"@ + v) == (DeviceInfoView { hardware_model: trim(v), ..m }),
        apply_info_line(m, "hardware_name:"@ + v) == (DeviceInfoView { hardware_model: trim(v), ..m }),
        apply_info_line(m, "hardware_version:"@ + v) == (DeviceInfoView {
            hardware_version: trim(v),
            ..m
        }),
        apply_info_line(m, "hardware_target:"@ + v) == (DeviceInfoView {
            hardware_target: trim(v),
            ..m
        }),
        apply_info_line(m, "firmware_version:"@ + v) == (DeviceInfoView {
            firmware_version: trim(v),
            ..m
        }),
        apply_info_line(m, "firmware_branch:"@ + v) == (DeviceInfoView {
            firmware_branch: trim(v),
            ..m
        }),
        apply_info_line(m, "firmware_build_date:"@ + v) == (DeviceInfoView {
            firmware_build_date: trim(v),
            ..m
        }),
        apply_info_line(m, "protobuf_version_major:"@ + v).protobuf_version == (
            match parse_unsigned(trim(v), u32::MAX as nat) {
                Some(n) => n as u32,
                None => 0u32,
            },
            m.protobuf_version.1,
        ),
        apply_info_line(m, "protobuf_version_minor:"@ + v).protobuf_version == (
            m.protobuf_version.0,
            match parse_unsigned(trim(v), u32::MAX as nat) {
                Some(n) => n as u32,
                None => 0u32,
            },
        ),
        apply_info_line(m, "device_name:"@ + v) == (DeviceInfoView { device_name: trim(v), ..m }),
        info_from_lines(seq![l]) == apply_info_line(empty_device_info(), l),
{
    reveal_strlit("hardware_model");
    reveal_strlit("hardware_name");
    reveal_strlit("hardware_version");
    reveal_strlit("hardware_target");
    reveal_strlit("firmware_version");
    reveal_strlit("firmware_branch");
    reveal_strlit("firmware_build_date");
    reveal_strlit("protobuf_version_major");
    reveal_strlit("protobuf_version_minor");
    reveal_strlit("device_name");
    reveal_strlit("hardware_model:");
    reveal_strlit("hardware_name:");
    reveal_strlit("hardware_version:");
    reveal_strlit("hardware_target:");
    reveal_strlit("firmware_version:");
    reveal_strlit("firmware_branch:");
    reveal_strlit("firmware_build_date:");
    reveal_strlit("protobuf_version_major:");
    reveal_strlit("protobuf_version_minor:");
    reveal_strlit("device_name:");
    assert("hardware_model:"@ =~= "hardware_model"@ + seq![':']);
    lemma_info_key(m, "hardware_model"@, "hardware_model:"@, v);
    assert("hardware_name:"@ =~= "hardware_name"@ + seq![':']);
    lemma_info_key(m, "hardware_name"@, "hardware_name:"@, v);
    assert("hardware_version:"@ =~= "hardware_version"@ + seq![':']);
    lemma_info_key(m, "hardware_version"@, "hardware_version:"@, v);
    assert("hardware_target:"@ =~= "hardware_target"@ + seq![':']);
    lemma_info_key(m, "hardware_target"@, "hardware_target:"@, v);
    assert("firmware_version:"@ =~= "firmware_version"@ + seq![':']);
    lemma_info_key(m, "firmware_version"@, "firmware_version:"@, v);
    assert("firmware_branch:"@ =~= "firmware_branch"@ + seq![':']);
    lemma_info_key(m, "firmware_branch"@, "firmware_branch:"@, v);
    assert("firmware_build_date:"@ =~= "firmware_build_date"@ + seq![':']);
    lemma_info_key(m, "firmware_build_date"@, "firmware_build_date:"@, v);
    assert("protobuf_version_major:"@ =~= "protobuf_version_major"@ + seq![':']);
    lemma_info_key(m, "protobuf_version_major"@, "protobuf_version_major:"@, v);
    assert("protobuf_version_minor:"@ =~= "protobuf_version_minor"@ + seq![':']);
    lemma_info_key(m, "protobuf_version_minor"@, "protobuf_version_minor:"@, v);
    assert("device_name:"@ =~= "device_name"@ + seq![':']);
    lemma_info_key(m, "device_name"@, "device_name:"@, v);
    assert("protobuf_version_minor"@[18] != "protobuf_version_major"@[18]);
    assert("protobuf_version_minor"@ != "protobuf_version_major"@);
    assert(seq![l].drop_last() =~= Seq::<Seq<char>>::empty());
    assert(info_from_lines(seq![l].drop_last()) == empty_device_info());
}

/// The line `kc + v`, where `kc` is the key `k` and a `':'`, applied as
/// the key `k` with the trimmed value.
proof fn lemma_info_key(m: DeviceInfoView, k: Seq<char>, kc: Seq<char>, v: Seq<char>)
    requires
        kc == k + seq![':'],
        k.len() > 0,
        !is_space(k[0]),
        !is_space(k.last()),
        all_ascii(k),
        forall|i: int| 0 <= i < k.len() ==> #[trigger] k[i] != ':' && !('A' <= k[i] && k[i] <= 'Z'),
    ensures
        ({
            let t = trim(kc + v);
            let c = char_index(t, ':');
            &&& c < t.len()
            &&& lower_text(trim(t.take(c as int))) == k
            &&& trim(t.skip((c + 1) as int)) == trim(v)
        }),
{
    assert(kc + v =~= k + seq![':'] + v);
    lemma_key_line(k, v);
}

impl Default for DeviceInfo {
    fn default() -> (r: Self)
        ensures
            r@ == empty_device_info(),
    {
        DeviceInfo {
            hardware_model: String::new(),
            hardware_version: String::new(),
            hardware_target: String::new(),
            firmware_version: String::new(),
            firmware_branch: String::new(),
            firmware_build_date: String::new(),
            protobuf_version: (0, 0),
            device_name: String::new(),
        }
    }
}

impl Clone for DeviceInfo {
    fn clone(&self) -> (r: Self)
        ensures
            r@ == self@,
    {
        DeviceInfo {
            hardware_model: self.hardware_model.clone(),
            hardware_version: self.hardware_version.clone(),
            hardware_target: self.hardware_target.clone(),
            firmware_version: self.firmware_version.clone(),
            firmware_branch: self.firmware_branch.clone(),
            firmware_build_date: self.firmware_build_date.clone(),
            protobuf_version: (self.protobuf_version.0, self.protobuf_version.1),
            device_name: self.device_name.clone(),
        }
    }
}

impl DeviceInfo {
    /// The device's name, or "Flipper " and its hardware target when it has none.
    pub fn display_name(&self) -> (r: String)
        ensures
            r@ == if self.device_name@.len() > 0 {
                self.device_name@
            } else {
                "Flipper "@ + self.hardware_target@
            },
    {
        if self.device_name.as_str().unicode_len() > 0 {
            self.device_name.clone()
        } else {
            let mut r = String::new();
            push_str(&mut r, "Flipper ");
            push_str(&mut r, self.hardware_target.as_str());
            r
        }
    }
}

/// Applies one line, `s[lo..hi]`, of a device info reply.
fn apply_info_span(info: &mut DeviceInfo, s: &Vec<char>, lo: usize, hi: usize)
    requires
        lo <= hi <= s@.len(),
    ensures
        final(info)@ == apply_info_line(old(info)@, s@.subrange(lo as int, hi as int)),
{
    let (a, b) = trim_span(s, lo, hi);
    let ghost t = s@.subrange(a as int, b as int);
    let c = find_char(s, a, b, ':');
    if c == b {
        return;
    }
    let (ka, kb) = trim_span(s, a, c);
    let (va, vb) = trim_span(s, c + 1, b);
    proof {
        assert(t.take(c - a) =~= s@.subrange(a as int, c as int));
        assert(t.skip(c - a + 1) =~= s@.subrange(c + 1, b as int));
    }
    let key = string_of_span(s, ka, kb);
    let key = to_lowercase(key.as_str());
    let k = key.as_str();
    let value = string_of_span(s, va, vb);
    if str_eq(k, "hardware_model") || str_eq(k, "hardware_name") {
        info.hardware_model = value;
    } else if str_eq(k, "hardware_version") {
        info.hardware_version = value;
    } else if str_eq(k, "hardware_target") {
        info.hardware_target = value;
    } else if str_eq(k, "firmware_version") {
        info.firmware_version = value;
    } else if str_eq(k, "firmware_branch") {
        info.firmware_branch = value;
    } else if str_eq(k, "firmware_build_date") {
        info.firmware_build_date = value;
    } else if str_eq(k, "protobuf_version_major") {
        let v = match parse_unsigned_span(s, va, vb, 0xffff_ffff) {
            Some(v) => v as u32,
            None => 0,
        };
        info.protobuf_version = (v, info.protobuf_version.1);
    } else if str_eq(k, "protobuf_version_minor") {
        let v = match parse_unsigned_span(s, va, vb, 0xffff_ffff) {
            Some(v) => v as u32,
            None => 0,
        };
        info.protobuf_version = (info.protobuf_version.0, v);
    } else if str_eq(k, "device_name") {
        info.device_name = value;
    }
}

/// Parse device info response
pub fn parse_device_info(response: &str) -> (r: DeviceInfo)
    ensures
        r@ == info_from_lines(lines(response@)),
{
    let s = chars_of(response);
    let ls = line_spans(&s);
    let ghost all = lines(s@);
    let mut info = DeviceInfo::default();
    let mut i: usize = 0;
    proof {
        assert(all.take(0) =~= seq![]);
    }
    while i < ls.len()
        invariant
            i <= ls@.len() == all.len(),
            all == lines(s@),
            spans_valid(s@, ls@),
            span_texts(s@, ls@) == all,
            info@ == info_from_lines(all.take(i as int)),
        decreases ls@.len() - i,
    {
        let (lo, hi) = ls[i];
        proof {
            assert(ls@[i as int].0 <= ls@[i as int].1 <= s@.len());
            assert(all[i as int] == s@.subrange(lo as int, hi as int));
            assert(all.take(i + 1).drop_last() =~= all.take(i as int));
        }
        apply_info_span(&mut info, &s, lo, hi);
        i = i + 1;
    }
    proof {
        assert(all.take(all.len() as int) =~= all);
    }
    info
}

} // verus!
