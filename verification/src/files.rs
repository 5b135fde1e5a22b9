//! Files on the Flipper's storage: entries, their icons and sizes, storage
//! figures, and the paths a file manager walks.
use vstd::prelude::*;
use vstd::string::StrSliceExecFns;

use crate::text::{
    chars_of, decimal, digit_char, digit_char_of, lemma_lex_transitive, lemma_lex_trichotomy,
    lex_less, lex_lt, lower_text, opt_text, push_decimal, push_str, str_eq, to_lowercase,
};

verus! {

pub const KB: u64 = 1024;

pub const MB: u64 = KB * 1024;

pub const GB: u64 = MB * 1024;

/// `n / d` rounded to the nearest integer, halves to the even one.
pub open spec fn round_half_even(n: nat, d: nat) -> nat
    recommends
        d > 0,
{
    let q = n / d;
    let r = n % d;
    if 2 * r > d || (2 * r == d && q % 2 == 1) {
        q + 1
    } else {
        q
    }
}

/// The spacing of `f64` values around `b >= 1`: 1 below 2^53, doubling
/// with every further bit.
pub open spec fn f64_spacing(b: nat) -> nat
    decreases b,
{
    if b < 0x20_0000_0000_0000 {
        1
    } else {
        2 * f64_spacing(b / 2)
    }
}

/// The value of `b as f64`: `b` rounded to the nearest `f64`, ties to the
/// one with an even significand.
pub open spec fn f64_value(b: nat) -> nat {
    round_half_even(b, f64_spacing(b)) * f64_spacing(b)
}

/// Two decimal digits of `d < 100`.
pub open spec fn two_digits(d: nat) -> Seq<char> {
    seq![digit_char(d / 10), digit_char(d % 10)]
}

/// What `{:.2}` prints for the number `v / unit`: rounded to hundredths,
/// halves to even, as whole part, `.` and two digits.
pub open spec fn fixed2(v: nat, unit: nat) -> Seq<char> {
    let c = round_half_even(v * 100, unit);
    decimal(c / 100) + "."@ + two_digits(c % 100)
}

/// Human-readable size: bytes below 1 KiB as a whole number of `B`, larger
/// sizes in the largest of `KB`, `MB`, `GB` (powers of 1024) that fits, with
/// two decimals, computed as `f64` division prints them.
pub open spec fn size_text(bytes: nat) -> Seq<char> {
    if bytes >= GB {
        fixed2(f64_value(bytes), GB as nat) + " GB"@
    } else if bytes >= MB {
        fixed2(f64_value(bytes), MB as nat) + " MB"@
    } else if bytes >= KB {
        fixed2(f64_value(bytes), KB as nat) + " KB"@
    } else {
        decimal(bytes) + " B"@
    }
}

proof fn lemma_exact_value(b: nat)
    requires
        b < 0x20_0000_0000_0000,
    ensures
        f64_value(b) == b,
{
    assert(f64_spacing(b) == 1);
    assert(round_half_even(b, 1) == b);
}

proof fn lemma_whole_fixed2(k: nat, unit: nat)
    requires
        unit > 0,
        k * unit < 0x20_0000_0000_0000,
    ensures
        fixed2(f64_value(k * unit), unit) == decimal(k) + ".00"@,
{
    lemma_exact_value(k * unit);
    assert((k * unit * 100) / unit == k * 100 && (k * unit * 100) % unit == 0) by {
        assert(k * unit * 100 == (k * 100) * unit) by (nonlinear_arith);
        vstd::arithmetic::div_mod::lemma_fundamental_div_mod_converse(
            (k * unit * 100) as int,
            unit as int,
            (k * 100) as int,
            0,
        );
        assert(k * unit * 100 == (k * 100) * unit) by (nonlinear_arith);
    }
    assert(round_half_even(k * unit * 100, unit) == k * 100);
    assert((k * 100) / 100 == k);
    assert((k * 100) % 100 == 0);
    reveal_strlit(".");
    reveal_strlit(".00");
    assert(two_digits(0) =~= seq!['0', '0']);
    assert(decimal(k) + "."@ + two_digits(0) =~= decimal(k) + ".00"@);
}

/// A whole number of kilobytes, megabytes or gigabytes (below 1024 of them)
/// prints as that number with `.00` and the unit.
pub proof fn lemma_whole_units_print_exactly(k: nat)
    requires
        1 <= k < 1024,
    ensures
        size_text(k * (KB as nat)) == decimal(k) + ".00"@ + " KB"@,
        size_text(k * (MB as nat)) == decimal(k) + ".00"@ + " MB"@,
        size_text(k * (GB as nat)) == decimal(k) + ".00"@ + " GB"@,
{
    lemma_whole_fixed2(k, KB as nat);
    lemma_whole_fixed2(k, MB as nat);
    lemma_whole_fixed2(k, GB as nat);
}

/// What `{:.1}` prints for the number `v / unit`: rounded to tenths,
/// halves to even, as whole part, `.` and one digit.
pub open spec fn fixed1(v: nat, unit: nat) -> Seq<char> {
    let c = round_half_even(v * 10, unit);
    decimal(c / 10) + "."@ + seq![digit_char(c % 10)]
}

/// The file browser's shorter size text: bytes below 1 KiB as a whole
/// number of `B`, else in `KB`, `MB` or `GB` with one decimal, computed as
/// `f64` division prints them.
pub open spec fn short_size_text(bytes: nat) -> Seq<char> {
    if bytes < KB {
        decimal(bytes) + " B"@
    } else if bytes < MB {
        fixed1(f64_value(bytes), KB as nat) + " KB"@
    } else if bytes < GB {
        fixed1(f64_value(bytes), MB as nat) + " MB"@
    } else {
        fixed1(f64_value(bytes), GB as nat) + " GB"@
    }
}

fn rounded_quotient(n: u128, d: u128) -> (r: u128)
    requires
        d > 0,
        n / d < u128::MAX,
    ensures
        r == round_half_even(n as nat, d as nat),
{
    let q = n / d;
    let rem = n % d;
    if rem > d - rem || (rem == d - rem && q % 2 == 1) {
        q + 1
    } else {
        q
    }
}

/// `b as f64`, as an exact integer.
fn f64_of_u64(b: u64) -> (r: u128)
    ensures
        r == f64_value(b as nat),
        r <= 0x4_0000_0000_0000_0000,
{
    let mut u: u128 = 1;
    let mut t: u64 = b;
    while t >= 0x20_0000_0000_0000
        invariant
            1 <= u <= 0x1_0000_0000_0000_0000,
            t as nat == b as nat / u as nat,
            f64_spacing(b as nat) == u * f64_spacing(t as nat),
            u * 0x20_0000_0000_0000 <= 2 * b || u == 1,
        decreases t,
    {
        proof {
            assert(f64_spacing(t as nat) == 2 * f64_spacing((t / 2) as nat));
            vstd::arithmetic::div_mod::lemma_div_denominator(b as int, u as int, 2);
            assert(u * (2 * f64_spacing((t / 2) as nat)) == (u * 2) * f64_spacing((t / 2) as nat))
                by (nonlinear_arith);
            assert(u * 0x20_0000_0000_0000 <= b) by (nonlinear_arith)
                requires
                    t as nat == b as nat / u as nat,
                    t >= 0x20_0000_0000_0000,
                    u >= 1,
            ;
        }
        t = t / 2;
        u = u * 2;
    }
    proof {
        assert(f64_spacing(t as nat) == 1);
        assert(f64_spacing(b as nat) == u) by (nonlinear_arith)
            requires
                f64_spacing(b as nat) == u * f64_spacing(t as nat),
                f64_spacing(t as nat) == 1,
        ;
        assert(u <= 0x1000) by (nonlinear_arith)
            requires
                u * 0x20_0000_0000_0000 <= 2 * b || u == 1,
                b <= u64::MAX,
        ;
    }
    let q = rounded_quotient(b as u128, u);
    proof {
        assert(q <= 0x20_0000_0000_0000);
        assert(q * u <= 0x20_0000_0000_0000 * 0x1000) by (nonlinear_arith)
            requires
                q <= 0x20_0000_0000_0000,
                u <= 0x1000,
        ;
    }
    q * u
}

/// Appends `value / unit` with two decimals.
fn push_fixed2(out: &mut String, value: u128, unit: u128)
    requires
        unit > 0,
        value <= 0x4_0000_0000_0000_0000,
    ensures
        final(out)@ == old(out)@ + fixed2(value as nat, unit as nat),
{
    let c = rounded_quotient(value * 100, unit);
    push_decimal(out, c / 100);
    out.push('.');
    let d = c % 100;
    let tens = (d / 10) as u8;
    let ones = (d % 10) as u8;
    out.push(digit_char_of(tens));
    out.push(digit_char_of(ones));
    proof {
        reveal_strlit(".");
        assert(final(out)@ =~= old(out)@ + fixed2(value as nat, unit as nat));
    }
}

/// Appends `value / unit` with one decimal.
fn push_fixed1(out: &mut String, value: u128, unit: u128)
    requires
        unit > 0,
        value <= 0x4_0000_0000_0000_0000,
    ensures
        final(out)@ == old(out)@ + fixed1(value as nat, unit as nat),
{
    let c = rounded_quotient(value * 10, unit);
    push_decimal(out, c / 10);
    out.push('.');
    out.push(digit_char_of((c % 10) as u8));
    proof {
        reveal_strlit(".");
        assert(final(out)@ =~= old(out)@ + fixed1(value as nat, unit as nat));
    }
}

/// The file browser's size text, with one decimal.
pub fn format_size_short(bytes: u64) -> (r: String)
    ensures
        r@ == short_size_text(bytes as nat),
{
    let mut out = String::new();
    if bytes < KB {
        push_decimal(&mut out, bytes as u128);
        push_str(&mut out, " B");
    } else if bytes < MB {
        push_fixed1(&mut out, f64_of_u64(bytes), KB as u128);
        push_str(&mut out, " KB");
    } else if bytes < GB {
        push_fixed1(&mut out, f64_of_u64(bytes), MB as u128);
        push_str(&mut out, " MB");
    } else {
        push_fixed1(&mut out, f64_of_u64(bytes), GB as u128);
        push_str(&mut out, " GB");
    }
    out
}

/// Format byte size to human-readable string
pub fn format_size(bytes: u64) -> (r: String)
    ensures
        r@ == size_text(bytes as nat),
{
    let mut out = String::new();
    if bytes >= GB {
        push_fixed2(&mut out, f64_of_u64(bytes), GB as u128);
        push_str(&mut out, " GB");
    } else if bytes >= MB {
        push_fixed2(&mut out, f64_of_u64(bytes), MB as u128);
        push_str(&mut out, " MB");
    } else if bytes >= KB {
        push_fixed2(&mut out, f64_of_u64(bytes), KB as u128);
        push_str(&mut out, " KB");
    } else {
        push_decimal(&mut out, bytes as u128);
        push_str(&mut out, " B");
    }
    out
}


/// Index of the last `c` in `s`, or -1 when there is none.
pub open spec fn last_index_of(s: Seq<char>, c: char) -> int
    decreases s.len(),
{
    if s.len() == 0 {
        -1
    } else if s.last() == c {
        s.len() - 1
    } else {
        last_index_of(s.drop_last(), c)
    }
}

/// What follows the last `'.'` of a name, where it has one.
pub open spec fn after_last_dot(name: Seq<char>) -> Seq<char> {
    name.skip(last_index_of(name, '.') + 1)
}

/// A name whose last `'.'` is found at no index holds no `'.'`.
proof fn lemma_no_dot_when_none(s: Seq<char>)
    requires
        last_index_of(s, '.') == -1,
    ensures
        !s.contains('.'),
    decreases s.len(),
{
    if s.len() > 0 {
        lemma_no_dot_when_none(s.drop_last());
        assert forall|i: int| 0 <= i < s.len() implies s[i] != '.' by {
            if i < s.len() - 1 {
                assert(s.drop_last()[i] == s[i]);
            }
        }
    }
}

/// The extension of a name: what follows its last `'.'`, none when it holds
/// no `'.'`.
pub open spec fn name_extension(name: Seq<char>) -> Option<Seq<char>> {
    if name.contains('.') {
        Some(after_last_dot(name))
    } else {
        None
    }
}

/// The icon for a file extension.
pub open spec fn icon_for_extension(e: Seq<char>) -> Seq<char> {
    if e == "sub"@ {
        "audio-radio-symbolic"@
    } else if e == "ir"@ || e == "irdb"@ {
        "video-display-symbolic"@
    } else if e == "nfc"@ {
        "nfc-symbolic"@
    } else if e == "rfid"@ {
        "auth-sim-symbolic"@
    } else if e == "ibutton"@ {
        "key-symbolic"@
    } else if e == "txt"@ || e == "log"@ {
        "text-x-generic-symbolic"@
    } else if e == "js"@ || e == "fap"@ {
        "application-x-executable-symbolic"@
    } else if e == "bak"@ {
        "document-save-symbolic"@
    } else {
        "text-x-generic-symbolic"@
    }
}

/// File information
#[derive(Debug)]
pub struct FileInfo {
    pub name: String,
    pub path: String,
    pub is_dir: bool,
    pub size: u64,
}

impl Clone for FileInfo {
    fn clone(&self) -> (r: Self)
        ensures
            r.name@ == self.name@,
            r.path@ == self.path@,
            r.is_dir == self.is_dir,
            r.size == self.size,
    {
        FileInfo {
            name: self.name.clone(),
            path: self.path.clone(),
            is_dir: self.is_dir,
            size: self.size,
        }
    }
}

impl FileInfo {
    pub fn new(name: &str, path: &str, is_dir: bool, size: u64) -> (r: Self)
        ensures
            r.name@ == name@,
            r.path@ == path@,
            r.is_dir == is_dir,
            r.size == size,
    {
        let mut n = String::new();
        push_str(&mut n, name);
        let mut p = String::new();
        push_str(&mut p, path);
        Self { name: n, path: p, is_dir, size }
    }

    /// Get human-readable size: `-` for a directory.
    pub fn size_string(&self) -> (r: String)
        ensures
            r@ == if self.is_dir {
                "-"@
            } else {
                size_text(self.size as nat)
            },
    {
        if self.is_dir {
            let mut r = String::new();
            push_str(&mut r, "-");
            return r;
        }
        format_size(self.size)
    }

    /// Get file extension: none for a directory or for a name without a
    /// `'.'`, else what follows the last `'.'` of the name.
    pub fn extension(&self) -> (r: Option<&str>)
        ensures
            self.is_dir ==> r is None,
            !self.is_dir ==> match name_extension(self.name@) {
                Some(x) => r matches Some(e) && e@ == x,
                None => r is None,
            },
    {
        if self.is_dir {
            return None;
        }
        let name = self.name.as_str();
        let c = chars_of(name);
        let mut k: usize = c.len();
        proof {
            assert(c@.take(k as int) =~= c@);
        }
        while k > 0 && c[k - 1] != '.'
            invariant
                k <= c@.len(),
                c@ == name@,
                last_index_of(name@, '.') == last_index_of(c@.take(k as int), '.'),
            decreases k,
        {
            proof {
                assert(c@.take(k as int).drop_last() =~= c@.take(k - 1));
            }
            k = k - 1;
        }
        proof {
            assert(c@.take(c@.len() as int) =~= c@);
            if k > 0 {
                assert(c@.take(k as int).last() == '.');
                assert(name@[k - 1] == '.');
                assert(name@.contains('.'));
            } else {
                assert(c@.take(0) =~= Seq::<char>::empty());
            }
            assert(last_index_of(name@, '.') + 1 == k);
            assert(name@.skip(k as int) =~= name@.subrange(k as int, name@.len() as int));
        }
        if k == 0 {
            proof {
                lemma_no_dot_when_none(name@);
            }
            return None;
        }
        Some(name.substring_char(k, c.len()))
    }

    /// Get icon name for this file type
    pub fn icon_name(&self) -> (r: &'static str)
        ensures
            r@ == if self.is_dir {
                "folder-symbolic"@
            } else {
                match name_extension(self.name@) {
                    Some(x) => icon_for_extension(x),
                    None => "text-x-generic-symbolic"@,
                }
            },
    {
        if self.is_dir {
            return "folder-symbolic";
        }
        let e = match self.extension() {
            Some(e) => e,
            None => {
                return "text-x-generic-symbolic";
            },
        };
        if str_eq(e, "sub") {
            "audio-radio-symbolic"
        } else if str_eq(e, "ir") || str_eq(e, "irdb") {
            "video-display-symbolic"
        } else if str_eq(e, "nfc") {
            "nfc-symbolic"
        } else if str_eq(e, "rfid") {
            "auth-sim-symbolic"
        } else if str_eq(e, "ibutton") {
            "key-symbolic"
        } else if str_eq(e, "txt") || str_eq(e, "log") {
            "text-x-generic-symbolic"
        } else if str_eq(e, "js") || str_eq(e, "fap") {
            "application-x-executable-symbolic"
        } else if str_eq(e, "bak") {
            "document-save-symbolic"
        } else {
            "text-x-generic-symbolic"
        }
    }
}

/// Storage information
#[derive(Debug)]
pub struct StorageInfo {
    pub total_bytes: u64,
    pub free_bytes: u64,
    pub label: String,
}

impl Clone for StorageInfo {
    fn clone(&self) -> (r: Self)
        ensures
            r.total_bytes == self.total_bytes,
            r.free_bytes == self.free_bytes,
            r.label@ == self.label@,
    {
        StorageInfo {
            total_bytes: self.total_bytes,
            free_bytes: self.free_bytes,
            label: self.label.clone(),
        }
    }
}

impl StorageInfo {
    /// The bytes in use: total less free, 0 where free exceeds total.
    pub fn used_bytes(&self) -> (r: u64)
        ensures
            r == if self.total_bytes >= self.free_bytes {
                (self.total_bytes - self.free_bytes) as u64
            } else {
                0
            },
    {
        if self.total_bytes >= self.free_bytes {
            self.total_bytes - self.free_bytes
        } else {
            0
        }
    }
}


/// The parent that `std::path::Path::parent` gives for a path, as text.
pub uninterp spec fn path_parent(p: Seq<char>) -> Option<Seq<char>>;

/// Calls `std::path::Path::parent` (the result converted lossily to text).
/// Its documentation: no parent for a path that ends in a root, or for the
/// empty path; that much is stated, the rest is named.
#[verifier::external_body]
fn parent_of(p: &str) -> (r: Option<String>)
    ensures
        opt_text(r) == path_parent(p@),
        p@ == "/"@ ==> r is None,
        p@.len() == 0 ==> r is None,
{
    match std::path::Path::new(p).parent() {
        Some(q) => Some(q.to_string_lossy().into_owned()),
        None => None,
    }
}

/// `name` inside the directory `dir`: `dir/name`.
pub open spec fn child(dir: Seq<char>, name: Seq<char>) -> Seq<char> {
    dir + "/"@ + name
}

/// A path as given when it starts with `/`, else inside `dir`.
pub open spec fn resolve(dir: Seq<char>, path: Seq<char>) -> Seq<char> {
    if path.len() > 0 && path[0] == '/' {
        path
    } else {
        child(dir, path)
    }
}

/// Where changing directory from `dir` to `path` leads: an absolute path
/// as given, `..` to the parent (or `/` where there is none), anything else
/// to the child of that name.
pub open spec fn cd_target(dir: Seq<char>, path: Seq<char>) -> Seq<char> {
    if path.len() > 0 && path[0] == '/' {
        path
    } else if path == ".."@ {
        match path_parent(dir) {
            Some(p) => p,
            None => "/"@,
        }
    } else {
        child(dir, path)
    }
}

/// After changing to an absolute directory, a relative name resolves to
/// that directory, a slash and the name; an absolute path resolves to itself
/// wherever the file manager stands.
pub proof fn lemma_cd_then_resolve(dir: Seq<char>, target: Seq<char>, name: Seq<char>)
    requires
        target.len() > 0,
        target[0] == '/',
    ensures
        cd_target(dir, target) == target,
        !(name.len() > 0 && name[0] == '/') ==> resolve(cd_target(dir, target), name) == target
            + "/"@ + name,
        name.len() > 0 && name[0] == '/' ==> resolve(dir, name) == name,
{
}

/// The current directory of a file manager on the device's storage, and the
/// paths it forms from it.
pub struct RemoteDir {
    current_path: String,
}

impl View for RemoteDir {
    type V = Seq<char>;

    /// The current directory.
    closed spec fn view(&self) -> Seq<char> {
        self.current_path@
    }
}

fn child_text(dir: &str, name: &str) -> (r: String)
    ensures
        r@ == child(dir@, name@),
{
    let mut r = String::new();
    push_str(&mut r, dir);
    push_str(&mut r, "/");
    push_str(&mut r, name);
    r
}

fn is_absolute(path: &str) -> (r: bool)
    ensures
        r == (path@.len() > 0 && path@[0] == '/'),
{
    path.unicode_len() > 0 && path.get_char(0) == '/'
}

impl RemoteDir {
    /// Starts on the SD card, `/ext`.
    pub fn new() -> (r: Self)
        ensures
            r@ == "/ext"@,
    {
        let mut p = String::new();
        push_str(&mut p, "/ext");
        RemoteDir { current_path: p }
    }

    /// Get current directory
    pub fn current_path(&self) -> (r: &str)
        ensures
            r@ == self@,
    {
        self.current_path.as_str()
    }

    /// Resolve path relative to current directory
    pub fn resolve_path(&self, path: &str) -> (r: String)
        ensures
            r@ == resolve(self@, path@),
    {
        if is_absolute(path) {
            let mut r = String::new();
            push_str(&mut r, path);
            r
        } else {
            child_text(self.current_path.as_str(), path)
        }
    }

    /// `name` inside the current directory.
    pub fn child_path(&self, name: &str) -> (r: String)
        ensures
            r@ == child(self@, name@),
    {
        child_text(self.current_path.as_str(), name)
    }

    /// Where `cd path` leads.
    pub fn cd_target(&self, path: &str) -> (r: String)
        ensures
            r@ == cd_target(self@, path@),
    {
        if is_absolute(path) {
            let mut r = String::new();
            push_str(&mut r, path);
            r
        } else if str_eq(path, "..") {
            match parent_of(self.current_path.as_str()) {
                Some(p) => p,
                None => {
                    let mut r = String::new();
                    push_str(&mut r, "/");
                    r
                },
            }
        } else {
            child_text(self.current_path.as_str(), path)
        }
    }

    /// Makes `path` the current directory.
    pub fn enter(&mut self, path: String)
        ensures
            final(self)@ == path@,
    {
        self.current_path = path;
    }

    /// The entries of a listing of the current directory, each with its
    /// path inside it.
    pub fn entries(&self, listing: &Vec<crate::device::FileInfo>) -> (r: Vec<FileInfo>)
        ensures
            r@.len() == listing@.len(),
            forall|i: int|
                0 <= i < r@.len() ==> {
                    &&& (#[trigger] r@[i]).name@ == listing@[i].name@
                    &&& r@[i].path@ == child(self@, listing@[i].name@)
                    &&& r@[i].is_dir == listing@[i].is_directory
                    &&& r@[i].size == listing@[i].size
                },
    {
        let mut r: Vec<FileInfo> = Vec::new();
        let mut i: usize = 0;
        while i < listing.len()
            invariant
                i <= listing@.len(),
                r@.len() == i,
                forall|k: int|
                    0 <= k < i ==> {
                        &&& (#[trigger] r@[k]).name@ == listing@[k].name@
                        &&& r@[k].path@ == child(self@, listing@[k].name@)
                        &&& r@[k].is_dir == listing@[k].is_directory
                        &&& r@[k].size == listing@[k].size
                    },
            decreases listing@.len() - i,
        {
            let f = &listing[i];
            let path = child_text(self.current_path.as_str(), f.name.as_str());
            r.push(FileInfo::new(f.name.as_str(), path.as_str(), f.is_directory, f.size));
            i = i + 1;
        }
        r
    }
}


/// Entry `a` is listed before entry `b`: its key comes first, or the keys
/// are equal and it came first (a stable sort).
pub open spec fn comes_before(keys: Seq<Seq<char>>, a: int, b: int) -> bool {
    lex_lt(keys[a], keys[b]) || (keys[a] == keys[b] && a < b)
}

/// `p` lists exactly the selected entries, each once, ordered by their keys
/// and, among equal keys, as they came.
pub open spec fn listed_in_order(keys: Seq<Seq<char>>, select: Seq<bool>, p: Seq<usize>) -> bool {
    &&& forall|i: int| 0 <= i < p.len() ==> #[trigger] p[i] < keys.len() && select[p[i] as int]
    &&& forall|k: int| 0 <= k < keys.len() && #[trigger] select[k] ==> p.contains(k as usize)
    &&& forall|i: int, j: int|
        0 <= i < j < p.len() ==> comes_before(keys, #[trigger] p[i] as int, #[trigger] p[j] as int)
}

proof fn lemma_before_then_lt(keys: Seq<Seq<char>>, a: int, b: int, x: Seq<char>)
    requires
        comes_before(keys, a, b),
        lex_lt(x, keys[a]),
    ensures
        lex_lt(x, keys[b]),
{
    if lex_lt(keys[a], keys[b]) {
        lemma_lex_transitive(x, keys[a], keys[b]);
    }
}

/// The indices of the selected entries in listing order.
fn sorted_indices(keys: &Vec<Vec<char>>, select: &Vec<bool>) -> (p: Vec<usize>)
    requires
        select@.len() == keys@.len(),
    ensures
        listed_in_order(keys@.map_values(|k: Vec<char>| k@), select@, p@),
{
    let ghost kv = keys@.map_values(|k: Vec<char>| k@);
    let n = keys.len();
    let mut p: Vec<usize> = Vec::new();
    let mut k: usize = 0;
    while k < n
        invariant
            k <= n == keys@.len() == select@.len(),
            kv == keys@.map_values(|k: Vec<char>| k@),
            forall|i: int| 0 <= i < p@.len() ==> #[trigger] p@[i] < k && select@[p@[i] as int],
            forall|m: int| 0 <= m < k && #[trigger] select@[m] ==> p@.contains(m as usize),
            forall|i: int, j: int|
                0 <= i < j < p@.len() ==> comes_before(kv, #[trigger] p@[i] as int, #[trigger] p@[j] as int),
        decreases n - k,
    {
        if select[k] {
            let mut pos: usize = 0;
            while pos < p.len() && !lex_less(&keys[k], &keys[p[pos]])
                invariant
                    pos <= p@.len(),
                    k < n == keys@.len(),
                    kv == keys@.map_values(|k: Vec<char>| k@),
                    forall|i: int| 0 <= i < p@.len() ==> #[trigger] p@[i] < k,
                    forall|q: int| 0 <= q < pos ==> !lex_lt(kv[k as int], kv[#[trigger] p@[q] as int]),
                decreases p@.len() - pos,
            {
                pos = pos + 1;
            }
            let ghost old_p = p@;
            proof {
                assert forall|q: int| 0 <= q < pos implies comes_before(kv, #[trigger] old_p[q] as int, k as int) by {
                    lemma_lex_trichotomy(kv[k as int], kv[old_p[q] as int]);
                }
                if pos < old_p.len() {
                    assert(lex_lt(kv[k as int], kv[old_p[pos as int] as int]));
                    assert forall|q: int| pos <= q < old_p.len() implies comes_before(kv, k as int, #[trigger] old_p[q] as int) by {
                        if q > pos {
                            lemma_before_then_lt(kv, old_p[pos as int] as int, old_p[q] as int, kv[k as int]);
                        }
                    }
                }
            }
            p.insert(pos, k);
            proof {
                assert(p@ == old_p.insert(pos as int, k));
                assert forall|i: int, j: int|
                    0 <= i < j < p@.len() implies comes_before(kv, #[trigger] p@[i] as int, #[trigger] p@[j] as int) by {
                    if j < pos {
                        assert(p@[i] == old_p[i] && p@[j] == old_p[j]);
                    } else if j == pos {
                        assert(p@[i] == old_p[i]);
                    } else if i < pos {
                        assert(p@[i] == old_p[i] && p@[j] == old_p[j - 1]);
                    } else if i == pos {
                        assert(p@[j] == old_p[j - 1]);
                    } else {
                        assert(p@[i] == old_p[i - 1] && p@[j] == old_p[j - 1]);
                    }
                }
                assert forall|m: int| 0 <= m < k + 1 && #[trigger] select@[m] implies p@.contains(m as usize) by {
                    if m == k {
                        assert(p@[pos as int] == k);
                    } else {
                        let t = choose|t: int| 0 <= t < old_p.len() && old_p[t] == m as usize;
                        if t < pos {
                            assert(p@[t] == old_p[t]);
                        } else {
                            assert(p@[t + 1] == old_p[t]);
                        }
                    }
                }
                assert forall|i: int| 0 <= i < p@.len() implies #[trigger] p@[i] < k + 1 && select@[p@[i] as int] by {
                    if i < pos {
                        assert(p@[i] == old_p[i]);
                    } else if i > pos {
                        assert(p@[i] == old_p[i - 1]);
                    }
                }
            }
        }
        k = k + 1;
    }
    p
}

/// The listing's first line: `📁 <path> (<count> items)`.
pub open spec fn listing_header(path: Seq<char>, count: nat) -> Seq<char> {
    "📁 "@ + path + " ("@ + decimal(count) + " items)"@
}

/// The rule under the header: forty horizontal bars.
pub open spec fn listing_rule() -> Seq<char> {
    Seq::new(40, |i: int| '─')
}

/// A directory's line: `  📁 <name>/`.
pub open spec fn directory_line(name: Seq<char>) -> Seq<char> {
    "  📁 "@ + name + "/"@
}

/// A file's line: `  📄 <name> (<size>)`.
pub open spec fn file_line(name: Seq<char>, size: u64) -> Seq<char> {
    "  📄 "@ + name + " ("@ + size_text(size as nat) + ")"@
}

/// The keys the listing sorts by: the lower-cased names.
pub open spec fn listing_keys(entries: Seq<crate::device::FileInfoView>) -> Seq<Seq<char>> {
    Seq::new(entries.len(), |k: int| lower_text(entries[k].name))
}

/// Which entries are directories (`dirs`) or files.
pub open spec fn kind_select(entries: Seq<crate::device::FileInfoView>, dirs: bool) -> Seq<bool> {
    Seq::new(entries.len(), |k: int| entries[k].is_directory == dirs)
}

/// The listing's lines, for directories in order `p` and files in order `q`.
pub open spec fn listing_text(
    path: Seq<char>,
    entries: Seq<crate::device::FileInfoView>,
    p: Seq<usize>,
    q: Seq<usize>,
) -> Seq<Seq<char>> {
    seq![listing_header(path, entries.len()), listing_rule()] + Seq::new(
        p.len(),
        |i: int| directory_line(entries[p[i] as int].name),
    ) + Seq::new(q.len(), |i: int| file_line(entries[q[i] as int].name, entries[q[i] as int].size))
}

/// In a listing whose directories come in order `p` and files in order `q`
/// (as `listing_lines` lists them), each group holds only its own kind, and
/// the lower-cased names of the entries it lists never decrease in code point
/// order; entries whose lower-cased names are equal keep their order.
pub proof fn lemma_listing_sorted_by_lowercase(
    entries: Seq<crate::device::FileInfoView>,
    p: Seq<usize>,
    q: Seq<usize>,
)
    requires
        listed_in_order(listing_keys(entries), kind_select(entries, true), p),
        listed_in_order(listing_keys(entries), kind_select(entries, false), q),
    ensures
        forall|i: int| 0 <= i < p.len() ==> #[trigger] p[i] < entries.len() && entries[p[i] as int].is_directory,
        forall|i: int| 0 <= i < q.len() ==> #[trigger] q[i] < entries.len() && !entries[q[i] as int].is_directory,
        forall|i: int, j: int|
            0 <= i < j < p.len() ==> !lex_lt(
                lower_text(entries[#[trigger] p[j] as int].name),
                lower_text(entries[#[trigger] p[i] as int].name),
            ) && (lower_text(entries[p[i] as int].name) == lower_text(entries[p[j] as int].name)
                ==> p[i] < p[j]),
        forall|i: int, j: int|
            0 <= i < j < q.len() ==> !lex_lt(
                lower_text(entries[#[trigger] q[j] as int].name),
                lower_text(entries[#[trigger] q[i] as int].name),
            ) && (lower_text(entries[q[i] as int].name) == lower_text(entries[q[j] as int].name)
                ==> q[i] < q[j]),
{
    let keys = listing_keys(entries);
    assert forall|i: int, j: int| 0 <= i < j < p.len() implies !lex_lt(
        lower_text(entries[#[trigger] p[j] as int].name),
        lower_text(entries[#[trigger] p[i] as int].name),
    ) && (lower_text(entries[p[i] as int].name) == lower_text(entries[p[j] as int].name) ==> p[i]
        < p[j]) by {
        assert(comes_before(keys, p[i] as int, p[j] as int));
        lemma_lex_trichotomy(keys[p[i] as int], keys[p[j] as int]);
    }
    assert forall|i: int, j: int| 0 <= i < j < q.len() implies !lex_lt(
        lower_text(entries[#[trigger] q[j] as int].name),
        lower_text(entries[#[trigger] q[i] as int].name),
    ) && (lower_text(entries[q[i] as int].name) == lower_text(entries[q[j] as int].name) ==> q[i]
        < q[j]) by {
        assert(comes_before(keys, q[i] as int, q[j] as int));
        lemma_lex_trichotomy(keys[q[i] as int], keys[q[j] as int]);
    }
}

/// The contents of listing entries.
pub open spec fn entry_views(entries: Seq<crate::device::FileInfo>) -> Seq<
    crate::device::FileInfoView,
> {
    entries.map_values(|f: crate::device::FileInfo| f@)
}

/// The texts of strings.
pub open spec fn texts(v: Seq<String>) -> Seq<Seq<char>> {
    v.map_values(|s: String| s@)
}

/// The lines a directory listing prints: a header with the path and the
/// number of entries, a rule, then the directories and then the files, each
/// group sorted by lower-cased name (stably), files with their sizes.
pub fn listing_lines(path: &str, entries: &Vec<crate::device::FileInfo>) -> (r: Vec<String>)
    ensures
        exists|p: Seq<usize>, q: Seq<usize>|
            listed_in_order(
                listing_keys(entry_views(entries@)),
                kind_select(entry_views(entries@), true),
                p,
            ) && listed_in_order(
                listing_keys(entry_views(entries@)),
                kind_select(entry_views(entries@), false),
                q,
            ) && texts(r@) == #[trigger] listing_text(
                path@,
                entry_views(entries@),
                p,
                q,
            ),
{
    let ghost ev = entry_views(entries@);
    let n = entries.len();
    let mut keys: Vec<Vec<char>> = Vec::new();
    let mut dir_sel: Vec<bool> = Vec::new();
    let mut file_sel: Vec<bool> = Vec::new();
    let mut k: usize = 0;
    while k < n
        invariant
            k <= n == entries@.len() == ev.len(),
            ev == entry_views(entries@),
            keys@.len() == k,
            dir_sel@.len() == k,
            file_sel@.len() == k,
            forall|m: int| 0 <= m < k ==> (#[trigger] keys@[m])@ == lower_text(ev[m].name),
            forall|m: int| 0 <= m < k ==> #[trigger] dir_sel@[m] == ev[m].is_directory,
            forall|m: int| 0 <= m < k ==> #[trigger] file_sel@[m] == !ev[m].is_directory,
        decreases n - k,
    {
        let low = to_lowercase(entries[k].name.as_str());
        keys.push(chars_of(low.as_str()));
        dir_sel.push(entries[k].is_directory);
        file_sel.push(!entries[k].is_directory);
        k = k + 1;
    }
    proof {
        assert(keys@.map_values(|k: Vec<char>| k@) =~= listing_keys(ev));
        assert(dir_sel@ =~= kind_select(ev, true));
        assert(file_sel@ =~= kind_select(ev, false));
    }
    let dirs = sorted_indices(&keys, &dir_sel);
    let files = sorted_indices(&keys, &file_sel);
    let mut r: Vec<String> = Vec::new();
    let mut header = String::new();
    push_str(&mut header, "📁 ");
    push_str(&mut header, path);
    push_str(&mut header, " (");
    push_decimal(&mut header, n as u128);
    push_str(&mut header, " items)");
    r.push(header);
    let mut rule = String::new();
    let mut i: usize = 0;
    while i < 40
        invariant
            i <= 40,
            rule@ == Seq::new(i as nat, |j: int| '─'),
        decreases 40 - i,
    {
        rule.push('─');
        i = i + 1;
        proof {
            assert(rule@ =~= Seq::new(i as nat, |j: int| '─'));
        }
    }
    r.push(rule);
    let ghost front = seq![listing_header(path@, n as nat), listing_rule()];
    proof {
        assert(texts(r@) =~= front);
    }
    let mut i: usize = 0;
    while i < dirs.len()
        invariant
            i <= dirs@.len(),
            n == entries@.len() == ev.len(),
            ev == entry_views(entries@),
            forall|m: int| 0 <= m < dirs@.len() ==> #[trigger] dirs@[m] < n,
            texts(r@) == front + Seq::new(
                i as nat,
                |j: int| directory_line(ev[dirs@[j] as int].name),
            ),
        decreases dirs@.len() - i,
    {
        let e = &entries[dirs[i]];
        let mut line = String::new();
        push_str(&mut line, "  📁 ");
        push_str(&mut line, e.name.as_str());
        push_str(&mut line, "/");
        let ghost before = r@;
        proof {
            assert(ev[dirs@[i as int] as int] == entries@[dirs@[i as int] as int]@);
            assert(line@ == directory_line(ev[dirs@[i as int] as int].name));
        }
        r.push(line);
        i = i + 1;
        proof {
            assert(texts(r@) =~= texts(before).push(r@[r@.len() - 1]@));
            assert(texts(r@) =~= front + Seq::new(
                i as nat,
                |j: int| directory_line(ev[dirs@[j] as int].name),
            ));
        }
    }
    let ghost middle = front + Seq::new(
        dirs@.len(),
        |j: int| directory_line(ev[dirs@[j] as int].name),
    );
    let mut i: usize = 0;
    while i < files.len()
        invariant
            i <= files@.len(),
            n == entries@.len() == ev.len(),
            ev == entry_views(entries@),
            forall|m: int| 0 <= m < files@.len() ==> #[trigger] files@[m] < n,
            texts(r@) == middle + Seq::new(
                i as nat,
                |j: int| file_line(ev[files@[j] as int].name, ev[files@[j] as int].size),
            ),
        decreases files@.len() - i,
    {
        let e = &entries[files[i]];
        let mut line = String::new();
        push_str(&mut line, "  📄 ");
        push_str(&mut line, e.name.as_str());
        push_str(&mut line, " (");
        let size = format_size(e.size);
        push_str(&mut line, size.as_str());
        push_str(&mut line, ")");
        let ghost before = r@;
        proof {
            assert(ev[files@[i as int] as int] == entries@[files@[i as int] as int]@);
            assert(line@ == file_line(
                ev[files@[i as int] as int].name,
                ev[files@[i as int] as int].size,
            ));
        }
        r.push(line);
        i = i + 1;
        proof {
            assert(texts(r@) =~= texts(before).push(r@[r@.len() - 1]@));
            assert(texts(r@) =~= middle + Seq::new(
                i as nat,
                |j: int| file_line(ev[files@[j] as int].name, ev[files@[j] as int].size),
            ));
        }
    }
    proof {
        assert(texts(r@) =~= listing_text(path@, ev, dirs@, files@));
    }
    r
}

} // verus!
