//! The tool's settings, their defaults, and where they are kept.
use vstd::prelude::*;

use vstd::string::StrSliceExecFns;
use vstd::utf8::encode_utf8;

use crate::text::{opt_text, push_str};

verus! {

/// `part` appended to the path `base` as `PathBuf::push` does on Unix: an
/// absolute `part` takes the place of `base`; else a `/` goes between them
/// unless `base` is empty or already ends in one.
pub open spec fn path_join(base: Seq<char>, part: Seq<char>) -> Seq<char> {
    if part.len() > 0 && part[0] == '/' {
        part
    } else if base.len() == 0 || base.last() == '/' {
        base + part
    } else {
        base + seq!['/'] + part
    }
}

/// A directory the platform reports, or the current directory `.` when it
/// reports none.
pub open spec fn dir_or_current(dir: Option<Seq<char>>) -> Seq<char> {
    match dir {
        Some(d) => d,
        None => "."@,
    }
}

/// Appends the path `part` to `base`.
pub fn join_path(base: &str, part: &str) -> (r: String)
    ensures
        r@ == path_join(base@, part@),
{
    let mut r = String::new();
    if part.unicode_len() > 0 && part.get_char(0) == '/' {
        push_str(&mut r, part);
        return r;
    }
    push_str(&mut r, base);
    let n = r.as_str().unicode_len();
    if n > 0 && r.as_str().get_char(n - 1) != '/' {
        r.push('/');
    }
    push_str(&mut r, part);
    r
}

/// `part` under a reported directory, or under `.` when none was reported.
pub fn join_under(dir: Option<String>, part: &str) -> (r: String)
    ensures
        r@ == path_join(dir_or_current(opt_text(dir)), part@),
{
    match dir {
        Some(d) => join_path(d.as_str(), part),
        None => join_path(".", part),
    }
}

/// A reported directory, or `.` when none was reported.
pub fn dir_or_dot(dir: Option<String>) -> (r: String)
    ensures
        r@ == dir_or_current(opt_text(dir)),
{
    match dir {
        Some(d) => d,
        None => {
            let mut r = String::new();
            push_str(&mut r, ".");
            r
        },
    }
}

/// The byte of the path separator `/`.
pub const SEPARATOR: u8 = 47;

/// `part` appended to the path `base`, both as bytes, as `PathBuf::push`
/// does on Unix: an absolute `part` takes the place of `base`; else a `/`
/// goes between them unless `base` is empty or already ends in one.
pub open spec fn path_join_bytes(base: Seq<u8>, part: Seq<u8>) -> Seq<u8> {
    if part.len() > 0 && part[0] == SEPARATOR {
        part
    } else if base.len() == 0 || base.last() == SEPARATOR {
        base + part
    } else {
        base + seq![SEPARATOR] + part
    }
}

/// The bytes of a reported directory, where one was reported.
pub open spec fn opt_bytes(dir: Option<Vec<u8>>) -> Option<Seq<u8>> {
    match dir {
        Some(d) => Some(d@),
        None => None,
    }
}

/// A directory the platform reports, as bytes, or the current directory `.`
/// when it reports none.
pub open spec fn bytes_or_current(dir: Option<Seq<u8>>) -> Seq<u8> {
    match dir {
        Some(d) => d,
        None => encode_utf8("."@),
    }
}

/// The path `pineflip/config.toml` under a directory (or under `.`).
pub open spec fn config_file_path(dir: Option<Seq<u8>>) -> Seq<u8> {
    path_join_bytes(
        path_join_bytes(bytes_or_current(dir), encode_utf8("pineflip"@)),
        encode_utf8("config.toml"@),
    )
}

/// The path `pineflip` under a directory (or under `.`).
pub open spec fn app_dir_path(dir: Option<Seq<u8>>) -> Seq<u8> {
    path_join_bytes(bytes_or_current(dir), encode_utf8("pineflip"@))
}

/// Appends the path `part` to the path `base`, as bytes.
pub fn join_path_bytes(base: Vec<u8>, part: &str) -> (r: Vec<u8>)
    ensures
        r@ == path_join_bytes(base@, encode_utf8(part@)),
{
    let pb = part.as_bytes();
    let mut r: Vec<u8>;
    if pb.len() > 0 && pb[0] == SEPARATOR {
        r = Vec::new();
    } else {
        r = base;
        let n = r.len();
        if n > 0 && r[n - 1] != SEPARATOR {
            r.push(SEPARATOR);
        }
    }
    let ghost start = r@;
    let mut i: usize = 0;
    while i < pb.len()
        invariant
            i <= pb@.len(),
            r@ == start + pb@.take(i as int),
        decreases pb@.len() - i,
    {
        r.push(pb[i]);
        i = i + 1;
        proof {
            assert(r@ =~= start + pb@.take(i as int));
        }
    }
    proof {
        assert(pb@.take(pb@.len() as int) =~= pb@);
        assert(start + pb@ =~= if pb@.len() > 0 && pb@[0] == SEPARATOR {
            pb@
        } else if base@.len() == 0 || base@.last() == SEPARATOR {
            base@ + pb@
        } else {
            base@ + seq![SEPARATOR] + pb@
        });
    }
    r
}

/// The bytes of `.`, the current directory.
fn current_dir_bytes() -> (r: Vec<u8>)
    ensures
        r@ == encode_utf8("."@),
{
    let mut r: Vec<u8> = Vec::new();
    r.push(46u8);
    proof {
        reveal_strlit(".");
        vstd::utf8::is_ascii_chars_encode_utf8("."@);
        assert(r@ =~= encode_utf8("."@));
    }
    r
}

/// `part` under a reported directory, or under `.` when none was reported,
/// as bytes.
pub fn join_bytes_under(dir: Option<Vec<u8>>, part: &str) -> (r: Vec<u8>)
    ensures
        r@ == path_join_bytes(bytes_or_current(opt_bytes(dir)), encode_utf8(part@)),
{
    match dir {
        Some(d) => join_path_bytes(d, part),
        None => join_path_bytes(current_dir_bytes(), part),
    }
}

/// The configuration file's path under the configuration directory the
/// platform reports (or under `.`): `pineflip/config.toml` joined to it.
pub fn config_file_under(dir: Option<Vec<u8>>) -> (r: Vec<u8>)
    ensures
        r@ == config_file_path(opt_bytes(dir)),
{
    let base = join_bytes_under(dir, "pineflip");
    join_path_bytes(base, "config.toml")
}

/// Calls `dirs::config_dir`, and hands the path on as the bytes the platform
/// encodes it in (`OsString::into_encoded_bytes`), so that nothing is lost.
/// What it returns depends on the platform and the environment, so nothing
/// is stated of it.
#[verifier::external_body]
fn platform_config_dir() -> Option<Vec<u8>> {
    match dirs::config_dir() {
        Some(p) => Some(p.into_os_string().into_encoded_bytes()),
        None => None,
    }
}

/// Calls `dirs::data_dir`; as `platform_config_dir`, nothing is stated.
#[verifier::external_body]
fn platform_data_dir() -> Option<Vec<u8>> {
    match dirs::data_dir() {
        Some(p) => Some(p.into_os_string().into_encoded_bytes()),
        None => None,
    }
}

/// Calls `dirs::cache_dir`; as `platform_config_dir`, nothing is stated.
#[verifier::external_body]
fn platform_cache_dir() -> Option<Vec<u8>> {
    match dirs::cache_dir() {
        Some(p) => Some(p.into_os_string().into_encoded_bytes()),
        None => None,
    }
}

/// Calls `dirs::picture_dir`; as `platform_config_dir`, nothing is stated.
/// The screenshot directory is kept as text, so a path that is not UTF-8 is
/// converted lossily.
#[verifier::external_body]
fn platform_picture_dir() -> Option<String> {
    match dirs::picture_dir() {
        Some(p) => Some(p.to_string_lossy().into_owned()),
        None => None,
    }
}

/// Calls `dirs::download_dir`; as `platform_picture_dir`, nothing is stated
/// and the path is converted to text lossily.
#[verifier::external_body]
fn platform_download_dir() -> Option<String> {
    match dirs::download_dir() {
        Some(p) => Some(p.to_string_lossy().into_owned()),
        None => None,
    }
}

/// Screenshot format
#[derive(Debug, Clone, Copy, PartialEq, Eq, Structural)]
pub enum ScreenshotFormat {
    Png,
    Gif,
    Bmp,
}

impl Default for ScreenshotFormat {
    fn default() -> (r: Self)
        ensures
            r == ScreenshotFormat::Png,
    {
        ScreenshotFormat::Png
    }
}

impl ScreenshotFormat {
    pub fn extension(&self) -> (r: &'static str)
        ensures
            r@ == match *self {
                ScreenshotFormat::Png => "png"@,
                ScreenshotFormat::Gif => "gif"@,
                ScreenshotFormat::Bmp => "bmp"@,
            },
    {
        match self {
            ScreenshotFormat::Png => "png",
            ScreenshotFormat::Gif => "gif",
            ScreenshotFormat::Bmp => "bmp",
        }
    }
}

/// File sort order
#[derive(Debug, Clone, Copy, PartialEq, Eq, Structural)]
pub enum SortBy {
    Name,
    Size,
    Type,
    Modified,
}

impl Default for SortBy {
    fn default() -> (r: Self)
        ensures
            r == SortBy::Name,
    {
        SortBy::Name
    }
}

pub fn default_true() -> (r: bool)
    ensures
        r,
{
    true
}

pub fn default_timeout() -> (r: u32)
    ensures
        r == 5,
{
    5
}

pub fn default_reconnect_delay() -> (r: u32)
    ensures
        r == 2,
{
    2
}

pub fn default_frame_rate() -> (r: u32)
    ensures
        r == 10,
{
    10
}

pub fn default_scale() -> (r: u32)
    ensures
        r == 4,
{
    4
}

pub fn default_window_width() -> (r: i32)
    ensures
        r == 1000,
{
    1000
}

pub fn default_window_height() -> (r: i32)
    ensures
        r == 700,
{
    700
}

/// `PineFlip` under the platform's pictures directory (or under `.`).
pub fn default_screenshot_dir() -> (r: String)
    ensures
        exists|d: Option<Seq<char>>| r@ == #[trigger] path_join(dir_or_current(d), "PineFlip"@),
{
    let d = platform_picture_dir();
    let ghost t = opt_text(d);
    let r = join_under(d, "PineFlip");
    proof {
        assert(r@ == path_join(dir_or_current(t), "PineFlip"@));
    }
    r
}

/// The platform's downloads directory (or `.` when it reports none). Which
/// directory that is depends on the platform and the environment.
pub fn default_download_dir() -> (r: String) {
    let d = platform_download_dir();
    dir_or_dot(d)
}

/// Connection configuration
#[derive(Debug)]
pub struct ConnectionConfig {
    /// Auto-connect on startup
    pub auto_connect: bool,
    /// Preferred port (empty = auto-detect)
    pub preferred_port: String,
    /// Connection timeout in seconds
    pub timeout_secs: u32,
    /// Auto-reconnect on disconnect
    pub auto_reconnect: bool,
    /// Reconnect delay in seconds
    pub reconnect_delay_secs: u32,
}

impl Clone for ConnectionConfig {
    fn clone(&self) -> (r: Self)
        ensures
            r.auto_connect == self.auto_connect,
            r.preferred_port@ == self.preferred_port@,
            r.timeout_secs == self.timeout_secs,
            r.auto_reconnect == self.auto_reconnect,
            r.reconnect_delay_secs == self.reconnect_delay_secs,
    {
        Self {
            auto_connect: self.auto_connect,
            preferred_port: self.preferred_port.clone(),
            timeout_secs: self.timeout_secs,
            auto_reconnect: self.auto_reconnect,
            reconnect_delay_secs: self.reconnect_delay_secs,
        }
    }
}

impl Default for ConnectionConfig {
    fn default() -> (r: Self)
        ensures
            r.auto_connect,
            r.preferred_port@.len() == 0,
            r.timeout_secs == 5,
            r.auto_reconnect,
            r.reconnect_delay_secs == 2,
    {
        Self {
            auto_connect: true,
            preferred_port: String::new(),
            timeout_secs: 5,
            auto_reconnect: true,
            reconnect_delay_secs: 2,
        }
    }
}

/// Screen capture configuration
#[derive(Debug)]
pub struct ScreenConfig {
    /// Frame rate for screen mirroring
    pub frame_rate: u32,
    /// Display scale factor
    pub scale: u32,
    /// Invert colors
    pub invert_colors: bool,
    /// Show grid overlay
    pub show_grid: bool,
    /// Auto-save screenshots
    pub auto_save: bool,
    /// Screenshot save directory
    pub save_directory: String,
    /// Screenshot format
    pub save_format: ScreenshotFormat,
}

impl Clone for ScreenConfig {
    fn clone(&self) -> (r: Self)
        ensures
            r.frame_rate == self.frame_rate,
            r.scale == self.scale,
            r.invert_colors == self.invert_colors,
            r.show_grid == self.show_grid,
            r.auto_save == self.auto_save,
            r.save_directory@ == self.save_directory@,
            r.save_format == self.save_format,
    {
        Self {
            frame_rate: self.frame_rate,
            scale: self.scale,
            invert_colors: self.invert_colors,
            show_grid: self.show_grid,
            auto_save: self.auto_save,
            save_directory: self.save_directory.clone(),
            save_format: self.save_format,
        }
    }
}

impl Default for ScreenConfig {
    fn default() -> (r: Self)
        ensures
            r.frame_rate == 10,
            r.scale == 4,
            !r.invert_colors,
            !r.show_grid,
            !r.auto_save,
            exists|d: Option<Seq<char>>|
                r.save_directory@ == #[trigger] path_join(dir_or_current(d), "PineFlip"@),
            r.save_format == ScreenshotFormat::Png,
    {
        Self {
            frame_rate: 10,
            scale: 4,
            invert_colors: false,
            show_grid: false,
            auto_save: false,
            save_directory: default_screenshot_dir(),
            save_format: ScreenshotFormat::Png,
        }
    }
}

/// File manager configuration
#[derive(Debug)]
pub struct FilesConfig {
    /// Show hidden files
    pub show_hidden: bool,
    /// Sort by (name, size, date)
    pub sort_by: SortBy,
    /// Sort ascending
    pub sort_ascending: bool,
    /// Confirm before delete
    pub confirm_delete: bool,
    /// Default download directory
    pub download_directory: String,
}

impl Clone for FilesConfig {
    fn clone(&self) -> (r: Self)
        ensures
            r.show_hidden == self.show_hidden,
            r.sort_by == self.sort_by,
            r.sort_ascending == self.sort_ascending,
            r.confirm_delete == self.confirm_delete,
            r.download_directory@ == self.download_directory@,
    {
        Self {
            show_hidden: self.show_hidden,
            sort_by: self.sort_by,
            sort_ascending: self.sort_ascending,
            confirm_delete: self.confirm_delete,
            download_directory: self.download_directory.clone(),
        }
    }
}

impl Default for FilesConfig {
    fn default() -> (r: Self)
        ensures
            !r.show_hidden,
            r.sort_by == SortBy::Name,
            r.sort_ascending,
            r.confirm_delete,
    {
        Self {
            show_hidden: false,
            sort_by: SortBy::Name,
            sort_ascending: true,
            confirm_delete: true,
            download_directory: default_download_dir(),
        }
    }
}

/// Appearance configuration
#[derive(Debug, Clone, Copy)]
pub struct AppearanceConfig {
    /// Use system color scheme
    pub follow_system_theme: bool,
    /// Dark mode (when not following system)
    pub dark_mode: bool,
    /// Compact mode
    pub compact_mode: bool,
    /// Show status bar
    pub show_status_bar: bool,
    /// Window width
    pub window_width: i32,
    /// Window height
    pub window_height: i32,
    /// Remember window size
    pub remember_window_size: bool,
}

impl Default for AppearanceConfig {
    fn default() -> (r: Self)
        ensures
            r.follow_system_theme,
            !r.dark_mode,
            !r.compact_mode,
            r.show_status_bar,
            r.window_width == 1000,
            r.window_height == 700,
            r.remember_window_size,
    {
        Self {
            follow_system_theme: true,
            dark_mode: false,
            compact_mode: false,
            show_status_bar: true,
            window_width: 1000,
            window_height: 700,
            remember_window_size: true,
        }
    }
}

/// Keyboard shortcuts configuration
#[derive(Debug)]
pub struct ShortcutsConfig {
    pub connect: String,
    pub disconnect: String,
    pub screenshot: String,
    pub record: String,
    pub refresh: String,
    pub upload: String,
    pub download: String,
    pub delete: String,
}

fn text(s: &str) -> (r: String)
    ensures
        r@ == s@,
{
    let mut r = String::new();
    push_str(&mut r, s);
    r
}

impl Clone for ShortcutsConfig {
    fn clone(&self) -> (r: Self)
        ensures
            r.connect@ == self.connect@,
            r.disconnect@ == self.disconnect@,
            r.screenshot@ == self.screenshot@,
            r.record@ == self.record@,
            r.refresh@ == self.refresh@,
            r.upload@ == self.upload@,
            r.download@ == self.download@,
            r.delete@ == self.delete@,
    {
        Self {
            connect: self.connect.clone(),
            disconnect: self.disconnect.clone(),
            screenshot: self.screenshot.clone(),
            record: self.record.clone(),
            refresh: self.refresh.clone(),
            upload: self.upload.clone(),
            download: self.download.clone(),
            delete: self.delete.clone(),
        }
    }
}

impl Default for ShortcutsConfig {
    fn default() -> (r: Self)
        ensures
            r.connect@ == "<Ctrl>k"@,
            r.disconnect@ == "<Ctrl><Shift>k"@,
            r.screenshot@ == "<Ctrl>s"@,
            r.record@ == "<Ctrl>r"@,
            r.refresh@ == "F5"@,
            r.upload@ == "<Ctrl>u"@,
            r.download@ == "<Ctrl>d"@,
            r.delete@ == "Delete"@,
    {
        Self {
            connect: text("<Ctrl>k"),
            disconnect: text("<Ctrl><Shift>k"),
            screenshot: text("<Ctrl>s"),
            record: text("<Ctrl>r"),
            refresh: text("F5"),
            upload: text("<Ctrl>u"),
            download: text("<Ctrl>d"),
            delete: text("Delete"),
        }
    }
}

/// Application configuration
#[derive(Debug)]
pub struct Config {
    /// Connection settings
    pub connection: ConnectionConfig,
    /// Screen capture settings
    pub screen: ScreenConfig,
    /// File manager settings
    pub files: FilesConfig,
    /// Appearance settings
    pub appearance: AppearanceConfig,
    /// Keyboard shortcuts
    pub shortcuts: ShortcutsConfig,
}

impl Clone for Config {
    fn clone(&self) -> (r: Self)
        ensures
            r.connection.auto_connect == self.connection.auto_connect,
            r.connection.preferred_port@ == self.connection.preferred_port@,
            r.connection.timeout_secs == self.connection.timeout_secs,
            r.connection.auto_reconnect == self.connection.auto_reconnect,
            r.connection.reconnect_delay_secs == self.connection.reconnect_delay_secs,
            r.screen.frame_rate == self.screen.frame_rate,
            r.screen.scale == self.screen.scale,
            r.screen.invert_colors == self.screen.invert_colors,
            r.screen.show_grid == self.screen.show_grid,
            r.screen.auto_save == self.screen.auto_save,
            r.screen.save_directory@ == self.screen.save_directory@,
            r.screen.save_format == self.screen.save_format,
            r.files.show_hidden == self.files.show_hidden,
            r.files.sort_by == self.files.sort_by,
            r.files.sort_ascending == self.files.sort_ascending,
            r.files.confirm_delete == self.files.confirm_delete,
            r.files.download_directory@ == self.files.download_directory@,
            r.appearance == self.appearance,
            r.shortcuts.connect@ == self.shortcuts.connect@,
            r.shortcuts.disconnect@ == self.shortcuts.disconnect@,
            r.shortcuts.screenshot@ == self.shortcuts.screenshot@,
            r.shortcuts.record@ == self.shortcuts.record@,
            r.shortcuts.refresh@ == self.shortcuts.refresh@,
            r.shortcuts.upload@ == self.shortcuts.upload@,
            r.shortcuts.download@ == self.shortcuts.download@,
            r.shortcuts.delete@ == self.shortcuts.delete@,
    {
        Self {
            connection: self.connection.clone(),
            screen: self.screen.clone(),
            files: self.files.clone(),
            appearance: self.appearance,
            shortcuts: self.shortcuts.clone(),
        }
    }
}

impl Default for Config {
    fn default() -> (r: Self)
        ensures
            r.connection.auto_connect,
            r.connection.preferred_port@.len() == 0,
            r.connection.timeout_secs == 5,
            r.connection.auto_reconnect,
            r.connection.reconnect_delay_secs == 2,
            r.screen.frame_rate == 10,
            r.screen.scale == 4,
            !r.screen.invert_colors,
            !r.screen.show_grid,
            !r.screen.auto_save,
            exists|d: Option<Seq<char>>|
                r.screen.save_directory@ == #[trigger] path_join(dir_or_current(d), "PineFlip"@),
            r.screen.save_format == ScreenshotFormat::Png,
            !r.files.show_hidden,
            r.files.sort_by == SortBy::Name,
            r.files.sort_ascending,
            r.files.confirm_delete,
            r.appearance.follow_system_theme,
            !r.appearance.dark_mode,
            !r.appearance.compact_mode,
            r.appearance.show_status_bar,
            r.appearance.window_width == 1000,
            r.appearance.window_height == 700,
            r.appearance.remember_window_size,
            r.shortcuts.connect@ == "<Ctrl>k"@,
            r.shortcuts.disconnect@ == "<Ctrl><Shift>k"@,
            r.shortcuts.screenshot@ == "<Ctrl>s"@,
            r.shortcuts.record@ == "<Ctrl>r"@,
            r.shortcuts.refresh@ == "F5"@,
            r.shortcuts.upload@ == "<Ctrl>u"@,
            r.shortcuts.download@ == "<Ctrl>d"@,
            r.shortcuts.delete@ == "Delete"@,
    {
        Self {
            connection: ConnectionConfig::default(),
            screen: ScreenConfig::default(),
            files: FilesConfig::default(),
            appearance: AppearanceConfig::default(),
            shortcuts: ShortcutsConfig::default(),
        }
    }
}

impl Config {
    /// Configuration file path: `pineflip/config.toml` under the platform's
    /// configuration directory (or under `.`), as the bytes of the path.
    pub fn config_path() -> (r: Vec<u8>)
        ensures
            exists|d: Option<Seq<u8>>| r@ == #[trigger] config_file_path(d),
    {
        let d = platform_config_dir();
        let ghost t = opt_bytes(d);
        let r = config_file_under(d);
        proof {
            assert(r@ == config_file_path(t));
        }
        r
    }

    /// Data directory path: `pineflip` under the platform's data directory
    /// (or under `.`), as the bytes of the path.
    pub fn data_dir() -> (r: Vec<u8>)
        ensures
            exists|d: Option<Seq<u8>>| r@ == #[trigger] app_dir_path(d),
    {
        let d = platform_data_dir();
        let ghost t = opt_bytes(d);
        let r = join_bytes_under(d, "pineflip");
        proof {
            assert(r@ == app_dir_path(t));
        }
        r
    }

    /// Cache directory path: `pineflip` under the platform's cache directory
    /// (or under `.`), as the bytes of the path.
    pub fn cache_dir() -> (r: Vec<u8>)
        ensures
            exists|d: Option<Seq<u8>>| r@ == #[trigger] app_dir_path(d),
    {
        let d = platform_cache_dir();
        let ghost t = opt_bytes(d);
        let r = join_bytes_under(d, "pineflip");
        proof {
            assert(r@ == app_dir_path(t));
        }
        r
    }
}

} // verus!
