//! Firmware channels, version strings and the updater's settings.
use vstd::prelude::*;
use vstd::string::StrSliceExecFns;

use crate::text::{char_index, chars_of, contains, contains_text, find_char, push_str, string_of_span};

verus! {

/// Firmware update channel
#[derive(Debug, Clone, Copy, PartialEq, Eq, Structural)]
pub enum FirmwareChannel {
    Release,
    ReleaseCandidate,
    Dev,
    Custom,
}

impl Default for FirmwareChannel {
    fn default() -> (r: Self)
        ensures
            r == FirmwareChannel::Release,
    {
        FirmwareChannel::Release
    }
}

impl FirmwareChannel {
    pub fn as_str(&self) -> (r: &'static str)
        ensures
            r@ == match *self {
                FirmwareChannel::Release => "release"@,
                FirmwareChannel::ReleaseCandidate => "rc"@,
                FirmwareChannel::Dev => "dev"@,
                FirmwareChannel::Custom => "custom"@,
            },
    {
        match self {
            FirmwareChannel::Release => "release",
            FirmwareChannel::ReleaseCandidate => "rc",
            FirmwareChannel::Dev => "dev",
            FirmwareChannel::Custom => "custom",
        }
    }

    pub fn display_name(&self) -> (r: &'static str)
        ensures
            r@ == match *self {
                FirmwareChannel::Release => "Release (Stable)"@,
                FirmwareChannel::ReleaseCandidate => "Release Candidate"@,
                FirmwareChannel::Dev => "Development"@,
                FirmwareChannel::Custom => "Custom Firmware"@,
            },
    {
        match self {
            FirmwareChannel::Release => "Release (Stable)",
            FirmwareChannel::ReleaseCandidate => "Release Candidate",
            FirmwareChannel::Dev => "Development",
            FirmwareChannel::Custom => "Custom Firmware",
        }
    }

    pub fn description(&self) -> (r: &'static str)
        ensures
            r@ == match *self {
                FirmwareChannel::Release => "Recommended for most users. Stable and well-tested."@,
                FirmwareChannel::ReleaseCandidate =>
                    "Preview of upcoming release. May have minor bugs."@,
                FirmwareChannel::Dev => "Latest features but may be unstable."@,
                FirmwareChannel::Custom => "Third-party firmware distributions."@,
            },
    {
        match self {
            FirmwareChannel::Release => "Recommended for most users. Stable and well-tested.",
            FirmwareChannel::ReleaseCandidate => "Preview of upcoming release. May have minor bugs.",
            FirmwareChannel::Dev => "Latest features but may be unstable.",
            FirmwareChannel::Custom => "Third-party firmware distributions.",
        }
    }

    /// Where the channel's updates are published; custom firmware has none.
    pub fn update_url(&self) -> (r: &'static str)
        ensures
            r@ == match *self {
                FirmwareChannel::Release => "https://update.flipperzero.one/firmware/release"@,
                FirmwareChannel::ReleaseCandidate => "https://update.flipperzero.one/firmware/rc"@,
                FirmwareChannel::Dev => "https://update.flipperzero.one/firmware/dev"@,
                FirmwareChannel::Custom => ""@,
            },
    {
        match self {
            FirmwareChannel::Release => "https://update.flipperzero.one/firmware/release",
            FirmwareChannel::ReleaseCandidate => "https://update.flipperzero.one/firmware/rc",
            FirmwareChannel::Dev => "https://update.flipperzero.one/firmware/dev",
            FirmwareChannel::Custom => "",
        }
    }
}

/// Firmware version information
#[derive(Debug)]
pub struct FirmwareVersion {
    pub version: String,
    pub channel: FirmwareChannel,
    pub commit: String,
    pub build_date: String,
    pub target: String,
}

/// The channel a version string names: `-rc` in it makes a release
/// candidate, else `-dev` a development build, else a release.
pub open spec fn channel_of(s: Seq<char>) -> FirmwareChannel {
    if contains(s, "-rc"@) {
        FirmwareChannel::ReleaseCandidate
    } else if contains(s, "-dev"@) {
        FirmwareChannel::Dev
    } else {
        FirmwareChannel::Release
    }
}

/// The bytes a character takes in UTF-8.
pub open spec fn utf8_width(c: char) -> nat {
    if (c as u32) < 0x80 {
        1
    } else if (c as u32) < 0x800 {
        2
    } else if (c as u32) < 0x10000 {
        3
    } else {
        4
    }
}

/// The bytes a text takes in UTF-8.
pub open spec fn utf8_len(s: Seq<char>) -> nat
    decreases s.len(),
{
    if s.len() == 0 {
        0
    } else {
        utf8_width(s[0]) + utf8_len(s.drop_first())
    }
}

/// How many leading characters of `s` fit in `k` bytes of UTF-8.
pub open spec fn chars_in_bytes(s: Seq<char>, k: nat) -> nat
    decreases s.len(),
{
    if s.len() == 0 {
        0
    } else if utf8_width(s[0]) <= k {
        1 + chars_in_bytes(s.drop_first(), (k - utf8_width(s[0])) as nat)
    } else {
        0
    }
}

/// The first seven bytes of a commit hash end on a character boundary (so
/// that slicing them out does not panic).
pub open spec fn commit_cut_ok(commit: Seq<char>) -> bool {
    utf8_len(commit) <= 7 || utf8_len(commit.take(chars_in_bytes(commit, 7) as int)) == 7
}

impl Clone for FirmwareVersion {
    fn clone(&self) -> (r: Self)
        ensures
            r.version@ == self.version@,
            r.channel == self.channel,
            r.commit@ == self.commit@,
            r.build_date@ == self.build_date@,
            r.target@ == self.target@,
    {
        FirmwareVersion {
            version: self.version.clone(),
            channel: self.channel,
            commit: self.commit.clone(),
            build_date: self.build_date.clone(),
            target: self.target.clone(),
        }
    }
}

fn utf8_width_of(c: char) -> (r: usize)
    ensures
        r == utf8_width(c),
{
    let v = c as u32;
    if v < 0x80 {
        1
    } else if v < 0x800 {
        2
    } else if v < 0x10000 {
        3
    } else {
        4
    }
}

/// `v` is the version that the text `s` reads as: what precedes its first
/// `-`, on the channel the text names, for target "f7", with no commit or
/// build date.
pub open spec fn version_parsed_from(v: FirmwareVersion, s: Seq<char>) -> bool {
    v.version@ == s.take(char_index(s, '-') as int) && v.channel == channel_of(s)
        && v.commit@.len() == 0 && v.build_date@.len() == 0 && v.target@ == "f7"@
}

impl FirmwareVersion {
    /// Parse a version string like "0.99.1-rc" or "0.98.3": the version is
    /// what precedes the first `-`, the channel what the string names, the
    /// target "f7", commit and build date empty. Never fails.
    pub fn parse(version_str: &str) -> (r: Option<Self>)
        ensures
            r matches Some(v) && version_parsed_from(v, version_str@),
    {
        let s = chars_of(version_str);
        let dash = find_char(&s, 0, s.len(), '-');
        proof {
            assert(s@.subrange(0, s@.len() as int) =~= version_str@);
            assert(s@.subrange(0, dash as int) =~= version_str@.take(dash as int));
        }
        let version = string_of_span(&s, 0, dash);
        let rc = chars_of("-rc");
        let dev = chars_of("-dev");
        let channel = if contains_text(&s, &rc) {
            FirmwareChannel::ReleaseCandidate
        } else if contains_text(&s, &dev) {
            FirmwareChannel::Dev
        } else {
            FirmwareChannel::Release
        };
        let mut target = String::new();
        push_str(&mut target, "f7");
        Some(Self { version, channel, commit: String::new(), build_date: String::new(), target })
    }

    /// The version, followed by the first seven bytes of the commit in
    /// brackets when there is a commit.
    pub fn display(&self) -> (r: String)
        requires
            commit_cut_ok(self.commit@),
        ensures
            r@ == if self.commit@.len() == 0 {
                self.version@
            } else {
                self.version@ + " ("@ + self.commit@.take(chars_in_bytes(self.commit@, 7) as int)
                    + ")"@
            },
    {
        let commit = self.commit.as_str();
        let n = commit.unicode_len();
        if n == 0 {
            return self.version.clone();
        }
        let c = chars_of(commit);
        let mut j: usize = 0;
        let mut room: usize = 7;
        proof {
            assert(c@.skip(0) =~= c@);
        }
        while j < n && utf8_width_of(c[j]) <= room
            invariant
                j <= n == c@.len(),
                c@ == commit@,
                room <= 7,
                chars_in_bytes(commit@, 7) == j + chars_in_bytes(c@.skip(j as int), room as nat),
            decreases n - j,
        {
            proof {
                assert(c@.skip(j as int).drop_first() =~= c@.skip(j + 1));
            }
            room = room - utf8_width_of(c[j]);
            j = j + 1;
        }
        proof {
            if j < n {
                assert(c@.skip(j as int)[0] == c@[j as int]);
            } else {
                assert(c@.skip(j as int).len() == 0);
            }
            assert(chars_in_bytes(commit@, 7) == j);
        }
        let mut r = self.version.clone();
        push_str(&mut r, " (");
        push_str(&mut r, commit.substring_char(0, j));
        push_str(&mut r, ")");
        r
    }
}

/// Firmware update manifest
#[derive(Debug)]
pub struct UpdateManifest {
    pub version: FirmwareVersion,
    pub url: String,
    pub size: u64,
    pub sha256: String,
    pub changelog: Vec<String>,
}

impl Clone for UpdateManifest {
    fn clone(&self) -> (r: Self)
        ensures
            r.version.version@ == self.version.version@,
            r.version.channel == self.version.channel,
            r.version.commit@ == self.version.commit@,
            r.version.build_date@ == self.version.build_date@,
            r.version.target@ == self.version.target@,
            r.url@ == self.url@,
            r.size == self.size,
            r.sha256@ == self.sha256@,
            r.changelog@.len() == self.changelog@.len(),
            forall|i: int|
                0 <= i < self.changelog@.len() ==> (#[trigger] r.changelog@[i])@
                    == self.changelog@[i]@,
    {
        let mut changelog: Vec<String> = Vec::new();
        let mut i: usize = 0;
        while i < self.changelog.len()
            invariant
                i <= self.changelog@.len(),
                changelog@.len() == i,
                forall|k: int|
                    0 <= k < i ==> (#[trigger] changelog@[k])@ == self.changelog@[k]@,
            decreases self.changelog@.len() - i,
        {
            changelog.push(self.changelog[i].clone());
            i = i + 1;
        }
        UpdateManifest {
            version: self.version.clone(),
            url: self.url.clone(),
            size: self.size,
            sha256: self.sha256.clone(),
            changelog,
        }
    }
}

/// Firmware updater
pub struct FirmwareUpdater {
    channel: FirmwareChannel,
    custom_url: Option<String>,
}

/// The settings of a `FirmwareUpdater`.
pub struct FirmwareUpdaterView {
    pub channel: FirmwareChannel,
    pub custom_url: Option<Seq<char>>,
}

impl View for FirmwareUpdater {
    type V = FirmwareUpdaterView;

    closed spec fn view(&self) -> FirmwareUpdaterView {
        FirmwareUpdaterView {
            channel: self.channel,
            custom_url: match self.custom_url {
                Some(u) => Some(u@),
                None => None,
            },
        }
    }
}

impl FirmwareUpdater {
    /// An updater on the release channel.
    pub fn new() -> (r: Self)
        ensures
            r@.channel == FirmwareChannel::Release,
            r@.custom_url is None,
    {
        Self { channel: FirmwareChannel::Release, custom_url: None }
    }

    pub fn with_channel(channel: FirmwareChannel) -> (r: Self)
        ensures
            r@.channel == channel,
            r@.custom_url is None,
    {
        Self { channel, custom_url: None }
    }

    pub fn channel(&self) -> (r: FirmwareChannel)
        ensures
            r == self@.channel,
    {
        self.channel
    }

    pub fn set_channel(&mut self, channel: FirmwareChannel)
        ensures
            final(self)@.channel == channel,
            final(self)@.custom_url == old(self)@.custom_url,
    {
        self.channel = channel;
    }

    /// Sets a custom update URL, which switches to the custom channel.
    pub fn set_custom_url(&mut self, url: String)
        ensures
            final(self)@.channel == FirmwareChannel::Custom,
            final(self)@.custom_url == Some(url@),
    {
        self.custom_url = Some(url);
        self.channel = FirmwareChannel::Custom;
    }
}

impl FirmwareUpdater {
    /// The device's firmware version from the text it reports: the parsed
    /// version, or, where the text does not parse, the text itself on this
    /// updater's channel for target "f7" (parsing never fails, so the parsed
    /// version is what comes back).
    pub fn current_version(&self, current_version: &str) -> (r: FirmwareVersion)
        ensures
            version_parsed_from(r, current_version@),
    {
        match FirmwareVersion::parse(current_version) {
            Some(v) => v,
            None => {
                let mut version = String::new();
                push_str(&mut version, current_version);
                let mut target = String::new();
                push_str(&mut target, "f7");
                FirmwareVersion {
                    version,
                    channel: self.channel,
                    commit: String::new(),
                    build_date: String::new(),
                    target,
                }
            },
        }
    }
}

impl Default for FirmwareUpdater {
    fn default() -> (r: Self)
        ensures
            r@.channel == FirmwareChannel::Release,
            r@.custom_url is None,
    {
        Self::new()
    }
}

/// A popular custom firmware distribution
#[derive(Debug, Clone, Copy)]
pub struct CustomFirmware {
    pub name: &'static str,
    pub description: &'static str,
    pub url: &'static str,
    pub github: &'static str,
}

/// The distribution with these texts.
pub open spec fn firmware_is(
    f: CustomFirmware,
    name: Seq<char>,
    description: Seq<char>,
    url: Seq<char>,
    github: Seq<char>,
) -> bool {
    f.name@ == name && f.description@ == description && f.url@ == url && f.github@ == github
}

/// Popular custom firmware distributions
pub fn custom_firmwares() -> (r: Vec<CustomFirmware>)
    ensures
        r@.len() == 4,
        firmware_is(
            r@[0],
            "Momentum"@,
            "Feature-rich custom firmware with many improvements"@,
            "https://momentum-fw.dev/"@,
            "Next-Flip/Momentum-Firmware"@,
        ),
        firmware_is(
            r@[1],
            "Xtreme"@,
            "Extended features and customizations"@,
            "https://flipper-xtre.me/"@,
            "Flipper-XFW/Xtreme-Firmware"@,
        ),
        firmware_is(
            r@[2],
            "Unleashed"@,
            "Unlocked frequencies and additional features"@,
            "https://github.com/DarkFlippers/unleashed-firmware"@,
            "DarkFlippers/unleashed-firmware"@,
        ),
        firmware_is(
            r@[3],
            "RogueMaster"@,
            "Combined features from multiple firmware sources"@,
            "https://github.com/RogueMaster/flipperzero-firmware-wPlugins"@,
            "RogueMaster/flipperzero-firmware-wPlugins"@,
        ),
{
    let mut r: Vec<CustomFirmware> = Vec::new();
    r.push(
        CustomFirmware {
            name: "Momentum",
            description: "Feature-rich custom firmware with many improvements",
            url: "https://momentum-fw.dev/",
            github: "Next-Flip/Momentum-Firmware",
        },
    );
    r.push(
        CustomFirmware {
            name: "Xtreme",
            description: "Extended features and customizations",
            url: "https://flipper-xtre.me/",
            github: "Flipper-XFW/Xtreme-Firmware",
        },
    );
    r.push(
        CustomFirmware {
            name: "Unleashed",
            description: "Unlocked frequencies and additional features",
            url: "https://github.com/DarkFlippers/unleashed-firmware",
            github: "DarkFlippers/unleashed-firmware",
        },
    );
    r.push(
        CustomFirmware {
            name: "RogueMaster",
            description: "Combined features from multiple firmware sources",
            url: "https://github.com/RogueMaster/flipperzero-firmware-wPlugins",
            github: "RogueMaster/flipperzero-firmware-wPlugins",
        },
    );
    r
}

} // verus!
