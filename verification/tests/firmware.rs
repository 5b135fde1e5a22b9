use pineflip::firmware::{custom_firmwares, FirmwareChannel, FirmwareUpdater, FirmwareVersion};

#[test]
fn test_version_parse() {
    let v = FirmwareVersion::parse("0.99.1").unwrap();
    assert_eq!(v.version, "0.99.1");
    assert_eq!(v.channel, FirmwareChannel::Release);

    let v = FirmwareVersion::parse("0.99.1-rc").unwrap();
    assert_eq!(v.channel, FirmwareChannel::ReleaseCandidate);

    let v = FirmwareVersion::parse("0.99.1-dev").unwrap();
    assert_eq!(v.channel, FirmwareChannel::Dev);
}

#[test]
fn version_parse_details() {
    let v = FirmwareVersion::parse("1.2-dev-rc").unwrap();
    assert_eq!(v.version, "1.2");
    assert_eq!(v.channel, FirmwareChannel::ReleaseCandidate);
    assert_eq!(v.target, "f7");
    assert_eq!(v.commit, "");
    let e = FirmwareVersion::parse("").unwrap();
    assert_eq!(e.version, "");
    assert_eq!(e.channel, FirmwareChannel::Release);
}

#[test]
fn version_display() {
    let mut v = FirmwareVersion::parse("0.98.3").unwrap();
    assert_eq!(v.display(), "0.98.3");
    v.commit = "abcdef0123".to_string();
    assert_eq!(v.display(), "0.98.3 (abcdef0)");
    v.commit = "abc".to_string();
    assert_eq!(v.display(), "0.98.3 (abc)");
    v.commit = "ab\u{e9}cdefgh".to_string();
    assert_eq!(v.display(), "0.98.3 (ab\u{e9}cde)");
}

#[test]
fn channel_texts() {
    assert_eq!(FirmwareChannel::default(), FirmwareChannel::Release);
    assert_eq!(FirmwareChannel::Release.as_str(), "release");
    assert_eq!(FirmwareChannel::ReleaseCandidate.as_str(), "rc");
    assert_eq!(FirmwareChannel::Dev.display_name(), "Development");
    assert_eq!(FirmwareChannel::Custom.update_url(), "");
    assert_eq!(
        FirmwareChannel::Release.update_url(),
        "https://update.flipperzero.one/firmware/release"
    );
    assert_eq!(
        FirmwareChannel::Custom.description(),
        "Third-party firmware distributions."
    );
}

#[test]
fn updater_settings() {
    let mut u = FirmwareUpdater::new();
    assert_eq!(u.channel(), FirmwareChannel::Release);
    u.set_channel(FirmwareChannel::Dev);
    assert_eq!(u.channel(), FirmwareChannel::Dev);
    u.set_custom_url("https://example.org/fw".to_string());
    assert_eq!(u.channel(), FirmwareChannel::Custom);
    assert_eq!(FirmwareUpdater::with_channel(FirmwareChannel::ReleaseCandidate).channel(), FirmwareChannel::ReleaseCandidate);
    assert_eq!(FirmwareUpdater::default().channel(), FirmwareChannel::Release);
}

#[test]
fn custom_firmware_list() {
    let list = custom_firmwares();
    assert_eq!(list.len(), 4);
    assert_eq!(list[0].name, "Momentum");
    assert_eq!(list[3].github, "RogueMaster/flipperzero-firmware-wPlugins");
}

#[test]
fn current_version_from_device_text() {
    let updater = FirmwareUpdater::with_channel(FirmwareChannel::Dev);
    let v = updater.current_version("0.99.1-rc");
    assert_eq!(v.version, "0.99.1");
    assert_eq!(v.channel, FirmwareChannel::ReleaseCandidate);
    assert_eq!(v.target, "f7");
    assert!(v.commit.is_empty() && v.build_date.is_empty());
    let plain = updater.current_version("1.0.0");
    assert_eq!(plain.version, "1.0.0");
    assert_eq!(plain.channel, FirmwareChannel::Release);
}
