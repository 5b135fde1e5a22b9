use pineflip::device;
use pineflip::files::{format_size, FileInfo, RemoteDir, StorageInfo};

#[test]
fn test_format_size() {
    assert_eq!(format_size(0), "0 B");
    assert_eq!(format_size(1023), "1023 B");
    assert_eq!(format_size(1024), "1.00 KB");
    assert_eq!(format_size(1024 * 1024), "1.00 MB");
    assert_eq!(format_size(1024 * 1024 * 1024), "1.00 GB");
}

#[test]
fn test_file_info_icon() {
    let sub = FileInfo::new("test.sub", "/ext/test.sub", false, 100);
    assert_eq!(sub.icon_name(), "audio-radio-symbolic");

    let dir = FileInfo::new("folder", "/ext/folder", true, 0);
    assert_eq!(dir.icon_name(), "folder-symbolic");
}

/// The text that `f64` division and `{:.2}` give, as the size formatting
/// is meant to match.
fn float_size(bytes: u64) -> String {
    const KB: u64 = 1024;
    const MB: u64 = KB * 1024;
    const GB: u64 = MB * 1024;
    if bytes >= GB {
        format!("{:.2} GB", bytes as f64 / GB as f64)
    } else if bytes >= MB {
        format!("{:.2} MB", bytes as f64 / MB as f64)
    } else if bytes >= KB {
        format!("{:.2} KB", bytes as f64 / KB as f64)
    } else {
        format!("{} B", bytes)
    }
}

#[test]
fn format_size_matches_float_formatting() {
    let mut samples: Vec<u64> = vec![
        1535, 1536, 1537, 1029, 1030, 1034, 1039, 1048575, 1048576, 1179648, 1184891,
        1073741823, 1073741824, 1207959552, 1_000_000_000_000, 1_099_511_627_776,
        (1u64 << 53) - 1, 1u64 << 53, (1u64 << 53) + 1, (1u64 << 53) + 3,
        u64::MAX, u64::MAX - 1, u64::MAX / 3, 12345678901234567,
    ];
    // halves in hundredths: 1.125 KB and friends
    for k in 0..200u64 {
        samples.push(1024 + 10 * k + 5);
        samples.push((k + 1) * 1024 * 1024 / 8 * 9);
    }
    let mut x: u64 = 0x9e37_79b9_7f4a_7c15;
    for _ in 0..2000 {
        x ^= x << 13;
        x ^= x >> 7;
        x ^= x << 17;
        samples.push(x);
        samples.push(x >> (x % 64));
    }
    for b in samples {
        assert_eq!(format_size(b), float_size(b), "bytes = {}", b);
    }
}

#[test]
fn format_size_rounds_half_to_even() {
    // 1.125 MB sits halfway between 1.12 and 1.13
    assert_eq!(format_size(1179648), "1.12 MB");
    assert_eq!(format_size(1024 * 1024 * 1023 + 1024 * 1023), "1024.00 MB");
    assert_eq!(format_size(1024 * 1024 - 1), "1024.00 KB");
}

#[test]
fn size_string_and_extension() {
    let f = FileInfo::new("archive.tar.gz", "/ext/archive.tar.gz", false, 2048);
    assert_eq!(f.size_string(), "2.00 KB");
    assert_eq!(f.extension(), Some("gz"));
    let plain = FileInfo::new("README", "/ext/README", false, 3);
    assert_eq!(plain.extension(), None);
    assert_eq!(plain.icon_name(), "text-x-generic-symbolic");
    let dotted = FileInfo::new("x.", "/ext/x.", false, 0);
    assert_eq!(dotted.extension(), Some(""));
    let d = FileInfo::new("apps", "/ext/apps", true, 0);
    assert_eq!(d.size_string(), "-");
    assert_eq!(d.extension(), None);
}

#[test]
fn icons_by_extension() {
    let icon = |n: &str| FileInfo::new(n, n, false, 0).icon_name();
    assert_eq!(icon("a.ir"), "video-display-symbolic");
    assert_eq!(icon("a.irdb"), "video-display-symbolic");
    assert_eq!(icon("a.nfc"), "nfc-symbolic");
    assert_eq!(icon("a.rfid"), "auth-sim-symbolic");
    assert_eq!(icon("a.ibutton"), "key-symbolic");
    assert_eq!(icon("a.txt"), "text-x-generic-symbolic");
    assert_eq!(icon("a.log"), "text-x-generic-symbolic");
    assert_eq!(icon("a.js"), "application-x-executable-symbolic");
    assert_eq!(icon("a.fap"), "application-x-executable-symbolic");
    assert_eq!(icon("a.bak"), "document-save-symbolic");
    assert_eq!(icon("a.SUB"), "text-x-generic-symbolic");
    assert_eq!(icon("sub"), "text-x-generic-symbolic");
    assert_eq!(icon("js"), "text-x-generic-symbolic");
}

#[test]
fn used_bytes_saturates() {
    let s = StorageInfo { total_bytes: 100, free_bytes: 30, label: "/ext".to_string() };
    assert_eq!(s.used_bytes(), 70);
    let odd = StorageInfo { total_bytes: 10, free_bytes: 30, label: String::new() };
    assert_eq!(odd.used_bytes(), 0);
}

#[test]
fn remote_dir_paths() {
    let mut d = RemoteDir::new();
    assert_eq!(d.current_path(), "/ext");
    assert_eq!(d.resolve_path("/int/x"), "/int/x");
    assert_eq!(d.resolve_path("x.txt"), "/ext/x.txt");
    assert_eq!(d.child_path("new"), "/ext/new");
    assert_eq!(d.cd_target("apps"), "/ext/apps");
    assert_eq!(d.cd_target(".."), "/");
    d.enter("/ext/apps/sub".to_string());
    assert_eq!(d.cd_target(".."), "/ext/apps");
    d.enter("/".to_string());
    assert_eq!(d.cd_target(".."), "/");

    let listing = device::parse_directory_listing("[D] games\n[F] a.txt 12\n");
    let entries = RemoteDir::new().entries(&listing);
    assert_eq!(entries.len(), 2);
    assert_eq!(entries[0].path, "/ext/games");
    assert!(entries[0].is_dir);
    assert_eq!(entries[1].path, "/ext/a.txt");
    assert_eq!(entries[1].size, 12);
}
