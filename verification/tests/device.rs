use pineflip::device::{
    is_flipper_port, parse_directory_listing, response_complete, storage_command,
    storage_rename_command, Button, DeviceIdentity, FileInfo, FrameError, ScreenFrame,
    StorageInfo,
};

#[test]
fn flipper_port_ids() {
    assert!(is_flipper_port(Some((0x0483, 0x5740))));
    assert!(!is_flipper_port(Some((0x0483, 0x5741))));
    assert!(!is_flipper_port(None));
}

#[test]
fn reply_completion() {
    assert!(response_complete("device_info\r\n>: "));
    assert!(response_complete("a\r\n\r\nb"));
    assert!(!response_complete("partial\r\n"));
    assert!(!response_complete(""));
}

#[test]
fn command_lines() {
    assert_eq!(storage_command("list", "/ext"), "storage list /ext");
    assert_eq!(storage_rename_command("/a", "/b"), "storage rename /a /b");
    assert_eq!(Button::Up.press_command(), "button up");
    assert_eq!(Button::Center.press_command(), "button ok");
    assert_eq!(Button::Back.release_command(), "button back release");
    assert_eq!(Button::Left.release_command(), "button left release");
}

#[test]
fn listing_lines() {
    let f = FileInfo::parse("[D] apps").unwrap();
    assert!(f.is_directory);
    assert_eq!(f.name, "apps");
    assert_eq!(f.size, 0);
    let g = FileInfo::parse("  [F]\tnotes.txt  321  extra").unwrap();
    assert!(!g.is_directory);
    assert_eq!(g.name, "notes.txt");
    assert_eq!(g.size, 321);
    let h = FileInfo::parse("[F] big x").unwrap();
    assert_eq!(h.size, 0);
    assert!(FileInfo::parse("lonely").is_none());
    assert!(FileInfo::parse("   ").is_none());

    let all = parse_directory_listing("storage list /ext\r\n[D] a\r\n\r\n[F] b 5\r\n>: ");
    let names: Vec<&str> = all.iter().map(|f| f.name.as_str()).collect();
    assert_eq!(names, vec!["list", "a", "b"]);
    assert_eq!(all[2].size, 5);
}

#[test]
fn storage_figures() {
    let s = StorageInfo::parse("total: 1000\nfree:  250 \ntotal:junk\n");
    assert_eq!(s, StorageInfo { total: 0, free: 250 });
    let t = StorageInfo::parse(" total: 5\nfree: 7");
    assert_eq!(t, StorageInfo { total: 0, free: 7 });
}

#[test]
fn identity_from_reply() {
    let mut id = DeviceIdentity::new("/dev/ttyACM0");
    assert_eq!(id.name(), "Flipper Zero");
    assert_eq!(id.port_name(), "/dev/ttyACM0");
    assert_eq!(id.firmware_version(), None);
    id.apply_device_info("hardware_name: Dolphin\nfirmware_version: 0.99.1 \nhardware_version:12\n");
    assert_eq!(id.name(), "Dolphin");
    assert_eq!(id.firmware_version(), Some("0.99.1"));
    assert_eq!(id.hardware_version(), Some("12"));
}

#[test]
fn device_frames() {
    match ScreenFrame::from_bytes(&[1, 2, 3]) {
        Err(e @ FrameError::InsufficientData { .. }) => {
            assert_eq!(e.message(), "Insufficient screen data: 3 < 1024")
        }
        Ok(_) => panic!("short data accepted"),
    }
    let mut data = vec![0u8; 1024];
    data[0] = 0b0000_0010;
    let f = ScreenFrame::from_bytes(&data).unwrap();
    assert!(f.get_pixel(1, 0));
    assert!(!f.get_pixel(0, 0));
    assert!(!f.get_pixel(200, 0));
    let rgba = f.to_rgba(2);
    assert_eq!(rgba.len(), 256 * 128 * 4);
    assert_eq!(&rgba[0..4], &[0, 0, 0, 0xFF]);
    assert_eq!(&rgba[8..12], &[0xFF, 0x80, 0x00, 0xFF]);
    assert_eq!(&rgba[12..16], &[0xFF, 0x80, 0x00, 0xFF]);
    assert_eq!(&rgba[16..20], &[0, 0, 0, 0xFF]);
    let row1 = 256 * 4;
    assert_eq!(&rgba[row1 + 8..row1 + 12], &[0xFF, 0x80, 0x00, 0xFF]);
    let c = f.clone();
    assert_eq!(c.data, f.data);
}
