use pineflip::protocol::{
    parse_device_info, parse_size_parts, parse_storage_info, CommandBuilder, DeviceInfo,
    ResponseStatus, SizeText,
};

/// The byte count of a size text, the number scaled in floating point.
fn parse_size(s: &str) -> u64 {
    match parse_size_parts(s) {
        SizeText::Plain(v) => v,
        SizeText::Scaled(num, m) => (num.parse::<f64>().unwrap_or(0.0) * m as f64) as u64,
    }
}

#[test]
fn test_parse_size() {
    assert_eq!(parse_size("1024"), 1024);
    assert_eq!(parse_size("1 KB"), 1024);
    assert_eq!(parse_size("1 MB"), 1024 * 1024);
    assert_eq!(parse_size("1.5 GB"), (1.5 * 1024.0 * 1024.0 * 1024.0) as u64);
}

#[test]
fn test_command_builder() {
    let cmd = CommandBuilder::new("storage")
        .arg("read")
        .arg_quoted("/ext/test.txt")
        .build();
    assert_eq!(cmd, "storage read \"/ext/test.txt\"");
}

#[test]
fn command_builder_single_word() {
    assert_eq!(CommandBuilder::new("ping").build(), "ping");
    assert_eq!(CommandBuilder::new("a").arg("").arg("b").build(), "a  b");
}

#[test]
fn response_status_codes() {
    assert_eq!(ResponseStatus::from_code(0), ResponseStatus::Success);
    assert!(ResponseStatus::from_code(0).is_ok());
    assert_eq!(ResponseStatus::from_code(1), ResponseStatus::Error);
    assert_eq!(ResponseStatus::from_code(2), ResponseStatus::NotImplemented);
    assert_eq!(ResponseStatus::from_code(3), ResponseStatus::Busy);
    assert_eq!(ResponseStatus::from_code(4), ResponseStatus::InvalidArgument);
    assert_eq!(ResponseStatus::from_code(5), ResponseStatus::StorageFull);
    assert_eq!(ResponseStatus::from_code(6), ResponseStatus::FileNotFound);
    assert_eq!(ResponseStatus::from_code(7), ResponseStatus::PermissionDenied);
    assert_eq!(ResponseStatus::from_code(200), ResponseStatus::Error);
    for code in 1..=255u8 {
        assert!(!ResponseStatus::from_code(code).is_ok());
    }
}

#[test]
fn size_parts_units() {
    match parse_size_parts("2 kb") {
        SizeText::Scaled(n, m) => {
            assert_eq!(n, "2");
            assert_eq!(m, 1024);
        }
        other => panic!("unexpected {:?}", other),
    }
    match parse_size_parts("3 t") {
        SizeText::Scaled(_, m) => assert_eq!(m, 1024u64 * 1024 * 1024 * 1024),
        other => panic!("unexpected {:?}", other),
    }
    match parse_size_parts("7 parsecs") {
        SizeText::Scaled(_, m) => assert_eq!(m, 1),
        other => panic!("unexpected {:?}", other),
    }
    match parse_size_parts("junk") {
        SizeText::Plain(v) => assert_eq!(v, 0),
        other => panic!("unexpected {:?}", other),
    }
    match parse_size_parts("+17") {
        SizeText::Plain(v) => assert_eq!(v, 17),
        other => panic!("unexpected {:?}", other),
    }
    match parse_size_parts("18446744073709551616") {
        SizeText::Plain(v) => assert_eq!(v, 0),
        other => panic!("unexpected {:?}", other),
    }
    assert_eq!(parse_size("32.5 GB"), (32.5 * 1073741824.0) as u64);
}

#[test]
fn storage_info_reply() {
    let (total, free) = parse_storage_info("Storage:\r\n  Total: 1 MB\r\nFree: 512\r\nFree: 2 KB\r\n");
    match total {
        SizeText::Scaled(n, m) => {
            assert_eq!(n, "1");
            assert_eq!(m, 1024 * 1024);
        }
        other => panic!("unexpected {:?}", other),
    }
    match free {
        SizeText::Scaled(n, m) => {
            assert_eq!(n, "2");
            assert_eq!(m, 1024);
        }
        other => panic!("unexpected {:?}", other),
    }
    let (t, f) = parse_storage_info("nothing here");
    assert!(matches!(t, SizeText::Plain(0)));
    assert!(matches!(f, SizeText::Plain(0)));
}

#[test]
fn device_info_reply() {
    let reply = "Hardware_Model : Flipper Zero\r\n\
                 hardware_target: 7\n\
                 firmware_version: 0.99.1\n\
                 protobuf_version_major: 0\n\
                 protobuf_version_minor: 24\n\
                 protobuf_version_major: x\n\
                 device_name:  Zeta \n\
                 unknown: ignored\n\
                 no colon here\n";
    let info = parse_device_info(reply);
    assert_eq!(info.hardware_model, "Flipper Zero");
    assert_eq!(info.hardware_target, "7");
    assert_eq!(info.firmware_version, "0.99.1");
    assert_eq!(info.protobuf_version, (0, 24));
    assert_eq!(info.device_name, "Zeta");
    assert_eq!(info.display_name(), "Zeta");
    assert_eq!(info.hardware_version, "");

    let unnamed = parse_device_info("hardware_name: Flip\nhardware_target: 7");
    assert_eq!(unnamed.hardware_model, "Flip");
    assert_eq!(unnamed.display_name(), "Flipper 7");
}

#[test]
fn device_info_default_is_empty() {
    let info = DeviceInfo::default();
    assert_eq!(info.device_name, "");
    assert_eq!(info.protobuf_version, (0, 0));
    assert_eq!(info.display_name(), "Flipper ");
}
