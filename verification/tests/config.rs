use pineflip::config::{
    default_frame_rate, default_true, config_file_under, join_bytes_under, join_path, join_path_bytes, Config, ScreenshotFormat, SortBy,
};

#[test]
fn test_default_config() {
    let config = Config::default();
    assert!(config.connection.auto_connect);
    assert_eq!(config.screen.frame_rate, 10);
    assert_eq!(config.appearance.window_width, 1000);
}

#[test]
fn defaults_in_full() {
    let c = Config::default();
    assert_eq!(c.connection.timeout_secs, 5);
    assert_eq!(c.connection.reconnect_delay_secs, 2);
    assert_eq!(c.screen.scale, 4);
    assert_eq!(c.screen.save_format, ScreenshotFormat::Png);
    assert!(c.screen.save_directory.ends_with("PineFlip"));
    assert_eq!(c.files.sort_by, SortBy::Name);
    assert!(c.files.confirm_delete);
    assert_eq!(c.appearance.window_height, 700);
    assert_eq!(c.shortcuts.connect, "<Ctrl>k");
    assert_eq!(c.shortcuts.delete, "Delete");
    assert!(default_true());
    assert_eq!(default_frame_rate(), 10);
}

#[test]
fn format_extensions() {
    assert_eq!(ScreenshotFormat::Png.extension(), "png");
    assert_eq!(ScreenshotFormat::Gif.extension(), "gif");
    assert_eq!(ScreenshotFormat::Bmp.extension(), "bmp");
}

#[test]
fn path_joining() {
    assert_eq!(join_path("/home/u", "x"), "/home/u/x");
    assert_eq!(join_path("/home/u/", "x"), "/home/u/x");
    assert_eq!(join_path("", "x"), "x");
    assert_eq!(join_path("/home/u", "/etc"), "/etc");
    assert!(Config::config_path().ends_with(b"pineflip/config.toml"));
    assert!(Config::data_dir().ends_with(b"pineflip"));
    assert!(Config::cache_dir().ends_with(b"pineflip"));
}

#[test]
fn byte_path_joining() {
    assert_eq!(
        config_file_under(Some(b"/home/u/.config".to_vec())),
        b"/home/u/.config/pineflip/config.toml".to_vec()
    );
    assert_eq!(config_file_under(None), b"./pineflip/config.toml".to_vec());
    // bytes that are not UTF-8 are kept as they are
    assert_eq!(
        join_bytes_under(Some(vec![b'/', 0xff, b'/']), "pineflip"),
        vec![b'/', 0xff, b'/', b'p', b'i', b'n', b'e', b'f', b'l', b'i', b'p']
    );
    assert_eq!(join_path_bytes(b"/a".to_vec(), "/b"), b"/b".to_vec());
    assert_eq!(join_path_bytes(Vec::new(), "x"), b"x".to_vec());
}
