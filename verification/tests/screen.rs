use pineflip::screen::{ScreenError, ScreenFrame, FRAME_SIZE};

#[test]
fn test_pixel_access() {
    let mut frame = ScreenFrame::new();

    assert!(!frame.get_pixel(0, 0));
    frame.set_pixel(0, 0, true);
    assert!(frame.get_pixel(0, 0));

    frame.set_pixel(127, 63, true);
    assert!(frame.get_pixel(127, 63));
}

#[test]
fn test_frame_size() {
    assert_eq!(FRAME_SIZE, 1024); // 128 * 64 / 8
}

#[test]
fn set_then_get_changes_one_pixel() {
    let mut frame = ScreenFrame::new();
    frame.set_pixel(9, 3, true);
    for y in 0..64 {
        for x in 0..128 {
            assert_eq!(frame.get_pixel(x, y), x == 9 && y == 3);
        }
    }
    assert_eq!(frame.data[3 * 16 + 1], 0b0100_0000);
    frame.set_pixel(9, 3, false);
    assert!(frame.data.iter().all(|b| *b == 0));
    frame.set_pixel(500, 3, true);
    assert!(!frame.get_pixel(500, 3));
    assert!(frame.data.iter().all(|b| *b == 0));
}

#[test]
fn from_bytes_sizes() {
    let short = vec![0u8; 10];
    match ScreenFrame::from_bytes(&short) {
        Err(e @ ScreenError::InvalidFrameSize { .. }) => {
            assert_eq!(e.message(), "Invalid frame size: 10 (expected 1024)");
        }
        other => panic!("unexpected {:?}", other.map(|f| f.data.len())),
    }
    let mut long = vec![0u8; 2000];
    long[0] = 0x80;
    long[1500] = 0xff;
    let f = ScreenFrame::from_bytes(&long).unwrap();
    assert_eq!(f.data.len(), 1024);
    assert!(f.get_pixel(0, 0));
    assert!(!f.get_pixel(1, 0));
}

#[test]
fn ascii_art() {
    let mut frame = ScreenFrame { data: vec![0; 48], width: 2, height: 3 };
    frame.set_pixel(0, 0, true);
    frame.set_pixel(1, 1, true);
    frame.set_pixel(1, 2, true);
    assert_eq!(frame.to_ascii(), "┌──┐\n│▀▄│\n│ ▀│\n└──┘");
    let empty = ScreenFrame::new().to_ascii();
    assert_eq!(empty.lines().count(), 34);
    assert!(empty.starts_with('┌'));
    assert!(empty.ends_with('┘'));
}

#[test]
fn png_encoding() {
    let mut frame = ScreenFrame::new();
    frame.set_pixel(5, 5, true);
    let png = frame.to_png(2, false).unwrap();
    assert_eq!(&png[..8], &[0x89, b'P', b'N', b'G', 0x0d, 0x0a, 0x1a, 0x0a]);
    // width 256, height 128 in the IHDR chunk
    assert_eq!(&png[16..24], &[0, 0, 1, 0, 0, 0, 0, 128]);
    let inverted = frame.to_png(2, true).unwrap();
    assert_ne!(png, inverted);
    match frame.to_png(0, false) {
        Err(ScreenError::Encoding(m)) => assert!(!m.is_empty()),
        other => panic!("unexpected {:?}", other.map(|v| v.len())),
    }
}

#[test]
fn default_and_clone() {
    let f = ScreenFrame::default();
    assert_eq!((f.width, f.height, f.data.len()), (128, 64, 1024));
    let mut g = f.clone();
    g.set_pixel(1, 1, true);
    assert!(!f.get_pixel(1, 1));
    assert!(g.get_pixel(1, 1));
}

#[test]
fn mirror_steps() {
    assert_eq!(pineflip::screen::mirror_delay_ms(10), 100);
    assert_eq!(pineflip::screen::mirror_delay_ms(3), 333);
    assert!(matches!(pineflip::screen::mirror_step(None), pineflip::screen::MirrorAction::Stop));
    match pineflip::screen::mirror_step(Some(&[0u8; 10][..])) {
        pineflip::screen::MirrorAction::Fail(ScreenError::InvalidFrameSize { actual, expected }) => {
            assert_eq!((actual, expected), (10, 1024));
        }
        other => panic!("unexpected {:?}", other),
    }
    let data = vec![0u8; 1030];
    match pineflip::screen::mirror_step(Some(&data[..])) {
        pineflip::screen::MirrorAction::Draw(art) => {
            assert_eq!(art, ScreenFrame::new().to_ascii());
        }
        other => panic!("unexpected {:?}", other),
    }
}
