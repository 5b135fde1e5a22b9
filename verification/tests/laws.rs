use pineflip::device::{self, response_complete};
use pineflip::files::{format_size, format_size_short, listing_lines};
use pineflip::protocol::CommandBuilder;
use pineflip::screen::ScreenFrame;
use pineflip::text::{chars_of, parse_unsigned_span, word_spans};

#[test]
fn whole_units_print_exactly() {
    for k in [1u64, 5, 10, 999, 1023] {
        assert_eq!(format_size(k * 1024), format!("{}.00 KB", k));
        assert_eq!(format_size(k * 1024 * 1024), format!("{}.00 MB", k));
        assert_eq!(format_size(k * 1024 * 1024 * 1024), format!("{}.00 GB", k));
    }
}

#[test]
fn build_after_arg_appends() {
    let before = CommandBuilder::new("storage").arg("list").build();
    let after = CommandBuilder::new("storage").arg("list").arg("/ext").build();
    assert_eq!(after, format!("{} {}", before, "/ext"));
    let quoted = CommandBuilder::new("storage").arg("list").arg_quoted("/ext a").build();
    assert_eq!(quoted, format!("{} \"{}\"", before, "/ext a"));
}

#[test]
fn ascii_art_size() {
    let art = ScreenFrame::new().to_ascii();
    assert_eq!(art.chars().count(), 2 * (128 + 2) + 1 + 32 * (128 + 3));
    let odd = ScreenFrame { data: vec![0; 64], width: 3, height: 5 }.to_ascii();
    assert_eq!(odd.chars().count(), 2 * 5 + 1 + 3 * 6);
}

#[test]
fn from_bytes_keeps_frame() {
    let mut f = ScreenFrame::new();
    f.set_pixel(3, 4, true);
    f.set_pixel(100, 60, true);
    let g = ScreenFrame::from_bytes(&f.data).unwrap();
    assert_eq!(g.data, f.data);
    assert_eq!((g.width, g.height), (f.width, f.height));
}

#[test]
fn decimal_parses_back() {
    for n in [0u64, 7, 10, 4096, u32::MAX as u64, u64::MAX] {
        let c = chars_of(&n.to_string());
        assert_eq!(parse_unsigned_span(&c, 0, c.len(), u64::MAX), Some(n));
    }
    let c = chars_of("4294967296");
    assert_eq!(parse_unsigned_span(&c, 0, c.len(), u32::MAX as u64), None);
}

#[test]
fn words_are_words() {
    let c = chars_of(" \tab  c\u{3000}d\n ");
    let spans = word_spans(&c, 0, c.len());
    let words: Vec<String> = spans.iter().map(|(a, b)| c[*a..*b].iter().collect()).collect();
    assert_eq!(words, vec!["ab", "c", "d"]);
}

#[test]
fn completion_stays() {
    assert!(response_complete("x>:"));
    assert!(response_complete("x>: more text"));
}

#[test]
fn listing_sorted_stably() {
    let entries = device::parse_directory_listing(
        "[F] b.txt 2048\n[D] Zeta\n[F] A.sub 10\n[D] alpha\n[F] a.SUB 11\n[D] beta\n",
    );
    let lines = listing_lines("/ext", &entries);
    assert_eq!(
        lines,
        vec![
            "📁 /ext (6 items)".to_string(),
            "─".repeat(40),
            "  📁 alpha/".to_string(),
            "  📁 beta/".to_string(),
            "  📁 Zeta/".to_string(),
            "  📄 A.sub (10 B)".to_string(),
            "  📄 a.SUB (11 B)".to_string(),
            "  📄 b.txt (2.00 KB)".to_string(),
        ]
    );
    let empty = listing_lines("/int", &Vec::new());
    assert_eq!(empty.len(), 2);
    assert_eq!(empty[0], "📁 /int (0 items)");
}

fn float_short(bytes: u64) -> String {
    if bytes < 1024 {
        format!("{} B", bytes)
    } else if bytes < 1024 * 1024 {
        format!("{:.1} KB", bytes as f64 / 1024.0)
    } else if bytes < 1024 * 1024 * 1024 {
        format!("{:.1} MB", bytes as f64 / (1024.0 * 1024.0))
    } else {
        format!("{:.1} GB", bytes as f64 / (1024.0 * 1024.0 * 1024.0))
    }
}

#[test]
fn short_size_matches_float_formatting() {
    let mut x: u64 = 0x1234_5678_9abc_def1;
    let mut samples: Vec<u64> = vec![0, 1023, 1024, 1075, 1076, 1127, 1536, 1024 * 1024 - 1, u64::MAX];
    for k in 0..100u64 {
        samples.push(1024 + 1024 * k / 20);
        samples.push(1024 * 1024 * (k + 1) + 1024 * 1024 / 20);
    }
    for _ in 0..2000 {
        x ^= x << 13;
        x ^= x >> 7;
        x ^= x << 17;
        samples.push(x);
        samples.push(x >> (x % 64));
    }
    for b in samples {
        assert_eq!(format_size_short(b), float_short(b), "bytes = {}", b);
    }
}

#[test]
fn ascii_art_lines() {
    let mut f = ScreenFrame { data: vec![0; 80], width: 3, height: 5 };
    f.set_pixel(0, 0, true);
    f.set_pixel(1, 1, true);
    f.set_pixel(2, 4, true);
    let art = f.to_ascii();
    let lines: Vec<&str> = art.split('\n').collect();
    assert_eq!(lines.len(), (5 + 1) / 2 + 2);
    assert_eq!(lines, vec!["┌───┐", "│▀▄ │", "│   │", "│  ▀│", "└───┘"]);
}
