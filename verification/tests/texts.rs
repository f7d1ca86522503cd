use hidforge::text::{
    chars_of, decode_utf16, encode_utf16, push_decimal, push_hexed, push_number, push_signed,
    string_of,
};
use hidforge::theme::{caption, letterspace};
use hidforge::tray::{icon_event, menu_command, tip, wide, Ask};
use hidforge::device::device_path;

#[test]
fn numbers_are_written_as_format_writes_them() {
    for n in [0u64, 7, 10, 255, 4096, 65_535, u64::MAX] {
        let mut out = String::new();
        push_decimal(&mut out, n);
        assert_eq!(out, format!("{n}"));
        let mut hex = String::new();
        push_number(&mut hex, n, 16, 4, true);
        assert_eq!(hex, format!("{n:04X}"));
        let mut low = String::new();
        push_number(&mut low, n, 16, 1, false);
        assert_eq!(low, format!("{n:x}"));
    }
    for n in [0i32, 5, -5, 120, -120, i32::MAX, i32::MIN] {
        let mut out = String::from("x");
        push_signed(&mut out, n);
        assert_eq!(out, format!("x{n:+}"));
    }
    for n in [0u16, 1, 0x1B, 0xFF, 0x100, 0xFFFF] {
        let mut out = String::new();
        push_hexed(&mut out, n, 2);
        assert_eq!(out, format!("{n:#04x}"));
        let mut four = String::new();
        push_hexed(&mut four, n, 4);
        assert_eq!(four, format!("{n:#06x}"));
    }
}

#[test]
fn characters_come_and_go() {
    let v = chars_of("aé😀");
    assert_eq!(v, vec!['a', 'é', '😀']);
    assert_eq!(string_of(&v), "aé😀");
}

#[test]
fn utf16_is_that_of_the_standard_library() {
    for s in ["", "plain", "Größe — 12 µs", "😀𝄞 mixed \u{FFFF}\u{10FFFF}"] {
        let units = encode_utf16(s);
        assert_eq!(units, s.encode_utf16().collect::<Vec<u16>>());
        assert_eq!(decode_utf16(&units), s);
    }
}

#[test]
fn broken_utf16_is_replaced() {
    for units in [
        vec![0xD800u16],
        vec![0xDC00, 0x41],
        vec![0xD83D, 0x41, 0xDE00],
        vec![0xD83D, 0xD83D, 0xDE00],
        vec![0x41, 0xD83D],
    ] {
        assert_eq!(decode_utf16(&units), String::from_utf16_lossy(&units));
    }
}

#[test]
fn wide_text_ends_in_zero_and_reads_back() {
    assert_eq!(wide("Hi"), vec![0x48, 0x69, 0]);
    assert_eq!(wide(""), vec![0]);
    assert_eq!(device_path(&wide("HidForge — click to open 😀")), "HidForge — click to open 😀");
    assert_eq!(device_path(&wide("cut\0off")), "cut");
    assert_eq!(device_path(&vec![0x41, 0x42]), "AB");
    assert_eq!(device_path(&Vec::new()), "");
}

#[test]
fn tooltip_is_cut_to_its_room() {
    assert_eq!(tip("abc"), vec![97, 98, 99, 0]);
    let long = "x".repeat(126);
    assert_eq!(tip(&long).len(), 127);
    assert_eq!(tip(&long)[126], 0);
    let longer = "x".repeat(300);
    assert_eq!(tip(&longer), vec![120u16; 127]);
}

#[test]
fn captions_are_upper_case_and_spaced() {
    assert_eq!(caption("hold"), "H O L D");
    assert_eq!(caption("mean period"), "M E A N   P E R I O D");
    assert_eq!(caption(""), "");
    // One character may become two.
    assert_eq!(caption("straße"), "S T R A S S E");
    assert_eq!(letterspace("ab  \t"), "a b");
    assert_eq!(letterspace("   "), "");
}

#[test]
fn white_space_is_that_of_the_standard_library() {
    for n in 0..=0x10FFFFu32 {
        if let Some(c) = char::from_u32(n) {
            let out = letterspace(&format!("a{c}"));
            let want: String = format!("a{c}").chars().flat_map(|x| [x, ' ']).collect();
            assert_eq!(out, want.trim_end());
        }
    }
}

#[test]
fn tray_icon_tells_buttons_apart() {
    assert_eq!(icon_event(0x0202), Ask::Show);
    assert_eq!(icon_event(0x0205), Ask::Menu);
    assert_eq!(icon_event(0x0206), Ask::Menu);
    assert_eq!(icon_event(0x0201), Ask::Nothing);
    assert_eq!(icon_event(0x0001_0202), Ask::Show);
    assert_eq!(icon_event(0x0202_0000), Ask::Nothing);
}

#[test]
fn tray_menu_has_three_entries() {
    assert_eq!(menu_command(1), Ask::Show);
    assert_eq!(menu_command(2), Ask::Stop);
    assert_eq!(menu_command(3), Ask::Quit);
    assert_eq!(menu_command(0), Ask::Nothing);
    assert_eq!(menu_command(4), Ask::Nothing);
    assert_eq!(menu_command(0x0001_0003), Ask::Quit);
}
