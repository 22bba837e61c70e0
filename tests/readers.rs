use udbg::cstr::{c_string_prefix, c_string_text};
use udbg::launch::is_white_space;
use udbg::memory::{MemoryPage, MemoryWalk};
use udbg::maps::MEM_COMMIT;
use udbg::peb::{command_line_offset, parameters_offset, pointer_of, unicode_string_of};

#[test]
fn c_strings_stop_at_nul() {
    assert_eq!(c_string_prefix(b"abc\0def"), b"abc".to_vec());
    assert_eq!(c_string_prefix(b"abc"), b"abc".to_vec());
    assert_eq!(c_string_prefix(b"\0"), Vec::<u8>::new());
    assert_eq!(c_string_text(b"h\xc3\xa9\0\xff"), Some("h\u{e9}".to_string()));
    assert_eq!(c_string_text(b"a\xffb\0"), None);
}

#[test]
fn white_space_property() {
    for c in ['\t', '\n', '\r', ' ', '\u{85}', '\u{a0}', '\u{1680}', '\u{2000}', '\u{200a}', '\u{2028}', '\u{3000}'] {
        assert!(is_white_space(c));
    }
    for c in ['a', '\u{200b}', '\u{feff}', '_'] {
        assert!(!is_white_space(c));
    }
    for u in 0..0x11000u32 {
        if let Some(c) = char::from_u32(u) {
            assert_eq!(is_white_space(c), c.is_whitespace());
        }
    }
}

#[test]
fn peb_offsets_and_pointers() {
    assert_eq!(parameters_offset(8), 0x20);
    assert_eq!(parameters_offset(4), 0x10);
    assert_eq!(command_line_offset(8), 0x70);
    assert_eq!(command_line_offset(4), 0x40);
    assert_eq!(pointer_of(&[0x78, 0x56, 0x34, 0x12], 4), Some(0x12345678));
    assert_eq!(pointer_of(&[0x78, 0x56, 0x34], 4), None);
    assert_eq!(pointer_of(&[1, 0, 0, 0, 2, 0, 0, 0], 8), Some(0x2_0000_0001));
}

#[test]
fn unicode_string_descriptor() {
    // Length 14 bytes, MaximumLength 16, padding, Buffer 0x1000
    let w64 = [14, 0, 16, 0, 0, 0, 0, 0, 0, 0x10, 0, 0, 0, 0, 0, 0];
    assert_eq!(unicode_string_of(&w64, 8), Some((0x1000, 7)));
    assert_eq!(unicode_string_of(&w64[..15], 8), None);
    let w32 = [6, 0, 8, 0, 0x00, 0x20, 0, 0];
    assert_eq!(unicode_string_of(&w32, 4), Some((0x2000, 3)));
}

#[test]
fn commit_walk_skips_reserved() {
    let mut w = MemoryWalk::new(0);
    let reserved = MemoryPage::from_basic_info(0, 0, 0x1000, 0, 0x2000, 1, 1);
    assert!(w.advance_commit(Some(reserved)).is_none());
    assert_eq!(w.address, 0x1000);
    assert!(!w.finished);
    let committed = MemoryPage::from_basic_info(0x1000, 0x1000, 0x1000, 0, MEM_COMMIT, 4, 4);
    assert_eq!(w.advance_commit(Some(committed)).map(|p| p.base), Some(0x1000));
    assert_eq!(w.address, 0x2000);
    assert!(w.advance_commit(None).is_none());
    assert!(w.finished);
}
