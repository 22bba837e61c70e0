use udbg::maps::{parse_hex, parse_maps_line, MAP_PRIVATE, MAP_SHARED, MEM_COMMIT};
use udbg::memory::{MemoryPage, MemoryWalk};

#[test]
fn parses_file_backed_line() {
    let l = b"00400000-00452000 r-xp 00001000 08:02 173521      /usr/bin/dbus-daemon";
    let m = parse_maps_line(l).unwrap();
    assert_eq!(m.start, 0x400000);
    assert_eq!(m.end, 0x452000);
    assert!(m.read && !m.write && m.execute && !m.shared);
    assert_eq!(m.offset, 0x1000);
    assert_eq!(m.path, b"/usr/bin/dbus-daemon".to_vec());
}

#[test]
fn parses_anonymous_line() {
    let m = parse_maps_line(b"7ffd1000-7ffd3000 rw-s 00000000 00:00 0").unwrap();
    assert_eq!(m.path, Vec::<u8>::new());
    assert!(m.read && m.write && !m.execute && m.shared);
    let m = parse_maps_line(b"7ffd1000-7ffd3000 rw-p 00000000 00:00 0   [stack]").unwrap();
    assert_eq!(m.path, b"[stack]".to_vec());
}

#[test]
fn rejects_malformed_lines() {
    assert!(parse_maps_line(b"").is_none());
    assert!(parse_maps_line(b"zz-10 r-xp 0 08:02 1 /x").is_none());
    assert!(parse_maps_line(b"10-20 r-x 0 08:02 1 /x").is_none());
    assert!(parse_maps_line(b"20-10 r-xp 0 08:02 1 /x").is_none());
    assert!(parse_maps_line(b"10-20 r-xp 0").is_none());
}

#[test]
fn hex_parse_bounds() {
    assert_eq!(parse_hex(b"ffFF", 0, 4), Some(0xffff));
    assert_eq!(parse_hex(b"ffff", 0, 0), None);
    assert_eq!(parse_hex(b"1g", 0, 2), None);
    let max = format!("{:x}", usize::MAX);
    assert_eq!(parse_hex(max.as_bytes(), 0, max.len()), Some(usize::MAX));
    let over = format!("1{:x}", usize::MAX);
    assert_eq!(parse_hex(over.as_bytes(), 0, over.len()), None);
}

#[test]
fn memory_page_from_line() {
    let p = MemoryPage::from_maps_line(b"1000-3000 rwxs 0 00:00 0 /dev/zero").unwrap();
    assert_eq!(p.base, 0x1000);
    assert_eq!(p.size, 0x2000);
    assert_eq!(p.protect, 7);
    assert_eq!(p.type_, MAP_SHARED);
    assert_eq!(p.state, MEM_COMMIT);
    assert!(p.is_commit());
    assert_eq!(p.usage, "/dev/zero");
    let q = MemoryPage::from_maps_line(b"1000-2000 r--p 0 00:00 0").unwrap();
    assert_eq!(q.protect, 1);
    assert_eq!(q.type_, MAP_PRIVATE);
}

#[test]
fn memory_walk_moves_past_regions() {
    let mut w = MemoryWalk::new(0x1000);
    let p = MemoryPage::from_basic_info(0x1000, 0x1000, 0x2000, 0x20000, MEM_COMMIT, 4, 4);
    assert!(w.advance(Some(p)).is_some());
    assert_eq!(w.address, 0x3000);
    assert!(!w.finished);
    let empty = MemoryPage::from_basic_info(0x3000, 0, 0, 0, 0x10000, 1, 0);
    assert!(!empty.is_commit());
    assert!(w.advance(Some(empty)).is_some());
    assert!(w.finished);
    let mut v = MemoryWalk::new(usize::MAX - 0xfff);
    v.advance(Some(MemoryPage::from_basic_info(0, 0, 0x2000, 0, 0, 0, 0)));
    assert!(v.finished);
    assert_eq!(v.address, usize::MAX - 0xfff);
    let mut u = MemoryWalk::new(5);
    assert!(u.advance(None).is_none());
    assert!(u.finished);
}
