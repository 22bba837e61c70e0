use udbg::module::{
    eq_ignore_ascii_case, find_module_by_name, find_module_ignore_case, loaded_module_bases,
    modules_from_maps, parse_maps, Module,
};

const MAPS: &[u8] = b"00400000-00401000 r--p 00000000 08:02 11 /usr/bin/cat\n\
00401000-00405000 r-xp 00001000 08:02 11 /usr/bin/cat\n\
00405000-00406000 rw-p 00000000 00:00 0\n\
7f000000-7f002000 r--p 00000000 08:02 12 /usr/lib/libc.so.6\n\
7f002000-7f003000 r-xp 00002000 08:02 12 /usr/lib/libc.so.6\n\
7f003000-7f004000 r--p 00000000 08:02 11 /usr/bin/cat\n\
7ffd0000-7ffd1000 rw-p 00000000 00:00 0 [stack]\n\
garbage line\n";

#[test]
fn maps_records_skip_bad_lines() {
    let rs = parse_maps(MAPS);
    assert_eq!(rs.len(), 7);
    assert_eq!(rs[2].path, Vec::<u8>::new());
}

#[test]
fn modules_fold_neighbouring_lines() {
    let ms = modules_from_maps(MAPS).unwrap();
    assert_eq!(ms.len(), 3);
    assert_eq!((ms[0].base, ms[0].size), (0x400000, 0x5000));
    assert_eq!(ms[0].name, "cat");
    assert_eq!(ms[0].path, "/usr/bin/cat");
    assert_eq!((ms[1].base, ms[1].size), (0x7f000000, 0x3000));
    assert_eq!(ms[1].name, "libc.so.6");
    // not adjacent to the first run: a module of its own
    assert_eq!((ms[2].base, ms[2].size), (0x7f003000, 0x1000));
    assert_eq!(ms[0].as_range(), 0x400000..0x405000);
    assert_eq!(ms[0].id, None);
}

#[test]
fn module_fold_takes_least_base() {
    let ms = modules_from_maps(b"3000-4000 r--p 0 08:02 1 /a/b\n1000-2000 r--p 0 08:02 1 /a/b").unwrap();
    assert_eq!(ms.len(), 1);
    assert_eq!((ms[0].base, ms[0].size), (0x1000, 0x2000));
}

#[test]
fn module_fold_too_large() {
    let half = format!("{:x}", usize::MAX / 2 + 1);
    let text = format!("0-{h} r--p 0 08:02 1 /big\n0-{h} r--p 0 08:02 1 /big\n", h = half);
    assert!(modules_from_maps(text.as_bytes()).is_none());
    assert_eq!(modules_from_maps(b"").unwrap().len(), 0);
}

fn module(name: &str, base: usize) -> Module {
    Module { base, size: 0x1000, name: name.to_string(), path: format!("/lib/{}", name), id: None }
}

#[test]
fn find_module_first_exact_match() {
    let ms = vec![module("a.so", 1), module("B.so", 2), module("B.so", 3)];
    assert_eq!(find_module_by_name(&ms, "B.so").unwrap().base, 2);
    assert!(find_module_by_name(&ms, "b.so").is_none());
    assert!(find_module_by_name(&[].to_vec(), "a.so").is_none());
}

#[test]
fn find_module_ignoring_case() {
    let ms = vec![module("ntdll.dll", 1), module("KERNEL32.DLL", 2)];
    assert_eq!(find_module_ignore_case(&ms, "kernel32.dll").unwrap().base, 2);
    assert!(find_module_ignore_case(&ms, "user32.dll").is_none());
    assert!(eq_ignore_ascii_case("Notepad.EXE", "notepad.exe"));
    assert!(!eq_ignore_ascii_case("notepad.ex", "notepad.exe"));
    assert!(!eq_ignore_ascii_case("[", "{"));
}

#[test]
fn module_list_drops_zero_entries() {
    assert_eq!(loaded_module_bases(&vec![0, 0x1000, 0, 0x2000]), vec![0x1000, 0x2000]);
    assert_eq!(loaded_module_bases(&vec![]), Vec::<usize>::new());
}
