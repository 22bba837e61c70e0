use udbg::device_path::{mapped_file_name, to_dos_path, DriveMapping};
use udbg::exception::{ExceptionRecord, RawException};
use udbg::launch::{build_command_line, ProcThreadAttributeValue};
use udbg::pe::{nt_header_address, nt_signature_ok};
use udbg::process_info::ProcessInfo;
use udbg::symbol::{demangle_flags, Symbol, UNDEC_NAME_ONLY, UNDEC_RETN};

fn wide(s: &str) -> Vec<u16> {
    s.encode_utf16().collect()
}

#[test]
fn parent_process_attribute_value() {
    assert_eq!(ProcThreadAttributeValue(0, 0, 1, 0), 0x20000);
    assert_eq!(ProcThreadAttributeValue(0x12345, 1, 0, 1), 0x2345 | 0x10000 | 0x40000);
}

#[test]
fn command_line_quotes_paths_with_spaces() {
    assert_eq!(build_command_line("  C:\\Program Files\\a.exe ", &["-x", "y"]), "\"C:\\Program Files\\a.exe\" -x y");
    assert_eq!(build_command_line("C:\\Windows\\System32\\notepad.exe", &[]), "C:\\Windows\\System32\\notepad.exe");
    assert_eq!(build_command_line("a.exe", &["one"]), "a.exe one");
}

#[test]
fn exception_copy_takes_parameters() {
    let mut rec = ExceptionRecord::default();
    rec.params[5] = 77;
    let mut info = [0u64; 15];
    info[0] = 1;
    info[1] = 0xdead;
    info[5] = 99;
    let raw = RawException { code: 0xC0000005, flags: 1, record: 0, address: 0x401000, number_parameters: 2, information: info };
    rec.copy(&raw);
    assert_eq!(rec.code, 0xC0000005);
    assert_eq!(rec.flags, 1);
    assert_eq!(rec.address, 0x401000);
    assert_eq!(rec.param_num, 2);
    assert_eq!(&rec.params[..2], &[1, 0xdead]);
    assert_eq!(rec.params[5], 77);
}

#[test]
fn undecorate_flags_and_result() {
    assert_eq!(demangle_flags(UNDEC_NAME_ONLY), 0x1000);
    assert_eq!(demangle_flags(0), 0x4);
    assert_eq!(demangle_flags(UNDEC_RETN), 0);
    assert!(Symbol::can_undecorate("?f@@YAHQBH@Z"));
    assert_eq!(Symbol::undecorate("?f@@YAHQBH@Z", UNDEC_RETN).as_deref(), Some("int __cdecl f(int const * const)"));
    let short = Symbol::undecorate("?f@@YAHQBH@Z", 0).unwrap();
    assert!(!short.starts_with("int "));
    assert!(Symbol::can_undecorate("main"));
    assert!(Symbol::undecorate("main", 0).is_none());
}

#[test]
fn pe_header_checks() {
    let mut dos = vec![0u8; 64];
    dos[0] = b'M';
    dos[1] = b'Z';
    dos[0x3c] = 0xe8;
    assert_eq!(nt_header_address(0x10000, &dos), Some(0x100e8));
    dos[0x3f] = 0x80;
    assert_eq!(nt_header_address(0x10000, &dos), None);
    dos[0x3f] = 0;
    dos[0] = b'X';
    assert_eq!(nt_header_address(0x10000, &dos), None);
    assert_eq!(nt_header_address(0, &dos[..10]), None);
    assert!(nt_signature_ok(b"PE\0\0rest"));
    assert!(!nt_signature_ok(b"PE\0"));
    assert!(!nt_signature_ok(b"PX\0\0"));
}

#[test]
fn device_paths_become_drive_paths() {
    let maps = vec![
        DriveMapping { drive: wide("D:"), device: wide("\\Device\\HarddiskVolume1") },
        DriveMapping { drive: wide("C:"), device: wide("\\Device\\HarddiskVolume3") },
    ];
    let p = wide("\\Device\\HarddiskVolume3\\Windows\\notepad.exe");
    assert_eq!(to_dos_path(&p, &maps), Some(wide("C:\\Windows\\notepad.exe")));
    let q = wide("\\Device\\HarddiskVolume30\\x");
    assert_eq!(to_dos_path(&q, &maps), None);
    assert_eq!(mapped_file_name(&q, &maps), q);
    assert_eq!(mapped_file_name(&p, &maps), wide("C:\\Windows\\notepad.exe"));
}

#[test]
fn process_info_snapshot() {
    let i = ProcessInfo::from_snapshot(4, "System".to_string(), None, None, None);
    assert_eq!((i.pid, i.name.as_str(), i.path.as_str(), i.cmdline.as_str(), i.wow64), (4, "System", "", "", false));
    let j = ProcessInfo::from_snapshot(8, "a.exe".into(), Some(true), Some("C:\\a.exe".into()), Some("a.exe -v".into()));
    assert_eq!((j.path.as_str(), j.cmdline.as_str(), j.wow64), ("C:\\a.exe", "a.exe -v", true));
}

#[test]
fn undecorate_input_limits() {
    // a guard number of ten digits would overflow the demangler's counter
    assert!(!Symbol::can_undecorate("?$TSS9999999999@"));
    assert_eq!(Symbol::undecorate_checked("?$TSS9999999999@", 0), None);
    assert!(Symbol::can_undecorate("?$TSS999999999@"));
    let _ = Symbol::undecorate_checked("?$TSS999999999@", 0);
    // a string-literal escape with a nibble below 'A'
    assert!(!Symbol::can_undecorate("??_C@_0BB@ABCD@a?$0A@"));
    assert!(Symbol::can_undecorate("??_C@_0BB@ABCD@a?$BA@"));
    let _ = Symbol::undecorate_checked("??_C@_0BB@ABCD@a?$BA@", 0);
    // template arguments before any string code are not restricted
    assert!(Symbol::can_undecorate("??$f@H@@YAXH@Z"));
    let long = format!("?x@@3{}HA", "P".repeat(130));
    assert!(!Symbol::can_undecorate(&long));
    assert_eq!(Symbol::undecorate_checked(&long, 0), None);
}

#[test]
fn undecorate_deepest_nesting_returns() {
    for unit in ["P", "PA", "PEA", "AA", "P6A", "QAY0A@", "V?$a@", "$$A6", "P8a@@AE"] {
        let mut sym = String::from("?x@@3");
        while sym.len() + unit.len() <= 126 {
            sym.push_str(unit);
        }
        sym.push_str("HA");
        assert!(Symbol::can_undecorate(&sym));
        let _ = Symbol::undecorate(&sym, UNDEC_RETN);
    }
}
