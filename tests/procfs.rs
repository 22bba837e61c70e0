use udbg::procfs::{cmdline_bytes, environ_bytes, process_cmdline_from, process_environ_from, split_env_entry, split_nul};

#[test]
fn split_nul_keeps_empty_pieces() {
    let r = split_nul(b"a\0\0bc\0");
    assert_eq!(r, vec![b"a".to_vec(), vec![], b"bc".to_vec(), vec![]]);
    assert_eq!(split_nul(b""), vec![Vec::<u8>::new()]);
}

#[test]
fn cmdline_trims_trailing_empty() {
    let r = process_cmdline_from(b"/bin/true\0--flag\0\0\0");
    assert_eq!(r, vec!["/bin/true".to_string(), "--flag".to_string()]);
    assert_eq!(cmdline_bytes(b"\0\0"), Vec::<Vec<u8>>::new());
    assert_eq!(process_cmdline_from(b""), Vec::<String>::new());
}

#[test]
fn cmdline_keeps_inner_empty() {
    let r = process_cmdline_from(b"prog\0\0arg\0");
    assert_eq!(r, vec!["prog".to_string(), String::new(), "arg".to_string()]);
}

#[test]
fn cmdline_rejoin_round_trip() {
    let parts = cmdline_bytes(b"x\0\0yz\0\0");
    assert!(parts.last().map(|p| !p.is_empty()).unwrap_or(true));
    let joined = parts.join(&0u8);
    assert_eq!(split_nul(&joined), parts);
    // none at all: the split of the empty join is one empty piece
    let none = cmdline_bytes(b"\0");
    assert_eq!(split_nul(&none.join(&0u8)), vec![Vec::<u8>::new()]);
}

#[test]
fn cmdline_invalid_utf8_is_replaced() {
    let r = process_cmdline_from(b"a\xffb\0");
    assert_eq!(r, vec!["a\u{FFFD}b".to_string()]);
}

#[test]
fn environ_splits_at_first_equals() {
    let r = process_environ_from(b"PATH=/bin:/usr/bin\0OPT=a=b\0NOEQ\0EMPTY=\0");
    assert_eq!(
        r,
        vec![
            ("PATH".to_string(), "/bin:/usr/bin".to_string()),
            ("OPT".to_string(), "a=b".to_string()),
            ("EMPTY".to_string(), String::new()),
        ]
    );
    assert_eq!(environ_bytes(b"").len(), 0);
}

#[test]
fn env_entry_without_equals() {
    assert_eq!(split_env_entry(&b"abc".to_vec()), None);
    assert_eq!(split_env_entry(&b"=x".to_vec()), Some((vec![], b"x".to_vec())));
}
