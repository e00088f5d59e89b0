use procmaps::line::decode_line;
use procmaps::{
    parse_from_contents, parse_from_text, AddressRange, DecodeErrorKind, Device, Error, FieldName,
    MemoryMap, Pathname, Permissions,
};

fn chars(s: &str) -> Vec<char> {
    s.chars().collect()
}

fn one(line: &str) -> MemoryMap {
    let maps = parse_from_text(line).expect("line decodes");
    assert_eq!(maps.len(), 1);
    maps.into_iter().next().unwrap()
}

fn kind_of(text: &str) -> DecodeErrorKind {
    parse_from_text(text).expect_err("text does not decode").kind
}

#[test]
fn cat_line_decodes() {
    let m = one("00400000-00452000 r-xp 00000000 08:01 1234  /bin/cat");
    assert_eq!(m.address_range, AddressRange { begin: 0x00400000, end: 0x00452000 });
    assert_eq!(m.begin_address(), 0x00400000);
    assert_eq!(m.end_address(), 0x00452000);
    assert!(m.is_readable());
    assert!(!m.is_writable());
    assert!(m.is_executable());
    assert!(m.is_private());
    assert!(!m.is_shared());
    assert_eq!(m.offset(), 0);
    assert_eq!(m.device(), (8, 1));
    assert_eq!(m.inode(), 1234);
    assert_eq!(m.pathname, Pathname::Path("/bin/cat".to_string()));
    assert_eq!(m.pathname(), Some("/bin/cat".to_string()));
}

#[test]
fn libc_line_decodes() {
    let m = one("7f2c3a000000-7f2c3a021000 r--p 00000000 08:01 1234567  /usr/lib/libc.so.6");
    assert_eq!(m.begin_address(), 0x7f2c3a000000);
    assert_eq!(m.end_address(), 0x7f2c3a021000);
    assert_eq!(m.inode(), 1234567);
    assert_eq!(m.pathname(), Some("/usr/lib/libc.so.6".to_string()));
}

#[test]
fn permissions_r_xp() {
    let m = one("00400000-00452000 r-xp 00000000 08:01 0");
    assert_eq!(
        m.permissions,
        Permissions { readable: true, writable: false, executable: true, shared: false, private: true }
    );
}

#[test]
fn permissions_rwxs() {
    let m = one("00400000-00452000 rwxs 00000000 08:01 0");
    assert_eq!(
        m.permissions,
        Permissions { readable: true, writable: true, executable: true, shared: true, private: false }
    );
}

#[test]
fn permissions_bad_fourth_letter() {
    assert_eq!(
        kind_of("00400000-00452000 rwxq 00000000 08:01 0"),
        DecodeErrorKind::IllegalPermission { position: 3, letter: 'q' }
    );
}

#[test]
fn permissions_bad_first_letter() {
    let e = parse_from_text("00400000-00452000 w-xp 00000000 08:01 0").unwrap_err();
    assert_eq!(e.kind, DecodeErrorKind::IllegalPermission { position: 0, letter: 'w' });
    assert_eq!(e.text, "w-xp");
}

#[test]
fn permissions_wrong_length() {
    assert_eq!(
        kind_of("00400000-00452000 r-x 00000000 08:01 0"),
        DecodeErrorKind::PermissionsLength { length: 3 }
    );
}

#[test]
fn device_is_hexadecimal() {
    let m = one("00400000-00452000 r-xp 00000000 08:01 0");
    assert_eq!(m.device, Device { major: 8, minor: 1 });
    let m = one("00400000-00452000 r-xp 00000000 fd:1a 0");
    assert_eq!(m.device(), (0xfd, 0x1a));
}

#[test]
fn device_without_colon() {
    let e = parse_from_text("00400000-00452000 r-xp 00000000 0801 0").unwrap_err();
    assert_eq!(e.kind, DecodeErrorKind::MalformedDevice);
    assert_eq!(e.text, "0801");
}

#[test]
fn device_with_two_colons() {
    assert_eq!(kind_of("00400000-00452000 r-xp 00000000 08:01:02 0"), DecodeErrorKind::MalformedDevice);
}

#[test]
fn device_half_not_hex() {
    let e = parse_from_text("00400000-00452000 r-xp 00000000 0g:01 0").unwrap_err();
    assert_eq!(e.kind, DecodeErrorKind::MalformedInteger { field: FieldName::Device });
    assert_eq!(e.text, "0g");
}

#[test]
fn width_mismatch_is_its_own_error() {
    let e = parse_from_text("400000-7fff00452000 r-xp 00000000 08:01 0").unwrap_err();
    assert_eq!(e.kind, DecodeErrorKind::WidthMismatch { begin_width: 6, end_width: 12 });
    assert_ne!(e.kind, DecodeErrorKind::MalformedInteger { field: FieldName::Address });
}

#[test]
fn address_not_hex() {
    let e = parse_from_text("0040z000-00452000 r-xp 00000000 08:01 0").unwrap_err();
    assert_eq!(e.kind, DecodeErrorKind::MalformedInteger { field: FieldName::Address });
    assert_eq!(e.text, "0040z000");
}

#[test]
fn address_without_dash() {
    assert_eq!(
        kind_of("0040000000452000 r-xp 00000000 08:01 0"),
        DecodeErrorKind::MalformedInteger { field: FieldName::Address }
    );
}

#[test]
fn address_overflow() {
    assert_eq!(
        kind_of("10000000000000000-10000000000000001 r-xp 00000000 08:01 0"),
        DecodeErrorKind::MalformedInteger { field: FieldName::Address }
    );
}

#[test]
fn largest_address() {
    let m = one("fffffffffffffffe-ffffffffffffffff r-xp ffffffffffffffff 08:01 18446744073709551615");
    assert_eq!(m.begin_address(), u64::MAX - 1);
    assert_eq!(m.end_address(), u64::MAX);
    assert_eq!(m.offset(), u64::MAX);
    assert_eq!(m.inode(), u64::MAX);
}

#[test]
fn inode_is_decimal() {
    assert_eq!(
        kind_of("00400000-00452000 r-xp 00000000 08:01 12ab"),
        DecodeErrorKind::MalformedInteger { field: FieldName::Inode }
    );
    assert_eq!(one("00400000-00452000 r-xp 00000000 08:01 0").inode(), 0);
}

#[test]
fn offset_not_hex() {
    assert_eq!(
        kind_of("00400000-00452000 r-xp 0000x000 08:01 0"),
        DecodeErrorKind::MalformedInteger { field: FieldName::Offset }
    );
}

#[test]
fn uppercase_hex_accepted() {
    let m = one("7FFF0000-7FFF1000 r-xp 0000ABCD 0A:0B 0");
    assert_eq!(m.begin_address(), 0x7fff0000);
    assert_eq!(m.offset(), 0xabcd);
    assert_eq!(m.device(), (10, 11));
}

#[test]
fn missing_fields() {
    let e = parse_from_text("00400000-00452000 r-xp").unwrap_err();
    assert_eq!(e.kind, DecodeErrorKind::MissingField { missing: 3 });
    assert_eq!(e.line, "00400000-00452000 r-xp");
    assert_eq!(e.line_number, 1);
}

#[test]
fn whitespace_only_line_is_missing_fields() {
    assert_eq!(kind_of("   "), DecodeErrorKind::MissingField { missing: 5 });
}

#[test]
fn empty_input_is_empty() {
    assert_eq!(parse_from_text(""), Ok(vec![]));
    assert_eq!(parse_from_text("\n\n"), Ok(vec![]));
}

#[test]
fn pseudo_paths() {
    let cases = [
        ("[stack]", Pathname::Stack),
        ("[vdso]", Pathname::Vdso),
        ("[vvar]", Pathname::Vvar),
        ("[vsyscall]", Pathname::Vsyscall),
        ("[heap]", Pathname::Heap),
        ("[anon:libc_malloc]", Pathname::OtherPseudo("[anon:libc_malloc]".to_string())),
    ];
    for (text, want) in cases {
        let m = one(&format!("00400000-00452000 rw-p 00000000 00:00 0   {}", text));
        assert_eq!(m.pathname, want);
        assert_eq!(m.pathname(), Some(text.to_string()));
    }
}

#[test]
fn anonymous_mapping() {
    let m = one("00400000-00452000 rw-p 00000000 00:00 0");
    assert_eq!(m.pathname, Pathname::Mmap);
    assert_eq!(m.pathname(), None);
    let m = one("00400000-00452000 rw-p 00000000 00:00 0    \t ");
    assert_eq!(m.pathname, Pathname::Mmap);
}

#[test]
fn path_keeps_inner_spaces() {
    let m = one("00400000-00452000 r--p 00000000 08:01 77 \t/tmp/a b (deleted)  ");
    assert_eq!(m.pathname, Pathname::Path("/tmp/a b (deleted)".to_string()));
}

#[test]
fn leading_whitespace_tolerated() {
    let m = one("  \t00400000-00452000 r--p 00000000 08:01 77");
    assert_eq!(m.begin_address(), 0x400000);
}

#[test]
fn lines_keep_their_order() {
    let text = "00400000-00452000 r-xp 00000000 08:01 1 /bin/cat\n\
                00652000-00653000 rw-p 00052000 08:01 2 /bin/cat\n\
                \n\
                01a6d000-01a8e000 rw-p 00000000 00:00 0 [heap]\n";
    let maps = parse_from_text(text).unwrap();
    let inodes: Vec<u64> = maps.iter().map(|m| m.inode()).collect();
    assert_eq!(inodes, vec![1, 2, 0]);
    assert_eq!(maps[2].pathname, Pathname::Heap);
}

#[test]
fn concatenated_texts_concatenate_maps() {
    let a = "00400000-00452000 r-xp 00000000 08:01 1 /bin/cat\n";
    let b = "00652000-00653000 rw-p 00052000 08:01 2\n01a6d000-01a8e000 rw-p 00000000 00:00 3";
    let mut want = parse_from_text(a).unwrap();
    want.extend(parse_from_text(b).unwrap());
    assert_eq!(parse_from_text(&format!("{}{}", a, b)).unwrap(), want);
}

#[test]
fn first_bad_line_is_reported() {
    let text = "00400000-00452000 r-xp 00000000 08:01 1\n\nbad line here\n00400000-00452000 r-xp";
    let e = parse_from_text(text).unwrap_err();
    assert_eq!(e.line_number, 3);
    assert_eq!(e.line, "bad line here");
    assert_eq!(e.kind, DecodeErrorKind::MissingField { missing: 2 });
}

#[test]
fn contains_is_half_open() {
    let m = one("00400000-00452000 r-xp 00000000 08:01 1");
    assert!(m.contains(0x400000));
    assert!(m.contains(0x451fff));
    assert!(!m.contains(0x452000));
    assert!(!m.contains(0x3fffff));
}

#[test]
fn decode_line_reports_field_span() {
    let line = chars("00400000-00452000 r-xp 00000000 08:zz 1");
    let f = decode_line(&line).unwrap_err();
    assert_eq!(f.kind, DecodeErrorKind::MalformedInteger { field: FieldName::Device });
    assert_eq!((f.lo, f.hi), (35, 37));
}

#[test]
fn read_failure_stays_io() {
    let err = std::io::Error::new(std::io::ErrorKind::NotFound, "no such process");
    match parse_from_contents(Err(err)) {
        Err(Error::Io(e)) => assert_eq!(e.kind(), std::io::ErrorKind::NotFound),
        other => panic!("expected an I/O error, got {:?}", other),
    }
}

#[test]
fn read_text_is_decoded() {
    let ok = parse_from_contents(Ok("00400000-00452000 r-xp 00000000 08:01 1\n".to_string()));
    assert_eq!(ok.unwrap().len(), 1);
    match parse_from_contents(Ok("garbage".to_string())) {
        Err(Error::Decode(d)) => assert_eq!(d.kind, DecodeErrorKind::MissingField { missing: 4 }),
        other => panic!("expected a decode error, got {:?}", other),
    }
}

#[test]
fn reversed_range_is_rejected() {
    let e = parse_from_text("00452000-00400000 r-xp 00000000 00:00 0").unwrap_err();
    assert_eq!(e.kind, DecodeErrorKind::ReversedRange);
    assert_eq!(e.text, "00452000-00400000");
    assert_eq!(e.line_number, 1);
}

#[test]
fn empty_range_is_accepted() {
    let m = one("00400000-00400000 r-xp 00000000 00:00 0");
    assert_eq!(m.begin_address(), m.end_address());
}

#[test]
fn many_lines_in_order() {
    let lines = [
        "00400000-00452000 r-xp 00000000 08:01 11 /bin/cat",
        "00652000-00653000 rw-p 00052000 08:01 12 /bin/cat",
        "7ffd1c000000-7ffd1c021000 rw-p 00000000 00:00 0 [stack]",
        "ffffffffff600000-ffffffffff601000 --xp 00000000 00:00 0 [vsyscall]",
    ];
    let maps = parse_from_text(&lines.join("\n")).unwrap();
    assert_eq!(maps.len(), lines.len());
    for (m, l) in maps.iter().zip(lines.iter()) {
        assert_eq!(m, &one(l));
    }
}
