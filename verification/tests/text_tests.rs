use paira_shell::text::{
    bytes_eq, contains, copy_bytes, find_byte, first_line_containing, first_line_with_prefix,
    last_token, second_field, split_lines, starts_with, trim,
};

#[test]
fn trim_removes_surrounding_whitespace() {
    assert_eq!(trim(&b" \t hello \r\n".to_vec()), b"hello".to_vec());
    assert_eq!(trim(&b"no-space".to_vec()), b"no-space".to_vec());
    assert_eq!(trim(&b"  \r\n\t ".to_vec()), Vec::<u8>::new());
    assert_eq!(trim(&Vec::new()), Vec::<u8>::new());
    assert_eq!(trim(&b"a b".to_vec()), b"a b".to_vec());
}

#[test]
fn split_lines_handles_crlf_and_final_newline() {
    let lines = split_lines(&b"one\r\ntwo\nthree".to_vec());
    assert_eq!(lines, vec![b"one".to_vec(), b"two".to_vec(), b"three".to_vec()]);
    let lines = split_lines(&b"one\r\ntwo\r\n".to_vec());
    assert_eq!(lines, vec![b"one".to_vec(), b"two".to_vec()]);
    let lines = split_lines(&b"a\n\nb\n".to_vec());
    assert_eq!(lines, vec![b"a".to_vec(), Vec::new(), b"b".to_vec()]);
    assert_eq!(split_lines(&Vec::new()), Vec::<Vec<u8>>::new());
    // A carriage return not followed by a newline stays.
    assert_eq!(split_lines(&b"a\r".to_vec()), vec![b"a\r".to_vec()]);
}

#[test]
fn second_field_reads_key_value_lines() {
    assert_eq!(second_field(&b"UUID=ABC".to_vec(), b'='), Some(b"ABC".to_vec()));
    assert_eq!(second_field(&b"UUID=A=B".to_vec(), b'='), Some(b"A".to_vec()));
    assert_eq!(second_field(&b"UUID=".to_vec(), b'='), Some(Vec::new()));
    assert_eq!(second_field(&b"no separator".to_vec(), b'='), None);
}

#[test]
fn last_token_takes_the_final_word() {
    assert_eq!(
        last_token(&b"    MachineGuid    REG_SZ    the-guid".to_vec()),
        Some(b"the-guid".to_vec())
    );
    assert_eq!(last_token(&b"single".to_vec()), Some(b"single".to_vec()));
    assert_eq!(last_token(&b"word then spaces   ".to_vec()), Some(b"spaces".to_vec()));
    assert_eq!(last_token(&b"   ".to_vec()), None);
    assert_eq!(last_token(&Vec::new()), None);
}

#[test]
fn searching_lines_finds_the_first_match() {
    let lines = split_lines(&b"junk\nUUID=first\nUUID=second\n".to_vec());
    let hit = first_line_with_prefix(&lines, &b"UUID=".to_vec());
    assert_eq!(hit, Some(b"UUID=first".to_vec()));
    assert_eq!(first_line_with_prefix(&lines, &b"Name=".to_vec()), None);

    let hit = first_line_containing(&lines, &b"second".to_vec());
    assert_eq!(hit, Some(b"UUID=second".to_vec()));
    assert_eq!(first_line_containing(&lines, &b"absent".to_vec()), None);
}

#[test]
fn byte_predicates_behave() {
    assert!(starts_with(&b"UUID=xyz".to_vec(), &b"UUID=".to_vec()));
    assert!(!starts_with(&b"UUI".to_vec(), &b"UUID=".to_vec()));
    assert!(contains(&b"key MachineGuid value".to_vec(), &b"MachineGuid".to_vec()));
    assert!(!contains(&b"nothing here".to_vec(), &b"MachineGuid".to_vec()));
    assert!(bytes_eq(&b"same".to_vec(), &b"same".to_vec()));
    assert!(!bytes_eq(&b"same".to_vec(), &b"different".to_vec()));
    assert_eq!(find_byte(&b"a=b".to_vec(), b'='), 1);
    assert_eq!(find_byte(&b"abc".to_vec(), b'='), 3);
    assert_eq!(copy_bytes(&b"copy".to_vec()), b"copy".to_vec());
}
