use licensesnip::ApplyOutcome;
use licensesnip::apply_header;
use licensesnip::join_with_newlines;
use licensesnip::replace_all_bytes;

#[test]
fn header_added_before_existing_content() {
    let content = b"fn main() {}\n".to_vec();
    let header = b"// Copyright 2022 main.rs".to_vec();
    match apply_header(&content, &header) {
        ApplyOutcome::Added { new_content } => {
            assert_eq!(new_content, b"// Copyright 2022 main.rs\nfn main() {}\n".to_vec());
        }
        ApplyOutcome::AlreadyPresent => panic!("header was not present yet"),
    }
}

#[test]
fn applying_twice_changes_nothing_further() {
    let content = b"fn main() {}\n".to_vec();
    let header = b"// Copyright 2022 main.rs".to_vec();
    let once = match apply_header(&content, &header) {
        ApplyOutcome::Added { new_content } => new_content,
        ApplyOutcome::AlreadyPresent => panic!("header was not present yet"),
    };
    match apply_header(&once, &header) {
        ApplyOutcome::Added { .. } => panic!("second application must find the header"),
        ApplyOutcome::AlreadyPresent => {}
    }
}

#[test]
fn content_equal_to_header_counts_as_present() {
    let header = b"# license".to_vec();
    let content = b"# license".to_vec();
    assert!(matches!(apply_header(&content, &header), ApplyOutcome::AlreadyPresent));
}

#[test]
fn header_prefix_without_line_boundary_is_not_present() {
    let header = b"// a".to_vec();
    let content = b"// abc".to_vec();
    match apply_header(&content, &header) {
        ApplyOutcome::Added { new_content } => {
            assert_eq!(new_content, b"// a\n// abc".to_vec());
        }
        ApplyOutcome::AlreadyPresent => panic!("leading line differs from the header"),
    }
}

#[test]
fn empty_file_gets_header_and_newline() {
    let content = Vec::new();
    let header = b"-- h".to_vec();
    match apply_header(&content, &header) {
        ApplyOutcome::Added { new_content } => assert_eq!(new_content, b"-- h\n".to_vec()),
        ApplyOutcome::AlreadyPresent => panic!("empty file holds no header"),
    }
}

#[test]
fn multi_line_header_presence_check() {
    let header = join_with_newlines(&vec![b"/*".to_vec(), b"x".to_vec(), b"*/".to_vec()]);
    assert_eq!(header, b"/*\nx\n*/".to_vec());
    let content = b"/*\nx\n*/\ncode".to_vec();
    assert!(matches!(apply_header(&content, &header), ApplyOutcome::AlreadyPresent));
}

#[test]
fn join_with_newlines_edges() {
    let empty: Vec<Vec<u8>> = Vec::new();
    assert_eq!(join_with_newlines(&empty), Vec::<u8>::new());
    assert_eq!(join_with_newlines(&vec![b"solo".to_vec()]), b"solo".to_vec());
    assert_eq!(
        join_with_newlines(&vec![b"a".to_vec(), b"".to_vec(), b"c".to_vec()]),
        b"a\n\nc".to_vec()
    );
}

#[test]
fn replace_all_scans_left_to_right_without_overlap() {
    assert_eq!(
        replace_all_bytes(&b"ababab".to_vec(), &b"ab".to_vec(), &b"c".to_vec()),
        b"ccc".to_vec()
    );
    assert_eq!(
        replace_all_bytes(&b"aaa".to_vec(), &b"aa".to_vec(), &b"b".to_vec()),
        b"ba".to_vec()
    );
    assert_eq!(
        replace_all_bytes(&b"xyz".to_vec(), &b"".to_vec(), &b"q".to_vec()),
        b"xyz".to_vec()
    );
    assert_eq!(
        replace_all_bytes(&b"xyz".to_vec(), &b"nope".to_vec(), &b"q".to_vec()),
        b"xyz".to_vec()
    );
}
