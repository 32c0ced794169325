use llm_globber::signature::{generate_keypair, verify_signature, KeyPair};
use llm_globber::writer::{
    conclude, encode_archive, make_entry, process_file, run_scraper, write_entry,
    write_file_content, write_preamble, ArchiveEntry, ArchiveWriter, EncodeError, SourceFile,
    WriteSummary,
};

const SECRET: [u8; 32] = [
    157, 97, 177, 157, 239, 253, 90, 96, 186, 132, 74, 244, 146, 236, 44, 196, 68, 73, 197, 105,
    123, 50, 105, 25, 112, 59, 172, 3, 28, 174, 127, 96,
];

fn file(path: &str, content: &[u8]) -> SourceFile {
    SourceFile { path: path.as_bytes().to_vec(), content: content.to_vec() }
}

fn count(haystack: &[u8], needle: &[u8]) -> usize {
    haystack.windows(needle.len()).filter(|w| *w == needle).count()
}

#[test]
fn a_text_entry_has_a_header_its_content_a_terminator_and_a_blank_line() {
    assert_eq!(
        write_file_content(b"a.c", b"int x;\n", false, None),
        b"'''--- a.c ---\nint x;\n\n'''\n\n".to_vec()
    );
    assert_eq!(
        write_file_content(b"a.c", b"int x;", false, None),
        b"'''--- a.c ---\nint x;\n'''\n\n".to_vec()
    );
    assert_eq!(write_file_content(b"a.c", b"", false, None), b"'''--- a.c ---\n\n'''\n\n".to_vec());
}

#[test]
fn a_binary_entry_has_a_header_and_the_sentinel() {
    assert_eq!(
        write_file_content(b"a.bin", &[0u8; 100], true, None),
        b"'''--- a.bin ---\n[Binary file - contents omitted]\n".to_vec()
    );
    assert_eq!(
        process_file(b"a.bin", &[0u8; 100], None),
        b"'''--- a.bin ---\n[Binary file - contents omitted]\n".to_vec()
    );
}

#[test]
fn a_binary_entry_is_never_signed() {
    let keypair = generate_keypair();
    assert_eq!(
        process_file(b"a.bin", &[0u8; 100], Some(&keypair)),
        b"'''--- a.bin ---\n[Binary file - contents omitted]\n".to_vec()
    );
    let entry = make_entry(b"a.bin", b"text", true, Some(&keypair));
    assert_eq!(entry.signature, None);
    assert!(entry.is_binary);
}

#[test]
fn content_that_is_not_utf8_is_replaced_as_a_whole() {
    assert_eq!(
        write_file_content(b"a.txt", b"caf\xe9 au lait\n", false, None),
        b"'''--- a.txt ---\nNon-UTF8 content\n'''\n\n".to_vec()
    );
    assert_eq!(
        write_file_content(b"a.txt", "caf\u{e9}\n".as_bytes(), false, None),
        "'''--- a.txt ---\ncaf\u{e9}\n\n'''\n\n".as_bytes().to_vec()
    );
}

#[test]
fn the_signature_covers_the_content_as_it_was_given() {
    let keypair = generate_keypair();
    let public = keypair.public_key();
    let entry = make_entry(b"a.txt", b"caf\xe9\n", false, Some(&keypair));
    let signature = entry.signature.clone().unwrap();
    assert_eq!(verify_signature(&public, b"caf\xe9\n", &signature), Ok(()));
    assert!(verify_signature(&public, b"Non-UTF8 content", &signature).is_err());
    assert_eq!(entry.content, b"caf\xe9\n".to_vec());
    assert_eq!(entry.path, b"a.txt".to_vec());
    assert!(!entry.is_binary);
}

#[test]
fn a_signed_entry_carries_its_signature_in_the_header() {
    let keypair = KeyPair::from_secret(SECRET);
    assert_eq!(
        process_file(b"a.c", b"int x;\n", Some(&keypair)),
        b"'''--- a.c --- [SIGNATURE:5YnFilFL1kUv/FDi09NLY2MHoff/RZWpbpwnKQ099/1PYrdiBUyOPCJmah7zRNj/GxQO4gj+gJwGJNOZA7nCBA==]\nint x;\n\n'''\n\n".to_vec()
    );
}

#[test]
fn an_entry_is_written_as_it_stands() {
    let entry = ArchiveEntry {
        path: b"x".to_vec(),
        content: b"y".to_vec(),
        is_binary: false,
        signature: Some(b"c2ln".to_vec()),
    };
    assert_eq!(write_entry(&entry), b"'''--- x --- [SIGNATURE:c2ln]\ny\n'''\n\n".to_vec());
}

#[test]
fn the_preamble_is_the_key_record() {
    let keypair = KeyPair::from_secret(SECRET);
    assert_eq!(
        write_preamble(Some(&keypair)),
        b"'''--- PUBLIC_KEY --- [KEY:11qYAYKxCrfVS/7TyWQHOg7hcvPapiMlrwIaaPcHURo=]\n'''\n\n".to_vec()
    );
    assert_eq!(write_preamble(None), Vec::<u8>::new());
}

#[test]
fn no_input_yields_no_input_matched() {
    assert_eq!(encode_archive(&[], None), Err(EncodeError::NoInputMatched));
    assert_eq!(run_scraper(&[], None), Err(EncodeError::NoInputMatched));
    let keypair = generate_keypair();
    assert_eq!(encode_archive(&[], Some(&keypair)), Err(EncodeError::NoInputMatched));
    assert_eq!(conclude(0, 0, 0), Err(EncodeError::NoInputMatched));
}

#[test]
fn a_run_is_judged_by_its_counts() {
    assert_eq!(conclude(3, 3, 0), Ok(WriteSummary { processed: 3, failed: 0 }));
    assert_eq!(conclude(3, 2, 1), Ok(WriteSummary { processed: 2, failed: 1 }));
    assert_eq!(conclude(3, 0, 3), Err(EncodeError::IoFailure));
    assert!(conclude(3, 2, 1).unwrap().partial_failure());
    assert!(!conclude(3, 3, 0).unwrap().partial_failure());
}

#[test]
fn two_files_unsigned() {
    let files = [file("a.c", b"int x;\n"), file("b.h", b"void f();\n")];
    let archive = encode_archive(&files, None).unwrap();
    assert_eq!(
        archive,
        b"'''--- a.c ---\nint x;\n\n'''\n\n'''--- b.h ---\nvoid f();\n\n'''\n\n".to_vec()
    );
    assert_eq!(count(&archive, b"'''--- "), 2);
    assert_eq!(count(&archive, b"[SIGNATURE:"), 0);
    assert_eq!(count(&archive, b"PUBLIC_KEY"), 0);
    assert_eq!(run_scraper(&files, None).unwrap(), archive);
}

#[test]
fn two_files_signed() {
    let keypair = KeyPair::from_secret(SECRET);
    let files = [file("a.c", b"int x;\n"), file("b.h", b"void f();\n")];
    let archive = encode_archive(&files, Some(&keypair)).unwrap();
    let expected = "'''--- PUBLIC_KEY --- [KEY:11qYAYKxCrfVS/7TyWQHOg7hcvPapiMlrwIaaPcHURo=]\n\
                    '''\n\
                    \n\
                    '''--- a.c --- [SIGNATURE:5YnFilFL1kUv/FDi09NLY2MHoff/RZWpbpwnKQ099/1PYrdiBUyOPCJmah7zRNj/GxQO4gj+gJwGJNOZA7nCBA==]\n\
                    int x;\n\
                    \n\
                    '''\n\
                    \n\
                    '''--- b.h --- [SIGNATURE:XLcVdLj3r4vK5JSKQKH164nGJnAENJu7zdpJZqdUCKd7VFW/6BMbcwS9dkbBaL6szA2nmA7PiynHb1kamtCaCQ==]\n\
                    void f();\n\
                    \n\
                    '''\n\
                    \n";
    assert_eq!(archive, expected.as_bytes().to_vec());
    assert_eq!(count(&archive, b"PUBLIC_KEY"), 1);
    assert_eq!(count(&archive, b"[SIGNATURE:"), 2);
    let key_at = archive.windows(10).position(|w| w == b"PUBLIC_KEY").unwrap();
    let first_file_at = archive.windows(10).position(|w| w == b"'''--- a.c").unwrap();
    assert!(key_at < first_file_at);
}

#[test]
fn the_finished_archive_has_no_long_runs_of_blank_lines() {
    let files = [file("a.txt", b"a\n\n\n\n\n\nb\n")];
    assert_eq!(
        encode_archive(&files, None).unwrap(),
        b"'''--- a.txt ---\na\n\n\n\n\n\nb\n\n'''\n\n".to_vec()
    );
    assert_eq!(
        run_scraper(&files, None).unwrap(),
        b"'''--- a.txt ---\na\n\n\nb\n\n'''\n\n".to_vec()
    );
}

#[test]
fn a_writer_hands_out_the_archive_piece_by_piece() {
    let files = [file("a.c", b"int x;\n"), file("b.bin", &[0u8; 64]), file("c.h", b"void f();\n")];
    for signed in [false, true] {
        let whole = encode_archive(
            &files,
            if signed { Some(KeyPair::from_secret(SECRET)) } else { None }.as_ref(),
        )
        .unwrap();
        let (mut writer, mut pieces) =
            ArchiveWriter::open(if signed { Some(KeyPair::from_secret(SECRET)) } else { None });
        for f in &files {
            pieces.extend(writer.write_entry(&f.path, &f.content));
            writer.entry_written();
        }
        assert_eq!(pieces, whole);
        assert_eq!(writer.close(), Ok(WriteSummary { processed: 3, failed: 0 }));
    }
}

#[test]
fn a_writer_counts_what_it_is_told() {
    let (writer, preamble) = ArchiveWriter::open(None);
    assert_eq!(preamble, Vec::<u8>::new());
    assert_eq!(writer.close(), Err(EncodeError::NoInputMatched));

    let (mut writer, _) = ArchiveWriter::open(None);
    writer.entry_failed();
    writer.entry_failed();
    assert_eq!(writer.close(), Err(EncodeError::IoFailure));

    let (mut writer, _) = ArchiveWriter::open(None);
    writer.entry_written();
    writer.entry_failed();
    writer.entry_written();
    let summary = writer.close().unwrap();
    assert_eq!(summary, WriteSummary { processed: 2, failed: 1 });
    assert!(summary.partial_failure());
}
