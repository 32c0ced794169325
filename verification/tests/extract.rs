use llm_globber::extract::{
    process_extracted_file, unglob_file, write_extracted_file, EntryFailure, ExtractError,
    ExtractedFile, Extraction, Progress, SignatureStatus, UnglobError, UnglobOptions, Unglobber,
    DEFAULT_INPUT_ROOT,
};
use llm_globber::format::HeaderError;
use llm_globber::reader::{ParseError, ParsedEntry};
use llm_globber::signature::{sign_data, KeyError, KeyPair, PublicKey, VerificationError};
use llm_globber::writer::{encode_archive, run_scraper, SourceFile};

const SECRET: [u8; 32] = [
    157, 97, 177, 157, 239, 253, 90, 96, 186, 132, 74, 244, 146, 236, 44, 196, 68, 73, 197, 105,
    123, 50, 105, 25, 112, 59, 172, 3, 28, 174, 127, 96,
];

fn options(verify: bool, strict: bool) -> UnglobOptions {
    UnglobOptions {
        destination_root: b"out".to_vec(),
        input_root: DEFAULT_INPUT_ROOT.to_vec(),
        verify_signatures: verify,
        strict,
    }
}

fn file(path: &str, content: &[u8]) -> SourceFile {
    SourceFile { path: path.as_bytes().to_vec(), content: content.to_vec() }
}

fn lines(parts: &[&str]) -> Vec<Vec<u8>> {
    parts.iter().map(|p| p.as_bytes().to_vec()).collect()
}

fn extracted(recorded: &str, path: &str, content: &[u8], status: SignatureStatus) -> ExtractedFile {
    ExtractedFile {
        recorded_path: recorded.as_bytes().to_vec(),
        path: path.as_bytes().to_vec(),
        content: content.to_vec(),
        is_binary: false,
        signature: status,
    }
}

fn flip_first(archive: &mut Vec<u8>, needle: &[u8]) {
    let at = archive.windows(needle.len()).position(|w| w == needle).unwrap();
    archive[at] ^= 1;
}

#[test]
fn a_file_ends_with_a_line_feed() {
    assert_eq!(write_extracted_file(&lines(&["int x;", ""])), b"int x;\n".to_vec());
    assert_eq!(write_extracted_file(&lines(&["int x;"])), b"int x;\n".to_vec());
    assert_eq!(write_extracted_file(&lines(&["a", "b"])), b"a\nb\n".to_vec());
    assert_eq!(write_extracted_file(&lines(&["a", "", ""])), b"a\n\n".to_vec());
    assert_eq!(write_extracted_file(&lines(&[""])), b"\n".to_vec());
    assert_eq!(write_extracted_file(&lines(&["", ""])), b"\n".to_vec());
    assert_eq!(write_extracted_file(&lines(&[])), b"".to_vec());
}

#[test]
fn two_files_unsigned_are_read_back() {
    let files = [file("a.c", b"int x;\n"), file("b.h", b"void f();\n")];
    let archive = encode_archive(&files, None).unwrap();
    let report = unglob_file(&archive, &options(false, false)).unwrap();
    assert_eq!(
        report.files,
        vec![
            extracted("a.c", "out/a.c", b"int x;\n", SignatureStatus::NotChecked),
            extracted("b.h", "out/b.h", b"void f();\n", SignatureStatus::NotChecked),
        ]
    );
    assert_eq!(report.failures, vec![]);
    assert_eq!(report.refused_keys, vec![]);
    let checked = unglob_file(&archive, &options(true, true)).unwrap();
    assert_eq!(checked.files, report.files);
}

#[test]
fn two_files_signed_are_read_back_and_verified() {
    let keypair = KeyPair::from_secret(SECRET);
    let files = [file("a.c", b"int x;\n"), file("b.h", b"void f();\n")];
    let archive = run_scraper(&files, Some(&keypair)).unwrap();
    for strict in [false, true] {
        let report = unglob_file(&archive, &options(true, strict)).unwrap();
        assert_eq!(report.files.len(), 2);
        assert_eq!(report.failures.len(), 0);
        assert_eq!(
            report.files,
            vec![
                extracted("a.c", "out/a.c", b"int x;\n", SignatureStatus::Verified),
                extracted("b.h", "out/b.h", b"void f();\n", SignatureStatus::Verified),
            ]
        );
    }
    let unchecked = unglob_file(&archive, &options(false, true)).unwrap();
    assert_eq!(unchecked.files[0].signature, SignatureStatus::NotChecked);
    assert_eq!(unchecked.files[1].signature, SignatureStatus::NotChecked);
}

#[test]
fn a_tampered_entry_fails_alone_in_a_lenient_run() {
    let keypair = KeyPair::from_secret(SECRET);
    let files = [file("a.c", b"int x;\n"), file("b.h", b"void f();\n")];
    let mut archive = run_scraper(&files, Some(&keypair)).unwrap();
    flip_first(&mut archive, b"int x;");
    let report = unglob_file(&archive, &options(true, false)).unwrap();
    assert_eq!(
        report.files,
        vec![extracted("b.h", "out/b.h", b"void f();\n", SignatureStatus::Verified)]
    );
    assert_eq!(
        report.failures,
        vec![EntryFailure {
            path: b"a.c".to_vec(),
            error: ExtractError::Signature(VerificationError::VerificationFailed),
        }]
    );
}

#[test]
fn a_tampered_entry_ends_a_strict_run() {
    let keypair = KeyPair::from_secret(SECRET);
    let files = [file("a.c", b"int x;\n"), file("b.h", b"void f();\n")];
    let mut archive = run_scraper(&files, Some(&keypair)).unwrap();
    flip_first(&mut archive, b"int x;");
    assert_eq!(
        unglob_file(&archive, &options(true, true)),
        Err(UnglobError::EntryFailed(EntryFailure {
            path: b"a.c".to_vec(),
            error: ExtractError::Signature(VerificationError::VerificationFailed),
        }))
    );
    let unchecked = unglob_file(&archive, &options(false, true)).unwrap();
    assert_eq!(unchecked.files.len(), 2);
    assert_eq!(unchecked.files[0].content, b"hnt x;\n".to_vec());
}

#[test]
fn a_tampered_last_entry_fails_too() {
    let keypair = KeyPair::from_secret(SECRET);
    let files = [file("a.c", b"int x;\n"), file("b.h", b"void f();\n")];
    let mut archive = run_scraper(&files, Some(&keypair)).unwrap();
    flip_first(&mut archive, b"void f();");
    let report = unglob_file(&archive, &options(true, false)).unwrap();
    assert_eq!(report.files.len(), 1);
    assert_eq!(report.failures.len(), 1);
    assert_eq!(report.failures[0].path, b"b.h".to_vec());
    assert!(matches!(unglob_file(&archive, &options(true, true)), Err(UnglobError::EntryFailed(_))));
}

#[test]
fn an_archive_with_one_binary_entry_gives_an_empty_file() {
    let archive = encode_archive(&[file("a.bin", &[0u8; 5000])], None).unwrap();
    assert_eq!(archive, b"'''--- a.bin ---\n[Binary file - contents omitted]\n".to_vec());
    let report = unglob_file(&archive, &options(true, true)).unwrap();
    assert_eq!(
        report.files,
        vec![ExtractedFile {
            recorded_path: b"a.bin".to_vec(),
            path: b"out/a.bin".to_vec(),
            content: vec![],
            is_binary: true,
            signature: SignatureStatus::NotChecked,
        }]
    );
    assert_eq!(report.failures, vec![]);
}

#[test]
fn an_archive_without_entries_gives_no_files_extracted() {
    assert_eq!(unglob_file(b"", &options(false, false)), Err(UnglobError::NoFilesExtracted));
    assert_eq!(
        unglob_file(b"just\nsome\ntext\n", &options(false, false)),
        Err(UnglobError::NoFilesExtracted)
    );
    assert_eq!(
        unglob_file(
            b"'''--- PUBLIC_KEY --- [KEY:11qYAYKxCrfVS/7TyWQHOg7hcvPapiMlrwIaaPcHURo=]\n'''\n\n",
            &options(true, true)
        ),
        Err(UnglobError::NoFilesExtracted)
    );
}

#[test]
fn a_malformed_header_ends_every_run() {
    let archive = b"'''--- a.c ---\nx\n'''\n\n'''--- broken\ny\n";
    for strict in [false, true] {
        assert_eq!(
            unglob_file(archive, &options(false, strict)),
            Err(UnglobError::Parse(ParseError::MalformedHeader(HeaderError::Malformed)))
        );
    }
    assert_eq!(
        unglob_file(
            b"'''--- PUBLIC_KEY --- [KEY:11qYAYKxCrfVS/7TyWQHOg7hcvPapiMlrwIaaPcHURo=]\nx\n",
            &options(false, false)
        ),
        Err(UnglobError::Parse(ParseError::UnterminatedKeyRecord))
    );
}

#[test]
fn an_entry_that_fails_before_a_malformed_header_comes_first() {
    let archive = b"'''--- ../a.c ---\nx\n'''\n\n'''--- broken\n";
    assert_eq!(
        unglob_file(archive, &options(false, true)),
        Err(UnglobError::EntryFailed(EntryFailure {
            path: b"../a.c".to_vec(),
            error: ExtractError::ContainmentViolation,
        }))
    );
    assert_eq!(
        unglob_file(archive, &options(false, false)),
        Err(UnglobError::Parse(ParseError::MalformedHeader(HeaderError::Malformed)))
    );
}

#[test]
fn paths_that_lead_out_are_refused() {
    let archive = b"'''--- /etc/passwd ---\nx\n'''\n\n'''--- ok.txt ---\ny\n'''\n\n'''--- a/../../b ---\nz\n'''\n";
    let report = unglob_file(archive, &options(false, false)).unwrap();
    assert_eq!(report.files, vec![extracted("ok.txt", "out/ok.txt", b"y\n", SignatureStatus::NotChecked)]);
    assert_eq!(
        report.failures,
        vec![
            EntryFailure { path: b"/etc/passwd".to_vec(), error: ExtractError::ContainmentViolation },
            EntryFailure { path: b"a/../../b".to_vec(), error: ExtractError::ContainmentViolation },
        ]
    );
    assert_eq!(
        unglob_file(archive, &options(false, true)),
        Err(UnglobError::EntryFailed(EntryFailure {
            path: b"/etc/passwd".to_vec(),
            error: ExtractError::ContainmentViolation,
        }))
    );
}

#[test]
fn a_run_in_which_every_entry_fails_reports_the_failures() {
    let report = unglob_file(b"'''--- ../a ---\nx\n'''\n", &options(false, false)).unwrap();
    assert_eq!(report.files, vec![]);
    assert_eq!(report.failures.len(), 1);
}

#[test]
fn the_input_root_is_taken_off_recorded_paths() {
    let archive = encode_archive(&[file("test_files/src/a.c", b"x\n")], None).unwrap();
    let report = unglob_file(&archive, &options(false, false)).unwrap();
    assert_eq!(report.files[0].path, b"out/src/a.c".to_vec());
    assert_eq!(report.files[0].recorded_path, b"test_files/src/a.c".to_vec());
}

#[test]
fn an_unsigned_entry_in_a_signed_archive_is_extracted_and_marked() {
    let archive =
        b"'''--- PUBLIC_KEY --- [KEY:11qYAYKxCrfVS/7TyWQHOg7hcvPapiMlrwIaaPcHURo=]\n'''\n\n'''--- a.c ---\nx\n'''\n";
    let report = unglob_file(archive, &options(true, true)).unwrap();
    assert_eq!(report.files, vec![extracted("a.c", "out/a.c", b"x\n", SignatureStatus::Missing)]);
    let unchecked = unglob_file(archive, &options(false, true)).unwrap();
    assert_eq!(unchecked.files[0].signature, SignatureStatus::NotChecked);
}

#[test]
fn signatures_are_not_checked_without_a_key() {
    let archive = b"'''--- a.c --- [SIGNATURE:bm9uc2Vuc2U=]\nx\n'''\n";
    let report = unglob_file(archive, &options(true, true)).unwrap();
    assert_eq!(report.files, vec![extracted("a.c", "out/a.c", b"x\n", SignatureStatus::NotChecked)]);
}

#[test]
fn a_refused_key_is_reported_and_leaves_signatures_unchecked() {
    let archive = b"'''--- PUBLIC_KEY --- [KEY:aGVsbG8=]\n'''\n\n'''--- a.c --- [SIGNATURE:bm9uc2Vuc2U=]\nx\n'''\n";
    let report = unglob_file(archive, &options(true, true)).unwrap();
    assert_eq!(report.refused_keys, vec![KeyError::InvalidLength]);
    assert_eq!(report.files, vec![extracted("a.c", "out/a.c", b"x\n", SignatureStatus::NotChecked)]);
}

#[test]
fn bad_signatures_are_told_apart() {
    let key = "'''--- PUBLIC_KEY --- [KEY:11qYAYKxCrfVS/7TyWQHOg7hcvPapiMlrwIaaPcHURo=]\n'''\n\n";
    let cases = [
        ("***", VerificationError::InvalidEncoding),
        ("aGVsbG8=", VerificationError::InvalidLength),
        (
            "5VZDAMNgrHKQhuLMgG6CioSHfx645dl02HPgZSJJAVVfuIIVkKM7rMYeOXAc+bRr0lv18FlbviRlUUFDjnoQCw==",
            VerificationError::VerificationFailed,
        ),
    ];
    for (signature, error) in cases {
        let archive = format!("{}'''--- a.c --- [SIGNATURE:{}]\nx\n'''\n", key, signature);
        assert_eq!(
            unglob_file(archive.as_bytes(), &options(true, true)),
            Err(UnglobError::EntryFailed(EntryFailure {
                path: b"a.c".to_vec(),
                error: ExtractError::Signature(error),
            }))
        );
    }
}

#[test]
fn the_signature_is_checked_against_the_lines_joined_by_line_feeds() {
    let keypair = KeyPair::from_secret(SECRET);
    let public = keypair.public_key();
    let options = options(true, true);
    let contents: [&[u8]; 4] = [b"a\nb", b"a\nb\n", b"", b"\n\n"];
    for content in contents {
        let signature = sign_data(&keypair, content);
        let mut parts: Vec<Vec<u8>> = content.split(|b| *b == b'\n').map(|l| l.to_vec()).collect();
        let entry = ParsedEntry {
            path: b"a".to_vec(),
            lines: parts.clone(),
            is_binary: false,
            signature: Some(signature.clone()),
        };
        let file = process_extracted_file(&entry, Some(&public), &options).unwrap();
        assert_eq!(file.signature, SignatureStatus::Verified);
        parts.push(vec![]);
        let longer = ParsedEntry {
            path: b"a".to_vec(),
            lines: parts,
            is_binary: false,
            signature: Some(signature),
        };
        assert_eq!(
            process_extracted_file(&longer, Some(&public), &options),
            Err(ExtractError::Signature(VerificationError::VerificationFailed))
        );
    }
}

#[test]
fn the_path_is_checked_before_the_signature() {
    let public = PublicKey::from_bytes(&KeyPair::from_secret(SECRET).public_key().to_bytes()).unwrap();
    let entry = ParsedEntry {
        path: b"../a".to_vec(),
        lines: vec![],
        is_binary: false,
        signature: Some(b"***".to_vec()),
    };
    assert_eq!(
        process_extracted_file(&entry, Some(&public), &options(true, true)),
        Err(ExtractError::ContainmentViolation)
    );
}

#[test]
fn text_files_are_read_back_as_they_were() {
    let keypair = KeyPair::from_secret(SECRET);
    let files = [
        file("a.c", b"int x;\n"),
        file("dir/b.h", b"void f();\n\nint g;\n"),
        file("test_files/c.txt", "caf\u{e9}\n  indented\n\ttabbed\n".as_bytes()),
        file("d", b"'' not a terminator\n ''' neither\n"),
        file("e.txt", b"no line feed at the end"),
        file("f.txt", b""),
    ];
    for pair in [None, Some(&keypair)] {
        let archive = encode_archive(&files, pair).unwrap();
        let report = unglob_file(&archive, &options(true, true)).unwrap();
        assert_eq!(report.failures, vec![]);
        assert_eq!(report.files.len(), files.len());
        for (file, read) in files.iter().zip(report.files.iter()) {
            assert_eq!(read.recorded_path, file.path);
            let mut expected = file.content.clone();
            if !expected.ends_with(b"\n") {
                expected.push(b'\n');
            }
            assert_eq!(read.content, expected);
            assert!(!read.is_binary);
        }
        assert_eq!(report.files[0].path, b"out/a.c".to_vec());
        assert_eq!(report.files[1].path, b"out/dir/b.h".to_vec());
        assert_eq!(report.files[2].path, b"out/c.txt".to_vec());
    }
}

#[test]
fn content_that_looks_like_the_format_is_not_read_back() {
    let files = [file("a.txt", b"x\n'''--- b.txt ---\ny\n")];
    let archive = encode_archive(&files, None).unwrap();
    let report = unglob_file(&archive, &options(false, false)).unwrap();
    assert_eq!(report.files.len(), 2);
    assert_eq!(report.files[0].content, b"x\n".to_vec());
    assert_eq!(report.files[1].recorded_path, b"b.txt".to_vec());
}

#[test]
fn carriage_returns_at_line_ends_are_not_read_back() {
    let keypair = KeyPair::from_secret(SECRET);
    let files = [file("a.txt", b"x\r\ny\r\n")];
    let archive = encode_archive(&files, None).unwrap();
    let report = unglob_file(&archive, &options(false, false)).unwrap();
    assert_eq!(report.files[0].content, b"x\ny\n".to_vec());
    let signed = encode_archive(&files, Some(&keypair)).unwrap();
    let report = unglob_file(&signed, &options(true, false)).unwrap();
    assert_eq!(report.files, vec![]);
    assert_eq!(
        report.failures[0].error,
        ExtractError::Signature(VerificationError::VerificationFailed)
    );
}

#[test]
fn binary_files_among_text_files_are_read_back_empty() {
    let keypair = KeyPair::from_secret(SECRET);
    let files = [
        file("a.c", b"int x;\n"),
        file("image.png", &[0u8; 300]),
        file("b.h", b"void f();\n"),
        file("blob.bin", &[1u8; 20]),
    ];
    for pair in [None, Some(&keypair)] {
        let archive = run_scraper(&files, pair).unwrap();
        let report = unglob_file(&archive, &options(true, true)).unwrap();
        assert_eq!(report.failures, vec![]);
        let (text, binary) = if pair.is_some() {
            (SignatureStatus::Verified, SignatureStatus::Missing)
        } else {
            (SignatureStatus::NotChecked, SignatureStatus::NotChecked)
        };
        let empty = |recorded: &str, path: &str| ExtractedFile {
            recorded_path: recorded.as_bytes().to_vec(),
            path: path.as_bytes().to_vec(),
            content: vec![],
            is_binary: true,
            signature: binary,
        };
        assert_eq!(
            report.files,
            vec![
                extracted("a.c", "out/a.c", b"int x;\n", text),
                empty("image.png", "out/image.png"),
                extracted("b.h", "out/b.h", b"void f();\n", text),
                empty("blob.bin", "out/blob.bin"),
            ]
        );
    }
}

#[test]
fn the_finished_archive_of_tidy_files_is_the_archive() {
    let keypair = KeyPair::from_secret(SECRET);
    let files = [
        file("a.txt", b"\n\nfirst\n\n\nsecond\n\n"),
        file("b.bin", &[0u8; 64]),
        file("c.txt", b""),
    ];
    for pair in [None, Some(&keypair)] {
        assert_eq!(run_scraper(&files, pair).unwrap(), encode_archive(&files, pair).unwrap());
    }
    let untidy = [file("a.txt", b"first\n\n\n\nsecond\n")];
    assert_ne!(run_scraper(&untidy, None).unwrap(), encode_archive(&untidy, None).unwrap());
    let spaced = [file("a.txt", b"first\n  \nsecond\n")];
    assert_ne!(run_scraper(&spaced, None).unwrap(), encode_archive(&spaced, None).unwrap());
}

#[test]
fn the_default_input_root() {
    assert_eq!(&DEFAULT_INPUT_ROOT[..], b"test_files");
}

#[test]
fn paths_that_look_like_the_format_are_read_back_where_the_header_allows() {
    let keypair = KeyPair::from_secret(SECRET);
    let key_like = [file("PUBLIC_KEY --- [KEY:abc]", b"x\n")];
    let report = unglob_file(&encode_archive(&key_like, None).unwrap(), &options(true, true));
    assert_eq!(report.unwrap().files[0].recorded_path, key_like[0].path);
    let signed = encode_archive(&key_like, Some(&keypair)).unwrap();
    assert_eq!(unglob_file(&signed, &options(true, true)), Err(UnglobError::NoFilesExtracted));

    let signature_like = [file("a --- [SIGNATURE:b", b"x\n")];
    let signed = encode_archive(&signature_like, Some(&keypair)).unwrap();
    let report = unglob_file(&signed, &options(true, true)).unwrap();
    assert_eq!(report.files[0].recorded_path, signature_like[0].path);
    assert_eq!(report.files[0].signature, SignatureStatus::Verified);
    assert_eq!(
        unglob_file(&encode_archive(&signature_like, None).unwrap(), &options(true, true)),
        Err(UnglobError::Parse(ParseError::MalformedHeader(HeaderError::UnclosedSignature)))
    );
}

#[test]
fn paths_with_white_space_at_their_ends_are_not_read_back() {
    let files = [file(" a.c ", b"x\n")];
    let report = unglob_file(&encode_archive(&files, None).unwrap(), &options(false, false));
    assert_eq!(report.unwrap().files[0].recorded_path, b"a.c".to_vec());
}

fn by_steps(archive: &[u8], options: UnglobOptions) -> Result<Extraction, UnglobError> {
    let mut session = Unglobber::new(options);
    let mut report = Extraction { files: vec![], failures: vec![], refused_keys: vec![] };
    let mut steps: Vec<Progress> = Vec::new();
    for line in llm_globber::lines::split_into_lines(archive) {
        steps.push(session.feed_line(&line));
        if steps.last().unwrap().stop.is_some() {
            break;
        }
    }
    if steps.last().map_or(true, |p| p.stop.is_none()) {
        steps.push(session.finish());
    }
    for step in steps {
        report.files.extend(step.file);
        report.failures.extend(step.failure);
        report.refused_keys.extend(step.refused_key);
        if let Some(stop) = step.stop {
            return Err(stop);
        }
    }
    Ok(report)
}

#[test]
fn unpacking_by_steps_gives_what_unpacking_at_once_gives() {
    let keypair = KeyPair::from_secret(SECRET);
    let files = [file("a.c", b"int x;\n"), file("b.bin", &[0u8; 64]), file("../c", b"y\n")];
    let mut tampered = run_scraper(&files, Some(&keypair)).unwrap();
    flip_first(&mut tampered, b"int x;");
    let archives: Vec<Vec<u8>> = vec![
        run_scraper(&files, Some(&keypair)).unwrap(),
        run_scraper(&files, None).unwrap(),
        tampered,
        b"".to_vec(),
        b"no entry\n".to_vec(),
        b"'''--- a ---\nx\n'''\n'''--- broken\n".to_vec(),
        b"'''--- PUBLIC_KEY --- [KEY:***]\n'''--- a ---\nx".to_vec(),
    ];
    for archive in &archives {
        for verify in [false, true] {
            for strict in [false, true] {
                assert_eq!(
                    by_steps(archive, options(verify, strict)),
                    unglob_file(archive, &options(verify, strict))
                );
            }
        }
    }
}

#[test]
fn a_step_hands_out_the_file_that_a_line_closes() {
    let mut session = Unglobber::new(options(false, false));
    let quiet = Progress { file: None, failure: None, refused_key: None, stop: None };
    assert_eq!(session.feed_line(b"'''--- a.c ---"), quiet);
    assert_eq!(session.feed_line(b"x"), quiet);
    let step = session.feed_line(b"'''--- ../b ---");
    assert_eq!(step.file, Some(extracted("a.c", "out/a.c", b"x\n", SignatureStatus::NotChecked)));
    assert_eq!(step.stop, None);
    let step = session.feed_line(b"'''--- broken");
    assert_eq!(step.file, None);
    assert_eq!(
        step.failure,
        Some(EntryFailure { path: b"../b".to_vec(), error: ExtractError::ContainmentViolation })
    );
    assert_eq!(step.stop, Some(UnglobError::Parse(ParseError::MalformedHeader(HeaderError::Malformed))));
}

#[test]
fn a_file_is_handed_out_even_where_the_line_stops_the_run() {
    let mut session = Unglobber::new(options(false, true));
    session.feed_line(b"'''--- a.c ---");
    session.feed_line(b"x");
    let step = session.feed_line(b"'''--- broken");
    assert_eq!(step.file, Some(extracted("a.c", "out/a.c", b"x\n", SignatureStatus::NotChecked)));
    assert_eq!(step.stop, Some(UnglobError::Parse(ParseError::MalformedHeader(HeaderError::Malformed))));
}

#[test]
fn the_end_closes_the_open_entry_or_finds_nothing() {
    let mut session = Unglobber::new(options(false, true));
    session.feed_line(b"'''--- a.c ---");
    session.feed_line(b"x");
    let step = session.finish();
    assert_eq!(step.file, Some(extracted("a.c", "out/a.c", b"x\n", SignatureStatus::NotChecked)));
    assert_eq!(step.stop, None);
    let session = Unglobber::new(options(false, true));
    assert_eq!(session.finish().stop, Some(UnglobError::NoFilesExtracted));
    let mut session = Unglobber::new(options(false, true));
    session.feed_line(b"'''--- ../a ---");
    assert_eq!(
        session.finish().stop,
        Some(UnglobError::EntryFailed(EntryFailure {
            path: b"../a".to_vec(),
            error: ExtractError::ContainmentViolation,
        }))
    );
}
