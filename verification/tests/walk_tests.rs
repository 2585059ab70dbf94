use clave::cryptor::create_cipher;
use clave::report::{EncryptionError, EncryptionResult, FinalEncryptionResult, ProcessingError};
use clave::walk::{
    Node, encrypt_path, encrypt_paths, file_outcome, measure_entries, measure_node, process,
    try_process,
};

fn file(path: &str, content: &[u8]) -> Node {
    Node::File { path: path.to_string(), content: content.to_vec() }
}

fn file_content(node: &Node) -> Vec<u8> {
    match node {
        Node::File { content, .. } => content.clone(),
        _ => panic!("expected a file node"),
    }
}

/// The adaptation of the original two-pictures check to the in-memory
/// tree: encrypting one of two equal files makes them differ, encrypting
/// it again with a freshly derived cipher makes them equal again.
#[test]
fn test_encrypt_file() {
    let picture: Vec<u8> = (0..=255u8).cycle().take(2048).collect();
    let pic1 = file("test_files/dir_to_process/pic.jpg", &picture);

    let mut cipher = create_cipher(b"This is a super secret password no one's able to guess.");
    let (encrypted, report) = encrypt_path(&mut cipher, &pic1);
    assert_eq!(report.oks.len(), 1);
    assert_ne!(file_content(&encrypted), picture);

    let mut cipher = create_cipher(b"This is a super secret password no one's able to guess.");
    let (decrypted, report) = encrypt_path(&mut cipher, &encrypted);
    assert_eq!(report.oks.len(), 1);
    assert_eq!(file_content(&decrypted), picture);
}

/// Password "hunter2", file `greeting.txt` holding "hello": the first run
/// reports one success and leaves 5 bytes of ciphertext; the second run,
/// same password and same root list, reports one success and restores
/// "hello".
#[test]
fn single_file_round_trip() {
    let roots = vec![file("greeting.txt", b"hello")];

    let (encrypted_roots, report) = process(b"hunter2", &roots);
    assert_eq!(report.oks, vec!["greeting.txt".to_string()]);
    assert_eq!(report.errs.len(), 0);
    let ciphertext = file_content(&encrypted_roots[0]);
    assert_eq!(ciphertext.len(), 5);
    assert_ne!(ciphertext.as_slice(), b"hello");

    let (decrypted_roots, report) = process(b"hunter2", &encrypted_roots);
    assert_eq!(report.oks, vec!["greeting.txt".to_string()]);
    assert_eq!(report.errs.len(), 0);
    assert_eq!(file_content(&decrypted_roots[0]).as_slice(), b"hello");
}

/// A root that is a dangling symbolic link: no successes, one path
/// failure, nothing written.
#[test]
fn dangling_symlink_root() {
    let roots = vec![Node::Other { path: "missing-link".to_string() }];

    let (out, report) = process(b"hunter2", &roots);
    assert_eq!(report.oks.len(), 0);
    assert_eq!(report.errs.len(), 1);
    assert!(matches!(&report.errs[0], EncryptionError::PathError { path } if path == "missing-link"));
    assert!(matches!(&out[0], Node::Other { .. }));
}

/// A directory holding one file and one unreadable subdirectory: one file
/// outcome and one enumeration failure, and nothing below the unreadable
/// subdirectory is ever visited.
#[test]
fn unreadable_subdirectory() {
    let root = Node::Dir {
        path: "top".to_string(),
        entries: vec![
            file("top/a.txt", b"aaa"),
            Node::UnreadableDir { path: "top/locked".to_string() },
        ],
    };

    let mut cipher = create_cipher(b"hunter2");
    let (_, report) = encrypt_path(&mut cipher, &root);
    assert_eq!(report.oks, vec!["top/a.txt".to_string()]);
    assert_eq!(report.errs.len(), 1);
    assert!(matches!(&report.errs[0], EncryptionError::DirReadError { path } if path == "top/locked"));
}

/// Traversal completeness over a mixed tree: two readable files, one
/// unreadable file, one unreadable directory and one symlink give exactly
/// three file-derived outcomes, one enumeration failure and one path
/// failure.
#[test]
fn mixed_tree_completeness() {
    let root = Node::Dir {
        path: "root".to_string(),
        entries: vec![
            file("root/one", b"11"),
            Node::Dir {
                path: "root/sub".to_string(),
                entries: vec![
                    file("root/sub/two", b"2222"),
                    Node::UnreadableFile { path: "root/sub/secret".to_string() },
                ],
            },
            Node::UnreadableDir { path: "root/locked".to_string() },
            Node::Other { path: "root/link".to_string() },
        ],
    };

    let mut cipher = create_cipher(b"hunter2");
    let (_, report) = encrypt_path(&mut cipher, &root);

    assert_eq!(report.oks, vec!["root/one".to_string(), "root/sub/two".to_string()]);
    let mut file_failures = 0;
    let mut dir_failures = 0;
    let mut path_failures = 0;
    for err in &report.errs {
        match err {
            EncryptionError::FileReadError { .. }
            | EncryptionError::FileWriteError { .. }
            | EncryptionError::ProcessingError { .. } => file_failures += 1,
            EncryptionError::DirReadError { .. } => dir_failures += 1,
            EncryptionError::PathError { .. } => path_failures += 1,
        }
    }
    assert_eq!(report.oks.len() + file_failures, 3);
    assert_eq!(dir_failures, 1);
    assert_eq!(path_failures, 1);
    assert_eq!(report.errs.len(), 3);
}

/// Unopenable files report the matching error kind with zero bytes
/// written.
#[test]
fn unopenable_files_report_open_errors() {
    let roots = vec![
        Node::UnreadableFile { path: "no-read".to_string() },
        Node::UnwritableFile { path: "no-write".to_string() },
    ];

    let (_, report) = process(b"hunter2", &roots);
    assert_eq!(report.oks.len(), 0);
    assert!(matches!(
        &report.errs[0],
        EncryptionError::FileReadError { bytes_written: 0, path } if path == "no-read"
    ));
    assert!(matches!(
        &report.errs[1],
        EncryptionError::FileWriteError { bytes_written: 0, path } if path == "no-write"
    ));
}

/// Encrypting roots `[A, B]` and then decrypting `[B, A]` with the same
/// password does not restore the originals: the keystream position each
/// file is transformed at depends on everything processed before it.
#[test]
fn root_order_is_load_bearing() {
    let a = file("a", b"abc");
    let b = file("b", b"12345");

    let (encrypted, _) = process(b"hunter2", &vec![a, b]);
    let swapped = vec![
        file("b", &file_content(&encrypted[1])),
        file("a", &file_content(&encrypted[0])),
    ];
    let (decrypted, _) = process(b"hunter2", &swapped);

    let b_again = file_content(&decrypted[0]);
    let a_again = file_content(&decrypted[1]);
    assert!(!(a_again == b"abc".to_vec() && b_again == b"12345".to_vec()));
}

/// The keystream continues across sibling files: transforming one file
/// equal to the concatenation of two others yields the concatenation of
/// their ciphertexts.
#[test]
fn keystream_threads_across_files() {
    let split_roots = vec![file("x", b"hell"), file("y", b"o, world")];
    let (split_out, _) = process(b"hunter2", &split_roots);

    let joined_roots = vec![file("z", b"hello, world")];
    let (joined_out, _) = process(b"hunter2", &joined_roots);

    let mut split_bytes = file_content(&split_out[0]);
    split_bytes.extend(file_content(&split_out[1]));
    assert_eq!(split_bytes, file_content(&joined_out[0]));
}

/// `encrypt_paths` with an existing cipher merges per-root reports in
/// order.
#[test]
fn encrypt_paths_merges_reports() {
    let roots = vec![file("first", b"1"), Node::Other { path: "ghostly".to_string() }, file(
        "second",
        b"2",
    )];
    let mut cipher = create_cipher(b"hunter2");
    let (out, report) = encrypt_paths(&mut cipher, &roots);
    assert_eq!(out.len(), 3);
    assert_eq!(report.oks, vec!["first".to_string(), "second".to_string()]);
    assert_eq!(report.errs.len(), 1);
}

/// The mapping from a rewrite result to a file outcome keeps the path and
/// wraps mid-stream failures with their byte counts.
#[test]
fn file_outcome_mapping() {
    let ok = file_outcome("done.txt".to_string(), Ok(5));
    assert!(matches!(&ok, EncryptionResult::Processed(path) if path == "done.txt"));

    let err = file_outcome(
        "broken.txt".to_string(),
        Err(ProcessingError::ReadError { bytes_written: 7 }),
    );
    assert!(matches!(
        &err,
        EncryptionResult::Error(EncryptionError::ProcessingError {
            source: ProcessingError::ReadError { bytes_written: 7 },
            path,
        }) if path == "broken.txt"
    ));

    let err = file_outcome(
        "broken.txt".to_string(),
        Err(ProcessingError::WriteError { bytes_written: 3 }),
    );
    assert!(matches!(
        &err,
        EncryptionResult::Error(EncryptionError::ProcessingError {
            source: ProcessingError::WriteError { bytes_written: 3 },
            ..
        })
    ));
}

/// Outcomes land on the side of the report they belong to, and merging
/// keeps both lists in order.
#[test]
fn report_push_and_extend() {
    let mut report = FinalEncryptionResult::default();
    report.push_and_log(EncryptionResult::Processed("good".to_string()));
    report.push_and_log(EncryptionResult::Error(EncryptionError::PathError {
        path: "bad".to_string(),
    }));
    assert_eq!(report.oks, vec!["good".to_string()]);
    assert_eq!(report.errs.len(), 1);

    let mut other = FinalEncryptionResult::default();
    other.push_and_log(EncryptionResult::Processed("better".to_string()));
    report.extend(other);
    assert_eq!(report.oks, vec!["good".to_string(), "better".to_string()]);
    assert_eq!(report.errs.len(), 1);
}

/// Measuring a tree counts exactly the readable files' content bytes.
#[test]
fn measure_counts_content_bytes() {
    let tree = Node::Dir {
        path: "root".to_string(),
        entries: vec![
            file("root/one", b"12345"),
            Node::UnreadableFile { path: "root/hidden".to_string() },
            Node::Dir { path: "root/sub".to_string(), entries: vec![file("root/sub/two", b"678")] },
            Node::Other { path: "root/link".to_string() },
        ],
    };
    assert_eq!(measure_node(&tree), Some(8));
    assert_eq!(measure_entries(&vec![tree, file("three", b"9")]), Some(9));
}

/// The checked run accepts trees inside the keystream bound and behaves as
/// the plain run.
#[test]
fn try_process_within_bound() {
    let roots = vec![file("greeting.txt", b"hello")];
    let (expected_roots, expected_report) = process(b"hunter2", &roots);
    let (out_roots, report) = try_process(b"hunter2", &roots).unwrap();
    assert_eq!(file_content(&out_roots[0]), file_content(&expected_roots[0]));
    assert_eq!(report.oks, expected_report.oks);
    assert_eq!(report.errs.len(), expected_report.errs.len());
}

/// A nested tree walked twice with the same password is restored file for
/// file, and a walk never changes any file's length.
#[test]
fn nested_tree_round_trip() {
    let tree = Node::Dir {
        path: "top".to_string(),
        entries: vec![
            file("top/a", b"first file"),
            Node::Dir {
                path: "top/inner".to_string(),
                entries: vec![file("top/inner/b", b"second"), file("top/inner/c", b"")],
            },
            file("top/d", b"last one, a little longer than the others"),
        ],
    };

    let mut cipher = create_cipher(b"hunter2");
    let (encrypted, _) = encrypt_path(&mut cipher, &tree);
    assert_eq!(measure_node(&encrypted), measure_node(&tree));

    let mut cipher = create_cipher(b"hunter2");
    let (decrypted, _) = encrypt_path(&mut cipher, &encrypted);

    fn assert_same_files(left: &Node, right: &Node) {
        match (left, right) {
            (
                Node::File { path: lp, content: lc },
                Node::File { path: rp, content: rc },
            ) => {
                assert_eq!(lp, rp);
                assert_eq!(lc, rc);
            }
            (
                Node::Dir { path: lp, entries: le },
                Node::Dir { path: rp, entries: re },
            ) => {
                assert_eq!(lp, rp);
                assert_eq!(le.len(), re.len());
                for (l, r) in le.iter().zip(re.iter()) {
                    assert_same_files(l, r);
                }
            }
            _ => panic!("tree shapes differ"),
        }
    }
    assert_same_files(&decrypted, &tree);
}
