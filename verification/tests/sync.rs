use cpr::remote::{
    decode_file_payload, digest_files, plan_upload, remote_base_url, run_status_ok, SyncError,
    WorkspaceFile,
};

fn wf(path: &str, data: &[u8]) -> WorkspaceFile {
    WorkspaceFile { path: String::from(path), data: data.to_vec(), executable: false }
}

#[test]
fn digests_are_lower_hex_md5() {
    let files = vec![wf("a.txt", b"abc"), wf("b.txt", b"")];
    let digests = digest_files(&files);
    assert_eq!(digests.len(), 2);
    assert_eq!(digests[0].0, "a.txt");
    assert_eq!(digests[0].1, "900150983cd24fb0d6963f7d28e17f72");
    assert_eq!(digests[1].1, "d41d8cd98f00b204e9800998ecf8427e");
}

/// Nothing needed, nothing sent: the upload plan is empty.
#[test]
fn empty_needed_set_uploads_nothing() {
    let files: Vec<WorkspaceFile> =
        (0..10).map(|i| wf(&format!("f{}", i), b"same content")).collect();
    let chunks = plan_upload(&files, &vec![]).unwrap();
    assert!(chunks.is_empty());
}

/// One changed file among ten: exactly that one goes over the wire.
#[test]
fn single_changed_file_uploads_alone() {
    let files: Vec<WorkspaceFile> = (0..10).map(|i| wf(&format!("f{}", i), b"hello")).collect();
    let chunks = plan_upload(&files, &vec![String::from("f3")]).unwrap();
    assert_eq!(chunks.len(), 1);
    assert_eq!(chunks[0].files.len(), 1);
    assert_eq!(chunks[0].files[0].path, "f3");
    assert_eq!(chunks[0].files[0].data, "aGVsbG8=");
    assert!(!chunks[0].files[0].executable);
}

#[test]
fn unknown_needed_path_is_an_error() {
    let files = vec![wf("a", b"x")];
    assert!(matches!(plan_upload(&files, &vec![String::from("b")]), Err(SyncError::MissingFile)));
}

/// Chunks close as soon as they reach a megabyte of raw bytes.
#[test]
fn chunks_are_bounded_by_raw_size() {
    let big = vec![0u8; 600_000];
    let files = vec![wf("a", &big), wf("b", &big), wf("c", b"tiny")];
    let need = vec![String::from("a"), String::from("b"), String::from("c")];
    let chunks = plan_upload(&files, &need).unwrap();
    assert_eq!(chunks.len(), 2);
    assert_eq!(chunks[0].files.len(), 2);
    assert_eq!(chunks[1].files.len(), 1);
    assert_eq!(chunks[0].files[0].path, "a");
    assert_eq!(chunks[0].files[1].path, "b");
    assert_eq!(chunks[1].files[0].path, "c");
}

#[test]
fn executable_bits_survive_encoding() {
    let mut f = wf("run.sh", b"#!/bin/sh\n");
    f.executable = true;
    let chunks = plan_upload(&vec![f], &vec![String::from("run.sh")]).unwrap();
    assert!(chunks[0].files[0].executable);
}

#[test]
fn payload_decoding_inverts_encoding() {
    assert_eq!(decode_file_payload("aGVsbG8=").unwrap(), b"hello");
    assert_eq!(decode_file_payload("").unwrap(), b"");
    assert_eq!(decode_file_payload("!!!"), Err(SyncError::BadPayload));
    assert_eq!(decode_file_payload("aGVsbG8"), Err(SyncError::BadPayload));
}

#[test]
fn run_status_is_ok_only_on_ok() {
    assert!(run_status_ok("ok"));
    assert!(!run_status_ok("failed"));
    assert!(!run_status_ok(""));
    assert!(!run_status_ok("OK"));
}

#[test]
fn base_url_names_the_local_tunnel() {
    assert_eq!(remote_base_url(8080), "http://localhost:8080");
    assert_eq!(remote_base_url(80), "http://localhost:80");
}
