use git_batch::manifest::{RepoRecord, parse_manifest, serialize_manifest};

fn records(remotes: &[&[u8]]) -> Vec<RepoRecord> {
    remotes.iter().map(|r| RepoRecord { remote: r.to_vec() }).collect()
}

fn remotes_of(records: &[RepoRecord]) -> Vec<Vec<u8>> {
    records.iter().map(|r| r.remote.clone()).collect()
}

#[test]
fn empty_manifest_serializes_to_empty_array() {
    let text = serialize_manifest(&Vec::new());
    assert_eq!(text, b"[]".to_vec());
}

#[test]
fn two_records_serialize_to_pretty_json() {
    let rs = records(&[b"git@example.com:teamA/svc.git", b"https://example.com/teamB/lib.git"]);
    let text = serialize_manifest(&rs);
    let expected = b"[\n  { \"remote\": \"git@example.com:teamA/svc.git\" },\n  { \"remote\": \"https://example.com/teamB/lib.git\" }\n]";
    assert_eq!(text, expected.to_vec());
}

#[test]
fn manifest_round_trips_plain_remotes() {
    let rs = records(&[b"git@h:a.git", b"https://h/b.git", b"git@h:c.git"]);
    let text = serialize_manifest(&rs);
    let back = parse_manifest(&text).unwrap();
    assert_eq!(remotes_of(&back), remotes_of(&rs));
}

#[test]
fn manifest_round_trips_awkward_bytes() {
    let rs = records(&[b"quote\"back\\slash", b"tab\tnew\nline", b"\x01\x1f"]);
    let text = serialize_manifest(&rs);
    let back = parse_manifest(&text).unwrap();
    assert_eq!(remotes_of(&back), remotes_of(&rs));
}

#[test]
fn escaping_changes_the_stored_text() {
    let rs = records(&[b"a\"b"]);
    let text = serialize_manifest(&rs);
    assert_eq!(text, b"[\n  { \"remote\": \"a\\\"b\" }\n]".to_vec());
}

#[test]
fn parse_accepts_loose_whitespace() {
    let parsed = parse_manifest(&b" [ ]\n".to_vec()).unwrap();
    assert!(parsed.is_empty());
    let parsed = parse_manifest(&b"[ { \"remote\" : \"a.git\" } ]".to_vec()).unwrap();
    assert_eq!(remotes_of(&parsed), vec![b"a.git".to_vec()]);
}

#[test]
fn parse_decodes_unicode_escapes() {
    let parsed = parse_manifest(&b"[{\"remote\":\"\\u0041b\\u000a\"}]".to_vec()).unwrap();
    assert_eq!(remotes_of(&parsed), vec![b"Ab\n".to_vec()]);
}

#[test]
fn parse_rejects_malformed_text() {
    assert!(parse_manifest(&b"".to_vec()).is_none());
    assert!(parse_manifest(&b"{not json".to_vec()).is_none());
    assert!(parse_manifest(&b"[".to_vec()).is_none());
    assert!(parse_manifest(&b"[]x".to_vec()).is_none());
    assert!(parse_manifest(&b"[{\"remote\":\"a\"}".to_vec()).is_none());
    assert!(parse_manifest(&b"[{\"other\":\"a\"}]".to_vec()).is_none());
    assert!(parse_manifest(&b"[{\"remote\":\"\\u0100\"}]".to_vec()).is_none());
    assert!(parse_manifest(&b"[{\"remote\":\"a\x01b\"}]".to_vec()).is_none());
}
