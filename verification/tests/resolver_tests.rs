use git_batch::resolver::parse_repo_path;

#[test]
fn ssh_remote_resolves_to_relative_path() {
    let remote = b"git@host:group/name.git".to_vec();
    let path = parse_repo_path(&remote).unwrap();
    assert_eq!(path, b"group/name".to_vec());
}

#[test]
fn http_remote_resolves_to_relative_path() {
    let remote = b"https://host/group/name.git".to_vec();
    let path = parse_repo_path(&remote).unwrap();
    assert_eq!(path, b"group/name".to_vec());
}

#[test]
fn http_remote_with_port_keeps_full_path() {
    let remote = b"https://host:8080/g/n.git".to_vec();
    let path = parse_repo_path(&remote).unwrap();
    assert_eq!(path, b"g/n".to_vec());
}

#[test]
fn ssh_remote_without_suffix_fails() {
    let remote = b"git@host:group/name".to_vec();
    let err = parse_repo_path(&remote).unwrap_err();
    assert_eq!(err.remote, remote);
}

#[test]
fn http_remote_without_suffix_fails() {
    let remote = b"https://host/group/name".to_vec();
    assert!(parse_repo_path(&remote).is_err());
}

#[test]
fn unrecognized_scheme_fails() {
    let remote = b"ftp://host/group/name.git".to_vec();
    assert!(parse_repo_path(&remote).is_err());
}

#[test]
fn ssh_remote_without_colon_fails() {
    let remote = b"git@hostonly".to_vec();
    assert!(parse_repo_path(&remote).is_err());
}

#[test]
fn ssh_remote_takes_segment_between_colons() {
    let remote = b"git@h:a.git:b".to_vec();
    let path = parse_repo_path(&remote).unwrap();
    assert_eq!(path, b"a".to_vec());
}

#[test]
fn http_remote_with_too_few_slashes_fails() {
    let remote = b"http://x".to_vec();
    assert!(parse_repo_path(&remote).is_err());
}
