use git_batch::manifest::parse_manifest;
use git_batch::workflow::{
    CloneDecision, RemoteQuery, clone_args, collect_remotes, decide_clone, grep_args,
    malformed_manifest_message, manifest_file_name, missing_manifest_message, needs_stash,
    pull_steps, remote_query_args, resolve_error_message, scan_manifest, status_args,
};

fn query(succeeded: bool, output: &[u8]) -> RemoteQuery {
    RemoteQuery { succeeded, output: output.to_vec() }
}

fn contains(haystack: &[u8], needle: &[u8]) -> bool {
    haystack.windows(needle.len()).any(|w| w == needle)
}

#[test]
fn collect_remotes_keeps_trimmed_successful_output() {
    let outcomes = vec![
        query(true, b"  git@h:a.git\n"),
        query(false, b"ignored"),
        query(true, b"   \n"),
        query(true, b"https://h/b.git"),
    ];
    let records = collect_remotes(&outcomes);
    let remotes: Vec<Vec<u8>> = records.iter().map(|r| r.remote.clone()).collect();
    assert_eq!(remotes, vec![b"git@h:a.git".to_vec(), b"https://h/b.git".to_vec()]);
}

#[test]
fn scan_manifest_writes_collected_records() {
    let outcomes = vec![query(true, b"git@h:a.git\n")];
    let text = scan_manifest(&outcomes);
    assert_eq!(text, b"[\n  { \"remote\": \"git@h:a.git\" }\n]".to_vec());
}

#[test]
fn decide_clone_clones_into_resolved_path() {
    let remote = b"git@h:team/app.git".to_vec();
    match decide_clone(&remote, false).unwrap() {
        CloneDecision::CloneInto(dest) => assert_eq!(dest, b"team/app".to_vec()),
        CloneDecision::SkipExisting(_) => panic!("expected a clone"),
    }
}

#[test]
fn decide_clone_skips_existing_path() {
    let remote = b"git@h:team/app.git".to_vec();
    match decide_clone(&remote, true).unwrap() {
        CloneDecision::SkipExisting(dest) => assert_eq!(dest, b"team/app".to_vec()),
        CloneDecision::CloneInto(_) => panic!("expected a skip"),
    }
}

#[test]
fn decide_clone_reports_unresolvable_remote() {
    let remote = b"svn://h/team/app".to_vec();
    let err = decide_clone(&remote, false).unwrap_err();
    assert_eq!(err.remote, remote);
    let message = resolve_error_message(&err);
    assert!(contains(&message, b"cannot resolve repository path"));
    assert!(contains(&message, b"svn://h/team/app"));
}

#[test]
fn grep_args_carry_pattern_and_fixed_flags() {
    let args = grep_args(&b"needle".to_vec());
    let expected: Vec<Vec<u8>> = vec![
        b"grep".to_vec(),
        b"needle".to_vec(),
        b"--all-match".to_vec(),
        b"--break".to_vec(),
        b"--heading".to_vec(),
        b"--line-number".to_vec(),
        b"--color".to_vec(),
        b"$(git rev-list --all)".to_vec(),
    ];
    assert_eq!(args, expected);
}

#[test]
fn pull_steps_stash_first_when_tree_is_dirty() {
    assert!(needs_stash(&b" M file\n".to_vec()));
    let steps = pull_steps(true);
    let argvs: Vec<Vec<Vec<u8>>> = steps.into_iter().map(|c| c.args).collect();
    let expected: Vec<Vec<Vec<u8>>> = vec![
        vec![b"add".to_vec(), b".".to_vec()],
        vec![b"stash".to_vec()],
        vec![b"checkout".to_vec(), b"master".to_vec()],
        vec![b"pull".to_vec(), b"origin".to_vec(), b"master".to_vec()],
    ];
    assert_eq!(argvs, expected);
}

#[test]
fn pull_steps_only_sync_when_tree_is_clean() {
    assert!(!needs_stash(&b"".to_vec()));
    let steps = pull_steps(false);
    let argvs: Vec<Vec<Vec<u8>>> = steps.into_iter().map(|c| c.args).collect();
    let expected: Vec<Vec<Vec<u8>>> = vec![
        vec![b"checkout".to_vec(), b"master".to_vec()],
        vec![b"pull".to_vec(), b"origin".to_vec(), b"master".to_vec()],
    ];
    assert_eq!(argvs, expected);
}

#[test]
fn fixed_command_arguments_are_exact() {
    assert_eq!(
        remote_query_args(),
        vec![b"remote".to_vec(), b"get-url".to_vec(), b"origin".to_vec()]
    );
    assert_eq!(status_args(), vec![b"status".to_vec(), b"--porcelain".to_vec()]);
    assert_eq!(
        clone_args(&b"git@h:a.git".to_vec(), &b"a".to_vec()),
        vec![b"clone".to_vec(), b"git@h:a.git".to_vec(), b"a".to_vec()]
    );
}

#[test]
fn missing_manifest_message_points_at_scan() {
    assert_eq!(manifest_file_name(), b".git_projects.json".to_vec());
    let message = missing_manifest_message();
    assert!(contains(&message, b"scan"));
    assert!(contains(&message, b".git_projects.json"));
    let message = malformed_manifest_message();
    assert!(contains(&message, b"scan"));
}

#[test]
fn scan_then_clone_plans_both_workspace_directories() {
    let outcomes = vec![
        query(true, b"git@example.com:teamA/svc.git\n"),
        query(true, b"https://example.com/teamB/lib.git\n"),
    ];
    let text = scan_manifest(&outcomes);
    let records = parse_manifest(&text).unwrap();
    assert_eq!(records.len(), 2);
    let mut dests = Vec::new();
    for record in &records {
        match decide_clone(&record.remote, false).unwrap() {
            CloneDecision::CloneInto(dest) => dests.push(dest),
            CloneDecision::SkipExisting(_) => panic!("workspace is empty"),
        }
    }
    assert_eq!(dests, vec![b"teamA/svc".to_vec(), b"teamB/lib".to_vec()]);
    for record in &records {
        match decide_clone(&record.remote, true).unwrap() {
            CloneDecision::SkipExisting(_) => {},
            CloneDecision::CloneInto(_) => panic!("second pass must skip"),
        }
    }
}
