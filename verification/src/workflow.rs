use vstd::prelude::*;
use crate::bytes::{bytes_of, trim_spec, trim, ascii_bytes, copy_vec, extend_from, vec_views};
use crate::manifest::{RepoRecord, views_of, manifest_json, serialize_manifest};
use crate::resolver::{resolve_spec, parse_repo_path, ResolveError};

verus! {

/// The outcome of one remote query: whether the command succeeded, and what
/// it printed.
pub struct RemoteQuery {
    pub succeeded: bool,
    pub output: Vec<u8>,
}

impl View for RemoteQuery {
    type V = (bool, Seq<u8>);

    open spec fn view(&self) -> (bool, Seq<u8>) {
        (self.succeeded, self.output@)
    }
}

/// The query outcomes as pairs of flag and printed bytes.
pub open spec fn query_views(qs: Seq<RemoteQuery>) -> Seq<(bool, Seq<u8>)> {
    qs.map_values(|q: RemoteQuery| (q.succeeded, q.output@))
}

/// The remotes a scan keeps: the trimmed output of every successful query
/// whose trimmed output is non-empty, in scan order.
pub open spec fn collected(qs: Seq<(bool, Seq<u8>)>) -> Seq<Seq<u8>>
    decreases qs.len(),
{
    if qs.len() == 0 {
        Seq::empty()
    } else {
        (if qs[0].0 && trim_spec(qs[0].1).len() > 0 {
            seq![trim_spec(qs[0].1)]
        } else {
            Seq::empty()
        }) + collected(qs.drop_first())
    }
}

/// Turns the remote-query outcomes of a scan into manifest records: failed
/// queries and blank outputs are dropped, the rest are kept trimmed, in
/// order.
pub fn collect_remotes(outcomes: &Vec<RemoteQuery>) -> (r: Vec<RepoRecord>)
    ensures
        views_of(r@) == collected(query_views(outcomes@)),
{
    let ghost qv = query_views(outcomes@);
    let mut out: Vec<RepoRecord> = Vec::new();
    proof {
        assert(qv.skip(0) =~= qv);
        assert(views_of(out@).len() == 0);
        assert(views_of(out@) + collected(qv.skip(0)) =~= collected(qv));
    }
    let mut i: usize = 0;
    while i < outcomes.len()
        invariant
            i <= outcomes@.len(),
            qv == query_views(outcomes@),
            qv.len() == outcomes@.len(),
            views_of(out@) + collected(qv.skip(i as int)) == collected(qv),
        decreases outcomes@.len() - i,
    {
        let q = &outcomes[i];
        let ghost prev = out@;
        proof {
            assert(qv.skip(i as int) =~= seq![qv[i as int]] + qv.skip(i + 1));
            assert((seq![qv[i as int]] + qv.skip(i + 1)).drop_first() =~= qv.skip(i + 1));
            assert(qv[i as int] == (q.succeeded, q.output@));
        }
        if q.succeeded {
            let remote = trim(&q.output);
            if remote.len() > 0 {
                out.push(RepoRecord { remote });
                proof {
                    assert(views_of(out@) =~= views_of(prev) + seq![trim_spec(qv[i as int].1)]);
                    assert(views_of(out@) + collected(qv.skip(i + 1)) =~= collected(qv));
                }
            } else {
                proof {
                    assert(views_of(out@) + collected(qv.skip(i + 1)) =~= collected(qv));
                }
            }
        } else {
            proof {
                assert(views_of(out@) + collected(qv.skip(i + 1)) =~= collected(qv));
            }
        }
        i += 1;
    }
    proof {
        assert(qv.skip(qv.len() as int) =~= Seq::<(bool, Seq<u8>)>::empty());
        assert(views_of(out@) + Seq::<Seq<u8>>::empty() =~= views_of(out@));
    }
    out
}

/// The whole compute side of a scan: collects the kept remotes and lays them
/// out as the manifest's JSON text.
pub fn scan_manifest(outcomes: &Vec<RemoteQuery>) -> (r: Vec<u8>)
    ensures
        r@ == manifest_json(collected(query_views(outcomes@))),
{
    let records = collect_remotes(outcomes);
    serialize_manifest(&records)
}

/// The clone a record calls for: the target path when a clone must run,
/// nothing when the path already exists or the remote does not resolve.
pub open spec fn clone_action_spec(remote: Seq<u8>, dest_exists: bool) -> Option<Seq<u8>> {
    match resolve_spec(remote) {
        Some(p) => if dest_exists {
            None
        } else {
            Some(p)
        },
        None => None,
    }
}

/// What to do for one manifest record during a clone pass.
#[derive(Debug)]
pub enum CloneDecision {
    SkipExisting(Vec<u8>),
    CloneInto(Vec<u8>),
}

/// Decides one record of a clone pass: resolves the remote to its target
/// path, then clones only where that path does not exist yet.
pub fn decide_clone(remote: &Vec<u8>, dest_exists: bool) -> (r: Result<
    CloneDecision,
    ResolveError,
>)
    ensures
        match r {
            Ok(CloneDecision::SkipExisting(p)) => resolve_spec(remote@) == Some(p@) && dest_exists
                && clone_action_spec(remote@, dest_exists) is None,
            Ok(CloneDecision::CloneInto(p)) => resolve_spec(remote@) == Some(p@) && !dest_exists
                && clone_action_spec(remote@, dest_exists) == Some(p@),
            Err(e) => resolve_spec(remote@) is None && e.remote@ == remote@ && clone_action_spec(
                remote@,
                dest_exists,
            ) is None,
        },
{
    match parse_repo_path(remote) {
        Ok(p) => if dest_exists {
            Ok(CloneDecision::SkipExisting(p))
        } else {
            Ok(CloneDecision::CloneInto(p))
        },
        Err(e) => Err(e),
    }
}

/// A clone pass is idempotent: for a repository whose target path already
/// exists, no clone action is called for, whatever the remote.
pub proof fn lemma_clone_idempotent(remote: Seq<u8>)
    ensures
        clone_action_spec(remote, true) is None,
{
}

/// One external command: the argument list handed to the version-control
/// binary.
pub struct GitCommand {
    pub args: Vec<Vec<u8>>,
}

impl View for GitCommand {
    type V = Seq<Seq<u8>>;

    open spec fn view(&self) -> Seq<Seq<u8>> {
        vec_views(self.args@)
    }
}

/// The argument lists of a run of commands.
pub open spec fn command_views(cs: Seq<GitCommand>) -> Seq<Seq<Seq<u8>>> {
    cs.map_values(|c: GitCommand| vec_views(c.args@))
}

/// `remote get-url origin`: queries the configured remote.
pub open spec fn remote_query_args_spec() -> Seq<Seq<u8>> {
    seq![bytes_of("remote"@), bytes_of("get-url"@), bytes_of("origin"@)]
}

pub fn remote_query_args() -> (r: Vec<Vec<u8>>)
    ensures
        vec_views(r@) == remote_query_args_spec(),
{
    proof {
        reveal_strlit("remote");
        reveal_strlit("get-url");
        reveal_strlit("origin");
    }
    let mut r: Vec<Vec<u8>> = Vec::new();
    r.push(ascii_bytes("remote"));
    r.push(ascii_bytes("get-url"));
    r.push(ascii_bytes("origin"));
    proof {
        assert(vec_views(r@) =~= remote_query_args_spec());
    }
    r
}

/// `clone <remote> <path>`: clones a remote into its resolved path.
pub open spec fn clone_args_spec(remote: Seq<u8>, dest: Seq<u8>) -> Seq<Seq<u8>> {
    seq![bytes_of("clone"@), remote, dest]
}

pub fn clone_args(remote: &Vec<u8>, dest: &Vec<u8>) -> (r: Vec<Vec<u8>>)
    ensures
        vec_views(r@) == clone_args_spec(remote@, dest@),
{
    proof {
        reveal_strlit("clone");
    }
    let mut r: Vec<Vec<u8>> = Vec::new();
    r.push(ascii_bytes("clone"));
    r.push(copy_vec(remote));
    r.push(copy_vec(dest));
    proof {
        assert(vec_views(r@) =~= clone_args_spec(remote@, dest@));
    }
    r
}

/// The fixed search flags, with the pattern and the literal revision
/// argument the search is invoked with.
pub open spec fn grep_args_spec(pattern: Seq<u8>) -> Seq<Seq<u8>> {
    seq![
        bytes_of("grep"@),
        pattern,
        bytes_of("--all-match"@),
        bytes_of("--break"@),
        bytes_of("--heading"@),
        bytes_of("--line-number"@),
        bytes_of("--color"@),
        bytes_of("$(git rev-list --all)"@),
    ]
}

/// The argument list of the per-repository search. The last argument is
/// handed over as a literal string, never expanded by a shell, so the search
/// runs against the working tree only.
pub fn grep_args(pattern: &Vec<u8>) -> (r: Vec<Vec<u8>>)
    ensures
        vec_views(r@) == grep_args_spec(pattern@),
{
    proof {
        reveal_strlit("grep");
        reveal_strlit("--all-match");
        reveal_strlit("--break");
        reveal_strlit("--heading");
        reveal_strlit("--line-number");
        reveal_strlit("--color");
        reveal_strlit("$(git rev-list --all)");
    }
    let mut r: Vec<Vec<u8>> = Vec::new();
    r.push(ascii_bytes("grep"));
    r.push(copy_vec(pattern));
    r.push(ascii_bytes("--all-match"));
    r.push(ascii_bytes("--break"));
    r.push(ascii_bytes("--heading"));
    r.push(ascii_bytes("--line-number"));
    r.push(ascii_bytes("--color"));
    r.push(ascii_bytes("$(git rev-list --all)"));
    proof {
        assert(vec_views(r@) =~= grep_args_spec(pattern@));
    }
    r
}

/// `status --porcelain`: lists uncommitted changes, one per line.
pub open spec fn status_args_spec() -> Seq<Seq<u8>> {
    seq![bytes_of("status"@), bytes_of("--porcelain"@)]
}

pub fn status_args() -> (r: Vec<Vec<u8>>)
    ensures
        vec_views(r@) == status_args_spec(),
{
    proof {
        reveal_strlit("status");
        reveal_strlit("--porcelain");
    }
    let mut r: Vec<Vec<u8>> = Vec::new();
    r.push(ascii_bytes("status"));
    r.push(ascii_bytes("--porcelain"));
    proof {
        assert(vec_views(r@) =~= status_args_spec());
    }
    r
}

pub open spec fn add_all_args_spec() -> Seq<Seq<u8>> {
    seq![bytes_of("add"@), bytes_of("."@)]
}

pub open spec fn stash_args_spec() -> Seq<Seq<u8>> {
    seq![bytes_of("stash"@)]
}

pub open spec fn checkout_args_spec() -> Seq<Seq<u8>> {
    seq![bytes_of("checkout"@), bytes_of("master"@)]
}

pub open spec fn pull_args_spec() -> Seq<Seq<u8>> {
    seq![bytes_of("pull"@), bytes_of("origin"@), bytes_of("master"@)]
}

/// The commands a sync pass runs in one repository: stage and stash first
/// when the working tree holds changes, then switch to the fixed branch and
/// pull it from the fixed remote.
pub open spec fn pull_steps_spec(has_local_changes: bool) -> Seq<Seq<Seq<u8>>> {
    if has_local_changes {
        seq![add_all_args_spec(), stash_args_spec(), checkout_args_spec(), pull_args_spec()]
    } else {
        seq![checkout_args_spec(), pull_args_spec()]
    }
}

/// Whether the status output calls for staging and stashing first.
pub fn needs_stash(status_output: &Vec<u8>) -> (r: bool)
    ensures
        r == (status_output@.len() > 0),
{
    status_output.len() > 0
}

/// Plans the sync commands for one repository from its status output.
pub fn pull_steps(has_local_changes: bool) -> (r: Vec<GitCommand>)
    ensures
        command_views(r@) == pull_steps_spec(has_local_changes),
{
    proof {
        reveal_strlit("add");
        reveal_strlit(".");
        reveal_strlit("stash");
        reveal_strlit("checkout");
        reveal_strlit("master");
        reveal_strlit("pull");
        reveal_strlit("origin");
    }
    let mut r: Vec<GitCommand> = Vec::new();
    if has_local_changes {
        let mut add_args: Vec<Vec<u8>> = Vec::new();
        add_args.push(ascii_bytes("add"));
        add_args.push(ascii_bytes("."));
        proof {
            assert(vec_views(add_args@) =~= add_all_args_spec());
        }
        r.push(GitCommand { args: add_args });
        let mut stash_cmd: Vec<Vec<u8>> = Vec::new();
        stash_cmd.push(ascii_bytes("stash"));
        proof {
            assert(vec_views(stash_cmd@) =~= stash_args_spec());
        }
        r.push(GitCommand { args: stash_cmd });
    }
    let mut checkout_cmd: Vec<Vec<u8>> = Vec::new();
    checkout_cmd.push(ascii_bytes("checkout"));
    checkout_cmd.push(ascii_bytes("master"));
    proof {
        assert(vec_views(checkout_cmd@) =~= checkout_args_spec());
    }
    r.push(GitCommand { args: checkout_cmd });
    let mut pull_cmd: Vec<Vec<u8>> = Vec::new();
    pull_cmd.push(ascii_bytes("pull"));
    pull_cmd.push(ascii_bytes("origin"));
    pull_cmd.push(ascii_bytes("master"));
    proof {
        assert(vec_views(pull_cmd@) =~= pull_args_spec());
    }
    r.push(GitCommand { args: pull_cmd });
    proof {
        assert(command_views(r@) =~= pull_steps_spec(has_local_changes));
    }
    r
}

/// The manifest's fixed file name.
pub open spec fn manifest_file_name_spec() -> Seq<u8> {
    bytes_of(".git_projects.json"@)
}

pub fn manifest_file_name() -> (r: Vec<u8>)
    ensures
        r@ == manifest_file_name_spec(),
{
    proof {
        reveal_strlit(".git_projects.json");
    }
    ascii_bytes(".git_projects.json")
}

/// The message reported when the manifest file is missing: it points the
/// user at the scan step.
pub open spec fn missing_manifest_message_spec() -> Seq<u8> {
    bytes_of("cannot read .git_projects.json: run scan first"@)
}

pub fn missing_manifest_message() -> (r: Vec<u8>)
    ensures
        r@ == missing_manifest_message_spec(),
{
    proof {
        reveal_strlit("cannot read .git_projects.json: run scan first");
    }
    ascii_bytes("cannot read .git_projects.json: run scan first")
}

/// The message reported when the manifest file does not parse.
pub open spec fn malformed_manifest_message_spec() -> Seq<u8> {
    bytes_of("malformed manifest .git_projects.json: run scan to rebuild it"@)
}

pub fn malformed_manifest_message() -> (r: Vec<u8>)
    ensures
        r@ == malformed_manifest_message_spec(),
{
    proof {
        reveal_strlit("malformed manifest .git_projects.json: run scan to rebuild it");
    }
    ascii_bytes("malformed manifest .git_projects.json: run scan to rebuild it")
}

/// The message reported for a remote URL the resolver does not recognize.
pub open spec fn resolve_error_message_spec(remote: Seq<u8>) -> Seq<u8> {
    bytes_of("cannot resolve repository path: "@) + remote
}

pub fn resolve_error_message(e: &ResolveError) -> (r: Vec<u8>)
    ensures
        r@ == resolve_error_message_spec(e.remote@),
{
    proof {
        reveal_strlit("cannot resolve repository path: ");
    }
    let mut r = ascii_bytes("cannot resolve repository path: ");
    extend_from(&mut r, &e.remote);
    r
}

} // verus!
