use vstd::prelude::*;
use crate::bytes::{starts_with, ends_with, find_from, has_prefix, has_suffix, find_byte_from,
    subvec};

verus! {

/// The bytes of `"git@"`, the marker of an SSH-style remote.
pub open spec fn ssh_prefix() -> Seq<u8> {
    seq!['g' as u8, 'i' as u8, 't' as u8, '@' as u8]
}

/// The bytes of `"http"`, the marker of an HTTP-style remote.
pub open spec fn http_prefix() -> Seq<u8> {
    seq!['h' as u8, 't' as u8, 't' as u8, 'p' as u8]
}

/// The bytes of `".git"`, the suffix every resolvable remote must carry.
pub open spec fn git_suffix() -> Seq<u8> {
    seq!['.' as u8, 'g' as u8, 'i' as u8, 't' as u8]
}

/// The second colon-separated segment of `s`: the text between the first
/// colon and the following colon (or the end), if a first colon exists.
pub open spec fn ssh_segment(s: Seq<u8>) -> Option<Seq<u8>> {
    match find_from(s, ':' as u8, 0) {
        None => None,
        Some(c1) => Some(
            match find_from(s, ':' as u8, (c1 + 1) as nat) {
                Some(c2) => s.subrange(c1 + 1 as int, c2 as int),
                None => s.subrange(c1 + 1 as int, s.len() as int),
            },
        ),
    }
}

/// `p` without its trailing `".git"`, if it has one.
pub open spec fn strip_git_suffix(p: Seq<u8>) -> Option<Seq<u8>> {
    if ends_with(p, git_suffix()) {
        Some(p.subrange(0, p.len() - 4))
    } else {
        None
    }
}

/// Everything after the third slash of `s`; empty when `s` has fewer than
/// three slashes (for an HTTP remote: scheme, empty and host are dropped).
pub open spec fn after_third_slash(s: Seq<u8>) -> Seq<u8> {
    match find_from(s, '/' as u8, 0) {
        None => Seq::empty(),
        Some(a) => match find_from(s, '/' as u8, (a + 1) as nat) {
            None => Seq::empty(),
            Some(b) => match find_from(s, '/' as u8, (b + 1) as nat) {
                None => Seq::empty(),
                Some(c) => s.subrange(c + 1 as int, s.len() as int),
            },
        },
    }
}

/// The relative path a remote URL resolves to:
/// - SSH-style (`git@…`): the segment after the first colon, without `".git"`;
/// - HTTP-style (`http…`): everything after the third slash, without `".git"`;
/// - anything else: unresolvable.
pub open spec fn resolve_spec(s: Seq<u8>) -> Option<Seq<u8>> {
    if starts_with(s, ssh_prefix()) {
        match ssh_segment(s) {
            Some(seg) => strip_git_suffix(seg),
            None => None,
        }
    } else if starts_with(s, http_prefix()) {
        strip_git_suffix(after_third_slash(s))
    } else {
        None
    }
}

/// A remote URL whose shape the resolver does not recognize.
#[derive(Debug)]
pub struct ResolveError {
    pub remote: Vec<u8>,
}

/// Drops a trailing `".git"` from `p`, reporting whether it was there.
fn take_git_suffix(p: &Vec<u8>) -> (r: Option<Vec<u8>>)
    ensures
        match r {
            Some(q) => strip_git_suffix(p@) == Some(q@),
            None => strip_git_suffix(p@) is None,
        },
{
    let mut suf: Vec<u8> = Vec::new();
    suf.push('.' as u8);
    suf.push('g' as u8);
    suf.push('i' as u8);
    suf.push('t' as u8);
    proof {
        assert(suf@ =~= git_suffix());
    }
    if has_suffix(p, &suf) {
        Some(subvec(p, 0, p.len() - 4))
    } else {
        None
    }
}

/// Derives the relative clone path for a remote URL, exactly as
/// `resolve_spec` describes; unresolvable remotes come back as an error
/// carrying the offending URL.
pub fn parse_repo_path(remote: &Vec<u8>) -> (r: Result<Vec<u8>, ResolveError>)
    ensures
        match r {
            Ok(p) => resolve_spec(remote@) == Some(p@),
            Err(e) => resolve_spec(remote@) is None && e.remote@ == remote@,
        },
{
    let mut ssh_pre: Vec<u8> = Vec::new();
    ssh_pre.push('g' as u8);
    ssh_pre.push('i' as u8);
    ssh_pre.push('t' as u8);
    ssh_pre.push('@' as u8);
    proof {
        assert(ssh_pre@ =~= ssh_prefix());
    }
    let mut http_pre: Vec<u8> = Vec::new();
    http_pre.push('h' as u8);
    http_pre.push('t' as u8);
    http_pre.push('t' as u8);
    http_pre.push('p' as u8);
    proof {
        assert(http_pre@ =~= http_prefix());
    }
    let n: usize = remote.len();
    if has_prefix(remote, &ssh_pre) {
        match find_byte_from(remote, ':' as u8, 0) {
            None => Err(ResolveError { remote: subvec(remote, 0, n) }),
            Some(c1) => {
                let seg = match find_byte_from(remote, ':' as u8, c1 + 1) {
                    Some(c2) => subvec(remote, c1 + 1, c2),
                    None => subvec(remote, c1 + 1, n),
                };
                match take_git_suffix(&seg) {
                    Some(p) => Ok(p),
                    None => Err(ResolveError { remote: subvec(remote, 0, n) }),
                }
            },
        }
    } else if has_prefix(remote, &http_pre) {
        let rest = match find_byte_from(remote, '/' as u8, 0) {
            None => Vec::new(),
            Some(a) => match find_byte_from(remote, '/' as u8, a + 1) {
                None => Vec::new(),
                Some(b) => match find_byte_from(remote, '/' as u8, b + 1) {
                    None => Vec::new(),
                    Some(c) => subvec(remote, c + 1, n),
                },
            },
        };
        proof {
            assert(rest@ =~= after_third_slash(remote@));
        }
        match take_git_suffix(&rest) {
            Some(p) => Ok(p),
            None => Err(ResolveError { remote: subvec(remote, 0, n) }),
        }
    } else {
        Err(ResolveError { remote: subvec(remote, 0, n) })
    }
}

/// A remote that is neither SSH-style nor HTTP-style never resolves.
pub proof fn lemma_resolve_rejects_unrecognized(s: Seq<u8>)
    requires
        !starts_with(s, ssh_prefix()),
        !starts_with(s, http_prefix()),
    ensures
        resolve_spec(s) is None,
{
}

/// An SSH-style remote whose colon segment does not end in `".git"`, and an
/// HTTP-style remote whose tail after the host does not, never resolve.
pub proof fn lemma_resolve_requires_git_suffix(s: Seq<u8>)
    ensures
        starts_with(s, ssh_prefix()) && (ssh_segment(s) matches Some(seg)
            && !ends_with(seg, git_suffix())) ==> resolve_spec(s) is None,
        starts_with(s, http_prefix()) && !starts_with(s, ssh_prefix())
            && !ends_with(after_third_slash(s), git_suffix()) ==> resolve_spec(s) is None,
{
}

} // verus!
