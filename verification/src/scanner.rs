use vstd::prelude::*;
use crate::bytes::{find_last, find_last_byte, subvec, vec_eq, vec_views};
use crate::resolver::git_suffix;

verus! {

/// One entry of a directory walk: a path and whether it is a directory.
pub struct ScanEntry {
    pub path: Vec<u8>,
    pub is_dir: bool,
}

impl View for ScanEntry {
    type V = (Seq<u8>, bool);

    open spec fn view(&self) -> (Seq<u8>, bool) {
        (self.path@, self.is_dir)
    }
}

/// The walk entries as pairs of path and directory flag.
pub open spec fn entry_views(es: Seq<ScanEntry>) -> Seq<(Seq<u8>, bool)> {
    es.map_values(|e: ScanEntry| (e.path@, e.is_dir))
}

/// The last path segment: everything after the final slash.
pub open spec fn file_name_spec(p: Seq<u8>) -> Seq<u8> {
    match find_last(p, 47, p.len()) {
        None => p,
        Some(k) => p.subrange(k + 1 as int, p.len() as int),
    }
}

/// The enclosing directory: everything before the final slash, or empty when
/// the path has no slash.
pub open spec fn parent_spec(p: Seq<u8>) -> Seq<u8> {
    match find_last(p, 47, p.len()) {
        None => Seq::empty(),
        Some(k) => p.subrange(0, k as int),
    }
}

/// A walk entry marking a repository: a directory whose name is `.git`.
pub open spec fn is_git_entry(e: (Seq<u8>, bool)) -> bool {
    e.1 && file_name_spec(e.0) == git_suffix()
}

/// The parents of the `.git` directories among the entries, in walk order.
pub open spec fn git_parents(es: Seq<(Seq<u8>, bool)>) -> Seq<Seq<u8>>
    decreases es.len(),
{
    if es.len() == 0 {
        Seq::empty()
    } else {
        (if is_git_entry(es[0]) {
            seq![parent_spec(es[0].0)]
        } else {
            Seq::empty()
        }) + git_parents(es.drop_first())
    }
}

/// The last path segment of `p`.
pub fn file_name(p: &Vec<u8>) -> (r: Vec<u8>)
    ensures
        r@ == file_name_spec(p@),
{
    let n: usize = p.len();
    match find_last_byte(p, 47) {
        None => subvec(p, 0, n),
        Some(k) => subvec(p, k + 1, n),
    }
}

/// The enclosing directory of `p`.
pub fn parent_dir(p: &Vec<u8>) -> (r: Vec<u8>)
    ensures
        r@ == parent_spec(p@),
{
    match find_last_byte(p, 47) {
        None => Vec::new(),
        Some(k) => subvec(p, 0, k),
    }
}

/// Selects, from the entries of a directory walk, the repository roots: the
/// parent of every directory entry named `.git`, in walk order.
pub fn select_git_projects(entries: &Vec<ScanEntry>) -> (r: Vec<Vec<u8>>)
    ensures
        vec_views(r@) == git_parents(entry_views(entries@)),
{
    let ghost ev = entry_views(entries@);
    let mut out: Vec<Vec<u8>> = Vec::new();
    let mut i: usize = 0;
    proof {
        assert(ev.skip(0) =~= ev);
        assert(vec_views(out@).len() == 0);
        assert(vec_views(out@) + git_parents(ev.skip(0)) =~= git_parents(ev));
    }
    while i < entries.len()
        invariant
            i <= entries@.len(),
            ev == entry_views(entries@),
            ev.len() == entries@.len(),
            vec_views(out@) + git_parents(ev.skip(i as int)) == git_parents(ev),
        decreases entries@.len() - i,
    {
        let entry = &entries[i];
        let ghost prev = out@;
        proof {
            assert(ev.skip(i as int) =~= seq![ev[i as int]] + ev.skip(i + 1));
            assert((seq![ev[i as int]] + ev.skip(i + 1)).drop_first() =~= ev.skip(i + 1));
            assert(ev[i as int] == (entry.path@, entry.is_dir));
        }
        if entry.is_dir {
            let name = file_name(&entry.path);
            let mut dot_git: Vec<u8> = Vec::new();
            dot_git.push(46);
            dot_git.push(103);
            dot_git.push(105);
            dot_git.push(116);
            proof {
                assert(dot_git@ =~= git_suffix());
            }
            if vec_eq(&name, &dot_git) {
                out.push(parent_dir(&entry.path));
                proof {
                    assert(is_git_entry(ev[i as int]));
                    assert(vec_views(out@) =~= vec_views(prev) + seq![parent_spec(
                        ev[i as int].0,
                    )]);
                    assert(vec_views(out@) + git_parents(ev.skip(i + 1)) =~= git_parents(ev));
                }
            } else {
                proof {
                    assert(!is_git_entry(ev[i as int]));
                    assert(vec_views(out@) + git_parents(ev.skip(i + 1)) =~= git_parents(ev));
                }
            }
        } else {
            proof {
                assert(!is_git_entry(ev[i as int]));
                assert(vec_views(out@) + git_parents(ev.skip(i + 1)) =~= git_parents(ev));
            }
        }
        i += 1;
    }
    proof {
        assert(ev.skip(ev.len() as int) =~= Seq::<(Seq<u8>, bool)>::empty());
        assert(vec_views(out@) + Seq::<Seq<u8>>::empty() =~= vec_views(out@));
    }
    out
}

/// The scanner's result is exactly the set of parents of `.git` directory
/// entries: a path comes out if and only if some entry carries it.
pub proof fn lemma_scanner_exact(es: Seq<(Seq<u8>, bool)>, p: Seq<u8>)
    ensures
        git_parents(es).contains(p) <==> exists|i: int|
            0 <= i < es.len() && is_git_entry(#[trigger] es[i]) && parent_spec(es[i].0) == p,
    decreases es.len(),
{
    if es.len() == 0 {
    } else {
        lemma_scanner_exact(es.drop_first(), p);
        let head: Seq<Seq<u8>> = if is_git_entry(es[0]) {
            seq![parent_spec(es[0].0)]
        } else {
            Seq::empty()
        };
        let tail = git_parents(es.drop_first());
        assert(git_parents(es) == head + tail);
        if git_parents(es).contains(p) {
            let k = choose|k: int| 0 <= k < (head + tail).len() && (head + tail)[k] == p;
            if k < head.len() {
                assert(is_git_entry(es[0]) && parent_spec(es[0].0) == p);
            } else {
                assert(tail[k - head.len()] == p);
                assert(tail.contains(p));
                let j = choose|j: int|
                    0 <= j < es.drop_first().len() && is_git_entry(
                        #[trigger] es.drop_first()[j],
                    ) && parent_spec(es.drop_first()[j].0) == p;
                assert(es[j + 1] == es.drop_first()[j]);
                assert(is_git_entry(es[j + 1]) && parent_spec(es[j + 1].0) == p);
            }
        }
        if exists|i: int|
            0 <= i < es.len() && is_git_entry(#[trigger] es[i]) && parent_spec(es[i].0) == p {
            let i = choose|i: int|
                0 <= i < es.len() && is_git_entry(#[trigger] es[i]) && parent_spec(es[i].0) == p;
            if i == 0 {
                assert((head + tail)[0] == p);
                assert(git_parents(es).contains(p));
            } else {
                assert(es.drop_first()[i - 1] == es[i]);
                assert(tail.contains(p));
                let k = choose|k: int| 0 <= k < tail.len() && tail[k] == p;
                assert((head + tail)[head.len() + k] == p);
                assert(git_parents(es).contains(p));
            }
        }
    }
}

} // verus!
