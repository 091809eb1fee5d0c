use vstd::prelude::*;

verus! {

/// The bytes of an ASCII character sequence, one byte per character.
pub open spec fn bytes_of(s: Seq<char>) -> Seq<u8> {
    Seq::new(s.len(), |i| s[i] as u8)
}

/// `p` is a prefix of `s`.
pub open spec fn starts_with(s: Seq<u8>, p: Seq<u8>) -> bool {
    p.len() <= s.len() && s.subrange(0, p.len() as int) == p
}

/// `p` is a suffix of `s`.
pub open spec fn ends_with(s: Seq<u8>, p: Seq<u8>) -> bool {
    p.len() <= s.len() && s.subrange(s.len() - p.len(), s.len() as int) == p
}

/// Index of the first occurrence of `b` in `s` at or after position `i`.
pub open spec fn find_from(s: Seq<u8>, b: u8, i: nat) -> Option<nat>
    decreases s.len() - i,
{
    if i >= s.len() {
        None
    } else if s[i as int] == b {
        Some(i)
    } else {
        find_from(s, b, (i + 1) as nat)
    }
}

/// Blank bytes: space, tab, line feed, carriage return.
pub open spec fn is_blank(b: u8) -> bool {
    b == 32 || b == 9 || b == 10 || b == 13
}

/// First position at or after `i` holding a non-blank byte (or the length).
pub open spec fn skip_blanks(s: Seq<u8>, i: nat) -> nat
    decreases s.len() - i,
{
    if i < s.len() && is_blank(s[i as int]) {
        skip_blanks(s, (i + 1) as nat)
    } else {
        i
    }
}

/// End (exclusive) of the last non-blank byte at position < `j` (or 0).
pub open spec fn trim_end_from(s: Seq<u8>, j: nat) -> nat
    decreases j,
{
    if j > 0 && j <= s.len() && is_blank(s[j - 1]) {
        trim_end_from(s, (j - 1) as nat)
    } else {
        j
    }
}

/// `s` with leading and trailing blanks removed.
pub open spec fn trim_spec(s: Seq<u8>) -> Seq<u8> {
    let a = skip_blanks(s, 0);
    let z = trim_end_from(s, s.len());
    if a <= z {
        s.subrange(a as int, z as int)
    } else {
        Seq::empty()
    }
}

/// If every byte in `[i, j)` is blank and `s[j]` is not, skipping blanks from `i` lands on `j`.
pub proof fn lemma_skip_blanks_run(s: Seq<u8>, i: nat, j: nat)
    requires
        i <= j <= s.len(),
        forall|k: int| i <= k < j ==> is_blank(#[trigger] s[k]),
        j < s.len() ==> !is_blank(s[j as int]),
    ensures
        skip_blanks(s, i) == j,
    decreases j - i,
{
    if i < j {
        lemma_skip_blanks_run(s, (i + 1) as nat, j);
    }
}

pub fn has_prefix(s: &Vec<u8>, p: &Vec<u8>) -> (r: bool)
    ensures
        r == starts_with(s@, p@),
{
    if p.len() > s.len() {
        return false;
    }
    let mut i: usize = 0;
    while i < p.len()
        invariant
            i <= p@.len() <= s@.len(),
            forall|j: int| 0 <= j < i ==> s@[j] == p@[j],
        decreases p@.len() - i,
    {
        if s[i] != p[i] {
            proof {
                assert(s@.subrange(0, p@.len() as int)[i as int] != p@[i as int]);
            }
            return false;
        }
        i += 1;
    }
    proof {
        assert(s@.subrange(0, p@.len() as int) =~= p@);
    }
    true
}

pub fn has_suffix(s: &Vec<u8>, p: &Vec<u8>) -> (r: bool)
    ensures
        r == ends_with(s@, p@),
{
    if p.len() > s.len() {
        return false;
    }
    let off: usize = s.len() - p.len();
    let mut i: usize = 0;
    while i < p.len()
        invariant
            i <= p@.len() <= s@.len(),
            s@.len() <= usize::MAX,
            off == s@.len() - p@.len(),
            forall|j: int| 0 <= j < i ==> s@[off + j] == p@[j],
        decreases p@.len() - i,
    {
        if s[off + i] != p[i] {
            proof {
                assert(s@.subrange(s@.len() - p@.len(), s@.len() as int)[i as int] != p@[i as int]);
            }
            return false;
        }
        i += 1;
    }
    proof {
        assert(s@.subrange(s@.len() - p@.len(), s@.len() as int) =~= p@);
    }
    true
}

pub fn find_byte_from(s: &Vec<u8>, b: u8, from: usize) -> (r: Option<usize>)
    requires
        from <= s@.len(),
    ensures
        match r {
            Some(k) => find_from(s@, b, from as nat) == Some(k as nat) && from <= k < s@.len()
                && s@[k as int] == b,
            None => find_from(s@, b, from as nat) is None,
        },
{
    let mut i: usize = from;
    while i < s.len()
        invariant
            from <= i <= s@.len(),
            find_from(s@, b, from as nat) == find_from(s@, b, i as nat),
        decreases s@.len() - i,
    {
        if s[i] == b {
            return Some(i);
        }
        i += 1;
    }
    None
}

/// Advances `i` past any blank bytes.
pub fn skip_blanks_exec(s: &Vec<u8>, i: usize) -> (r: usize)
    requires
        i <= s@.len(),
    ensures
        r == skip_blanks(s@, i as nat),
        i <= r <= s@.len(),
{
    let mut a: usize = i;
    while a < s.len() && (s[a] == 32 || s[a] == 9 || s[a] == 10 || s[a] == 13)
        invariant
            i <= a <= s@.len(),
            skip_blanks(s@, i as nat) == skip_blanks(s@, a as nat),
        decreases s@.len() - a,
    {
        a += 1;
    }
    proof {
        assert(skip_blanks(s@, a as nat) == a);
    }
    a
}

/// Whether `p` occurs in `s` at position `at`.
pub fn match_at(s: &Vec<u8>, at: usize, p: &Vec<u8>) -> (r: bool)
    requires
        at + p@.len() <= s@.len(),
    ensures
        r == (s@.subrange(at as int, at + p@.len()) == p@),
{
    let n: usize = s.len();
    proof {
        assert(s@.len() <= usize::MAX);
    }
    let mut i: usize = 0;
    while i < p.len()
        invariant
            i <= p@.len(),
            at + p@.len() <= s@.len(),
            s@.len() <= usize::MAX,
            forall|j: int| 0 <= j < i ==> s@[at + j] == p@[j],
        decreases p@.len() - i,
    {
        if s[at + i] != p[i] {
            proof {
                assert(s@.subrange(at as int, at + p@.len())[i as int] != p@[i as int]);
            }
            return false;
        }
        i += 1;
    }
    proof {
        assert(s@.subrange(at as int, at + p@.len()) =~= p@);
    }
    true
}

/// Copies `s[from..to]` into a fresh vector.
pub fn subvec(s: &Vec<u8>, from: usize, to: usize) -> (r: Vec<u8>)
    requires
        from <= to <= s@.len(),
    ensures
        r@ == s@.subrange(from as int, to as int),
{
    let mut r: Vec<u8> = Vec::new();
    let mut i: usize = from;
    while i < to
        invariant
            from <= i <= to <= s@.len(),
            r@ == s@.subrange(from as int, i as int),
        decreases to - i,
    {
        r.push(s[i]);
        proof {
            assert(r@ =~= s@.subrange(from as int, (i + 1) as int));
        }
        i += 1;
    }
    r
}

/// Copies a whole vector.
pub fn copy_vec(s: &Vec<u8>) -> (r: Vec<u8>)
    ensures
        r@ == s@,
{
    let r = subvec(s, 0, s.len());
    proof {
        assert(s@.subrange(0, s@.len() as int) =~= s@);
    }
    r
}

/// Appends all of `src` onto `dst`.
pub fn extend_from(dst: &mut Vec<u8>, src: &Vec<u8>)
    ensures
        final(dst)@ == old(dst)@ + src@,
{
    let mut i: usize = 0;
    while i < src.len()
        invariant
            i <= src@.len(),
            dst@ == old(dst)@ + src@.subrange(0, i as int),
        decreases src@.len() - i,
    {
        dst.push(src[i]);
        proof {
            assert(dst@ =~= old(dst)@ + src@.subrange(0, (i + 1) as int));
        }
        i += 1;
    }
    proof {
        assert(dst@ =~= old(dst)@ + src@);
    }
}

/// The byte sequences of a run of byte vectors.
pub open spec fn vec_views(vs: Seq<Vec<u8>>) -> Seq<Seq<u8>> {
    vs.map_values(|v: Vec<u8>| v@)
}

/// Byte-for-byte equality of two vectors.
pub fn vec_eq(a: &Vec<u8>, b: &Vec<u8>) -> (r: bool)
    ensures
        r == (a@ == b@),
{
    if a.len() != b.len() {
        return false;
    }
    let mut i: usize = 0;
    while i < a.len()
        invariant
            i <= a@.len(),
            a@.len() == b@.len(),
            forall|j: int| 0 <= j < i ==> a@[j] == b@[j],
        decreases a@.len() - i,
    {
        if a[i] != b[i] {
            return false;
        }
        i += 1;
    }
    proof {
        assert(a@ =~= b@);
    }
    true
}

/// Index of the last occurrence of `b` in `s` at a position below `j`.
pub open spec fn find_last(s: Seq<u8>, b: u8, j: nat) -> Option<nat>
    decreases j,
{
    if j == 0 || j > s.len() {
        None
    } else if s[j - 1] == b {
        Some((j - 1) as nat)
    } else {
        find_last(s, b, (j - 1) as nat)
    }
}

/// Finds the last occurrence of `b` in the whole vector.
pub fn find_last_byte(s: &Vec<u8>, b: u8) -> (r: Option<usize>)
    ensures
        match r {
            Some(k) => find_last(s@, b, s@.len()) == Some(k as nat) && k < s@.len(),
            None => find_last(s@, b, s@.len()) is None,
        },
{
    let mut j: usize = s.len();
    while j > 0
        invariant
            j <= s@.len(),
            find_last(s@, b, s@.len()) == find_last(s@, b, j as nat),
        decreases j,
    {
        if s[j - 1] == b {
            return Some(j - 1);
        }
        j -= 1;
    }
    None
}

/// Turns an ASCII string slice into its byte vector.
pub fn ascii_bytes(s: &str) -> (r: Vec<u8>)
    requires
        vstd::string::is_ascii(s),
    ensures
        r@ == bytes_of(s@),
{
    proof {
        broadcast use vstd::string::is_ascii_spec_bytes;
    }
    let r = vstd::string::StrSliceExecFns::as_bytes_vec(s);
    proof {
        assert(r@ =~= bytes_of(s@));
    }
    r
}

/// Removes leading and trailing blank bytes.
pub fn trim(s: &Vec<u8>) -> (r: Vec<u8>)
    ensures
        r@ == trim_spec(s@),
{
    let mut a: usize = 0;
    while a < s.len() && (s[a] == 32 || s[a] == 9 || s[a] == 10 || s[a] == 13)
        invariant
            a <= s@.len(),
            skip_blanks(s@, 0) == skip_blanks(s@, a as nat),
        decreases s@.len() - a,
    {
        a += 1;
    }
    proof {
        assert(skip_blanks(s@, a as nat) == a);
    }
    let mut z: usize = s.len();
    while z > 0 && (s[z - 1] == 32 || s[z - 1] == 9 || s[z - 1] == 10 || s[z - 1] == 13)
        invariant
            z <= s@.len(),
            trim_end_from(s@, s@.len()) == trim_end_from(s@, z as nat),
        decreases z,
    {
        z -= 1;
    }
    proof {
        assert(trim_end_from(s@, z as nat) == z);
    }
    if a <= z {
        subvec(s, a, z)
    } else {
        Vec::new()
    }
}

} // verus!
