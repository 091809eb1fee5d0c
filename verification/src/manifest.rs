use vstd::prelude::*;
use crate::bytes::{skip_blanks, lemma_skip_blanks_run, skip_blanks_exec, match_at};

verus! {

/// One discovered repository: its remote URL, as bytes.
pub struct RepoRecord {
    pub remote: Vec<u8>,
}

impl View for RepoRecord {
    type V = Seq<u8>;

    open spec fn view(&self) -> Seq<u8> {
        self.remote@
    }
}

/// The remote strings of a run of records.
pub open spec fn views_of(rs: Seq<RepoRecord>) -> Seq<Seq<u8>> {
    rs.map_values(|r: RepoRecord| r.remote@)
}

/// Hex digit bytes accepted in a `\u` escape.
pub open spec fn is_hex(b: u8) -> bool {
    (48 <= b <= 57) || (97 <= b <= 102) || (65 <= b <= 70)
}

/// Value of a hex digit byte (meaningful only when `is_hex` holds).
pub open spec fn hex_val(b: u8) -> u8 {
    if 48 <= b <= 57 {
        (b - 48) as u8
    } else if 97 <= b <= 102 {
        (b - 87) as u8
    } else if 65 <= b <= 70 {
        (b - 55) as u8
    } else {
        0
    }
}

/// Lower-case hex digit byte for a value below 16.
pub open spec fn hex_digit(n: u8) -> u8 {
    if n < 10 {
        (48 + n) as u8
    } else {
        (87 + n) as u8
    }
}

/// JSON escaping of one byte of a remote string: quote and backslash get a
/// backslash escape, control bytes a `\u00XX` escape, the rest stand as is.
pub open spec fn escape_byte(b: u8) -> Seq<u8> {
    if b == 34 {
        seq![92u8, 34u8]
    } else if b == 92 {
        seq![92u8, 92u8]
    } else if b < 32 {
        seq![92u8, 117u8, 48u8, 48u8, hex_digit(b / 16), hex_digit(b % 16)]
    } else {
        seq![b]
    }
}

/// JSON escaping of a whole remote string.
pub open spec fn escape(s: Seq<u8>) -> Seq<u8>
    decreases s.len(),
{
    if s.len() == 0 {
        Seq::empty()
    } else {
        escape_byte(s[0]) + escape(s.drop_first())
    }
}

/// The bytes `{ "remote": "` that open a record object.
pub open spec fn core_prefix() -> Seq<u8> {
    seq![123u8, 32u8, 34u8, 114u8, 101u8, 109u8, 111u8, 116u8, 101u8, 34u8, 58u8, 32u8, 34u8]
}

/// The bytes `" }` that close a record object.
pub open spec fn core_suffix() -> Seq<u8> {
    seq![34u8, 32u8, 125u8]
}

/// The JSON object for one record.
pub open spec fn record_core(r: Seq<u8>) -> Seq<u8> {
    core_prefix() + escape(r) + core_suffix()
}

/// The separator between records: a comma, then the next line's indent.
pub open spec fn record_sep() -> Seq<u8> {
    seq![44u8, 10u8, 32u8, 32u8]
}

/// The record objects of a non-empty manifest, joined by separators.
pub open spec fn records_text(rs: Seq<Seq<u8>>) -> Seq<u8>
    decreases rs.len(),
{
    if rs.len() <= 1 {
        record_core(rs[0])
    } else {
        record_core(rs[0]) + record_sep() + records_text(rs.drop_first())
    }
}

/// The pretty-printed JSON text of a whole manifest.
pub open spec fn manifest_json(rs: Seq<Seq<u8>>) -> Seq<u8> {
    if rs.len() == 0 {
        seq![91u8, 93u8]
    } else {
        seq![91u8, 10u8, 32u8, 32u8] + records_text(rs) + seq![10u8, 93u8]
    }
}

/// Escaping distributes over concatenation.
pub proof fn lemma_escape_append(a: Seq<u8>, b: Seq<u8>)
    ensures
        escape(a + b) == escape(a) + escape(b),
    decreases a.len(),
{
    if a.len() == 0 {
        assert(a + b =~= b);
        assert(escape(a) + escape(b) =~= escape(b));
    } else {
        assert((a + b).drop_first() =~= a.drop_first() + b);
        lemma_escape_append(a.drop_first(), b);
        assert((a + b).len() > 0);
        assert((a + b)[0] == a[0]);
        assert(escape(a + b) =~= escape(a) + escape(b));
    }
}

/// Escaping one byte is escaping the singleton.
pub proof fn lemma_escape_one(b: u8)
    ensures
        escape(seq![b]) == escape_byte(b),
{
    assert(seq![b].drop_first() =~= Seq::<u8>::empty());
    assert(escape(seq![b].drop_first()) == Seq::<u8>::empty());
    assert(escape_byte(b) + Seq::<u8>::empty() =~= escape_byte(b));
    assert(escape(seq![b]) =~= escape_byte(b));
}

/// Appends the escaped form of `s` onto `out`.
fn escape_into(out: &mut Vec<u8>, s: &Vec<u8>)
    ensures
        final(out)@ == old(out)@ + escape(s@),
{
    let mut i: usize = 0;
    while i < s.len()
        invariant
            i <= s@.len(),
            out@ == old(out)@ + escape(s@.take(i as int)),
        decreases s@.len() - i,
    {
        let b: u8 = s[i];
        if b == 34 {
            out.push(92);
            out.push(34);
        } else if b == 92 {
            out.push(92);
            out.push(92);
        } else if b < 32 {
            out.push(92);
            out.push(117);
            out.push(48);
            out.push(48);
            let hi: u8 = b / 16;
            let lo: u8 = b % 16;
            if hi < 10 {
                out.push(48 + hi);
            } else {
                out.push(87 + hi);
            }
            if lo < 10 {
                out.push(48 + lo);
            } else {
                out.push(87 + lo);
            }
        } else {
            out.push(b);
        }
        proof {
            assert(s@.take(i + 1) =~= s@.take(i as int) + seq![s@[i as int]]);
            lemma_escape_append(s@.take(i as int), seq![s@[i as int]]);
            lemma_escape_one(s@[i as int]);
            assert(out@ =~= old(out)@ + escape(s@.take(i + 1)));
        }
        i += 1;
    }
    proof {
        assert(s@.take(s@.len() as int) =~= s@);
    }
}

/// Appends `{ "remote": "` onto `out`.
fn push_core_prefix(out: &mut Vec<u8>)
    ensures
        final(out)@ == old(out)@ + core_prefix(),
{
    out.push(123);
    out.push(32);
    out.push(34);
    out.push(114);
    out.push(101);
    out.push(109);
    out.push(111);
    out.push(116);
    out.push(101);
    out.push(34);
    out.push(58);
    out.push(32);
    out.push(34);
    proof {
        assert(out@ =~= old(out)@ + core_prefix());
    }
}

/// Produces the manifest's pretty-printed JSON text.
pub fn serialize_manifest(records: &Vec<RepoRecord>) -> (r: Vec<u8>)
    ensures
        r@ == manifest_json(views_of(records@)),
{
    let ghost vs = views_of(records@);
    let mut out: Vec<u8> = Vec::new();
    if records.len() == 0 {
        out.push(91);
        out.push(93);
        proof {
            assert(out@ =~= manifest_json(vs));
        }
        return out;
    }
    out.push(91);
    out.push(10);
    out.push(32);
    out.push(32);
    let ghost open_bytes = seq![91u8, 10u8, 32u8, 32u8];
    proof {
        assert(out@ =~= open_bytes);
    }
    let mut i: usize = 0;
    while i < records.len()
        invariant
            records@.len() >= 1,
            i <= records@.len(),
            vs == views_of(records@),
            vs.len() == records@.len(),
            i == 0 ==> out@ == open_bytes,
            i >= 1 ==> out@ == open_bytes + records_text(vs.take(i as int)),
        decreases records@.len() - i,
    {
        if i > 0 {
            out.push(44);
            out.push(10);
            out.push(32);
            out.push(32);
            proof {
                assert(out@ =~= open_bytes + records_text(vs.take(i as int)) + record_sep());
            }
        }
        let ghost before = out@;
        push_core_prefix(&mut out);
        escape_into(&mut out, &records[i].remote);
        out.push(34);
        out.push(32);
        out.push(125);
        proof {
            assert(records@[i as int].remote@ == vs[i as int]);
            assert(out@ =~= before + record_core(vs[i as int]));
            if i == 0 {
                assert(records_text(vs.take(1)) == record_core(vs.take(1)[0]));
                assert(vs.take(1)[0] == vs[0]);
                assert(out@ =~= open_bytes + records_text(vs.take(1)));
            } else {
                lemma_records_text_snoc(vs, i as int);
                assert(out@ =~= open_bytes + records_text(vs.take(i + 1)));
            }
        }
        i += 1;
    }
    out.push(10);
    out.push(93);
    proof {
        assert(vs.take(vs.len() as int) =~= vs);
        assert(out@ =~= manifest_json(vs));
    }
    out
}

/// The bytes `"remote"` expected as the key of a record object.
pub open spec fn key_text() -> Seq<u8> {
    seq![34u8, 114u8, 101u8, 109u8, 111u8, 116u8, 101u8, 34u8]
}

/// Parses a JSON string body starting just after its opening quote: the
/// unescaped content and the position just after the closing quote.
pub open spec fn sp_string_body(s: Seq<u8>, i: nat) -> Option<(Seq<u8>, nat)>
    decreases s.len() - i,
{
    if i >= s.len() {
        None
    } else if s[i as int] == 34 {
        Some((Seq::empty(), (i + 1) as nat))
    } else if s[i as int] == 92 {
        if i + 2 <= s.len() {
            let c = s[i + 1 as int];
            if c == 34 || c == 92 {
                match sp_string_body(s, (i + 2) as nat) {
                    Some(p) => Some((seq![c] + p.0, p.1)),
                    None => None,
                }
            } else if c == 117 {
                if i + 6 <= s.len() {
                    let h1 = s[i + 2 as int];
                    let h2 = s[i + 3 as int];
                    let h3 = s[i + 4 as int];
                    let h4 = s[i + 5 as int];
                    if is_hex(h1) && is_hex(h2) && is_hex(h3) && is_hex(h4) && hex_val(h1) == 0
                        && hex_val(h2) == 0 {
                        let b = (hex_val(h3) * 16 + hex_val(h4)) as u8;
                        match sp_string_body(s, (i + 6) as nat) {
                            Some(p) => Some((seq![b] + p.0, p.1)),
                            None => None,
                        }
                    } else {
                        None
                    }
                } else {
                    None
                }
            } else {
                None
            }
        } else {
            None
        }
    } else if s[i as int] < 32 {
        None
    } else {
        match sp_string_body(s, (i + 1) as nat) {
            Some(p) => Some((seq![s[i as int]] + p.0, p.1)),
            None => None,
        }
    }
}

/// Parses one record object starting at its opening brace: the remote string
/// and the position just after the closing brace.
pub open spec fn sp_record(s: Seq<u8>, i: nat) -> Option<(Seq<u8>, nat)> {
    if i < s.len() && s[i as int] == 123 {
        let j = skip_blanks(s, (i + 1) as nat);
        if j + 8 <= s.len() && s.subrange(j as int, j + 8 as int) == key_text() {
            let k = skip_blanks(s, (j + 8) as nat);
            if k < s.len() && s[k as int] == 58 {
                let m = skip_blanks(s, (k + 1) as nat);
                if m < s.len() && s[m as int] == 34 {
                    match sp_string_body(s, (m + 1) as nat) {
                        Some(p) => {
                            let f = skip_blanks(s, p.1);
                            if f < s.len() && s[f as int] == 125 {
                                Some((p.0, (f + 1) as nat))
                            } else {
                                None
                            }
                        },
                        None => None,
                    }
                } else {
                    None
                }
            } else {
                None
            }
        } else {
            None
        }
    } else {
        None
    }
}

/// Parses a comma-separated run of record objects starting at the first one:
/// the remote strings and the position just after the last closing brace.
pub open spec fn sp_records(s: Seq<u8>, i: nat) -> Option<(Seq<Seq<u8>>, nat)>
    decreases s.len() - i,
{
    match sp_record(s, i) {
        None => None,
        Some(p) => {
            let k = skip_blanks(s, p.1);
            if k < s.len() && s[k as int] == 44 {
                let m = skip_blanks(s, (k + 1) as nat);
                if i < m && m <= s.len() {
                    match sp_records(s, m) {
                        Some(q) => Some((seq![p.0] + q.0, q.1)),
                        None => None,
                    }
                } else {
                    None
                }
            } else {
                Some((seq![p.0], p.1))
            }
        },
    }
}

/// Parses a whole manifest: a JSON array of record objects, with nothing but
/// blanks around it.
pub open spec fn spec_parse_manifest(s: Seq<u8>) -> Option<Seq<Seq<u8>>> {
    let i = skip_blanks(s, 0);
    if i < s.len() && s[i as int] == 91 {
        let j = skip_blanks(s, (i + 1) as nat);
        if j < s.len() && s[j as int] == 93 {
            if skip_blanks(s, (j + 1) as nat) == s.len() {
                Some(Seq::empty())
            } else {
                None
            }
        } else {
            match sp_records(s, j) {
                None => None,
                Some(p) => {
                    let m = skip_blanks(s, p.1);
                    if m < s.len() && s[m as int] == 93 && skip_blanks(s, (m + 1) as nat)
                        == s.len() {
                        Some(p.0)
                    } else {
                        None
                    }
                },
            }
        }
    } else {
        None
    }
}

/// Parses a string body, mirroring `sp_string_body`.
fn parse_string_body(s: &Vec<u8>, start: usize) -> (r: Option<(Vec<u8>, usize)>)
    requires
        start <= s@.len(),
    ensures
        match r {
            Some(p) => sp_string_body(s@, start as nat) == Some((p.0@, p.1 as nat)) && start
                < p.1 <= s@.len(),
            None => sp_string_body(s@, start as nat) is None,
        },
{
    let mut acc: Vec<u8> = Vec::new();
    let mut i: usize = start;
    loop
        invariant
            start <= i <= s@.len(),
            match sp_string_body(s@, i as nat) {
                Some(p) => sp_string_body(s@, start as nat) == Some((acc@ + p.0, p.1)),
                None => sp_string_body(s@, start as nat) is None,
            },
        decreases s@.len() - i,
    {
        if i >= s.len() {
            return None;
        }
        let c: u8 = s[i];
        if c == 34 {
            proof {
                assert(acc@ + Seq::<u8>::empty() =~= acc@);
            }
            return Some((acc, i + 1));
        }
        if c == 92 {
            if s.len() - i < 2 {
                return None;
            }
            let d: u8 = s[i + 1];
            if d == 34 || d == 92 {
                let ghost prev = acc@;
                acc.push(d);
                proof {
                    match sp_string_body(s@, (i + 2) as nat) {
                        Some(p) => {
                            assert(acc@ + p.0 =~= prev + (seq![d] + p.0));
                        },
                        None => {},
                    }
                }
                i += 2;
            } else if d == 117 {
                if s.len() - i < 6 {
                    return None;
                }
                let h1: u8 = s[i + 2];
                let h2: u8 = s[i + 3];
                let h3: u8 = s[i + 4];
                let h4: u8 = s[i + 5];
                let ok = (48 <= h1 && h1 <= 57 || 97 <= h1 && h1 <= 102 || 65 <= h1 && h1 <= 70)
                    && (48 <= h2 && h2 <= 57 || 97 <= h2 && h2 <= 102 || 65 <= h2 && h2 <= 70)
                    && (48 <= h3 && h3 <= 57 || 97 <= h3 && h3 <= 102 || 65 <= h3 && h3 <= 70)
                    && (48 <= h4 && h4 <= 57 || 97 <= h4 && h4 <= 102 || 65 <= h4 && h4 <= 70);
                if !ok || h1 != 48 || h2 != 48 {
                    proof {
                        assert(is_hex(h1) && hex_val(h1) == 0 ==> h1 == 48);
                        assert(is_hex(h2) && hex_val(h2) == 0 ==> h2 == 48);
                    }
                    return None;
                }
                let v3: u8 = if h3 <= 57 {
                    h3 - 48
                } else if h3 >= 97 {
                    h3 - 87
                } else {
                    h3 - 55
                };
                let v4: u8 = if h4 <= 57 {
                    h4 - 48
                } else if h4 >= 97 {
                    h4 - 87
                } else {
                    h4 - 55
                };
                let b: u8 = v3 * 16 + v4;
                let ghost prev = acc@;
                acc.push(b);
                proof {
                    match sp_string_body(s@, (i + 6) as nat) {
                        Some(p) => {
                            assert(acc@ + p.0 =~= prev + (seq![b] + p.0));
                        },
                        None => {},
                    }
                }
                i += 6;
            } else {
                return None;
            }
        } else if c < 32 {
            return None;
        } else {
            let ghost prev = acc@;
            acc.push(c);
            proof {
                match sp_string_body(s@, (i + 1) as nat) {
                    Some(p) => {
                        assert(acc@ + p.0 =~= prev + (seq![c] + p.0));
                    },
                    None => {},
                }
            }
            i += 1;
        }
    }
}

/// Parses one record object, mirroring `sp_record`.
fn parse_record(s: &Vec<u8>, i: usize) -> (r: Option<(Vec<u8>, usize)>)
    requires
        i <= s@.len(),
    ensures
        match r {
            Some(p) => sp_record(s@, i as nat) == Some((p.0@, p.1 as nat)) && i < p.1 <= s@.len(),
            None => sp_record(s@, i as nat) is None,
        },
{
    if i >= s.len() || s[i] != 123 {
        return None;
    }
    let j: usize = skip_blanks_exec(s, i + 1);
    if s.len() - j < 8 {
        return None;
    }
    let mut key: Vec<u8> = Vec::new();
    key.push(34);
    key.push(114);
    key.push(101);
    key.push(109);
    key.push(111);
    key.push(116);
    key.push(101);
    key.push(34);
    proof {
        assert(key@ =~= key_text());
    }
    if !match_at(s, j, &key) {
        return None;
    }
    let k: usize = skip_blanks_exec(s, j + 8);
    if k >= s.len() || s[k] != 58 {
        return None;
    }
    let m: usize = skip_blanks_exec(s, k + 1);
    if m >= s.len() || s[m] != 34 {
        return None;
    }
    match parse_string_body(s, m + 1) {
        None => None,
        Some((v, e)) => {
            let f: usize = skip_blanks_exec(s, e);
            if f >= s.len() || s[f] != 125 {
                None
            } else {
                Some((v, f + 1))
            }
        },
    }
}

/// Parses a run of record objects, mirroring `sp_records`.
fn parse_records(s: &Vec<u8>, start: usize) -> (r: Option<(Vec<RepoRecord>, usize)>)
    requires
        start <= s@.len(),
    ensures
        match r {
            Some(p) => sp_records(s@, start as nat) == Some((views_of(p.0@), p.1 as nat)) && start
                < p.1 <= s@.len(),
            None => sp_records(s@, start as nat) is None,
        },
{
    let mut acc: Vec<RepoRecord> = Vec::new();
    let mut cur: usize = start;
    proof {
        match sp_records(s@, start as nat) {
            Some(p) => {
                assert(views_of(acc@) + p.0 =~= p.0);
            },
            None => {},
        }
    }
    loop
        invariant
            start <= cur <= s@.len(),
            match sp_records(s@, cur as nat) {
                Some(p) => sp_records(s@, start as nat) == Some((views_of(acc@) + p.0, p.1)),
                None => sp_records(s@, start as nat) is None,
            },
        decreases s@.len() - cur,
    {
        match parse_record(s, cur) {
            None => {
                return None;
            },
            Some((v, j)) => {
                let ghost prev = acc@;
                acc.push(RepoRecord { remote: v });
                proof {
                    assert(views_of(acc@) =~= views_of(prev) + seq![v@]);
                }
                let k: usize = skip_blanks_exec(s, j);
                if k < s.len() && s[k] == 44 {
                    let m: usize = skip_blanks_exec(s, k + 1);
                    proof {
                        assert(cur < m && m <= s@.len());
                        match sp_records(s@, m as nat) {
                            Some(q) => {
                                assert(sp_records(s@, cur as nat) == Some(
                                    (seq![v@] + q.0, q.1),
                                ));
                                assert(views_of(prev) + (seq![v@] + q.0) =~= views_of(acc@)
                                    + q.0);
                            },
                            None => {
                                assert(sp_records(s@, cur as nat) is None);
                            },
                        }
                    }
                    cur = m;
                } else {
                    proof {
                        assert(sp_records(s@, cur as nat) == Some((seq![v@], j as nat)));
                        assert(views_of(prev) + seq![v@] =~= views_of(acc@));
                    }
                    return Some((acc, j));
                }
            },
        }
    }
}

/// Parses the manifest's JSON text back into records, exactly as
/// `spec_parse_manifest` describes; any text outside that shape is refused.
pub fn parse_manifest(data: &Vec<u8>) -> (r: Option<Vec<RepoRecord>>)
    ensures
        match r {
            Some(rs) => spec_parse_manifest(data@) == Some(views_of(rs@)),
            None => spec_parse_manifest(data@) is None,
        },
{
    let i: usize = skip_blanks_exec(data, 0);
    if i >= data.len() || data[i] != 91 {
        return None;
    }
    let j: usize = skip_blanks_exec(data, i + 1);
    if j < data.len() && data[j] == 93 {
        if skip_blanks_exec(data, j + 1) == data.len() {
            proof {
                assert(views_of(Seq::<RepoRecord>::empty()) =~= Seq::<Seq<u8>>::empty());
            }
            return Some(Vec::new());
        } else {
            return None;
        }
    }
    match parse_records(data, j) {
        None => None,
        Some((rs, k)) => {
            let m: usize = skip_blanks_exec(data, k);
            if m < data.len() && data[m] == 93 && skip_blanks_exec(data, m + 1) == data.len() {
                Some(rs)
            } else {
                None
            }
        },
    }
}

/// Appending one more record to a non-empty run appends a separator and its
/// object to the run's text.
pub proof fn lemma_records_text_snoc(vs: Seq<Seq<u8>>, i: int)
    requires
        1 <= i < vs.len(),
    ensures
        records_text(vs.take(i + 1)) == records_text(vs.take(i)) + record_sep() + record_core(
            vs[i],
        ),
    decreases i,
{
    if i == 1 {
        let t2 = vs.take(2);
        assert(t2.drop_first() =~= seq![vs[1]]);
        assert(records_text(seq![vs[1]]) == record_core(seq![vs[1]][0]));
        assert(records_text(t2) =~= records_text(vs.take(1)) + record_sep() + record_core(vs[1]));
    } else {
        let d = vs.drop_first();
        lemma_records_text_snoc(d, i - 1);
        assert(vs.take(i + 1).drop_first() =~= d.take(i));
        assert(vs.take(i).drop_first() =~= d.take(i - 1));
        assert(vs.take(i + 1)[0] == vs[0]);
        assert(vs.take(i)[0] == vs[0]);
        assert(d[i - 1] == vs[i]);
        assert(records_text(vs.take(i + 1)) == record_core(vs[0]) + record_sep() + records_text(
            d.take(i),
        ));
        assert(records_text(vs.take(i)) == record_core(vs[0]) + record_sep() + records_text(
            d.take(i - 1),
        ));
        assert(records_text(vs.take(i + 1)) =~= records_text(vs.take(i)) + record_sep()
            + record_core(vs[i]));
    }
}

/// Pointwise reading of a subrange equation.
proof fn lemma_subrange_index(s: Seq<u8>, i: int, t: Seq<u8>)
    requires
        0 <= i,
        i + t.len() <= s.len(),
        s.subrange(i, i + t.len()) == t,
    ensures
        forall|k: int| i <= k < i + t.len() ==> #[trigger] s[k] == t[k - i],
{
    assert forall|k: int| i <= k < i + t.len() implies #[trigger] s[k] == t[k - i] by {
        assert(t[k - i] == s.subrange(i, i + t.len())[k - i]);
    }
}

/// Where the text carries `escape(r)` and then a closing quote, the string
/// parser recovers exactly `r` and stops just after the quote.
proof fn lemma_string_body_at(s: Seq<u8>, i: int, r: Seq<u8>)
    requires
        0 <= i,
        i + escape(r).len() + 1 <= s.len(),
        s.subrange(i, i + escape(r).len()) == escape(r),
        s[i + escape(r).len()] == 34,
    ensures
        sp_string_body(s, i as nat) == Some((r, (i + escape(r).len() + 1) as nat)),
    decreases r.len(),
{
    let e = escape(r);
    lemma_subrange_index(s, i, e);
    if r.len() == 0 {
        assert(e.len() == 0);
        assert(s[i] == 34);
        assert(r =~= Seq::<u8>::empty());
        assert(sp_string_body(s, i as nat) == Some((r, (i + 1) as nat)));
    } else {
        let b = r[0];
        let rest = r.drop_first();
        let eb = escape_byte(b);
        let er = escape(rest);
        assert(e == eb + er);
        assert(forall|k: int| 0 <= k < eb.len() ==> #[trigger] e[k] == eb[k]);
        assert(forall|k: int| 0 <= k < er.len() ==> #[trigger] e[eb.len() + k] == er[k]);
        let i2 = i + eb.len();
        assert(s.subrange(i2, i2 + er.len()) =~= er) by {
            assert forall|k: int| 0 <= k < er.len() implies s.subrange(i2, i2 + er.len())[k]
                == er[k] by {
                assert(s[i2 + k] == e[eb.len() + k]);
            }
        }
        assert(s[i2 + er.len()] == 34);
        lemma_string_body_at(s, i2, rest);
        assert(seq![b] + rest =~= r);
        if b == 34 {
            assert(s[i] == 92 && s[i + 1] == 34);
            assert(sp_string_body(s, i as nat) == Some((r, (i + e.len() + 1) as nat)));
        } else if b == 92 {
            assert(s[i] == 92 && s[i + 1] == 92);
            assert(sp_string_body(s, i as nat) == Some((r, (i + e.len() + 1) as nat)));
        } else if b < 32 {
            assert(s[i] == 92 && s[i + 1] == 117);
            assert(s[i + 2] == 48 && s[i + 3] == 48);
            assert(s[i + 4] == hex_digit(b / 16) && s[i + 5] == hex_digit(b % 16));
            assert(is_hex(48) && hex_val(48) == 0);
            assert(b / 16 < 16 && b % 16 < 16);
            assert(is_hex(hex_digit(b / 16)) && hex_val(hex_digit(b / 16)) == b / 16);
            assert(is_hex(hex_digit(b % 16)) && hex_val(hex_digit(b % 16)) == b % 16);
            assert((hex_val(s[i + 4]) * 16 + hex_val(s[i + 5])) as u8 == b);
            assert(sp_string_body(s, i as nat) == Some((r, (i + e.len() + 1) as nat)));
        } else {
            assert(s[i] == b);
            assert(sp_string_body(s, i as nat) == Some((r, (i + e.len() + 1) as nat)));
        }
    }
}

/// Where the text carries a whole record object, the record parser recovers
/// its remote string and stops just after the closing brace.
#[verifier::rlimit(60)]
proof fn lemma_record_at(s: Seq<u8>, i: int, r: Seq<u8>)
    requires
        0 <= i,
        i + record_core(r).len() <= s.len(),
        s.subrange(i, i + record_core(r).len()) == record_core(r),
    ensures
        sp_record(s, i as nat) == Some((r, (i + record_core(r).len()) as nat)),
{
    let core = record_core(r);
    let e = escape(r);
    let cp = core_prefix();
    let cs = core_suffix();
    lemma_subrange_index(s, i, core);
    assert(core.len() == 16 + e.len());
    assert(forall|k: int| 0 <= k < 13 ==> #[trigger] core[k] == cp[k]);
    assert(forall|k: int| 0 <= k < e.len() ==> #[trigger] core[13 + k] == e[k]);
    assert(forall|k: int| 0 <= k < 3 ==> #[trigger] core[13 + e.len() + k] == cs[k]);
    assert(s[i] == 123);
    assert(s[i + 1] == 32 && s[i + 2] == 34);
    lemma_skip_blanks_run(s, (i + 1) as nat, (i + 2) as nat);
    assert(s.subrange(i + 2, i + 10) =~= key_text()) by {
        assert forall|k: int| 0 <= k < 8 implies s.subrange(i + 2, i + 10)[k] == key_text()[k] by {
            assert(s[i + 2 + k] == core[2 + k]);
            assert(core[2 + k] == cp[2 + k]);
        }
    }
    assert(s[i + 10] == 58);
    lemma_skip_blanks_run(s, (i + 10) as nat, (i + 10) as nat);
    assert(s[i + 11] == 32 && s[i + 12] == 34);
    lemma_skip_blanks_run(s, (i + 11) as nat, (i + 12) as nat);
    let i2 = i + 13;
    assert(s.subrange(i2, i2 + e.len()) =~= e) by {
        assert forall|k: int| 0 <= k < e.len() implies s.subrange(i2, i2 + e.len())[k] == e[k] by {
            assert(s[i2 + k] == core[13 + k]);
        }
    }
    assert(s[i2 + e.len()] == cs[0]);
    lemma_string_body_at(s, i2, r);
    let ep = i2 + e.len() + 1;
    assert(s[ep] == 32 && s[ep + 1] == 125);
    lemma_skip_blanks_run(s, ep as nat, (ep + 1) as nat);
    assert(sp_record(s, i as nat) == Some((r, (i + core.len()) as nat)));
}

/// A non-empty run of record objects starts with a brace and is at least as
/// long as one record.
proof fn lemma_records_text_first(rs: Seq<Seq<u8>>)
    requires
        rs.len() >= 1,
    ensures
        records_text(rs).len() >= 16,
        records_text(rs)[0] == 123,
{
    let core0 = record_core(rs[0]);
    assert(core0[0] == core_prefix()[0]);
}

/// Where the text carries a run of record objects followed by the closing
/// line, the run parser recovers exactly those remote strings.
#[verifier::rlimit(60)]
proof fn lemma_records_at(s: Seq<u8>, i: int, rs: Seq<Seq<u8>>)
    requires
        rs.len() >= 1,
        0 <= i,
        i + records_text(rs).len() + 2 <= s.len(),
        s.subrange(i, i + records_text(rs).len()) == records_text(rs),
        s[i + records_text(rs).len()] == 10,
        s[i + records_text(rs).len() + 1] == 93,
    ensures
        sp_records(s, i as nat) == Some((rs, (i + records_text(rs).len()) as nat)),
    decreases rs.len(),
{
    let rt = records_text(rs);
    lemma_subrange_index(s, i, rt);
    let core0 = record_core(rs[0]);
    if rs.len() == 1 {
        assert(rt == core0);
        lemma_record_at(s, i, rs[0]);
        let j = i + core0.len();
        assert(s[j] == 10 && s[j + 1] == 93);
        lemma_skip_blanks_run(s, j as nat, (j + 1) as nat);
        assert(seq![rs[0]] =~= rs);
        assert(sp_records(s, i as nat) == Some((rs, j as nat)));
    } else {
        let d = rs.drop_first();
        let rtd = records_text(d);
        let sep = record_sep();
        assert(rt == core0 + sep + rtd);
        assert(forall|k: int| 0 <= k < core0.len() ==> #[trigger] rt[k] == core0[k]);
        assert(forall|k: int| 0 <= k < 4 ==> #[trigger] rt[core0.len() + k] == sep[k]);
        assert(forall|k: int|
            0 <= k < rtd.len() ==> #[trigger] rt[core0.len() + 4 + k] == rtd[k]);
        assert(s.subrange(i, i + core0.len()) =~= core0) by {
            assert forall|k: int| 0 <= k < core0.len() implies s.subrange(
                i,
                i + core0.len(),
            )[k] == core0[k] by {
                assert(s[i + k] == rt[k]);
            }
        }
        lemma_record_at(s, i, rs[0]);
        let j = i + core0.len();
        assert(s[j] == 44);
        lemma_skip_blanks_run(s, j as nat, j as nat);
        lemma_records_text_first(d);
        assert(s[j + 1] == 10 && s[j + 2] == 32 && s[j + 3] == 32);
        assert(s[j + 4] == rtd[0]);
        lemma_skip_blanks_run(s, (j + 1) as nat, (j + 4) as nat);
        let m = j + 4;
        assert(s.subrange(m, m + rtd.len()) =~= rtd) by {
            assert forall|k: int| 0 <= k < rtd.len() implies s.subrange(m, m + rtd.len())[k]
                == rtd[k] by {
                assert(s[m + k] == rt[core0.len() + 4 + k]);
            }
        }
        assert(m + rtd.len() == i + rt.len());
        assert(s[m + rtd.len()] == 10 && s[m + rtd.len() + 1] == 93);
        lemma_records_at(s, m, d);
        assert(seq![rs[0]] + d =~= rs);
        assert(sp_records(s, i as nat) == Some((rs, (i + rt.len()) as nat)));
    }
}

/// The manifest round trip: parsing the serialized text of any run of remote
/// strings yields exactly that run.
#[verifier::rlimit(60)]
pub proof fn lemma_manifest_round_trip(remotes: Seq<Seq<u8>>)
    ensures
        spec_parse_manifest(manifest_json(remotes)) == Some(remotes),
{
    let s = manifest_json(remotes);
    if remotes.len() == 0 {
        assert(s == seq![91u8, 93u8]);
        assert(s[0] == 91 && s[1] == 93);
        assert(skip_blanks(s, 0) == 0);
        assert(skip_blanks(s, 1) == 1);
        assert(skip_blanks(s, 2) == 2);
        assert(remotes =~= Seq::<Seq<u8>>::empty());
        assert(spec_parse_manifest(s) == Some(remotes));
    } else {
        let rt = records_text(remotes);
        let open_bytes = seq![91u8, 10u8, 32u8, 32u8];
        let close_bytes = seq![10u8, 93u8];
        assert(s == open_bytes + rt + close_bytes);
        assert(s.len() == rt.len() + 6);
        assert(forall|k: int| 0 <= k < 4 ==> #[trigger] s[k] == open_bytes[k]);
        assert(forall|k: int| 0 <= k < rt.len() ==> #[trigger] s[4 + k] == rt[k]);
        assert(forall|k: int| 0 <= k < 2 ==> #[trigger] s[4 + rt.len() + k] == close_bytes[k]);
        lemma_records_text_first(remotes);
        assert(s[0] == 91 && s[1] == 10 && s[2] == 32 && s[3] == 32);
        assert(s[4] == rt[0]);
        assert(skip_blanks(s, 0) == 0);
        lemma_skip_blanks_run(s, 1, 4);
        assert(s.subrange(4, 4 + rt.len() as int) =~= rt) by {
            assert forall|k: int| 0 <= k < rt.len() implies s.subrange(4, 4 + rt.len() as int)[k]
                == rt[k] by {
                assert(s[4 + k] == rt[k]);
            }
        }
        let z: int = 4 + rt.len() as int;
        assert(s[z] == 10 && s[z + 1] == 93);
        lemma_records_at(s, 4, remotes);
        lemma_skip_blanks_run(s, z as nat, (z + 1) as nat);
        assert(skip_blanks(s, (z + 2) as nat) == s.len());
        assert(spec_parse_manifest(s) == Some(remotes));
    }
}

} // verus!
