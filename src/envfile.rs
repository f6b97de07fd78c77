//! A workspace's `.env` file: `KEY=value` lines, `#` comments and blank
//! lines. The supervisor reads the service's port from it and overlays its
//! pairs on the service's environment.
use vstd::prelude::*;
use crate::text::{trim, trim_bounds, parse_unsigned, parse_unsigned_in};

verus! {

/// The port the service listens on when the workspace does not set one.
pub const DEFAULT_API_PORT: u16 = 18900;

/// Where the lines of `s` start and end, `\n` excluded, before a trailing
/// empty piece is dropped.
pub open spec fn segments(s: Seq<u8>) -> Seq<(int, int)>
    decreases s.len(),
{
    if s.len() == 0 {
        seq![(0int, 0int)]
    } else {
        let r = segments(s.drop_last());
        let n = s.len() as int;
        if s[n - 1] == 10u8 {
            r.push((n, n))
        } else {
            r.update(r.len() - 1, (r.last().0, n))
        }
    }
}

/// The lines of `s` as `str::lines` finds them (before a trailing `\r` is
/// dropped): split at `\n`, without an empty piece after a final `\n`.
pub open spec fn line_ranges(s: Seq<u8>) -> Seq<(int, int)> {
    let g = segments(s);
    if g.last().0 == g.last().1 {
        g.drop_last()
    } else {
        g
    }
}

/// The text of a line, without the `\r` of a CRLF ending.
pub open spec fn line_text(s: Seq<u8>, r: (int, int)) -> Seq<u8> {
    if r.0 < r.1 && s[r.1 - 1] == 13u8 {
        s.subrange(r.0, r.1 - 1)
    } else {
        s.subrange(r.0, r.1)
    }
}

pub open spec fn lines(s: Seq<u8>) -> Seq<Seq<u8>> {
    line_ranges(s).map_values(|r: (int, int)| line_text(s, r))
}

pub open spec fn int_pairs(v: Seq<(usize, usize)>) -> Seq<(int, int)> {
    v.map_values(|p: (usize, usize)| (p.0 as int, p.1 as int))
}

proof fn lemma_segments_shape(s: Seq<u8>)
    ensures
        segments(s).len() > 0,
        segments(s).last().1 == s.len(),
        forall|k: int|
            0 <= k < segments(s).len() ==> 0 <= (#[trigger] segments(s)[k]).0 <= segments(s)[k].1
                <= s.len(),
    decreases s.len(),
{
    if s.len() > 0 {
        lemma_segments_shape(s.drop_last());
    }
}

/// The lines of `s`.
pub fn split_lines(s: &[u8]) -> (r: Vec<(usize, usize)>)
    ensures
        int_pairs(r@) == line_ranges(s@),
        forall|k: int| 0 <= k < r@.len() ==> (#[trigger] r@[k]).0 <= r@[k].1 <= s@.len(),
{
    let mut out: Vec<(usize, usize)> = vec![(0usize, 0usize)];
    assert(int_pairs(out@) =~= segments(s@.subrange(0, 0)));
    let mut i: usize = 0;
    while i < s.len()
        invariant
            i <= s@.len(),
            int_pairs(out@) == segments(s@.subrange(0, i as int)),
            out@.len() > 0,
            out@.last().1 == i,
            forall|k: int| 0 <= k < out@.len() ==> (#[trigger] out@[k]).0 <= out@[k].1 <= i,
        decreases s@.len() - i,
    {
        proof {
            let pre = s@.subrange(0, i + 1);
            assert(pre.drop_last() =~= s@.subrange(0, i as int));
            assert(pre[i as int] == s@[i as int]);
        }
        let ghost before = out@;
        if s[i] == 10u8 {
            out.push((i + 1, i + 1));
            assert(int_pairs(out@) =~= int_pairs(before).push((i + 1, i + 1)));
        } else {
            let last = out.len() - 1;
            let start = out[last].0;
            out.set(last, (start, i + 1));
            assert(int_pairs(out@) =~= int_pairs(before).update(last as int, (start as int, i + 1)));
        }
        i = i + 1;
    }
    assert(s@.subrange(0, i as int) =~= s@);
    let last = out.len() - 1;
    if out[last].0 == out[last].1 {
        let ghost before = out@;
        out.pop();
        assert(int_pairs(out@) =~= int_pairs(before).drop_last());
    }
    out
}

/// The end of a line's text: before the `\r` of a CRLF ending.
fn text_end(s: &[u8], a: usize, b: usize) -> (e: usize)
    requires
        a <= b <= s@.len(),
    ensures
        a <= e <= b,
        s@.subrange(a as int, e as int) == line_text(s@, (a as int, b as int)),
{
    if a < b && s[b - 1] == 13u8 {
        b - 1
    } else {
        b
    }
}

// ---------------------------------------------------------------------------
// Pairs
/// One `KEY=value` pair.
pub struct EnvPair {
    pub key: Vec<u8>,
    pub value: Vec<u8>,
}

/// The position of the first `=` in `t` at or after `i`.
pub open spec fn first_eq_from(t: Seq<u8>, i: int) -> Option<int>
    decreases t.len() - i,
{
    if i < 0 || i >= t.len() {
        None
    } else if t[i] == 61u8 {
        Some(i)
    } else {
        first_eq_from(t, i + 1)
    }
}

pub open spec fn first_eq(t: Seq<u8>) -> Option<int> {
    first_eq_from(t, 0)
}

proof fn lemma_first_eq_bounds(t: Seq<u8>, i: int)
    requires
        0 <= i,
    ensures
        first_eq_from(t, i) matches Some(k) ==> i <= k < t.len(),
    decreases t.len() - i,
{
    if i < t.len() && t[i] != 61u8 {
        lemma_first_eq_bounds(t, i + 1);
    }
}

/// The pair a line holds: its trimmed text is not a comment and holds `=`;
/// the key is the trimmed text before the first `=` and must not be empty;
/// the value is the rest, as it stands.
pub open spec fn line_pair(line: Seq<u8>) -> Option<(Seq<u8>, Seq<u8>)> {
    let t = trim(line);
    if t.len() == 0 || t[0] == 35u8 {
        None
    } else {
        match first_eq(t) {
            Some(i) => if trim(t.subrange(0, i)).len() == 0 {
                None
            } else {
                Some((trim(t.subrange(0, i)), t.subrange(i + 1, t.len() as int)))
            },
            None => None,
        }
    }
}

pub open spec fn pairs_of(ls: Seq<Seq<u8>>) -> Seq<(Seq<u8>, Seq<u8>)>
    decreases ls.len(),
{
    if ls.len() == 0 {
        Seq::empty()
    } else {
        let r = pairs_of(ls.drop_last());
        match line_pair(ls.last()) {
            Some(p) => r.push(p),
            None => r,
        }
    }
}

pub open spec fn pair_views(v: Seq<EnvPair>) -> Seq<(Seq<u8>, Seq<u8>)> {
    v.map_values(|p: EnvPair| (p.key@, p.value@))
}

fn copy_range(s: &[u8], a: usize, b: usize) -> (r: Vec<u8>)
    requires
        a <= b <= s@.len(),
    ensures
        r@ == s@.subrange(a as int, b as int),
{
    let mut out: Vec<u8> = Vec::new();
    let mut i: usize = a;
    while i < b
        invariant
            a <= i <= b <= s@.len(),
            out@ == s@.subrange(a as int, i as int),
        decreases b - i,
    {
        out.push(s[i]);
        assert(s@.subrange(a as int, i + 1) =~= s@.subrange(a as int, i as int).push(s@[i as int]));
        i = i + 1;
    }
    out
}

/// The first `=` in `s[a..b]`, as an absolute position.
fn find_eq(s: &[u8], a: usize, b: usize) -> (r: Option<usize>)
    requires
        a <= b <= s@.len(),
    ensures
        match first_eq(s@.subrange(a as int, b as int)) {
            Some(i) => r == Some((a + i) as usize),
            None => r is None,
        },
{
    let ghost t = s@.subrange(a as int, b as int);
    let mut i: usize = a;
    while i < b
        invariant
            a <= i <= b <= s@.len(),
            t == s@.subrange(a as int, b as int),
            first_eq(t) == first_eq_from(t, i - a),
        decreases b - i,
    {
        assert(t[i - a] == s@[i as int]);
        if s[i] == 61u8 {
            return Some(i);
        }
        i = i + 1;
    }
    None
}

/// The pair a line `s[a..b]` holds, if any.
fn pair_in(s: &[u8], a: usize, b: usize) -> (r: Option<EnvPair>)
    requires
        a <= b <= s@.len(),
    ensures
        match line_pair(s@.subrange(a as int, b as int)) {
            Some((k, v)) => r matches Some(p) && p.key@ == k && p.value@ == v,
            None => r is None,
        },
{
    let line = copy_range(s, a, b);
    let (ta, tb) = trim_bounds(line.as_slice());
    let ghost t = trim(line@);
    if ta == tb {
        return None;
    }
    if line[ta] == 35u8 {
        assert(t[0] == line@[ta as int]);
        return None;
    }
    assert(t[0] == line@[ta as int]);
    proof {
        lemma_first_eq_bounds(t, 0);
    }
    match find_eq(line.as_slice(), ta, tb) {
        None => None,
        Some(e) => {
            let ghost i = e - ta;
            let raw_key = copy_range(line.as_slice(), ta, e);
            assert(raw_key@ =~= t.subrange(0, i));
            let (ka, kb) = trim_bounds(raw_key.as_slice());
            if ka == kb {
                return None;
            }
            let key = copy_range(raw_key.as_slice(), ka, kb);
            let value = copy_range(line.as_slice(), e + 1, tb);
            assert(value@ =~= t.subrange(i + 1, t.len() as int));
            Some(EnvPair { key, value })
        },
    }
}

/// The `KEY=value` pairs of a `.env` file, in order.
pub fn read_env_kv(content: &[u8]) -> (r: Vec<EnvPair>)
    ensures
        pair_views(r@) == pairs_of(lines(content@)),
{
    let ls = split_lines(content);
    let ghost all = lines(content@);
    let mut out: Vec<EnvPair> = Vec::new();
    let mut i: usize = 0;
    while i < ls.len()
        invariant
            i <= ls@.len(),
            int_pairs(ls@) == line_ranges(content@),
            forall|k: int| 0 <= k < ls@.len() ==> (#[trigger] ls@[k]).0 <= ls@[k].1 <= content@.len(),
            all == lines(content@),
            all.len() == ls@.len(),
            pair_views(out@) == pairs_of(all.subrange(0, i as int)),
        decreases ls@.len() - i,
    {
        let (a, b) = ls[i];
        let e = text_end(content, a, b);
        proof {
            assert(all[i as int] == line_text(content@, (a as int, b as int)));
            assert(all.subrange(0, i + 1).drop_last() =~= all.subrange(0, i as int));
        }
        match pair_in(content, a, e) {
            Some(p) => {
                let ghost before = out@;
                let ghost pv = (p.key@, p.value@);
                out.push(p);
                assert(pair_views(out@) =~= pair_views(before).push(pv));
            },
            None => {},
        }
        i = i + 1;
    }
    assert(all.subrange(0, i as int) =~= all);
    out
}

// ---------------------------------------------------------------------------
// The service port
pub open spec fn port_key() -> Seq<u8> {
    seq![65u8, 80, 73, 95, 80, 79, 82, 84, 61]
}

/// The port that the first line starting `API_PORT=` (after trimming)
/// sets, if its trimmed rest is a port number; none when no line starts so.
pub open spec fn port_of_lines(ls: Seq<Seq<u8>>) -> Option<u16>
    decreases ls.len(),
{
    if ls.len() == 0 {
        None
    } else {
        let t = trim(ls[0]);
        if t.len() >= 9 && t.subrange(0, 9) == port_key() {
            match parse_unsigned(trim(t.subrange(9, t.len() as int)), u16::MAX as nat) {
                Some(p) => Some(p as u16),
                None => None,
            }
        } else {
            port_of_lines(ls.drop_first())
        }
    }
}

fn starts_with_port_key(t: &Vec<u8>) -> (r: bool)
    ensures
        r == (t@.len() >= 9 && t@.subrange(0, 9) == port_key()),
{
    let k: Vec<u8> = vec![65u8, 80, 73, 95, 80, 79, 82, 84, 61];
    if t.len() < 9 {
        return false;
    }
    let mut i: usize = 0;
    while i < 9
        invariant
            t@.len() >= 9,
            k@ == port_key(),
            i <= 9,
            forall|j: int| 0 <= j < i ==> t@[j] == k@[j],
        decreases 9 - i,
    {
        if t[i] != k[i] {
            assert(t@.subrange(0, 9)[i as int] == t@[i as int]);
            return false;
        }
        i = i + 1;
    }
    assert(t@.subrange(0, 9) =~= port_key());
    true
}

/// The service port that a workspace's `.env` content sets, if any.
pub fn read_workspace_api_port(content: &[u8]) -> (r: Option<u16>)
    ensures
        r == port_of_lines(lines(content@)),
{
    let ls = split_lines(content);
    let ghost all = lines(content@);
    assert(all.subrange(0, all.len() as int) =~= all);
    let mut i: usize = 0;
    while i < ls.len()
        invariant
            i <= ls@.len(),
            int_pairs(ls@) == line_ranges(content@),
            forall|k: int| 0 <= k < ls@.len() ==> (#[trigger] ls@[k]).0 <= ls@[k].1 <= content@.len(),
            all == lines(content@),
            all.len() == ls@.len(),
            port_of_lines(all) == port_of_lines(all.subrange(i as int, all.len() as int)),
        decreases ls@.len() - i,
    {
        let (a, b) = ls[i];
        let e = text_end(content, a, b);
        let line = copy_range(content, a, e);
        let ghost rest = all.subrange(i as int, all.len() as int);
        proof {
            assert(all[i as int] == line_text(content@, (a as int, b as int)));
            assert(rest[0] == line@);
            assert(rest.drop_first() =~= all.subrange(i + 1, all.len() as int));
        }
        let (ta, tb) = trim_bounds(line.as_slice());
        let t = copy_range(line.as_slice(), ta, tb);
        if starts_with_port_key(&t) {
            let rest = copy_range(t.as_slice(), 9, t.len());
            let (pa, pb) = trim_bounds(rest.as_slice());
            return match parse_unsigned_in(rest.as_slice(), pa, pb, 0xffffu64) {
                Some(p) => Some(p as u16),
                None => None,
            };
        }
        i = i + 1;
    }
    None
}

/// The service port of a workspace, or the default one.
pub fn api_port_or_default(content: &[u8]) -> (r: u16)
    ensures
        r == match port_of_lines(lines(content@)) {
            Some(p) => p,
            None => DEFAULT_API_PORT,
        },
{
    match read_workspace_api_port(content) {
        Some(p) => p,
        None => DEFAULT_API_PORT,
    }
}

// ---------------------------------------------------------------------------
// The service's environment
/// The variables forced on the service: UTF-8 output, unbuffered, no colour.
pub open spec fn forced_env() -> Seq<(Seq<u8>, Seq<u8>)> {
    seq![
        (seq![80u8, 89, 84, 72, 79, 78, 85, 84, 70, 56], seq![49u8]),
        (seq![80u8, 89, 84, 72, 79, 78, 73, 79, 69, 78, 67, 79, 68, 73, 78, 71], seq![117u8, 116, 102, 45, 56]),
        (seq![80u8, 89, 84, 72, 79, 78, 85, 78, 66, 85, 70, 70, 69, 82, 69, 68], seq![49u8]),
        (seq![78u8, 79, 95, 67, 79, 76, 79, 82], seq![49u8]),
    ]
}

/// The environment overlay of the service: the forced variables, then the
/// workspace's pairs, which may override them.
pub fn launch_env(workspace_pairs: Vec<EnvPair>) -> (r: Vec<EnvPair>)
    ensures
        pair_views(r@) == forced_env() + pair_views(workspace_pairs@),
{
    let mut out: Vec<EnvPair> = Vec::new();
    out.push(EnvPair { key: vec![80u8, 89, 84, 72, 79, 78, 85, 84, 70, 56], value: vec![49u8] });
    out.push(EnvPair { key: vec![80u8, 89, 84, 72, 79, 78, 73, 79, 69, 78, 67, 79, 68, 73, 78, 71], value: vec![117u8, 116, 102, 45, 56] });
    out.push(EnvPair { key: vec![80u8, 89, 84, 72, 79, 78, 85, 78, 66, 85, 70, 70, 69, 82, 69, 68], value: vec![49u8] });
    out.push(EnvPair { key: vec![78u8, 79, 95, 67, 79, 76, 79, 82], value: vec![49u8] });
    assert(pair_views(out@).len() == 4);
    assert(pair_views(out@)[0] == forced_env()[0]);
    assert(pair_views(out@)[1] == forced_env()[1]);
    assert(pair_views(out@)[2] == forced_env()[2]);
    assert(pair_views(out@)[3] == forced_env()[3]);
    assert(pair_views(out@) =~= forced_env());
    let mut rest = workspace_pairs;
    let ghost head = out@;
    let ghost tail = rest@;
    out.append(&mut rest);
    assert(pair_views(out@) =~= pair_views(head) + pair_views(tail));
    out
}

// ---------------------------------------------------------------------------
// Editing the file
/// One edit requested for the file: a blank value deletes the key.
pub struct EnvEntry {
    pub key: Vec<u8>,
    pub value: Vec<u8>,
}

/// The keys to set (the last value given wins) and the keys to delete.
pub struct Edits {
    pub updates: Map<Seq<u8>, Seq<u8>>,
    pub deletes: Set<Seq<u8>>,
}

pub open spec fn edits_of(es: Seq<EnvEntry>) -> Edits
    decreases es.len(),
{
    if es.len() == 0 {
        Edits { updates: Map::empty(), deletes: Set::empty() }
    } else {
        let e = edits_of(es.drop_last());
        let x = es.last();
        let k = trim(x.key@);
        if k.len() == 0 {
            e
        } else if trim(x.value@).len() == 0 {
            Edits { updates: e.updates, deletes: e.deletes.insert(k) }
        } else {
            Edits { updates: e.updates.insert(k, x.value@), deletes: e.deletes }
        }
    }
}

/// The key of a `KEY=value` line: a line whose trimmed text is no comment
/// and holds `=`; the key is the trimmed text before the first `=`.
pub open spec fn kv_key(line: Seq<u8>) -> Option<Seq<u8>> {
    let t = trim(line);
    if t.len() > 0 && t[0] == 35u8 {
        None
    } else {
        match first_eq(t) {
            Some(i) => Some(trim(t.subrange(0, i))),
            None => None,
        }
    }
}

pub open spec fn assignment(k: Seq<u8>, v: Seq<u8>) -> Seq<u8> {
    k + seq![61u8] + v
}

/// What becomes of a line: deleted, rewritten with its new value, or kept.
pub open spec fn edited_line(line: Seq<u8>, ed: Edits) -> Option<Seq<u8>> {
    match kv_key(line) {
        Some(k) => if ed.deletes.contains(k) {
            None
        } else if ed.updates.contains_key(k) {
            Some(assignment(k, ed.updates[k]))
        } else {
            Some(line)
        },
        None => Some(line),
    }
}

pub open spec fn kept_lines(ls: Seq<Seq<u8>>, ed: Edits) -> Seq<Seq<u8>>
    decreases ls.len(),
{
    if ls.len() == 0 {
        Seq::empty()
    } else {
        let r = kept_lines(ls.drop_last(), ed);
        match edited_line(ls.last(), ed) {
            Some(l) => r.push(l),
            None => r,
        }
    }
}

/// The keys that some line of the file deletes or rewrites.
pub open spec fn seen_keys(ls: Seq<Seq<u8>>, ed: Edits) -> Set<Seq<u8>>
    decreases ls.len(),
{
    if ls.len() == 0 {
        Set::empty()
    } else {
        let r = seen_keys(ls.drop_last(), ed);
        match kv_key(ls.last()) {
            Some(k) => if ed.deletes.contains(k) || ed.updates.contains_key(k) {
                r.insert(k)
            } else {
                r
            },
            None => r,
        }
    }
}

pub open spec fn joined_lines(ls: Seq<Seq<u8>>) -> Seq<u8>
    decreases ls.len(),
{
    if ls.len() == 0 {
        Seq::empty()
    } else if ls.len() == 1 {
        ls[0]
    } else {
        joined_lines(ls.drop_last()) + seq![10u8] + ls.last()
    }
}

pub open spec fn with_final_newline(s: Seq<u8>) -> Seq<u8> {
    if s.len() > 0 && s.last() == 10u8 {
        s
    } else {
        s.push(10u8)
    }
}

/// Strict lexicographic order of byte strings.
pub open spec fn bytes_lt(a: Seq<u8>, b: Seq<u8>) -> bool
    decreases a.len(),
{
    if a.len() == 0 {
        b.len() > 0
    } else if b.len() == 0 {
        false
    } else if a[0] != b[0] {
        a[0] < b[0]
    } else {
        bytes_lt(a.drop_first(), b.drop_first())
    }
}

pub open spec fn strictly_sorted(ks: Seq<Seq<u8>>) -> bool {
    forall|a: int, b: int| 0 <= a < b < ks.len() ==> bytes_lt(#[trigger] ks[a], #[trigger] ks[b])
}

/// The new file: the edited lines, then `KEY=value` for every key to set
/// that no line held, by ascending key, one per line, ending in a newline.
pub open spec fn env_rewrite(existing: Seq<u8>, ed: Edits, ks: Seq<Seq<u8>>) -> Seq<u8> {
    with_final_newline(
        joined_lines(
            kept_lines(lines(existing), ed) + ks.map_values(|k: Seq<u8>| assignment(k, ed.updates[k])),
        ),
    )
}

proof fn lemma_bytes_lt_total(a: Seq<u8>, b: Seq<u8>)
    requires
        a != b,
    ensures
        bytes_lt(a, b) || bytes_lt(b, a),
    decreases a.len(),
{
    if a.len() > 0 && b.len() > 0 {
        if a[0] == b[0] {
            assert(a.drop_first() != b.drop_first()) by {
                if a.drop_first() == b.drop_first() {
                    assert(a =~= seq![a[0]] + a.drop_first());
                    assert(b =~= seq![b[0]] + b.drop_first());
                }
            }
            lemma_bytes_lt_total(a.drop_first(), b.drop_first());
        }
    } else if a.len() == 0 && b.len() == 0 {
        assert(a =~= b);
    }
}

proof fn lemma_bytes_lt_order(a: Seq<u8>, b: Seq<u8>, c: Seq<u8>)
    ensures
        !bytes_lt(a, a),
        bytes_lt(a, b) ==> !bytes_lt(b, a),
        bytes_lt(a, b) && bytes_lt(b, c) ==> bytes_lt(a, c),
    decreases a.len(),
{
    if a.len() > 0 && b.len() > 0 && c.len() > 0 {
        lemma_bytes_lt_order(a.drop_first(), b.drop_first(), c.drop_first());
    }
    if a.len() > 0 && b.len() > 0 {
        lemma_bytes_lt_order(a.drop_first(), b.drop_first(), b.drop_first());
    }
    if a.len() > 0 {
        lemma_bytes_lt_order(a.drop_first(), a.drop_first(), a.drop_first());
    }
}

fn bytes_less(a: &Vec<u8>, b: &Vec<u8>) -> (r: bool)
    ensures
        r == bytes_lt(a@, b@),
{
    let n = a.len();
    let m = b.len();
    let mut i: usize = 0;
    assert(a@.subrange(0, n as int) =~= a@);
    assert(b@.subrange(0, m as int) =~= b@);
    while i < n && i < m && a[i] == b[i]
        invariant
            n == a@.len(),
            m == b@.len(),
            i <= n,
            i <= m,
            bytes_lt(a@, b@) == bytes_lt(a@.subrange(i as int, n as int), b@.subrange(i as int, m as int)),
        decreases n - i,
    {
        proof {
            let x = a@.subrange(i as int, n as int);
            let y = b@.subrange(i as int, m as int);
            assert(x.drop_first() =~= a@.subrange(i + 1, n as int));
            assert(y.drop_first() =~= b@.subrange(i + 1, m as int));
            assert(x[0] == a@[i as int]);
            assert(y[0] == b@[i as int]);
        }
        i = i + 1;
    }
    proof {
        let x = a@.subrange(i as int, n as int);
        let y = b@.subrange(i as int, m as int);
        if i < n {
            assert(x[0] == a@[i as int]);
        }
        if i < m {
            assert(y[0] == b@[i as int]);
        }
    }
    if i == n {
        i < m
    } else if i == m {
        false
    } else {
        a[i] < b[i]
    }
}

pub open spec fn keys_of(v: Seq<EnvPair>) -> Seq<Seq<u8>> {
    v.map_values(|p: EnvPair| p.key@)
}

/// The sorted table of updates stands for the map.
pub open spec fn table_of(v: Seq<EnvPair>, m: Map<Seq<u8>, Seq<u8>>) -> bool {
    &&& strictly_sorted(keys_of(v))
    &&& forall|k: Seq<u8>| m.contains_key(k) <==> exists|j: int| 0 <= j < v.len() && (#[trigger] v[j]).key@ == k
    &&& forall|j: int| 0 <= j < v.len() ==> m.contains_key((#[trigger] v[j]).key@) && m[v[j].key@] == v[j].value@
}

pub open spec fn set_of(v: Seq<Vec<u8>>, s: Set<Seq<u8>>) -> bool {
    forall|k: Seq<u8>| s.contains(k) <==> exists|j: int| 0 <= j < v.len() && (#[trigger] v[j])@ == k
}

fn copy_vec(v: &Vec<u8>) -> (r: Vec<u8>)
    ensures
        r@ == v@,
{
    copy_range(v.as_slice(), 0, v.len())
}

fn contains_bytes(v: &Vec<Vec<u8>>, k: &Vec<u8>) -> (r: bool)
    ensures
        r == exists|j: int| 0 <= j < v@.len() && (#[trigger] v@[j])@ == k@,
{
    let mut i: usize = 0;
    while i < v.len()
        invariant
            i <= v@.len(),
            forall|j: int| 0 <= j < i ==> (#[trigger] v@[j])@ != k@,
        decreases v@.len() - i,
    {
        if eq_vec(&v[i], k) {
            return true;
        }
        i = i + 1;
    }
    false
}

fn eq_vec(a: &Vec<u8>, b: &Vec<u8>) -> (r: bool)
    ensures
        r == (a@ == b@),
{
    if a.len() != b.len() {
        return false;
    }
    let mut i: usize = 0;
    while i < a.len()
        invariant
            a@.len() == b@.len(),
            i <= a@.len(),
            forall|j: int| 0 <= j < i ==> a@[j] == b@[j],
        decreases a@.len() - i,
    {
        if a[i] != b[i] {
            return false;
        }
        i = i + 1;
    }
    assert(a@ =~= b@);
    true
}

/// Where key `k` stands in the sorted table, or where it would go.
fn table_find(t: &Vec<EnvPair>, k: &Vec<u8>) -> (r: (usize, bool))
    requires
        strictly_sorted(keys_of(t@)),
    ensures
        r.0 <= t@.len(),
        r.1 ==> r.0 < t@.len() && t@[r.0 as int].key@ == k@,
        !r.1 ==> forall|j: int| 0 <= j < r.0 ==> bytes_lt((#[trigger] t@[j]).key@, k@),
        !r.1 ==> forall|j: int| r.0 <= j < t@.len() ==> bytes_lt(k@, (#[trigger] t@[j]).key@),
{
    let mut i: usize = 0;
    while i < t.len()
        invariant
            i <= t@.len(),
            strictly_sorted(keys_of(t@)),
            forall|j: int| 0 <= j < i ==> bytes_lt((#[trigger] t@[j]).key@, k@),
        decreases t@.len() - i,
    {
        if !bytes_less(&t[i].key, k) {
            if eq_vec(&t[i].key, k) {
                return (i, true);
            }
            proof {
                lemma_bytes_lt_total(t@[i as int].key@, k@);
                assert forall|j: int| i <= j < t@.len() implies bytes_lt(k@, (#[trigger] t@[j]).key@) by {
                    if j > i {
                        assert(keys_of(t@)[i as int] == t@[i as int].key@);
                        assert(keys_of(t@)[j] == t@[j].key@);
                        lemma_bytes_lt_order(k@, t@[i as int].key@, t@[j].key@);
                    }
                }
            }
            return (i, false);
        }
        i = i + 1;
    }
    (i, false)
}

proof fn lemma_table_insert(t: Seq<EnvPair>, pos: int, x: EnvPair, m: Map<Seq<u8>, Seq<u8>>)
    requires
        table_of(t, m),
        0 <= pos <= t.len(),
        forall|j: int| 0 <= j < pos ==> bytes_lt((#[trigger] t[j]).key@, x.key@),
        forall|j: int| pos <= j < t.len() ==> bytes_lt(x.key@, (#[trigger] t[j]).key@),
    ensures
        table_of(t.insert(pos, x), m.insert(x.key@, x.value@)),
{
    let n = t.insert(pos, x);
    t.insert_ensures(pos, x);
    let m2 = m.insert(x.key@, x.value@);
    assert(forall|j: int| 0 <= j < t.len() ==> (#[trigger] keys_of(t)[j]) == t[j].key@);
    assert forall|a: int, b: int| 0 <= a < b < n.len() implies bytes_lt(
        #[trigger] keys_of(n)[a],
        #[trigger] keys_of(n)[b],
    ) by {
        assert(keys_of(n)[a] == n[a].key@);
        assert(keys_of(n)[b] == n[b].key@);
        if b < pos {
            assert(keys_of(t)[a] == t[a].key@ && keys_of(t)[b] == t[b].key@);
        } else if b == pos {
        } else if a < pos {
            lemma_bytes_lt_order(t[a].key@, x.key@, t[b - 1].key@);
        } else if a == pos {
        } else {
            assert(keys_of(t)[a - 1] == t[a - 1].key@ && keys_of(t)[b - 1] == t[b - 1].key@);
        }
    }
    assert forall|k: Seq<u8>| m2.contains_key(k) <==> exists|j: int|
        0 <= j < n.len() && (#[trigger] n[j]).key@ == k by {
        if m.contains_key(k) {
            let j = choose|j: int| 0 <= j < t.len() && (#[trigger] t[j]).key@ == k;
            if j < pos {
                assert(n[j].key@ == k);
            } else {
                assert(n[j + 1].key@ == k);
            }
        }
        if k == x.key@ {
            assert(n[pos].key@ == k);
        }
        if exists|j: int| 0 <= j < n.len() && (#[trigger] n[j]).key@ == k {
            let j = choose|j: int| 0 <= j < n.len() && (#[trigger] n[j]).key@ == k;
            if j < pos {
                assert(t[j].key@ == k);
            } else if j > pos {
                assert(t[j - 1].key@ == k);
            }
        }
    }
    assert forall|j: int| 0 <= j < n.len() implies m2.contains_key((#[trigger] n[j]).key@) && m2[n[j].key@]
        == n[j].value@ by {
        if j < pos {
            assert(n[j] == t[j]);
            lemma_bytes_lt_order(t[j].key@, x.key@, x.key@);
        } else if j > pos {
            assert(n[j] == t[j - 1]);
            lemma_bytes_lt_order(x.key@, t[j - 1].key@, t[j - 1].key@);
        }
    }
}

proof fn lemma_table_replace(t: Seq<EnvPair>, pos: int, x: EnvPair, m: Map<Seq<u8>, Seq<u8>>)
    requires
        table_of(t, m),
        0 <= pos < t.len(),
        t[pos].key@ == x.key@,
    ensures
        table_of(t.update(pos, x), m.insert(x.key@, x.value@)),
{
    let n = t.update(pos, x);
    let m2 = m.insert(x.key@, x.value@);
    assert(keys_of(n) =~= keys_of(t));
    assert forall|k: Seq<u8>| m2.contains_key(k) <==> exists|j: int|
        0 <= j < n.len() && (#[trigger] n[j]).key@ == k by {
        if m.contains_key(k) {
            let j = choose|j: int| 0 <= j < t.len() && (#[trigger] t[j]).key@ == k;
            assert(n[j].key@ == k);
        }
        if exists|j: int| 0 <= j < n.len() && (#[trigger] n[j]).key@ == k {
            let j = choose|j: int| 0 <= j < n.len() && (#[trigger] n[j]).key@ == k;
            assert(t[j].key@ == k);
        }
    }
    assert forall|j: int| 0 <= j < n.len() implies m2.contains_key((#[trigger] n[j]).key@) && m2[n[j].key@]
        == n[j].value@ by {
        if j != pos {
            assert(keys_of(t)[j] == t[j].key@ && keys_of(t)[pos] == t[pos].key@);
            if j < pos {
                lemma_bytes_lt_order(t[j].key@, t[pos].key@, t[pos].key@);
            } else {
                lemma_bytes_lt_order(t[pos].key@, t[j].key@, t[j].key@);
            }
        }
    }
}

/// The trimmed copy of `v`.
fn trimmed(v: &Vec<u8>) -> (r: Vec<u8>)
    ensures
        r@ == trim(v@),
{
    let (a, b) = trim_bounds(v.as_slice());
    copy_range(v.as_slice(), a, b)
}

/// The sorted table of updates and the keys to delete that the entries ask for.
fn collect_edits(entries: &Vec<EnvEntry>) -> (r: (Vec<EnvPair>, Vec<Vec<u8>>))
    ensures
        table_of(r.0@, edits_of(entries@).updates),
        set_of(r.1@, edits_of(entries@).deletes),
{
    let mut ups: Vec<EnvPair> = Vec::new();
    let mut dels: Vec<Vec<u8>> = Vec::new();
    let mut i: usize = 0;
    while i < entries.len()
        invariant
            i <= entries@.len(),
            table_of(ups@, edits_of(entries@.subrange(0, i as int)).updates),
            set_of(dels@, edits_of(entries@.subrange(0, i as int)).deletes),
        decreases entries@.len() - i,
    {
        let ghost pre = entries@.subrange(0, i + 1);
        let ghost before = edits_of(entries@.subrange(0, i as int));
        proof {
            assert(pre.drop_last() =~= entries@.subrange(0, i as int));
        }
        let e = &entries[i];
        let k = trimmed(&e.key);
        if k.len() > 0 {
            let v = trimmed(&e.value);
            if v.len() == 0 {
                let ghost old_dels = dels@;
                dels.push(k);
                proof {
                    let s2 = before.deletes.insert(k@);
                    assert forall|q: Seq<u8>| s2.contains(q) <==> exists|j: int|
                        0 <= j < dels@.len() && (#[trigger] dels@[j])@ == q by {
                        if before.deletes.contains(q) {
                            let j = choose|j: int| 0 <= j < old_dels.len() && (#[trigger] old_dels[j])@ == q;
                            assert(dels@[j] == old_dels[j]);
                        }
                        if q == k@ {
                            assert(dels@[old_dels.len() as int]@ == q);
                        }
                        if exists|j: int| 0 <= j < dels@.len() && (#[trigger] dels@[j])@ == q {
                            let j = choose|j: int| 0 <= j < dels@.len() && (#[trigger] dels@[j])@ == q;
                            if j < old_dels.len() {
                                assert(old_dels[j] == dels@[j]);
                            }
                        }
                    }
                }
            } else {
                let (pos, found) = table_find(&ups, &k);
                let x = EnvPair { key: k, value: copy_vec(&e.value) };
                let ghost t0 = ups@;
                proof {
                    if found {
                        lemma_table_replace(t0, pos as int, x, before.updates);
                    } else {
                        lemma_table_insert(t0, pos as int, x, before.updates);
                    }
                }
                if found {
                    ups.set(pos, x);
                } else {
                    ups.insert(pos, x);
                }
            }
        }
        i = i + 1;
    }
    assert(entries@.subrange(0, i as int) =~= entries@);
    (ups, dels)
}

/// Appends one line to the joined text of the lines `done`; `any` when
/// there are some.
fn emit_line(out: &mut Vec<u8>, any: bool, line: &Vec<u8>, Ghost(done): Ghost<Seq<Seq<u8>>>)
    requires
        old(out)@ == joined_lines(done),
        any == (done.len() > 0),
    ensures
        final(out)@ == joined_lines(done.push(line@)),
{
    proof {
        assert(done.push(line@).drop_last() =~= done);
    }
    if any {
        out.push(10u8);
    }
    let mut l = copy_vec(line);
    out.append(&mut l);
    proof {
        if !any {
            assert(old(out)@ =~= Seq::<u8>::empty());
            assert(final(out)@ =~= line@);
        } else {
            assert(final(out)@ =~= joined_lines(done) + seq![10u8] + line@);
        }
    }
}

/// `KEY=value`.
fn assignment_of(k: &Vec<u8>, v: &Vec<u8>) -> (r: Vec<u8>)
    ensures
        r@ == assignment(k@, v@),
{
    let mut r = copy_vec(k);
    r.push(61u8);
    let mut w = copy_vec(v);
    r.append(&mut w);
    r
}

/// The key of the line `l`, if it is a `KEY=value` line.
fn kv_key_of(l: &Vec<u8>) -> (r: Option<Vec<u8>>)
    ensures
        match kv_key(l@) {
            Some(k) => r matches Some(x) && x@ == k,
            None => r is None,
        },
{
    let t = trimmed(l);
    if t.len() > 0 && t[0] == 35u8 {
        return None;
    }
    proof {
        lemma_first_eq_bounds(t@, 0);
        assert(t@.subrange(0, t@.len() as int) =~= t@);
    }
    match find_eq(t.as_slice(), 0, t.len()) {
        None => None,
        Some(q) => {
            let raw = copy_range(t.as_slice(), 0, q);
            Some(trimmed(&raw))
        },
    }
}

/// Rewrites a `.env` file with the given edits: a key with a blank value is
/// deleted, any other key set to its value (the last one given wins). Lines
/// that are comments or hold no `=` stay as they are; a line of a deleted key
/// goes; a line of a key to set is rewritten `KEY=value`; keys that no line
/// held are appended by ascending key. Blank keys are ignored, and with no
/// edit at all the text is returned unchanged; otherwise it ends in a
/// newline.
pub fn update_env_content(existing: &[u8], entries: &Vec<EnvEntry>) -> (r: Vec<u8>)
    ensures
        ({
            let ed = edits_of(entries@);
            if ed.updates.dom() == Set::<Seq<u8>>::empty() && ed.deletes == Set::<Seq<u8>>::empty() {
                r@ == existing@
            } else {
                exists|ks: Seq<Seq<u8>>|
                    strictly_sorted(ks) && ks.to_set() == ed.updates.dom().difference(
                        seen_keys(lines(existing@), ed),
                    ) && r@ == env_rewrite(existing@, ed, ks)
            }
        }),
{
    let ghost ed = edits_of(entries@);
    let (ups, dels) = collect_edits(entries);
    if ups.len() == 0 && dels.len() == 0 {
        proof {
            assert(ed.updates.dom() =~= Set::<Seq<u8>>::empty());
            assert(ed.deletes =~= Set::<Seq<u8>>::empty());
        }
        return copy_range(existing, 0, existing.len());
    }
    proof {
        if ups.len() > 0 {
            assert(ed.updates.contains_key(ups@[0].key@));
            assert(ed.updates.dom().contains(ups@[0].key@));
        } else {
            assert(ed.deletes.contains(dels@[0]@));
        }
    }
    let ls = split_lines(existing);
    let ghost all = lines(existing@);
    let mut out: Vec<u8> = Vec::new();
    let mut any: bool = false;
    let mut seen: Vec<Vec<u8>> = Vec::new();
    let mut i: usize = 0;
    while i < ls.len()
        invariant
            i <= ls@.len(),
            int_pairs(ls@) == line_ranges(existing@),
            forall|k: int| 0 <= k < ls@.len() ==> (#[trigger] ls@[k]).0 <= ls@[k].1 <= existing@.len(),
            all == lines(existing@),
            all.len() == ls@.len(),
            ed == edits_of(entries@),
            table_of(ups@, ed.updates),
            set_of(dels@, ed.deletes),
            out@ == joined_lines(kept_lines(all.subrange(0, i as int), ed)),
            any == (kept_lines(all.subrange(0, i as int), ed).len() > 0),
            set_of(seen@, seen_keys(all.subrange(0, i as int), ed)),
        decreases ls@.len() - i,
    {
        let (a, b) = ls[i];
        let e = text_end(existing, a, b);
        let line = copy_range(existing, a, e);
        let ghost pre = all.subrange(0, i + 1);
        let ghost done = kept_lines(all.subrange(0, i as int), ed);
        let ghost seen0 = seen@;
        proof {
            assert(all[i as int] == line_text(existing@, (a as int, b as int)));
            assert(pre.drop_last() =~= all.subrange(0, i as int));
            assert(pre.last() == line@);
        }
        match kv_key_of(&line) {
            None => {
                emit_line(&mut out, any, &line, Ghost(done));
                any = true;
            },
            Some(key) => {
                if contains_bytes(&dels, &key) {
                    seen.push(key);
                } else {
                    let (pos, found) = table_find(&ups, &key);
                    if found {
                        proof {
                            assert(ed.updates[key@] == ups@[pos as int].value@);
                        }
                        let asg = assignment_of(&key, &ups[pos].value);
                        emit_line(&mut out, any, &asg, Ghost(done));
                        any = true;
                        seen.push(key);
                    } else {
                        proof {
                            assert(!ed.updates.contains_key(key@)) by {
                                if ed.updates.contains_key(key@) {
                                    let j = choose|j: int| 0 <= j < ups@.len() && (#[trigger] ups@[j]).key@ == key@;
                                    lemma_bytes_lt_order(key@, key@, key@);
                                    if j < pos {
                                    } else {
                                    }
                                }
                            }
                        }
                        emit_line(&mut out, any, &line, Ghost(done));
                        any = true;
                    }
                }
            },
        }
        proof {
            let sk = seen_keys(pre, ed);
            assert forall|q: Seq<u8>| sk.contains(q) <==> exists|j: int|
                0 <= j < seen@.len() && (#[trigger] seen@[j])@ == q by {
                if seen_keys(all.subrange(0, i as int), ed).contains(q) {
                    let j = choose|j: int| 0 <= j < seen0.len() && (#[trigger] seen0[j])@ == q;
                    assert(seen@[j] == seen0[j]);
                }
                if exists|j: int| 0 <= j < seen@.len() && (#[trigger] seen@[j])@ == q {
                    let j = choose|j: int| 0 <= j < seen@.len() && (#[trigger] seen@[j])@ == q;
                    if j < seen0.len() {
                        assert(seen0[j] == seen@[j]);
                    }
                }
                if seen@.len() > seen0.len() {
                    assert(seen@[seen0.len() as int]@ == kv_key(line@)->0);
                }
            }
        }
        i = i + 1;
    }
    proof {
        assert(all.subrange(0, i as int) =~= all);
    }
    let ghost kept = kept_lines(all, ed);
    let ghost seen_set = seen_keys(all, ed);
    let ghost mut ks: Seq<Seq<u8>> = Seq::empty();
    let mut j: usize = 0;
    while j < ups.len()
        invariant
            j <= ups@.len(),
            table_of(ups@, ed.updates),
            set_of(seen@, seen_set),
            strictly_sorted(ks),
            forall|q: int| 0 <= q < ks.len() ==> exists|a: int| 0 <= a < j && (#[trigger] ks[q]) == ups@[a].key@,
            forall|x: Seq<u8>| ks.contains(x) <==> (exists|a: int| 0 <= a < j && (#[trigger] ups@[a]).key@ == x)
                && !seen_set.contains(x),
            out@ == joined_lines(kept + ks.map_values(|k: Seq<u8>| assignment(k, ed.updates[k]))),
            any == (kept.len() + ks.len() > 0),
        decreases ups@.len() - j,
    {
        let ghost ks0 = ks;
        let ghost pairs0 = kept + ks0.map_values(|k: Seq<u8>| assignment(k, ed.updates[k]));
        if !contains_bytes(&seen, &ups[j].key) {
            proof {
                assert(ed.updates[ups@[j as int].key@] == ups@[j as int].value@);
            }
            let asg = assignment_of(&ups[j].key, &ups[j].value);
            emit_line(&mut out, any, &asg, Ghost(pairs0));
            any = true;
            proof {
                let x = ups@[j as int].key@;
                ks = ks0.push(x);
                assert(kept + ks.map_values(|k: Seq<u8>| assignment(k, ed.updates[k])) =~= pairs0.push(asg@));
                assert forall|a: int, b: int| 0 <= a < b < ks.len() implies bytes_lt(
                    #[trigger] ks[a],
                    #[trigger] ks[b],
                ) by {
                    if b == ks0.len() {
                        let c = choose|c: int| 0 <= c < j && (#[trigger] ks0[a]) == ups@[c].key@;
                        assert(ks0[a] == ups@[c].key@);
                        assert(keys_of(ups@)[c] == ups@[c].key@ && keys_of(ups@)[j as int] == x);
                    } else {
                        assert(ks[a] == ks0[a] && ks[b] == ks0[b]);
                    }
                }
                assert forall|q: int| 0 <= q < ks.len() implies exists|a: int|
                    0 <= a < j + 1 && (#[trigger] ks[q]) == ups@[a].key@ by {
                    if q < ks0.len() {
                        assert(ks[q] == ks0[q]);
                    }
                }
                assert forall|y: Seq<u8>| ks.contains(y) <==> (exists|a: int|
                    0 <= a < j + 1 && (#[trigger] ups@[a]).key@ == y) && !seen_set.contains(y) by {
                    if ks.contains(y) {
                        let q = choose|q: int| 0 <= q < ks.len() && ks[q] == y;
                        if q < ks0.len() {
                            assert(ks0[q] == y);
                            assert(ks0.contains(y));
                        }
                    }
                    if (exists|a: int| 0 <= a < j + 1 && (#[trigger] ups@[a]).key@ == y) && !seen_set.contains(y) {
                        let a = choose|a: int| 0 <= a < j + 1 && (#[trigger] ups@[a]).key@ == y;
                        if a < j {
                            assert(ks0.contains(y));
                            let q = choose|q: int| 0 <= q < ks0.len() && ks0[q] == y;
                            assert(ks[q] == y);
                        } else {
                            assert(ks[ks0.len() as int] == y);
                        }
                    }
                }
            }
        } else {
            proof {
                let x = ups@[j as int].key@;
                assert forall|y: Seq<u8>| ks.contains(y) <==> (exists|a: int|
                    0 <= a < j + 1 && (#[trigger] ups@[a]).key@ == y) && !seen_set.contains(y) by {
                    if (exists|a: int| 0 <= a < j + 1 && (#[trigger] ups@[a]).key@ == y) && !seen_set.contains(y) {
                        let a = choose|a: int| 0 <= a < j + 1 && (#[trigger] ups@[a]).key@ == y;
                        if a == j {
                            let w = choose|w: int| 0 <= w < seen@.len() && (#[trigger] seen@[w])@ == x;
                            assert(seen_set.contains(x));
                        }
                    }
                }
            }
        }
        j = j + 1;
    }
    proof {
        assert(ks.to_set() =~= ed.updates.dom().difference(seen_set)) by {
            assert forall|y: Seq<u8>| ks.to_set().contains(y) <==> ed.updates.dom().difference(seen_set).contains(y) by {
                if ed.updates.contains_key(y) {
                    let a = choose|a: int| 0 <= a < ups@.len() && (#[trigger] ups@[a]).key@ == y;
                }
            }
        }
    }
    let n = out.len();
    if n == 0 || out[n - 1] != 10u8 {
        out.push(10u8);
    }
    assert(out@ == env_rewrite(existing@, ed, ks));
    out
}

} // verus!
