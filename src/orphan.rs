//! The orphan scanner: a best-effort second line of defence that finds
//! processes that look like the managed backend but have no registry entry.
//!
//! Candidates are processes whose image name contains `python` (any ASCII
//! case); a candidate is a managed backend when its command line names the
//! `openakita.main` module with the `serve` subcommand. Nothing here is
//! authoritative for mutual exclusion.
use vstd::prelude::*;
use crate::text::{is_space, is_space_byte, parse_unsigned, parse_unsigned_in};

verus! {

/// One entry of a Windows Toolhelp process snapshot, laid out as the
/// operating system fills it.
#[allow(non_camel_case_types)]
pub struct PROCESSENTRY32W {
    pub dw_size: u32,
    pub cnt_usage: u32,
    pub th32_process_id: u32,
    pub th32_default_heap_id: usize,
    pub th32_module_id: u32,
    pub cnt_threads: u32,
    pub th32_parent_process_id: u32,
    pub pc_pri_class_base: i32,
    pub dw_flags: u32,
    pub sz_exe_file: [u16; 260],
}

/// ASCII upper case to lower case; every other unit is kept.
pub open spec fn fold(u: u16) -> u16 {
    if 65 <= u && u <= 90 {
        (u + 32) as u16
    } else {
        u
    }
}

pub open spec fn fold_byte(b: u8) -> u8 {
    if 65 <= b && b <= 90 {
        (b + 32) as u8
    } else {
        b
    }
}

/// The units before the first NUL, or all of them.
pub open spec fn until_nul(s: Seq<u16>) -> Seq<u16>
    decreases s.len(),
{
    if s.len() == 0 {
        s
    } else if s[0] == 0 {
        Seq::empty()
    } else {
        seq![s[0]] + until_nul(s.drop_first())
    }
}

pub open spec fn python_units() -> Seq<u16> {
    seq![112u16, 121, 116, 104, 111, 110]
}

/// `pat` occurs in `s` at `i` when `s` is folded to lower case.
pub open spec fn folded_at(s: Seq<u16>, pat: Seq<u16>, i: int) -> bool {
    0 <= i && i + pat.len() <= s.len() && forall|k: int|
        0 <= k < pat.len() ==> fold(#[trigger] s[i + k]) == pat[k]
}

pub open spec fn is_python_image_name(name: Seq<u16>) -> bool {
    exists|i: int| folded_at(name, python_units(), i)
}

fn until_nul_len(s: &[u16]) -> (n: usize)
    ensures
        n <= s@.len(),
        until_nul(s@) == s@.subrange(0, n as int),
{
    let mut i: usize = 0;
    assert(s@.subrange(0, s@.len() as int) =~= s@);
    assert(s@.subrange(0, 0) + until_nul(s@) =~= until_nul(s@));
    while i < s.len() && s[i] != 0
        invariant
            i <= s@.len(),
            until_nul(s@) == s@.subrange(0, i as int) + until_nul(s@.subrange(i as int, s@.len() as int)),
        decreases s@.len() - i,
    {
        proof {
            let rest = s@.subrange(i as int, s@.len() as int);
            assert(rest.drop_first() =~= s@.subrange(i + 1, s@.len() as int));
            assert(rest[0] == s@[i as int]);
            assert(s@.subrange(0, i + 1) =~= s@.subrange(0, i as int) + seq![s@[i as int]]);
            assert(s@.subrange(0, i as int) + (seq![s@[i as int]] + until_nul(rest.drop_first()))
                =~= s@.subrange(0, i + 1) + until_nul(rest.drop_first()));
        }
        i = i + 1;
    }
    proof {
        let rest = s@.subrange(i as int, s@.len() as int);
        if rest.len() > 0 {
            assert(rest[0] == s@[i as int]);
        }
        assert(s@.subrange(0, i as int) + Seq::<u16>::empty() =~= s@.subrange(0, i as int));
    }
    i
}

/// The executable's name in a snapshot entry: the units before the NUL.
pub fn image_name(pe: &PROCESSENTRY32W) -> (r: Vec<u16>)
    ensures
        r@ == until_nul(pe.sz_exe_file@),
{
    let units = pe.sz_exe_file.as_slice();
    let n = until_nul_len(units);
    let mut out: Vec<u16> = Vec::new();
    let mut i: usize = 0;
    while i < n
        invariant
            n <= units@.len(),
            i <= n,
            units@ == pe.sz_exe_file@,
            out@ == units@.subrange(0, i as int),
        decreases n - i,
    {
        out.push(units[i]);
        assert(units@.subrange(0, i + 1) =~= units@.subrange(0, i as int).push(units@[i as int]));
        i = i + 1;
    }
    out
}

fn fold_unit(u: u16) -> (r: u16)
    ensures
        r == fold(u),
{
    if 65 <= u && u <= 90 {
        u + 32
    } else {
        u
    }
}

fn folded_match_at(s: &Vec<u16>, pat: &Vec<u16>, i: usize) -> (r: bool)
    requires
        i + pat@.len() <= s@.len(),
    ensures
        r == folded_at(s@, pat@, i as int),
{
    let n = s.len();
    let mut k: usize = 0;
    while k < pat.len()
        invariant
            n == s@.len(),
            i + pat@.len() <= s@.len(),
            k <= pat@.len(),
            forall|q: int| 0 <= q < k ==> fold(#[trigger] s@[i + q]) == pat@[q],
        decreases pat@.len() - k,
    {
        assert(i + k < s@.len());
        if fold_unit(s[i + k]) != pat[k] {
            return false;
        }
        k = k + 1;
    }
    true
}

/// Whether a snapshot entry's executable is a Python interpreter, by an
/// ASCII case-insensitive search for `python` in its name.
pub fn is_python_image(pe: &PROCESSENTRY32W) -> (r: bool)
    ensures
        r == is_python_image_name(until_nul(pe.sz_exe_file@)),
{
    let name = image_name(pe);
    let pat: Vec<u16> = vec![112u16, 121, 116, 104, 111, 110];
    if name.len() < pat.len() {
        return false;
    }
    let n = name.len();
    let mut i: usize = 0;
    while i <= name.len() - pat.len()
        invariant
            n == name@.len(),
            pat@.len() == 6,
            n >= 6,
            name@ == until_nul(pe.sz_exe_file@),
            i <= name@.len(),
            pat@ == python_units(),
            forall|q: int| 0 <= q < i ==> !folded_at(name@, pat@, q),
        decreases name@.len() - i,
    {
        if folded_match_at(&name, &pat, i) {
            assert(folded_at(name@, python_units(), i as int));
            return true;
        }
        i = i + 1;
    }
    false
}

// ---------------------------------------------------------------------------
// Command lines
/// `pat` occurs in `s` at `i`, comparing `s` folded to lower case when
/// `folded`, else exactly.
pub open spec fn bytes_at(s: Seq<u8>, pat: Seq<u8>, i: int, folded: bool) -> bool {
    0 <= i && i + pat.len() <= s.len() && forall|k: int|
        0 <= k < pat.len() ==> (if folded {
            fold_byte(#[trigger] s[i + k])
        } else {
            s[i + k]
        }) == pat[k]
}

/// The first position at or after `from` where `pat` occurs.
pub open spec fn occurs_from(s: Seq<u8>, pat: Seq<u8>, from: int, folded: bool) -> bool {
    exists|i: int| from <= i && bytes_at(s, pat, i, folded)
}

pub open spec fn module_signature() -> Seq<u8> {
    seq![111u8, 112, 101, 110, 97, 107, 105, 116, 97, 46, 109, 97, 105, 110]
}

pub open spec fn serve_word() -> Seq<u8> {
    seq![115u8, 101, 114, 118, 101]
}

pub open spec fn space_serve() -> Seq<u8> {
    seq![32u8] + serve_word()
}

/// A Windows command line of the managed backend: in lower case it names
/// the module and either contains ` serve` or ends with `serve`.
pub open spec fn is_managed_command(cmd: Seq<u8>) -> bool {
    occurs_from(cmd, module_signature(), 0, true) && (occurs_from(cmd, space_serve(), 0, true)
        || bytes_at(cmd, serve_word(), cmd.len() - serve_word().len(), true))
}

/// A line of `ps` output of the managed backend: the module name followed,
/// somewhere later, by `serve`.
pub open spec fn is_managed_ps_line(line: Seq<u8>) -> bool {
    exists|i: int|
        #![trigger bytes_at(line, module_signature(), i, false)]
        bytes_at(line, module_signature(), i, false) && occurs_from(
            line,
            serve_word(),
            i + module_signature().len(),
            false,
        )
}

fn fold_b(b: u8) -> (r: u8)
    ensures
        r == fold_byte(b),
{
    if 65 <= b && b <= 90 {
        b + 32
    } else {
        b
    }
}

fn match_at(s: &[u8], pat: &Vec<u8>, i: usize, folded: bool) -> (r: bool)
    requires
        i + pat@.len() <= s@.len(),
    ensures
        r == bytes_at(s@, pat@, i as int, folded),
{
    let n = s.len();
    let mut k: usize = 0;
    while k < pat.len()
        invariant
            n == s@.len(),
            i + pat@.len() <= s@.len(),
            k <= pat@.len(),
            forall|q: int|
                0 <= q < k ==> (if folded {
                    fold_byte(#[trigger] s@[i + q])
                } else {
                    s@[i + q]
                }) == pat@[q],
        decreases pat@.len() - k,
    {
        assert(i + k < s@.len());
        let c = if folded {
            fold_b(s[i + k])
        } else {
            s[i + k]
        };
        if c != pat[k] {
            return false;
        }
        k = k + 1;
    }
    true
}

/// The first position at or after `from` where `pat` occurs, if any.
fn find_from(s: &[u8], pat: &Vec<u8>, from: usize, folded: bool) -> (r: Option<usize>)
    ensures
        match r {
            Some(i) => from <= i && bytes_at(s@, pat@, i as int, folded) && forall|q: int|
                from <= q < i ==> !bytes_at(s@, pat@, q, folded),
            None => !occurs_from(s@, pat@, from as int, folded),
        },
{
    if from > s.len() {
        return None;
    }
    let mut i: usize = from;
    while pat.len() <= s.len() - i
        invariant
            from <= i <= s@.len(),
            forall|q: int| from <= q < i ==> !bytes_at(s@, pat@, q, folded),
        decreases s@.len() - i,
    {
        if match_at(s, pat, i, folded) {
            return Some(i);
        }
        assert(pat@.len() > 0);
        i = i + 1;
    }
    None
}

/// Whether a Windows process's command line is the managed backend's.
pub fn is_managed_command_line(cmd: &[u8]) -> (r: bool)
    ensures
        r == is_managed_command(cmd@),
{
    let sig: Vec<u8> = vec![111u8, 112, 101, 110, 97, 107, 105, 116, 97, 46, 109, 97, 105, 110];
    let sp: Vec<u8> = vec![32u8, 115, 101, 114, 118, 101];
    let serve: Vec<u8> = vec![115u8, 101, 114, 118, 101];
    assert(sp@ =~= space_serve());
    if find_from(cmd, &sig, 0, true).is_none() {
        return false;
    }
    if find_from(cmd, &sp, 0, true).is_some() {
        return true;
    }
    if cmd.len() < serve.len() {
        return false;
    }
    match_at(cmd, &serve, cmd.len() - serve.len(), true)
}

/// Whether a line of `ps` output is the managed backend's.
pub fn is_managed_ps_line_bytes(line: &[u8]) -> (r: bool)
    ensures
        r == is_managed_ps_line(line@),
{
    let sig: Vec<u8> = vec![111u8, 112, 101, 110, 97, 107, 105, 116, 97, 46, 109, 97, 105, 110];
    let serve: Vec<u8> = vec![115u8, 101, 114, 118, 101];
    match find_from(line, &sig, 0, false) {
        None => {
            assert forall|j: int| !bytes_at(line@, module_signature(), j, false) by {
                if bytes_at(line@, module_signature(), j, false) {
                    assert(0 <= j);
                }
            }
            false
        },
        Some(i) => {
            let n = line.len();
            assert(sig@ == module_signature());
            assert(i + 14 <= n);
            let found = find_from(line, &serve, i + 14, false);
            proof {
                if found is None {
                    assert forall|j: int| bytes_at(line@, module_signature(), j, false) implies !occurs_from(
                        line@,
                        serve_word(),
                        j + 14,
                        false,
                    ) by {
                        assert(i <= j);
                        if occurs_from(line@, serve_word(), j + 14, false) {
                            let q = choose|q: int| j + 14 <= q && bytes_at(line@, serve_word(), q, false);
                            assert(i + 14 <= q);
                        }
                    }
                } else {
                    assert(bytes_at(line@, module_signature(), i as int, false));
                }
            }
            found.is_some()
        },
    }
}

// ---------------------------------------------------------------------------
// Whitespace-separated fields
/// Where the whitespace-separated fields of `s` start and end.
pub open spec fn field_ranges(s: Seq<u8>) -> Seq<(int, int)>
    decreases s.len(),
{
    if s.len() == 0 {
        Seq::empty()
    } else {
        let r = field_ranges(s.drop_last());
        let n = s.len() as int;
        if is_space(s[n - 1]) {
            r
        } else if n >= 2 && !is_space(s[n - 2]) && r.len() > 0 {
            r.update(r.len() - 1, (r.last().0, n))
        } else {
            r.push((n - 1, n))
        }
    }
}

pub open spec fn int_ranges(v: Seq<(usize, usize)>) -> Seq<(int, int)> {
    v.map_values(|p: (usize, usize)| (p.0 as int, p.1 as int))
}

/// The fields that `rs` delimits in `s`, joined by single spaces.
pub open spec fn join_fields(s: Seq<u8>, rs: Seq<(int, int)>) -> Seq<u8>
    decreases rs.len(),
{
    if rs.len() == 0 {
        Seq::empty()
    } else if rs.len() == 1 {
        s.subrange(rs[0].0, rs[0].1)
    } else {
        join_fields(s, rs.drop_last()) + seq![32u8] + s.subrange(rs.last().0, rs.last().1)
    }
}

/// The fields of `s`, as `str::split_whitespace` finds them for ASCII text.
pub fn split_fields(s: &[u8]) -> (r: Vec<(usize, usize)>)
    ensures
        int_ranges(r@) == field_ranges(s@),
        forall|k: int| 0 <= k < r@.len() ==> (#[trigger] r@[k]).0 < r@[k].1 <= s@.len(),
{
    let mut out: Vec<(usize, usize)> = Vec::new();
    let mut i: usize = 0;
    while i < s.len()
        invariant
            i <= s@.len(),
            int_ranges(out@) == field_ranges(s@.subrange(0, i as int)),
            forall|k: int| 0 <= k < out@.len() ==> (#[trigger] out@[k]).0 < out@[k].1 <= i,
            i > 0 && !is_space(s@[i - 1]) ==> out@.len() > 0 && out@.last().1 == i,
        decreases s@.len() - i,
    {
        let ghost pre = s@.subrange(0, i + 1);
        proof {
            assert(pre.drop_last() =~= s@.subrange(0, i as int));
            assert(pre[i as int] == s@[i as int]);
            if i > 0 {
                assert(pre[i - 1] == s@[i - 1]);
            }
        }
        let b = s[i];
        if is_space_byte(b) {
        } else if i > 0 && !is_space_byte(s[i - 1]) {
            let last = out.len() - 1;
            let start = out[last].0;
            let ghost before = out@;
            out.set(last, (start, i + 1));
            assert(int_ranges(out@) =~= int_ranges(before).update(
                last as int,
                (start as int, i + 1),
            ));
        } else {
            let ghost before = out@;
            out.push((i, i + 1));
            assert(int_ranges(out@) =~= int_ranges(before).push((i as int, i + 1)));
        }
        i = i + 1;
    }
    assert(s@.subrange(0, i as int) =~= s@);
    out
}

/// A managed backend found by the scan.
pub struct OrphanProcess {
    pub pid: u32,
    /// The command line: the fields of the `ps` line from the eleventh on.
    pub cmd: Vec<u8>,
}

/// The managed backend that a line of `ps aux` output shows: its pid (the
/// second field) and its command line (the fields from the eleventh on,
/// joined by single spaces; empty when the line is shorter).
pub open spec fn ps_entry(line: Seq<u8>) -> Option<(u32, Seq<u8>)> {
    let fs = field_ranges(line);
    if !is_managed_ps_line(line) || fs.len() < 2 {
        None
    } else {
        match parse_unsigned(line.subrange(fs[1].0, fs[1].1), u32::MAX as nat) {
            Some(p) => Some(
                (
                    p as u32,
                    if fs.len() > 10 {
                        join_fields(line, fs.subrange(10, fs.len() as int))
                    } else {
                        Seq::empty()
                    },
                ),
            ),
            None => None,
        }
    }
}

fn append_range(out: &mut Vec<u8>, s: &[u8], a: usize, b: usize)
    requires
        a <= b <= s@.len(),
    ensures
        final(out)@ == old(out)@ + s@.subrange(a as int, b as int),
{
    let mut i: usize = a;
    while i < b
        invariant
            a <= i <= b <= s@.len(),
            out@ == old(out)@ + s@.subrange(a as int, i as int),
        decreases b - i,
    {
        out.push(s[i]);
        assert(s@.subrange(a as int, i + 1) =~= s@.subrange(a as int, i as int).push(s@[i as int]));
        assert(old(out)@ + s@.subrange(a as int, i + 1) =~= (old(out)@ + s@.subrange(a as int, i as int)).push(
            s@[i as int],
        ));
        i = i + 1;
    }
}

/// Reads one line of `ps aux` output; none unless it is a managed backend's
/// line with a pid.
pub fn parse_ps_line(line: &[u8]) -> (r: Option<OrphanProcess>)
    ensures
        match ps_entry(line@) {
            Some((pid, cmd)) => r matches Some(o) && o.pid == pid && o.cmd@ == cmd,
            None => r is None,
        },
{
    if !is_managed_ps_line_bytes(line) {
        return None;
    }
    let fs = split_fields(line);
    if fs.len() < 2 {
        return None;
    }
    let (a, b) = fs[1];
    let pid = match parse_unsigned_in(line, a, b, 0xffff_ffffu64) {
        Some(p) => p as u32,
        None => {
            return None;
        },
    };
    let mut cmd: Vec<u8> = Vec::new();
    if fs.len() > 10 {
        let ghost rs = int_ranges(fs@).subrange(10, fs@.len() as int);
        let mut k: usize = 10;
        while k < fs.len()
            invariant
                10 <= k <= fs@.len(),
                rs == int_ranges(fs@).subrange(10, fs@.len() as int),
                forall|q: int| 0 <= q < fs@.len() ==> (#[trigger] fs@[q]).0 < fs@[q].1 <= line@.len(),
                cmd@ == join_fields(line@, int_ranges(fs@).subrange(10, k as int)),
            decreases fs@.len() - k,
        {
            let (x, y) = fs[k];
            let ghost before = cmd@;
            let ghost part = int_ranges(fs@).subrange(10, k + 1);
            proof {
                assert(part.drop_last() =~= int_ranges(fs@).subrange(10, k as int));
                assert(part.last() == (x as int, y as int));
            }
            if k > 10 {
                cmd.push(32u8);
            }
            append_range(&mut cmd, line, x, y);
            proof {
                if k > 10 {
                    assert(cmd@ =~= before + seq![32u8] + line@.subrange(x as int, y as int));
                } else {
                    assert(before =~= Seq::<u8>::empty());
                    assert(cmd@ =~= line@.subrange(x as int, y as int));
                }
            }
            k = k + 1;
        }
    }
    Some(OrphanProcess { pid, cmd })
}

// ---------------------------------------------------------------------------
// Stopping everything
pub open spec fn merged(stopped: Seq<u32>, more: Seq<u32>) -> Seq<u32>
    decreases more.len(),
{
    if more.len() == 0 {
        stopped
    } else {
        let m = merged(stopped, more.drop_last());
        if m.contains(more.last()) {
            m
        } else {
            m.push(more.last())
        }
    }
}

fn contains_pid(v: &Vec<u32>, x: u32) -> (r: bool)
    ensures
        r == v@.contains(x),
{
    let mut i: usize = 0;
    while i < v.len()
        invariant
            i <= v@.len(),
            forall|q: int| 0 <= q < i ==> v@[q] != x,
        decreases v@.len() - i,
    {
        if v[i] == x {
            return true;
        }
        i = i + 1;
    }
    false
}

/// The pids stopped through the registry, followed by the orphans killed
/// afterwards that are not among them yet, each once.
pub fn merge_stopped(stopped: Vec<u32>, orphans: &Vec<u32>) -> (r: Vec<u32>)
    ensures
        r@ == merged(stopped@, orphans@),
{
    let mut out = stopped;
    let ghost s0 = out@;
    let mut i: usize = 0;
    while i < orphans.len()
        invariant
            i <= orphans@.len(),
            out@ == merged(s0, orphans@.subrange(0, i as int)),
        decreases orphans@.len() - i,
    {
        proof {
            assert(orphans@.subrange(0, i + 1).drop_last() =~= orphans@.subrange(0, i as int));
        }
        let x = orphans[i];
        if !contains_pid(&out, x) {
            out.push(x);
        }
        i = i + 1;
    }
    assert(orphans@.subrange(0, i as int) =~= orphans@);
    out
}

} // verus!
