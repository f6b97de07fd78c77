//! Process identity: telling the recorded service apart from an unrelated
//! process that the operating system gave the same pid later.
use vstd::prelude::*;
use crate::record::ServiceRecord;
use crate::text::{is_digit, is_digit_byte, parse_unsigned, parse_unsigned_in};
use crate::orphan::{field_ranges, split_fields, int_ranges};

verus! {

/// How far, in seconds, a record's start time may lie from the creation
/// time that the operating system reports for its pid.
pub const IDENTITY_TOLERANCE_SECS: u64 = 5;

/// 100-ns intervals between 1601-01-01 and 1970-01-01.
pub const FILETIME_UNIX_OFFSET: u64 = 116444736000000000;

/// 100-ns intervals in a second.
pub const FILETIME_TICKS_PER_SEC: u64 = 10000000;

/// Clock ticks per second of the start times in `/proc/<pid>/stat`.
pub const CLOCK_TICKS_PER_SEC: u64 = 100;

/// What was observed about a record's pid: whether it is alive and, if the
/// operating system told, when the process was created.
#[derive(Clone, Copy, Debug, PartialEq, Eq, Structural)]
pub struct RecordProbe {
    pub record: ServiceRecord,
    pub alive: bool,
    pub creation_time: Option<u64>,
}

pub open spec fn abs_diff(a: u64, b: u64) -> int {
    if a >= b {
        a - b
    } else {
        b - a
    }
}

/// The recorded process is still the one that runs under its pid: it is
/// alive and, unless the record predates start times (zero) or the creation
/// time is unknown, was created within the tolerance of the recorded start.
pub open spec fn identity_holds(rec: ServiceRecord, alive: bool, creation_time: Option<u64>) -> bool {
    alive && (rec.started_at == 0 || match creation_time {
        Some(c) => abs_diff(rec.started_at, c) <= IDENTITY_TOLERANCE_SECS,
        None => true,
    })
}

pub open spec fn probe_valid(p: RecordProbe) -> bool {
    identity_holds(p.record, p.alive, p.creation_time)
}

/// Whether the record still describes the live process under its pid.
pub fn is_pid_file_valid(data: &ServiceRecord, alive: bool, creation_time: Option<u64>) -> (r: bool)
    ensures
        r == identity_holds(*data, alive, creation_time),
{
    if !alive {
        return false;
    }
    if data.started_at == 0 {
        return true;
    }
    match creation_time {
        Some(actual) => {
            let diff = if data.started_at > actual {
                data.started_at - actual
            } else {
                actual - data.started_at
            };
            diff <= IDENTITY_TOLERANCE_SECS
        },
        None => true,
    }
}

/// Whether a probe's record still describes the live process.
pub fn probe_is_valid(p: &RecordProbe) -> (r: bool)
    ensures
        r == probe_valid(*p),
{
    is_pid_file_valid(&p.record, p.alive, p.creation_time)
}

/// A Windows FILETIME (100-ns intervals since 1601, in two halves) as whole
/// seconds since the Unix epoch; none for a time before 1970.
pub fn filetime_to_unix_secs(high: u32, low: u32) -> (r: Option<u64>)
    ensures
        ({
            let ft = high as int * 0x1_0000_0000 + low as int;
            if ft < FILETIME_UNIX_OFFSET {
                r is None
            } else {
                r == Some(((ft - FILETIME_UNIX_OFFSET) / FILETIME_TICKS_PER_SEC as int) as u64)
            }
        }),
{
    assert(high as int * 0x1_0000_0000 + low as int <= u64::MAX) by (nonlinear_arith)
        requires
            high <= u32::MAX,
            low <= u32::MAX,
    ;
    let ft: u64 = high as u64 * 0x1_0000_0000u64 + low as u64;
    if ft < FILETIME_UNIX_OFFSET {
        None
    } else {
        Some((ft - FILETIME_UNIX_OFFSET) / FILETIME_TICKS_PER_SEC)
    }
}

/// A process's creation time from the boot-relative start time that Linux
/// reports: the boot time (now less uptime, never below zero) plus the start
/// ticks in whole seconds; none where the sum does not fit.
pub fn creation_time_from_boot(now: u64, uptime_secs: u64, start_ticks: u64) -> (r: Option<u64>)
    ensures
        ({
            let boot: int = if now >= uptime_secs {
                now - uptime_secs
            } else {
                0
            };
            let t = boot + (start_ticks / CLOCK_TICKS_PER_SEC) as int;
            if t <= u64::MAX {
                r == Some(t as u64)
            } else {
                r is None
            }
        }),
{
    let boot = now.saturating_sub(uptime_secs);
    boot.checked_add(start_ticks / CLOCK_TICKS_PER_SEC)
}

// ---------------------------------------------------------------------------
// Linux process start times
/// The position of the last `)` in `s`, if any.
pub open spec fn last_paren(s: Seq<u8>) -> Option<int>
    decreases s.len(),
{
    if s.len() == 0 {
        None
    } else if s.last() == 41u8 {
        Some(s.len() - 1)
    } else {
        last_paren(s.drop_last())
    }
}

/// The start time, in clock ticks after boot, in the text of
/// `/proc/<pid>/stat`: the twentieth field after the command name, which
/// ends at the last `)` and is followed by one space.
pub open spec fn stat_start_ticks(stat: Seq<u8>) -> Option<u64> {
    match last_paren(stat) {
        None => None,
        Some(p) => if p + 2 >= stat.len() {
            None
        } else {
            let rest = stat.subrange(p + 2, stat.len() as int);
            let fs = field_ranges(rest);
            if fs.len() <= 19 {
                None
            } else {
                match parse_unsigned(rest.subrange(fs[19].0, fs[19].1), u64::MAX as nat) {
                    Some(v) => Some(v as u64),
                    None => None,
                }
            }
        },
    }
}

fn find_last_paren(s: &[u8]) -> (r: Option<usize>)
    ensures
        r matches Some(p) ==> p < s@.len() && last_paren(s@) == Some(p as int),
        match last_paren(s@) {
            Some(p) => r == Some(p as usize),
            None => r is None,
        },
{
    let mut i: usize = s.len();
    assert(s@.subrange(0, i as int) =~= s@);
    while i > 0
        invariant
            i <= s@.len(),
            last_paren(s@) == last_paren(s@.subrange(0, i as int)),
        decreases i,
    {
        let ghost pre = s@.subrange(0, i as int);
        assert(pre.last() == s@[i - 1]);
        if s[i - 1] == 41u8 {
            return Some(i - 1);
        }
        assert(pre.drop_last() =~= s@.subrange(0, i - 1));
        i = i - 1;
    }
    None
}

fn copy_tail(s: &[u8], a: usize) -> (r: Vec<u8>)
    requires
        a <= s@.len(),
    ensures
        r@ == s@.subrange(a as int, s@.len() as int),
{
    let mut out: Vec<u8> = Vec::new();
    let mut i: usize = a;
    while i < s.len()
        invariant
            a <= i <= s@.len(),
            out@ == s@.subrange(a as int, i as int),
        decreases s@.len() - i,
    {
        out.push(s[i]);
        assert(s@.subrange(a as int, i + 1) =~= s@.subrange(a as int, i as int).push(s@[i as int]));
        i = i + 1;
    }
    out
}

/// Reads a process's start time, in clock ticks after boot, from the text
/// of its `/proc/<pid>/stat`.
pub fn parse_stat_start_ticks(stat: &[u8]) -> (r: Option<u64>)
    ensures
        r == stat_start_ticks(stat@),
{
    let p = match find_last_paren(stat) {
        Some(p) => p,
        None => {
            return None;
        },
    };
    if stat.len() - p <= 2 {
        return None;
    }
    let rest = copy_tail(stat, p + 2);
    let fs = split_fields(rest.as_slice());
    if fs.len() <= 19 {
        return None;
    }
    let (a, b) = fs[19];
    parse_unsigned_in(rest.as_slice(), a, b, 0xffff_ffff_ffff_ffffu64)
}

/// The whole seconds of the first field of `/proc/uptime`: digits, then
/// optionally `.` and more digits, which are dropped.
pub open spec fn uptime_whole_secs(text: Seq<u8>) -> Option<u64> {
    let fs = field_ranges(text);
    if fs.len() == 0 {
        None
    } else {
        let f = text.subrange(fs[0].0, fs[0].1);
        let k = whole_digits_len(f);
        if k == 0 || !(k == f.len() || (f[k] == 46u8 && k + 1 < f.len() && crate::text::all_digits(
            f.subrange(k + 1, f.len() as int),
        ))) {
            None
        } else {
            match parse_unsigned(f.subrange(0, k), u64::MAX as nat) {
                Some(v) => Some(v as u64),
                None => None,
            }
        }
    }
}

/// How many digits `f` starts with.
pub open spec fn whole_digits_len(f: Seq<u8>) -> int
    decreases f.len(),
{
    if f.len() == 0 || !is_digit(f[0]) {
        0
    } else {
        1 + whole_digits_len(f.drop_first())
    }
}

proof fn lemma_whole_digits_len_bound(f: Seq<u8>)
    ensures
        0 <= whole_digits_len(f) <= f.len(),
    decreases f.len(),
{
    if f.len() > 0 && is_digit(f[0]) {
        lemma_whole_digits_len_bound(f.drop_first());
    }
}

/// Reads the whole seconds of the uptime in the text of `/proc/uptime`.
pub fn parse_uptime_secs(text: &[u8]) -> (r: Option<u64>)
    ensures
        r == uptime_whole_secs(text@),
{
    let fs = split_fields(text);
    if fs.len() == 0 {
        return None;
    }
    let (a, b) = fs[0];
    let f = copy_tail(text, a);
    let ghost fv = text@.subrange(a as int, b as int);
    let n = b - a;
    let mut k: usize = 0;
    proof {
        lemma_whole_digits_len_bound(fv);
        assert(fv.subrange(0, fv.len() as int) =~= fv);
    }
    while k < n && is_digit_byte(f[k])
        invariant
            n == fv.len(),
            f@.len() >= n,
            forall|q: int| 0 <= q < n ==> f@[q] == #[trigger] fv[q],
            k <= n,
            whole_digits_len(fv) == k + whole_digits_len(fv.subrange(k as int, n as int)),
        decreases n - k,
    {
        proof {
            let t = fv.subrange(k as int, n as int);
            assert(t[0] == fv[k as int]);
            assert(t.drop_first() =~= fv.subrange(k + 1, n as int));
        }
        k = k + 1;
    }
    proof {
        let t = fv.subrange(k as int, n as int);
        if k < n {
            assert(t[0] == fv[k as int]);
        }
    }
    assert(whole_digits_len(fv) == k);
    if k == 0 {
        return None;
    }
    if k < n {
        if f[k] != 46u8 || k + 1 >= n {
            return None;
        }
        let mut j: usize = k + 1;
        while j < n
            invariant
                n == fv.len(),
                f@.len() >= n,
                forall|q: int| 0 <= q < n ==> f@[q] == #[trigger] fv[q],
                k + 1 <= j <= n,
                whole_digits_len(fv) == k,
                fv == text@.subrange(a as int, b as int),
                int_ranges(fs@) == field_ranges(text@),
                fs@.len() > 0,
                fs@[0] == (a, b),
                crate::text::all_digits(fv.subrange(k + 1, j as int)),
            decreases n - j,
        {
            if !is_digit_byte(f[j]) {
                assert(fv.subrange(k + 1, n as int)[j - k - 1] == fv[j as int]);
                return None;
            }
            assert(crate::text::all_digits(fv.subrange(k + 1, j + 1))) by {
                assert forall|q: int| 0 <= q < j + 1 - (k + 1) implies is_digit(
                    #[trigger] fv.subrange(k + 1, j + 1)[q],
                ) by {
                    if q < j - (k + 1) {
                        assert(fv.subrange(k + 1, j + 1)[q] == fv.subrange(k + 1, j as int)[q]);
                    }
                }
            }
            j = j + 1;
        }
    }
    let r = parse_unsigned_in(f.as_slice(), 0, k, 0xffff_ffff_ffff_ffffu64);
    assert(f@.subrange(0, k as int) =~= fv.subrange(0, k as int));
    r
}

} // verus!
