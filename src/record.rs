//! The registry record: which process is a workspace's managed service.
//!
//! On disk a record is a flat JSON object
//! `{"pid": <integer>, "started_by": "self" | "external", "started_at": <integer>}`
//! or, in the legacy shape, the bare decimal pid. The reader accepts objects
//! whose members are strings, non-negative integers, `true`, `false` or `null`;
//! members other than the three above are ignored, `started_by` defaults to
//! the supervisor and `started_at` to zero.
use vstd::prelude::*;
use crate::text::{
    is_digit, trim, trim_start, trim_end, parse_unsigned, trim_bounds, parse_unsigned_in, is_digit_byte, all_digits,
    digits_value,
};

verus! {

/// Who launched the recorded process.
#[derive(Clone, Copy, Debug, PartialEq, Eq, Structural)]
pub enum StartedBy {
    /// This supervisor (`"self"` on disk).
    Supervisor,
    /// Someone else, such as a separately started command-line instance.
    External,
}

/// One workspace's entry in the registry.
#[derive(Clone, Copy, Debug, PartialEq, Eq, Structural)]
pub struct ServiceRecord {
    pub pid: u32,
    pub started_by: StartedBy,
    /// Seconds since the Unix epoch; zero when unknown (legacy records).
    pub started_at: u64,
}

/// The launcher a record names when the file does not say.
pub fn default_started_by() -> (r: StartedBy)
    ensures
        r == StartedBy::Supervisor,
{
    StartedBy::Supervisor
}

// ---------------------------------------------------------------------------
// The structured shape, read one byte at a time.
#[derive(Clone, Copy, Debug, PartialEq, Eq, Structural)]
pub enum Phase {
    /// Before `{`.
    Open,
    /// After `{`: a key or `}`.
    FirstKey,
    /// Inside a key.
    Key,
    /// After a backslash inside a key.
    KeyEscape,
    /// After a key: `:`.
    Colon,
    /// After `:`: a value.
    Value,
    /// Inside a string value.
    Text,
    /// After a backslash inside a string value.
    TextEscape,
    /// Inside an integer value.
    Number,
    /// Inside `true`, `false` or `null`.
    Word,
    /// After a value: `,` or `}`.
    Next,
    /// After `,`: a key.
    NextKey,
    /// After `}`.
    Closed,
    /// The text is not a record of this shape.
    Invalid,
}

/// The record members seen so far.
#[derive(Clone, Copy, Debug, PartialEq, Eq, Structural)]
pub struct Fields {
    pub pid: Option<u32>,
    pub started_by: Option<StartedBy>,
    pub started_at: Option<u64>,
    /// A known member was repeated or held a value of the wrong kind.
    pub conflict: bool,
}

/// A member's value, as far as the record cares.
pub enum Scalar {
    Text(Seq<u8>),
    /// An integer; `big` when it exceeds `u64::MAX`.
    Number(u64, bool),
    Literal,
}

/// The reader's state between two bytes.
pub struct ScanModel {
    pub phase: Phase,
    pub key: Seq<u8>,
    pub buf: Seq<u8>,
    pub num: u64,
    pub big: bool,
    pub fields: Fields,
}

pub open spec fn json_space(b: u8) -> bool {
    b == 32 || b == 9 || b == 10 || b == 13
}

pub open spec fn is_lower(b: u8) -> bool {
    97 <= b && b <= 122
}

pub open spec fn pid_key() -> Seq<u8> {
    seq![112u8, 105, 100]
}

pub open spec fn started_by_key() -> Seq<u8> {
    seq![115u8, 116, 97, 114, 116, 101, 100, 95, 98, 121]
}

pub open spec fn started_at_key() -> Seq<u8> {
    seq![115u8, 116, 97, 114, 116, 101, 100, 95, 97, 116]
}

pub open spec fn self_word() -> Seq<u8> {
    seq![115u8, 101, 108, 102]
}

/// The desktop application's marker for the launches it made itself.
pub open spec fn desktop_word() -> Seq<u8> {
    seq![116u8, 97, 117, 114, 105]
}

pub open spec fn external_word() -> Seq<u8> {
    seq![101u8, 120, 116, 101, 114, 110, 97, 108]
}

pub open spec fn is_literal_word(w: Seq<u8>) -> bool {
    w == seq![116u8, 114, 117, 101] || w == seq![102u8, 97, 108, 115, 101] || w == seq![
        110u8,
        117,
        108,
        108,
    ]
}

/// Any `started_by` text other than the supervisor's own markers names an
/// outside launcher: ownership is never assumed.
pub open spec fn started_by_of(t: Seq<u8>) -> StartedBy {
    if t == self_word() || t == desktop_word() {
        StartedBy::Supervisor
    } else {
        StartedBy::External
    }
}

/// What a member with this key and value adds to the fields.
pub open spec fn absorb(f: Fields, key: Seq<u8>, v: Scalar) -> Fields {
    if key == pid_key() {
        match v {
            Scalar::Number(n, big) if f.pid is None && !big && n <= u32::MAX => Fields {
                pid: Some(n as u32),
                ..f
            },
            _ => Fields { conflict: true, ..f },
        }
    } else if key == started_by_key() {
        match v {
            Scalar::Text(t) if f.started_by is None => Fields {
                started_by: Some(started_by_of(t)),
                ..f
            },
            _ => Fields { conflict: true, ..f },
        }
    } else if key == started_at_key() {
        match v {
            Scalar::Number(n, big) if f.started_at is None && !big => Fields {
                started_at: Some(n),
                ..f
            },
            _ => Fields { conflict: true, ..f },
        }
    } else {
        f
    }
}

pub open spec fn invalid(m: ScanModel) -> ScanModel {
    ScanModel { phase: Phase::Invalid, ..m }
}

/// A value has ended at byte `b`, which is whitespace, `,` or `}`.
pub open spec fn end_value(m: ScanModel, v: Scalar, b: u8) -> ScanModel {
    ScanModel {
        phase: if json_space(b) {
            Phase::Next
        } else if b == 44 {
            Phase::NextKey
        } else {
            Phase::Closed
        },
        fields: absorb(m.fields, m.key, v),
        ..m
    }
}

pub open spec fn ends_value(b: u8) -> bool {
    json_space(b) || b == 44 || b == 125
}

/// One byte of the structured shape.
pub open spec fn step(m: ScanModel, b: u8) -> ScanModel {
    match m.phase {
        Phase::Open => if json_space(b) {
            m
        } else if b == 123 {
            ScanModel { phase: Phase::FirstKey, ..m }
        } else {
            invalid(m)
        },
        Phase::FirstKey => if json_space(b) {
            m
        } else if b == 34 {
            ScanModel { phase: Phase::Key, key: Seq::empty(), ..m }
        } else if b == 125 {
            ScanModel { phase: Phase::Closed, ..m }
        } else {
            invalid(m)
        },
        Phase::NextKey => if json_space(b) {
            m
        } else if b == 34 {
            ScanModel { phase: Phase::Key, key: Seq::empty(), ..m }
        } else {
            invalid(m)
        },
        Phase::Key => if b == 34 {
            ScanModel { phase: Phase::Colon, ..m }
        } else if b == 92 {
            ScanModel { phase: Phase::KeyEscape, key: m.key.push(b), ..m }
        } else if b < 32 {
            invalid(m)
        } else {
            ScanModel { key: m.key.push(b), ..m }
        },
        Phase::KeyEscape => ScanModel { phase: Phase::Key, key: m.key.push(b), ..m },
        Phase::Colon => if json_space(b) {
            m
        } else if b == 58 {
            ScanModel { phase: Phase::Value, ..m }
        } else {
            invalid(m)
        },
        Phase::Value => if json_space(b) {
            m
        } else if b == 34 {
            ScanModel { phase: Phase::Text, buf: Seq::empty(), ..m }
        } else if is_digit(b) {
            ScanModel { phase: Phase::Number, num: (b - 48) as u64, big: false, ..m }
        } else if is_lower(b) {
            ScanModel { phase: Phase::Word, buf: seq![b], ..m }
        } else {
            invalid(m)
        },
        Phase::Text => if b == 34 {
            ScanModel {
                phase: Phase::Next,
                fields: absorb(m.fields, m.key, Scalar::Text(m.buf)),
                ..m
            }
        } else if b == 92 {
            ScanModel { phase: Phase::TextEscape, buf: m.buf.push(b), ..m }
        } else if b < 32 {
            invalid(m)
        } else {
            ScanModel { buf: m.buf.push(b), ..m }
        },
        Phase::TextEscape => ScanModel { phase: Phase::Text, buf: m.buf.push(b), ..m },
        Phase::Number => if is_digit(b) {
            if m.big || m.num as int * 10 + (b - 48) > u64::MAX {
                ScanModel { big: true, ..m }
            } else {
                ScanModel { num: (m.num as int * 10 + (b - 48)) as u64, ..m }
            }
        } else if ends_value(b) {
            end_value(m, Scalar::Number(m.num, m.big), b)
        } else {
            invalid(m)
        },
        Phase::Word => if is_lower(b) {
            ScanModel { buf: m.buf.push(b), ..m }
        } else if ends_value(b) && is_literal_word(m.buf) {
            end_value(m, Scalar::Literal, b)
        } else {
            invalid(m)
        },
        Phase::Next => if json_space(b) {
            m
        } else if b == 44 {
            ScanModel { phase: Phase::NextKey, ..m }
        } else if b == 125 {
            ScanModel { phase: Phase::Closed, ..m }
        } else {
            invalid(m)
        },
        Phase::Closed => if json_space(b) {
            m
        } else {
            invalid(m)
        },
        Phase::Invalid => m,
    }
}

pub open spec fn scan_from(s: Seq<u8>, m: ScanModel) -> ScanModel
    decreases s.len(),
{
    if s.len() == 0 {
        m
    } else {
        scan_from(s.drop_first(), step(m, s[0]))
    }
}

pub open spec fn no_fields() -> Fields {
    Fields { pid: None, started_by: None, started_at: None, conflict: false }
}

pub open spec fn scan_start() -> ScanModel {
    ScanModel {
        phase: Phase::Open,
        key: Seq::empty(),
        buf: Seq::empty(),
        num: 0,
        big: false,
        fields: no_fields(),
    }
}

/// The record that a complete scan describes.
pub open spec fn record_of_scan(m: ScanModel) -> Option<ServiceRecord> {
    if m.phase == Phase::Closed && !m.fields.conflict && m.fields.pid is Some {
        Some(
            ServiceRecord {
                pid: m.fields.pid->0,
                started_by: match m.fields.started_by {
                    Some(b) => b,
                    None => StartedBy::Supervisor,
                },
                started_at: match m.fields.started_at {
                    Some(t) => t,
                    None => 0,
                },
            },
        )
    } else {
        None
    }
}

/// The structured shape of `t`, if it has it.
pub open spec fn structured_record(t: Seq<u8>) -> Option<ServiceRecord> {
    record_of_scan(scan_from(t, scan_start()))
}

/// What a registry file holding `content` says: the structured shape when
/// it has one with a nonzero pid, else a bare nonzero pid (launched by the
/// supervisor, start time unknown), else nothing.
pub open spec fn record_of(content: Seq<u8>) -> Option<ServiceRecord> {
    let t = trim(content);
    match structured_record(t) {
        Some(r) if r.pid > 0 => Some(r),
        _ => match parse_unsigned(t, u32::MAX as nat) {
            Some(p) if p > 0 => Some(
                ServiceRecord { pid: p as u32, started_by: StartedBy::Supervisor, started_at: 0 },
            ),
            _ => None,
        },
    }
}

/// The reader's state, as the executable scan holds it.
pub struct Scan {
    pub phase: Phase,
    pub key: Vec<u8>,
    pub buf: Vec<u8>,
    pub num: u64,
    pub big: bool,
    pub fields: Fields,
}

impl Scan {
    pub open spec fn model(&self) -> ScanModel {
        ScanModel {
            phase: self.phase,
            key: self.key@,
            buf: self.buf@,
            num: self.num,
            big: self.big,
            fields: self.fields,
        }
    }
}

fn eq_bytes(a: &[u8], b: &[u8]) -> (r: bool)
    ensures
        r == (a@ == b@),
{
    if a.len() != b.len() {
        return false;
    }
    let mut i: usize = 0;
    while i < a.len()
        invariant
            a@.len() == b@.len(),
            i <= a@.len(),
            a@.subrange(0, i as int) == b@.subrange(0, i as int),
        decreases a@.len() - i,
    {
        if a[i] != b[i] {
            return false;
        }
        assert(a@.subrange(0, i + 1) =~= a@.subrange(0, i as int).push(a@[i as int]));
        assert(b@.subrange(0, i + 1) =~= b@.subrange(0, i as int).push(b@[i as int]));
        i = i + 1;
    }
    assert(a@ =~= a@.subrange(0, i as int));
    assert(b@ =~= b@.subrange(0, i as int));
    true
}

fn json_space_byte(b: u8) -> (r: bool)
    ensures
        r == json_space(b),
{
    b == 32 || b == 9 || b == 10 || b == 13
}

fn started_by_from(t: &Vec<u8>) -> (r: StartedBy)
    ensures
        r == started_by_of(t@),
{
    let own: Vec<u8> = vec![115u8, 101, 108, 102];
    let desktop: Vec<u8> = vec![116u8, 97, 117, 114, 105];
    if eq_bytes(t.as_slice(), own.as_slice()) || eq_bytes(t.as_slice(), desktop.as_slice()) {
        StartedBy::Supervisor
    } else {
        StartedBy::External
    }
}

/// Which known member a key names: 0 for `pid`, 1 for `started_by`, 2 for
/// `started_at`, 3 for any other.
fn key_kind(key: &Vec<u8>) -> (r: u8)
    ensures
        r == 0 <==> key@ == pid_key(),
        r == 1 <==> key@ == started_by_key(),
        r == 2 <==> key@ == started_at_key(),
        r <= 3,
{
    let pid: Vec<u8> = vec![112u8, 105, 100];
    let by: Vec<u8> = vec![115u8, 116, 97, 114, 116, 101, 100, 95, 98, 121];
    let at: Vec<u8> = vec![115u8, 116, 97, 114, 116, 101, 100, 95, 97, 116];
    proof {
        assert(pid_key() != started_by_key());
        assert(pid_key() != started_at_key());
        assert(started_by_key()[9] != started_at_key()[9]);
    }
    if eq_bytes(key.as_slice(), pid.as_slice()) {
        0
    } else if eq_bytes(key.as_slice(), by.as_slice()) {
        1
    } else if eq_bytes(key.as_slice(), at.as_slice()) {
        2
    } else {
        3
    }
}

fn absorb_text(f: Fields, key: &Vec<u8>, t: &Vec<u8>) -> (r: Fields)
    ensures
        r == absorb(f, key@, Scalar::Text(t@)),
{
    let k = key_kind(key);
    if k == 1 && f.started_by.is_none() {
        Fields { started_by: Some(started_by_from(t)), ..f }
    } else if k <= 2 {
        Fields { conflict: true, ..f }
    } else {
        f
    }
}

fn absorb_number(f: Fields, key: &Vec<u8>, n: u64, big: bool) -> (r: Fields)
    ensures
        r == absorb(f, key@, Scalar::Number(n, big)),
{
    let k = key_kind(key);
    if k == 0 && f.pid.is_none() && !big && n <= 0xffff_ffffu64 {
        Fields { pid: Some(n as u32), ..f }
    } else if k == 2 && f.started_at.is_none() && !big {
        Fields { started_at: Some(n), ..f }
    } else if k <= 2 {
        Fields { conflict: true, ..f }
    } else {
        f
    }
}

fn absorb_literal(f: Fields, key: &Vec<u8>) -> (r: Fields)
    ensures
        r == absorb(f, key@, Scalar::Literal),
{
    let k = key_kind(key);
    if k <= 2 {
        Fields { conflict: true, ..f }
    } else {
        f
    }
}

fn is_literal_buf(w: &Vec<u8>) -> (r: bool)
    ensures
        r == is_literal_word(w@),
{
    let t: Vec<u8> = vec![116u8, 114, 117, 101];
    let f: Vec<u8> = vec![102u8, 97, 108, 115, 101];
    let n: Vec<u8> = vec![110u8, 117, 108, 108];
    eq_bytes(w.as_slice(), t.as_slice()) || eq_bytes(w.as_slice(), f.as_slice()) || eq_bytes(
        w.as_slice(),
        n.as_slice(),
    )
}

/// Ends the current value at byte `b` (whitespace, `,` or `}`).
fn end_phase(b: u8) -> (r: Phase)
    ensures
        r == (if json_space(b) {
            Phase::Next
        } else if b == 44 {
            Phase::NextKey
        } else {
            Phase::Closed
        }),
{
    if json_space_byte(b) {
        Phase::Next
    } else if b == 44 {
        Phase::NextKey
    } else {
        Phase::Closed
    }
}

/// Feeds one byte to the reader.
#[verifier::rlimit(40)]
fn scan_byte(st: &mut Scan, b: u8)
    ensures
        final(st).model() == step(old(st).model(), b),
{
    let sp = json_space_byte(b);
    match st.phase {
        Phase::Open => {
            if sp {
            } else if b == 123 {
                st.phase = Phase::FirstKey;
            } else {
                st.phase = Phase::Invalid;
            }
        },
        Phase::FirstKey => {
            if sp {
            } else if b == 34 {
                st.phase = Phase::Key;
                st.key = Vec::new();
            } else if b == 125 {
                st.phase = Phase::Closed;
            } else {
                st.phase = Phase::Invalid;
            }
        },
        Phase::NextKey => {
            if sp {
            } else if b == 34 {
                st.phase = Phase::Key;
                st.key = Vec::new();
            } else {
                st.phase = Phase::Invalid;
            }
        },
        Phase::Key => {
            if b == 34 {
                st.phase = Phase::Colon;
            } else if b == 92 {
                st.phase = Phase::KeyEscape;
                st.key.push(b);
            } else if b < 32 {
                st.phase = Phase::Invalid;
            } else {
                st.key.push(b);
            }
        },
        Phase::KeyEscape => {
            st.phase = Phase::Key;
            st.key.push(b);
        },
        Phase::Colon => {
            if sp {
            } else if b == 58 {
                st.phase = Phase::Value;
            } else {
                st.phase = Phase::Invalid;
            }
        },
        Phase::Value => {
            if sp {
            } else if b == 34 {
                st.phase = Phase::Text;
                st.buf = Vec::new();
            } else if is_digit_byte(b) {
                st.phase = Phase::Number;
                st.num = (b - 48) as u64;
                st.big = false;
            } else if 97 <= b && b <= 122 {
                st.phase = Phase::Word;
                st.buf = vec![b];
                assert(st.buf@ =~= seq![b]);
            } else {
                st.phase = Phase::Invalid;
            }
        },
        Phase::Text => {
            if b == 34 {
                st.phase = Phase::Next;
                st.fields = absorb_text(st.fields, &st.key, &st.buf);
            } else if b == 92 {
                st.phase = Phase::TextEscape;
                st.buf.push(b);
            } else if b < 32 {
                st.phase = Phase::Invalid;
            } else {
                st.buf.push(b);
            }
        },
        Phase::TextEscape => {
            st.phase = Phase::Text;
            st.buf.push(b);
        },
        Phase::Number => {
            if is_digit_byte(b) {
                if !st.big {
                    match st.num.checked_mul(10) {
                        Some(t) => match t.checked_add((b - 48) as u64) {
                            Some(n) => {
                                st.num = n;
                            },
                            None => {
                                st.big = true;
                            },
                        },
                        None => {
                            st.big = true;
                        },
                    }
                }
            } else if sp || b == 44 || b == 125 {
                st.fields = absorb_number(st.fields, &st.key, st.num, st.big);
                st.phase = end_phase(b);
            } else {
                st.phase = Phase::Invalid;
            }
        },
        Phase::Word => {
            if 97 <= b && b <= 122 {
                st.buf.push(b);
            } else if (sp || b == 44 || b == 125) && is_literal_buf(&st.buf) {
                st.fields = absorb_literal(st.fields, &st.key);
                st.phase = end_phase(b);
            } else {
                st.phase = Phase::Invalid;
            }
        },
        Phase::Next => {
            if sp {
            } else if b == 44 {
                st.phase = Phase::NextKey;
            } else if b == 125 {
                st.phase = Phase::Closed;
            } else {
                st.phase = Phase::Invalid;
            }
        },
        Phase::Closed => {
            if !sp {
                st.phase = Phase::Invalid;
            }
        },
        Phase::Invalid => {},
    }
}

/// Reads the structured shape from `s[start..end]`.
fn scan_structured(s: &[u8], start: usize, end: usize) -> (r: Option<ServiceRecord>)
    requires
        start <= end <= s@.len(),
    ensures
        r == structured_record(s@.subrange(start as int, end as int)),
{
    let ghost t = s@.subrange(start as int, end as int);
    let mut st = Scan {
        phase: Phase::Open,
        key: Vec::new(),
        buf: Vec::new(),
        num: 0,
        big: false,
        fields: Fields { pid: None, started_by: None, started_at: None, conflict: false },
    };
    let mut i: usize = start;
    while i < end
        invariant
            start <= i <= end <= s@.len(),
            t == s@.subrange(start as int, end as int),
            scan_from(t, scan_start()) == scan_from(s@.subrange(i as int, end as int), st.model()),
        decreases end - i,
    {
        proof {
            assert(s@.subrange(i as int, end as int).drop_first() =~= s@.subrange(i + 1, end as int));
        }
        scan_byte(&mut st, s[i]);
        i = i + 1;
    }
    proof {
        assert(s@.subrange(i as int, end as int) =~= Seq::<u8>::empty());
    }
    if st.phase == Phase::Closed && !st.fields.conflict {
        match st.fields.pid {
            Some(pid) => Some(
                ServiceRecord {
                    pid,
                    started_by: match st.fields.started_by {
                        Some(b) => b,
                        None => StartedBy::Supervisor,
                    },
                    started_at: match st.fields.started_at {
                        Some(t) => t,
                        None => 0,
                    },
                },
            ),
            None => None,
        }
    } else {
        None
    }
}

/// Reads a registry file's content (see the module documentation for the
/// two shapes). A pid of zero, or text of neither shape, is no record.
pub fn parse_record(content: &[u8]) -> (r: Option<ServiceRecord>)
    ensures
        r == record_of(content@),
{
    let (a, b) = trim_bounds(content);
    match scan_structured(content, a, b) {
        Some(rec) => {
            if rec.pid > 0 {
                return Some(rec);
            }
        },
        None => {},
    }
    match parse_unsigned_in(content, a, b, 0xffff_ffffu64) {
        Some(p) => {
            if p > 0 {
                Some(ServiceRecord { pid: p as u32, started_by: StartedBy::Supervisor, started_at: 0 })
            } else {
                None
            }
        },
        None => None,
    }
}

// ---------------------------------------------------------------------------
// Writing a record
/// The decimal digits of `n`, without leading zeros.
pub open spec fn decimal(n: nat) -> Seq<u8>
    decreases n,
{
    if n < 10 {
        seq![(48 + n) as u8]
    } else {
        decimal(n / 10).push((48 + n % 10) as u8)
    }
}

fn push_decimal(out: &mut Vec<u8>, n: u64)
    ensures
        final(out)@ == old(out)@ + decimal(n as nat),
    decreases n,
{
    if n >= 10 {
        push_decimal(out, n / 10);
    }
    out.push((48 + n % 10) as u8);
    proof {
        if n >= 10 {
            assert(old(out)@ + decimal(n as nat) =~= (old(out)@ + decimal((n / 10) as nat)).push(
                (48 + n % 10) as u8,
            ));
        } else {
            assert(old(out)@ + decimal(n as nat) =~= old(out)@.push((48 + n % 10) as u8));
        }
    }
}

fn push_all(out: &mut Vec<u8>, s: Vec<u8>)
    ensures
        final(out)@ == old(out)@ + s@,
{
    let mut t = s;
    out.append(&mut t);
}

pub open spec fn pid_open() -> Seq<u8> {
    seq![123u8, 10, 32, 32, 34, 112, 105, 100, 34, 58, 32]
}

pub open spec fn by_open() -> Seq<u8> {
    seq![44u8, 10, 32, 32, 34, 115, 116, 97, 114, 116, 101, 100, 95, 98, 121, 34, 58, 32, 34]
}

pub open spec fn at_open() -> Seq<u8> {
    seq![34u8, 44, 10, 32, 32, 34, 115, 116, 97, 114, 116, 101, 100, 95, 97, 116, 34, 58, 32]
}

pub open spec fn close() -> Seq<u8> {
    seq![10u8, 125, 10]
}

pub open spec fn started_by_text(b: StartedBy) -> Seq<u8> {
    match b {
        StartedBy::Supervisor => self_word(),
        StartedBy::External => external_word(),
    }
}

/// The file content of a record:
/// `{"pid": ..., "started_by": "self" | "external", "started_at": ...}`, one
/// member per line.
pub open spec fn rendered(r: ServiceRecord) -> Seq<u8> {
    pid_open() + decimal(r.pid as nat) + by_open() + started_by_text(r.started_by) + at_open()
        + decimal(r.started_at as nat) + close()
}

/// Renders a record for a whole-file write.
pub fn render_record(r: &ServiceRecord) -> (out: Vec<u8>)
    ensures
        out@ == rendered(*r),
{
    let mut out: Vec<u8> = Vec::new();
    let ghost e = out@;
    push_all(&mut out, vec![123u8, 10, 32, 32, 34, 112, 105, 100, 34, 58, 32]);
    push_decimal(&mut out, r.pid as u64);
    push_all(&mut out, vec![44u8, 10, 32, 32, 34, 115, 116, 97, 114, 116, 101, 100, 95, 98, 121, 34, 58, 32, 34]);
    match r.started_by {
        StartedBy::Supervisor => push_all(&mut out, vec![115u8, 101, 108, 102]),
        StartedBy::External => push_all(&mut out, vec![101u8, 120, 116, 101, 114, 110, 97, 108]),
    }
    push_all(&mut out, vec![34u8, 44, 10, 32, 32, 34, 115, 116, 97, 114, 116, 101, 100, 95, 97, 116, 34, 58, 32]);
    push_decimal(&mut out, r.started_at);
    push_all(&mut out, vec![10u8, 125, 10]);
    assert(out@ =~= rendered(*r));
    out
}

proof fn lemma_invalid_stays(s: Seq<u8>, m: ScanModel)
    requires
        m.phase == Phase::Invalid,
    ensures
        scan_from(s, m).phase == Phase::Invalid,
    decreases s.len(),
{
    if s.len() > 0 {
        lemma_invalid_stays(s.drop_first(), step(m, s[0]));
    }
}

/// Legacy compatibility: a registry file whose trimmed text is a bare
/// decimal pid (nonzero, fitting 32 bits) reads as the record of that pid,
/// launched by the supervisor, with start time zero; and for such a record
/// the identity check is liveness alone.
pub proof fn lemma_legacy_record(content: Seq<u8>, alive: bool, creation_time: Option<u64>)
    requires
        trim(content).len() > 0,
        all_digits(trim(content)),
        0 < digits_value(trim(content)) <= u32::MAX,
    ensures
        record_of(content) == Some(
            ServiceRecord {
                pid: digits_value(trim(content)) as u32,
                started_by: StartedBy::Supervisor,
                started_at: 0,
            },
        ),
        crate::identity::identity_holds(record_of(content)->0, alive, creation_time) == alive,
{
    let t = trim(content);
    assert(is_digit(t[0]));
    let m1 = step(scan_start(), t[0]);
    assert(m1.phase == Phase::Invalid);
    lemma_invalid_stays(t.drop_first(), m1);
    assert(structured_record(t) is None);
}

// ---------------------------------------------------------------------------
// Writing and reading agree
proof fn lemma_scan_append(a: Seq<u8>, b: Seq<u8>, m: ScanModel)
    ensures
        scan_from(a + b, m) == scan_from(b, scan_from(a, m)),
    decreases a.len(),
{
    if a.len() > 0 {
        assert((a + b).drop_first() =~= a.drop_first() + b);
        assert((a + b)[0] == a[0]);
        lemma_scan_append(a.drop_first(), b, step(m, a[0]));
    } else {
        assert(a + b =~= b);
    }
}

/// Reading the opening `{\n  "pid": ` of a written record.
proof fn lemma_scan_pid_open(m: ScanModel)
    requires
        m.phase == Phase::Open,
    ensures
        scan_from(pid_open(), m) == (ScanModel {
                phase: Phase::Value,
                key: Seq::<u8>::empty().push(112u8).push(105u8).push(100u8),
                buf: m.buf,
                num: m.num,
                big: m.big,
                fields: m.fields,
            }),
{
    let s0 = pid_open();
    let s1 = s0.drop_first();
    assert(s0[0] == 123u8);
    let m1 = step(m, 123u8);
    assert(scan_from(s0, m) == scan_from(s1, m1));
    assert(m1 == (ScanModel {
            phase: Phase::FirstKey,
            key: m.key,
            buf: m.buf,
            num: m.num,
            big: m.big,
            fields: m.fields,
        }));
    let s2 = s1.drop_first();
    assert(s1[0] == 10u8);
    let m2 = step(m1, 10u8);
    assert(scan_from(s1, m1) == scan_from(s2, m2));
    assert(m2 == (ScanModel {
            phase: Phase::FirstKey,
            key: m.key,
            buf: m.buf,
            num: m.num,
            big: m.big,
            fields: m.fields,
        }));
    let s3 = s2.drop_first();
    assert(s2[0] == 32u8);
    let m3 = step(m2, 32u8);
    assert(scan_from(s2, m2) == scan_from(s3, m3));
    assert(m3 == (ScanModel {
            phase: Phase::FirstKey,
            key: m.key,
            buf: m.buf,
            num: m.num,
            big: m.big,
            fields: m.fields,
        }));
    let s4 = s3.drop_first();
    assert(s3[0] == 32u8);
    let m4 = step(m3, 32u8);
    assert(scan_from(s3, m3) == scan_from(s4, m4));
    assert(m4 == (ScanModel {
            phase: Phase::FirstKey,
            key: m.key,
            buf: m.buf,
            num: m.num,
            big: m.big,
            fields: m.fields,
        }));
    let s5 = s4.drop_first();
    assert(s4[0] == 34u8);
    let m5 = step(m4, 34u8);
    assert(scan_from(s4, m4) == scan_from(s5, m5));
    assert(m5 == (ScanModel {
            phase: Phase::Key,
            key: Seq::<u8>::empty(),
            buf: m.buf,
            num: m.num,
            big: m.big,
            fields: m.fields,
        }));
    let s6 = s5.drop_first();
    assert(s5[0] == 112u8);
    let m6 = step(m5, 112u8);
    assert(scan_from(s5, m5) == scan_from(s6, m6));
    assert(m6 == (ScanModel {
            phase: Phase::Key,
            key: Seq::<u8>::empty().push(112u8),
            buf: m.buf,
            num: m.num,
            big: m.big,
            fields: m.fields,
        }));
    let s7 = s6.drop_first();
    assert(s6[0] == 105u8);
    let m7 = step(m6, 105u8);
    assert(scan_from(s6, m6) == scan_from(s7, m7));
    assert(m7 == (ScanModel {
            phase: Phase::Key,
            key: Seq::<u8>::empty().push(112u8).push(105u8),
            buf: m.buf,
            num: m.num,
            big: m.big,
            fields: m.fields,
        }));
    let s8 = s7.drop_first();
    assert(s7[0] == 100u8);
    let m8 = step(m7, 100u8);
    assert(scan_from(s7, m7) == scan_from(s8, m8));
    assert(m8 == (ScanModel {
            phase: Phase::Key,
            key: Seq::<u8>::empty().push(112u8).push(105u8).push(100u8),
            buf: m.buf,
            num: m.num,
            big: m.big,
            fields: m.fields,
        }));
    let s9 = s8.drop_first();
    assert(s8[0] == 34u8);
    let m9 = step(m8, 34u8);
    assert(scan_from(s8, m8) == scan_from(s9, m9));
    assert(m9 == (ScanModel {
            phase: Phase::Colon,
            key: Seq::<u8>::empty().push(112u8).push(105u8).push(100u8),
            buf: m.buf,
            num: m.num,
            big: m.big,
            fields: m.fields,
        }));
    let s10 = s9.drop_first();
    assert(s9[0] == 58u8);
    let m10 = step(m9, 58u8);
    assert(scan_from(s9, m9) == scan_from(s10, m10));
    assert(m10 == (ScanModel {
            phase: Phase::Value,
            key: Seq::<u8>::empty().push(112u8).push(105u8).push(100u8),
            buf: m.buf,
            num: m.num,
            big: m.big,
            fields: m.fields,
        }));
    let s11 = s10.drop_first();
    assert(s10[0] == 32u8);
    let m11 = step(m10, 32u8);
    assert(scan_from(s10, m10) == scan_from(s11, m11));
    assert(m11 == (ScanModel {
            phase: Phase::Value,
            key: Seq::<u8>::empty().push(112u8).push(105u8).push(100u8),
            buf: m.buf,
            num: m.num,
            big: m.big,
            fields: m.fields,
        }));
    assert(s11.len() == 0);
}

/// Reading `,\n  "started_by": "` after the pid.
proof fn lemma_scan_by_open(m: ScanModel)
    requires
        m.phase == Phase::Number,
    ensures
        scan_from(by_open(), m) == (ScanModel {
                phase: Phase::Text,
                key: Seq::<u8>::empty().push(115u8).push(116u8).push(97u8).push(114u8).push(116u8).push(101u8).push(100u8).push(95u8).push(98u8).push(121u8),
                buf: Seq::<u8>::empty(),
                num: m.num,
                big: m.big,
                fields: absorb(m.fields, m.key, Scalar::Number(m.num, m.big)),
            }),
{
    let s0 = by_open();
    let s1 = s0.drop_first();
    assert(s0[0] == 44u8);
    let m1 = step(m, 44u8);
    assert(scan_from(s0, m) == scan_from(s1, m1));
    assert(m1 == (ScanModel {
            phase: Phase::NextKey,
            key: m.key,
            buf: m.buf,
            num: m.num,
            big: m.big,
            fields: absorb(m.fields, m.key, Scalar::Number(m.num, m.big)),
        }));
    let s2 = s1.drop_first();
    assert(s1[0] == 10u8);
    let m2 = step(m1, 10u8);
    assert(scan_from(s1, m1) == scan_from(s2, m2));
    assert(m2 == (ScanModel {
            phase: Phase::NextKey,
            key: m.key,
            buf: m.buf,
            num: m.num,
            big: m.big,
            fields: absorb(m.fields, m.key, Scalar::Number(m.num, m.big)),
        }));
    let s3 = s2.drop_first();
    assert(s2[0] == 32u8);
    let m3 = step(m2, 32u8);
    assert(scan_from(s2, m2) == scan_from(s3, m3));
    assert(m3 == (ScanModel {
            phase: Phase::NextKey,
            key: m.key,
            buf: m.buf,
            num: m.num,
            big: m.big,
            fields: absorb(m.fields, m.key, Scalar::Number(m.num, m.big)),
        }));
    let s4 = s3.drop_first();
    assert(s3[0] == 32u8);
    let m4 = step(m3, 32u8);
    assert(scan_from(s3, m3) == scan_from(s4, m4));
    assert(m4 == (ScanModel {
            phase: Phase::NextKey,
            key: m.key,
            buf: m.buf,
            num: m.num,
            big: m.big,
            fields: absorb(m.fields, m.key, Scalar::Number(m.num, m.big)),
        }));
    let s5 = s4.drop_first();
    assert(s4[0] == 34u8);
    let m5 = step(m4, 34u8);
    assert(scan_from(s4, m4) == scan_from(s5, m5));
    assert(m5 == (ScanModel {
            phase: Phase::Key,
            key: Seq::<u8>::empty(),
            buf: m.buf,
            num: m.num,
            big: m.big,
            fields: absorb(m.fields, m.key, Scalar::Number(m.num, m.big)),
        }));
    let s6 = s5.drop_first();
    assert(s5[0] == 115u8);
    let m6 = step(m5, 115u8);
    assert(scan_from(s5, m5) == scan_from(s6, m6));
    assert(m6 == (ScanModel {
            phase: Phase::Key,
            key: Seq::<u8>::empty().push(115u8),
            buf: m.buf,
            num: m.num,
            big: m.big,
            fields: absorb(m.fields, m.key, Scalar::Number(m.num, m.big)),
        }));
    let s7 = s6.drop_first();
    assert(s6[0] == 116u8);
    let m7 = step(m6, 116u8);
    assert(scan_from(s6, m6) == scan_from(s7, m7));
    assert(m7 == (ScanModel {
            phase: Phase::Key,
            key: Seq::<u8>::empty().push(115u8).push(116u8),
            buf: m.buf,
            num: m.num,
            big: m.big,
            fields: absorb(m.fields, m.key, Scalar::Number(m.num, m.big)),
        }));
    let s8 = s7.drop_first();
    assert(s7[0] == 97u8);
    let m8 = step(m7, 97u8);
    assert(scan_from(s7, m7) == scan_from(s8, m8));
    assert(m8 == (ScanModel {
            phase: Phase::Key,
            key: Seq::<u8>::empty().push(115u8).push(116u8).push(97u8),
            buf: m.buf,
            num: m.num,
            big: m.big,
            fields: absorb(m.fields, m.key, Scalar::Number(m.num, m.big)),
        }));
    let s9 = s8.drop_first();
    assert(s8[0] == 114u8);
    let m9 = step(m8, 114u8);
    assert(scan_from(s8, m8) == scan_from(s9, m9));
    assert(m9 == (ScanModel {
            phase: Phase::Key,
            key: Seq::<u8>::empty().push(115u8).push(116u8).push(97u8).push(114u8),
            buf: m.buf,
            num: m.num,
            big: m.big,
            fields: absorb(m.fields, m.key, Scalar::Number(m.num, m.big)),
        }));
    let s10 = s9.drop_first();
    assert(s9[0] == 116u8);
    let m10 = step(m9, 116u8);
    assert(scan_from(s9, m9) == scan_from(s10, m10));
    assert(m10 == (ScanModel {
            phase: Phase::Key,
            key: Seq::<u8>::empty().push(115u8).push(116u8).push(97u8).push(114u8).push(116u8),
            buf: m.buf,
            num: m.num,
            big: m.big,
            fields: absorb(m.fields, m.key, Scalar::Number(m.num, m.big)),
        }));
    let s11 = s10.drop_first();
    assert(s10[0] == 101u8);
    let m11 = step(m10, 101u8);
    assert(scan_from(s10, m10) == scan_from(s11, m11));
    assert(m11 == (ScanModel {
            phase: Phase::Key,
            key: Seq::<u8>::empty().push(115u8).push(116u8).push(97u8).push(114u8).push(116u8).push(101u8),
            buf: m.buf,
            num: m.num,
            big: m.big,
            fields: absorb(m.fields, m.key, Scalar::Number(m.num, m.big)),
        }));
    let s12 = s11.drop_first();
    assert(s11[0] == 100u8);
    let m12 = step(m11, 100u8);
    assert(scan_from(s11, m11) == scan_from(s12, m12));
    assert(m12 == (ScanModel {
            phase: Phase::Key,
            key: Seq::<u8>::empty().push(115u8).push(116u8).push(97u8).push(114u8).push(116u8).push(101u8).push(100u8),
            buf: m.buf,
            num: m.num,
            big: m.big,
            fields: absorb(m.fields, m.key, Scalar::Number(m.num, m.big)),
        }));
    let s13 = s12.drop_first();
    assert(s12[0] == 95u8);
    let m13 = step(m12, 95u8);
    assert(scan_from(s12, m12) == scan_from(s13, m13));
    assert(m13 == (ScanModel {
            phase: Phase::Key,
            key: Seq::<u8>::empty().push(115u8).push(116u8).push(97u8).push(114u8).push(116u8).push(101u8).push(100u8).push(95u8),
            buf: m.buf,
            num: m.num,
            big: m.big,
            fields: absorb(m.fields, m.key, Scalar::Number(m.num, m.big)),
        }));
    let s14 = s13.drop_first();
    assert(s13[0] == 98u8);
    let m14 = step(m13, 98u8);
    assert(scan_from(s13, m13) == scan_from(s14, m14));
    assert(m14 == (ScanModel {
            phase: Phase::Key,
            key: Seq::<u8>::empty().push(115u8).push(116u8).push(97u8).push(114u8).push(116u8).push(101u8).push(100u8).push(95u8).push(98u8),
            buf: m.buf,
            num: m.num,
            big: m.big,
            fields: absorb(m.fields, m.key, Scalar::Number(m.num, m.big)),
        }));
    let s15 = s14.drop_first();
    assert(s14[0] == 121u8);
    let m15 = step(m14, 121u8);
    assert(scan_from(s14, m14) == scan_from(s15, m15));
    assert(m15 == (ScanModel {
            phase: Phase::Key,
            key: Seq::<u8>::empty().push(115u8).push(116u8).push(97u8).push(114u8).push(116u8).push(101u8).push(100u8).push(95u8).push(98u8).push(121u8),
            buf: m.buf,
            num: m.num,
            big: m.big,
            fields: absorb(m.fields, m.key, Scalar::Number(m.num, m.big)),
        }));
    let s16 = s15.drop_first();
    assert(s15[0] == 34u8);
    let m16 = step(m15, 34u8);
    assert(scan_from(s15, m15) == scan_from(s16, m16));
    assert(m16 == (ScanModel {
            phase: Phase::Colon,
            key: Seq::<u8>::empty().push(115u8).push(116u8).push(97u8).push(114u8).push(116u8).push(101u8).push(100u8).push(95u8).push(98u8).push(121u8),
            buf: m.buf,
            num: m.num,
            big: m.big,
            fields: absorb(m.fields, m.key, Scalar::Number(m.num, m.big)),
        }));
    let s17 = s16.drop_first();
    assert(s16[0] == 58u8);
    let m17 = step(m16, 58u8);
    assert(scan_from(s16, m16) == scan_from(s17, m17));
    assert(m17 == (ScanModel {
            phase: Phase::Value,
            key: Seq::<u8>::empty().push(115u8).push(116u8).push(97u8).push(114u8).push(116u8).push(101u8).push(100u8).push(95u8).push(98u8).push(121u8),
            buf: m.buf,
            num: m.num,
            big: m.big,
            fields: absorb(m.fields, m.key, Scalar::Number(m.num, m.big)),
        }));
    let s18 = s17.drop_first();
    assert(s17[0] == 32u8);
    let m18 = step(m17, 32u8);
    assert(scan_from(s17, m17) == scan_from(s18, m18));
    assert(m18 == (ScanModel {
            phase: Phase::Value,
            key: Seq::<u8>::empty().push(115u8).push(116u8).push(97u8).push(114u8).push(116u8).push(101u8).push(100u8).push(95u8).push(98u8).push(121u8),
            buf: m.buf,
            num: m.num,
            big: m.big,
            fields: absorb(m.fields, m.key, Scalar::Number(m.num, m.big)),
        }));
    let s19 = s18.drop_first();
    assert(s18[0] == 34u8);
    let m19 = step(m18, 34u8);
    assert(scan_from(s18, m18) == scan_from(s19, m19));
    assert(m19 == (ScanModel {
            phase: Phase::Text,
            key: Seq::<u8>::empty().push(115u8).push(116u8).push(97u8).push(114u8).push(116u8).push(101u8).push(100u8).push(95u8).push(98u8).push(121u8),
            buf: Seq::<u8>::empty(),
            num: m.num,
            big: m.big,
            fields: absorb(m.fields, m.key, Scalar::Number(m.num, m.big)),
        }));
    assert(s19.len() == 0);
}

/// Reading the `self` marker inside the string.
proof fn lemma_scan_self_word(m: ScanModel)
    requires
        m.phase == Phase::Text,
    ensures
        scan_from(self_word(), m) == (ScanModel {
                phase: Phase::Text,
                key: m.key,
                buf: m.buf.push(115u8).push(101u8).push(108u8).push(102u8),
                num: m.num,
                big: m.big,
                fields: m.fields,
            }),
{
    let s0 = self_word();
    let s1 = s0.drop_first();
    assert(s0[0] == 115u8);
    let m1 = step(m, 115u8);
    assert(scan_from(s0, m) == scan_from(s1, m1));
    assert(m1 == (ScanModel {
            phase: Phase::Text,
            key: m.key,
            buf: m.buf.push(115u8),
            num: m.num,
            big: m.big,
            fields: m.fields,
        }));
    let s2 = s1.drop_first();
    assert(s1[0] == 101u8);
    let m2 = step(m1, 101u8);
    assert(scan_from(s1, m1) == scan_from(s2, m2));
    assert(m2 == (ScanModel {
            phase: Phase::Text,
            key: m.key,
            buf: m.buf.push(115u8).push(101u8),
            num: m.num,
            big: m.big,
            fields: m.fields,
        }));
    let s3 = s2.drop_first();
    assert(s2[0] == 108u8);
    let m3 = step(m2, 108u8);
    assert(scan_from(s2, m2) == scan_from(s3, m3));
    assert(m3 == (ScanModel {
            phase: Phase::Text,
            key: m.key,
            buf: m.buf.push(115u8).push(101u8).push(108u8),
            num: m.num,
            big: m.big,
            fields: m.fields,
        }));
    let s4 = s3.drop_first();
    assert(s3[0] == 102u8);
    let m4 = step(m3, 102u8);
    assert(scan_from(s3, m3) == scan_from(s4, m4));
    assert(m4 == (ScanModel {
            phase: Phase::Text,
            key: m.key,
            buf: m.buf.push(115u8).push(101u8).push(108u8).push(102u8),
            num: m.num,
            big: m.big,
            fields: m.fields,
        }));
    assert(s4.len() == 0);
}

/// Reading the `external` marker inside the string.
proof fn lemma_scan_external_word(m: ScanModel)
    requires
        m.phase == Phase::Text,
    ensures
        scan_from(external_word(), m) == (ScanModel {
                phase: Phase::Text,
                key: m.key,
                buf: m.buf.push(101u8).push(120u8).push(116u8).push(101u8).push(114u8).push(110u8).push(97u8).push(108u8),
                num: m.num,
                big: m.big,
                fields: m.fields,
            }),
{
    let s0 = external_word();
    let s1 = s0.drop_first();
    assert(s0[0] == 101u8);
    let m1 = step(m, 101u8);
    assert(scan_from(s0, m) == scan_from(s1, m1));
    assert(m1 == (ScanModel {
            phase: Phase::Text,
            key: m.key,
            buf: m.buf.push(101u8),
            num: m.num,
            big: m.big,
            fields: m.fields,
        }));
    let s2 = s1.drop_first();
    assert(s1[0] == 120u8);
    let m2 = step(m1, 120u8);
    assert(scan_from(s1, m1) == scan_from(s2, m2));
    assert(m2 == (ScanModel {
            phase: Phase::Text,
            key: m.key,
            buf: m.buf.push(101u8).push(120u8),
            num: m.num,
            big: m.big,
            fields: m.fields,
        }));
    let s3 = s2.drop_first();
    assert(s2[0] == 116u8);
    let m3 = step(m2, 116u8);
    assert(scan_from(s2, m2) == scan_from(s3, m3));
    assert(m3 == (ScanModel {
            phase: Phase::Text,
            key: m.key,
            buf: m.buf.push(101u8).push(120u8).push(116u8),
            num: m.num,
            big: m.big,
            fields: m.fields,
        }));
    let s4 = s3.drop_first();
    assert(s3[0] == 101u8);
    let m4 = step(m3, 101u8);
    assert(scan_from(s3, m3) == scan_from(s4, m4));
    assert(m4 == (ScanModel {
            phase: Phase::Text,
            key: m.key,
            buf: m.buf.push(101u8).push(120u8).push(116u8).push(101u8),
            num: m.num,
            big: m.big,
            fields: m.fields,
        }));
    let s5 = s4.drop_first();
    assert(s4[0] == 114u8);
    let m5 = step(m4, 114u8);
    assert(scan_from(s4, m4) == scan_from(s5, m5));
    assert(m5 == (ScanModel {
            phase: Phase::Text,
            key: m.key,
            buf: m.buf.push(101u8).push(120u8).push(116u8).push(101u8).push(114u8),
            num: m.num,
            big: m.big,
            fields: m.fields,
        }));
    let s6 = s5.drop_first();
    assert(s5[0] == 110u8);
    let m6 = step(m5, 110u8);
    assert(scan_from(s5, m5) == scan_from(s6, m6));
    assert(m6 == (ScanModel {
            phase: Phase::Text,
            key: m.key,
            buf: m.buf.push(101u8).push(120u8).push(116u8).push(101u8).push(114u8).push(110u8),
            num: m.num,
            big: m.big,
            fields: m.fields,
        }));
    let s7 = s6.drop_first();
    assert(s6[0] == 97u8);
    let m7 = step(m6, 97u8);
    assert(scan_from(s6, m6) == scan_from(s7, m7));
    assert(m7 == (ScanModel {
            phase: Phase::Text,
            key: m.key,
            buf: m.buf.push(101u8).push(120u8).push(116u8).push(101u8).push(114u8).push(110u8).push(97u8),
            num: m.num,
            big: m.big,
            fields: m.fields,
        }));
    let s8 = s7.drop_first();
    assert(s7[0] == 108u8);
    let m8 = step(m7, 108u8);
    assert(scan_from(s7, m7) == scan_from(s8, m8));
    assert(m8 == (ScanModel {
            phase: Phase::Text,
            key: m.key,
            buf: m.buf.push(101u8).push(120u8).push(116u8).push(101u8).push(114u8).push(110u8).push(97u8).push(108u8),
            num: m.num,
            big: m.big,
            fields: m.fields,
        }));
    assert(s8.len() == 0);
}

/// Reading `",\n  "started_at": ` after the marker.
proof fn lemma_scan_at_open(m: ScanModel)
    requires
        m.phase == Phase::Text,
    ensures
        scan_from(at_open(), m) == (ScanModel {
                phase: Phase::Value,
                key: Seq::<u8>::empty().push(115u8).push(116u8).push(97u8).push(114u8).push(116u8).push(101u8).push(100u8).push(95u8).push(97u8).push(116u8),
                buf: m.buf,
                num: m.num,
                big: m.big,
                fields: absorb(m.fields, m.key, Scalar::Text(m.buf)),
            }),
{
    let s0 = at_open();
    let s1 = s0.drop_first();
    assert(s0[0] == 34u8);
    let m1 = step(m, 34u8);
    assert(scan_from(s0, m) == scan_from(s1, m1));
    assert(m1 == (ScanModel {
            phase: Phase::Next,
            key: m.key,
            buf: m.buf,
            num: m.num,
            big: m.big,
            fields: absorb(m.fields, m.key, Scalar::Text(m.buf)),
        }));
    let s2 = s1.drop_first();
    assert(s1[0] == 44u8);
    let m2 = step(m1, 44u8);
    assert(scan_from(s1, m1) == scan_from(s2, m2));
    assert(m2 == (ScanModel {
            phase: Phase::NextKey,
            key: m.key,
            buf: m.buf,
            num: m.num,
            big: m.big,
            fields: absorb(m.fields, m.key, Scalar::Text(m.buf)),
        }));
    let s3 = s2.drop_first();
    assert(s2[0] == 10u8);
    let m3 = step(m2, 10u8);
    assert(scan_from(s2, m2) == scan_from(s3, m3));
    assert(m3 == (ScanModel {
            phase: Phase::NextKey,
            key: m.key,
            buf: m.buf,
            num: m.num,
            big: m.big,
            fields: absorb(m.fields, m.key, Scalar::Text(m.buf)),
        }));
    let s4 = s3.drop_first();
    assert(s3[0] == 32u8);
    let m4 = step(m3, 32u8);
    assert(scan_from(s3, m3) == scan_from(s4, m4));
    assert(m4 == (ScanModel {
            phase: Phase::NextKey,
            key: m.key,
            buf: m.buf,
            num: m.num,
            big: m.big,
            fields: absorb(m.fields, m.key, Scalar::Text(m.buf)),
        }));
    let s5 = s4.drop_first();
    assert(s4[0] == 32u8);
    let m5 = step(m4, 32u8);
    assert(scan_from(s4, m4) == scan_from(s5, m5));
    assert(m5 == (ScanModel {
            phase: Phase::NextKey,
            key: m.key,
            buf: m.buf,
            num: m.num,
            big: m.big,
            fields: absorb(m.fields, m.key, Scalar::Text(m.buf)),
        }));
    let s6 = s5.drop_first();
    assert(s5[0] == 34u8);
    let m6 = step(m5, 34u8);
    assert(scan_from(s5, m5) == scan_from(s6, m6));
    assert(m6 == (ScanModel {
            phase: Phase::Key,
            key: Seq::<u8>::empty(),
            buf: m.buf,
            num: m.num,
            big: m.big,
            fields: absorb(m.fields, m.key, Scalar::Text(m.buf)),
        }));
    let s7 = s6.drop_first();
    assert(s6[0] == 115u8);
    let m7 = step(m6, 115u8);
    assert(scan_from(s6, m6) == scan_from(s7, m7));
    assert(m7 == (ScanModel {
            phase: Phase::Key,
            key: Seq::<u8>::empty().push(115u8),
            buf: m.buf,
            num: m.num,
            big: m.big,
            fields: absorb(m.fields, m.key, Scalar::Text(m.buf)),
        }));
    let s8 = s7.drop_first();
    assert(s7[0] == 116u8);
    let m8 = step(m7, 116u8);
    assert(scan_from(s7, m7) == scan_from(s8, m8));
    assert(m8 == (ScanModel {
            phase: Phase::Key,
            key: Seq::<u8>::empty().push(115u8).push(116u8),
            buf: m.buf,
            num: m.num,
            big: m.big,
            fields: absorb(m.fields, m.key, Scalar::Text(m.buf)),
        }));
    let s9 = s8.drop_first();
    assert(s8[0] == 97u8);
    let m9 = step(m8, 97u8);
    assert(scan_from(s8, m8) == scan_from(s9, m9));
    assert(m9 == (ScanModel {
            phase: Phase::Key,
            key: Seq::<u8>::empty().push(115u8).push(116u8).push(97u8),
            buf: m.buf,
            num: m.num,
            big: m.big,
            fields: absorb(m.fields, m.key, Scalar::Text(m.buf)),
        }));
    let s10 = s9.drop_first();
    assert(s9[0] == 114u8);
    let m10 = step(m9, 114u8);
    assert(scan_from(s9, m9) == scan_from(s10, m10));
    assert(m10 == (ScanModel {
            phase: Phase::Key,
            key: Seq::<u8>::empty().push(115u8).push(116u8).push(97u8).push(114u8),
            buf: m.buf,
            num: m.num,
            big: m.big,
            fields: absorb(m.fields, m.key, Scalar::Text(m.buf)),
        }));
    let s11 = s10.drop_first();
    assert(s10[0] == 116u8);
    let m11 = step(m10, 116u8);
    assert(scan_from(s10, m10) == scan_from(s11, m11));
    assert(m11 == (ScanModel {
            phase: Phase::Key,
            key: Seq::<u8>::empty().push(115u8).push(116u8).push(97u8).push(114u8).push(116u8),
            buf: m.buf,
            num: m.num,
            big: m.big,
            fields: absorb(m.fields, m.key, Scalar::Text(m.buf)),
        }));
    let s12 = s11.drop_first();
    assert(s11[0] == 101u8);
    let m12 = step(m11, 101u8);
    assert(scan_from(s11, m11) == scan_from(s12, m12));
    assert(m12 == (ScanModel {
            phase: Phase::Key,
            key: Seq::<u8>::empty().push(115u8).push(116u8).push(97u8).push(114u8).push(116u8).push(101u8),
            buf: m.buf,
            num: m.num,
            big: m.big,
            fields: absorb(m.fields, m.key, Scalar::Text(m.buf)),
        }));
    let s13 = s12.drop_first();
    assert(s12[0] == 100u8);
    let m13 = step(m12, 100u8);
    assert(scan_from(s12, m12) == scan_from(s13, m13));
    assert(m13 == (ScanModel {
            phase: Phase::Key,
            key: Seq::<u8>::empty().push(115u8).push(116u8).push(97u8).push(114u8).push(116u8).push(101u8).push(100u8),
            buf: m.buf,
            num: m.num,
            big: m.big,
            fields: absorb(m.fields, m.key, Scalar::Text(m.buf)),
        }));
    let s14 = s13.drop_first();
    assert(s13[0] == 95u8);
    let m14 = step(m13, 95u8);
    assert(scan_from(s13, m13) == scan_from(s14, m14));
    assert(m14 == (ScanModel {
            phase: Phase::Key,
            key: Seq::<u8>::empty().push(115u8).push(116u8).push(97u8).push(114u8).push(116u8).push(101u8).push(100u8).push(95u8),
            buf: m.buf,
            num: m.num,
            big: m.big,
            fields: absorb(m.fields, m.key, Scalar::Text(m.buf)),
        }));
    let s15 = s14.drop_first();
    assert(s14[0] == 97u8);
    let m15 = step(m14, 97u8);
    assert(scan_from(s14, m14) == scan_from(s15, m15));
    assert(m15 == (ScanModel {
            phase: Phase::Key,
            key: Seq::<u8>::empty().push(115u8).push(116u8).push(97u8).push(114u8).push(116u8).push(101u8).push(100u8).push(95u8).push(97u8),
            buf: m.buf,
            num: m.num,
            big: m.big,
            fields: absorb(m.fields, m.key, Scalar::Text(m.buf)),
        }));
    let s16 = s15.drop_first();
    assert(s15[0] == 116u8);
    let m16 = step(m15, 116u8);
    assert(scan_from(s15, m15) == scan_from(s16, m16));
    assert(m16 == (ScanModel {
            phase: Phase::Key,
            key: Seq::<u8>::empty().push(115u8).push(116u8).push(97u8).push(114u8).push(116u8).push(101u8).push(100u8).push(95u8).push(97u8).push(116u8),
            buf: m.buf,
            num: m.num,
            big: m.big,
            fields: absorb(m.fields, m.key, Scalar::Text(m.buf)),
        }));
    let s17 = s16.drop_first();
    assert(s16[0] == 34u8);
    let m17 = step(m16, 34u8);
    assert(scan_from(s16, m16) == scan_from(s17, m17));
    assert(m17 == (ScanModel {
            phase: Phase::Colon,
            key: Seq::<u8>::empty().push(115u8).push(116u8).push(97u8).push(114u8).push(116u8).push(101u8).push(100u8).push(95u8).push(97u8).push(116u8),
            buf: m.buf,
            num: m.num,
            big: m.big,
            fields: absorb(m.fields, m.key, Scalar::Text(m.buf)),
        }));
    let s18 = s17.drop_first();
    assert(s17[0] == 58u8);
    let m18 = step(m17, 58u8);
    assert(scan_from(s17, m17) == scan_from(s18, m18));
    assert(m18 == (ScanModel {
            phase: Phase::Value,
            key: Seq::<u8>::empty().push(115u8).push(116u8).push(97u8).push(114u8).push(116u8).push(101u8).push(100u8).push(95u8).push(97u8).push(116u8),
            buf: m.buf,
            num: m.num,
            big: m.big,
            fields: absorb(m.fields, m.key, Scalar::Text(m.buf)),
        }));
    let s19 = s18.drop_first();
    assert(s18[0] == 32u8);
    let m19 = step(m18, 32u8);
    assert(scan_from(s18, m18) == scan_from(s19, m19));
    assert(m19 == (ScanModel {
            phase: Phase::Value,
            key: Seq::<u8>::empty().push(115u8).push(116u8).push(97u8).push(114u8).push(116u8).push(101u8).push(100u8).push(95u8).push(97u8).push(116u8),
            buf: m.buf,
            num: m.num,
            big: m.big,
            fields: absorb(m.fields, m.key, Scalar::Text(m.buf)),
        }));
    assert(s19.len() == 0);
}

/// Reading the closing `\n}` after the start time.
proof fn lemma_scan_close(m: ScanModel)
    requires
        m.phase == Phase::Number,
    ensures
        scan_from(seq![10u8, 125u8], m) == (ScanModel {
                phase: Phase::Closed,
                key: m.key,
                buf: m.buf,
                num: m.num,
                big: m.big,
                fields: absorb(m.fields, m.key, Scalar::Number(m.num, m.big)),
            }),
{
    let s0 = seq![10u8, 125u8];
    let s1 = s0.drop_first();
    assert(s0[0] == 10u8);
    let m1 = step(m, 10u8);
    assert(scan_from(s0, m) == scan_from(s1, m1));
    assert(m1 == (ScanModel {
            phase: Phase::Next,
            key: m.key,
            buf: m.buf,
            num: m.num,
            big: m.big,
            fields: absorb(m.fields, m.key, Scalar::Number(m.num, m.big)),
        }));
    let s2 = s1.drop_first();
    assert(s1[0] == 125u8);
    let m2 = step(m1, 125u8);
    assert(scan_from(s1, m1) == scan_from(s2, m2));
    assert(m2 == (ScanModel {
            phase: Phase::Closed,
            key: m.key,
            buf: m.buf,
            num: m.num,
            big: m.big,
            fields: absorb(m.fields, m.key, Scalar::Number(m.num, m.big)),
        }));
    assert(s2.len() == 0);
}


proof fn lemma_scan_decimal(n: nat, m: ScanModel)
    requires
        m.phase == Phase::Value,
        n <= u64::MAX,
    ensures
        scan_from(decimal(n), m) == (ScanModel { phase: Phase::Number, num: n as u64, big: false, ..m }),
    decreases n,
{
    let d = (48 + n % 10) as u8;
    if n < 10 {
        let s = decimal(n);
        assert(s.drop_first() =~= Seq::<u8>::empty());
        assert(s[0] == d);
        assert(scan_from(s, m) == scan_from(Seq::<u8>::empty(), step(m, d)));
    } else {
        let p = decimal(n / 10);
        lemma_scan_decimal(n / 10, m);
        assert(decimal(n) =~= p + seq![d]);
        lemma_scan_append(p, seq![d], m);
        let mp = ScanModel { phase: Phase::Number, num: (n / 10) as u64, big: false, ..m };
        assert(seq![d].drop_first() =~= Seq::<u8>::empty());
        assert(scan_from(seq![d], mp) == scan_from(Seq::<u8>::empty(), step(mp, d)));
        vstd::arithmetic::div_mod::lemma_fundamental_div_mod(n as int, 10);
        assert((n / 10) as int * 10 + (d - 48) == n);
    }
}

/// Writing and reading agree: the text written for a record with a nonzero
/// pid reads back as exactly that record.
pub proof fn lemma_render_round_trip(r: ServiceRecord)
    requires
        r.pid > 0,
    ensures
        record_of(rendered(r)) == Some(r),
{
    let w = started_by_text(r.started_by);
    let dp = decimal(r.pid as nat);
    let da = decimal(r.started_at as nat);
    let tail = seq![10u8, 125u8];
    let body = pid_open() + dp + by_open() + w + at_open() + da + tail;
    assert(close() =~= tail.push(10u8));
    assert(rendered(r) =~= body.push(10u8));
    // trimming drops only the final newline
    assert(rendered(r)[0] == 123u8);
    assert(trim_start(rendered(r)) == rendered(r));
    assert(body.push(10u8).drop_last() =~= body);
    assert(body.last() == 125u8);
    assert(trim_end(rendered(r)) == trim_end(body));
    assert(trim_end(body) == body);
    assert(trim(rendered(r)) == body);
    // the pieces, one after another
    let s0 = scan_start();
    lemma_scan_pid_open(s0);
    let m1 = scan_from(pid_open(), s0);
    lemma_scan_decimal(r.pid as nat, m1);
    let m2 = scan_from(dp, m1);
    lemma_scan_by_open(m2);
    let m3 = scan_from(by_open(), m2);
    match r.started_by {
        StartedBy::Supervisor => {
            lemma_scan_self_word(m3);
        },
        StartedBy::External => {
            lemma_scan_external_word(m3);
        },
    }
    let m4 = scan_from(w, m3);
    lemma_scan_at_open(m4);
    let m5 = scan_from(at_open(), m4);
    lemma_scan_decimal(r.started_at as nat, m5);
    let m6 = scan_from(da, m5);
    lemma_scan_close(m6);
    let m7 = scan_from(tail, m6);
    lemma_scan_append(pid_open(), dp, s0);
    lemma_scan_append(pid_open() + dp, by_open(), s0);
    lemma_scan_append(pid_open() + dp + by_open(), w, s0);
    lemma_scan_append(pid_open() + dp + by_open() + w, at_open(), s0);
    lemma_scan_append(pid_open() + dp + by_open() + w + at_open(), da, s0);
    lemma_scan_append(pid_open() + dp + by_open() + w + at_open() + da, tail, s0);
    assert(scan_from(body, s0) == m7);
    assert(Seq::<u8>::empty().push(112u8).push(105u8).push(100u8) =~= pid_key());
    assert(Seq::<u8>::empty().push(115u8).push(116u8).push(97u8).push(114u8).push(116u8).push(101u8).push(
        100u8,
    ).push(95u8).push(98u8).push(121u8) =~= started_by_key());
    assert(Seq::<u8>::empty().push(115u8).push(116u8).push(97u8).push(114u8).push(116u8).push(101u8).push(
        100u8,
    ).push(95u8).push(97u8).push(116u8) =~= started_at_key());
    assert(pid_key() != started_by_key());
    assert(pid_key() != started_at_key());
    assert(started_by_key()[9] != started_at_key()[9]);
    assert(m1.key == pid_key() && m1.fields == no_fields());
    assert(m2.key == pid_key() && m2.num == r.pid && !m2.big && m2.fields == no_fields());
    assert(m3.fields == Fields { pid: Some(r.pid), ..no_fields() });
    assert(m3.key == started_by_key());
    assert(m4.key == started_by_key() && m4.fields == m3.fields);
    assert(m4.buf =~= w);
    assert(started_by_of(w) == r.started_by);
    assert(m5.fields == Fields { pid: Some(r.pid), started_by: Some(r.started_by), ..no_fields() });
    assert(m5.key == started_at_key());
    assert(m6.fields == m5.fields && m6.num == r.started_at && !m6.big && m6.key == started_at_key());
    assert(m7.phase == Phase::Closed);
    assert(m7.fields == Fields {
        pid: Some(r.pid),
        started_by: Some(r.started_by),
        started_at: Some(r.started_at),
        conflict: false,
    });
    assert(record_of_scan(m7) == Some(r));
}

} // verus!
