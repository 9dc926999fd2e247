use vstd::prelude::*;

use crate::verdict::RunVerdict;

verus! {

pub const NEWLINE: u8 = 10;
pub const CARRIAGE_RETURN: u8 = 13;
pub const SPACE: u8 = 32;
pub const TAB: u8 = 9;
pub const COLON: u8 = 58;
pub const PLUS: u8 = 43;
pub const DOT: u8 = 46;
pub const DIGIT_ZERO: u8 = 48;
pub const DIGIT_NINE: u8 = 57;

/// Number of bytes of `s` before the first `b` (all of `s` when there is none).
pub open spec fn prefix_len(s: Seq<u8>, b: u8) -> nat
    decreases s.len(),
{
    if s.len() == 0 || s[0] == b {
        0
    } else {
        1 + prefix_len(s.drop_first(), b)
    }
}

proof fn lemma_prefix_len(s: Seq<u8>, b: u8, k: int)
    requires
        0 <= k <= s.len(),
        forall|i: int| 0 <= i < k ==> s[i] != b,
        k == s.len() || s[k] == b,
    ensures
        prefix_len(s, b) == k,
    decreases k,
{
    if k > 0 {
        lemma_prefix_len(s.drop_first(), b, k - 1);
    }
}

/// Finds the first `b` in `s[lo..hi]`; returns `hi` when there is none.
fn find_byte(s: &[u8], lo: usize, hi: usize, b: u8) -> (r: usize)
    requires
        lo <= hi <= s@.len(),
    ensures
        lo <= r <= hi,
        r - lo == prefix_len(s@.subrange(lo as int, hi as int), b),
        r < hi ==> s@[r as int] == b,
{
    let mut i = lo;
    while i < hi && s[i] != b
        invariant
            lo <= i <= hi,
            hi <= s@.len(),
            forall|k: int| lo <= k < i ==> s@[k] != b,
        decreases hi - i,
    {
        i = i + 1;
    }
    proof {
        lemma_prefix_len(s@.subrange(lo as int, hi as int), b, i - lo);
    }
    i
}

pub open spec fn is_digit(b: u8) -> bool {
    DIGIT_ZERO <= b <= DIGIT_NINE
}

pub open spec fn all_digits(s: Seq<u8>) -> bool {
    forall|i: int| 0 <= i < s.len() ==> is_digit(#[trigger] s[i])
}

/// The number that a string of decimal digits writes.
pub open spec fn digits_value(s: Seq<u8>) -> nat
    decreases s.len(),
{
    if s.len() == 0 {
        0
    } else {
        digits_value(s.drop_last()) * 10 + (s.last() - DIGIT_ZERO) as nat
    }
}

/// `s` without one leading `+`, if it has one.
pub open spec fn unsigned_body(s: Seq<u8>) -> Seq<u8> {
    if s.len() > 0 && s[0] == PLUS {
        s.drop_first()
    } else {
        s
    }
}

/// The value of an unsigned decimal integer, as `u64::from_str` reads it:
/// an optional `+`, then one or more digits, the value fitting in a `u64`.
pub open spec fn parse_u64_spec(s: Seq<u8>) -> Option<u64> {
    let d = unsigned_body(s);
    if d.len() > 0 && all_digits(d) && digits_value(d) <= u64::MAX {
        Some(digits_value(d) as u64)
    } else {
        None
    }
}

/// Reads the digits `s[lo..hi]`; `None` on an empty range, another byte, or overflow.
fn parse_digits(s: &[u8], lo: usize, hi: usize) -> (r: Option<u64>)
    requires
        lo <= hi <= s@.len(),
    ensures
        ({
            let d = s@.subrange(lo as int, hi as int);
            r == if all_digits(d) && digits_value(d) <= u64::MAX {
                Some(digits_value(d) as u64)
            } else {
                None::<u64>
            }
        }),
{
    let ghost d = s@.subrange(lo as int, hi as int);
    let mut v: u64 = 0;
    let mut i = lo;
    while i < hi
        invariant
            lo <= i <= hi,
            hi <= s@.len(),
            d == s@.subrange(lo as int, hi as int),
            all_digits(s@.subrange(lo as int, i as int)),
            v == digits_value(s@.subrange(lo as int, i as int)),
        decreases hi - i,
    {
        let c = s[i];
        assert(s@.subrange(lo as int, i + 1).drop_last() =~= s@.subrange(lo as int, i as int));
        if c < DIGIT_ZERO || c > DIGIT_NINE {
            assert(d[i - lo] == c);
            assert(!is_digit(d[i - lo]));
            return None;
        }
        let dv = (c - DIGIT_ZERO) as u64;
        if v > (u64::MAX - dv) / 10 {
            proof {
                let p = s@.subrange(lo as int, i + 1);
                assert(p.drop_last() =~= s@.subrange(lo as int, i as int));
                assert(digits_value(p) == v * 10 + dv);
                assert(v * 10 + dv > u64::MAX) by (nonlinear_arith)
                    requires
                        v > (u64::MAX - dv) / 10,
                        dv <= 9,
                ;
                if all_digits(d) {
                    lemma_digits_value_prefix(d, i + 1 - lo, hi - lo);
                    assert(d.subrange(0, i + 1 - lo) =~= p);
                }
            }
            return None;
        }
        v = v * 10 + dv;
        i = i + 1;
        assert(all_digits(s@.subrange(lo as int, i as int)));
    }
    assert(s@.subrange(lo as int, i as int) =~= d);
    Some(v)
}

/// A longer string of digits writes a number at least as large.
proof fn lemma_digits_value_prefix(d: Seq<u8>, k: int, n: int)
    requires
        0 <= k <= n == d.len(),
        all_digits(d),
    ensures
        digits_value(d.subrange(0, k)) <= digits_value(d),
    decreases n - k,
{
    if k < n {
        lemma_digits_value_prefix(d, k + 1, n);
        assert(d.subrange(0, k + 1).drop_last() =~= d.subrange(0, k));
    } else {
        assert(d.subrange(0, k) =~= d);
    }
}


/// Whether every byte of `s[lo..hi]` is a digit.
fn all_digits_in(s: &[u8], lo: usize, hi: usize) -> (r: bool)
    requires
        lo <= hi <= s@.len(),
    ensures
        r == all_digits(s@.subrange(lo as int, hi as int)),
{
    let mut i = lo;
    while i < hi
        invariant
            lo <= i <= hi,
            hi <= s@.len(),
            all_digits(s@.subrange(lo as int, i as int)),
        decreases hi - i,
    {
        if s[i] < DIGIT_ZERO || s[i] > DIGIT_NINE {
            assert(!is_digit(s@.subrange(lo as int, hi as int)[i - lo]));
            return false;
        }
        i = i + 1;
        assert(all_digits(s@.subrange(lo as int, i as int)));
    }
    assert(s@.subrange(lo as int, i as int) =~= s@.subrange(lo as int, hi as int));
    true
}

/// Index where the unsigned body of `s[lo..hi]` starts: past one leading `+`.
fn body_start(s: &[u8], lo: usize, hi: usize) -> (r: usize)
    requires
        lo <= hi <= s@.len(),
    ensures
        lo <= r <= hi,
        s@.subrange(r as int, hi as int) == unsigned_body(s@.subrange(lo as int, hi as int)),
{
    if lo < hi && s[lo] == PLUS {
        assert(s@.subrange(lo + 1, hi as int) =~= s@.subrange(lo as int, hi as int).drop_first());
        lo + 1
    } else {
        lo
    }
}

/// Reads an unsigned decimal integer from `s[lo..hi]`.
fn parse_u64(s: &[u8], lo: usize, hi: usize) -> (r: Option<u64>)
    requires
        lo <= hi <= s@.len(),
    ensures
        r == parse_u64_spec(s@.subrange(lo as int, hi as int)),
{
    let b = body_start(s, lo, hi);
    if b == hi {
        return None;
    }
    parse_digits(s, b, hi)
}

proof fn lemma_digits_value_small(d: Seq<u8>)
    requires
        all_digits(d),
        d.len() <= 3,
    ensures
        digits_value(d) < 1000,
        d.len() <= 2 ==> digits_value(d) < 100,
        d.len() <= 1 ==> digits_value(d) < 10,
    decreases d.len(),
{
    if d.len() > 0 {
        assert(is_digit(d[d.len() - 1]));
        assert(all_digits(d.drop_last()));
        lemma_digits_value_small(d.drop_last());
    }
}

/// Milliseconds in the first three digits after the decimal point.
pub open spec fn fraction_millis(frac: Seq<u8>) -> nat {
    if frac.len() == 0 {
        0
    } else if frac.len() == 1 {
        digits_value(frac) * 100
    } else if frac.len() == 2 {
        digits_value(frac) * 10
    } else {
        digits_value(frac.subrange(0, 3))
    }
}

/// Milliseconds in a number of seconds written in decimal (`1`, `0.25`,
/// `+3.`, `.5`), cut down to a whole millisecond; `None` where the text is
/// not of that form or the value does not fit in a `u64`.
pub open spec fn parse_millis_spec(s: Seq<u8>) -> Option<u64> {
    let d = unsigned_body(s);
    let p = prefix_len(d, DOT);
    let whole = d.subrange(0, p as int);
    let frac = if p < d.len() {
        d.subrange(p as int + 1, d.len() as int)
    } else {
        Seq::<u8>::empty()
    };
    let ms = digits_value(whole) * 1000 + fraction_millis(frac);
    if all_digits(whole) && all_digits(frac) && whole.len() + frac.len() > 0 && ms <= u64::MAX {
        Some(ms as u64)
    } else {
        None
    }
}

/// Reads a number of seconds from `s[lo..hi]` as whole milliseconds.
fn parse_millis(s: &[u8], lo: usize, hi: usize) -> (r: Option<u64>)
    requires
        lo <= hi <= s@.len(),
    ensures
        r == parse_millis_spec(s@.subrange(lo as int, hi as int)),
{
    let ghost d = s@.subrange(lo as int, hi as int);
    let b = body_start(s, lo, hi);
    let ghost body = unsigned_body(d);
    let dot = find_byte(s, b, hi, DOT);
    let ghost whole = body.subrange(0, prefix_len(body, DOT) as int);
    assert(whole =~= s@.subrange(b as int, dot as int));
    let frac_lo = if dot < hi {
        dot + 1
    } else {
        hi
    };
    let ghost frac = if prefix_len(body, DOT) < body.len() {
        body.subrange(prefix_len(body, DOT) as int + 1, body.len() as int)
    } else {
        Seq::<u8>::empty()
    };
    assert(frac =~= s@.subrange(frac_lo as int, hi as int));
    if dot == b && frac_lo == hi {
        return None;
    }
    let whole_value = match parse_digits(s, b, dot) {
        Some(v) => v,
        None => {
            return None;
        },
    };
    if !all_digits_in(s, frac_lo, hi) {
        return None;
    }
    let frac_hi = if hi - frac_lo > 3 {
        frac_lo + 3
    } else {
        hi
    };
    proof {
        if frac.len() >= 3 {
            assert(frac.subrange(0, 3) =~= s@.subrange(frac_lo as int, frac_hi as int));
            assert(all_digits(frac.subrange(0, 3)));
        }
    }
    let f = match parse_digits(s, frac_lo, frac_hi) {
        Some(v) => v,
        None => {
            proof {
                lemma_digits_value_small(s@.subrange(frac_lo as int, frac_hi as int));
            }
            return None;
        },
    };
    let n = frac_hi - frac_lo;
    proof {
        lemma_digits_value_small(s@.subrange(frac_lo as int, frac_hi as int));
    }
    let frac_ms: u64 = if n == 0 {
        0
    } else if n == 1 {
        f * 100
    } else if n == 2 {
        f * 10
    } else {
        f
    };
    if whole_value > (u64::MAX - frac_ms) / 1000 {
        assert(whole_value * 1000 + frac_ms > u64::MAX) by (nonlinear_arith)
            requires
                whole_value > (u64::MAX - frac_ms) / 1000,
                frac_ms <= u64::MAX,
        ;
        return None;
    }
    Some(whole_value * 1000 + frac_ms)
}


/// What the sandbox reported of one execution.
#[derive(Clone, Copy, Debug, PartialEq, Eq, Structural)]
pub struct IsolateResult {
    pub status: RunVerdict,
    pub time_usage_ms: u64,
    pub memory_usage: u64,
}

/// The fields of a meta file as read so far, before the memory check.
#[derive(Clone, Copy, Debug, PartialEq, Eq, Structural)]
pub struct MetaReport {
    pub status: RunVerdict,
    pub time_ms: u64,
    pub memory_kb: u64,
    pub oom_killed: bool,
}

/// A `time` or `cg-mem` value in the meta file is not a number.
#[derive(Clone, Copy, Debug, PartialEq, Eq, Structural)]
pub struct MetaError;

pub open spec fn initial_report() -> MetaReport {
    MetaReport { status: RunVerdict::VerdictOK, time_ms: 0, memory_kb: 0, oom_killed: false }
}

pub open spec fn key_status() -> Seq<u8> {
    seq![115u8, 116, 97, 116, 117, 115]
}

pub open spec fn key_time() -> Seq<u8> {
    seq![116u8, 105, 109, 101]
}

pub open spec fn key_cg_mem() -> Seq<u8> {
    seq![99u8, 103, 45, 109, 101, 109]
}

pub open spec fn key_cg_oom_killed() -> Seq<u8> {
    seq![99u8, 103, 45, 111, 111, 109, 45, 107, 105, 108, 108, 101, 100]
}

/// The verdict that a `status` value stands for: `RE`, `SG`, `TO`, `XX`, and
/// any other value as a signal.
pub open spec fn status_verdict(v: Seq<u8>) -> RunVerdict {
    if v == seq![82u8, 69] {
        RunVerdict::VerdictRE
    } else if v == seq![83u8, 71] {
        RunVerdict::VerdictSG
    } else if v == seq![84u8, 79] {
        RunVerdict::VerdictTLE
    } else if v == seq![88u8, 88] {
        RunVerdict::VerdictXX
    } else {
        RunVerdict::VerdictSG
    }
}

/// ASCII white space: space, and tab through carriage return.
pub open spec fn is_space(b: u8) -> bool {
    b == SPACE || (TAB <= b <= CARRIAGE_RETURN)
}

pub open spec fn trim_front(s: Seq<u8>) -> Seq<u8>
    decreases s.len(),
{
    if s.len() > 0 && is_space(s[0]) {
        trim_front(s.drop_first())
    } else {
        s
    }
}

pub open spec fn trim_back(s: Seq<u8>) -> Seq<u8>
    decreases s.len(),
{
    if s.len() > 0 && is_space(s.last()) {
        trim_back(s.drop_last())
    } else {
        s
    }
}

/// `s` without white space at either end.
pub open spec fn trim(s: Seq<u8>) -> Seq<u8> {
    trim_back(trim_front(s))
}

/// Applies one `key:value` line to the report. A line without `:` and an
/// unknown key change nothing; the value ends at a second `:`, if any.
pub open spec fn apply_line(st: MetaReport, line: Seq<u8>) -> Option<MetaReport> {
    let c = prefix_len(line, COLON);
    if c >= line.len() {
        Some(st)
    } else {
        let key = line.subrange(0, c as int);
        let after = line.subrange(c as int + 1, line.len() as int);
        let value = after.subrange(0, prefix_len(after, COLON) as int);
        if key == key_status() {
            Some(MetaReport { status: status_verdict(value), ..st })
        } else if key == key_time() {
            match parse_millis_spec(value) {
                Some(t) => Some(MetaReport { time_ms: t, ..st }),
                None => None,
            }
        } else if key == key_cg_mem() {
            match parse_u64_spec(value) {
                Some(m) => Some(MetaReport { memory_kb: m, ..st }),
                None => None,
            }
        } else if key == key_cg_oom_killed() {
            Some(MetaReport { oom_killed: trim(value) == seq![49u8], ..st })
        } else {
            Some(st)
        }
    }
}

/// The first line of `s`, without its line ending (`\n` or `\r\n`).
pub open spec fn first_line(s: Seq<u8>) -> Seq<u8> {
    let k = prefix_len(s, NEWLINE);
    if k < s.len() && k > 0 && s[k - 1] == CARRIAGE_RETURN {
        s.subrange(0, k - 1)
    } else {
        s.subrange(0, k as int)
    }
}

/// What follows the first line of `s` and its line ending.
pub open spec fn after_first_line(s: Seq<u8>) -> Seq<u8> {
    let k = prefix_len(s, NEWLINE);
    if k < s.len() {
        s.subrange(k as int + 1, s.len() as int)
    } else {
        Seq::<u8>::empty()
    }
}

/// Applies the lines of `s` in order; `None` as soon as one has a bad value.
pub open spec fn scan_meta(s: Seq<u8>, st: MetaReport) -> Option<MetaReport>
    decreases s.len(),
{
    if s.len() == 0 {
        Some(st)
    } else {
        match apply_line(st, first_line(s)) {
            None => None,
            Some(next) => scan_meta(after_first_line(s), next),
        }
    }
}

/// The final result: the run counts as out of memory when the sandbox says it
/// killed it for that, or when it used the whole limit.
pub open spec fn finish(st: MetaReport, memory_limit_kb: u64) -> IsolateResult {
    IsolateResult {
        status: if st.oom_killed || st.memory_kb >= memory_limit_kb {
            RunVerdict::VerdictMLE
        } else {
            st.status
        },
        time_usage_ms: st.time_ms,
        memory_usage: st.memory_kb,
    }
}


/// Whether `s[lo..hi]` is exactly `pat`.
pub(crate) fn range_eq(s: &[u8], lo: usize, hi: usize, pat: &Vec<u8>) -> (r: bool)
    requires
        lo <= hi <= s@.len(),
    ensures
        r == (s@.subrange(lo as int, hi as int) == pat@),
{
    if hi - lo != pat.len() {
        return false;
    }
    let mut i: usize = 0;
    while i < pat.len()
        invariant
            lo <= hi <= s@.len(),
            hi - lo == pat@.len(),
            0 <= i <= pat@.len(),
            forall|k: int| 0 <= k < i ==> s@[lo + k] == pat@[k],
        decreases pat@.len() - i,
    {
        if s[lo + i] != pat[i] {
            assert(s@.subrange(lo as int, hi as int)[i as int] != pat@[i as int]);
            return false;
        }
        i = i + 1;
    }
    assert(s@.subrange(lo as int, hi as int) =~= pat@);
    true
}

proof fn lemma_trim_front_step(s: Seq<u8>, lo: int, i: int, hi: int)
    requires
        0 <= lo <= i < hi <= s.len(),
        trim_front(s.subrange(lo, hi)) == trim_front(s.subrange(i, hi)),
        is_space(s[i]),
    ensures
        trim_front(s.subrange(lo, hi)) == trim_front(s.subrange(i + 1, hi)),
{
    assert(s.subrange(i, hi).drop_first() =~= s.subrange(i + 1, hi));
}

proof fn lemma_trim_back_step(s: Seq<u8>, a: int, j: int, hi: int)
    requires
        0 <= a < j <= hi <= s.len(),
        trim_back(s.subrange(a, hi)) == trim_back(s.subrange(a, j)),
        is_space(s[j - 1]),
    ensures
        trim_back(s.subrange(a, hi)) == trim_back(s.subrange(a, j - 1)),
{
    assert(s.subrange(a, j).drop_last() =~= s.subrange(a, j - 1));
}

/// The bounds of `s[lo..hi]` with white space cut from both ends.
fn trim_range(s: &[u8], lo: usize, hi: usize) -> (r: (usize, usize))
    requires
        lo <= hi <= s@.len(),
    ensures
        r.0 <= r.1 <= s@.len(),
        s@.subrange(r.0 as int, r.1 as int) == trim(s@.subrange(lo as int, hi as int)),
{
    let mut i = lo;
    while i < hi && (s[i] == SPACE || (TAB <= s[i] && s[i] <= CARRIAGE_RETURN))
        invariant
            lo <= i <= hi <= s@.len(),
            trim_front(s@.subrange(lo as int, hi as int)) == trim_front(s@.subrange(i as int, hi as int)),
        decreases hi - i,
    {
        proof {
            lemma_trim_front_step(s@, lo as int, i as int, hi as int);
        }
        i = i + 1;
    }
    let ghost front = s@.subrange(i as int, hi as int);
    assert(trim_front(front) == front);
    let mut j = hi;
    while j > i && (s[j - 1] == SPACE || (TAB <= s[j - 1] && s[j - 1] <= CARRIAGE_RETURN))
        invariant
            i <= j <= hi <= s@.len(),
            trim_back(s@.subrange(i as int, hi as int)) == trim_back(s@.subrange(i as int, j as int)),
        decreases j - i,
    {
        proof {
            lemma_trim_back_step(s@, i as int, j as int, hi as int);
        }
        j = j - 1;
    }
    let ghost back = s@.subrange(i as int, j as int);
    assert(trim_back(back) == back);
    assert(trim_front(s@.subrange(lo as int, hi as int)) == front);
    assert(trim(s@.subrange(lo as int, hi as int)) == trim_back(front));
    assert(trim_back(front) == trim_back(back));
    assert(trim(s@.subrange(lo as int, hi as int)) == back);
    (i, j)
}

/// Applies the line `s[lo..hi]` to the report.
fn apply_meta_line(s: &[u8], lo: usize, hi: usize, st: MetaReport) -> (r: Option<MetaReport>)
    requires
        lo <= hi <= s@.len(),
    ensures
        r == apply_line(st, s@.subrange(lo as int, hi as int)),
{
    let ghost line = s@.subrange(lo as int, hi as int);
    let c = find_byte(s, lo, hi, COLON);
    if c == hi {
        return Some(st);
    }
    let vend = find_byte(s, c + 1, hi, COLON);
    let ghost after = line.subrange(c - lo + 1, line.len() as int);
    assert(after =~= s@.subrange(c + 1, hi as int));
    assert(line.subrange(0, c - lo) =~= s@.subrange(lo as int, c as int));
    assert(after.subrange(0, vend - (c + 1)) =~= s@.subrange(c + 1, vend as int));
    let status_key = vec![115u8, 116, 97, 116, 117, 115];
    let time_key = vec![116u8, 105, 109, 101];
    let mem_key = vec![99u8, 103, 45, 109, 101, 109];
    let oom_key = vec![99u8, 103, 45, 111, 111, 109, 45, 107, 105, 108, 108, 101, 100];
    assert(status_key@ == key_status());
    assert(time_key@ == key_time());
    assert(mem_key@ == key_cg_mem());
    assert(oom_key@ == key_cg_oom_killed());
    if range_eq(s, lo, c, &status_key) {
        let status = status_of_value(s, c + 1, vend);
        Some(MetaReport { status, ..st })
    } else if range_eq(s, lo, c, &time_key) {
        match parse_millis(s, c + 1, vend) {
            Some(t) => Some(MetaReport { time_ms: t, ..st }),
            None => None,
        }
    } else if range_eq(s, lo, c, &mem_key) {
        match parse_u64(s, c + 1, vend) {
            Some(m) => Some(MetaReport { memory_kb: m, ..st }),
            None => None,
        }
    } else if range_eq(s, lo, c, &oom_key) {
        let (a, b) = trim_range(s, c + 1, vend);
        let one = vec![49u8];
        assert(one@ == seq![49u8]);
        let killed = range_eq(s, a, b, &one);
        Some(MetaReport { oom_killed: killed, ..st })
    } else {
        Some(st)
    }
}

/// The verdict that the `status` value `s[lo..hi]` stands for.
fn status_of_value(s: &[u8], lo: usize, hi: usize) -> (r: RunVerdict)
    requires
        lo <= hi <= s@.len(),
    ensures
        r == status_verdict(s@.subrange(lo as int, hi as int)),
{
    let re = vec![82u8, 69];
    let sg = vec![83u8, 71];
    let to = vec![84u8, 79];
    let xx = vec![88u8, 88];
    assert(re@ == seq![82u8, 69]);
    assert(sg@ == seq![83u8, 71]);
    assert(to@ == seq![84u8, 79]);
    assert(xx@ == seq![88u8, 88]);
    if range_eq(s, lo, hi, &re) {
        RunVerdict::VerdictRE
    } else if range_eq(s, lo, hi, &sg) {
        RunVerdict::VerdictSG
    } else if range_eq(s, lo, hi, &to) {
        RunVerdict::VerdictTLE
    } else if range_eq(s, lo, hi, &xx) {
        RunVerdict::VerdictXX
    } else {
        RunVerdict::VerdictSG
    }
}

/// Reads a meta file written by the sandbox. Each line is `key:value`; the
/// keys `status`, `time` (seconds), `cg-mem` (kilobytes) and `cg-oom-killed`
/// are read and others ignored. The run counts as out of memory when the
/// sandbox killed it for that or when it used at least `memory_limit_kb`.
pub fn parse_meta(meta: &[u8], memory_limit_kb: u64) -> (r: Result<IsolateResult, MetaError>)
    ensures
        match scan_meta(meta@, initial_report()) {
            Some(st) => r == Ok::<IsolateResult, MetaError>(finish(st, memory_limit_kb)),
            None => r.is_err(),
        },
        r is Ok && (r->Ok_0.memory_usage >= memory_limit_kb) ==> r->Ok_0.status
            == RunVerdict::VerdictMLE,
{
    let n = meta.len();
    let mut st = MetaReport {
        status: RunVerdict::VerdictOK,
        time_ms: 0,
        memory_kb: 0,
        oom_killed: false,
    };
    let mut p: usize = 0;
    assert(meta@.subrange(0, n as int) =~= meta@);
    while p < n
        invariant
            n == meta@.len(),
            0 <= p <= n,
            scan_meta(meta@, initial_report()) == scan_meta(meta@.subrange(p as int, n as int), st),
        decreases n - p,
    {
        let ghost rest = meta@.subrange(p as int, n as int);
        let e = find_byte(meta, p, n, NEWLINE);
        let line_hi = if e < n && e > p && meta[e - 1] == CARRIAGE_RETURN {
            e - 1
        } else {
            e
        };
        assert(first_line(rest) =~= meta@.subrange(p as int, line_hi as int));
        let next = if e < n {
            e + 1
        } else {
            n
        };
        assert(after_first_line(rest) =~= meta@.subrange(next as int, n as int));
        match apply_meta_line(meta, p, line_hi, st) {
            Some(s2) => {
                st = s2;
            },
            None => {
                return Err(MetaError);
            },
        }
        p = next;
    }
    assert(meta@.subrange(p as int, n as int).len() == 0);
    let status = if st.oom_killed || st.memory_kb >= memory_limit_kb {
        RunVerdict::VerdictMLE
    } else {
        st.status
    };
    Ok(IsolateResult { status, time_usage_ms: st.time_ms, memory_usage: st.memory_kb })
}


proof fn lemma_prefix_len_append(s: Seq<u8>, t: Seq<u8>, b: u8)
    requires
        prefix_len(s, b) < s.len(),
    ensures
        prefix_len(s + t, b) == prefix_len(s, b),
    decreases s.len(),
{
    if s[0] != b {
        assert((s + t).drop_first() =~= s.drop_first() + t);
        lemma_prefix_len_append(s.drop_first(), t, b);
    }
}

proof fn lemma_prefix_len_at_most(s: Seq<u8>, b: u8, i: int)
    requires
        0 <= i < s.len(),
        s[i] == b,
    ensures
        prefix_len(s, b) <= i,
    decreases i,
{
    if i > 0 && s[0] != b {
        lemma_prefix_len_at_most(s.drop_first(), b, i - 1);
    }
}

/// Complete lines are read one after another: reading `s + t`, where `s`
/// ends a line, is reading `s` and then `t`.
pub proof fn lemma_scan_append(s: Seq<u8>, t: Seq<u8>, st: MetaReport)
    requires
        s.len() == 0 || s.last() == NEWLINE,
    ensures
        scan_meta(s + t, st) == match scan_meta(s, st) {
            Some(x) => scan_meta(t, x),
            None => None,
        },
    decreases s.len(),
{
    if s.len() == 0 {
        assert(s + t =~= t);
    } else {
        lemma_prefix_len_at_most(s, NEWLINE, s.len() - 1);
        lemma_prefix_len_append(s, t, NEWLINE);
        let k = prefix_len(s, NEWLINE);
        assert(first_line(s + t) =~= first_line(s));
        assert(after_first_line(s + t) =~= after_first_line(s) + t);
        match apply_line(st, first_line(s)) {
            Some(x) => {
                lemma_scan_append(after_first_line(s), t, x);
            },
            None => {},
        }
    }
}

/// The line `cg-oom-killed:1` and its line ending.
pub open spec fn oom_killed_line() -> Seq<u8> {
    seq![99u8, 103, 45, 111, 111, 109, 45, 107, 105, 108, 108, 101, 100, 58, 49, 10]
}

proof fn lemma_scan_oom_killed_line(x: MetaReport)
    ensures
        scan_meta(oom_killed_line(), x) == Some(MetaReport { oom_killed: true, ..x }),
{
    let l = oom_killed_line();
    lemma_prefix_len(l, NEWLINE, 15);
    let line = first_line(l);
    assert(line =~= l.subrange(0, 15));
    lemma_prefix_len(line, COLON, 13);
    assert(line.subrange(0, 13) =~= key_cg_oom_killed());
    let after = line.subrange(14, 15);
    lemma_prefix_len(after, COLON, 1);
    assert(after.subrange(0, 1) =~= seq![49u8]);
    assert(trim_front(seq![49u8]) =~= seq![49u8]);
    assert(trim_back(seq![49u8]) =~= seq![49u8]);
    assert(apply_line(x, line) == Some(MetaReport { oom_killed: true, ..x }));
    assert(after_first_line(l) =~= Seq::<u8>::empty());
    let y = MetaReport { oom_killed: true, ..x };
    assert(scan_meta(Seq::<u8>::empty(), y) == Some(y));
    assert(scan_meta(l, x) == scan_meta(after_first_line(l), y));
}

/// Out of memory overrides whatever status the sandbox gave: once it has
/// said `cg-oom-killed:1` at the end of a meta file that reads without error,
/// the result is MLE.
pub proof fn law_oom_killed_means_mle(meta: Seq<u8>, memory_limit_kb: u64)
    requires
        meta.len() == 0 || meta.last() == NEWLINE,
        scan_meta(meta, initial_report()) is Some,
    ensures
        scan_meta(meta + oom_killed_line(), initial_report()) is Some,
        finish(
            scan_meta(meta + oom_killed_line(), initial_report())->Some_0,
            memory_limit_kb,
        ).status == RunVerdict::VerdictMLE,
{
    lemma_scan_append(meta, oom_killed_line(), initial_report());
    lemma_scan_oom_killed_line(scan_meta(meta, initial_report())->Some_0);
}

} // verus!
