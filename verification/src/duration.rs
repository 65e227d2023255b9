use vstd::prelude::*;
use vstd::string::StrSliceExecFns;

verus! {

/// The value could not be read as a duration.
#[derive(Debug, Clone, Copy, PartialEq, Eq, Structural)]
pub struct ParseDurationError;

impl ParseDurationError {
    /// A short human-readable description of the error.
    pub fn message(&self) -> (r: &'static str)
        ensures
            r@ == "error parsing duration"@,
    {
        "error parsing duration"
    }
}

/// A span of time, counted in nanoseconds. Wide enough that no supported
/// unit can overflow it.
#[derive(Debug, Clone, Copy, PartialEq, Eq, Structural)]
pub struct TimeSpan {
    pub nanos: u128,
}

/// The ASCII whitespace characters stripped around the number and the unit.
pub open spec fn is_space(c: char) -> bool {
    c == ' ' || c == '\t' || c == '\n' || c == '\r' || c == '\u{000C}'
}

/// An ASCII decimal digit.
pub open spec fn is_digit(c: char) -> bool {
    '0' <= c && c <= '9'
}

/// The numeric value of an ASCII decimal digit.
pub open spec fn digit_val(c: char) -> nat {
    (c as nat - '0' as nat) as nat
}

/// `p` without its leading whitespace.
pub open spec fn trim_front(p: Seq<char>) -> Seq<char>
    decreases p.len(),
{
    if p.len() > 0 && is_space(p[0]) {
        trim_front(p.skip(1))
    } else {
        p
    }
}

/// `p` without its trailing whitespace.
pub open spec fn trim_back(p: Seq<char>) -> Seq<char>
    decreases p.len(),
{
    if p.len() > 0 && is_space(p[p.len() - 1]) {
        trim_back(p.drop_last())
    } else {
        p
    }
}

/// `p` without leading or trailing whitespace.
pub open spec fn trim_spec(p: Seq<char>) -> Seq<char> {
    trim_back(trim_front(p))
}

/// How many decimal digits `p` starts with.
pub open spec fn digit_prefix_len(p: Seq<char>) -> nat
    decreases p.len(),
{
    if p.len() > 0 && is_digit(p[0]) {
        (1 + digit_prefix_len(p.skip(1))) as nat
    } else {
        0
    }
}

/// The decimal value of the digits of `p`, folded onto `acc`.
pub open spec fn digits_value_acc(p: Seq<char>, acc: nat) -> nat
    decreases p.len(),
{
    if p.len() == 0 {
        acc
    } else {
        digits_value_acc(p.skip(1), acc * 10 + digit_val(p[0]))
    }
}

/// The decimal value of the digits of `p`.
pub open spec fn digits_value(p: Seq<char>) -> nat {
    digits_value_acc(p, 0)
}

/// The nanoseconds denoted by one unit token, if it is a supported unit.
pub open spec fn unit_nanos(u: Seq<char>) -> Option<nat> {
    if u == seq!['n', 's'] {
        Some(1nat)
    } else if u == seq!['\u{00B5}', 's'] {
        Some(1000nat)
    } else if u == seq!['m', 's'] {
        Some(1000000nat)
    } else if u == seq!['s'] {
        Some(1000000000nat)
    } else if u == seq!['m', 'i', 'n'] {
        Some(60000000000nat)
    } else if u == seq!['h'] {
        Some(3600000000000nat)
    } else {
        None
    }
}

/// What a human-readable duration string denotes: a run of decimal digits,
/// then a unit token, with whitespace tolerated around both. The number
/// must fit a 64-bit count of its unit.
pub open spec fn parse_duration_spec(p: Seq<char>) -> Option<nat> {
    let t = trim_spec(p);
    let k = digit_prefix_len(t);
    if k == 0 {
        None
    } else {
        let num = digits_value(t.take(k as int));
        if num > u64::MAX {
            None
        } else {
            match unit_nanos(trim_spec(t.skip(k as int))) {
                Some(m) => Some(num * m),
                None => None,
            }
        }
    }
}

/// Folding more digits onto an accumulator never shrinks it.
proof fn lemma_digits_value_acc_ge(p: Seq<char>, acc: nat)
    ensures
        digits_value_acc(p, acc) >= acc,
    decreases p.len(),
{
    if p.len() > 0 {
        let acc2 = acc * 10 + digit_val(p[0]);
        assert(acc * 10 + digit_val(p[0]) >= acc) by (nonlinear_arith);
        lemma_digits_value_acc_ge(p.skip(1), acc2);
    }
}

/// The index of the first non-space character at or after `from`, looking
/// no further than `limit`.
fn scan_spaces(value: &str, from: usize, limit: usize) -> (r: usize)
    requires
        from <= limit <= value@.len(),
    ensures
        from <= r <= limit,
        forall|j: int| from <= j < r ==> is_space(value@[j]),
        r < limit ==> !is_space(value@[r as int]),
    decreases limit - from,
{
    if from == limit {
        return from;
    }
    let c = value.get_char(from);
    if c == ' ' || c == '\t' || c == '\n' || c == '\r' || c == '\u{000C}' {
        scan_spaces(value, from + 1, limit)
    } else {
        from
    }
}

/// Trimming from the front only discards leading spaces.
proof fn lemma_trim_front_skip(p: Seq<char>, r: int)
    requires
        0 <= r <= p.len(),
        forall|j: int| 0 <= j < r ==> is_space(p[j]),
        r < p.len() ==> !is_space(p[r]),
    ensures
        trim_front(p) =~= p.skip(r),
    decreases r,
{
    if r == 0 {
        if p.len() > 0 {
            assert(!is_space(p[0]));
        }
        assert(p.skip(0) =~= p);
    } else {
        assert(is_space(p[0]));
        assert(trim_front(p) == trim_front(p.skip(1)));
        lemma_trim_front_skip(p.skip(1), r - 1);
        assert(p.skip(1).skip(r - 1) =~= p.skip(r));
    }
}

/// Trimming from the back only discards trailing spaces.
proof fn lemma_trim_back_take(p: Seq<char>, r: int)
    requires
        0 <= r <= p.len(),
        forall|j: int| r <= j < p.len() ==> is_space(p[j]),
        r > 0 ==> !is_space(p[r - 1]),
    ensures
        trim_back(p) =~= p.take(r),
    decreases p.len() - r,
{
    if r == p.len() {
        if p.len() > 0 {
            assert(!is_space(p[p.len() - 1]));
        }
        assert(p.take(r) =~= p);
    } else {
        assert(is_space(p[p.len() - 1]));
        assert(trim_back(p) == trim_back(p.drop_last()));
        lemma_trim_back_take(p.drop_last(), r);
        assert(p.drop_last().take(r) =~= p.take(r));
    }
}

/// Parses a human-readable duration: a positive decimal number followed by
/// a time unit (`ns`, `µs`, `ms`, `s`, `min`, or `h`), with whitespace
/// tolerated around both. Returns an error exactly when the text does not
/// have that shape or the number overflows a 64-bit count.
pub fn parse_duration(value: &str) -> (r: Result<TimeSpan, ParseDurationError>)
    ensures
        match r {
            Ok(ts) => parse_duration_spec(value@) == Some(ts.nanos as nat),
            Err(_) => parse_duration_spec(value@) is None,
        },
{
    let ghost p = value@;
    let n = value.unicode_len();
    let start = scan_spaces(value, 0, n);
    // find the end of the trailing whitespace run
    let mut end: usize = n;
    while end > start
        invariant_except_break
            p == value@,
            start <= end <= n,
            n == p.len(),
            forall|j: int| end <= j < n ==> is_space(p[j]),
        ensures
            p == value@,
            start <= end <= n,
            n == p.len(),
            forall|j: int| end <= j < n ==> is_space(p[j]),
            end > start ==> !is_space(p[end - 1]),
        decreases end,
    {
        let c = value.get_char(end - 1);
        if !(c == ' ' || c == '\t' || c == '\n' || c == '\r' || c == '\u{000C}') {
            break;
        }
        end = end - 1;
    }
    let ghost t = trim_spec(p);
    proof {
        lemma_trim_front_skip(p, start as int);
        if end == start {
            lemma_trim_back_take(p.skip(start as int), 0);
        } else {
            lemma_trim_back_take(p.skip(start as int), end - start);
        }
        assert(t =~= p.subrange(start as int, end as int));
    }
    // scan the digit run
    let mut k: usize = start;
    while k < end
        invariant_except_break
            p == value@,
            start <= k <= end <= n,
            n == p.len(),
            forall|j: int| start <= j < k ==> is_digit(p[j]),
        ensures
            p == value@,
            start <= k <= end <= n,
            n == p.len(),
            forall|j: int| start <= j < k ==> is_digit(p[j]),
            k < end ==> !is_digit(p[k as int]),
        decreases end - k,
    {
        let c = value.get_char(k);
        if !('0' <= c && c <= '9') {
            break;
        }
        k += 1;
    }
    proof {
        lemma_digit_prefix(t, (k - start) as int);
    }
    if k == start {
        return Err(ParseDurationError);
    }
    // accumulate the number, watching for 64-bit overflow
    let ghost digits = t.take((k - start) as int);
    let mut acc: u64 = 0;
    let mut j: usize = start;
    proof {
        assert(digits.skip(0) =~= digits);
    }
    while j < k
        invariant
            p == value@,
            start < k,
            start <= j <= k <= end <= n,
            n == p.len(),
            t == trim_spec(p),
            digit_prefix_len(t) == k - start,
            digits == t.take((k - start) as int),
            t =~= p.subrange(start as int, end as int),
            forall|m: int| start <= m < k ==> is_digit(p[m]),
            digits_value_acc(digits.skip((j - start) as int), acc as nat) == digits_value(digits),
        decreases k - j,
    {
        let c = value.get_char(j);
        let d: u64 = (c as u32 as u64) - ('0' as u32 as u64);
        proof {
            assert(digits.skip((j - start) as int)[0] == p[j as int]);
            assert(is_digit(p[j as int]));
            assert(d == digit_val(p[j as int]));
        }
        if acc > (u64::MAX - d) / 10 {
            proof {
                let rest = digits.skip((j - start) as int);
                let acc2 = (acc as nat) * 10 + digit_val(p[j as int]);
                assert(rest.skip(1) =~= digits.skip((j - start) as int + 1));
                lemma_digits_value_acc_ge(rest.skip(1), acc2);
                assert(acc2 > u64::MAX) by (nonlinear_arith)
                    requires
                        acc > (u64::MAX - d) / 10,
                        d == digit_val(p[j as int]),
                        d <= 9,
                        acc2 == (acc as nat) * 10 + digit_val(p[j as int]),
                ;
                assert(digits_value(digits) > u64::MAX);
            }
            return Err(ParseDurationError);
        }
        proof {
            let rest = digits.skip((j - start) as int);
            assert(rest.skip(1) =~= digits.skip((j - start) as int + 1));
            assert((acc * 10 + d) as nat == (acc as nat) * 10 + digit_val(p[j as int]))
                by (nonlinear_arith)
                requires
                    acc <= (u64::MAX - d) / 10,
                    d == digit_val(p[j as int]),
                    d <= 9,
            ;
        }
        acc = acc * 10 + d;
        j += 1;
    }
    proof {
        assert(digits.skip((k - start) as int).len() == 0);
        assert(digits_value(digits) == acc as nat);
    }
    // the unit is what remains after the digits, trimmed
    let unit_start = scan_spaces(value, k, end);
    let ghost unit = trim_spec(t.skip((k - start) as int));
    proof {
        let after = t.skip((k - start) as int);
        assert(after =~= p.subrange(k as int, end as int));
        lemma_trim_front_skip(after, (unit_start - k) as int);
        lemma_trim_back_take(after.skip((unit_start - k) as int), end - unit_start as int);
        assert(after.skip((unit_start - k) as int) =~= p.subrange(unit_start as int, end as int));
        assert(unit =~= p.subrange(unit_start as int, end as int));
        reveal_strlit("ns");
        reveal_strlit("\u{00B5}s");
        reveal_strlit("ms");
        reveal_strlit("s");
        reveal_strlit("min");
        reveal_strlit("h");
        assert("ns"@ =~= seq!['n', 's']);
        assert("\u{00B5}s"@ =~= seq!['\u{00B5}', 's']);
        assert("ms"@ =~= seq!['m', 's']);
        assert("s"@ =~= seq!['s']);
        assert("min"@ =~= seq!['m', 'i', 'n']);
        assert("h"@ =~= seq!['h']);
    }
    let factor: u64 = if matches_token(value, unit_start, end, "ns") {
        proof {
            assert(unit =~= seq!['n', 's']);
        }
        1
    } else if matches_token(value, unit_start, end, "\u{00B5}s") {
        proof {
            assert(unit =~= seq!['\u{00B5}', 's']);
        }
        1000
    } else if matches_token(value, unit_start, end, "ms") {
        proof {
            assert(unit =~= seq!['m', 's']);
        }
        1000000
    } else if matches_token(value, unit_start, end, "s") {
        proof {
            assert(unit =~= seq!['s']);
        }
        1000000000
    } else if matches_token(value, unit_start, end, "min") {
        proof {
            assert(unit =~= seq!['m', 'i', 'n']);
        }
        60000000000
    } else if matches_token(value, unit_start, end, "h") {
        proof {
            assert(unit =~= seq!['h']);
        }
        3600000000000
    } else {
        proof {
            lemma_no_unit(unit);
        }
        return Err(ParseDurationError);
    };
    let nanos: u128 = (acc as u128) * (factor as u128);
    proof {
        assert((acc as u128) * (factor as u128) == (acc as nat) * (factor as nat))
            by (nonlinear_arith)
            requires
                acc <= u64::MAX,
                factor <= u64::MAX,
        ;
    }
    Ok(TimeSpan { nanos })
}

/// The digit run found by the scan is exactly the spec's digit prefix.
proof fn lemma_digit_prefix(t: Seq<char>, k: int)
    requires
        0 <= k <= t.len(),
        forall|j: int| 0 <= j < k ==> is_digit(t[j]),
        k < t.len() ==> !is_digit(t[k]),
    ensures
        digit_prefix_len(t) == k,
    decreases k,
{
    if k == 0 {
        if t.len() > 0 {
            assert(!is_digit(t[0]));
        }
    } else {
        assert(is_digit(t[0]));
        lemma_digit_prefix(t.skip(1), k - 1);
    }
}

/// A token that is none of the supported units denotes no factor.
proof fn lemma_no_unit(u: Seq<char>)
    requires
        u != seq!['n', 's'],
        u != seq!['\u{00B5}', 's'],
        u != seq!['m', 's'],
        u != seq!['s'],
        u != seq!['m', 'i', 'n'],
        u != seq!['h'],
    ensures
        unit_nanos(u) is None,
{
}

/// Whether the characters of `value` between `from` and `to` spell `token`.
fn matches_token(value: &str, from: usize, to: usize, token: &str) -> (r: bool)
    requires
        from <= to <= value@.len(),
    ensures
        r == (value@.subrange(from as int, to as int) == token@),
{
    let tn = token.unicode_len();
    if to - from != tn {
        proof {
            assert(value@.subrange(from as int, to as int).len() != token@.len());
        }
        return false;
    }
    let mut i: usize = 0;
    while i < tn
        invariant
            from <= to <= value@.len(),
            to - from == tn,
            tn == token@.len(),
            i <= tn,
            forall|j: int| 0 <= j < i ==> value@[from + j] == token@[j],
        decreases tn - i,
    {
        if value.get_char(from + i) != token.get_char(i) {
            return false;
        }
        i += 1;
    }
    proof {
        assert(value@.subrange(from as int, to as int) =~= token@);
    }
    true
}

/// The span denoted by a plain number of milliseconds.
pub fn duration_from_millis(ms: u64) -> (r: TimeSpan)
    ensures
        r.nanos == ms as nat * 1000000,
{
    TimeSpan { nanos: (ms as u128) * 1000000 }
}

/// The unit a span is displayed in: the largest whose threshold the span
/// reaches, nanoseconds otherwise.
#[derive(Debug, Clone, Copy, PartialEq, Eq, Structural)]
pub enum DurationUnit {
    Hours,
    Minutes,
    Seconds,
    Millis,
    Micros,
    Nanos,
}

impl DurationUnit {
    /// The unit's token, as written in a duration string.
    pub fn label(&self) -> (r: &'static str)
        ensures
            unit_nanos(r@) == Some(self.factor()),
    {
        proof {
            reveal_strlit("ns");
            reveal_strlit("\u{00B5}s");
            reveal_strlit("ms");
            reveal_strlit("s");
            reveal_strlit("min");
            reveal_strlit("h");
            assert("ns"@ =~= seq!['n', 's']);
            assert("\u{00B5}s"@ =~= seq!['\u{00B5}', 's']);
            assert("ms"@ =~= seq!['m', 's']);
            assert("s"@ =~= seq!['s']);
            assert("min"@ =~= seq!['m', 'i', 'n']);
            assert("h"@ =~= seq!['h']);
            assert(seq!['h'] != seq!['s']) by {
                assert(seq!['h'][0] == 'h');
                assert(seq!['s'][0] == 's');
            }
        }
        match self {
            DurationUnit::Hours => "h",
            DurationUnit::Minutes => "min",
            DurationUnit::Seconds => "s",
            DurationUnit::Millis => "ms",
            DurationUnit::Micros => "\u{00B5}s",
            DurationUnit::Nanos => "ns",
        }
    }

    /// How many nanoseconds one of this unit holds.
    pub open spec fn factor(self) -> nat {
        match self {
            DurationUnit::Hours => 3600000000000nat,
            DurationUnit::Minutes => 60000000000nat,
            DurationUnit::Seconds => 1000000000nat,
            DurationUnit::Millis => 1000000nat,
            DurationUnit::Micros => 1000nat,
            DurationUnit::Nanos => 1nat,
        }
    }
}

/// The display form of a span: the count in the largest unit whose
/// threshold the span reaches, nanoseconds for anything under a
/// microsecond.
pub open spec fn display_parts_spec(nanos: nat) -> (nat, DurationUnit) {
    if nanos >= 3600000000000 {
        (nanos / 3600000000000, DurationUnit::Hours)
    } else if nanos >= 60000000000 {
        (nanos / 60000000000, DurationUnit::Minutes)
    } else if nanos >= 1000000000 {
        (nanos / 1000000000, DurationUnit::Seconds)
    } else if nanos >= 1000000 {
        (nanos / 1000000, DurationUnit::Millis)
    } else if nanos >= 1000 {
        (nanos / 1000, DurationUnit::Micros)
    } else {
        (nanos, DurationUnit::Nanos)
    }
}

/// Breaks a span into the number and unit it is displayed as.
pub fn display_parts(span: TimeSpan) -> (r: (u128, DurationUnit))
    ensures
        (r.0 as nat, r.1) == display_parts_spec(span.nanos as nat),
{
    let nanos = span.nanos;
    if nanos >= 3600000000000 {
        (nanos / 3600000000000, DurationUnit::Hours)
    } else if nanos >= 60000000000 {
        (nanos / 60000000000, DurationUnit::Minutes)
    } else if nanos >= 1000000000 {
        (nanos / 1000000000, DurationUnit::Seconds)
    } else if nanos >= 1000000 {
        (nanos / 1000000, DurationUnit::Millis)
    } else if nanos >= 1000 {
        (nanos / 1000, DurationUnit::Micros)
    } else {
        (nanos, DurationUnit::Nanos)
    }
}

} // verus!
