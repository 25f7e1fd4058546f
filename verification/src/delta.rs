use vstd::prelude::*;

verus! {

/// A parsed duration: hours and minutes. Each part is a byte, which is the
/// range the input grammar accepts for a unit.
#[derive(Clone, Copy, Debug, PartialEq, Eq, Structural)]
pub struct Delta {
    pub hours: u8,
    pub minutes: u8,
}

/// An error from parsing a duration string. It carries one of three fixed
/// human-readable messages.
#[derive(Debug)]
pub struct DeltaError {
    pub message: String,
}

impl DeltaError {
    /// Build an error around the given message.
    pub fn new(message: &str) -> (r: DeltaError)
        ensures
            r.message@ == message@,
    {
        DeltaError { message: message.to_owned() }
    }
}

/// An ASCII decimal digit.
pub open spec fn is_ascii_digit_char(c: char) -> bool {
    48 <= c as u32 && c as u32 <= 57
}

/// The value of an ASCII decimal digit.
pub open spec fn digit_value(c: char) -> nat {
    (c as u32 - 48) as nat
}

/// The value of a string of ASCII decimal digits, read left to right.
pub open spec fn digits_value(s: Seq<char>) -> nat
    decreases s.len(),
{
    if s.len() == 0 {
        0
    } else {
        digits_value(s.drop_last()) * 10 + digit_value(s.last())
    }
}

/// Every character of `s` is an ASCII decimal digit.
pub open spec fn all_ascii_digits(s: Seq<char>) -> bool {
    forall|i: int| 0 <= i < s.len() ==> is_ascii_digit_char(#[trigger] s[i])
}

/// The accumulator reads as a byte exactly when it is non-empty, all ASCII
/// digits, and its value fits: the same strings that `u8::from_str` accepts,
/// given that a leading sign can never reach the accumulator.
pub open spec fn acc_parses_u8(s: Seq<char>) -> bool {
    s.len() > 0 && all_ascii_digits(s) && digits_value(s) <= 255
}

/// Whether `char::is_numeric` holds of a character outside the ASCII range;
/// which characters those are is decided by the Unicode tables alone.
pub uninterp spec fn numeric_char(c: char) -> bool;

/// A character that the scanner appends to the digit accumulator: within
/// ASCII exactly the digits `0` to `9`, outside ASCII whatever
/// `char::is_numeric` accepts.
pub open spec fn accumulated_char(c: char) -> bool {
    if (c as u32) < 128 {
        is_ascii_digit_char(c)
    } else {
        numeric_char(c)
    }
}

/// Relies on char::is_numeric: true exactly for the Unicode number
/// categories (Nd, Nl and No); within ASCII those hold of the digits
/// `0` to `9` and of nothing else.
#[verifier::external_body]
fn char_is_numeric(c: char) -> (r: bool)
    ensures
        r == accumulated_char(c),
        (c as u32) >= 128 ==> r == numeric_char(c),
{
    c.is_numeric()
}

/// Which of the three parse failures occurred.
#[derive(Clone, Copy, Debug, PartialEq, Eq, Structural)]
pub enum ParseErrorKind {
    Hours,
    Minutes,
    Syntax,
}

impl ParseErrorKind {
    /// The fixed message that each failure carries.
    pub open spec fn message(self) -> Seq<char> {
        match self {
            ParseErrorKind::Hours => "Invalid hours"@,
            ParseErrorKind::Minutes => "Invalid minutes"@,
            ParseErrorKind::Syntax => "Invalid syntax, ex: 2h30m"@,
        }
    }
}

/// The scanner's state part way through the input: the hours and minutes
/// committed so far and the digits accumulated since the last unit marker,
/// or the failure that ended the scan.
pub enum ScanState {
    Run { hours: u8, minutes: u8, acc: Seq<char> },
    Fail { kind: ParseErrorKind },
}

/// One step of the left-to-right scan: `h` or `m` commits the accumulator
/// to that unit, a digit extends the accumulator, anything else is a syntax
/// error. A failed scan stays failed.
pub open spec fn scan_step(st: ScanState, c: char) -> ScanState {
    match st {
        ScanState::Fail { kind } => ScanState::Fail { kind },
        ScanState::Run { hours, minutes, acc } => {
            if c == 'h' {
                if acc_parses_u8(acc) {
                    ScanState::Run {
                        hours: digits_value(acc) as u8,
                        minutes,
                        acc: Seq::empty(),
                    }
                } else {
                    ScanState::Fail { kind: ParseErrorKind::Hours }
                }
            } else if c == 'm' {
                if acc_parses_u8(acc) {
                    ScanState::Run {
                        hours,
                        minutes: digits_value(acc) as u8,
                        acc: Seq::empty(),
                    }
                } else {
                    ScanState::Fail { kind: ParseErrorKind::Minutes }
                }
            } else if accumulated_char(c) {
                ScanState::Run { hours, minutes, acc: acc.push(c) }
            } else {
                ScanState::Fail { kind: ParseErrorKind::Syntax }
            }
        },
    }
}

/// The scanner's state after reading all of `s`, starting from zero hours,
/// zero minutes and an empty accumulator.
pub open spec fn scan(s: Seq<char>) -> ScanState
    decreases s.len(),
{
    if s.len() == 0 {
        ScanState::Run { hours: 0, minutes: 0, acc: Seq::empty() }
    } else {
        scan_step(scan(s.drop_last()), s.last())
    }
}

/// Running the scanner over `s` from a given state.
pub open spec fn scan_from(st: ScanState, s: Seq<char>) -> ScanState
    decreases s.len(),
{
    if s.len() == 0 {
        st
    } else {
        scan_step(scan_from(st, s.drop_last()), s.last())
    }
}

/// The outcome of parsing `s`: the duration on success (a trailing
/// accumulator is dropped), or the kind of failure.
pub open spec fn spec_parse(s: Seq<char>) -> Result<Delta, ParseErrorKind> {
    match scan(s) {
        ScanState::Run { hours, minutes, .. } => Ok(Delta { hours, minutes }),
        ScanState::Fail { kind } => Err(kind),
    }
}

/// Scanning a concatenation runs the scanner over the first part and goes
/// on from that state over the second.
pub proof fn lemma_scan_append(a: Seq<char>, b: Seq<char>)
    ensures
        scan(a + b) == scan_from(scan(a), b),
    decreases b.len(),
{
    if b.len() == 0 {
        assert(a + b =~= a);
    } else {
        lemma_scan_append(a, b.drop_last());
        assert((a + b).drop_last() =~= a + b.drop_last());
        assert((a + b).last() == b.last());
    }
}

/// A failed scan stays failed, whatever follows.
pub proof fn lemma_scan_from_fail(kind: ParseErrorKind, s: Seq<char>)
    ensures
        scan_from(ScanState::Fail { kind }, s) == (ScanState::Fail { kind }),
    decreases s.len(),
{
    if s.len() > 0 {
        lemma_scan_from_fail(kind, s.drop_last());
    }
}

/// Scanning a single character is one step.
proof fn lemma_scan_from_one(st: ScanState, c: char)
    ensures
        scan_from(st, seq![c]) == scan_step(st, c),
{
    assert(seq![c].len() == 1);
    assert(seq![c].drop_last().len() == 0);
    assert(seq![c].last() == c);
    assert(scan_from(st, seq![c].drop_last()) == st);
}

/// Once a prefix of the input has failed, the whole input fails the same way.
proof fn lemma_scan_extends_fail(s: Seq<char>, i: int, kind: ParseErrorKind)
    requires
        0 <= i <= s.len(),
        scan(s.take(i)) == (ScanState::Fail { kind }),
    ensures
        scan(s) == (ScanState::Fail { kind }),
{
    assert(s.take(i) + s.skip(i) =~= s);
    lemma_scan_append(s.take(i), s.skip(i));
    lemma_scan_from_fail(kind, s.skip(i));
}

/// A digit string's value only grows as more of it is read.
proof fn lemma_digits_value_grows(s: Seq<char>, i: int)
    requires
        0 <= i <= s.len(),
    ensures
        digits_value(s.take(i)) <= digits_value(s),
    decreases s.len() - i,
{
    if i == s.len() {
        assert(s.take(i) =~= s);
    } else {
        lemma_digits_value_grows(s, i + 1);
        assert(s.take(i + 1).drop_last() =~= s.take(i));
        assert(s.take(i + 1).last() == s[i]);
    }
}

/// Interpret the digit accumulator as `u8::from_str` would: the value, if
/// the accumulator is non-empty, all ASCII digits, and fits in a byte.
fn acc_to_u8(acc: &Vec<char>) -> (r: Option<u8>)
    ensures
        acc_parses_u8(acc@) ==> r == Some(digits_value(acc@) as u8),
        !acc_parses_u8(acc@) ==> r is None,
{
    if acc.len() == 0 {
        return None;
    }
    let mut value: u32 = 0;
    let mut i: usize = 0;
    while i < acc.len()
        invariant
            0 < acc@.len(),
            i <= acc@.len(),
            all_ascii_digits(acc@.take(i as int)),
            value == digits_value(acc@.take(i as int)),
            value <= 255,
        decreases acc@.len() - i,
    {
        let c = acc[i];
        let u = c as u32;
        proof {
            assert(acc@.take(i as int + 1).drop_last() =~= acc@.take(i as int));
            assert(acc@.take(i as int + 1).last() == acc@[i as int]);
        }
        if u < 48 || u > 57 {
            proof {
                assert(!is_ascii_digit_char(acc@[i as int]));
            }
            return None;
        }
        let next = value * 10 + (u - 48);
        if next > 255 {
            proof {
                assert(digits_value(acc@.take(i as int + 1)) == value * 10 + digit_value(
                    acc@[i as int],
                ));
                lemma_digits_value_grows(acc@, i as int + 1);
            }
            return None;
        }
        value = next;
        i = i + 1;
    }
    proof {
        assert(acc@.take(acc@.len() as int) =~= acc@);
    }
    Some(value as u8)
}

impl Delta {
    /// The wait in seconds that this duration stands for.
    pub open spec fn spec_total_seconds(&self) -> u64 {
        (self.hours as int * 3600 + self.minutes as int * 60) as u64
    }

    /// Convert the duration to seconds: hours and minutes count exactly.
    pub fn total_seconds(&self) -> (r: u64)
        ensures
            r == self.spec_total_seconds(),
    {
        (self.hours as u64) * 3600 + (self.minutes as u64) * 60
    }

    /// Parse a compact duration such as `2h30m`: a left-to-right scan in
    /// which `h` and `m` commit the digits read since the last marker to
    /// hours or minutes, digits accumulate, any other character is a syntax
    /// error, and digits left at the end of the input are dropped. The empty
    /// string parses as zero hours and zero minutes; a repeated marker
    /// overwrites the earlier value.
    pub fn from_str(s: &str) -> (r: Result<Delta, DeltaError>)
        ensures
            spec_parse(s@) is Ok ==> r is Ok && r->Ok_0 == spec_parse(s@)->Ok_0,
            spec_parse(s@) is Err ==> r is Err && r->Err_0.message@ == spec_parse(
                s@,
            )->Err_0.message(),
    {
        let n = s.unicode_len();
        let mut hours: u8 = 0;
        let mut minutes: u8 = 0;
        let mut acc: Vec<char> = Vec::new();
        let mut i: usize = 0;
        while i < n
            invariant
                n == s@.len(),
                i <= n,
                scan(s@.take(i as int)) == (ScanState::Run { hours, minutes, acc: acc@ }),
            decreases n - i,
        {
            let c = s.get_char(i);
            proof {
                assert(s@.take(i as int + 1).drop_last() =~= s@.take(i as int));
                assert(s@.take(i as int + 1).last() == s@[i as int]);
            }
            if c == 'h' {
                match acc_to_u8(&acc) {
                    Some(v) => {
                        hours = v;
                        acc = Vec::new();
                    },
                    None => {
                        proof {
                            lemma_scan_extends_fail(s@, i as int + 1, ParseErrorKind::Hours);
                        }
                        return Err(DeltaError::new("Invalid hours"));
                    },
                }
            } else if c == 'm' {
                match acc_to_u8(&acc) {
                    Some(v) => {
                        minutes = v;
                        acc = Vec::new();
                    },
                    None => {
                        proof {
                            lemma_scan_extends_fail(s@, i as int + 1, ParseErrorKind::Minutes);
                        }
                        return Err(DeltaError::new("Invalid minutes"));
                    },
                }
            } else if char_is_numeric(c) {
                acc.push(c);
            } else {
                proof {
                    lemma_scan_extends_fail(s@, i as int + 1, ParseErrorKind::Syntax);
                }
                return Err(DeltaError::new("Invalid syntax, ex: 2h30m"));
            }
            i = i + 1;
        }
        proof {
            assert(s@.take(n as int) =~= s@);
        }
        Ok(Delta { hours, minutes })
    }
}

/// ASCII digits only extend the accumulator.
proof fn lemma_scan_from_run_digits(hours: u8, minutes: u8, acc: Seq<char>, ds: Seq<char>)
    requires
        all_ascii_digits(ds),
    ensures
        scan_from(ScanState::Run { hours, minutes, acc }, ds) == (ScanState::Run {
            hours,
            minutes,
            acc: acc + ds,
        }),
    decreases ds.len(),
{
    if ds.len() == 0 {
        assert(acc + ds =~= acc);
    } else {
        assert forall|i: int| 0 <= i < ds.drop_last().len() implies is_ascii_digit_char(
            #[trigger] ds.drop_last()[i],
        ) by {
            assert(ds.drop_last()[i] == ds[i]);
        }
        lemma_scan_from_run_digits(hours, minutes, acc, ds.drop_last());
        let c = ds.last();
        assert(is_ascii_digit_char(c));
        assert((acc + ds.drop_last()).push(c) =~= acc + ds);
    }
}

/// For every valid duration of the form `{N}h{M}m`, with N and M each a
/// non-empty string of ASCII digits whose value fits in a byte, parsing
/// yields exactly N hours and M minutes.
pub proof fn lemma_parse_hours_minutes(hs: Seq<char>, ms: Seq<char>)
    requires
        acc_parses_u8(hs),
        acc_parses_u8(ms),
    ensures
        spec_parse(hs + seq!['h'] + ms + seq!['m']) == Ok::<Delta, ParseErrorKind>(Delta {
            hours: digits_value(hs) as u8,
            minutes: digits_value(ms) as u8,
        }),
{
    let h = digits_value(hs) as u8;
    let m = digits_value(ms) as u8;
    let s2 = hs + seq!['h'];
    let s3 = s2 + ms;
    assert(Seq::<char>::empty() + hs =~= hs);
    lemma_scan_append(Seq::<char>::empty(), hs);
    lemma_scan_from_run_digits(0, 0, Seq::empty(), hs);
    assert(scan(hs) == (ScanState::Run { hours: 0, minutes: 0, acc: hs }));
    lemma_scan_append(hs, seq!['h']);
    lemma_scan_from_one(scan(hs), 'h');
    assert(scan(s2) == (ScanState::Run { hours: h, minutes: 0, acc: Seq::empty() }));
    lemma_scan_append(s2, ms);
    lemma_scan_from_run_digits(h, 0, Seq::empty(), ms);
    assert(Seq::<char>::empty() + ms =~= ms);
    assert(scan(s3) == (ScanState::Run { hours: h, minutes: 0, acc: ms }));
    lemma_scan_append(s3, seq!['m']);
    lemma_scan_from_one(scan(s3), 'm');
    assert(scan(s3 + seq!['m']) == (ScanState::Run { hours: h, minutes: m, acc: Seq::empty() }));
}

/// Unit markers may come in either order: `{M}m{N}h` parses to the same
/// duration as `{N}h{M}m`.
pub proof fn lemma_parse_order_insensitive(hs: Seq<char>, ms: Seq<char>)
    requires
        acc_parses_u8(hs),
        acc_parses_u8(ms),
    ensures
        spec_parse(ms + seq!['m'] + hs + seq!['h']) == spec_parse(hs + seq!['h'] + ms + seq!['m']),
{
    lemma_parse_hours_minutes(hs, ms);
    let h = digits_value(hs) as u8;
    let m = digits_value(ms) as u8;
    let t2 = ms + seq!['m'];
    let t3 = t2 + hs;
    assert(Seq::<char>::empty() + ms =~= ms);
    lemma_scan_append(Seq::<char>::empty(), ms);
    lemma_scan_from_run_digits(0, 0, Seq::empty(), ms);
    assert(scan(ms) == (ScanState::Run { hours: 0, minutes: 0, acc: ms }));
    lemma_scan_append(ms, seq!['m']);
    lemma_scan_from_one(scan(ms), 'm');
    assert(scan(t2) == (ScanState::Run { hours: 0, minutes: m, acc: Seq::empty() }));
    lemma_scan_append(t2, hs);
    lemma_scan_from_run_digits(0, m, Seq::empty(), hs);
    assert(Seq::<char>::empty() + hs =~= hs);
    assert(scan(t3) == (ScanState::Run { hours: 0, minutes: m, acc: hs }));
    lemma_scan_append(t3, seq!['h']);
    lemma_scan_from_one(scan(t3), 'h');
    assert(scan(t3 + seq!['h']) == (ScanState::Run { hours: h, minutes: m, acc: Seq::empty() }));
}

/// Trailing digits that no unit marker follows are dropped: they only
/// extend the accumulator, which the end of the scan discards.
pub proof fn lemma_trailing_digits_dropped(s: Seq<char>, ds: Seq<char>)
    requires
        scan(s) is Run,
        all_ascii_digits(ds),
    ensures
        spec_parse(s + ds) == spec_parse(s),
{
    lemma_scan_append(s, ds);
    match scan(s) {
        ScanState::Run { hours, minutes, acc } => {
            lemma_scan_from_run_digits(hours, minutes, acc, ds);
        },
        ScanState::Fail { .. } => {},
    }
}

/// A character that is neither a digit nor a unit marker fails the parse
/// with a syntax error, wherever it stands, provided the scan of what
/// precedes it has not already failed. Stated for ASCII characters, whose
/// classification does not rest on the Unicode tables.
pub proof fn lemma_syntax_error(s: Seq<char>, c: char, rest: Seq<char>)
    requires
        scan(s) is Run,
        (c as u32) < 128,
        !is_ascii_digit_char(c),
        c != 'h',
        c != 'm',
    ensures
        spec_parse(s + seq![c] + rest) == Err::<Delta, ParseErrorKind>(ParseErrorKind::Syntax),
{
    lemma_scan_append(s, seq![c]);
    lemma_scan_from_one(scan(s), c);
    assert(scan(s + seq![c]) == (ScanState::Fail { kind: ParseErrorKind::Syntax }));
    lemma_scan_append(s + seq![c], rest);
    lemma_scan_from_fail(ParseErrorKind::Syntax, rest);
}

/// A unit marker whose accumulator does not read as a byte — empty, not all
/// ASCII digits, or too large for one — fails the parse with that marker's
/// own error, whatever follows.
pub proof fn lemma_marker_bad_accumulator(
    s: Seq<char>,
    hours: u8,
    minutes: u8,
    acc: Seq<char>,
    rest: Seq<char>,
)
    requires
        scan(s) == (ScanState::Run { hours, minutes, acc }),
        !acc_parses_u8(acc),
    ensures
        spec_parse(s + seq!['h'] + rest) == Err::<Delta, ParseErrorKind>(ParseErrorKind::Hours),
        spec_parse(s + seq!['m'] + rest) == Err::<Delta, ParseErrorKind>(ParseErrorKind::Minutes),
{
    lemma_scan_append(s, seq!['h']);
    lemma_scan_from_one(scan(s), 'h');
    lemma_scan_append(s + seq!['h'], rest);
    lemma_scan_from_fail(ParseErrorKind::Hours, rest);
    lemma_scan_append(s, seq!['m']);
    lemma_scan_from_one(scan(s), 'm');
    lemma_scan_append(s + seq!['m'], rest);
    lemma_scan_from_fail(ParseErrorKind::Minutes, rest);
}

} // verus!

