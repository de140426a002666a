//! Serial sentence receiver: accumulates incoming bytes into a bounded line
//! buffer and, on each newline, parses the line as a ZDA time sentence.
//! A line counts only if it is valid text and starts with the recognized
//! prefix; fields are comma-delimited, the time-of-day field is a fixed
//! width `HHMMSS[.fraction]` decimal, and unparsable fields default to
//! zero. A sentence with any zero time or date field is rejected, so a
//! receiver that has no satellite fix yet cannot overwrite a good clock.

use vstd::prelude::*;

verus! {

/// Capacity of the line buffer; bytes beyond it are dropped rather than
/// written past the buffer.
pub const LINE_CAPACITY: usize = 255;

/// ASCII comma, the field delimiter.
pub const FIELD_DELIMITER: u8 = 44;

/// ASCII full stop, which separates the sub-second fraction.
pub const FRACTION_DELIMITER: u8 = 46;

/// ASCII line feed, the sentence terminator.
pub const LINE_TERMINATOR: u8 = 10;

/// Calendar fields extracted from one accepted time sentence.
#[derive(PartialEq, Eq, Structural, Clone, Copy, Debug)]
pub struct ZdaFields {
    pub year: u64,
    pub month: u64,
    pub day: u64,
    pub hour: u64,
    pub minute: u64,
    pub second: u64,
}

/// Whether a byte sequence is valid UTF-8 text.
pub uninterp spec fn is_utf8(s: Seq<u8>) -> bool;

/// Relies on core::str::from_utf8, which returns Ok exactly when the bytes
/// are valid UTF-8.
#[verifier::external_body]
fn utf8_ok(line: &[u8]) -> (r: bool)
    ensures
        r == is_utf8(line@),
{
    core::str::from_utf8(line).is_ok()
}

/// First index at or after `i` holding byte `b`, or the sequence's length
/// if there is none.
pub open spec fn scan(s: Seq<u8>, i: int, b: u8) -> int
    decreases s.len() - i,
{
    if i < 0 || i >= s.len() {
        s.len() as int
    } else if s[i] == b {
        i
    } else {
        scan(s, i + 1, b)
    }
}

pub proof fn lemma_scan_bounds(s: Seq<u8>, i: int, b: u8)
    requires
        0 <= i <= s.len(),
    ensures
        i <= scan(s, i, b) <= s.len(),
    decreases s.len() - i,
{
    if i < s.len() && s[i] != b {
        lemma_scan_bounds(s, i + 1, b);
    }
}

/// Whether a byte is an ASCII decimal digit.
pub open spec fn is_ascii_digit(b: u8) -> bool {
    48 <= b <= 57
}

pub open spec fn all_digits(s: Seq<u8>) -> bool {
    forall|k: int| 0 <= k < s.len() ==> is_ascii_digit(s[k])
}

/// Numeric value of a digit string, most significant digit first.
pub open spec fn digits_val(s: Seq<u8>) -> int
    decreases s.len(),
{
    if s.len() == 0 {
        0
    } else {
        digits_val(s.drop_last()) * 10 + (s.last() - 48)
    }
}

/// Value of a decimal field under Rust's unsigned-integer parse rules, with
/// unparsable fields defaulting to zero: an optional leading plus sign,
/// then at least one digit and nothing else, with a value that fits in 64
/// bits.
pub open spec fn spec_parse_u64(s: Seq<u8>) -> u64 {
    spec_parse_digits(
        if s.len() >= 1 && s[0] == 43 {
            s.drop_first()
        } else {
            s
        },
    )
}

pub open spec fn spec_parse_digits(s: Seq<u8>) -> u64 {
    if s.len() >= 1 && all_digits(s) && digits_val(s) <= u64::MAX {
        digits_val(s) as u64
    } else {
        0
    }
}

pub proof fn lemma_digits_val_nonneg(s: Seq<u8>)
    requires
        all_digits(s),
    ensures
        digits_val(s) >= 0,
    decreases s.len(),
{
    if s.len() > 0 {
        assert(all_digits(s.drop_last()));
        lemma_digits_val_nonneg(s.drop_last());
    }
}

pub proof fn lemma_digits_val_step(s: Seq<u8>, i: int)
    requires
        0 <= i < s.len(),
    ensures
        digits_val(s.subrange(0, i + 1)) == digits_val(s.subrange(0, i)) * 10 + (s[i] - 48),
{
    assert(s.subrange(0, i + 1).drop_last() =~= s.subrange(0, i));
    assert(s.subrange(0, i + 1).last() == s[i]);
}

pub proof fn lemma_digits_val_prefix_le(s: Seq<u8>, i: int)
    requires
        all_digits(s),
        0 <= i <= s.len(),
    ensures
        digits_val(s.subrange(0, i)) <= digits_val(s),
    decreases s.len() - i,
{
    if i == s.len() {
        assert(s.subrange(0, i) =~= s);
    } else {
        lemma_digits_val_step(s, i);
        assert(all_digits(s.subrange(0, i)));
        lemma_digits_val_nonneg(s.subrange(0, i));
        lemma_digits_val_prefix_le(s, i + 1);
    }
}

/// First index at or after `start` holding `target`, or the line's length.
fn scan_from(line: &[u8], start: usize, target: u8) -> (r: usize)
    requires
        start <= line@.len(),
    ensures
        r == scan(line@, start as int, target),
{
    let mut i = start;
    while i < line.len()
        invariant
            start <= i <= line@.len(),
            scan(line@, start as int, target) == scan(line@, i as int, target),
        decreases line@.len() - i,
    {
        if line[i] == target {
            return i;
        }
        i += 1;
    }
    i
}

/// Parse the digit run `line[start..end]` as a decimal number, yielding 0
/// where the run is empty, holds a non-digit, or overflows 64 bits.
fn parse_digits_range(line: &[u8], start: usize, end: usize) -> (r: u64)
    requires
        start <= end <= line@.len(),
    ensures
        r == spec_parse_digits(line@.subrange(start as int, end as int)),
{
    let ghost s = line@.subrange(start as int, end as int);
    if start == end {
        return 0;
    }
    let mut acc: u64 = 0;
    let mut i = start;
    while i < end
        invariant
            start <= i <= end <= line@.len(),
            s == line@.subrange(start as int, end as int),
            s.len() == end - start,
            all_digits(s.subrange(0, i - start)),
            acc == digits_val(s.subrange(0, i - start)),
        decreases end - i,
    {
        let c = line[i];
        proof {
            assert(s[i - start] == line@[i as int]);
        }
        if c < 48 || c > 57 {
            proof {
                assert(!is_ascii_digit(s[i - start]));
            }
            return 0;
        }
        let next = match acc.checked_mul(10) {
            Some(a) => a.checked_add((c - 48) as u64),
            None => None,
        };
        proof {
            lemma_digits_val_step(s, i - start);
        }
        match next {
            Some(a) => {
                acc = a;
            },
            None => {
                proof {
                    if all_digits(s) && digits_val(s) <= u64::MAX {
                        lemma_digits_val_prefix_le(s, i - start + 1);
                    }
                }
                return 0;
            },
        }
        i += 1;
    }
    proof {
        assert(s.subrange(0, s.len() as int) =~= s);
    }
    acc
}

/// Parse the field `line[start..end]` as Rust's `u64` parse would, with an
/// optional leading plus sign, yielding 0 where it fails.
fn parse_u64_field(line: &[u8], start: usize, end: usize) -> (r: u64)
    requires
        start <= end <= line@.len(),
    ensures
        r == spec_parse_u64(line@.subrange(start as int, end as int)),
{
    if start < end && line[start] == 43 {
        proof {
            assert(line@.subrange(start as int, end as int).drop_first() =~= line@.subrange(
                start as int + 1,
                end as int,
            ));
        }
        parse_digits_range(line, start + 1, end)
    } else {
        parse_digits_range(line, start, end)
    }
}

/// Whether the line begins with the recognized sentence prefix `$GNZDA`.
pub open spec fn zda_prefix_match(s: Seq<u8>) -> bool {
    s.len() >= 6 && s[0] == 36 && s[1] == 71 && s[2] == 78 && s[3] == 90 && s[4] == 68 && s[5]
        == 65
}

/// The calendar fields a complete line yields: for a valid-text line with
/// the recognized prefix, the second to fifth comma-delimited fields are
/// read as time-of-day (truncated at a fraction point), day, month and
/// year; the time-of-day integer splits as HHMMSS by successive modulo
/// 100. The result exists exactly when all four parsed values are nonzero.
pub open spec fn spec_parse_zda(s: Seq<u8>) -> Option<ZdaFields> {
    if is_utf8(s) && zda_prefix_match(s) {
        let e0 = scan(s, 0, FIELD_DELIMITER);
        let s1 = if e0 < s.len() {
            e0 + 1
        } else {
            e0
        };
        let e1 = scan(s, s1, FIELD_DELIMITER);
        let s2 = if e1 < s.len() {
            e1 + 1
        } else {
            e1
        };
        let e2 = scan(s, s2, FIELD_DELIMITER);
        let s3 = if e2 < s.len() {
            e2 + 1
        } else {
            e2
        };
        let e3 = scan(s, s3, FIELD_DELIMITER);
        let s4 = if e3 < s.len() {
            e3 + 1
        } else {
            e3
        };
        let e4 = scan(s, s4, FIELD_DELIMITER);
        let dot = scan(s, s1, FRACTION_DELIMITER);
        let t_end = if dot < e1 {
            dot
        } else {
            e1
        };
        let time = spec_parse_u64(s.subrange(s1, t_end));
        let day = spec_parse_u64(s.subrange(s2, e2));
        let month = spec_parse_u64(s.subrange(s3, e3));
        let year = spec_parse_u64(s.subrange(s4, e4));
        if time > 0 && day > 0 && month > 0 && year > 0 {
            Some(
                ZdaFields {
                    year,
                    month,
                    day,
                    hour: (((time as int) / 10000) % 100) as u64,
                    minute: (((time as int) / 100) % 100) as u64,
                    second: ((time as int) % 100) as u64,
                },
            )
        } else {
            None
        }
    } else {
        None
    }
}

/// Parse one complete line as a ZDA time sentence.
pub fn process_line(line: &[u8]) -> (r: Option<ZdaFields>)
    ensures
        r == spec_parse_zda(line@),
{
    if line.len() < 6 {
        return None;
    }
    if !(line[0] == 36 && line[1] == 71 && line[2] == 78 && line[3] == 90 && line[4] == 68
        && line[5] == 65) {
        return None;
    }
    if !utf8_ok(line) {
        return None;
    }
    let len = line.len();
    let e0 = scan_from(line, 0, FIELD_DELIMITER);
    proof {
        lemma_scan_bounds(line@, 0, FIELD_DELIMITER);
    }
    let s1 = if e0 < len {
        e0 + 1
    } else {
        e0
    };
    let e1 = scan_from(line, s1, FIELD_DELIMITER);
    proof {
        lemma_scan_bounds(line@, s1 as int, FIELD_DELIMITER);
    }
    let s2 = if e1 < len {
        e1 + 1
    } else {
        e1
    };
    let e2 = scan_from(line, s2, FIELD_DELIMITER);
    proof {
        lemma_scan_bounds(line@, s2 as int, FIELD_DELIMITER);
    }
    let s3 = if e2 < len {
        e2 + 1
    } else {
        e2
    };
    let e3 = scan_from(line, s3, FIELD_DELIMITER);
    proof {
        lemma_scan_bounds(line@, s3 as int, FIELD_DELIMITER);
    }
    let s4 = if e3 < len {
        e3 + 1
    } else {
        e3
    };
    let e4 = scan_from(line, s4, FIELD_DELIMITER);
    proof {
        lemma_scan_bounds(line@, s4 as int, FIELD_DELIMITER);
    }
    let dot = scan_from(line, s1, FRACTION_DELIMITER);
    proof {
        lemma_scan_bounds(line@, s1 as int, FRACTION_DELIMITER);
    }
    let t_end = if dot < e1 {
        dot
    } else {
        e1
    };
    let time = parse_u64_field(line, s1, t_end);
    let day = parse_u64_field(line, s2, e2);
    let month = parse_u64_field(line, s3, e3);
    let year = parse_u64_field(line, s4, e4);
    if time > 0 && day > 0 && month > 0 && year > 0 {
        Some(
            ZdaFields {
                year,
                month,
                day,
                hour: (time / 10000) % 100,
                minute: (time / 100) % 100,
                second: time % 100,
            },
        )
    } else {
        None
    }
}

/// The bounded line buffer that the receive task feeds one byte at a time.
pub struct LineAssembler {
    pub buf: Vec<u8>,
}

impl LineAssembler {
    /// The buffer never outgrows its capacity.
    pub open spec fn wf(self) -> bool {
        self.buf@.len() <= LINE_CAPACITY
    }

    /// An empty assembler.
    pub fn new() -> (a: LineAssembler)
        ensures
            a.wf(),
            a.buf@.len() == 0,
    {
        LineAssembler { buf: Vec::new() }
    }

    /// Feed one received byte. A line terminator parses the accumulated
    /// line and resets the buffer whatever the outcome; any other byte is
    /// appended, or dropped once the buffer is full.
    pub fn push_byte(&mut self, b: u8) -> (r: Option<ZdaFields>)
        requires
            old(self).wf(),
        ensures
            final(self).wf(),
            b == LINE_TERMINATOR ==> final(self).buf@.len() == 0 && r == spec_parse_zda(
                old(self).buf@,
            ),
            b != LINE_TERMINATOR && old(self).buf@.len() < LINE_CAPACITY ==> final(self).buf@
                == old(self).buf@.push(b) && r is None,
            b != LINE_TERMINATOR && old(self).buf@.len() >= LINE_CAPACITY ==> final(self).buf@
                == old(self).buf@ && r is None,
    {
        if b == LINE_TERMINATOR {
            let r = process_line(self.buf.as_slice());
            self.buf.clear();
            r
        } else {
            if self.buf.len() < LINE_CAPACITY {
                self.buf.push(b);
            }
            None
        }
    }
}

} // verus!
