//! Spans of time, counted in nanoseconds, and their notation.

use vstd::prelude::*;

use crate::text;

verus! {

pub const NANOS_PER_SEC: u128 = 1_000_000_000;

/// The longest span: the greatest number of whole seconds, and all but one nanosecond of another.
pub const MAX_NANOS: u128 = 18_446_744_073_709_551_615_999_999_999;

/// Which of some equal parts of a whole a place lies in, counted from zero; the last one at the end
/// and beyond it.
pub open spec fn part_at(place: nat, whole: nat, parts: u16) -> u16 {
    if place >= whole {
        (parts - 1) as u16
    } else {
        (place * parts / (whole as int)) as u16
    }
}

/// A span of time. Its view is its length in nanoseconds.
#[derive(Clone, Copy, Debug, PartialEq, Eq, Structural)]
pub struct Duration {
    nanos: u128,
}

impl View for Duration {
    type V = nat;

    closed spec fn view(&self) -> nat {
        self.nanos as nat
    }
}

impl Duration {
    #[verifier::type_invariant]
    spec fn bounded(self) -> bool {
        self.nanos <= MAX_NANOS
    }

    /// The span of no length.
    pub fn zero() -> (span: Duration)
        ensures
            span@ == 0,
    {
        Duration { nanos: 0 }
    }

    /// The span of some whole seconds.
    pub fn from_secs(secs: u64) -> (span: Duration)
        ensures
            span@ == secs * NANOS_PER_SEC,
    {
        Duration { nanos: secs as u128 * NANOS_PER_SEC }
    }

    /// The span of some nanoseconds, where it is not too long.
    pub fn from_nanos(nanos: u128) -> (span: Option<Duration>)
        ensures
            match span {
                Some(d) => nanos <= MAX_NANOS && d@ == nanos,
                None => nanos > MAX_NANOS,
            },
    {
        if nanos <= MAX_NANOS {
            Some(Duration { nanos })
        } else {
            None
        }
    }

    /// The span of whole seconds and a rest below one second; a greater rest is cut off.
    pub fn from_parts(secs: u64, nanos: u32) -> (span: Duration)
        ensures
            span@ == secs * NANOS_PER_SEC + (if nanos < NANOS_PER_SEC {
                nanos as int
            } else {
                NANOS_PER_SEC - 1
            }),
    {
        let rest: u128 = if (nanos as u128) < NANOS_PER_SEC {
            nanos as u128
        } else {
            NANOS_PER_SEC - 1
        };
        Duration { nanos: secs as u128 * NANOS_PER_SEC + rest }
    }

    /// No span exceeds the greatest one.
    pub fn nanos(&self) -> (nanos: u128)
        ensures
            nanos == self@,
            nanos <= MAX_NANOS,
    {
        proof {
            use_type_invariant(self);
        }
        self.nanos
    }

    /// The whole seconds of the span.
    pub fn as_secs(&self) -> (secs: u64)
        ensures
            secs == self@ / NANOS_PER_SEC as nat,
    {
        proof {
            use_type_invariant(self);
        }
        (self.nanos / NANOS_PER_SEC) as u64
    }

    /// The nanoseconds beyond the whole seconds.
    pub fn subsec_nanos(&self) -> (nanos: u32)
        ensures
            nanos == self@ % NANOS_PER_SEC as nat,
    {
        (self.nanos % NANOS_PER_SEC) as u32
    }

    /// Whether the span has no length.
    pub fn is_zero(&self) -> (zero: bool)
        ensures
            zero == (self@ == 0),
    {
        self.nanos == 0
    }

    /// Whether the span is at least as long as the other.
    pub fn at_least(&self, other: &Duration) -> (longer: bool)
        ensures
            longer == (self@ >= other@),
    {
        self.nanos >= other.nanos
    }

    /// The shorter of two spans.
    pub fn shorter(self, other: Duration) -> (shorter: Duration)
        ensures
            shorter@ == (if self@ <= other@ {
                self@
            } else {
                other@
            }),
    {
        if self.nanos <= other.nanos {
            self
        } else {
            other
        }
    }

    /// Which of some equal parts of a whole a place lies in, counted from zero; the last one at the
    /// end and beyond it.
    pub fn part_of(self, whole: Duration, parts: u16) -> (part: u16)
        requires
            parts > 0,
            whole@ > 0,
        ensures
            part == part_at(self@, whole@, parts),
    {
        proof {
            use_type_invariant(&self);
            use_type_invariant(&whole);
        }
        if self.nanos >= whole.nanos {
            return parts - 1;
        }
        let place: u128 = self.nanos;
        let end: u128 = whole.nanos;
        assert(place * parts <= MAX_NANOS * 0xffff) by (nonlinear_arith)
            requires
                place <= MAX_NANOS,
                parts <= 0xffff,
        ;
        let part: u128 = place * parts as u128 / end;
        assert(place * parts / (end as int) < parts) by (nonlinear_arith)
            requires
                0 <= place < end,
                parts > 0,
        ;
        part as u16
    }

    /// The sum, or the longest span where the sum is longer.
    pub fn saturating_add(self, other: Duration) -> (sum: Duration)
        ensures
            sum@ == (if self@ + other@ <= MAX_NANOS {
                self@ + other@
            } else {
                MAX_NANOS as nat
            }),
    {
        proof {
            use_type_invariant(&self);
            use_type_invariant(&other);
        }
        let sum: u128 = self.nanos + other.nanos;
        if sum <= MAX_NANOS {
            Duration { nanos: sum }
        } else {
            Duration { nanos: MAX_NANOS }
        }
    }

    /// The difference, or no length where it would be negative.
    pub fn saturating_sub(self, other: Duration) -> (difference: Duration)
        ensures
            difference@ == (if self@ >= other@ {
                (self@ - other@) as nat
            } else {
                0
            }),
    {
        proof {
            use_type_invariant(&self);
        }
        if self.nanos >= other.nanos {
            Duration { nanos: self.nanos - other.nanos }
        } else {
            Duration { nanos: 0 }
        }
    }
}

/// The seconds that one unit letter stands for.
pub open spec fn unit_seconds(c: char) -> Option<nat> {
    if c == 'h' {
        Some(3600)
    } else if c == 'm' {
        Some(60)
    } else if c == 's' {
        Some(1)
    } else {
        None
    }
}

/// The seconds of a run of counts with units, `number` being the digits read so far of the first.
pub open spec fn group_seconds(text: Seq<char>, number: Option<nat>) -> Option<nat>
    decreases text.len(),
{
    if text.len() == 0 {
        if number is None {
            Some(0)
        } else {
            None
        }
    } else if '0' <= text[0] <= '9' {
        let so_far = match number {
            Some(n) => n,
            None => 0,
        };
        group_seconds(text.drop_first(), Some(10 * so_far + (text[0] as nat - 48) as nat))
    } else {
        match (number, unit_seconds(text[0]), group_seconds(text.drop_first(), None)) {
            (Some(n), Some(unit), Some(rest)) => Some(n * unit + rest),
            _ => None,
        }
    }
}

/// The seconds that a notation such as `1h30m` or `45s` stands for: counts with the units `h`, `m`
/// and `s`, added up. Anything else, and a sum that no clock can count, stands for nothing.
pub open spec fn notation_seconds(text: Seq<char>) -> Option<nat> {
    let trimmed = text::trim(text);
    if trimmed.len() == 0 {
        None
    } else {
        match group_seconds(trimmed, None) {
            Some(total) => if total <= u64::MAX {
                Some(total)
            } else {
                None
            },
            None => None,
        }
    }
}

proof fn lemma_group_at_least_number(text: Seq<char>, number: nat)
    ensures
        group_seconds(text, Some(number)) matches Some(total) ==> total >= number,
    decreases text.len(),
{
    if text.len() > 0 {
        if '0' <= text[0] <= '9' {
            lemma_group_at_least_number(
                text.drop_first(),
                10 * number + (text[0] as nat - 48) as nat,
            );
        } else if unit_seconds(text[0]) is Some {
            let unit = unit_seconds(text[0])->0;
            assert(number * unit >= number) by (nonlinear_arith)
                requires
                    unit >= 1,
            ;
        }
    }
}

/// Reads a notation such as `1h30m` or `45s`.
pub fn parse_duration(notation: &str) -> (span: Option<Duration>)
    ensures
        match notation_seconds(notation@) {
            Some(secs) => span matches Some(d) && d@ == secs * NANOS_PER_SEC,
            None => span is None,
        },
{
    let chars = text::trim_chars(&text::chars_of(notation));
    if chars.len() == 0 {
        return None;
    }
    let mut total: u64 = 0;
    let mut number: Option<u64> = None;
    let mut i: usize = 0;
    let ghost expected = group_seconds(chars@, None);
    assert(chars@.skip(0) =~= chars@);
    while i < chars.len()
        invariant
            i <= chars.len(),
            expected == group_seconds(chars@, None),
            expected == match group_seconds(
                chars@.skip(i as int),
                match number {
                    Some(n) => Some(n as nat),
                    None => None,
                },
            ) {
                Some(rest) => Some((total + rest) as nat),
                None => None,
            },
            notation_seconds(notation@) == match expected {
                Some(sum) => if sum <= u64::MAX {
                    Some(sum)
                } else {
                    None
                },
                None => None,
            },
        decreases chars.len() - i,
    {
        let c = chars[i];
        let ghost rest = chars@.skip(i as int);
        assert(rest[0] == c);
        assert(rest.drop_first() =~= chars@.skip(i + 1));
        if '0' <= c && c <= '9' {
            let so_far: u64 = match number {
                Some(n) => n,
                None => 0,
            };
            let d: u64 = (c as u8 - 48) as u64;
            proof {
                lemma_group_at_least_number(chars@.skip(i + 1), 10 * so_far as nat + d as nat);
            }
            match so_far.checked_mul(10) {
                None => {
                    return None;
                },
                Some(tens) => match tens.checked_add(d) {
                    None => {
                        return None;
                    },
                    Some(n) => {
                        number = Some(n);
                    },
                },
            }
        } else {
            let unit: u64 = if c == 'h' {
                3600
            } else if c == 'm' {
                60
            } else if c == 's' {
                1
            } else {
                return None;
            };
            match number {
                None => {
                    return None;
                },
                Some(n) => match n.checked_mul(unit) {
                    None => {
                        return None;
                    },
                    Some(secs) => match total.checked_add(secs) {
                        None => {
                            return None;
                        },
                        Some(sum) => {
                            total = sum;
                            number = None;
                        },
                    },
                },
            }
        }
        i = i + 1;
    }
    assert(chars@.skip(i as int).len() == 0);
    if number.is_some() {
        return None;
    }
    Some(Duration::from_secs(total))
}

}
