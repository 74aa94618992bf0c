//! The sentinel line: `PORT=` and a port number, with white space tolerated
//! around the line and around the number.

use vstd::prelude::*;
use crate::text::{
    all_white_space, chars_of, is_trimmed, lemma_trim_of_padded, trim, trimmed_range,
};

verus! {

/// The prefix that marks the line announcing the port.
pub open spec fn sentinel() -> Seq<char> {
    seq!['P', 'O', 'R', 'T', '=']
}

/// Whether `c` is one of the decimal digits `0` to `9`.
pub open spec fn is_digit(c: char) -> bool {
    0x30 <= c as u32 <= 0x39
}

/// The number that the digit `c` stands for.
pub open spec fn digit_value(c: char) -> nat {
    (c as u32 - 0x30) as nat
}

/// Whether `s` holds decimal digits only.
pub open spec fn all_digits(s: Seq<char>) -> bool {
    forall|i: int| 0 <= i < s.len() ==> is_digit(#[trigger] s[i])
}

/// The number that the digits `s` write in base ten, the empty sequence
/// standing for zero.
pub open spec fn decimal_value(s: Seq<char>) -> nat
    decreases s.len(),
{
    if s.len() == 0 {
        0
    } else {
        10 * decimal_value(s.drop_last()) + digit_value(s.last())
    }
}

/// `s` without the `+` sign that may begin a number.
pub open spec fn unsigned_digits(s: Seq<char>) -> Seq<char> {
    if s.len() > 0 && s[0] == '+' {
        s.drop_first()
    } else {
        s
    }
}

/// The number that `s` writes: an optional `+`, then at least one digit and
/// nothing else. `None` where `s` is not of that form.
pub open spec fn unsigned_of(s: Seq<char>) -> Option<nat> {
    let digits = unsigned_digits(s);
    if digits.len() > 0 && all_digits(digits) {
        Some(decimal_value(digits))
    } else {
        None
    }
}

/// The port that `s` writes: a number from 1 to 65535.
pub open spec fn port_of(s: Seq<char>) -> Option<u16> {
    match unsigned_of(s) {
        Some(n) => if 1 <= n <= 65535 {
            Some(n as u16)
        } else {
            None
        },
        None => None,
    }
}

/// Whether `line`, white space around it aside, begins with the sentinel.
pub open spec fn is_sentinel_line(line: Seq<char>) -> bool {
    sentinel().is_prefix_of(trim(line))
}

/// What follows the sentinel on a sentinel line, without the white space
/// around it.
pub open spec fn payload(line: Seq<char>) -> Seq<char> {
    trim(trim(line).skip(sentinel().len() as int))
}

/// What a line of the child's output says to the handshake.
#[derive(Clone, Copy, Debug, PartialEq, Eq, Structural)]
pub enum Reading {
    /// The line does not begin with the sentinel.
    Other,
    /// The line announces this port, which is not zero.
    Port(u16),
    /// The line begins with the sentinel, and what follows is no port.
    Malformed,
}

/// The reading of `line`.
pub open spec fn reading_of(line: Seq<char>) -> Reading {
    if !is_sentinel_line(line) {
        Reading::Other
    } else {
        match port_of(payload(line)) {
            Some(p) => Reading::Port(p),
            None => Reading::Malformed,
        }
    }
}

/// The value of the digits read so far grows by one decimal place with the
/// next digit.
proof fn lemma_decimal_value_step(s: Seq<char>, k: int)
    requires
        0 <= k < s.len(),
    ensures
        decimal_value(s.take(k + 1)) == 10 * decimal_value(s.take(k)) + digit_value(s[k]),
{
    assert(s.take(k + 1).drop_last() =~= s.take(k));
}

/// Whether the part of `chars` between `from` and `to` begins with the
/// sentinel.
fn begins_with_sentinel(chars: &Vec<char>, from: usize, to: usize) -> (r: bool)
    requires
        from <= to <= chars@.len(),
    ensures
        r == sentinel().is_prefix_of(chars@.subrange(from as int, to as int)),
{
    let ghost part = chars@.subrange(from as int, to as int);
    if to - from < 5 {
        return false;
    }
    let found = chars[from] == 'P' && chars[from + 1] == 'O' && chars[from + 2] == 'R' && chars[from
        + 3] == 'T' && chars[from + 4] == '=';
    proof {
        let head = part.subrange(0, 5);
        assert(head[0] == chars@[from as int]);
        assert(head[1] == chars@[from + 1]);
        assert(head[2] == chars@[from + 2]);
        assert(head[3] == chars@[from + 3]);
        assert(head[4] == chars@[from + 4]);
        if found {
            assert(sentinel() =~= head);
        } else {
            assert(sentinel()[0] == 'P');
            assert(sentinel()[1] == 'O');
            assert(sentinel()[2] == 'R');
            assert(sentinel()[3] == 'T');
            assert(sentinel()[4] == '=');
        }
    }
    found
}

/// Reads the part of `chars` between `from` and `to` as a port.
fn parse_port(chars: &Vec<char>, from: usize, to: usize) -> (r: Option<u16>)
    requires
        from <= to <= chars@.len(),
    ensures
        r == port_of(chars@.subrange(from as int, to as int)),
{
    let ghost part = chars@.subrange(from as int, to as int);
    let start: usize = if from < to && chars[from] == '+' {
        from + 1
    } else {
        from
    };
    let ghost digits = chars@.subrange(start as int, to as int);
    assert(digits =~= unsigned_digits(part));
    if start == to {
        return None;
    }
    // The value of the digits read so far, held at 65536 once it is past
    // every port: more digits cannot bring it back.
    let mut value: u32 = 0;
    let mut i: usize = start;
    while i < to
        invariant
            from <= start <= i <= to <= chars@.len(),
            digits == chars@.subrange(start as int, to as int),
            digits == unsigned_digits(chars@.subrange(from as int, to as int)),
            all_digits(digits.take(i - start)),
            value <= 65536,
            value == if decimal_value(digits.take(i - start)) <= 65536 {
                decimal_value(digits.take(i - start))
            } else {
                65536
            },
        decreases to - i,
    {
        let c: u32 = chars[i] as u32;
        if c < 0x30 || c > 0x39 {
            assert(!is_digit(digits[i - start]));
            return None;
        }
        proof {
            lemma_decimal_value_step(digits, i - start);
            assert forall|j: int| 0 <= j < digits.take(i - start + 1).len() implies is_digit(
                #[trigger] digits.take(i - start + 1)[j],
            ) by {
                if j < i - start {
                    assert(digits.take(i - start + 1)[j] == digits.take(i - start)[j]);
                }
            }
        }
        let next: u32 = value * 10 + (c - 0x30);
        value = if next > 65536 {
            65536
        } else {
            next
        };
        i += 1;
    }
    assert(digits.take(to - start) =~= digits);
    if value == 0 || value > 65535 {
        None
    } else {
        Some(value as u16)
    }
}

/// Reads one line of the child's output.
pub fn classify_line(line: &str) -> (r: Reading)
    ensures
        r == reading_of(line@),
{
    let chars = chars_of(line);
    assert(chars@.subrange(0, chars@.len() as int) =~= line@);
    let (lo, hi) = trimmed_range(&chars, 0, chars.len());
    if !begins_with_sentinel(&chars, lo, hi) {
        return Reading::Other;
    }
    assert(chars@.subrange(lo + 5, hi as int) =~= trim(line@).skip(5));
    let (from, to) = trimmed_range(&chars, lo + 5, hi);
    match parse_port(&chars, from, to) {
        Some(p) => Reading::Port(p),
        None => Reading::Malformed,
    }
}

/// The character that writes the digit `d`.
pub open spec fn digit_char(d: nat) -> char {
    (0x30 + d) as char
}

/// `n` written in base ten, without leading zeros.
pub open spec fn decimal(n: nat) -> Seq<char>
    decreases n,
{
    if n < 10 {
        seq![digit_char(n)]
    } else {
        decimal(n / 10).push(digit_char(n % 10))
    }
}

/// A number written in base ten is read back as itself.
pub proof fn lemma_decimal_round_trip(n: nat)
    ensures
        decimal(n).len() > 0,
        all_digits(decimal(n)),
        decimal_value(decimal(n)) == n,
    decreases n,
{
    if n < 10 {
        let s = decimal(n);
        assert(s.drop_last() =~= Seq::<char>::empty());
        assert(decimal_value(s.drop_last()) == 0);
    } else {
        lemma_decimal_round_trip(n / 10);
        let head = decimal(n / 10);
        let s = decimal(n);
        assert(s.drop_last() =~= head);
        assert forall|i: int| 0 <= i < s.len() implies is_digit(#[trigger] s[i]) by {
            if i < head.len() {
                assert(s[i] == head[i]);
            }
        }
    }
}

/// A port that is read from a line is a number from 1 to 65535.
pub proof fn lemma_port_read_is_valid(line: Seq<char>)
    ensures
        reading_of(line) matches Reading::Port(p) ==> 1 <= p <= 65535,
{
}

/// A line made of the sentinel and digits that write a number from 1 to
/// 65535 reads as that port, whatever white space stands before the
/// sentinel, between the sentinel and the digits, or behind the digits.
pub proof fn lemma_port_line_reads(
    lead: Seq<char>,
    gap: Seq<char>,
    digits: Seq<char>,
    trail: Seq<char>,
)
    requires
        all_white_space(lead),
        all_white_space(gap),
        all_white_space(trail),
        digits.len() > 0,
        all_digits(digits),
        1 <= decimal_value(digits) <= 65535,
    ensures
        reading_of(lead + sentinel() + gap + digits + trail) == Reading::Port(
            decimal_value(digits) as u16,
        ),
{
    let line = lead + sentinel() + gap + digits + trail;
    let core = sentinel() + gap + digits;
    let none = Seq::<char>::empty();
    assert(core[0] == 'P');
    assert(core.last() == digits.last());
    assert(is_digit(digits[0]));
    assert(is_digit(digits.last()));
    assert(is_trimmed(core));
    assert(line =~= lead + core + trail);
    lemma_trim_of_padded(lead, core, trail);
    assert(core.subrange(0, 5) =~= sentinel());
    assert(core.skip(5) =~= gap + digits + none);
    assert(is_trimmed(digits));
    assert(all_white_space(none));
    lemma_trim_of_padded(gap, digits, none);
    assert(payload(line) == digits);
    assert(unsigned_digits(digits) == digits);
}

/// A line `PORT=` and a port from 1 to 65535 in base ten reads as that
/// port, with or without white space around it.
pub proof fn lemma_announced_port_reads(lead: Seq<char>, port: u16, trail: Seq<char>)
    requires
        all_white_space(lead),
        all_white_space(trail),
        port >= 1,
    ensures
        reading_of(lead + sentinel() + decimal(port as nat) + trail) == Reading::Port(port),
{
    let none = Seq::<char>::empty();
    lemma_decimal_round_trip(port as nat);
    lemma_port_line_reads(lead, none, decimal(port as nat), trail);
    assert(lead + sentinel() + none =~= lead + sentinel());
}

} // verus!
