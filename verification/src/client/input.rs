//! The line under the client's fingers: how keystrokes build it, and how a
//! finished line is read as an unsigned decimal number.

use vstd::prelude::*;

verus! {

/// A keystroke, as far as the line cares: a character, the backspace key, or
/// any other key.
#[derive(Debug, Clone, Copy, PartialEq, Eq, Structural)]
pub enum Key {
    Char(char),
    Backspace,
    Other,
}

/// What a keystroke asks of the screen.
#[derive(Debug, Clone, Copy, PartialEq, Eq, Structural)]
pub enum Echo {
    /// Enter was pressed: the line is finished.
    Submit,
    /// The character `c` was appended as the line's character number `at`.
    Put { c: char, at: usize },
    /// The last character was taken off the line.
    Erase,
    /// Nothing changed.
    Nothing,
}

/// The line after a keystroke.
pub open spec fn line_after(line: Seq<char>, key: Key) -> Seq<char> {
    match key {
        Key::Char(c) => if c == '\n' {
            line
        } else {
            line.push(c)
        },
        Key::Backspace => if line.len() > 0 {
            line.drop_last()
        } else {
            line
        },
        Key::Other => line,
    }
}

/// What the screen is asked after a keystroke on `line`.
pub open spec fn echo_of(line: Seq<char>, key: Key) -> Echo {
    match key {
        Key::Char(c) => if c == '\n' {
            Echo::Submit
        } else {
            Echo::Put { c, at: line.len() as usize }
        },
        Key::Backspace => if line.len() > 0 {
            Echo::Erase
        } else {
            Echo::Nothing
        },
        Key::Other => Echo::Nothing,
    }
}

/// Takes one keystroke into the line: Enter finishes the line and leaves it
/// as it is, backspace takes the last character off, any other character is
/// appended, and any other key is ignored.
pub fn read_client_input(line: &mut Vec<char>, key: Key) -> (echo: Echo)
    ensures
        final(line)@ == line_after(old(line)@, key),
        echo == echo_of(old(line)@, key),
{
    match key {
        Key::Char(c) => {
            if c == '\n' {
                Echo::Submit
            } else {
                let at = line.len();
                line.push(c);
                Echo::Put { c, at }
            }
        },
        Key::Backspace => {
            match line.pop() {
                Some(_) => Echo::Erase,
                None => Echo::Nothing,
            }
        },
        Key::Other => Echo::Nothing,
    }
}

/// `c` is one of the ten decimal digits.
pub open spec fn is_digit(c: char) -> bool {
    '0' <= c <= '9'
}

/// The number that a string of decimal digits writes.
pub open spec fn digits_value(s: Seq<char>) -> nat
    decreases s.len(),
{
    if s.len() == 0 {
        0
    } else {
        digits_value(s.drop_last()) * 10 + ((s.last() as u32) - ('0' as u32)) as nat
    }
}

/// The digits of a numeral: the string without a leading plus sign.
pub open spec fn numeral_digits(s: Seq<char>) -> Seq<char> {
    if s.len() > 0 && s[0] == '+' {
        s.subrange(1, s.len() as int)
    } else {
        s
    }
}

/// The 64-bit number that `s` writes in decimal: an optional plus sign, then
/// one digit or more and nothing else, with a value that fits.
pub open spec fn decimal(s: Seq<char>) -> Option<u64> {
    let digits = numeral_digits(s);
    if digits.len() > 0 && (forall|i: int| 0 <= i < digits.len() ==> is_digit(#[trigger] digits[i]))
        && digits_value(digits) <= u64::MAX {
        Some(digits_value(digits) as u64)
    } else {
        None
    }
}

/// The line without the newlines at its end.
pub open spec fn without_newlines(s: Seq<char>) -> Seq<char>
    decreases s.len(),
{
    if s.len() > 0 && s.last() == '\n' {
        without_newlines(s.drop_last())
    } else {
        s
    }
}

/// A digit string with more digits behind it is worth no less.
pub proof fn lemma_digits_value_grows(s: Seq<char>, n: int)
    requires
        0 <= n <= s.len(),
        forall|i: int| 0 <= i < s.len() ==> is_digit(#[trigger] s[i]),
    ensures
        digits_value(s.subrange(0, n)) <= digits_value(s),
    decreases s.len() - n,
{
    if n == s.len() {
        assert(s.subrange(0, n) =~= s);
    } else {
        let longer = s.subrange(0, n + 1);
        assert(longer.drop_last() =~= s.subrange(0, n));
        assert(is_digit(s[n]));
        lemma_digits_value_grows(s, n + 1);
    }
}

/// Reads the first `end` characters of a line as an unsigned decimal number
/// of 64 bits.
fn read_decimal(line: &Vec<char>, end: usize) -> (r: Option<u64>)
    requires
        end <= line.len(),
    ensures
        r == decimal(line@.subrange(0, end as int)),
{
    let ghost text = line@.subrange(0, end as int);
    let start: usize = if end > 0 && line[0] == '+' {
        1
    } else {
        0
    };
    let ghost digits = numeral_digits(text);
    assert(digits =~= line@.subrange(start as int, end as int));
    if start == end {
        return None;
    }
    let mut value: u64 = 0;
    let mut i: usize = start;
    while i < end
        invariant
            start <= i <= end <= line.len(),
            start < end,
            digits == line@.subrange(start as int, end as int),
            digits == numeral_digits(line@.subrange(0, end as int)),
            forall|k: int| 0 <= k < i - start ==> is_digit(#[trigger] digits[k]),
            value == digits_value(digits.subrange(0, i - start)),
        decreases end - i,
    {
        let c: char = line[i];
        assert(c == digits[i - start]);
        if !('0' <= c && c <= '9') {
            return None;
        }
        let d: u64 = (c as u32 - '0' as u32) as u64;
        let ghost longer = digits.subrange(0, i - start + 1);
        proof {
            assert(longer.drop_last() =~= digits.subrange(0, i - start));
            assert(digits_value(longer) == value * 10 + d);
        }
        if value > (u64::MAX - d) / 10 {
            proof {
                if forall|k: int| 0 <= k < digits.len() ==> is_digit(#[trigger] digits[k]) {
                    lemma_digits_value_grows(digits, i - start + 1);
                }
            }
            return None;
        }
        value = value * 10 + d;
        i = i + 1;
    }
    assert(digits.subrange(0, i - start) =~= digits);
    Some(value)
}

/// Reads a whole line as an unsigned decimal number of 64 bits.
pub fn read_number(line: &Vec<char>) -> (r: Option<u64>)
    ensures
        r == decimal(line@),
{
    assert(line@.subrange(0, line.len() as int) =~= line@);
    read_decimal(line, line.len())
}

/// Reads a line as an unsigned decimal number of 64 bits, after taking the
/// newlines off its end.
pub fn read_u64(line: &Vec<char>) -> (r: Option<u64>)
    ensures
        r == decimal(without_newlines(line@)),
{
    let mut end: usize = line.len();
    assert(line@.subrange(0, end as int) =~= line@);
    while end > 0 && line[end - 1] == '\n'
        invariant
            end <= line.len(),
            without_newlines(line@) == without_newlines(line@.subrange(0, end as int)),
        decreases end,
    {
        proof {
            let cut = line@.subrange(0, end as int);
            assert(cut.drop_last() =~= line@.subrange(0, end - 1));
        }
        end = end - 1;
    }
    read_decimal(line, end)
}

} // verus!
