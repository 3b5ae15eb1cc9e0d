//! The host side of the USB serial stream: its arguments and its copy loop.

use vstd::prelude::*;

use crate::text::{all_digits, decimal, decimal_value, law_decimal_is_faithful};

verus! {

/// Port that is opened when none is named.
pub const DEFAULT_PORT: &'static str = "/dev/cu.usbmodem2101";

/// Baud rate that is set when none is named.
pub const DEFAULT_BAUD: u32 = 921_600;

/// Milliseconds that a read of the port may take.
pub const READ_TIMEOUT_MS: u64 = 50;

/// Size of the buffer that the port is read into.
pub const COPY_BUFFER_BYTES: usize = 4096;

/// `s` without a plus sign in front.
pub open spec fn unsigned_part(s: Seq<char>) -> Seq<char> {
    if s.len() > 0 && s[0] == '+' {
        s.skip(1)
    } else {
        s
    }
}

/// The 32-bit number that a string names: decimal digits and nothing else, but for a plus
/// sign in front.
pub open spec fn named_u32(s: Seq<char>) -> Option<u32> {
    let digits = unsigned_part(s);
    if digits.len() > 0 && all_digits(digits) && decimal_value(digits) <= u32::MAX {
        Some(decimal_value(digits) as u32)
    } else {
        None
    }
}

/// More digits never make a number smaller.
proof fn lemma_prefix_value(digits: Seq<char>, n: int)
    requires
        0 <= n <= digits.len(),
    ensures
        decimal_value(digits.take(n)) <= decimal_value(digits),
    decreases digits.len() - n,
{
    if n == digits.len() {
        assert(digits.take(n) =~= digits);
    } else {
        lemma_prefix_value(digits, n + 1);
        assert(digits.take(n + 1).drop_last() =~= digits.take(n));
    }
}

/// Reads a 32-bit number.
fn parse_u32(s: &str) -> (r: Option<u32>)
    ensures
        r == named_u32(s@),
{
    let n: usize = s.unicode_len();
    let from: usize = if n > 0 && s.get_char(0) == '+' {
        1
    } else {
        0
    };
    let ghost digits = unsigned_part(s@);
    assert(digits =~= s@.skip(from as int));
    if from == n {
        return None;
    }
    let mut value: u64 = 0;
    let mut i: usize = from;
    assert(digits.take(0) =~= Seq::<char>::empty());
    while i < n
        invariant
            from <= i <= n,
            n == s@.len(),
            digits == s@.skip(from as int),
            digits == unsigned_part(s@),
            digits.len() > 0,
            all_digits(digits.take(i - from)),
            value == decimal_value(digits.take(i - from)),
            value <= u32::MAX,
        decreases n - i,
    {
        let c: char = s.get_char(i);
        let ghost next = digits.take(i - from + 1);
        assert(digits[i - from] == c);
        if c < '0' || '9' < c {
            return None;
        }
        assert(next.drop_last() =~= digits.take(i - from));
        assert(next.last() == c);
        value = 10 * value + (c as u64 - 48);
        if value > u32::MAX as u64 {
            proof {
                lemma_prefix_value(digits, i - from + 1);
            }
            return None;
        }
        assert forall|j: int| 0 <= j < next.len() implies '0' <= #[trigger] next[j] <= '9' by {
            if j < i - from {
                assert(next[j] == digits.take(i - from)[j]);
            }
        }
        i += 1;
    }
    assert(digits.take(i - from) =~= digits);
    Some(value as u32)
}

/// The port to open: the one that was named, or the usual one.
pub fn port_name(arg: Option<String>) -> (r: String)
    ensures
        r@ == (match arg {
            Some(name) => name@,
            None => DEFAULT_PORT@,
        }),
{
    match arg {
        Some(name) => name,
        None => String::from_str(DEFAULT_PORT),
    }
}

/// The baud rate to set: the one that was named, or the usual one. Nothing when what was
/// named is no 32-bit number.
pub fn baud_rate(arg: Option<String>) -> (r: Option<u32>)
    ensures
        r == (match arg {
            Some(text) => named_u32(text@),
            None => Some(DEFAULT_BAUD),
        }),
        arg is None ==> r == Some(921_600u32),
{
    match arg {
        Some(text) => parse_u32(text.as_str()),
        None => Some(DEFAULT_BAUD),
    }
}

/// What a read of the port returned.
#[derive(Debug, Clone, Copy, PartialEq, Eq, Structural)]
pub enum PortRead {
    /// That many bytes.
    Bytes(usize),
    /// Nothing in time.
    TimedOut,
    /// Another error.
    Failed,
}

/// What the copy loop does about it.
#[derive(Debug, Clone, Copy, PartialEq, Eq, Structural)]
pub enum CopyAction {
    /// Write that many bytes from the front of the buffer.
    Copy(usize),
    /// Read again.
    Next,
    /// Give up.
    Stop,
}

/// What the copy loop does about a read.
pub open spec fn action_after_read(read: PortRead) -> CopyAction {
    match read {
        PortRead::Bytes(n) => if n == 0 {
            CopyAction::Next
        } else {
            CopyAction::Copy(n)
        },
        PortRead::TimedOut => CopyAction::Next,
        PortRead::Failed => CopyAction::Stop,
    }
}

/// One step of the loop that copies the port to standard output: quiet is no error.
pub fn copy_step(read: PortRead) -> (r: CopyAction)
    ensures
        r == (match read {
            PortRead::Bytes(n) => if n > 0 {
                CopyAction::Copy(n)
            } else {
                CopyAction::Next
            },
            PortRead::TimedOut => CopyAction::Next,
            PortRead::Failed => CopyAction::Stop,
        }),
        r == action_after_read(read),
{
    match read {
        PortRead::Bytes(n) => {
            if n > 0 {
                CopyAction::Copy(n)
            } else {
                CopyAction::Next
            }
        },
        PortRead::TimedOut => CopyAction::Next,
        PortRead::Failed => CopyAction::Stop,
    }
}

/// Decimal digits are read as the number they stand for, with a plus sign in front or
/// without, where it fits 32 bits, and not at all where it does not.
pub proof fn law_digits_are_read_as_their_number(digits: Seq<char>)
    requires
        digits.len() > 0,
        forall|i: int| 0 <= i < digits.len() ==> '0' <= #[trigger] digits[i] <= '9',
    ensures
        decimal_value(digits) <= 0xffff_ffff ==> {
            &&& named_u32(digits) matches Some(n) && n == decimal_value(digits)
            &&& named_u32(seq!['+'] + digits) == named_u32(digits)
        },
        decimal_value(digits) > 0xffff_ffff ==> {
            &&& named_u32(digits) is None
            &&& named_u32(seq!['+'] + digits) is None
        },
{
    assert((seq!['+'] + digits).skip(1) =~= digits);
}

/// Only digits are read, behind at most one plus sign.
pub proof fn law_only_digits_are_read(s: Seq<char>, i: int)
    requires
        named_u32(s) is Some,
    ensures
        s.len() > 0,
        s[0] == '+' ==> s.len() > 1,
        0 < i < s.len() ==> '0' <= s[i] <= '9',
        s[0] == '+' || '0' <= s[0] <= '9',
{
    if s[0] == '+' {
        if 0 < i < s.len() {
            assert(s.skip(1)[i - 1] == s[i]);
        }
    }
}

/// A number that is written in decimal is read back.
pub proof fn law_written_numbers_are_read_back(n: u32)
    ensures
        named_u32(decimal(n as nat)) == Some(n),
{
    law_decimal_is_faithful(n as nat);
}

/// Everything that is read is copied, all of it; the loop stops exactly on an error that is
/// not silence.
pub proof fn law_everything_read_is_copied(read: PortRead)
    ensures
        read matches PortRead::Bytes(n) ==> n > 0 ==> action_after_read(read) == CopyAction::Copy(
            n,
        ),
        action_after_read(read) matches CopyAction::Copy(n) ==> read == PortRead::Bytes(n) && n > 0,
        action_after_read(read) == CopyAction::Stop <==> read == PortRead::Failed,
{
}

} // verus!
