use vstd::prelude::*;

use crate::errors::is_hex_char;
use crate::machine::{set_pc_to, BrookshearMachine, BrookshearMachineError};
use crate::text::{hex2, push_char, push_hex2};

verus! {

/// What the emulator does next: nothing, one step, one step back, or run.
#[derive(Debug, Clone, Copy, PartialEq, Eq, Structural)]
pub enum EmulatorAction {
    Idle,
    Step,
    Unstep,
    Continue,
}

/// The run button: a running emulator pauses, any other starts running.
pub fn toggle_run(action: EmulatorAction) -> (next: EmulatorAction)
    ensures
        next == (if action == EmulatorAction::Continue {
            EmulatorAction::Idle
        } else {
            EmulatorAction::Continue
        }),
{
    match action {
        EmulatorAction::Continue => EmulatorAction::Idle,
        _ => EmulatorAction::Continue,
    }
}

/// What the emulator does after a step it took while doing `action`: a
/// run goes on while the machine does, and stops at a halt or an error; a
/// single step, or a step back, leaves it idle.
pub fn action_after_step(action: EmulatorAction, result: &Result<bool, BrookshearMachineError>) -> (next: EmulatorAction)
    ensures
        next == (if action == EmulatorAction::Continue && result matches Ok(true) {
            EmulatorAction::Continue
        } else {
            EmulatorAction::Idle
        }),
{
    match (action, result) {
        (EmulatorAction::Continue, Ok(true)) => EmulatorAction::Continue,
        _ => EmulatorAction::Idle,
    }
}

/// The program counter as the emulator shows it: two upper-case hexadecimal
/// digits.
pub fn program_counter_text(pc: u8) -> (t: String)
    ensures
        t@ == hex2(pc),
{
    let mut s = String::new();
    push_hex2(&mut s, pc);
    s
}

/// The hexadecimal digits of a text, in order.
pub open spec fn hex_digits_of(s: Seq<char>) -> Seq<char>
    decreases s.len(),
{
    if s.len() == 0 {
        Seq::empty()
    } else if is_hex_char(s.last()) {
        hex_digits_of(s.drop_last()).push(s.last())
    } else {
        hex_digits_of(s.drop_last())
    }
}

/// What the program counter field holds after an edit: the last two of its
/// hexadecimal digits, padded on the left with zeros to two.
pub open spec fn normalized_pc_input(s: Seq<char>) -> Seq<char> {
    let d = hex_digits_of(s);
    if d.len() >= 2 {
        d.subrange(d.len() - 2, d.len() as int)
    } else if d.len() == 1 {
        seq!['0'] + d
    } else {
        seq!['0', '0']
    }
}

/// Cleans up an edit of the program counter field: drops all but
/// hexadecimal digits, keeps the last two, and pads with zeros to two.
pub fn normalize_program_counter_input(buffer: &str) -> (r: String)
    ensures
        r@ == normalized_pc_input(buffer@),
{
    let n = buffer.unicode_len();
    let mut count: usize = 0;
    let mut prev: char = '0';
    let mut last: char = '0';
    let mut k: usize = 0;
    while k < n
        invariant
            n == buffer@.len(),
            k <= n,
            count == (if hex_digits_of(buffer@.take(k as int)).len() >= 2 {
                2
            } else {
                hex_digits_of(buffer@.take(k as int)).len()
            }),
            count >= 1 ==> last == hex_digits_of(buffer@.take(k as int)).last(),
            count >= 2 ==> prev == hex_digits_of(buffer@.take(k as int))[hex_digits_of(buffer@.take(k as int)).len() - 2],
        decreases n - k,
    {
        let c = buffer.get_char(k);
        assert(buffer@.take(k + 1).drop_last() =~= buffer@.take(k as int));
        assert(buffer@.take(k + 1).last() == c);
        if ('0' <= c && c <= '9') || ('a' <= c && c <= 'f') || ('A' <= c && c <= 'F') {
            prev = last;
            last = c;
            if count < 2 {
                count = count + 1;
            }
        }
        k = k + 1;
    }
    assert(buffer@.take(n as int) =~= buffer@);
    let mut s = String::new();
    if count == 0 {
        push_char(&mut s, '0');
        push_char(&mut s, '0');
    } else if count == 1 {
        push_char(&mut s, '0');
        push_char(&mut s, last);
    } else {
        push_char(&mut s, prev);
        push_char(&mut s, last);
    }
    assert(s@ =~= normalized_pc_input(buffer@));
    s
}

/// The value of a hexadecimal digit.
pub open spec fn hex_char_value(c: char) -> nat {
    if '0' <= c <= '9' {
        (c as nat - '0' as nat) as nat
    } else if 'a' <= c <= 'f' {
        (c as nat - 'a' as nat + 10) as nat
    } else {
        (c as nat - 'A' as nat + 10) as nat
    }
}

/// The value of a run of hexadecimal digits.
pub open spec fn hex_value(d: Seq<char>) -> nat
    decreases d.len(),
{
    if d.len() == 0 {
        0
    } else {
        hex_value(d.drop_last()) * 16 + hex_char_value(d.last())
    }
}

/// What follows the optional `+` that may open a number.
pub open spec fn unsigned_digits(s: Seq<char>) -> Seq<char> {
    if s.len() > 0 && s[0] == '+' { s.drop_first() } else { s }
}

/// A text read as a hexadecimal byte: an optional `+`, then one or more
/// hexadecimal digits whose value is below 256.
pub open spec fn hex_byte_value(s: Seq<char>) -> Option<u8> {
    let d = unsigned_digits(s);
    if d.len() > 0 && (forall|i: int| 0 <= i < d.len() ==> is_hex_char(#[trigger] d[i])) && hex_value(d) < 256 {
        Some(hex_value(d) as u8)
    } else {
        None
    }
}

/// A text with a character that is no hexadecimal digit after the optional
/// sign reads as no byte.
proof fn lemma_not_hex_byte(s: Seq<char>, j: int)
    requires
        0 <= j < unsigned_digits(s).len(),
        !is_hex_char(unsigned_digits(s)[j]),
    ensures
        hex_byte_value(s) is None,
{
}

/// Reads a byte in hexadecimal, as `u8::from_str_radix` in base 16 does: an
/// optional `+`, then one or more hexadecimal digits whose value fits in a
/// byte; anything else (whitespace too) is refused.
fn from_str_radix_16(s: &str) -> (r: Option<u8>)
    ensures
        r == hex_byte_value(s@),
{
    let n = s.unicode_len();
    let start: usize = if n > 0 && s.get_char(0) == '+' { 1 } else { 0 };
    let ghost d = unsigned_digits(s@);
    assert(d =~= s@.subrange(start as int, n as int));
    if start == n {
        return None;
    }
    let mut v: u32 = 0;
    let mut over = false;
    let mut k: usize = start;
    while k < n
        invariant
            n == s@.len(),
            start <= k <= n,
            start < n,
            d == s@.subrange(start as int, n as int),
            d == unsigned_digits(s@),
            forall|i: int| start <= i < k ==> is_hex_char(#[trigger] s@[i]),
            !over ==> v == hex_value(s@.subrange(start as int, k as int)) && v < 256,
            over ==> hex_value(s@.subrange(start as int, k as int)) >= 256,
        decreases n - k,
    {
        let c = s.get_char(k);
        let digit: u32 = if '0' <= c && c <= '9' {
            (c as u32) - ('0' as u32)
        } else if 'a' <= c && c <= 'f' {
            (c as u32) - ('a' as u32) + 10
        } else if 'A' <= c && c <= 'F' {
            (c as u32) - ('A' as u32) + 10
        } else {
            proof {
                assert(d[k - start] == c);
                assert(!is_hex_char(d[k - start]));
                lemma_not_hex_byte(s@, k - start);
            }
            return None;
        };
        proof {
            assert(s@.subrange(start as int, k + 1).drop_last() =~= s@.subrange(start as int, k as int));
            assert(digit == hex_char_value(c));
        }
        if !over {
            v = v * 16 + digit;
            if v >= 256 {
                over = true;
            }
        }
        k = k + 1;
    }
    assert(s@.subrange(start as int, n as int) == d);
    assert forall|i: int| 0 <= i < d.len() implies is_hex_char(#[trigger] d[i]) by {
        assert(d[i] == s@[start + i]);
    }
    if over {
        None
    } else {
        Some(v as u8)
    }
}

/// The address typed into an address field, if it is a hexadecimal byte.
pub fn parse_address_input(text: &str) -> (r: Option<u8>)
    ensures
        r == hex_byte_value(text@),
{
    from_str_radix_16(text)
}

/// Confirms the program counter field: where it holds a hexadecimal byte,
/// the program counter is set to it; else nothing changes.
pub fn submit_program_counter_input(machine: &mut BrookshearMachine, buffer: &str) -> (r: Option<u8>)
    ensures
        r == hex_byte_value(buffer@),
        match r {
            Some(v) => final(machine)@ == set_pc_to(old(machine)@, v),
            None => final(machine)@ == old(machine)@,
        },
{
    let r = parse_address_input(buffer);
    if let Some(v) = r {
        machine.set_pc(v);
    }
    r
}

} // verus!
