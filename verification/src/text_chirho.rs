//! Building text: decimal numerals and string pieces.

use vstd::prelude::*;
use vstd::std_specs::iter::IteratorSpec;
use vstd::string::StringExecFns;

verus! {

/// The character of a decimal digit.
pub open spec fn digit_char_chirho(d: nat) -> char {
    if d == 0 {
        '0'
    } else if d == 1 {
        '1'
    } else if d == 2 {
        '2'
    } else if d == 3 {
        '3'
    } else if d == 4 {
        '4'
    } else if d == 5 {
        '5'
    } else if d == 6 {
        '6'
    } else if d == 7 {
        '7'
    } else if d == 8 {
        '8'
    } else {
        '9'
    }
}

/// The decimal numeral of `n`, without leading zeros.
pub open spec fn decimal_chirho(n: nat) -> Seq<char>
    decreases n,
{
    if n < 10 {
        seq![digit_char_chirho(n)]
    } else {
        decimal_chirho(n / 10).push(digit_char_chirho(n % 10))
    }
}

/// Appends one character to a string.
///
/// Calls `String::push`, which the standard library documents as appending
/// the character to the end of the string.
#[verifier::external_body]
pub(crate) fn push_char_chirho(s: &mut String, c: char)
    ensures
        final(s)@ == old(s)@.push(c),
{
    s.push(c);
}

/// Appends a string slice to a string.
pub(crate) fn push_str_chirho(s: &mut String, t: &str)
    ensures
        final(s)@ == old(s)@ + t@,
{
    s.append(t);
}

/// The character of a decimal digit.
fn digit_char_exec_chirho(d: u64) -> (c: char)
    requires
        d < 10,
    ensures
        c == digit_char_chirho(d as nat),
{
    if d == 0 {
        '0'
    } else if d == 1 {
        '1'
    } else if d == 2 {
        '2'
    } else if d == 3 {
        '3'
    } else if d == 4 {
        '4'
    } else if d == 5 {
        '5'
    } else if d == 6 {
        '6'
    } else if d == 7 {
        '7'
    } else if d == 8 {
        '8'
    } else {
        '9'
    }
}

/// Appends the decimal numeral of `n`.
pub(crate) fn push_decimal_chirho(s: &mut String, n: u64)
    ensures
        final(s)@ == old(s)@ + decimal_chirho(n as nat),
    decreases n,
{
    if n >= 10 {
        push_decimal_chirho(s, n / 10);
    }
    let ghost mid = s@;
    push_char_chirho(s, digit_char_exec_chirho(n % 10));
    proof {
        if n >= 10 {
            assert(s@ =~= old(s)@ + decimal_chirho(n as nat));
        } else {
            assert(s@ =~= old(s)@ + decimal_chirho(n as nat));
        }
    }
}

/// The text of an integer as Rust prints it: a minus sign before the
/// digits of a negative number.
pub open spec fn int_text_chirho(i: int) -> Seq<char> {
    if i < 0 {
        seq!['-'] + decimal_chirho((-i) as nat)
    } else {
        decimal_chirho(i as nat)
    }
}

/// Appends the text of a signed integer.
pub(crate) fn push_int_chirho(s: &mut String, v: i64)
    ensures
        final(s)@ == old(s)@ + int_text_chirho(v as int),
{
    if v < 0 {
        push_char_chirho(s, '-');
        let magnitude: u64 = if v == i64::MIN { 9223372036854775808u64 } else { (-v) as u64 };
        push_decimal_chirho(s, magnitude);
        assert(s@ =~= old(s)@ + int_text_chirho(v as int));
    } else {
        push_decimal_chirho(s, v as u64);
    }
}

/// The text that stands for character `c` inside a JSON string: a
/// backslash, quote, newline, carriage return or tab is escaped.
pub open spec fn escape_char_chirho(c: char) -> Seq<char> {
    if c == '\\' {
        seq!['\\', '\\']
    } else if c == '"' {
        seq!['\\', '"']
    } else if c == '\n' {
        seq!['\\', 'n']
    } else if c == '\r' {
        seq!['\\', 'r']
    } else if c == '\t' {
        seq!['\\', 't']
    } else {
        seq![c]
    }
}

/// `s` escaped for use inside a JSON string.
pub open spec fn escape_json_spec_chirho(s: Seq<char>) -> Seq<char>
    decreases s.len(),
{
    if s.len() == 0 {
        Seq::empty()
    } else {
        escape_json_spec_chirho(s.drop_last()) + escape_char_chirho(s.last())
    }
}

/// The parts joined with `sep` between each two.
pub open spec fn join_chirho(parts: Seq<Seq<char>>, sep: Seq<char>) -> Seq<char>
    decreases parts.len(),
{
    if parts.len() == 0 {
        Seq::empty()
    } else if parts.len() == 1 {
        parts[0]
    } else {
        join_chirho(parts.drop_last(), sep) + sep + parts.last()
    }
}

/// Appends `t` escaped for use inside a JSON string.
pub(crate) fn push_escaped_chirho(s: &mut String, t: &str)
    ensures
        final(s)@ == old(s)@ + escape_json_spec_chirho(t@),
{
    broadcast use vstd::string::axiom_spec_iter;
    let ghost start = s@;
    for c in it: t.chars()
        invariant
            it.seq() == t@,
            s@ == start + escape_json_spec_chirho(t@.take(it.index())),
    {
        let ghost i = it.index();
        assert(t@.take(i + 1).drop_last() =~= t@.take(i));
        if c == '\\' {
            push_char_chirho(s, '\\');
            push_char_chirho(s, '\\');
        } else if c == '"' {
            push_char_chirho(s, '\\');
            push_char_chirho(s, '"');
        } else if c == '\n' {
            push_char_chirho(s, '\\');
            push_char_chirho(s, 'n');
        } else if c == '\r' {
            push_char_chirho(s, '\\');
            push_char_chirho(s, 'r');
        } else if c == '\t' {
            push_char_chirho(s, '\\');
            push_char_chirho(s, 't');
        } else {
            push_char_chirho(s, c);
        }
        assert(s@ =~= start + escape_json_spec_chirho(t@.take(i + 1)));
    }
    assert(t@.take(t@.len() as int) =~= t@);
}

/// Escapes a string for use inside a JSON string: backslash, quote,
/// newline, carriage return and tab.
pub fn escape_json_chirho(s_chirho: &str) -> (r: String)
    ensures
        r@ == escape_json_spec_chirho(s_chirho@),
{
    let mut r = String::new();
    push_escaped_chirho(&mut r, s_chirho);
    assert(r@ =~= escape_json_spec_chirho(s_chirho@));
    r
}

/// The character of a hexadecimal digit, lower case.
pub open spec fn hex_digit_chirho(d: nat) -> char {
    if d < 10 {
        digit_char_chirho(d)
    } else if d == 10 {
        'a'
    } else if d == 11 {
        'b'
    } else if d == 12 {
        'c'
    } else if d == 13 {
        'd'
    } else if d == 14 {
        'e'
    } else {
        'f'
    }
}

/// The lower-case hexadecimal numeral of `n`, without leading zeros.
pub open spec fn hex_chirho(n: nat) -> Seq<char>
    decreases n,
{
    if n < 16 {
        seq![hex_digit_chirho(n)]
    } else {
        hex_chirho(n / 16).push(hex_digit_chirho(n % 16))
    }
}

/// The character of a hexadecimal digit.
fn hex_digit_exec_chirho(d: u64) -> (c: char)
    requires
        d < 16,
    ensures
        c == hex_digit_chirho(d as nat),
{
    if d < 10 {
        digit_char_exec_chirho(d)
    } else if d == 10 {
        'a'
    } else if d == 11 {
        'b'
    } else if d == 12 {
        'c'
    } else if d == 13 {
        'd'
    } else if d == 14 {
        'e'
    } else {
        'f'
    }
}

/// Appends the lower-case hexadecimal numeral of `n`.
pub(crate) fn push_hex_chirho(s: &mut String, n: u64)
    ensures
        final(s)@ == old(s)@ + hex_chirho(n as nat),
    decreases n,
{
    if n >= 16 {
        push_hex_chirho(s, n / 16);
    }
    push_char_chirho(s, hex_digit_exec_chirho(n % 16));
    assert(s@ =~= old(s)@ + hex_chirho(n as nat));
}

} // verus!
