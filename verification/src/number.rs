//! Addresses as text: how they are written and how they are read.

use crate::text;
use crate::text::{chars_of, trim_padding};
use vstd::prelude::*;
use vstd::string::*;

verus! {

/// The digit of value `d`, in lower case.
pub open spec fn digit_char(d: nat) -> char {
    if d < 10 {
        ('0' as nat + d) as char
    } else {
        ('a' as nat + d - 10) as char
    }
}

/// `n` in base `radix`, without leading zeros.
pub open spec fn digits(n: nat, radix: nat) -> Seq<char>
    decreases n,
{
    if radix < 2 || n < radix {
        seq![digit_char(n)]
    } else {
        proof {
            vstd::arithmetic::div_mod::lemma_div_decreases(n as int, radix as int);
        }
        digits(n / radix, radix).push(digit_char(n % radix))
    }
}

/// An address as it is shown: `0x` and lower-case hexadecimal digits.
pub open spec fn address_text(n: nat) -> Seq<char> {
    "0x"@ + digits(n, 16)
}

/// The value of a digit in base `radix`, whatever its case.
pub open spec fn digit_value(c: char, radix: nat) -> Option<nat> {
    let v: int = if '0' <= c <= '9' {
        c as int - '0' as int
    } else if 'a' <= c <= 'z' {
        c as int - 'a' as int + 10
    } else if 'A' <= c <= 'Z' {
        c as int - 'A' as int + 10
    } else {
        36
    };
    if v < radix {
        Some(v as nat)
    } else {
        None
    }
}

/// The number that a run of digits spells; nothing where a character is no digit.
pub open spec fn digits_value(s: Seq<char>, radix: nat) -> Option<nat>
    decreases s.len(),
{
    if s.len() == 0 {
        Some(0)
    } else {
        match (digits_value(s.drop_last(), radix), digit_value(s.last(), radix)) {
            (Some(high), Some(low)) => Some(high * radix + low),
            _ => None,
        }
    }
}

/// An unsigned 64-bit number: an optional `+`, then digits, and a value that fits.
pub open spec fn unsigned_value(s: Seq<char>, radix: nat) -> Option<u64> {
    let body = if s.len() > 0 && s[0] == '+' {
        s.drop_first()
    } else {
        s
    };
    match digits_value(body, radix) {
        Some(v) if body.len() > 0 && v <= u64::MAX => Some(v as u64),
        _ => None,
    }
}

/// Whether `s` is marked as hexadecimal.
pub open spec fn has_hex_prefix(s: Seq<char>) -> bool {
    s.len() >= 2 && s[0] == '0' && (s[1] == 'x' || s[1] == 'X')
}

/// The address that `s` spells: hexadecimal after `0x` or `0X`, decimal without, with
/// white space around it ignored.
pub open spec fn address_value(s: Seq<char>) -> Option<u64> {
    let t = text::trimmed(s, false);
    if has_hex_prefix(t) {
        unsigned_value(t.skip(2), 16)
    } else {
        unsigned_value(t, 10)
    }
}

/// The digit of value `d` as text.
fn digit_text(d: u64) -> (r: &'static str)
    requires
        d < 16,
    ensures
        r@ == seq![digit_char(d as nat)],
{
    proof {
        reveal_strlit("0");
        reveal_strlit("1");
        reveal_strlit("2");
        reveal_strlit("3");
        reveal_strlit("4");
        reveal_strlit("5");
        reveal_strlit("6");
        reveal_strlit("7");
        reveal_strlit("8");
        reveal_strlit("9");
        reveal_strlit("a");
        reveal_strlit("b");
        reveal_strlit("c");
        reveal_strlit("d");
        reveal_strlit("e");
        reveal_strlit("f");
    }
    match d {
        0 => "0",
        1 => "1",
        2 => "2",
        3 => "3",
        4 => "4",
        5 => "5",
        6 => "6",
        7 => "7",
        8 => "8",
        9 => "9",
        10 => "a",
        11 => "b",
        12 => "c",
        13 => "d",
        14 => "e",
        _ => "f",
    }
}

/// `n` in base `radix`, in lower case and without leading zeros.
pub fn number_text(n: u64, radix: u64) -> (r: String)
    requires
        2 <= radix <= 16,
    ensures
        r@ == digits(n as nat, radix as nat),
    decreases n,
{
    if n < radix {
        digit_text(n).to_owned()
    } else {
        proof {
            vstd::arithmetic::div_mod::lemma_div_decreases(n as int, radix as int);
            vstd::arithmetic::div_mod::lemma_mod_bound(n as int, radix as int);
        }
        let mut r = number_text(n / radix, radix);
        r.append(digit_text(n % radix));
        assert(r@ =~= digits(n as nat, radix as nat));
        r
    }
}

/// An address as it is shown: `0x` and lower-case hexadecimal digits.
pub fn hex_address(n: u64) -> (r: String)
    ensures
        r@ == address_text(n as nat),
{
    let mut r = "0x".to_owned();
    let tail = number_text(n, 16);
    r.append(tail.as_str());
    r
}

/// The value of a digit in base `radix`, whatever its case.
fn digit_of(c: char, radix: u64) -> (r: Option<u64>)
    requires
        2 <= radix <= 16,
    ensures
        match digit_value(c, radix as nat) {
            Some(v) => r == Some(v as u64),
            None => r is None,
        },
{
    let v: u64 = if '0' <= c && c <= '9' {
        c as u64 - '0' as u64
    } else if 'a' <= c && c <= 'z' {
        c as u64 - 'a' as u64 + 10
    } else if 'A' <= c && c <= 'Z' {
        c as u64 - 'A' as u64 + 10
    } else {
        36
    };
    if v < radix {
        Some(v)
    } else {
        None
    }
}

/// A longer run of digits is no smaller, and stays unreadable once it is.
proof fn lemma_prefix_value(s: Seq<char>, radix: nat, k: int)
    requires
        radix >= 2,
        0 <= k <= s.len(),
        digits_value(s, radix) is Some,
    ensures
        digits_value(s.take(k), radix) is Some,
        digits_value(s.take(k), radix)->0 <= digits_value(s, radix)->0,
    decreases s.len() - k,
{
    if k == s.len() {
        assert(s.take(k) =~= s);
    } else {
        lemma_prefix_value(s, radix, k + 1);
        let longer = s.take(k + 1);
        assert(longer.drop_last() =~= s.take(k));
        let high = digits_value(s.take(k), radix)->0;
        assert(high <= high * radix) by (nonlinear_arith)
            requires
                radix >= 2,
        ;
    }
}

/// The unsigned 64-bit number that the characters from `start` on spell: an optional `+`
/// and at least one digit.
fn parse_unsigned(all: &Vec<char>, start: usize, radix: u64) -> (r: Option<u64>)
    requires
        2 <= radix <= 16,
        start <= all.len(),
    ensures
        r == unsigned_value(all@.skip(start as int), radix as nat),
{
    let ghost s = all@.skip(start as int);
    let first: usize = if start < all.len() && all[start] == '+' {
        start + 1
    } else {
        start
    };
    let ghost body = all@.skip(first as int);
    assert(s.len() > 0 && s[0] == '+' ==> body =~= s.drop_first());
    if first == all.len() {
        return None;
    }
    let mut value: u64 = 0;
    let mut i: usize = first;
    assert(body.take(0) =~= Seq::<char>::empty());
    while i < all.len()
        invariant
            2 <= radix <= 16,
            first <= i <= all.len(),
            s == all@.skip(start as int),
            body == all@.skip(first as int),
            body.len() > 0,
            unsigned_value(s, radix as nat) == (match digits_value(body, radix as nat) {
                Some(v) if v <= u64::MAX => Some(v as u64),
                _ => None,
            }),
            digits_value(body.take(i - first), radix as nat) == Some(value as nat),
        decreases all.len() - i,
    {
        let ghost longer = body.take(i - first + 1);
        proof {
            assert(longer.drop_last() =~= body.take(i - first));
            assert(longer.last() == all@[i as int]);
            if digits_value(body, radix as nat) is Some {
                lemma_prefix_value(body, radix as nat, i - first + 1);
            }
        }
        match digit_of(all[i], radix) {
            None => {
                return None;
            },
            Some(d) => {
                match value.checked_mul(radix) {
                    None => {
                        return None;
                    },
                    Some(scaled) => match scaled.checked_add(d) {
                        None => {
                            return None;
                        },
                        Some(next) => {
                            value = next;
                        },
                    },
                }
            },
        }
        i = i + 1;
    }
    assert(body.take(body.len() as int) =~= body);
    Some(value)
}

/// Reads an address: hexadecimal after `0x` or `0X`, decimal without.
pub fn parse_address(s: &str) -> (r: Result<u64, String>)
    ensures
        match address_value(s@) {
            Some(address) => r == Ok::<u64, String>(address),
            None => r is Err && r->Err_0@ == "Invalid address format: "@ + text::trimmed(s@, false),
        },
{
    let t = trim_padding(s, false);
    let all = chars_of(t);
    let value: Option<u64> = if all.len() >= 2 && all[0] == '0' && (all[1] == 'x' || all[1]
        == 'X') {
        parse_unsigned(&all, 2, 16)
    } else {
        assert(all@.skip(0) =~= all@);
        parse_unsigned(&all, 0, 10)
    };
    match value {
        Some(address) => Ok(address),
        None => {
            let mut message = "Invalid address format: ".to_owned();
            message.append(t);
            Err(message)
        },
    }
}

/// Digits are ASCII letters or decimal digits, and read back as the number they write.
proof fn lemma_digits_read_back(n: nat, radix: nat)
    requires
        2 <= radix <= 16,
    ensures
        digits(n, radix).len() > 0,
        digits_value(digits(n, radix), radix) == Some(n),
        forall|i: int|
            0 <= i < digits(n, radix).len() ==> ('0' <= #[trigger] digits(n, radix)[i] <= '9'
                || 'a' <= digits(n, radix)[i] <= 'f'),
    decreases n,
{
    let s = digits(n, radix);
    if n < radix {
        assert(s.drop_last() =~= Seq::<char>::empty());
        assert(digits_value(s.drop_last(), radix) == Some(0nat));
        assert(s.last() == digit_char(n));
        assert(0 * radix + n == n);
    } else {
        vstd::arithmetic::div_mod::lemma_div_decreases(n as int, radix as int);
        vstd::arithmetic::div_mod::lemma_mod_bound(n as int, radix as int);
        vstd::arithmetic::div_mod::lemma_fundamental_div_mod(n as int, radix as int);
        lemma_digits_read_back(n / radix, radix);
        assert(s.drop_last() =~= digits(n / radix, radix));
        assert(s.last() == digit_char(n % radix));
        assert(digit_value(s.last(), radix) == Some(n % radix));
        assert((n / radix) * radix + n % radix == n) by {
            vstd::arithmetic::mul::lemma_mul_is_commutative((n / radix) as int, radix as int);
        }
    }
}

/// `s` in ASCII upper case.
pub open spec fn upper_case(s: Seq<char>) -> Seq<char> {
    s.map_values(
        |c: char|
            if 'a' <= c <= 'z' {
                (c as u32 - 32) as char
            } else {
                c
            },
    )
}

/// The case of digits makes no difference to the number that they spell.
proof fn lemma_upper_case_value(s: Seq<char>, radix: nat)
    ensures
        digits_value(upper_case(s), radix) == digits_value(s, radix),
    decreases s.len(),
{
    if s.len() > 0 {
        assert(upper_case(s).drop_last() =~= upper_case(s.drop_last()));
        lemma_upper_case_value(s.drop_last(), radix);
    }
}

/// White space around a text makes no difference to the address that it spells.
proof fn lemma_spaced_address(before: Seq<char>, s: Seq<char>, after: Seq<char>)
    requires
        forall|i: int| 0 <= i < before.len() ==> text::is_space(#[trigger] before[i]),
        forall|i: int| 0 <= i < after.len() ==> text::is_space(#[trigger] after[i]),
    ensures
        address_value(before + s + after) == address_value(s),
{
    assert forall|i: int| 0 <= i < before.len() implies text::is_padding(
        #[trigger] before[i],
        false,
    ) by {}
    assert forall|i: int| 0 <= i < after.len() implies text::is_padding(
        #[trigger] after[i],
        false,
    ) by {}
    text::padding_is_trimmed(before, s, after, false);
}

/// Hexadecimal digits after a prefix are read as the number that they spell.
proof fn lemma_hex_address(prefix: Seq<char>, body: Seq<char>, n: u64)
    requires
        prefix == seq!['0', 'x'] || prefix == seq!['0', 'X'],
        body.len() > 0,
        digits_value(body, 16) == Some(n as nat),
    ensures
        address_value(prefix + body) == Some(n),
{
    let s = prefix + body;
    assert(s.last() == body.last());
    assert(digit_value(body.last(), 16) is Some);
    assert(s[0] == '0');
    assert(text::trimmed(s, false) == s);
    assert(s.skip(2) =~= body);
    lemma_no_sign(body);
}

/// What spells a number starts with a digit.
proof fn lemma_no_sign(body: Seq<char>)
    requires
        body.len() > 0,
        digits_value(body, 16) is Some,
    ensures
        digit_value(body[0], 16) is Some,
        body[0] != '+',
    decreases body.len(),
{
    if body.len() > 1 {
        lemma_no_sign(body.drop_last());
    }
}

/// Reading an address gives it back however it is written: in hexadecimal after `0x` or `0X`
/// with digits of either case, or in decimal, and with white space around it.
pub proof fn a_written_address_reads_back(n: u64, before: Seq<char>, after: Seq<char>)
    requires
        forall|i: int| 0 <= i < before.len() ==> text::is_space(#[trigger] before[i]),
        forall|i: int| 0 <= i < after.len() ==> text::is_space(#[trigger] after[i]),
    ensures
        ({
            let hex = digits(n as nat, 16);
            let decimal = digits(n as nat, 10);
            &&& address_value(before + ("0x"@ + hex) + after) == Some(n)
            &&& address_value(before + ("0X"@ + hex) + after) == Some(n)
            &&& address_value(before + ("0x"@ + upper_case(hex)) + after) == Some(n)
            &&& address_value(before + ("0X"@ + upper_case(hex)) + after) == Some(n)
            &&& address_value(before + decimal + after) == Some(n)
        }),
{
    reveal_strlit("0x");
    reveal_strlit("0X");
    assert("0x"@ =~= seq!['0', 'x']);
    assert("0X"@ =~= seq!['0', 'X']);
    let hex = digits(n as nat, 16);
    let upper = upper_case(hex);
    lemma_digits_read_back(n as nat, 16);
    lemma_upper_case_value(hex, 16);
    lemma_hex_address("0x"@, hex, n);
    lemma_hex_address("0X"@, hex, n);
    lemma_hex_address("0x"@, upper, n);
    lemma_hex_address("0X"@, upper, n);
    lemma_spaced_address(before, "0x"@ + hex, after);
    lemma_spaced_address(before, "0X"@ + hex, after);
    lemma_spaced_address(before, "0x"@ + upper, after);
    lemma_spaced_address(before, "0X"@ + upper, after);
    let decimal = digits(n as nat, 10);
    lemma_digits_read_back(n as nat, 10);
    assert(text::trimmed(decimal, false) == decimal) by {
        assert(!text::is_space(decimal[0]));
        assert(!text::is_space(decimal.last()));
    }
    assert(!has_hex_prefix(decimal));
    assert(decimal[0] != '+');
    lemma_spaced_address(before, decimal, after);
}

/// Reading an address as it is shown gives the address back.
pub proof fn shown_address_reads_back(n: u64)
    ensures
        address_value(address_text(n as nat)) == Some(n),
{
    let none = Seq::<char>::empty();
    a_written_address_reads_back(n, none, none);
    assert(none + address_text(n as nat) + none =~= address_text(n as nat));
}

/// The value that a character has as a hexadecimal digit, of either case.
pub open spec fn is_hex_digit(c: char, d: nat) -> bool {
    ||| d < 10 && c as nat == '0' as nat + d
    ||| 10 <= d < 16 && c as nat == 'a' as nat + d - 10
    ||| 10 <= d < 16 && c as nat == 'A' as nat + d - 10
}

proof fn lemma_not_trimmed(s: Seq<char>)
    requires
        s.len() > 0,
        !text::is_space(s[0]),
        !text::is_space(s.last()),
    ensures
        text::trimmed(s, false) == s,
{
}

/// After `0x` a digit more multiplies what was read by 16 and adds the digit, as long as the
/// result fits 64 bits; nothing is read where it does not, or where the character is no digit.
pub proof fn a_hexadecimal_digit_more_counts_sixteenfold(body: Seq<char>, v: u64, c: char, d: nat)
    requires
        body.len() > 0 && !text::is_space(body.last()),
        address_value(seq!['0', 'x'] + body) == Some(v),
        !text::is_space(c),
    ensures
        is_hex_digit(c, d) ==> address_value(seq!['0', 'x'] + body.push(c)) == if v * 16 + d
            <= u64::MAX {
            Some((v * 16 + d) as u64)
        } else {
            None
        },
        (forall|e: nat| !#[trigger] is_hex_digit(c, e)) ==> address_value(
            seq!['0', 'x'] + body.push(c),
        ) is None,
{
    let s = seq!['0', 'x'] + body;
    let t = seq!['0', 'x'] + body.push(c);
    assert(s[0] == '0' && t[0] == '0');
    assert(s.last() == body.last() && t.last() == c);
    lemma_not_trimmed(s);
    lemma_not_trimmed(t);
    assert(s.skip(2) =~= body);
    assert(t.skip(2) =~= body.push(c));
    if body[0] == '+' {
        assert(body.push(c).drop_first() =~= body.drop_first().push(c));
        assert(body.drop_first().push(c).drop_last() =~= body.drop_first());
    } else {
        assert(body.push(c).drop_last() =~= body);
    }
    if forall|e: nat| !#[trigger] is_hex_digit(c, e) {
        if digit_value(c, 16) is Some {
            assert(is_hex_digit(c, digit_value(c, 16)->0));
        }
    }
}

/// Without a prefix a digit more multiplies what was read by 10 and adds the digit, as long as
/// the result fits 64 bits; nothing is read where it does not, or where the character is no digit.
pub proof fn a_decimal_digit_more_counts_tenfold(body: Seq<char>, v: u64, c: char, d: nat)
    requires
        body.len() > 0 && !text::is_space(body[0]) && !text::is_space(body.last()),
        !has_hex_prefix(body),
        address_value(body) == Some(v),
        !text::is_space(c),
    ensures
        d < 10 && c as nat == '0' as nat + d ==> address_value(body.push(c)) == if v * 10 + d
            <= u64::MAX {
            Some((v * 10 + d) as u64)
        } else {
            None
        },
        !('0' <= c <= '9') ==> address_value(body.push(c)) is None,
{
    let t = body.push(c);
    lemma_not_trimmed(body);
    assert(t[0] == body[0]);
    lemma_not_trimmed(t);
    if body[0] == '+' {
        assert(t.drop_first() =~= body.drop_first().push(c));
        assert(body.drop_first().push(c).drop_last() =~= body.drop_first());
    } else {
        assert(t.drop_last() =~= body);
    }
    if has_hex_prefix(t) {
        assert(t.skip(2) =~= Seq::<char>::empty());
    }
}

/// One digit spells itself, with a `+` before it or without, in decimal and after `0x`; no digit
/// spells nothing.
pub proof fn one_digit_spells_itself(c: char, d: nat)
    ensures
        d < 10 && c as nat == '0' as nat + d ==> address_value(seq![c]) == Some(d as u64)
            && address_value(seq!['+', c]) == Some(d as u64),
        is_hex_digit(c, d) ==> address_value(seq!['0', 'x', c]) == Some(d as u64)
            && address_value(seq!['0', 'X', c]) == Some(d as u64) && address_value(
            seq!['0', 'x', '+', c],
        ) == Some(d as u64),
        address_value(Seq::empty()) is None,
        address_value(seq!['+']) is None,
        address_value(seq!['0', 'x']) is None,
{
    lemma_one_digit(seq![c], 10);
    lemma_one_digit(seq![c], 16);
    let none = Seq::<char>::empty();
    assert(seq!['+', c].drop_first() =~= seq![c]);
    assert(seq!['0', 'x', c].skip(2) =~= seq![c]);
    assert(seq!['0', 'X', c].skip(2) =~= seq![c]);
    assert(seq!['0', 'x', '+', c].skip(2) =~= seq!['+', c]);
    assert(seq!['+'].drop_first() =~= none);
    assert(seq!['0', 'x'].skip(2) =~= none);
    assert(text::trimmed(none, false) == none);
    lemma_not_trimmed(seq!['+']);
    lemma_not_trimmed(seq!['0', 'x']);
    if is_hex_digit(c, d) {
        assert(!text::is_space(c));
        lemma_not_trimmed(seq![c]);
        lemma_not_trimmed(seq!['+', c]);
        lemma_not_trimmed(seq!['0', 'x', c]);
        lemma_not_trimmed(seq!['0', 'X', c]);
        lemma_not_trimmed(seq!['0', 'x', '+', c]);
    }
}

proof fn lemma_one_digit(s: Seq<char>, radix: nat)
    requires
        s.len() == 1,
    ensures
        digits_value(s, radix) == digit_value(s[0], radix),
{
    assert(s.drop_last() =~= Seq::<char>::empty());
    assert(digits_value(s.drop_last(), radix) == Some(0nat));
    assert(0 * radix == 0);
}

proof fn lemma_digits_are_short(n: nat, radix: nat)
    requires
        2 <= radix <= 16,
    ensures
        n > 0 ==> digits(n, radix)[0] != '0',
        n == 0 ==> digits(n, radix) == seq!['0'],
    decreases n,
{
    if n >= radix {
        vstd::arithmetic::div_mod::lemma_div_decreases(n as int, radix as int);
        vstd::arithmetic::div_mod::lemma_fundamental_div_mod(n as int, radix as int);
        vstd::arithmetic::div_mod::lemma_mod_bound(n as int, radix as int);
        assert(n / radix > 0) by (nonlinear_arith)
            requires
                n >= radix,
                radix >= 2,
        ;
        lemma_digits_read_back(n / radix, radix);
        lemma_digits_are_short(n / radix, radix);
    }
}

/// An address is shown as `0x` and lower-case hexadecimal digits, without leading zeros.
pub proof fn an_address_is_shown_in_lower_case(n: u64)
    ensures
        ({
            let shown = address_text(n as nat);
            &&& shown.len() > 2 && shown[0] == '0' && shown[1] == 'x'
            &&& forall|i: int|
                2 <= i < shown.len() ==> '0' <= #[trigger] shown[i] <= '9' || 'a' <= shown[i]
                    <= 'f'
            &&& n > 0 ==> shown[2] != '0'
            &&& n == 0 ==> shown.len() == 3
        }),
{
    reveal_strlit("0x");
    lemma_digits_read_back(n as nat, 16);
    lemma_digits_are_short(n as nat, 16);
    let digits = digits(n as nat, 16);
    let shown = address_text(n as nat);
    assert forall|i: int| 2 <= i < shown.len() implies '0' <= #[trigger] shown[i] <= '9' || 'a'
        <= shown[i] <= 'f' by {
        assert(shown[i] == digits[i - 2]);
    }
}

} // verus!
