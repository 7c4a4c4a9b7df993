//! Base-62 encoding of identifiers.
use vstd::prelude::*;
use vstd::arithmetic::div_mod::lemma_fundamental_div_mod;

verus! {

/// Number of symbols in the alias alphabet.
pub const RADIX: u64 = 62;

/// The symbol for digit `d`: `0-9`, then `A-Z`, then `a-z`.
pub open spec fn digit(d: nat) -> char {
    if d < 10 {
        (d + 48) as char
    } else if d < 36 {
        (d + 55) as char
    } else {
        (d + 61) as char
    }
}

/// The digit that symbol `c` stands for (meaningful on the alphabet only).
pub open spec fn digit_value(c: char) -> int {
    if c <= '9' {
        c as int - 48
    } else if c <= 'Z' {
        c as int - 55
    } else {
        c as int - 61
    }
}

/// The alias of `n`: its base-62 digits, most significant first, with no
/// leading zero symbol except for `n == 0` itself.
pub open spec fn encode(n: nat) -> Seq<char>
    decreases n,
{
    if n < 62 {
        seq![digit(n)]
    } else {
        encode(n / 62).push(digit(n % 62))
    }
}

/// The number that an alias written in the alphabet stands for.
pub open spec fn decode(s: Seq<char>) -> int
    decreases s.len(),
{
    if s.len() == 0 {
        0
    } else {
        decode(s.drop_last()) * 62 + digit_value(s.last())
    }
}

proof fn lemma_digit_value(d: nat)
    requires
        d < 62,
    ensures
        digit_value(digit(d)) == d,
{
}

/// Decoding an alias gives back the identifier it was made from.
pub proof fn lemma_decode_encode(n: nat)
    ensures
        decode(encode(n)) == n,
    decreases n,
{
    let s = encode(n);
    if n < 62 {
        lemma_digit_value(n);
        assert(s.drop_last() =~= Seq::<char>::empty());
        assert(decode(s.drop_last()) == 0);
        assert(s.last() == digit(n));
    } else {
        lemma_decode_encode(n / 62);
        lemma_digit_value(n % 62);
        assert(s.drop_last() =~= encode(n / 62));
        assert(s.last() == digit(n % 62));
        lemma_fundamental_div_mod(n as int, 62);
    }
    assert(decode(s) == decode(s.drop_last()) * 62 + digit_value(s.last()));
}

/// Encoding is deterministic: equal identifiers give equal aliases.
pub proof fn lemma_encode_deterministic(a: nat, b: nat)
    requires
        a == b,
    ensures
        encode(a) == encode(b),
{
}

/// Encoding is injective: distinct identifiers never share an alias.
pub proof fn lemma_encode_injective(a: nat, b: nat)
    requires
        a != b,
    ensures
        encode(a) != encode(b),
{
    lemma_decode_encode(a);
    lemma_decode_encode(b);
}

/// The alias of a positive identifier never starts with the zero symbol.
pub proof fn lemma_no_leading_zero(n: nat)
    requires
        n > 0,
    ensures
        encode(n).len() > 0,
        encode(n)[0] != '0',
    decreases n,
{
    if n >= 62 {
        lemma_no_leading_zero(n / 62);
        assert(encode(n)[0] == encode(n / 62)[0]);
    }
}

/// `s` read backwards.
pub open spec fn reversed(s: Seq<char>) -> Seq<char> {
    Seq::new(s.len(), |i: int| s[s.len() - 1 - i])
}

/// Relies on `String::push`: the character is appended at the end.
#[verifier::external_body]
fn push_char(s: &mut String, c: char)
    ensures
        final(s)@ == old(s)@.push(c),
{
    s.push(c)
}

fn digit_char(d: u64) -> (c: char)
    requires
        d < 62,
    ensures
        c == digit(d as nat),
{
    if d < 10 {
        ((d as u8) + 48) as char
    } else if d < 36 {
        ((d as u8) + 55) as char
    } else {
        ((d as u8) + 61) as char
    }
}

/// The base-62 alias of `val`.
pub fn to_base62(val: &u64) -> (r: String)
    ensures
        r@ == encode(*val as nat),
{
    let mut digits: Vec<char> = Vec::new();
    let mut n: u64 = *val;
    loop
        invariant_except_break
            encode(*val as nat) == encode(n as nat) + reversed(digits@),
        ensures
            encode(*val as nat) == reversed(digits@),
        decreases n,
    {
        let d = digit_char(n % RADIX);
        let ghost before = digits@;
        digits.push(d);
        assert(reversed(digits@) =~= seq![d] + reversed(before));
        if n < RADIX {
            assert(encode(*val as nat) =~= reversed(digits@));
            break;
        }
        assert(encode(n as nat) =~= encode((n / RADIX) as nat) + seq![d]);
        n = n / RADIX;
    }
    let mut result = String::new();
    let mut i: usize = digits.len();
    while i > 0
        invariant
            i <= digits@.len(),
            result@ =~= reversed(digits@).subrange(0, digits@.len() - i),
        decreases i,
    {
        i = i - 1;
        push_char(&mut result, digits[i]);
    }
    assert(result@ =~= reversed(digits@));
    result
}

} // verus!
