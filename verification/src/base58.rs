//! Base58 in the Bitcoin alphabet, the text form of addresses and signatures.
use vstd::prelude::*;

verus! {

/// The character of a digit below 58. The digit zero and the letters that are easily taken
/// for another are left out.
pub open spec fn base58_digit(d: nat) -> char {
    if d < 9 {
        ('1' as int + d) as char
    } else if d < 17 {
        ('A' as int + (d - 9)) as char
    } else if d < 22 {
        ('J' as int + (d - 17)) as char
    } else if d < 33 {
        ('P' as int + (d - 22)) as char
    } else if d < 44 {
        ('a' as int + (d - 33)) as char
    } else {
        ('m' as int + (d - 44)) as char
    }
}

/// A number in base 58, the highest digit first; nothing for zero.
pub open spec fn base58_digits(n: nat) -> Seq<char>
    decreases n,
{
    if n == 0 {
        Seq::empty()
    } else {
        base58_digits(n / 58).push(base58_digit(n % 58))
    }
}

/// The number that some bytes spell, the highest byte first.
pub open spec fn big_endian(bytes: Seq<u8>) -> nat
    decreases bytes.len(),
{
    if bytes.len() == 0 {
        0
    } else {
        big_endian(bytes.drop_last()) * 256 + bytes.last() as nat
    }
}

/// The base58 text of some bytes: a `1` for each leading zero byte, then the number that the
/// bytes spell.
pub open spec fn base58(bytes: Seq<u8>) -> Seq<char>
    decreases bytes.len(),
{
    if bytes.len() > 0 && bytes[0] == 0 {
        seq!['1'] + base58(bytes.skip(1))
    } else {
        base58_digits(big_endian(bytes))
    }
}

/// Calls `bs58::encode` and `into_string`: base58 in the Bitcoin alphabet.
#[verifier::external_body]
pub(crate) fn encode_base58(bytes: &[u8]) -> (r: String)
    ensures
        r@ == base58(bytes@),
{
    bs58::encode(bytes).into_string()
}

proof fn lemma_digit_chars(d: nat, e: nat)
    requires
        d < 58,
        e < 58,
        base58_digit(d) == base58_digit(e),
    ensures
        d == e,
{
    assert(base58_digit(d) as int == base58_digit(e) as int);
}

/// A number's text does not start with the digit zero.
proof fn lemma_digits_lead(n: nat)
    requires
        n > 0,
    ensures
        base58_digits(n).len() > 0,
        base58_digits(n)[0] != '1',
    decreases n,
{
    if n < 58 {
        assert(base58_digits(n / 58) =~= Seq::<char>::empty());
        if base58_digit(n) == base58_digit(0) {
            lemma_digit_chars(n, 0);
        }
        assert(n % 58 == n);
    } else {
        lemma_digits_lead(n / 58);
    }
}

proof fn lemma_digits_injective(n: nat, m: nat)
    requires
        base58_digits(n) == base58_digits(m),
    ensures
        n == m,
    decreases n,
{
    if n == 0 {
        if m > 0 {
            lemma_digits_lead(m);
        }
    } else if m == 0 {
        lemma_digits_lead(n);
    } else {
        assert(base58_digits(n).last() == base58_digit(n % 58));
        assert(base58_digits(m).last() == base58_digit(m % 58));
        lemma_digit_chars(n % 58, m % 58);
        assert(base58_digits(n).drop_last() =~= base58_digits(n / 58));
        assert(base58_digits(m).drop_last() =~= base58_digits(m / 58));
        lemma_digits_injective(n / 58, m / 58);
    }
}

proof fn lemma_positive(bytes: Seq<u8>)
    requires
        bytes.len() > 0,
        bytes[0] != 0,
    ensures
        big_endian(bytes) > 0,
    decreases bytes.len(),
{
    if bytes.len() > 1 {
        lemma_positive(bytes.drop_last());
    }
}

proof fn lemma_big_endian_injective(a: Seq<u8>, b: Seq<u8>)
    requires
        a.len() > 0 ==> a[0] != 0,
        b.len() > 0 ==> b[0] != 0,
        big_endian(a) == big_endian(b),
    ensures
        a == b,
    decreases a.len(),
{
    if a.len() == 0 {
        if b.len() > 0 {
            lemma_positive(b);
        }
        assert(a =~= b);
    } else if b.len() == 0 {
        lemma_positive(a);
    } else {
        lemma_big_endian_injective(a.drop_last(), b.drop_last());
        assert(a =~= a.drop_last().push(a.last()));
        assert(b =~= b.drop_last().push(b.last()));
    }
}

/// Different bytes have different base58 texts, so a text stands for one value only.
pub proof fn base58_is_unambiguous(a: Seq<u8>, b: Seq<u8>)
    requires
        base58(a) == base58(b),
    ensures
        a == b,
    decreases a.len(),
{
    let za = a.len() > 0 && a[0] == 0;
    let zb = b.len() > 0 && b[0] == 0;
    if za && zb {
        assert(base58(a).skip(1) =~= base58(a.skip(1)));
        assert(base58(b).skip(1) =~= base58(b.skip(1)));
        base58_is_unambiguous(a.skip(1), b.skip(1));
        assert(a =~= seq![0u8] + a.skip(1));
        assert(b =~= seq![0u8] + b.skip(1));
    } else if za {
        assert(base58(a)[0] == '1');
        if big_endian(b) > 0 {
            lemma_digits_lead(big_endian(b));
        }
    } else if zb {
        assert(base58(b)[0] == '1');
        if big_endian(a) > 0 {
            lemma_digits_lead(big_endian(a));
        }
    } else {
        lemma_digits_injective(big_endian(a), big_endian(b));
        lemma_big_endian_injective(a, b);
    }
}

// ---- reading -------------------------------------------------------------

/// The digit that a character stands for.
pub open spec fn base58_digit_of(c: char) -> Option<nat> {
    let n = c as int;
    if '1' as int <= n <= '9' as int {
        Some((n - '1' as int) as nat)
    } else if 'A' as int <= n <= 'H' as int {
        Some((n - 'A' as int + 9) as nat)
    } else if 'J' as int <= n <= 'N' as int {
        Some((n - 'J' as int + 17) as nat)
    } else if 'P' as int <= n <= 'Z' as int {
        Some((n - 'P' as int + 22) as nat)
    } else if 'a' as int <= n <= 'k' as int {
        Some((n - 'a' as int + 33) as nat)
    } else if 'm' as int <= n <= 'z' as int {
        Some((n - 'm' as int + 44) as nat)
    } else {
        None
    }
}

/// The number that the first `n` characters of a text spell, if all of them are digits.
pub open spec fn base58_value(text: Seq<char>, n: nat) -> Option<nat>
    decreases n,
{
    if n == 0 {
        Some(0)
    } else {
        match (base58_value(text, (n - 1) as nat), base58_digit_of(text[n - 1])) {
            (Some(high), Some(d)) => Some(high * 58 + d),
            _ => None,
        }
    }
}

/// How many numbers `len` bytes can spell.
pub open spec fn span(len: nat) -> nat
    decreases len,
{
    if len == 0 {
        1
    } else {
        256 * span((len - 1) as nat)
    }
}

proof fn lemma_digit_of(c: char)
    requires
        base58_digit_of(c) is Some,
    ensures
        base58_digit_of(c)->0 < 58,
        base58_digit(base58_digit_of(c)->0) == c,
        base58_digit_of(c)->0 == 0 ==> c == '1',
{
}

/// The digits of the number that a text spells are the text, where it does not start with the
/// digit zero.
pub proof fn lemma_digits_of_value(text: Seq<char>, n: nat)
    requires
        n <= text.len(),
        base58_value(text, n) is Some,
        text.len() > 0,
        text[0] != '1',
    ensures
        base58_digits(base58_value(text, n)->0) == text.take(n as int),
        n > 0 ==> base58_value(text, n)->0 > 0,
    decreases n,
{
    if n == 0 {
        assert(text.take(0) =~= Seq::<char>::empty());
    } else {
        lemma_digits_of_value(text, (n - 1) as nat);
        lemma_digit_of(text[n - 1]);
        let high = base58_value(text, (n - 1) as nat)->0;
        let d = base58_digit_of(text[n - 1])->0;
        assert((high * 58 + d) / 58 == high && (high * 58 + d) % 58 == d);
        assert(text.take(n as int) =~= text.take(n - 1).push(text[n - 1]));
    }
}

/// A number that needs exactly `len` bytes is spelled by such bytes.
pub proof fn lemma_bytes_of(n: nat, len: nat) -> (key: Seq<u8>)
    requires
        n < span(len),
        len > 0 ==> n >= span((len - 1) as nat),
    ensures
        key.len() == len,
        big_endian(key) == n,
        len > 0 ==> key[0] != 0,
    decreases len,
{
    if len == 0 {
        Seq::empty()
    } else {
        if len > 1 {
            assert(span((len - 1) as nat) == 256 * span((len - 2) as nat));
        }
        let high = lemma_bytes_of(n / 256, (len - 1) as nat);
        let key = high.push((n % 256) as u8);
        assert(key.drop_last() =~= high);
        key
    }
}

} // verus!
