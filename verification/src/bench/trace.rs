//! Fingerprints of generated tokens.
use vstd::prelude::*;
use vstd::string::*;

verus! {

/// What a fingerprint starts from.
pub const FINGERPRINT_BASIS: u64 = 0xcbf2_9ce4_8422_2325;

/// What a fingerprint is multiplied by after each byte.
pub const FINGERPRINT_PRIME: u64 = 0x0100_0000_01b3;

/// The fingerprint after one more byte.
pub open spec fn mixed(hash: u64, byte: u8) -> u64 {
    (((hash ^ (byte as u64)) * FINGERPRINT_PRIME) % 0x1_0000_0000_0000_0000) as u64
}

/// Byte `i` of a token, lowest first.
pub open spec fn token_byte(token: u32, i: int) -> u8 {
    if i == 0 {
        (token as int % 0x100) as u8
    } else if i == 1 {
        (token as int / 0x100 % 0x100) as u8
    } else if i == 2 {
        (token as int / 0x1_0000 % 0x100) as u8
    } else {
        (token as int / 0x100_0000) as u8
    }
}

/// The fingerprint after one more token.
pub open spec fn mixed_token(hash: u64, token: u32) -> u64 {
    mixed(
        mixed(mixed(mixed(hash, token_byte(token, 0)), token_byte(token, 1)), token_byte(token, 2)),
        token_byte(token, 3),
    )
}

/// The fingerprint of tokens.
pub open spec fn fingerprint(tokens: Seq<u32>) -> u64
    decreases tokens.len(),
{
    if tokens.len() == 0 {
        FINGERPRINT_BASIS
    } else {
        mixed_token(fingerprint(tokens.drop_last()), tokens.last())
    }
}

fn mix(hash: u64, byte: u8) -> (r: u64)
    ensures
        r == mixed(hash, byte),
{
    (hash ^ (byte as u64)).wrapping_mul(FINGERPRINT_PRIME)
}

/// The character of a hexadecimal digit.
pub open spec fn hex_char(d: int) -> char {
    if d < 10 {
        (48 + d) as char
    } else {
        (87 + d) as char
    }
}

/// The last digits of a number, in hexadecimal, with leading zeros.
pub open spec fn hex_digits(n: nat, digits: nat) -> Seq<char>
    decreases digits,
{
    if digits == 0 {
        Seq::empty()
    } else {
        hex_digits(n / 16, (digits - 1) as nat).push(hex_char(n as int % 16))
    }
}

fn push_hex(out: &mut String, n: u64, digits: u8)
    ensures
        final(out)@ == old(out)@ + hex_digits(n as nat, digits as nat),
    decreases digits,
{
    if digits == 0 {
        assert(out@ =~= old(out)@ + hex_digits(n as nat, 0));
        return;
    }
    push_hex(out, n / 16, digits - 1);
    let digit: u8 = (n % 16) as u8;
    let code: u8 = if digit < 10 {
        48 + digit
    } else {
        87 + digit
    };
    out.push(code as char);
    assert(out@ =~= old(out)@ + hex_digits(n as nat, digits as nat));
}

/// The fingerprint of tokens as sixteen hexadecimal digits.
pub fn generated_token_hash(tokens: &[u32]) -> (s: String)
    ensures
        s@ == hex_digits(fingerprint(tokens@) as nat, 16),
{
    let mut hash: u64 = FINGERPRINT_BASIS;
    let mut i: usize = 0;
    assert(tokens@.take(0) =~= Seq::<u32>::empty());
    while i < tokens.len()
        invariant
            i <= tokens.len(),
            hash == fingerprint(tokens@.take(i as int)),
        decreases tokens.len() - i,
    {
        assert(tokens@.take(i as int + 1).drop_last() =~= tokens@.take(i as int));
        let token: u32 = tokens[i];
        let first: u8 = (token % 0x100) as u8;
        let second: u8 = (token / 0x100 % 0x100) as u8;
        let third: u8 = (token / 0x1_0000 % 0x100) as u8;
        let fourth: u8 = (token / 0x100_0000) as u8;
        hash = mix(mix(mix(mix(hash, first), second), third), fourth);
        i = i + 1;
    }
    assert(tokens@.take(i as int) =~= tokens@);
    let mut s = String::new();
    push_hex(&mut s, hash, 16);
    assert(s@ =~= hex_digits(fingerprint(tokens@) as nat, 16));
    s
}

/// What is kept of a generation: its fingerprint, its first tokens and its length.
pub struct GeneratedTokenTrace {
    pub hash: String,
    pub prefix: Vec<u32>,
    pub len: usize,
}

/// Tokens kept of a generation.
pub const TRACE_PREFIX: usize = 16;

pub open spec fn is_trace(trace: GeneratedTokenTrace, tokens: Seq<u32>) -> bool {
    &&& trace.hash@ == hex_digits(fingerprint(tokens) as nat, 16)
    &&& trace.prefix@ == (if tokens.len() <= TRACE_PREFIX {
        tokens
    } else {
        tokens.take(TRACE_PREFIX as int)
    })
    &&& trace.len == tokens.len()
}

pub fn generated_token_trace(tokens: &[u32]) -> (r: GeneratedTokenTrace)
    ensures
        is_trace(r, tokens@),
{
    let mut prefix: Vec<u32> = Vec::new();
    let mut i: usize = 0;
    while i < tokens.len() && i < TRACE_PREFIX
        invariant
            i <= tokens.len(),
            i <= TRACE_PREFIX,
            prefix@ == tokens@.take(i as int),
        decreases tokens.len() - i,
    {
        prefix.push(tokens[i]);
        assert(prefix@ =~= tokens@.take(i as int + 1));
        i = i + 1;
    }
    assert(tokens@.take(tokens@.len() as int) =~= tokens@);
    GeneratedTokenTrace { hash: generated_token_hash(tokens), prefix, len: tokens.len() }
}

/// The bytes of a token, lowest first, make up the token.
pub proof fn lemma_bytes_make_up_the_token(token: u32)
    ensures
        token == token_byte(token, 0) + 0x100 * token_byte(token, 1) + 0x1_0000 * token_byte(
            token,
            2,
        ) + 0x100_0000 * token_byte(token, 3),
{
}

/// The number that a hexadecimal digit stands for.
pub open spec fn hex_digit_value(c: char) -> int {
    if c <= '9' {
        c as int - '0' as int
    } else {
        c as int - 'a' as int + 10
    }
}

/// The number that a text of hexadecimal digits stands for.
pub open spec fn hex_value(text: Seq<char>) -> int
    decreases text.len(),
{
    if text.len() == 0 {
        0
    } else {
        16 * hex_value(text.drop_last()) + hex_digit_value(text.last())
    }
}

proof fn lemma_hex_value(n: nat, digits: nat)
    requires
        n < vstd::arithmetic::power::pow(16, digits),
    ensures
        hex_digits(n, digits).len() == digits,
        hex_value(hex_digits(n, digits)) == n,
    decreases digits,
{
    vstd::arithmetic::power::lemma_pow0(16);
    if digits > 0 {
        let fewer = (digits - 1) as nat;
        assert(vstd::arithmetic::power::pow(16, digits) == 16 * vstd::arithmetic::power::pow(
            16,
            fewer,
        )) by {
            reveal(vstd::arithmetic::power::pow);
        }
        lemma_hex_value(n / 16, fewer);
        assert(hex_digits(n, digits).drop_last() =~= hex_digits(n / 16, fewer));
    }
}

/// A fingerprint's text has sixteen digits and reads back as the fingerprint; so
/// fingerprints that differ have texts that differ.
pub proof fn lemma_hash_text_reads_back(hash: u64)
    ensures
        hex_digits(hash as nat, 16).len() == 16,
        hex_value(hex_digits(hash as nat, 16)) == hash,
{
    assert(vstd::arithmetic::power::pow(16, 16) == 0x1_0000_0000_0000_0000) by {
        reveal(vstd::arithmetic::power::pow);
        reveal_with_fuel(vstd::arithmetic::power::pow, 17);
    }
    lemma_hex_value(hash as nat, 16);
}

/// A fingerprint takes in the tokens one after the other: what was taken in before enters
/// only by its own fingerprint.
pub proof fn lemma_fingerprint_is_a_fold(a: Seq<u32>, b: Seq<u32>, more: Seq<u32>)
    requires
        fingerprint(a) == fingerprint(b),
    ensures
        fingerprint(a + more) == fingerprint(b + more),
    decreases more.len(),
{
    if more.len() == 0 {
        assert(a + more =~= a);
        assert(b + more =~= b);
    } else {
        lemma_fingerprint_is_a_fold(a, b, more.drop_last());
        assert((a + more).drop_last() =~= a + more.drop_last());
        assert((b + more).drop_last() =~= b + more.drop_last());
    }
}

/// A trace keeps the start of a generation, all of it where it is short, and its length.
pub proof fn lemma_trace_keeps_the_start(trace: GeneratedTokenTrace, tokens: Seq<u32>)
    requires
        is_trace(trace, tokens),
    ensures
        trace.prefix@.is_prefix_of(tokens),
        trace.prefix@.len() <= 16,
        trace.prefix@.len() < 16 ==> trace.prefix@ == tokens,
        trace.len == tokens.len(),
        hex_value(trace.hash@) == fingerprint(tokens),
{
    lemma_hash_text_reads_back(fingerprint(tokens));
}

} // verus!
