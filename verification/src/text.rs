//! Text building blocks shared by the output formats: upper-case hexadecimal
//! and decimal renderings of integers, as specifications and as verified code.

use vstd::prelude::*;

verus! {

/// `String::push` appends exactly one character at the end of the string.
pub assume_specification[ String::push ](s: &mut String, ch: char)
    ensures
        final(s)@ == old(s)@.push(ch),
;

/// The upper-case hexadecimal digit for a value below 16.
pub open spec fn hex_digit(n: int) -> char
    recommends
        0 <= n < 16,
{
    if n < 10 {
        (48 + n) as char
    } else {
        (55 + n) as char
    }
}

/// The two upper-case hexadecimal digits of a byte (`{:02X}`).
pub open spec fn hex_byte(b: u8) -> Seq<char> {
    seq![hex_digit(b as int / 16), hex_digit(b as int % 16)]
}

/// The bytes of `s`, each as two upper-case hexadecimal digits, in order.
pub open spec fn hex_bytes(s: Seq<u8>) -> Seq<char>
    decreases s.len(),
{
    if s.len() == 0 {
        Seq::empty()
    } else {
        hex_bytes(s.drop_last()) + hex_byte(s.last())
    }
}

/// The last `k` hexadecimal digits of `n`, most significant first.
pub open spec fn hex_fixed(n: nat, k: nat) -> Seq<char>
    decreases k,
{
    if k == 0 {
        Seq::empty()
    } else {
        hex_fixed(n / 16, (k - 1) as nat).push(hex_digit((n % 16) as int))
    }
}

/// How many hexadecimal digits `n` has without leading zeros (at least one).
pub open spec fn hex_len(n: nat) -> nat
    decreases n,
{
    if n < 16 {
        1
    } else {
        1 + hex_len(n / 16)
    }
}

/// `n` in upper-case hexadecimal, left-padded with zeros to at least `width`
/// digits (`{:0width$X}`).
pub open spec fn hex_padded(n: nat, width: nat) -> Seq<char> {
    hex_fixed(n, if hex_len(n) < width { width } else { hex_len(n) })
}

/// The decimal digit character for a value below 10.
pub open spec fn dec_digit(n: int) -> char
    recommends
        0 <= n < 10,
{
    (48 + n) as char
}

/// The last `k` decimal digits of `n`, most significant first.
pub open spec fn dec_fixed(n: nat, k: nat) -> Seq<char>
    decreases k,
{
    if k == 0 {
        Seq::empty()
    } else {
        dec_fixed(n / 10, (k - 1) as nat).push(dec_digit((n % 10) as int))
    }
}

/// How many decimal digits `n` has without leading zeros (at least one).
pub open spec fn dec_len(n: nat) -> nat
    decreases n,
{
    if n < 10 {
        1
    } else {
        1 + dec_len(n / 10)
    }
}

/// `n` in decimal without leading zeros (`{}` of an unsigned integer).
pub open spec fn dec_nat(n: nat) -> Seq<char> {
    dec_fixed(n, dec_len(n))
}

/// `n` in decimal, left-padded with zeros to at least `width` digits.
pub open spec fn dec_padded(n: nat, width: nat) -> Seq<char> {
    dec_fixed(n, if dec_len(n) < width { width } else { dec_len(n) })
}

/// `v` in decimal with a leading `-` when negative (`{}` of a signed integer).
pub open spec fn dec_int(v: int) -> Seq<char> {
    if v < 0 {
        seq!['-'] + dec_nat((-v) as nat)
    } else {
        dec_nat(v as nat)
    }
}

/// A fixed-point value `v / 10^places` with exactly `places` fractional
/// digits (`{:.places$}` of the value it stands for).
pub open spec fn fixed_point(v: int, places: nat) -> Seq<char>
    recommends
        places > 0,
{
    let m: nat = if v < 0 { (-v) as nat } else { v as nat };
    let unit = pow10(places);
    (if v < 0 { seq!['-'] } else { Seq::empty() }) + dec_nat(m / unit) + seq!['.'] + dec_fixed(m % unit, places)
}

/// The character for a hexadecimal digit.
pub fn hex_digit_char(n: u8) -> (c: char)
    requires
        n < 16,
    ensures
        c == hex_digit(n as int),
{
    if n < 10 {
        (48u8 + n) as char
    } else {
        (55u8 + n) as char
    }
}

/// Appends `{:02X}` of every byte of `data` to `out`.
pub fn push_hex_bytes(out: &mut String, data: &[u8])
    ensures
        final(out)@ == old(out)@ + hex_bytes(data@),
{
    let ghost start = out@;
    let mut i: usize = 0;
    while i < data.len()
        invariant
            i <= data.len(),
            out@ == start + hex_bytes(data@.take(i as int)),
        decreases data.len() - i,
    {
        let b = data[i];
        out.push(hex_digit_char(b / 16));
        out.push(hex_digit_char(b % 16));
        proof {
            assert(data@.take(i + 1).drop_last() =~= data@.take(i as int));
            assert(data@.take(i + 1).last() == b);
        }
        i = i + 1;
    }
    assert(data@.take(data.len() as int) =~= data@);
}

/// Appends the last `k` hexadecimal digits of `n` to `out`.
pub fn push_hex_fixed(out: &mut String, n: u64, k: usize)
    ensures
        final(out)@ == old(out)@ + hex_fixed(n as nat, k as nat),
    decreases k,
{
    if k > 0 {
        push_hex_fixed(out, n / 16, k - 1);
        out.push(hex_digit_char((n % 16) as u8));
    }
}

/// The number of hexadecimal digits of `n` without leading zeros.
pub fn hex_len_of(n: u64) -> (len: usize)
    ensures
        len as nat == hex_len(n as nat),
        len <= 16,
{
    proof {
        lemma_hex_len_le(n as nat, 16);
    }
    let mut m = n;
    let mut len: usize = 1;
    while m >= 16
        invariant
            len + hex_len(m as nat) == hex_len(n as nat) + 1,
            hex_len(n as nat) <= 16,
            len >= 1,
        decreases m,
    {
        m = m / 16;
        len = len + 1;
    }
    len
}

/// `16^k`.
pub open spec fn pow16(k: nat) -> nat
    decreases k,
{
    if k == 0 {
        1
    } else {
        16 * pow16((k - 1) as nat)
    }
}

/// A value below `16^k` has at most `k` hexadecimal digits.
pub proof fn lemma_hex_len_le(n: nat, k: nat)
    requires
        k >= 1,
        n < pow16(k) || (k == 16 && n <= u64::MAX),
    ensures
        hex_len(n) <= k,
    decreases k,
{
    if k == 16 {
        reveal_with_fuel(pow16, 17);
        assert(pow16(16) == 0x1_0000_0000_0000_0000);
    }
    if n >= 16 {
        assert(pow16(k) == 16 * pow16((k - 1) as nat));
        if k == 1 {
            reveal_with_fuel(pow16, 2);
            assert(pow16(1) == 16);
        }
        assert(n / 16 < pow16((k - 1) as nat));
        lemma_hex_len_le(n / 16, (k - 1) as nat);
    }
}

/// Appends `n` in upper-case hexadecimal, zero-padded to `width` digits.
pub fn push_hex_padded(out: &mut String, n: u64, width: usize)
    ensures
        final(out)@ == old(out)@ + hex_padded(n as nat, width as nat),
{
    let len = hex_len_of(n);
    let k = if len < width { width } else { len };
    push_hex_fixed(out, n, k);
}

/// `10^k`.
pub open spec fn pow10(k: nat) -> nat
    decreases k,
{
    if k == 0 {
        1
    } else {
        10 * pow10((k - 1) as nat)
    }
}

/// A value below `10^k` has at most `k` decimal digits.
pub proof fn lemma_dec_len_le(n: nat, k: nat)
    requires
        k >= 1,
        n < pow10(k) || (k == 20 && n <= u64::MAX),
    ensures
        dec_len(n) <= k,
    decreases k,
{
    if k == 20 {
        reveal_with_fuel(pow10, 21);
        assert(pow10(20) == 100_000_000_000_000_000_000);
    }
    if n >= 10 {
        assert(pow10(k) == 10 * pow10((k - 1) as nat));
        if k == 1 {
            reveal_with_fuel(pow10, 2);
            assert(pow10(1) == 10);
        }
        assert(n / 10 < pow10((k - 1) as nat));
        lemma_dec_len_le(n / 10, (k - 1) as nat);
    }
}

/// Appends the last `k` decimal digits of `n` to `out`.
pub fn push_dec_fixed(out: &mut String, n: u64, k: usize)
    ensures
        final(out)@ == old(out)@ + dec_fixed(n as nat, k as nat),
    decreases k,
{
    if k > 0 {
        push_dec_fixed(out, n / 10, k - 1);
        out.push(((n % 10) as u8 + 48u8) as char);
    }
}

/// The number of decimal digits of `n` without leading zeros.
pub fn dec_len_of(n: u64) -> (len: usize)
    ensures
        len as nat == dec_len(n as nat),
        len <= 20,
{
    proof {
        lemma_dec_len_le(n as nat, 20);
    }
    let mut m = n;
    let mut len: usize = 1;
    while m >= 10
        invariant
            len + dec_len(m as nat) == dec_len(n as nat) + 1,
            dec_len(n as nat) <= 20,
            len >= 1,
        decreases m,
    {
        m = m / 10;
        len = len + 1;
    }
    len
}

/// Appends `n` in decimal (`{}`).
pub fn push_dec_nat(out: &mut String, n: u64)
    ensures
        final(out)@ == old(out)@ + dec_nat(n as nat),
{
    let len = dec_len_of(n);
    push_dec_fixed(out, n, len);
}

/// Appends `n` in decimal, zero-padded to `width` digits (`{:0width$}`).
pub fn push_dec_padded(out: &mut String, n: u64, width: usize)
    ensures
        final(out)@ == old(out)@ + dec_padded(n as nat, width as nat),
{
    let len = dec_len_of(n);
    let k = if len < width { width } else { len };
    push_dec_fixed(out, n, k);
}

/// The magnitude of `v`, without overflow for `i64::MIN`.
pub fn magnitude(v: i64) -> (m: u64)
    ensures
        m as int == if v < 0 { -v } else { v as int },
{
    if v < 0 {
        (-(v + 1)) as u64 + 1
    } else {
        v as u64
    }
}

/// Appends `v` in decimal with a leading `-` when negative (`{}`).
pub fn push_dec_int(out: &mut String, v: i64)
    ensures
        final(out)@ == old(out)@ + dec_int(v as int),
{
    let m = magnitude(v);
    if v < 0 {
        out.push('-');
        push_dec_nat(out, m);
    } else {
        push_dec_nat(out, m);
    }
}

/// `10^k` for `k` up to 19.
pub fn pow10_of(k: u32) -> (p: u64)
    requires
        k <= 19,
    ensures
        p as nat == pow10(k as nat),
{
    proof {
        lemma_pow10_monotone(0, 19);
    }
    let mut p: u64 = 1;
    let mut i: u32 = 0;
    while i < k
        invariant
            i <= k <= 19,
            p as nat == pow10(i as nat),
            p as nat <= pow10(19),
        decreases k - i,
    {
        proof {
            lemma_pow10_monotone(i as nat + 1, 19);
        }
        p = p * 10;
        i = i + 1;
    }
    p
}

proof fn lemma_pow10_monotone(a: nat, b: nat)
    requires
        a <= b,
    ensures
        1 <= pow10(a) <= pow10(b),
        pow10(19) == 10_000_000_000_000_000_000,
    decreases b - a,
{
    reveal_with_fuel(pow10, 20);
    lemma_pow10_positive(a);
    if a < b {
        lemma_pow10_monotone(a, (b - 1) as nat);
    }
}

proof fn lemma_pow10_positive(k: nat)
    ensures
        pow10(k) >= 1,
    decreases k,
{
    if k > 0 {
        lemma_pow10_positive((k - 1) as nat);
    }
}

/// Appends the fixed-point value `v / 10^places` with `places` fractional
/// digits.
pub fn push_fixed_point(out: &mut String, v: i64, places: u32)
    requires
        1 <= places <= 18,
    ensures
        final(out)@ == old(out)@ + fixed_point(v as int, places as nat),
{
    let unit = pow10_of(places);
    proof {
        lemma_pow10_monotone(places as nat, 19);
    }
    let m = magnitude(v);
    let ghost start = out@;
    if v < 0 {
        out.push('-');
    }
    push_dec_nat(out, m / unit);
    out.push('.');
    push_dec_fixed(out, m % unit, places as usize);
    assert(out@ =~= start + fixed_point(v as int, places as nat));
}

/// Whether `c` is an upper-case hexadecimal digit.
pub open spec fn is_hex_digit(c: char) -> bool {
    ('0' <= c && c <= '9') || ('A' <= c && c <= 'F')
}

/// The value of an upper-case hexadecimal digit.
pub open spec fn hex_digit_value(c: char) -> int {
    if '0' <= c && c <= '9' {
        c as int - 48
    } else {
        c as int - 55
    }
}

/// The bytes that a text of hex digit pairs stands for, read two digits at
/// a time.
pub open spec fn unhex(t: Seq<char>) -> Seq<u8>
    decreases t.len(),
{
    if t.len() < 2 {
        Seq::empty()
    } else {
        unhex(t.drop_last().drop_last()).push(
            (16 * hex_digit_value(t[t.len() - 2]) + hex_digit_value(t[t.len() - 1])) as u8,
        )
    }
}

/// Hex text has two digits per byte, only upper-case hex digits, and
/// reading it back two digits at a time gives the bytes.
pub proof fn lemma_hex_bytes_read_back(s: Seq<u8>)
    ensures
        hex_bytes(s).len() == 2 * s.len(),
        forall|i: int| 0 <= i < hex_bytes(s).len() ==> is_hex_digit(#[trigger] hex_bytes(s)[i]),
        unhex(hex_bytes(s)) == s,
    decreases s.len(),
{
    if s.len() > 0 {
        let init = s.drop_last();
        let b = s.last();
        lemma_hex_bytes_read_back(init);
        let h = hex_bytes(s);
        let hi = hex_bytes(init);
        assert(h == hi + hex_byte(b));
        assert(h.drop_last().drop_last() =~= hi);
        assert(h[h.len() - 2] == hex_digit(b as int / 16));
        assert(h[h.len() - 1] == hex_digit(b as int % 16));
        assert(hex_digit_value(hex_digit(b as int / 16)) == b as int / 16);
        assert(hex_digit_value(hex_digit(b as int % 16)) == b as int % 16);
        assert(16 * (b as int / 16) + b as int % 16 == b as int);
        assert(unhex(h) =~= s);
        assert forall|i: int| 0 <= i < h.len() implies is_hex_digit(#[trigger] h[i]) by {
            if i < hi.len() {
                assert(h[i] == hi[i]);
            }
        }
    } else {
        assert(hex_bytes(s) =~= Seq::<char>::empty());
        assert(unhex(Seq::<char>::empty()) =~= s);
    }
}

} // verus!
