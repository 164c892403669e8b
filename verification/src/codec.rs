//! Byte-level primitives of the JSON wire encoding.
//!
//! Every packet of the custom protocols is a JSON text. The encoders here
//! build that text byte by byte and the parsers read it back; each parser
//! is specified by a spec-level twin, and round-trip lemmas state that a
//! parser applied to an encoder's output, whatever follows it, yields the
//! encoded value.

use vstd::prelude::*;

verus! {

/// The double-quote byte.
pub open spec fn q_mark() -> u8 {
    '"' as u8
}

/// The backslash byte.
pub open spec fn b_slash() -> u8 {
    '\\' as u8
}

// ---------------------------------------------------------------------------
// Fixed literals
// ---------------------------------------------------------------------------

/// Position after the literal `l` when the buffer holds it at `i`.
pub open spec fn spec_expect_lit(s: Seq<u8>, i: int, l: Seq<u8>) -> Option<int> {
    if 0 <= i && i + l.len() <= s.len() && s.subrange(i, i + l.len()) == l {
        Some(i + l.len())
    } else {
        None
    }
}

/// A literal placed at `i` with anything after it is found there.
pub proof fn lemma_expect_lit(s: Seq<u8>, i: int, l: Seq<u8>)
    requires
        0 <= i,
        i + l.len() <= s.len(),
        s.subrange(i, i + l.len()) =~= l,
    ensures
        spec_expect_lit(s, i, l) == Some(i + l.len()),
{
}

/// Append `lit` to `out`.
pub fn put_bytes(out: &mut Vec<u8>, lit: &Vec<u8>)
    ensures
        final(out)@ == old(out)@ + lit@,
{
    let n = lit.len();
    let mut i: usize = 0;
    while i < n
        invariant
            n == lit@.len(),
            0 <= i <= n,
            out@ == old(out)@ + lit@.subrange(0, i as int),
        decreases n - i,
    {
        out.push(lit[i]);
        proof {
            assert(out@ =~= old(out)@ + lit@.subrange(0, i + 1));
        }
        i = i + 1;
    }
    proof {
        assert(out@ =~= old(out)@ + lit@);
    }
}

/// Check that `lit` stands at `pos` in `buf`; the position after it if so.
pub fn expect_lit(buf: &Vec<u8>, pos: usize, lit: &Vec<u8>) -> (r: Option<usize>)
    ensures
        match r {
            Some(j) => spec_expect_lit(buf@, pos as int, lit@) == Some(j as int),
            None => spec_expect_lit(buf@, pos as int, lit@) is None,
        },
{
    let n = lit.len();
    if buf.len() < n || pos > buf.len() - n {
        return None;
    }
    let mut i: usize = 0;
    while i < n
        invariant
            n == lit@.len(),
            pos + n <= buf@.len(),
            buf@.len() <= usize::MAX,
            0 <= i <= n,
            forall|k: int| 0 <= k < i ==> buf@[pos + k] == lit@[k],
        decreases n - i,
    {
        if buf[pos + i] != lit[i] {
            proof {
                assert(buf@.subrange(pos as int, pos + n)[i as int] != lit@[i as int]);
            }
            return None;
        }
        i = i + 1;
    }
    proof {
        assert(buf@.subrange(pos as int, pos + n) =~= lit@);
    }
    Some(pos + n)
}

// ---------------------------------------------------------------------------
// Decimal numbers
// ---------------------------------------------------------------------------

/// Whether `c` is an ASCII decimal digit.
pub open spec fn is_digit(c: u8) -> bool {
    '0' as u8 <= c <= '9' as u8
}

/// The value of a digit byte.
pub open spec fn digit_val(c: u8) -> int {
    c - ('0' as u8)
}

/// The decimal digits of a non-negative number, most significant first.
pub open spec fn dec_digits(n: int) -> Seq<u8>
    decreases n,
{
    if n < 10 {
        seq![(48 + if n >= 0 { n } else { 0 }) as u8]
    } else {
        dec_digits(n / 10).push((48 + n % 10) as u8)
    }
}

/// The number held by a sequence of digit bytes.
pub open spec fn digits_val(s: Seq<u8>) -> int
    decreases s.len(),
{
    if s.len() == 0 {
        0
    } else {
        digits_val(s.drop_last()) * 10 + digit_val(s.last())
    }
}

/// Ten to the power `k`.
pub open spec fn pow10(k: int) -> int
    decreases k,
{
    if k <= 0 {
        1
    } else {
        10 * pow10(k - 1)
    }
}

/// A digit run read from `i` with accumulator `acc`, stopping at the first
/// non-digit; refuses values above `u64::MAX`.
pub open spec fn spec_parse_dec(s: Seq<u8>, i: int, acc: int) -> Option<(int, int)>
    decreases s.len() - i when 0 <= i <= s.len()
{
    if i < s.len() && is_digit(s[i]) {
        let d = digit_val(s[i]);
        if acc > (u64::MAX - d) / 10 {
            None
        } else {
            spec_parse_dec(s, i + 1, acc * 10 + d)
        }
    } else {
        Some((acc, i))
    }
}

/// A decimal number at `i`: at least one digit, value at most `u64::MAX`.
pub open spec fn spec_parse_u64(s: Seq<u8>, i: int) -> Option<(int, int)> {
    if 0 <= i && i < s.len() && is_digit(s[i]) {
        spec_parse_dec(s, i, 0)
    } else {
        None
    }
}

/// Write `n` in decimal.
pub fn enc_u64(n: u64) -> (r: Vec<u8>)
    ensures
        r@ == dec_digits(n as int),
    decreases n,
{
    if n < 10 {
        let mut out: Vec<u8> = Vec::new();
        out.push(48 + n as u8);
        proof {
            assert(out@ =~= dec_digits(n as int));
        }
        out
    } else {
        let mut out = enc_u64(n / 10);
        out.push(48 + (n % 10) as u8);
        proof {
            assert(out@ =~= dec_digits(n as int));
        }
        out
    }
}

/// Read a decimal number at `pos`.
pub fn parse_u64_at(buf: &Vec<u8>, pos: usize) -> (r: Option<(u64, usize)>)
    ensures
        match r {
            Some((v, j)) => spec_parse_u64(buf@, pos as int) == Some((v as int, j as int)) && pos
                <= j <= buf@.len(),
            None => spec_parse_u64(buf@, pos as int) is None,
        },
{
    let n = buf.len();
    if pos >= n {
        return None;
    }
    let c0 = buf[pos];
    if !(48 <= c0 && c0 <= 57) {
        return None;
    }
    let mut i: usize = pos;
    let mut acc: u64 = 0;
    while i < n && 48 <= buf[i] && buf[i] <= 57
        invariant
            n == buf@.len(),
            pos <= i <= n,
            spec_parse_u64(buf@, pos as int) == spec_parse_dec(buf@, i as int, acc as int),
        decreases n - i,
    {
        let d: u64 = (buf[i] - 48) as u64;
        if acc > (u64::MAX - d) / 10 {
            return None;
        }
        proof {
            let t = ((u64::MAX - d) / 10) as int;
            assert((u64::MAX - d) as int == 10 * t + ((u64::MAX - d) as int) % 10) by {
                vstd::arithmetic::div_mod::lemma_fundamental_div_mod((u64::MAX - d) as int, 10);
            };
            assert(acc * 10 <= t * 10) by (nonlinear_arith)
                requires
                    acc as int <= t,
            ;
            assert(acc * 10 + d <= u64::MAX);
        }
        acc = acc * 10 + d;
        i = i + 1;
    }
    Some((acc, i))
}

/// Digit runs hold only digits, are non-empty, and their value is non-negative.
pub proof fn lemma_dec_digits_form(n: int)
    requires
        n >= 0,
    ensures
        dec_digits(n).len() >= 1,
        forall|k: int| 0 <= k < dec_digits(n).len() ==> is_digit(#[trigger] dec_digits(n)[k]),
    decreases n,
{
    if n >= 10 {
        lemma_dec_digits_form(n / 10);
        assert forall|k: int| 0 <= k < dec_digits(n).len() implies is_digit(
            #[trigger] dec_digits(n)[k],
        ) by {
            if k < dec_digits(n / 10).len() {
                assert(dec_digits(n)[k] == dec_digits(n / 10)[k]);
            }
        };
    }
}

/// Reading back the digits of `n` gives `n`.
pub proof fn lemma_digits_val_enc(n: int)
    requires
        n >= 0,
    ensures
        digits_val(dec_digits(n)) == n,
    decreases n,
{
    if n < 10 {
        assert(dec_digits(n).drop_last() =~= Seq::<u8>::empty());
        assert(dec_digits(n).last() == (48 + n) as u8);
        assert(digit_val((48 + n) as u8) == n);
        assert(digits_val(Seq::<u8>::empty()) == 0);
        assert(digits_val(dec_digits(n)) == digits_val(dec_digits(n).drop_last()) * 10 + digit_val(
            dec_digits(n).last(),
        ));
    } else {
        lemma_digits_val_enc(n / 10);
        assert(dec_digits(n).drop_last() =~= dec_digits(n / 10));
        assert(0 <= n % 10 < 10) by {
            vstd::arithmetic::div_mod::lemma_mod_bound(n, 10);
        };
        assert(dec_digits(n).last() == (48 + n % 10) as u8);
        assert(digit_val((48 + n % 10) as u8) == n % 10);
        assert(digits_val(dec_digits(n)) == digits_val(dec_digits(n / 10)) * 10 + n % 10);
        vstd::arithmetic::div_mod::lemma_fundamental_div_mod(n, 10);
    }
}

/// The value of a digit run is non-negative.
pub proof fn lemma_digits_val_nonneg(s: Seq<u8>)
    requires
        forall|k: int| 0 <= k < s.len() ==> is_digit(#[trigger] s[k]),
    ensures
        digits_val(s) >= 0,
    decreases s.len(),
{
    if s.len() > 0 {
        lemma_digits_val_nonneg(s.drop_last());
    }
}

/// `pow10` is at least one.
pub proof fn lemma_pow10_pos(k: int)
    ensures
        pow10(k) >= 1,
    decreases k,
{
    if k > 0 {
        lemma_pow10_pos(k - 1);
    }
}

/// Splitting the leading digit off a digit run.
proof fn lemma_digits_val_front(s: Seq<u8>, i: int, j: int)
    requires
        0 <= i < j <= s.len(),
    ensures
        digits_val(s.subrange(i, j)) == digit_val(s[i]) * pow10(j - i - 1) + digits_val(
            s.subrange(i + 1, j),
        ),
    decreases j - i,
{
    if j == i + 1 {
        assert(s.subrange(i, j).drop_last() =~= Seq::<u8>::empty());
        assert(s.subrange(i + 1, j) =~= Seq::<u8>::empty());
        assert(s.subrange(i, j).last() == s[i]);
        assert(digits_val(Seq::<u8>::empty()) == 0);
        assert(digits_val(s.subrange(i, j)) == digit_val(s[i]));
        assert(pow10(0) == 1);
    } else {
        lemma_digits_val_front(s, i, j - 1);
        let d0 = digit_val(s[i]);
        let p = pow10(j - i - 2);
        let v1 = digits_val(s.subrange(i + 1, j - 1));
        let dl = digit_val(s[j - 1]);
        assert(s.subrange(i, j).drop_last() =~= s.subrange(i, j - 1));
        assert(s.subrange(i + 1, j).drop_last() =~= s.subrange(i + 1, j - 1));
        assert(s.subrange(i, j).last() == s[j - 1]);
        assert(s.subrange(i + 1, j).last() == s[j - 1]);
        assert(digits_val(s.subrange(i, j)) == digits_val(s.subrange(i, j - 1)) * 10 + dl);
        assert(digits_val(s.subrange(i + 1, j)) == v1 * 10 + dl);
        assert(digits_val(s.subrange(i, j - 1)) == d0 * p + v1);
        assert((d0 * p + v1) * 10 + dl == d0 * (10 * p) + (v1 * 10 + dl)) by (nonlinear_arith);
        assert(pow10(j - i - 1) == 10 * p);
    }
}

/// A digit run bounded by `u64::MAX` parses to its value.
proof fn lemma_parse_digit_run(s: Seq<u8>, i: int, j: int, acc: int)
    requires
        0 <= i <= j <= s.len(),
        forall|k: int| i <= k < j ==> is_digit(#[trigger] s[k]),
        j == s.len() || !is_digit(s[j]),
        acc >= 0,
        acc * pow10(j - i) + digits_val(s.subrange(i, j)) <= u64::MAX,
    ensures
        spec_parse_dec(s, i, acc) == Some(
            (acc * pow10(j - i) + digits_val(s.subrange(i, j)), j),
        ),
    decreases j - i,
{
    if i == j {
        assert(s.subrange(i, j) =~= Seq::<u8>::empty());
    } else {
        let d = digit_val(s[i]);
        let p1 = pow10(j - i - 1);
        let tail = digits_val(s.subrange(i + 1, j));
        lemma_digits_val_front(s, i, j);
        lemma_pow10_pos(j - i - 1);
        assert(forall|k: int| i + 1 <= k < j ==> is_digit(#[trigger] s[k]));
        lemma_digits_val_nonneg(s.subrange(i + 1, j));
        assert(digits_val(s.subrange(i + 1, j)) >= 0);
        // The total rewritten around the leading digit.
        assert(acc * pow10(j - i) == (acc * 10) * p1) by (nonlinear_arith)
            requires
                pow10(j - i) == 10 * pow10(j - i - 1),
                p1 == pow10(j - i - 1),
        ;
        let v = acc * 10 + d;
        assert(acc * pow10(j - i) + digits_val(s.subrange(i, j)) == v * p1 + tail)
            by (nonlinear_arith)
            requires
                acc * pow10(j - i) == (acc * 10) * p1,
                digits_val(s.subrange(i, j)) == d * p1 + tail,
                v == acc * 10 + d,
        ;
        // The intermediate value fits, so the guard passes.
        assert(v <= v * p1 + tail) by (nonlinear_arith)
            requires
                p1 >= 1,
                tail >= 0,
                v >= 0,
        ;
        assert(v <= u64::MAX);
        assert(acc <= (u64::MAX - d) / 10) by {
            vstd::arithmetic::div_mod::lemma_div_is_ordered(10 * acc, u64::MAX - d, 10);
            vstd::arithmetic::div_mod::lemma_div_by_multiple(acc, 10);
        };
        lemma_parse_digit_run(s, i + 1, j, v);
    }
}

// ---------------------------------------------------------------------------
// Signed decimal numbers
// ---------------------------------------------------------------------------

/// A signed number in decimal: a minus sign before the magnitude when
/// negative.
pub open spec fn dec_i64(t: int) -> Seq<u8> {
    if t < 0 {
        seq![45u8] + dec_digits(-t)
    } else {
        dec_digits(t)
    }
}

/// A signed decimal number at `i`, within the range of `i64`.
pub open spec fn spec_parse_i64(s: Seq<u8>, i: int) -> Option<(int, int)> {
    if 0 <= i && i < s.len() && s[i] == 45u8 {
        match spec_parse_u64(s, i + 1) {
            Some((v, j)) => if v <= 0x8000000000000000 {
                Some((-v, j))
            } else {
                None
            },
            None => None,
        }
    } else {
        match spec_parse_u64(s, i) {
            Some((v, j)) => if v <= i64::MAX {
                Some((v, j))
            } else {
                None
            },
            None => None,
        }
    }
}

/// Write `t` in decimal.
pub fn enc_i64(t: i64) -> (r: Vec<u8>)
    ensures
        r@ == dec_i64(t as int),
{
    if t >= 0 {
        enc_u64(t as u64)
    } else {
        let m: u64 = if t == i64::MIN {
            9223372036854775808u64
        } else {
            (-t) as u64
        };
        let mut out: Vec<u8> = Vec::new();
        out.push(45u8);
        let digits = enc_u64(m);
        put_bytes(&mut out, &digits);
        proof {
            assert(out@ =~= dec_i64(t as int));
        }
        out
    }
}

/// Read a signed decimal number at `pos`.
pub fn parse_i64_at(buf: &Vec<u8>, pos: usize) -> (r: Option<(i64, usize)>)
    ensures
        match r {
            Some((v, j)) => spec_parse_i64(buf@, pos as int) == Some((v as int, j as int)) && pos
                <= j <= buf@.len(),
            None => spec_parse_i64(buf@, pos as int) is None,
        },
{
    if pos < buf.len() && buf[pos] == 45u8 {
        match parse_u64_at(buf, pos + 1) {
            Some((v, j)) => {
                if v > 9223372036854775808u64 {
                    None
                } else if v == 9223372036854775808u64 {
                    Some((i64::MIN, j))
                } else {
                    Some((-(v as i64), j))
                }
            },
            None => None,
        }
    } else {
        match parse_u64_at(buf, pos) {
            Some((v, j)) => {
                if v > i64::MAX as u64 {
                    None
                } else {
                    Some((v as i64, j))
                }
            },
            None => None,
        }
    }
}

/// The decimal form of `t` written at `i`, with no digit after it, reads
/// back as `t`.
pub proof fn lemma_parse_i64_enc(s: Seq<u8>, i: int, t: int)
    requires
        i64::MIN <= t <= i64::MAX,
        0 <= i,
        i + dec_i64(t).len() <= s.len(),
        s.subrange(i, i + dec_i64(t).len()) =~= dec_i64(t),
        i + dec_i64(t).len() == s.len() || !is_digit(s[i + dec_i64(t).len()]),
    ensures
        spec_parse_i64(s, i) == Some((t, i + dec_i64(t).len() as int)),
{
    if t < 0 {
        let m = -t;
        assert(dec_i64(t).len() == 1 + dec_digits(m).len());
        assert(s[i] == s.subrange(i, i + dec_i64(t).len())[0]);
        assert(s[i] == 45u8);
        assert forall|k: int| 0 <= k < dec_digits(m).len() implies s[i + 1 + k] == dec_digits(
            m,
        )[k] by {
            assert(s[i + 1 + k] == s.subrange(i, i + dec_i64(t).len())[1 + k]);
        };
        assert(s.subrange(i + 1, i + 1 + dec_digits(m).len()) =~= dec_digits(m));
        lemma_parse_u64_enc(s, i + 1, m);
    } else {
        lemma_parse_u64_enc(s, i, t);
        lemma_dec_digits_form(t);
        assert(s[i] == s.subrange(i, i + dec_digits(t).len())[0]);
        assert(is_digit(s[i]));
        assert(s[i] != 45u8);
    }
}

// ---------------------------------------------------------------------------
// Hexadecimal byte runs
// ---------------------------------------------------------------------------

/// Whether `c` is a lower-case hexadecimal digit.
pub open spec fn is_hex(c: u8) -> bool {
    is_digit(c) || 97 <= c <= 102
}

/// The hexadecimal digit for a value below sixteen.
pub open spec fn hex_char(v: int) -> u8 {
    if v < 10 {
        (48 + v) as u8
    } else {
        (87 + v) as u8
    }
}

/// The value of a hexadecimal digit byte.
pub open spec fn hex_val(c: u8) -> int {
    if c <= 57 {
        c - 48
    } else {
        c - 87
    }
}

/// Bytes written as pairs of hexadecimal digits.
pub open spec fn hex_enc(b: Seq<u8>) -> Seq<u8>
    decreases b.len(),
{
    if b.len() == 0 {
        Seq::empty()
    } else {
        seq![hex_char(b[0] as int / 16), hex_char(b[0] as int % 16)] + hex_enc(b.drop_first())
    }
}

/// A run of hexadecimal digit pairs at `i`, stopping at the first byte
/// that is no hexadecimal digit; an odd-length run fails.
pub open spec fn spec_parse_hex(s: Seq<u8>, i: int) -> Option<(Seq<u8>, int)>
    decreases s.len() - i when 0 <= i <= s.len()
{
    if i >= s.len() || !is_hex(s[i]) {
        Some((Seq::empty(), i))
    } else if i + 1 < s.len() && is_hex(s[i + 1]) {
        match spec_parse_hex(s, i + 2) {
            Some((v, j)) => Some((seq![(hex_val(s[i]) * 16 + hex_val(s[i + 1])) as u8] + v, j)),
            None => None,
        }
    } else {
        None
    }
}

/// Appending a byte appends its digit pair.
proof fn lemma_hex_enc_snoc(b: Seq<u8>, x: u8)
    ensures
        hex_enc(b.push(x)) =~= hex_enc(b) + seq![hex_char(x as int / 16), hex_char(x as int % 16)],
    decreases b.len(),
{
    let pairx = seq![hex_char(x as int / 16), hex_char(x as int % 16)];
    if b.len() == 0 {
        assert(b.push(x).drop_first() =~= Seq::<u8>::empty());
        assert(b.push(x)[0] == x);
        assert(hex_enc(b.push(x)) == pairx + hex_enc(b.push(x).drop_first()));
        assert(hex_enc(Seq::<u8>::empty()) == Seq::<u8>::empty());
    } else {
        let pair0 = seq![hex_char(b[0] as int / 16), hex_char(b[0] as int % 16)];
        assert(b.push(x).drop_first() =~= b.drop_first().push(x));
        lemma_hex_enc_snoc(b.drop_first(), x);
        assert(b.push(x)[0] == b[0]);
        assert(hex_enc(b.push(x)) == pair0 + hex_enc(b.drop_first().push(x)));
        assert(hex_enc(b) == pair0 + hex_enc(b.drop_first()));
        assert(pair0 + (hex_enc(b.drop_first()) + pairx) =~= (pair0 + hex_enc(b.drop_first()))
            + pairx);
    }
}

/// Write bytes as hexadecimal digit pairs.
pub fn enc_hex(b: &Vec<u8>) -> (r: Vec<u8>)
    ensures
        r@ == hex_enc(b@),
{
    let n = b.len();
    let mut out: Vec<u8> = Vec::new();
    let mut i: usize = 0;
    while i < n
        invariant
            n == b@.len(),
            0 <= i <= n,
            out@ == hex_enc(b@.subrange(0, i as int)),
        decreases n - i,
    {
        let x = b[i];
        let hi: u8 = x / 16;
        let lo: u8 = x % 16;
        out.push(if hi < 10 { 48 + hi } else { 87 + hi });
        out.push(if lo < 10 { 48 + lo } else { 87 + lo });
        proof {
            assert(b@.subrange(0, i + 1) =~= b@.subrange(0, i as int).push(b@[i as int]));
            lemma_hex_enc_snoc(b@.subrange(0, i as int), b@[i as int]);
            assert(out@ =~= hex_enc(b@.subrange(0, i + 1)));
        }
        i = i + 1;
    }
    proof {
        assert(b@.subrange(0, n as int) =~= b@);
    }
    out
}

/// Read a run of hexadecimal digit pairs at `pos`.
pub fn parse_hex_at(buf: &Vec<u8>, pos: usize) -> (r: Option<(Vec<u8>, usize)>)
    requires
        pos <= buf@.len(),
    ensures
        match r {
            Some((v, j)) => spec_parse_hex(buf@, pos as int) == Some((v@, j as int)) && pos <= j
                <= buf@.len(),
            None => spec_parse_hex(buf@, pos as int) is None,
        },
{
    let n = buf.len();
    let mut i: usize = pos;
    let mut acc: Vec<u8> = Vec::new();
    loop
        invariant
            n == buf@.len(),
            pos <= i <= n,
            spec_parse_hex(buf@, i as int) matches Some((v, j)) ==> spec_parse_hex(
                buf@,
                pos as int,
            ) == Some((acc@ + v, j)),
            spec_parse_hex(buf@, i as int) is None ==> spec_parse_hex(buf@, pos as int) is None,
        decreases n - i,
    {
        if i >= n || !is_hex_exec(buf[i]) {
            proof {
                assert(spec_parse_hex(buf@, i as int) == Some((Seq::<u8>::empty(), i as int)));
                assert(acc@ + Seq::<u8>::empty() =~= acc@);
            }
            return Some((acc, i));
        }
        if i + 1 >= n || !is_hex_exec(buf[i + 1]) {
            proof {
                assert(spec_parse_hex(buf@, i as int) is None);
            }
            return None;
        }
        let hi = hex_val_exec(buf[i]);
        let lo = hex_val_exec(buf[i + 1]);
        let ghost pre = acc@;
        acc.push(hi * 16 + lo);
        proof {
            let s = buf@;
            let gi = i as int;
            assert(spec_parse_hex(s, gi) matches Some((v, j)) ==> spec_parse_hex(s, pos as int)
                == Some((pre + v, j)));
            assert forall|v: Seq<u8>, j: int|
                spec_parse_hex(s, gi + 2) == Some::<(Seq<u8>, int)>((v, j)) implies spec_parse_hex(
                s,
                pos as int,
            ) == Some::<(Seq<u8>, int)>((acc@ + v, j)) by {
                let head = seq![(hex_val(s[gi]) * 16 + hex_val(s[gi + 1])) as u8];
                assert(spec_parse_hex(s, gi) == Some::<(Seq<u8>, int)>((head + v, j)));
                assert(pre + (head + v) =~= acc@ + v);
            };
            assert(spec_parse_hex(s, gi + 2) is None ==> spec_parse_hex(s, gi) is None);
        }
        i = i + 2;
    }
}

/// Whether `c` is a lower-case hexadecimal digit.
fn is_hex_exec(c: u8) -> (r: bool)
    ensures
        r == is_hex(c),
{
    (48 <= c && c <= 57) || (97 <= c && c <= 102)
}

/// The value of a hexadecimal digit byte.
fn hex_val_exec(c: u8) -> (r: u8)
    requires
        is_hex(c),
    ensures
        r as int == hex_val(c),
        r < 16,
{
    if c <= 57 {
        c - 48
    } else {
        c - 87
    }
}

/// The byte a short JSON escape letter stands for.
fn short_escape_byte_exec(c: u8) -> (r: u8)
    requires
        is_short_escape(c),
    ensures
        r == short_escape_byte(c),
{
    if c == 110 {
        10
    } else if c == 116 {
        9
    } else if c == 114 {
        13
    } else if c == 98 {
        8
    } else {
        12
    }
}

/// Hexadecimal digits are in the hexadecimal class and read back as their
/// value.
proof fn lemma_hex_char_val(v: int)
    requires
        0 <= v < 16,
    ensures
        is_hex(hex_char(v)),
        hex_val(hex_char(v)) == v,
        hex_char(v) != q_mark(),
{
}

/// A hexadecimal run written at `i`, with no hexadecimal digit after it,
/// reads back as the encoded bytes.
pub proof fn lemma_parse_hex_enc(s: Seq<u8>, i: int, b: Seq<u8>)
    requires
        0 <= i,
        i + hex_enc(b).len() <= s.len(),
        s.subrange(i, i + hex_enc(b).len()) =~= hex_enc(b),
        i + hex_enc(b).len() == s.len() || !is_hex(s[i + hex_enc(b).len()]),
    ensures
        hex_enc(b).len() == 2 * b.len(),
        spec_parse_hex(s, i) == Some((b, i + hex_enc(b).len())),
    decreases b.len(),
{
    lemma_hex_enc_len(b);
    if b.len() == 0 {
        assert(i == s.len() || !is_hex(s[i]));
    } else {
        let x = b[0];
        lemma_hex_char_val(x as int / 16);
        lemma_hex_char_val(x as int % 16);
        assert(s[i] == s.subrange(i, i + hex_enc(b).len())[0]);
        assert(s[i + 1] == s.subrange(i, i + hex_enc(b).len())[1]);
        assert(s[i] == hex_char(x as int / 16));
        assert(s[i + 1] == hex_char(x as int % 16));
        let tail = b.drop_first();
        lemma_hex_enc_len(tail);
        assert forall|k: int| 0 <= k < hex_enc(tail).len() implies s[i + 2 + k] == hex_enc(
            tail,
        )[k] by {
            assert(s[i + 2 + k] == s.subrange(i, i + hex_enc(b).len())[2 + k]);
        };
        assert(s.subrange(i + 2, i + 2 + hex_enc(tail).len()) =~= hex_enc(tail));
        lemma_parse_hex_enc(s, i + 2, tail);
        assert((hex_val(s[i]) * 16 + hex_val(s[i + 1])) as u8 == x) by {
            vstd::arithmetic::div_mod::lemma_fundamental_div_mod(x as int, 16);
        };
        assert(seq![x] + tail =~= b);
    }
}

/// A hexadecimal run is twice as long as the bytes it writes.
pub proof fn lemma_hex_enc_len(b: Seq<u8>)
    ensures
        hex_enc(b).len() == 2 * b.len(),
    decreases b.len(),
{
    if b.len() > 0 {
        lemma_hex_enc_len(b.drop_first());
    }
}

/// Whether two byte runs hold the same bytes.
pub fn bytes_eq(a: &Vec<u8>, b: &Vec<u8>) -> (r: bool)
    ensures
        r == (a@ == b@),
{
    let n = a.len();
    if n != b.len() {
        return false;
    }
    let mut i: usize = 0;
    while i < n
        invariant
            n == a@.len(),
            n == b@.len(),
            0 <= i <= n,
            forall|k: int| 0 <= k < i ==> a@[k] == b@[k],
        decreases n - i,
    {
        if a[i] != b[i] {
            return false;
        }
        i = i + 1;
    }
    proof {
        assert(a@ =~= b@);
    }
    true
}

// ---------------------------------------------------------------------------
// Escaped strings
// ---------------------------------------------------------------------------

/// Whether `c` is one of the letters of a short JSON escape and the
/// byte it stands for.
pub open spec fn is_short_escape(c: u8) -> bool {
    c == 'n' as u8 || c == 't' as u8 || c == 'r' as u8 || c == 'b' as u8 || c == 'f' as u8
}

/// The byte a short JSON escape letter stands for.
pub open spec fn short_escape_byte(c: u8) -> u8 {
    if c == 'n' as u8 {
        10
    } else if c == 't' as u8 {
        9
    } else if c == 'r' as u8 {
        13
    } else if c == 'b' as u8 {
        8
    } else {
        12
    }
}

/// A byte that needs no escape inside a JSON string: not the quote, not
/// the backslash, not a control byte.
pub open spec fn plain_byte(c: u8) -> bool {
    c != q_mark() && c != b_slash() && c >= 32
}

/// A byte inside a JSON string: quote and backslash are escaped with a
/// backslash, a control byte with `\u00` and two hexadecimal digits,
/// any other byte stands for itself.
pub open spec fn esc_byte(c: u8) -> Seq<u8> {
    if c == q_mark() || c == b_slash() {
        seq![b_slash(), c]
    } else if c < 32 {
        seq![
            b_slash(),
            'u' as u8,
            '0' as u8,
            '0' as u8,
            hex_char(c as int / 16),
            hex_char(c as int % 16),
        ]
    } else {
        seq![c]
    }
}

/// A byte run escaped for a JSON string.
pub open spec fn esc(s: Seq<u8>) -> Seq<u8>
    decreases s.len(),
{
    if s.len() == 0 {
        Seq::empty()
    } else {
        esc_byte(s[0]) + esc(s.drop_first())
    }
}

/// The content of a JSON string read from `i` up to its closing quote;
/// the position returned is just after that quote. Escapes accepted:
/// `\"`, `\\`, `\/`, the short letters, and `\u00` with two
/// hexadecimal digits.
pub open spec fn spec_parse_str(s: Seq<u8>, i: int) -> Option<(Seq<u8>, int)>
    decreases s.len() - i when 0 <= i <= s.len()
{
    if i >= s.len() {
        None
    } else if s[i] == q_mark() {
        Some((Seq::empty(), i + 1))
    } else if s[i] == b_slash() {
        if i + 1 < s.len() && (s[i + 1] == q_mark() || s[i + 1] == b_slash() || s[i + 1] == '/'
            as u8) {
            match spec_parse_str(s, i + 2) {
                Some((v, j)) => Some((seq![s[i + 1]] + v, j)),
                None => None,
            }
        } else if i + 1 < s.len() && is_short_escape(s[i + 1]) {
            match spec_parse_str(s, i + 2) {
                Some((v, j)) => Some((seq![short_escape_byte(s[i + 1])] + v, j)),
                None => None,
            }
        } else if i + 5 < s.len() && s[i + 1] == 'u' as u8 && s[i + 2] == '0' as u8 && s[i + 3]
            == '0' as u8 && is_hex(s[i + 4]) && is_hex(s[i + 5]) {
            match spec_parse_str(s, i + 6) {
                Some((v, j)) => Some((seq![(hex_val(s[i + 4]) * 16 + hex_val(s[i + 5])) as u8] + v, j)),
                None => None,
            }
        } else {
            None
        }
    } else {
        match spec_parse_str(s, i + 1) {
            Some((v, j)) => Some((seq![s[i]] + v, j)),
            None => None,
        }
    }
}

/// Appending a byte appends its escaped form.
proof fn lemma_esc_snoc(s: Seq<u8>, x: u8)
    ensures
        esc(s.push(x)) =~= esc(s) + esc_byte(x),
    decreases s.len(),
{
    if s.len() == 0 {
        assert(s.push(x).drop_first() =~= Seq::<u8>::empty());
        assert(s.push(x)[0] == x);
        assert(esc(s.push(x)) == esc_byte(x) + esc(s.push(x).drop_first()));
        assert(esc(Seq::<u8>::empty()) == Seq::<u8>::empty());
    } else {
        assert(s.push(x).drop_first() =~= s.drop_first().push(x));
        lemma_esc_snoc(s.drop_first(), x);
        assert(s.push(x)[0] == s[0]);
        assert(esc(s.push(x)) == esc_byte(s[0]) + esc(s.drop_first().push(x)));
        assert(esc(s) == esc_byte(s[0]) + esc(s.drop_first()));
        assert(esc_byte(s[0]) + (esc(s.drop_first()) + esc_byte(x)) =~= (esc_byte(s[0]) + esc(
            s.drop_first(),
        )) + esc_byte(x));
    }
}

/// Escape a byte run for a JSON string.
pub fn enc_str(s: &Vec<u8>) -> (r: Vec<u8>)
    ensures
        r@ == esc(s@),
{
    let n = s.len();
    let mut out: Vec<u8> = Vec::new();
    let mut i: usize = 0;
    while i < n
        invariant
            n == s@.len(),
            0 <= i <= n,
            out@ == esc(s@.subrange(0, i as int)),
        decreases n - i,
    {
        let c = s[i];
        if c == 34 || c == 92 {
            out.push(92);
            out.push(c);
        } else if c < 32 {
            out.push(92);
            out.push(117);
            out.push(48);
            out.push(48);
            let hi: u8 = c / 16;
            let lo: u8 = c % 16;
            out.push(if hi < 10 { 48 + hi } else { 87 + hi });
            out.push(if lo < 10 { 48 + lo } else { 87 + lo });
        } else {
            out.push(c);
        }
        proof {
            assert(s@.subrange(0, i + 1) =~= s@.subrange(0, i as int).push(s@[i as int]));
            lemma_esc_snoc(s@.subrange(0, i as int), s@[i as int]);
            assert(out@ =~= esc(s@.subrange(0, i + 1)));
        }
        i = i + 1;
    }
    proof {
        assert(s@.subrange(0, n as int) =~= s@);
    }
    out
}

/// A byte run of plain bytes escapes to itself.
pub proof fn lemma_esc_plain(s: Seq<u8>)
    requires
        forall|k: int| 0 <= k < s.len() ==> plain_byte(#[trigger] s[k]),
    ensures
        esc(s) =~= s,
    decreases s.len(),
{
    if s.len() > 0 {
        lemma_esc_plain(s.drop_first());
        assert(esc(s) == esc_byte(s[0]) + esc(s.drop_first()));
        assert(esc_byte(s[0]) == seq![s[0]]);
    }
}

/// A string parse ends after where it starts and within the buffer.
pub proof fn lemma_parse_str_bounds(s: Seq<u8>, i: int)
    requires
        0 <= i <= s.len(),
    ensures
        spec_parse_str(s, i) matches Some((v, j)) ==> i < j <= s.len(),
    decreases s.len() - i,
{
    if i < s.len() {
        if s[i] == q_mark() {
        } else if s[i] == b_slash() {
            if i + 1 < s.len() && (s[i + 1] == q_mark() || s[i + 1] == b_slash() || s[i + 1]
                == '/' as u8) {
                lemma_parse_str_bounds(s, i + 2);
            } else if i + 1 < s.len() && is_short_escape(s[i + 1]) {
                lemma_parse_str_bounds(s, i + 2);
            } else if i + 5 < s.len() && s[i + 1] == 'u' as u8 && s[i + 2] == '0' as u8 && s[i
                + 3] == '0' as u8 && is_hex(s[i + 4]) && is_hex(s[i + 5]) {
                lemma_parse_str_bounds(s, i + 6);
            }
        } else {
            lemma_parse_str_bounds(s, i + 1);
        }
    }
}

/// Read the content of a JSON string at `pos`, consuming the closing quote.
pub fn parse_str_at(buf: &Vec<u8>, pos: usize) -> (r: Option<(Vec<u8>, usize)>)
    requires
        pos <= buf@.len(),
    ensures
        match r {
            Some((v, j)) => spec_parse_str(buf@, pos as int) == Some((v@, j as int)) && pos < j
                <= buf@.len(),
            None => spec_parse_str(buf@, pos as int) is None,
        },
{
    let n = buf.len();
    let mut i: usize = pos;
    let mut acc: Vec<u8> = Vec::new();
    proof {
        lemma_parse_str_bounds(buf@, pos as int);
        if spec_parse_str(buf@, pos as int) is Some {
            let (v, j) = spec_parse_str(buf@, pos as int)->Some_0;
            assert(Seq::<u8>::empty() + v =~= v);
        }
    }
    loop
        invariant
            n == buf@.len(),
            pos <= i <= n,
            spec_parse_str(buf@, i as int) matches Some((v, j)) ==> spec_parse_str(
                buf@,
                pos as int,
            ) == Some((acc@ + v, j)) && i < j,
            spec_parse_str(buf@, i as int) is None ==> spec_parse_str(buf@, pos as int) is None,
        decreases n - i,
    {
        if i >= n {
            return None;
        }
        let c = buf[i];
        if c == 34 {
            proof {
                assert(spec_parse_str(buf@, i as int) == Some(
                    (Seq::<u8>::empty(), i + 1 as int),
                ));
                assert(acc@ + Seq::<u8>::empty() =~= acc@);
            }
            return Some((acc, i + 1));
        }
        let ghost s = buf@;
        let ghost gi = i as int;
        let ghost pre = acc@;
        if c == 92 {
            if i + 1 < n && (buf[i + 1] == 34 || buf[i + 1] == 92 || buf[i + 1] == 47) {
                acc.push(buf[i + 1]);
                proof {
                    assert forall|v: Seq<u8>, j: int|
                        spec_parse_str(s, gi + 2) == Some::<(Seq<u8>, int)>(
                            (v, j),
                        ) implies spec_parse_str(s, pos as int) == Some::<(Seq<u8>, int)>(
                        (acc@ + v, j),
                    ) && gi + 2 < j by {
                        lemma_parse_str_bounds(s, gi + 2);
                        assert(spec_parse_str(s, gi) == Some::<(Seq<u8>, int)>(
                            (seq![s[gi + 1]] + v, j),
                        ));
                        assert(pre + (seq![s[gi + 1]] + v) =~= acc@ + v);
                    };
                }
                i = i + 2;
            } else if i + 1 < n && (buf[i + 1] == 110 || buf[i + 1] == 116 || buf[i + 1] == 114
                || buf[i + 1] == 98 || buf[i + 1] == 102) {
                let sb = short_escape_byte_exec(buf[i + 1]);
                acc.push(sb);
                proof {
                    assert forall|v: Seq<u8>, j: int|
                        spec_parse_str(s, gi + 2) == Some::<(Seq<u8>, int)>(
                            (v, j),
                        ) implies spec_parse_str(s, pos as int) == Some::<(Seq<u8>, int)>(
                        (acc@ + v, j),
                    ) && gi + 2 < j by {
                        lemma_parse_str_bounds(s, gi + 2);
                        assert(spec_parse_str(s, gi) == Some::<(Seq<u8>, int)>(
                            (seq![short_escape_byte(s[gi + 1])] + v, j),
                        ));
                        assert(pre + (seq![short_escape_byte(s[gi + 1])] + v) =~= acc@ + v);
                    };
                }
                i = i + 2;
            } else if n - i > 5 && buf[i + 1] == 117 && buf[i + 2] == 48 && buf[i + 3] == 48
                && is_hex_exec(buf[i + 4]) && is_hex_exec(buf[i + 5]) {
                let hi = hex_val_exec(buf[i + 4]);
                let lo = hex_val_exec(buf[i + 5]);
                acc.push(hi * 16 + lo);
                proof {
                    assert forall|v: Seq<u8>, j: int|
                        spec_parse_str(s, gi + 6) == Some::<(Seq<u8>, int)>(
                            (v, j),
                        ) implies spec_parse_str(s, pos as int) == Some::<(Seq<u8>, int)>(
                        (acc@ + v, j),
                    ) && gi + 6 < j by {
                        lemma_parse_str_bounds(s, gi + 6);
                        let b = (hex_val(s[gi + 4]) * 16 + hex_val(s[gi + 5])) as u8;
                        assert(spec_parse_str(s, gi) == Some::<(Seq<u8>, int)>((seq![b] + v, j)));
                        assert(pre + (seq![b] + v) =~= acc@ + v);
                    };
                }
                i = i + 6;
            } else {
                proof {
                    assert(spec_parse_str(s, gi) is None);
                }
                return None;
            }
        } else {
            acc.push(c);
            proof {
                assert forall|v: Seq<u8>, j: int|
                    spec_parse_str(s, gi + 1) == Some::<(Seq<u8>, int)>(
                        (v, j),
                    ) implies spec_parse_str(s, pos as int) == Some::<(Seq<u8>, int)>(
                    (acc@ + v, j),
                ) && gi + 1 < j by {
                    lemma_parse_str_bounds(s, gi + 1);
                    assert(spec_parse_str(s, gi) == Some::<(Seq<u8>, int)>((seq![s[gi]] + v, j)));
                    assert(pre + (seq![s[gi]] + v) =~= acc@ + v);
                };
            }
            i = i + 1;
        }
    }
}

/// The escaped form of `v` written at `i` and closed by a quote reads
/// back as `v`.
pub proof fn lemma_parse_str_esc(s: Seq<u8>, i: int, v: Seq<u8>)
    requires
        0 <= i,
        i + esc(v).len() + 1 <= s.len(),
        s.subrange(i, i + esc(v).len()) =~= esc(v),
        s[i + esc(v).len()] == q_mark(),
    ensures
        spec_parse_str(s, i) == Some((v, i + esc(v).len() + 1)),
    decreases v.len(),
{
    if v.len() == 0 {
        assert(s[i] == q_mark());
    } else {
        let c = v[0];
        let tail = v.drop_first();
        assert(esc(v) == esc_byte(c) + esc(tail));
        let el = esc_byte(c).len();
        assert forall|k: int| 0 <= k < esc(tail).len() implies s[i + el + k] == esc(tail)[k] by {
            assert(s[i + el + k] == s.subrange(i, i + esc(v).len())[el + k]);
        };
        assert(s.subrange(i + el, i + el + esc(tail).len()) =~= esc(tail));
        lemma_parse_str_esc(s, i + el, tail);
        assert(seq![c] + tail =~= v);
        if c == q_mark() || c == b_slash() {
            assert(s[i] == s.subrange(i, i + esc(v).len())[0]);
            assert(s[i + 1] == s.subrange(i, i + esc(v).len())[1]);
            assert(s[i] == b_slash());
            assert(s[i + 1] == c);
        } else if c < 32 {
            assert(s[i] == s.subrange(i, i + esc(v).len())[0]);
            assert(s[i + 1] == s.subrange(i, i + esc(v).len())[1]);
            assert(s[i + 2] == s.subrange(i, i + esc(v).len())[2]);
            assert(s[i + 3] == s.subrange(i, i + esc(v).len())[3]);
            assert(s[i + 4] == s.subrange(i, i + esc(v).len())[4]);
            assert(s[i + 5] == s.subrange(i, i + esc(v).len())[5]);
            assert(s[i] == b_slash());
            assert(s[i + 1] == 'u' as u8);
            assert(s[i + 2] == '0' as u8);
            assert(s[i + 3] == '0' as u8);
            lemma_hex_char_val(c as int / 16);
            lemma_hex_char_val(c as int % 16);
            assert(s[i + 4] == hex_char(c as int / 16));
            assert(s[i + 5] == hex_char(c as int % 16));
            assert(!is_short_escape(s[i + 1]));
            assert((hex_val(s[i + 4]) * 16 + hex_val(s[i + 5])) as u8 == c) by {
                vstd::arithmetic::div_mod::lemma_fundamental_div_mod(c as int, 16);
            };
        } else {
            assert(s[i] == s.subrange(i, i + esc(v).len())[0]);
            assert(s[i] == c);
        }
    }
}

/// The digits of `n` written at `i`, with no digit after them, read back
/// as `n`.
pub proof fn lemma_parse_u64_enc(s: Seq<u8>, i: int, n: int)
    requires
        0 <= n <= u64::MAX,
        0 <= i,
        i + dec_digits(n).len() <= s.len(),
        s.subrange(i, i + dec_digits(n).len()) =~= dec_digits(n),
        i + dec_digits(n).len() == s.len() || !is_digit(s[i + dec_digits(n).len()]),
    ensures
        spec_parse_u64(s, i) == Some((n, i + dec_digits(n).len() as int)),
{
    let j = i + dec_digits(n).len();
    lemma_dec_digits_form(n);
    lemma_digits_val_enc(n);
    assert(forall|k: int| i <= k < j ==> is_digit(#[trigger] s[k])) by {
        assert forall|k: int| i <= k < j implies is_digit(#[trigger] s[k]) by {
            assert(s[k] == s.subrange(i, j)[k - i]);
        };
    };
    assert(is_digit(s[i]));
    lemma_parse_digit_run(s, i, j, 0);
    assert(digits_val(s.subrange(i, j)) == n);
    assert(0 * pow10(j - i) == 0) by (nonlinear_arith);
}

} // verus!
