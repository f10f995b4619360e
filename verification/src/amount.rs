use vstd::prelude::*;
use vstd::string::StringSliceAdditionalSpecFns;

verus! {

/// A decimal digit byte, `'0'` through `'9'`.
pub open spec fn is_digit(b: u8) -> bool {
    48 <= b <= 57
}

/// The numeric value of a digit byte.
pub open spec fn digit_val(b: u8) -> int {
    b - 48
}

/// Whether every byte of `s` is a decimal digit.
pub open spec fn all_digits(s: Seq<u8>) -> bool {
    forall|i: int| 0 <= i < s.len() ==> is_digit(#[trigger] s[i])
}

/// The number written by the digit bytes of `s`, most significant first.
/// The empty sequence writes zero.
pub open spec fn digits_val(s: Seq<u8>) -> int
    decreases s.len(),
{
    if s.len() == 0 {
        0
    } else {
        digits_val(s.drop_last()) * 10 + digit_val(s.last())
    }
}

/// The value of a fractional digit string at a scale of four decimal
/// places: digits past the fourth are truncated, missing ones count as
/// trailing zeroes.
pub open spec fn frac_val(s: Seq<u8>) -> int {
    if s.len() == 0 {
        0
    } else if s.len() == 1 {
        digits_val(s) * 1000
    } else if s.len() == 2 {
        digits_val(s) * 100
    } else if s.len() == 3 {
        digits_val(s) * 10
    } else {
        digits_val(s.take(4))
    }
}

/// Whether position `i` splits `s` into a non-empty whole part, a decimal
/// point, and a (possibly empty) fractional part, all of them digits.
pub open spec fn valid_split(s: Seq<u8>, i: int) -> bool {
    &&& 1 <= i < s.len()
    &&& s[i] == 46
    &&& all_digits(s.take(i))
    &&& all_digits(s.skip(i + 1))
}

/// The fixed-point value written by a decimal amount string, at a scale of
/// 10,000: `None` if the string is not a well-formed non-negative decimal
/// number, otherwise the written value with fractional digits past the
/// fourth truncated, never rounded.
pub open spec fn amount_value(s: Seq<u8>) -> Option<int> {
    if s.len() > 0 && all_digits(s) {
        Some(digits_val(s) * 10000)
    } else if exists|i: int| valid_split(s, i) {
        let i = choose|i: int| valid_split(s, i);
        Some(digits_val(s.take(i)) * 10000 + frac_val(s.skip(i + 1)))
    } else {
        None
    }
}

/// A digit string never writes a negative number.
proof fn lemma_digits_val_nonneg(s: Seq<u8>)
    requires
        all_digits(s),
    ensures
        digits_val(s) >= 0,
    decreases s.len(),
{
    if s.len() > 0 {
        assert(all_digits(s.drop_last()));
        lemma_digits_val_nonneg(s.drop_last());
    }
}

/// A prefix of a digit string never writes a larger number.
proof fn lemma_digits_val_prefix(s: Seq<u8>, k: int)
    requires
        all_digits(s),
        0 <= k <= s.len(),
    ensures
        digits_val(s.take(k)) <= digits_val(s),
    decreases s.len() - k,
{
    if k < s.len() {
        assert(all_digits(s.take(k)));
        lemma_digits_val_nonneg(s.take(k));
        assert(s.take(k + 1).drop_last() =~= s.take(k));
        assert(s.take(k + 1).last() == s[k]);
        lemma_digits_val_prefix(s, k + 1);
    } else {
        assert(s.take(k) =~= s);
    }
}

/// A digit string of at most four digits writes a number below 10,000.
proof fn lemma_digits_val_small(s: Seq<u8>)
    requires
        all_digits(s),
        s.len() <= 4,
    ensures
        digits_val(s) < 10000,
        s.len() <= 3 ==> digits_val(s) < 1000,
        s.len() <= 2 ==> digits_val(s) < 100,
        s.len() <= 1 ==> digits_val(s) < 10,
    decreases s.len(),
{
    if s.len() > 0 {
        assert(all_digits(s.drop_last()));
        lemma_digits_val_small(s.drop_last());
    }
}

/// A string has at most one well-formed decimal point.
proof fn lemma_valid_split_unique(s: Seq<u8>, i: int, j: int)
    requires
        valid_split(s, i),
        valid_split(s, j),
    ensures
        i == j,
{
    if i < j {
        assert(s.skip(i + 1)[j - i - 1] == s[j]);
    }
    if j < i {
        assert(s.skip(j + 1)[i - j - 1] == s[i]);
    }
}

/// The first position at or after `from` that does not hold a digit byte.
fn scan_digits(bytes: &[u8], from: usize) -> (end: usize)
    requires
        from <= bytes@.len(),
    ensures
        from <= end <= bytes@.len(),
        all_digits(bytes@.subrange(from as int, end as int)),
        end < bytes@.len() ==> !is_digit(bytes@[end as int]),
{
    let n: usize = bytes.len();
    let mut k: usize = from;
    while k < n && 48 <= bytes[k] && bytes[k] <= 57
        invariant
            from <= k <= n,
            n == bytes@.len(),
            all_digits(bytes@.subrange(from as int, k as int)),
        decreases n - k,
    {
        k = k + 1;
        proof {
            assert(bytes@.subrange(from as int, k as int) =~= bytes@.subrange(
                from as int,
                k - 1,
            ).push(bytes@[k - 1]));
        }
    }
    k
}

/// Parse the digit bytes of `bytes[from..to]` as a number; `None` if it
/// exceeds `u64::MAX`.
fn digits_to_u64(bytes: &[u8], from: usize, to: usize) -> (r: Option<u64>)
    requires
        from <= to <= bytes@.len(),
        all_digits(bytes@.subrange(from as int, to as int)),
    ensures
        ({
            let v = digits_val(bytes@.subrange(from as int, to as int));
            match r {
                Some(x) => x == v,
                None => v > u64::MAX,
            }
        }),
{
    let ghost whole = bytes@.subrange(from as int, to as int);
    let mut acc: u64 = 0;
    let mut k: usize = from;
    while k < to
        invariant
            from <= k <= to <= bytes@.len(),
            whole == bytes@.subrange(from as int, to as int),
            all_digits(whole),
            acc == digits_val(bytes@.subrange(from as int, k as int)),
        decreases to - k,
    {
        proof {
            assert(whole[k - from] == bytes@[k as int]);
        }
        let d: u8 = bytes[k] - 48;
        let ghost prefix = bytes@.subrange(from as int, k as int);
        proof {
            assert(bytes@.subrange(from as int, (k + 1) as int).drop_last() =~= prefix);
            assert(bytes@.subrange(from as int, (k + 1) as int).last() == bytes@[k as int]);
            assert(prefix =~= whole.take(k - from));
            assert(bytes@.subrange(from as int, (k + 1) as int) =~= whole.take(k + 1 - from));
        }
        let step: Option<u64> = match acc.checked_mul(10) {
            Some(t) => t.checked_add(d as u64),
            None => None,
        };
        match step {
            Some(next) => {
                acc = next;
            },
            None => {
                proof {
                    lemma_digits_val_nonneg(prefix);
                    lemma_digits_val_prefix(whole, k + 1 - from);
                }
                return None;
            },
        }
        k = k + 1;
    }
    proof {
        assert(bytes@.subrange(from as int, k as int) =~= whole);
    }
    Some(acc)
}

/// Parse a decimal amount string into the fixed-point representation at a
/// scale of 10,000, truncating (never rounding) fractional digits past the
/// fourth. Returns `None` when the string is not a well-formed non-negative
/// decimal number, or when the value does not fit in a `u64`.
pub fn parse_amount(s: &str) -> (r: Option<u64>)
    ensures
        r == (match amount_value(s.spec_bytes()) {
            Some(v) => if v <= u64::MAX {
                Some(v as u64)
            } else {
                None::<u64>
            },
            None => None::<u64>,
        }),
{
    let bytes: &[u8] = s.as_bytes();
    let n: usize = bytes.len();
    let ghost bs = s.spec_bytes();
    let e1: usize = scan_digits(bytes, 0);
    if e1 == 0 {
        // empty, or no leading digit: not a number
        proof {
            if n > 0 {
                assert(!is_digit(bs[0]));
                assert(!all_digits(bs));
                assert forall|i: int| !valid_split(bs, i) by {
                    if valid_split(bs, i) {
                        assert(bs.take(i)[0] == bs[0]);
                    }
                }
            }
        }
        return None;
    }
    if e1 == n {
        // a whole number of currency units
        proof {
            assert(bs.subrange(0, n as int) =~= bs);
        }
        let whole: u64 = match digits_to_u64(bytes, 0, n) {
            Some(w) => w,
            None => {
                proof {
                    lemma_digits_val_nonneg(bs);
                }
                return None;
            },
        };
        proof {
            lemma_digits_val_nonneg(bs);
        }
        return whole.checked_mul(10000);
    }
    // a byte stopped the digit scan before the end
    if bytes[e1] != 46 {
        proof {
            assert(!is_digit(bs[e1 as int]) && bs[e1 as int] != 46);
            assert(!all_digits(bs));
            assert forall|i: int| !valid_split(bs, i) by {
                if valid_split(bs, i) {
                    if i < e1 {
                        assert(bs.skip(i + 1)[e1 - i - 1] == bs[e1 as int]);
                    }
                    if i > e1 {
                        assert(bs.take(i)[e1 as int] == bs[e1 as int]);
                    }
                }
            }
        }
        return None;
    }
    // bytes[e1] is the decimal point; the rest must be digits
    let e2: usize = scan_digits(bytes, e1 + 1);
    if e2 != n {
        proof {
            assert(!is_digit(bs[e2 as int]));
            assert(!all_digits(bs));
            assert forall|i: int| !valid_split(bs, i) by {
                if valid_split(bs, i) {
                    if i < e1 {
                        assert(bs.skip(i + 1)[e1 - i - 1] == bs[e1 as int]);
                    }
                    if i > e1 {
                        assert(bs.take(i)[e1 as int] == bs[e1 as int]);
                    }
                    assert(i == e1);
                    assert(bs.skip(i + 1)[e2 - i - 1] == bs[e2 as int]);
                }
            }
        }
        return None;
    }
    proof {
        assert(bs.take(e1 as int) =~= bs.subrange(0, e1 as int));
        assert(bs.skip(e1 + 1) =~= bs.subrange(e1 + 1, n as int));
        assert(valid_split(bs, e1 as int));
        assert(!all_digits(bs));
        lemma_valid_split_unique(bs, e1 as int, choose|i: int| valid_split(bs, i));
    }
    let whole: u64 = match digits_to_u64(bytes, 0, e1) {
        Some(w) => w,
        None => {
            proof {
                lemma_digits_val_nonneg(bs.take(e1 as int));
                assert(frac_val(bs.skip(e1 + 1)) >= 0) by {
                    let fs = bs.skip(e1 + 1);
                    if fs.len() >= 4 {
                        assert(all_digits(fs.take(4)));
                        lemma_digits_val_nonneg(fs.take(4));
                    } else {
                        lemma_digits_val_nonneg(fs);
                    }
                }
            }
            return None;
        },
    };
    // the fractional digits, truncated to at most four
    let flen: usize = n - (e1 + 1);
    let take_n: usize = if flen > 4 {
        4
    } else {
        flen
    };
    proof {
        assert(bs.subrange(e1 + 1, e1 + 1 + take_n) =~= bs.skip(e1 + 1).take(take_n as int));
        if flen > 4 {
            assert(bs.skip(e1 + 1).take(4) =~= bs.subrange(e1 + 1, e1 + 1 + 4));
        } else {
            assert(bs.skip(e1 + 1).take(take_n as int) =~= bs.skip(e1 + 1));
        }
        assert(all_digits(bs.skip(e1 + 1).take(take_n as int)));
        lemma_digits_val_small(bs.skip(e1 + 1).take(take_n as int));
        lemma_digits_val_nonneg(bs.skip(e1 + 1).take(take_n as int));
    }
    // at most four digits always fit
    let fraw: u64 = digits_to_u64(bytes, e1 + 1, e1 + 1 + take_n).unwrap();
    let fv: u64 = if flen == 0 {
        0
    } else if flen == 1 {
        fraw * 1000
    } else if flen == 2 {
        fraw * 100
    } else if flen == 3 {
        fraw * 10
    } else {
        fraw
    };
    proof {
        assert(fv == frac_val(bs.skip(e1 + 1)));
        assert(fv < 10000);
        lemma_digits_val_nonneg(bs.take(e1 as int));
    }
    let base: u64 = match whole.checked_mul(10000) {
        Some(b) => b,
        None => {
            return None;
        },
    };
    base.checked_add(fv)
}

/// The decimal digit bytes of `n`, most significant first.
pub open spec fn dec_digits(n: nat) -> Seq<u8>
    decreases n,
{
    if n <= 9 {
        seq![(48 + n) as u8]
    } else {
        dec_digits(n / 10).push((48 + n % 10) as u8)
    }
}

/// Every byte of a decimal rendering is a digit, and there is at least one.
pub proof fn lemma_dec_digits_are_digits(n: nat)
    ensures
        all_digits(dec_digits(n)),
        dec_digits(n).len() >= 1,
    decreases n,
{
    if n > 9 {
        lemma_dec_digits_are_digits(n / 10);
        let s = dec_digits(n);
        assert forall|i: int| 0 <= i < s.len() implies is_digit(#[trigger] s[i]) by {
            if i < s.len() - 1 {
                assert(s[i] == dec_digits(n / 10)[i]);
            }
        }
    }
}

/// Whether every byte of `s` is seven-bit ASCII.
pub open spec fn ascii(s: Seq<u8>) -> bool {
    forall|i: int| 0 <= i < s.len() ==> #[trigger] s[i] < 128
}

/// ASCII survives concatenation.
pub proof fn lemma_ascii_concat(a: Seq<u8>, b: Seq<u8>)
    requires
        ascii(a),
        ascii(b),
    ensures
        ascii(a + b),
{
    assert forall|i: int| 0 <= i < (a + b).len() implies #[trigger] (a + b)[i] < 128 by {
        if i < a.len() {
            assert((a + b)[i] == a[i]);
        } else {
            assert((a + b)[i] == b[i - a.len()]);
        }
    }
}

/// A digit string is ASCII.
pub proof fn lemma_digits_ascii(s: Seq<u8>)
    requires
        all_digits(s),
    ensures
        ascii(s),
{
}

/// Append the decimal digits of `n` to `out`.
pub(crate) fn push_dec(out: &mut Vec<u8>, n: u64)
    ensures
        final(out)@ == old(out)@ + dec_digits(n as nat),
    decreases n,
{
    if n <= 9 {
        out.push(48 + n as u8);
        proof {
            assert(out@ =~= old(out)@ + dec_digits(n as nat));
        }
    } else {
        push_dec(out, n / 10);
        out.push(48 + (n % 10) as u8);
        proof {
            assert(out@ =~= old(out)@ + dec_digits(n as nat));
        }
    }
}

/// The decimal rendering of a fixed-point amount: the whole units, a
/// decimal point, and exactly four fractional digits.
pub open spec fn amount_bytes(x: u64) -> Seq<u8> {
    dec_digits((x / 10000) as nat) + seq![
        46u8,
        (48 + (x / 1000) % 10) as u8,
        (48 + (x / 100) % 10) as u8,
        (48 + (x / 10) % 10) as u8,
        (48 + x % 10) as u8,
    ]
}

/// Every byte of a rendered amount is ASCII: a digit or the decimal point.
pub proof fn lemma_amount_bytes_ascii(x: u64)
    ensures
        ascii(amount_bytes(x)),
{
    lemma_dec_digits_are_digits((x / 10000) as nat);
    let d = dec_digits((x / 10000) as nat);
    let s = amount_bytes(x);
    assert forall|i: int| 0 <= i < s.len() implies #[trigger] s[i] < 128 by {
        if i < d.len() {
            assert(s[i] == d[i]);
        }
    }
}

/// The characters written by a sequence of ASCII bytes.
pub open spec fn chars_of(s: Seq<u8>) -> Seq<char> {
    s.map_values(|b: u8| b as char)
}

/// Relies on `String::from_utf8`: a vector of ASCII bytes becomes the
/// string whose characters are exactly those bytes.
#[verifier::external_body]
pub(crate) fn ascii_string(bytes: Vec<u8>) -> (s: String)
    requires
        ascii(bytes@),
    ensures
        s@.len() == bytes@.len(),
        forall|i: int| 0 <= i < bytes@.len() ==> s@[i] == bytes@[i] as char,
{
    String::from_utf8(bytes).unwrap_or_default()
}

/// Render a fixed-point amount back to a decimal string with exactly four
/// fractional digits: the amount divided by 10,000, a decimal point, and
/// the remainder zero-padded to four digits.
pub fn render_amount(x: u64) -> (s: String)
    ensures
        s@ == chars_of(amount_bytes(x)),
{
    let mut out: Vec<u8> = Vec::new();
    push_amount(&mut out, x);
    proof {
        assert(out@ =~= amount_bytes(x));
        lemma_amount_bytes_ascii(x);
    }
    let s = ascii_string(out);
    proof {
        assert(s@ =~= chars_of(amount_bytes(x)));
    }
    s
}

/// Parsing the decimal digits of `n` gives back `n`.
pub proof fn lemma_dec_digits_value(n: nat)
    ensures
        digits_val(dec_digits(n)) == n,
    decreases n,
{
    reveal_with_fuel(digits_val, 3);
    if n <= 9 {
        assert(dec_digits(n).drop_last() =~= Seq::<u8>::empty());
        assert(dec_digits(n).last() == (48 + n) as u8);
    } else {
        lemma_dec_digits_value(n / 10);
        assert(dec_digits(n).drop_last() =~= dec_digits(n / 10));
        assert(dec_digits(n).last() == (48 + n % 10) as u8);
        assert(digit_val((48 + n % 10) as u8) == n % 10);
    }
}

/// The decimal rendering of a fixed-point amount is lossless: parsing it
/// back returns exactly the amount that was rendered.
pub proof fn lemma_render_parse_round_trip(x: u64)
    ensures
        amount_value(amount_bytes(x)) == Some(x as int),
{
    let d = dec_digits((x / 10000) as nat);
    let s = amount_bytes(x);
    lemma_dec_digits_are_digits((x / 10000) as nat);
    lemma_dec_digits_value((x / 10000) as nat);
    let i = d.len() as int;
    let t: u8 = (48 + (x / 1000) % 10) as u8;
    let h: u8 = (48 + (x / 100) % 10) as u8;
    let te: u8 = (48 + (x / 10) % 10) as u8;
    let o: u8 = (48 + x % 10) as u8;
    let frac = seq![t, h, te, o];
    assert(s[i] == 46);
    assert(s.take(i) =~= d);
    assert(s.skip(i + 1) =~= frac);
    assert(is_digit(t) && is_digit(h) && is_digit(te) && is_digit(o));
    assert(all_digits(frac)) by {
        assert forall|k: int| 0 <= k < frac.len() implies is_digit(#[trigger] frac[k]) by {
            if k == 0 {
                assert(frac[k] == t);
            } else if k == 1 {
                assert(frac[k] == h);
            } else if k == 2 {
                assert(frac[k] == te);
            } else {
                assert(frac[k] == o);
            }
        }
    }
    assert(valid_split(s, i));
    assert(!all_digits(s)) by {
        assert(!is_digit(s[i]));
    }
    let j = choose|j: int| valid_split(s, j);
    lemma_valid_split_unique(s, i, j);
    // the four fractional digits write exactly the remainder
    assert(frac.take(4) =~= frac);
    let f3 = seq![t, h, te];
    let f2 = seq![t, h];
    let f1 = seq![t];
    assert(frac.drop_last() =~= f3);
    assert(f3.drop_last() =~= f2);
    assert(f2.drop_last() =~= f1);
    assert(f1.drop_last() =~= Seq::<u8>::empty());
    assert(frac.last() == o && f3.last() == te && f2.last() == h && f1.last() == t);
    assert(digit_val(t) == (x / 1000) % 10);
    assert(digit_val(h) == (x / 100) % 10);
    assert(digit_val(te) == (x / 10) % 10);
    assert(digit_val(o) == x % 10);
    reveal_with_fuel(digits_val, 2);
    assert(digits_val(f1) == digit_val(t));
    assert(digits_val(f2) == digit_val(t) * 10 + digit_val(h));
    assert(digits_val(f3) == digits_val(f2) * 10 + digit_val(te));
    assert(digits_val(frac) == digits_val(f3) * 10 + digit_val(o));
    vstd::arithmetic::div_mod::lemma_div_denominator(x as int, 10, 10);
    vstd::arithmetic::div_mod::lemma_div_denominator(x as int, 100, 10);
    vstd::arithmetic::div_mod::lemma_div_denominator(x as int, 1000, 10);
    assert(digits_val(frac) == ((x / 1000) % 10) * 1000 + ((x / 100) % 10) * 100 + ((x / 10) % 10)
        * 10 + x % 10);
    assert((x / 10000) * 10000 + digits_val(frac) == x);
}

/// Append the decimal rendering of a fixed-point amount to `out`.
pub(crate) fn push_amount(out: &mut Vec<u8>, x: u64)
    ensures
        final(out)@ == old(out)@ + amount_bytes(x),
{
    push_dec(out, x / 10000);
    out.push(46);
    out.push(48 + ((x / 1000) % 10) as u8);
    out.push(48 + ((x / 100) % 10) as u8);
    out.push(48 + ((x / 10) % 10) as u8);
    out.push(48 + (x % 10) as u8);
    proof {
        assert(out@ =~= old(out)@ + amount_bytes(x));
    }
}

} // verus!
