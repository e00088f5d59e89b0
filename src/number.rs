//! Unsigned integers written in a given radix.
use vstd::prelude::*;
use vstd::arithmetic::div_mod::lemma_fundamental_div_mod;
use vstd::arithmetic::power::pow;

verus! {

/// Whether `c` is a digit in `radix` (10 or 16; hexadecimal letters in either case).
pub open spec fn is_digit(c: char, radix: nat) -> bool {
    ('0' <= c && c <= '9')
        || (radix == 16 && (('a' <= c && c <= 'f') || ('A' <= c && c <= 'F')))
}

/// The value of the digit `c`.
pub open spec fn digit_value(c: char) -> nat {
    if '0' <= c && c <= '9' {
        (c as nat - '0' as nat) as nat
    } else if 'a' <= c && c <= 'f' {
        (c as nat - 'a' as nat + 10) as nat
    } else {
        (c as nat - 'A' as nat + 10) as nat
    }
}

/// Whether every character of `s` is a digit in `radix`.
pub open spec fn all_digits(s: Seq<char>, radix: nat) -> bool {
    forall|i: int| 0 <= i < s.len() ==> #[trigger] is_digit(s[i], radix)
}

/// The number that the digits `s` denote in `radix`, most significant first.
pub open spec fn digits_value(s: Seq<char>, radix: nat) -> nat
    decreases s.len(),
{
    if s.len() == 0 {
        0
    } else {
        digits_value(s.drop_last(), radix) * radix + digit_value(s.last())
    }
}

/// Whether `s` is a non-empty run of digits in `radix` whose value fits in a `u64`.
pub open spec fn is_number(s: Seq<char>, radix: nat) -> bool {
    s.len() > 0 && all_digits(s, radix) && digits_value(s, radix) <= u64::MAX
}

/// `s[lo..hi]` read as a number in `radix`, where it is one that fits in a `u64`.
pub open spec fn number_in(s: Seq<char>, lo: int, hi: int, radix: nat) -> Option<u64> {
    if is_number(s.subrange(lo, hi), radix) {
        Some(digits_value(s.subrange(lo, hi), radix) as u64)
    } else {
        None
    }
}

/// Appending a digit never makes the value smaller.
proof fn lemma_value_grows(s: Seq<char>, i: int, j: int, radix: nat)
    requires
        0 <= i <= j <= s.len(),
        radix == 10 || radix == 16,
    ensures
        digits_value(s.subrange(0, i), radix) <= digits_value(s.subrange(0, j), radix),
    decreases j - i,
{
    if i < j {
        lemma_value_grows(s, i, j - 1, radix);
        let p = s.subrange(0, j);
        assert(p.drop_last() =~= s.subrange(0, j - 1));
        assert(digits_value(p, radix) == digits_value(s.subrange(0, j - 1), radix) * radix
            + digit_value(p.last()));
        assert(digits_value(s.subrange(0, j - 1), radix) * radix >= digits_value(
            s.subrange(0, j - 1),
            radix,
        )) by (nonlinear_arith)
            requires
                radix >= 1,
        ;
    }
}

/// Reads `s[lo..hi]` as a number in `radix`; `None` unless it is one that fits in a `u64`.
pub fn parse_number(s: &Vec<char>, lo: usize, hi: usize, radix: u64) -> (r: Option<u64>)
    requires
        lo <= hi <= s@.len(),
        radix == 10 || radix == 16,
    ensures
        r is Some <==> is_number(s@.subrange(lo as int, hi as int), radix as nat),
        r matches Some(v) ==> v == digits_value(s@.subrange(lo as int, hi as int), radix as nat),
        r == number_in(s@, lo as int, hi as int, radix as nat),
{
    let ghost t = s@.subrange(lo as int, hi as int);
    if lo == hi {
        return None;
    }
    let mut v: u64 = 0;
    let mut i: usize = lo;
    let mut overflow = false;
    while i < hi
        invariant
            lo <= i <= hi <= s@.len(),
            t == s@.subrange(lo as int, hi as int),
            radix == 10 || radix == 16,
            forall|k: int| lo <= k < i ==> is_digit(#[trigger] s@[k], radix as nat),
            !overflow ==> v == digits_value(t.subrange(0, i - lo), radix as nat),
            overflow ==> digits_value(t.subrange(0, i - lo), radix as nat) > u64::MAX,
        decreases hi - i,
    {
        let c = s[i];
        let is_dec = '0' <= c && c <= '9';
        let is_lower = radix == 16 && 'a' <= c && c <= 'f';
        let is_upper = radix == 16 && 'A' <= c && c <= 'F';
        if !(is_dec || is_lower || is_upper) {
            assert(!is_digit(t[i - lo], radix as nat));
            return None;
        }
        let d: u64 = if is_dec {
            (c as u32 - '0' as u32) as u64
        } else if is_lower {
            (c as u32 - 'a' as u32 + 10) as u64
        } else {
            (c as u32 - 'A' as u32 + 10) as u64
        };
        proof {
            let p = t.subrange(0, i - lo + 1);
            assert(p.drop_last() =~= t.subrange(0, i - lo));
            assert(p.last() == c);
            assert(digit_value(c) == d);
        }
        if !overflow {
            let lim = (u64::MAX - d) / radix;
            if v > lim {
                overflow = true;
                assert(v * radix + d > u64::MAX) by (nonlinear_arith)
                    requires
                        v > lim,
                        lim == (u64::MAX - d) as int / radix as int,
                        radix > 0,
                        d <= u64::MAX,
                ;
            } else {
                assert(v * radix + d <= u64::MAX) by (nonlinear_arith)
                    requires
                        v <= lim,
                        lim == (u64::MAX - d) as int / radix as int,
                        radix > 0,
                        d <= u64::MAX,
                ;
                v = v * radix + d;
            }
        } else {
            proof {
                lemma_value_grows(t, i - lo, i - lo + 1, radix as nat);
            }
        }
        i = i + 1;
    }
    proof {
        assert(t.subrange(0, t.len() as int) =~= t);
        assert(all_digits(t, radix as nat)) by {
            assert forall|k: int| 0 <= k < t.len() implies #[trigger] is_digit(t[k], radix as nat) by {
                assert(t[k] == s@[lo + k]);
            }
        }
    }
    if overflow {
        None
    } else {
        Some(v)
    }
}

/// The digit characters, by value: `0`-`9` then `a`-`f`.
pub open spec fn digit_chars() -> Seq<char> {
    seq!['0', '1', '2', '3', '4', '5', '6', '7', '8', '9', 'a', 'b', 'c', 'd', 'e', 'f']
}

/// `v` written with exactly `width` digits in `radix`, zero-padded on the left
/// (only the low `width` digits are kept).
pub open spec fn render(v: nat, radix: nat, width: nat) -> Seq<char>
    decreases width,
{
    if width == 0 || radix == 0 {
        Seq::empty()
    } else {
        render(v / radix, radix, (width - 1) as nat).push(digit_chars()[(v % radix) as int])
    }
}

proof fn lemma_digit_char(d: nat, radix: nat)
    requires
        radix == 10 || radix == 16,
        d < radix,
    ensures
        is_digit(digit_chars()[d as int], radix),
        digit_value(digit_chars()[d as int]) == d,
{
    let t = digit_chars();
    assert(t[0] == '0' && t[1] == '1' && t[2] == '2' && t[3] == '3' && t[4] == '4');
    assert(t[5] == '5' && t[6] == '6' && t[7] == '7' && t[8] == '8' && t[9] == '9');
    assert(t[10] == 'a' && t[11] == 'b' && t[12] == 'c' && t[13] == 'd' && t[14] == 'e'
        && t[15] == 'f');
}

/// A number written with enough digits in radix 10 or 16 reads back as itself:
/// the written form is a run of digits whose value is the number.
pub proof fn lemma_render_round_trip(v: nat, radix: nat, width: nat)
    requires
        radix == 10 || radix == 16,
        v < pow(radix as int, width),
    ensures
        render(v, radix, width).len() == width,
        all_digits(render(v, radix, width), radix),
        digits_value(render(v, radix, width), radix) == v,
    decreases width,
{
    if width == 0 {
        assert(pow(radix as int, 0) == 1) by {
            vstd::arithmetic::power::lemma_pow0(radix as int);
        }
    } else {
        let w1 = (width - 1) as nat;
        let q = v / radix;
        let d = v % radix;
        lemma_fundamental_div_mod(v as int, radix as int);
        let p = pow(radix as int, w1);
        assert(pow(radix as int, width) == radix * p) by {
            vstd::arithmetic::power::lemma_pow_adds(radix as int, 1, w1);
            vstd::arithmetic::power::lemma_pow1(radix as int);
        }
        assert(q < p) by (nonlinear_arith)
            requires
                v == radix * q + d,
                0 <= d,
                v < radix * p,
                radix > 0,
        ;
        lemma_render_round_trip(q, radix, w1);
        lemma_digit_char(d, radix);
        let r = render(v, radix, width);
        assert(r.drop_last() =~= render(q, radix, w1));
        assert forall|i: int| 0 <= i < r.len() implies #[trigger] is_digit(r[i], radix) by {
            if i < r.len() - 1 {
                assert(r[i] == render(q, radix, w1)[i]);
            }
        }
    }
}

/// A number of a `u64` field, written with `width` digits (at least one, and
/// enough for it), is read back exactly by `parse_number`'s specification.
pub proof fn lemma_number_round_trip(v: u64, radix: nat, width: nat)
    requires
        radix == 10 || radix == 16,
        width >= 1,
        v < pow(radix as int, width),
    ensures
        number_in(render(v as nat, radix, width), 0, width as int, radix) == Some(v),
{
    let r = render(v as nat, radix, width);
    lemma_render_round_trip(v as nat, radix, width);
    assert(r.subrange(0, width as int) =~= r);
}

} // verus!
