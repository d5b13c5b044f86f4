use vstd::prelude::*;

verus! {

/// A quantity of money, counted in ten-thousandths of the currency unit,
/// so that balances are exact.
pub type Amount = i64;

/// Number of decimal places an amount carries.
pub const FRACTION_DIGITS: usize = 4;

/// Number of `Amount` units in one currency unit.
pub const UNITS: u64 = 10000;

/// The largest whole part of an amount that can be held in an `Amount`.
pub const MAX_WHOLE: u64 = 922337203685477;

pub open spec fn is_digit(c: char) -> bool {
    '0' <= c && c <= '9'
}

pub open spec fn digit_value(c: char) -> int {
    (c as int) - ('0' as int)
}

pub open spec fn all_digits(s: Seq<char>) -> bool {
    forall|i: int| 0 <= i < s.len() ==> is_digit(#[trigger] s[i])
}

/// The number that the decimal digits `s` spell, most significant first.
pub open spec fn digits_value(s: Seq<char>) -> int
    decreases s.len(),
{
    if s.len() == 0 {
        0
    } else {
        digits_value(s.drop_last()) * 10 + digit_value(s.last())
    }
}

pub open spec fn pow10(n: nat) -> int
    decreases n,
{
    if n == 0 {
        1
    } else {
        10 * pow10((n - 1) as nat)
    }
}

/// `s` reads as an amount whose whole part is the first `k` characters:
/// one or more digits, then nothing, or a point and at most four digits.
pub open spec fn splits_at(s: Seq<char>, k: int) -> bool {
    &&& 0 < k <= s.len()
    &&& all_digits(s.take(k))
    &&& k == s.len() || (s[k] == '.' && s.len() - k - 1 <= FRACTION_DIGITS && all_digits(
        s.skip(k + 1),
    ))
}

/// The number of units that `s`, split as `splits_at(s, k)` says, stands for.
pub open spec fn value_split_at(s: Seq<char>, k: int) -> int {
    digits_value(s.take(k)) * (UNITS as int) + if k < s.len() {
        digits_value(s.skip(k + 1)) * pow10((FRACTION_DIGITS - (s.len() - k - 1)) as nat)
    } else {
        0
    }
}

/// The number of units that the decimal text `s` stands for, or `None` where
/// `s` is not a decimal with at most four places.
pub open spec fn amount_value(s: Seq<char>) -> Option<int> {
    if exists|k: int| splits_at(s, k) {
        Some(value_split_at(s, choose|k: int| splits_at(s, k)))
    } else {
        None
    }
}

proof fn lemma_split_unique(s: Seq<char>, k1: int, k2: int)
    requires
        splits_at(s, k1),
        splits_at(s, k2),
    ensures
        k1 == k2,
{
    if k1 < k2 {
        assert(s.take(k2)[k1] == s[k1]);
    } else if k2 < k1 {
        assert(s.take(k1)[k2] == s[k2]);
    }
}

pub(crate) proof fn lemma_digits_step(s: Seq<char>, i: int)
    requires
        0 <= i < s.len(),
    ensures
        digits_value(s.take(i + 1)) == digits_value(s.take(i)) * 10 + digit_value(s[i]),
{
    assert(s.take(i + 1).drop_last() =~= s.take(i));
}

pub(crate) proof fn lemma_digits_monotone(s: Seq<char>, a: int, b: int)
    requires
        0 <= a <= b <= s.len(),
        all_digits(s.take(b)),
    ensures
        digits_value(s.take(a)) <= digits_value(s.take(b)),
    decreases b - a,
{
    if a < b {
        lemma_digits_step(s, b - 1);
        assert(s.take(b)[b - 1] == s[b - 1]);
        assert(all_digits(s.take(b - 1))) by {
            assert forall|i: int| 0 <= i < b - 1 implies is_digit(#[trigger] s.take(b - 1)[i]) by {
                assert(s.take(b)[i] == s[i]);
            }
        }
        lemma_digits_nonneg(s.take(b - 1));
        lemma_digits_monotone(s, a, b - 1);
    }
}

pub(crate) proof fn lemma_digits_nonneg(s: Seq<char>)
    requires
        all_digits(s),
    ensures
        digits_value(s) >= 0,
    decreases s.len(),
{
    if s.len() > 0 {
        assert(all_digits(s.drop_last())) by {
            assert forall|i: int| 0 <= i < s.len() - 1 implies is_digit(
                #[trigger] s.drop_last()[i],
            ) by {
                assert(s[i] == s.drop_last()[i]);
            }
        }
        assert(is_digit(s[s.len() - 1]));
        lemma_digits_nonneg(s.drop_last());
    }
}

/// Reads a non-negative decimal amount with at most four places ("1",
/// "1.", "1.1234") as a number of units. `None` where the text is not such a
/// decimal, or the amount does not fit in an `Amount`.
pub fn parse_amount(s: &str) -> (r: Option<Amount>)
    ensures
        r == (match amount_value(s@) {
            Some(v) => if v <= i64::MAX {
                Some(v as i64)
            } else {
                None
            },
            None => None,
        }),
{
    let n = s.unicode_len();
    let mut i: usize = 0;
    let mut whole: u64 = 0;
    while i < n
        invariant
            i <= n,
            n == s@.len(),
            all_digits(s@.take(i as int)),
            whole == digits_value(s@.take(i as int)),
            whole <= MAX_WHOLE,
        ensures
            i <= n,
            all_digits(s@.take(i as int)),
            whole == digits_value(s@.take(i as int)),
            whole <= MAX_WHOLE,
            i < n ==> !is_digit(s@[i as int]),
        decreases n - i,
    {
        let c = s.get_char(i);
        if !('0' <= c && c <= '9') {
            break ;
        }
        let d = (c as u32 - '0' as u32) as u64;
        proof {
            lemma_digits_step(s@, i as int);
        }
        assert(all_digits(s@.take(i + 1))) by {
            assert forall|j: int| 0 <= j < i + 1 implies is_digit(#[trigger] s@.take(i + 1)[j]) by {
                if j < i {
                    assert(s@.take(i as int)[j] == s@[j]);
                }
            }
        }
        if whole * 10 + d > MAX_WHOLE {
            proof {
                assert forall|k: int| splits_at(s@, k) implies value_split_at(s@, k) > i64::MAX by {
                    if k <= i {
                        assert(s@.take(i + 1)[k] == s@[k]);
                        assert(!splits_at(s@, k));
                    }
                    lemma_digits_monotone(s@, i + 1, k);
                    lemma_fraction_nonneg(s@, k);
                }
            }
            return None;
        }
        whole = whole * 10 + d;
        i = i + 1;
    }
    proof {
        lemma_digits_nonneg(s@.take(i as int));
    }
    if i == 0 {
        proof {
            assert forall|k: int| !splits_at(s@, k) by {
                if 0 < k <= s@.len() {
                    assert(s@.take(k)[0] == s@[0]);
                }
            }
        }
        return None;
    }
    if i == n {
        proof {
            assert(s@.take(n as int) =~= s@);
            assert(splits_at(s@, n as int));
            assert forall|k: int| splits_at(s@, k) implies k == n by {
                lemma_split_unique(s@, k, n as int);
            }
        }
        return Some((whole * UNITS) as i64);
    }
    let c = s.get_char(i);
    if c != '.' {
        proof {
            assert forall|k: int| !splits_at(s@, k) by {
                if k > i && k <= s@.len() {
                    assert(s@.take(k)[i as int] == s@[i as int]);
                } else if 0 < k < i {
                    assert(s@.take(i as int)[k] == s@[k]);
                }
            }
        }
        return None;
    }
    if n - (i + 1) > FRACTION_DIGITS {
        proof {
            assert forall|k: int| !splits_at(s@, k) by {
                if k > i && k <= s@.len() {
                    assert(s@.take(k)[i as int] == s@[i as int]);
                } else if 0 < k < i {
                    assert(s@.take(i as int)[k] == s@[k]);
                }
            }
        }
        return None;
    }
    parse_fraction(s, i, whole)
}

proof fn lemma_fraction_nonneg(s: Seq<char>, k: int)
    requires
        splits_at(s, k),
    ensures
        value_split_at(s, k) >= digits_value(s.take(k)) * (UNITS as int),
{
    if k < s.len() {
        lemma_digits_nonneg(s.skip(k + 1));
        lemma_pow10_pos((FRACTION_DIGITS - (s.len() - k - 1)) as nat);
        assert(digits_value(s.skip(k + 1)) * pow10(
            (FRACTION_DIGITS - (s.len() - k - 1)) as nat,
        ) >= 0) by (nonlinear_arith)
            requires
                digits_value(s.skip(k + 1)) >= 0,
                pow10((FRACTION_DIGITS - (s.len() - k - 1)) as nat) > 0,
        ;
    }
}

proof fn lemma_pow10_small(n: nat)
    requires
        n <= FRACTION_DIGITS,
    ensures
        n == 0 ==> pow10(n) == 1,
        n == 1 ==> pow10(n) == 10,
        n == 2 ==> pow10(n) == 100,
        n == 3 ==> pow10(n) == 1000,
        n == 4 ==> pow10(n) == 10000,
{
    reveal_with_fuel(pow10, 5);
}

proof fn lemma_pow10_pos(n: nat)
    ensures
        pow10(n) > 0,
    decreases n,
{
    if n > 0 {
        lemma_pow10_pos((n - 1) as nat);
    }
}

/// The rest of `parse_amount`, once a whole part of value `whole` has been
/// read up to the point at position `dot`.
fn parse_fraction(s: &str, dot: usize, whole: u64) -> (r: Option<Amount>)
    requires
        0 < dot < s@.len(),
        s@[dot as int] == '.',
        s@.len() - dot - 1 <= FRACTION_DIGITS,
        all_digits(s@.take(dot as int)),
        whole == digits_value(s@.take(dot as int)),
        whole <= MAX_WHOLE,
    ensures
        r == (match amount_value(s@) {
            Some(v) => if v <= i64::MAX {
                Some(v as i64)
            } else {
                None
            },
            None => None,
        }),
{
    let n = s.unicode_len();
    let ghost f = s@.skip(dot + 1);
    let mut j: usize = dot + 1;
    let mut frac: u64 = 0;
    let mut scale: u64 = 10000;
    proof {
        lemma_pow10_small(FRACTION_DIGITS as nat);
    }
    while j < n
        invariant
            dot < j <= n,
            n == s@.len(),
            s@[dot as int] == '.',
            all_digits(s@.take(dot as int)),
            n - dot - 1 <= FRACTION_DIGITS,
            f == s@.skip(dot + 1),
            all_digits(f.take(j - dot - 1)),
            frac == digits_value(f.take(j - dot - 1)),
            frac < pow10((j - dot - 1) as nat),
            scale == pow10((FRACTION_DIGITS - (j - dot - 1)) as nat),
        decreases n - j,
    {
        let c = s.get_char(j);
        let ghost m = j - dot - 1;
        assert(f[m] == c);
        if !('0' <= c && c <= '9') {
            proof {
                assert forall|k: int| !splits_at(s@, k) by {
                    if k > dot && k <= s@.len() {
                        assert(s@.take(k)[dot as int] == s@[dot as int]);
                    } else if 0 < k < dot {
                        assert(s@.take(dot as int)[k] == s@[k]);
                    } else if k == dot {
                        assert(s@.skip(dot + 1)[m] == f[m]);
                    }
                }
            }
            return None;
        }
        let d = (c as u32 - '0' as u32) as u64;
        proof {
            lemma_digits_step(f, m);
            assert(all_digits(f.take(m + 1))) by {
                assert forall|x: int| 0 <= x < m + 1 implies is_digit(#[trigger] f.take(m + 1)[x]) by {
                    if x < m {
                        assert(f.take(m)[x] == f[x]);
                    }
                }
            }
            lemma_pow10_small(m as nat);
            lemma_pow10_small((FRACTION_DIGITS - m) as nat);
            lemma_pow10_small((FRACTION_DIGITS - m - 1) as nat);
            assert(pow10((m + 1) as nat) == 10 * pow10(m as nat));
            assert(frac * 10 + d < pow10((m + 1) as nat));
        }
        frac = frac * 10 + d;
        scale = scale / 10;
        j = j + 1;
    }
    proof {
        assert(f.take(n - dot - 1) =~= f);
        assert(splits_at(s@, dot as int));
        assert forall|k: int| splits_at(s@, k) implies k == dot by {
            lemma_split_unique(s@, k, dot as int);
        }
    }
    let ghost len = (n - dot - 1) as nat;
    proof {
        lemma_pow10_small(len);
        lemma_pow10_small((FRACTION_DIGITS - len) as nat);
        assert(pow10(len) * pow10((FRACTION_DIGITS - len) as nat) == 10000);
        assert(frac * scale < 10000) by (nonlinear_arith)
            requires
                frac < pow10(len),
                scale == pow10((FRACTION_DIGITS - len) as nat),
                pow10(len) * pow10((FRACTION_DIGITS - len) as nat) == 10000,
                scale > 0,
        ;
        assert(whole * UNITS <= MAX_WHOLE * UNITS) by (nonlinear_arith)
            requires
                whole <= MAX_WHOLE,
        ;
    }
    let whole_units = whole * UNITS;
    match (whole_units as i64).checked_add((frac * scale) as i64) {
        Some(v) => Some(v),
        None => None,
    }
}

/// The decimal digit `d`, for `0 <= d < 10`.
pub open spec fn digit_char(d: int) -> char {
    seq!['0', '1', '2', '3', '4', '5', '6', '7', '8', '9'][d]
}

/// The decimal numeral of `n`, without leading zeros.
pub open spec fn numeral(n: nat) -> Seq<char>
    decreases n,
{
    if n < 10 {
        seq![digit_char(n as int)]
    } else {
        numeral(n / 10).push(digit_char((n % 10) as int))
    }
}

/// The text of `a` units: a minus sign where `a` is negative, the whole
/// part, a point and always four places.
pub open spec fn amount_text(a: int) -> Seq<char> {
    let m = if a < 0 {
        -a
    } else {
        a
    };
    let f = m % (UNITS as int);
    let sign = if a < 0 {
        seq!['-']
    } else {
        Seq::<char>::empty()
    };
    sign + numeral((m / (UNITS as int)) as nat) + seq![
        '.',
        digit_char(f / 1000),
        digit_char(f / 100 % 10),
        digit_char(f / 10 % 10),
        digit_char(f % 10),
    ]
}

fn digit_str(d: u64) -> (r: &'static str)
    requires
        d < 10,
    ensures
        r@ == seq![digit_char(d as int)],
{
    let digits = "0123456789";
    proof {
        reveal_strlit("0123456789");
        assert(digits@ =~= seq!['0', '1', '2', '3', '4', '5', '6', '7', '8', '9']);
    }
    let r = digits.substring_char(d as usize, d as usize + 1);
    assert(r@ =~= seq![digit_char(d as int)]);
    r
}

fn push_numeral(out: &mut String, n: u64)
    ensures
        final(out)@ == old(out)@ + numeral(n as nat),
    decreases n,
{
    if n >= 10 {
        push_numeral(out, n / 10);
    }
    out.append(digit_str(n % 10));
    proof {
        if n >= 10 {
            assert(old(out)@ + numeral((n / 10) as nat) + seq![digit_char((n % 10) as int)]
                =~= old(out)@ + numeral(n as nat));
        } else {
            assert(old(out)@ + seq![digit_char((n % 10) as int)] =~= old(out)@ + numeral(n as nat));
        }
    }
}

/// Writes `a` units as decimal text with four places ("1.1234", "-0.5000").
pub fn format_amount(a: Amount) -> (r: String)
    ensures
        r@ == amount_text(a as int),
{
    let mut out = String::new();
    let m: u64 = if a < 0 {
        out.append("-");
        (0 - (a as i128)) as u64
    } else {
        a as u64
    };
    let ghost sign = out@;
    push_numeral(&mut out, m / UNITS);
    let f = m % UNITS;
    out.append(".");
    out.append(digit_str(f / 1000));
    out.append(digit_str(f / 100 % 10));
    out.append(digit_str(f / 10 % 10));
    out.append(digit_str(f % 10));
    proof {
        reveal_strlit("-");
        reveal_strlit(".");
        assert(a < 0 ==> sign =~= seq!['-']);
        assert(a >= 0 ==> sign =~= Seq::<char>::empty());
        assert(out@ =~= amount_text(a as int));
    }
    out
}

/// The number that `s` spells as one or more decimal digits, where that is
/// at most `max`.
pub open spec fn uint_value(s: Seq<char>, max: int) -> Option<int> {
    if 0 < s.len() && all_digits(s) && digits_value(s) <= max {
        Some(digits_value(s))
    } else {
        None
    }
}

/// Reads an unsigned decimal integer of at most `max`.
pub fn parse_uint(s: &str, max: u64) -> (r: Option<u64>)
    requires
        max <= u32::MAX,
    ensures
        r == (match uint_value(s@, max as int) {
            Some(v) => Some(v as u64),
            None => None,
        }),
        uint_value(s@, max as int) matches Some(v) ==> 0 <= v <= max,
{
    let n = s.unicode_len();
    if n == 0 {
        return None;
    }
    let mut i: usize = 0;
    let mut v: u64 = 0;
    while i < n
        invariant
            i <= n,
            n == s@.len(),
            max <= u32::MAX,
            all_digits(s@.take(i as int)),
            v == digits_value(s@.take(i as int)),
            v <= max,
        decreases n - i,
    {
        let c = s.get_char(i);
        if !('0' <= c && c <= '9') {
            proof {
                assert(!all_digits(s@));
            }
            return None;
        }
        let d = (c as u32 - '0' as u32) as u64;
        proof {
            lemma_digits_step(s@, i as int);
        }
        assert(all_digits(s@.take(i + 1))) by {
            assert forall|j: int| 0 <= j < i + 1 implies is_digit(#[trigger] s@.take(i + 1)[j]) by {
                if j < i {
                    assert(s@.take(i as int)[j] == s@[j]);
                }
            }
        }
        if v * 10 + d > max {
            proof {
                lemma_digits_nonneg(s@.take(i + 1));
                if all_digits(s@) {
                    assert(s@.take(n as int) =~= s@);
                    lemma_digits_monotone(s@, i + 1, n as int);
                }
            }
            return None;
        }
        v = v * 10 + d;
        i = i + 1;
    }
    assert(s@.take(n as int) =~= s@);
    proof {
        lemma_digits_nonneg(s@);
    }
    Some(v)
}

} // verus!
