//! Exact decimal amounts of money, read from decimal text, and written with two
//! decimals only at the end.

use crate::natural::{add_naturals, div_rem, from_u64, is_zero, mul_add, nat_of, to_decimal_text};
use crate::text::{
    all_digits, chars_of, digit_value, digits_value, first_index, is_digit,
    lemma_first_index_from_bounds, nat_text, padded_text, padded_to_text,
};
use vstd::arithmetic::div_mod::lemma_div_denominator;
use vstd::prelude::*;

verus! {

/// An exact decimal amount: `mantissa / 10^scale`, negated when `negative`.
#[derive(Clone, Debug, PartialEq, Eq)]
pub struct Decimal {
    pub negative: bool,
    /// The digits of the amount without its point, as a natural number.
    pub mantissa: Vec<u32>,
    /// The number of decimals.
    pub scale: usize,
}

impl Decimal {
    /// The numerator of the amount over `10^scale`, with its sign.
    pub open spec fn numerator(self) -> int {
        if self.negative {
            -nat_of(self.mantissa@)
        } else {
            nat_of(self.mantissa@) as int
        }
    }

    pub open spec fn denominator(self) -> int {
        pow10(self.scale as nat)
    }
}

/// Why a decimal amount could not be read.
#[derive(Clone, Copy, Debug, PartialEq, Eq, Structural)]
pub enum AmountError {
    /// The text is not an optional `-`, digits, and optionally `.` and digits.
    Malformed,
}

pub open spec fn pow10(n: nat) -> int
    decreases n,
{
    if n == 0 {
        1
    } else {
        10 * pow10((n - 1) as nat)
    }
}

/// The digits before the `.` of a decimal amount.
pub open spec fn whole_part(s: Seq<char>) -> Seq<char> {
    s.take(first_index(s, '.'))
}

/// The digits after the `.` of a decimal amount, if it has one.
pub open spec fn fraction_part(s: Seq<char>) -> Seq<char> {
    if first_index(s, '.') < s.len() {
        s.skip(first_index(s, '.') + 1)
    } else {
        seq![]
    }
}

/// Digits, optionally followed by `.` and at least one digit.
pub open spec fn is_unsigned_amount_text(u: Seq<char>) -> bool {
    &&& whole_part(u).len() > 0
    &&& all_digits(whole_part(u))
    &&& first_index(u, '.') < u.len() ==> fraction_part(u).len() >= 1
    &&& all_digits(fraction_part(u))
}

/// The text starts with a minus sign.
pub open spec fn is_negative_text(s: Seq<char>) -> bool {
    s.len() > 0 && s[0] == '-'
}

/// The text without its minus sign.
pub open spec fn unsigned_part(s: Seq<char>) -> Seq<char> {
    if is_negative_text(s) {
        s.drop_first()
    } else {
        s
    }
}

/// An optional `-`, digits, optionally followed by `.` and at least one digit.
pub open spec fn is_amount_text(s: Seq<char>) -> bool {
    is_unsigned_amount_text(unsigned_part(s))
}

/// The digits of an amount text without its point: the amount times `10^scale`.
pub open spec fn amount_digits(u: Seq<char>) -> Seq<char> {
    whole_part(u) + fraction_part(u)
}

pub open spec fn abs(x: int) -> int {
    if x < 0 {
        -x
    } else {
        x
    }
}

/// The product of some positive factors.
pub open spec fn product(fs: Seq<u64>) -> int
    decreases fs.len(),
{
    if fs.len() == 0 {
        1
    } else {
        product(fs.drop_last()) * fs.last()
    }
}

/// The whole hundredths of `size / den`, rounded half up.
pub open spec fn rounded_cents(size: int, den: int) -> int {
    (200 * size + den) / (2 * den)
}

/// The amount `num / den` written with two decimals, its size rounded half up;
/// an amount that rounds to zero has no sign.
pub open spec fn cost_text(num: int, den: int) -> Seq<char> {
    let cents = rounded_cents(abs(num), den);
    (if num < 0 && cents > 0 {
        seq!['-']
    } else {
        seq![]
    }) + nat_text((cents / 100) as nat) + seq!['.'] + padded_text((cents % 100) as nat, 2)
}

proof fn lemma_digits_value_grows(s: Seq<char>, i: int)
    requires
        0 <= i < s.len(),
        all_digits(s),
    ensures
        digits_value(s.take(i + 1)) == digits_value(s.take(i)) * 10 + digit_value(s[i]),
        digits_value(s.take(i)) >= 0,
        digits_value(s.take(i + 1)) >= digits_value(s.take(i)),
    decreases i,
{
    assert(s.take(i + 1).drop_last() =~= s.take(i));
    if i > 0 {
        lemma_digits_value_grows(s, i - 1);
    } else {
        assert(s.take(0) =~= seq![]);
    }
    assert(is_digit(s[i]));
}

/// The number that a string of decimal digits writes.
fn digits_to_natural(digits: &Vec<char>) -> (r: Vec<u32>)
    requires
        all_digits(digits@),
    ensures
        nat_of(r@) == digits_value(digits@),
{
    let mut mantissa: Vec<u32> = Vec::new();
    let mut k: usize = 0;
    assert(digits@.take(0) =~= Seq::<char>::empty());
    while k < digits.len()
        invariant
            k <= digits@.len(),
            all_digits(digits@),
            nat_of(mantissa@) == digits_value(digits@.take(k as int)),
        decreases digits.len() - k,
    {
        proof {
            lemma_digits_value_grows(digits@, k as int);
        }
        let d = (digits[k] as u32 - '0' as u32) as u64;
        mantissa = mul_add(&mantissa, 10, d);
        k = k + 1;
    }
    assert(digits@.take(digits@.len() as int) =~= digits@);
    mantissa
}

/// Reads a decimal amount of currency (`12`, `-12.5`, `0.0000000001`) exactly.
#[verifier::rlimit(40)]
pub fn parse_amount(s: &str) -> (r: Result<Decimal, AmountError>)
    ensures
        !is_amount_text(s@) ==> r == Err::<Decimal, AmountError>(AmountError::Malformed),
        is_amount_text(s@) ==> (r matches Ok(d) && d.negative == is_negative_text(s@) && nat_of(
            d.mantissa@,
        ) == digits_value(amount_digits(unsigned_part(s@))) && d.scale == fraction_part(
            unsigned_part(s@),
        ).len()),
{
    let n0 = s.unicode_len();
    let negative = n0 > 0 && s.get_char(0) == '-';
    let unsigned = if negative {
        s.substring_char(1, n0)
    } else {
        s
    };
    assert(negative == is_negative_text(s@));
    assert(unsigned@ =~= unsigned_part(s@));
    let ghost u = unsigned@;
    let c = chars_of(unsigned);
    let n = c.len();
    let mut p: usize = 0;
    while p < n && c[p] != '.'
        invariant
            c@ == u,
            n == c@.len(),
            p <= n,
            forall|j: int| 0 <= j < p ==> c@[j] != '.',
        decreases n - p,
    {
        p = p + 1;
    }
    proof {
        lemma_first_index_from_bounds(u, '.', 0);
        let f = first_index(u, '.');
        if f < p {
            assert(u[f] == '.');
        }
        if p < f {
            assert(u[p as int] == '.');
        }
        assert(whole_part(u) =~= c@.subrange(0, p as int));
        if p < n {
            assert(fraction_part(u) =~= c@.subrange(p + 1, n as int));
        } else {
            assert(fraction_part(u) =~= c@.subrange(n as int, n as int));
        }
    }
    let frac_from: usize = if p < n {
        p + 1
    } else {
        n
    };
    let frac_len = n - frac_from;
    if p == 0 || (p < n && frac_len < 1) {
        return Err(AmountError::Malformed);
    }
    let mut digits: Vec<char> = Vec::new();
    let mut i: usize = 0;
    while i < n
        invariant
            c@ == u,
            n == c@.len(),
            p <= n,
            frac_from <= n,
            p < n ==> frac_from == p + 1,
            p == n ==> frac_from == n,
            whole_part(u) == c@.subrange(0, p as int),
            fraction_part(u) == c@.subrange(frac_from as int, n as int),
            forall|j: int| 0 <= j < i && j != p ==> is_digit(#[trigger] c@[j]),
            u == unsigned_part(s@),
            i <= p ==> digits@ == c@.subrange(0, i as int),
            i > p ==> digits@ == c@.subrange(0, p as int) + c@.subrange(frac_from as int, i as int),
            i <= n,
        decreases n - i,
    {
        if i != p && !('0' <= c[i] && c[i] <= '9') {
            proof {
                if i < p {
                    assert(whole_part(u)[i as int] == c@[i as int]);
                } else {
                    assert(fraction_part(u)[i - frac_from] == c@[i as int]);
                }
            }
            return Err(AmountError::Malformed);
        }
        if i != p {
            let ghost before = digits@;
            digits.push(c[i]);
            proof {
                if i < p {
                    assert(digits@ =~= c@.subrange(0, i + 1));
                } else {
                    assert(digits@ =~= c@.subrange(0, p as int) + c@.subrange(
                        frac_from as int,
                        i + 1,
                    ));
                }
            }
        } else {
            assert(c@.subrange(frac_from as int, i + 1) =~= Seq::<char>::empty());
            assert(digits@ =~= c@.subrange(0, p as int) + c@.subrange(frac_from as int, i + 1));
        }
        i = i + 1;
    }
    proof {
        if p == n {
            assert(c@.subrange(frac_from as int, n as int) =~= Seq::<char>::empty());
            assert(digits@ =~= c@.subrange(0, p as int) + c@.subrange(frac_from as int, n as int));
        }
        assert(digits@ == amount_digits(u));
        assert(all_digits(digits@));
    }
    let mantissa = digits_to_natural(&digits);
    assert(nat_of(mantissa@) == digits_value(amount_digits(unsigned_part(s@))));
    assert(frac_len == fraction_part(unsigned_part(s@)).len());
    assert(is_amount_text(s@));
    Ok(Decimal { negative, mantissa, scale: frac_len })
}

/// Writes `num / (10^tens * product(factors))`, negated when `negative`, with
/// two decimals, its size rounded half up.
pub fn format_ratio(negative: bool, num: &Vec<u32>, tens: usize, factors: &Vec<u64>) -> (r: String)
    requires
        forall|i: int| 0 <= i < factors@.len() ==> #[trigger] factors@[i] > 0,
    ensures
        r@ == cost_text(
            if negative {
                -nat_of(num@)
            } else {
                nat_of(num@) as int
            },
            pow10(tens as nat) * product(factors@),
        ),
{
    let ghost size = nat_of(num@) as int;
    let mut den = from_u64(1);
    let mut k: usize = 0;
    while k < tens
        invariant
            k <= tens,
            nat_of(den@) == pow10(k as nat),
        decreases tens - k,
    {
        den = mul_add(&den, 10, 0);
        k = k + 1;
    }
    let mut j: usize = 0;
    assert(factors@.take(0) =~= Seq::<u64>::empty());
    while j < factors.len()
        invariant
            j <= factors@.len(),
            nat_of(den@) == pow10(tens as nat) * product(factors@.take(j as int)),
        decreases factors.len() - j,
    {
        assert(factors@.take(j + 1).drop_last() =~= factors@.take(j as int));
        let f = factors[j];
        den = mul_add(&den, f, 0);
        assert(pow10(tens as nat) * product(factors@.take(j as int)) * f == pow10(tens as nat) * (
        product(factors@.take(j as int)) * f)) by (nonlinear_arith);
        j = j + 1;
    }
    assert(factors@.take(factors@.len() as int) =~= factors@);
    let ghost dd = nat_of(den@) as int;
    let ghost y = 200 * size + dd;
    let scaled = mul_add(num, 200, 0);
    let total = add_naturals(&scaled, &den);
    let (mut q, _) = div_rem(&total, 2);
    proof {
        lemma_pow10_positive(tens as nat);
        lemma_product_positive(factors@);
    }
    let mut k: usize = 0;
    while k < tens
        invariant
            k <= tens,
            y >= 0,
            nat_of(q@) == y / (2 * pow10(k as nat)),
        decreases tens - k,
    {
        let (next, _) = div_rem(&q, 10);
        proof {
            lemma_pow10_positive(k as nat);
            lemma_div_denominator(y, 2 * pow10(k as nat), 10);
            assert(2 * pow10(k as nat) * 10 == 2 * pow10((k + 1) as nat)) by (nonlinear_arith)
                requires
                    pow10((k + 1) as nat) == 10 * pow10(k as nat),
            ;
        }
        q = next;
        k = k + 1;
    }
    let mut j: usize = 0;
    while j < factors.len()
        invariant
            j <= factors@.len(),
            y >= 0,
            forall|i: int| 0 <= i < factors@.len() ==> #[trigger] factors@[i] > 0,
            nat_of(q@) == y / (2 * pow10(tens as nat) * product(factors@.take(j as int))),
        decreases factors.len() - j,
    {
        let f = factors[j];
        let (next, _) = div_rem(&q, f);
        proof {
            assert(factors@.take(j + 1).drop_last() =~= factors@.take(j as int));
            lemma_pow10_positive(tens as nat);
            lemma_product_positive(factors@.take(j as int));
            let pw = pow10(tens as nat);
            let pr = product(factors@.take(j as int));
            let a = 2 * pw * pr;
            assert(a > 0) by (nonlinear_arith)
                requires
                    pw >= 1,
                    pr >= 1,
                    a == 2 * pw * pr,
            ;
            lemma_div_denominator(y, a, f as int);
            assert(a * f == 2 * pow10(tens as nat) * product(factors@.take(j + 1)))
                by (nonlinear_arith)
                requires
                    a == 2 * pow10(tens as nat) * product(factors@.take(j as int)),
                    product(factors@.take(j + 1)) == product(factors@.take(j as int)) * f,
            ;
        }
        q = next;
        j = j + 1;
    }
    assert(2 * pow10(tens as nat) * product(factors@) == 2 * dd) by (nonlinear_arith)
        requires
            dd == pow10(tens as nat) * product(factors@),
    ;
    let ghost cents = nat_of(q@) as int;
    let ghost signed = if negative {
        -size
    } else {
        size
    };
    proof {
        assert(abs(signed) == size);
        assert(cents == rounded_cents(size, dd));
        lemma_pow10_positive(tens as nat);
        lemma_product_positive(factors@);
        assert(dd >= 1) by (nonlinear_arith)
            requires
                dd == pow10(tens as nat) * product(factors@),
                pow10(tens as nat) >= 1,
                product(factors@) >= 1,
        ;
        if size == 0 {
            vstd::arithmetic::div_mod::lemma_basic_div(dd, 2 * dd);
            assert(cents == 0);
        }
    }
    let (whole, cents_part) = div_rem(&q, 100);
    let mut out = if negative && !is_zero(&q) {
        String::from_str("-")
    } else {
        String::new()
    };
    proof {
        reveal_strlit("-");
        reveal_strlit(".");
    }
    let whole_text = to_decimal_text(&whole);
    out.append(whole_text.as_str());
    out.append(".");
    let fraction = padded_to_text(cents_part as u32, 2);
    out.append(fraction.as_str());
    proof {
        let sign = if signed < 0 && cents > 0 {
            seq!['-']
        } else {
            Seq::<char>::empty()
        };
        assert(out@ =~= sign + nat_text((cents / 100) as nat) + seq!['.'] + padded_text(
            (cents % 100) as nat,
            2,
        ));
    }
    out
}

proof fn lemma_pow10_positive(n: nat)
    ensures
        pow10(n) >= 1,
    decreases n,
{
    if n > 0 {
        lemma_pow10_positive((n - 1) as nat);
    }
}

proof fn lemma_product_positive(fs: Seq<u64>)
    requires
        forall|i: int| 0 <= i < fs.len() ==> #[trigger] fs[i] > 0,
    ensures
        product(fs) >= 1,
    decreases fs.len(),
{
    if fs.len() > 0 {
        lemma_product_positive(fs.drop_last());
        assert(fs.last() > 0);
        assert(product(fs.drop_last()) * fs.last() >= 1) by (nonlinear_arith)
            requires
                product(fs.drop_last()) >= 1,
                fs.last() >= 1,
        ;
    }
}

} // verus!
