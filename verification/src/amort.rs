use vstd::prelude::*;
use vstd::arithmetic::div_mod::{
    lemma_div_is_ordered, lemma_div_pos_is_pos, lemma_fundamental_div_mod,
};

verus! {

/// Sub-units of a cent used for the running balance and per-period interest.
/// Monetary record fields are whole cents; the recurrence runs at this finer
/// fixed-point precision so that the documented rounding rule (round each
/// stored figure up at the cent) is applied to near-exact values.
pub const SUBUNITS_PER_CENT: u64 = 10_000;

/// An annual rate in basis points (hundredths of a percent) divided by this
/// constant gives the monthly decimal rate: bp / (100 * 100 * 12).
pub const MONTHLY_RATE_DENOM: u64 = 120_000;

/// Fixed-point scale of the discount factor (1 + r)^-n used in the level
/// payment formula.
pub const DISCOUNT_ONE: u64 = 1_000_000_000_000_000_000;

/// Largest accepted principal, in cents (one hundred billion dollars).
pub const MAX_LOAN_CENTS: u64 = 10_000_000_000_000;

/// Largest accepted annual rate, in basis points (1200 percent a year, that
/// is a monthly rate of at most one).
pub const MAX_RATE_BP: u32 = 120_000;

/// Hard cap on the number of emitted periods; a schedule that would run
/// longer is rejected instead of being allowed to grow without bound.
pub const MAX_PERIODS: u32 = 100_000;

/// Mathematical image of one schedule row: every monetary field in whole
/// cents, the date as a day number, the period number starting at 1.
pub struct DatumModel {
    pub payment_number: int,
    pub payment_date: int,
    pub payment: int,
    pub principle: int,
    pub interest: int,
    pub total_interest: int,
    pub balance: int,
}

/// One row of an amortization schedule. Monetary fields are whole cents,
/// rounded up at the cent boundary; `payment_date` is a day number
/// (days since the Unix epoch), stepped by a fixed 30 days per period.
#[derive(Clone, Copy, PartialEq, Eq, Structural, Debug)]
pub struct AmortizedDatum {
    pub payment_number: i32,
    pub payment_date: i64,
    pub payment: u64,
    pub principle: u64,
    pub interest: u64,
    pub total_interest: u64,
    pub balance: u64,
}

impl View for AmortizedDatum {
    type V = DatumModel;

    open spec fn view(&self) -> DatumModel {
        DatumModel {
            payment_number: self.payment_number as int,
            payment_date: self.payment_date as int,
            payment: self.payment as int,
            principle: self.principle as int,
            interest: self.interest as int,
            total_interest: self.total_interest as int,
            balance: self.balance as int,
        }
    }
}

/// Why a request was refused rather than amortized.
#[derive(Clone, Copy, PartialEq, Eq, Structural, Debug)]
pub enum AmortizeError {
    /// The scalars are outside the documented domain: zero principal,
    /// non-positive term, or a magnitude beyond the accepted caps.
    InvalidInput,
    /// The fixed payment would take more than `MAX_PERIODS` periods to
    /// retire the balance.
    ScheduleTooLong,
}

/// The scalar domain the amortizer accepts.
pub open spec fn valid_request(loan_cents: u64, terms_in_months: i16, annual_rate_bp: u32) -> bool {
    &&& 1 <= loan_cents <= MAX_LOAN_CENTS
    &&& terms_in_months > 0
    &&& annual_rate_bp <= MAX_RATE_BP
}

/// One cent at the fine scale on which a period's exact interest lives: a
/// balance in sub-units times a rate in basis points is an amount of cents
/// scaled by this constant.
pub const FINE_PER_CENT: u64 = MONTHLY_RATE_DENOM * SUBUNITS_PER_CENT;

/// Round a non-negative sub-unit amount up to whole cents.
pub open spec fn ceil_cents(x: int) -> int {
    (x + (SUBUNITS_PER_CENT - 1)) / (SUBUNITS_PER_CENT as int)
}

/// Round a non-negative fine-scale amount up to whole cents: the exact
/// ceiling of the unreduced product, not of a pre-quantized value.
pub open spec fn ceil_fine(x: int) -> int {
    (x + (FINE_PER_CENT - 1)) / (FINE_PER_CENT as int)
}

/// Round a non-negative sub-unit amount up to whole cents.
pub fn cents_round_up(x: u64) -> (r: u64)
    requires
        x <= u64::MAX - (SUBUNITS_PER_CENT - 1),
    ensures
        r == ceil_cents(x as int),
{
    (x + (SUBUNITS_PER_CENT - 1)) / SUBUNITS_PER_CENT
}

/// Round a non-negative fine-scale amount up to whole cents.
fn fine_round_up(x: u128) -> (r: u64)
    requires
        x <= 3_000_000_000_000_000_000_000_000_000,
    ensures
        r == ceil_fine(x as int),
{
    let q: u128 = (x + ((FINE_PER_CENT - 1) as u128)) / (FINE_PER_CENT as u128);
    proof {
        lemma_fundamental_div_mod(x as int + (FINE_PER_CENT - 1) as int, FINE_PER_CENT as int);
        assert(q <= 3_000_000_000_000_000_000) by (nonlinear_arith)
            requires
                x as int + (FINE_PER_CENT - 1) as int == (FINE_PER_CENT as int) * (q as int) + (
                x as int + (FINE_PER_CENT - 1) as int) % (FINE_PER_CENT as int),
                0 <= (x as int + (FINE_PER_CENT - 1) as int) % (FINE_PER_CENT as int)
                    < FINE_PER_CENT as int,
                x <= 3_000_000_000_000_000_000_000_000_000,
                FINE_PER_CENT == 1_200_000_000,
        ;
    }
    q as u64
}

/// Interest accrued over one month on a balance held in sub-units.
pub open spec fn interest_part(balance_sub: int, rate_bp: int) -> int {
    balance_sub * rate_bp / (MONTHLY_RATE_DENOM as int)
}

/// The part of one payment that retires principal: the payment less the
/// accrued interest, clamped to the outstanding balance in the final period.
pub open spec fn principal_part(balance_sub: int, payment_sub: int, rate_bp: int) -> int {
    let raw: int = payment_sub - interest_part(balance_sub, rate_bp);
    if raw > balance_sub {
        balance_sub
    } else {
        raw
    }
}

/// Fixed-point discount factor (1 + r)^-k, scaled by `DISCOUNT_ONE`, where
/// r = rate_bp / MONTHLY_RATE_DENOM; each step divides by (1 + r) rounding
/// down, and the factor is kept at least one sub-unit so the payment formula
/// never collapses onto bare interest.
pub open spec fn discount_factor(rate_bp: int, k: nat) -> int
    decreases k,
{
    if k == 0 {
        DISCOUNT_ONE as int
    } else {
        let next: int = discount_factor(rate_bp, (k - 1) as nat) * (MONTHLY_RATE_DENOM as int)
            / (MONTHLY_RATE_DENOM as int + rate_bp);
        if next < 1 {
            1
        } else {
            next
        }
    }
}

/// The fixed level payment in whole cents, rounded up at the cent.
/// For a positive rate this is the standard annuity formula
/// loan * r / (1 - (1 + r)^-n) evaluated in fixed point; a zero-rate loan
/// degenerates to equal installments loan / n, rounded up.
pub open spec fn level_payment_cents(loan_cents: int, terms: int, rate_bp: int) -> int {
    if rate_bp == 0 {
        (loan_cents + terms - 1) / terms
    } else {
        let dfp: int = discount_factor(rate_bp, terms as nat);
        let den: int = (MONTHLY_RATE_DENOM as int) * (DISCOUNT_ONE as int - dfp);
        (loan_cents * rate_bp * (DISCOUNT_ONE as int) + den - 1) / den
    }
}

/// The schedule emitted from a given running state, as a sequence of row
/// models: one row per period while the balance is positive, at most `fuel`
/// rows. `balance_sub` is in sub-units, `total_fine` is the interest accrued
/// so far at the fine scale, and `payment_cents` is the fixed rounded
/// payment. Stored figures are exact ceilings of the fine-scale amounts; the
/// running balance itself advances at sub-unit precision.
pub open spec fn schedule_seq(
    balance_sub: int,
    payment_cents: int,
    rate_bp: int,
    total_fine: int,
    num: int,
    day: int,
    fuel: nat,
) -> Seq<DatumModel>
    decreases fuel,
{
    if balance_sub <= 0 || fuel == 0 {
        Seq::empty()
    } else {
        let fine: int = balance_sub * rate_bp;
        let psub: int = payment_cents * (SUBUNITS_PER_CENT as int);
        let raw: int = psub - interest_part(balance_sub, rate_bp);
        let principal: int = principal_part(balance_sub, psub, rate_bp);
        let nb: int = balance_sub - principal;
        let nt: int = total_fine + fine;
        seq![
            DatumModel {
                payment_number: num,
                payment_date: day,
                payment: payment_cents,
                principle: if raw > balance_sub {
                    ceil_cents(balance_sub)
                } else {
                    ceil_fine(psub * (MONTHLY_RATE_DENOM as int) - fine)
                },
                interest: ceil_fine(fine),
                total_interest: ceil_fine(nt),
                balance: ceil_cents(nb),
            },
        ] + schedule_seq(nb, payment_cents, rate_bp, nt, num + 1, day + 30, (fuel - 1) as nat)
    }
}

/// The running balance left after at most `fuel` periods.
pub open spec fn balance_after(balance_sub: int, payment_sub: int, rate_bp: int, fuel: nat) -> int
    decreases fuel,
{
    if balance_sub <= 0 || fuel == 0 {
        balance_sub
    } else {
        balance_after(
            balance_sub - principal_part(balance_sub, payment_sub, rate_bp),
            payment_sub,
            rate_bp,
            (fuel - 1) as nat,
        )
    }
}

/// The sequence of row models behind a vector of rows.
pub open spec fn views_of(v: Seq<AmortizedDatum>) -> Seq<DatumModel> {
    v.map_values(|d: AmortizedDatum| d@)
}

/// The fixed level payment, with the facts the amortization loop rests on:
/// the payment strictly exceeds one month of interest on the whole loan, and
/// is at most twice the loan plus one cent.
pub fn level_payment(loan_cents: u64, terms_in_months: i16, annual_rate_bp: u32) -> (r: u64)
    requires
        valid_request(loan_cents, terms_in_months, annual_rate_bp),
    ensures
        r == level_payment_cents(loan_cents as int, terms_in_months as int, annual_rate_bp as int),
        r * MONTHLY_RATE_DENOM > loan_cents * annual_rate_bp,
        1 <= r <= 2 * loan_cents + 1,
{
    let n: u64 = terms_in_months as u64;
    if annual_rate_bp == 0 {
        let pay: u64 = (loan_cents + (n - 1)) / n;
        proof {
            lemma_fundamental_div_mod((loan_cents + n - 1) as int, n as int);
            assert(pay >= 1 && pay <= loan_cents) by (nonlinear_arith)
                requires
                    n >= 1,
                    1 <= loan_cents,
                    (loan_cents + n - 1) as int == n * (pay as int) + (loan_cents + n - 1) as int % (
                    n as int),
                    0 <= (loan_cents + n - 1) as int % (n as int) < n,
            ;
            assert(pay * MONTHLY_RATE_DENOM > loan_cents * annual_rate_bp) by (nonlinear_arith)
                requires
                    pay >= 1,
                    annual_rate_bp == 0,
            ;
        }
        pay
    } else {
        let bp: u64 = annual_rate_bp as u64;
        let mut d: u64 = DISCOUNT_ONE;
        let mut k: u64 = 0;
        while k < n
            invariant
                0 <= k <= n,
                n == terms_in_months as u64,
                terms_in_months > 0,
                1 <= bp <= MAX_RATE_BP,
                bp == annual_rate_bp as u64,
                d == discount_factor(bp as int, k as nat),
                1 <= d <= DISCOUNT_ONE,
                k >= 1 ==> d * (MONTHLY_RATE_DENOM + bp) <= DISCOUNT_ONE * MONTHLY_RATE_DENOM,
            decreases n - k,
        {
            let q128: u128 = (d as u128) * (MONTHLY_RATE_DENOM as u128) / (
            (MONTHLY_RATE_DENOM as u128) + (bp as u128));
            proof {
                lemma_fundamental_div_mod(
                    (d as int) * (MONTHLY_RATE_DENOM as int),
                    (MONTHLY_RATE_DENOM as int) + (bp as int),
                );
                assert(q128 <= d && (q128 as int) * ((MONTHLY_RATE_DENOM + bp) as int) <= (d as int)
                    * (MONTHLY_RATE_DENOM as int)) by (nonlinear_arith)
                    requires
                        1 <= d <= DISCOUNT_ONE,
                        1 <= bp <= MAX_RATE_BP,
                        q128 == (d as int) * (MONTHLY_RATE_DENOM as int) / ((MONTHLY_RATE_DENOM
                            + bp) as int),
                        (d as int) * (MONTHLY_RATE_DENOM as int) == ((MONTHLY_RATE_DENOM
                            + bp) as int) * (q128 as int) + (d as int) * (
                        MONTHLY_RATE_DENOM as int) % ((MONTHLY_RATE_DENOM + bp) as int),
                        0 <= (d as int) * (MONTHLY_RATE_DENOM as int) % ((MONTHLY_RATE_DENOM
                            + bp) as int) < (MONTHLY_RATE_DENOM + bp) as int,
                ;
            }
            let mut next: u64 = q128 as u64;
            if next == 0 {
                next = 1;
            }
            proof {
                assert(next * (MONTHLY_RATE_DENOM + bp) <= DISCOUNT_ONE * MONTHLY_RATE_DENOM)
                    by (nonlinear_arith)
                    requires
                        next as int == if q128 == 0 {
                            1int
                        } else {
                            q128 as int
                        },
                        (q128 as int) * ((MONTHLY_RATE_DENOM + bp) as int) <= (d as int) * (
                        MONTHLY_RATE_DENOM as int),
                        1 <= d <= DISCOUNT_ONE,
                        1 <= bp <= MAX_RATE_BP,
                ;
                assert(next as int == discount_factor(bp as int, (k + 1) as nat));
            }
            d = next;
            k = k + 1;
        }
        proof {
            assert((loan_cents as int) * (bp as int) * (DISCOUNT_ONE as int)
                <= 0x1_0000_0000_0000_0000_0000_0000_0000_0000 - 1) by (nonlinear_arith)
                requires
                    1 <= loan_cents <= MAX_LOAN_CENTS,
                    1 <= bp <= MAX_RATE_BP,
            ;
        }
        let num128: u128 = (loan_cents as u128) * (bp as u128) * (DISCOUNT_ONE as u128);
        let den128: u128 = (MONTHLY_RATE_DENOM as u128) * ((DISCOUNT_ONE - d) as u128);
        proof {
            assert((DISCOUNT_ONE - d) as int * ((MONTHLY_RATE_DENOM + bp) as int) >= (
            DISCOUNT_ONE as int) * (bp as int)) by (nonlinear_arith)
                requires
                    d * (MONTHLY_RATE_DENOM + bp) <= DISCOUNT_ONE * MONTHLY_RATE_DENOM,
                    1 <= d <= DISCOUNT_ONE,
                    1 <= bp,
            ;
            assert(den128 >= 1 && num128 <= (loan_cents as u128) * (bp as u128) * (
            DISCOUNT_ONE as u128)) by (nonlinear_arith)
                requires
                    den128 == (MONTHLY_RATE_DENOM as int) * ((DISCOUNT_ONE - d) as int),
                    num128 == (loan_cents as int) * (bp as int) * (DISCOUNT_ONE as int),
                    1 <= d,
                    d * (MONTHLY_RATE_DENOM + bp) <= DISCOUNT_ONE * MONTHLY_RATE_DENOM,
                    1 <= bp <= MAX_RATE_BP,
            ;
        }
        proof {
            assert(num128 <= 2_000_000_000_000_000_000_000_000_000_000_000_000 && den128 <= (
            MONTHLY_RATE_DENOM as int) * (DISCOUNT_ONE as int)) by (nonlinear_arith)
                requires
                    num128 == (loan_cents as int) * (bp as int) * (DISCOUNT_ONE as int),
                    den128 == (MONTHLY_RATE_DENOM as int) * ((DISCOUNT_ONE - d) as int),
                    1 <= loan_cents <= MAX_LOAN_CENTS,
                    1 <= bp <= MAX_RATE_BP,
                    1 <= d <= DISCOUNT_ONE,
            ;
        }
        let pay128: u128 = (num128 + (den128 - 1)) / den128;
        proof {
            lemma_fundamental_div_mod((num128 + den128 - 1) as int, den128 as int);
            lemma_level_payment_bounds(
                loan_cents as int,
                bp as int,
                d as int,
                num128 as int,
                den128 as int,
                pay128 as int,
            );
        }
        let pay: u64 = pay128 as u64;
        proof {
            assert(pay as int == level_payment_cents(
                loan_cents as int,
                terms_in_months as int,
                annual_rate_bp as int,
            ));
        }
        pay
    }
}

/// The whole schedule for a request, as row models: the level payment is
/// derived from the three scalars, the balance starts at the loan, the first
/// period is number 1 and dated `start_day`.
pub open spec fn schedule_of(
    loan_cents: u64,
    terms_in_months: i16,
    annual_rate_bp: u32,
    start_day: int,
) -> Seq<DatumModel> {
    schedule_seq(
        (loan_cents * SUBUNITS_PER_CENT) as int,
        level_payment_cents(loan_cents as int, terms_in_months as int, annual_rate_bp as int),
        annual_rate_bp as int,
        0,
        1,
        start_day,
        MAX_PERIODS as nat,
    )
}

/// True when the level payment retires the whole balance within
/// `MAX_PERIODS` periods.
pub open spec fn fully_amortizes(loan_cents: u64, terms_in_months: i16, annual_rate_bp: u32) -> bool {
    balance_after(
        (loan_cents * SUBUNITS_PER_CENT) as int,
        level_payment_cents(loan_cents as int, terms_in_months as int, annual_rate_bp as int)
            * (SUBUNITS_PER_CENT as int),
        annual_rate_bp as int,
        MAX_PERIODS as nat,
    ) == 0
}

/// Mapping a row view over a pushed row is pushing the row's view.
proof fn lemma_views_push(s: Seq<AmortizedDatum>, d: AmortizedDatum)
    ensures
        views_of(s.push(d)) == views_of(s).push(d@),
{
    assert(views_of(s.push(d)) =~= views_of(s).push(d@));
}

/// The rounded-up quotient (num + den - 1) / den of the annuity formula is
/// at least one, strictly exceeds one month of interest on the whole loan,
/// and is at most twice the loan plus one.
pub(crate) proof fn lemma_level_payment_bounds(
    loan: int,
    bp: int,
    d: int,
    num: int,
    den: int,
    pay: int,
)
    requires
        1 <= loan <= MAX_LOAN_CENTS,
        1 <= bp <= MAX_RATE_BP,
        1 <= d,
        d * ((MONTHLY_RATE_DENOM + bp) as int) <= (DISCOUNT_ONE as int) * (MONTHLY_RATE_DENOM as int),
        num == loan * bp * (DISCOUNT_ONE as int),
        den == (MONTHLY_RATE_DENOM as int) * ((DISCOUNT_ONE - d) as int),
        num + den - 1 == den * pay + (num + den - 1) % den,
        0 <= (num + den - 1) % den < den,
    ensures
        1 <= pay <= 2 * loan + 1,
        pay * (MONTHLY_RATE_DENOM as int) > loan * bp,
{
    let m: int = MONTHLY_RATE_DENOM as int;
    let one: int = DISCOUNT_ONE as int;
    assert(loan * bp >= 1 && num >= 1) by (nonlinear_arith)
        requires
            loan >= 1,
            bp >= 1,
            num == loan * bp * (DISCOUNT_ONE as int),
    ;
    assert(d < one && den >= 1 && (one - d) * (m + bp) >= one * bp) by (nonlinear_arith)
        requires
            d * (m + bp) <= one * m,
            1 <= d,
            1 <= bp <= m,
            den == m * (one - d),
            one == DISCOUNT_ONE as int,
            m == MONTHLY_RATE_DENOM as int,
    ;
    // pay * den >= num, so pay strictly exceeds interest on the loan.
    assert(pay * den >= num && pay >= 1) by (nonlinear_arith)
        requires
            num + den - 1 == den * pay + (num + den - 1) % den,
            0 <= (num + den - 1) % den < den,
            den >= 1,
            num >= 1,
    ;
    assert(pay * m * (one - d) >= loan * bp * one) by (nonlinear_arith)
        requires
            pay * den >= num,
            den == m * (one - d),
            num == loan * bp * one,
    ;
    assert(pay * m > loan * bp) by (nonlinear_arith)
        requires
            pay * m * (one - d) >= loan * bp * one,
            1 <= d < one,
            loan * bp >= 1,
            pay >= 1,
            m >= 1,
    ;
    // num <= 2 * loan * den, so the rounded-up quotient stays below 2*loan + 1.
    assert(num <= 2 * loan * den) by (nonlinear_arith)
        requires
            num == loan * bp * one,
            den == m * (one - d),
            (one - d) * (m + bp) >= one * bp,
            bp <= m,
            loan >= 1,
            one >= 1,
            m >= 1,
            1 <= d < one,
    ;
    assert(pay <= 2 * loan + 1) by (nonlinear_arith)
        requires
            num + den - 1 == den * pay + (num + den - 1) % den,
            0 <= (num + den - 1) % den < den,
            num <= 2 * loan * den,
            den >= 1,
            loan >= 1,
    ;
}

/// Amortize a loan from a given start day. Each period: interest accrues on
/// the unrounded running balance at the monthly rate, the fixed level
/// payment less that interest retires principal (clamped to the balance in
/// the final period), and a row is stored with every monetary figure rounded
/// up at the cent. Rows are emitted until the balance reaches zero; the term
/// only sizes the payment and does not cap the row count. Scalars outside
/// the documented domain are rejected, as is a request whose schedule would
/// run past `MAX_PERIODS` periods.
///
/// Arithmetic policy: the recurrence is evaluated in exact fixed point, and
/// each stored figure is the exact ceiling at the cent of the full-precision
/// amount. An evaluation of the same recurrence in binary floating point
/// carries representation error into the cent roundings and can land a cent
/// away on some inputs; the values this contract fixes are the exact ones.
pub fn amortize_from(
    loan_cents: u64,
    terms_in_months: i16,
    annual_rate_bp: u32,
    start_day: i64,
) -> (r: Result<Vec<AmortizedDatum>, AmortizeError>)
    requires
        -4_000_000_000_000 <= start_day <= 4_000_000_000_000,
    ensures
        (match r {
            Ok(v) => valid_request(loan_cents, terms_in_months, annual_rate_bp)
                && fully_amortizes(loan_cents, terms_in_months, annual_rate_bp) && views_of(v@)
                == schedule_of(loan_cents, terms_in_months, annual_rate_bp, start_day as int),
            Err(AmortizeError::InvalidInput) => !valid_request(
                loan_cents,
                terms_in_months,
                annual_rate_bp,
            ),
            Err(AmortizeError::ScheduleTooLong) => valid_request(
                loan_cents,
                terms_in_months,
                annual_rate_bp,
            ) && !fully_amortizes(loan_cents, terms_in_months, annual_rate_bp),
        }),
{
    if loan_cents == 0 || loan_cents > MAX_LOAN_CENTS || terms_in_months <= 0 || annual_rate_bp
        > MAX_RATE_BP {
        return Err(AmortizeError::InvalidInput);
    }
    let pay: u64 = level_payment(loan_cents, terms_in_months, annual_rate_bp);
    let psub: u64 = pay * SUBUNITS_PER_CENT;
    let mut balance_sub: u64 = loan_cents * SUBUNITS_PER_CENT;
    let mut total_fine: u128 = 0;
    let mut num: u32 = 1;
    let mut day: i64 = start_day;
    let mut recs: Vec<AmortizedDatum> = Vec::new();
    let ghost init_balance: int = balance_sub as int;
    let ghost bp: int = annual_rate_bp as int;
    proof {
        assert(views_of(recs@) =~= Seq::<DatumModel>::empty());
    }
    while balance_sub > 0 && num <= MAX_PERIODS
        invariant
            valid_request(loan_cents, terms_in_months, annual_rate_bp),
            bp == annual_rate_bp as int,
            init_balance == loan_cents * SUBUNITS_PER_CENT,
            -4_000_000_000_000 <= start_day <= 4_000_000_000_000,
            pay == level_payment_cents(loan_cents as int, terms_in_months as int, bp),
            pay * MONTHLY_RATE_DENOM > loan_cents * annual_rate_bp,
            1 <= pay <= 2 * loan_cents + 1,
            psub == pay * SUBUNITS_PER_CENT,
            1 <= num <= MAX_PERIODS + 1,
            recs@.len() == num - 1,
            balance_sub <= loan_cents * SUBUNITS_PER_CENT,
            total_fine as int <= (num - 1) * ((psub as int) * (MONTHLY_RATE_DENOM as int)),
            day == start_day + 30 * ((num - 1) as int),
            views_of(recs@) + schedule_seq(
                balance_sub as int,
                pay as int,
                bp,
                total_fine as int,
                num as int,
                day as int,
                (MAX_PERIODS + 1 - num) as nat,
            ) == schedule_seq(
                init_balance,
                pay as int,
                bp,
                0,
                1,
                start_day as int,
                MAX_PERIODS as nat,
            ),
            balance_after(balance_sub as int, psub as int, bp, (MAX_PERIODS + 1 - num) as nat)
                == balance_after(init_balance, psub as int, bp, MAX_PERIODS as nat),
        decreases MAX_PERIODS + 1 - num,
    {
        let ghost fuel: nat = (MAX_PERIODS + 1 - num) as nat;
        let ghost old_balance: int = balance_sub as int;
        let ghost old_total: int = total_fine as int;
        let ghost old_recs: Seq<AmortizedDatum> = recs@;
        proof {
            assert((balance_sub as int) * (annual_rate_bp as int) <= 100_000_000_000_000_000
                * 120_000) by (nonlinear_arith)
                requires
                    balance_sub <= loan_cents * SUBUNITS_PER_CENT,
                    loan_cents <= MAX_LOAN_CENTS,
                    annual_rate_bp <= MAX_RATE_BP,
            ;
        }
        let fine128: u128 = (balance_sub as u128) * (annual_rate_bp as u128);
        let interest128: u128 = fine128 / (MONTHLY_RATE_DENOM as u128);
        proof {
            lemma_fundamental_div_mod(
                (balance_sub as int) * (annual_rate_bp as int),
                MONTHLY_RATE_DENOM as int,
            );
            assert(interest128 as int == interest_part(old_balance, bp));
            assert(interest128 <= balance_sub && interest128 < psub) by (nonlinear_arith)
                requires
                    (balance_sub as int) * bp == (MONTHLY_RATE_DENOM as int) * (interest128 as int)
                        + (balance_sub as int) * bp % (MONTHLY_RATE_DENOM as int),
                    0 <= (balance_sub as int) * bp % (MONTHLY_RATE_DENOM as int)
                        < MONTHLY_RATE_DENOM as int,
                    0 <= bp <= MONTHLY_RATE_DENOM,
                    bp == annual_rate_bp as int,
                    balance_sub <= loan_cents * SUBUNITS_PER_CENT,
                    pay * MONTHLY_RATE_DENOM > loan_cents * annual_rate_bp,
                    psub == pay * SUBUNITS_PER_CENT,
                    1 <= pay,
                    1 <= balance_sub,
            ;
        }
        let interest: u64 = interest128 as u64;
        let raw: u64 = psub - interest;
        proof {
            assert((psub as int) * (MONTHLY_RATE_DENOM as int) <= 30_000_000_000_000_000_000_000)
                by (nonlinear_arith)
                requires
                    psub <= (2 * MAX_LOAN_CENTS + 1) * SUBUNITS_PER_CENT,
            ;
        }
        let pm128: u128 = (psub as u128) * (MONTHLY_RATE_DENOM as u128);
        proof {
            assert(fine128 < pm128) by (nonlinear_arith)
                requires
                    pm128 == (psub as int) * (MONTHLY_RATE_DENOM as int),
                    fine128 == (balance_sub as int) * bp,
                    bp == annual_rate_bp as int,
                    balance_sub <= loan_cents * SUBUNITS_PER_CENT,
                    pay * MONTHLY_RATE_DENOM > loan_cents * annual_rate_bp,
                    psub == pay * SUBUNITS_PER_CENT,
            ;
        }
        let stored_principle: u64 = if raw > balance_sub {
            cents_round_up(balance_sub)
        } else {
            fine_round_up(pm128 - fine128)
        };
        let stored_interest: u64 = fine_round_up(fine128);
        let principal: u64 = if raw > balance_sub {
            balance_sub
        } else {
            raw
        };
        proof {
            assert(principal as int == principal_part(old_balance, psub as int, bp));
            assert(total_fine as int + fine128 as int <= (num as int) * ((psub as int) * (
            MONTHLY_RATE_DENOM as int))) by (nonlinear_arith)
                requires
                    total_fine as int <= (num - 1) * ((psub as int) * (MONTHLY_RATE_DENOM as int)),
                    pm128 == (psub as int) * (MONTHLY_RATE_DENOM as int),
                    fine128 < pm128,
                    num >= 1,
            ;
            assert((num as int) * ((psub as int) * (MONTHLY_RATE_DENOM as int))
                <= 3_000_000_000_000_000_000_000_000_000) by (nonlinear_arith)
                requires
                    1 <= num <= MAX_PERIODS,
                    (psub as int) * (MONTHLY_RATE_DENOM as int) <= 30_000_000_000_000_000_000_000,
            ;
        }
        total_fine = total_fine + fine128;
        balance_sub = balance_sub - principal;
        let stored_total: u64 = fine_round_up(total_fine);
        let datum: AmortizedDatum = AmortizedDatum {
            payment_number: num as i32,
            payment_date: day,
            payment: pay,
            principle: stored_principle,
            interest: stored_interest,
            total_interest: stored_total,
            balance: cents_round_up(balance_sub),
        };
        proof {
            let nb: int = old_balance - principal_part(old_balance, psub as int, bp);
            let nt: int = old_total + old_balance * bp;
            assert(balance_sub as int == nb);
            assert(total_fine as int == nt);
            assert(schedule_seq(old_balance, pay as int, bp, old_total, num as int, day as int, fuel)
                == seq![datum@] + schedule_seq(
                nb,
                pay as int,
                bp,
                nt,
                num as int + 1,
                day as int + 30,
                (fuel - 1) as nat,
            ));
            assert(balance_after(old_balance, psub as int, bp, fuel) == balance_after(
                nb,
                psub as int,
                bp,
                (fuel - 1) as nat,
            ));
            lemma_views_push(old_recs, datum);
        }
        recs.push(datum);
        proof {
            assert(views_of(recs@) + schedule_seq(
                balance_sub as int,
                pay as int,
                bp,
                total_fine as int,
                num as int + 1,
                day as int + 30,
                (fuel - 1) as nat,
            ) =~= views_of(old_recs) + schedule_seq(
                old_balance,
                pay as int,
                bp,
                old_total,
                num as int,
                day as int,
                fuel,
            ));
        }
        day = day + 30;
        num = num + 1;
    }
    if balance_sub == 0 {
        proof {
            let ghost fuel: nat = (MAX_PERIODS + 1 - num) as nat;
            assert(schedule_seq(0, pay as int, bp, total_fine as int, num as int, day as int, fuel)
                =~= Seq::<DatumModel>::empty());
            assert(views_of(recs@) + Seq::<DatumModel>::empty() =~= views_of(recs@));
            assert(balance_after(0, psub as int, bp, fuel) == 0);
        }
        Ok(recs)
    } else {
        proof {
            assert(num == MAX_PERIODS + 1);
            assert(balance_after(balance_sub as int, psub as int, bp, 0) == balance_sub as int);
        }
        Err(AmortizeError::ScheduleTooLong)
    }
}

/// Amortize a loan whose first payment is due now: the rows are those of
/// `amortize_from` for some start day, the day the call was made, which the
/// clock keeps at or after the Unix epoch and within chrono's range. Only
/// `payment_date` depends on the clock; every other field is a function of
/// the three scalars alone.
pub fn amortize(loan_cents: u64, terms_in_months: i16, annual_rate_bp: u32) -> (r: Result<
    Vec<AmortizedDatum>,
    AmortizeError,
>)
    ensures
        (match r {
            Ok(v) => valid_request(loan_cents, terms_in_months, annual_rate_bp)
                && fully_amortizes(loan_cents, terms_in_months, annual_rate_bp) && (exists|
                start: int,
            |
                0 <= start <= 9_000_000_000_000int / 86_400 && views_of(v@)
                    == #[trigger] schedule_of(
                    loan_cents,
                    terms_in_months,
                    annual_rate_bp,
                    start,
                )),
            Err(AmortizeError::InvalidInput) => !valid_request(
                loan_cents,
                terms_in_months,
                annual_rate_bp,
            ),
            Err(AmortizeError::ScheduleTooLong) => valid_request(
                loan_cents,
                terms_in_months,
                annual_rate_bp,
            ) && !fully_amortizes(loan_cents, terms_in_months, annual_rate_bp),
        }),
{
    let seconds: i64 = crate::clock::now_epoch_seconds();
    let day: i64 = seconds / 86_400;
    proof {
        lemma_div_pos_is_pos(seconds as int, 86_400);
        lemma_div_is_ordered(seconds as int, 9_000_000_000_000, 86_400);
    }
    let r = amortize_from(loan_cents, terms_in_months, annual_rate_bp, day);
    proof {
        if r is Ok {
            assert(0 <= day as int <= 9_000_000_000_000int / 86_400 && views_of((r->Ok_0)@)
                == schedule_of(loan_cents, terms_in_months, annual_rate_bp, day as int));
        }
    }
    r
}

} // verus!
