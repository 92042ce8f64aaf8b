use crate::amort::{
    balance_after, ceil_cents, ceil_fine, discount_factor, fully_amortizes, interest_part,
    level_payment_cents, principal_part, schedule_of, schedule_seq, valid_request, DatumModel,
    DISCOUNT_ONE, FINE_PER_CENT, MAX_PERIODS, MONTHLY_RATE_DENOM, SUBUNITS_PER_CENT,
};
use vstd::arithmetic::div_mod::{
    lemma_div_is_ordered, lemma_div_pos_is_pos, lemma_fundamental_div_mod,
};
use vstd::prelude::*;

verus! {

/// Rounding up at the cent is monotone.
proof fn lemma_ceil_monotone(x: int, y: int)
    requires
        x <= y,
    ensures
        ceil_cents(x) <= ceil_cents(y),
        ceil_fine(x) <= ceil_fine(y),
{
    lemma_div_is_ordered(
        x + (SUBUNITS_PER_CENT - 1),
        y + (SUBUNITS_PER_CENT - 1),
        SUBUNITS_PER_CENT as int,
    );
    lemma_div_is_ordered(x + (FINE_PER_CENT - 1), y + (FINE_PER_CENT - 1), FINE_PER_CENT as int);
}

/// Rounding up keeps a non-negative amount non-negative.
proof fn lemma_ceil_nonneg(x: int)
    requires
        x >= 0,
    ensures
        ceil_cents(x) >= 0,
        ceil_fine(x) >= 0,
{
    lemma_div_pos_is_pos(x + (SUBUNITS_PER_CENT - 1), SUBUNITS_PER_CENT as int);
    lemma_div_pos_is_pos(x + (FINE_PER_CENT - 1), FINE_PER_CENT as int);
}

/// A fine-scale split of a whole number of cents rounds up, part by part, to
/// that number of cents or one more.
proof fn lemma_ceil_fine_split(p: int, i: int, c: int)
    requires
        p >= 0,
        i >= 0,
        p + i == c * FINE_PER_CENT,
    ensures
        c <= ceil_fine(p) + ceil_fine(i) <= c + 1,
{
    let f: int = FINE_PER_CENT as int;
    lemma_fundamental_div_mod(p + f - 1, f);
    lemma_fundamental_div_mod(i + f - 1, f);
    assert(c <= ceil_fine(p) + ceil_fine(i) <= c + 1) by (nonlinear_arith)
        requires
            f == FINE_PER_CENT as int,
            p >= 0,
            i >= 0,
            p + i == c * f,
            ceil_fine(p) == (p + f - 1) / f,
            ceil_fine(i) == (i + f - 1) / f,
            p + f - 1 == f * ((p + f - 1) / f) + (p + f - 1) % f,
            i + f - 1 == f * ((i + f - 1) / f) + (i + f - 1) % f,
            0 <= (p + f - 1) % f < f,
            0 <= (i + f - 1) % f < f,
    ;
}

/// Rounding two non-negative fine-scale parts separately overshoots rounding
/// their sum by at most one cent.
proof fn lemma_ceil_fine_subadd(x: int, y: int)
    requires
        x >= 0,
        y >= 0,
    ensures
        ceil_fine(x + y) <= ceil_fine(x) + ceil_fine(y) <= ceil_fine(x + y) + 1,
{
    let f: int = FINE_PER_CENT as int;
    lemma_fundamental_div_mod(x + f - 1, f);
    lemma_fundamental_div_mod(y + f - 1, f);
    lemma_fundamental_div_mod(x + y + f - 1, f);
    assert(ceil_fine(x + y) <= ceil_fine(x) + ceil_fine(y) <= ceil_fine(x + y) + 1)
        by (nonlinear_arith)
        requires
            f == FINE_PER_CENT as int,
            x >= 0,
            y >= 0,
            ceil_fine(x) == (x + f - 1) / f,
            ceil_fine(y) == (y + f - 1) / f,
            ceil_fine(x + y) == (x + y + f - 1) / f,
            x + f - 1 == f * ((x + f - 1) / f) + (x + f - 1) % f,
            y + f - 1 == f * ((y + f - 1) / f) + (y + f - 1) % f,
            x + y + f - 1 == f * ((x + y + f - 1) / f) + (x + y + f - 1) % f,
            0 <= (x + f - 1) % f < f,
            0 <= (y + f - 1) % f < f,
            0 <= (x + y + f - 1) % f < f,
    ;
}

/// The fixed-point discount factor stays within one sub-unit and one, and
/// after at least one step with a positive rate it sits low enough that the
/// payment formula's denominator covers a month of interest.
proof fn lemma_discount_bounds(bp: int, k: nat)
    requires
        1 <= bp <= MONTHLY_RATE_DENOM,
    ensures
        1 <= discount_factor(bp, k) <= DISCOUNT_ONE,
        k >= 1 ==> discount_factor(bp, k) * (MONTHLY_RATE_DENOM + bp) <= (DISCOUNT_ONE as int) * (
        MONTHLY_RATE_DENOM as int),
    decreases k,
{
    if k == 0 {
    } else {
        lemma_discount_bounds(bp, (k - 1) as nat);
        let prev: int = discount_factor(bp, (k - 1) as nat);
        let m: int = MONTHLY_RATE_DENOM as int;
        let q: int = prev * m / (m + bp);
        lemma_fundamental_div_mod(prev * m, m + bp);
        assert(q <= prev && q * (m + bp) <= prev * m && (if q < 1 {
            1int
        } else {
            q
        }) * (m + bp) <= (DISCOUNT_ONE as int) * m) by (nonlinear_arith)
            requires
                1 <= prev <= DISCOUNT_ONE,
                1 <= bp <= m,
                m == MONTHLY_RATE_DENOM as int,
                prev * m == (m + bp) * q + prev * m % (m + bp),
                0 <= prev * m % (m + bp) < m + bp,
        ;
    }
}

/// The level payment is at least one cent, strictly exceeds one month of
/// interest on the whole loan, and is at most twice the loan plus one cent.
pub proof fn lemma_payment_covers_interest(
    loan_cents: u64,
    terms_in_months: i16,
    annual_rate_bp: u32,
)
    requires
        valid_request(loan_cents, terms_in_months, annual_rate_bp),
    ensures
        1 <= level_payment_cents(loan_cents as int, terms_in_months as int, annual_rate_bp as int)
            <= 2 * loan_cents + 1,
        level_payment_cents(loan_cents as int, terms_in_months as int, annual_rate_bp as int) * (
        MONTHLY_RATE_DENOM as int) > loan_cents * annual_rate_bp,
{
    let lc: int = loan_cents as int;
    let n: int = terms_in_months as int;
    let bp: int = annual_rate_bp as int;
    let pc: int = level_payment_cents(lc, n, bp);
    if bp == 0 {
        lemma_fundamental_div_mod(lc + n - 1, n);
        assert(1 <= pc <= lc && pc * (MONTHLY_RATE_DENOM as int) > lc * bp) by (nonlinear_arith)
            requires
                n >= 1,
                lc >= 1,
                bp == 0,
                pc == (lc + n - 1) / n,
                lc + n - 1 == n * pc + (lc + n - 1) % n,
                0 <= (lc + n - 1) % n < n,
        ;
    } else {
        lemma_discount_bounds(bp, n as nat);
        let d: int = discount_factor(bp, n as nat);
        let one: int = DISCOUNT_ONE as int;
        let m: int = MONTHLY_RATE_DENOM as int;
        let den: int = m * (one - d);
        let num: int = lc * bp * one;
        assert(den >= 1) by (nonlinear_arith)
            requires
                d * (m + bp) <= one * m,
                1 <= d,
                1 <= bp <= m,
                den == m * (one - d),
        ;
        lemma_fundamental_div_mod(num + den - 1, den);
        crate::amort::lemma_level_payment_bounds(lc, bp, d, num, den, pc);
    }
}

/// Row k of a schedule carries period number num + k, date day + 30 k, and
/// the fixed payment.
pub proof fn lemma_schedule_numbering(
    s: Seq<DatumModel>,
    b: int,
    pc: int,
    bp: int,
    t: int,
    num: int,
    day: int,
    fuel: nat,
)
    requires
        s == schedule_seq(b, pc, bp, t, num, day, fuel),
    ensures
        forall|k: int|
            0 <= k < s.len() ==> (#[trigger] s[k]).payment_number == num + k
                && s[k].payment_date == day + 30 * k && s[k].payment == pc,
    decreases fuel,
{
    if b <= 0 || fuel == 0 {
    } else {
        let p: int = principal_part(b, pc * SUBUNITS_PER_CENT, bp);
        let rest: Seq<DatumModel> = schedule_seq(
            b - p,
            pc,
            bp,
            t + b * bp,
            num + 1,
            day + 30,
            (fuel - 1) as nat,
        );
        lemma_schedule_numbering(
            rest,
            b - p,
            pc,
            bp,
            t + b * bp,
            num + 1,
            day + 30,
            (fuel - 1) as nat,
        );
        assert forall|k: int| 0 <= k < s.len() implies (#[trigger] s[k]).payment_number == num + k
            && s[k].payment_date == day + 30 * k && s[k].payment == pc by {
            if k >= 1 {
                assert(s[k] == rest[k - 1]);
            }
        }
    }
}

/// A schedule that fully amortizes ends on a row whose balance is exactly
/// zero.
proof fn lemma_last_row_zero(
    s: Seq<DatumModel>,
    b: int,
    pc: int,
    bp: int,
    t: int,
    num: int,
    day: int,
    fuel: nat,
)
    requires
        s == schedule_seq(b, pc, bp, t, num, day, fuel),
        b > 0,
        balance_after(b, pc * SUBUNITS_PER_CENT, bp, fuel) == 0,
    ensures
        s.len() >= 1,
        s.last().balance == 0,
    decreases fuel,
{
    assert(fuel >= 1);
    let p: int = principal_part(b, pc * SUBUNITS_PER_CENT, bp);
    let nb: int = b - p;
    let rest: Seq<DatumModel> = schedule_seq(
        nb,
        pc,
        bp,
        t + b * bp,
        num + 1,
        day + 30,
        (fuel - 1) as nat,
    );
    if nb > 0 {
        lemma_last_row_zero(rest, nb, pc, bp, t + b * bp, num + 1, day + 30, (fuel - 1) as nat);
        assert(s.last() == rest.last());
    } else {
        assert(nb == 0);
        assert(s.last().balance == ceil_cents(0));
    }
}

/// For every valid request that fully amortizes: the schedule is non-empty,
/// period numbers run contiguously from 1, dates step by a fixed 30 days
/// from the start, every row carries the fixed payment, and the last row's
/// balance is exactly zero.
pub proof fn lemma_schedule_shape(
    s: Seq<DatumModel>,
    loan_cents: u64,
    terms_in_months: i16,
    annual_rate_bp: u32,
    day: int,
)
    requires
        valid_request(loan_cents, terms_in_months, annual_rate_bp),
        fully_amortizes(loan_cents, terms_in_months, annual_rate_bp),
        s == schedule_of(loan_cents, terms_in_months, annual_rate_bp, day),
    ensures
        s.len() >= 1,
        forall|k: int|
            0 <= k < s.len() ==> (#[trigger] s[k]).payment_number == 1 + k && s[k].payment_date
                == day + 30 * k && s[k].payment == level_payment_cents(
                loan_cents as int,
                terms_in_months as int,
                annual_rate_bp as int,
            ),
        s.last().balance == 0,
{
    let b: int = (loan_cents * SUBUNITS_PER_CENT) as int;
    let pc: int = level_payment_cents(
        loan_cents as int,
        terms_in_months as int,
        annual_rate_bp as int,
    );
    lemma_schedule_numbering(s, b, pc, annual_rate_bp as int, 0, 1, day, MAX_PERIODS as nat);
    lemma_last_row_zero(s, b, pc, annual_rate_bp as int, 0, 1, day, MAX_PERIODS as nat);
}

/// One period's interest is non-negative and strictly below the payment, and
/// the balance left is at least zero and at most the old one, whenever the
/// payment covers a month of interest on any balance up to `cap`.
proof fn lemma_step_bounds(b: int, pc: int, bp: int, cap: int)
    requires
        0 <= bp <= MONTHLY_RATE_DENOM,
        0 < b <= cap,
        pc * (SUBUNITS_PER_CENT as int) * (MONTHLY_RATE_DENOM as int) > cap * bp,
    ensures
        0 <= interest_part(b, bp) < pc * SUBUNITS_PER_CENT,
        0 <= b * bp < pc * (SUBUNITS_PER_CENT as int) * (MONTHLY_RATE_DENOM as int),
        1 <= principal_part(b, pc * SUBUNITS_PER_CENT, bp) <= b,
        0 <= b - principal_part(b, pc * SUBUNITS_PER_CENT, bp) < b,
{
    let m: int = MONTHLY_RATE_DENOM as int;
    let psub: int = pc * SUBUNITS_PER_CENT;
    lemma_fundamental_div_mod(b * bp, m);
    assert(0 <= interest_part(b, bp) && interest_part(b, bp) * m <= b * bp && psub * m > b * bp
        && b * bp >= 0) by (nonlinear_arith)
        requires
            0 <= bp <= m,
            0 < b <= cap,
            psub * m > cap * bp,
            m == MONTHLY_RATE_DENOM as int,
            psub == pc * SUBUNITS_PER_CENT,
            interest_part(b, bp) == b * bp / m,
            b * bp == m * (b * bp / m) + b * bp % m,
            0 <= b * bp % m < m,
    ;
    assert(interest_part(b, bp) < psub) by (nonlinear_arith)
        requires
            interest_part(b, bp) * m <= b * bp,
            psub * m > b * bp,
            m >= 1,
    ;
}

/// Balances never go negative and never increase from one row to the next.
pub proof fn lemma_balances_monotone(
    s: Seq<DatumModel>,
    b: int,
    pc: int,
    bp: int,
    t: int,
    num: int,
    day: int,
    fuel: nat,
    cap: int,
)
    requires
        s == schedule_seq(b, pc, bp, t, num, day, fuel),
        0 <= bp <= MONTHLY_RATE_DENOM,
        0 <= b <= cap,
        pc * (SUBUNITS_PER_CENT as int) * (MONTHLY_RATE_DENOM as int) > cap * bp,
    ensures
        forall|k: int| 0 <= k < s.len() ==> (#[trigger] s[k]).balance >= 0,
        s.len() >= 1 ==> s[0].balance <= ceil_cents(b),
        forall|k: int| 1 <= k < s.len() ==> (#[trigger] s[k]).balance <= s[k - 1].balance,
    decreases fuel,
{
    if b <= 0 || fuel == 0 {
    } else {
        lemma_step_bounds(b, pc, bp, cap);
        let p: int = principal_part(b, pc * SUBUNITS_PER_CENT, bp);
        let nb: int = b - p;
        let rest: Seq<DatumModel> = schedule_seq(
            nb,
            pc,
            bp,
            t + b * bp,
            num + 1,
            day + 30,
            (fuel - 1) as nat,
        );
        lemma_balances_monotone(
            rest,
            nb,
            pc,
            bp,
            t + b * bp,
            num + 1,
            day + 30,
            (fuel - 1) as nat,
            cap,
        );
        lemma_ceil_nonneg(nb);
        lemma_ceil_monotone(nb, b);
        assert forall|k: int| 0 <= k < s.len() implies (#[trigger] s[k]).balance >= 0 by {
            if k >= 1 {
                assert(s[k] == rest[k - 1]);
            }
        }
        assert forall|k: int| 1 <= k < s.len() implies (#[trigger] s[k]).balance <= s[k
            - 1].balance by {
            assert(s[k] == rest[k - 1]);
            if k == 1 {
                assert(rest[0].balance <= ceil_cents(nb));
            } else {
                assert(s[k - 1] == rest[k - 2]);
                assert(rest[k - 1].balance <= rest[k - 2].balance);
            }
        }
    }
}

/// Every row but the last splits the payment exactly into principal and
/// interest; rounding the two parts independently lands on the payment or at
/// most one cent above it.
pub proof fn lemma_payment_split(
    s: Seq<DatumModel>,
    b: int,
    pc: int,
    bp: int,
    t: int,
    num: int,
    day: int,
    fuel: nat,
    cap: int,
)
    requires
        s == schedule_seq(b, pc, bp, t, num, day, fuel),
        0 <= bp <= MONTHLY_RATE_DENOM,
        0 <= b <= cap,
        pc * (SUBUNITS_PER_CENT as int) * (MONTHLY_RATE_DENOM as int) > cap * bp,
    ensures
        forall|k: int|
            0 <= k < s.len() - 1 ==> pc <= (#[trigger] s[k]).principle + s[k].interest <= pc + 1,
    decreases fuel,
{
    if b <= 0 || fuel == 0 {
    } else {
        lemma_step_bounds(b, pc, bp, cap);
        let psub: int = pc * SUBUNITS_PER_CENT;
        let p: int = principal_part(b, psub, bp);
        let nb: int = b - p;
        let rest: Seq<DatumModel> = schedule_seq(
            nb,
            pc,
            bp,
            t + b * bp,
            num + 1,
            day + 30,
            (fuel - 1) as nat,
        );
        lemma_payment_split(rest, nb, pc, bp, t + b * bp, num + 1, day + 30, (fuel - 1) as nat, cap);
        assert forall|k: int| 0 <= k < s.len() - 1 implies pc <= (#[trigger] s[k]).principle
            + s[k].interest <= pc + 1 by {
            if k == 0 {
                assert(rest.len() >= 1);
                assert(nb > 0);
                assert(psub - interest_part(b, bp) <= b);
                assert(psub * (MONTHLY_RATE_DENOM as int) == pc * (FINE_PER_CENT as int))
                    by (nonlinear_arith)
                    requires
                        psub == pc * SUBUNITS_PER_CENT,
                        FINE_PER_CENT == MONTHLY_RATE_DENOM * SUBUNITS_PER_CENT,
                ;
                lemma_ceil_fine_split(psub * (MONTHLY_RATE_DENOM as int) - b * bp, b * bp, pc);
            } else {
                assert(s[k] == rest[k - 1]);
                assert(s[k + 1] == rest[k]);
            }
        }
    }
}

/// The interest fields of the first k rows, summed.
pub open spec fn sum_interest_first(s: Seq<DatumModel>, k: int) -> int
    decreases k,
{
    if k <= 0 {
        0
    } else {
        sum_interest_first(s, k - 1) + s[k - 1].interest
    }
}

/// Summing the first k + 1 interest fields of a schedule peels off its first
/// row.
proof fn lemma_sum_cons(d: DatumModel, rest: Seq<DatumModel>, s: Seq<DatumModel>, k: int)
    requires
        s == seq![d] + rest,
        0 <= k <= rest.len(),
    ensures
        sum_interest_first(s, k + 1) == d.interest + sum_interest_first(rest, k),
    decreases k,
{
    if k == 0 {
        assert(s[0] == d);
        assert(sum_interest_first(s, 0) == 0);
        assert(sum_interest_first(rest, 0) == 0);
    } else {
        lemma_sum_cons(d, rest, s, k - 1);
        assert(s[k] == rest[k - 1]);
        assert(sum_interest_first(s, k + 1) == sum_interest_first(s, k) + s[k].interest);
        assert(sum_interest_first(rest, k) == sum_interest_first(rest, k - 1) + rest[k
            - 1].interest);
    }
}

/// Each row's cumulative interest sits within one cent per row of the summed
/// per-row interest fields, and never decreases from one row to the next.
pub proof fn lemma_total_interest_tracks_sum(
    s: Seq<DatumModel>,
    b: int,
    pc: int,
    bp: int,
    t: int,
    num: int,
    day: int,
    fuel: nat,
)
    requires
        s == schedule_seq(b, pc, bp, t, num, day, fuel),
        bp >= 0,
        t >= 0,
    ensures
        forall|k: int|
            0 <= k < s.len() ==> (#[trigger] s[k]).total_interest <= ceil_fine(t)
                + sum_interest_first(s, k + 1) && ceil_fine(t) + sum_interest_first(s, k + 1)
                <= s[k].total_interest + (k + 1),
        forall|k: int| 1 <= k < s.len() ==> (#[trigger] s[k]).total_interest >= s[k - 1].total_interest,
        s.len() >= 1 ==> s[0].total_interest == ceil_fine(t + b * bp),
    decreases fuel,
{
    if b <= 0 || fuel == 0 {
    } else {
        let fine: int = b * bp;
        let p: int = principal_part(b, pc * SUBUNITS_PER_CENT, bp);
        let nb: int = b - p;
        assert(fine >= 0) by (nonlinear_arith)
            requires
                fine == b * bp,
                b > 0,
                bp >= 0,
        ;
        lemma_div_pos_is_pos(fine, MONTHLY_RATE_DENOM as int);
        assert(nb >= 0);
        let rest: Seq<DatumModel> = schedule_seq(
            nb,
            pc,
            bp,
            t + fine,
            num + 1,
            day + 30,
            (fuel - 1) as nat,
        );
        lemma_total_interest_tracks_sum(
            rest,
            nb,
            pc,
            bp,
            t + fine,
            num + 1,
            day + 30,
            (fuel - 1) as nat,
        );
        lemma_ceil_fine_subadd(t, fine);
        assert forall|k: int| 0 <= k < s.len() implies (#[trigger] s[k]).total_interest
            <= ceil_fine(t) + sum_interest_first(s, k + 1) && ceil_fine(t) + sum_interest_first(
            s,
            k + 1,
        ) <= s[k].total_interest + (k + 1) by {
            lemma_sum_cons(s[0], rest, s, k);
            if k >= 1 {
                assert(s[k] == rest[k - 1]);
            }
        }
        assert forall|k: int| 1 <= k < s.len() implies (#[trigger] s[k]).total_interest >= s[k
            - 1].total_interest by {
            assert(s[k] == rest[k - 1]);
            if k == 1 {
                let fine2: int = nb * bp;
                assert(fine2 >= 0) by (nonlinear_arith)
                    requires
                        fine2 == nb * bp,
                        nb >= 0,
                        bp >= 0,
                ;
                lemma_ceil_monotone(t + fine, t + fine + fine2);
            } else {
                assert(s[k - 1] == rest[k - 2]);
                assert(rest[k - 1].total_interest >= rest[k - 2].total_interest);
            }
        }
    }
}

/// Moving the start day moves only the dates: two schedules over the same
/// scalars agree on length and on every numeric field, row by row.
pub proof fn lemma_start_day_moves_only_dates(
    s1: Seq<DatumModel>,
    s2: Seq<DatumModel>,
    b: int,
    pc: int,
    bp: int,
    t: int,
    num: int,
    day1: int,
    day2: int,
    fuel: nat,
)
    requires
        s1 == schedule_seq(b, pc, bp, t, num, day1, fuel),
        s2 == schedule_seq(b, pc, bp, t, num, day2, fuel),
    ensures
        s1.len() == s2.len(),
        forall|k: int|
            0 <= k < s1.len() ==> ((#[trigger] s1[k]).payment_number == s2[k].payment_number
                && s1[k].payment == s2[k].payment && s1[k].principle == s2[k].principle && s1[k].interest
                == s2[k].interest && s1[k].total_interest == s2[k].total_interest && s1[k].balance
                == s2[k].balance),
    decreases fuel,
{
    if b <= 0 || fuel == 0 {
    } else {
        let p: int = principal_part(b, pc * SUBUNITS_PER_CENT, bp);
        let r1: Seq<DatumModel> = schedule_seq(
            b - p,
            pc,
            bp,
            t + b * bp,
            num + 1,
            day1 + 30,
            (fuel - 1) as nat,
        );
        let r2: Seq<DatumModel> = schedule_seq(
            b - p,
            pc,
            bp,
            t + b * bp,
            num + 1,
            day2 + 30,
            (fuel - 1) as nat,
        );
        lemma_start_day_moves_only_dates(
            r1,
            r2,
            b - p,
            pc,
            bp,
            t + b * bp,
            num + 1,
            day1 + 30,
            day2 + 30,
            (fuel - 1) as nat,
        );
        assert forall|k: int| 0 <= k < s1.len() implies ((#[trigger] s1[k]).payment_number
            == s2[k].payment_number && s1[k].payment == s2[k].payment && s1[k].principle
            == s2[k].principle && s1[k].interest == s2[k].interest && s1[k].total_interest
            == s2[k].total_interest && s1[k].balance == s2[k].balance) by {
            if k >= 1 {
                assert(s1[k] == r1[k - 1]);
                assert(s2[k] == r2[k - 1]);
            }
        }
    }
}

/// Amortizing the same scalars twice yields the same numeric fields row by
/// row; only the clock-dependent dates can differ between the two runs.
pub proof fn lemma_amortize_idempotent(
    loan_cents: u64,
    terms_in_months: i16,
    annual_rate_bp: u32,
    day1: int,
    day2: int,
)
    ensures
        schedule_of(loan_cents, terms_in_months, annual_rate_bp, day1).len() == schedule_of(
            loan_cents,
            terms_in_months,
            annual_rate_bp,
            day2,
        ).len(),
        forall|k: int|
            0 <= k < schedule_of(loan_cents, terms_in_months, annual_rate_bp, day1).len() ==> {
                let r1 = (#[trigger] schedule_of(
                    loan_cents,
                    terms_in_months,
                    annual_rate_bp,
                    day1,
                )[k]);
                let r2 = schedule_of(loan_cents, terms_in_months, annual_rate_bp, day2)[k];
                r1.payment_number == r2.payment_number && r1.payment == r2.payment && r1.principle
                    == r2.principle && r1.interest == r2.interest && r1.total_interest
                    == r2.total_interest && r1.balance == r2.balance
            },
{
    let b: int = (loan_cents * SUBUNITS_PER_CENT) as int;
    let pc: int = level_payment_cents(
        loan_cents as int,
        terms_in_months as int,
        annual_rate_bp as int,
    );
    lemma_start_day_moves_only_dates(
        schedule_of(loan_cents, terms_in_months, annual_rate_bp, day1),
        schedule_of(loan_cents, terms_in_months, annual_rate_bp, day2),
        b,
        pc,
        annual_rate_bp as int,
        0,
        1,
        day1,
        day2,
        MAX_PERIODS as nat,
    );
}

/// The level payment of a valid request covers a month of interest on any
/// balance up to the whole loan, in sub-units.
proof fn lemma_request_payment_margin(loan_cents: u64, terms_in_months: i16, annual_rate_bp: u32)
    requires
        valid_request(loan_cents, terms_in_months, annual_rate_bp),
    ensures
        level_payment_cents(loan_cents as int, terms_in_months as int, annual_rate_bp as int) * (
        SUBUNITS_PER_CENT as int) * (MONTHLY_RATE_DENOM as int) > (loan_cents
            * SUBUNITS_PER_CENT) as int * (annual_rate_bp as int),
{
    lemma_payment_covers_interest(loan_cents, terms_in_months, annual_rate_bp);
    let pc: int = level_payment_cents(
        loan_cents as int,
        terms_in_months as int,
        annual_rate_bp as int,
    );
    assert(pc * (SUBUNITS_PER_CENT as int) * (MONTHLY_RATE_DENOM as int) > (loan_cents
        * SUBUNITS_PER_CENT) as int * (annual_rate_bp as int)) by (nonlinear_arith)
        requires
            pc * (MONTHLY_RATE_DENOM as int) > loan_cents * annual_rate_bp,
    ;
}

/// Over a full request, remaining balances are never negative and never
/// increase from one row to the next.
pub proof fn lemma_request_balances(
    s: Seq<DatumModel>,
    loan_cents: u64,
    terms_in_months: i16,
    annual_rate_bp: u32,
    day: int,
)
    requires
        valid_request(loan_cents, terms_in_months, annual_rate_bp),
        s == schedule_of(loan_cents, terms_in_months, annual_rate_bp, day),
    ensures
        forall|k: int| 0 <= k < s.len() ==> (#[trigger] s[k]).balance >= 0,
        forall|k: int| 1 <= k < s.len() ==> (#[trigger] s[k]).balance <= s[k - 1].balance,
{
    lemma_request_payment_margin(loan_cents, terms_in_months, annual_rate_bp);
    let b: int = (loan_cents * SUBUNITS_PER_CENT) as int;
    let pc: int = level_payment_cents(
        loan_cents as int,
        terms_in_months as int,
        annual_rate_bp as int,
    );
    lemma_balances_monotone(s, b, pc, annual_rate_bp as int, 0, 1, day, MAX_PERIODS as nat, b);
}

/// Over a full request, every row but the last splits the payment into
/// principal and interest to within one cent above the payment.
pub proof fn lemma_request_split(
    s: Seq<DatumModel>,
    loan_cents: u64,
    terms_in_months: i16,
    annual_rate_bp: u32,
    day: int,
)
    requires
        valid_request(loan_cents, terms_in_months, annual_rate_bp),
        s == schedule_of(loan_cents, terms_in_months, annual_rate_bp, day),
    ensures
        forall|k: int|
            0 <= k < s.len() - 1 ==> level_payment_cents(
                loan_cents as int,
                terms_in_months as int,
                annual_rate_bp as int,
            ) <= (#[trigger] s[k]).principle + s[k].interest <= level_payment_cents(
                loan_cents as int,
                terms_in_months as int,
                annual_rate_bp as int,
            ) + 1,
{
    lemma_request_payment_margin(loan_cents, terms_in_months, annual_rate_bp);
    let b: int = (loan_cents * SUBUNITS_PER_CENT) as int;
    let pc: int = level_payment_cents(
        loan_cents as int,
        terms_in_months as int,
        annual_rate_bp as int,
    );
    lemma_payment_split(s, b, pc, annual_rate_bp as int, 0, 1, day, MAX_PERIODS as nat, b);
}

/// Over a full request, each row's cumulative interest equals the running
/// sum of the stored per-row interest fields to within one cent per row, and
/// never decreases.
pub proof fn lemma_request_interest_sum(
    s: Seq<DatumModel>,
    loan_cents: u64,
    terms_in_months: i16,
    annual_rate_bp: u32,
    day: int,
)
    requires
        valid_request(loan_cents, terms_in_months, annual_rate_bp),
        s == schedule_of(loan_cents, terms_in_months, annual_rate_bp, day),
    ensures
        forall|k: int|
            0 <= k < s.len() ==> (#[trigger] s[k]).total_interest <= sum_interest_first(s, k + 1)
                && sum_interest_first(s, k + 1) <= s[k].total_interest + (k + 1),
        forall|k: int| 1 <= k < s.len() ==> (#[trigger] s[k]).total_interest >= s[k - 1].total_interest,
{
    let b: int = (loan_cents * SUBUNITS_PER_CENT) as int;
    let pc: int = level_payment_cents(
        loan_cents as int,
        terms_in_months as int,
        annual_rate_bp as int,
    );
    lemma_total_interest_tracks_sum(s, b, pc, annual_rate_bp as int, 0, 1, day, MAX_PERIODS as nat);
    assert(ceil_fine(0) == 0);
}

/// With a zero rate each period retires a full payment, so a balance of at
/// most fuel payments reaches zero within the fuel.
proof fn lemma_zero_rate_retires(b: int, psub: int, fuel: nat)
    requires
        psub >= 1,
        0 <= b,
        b <= fuel * psub,
    ensures
        balance_after(b, psub, 0, fuel) == 0,
    decreases fuel,
{
    if b == 0 {
    } else {
        assert(fuel >= 1) by (nonlinear_arith)
            requires
                b >= 1,
                b <= fuel * psub,
                psub >= 1,
                fuel >= 0,
        ;
        let m: int = MONTHLY_RATE_DENOM as int;
        assert(interest_part(b, 0) == 0) by {
            assert(b * 0 == 0);
            lemma_div_pos_is_pos(0, m);
            lemma_div_is_ordered(0, 0, m);
            assert(0int / m == 0) by (nonlinear_arith)
                requires
                    m >= 1,
            ;
        }
        let p: int = principal_part(b, psub, 0);
        let nb: int = b - p;
        assert(nb <= (fuel - 1) * psub) by (nonlinear_arith)
            requires
                nb == if psub > b {
                    0int
                } else {
                    b - psub
                },
                b <= fuel * psub,
                fuel >= 1,
                psub >= 1,
        ;
        lemma_zero_rate_retires(nb, psub, (fuel - 1) as nat);
    }
}

/// A zero-rate loan is handled explicitly: the payment degenerates to equal
/// installments of the loan over the term, and the schedule always retires
/// the balance, so a valid zero-rate request is never rejected.
pub proof fn lemma_zero_rate_amortizes(loan_cents: u64, terms_in_months: i16)
    requires
        valid_request(loan_cents, terms_in_months, 0),
    ensures
        fully_amortizes(loan_cents, terms_in_months, 0),
{
    let lc: int = loan_cents as int;
    let n: int = terms_in_months as int;
    let pc: int = level_payment_cents(lc, n, 0);
    let s: int = SUBUNITS_PER_CENT as int;
    lemma_fundamental_div_mod(lc + n - 1, n);
    assert(pc >= 1 && pc * n >= lc) by (nonlinear_arith)
        requires
            n >= 1,
            lc >= 1,
            pc == (lc + n - 1) / n,
            lc + n - 1 == n * pc + (lc + n - 1) % n,
            0 <= (lc + n - 1) % n < n,
    ;
    assert(lc * s <= (MAX_PERIODS as int) * (pc * s)) by (nonlinear_arith)
        requires
            pc * n >= lc,
            1 <= n <= 0x7fff,
            pc >= 1,
            s >= 1,
            MAX_PERIODS >= 0x8000,
    ;
    lemma_zero_rate_retires(lc * s, pc * s, MAX_PERIODS as nat);
}

} // verus!
