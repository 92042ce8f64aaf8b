use amort::amort::{amortize, amortize_from, AmortizeError, AmortizedDatum};

const SCENARIO_LOAN_CENTS: u64 = 30_000_000;
const SCENARIO_TERMS: i16 = 360;
const SCENARIO_RATE_BP: u32 = 500;

fn scenario_schedule() -> Vec<AmortizedDatum> {
    amortize_from(SCENARIO_LOAN_CENTS, SCENARIO_TERMS, SCENARIO_RATE_BP, 0).unwrap()
}

#[test]
fn thirty_year_scenario_has_full_term() {
    let table = scenario_schedule();
    assert_eq!(table.len(), 360);
}

#[test]
fn thirty_year_scenario_first_row() {
    let table = scenario_schedule();
    let first = &table[0];
    assert_eq!(first.payment_number, 1);
    assert_eq!(first.payment_date, 0);
    assert_eq!(first.payment, 161_047);
    assert_eq!(first.principle, 36_047);
    assert_eq!(first.interest, 125_000);
    assert_eq!(first.total_interest, 125_000);
    assert_eq!(first.balance, 29_963_953);
}

#[test]
fn thirty_year_scenario_last_row() {
    let table = scenario_schedule();
    let last = &table[table.len() - 1];
    assert_eq!(last.payment_number, 360);
    assert_eq!(last.payment_date, 30 * 359);
    assert_eq!(last.payment, 161_047);
    assert_eq!(last.principle, 159_954);
    assert_eq!(last.interest, 667);
    assert_eq!(last.total_interest, 27_976_493);
    assert_eq!(last.balance, 0);
}

#[test]
fn period_numbers_are_contiguous_from_one() {
    let table = scenario_schedule();
    assert!(!table.is_empty());
    for (k, row) in table.iter().enumerate() {
        assert_eq!(row.payment_number as usize, k + 1);
    }
}

#[test]
fn dates_step_by_thirty_days() {
    let table = scenario_schedule();
    for (k, row) in table.iter().enumerate() {
        assert_eq!(row.payment_date, 30 * k as i64);
    }
}

#[test]
fn balance_never_increases_and_ends_at_zero() {
    let table = scenario_schedule();
    let mut prev = u64::MAX;
    for row in &table {
        assert!(row.balance <= prev);
        prev = row.balance;
    }
    assert_eq!(table[table.len() - 1].balance, 0);
}

#[test]
fn cumulative_interest_tracks_running_sum() {
    let table = scenario_schedule();
    let mut sum: u64 = 0;
    let mut prev_total: u64 = 0;
    for (k, row) in table.iter().enumerate() {
        sum += row.interest;
        assert!(row.total_interest >= prev_total);
        assert!(row.total_interest <= sum);
        assert!(sum <= row.total_interest + (k as u64 + 1));
        prev_total = row.total_interest;
    }
}

#[test]
fn principal_plus_interest_within_one_cent_of_payment() {
    let table = scenario_schedule();
    for row in table.iter().take(table.len() - 1) {
        let split: u64 = row.principle + row.interest;
        assert!(split >= row.payment);
        assert!(split <= row.payment + 1);
    }
}

#[test]
fn zero_rate_degenerates_to_equal_installments() {
    let table = amortize_from(100_000, 12, 0, 100).unwrap();
    assert_eq!(table.len(), 12);
    let first = &table[0];
    assert_eq!(first.payment, 8_334);
    assert_eq!(first.principle, 8_334);
    assert_eq!(first.interest, 0);
    assert_eq!(first.total_interest, 0);
    assert_eq!(first.balance, 91_666);
    let last = &table[11];
    assert_eq!(last.payment, 8_334);
    assert_eq!(last.principle, 8_326);
    assert_eq!(last.interest, 0);
    assert_eq!(last.total_interest, 0);
    assert_eq!(last.balance, 0);
}

#[test]
fn one_cent_loan_single_period() {
    let table = amortize_from(1, 1, 500, 0).unwrap();
    assert_eq!(table.len(), 1);
    assert_eq!(table[0].payment, 2);
    assert_eq!(table[0].principle, 1);
    assert_eq!(table[0].interest, 1);
    assert_eq!(table[0].total_interest, 1);
    assert_eq!(table[0].balance, 0);
}

#[test]
fn twelve_month_loan_exact_rows() {
    let table = amortize_from(120_000, 12, 1_200, 0).unwrap();
    assert_eq!(table.len(), 12);
    assert_eq!(table[0].payment, 10_662);
    assert_eq!(table[0].principle, 9_462);
    assert_eq!(table[0].interest, 1_200);
    assert_eq!(table[0].balance, 110_538);
    assert_eq!(table[11].principle, 10_555);
    assert_eq!(table[11].interest, 106);
    assert_eq!(table[11].total_interest, 7_943);
    assert_eq!(table[11].balance, 0);
}

#[test]
fn rejects_zero_loan() {
    assert_eq!(amortize_from(0, 360, 500, 0), Err(AmortizeError::InvalidInput));
}

#[test]
fn rejects_non_positive_term() {
    assert_eq!(amortize_from(30_000_000, 0, 500, 0), Err(AmortizeError::InvalidInput));
    assert_eq!(amortize_from(30_000_000, -12, 500, 0), Err(AmortizeError::InvalidInput));
}

#[test]
fn rejects_oversized_scalars() {
    assert_eq!(amortize_from(10_000_000_000_001, 360, 500, 0), Err(AmortizeError::InvalidInput));
    assert_eq!(amortize_from(30_000_000, 360, 120_001, 0), Err(AmortizeError::InvalidInput));
}

#[test]
fn amortize_now_dates_step_from_today() {
    let table = amortize(SCENARIO_LOAN_CENTS, SCENARIO_TERMS, SCENARIO_RATE_BP).unwrap();
    assert_eq!(table.len(), 360);
    let start: i64 = table[0].payment_date;
    // The clock hands back a moment at or after the Unix epoch and within
    // chrono's representable range.
    assert!(start >= 0);
    assert!(start < 9_000_000_000_000 / 86_400 + 1);
    for (k, row) in table.iter().enumerate() {
        assert_eq!(row.payment_date, start + 30 * k as i64);
    }
}

#[test]
fn amortize_twice_same_numeric_fields() {
    let a = amortize(SCENARIO_LOAN_CENTS, SCENARIO_TERMS, SCENARIO_RATE_BP).unwrap();
    let b = amortize(SCENARIO_LOAN_CENTS, SCENARIO_TERMS, SCENARIO_RATE_BP).unwrap();
    assert_eq!(a.len(), b.len());
    for (x, y) in a.iter().zip(b.iter()) {
        assert_eq!(x.payment_number, y.payment_number);
        assert_eq!(x.payment, y.payment);
        assert_eq!(x.principle, y.principle);
        assert_eq!(x.interest, y.interest);
        assert_eq!(x.total_interest, y.total_interest);
        assert_eq!(x.balance, y.balance);
    }
}

#[test]
fn fixed_start_runs_are_identical() {
    let a = amortize_from(120_000, 12, 1_200, 7_000).unwrap();
    let b = amortize_from(120_000, 12, 1_200, 7_000).unwrap();
    assert_eq!(a, b);
}
