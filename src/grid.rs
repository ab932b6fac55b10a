use vstd::prelude::*;

verus! {

/// Number of periods (weeks) in the grid of one unit.
pub const PERIODS_PER_UNIT: i32 = 8;

/// Number of day addresses in one period.
pub const DAYS_PER_PERIOD: i32 = 7;

/// Grams of feed in one thousandth of a bag (a bag holds 50 kg).
pub const GRAMS_PER_MILLI_BAG: i64 = 50;

/// A period number addresses one of the periods of a unit.
pub open spec fn valid_period_number(n: int) -> bool {
    1 <= n <= PERIODS_PER_UNIT
}

/// The age of day `offset` (1 to 7) of period `n`.
pub open spec fn age_spec(n: int, offset: int) -> int {
    (n - 1) * DAYS_PER_PERIOD + offset
}

/// Whether `age` is one of the day addresses of period `n`.
pub open spec fn age_in_period(n: int, age: int) -> bool {
    valid_period_number(n) && age_spec(n, 1) <= age <= age_spec(n, DAYS_PER_PERIOD as int)
}

/// The age of day `offset` of period `numero_semaine`.
pub fn age_of(numero_semaine: i32, offset: i32) -> (r: i32)
    requires
        valid_period_number(numero_semaine as int),
        1 <= offset <= DAYS_PER_PERIOD,
    ensures
        r == age_spec(numero_semaine as int, offset as int),
        age_in_period(numero_semaine as int, r as int),
{
    (numero_semaine - 1) * DAYS_PER_PERIOD + offset
}

/// Whether `age` is a day address of period `numero_semaine`.
pub fn is_age_of_period(numero_semaine: i32, age: i32) -> (r: bool)
    ensures
        r == age_in_period(numero_semaine as int, age as int),
{
    if numero_semaine < 1 || numero_semaine > PERIODS_PER_UNIT {
        return false;
    }
    let first = age_of(numero_semaine, 1);
    let last = age_of(numero_semaine, DAYS_PER_PERIOD);
    first <= age && age <= last
}

} // verus!
