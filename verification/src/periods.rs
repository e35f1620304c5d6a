//! Resolution of the (year, month) retrieval periods from the optional
//! command-line bounds, and the rule that skips months that lie in the
//! future of the injected current date.

use vstd::prelude::*;

verus! {

/// A month is skipped when it belongs to the current year and lies after
/// the current month. Months of later years are not skipped; the retrieval
/// of such a month is simply expected to return no games.
pub fn is_future_month(year: i32, month: u32, current_year: i32, current_month: u32) -> (r: bool)
    ensures
        r == (year == current_year && month > current_month),
{
    year == current_year && month > current_month
}

/// The (year, month) pairs of one year, months `sm` up to (excluding) `em`,
/// in month order.
pub open spec fn months_row(y: i32, sm: int, em: int) -> Seq<(i32, u32)>
    decreases em - sm,
{
    if sm >= em {
        Seq::empty()
    } else {
        months_row(y, sm, em - 1).push((y, (em - 1) as u32))
    }
}

/// The (year, month) pairs of the years `sy` up to (excluding) `ey`, in
/// year-major order.
pub open spec fn periods_rows(sy: int, ey: int, sm: int, em: int) -> Seq<(i32, u32)>
    decreases ey - sy,
{
    if sy >= ey {
        Seq::empty()
    } else {
        periods_rows(sy, ey - 1, sm, em) + months_row((ey - 1) as i32, sm, em)
    }
}

pub open spec fn spec_start_month(o: Option<u32>) -> int {
    match o {
        Some(m) => m as int,
        None => 1,
    }
}

pub open spec fn spec_end_month_excl(o: Option<u32>) -> int {
    match o {
        Some(m) => m as int + 1,
        None => 13,
    }
}

pub open spec fn spec_start_year(o: Option<i32>, current: int) -> int {
    match o {
        Some(y) => y as int,
        None => current,
    }
}

pub open spec fn spec_end_year_excl(o: Option<i32>, current: int) -> int {
    match o {
        Some(y) => y as int + 1,
        None => current + 1,
    }
}

/// Resolves the retrieval periods from the optional command-line bounds:
/// every (year, month) pair from `start_year` (default: the current year)
/// through `end_year` (default: the current year, both inclusive) and
/// from `start_month` (default: January) through `end_month` (default:
/// December, both inclusive), in year-major order.
pub fn resolve_periods(
    start_month: Option<u32>,
    start_year: Option<i32>,
    end_month: Option<u32>,
    end_year: Option<i32>,
    current_year: i32,
) -> (r: Vec<(i32, u32)>)
    requires
        (end_month matches Some(m) ==> m < u32::MAX),
        (end_year matches Some(y) ==> y < i32::MAX),
        current_year < i32::MAX,
    ensures
        r@ == periods_rows(
            spec_start_year(start_year, current_year as int),
            spec_end_year_excl(end_year, current_year as int),
            spec_start_month(start_month),
            spec_end_month_excl(end_month),
        ),
{
    let sm: u32 = match start_month {
        Some(m) => m,
        None => 1,
    };
    let em: u32 = match end_month {
        Some(m) => m + 1,
        None => 13,
    };
    let sy: i32 = match start_year {
        Some(y) => y,
        None => current_year,
    };
    let ey: i32 = match end_year {
        Some(y) => y + 1,
        None => current_year + 1,
    };
    let mut r: Vec<(i32, u32)> = Vec::new();
    let mut y: i32 = sy;
    proof {
        assert(r@ =~= periods_rows(sy as int, sy as int, sm as int, em as int));
    }
    while y < ey
        invariant
            sy <= y,
            y <= ey || y == sy,
            r@ == periods_rows(sy as int, y as int, sm as int, em as int),
        decreases ey - y,
    {
        let mut m: u32 = sm;
        proof {
            assert(months_row(y, sm as int, sm as int) =~= Seq::<(i32, u32)>::empty());
            assert(r@ =~= periods_rows(sy as int, y as int, sm as int, em as int) + months_row(
                y,
                sm as int,
                sm as int,
            ));
        }
        while m < em
            invariant
                sm <= m,
                m <= em || m == sm,
                y < ey,
                sy <= y,
                r@ == periods_rows(sy as int, y as int, sm as int, em as int) + months_row(
                    y,
                    sm as int,
                    m as int,
                ),
            decreases em - m,
        {
            r.push((y, m));
            proof {
                assert(months_row(y, sm as int, m as int + 1) == months_row(
                    y,
                    sm as int,
                    m as int,
                ).push((y, m)));
                assert(r@ =~= periods_rows(sy as int, y as int, sm as int, em as int)
                    + months_row(y, sm as int, m as int + 1));
            }
            m = m + 1;
        }
        proof {
            if m != em {
                assert(sm >= em);
                assert(months_row(y, sm as int, em as int) =~= Seq::<(i32, u32)>::empty());
                assert(months_row(y, sm as int, m as int) =~= Seq::<(i32, u32)>::empty());
            }
            assert(r@ == periods_rows(sy as int, y as int, sm as int, em as int) + months_row(
                y,
                sm as int,
                em as int,
            ));
            assert(periods_rows(sy as int, y as int + 1, sm as int, em as int) == periods_rows(
                sy as int,
                y as int,
                sm as int,
                em as int,
            ) + months_row(y, sm as int, em as int));
        }
        y = y + 1;
    }
    proof {
        if y != ey {
            assert(sy >= ey);
            assert(periods_rows(sy as int, ey as int, sm as int, em as int) =~= Seq::<
                (i32, u32),
            >::empty());
            assert(periods_rows(sy as int, y as int, sm as int, em as int) =~= Seq::<
                (i32, u32),
            >::empty());
        }
    }
    r
}

} // verus!
