//! Months and their short names.
use vstd::prelude::*;
use vstd::string::StringExecFns;

verus! {

#[derive(Clone, Copy, Debug, PartialEq, Eq, Structural)]
pub enum Month {
    Jan,
    Feb,
    Mar,
    Apr,
    May,
    Jun,
    Jul,
    Aug,
    Sep,
    Oct,
    Nov,
    Dec,
}

/// The month's place in the year, counting January as 0.
pub open spec fn month_index(m: Month) -> nat {
    match m {
        Month::Jan => 0,
        Month::Feb => 1,
        Month::Mar => 2,
        Month::Apr => 3,
        Month::May => 4,
        Month::Jun => 5,
        Month::Jul => 6,
        Month::Aug => 7,
        Month::Sep => 8,
        Month::Oct => 9,
        Month::Nov => 10,
        Month::Dec => 11,
    }
}

/// The month's three-letter English name.
pub open spec fn month_name(m: Month) -> Seq<char> {
    match m {
        Month::Jan => "Jan"@,
        Month::Feb => "Feb"@,
        Month::Mar => "Mar"@,
        Month::Apr => "Apr"@,
        Month::May => "May"@,
        Month::Jun => "Jun"@,
        Month::Jul => "Jul"@,
        Month::Aug => "Aug"@,
        Month::Sep => "Sep"@,
        Month::Oct => "Oct"@,
        Month::Nov => "Nov"@,
        Month::Dec => "Dec"@,
    }
}

/// The name of month number `m`, counting January as 1, or `--` for a number that
/// names no month.
pub open spec fn month_number_name(m: nat) -> Seq<char> {
    if 1 <= m <= 12 {
        month_name(month_at((m - 1) as nat))
    } else {
        "--"@
    }
}

/// The month at place `i` of the year, counting January as 0.
pub open spec fn month_at(i: nat) -> Month {
    if i == 0 {
        Month::Jan
    } else if i == 1 {
        Month::Feb
    } else if i == 2 {
        Month::Mar
    } else if i == 3 {
        Month::Apr
    } else if i == 4 {
        Month::May
    } else if i == 5 {
        Month::Jun
    } else if i == 6 {
        Month::Jul
    } else if i == 7 {
        Month::Aug
    } else if i == 8 {
        Month::Sep
    } else if i == 9 {
        Month::Oct
    } else if i == 10 {
        Month::Nov
    } else {
        Month::Dec
    }
}

impl Month {
    /// The month at place `v` of the year, counting January as 0; an error past December.
    pub fn try_from(v: u32) -> (r: Result<Month, ()>)
        ensures
            v < 12 ==> (r matches Ok(m) && month_index(m) == v),
            v >= 12 ==> r is Err,
    {
        match v {
            0 => Ok(Month::Jan),
            1 => Ok(Month::Feb),
            2 => Ok(Month::Mar),
            3 => Ok(Month::Apr),
            4 => Ok(Month::May),
            5 => Ok(Month::Jun),
            6 => Ok(Month::Jul),
            7 => Ok(Month::Aug),
            8 => Ok(Month::Sep),
            9 => Ok(Month::Oct),
            10 => Ok(Month::Nov),
            11 => Ok(Month::Dec),
            _ => Err(()),
        }
    }
}

/// The month's three-letter name.
pub fn month(m: Month) -> (r: String)
    ensures
        r@ == month_name(m),
{
    let name = match m {
        Month::Jan => "Jan",
        Month::Feb => "Feb",
        Month::Mar => "Mar",
        Month::Apr => "Apr",
        Month::May => "May",
        Month::Jun => "Jun",
        Month::Jul => "Jul",
        Month::Aug => "Aug",
        Month::Sep => "Sep",
        Month::Oct => "Oct",
        Month::Nov => "Nov",
        Month::Dec => "Dec",
    };
    String::from_str(name)
}

/// The name of month number `number`, counting January as 1, or `--` when there is no
/// such month.
pub fn month_to_string(number: u32) -> (r: String)
    ensures
        r@ == month_number_name(number as nat),
{
    if 1 <= number && number <= 12 {
        match Month::try_from(number - 1) {
            Ok(m) => month(m),
            Err(_) => String::from_str("--"),
        }
    } else {
        String::from_str("--")
    }
}

} // verus!
