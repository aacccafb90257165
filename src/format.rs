//! Text shown on the server's pages: file sizes, dates and the plain file list.
use vstd::prelude::*;
use vstd::string::StringExecFns;
use crate::directory::FileMeta;
use crate::month::{month_number_name, month_to_string};
use crate::text::{
    decimal, push_decimal, push_signed_decimal, push_two_digits, signed_decimal, two_digits,
};

verus! {

/// A byte count in the largest unit it reaches, with the next two digits of that unit
/// cut down to one or two digits without leading zeros (1050 bytes are `1.5 Kb`).
pub open spec fn size_text(b: nat) -> Seq<char> {
    if b < 1000 {
        decimal(b) + " b"@
    } else if b <= 999999 {
        decimal(b / 1000) + "."@ + decimal((b % 1000) / 10) + " Kb"@
    } else if b <= 999999999 {
        decimal(b / 1000000) + "."@ + decimal((b % 1000000) / 10000) + " Mb"@
    } else {
        decimal(b / 1000000000) + "."@ + decimal((b % 1000000000) / 10000000) + " Gb"@
    }
}

/// Renders a byte count as `size_text` says.
pub fn size(bytes: u64) -> (r: String)
    ensures
        r@ == size_text(bytes as nat),
{
    let mut s = String::new();
    if bytes < 1000 {
        push_decimal(&mut s, bytes);
        s.append(" b");
    } else {
        let (unit, part, name) = if bytes <= 999999 {
            (1000u64, 10u64, " Kb")
        } else if bytes <= 999999999 {
            (1000000u64, 10000u64, " Mb")
        } else {
            (1000000000u64, 10000000u64, " Gb")
        };
        push_decimal(&mut s, bytes / unit);
        s.append(".");
        push_decimal(&mut s, (bytes % unit) / part);
        s.append(name);
    }
    assert(s@ =~= size_text(bytes as nat));
    s
}

#[derive(Clone, Copy, Debug, PartialEq, Eq, Structural)]
pub enum Weekday {
    Mon,
    Tue,
    Wed,
    Thu,
    Fri,
    Sat,
    Sun,
}

/// The weekday's three-letter English name.
pub open spec fn weekday_name(w: Weekday) -> Seq<char> {
    match w {
        Weekday::Mon => "Mon"@,
        Weekday::Tue => "Tue"@,
        Weekday::Wed => "Wed"@,
        Weekday::Thu => "Thu"@,
        Weekday::Fri => "Fri"@,
        Weekday::Sat => "Sat"@,
        Weekday::Sun => "Sun"@,
    }
}

/// The weekday's three-letter name.
pub fn weekday(w: Weekday) -> (r: String)
    ensures
        r@ == weekday_name(w),
{
    let name = match w {
        Weekday::Mon => "Mon",
        Weekday::Tue => "Tue",
        Weekday::Wed => "Wed",
        Weekday::Thu => "Thu",
        Weekday::Fri => "Fri",
        Weekday::Sat => "Sat",
        Weekday::Sun => "Sun",
    };
    String::from_str(name)
}

/// A local date and time of day, as a calendar shows it: months count from 1.
pub struct DateTime {
    pub year: i32,
    pub month: u32,
    pub day: u32,
    pub hour: u32,
    pub minute: u32,
    pub second: u32,
    pub weekday: Weekday,
}

/// A date as the file list shows it: `Tue, Mar 05 2024  09:04:00`.
pub open spec fn date_text(d: DateTime) -> Seq<char> {
    weekday_name(d.weekday) + ", "@ + month_number_name(d.month as nat) + " "@ + two_digits(
        d.day as nat,
    ) + " "@ + signed_decimal(d.year as int) + "  "@ + two_digits(d.hour as nat) + ":"@
        + two_digits(d.minute as nat) + ":"@ + two_digits(d.second as nat)
}

/// Renders a date as `date_text` says.
pub fn date(d: &DateTime) -> (r: String)
    ensures
        r@ == date_text(*d),
{
    let mut s = weekday(d.weekday);
    s.append(", ");
    let m = month_to_string(d.month);
    s.append(m.as_str());
    s.append(" ");
    push_two_digits(&mut s, d.day as u64);
    s.append(" ");
    push_signed_decimal(&mut s, d.year as i64);
    s.append("  ");
    push_two_digits(&mut s, d.hour as u64);
    s.append(":");
    push_two_digits(&mut s, d.minute as u64);
    s.append(":");
    push_two_digits(&mut s, d.second as u64);
    assert(s@ =~= date_text(*d));
    s
}

/// One line per file, each its download path: `/files/<name>`.
pub open spec fn listing(files: Seq<FileMeta>) -> Seq<char>
    decreases files.len(),
{
    if files.len() == 0 {
        Seq::empty()
    } else {
        listing(files.drop_last()) + "/files/"@ + files.last().name@ + "\n"@
    }
}

/// The plain-text file list: one line per file, as `listing` says.
pub fn file_list(res: &Vec<FileMeta>) -> (r: String)
    ensures
        r@ == listing(res@),
{
    let mut response = String::new();
    let mut i: usize = 0;
    while i < res.len()
        invariant
            i <= res@.len(),
            response@ == listing(res@.take(i as int)),
        decreases res@.len() - i,
    {
        response.append("/files/");
        response.append(res[i].name.as_str());
        response.append("\n");
        proof {
            assert(res@.take(i + 1).drop_last() =~= res@.take(i as int));
        }
        i = i + 1;
    }
    assert(res@.take(res@.len() as int) =~= res@);
    response
}

} // verus!
