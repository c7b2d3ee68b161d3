//! Dates as the forum prints them (`DD-MM-YYYY HH:MM`, sometimes with two
//! spaces before the time), rewritten as `YYYY-MM-DD HH:MM`.

use vstd::prelude::*;
use crate::outside::{regex_group, regex_group_of};
use crate::text::concat_str;

verus! {

/// The forum's date format, with the groups day, month, year and time in
/// this order.
pub const DATE_PATTERN: &'static str = r"(?<day>\d{2})-(?<month>\d{2})-(?<year>\d{4})\s\s?(?<time>\d{2}:\d{2})";

/// `YYYY-MM-DD HH:MM` from its parts.
pub open spec fn date_text(day: Seq<char>, month: Seq<char>, year: Seq<char>, time: Seq<char>) -> Seq<char> {
    year + seq!['-'] + month + seq!['-'] + day + seq![' '] + time
}

/// The text that capture group `k` of the date pattern matches in `date`.
pub open spec fn date_group(date: Seq<char>, k: nat) -> Option<Seq<char>> {
    regex_group_of(DATE_PATTERN@, date, k)
}

/// The reformatted date, when `date` holds one in the forum's format.
pub open spec fn reformatted_date(date: Seq<char>) -> Option<Seq<char>> {
    match (date_group(date, 1), date_group(date, 2), date_group(date, 3), date_group(date, 4)) {
        (Some(d), Some(m), Some(y), Some(t)) => Some(date_text(d, m, y, t)),
        _ => None,
    }
}

/// When the date pattern matches, the rewritten date is the year group,
/// `-`, the month group, `-`, the day group, a space and the time group,
/// so that each field of the result is the field of the same name in the
/// input; when it does not match, there is no rewritten date.
pub proof fn lemma_reformat_date_fields(date: Seq<char>)
    ensures
        match (
            regex_group_of(DATE_PATTERN@, date, 1),
            regex_group_of(DATE_PATTERN@, date, 2),
            regex_group_of(DATE_PATTERN@, date, 3),
            regex_group_of(DATE_PATTERN@, date, 4),
        ) {
            (Some(day), Some(month), Some(year), Some(time)) => {
                &&& reformatted_date(date) == Some(
                    year + seq!['-'] + month + seq!['-'] + day + seq![' '] + time,
                )
                &&& reformatted_date(date) matches Some(r) && {
                    let m0: int = year.len() + 1int;
                    let d0: int = m0 + month.len() + 1;
                    let t0: int = d0 + day.len() + 1;
                    &&& r.len() == t0 + time.len()
                    &&& r.subrange(0, year.len() as int) == year
                    &&& r[year.len() as int] == '-'
                    &&& r.subrange(m0, m0 + month.len()) == month
                    &&& r[m0 + month.len()] == '-'
                    &&& r.subrange(d0, d0 + day.len()) == day
                    &&& r[d0 + day.len()] == ' '
                    &&& r.subrange(t0, t0 + time.len()) == time
                }
            },
            _ => reformatted_date(date) is None,
        },
{
    if let (Some(day), Some(month), Some(year), Some(time)) = (
        regex_group_of(DATE_PATTERN@, date, 1),
        regex_group_of(DATE_PATTERN@, date, 2),
        regex_group_of(DATE_PATTERN@, date, 3),
        regex_group_of(DATE_PATTERN@, date, 4),
    ) {
        let r = year + seq!['-'] + month + seq!['-'] + day + seq![' '] + time;
        let m0: int = year.len() + 1int;
        let d0: int = m0 + month.len() + 1;
        let t0: int = d0 + day.len() + 1;
        assert(r.subrange(0, year.len() as int) =~= year);
        assert(r.subrange(m0, m0 + month.len()) =~= month);
        assert(r.subrange(d0, d0 + day.len()) =~= day);
        assert(r.subrange(t0, t0 + time.len()) =~= time);
    }
}

/// Writes the parts of a date as `YYYY-MM-DD HH:MM`.
pub fn assemble_date(day: &str, month: &str, year: &str, time: &str) -> (res: String)
    ensures
        res@ == date_text(day@, month@, year@, time@),
{
    proof {
        reveal_strlit("-");
        reveal_strlit(" ");
    }
    let mut out = concat_str(year, "-");
    out.append(month);
    out.append("-");
    out.append(day);
    out.append(" ");
    out.append(time);
    out
}

/// Finds a forum date in `date` and rewrites it as `YYYY-MM-DD HH:MM`;
/// `None` when `date` holds none.
pub fn reformat_date(date: &str) -> (res: Option<String>)
    ensures
        res.deep_view() == reformatted_date(date@),
{
    let day = regex_group(DATE_PATTERN, date, 1);
    let month = regex_group(DATE_PATTERN, date, 2);
    let year = regex_group(DATE_PATTERN, date, 3);
    let time = regex_group(DATE_PATTERN, date, 4);
    match (day, month, year, time) {
        (Some(d), Some(m), Some(y), Some(t)) => Some(assemble_date(&d, &m, &y, &t)),
        _ => None,
    }
}

} // verus!
