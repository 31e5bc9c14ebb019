//! Monthly activity: what a publisher's reports add up to over a period,
//! and whether a report counts as preached when it is saved.
//!
//! Pioneers report hours and credits, which are summed; other publishers
//! report whether they preached.

use crate::calendar::{date_le, in_period, prev_day, valid_date, Date, Period};
use crate::model::{
    same_record, FieldServiceReport, FieldServiceReportCommitment, FieldServiceReportStatus, RecordId,
    UserType,
};
use crate::text::{decimal, decimal_string, parse_i16, parsed_i16};
use vstd::prelude::*;

verus! {

/// A pioneer of any kind: regular, special or continuous auxiliary.
pub open spec fn is_pioneer(t: Option<UserType>) -> bool {
    t matches Some(UserType::RegularPioneer) || t matches Some(UserType::SpecialPioneer)
        || t matches Some(UserType::ContiniousAuxiliaryPioneer)
}

/// `r` is a report of `publisher` dated within `period`.
pub open spec fn counts_for(r: FieldServiceReport, publisher: RecordId, period: Period) -> bool {
    &&& r.publisher matches Some(p) && same_record(p, publisher)
    &&& in_period(r.date, period)
}

pub open spec fn opt_value(v: Option<i16>) -> int {
    match v {
        Some(x) => x as int,
        None => 0,
    }
}

/// The hours of `publisher`'s reports within `period`, a missing value
/// counting as zero.
pub open spec fn total_hours(reports: Seq<FieldServiceReport>, publisher: RecordId, period: Period) -> int
    decreases reports.len(),
{
    if reports.len() == 0 {
        0
    } else {
        total_hours(reports.drop_last(), publisher, period) + if counts_for(
            reports.last(),
            publisher,
            period,
        ) {
            opt_value(reports.last().hours)
        } else {
            0
        }
    }
}

/// The credits of `publisher`'s reports within `period`, a missing value
/// counting as zero.
pub open spec fn total_credits(reports: Seq<FieldServiceReport>, publisher: RecordId, period: Period) -> int
    decreases reports.len(),
{
    if reports.len() == 0 {
        0
    } else {
        total_credits(reports.drop_last(), publisher, period) + if counts_for(
            reports.last(),
            publisher,
            period,
        ) {
            opt_value(reports.last().credits)
        } else {
            0
        }
    }
}

/// Some report of `publisher` within `period` says that they preached.
pub open spec fn preached_in(reports: Seq<FieldServiceReport>, publisher: RecordId, period: Period) -> bool {
    exists|i: int|
        0 <= i < reports.len() && counts_for(#[trigger] reports[i], publisher, period)
            && reports[i].preached
}

/// What the list of publishers shows for a month.
#[derive(Clone, Debug)]
pub struct ActivitySummary {
    pub label: String,
    pub success: bool,
}

pub open spec fn pioneer_label(total: int) -> Seq<char> {
    decimal(total) + " hours"@
}

pub open spec fn preached_label(preached: bool) -> Seq<char> {
    if preached {
        "Preached"@
    } else {
        "Not preached"@
    }
}

proof fn lemma_totals_bounded(reports: Seq<FieldServiceReport>, publisher: RecordId, period: Period)
    ensures
        -32768 * reports.len() <= total_hours(reports, publisher, period) <= 32767 * reports.len(),
        -32768 * reports.len() <= total_credits(reports, publisher, period) <= 32767
            * reports.len(),
    decreases reports.len(),
{
    if reports.len() > 0 {
        lemma_totals_bounded(reports.drop_last(), publisher, period);
    }
}

fn opt_or_zero(v: Option<i16>) -> (r: i16)
    ensures
        r as int == opt_value(v),
{
    match v {
        Some(x) => x,
        None => 0,
    }
}

fn counts(r: &FieldServiceReport, publisher: &RecordId, period: &Period) -> (res: bool)
    ensures
        res == counts_for(*r, *publisher, *period),
{
    match &r.publisher {
        Some(p) => p.refers_to(publisher) && period.contains(&r.date),
        None => false,
    }
}

/// The hours and the credits that `publisher` reported within `period`
/// (both ends included), each summed over their reports; a missing value
/// counts as zero. Reports of anyone else, or of no one, are left out.
pub fn period_totals(reports: &Vec<FieldServiceReport>, publisher: &RecordId, period: &Period) -> (r: (
    i128,
    i128,
))
    ensures
        r.0 == total_hours(reports@, *publisher, *period),
        r.1 == total_credits(reports@, *publisher, *period),
{
    let mut hours: i128 = 0;
    let mut credits: i128 = 0;
    let mut i: usize = 0;
    while i < reports.len()
        invariant
            i <= reports@.len(),
            hours == total_hours(reports@.subrange(0, i as int), *publisher, *period),
            credits == total_credits(reports@.subrange(0, i as int), *publisher, *period),
        decreases reports@.len() - i,
    {
        let ghost prefix = reports@.subrange(0, i + 1);
        assert(prefix.drop_last() =~= reports@.subrange(0, i as int));
        proof {
            lemma_totals_bounded(prefix, *publisher, *period);
            assert(prefix.len() <= usize::MAX);
        }
        let report = &reports[i];
        if counts(report, publisher, period) {
            hours = hours + opt_or_zero(report.hours) as i128;
            credits = credits + opt_or_zero(report.credits) as i128;
        }
        i = i + 1;
    }
    assert(reports@.subrange(0, reports@.len() as int) =~= reports@);
    (hours, credits)
}

/// Whether some report of `publisher` within `period` (both ends included)
/// says that they preached.
pub fn preached_in_period(reports: &Vec<FieldServiceReport>, publisher: &RecordId, period: &Period) -> (r:
    bool)
    ensures
        r == preached_in(reports@, *publisher, *period),
{
    let mut i: usize = 0;
    while i < reports.len()
        invariant
            i <= reports@.len(),
            forall|k: int|
                0 <= k < i ==> !(counts_for(#[trigger] reports@[k], *publisher, *period)
                    && reports@[k].preached),
        decreases reports@.len() - i,
    {
        if counts(&reports[i], publisher, period) && reports[i].preached {
            return true;
        }
        i = i + 1;
    }
    false
}

/// What the list of publishers shows of `publisher`'s activity in `period`.
///
/// For a pioneer: "{hours + credits} hours", successful when that total is
/// above zero. For anyone else: "Preached" when some report of theirs in the
/// period says so, else "Not preached".
pub fn summarize_activity(
    reports: &Vec<FieldServiceReport>,
    publisher: &RecordId,
    publisher_type: Option<UserType>,
    period: &Period,
) -> (r: ActivitySummary)
    ensures
        is_pioneer(publisher_type) ==> {
            let total = total_hours(reports@, *publisher, *period) + total_credits(
                reports@,
                *publisher,
                *period,
            );
            r.label@ == pioneer_label(total) && r.success == (total > 0)
        },
        !is_pioneer(publisher_type) ==> {
            let preached = preached_in(reports@, *publisher, *period);
            r.label@ == preached_label(preached) && r.success == preached
        },
{
    match publisher_type {
        Some(UserType::RegularPioneer) | Some(UserType::SpecialPioneer) | Some(
            UserType::ContiniousAuxiliaryPioneer,
        ) => {
            let (hours, credits) = period_totals(reports, publisher, period);
            let count = reports.len();
            proof {
                lemma_totals_bounded(reports@, *publisher, *period);
                assert(count <= 0xffff_ffff_ffff_ffff);
            }
            let total = hours + credits;
            let mut label = decimal_string(total);
            label.append(" hours");
            ActivitySummary { label, success: total > 0 }
        },
        _ => {
            if preached_in_period(reports, publisher, period) {
                ActivitySummary { label: String::from_str("Preached"), success: true }
            } else {
                ActivitySummary { label: String::from_str("Not preached"), success: false }
            }
        },
    }
}

/// Whether a report being saved counts as preached.
pub open spec fn preached_rule(
    publisher_type: Option<UserType>,
    commitment: Option<FieldServiceReportCommitment>,
    hours: Option<i16>,
    credits: Option<i16>,
    manual: bool,
) -> bool {
    if is_pioneer(publisher_type) {
        opt_value(hours) + opt_value(credits) > 0
    } else if publisher_type matches Some(UserType::BaptizedPublisher) || publisher_type matches Some(
        UserType::UnbaptizedPublisher,
    ) {
        if commitment is Some {
            opt_value(hours) > 0
        } else {
            manual
        }
    } else {
        manual
    }
}

/// Whether a report being saved counts as preached: for a pioneer, when
/// hours plus credits are above zero; for a publisher with a commitment,
/// when the hours are above zero; otherwise as the user marked it.
pub fn derive_preached(
    publisher_type: Option<UserType>,
    commitment: Option<FieldServiceReportCommitment>,
    hours: Option<i16>,
    credits: Option<i16>,
    manual: bool,
) -> (r: bool)
    ensures
        r == preached_rule(publisher_type, commitment, hours, credits, manual),
{
    match publisher_type {
        Some(UserType::RegularPioneer) | Some(UserType::SpecialPioneer) | Some(
            UserType::ContiniousAuxiliaryPioneer,
        ) => (opt_or_zero(hours) as i32) + (opt_or_zero(credits) as i32) > 0,
        Some(UserType::BaptizedPublisher) | Some(UserType::UnbaptizedPublisher) => {
            if commitment.is_some() {
                opt_or_zero(hours) > 0
            } else {
                manual
            }
        },
        _ => manual,
    }
}

/// The report that the report form saves: hours and credits read from their
/// fields (`None` where a field does not hold a whole number of `i16`'s
/// range), notes only when some were written, and the preached mark derived
/// from the publisher's classification.
pub fn report_from_form(
    id: RecordId,
    date: Date,
    publisher: RecordId,
    publisher_type: Option<UserType>,
    status: FieldServiceReportStatus,
    hours_text: &str,
    credits_text: &str,
    commitment: Option<FieldServiceReportCommitment>,
    manual_preached: bool,
    notes: String,
) -> (r: FieldServiceReport)
    ensures
        r.id == id,
        r.date == date,
        r.publisher == Some(publisher),
        r.status == status,
        r.hours == parsed_i16(hours_text@),
        r.credits == parsed_i16(credits_text@),
        r.commitment == commitment,
        r.preached == preached_rule(publisher_type, commitment, r.hours, r.credits, manual_preached),
        r.notes == (if notes@.len() == 0 {
            None
        } else {
            Some(notes)
        }),
{
    let hours = parse_i16(hours_text);
    let credits = parse_i16(credits_text);
    let preached = derive_preached(publisher_type, commitment, hours, credits, manual_preached);
    let notes = if notes.as_str().unicode_len() == 0 {
        None
    } else {
        Some(notes)
    };
    FieldServiceReport {
        id,
        date,
        publisher: Some(publisher),
        preached,
        status,
        hours,
        credits,
        commitment,
        notes,
    }
}

/// A period includes its last day and ends there: a report of the publisher
/// dated on the last day adds its hours and credits (and a preached mark)
/// to what the period shows; one dated the day after changes nothing.
pub proof fn lemma_period_end_is_inclusive(
    reports: Seq<FieldServiceReport>,
    publisher: RecordId,
    period: Period,
    r: FieldServiceReport,
)
    requires
        date_le(period.start, period.end),
        r.publisher matches Some(p) && same_record(p, publisher),
    ensures
        r.date == period.end ==> {
            &&& total_hours(reports.push(r), publisher, period) == total_hours(
                reports,
                publisher,
                period,
            ) + opt_value(r.hours)
            &&& total_credits(reports.push(r), publisher, period) == total_credits(
                reports,
                publisher,
                period,
            ) + opt_value(r.credits)
            &&& preached_in(reports.push(r), publisher, period) == (preached_in(
                reports,
                publisher,
                period,
            ) || r.preached)
        },
        valid_date(r.date) && prev_day(r.date) == period.end ==> {
            &&& total_hours(reports.push(r), publisher, period) == total_hours(
                reports,
                publisher,
                period,
            )
            &&& total_credits(reports.push(r), publisher, period) == total_credits(
                reports,
                publisher,
                period,
            )
            &&& preached_in(reports.push(r), publisher, period) == preached_in(
                reports,
                publisher,
                period,
            )
        },
{
    let all = reports.push(r);
    assert(all.drop_last() =~= reports);
    assert(all.last() == r);
    if r.date == period.end {
        assert(counts_for(r, publisher, period));
        if r.preached {
            assert(all[reports.len() as int] == r);
        }
        if preached_in(reports, publisher, period) {
            let i = choose|i: int|
                0 <= i < reports.len() && counts_for(#[trigger] reports[i], publisher, period)
                    && reports[i].preached;
            assert(all[i] == reports[i]);
        }
        if preached_in(all, publisher, period) {
            let i = choose|i: int|
                0 <= i < all.len() && counts_for(#[trigger] all[i], publisher, period)
                    && all[i].preached;
            if i < reports.len() {
                assert(all[i] == reports[i]);
            }
        }
    }
    if valid_date(r.date) && prev_day(r.date) == period.end {
        assert(!date_le(r.date, period.end));
        assert(!counts_for(r, publisher, period));
        if preached_in(reports, publisher, period) {
            let i = choose|i: int|
                0 <= i < reports.len() && counts_for(#[trigger] reports[i], publisher, period)
                    && reports[i].preached;
            assert(all[i] == reports[i]);
        }
        if preached_in(all, publisher, period) {
            let i = choose|i: int|
                0 <= i < all.len() && counts_for(#[trigger] all[i], publisher, period)
                    && all[i].preached;
            assert(all[i] == reports[i]);
        }
    }
}

} // verus!
