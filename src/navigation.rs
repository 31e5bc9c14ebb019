//! Where each section of the application sits in its menu: the category
//! that holds it and the section that "back" leads to.

use crate::text::{same_text, starts_with_text};
use vstd::prelude::*;

verus! {

/// The category whose menu lists `section`, for a section under one.
pub open spec fn category_of(section: Seq<char>) -> Option<Seq<char>> {
    if section == "users"@ || section == "field-service-reports"@ || section == "roles"@ || section
        == "field-service-groups"@ {
        Some("publishers-category"@)
    } else if section == "weekday-meeting"@ || section == "weekend-meeting"@ || section
        == "field-service-meetings"@ || section == "meeting-attendance"@ {
        Some("meetings-category"@)
    } else if section == "special-events"@ || section == "absences"@ || section == "cleaning"@
        || section == "maintenance"@ || section == "attendant"@ || section == "audio-video"@
        || section == "territory"@ {
        Some("congregation-category"@)
    } else if section == "user-settings"@ || section == "congregation-settings"@ {
        Some("settings-category"@)
    } else {
        None
    }
}

pub open spec fn is_category(section: Seq<char>) -> bool {
    section == "publishers-category"@ || section == "meetings-category"@ || section
        == "congregation-category"@ || section == "settings-category"@
}

/// Prefix of the sections that show one publisher's reports.
pub open spec fn publisher_reports_prefix() -> Seq<char> {
    "field_service_reports/"@
}

/// The section that "back" leads to from `section`; the dashboard has none.
pub open spec fn parent_of(section: Seq<char>) -> Option<Seq<char>> {
    match category_of(section) {
        Some(c) => Some(c),
        None => if is_category(section) {
            Some("dashboard"@)
        } else if section == "dashboard"@ {
            None
        } else if publisher_reports_prefix().len() <= section.len() && section.subrange(
            0,
            publisher_reports_prefix().len() as int,
        ) == publisher_reports_prefix() {
            Some("field-service-reports"@)
        } else {
            Some("dashboard"@)
        },
    }
}

fn category_of_section(section: &str) -> (r: Option<&'static str>)
    ensures
        r matches Some(c) ==> category_of(section@) == Some(c@),
        r is None ==> category_of(section@) is None,
{
    if same_text(section, "users") || same_text(section, "field-service-reports") || same_text(
        section,
        "roles",
    ) || same_text(section, "field-service-groups") {
        Some("publishers-category")
    } else if same_text(section, "weekday-meeting") || same_text(section, "weekend-meeting")
        || same_text(section, "field-service-meetings") || same_text(section, "meeting-attendance") {
        Some("meetings-category")
    } else if same_text(section, "special-events") || same_text(section, "absences") || same_text(
        section,
        "cleaning",
    ) || same_text(section, "maintenance") || same_text(section, "attendant") || same_text(
        section,
        "audio-video",
    ) || same_text(section, "territory") {
        Some("congregation-category")
    } else if same_text(section, "user-settings") || same_text(section, "congregation-settings") {
        Some("settings-category")
    } else {
        None
    }
}

/// Whether `section` is `category` itself or one of the sections its menu
/// lists.
pub fn is_in_category(section: &str, category: &str) -> (r: bool)
    ensures
        r == (section@ == category@ || category_of(section@) == Some(category@)),
{
    if same_text(section, category) {
        return true;
    }
    match category_of_section(section) {
        Some(c) => same_text(c, category),
        None => false,
    }
}

/// The section that "back" leads to from `section`: a section's category, a
/// category's dashboard, a publisher's reports' list of reports; the
/// dashboard has none, and any other section leads to the dashboard.
pub fn get_parent_section(section: &str) -> (r: Option<&'static str>)
    ensures
        r matches Some(p) ==> parent_of(section@) == Some(p@),
        r is None ==> parent_of(section@) is None,
{
    if let Some(c) = category_of_section(section) {
        return Some(c);
    }
    if same_text(section, "publishers-category") || same_text(section, "meetings-category")
        || same_text(section, "congregation-category") || same_text(section, "settings-category") {
        Some("dashboard")
    } else if same_text(section, "dashboard") {
        None
    } else if starts_with_text(section, "field_service_reports/") {
        Some("field-service-reports")
    } else {
        Some("dashboard")
    }
}

} // verus!
