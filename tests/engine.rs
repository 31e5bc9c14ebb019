use theo_manager::calendar::{format_month_year, previous_month, Date, Period};
use theo_manager::exclusivity::{
    assigned_ids, ensure_leaders_are_members, is_assigned, toggle_member, AssignmentRole,
};
use theo_manager::model::{
    FieldServiceGroup, FieldServiceReport, FieldServiceReportCommitment, FieldServiceReportStatus,
    NameOrder, RecordId, User, UserType,
};
use theo_manager::names::{format_name, person_name};
use theo_manager::natural_sort::{compare_keys, sort_key, SortToken};
use theo_manager::navigation::{get_parent_section, is_in_category};
use theo_manager::reports::{derive_preached, period_totals, preached_in_period, summarize_activity};
use theo_manager::search::search;
use theo_manager::text::normalize;
use std::cmp::Ordering;

fn uid(key: &str) -> RecordId {
    RecordId::new("user", key)
}

fn person(key: &str, first: &str, last: &str) -> User {
    User::new(uid(key), first.to_string(), last.to_string())
}

fn group(key: &str, name: &str, members: &[&str]) -> FieldServiceGroup {
    FieldServiceGroup::new(
        Some(RecordId::new("field_service_group", key)),
        name.to_string(),
        members.iter().map(|m| uid(m)).collect(),
    )
}

fn date(y: i32, m: u32, d: u32) -> Date {
    Date::from_ymd(y, m, d).unwrap()
}

fn report(key: &str, publisher: &str, on: Date, hours: Option<i16>, credits: Option<i16>, preached: bool) -> FieldServiceReport {
    FieldServiceReport {
        id: RecordId::new("field_service_report", key),
        date: on,
        publisher: Some(uid(publisher)),
        preached,
        status: FieldServiceReportStatus::Sent,
        hours,
        credits,
        commitment: None,
        notes: None,
    }
}

fn names_of(groups: &[FieldServiceGroup]) -> Vec<String> {
    groups.iter().map(|g| g.name.clone()).collect()
}

fn february_2024() -> Period {
    Period { start: date(2024, 2, 1), end: date(2024, 2, 29) }
}

#[test]
fn normalize_strips_accents_and_case() {
    assert_eq!(normalize("São Paulo"), "sao paulo");
    assert_eq!(normalize("ÀÉÎ"), "aei");
    assert_eq!(normalize("ÀÉÎÕÜÑÇ"), "aeiounc");
    assert_eq!(normalize("Ångström ÇA"), "angstrom ca");
    assert_eq!(normalize(""), "");
    assert_eq!(normalize("Group 7-B"), "group 7-b");
}

#[test]
fn natural_sort_orders_numbers_by_magnitude() {
    let groups = vec![group("a", "Group 10", &[]), group("b", "Group 2", &[]), group("c", "Group 1", &[])];
    let sorted = search(&groups, &Vec::new(), "");
    assert_eq!(names_of(&sorted), vec!["Group 1", "Group 2", "Group 10"]);
}

#[test]
fn sort_key_splits_runs() {
    let key = sort_key("Group 10b");
    assert_eq!(key.len(), 3);
    match &key[0] {
        SortToken::Text(t) => assert_eq!(t, "group "),
        _ => panic!("expected a text token"),
    }
    match &key[1] {
        SortToken::Numeric(t) => assert_eq!(t, "0000000010"),
        _ => panic!("expected a numeric token"),
    }
    match &key[2] {
        SortToken::Text(t) => assert_eq!(t, "b"),
        _ => panic!("expected a text token"),
    }
    assert!(sort_key("").is_empty());
    match &sort_key("12345678901")[0] {
        SortToken::Numeric(t) => assert_eq!(t, "12345678901"),
        _ => panic!("expected a numeric token"),
    }
}

#[test]
fn compare_keys_orders_naturally() {
    assert_eq!(compare_keys(&sort_key("Group 9"), &sort_key("Group 10")), Ordering::Less);
    assert_eq!(compare_keys(&sort_key("group 10"), &sort_key("GROUP 10")), Ordering::Equal);
    assert_eq!(compare_keys(&sort_key("B"), &sort_key("a")), Ordering::Greater);
    assert_eq!(compare_keys(&sort_key("10 North"), &sort_key("North")), Ordering::Less);
    assert_eq!(compare_keys(&sort_key("Group"), &sort_key("Group 1")), Ordering::Less);
}

#[test]
fn format_name_follows_name_order() {
    let ana = person("1", "Ana", "Silva");
    assert_eq!(format_name(&ana, Some(NameOrder::LastnameFirstname)), "Silva, Ana");
    assert_eq!(format_name(&ana, Some(NameOrder::FirstnameLastname)), "Ana Silva");
    assert_eq!(format_name(&ana, None), "Ana Silva");
}

#[test]
fn exclusivity_skips_the_edited_group() {
    let groups = vec![group("a", "A", &["u1", "u2"]), group("b", "B", &["u3"])];
    let editing = Some(RecordId::new("field_service_group", "b"));
    assert!(is_assigned(&groups, &editing, &uid("u1"), AssignmentRole::Member));
    assert!(!is_assigned(&groups, &editing, &uid("u3"), AssignmentRole::Member));
    assert!(is_assigned(&groups, &None, &uid("u3"), AssignmentRole::Member));
    assert!(!is_assigned(&groups, &editing, &uid("u9"), AssignmentRole::Member));
}

#[test]
fn exclusivity_roles_are_independent() {
    let mut a = group("a", "A", &["u1"]);
    a.supervisor = Some(uid("u1"));
    let mut b = group("b", "B", &["u2"]);
    b.auxiliar = Some(RecordId::new("", "u2"));
    let groups = vec![a, b];
    assert!(is_assigned(&groups, &None, &uid("u1"), AssignmentRole::Supervisor));
    assert!(!is_assigned(&groups, &None, &uid("u1"), AssignmentRole::Auxiliary));
    assert!(is_assigned(&groups, &None, &uid("u2"), AssignmentRole::Auxiliary));
    assert!(!is_assigned(&groups, &None, &uid("u2"), AssignmentRole::Supervisor));
    let sups = assigned_ids(&groups, &None, AssignmentRole::Supervisor);
    assert_eq!(sups.len(), 1);
    assert_eq!(sups[0].key, "u1");
    let members = assigned_ids(&groups, &Some(RecordId::new("field_service_group", "a")), AssignmentRole::Member);
    assert_eq!(members.iter().map(|m| m.key.clone()).collect::<Vec<_>>(), vec!["u2"]);
}

#[test]
fn leaders_join_their_group() {
    let mut g = group("a", "A", &["u1"]);
    g.supervisor = Some(uid("u2"));
    g.auxiliar = Some(uid("u1"));
    ensure_leaders_are_members(&mut g);
    assert_eq!(g.members.iter().map(|m| m.key.clone()).collect::<Vec<_>>(), vec!["u1", "u2"]);
    ensure_leaders_are_members(&mut g);
    assert_eq!(g.members.len(), 2);
}

#[test]
fn toggling_a_member_adds_then_removes() {
    let mut selected = vec![uid("u1")];
    toggle_member(&mut selected, uid("u2"));
    assert_eq!(selected.iter().map(|m| m.key.clone()).collect::<Vec<_>>(), vec!["u1", "u2"]);
    toggle_member(&mut selected, RecordId::new("", "u1"));
    assert_eq!(selected.iter().map(|m| m.key.clone()).collect::<Vec<_>>(), vec!["u2"]);
}

#[test]
fn pioneer_hours_are_summed() {
    let reports = vec![
        report("r1", "p", date(2024, 2, 3), Some(40), Some(5), true),
        report("r2", "p", date(2024, 2, 20), Some(0), Some(0), false),
        report("r3", "p", date(2024, 3, 1), Some(7), None, true),
        report("r4", "q", date(2024, 2, 5), Some(9), None, true),
    ];
    let summary = summarize_activity(&reports, &uid("p"), Some(UserType::RegularPioneer), &february_2024());
    assert_eq!(summary.label, "45 hours");
    assert!(summary.success);
    assert_eq!(period_totals(&reports, &uid("p"), &february_2024()), (40, 5));
}

#[test]
fn pioneer_without_hours_is_not_successful() {
    let reports = vec![report("r1", "p", date(2024, 2, 3), None, None, false)];
    let summary = summarize_activity(&reports, &uid("p"), Some(UserType::SpecialPioneer), &february_2024());
    assert_eq!(summary.label, "0 hours");
    assert!(!summary.success);
    let negative = vec![report("r1", "p", date(2024, 2, 3), Some(-5), None, false)];
    let summary = summarize_activity(&negative, &uid("p"), Some(UserType::ContiniousAuxiliaryPioneer), &february_2024());
    assert_eq!(summary.label, "-5 hours");
    assert!(!summary.success);
}

#[test]
fn publisher_preached_in_period() {
    let reports = vec![
        report("r1", "p", date(2024, 2, 10), None, None, true),
        report("r2", "p", date(2024, 3, 10), None, None, false),
    ];
    let summary = summarize_activity(&reports, &uid("p"), Some(UserType::BaptizedPublisher), &february_2024());
    assert_eq!(summary.label, "Preached");
    assert!(summary.success);
    let late = vec![report("r2", "p", date(2024, 3, 10), None, None, true)];
    let summary = summarize_activity(&late, &uid("p"), None, &february_2024());
    assert_eq!(summary.label, "Not preached");
    assert!(!summary.success);
}

#[test]
fn reports_of_others_are_left_out() {
    let mut orphan = report("r1", "p", date(2024, 2, 10), Some(3), None, true);
    orphan.publisher = None;
    let reports = vec![orphan, report("r2", "other", date(2024, 2, 10), Some(3), None, true)];
    assert_eq!(period_totals(&reports, &uid("p"), &february_2024()), (0, 0));
    assert!(!preached_in_period(&reports, &uid("p"), &february_2024()));
    let keyed = vec![report("r3", "p", date(2024, 2, 10), Some(3), None, true)];
    assert_eq!(period_totals(&keyed, &RecordId::new("", "p"), &february_2024()), (3, 0));
}

#[test]
fn derivation_of_preached() {
    assert!(!derive_preached(Some(UserType::RegularPioneer), None, Some(0), Some(0), true));
    assert!(derive_preached(Some(UserType::RegularPioneer), None, Some(0), Some(2), false));
    assert!(derive_preached(Some(UserType::BaptizedPublisher), Some(FieldServiceReportCommitment::Fifteen), Some(20), None, false));
    assert!(!derive_preached(Some(UserType::UnbaptizedPublisher), Some(FieldServiceReportCommitment::Thirty), None, None, true));
    assert!(derive_preached(Some(UserType::BaptizedPublisher), None, None, None, true));
    assert!(!derive_preached(Some(UserType::Student), None, Some(10), None, false));
    assert!(derive_preached(None, None, None, None, true));
    assert!(!derive_preached(Some(UserType::SpecialPioneer), None, Some(i16::MIN), Some(i16::MAX), true));
}

#[test]
fn search_is_repeatable() {
    let groups = vec![group("a", "North 2", &[]), group("b", "North 10", &[]), group("c", "East", &[]), group("d", "north 2", &[])];
    let people = vec![person("u1", "Ana", "Silva")];
    let first = search(&groups, &people, "");
    let second = search(&groups, &people, "");
    assert_eq!(names_of(&first), vec!["East", "North 2", "north 2", "North 10"]);
    assert_eq!(names_of(&first), names_of(&second));
    assert_eq!(names_of(&search(&first, &people, "")), names_of(&first));
    assert_eq!(names_of(&groups), vec!["North 2", "North 10", "East", "north 2"]);
}

#[test]
fn search_matches_people_and_names() {
    let mut a = group("a", "Centro", &["u3"]);
    a.supervisor = Some(RecordId::new("user", "u1"));
    let mut b = group("b", "Vila Nova", &[]);
    b.auxiliar = Some(uid("u2"));
    let c = group("c", "Praia", &["ghost"]);
    let groups = vec![a, b, c];
    let people = vec![person("u1", "João", "Araújo"), person("u2", "Maria", "Souza"), person("u3", "Luís", "Peña")];
    assert_eq!(names_of(&search(&groups, &people, "joao ara")), vec!["Centro"]);
    assert_eq!(names_of(&search(&groups, &people, "SOUZA")), vec!["Vila Nova"]);
    assert_eq!(names_of(&search(&groups, &people, "pena")), vec!["Centro"]);
    assert_eq!(names_of(&search(&groups, &people, "vila")), vec!["Vila Nova"]);
    assert!(search(&groups, &people, "ghost").is_empty());
    assert_eq!(names_of(&search(&groups, &people, "a")), vec!["Centro", "Praia", "Vila Nova"]);
}

#[test]
fn period_end_is_inclusive() {
    let p = february_2024();
    let on_end = vec![report("r1", "p", date(2024, 2, 29), Some(4), Some(1), true)];
    let after = vec![report("r2", "p", date(2024, 3, 1), Some(4), Some(1), true)];
    let on_start = vec![report("r3", "p", date(2024, 2, 1), Some(2), None, true)];
    let before = vec![report("r4", "p", date(2024, 1, 31), Some(2), None, true)];
    assert_eq!(period_totals(&on_end, &uid("p"), &p), (4, 1));
    assert_eq!(period_totals(&after, &uid("p"), &p), (0, 0));
    assert_eq!(period_totals(&on_start, &uid("p"), &p), (2, 0));
    assert_eq!(period_totals(&before, &uid("p"), &p), (0, 0));
    assert!(preached_in_period(&on_end, &uid("p"), &p));
    assert!(!preached_in_period(&after, &uid("p"), &p));
}

#[test]
fn previous_month_window() {
    assert_eq!(previous_month(date(2024, 3, 15)), Some(february_2024()));
    assert_eq!(
        previous_month(date(2024, 1, 31)),
        Some(Period { start: date(2023, 12, 1), end: date(2023, 12, 31) })
    );
    assert_eq!(
        previous_month(date(2023, 3, 1)),
        Some(Period { start: date(2023, 2, 1), end: date(2023, 2, 28) })
    );
    assert_eq!(
        previous_month(date(2024, 5, 2)),
        Some(Period { start: date(2024, 4, 1), end: date(2024, 4, 30) })
    );
}

#[test]
fn dates_are_checked_by_the_calendar() {
    assert!(Date::from_ymd(2023, 2, 29).is_none());
    assert!(Date::from_ymd(2024, 2, 29).is_some());
    assert!(Date::from_ymd(1900, 2, 29).is_none());
    assert!(Date::from_ymd(2000, 2, 29).is_some());
    assert!(Date::from_ymd(2024, 13, 1).is_none());
    assert!(Date::from_ymd(2024, 4, 31).is_none());
    assert!(Date::from_ymd(400000, 1, 1).is_none());
    assert_eq!(date(2024, 3, 1).pred(), Some(date(2024, 2, 29)));
    assert_eq!(date(2024, 1, 1).pred(), Some(date(2023, 12, 31)));
    assert_eq!(date(2024, 1, 2).pred(), Some(date(2024, 1, 1)));
    assert_eq!(date(-262143, 1, 1).pred(), None);
    assert!(date(2024, 2, 29).le(&date(2024, 3, 1)));
    assert!(!date(2024, 3, 1).le(&date(2024, 2, 29)));
}

#[test]
fn month_year_label() {
    assert_eq!(format_month_year(date(2024, 3, 1)), "March 2024");
    assert_eq!(format_month_year(date(1999, 12, 31)), "December 1999");
    assert_eq!(format_month_year(Date { year: -44, month: 3, day: 15 }), "March -44");
}

#[test]
fn record_references_are_parsed() {
    let r = RecordId::parse("user:abc").unwrap();
    assert_eq!((r.table.as_str(), r.key.as_str()), ("user", "abc"));
    let bare = RecordId::parse("abc").unwrap();
    assert_eq!((bare.table.as_str(), bare.key.as_str()), ("", "abc"));
    let nested = RecordId::parse("a:b:c").unwrap();
    assert_eq!((nested.table.as_str(), nested.key.as_str()), ("a:b", "c"));
    assert!(RecordId::parse("user:").is_none());
    assert!(RecordId::parse("").is_none());
    assert!(r.refers_to(&bare));
    assert!(!r.refers_to(&nested));
}

#[test]
fn dangling_references_show_not_assigned() {
    let people = vec![person("u1", "Ana", "Silva")];
    assert_eq!(person_name(&people, &Some(uid("u1"))), "Ana Silva");
    assert_eq!(person_name(&people, &Some(uid("gone"))), "Not assigned");
    assert_eq!(person_name(&people, &None), "Not assigned");
}

#[test]
fn sections_know_their_parents() {
    assert_eq!(get_parent_section("users"), Some("publishers-category"));
    assert_eq!(get_parent_section("meeting-attendance"), Some("meetings-category"));
    assert_eq!(get_parent_section("territory"), Some("congregation-category"));
    assert_eq!(get_parent_section("user-settings"), Some("settings-category"));
    assert_eq!(get_parent_section("settings-category"), Some("dashboard"));
    assert_eq!(get_parent_section("dashboard"), None);
    assert_eq!(get_parent_section("field_service_reports/abc"), Some("field-service-reports"));
    assert_eq!(get_parent_section("elsewhere"), Some("dashboard"));
    assert!(is_in_category("users", "publishers-category"));
    assert!(is_in_category("publishers-category", "publishers-category"));
    assert!(!is_in_category("users", "meetings-category"));
    assert!(!is_in_category("dashboard", "publishers-category"));
}

#[test]
fn aggregation_scenarios() {
    let pioneer_reports = vec![
        report("r1", "p", date(2024, 2, 5), Some(40), Some(5), true),
        report("r2", "p", date(2024, 2, 25), Some(0), Some(0), false),
    ];
    let s = summarize_activity(&pioneer_reports, &uid("p"), Some(UserType::RegularPioneer), &february_2024());
    assert_eq!((s.label.as_str(), s.success), ("45 hours", true));
    let publisher_reports = vec![
        report("r3", "b", date(2024, 2, 5), None, None, true),
        report("r4", "b", date(2024, 1, 5), None, None, false),
    ];
    let s = summarize_activity(&publisher_reports, &uid("b"), Some(UserType::BaptizedPublisher), &february_2024());
    assert_eq!((s.label.as_str(), s.success), ("Preached", true));
}

#[test]
fn no_reports_give_the_default() {
    let none: Vec<FieldServiceReport> = Vec::new();
    let s = summarize_activity(&none, &uid("p"), Some(UserType::RegularPioneer), &february_2024());
    assert_eq!((s.label.as_str(), s.success), ("0 hours", false));
    let s = summarize_activity(&none, &uid("p"), Some(UserType::Student), &february_2024());
    assert_eq!((s.label.as_str(), s.success), ("Not preached", false));
}
