use theo_manager::calendar::Date;
use theo_manager::model::{
    FieldServiceGroup, FieldServiceReport, FieldServiceReportStatus, NameOrder, RecordId, User,
    UserAppointment, UserType,
};
use theo_manager::people::{filter_users, list_publishers, member_names, publisher_reports, UserFilter};

fn uid(key: &str) -> RecordId {
    RecordId::new("user", key)
}

fn person(key: &str, first: &str, last: &str, kind: Option<UserType>) -> User {
    let mut u = User::new(uid(key), first.to_string(), last.to_string());
    u.publisher_type = kind;
    u
}

fn everyone() -> Vec<User> {
    let mut ana = person("u1", "Ana", "Silva", Some(UserType::RegularPioneer));
    ana.gender = false;
    let mut bruno = person("u2", "bruno", "Alves", Some(UserType::BaptizedPublisher));
    bruno.gender = true;
    bruno.appointment = Some(UserAppointment::Elder);
    let carla = person("u3", "Carla", "Mendes", None);
    let mut davi = person("u4", "Davi", "Costa", Some(UserType::BaptizedPublisher));
    davi.gender = true;
    davi.appointment = Some(UserAppointment::MinisterialServant);
    vec![ana, bruno, carla, davi]
}

fn no_filter() -> UserFilter {
    UserFilter { query: String::new(), gender: None, appointment: None, publisher_type: None }
}

#[test]
fn user_filters_combine() {
    let users = everyone();
    assert_eq!(filter_users(&users, &no_filter()), vec![0, 1, 2, 3]);
    let men = UserFilter { gender: Some(true), ..no_filter() };
    assert_eq!(filter_users(&users, &men), vec![1, 3]);
    let elders = UserFilter { appointment: Some(UserAppointment::Elder), ..no_filter() };
    assert_eq!(filter_users(&users, &elders), vec![1]);
    let query = UserFilter { query: "SILVA".to_string(), ..no_filter() };
    assert_eq!(filter_users(&users, &query), vec![0]);
    let full = UserFilter { query: "ana s".to_string(), ..no_filter() };
    assert_eq!(filter_users(&users, &full), vec![0]);
    let kind = UserFilter { publisher_type: Some(UserType::BaptizedPublisher), gender: Some(true), ..no_filter() };
    assert_eq!(filter_users(&users, &kind), vec![1, 3]);
}

#[test]
fn publishers_are_listed_by_name() {
    let users = everyone();
    let groups: Vec<FieldServiceGroup> = Vec::new();
    let none: Option<RecordId> = None;
    let q = String::new();
    assert_eq!(list_publishers(&users, &groups, &q, None, &none, None), vec![0, 1, 3]);
    assert_eq!(list_publishers(&users, &groups, &q, None, &none, Some(NameOrder::FirstnameLastname)), vec![0, 1, 3]);
    assert_eq!(list_publishers(&users, &groups, &q, None, &none, Some(NameOrder::LastnameFirstname)), vec![1, 3, 0]);
    assert_eq!(
        list_publishers(&users, &groups, &q, Some(UserType::BaptizedPublisher), &none, Some(NameOrder::FirstnameLastname)),
        vec![1, 3]
    );
}

#[test]
fn publishers_of_a_group() {
    let users = everyone();
    let mut g = FieldServiceGroup::new(Some(RecordId::new("field_service_group", "g1")), "North".to_string(), vec![uid("u4")]);
    g.supervisor = Some(uid("u1"));
    let other = FieldServiceGroup::new(Some(RecordId::new("field_service_group", "g2")), "South".to_string(), vec![uid("u2")]);
    let groups = vec![g, other];
    let filter = Some(RecordId::new("", "g1"));
    let q = String::new();
    assert_eq!(list_publishers(&users, &groups, &q, None, &filter, Some(NameOrder::FirstnameLastname)), vec![0, 3]);
    let query = "costa".to_string();
    assert_eq!(list_publishers(&users, &groups, &query, None, &filter, None), vec![3]);
}

#[test]
fn reports_most_recent_first() {
    let d = |y: i32, m: u32| Date::from_ymd(y, m, 1).unwrap();
    let mk = |key: &str, who: &str, on: Date| FieldServiceReport {
        id: RecordId::new("field_service_report", key),
        date: on,
        publisher: Some(uid(who)),
        preached: true,
        status: FieldServiceReportStatus::Draft,
        hours: None,
        credits: None,
        commitment: None,
        notes: None,
    };
    let reports = vec![
        mk("a", "u1", d(2024, 1)),
        mk("b", "u2", d(2024, 5)),
        mk("c", "u1", d(2024, 3)),
        mk("d", "u1", d(2023, 12)),
        mk("e", "u1", d(2024, 3)),
    ];
    assert_eq!(publisher_reports(&reports, &uid("u1")), vec![2, 4, 0, 3]);
    assert!(publisher_reports(&reports, &uid("nobody")).is_empty());
}

#[test]
fn member_names_are_sorted_case_aside() {
    let users = everyone();
    let members = vec![uid("u4"), uid("gone"), uid("u2"), uid("u1")];
    assert_eq!(member_names(&users, &members, None), vec!["Ana Silva", "bruno Alves", "Davi Costa"]);
    assert_eq!(
        member_names(&users, &members, Some(NameOrder::LastnameFirstname)),
        vec!["Alves, bruno", "Costa, Davi", "Silva, Ana"]
    );
    assert!(member_names(&users, &Vec::new(), None).is_empty());
}
