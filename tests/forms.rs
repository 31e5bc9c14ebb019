use theo_manager::calendar::Date;
use theo_manager::model::{FieldServiceReportCommitment, FieldServiceReportStatus, RecordId, UserType};
use theo_manager::reports::report_from_form;
use theo_manager::text::parse_i16;

#[test]
fn numbers_read_like_std() {
    let cases = [
        "12", "+5", "-7", "", "-", "+", "1a", " 1", "1 ", "32767", "32768", "-32768", "-32769",
        "0007", "99999999999", "-0", "--1", "+-1", "٣", "12.5",
    ];
    for c in cases {
        assert_eq!(parse_i16(c), c.parse::<i16>().ok(), "case {c:?}");
    }
    assert_eq!(parse_i16("-32768"), Some(i16::MIN));
    assert_eq!(parse_i16("40"), Some(40));
}

#[test]
fn report_form_derives_preached() {
    let d = Date::from_ymd(2024, 2, 10).unwrap();
    let r = report_from_form(
        RecordId::new("field_service_report", "r1"),
        d,
        RecordId::new("user", "u1"),
        Some(UserType::RegularPioneer),
        FieldServiceReportStatus::Draft,
        "40",
        "5",
        None,
        false,
        String::new(),
    );
    assert_eq!(r.hours, Some(40));
    assert_eq!(r.credits, Some(5));
    assert!(r.preached);
    assert!(r.notes.is_none());
    assert_eq!(r.publisher.as_ref().map(|p| p.key.as_str()), Some("u1"));

    let r = report_from_form(
        RecordId::new("field_service_report", "r2"),
        d,
        RecordId::new("user", "u2"),
        Some(UserType::BaptizedPublisher),
        FieldServiceReportStatus::Sent,
        "abc",
        "",
        Some(FieldServiceReportCommitment::Fifteen),
        true,
        "visited".to_string(),
    );
    assert_eq!(r.hours, None);
    assert_eq!(r.credits, None);
    assert!(!r.preached);
    assert_eq!(r.notes.as_deref(), Some("visited"));
    assert_eq!(r.status, FieldServiceReportStatus::Sent);

    let r = report_from_form(
        RecordId::new("field_service_report", "r3"),
        d,
        RecordId::new("user", "u3"),
        None,
        FieldServiceReportStatus::Draft,
        "10",
        "",
        None,
        true,
        String::new(),
    );
    assert!(r.preached);
}
