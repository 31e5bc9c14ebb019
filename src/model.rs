//! The records the engine reads: people, field-service groups, monthly
//! reports and the congregation's settings, with the references between
//! them.

use crate::calendar::Date;
use vstd::prelude::*;

verus! {

/// The identity of a stored record: the table it lives in and its local id
/// within that table. References between records are compared by local id
/// alone, since the same record may be written with or without its table.
#[derive(Clone, Debug)]
pub struct RecordId {
    pub table: String,
    pub key: String,
}

/// Two identities designate the same record.
pub open spec fn same_record(a: RecordId, b: RecordId) -> bool {
    a.key@ == b.key@
}

/// Position of the last `:` in `s`, or -1 when it holds none.
pub open spec fn last_colon(s: Seq<char>) -> int
    decreases s.len(),
{
    if s.len() == 0 {
        -1
    } else if s.last() == ':' {
        s.len() - 1
    } else {
        last_colon(s.drop_last())
    }
}

/// The local id written in a reference: what follows its last `:`.
pub open spec fn key_part(s: Seq<char>) -> Seq<char> {
    s.subrange(last_colon(s) + 1, s.len() as int)
}

/// The table written in a reference: what precedes its last `:`, if any.
pub open spec fn table_part(s: Seq<char>) -> Seq<char> {
    if last_colon(s) < 0 {
        Seq::empty()
    } else {
        s.subrange(0, last_colon(s))
    }
}

proof fn lemma_last_colon_bounds(s: Seq<char>)
    ensures
        -1 <= last_colon(s) < s.len(),
        last_colon(s) >= 0 ==> s[last_colon(s)] == ':',
        forall|j: int| last_colon(s) < j < s.len() ==> s[j] != ':',
    decreases s.len(),
{
    if s.len() > 0 && s.last() != ':' {
        lemma_last_colon_bounds(s.drop_last());
        assert forall|j: int| last_colon(s) < j < s.len() implies s[j] != ':' by {
            if j < s.len() - 1 {
                assert(s[j] == s.drop_last()[j]);
            }
        }
    }
}

impl RecordId {
    /// An identity from its table and local id.
    pub fn new(table: &str, key: &str) -> (r: RecordId)
        ensures
            r.table@ == table@,
            r.key@ == key@,
    {
        RecordId { table: String::from_str(table), key: String::from_str(key) }
    }

    /// Reads a reference written as `table:key` (or a bare `key`). The key is
    /// what follows the last `:`; a reference with an empty key is malformed
    /// and yields `None`.
    pub fn parse(s: &str) -> (r: Option<RecordId>)
        ensures
            r is Some <==> key_part(s@).len() > 0,
            r matches Some(id) ==> id.key@ == key_part(s@) && id.table@ == table_part(s@),
    {
        proof {
            lemma_last_colon_bounds(s@);
        }
        let n = s.unicode_len();
        let mut i: usize = n;
        let mut found = false;
        while i > 0 && !found
            invariant
                i <= n == s@.len(),
                forall|j: int| i <= j < n ==> s@[j] != ':',
                last_colon(s@) < i as int,
                found ==> i > 0 && s@[i - 1] == ':',
            decreases i + (if found { 0int } else { 1int }),
        {
            if s.get_char(i - 1) == ':' {
                found = true;
            } else {
                proof {
                    lemma_last_colon_bounds(s@);
                }
                i = i - 1;
            }
        }
        proof {
            if i > 0 {
                assert(s@[i - 1] == ':');
                assert(last_colon(s@) == i - 1) by {
                    if last_colon(s@) < i - 1 {
                        lemma_last_colon_bounds(s@);
                    }
                }
            } else {
                assert(last_colon(s@) == -1) by {
                    lemma_last_colon_bounds(s@);
                }
            }
        }
        if i == n {
            return None;
        }
        let key = s.substring_char(i, n);
        let table = if i > 0 {
            s.substring_char(0, i - 1)
        } else {
            s.substring_char(0, 0)
        };
        Some(RecordId { table: String::from_str(table), key: String::from_str(key) })
    }

    /// Whether both identities designate the same record (same local id).
    pub fn refers_to(&self, other: &RecordId) -> (r: bool)
        ensures
            r == same_record(*self, *other),
    {
        self.key == other.key
    }

    /// A field-for-field copy.
    pub fn copy(&self) -> (r: RecordId)
        ensures
            r == *self,
    {
        RecordId { table: self.table.clone(), key: self.key.clone() }
    }
}

/// Copies a list of references, keeping its order.
pub fn copy_ids(ids: &Vec<RecordId>) -> (r: Vec<RecordId>)
    ensures
        r@ == ids@,
{
    let mut r: Vec<RecordId> = Vec::new();
    let mut i: usize = 0;
    while i < ids.len()
        invariant
            i <= ids@.len(),
            r@ == ids@.subrange(0, i as int),
        decreases ids@.len() - i,
    {
        r.push(ids[i].copy());
        i = i + 1;
    }
    assert(r@ =~= ids@);
    r
}

/// Copies an optional reference.
pub fn copy_opt_id(id: &Option<RecordId>) -> (r: Option<RecordId>)
    ensures
        r == *id,
{
    match id {
        Some(x) => Some(x.copy()),
        None => None,
    }
}

/// How the congregation writes a person's name.
#[derive(Clone, Copy, Debug, PartialEq, Eq, Structural)]
pub enum NameOrder {
    FirstnameLastname,
    LastnameFirstname,
}

/// The day on which the congregation's week starts.
#[derive(Clone, Copy, Debug, PartialEq, Eq, Structural)]
pub enum FirstWeekday {
    Sunday,
    Monday,
}

/// A day of the week.
#[derive(Clone, Copy, Debug, PartialEq, Eq, Structural)]
pub enum Weekday {
    Monday,
    Tuesday,
    Wednesday,
    Thursday,
    Friday,
    Saturday,
    Sunday,
}

/// The weekly time of a meeting.
#[derive(Clone, Copy, Debug, PartialEq, Eq, Structural)]
pub struct MeetingTime {
    pub day: Weekday,
    pub hour: u32,
    pub minute: u32,
}

/// The congregation's settings; there is at most one such record.
#[derive(Clone, Debug)]
pub struct Congregation {
    pub id: RecordId,
    pub name: String,
    pub jw_code: Option<String>,
    pub name_order: NameOrder,
    pub first_weekday: FirstWeekday,
    pub weekday_meeting: MeetingTime,
    pub weekend_meeting: MeetingTime,
}

/// A person's publisher classification.
#[derive(Clone, Copy, Debug, PartialEq, Eq, Structural)]
pub enum UserType {
    Student,
    UnbaptizedPublisher,
    BaptizedPublisher,
    RegularPioneer,
    SpecialPioneer,
    ContiniousAuxiliaryPioneer,
}

/// A person's appointment in the congregation.
#[derive(Clone, Copy, Debug, PartialEq, Eq, Structural)]
pub enum UserAppointment {
    Elder,
    MinisterialServant,
}

/// Someone to call in an emergency.
#[derive(Clone, Debug)]
pub struct UserEmergencyContact {
    pub firstname: String,
    pub lastname: Option<String>,
    pub email: Option<String>,
    pub phone: Option<String>,
    pub address: Option<String>,
    pub notes: Option<String>,
}

/// A person of the congregation.
#[derive(Clone, Debug)]
pub struct User {
    pub id: RecordId,
    pub firstname: String,
    pub lastname: String,
    pub gender: bool,
    pub family_head: bool,
    pub email: Option<String>,
    pub password: Option<String>,
    pub birthday: Option<Date>,
    pub phone: Option<String>,
    pub address: Option<String>,
    pub city: Option<String>,
    pub country: Option<String>,
    pub zipcode: Option<String>,
    pub baptism_date: Option<Date>,
    pub anointed: Option<bool>,
    pub publisher_type: Option<UserType>,
    pub appointment: Option<UserAppointment>,
    pub preaching_group: Option<RecordId>,
    pub emergency_contacts: Vec<UserEmergencyContact>,
}

impl User {
    /// A person with the given identity and name, and nothing else recorded.
    pub fn new(id: RecordId, firstname: String, lastname: String) -> (r: User)
        ensures
            r.id == id,
            r.firstname == firstname,
            r.lastname == lastname,
            r.publisher_type is None,
            r.preaching_group is None,
    {
        User {
            id,
            firstname,
            lastname,
            gender: false,
            family_head: false,
            email: None,
            password: None,
            birthday: None,
            phone: None,
            address: None,
            city: None,
            country: None,
            zipcode: None,
            baptism_date: None,
            anointed: None,
            publisher_type: None,
            appointment: None,
            preaching_group: None,
            emergency_contacts: Vec::new(),
        }
    }
}

/// A field-service group: its name, its leaders and its members.
#[derive(Clone, Debug)]
pub struct FieldServiceGroup {
    pub id: Option<RecordId>,
    pub name: String,
    pub supervisor: Option<RecordId>,
    pub auxiliar: Option<RecordId>,
    pub members: Vec<RecordId>,
}

/// What a group holds, as values.
pub struct GroupView {
    pub id: Option<RecordId>,
    pub name: Seq<char>,
    pub supervisor: Option<RecordId>,
    pub auxiliar: Option<RecordId>,
    pub members: Seq<RecordId>,
}

impl View for FieldServiceGroup {
    type V = GroupView;

    open spec fn view(&self) -> GroupView {
        GroupView {
            id: self.id,
            name: self.name@,
            supervisor: self.supervisor,
            auxiliar: self.auxiliar,
            members: self.members@,
        }
    }
}

impl FieldServiceGroup {
    /// A group with the given name and members and no leaders yet.
    pub fn new(id: Option<RecordId>, name: String, members: Vec<RecordId>) -> (r:
        FieldServiceGroup)
        ensures
            r.id == id,
            r.name == name,
            r.supervisor is None,
            r.auxiliar is None,
            r.members@ == members@,
    {
        FieldServiceGroup { id, name, supervisor: None, auxiliar: None, members }
    }

    /// A field-for-field copy.
    pub fn copy(&self) -> (r: FieldServiceGroup)
        ensures
            r@ == self@,
    {
        FieldServiceGroup {
            id: copy_opt_id(&self.id),
            name: self.name.clone(),
            supervisor: copy_opt_id(&self.supervisor),
            auxiliar: copy_opt_id(&self.auxiliar),
            members: copy_ids(&self.members),
        }
    }
}

/// Whether a report has been handed in.
#[derive(Clone, Copy, Debug, PartialEq, Eq, Structural)]
pub enum FieldServiceReportStatus {
    Draft,
    Sent,
}

/// A monthly pledge of hours by a publisher who is not a pioneer.
#[derive(Clone, Copy, Debug, PartialEq, Eq, Structural)]
pub enum FieldServiceReportCommitment {
    Fifteen,
    Thirty,
}

/// A publisher's report of field service for a month.
#[derive(Clone, Debug)]
pub struct FieldServiceReport {
    pub id: RecordId,
    pub date: Date,
    pub publisher: Option<RecordId>,
    pub preached: bool,
    pub status: FieldServiceReportStatus,
    pub hours: Option<i16>,
    pub credits: Option<i16>,
    pub commitment: Option<FieldServiceReportCommitment>,
    pub notes: Option<String>,
}

/// Assignments of the meeting schedule.
#[derive(Clone, Copy, Debug, PartialEq, Eq, Structural)]
pub enum PrivilegeType {
    Audio,
    Video,
    Stage,
    Microphones,
    FieldServiceMeeting,
    Cleaning,
    Prayer,
    WeekdayChairman,
    WeekendChairman,
    Treasures,
    Gems,
    BibleReading,
    StartingConversation,
    FollowingUp,
    MakingDisciples,
    StudentTalk,
    LivingAsChristians,
    CongregationBibleStudy,
    CongregationBibleStudyReader,
    Attendant,
    EntranceAttendant,
    ZoomAttendant,
    PublicTalk,
    WatchtowerConductor,
    WatchtowerReader,
    PublicWitnessing,
}

/// Access rights over the congregation's records.
#[derive(Clone, Copy, Debug, PartialEq, Eq, Structural)]
pub enum RoleType {
    AbsenceViewer,
    AbsenceEditor,
    FieldServiceReportViewer,
    FieldServiceReportEditor,
    FieldServiceMeetingViewer,
    FieldServiceMeetingEditor,
    FieldServiceGroupViewer,
    FieldServiceGroupEditor,
    MeetingAttendanceViewer,
    MeetingAttendanceEditor,
    SpecialEventViewer,
    SpecialEventEditor,
    Owner,
    Editor,
    Viewer,
}

/// Kinds of events outside the regular meeting schedule.
#[derive(Clone, Copy, Debug, PartialEq, Eq, Structural)]
pub enum SpecialEventType {
    CircuitAssembly,
    RegionalConvention,
    CircuitOverseerVisit,
    Memorial,
    CustomEvent,
}

} // verus!
