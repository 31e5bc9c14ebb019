//! Display names of people, in the order the congregation prefers.

use crate::model::{same_record, NameOrder, RecordId, User};
use crate::text::push_char;
use vstd::prelude::*;

verus! {

/// `first last`, or `last, first`; without a congregation setting the
/// first name comes first.
pub open spec fn formatted_name(first: Seq<char>, last: Seq<char>, order: Option<NameOrder>) -> Seq<
    char,
> {
    match order {
        Some(NameOrder::LastnameFirstname) => last + seq![',', ' '] + first,
        _ => first + seq![' '] + last,
    }
}

/// A person's name as the congregation's name order writes it.
pub fn format_name(user: &User, order: Option<NameOrder>) -> (r: String)
    ensures
        r@ == formatted_name(user.firstname@, user.lastname@, order),
{
    let mut r = String::new();
    match order {
        Some(NameOrder::LastnameFirstname) => {
            r.append(user.lastname.as_str());
            push_char(&mut r, ',');
            push_char(&mut r, ' ');
            r.append(user.firstname.as_str());
        },
        _ => {
            r.append(user.firstname.as_str());
            push_char(&mut r, ' ');
            r.append(user.lastname.as_str());
        },
    }
    assert(r@ =~= formatted_name(user.firstname@, user.lastname@, order));
    r
}

/// Index of the first person, from `start` on, whose identity designates the
/// same record as `r`.
pub open spec fn person_index_from(people: Seq<User>, r: RecordId, start: int) -> Option<int>
    decreases people.len() - start,
{
    if start < 0 || start >= people.len() {
        None
    } else if same_record(people[start].id, r) {
        Some(start)
    } else {
        person_index_from(people, r, start + 1)
    }
}

/// Where `r` designates someone among `people`: the first such person.
pub fn person_index(people: &Vec<User>, r: &RecordId) -> (res: Option<usize>)
    ensures
        res matches Some(i) ==> i < people@.len() && person_index_from(people@, *r, 0) == Some(
            i as int,
        ),
        res is None ==> person_index_from(people@, *r, 0) is None,
{
    let mut i: usize = 0;
    while i < people.len()
        invariant
            i <= people@.len(),
            person_index_from(people@, *r, 0) == person_index_from(people@, *r, i as int),
        decreases people@.len() - i,
    {
        if people[i].id.refers_to(r) {
            return Some(i);
        }
        i = i + 1;
    }
    None
}

/// The name to show for a reference to a person: their name (first name
/// first) when it resolves among `people`, else "Not assigned".
pub fn person_name(people: &Vec<User>, r: &Option<RecordId>) -> (name: String)
    ensures
        name@ == (match *r {
            Some(x) => match person_index_from(people@, x, 0) {
                Some(i) => formatted_name(people@[i].firstname@, people@[i].lastname@, None),
                None => "Not assigned"@,
            },
            None => "Not assigned"@,
        }),
{
    if let Some(x) = r {
        if let Some(i) = person_index(people, x) {
            return format_name(&people[i], None);
        }
    }
    String::from_str("Not assigned")
}

} // verus!
