//! Lists of people as the application shows them: the people that a set of
//! filters keeps, the publishers of a group, in order of their names, and a
//! publisher's own reports, most recent first.

use crate::calendar::date_le;
use crate::exclusivity::lists_record;
use crate::model::{
    same_record, FieldServiceGroup, FieldServiceReport, GroupView, NameOrder, RecordId, User,
    UserAppointment, UserType,
};
use crate::names::{format_name, formatted_name, person_index, person_index_from};
use crate::natural_sort::{text_cmp, text_compare};
use crate::ordering::{as_ints, lemma_as_ints_insert, lemma_insert_index_at, sort_indices};
use crate::search::group_views;
use crate::text::{chars_of, lower_of, lowercase, occurs, occurs_in, push_char};
use core::cmp::Ordering;
use vstd::prelude::*;

verus! {

/// The filters of the list of people; `None` keeps everyone.
#[derive(Clone, Debug)]
pub struct UserFilter {
    pub query: String,
    pub gender: Option<bool>,
    pub appointment: Option<UserAppointment>,
    pub publisher_type: Option<UserType>,
}

/// The positions below `n` that `keep` holds of, in order.
pub open spec fn positions_where(n: int, keep: spec_fn(int) -> bool) -> Seq<int>
    decreases n,
{
    if n <= 0 {
        Seq::empty()
    } else {
        let r = positions_where(n - 1, keep);
        if keep(n - 1) {
            r.push(n - 1)
        } else {
            r
        }
    }
}

/// `first last`, as a search of people reads a name.
pub open spec fn plain_name(u: User) -> Seq<char> {
    u.firstname@ + seq![' '] + u.lastname@
}

/// The query occurs in the person's name, case aside; an empty query holds
/// of everyone.
pub open spec fn name_holds(u: User, query: Seq<char>) -> bool {
    query.len() == 0 || occurs_in(lower_of(query), lower_of(plain_name(u)))
}

pub open spec fn user_passes(u: User, f: UserFilter) -> bool {
    &&& name_holds(u, f.query@)
    &&& (f.gender matches Some(g) ==> u.gender == g)
    &&& (f.appointment matches Some(a) ==> u.appointment == Some(a))
    &&& (f.publisher_type matches Some(t) ==> u.publisher_type == Some(t))
}

fn name_matches(u: &User, query: &Vec<char>) -> (r: bool)
    ensures
        r == occurs_in(query@, lower_of(plain_name(*u))),
{
    let name = format_name(u, None);
    let folded = chars_of(lowercase(name.as_str()).as_str());
    occurs(query, &folded)
}

fn lowered_query(query: &String) -> (r: Vec<char>)
    ensures
        r@ == lower_of(query@),
{
    chars_of(lowercase(query.as_str()).as_str())
}

/// The positions of the people that every filter keeps, in order: the query
/// occurs in "first last" (case aside), and the gender, appointment and
/// classification are those asked for.
pub fn filter_users(users: &Vec<User>, f: &UserFilter) -> (r: Vec<usize>)
    ensures
        as_ints(r@) == positions_where(users@.len() as int, |i: int| user_passes(users@[i], *f)),
{
    let q = lowered_query(&f.query);
    let no_query = f.query.as_str().unicode_len() == 0;
    let ghost keep = |i: int| user_passes(users@[i], *f);
    let mut r: Vec<usize> = Vec::new();
    let mut i: usize = 0;
    while i < users.len()
        invariant
            i <= users@.len(),
            no_query == (f.query@.len() == 0),
            q@ == lower_of(f.query@),
            keep == (|i: int| user_passes(users@[i], *f)),
            as_ints(r@) == positions_where(i as int, keep),
        decreases users@.len() - i,
    {
        let u = &users[i];
        let name_ok = no_query || name_matches(u, &q);
        let gender_ok = match f.gender {
            Some(g) => u.gender == g,
            None => true,
        };
        let appointment_ok = match f.appointment {
            Some(a) => u.appointment == Some(a),
            None => true,
        };
        let type_ok = match f.publisher_type {
            Some(t) => u.publisher_type == Some(t),
            None => true,
        };
        let ghost before = r@;
        if name_ok && gender_ok && appointment_ok && type_ok {
            r.push(i);
            assert(as_ints(r@) =~= as_ints(before).push(i as int));
        }
        i = i + 1;
    }
    r
}

/// `g` is the group `group`, and `person` leads it or belongs to it.
pub open spec fn group_holds(g: GroupView, group: RecordId, person: RecordId) -> bool {
    &&& g.id matches Some(id) && same_record(id, group)
    &&& {
        ||| g.supervisor matches Some(s) && same_record(s, person)
        ||| g.auxiliar matches Some(a) && same_record(a, person)
        ||| lists_record(g.members, person)
    }
}

/// `person` leads or belongs to a group whose identity designates `group`.
pub open spec fn in_group(groups: Seq<GroupView>, group: RecordId, person: RecordId) -> bool {
    exists|k: int| 0 <= k < groups.len() && group_holds(#[trigger] groups[k], group, person)
}

/// A publisher (anyone with a classification) that the query, the
/// classification filter and the group filter keep.
pub open spec fn publisher_listed(
    u: User,
    groups: Seq<GroupView>,
    query: Seq<char>,
    type_filter: Option<UserType>,
    group_filter: Option<RecordId>,
) -> bool {
    &&& u.publisher_type is Some
    &&& name_holds(u, query)
    &&& (type_filter matches Some(t) ==> u.publisher_type == Some(t))
    &&& (group_filter matches Some(g) ==> in_group(groups, g, u.id))
}

/// The name by which a list of publishers is ordered: "first last" or
/// "last first", lower-cased.
pub open spec fn order_name(u: User, order: NameOrder) -> Seq<char> {
    match order {
        NameOrder::FirstnameLastname => lower_of(u.firstname@ + seq![' '] + u.lastname@),
        NameOrder::LastnameFirstname => lower_of(u.lastname@ + seq![' '] + u.firstname@),
    }
}

pub open spec fn by_name(users: Seq<User>, order: NameOrder) -> spec_fn(int, int) -> bool {
    |a: int, b: int| text_cmp(order_name(users[a], order), order_name(users[b], order)) <= 0
}

fn order_name_of(u: &User, order: NameOrder) -> (r: String)
    ensures
        r@ == order_name(*u, order),
{
    let mut s = String::new();
    match order {
        NameOrder::FirstnameLastname => {
            s.append(u.firstname.as_str());
            push_char(&mut s, ' ');
            s.append(u.lastname.as_str());
        },
        NameOrder::LastnameFirstname => {
            s.append(u.lastname.as_str());
            push_char(&mut s, ' ');
            s.append(u.firstname.as_str());
        },
    }
    let r = lowercase(s.as_str());
    proof {
        assert(s@ =~= u.firstname@ + seq![' '] + u.lastname@ || s@ =~= u.lastname@ + seq![' ']
            + u.firstname@);
    }
    r
}

fn in_group_exec(groups: &Vec<FieldServiceGroup>, group: &RecordId, person: &RecordId) -> (r: bool)
    ensures
        r == in_group(group_views(groups@), *group, *person),
{
    let ghost gv = group_views(groups@);
    let mut k: usize = 0;
    while k < groups.len()
        invariant
            k <= groups@.len(),
            gv == group_views(groups@),
            forall|t: int| 0 <= t < k ==> !group_holds(#[trigger] gv[t], *group, *person),
        decreases groups@.len() - k,
    {
        let g = &groups[k];
        assert(gv[k as int] == g@);
        let same_group = match &g.id {
            Some(id) => id.refers_to(group),
            None => false,
        };
        if same_group {
            let leads = match &g.supervisor {
                Some(s) => s.refers_to(person),
                None => false,
            } || match &g.auxiliar {
                Some(a) => a.refers_to(person),
                None => false,
            };
            if leads || crate::exclusivity::lists(&g.members, person) {
                return true;
            }
        }
        k = k + 1;
    }
    false
}

/// The positions of the publishers to list, in order of their names when
/// the congregation has a name order (stored order otherwise): people with
/// a classification whose name holds the query (case aside), of the
/// classification asked for, and leading or belonging to the group asked for.
pub fn list_publishers(
    users: &Vec<User>,
    groups: &Vec<FieldServiceGroup>,
    query: &String,
    type_filter: Option<UserType>,
    group_filter: &Option<RecordId>,
    order: Option<NameOrder>,
) -> (r: Vec<usize>)
    ensures
        ({
            let kept = positions_where(
                users@.len() as int,
                |i: int| publisher_listed(users@[i], group_views(groups@), query@, type_filter, *group_filter),
            );
            as_ints(r@) == match order {
                Some(o) => sort_indices(kept, by_name(users@, o)),
                None => kept,
            }
        }),
{
    let q = lowered_query(query);
    let no_query = query.as_str().unicode_len() == 0;
    let ghost keep = |i: int| publisher_listed(users@[i], group_views(groups@), query@, type_filter, *group_filter);
    let mut keys: Vec<String> = Vec::new();
    let mut r: Vec<usize> = Vec::new();
    let mut i: usize = 0;
    while i < users.len()
        invariant
            i <= users@.len(),
            no_query == (query@.len() == 0),
            q@ == lower_of(query@),
            keep == (|i: int| publisher_listed(users@[i], group_views(groups@), query@, type_filter, *group_filter)),
            keys@.len() == i,
            forall|k: int| 0 <= k < i ==> match order {
                Some(o) => (#[trigger] keys@[k])@ == order_name(users@[k], o),
                None => true,
            },
            forall|k: int| 0 <= k < r@.len() ==> #[trigger] r@[k] < i,
            as_ints(r@) == match order {
                Some(o) => sort_indices(positions_where(i as int, keep), by_name(users@, o)),
                None => positions_where(i as int, keep),
            },
        decreases users@.len() - i,
    {
        let u = &users[i];
        match order {
            Some(o) => keys.push(order_name_of(u, o)),
            None => keys.push(String::new()),
        }
        let listed = u.publisher_type.is_some() && (no_query || name_matches(u, &q)) && match type_filter {
            Some(t) => u.publisher_type == Some(t),
            None => true,
        } && match group_filter {
            Some(g) => in_group_exec(groups, g, &u.id),
            None => true,
        };
        if listed {
            match order {
                None => {
                    let ghost before = r@;
                    r.push(i);
                    assert(as_ints(r@) =~= as_ints(before).push(i as int));
                },
                Some(o) => {
                    let ghost s = as_ints(r@);
                    let ghost le = by_name(users@, o);
                    let mut j: usize = r.len();
                    let mut placed = false;
                    while j > 0 && !placed
                        invariant
                            j <= r@.len(),
                            i < users@.len(),
                            s == as_ints(r@),
                            le == by_name(users@, o),
                            keys@.len() == i + 1,
                            forall|k: int| 0 <= k < r@.len() ==> #[trigger] r@[k] < i,
                            forall|k: int| 0 <= k <= i ==> (#[trigger] keys@[k])@ == order_name(users@[k], o),
                            forall|k: int| j <= k < s.len() ==> !le(#[trigger] s[k], i as int),
                            placed ==> j > 0 && le(s[j - 1], i as int),
                        decreases j + (if placed { 0int } else { 1int }),
                    {
                        let p = r[j - 1];
                        assert(s[j - 1] == p as int);
                        match text_compare(&keys[p], &keys[i]) {
                            Ordering::Greater => {
                                j = j - 1;
                            },
                            _ => {
                                placed = true;
                            },
                        }
                    }
                    proof {
                        lemma_insert_index_at(s, i as int, le, j as int);
                    }
                    let ghost before = r@;
                    r.insert(j, i);
                    proof {
                        lemma_as_ints_insert(before, r@, j as int, i);
                        let kept = positions_where(i as int, keep);
                        assert(positions_where(i + 1, keep) == kept.push(i as int));
                        assert(kept.push(i as int).drop_last() =~= kept);
                    }
                },
            }
        } else {
            assert(positions_where(i + 1, keep) == positions_where(i as int, keep));
        }
        i = i + 1;
    }
    r
}

/// Reports are shown most recent first.
pub open spec fn by_date_desc(reports: Seq<FieldServiceReport>) -> spec_fn(int, int) -> bool {
    |a: int, b: int| date_le(reports[b].date, reports[a].date)
}

pub open spec fn report_of(r: FieldServiceReport, publisher: RecordId) -> bool {
    r.publisher matches Some(p) && same_record(p, publisher)
}

/// The positions of `publisher`'s reports, most recent first; reports of one
/// date keep their stored order.
pub fn publisher_reports(reports: &Vec<FieldServiceReport>, publisher: &RecordId) -> (r: Vec<usize>)
    ensures
        as_ints(r@) == sort_indices(
            positions_where(reports@.len() as int, |i: int| report_of(reports@[i], *publisher)),
            by_date_desc(reports@),
        ),
{
    let ghost keep = |i: int| report_of(reports@[i], *publisher);
    let ghost le = by_date_desc(reports@);
    let mut r: Vec<usize> = Vec::new();
    let mut i: usize = 0;
    while i < reports.len()
        invariant
            i <= reports@.len(),
            keep == (|i: int| report_of(reports@[i], *publisher)),
            le == by_date_desc(reports@),
            forall|k: int| 0 <= k < r@.len() ==> #[trigger] r@[k] < i,
            as_ints(r@) == sort_indices(positions_where(i as int, keep), le),
        decreases reports@.len() - i,
    {
        let mine = match &reports[i].publisher {
            Some(p) => p.refers_to(publisher),
            None => false,
        };
        if mine {
            let ghost s = as_ints(r@);
            let mut j: usize = r.len();
            let mut placed = false;
            while j > 0 && !placed
                invariant
                    j <= r@.len(),
                    i < reports@.len(),
                    s == as_ints(r@),
                    le == by_date_desc(reports@),
                    forall|k: int| 0 <= k < r@.len() ==> #[trigger] r@[k] < i,
                    forall|k: int| j <= k < s.len() ==> !le(#[trigger] s[k], i as int),
                    placed ==> j > 0 && le(s[j - 1], i as int),
                decreases j + (if placed { 0int } else { 1int }),
            {
                let p = r[j - 1];
                assert(s[j - 1] == p as int);
                if reports[i].date.le(&reports[p].date) {
                    placed = true;
                } else {
                    j = j - 1;
                }
            }
            proof {
                lemma_insert_index_at(s, i as int, le, j as int);
            }
            let ghost before = r@;
            r.insert(j, i);
            proof {
                lemma_as_ints_insert(before, r@, j as int, i);
                let kept = positions_where(i as int, keep);
                assert(positions_where(i + 1, keep) == kept.push(i as int));
                assert(kept.push(i as int).drop_last() =~= kept);
            }
        } else {
            assert(positions_where(i + 1, keep) == positions_where(i as int, keep));
        }
        i = i + 1;
    }
    r
}

/// The names, as `order` writes them, of the members that resolve among
/// `people`, in the members' order; members that resolve to nobody are
/// left out.
pub open spec fn resolved_names(people: Seq<User>, members: Seq<RecordId>, order: Option<NameOrder>) -> Seq<
    Seq<char>,
>
    decreases members.len(),
{
    if members.len() == 0 {
        Seq::empty()
    } else {
        let rest = resolved_names(people, members.drop_last(), order);
        match person_index_from(people, members.last(), 0) {
            Some(i) => rest.push(formatted_name(people[i].firstname@, people[i].lastname@, order)),
            None => rest,
        }
    }
}

pub open spec fn by_lower(names: Seq<Seq<char>>) -> spec_fn(int, int) -> bool {
    |a: int, b: int| text_cmp(lower_of(names[a]), lower_of(names[b])) <= 0
}

/// The names of a group's members that resolve among `people`, written as
/// `order` asks and ordered alphabetically, case aside; names alike keep
/// the members' order.
pub fn member_names(people: &Vec<User>, members: &Vec<RecordId>, order: Option<NameOrder>) -> (r: Vec<
    String,
>)
    ensures
        ({
            let names = resolved_names(people@, members@, order);
            let idx = sort_indices(positions_where(names.len() as int, |i: int| true), by_lower(names));
            r@.len() == idx.len() && forall|k: int| 0 <= k < r@.len() ==> (#[trigger] r@[k])@ == names[idx[k]]
        }),
{
    let ghost all_members = members@;
    let mut names: Vec<String> = Vec::new();
    let mut keys: Vec<String> = Vec::new();
    let mut m: usize = 0;
    while m < members.len()
        invariant
            m <= members@.len(),
            all_members == members@,
            names@.len() == keys@.len(),
            forall|k: int| 0 <= k < names@.len() ==> (#[trigger] names@[k])@ == resolved_names(people@, members@.subrange(0, m as int), order)[k],
            names@.len() == resolved_names(people@, members@.subrange(0, m as int), order).len(),
            forall|k: int| 0 <= k < keys@.len() ==> (#[trigger] keys@[k])@ == lower_of(names@[k]@),
        decreases members@.len() - m,
    {
        let ghost prefix = members@.subrange(0, m + 1);
        assert(prefix.drop_last() =~= members@.subrange(0, m as int));
        assert(prefix.last() == members@[m as int]);
        if let Some(i) = person_index(people, &members[m]) {
            let name = format_name(&people[i], order);
            keys.push(lowercase(name.as_str()));
            names.push(name);
        }
        m = m + 1;
    }
    assert(members@.subrange(0, members@.len() as int) =~= members@);
    let ghost ns = resolved_names(people@, members@, order);
    let ghost keep = |i: int| true;
    let ghost le = by_lower(ns);
    let n = names.len();
    let mut idx: Vec<usize> = Vec::new();
    let mut i: usize = 0;
    while i < n
        invariant
            i <= n == names@.len() == keys@.len() == ns.len(),
            forall|k: int| 0 <= k < n ==> (#[trigger] names@[k])@ == ns[k],
            forall|k: int| 0 <= k < n ==> (#[trigger] keys@[k])@ == lower_of(names@[k]@),
            keep == (|i: int| true),
            le == by_lower(ns),
            forall|k: int| 0 <= k < idx@.len() ==> #[trigger] idx@[k] < i,
            as_ints(idx@) == sort_indices(positions_where(i as int, keep), le),
        decreases n - i,
    {
        let ghost s = as_ints(idx@);
        let mut j: usize = idx.len();
        let mut placed = false;
        while j > 0 && !placed
            invariant
                j <= idx@.len(),
                i < n == names@.len() == keys@.len() == ns.len(),
                forall|k: int| 0 <= k < n ==> (#[trigger] names@[k])@ == ns[k],
                forall|k: int| 0 <= k < n ==> (#[trigger] keys@[k])@ == lower_of(names@[k]@),
                s == as_ints(idx@),
                le == by_lower(ns),
                forall|k: int| 0 <= k < idx@.len() ==> #[trigger] idx@[k] < i,
                forall|k: int| j <= k < s.len() ==> !le(#[trigger] s[k], i as int),
                placed ==> j > 0 && le(s[j - 1], i as int),
            decreases j + (if placed { 0int } else { 1int }),
        {
            let p = idx[j - 1];
            assert(s[j - 1] == p as int);
            match text_compare(&keys[p], &keys[i]) {
                Ordering::Greater => {
                    j = j - 1;
                },
                _ => {
                    placed = true;
                },
            }
        }
        proof {
            lemma_insert_index_at(s, i as int, le, j as int);
        }
        let ghost before = idx@;
        idx.insert(j, i);
        proof {
            lemma_as_ints_insert(before, idx@, j as int, i);
            let kept = positions_where(i as int, keep);
            assert(positions_where(i + 1, keep) == kept.push(i as int));
            assert(kept.push(i as int).drop_last() =~= kept);
        }
        i = i + 1;
    }
    let ghost order_idx = sort_indices(positions_where(n as int, keep), le);
    let mut r: Vec<String> = Vec::new();
    let mut k: usize = 0;
    while k < idx.len()
        invariant
            k <= idx@.len(),
            n == names@.len() == ns.len(),
            forall|t: int| 0 <= t < n ==> (#[trigger] names@[t])@ == ns[t],
            forall|t: int| 0 <= t < idx@.len() ==> #[trigger] idx@[t] < n,
            as_ints(idx@) == order_idx,
            r@.len() == k,
            forall|t: int| 0 <= t < k ==> (#[trigger] r@[t])@ == ns[order_idx[t]],
        decreases idx@.len() - k,
    {
        let p = idx[k];
        assert(order_idx[k as int] == p as int);
        r.push(names[p].clone());
        k = k + 1;
    }
    r
}

} // verus!
