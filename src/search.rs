//! Group search: the groups whose name, or whose supervisor's, auxiliary's
//! or member's name, holds the query (accents and case aside), in natural
//! order of their names.

use crate::model::{FieldServiceGroup, GroupView, RecordId, User};
use crate::names::{format_name, formatted_name, person_index, person_index_from};
use crate::natural_sort::{
    compare_keys, key_cmp, natural_key, sort_key, text_cmp, token_cmp, views_of, SortToken, TokenView,
};
use crate::text::{chars_of, normalize, normalized, occurs, occurs_in};
use core::cmp::Ordering;
use vstd::prelude::*;

verus! {

broadcast use vstd::seq_lib::group_to_multiset_ensures;

/// The person whom `r` designates resolves, and their name (first name
/// first) holds the query `q`. A reference to nobody matches nothing.
pub open spec fn person_matches(people: Seq<User>, r: RecordId, q: Seq<char>) -> bool {
    match person_index_from(people, r, 0) {
        Some(i) => occurs_in(
            q,
            normalized(formatted_name(people[i].firstname@, people[i].lastname@, None)),
        ),
        None => false,
    }
}

pub open spec fn group_matches(g: GroupView, people: Seq<User>, q: Seq<char>) -> bool {
    ||| occurs_in(q, normalized(g.name))
    ||| (g.supervisor matches Some(s) && person_matches(people, s, q))
    ||| (g.auxiliar matches Some(a) && person_matches(people, a, q))
    ||| exists|k: int| 0 <= k < g.members.len() && person_matches(people, #[trigger] g.members[k], q)
}

/// The groups that the folded query `q` selects, in their order; an empty
/// query selects all.
pub open spec fn selected(groups: Seq<GroupView>, people: Seq<User>, q: Seq<char>) -> Seq<GroupView>
    decreases groups.len(),
{
    if groups.len() == 0 {
        Seq::empty()
    } else {
        let rest = selected(groups.drop_last(), people, q);
        if q.len() == 0 || group_matches(groups.last(), people, q) {
            rest.push(groups.last())
        } else {
            rest
        }
    }
}

pub open spec fn group_key(g: GroupView) -> Seq<TokenView> {
    natural_key(g.name)
}

pub open spec fn name_le(a: GroupView, b: GroupView) -> bool {
    key_cmp(group_key(a), group_key(b)) <= 0
}

/// Inserts `g` after the last group of `s` whose name does not sort after it.
pub open spec fn insert_by_name(s: Seq<GroupView>, g: GroupView) -> Seq<GroupView>
    decreases s.len(),
{
    if s.len() == 0 {
        seq![g]
    } else if name_le(s.last(), g) {
        s.push(g)
    } else {
        insert_by_name(s.drop_last(), g).push(s.last())
    }
}

/// The groups in natural order of their names; groups whose names sort
/// alike keep their relative order.
pub open spec fn sort_by_name(s: Seq<GroupView>) -> Seq<GroupView>
    decreases s.len(),
{
    if s.len() == 0 {
        s
    } else {
        insert_by_name(sort_by_name(s.drop_last()), s.last())
    }
}

/// The query as search compares it: empty, or folded.
pub open spec fn query_form(query: Seq<char>) -> Seq<char> {
    if query.len() == 0 {
        query
    } else {
        normalized(query)
    }
}

/// What a search for `query` shows.
pub open spec fn search_result(groups: Seq<GroupView>, people: Seq<User>, query: Seq<char>) -> Seq<
    GroupView,
> {
    sort_by_name(selected(groups, people, query_form(query)))
}

pub open spec fn group_views(v: Seq<FieldServiceGroup>) -> Seq<GroupView> {
    v.map_values(|g: FieldServiceGroup| g@)
}

proof fn lemma_insert_at(s: Seq<GroupView>, g: GroupView, j: int)
    requires
        0 <= j <= s.len(),
        forall|k: int| j <= k < s.len() ==> !name_le(#[trigger] s[k], g),
        j == 0 || name_le(s[j - 1], g),
    ensures
        insert_by_name(s, g) == s.subrange(0, j) + seq![g] + s.subrange(j, s.len() as int),
    decreases s.len(),
{
    if s.len() == 0 {
        assert(s.subrange(0, j) + seq![g] + s.subrange(j, s.len() as int) =~= seq![g]);
    } else if j == s.len() {
        assert(s.last() == s[j - 1]);
        assert(s.subrange(0, j) + seq![g] + s.subrange(j, s.len() as int) =~= s.push(g));
    } else {
        let t = s.drop_last();
        assert(!name_le(s[s.len() - 1], g));
        assert forall|k: int| j <= k < t.len() implies !name_le(#[trigger] t[k], g) by {
            assert(t[k] == s[k]);
        }
        if j > 0 {
            assert(t[j - 1] == s[j - 1]);
        }
        lemma_insert_at(t, g, j);
        assert(t.subrange(0, j) + seq![g] + t.subrange(j, t.len() as int) + seq![s.last()]
            =~= s.subrange(0, j) + seq![g] + s.subrange(j, s.len() as int));
    }
}

fn person_matches_exec(people: &Vec<User>, r: &RecordId, q: &Vec<char>) -> (res: bool)
    ensures
        res == person_matches(people@, *r, q@),
{
    match person_index(people, r) {
        Some(i) => {
            let name = format_name(&people[i], None);
            let folded = chars_of(normalize(name.as_str()).as_str());
            occurs(q, &folded)
        },
        None => false,
    }
}

fn group_matches_exec(g: &FieldServiceGroup, people: &Vec<User>, q: &Vec<char>) -> (res: bool)
    ensures
        res == group_matches(g@, people@, q@),
{
    let name = chars_of(normalize(g.name.as_str()).as_str());
    if occurs(q, &name) {
        return true;
    }
    if let Some(s) = &g.supervisor {
        if person_matches_exec(people, s, q) {
            return true;
        }
    }
    if let Some(a) = &g.auxiliar {
        if person_matches_exec(people, a, q) {
            return true;
        }
    }
    let mut k: usize = 0;
    while k < g.members.len()
        invariant
            k <= g.members@.len(),
            forall|t: int| 0 <= t < k ==> !person_matches(people@, #[trigger] g.members@[t], q@),
        decreases g.members@.len() - k,
    {
        if person_matches_exec(people, &g.members[k], q) {
            assert(g@.members[k as int] == g.members@[k as int]);
            return true;
        }
        k = k + 1;
    }
    false
}

/// The groups that `query` finds, in natural order of their names.
///
/// The query is folded (accents stripped, lower-cased); an empty query finds
/// every group. Otherwise a group is found when the folded query occurs in
/// its folded name, or in the folded name (first name first) of its
/// supervisor, its auxiliary or one of its members, each resolved among
/// `people` by local id. Groups whose names sort alike keep their order.
pub fn search(groups: &Vec<FieldServiceGroup>, people: &Vec<User>, query: &str) -> (r: Vec<
    FieldServiceGroup,
>)
    ensures
        group_views(r@) == search_result(group_views(groups@), people@, query@),
{
    let q: Vec<char> = if query.unicode_len() == 0 {
        Vec::new()
    } else {
        chars_of(normalize(query).as_str())
    };
    assert(q@ =~= query_form(query@));
    let ghost gv = group_views(groups@);
    let mut out: Vec<FieldServiceGroup> = Vec::new();
    let mut keys: Vec<Vec<SortToken>> = Vec::new();
    let mut i: usize = 0;
    while i < groups.len()
        invariant
            i <= groups@.len(),
            gv == group_views(groups@),
            q@ == query_form(query@),
            group_views(out@) == sort_by_name(selected(gv.subrange(0, i as int), people@, q@)),
            keys@.len() == out@.len(),
            forall|k: int| 0 <= k < keys@.len() ==> views_of(#[trigger] keys@[k]@) == group_key(out@[k]@),
        decreases groups@.len() - i,
    {
        let g = &groups[i];
        assert(gv.subrange(0, i + 1).drop_last() =~= gv.subrange(0, i as int));
        assert(gv.subrange(0, i + 1).last() == g@);
        if q.len() == 0 || group_matches_exec(g, people, &q) {
            let key = sort_key(g.name.as_str());
            let ghost s = group_views(out@);
            let mut j: usize = out.len();
            let mut placed = false;
            while j > 0 && !placed
                invariant
                    j <= out@.len() == keys@.len(),
                    s == group_views(out@),
                    forall|k: int| 0 <= k < keys@.len() ==> views_of(#[trigger] keys@[k]@) == group_key(out@[k]@),
                    forall|k: int| j <= k < s.len() ==> !name_le(#[trigger] s[k], g@),
                    placed ==> j > 0 && name_le(s[j - 1], g@),
                    views_of(key@) == group_key(g@),
                decreases j + (if placed { 0int } else { 1int }),
            {
                assert(views_of(keys@[j - 1]@) == group_key(s[j - 1]));
                match compare_keys(&keys[j - 1], &key) {
                    Ordering::Greater => {
                        j = j - 1;
                    },
                    _ => {
                        placed = true;
                    },
                }
            }
            proof {
                lemma_insert_at(s, g@, j as int);
                let x = selected(gv.subrange(0, i as int), people@, q@);
                assert(selected(gv.subrange(0, i + 1), people@, q@) == x.push(g@));
                assert(x.push(g@).drop_last() =~= x);
            }
            let ghost old_out = out@;
            let ghost old_keys = keys@;
            out.insert(j, g.copy());
            keys.insert(j, key);
            assert(group_views(out@) =~= s.subrange(0, j as int) + seq![g@] + s.subrange(
                j as int,
                s.len() as int,
            ));
            assert forall|k: int| 0 <= k < keys@.len() implies views_of(
                #[trigger] keys@[k]@,
            ) == group_key(out@[k]@) by {
                if k < j {
                    assert(keys@[k] == old_keys[k] && out@[k] == old_out[k]);
                } else if k > j {
                    assert(keys@[k] == old_keys[k - 1] && out@[k] == old_out[k - 1]);
                }
            }
        } else {
            assert(selected(gv.subrange(0, i + 1), people@, q@) == selected(
                gv.subrange(0, i as int),
                people@,
                q@,
            ));
        }
        i = i + 1;
    }
    assert(gv.subrange(0, groups@.len() as int) =~= gv);
    out
}

/// Each group's name sorts no later than the next one's.
pub open spec fn sorted_by_name(s: Seq<GroupView>) -> bool {
    forall|i: int| 0 < i < s.len() ==> name_le(#[trigger] s[i - 1], s[i])
}

proof fn lemma_text_cmp_antisymmetric(a: Seq<char>, b: Seq<char>)
    ensures
        text_cmp(a, b) == -text_cmp(b, a),
    decreases a.len(),
{
    if a.len() > 0 && b.len() > 0 && (a[0] as u32) == (b[0] as u32) {
        lemma_text_cmp_antisymmetric(a.drop_first(), b.drop_first());
    }
}

proof fn lemma_key_cmp_antisymmetric(a: Seq<TokenView>, b: Seq<TokenView>)
    ensures
        key_cmp(a, b) == -key_cmp(b, a),
    decreases a.len(),
{
    if a.len() > 0 && b.len() > 0 {
        match (a[0], b[0]) {
            (TokenView::Numeric(x), TokenView::Numeric(y)) => lemma_text_cmp_antisymmetric(x, y),
            (TokenView::Text(x), TokenView::Text(y)) => lemma_text_cmp_antisymmetric(x, y),
            _ => {},
        }
        assert(token_cmp(a[0], b[0]) == -token_cmp(b[0], a[0]));
        lemma_key_cmp_antisymmetric(a.drop_first(), b.drop_first());
    }
}

proof fn lemma_insert_sorted(s: Seq<GroupView>, g: GroupView)
    requires
        sorted_by_name(s),
    ensures
        sorted_by_name(insert_by_name(s, g)),
        insert_by_name(s, g).to_multiset() == s.to_multiset().insert(g),
        insert_by_name(s, g).len() == s.len() + 1,
        insert_by_name(s, g).last() == g || (s.len() > 0 && insert_by_name(s, g).last()
            == s.last()),
    decreases s.len(),
{
    if s.len() == 0 {
        assert(seq![g] =~= Seq::<GroupView>::empty().push(g));
    } else if name_le(s.last(), g) {
        assert(s.last() == s[s.len() - 1]);
    } else {
        let t = s.drop_last();
        assert(sorted_by_name(t)) by {
            assert forall|i: int| 0 < i < t.len() implies name_le(#[trigger] t[i - 1], t[i]) by {
                assert(s[i - 1] == t[i - 1] && s[i] == t[i]);
            }
        }
        lemma_insert_sorted(t, g);
        let u = insert_by_name(t, g);
        let r = u.push(s.last());
        lemma_key_cmp_antisymmetric(group_key(s.last()), group_key(g));
        if u.last() != g {
            assert(s[s.len() - 2] == t.last());
            assert(name_le(s[s.len() - 2], s[s.len() - 1]));
        }
        assert(name_le(u.last(), s.last()));
        assert forall|i: int| 0 < i < r.len() implies name_le(#[trigger] r[i - 1], r[i]) by {
            if i < r.len() - 1 {
                assert(r[i - 1] == u[i - 1] && r[i] == u[i]);
            } else {
                assert(r[i - 1] == u.last());
            }
        }
        assert(s =~= t.push(s.last()));
    }
}

proof fn lemma_sort_sorted(s: Seq<GroupView>)
    ensures
        sorted_by_name(sort_by_name(s)),
        sort_by_name(s).to_multiset() == s.to_multiset(),
    decreases s.len(),
{
    if s.len() > 0 {
        lemma_sort_sorted(s.drop_last());
        lemma_insert_sorted(sort_by_name(s.drop_last()), s.last());
        assert(s =~= s.drop_last().push(s.last()));
    }
}

proof fn lemma_sort_of_sorted(s: Seq<GroupView>)
    requires
        sorted_by_name(s),
    ensures
        sort_by_name(s) == s,
    decreases s.len(),
{
    if s.len() > 0 {
        let t = s.drop_last();
        assert(sorted_by_name(t)) by {
            assert forall|i: int| 0 < i < t.len() implies name_le(#[trigger] t[i - 1], t[i]) by {
                assert(s[i - 1] == t[i - 1] && s[i] == t[i]);
            }
        }
        lemma_sort_of_sorted(t);
        if t.len() > 0 {
            assert(t.last() == s[s.len() - 2]);
        }
        assert(s =~= t.push(s.last()));
    }
}

proof fn lemma_select_all(groups: Seq<GroupView>, people: Seq<User>)
    ensures
        selected(groups, people, Seq::empty()) == groups,
    decreases groups.len(),
{
    if groups.len() > 0 {
        lemma_select_all(groups.drop_last(), people);
        assert(groups =~= groups.drop_last().push(groups.last()));
    }
}

/// A search with an empty query shows every group exactly once, in natural
/// order of their names; searching what it shows again shows the same list.
pub proof fn lemma_search_all_is_stable(groups: Seq<GroupView>, people: Seq<User>)
    ensures
        search_result(groups, people, Seq::empty()).to_multiset() == groups.to_multiset(),
        sorted_by_name(search_result(groups, people, Seq::empty())),
        search_result(search_result(groups, people, Seq::empty()), people, Seq::empty())
            == search_result(groups, people, Seq::empty()),
{
    let all = search_result(groups, people, Seq::empty());
    lemma_select_all(groups, people);
    lemma_sort_sorted(groups);
    lemma_select_all(all, people);
    lemma_sort_of_sorted(all);
}

/// Whatever the query, a search shows the groups it selects, each as often
/// as they are stored, in natural order of their names.
pub proof fn lemma_search_result_is_ordered(groups: Seq<GroupView>, people: Seq<User>, query: Seq<char>)
    ensures
        sorted_by_name(search_result(groups, people, query)),
        search_result(groups, people, query).to_multiset() == selected(
            groups,
            people,
            query_form(query),
        ).to_multiset(),
{
    lemma_sort_sorted(selected(groups, people, query_form(query)));
}

} // verus!
