//! Membership exclusivity: who already holds a role in a group other than
//! the one being edited, and the edits that keep a group's lists in shape.
//!
//! The three roles are independent: being supervisor of one group does not
//! keep a person from being auxiliary or member of another.

use crate::model::{same_record, FieldServiceGroup, GroupView, RecordId};
use crate::search::group_views;
use vstd::prelude::*;

verus! {

/// A role that a person can hold in a field-service group.
#[derive(Clone, Copy, Debug, PartialEq, Eq, Structural)]
pub enum AssignmentRole {
    Member,
    Supervisor,
    Auxiliary,
}

/// Some entry of `ids` designates the same record as `r`.
pub open spec fn lists_record(ids: Seq<RecordId>, r: RecordId) -> bool {
    exists|k: int| 0 <= k < ids.len() && same_record(#[trigger] ids[k], r)
}

/// `g` is the group being edited.
pub open spec fn is_edited(g: GroupView, editing: Option<RecordId>) -> bool {
    editing matches Some(e) && g.id matches Some(id) && same_record(id, e)
}

/// The people who hold `role` in `g`.
pub open spec fn role_holders(g: GroupView, role: AssignmentRole) -> Seq<RecordId> {
    match role {
        AssignmentRole::Member => g.members,
        AssignmentRole::Supervisor => match g.supervisor {
            Some(s) => seq![s],
            None => Seq::empty(),
        },
        AssignmentRole::Auxiliary => match g.auxiliar {
            Some(a) => seq![a],
            None => Seq::empty(),
        },
    }
}

/// The holders of `role` in every group but the one being edited, group
/// after group.
pub open spec fn assigned_list(groups: Seq<GroupView>, editing: Option<RecordId>, role: AssignmentRole) -> Seq<
    RecordId,
>
    decreases groups.len(),
{
    if groups.len() == 0 {
        Seq::empty()
    } else {
        let rest = assigned_list(groups.drop_last(), editing, role);
        if is_edited(groups.last(), editing) {
            rest
        } else {
            rest + role_holders(groups.last(), role)
        }
    }
}

/// `person` holds `role` in a group other than the one being edited.
pub open spec fn assigned_elsewhere(
    groups: Seq<GroupView>,
    editing: Option<RecordId>,
    person: RecordId,
    role: AssignmentRole,
) -> bool {
    exists|i: int|
        0 <= i < groups.len() && !is_edited(#[trigger] groups[i], editing) && lists_record(
            role_holders(groups[i], role),
            person,
        )
}

fn holders_of(g: &FieldServiceGroup, role: AssignmentRole) -> (r: Vec<RecordId>)
    ensures
        r@ == role_holders(g@, role),
{
    match role {
        AssignmentRole::Member => crate::model::copy_ids(&g.members),
        AssignmentRole::Supervisor => match &g.supervisor {
            Some(s) => {
                let mut v = Vec::new();
                v.push(s.copy());
                assert(v@ =~= seq![*s]);
                v
            },
            None => {
                let v = Vec::new();
                assert(v@ =~= Seq::<RecordId>::empty());
                v
            },
        },
        AssignmentRole::Auxiliary => match &g.auxiliar {
            Some(a) => {
                let mut v = Vec::new();
                v.push(a.copy());
                assert(v@ =~= seq![*a]);
                v
            },
            None => {
                let v = Vec::new();
                assert(v@ =~= Seq::<RecordId>::empty());
                v
            },
        },
    }
}

fn edited(g: &FieldServiceGroup, editing: &Option<RecordId>) -> (r: bool)
    ensures
        r == is_edited(g@, *editing),
{
    match (editing, &g.id) {
        (Some(e), Some(id)) => id.refers_to(e),
        _ => false,
    }
}

/// Whether `ids` lists the record `r`.
pub fn lists(ids: &Vec<RecordId>, r: &RecordId) -> (res: bool)
    ensures
        res == lists_record(ids@, *r),
{
    let mut k: usize = 0;
    while k < ids.len()
        invariant
            k <= ids@.len(),
            forall|t: int| 0 <= t < k ==> !same_record(#[trigger] ids@[t], *r),
        decreases ids@.len() - k,
    {
        if ids[k].refers_to(r) {
            return true;
        }
        k = k + 1;
    }
    false
}

/// The people who hold `role` in some group other than the one being
/// edited (`editing`, compared by local id), group after group, each
/// group's holders in its own order.
pub fn assigned_ids(groups: &Vec<FieldServiceGroup>, editing: &Option<RecordId>, role: AssignmentRole) -> (r:
    Vec<RecordId>)
    ensures
        r@ == assigned_list(group_views(groups@), *editing, role),
{
    let ghost gv = group_views(groups@);
    let mut r: Vec<RecordId> = Vec::new();
    let mut i: usize = 0;
    while i < groups.len()
        invariant
            i <= groups@.len(),
            gv == group_views(groups@),
            r@ == assigned_list(gv.subrange(0, i as int), *editing, role),
        decreases groups@.len() - i,
    {
        let g = &groups[i];
        assert(gv.subrange(0, i + 1).drop_last() =~= gv.subrange(0, i as int));
        assert(gv.subrange(0, i + 1).last() == g@);
        if !edited(g, editing) {
            let mut h = holders_of(g, role);
            r.append(&mut h);
        }
        i = i + 1;
    }
    assert(gv.subrange(0, groups@.len() as int) =~= gv);
    r
}

/// Whether `person` already holds `role` in a group other than the one
/// being edited. Editors use it to mark people as already assigned; it
/// blocks nothing by itself.
pub fn is_assigned(
    groups: &Vec<FieldServiceGroup>,
    editing: &Option<RecordId>,
    person: &RecordId,
    role: AssignmentRole,
) -> (r: bool)
    ensures
        r == assigned_elsewhere(group_views(groups@), *editing, *person, role),
{
    let ghost gv = group_views(groups@);
    let mut i: usize = 0;
    while i < groups.len()
        invariant
            i <= groups@.len(),
            gv == group_views(groups@),
            forall|t: int|
                0 <= t < i ==> !(!is_edited(#[trigger] gv[t], *editing) && lists_record(
                    role_holders(gv[t], role),
                    *person,
                )),
        decreases groups@.len() - i,
    {
        let g = &groups[i];
        assert(gv[i as int] == g@);
        if !edited(g, editing) {
            let h = holders_of(g, role);
            if lists(&h, person) {
                return true;
            }
        }
        i = i + 1;
    }
    false
}

/// The holders that `assigned_ids` lists are exactly the people that
/// `is_assigned` reports: a person is assigned in a role elsewhere if and
/// only if the list of that role's holders outside the edited group names
/// them.
pub proof fn lemma_assigned_list_matches(
    groups: Seq<GroupView>,
    editing: Option<RecordId>,
    person: RecordId,
    role: AssignmentRole,
)
    ensures
        lists_record(assigned_list(groups, editing, role), person) == assigned_elsewhere(
            groups,
            editing,
            person,
            role,
        ),
    decreases groups.len(),
{
    if groups.len() > 0 {
        let init = groups.drop_last();
        let g = groups.last();
        let rest = assigned_list(init, editing, role);
        lemma_assigned_list_matches(init, editing, person, role);
        let h = role_holders(g, role);
        if lists_record(assigned_list(groups, editing, role), person) {
            let k = choose|k: int|
                0 <= k < assigned_list(groups, editing, role).len() && same_record(
                    #[trigger] assigned_list(groups, editing, role)[k],
                    person,
                );
            if k < rest.len() {
                assert(rest[k] == assigned_list(groups, editing, role)[k]);
                let i = choose|i: int|
                    0 <= i < init.len() && !is_edited(#[trigger] init[i], editing) && lists_record(
                        role_holders(init[i], role),
                        person,
                    );
                assert(init[i] == groups[i]);
            } else {
                assert(!is_edited(g, editing));
                assert(h[k - rest.len()] == assigned_list(groups, editing, role)[k]);
                assert(lists_record(h, person));
                assert(groups[groups.len() - 1] == g);
            }
        }
        if assigned_elsewhere(groups, editing, person, role) {
            let i = choose|i: int|
                0 <= i < groups.len() && !is_edited(#[trigger] groups[i], editing) && lists_record(
                    role_holders(groups[i], role),
                    person,
                );
            if i < init.len() {
                assert(init[i] == groups[i]);
                let k = choose|k: int| 0 <= k < rest.len() && same_record(#[trigger] rest[k], person);
                assert(assigned_list(groups, editing, role)[k] == rest[k]);
            } else {
                let hh = role_holders(groups[i], role);
                let k = choose|k: int| 0 <= k < hh.len() && same_record(#[trigger] hh[k], person);
                assert(assigned_list(groups, editing, role)[rest.len() + k] == hh[k]);
            }
        }
    }
}

/// `ids` with `r` added at the end, unless it is already listed or absent.
pub open spec fn with_record(ids: Seq<RecordId>, r: Option<RecordId>) -> Seq<RecordId> {
    match r {
        Some(x) => if lists_record(ids, x) {
            ids
        } else {
            ids.push(x)
        },
        None => ids,
    }
}

/// The leaders of `g` are among its members.
pub open spec fn leaders_are_members(g: GroupView) -> bool {
    &&& (g.supervisor matches Some(s) ==> lists_record(g.members, s))
    &&& (g.auxiliar matches Some(a) ==> lists_record(g.members, a))
}

fn add_if_missing(ids: &mut Vec<RecordId>, r: &Option<RecordId>)
    ensures
        final(ids)@ == with_record(old(ids)@, *r),
{
    if let Some(x) = r {
        if !lists(ids, x) {
            ids.push(x.copy());
        }
    }
}

/// Adds the group's supervisor, then its auxiliary, to its members where
/// they are not listed yet, as a group is saved. Afterwards both leaders are
/// members; nothing else changes.
pub fn ensure_leaders_are_members(group: &mut FieldServiceGroup)
    ensures
        final(group).members@ == with_record(
            with_record(old(group).members@, old(group).supervisor),
            old(group).auxiliar,
        ),
        final(group).id == old(group).id,
        final(group).name == old(group).name,
        final(group).supervisor == old(group).supervisor,
        final(group).auxiliar == old(group).auxiliar,
        leaders_are_members(final(group)@),
{
    let ghost m0 = group.members@;
    add_if_missing(&mut group.members, &group.supervisor);
    let ghost m1 = group.members@;
    add_if_missing(&mut group.members, &group.auxiliar);
    proof {
        let sup = group.supervisor;
        let aux = group.auxiliar;
        if let Some(s) = sup {
            if !lists_record(m0, s) {
                assert(same_record(m1[m1.len() - 1], s));
            }
            let k = choose|k: int| 0 <= k < m1.len() && same_record(#[trigger] m1[k], s);
            assert(group.members@[k] == m1[k]);
        }
        if let Some(a) = aux {
            let m2 = group.members@;
            if !lists_record(m1, a) {
                assert(same_record(m2[m2.len() - 1], a));
            }
        }
    }
}

/// `ids` without the entries that designate the record `r`.
pub open spec fn without_record(ids: Seq<RecordId>, r: RecordId) -> Seq<RecordId>
    decreases ids.len(),
{
    if ids.len() == 0 {
        ids
    } else if same_record(ids.last(), r) {
        without_record(ids.drop_last(), r)
    } else {
        without_record(ids.drop_last(), r).push(ids.last())
    }
}

/// Flips the selection of `id`: removes every entry that designates it if
/// it is selected, else appends it.
pub fn toggle_member(selected: &mut Vec<RecordId>, id: RecordId)
    ensures
        final(selected)@ == (if lists_record(old(selected)@, id) {
            without_record(old(selected)@, id)
        } else {
            old(selected)@.push(id)
        }),
{
    if !lists(selected, &id) {
        selected.push(id);
        return;
    }
    let ghost s = selected@;
    let mut kept: Vec<RecordId> = Vec::new();
    let mut i: usize = 0;
    while i < selected.len()
        invariant
            i <= selected@.len(),
            selected@ == s,
            kept@ == without_record(s.subrange(0, i as int), id),
        decreases selected@.len() - i,
    {
        assert(s.subrange(0, i + 1).drop_last() =~= s.subrange(0, i as int));
        if !selected[i].refers_to(&id) {
            kept.push(selected[i].copy());
        }
        i = i + 1;
    }
    assert(s.subrange(0, s.len() as int) =~= s);
    *selected = kept;
}

} // verus!
