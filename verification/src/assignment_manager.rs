//! A table of roles and of which assignee holds which role: roles are
//! added and removed, assignees are given a role, moved to another one or
//! let go.
use vstd::prelude::*;
use crate::keyed::{
    as_map, has_key, keys_distinct, lemma_as_map_index, lemma_as_map_push, lemma_as_map_remove,
    lemma_as_map_set, lookup, position, Key,
};

verus! {

/// Something that carries an identifier of type `I`.
pub trait Identity<I> {
    /// The identifier.
    spec fn identity(&self) -> I;

    /// Reads the identifier.
    fn id(&self) -> (i: I)
        ensures
            i == self.identity(),
    ;
}

/// The record that an assignee holds a role.
#[derive(Clone, Copy, Debug)]
pub struct RoleAssignment<I, J> {
    assignee: I,
    assigned_role: J,
}

impl<I: Copy, J: Copy> RoleAssignment<I, J> {
    /// The assignee this record is about.
    pub closed spec fn holder(&self) -> I {
        self.assignee
    }

    /// The role it holds.
    pub closed spec fn role(&self) -> J {
        self.assigned_role
    }

    /// The assignee this record is about.
    pub fn assignee(&self) -> (i: I)
        ensures
            i == self.holder(),
    {
        self.assignee
    }

    /// The role it holds.
    pub fn assigned_role(&self) -> (j: J)
        ensures
            j == self.role(),
    {
        self.assigned_role
    }
}

/// Why a request to the table was refused.
#[derive(Debug)]
pub enum AssignmentError<A, R, I, J> {
    /// The assignee already holds a role; the assignee and its current record come back.
    AlreadyAssigned(A, RoleAssignment<I, J>),
    /// No record for this assignee.
    NotAssignedHere(I),
    /// A role with the same identifier is on file; the refused role comes back.
    RoleAlreadyExists(R),
    /// No role with this identifier.
    RoleDoesntExist(J),
}

/// Roles by identifier, assignees by identifier, and who holds which role.
pub struct AssignmentManager<A, R, I, J> {
    assignees: Vec<(I, A)>,
    roles: Vec<(J, R)>,
    assignments: Vec<(I, J)>,
}

/// How many entries of an assignment table hold role `j`.
pub open spec fn count_with_role<I, J>(s: Seq<(I, J)>, j: J) -> nat
    decreases s.len(),
{
    if s.len() == 0 {
        0
    } else {
        count_with_role(s.drop_last(), j) + if s.last().1 == j { 1nat } else { 0nat }
    }
}

/// For each entry of an assignment table, in order, whose assignee and role
/// are both on file: the assignee and the role.
pub open spec fn paired<I, J, A, R>(assignees: Map<I, A>, roles: Map<J, R>, s: Seq<(I, J)>) -> Seq<(A, R)>
    decreases s.len(),
{
    if s.len() == 0 {
        Seq::empty()
    } else {
        let rest = paired(assignees, roles, s.drop_last());
        let e = s.last();
        if assignees.dom().contains(e.0) && roles.dom().contains(e.1) {
            rest.push((assignees[e.0], roles[e.1]))
        } else {
            rest
        }
    }
}

impl<A: Identity<I>, R: Identity<J>, I: Key, J: Key> AssignmentManager<A, R, I, J> {
    /// The assignees on file, in the order they were filed.
    pub closed spec fn assignee_table(&self) -> Seq<(I, A)> {
        self.assignees@
    }

    /// The roles on file, in the order they were filed.
    pub closed spec fn role_table(&self) -> Seq<(J, R)> {
        self.roles@
    }

    /// Who holds which role, in the order the records were made.
    pub closed spec fn assignment_table(&self) -> Seq<(I, J)> {
        self.assignments@
    }

    /// The assignees on file by identifier.
    pub open spec fn assignees_view(&self) -> Map<I, A> {
        as_map(self.assignee_table())
    }

    /// The roles on file by identifier.
    pub open spec fn roles_view(&self) -> Map<J, R> {
        as_map(self.role_table())
    }

    /// The role each assignee holds.
    pub open spec fn assignments_view(&self) -> Map<I, J> {
        as_map(self.assignment_table())
    }

    /// Each table names an entry once, each role is filed under its own
    /// identifier, and every record names a role on file.
    pub closed spec fn wf(&self) -> bool {
        &&& keys_distinct(self.assignees@)
        &&& keys_distinct(self.roles@)
        &&& keys_distinct(self.assignments@)
        &&& forall|k: int| 0 <= k < self.roles@.len() ==> (#[trigger] self.roles@[k]).1.identity() == self.roles@[k].0
        &&& forall|k: int| 0 <= k < self.assignments@.len() ==> has_key(self.roles@, (#[trigger] self.assignments@[k]).1)
    }

    /// Every role is filed under its own identifier, and every assignee holds a
    /// role that is on file.
    pub proof fn lemma_consistent(&self)
        requires
            self.wf(),
        ensures
            forall|j: J| #[trigger] self.roles_view().dom().contains(j) ==> self.roles_view()[j].identity() == j,
            forall|i: I| #[trigger] self.assignments_view().dom().contains(i) ==> self.roles_view().dom().contains(self.assignments_view()[i]),
    {
        assert forall|j: J| #[trigger] self.roles_view().dom().contains(j) implies self.roles_view()[j].identity() == j by {
            let k = choose|k: int| 0 <= k < self.roles@.len() && #[trigger] self.roles@[k].0 == j;
            lemma_as_map_index(self.roles@, k);
            assert(self.roles@[k].1.identity() == self.roles@[k].0);
        }
        assert forall|i: I| #[trigger] self.assignments_view().dom().contains(i) implies self.roles_view().dom().contains(self.assignments_view()[i]) by {
            let k = choose|k: int| 0 <= k < self.assignments@.len() && #[trigger] self.assignments@[k].0 == i;
            lemma_as_map_index(self.assignments@, k);
            assert(has_key(self.roles@, self.assignments@[k].1));
        }
    }

    /// The role at position `k` of the role table is filed under its own
    /// identifier.
    pub proof fn lemma_role_filed(&self, k: int)
        requires
            self.wf(),
            0 <= k < self.role_table().len(),
        ensures
            self.role_table()[k].1.identity() == self.role_table()[k].0,
    {
    }

    /// No table names an entry twice.
    pub proof fn lemma_tables_distinct(&self)
        requires
            self.wf(),
        ensures
            keys_distinct(self.assignee_table()),
            keys_distinct(self.role_table()),
            keys_distinct(self.assignment_table()),
    {
    }

    /// The assignment table fits in memory.
    pub proof fn lemma_assignment_table_fits(&self)
        ensures
            self.assignment_table().len() <= usize::MAX,
    {
        assert(self.assignments.len() == self.assignments@.len());
    }

    /// Gives `assignee` the role `role`. Refused when no role with that
    /// identifier is on file, or when the assignee already holds a role. The
    /// assignee itself is not filed: only the record is made.
    pub fn assign(&mut self, assignee: A, role: &R) -> (r: Result<(), AssignmentError<A, R, I, J>>)
        requires
            old(self).wf(),
        ensures
            final(self).wf(),
            r is Ok <==> old(self).roles_view().dom().contains(role.identity())
                && !old(self).assignments_view().dom().contains(assignee.identity()),
            !old(self).roles_view().dom().contains(role.identity())
                ==> r == Err::<(), AssignmentError<A, R, I, J>>(AssignmentError::RoleDoesntExist(role.identity())),
            old(self).roles_view().dom().contains(role.identity())
                && old(self).assignments_view().dom().contains(assignee.identity())
                ==> (r matches Err(AssignmentError::AlreadyAssigned(a, held)) && a == assignee
                    && held.holder() == assignee.identity()
                    && held.role() == old(self).assignments_view()[assignee.identity()]),
            r is Ok ==> final(self).assignments_view() == old(self).assignments_view().insert(assignee.identity(), role.identity())
                && final(self).roles_view() == old(self).roles_view()
                && final(self).assignees_view() == old(self).assignees_view(),
            r is Err ==> *final(self) == *old(self),
            final(self).role_table() == old(self).role_table(),
    {
        let rid = role.id();
        match position(&self.roles, &rid) {
            None => Err(AssignmentError::RoleDoesntExist(role.id())),
            Some(ri) => {
                let aid = assignee.id();
                match position(&self.assignments, &aid) {
                    Some(ai) => {
                        proof { lemma_as_map_index(self.assignments@, ai as int); }
                        let held = RoleAssignment { assignee: aid, assigned_role: self.assignments[ai].1 };
                        Err(AssignmentError::AlreadyAssigned(assignee, held))
                    },
                    None => {
                        let stored = self.roles[ri].0;
                        proof {
                            lemma_as_map_push(self.assignments@, aid, stored);
                            assert(has_key(self.roles@, stored));
                        }
                        self.assignments.push((aid, stored));
                        proof {
                            let n = self.assignments@.len() - 1;
                            assert forall|k: int| 0 <= k < self.assignments@.len() implies has_key(self.roles@, (#[trigger] self.assignments@[k]).1) by {
                                if k < n {
                                    assert(self.assignments@[k] == old(self).assignments@[k]);
                                }
                            }
                        }
                        Ok(())
                    },
                }
            },
        }
    }

    /// The assignee filed under `assignee_id`.
    pub fn get_assignee(&self, assignee_id: I) -> (r: Result<&A, AssignmentError<A, R, I, J>>)
        requires
            self.wf(),
        ensures
            self.assignees_view().dom().contains(assignee_id) ==> (r matches Ok(a) && *a == self.assignees_view()[assignee_id]),
            !self.assignees_view().dom().contains(assignee_id)
                ==> r == Err::<&A, AssignmentError<A, R, I, J>>(AssignmentError::NotAssignedHere(assignee_id)),
    {
        match position(&self.assignees, &assignee_id) {
            Some(i) => {
                proof { lemma_as_map_index(self.assignees@, i as int); }
                Ok(&self.assignees[i].1)
            },
            None => Err(AssignmentError::NotAssignedHere(assignee_id)),
        }
    }

    /// Replaces the assignee filed under `assignee_id`; refused when none is.
    pub fn update_assignee(&mut self, assignee_id: I, updated_assignee: A) -> (r: Result<(), AssignmentError<A, R, I, J>>)
        requires
            old(self).wf(),
        ensures
            final(self).wf(),
            r is Ok <==> old(self).assignees_view().dom().contains(assignee_id),
            r is Ok ==> final(self).assignees_view() == old(self).assignees_view().insert(assignee_id, updated_assignee)
                && final(self).roles_view() == old(self).roles_view()
                && final(self).assignments_view() == old(self).assignments_view(),
            r is Err ==> r == Err::<(), AssignmentError<A, R, I, J>>(AssignmentError::NotAssignedHere(assignee_id))
                && *final(self) == *old(self),
            final(self).role_table() == old(self).role_table(),
    {
        match position(&self.assignees, &assignee_id) {
            Some(i) => {
                proof { lemma_as_map_set(self.assignees@, i as int, updated_assignee); }
                self.assignees.set(i, (assignee_id, updated_assignee));
                Ok(())
            },
            None => Err(AssignmentError::NotAssignedHere(assignee_id)),
        }
    }

    /// Takes away the role `assignee_id` holds and hands back the record;
    /// refused when it holds none.
    pub fn unassign(&mut self, assignee_id: I) -> (r: Result<RoleAssignment<I, J>, AssignmentError<A, R, I, J>>)
        requires
            old(self).wf(),
        ensures
            final(self).wf(),
            r is Ok <==> old(self).assignments_view().dom().contains(assignee_id),
            r matches Ok(held) ==> held.holder() == assignee_id
                && held.role() == old(self).assignments_view()[assignee_id]
                && final(self).assignments_view() == old(self).assignments_view().remove(assignee_id)
                && final(self).roles_view() == old(self).roles_view()
                && final(self).assignees_view() == old(self).assignees_view(),
            r is Err ==> r == Err::<RoleAssignment<I, J>, AssignmentError<A, R, I, J>>(AssignmentError::NotAssignedHere(assignee_id))
                && *final(self) == *old(self),
            final(self).role_table() == old(self).role_table(),
    {
        match position(&self.assignments, &assignee_id) {
            Some(i) => {
                proof {
                    lemma_as_map_index(self.assignments@, i as int);
                    lemma_as_map_remove(self.assignments@, i as int);
                }
                let (aid, rid) = self.assignments.remove(i);
                proof {
                    assert forall|k: int| 0 <= k < self.assignments@.len() implies has_key(self.roles@, (#[trigger] self.assignments@[k]).1) by {
                        let o = if k < i { k } else { k + 1 };
                        assert(self.assignments@[k] == old(self).assignments@[o]);
                    }
                }
                Ok(RoleAssignment { assignee: aid, assigned_role: rid })
            },
            None => Err(AssignmentError::NotAssignedHere(assignee_id)),
        }
    }

    /// Files a new role under its identifier; refused, handing the role back,
    /// when one with that identifier is on file.
    pub fn add_role(&mut self, role: R) -> (r: Result<(), AssignmentError<A, R, I, J>>)
        requires
            old(self).wf(),
        ensures
            final(self).wf(),
            r is Ok <==> !old(self).roles_view().dom().contains(role.identity()),
            r is Ok ==> final(self).roles_view() == old(self).roles_view().insert(role.identity(), role)
                && final(self).assignments_view() == old(self).assignments_view()
                && final(self).assignees_view() == old(self).assignees_view(),
            r is Err ==> r == Err::<(), AssignmentError<A, R, I, J>>(AssignmentError::RoleAlreadyExists(role))
                && *final(self) == *old(self),
            r is Ok ==> final(self).role_table() == old(self).role_table().push((role.identity(), role)),
    {
        let rid = role.id();
        match position(&self.roles, &rid) {
            Some(_) => Err(AssignmentError::RoleAlreadyExists(role)),
            None => {
                proof { lemma_as_map_push(self.roles@, rid, role); }
                self.roles.push((rid, role));
                proof {
                    let n = self.roles@.len() - 1;
                    assert forall|k: int| 0 <= k < self.roles@.len() implies (#[trigger] self.roles@[k]).1.identity() == self.roles@[k].0 by {
                        if k < n {
                            assert(self.roles@[k] == old(self).roles@[k]);
                        }
                    }
                    assert forall|k: int| 0 <= k < self.assignments@.len() implies has_key(self.roles@, (#[trigger] self.assignments@[k]).1) by {
                        let j = self.assignments@[k].1;
                        assert(has_key(old(self).roles@, j));
                        let m = choose|m: int| 0 <= m < old(self).roles@.len() && #[trigger] old(self).roles@[m].0 == j;
                        assert(self.roles@[m] == old(self).roles@[m]);
                    }
                }
                Ok(())
            },
        }
    }

    /// The role `assignee_id` holds; refused when it holds none.
    pub fn get_assignment(&self, assignee_id: I) -> (r: Result<&R, AssignmentError<A, R, I, J>>)
        requires
            self.wf(),
        ensures
            self.assignments_view().dom().contains(assignee_id)
                ==> (r matches Ok(role) && *role == self.roles_view()[self.assignments_view()[assignee_id]]),
            !self.assignments_view().dom().contains(assignee_id)
                ==> r == Err::<&R, AssignmentError<A, R, I, J>>(AssignmentError::NotAssignedHere(assignee_id)),
    {
        match position(&self.assignments, &assignee_id) {
            None => Err(AssignmentError::NotAssignedHere(assignee_id)),
            Some(i) => {
                proof { lemma_as_map_index(self.assignments@, i as int); }
                let rid = self.assignments[i].1;
                match position(&self.roles, &rid) {
                    Some(k) => {
                        proof { lemma_as_map_index(self.roles@, k as int); }
                        Ok(&self.roles[k].1)
                    },
                    None => Err(AssignmentError::RoleDoesntExist(rid)),
                }
            },
        }
    }

    /// Moves `assignee_id` to the role `new_role`. Refused when it holds no
    /// role; when no role with that identifier is on file it is refused too,
    /// and the assignee is left without a role.
    pub fn change_assignment(&mut self, assignee_id: I, new_role: R) -> (r: Result<(), AssignmentError<A, R, I, J>>)
        requires
            old(self).wf(),
        ensures
            final(self).wf(),
            final(self).roles_view() == old(self).roles_view(),
            final(self).assignees_view() == old(self).assignees_view(),
            r is Ok <==> old(self).assignments_view().dom().contains(assignee_id)
                && old(self).roles_view().dom().contains(new_role.identity()),
            !old(self).assignments_view().dom().contains(assignee_id)
                ==> r == Err::<(), AssignmentError<A, R, I, J>>(AssignmentError::NotAssignedHere(assignee_id))
                && *final(self) == *old(self),
            old(self).assignments_view().dom().contains(assignee_id) && !old(self).roles_view().dom().contains(new_role.identity())
                ==> r == Err::<(), AssignmentError<A, R, I, J>>(AssignmentError::RoleDoesntExist(new_role.identity()))
                && final(self).assignments_view() == old(self).assignments_view().remove(assignee_id),
            r is Ok ==> final(self).assignments_view() == old(self).assignments_view().insert(assignee_id, new_role.identity()),
    {
        let new_id = new_role.id();
        match position(&self.assignments, &assignee_id) {
            None => {
                return Err(AssignmentError::NotAssignedHere(assignee_id));
            },
            Some(i) => {
                proof { lemma_as_map_remove(self.assignments@, i as int); }
                self.assignments.remove(i);
                proof {
                    assert forall|k: int| 0 <= k < self.assignments@.len() implies has_key(self.roles@, (#[trigger] self.assignments@[k]).1) by {
                        let o = if k < i { k } else { k + 1 };
                        assert(self.assignments@[k] == old(self).assignments@[o]);
                    }
                }
            },
        }
        match position(&self.roles, &new_id) {
            None => Err(AssignmentError::RoleDoesntExist(new_role.id())),
            Some(_) => {
                proof {
                    assert(!self.assignments_view().dom().contains(assignee_id));
                    lemma_as_map_push(self.assignments@, assignee_id, new_id);
                }
                let ghost before = self.assignments@;
                self.assignments.push((assignee_id, new_id));
                proof {
                    assert(old(self).assignments_view().remove(assignee_id).insert(assignee_id, new_id)
                        =~= old(self).assignments_view().insert(assignee_id, new_id));
                    assert forall|k: int| 0 <= k < self.assignments@.len() implies has_key(self.roles@, (#[trigger] self.assignments@[k]).1) by {
                        if k < before.len() {
                            assert(self.assignments@[k] == before[k]);
                        }
                    }
                }
                Ok(())
            },
        }
    }

    /// Removes the role `role_id` and takes it away from everyone who held it;
    /// hands back those assignees. Refused when no such role is on file.
    pub fn remove_role(&mut self, role_id: J) -> (r: Result<Vec<I>, AssignmentError<A, R, I, J>>)
        requires
            old(self).wf(),
        ensures
            final(self).wf(),
            r is Ok <==> old(self).roles_view().dom().contains(role_id),
            r is Err ==> r == Err::<Vec<I>, AssignmentError<A, R, I, J>>(AssignmentError::RoleDoesntExist(role_id))
                && *final(self) == *old(self),
            r matches Ok(had) ==> had@.no_duplicates()
                && (forall|i: I| #[trigger] had@.contains(i) <==> old(self).assignments_view().dom().contains(i)
                    && old(self).assignments_view()[i] == role_id)
                && final(self).roles_view() == old(self).roles_view().remove(role_id)
                && final(self).assignments_view() == old(self).assignments_view().remove_keys(had@.to_set())
                && final(self).assignees_view() == old(self).assignees_view(),
            forall|m: int| 0 <= m < final(self).role_table().len() ==> old(self).role_table().contains(#[trigger] final(self).role_table()[m]),
    {
        let k = match position(&self.roles, &role_id) {
            None => {
                return Err(AssignmentError::RoleDoesntExist(role_id));
            },
            Some(k) => k,
        };
        proof { lemma_as_map_remove(self.roles@, k as int); }
        self.roles.remove(k);
        let ghost old_map = old(self).assignments_view();
        let mut had: Vec<I> = Vec::new();
        let mut i: usize = 0;
        while i < self.assignments.len()
            invariant
                keys_distinct(self.assignments@),
                keys_distinct(self.roles@),
                self.roles@ == old(self).roles@.remove(k as int),
                self.assignees@ == old(self).assignees@,
                as_map(self.roles@) == old(self).roles_view().remove(role_id),
                0 <= k < old(self).roles@.len(),
                old(self).roles@[k as int].0 == role_id,
                keys_distinct(old(self).roles@),
                i <= self.assignments@.len(),
                old_map == old(self).assignments_view(),
                as_map(self.assignments@) == old_map.remove_keys(had@.to_set()),
                had@.no_duplicates(),
                forall|x: I| #[trigger] had@.contains(x) ==> old_map.dom().contains(x) && old_map[x] == role_id,
                forall|m: int| 0 <= m < i ==> (#[trigger] self.assignments@[m]).1 != role_id,
                forall|m: int| 0 <= m < self.assignments@.len() ==> has_key(old(self).roles@, (#[trigger] self.assignments@[m]).1),
            decreases self.assignments@.len() - i,
        {
            if self.assignments[i].1.same_key(&role_id) {
                let x = self.assignments[i].0;
                proof {
                    lemma_as_map_index(self.assignments@, i as int);
                    lemma_as_map_remove(self.assignments@, i as int);
                    assert(!had@.contains(x));
                }
                let ghost before = self.assignments@;
                let ghost prev_had = had@;
                self.assignments.remove(i);
                had.push(x);
                proof {
                    assert(had@.drop_last() =~= prev_had);
                    assert(as_map(before).dom().contains(x) && as_map(before)[x] == role_id);
                    assert(old_map.dom().contains(x) && old_map[x] == role_id);
                    assert(had@.to_set() =~= had@.drop_last().to_set().insert(x)) by {
                        assert forall|y: I| had@.contains(y) <==> (had@.drop_last().contains(y) || y == x) by {
                            if had@.contains(y) && y != x {
                                let w = choose|w: int| 0 <= w < had@.len() && had@[w] == y;
                                assert(had@.drop_last()[w] == y);
                            }
                            if had@.drop_last().contains(y) {
                                let w = choose|w: int| 0 <= w < had@.len() - 1 && had@.drop_last()[w] == y;
                                assert(had@[w] == y);
                            }
                            if y == x {
                                assert(had@[had@.len() - 1] == x);
                            }
                        }
                    }
                    assert(old_map.remove_keys(had@.drop_last().to_set()).remove(x)
                        =~= old_map.remove_keys(had@.to_set()));
                    assert forall|m: int| 0 <= m < i implies (#[trigger] self.assignments@[m]).1 != role_id by {
                        assert(self.assignments@[m] == before[m]);
                    }
                    assert forall|m: int| 0 <= m < self.assignments@.len() implies has_key(old(self).roles@, (#[trigger] self.assignments@[m]).1) by {
                        let o = if m < i { m } else { m + 1 };
                        assert(self.assignments@[m] == before[o]);
                    }
                    assert forall|y: I| #[trigger] had@.contains(y) implies old_map.dom().contains(y) && old_map[y] == role_id by {
                        if y != x {
                            assert(had@.drop_last().contains(y)) by {
                                let w = choose|w: int| 0 <= w < had@.len() && had@[w] == y;
                                assert(had@.drop_last()[w] == y);
                            }
                        }
                    }
                }
            } else {
                i = i + 1;
            }
        }
        proof {
            assert forall|x: I| #[trigger] had@.contains(x) <==> old_map.dom().contains(x) && old_map[x] == role_id by {
                if old_map.dom().contains(x) && old_map[x] == role_id && !had@.contains(x) {
                    assert(as_map(self.assignments@).dom().contains(x));
                    let m = choose|m: int| 0 <= m < self.assignments@.len() && #[trigger] self.assignments@[m].0 == x;
                    lemma_as_map_index(self.assignments@, m);
                }
            }
            assert forall|m: int| 0 <= m < self.roles@.len() implies (#[trigger] self.roles@[m]).1.identity() == self.roles@[m].0
                && old(self).roles@.contains(self.roles@[m]) by {
                let o = if m < k { m } else { m + 1 };
                assert(self.roles@[m] == old(self).roles@[o]);
            }
            assert forall|m: int| 0 <= m < self.assignments@.len() implies has_key(self.roles@, (#[trigger] self.assignments@[m]).1) by {
                let j = self.assignments@[m].1;
                assert(has_key(old(self).roles@, j));
                let o = choose|o: int| 0 <= o < old(self).roles@.len() && #[trigger] old(self).roles@[o].0 == j;
                assert(o != k);
                let n = if o < k { o } else { o - 1 };
                assert(self.roles@[n] == old(self).roles@[o]);
            }
        }
        Ok(had)
    }

    /// How many records name role `j`.
    fn holders_count(&self, j: &J) -> (n: usize)
        requires
            self.wf(),
        ensures
            n == count_with_role(self.assignments@, *j),
    {
        let mut n: usize = 0;
        let mut m: usize = 0;
        while m < self.assignments.len()
            invariant
                m <= self.assignments@.len(),
                n == count_with_role(self.assignments@.subrange(0, m as int), *j),
                n <= m,
            decreases self.assignments@.len() - m,
        {
            proof {
                assert(self.assignments@.subrange(0, m as int + 1).drop_last() =~= self.assignments@.subrange(0, m as int));
            }
            if self.assignments[m].1.same_key(j) {
                n = n + 1;
            }
            m = m + 1;
        }
        proof {
            assert(self.assignments@.subrange(0, m as int) =~= self.assignments@);
        }
        n
    }

    /// For each role on file, in the order of the role table, the role and
    /// how many assignees hold it.
    pub fn count_assignments(&self) -> (r: Vec<(&R, usize)>)
        requires
            self.wf(),
        ensures
            r@.len() == self.role_table().len(),
            forall|k: int| 0 <= k < r@.len() ==> *(#[trigger] r@[k]).0 == self.role_table()[k].1
                && r@[k].1 == count_with_role(self.assignment_table(), self.role_table()[k].0),
    {
        let mut r: Vec<(&R, usize)> = Vec::new();
        let mut k: usize = 0;
        while k < self.roles.len()
            invariant
                self.wf(),
                k <= self.roles@.len(),
                r@.len() == k,
                forall|m: int| 0 <= m < k ==> *(#[trigger] r@[m]).0 == self.roles@[m].1
                    && r@[m].1 == count_with_role(self.assignments@, self.roles@[m].0),
            decreases self.roles@.len() - k,
        {
            let n = self.holders_count(&self.roles[k].0);
            r.push((&self.roles[k].1, n));
            k = k + 1;
        }
        r
    }

    /// For each record, in order, whose assignee and role are both on file:
    /// the assignee and the role.
    pub fn iter(&self) -> (r: Vec<(&A, &R)>)
        requires
            self.wf(),
        ensures
            r@.len() == paired(self.assignees_view(), self.roles_view(), self.assignment_table()).len(),
            forall|k: int| 0 <= k < r@.len() ==> *(#[trigger] r@[k]).0 == paired(self.assignees_view(), self.roles_view(), self.assignment_table())[k].0
                && *r@[k].1 == paired(self.assignees_view(), self.roles_view(), self.assignment_table())[k].1,
    {
        let ghost av = self.assignees_view();
        let ghost rv = self.roles_view();
        let mut r: Vec<(&A, &R)> = Vec::new();
        let mut m: usize = 0;
        while m < self.assignments.len()
            invariant
                self.wf(),
                av == self.assignees_view(),
                rv == self.roles_view(),
                m <= self.assignments@.len(),
                r@.len() == paired(av, rv, self.assignments@.subrange(0, m as int)).len(),
                forall|k: int| 0 <= k < r@.len() ==> *(#[trigger] r@[k]).0 == paired(av, rv, self.assignments@.subrange(0, m as int))[k].0
                    && *r@[k].1 == paired(av, rv, self.assignments@.subrange(0, m as int))[k].1,
            decreases self.assignments@.len() - m,
        {
            let ghost before = self.assignments@.subrange(0, m as int);
            let ghost after = self.assignments@.subrange(0, m as int + 1);
            proof {
                assert(after.drop_last() =~= before);
                assert(after.last() == self.assignments@[m as int]);
            }
            let aid = self.assignments[m].0;
            let rid = self.assignments[m].1;
            match (position(&self.assignees, &aid), position(&self.roles, &rid)) {
                (Some(p), Some(q)) => {
                    proof {
                        lemma_as_map_index(self.assignees@, p as int);
                        lemma_as_map_index(self.roles@, q as int);
                    }
                    r.push((&self.assignees[p].1, &self.roles[q].1));
                },
                _ => {},
            }
            m = m + 1;
        }
        proof {
            assert(self.assignments@.subrange(0, m as int) =~= self.assignments@);
        }
        r
    }

    /// The roles on file, in the order of the role table.
    pub fn iter_roles(&self) -> (r: Vec<&R>)
        requires
            self.wf(),
        ensures
            r@.len() == self.role_table().len(),
            forall|k: int| 0 <= k < r@.len() ==> *(#[trigger] r@[k]) == self.role_table()[k].1,
    {
        let mut r: Vec<&R> = Vec::new();
        let mut k: usize = 0;
        while k < self.roles.len()
            invariant
                k <= self.roles@.len(),
                r@.len() == k,
                forall|m: int| 0 <= m < k ==> *(#[trigger] r@[m]) == self.roles@[m].1,
            decreases self.roles@.len() - k,
        {
            r.push(&self.roles[k].1);
            k = k + 1;
        }
        r
    }

    /// The assignees on file, in the order of the assignee table.
    pub fn iter_assignees(&self) -> (r: Vec<&A>)
        requires
            self.wf(),
        ensures
            r@.len() == self.assignee_table().len(),
            forall|k: int| 0 <= k < r@.len() ==> *(#[trigger] r@[k]) == self.assignee_table()[k].1,
    {
        let mut r: Vec<&A> = Vec::new();
        let mut k: usize = 0;
        while k < self.assignees.len()
            invariant
                k <= self.assignees@.len(),
                r@.len() == k,
                forall|m: int| 0 <= m < k ==> *(#[trigger] r@[m]) == self.assignees@[m].1,
            decreases self.assignees@.len() - k,
        {
            r.push(&self.assignees[k].1);
            k = k + 1;
        }
        r
    }

    /// The identifiers of the roles on file, in the order of the role table.
    pub fn get_role_ids(&self) -> (r: Vec<J>)
        requires
            self.wf(),
        ensures
            r@.len() == self.role_table().len(),
            forall|k: int| 0 <= k < r@.len() ==> #[trigger] r@[k] == self.role_table()[k].0,
            forall|j: J| #[trigger] r@.contains(j) <==> self.roles_view().dom().contains(j),
            r@.no_duplicates(),
    {
        let mut r: Vec<J> = Vec::new();
        let mut k: usize = 0;
        while k < self.roles.len()
            invariant
                k <= self.roles@.len(),
                r@.len() == k,
                forall|m: int| 0 <= m < k ==> #[trigger] r@[m] == self.roles@[m].0,
            decreases self.roles@.len() - k,
        {
            r.push(self.roles[k].0);
            k = k + 1;
        }
        proof {
            assert forall|j: J| #[trigger] r@.contains(j) <==> self.roles_view().dom().contains(j) by {
                if r@.contains(j) {
                    let m = choose|m: int| 0 <= m < r@.len() && r@[m] == j;
                    assert(self.roles@[m].0 == j);
                }
                if self.roles_view().dom().contains(j) {
                    let m = choose|m: int| 0 <= m < self.roles@.len() && #[trigger] self.roles@[m].0 == j;
                    assert(r@[m] == j);
                }
            }
            assert forall|a: int, b: int| 0 <= a < r@.len() && 0 <= b < r@.len() && a != b implies r@[a] != r@[b] by {
                assert(r@[a] == self.roles@[a].0 && r@[b] == self.roles@[b].0);
            }
        }
        r
    }
}

impl<A: Identity<I>, R: Identity<J>, I: Key, J: Key> Default for AssignmentManager<A, R, I, J> {
    /// An empty table.
    fn default() -> (m: Self)
        ensures
            m.wf(),
            m.assignees_view() == Map::<I, A>::empty(),
            m.roles_view() == Map::<J, R>::empty(),
            m.assignments_view() == Map::<I, J>::empty(),
    {
        let m = AssignmentManager { assignees: Vec::new(), roles: Vec::new(), assignments: Vec::new() };
        proof {
            assert(m.assignees_view() =~= Map::<I, A>::empty());
            assert(m.roles_view() =~= Map::<J, R>::empty());
            assert(m.assignments_view() =~= Map::<I, J>::empty());
        }
        m
    }
}

/// A controller that reads fresh data about its peons, files the updates
/// and then has a command for each of them.
pub trait Commands<C, A, I, D> {
    /// The controller's own consistency, which each step keeps.
    spec fn commands_ready(&self) -> bool;

    /// The updated peons, read off `data`.
    fn get_peon_updates(&mut self, data: &D) -> (updates: Vec<A>)
        requires
            old(self).commands_ready(),
        ensures
            final(self).commands_ready(),
    ;

    /// Files the updated peons.
    fn apply_peon_updates(&mut self, updates: Vec<A>)
        requires
            old(self).commands_ready(),
        ensures
            final(self).commands_ready(),
    ;

    /// A command for each peon.
    fn issue_commands(&self) -> Vec<(I, C)>
        requires
            self.commands_ready(),
    ;
}

/// Why a command could not be issued. No controller refuses a command yet,
/// so the one variant carries no reason.
#[derive(Debug)]
pub enum CommandError {
    /// The command was not issued.
    NotIssued,
}


/// Taking away a role just given leaves the records as they were before it
/// was given.
pub proof fn law_unassign_undoes_assign<I, J>(before: Map<I, J>, assignee: I, role: J)
    requires
        !before.dom().contains(assignee),
    ensures
        before.insert(assignee, role).remove(assignee) == before,
{
    assert(before.insert(assignee, role).remove(assignee) =~= before);
}

/// Once a role is removed together with everyone who held it, no record
/// names it.
pub proof fn law_removed_role_unheld<I, J>(before: Map<I, J>, role: J, had: Set<I>)
    requires
        forall|i: I| #[trigger] had.contains(i) <==> before.dom().contains(i) && before[i] == role,
    ensures
        forall|i: I| #[trigger] before.remove_keys(had).dom().contains(i) ==> before.remove_keys(had)[i] != role,
{
}

/// What a read gives back of a write: once an assignee is given a role, the
/// role looked up for it is the one filed under that role's identifier.
pub proof fn law_assignment_read_back<I, J, R>(roles: Map<J, R>, before: Map<I, J>, assignee: I, role: J)
    requires
        roles.dom().contains(role),
    ensures
        before.insert(assignee, role).dom().contains(assignee),
        roles.dom().contains(before.insert(assignee, role)[assignee]),
        roles[before.insert(assignee, role)[assignee]] == roles[role],
{
}

} // verus!
