//! The roster store: the aggregate that owns every department and every
//! person, keeps both alias indices sorted, assigns numeric identifiers,
//! and mediates all cross-entity operations so the invariants are never
//! bypassed.
//!
//! The store's invariant ties everything together: alias indices are
//! strictly sorted and point into the arenas, each department's roster
//! is sorted, every roster entry names the person it refers to, every
//! person is listed in exactly the department they point at, and each
//! person's history ends with their current assignment.

use vstd::prelude::*;
use crate::date::{Date, today};
use crate::lex::{lex_lt, lemma_lex_total, lemma_lex_trans};
use crate::personnel::{Person, PersonError, TransferErr, DeptEntry};
use crate::department::{
    Department,
    DeptErr,
    roster_has_key,
    roster_has_person,
    roster_removed_key,
    roster_inserted,
    roster_sorted,
    roster_members,
    entry_key_matches,
    lemma_roster_key_unique,
    lemma_members_insert,
    lemma_members_remove,
};

verus! {

pub type Result<T> = core::result::Result<T, DataError>;

/// A department's alias entry: the unique short name chosen by the
/// caller, and the department's index in the store's arena. Entries
/// order by their alias.
#[derive(Debug, PartialEq, Eq, PartialOrd, Ord)]
pub struct DepartmentAlias {
    pub alias: String,
    pub pointer: u32,
}

impl DepartmentAlias {
    pub fn new(alias: &str, pointer: u32) -> (r: Self)
        ensures
            r.alias@ == alias@,
            r.pointer == pointer,
    {
        DepartmentAlias { alias: alias.to_owned(), pointer }
    }

    /// A copy of the handle this alias resolves to.
    pub fn clone_pointer(&self) -> (r: u32)
        ensures
            r == self.pointer,
    {
        self.pointer
    }

    pub fn borrow_pointer(&self) -> (r: &u32)
        ensures
            *r == self.pointer,
    {
        &self.pointer
    }

    pub fn alias(&self) -> (r: &String)
        ensures
            *r == self.alias,
    {
        &self.alias
    }
}

/// A person's alias entry: the unique short name chosen by the caller,
/// and the person's index in the store's arena.
#[derive(Debug)]
pub struct PersonAlias {
    pub alias: String,
    pub pointer: u32,
}

impl PersonAlias {
    pub fn new(alias: &str, pointer: u32) -> (r: Self)
        ensures
            r.alias@ == alias@,
            r.pointer == pointer,
    {
        PersonAlias { alias: alias.to_owned(), pointer }
    }

    pub fn alias(&self) -> (r: &String)
        ensures
            *r == self.alias,
    {
        &self.alias
    }

    pub fn pointer(&self) -> (r: u32)
        ensures
            r == self.pointer,
    {
        self.pointer
    }
}

/// The department alias index is strictly sorted by alias.
pub open spec fn dept_aliases_sorted(s: Seq<DepartmentAlias>) -> bool {
    forall|i: int, j: int|
        0 <= i < j < s.len() ==> lex_lt((#[trigger] s[i]).alias@, (#[trigger] s[j]).alias@)
}

/// Some department alias entry carries this alias.
pub open spec fn dept_has_alias(s: Seq<DepartmentAlias>, a: Seq<char>) -> bool {
    exists|i: int| 0 <= i < s.len() && (#[trigger] s[i]).alias@ == a
}

/// The index of the entry carrying this alias (meaningful when the
/// alias is present: a strictly sorted index holds it at most once).
pub open spec fn dept_alias_index(s: Seq<DepartmentAlias>, a: Seq<char>) -> int {
    choose|i: int| 0 <= i < s.len() && (#[trigger] s[i]).alias@ == a
}

/// The handle this alias resolves to.
pub open spec fn dept_ptr(s: Seq<DepartmentAlias>, a: Seq<char>) -> u32 {
    s[dept_alias_index(s, a)].pointer
}

/// `post` is `pre` with one new entry for this alias and handle.
pub open spec fn dept_alias_inserted(
    pre: Seq<DepartmentAlias>,
    post: Seq<DepartmentAlias>,
    a: Seq<char>,
    ptr: u32,
) -> bool {
    exists|i: int|
        0 <= i <= pre.len() && post == pre.insert(i, #[trigger] post[i]) && post[i].alias@ == a
            && post[i].pointer == ptr
}

/// The person alias index is strictly sorted by alias.
pub open spec fn person_aliases_sorted(s: Seq<PersonAlias>) -> bool {
    forall|i: int, j: int|
        0 <= i < j < s.len() ==> lex_lt((#[trigger] s[i]).alias@, (#[trigger] s[j]).alias@)
}

/// Some person alias entry carries this alias.
pub open spec fn person_has_alias(s: Seq<PersonAlias>, a: Seq<char>) -> bool {
    exists|i: int| 0 <= i < s.len() && (#[trigger] s[i]).alias@ == a
}

/// The index of the entry carrying this alias.
pub open spec fn person_alias_index(s: Seq<PersonAlias>, a: Seq<char>) -> int {
    choose|i: int| 0 <= i < s.len() && (#[trigger] s[i]).alias@ == a
}

/// The handle this alias resolves to.
pub open spec fn person_ptr(s: Seq<PersonAlias>, a: Seq<char>) -> u32 {
    s[person_alias_index(s, a)].pointer
}

/// `post` is `pre` with one new entry for this alias and handle.
pub open spec fn person_alias_inserted(
    pre: Seq<PersonAlias>,
    post: Seq<PersonAlias>,
    a: Seq<char>,
    ptr: u32,
) -> bool {
    exists|i: int|
        0 <= i <= pre.len() && post == pre.insert(i, #[trigger] post[i]) && post[i].alias@ == a
            && post[i].pointer == ptr
}

/// A strictly sorted index holds each alias at most once.
pub proof fn lemma_dept_alias_unique(s: Seq<DepartmentAlias>, i: int, j: int)
    requires
        dept_aliases_sorted(s),
        0 <= i < s.len(),
        0 <= j < s.len(),
        s[i].alias@ == s[j].alias@,
    ensures
        i == j,
{
    if i != j {
        lemma_lex_total(s[i].alias@, s[j].alias@);
    }
}

/// A strictly sorted index holds each alias at most once.
pub proof fn lemma_person_alias_unique(s: Seq<PersonAlias>, i: int, j: int)
    requires
        person_aliases_sorted(s),
        0 <= i < s.len(),
        0 <= j < s.len(),
        s[i].alias@ == s[j].alias@,
    ensures
        i == j,
{
    if i != j {
        lemma_lex_total(s[i].alias@, s[j].alias@);
    }
}

/// Binary search for an alias in the sorted department index: the index
/// of the matching entry, or the gap where it would be inserted.
fn dept_alias_search(v: &Vec<DepartmentAlias>, alias: &str) -> (r: core::result::Result<
    usize,
    usize,
>)
    requires
        dept_aliases_sorted(v@),
    ensures
        match r {
            Ok(i) => i < v@.len() && v@[i as int].alias@ == alias@,
            Err(i) => {
                &&& i <= v@.len()
                &&& forall|j: int| 0 <= j < i ==> lex_lt((#[trigger] v@[j]).alias@, alias@)
                &&& forall|j: int|
                    i <= j < v@.len() ==> lex_lt(alias@, (#[trigger] v@[j]).alias@)
                &&& !dept_has_alias(v@, alias@)
            },
        },
{
    let mut lo: usize = 0;
    let mut hi: usize = v.len();
    while lo < hi
        invariant
            lo <= hi <= v@.len(),
            dept_aliases_sorted(v@),
            forall|j: int| 0 <= j < lo ==> lex_lt((#[trigger] v@[j]).alias@, alias@),
            forall|j: int| hi <= j < v@.len() ==> lex_lt(alias@, (#[trigger] v@[j]).alias@),
        decreases hi - lo,
    {
        let mid = lo + (hi - lo) / 2;
        match crate::lex::str_compare(v[mid].alias.as_str(), alias) {
            core::cmp::Ordering::Less => {
                proof {
                    assert forall|j: int| 0 <= j < mid + 1 implies lex_lt(
                        (#[trigger] v@[j]).alias@,
                        alias@,
                    ) by {
                        if j < mid {
                            lemma_lex_trans(v@[j].alias@, v@[mid as int].alias@, alias@);
                        }
                    }
                }
                lo = mid + 1;
            },
            core::cmp::Ordering::Greater => {
                proof {
                    assert forall|j: int| mid <= j < v@.len() implies lex_lt(
                        alias@,
                        (#[trigger] v@[j]).alias@,
                    ) by {
                        if j > mid {
                            lemma_lex_trans(alias@, v@[mid as int].alias@, v@[j].alias@);
                        }
                    }
                }
                hi = mid;
            },
            core::cmp::Ordering::Equal => {
                return Ok(mid);
            },
        }
    }
    proof {
        assert forall|j: int| 0 <= j < v@.len() implies (#[trigger] v@[j]).alias@ != alias@ by {
            lemma_lex_total(v@[j].alias@, alias@);
        }
    }
    Err(lo)
}

/// Binary search for an alias in the sorted person index.
fn person_alias_search(v: &Vec<PersonAlias>, alias: &str) -> (r: core::result::Result<
    usize,
    usize,
>)
    requires
        person_aliases_sorted(v@),
    ensures
        match r {
            Ok(i) => i < v@.len() && v@[i as int].alias@ == alias@,
            Err(i) => {
                &&& i <= v@.len()
                &&& forall|j: int| 0 <= j < i ==> lex_lt((#[trigger] v@[j]).alias@, alias@)
                &&& forall|j: int|
                    i <= j < v@.len() ==> lex_lt(alias@, (#[trigger] v@[j]).alias@)
                &&& !person_has_alias(v@, alias@)
            },
        },
{
    let mut lo: usize = 0;
    let mut hi: usize = v.len();
    while lo < hi
        invariant
            lo <= hi <= v@.len(),
            person_aliases_sorted(v@),
            forall|j: int| 0 <= j < lo ==> lex_lt((#[trigger] v@[j]).alias@, alias@),
            forall|j: int| hi <= j < v@.len() ==> lex_lt(alias@, (#[trigger] v@[j]).alias@),
        decreases hi - lo,
    {
        let mid = lo + (hi - lo) / 2;
        match crate::lex::str_compare(v[mid].alias.as_str(), alias) {
            core::cmp::Ordering::Less => {
                proof {
                    assert forall|j: int| 0 <= j < mid + 1 implies lex_lt(
                        (#[trigger] v@[j]).alias@,
                        alias@,
                    ) by {
                        if j < mid {
                            lemma_lex_trans(v@[j].alias@, v@[mid as int].alias@, alias@);
                        }
                    }
                }
                lo = mid + 1;
            },
            core::cmp::Ordering::Greater => {
                proof {
                    assert forall|j: int| mid <= j < v@.len() implies lex_lt(
                        alias@,
                        (#[trigger] v@[j]).alias@,
                    ) by {
                        if j > mid {
                            lemma_lex_trans(alias@, v@[mid as int].alias@, v@[j].alias@);
                        }
                    }
                }
                hi = mid;
            },
            core::cmp::Ordering::Equal => {
                return Ok(mid);
            },
        }
    }
    proof {
        assert forall|j: int| 0 <= j < v@.len() implies (#[trigger] v@[j]).alias@ != alias@ by {
            lemma_lex_total(v@[j].alias@, alias@);
        }
    }
    Err(lo)
}

/// The store of all program data: both arenas, both alias indices, and
/// the two counters. Departments and people are referred to everywhere
/// by their arena indices; the store is the sole owner of the entities.
pub struct ProgramData {
    pub dept_aliases: Vec<DepartmentAlias>,
    pub person_aliases: Vec<PersonAlias>,
    pub departments: Vec<Department>,
    pub personnel: Vec<Person>,
    pub employee_count: u32,
    pub department_count: u32,
}

impl ProgramData {
    /// Everything the store promises about its own shape; established by
    /// `init` and preserved by every operation.
    pub open spec fn inv(self) -> bool {
        &&& self.departments@.len() == self.department_count as int
        &&& self.personnel@.len() == self.employee_count as int
        &&& self.dept_aliases@.len() == self.departments@.len()
        &&& self.person_aliases@.len() == self.personnel@.len()
        &&& dept_aliases_sorted(self.dept_aliases@)
        &&& person_aliases_sorted(self.person_aliases@)
        &&& forall|i: int|
            0 <= i < self.dept_aliases@.len() ==> (#[trigger] self.dept_aliases@[i]).pointer
                < self.departments@.len()
        &&& forall|i: int|
            0 <= i < self.person_aliases@.len() ==> (#[trigger] self.person_aliases@[i]).pointer
                < self.personnel@.len()
        &&& forall|i: int, j: int|
            0 <= i < j < self.dept_aliases@.len() ==> (#[trigger] self.dept_aliases@[i]).pointer
                != (#[trigger] self.dept_aliases@[j]).pointer
        &&& forall|i: int, j: int|
            0 <= i < j < self.person_aliases@.len() ==> (
            #[trigger] self.person_aliases@[i]).pointer != (
            #[trigger] self.person_aliases@[j]).pointer
        &&& forall|d: int|
            0 <= d < self.departments@.len() ==> (#[trigger] self.departments@[d]).wf()
        &&& forall|d: int|
            0 <= d < self.departments@.len() ==> (#[trigger] self.departments@[d]).id == d + 1
        &&& forall|d: int, k: int|
            0 <= d < self.departments@.len() && 0 <= k
                < self.departments@[d].employees@.len() ==> {
                let e = #[trigger] self.departments@[d].employees@[k];
                &&& e.person < self.personnel@.len()
                &&& self.personnel@[e.person as int].department == d
                &&& entry_key_matches(e, self.personnel@[e.person as int].name)
            }
        &&& forall|p: int|
            0 <= p < self.personnel@.len() ==> (#[trigger] self.personnel@[p]).department
                < self.departments@.len()
        &&& forall|p: int|
            0 <= p < self.personnel@.len() ==> roster_has_person(
                self.departments@[(#[trigger] self.personnel@[p]).department as int].employees@,
                p as u32,
            )
        &&& forall|p: int| 0 <= p < self.personnel@.len() ==> (#[trigger] self.personnel@[p]).wf()
        &&& forall|p: int|
            0 <= p < self.personnel@.len() ==> (#[trigger] self.personnel@[p]).valid_refs(
                self.departments@.len() as int,
            )
    }

    /// An empty store: no departments, no people, both counters zero.
    pub fn init() -> (s: Self)
        ensures
            s.inv(),
            s.dept_aliases@.len() == 0,
            s.person_aliases@.len() == 0,
            s.departments@.len() == 0,
            s.personnel@.len() == 0,
            s.employee_count == 0,
            s.department_count == 0,
    {
        ProgramData {
            dept_aliases: Vec::new(),
            person_aliases: Vec::new(),
            departments: Vec::new(),
            personnel: Vec::new(),
            employee_count: 0,
            department_count: 0,
        }
    }

    /// Create a department under a fresh alias and return its handle.
    ///
    /// The alias must not be in use; a duplicate is refused and the
    /// store is left unchanged. The new department receives the next
    /// sequential id, never reused. (The id space is a machine limit:
    /// a store already holding `u32::MAX` departments also refuses.)
    pub fn add_dept(&mut self, alias: &str, dept_name: &str) -> (r: Result<u32>)
        requires
            old(self).inv(),
        ensures
            final(self).inv(),
            r is Ok <==> (!dept_has_alias(old(self).dept_aliases@, alias@)
                && old(self).department_count < u32::MAX),
            match r {
                Ok(h) => {
                    &&& h == old(self).departments@.len() as u32
                    &&& final(self).departments@.len() == old(self).departments@.len() + 1
                    &&& forall|d: int|
                        0 <= d < old(self).departments@.len()
                            ==> #[trigger] final(self).departments@[d]
                            == old(self).departments@[d]
                    &&& final(self).departments@.last().name@ == dept_name@
                    &&& final(self).departments@.last().id == old(self).department_count + 1
                    &&& final(self).departments@.last().employees@.len() == 0
                    &&& dept_alias_inserted(
                        old(self).dept_aliases@,
                        final(self).dept_aliases@,
                        alias@,
                        h,
                    )
                    &&& final(self).personnel == old(self).personnel
                    &&& final(self).person_aliases == old(self).person_aliases
                    &&& final(self).employee_count == old(self).employee_count
                    &&& final(self).department_count == old(self).department_count + 1
                },
                Err(e) => e == DataError::AddDept && *final(self) == *old(self),
            },
    {
        match dept_alias_search(&self.dept_aliases, alias) {
            Ok(_) => Err(DataError::AddDept),
            Err(i) => {
                if self.department_count == u32::MAX {
                    return Err(DataError::AddDept);
                }
                self.department_count = self.department_count + 1;
                let department_id = self.department_count;
                let handle = self.departments.len() as u32;
                let new_department = Department::new(dept_name, department_id);
                let ghost pre = *self;
                self.departments.push(new_department);
                let dept_alias = DepartmentAlias::new(alias, handle);
                self.dept_aliases.insert(i, dept_alias);
                proof {
                    let s = self.dept_aliases@;
                    assert(s == pre.dept_aliases@.insert(i as int, s[i as int]));
                    assert(dept_alias_inserted(pre.dept_aliases@, s, alias@, handle));
                    assert forall|p: int, q: int| 0 <= p < q < s.len() implies lex_lt(
                        (#[trigger] s[p]).alias@,
                        (#[trigger] s[q]).alias@,
                    ) by {
                        if q < i {
                        } else if p < i && q == i {
                            assert(s[p] == pre.dept_aliases@[p]);
                        } else if p < i && q > i {
                            assert(s[p] == pre.dept_aliases@[p]);
                            assert(s[q] == pre.dept_aliases@[q - 1]);
                        } else if p == i && q > i {
                            assert(s[q] == pre.dept_aliases@[q - 1]);
                        } else {
                            assert(s[p] == pre.dept_aliases@[p - 1]);
                            assert(s[q] == pre.dept_aliases@[q - 1]);
                        }
                    }
                    assert forall|p: int|
                        0 <= p < self.personnel@.len() implies roster_has_person(
                        self.departments@[(
                        #[trigger] self.personnel@[p]).department as int].employees@,
                        p as u32,
                    ) by {
                        assert(self.personnel@[p].department < pre.departments@.len());
                        assert(self.departments@[self.personnel@[p].department as int]
                            == pre.departments@[self.personnel@[p].department as int]);
                    }
                    assert forall|p: int|
                        0 <= p < self.personnel@.len() implies (
                    #[trigger] self.personnel@[p]).valid_refs(self.departments@.len() as int) by {
                        assert(self.personnel@[p].valid_refs(pre.departments@.len() as int));
                    }
                }
                Ok(handle)
            },
        }
    }

    /// Admit a fully built person to the store under a fresh alias and
    /// enroll them in the home department recorded in the person record.
    ///
    /// A duplicate alias is refused with `AddPerson`; a person whose
    /// name key is already listed in the home department's roster is
    /// refused with the roster's own error. Either refusal leaves the
    /// store exactly as it was: a person is never admitted without being
    /// simultaneously enrolled, and never half admitted. (The employee
    /// counter is a machine limit: a store already holding `u32::MAX`
    /// people also refuses.)
    pub fn add_person(&mut self, alias: &str, person: Person) -> (r: Result<u32>)
        requires
            old(self).inv(),
            person.wf(),
            person.valid_refs(old(self).departments@.len() as int),
        ensures
            final(self).inv(),
            r is Ok <==> (!person_has_alias(old(self).person_aliases@, alias@)
                && old(self).employee_count < u32::MAX && !roster_has_key(
                old(self).departments@[person.department as int].employees@,
                person.name,
            )),
            match r {
                Ok(h) => {
                    &&& h == old(self).personnel@.len() as u32
                    &&& final(self).personnel@ == old(self).personnel@.push(person)
                    &&& person_alias_inserted(
                        old(self).person_aliases@,
                        final(self).person_aliases@,
                        alias@,
                        h,
                    )
                    &&& final(self).employee_count == old(self).employee_count + 1
                    &&& final(self).departments@.len() == old(self).departments@.len()
                    &&& forall|d: int|
                        0 <= d < old(self).departments@.len() && d != person.department
                            ==> #[trigger] final(self).departments@[d]
                            == old(self).departments@[d]
                    &&& roster_inserted(
                        old(self).departments@[person.department as int].employees@,
                        final(self).departments@[person.department as int].employees@,
                        person.name,
                        h,
                    )
                    &&& final(self).dept_aliases == old(self).dept_aliases
                    &&& final(self).department_count == old(self).department_count
                },
                Err(e) => {
                    &&& *final(self) == *old(self)
                    &&& (e == DataError::AddPerson <==> (person_has_alias(
                        old(self).person_aliases@,
                        alias@,
                    ) || old(self).employee_count == u32::MAX))
                    &&& (e == DataError::Department(DeptErr::AddEmployee) <==> (
                    !person_has_alias(old(self).person_aliases@, alias@)
                        && old(self).employee_count < u32::MAX && roster_has_key(
                        old(self).departments@[person.department as int].employees@,
                        person.name,
                    )))
                },
            },
    {
        match person_alias_search(&self.person_aliases, alias) {
            Ok(_) => Err(DataError::AddPerson),
            Err(i) => {
                if self.employee_count == u32::MAX {
                    return Err(DataError::AddPerson);
                }
                let pid = self.personnel.len() as u32;

                // The person must enter their stated home department's
                // roster in the same operation; check the roster first,
                // so a refusal leaves no partial state behind.
                let duplicate = self.departments[person.department as usize].has_employee_named(
                    &person.name,
                );
                if duplicate {
                    return Err(DataError::Department(DeptErr::AddEmployee));
                }

                let ghost pre = *self;
                let added = {
                    let d = &mut self.departments[person.department as usize];
                    d.add_employee(&person, pid)
                };
                proof {
                    if added is Err {
                        assert(false);
                    }
                    assert(self.departments@ =~= pre.departments@.update(
                        person.department as int,
                        self.departments@[person.department as int],
                    ));
                }
                self.person_aliases.insert(i, PersonAlias::new(alias, pid));
                self.personnel.push(person);
                self.employee_count = self.employee_count + 1;
                proof {
                    assert(self.person_aliases@ == pre.person_aliases@.insert(
                        i as int,
                        self.person_aliases@[i as int],
                    ));
                    assert(person_alias_inserted(
                        pre.person_aliases@,
                        self.person_aliases@,
                        alias@,
                        pid,
                    ));
                    self.lemma_add_person_restores_inv(pre, person, i as int, pid);
                }
                Ok(pid)
            },
        }
    }

    /// The invariant holds again after a person is pushed into the
    /// arena, their alias is inserted, and their home roster gains the
    /// matching entry.
    proof fn lemma_add_person_restores_inv(self, pre: ProgramData, person: Person, i: int, pid: u32)
        requires
            pre.inv(),
            person.wf(),
            person.valid_refs(pre.departments@.len() as int),
            pid == pre.personnel@.len(),
            pre.employee_count < u32::MAX,
            0 <= i <= pre.person_aliases@.len(),
            self.person_aliases@ == pre.person_aliases@.insert(i, self.person_aliases@[i]),
            self.person_aliases@[i].pointer == pid,
            forall|j: int|
                0 <= j < i ==> lex_lt(
                    (#[trigger] pre.person_aliases@[j]).alias@,
                    self.person_aliases@[i].alias@,
                ),
            forall|j: int|
                i <= j < pre.person_aliases@.len() ==> lex_lt(
                    self.person_aliases@[i].alias@,
                    (#[trigger] pre.person_aliases@[j]).alias@,
                ),
            self.personnel@ == pre.personnel@.push(person),
            self.employee_count == pre.employee_count + 1,
            self.department_count == pre.department_count,
            self.dept_aliases == pre.dept_aliases,
            self.departments@.len() == pre.departments@.len(),
            forall|d: int|
                0 <= d < pre.departments@.len() && d != person.department ==> #[trigger] self
                    .departments@[d] == pre.departments@[d],
            self.departments@[person.department as int].wf(),
            self.departments@[person.department as int].id == pre.departments@[person.department
                as int].id,
            roster_inserted(
                pre.departments@[person.department as int].employees@,
                self.departments@[person.department as int].employees@,
                person.name,
                pid,
            ),
        ensures
            self.inv(),
    {
        let pd = person.department as int;
        let pre_ro = pre.departments@[pd].employees@;
        let post_ro = self.departments@[pd].employees@;
        let j = choose|j: int|
            0 <= j <= pre_ro.len() && post_ro == pre_ro.insert(j, #[trigger] post_ro[j])
                && entry_key_matches(post_ro[j], person.name) && post_ro[j].person == pid;

        // The sorted person alias index stays sorted around the insert.
        let s = self.person_aliases@;
        let ps = pre.person_aliases@;
        assert forall|p: int, q: int| 0 <= p < q < s.len() implies lex_lt(
            (#[trigger] s[p]).alias@,
            (#[trigger] s[q]).alias@,
        ) by {
            if q < i {
            } else if p < i && q == i {
                assert(s[p] == ps[p]);
            } else if p < i && q > i {
                assert(s[p] == ps[p]);
                assert(s[q] == ps[q - 1]);
            } else if p == i && q > i {
                assert(s[q] == ps[q - 1]);
            } else {
                assert(s[p] == ps[p - 1]);
                assert(s[q] == ps[q - 1]);
            }
        }

        // Alias pointers stay in range and distinct.
        assert forall|p: int| 0 <= p < s.len() implies (#[trigger] s[p]).pointer
            < self.personnel@.len() by {
            if p < i {
                assert(s[p] == ps[p]);
            } else if p > i {
                assert(s[p] == ps[p - 1]);
            }
        }
        assert forall|p: int, q: int| 0 <= p < q < s.len() implies (#[trigger] s[p]).pointer != (
        #[trigger] s[q]).pointer by {
            if p != i && q != i {
                let p0 = if p < i { p } else { p - 1 };
                let q0 = if q < i { q } else { q - 1 };
                assert(s[p] == ps[p0]);
                assert(s[q] == ps[q0]);
            } else if p == i {
                assert(s[q] == ps[q - 1]);
            } else {
                assert(s[p] == ps[p]);
            }
        }

        // Every roster entry still names the person it refers to.
        assert forall|d: int, k: int|
            0 <= d < self.departments@.len() && 0 <= k
                < self.departments@[d].employees@.len() implies {
            let e = #[trigger] self.departments@[d].employees@[k];
            &&& e.person < self.personnel@.len()
            &&& self.personnel@[e.person as int].department == d
            &&& entry_key_matches(e, self.personnel@[e.person as int].name)
        } by {
            if d == pd {
                if k < j {
                    assert(post_ro[k] == pre_ro[k]);
                } else if k == j {
                    assert(self.personnel@[pid as int] == person);
                } else {
                    assert(post_ro[k] == pre_ro[k - 1]);
                }
            }
        }

        // Every person is still listed in the department they point at.
        assert forall|p: int|
            0 <= p < self.personnel@.len() implies roster_has_person(
            self.departments@[(#[trigger] self.personnel@[p]).department as int].employees@,
            p as u32,
        ) by {
            if p < pre.personnel@.len() {
                assert(self.personnel@[p] == pre.personnel@[p]);
                let dp = pre.personnel@[p].department as int;
                if dp == pd {
                    let k = choose|k: int|
                        0 <= k < pre_ro.len() && (#[trigger] pre_ro[k]).person == p as u32;
                    if k < j {
                        assert(post_ro[k] == pre_ro[k]);
                        assert(roster_has_person(post_ro, p as u32));
                    } else {
                        assert(post_ro[k + 1] == pre_ro[k]);
                        assert(roster_has_person(post_ro, p as u32));
                    }
                } else {
                    assert(self.departments@[dp] == pre.departments@[dp]);
                }
            } else {
                assert(self.personnel@[p] == person);
                assert(post_ro[j].person == pid);
                assert(roster_has_person(post_ro, pid));
            }
        }
    }

    /// The alias-sorted department index, as maintained: listing needs
    /// no sort at query time.
    pub fn dept_list(&self) -> (r: &Vec<DepartmentAlias>)
        ensures
            *r == self.dept_aliases,
    {
        &self.dept_aliases
    }

    /// The alias-sorted person index, as maintained.
    pub fn employee_list(&self) -> (r: &Vec<PersonAlias>)
        ensures
            *r == self.person_aliases,
    {
        &self.person_aliases
    }

    /// Transfer an existing employee to a department, both given by
    /// alias. With no date given, the move takes effect today.
    ///
    /// Unknown aliases and a transfer to the person's current department
    /// are refused; so is a target roster already listing the person's
    /// name key. Every refusal leaves the store unchanged.
    pub fn add_to_dept(&mut self, person_alias: &str, dept_alias: &str, date: Option<Date>) -> (r:
        Result<()>)
        requires
            old(self).inv(),
        ensures
            final(self).inv(),
            ({
                let pa = old(self).person_aliases@;
                let da = old(self).dept_aliases@;
                let pid = person_ptr(pa, person_alias@);
                let did = dept_ptr(da, dept_alias@);
                let from = old(self).personnel@[pid as int].department;
                &&& (r is Ok <==> (person_has_alias(pa, person_alias@) && dept_has_alias(
                    da,
                    dept_alias@,
                ) && did != from && !roster_has_key(
                    old(self).departments@[did as int].employees@,
                    old(self).personnel@[pid as int].name,
                )))
                &&& (r is Err ==> store_unchanged(*old(self), *final(self)))
                &&& (!person_has_alias(pa, person_alias@) ==> r == Result::<()>::Err(
                    DataError::NoSuchPerson,
                ))
                &&& (person_has_alias(pa, person_alias@) && !dept_has_alias(da, dept_alias@)
                    ==> r == Result::<()>::Err(DataError::NoSuchDept))
                &&& (person_has_alias(pa, person_alias@) && dept_has_alias(da, dept_alias@)
                    && (did == from || roster_has_key(
                    old(self).departments@[did as int].employees@,
                    old(self).personnel@[pid as int].name,
                )) ==> r == Result::<()>::Err(
                    DataError::Person(PersonError::Transfer(TransferErr::AlreadyInDept)),
                ))
                &&& (r is Ok && date is Some ==> transfer_applied(
                    *old(self),
                    *final(self),
                    pid,
                    did,
                    date->Some_0,
                ))
                &&& (r is Ok && date is None ==> transfer_applied(
                    *old(self),
                    *final(self),
                    pid,
                    did,
                    final(self).personnel@[pid as int].dept_history@.last().date,
                ))
            }),
    {
        let pid = match person_alias_search(&self.person_aliases, person_alias) {
            Ok(i) => {
                proof {
                    lemma_person_alias_unique(
                        self.person_aliases@,
                        i as int,
                        person_alias_index(self.person_aliases@, person_alias@),
                    );
                }
                self.person_aliases[i].pointer
            },
            Err(_) => {
                return Err(DataError::NoSuchPerson);
            },
        };
        let did = match dept_alias_search(&self.dept_aliases, dept_alias) {
            Ok(i) => {
                proof {
                    lemma_dept_alias_unique(
                        self.dept_aliases@,
                        i as int,
                        dept_alias_index(self.dept_aliases@, dept_alias@),
                    );
                }
                self.dept_aliases[i].pointer
            },
            Err(_) => {
                return Err(DataError::NoSuchDept);
            },
        };

        let transfer_date = match date {
            Some(d) => d,
            None => today(),
        };

        let ghost pre = *self;
        let result = {
            let person = &mut self.personnel[pid as usize];
            person.transfer(pid, &mut self.departments, did, transfer_date)
        };
        proof {
            assert(self.personnel@ =~= pre.personnel@.update(
                pid as int,
                self.personnel@[pid as int],
            ));
        }
        match result {
            Ok(()) => {
                proof {
                    self.lemma_transfer_restores_inv(pre, pid, did, transfer_date);
                    assert(transfer_applied(pre, *self, pid, did, transfer_date));
                }
                Ok(())
            },
            Err(e) => {
                proof {
                    // A person missing from the roster they point at is
                    // ruled out by the invariant, so the only error left
                    // is the same-department or occupied-target refusal.
                    assert(self.personnel@ =~= pre.personnel@);
                    let from = pre.personnel@[pid as int].department as int;
                    assert(roster_has_person(pre.departments@[from].employees@, pid));
                    let k = choose|k: int|
                        0 <= k < pre.departments@[from].employees@.len() && (
                        #[trigger] pre.departments@[from].employees@[k]).person == pid;
                    assert(entry_key_matches(
                        pre.departments@[from].employees@[k],
                        pre.personnel@[pid as int].name,
                    ));
                    assert(roster_has_key(
                        pre.departments@[from].employees@,
                        pre.personnel@[pid as int].name,
                    ));
                }
                Err(DataError::Person(e))
            },
        }
    }

    /// The invariant holds again after a successful transfer moved one
    /// person's roster entry between two departments and updated the
    /// person's pointer and history.
    proof fn lemma_transfer_restores_inv(self, pre: ProgramData, pid: u32, did: u32, d: Date)
        requires
            pre.inv(),
            pid < pre.personnel@.len(),
            did < pre.departments@.len(),
            transfer_applied(pre, self, pid, did, d),
            self.personnel@[pid as int].wf(),
            forall|dd: int|
                0 <= dd < self.departments@.len() ==> (#[trigger] self.departments@[dd]).wf(),
        ensures
            self.inv(),
    {
        let from = pre.personnel@[pid as int].department as int;
        let pre_from = pre.departments@[from].employees@;
        let post_from = self.departments@[from].employees@;
        let pre_to = pre.departments@[did as int].employees@;
        let post_to = self.departments@[did as int].employees@;
        let name = pre.personnel@[pid as int].name;

        let ri = choose|ri: int|
            0 <= ri < pre_from.len() && entry_key_matches(#[trigger] pre_from[ri], name)
                && post_from == pre_from.remove(ri);
        let j = choose|j: int|
            0 <= j <= pre_to.len() && post_to == pre_to.insert(j, #[trigger] post_to[j])
                && entry_key_matches(post_to[j], name) && post_to[j].person == pid;

        // The removed entry was the person's own: the person is listed
        // in the roster they point at, with their own name key, and a
        // strictly sorted roster holds one entry per key.
        assert(roster_has_person(pre_from, pid));
        let own = choose|own: int|
            0 <= own < pre_from.len() && (#[trigger] pre_from[own]).person == pid;
        assert(entry_key_matches(pre_from[own], name));
        lemma_roster_key_unique(pre_from, ri, own, name);
        assert(pre_from[ri].person == pid);

        // Rosters still name the people they refer to.
        assert forall|dd: int, k: int|
            0 <= dd < self.departments@.len() && 0 <= k
                < self.departments@[dd].employees@.len() implies {
            let e = #[trigger] self.departments@[dd].employees@[k];
            &&& e.person < self.personnel@.len()
            &&& self.personnel@[e.person as int].department == dd
            &&& entry_key_matches(e, self.personnel@[e.person as int].name)
        } by {
            if dd == from {
                let e = self.departments@[dd].employees@[k];
                let k0: int = if k < ri {
                    k
                } else {
                    k + 1
                };
                assert(post_from[k] == pre_from[k0]);
                // The entry is an old one and is not the person's own
                // (one entry per key), so its person was not moved.
                if e.person == pid {
                    assert(entry_key_matches(pre_from[k0], name));
                    lemma_roster_key_unique(pre_from, k0, ri, name);
                    assert(false);
                }
                assert(self.personnel@[e.person as int] == pre.personnel@[e.person as int]);
            } else if dd == did as int {
                let e = self.departments@[dd].employees@[k];
                if k == j {
                    assert(e.person == pid);
                    assert(self.personnel@[pid as int].department == did);
                    assert(self.personnel@[pid as int].name == name);
                } else {
                    let k0 = if k < j { k } else { k - 1 };
                    assert(e == pre_to[k0]);
                    assert(pre.personnel@[e.person as int].department == did);
                    assert(e.person != pid);
                    assert(self.personnel@[e.person as int] == pre.personnel@[e.person as int]);
                }
            } else {
                assert(self.departments@[dd] == pre.departments@[dd]);
                let e = self.departments@[dd].employees@[k];
                assert(pre.personnel@[e.person as int].department == dd);
                assert(e.person != pid);
                assert(self.personnel@[e.person as int] == pre.personnel@[e.person as int]);
            }
        }

        // Every person is still listed in the department they point at.
        assert forall|p: int|
            0 <= p < self.personnel@.len() implies roster_has_person(
            self.departments@[(#[trigger] self.personnel@[p]).department as int].employees@,
            p as u32,
        ) by {
            if p == pid as int {
                assert(post_to[j].person == pid);
                assert(roster_has_person(post_to, pid));
            } else {
                assert(self.personnel@[p] == pre.personnel@[p]);
                let dp = pre.personnel@[p].department as int;
                assert(roster_has_person(pre.departments@[dp].employees@, p as u32));
                let k = choose|k: int|
                    0 <= k < pre.departments@[dp].employees@.len() && (
                    #[trigger] pre.departments@[dp].employees@[k]).person == p as u32;
                if dp == from {
                    assert(k != ri);
                    if k < ri {
                        assert(post_from[k] == pre_from[k]);
                        assert(roster_has_person(post_from, p as u32));
                    } else {
                        assert(post_from[k - 1] == pre_from[k]);
                        assert(roster_has_person(post_from, p as u32));
                    }
                } else if dp == did as int {
                    if k < j {
                        assert(post_to[k] == pre_to[k]);
                        assert(roster_has_person(post_to, p as u32));
                    } else {
                        assert(post_to[k + 1] == pre_to[k]);
                        assert(roster_has_person(post_to, p as u32));
                    }
                } else {
                    assert(self.departments@[dp] == pre.departments@[dp]);
                }
            }
        }

        // Histories still end in the current assignment, and all
        // referenced departments lie in the arena.
        assert forall|p: int|
            0 <= p < self.personnel@.len() implies (#[trigger] self.personnel@[p]).wf() && (
        #[trigger] self.personnel@[p]).valid_refs(self.departments@.len() as int) by {
            if p == pid as int {
                assert(pre.personnel@[p].valid_refs(pre.departments@.len() as int));
                let h = self.personnel@[p].dept_history@;
                assert forall|q: int| 0 <= q < h.len() implies (#[trigger] h[q]).department
                    < self.departments@.len() by {
                    if q < h.len() - 1 {
                        assert(h[q] == pre.personnel@[p].dept_history@[q]);
                    }
                }
            } else {
                assert(self.personnel@[p] == pre.personnel@[p]);
            }
        }
    }

    /// The department arena, indexed by the handles the aliases hold.
    pub fn departments(&self) -> (r: &Vec<Department>)
        ensures
            *r == self.departments,
    {
        &self.departments
    }

    /// The person arena, indexed by the handles the aliases hold.
    pub fn people(&self) -> (r: &Vec<Person>)
        ensures
            *r == self.personnel,
    {
        &self.personnel
    }

    /// Resolve a department alias to its handle.
    pub fn dept_by_alias(&self, alias: &str) -> (r: Option<u32>)
        requires
            self.inv(),
        ensures
            r is Some <==> dept_has_alias(self.dept_aliases@, alias@),
            match r {
                Some(h) => h == dept_ptr(self.dept_aliases@, alias@) && h
                    < self.departments@.len(),
                None => true,
            },
    {
        match dept_alias_search(&self.dept_aliases, alias) {
            Ok(i) => {
                proof {
                    lemma_dept_alias_unique(
                        self.dept_aliases@,
                        i as int,
                        dept_alias_index(self.dept_aliases@, alias@),
                    );
                }
                Some(self.dept_aliases[i].pointer)
            },
            Err(_) => None,
        }
    }

    /// Resolve a person alias to its handle.
    pub fn person_by_alias(&self, alias: &str) -> (r: Option<u32>)
        requires
            self.inv(),
        ensures
            r is Some <==> person_has_alias(self.person_aliases@, alias@),
            match r {
                Some(h) => h == person_ptr(self.person_aliases@, alias@) && h
                    < self.personnel@.len(),
                None => true,
            },
    {
        match person_alias_search(&self.person_aliases, alias) {
            Ok(i) => {
                proof {
                    lemma_person_alias_unique(
                        self.person_aliases@,
                        i as int,
                        person_alias_index(self.person_aliases@, alias@),
                    );
                }
                Some(self.person_aliases[i].pointer)
            },
            Err(_) => None,
        }
    }
}

/// Nothing observable about the store changed: both alias indices, both
/// arenas (element for element) and both counters are as they were.
pub open spec fn store_unchanged(pre: ProgramData, post: ProgramData) -> bool {
    &&& post.dept_aliases == pre.dept_aliases
    &&& post.person_aliases == pre.person_aliases
    &&& post.departments@ == pre.departments@
    &&& post.personnel@ == pre.personnel@
    &&& post.employee_count == pre.employee_count
    &&& post.department_count == pre.department_count
}

/// `post` is `pre` after one person's move to department `did` with
/// effective date `d`: the person left their old department's roster,
/// entered the target's at its sorted slot, repointed at the target and
/// grew their history by that one entry; nothing else changed.
pub open spec fn transfer_applied(
    pre: ProgramData,
    post: ProgramData,
    pid: u32,
    did: u32,
    d: Date,
) -> bool {
    let from = pre.personnel@[pid as int].department;
    let op = pre.personnel@[pid as int];
    let pp = post.personnel@[pid as int];
    &&& pid < pre.personnel@.len()
    &&& did < pre.departments@.len()
    &&& did != from
    &&& post.dept_aliases == pre.dept_aliases
    &&& post.person_aliases == pre.person_aliases
    &&& post.department_count == pre.department_count
    &&& post.employee_count == pre.employee_count
    &&& post.personnel@ == pre.personnel@.update(pid as int, pp)
    &&& pp.name == op.name
    &&& pp.date_of_hire == op.date_of_hire
    &&& pp.department == did
    &&& pp.dept_history@ == op.dept_history@.push((DeptEntry { department: did, date: d }))
    &&& post.departments@.len() == pre.departments@.len()
    &&& forall|dd: int|
        0 <= dd < pre.departments@.len() && dd != from && dd != did ==> #[trigger] post
            .departments@[dd] == pre.departments@[dd]
    &&& forall|dd: int|
        0 <= dd < pre.departments@.len() ==> (#[trigger] post.departments@[dd]).id
            == pre.departments@[dd].id && post.departments@[dd].name == pre.departments@[dd].name
    &&& roster_removed_key(
        pre.departments@[from as int].employees@,
        post.departments@[from as int].employees@,
        op.name,
    )
    &&& roster_inserted(
        pre.departments@[did as int].employees@,
        post.departments@[did as int].employees@,
        op.name,
        pid,
    )
}

/// However departments were created, the department listing is strictly
/// ascending in the aliases, so it reads out in alias-lexicographic
/// order with every alias listed once.
pub proof fn lemma_departments_listed_in_alias_order(s: ProgramData)
    requires
        s.inv(),
    ensures
        dept_aliases_sorted(s.dept_aliases@),
        forall|i: int, j: int|
            0 <= i < j < s.dept_aliases@.len() ==> (#[trigger] s.dept_aliases@[i]).alias@ != (
            #[trigger] s.dept_aliases@[j]).alias@,
{
    assert forall|i: int, j: int| 0 <= i < j < s.dept_aliases@.len() implies (
    #[trigger] s.dept_aliases@[i]).alias@ != (#[trigger] s.dept_aliases@[j]).alias@ by {
        lemma_lex_total(s.dept_aliases@[i].alias@, s.dept_aliases@[j].alias@);
    }
}

/// The person listing reads out the same way: strictly ascending in the
/// aliases, every alias listed once.
pub proof fn lemma_people_listed_in_alias_order(s: ProgramData)
    requires
        s.inv(),
    ensures
        person_aliases_sorted(s.person_aliases@),
        forall|i: int, j: int|
            0 <= i < j < s.person_aliases@.len() ==> (#[trigger] s.person_aliases@[i]).alias@ != (
            #[trigger] s.person_aliases@[j]).alias@,
{
    assert forall|i: int, j: int| 0 <= i < j < s.person_aliases@.len() implies (
    #[trigger] s.person_aliases@[i]).alias@ != (#[trigger] s.person_aliases@[j]).alias@ by {
        lemma_lex_total(s.person_aliases@[i].alias@, s.person_aliases@[j].alias@);
    }
}

/// Every person in the store is listed in exactly one department's
/// roster: the department they point at, and no other.
pub proof fn lemma_person_in_exactly_one_roster(s: ProgramData, pid: u32)
    requires
        s.inv(),
        pid < s.personnel@.len(),
    ensures
        roster_has_person(
            s.departments@[s.personnel@[pid as int].department as int].employees@,
            pid,
        ),
        forall|d: int|
            0 <= d < s.departments@.len() && d != s.personnel@[pid as int].department
                ==> !roster_has_person((#[trigger] s.departments@[d]).employees@, pid),
{
    assert forall|d: int|
        0 <= d < s.departments@.len() && d != s.personnel@[pid as int].department implies
        !roster_has_person((#[trigger] s.departments@[d]).employees@, pid) by {
        if roster_has_person(s.departments@[d].employees@, pid) {
            let k = choose|k: int|
                0 <= k < s.departments@[d].employees@.len() && (
                #[trigger] s.departments@[d].employees@[k]).person == pid;
            assert(s.personnel@[pid as int].department == d);
        }
    }
}

/// Department rosters stay sorted by (last name, first name) through
/// every sequence of operations: sortedness is part of the store's
/// invariant, which each operation preserves.
pub proof fn lemma_rosters_sorted(s: ProgramData)
    requires
        s.inv(),
    ensures
        forall|d: int|
            0 <= d < s.departments@.len() ==> roster_sorted(
                (#[trigger] s.departments@[d]).employees@,
            ),
{
}

/// Under the invariant, the entry carrying a person's own name key in
/// the roster of the department they point at is that person's entry,
/// and no other entry of that roster refers to them.
proof fn lemma_own_roster_entry(s: ProgramData, pid: u32, i: int)
    requires
        s.inv(),
        pid < s.personnel@.len(),
        0 <= i < s.departments@[s.personnel@[pid as int].department as int].employees@.len(),
        entry_key_matches(
            s.departments@[s.personnel@[pid as int].department as int].employees@[i],
            s.personnel@[pid as int].name,
        ),
    ensures
        s.departments@[s.personnel@[pid as int].department as int].employees@[i].person == pid,
        forall|k: int|
            0 <= k < s.departments@[s.personnel@[pid as int].department as int].employees@.len()
                && k != i ==> (#[trigger] s.departments@[s.personnel@[pid
                as int].department as int].employees@[k]).person != pid,
{
    let dp = s.personnel@[pid as int].department as int;
    let ro = s.departments@[dp].employees@;
    let name = s.personnel@[pid as int].name;
    assert(roster_has_person(ro, pid));
    let own = choose|own: int| 0 <= own < ro.len() && (#[trigger] ro[own]).person == pid;
    assert(entry_key_matches(ro[own], name));
    lemma_roster_key_unique(ro, i, own, name);
    assert forall|k: int| 0 <= k < ro.len() && k != i implies (#[trigger] ro[k]).person != pid by {
        if ro[k].person == pid {
            assert(entry_key_matches(ro[k], name));
            lemma_roster_key_unique(ro, k, i, name);
        }
    }
}

/// Transfer round trip: moving a person from their department `a` to
/// another department `b` and then back leaves the membership of both
/// rosters exactly as it was, every other department untouched, and the
/// person's history longer by exactly the two moves.
pub proof fn lemma_transfer_round_trip(
    s0: ProgramData,
    s1: ProgramData,
    s2: ProgramData,
    pid: u32,
    a: u32,
    b: u32,
    d1: Date,
    d2: Date,
)
    requires
        s0.inv(),
        s1.inv(),
        pid < s0.personnel@.len(),
        s0.personnel@[pid as int].department == a,
        transfer_applied(s0, s1, pid, b, d1),
        transfer_applied(s1, s2, pid, a, d2),
    ensures
        roster_members(s2.departments@[a as int].employees@) == roster_members(
            s0.departments@[a as int].employees@,
        ),
        roster_members(s2.departments@[b as int].employees@) == roster_members(
            s0.departments@[b as int].employees@,
        ),
        forall|d: int|
            0 <= d < s0.departments@.len() && d != a && d != b ==> #[trigger] s2.departments@[d]
                == s0.departments@[d],
        s2.personnel@[pid as int].dept_history@.len() == s0.personnel@[pid
            as int].dept_history@.len() + 2,
        s2.personnel@[pid as int].department == a,
{
    let name0 = s0.personnel@[pid as int].name;
    let a0 = s0.departments@[a as int].employees@;
    let a1 = s1.departments@[a as int].employees@;
    let a2 = s2.departments@[a as int].employees@;
    let b0 = s0.departments@[b as int].employees@;
    let b1 = s1.departments@[b as int].employees@;
    let b2 = s2.departments@[b as int].employees@;

    // First move: the entry that left department a was the person's own.
    let ri = choose|ri: int|
        0 <= ri < a0.len() && entry_key_matches(#[trigger] a0[ri], name0) && a1 == a0.remove(ri);
    lemma_own_roster_entry(s0, pid, ri);
    lemma_members_remove(a0, a1, ri);
    lemma_members_insert(b0, b1, name0, pid);

    // Second move: the person now points at b, with the same name.
    assert(s1.personnel@[pid as int].department == b);
    assert(s1.personnel@[pid as int].name == name0);
    let ri2 = choose|ri2: int|
        0 <= ri2 < b1.len() && entry_key_matches(#[trigger] b1[ri2], name0) && b2 == b1.remove(
            ri2,
        );
    lemma_own_roster_entry(s1, pid, ri2);
    lemma_members_remove(b1, b2, ri2);
    lemma_members_insert(a1, a2, name0, pid);

    // The person was in a's roster and not in b's, so removing and
    // re-adding them cancels out on both memberships.
    assert(roster_has_person(a0, pid));
    if roster_has_person(b0, pid) {
        let k = choose|k: int| 0 <= k < b0.len() && (#[trigger] b0[k]).person == pid;
        assert(s0.personnel@[pid as int].department == b);
    }
    assert(roster_members(a2) =~= roster_members(a0));
    assert(roster_members(b2) =~= roster_members(b0));
}

/// Errors surfaced by the store: duplicate aliases on create, unknown
/// aliases on lookup, and the errors the entities themselves raise.
#[derive(Debug, PartialEq, Eq)]
pub enum DataError {
    AddDept,
    AddPerson,
    NoSuchDept,
    NoSuchPerson,
    Person(PersonError),
    Department(DeptErr),
}

impl From<DeptErr> for DataError {
    fn from(error: DeptErr) -> (r: DataError) {
        DataError::Department(error)
    }
}

impl vstd::std_specs::convert::FromSpecImpl<DeptErr> for DataError {
    open spec fn obeys_from_spec() -> bool {
        true
    }

    open spec fn from_spec(error: DeptErr) -> DataError {
        DataError::Department(error)
    }
}

impl From<PersonError> for DataError {
    fn from(error: PersonError) -> (r: DataError) {
        DataError::Person(error)
    }
}

impl vstd::std_specs::convert::FromSpecImpl<PersonError> for DataError {
    open spec fn obeys_from_spec() -> bool {
        true
    }

    open spec fn from_spec(error: PersonError) -> DataError {
        DataError::Person(error)
    }
}

} // verus!

