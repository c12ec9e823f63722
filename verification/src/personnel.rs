//! People: structured names, hire dates, department membership and
//! assignment history.
//!
//! A person always points at exactly one current department, held as the
//! department's index in the store's arena, and carries an append-only
//! history of `{department, effective date}` entries whose last entry is
//! always the current assignment. The transfer operation moves a person
//! between two department rosters and records the move.

use vstd::prelude::*;
use core::cmp::Ordering;
use crate::date::Date;
use crate::lex::{lex2_lt, lemma_lex2_total, str_compare};
use crate::department::{Department, roster_has_key, roster_removed_key, roster_inserted};

verus! {

/// A person's structured name: last and first are required, the middle
/// name is optional.
#[derive(Debug)]
pub struct Name {
    pub last: String,
    pub middle: Option<String>,
    pub first: String,
}

/// Natural order of people: by last name, ties broken by first name.
pub open spec fn name_lt(a: Name, b: Name) -> bool {
    lex2_lt(a.last@, a.first@, b.last@, b.first@)
}

/// Two names carry the same ordering key (last and first name agree).
pub open spec fn name_key_eq(a: Name, b: Name) -> bool {
    a.last@ == b.last@ && a.first@ == b.first@
}

/// Three-way comparison of two names in their natural order.
pub fn name_compare(a: &Name, b: &Name) -> (o: Ordering)
    ensures
        o == Ordering::Less <==> name_lt(*a, *b),
        o == Ordering::Equal <==> name_key_eq(*a, *b),
        o == Ordering::Greater <==> name_lt(*b, *a),
{
    proof {
        lemma_lex2_total(a.last@, a.first@, b.last@, b.first@);
    }
    match str_compare(a.last.as_str(), b.last.as_str()) {
        Ordering::Less => Ordering::Less,
        Ordering::Greater => Ordering::Greater,
        Ordering::Equal => str_compare(a.first.as_str(), b.first.as_str()),
    }
}

/// One entry of a person's assignment history: the department (as an
/// arena index) and the date the assignment took effect.
#[derive(Debug, Clone, Copy, PartialEq, Eq, Structural)]
pub struct DeptEntry {
    pub department: u32,
    pub date: Date,
}

/// A person: name, date of hire, current department (arena index) and
/// the history of department assignments. The first history entry is the
/// initial department at hire; the last always names the current one.
#[derive(Debug)]
pub struct Person {
    pub name: Name,
    pub date_of_hire: Date,
    pub department: u32,
    pub dept_history: Vec<DeptEntry>,
}

impl Person {
    /// The history is non-empty and ends with the current assignment.
    pub open spec fn wf(self) -> bool {
        &&& self.dept_history@.len() >= 1
        &&& self.dept_history@.last().department == self.department
    }

    /// Every department the person refers to lies inside an arena of
    /// `n_depts` departments.
    pub open spec fn valid_refs(self, n_depts: int) -> bool {
        &&& self.department < n_depts
        &&& forall|i: int|
            0 <= i < self.dept_history@.len() ==> (#[trigger] self.dept_history@[i]).department
                < n_depts
    }

    /// Start building a person; the builder refuses to finish while a
    /// required field is missing.
    pub fn builder() -> (b: PersonBuilder)
        ensures
            b.name_first is None,
            b.name_last is None,
            b.name_mid is None,
            b.doh is None,
            b.dept is None,
    {
        PersonBuilder::new()
    }

    pub fn name(&self) -> (r: &Name)
        ensures
            *r == self.name,
    {
        &self.name
    }

    pub fn name_mut(&mut self) -> (r: &mut Name)
        ensures
            *r == old(self).name,
            final(self).name == *final(r),
            final(self).date_of_hire == old(self).date_of_hire,
            final(self).department == old(self).department,
            final(self).dept_history == old(self).dept_history,
    {
        &mut self.name
    }

    pub fn first_name(&self) -> (r: &String)
        ensures
            *r == self.name.first,
    {
        &self.name.first
    }

    pub fn last_name(&self) -> (r: &String)
        ensures
            *r == self.name.last,
    {
        &self.name.last
    }

    pub fn middle_name(&self) -> (r: Option<&String>)
        ensures
            match r {
                Some(m) => self.name.middle == Some(*m),
                None => self.name.middle is None,
            },
    {
        match &self.name.middle {
            Some(mid) => Some(mid),
            None => None,
        }
    }

    pub fn date_of_hire(&self) -> (r: Date)
        ensures
            r == self.date_of_hire,
    {
        self.date_of_hire
    }

    /// The arena index of the person's current department.
    pub fn department(&self) -> (r: u32)
        ensures
            r == self.department,
    {
        self.department
    }

    pub fn department_history(&self) -> (r: &Vec<DeptEntry>)
        ensures
            *r == self.dept_history,
    {
        &self.dept_history
    }

    pub fn department_history_mut(&mut self) -> (r: &mut Vec<DeptEntry>)
        ensures
            *r == old(self).dept_history,
            final(self).dept_history == *final(r),
            final(self).name == old(self).name,
            final(self).date_of_hire == old(self).date_of_hire,
            final(self).department == old(self).department,
    {
        &mut self.dept_history
    }

    /// Move this person from their current department to `new_dept`,
    /// recording the move in the history with the given effective date.
    ///
    /// A transfer to the current department fails and changes nothing.
    /// When the person is missing from the roster they point at, or a
    /// person with the same name key is already listed in the target
    /// roster, the rosters and the person are left exactly as they were
    /// and a consistency error is returned; a move is never left half
    /// done.
    pub fn transfer(
        &mut self,
        self_id: u32,
        departments: &mut Vec<Department>,
        new_dept: u32,
        date: Date,
    ) -> (r: Result<(), PersonError>)
        requires
            old(self).department < old(departments)@.len(),
            new_dept < old(departments)@.len(),
            forall|i: int|
                0 <= i < old(departments)@.len() ==> (#[trigger] old(departments)@[i]).wf(),
        ensures
            final(departments)@.len() == old(departments)@.len(),
            forall|i: int|
                0 <= i < final(departments)@.len() ==> (#[trigger] final(departments)@[i]).wf(),
            forall|i: int|
                0 <= i < final(departments)@.len() ==> (#[trigger] final(departments)@[i]).id
                    == old(departments)@[i].id && final(departments)@[i].name == old(
                    departments,
                )@[i].name,
            r is Ok <==> (new_dept != old(self).department && roster_has_key(
                old(departments)@[old(self).department as int].employees@,
                old(self).name,
            ) && !roster_has_key(old(departments)@[new_dept as int].employees@, old(self).name)),
            match r {
                Ok(()) => {
                    &&& final(self).name == old(self).name
                    &&& final(self).date_of_hire == old(self).date_of_hire
                    &&& final(self).department == new_dept
                    &&& final(self).dept_history@ == old(self).dept_history@.push(
                        (DeptEntry { department: new_dept, date }),
                    )
                    &&& final(self).wf()
                    &&& forall|d: int|
                        0 <= d < old(departments)@.len() && d != old(self).department && d
                            != new_dept ==> #[trigger] final(departments)@[d]
                            == old(departments)@[d]
                    &&& roster_removed_key(
                        old(departments)@[old(self).department as int].employees@,
                        final(departments)@[old(self).department as int].employees@,
                        old(self).name,
                    )
                    &&& roster_inserted(
                        old(departments)@[new_dept as int].employees@,
                        final(departments)@[new_dept as int].employees@,
                        old(self).name,
                        self_id,
                    )
                },
                Err(e) => {
                    &&& *final(self) == *old(self)
                    &&& final(departments)@ == old(departments)@
                    &&& (e == PersonError::Transfer(TransferErr::AlreadyInDept) <==> (new_dept
                        == old(self).department || (new_dept != old(self).department
                        && roster_has_key(
                        old(departments)@[new_dept as int].employees@,
                        old(self).name,
                    ))))
                    &&& (e == PersonError::Transfer(TransferErr::NotListedInDept)
                        || e == PersonError::Transfer(TransferErr::AlreadyInDept))
                },
            },
    {
        // A transfer to the department the person is already a member of
        // is an ordinary, recoverable refusal.
        if new_dept == self.department {
            return Err(PersonError::Transfer(TransferErr::AlreadyInDept));
        }
        let old_dept = self.department;

        // Look at the target roster before touching anything: if the
        // insert of step three would be refused, fail now, so that a
        // failure never leaves the person outside both rosters.
        let target_occupied = departments[new_dept as usize].has_employee_named(&self.name);
        if target_occupied {
            return Err(PersonError::Transfer(TransferErr::AlreadyInDept));
        }

        // Step two: leave the old roster. A person missing from the
        // roster they point at means the indices have diverged; nothing
        // has been mutated yet, so surface the corruption and stop.
        let removed = {
            let d_old = &mut departments[old_dept as usize];
            d_old.remove_employee(&*self)
        };
        if removed.is_err() {
            proof {
                assert(final(departments)@ =~= old(departments)@);
            }
            return Err(PersonError::Transfer(TransferErr::NotListedInDept));
        }

        // Step three: join the new roster at its sorted position.
        let added = {
            let d_new = &mut departments[new_dept as usize];
            d_new.add_employee(&*self, self_id)
        };
        proof {
            if added is Err {
                assert(false);
            }
        }

        // Steps four and five: record the move and repoint the person.
        self.dept_history.push(DeptEntry { department: new_dept, date });
        self.department = new_dept;
        Ok(())
    }
}

/// Errors raised by operations on a person.
#[derive(Debug, PartialEq, Eq)]
pub enum PersonError {
    Transfer(TransferErr),
}

/// How a transfer can fail.
///
/// `AlreadyInDept` covers the recoverable refusal to transfer a person
/// to their current department, and the consistency violation of finding
/// the person's name already listed in the target roster.
/// `NotListedInDept` reports the consistency violation of a person
/// missing from the roster of the department they point at.
#[derive(Debug, PartialEq, Eq)]
pub enum TransferErr {
    NotListedInDept,
    AlreadyInDept,
}

/// Field-by-field construction of a person; `build` refuses to finish
/// while a required field (first name, last name, date of hire or
/// department) is missing.
#[derive(Debug)]
pub struct PersonBuilder {
    pub name_first: Option<String>,
    pub name_last: Option<String>,
    pub name_mid: Option<String>,
    pub doh: Option<Date>,
    pub dept: Option<u32>,
}

impl PersonBuilder {
    fn new() -> (b: Self)
        ensures
            b.name_first is None,
            b.name_last is None,
            b.name_mid is None,
            b.doh is None,
            b.dept is None,
    {
        PersonBuilder { name_first: None, name_last: None, name_mid: None, doh: None, dept: None }
    }

    pub fn first_name(&mut self, first_name: &str) -> (r: &mut Self)
        ensures
            match r.name_first {
                Some(s) => s@ == first_name@,
                None => false,
            },
            r.name_last == old(self).name_last,
            r.name_mid == old(self).name_mid,
            r.doh == old(self).doh,
            r.dept == old(self).dept,
            *final(self) == *final(r),
    {
        self.name_first = Some(first_name.to_owned());
        self
    }

    pub fn middle_name(&mut self, middle_name: &str) -> (r: &mut Self)
        ensures
            match r.name_mid {
                Some(s) => s@ == middle_name@,
                None => false,
            },
            r.name_first == old(self).name_first,
            r.name_last == old(self).name_last,
            r.doh == old(self).doh,
            r.dept == old(self).dept,
            *final(self) == *final(r),
    {
        self.name_mid = Some(middle_name.to_owned());
        self
    }

    pub fn last_name(&mut self, last_name: &str) -> (r: &mut Self)
        ensures
            match r.name_last {
                Some(s) => s@ == last_name@,
                None => false,
            },
            r.name_first == old(self).name_first,
            r.name_mid == old(self).name_mid,
            r.doh == old(self).doh,
            r.dept == old(self).dept,
            *final(self) == *final(r),
    {
        self.name_last = Some(last_name.to_owned());
        self
    }

    pub fn date_of_hire(&mut self, date_of_hire: Date) -> (r: &mut Self)
        ensures
            r.doh == Some(date_of_hire),
            r.name_first == old(self).name_first,
            r.name_last == old(self).name_last,
            r.name_mid == old(self).name_mid,
            r.dept == old(self).dept,
            *final(self) == *final(r),
    {
        self.doh = Some(date_of_hire);
        self
    }

    /// Record the home department as its arena index in the store.
    pub fn department(&mut self, department: u32) -> (r: &mut Self)
        ensures
            r.dept == Some(department),
            r.name_first == old(self).name_first,
            r.name_last == old(self).name_last,
            r.name_mid == old(self).name_mid,
            r.doh == old(self).doh,
            *final(self) == *final(r),
    {
        self.dept = Some(department);
        self
    }

    /// Finish building: succeeds exactly when the first name, last name,
    /// date of hire and department are all present. The person starts
    /// with a one-entry history: the home department, effective at the
    /// date of hire.
    pub fn build(self) -> (r: Result<Person, Self>)
        ensures
            r is Ok <==> (self.name_first is Some && self.name_last is Some && self.doh is Some
                && self.dept is Some),
            match r {
                Ok(p) => {
                    &&& self.name_first == Some(p.name.first)
                    &&& self.name_last == Some(p.name.last)
                    &&& self.name_mid == p.name.middle
                    &&& self.doh == Some(p.date_of_hire)
                    &&& self.dept == Some(p.department)
                    &&& p.dept_history@.len() == 1
                    &&& p.dept_history@[0] == (DeptEntry {
                        department: p.department,
                        date: p.date_of_hire,
                    })
                    &&& p.wf()
                },
                Err(b) => b == self,
            },
    {
        if self.name_first.is_none() || self.name_last.is_none() || self.doh.is_none()
            || self.dept.is_none() {
            return Err(self);
        }

        let name = Name {
            last: self.name_last.unwrap(),
            middle: self.name_mid,
            first: self.name_first.unwrap(),
        };

        let department = self.dept.unwrap();
        let doh = self.doh.unwrap();

        let dept_entry = DeptEntry { department, date: doh };
        let mut dept_history: Vec<DeptEntry> = Vec::new();
        dept_history.push(dept_entry);

        Ok(Person { name, date_of_hire: doh, department, dept_history })
    }
}

} // verus!
