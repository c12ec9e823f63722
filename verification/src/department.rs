//! Departments and their rosters.
//!
//! A department owns an ordered roster of employee entries, kept sorted
//! by the employees' natural order (last name, then first name) on every
//! mutation. Entries carry the person's name key together with the
//! person's index in the store's arena, so membership can be checked and
//! changed by binary search without consulting the arena.

use vstd::prelude::*;
use core::cmp::Ordering;
use crate::lex::{lex2_lt, lemma_lex2_total, lemma_lex2_trans, str_compare};
use crate::personnel::{Name, Person};

verus! {

/// One roster slot: the employee's name key (last and first name) and
/// the employee's index in the store's arena of people.
#[derive(Debug)]
pub struct RosterEntry {
    pub last: String,
    pub first: String,
    pub person: u32,
}

/// Roster entries in their natural order: by last name, then first name.
pub open spec fn entry_lt(a: RosterEntry, b: RosterEntry) -> bool {
    lex2_lt(a.last@, a.first@, b.last@, b.first@)
}

/// The entry carries the same name key as the given name.
pub open spec fn entry_key_matches(e: RosterEntry, n: Name) -> bool {
    e.last@ == n.last@ && e.first@ == n.first@
}

/// The entry's name key comes strictly before the given name.
pub open spec fn entry_lt_name(e: RosterEntry, n: Name) -> bool {
    lex2_lt(e.last@, e.first@, n.last@, n.first@)
}

/// The given name comes strictly before the entry's name key.
pub open spec fn name_lt_entry(n: Name, e: RosterEntry) -> bool {
    lex2_lt(n.last@, n.first@, e.last@, e.first@)
}

/// The roster is strictly sorted in the natural order; in particular no
/// two entries share a name key.
pub open spec fn roster_sorted(s: Seq<RosterEntry>) -> bool {
    forall|i: int, j: int| 0 <= i < j < s.len() ==> entry_lt(#[trigger] s[i], #[trigger] s[j])
}

/// Some entry of the roster carries this name key.
pub open spec fn roster_has_key(s: Seq<RosterEntry>, n: Name) -> bool {
    exists|i: int| 0 <= i < s.len() && entry_key_matches(#[trigger] s[i], n)
}

/// Some entry of the roster refers to this person.
pub open spec fn roster_has_person(s: Seq<RosterEntry>, id: u32) -> bool {
    exists|i: int| 0 <= i < s.len() && (#[trigger] s[i]).person == id
}

/// `post` is `pre` with the one entry carrying this name key removed.
pub open spec fn roster_removed_key(pre: Seq<RosterEntry>, post: Seq<RosterEntry>, n: Name) -> bool {
    exists|i: int|
        0 <= i < pre.len() && entry_key_matches(#[trigger] pre[i], n) && post == pre.remove(i)
}

/// `post` is `pre` with the one entry carrying this name key removed,
/// and that entry referred to this person.
pub open spec fn roster_removed_person(
    pre: Seq<RosterEntry>,
    post: Seq<RosterEntry>,
    n: Name,
    id: u32,
) -> bool {
    exists|i: int|
        0 <= i < pre.len() && entry_key_matches(#[trigger] pre[i], n) && pre[i].person == id
            && post == pre.remove(i)
}

/// `post` is `pre` with one new entry inserted that carries this name
/// key and refers to this person.
pub open spec fn roster_inserted(
    pre: Seq<RosterEntry>,
    post: Seq<RosterEntry>,
    n: Name,
    id: u32,
) -> bool {
    exists|j: int|
        0 <= j <= pre.len() && post == pre.insert(j, #[trigger] post[j]) && entry_key_matches(
            post[j],
            n,
        ) && post[j].person == id
}

/// The set of people (by arena index) a roster currently lists.
pub open spec fn roster_members(s: Seq<RosterEntry>) -> Set<u32> {
    Set::new(|id: u32| roster_has_person(s, id))
}

/// Inserting an entry for a person adds exactly that person to the
/// roster's membership.
pub proof fn lemma_members_insert(
    pre: Seq<RosterEntry>,
    post: Seq<RosterEntry>,
    n: Name,
    id: u32,
)
    requires
        roster_inserted(pre, post, n, id),
    ensures
        roster_members(post) == roster_members(pre).insert(id),
{
    let j = choose|j: int|
        0 <= j <= pre.len() && post == pre.insert(j, #[trigger] post[j]) && entry_key_matches(
            post[j],
            n,
        ) && post[j].person == id;
    assert forall|x: u32| roster_has_person(post, x) implies (roster_has_person(pre, x) || x
        == id) by {
        let k = choose|k: int| 0 <= k < post.len() && (#[trigger] post[k]).person == x;
        if k < j {
            assert(post[k] == pre[k]);
        } else if k > j {
            assert(post[k] == pre[k - 1]);
        }
    }
    assert forall|x: u32| roster_has_person(pre, x) implies roster_has_person(post, x) by {
        let k = choose|k: int| 0 <= k < pre.len() && (#[trigger] pre[k]).person == x;
        if k < j {
            assert(post[k] == pre[k]);
        } else {
            assert(post[k + 1] == pre[k]);
        }
    }
    assert(roster_has_person(post, id));
    assert(roster_members(post) =~= roster_members(pre).insert(id));
}

/// Removing the only entry that refers to a person removes exactly that
/// person from the roster's membership.
pub proof fn lemma_members_remove(pre: Seq<RosterEntry>, post: Seq<RosterEntry>, i: int)
    requires
        0 <= i < pre.len(),
        post == pre.remove(i),
        forall|k: int| 0 <= k < pre.len() && k != i ==> (#[trigger] pre[k]).person != pre[i].person,
    ensures
        roster_members(post) == roster_members(pre).remove(pre[i].person),
{
    assert forall|x: u32| roster_has_person(post, x) implies (roster_has_person(pre, x) && x
        != pre[i].person) by {
        let k = choose|k: int| 0 <= k < post.len() && (#[trigger] post[k]).person == x;
        if k < i {
            assert(post[k] == pre[k]);
        } else {
            assert(post[k] == pre[k + 1]);
        }
    }
    assert forall|x: u32| roster_has_person(pre, x) && x != pre[i].person implies
        roster_has_person(post, x) by {
        let k = choose|k: int| 0 <= k < pre.len() && (#[trigger] pre[k]).person == x;
        if k < i {
            assert(post[k] == pre[k]);
        } else {
            assert(post[k - 1] == pre[k]);
        }
    }
    assert(roster_members(post) =~= roster_members(pre).remove(pre[i].person));
}

/// A strictly sorted roster holds at most one entry per name key.
pub proof fn lemma_roster_key_unique(s: Seq<RosterEntry>, i: int, j: int, n: Name)
    requires
        roster_sorted(s),
        0 <= i < s.len(),
        0 <= j < s.len(),
        entry_key_matches(s[i], n),
        entry_key_matches(s[j], n),
    ensures
        i == j,
{
    if i != j {
        lemma_lex2_total(s[i].last@, s[i].first@, s[j].last@, s[j].first@);
    }
}

/// Three-way comparison of a roster entry against a name key.
fn entry_compare_name(e: &RosterEntry, n: &Name) -> (o: Ordering)
    ensures
        o == Ordering::Less <==> entry_lt_name(*e, *n),
        o == Ordering::Equal <==> entry_key_matches(*e, *n),
        o == Ordering::Greater <==> name_lt_entry(*n, *e),
{
    proof {
        lemma_lex2_total(e.last@, e.first@, n.last@, n.first@);
    }
    match str_compare(e.last.as_str(), n.last.as_str()) {
        Ordering::Less => Ordering::Less,
        Ordering::Greater => Ordering::Greater,
        Ordering::Equal => str_compare(e.first.as_str(), n.first.as_str()),
    }
}

/// A department: display name, numeric id (assigned by the store, never
/// reused) and the sorted roster of current employees.
#[derive(Debug)]
pub struct Department {
    pub name: String,
    pub id: u32,
    pub employees: Vec<RosterEntry>,
}

impl Department {
    /// The roster stays strictly sorted after every mutation.
    pub open spec fn wf(self) -> bool {
        roster_sorted(self.employees@)
    }

    pub fn new(name: &str, id: u32) -> (d: Self)
        ensures
            d.name@ == name@,
            d.id == id,
            d.employees@.len() == 0,
            d.wf(),
    {
        Department { name: name.to_owned(), id, employees: Vec::new() }
    }

    pub fn name(&self) -> (r: &String)
        ensures
            *r == self.name,
    {
        &self.name
    }

    /// Binary search for a name key in the sorted roster: the index of
    /// the matching entry, or the gap where an entry with this key
    /// would be inserted.
    fn search(&self, name: &Name) -> (r: Result<usize, usize>)
        requires
            self.wf(),
        ensures
            match r {
                Ok(i) => i < self.employees@.len() && entry_key_matches(
                    self.employees@[i as int],
                    *name,
                ),
                Err(i) => {
                    &&& i <= self.employees@.len()
                    &&& forall|j: int|
                        0 <= j < i ==> entry_lt_name(#[trigger] self.employees@[j], *name)
                    &&& forall|j: int|
                        i <= j < self.employees@.len() ==> name_lt_entry(
                            *name,
                            #[trigger] self.employees@[j],
                        )
                    &&& !roster_has_key(self.employees@, *name)
                },
            },
    {
        let mut lo: usize = 0;
        let mut hi: usize = self.employees.len();
        while lo < hi
            invariant
                lo <= hi <= self.employees@.len(),
                self.wf(),
                forall|j: int| 0 <= j < lo ==> entry_lt_name(#[trigger] self.employees@[j], *name),
                forall|j: int|
                    hi <= j < self.employees@.len() ==> name_lt_entry(
                        *name,
                        #[trigger] self.employees@[j],
                    ),
            decreases hi - lo,
        {
            let mid = lo + (hi - lo) / 2;
            let o = entry_compare_name(&self.employees[mid], name);
            match o {
                Ordering::Less => {
                    proof {
                        assert forall|j: int| 0 <= j < mid + 1 implies entry_lt_name(
                            #[trigger] self.employees@[j],
                            *name,
                        ) by {
                            if j < mid {
                                let e = self.employees@[j];
                                let m = self.employees@[mid as int];
                                lemma_lex2_trans(
                                    e.last@,
                                    e.first@,
                                    m.last@,
                                    m.first@,
                                    name.last@,
                                    name.first@,
                                );
                            }
                        }
                    }
                    lo = mid + 1;
                },
                Ordering::Greater => {
                    proof {
                        assert forall|j: int| mid <= j < self.employees@.len() implies
                            name_lt_entry(*name, #[trigger] self.employees@[j]) by {
                            if j > mid {
                                let e = self.employees@[j];
                                let m = self.employees@[mid as int];
                                lemma_lex2_trans(
                                    name.last@,
                                    name.first@,
                                    m.last@,
                                    m.first@,
                                    e.last@,
                                    e.first@,
                                );
                            }
                        }
                    }
                    hi = mid;
                },
                Ordering::Equal => {
                    return Ok(mid);
                },
            }
        }
        proof {
            assert forall|j: int| 0 <= j < self.employees@.len() implies !entry_key_matches(
                #[trigger] self.employees@[j],
                *name,
            ) by {
                let e = self.employees@[j];
                lemma_lex2_total(e.last@, e.first@, name.last@, name.first@);
            }
        }
        Err(lo)
    }

    /// Whether some current employee carries this name key.
    pub fn has_employee_named(&self, name: &Name) -> (b: bool)
        requires
            self.wf(),
        ensures
            b == roster_has_key(self.employees@, *name),
    {
        match self.search(name) {
            Ok(i) => {
                proof {
                    assert(entry_key_matches(self.employees@[i as int], *name));
                }
                true
            },
            Err(_) => false,
        }
    }

    /// Insert an employee at the sorted position of their name key;
    /// refused when an entry with an equal key is already listed.
    pub fn add_employee(&mut self, employee: &Person, id: u32) -> (r: Result<(), DeptErr>)
        requires
            old(self).wf(),
        ensures
            final(self).wf(),
            final(self).name == old(self).name,
            final(self).id == old(self).id,
            r is Ok <==> !roster_has_key(old(self).employees@, employee.name),
            match r {
                Ok(()) => roster_inserted(
                    old(self).employees@,
                    final(self).employees@,
                    employee.name,
                    id,
                ),
                Err(e) => e == DeptErr::AddEmployee && *final(self) == *old(self),
            },
    {
        match self.search(&employee.name) {
            Ok(_) => Err(DeptErr::AddEmployee),
            Err(i) => {
                let entry = RosterEntry {
                    last: employee.name.last.clone(),
                    first: employee.name.first.clone(),
                    person: id,
                };
                let ghost pre = self.employees@;
                self.employees.insert(i, entry);
                proof {
                    let s = self.employees@;
                    assert(s == pre.insert(i as int, s[i as int]));
                    assert forall|p: int, q: int| 0 <= p < q < s.len() implies entry_lt(
                        #[trigger] s[p],
                        #[trigger] s[q],
                    ) by {
                        if q < i {
                        } else if p < i && q == i {
                            assert(s[p] == pre[p]);
                            assert(entry_lt_name(pre[p], employee.name));
                        } else if p < i && q > i {
                            assert(s[p] == pre[p]);
                            assert(s[q] == pre[q - 1]);
                            if p == q - 1 {
                                // impossible: p < i <= q - 1
                            }
                        } else if p == i && q > i {
                            assert(s[q] == pre[q - 1]);
                            assert(name_lt_entry(employee.name, pre[q - 1]));
                        } else {
                            assert(s[p] == pre[p - 1]);
                            assert(s[q] == pre[q - 1]);
                        }
                    }
                }
                Ok(())
            },
        }
    }

    /// Remove the entry whose name key equals this person's; the
    /// person's arena index stored in that entry is returned. Refused
    /// when no entry carries the key.
    pub fn remove_employee(&mut self, employee: &Person) -> (r: Result<u32, DeptErr>)
        requires
            old(self).wf(),
        ensures
            final(self).wf(),
            final(self).name == old(self).name,
            final(self).id == old(self).id,
            r is Ok <==> roster_has_key(old(self).employees@, employee.name),
            match r {
                Ok(id) => roster_removed_person(
                    old(self).employees@,
                    final(self).employees@,
                    employee.name,
                    id,
                ),
                Err(e) => e == DeptErr::RemoveEmployee && *final(self) == *old(self),
            },
    {
        match self.search(&employee.name) {
            Err(_) => Err(DeptErr::RemoveEmployee),
            Ok(i) => {
                let ghost pre = self.employees@;
                let entry = self.employees.remove(i);
                proof {
                    assert(entry_key_matches(pre[i as int], employee.name));
                    let s = self.employees@;
                    assert forall|p: int, q: int| 0 <= p < q < s.len() implies entry_lt(
                        #[trigger] s[p],
                        #[trigger] s[q],
                    ) by {
                        if p < i {
                            assert(s[p] == pre[p]);
                        } else {
                            assert(s[p] == pre[p + 1]);
                        }
                        if q < i {
                            assert(s[q] == pre[q]);
                        } else {
                            assert(s[q] == pre[q + 1]);
                        }
                    }
                }
                Ok(entry.person)
            },
        }
    }
}

/// How a roster mutation can fail: the employee to remove is not found,
/// or the employee to add is already listed.
#[derive(Debug, PartialEq, Eq)]
pub enum DeptErr {
    RemoveEmployee,
    AddEmployee,
}

} // verus!
