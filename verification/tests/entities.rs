use depart_mental::date::{today, Date};
use depart_mental::department::{Department, DeptErr};
use depart_mental::lex::str_compare;
use depart_mental::personnel::{name_compare, DeptEntry, Name, Person, PersonError, TransferErr};
use std::cmp::Ordering;

fn date(year: i32, month: u32, day: u32) -> Date {
    Date { year, month, day }
}

fn person(first: &str, last: &str, dept: u32) -> Person {
    let mut b = Person::builder();
    b.first_name(first).last_name(last).date_of_hire(date(2020, 1, 1)).department(dept);
    b.build().unwrap()
}

#[test]
fn builder_requires_all_required_fields() {
    let b = Person::builder();
    assert!(b.build().is_err());

    let mut b = Person::builder();
    b.first_name("Sally").last_name("Smith").date_of_hire(date(2020, 1, 15));
    assert!(b.build().is_err());

    let mut b = Person::builder();
    b.first_name("Sally").last_name("Smith").department(0);
    assert!(b.build().is_err());

    let mut b = Person::builder();
    b.first_name("Sally")
        .middle_name("Ann")
        .last_name("Smith")
        .date_of_hire(date(2020, 1, 15))
        .department(3);
    let p = b.build().unwrap();
    assert_eq!(p.first_name().as_str(), "Sally");
    assert_eq!(p.middle_name().unwrap().as_str(), "Ann");
    assert_eq!(p.last_name().as_str(), "Smith");
    assert_eq!(p.date_of_hire(), date(2020, 1, 15));
    assert_eq!(p.department(), 3);
    assert_eq!(
        *p.department_history(),
        vec![DeptEntry { department: 3, date: date(2020, 1, 15) }]
    );
}

#[test]
fn builder_without_middle_name_leaves_it_empty() {
    let p = person("Sally", "Smith", 0);
    assert!(p.middle_name().is_none());
    assert_eq!(p.name().first.as_str(), "Sally");
    assert_eq!(p.name().last.as_str(), "Smith");
}

#[test]
fn person_mutators_touch_only_their_field() {
    let mut p = person("Sally", "Smith", 0);
    p.name_mut().first = String::from("Sal");
    assert_eq!(p.first_name().as_str(), "Sal");
    assert_eq!(p.department(), 0);
    assert_eq!(p.date_of_hire(), date(2020, 1, 1));

    p.department_history_mut().push(DeptEntry { department: 7, date: date(2021, 2, 3) });
    assert_eq!(p.department_history().len(), 2);
    assert_eq!(p.first_name().as_str(), "Sal");
}

#[test]
fn department_add_keeps_roster_sorted_and_rejects_duplicates() {
    let mut dept = Department::new("Engineering", 1);
    assert_eq!(dept.name().as_str(), "Engineering");
    assert!(dept.employees.is_empty());

    dept.add_employee(&person("Zoe", "Young", 0), 0).unwrap();
    dept.add_employee(&person("Mia", "Adams", 0), 1).unwrap();
    dept.add_employee(&person("Al", "Young", 0), 2).unwrap();

    let order: Vec<u32> = dept.employees.iter().map(|e| e.person).collect();
    assert_eq!(order, vec![1, 2, 0]);

    let dup = dept.add_employee(&person("Zoe", "Young", 0), 9);
    assert_eq!(dup, Err(DeptErr::AddEmployee));
    assert_eq!(dept.employees.len(), 3);
}

#[test]
fn department_remove_returns_the_handle() {
    let mut dept = Department::new("Engineering", 1);
    dept.add_employee(&person("Zoe", "Young", 0), 4).unwrap();
    dept.add_employee(&person("Mia", "Adams", 0), 5).unwrap();

    let removed = dept.remove_employee(&person("Zoe", "Young", 0));
    assert_eq!(removed, Ok(4));
    assert_eq!(dept.employees.len(), 1);
    assert_eq!(dept.employees[0].person, 5);

    let missing = dept.remove_employee(&person("Zoe", "Young", 0));
    assert_eq!(missing, Err(DeptErr::RemoveEmployee));
    assert_eq!(dept.employees.len(), 1);
}

#[test]
fn transfer_moves_between_rosters_and_records_history() {
    let mut departments = vec![Department::new("Alpha", 1), Department::new("Beta", 2)];
    let mut kim = person("Kim", "Lee", 0);
    departments[0].add_employee(&kim, 0).unwrap();

    kim.transfer(0, &mut departments, 1, date(2022, 3, 4)).unwrap();

    assert!(departments[0].employees.is_empty());
    assert_eq!(departments[1].employees.len(), 1);
    assert_eq!(departments[1].employees[0].person, 0);
    assert_eq!(kim.department(), 1);
    assert_eq!(
        kim.department_history().last().unwrap(),
        &DeptEntry { department: 1, date: date(2022, 3, 4) }
    );
}

#[test]
fn transfer_to_same_department_is_refused() {
    let mut departments = vec![Department::new("Alpha", 1)];
    let mut kim = person("Kim", "Lee", 0);
    departments[0].add_employee(&kim, 0).unwrap();

    let r = kim.transfer(0, &mut departments, 0, date(2022, 3, 4));
    assert_eq!(r, Err(PersonError::Transfer(TransferErr::AlreadyInDept)));
    assert_eq!(departments[0].employees.len(), 1);
    assert_eq!(kim.department_history().len(), 1);
}

#[test]
fn transfer_of_unlisted_person_surfaces_corruption() {
    let mut departments = vec![Department::new("Alpha", 1), Department::new("Beta", 2)];
    let mut kim = person("Kim", "Lee", 0);
    // Kim points at Alpha but was never enrolled there.
    let r = kim.transfer(0, &mut departments, 1, date(2022, 3, 4));
    assert_eq!(r, Err(PersonError::Transfer(TransferErr::NotListedInDept)));
    assert!(departments[0].employees.is_empty());
    assert!(departments[1].employees.is_empty());
    assert_eq!(kim.department(), 0);
}

#[test]
fn transfer_into_occupied_name_slot_is_refused_whole() {
    let mut departments = vec![Department::new("Alpha", 1), Department::new("Beta", 2)];
    let mut kim = person("Kim", "Lee", 0);
    departments[0].add_employee(&kim, 0).unwrap();
    departments[1].add_employee(&person("Kim", "Lee", 1), 1).unwrap();

    let r = kim.transfer(0, &mut departments, 1, date(2022, 3, 4));
    assert_eq!(r, Err(PersonError::Transfer(TransferErr::AlreadyInDept)));
    // Nothing moved: Kim is still listed in Alpha alone.
    assert_eq!(departments[0].employees.len(), 1);
    assert_eq!(departments[1].employees.len(), 1);
    assert_eq!(kim.department(), 0);
    assert_eq!(kim.department_history().len(), 1);
}

#[test]
fn string_comparison_is_lexicographic() {
    assert_eq!(str_compare("abc", "abd"), Ordering::Less);
    assert_eq!(str_compare("abc", "abc"), Ordering::Equal);
    assert_eq!(str_compare("abcd", "abc"), Ordering::Greater);
    assert_eq!(str_compare("", "a"), Ordering::Less);
    assert_eq!(str_compare("Smith", "Young"), Ordering::Less);
}

#[test]
fn name_comparison_orders_by_last_then_first() {
    let zoe = Name { last: String::from("Young"), middle: None, first: String::from("Zoe") };
    let al = Name { last: String::from("Young"), middle: None, first: String::from("Al") };
    let mia = Name { last: String::from("Adams"), middle: None, first: String::from("Mia") };
    assert_eq!(name_compare(&al, &zoe), Ordering::Less);
    assert_eq!(name_compare(&mia, &al), Ordering::Less);
    assert_eq!(name_compare(&zoe, &mia), Ordering::Greater);
    // Equality goes by the (last, first) key; the middle name plays no part.
    let zoe_m =
        Name { last: String::from("Young"), middle: Some(String::from("Q")), first: String::from("Zoe") };
    assert_eq!(name_compare(&zoe, &zoe_m), Ordering::Equal);
}

#[test]
fn calendar_validity_follows_the_gregorian_rules() {
    assert!(date(2021, 1, 31).is_valid());
    assert!(!date(2021, 2, 29).is_valid());
    assert!(date(2020, 2, 29).is_valid());
    assert!(!date(1900, 2, 29).is_valid());
    assert!(date(2000, 2, 29).is_valid());
    assert!(!date(2021, 4, 31).is_valid());
    assert!(date(2021, 4, 30).is_valid());
    assert!(!date(2021, 13, 1).is_valid());
    assert!(!date(2021, 0, 1).is_valid());
    assert!(!date(2021, 6, 0).is_valid());
}

#[test]
fn today_returns_a_real_month_and_day() {
    let d = today();
    assert!((1..=12).contains(&d.month));
    assert!((1..=31).contains(&d.day));
}
