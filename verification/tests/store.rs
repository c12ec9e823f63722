use depart_mental::data_handling::{DataError, ProgramData};
use depart_mental::date::Date;
use depart_mental::department::DeptErr;
use depart_mental::personnel::{DeptEntry, Person, PersonError, TransferErr};

fn date(year: i32, month: u32, day: u32) -> Date {
    Date { year, month, day }
}

fn build_person(first: &str, last: &str, doh: Date, dept: u32) -> Person {
    let mut b = Person::builder();
    b.first_name(first).last_name(last).date_of_hire(doh).department(dept);
    b.build().expect("all required fields were set")
}

fn roster_people(store: &ProgramData, dept: u32) -> Vec<u32> {
    store.departments()[dept as usize].employees.iter().map(|e| e.person).collect()
}

#[test]
fn eng_sales_transfer_scenario() {
    let mut store = ProgramData::init();
    let eng = store.add_dept("eng", "Engineering").unwrap();
    let sales = store.add_dept("sales", "Sales").unwrap();

    let sally = build_person("Sally", "Smith", date(2020, 1, 15), eng);
    let sally_id = store.add_person("sally", sally).unwrap();

    assert_eq!(roster_people(&store, eng), vec![sally_id]);
    assert_eq!(roster_people(&store, sales), Vec::<u32>::new());

    store.add_to_dept("sally", "sales", Some(date(2021, 6, 1))).unwrap();

    assert_eq!(roster_people(&store, eng), Vec::<u32>::new());
    assert_eq!(roster_people(&store, sales), vec![sally_id]);

    let history = &store.people()[sally_id as usize].department_history();
    assert_eq!(
        **history,
        vec![
            DeptEntry { department: eng, date: date(2020, 1, 15) },
            DeptEntry { department: sales, date: date(2021, 6, 1) },
        ]
    );
}

#[test]
fn duplicate_person_alias_rejected() {
    let mut store = ProgramData::init();
    let eng = store.add_dept("eng", "Engineering").unwrap();
    let sales = store.add_dept("sales", "Sales").unwrap();

    let sally = build_person("Sally", "Smith", date(2020, 1, 15), eng);
    store.add_person("sally", sally).unwrap();

    let other = build_person("Sally", "Sue", date(2021, 2, 2), sales);
    let result = store.add_person("sally", other);
    assert_eq!(result, Err(DataError::AddPerson));
    assert_eq!(store.employee_list().len(), 1);
    assert_eq!(store.people().len(), 1);
}

#[test]
fn departments_list_in_alias_order() {
    let mut store = ProgramData::init();
    store.add_dept("zeta", "Zeta Group").unwrap();
    store.add_dept("alpha", "Alpha Group").unwrap();
    store.add_dept("mid", "Middle Group").unwrap();

    let aliases: Vec<&str> =
        store.dept_list().iter().map(|a| a.alias().as_str()).collect();
    assert_eq!(aliases, vec!["alpha", "mid", "zeta"]);
}

#[test]
fn duplicate_department_alias_rejected() {
    let mut store = ProgramData::init();
    store.add_dept("eng", "Engineering").unwrap();

    let result = store.add_dept("eng", "Engineering Two");
    assert_eq!(result, Err(DataError::AddDept));
    assert_eq!(store.dept_list().len(), 1);
    assert_eq!(store.departments().len(), 1);
    assert_eq!(store.dept_list()[0].alias().as_str(), "eng");
}

#[test]
fn new_person_is_in_exactly_one_roster() {
    let mut store = ProgramData::init();
    let a = store.add_dept("a", "Alpha").unwrap();
    let b = store.add_dept("b", "Beta").unwrap();
    let c = store.add_dept("c", "Gamma").unwrap();

    let pat = build_person("Pat", "Jones", date(2019, 3, 4), b);
    let pat_id = store.add_person("pat", pat).unwrap();

    assert!(!roster_people(&store, a).contains(&pat_id));
    assert!(roster_people(&store, b).contains(&pat_id));
    assert!(!roster_people(&store, c).contains(&pat_id));
    assert_eq!(store.people()[pat_id as usize].department(), b);
}

#[test]
fn transfer_round_trip_restores_rosters() {
    let mut store = ProgramData::init();
    let a = store.add_dept("a", "Alpha").unwrap();
    let b = store.add_dept("b", "Beta").unwrap();

    let kim = build_person("Kim", "Lee", date(2018, 7, 1), a);
    let kim_id = store.add_person("kim", kim).unwrap();
    let bo = build_person("Bo", "Chan", date(2018, 8, 1), a);
    let bo_id = store.add_person("bo", bo).unwrap();

    let a_before = roster_people(&store, a);
    let b_before = roster_people(&store, b);
    let history_before = store.people()[kim_id as usize].department_history().len();

    store.add_to_dept("kim", "b", Some(date(2022, 1, 1))).unwrap();
    store.add_to_dept("kim", "a", Some(date(2022, 2, 1))).unwrap();

    assert_eq!(roster_people(&store, a), a_before);
    assert_eq!(roster_people(&store, b), b_before);
    assert_eq!(
        store.people()[kim_id as usize].department_history().len(),
        history_before + 2
    );
    assert!(roster_people(&store, a).contains(&bo_id));
}

#[test]
fn transfer_to_current_department_changes_nothing() {
    let mut store = ProgramData::init();
    let a = store.add_dept("a", "Alpha").unwrap();
    store.add_dept("b", "Beta").unwrap();

    let kim = build_person("Kim", "Lee", date(2018, 7, 1), a);
    let kim_id = store.add_person("kim", kim).unwrap();

    let roster_before = roster_people(&store, a);
    let history_before = store.people()[kim_id as usize].department_history().clone();

    let result = store.add_to_dept("kim", "a", Some(date(2023, 5, 5)));
    assert_eq!(
        result,
        Err(DataError::Person(PersonError::Transfer(TransferErr::AlreadyInDept)))
    );
    assert_eq!(roster_people(&store, a), roster_before);
    assert_eq!(
        *store.people()[kim_id as usize].department_history(),
        history_before
    );
    assert_eq!(store.people()[kim_id as usize].department(), a);
}

#[test]
fn rosters_stay_sorted_through_adds_and_transfers() {
    let mut store = ProgramData::init();
    let a = store.add_dept("a", "Alpha").unwrap();
    let b = store.add_dept("b", "Beta").unwrap();

    for (alias, first, last) in [
        ("zoe", "Zoe", "Young"),
        ("al", "Al", "Young"),
        ("mia", "Mia", "Adams"),
        ("ben", "Ben", "Miller"),
    ] {
        let p = build_person(first, last, date(2020, 1, 1), a);
        store.add_person(alias, p).unwrap();
    }
    store.add_to_dept("ben", "b", Some(date(2021, 1, 1))).unwrap();
    store.add_to_dept("ben", "a", Some(date(2021, 2, 1))).unwrap();

    for dept in [a, b] {
        let roster = &store.departments()[dept as usize].employees;
        for pair in roster.windows(2) {
            let key0 = (pair[0].last.as_str(), pair[0].first.as_str());
            let key1 = (pair[1].last.as_str(), pair[1].first.as_str());
            assert!(key0 < key1, "roster out of order: {:?} !< {:?}", key0, key1);
        }
    }
    let a_names: Vec<(&str, &str)> = store.departments()[a as usize]
        .employees
        .iter()
        .map(|e| (e.last.as_str(), e.first.as_str()))
        .collect();
    assert_eq!(
        a_names,
        vec![("Adams", "Mia"), ("Miller", "Ben"), ("Young", "Al"), ("Young", "Zoe")]
    );
}

#[test]
fn unknown_aliases_are_reported() {
    let mut store = ProgramData::init();
    let a = store.add_dept("a", "Alpha").unwrap();
    let kim = build_person("Kim", "Lee", date(2018, 7, 1), a);
    store.add_person("kim", kim).unwrap();

    assert_eq!(
        store.add_to_dept("nobody", "a", None),
        Err(DataError::NoSuchPerson)
    );
    assert_eq!(
        store.add_to_dept("kim", "nowhere", None),
        Err(DataError::NoSuchDept)
    );
}

#[test]
fn duplicate_name_in_home_department_rejected_without_partial_state() {
    let mut store = ProgramData::init();
    let a = store.add_dept("a", "Alpha").unwrap();

    let kim1 = build_person("Kim", "Lee", date(2018, 7, 1), a);
    store.add_person("kim1", kim1).unwrap();

    let kim2 = build_person("Kim", "Lee", date(2019, 7, 1), a);
    let result = store.add_person("kim2", kim2);
    assert_eq!(result, Err(DataError::Department(DeptErr::AddEmployee)));
    assert_eq!(store.employee_list().len(), 1);
    assert_eq!(store.people().len(), 1);
    assert_eq!(roster_people(&store, a).len(), 1);
}

#[test]
fn transfer_into_roster_with_same_name_rejected_unchanged() {
    let mut store = ProgramData::init();
    let a = store.add_dept("a", "Alpha").unwrap();
    let b = store.add_dept("b", "Beta").unwrap();

    let kim_a = build_person("Kim", "Lee", date(2018, 7, 1), a);
    let kim_a_id = store.add_person("kima", kim_a).unwrap();
    let kim_b = build_person("Kim", "Lee", date(2019, 7, 1), b);
    let kim_b_id = store.add_person("kimb", kim_b).unwrap();

    let result = store.add_to_dept("kima", "b", Some(date(2023, 1, 1)));
    assert_eq!(
        result,
        Err(DataError::Person(PersonError::Transfer(TransferErr::AlreadyInDept)))
    );
    assert_eq!(roster_people(&store, a), vec![kim_a_id]);
    assert_eq!(roster_people(&store, b), vec![kim_b_id]);
    assert_eq!(store.people()[kim_a_id as usize].department(), a);
}

#[test]
fn transfer_with_no_date_uses_a_real_month_and_day() {
    let mut store = ProgramData::init();
    let a = store.add_dept("a", "Alpha").unwrap();
    store.add_dept("b", "Beta").unwrap();
    let kim = build_person("Kim", "Lee", date(2018, 7, 1), a);
    let kim_id = store.add_person("kim", kim).unwrap();

    store.add_to_dept("kim", "b", None).unwrap();

    let history = store.people()[kim_id as usize].department_history();
    let effective = history.last().unwrap().date;
    assert!((1..=12).contains(&effective.month));
    assert!((1..=31).contains(&effective.day));
}

#[test]
fn alias_lookups_resolve_handles() {
    let mut store = ProgramData::init();
    let a = store.add_dept("a", "Alpha").unwrap();
    let b = store.add_dept("b", "Beta").unwrap();
    let kim = build_person("Kim", "Lee", date(2018, 7, 1), b);
    let kim_id = store.add_person("kim", kim).unwrap();

    assert_eq!(store.dept_by_alias("a"), Some(a));
    assert_eq!(store.dept_by_alias("b"), Some(b));
    assert_eq!(store.dept_by_alias("c"), None);
    assert_eq!(store.person_by_alias("kim"), Some(kim_id));
    assert_eq!(store.person_by_alias("kin"), None);

    let entry = &store.dept_list()[0];
    assert_eq!(entry.alias().as_str(), "a");
    assert_eq!(entry.clone_pointer(), a);
    assert_eq!(*entry.borrow_pointer(), a);
    let person_entry = &store.employee_list()[0];
    assert_eq!(person_entry.alias().as_str(), "kim");
    assert_eq!(person_entry.pointer(), kim_id);
}

#[test]
fn department_ids_are_sequential_and_names_kept() {
    let mut store = ProgramData::init();
    let a = store.add_dept("ops", "Operations").unwrap();
    let b = store.add_dept("hr", "Human Resources").unwrap();

    assert_eq!(store.departments()[a as usize].id, 1);
    assert_eq!(store.departments()[b as usize].id, 2);
    assert_eq!(store.departments()[a as usize].name().as_str(), "Operations");
    assert_eq!(store.departments()[b as usize].name().as_str(), "Human Resources");

    // A refused duplicate must not consume an id.
    assert!(store.add_dept("ops", "Other").is_err());
    let c = store.add_dept("qa", "Quality").unwrap();
    assert_eq!(store.departments()[c as usize].id, 3);
}

#[test]
fn error_conversions_wrap_the_source() {
    assert_eq!(
        DataError::from(DeptErr::AddEmployee),
        DataError::Department(DeptErr::AddEmployee)
    );
    assert_eq!(
        DataError::from(PersonError::Transfer(TransferErr::NotListedInDept)),
        DataError::Person(PersonError::Transfer(TransferErr::NotListedInDept))
    );
}
