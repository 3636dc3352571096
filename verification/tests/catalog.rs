use revercce::catalog::{community_colleges, universities};
use revercce::types::{Agreement, Institution, Name};

fn institution(id: i64, name: &str, is_community_college: bool) -> Institution {
    Institution {
        id,
        names: vec![Name { name: name.to_string(), ..Name::default() }],
        is_community_college,
        ..Institution::default()
    }
}

fn agreement(id: i64, is_community_college: bool, years: &[i64]) -> Agreement {
    Agreement {
        institution_parent_id: id,
        is_community_college,
        sending_year_ids: years.to_vec(),
        ..Agreement::default()
    }
}

#[test]
fn universities_are_the_institutions_that_are_no_community_colleges() {
    let all = vec![
        institution(1, "City College", true),
        institution(2, "State University", false),
        institution(3, "Valley College", true),
        institution(4, "Tech", false),
    ];
    assert_eq!(universities(&all), vec![1, 3]);
    assert_eq!(universities(&vec![]), Vec::<usize>::new());
    assert_eq!(universities(&vec![institution(1, "C", true)]), Vec::<usize>::new());
    assert_eq!(universities(&vec![institution(1, "U", false)]), vec![0]);
}

#[test]
fn agreements_with_community_colleges_are_kept() {
    let all = vec![
        agreement(10, true, &[70]),
        agreement(11, false, &[70]),
        agreement(12, true, &[]),
        agreement(13, true, &[71, 72]),
    ];
    assert_eq!(community_colleges(&all), vec![0, 2, 3]);
    assert_eq!(community_colleges(&vec![]), Vec::<usize>::new());
}

#[test]
fn institution_is_shown_by_its_first_name() {
    let mut i = institution(5, "University of Somewhere", false);
    i.names.push(Name { name: "Somewhere State".to_string(), ..Name::default() });
    assert_eq!(i.display_name(), "University of Somewhere");
}

#[test]
fn latest_sending_year_is_the_last_listed() {
    assert_eq!(agreement(1, true, &[]).latest_sending_year(), None);
    assert_eq!(agreement(1, true, &[74]).latest_sending_year(), Some(74));
    assert_eq!(agreement(1, true, &[70, 75, 72]).latest_sending_year(), Some(72));
}
