use eolconv::select::{SelectError, select_from_matches, select_paths};

fn paths(v: &[&str]) -> Vec<Vec<u8>> {
    v.iter().map(|s| s.as_bytes().to_vec()).collect()
}

#[test]
fn exclude_wins_over_include() {
    let inc = paths(&["a.txt", "secret.txt"]);
    let excl = paths(&["secret.txt"]);
    assert_eq!(select_from_matches(&inc, &excl), paths(&["a.txt"]));
}

#[test]
fn exclusion_holds_regardless_of_order() {
    let inc_one = paths(&["a.txt", "secret.txt", "b.txt"]);
    let inc_two = paths(&["secret.txt", "b.txt", "a.txt"]);
    let excl_one = paths(&["secret.txt", "other.txt"]);
    let excl_two = paths(&["other.txt", "secret.txt"]);
    let r_one = select_from_matches(&inc_one, &excl_one);
    let r_two = select_from_matches(&inc_two, &excl_two);
    assert!(!r_one.contains(&b"secret.txt".to_vec()));
    assert!(!r_two.contains(&b"secret.txt".to_vec()));
    assert!(r_one.contains(&b"a.txt".to_vec()));
    assert!(r_two.contains(&b"a.txt".to_vec()));
}

#[test]
fn duplicate_matches_appear_once() {
    let inc = paths(&["a.txt", "b.txt", "a.txt", "a.txt"]);
    let excl = paths(&[]);
    assert_eq!(select_from_matches(&inc, &excl), paths(&["a.txt", "b.txt"]));
}

#[test]
fn first_occurrence_order_is_kept() {
    let inc = paths(&["c.txt", "a.txt", "b.txt", "a.txt"]);
    let excl = paths(&[]);
    assert_eq!(
        select_from_matches(&inc, &excl),
        paths(&["c.txt", "a.txt", "b.txt"])
    );
}

#[test]
fn empty_include_list_selects_nothing() {
    let r = select_paths(&Vec::new(), &Vec::new(), true);
    assert_eq!(r, Ok(Vec::new()));
}

#[test]
fn invalid_include_pattern_is_a_configuration_error() {
    let inc = vec!["[".to_string()];
    let r = select_paths(&inc, &Vec::new(), true);
    assert_eq!(r, Err(SelectError::InvalidInclude(0)));
}

#[test]
fn pattern_invalid_per_component_is_a_configuration_error() {
    // Compiles as a whole (a bracket class holding the separator) but not
    // component by component, so the expansion would reject it: the
    // fail-fast pass must report it as a pattern error, not an I/O one.
    let inc = vec!["[/]".to_string()];
    let r = select_paths(&inc, &Vec::new(), true);
    assert_eq!(r, Err(SelectError::InvalidInclude(0)));
}

#[test]
fn invalid_exclude_pattern_is_reported_with_its_place() {
    let inc = vec!["*.rs".to_string()];
    let excl = vec!["ok*".to_string(), "a**b".to_string()];
    let r = select_paths(&inc, &excl, true);
    assert_eq!(r, Err(SelectError::InvalidExclude(1)));
}

#[test]
fn pattern_matching_nothing_is_not_an_error() {
    let inc = vec!["/nonexistent-zz-dir-for-this-test/*.nope".to_string()];
    let r = select_paths(&inc, &Vec::new(), true);
    assert_eq!(r, Ok(Vec::new()));
}

#[test]
fn selects_a_real_file_by_its_path() {
    let file = temp_file::with_contents(b"x\r\n");
    let path = file.path().to_str().unwrap().to_string();
    let r = select_paths(&vec![path.clone()], &Vec::new(), true);
    assert_eq!(r, Ok(vec![path.as_bytes().to_vec()]));
}

#[test]
fn two_patterns_for_one_file_select_it_once() {
    let file = temp_file::with_contents(b"x\r\n");
    let path = file.path().to_str().unwrap().to_string();
    let r = select_paths(&vec![path.clone(), path.clone()], &Vec::new(), true);
    assert_eq!(r, Ok(vec![path.as_bytes().to_vec()]));
}

#[test]
fn excluding_a_selected_file_removes_it() {
    let file = temp_file::with_contents(b"x\r\n");
    let path = file.path().to_str().unwrap().to_string();
    let r = select_paths(&vec![path.clone()], &vec![path.clone()], true);
    assert_eq!(r, Ok(Vec::new()));
}

#[test]
fn error_messages_name_the_failure() {
    assert!(SelectError::InvalidInclude(0).message().contains("include"));
    assert!(SelectError::InvalidExclude(0).message().contains("exclude"));
    assert!(!SelectError::Io.message().is_empty());
}
