use hashattr::hashutil::{
    is_data_not_found_error, not_found_message, require_file, run_step, AttrLookup, HashUtil, JobError, Removal,
    ERRNO_ENODATA,
};

fn util(names: &[&str], verbose: bool) -> HashUtil {
    HashUtil::new(names.iter().map(|s| s.to_string()).collect(), verbose)
}

#[test]
fn enodata_is_recognised() {
    assert_eq!(ERRNO_ENODATA, 61);
    assert!(is_data_not_found_error(Some(61)));
    assert!(!is_data_not_found_error(Some(2)));
    assert!(!is_data_not_found_error(None));
}

#[test]
fn lookups_are_classified() {
    assert!(matches!(AttrLookup::<i32>::classify(Ok(vec![1]), None), AttrLookup::Found(v) if v == vec![1]));
    assert!(matches!(AttrLookup::classify(Err(5), Some(61)), AttrLookup::Missing));
    assert!(matches!(AttrLookup::classify(Err(5), Some(13)), AttrLookup::Failed(5)));
    assert!(matches!(AttrLookup::classify(Err(5), None), AttrLookup::Failed(5)));
    assert!(matches!(Removal::<i32>::classify(Ok(()), None), Removal::Removed));
    assert!(matches!(Removal::classify(Err(1), Some(61)), Removal::Missing));
    assert!(matches!(Removal::classify(Err(1), Some(1)), Removal::Failed(1)));
}

#[test]
fn not_found_message_names_the_path() {
    assert_eq!(not_found_message("/tmp/x"), "Not found: /tmp/x");
    assert!(require_file::<i32>("/tmp/x", true).is_ok());
    match require_file::<i32>("/tmp/x", false) {
        Err(JobError::NotFound(m)) => assert_eq!(m, "Not found: /tmp/x"),
        _ => panic!("expected not found"),
    }
}

#[test]
fn one_algorithm_prints_digest_and_path() {
    let u = util(&["sha512"], false);
    assert_eq!(u.print_one(&[0xde, 0xad, 0x01], "sha512", "a/b"), "dead01  a/b");
}

#[test]
fn several_algorithms_print_the_name_right_aligned() {
    let u = util(&["sha512", "blake2b512"], false);
    assert_eq!(u.print_one(&[0x0f], "sha512", "f"), "0f [    sha512] f");
    assert_eq!(u.print_one(&[0x0f], "blake2b512", "f"), "0f [blake2b512] f");
    assert_eq!(u.print_one(&[], "averylongname", "f"), " [averylongname] f");
}

#[test]
fn print_hash_skips_missing_and_stops_at_failure() {
    let u = util(&["a", "b", "c", "d"], false);
    let r = u.print_hash(
        "p",
        vec![AttrLookup::Found(vec![1]), AttrLookup::Missing, AttrLookup::Failed(9), AttrLookup::Found(vec![2])],
    );
    assert_eq!(r.lines, vec!["01 [         a] p".to_string()]);
    assert!(matches!(r.result, Err(JobError::Failed(9))));

    let r = u.print_hash::<i32>(
        "p",
        vec![AttrLookup::Found(vec![1]), AttrLookup::Missing, AttrLookup::Missing, AttrLookup::Found(vec![0xff])],
    );
    assert_eq!(r.lines, vec!["01 [         a] p".to_string(), "ff [         d] p".to_string()]);
    assert!(matches!(r.result, Ok(true)));
}

#[test]
fn find_unhashed_reports_first_gap() {
    let u = util(&["a", "b"], false);
    let r = u.find_unhashed::<i32>("p", vec![AttrLookup::Found(vec![1]), AttrLookup::Found(vec![2])]);
    assert!(r.lines.is_empty());
    assert!(matches!(r.result, Ok(true)));

    let r = u.find_unhashed("p", vec![AttrLookup::Missing, AttrLookup::Failed(3)]);
    assert_eq!(r.lines, vec!["p".to_string()]);
    assert!(matches!(r.result, Ok(true)));

    let r = u.find_unhashed("p", vec![AttrLookup::Found(vec![1]), AttrLookup::Failed(3)]);
    assert!(r.lines.is_empty());
    assert!(matches!(r.result, Err(JobError::Failed(3))));
}

#[test]
fn check_targets_keep_found_digests_once() {
    let u = util(&["a", "b", "a", "c"], false);
    let t = u.check_targets::<i32>(vec![
        AttrLookup::Found(vec![1]),
        AttrLookup::Missing,
        AttrLookup::Found(vec![3]),
        AttrLookup::Failed(4),
    ]);
    assert_eq!(t, vec![("a".to_string(), vec![3])]);
}

#[test]
fn check_report_compares_each_digest() {
    let u = util(&["a", "b"], false);
    let expected = vec![("a".to_string(), vec![1]), ("b".to_string(), vec![2])];
    let actual = vec![("b".to_string(), vec![2]), ("a".to_string(), vec![9])];
    let (lines, ok) = u.check_report("f", &expected, &actual);
    assert_eq!(lines, vec!["f: a Failed".to_string(), "f: b OK".to_string()]);
    assert!(!ok);

    let single = util(&["a"], false);
    let expected = vec![("a".to_string(), vec![1])];
    let actual = vec![("a".to_string(), vec![1])];
    let (lines, ok) = single.check_report("f", &expected, &actual);
    assert_eq!(lines, vec!["f: OK".to_string()]);
    assert!(ok);

    let (lines, ok) = single.check_report("f", &Vec::new(), &Vec::new());
    assert!(lines.is_empty());
    assert!(ok);
}

#[test]
fn set_targets_are_the_missing_digests() {
    let u = util(&["a", "b", "c", "d"], false);
    let t = u.set_targets::<i32>(&vec![
        AttrLookup::Missing,
        AttrLookup::Found(vec![1]),
        AttrLookup::Failed(2),
        AttrLookup::Missing,
    ]);
    assert_eq!(t, Some(vec!["a".to_string(), "d".to_string()]));
    let none = u.set_targets::<i32>(&vec![
        AttrLookup::Found(vec![1]),
        AttrLookup::Found(vec![2]),
        AttrLookup::Failed(3),
        AttrLookup::Found(vec![4]),
    ]);
    assert_eq!(none, None);
}

#[test]
fn reset_step_reports_removals_when_verbose() {
    let loud = util(&["a"], true);
    let quiet = util(&["a"], false);
    assert_eq!(loud.reset_step::<i32>("f", "a", Removal::Removed), Ok(Some("f: removed a".to_string())));
    assert_eq!(quiet.reset_step::<i32>("f", "a", Removal::Removed), Ok(None));
    assert_eq!(loud.reset_step::<i32>("f", "a", Removal::Missing), Ok(None));
    assert_eq!(loud.reset_step("f", "a", Removal::Failed(7)), Err(7));
}

#[test]
fn run_step_accumulates_the_verdict() {
    assert_eq!(run_step::<i32>(true, Ok(true)), Ok(true));
    assert_eq!(run_step::<i32>(true, Ok(false)), Ok(false));
    assert_eq!(run_step::<i32>(false, Ok(true)), Ok(false));
    assert_eq!(run_step(true, Err(3)), Err(3));
}

#[test]
fn unhashed_exactly_when_something_to_set() {
    let u = util(&["a", "b"], false);
    let cases: Vec<Vec<AttrLookup<i32>>> = vec![
        vec![AttrLookup::Found(vec![1]), AttrLookup::Found(vec![2])],
        vec![AttrLookup::Found(vec![1]), AttrLookup::Missing],
        vec![AttrLookup::Missing, AttrLookup::Missing],
    ];
    for case in cases {
        let copy: Vec<AttrLookup<i32>> = case
            .iter()
            .map(|l| match l {
                AttrLookup::Found(v) => AttrLookup::Found(v.clone()),
                AttrLookup::Missing => AttrLookup::Missing,
                AttrLookup::Failed(e) => AttrLookup::Failed(*e),
            })
            .collect();
        let listed = !u.find_unhashed("p", case).lines.is_empty();
        let to_set = u.set_targets(&copy).is_some();
        assert_eq!(listed, to_set);
    }
}
