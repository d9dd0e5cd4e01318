use hashattr::jobs::{Job, Options};

fn options() -> Options {
    Options {
        check_hashes: false,
        find_unhashed: false,
        print_hashes: false,
        reset_hashes: false,
        set_hashes: false,
        threads_count: None,
        all_threads: false,
    }
}

#[test]
fn each_flag_names_its_job() {
    let mut o = options();
    assert_eq!(o.get_job_name(), None);
    o.set_hashes = true;
    assert_eq!(o.get_job_name(), Some("hasher".to_string()));
    o.reset_hashes = true;
    assert_eq!(o.get_job_name(), Some("reset_hashes".to_string()));
    o.print_hashes = true;
    assert_eq!(o.get_job_name(), Some("print_hashes".to_string()));
    o.find_unhashed = true;
    assert_eq!(o.get_job_name(), Some("find_unhashed".to_string()));
    o.check_hashes = true;
    assert_eq!(o.get_job_name(), Some("checker".to_string()));
}

#[test]
fn names_select_jobs() {
    assert!(Job::from_name("checker") == Some(Job::Check));
    assert!(Job::from_name("find_unhashed") == Some(Job::FindUnhashed));
    assert!(Job::from_name("print_hashes") == Some(Job::PrintHashes));
    assert!(Job::from_name("reset_hashes") == Some(Job::ResetHashes));
    assert!(Job::from_name("hasher") == Some(Job::SetHashes));
    assert!(Job::from_name("hashutil") == None);
    assert!(Job::from_name("") == None);
}

#[test]
fn the_flagged_name_selects_the_flagged_job() {
    let mut o = options();
    o.print_hashes = true;
    let name = o.get_job_name().unwrap();
    assert!(Job::from_name(&name) == Some(Job::PrintHashes));
}

#[test]
fn worker_count_prefers_the_given_count() {
    let mut o = options();
    assert_eq!(o.get_worker_count(|| panic!("not asked")), 1);
    o.all_threads = true;
    assert_eq!(o.get_worker_count(|| 12), 12);
    o.threads_count = Some(3);
    assert_eq!(o.get_worker_count(|| panic!("not asked")), 3);
}
