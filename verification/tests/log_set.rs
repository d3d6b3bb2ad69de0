use kvs::engines::toy_bitcask::{list_log_file_in, log_file_of, log_id_of};

#[test]
fn log_file_of_writes_the_id_in_decimal() {
    assert_eq!(log_file_of(0), "0.log");
    assert_eq!(log_file_of(1), "1.log");
    assert_eq!(log_file_of(10), "10.log");
    assert_eq!(log_file_of(1234567890), "1234567890.log");
    assert_eq!(log_file_of(u64::MAX), "18446744073709551615.log");
}

#[test]
fn log_id_of_reads_what_log_file_of_writes() {
    for id in [0u64, 1, 9, 10, 99, 100, 4096, u64::MAX - 1, u64::MAX] {
        assert_eq!(log_id_of(&log_file_of(id)), Some(id));
    }
}

#[test]
fn log_id_of_passes_over_other_names() {
    assert_eq!(log_id_of("engine"), None);
    assert_eq!(log_id_of(".log"), None);
    assert_eq!(log_id_of("log"), None);
    assert_eq!(log_id_of("a.log"), None);
    assert_eq!(log_id_of("1.txt"), None);
    assert_eq!(log_id_of("1.log.log"), None);
    assert_eq!(log_id_of("+1.log"), None);
    assert_eq!(log_id_of("-1.log"), None);
    assert_eq!(log_id_of("1 .log"), None);
    assert_eq!(log_id_of("1.LOG"), None);
    assert_eq!(log_id_of("١.log"), None);
    assert_eq!(log_id_of("18446744073709551616.log"), None);
    assert_eq!(log_id_of("99999999999999999999999.log"), None);
}

#[test]
fn log_id_of_reads_leading_zeros() {
    assert_eq!(log_id_of("007.log"), Some(7));
    assert_eq!(log_id_of("0.log"), Some(0));
    assert_eq!(log_id_of("00018446744073709551615.log"), Some(u64::MAX));
}

#[test]
fn list_log_file_in_sorts_and_filters() {
    let names: Vec<String> = ["10.log", "engine", "2.log", "notes.txt", "1.log", "x.log", "33.log"]
        .iter()
        .map(|s| s.to_string())
        .collect();
    assert_eq!(list_log_file_in(&names), vec![1, 2, 10, 33]);
}

#[test]
fn list_log_file_in_of_nothing_is_empty() {
    assert_eq!(list_log_file_in(&Vec::new()), Vec::<u64>::new());
    let names = vec!["engine".to_string()];
    assert_eq!(list_log_file_in(&names), Vec::<u64>::new());
}

#[test]
fn list_log_file_in_lists_an_id_once_for_each_name() {
    let names = vec!["5.log".to_string(), "05.log".to_string(), "3.log".to_string()];
    assert_eq!(list_log_file_in(&names), vec![3, 5, 5]);
}
