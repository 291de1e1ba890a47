use data_gen::config::Config;
use data_gen::runtime::completion_notice;
use data_gen::text::u64_to_string;

#[test]
fn name_with_subtask() {
    let config = Config::with_subtask(3, 7);
    assert_eq!("base3_7.txt", config.generate_name("base", "txt"));
}

#[test]
fn name_without_subtask() {
    let config = Config::new(42);
    assert_eq!("output/queuing42.in", config.generate_name("output/queuing", "in"));
}

#[test]
fn identity_getters() {
    let plain = Config::new(5);
    assert_eq!(5, plain.id());
    assert_eq!(None, plain.subtask_id());
    let nested = Config::with_subtask(2, 9);
    assert_eq!(9, nested.id());
    assert_eq!(Some(2), nested.subtask_id());
}

#[test]
fn notice_with_subtask() {
    let config = Config::with_subtask(3, 7);
    assert_eq!("Testcase 3-7 Generated", completion_notice(&config));
}

#[test]
fn notice_without_subtask() {
    let config = Config::new(5);
    assert_eq!("Testcase 5 Generated", completion_notice(&config));
}

#[test]
fn decimal_rendering() {
    assert_eq!("0", u64_to_string(0));
    assert_eq!("12345", u64_to_string(12345));
    assert_eq!("18446744073709551615", u64_to_string(u64::MAX));
}
