use rusty_static_server::log::{log_entry, log_message};

#[test]
fn an_entry_for_a_given_time() {
    assert_eq!(log_entry("2024-01-02 03:04:05.678", "hello"), "[2024-01-02 03:04:05.678] hello");
    assert_eq!(log_entry("", ""), "[] ");
}

#[test]
fn an_entry_for_the_present() {
    let entry = log_message("hello");
    assert!(entry.starts_with('['));
    assert!(entry.ends_with("] hello"));
    let time = &entry[1..entry.len() - 7];
    assert!(time.len() >= 23);
    let tail: Vec<char> = time[time.len() - 19..].chars().collect();
    for (i, c) in tail.iter().enumerate() {
        match i {
            0 | 3 => assert_eq!(*c, '-'),
            6 => assert_eq!(*c, ' '),
            9 | 12 => assert_eq!(*c, ':'),
            15 => assert_eq!(*c, '.'),
            _ => assert!(c.is_ascii_digit()),
        }
    }
    assert!(chrono::NaiveDateTime::parse_from_str(time, "%Y-%m-%d %H:%M:%S%.3f").is_ok());
}
