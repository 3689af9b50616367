use amazon_history::{Date, Log};

#[test]
fn dummy_history_log_is_counted() {
    let logs = vec![Log {
        hash: "B088KDK163".to_string(),
        name: "name".to_string(),
        price: 42,
        purchased_at: Date { year: 2021, month: 7, day: 17 },
    }];
    assert_eq!(logs.iter().filter(|&log| log.hash == "B088KDK163").count(), 1);
}
