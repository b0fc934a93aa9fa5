use newkitine::client::shares::scan::{Progress, PROGRESS_INTERVAL};

#[test]
fn progress_notifies_every_interval() {
    let mut seen = Vec::new();
    let mut progress = Progress::new();
    for _ in 0..(PROGRESS_INTERVAL * 2 + 1) {
        if let Some(count) = progress.add() {
            seen.push(count);
        }
    }
    assert_eq!(seen, vec![PROGRESS_INTERVAL, PROGRESS_INTERVAL * 2]);
}
