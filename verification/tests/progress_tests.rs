use booru_fetch::models::progress::{save_name, LinkOutcome, Progress};

fn total(p: &Progress) -> usize {
    p.success + p.failed.len() + p.not_found.len() + p.skipped.len()
}

#[test]
fn tally_files_each_link_under_its_outcome() {
    let mut p = Progress::new();
    assert!(p.all_succeeded());
    p.record(0, "https://rule34.xxx/a", LinkOutcome::Saved);
    p.record(1, "https://example.com/b", LinkOutcome::Skipped);
    p.record(2, "https://rule34.us/c", LinkOutcome::NotFound);
    p.record(3, "https://nozomi.la/d", LinkOutcome::Failed);
    p.record(4, "https://danbooru.donmai.us/e", LinkOutcome::Saved);
    assert_eq!(p.success, 2);
    assert_eq!(p.skipped, vec![(1, "https://example.com/b".to_string())]);
    assert_eq!(p.not_found, vec![(2, "https://rule34.us/c".to_string())]);
    assert_eq!(p.failed, vec![(3, "https://nozomi.la/d".to_string())]);
    assert!(!p.all_succeeded());
}

#[test]
fn each_recorded_link_is_counted_once() {
    let outcomes = [
        LinkOutcome::Saved,
        LinkOutcome::Failed,
        LinkOutcome::NotFound,
        LinkOutcome::Skipped,
        LinkOutcome::Saved,
        LinkOutcome::Skipped,
    ];
    let mut p = Progress::new();
    for (i, o) in outcomes.iter().enumerate() {
        let before = total(&p);
        p.record(i, "link", *o);
        assert_eq!(total(&p), before + 1);
    }
    assert_eq!(total(&p), outcomes.len());
}

#[test]
fn run_succeeds_exactly_when_every_link_was_saved() {
    let mut p = Progress::new();
    for i in 0..3 {
        p.record(i, "x", LinkOutcome::Saved);
    }
    assert!(p.all_succeeded());
    assert_eq!(total(&p), p.success);
    p.record(3, "y", LinkOutcome::NotFound);
    assert!(!p.all_succeeded());
    assert_ne!(total(&p), p.success);
}

#[test]
fn save_names_count_from_the_start_name() {
    assert_eq!(save_name(0, 0), "0");
    assert_eq!(save_name(0, 1), "1");
    assert_eq!(save_name(9, 1), "10");
    assert_eq!(save_name(41, 1000), "1041");
    assert_eq!(save_name(usize::MAX - 5, 5), usize::MAX.to_string());
}
