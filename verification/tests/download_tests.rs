use oszdl::download::check_status;
use oszdl::download::run_batch;
use oszdl::download::process_stream;
use oszdl::download::BatchReport;
use oszdl::download::DownloadError;
use oszdl::download::DownloadOutcome;
use oszdl::download::ItemStream;
use oszdl::download::ProgressTracker;
use oszdl::download::StreamEvent;
use oszdl::response::Beatmap;

fn entry(id: usize) -> Beatmap {
    Beatmap {
        artist: "a".to_string(),
        creator: "c".to_string(),
        title: "t".to_string(),
        id,
    }
}

#[test]
fn one_broken_stream_does_not_abort_the_batch() {
    let entries = vec![entry(1), entry(2), entry(3)];
    let streams = vec![
        ItemStream {
            total: Some(8),
            events: vec![StreamEvent::Chunk(vec![1, 2, 3, 4, 5]), StreamEvent::Chunk(vec![6, 7, 8])],
        },
        ItemStream {
            total: Some(9),
            events: vec![
                StreamEvent::Chunk(vec![9, 9, 9]),
                StreamEvent::Chunk(vec![8, 8, 8]),
                StreamEvent::Interrupted,
            ],
        },
        ItemStream { total: Some(4), events: vec![StreamEvent::Chunk(vec![1, 2, 3, 4])] },
    ];
    let (report, files) = run_batch(&entries, &streams);

    assert_eq!(report.outcomes.len(), 3);
    assert_eq!(report.outcomes[0], (1, DownloadOutcome::Completed(8)));
    assert_eq!(report.outcomes[1], (2, DownloadOutcome::Failed(DownloadError::Network)));
    assert_eq!(report.outcomes[2], (3, DownloadOutcome::Completed(4)));
    assert_eq!(report.completed_count(), 2);
    assert_eq!(report.failed_count(), 1);
    assert!(!report.all_completed());
    assert_eq!(report.exit_code(), 1);

    // the two successful items carry their full declared byte length
    assert_eq!(files[0], vec![1, 2, 3, 4, 5, 6, 7, 8]);
    assert_eq!(files[2], vec![1, 2, 3, 4]);
    // the broken item keeps what arrived before the break
    assert_eq!(files[1], vec![9, 9, 9, 8, 8, 8]);
}

#[test]
fn missing_length_fails_only_that_item() {
    let (outcome, data) = process_stream(None, &vec![StreamEvent::Chunk(vec![1, 2])]);
    assert_eq!(outcome, DownloadOutcome::Failed(DownloadError::MissingLength));
    assert!(data.is_empty());
}

#[test]
fn empty_stream_completes_with_zero_bytes() {
    let (outcome, data) = process_stream(Some(0), &Vec::new());
    assert_eq!(outcome, DownloadOutcome::Completed(0));
    assert!(data.is_empty());
}

#[test]
fn completed_outcome_counts_every_written_byte() {
    let (outcome, data) = process_stream(
        Some(5),
        &vec![StreamEvent::Chunk(vec![0, 1, 2]), StreamEvent::Chunk(vec![3, 4, 5])],
    );
    // the transport delivered six bytes against a declared five: the
    // outcome carries what was written; only the progress position
    // is clamped
    assert_eq!(outcome, DownloadOutcome::Completed(6));
    assert_eq!(data.len(), 6);
}

#[test]
fn refused_write_fails_the_item_with_io() {
    let (outcome, data) = process_stream(
        Some(9),
        &vec![StreamEvent::Chunk(vec![1, 2]), StreamEvent::WriteFailed],
    );
    assert_eq!(outcome, DownloadOutcome::Failed(DownloadError::Io));
    assert_eq!(data, vec![1, 2]);
}

#[test]
fn status_classification_matches_success_range() {
    assert_eq!(check_status(200), None);
    assert_eq!(check_status(204), None);
    assert_eq!(check_status(299), None);
    assert_eq!(check_status(199), Some(DownloadError::Http(199)));
    assert_eq!(check_status(301), Some(DownloadError::Http(301)));
    assert_eq!(check_status(403), Some(DownloadError::Http(403)));
    assert_eq!(check_status(500), Some(DownloadError::Http(500)));
}

#[test]
fn tracker_never_reports_past_the_total() {
    let mut t = ProgressTracker::new(10);
    assert_eq!(t.on_chunk(4), 4);
    assert_eq!(t.on_chunk(4), 8);
    assert_eq!(t.on_chunk(4), 10);
    assert_eq!(t.on_chunk(1), 10);
}

#[test]
fn batch_report_records_in_order() {
    let mut report = BatchReport::new();
    report.record(7, DownloadOutcome::Completed(100));
    report.record(8, DownloadOutcome::Failed(DownloadError::Io));
    report.record(9, DownloadOutcome::Failed(DownloadError::Http(403)));
    assert_eq!(report.outcomes.len(), 3);
    assert_eq!(report.completed_count(), 1);
    assert_eq!(report.failed_count(), 2);
    assert_eq!(report.exit_code(), 1);

    let all_good = BatchReport::new();
    assert!(all_good.all_completed());
    assert_eq!(all_good.exit_code(), 0);
}
