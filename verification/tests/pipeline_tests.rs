use photo_index::calendar::CivilDateTime;
use photo_index::exif::{ExifEntry, ExifField, ExifMap, ExifRead, ExifTag, ExifValue, MetaValue, TimeTag};
use photo_index::path_meta::{get_path_metadata, get_undecoded_path_metadata, PathMetdata};
use photo_index::pipeline::{
    build_record, process_batch, Admission, BatchItem, Eligibility, EmbeddingOutcome,
    IndexedMetadataRecord, IndexingPipeline, RunSummary,
};
use photo_index::remote_index::{upload_outcome, CallError, RemoteIndexSnapshot};

fn snapshot_of(paths: &[&str]) -> RemoteIndexSnapshot {
    let mut snapshot = RemoteIndexSnapshot::new();
    for path in paths {
        snapshot.insert(path.to_string());
    }
    snapshot
}

fn run(extensions: &[&str], indexed: &[&str], batch_size: usize) -> IndexingPipeline {
    let extensions: Vec<String> = extensions.iter().map(|e| e.to_string()).collect();
    IndexingPipeline::new(&extensions, snapshot_of(indexed), batch_size)
}

fn file(name: &str) -> PathMetdata {
    get_path_metadata(&format!("/photos/{}", name), "/photos")
}

fn item(name: &str) -> BatchItem {
    BatchItem {
        path: format!("/photos/{}", name),
        record: IndexedMetadataRecord { path: name.to_string(), exif: None, timestamp: None },
    }
}

fn counts(visited: u64, indexed: u64, attempted: u64, failed: u64) -> RunSummary {
    RunSummary {
        files_visited: visited,
        files_indexed: indexed,
        batches_attempted: attempted,
        batches_failed: failed,
    }
}

#[test]
fn a_new_run_has_done_nothing() {
    let run = run(&["jpg"], &[], 20);
    assert_eq!(run.summary(), counts(0, 0, 0, 0));
    assert_eq!(run.pending_len(), 0);
}

#[test]
fn forty_five_files_in_batches_of_twenty() {
    let mut run = run(&["jpg", "jpeg", "jpe"], &[], 20);
    let mut sizes = Vec::new();
    let mut seen = Vec::new();
    for i in 0..45 {
        match run.offer(&file(&format!("{:02}.jpg", i)), &ExifRead::Missing) {
            Admission::Flush(batch) => {
                sizes.push(batch.len());
                seen.extend(batch.into_iter().map(|item| item.record.path));
            },
            Admission::Added => {},
            Admission::Skipped(why) => panic!("skipped: {:?}", why),
        }
    }
    if let Some(batch) = run.finish() {
        sizes.push(batch.len());
        seen.extend(batch.into_iter().map(|item| item.record.path));
    }
    assert_eq!(sizes, vec![20, 20, 5]);
    let expected: Vec<String> = (0..45).map(|i| format!("{:02}.jpg", i)).collect();
    assert_eq!(seen, expected);
    assert_eq!(run.summary(), counts(45, 45, 3, 0));
    assert_eq!(run.finish(), None);
    assert_eq!(run.summary(), counts(45, 45, 3, 0));
}

#[test]
fn forty_files_in_batches_of_twenty_leave_nothing_for_the_end() {
    let mut run = run(&["jpg"], &[], 20);
    let mut flushed = 0;
    for i in 0..40 {
        if let Admission::Flush(batch) = run.offer(&file(&format!("{}.jpg", i)), &ExifRead::Missing) {
            assert_eq!(batch.len(), 20);
            flushed += 1;
        }
    }
    assert_eq!(flushed, 2);
    assert_eq!(run.finish(), None);
    assert_eq!(run.summary(), counts(40, 40, 2, 0));
}

#[test]
fn only_the_new_file_with_an_allowed_extension_is_taken() {
    let mut run = run(&["jpg"], &["a.jpg"], 20);
    assert_eq!(
        run.offer(&file("a.jpg"), &ExifRead::Missing),
        Admission::Skipped(Eligibility::AlreadyIndexed)
    );
    assert_eq!(run.offer(&file("b.jpg"), &ExifRead::Missing), Admission::Added);
    assert_eq!(
        run.offer(&file("c.png"), &ExifRead::Missing),
        Admission::Skipped(Eligibility::ExtensionNotAllowed)
    );
    let batch = run.finish().unwrap();
    assert_eq!(batch, vec![item("b.jpg")]);
    assert_eq!(run.summary(), counts(3, 1, 1, 0));
    let upload = process_batch(batch, &EmbeddingOutcome::Computed(vec![true])).unwrap();
    assert_eq!(upload.len(), 1);
    assert_eq!(upload[0].path, "b.jpg");
}

#[test]
fn files_of_the_snapshot_never_reach_a_batch() {
    let mut run = run(&["jpg"], &["1.jpg", "3.jpg", "sub/5.jpg"], 2);
    let mut uploaded = Vec::new();
    for name in ["0.jpg", "1.jpg", "2.jpg", "3.jpg", "4.jpg", "sub/5.jpg", "sub/6.jpg"] {
        if let Admission::Flush(batch) = run.offer(&file(name), &ExifRead::Missing) {
            uploaded.extend(batch.into_iter().map(|item| item.record.path));
        }
    }
    if let Some(batch) = run.finish() {
        uploaded.extend(batch.into_iter().map(|item| item.record.path));
    }
    assert_eq!(uploaded, vec!["0.jpg", "2.jpg", "4.jpg", "sub/6.jpg"]);
    assert_eq!(run.summary(), counts(7, 4, 2, 0));
}

#[test]
fn screening_names_the_first_reason() {
    let run = run(&["jpg"], &["a.jpg", "README", "x.png"], 20);
    let screen = |path: &str| run.screen(&get_path_metadata(path, "/photos"));
    assert_eq!(screen("/photos/.."), Eligibility::NoName);
    assert_eq!(screen("/"), Eligibility::NoName);
    assert_eq!(screen("/photos/README"), Eligibility::NoExtension);
    assert_eq!(screen("/photos/.hidden"), Eligibility::NoExtension);
    assert_eq!(screen("/elsewhere/b.jpg"), Eligibility::Outside);
    assert_eq!(screen("/photos/a.jpg"), Eligibility::AlreadyIndexed);
    assert_eq!(screen("/photos/x.png"), Eligibility::AlreadyIndexed);
    assert_eq!(screen("/photos/y.png"), Eligibility::ExtensionNotAllowed);
    assert_eq!(screen("/photos/y."), Eligibility::ExtensionNotAllowed);
    assert_eq!(screen("/photos/b.jpg"), Eligibility::Eligible);
    assert_eq!(screen("/photos/b.JPG"), Eligibility::Eligible);
    assert_eq!(screen("/photos/sub/dir/b.jpg"), Eligibility::Eligible);
}

#[test]
fn extensions_are_allowed_in_any_case() {
    let run = run(&["JPG", "Jpeg", "ÀB"], &[], 20);
    assert_eq!(run.screen(&file("a.jpg")), Eligibility::Eligible);
    assert_eq!(run.screen(&file("a.JPEG")), Eligibility::Eligible);
    assert_eq!(run.screen(&file("a.àb")), Eligibility::Eligible);
    assert_eq!(run.screen(&file("a.Àb")), Eligibility::ExtensionNotAllowed);
    assert_eq!(run.screen(&file("a.jpe")), Eligibility::ExtensionNotAllowed);
}

#[test]
fn a_batch_size_of_zero_or_one_flushes_every_file() {
    for size in [0, 1] {
        let mut run = run(&["jpg"], &[], size);
        for name in ["a.jpg", "b.jpg"] {
            assert_eq!(
                run.offer(&file(name), &ExifRead::Missing),
                Admission::Flush(vec![item(name)])
            );
            assert_eq!(run.pending_len(), 0);
        }
        assert_eq!(run.finish(), None);
        assert_eq!(run.summary(), counts(2, 2, 2, 0));
    }
}

#[test]
fn a_skipped_file_changes_the_count_of_visits_alone() {
    let mut run = run(&["jpg"], &[], 3);
    assert_eq!(run.offer(&file("a.jpg"), &ExifRead::Missing), Admission::Added);
    assert_eq!(
        run.offer(&file("b.txt"), &ExifRead::Missing),
        Admission::Skipped(Eligibility::ExtensionNotAllowed)
    );
    assert_eq!(run.pending_len(), 1);
    assert_eq!(run.summary(), counts(2, 1, 0, 0));
}

#[test]
fn one_failed_file_leaves_the_other_two() {
    let batch = vec![item("a.jpg"), item("b.jpg"), item("c.jpg")];
    let upload = process_batch(batch, &EmbeddingOutcome::Computed(vec![true, false, true]));
    assert_eq!(upload, Some(vec![item("a.jpg").record, item("c.jpg").record]));
}

#[test]
fn records_stay_in_the_order_of_the_batch() {
    let names = ["a.jpg", "b.jpg", "c.jpg", "d.jpg", "e.jpg"];
    let batch: Vec<BatchItem> = names.iter().map(|n| item(n)).collect();
    let upload = process_batch(batch, &EmbeddingOutcome::Computed(vec![false, true, true, false, true]));
    let paths: Vec<String> = upload.unwrap().into_iter().map(|r| r.path).collect();
    assert_eq!(paths, vec!["b.jpg", "c.jpg", "e.jpg"]);
    let batch: Vec<BatchItem> = names.iter().map(|n| item(n)).collect();
    let upload = process_batch(batch, &EmbeddingOutcome::Computed(vec![true; 5]));
    let paths: Vec<String> = upload.unwrap().into_iter().map(|r| r.path).collect();
    assert_eq!(paths, names);
}

#[test]
fn a_batch_without_vectors_is_dropped() {
    let batch = || vec![item("a.jpg"), item("b.jpg")];
    assert_eq!(process_batch(batch(), &EmbeddingOutcome::Failed), None);
    assert_eq!(process_batch(batch(), &EmbeddingOutcome::Computed(vec![false, false])), None);
    assert_eq!(process_batch(batch(), &EmbeddingOutcome::Computed(vec![true])), None);
    assert_eq!(process_batch(batch(), &EmbeddingOutcome::Computed(vec![true, true, true])), None);
    assert_eq!(process_batch(vec![], &EmbeddingOutcome::Computed(vec![])), None);
}

#[test]
fn a_failed_upload_does_not_stop_the_run() {
    let mut run = run(&["jpg"], &[], 1);
    let first = match run.offer(&file("a.jpg"), &ExifRead::Missing) {
        Admission::Flush(batch) => batch,
        other => panic!("{:?}", other),
    };
    assert!(process_batch(first, &EmbeddingOutcome::Computed(vec![true])).is_some());
    assert!(run.settle_batch(&Some(upload_outcome(Some(500)))));
    assert_eq!(run.summary(), counts(1, 1, 1, 1));
    let second = match run.offer(&file("b.jpg"), &ExifRead::Missing) {
        Admission::Flush(batch) => batch,
        other => panic!("{:?}", other),
    };
    assert_eq!(second, vec![item("b.jpg")]);
    assert!(!run.settle_batch(&Some(upload_outcome(Some(200)))));
    assert_eq!(run.summary(), counts(2, 2, 2, 1));
}

#[test]
fn a_batch_fails_unless_its_upload_succeeded() {
    let mut run = run(&["jpg"], &[], 20);
    assert!(run.settle_batch(&None));
    assert_eq!(run.summary(), counts(0, 0, 0, 1));
    assert!(run.settle_batch(&Some(Err(CallError::Transport))));
    assert!(run.settle_batch(&Some(Err(CallError::Status(500)))));
    assert!(run.settle_batch(&Some(Err(CallError::Body))));
    assert_eq!(run.summary(), counts(0, 0, 0, 4));
    assert!(!run.settle_batch(&Some(Ok(()))));
    assert_eq!(run.summary(), counts(0, 0, 0, 4));
    assert_eq!(run.pending_len(), 0);
}

#[test]
fn a_batch_without_records_counts_as_failed() {
    let mut run = run(&["jpg"], &[], 2);
    assert_eq!(run.offer(&file("a.jpg"), &ExifRead::Missing), Admission::Added);
    let batch = match run.offer(&file("b.jpg"), &ExifRead::Missing) {
        Admission::Flush(batch) => batch,
        other => panic!("{:?}", other),
    };
    let upload = process_batch(batch, &EmbeddingOutcome::Failed).map(|_| upload_outcome(Some(200)));
    assert_eq!(upload, None);
    assert!(run.settle_batch(&upload));
    assert_eq!(run.summary(), counts(2, 2, 1, 1));
}

#[test]
fn a_record_without_exif_takes_its_time_from_the_name() {
    let meta = file("trips/IMG_20230115_103000.jpg");
    let record = build_record(&meta, &ExifRead::Missing);
    assert_eq!(
        record,
        IndexedMetadataRecord {
            path: "trips/IMG_20230115_103000.jpg".to_string(),
            exif: None,
            timestamp: Some(1_673_778_600),
        }
    );
}

#[test]
fn a_record_without_any_time() {
    let record = build_record(&file("holiday.jpg"), &ExifRead::Unreadable);
    assert_eq!(
        record,
        IndexedMetadataRecord { path: "holiday.jpg".to_string(), exif: None, timestamp: None }
    );
    let record = build_record(&file("2023-01.15.jpg"), &ExifRead::Entries(vec![]));
    assert_eq!(
        record,
        IndexedMetadataRecord {
            path: "2023-01.15.jpg".to_string(),
            exif: Some(ExifMap { fields: vec![] }),
            timestamp: None,
        }
    );
}

#[test]
fn the_time_of_the_exif_entries_goes_before_the_name() {
    let taken = CivilDateTime::new(2015, 5, 15, 0, 0, 0).unwrap();
    let read = ExifRead::Entries(vec![ExifEntry {
        tag: Some(ExifTag { name: "DateTimeOriginal".to_string(), kind: TimeTag::DateTimeOriginal }),
        value: Some(ExifValue::Time(taken)),
    }]);
    let record = build_record(&file("2023-01-15 10.30.00.jpg"), &read);
    assert_eq!(record.timestamp, Some(1_431_648_000));
    assert_eq!(
        record.exif,
        Some(ExifMap {
            fields: vec![ExifField {
                name: "DateTimeOriginal".to_string(),
                value: MetaValue::Text("2015-05-15T00:00:00".to_string()),
            }],
        })
    );
}

#[test]
fn exif_entries_without_a_time_leave_it_to_the_name() {
    let read = ExifRead::Entries(vec![ExifEntry {
        tag: Some(ExifTag { name: "Make".to_string(), kind: TimeTag::Other }),
        value: Some(ExifValue::Text("Canon".to_string())),
    }]);
    let record = build_record(&file("2023-01-15.jpg"), &read);
    assert_eq!(record.timestamp, Some(1_673_740_800));
}

#[test]
fn an_offered_file_waits_with_its_record() {
    let mut run = run(&["jpg"], &[], 2);
    let meta = file("2023-01-15.jpg");
    assert_eq!(run.offer(&meta, &ExifRead::Missing), Admission::Added);
    let batch = run.finish().unwrap();
    assert_eq!(batch.len(), 1);
    assert_eq!(batch[0].path, "/photos/2023-01-15.jpg");
    assert_eq!(batch[0].record, build_record(&meta, &ExifRead::Missing));
}

#[test]
fn a_file_whose_path_is_no_text_is_skipped() {
    let mut run = run(&["jpg"], &[], 20);
    let meta = get_undecoded_path_metadata(Some("a.jpg"), Some("jpg"), None);
    assert_eq!(run.screen(&meta), Eligibility::Outside);
    assert_eq!(run.offer(&meta, &ExifRead::Missing), Admission::Skipped(Eligibility::Outside));
    let meta = get_undecoded_path_metadata(None, None, None);
    assert_eq!(run.screen(&meta), Eligibility::NoName);
    assert_eq!(run.summary(), counts(1, 0, 0, 0));
}
