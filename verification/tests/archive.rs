use timetable_archive::archive::{partition_dir, partition_path};
use timetable_archive::errors::RunError;
use timetable_archive::model::{ExportFile, Snapshot};

#[test]
fn loading_a_missing_partition_creates_a_fresh_one() {
    let file = ExportFile::load_or_create(None, 1_700_000_000).unwrap();
    assert_eq!(file.snapshots.len(), 0);
    assert_eq!(file.date, 1_700_000_000);
}

#[test]
fn loading_an_existing_partition_returns_its_snapshots() {
    let mut original = ExportFile::new(10);
    original.add(Snapshot::new(11));
    original.add(Snapshot::new(12));
    let bytes = original.serialize();
    let loaded = ExportFile::load_or_create(Some(&bytes), 99).unwrap();
    assert_eq!(loaded, original);
    assert_eq!(loaded.date, 10);
}

#[test]
fn loading_a_corrupt_partition_is_an_error() {
    let bytes = vec![1u8, 2, 3];
    let err = ExportFile::load_or_create(Some(&bytes), 0).unwrap_err();
    assert_eq!(err, RunError::ArchiveCorruptError);
}

#[test]
fn sequential_cycles_accumulate_snapshots_in_call_order() {
    let mut stored: Option<Vec<u8>> = None;
    for run in 0..5i64 {
        let mut file = ExportFile::load_or_create(stored.as_ref(), 100).unwrap();
        file.add(Snapshot::new(1000 + run));
        stored = Some(file.serialize());
    }
    let file = ExportFile::load_or_create(stored.as_ref(), 999).unwrap();
    assert_eq!(file.date, 100);
    assert_eq!(file.snapshots.len(), 5);
    for (i, snapshot) in file.snapshots.iter().enumerate() {
        assert_eq!(snapshot.datetime, 1000 + i as i64);
    }
}

#[test]
fn append_keeps_existing_snapshots_in_order() {
    let mut file = ExportFile::new(0);
    file.add(Snapshot::new(1));
    file.add(Snapshot::new(2));
    file.add(Snapshot::new(3));
    let datetimes: Vec<i64> = file.snapshots.iter().map(|s| s.datetime).collect();
    assert_eq!(datetimes, vec![1, 2, 3]);
    assert_eq!(file.date, 0);
}

#[test]
fn partition_locations_follow_the_date() {
    assert_eq!(partition_dir("archive", 2023, 5), "archive/2023/5");
    assert_eq!(partition_path("archive", 2023, 5, 7), "archive/2023/5/7.bin");
    assert_eq!(partition_path("/data/tt", 2024, 12, 31), "/data/tt/2024/12/31.bin");
    assert_eq!(partition_path("b", 0, 10, 20), "b/0/10/20.bin");
}
