use timetable_archive::model::{ExportFile, Lesson, LessonCode, Snapshot};

fn sample_lesson(code: LessonCode, sub_text: Option<&str>) -> Lesson {
    Lesson {
        classes: vec!["10a".to_string(), "10b".to_string()],
        teachers: vec!["token-one".to_string()],
        rooms: vec!["R 1.01".to_string()],
        lesson_code: code,
        description: "Doppelstunde".to_string(),
        topic: "Mathematik".to_string(),
        sub_text: sub_text.map(|s| s.to_string()),
    }
}

fn sample_file() -> ExportFile {
    let mut file = ExportFile::new(1_700_000_000);
    let mut first = Snapshot::new(1_700_000_100);
    first.add_lesson(sample_lesson(LessonCode::Regular, None));
    first.add_lesson(sample_lesson(LessonCode::Irregular, Some("Vertretung")));
    let mut second = Snapshot::new(1_700_003_700);
    second.add_lesson(sample_lesson(LessonCode::Cancelled, Some("")));
    file.add(first);
    file.add(second);
    file
}

#[test]
fn round_trip_preserves_every_field() {
    let file = sample_file();
    let bytes = file.serialize();
    let back = ExportFile::deserialize(bytes.as_slice()).unwrap();
    assert_eq!(back, file);
}

#[test]
fn round_trip_of_an_empty_partition() {
    let file = ExportFile::new(0);
    let back = ExportFile::deserialize(file.serialize().as_slice()).unwrap();
    assert_eq!(back, file);
    assert_eq!(back.snapshots.len(), 0);
}

#[test]
fn round_trip_with_negative_date() {
    // A partition stamped before the epoch still survives the trip.
    let mut file = ExportFile::new(-12_345);
    file.add(Snapshot::new(-1));
    let back = ExportFile::deserialize(file.serialize().as_slice()).unwrap();
    assert_eq!(back, file);
}

#[test]
fn round_trip_with_unicode_strings() {
    let mut file = ExportFile::new(7);
    let mut snap = Snapshot::new(8);
    let mut lesson = sample_lesson(LessonCode::Regular, Some("Größere Änderung"));
    lesson.topic = "Frühstück ☕".to_string();
    snap.add_lesson(lesson);
    file.add(snap);
    let back = ExportFile::deserialize(file.serialize().as_slice()).unwrap();
    assert_eq!(back, file);
}

#[test]
fn garbage_is_rejected() {
    assert!(ExportFile::deserialize(b"not an archive").is_err());
}

#[test]
fn truncated_bytes_are_rejected() {
    let bytes = sample_file().serialize();
    assert!(ExportFile::deserialize(&bytes[..bytes.len() - 1]).is_err());
}

#[test]
fn trailing_bytes_are_rejected() {
    let mut bytes = sample_file().serialize();
    bytes.push(0);
    assert!(ExportFile::deserialize(bytes.as_slice()).is_err());
}

#[test]
fn empty_input_is_rejected() {
    assert!(ExportFile::deserialize(&[]).is_err());
}

#[test]
fn a_string_corrupted_into_invalid_utf8_is_rejected() {
    let mut bytes = sample_file().serialize();
    let needle = b"Mathematik";
    let at = bytes
        .windows(needle.len())
        .position(|w| w == needle)
        .expect("the topic's bytes are in the encoding");
    bytes[at] = 0xff;
    assert!(ExportFile::deserialize(bytes.as_slice()).is_err());
}
