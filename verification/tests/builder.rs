use timetable_archive::builder::{build_snapshot, ClassFetch};
use timetable_archive::model::{Lesson, LessonCode, RawLesson};
use timetable_archive::pseudonym::transform;

fn raw_lesson(class: &str, teacher: &str, subjects: Vec<&str>) -> RawLesson {
    RawLesson {
        classes: vec![class.to_string()],
        teachers: vec![teacher.to_string()],
        rooms: vec!["R1".to_string()],
        code: LessonCode::Regular,
        lstext: String::new(),
        subjects: subjects.into_iter().map(|s| s.to_string()).collect(),
        subst_text: None,
    }
}

#[test]
fn one_failing_class_does_not_abort_the_build() {
    let results = vec![
        ClassFetch::Lessons(vec![raw_lesson("10a", "AAA", vec!["Ma"])]),
        ClassFetch::FetchError("connection reset".to_string()),
        ClassFetch::Lessons(vec![raw_lesson("10c", "CCC", vec!["En"])]),
    ];
    let snapshot = build_snapshot(500, &results, "secret");
    assert_eq!(snapshot.datetime, 500);
    assert_eq!(snapshot.lessons.len(), 2);
    assert_eq!(snapshot.lessons[0].classes, vec!["10a".to_string()]);
    assert_eq!(snapshot.lessons[1].classes, vec!["10c".to_string()]);
}

#[test]
fn an_empty_result_list_builds_an_empty_snapshot() {
    let snapshot = build_snapshot(0, &Vec::new(), "secret");
    assert_eq!(snapshot.lessons.len(), 0);
}

#[test]
fn teachers_are_pseudonymized() {
    let results = vec![ClassFetch::Lessons(vec![raw_lesson("10a", "MUE", vec!["Ma"])])];
    let snapshot = build_snapshot(0, &results, "secret");
    assert_eq!(snapshot.lessons[0].teachers, vec![transform("secret", "MUE")]);
}

#[test]
fn zero_subjects_fall_back_to_the_none_topic() {
    let raw = raw_lesson("10a", "MUE", vec![]);
    let lesson = Lesson::from_raw(&raw);
    assert_eq!(lesson.topic, "None");

    let results = vec![ClassFetch::Lessons(vec![raw])];
    let snapshot = build_snapshot(0, &results, "secret");
    assert_eq!(snapshot.lessons[0].topic, "None");
}

#[test]
fn several_subjects_keep_only_the_first() {
    let raw = raw_lesson("10a", "MUE", vec!["Mathe", "Physik"]);
    let lesson = Lesson::from_raw(&raw);
    assert_eq!(lesson.topic, "Mathe");

    let results = vec![ClassFetch::Lessons(vec![raw])];
    let snapshot = build_snapshot(0, &results, "secret");
    assert_eq!(snapshot.lessons[0].topic, "Mathe");
}

#[test]
fn projection_keeps_fields_and_order() {
    let raw = RawLesson {
        classes: vec!["10a".to_string(), "10b".to_string()],
        teachers: vec!["AAA".to_string(), "BBB".to_string()],
        rooms: vec!["R1".to_string(), "R2".to_string()],
        code: LessonCode::Cancelled,
        lstext: "fällt aus".to_string(),
        subjects: vec!["Sport".to_string()],
        subst_text: Some("krank".to_string()),
    };
    let lesson = Lesson::from_raw(&raw);
    assert_eq!(lesson.classes, raw.classes);
    assert_eq!(lesson.teachers, raw.teachers);
    assert_eq!(lesson.rooms, raw.rooms);
    assert_eq!(lesson.lesson_code, LessonCode::Cancelled);
    assert_eq!(lesson.description, "fällt aus");
    assert_eq!(lesson.topic, "Sport");
    assert_eq!(lesson.sub_text, Some("krank".to_string()));
}

#[test]
fn lessons_of_one_class_stay_in_fetch_order() {
    let results = vec![ClassFetch::Lessons(vec![
        raw_lesson("10a", "AAA", vec!["Ma"]),
        raw_lesson("10a", "BBB", vec!["En"]),
        raw_lesson("10a", "CCC", vec!["Ph"]),
    ])];
    let snapshot = build_snapshot(0, &results, "secret");
    let topics: Vec<&str> = snapshot.lessons.iter().map(|l| l.topic.as_str()).collect();
    assert_eq!(topics, vec!["Ma", "En", "Ph"]);
}
