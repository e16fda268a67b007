//! Data model of the archive: lessons, snapshots and the per-day partition.

use vstd::prelude::*;

verus! {

/// Status of one scheduled lesson.
#[derive(Clone, Copy, PartialEq, Eq, Structural, Debug)]
pub enum LessonCode {
    /// The lesson takes place as planned.
    Regular,
    /// The lesson deviates from the plan (e.g. a substitution).
    Irregular,
    /// The lesson does not take place.
    Cancelled,
}

/// One teaching unit as the scheduling source reports it, reduced to the
/// plain values the snapshot builder reads: identifier names, the status
/// code and the free-text fields.
#[derive(Clone, PartialEq, Eq, Debug)]
pub struct RawLesson {
    /// Names of the classes taking part.
    pub classes: Vec<String>,
    /// Raw (not yet pseudonymized) teacher names.
    pub teachers: Vec<String>,
    /// Names of the rooms the lesson takes place in.
    pub rooms: Vec<String>,
    /// Status of the lesson.
    pub code: LessonCode,
    /// Free-text note of the lesson.
    pub lstext: String,
    /// Names of the subjects taught; may be empty or hold several entries.
    pub subjects: Vec<String>,
    /// Substitution text, absent when no substitution applies.
    pub subst_text: Option<String>,
}

/// Mathematical value of a [`RawLesson`].
#[verifier::ext_equal]
pub struct RawLessonView {
    pub classes: Seq<Seq<char>>,
    pub teachers: Seq<Seq<char>>,
    pub rooms: Seq<Seq<char>>,
    pub code: LessonCode,
    pub lstext: Seq<char>,
    pub subjects: Seq<Seq<char>>,
    pub subst_text: Option<Seq<char>>,
}

impl View for RawLesson {
    type V = RawLessonView;

    open spec fn view(&self) -> RawLessonView {
        RawLessonView {
            classes: self.classes.deep_view(),
            teachers: self.teachers.deep_view(),
            rooms: self.rooms.deep_view(),
            code: self.code,
            lstext: self.lstext@,
            subjects: self.subjects.deep_view(),
            subst_text: self.subst_text.deep_view(),
        }
    }
}

impl DeepView for RawLesson {
    type V = RawLessonView;

    open spec fn deep_view(&self) -> RawLessonView {
        self.view()
    }
}

/// One teaching unit as it is persisted in the archive. Unlike a
/// [`RawLesson`], the `teachers` field holds pseudonymized tokens and the
/// `topic` field is reduced to a single label.
#[derive(Clone, PartialEq, Eq, Debug)]
pub struct Lesson {
    /// Names of the classes taking part, in the order the source gave them.
    pub classes: Vec<String>,
    /// Pseudonymized teacher tokens; raw names are never persisted.
    pub teachers: Vec<String>,
    /// Names of the rooms, in source order.
    pub rooms: Vec<String>,
    /// Status of the lesson.
    pub lesson_code: LessonCode,
    /// Free-text substitution note (may be empty).
    pub description: String,
    /// Single subject label; `"None"` when the source supplied no subject,
    /// the first subject when it supplied several.
    pub topic: String,
    /// Optional substitution text.
    pub sub_text: Option<String>,
}

/// Mathematical value of a [`Lesson`].
#[verifier::ext_equal]
pub struct LessonView {
    pub classes: Seq<Seq<char>>,
    pub teachers: Seq<Seq<char>>,
    pub rooms: Seq<Seq<char>>,
    pub lesson_code: LessonCode,
    pub description: Seq<char>,
    pub topic: Seq<char>,
    pub sub_text: Option<Seq<char>>,
}

impl View for Lesson {
    type V = LessonView;

    open spec fn view(&self) -> LessonView {
        LessonView {
            classes: self.classes.deep_view(),
            teachers: self.teachers.deep_view(),
            rooms: self.rooms.deep_view(),
            lesson_code: self.lesson_code,
            description: self.description@,
            topic: self.topic@,
            sub_text: self.sub_text.deep_view(),
        }
    }
}

impl DeepView for Lesson {
    type V = LessonView;

    open spec fn deep_view(&self) -> LessonView {
        self.view()
    }
}

/// How a [`RawLesson`] is projected into an archive [`Lesson`]: the name
/// sequences and the status code are kept as they are, the free text moves
/// into `description`, and the topic falls back to `"None"` when the source
/// supplied no subject and to the first subject when it supplied several.
/// Teacher names are kept raw here; the snapshot builder replaces them.
pub open spec fn lesson_of_raw(r: RawLessonView) -> LessonView {
    LessonView {
        classes: r.classes,
        teachers: r.teachers,
        rooms: r.rooms,
        lesson_code: r.code,
        description: r.lstext,
        topic: if r.subjects.len() == 0 {
            "None"@
        } else {
            r.subjects[0]
        },
        sub_text: r.subst_text,
    }
}

impl Lesson {
    /// Projects a raw lesson into its archive shape, leaving the teacher
    /// names untouched.
    pub fn from_raw(raw: &RawLesson) -> (l: Lesson)
        ensures
            l@ == lesson_of_raw(raw@),
    {
        let topic: String = if raw.subjects.len() == 0 {
            String::from_str("None")
        } else {
            raw.subjects[0].clone()
        };
        let l = Lesson {
            classes: raw.classes.clone(),
            teachers: raw.teachers.clone(),
            rooms: raw.rooms.clone(),
            lesson_code: raw.code,
            description: raw.lstext.clone(),
            topic,
            sub_text: raw.subst_text.clone(),
        };
        proof {
            assert(l.classes.deep_view() =~= raw.classes.deep_view());
            assert(l.teachers.deep_view() =~= raw.teachers.deep_view());
            assert(l.rooms.deep_view() =~= raw.rooms.deep_view());
            assert(l@ =~= lesson_of_raw(raw@));
        }
        l
    }
}

/// One capture event: every lesson on the timetable at one moment.
#[derive(Clone, PartialEq, Eq, Debug)]
pub struct Snapshot {
    /// Capture time, seconds since the Unix epoch (UTC).
    pub datetime: i64,
    /// The captured lessons, in insertion order.
    pub lessons: Vec<Lesson>,
}

/// Mathematical value of a [`Snapshot`].
#[verifier::ext_equal]
pub struct SnapshotView {
    /// Capture time, seconds since the Unix epoch (UTC).
    pub datetime: int,
    /// The captured lessons, in insertion order.
    pub lessons: Seq<LessonView>,
}

impl View for Snapshot {
    type V = SnapshotView;

    open spec fn view(&self) -> SnapshotView {
        SnapshotView { datetime: self.datetime as int, lessons: self.lessons.deep_view() }
    }
}

impl DeepView for Snapshot {
    type V = SnapshotView;

    open spec fn deep_view(&self) -> SnapshotView {
        self.view()
    }
}

impl Snapshot {
    /// A fresh, empty snapshot captured at `now` (seconds since the Unix
    /// epoch, UTC). The capture time is set once and never changes.
    pub fn new(now: i64) -> (s: Snapshot)
        ensures
            s@.datetime == now as int,
            s@.lessons == Seq::<LessonView>::empty(),
    {
        let s = Snapshot { datetime: now, lessons: Vec::new() };
        proof {
            assert(s@.lessons =~= Seq::<LessonView>::empty());
        }
        s
    }

    /// Appends one lesson; earlier lessons are neither dropped nor reordered.
    pub fn add_lesson(&mut self, lesson: Lesson)
        ensures
            final(self)@.datetime == old(self)@.datetime,
            final(self)@.lessons == old(self)@.lessons.push(lesson@),
    {
        self.lessons.push(lesson);
        proof {
            assert(self.lessons.deep_view() =~= old(self).lessons.deep_view().push(lesson@));
        }
    }
}

/// The persisted unit for one calendar day: the archive partition.
#[derive(Clone, PartialEq, Eq, Debug)]
pub struct ExportFile {
    /// Creation time of the partition, seconds since the Unix epoch (UTC).
    pub date: i64,
    /// All snapshots of this partition, in append order.
    pub snapshots: Vec<Snapshot>,
}

/// Mathematical value of an [`ExportFile`].
#[verifier::ext_equal]
pub struct ExportFileView {
    /// Creation time of the partition, seconds since the Unix epoch (UTC);
    /// set once when the partition is first created, never on append.
    pub date: int,
    /// All snapshots captured into this partition, in append order.
    pub snapshots: Seq<SnapshotView>,
}

impl View for ExportFile {
    type V = ExportFileView;

    open spec fn view(&self) -> ExportFileView {
        ExportFileView { date: self.date as int, snapshots: self.snapshots.deep_view() }
    }
}

impl DeepView for ExportFile {
    type V = ExportFileView;

    open spec fn deep_view(&self) -> ExportFileView {
        self.view()
    }
}

impl ExportFile {
    /// A fresh partition created at `now` with no snapshots.
    pub fn new(now: i64) -> (f: ExportFile)
        ensures
            f@.date == now as int,
            f@.snapshots == Seq::<SnapshotView>::empty(),
    {
        let f = ExportFile { date: now, snapshots: Vec::new() };
        proof {
            assert(f@.snapshots =~= Seq::<SnapshotView>::empty());
        }
        f
    }

    /// Appends one snapshot. Existing snapshots are neither dropped nor
    /// reordered, and the partition's creation date does not change.
    pub fn add(&mut self, snapshot: Snapshot)
        ensures
            final(self)@.date == old(self)@.date,
            final(self)@.snapshots == old(self)@.snapshots.push(snapshot@),
    {
        self.snapshots.push(snapshot);
        proof {
            assert(self.snapshots.deep_view() =~= old(self).snapshots.deep_view().push(
                snapshot@,
            ));
        }
    }
}

} // verus!
