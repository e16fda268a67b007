//! Builds one snapshot out of per-class fetch outcomes.
//!
//! The caller enumerates the classes known to the scheduling source and
//! fetches each class's lessons for the current day; failing to enumerate the
//! classes is fatal and never reaches this module. Each per-class outcome —
//! lessons or a fetch error — is handed in as a plain value, so a failure for
//! one class never discards what was gathered for the others: the failed
//! class simply contributes no lessons.

use vstd::prelude::*;

use crate::model::{lesson_of_raw, Lesson, LessonView, RawLesson, RawLessonView, Snapshot};
use crate::pseudonym::{transform, transform_spec};

verus! {

/// Outcome of fetching one class's lessons from the scheduling source.
#[derive(Clone, PartialEq, Eq, Debug)]
pub enum ClassFetch {
    /// The fetch succeeded with these raw lessons (possibly none).
    Lessons(Vec<RawLesson>),
    /// The fetch failed; the class contributes no lessons to the snapshot.
    FetchError(String),
}

/// Mathematical value of a [`ClassFetch`].
pub enum ClassFetchView {
    Lessons(Seq<RawLessonView>),
    FetchError(Seq<char>),
}

impl View for ClassFetch {
    type V = ClassFetchView;

    open spec fn view(&self) -> ClassFetchView {
        match self {
            ClassFetch::Lessons(ls) => ClassFetchView::Lessons(ls.deep_view()),
            ClassFetch::FetchError(msg) => ClassFetchView::FetchError(msg@),
        }
    }
}

impl DeepView for ClassFetch {
    type V = ClassFetchView;

    open spec fn deep_view(&self) -> ClassFetchView {
        self.view()
    }
}

/// Every name of `names`, pseudonymized with `secret`, in order.
pub open spec fn tokens_of(names: Seq<Seq<char>>, secret: Seq<char>) -> Seq<Seq<char>> {
    names.map_values(|t: Seq<char>| transform_spec(secret, t))
}

/// The archive form of one raw lesson, its teacher names replaced by
/// pseudonymized tokens. This is the shape in which a lesson leaves the
/// builder: no raw teacher name survives.
pub open spec fn pseudonymized_lesson(r: RawLessonView, secret: Seq<char>) -> LessonView {
    let plain = lesson_of_raw(r);
    LessonView {
        classes: plain.classes,
        teachers: tokens_of(r.teachers, secret),
        rooms: plain.rooms,
        lesson_code: plain.lesson_code,
        description: plain.description,
        topic: plain.topic,
        sub_text: plain.sub_text,
    }
}

/// Every lesson of `ls`, pseudonymized with `secret`, in order.
pub open spec fn pseudonymized_all(ls: Seq<RawLessonView>, secret: Seq<char>) -> Seq<LessonView> {
    ls.map_values(|r: RawLessonView| pseudonymized_lesson(r, secret))
}

/// The lessons of a snapshot built from per-class fetch outcomes: a class
/// whose fetch failed contributes nothing; every other class contributes its
/// lessons, pseudonymized, in fetch order.
pub open spec fn snapshot_lessons(results: Seq<ClassFetchView>, secret: Seq<char>) -> Seq<
    LessonView,
>
    decreases results.len(),
{
    if results.len() == 0 {
        Seq::<LessonView>::empty()
    } else {
        let rest = snapshot_lessons(results.drop_last(), secret);
        match results.last() {
            ClassFetchView::Lessons(ls) => rest + pseudonymized_all(ls, secret),
            ClassFetchView::FetchError(_) => rest,
        }
    }
}

/// Replaces every teacher name of `lesson` by its pseudonymized token.
fn pseudonymize_teachers(lesson: &mut Lesson, secret: &str)
    ensures
        final(lesson)@ == (LessonView {
            teachers: tokens_of(old(lesson)@.teachers, secret@),
            ..old(lesson)@
        }),
{
    let ghost orig = lesson@.teachers;
    let mut tokens: Vec<String> = Vec::new();
    let n = lesson.teachers.len();
    let mut k: usize = 0;
    while k < n
        invariant
            k <= n,
            n == lesson.teachers@.len(),
            lesson@.teachers == orig,
            tokens.deep_view() == tokens_of(orig.take(k as int), secret@),
        decreases n - k,
    {
        let token = transform(secret, lesson.teachers[k].as_str());
        let ghost pre = tokens.deep_view();
        tokens.push(token);
        proof {
            assert(tokens.deep_view() =~= pre.push(token@));
            assert(pre.push(token@) =~= tokens_of(orig.take(k + 1), secret@));
        }
        k = k + 1;
    }
    proof {
        assert(orig.take(n as int) =~= orig);
    }
    lesson.teachers = tokens;
    proof {
        assert(lesson@ =~= (LessonView { teachers: tokens_of(orig, secret@), ..old(lesson)@ }));
    }
}

/// Builds the snapshot for one run: every class whose lessons could be
/// fetched contributes them in order, projected into their archive shape and
/// pseudonymized with `secret`; a class whose fetch failed is skipped without
/// aborting the build.
pub fn build_snapshot(now: i64, results: &Vec<ClassFetch>, secret: &str) -> (s: Snapshot)
    ensures
        s@.datetime == now as int,
        s@.lessons == snapshot_lessons(results.deep_view(), secret@),
{
    let mut snapshot = Snapshot::new(now);
    let n = results.len();
    let mut i: usize = 0;
    while i < n
        invariant
            i <= n,
            n == results@.len(),
            snapshot@.datetime == now as int,
            snapshot@.lessons == snapshot_lessons(
                results.deep_view().take(i as int),
                secret@,
            ),
        decreases n - i,
    {
        match &results[i] {
            ClassFetch::Lessons(lessons) => {
                let ghost contribution = pseudonymized_all(lessons.deep_view(), secret@);
                let m = lessons.len();
                let mut j: usize = 0;
                while j < m
                    invariant
                        j <= m,
                        m == lessons@.len(),
                        i < n,
                        n == results@.len(),
                        results@[i as int] == ClassFetch::Lessons(*lessons),
                        contribution == pseudonymized_all(lessons.deep_view(), secret@),
                        snapshot@.datetime == now as int,
                        snapshot@.lessons == snapshot_lessons(
                            results.deep_view().take(i as int),
                            secret@,
                        ) + contribution.take(j as int),
                    decreases m - j,
                {
                    let mut lesson = Lesson::from_raw(&lessons[j]);
                    pseudonymize_teachers(&mut lesson, secret);
                    proof {
                        assert(lesson@ =~= pseudonymized_lesson(
                            lessons.deep_view()[j as int],
                            secret@,
                        ));
                        assert(contribution.take(j + 1) =~= contribution.take(j as int).push(
                            lesson@,
                        ));
                    }
                    snapshot.add_lesson(lesson);
                    j = j + 1;
                }
                proof {
                    assert(contribution.take(m as int) =~= contribution);
                    lemma_snapshot_lessons_step(results.deep_view(), i as int, secret@);
                    assert(snapshot@.lessons =~= snapshot_lessons(
                        results.deep_view().take(i + 1),
                        secret@,
                    ));
                }
            },
            ClassFetch::FetchError(_) => {
                proof {
                    lemma_snapshot_lessons_step(results.deep_view(), i as int, secret@);
                    assert(snapshot@.lessons =~= snapshot_lessons(
                        results.deep_view().take(i + 1),
                        secret@,
                    ));
                }
            },
        }
        i = i + 1;
    }
    proof {
        assert(results.deep_view().take(n as int) =~= results.deep_view());
    }
    snapshot
}

/// Unfolds `snapshot_lessons` over one more fetch outcome at position `i`.
proof fn lemma_snapshot_lessons_step(results: Seq<ClassFetchView>, i: int, secret: Seq<char>)
    requires
        0 <= i < results.len(),
    ensures
        snapshot_lessons(results.take(i + 1), secret) == (match results[i] {
            ClassFetchView::Lessons(ls) => snapshot_lessons(results.take(i), secret)
                + pseudonymized_all(ls, secret),
            ClassFetchView::FetchError(_) => snapshot_lessons(results.take(i), secret),
        }),
{
    assert(results.take(i + 1).drop_last() =~= results.take(i));
    assert(results.take(i + 1).last() == results[i]);
}

/// Partial-failure isolation: with three classes, of which the second
/// class's fetch failed, the snapshot holds exactly the pseudonymized
/// lessons of the first and the third class, in that order, and nothing of
/// the second.
pub proof fn lemma_partial_failure_isolation(
    first: Seq<RawLessonView>,
    failure: Seq<char>,
    third: Seq<RawLessonView>,
    secret: Seq<char>,
)
    ensures
        snapshot_lessons(
            seq![
                ClassFetchView::Lessons(first),
                ClassFetchView::FetchError(failure),
                ClassFetchView::Lessons(third),
            ],
            secret,
        ) == pseudonymized_all(first, secret) + pseudonymized_all(third, secret),
{
    let s3 = seq![
        ClassFetchView::Lessons(first),
        ClassFetchView::FetchError(failure),
        ClassFetchView::Lessons(third),
    ];
    let s2 = seq![ClassFetchView::Lessons(first), ClassFetchView::FetchError(failure)];
    let s1 = seq![ClassFetchView::Lessons(first)];
    let s0 = Seq::<ClassFetchView>::empty();
    assert(s1.drop_last() =~= s0);
    assert(s2.drop_last() =~= s1);
    assert(s3.drop_last() =~= s2);
    assert(s1.last() == ClassFetchView::Lessons(first));
    assert(s2.last() == ClassFetchView::FetchError(failure));
    assert(s3.last() == ClassFetchView::Lessons(third));
    assert(snapshot_lessons(s0, secret) == Seq::<LessonView>::empty());
    assert(snapshot_lessons(s1, secret) == Seq::<LessonView>::empty() + pseudonymized_all(
        first,
        secret,
    ));
    assert(snapshot_lessons(s1, secret) =~= pseudonymized_all(first, secret));
    assert(snapshot_lessons(s2, secret) == snapshot_lessons(s1, secret));
    assert(snapshot_lessons(s3, secret) == snapshot_lessons(s2, secret) + pseudonymized_all(
        third,
        secret,
    ));
}

} // verus!
