//! The archive partition's binary form.
//!
//! A partition is persisted as a self-describing byte sequence: integers as
//! eight little-endian bytes, strings as their UTF-8 bytes behind a byte
//! count, sequences behind an element count, options and the lesson status
//! behind a one-byte tag. Decoding validates everything it reads; malformed
//! input is rejected as a corrupt archive, never accepted loosely. Encoding
//! then decoding gives back exactly the value that was written
//! ([`lemma_archive_round_trip`]).

use vstd::bytes::{
    lemma_auto_spec_u64_to_from_le_bytes, spec_u64_from_le_bytes, spec_u64_to_le_bytes,
    u64_from_le_bytes, u64_to_le_bytes,
};
use vstd::prelude::*;
use vstd::slice::slice_to_vec;
use vstd::utf8::{
    decode_utf8, encode_utf8, encode_utf8_decode_utf8, encode_utf8_valid_utf8, valid_utf8,
};

use crate::errors::RunError;
use crate::model::{
    ExportFile, ExportFileView, Lesson, LessonCode, LessonView, Snapshot, SnapshotView,
};

verus! {

// ---------------------------------------------------------------------------
// Two's-complement bridge between signed timestamps and their stored bits.
// ---------------------------------------------------------------------------
/// The bit pattern a signed 64-bit value is stored as.
pub open spec fn i64_to_u64_bits(v: int) -> u64
    recommends
        i64::MIN <= v <= i64::MAX,
{
    if v >= 0 {
        v as u64
    } else {
        (v + 0x1_0000_0000_0000_0000) as u64
    }
}

/// The signed 64-bit value a stored bit pattern stands for.
pub open spec fn u64_bits_to_i64(b: u64) -> int {
    if b <= i64::MAX as u64 {
        b as int
    } else {
        b as int - 0x1_0000_0000_0000_0000
    }
}

/// Storing a signed value and reading it back is the identity.
pub proof fn lemma_i64_bits_round_trip(v: int)
    requires
        i64::MIN <= v <= i64::MAX,
    ensures
        u64_bits_to_i64(i64_to_u64_bits(v)) == v,
{
}

fn i64_bits(v: i64) -> (b: u64)
    ensures
        b == i64_to_u64_bits(v as int),
{
    if v >= 0 {
        v as u64
    } else {
        let m = -(v + 1);
        u64::MAX - (m as u64)
    }
}

fn bits_i64(b: u64) -> (v: i64)
    ensures
        v as int == u64_bits_to_i64(b),
{
    if b <= 0x7fff_ffff_ffff_ffff {
        b as i64
    } else {
        let m = u64::MAX - b;
        -(m as i64) - 1
    }
}

// ---------------------------------------------------------------------------
// The encoding, as spec functions over the views.
// ---------------------------------------------------------------------------
/// Eight little-endian bytes.
pub open spec fn enc_u64(v: u64) -> Seq<u8> {
    spec_u64_to_le_bytes(v)
}

/// A string: the length of its UTF-8 form, then those bytes.
pub open spec fn enc_str(s: Seq<char>) -> Seq<u8> {
    enc_u64(encode_utf8(s).len() as u64) + encode_utf8(s)
}

/// An optional string: a one-byte tag, then the string when present.
pub open spec fn enc_opt_str(o: Option<Seq<char>>) -> Seq<u8> {
    match o {
        Option::None => seq![0u8],
        Option::Some(s) => seq![1u8] + enc_str(s),
    }
}

/// The lesson status as a one-byte tag.
pub open spec fn enc_code(c: LessonCode) -> Seq<u8> {
    match c {
        LessonCode::Regular => seq![0u8],
        LessonCode::Irregular => seq![1u8],
        LessonCode::Cancelled => seq![2u8],
    }
}

/// The strings of a sequence, one after the other, without a count.
pub open spec fn enc_str_elems(ss: Seq<Seq<char>>) -> Seq<u8>
    decreases ss.len(),
{
    if ss.len() == 0 {
        Seq::<u8>::empty()
    } else {
        enc_str(ss[0]) + enc_str_elems(ss.drop_first())
    }
}

/// A sequence of strings: its element count, then the elements.
pub open spec fn enc_str_seq(ss: Seq<Seq<char>>) -> Seq<u8> {
    enc_u64(ss.len() as u64) + enc_str_elems(ss)
}

/// One lesson: its three name sequences, status, description, topic and
/// optional substitution text, in that order.
pub open spec fn enc_lesson(l: LessonView) -> Seq<u8> {
    enc_str_seq(l.classes) + enc_str_seq(l.teachers) + enc_str_seq(l.rooms) + enc_code(
        l.lesson_code,
    ) + enc_str(l.description) + enc_str(l.topic) + enc_opt_str(l.sub_text)
}

/// The lessons of a sequence, one after the other, without a count.
pub open spec fn enc_lesson_elems(ls: Seq<LessonView>) -> Seq<u8>
    decreases ls.len(),
{
    if ls.len() == 0 {
        Seq::<u8>::empty()
    } else {
        enc_lesson(ls[0]) + enc_lesson_elems(ls.drop_first())
    }
}

/// One snapshot: its capture time, then its counted lessons.
pub open spec fn enc_snapshot(s: SnapshotView) -> Seq<u8> {
    enc_u64(i64_to_u64_bits(s.datetime)) + enc_u64(s.lessons.len() as u64) + enc_lesson_elems(
        s.lessons,
    )
}

/// The snapshots of a sequence, one after the other, without a count.
pub open spec fn enc_snap_elems(ss: Seq<SnapshotView>) -> Seq<u8>
    decreases ss.len(),
{
    if ss.len() == 0 {
        Seq::<u8>::empty()
    } else {
        enc_snapshot(ss[0]) + enc_snap_elems(ss.drop_first())
    }
}

/// A whole partition: its creation date, then its counted snapshots.
pub open spec fn spec_serialize(f: ExportFileView) -> Seq<u8> {
    enc_u64(i64_to_u64_bits(f.date)) + enc_u64(f.snapshots.len() as u64) + enc_snap_elems(
        f.snapshots,
    )
}

// ---------------------------------------------------------------------------
// Machine bounds under which the encoding is exact: every length must fit in
// the eight-byte counters. Any value built from real vectors and strings
// satisfies them.
// ---------------------------------------------------------------------------
/// The string's UTF-8 form fits the length counter.
pub open spec fn str_fits(s: Seq<char>) -> bool {
    encode_utf8(s).len() <= u64::MAX
}

/// Every string fits, and so does the element count.
pub open spec fn str_seq_fits(ss: Seq<Seq<char>>) -> bool {
    &&& ss.len() <= u64::MAX
    &&& forall|i: int| 0 <= i < ss.len() ==> str_fits(#[trigger] ss[i])
}

/// The optional string fits, when present.
pub open spec fn opt_str_fits(o: Option<Seq<char>>) -> bool {
    match o {
        Option::None => true,
        Option::Some(s) => str_fits(s),
    }
}

/// Every piece of the lesson fits its counter.
pub open spec fn lesson_fits(l: LessonView) -> bool {
    &&& str_seq_fits(l.classes)
    &&& str_seq_fits(l.teachers)
    &&& str_seq_fits(l.rooms)
    &&& str_fits(l.description)
    &&& str_fits(l.topic)
    &&& opt_str_fits(l.sub_text)
}

/// The capture time is a 64-bit value and every lesson fits.
pub open spec fn snapshot_fits(s: SnapshotView) -> bool {
    &&& i64::MIN <= s.datetime <= i64::MAX
    &&& s.lessons.len() <= u64::MAX
    &&& forall|i: int| 0 <= i < s.lessons.len() ==> lesson_fits(#[trigger] s.lessons[i])
}

/// The creation date is a 64-bit value and every snapshot fits.
pub open spec fn export_fits(f: ExportFileView) -> bool {
    &&& i64::MIN <= f.date <= i64::MAX
    &&& f.snapshots.len() <= u64::MAX
    &&& forall|i: int| 0 <= i < f.snapshots.len() ==> snapshot_fits(#[trigger] f.snapshots[i])
}

// ---------------------------------------------------------------------------
// Appending one element extends an element encoding at its end.
// ---------------------------------------------------------------------------
proof fn lemma_enc_str_elems_snoc(ss: Seq<Seq<char>>, x: Seq<char>)
    ensures
        enc_str_elems(ss.push(x)) == enc_str_elems(ss) + enc_str(x),
    decreases ss.len(),
{
    if ss.len() == 0 {
        assert(ss =~= Seq::<Seq<char>>::empty());
        assert(ss.push(x).drop_first() =~= ss);
        assert(ss.push(x)[0] == x);
        assert(enc_str_elems(ss) == Seq::<u8>::empty());
        assert(enc_str_elems(ss.push(x)) == enc_str(x) + enc_str_elems(ss));
        assert(enc_str(x) + Seq::<u8>::empty() =~= Seq::<u8>::empty() + enc_str(x));
    } else {
        assert(ss.push(x).drop_first() =~= ss.drop_first().push(x));
        assert(ss.push(x)[0] == ss[0]);
        lemma_enc_str_elems_snoc(ss.drop_first(), x);
        assert(enc_str_elems(ss.push(x)) == enc_str(ss[0]) + enc_str_elems(
            ss.drop_first().push(x),
        ));
        assert(enc_str_elems(ss) == enc_str(ss[0]) + enc_str_elems(ss.drop_first()));
        assert(enc_str(ss[0]) + (enc_str_elems(ss.drop_first()) + enc_str(x)) =~= (enc_str(
            ss[0],
        ) + enc_str_elems(ss.drop_first())) + enc_str(x));
    }
}

proof fn lemma_enc_lesson_elems_snoc(ls: Seq<LessonView>, x: LessonView)
    ensures
        enc_lesson_elems(ls.push(x)) == enc_lesson_elems(ls) + enc_lesson(x),
    decreases ls.len(),
{
    if ls.len() == 0 {
        assert(ls =~= Seq::<LessonView>::empty());
        assert(ls.push(x).drop_first() =~= ls);
        assert(ls.push(x)[0] == x);
        assert(enc_lesson_elems(ls) == Seq::<u8>::empty());
        assert(enc_lesson_elems(ls.push(x)) == enc_lesson(x) + enc_lesson_elems(ls));
        assert(enc_lesson(x) + Seq::<u8>::empty() =~= Seq::<u8>::empty() + enc_lesson(x));
    } else {
        assert(ls.push(x).drop_first() =~= ls.drop_first().push(x));
        assert(ls.push(x)[0] == ls[0]);
        lemma_enc_lesson_elems_snoc(ls.drop_first(), x);
        assert(enc_lesson_elems(ls.push(x)) == enc_lesson(ls[0]) + enc_lesson_elems(
            ls.drop_first().push(x),
        ));
        assert(enc_lesson_elems(ls) == enc_lesson(ls[0]) + enc_lesson_elems(ls.drop_first()));
        assert(enc_lesson(ls[0]) + (enc_lesson_elems(ls.drop_first()) + enc_lesson(x)) =~= (
        enc_lesson(ls[0]) + enc_lesson_elems(ls.drop_first())) + enc_lesson(x));
    }
}

proof fn lemma_enc_snap_elems_snoc(ss: Seq<SnapshotView>, x: SnapshotView)
    ensures
        enc_snap_elems(ss.push(x)) == enc_snap_elems(ss) + enc_snapshot(x),
    decreases ss.len(),
{
    if ss.len() == 0 {
        assert(ss =~= Seq::<SnapshotView>::empty());
        assert(ss.push(x).drop_first() =~= ss);
        assert(ss.push(x)[0] == x);
        assert(enc_snap_elems(ss) == Seq::<u8>::empty());
        assert(enc_snap_elems(ss.push(x)) == enc_snapshot(x) + enc_snap_elems(ss));
        assert(enc_snapshot(x) + Seq::<u8>::empty() =~= Seq::<u8>::empty() + enc_snapshot(x));
    } else {
        assert(ss.push(x).drop_first() =~= ss.drop_first().push(x));
        assert(ss.push(x)[0] == ss[0]);
        lemma_enc_snap_elems_snoc(ss.drop_first(), x);
        assert(enc_snap_elems(ss.push(x)) == enc_snapshot(ss[0]) + enc_snap_elems(
            ss.drop_first().push(x),
        ));
        assert(enc_snap_elems(ss) == enc_snapshot(ss[0]) + enc_snap_elems(ss.drop_first()));
        assert(enc_snapshot(ss[0]) + (enc_snap_elems(ss.drop_first()) + enc_snapshot(x)) =~= (
        enc_snapshot(ss[0]) + enc_snap_elems(ss.drop_first())) + enc_snapshot(x));
    }
}

// ---------------------------------------------------------------------------
// The encoder.
// ---------------------------------------------------------------------------
fn write_u64(out: &mut Vec<u8>, v: u64)
    ensures
        final(out)@ == old(out)@ + enc_u64(v),
{
    let bytes = u64_to_le_bytes(v);
    out.extend_from_slice(bytes.as_slice());
    proof {
        assert(out@ =~= old(out)@ + enc_u64(v));
    }
}

fn write_str(out: &mut Vec<u8>, s: &str)
    ensures
        final(out)@ == old(out)@ + enc_str(s@),
{
    let bytes = s.as_bytes();
    write_u64(out, bytes.len() as u64);
    out.extend_from_slice(bytes);
    proof {
        assert(out@ =~= old(out)@ + enc_str(s@));
    }
}

fn write_opt_str(out: &mut Vec<u8>, o: &Option<String>)
    ensures
        final(out)@ == old(out)@ + enc_opt_str(o.deep_view()),
{
    match o {
        Option::None => {
            out.push(0);
            proof {
                assert(out@ =~= old(out)@ + enc_opt_str(o.deep_view()));
            }
        },
        Option::Some(s) => {
            out.push(1);
            write_str(out, s.as_str());
            proof {
                assert(out@ =~= old(out)@ + enc_opt_str(o.deep_view()));
            }
        },
    }
}

fn write_code(out: &mut Vec<u8>, c: &LessonCode)
    ensures
        final(out)@ == old(out)@ + enc_code(*c),
{
    match c {
        LessonCode::Regular => out.push(0),
        LessonCode::Irregular => out.push(1),
        LessonCode::Cancelled => out.push(2),
    }
    proof {
        assert(out@ =~= old(out)@ + enc_code(*c));
    }
}

fn write_str_vec(out: &mut Vec<u8>, v: &Vec<String>)
    ensures
        final(out)@ == old(out)@ + enc_str_seq(v.deep_view()),
{
    write_u64(out, v.len() as u64);
    let n = v.len();
    let mut i: usize = 0;
    while i < n
        invariant
            i <= n,
            n == v@.len(),
            out@ == old(out)@ + enc_u64(v.deep_view().len() as u64) + enc_str_elems(
                v.deep_view().take(i as int),
            ),
        decreases n - i,
    {
        write_str(out, v[i].as_str());
        proof {
            lemma_enc_str_elems_snoc(v.deep_view().take(i as int), v.deep_view()[i as int]);
            assert(v.deep_view().take(i + 1) =~= v.deep_view().take(i as int).push(
                v.deep_view()[i as int],
            ));
            assert(out@ =~= old(out)@ + enc_u64(v.deep_view().len() as u64) + enc_str_elems(
                v.deep_view().take(i + 1),
            ));
        }
        i = i + 1;
    }
    proof {
        assert(v.deep_view().take(n as int) =~= v.deep_view());
        assert(out@ =~= old(out)@ + enc_str_seq(v.deep_view()));
    }
}

fn write_lesson(out: &mut Vec<u8>, l: &Lesson)
    ensures
        final(out)@ == old(out)@ + enc_lesson(l@),
{
    write_str_vec(out, &l.classes);
    write_str_vec(out, &l.teachers);
    write_str_vec(out, &l.rooms);
    write_code(out, &l.lesson_code);
    write_str(out, l.description.as_str());
    write_str(out, l.topic.as_str());
    write_opt_str(out, &l.sub_text);
    proof {
        assert(out@ =~= old(out)@ + enc_lesson(l@));
    }
}

fn write_snapshot(out: &mut Vec<u8>, s: &Snapshot)
    ensures
        final(out)@ == old(out)@ + enc_snapshot(s@),
{
    write_u64(out, i64_bits(s.datetime));
    write_u64(out, s.lessons.len() as u64);
    let n = s.lessons.len();
    let mut i: usize = 0;
    while i < n
        invariant
            i <= n,
            n == s.lessons@.len(),
            out@ == old(out)@ + enc_u64(i64_to_u64_bits(s@.datetime)) + enc_u64(
                s@.lessons.len() as u64,
            ) + enc_lesson_elems(s@.lessons.take(i as int)),
        decreases n - i,
    {
        write_lesson(out, &s.lessons[i]);
        proof {
            lemma_enc_lesson_elems_snoc(s@.lessons.take(i as int), s@.lessons[i as int]);
            assert(s@.lessons.take(i + 1) =~= s@.lessons.take(i as int).push(
                s@.lessons[i as int],
            ));
            assert(out@ =~= old(out)@ + enc_u64(i64_to_u64_bits(s@.datetime)) + enc_u64(
                s@.lessons.len() as u64,
            ) + enc_lesson_elems(s@.lessons.take(i + 1)));
        }
        i = i + 1;
    }
    proof {
        assert(s@.lessons.take(n as int) =~= s@.lessons);
        assert(out@ =~= old(out)@ + enc_snapshot(s@));
    }
}

impl ExportFile {
    /// Serializes the whole partition — the creation date and every
    /// snapshot, not just the newest — to its binary form. Deserializing
    /// the result gives the partition back.
    pub fn serialize(&self) -> (out: Vec<u8>)
        ensures
            out@ == spec_serialize(self@),
            export_fits(self@) ==> spec_deserialize(out@) == Option::Some(self@),
    {
        let mut out: Vec<u8> = Vec::new();
        write_u64(&mut out, i64_bits(self.date));
        write_u64(&mut out, self.snapshots.len() as u64);
        let n = self.snapshots.len();
        let mut i: usize = 0;
        while i < n
            invariant
                i <= n,
                n == self.snapshots@.len(),
                out@ == enc_u64(i64_to_u64_bits(self@.date)) + enc_u64(
                    self@.snapshots.len() as u64,
                ) + enc_snap_elems(self@.snapshots.take(i as int)),
            decreases n - i,
        {
            write_snapshot(&mut out, &self.snapshots[i]);
            proof {
                lemma_enc_snap_elems_snoc(
                    self@.snapshots.take(i as int),
                    self@.snapshots[i as int],
                );
                assert(self@.snapshots.take(i + 1) =~= self@.snapshots.take(i as int).push(
                    self@.snapshots[i as int],
                ));
                assert(out@ =~= enc_u64(i64_to_u64_bits(self@.date)) + enc_u64(
                    self@.snapshots.len() as u64,
                ) + enc_snap_elems(self@.snapshots.take(i + 1)));
            }
            i = i + 1;
        }
        proof {
            assert(self@.snapshots.take(n as int) =~= self@.snapshots);
            assert(out@ =~= spec_serialize(self@));
            if export_fits(self@) {
                lemma_archive_round_trip(self@);
            }
        }
        out
    }
}

// ---------------------------------------------------------------------------
// The decoding, as spec functions over the raw bytes. Each one consumes from
// `pos` and yields the value with the position after it, or nothing when the
// bytes do not hold a well-formed value there.
// ---------------------------------------------------------------------------
/// Eight little-endian bytes, if that many remain.
pub open spec fn dec_u64(data: Seq<u8>, pos: int) -> Option<(u64, int)> {
    if 0 <= pos && pos + 8 <= data.len() {
        Option::Some((spec_u64_from_le_bytes(data.subrange(pos, pos + 8)), pos + 8))
    } else {
        Option::None
    }
}

/// A counted string, rejecting bytes that are not valid UTF-8.
pub open spec fn dec_str(data: Seq<u8>, pos: int) -> Option<(Seq<char>, int)> {
    match dec_u64(data, pos) {
        Option::None => Option::None,
        Option::Some((n, p)) => {
            let end = p + n as int;
            if end <= data.len() && valid_utf8(data.subrange(p, end)) {
                Option::Some((decode_utf8(data.subrange(p, end)), end))
            } else {
                Option::None
            }
        },
    }
}

/// A tagged optional string.
pub open spec fn dec_opt_str(data: Seq<u8>, pos: int) -> Option<(Option<Seq<char>>, int)> {
    if 0 <= pos && pos < data.len() {
        if data[pos] == 0 {
            Option::Some((Option::None, pos + 1))
        } else if data[pos] == 1 {
            match dec_str(data, pos + 1) {
                Option::None => Option::None,
                Option::Some((s, p)) => Option::Some((Option::Some(s), p)),
            }
        } else {
            Option::None
        }
    } else {
        Option::None
    }
}

/// A one-byte lesson status tag.
pub open spec fn dec_code(data: Seq<u8>, pos: int) -> Option<(LessonCode, int)> {
    if 0 <= pos && pos < data.len() {
        if data[pos] == 0 {
            Option::Some((LessonCode::Regular, pos + 1))
        } else if data[pos] == 1 {
            Option::Some((LessonCode::Irregular, pos + 1))
        } else if data[pos] == 2 {
            Option::Some((LessonCode::Cancelled, pos + 1))
        } else {
            Option::None
        }
    } else {
        Option::None
    }
}

/// `count` strings, one after the other.
pub open spec fn dec_str_elems(data: Seq<u8>, pos: int, count: int) -> Option<
    (Seq<Seq<char>>, int),
>
    decreases count,
{
    if count <= 0 {
        Option::Some((Seq::<Seq<char>>::empty(), pos))
    } else {
        match dec_str(data, pos) {
            Option::None => Option::None,
            Option::Some((s, p)) => match dec_str_elems(data, p, count - 1) {
                Option::None => Option::None,
                Option::Some((ss, q)) => Option::Some((seq![s] + ss, q)),
            },
        }
    }
}

/// A counted sequence of strings.
pub open spec fn dec_str_seq(data: Seq<u8>, pos: int) -> Option<(Seq<Seq<char>>, int)> {
    match dec_u64(data, pos) {
        Option::None => Option::None,
        Option::Some((n, p)) => dec_str_elems(data, p, n as int),
    }
}

/// One lesson, field by field in encoding order.
pub open spec fn dec_lesson(data: Seq<u8>, pos: int) -> Option<(LessonView, int)> {
    match dec_str_seq(data, pos) {
        Option::None => Option::None,
        Option::Some((classes, p1)) => match dec_str_seq(data, p1) {
            Option::None => Option::None,
            Option::Some((teachers, p2)) => match dec_str_seq(data, p2) {
                Option::None => Option::None,
                Option::Some((rooms, p3)) => match dec_code(data, p3) {
                    Option::None => Option::None,
                    Option::Some((code, p4)) => match dec_str(data, p4) {
                        Option::None => Option::None,
                        Option::Some((description, p5)) => match dec_str(data, p5) {
                            Option::None => Option::None,
                            Option::Some((topic, p6)) => match dec_opt_str(data, p6) {
                                Option::None => Option::None,
                                Option::Some((sub, p7)) => Option::Some(
                                    (
                                        LessonView {
                                            classes: classes,
                                            teachers: teachers,
                                            rooms: rooms,
                                            lesson_code: code,
                                            description: description,
                                            topic: topic,
                                            sub_text: sub,
                                        },
                                        p7,
                                    ),
                                ),
                            },
                        },
                    },
                },
            },
        },
    }
}

/// `count` lessons, one after the other.
pub open spec fn dec_lesson_elems(data: Seq<u8>, pos: int, count: int) -> Option<
    (Seq<LessonView>, int),
>
    decreases count,
{
    if count <= 0 {
        Option::Some((Seq::<LessonView>::empty(), pos))
    } else {
        match dec_lesson(data, pos) {
            Option::None => Option::None,
            Option::Some((l, p)) => match dec_lesson_elems(data, p, count - 1) {
                Option::None => Option::None,
                Option::Some((ls, q)) => Option::Some((seq![l] + ls, q)),
            },
        }
    }
}

/// One snapshot: its capture time, then its counted lessons.
pub open spec fn dec_snapshot(data: Seq<u8>, pos: int) -> Option<(SnapshotView, int)> {
    match dec_u64(data, pos) {
        Option::None => Option::None,
        Option::Some((bits, p1)) => match dec_u64(data, p1) {
            Option::None => Option::None,
            Option::Some((count, p2)) => match dec_lesson_elems(data, p2, count as int) {
                Option::None => Option::None,
                Option::Some((ls, p3)) => Option::Some(
                    (SnapshotView { datetime: u64_bits_to_i64(bits), lessons: ls }, p3),
                ),
            },
        },
    }
}

/// `count` snapshots, one after the other.
pub open spec fn dec_snap_elems(data: Seq<u8>, pos: int, count: int) -> Option<
    (Seq<SnapshotView>, int),
>
    decreases count,
{
    if count <= 0 {
        Option::Some((Seq::<SnapshotView>::empty(), pos))
    } else {
        match dec_snapshot(data, pos) {
            Option::None => Option::None,
            Option::Some((s, p)) => match dec_snap_elems(data, p, count - 1) {
                Option::None => Option::None,
                Option::Some((ss, q)) => Option::Some((seq![s] + ss, q)),
            },
        }
    }
}

/// A whole partition, read from position 0; every byte must be consumed.
pub open spec fn spec_deserialize(data: Seq<u8>) -> Option<ExportFileView> {
    match dec_u64(data, 0) {
        Option::None => Option::None,
        Option::Some((bits, p1)) => match dec_u64(data, p1) {
            Option::None => Option::None,
            Option::Some((count, p2)) => match dec_snap_elems(data, p2, count as int) {
                Option::None => Option::None,
                Option::Some((ss, p3)) => if p3 == data.len() {
                    Option::Some(
                        (ExportFileView { date: u64_bits_to_i64(bits), snapshots: ss }),
                    )
                } else {
                    Option::None
                },
            },
        },
    }
}

// ---------------------------------------------------------------------------
// Round trip: decoding what was encoded yields the encoded value.
// ---------------------------------------------------------------------------
/// A window of `data` equal to `whole` agrees with `whole` on every
/// sub-window.
proof fn lemma_subrange_at(data: Seq<u8>, pos: int, whole: Seq<u8>, a: int, b: int)
    requires
        0 <= pos,
        pos + whole.len() <= data.len(),
        data.subrange(pos, pos + whole.len()) == whole,
        0 <= a <= b <= whole.len(),
    ensures
        data.subrange(pos + a, pos + b) == whole.subrange(a, b),
{
    assert(data.subrange(pos + a, pos + b) =~= whole.subrange(a, b));
}

proof fn lemma_rt_u64(data: Seq<u8>, pos: int, v: u64)
    requires
        0 <= pos,
        pos + 8 <= data.len(),
        data.subrange(pos, pos + 8) == enc_u64(v),
    ensures
        dec_u64(data, pos) == Option::Some((v, pos + 8)),
{
    lemma_auto_spec_u64_to_from_le_bytes();
}

proof fn lemma_rt_str(data: Seq<u8>, pos: int, s: Seq<char>)
    requires
        str_fits(s),
        0 <= pos,
        pos + enc_str(s).len() <= data.len(),
        data.subrange(pos, pos + enc_str(s).len()) == enc_str(s),
    ensures
        enc_str(s).len() == 8 + encode_utf8(s).len(),
        dec_str(data, pos) == Option::Some((s, pos + enc_str(s).len())),
{
    lemma_auto_spec_u64_to_from_le_bytes();
    let bytes = encode_utf8(s);
    let n = bytes.len() as int;
    let e = enc_str(s);
    assert(e.len() == 8 + n);
    lemma_subrange_at(data, pos, e, 0, 8);
    assert(e.subrange(0, 8) =~= enc_u64(n as u64));
    lemma_rt_u64(data, pos, n as u64);
    lemma_subrange_at(data, pos, e, 8, 8 + n);
    assert(e.subrange(8, 8 + n) =~= bytes);
    encode_utf8_valid_utf8(s);
    encode_utf8_decode_utf8(s);
    assert(dec_str(data, pos) == Option::Some((s, pos + e.len())));
}

proof fn lemma_rt_code(data: Seq<u8>, pos: int, c: LessonCode)
    requires
        0 <= pos,
        pos + 1 <= data.len(),
        data.subrange(pos, pos + 1) == enc_code(c),
    ensures
        dec_code(data, pos) == Option::Some((c, pos + 1)),
{
    assert(data[pos] == data.subrange(pos, pos + 1)[0]);
}

proof fn lemma_rt_opt_str(data: Seq<u8>, pos: int, o: Option<Seq<char>>)
    requires
        opt_str_fits(o),
        0 <= pos,
        pos + enc_opt_str(o).len() <= data.len(),
        data.subrange(pos, pos + enc_opt_str(o).len()) == enc_opt_str(o),
    ensures
        dec_opt_str(data, pos) == Option::Some((o, pos + enc_opt_str(o).len())),
{
    let e = enc_opt_str(o);
    assert(data[pos] == data.subrange(pos, pos + e.len())[0]);
    match o {
        Option::None => {
            assert(dec_opt_str(data, pos) == Option::Some((o, pos + 1)));
        },
        Option::Some(s) => {
            assert(e.subrange(1, e.len() as int) =~= enc_str(s));
            lemma_subrange_at(data, pos, e, 1, e.len() as int);
            lemma_rt_str(data, pos + 1, s);
        },
    }
}

proof fn lemma_rt_str_elems(data: Seq<u8>, pos: int, ss: Seq<Seq<char>>)
    requires
        forall|i: int| 0 <= i < ss.len() ==> str_fits(#[trigger] ss[i]),
        0 <= pos,
        pos + enc_str_elems(ss).len() <= data.len(),
        data.subrange(pos, pos + enc_str_elems(ss).len()) == enc_str_elems(ss),
    ensures
        dec_str_elems(data, pos, ss.len() as int) == Option::Some(
            (ss, pos + enc_str_elems(ss).len()),
        ),
    decreases ss.len(),
{
    let e = enc_str_elems(ss);
    if ss.len() == 0 {
        assert(ss =~= Seq::<Seq<char>>::empty());
    } else {
        let first = ss[0];
        let rest = ss.drop_first();
        let e1 = enc_str(first);
        let e2 = enc_str_elems(rest);
        assert(e == e1 + e2);
        assert(e.subrange(0, e1.len() as int) =~= e1);
        assert(e.subrange(e1.len() as int, e.len() as int) =~= e2);
        lemma_subrange_at(data, pos, e, 0, e1.len() as int);
        lemma_rt_str(data, pos, first);
        lemma_subrange_at(data, pos, e, e1.len() as int, e.len() as int);
        assert forall|i: int| 0 <= i < rest.len() implies str_fits(#[trigger] rest[i]) by {
            assert(rest[i] == ss[i + 1]);
        }
        lemma_rt_str_elems(data, pos + e1.len(), rest);
        assert(seq![first] + rest =~= ss);
        assert(dec_str_elems(data, pos, ss.len() as int) == Option::Some((ss, pos + e.len())));
    }
}

proof fn lemma_rt_str_seq(data: Seq<u8>, pos: int, ss: Seq<Seq<char>>)
    requires
        str_seq_fits(ss),
        0 <= pos,
        pos + enc_str_seq(ss).len() <= data.len(),
        data.subrange(pos, pos + enc_str_seq(ss).len()) == enc_str_seq(ss),
    ensures
        enc_str_seq(ss).len() == 8 + enc_str_elems(ss).len(),
        dec_str_seq(data, pos) == Option::Some((ss, pos + enc_str_seq(ss).len())),
{
    lemma_auto_spec_u64_to_from_le_bytes();
    let e = enc_str_seq(ss);
    let e2 = enc_str_elems(ss);
    assert(e.len() == 8 + e2.len());
    lemma_subrange_at(data, pos, e, 0, 8);
    assert(e.subrange(0, 8) =~= enc_u64(ss.len() as u64));
    lemma_rt_u64(data, pos, ss.len() as u64);
    lemma_subrange_at(data, pos, e, 8, e.len() as int);
    assert(e.subrange(8, e.len() as int) =~= e2);
    lemma_rt_str_elems(data, pos + 8, ss);
}

#[verifier::rlimit(60)]
proof fn lemma_rt_lesson(data: Seq<u8>, pos: int, l: LessonView)
    requires
        lesson_fits(l),
        0 <= pos,
        pos + enc_lesson(l).len() <= data.len(),
        data.subrange(pos, pos + enc_lesson(l).len()) == enc_lesson(l),
    ensures
        dec_lesson(data, pos) == Option::Some((l, pos + enc_lesson(l).len())),
{
    let e = enc_lesson(l);
    let e1 = enc_str_seq(l.classes);
    let e2 = enc_str_seq(l.teachers);
    let e3 = enc_str_seq(l.rooms);
    let e4 = enc_code(l.lesson_code);
    let e5 = enc_str(l.description);
    let e6 = enc_str(l.topic);
    let e7 = enc_opt_str(l.sub_text);
    let o0 = 0int;
    let o1 = o0 + e1.len();
    let o2 = o1 + e2.len();
    let o3 = o2 + e3.len();
    let o4 = o3 + e4.len();
    let o5 = o4 + e5.len();
    let o6 = o5 + e6.len();
    let o7 = o6 + e7.len();
    assert(e.len() == o7);
    assert(e.subrange(o0, o1) =~= e1);
    assert(e.subrange(o1, o2) =~= e2);
    assert(e.subrange(o2, o3) =~= e3);
    assert(e.subrange(o3, o4) =~= e4);
    assert(e.subrange(o4, o5) =~= e5);
    assert(e.subrange(o5, o6) =~= e6);
    assert(e.subrange(o6, o7) =~= e7);
    lemma_subrange_at(data, pos, e, o0, o1);
    lemma_rt_str_seq(data, pos, l.classes);
    lemma_subrange_at(data, pos, e, o1, o2);
    lemma_rt_str_seq(data, pos + o1, l.teachers);
    lemma_subrange_at(data, pos, e, o2, o3);
    lemma_rt_str_seq(data, pos + o2, l.rooms);
    lemma_subrange_at(data, pos, e, o3, o4);
    lemma_rt_code(data, pos + o3, l.lesson_code);
    lemma_subrange_at(data, pos, e, o4, o5);
    lemma_rt_str(data, pos + o4, l.description);
    lemma_subrange_at(data, pos, e, o5, o6);
    lemma_rt_str(data, pos + o5, l.topic);
    lemma_subrange_at(data, pos, e, o6, o7);
    lemma_rt_opt_str(data, pos + o6, l.sub_text);
    assert(dec_lesson(data, pos) == Option::Some((l, pos + e.len())));
}

proof fn lemma_rt_lesson_elems(data: Seq<u8>, pos: int, ls: Seq<LessonView>)
    requires
        forall|i: int| 0 <= i < ls.len() ==> lesson_fits(#[trigger] ls[i]),
        0 <= pos,
        pos + enc_lesson_elems(ls).len() <= data.len(),
        data.subrange(pos, pos + enc_lesson_elems(ls).len()) == enc_lesson_elems(ls),
    ensures
        dec_lesson_elems(data, pos, ls.len() as int) == Option::Some(
            (ls, pos + enc_lesson_elems(ls).len()),
        ),
    decreases ls.len(),
{
    let e = enc_lesson_elems(ls);
    if ls.len() == 0 {
        assert(ls =~= Seq::<LessonView>::empty());
    } else {
        let first = ls[0];
        let rest = ls.drop_first();
        let e1 = enc_lesson(first);
        let e2 = enc_lesson_elems(rest);
        assert(e == e1 + e2);
        assert(e.subrange(0, e1.len() as int) =~= e1);
        assert(e.subrange(e1.len() as int, e.len() as int) =~= e2);
        lemma_subrange_at(data, pos, e, 0, e1.len() as int);
        lemma_rt_lesson(data, pos, first);
        lemma_subrange_at(data, pos, e, e1.len() as int, e.len() as int);
        assert forall|i: int| 0 <= i < rest.len() implies lesson_fits(#[trigger] rest[i]) by {
            assert(rest[i] == ls[i + 1]);
        }
        lemma_rt_lesson_elems(data, pos + e1.len(), rest);
        assert(seq![first] + rest =~= ls);
        assert(dec_lesson_elems(data, pos, ls.len() as int) == Option::Some(
            (ls, pos + e.len()),
        ));
    }
}

proof fn lemma_rt_snapshot(data: Seq<u8>, pos: int, s: SnapshotView)
    requires
        snapshot_fits(s),
        0 <= pos,
        pos + enc_snapshot(s).len() <= data.len(),
        data.subrange(pos, pos + enc_snapshot(s).len()) == enc_snapshot(s),
    ensures
        dec_snapshot(data, pos) == Option::Some((s, pos + enc_snapshot(s).len())),
{
    lemma_auto_spec_u64_to_from_le_bytes();
    let e = enc_snapshot(s);
    let e3 = enc_lesson_elems(s.lessons);
    assert(e.len() == 16 + e3.len());
    assert(e.subrange(0, 8) =~= enc_u64(i64_to_u64_bits(s.datetime)));
    assert(e.subrange(8, 16) =~= enc_u64(s.lessons.len() as u64));
    assert(e.subrange(16, e.len() as int) =~= e3);
    lemma_subrange_at(data, pos, e, 0, 8);
    lemma_rt_u64(data, pos, i64_to_u64_bits(s.datetime));
    lemma_subrange_at(data, pos, e, 8, 16);
    lemma_rt_u64(data, pos + 8, s.lessons.len() as u64);
    lemma_subrange_at(data, pos, e, 16, e.len() as int);
    lemma_rt_lesson_elems(data, pos + 16, s.lessons);
    lemma_i64_bits_round_trip(s.datetime);
    assert(dec_snapshot(data, pos) == Option::Some((s, pos + e.len())));
}

proof fn lemma_rt_snap_elems(data: Seq<u8>, pos: int, ss: Seq<SnapshotView>)
    requires
        forall|i: int| 0 <= i < ss.len() ==> snapshot_fits(#[trigger] ss[i]),
        0 <= pos,
        pos + enc_snap_elems(ss).len() <= data.len(),
        data.subrange(pos, pos + enc_snap_elems(ss).len()) == enc_snap_elems(ss),
    ensures
        dec_snap_elems(data, pos, ss.len() as int) == Option::Some(
            (ss, pos + enc_snap_elems(ss).len()),
        ),
    decreases ss.len(),
{
    let e = enc_snap_elems(ss);
    if ss.len() == 0 {
        assert(ss =~= Seq::<SnapshotView>::empty());
    } else {
        let first = ss[0];
        let rest = ss.drop_first();
        let e1 = enc_snapshot(first);
        let e2 = enc_snap_elems(rest);
        assert(e == e1 + e2);
        assert(e.subrange(0, e1.len() as int) =~= e1);
        assert(e.subrange(e1.len() as int, e.len() as int) =~= e2);
        lemma_subrange_at(data, pos, e, 0, e1.len() as int);
        lemma_rt_snapshot(data, pos, first);
        lemma_subrange_at(data, pos, e, e1.len() as int, e.len() as int);
        assert forall|i: int| 0 <= i < rest.len() implies snapshot_fits(#[trigger] rest[i]) by {
            assert(rest[i] == ss[i + 1]);
        }
        lemma_rt_snap_elems(data, pos + e1.len(), rest);
        assert(seq![first] + rest =~= ss);
        assert(dec_snap_elems(data, pos, ss.len() as int) == Option::Some((ss, pos + e.len())));
    }
}

// ---------------------------------------------------------------------------
// The decoder. Each reader returns the value with the position after it and
// agrees exactly with the spec decoder: it succeeds if and only if the spec
// decoder does, and returns what the spec decoder returns.
// ---------------------------------------------------------------------------
/// Relies on `String::from_utf8`: the string made of exactly these bytes
/// when they are valid UTF-8, and an error otherwise.
#[verifier::external_body]
fn string_from_utf8(bytes: Vec<u8>) -> (r: Option<String>)
    ensures
        r is Some <==> valid_utf8(bytes@),
        r matches Some(s) ==> s@ == decode_utf8(bytes@),
{
    String::from_utf8(bytes).ok()
}

fn read_u64(data: &[u8], pos: usize) -> (r: Option<(u64, usize)>)
    ensures
        r is Some <==> dec_u64(data@, pos as int) is Some,
        r matches Some((v, p)) ==> dec_u64(data@, pos as int) == Option::Some((v, p as int)),
{
    if pos <= data.len() && data.len() - pos >= 8 {
        let s = &data[pos..pos + 8];
        let v = u64_from_le_bytes(s);
        Some((v, pos + 8))
    } else {
        None
    }
}

fn read_str(data: &[u8], pos: usize) -> (r: Option<(String, usize)>)
    ensures
        r is Some <==> dec_str(data@, pos as int) is Some,
        r matches Some((s, p)) ==> dec_str(data@, pos as int) == Option::Some((s@, p as int)),
{
    let (n, p) = match read_u64(data, pos) {
        Some(x) => x,
        None => {
            return None;
        },
    };
    if n > (data.len() - p) as u64 {
        return None;
    }
    let nu = n as usize;
    let bytes = &data[p..p + nu];
    let owned = slice_to_vec(bytes);
    match string_from_utf8(owned) {
        Some(s) => Some((s, p + nu)),
        None => None,
    }
}

fn read_code(data: &[u8], pos: usize) -> (r: Option<(LessonCode, usize)>)
    ensures
        r is Some <==> dec_code(data@, pos as int) is Some,
        r matches Some((c, p)) ==> dec_code(data@, pos as int) == Option::Some((c, p as int)),
{
    if pos < data.len() {
        let b = data[pos];
        if b == 0 {
            Some((LessonCode::Regular, pos + 1))
        } else if b == 1 {
            Some((LessonCode::Irregular, pos + 1))
        } else if b == 2 {
            Some((LessonCode::Cancelled, pos + 1))
        } else {
            None
        }
    } else {
        None
    }
}

fn read_opt_str(data: &[u8], pos: usize) -> (r: Option<(Option<String>, usize)>)
    ensures
        r is Some <==> dec_opt_str(data@, pos as int) is Some,
        r matches Some((o, p)) ==> dec_opt_str(data@, pos as int) == Option::Some(
            (o.deep_view(), p as int),
        ),
{
    if pos < data.len() {
        let b = data[pos];
        if b == 0 {
            Some((None, pos + 1))
        } else if b == 1 {
            match read_str(data, pos + 1) {
                Some((s, p)) => Some((Some(s), p)),
                None => None,
            }
        } else {
            None
        }
    } else {
        None
    }
}

/// `dec_str_elems` under an already-decoded prefix.
spec fn dec_str_cont(prefix: Seq<Seq<char>>, data: Seq<u8>, pos: int, count: int) -> Option<
    (Seq<Seq<char>>, int),
> {
    match dec_str_elems(data, pos, count) {
        Option::None => Option::None,
        Option::Some((ss, q)) => Option::Some((prefix + ss, q)),
    }
}

proof fn lemma_dec_str_cont_init(data: Seq<u8>, pos: int, count: int)
    ensures
        dec_str_cont(Seq::<Seq<char>>::empty(), data, pos, count) == dec_str_elems(
            data,
            pos,
            count,
        ),
{
    match dec_str_elems(data, pos, count) {
        Option::None => {},
        Option::Some((ss, q)) => {
            assert(Seq::<Seq<char>>::empty() + ss =~= ss);
        },
    }
}

proof fn lemma_dec_str_cont_step(
    prefix: Seq<Seq<char>>,
    data: Seq<u8>,
    pos: int,
    count: int,
    s: Seq<char>,
    p2: int,
)
    requires
        count > 0,
        dec_str(data, pos) == Option::Some((s, p2)),
    ensures
        dec_str_cont(prefix, data, pos, count) == dec_str_cont(
            prefix.push(s),
            data,
            p2,
            count - 1,
        ),
{
    match dec_str_elems(data, p2, count - 1) {
        Option::None => {},
        Option::Some((ss, q)) => {
            assert(dec_str_elems(data, pos, count) == Option::Some((seq![s] + ss, q)));
            assert(prefix + (seq![s] + ss) =~= prefix.push(s) + ss);
        },
    }
}

proof fn lemma_dec_str_cont_done(prefix: Seq<Seq<char>>, data: Seq<u8>, pos: int)
    ensures
        dec_str_cont(prefix, data, pos, 0) == Option::Some((prefix, pos)),
{
    assert(prefix + Seq::<Seq<char>>::empty() =~= prefix);
}

fn read_str_vec(data: &[u8], pos: usize) -> (r: Option<(Vec<String>, usize)>)
    ensures
        r is Some <==> dec_str_seq(data@, pos as int) is Some,
        r matches Some((v, p)) ==> dec_str_seq(data@, pos as int) == Option::Some(
            (v.deep_view(), p as int),
        ),
{
    let (n, p0) = match read_u64(data, pos) {
        Some(x) => x,
        None => {
            return None;
        },
    };
    let mut acc: Vec<String> = Vec::new();
    let mut p = p0;
    let mut i: u64 = 0;
    proof {
        lemma_dec_str_cont_init(data@, p0 as int, n as int);
        assert(acc.deep_view() =~= Seq::<Seq<char>>::empty());
    }
    while i < n
        invariant
            i <= n,
            dec_str_seq(data@, pos as int) == dec_str_cont(
                acc.deep_view(),
                data@,
                p as int,
                n as int - i as int,
            ),
        decreases n - i,
    {
        match read_str(data, p) {
            None => {
                return None;
            },
            Some((s, p2)) => {
                proof {
                    lemma_dec_str_cont_step(
                        acc.deep_view(),
                        data@,
                        p as int,
                        n as int - i as int,
                        s@,
                        p2 as int,
                    );
                }
                let ghost pre = acc.deep_view();
                acc.push(s);
                proof {
                    assert(acc.deep_view() =~= pre.push(s@));
                }
                p = p2;
                i = i + 1;
            },
        }
    }
    proof {
        lemma_dec_str_cont_done(acc.deep_view(), data@, p as int);
    }
    Some((acc, p))
}

fn read_lesson(data: &[u8], pos: usize) -> (r: Option<(Lesson, usize)>)
    ensures
        r is Some <==> dec_lesson(data@, pos as int) is Some,
        r matches Some((l, p)) ==> dec_lesson(data@, pos as int) == Option::Some(
            (l@, p as int),
        ),
{
    let (classes, p1) = match read_str_vec(data, pos) {
        Some(x) => x,
        None => {
            return None;
        },
    };
    let (teachers, p2) = match read_str_vec(data, p1) {
        Some(x) => x,
        None => {
            return None;
        },
    };
    let (rooms, p3) = match read_str_vec(data, p2) {
        Some(x) => x,
        None => {
            return None;
        },
    };
    let (code, p4) = match read_code(data, p3) {
        Some(x) => x,
        None => {
            return None;
        },
    };
    let (description, p5) = match read_str(data, p4) {
        Some(x) => x,
        None => {
            return None;
        },
    };
    let (topic, p6) = match read_str(data, p5) {
        Some(x) => x,
        None => {
            return None;
        },
    };
    let (sub_text, p7) = match read_opt_str(data, p6) {
        Some(x) => x,
        None => {
            return None;
        },
    };
    let l = Lesson {
        classes: classes,
        teachers: teachers,
        rooms: rooms,
        lesson_code: code,
        description: description,
        topic: topic,
        sub_text: sub_text,
    };
    proof {
        assert(dec_lesson(data@, pos as int) matches Option::Some((lv, q)) && lv =~= l@ && q
            == p7 as int);
    }
    Some((l, p7))
}

/// `dec_lesson_elems` under an already-decoded prefix.
spec fn dec_lesson_cont(prefix: Seq<LessonView>, data: Seq<u8>, pos: int, count: int) -> Option<
    (Seq<LessonView>, int),
> {
    match dec_lesson_elems(data, pos, count) {
        Option::None => Option::None,
        Option::Some((ls, q)) => Option::Some((prefix + ls, q)),
    }
}

proof fn lemma_dec_lesson_cont_init(data: Seq<u8>, pos: int, count: int)
    ensures
        dec_lesson_cont(Seq::<LessonView>::empty(), data, pos, count) == dec_lesson_elems(
            data,
            pos,
            count,
        ),
{
    match dec_lesson_elems(data, pos, count) {
        Option::None => {},
        Option::Some((ls, q)) => {
            assert(Seq::<LessonView>::empty() + ls =~= ls);
        },
    }
}

proof fn lemma_dec_lesson_cont_step(
    prefix: Seq<LessonView>,
    data: Seq<u8>,
    pos: int,
    count: int,
    l: LessonView,
    p2: int,
)
    requires
        count > 0,
        dec_lesson(data, pos) == Option::Some((l, p2)),
    ensures
        dec_lesson_cont(prefix, data, pos, count) == dec_lesson_cont(
            prefix.push(l),
            data,
            p2,
            count - 1,
        ),
{
    match dec_lesson_elems(data, p2, count - 1) {
        Option::None => {},
        Option::Some((ls, q)) => {
            assert(dec_lesson_elems(data, pos, count) == Option::Some((seq![l] + ls, q)));
            assert(prefix + (seq![l] + ls) =~= prefix.push(l) + ls);
        },
    }
}

proof fn lemma_dec_lesson_cont_done(prefix: Seq<LessonView>, data: Seq<u8>, pos: int)
    ensures
        dec_lesson_cont(prefix, data, pos, 0) == Option::Some((prefix, pos)),
{
    assert(prefix + Seq::<LessonView>::empty() =~= prefix);
}

#[verifier::loop_isolation(false)]
fn read_snapshot(data: &[u8], pos: usize) -> (r: Option<(Snapshot, usize)>)
    ensures
        r is Some <==> dec_snapshot(data@, pos as int) is Some,
        r matches Some((s, p)) ==> dec_snapshot(data@, pos as int) == Option::Some(
            (s@, p as int),
        ),
{
    let (bits, p1) = match read_u64(data, pos) {
        Some(x) => x,
        None => {
            return None;
        },
    };
    let datetime = bits_i64(bits);
    let (n, p2) = match read_u64(data, p1) {
        Some(x) => x,
        None => {
            return None;
        },
    };
    let mut acc: Vec<Lesson> = Vec::new();
    let mut p = p2;
    let mut i: u64 = 0;
    proof {
        lemma_dec_lesson_cont_init(data@, p2 as int, n as int);
        assert(acc.deep_view() =~= Seq::<LessonView>::empty());
    }
    while i < n
        invariant
            i <= n,
            dec_lesson_elems(data@, p2 as int, n as int) == dec_lesson_cont(
                acc.deep_view(),
                data@,
                p as int,
                n as int - i as int,
            ),
        decreases n - i,
    {
        match read_lesson(data, p) {
            None => {
                return None;
            },
            Some((l, pnext)) => {
                proof {
                    lemma_dec_lesson_cont_step(
                        acc.deep_view(),
                        data@,
                        p as int,
                        n as int - i as int,
                        l@,
                        pnext as int,
                    );
                }
                let ghost pre = acc.deep_view();
                acc.push(l);
                proof {
                    assert(acc.deep_view() =~= pre.push(l@));
                }
                p = pnext;
                i = i + 1;
            },
        }
    }
    proof {
        lemma_dec_lesson_cont_done(acc.deep_view(), data@, p as int);
    }
    let s = Snapshot { datetime: datetime, lessons: acc };
    proof {
        assert(dec_snapshot(data@, pos as int) matches Option::Some((sv, q)) && sv =~= s@ && q
            == p as int);
    }
    Some((s, p))
}

/// `dec_snap_elems` under an already-decoded prefix.
spec fn dec_snap_cont(prefix: Seq<SnapshotView>, data: Seq<u8>, pos: int, count: int) -> Option<
    (Seq<SnapshotView>, int),
> {
    match dec_snap_elems(data, pos, count) {
        Option::None => Option::None,
        Option::Some((ss, q)) => Option::Some((prefix + ss, q)),
    }
}

proof fn lemma_dec_snap_cont_init(data: Seq<u8>, pos: int, count: int)
    ensures
        dec_snap_cont(Seq::<SnapshotView>::empty(), data, pos, count) == dec_snap_elems(
            data,
            pos,
            count,
        ),
{
    match dec_snap_elems(data, pos, count) {
        Option::None => {},
        Option::Some((ss, q)) => {
            assert(Seq::<SnapshotView>::empty() + ss =~= ss);
        },
    }
}

proof fn lemma_dec_snap_cont_step(
    prefix: Seq<SnapshotView>,
    data: Seq<u8>,
    pos: int,
    count: int,
    s: SnapshotView,
    p2: int,
)
    requires
        count > 0,
        dec_snapshot(data, pos) == Option::Some((s, p2)),
    ensures
        dec_snap_cont(prefix, data, pos, count) == dec_snap_cont(
            prefix.push(s),
            data,
            p2,
            count - 1,
        ),
{
    match dec_snap_elems(data, p2, count - 1) {
        Option::None => {},
        Option::Some((ss, q)) => {
            assert(dec_snap_elems(data, pos, count) == Option::Some((seq![s] + ss, q)));
            assert(prefix + (seq![s] + ss) =~= prefix.push(s) + ss);
        },
    }
}

proof fn lemma_dec_snap_cont_done(prefix: Seq<SnapshotView>, data: Seq<u8>, pos: int)
    ensures
        dec_snap_cont(prefix, data, pos, 0) == Option::Some((prefix, pos)),
{
    assert(prefix + Seq::<SnapshotView>::empty() =~= prefix);
}

impl ExportFile {
    /// Decodes a partition from its binary form. Succeeds exactly on the
    /// byte sequences the spec decoder accepts — a well-formed encoding with
    /// nothing trailing — and rejects everything else as a corrupt archive.
    #[verifier::loop_isolation(false)]
    pub fn deserialize(data: &[u8]) -> (r: Result<ExportFile, RunError>)
        ensures
            r is Ok <==> spec_deserialize(data@) is Some,
            r matches Ok(f) ==> spec_deserialize(data@) == Option::Some(f@),
            r matches Err(e) ==> e == RunError::ArchiveCorruptError,
    {
        let (bits, p1) = match read_u64(data, 0) {
            Some(x) => x,
            None => {
                return Err(RunError::ArchiveCorruptError);
            },
        };
        let date = bits_i64(bits);
        let (n, p2) = match read_u64(data, p1) {
            Some(x) => x,
            None => {
                return Err(RunError::ArchiveCorruptError);
            },
        };
        let mut acc: Vec<Snapshot> = Vec::new();
        let mut p = p2;
        let mut i: u64 = 0;
        proof {
            lemma_dec_snap_cont_init(data@, p2 as int, n as int);
            assert(acc.deep_view() =~= Seq::<SnapshotView>::empty());
        }
        while i < n
            invariant
                i <= n,
                dec_snap_elems(data@, p2 as int, n as int) == dec_snap_cont(
                    acc.deep_view(),
                    data@,
                    p as int,
                    n as int - i as int,
                ),
            decreases n - i,
        {
            match read_snapshot(data, p) {
                None => {
                    return Err(RunError::ArchiveCorruptError);
                },
                Some((s, pnext)) => {
                    proof {
                        lemma_dec_snap_cont_step(
                            acc.deep_view(),
                            data@,
                            p as int,
                            n as int - i as int,
                            s@,
                            pnext as int,
                        );
                    }
                    let ghost pre = acc.deep_view();
                    acc.push(s);
                    proof {
                        assert(acc.deep_view() =~= pre.push(s@));
                    }
                    p = pnext;
                    i = i + 1;
                },
            }
        }
        proof {
            lemma_dec_snap_cont_done(acc.deep_view(), data@, p as int);
        }
        if p != data.len() {
            return Err(RunError::ArchiveCorruptError);
        }
        let f = ExportFile { date: date, snapshots: acc };
        proof {
            assert(spec_deserialize(data@) matches Option::Some(fv) && fv =~= f@);
        }
        Ok(f)
    }
}

/// The archive round trip: decoding a partition's encoding gives back
/// exactly the partition — every snapshot, every lesson, every field, the
/// status tag and absent substitution texts included.
pub proof fn lemma_archive_round_trip(f: ExportFileView)
    requires
        export_fits(f),
    ensures
        spec_deserialize(spec_serialize(f)) == Option::Some(f),
{
    lemma_auto_spec_u64_to_from_le_bytes();
    let data = spec_serialize(f);
    let e3 = enc_snap_elems(f.snapshots);
    assert(data.len() == 16 + e3.len());
    assert(data.subrange(0, data.len() as int) =~= data);
    assert(data.subrange(0, 8) =~= enc_u64(i64_to_u64_bits(f.date)));
    assert(data.subrange(8, 16) =~= enc_u64(f.snapshots.len() as u64));
    assert(data.subrange(16, data.len() as int) =~= e3);
    lemma_rt_u64(data, 0, i64_to_u64_bits(f.date));
    lemma_rt_u64(data, 8, f.snapshots.len() as u64);
    lemma_rt_snap_elems(data, 16, f.snapshots);
    lemma_i64_bits_round_trip(f.date);
    assert(spec_deserialize(data) == Option::Some(f)) by {
        assert(f =~= (ExportFileView {
            date: u64_bits_to_i64(i64_to_u64_bits(f.date)),
            snapshots: f.snapshots,
        }));
    }
}

/// One load → append → save cycle is additive and order-preserving:
/// persisting a partition with one more snapshot and loading it back yields
/// exactly the old snapshots, in their old order, followed by the new one.
pub proof fn lemma_cycle_appends(f: ExportFileView, s: SnapshotView)
    requires
        export_fits(f),
        snapshot_fits(s),
        f.snapshots.len() + 1 <= u64::MAX,
    ensures
        spec_deserialize(
            spec_serialize(ExportFileView { date: f.date, snapshots: f.snapshots.push(s) }),
        ) == Option::Some(ExportFileView { date: f.date, snapshots: f.snapshots.push(s) }),
{
    let extended = ExportFileView { date: f.date, snapshots: f.snapshots.push(s) };
    assert forall|i: int| 0 <= i < extended.snapshots.len() implies snapshot_fits(
        #[trigger] extended.snapshots[i],
    ) by {
        if i < f.snapshots.len() {
            assert(extended.snapshots[i] == f.snapshots[i]);
        } else {
            assert(extended.snapshots[i] == s);
        }
    }
    lemma_archive_round_trip(extended);
}

} // verus!
