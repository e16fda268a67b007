//! The partition lifecycle of the archive store.
//!
//! A partition holds one local calendar day. Its location under the archive
//! base directory is `<base>/<year>/<month>/<day>.bin`; the caller reads and
//! writes the file and creates missing directories, and hands this module
//! the bytes. Loading either decodes an existing partition — rejecting a
//! malformed one as corrupt rather than silently starting over — or creates
//! a fresh, empty one dated now. The location is computed from the calendar
//! date at call time, both on load and on save; a run is expected to load
//! and save within the same logical day.

use vstd::prelude::*;

use crate::codec::spec_deserialize;
use crate::errors::RunError;
use crate::model::{ExportFile, SnapshotView};

verus! {

/// The decimal digit for a value below ten.
pub open spec fn digit_char(d: nat) -> char
    recommends
        d < 10,
{
    if d == 0 {
        '0'
    } else if d == 1 {
        '1'
    } else if d == 2 {
        '2'
    } else if d == 3 {
        '3'
    } else if d == 4 {
        '4'
    } else if d == 5 {
        '5'
    } else if d == 6 {
        '6'
    } else if d == 7 {
        '7'
    } else if d == 8 {
        '8'
    } else {
        '9'
    }
}

/// Decimal rendering of a number, most significant digit first, without
/// leading zeroes.
pub open spec fn dec_digits(n: nat) -> Seq<char>
    decreases n,
{
    if n < 10 {
        seq![digit_char(n)]
    } else {
        dec_digits(n / 10).push(digit_char(n % 10))
    }
}

fn append_digit(out: &mut String, d: u32)
    requires
        d < 10,
    ensures
        final(out)@ == old(out)@ + seq![digit_char(d as nat)],
{
    if d == 0 {
        out.append("0");
        proof {
            reveal_strlit("0");
            assert(out@ =~= old(out)@ + seq![digit_char(d as nat)]);
        }
    } else if d == 1 {
        out.append("1");
        proof {
            reveal_strlit("1");
            assert(out@ =~= old(out)@ + seq![digit_char(d as nat)]);
        }
    } else if d == 2 {
        out.append("2");
        proof {
            reveal_strlit("2");
            assert(out@ =~= old(out)@ + seq![digit_char(d as nat)]);
        }
    } else if d == 3 {
        out.append("3");
        proof {
            reveal_strlit("3");
            assert(out@ =~= old(out)@ + seq![digit_char(d as nat)]);
        }
    } else if d == 4 {
        out.append("4");
        proof {
            reveal_strlit("4");
            assert(out@ =~= old(out)@ + seq![digit_char(d as nat)]);
        }
    } else if d == 5 {
        out.append("5");
        proof {
            reveal_strlit("5");
            assert(out@ =~= old(out)@ + seq![digit_char(d as nat)]);
        }
    } else if d == 6 {
        out.append("6");
        proof {
            reveal_strlit("6");
            assert(out@ =~= old(out)@ + seq![digit_char(d as nat)]);
        }
    } else if d == 7 {
        out.append("7");
        proof {
            reveal_strlit("7");
            assert(out@ =~= old(out)@ + seq![digit_char(d as nat)]);
        }
    } else if d == 8 {
        out.append("8");
        proof {
            reveal_strlit("8");
            assert(out@ =~= old(out)@ + seq![digit_char(d as nat)]);
        }
    } else {
        out.append("9");
        proof {
            reveal_strlit("9");
            assert(out@ =~= old(out)@ + seq![digit_char(d as nat)]);
        }
    }
}

/// Appends the decimal rendering of `n`.
fn append_decimal(out: &mut String, n: u32)
    ensures
        final(out)@ == old(out)@ + dec_digits(n as nat),
    decreases n,
{
    if n >= 10 {
        append_decimal(out, n / 10);
    }
    append_digit(out, n % 10);
    proof {
        if n < 10 {
            assert(out@ =~= old(out)@ + dec_digits(n as nat));
        } else {
            assert(dec_digits(n as nat) =~= dec_digits(n as nat / 10).push(
                digit_char(n as nat % 10),
            ));
            assert(out@ =~= old(out)@ + dec_digits(n as nat));
        }
    }
}

/// The directory that holds a day's partition: `<base>/<year>/<month>`.
pub open spec fn partition_dir_spec(base: Seq<char>, year: u32, month: u32) -> Seq<char> {
    base + "/"@ + dec_digits(year as nat) + "/"@ + dec_digits(month as nat)
}

/// The partition file itself: `<base>/<year>/<month>/<day>.bin`.
pub open spec fn partition_path_spec(base: Seq<char>, year: u32, month: u32, day: u32) -> Seq<
    char,
> {
    partition_dir_spec(base, year, month) + "/"@ + dec_digits(day as nat) + ".bin"@
}

/// The directory the partition for this calendar day lives in; the caller
/// creates it (with its parents) when it does not exist yet.
pub fn partition_dir(base: &str, year: u32, month: u32) -> (r: String)
    ensures
        r@ == partition_dir_spec(base@, year, month),
{
    let mut out = String::new();
    out.append(base);
    out.append("/");
    append_decimal(&mut out, year);
    out.append("/");
    append_decimal(&mut out, month);
    proof {
        assert(out@ =~= partition_dir_spec(base@, year, month));
    }
    out
}

/// Where the partition for this calendar day lives.
pub fn partition_path(base: &str, year: u32, month: u32, day: u32) -> (r: String)
    ensures
        r@ == partition_path_spec(base@, year, month, day),
{
    let mut out = partition_dir(base, year, month);
    out.append("/");
    append_decimal(&mut out, day);
    out.append(".bin");
    proof {
        assert(out@ =~= partition_path_spec(base@, year, month, day));
    }
    out
}

impl ExportFile {
    /// The load half of the partition lifecycle, over the partition file's
    /// bytes: decodes them when the file exists, and otherwise creates a
    /// fresh partition dated `now` with no snapshots. A present but
    /// malformed file is a corrupt archive and an error — never silently
    /// replaced by an empty partition.
    pub fn load_or_create(contents: Option<&Vec<u8>>, now: i64) -> (r: Result<
        ExportFile,
        RunError,
    >)
        ensures
            contents is None ==> (r matches Ok(f) && f@.date == now as int && f@.snapshots
                == Seq::<SnapshotView>::empty()),
            contents matches Some(data) ==> (r is Ok <==> spec_deserialize(data@) is Some),
            contents matches Some(data) ==> (r matches Ok(f) ==> spec_deserialize(data@)
                == Option::Some(f@)),
            r matches Err(e) ==> e == RunError::ArchiveCorruptError,
    {
        match contents {
            Option::None => Ok(ExportFile::new(now)),
            Option::Some(data) => ExportFile::deserialize(data.as_slice()),
        }
    }
}

} // verus!
