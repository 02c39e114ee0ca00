use vstd::prelude::*;
use vstd::slice::slice_index_get;

use crate::bytes::{find_byte_from, find_first, lemma_find_first_props, subrange_vec};
use crate::db::{paths_unique, Db};
use crate::errors::ImportError;
use crate::line::{import_line, line_failure_ok, line_must_fail};

verus! {

/// `s` without one trailing carriage return, if it has one.
pub open spec fn chomp_cr(s: Seq<u8>) -> Seq<u8> {
    if s.len() > 0 && s.last() == 13 {
        s.drop_last()
    } else {
        s
    }
}

/// The lines of `s`: the pieces between line feeds, each without one
/// carriage return before its line feed; a final line feed closes the last
/// line rather than opening an empty one.
pub open spec fn spec_lines(s: Seq<u8>) -> Seq<Seq<u8>>
    decreases s.len(),
    via spec_lines_decreases
{
    if s.len() == 0 {
        Seq::empty()
    } else {
        match find_first(s, 10) {
            Some(i) => seq![chomp_cr(s.take(i))] + spec_lines(s.skip(i + 1)),
            None => seq![s],
        }
    }
}

#[via_fn]
proof fn spec_lines_decreases(s: Seq<u8>) {
    lemma_find_first_props(s, 10);
}

/// Split text into its lines, as `spec_lines` describes.
pub fn split_lines(contents: &[u8]) -> (lines: Vec<Vec<u8>>)
    ensures
        lines@.map_values(|l: Vec<u8>| l@) == spec_lines(contents@),
{
    let len = contents.len();
    let mut lines: Vec<Vec<u8>> = Vec::new();
    let mut pos: usize = 0;
    proof {
        assert(contents@.skip(0) =~= contents@);
        assert(lines@.map_values(|l: Vec<u8>| l@) + spec_lines(contents@) =~= spec_lines(
            contents@,
        ));
    }
    while pos < len
        invariant
            pos <= len,
            len == contents@.len(),
            spec_lines(contents@) == lines@.map_values(|l: Vec<u8>| l@) + spec_lines(
                contents@.skip(pos as int),
            ),
        decreases len - pos,
    {
        let ghost rest = contents@.skip(pos as int);
        let ghost done = lines@.map_values(|l: Vec<u8>| l@);
        proof {
            lemma_find_first_props(rest, 10);
        }
        match find_byte_from(contents, pos, 10) {
            Some(i) => {
                let line_end = if i > pos && *slice_index_get(contents, i - 1) == 13 {
                    i - 1
                } else {
                    i
                };
                let piece = subrange_vec(contents, pos, line_end);
                proof {
                    assert(rest.take(i - pos) =~= contents@.subrange(pos as int, i as int));
                    assert(chomp_cr(rest.take(i - pos)) =~= piece@);
                    assert(rest.skip(i - pos + 1) =~= contents@.skip(i + 1));
                    assert(spec_lines(rest) == seq![chomp_cr(rest.take(i - pos))] + spec_lines(
                        rest.skip(i - pos + 1),
                    ));
                }
                lines.push(piece);
                proof {
                    assert(lines@.map_values(|l: Vec<u8>| l@) =~= done.push(piece@));
                    assert(done.push(piece@) + spec_lines(contents@.skip(i + 1)) =~= done + (
                    seq![piece@] + spec_lines(contents@.skip(i + 1))));
                }
                pos = i + 1;
            },
            None => {
                let piece = subrange_vec(contents, pos, len);
                proof {
                    assert(piece@ =~= rest);
                    assert(spec_lines(rest) == seq![rest]);
                }
                lines.push(piece);
                proof {
                    assert(lines@.map_values(|l: Vec<u8>| l@) =~= done.push(piece@));
                    assert(contents@.skip(len as int) =~= Seq::<u8>::empty());
                    assert(done.push(piece@) + spec_lines(contents@.skip(len as int)) =~= done
                        + seq![rest]);
                }
                pos = len;
            },
        }
    }
    proof {
        assert(contents@.skip(len as int) =~= Seq::<u8>::empty());
        assert(lines@.map_values(|l: Vec<u8>| l@) + spec_lines(contents@.skip(len as int)) =~= lines@.map_values(
            |l: Vec<u8>| l@,
        ));
    }
    lines
}

/// True iff `fs` reports the failing lines of `lines` soundly: each entry
/// pairs a 1-based line number with the error that line earns, the numbers
/// strictly increase, and every line that the text alone dooms is reported.
pub open spec fn failures_ok(lines: Seq<Seq<u8>>, fs: Seq<(usize, ImportError)>) -> bool {
    &&& forall|k: int|
        #![trigger fs[k]]
        0 <= k < fs.len() ==> 1 <= fs[k].0 <= lines.len() && line_failure_ok(
            lines[fs[k].0 - 1],
            fs[k].1,
        )
    &&& forall|k1: int, k2: int|
        #![trigger fs[k1], fs[k2]]
        0 <= k1 < k2 < fs.len() ==> fs[k1].0 < fs[k2].0
    &&& forall|i: int|
        0 <= i < lines.len() && line_must_fail(#[trigger] lines[i]) ==> exists|k: int|
            0 <= k < fs.len() && (#[trigger] fs[k]).0 == i + 1
}

/// Import every line of `contents` into the database, skipping the lines
/// that fail and reporting them with their 1-based line numbers, in order.
/// The database is marked modified even when every line failed — and when
/// every line failed, marking it is all that happened.
pub fn import_contents(db: &mut Db, contents: &[u8]) -> (failures: Vec<(usize, ImportError)>)
    ensures
        final(db).modified,
        failures_ok(spec_lines(contents@), failures@),
        failures@.len() <= spec_lines(contents@).len(),
        failures@.len() == spec_lines(contents@).len() ==> final(db).dirs@ == old(db).dirs@,
        paths_unique(old(db).dirs@) ==> paths_unique(final(db).dirs@),
        final(db).dirs@.len() >= old(db).dirs@.len(),
{
    let lines = split_lines(contents);
    let ghost ls = spec_lines(contents@);
    let mut failures: Vec<(usize, ImportError)> = Vec::new();
    let mut idx: usize = 0;
    while idx < lines.len()
        invariant
            idx <= lines@.len(),
            lines@.map_values(|l: Vec<u8>| l@) == ls,
            forall|k: int|
                #![trigger failures@[k]]
                0 <= k < failures@.len() ==> 1 <= failures@[k].0 <= idx && line_failure_ok(
                    ls[failures@[k].0 - 1],
                    failures@[k].1,
                ),
            forall|k1: int, k2: int|
                #![trigger failures@[k1], failures@[k2]]
                0 <= k1 < k2 < failures@.len() ==> failures@[k1].0 < failures@[k2].0,
            forall|i: int|
                0 <= i < idx && line_must_fail(#[trigger] ls[i]) ==> exists|k: int|
                    0 <= k < failures@.len() && (#[trigger] failures@[k]).0 == i + 1,
            failures@.len() <= idx,
            failures@.len() == idx ==> db.dirs@ == old(db).dirs@,
            paths_unique(old(db).dirs@) ==> paths_unique(db.dirs@),
            db.dirs@.len() >= old(db).dirs@.len(),
            db.modified == old(db).modified,
        decreases lines@.len() - idx,
    {
        let line: &Vec<u8> = &lines[idx];
        proof {
            assert(line@ == ls[idx as int]);
        }
        match import_line(db, line.as_slice()) {
            Ok(_) => {
                proof {
                    assert(!line_must_fail(ls[idx as int]));
                }
            },
            Err(e) => {
                let ghost fs0 = failures@;
                failures.push((idx + 1, e));
                proof {
                    assert(failures@ == fs0.push((((idx + 1) as usize), e)));
                    assert forall|i: int|
                        0 <= i < idx + 1 && line_must_fail(#[trigger] ls[i]) implies exists|k: int|
                        0 <= k < failures@.len() && (#[trigger] failures@[k]).0 == i + 1 by {
                        if i < idx {
                            let k = choose|k: int| 0 <= k < fs0.len() && (#[trigger] fs0[k]).0 == i
                                + 1;
                            assert(failures@[k].0 == i + 1);
                        } else {
                            assert(failures@[fs0.len() as int].0 == idx + 1);
                        }
                    }
                }
            },
        }
        idx = idx + 1;
    }
    db.modified = true;
    failures
}

/// The import command: the path of the legacy database text to read, and
/// whether merging into a non-empty destination was requested.
pub struct Import {
    pub path: String,
    pub merge: bool,
}

impl Import {
    /// The safety rail against accidental data loss: importing into a
    /// non-empty destination database requires explicit opt-in to merge.
    pub fn check_conflict(&self, db: &Db) -> (r: Result<(), ImportError>)
        ensures
            r matches Err(e) ==> e == ImportError::ConflictingState,
            r is Err <==> db.dirs@.len() > 0 && !self.merge,
    {
        if db.dirs.len() > 0 && !self.merge {
            Err(ImportError::ConflictingState)
        } else {
            Ok(())
        }
    }

    /// Run the import. `source` is the outcome of reading the source file,
    /// which the caller performs; the conflict guard is checked before the
    /// reading outcome is looked at, so a conflict wins over a read failure
    /// and leaves the database untouched. On success the per-line failures
    /// are returned for diagnostics and the database is marked modified,
    /// however many lines were skipped.
    pub fn run(&self, db: &mut Db, source: Result<Vec<u8>, String>) -> (r: Result<
        Vec<(usize, ImportError)>,
        ImportError,
    >)
        ensures
            old(db).dirs@.len() > 0 && !self.merge ==> ({
                &&& r matches Err(e)
                &&& e == ImportError::ConflictingState
                &&& *final(db) == *old(db)
            }),
            !(old(db).dirs@.len() > 0 && !self.merge) ==> match source {
                Err(m) => ({
                    &&& r matches Err(e)
                    &&& e == ImportError::IoError(m)
                    &&& *final(db) == *old(db)
                }),
                Ok(c) => ({
                    &&& final(db).modified
                    &&& r matches Ok(fs)
                    &&& failures_ok(spec_lines(c@), fs@)
                    &&& fs@.len() <= spec_lines(c@).len()
                    &&& fs@.len() == spec_lines(c@).len() ==> final(db).dirs@ == old(db).dirs@
                    &&& paths_unique(old(db).dirs@) ==> paths_unique(final(db).dirs@)
                    &&& final(db).dirs@.len() >= old(db).dirs@.len()
                }),
            },
    {
        match self.check_conflict(db) {
            Err(e) => {
                return Err(e);
            },
            Ok(_) => {},
        }
        let contents = match source {
            Ok(c) => c,
            Err(m) => {
                return Err(ImportError::IoError(m));
            },
        };
        let failures = import_contents(db, contents.as_slice());
        Ok(failures)
    }
}

} // verus!
