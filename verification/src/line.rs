use vstd::prelude::*;

use crate::bytes::{find_last, rfind_byte_before, subrange_vec};
use crate::canon::canonicalize_path;
use crate::db::{
    lemma_find_dir_props, lemma_merge_preserves_uniqueness, merge_entry, paths_unique, spec_merge,
    Db,
};
use crate::errors::ImportError;
use crate::num::{parse_i64, spec_parse_i64};
use crate::rank::{spec_parse_rank, Rank};

verus! {

/// The three fields of a record line, split from the right: the rightmost
/// `|`-separated token is the epoch, the next-rightmost the rank, and
/// everything before them (embedded `|` included) the path.
pub open spec fn spec_split3(line: Seq<u8>) -> Option<(Seq<u8>, Seq<u8>, Seq<u8>)> {
    match find_last(line, 124) {
        None => None,
        Some(i) => match find_last(line.take(i), 124) {
            None => None,
            Some(j) => Some((line.take(j), line.subrange(j + 1, i), line.skip(i + 1))),
        },
    }
}

/// Split a line into its path, rank and epoch fields, as `spec_split3`
/// describes; `None` where the line holds fewer than two `|`.
pub fn split3(line: &[u8]) -> (r: Option<(Vec<u8>, Vec<u8>, Vec<u8>)>)
    ensures
        match r {
            Some(t) => spec_split3(line@) == Some((t.0@, t.1@, t.2@)),
            None => spec_split3(line@) is None,
        },
{
    let len = line.len();
    proof {
        assert(line@.take(len as int) =~= line@);
    }
    let i = match rfind_byte_before(line, len, 124) {
        Some(i) => i,
        None => {
            return None;
        },
    };
    let j = match rfind_byte_before(line, i, 124) {
        Some(j) => j,
        None => {
            return None;
        },
    };
    let path = subrange_vec(line, 0, j);
    let rank = subrange_vec(line, j + 1, i);
    let epoch = subrange_vec(line, i + 1, len);
    proof {
        assert(line@.take(j as int) =~= line@.subrange(0, j as int));
        assert(line@.skip(i + 1) =~= line@.subrange(i + 1, len as int));
    }
    Some((path, rank, epoch))
}

/// A line that parsed: the raw path field and the two numeric fields.
pub struct ParsedLine {
    pub path: Vec<u8>,
    pub rank: Rank,
    pub epoch: i64,
}

/// Parse one record line. Field errors are reported in a fixed order: first
/// the split, then the epoch, then the rank.
pub fn parse_line(line: &[u8]) -> (r: Result<ParsedLine, ImportError>)
    ensures
        match spec_split3(line@) {
            None => r matches Err(ImportError::InvalidEntry),
            Some(t) => if spec_parse_i64(t.2) is None {
                r matches Err(ImportError::InvalidEpoch(x)) && x@ == t.2
            } else if spec_parse_rank(t.1) is None {
                r matches Err(ImportError::InvalidRank(x)) && x@ == t.1
            } else {
                r matches Ok(pl) && pl.path@ == t.0 && spec_parse_rank(t.1) == Some(
                    pl.rank.micros as int,
                ) && spec_parse_i64(t.2) == Some(pl.epoch as int)
            },
        },
{
    let (path, rank_field, epoch_field) = match split3(line) {
        Some(t) => t,
        None => {
            return Err(ImportError::InvalidEntry);
        },
    };
    let epoch = match parse_i64(epoch_field.as_slice()) {
        Some(v) => v,
        None => {
            return Err(ImportError::InvalidEpoch(epoch_field));
        },
    };
    let rank = match Rank::parse(rank_field.as_slice()) {
        Some(v) => v,
        None => {
            return Err(ImportError::InvalidRank(rank_field));
        },
    };
    Ok(ParsedLine { path, rank, epoch })
}

/// True iff `e` is the error that `line` earns: the parse error that the
/// text alone fixes, or, where the text parses, a failure to resolve its
/// path.
pub open spec fn line_failure_ok(line: Seq<u8>, e: ImportError) -> bool {
    match spec_split3(line) {
        None => e matches ImportError::InvalidEntry,
        Some(t) => if spec_parse_i64(t.2) is None {
            e matches ImportError::InvalidEpoch(x) && x@ == t.2
        } else if spec_parse_rank(t.1) is None {
            e matches ImportError::InvalidRank(x) && x@ == t.1
        } else {
            e matches ImportError::UnresolvablePath(x) && x@ == t.0
        },
    }
}

/// True iff the text alone dooms `line`: it cannot split into three fields,
/// or a numeric field is bad. Whether a line that parses imports still
/// depends on resolving its path.
pub open spec fn line_must_fail(line: Seq<u8>) -> bool {
    match spec_split3(line) {
        None => true,
        Some(t) => spec_parse_i64(t.2) is None || spec_parse_rank(t.1) is None,
    }
}

/// Parse one line and merge it into the database. A failed line leaves the
/// database untouched; a successful one merges the parsed rank and epoch
/// under the canonical key the resolver returned, which only the filesystem
/// fixes. The modified flag is never touched here.
pub fn import_line(db: &mut Db, line: &[u8]) -> (r: Result<(), ImportError>)
    ensures
        final(db).modified == old(db).modified,
        paths_unique(old(db).dirs@) ==> paths_unique(final(db).dirs@),
        old(db).dirs@.len() <= final(db).dirs@.len() <= old(db).dirs@.len() + 1,
        match r {
            Err(e) => line_failure_ok(line@, e) && final(db).dirs@ == old(db).dirs@,
            Ok(u) => ({
                &&& !line_must_fail(line@)
                &&& spec_split3(line@) matches Some(t)
                &&& spec_parse_i64(t.2) matches Some(ev)
                &&& spec_parse_rank(t.1) matches Some(rv)
                &&& exists|key: Vec<u8>|
                    final(db).dirs@ == #[trigger] spec_merge(
                        old(db).dirs@,
                        key,
                        (Rank { micros: rv as i64 }),
                        ev as i64,
                    )
            }),
        },
{
    let parsed = match parse_line(line) {
        Ok(p) => p,
        Err(e) => {
            return Err(e);
        },
    };
    let key = match canonicalize_path(parsed.path.as_slice()) {
        Some(k) => k,
        None => {
            return Err(ImportError::UnresolvablePath(parsed.path));
        },
    };
    let ghost gkey = key;
    merge_entry(db, key, parsed.rank, parsed.epoch);
    proof {
        assert(db.dirs@ == spec_merge(old(db).dirs@, gkey, parsed.rank, parsed.epoch));
        lemma_find_dir_props(old(db).dirs@, gkey@);
        if paths_unique(old(db).dirs@) {
            lemma_merge_preserves_uniqueness(old(db).dirs@, gkey, parsed.rank, parsed.epoch);
        }
        match spec_split3(line@) {
            Some(t) => {
                match (spec_parse_i64(t.2), spec_parse_rank(t.1)) {
                    (Some(ev), Some(rv)) => {
                        assert(parsed.rank == (Rank { micros: rv as i64 }));
                        assert(parsed.epoch == ev as i64);
                        assert(db.dirs@ == spec_merge(
                            old(db).dirs@,
                            gkey,
                            (Rank { micros: rv as i64 }),
                            ev as i64,
                        ));
                    },
                    _ => {
                        assert(false);
                    },
                }
            },
            None => {
                assert(false);
            },
        }
    }
    Ok(())
}

} // verus!
