use vstd::prelude::*;

use crate::bytes::bytes_eq;
use crate::rank::{clip_i64, Rank};

verus! {

/// One directory record: a canonical path (the unique key), its accumulated
/// rank, and the Unix epoch of its most recent visit.
#[derive(Debug)]
pub struct Dir {
    pub path: Vec<u8>,
    pub rank: Rank,
    pub last_accessed: i64,
}

/// The destination database: a collection of directory records plus a flag
/// that tells the persistence layer whether anything needs writing out.
#[derive(Debug)]
pub struct Db {
    pub dirs: Vec<Dir>,
    pub modified: bool,
}

/// The index of the first record in `dirs` whose path is `key`, if any.
pub open spec fn find_dir(dirs: Seq<Dir>, key: Seq<u8>) -> Option<int>
    decreases dirs.len(),
{
    if dirs.len() == 0 {
        None
    } else if dirs[0].path@ == key {
        Some(0)
    } else {
        match find_dir(dirs.skip(1), key) {
            Some(i) => Some(i + 1),
            None => None,
        }
    }
}

pub proof fn lemma_find_dir_at(dirs: Seq<Dir>, key: Seq<u8>, i: int)
    requires
        0 <= i < dirs.len(),
        dirs[i].path@ == key,
        forall|j: int| 0 <= j < i ==> dirs[j].path@ != key,
    ensures
        find_dir(dirs, key) == Some(i),
    decreases i,
{
    if i == 0 {
    } else {
        lemma_find_dir_at(dirs.skip(1), key, i - 1);
    }
}

pub proof fn lemma_find_dir_none(dirs: Seq<Dir>, key: Seq<u8>)
    requires
        forall|j: int| 0 <= j < dirs.len() ==> dirs[j].path@ != key,
    ensures
        find_dir(dirs, key) is None,
    decreases dirs.len(),
{
    if dirs.len() > 0 {
        lemma_find_dir_none(dirs.skip(1), key);
    }
}

pub proof fn lemma_find_dir_props(dirs: Seq<Dir>, key: Seq<u8>)
    ensures
        match find_dir(dirs, key) {
            Some(i) => 0 <= i < dirs.len() && dirs[i].path@ == key && forall|j: int|
                0 <= j < i ==> dirs[j].path@ != key,
            None => forall|j: int| 0 <= j < dirs.len() ==> dirs[j].path@ != key,
        },
    decreases dirs.len(),
{
    if dirs.len() > 0 {
        lemma_find_dir_props(dirs.skip(1), key);
        assert(forall|j: int|
            1 <= j < dirs.len() ==> dirs[j].path@ == dirs.skip(1)[j - 1].path@);
    }
}

/// `d` after merging one incoming entry: the ranks add (saturating at the
/// representable bounds) and the larger epoch wins.
pub open spec fn merged_dir(d: Dir, rank: Rank, epoch: i64) -> Dir {
    (Dir {
        path: d.path,
        rank: (Rank { micros: clip_i64(d.rank.micros + rank.micros) as i64 }),
        last_accessed: if epoch > d.last_accessed {
            epoch
        } else {
            d.last_accessed
        },
    })
}

/// The record list after merging one entry under canonical path `key`: an
/// existing record with that path absorbs it, otherwise a fresh record takes
/// the incoming values verbatim.
pub open spec fn spec_merge(dirs: Seq<Dir>, key: Vec<u8>, rank: Rank, epoch: i64) -> Seq<Dir> {
    match find_dir(dirs, key@) {
        Some(i) => dirs.update(i, merged_dir(dirs[i], rank, epoch)),
        None => dirs.push(Dir { path: key, rank, last_accessed: epoch }),
    }
}

/// Merge one parsed entry into the database under canonical path `key`,
/// exactly as `spec_merge` describes. The modified flag is not touched.
pub fn merge_entry(db: &mut Db, key: Vec<u8>, rank: Rank, epoch: i64)
    ensures
        final(db).dirs@ == spec_merge(old(db).dirs@, key, rank, epoch),
        final(db).modified == old(db).modified,
{
    let n = db.dirs.len();
    let mut i: usize = 0;
    while i < n
        invariant
            n == db.dirs@.len(),
            i <= n,
            db.dirs@ == old(db).dirs@,
            db.modified == old(db).modified,
            forall|j: int| 0 <= j < i ==> db.dirs@[j].path@ != key@,
        decreases n - i,
    {
        if bytes_eq(db.dirs[i].path.as_slice(), key.as_slice()) {
            proof {
                lemma_find_dir_at(db.dirs@, key@, i as int);
            }
            let d = db.dirs.remove(i);
            let merged = Dir {
                path: d.path,
                rank: d.rank.add(rank),
                last_accessed: if epoch > d.last_accessed {
                    epoch
                } else {
                    d.last_accessed
                },
            };
            db.dirs.insert(i, merged);
            proof {
                assert(db.dirs@ =~= old(db).dirs@.update(i as int, merged));
            }
            return ;
        }
        i = i + 1;
    }
    proof {
        lemma_find_dir_none(db.dirs@, key@);
    }
    db.dirs.push(Dir { path: key, rank, last_accessed: epoch });
}

/// True iff no two records share a path.
pub open spec fn paths_unique(dirs: Seq<Dir>) -> bool {
    forall|i: int, j: int| 0 <= i < j < dirs.len() ==> dirs[i].path@ != dirs[j].path@
}

/// The merge step enforces path uniqueness: it never inserts a record whose
/// path the database already holds, so a database without duplicate paths
/// stays without them.
pub proof fn lemma_merge_preserves_uniqueness(dirs: Seq<Dir>, key: Vec<u8>, rank: Rank, epoch: i64)
    requires
        paths_unique(dirs),
    ensures
        paths_unique(spec_merge(dirs, key, rank, epoch)),
{
    lemma_find_dir_props(dirs, key@);
    let m = spec_merge(dirs, key, rank, epoch);
    match find_dir(dirs, key@) {
        Some(i) => {
            assert(forall|a: int| 0 <= a < m.len() ==> m[a].path@ == dirs[a].path@);
        },
        None => {
            assert(forall|a: int| 0 <= a < dirs.len() ==> m[a] == dirs[a]);
            assert(m[dirs.len() as int].path@ == key@);
        },
    }
}

/// A merge never moves a record's last access time backward, and, for a
/// non-negative incoming rank, never decreases a rank; paths are untouched.
pub proof fn lemma_merge_monotone(dirs: Seq<Dir>, key: Vec<u8>, rank: Rank, epoch: i64)
    requires
        rank.micros >= 0,
    ensures
        ({
            let m = spec_merge(dirs, key, rank, epoch);
            forall|j: int|
                0 <= j < dirs.len() ==> #[trigger] m[j].last_accessed >= dirs[j].last_accessed
                    && m[j].rank.micros >= dirs[j].rank.micros && m[j].path@ == dirs[j].path@
        }),
{
    lemma_find_dir_props(dirs, key@);
}

/// Two imported entries that share a canonical path new to the database
/// leave exactly one record for it: their ranks add and the larger of the
/// two epochs wins, whatever order the two carry them in.
pub proof fn lemma_merge_twice(
    dirs: Seq<Dir>,
    key1: Vec<u8>,
    key2: Vec<u8>,
    r1: Rank,
    r2: Rank,
    e1: i64,
    e2: i64,
)
    requires
        key1@ == key2@,
        find_dir(dirs, key1@) is None,
    ensures
        ({
            let m2 = spec_merge(spec_merge(dirs, key1, r1, e1), key2, r2, e2);
            m2.len() == dirs.len() + 1 && m2[dirs.len() as int].path@ == key1@
                && m2[dirs.len() as int].rank.micros == clip_i64(r1.micros + r2.micros)
                && m2[dirs.len() as int].last_accessed == (if e2 > e1 {
                e2
            } else {
                e1
            })
        }),
{
    lemma_find_dir_props(dirs, key1@);
    let m1 = spec_merge(dirs, key1, r1, e1);
    assert(m1[dirs.len() as int].path@ == key2@);
    lemma_find_dir_at(m1, key2@, dirs.len() as int);
}

} // verus!
