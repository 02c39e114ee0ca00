use zimport::{Db, Dir, Import, ImportError, Rank};

fn empty_db() -> Db {
    Db { dirs: Vec::new(), modified: false }
}

fn import_all(db: &mut Db, text: &[u8], merge: bool) -> Vec<(usize, ImportError)> {
    let import = Import { path: String::from("test.db"), merge };
    import.run(db, Ok(text.to_vec())).expect("run should succeed")
}

#[test]
fn conflict_on_nonempty_destination_without_merge() {
    let mut db = Db {
        dirs: vec![Dir { path: b"/x".to_vec(), rank: Rank { micros: 1 }, last_accessed: 7 }],
        modified: false,
    };
    let import = Import { path: String::from("test.db"), merge: false };
    let r = import.run(&mut db, Ok(b"/|1.0|1000".to_vec()));
    assert!(matches!(r, Err(ImportError::ConflictingState)));
    assert_eq!(db.dirs.len(), 1);
    assert_eq!(db.dirs[0].path, b"/x".to_vec());
    assert_eq!(db.dirs[0].rank, Rank { micros: 1 });
    assert_eq!(db.dirs[0].last_accessed, 7);
    assert!(!db.modified);
}

#[test]
fn merge_flag_allows_nonempty_destination() {
    let mut db = Db {
        dirs: vec![Dir { path: b"/".to_vec(), rank: Rank { micros: 500_000 }, last_accessed: 7 }],
        modified: false,
    };
    let failures = import_all(&mut db, b"/|1.0|1000", true);
    assert!(failures.is_empty());
    assert_eq!(db.dirs.len(), 1);
    assert_eq!(db.dirs[0].rank, Rank { micros: 1_500_000 });
    assert_eq!(db.dirs[0].last_accessed, 1000);
    assert!(db.modified);
}

#[test]
fn conflict_wins_over_read_failure() {
    let mut db = Db {
        dirs: vec![Dir { path: b"/x".to_vec(), rank: Rank { micros: 1 }, last_accessed: 7 }],
        modified: false,
    };
    let import = Import { path: String::from("test.db"), merge: false };
    let r = import.run(&mut db, Err(String::from("no such file")));
    assert!(matches!(r, Err(ImportError::ConflictingState)));
}

#[test]
fn read_failure_is_fatal() {
    let mut db = empty_db();
    let import = Import { path: String::from("test.db"), merge: false };
    let r = import.run(&mut db, Err(String::from("no such file")));
    match r {
        Err(ImportError::IoError(m)) => assert_eq!(m, "no such file"),
        other => panic!("expected IoError, got {:?}", other),
    }
    assert!(!db.modified);
}

#[test]
fn single_line_parses_and_merges() {
    // The parse of "/a/b|1.5|1000", checked without the filesystem's help,
    // then merged under its canonical key.
    let parsed = zimport::parse_line(b"/a/b|1.5|1000").expect("line should parse");
    assert_eq!(parsed.path, b"/a/b".to_vec());
    assert_eq!(parsed.rank, Rank { micros: 1_500_000 });
    assert_eq!(parsed.epoch, 1000);

    let mut db = empty_db();
    zimport::merge_entry(&mut db, parsed.path.clone(), parsed.rank, parsed.epoch);
    assert_eq!(db.dirs.len(), 1);
    assert_eq!(db.dirs[0].path, b"/a/b".to_vec());
    assert_eq!(db.dirs[0].rank, Rank { micros: 1_500_000 });
    assert_eq!(db.dirs[0].last_accessed, 1000);
}

#[test]
fn single_line_imports_through_resolver() {
    // "/" exists everywhere and resolves to itself.
    let mut db = empty_db();
    let failures = import_all(&mut db, b"/|1.5|1000", true);
    assert!(failures.is_empty());
    assert_eq!(db.dirs.len(), 1);
    assert_eq!(db.dirs[0].path, b"/".to_vec());
    assert_eq!(db.dirs[0].rank, Rank { micros: 1_500_000 });
    assert_eq!(db.dirs[0].last_accessed, 1000);
    assert!(db.modified);
}

#[test]
fn merging_same_path_sums_ranks_and_keeps_latest_epoch() {
    let mut db = empty_db();
    let failures = import_all(&mut db, b"/|1.0|500\n/|2.0|1000", true);
    assert!(failures.is_empty());
    assert_eq!(db.dirs.len(), 1);
    assert_eq!(db.dirs[0].path, b"/".to_vec());
    assert_eq!(db.dirs[0].rank, Rank { micros: 3_000_000 });
    assert_eq!(db.dirs[0].last_accessed, 1000);
}

#[test]
fn merging_smaller_epoch_keeps_maximum() {
    let mut db = empty_db();
    let failures = import_all(&mut db, b"/|1.0|1000\n/|2.0|500", true);
    assert!(failures.is_empty());
    assert_eq!(db.dirs.len(), 1);
    assert_eq!(db.dirs[0].rank, Rank { micros: 3_000_000 });
    assert_eq!(db.dirs[0].last_accessed, 1000);
}

#[test]
fn two_field_line_is_invalid_entry_and_skipped() {
    let mut db = empty_db();
    let failures = import_all(&mut db, b"onlytwo|fields\n/|1.5|1000", true);
    assert_eq!(failures.len(), 1);
    assert_eq!(failures[0], (1, ImportError::InvalidEntry));
    // The bad line affects nothing else: the next line still imports.
    assert_eq!(db.dirs.len(), 1);
    assert_eq!(db.dirs[0].path, b"/".to_vec());
    assert!(db.modified);
}

#[test]
fn non_numeric_rank_is_invalid_rank_and_skipped() {
    let mut db = empty_db();
    let failures = import_all(&mut db, b"/a/b|notanumber|1000\n/|2.0|1000", true);
    assert_eq!(failures.len(), 1);
    assert_eq!(failures[0], (1, ImportError::InvalidRank(b"notanumber".to_vec())));
    assert_eq!(db.dirs.len(), 1);
    assert_eq!(db.dirs[0].path, b"/".to_vec());
    assert_eq!(db.dirs[0].rank, Rank { micros: 2_000_000 });
}

#[test]
fn non_numeric_epoch_is_invalid_epoch() {
    let mut db = empty_db();
    let failures = import_all(&mut db, b"/|1.0|abc", true);
    assert_eq!(failures.len(), 1);
    assert_eq!(failures[0], (1, ImportError::InvalidEpoch(b"abc".to_vec())));
    assert_eq!(db.dirs.len(), 0);
}

#[test]
fn embedded_pipes_stay_in_the_path() {
    let parsed = zimport::parse_line(b"/weird|path/x|1.0|1000").expect("line should parse");
    assert_eq!(parsed.path, b"/weird|path/x".to_vec());
    assert_eq!(parsed.rank, Rank { micros: 1_000_000 });
    assert_eq!(parsed.epoch, 1000);
}

#[test]
fn unresolvable_path_is_reported_with_the_raw_field() {
    let mut db = empty_db();
    let failures = import_all(&mut db, b"/no/such/path/anywhere/at/all|1.0|1000", true);
    assert_eq!(failures.len(), 1);
    assert_eq!(
        failures[0],
        (1, ImportError::UnresolvablePath(b"/no/such/path/anywhere/at/all".to_vec()))
    );
    assert_eq!(db.dirs.len(), 0);
}

#[test]
fn modified_is_set_even_when_every_line_fails() {
    let mut db = empty_db();
    let failures = import_all(&mut db, b"garbage\nmore|garbage", true);
    assert_eq!(failures.len(), 2);
    assert_eq!(failures[0].0, 1);
    assert_eq!(failures[1].0, 2);
    assert_eq!(db.dirs.len(), 0);
    assert!(db.modified);
}

#[test]
fn empty_source_imports_nothing_but_marks_modified() {
    let mut db = empty_db();
    let failures = import_all(&mut db, b"", true);
    assert!(failures.is_empty());
    assert_eq!(db.dirs.len(), 0);
    assert!(db.modified);
}

#[test]
fn empty_line_is_reported_on_its_own_number() {
    let mut db = empty_db();
    let failures = import_all(&mut db, b"\n/|1.0|5", true);
    assert_eq!(failures.len(), 1);
    assert_eq!(failures[0], (1, ImportError::InvalidEntry));
    assert_eq!(db.dirs.len(), 1);
}

#[test]
fn crlf_line_endings_are_accepted() {
    let mut db = empty_db();
    let failures = import_all(&mut db, b"/|1.0|1000\r\n/|2.0|2000\r\n", true);
    assert!(failures.is_empty());
    assert_eq!(db.dirs.len(), 1);
    assert_eq!(db.dirs[0].rank, Rank { micros: 3_000_000 });
    assert_eq!(db.dirs[0].last_accessed, 2000);
}

#[test]
fn lone_trailing_carriage_return_stays_in_the_field() {
    // Without a line feed after it, a carriage return is ordinary content
    // and spoils the epoch field.
    let mut db = empty_db();
    let failures = import_all(&mut db, b"/|1.0|1000\r", true);
    assert_eq!(failures.len(), 1);
    assert_eq!(failures[0], (1, ImportError::InvalidEpoch(b"1000\r".to_vec())));
}

#[test]
fn rank_grammar_accepts_fractions_and_signs() {
    assert_eq!(zimport::parse_line(b"/|1.|1").unwrap().rank, Rank { micros: 1_000_000 });
    assert_eq!(zimport::parse_line(b"/|.5|1").unwrap().rank, Rank { micros: 500_000 });
    assert_eq!(zimport::parse_line(b"/|-2.5|1").unwrap().rank, Rank { micros: -2_500_000 });
    assert_eq!(zimport::parse_line(b"/|+3|1").unwrap().rank, Rank { micros: 3_000_000 });
    assert_eq!(zimport::parse_line(b"/|0.000001|1").unwrap().rank, Rank { micros: 1 });
}

#[test]
fn rank_grammar_rejects_what_it_cannot_represent() {
    assert!(matches!(
        zimport::parse_line(b"/|1e5|1"),
        Err(ImportError::InvalidRank(t)) if t == b"1e5".to_vec()
    ));
    assert!(matches!(zimport::parse_line(b"/|.|1"), Err(ImportError::InvalidRank(_))));
    assert!(matches!(zimport::parse_line(b"/||1"), Err(ImportError::InvalidRank(_))));
    assert!(matches!(zimport::parse_line(b"/|1.2.3|1"), Err(ImportError::InvalidRank(_))));
    // A seventh fractional digit is beyond the fixed-point resolution.
    assert!(matches!(zimport::parse_line(b"/|0.0000001|1"), Err(ImportError::InvalidRank(_))));
    // A magnitude past the representable count of millionths.
    assert!(matches!(
        zimport::parse_line(b"/|99999999999999|1"),
        Err(ImportError::InvalidRank(_))
    ));
}

#[test]
fn epoch_grammar_matches_signed_sixty_four_bits() {
    assert_eq!(zimport::parse_line(b"/|1.0|-5").unwrap().epoch, -5);
    assert_eq!(zimport::parse_line(b"/|1.0|+17").unwrap().epoch, 17);
    assert_eq!(
        zimport::parse_line(b"/|1.0|9223372036854775807").unwrap().epoch,
        9223372036854775807
    );
    assert_eq!(
        zimport::parse_line(b"/|1.0|-9223372036854775808").unwrap().epoch,
        -9223372036854775808
    );
    assert!(matches!(
        zimport::parse_line(b"/|1.0|9223372036854775808"),
        Err(ImportError::InvalidEpoch(_))
    ));
    assert!(matches!(zimport::parse_line(b"/|1.0|"), Err(ImportError::InvalidEpoch(_))));
    assert!(matches!(zimport::parse_line(b"/|1.0| 5"), Err(ImportError::InvalidEpoch(_))));
}

#[test]
fn rank_addition_saturates() {
    let a = Rank { micros: i64::MAX };
    let b = Rank { micros: 1 };
    assert_eq!(a.add(b), Rank { micros: i64::MAX });
    let c = Rank { micros: i64::MIN };
    let d = Rank { micros: -1 };
    assert_eq!(c.add(d), Rank { micros: i64::MIN });
    assert_eq!(Rank { micros: 5 }.add(Rank { micros: -7 }), Rank { micros: -2 });
}

#[test]
fn fresh_record_takes_incoming_values_verbatim() {
    let mut db = empty_db();
    zimport::merge_entry(&mut db, b"/q".to_vec(), Rank { micros: -42 }, -9);
    assert_eq!(db.dirs.len(), 1);
    assert_eq!(db.dirs[0].rank, Rank { micros: -42 });
    assert_eq!(db.dirs[0].last_accessed, -9);
    assert!(!db.modified);
}

#[test]
fn merge_updates_only_the_matching_record() {
    let mut db = empty_db();
    zimport::merge_entry(&mut db, b"/a".to_vec(), Rank { micros: 10 }, 1);
    zimport::merge_entry(&mut db, b"/b".to_vec(), Rank { micros: 20 }, 2);
    zimport::merge_entry(&mut db, b"/a".to_vec(), Rank { micros: 5 }, 9);
    assert_eq!(db.dirs.len(), 2);
    assert_eq!(db.dirs[0].path, b"/a".to_vec());
    assert_eq!(db.dirs[0].rank, Rank { micros: 15 });
    assert_eq!(db.dirs[0].last_accessed, 9);
    assert_eq!(db.dirs[1].path, b"/b".to_vec());
    assert_eq!(db.dirs[1].rank, Rank { micros: 20 });
    assert_eq!(db.dirs[1].last_accessed, 2);
}

#[test]
fn split_lines_matches_standard_line_splitting() {
    let lines = zimport::split_lines(b"a\nb\r\nc");
    assert_eq!(lines, vec![b"a".to_vec(), b"b".to_vec(), b"c".to_vec()]);
    let lines = zimport::split_lines(b"a\n\nb\n");
    assert_eq!(lines, vec![b"a".to_vec(), b"".to_vec(), b"b".to_vec()]);
    let lines: Vec<Vec<u8>> = zimport::split_lines(b"");
    assert!(lines.is_empty());
}
