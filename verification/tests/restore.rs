//! Restores against real SQLite databases.

use carved_delegation::restore::restore_in_session;
use carved_delegation::sql::{bundle_read_text, bundle_write_text, round_lookup_text};
use carved_delegation::store::Session;
use carved_delegation::{restore_carved_delegation, CarvedBundle, RestoreOutcome, VotingError};
use rusqlite::Connection;

const ROUND: &str = "aa";
const WALLET: &str = "w1";

/// The tables that a restore works on, with the columns that it touches.
fn empty_database() -> Connection {
    let conn = Connection::open_in_memory().unwrap();
    conn.execute_batch(
        "CREATE TABLE rounds (
             round_id TEXT NOT NULL,
             wallet_id TEXT NOT NULL,
             network TEXT NOT NULL,
             snapshot_height INTEGER NOT NULL,
             ea_pk BLOB NOT NULL,
             nc_root BLOB NOT NULL,
             nullifier_imt_root BLOB NOT NULL,
             created_at INTEGER NOT NULL,
             PRIMARY KEY (round_id, wallet_id)
         );
         CREATE TABLE bundles (
             round_id TEXT NOT NULL,
             wallet_id TEXT NOT NULL,
             bundle_index INTEGER NOT NULL,
             van_comm_rand BLOB,
             gov_comm BLOB,
             total_note_value INTEGER,
             address_index INTEGER,
             delegation_tx_hash TEXT,
             note_positions_blob BLOB,
             note_identity_hashes_blob BLOB,
             dummy_nullifiers BLOB,
             rho_signed BLOB,
             padded_note_data BLOB,
             nf_signed BLOB,
             cmx_new BLOB,
             alpha BLOB,
             rseed_signed BLOB,
             rseed_output BLOB,
             van_leaf_position INTEGER,
             rk BLOB,
             gov_nullifiers_blob BLOB,
             padded_note_secrets BLOB,
             pczt_sighash BLOB,
             tx1_effects BLOB,
             PRIMARY KEY (round_id, wallet_id, bundle_index)
         );",
    )
    .unwrap();
    conn
}

/// A round with one bundle holding a REBUILT delegation: a different secret
/// from the carved one, plus the heavy columns the rebuild wrote. This is the
/// state an affected device is in.
fn rebuilt_database() -> Connection {
    let conn = empty_database();
    conn.execute(
        "INSERT INTO rounds (
             round_id, wallet_id, network, snapshot_height,
             ea_pk, nc_root, nullifier_imt_root, created_at
         ) VALUES (?1, ?2, 'mainnet', 1000, ?3, ?4, ?5, 0)",
        (
            ROUND,
            WALLET,
            &[0xEAu8; 32][..],
            &[0xA1u8; 32][..],
            &[0xB1u8; 32][..],
        ),
    )
    .unwrap();
    conn.execute(
        "INSERT INTO bundles (
             round_id, wallet_id, bundle_index, van_comm_rand, gov_comm,
             total_note_value, alpha, rk, pczt_sighash
         ) VALUES (?1, ?2, 0, ?3, ?4, 5, ?5, ?6, ?7)",
        (
            ROUND,
            WALLET,
            &[0xBBu8; 32][..],
            &[0xCCu8; 32][..],
            &[0x11u8; 32][..],
            &[0x22u8; 32][..],
            &[0x33u8; 32][..],
        ),
    )
    .unwrap();
    conn
}

fn carved() -> CarvedBundle {
    CarvedBundle {
        bundle_index: 0,
        van_comm_rand: [0xAA; 32],
        gov_comm: [0xDD; 32],
        total_note_value: 42,
        delegation_tx_hash: Some("d0".repeat(32)),
    }
}

fn column_is_null(conn: &Connection, name: &str) -> bool {
    conn.query_row(
        &format!("SELECT {name} IS NULL FROM bundles WHERE round_id = ?1"),
        (ROUND,),
        |row| row.get::<_, bool>(0),
    )
    .unwrap()
}

fn add_bundle(conn: &Connection, wallet: &str, index: i64, secret: &[u8]) {
    conn.execute(
        "INSERT INTO bundles (round_id, wallet_id, bundle_index, van_comm_rand)
         VALUES (?1, ?2, ?3, ?4)",
        (ROUND, wallet, index, secret),
    )
    .unwrap();
}

fn secret_of(conn: &Connection, wallet: &str, index: i64) -> Option<Vec<u8>> {
    conn.query_row(
        "SELECT van_comm_rand FROM bundles
         WHERE round_id = ?1 AND wallet_id = ?2 AND bundle_index = ?3",
        (ROUND, wallet, index),
        |row| row.get(0),
    )
    .unwrap()
}

fn message(error: VotingError) -> String {
    match error {
        VotingError::InvalidInput { message } => format!("invalid: {message}"),
        VotingError::Internal { message } => format!("internal: {message}"),
    }
}

/// The whole point: the broadcast secret replaces the rebuild's.
#[test]
fn restores_the_carved_secret_over_a_rebuilt_bundle() {
    let conn = rebuilt_database();
    let outcome = restore_carved_delegation(&conn, ROUND, WALLET, &[carved()]).unwrap();

    assert_eq!(outcome.restored, 1);
    assert_eq!(outcome.already_present, 0);

    let (rand, van, total, hash): (Vec<u8>, Vec<u8>, i64, String) = conn
        .query_row(
            "SELECT van_comm_rand, gov_comm, total_note_value, delegation_tx_hash
             FROM bundles WHERE round_id = ?1",
            (ROUND,),
            |r| Ok((r.get(0)?, r.get(1)?, r.get(2)?, r.get(3)?)),
        )
        .unwrap();
    assert_eq!(rand, vec![0xAA; 32]);
    assert_eq!(van, vec![0xDD; 32]);
    assert_eq!(total, 42);
    assert_eq!(hash, "d0".repeat(32));
}

/// The rebuild's heavy columns describe a different PCZT and cannot be opened
/// by the restored VAN, so none may survive.
#[test]
fn clears_every_column_belonging_to_the_superseded_generation() {
    let conn = rebuilt_database();
    restore_carved_delegation(&conn, ROUND, WALLET, &[carved()]).unwrap();

    for column in [
        "alpha",
        "rk",
        "pczt_sighash",
        "nf_signed",
        "cmx_new",
        "rho_signed",
        "rseed_signed",
        "rseed_output",
        "dummy_nullifiers",
        "padded_note_data",
        "padded_note_secrets",
        "gov_nullifiers_blob",
        "tx1_effects",
        "note_positions_blob",
        "note_identity_hashes_blob",
    ] {
        assert!(
            column_is_null(&conn, column),
            "{column} survived the restore"
        );
    }
}

/// Confirmation state is re-derived by tree sync, never guessed here.
#[test]
fn does_not_invent_a_van_leaf_position() {
    let conn = rebuilt_database();
    restore_carved_delegation(&conn, ROUND, WALLET, &[carved()]).unwrap();
    assert!(column_is_null(&conn, "van_leaf_position"));
}

/// Recovery runs on every cold launch, so the second run must change nothing.
#[test]
fn is_idempotent_across_repeated_recoveries() {
    let conn = rebuilt_database();
    let first = restore_carved_delegation(&conn, ROUND, WALLET, &[carved()]).unwrap();
    let second = restore_carved_delegation(&conn, ROUND, WALLET, &[carved()]).unwrap();

    assert_eq!(first.restored, 1);
    assert!(!first.is_noop());
    assert_eq!(second.restored, 0);
    assert_eq!(second.already_present, 1);
    assert!(second.is_noop());
}

/// A different secret that was itself broadcast is a second delegation, not a
/// rebuild; picking between them is not ours to do.
#[test]
fn refuses_to_overwrite_a_different_delegation_that_was_broadcast() {
    let conn = rebuilt_database();
    conn.execute(
        "UPDATE bundles SET delegation_tx_hash = ?1 WHERE round_id = ?2",
        ("ee".repeat(32), ROUND),
    )
    .unwrap();

    let err = restore_carved_delegation(&conn, ROUND, WALLET, &[carved()]).unwrap_err();
    assert!(
        format!("{err:?}").contains("already broadcast"),
        "unexpected error: {err:?}"
    );

    // And it really did leave the row alone.
    let rand: Vec<u8> = conn
        .query_row(
            "SELECT van_comm_rand FROM bundles WHERE round_id = ?1",
            (ROUND,),
            |r| r.get(0),
        )
        .unwrap();
    assert_eq!(
        rand,
        vec![0xBB; 32],
        "the stored delegation was overwritten"
    );
}

/// Restore repairs rounds; it does not conjure them.
#[test]
fn refuses_a_round_that_does_not_exist() {
    let conn = rebuilt_database();
    let err = restore_carved_delegation(&conn, "ffff", WALLET, &[carved()]).unwrap_err();
    assert!(format!("{err:?}").contains("does not exist"), "{err:?}");
}

/// A carve that names a bundle the round does not have is a bug in the caller,
/// not a row to create.
#[test]
fn refuses_a_bundle_that_does_not_exist() {
    let conn = rebuilt_database();
    let mut bundle = carved();
    bundle.bundle_index = 7;
    let err = restore_carved_delegation(&conn, ROUND, WALLET, &[bundle]).unwrap_err();
    assert!(format!("{err:?}").contains("does not exist"), "{err:?}");
}

/// A carve that names one bundle twice is ambiguous about which secret wins, so
/// it is rejected rather than resolved by input order.
#[test]
fn rejects_duplicate_bundle_indices() {
    let conn = rebuilt_database();
    let err = restore_carved_delegation(&conn, ROUND, WALLET, &[carved(), carved()]).unwrap_err();
    assert!(format!("{err:?}").contains("duplicate"), "{err:?}");
}

#[test]
fn rejects_an_empty_restore() {
    let conn = rebuilt_database();
    let err = restore_carved_delegation(&conn, ROUND, WALLET, &[]).unwrap_err();
    assert!(format!("{err:?}").contains("no carved bundles"), "{err:?}");
}

/// A delegation that was never broadcast carries no hash, and that must restore
/// cleanly rather than being treated as incomplete.
#[test]
fn restores_a_bundle_that_was_never_broadcast() {
    let conn = rebuilt_database();
    let mut bundle = carved();
    bundle.delegation_tx_hash = None;

    let outcome = restore_carved_delegation(&conn, ROUND, WALLET, &[bundle]).unwrap();

    assert_eq!(outcome.restored, 1);
    assert!(column_is_null(&conn, "delegation_tx_hash"));
}

/// A failure part-way leaves nothing behind, provided the caller supplies the
/// transaction -- which is what this asserts.
#[test]
fn a_rejected_bundle_rolls_back_the_ones_before_it() {
    let mut conn = rebuilt_database();
    conn.execute(
        "INSERT INTO bundles (round_id, wallet_id, bundle_index, van_comm_rand)
         VALUES (?1, ?2, 1, ?3)",
        (ROUND, WALLET, &[0xEEu8; 32][..]),
    )
    .unwrap();

    let mut second = carved();
    second.bundle_index = 9; // does not exist, so the call fails on it

    let tx = conn.transaction().unwrap();
    let result = restore_carved_delegation(&tx, ROUND, WALLET, &[carved(), second]);
    assert!(result.is_err());
    drop(tx); // rolls back

    let rand: Vec<u8> = conn
        .query_row(
            "SELECT van_comm_rand FROM bundles WHERE round_id = ?1 AND bundle_index = 0",
            (ROUND,),
            |r| r.get(0),
        )
        .unwrap();
    assert_eq!(rand, vec![0xBB; 32], "bundle 0 was not rolled back");
}

/// Without a transaction of the caller's, what was restored before the refused
/// bundle stays.
#[test]
fn without_a_transaction_the_bundles_before_a_refused_one_stay_restored() {
    let conn = rebuilt_database();
    let mut second = carved();
    second.bundle_index = 9;
    let err = restore_carved_delegation(&conn, ROUND, WALLET, &[carved(), second]).unwrap_err();
    assert_eq!(
        message(err),
        "invalid: bundle 9 of round aa does not exist; restore does not create bundles"
    );
    assert_eq!(secret_of(&conn, WALLET, 0), Some(vec![0xAA; 32]));
}

#[test]
fn sets_the_address_index_to_zero() {
    let conn = rebuilt_database();
    conn.execute("UPDATE bundles SET address_index = 5", ())
        .unwrap();
    restore_carved_delegation(&conn, ROUND, WALLET, &[carved()]).unwrap();
    let index: i64 = conn
        .query_row("SELECT address_index FROM bundles", (), |r| r.get(0))
        .unwrap();
    assert_eq!(index, 0);
}

#[test]
fn a_present_row_keeps_its_confirmation_state() {
    let conn = rebuilt_database();
    conn.execute(
        "UPDATE bundles SET van_comm_rand = ?1, van_leaf_position = 77, gov_comm = ?2",
        (&[0xAAu8; 32][..], &[0x01u8; 32][..]),
    )
    .unwrap();
    let outcome = restore_carved_delegation(&conn, ROUND, WALLET, &[carved()]).unwrap();
    assert_eq!(
        outcome,
        RestoreOutcome {
            restored: 0,
            already_present: 1
        }
    );
    let (position, van, alpha): (i64, Vec<u8>, Vec<u8>) = conn
        .query_row(
            "SELECT van_leaf_position, gov_comm, alpha FROM bundles",
            (),
            |r| Ok((r.get(0)?, r.get(1)?, r.get(2)?)),
        )
        .unwrap();
    assert_eq!(position, 77);
    assert_eq!(van, vec![0x01; 32]);
    assert_eq!(alpha, vec![0x11; 32]);
}

#[test]
fn a_present_secret_of_another_broadcast_is_still_present() {
    let conn = rebuilt_database();
    conn.execute(
        "UPDATE bundles SET van_comm_rand = ?1, delegation_tx_hash = 'other'",
        (&[0xAAu8; 32][..],),
    )
    .unwrap();
    let outcome = restore_carved_delegation(&conn, ROUND, WALLET, &[carved()]).unwrap();
    assert_eq!(outcome.already_present, 1);
}

#[test]
fn a_rebuild_of_the_same_broadcast_is_overwritten() {
    let conn = rebuilt_database();
    conn.execute(
        "UPDATE bundles SET delegation_tx_hash = ?1",
        ("d0".repeat(32),),
    )
    .unwrap();
    let outcome = restore_carved_delegation(&conn, ROUND, WALLET, &[carved()]).unwrap();
    assert_eq!(outcome.restored, 1);
    assert_eq!(secret_of(&conn, WALLET, 0), Some(vec![0xAA; 32]));
}

#[test]
fn a_row_without_a_secret_is_overwritten_whatever_its_hash() {
    let conn = rebuilt_database();
    conn.execute(
        "UPDATE bundles SET van_comm_rand = NULL, delegation_tx_hash = 'other'",
        (),
    )
    .unwrap();
    let outcome = restore_carved_delegation(&conn, ROUND, WALLET, &[carved()]).unwrap();
    assert_eq!(outcome.restored, 1);
    assert_eq!(secret_of(&conn, WALLET, 0), Some(vec![0xAA; 32]));
}

#[test]
fn a_carve_without_a_hash_does_not_replace_a_broadcast_delegation() {
    let conn = rebuilt_database();
    conn.execute("UPDATE bundles SET delegation_tx_hash = 'tx9'", ())
        .unwrap();
    let mut bundle = carved();
    bundle.delegation_tx_hash = None;
    let err = restore_carved_delegation(&conn, ROUND, WALLET, &[bundle]).unwrap_err();
    assert_eq!(
        message(err),
        "invalid: bundle 0 of round aa holds a different delegation that was already \
         broadcast (tx tx9); refusing to overwrite it"
    );
}

#[test]
fn a_secret_of_another_length_is_another_secret() {
    let conn = rebuilt_database();
    conn.execute(
        "UPDATE bundles SET van_comm_rand = ?1",
        (&[0xAAu8; 31][..],),
    )
    .unwrap();
    let outcome = restore_carved_delegation(&conn, ROUND, WALLET, &[carved()]).unwrap();
    assert_eq!(outcome.restored, 1);
}

#[test]
fn rows_that_are_not_named_stay_as_they_are() {
    let conn = rebuilt_database();
    add_bundle(&conn, WALLET, 1, &[0xE1; 32]);
    add_bundle(&conn, "w2", 0, &[0xE2; 32]);
    let rounds_before: i64 = conn
        .query_row("SELECT COUNT(*) FROM rounds", (), |r| r.get(0))
        .unwrap();
    restore_carved_delegation(&conn, ROUND, WALLET, &[carved()]).unwrap();
    assert_eq!(secret_of(&conn, WALLET, 0), Some(vec![0xAA; 32]));
    assert_eq!(secret_of(&conn, WALLET, 1), Some(vec![0xE1; 32]));
    assert_eq!(secret_of(&conn, "w2", 0), Some(vec![0xE2; 32]));
    let (bundles, rounds): (i64, i64) = conn
        .query_row(
            "SELECT (SELECT COUNT(*) FROM bundles), (SELECT COUNT(*) FROM rounds)",
            (),
            |r| Ok((r.get(0)?, r.get(1)?)),
        )
        .unwrap();
    assert_eq!(bundles, 3);
    assert_eq!(rounds, rounds_before);
}

#[test]
fn the_order_of_the_bundles_does_not_matter() {
    let mut other = carved();
    other.bundle_index = 4294967295;
    other.van_comm_rand = [0x5A; 32];
    let mut present = carved();
    present.bundle_index = 2;
    present.van_comm_rand = [0xE2; 32];

    let mut seen: Vec<(RestoreOutcome, Vec<Option<Vec<u8>>>)> = Vec::new();
    for bundles in [
        [carved(), other.clone(), present.clone()],
        [present.clone(), carved(), other.clone()],
    ] {
        let conn = rebuilt_database();
        add_bundle(&conn, WALLET, 4294967295, &[0xE1; 32]);
        add_bundle(&conn, WALLET, 2, &[0xE2; 32]);
        let outcome = restore_carved_delegation(&conn, ROUND, WALLET, &bundles).unwrap();
        seen.push((
            outcome,
            vec![
                secret_of(&conn, WALLET, 0),
                secret_of(&conn, WALLET, 4294967295),
                secret_of(&conn, WALLET, 2),
            ],
        ));
    }
    assert_eq!(seen[0], seen[1]);
    assert_eq!(
        seen[0].0,
        RestoreOutcome {
            restored: 2,
            already_present: 1
        }
    );
    assert_eq!(
        seen[0].1,
        vec![
            Some(vec![0xAA; 32]),
            Some(vec![0x5A; 32]),
            Some(vec![0xE2; 32])
        ]
    );
}

#[test]
fn a_weight_beyond_the_signed_range_is_stored_as_the_same_bits() {
    let conn = rebuilt_database();
    let mut bundle = carved();
    bundle.total_note_value = u64::MAX - 1;
    restore_carved_delegation(&conn, ROUND, WALLET, &[bundle]).unwrap();
    let total: i64 = conn
        .query_row("SELECT total_note_value FROM bundles", (), |r| r.get(0))
        .unwrap();
    assert_eq!(total, -2);
}

#[test]
fn another_wallets_round_does_not_count() {
    let conn = rebuilt_database();
    let err = restore_carved_delegation(&conn, ROUND, "w2", &[carved()]).unwrap_err();
    assert_eq!(
        message(err),
        "invalid: round aa does not exist for this wallet; restore does not create rounds"
    );
}

#[test]
fn a_refused_request_says_why_before_the_database_is_asked() {
    let conn = Connection::open_in_memory().unwrap();
    let err = restore_carved_delegation(&conn, ROUND, WALLET, &[]).unwrap_err();
    assert_eq!(message(err), "invalid: no carved bundles to restore");
    let mut other = carved();
    other.bundle_index = 3;
    let err =
        restore_carved_delegation(&conn, ROUND, WALLET, &[carved(), other, carved()]).unwrap_err();
    assert_eq!(
        message(err),
        "invalid: carved bundles contain a duplicate bundle_index"
    );
}

#[test]
fn a_database_without_tables_fails_the_lookup() {
    let conn = Connection::open_in_memory().unwrap();
    let err = restore_carved_delegation(&conn, ROUND, WALLET, &[carved()]).unwrap_err();
    assert_eq!(
        message(err),
        "internal: failed to look up round: no such table: rounds"
    );
}

/// Where a statement cannot be prepared, the message quotes it.
#[test]
fn a_message_quotes_the_statement_that_could_not_be_prepared() {
    let conn = Connection::open_in_memory().unwrap();
    conn.execute_batch("CREATE TABLE rounds (round_id TEXT)")
        .unwrap();
    let err = restore_carved_delegation(&conn, ROUND, WALLET, &[carved()]).unwrap_err();
    assert_eq!(
        message(err),
        "internal: failed to look up round: no such column: wallet_id in \
         SELECT EXISTS(SELECT 1 FROM rounds
                           WHERE round_id = :round_id AND wallet_id = :wallet_id) at offset 93"
    );
}

#[test]
fn a_secret_that_is_not_a_blob_fails_the_read() {
    let conn = rebuilt_database();
    conn.execute("UPDATE bundles SET van_comm_rand = 12", ())
        .unwrap();
    let err = restore_carved_delegation(&conn, ROUND, WALLET, &[carved()]).unwrap_err();
    assert!(message(err).starts_with("internal: failed to read bundle: Invalid column type"));
}

#[test]
fn a_write_that_fails_is_reported() {
    let conn = rebuilt_database();
    conn.execute_batch(
        "CREATE TRIGGER refuse BEFORE UPDATE ON bundles
         BEGIN SELECT RAISE(ABORT, 'not now'); END;",
    )
    .unwrap();
    let err = restore_carved_delegation(&conn, ROUND, WALLET, &[carved()]).unwrap_err();
    assert_eq!(
        message(err),
        "internal: failed to restore carved bundle: not now"
    );
    assert_eq!(secret_of(&conn, WALLET, 0), Some(vec![0xBB; 32]));
}

#[test]
fn a_write_that_touches_no_row_is_reported() {
    let conn = rebuilt_database();
    conn.execute_batch(
        "CREATE TRIGGER ignore BEFORE UPDATE ON bundles
         BEGIN SELECT RAISE(IGNORE); END;",
    )
    .unwrap();
    let err = restore_carved_delegation(&conn, ROUND, WALLET, &[carved()]).unwrap_err();
    assert_eq!(
        message(err),
        "internal: restoring bundle 0 of round aa touched 0 rows, expected 1"
    );
}

#[test]
fn a_session_serves_more_than_one_restore() {
    let conn = rebuilt_database();
    let mut session = Session::new(&conn);
    let first = restore_in_session(&mut session, ROUND, WALLET, &[carved()]).unwrap();
    let second = restore_in_session(&mut session, ROUND, WALLET, &[carved()]).unwrap();
    assert!(!first.is_noop());
    assert!(second.is_noop());
}

#[test]
fn a_row_full_of_another_generation_is_cleared() {
    let columns = [
        "note_positions_blob",
        "note_identity_hashes_blob",
        "dummy_nullifiers",
        "rho_signed",
        "padded_note_data",
        "nf_signed",
        "cmx_new",
        "alpha",
        "rseed_signed",
        "rseed_output",
        "van_leaf_position",
        "rk",
        "gov_nullifiers_blob",
        "padded_note_secrets",
        "pczt_sighash",
        "tx1_effects",
    ];
    let conn = rebuilt_database();
    for column in columns {
        conn.execute(&format!("UPDATE bundles SET {column} = 7"), ())
            .unwrap();
        assert!(!column_is_null(&conn, column));
    }
    restore_carved_delegation(&conn, ROUND, WALLET, &[carved()]).unwrap();
    for column in columns {
        assert!(column_is_null(&conn, column), "{column} survived");
    }
}

#[test]
fn a_failed_restore_fails_the_same_way_again() {
    let conn = rebuilt_database();
    let mut second = carved();
    second.bundle_index = 9;
    let bundles = [carved(), second];
    let first = restore_carved_delegation(&conn, ROUND, WALLET, &bundles).unwrap_err();
    let again = restore_carved_delegation(&conn, ROUND, WALLET, &bundles).unwrap_err();
    assert_eq!(first, again);
    assert_eq!(secret_of(&conn, WALLET, 0), Some(vec![0xAA; 32]));
}

#[test]
fn a_large_weight_reads_back_as_itself() {
    let conn = rebuilt_database();
    let mut bundle = carved();
    bundle.total_note_value = 0x8000_0000_0000_0001;
    restore_carved_delegation(&conn, ROUND, WALLET, &[bundle]).unwrap();
    let total: i64 = conn
        .query_row("SELECT total_note_value FROM bundles", (), |r| r.get(0))
        .unwrap();
    assert_eq!(total as u64, 0x8000_0000_0000_0001);
}

/// The named parameters are numbered in the order in which the statements name
/// them, which is the order in which values are bound.
#[test]
fn named_parameters_are_numbered_as_they_are_bound() {
    let conn = rebuilt_database();
    let statements = [
        (round_lookup_text().to_string(), vec![":round_id", ":wallet_id"]),
        (
            bundle_read_text().to_string(),
            vec![":round_id", ":wallet_id", ":bundle_index"],
        ),
        (
            bundle_write_text(),
            vec![
                ":rand",
                ":van",
                ":total",
                ":tx_hash",
                ":round_id",
                ":wallet_id",
                ":bundle_index",
            ],
        ),
    ];
    for (sql, names) in statements {
        let statement = conn.prepare(&sql).unwrap();
        assert_eq!(statement.parameter_count(), names.len());
        for (place, name) in names.iter().enumerate() {
            assert_eq!(statement.parameter_index(name).unwrap(), Some(place + 1));
        }
    }
}

/// A fault part-way keeps what was settled before it, unless the caller rolls
/// back.
#[test]
fn a_fault_part_way_ends_the_restore_there() {
    let mut conn = rebuilt_database();
    add_bundle(&conn, WALLET, 1, &[0xE1; 32]);
    conn.execute_batch(
        "CREATE TRIGGER refuse BEFORE UPDATE ON bundles WHEN OLD.bundle_index = 1
         BEGIN SELECT RAISE(FAIL, 'disk gone'); END;",
    )
    .unwrap();
    let mut second = carved();
    second.bundle_index = 1;
    let bundles = [carved(), second];

    let tx = conn.transaction().unwrap();
    let err = restore_carved_delegation(&tx, ROUND, WALLET, &bundles).unwrap_err();
    assert_eq!(
        message(err),
        "internal: failed to restore carved bundle: disk gone"
    );
    drop(tx);
    assert_eq!(secret_of(&conn, WALLET, 0), Some(vec![0xBB; 32]));
    assert_eq!(secret_of(&conn, WALLET, 1), Some(vec![0xE1; 32]));

    restore_carved_delegation(&conn, ROUND, WALLET, &bundles).unwrap_err();
    assert_eq!(secret_of(&conn, WALLET, 0), Some(vec![0xAA; 32]));
    assert_eq!(secret_of(&conn, WALLET, 1), Some(vec![0xE1; 32]));
}

/// After a fault, too, no row or round is created, the rows that are not named
/// are as they were, and each named row is as it was or wholly restored.
#[test]
fn a_fault_part_way_leaves_whole_rows_and_no_new_ones() {
    let conn = rebuilt_database();
    add_bundle(&conn, WALLET, 1, &[0xE1; 32]);
    add_bundle(&conn, WALLET, 2, &[0xE2; 32]);
    add_bundle(&conn, "w2", 0, &[0xE3; 32]);
    conn.execute("UPDATE bundles SET alpha = X'07', van_leaf_position = 9", ())
        .unwrap();
    conn.execute_batch(
        "CREATE TRIGGER refuse BEFORE UPDATE ON bundles WHEN OLD.bundle_index = 1
         BEGIN SELECT RAISE(FAIL, 'disk gone'); END;",
    )
    .unwrap();
    let mut second = carved();
    second.bundle_index = 1;
    restore_carved_delegation(&conn, ROUND, WALLET, &[carved(), second]).unwrap_err();

    let mut statement = conn
        .prepare(
            "SELECT wallet_id, bundle_index, van_comm_rand, alpha, van_leaf_position
             FROM bundles ORDER BY wallet_id, bundle_index",
        )
        .unwrap();
    let rows: Vec<(String, i64, Vec<u8>, Option<Vec<u8>>, Option<i64>)> = statement
        .query_map((), |row| {
            Ok((row.get(0)?, row.get(1)?, row.get(2)?, row.get(3)?, row.get(4)?))
        })
        .unwrap()
        .map(|row| row.unwrap())
        .collect();
    assert_eq!(
        rows,
        vec![
            (WALLET.to_string(), 0, vec![0xAA; 32], None, None),
            (WALLET.to_string(), 1, vec![0xE1; 32], Some(vec![7]), Some(9)),
            (WALLET.to_string(), 2, vec![0xE2; 32], Some(vec![7]), Some(9)),
            ("w2".to_string(), 0, vec![0xE3; 32], Some(vec![7]), Some(9)),
        ]
    );
    let rounds: i64 = conn
        .query_row("SELECT COUNT(*) FROM rounds", (), |row| row.get(0))
        .unwrap();
    assert_eq!(rounds, 1);
}
