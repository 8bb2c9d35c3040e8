//! The decisions of a restore, on given answers.

use carved_delegation::restore::{
    check_bundles, check_round, check_write, decide, Disposition,
};
use carved_delegation::sql::{
    bundle_read_text, bundle_write_text, round_lookup_text, BundleColumn, Parameter,
};
use carved_delegation::store::{StoreFault, StoredBundle};
use carved_delegation::error::{internal, invalid};
use carved_delegation::text::decimal_text;
use carved_delegation::{CarvedBundle, RestoreOutcome, VotingError};

fn bundle(index: u32) -> CarvedBundle {
    CarvedBundle {
        bundle_index: index,
        van_comm_rand: [7; 32],
        gov_comm: [8; 32],
        total_note_value: 9,
        delegation_tx_hash: Some("t1".to_string()),
    }
}

fn stored(secret: Option<Vec<u8>>, hash: Option<&str>) -> Result<StoredBundle, StoreFault> {
    Ok(StoredBundle {
        van_comm_rand: secret,
        delegation_tx_hash: hash.map(|h| h.to_string()),
    })
}

fn fault(no_rows: bool, message: &str) -> StoreFault {
    StoreFault {
        no_rows,
        message: message.to_string(),
    }
}

#[test]
fn numbers_are_written_in_decimal() {
    assert_eq!(decimal_text(0), "0");
    assert_eq!(decimal_text(9), "9");
    assert_eq!(decimal_text(10), "10");
    assert_eq!(decimal_text(1203456789), "1203456789");
    assert_eq!(decimal_text(u64::MAX), "18446744073709551615");
}

#[test]
fn errors_carry_their_message() {
    assert_eq!(
        invalid("a".to_string()),
        VotingError::InvalidInput {
            message: "a".to_string()
        }
    );
    assert_eq!(
        internal("b".to_string()),
        VotingError::Internal {
            message: "b".to_string()
        }
    );
}

#[test]
fn an_outcome_is_a_noop_when_nothing_was_written() {
    let noop = RestoreOutcome {
        restored: 0,
        already_present: 4,
    };
    let wrote = RestoreOutcome {
        restored: 1,
        already_present: 0,
    };
    assert!(noop.is_noop());
    assert!(!wrote.is_noop());
}

#[test]
fn statements_read_as_expected() {
    assert_eq!(
        round_lookup_text(),
        "SELECT EXISTS(SELECT 1 FROM rounds
                           WHERE round_id = :round_id AND wallet_id = :wallet_id)"
    );
    assert_eq!(
        bundle_read_text(),
        "SELECT van_comm_rand, delegation_tx_hash FROM bundles
                 WHERE round_id = :round_id AND wallet_id = :wallet_id
                   AND bundle_index = :bundle_index"
    );
    assert_eq!(
        bundle_write_text(),
        "UPDATE bundles SET
                     van_comm_rand = :rand,
                     gov_comm = :van,
                     total_note_value = :total,
                     address_index = 0,
                     delegation_tx_hash = :tx_hash,
                     note_positions_blob = NULL,
                     note_identity_hashes_blob = NULL,
                     dummy_nullifiers = NULL,
                     rho_signed = NULL,
                     padded_note_data = NULL,
                     nf_signed = NULL,
                     cmx_new = NULL,
                     alpha = NULL,
                     rseed_signed = NULL,
                     rseed_output = NULL,
                     van_leaf_position = NULL,
                     rk = NULL,
                     gov_nullifiers_blob = NULL,
                     padded_note_secrets = NULL,
                     pczt_sighash = NULL,
                     tx1_effects = NULL
                 WHERE round_id = :round_id AND wallet_id = :wallet_id
                   AND bundle_index = :bundle_index"
    );
    assert_eq!(Parameter::TxHash.name(), ":tx_hash");
    assert_eq!(BundleColumn::Tx1Effects.name(), "tx1_effects");
}

#[test]
fn a_list_without_duplicates_is_accepted() {
    assert_eq!(check_bundles(&[bundle(3), bundle(1), bundle(2)]), Ok(()));
    assert!(check_bundles(&[]).is_err());
    assert!(check_bundles(&[bundle(3), bundle(1), bundle(3)]).is_err());
}

#[test]
fn the_answer_to_the_lookup_decides_about_the_round() {
    assert_eq!(check_round("r", Ok(true)), Ok(()));
    assert_eq!(
        check_round("r", Ok(false)),
        Err(VotingError::InvalidInput {
            message: "round r does not exist for this wallet; restore does not create rounds"
                .to_string()
        })
    );
    assert_eq!(
        check_round("r", Err(fault(true, "locked"))),
        Err(VotingError::Internal {
            message: "failed to look up round: locked".to_string()
        })
    );
}

#[test]
fn the_answer_to_a_read_decides_about_the_bundle() {
    let carved = bundle(12);
    let cases = [
        (stored(None, None), Disposition::Overwrite),
        (stored(None, Some("t2")), Disposition::Overwrite),
        (stored(Some(vec![7; 32]), None), Disposition::AlreadyPresent),
        (
            stored(Some(vec![7; 32]), Some("t2")),
            Disposition::AlreadyPresent,
        ),
        (stored(Some(vec![6; 32]), None), Disposition::Overwrite),
        (stored(Some(vec![6; 32]), Some("t1")), Disposition::Overwrite),
        (stored(Some(vec![]), None), Disposition::Overwrite),
    ];
    for (reply, expected) in cases {
        assert_eq!(decide("r", &carved, reply), Ok(expected));
    }
    assert_eq!(
        decide("r", &carved, stored(Some(vec![6; 32]), Some("t2"))),
        Err(VotingError::InvalidInput {
            message: "bundle 12 of round r holds a different delegation that was already \
                      broadcast (tx t2); refusing to overwrite it"
                .to_string()
        })
    );
    assert_eq!(
        decide("r", &carved, Err(fault(true, "none"))),
        Err(VotingError::InvalidInput {
            message: "bundle 12 of round r does not exist; restore does not create bundles"
                .to_string()
        })
    );
    assert_eq!(
        decide("r", &carved, Err(fault(false, "disk"))),
        Err(VotingError::Internal {
            message: "failed to read bundle: disk".to_string()
        })
    );
}

#[test]
fn the_answer_to_a_write_must_be_one_row() {
    assert_eq!(check_write("r", 5, Ok(1)), Ok(()));
    assert_eq!(
        check_write("r", 5, Ok(20)),
        Err(VotingError::Internal {
            message: "restoring bundle 5 of round r touched 20 rows, expected 1".to_string()
        })
    );
    assert_eq!(
        check_write("r", 5, Err(fault(false, "full"))),
        Err(VotingError::Internal {
            message: "failed to restore carved bundle: full".to_string()
        })
    );
}
