//! What a restore can be held to, said of its request, its statements, the
//! answers to them and its result.
//!
//! Everything here is said in full: the texts, the values bound, the bytes and
//! characters compared, the messages and the counts. The laws hold whatever the
//! database answers. Where a law speaks of the place of an exchange in a log, the
//! bundle that it is about is the one at the place that counts the reads before:
//! the bundles are taken in turn.

use vstd::prelude::*;

use crate::carved::{carved_views, Carved, CarvedBundle, RestoreOutcome, Tally};
use crate::error::{error_of, ErrorView, VotingError};
use crate::laws::{
    accounts, law_rows_after_success, law_rows_of_others_are_kept,
    law_success_accounts_for_every_bundle, law_success_counts_the_rows,
    law_where_restores_succeed, named_row, row_is_of_another,
};
use crate::restore::{
    bundles_refusal, countable, disposition, disposition_view, job_of, lemma_tally_is_complete,
    outcome_view, restore_on, round_refusal, write_refusal, Disposition, Job, Phase,
};
use crate::sql::{bundle_write_sql, BundleColumn};
use crate::store::{
    changed_view, found_view, str_view, stored_view, Cell, Exchange, Fault, Request, Session,
    SessionView, StoreFault, Stored, StoredBundle,
};
use crate::tables::{BundleKey, Tables};
use crate::text::decimal;

verus! {

/// The number that a text of decimal digits stands for.
pub open spec fn numeral(text: Seq<char>) -> int
    decreases text.len(),
{
    if text.len() == 0 {
        0
    } else {
        10 * numeral(text.drop_last()) + (text.last() as int - '0' as int)
    }
}

/// A number is written in decimal digits that stand for it, with no zero in
/// front.
pub proof fn law_decimal_reads_back(n: nat)
    ensures
        numeral(decimal(n)) == n,
        decimal(n).len() > 0,
        forall|i: int| 0 <= i < decimal(n).len() ==> '0' <= #[trigger] decimal(n)[i] <= '9',
        decimal(n)[0] == '0' ==> n == 0 && decimal(n).len() == 1,
    decreases n,
{
    reveal_with_fuel(numeral, 2);
    if n >= 10 {
        law_decimal_reads_back(n / 10);
        assert(decimal(n).drop_last() =~= decimal(n / 10));
        assert(decimal(n)[0] == decimal(n / 10)[0]);
    }
}

/// A list of bundles is refused without a question where it is empty or names an
/// index twice, and only there.
pub proof fn law_lists_that_are_refused(bundles: Seq<Carved>)
    ensures
        bundles.len() == 0 ==> bundles_refusal(bundles) == Some(
            ErrorView::InvalidInput("no carved bundles to restore"@),
        ),
        (exists|i: int, j: int|
            0 <= i < j < bundles.len() && (#[trigger] bundles[i]).bundle_index == (
            #[trigger] bundles[j]).bundle_index) ==> bundles_refusal(bundles) == Some(
            ErrorView::InvalidInput("carved bundles contain a duplicate bundle_index"@),
        ),
        bundles.len() > 0 && (forall|i: int, j: int|
            0 <= i < j < bundles.len() ==> (#[trigger] bundles[i]).bundle_index != (
            #[trigger] bundles[j]).bundle_index) ==> bundles_refusal(bundles) is None,
{
}

/// A restore takes every list whose length a count can hold, and every list that
/// it refuses.
pub proof fn law_lists_that_are_taken(bundles: &[CarvedBundle])
    ensures
        bundles@.len() <= u32::MAX ==> countable(bundles),
        (exists|i: int, j: int|
            0 <= i < j < bundles@.len() && (#[trigger] bundles@[i]).bundle_index == (
            #[trigger] bundles@[j]).bundle_index) ==> countable(bundles),
{
    if exists|i: int, j: int|
        0 <= i < j < bundles@.len() && (#[trigger] bundles@[i]).bundle_index == (
        #[trigger] bundles@[j]).bundle_index {
        let (i, j) = choose|i: int, j: int|
            0 <= i < j < bundles@.len() && (#[trigger] bundles@[i]).bundle_index == (
            #[trigger] bundles@[j]).bundle_index;
        let carved = carved_views(bundles@);
        assert(carved[i].bundle_index == carved[j].bundle_index);
    }
}

/// The round must be there: each other answer to the lookup is an error, which
/// names the round or tells the failure.
pub proof fn law_answers_to_a_lookup(round_id: Seq<char>, reply: Result<bool, Fault>)
    ensures
        reply == Ok::<bool, Fault>(true) ==> round_refusal(round_id, reply) is None,
        reply == Ok::<bool, Fault>(false) ==> round_refusal(round_id, reply) == Some(
            ErrorView::InvalidInput(
                "round "@ + round_id
                    + " does not exist for this wallet; restore does not create rounds"@,
            ),
        ),
        reply matches Err(fault) ==> round_refusal(round_id, reply) == Some(
            ErrorView::Internal("failed to look up round: "@ + fault.message),
        ),
{
}

/// A row is present where its secret is the carved one, byte for byte. Where it
/// holds another secret that a transaction other than the carved one broadcast,
/// it is refused, and the error names that transaction. Every other row is to be
/// overwritten. A row that is not there or cannot be read is an error.
pub proof fn law_answers_to_a_read(
    round_id: Seq<char>,
    bundle: Carved,
    reply: Result<Stored, Fault>,
)
    ensures
        reply matches Ok(stored) ==> {
            let secret = stored.van_comm_rand;
            let hash = stored.delegation_tx_hash;
            &&& disposition(round_id, bundle, reply) == Ok::<Disposition, ErrorView>(
                Disposition::AlreadyPresent,
            ) <==> secret == Some(bundle.van_comm_rand)
            &&& disposition(round_id, bundle, reply) == Ok::<Disposition, ErrorView>(
                Disposition::Overwrite,
            ) <==> secret != Some(bundle.van_comm_rand) && (secret is None || hash is None || hash
                == bundle.delegation_tx_hash)
            &&& disposition(round_id, bundle, reply) is Err ==> disposition(
                round_id,
                bundle,
                reply,
            ) == Err::<Disposition, ErrorView>(
                ErrorView::InvalidInput(
                    "bundle "@ + decimal(bundle.bundle_index as nat) + " of round "@ + round_id
                        + " holds a different delegation that was already broadcast (tx "@
                        + hash->0 + "); refusing to overwrite it"@,
                ),
            )
        },
        reply matches Err(fault) ==> disposition(round_id, bundle, reply) == Err::<
            Disposition,
            ErrorView,
        >(
            if fault.no_rows {
                ErrorView::InvalidInput(
                    "bundle "@ + decimal(bundle.bundle_index as nat) + " of round "@ + round_id
                        + " does not exist; restore does not create bundles"@,
                )
            } else {
                ErrorView::Internal("failed to read bundle: "@ + fault.message)
            },
        ),
{
    let digits = decimal(bundle.bundle_index as nat);
    let missing = " does not exist; restore does not create bundles"@;
    assert("bundle "@ + (digits + " of round "@ + round_id) + missing =~= "bundle "@ + digits
        + " of round "@ + round_id + missing);
    if let Ok(stored) = reply {
        let hash = stored.delegation_tx_hash->0;
        let broadcast = " holds a different delegation that was already broadcast (tx "@;
        let end = "); refusing to overwrite it"@;
        assert("bundle "@ + (digits + " of round "@ + round_id) + broadcast + hash + end
            =~= "bundle "@ + digits + " of round "@ + round_id + broadcast + hash + end);
    }
}

/// A write must change one row: every other answer is an error.
pub proof fn law_answers_to_a_write(
    round_id: Seq<char>,
    bundle_index: u32,
    reply: Result<nat, Fault>,
)
    ensures
        reply matches Ok(rows) ==> write_refusal(round_id, bundle_index, reply) == if rows == 1 {
            None
        } else {
            Some(
                ErrorView::Internal(
                    "restoring bundle "@ + decimal(bundle_index as nat) + " of round "@ + round_id
                        + " touched "@ + decimal(rows) + " rows, expected 1"@,
                ),
            )
        },
        reply matches Err(fault) ==> write_refusal(round_id, bundle_index, reply) == Some(
            ErrorView::Internal("failed to restore carved bundle: "@ + fault.message),
        ),
{
    let digits = decimal(bundle_index as nat);
    if let Ok(rows) = reply {
        assert("restoring bundle "@ + (digits + " of round "@ + round_id) + " touched "@ + decimal(
            rows,
        ) + " rows, expected 1"@ =~= "restoring bundle "@ + digits + " of round "@ + round_id
            + " touched "@ + decimal(rows) + " rows, expected 1"@);
    }
}

/// What the contracts say of a request, they say of all of it.
pub proof fn law_requests_are_read_whole(
    round_id: &str,
    wallet_id: &str,
    bundles: &[CarvedBundle],
)
    ensures
        ({
            let job = job_of(round_id, wallet_id, bundles);
            &&& job.round_id == round_id@
            &&& job.wallet_id == wallet_id@
            &&& job.bundles.len() == bundles@.len()
            &&& forall|i: int|
                #![trigger job.bundles[i]]
                #![trigger bundles@[i]]
                0 <= i < bundles@.len() ==> {
                    &&& job.bundles[i].bundle_index == bundles@[i].bundle_index
                    &&& job.bundles[i].van_comm_rand == bundles@[i].van_comm_rand@
                    &&& job.bundles[i].gov_comm == bundles@[i].gov_comm@
                    &&& job.bundles[i].total_note_value == bundles@[i].total_note_value
                    &&& match bundles@[i].delegation_tx_hash {
                        Some(hash) => job.bundles[i].delegation_tx_hash == Some(hash@),
                        None => job.bundles[i].delegation_tx_hash is None,
                    }
                }
        }),
{
}

/// What the contracts say of a result, they say of all of it.
pub proof fn law_results_are_read_whole(result: Result<RestoreOutcome, VotingError>)
    ensures
        match result {
            Ok(outcome) => outcome_view(result) == Ok::<Tally, ErrorView>(
                Tally {
                    restored: outcome.restored as nat,
                    already_present: outcome.already_present as nat,
                },
            ),
            Err(VotingError::InvalidInput { message }) => outcome_view(result) == Err::<
                Tally,
                ErrorView,
            >(ErrorView::InvalidInput(message@)),
            Err(VotingError::Internal { message }) => outcome_view(result) == Err::<
                Tally,
                ErrorView,
            >(ErrorView::Internal(message@)),
        },
{
}

/// What the contracts say of a check or a decision, they say of all of it.
pub proof fn law_decisions_are_read_whole(
    checked: Result<(), VotingError>,
    decision: Result<Disposition, VotingError>,
)
    ensures
        match checked {
            Ok(_) => error_of(checked) is None,
            Err(VotingError::InvalidInput { message }) => error_of(checked) == Some(
                ErrorView::InvalidInput(message@),
            ),
            Err(VotingError::Internal { message }) => error_of(checked) == Some(
                ErrorView::Internal(message@),
            ),
        },
        match decision {
            Ok(disposition) => disposition_view(decision) == Ok::<Disposition, ErrorView>(
                disposition,
            ),
            Err(VotingError::InvalidInput { message }) => disposition_view(decision) == Err::<
                Disposition,
                ErrorView,
            >(ErrorView::InvalidInput(message@)),
            Err(VotingError::Internal { message }) => disposition_view(decision) == Err::<
                Disposition,
                ErrorView,
            >(ErrorView::Internal(message@)),
        },
{
}

/// What the contracts say of an answer, they say of all of it.
pub proof fn law_answers_are_read_whole(
    fault: StoreFault,
    found: bool,
    stored: StoredBundle,
    rows: usize,
    text: &str,
)
    ensures
        fault@.no_rows == fault.no_rows && fault@.message == fault.message@,
        found_view(Ok(found)) == Ok::<bool, Fault>(found),
        found_view(Err(fault)) == Err::<bool, Fault>(fault@),
        stored_view(Ok(stored)) == Ok::<Stored, Fault>(stored@),
        stored_view(Err(fault)) == Err::<Stored, Fault>(fault@),
        changed_view(Ok(rows)) == Ok::<nat, Fault>(rows as nat),
        changed_view(Err(fault)) == Err::<nat, Fault>(fault@),
        match stored.van_comm_rand {
            Some(secret) => stored@.van_comm_rand == Some(secret@),
            None => stored@.van_comm_rand is None,
        },
        match stored.delegation_tx_hash {
            Some(hash) => stored@.delegation_tx_hash == Some(hash@),
            None => stored@.delegation_tx_hash is None,
        },
        str_view(Some(text)) == Some(text@),
        str_view(None) is None,
{
}

/// A session logs an exchange after those before it, and stays on its connection.
pub proof fn law_sessions_log_in_order(session: SessionView, exchange: Exchange)
    ensures
        session.logged(exchange).connection == session.connection,
        session.logged(exchange).log == session.log.push(exchange),
{
}

/// How many reads a log holds.
pub open spec fn reads_in(log: Seq<Exchange>) -> nat {
    log.filter(|exchange: Exchange| exchange is Read).len()
}

/// How many writes a log holds.
pub open spec fn writes_in(log: Seq<Exchange>) -> nat {
    log.filter(|exchange: Exchange| exchange is Write).len()
}

/// What is bound for a weight: the signed number of the same 64 bits.
pub open spec fn signed(weight: u64) -> int {
    if weight <= i64::MAX {
        weight as int
    } else {
        weight - 0x1_0000_0000_0000_0000
    }
}

/// The lookup of a round.
pub open spec fn asks_for_round(
    request: Request,
    round_id: Seq<char>,
    wallet_id: Seq<char>,
) -> bool {
    &&& request.sql
        == "SELECT EXISTS(SELECT 1 FROM rounds\n                           WHERE round_id = :round_id AND wallet_id = :wallet_id)"@
    &&& request.params == seq![Cell::Text(round_id), Cell::Text(wallet_id)]
}

/// The read of a row.
pub open spec fn asks_for_row(
    request: Request,
    round_id: Seq<char>,
    wallet_id: Seq<char>,
    bundle_index: u32,
) -> bool {
    &&& request.sql
        == "SELECT van_comm_rand, delegation_tx_hash FROM bundles\n                 WHERE round_id = :round_id AND wallet_id = :wallet_id\n                   AND bundle_index = :bundle_index"@
    &&& request.params == seq![
        Cell::Text(round_id),
        Cell::Text(wallet_id),
        Cell::Integer(bundle_index as int),
    ]
}

/// The write of a carved bundle over a row.
pub open spec fn writes_row(
    request: Request,
    round_id: Seq<char>,
    wallet_id: Seq<char>,
    bundle: Carved,
) -> bool {
    &&& request.sql == bundle_write_sql()
    &&& request.params == seq![
        Cell::Blob(bundle.van_comm_rand),
        Cell::Blob(bundle.gov_comm),
        Cell::Integer(signed(bundle.total_note_value)),
        match bundle.delegation_tx_hash {
            Some(hash) => Cell::Text(hash),
            None => Cell::Null,
        },
        Cell::Text(round_id),
        Cell::Text(wallet_id),
        Cell::Integer(bundle.bundle_index as int),
    ]
}

pub(crate) proof fn lemma_signed(weight: u64)
    ensures
        weight as i64 == signed(weight),
{
    if weight <= i64::MAX {
        assert(weight as i64 == weight) by (bit_vector)
            requires
                weight <= 0x7fff_ffff_ffff_ffff,
        ;
    } else {
        assert(weight as i64 == weight - 0x1_0000_0000_0000_0000) by (bit_vector)
            requires
                weight > 0x7fff_ffff_ffff_ffff,
        ;
    }
}

proof fn lemma_requests(job: Job, bundle: Carved)
    ensures
        asks_for_round(job.lookup_request(), job.round_id, job.wallet_id),
        asks_for_row(
            job.read_request(bundle),
            job.round_id,
            job.wallet_id,
            bundle.bundle_index,
        ),
        writes_row(job.write_request(bundle), job.round_id, job.wallet_id, bundle),
{
    lemma_signed(bundle.total_note_value);
    assert(job.write_request(bundle).params =~= seq![
        Cell::Blob(bundle.van_comm_rand),
        Cell::Blob(bundle.gov_comm),
        Cell::Integer(signed(bundle.total_note_value)),
        match bundle.delegation_tx_hash {
            Some(hash) => Cell::Text(hash),
            None => Cell::Null,
        },
        Cell::Text(job.round_id),
        Cell::Text(job.wallet_id),
        Cell::Integer(bundle.bundle_index as int),
    ]);
}

/// The exchange at a place in a log of a job is the one that is called for there,
/// and it leads to where the job stands next.
proof fn lemma_step(job: Job, log: Seq<Exchange>, k: int)
    requires
        job.follows(log),
        0 <= k < log.len(),
    ensures
        job.follows(log.take(k)),
        job.asks(job.after(log.take(k)), log[k]),
        job.after(log.take(k + 1)) == job.advance(job.after(log.take(k)), log[k]),
        k + 1 == log.len() ==> log.take(k + 1) == log,
    decreases log.len(),
{
    let shorter = log.drop_last();
    if k < log.len() - 1 {
        lemma_step(job, shorter, k);
        assert(shorter.take(k) =~= log.take(k));
        assert(shorter.take(k + 1) =~= log.take(k + 1));
        assert(shorter[k] == log[k]);
    } else {
        assert(log.take(k) =~= shorter);
        assert(log.take(k + 1) =~= log);
    }
}

/// What a job waits for, told by the reads and writes so far.
proof fn lemma_counts(job: Job, log: Seq<Exchange>)
    requires
        job.follows(log),
    ensures
        ({
            let progress = job.after(log);
            &&& progress.phase is LookingUp ==> log.len() == 0 && reads_in(log) == 0
                && progress.current == 0
            &&& progress.phase is Reading ==> reads_in(log) == progress.current
            &&& progress.phase is Writing ==> reads_in(log) == progress.current + 1
            &&& progress.phase matches Phase::Done(Ok(_)) ==> reads_in(log) == progress.current
            &&& !(progress.phase matches Phase::Done(Err(_))) ==> writes_in(log)
                == progress.tally.restored
        }),
    decreases log.len(),
{
    reveal(Seq::filter);
    if log.len() > 0 {
        lemma_counts(job, log.drop_last());
        lemma_tally_is_complete(job, log.drop_last());
    }
}

/// A list that is refused leads to no statement. Any other restore begins with
/// one lookup, of the round and wallet that were asked for, and goes on only
/// where the answer is that the round is there.
pub proof fn law_the_round_comes_first(
    job: Job,
    log: Seq<Exchange>,
    result: Result<Tally, ErrorView>,
)
    requires
        job.concludes(log, result),
    ensures
        job.bundles.len() == 0 ==> log.len() == 0 && result == Err::<Tally, ErrorView>(
            ErrorView::InvalidInput("no carved bundles to restore"@),
        ),
        (exists|i: int, j: int|
            0 <= i < j < job.bundles.len() && (#[trigger] job.bundles[i]).bundle_index == (
            #[trigger] job.bundles[j]).bundle_index) ==> log.len() == 0 && result == Err::<
            Tally,
            ErrorView,
        >(ErrorView::InvalidInput("carved bundles contain a duplicate bundle_index"@)),
        job.bundles.len() > 0 && (forall|i: int, j: int|
            0 <= i < j < job.bundles.len() ==> (#[trigger] job.bundles[i]).bundle_index != (
            #[trigger] job.bundles[j]).bundle_index) ==> {
            &&& log.len() > 0
            &&& log[0] is Lookup
            &&& asks_for_round(log[0]->Lookup_request, job.round_id, job.wallet_id)
            &&& match log[0]->Lookup_found {
                Ok(true) => log.len() > 1 && log[1] is Read,
                Ok(false) => log.len() == 1 && result == Err::<Tally, ErrorView>(
                    ErrorView::InvalidInput(
                        "round "@ + job.round_id
                            + " does not exist for this wallet; restore does not create rounds"@,
                    ),
                ),
                Err(fault) => log.len() == 1 && result == Err::<Tally, ErrorView>(
                    ErrorView::Internal("failed to look up round: "@ + fault.message),
                ),
            }
        },
        forall|k: int| 0 < k < log.len() ==> !(#[trigger] log[k] is Lookup),
{
    assert(log.take(0) =~= Seq::empty());
    law_lists_that_are_refused(job.bundles);
    if log.len() > 0 {
        lemma_step(job, log, 0);
        lemma_requests(job, job.bundles[0]);
        if log.len() > 1 {
            lemma_step(job, log, 1);
        }
    }
    assert forall|k: int| 0 < k < log.len() implies !(#[trigger] log[k] is Lookup) by {
        lemma_step(job, log, k);
        lemma_counts(job, log.take(k));
    }
}

/// Each read is of the row of the next bundle, and its answer says what comes of
/// it. A row with the carved secret is passed over. A row with another secret
/// that another transaction broadcast ends the restore, and so does a row that is
/// not there or cannot be read. Every other row is written next, with the carved
/// values.
pub proof fn law_reads_decide(
    job: Job,
    log: Seq<Exchange>,
    result: Result<Tally, ErrorView>,
    k: int,
)
    requires
        job.concludes(log, result),
        0 <= k < log.len(),
        log[k] is Read,
    ensures
        reads_in(log.take(k)) < job.bundles.len(),
        ({
            let bundle = job.bundles[reads_in(log.take(k)) as int];
            &&& asks_for_row(
                log[k]->Read_request,
                job.round_id,
                job.wallet_id,
                bundle.bundle_index,
            )
            &&& match log[k]->Read_stored {
                Ok(stored) => {
                    let secret = stored.van_comm_rand;
                    let hash = stored.delegation_tx_hash;
                    if secret == Some(bundle.van_comm_rand) {
                        if k + 1 < log.len() {
                            log[k + 1] is Read
                        } else {
                            result is Ok
                        }
                    } else if secret is Some && hash is Some && hash != bundle.delegation_tx_hash {
                        k + 1 == log.len() && result == Err::<Tally, ErrorView>(
                            ErrorView::InvalidInput(
                                "bundle "@ + decimal(bundle.bundle_index as nat) + " of round "@
                                    + job.round_id
                                    + " holds a different delegation that was already broadcast (tx "@
                                    + hash->0 + "); refusing to overwrite it"@,
                            ),
                        )
                    } else {
                        &&& k + 1 < log.len()
                        &&& log[k + 1] is Write
                        &&& writes_row(
                            log[k + 1]->Write_request,
                            job.round_id,
                            job.wallet_id,
                            bundle,
                        )
                    }
                },
                Err(fault) => k + 1 == log.len() && result == Err::<Tally, ErrorView>(
                    if fault.no_rows {
                        ErrorView::InvalidInput(
                            "bundle "@ + decimal(bundle.bundle_index as nat) + " of round "@
                                + job.round_id
                                + " does not exist; restore does not create bundles"@,
                        )
                    } else {
                        ErrorView::Internal("failed to read bundle: "@ + fault.message)
                    },
                ),
            }
        }),
{
    let bundle = job.bundles[job.after(log.take(k)).current as int];
    lemma_step(job, log, k);
    lemma_counts(job, log.take(k));
    lemma_tally_is_complete(job, log.take(k));
    lemma_requests(job, bundle);
    law_answers_to_a_read(job.round_id, bundle, log[k]->Read_stored);
    if k + 1 < log.len() {
        lemma_step(job, log, k + 1);
    }
}

/// Each write comes right after a read, must have changed one row, and ends the
/// restore where it did not.
pub proof fn law_writes_change_one_row(
    job: Job,
    log: Seq<Exchange>,
    result: Result<Tally, ErrorView>,
    k: int,
)
    requires
        job.concludes(log, result),
        0 <= k < log.len(),
        log[k] is Write,
    ensures
        k > 0 && log[k - 1] is Read,
        reads_in(log.take(k - 1)) < job.bundles.len(),
        ({
            let bundle = job.bundles[reads_in(log.take(k - 1)) as int];
            &&& writes_row(log[k]->Write_request, job.round_id, job.wallet_id, bundle)
            &&& match log[k]->Write_touched {
                Ok(rows) => if rows == 1 {
                    if k + 1 < log.len() {
                        log[k + 1] is Read
                    } else {
                        result is Ok
                    }
                } else {
                    k + 1 == log.len() && result == Err::<Tally, ErrorView>(
                        ErrorView::Internal(
                            "restoring bundle "@ + decimal(bundle.bundle_index as nat)
                                + " of round "@ + job.round_id + " touched "@ + decimal(rows)
                                + " rows, expected 1"@,
                        ),
                    )
                },
                Err(fault) => k + 1 == log.len() && result == Err::<Tally, ErrorView>(
                    ErrorView::Internal("failed to restore carved bundle: "@ + fault.message),
                ),
            }
        }),
{
    let progress = job.after(log.take(k));
    lemma_step(job, log, k);
    assert(log.take(0) =~= Seq::empty());
    lemma_step(job, log, k - 1);
    lemma_counts(job, log.take(k - 1));
    lemma_tally_is_complete(job, log.take(k - 1));
    let bundle = job.bundles[progress.current as int];
    lemma_requests(job, bundle);
    law_answers_to_a_write(job.round_id, bundle.bundle_index, log[k]->Write_touched);
    if k + 1 < log.len() {
        lemma_step(job, log, k + 1);
    }
}

/// Success is reported where every bundle's row was read. It counts as restored
/// as many bundles as there were writes, and as present all the others.
pub proof fn law_success_counts_the_statements(job: Job, log: Seq<Exchange>, tally: Tally)
    requires
        job.concludes(log, Ok(tally)),
    ensures
        reads_in(log) == job.bundles.len(),
        tally.restored == writes_in(log),
        tally.restored + tally.already_present == job.bundles.len(),
{
    lemma_counts(job, log);
    lemma_tally_is_complete(job, log);
}

/// The log shows that the row of a bundle was read and held the carved secret,
/// or that the carved values were written over it and one row changed.
pub open spec fn row_has_carved_secret(
    log: Seq<Exchange>,
    round_id: Seq<char>,
    wallet_id: Seq<char>,
    bundle: Carved,
) -> bool {
    exists|k: int|
        0 <= k < log.len() && match #[trigger] log[k] {
            Exchange::Lookup { .. } => false,
            Exchange::Read { request, stored } => {
                &&& asks_for_row(request, round_id, wallet_id, bundle.bundle_index)
                &&& stored is Ok
                &&& stored->Ok_0.van_comm_rand == Some(bundle.van_comm_rand)
            },
            Exchange::Write { request, touched } => {
                &&& writes_row(request, round_id, wallet_id, bundle)
                &&& touched == Ok::<nat, Fault>(1)
            },
        }
}

/// A restore answers for the statements that went through its session. On a new
/// session, it reports a missing round exactly where the lookup found none,
/// and success only where the lookup found the round and each bundle's row was
/// read and held the carved secret or was written with it. The counts are those
/// of the writes, and of the bundles that needed none.
pub proof fn law_restore_answers_for_its_statements(
    before: Session,
    round_id: &str,
    wallet_id: &str,
    bundles: &[CarvedBundle],
    after: Session,
    result: Result<RestoreOutcome, VotingError>,
)
    requires
        before@.log.len() == 0,
        call_ensures(restore_on, (before, round_id, wallet_id, bundles), (after, result)),
    ensures
        after@.connection == before@.connection,
        ({
            let log = after@.log;
            &&& bundles@.len() == 0 ==> log.len() == 0 && (result matches Err(
                VotingError::InvalidInput { message },
            ) && message@ == "no carved bundles to restore"@)
            &&& (exists|i: int, j: int|
                0 <= i < j < bundles@.len() && (#[trigger] bundles@[i]).bundle_index == (
                #[trigger] bundles@[j]).bundle_index) ==> log.len() == 0 && (result matches Err(
                VotingError::InvalidInput { message },
            ) && message@ == "carved bundles contain a duplicate bundle_index"@)
            &&& log.len() == 0 ==> result is Err
            &&& log.len() > 0 ==> {
                &&& log[0] is Lookup
                &&& asks_for_round(log[0]->Lookup_request, round_id@, wallet_id@)
                &&& match log[0]->Lookup_found {
                    Ok(true) => true,
                    Ok(false) => log.len() == 1 && (result matches Err(
                        VotingError::InvalidInput { message },
                    ) && message@ == "round "@ + round_id@
                        + " does not exist for this wallet; restore does not create rounds"@),
                    Err(fault) => log.len() == 1 && (result matches Err(
                        VotingError::Internal { message },
                    ) && message@ == "failed to look up round: "@ + fault.message),
                }
            }
            &&& result matches Ok(outcome) ==> {
                &&& log.len() > 0
                &&& log[0]->Lookup_found == Ok::<bool, Fault>(true)
                &&& outcome.restored == writes_in(log)
                &&& outcome.already_present == bundles@.len() - writes_in(log)
                &&& forall|i: int|
                    0 <= i < bundles@.len() ==> row_has_carved_secret(
                        log,
                        round_id@,
                        wallet_id@,
                        (#[trigger] bundles@[i])@,
                    )
            }
        }),
{
    let job = job_of(round_id, wallet_id, bundles);
    let log = after@.log;
    assert(log.skip(0) =~= log);
    law_the_round_comes_first(job, log, outcome_view(result));
    if exists|i: int, j: int|
        0 <= i < j < bundles@.len() && (#[trigger] bundles@[i]).bundle_index == (
        #[trigger] bundles@[j]).bundle_index {
        let (i, j) = choose|i: int, j: int|
            0 <= i < j < bundles@.len() && (#[trigger] bundles@[i]).bundle_index == (
            #[trigger] bundles@[j]).bundle_index;
        assert(job.bundles[i].bundle_index == job.bundles[j].bundle_index);
    }
    if let Ok(outcome) = result {
        law_success_counts_the_statements(job, log, outcome@);
        assert forall|i: int| 0 <= i < bundles@.len() implies row_has_carved_secret(
            log,
            round_id@,
            wallet_id@,
            (#[trigger] bundles@[i])@,
        ) by {
            assert(job.bundles[i] == bundles@[i]@);
            law_success_accounts_for_every_bundle(job, log, outcome@, i);
            let k = choose|k: int|
                0 <= k < log.len() && #[trigger] accounts(job, log[k], job.bundles[i]);
            lemma_requests(job, job.bundles[i]);
        }
    }
}

/// On a database that answers, a restore on a new session does what it is for. It
/// succeeds exactly where there are bundles, no two of them have one index, the
/// wallet has the round, and each bundle has a row that is not of another
/// broadcast delegation. Every such row then has the carved secret, and the rows
/// that changed are as many as are counted as restored.
pub proof fn law_restore_puts_carved_secrets_back(
    t: Tables,
    before: Session,
    round_id: &str,
    wallet_id: &str,
    bundles: &[CarvedBundle],
    after: Session,
    result: Result<RestoreOutcome, VotingError>,
)
    requires
        before@.log.len() == 0,
        call_ensures(restore_on, (before, round_id, wallet_id, bundles), (after, result)),
        t.well_formed(),
        t.serves(after@.log),
    ensures
        ({
            let now = t.after(after@.log);
            let key = |bundle: CarvedBundle|
                BundleKey {
                    round_id: round_id@,
                    wallet_id: wallet_id@,
                    bundle_index: bundle.bundle_index as int,
                };
            &&& result is Ok <==> {
                &&& bundles@.len() > 0
                &&& forall|i: int, j: int|
                    0 <= i < j < bundles@.len() ==> (#[trigger] bundles@[i]).bundle_index != (
                    #[trigger] bundles@[j]).bundle_index
                &&& t.rounds.contains((round_id@, wallet_id@))
                &&& forall|i: int|
                    0 <= i < bundles@.len() ==> {
                        &&& t.bundles.contains_key(key(#[trigger] bundles@[i]))
                        &&& !row_is_of_another(t.bundles[key(bundles@[i])], bundles@[i]@)
                    }
            }
            &&& result matches Ok(outcome) ==> {
                &&& forall|i: int|
                    0 <= i < bundles@.len() ==> now.bundles[key(
                        #[trigger] bundles@[i],
                    )].cells[BundleColumn::VanCommRand] == Cell::Blob(bundles@[i].van_comm_rand@)
                &&& outcome.restored == carved_views(bundles@).filter(
                    |bundle: Carved|
                        now.bundles[named_row(job_of(round_id, wallet_id, bundles), bundle)]
                            != t.bundles[named_row(job_of(round_id, wallet_id, bundles), bundle)],
                ).len()
                &&& outcome.restored + outcome.already_present == bundles@.len()
            }
            &&& forall|i: int|
                0 <= i < bundles@.len() && t.bundles.contains_key(key(#[trigger] bundles@[i]))
                    && row_is_of_another(t.bundles[key(bundles@[i])], bundles@[i]@)
                    ==> now.bundles[key(bundles@[i])] == t.bundles[key(bundles@[i])]
        }),
{
    let job = job_of(round_id, wallet_id, bundles);
    let log = after@.log;
    assert(log.skip(0) =~= log);
    assert(t.serves(log.skip(before@.log.len() as int)));
    let now = t.after(log);
    assert(now == t.settled(job));
    law_where_restores_succeed(t, job);
    assert forall|i: int| #![trigger bundles@[i]] 0 <= i < bundles@.len() implies job.bundles[i]
        == bundles@[i]@ by {}
    if result is Ok {
        assert forall|i: int| #![trigger bundles@[i]] 0 <= i < bundles@.len() implies {
            &&& t.bundles.contains_key(named_row(job, bundles@[i]@))
            &&& now.bundles[named_row(job, bundles@[i]@)].cells[BundleColumn::VanCommRand]
                == Cell::Blob(bundles@[i].van_comm_rand@)
        } by {
            assert(job.bundles[i] == bundles@[i]@);
            law_rows_after_success(t, job, i);
        }
        assert forall|i: int, j: int| 0 <= i < j < bundles@.len() implies (
        #[trigger] bundles@[i]).bundle_index != (#[trigger] bundles@[j]).bundle_index by {
            assert(job.bundles[i].bundle_index != job.bundles[j].bundle_index);
        }
        law_success_counts_the_rows(t, job, result->Ok_0@);
    }
    assert forall|i: int|
        0 <= i < bundles@.len() && t.bundles.contains_key(
            named_row(job, (#[trigger] bundles@[i])@),
        ) && row_is_of_another(t.bundles[named_row(job, bundles@[i]@)], bundles@[i]@) implies {
        now.bundles[named_row(job, bundles@[i]@)] == t.bundles[named_row(job, bundles@[i]@)]
    } by {
        assert(job.bundles[i] == bundles@[i]@);
        law_rows_of_others_are_kept(t, job, i);
    }
}

} // verus!
