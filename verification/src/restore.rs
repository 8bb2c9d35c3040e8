//! Restoring carved delegation state over the bundles of a round.
//!
//! A restore is a protocol with the database: one lookup of the round, then for
//! each bundle a read and, where the row does not hold the carved secret yet, a
//! write. [`Job`] says which statement comes next and what is concluded, given
//! the answers so far, whatever they are.

use rusqlite::Connection;
use std::collections::HashSet;
use vstd::prelude::*;

use crate::carved::{
    carved_views, distinct_indices, Carved, CarvedBundle, RestoreOutcome, Tally,
};
use crate::error::{error_of, internal, invalid, ErrorView, VotingError};
use crate::laws::law_restore_on_tables;
use crate::sql::{
    bundle_read_sql, bundle_read_text, bundle_write_sql, bundle_write_text, round_lookup_sql,
    round_lookup_text,
};
use crate::store::{
    changed_view, found_view, stored_view, text_cell, Cell, Exchange, Fault, Request, Session, SessionView,
    StoreFault, Stored, StoredBundle,
};
use crate::tables::Tables;
use crate::text::{decimal, decimal_text};

verus! {

broadcast use vstd::std_specs::hash::group_hash_axioms;

/// What is to be done about a bundle whose row can be restored.
#[derive(Debug, Clone, Copy, PartialEq, Eq, Structural)]
pub enum Disposition {
    /// The row holds the carved secret already. It is left alone entirely,
    /// with whatever confirmation state it has accumulated since.
    AlreadyPresent,
    /// The row is to be overwritten.
    Overwrite,
}

/// How the messages name a bundle, after the word "bundle".
pub open spec fn bundle_label(round_id: Seq<char>, bundle_index: u32) -> Seq<char> {
    decimal(bundle_index as nat) + " of round "@ + round_id
}

/// A request that names no bundle.
pub open spec fn nothing_to_restore() -> ErrorView {
    ErrorView::InvalidInput("no carved bundles to restore"@)
}

/// A request that names a bundle twice.
pub open spec fn duplicate_bundle() -> ErrorView {
    ErrorView::InvalidInput("carved bundles contain a duplicate bundle_index"@)
}

/// The round could not be looked up.
pub open spec fn lookup_failed(message: Seq<char>) -> ErrorView {
    ErrorView::Internal("failed to look up round: "@ + message)
}

/// There is no such round.
pub open spec fn round_missing(round_id: Seq<char>) -> ErrorView {
    ErrorView::InvalidInput(
        "round "@ + round_id
            + " does not exist for this wallet; restore does not create rounds"@,
    )
}

/// There is no such bundle.
pub open spec fn bundle_missing(round_id: Seq<char>, bundle_index: u32) -> ErrorView {
    ErrorView::InvalidInput(
        "bundle "@ + bundle_label(round_id, bundle_index)
            + " does not exist; restore does not create bundles"@,
    )
}

/// The bundle's row could not be read.
pub open spec fn read_failed(message: Seq<char>) -> ErrorView {
    ErrorView::Internal("failed to read bundle: "@ + message)
}

/// The row holds another delegation, which was broadcast by transaction `hash`.
pub open spec fn other_delegation(
    round_id: Seq<char>,
    bundle_index: u32,
    hash: Seq<char>,
) -> ErrorView {
    ErrorView::InvalidInput(
        "bundle "@ + bundle_label(round_id, bundle_index)
            + " holds a different delegation that was already broadcast (tx "@ + hash
            + "); refusing to overwrite it"@,
    )
}

/// The bundle's row could not be overwritten.
pub open spec fn write_failed(message: Seq<char>) -> ErrorView {
    ErrorView::Internal("failed to restore carved bundle: "@ + message)
}

/// The write touched another number of rows than one.
pub open spec fn wrong_row_count(
    round_id: Seq<char>,
    bundle_index: u32,
    rows: nat,
) -> ErrorView {
    ErrorView::Internal(
        "restoring bundle "@ + bundle_label(round_id, bundle_index) + " touched "@ + decimal(rows)
            + " rows, expected 1"@,
    )
}

/// The row holds the carved secret.
pub open spec fn holds_carved_secret(stored: Stored, bundle: Carved) -> bool {
    stored.van_comm_rand == Some(bundle.van_comm_rand)
}

/// The row holds another secret, and a transaction other than the carved one
/// broadcast it: a second delegation, not a rebuild of this one.
pub open spec fn holds_other_broadcast(stored: Stored, bundle: Carved) -> bool {
    &&& stored.van_comm_rand is Some
    &&& stored.van_comm_rand != Some(bundle.van_comm_rand)
    &&& stored.delegation_tx_hash is Some
    &&& stored.delegation_tx_hash != bundle.delegation_tx_hash
}

/// Why a list of bundles is refused before the database is asked anything.
pub open spec fn bundles_refusal(bundles: Seq<Carved>) -> Option<ErrorView> {
    if bundles.len() == 0 {
        Some(nothing_to_restore())
    } else if !distinct_indices(bundles) {
        Some(duplicate_bundle())
    } else {
        None
    }
}

/// Why a restore ends at the answer to the round lookup.
pub open spec fn round_refusal(round_id: Seq<char>, reply: Result<bool, Fault>) -> Option<
    ErrorView,
> {
    match reply {
        Err(fault) => Some(lookup_failed(fault.message)),
        Ok(found) => if found {
            None
        } else {
            Some(round_missing(round_id))
        },
    }
}

/// What the answer to a bundle read calls for.
pub open spec fn disposition(
    round_id: Seq<char>,
    bundle: Carved,
    reply: Result<Stored, Fault>,
) -> Result<Disposition, ErrorView> {
    match reply {
        Err(fault) => if fault.no_rows {
            Err(bundle_missing(round_id, bundle.bundle_index))
        } else {
            Err(read_failed(fault.message))
        },
        Ok(stored) => if holds_carved_secret(stored, bundle) {
            Ok(Disposition::AlreadyPresent)
        } else if holds_other_broadcast(stored, bundle) {
            Err(
                other_delegation(
                    round_id,
                    bundle.bundle_index,
                    stored.delegation_tx_hash->0,
                ),
            )
        } else {
            Ok(Disposition::Overwrite)
        },
    }
}

/// Why a restore ends at the answer to a bundle write.
pub open spec fn write_refusal(
    round_id: Seq<char>,
    bundle_index: u32,
    reply: Result<nat, Fault>,
) -> Option<ErrorView> {
    match reply {
        Err(fault) => Some(write_failed(fault.message)),
        Ok(rows) => if rows == 1 {
            None
        } else {
            Some(wrong_row_count(round_id, bundle_index, rows))
        },
    }
}

/// A restore that is asked for.
pub ghost struct Job {
    pub round_id: Seq<char>,
    pub wallet_id: Seq<char>,
    pub bundles: Seq<Carved>,
}

/// What a restore waits for.
pub ghost enum Phase {
    /// The answer to the round lookup.
    LookingUp,
    /// The answer to the read of the current bundle.
    Reading,
    /// The answer to the write of the current bundle.
    Writing,
    /// Nothing: this is the result.
    Done(Result<Tally, ErrorView>),
}

/// How far a restore has come.
pub ghost struct Progress {
    /// The current bundle's place in the job.
    pub current: nat,
    /// What was done about the bundles before it.
    pub tally: Tally,
    pub phase: Phase,
}

impl Job {
    /// The lookup of the round.
    pub open spec fn lookup_request(self) -> Request {
        Request {
            sql: round_lookup_sql(),
            params: seq![Cell::Text(self.round_id), Cell::Text(self.wallet_id)],
        }
    }

    /// The read of a bundle.
    pub open spec fn read_request(self, bundle: Carved) -> Request {
        Request {
            sql: bundle_read_sql(),
            params: seq![
                Cell::Text(self.round_id),
                Cell::Text(self.wallet_id),
                Cell::Integer(bundle.bundle_index as int),
            ],
        }
    }

    /// The write of a bundle. SQLite's integers are signed, so the weight is
    /// bound as the signed number of the same 64 bits.
    pub open spec fn write_request(self, bundle: Carved) -> Request {
        Request {
            sql: bundle_write_sql(),
            params: seq![
                Cell::Blob(bundle.van_comm_rand),
                Cell::Blob(bundle.gov_comm),
                Cell::Integer(bundle.total_note_value as i64 as int),
                text_cell(bundle.delegation_tx_hash),
                Cell::Text(self.round_id),
                Cell::Text(self.wallet_id),
                Cell::Integer(bundle.bundle_index as int),
            ],
        }
    }

    /// Where a restore starts.
    pub open spec fn start(self) -> Progress {
        Progress {
            current: 0,
            tally: Tally { restored: 0, already_present: 0 },
            phase: match bundles_refusal(self.bundles) {
                Some(error) => Phase::Done(Err(error)),
                None => Phase::LookingUp,
            },
        }
    }

    /// Ends with an error.
    pub open spec fn refuse(self, progress: Progress, error: ErrorView) -> Progress {
        Progress { phase: Phase::Done(Err(error)), ..progress }
    }

    /// Turns to the bundle at `current`, or ends where there is none.
    pub open spec fn turn_to(self, current: nat, tally: Tally) -> Progress {
        Progress {
            current,
            tally,
            phase: if current < self.bundles.len() {
                Phase::Reading
            } else {
                Phase::Done(Ok(tally))
            },
        }
    }

    /// The exchange is the one that comes next, whatever its answer.
    pub open spec fn asks(self, progress: Progress, exchange: Exchange) -> bool {
        let bundle = self.bundles[progress.current as int];
        match (progress.phase, exchange) {
            (Phase::LookingUp, Exchange::Lookup { request, .. }) => request
                == self.lookup_request(),
            (Phase::Reading, Exchange::Read { request, .. }) => request == self.read_request(
                bundle,
            ),
            (Phase::Writing, Exchange::Write { request, .. }) => request == self.write_request(
                bundle,
            ),
            _ => false,
        }
    }

    /// What the answer of an exchange leads to. One that was not asked for leads
    /// nowhere.
    pub open spec fn advance(self, progress: Progress, exchange: Exchange) -> Progress {
        let bundle = self.bundles[progress.current as int];
        let tally = progress.tally;
        match (progress.phase, exchange) {
            (Phase::LookingUp, Exchange::Lookup { found, .. }) => match round_refusal(
                self.round_id,
                found,
            ) {
                Some(error) => self.refuse(progress, error),
                None => self.turn_to(progress.current, tally),
            },
            (Phase::Reading, Exchange::Read { stored, .. }) => match disposition(
                self.round_id,
                bundle,
                stored,
            ) {
                Err(error) => self.refuse(progress, error),
                Ok(Disposition::AlreadyPresent) => self.turn_to(
                    progress.current + 1,
                    Tally { already_present: tally.already_present + 1, ..tally },
                ),
                Ok(Disposition::Overwrite) => Progress { phase: Phase::Writing, ..progress },
            },
            (Phase::Writing, Exchange::Write { touched, .. }) => match write_refusal(
                self.round_id,
                bundle.bundle_index,
                touched,
            ) {
                Some(error) => self.refuse(progress, error),
                None => self.turn_to(
                    progress.current + 1,
                    Tally { restored: tally.restored + 1, ..tally },
                ),
            },
            _ => progress,
        }
    }

    /// How far a restore has come after the exchanges of a log.
    pub open spec fn after(self, log: Seq<Exchange>) -> Progress
        decreases log.len(),
    {
        if log.len() == 0 {
            self.start()
        } else {
            self.advance(self.after(log.drop_last()), log.last())
        }
    }

    /// Each statement of the log is the one that the answers before it call for.
    pub open spec fn follows(self, log: Seq<Exchange>) -> bool
        decreases log.len(),
    {
        log.len() == 0 || {
            &&& self.follows(log.drop_last())
            &&& self.asks(self.after(log.drop_last()), log.last())
        }
    }

    /// The log is that of this restore, from its start to this result.
    pub open spec fn concludes(self, log: Seq<Exchange>, result: Result<Tally, ErrorView>) -> bool {
        &&& self.follows(log)
        &&& self.after(log).phase == Phase::Done(result)
    }
}

/// Adds the exchange that a session has just logged to the log of a restore that
/// started after `earlier`.
proof fn lemma_logged(job: Job, earlier: Seq<Exchange>, log: Seq<Exchange>, logged: Seq<Exchange>)
    -> (longer: Seq<Exchange>)
    requires
        job.follows(log),
        logged.len() > 0,
        logged.drop_last() == earlier + log,
        job.asks(job.after(log), logged.last()),
    ensures
        longer == log.push(logged.last()),
        logged == earlier + longer,
        logged.skip(earlier.len() as int) == longer,
        job.follows(longer),
        job.after(longer) == job.advance(job.after(log), logged.last()),
{
    let longer = log.push(logged.last());
    assert(longer.drop_last() =~= log);
    assert(logged =~= logged.drop_last().push(logged.last()));
    assert(logged =~= earlier + longer);
    assert(logged.skip(earlier.len() as int) =~= longer);
    longer
}

/// A job that is refused at the start asks nothing.
proof fn lemma_refused_jobs_ask_nothing(job: Job, log: Seq<Exchange>)
    requires
        job.follows(log),
        job.start().phase is Done,
    ensures
        log.len() == 0,
    decreases log.len(),
{
    if log.len() > 0 {
        lemma_refused_jobs_ask_nothing(job, log.drop_last());
    }
}

/// The tally counts the bundles before the current one, and all of them at the
/// end.
pub(crate) proof fn lemma_tally_is_complete(job: Job, log: Seq<Exchange>)
    requires
        job.follows(log),
    ensures
        ({
            let progress = job.after(log);
            &&& progress.tally.restored + progress.tally.already_present == progress.current
            &&& progress.current <= job.bundles.len()
            &&& progress.phase is Reading || progress.phase is Writing ==> progress.current
                < job.bundles.len()
            &&& progress.phase matches Phase::Done(Ok(tally)) ==> tally == progress.tally
                && progress.current == job.bundles.len()
        }),
    decreases log.len(),
{
    if log.len() > 0 {
        lemma_tally_is_complete(job, log.drop_last());
    }
}

/// A result as the contracts speak of it.
pub open spec fn outcome_view(result: Result<RestoreOutcome, VotingError>) -> Result<
    Tally,
    ErrorView,
> {
    match result {
        Ok(outcome) => Ok(outcome@),
        Err(error) => Err(error@),
    }
}

/// A disposition as the contracts speak of it.
pub open spec fn disposition_view(result: Result<Disposition, VotingError>) -> Result<
    Disposition,
    ErrorView,
> {
    match result {
        Ok(disposition) => Ok(disposition),
        Err(error) => Err(error@),
    }
}

/// The job that the arguments of a restore ask for.
pub open spec fn job_of(round_id: &str, wallet_id: &str, bundles: &[CarvedBundle]) -> Job {
    Job { round_id: round_id@, wallet_id: wallet_id@, bundles: carved_views(bundles@) }
}

/// The counts of an outcome can hold the number of bundles. Bundles that name
/// different rows can be one more than such a count holds.
pub open spec fn countable(bundles: &[CarvedBundle]) -> bool {
    distinct_indices(carved_views(bundles@)) ==> bundles@.len() <= u32::MAX
}

fn label_text(prefix: &str, bundle_index: u32, round_id: &str) -> (text: String)
    ensures
        text@ == prefix@ + bundle_label(round_id@, bundle_index),
{
    let digits = decimal_text(bundle_index as u64);
    let mut text = prefix.to_owned();
    text.append(digits.as_str());
    text.append(" of round ");
    text.append(round_id);
    assert(text@ =~= prefix@ + bundle_label(round_id@, bundle_index));
    text
}

fn same_bytes(left: &[u8], right: &[u8]) -> (same: bool)
    ensures
        same == (left@ == right@),
{
    if left.len() != right.len() {
        return false;
    }
    let mut i: usize = 0;
    while i < left.len()
        invariant
            i <= left@.len(),
            left@.len() == right@.len(),
            forall|j: int| 0 <= j < i ==> left@[j] == right@[j],
        decreases left@.len() - i,
    {
        if left[i] != right[i] {
            return false;
        }
        i += 1;
    }
    assert(left@ =~= right@);
    true
}

/// Checks a list of bundles before the database is asked anything. A list that
/// names one bundle twice leaves open which secret wins, so it is refused
/// rather than resolved by its order.
pub fn check_bundles(bundles: &[CarvedBundle]) -> (checked: Result<(), VotingError>)
    ensures
        error_of(checked) == bundles_refusal(carved_views(bundles@)),
{
    let ghost carved = carved_views(bundles@);
    if bundles.len() == 0 {
        return Err(invalid("no carved bundles to restore".to_owned()));
    }
    let mut seen: HashSet<u32> = HashSet::new();
    let mut i: usize = 0;
    while i < bundles.len()
        invariant
            i <= bundles@.len(),
            bundles@.len() > 0,
            carved == carved_views(bundles@),
            forall|index: u32| #[trigger]
                seen@.contains(index) <==> exists|j: int|
                    0 <= j < i && carved[j].bundle_index == index,
            distinct_indices(carved.take(i as int)),
        decreases bundles@.len() - i,
    {
        let index: u32 = bundles[i].bundle_index;
        assert(carved[i as int].bundle_index == index);
        let ghost before = seen@;
        if !seen.insert(index) {
            assert(before.contains(index));
            return Err(invalid("carved bundles contain a duplicate bundle_index".to_owned()));
        }
        assert(!before.contains(index));
        assert(seen@ =~= before.insert(index));
        i += 1;
    }
    assert(carved.take(i as int) =~= carved);
    Ok(())
}

/// Checks the answer to the round lookup.
pub fn check_round(round_id: &str, reply: Result<bool, StoreFault>) -> (checked: Result<
    (),
    VotingError,
>)
    ensures
        error_of(checked) == round_refusal(round_id@, found_view(reply)),
{
    match reply {
        Err(fault) => {
            let mut message = "failed to look up round: ".to_owned();
            message.append(fault.message.as_str());
            Err(internal(message))
        },
        Ok(found) => {
            if found {
                Ok(())
            } else {
                let mut message = "round ".to_owned();
                message.append(round_id);
                message.append(" does not exist for this wallet; restore does not create rounds");
                Err(invalid(message))
            }
        },
    }
}

/// Decides what the answer to a bundle read calls for.
pub fn decide(
    round_id: &str,
    bundle: &CarvedBundle,
    reply: Result<StoredBundle, StoreFault>,
) -> (decision: Result<Disposition, VotingError>)
    ensures
        disposition_view(decision) == disposition(round_id@, bundle@, stored_view(reply)),
{
    let stored = match reply {
        Err(fault) => {
            if fault.no_rows {
                let mut message = label_text("bundle ", bundle.bundle_index, round_id);
                message.append(" does not exist; restore does not create bundles");
                return Err(invalid(message));
            }
            let mut message = "failed to read bundle: ".to_owned();
            message.append(fault.message.as_str());
            return Err(internal(message));
        },
        Ok(stored) => stored,
    };
    let secret = match &stored.van_comm_rand {
        None => {
            return Ok(Disposition::Overwrite);
        },
        Some(secret) => secret,
    };
    if same_bytes(secret.as_slice(), bundle.van_comm_rand.as_slice()) {
        return Ok(Disposition::AlreadyPresent);
    }
    let hash = match &stored.delegation_tx_hash {
        None => {
            return Ok(Disposition::Overwrite);
        },
        Some(hash) => hash,
    };
    let same_tx = match &bundle.delegation_tx_hash {
        None => false,
        Some(carved_hash) => *carved_hash == *hash,
    };
    if same_tx {
        return Ok(Disposition::Overwrite);
    }
    let mut message = label_text("bundle ", bundle.bundle_index, round_id);
    message.append(" holds a different delegation that was already broadcast (tx ");
    message.append(hash.as_str());
    message.append("); refusing to overwrite it");
    Err(invalid(message))
}

/// Checks the answer to a bundle write: one row, the one that was read, must
/// have changed.
pub fn check_write(round_id: &str, bundle_index: u32, reply: Result<usize, StoreFault>) -> (checked:
    Result<(), VotingError>)
    ensures
        error_of(checked) == write_refusal(round_id@, bundle_index, changed_view(reply)),
{
    match reply {
        Err(fault) => {
            let mut message = "failed to restore carved bundle: ".to_owned();
            message.append(fault.message.as_str());
            Err(internal(message))
        },
        Ok(rows) => {
            if rows == 1 {
                Ok(())
            } else {
                let digits = decimal_text(rows as u64);
                let mut message = label_text("restoring bundle ", bundle_index, round_id);
                message.append(" touched ");
                message.append(digits.as_str());
                message.append(" rows, expected 1");
                Err(internal(message))
            }
        },
    }
}

/// Runs the statements of a restore, each in answer to what came back before it.
fn run_job(
    session: &mut Session,
    round_id: &str,
    wallet_id: &str,
    bundles: &[CarvedBundle],
) -> (result: Result<RestoreOutcome, VotingError>)
    requires
        countable(bundles),
    ensures
        final(session)@.connection == old(session)@.connection,
        old(session)@.log.is_prefix_of(final(session)@.log),
        job_of(round_id, wallet_id, bundles).concludes(
            final(session)@.log.skip(old(session)@.log.len() as int),
            outcome_view(result),
        ),
{
    let ghost job = job_of(round_id, wallet_id, bundles);
    let ghost earlier = session@.log;
    let ghost mut log: Seq<Exchange> = Seq::empty();
    assert(session@.log.skip(earlier.len() as int) =~= log);

    match check_bundles(bundles) {
        Err(error) => {
            return Err(error);
        },
        Ok(()) => {},
    }

    let reply = session.query_flag(round_lookup_text(), round_id, wallet_id);
    proof {
        assert(session@.log.drop_last() =~= earlier + log);
        log = lemma_logged(job, earlier, log, session@.log);
    }
    match check_round(round_id, reply) {
        Err(error) => {
            return Err(error);
        },
        Ok(()) => {},
    }

    let write_sql = bundle_write_text();
    let mut outcome = RestoreOutcome { restored: 0, already_present: 0 };
    let mut i: usize = 0;
    while i < bundles.len()
        invariant
            i <= bundles@.len(),
            bundles@.len() <= u32::MAX,
            job == job_of(round_id, wallet_id, bundles),
            write_sql@ == bundle_write_sql(),
            outcome.restored + outcome.already_present == i,
            session@.connection == old(session)@.connection,
            session@.log == earlier + log,
            session@.log.skip(earlier.len() as int) == log,
            job.follows(log),
            job.after(log) == job.turn_to(i as nat, outcome@),
            earlier == old(session)@.log,
        decreases bundles@.len() - i,
    {
        let bundle = &bundles[i];
        let ghost carved = bundle@;
        assert(job.bundles[i as int] == carved);

        let reply = session.query_stored(
            bundle_read_text(),
            round_id,
            wallet_id,
            bundle.bundle_index as i64,
        );
        proof {
            assert(session@.log.drop_last() =~= earlier + log);
            log = lemma_logged(job, earlier, log, session@.log);
        }
        let decision = match decide(round_id, bundle, reply) {
            Err(error) => {
                return Err(error);
            },
            Ok(decision) => decision,
        };
        if decision == Disposition::AlreadyPresent {
            outcome.already_present = outcome.already_present + 1;
            i += 1;
            continue;
        }

        let tx_hash = match &bundle.delegation_tx_hash {
            Some(hash) => Some(hash.as_str()),
            None => None,
        };
        let reply = session.execute(
            write_sql.as_str(),
            bundle.van_comm_rand.as_slice(),
            bundle.gov_comm.as_slice(),
            #[verifier::truncate]
            (bundle.total_note_value as i64),
            tx_hash,
            round_id,
            wallet_id,
            bundle.bundle_index as i64,
        );
        proof {
            assert(session@.log.drop_last() =~= earlier + log);
            log = lemma_logged(job, earlier, log, session@.log);
        }
        match check_write(round_id, bundle.bundle_index, reply) {
            Err(error) => {
                return Err(error);
            },
            Ok(()) => {},
        }
        outcome.restored = outcome.restored + 1;
        i += 1;
    }
    Ok(outcome)
}

/// Restores carved delegation state through a session.
///
/// The session keeps its connection. Its log grows by exactly the statements that
/// the job calls for, each in answer to what came back before it, and the result is the one
/// that those answers lead to. Where the answers are those that some tables
/// give, the result and what becomes of the tables depend on the tables alone.
pub fn restore_in_session(
    session: &mut Session,
    round_id: &str,
    wallet_id: &str,
    bundles: &[CarvedBundle],
) -> (result: Result<RestoreOutcome, VotingError>)
    requires
        countable(bundles),
    ensures
        final(session)@.connection == old(session)@.connection,
        old(session)@.log.is_prefix_of(final(session)@.log),
        job_of(round_id, wallet_id, bundles).concludes(
            final(session)@.log.skip(old(session)@.log.len() as int),
            outcome_view(result),
        ),
        forall|t: Tables| #[trigger]
            t.serves(final(session)@.log.skip(old(session)@.log.len() as int)) && t.well_formed() ==> {
                &&& outcome_view(result) == t.outcome(job_of(round_id, wallet_id, bundles))
                &&& t.after(final(session)@.log.skip(old(session)@.log.len() as int)) == t.settled(
                    job_of(round_id, wallet_id, bundles),
                )
            },
{
    let ghost earlier = session@.log;
    let result = run_job(session, round_id, wallet_id, bundles);
    proof {
        let log = session@.log.skip(earlier.len() as int);
        let job = job_of(round_id, wallet_id, bundles);
        assert forall|t: Tables| #[trigger] t.serves(log) && t.well_formed() implies {
            &&& outcome_view(result) == t.outcome(job)
            &&& t.after(log) == t.settled(job)
        } by {
            law_restore_on_tables(t, job, log, outcome_view(result));
        }
    }
    result
}

/// Restores carved delegation state through a session, and hands the session
/// back, with what [`restore_in_session`] says of its log and of the result.
pub fn restore_on<'a>(
    session: Session<'a>,
    round_id: &str,
    wallet_id: &str,
    bundles: &[CarvedBundle],
) -> (done: (Session<'a>, Result<RestoreOutcome, VotingError>))
    requires
        countable(bundles),
    ensures
        done.0@.connection == session@.connection,
        session@.log.is_prefix_of(done.0@.log),
        job_of(round_id, wallet_id, bundles).concludes(
            done.0@.log.skip(session@.log.len() as int),
            outcome_view(done.1),
        ),
        forall|t: Tables| #[trigger]
            t.serves(done.0@.log.skip(session@.log.len() as int)) && t.well_formed() ==> {
                &&& outcome_view(done.1) == t.outcome(job_of(round_id, wallet_id, bundles))
                &&& t.after(done.0@.log.skip(session@.log.len() as int)) == t.settled(
                    job_of(round_id, wallet_id, bundles),
                )
            },
{
    let mut session = session;
    let result = restore_in_session(&mut session, round_id, wallet_id, bundles);
    (session, result)
}

/// Restores carved delegation state over a round's bundles.
///
/// 1. **Atomic**, where the caller supplies the transaction: every bundle or,
///    after an error and a rollback, none.
/// 2. **Idempotent.** A bundle that holds the carved `van_comm_rand` already is
///    counted and skipped.
/// 3. **Never destroys a different delegation.** A bundle that holds a different
///    secret and a `delegation_tx_hash` of its own is a second broadcast, not a
///    rebuild. Choosing between two broadcast delegations is not decided here.
/// 4. **Clears the superseded generation.** The columns that describe the
///    rebuilt delegation are set to NULL, so no row ever mixes two generations.
/// 5. **Does not invent confirmation state.** `van_leaf_position` is cleared,
///    not guessed.
/// 6. **Does not create rows.** A round or bundle that is not there is an error.
///
/// What the database answers is not known beforehand. Whatever it answers, the
/// result is one that [`restore_on`] returned for this request on a new session on
/// `conn`: it is concluded from statements that were run there, and from the
/// answers to them. A shared connection keeps no record of what went through it,
/// so nothing is said of other statements.
pub fn restore_carved_delegation(
    conn: &Connection,
    round_id: &str,
    wallet_id: &str,
    bundles: &[CarvedBundle],
) -> (result: Result<RestoreOutcome, VotingError>)
    requires
        countable(bundles),
    ensures
        bundles_refusal(carved_views(bundles@)) matches Some(error) ==> outcome_view(result) == Err::<
            Tally,
            ErrorView,
        >(error),
        result matches Ok(outcome) ==> outcome.restored + outcome.already_present == bundles@.len(),
        exists|log: Seq<Exchange>| #[trigger]
            job_of(round_id, wallet_id, bundles).concludes(log, outcome_view(result)),
        exists|before: Session, after: Session|
            before@ == (SessionView { connection: conn, log: Seq::<Exchange>::empty() })
                && #[trigger] call_ensures(
                restore_on,
                (before, round_id, wallet_id, bundles),
                (after, result),
            ),
{
    let restore = restore_on;
    let session = Session::new(conn);
    let (after, result) = restore(session, round_id, wallet_id, bundles);
    proof {
        assert(call_ensures(restore_on, (session, round_id, wallet_id, bundles), (after, result)));
        let job = job_of(round_id, wallet_id, bundles);
        assert(after@.log.skip(0) =~= after@.log);
        if job.start().phase is Done {
            lemma_refused_jobs_ask_nothing(job, after@.log);
        }
        lemma_tally_is_complete(job, after@.log);
    }
    result
}

} // verus!
