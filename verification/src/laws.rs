//! The laws of a restore, over the tables that it works on.

use vstd::prelude::*;

use crate::carved::{distinct_indices, Carved, Tally};
use crate::conduct::{lemma_signed, signed};
use crate::error::ErrorView;
use crate::restore::{
    bundles_refusal, holds_carved_secret, holds_other_broadcast, lemma_tally_is_complete,
    lookup_failed, read_failed, write_failed, wrong_row_count, Job, Phase, Progress,
};
use crate::sql::{
    generation_columns, lemma_parameter_numbers, restore_assignments, Assignment, BundleColumn,
};
use crate::store::{text_cell, Cell, Exchange, Fault, Stored};
use crate::tables::{cell_text, source_cell, BundleKey, Row, Tables};
use crate::text::decimal;

verus! {

/// The place of a column among the assignments of a restore.
spec fn place(column: BundleColumn) -> int {
    match column {
        BundleColumn::VanCommRand => 0,
        BundleColumn::GovComm => 1,
        BundleColumn::TotalNoteValue => 2,
        BundleColumn::AddressIndex => 3,
        BundleColumn::DelegationTxHash => 4,
        BundleColumn::NotePositionsBlob => 5,
        BundleColumn::NoteIdentityHashesBlob => 6,
        BundleColumn::DummyNullifiers => 7,
        BundleColumn::RhoSigned => 8,
        BundleColumn::PaddedNoteData => 9,
        BundleColumn::NfSigned => 10,
        BundleColumn::CmxNew => 11,
        BundleColumn::Alpha => 12,
        BundleColumn::RseedSigned => 13,
        BundleColumn::RseedOutput => 14,
        BundleColumn::VanLeafPosition => 15,
        BundleColumn::Rk => 16,
        BundleColumn::GovNullifiersBlob => 17,
        BundleColumn::PaddedNoteSecrets => 18,
        BundleColumn::PcztSighash => 19,
        BundleColumn::Tx1Effects => 20,
    }
}

proof fn lemma_places()
    ensures
        restore_assignments().len() == 21,
        forall|i: int|
            0 <= i < 21 ==> place((#[trigger] restore_assignments()[i]).column) == i,
        forall|column: BundleColumn|
            0 <= #[trigger] place(column) < 21
                && restore_assignments()[place(column)].column == column,
{
}

/// An `UPDATE` sets each column that it names once to what its assignment says,
/// and leaves the others.
proof fn lemma_assign(row: Row, list: Seq<Assignment>, params: Seq<Cell>, column: BundleColumn)
    requires
        row.cells.contains_key(column),
        forall|i: int, j: int| 0 <= i < j < list.len() ==> list[i].column != list[j].column,
    ensures
        row.assign(list, params).cells.contains_key(column),
        forall|i: int|
            0 <= i < list.len() && (#[trigger] list[i]).column == column ==> row.assign(
                list,
                params,
            ).cells[column] == source_cell(list[i].source, params),
        (forall|i: int| 0 <= i < list.len() ==> (#[trigger] list[i]).column != column)
            ==> row.assign(list, params).cells[column] == row.cells[column],
    decreases list.len(),
{
    if list.len() > 0 {
        let shorter = list.drop_last();
        lemma_assign(row, shorter, params, column);
        assert(forall|i: int| 0 <= i < shorter.len() ==> shorter[i] == list[i]);
        if list.last().column != column {
            assert forall|i: int|
                0 <= i < list.len() && (#[trigger] list[i]).column == column implies row.assign(
                list,
                params,
            ).cells[column] == source_cell(list[i].source, params) by {
                assert(shorter[i] == list[i]);
            }
        }
    }
}

/// The state in which a restore of `bundle` leaves a row that it overwrites: the
/// carved identity set, and nothing of the superseded generation.
pub open spec fn resting(row: Row, bundle: Carved) -> bool {
    &&& row.well_formed()
    &&& row.cells[BundleColumn::VanCommRand] == Cell::Blob(bundle.van_comm_rand)
    &&& row.cells[BundleColumn::GovComm] == Cell::Blob(bundle.gov_comm)
    &&& row.cells[BundleColumn::TotalNoteValue] == Cell::Integer(
        bundle.total_note_value as i64 as int,
    )
    &&& row.cells[BundleColumn::AddressIndex] == Cell::Integer(0)
    &&& row.cells[BundleColumn::DelegationTxHash] == text_cell(bundle.delegation_tx_hash)
    &&& forall|column: BundleColumn| #[trigger]
        generation_columns().contains(column) ==> row.cells[column] is Null
}

/// Overwriting a row leaves it in the resting state.
proof fn lemma_overwritten(row: Row, job: Job, bundle: Carved)
    requires
        row.well_formed(),
    ensures
        resting(row.overwritten(job, bundle), bundle),
{
    let list = restore_assignments();
    let params = job.write_request(bundle).params;
    let written = row.overwritten(job, bundle);
    lemma_places();
    lemma_parameter_numbers();
    assert forall|column: BundleColumn|
        {
            &&& #[trigger] written.cells.contains_key(column)
            &&& written.cells[column] == source_cell(list[place(column)].source, params)
        } by {
        assert(row.cells.contains_key(column));
        lemma_assign(row, list, params, column);
        assert(list[place(column)].column == column);
    }
    assert(written.cells.contains_key(BundleColumn::VanCommRand));
    assert(written.cells.contains_key(BundleColumn::GovComm));
    assert(written.cells.contains_key(BundleColumn::TotalNoteValue));
    assert(written.cells.contains_key(BundleColumn::AddressIndex));
    assert(written.cells.contains_key(BundleColumn::DelegationTxHash));
    assert forall|column: BundleColumn| #[trigger]
        generation_columns().contains(column) implies written.cells[column] is Null by {
        assert(written.cells.contains_key(column));
        let i = choose|i: int|
            0 <= i < generation_columns().len() && generation_columns()[i] == column;
        assert(list[i + 5].column == column);
        assert(list[i + 5].source is Null);
        assert(place(column) == i + 5);
    }
}

/// Settling the rows of the first bundles changes those rows, each from what it
/// was, and nothing else.
proof fn lemma_settle_first(t: Tables, job: Job, n: nat)
    requires
        t.well_formed(),
        distinct_indices(job.bundles),
        n <= job.bundles.len(),
    ensures
        t.settle_first(job, n).well_formed(),
        t.settle_first(job, n).rounds == t.rounds,
        t.settle_first(job, n).bundles.dom() == t.bundles.dom(),
        forall|i: int|
            0 <= i < n && t.has_bundle(job, #[trigger] job.bundles[i]) ==> t.settle_first(
                job,
                n,
            ).row(job, job.bundles[i]) == t.row(job, job.bundles[i]).settled(job, job.bundles[i]),
        forall|key: BundleKey| #[trigger]
            t.bundles.contains_key(key) && (forall|i: int|
                0 <= i < n ==> key != job.key(#[trigger] job.bundles[i]))
                ==> t.settle_first(job, n).bundles[key] == t.bundles[key],
    decreases n,
{
    if n > 0 {
        let m = (n - 1) as nat;
        let before = t.settle_first(job, m);
        let after = t.settle_first(job, n);
        let bundle = job.bundles[m as int];
        lemma_settle_first(t, job, m);
        assert(forall|i: int| 0 <= i < m ==> job.key(#[trigger] job.bundles[i]) != job.key(bundle));
        assert(before.has_bundle(job, bundle) == t.has_bundle(job, bundle));
        if t.has_bundle(job, bundle) {
            assert(t.bundles.contains_key(job.key(bundle)));
            assert(before.row(job, bundle) == t.row(job, bundle));
            lemma_overwritten(t.row(job, bundle), job, bundle);
        }
        assert(after.bundles.dom() =~= t.bundles.dom());
        assert forall|key: BundleKey| #[trigger]
            after.bundles.contains_key(key) implies after.bundles[key].well_formed() by {
            assert(before.bundles.contains_key(key));
        }
        assert forall|i: int|
            0 <= i < n && t.has_bundle(job, #[trigger] job.bundles[i]) implies after.row(
            job,
            job.bundles[i],
        ) == t.row(job, job.bundles[i]).settled(job, job.bundles[i]) by {
            if i < m {
                assert(job.key(job.bundles[i]) != job.key(bundle));
            }
        }
        assert forall|key: BundleKey| #[trigger]
            t.bundles.contains_key(key) && (forall|i: int|
                0 <= i < n ==> key != job.key(#[trigger] job.bundles[i])) implies after.bundles[key]
            == t.bundles[key] by {
            assert(key != job.key(job.bundles[m as int]));
        }
    }
}

proof fn lemma_first_refused(t: Tables, job: Job, from: nat)
    requires
        from <= job.bundles.len(),
    ensures
        from <= t.first_refused(job, from) <= job.bundles.len(),
        forall|i: int|
            from <= i < t.first_refused(job, from) ==> t.refusal(
                job,
                #[trigger] job.bundles[i],
            ) is None,
        t.first_refused(job, from) < job.bundles.len() ==> t.refusal(
            job,
            job.bundles[t.first_refused(job, from) as int],
        ) is Some,
    decreases job.bundles.len() - from,
{
    if from < job.bundles.len() && t.refusal(job, job.bundles[from as int]) is None {
        lemma_first_refused(t, job, from + 1);
    }
}

proof fn lemma_tally(t: Tables, job: Job, n: nat)
    requires
        n < job.bundles.len(),
    ensures
        t.tally(job, 0) == (Tally { restored: 0, already_present: 0 }),
        t.tally(job, n).already_present <= n,
        ({
            let tally = t.tally(job, n);
            t.tally(job, n + 1) == if t.holds(job, job.bundles[n as int]) {
                Tally { already_present: tally.already_present + 1, ..tally }
            } else {
                Tally { restored: tally.restored + 1, ..tally }
            }
        }),
{
    reveal(Seq::filter);
    let present = |bundle: Carved| t.holds(job, bundle);
    let shorter = job.bundles.take(n as int);
    let longer = job.bundles.take((n + 1) as int);
    assert(longer.drop_last() =~= shorter);
    shorter.lemma_filter_len(present);
    assert(job.bundles.take(0) =~= Seq::empty());
}

/// Where a restore stands, and what it has made of the tables by then.
spec fn on_track(t: Tables, job: Job, progress: Progress, now: Tables) -> bool {
    let bundle = job.bundles[progress.current as int];
    match progress.phase {
        Phase::LookingUp => {
            &&& bundles_refusal(job.bundles) is None
            &&& progress.current == 0
            &&& progress.tally == Tally { restored: 0, already_present: 0 }
            &&& now == t
        },
        Phase::Done(result) => result == t.outcome(job) && now == t.settled(job),
        _ => {
            &&& bundles_refusal(job.bundles) is None
            &&& t.has_round(job)
            &&& progress.current < job.bundles.len()
            &&& forall|i: int|
                0 <= i < progress.current ==> t.refusal(job, #[trigger] job.bundles[i]) is None
            &&& progress.tally == t.tally(job, progress.current)
            &&& now == t.settle_first(job, progress.current)
            &&& progress.phase is Writing ==> t.refusal(job, bundle) is None && !t.holds(
                job,
                bundle,
            )
        },
    }
}

proof fn lemma_turn_to(t: Tables, job: Job, n: nat)
    requires
        t.well_formed(),
        bundles_refusal(job.bundles) is None,
        t.has_round(job),
        n <= job.bundles.len(),
        forall|i: int| 0 <= i < n ==> t.refusal(job, #[trigger] job.bundles[i]) is None,
    ensures
        on_track(t, job, job.turn_to(n, t.tally(job, n)), t.settle_first(job, n)),
{
    if n == job.bundles.len() {
        lemma_first_refused(t, job, 0);
        let refused = t.first_refused(job, 0);
        if refused < n {
            assert(t.refusal(job, job.bundles[refused as int]) is None);
        }
    }
}

/// A restore on tables that answer stays on track.
proof fn lemma_on_track(t: Tables, job: Job, log: Seq<Exchange>)
    requires
        t.well_formed(),
        job.follows(log),
        t.serves(log),
    ensures
        on_track(t, job, job.after(log), t.after(log)),
    decreases log.len(),
{
    if log.len() > 0 {
        let shorter = log.drop_last();
        lemma_on_track(t, job, shorter);
        lemma_parameter_numbers();
        let progress = job.after(shorter);
        let now = t.after(shorter);
        let exchange = log.last();
        let n = progress.current;
        let bundle = job.bundles[n as int];
        lemma_first_refused(t, job, 0);
        match progress.phase {
            Phase::LookingUp => {
                lemma_tally(t, job, 0);
                if t.has_round(job) {
                    lemma_turn_to(t, job, 0);
                }
            },
            Phase::Reading => {
                lemma_settle_first(t, job, n);
                lemma_tally(t, job, n);
                assert(forall|i: int|
                    0 <= i < n ==> job.key(bundle) != job.key(#[trigger] job.bundles[i]));
                assert(now.has_bundle(job, bundle) == t.has_bundle(job, bundle));
                if t.has_bundle(job, bundle) {
                    assert(t.bundles.contains_key(job.key(bundle)));
                    assert(now.row(job, bundle) == t.row(job, bundle));
                }
                if t.refusal(job, bundle) is Some {
                    let refused = t.first_refused(job, 0);
                    if refused < n {
                        assert(t.refusal(job, job.bundles[refused as int]) is None);
                    }
                    assert(refused == n);
                } else if t.holds(job, bundle) {
                    assert(t.settle_first(job, n + 1) =~= now);
                    lemma_turn_to(t, job, n + 1);
                }
            },
            Phase::Writing => {
                lemma_settle_first(t, job, n);
                lemma_tally(t, job, n);
                assert(forall|i: int|
                    0 <= i < n ==> job.key(bundle) != job.key(#[trigger] job.bundles[i]));
                assert(t.bundles.contains_key(job.key(bundle)));
                assert(now.row(job, bundle) == t.row(job, bundle));
                assert(now.apply(exchange) =~= t.settle_first(job, n + 1));
                lemma_turn_to(t, job, n + 1);
            },
            Phase::Done(_) => {},
        }
    }
}

/// What a restore returns and what it leaves behind depend on the tables alone:
/// whenever a log of it was served by them, its result is [`Tables::outcome`]
/// and the tables after it are [`Tables::settled`].
pub proof fn law_restore_on_tables(
    t: Tables,
    job: Job,
    log: Seq<Exchange>,
    result: Result<Tally, ErrorView>,
)
    requires
        t.well_formed(),
        t.serves(log),
        job.concludes(log, result),
    ensures
        result == t.outcome(job),
        t.after(log) == t.settled(job),
{
    lemma_on_track(t, job, log);
}

/// A restored row holds the carved secret.
proof fn lemma_settled_row_holds(row: Row, job: Job, bundle: Carved)
    requires
        row.well_formed(),
    ensures
        row.settled(job, bundle).well_formed(),
        holds_carved_secret(row.settled(job, bundle).stored(), bundle),
{
    lemma_overwritten(row, job, bundle);
}

proof fn lemma_nothing_restored(t: Tables, job: Job, n: nat)
    requires
        n <= job.bundles.len(),
    ensures
        t.tally(job, n).restored + t.tally(job, n).already_present == n,
        t.tally(job, n).restored == 0 <==> forall|i: int|
            0 <= i < n ==> t.holds(job, #[trigger] job.bundles[i]),
    decreases n,
{
    if n > 0 {
        lemma_nothing_restored(t, job, (n - 1) as nat);
        lemma_tally(t, job, (n - 1) as nat);
    } else if job.bundles.len() > 0 {
        lemma_tally(t, job, 0);
    } else {
        assert(job.bundles.take(0) =~= Seq::empty());
        reveal(Seq::filter);
    }
}

proof fn lemma_settling_again(t: Tables, job: Job, n: nat)
    requires
        n <= job.bundles.len(),
        forall|i: int| 0 <= i < n ==> t.holds(job, #[trigger] job.bundles[i]),
    ensures
        t.settle_first(job, n) == t,
    decreases n,
{
    if n > 0 {
        lemma_settling_again(t, job, (n - 1) as nat);
        assert(t.holds(job, job.bundles[n - 1]));
        assert(t.settle_first(job, n) =~= t);
    }
}

/// The restore can succeed: it names bundles, none twice, of a round that
/// exists, each with a row that does not hold another broadcast delegation.
pub open spec fn admissible(t: Tables, job: Job) -> bool {
    &&& job.bundles.len() > 0
    &&& distinct_indices(job.bundles)
    &&& t.has_round(job)
    &&& forall|i: int|
        #![trigger job.bundles[i]]
        0 <= i < job.bundles.len() ==> t.has_bundle(job, job.bundles[i]) && !holds_other_broadcast(
            t.row(job, job.bundles[i]).stored(),
            job.bundles[i],
        )
}

/// A restore succeeds exactly where it is admissible, and then counts every
/// bundle once.
pub proof fn law_success(t: Tables, job: Job)
    ensures
        t.outcome(job) is Ok <==> admissible(t, job),
        t.outcome(job) matches Ok(tally) ==> tally.restored + tally.already_present
            == job.bundles.len(),
{
    lemma_first_refused(t, job, 0);
    lemma_nothing_restored(t, job, job.bundles.len());
    let refused = t.first_refused(job, 0);
    if t.outcome(job) is Ok {
        assert forall|i: int| #![trigger job.bundles[i]] 0 <= i < job.bundles.len() implies {
            &&& t.has_bundle(job, job.bundles[i])
            &&& !holds_other_broadcast(t.row(job, job.bundles[i]).stored(), job.bundles[i])
        } by {
            assert(t.refusal(job, job.bundles[i]) is None);
        }
    }
    if admissible(t, job) && refused < job.bundles.len() {
        assert(t.has_bundle(job, job.bundles[refused as int]));
    }
}

/// The rows of these tables that no bundle of the job names are the same in
/// others.
pub open spec fn other_rows_kept(t: Tables, job: Job, later: Tables) -> bool {
    forall|key: BundleKey| #[trigger]
        t.bundles.contains_key(key) && (forall|i: int|
            0 <= i < job.bundles.len() ==> key != job.key(#[trigger] job.bundles[i]))
            ==> later.bundles[key] == t.bundles[key]
}

/// Whatever a database answers, and wherever a restore ends: no row is created or
/// removed, no round is touched, and a row that the job does not name stays as it
/// is.
pub proof fn law_only_named_rows_change(t: Tables, job: Job, log: Seq<Exchange>)
    requires
        job.follows(log),
    ensures
        t.after(log).rounds == t.rounds,
        t.after(log).bundles.dom() == t.bundles.dom(),
        other_rows_kept(t, job, t.after(log)),
    decreases log.len(),
{
    if log.len() > 0 {
        let shorter = log.drop_last();
        law_only_named_rows_change(t, job, shorter);
        lemma_tally_is_complete(job, shorter);
        lemma_parameter_numbers();
        let now = t.after(shorter);
        assert(now.apply(log.last()).bundles.dom() =~= now.bundles.dom());
        assert(log.last() matches Exchange::Write { request, .. } ==> {
            let bundle = job.bundles[job.after(shorter).current as int];
            request == job.write_request(bundle)
        });
    }
}

/// Whatever a database answers, and wherever a restore ends, no row mixes two
/// generations: each is as it was, or at rest with the identity of a bundle that
/// names it and nothing of the generation before.
pub proof fn law_no_row_mixes_generations(t: Tables, job: Job, log: Seq<Exchange>, key: BundleKey)
    requires
        t.well_formed(),
        t.bundles.contains_key(key),
        job.follows(log),
    ensures
        t.after(log).bundles[key] == t.bundles[key] || exists|i: int|
            #![trigger job.bundles[i]]
            0 <= i < job.bundles.len() && key == job.key(job.bundles[i]) && resting(
                t.after(log).bundles[key],
                job.bundles[i],
            ),
    decreases log.len(),
{
    if log.len() > 0 {
        let shorter = log.drop_last();
        let now = t.after(shorter);
        law_no_row_mixes_generations(t, job, shorter, key);
        law_only_named_rows_change(t, job, shorter);
        lemma_tally_is_complete(job, shorter);
        lemma_parameter_numbers();
        if log.last() is Write {
            let bundle = job.bundles[job.after(shorter).current as int];
            assert(t.bundles[key].well_formed());
            assert(now.bundles[key].well_formed());
            lemma_overwritten(now.bundles[key], job, bundle);
        }
    }
}

/// What a restore leaves behind on tables that answer has the rounds and rows of
/// before, each row well formed, and the rows that the job does not name as they
/// were. A request that is refused before its first bundle is read changes
/// nothing at all.
pub proof fn law_settled_tables_keep_other_rows(t: Tables, job: Job)
    requires
        t.well_formed(),
    ensures
        t.settled(job).well_formed(),
        t.settled(job).rounds == t.rounds,
        t.settled(job).bundles.dom() == t.bundles.dom(),
        other_rows_kept(t, job, t.settled(job)),
        job.bundles.len() == 0 || !distinct_indices(job.bundles) || !t.has_round(job) ==> t.settled(
            job,
        ) == t && t.outcome(job) is Err,
{
    if bundles_refusal(job.bundles) is None && t.has_round(job) {
        lemma_first_refused(t, job, 0);
        lemma_settle_first(t, job, t.first_refused(job, 0));
    }
}

/// A row that changes held neither the carved secret nor another broadcast
/// delegation, and it comes to rest with the identity of the one bundle that
/// names it and nothing of the generation before: no row mixes two generations.
/// Where the chain confirmed it is left open, not guessed.
pub proof fn law_changed_rows_come_to_rest(t: Tables, job: Job, key: BundleKey)
    requires
        t.well_formed(),
        t.bundles.contains_key(key),
        t.settled(job).bundles[key] != t.bundles[key],
    ensures
        exists|i: int|
            #![trigger job.bundles[i]]
            0 <= i < job.bundles.len() && key == job.key(job.bundles[i]) && resting(
                t.settled(job).bundles[key],
                job.bundles[i],
            ) && !holds_carved_secret(t.bundles[key].stored(), job.bundles[i])
                && !holds_other_broadcast(t.bundles[key].stored(), job.bundles[i]),
        t.settled(job).bundles[key].cells[BundleColumn::VanLeafPosition] is Null,
{
    let n = t.first_refused(job, 0);
    lemma_first_refused(t, job, 0);
    lemma_settle_first(t, job, n);
    let i = choose|i: int| 0 <= i < n && key == job.key(#[trigger] job.bundles[i]);
    let bundle = job.bundles[i];
    assert(t.has_bundle(job, bundle));
    assert(t.refusal(job, bundle) is None);
    assert(t.settled(job).row(job, bundle) == t.row(job, bundle).settled(job, bundle));
    lemma_overwritten(t.row(job, bundle), job, bundle);
    assert(generation_columns()[10] == BundleColumn::VanLeafPosition);
    assert(generation_columns().contains(BundleColumn::VanLeafPosition));
}

/// A row that holds the carved secret is left alone entirely, with whatever
/// confirmation state it has accumulated.
pub proof fn law_present_rows_are_left_alone(t: Tables, job: Job, i: int)
    requires
        t.well_formed(),
        0 <= i < job.bundles.len(),
        t.holds(job, job.bundles[i]),
    ensures
        t.settled(job).row(job, job.bundles[i]) == t.row(job, job.bundles[i]),
{
    let key = job.key(job.bundles[i]);
    if t.settled(job).bundles[key] != t.bundles[key] {
        law_changed_rows_come_to_rest(t, job, key);
        let j = choose|j: int|
            #![trigger job.bundles[j]]
            0 <= j < job.bundles.len() && key == job.key(job.bundles[j]) && !holds_carved_secret(
                t.bundles[key].stored(),
                job.bundles[j],
            );
        assert(bundles_refusal(job.bundles) is None);
        if i < j {
            assert(job.bundles[i].bundle_index != job.bundles[j].bundle_index);
        } else if j < i {
            assert(job.bundles[j].bundle_index != job.bundles[i].bundle_index);
        }
    }
}

/// A delegation that another transaction broadcast is never destroyed: the
/// restore fails, and the row stays as it is.
pub proof fn law_other_broadcasts_are_kept(t: Tables, job: Job, i: int)
    requires
        t.well_formed(),
        0 <= i < job.bundles.len(),
        t.has_bundle(job, job.bundles[i]),
        holds_other_broadcast(t.row(job, job.bundles[i]).stored(), job.bundles[i]),
    ensures
        t.outcome(job) is Err,
        t.settled(job).row(job, job.bundles[i]) == t.row(job, job.bundles[i]),
{
    law_success(t, job);
    let key = job.key(job.bundles[i]);
    if t.settled(job).bundles[key] != t.bundles[key] {
        law_changed_rows_come_to_rest(t, job, key);
        let j = choose|j: int|
            #![trigger job.bundles[j]]
            0 <= j < job.bundles.len() && key == job.key(job.bundles[j]) && !holds_other_broadcast(
                t.bundles[key].stored(),
                job.bundles[j],
            );
        assert(bundles_refusal(job.bundles) is None);
        if i < j {
            assert(job.bundles[i].bundle_index != job.bundles[j].bundle_index);
        } else if j < i {
            assert(job.bundles[j].bundle_index != job.bundles[i].bundle_index);
        }
    }
}

/// A restore that succeeds leaves every bundle's row with its carved secret.
pub proof fn law_success_restores_every_bundle(t: Tables, job: Job)
    requires
        t.well_formed(),
        t.outcome(job) is Ok,
    ensures
        forall|i: int|
            0 <= i < job.bundles.len() ==> t.settled(job).holds(job, #[trigger] job.bundles[i]),
{
    law_success(t, job);
    lemma_first_refused(t, job, 0);
    lemma_settle_first(t, job, job.bundles.len());
    assert forall|i: int| 0 <= i < job.bundles.len() implies t.settled(job).holds(
        job,
        #[trigger] job.bundles[i],
    ) by {
        assert(t.has_bundle(job, job.bundles[i]));
        lemma_settled_row_holds(t.row(job, job.bundles[i]), job, job.bundles[i]);
    }
}

/// What a transaction around a restore keeps, where the caller commits after
/// success and rolls back after an error.
pub open spec fn kept(t: Tables, log: Seq<Exchange>, result: Result<Tally, ErrorView>) -> Tables {
    if result is Ok {
        t.after(log)
    } else {
        t
    }
}

/// Every bundle or none: within a transaction, a restore that returns success
/// has left every bundle's row with its carved secret and every other row as it
/// was, and one that returns an error, be it a refusal or a fault of the
/// database, leaves the tables as they were.
pub proof fn law_every_bundle_or_none(
    t: Tables,
    job: Job,
    log: Seq<Exchange>,
    result: Result<Tally, ErrorView>,
)
    requires
        t.well_formed(),
        job.concludes(log, result),
    ensures
        result is Ok && t.serves(log) ==> {
            &&& kept(t, log, result) == t.settled(job)
            &&& forall|i: int|
                0 <= i < job.bundles.len() ==> kept(t, log, result).holds(
                    job,
                    #[trigger] job.bundles[i],
                )
        },
        other_rows_kept(t, job, kept(t, log, result)),
        result is Err ==> kept(t, log, result) == t,
{
    law_only_named_rows_change(t, job, log);
    if result is Ok && t.serves(log) {
        law_restore_on_tables(t, job, log, result);
        law_success_restores_every_bundle(t, job);
    }
}

/// The database failed to answer, or a write touched no row.
pub open spec fn faulted(exchange: Exchange) -> bool {
    match exchange {
        Exchange::Lookup { found, .. } => found is Err,
        Exchange::Read { stored, .. } => stored is Err && !stored->Err_0.no_rows,
        Exchange::Write { touched, .. } => touched is Err || touched->Ok_0 == 0,
    }
}

/// The error that such an answer leads to, at a bundle of this index.
pub open spec fn fault_error(job: Job, bundle_index: u32, exchange: Exchange) -> ErrorView {
    match exchange {
        Exchange::Lookup { found, .. } => lookup_failed(found->Err_0.message),
        Exchange::Read { stored, .. } => read_failed(stored->Err_0.message),
        Exchange::Write { touched, .. } => match touched {
            Err(fault) => write_failed(fault.message),
            Ok(rows) => wrong_row_count(job.round_id, bundle_index, rows),
        },
    }
}

/// A restore on tables that answer until the database fails ends there, with an
/// internal error that tells the failure. None of the bundles before the current
/// one was refused, their rows are settled, and every other row is as it was.
pub proof fn law_fault_ends_restore(
    t: Tables,
    job: Job,
    log: Seq<Exchange>,
    result: Result<Tally, ErrorView>,
)
    requires
        t.well_formed(),
        job.concludes(log, result),
        log.len() > 0,
        t.serves(log.drop_last()),
        faulted(log.last()),
    ensures
        ({
            let current = job.after(log).current;
            &&& current < job.bundles.len()
            &&& result == Err::<Tally, ErrorView>(
                fault_error(job, job.bundles[current as int].bundle_index, log.last()),
            )
            &&& result->Err_0 is Internal
            &&& t.after(log) == t.settle_first(job, current)
            &&& forall|i: int|
                0 <= i < current ==> {
                    &&& t.refusal(job, #[trigger] job.bundles[i]) is None
                    &&& t.after(log).row(job, job.bundles[i]) == t.row(
                        job,
                        job.bundles[i],
                    ).settled(job, job.bundles[i])
                }
            &&& forall|key: BundleKey| #[trigger]
                t.bundles.contains_key(key) && (forall|i: int|
                    0 <= i < current ==> key != job.key(#[trigger] job.bundles[i]))
                    ==> t.after(log).bundles[key] == t.bundles[key]
        }),
{
    lemma_on_track(t, job, log.drop_last());
    lemma_settle_first(t, job, job.after(log).current);
}

/// Whatever a database answers, success accounts for every bundle: its row was
/// read and held the carved secret, or it was written and one row changed.
pub proof fn law_success_accounts_for_every_bundle(
    job: Job,
    log: Seq<Exchange>,
    tally: Tally,
    i: int,
)
    requires
        job.concludes(log, Ok(tally)),
        0 <= i < job.bundles.len(),
    ensures
        accounted(job, log, job.bundles[i]),
{
    lemma_tally_is_complete(job, log);
    lemma_accounted(job, log, i);
}

/// The log shows that the bundle's row held the carved secret, or was written.
pub open spec fn accounted(job: Job, log: Seq<Exchange>, bundle: Carved) -> bool {
    exists|k: int| 0 <= k < log.len() && #[trigger] accounts(job, log[k], bundle)
}

/// The exchange shows that the bundle's row held the carved secret, or that it
/// was written and one row changed.
pub open spec fn accounts(job: Job, exchange: Exchange, bundle: Carved) -> bool {
    match exchange {
        Exchange::Read { request, stored: Ok(stored) } => request == job.read_request(bundle)
            && holds_carved_secret(stored, bundle),
        Exchange::Write { request, touched: Ok(rows) } => request == job.write_request(bundle)
            && rows == 1,
        _ => false,
    }
}

proof fn lemma_accounted(job: Job, log: Seq<Exchange>, i: int)
    requires
        job.follows(log),
        0 <= i < job.after(log).current,
    ensures
        accounted(job, log, job.bundles[i]),
    decreases log.len(),
{
    let shorter = log.drop_last();
    if i < job.after(shorter).current {
        lemma_accounted(job, shorter, i);
        let k = choose|k: int|
            0 <= k < shorter.len() && #[trigger] accounts(job, shorter[k], job.bundles[i]);
        assert(accounts(job, log[k], job.bundles[i]));
    } else {
        assert(accounts(job, log[log.len() - 1], job.bundles[i]));
    }
}

/// A restore that succeeded is a no-op when it is run again: it finds every
/// bundle present, and changes nothing.
pub proof fn law_idempotent(t: Tables, job: Job)
    requires
        t.well_formed(),
        t.outcome(job) is Ok,
    ensures
        t.settled(job).outcome(job) == Ok::<Tally, ErrorView>(
            Tally { restored: 0, already_present: job.bundles.len() },
        ),
        t.settled(job).settled(job) == t.settled(job),
{
    let again = t.settled(job);
    law_success(t, job);
    law_settled_tables_keep_other_rows(t, job);
    law_success_restores_every_bundle(t, job);
    assert(admissible(again, job)) by {
        assert forall|i: int| #![trigger job.bundles[i]] 0 <= i < job.bundles.len() implies {
            &&& again.has_bundle(job, job.bundles[i])
            &&& !holds_other_broadcast(again.row(job, job.bundles[i]).stored(), job.bundles[i])
        } by {
            assert(again.holds(job, job.bundles[i]));
        }
    }
    law_success(again, job);
    lemma_first_refused(again, job, 0);
    lemma_nothing_restored(again, job, job.bundles.len());
    lemma_settling_again(again, job, again.first_refused(job, 0));
}

/// A restore that failed, and whose writes were kept, fails the same way when it
/// is run again, and changes nothing more.
pub proof fn law_failure_repeats(t: Tables, job: Job)
    requires
        t.well_formed(),
        t.outcome(job) is Err,
    ensures
        t.settled(job).outcome(job) == t.outcome(job),
        t.settled(job).settled(job) == t.settled(job),
{
    if bundles_refusal(job.bundles) is None && t.has_round(job) {
        let again = t.settled(job);
        let n = t.first_refused(job, 0);
        let bundle = job.bundles[n as int];
        lemma_first_refused(t, job, 0);
        lemma_settle_first(t, job, n);
        assert forall|i: int| 0 <= i < n implies {
            &&& again.holds(job, #[trigger] job.bundles[i])
            &&& again.refusal(job, job.bundles[i]) is None
        } by {
            assert(t.refusal(job, job.bundles[i]) is None);
            assert(t.has_bundle(job, job.bundles[i]));
            lemma_settled_row_holds(t.row(job, job.bundles[i]), job, job.bundles[i]);
        }
        assert(again.refusal(job, bundle) == t.refusal(job, bundle)) by {
            assert(forall|i: int|
                0 <= i < n ==> job.key(bundle) != job.key(#[trigger] job.bundles[i]));
            assert(again.has_bundle(job, bundle) == t.has_bundle(job, bundle));
            if t.has_bundle(job, bundle) {
                assert(t.bundles.contains_key(job.key(bundle)));
            }
        }
        lemma_first_refused(again, job, 0);
        assert(again.first_refused(job, 0) == n) by {
            let refused = again.first_refused(job, 0);
            if refused < n {
                assert(again.refusal(job, job.bundles[refused as int]) is None);
            }
        }
        lemma_settling_again(again, job, n);
    }
}

/// A restore that succeeds reports that it did nothing exactly where it left the
/// database unchanged.
pub proof fn law_noop_means_unchanged(t: Tables, job: Job)
    requires
        t.well_formed(),
    ensures
        t.outcome(job) matches Ok(tally) ==> (tally.restored == 0 <==> t.settled(job) == t),
{
    if t.outcome(job) is Ok {
        lemma_first_refused(t, job, 0);
        lemma_nothing_restored(t, job, job.bundles.len());
        law_success_restores_every_bundle(t, job);
        if t.tally(job, job.bundles.len()).restored == 0 {
            lemma_settling_again(t, job, t.first_refused(job, 0));
        }
    }
}

/// A weight loses nothing when it is stored as a signed number: read back as an
/// unsigned one, it is the weight again.
pub proof fn law_weight_survives_storage(weight: u64)
    ensures
        (weight as i64) as u64 == weight,
{
    assert((weight as i64) as u64 == weight) by (bit_vector);
}

/// How many answers a restore can still wait for, at most.
spec fn remaining(job: Job, progress: Progress) -> int {
    match progress.phase {
        Phase::LookingUp => (2 * job.bundles.len() + 1) as int,
        Phase::Reading => 2 * (job.bundles.len() - progress.current),
        Phase::Writing => 2 * (job.bundles.len() - progress.current) - 1,
        Phase::Done(_) => 0,
    }
}

/// The exchange that comes next on tables that answer.
spec fn served_exchange(t: Tables, job: Job, progress: Progress) -> Exchange {
    let bundle = job.bundles[progress.current as int];
    match progress.phase {
        Phase::LookingUp => Exchange::Lookup {
            request: job.lookup_request(),
            found: Ok(t.has_round(job)),
        },
        Phase::Reading => Exchange::Read {
            request: job.read_request(bundle),
            stored: if t.has_bundle(job, bundle) {
                Ok(t.row(job, bundle).stored())
            } else {
                Err(Fault { no_rows: true, message: Seq::empty() })
            },
        },
        _ => Exchange::Write {
            request: job.write_request(bundle),
            touched: Ok(
                if t.has_bundle(job, bundle) {
                    1
                } else {
                    0
                },
            ),
        },
    }
}

proof fn lemma_served(t: Tables, job: Job, log: Seq<Exchange>) -> (whole: Seq<Exchange>)
    requires
        t.well_formed(),
        job.follows(log),
        t.serves(log),
    ensures
        job.follows(whole),
        t.serves(whole),
        job.after(whole).phase is Done,
    decreases remaining(job, job.after(log)),
{
    let progress = job.after(log);
    lemma_on_track(t, job, log);
    if progress.phase is Done {
        log
    } else {
        let exchange = served_exchange(t.after(log), job, progress);
        let longer = log.push(exchange);
        assert(longer.drop_last() =~= log);
        lemma_parameter_numbers();
        lemma_served(t, job, longer)
    }
}

/// On tables that answer, a restore always comes to an end.
pub proof fn law_restore_ends(t: Tables, job: Job)
    requires
        t.well_formed(),
    ensures
        exists|log: Seq<Exchange>| #[trigger] t.serves(log) && job.concludes(log, t.outcome(job)),
{
    let log = lemma_served(t, job, Seq::empty());
    lemma_on_track(t, job, log);
}

/// Whatever a database answers, nothing is overwritten unseen: each write comes
/// right after a read of the same bundle, whose answer showed neither the carved
/// secret nor another broadcast delegation.
pub proof fn law_writes_follow_reads(job: Job, log: Seq<Exchange>, k: int)
    requires
        job.follows(log),
        0 <= k < log.len(),
        log[k] is Write,
    ensures
        k > 0,
        exists|i: int, stored: Stored|
            #![trigger job.bundles[i], holds_carved_secret(stored, job.bundles[i])]
            {
                &&& 0 <= i < job.bundles.len()
                &&& log[k]->Write_request == job.write_request(job.bundles[i])
                &&& log[k - 1] == Exchange::Read {
                    request: job.read_request(job.bundles[i]),
                    stored: Ok(stored),
                }
                &&& !holds_carved_secret(stored, job.bundles[i])
                &&& !holds_other_broadcast(stored, job.bundles[i])
            },
    decreases log.len(),
{
    let shorter = log.drop_last();
    if k < log.len() - 1 {
        law_writes_follow_reads(job, shorter, k);
        assert(shorter[k] == log[k] && shorter[k - 1] == log[k - 1]);
        let (i, stored) = choose|i: int, stored: Stored|
            #![trigger job.bundles[i], holds_carved_secret(stored, job.bundles[i])]
            {
                &&& 0 <= i < job.bundles.len()
                &&& shorter[k]->Write_request == job.write_request(job.bundles[i])
                &&& shorter[k - 1] == Exchange::Read {
                    request: job.read_request(job.bundles[i]),
                    stored: Ok(stored),
                }
                &&& !holds_carved_secret(stored, job.bundles[i])
                &&& !holds_other_broadcast(stored, job.bundles[i])
            };
        assert(!holds_carved_secret(stored, job.bundles[i]));
    } else {
        reveal_with_fuel(Job::follows, 3);
        reveal_with_fuel(Job::after, 3);
        assert(job.after(shorter).phase is Writing);
        assert(shorter.len() > 0);
        let before = job.after(shorter.drop_last());
        let read = shorter.last();
        assert(read == log[k - 1]);
        assert(before.phase is Reading);
        lemma_tally_is_complete(job, shorter.drop_last());
        let stored = read->Read_stored->Ok_0;
        assert(!holds_carved_secret(stored, job.bundles[before.current as int]));
    }
}

/// Lists that hold the same bundles, in whatever order, have the same length and
/// the same elements.
proof fn lemma_same_bundles(left: Seq<Carved>, right: Seq<Carved>)
    requires
        left.to_multiset() == right.to_multiset(),
    ensures
        left.len() == right.len(),
        forall|i: int| 0 <= i < left.len() ==> right.contains(#[trigger] left[i]),
{
    left.to_multiset_ensures();
    right.to_multiset_ensures();
    assert forall|i: int| 0 <= i < left.len() implies right.contains(#[trigger] left[i]) by {
        assert(left.contains(left[i]));
        assert(left.to_multiset().count(left[i]) > 0);
    }
}

/// How many elements of a list satisfy a predicate does not depend on the order.
proof fn lemma_filter_reordered(left: Seq<Carved>, right: Seq<Carved>, pred: spec_fn(Carved) -> bool)
    requires
        left.to_multiset() == right.to_multiset(),
    ensures
        left.filter(pred).len() == right.filter(pred).len(),
    decreases left.len(),
{
    reveal(Seq::filter);
    lemma_same_bundles(left, right);
    if left.len() > 0 {
        let x = left.last();
        let j = choose|j: int| 0 <= j < right.len() && right[j] == left[left.len() - 1];
        let shorter = left.drop_last();
        let rest = right.remove(j);
        assert(left.remove(left.len() - 1) =~= shorter);
        left.to_multiset_ensures();
        right.to_multiset_ensures();
        assert(left.remove(left.len() - 1).to_multiset() == left.to_multiset().remove(x));
        assert(rest.to_multiset() == right.to_multiset().remove(x));
        lemma_filter_reordered(shorter, rest, pred);
        let head = right.subrange(0, j);
        let tail = right.subrange(j + 1, right.len() as int);
        assert(right =~= head + (seq![x] + tail));
        assert(rest == head + tail);
        Seq::filter_distributes_over_add(head, seq![x] + tail, pred);
        Seq::filter_distributes_over_add(seq![x], tail, pred);
        Seq::filter_distributes_over_add(head, tail, pred);
        assert(seq![x].drop_last() =~= Seq::empty());
        assert(Seq::<Carved>::empty().filter(pred).len() == 0);
        assert(seq![x].filter(pred).len() == if pred(x) { 1nat } else { 0 });
    }
}

/// Reordering a list that names no row twice gives another such list.
proof fn lemma_distinct_reordered(left: Seq<Carved>, right: Seq<Carved>)
    requires
        left.to_multiset() == right.to_multiset(),
        distinct_indices(left),
    ensures
        distinct_indices(right),
{
    lemma_same_bundles(right, left);
    assert(left.no_duplicates()) by {
        assert forall|i: int, j: int|
            0 <= i < left.len() && 0 <= j < left.len() && i != j implies left[i] != left[j] by {
            if i < j {
                assert(left[i].bundle_index != left[j].bundle_index);
            } else {
                assert(left[j].bundle_index != left[i].bundle_index);
            }
        }
    }
    left.lemma_multiset_has_no_duplicates();
    right.lemma_multiset_has_no_duplicates_conv();
    assert forall|i: int, j: int| 0 <= i < j < right.len() implies right[i].bundle_index
        != right[j].bundle_index by {
        let k = choose|k: int| 0 <= k < left.len() && left[k] == right[i];
        let l = choose|l: int| 0 <= l < left.len() && left[l] == right[j];
        assert(right[i] != right[j]);
        if k < l {
            assert(left[k].bundle_index != left[l].bundle_index);
        } else {
            assert(left[l].bundle_index != left[k].bundle_index);
        }
    }
}

/// The two jobs name the same bundles of the same round, perhaps in another
/// order.
pub open spec fn reordered(left: Job, right: Job) -> bool {
    &&& left.round_id == right.round_id
    &&& left.wallet_id == right.wallet_id
    &&& left.bundles.to_multiset() == right.bundles.to_multiset()
}

proof fn lemma_admissible_reordered(t: Tables, left: Job, right: Job)
    requires
        reordered(left, right),
        admissible(t, left),
    ensures
        admissible(t, right),
{
    lemma_distinct_reordered(left.bundles, right.bundles);
    lemma_same_bundles(right.bundles, left.bundles);
    assert forall|i: int| #![trigger right.bundles[i]] 0 <= i < right.bundles.len() implies {
        &&& t.has_bundle(right, right.bundles[i])
        &&& !holds_other_broadcast(t.row(right, right.bundles[i]).stored(), right.bundles[i])
    } by {
        let j = choose|j: int| 0 <= j < left.bundles.len() && left.bundles[j] == right.bundles[i];
        assert(t.has_bundle(left, left.bundles[j]));
    }
}

/// Rows settled by the one job are settled alike by the other.
proof fn lemma_settled_reordered(t: Tables, left: Job, right: Job)
    requires
        t.well_formed(),
        reordered(left, right),
        distinct_indices(left.bundles),
        distinct_indices(right.bundles),
    ensures
        t.settle_first(left, left.bundles.len()) == t.settle_first(right, right.bundles.len()),
{
    let n = left.bundles.len();
    lemma_same_bundles(left.bundles, right.bundles);
    lemma_same_bundles(right.bundles, left.bundles);
    lemma_settle_first(t, left, n);
    lemma_settle_first(t, right, n);
    let a = t.settle_first(left, n);
    let b = t.settle_first(right, n);
    assert forall|key: BundleKey| #[trigger] t.bundles.contains_key(key) implies a.bundles[key]
        == b.bundles[key] by {
        if exists|i: int| 0 <= i < n && key == left.key(#[trigger] left.bundles[i]) {
            let i = choose|i: int| 0 <= i < n && key == left.key(#[trigger] left.bundles[i]);
            let bundle = left.bundles[i];
            let j = choose|j: int|
                0 <= j < right.bundles.len() && right.bundles[j] == left.bundles[i];
            assert(right.bundles[j] == bundle);
            assert(t.has_bundle(left, left.bundles[i]));
            assert(t.has_bundle(right, right.bundles[j]));
            assert(left.write_request(bundle) == right.write_request(bundle));
        } else {
            assert forall|j: int| 0 <= j < n implies key != right.key(#[trigger] right.bundles[j]) by {
                let i = choose|i: int|
                    0 <= i < left.bundles.len() && left.bundles[i] == right.bundles[j];
                assert(left.key(left.bundles[i]) == right.key(right.bundles[j]));
            }
        }
    }
    assert(a.bundles =~= b.bundles) by {
        assert(forall|key: BundleKey| a.bundles.contains_key(key) == t.bundles.dom().contains(key));
        assert(forall|key: BundleKey| b.bundles.contains_key(key) == t.bundles.dom().contains(key));
    }
    assert(a =~= b);
}

/// The order of the bundles does not matter: two requests that name the same
/// bundles both succeed or both fail, and where they succeed they report the
/// same counts and leave the same tables.
pub proof fn law_order_does_not_matter(t: Tables, left: Job, right: Job)
    requires
        t.well_formed(),
        reordered(left, right),
    ensures
        t.outcome(left) is Ok <==> t.outcome(right) is Ok,
        t.outcome(left) is Ok ==> t.outcome(left) == t.outcome(right) && t.settled(left)
            == t.settled(right),
{
    law_success(t, left);
    law_success(t, right);
    if admissible(t, left) {
        lemma_admissible_reordered(t, left, right);
    }
    if admissible(t, right) {
        lemma_admissible_reordered(t, right, left);
    }
    if t.outcome(left) is Ok {
        let n = left.bundles.len();
        lemma_same_bundles(left.bundles, right.bundles);
        lemma_first_refused(t, left, 0);
        lemma_first_refused(t, right, 0);
        lemma_settled_reordered(t, left, right);
        let held_left = |bundle: Carved| t.holds(left, bundle);
        let held_right = |bundle: Carved| t.holds(right, bundle);
        assert(held_left =~= held_right);
        assert(left.bundles.take(n as int) =~= left.bundles);
        assert(right.bundles.take(n as int) =~= right.bundles);
        lemma_filter_reordered(left.bundles, right.bundles, held_left);
    }
}

/// The name of the row that a bundle is about.
pub open spec fn named_row(job: Job, bundle: Carved) -> BundleKey {
    BundleKey {
        round_id: job.round_id,
        wallet_id: job.wallet_id,
        bundle_index: bundle.bundle_index as int,
    }
}

/// The row's secret is the carved one.
pub open spec fn row_is_present(row: Row, bundle: Carved) -> bool {
    row.cells[BundleColumn::VanCommRand] == Cell::Blob(bundle.van_comm_rand)
}

/// The row has a secret other than the carved one, and a transaction hash other
/// than the carved one.
pub open spec fn row_is_of_another(row: Row, bundle: Carved) -> bool {
    &&& row.cells[BundleColumn::VanCommRand] is Blob
    &&& row.cells[BundleColumn::VanCommRand] != Cell::Blob(bundle.van_comm_rand)
    &&& row.cells[BundleColumn::DelegationTxHash] is Text
    &&& match bundle.delegation_tx_hash {
        Some(hash) => row.cells[BundleColumn::DelegationTxHash] != Cell::Text(hash),
        None => true,
    }
}

proof fn lemma_cells(row: Row, bundle: Carved)
    requires
        row.well_formed(),
    ensures
        holds_carved_secret(row.stored(), bundle) == row_is_present(row, bundle),
        holds_other_broadcast(row.stored(), bundle) == row_is_of_another(row, bundle),
        row_is_of_another(row, bundle) ==> row.stored().delegation_tx_hash == Some(
            cell_text(row.cells[BundleColumn::DelegationTxHash]),
        ),
{
}

/// On tables that answer, a restore succeeds exactly where there are bundles, no
/// two of them have one index, the wallet has the round, and each bundle has a
/// row that is not of another broadcast delegation.
pub proof fn law_where_restores_succeed(t: Tables, job: Job)
    requires
        t.well_formed(),
    ensures
        t.outcome(job) is Ok <==> {
            &&& job.bundles.len() > 0
            &&& forall|i: int, j: int|
                0 <= i < j < job.bundles.len() ==> (#[trigger] job.bundles[i]).bundle_index != (
                #[trigger] job.bundles[j]).bundle_index
            &&& t.rounds.contains((job.round_id, job.wallet_id))
            &&& forall|i: int|
                0 <= i < job.bundles.len() ==> {
                    &&& t.bundles.contains_key(named_row(job, #[trigger] job.bundles[i]))
                    &&& !row_is_of_another(
                        t.bundles[named_row(job, job.bundles[i])],
                        job.bundles[i],
                    )
                }
        },
{
    law_success(t, job);
    assert forall|i: int|
        #![trigger job.bundles[i]]
        0 <= i < job.bundles.len() && t.bundles.contains_key(
            named_row(job, job.bundles[i]),
        ) implies holds_other_broadcast(t.row(job, job.bundles[i]).stored(), job.bundles[i])
        == row_is_of_another(t.bundles[named_row(job, job.bundles[i])], job.bundles[i]) by {
        lemma_cells(t.row(job, job.bundles[i]), job.bundles[i]);
    }
    assert(forall|i: int|
        #![trigger job.bundles[i]]
        0 <= i < job.bundles.len() ==> t.has_bundle(job, job.bundles[i]) == t.bundles.contains_key(
            named_row(job, job.bundles[i]),
        ));
}

/// Where a restore succeeds, each bundle's row ends with the carved secret. A row
/// that had it is as it was, in every column. Any other row has the carved
/// identity, and no value in any column of the generation before.
pub proof fn law_rows_after_success(t: Tables, job: Job, i: int)
    requires
        t.well_formed(),
        t.outcome(job) is Ok,
        0 <= i < job.bundles.len(),
    ensures
        ({
            let bundle = job.bundles[i];
            let row = t.bundles[named_row(job, bundle)];
            let now = t.settled(job).bundles[named_row(job, bundle)];
            &&& t.settled(job).bundles.contains_key(named_row(job, bundle))
            &&& now.cells[BundleColumn::VanCommRand] == Cell::Blob(bundle.van_comm_rand)
            &&& now == row <==> row.cells[BundleColumn::VanCommRand] == Cell::Blob(
                bundle.van_comm_rand,
            )
            &&& now != row ==> {
                &&& now.cells[BundleColumn::GovComm] == Cell::Blob(bundle.gov_comm)
                &&& now.cells[BundleColumn::TotalNoteValue] == Cell::Integer(
                    signed(bundle.total_note_value),
                )
                &&& now.cells[BundleColumn::AddressIndex] == Cell::Integer(0)
                &&& now.cells[BundleColumn::DelegationTxHash] == match bundle.delegation_tx_hash {
                    Some(hash) => Cell::Text(hash),
                    None => Cell::Null,
                }
                &&& now.cells[BundleColumn::NotePositionsBlob] is Null
                &&& now.cells[BundleColumn::NoteIdentityHashesBlob] is Null
                &&& now.cells[BundleColumn::DummyNullifiers] is Null
                &&& now.cells[BundleColumn::RhoSigned] is Null
                &&& now.cells[BundleColumn::PaddedNoteData] is Null
                &&& now.cells[BundleColumn::NfSigned] is Null
                &&& now.cells[BundleColumn::CmxNew] is Null
                &&& now.cells[BundleColumn::Alpha] is Null
                &&& now.cells[BundleColumn::RseedSigned] is Null
                &&& now.cells[BundleColumn::RseedOutput] is Null
                &&& now.cells[BundleColumn::VanLeafPosition] is Null
                &&& now.cells[BundleColumn::Rk] is Null
                &&& now.cells[BundleColumn::GovNullifiersBlob] is Null
                &&& now.cells[BundleColumn::PaddedNoteSecrets] is Null
                &&& now.cells[BundleColumn::PcztSighash] is Null
                &&& now.cells[BundleColumn::Tx1Effects] is Null
            }
        }),
{
    let bundle = job.bundles[i];
    law_success(t, job);
    lemma_first_refused(t, job, 0);
    lemma_settle_first(t, job, job.bundles.len());
    assert(t.has_bundle(job, bundle));
    let row = t.row(job, bundle);
    assert(row.well_formed());
    assert(t.settled(job).row(job, bundle) == row.settled(job, bundle));
    lemma_cells(row, bundle);
    lemma_overwritten(row, job, bundle);
    lemma_signed(bundle.total_note_value);
    let cleared = generation_columns();
    assert forall|c: int| 0 <= c < 16 implies cleared.contains(#[trigger] cleared[c]) by {}
    assert(cleared[0] == BundleColumn::NotePositionsBlob);
    assert(cleared[1] == BundleColumn::NoteIdentityHashesBlob);
    assert(cleared[2] == BundleColumn::DummyNullifiers);
    assert(cleared[3] == BundleColumn::RhoSigned);
    assert(cleared[4] == BundleColumn::PaddedNoteData);
    assert(cleared[5] == BundleColumn::NfSigned);
    assert(cleared[6] == BundleColumn::CmxNew);
    assert(cleared[7] == BundleColumn::Alpha);
    assert(cleared[8] == BundleColumn::RseedSigned);
    assert(cleared[9] == BundleColumn::RseedOutput);
    assert(cleared[10] == BundleColumn::VanLeafPosition);
    assert(cleared[11] == BundleColumn::Rk);
    assert(cleared[12] == BundleColumn::GovNullifiersBlob);
    assert(cleared[13] == BundleColumn::PaddedNoteSecrets);
    assert(cleared[14] == BundleColumn::PcztSighash);
    assert(cleared[15] == BundleColumn::Tx1Effects);
}

/// Items of which one predicate holds just where another does not are counted
/// once by the two.
proof fn lemma_counted_once(
    bundles: Seq<Carved>,
    these: spec_fn(Carved) -> bool,
    those: spec_fn(Carved) -> bool,
)
    requires
        forall|i: int|
            #![trigger bundles[i]]
            0 <= i < bundles.len() ==> these(bundles[i]) == !those(bundles[i]),
    ensures
        bundles.filter(these).len() + bundles.filter(those).len() == bundles.len(),
    decreases bundles.len(),
{
    reveal(Seq::filter);
    if bundles.len() > 0 {
        let shorter = bundles.drop_last();
        assert(forall|i: int| 0 <= i < shorter.len() ==> shorter[i] == bundles[i]);
        assert(bundles.last() == bundles[bundles.len() - 1]);
        lemma_counted_once(shorter, these, those);
    }
}

/// Where a restore succeeds, it counts as restored the bundles whose rows it
/// changed, and as present those whose rows had the carved secret before.
pub proof fn law_success_counts_the_rows(t: Tables, job: Job, tally: Tally)
    requires
        t.well_formed(),
        t.outcome(job) == Ok::<Tally, ErrorView>(tally),
    ensures
        tally.restored == job.bundles.filter(
            |bundle: Carved|
                t.settled(job).bundles[named_row(job, bundle)] != t.bundles[named_row(job, bundle)],
        ).len(),
        tally.already_present == job.bundles.filter(
            |bundle: Carved| row_is_present(t.bundles[named_row(job, bundle)], bundle),
        ).len(),
        tally.restored + tally.already_present == job.bundles.len(),
{
    let changed = |bundle: Carved|
        t.settled(job).bundles[named_row(job, bundle)] != t.bundles[named_row(job, bundle)];
    let present = |bundle: Carved| row_is_present(t.bundles[named_row(job, bundle)], bundle);
    let held = |bundle: Carved| t.holds(job, bundle);
    assert forall|i: int| #![trigger job.bundles[i]] 0 <= i < job.bundles.len() implies changed(
        job.bundles[i],
    ) == !present(job.bundles[i]) && changed(job.bundles[i]) == !held(job.bundles[i]) by {
        law_rows_after_success(t, job, i);
        law_success(t, job);
        assert(t.has_bundle(job, job.bundles[i]));
        lemma_cells(t.row(job, job.bundles[i]), job.bundles[i]);
    }
    lemma_counted_once(job.bundles, changed, present);
    lemma_counted_once(job.bundles, changed, held);
    assert(job.bundles.take(job.bundles.len() as int) =~= job.bundles);
    lemma_first_refused(t, job, 0);
}

/// A row of another broadcast delegation makes the restore fail, and stays as it
/// is. A bundle whose row is there and is not such a row is not refused.
pub proof fn law_rows_of_others_are_kept(t: Tables, job: Job, i: int)
    requires
        t.well_formed(),
        0 <= i < job.bundles.len(),
        t.bundles.contains_key(named_row(job, job.bundles[i])),
    ensures
        ({
            let bundle = job.bundles[i];
            let row = t.bundles[named_row(job, bundle)];
            &&& row_is_of_another(row, bundle) ==> t.outcome(job) is Err && t.settled(
                job,
            ).bundles[named_row(job, bundle)] == row
            &&& t.refusal(job, bundle) is Some <==> row_is_of_another(row, bundle)
        }),
{
    let bundle = job.bundles[i];
    assert(job.key(bundle) == named_row(job, bundle));
    lemma_cells(t.row(job, bundle), bundle);
    if row_is_of_another(t.row(job, bundle), bundle) {
        law_other_broadcasts_are_kept(t, job, i);
    }
}

/// Where the wallet has no such round, a list that is in order is answered with
/// the round's name, and nothing changes.
pub proof fn law_missing_rounds_are_named(t: Tables, job: Job)
    requires
        job.bundles.len() > 0,
        forall|i: int, j: int|
            0 <= i < j < job.bundles.len() ==> (#[trigger] job.bundles[i]).bundle_index != (
            #[trigger] job.bundles[j]).bundle_index,
        !t.rounds.contains((job.round_id, job.wallet_id)),
    ensures
        t.outcome(job) == Err::<Tally, ErrorView>(
            ErrorView::InvalidInput(
                "round "@ + job.round_id
                    + " does not exist for this wallet; restore does not create rounds"@,
            ),
        ),
        t.settled(job) == t,
{
}

/// A restore fails at the first bundle whose row is missing or of another
/// broadcast delegation, and the error says which of the two. The rows of the
/// bundles before it have the carved secrets, and every other row is as it was.
pub proof fn law_the_first_refused_bundle_is_named(t: Tables, job: Job, n: int)
    requires
        t.well_formed(),
        forall|i: int, j: int|
            0 <= i < j < job.bundles.len() ==> (#[trigger] job.bundles[i]).bundle_index != (
            #[trigger] job.bundles[j]).bundle_index,
        t.rounds.contains((job.round_id, job.wallet_id)),
        0 <= n < job.bundles.len(),
        forall|i: int|
            0 <= i < n ==> {
                &&& t.bundles.contains_key(named_row(job, #[trigger] job.bundles[i]))
                &&& !row_is_of_another(
                    t.bundles[named_row(job, job.bundles[i])],
                    job.bundles[i],
                )
            },
        t.bundles.contains_key(named_row(job, job.bundles[n])) ==> row_is_of_another(
            t.bundles[named_row(job, job.bundles[n])],
            job.bundles[n],
        ),
    ensures
        ({
            let bundle = job.bundles[n];
            t.outcome(job) == Err::<Tally, ErrorView>(
                ErrorView::InvalidInput(
                    "bundle "@ + decimal(bundle.bundle_index as nat) + " of round "@ + job.round_id
                        + if t.bundles.contains_key(named_row(job, bundle)) {
                        " holds a different delegation that was already broadcast (tx "@
                            + cell_text(
                            t.bundles[named_row(job, bundle)].cells[BundleColumn::DelegationTxHash],
                        ) + "); refusing to overwrite it"@
                    } else {
                        " does not exist; restore does not create bundles"@
                    },
                ),
            )
        }),
        forall|i: int|
            0 <= i < n ==> row_is_present(
                t.settled(job).bundles[named_row(job, #[trigger] job.bundles[i])],
                job.bundles[i],
            ),
        forall|key: BundleKey| #[trigger]
            t.bundles.contains_key(key) && (forall|i: int|
                0 <= i < n ==> key != named_row(job, #[trigger] job.bundles[i]))
                ==> t.settled(job).bundles[key] == t.bundles[key],
{
    let bundle = job.bundles[n];
    assert(forall|b: Carved| job.key(b) == #[trigger] named_row(job, b));
    assert forall|i: int| #![trigger job.bundles[i]] 0 <= i < n implies t.refusal(
        job,
        job.bundles[i],
    ) is None by {
        lemma_cells(t.row(job, job.bundles[i]), job.bundles[i]);
    }
    if t.bundles.contains_key(named_row(job, bundle)) {
        lemma_cells(t.row(job, bundle), bundle);
    }
    assert(t.refusal(job, bundle) is Some);
    lemma_first_refused(t, job, 0);
    let refused = t.first_refused(job, 0);
    assert(refused == n);
    lemma_settle_first(t, job, n as nat);
    assert forall|i: int| 0 <= i < n implies row_is_present(
        t.settled(job).bundles[named_row(job, #[trigger] job.bundles[i])],
        job.bundles[i],
    ) by {
        let row = t.row(job, job.bundles[i]);
        assert(t.has_bundle(job, job.bundles[i]));
        lemma_cells(row, job.bundles[i]);
        lemma_overwritten(row, job, job.bundles[i]);
    }
    let digits = decimal(bundle.bundle_index as nat);
    let missing = " does not exist; restore does not create bundles"@;
    assert("bundle "@ + (digits + " of round "@ + job.round_id) + missing =~= "bundle "@ + digits
        + " of round "@ + job.round_id + missing);
    let hash = cell_text(
        t.bundles[named_row(job, bundle)].cells[BundleColumn::DelegationTxHash],
    );
    let broadcast = " holds a different delegation that was already broadcast (tx "@;
    let end = "); refusing to overwrite it"@;
    assert("bundle "@ + (digits + " of round "@ + job.round_id) + broadcast + hash + end
        =~= "bundle "@ + digits + " of round "@ + job.round_id + (broadcast + hash + end));
}

} // verus!
