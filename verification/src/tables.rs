//! What a restore does to the rows of a database that answers.
//!
//! [`Tables`] is what the statements of this crate find in a database:
//! which rounds there are, and one row for each bundle. [`Tables::serves`] says
//! that the answers of a log are those that such tables give while nothing else
//! changes them, and [`Tables::after`] what the log's writes make of them.
//! [`Tables::outcome`] and [`Tables::settled`] then say of a restore, without
//! any log, what it returns and what it leaves behind.

use vstd::prelude::*;

use crate::carved::{Carved, Tally};
use crate::error::ErrorView;
use crate::restore::{
    bundle_missing, bundles_refusal, holds_carved_secret, holds_other_broadcast, other_delegation,
    round_missing, Job,
};
use crate::sql::{
    bundle_read_sql, bundle_write_sql, carved_parameters, parameter_number, restore_assignments,
    round_lookup_sql, Assignment, BundleColumn, Source,
};
use crate::store::{Cell, Exchange, Fault, Request, Stored};

verus! {

/// What names a row of `bundles`.
pub ghost struct BundleKey {
    pub round_id: Seq<char>,
    pub wallet_id: Seq<char>,
    pub bundle_index: int,
}

/// A row of `bundles`, in the columns that a restore reads or sets.
#[verifier::ext_equal]
pub ghost struct Row {
    pub cells: Map<BundleColumn, Cell>,
}

/// The text of a cell that holds one.
pub open spec fn cell_text(cell: Cell) -> Seq<char> {
    cell->Text_0
}

/// The number of a cell that holds one.
pub open spec fn cell_integer(cell: Cell) -> int {
    cell->Integer_0
}

/// What an assignment sets, given the values bound to the statement.
pub open spec fn source_cell(source: Source, params: Seq<Cell>) -> Cell {
    match source {
        Source::Bound(parameter) => params[parameter_number(parameter) - 1],
        Source::Zero => Cell::Integer(0),
        Source::Null => Cell::Null,
    }
}

impl Row {
    /// The row has every column, and the columns that are read hold what their
    /// types say: bytes or nothing, and text or nothing.
    pub open spec fn well_formed(self) -> bool {
        &&& forall|column: BundleColumn| #[trigger] self.cells.contains_key(column)
        &&& self.cells[BundleColumn::VanCommRand] is Null
            || self.cells[BundleColumn::VanCommRand] is Blob
        &&& self.cells[BundleColumn::DelegationTxHash] is Null
            || self.cells[BundleColumn::DelegationTxHash] is Text
    }

    /// The row's secret and transaction hash.
    pub open spec fn stored(self) -> Stored {
        Stored {
            van_comm_rand: match self.cells[BundleColumn::VanCommRand] {
                Cell::Blob(bytes) => Some(bytes),
                _ => None,
            },
            delegation_tx_hash: match self.cells[BundleColumn::DelegationTxHash] {
                Cell::Text(text) => Some(text),
                _ => None,
            },
        }
    }

    /// The row after an `UPDATE` with these assignments.
    pub open spec fn assign(self, list: Seq<Assignment>, params: Seq<Cell>) -> Row
        decreases list.len(),
    {
        if list.len() == 0 {
            self
        } else {
            Row {
                cells: self.assign(list.drop_last(), params).cells.insert(
                    list.last().column,
                    source_cell(list.last().source, params),
                ),
            }
        }
    }

    /// The row after a restore of `bundle` has overwritten it.
    pub open spec fn overwritten(self, job: Job, bundle: Carved) -> Row {
        self.assign(restore_assignments(), job.write_request(bundle).params)
    }

    /// The row after a restore of `bundle`: left alone where it holds the carved
    /// secret, else overwritten.
    pub open spec fn settled(self, job: Job, bundle: Carved) -> Row {
        if holds_carved_secret(self.stored(), bundle) {
            self
        } else {
            self.overwritten(job, bundle)
        }
    }
}

impl Job {
    /// The row that a bundle of this job names.
    pub open spec fn key(self, bundle: Carved) -> BundleKey {
        BundleKey {
            round_id: self.round_id,
            wallet_id: self.wallet_id,
            bundle_index: bundle.bundle_index as int,
        }
    }
}

/// What the statements of a restore find in a database.
#[verifier::ext_equal]
pub ghost struct Tables {
    /// The rounds, each with its wallet.
    pub rounds: Set<(Seq<char>, Seq<char>)>,
    pub bundles: Map<BundleKey, Row>,
}

/// The row that the three bound values from `first` on name.
pub open spec fn bound_key(request: Request, first: int) -> BundleKey {
    BundleKey {
        round_id: cell_text(request.params[first]),
        wallet_id: cell_text(request.params[first + 1]),
        bundle_index: cell_integer(request.params[first + 2]),
    }
}

impl Tables {
    /// Every row is well formed.
    pub open spec fn well_formed(self) -> bool {
        forall|key: BundleKey| #[trigger]
            self.bundles.contains_key(key) ==> self.bundles[key].well_formed()
    }

    /// The answer of an exchange is the one that these tables give.
    pub open spec fn answers(self, exchange: Exchange) -> bool {
        match exchange {
            Exchange::Lookup { request, found } => request.sql == round_lookup_sql() ==> {
                let round = (cell_text(request.params[0]), cell_text(request.params[1]));
                found == Ok::<bool, Fault>(self.rounds.contains(round))
            },
            Exchange::Read { request, stored } => request.sql == bundle_read_sql() ==> {
                let key = bound_key(request, 0);
                if self.bundles.contains_key(key) {
                    stored == Ok::<Stored, Fault>(self.bundles[key].stored())
                } else {
                    stored is Err && stored->Err_0.no_rows
                }
            },
            Exchange::Write { request, touched } => request.sql == bundle_write_sql() ==> {
                let key = bound_key(request, carved_parameters());
                let rows: nat = if self.bundles.contains_key(key) {
                    1
                } else {
                    0
                };
                touched == Ok::<nat, Fault>(rows)
            },
        }
    }

    /// The tables after an exchange. Only a write that touched something changes
    /// anything, and only the row that it names, where there is one. A write that
    /// failed, or touched nothing, leaves the tables as they are.
    pub open spec fn apply(self, exchange: Exchange) -> Tables {
        match exchange {
            Exchange::Write { request, touched: Ok(rows) } => {
                let key = bound_key(request, carved_parameters());
                if request.sql == bundle_write_sql() && rows > 0 && self.bundles.contains_key(key) {
                    Tables {
                        bundles: self.bundles.insert(
                            key,
                            self.bundles[key].assign(restore_assignments(), request.params),
                        ),
                        ..self
                    }
                } else {
                    self
                }
            },
            _ => self,
        }
    }

    /// The tables after the exchanges of a log.
    pub open spec fn after(self, log: Seq<Exchange>) -> Tables
        decreases log.len(),
    {
        if log.len() == 0 {
            self
        } else {
            self.after(log.drop_last()).apply(log.last())
        }
    }

    /// Each answer of the log is the one that the tables give at that point.
    pub open spec fn serves(self, log: Seq<Exchange>) -> bool
        decreases log.len(),
    {
        log.len() == 0 || {
            &&& self.serves(log.drop_last())
            &&& self.after(log.drop_last()).answers(log.last())
        }
    }

    /// The job's round exists.
    pub open spec fn has_round(self, job: Job) -> bool {
        self.rounds.contains((job.round_id, job.wallet_id))
    }

    /// There is a row for the bundle.
    pub open spec fn has_bundle(self, job: Job, bundle: Carved) -> bool {
        self.bundles.contains_key(job.key(bundle))
    }

    /// The bundle's row.
    pub open spec fn row(self, job: Job, bundle: Carved) -> Row {
        self.bundles[job.key(bundle)]
    }

    /// The bundle's row holds the carved secret.
    pub open spec fn holds(self, job: Job, bundle: Carved) -> bool {
        self.has_bundle(job, bundle) && holds_carved_secret(
            self.row(job, bundle).stored(),
            bundle,
        )
    }

    /// Why the bundle is refused, where it is.
    pub open spec fn refusal(self, job: Job, bundle: Carved) -> Option<ErrorView> {
        if !self.has_bundle(job, bundle) {
            Some(bundle_missing(job.round_id, bundle.bundle_index))
        } else {
            let stored = self.row(job, bundle).stored();
            if holds_other_broadcast(stored, bundle) {
                Some(
                    other_delegation(
                        job.round_id,
                        bundle.bundle_index,
                        stored.delegation_tx_hash->0,
                    ),
                )
            } else {
                None
            }
        }
    }

    /// The place of the first refused bundle from `from` on, or the number of
    /// bundles where there is none.
    pub open spec fn first_refused(self, job: Job, from: nat) -> nat
        decreases job.bundles.len() - from,
    {
        if from >= job.bundles.len() {
            job.bundles.len()
        } else if self.refusal(job, job.bundles[from as int]) is Some {
            from
        } else {
            self.first_refused(job, from + 1)
        }
    }

    /// How many of the first `n` bundles' rows hold the carved secret, and how
    /// many do not.
    pub open spec fn tally(self, job: Job, n: nat) -> Tally {
        let present = job.bundles.take(n as int).filter(
            |bundle: Carved| self.holds(job, bundle),
        ).len();
        Tally { restored: (n - present) as nat, already_present: present }
    }

    /// The tables with one bundle's row settled.
    pub open spec fn settle(self, job: Job, bundle: Carved) -> Tables {
        if self.has_bundle(job, bundle) {
            Tables {
                bundles: self.bundles.insert(
                    job.key(bundle),
                    self.row(job, bundle).settled(job, bundle),
                ),
                ..self
            }
        } else {
            self
        }
    }

    /// The tables with the rows of the first `n` bundles settled.
    pub open spec fn settle_first(self, job: Job, n: nat) -> Tables
        decreases n,
    {
        if n == 0 {
            self
        } else {
            self.settle_first(job, (n - 1) as nat).settle(job, job.bundles[n - 1])
        }
    }

    /// What a restore returns on these tables.
    pub open spec fn outcome(self, job: Job) -> Result<Tally, ErrorView> {
        if bundles_refusal(job.bundles) is Some {
            Err(bundles_refusal(job.bundles)->0)
        } else if !self.has_round(job) {
            Err(round_missing(job.round_id))
        } else {
            let refused = self.first_refused(job, 0);
            if refused < job.bundles.len() {
                Err(self.refusal(job, job.bundles[refused as int])->0)
            } else {
                Ok(self.tally(job, job.bundles.len()))
            }
        }
    }

    /// What a restore leaves behind, where the caller keeps it: each bundle's
    /// row settled, up to the first refused one.
    pub open spec fn settled(self, job: Job) -> Tables {
        if bundles_refusal(job.bundles) is Some || !self.has_round(job) {
            self
        } else {
            self.settle_first(job, self.first_refused(job, 0))
        }
    }
}

} // verus!
