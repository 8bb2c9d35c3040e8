//! What a carve found, and what a restore did with it.

use vstd::prelude::*;

verus! {

/// One bundle's delegation state, as carved from a wiped database.
///
/// What is fixed (`address_index`, 0 for a version 1 voting hotkey) or known
/// from the context (the wallet) is not part of it.
#[derive(Debug, Clone, PartialEq, Eq)]
pub struct CarvedBundle {
    pub bundle_index: u32,
    /// The blinding factor. The irreplaceable part: everything else here is
    /// either public or can be derived again.
    pub van_comm_rand: [u8; 32],
    /// The VAN that this blinding factor opens, published on chain.
    pub gov_comm: [u8; 32],
    /// Bundle weight in zatoshi.
    pub total_note_value: u64,
    /// The transaction that broadcast this delegation, when the carve found
    /// one.
    ///
    /// `None` is a legitimate result rather than a partial capture: the hash is
    /// stored only after submission returns, so its absence usually means that
    /// nothing was broadcast.
    pub delegation_tx_hash: Option<String>,
}

/// A [`CarvedBundle`] as the contracts speak of it.
pub ghost struct Carved {
    pub bundle_index: u32,
    pub van_comm_rand: Seq<u8>,
    pub gov_comm: Seq<u8>,
    pub total_note_value: u64,
    pub delegation_tx_hash: Option<Seq<char>>,
}

/// The characters of an optional text.
pub open spec fn text_view(text: Option<String>) -> Option<Seq<char>> {
    match text {
        Some(text) => Some(text@),
        None => None,
    }
}

impl View for CarvedBundle {
    type V = Carved;

    open spec fn view(&self) -> Carved {
        Carved {
            bundle_index: self.bundle_index,
            van_comm_rand: self.van_comm_rand@,
            gov_comm: self.gov_comm@,
            total_note_value: self.total_note_value,
            delegation_tx_hash: text_view(self.delegation_tx_hash),
        }
    }
}

/// A list of bundles as the contracts speak of it.
pub open spec fn carved_views(bundles: Seq<CarvedBundle>) -> Seq<Carved> {
    Seq::new(bundles.len(), |i: int| bundles[i]@)
}

/// No two of the bundles name the same row.
pub open spec fn distinct_indices(bundles: Seq<Carved>) -> bool {
    forall|i: int, j: int|
        0 <= i < j < bundles.len() ==> bundles[i].bundle_index != bundles[j].bundle_index
}

/// What a restore did, so a caller can log it without querying again.
#[derive(Debug, Clone, Copy, PartialEq, Eq)]
pub struct RestoreOutcome {
    /// Bundles whose secrets this call wrote.
    pub restored: u32,
    /// Bundles that already held the carved secrets, so nothing was written.
    pub already_present: u32,
}

/// A [`RestoreOutcome`] as the contracts speak of it.
pub ghost struct Tally {
    pub restored: nat,
    pub already_present: nat,
}

impl View for RestoreOutcome {
    type V = Tally;

    open spec fn view(&self) -> Tally {
        Tally { restored: self.restored as nat, already_present: self.already_present as nat }
    }
}

impl RestoreOutcome {
    /// Whether the database was left unchanged.
    pub fn is_noop(&self) -> (noop: bool)
        ensures
            noop == (self.restored == 0),
    {
        self.restored == 0
    }
}

} // verus!
