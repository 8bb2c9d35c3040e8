//! The statements that a restore issues.
//!
//! Every value is a named parameter. SQLite numbers named parameters from 1, in
//! the order in which a statement first names them, and it is by these numbers
//! that values are bound. The statement that overwrites a row is written from a
//! list of assignments, so that what it sets can be read off the list.

use vstd::prelude::*;

verus! {

/// A column of `bundles` that a restore reads or sets.
#[derive(Debug, Clone, Copy, PartialEq, Eq)]
pub enum BundleColumn {
    VanCommRand,
    GovComm,
    TotalNoteValue,
    AddressIndex,
    DelegationTxHash,
    NotePositionsBlob,
    NoteIdentityHashesBlob,
    DummyNullifiers,
    RhoSigned,
    PaddedNoteData,
    NfSigned,
    CmxNew,
    Alpha,
    RseedSigned,
    RseedOutput,
    VanLeafPosition,
    Rk,
    GovNullifiersBlob,
    PaddedNoteSecrets,
    PcztSighash,
    Tx1Effects,
}

/// The name of a column in the schema.
pub open spec fn column_name(column: BundleColumn) -> Seq<char> {
    match column {
        BundleColumn::VanCommRand => "van_comm_rand"@,
        BundleColumn::GovComm => "gov_comm"@,
        BundleColumn::TotalNoteValue => "total_note_value"@,
        BundleColumn::AddressIndex => "address_index"@,
        BundleColumn::DelegationTxHash => "delegation_tx_hash"@,
        BundleColumn::NotePositionsBlob => "note_positions_blob"@,
        BundleColumn::NoteIdentityHashesBlob => "note_identity_hashes_blob"@,
        BundleColumn::DummyNullifiers => "dummy_nullifiers"@,
        BundleColumn::RhoSigned => "rho_signed"@,
        BundleColumn::PaddedNoteData => "padded_note_data"@,
        BundleColumn::NfSigned => "nf_signed"@,
        BundleColumn::CmxNew => "cmx_new"@,
        BundleColumn::Alpha => "alpha"@,
        BundleColumn::RseedSigned => "rseed_signed"@,
        BundleColumn::RseedOutput => "rseed_output"@,
        BundleColumn::VanLeafPosition => "van_leaf_position"@,
        BundleColumn::Rk => "rk"@,
        BundleColumn::GovNullifiersBlob => "gov_nullifiers_blob"@,
        BundleColumn::PaddedNoteSecrets => "padded_note_secrets"@,
        BundleColumn::PcztSighash => "pczt_sighash"@,
        BundleColumn::Tx1Effects => "tx1_effects"@,
    }
}

impl BundleColumn {
    /// The name of the column in the schema.
    pub fn name(self) -> (name: &'static str)
        ensures
            name@ == column_name(self),
    {
        match self {
            BundleColumn::VanCommRand => "van_comm_rand",
            BundleColumn::GovComm => "gov_comm",
            BundleColumn::TotalNoteValue => "total_note_value",
            BundleColumn::AddressIndex => "address_index",
            BundleColumn::DelegationTxHash => "delegation_tx_hash",
            BundleColumn::NotePositionsBlob => "note_positions_blob",
            BundleColumn::NoteIdentityHashesBlob => "note_identity_hashes_blob",
            BundleColumn::DummyNullifiers => "dummy_nullifiers",
            BundleColumn::RhoSigned => "rho_signed",
            BundleColumn::PaddedNoteData => "padded_note_data",
            BundleColumn::NfSigned => "nf_signed",
            BundleColumn::CmxNew => "cmx_new",
            BundleColumn::Alpha => "alpha",
            BundleColumn::RseedSigned => "rseed_signed",
            BundleColumn::RseedOutput => "rseed_output",
            BundleColumn::VanLeafPosition => "van_leaf_position",
            BundleColumn::Rk => "rk",
            BundleColumn::GovNullifiersBlob => "gov_nullifiers_blob",
            BundleColumn::PaddedNoteSecrets => "padded_note_secrets",
            BundleColumn::PcztSighash => "pczt_sighash",
            BundleColumn::Tx1Effects => "tx1_effects",
        }
    }
}

/// A carved value that is bound to the statement that overwrites a row.
#[derive(Debug, Clone, Copy, PartialEq, Eq)]
pub enum Parameter {
    /// The blinding factor.
    Rand,
    /// The VAN.
    Van,
    /// The weight.
    Total,
    /// The transaction hash.
    TxHash,
}

/// The name of a parameter.
pub open spec fn parameter_name(parameter: Parameter) -> Seq<char> {
    match parameter {
        Parameter::Rand => ":rand"@,
        Parameter::Van => ":van"@,
        Parameter::Total => ":total"@,
        Parameter::TxHash => ":tx_hash"@,
    }
}

impl Parameter {
    /// The name of the parameter.
    pub fn name(self) -> (name: &'static str)
        ensures
            name@ == parameter_name(self),
    {
        match self {
            Parameter::Rand => ":rand",
            Parameter::Van => ":van",
            Parameter::Total => ":total",
            Parameter::TxHash => ":tx_hash",
        }
    }
}

/// What an assignment sets a column to.
#[derive(Debug, Clone, Copy, PartialEq, Eq)]
pub enum Source {
    /// A bound value.
    Bound(Parameter),
    /// The number 0.
    Zero,
    /// No value.
    Null,
}

/// One `column = source` of an `UPDATE`.
#[derive(Debug, Clone, Copy, PartialEq, Eq)]
pub struct Assignment {
    pub column: BundleColumn,
    pub source: Source,
}

/// The columns that say which delegation a row holds.
pub open spec fn identity_assignments() -> Seq<Assignment> {
    seq![
        Assignment { column: BundleColumn::VanCommRand, source: Source::Bound(Parameter::Rand) },
        Assignment { column: BundleColumn::GovComm, source: Source::Bound(Parameter::Van) },
        Assignment { column: BundleColumn::TotalNoteValue, source: Source::Bound(Parameter::Total) },
        Assignment { column: BundleColumn::AddressIndex, source: Source::Zero },
        Assignment { column: BundleColumn::DelegationTxHash, source: Source::Bound(Parameter::TxHash) },
    ]
}

/// The columns that describe one generation of a delegation only: its signed
/// transaction, its notes, and where the chain confirmed it.
pub open spec fn generation_columns() -> Seq<BundleColumn> {
    seq![
        BundleColumn::NotePositionsBlob,
        BundleColumn::NoteIdentityHashesBlob,
        BundleColumn::DummyNullifiers,
        BundleColumn::RhoSigned,
        BundleColumn::PaddedNoteData,
        BundleColumn::NfSigned,
        BundleColumn::CmxNew,
        BundleColumn::Alpha,
        BundleColumn::RseedSigned,
        BundleColumn::RseedOutput,
        BundleColumn::VanLeafPosition,
        BundleColumn::Rk,
        BundleColumn::GovNullifiersBlob,
        BundleColumn::PaddedNoteSecrets,
        BundleColumn::PcztSighash,
        BundleColumn::Tx1Effects,
    ]
}

/// What a restore sets in a row: the carved identity, and nothing of the
/// generation that it supersedes.
pub open spec fn restore_assignments() -> Seq<Assignment> {
    identity_assignments() + generation_columns().map_values(
        |column: BundleColumn| Assignment { column, source: Source::Null },
    )
}

/// The parameters that a list of assignments names, in the order in which each is
/// first named.
pub open spec fn bound_parameters(list: Seq<Assignment>) -> Seq<Parameter>
    decreases list.len(),
{
    if list.len() == 0 {
        Seq::empty()
    } else {
        let before = bound_parameters(list.drop_last());
        match list.last().source {
            Source::Bound(parameter) => if before.contains(parameter) {
                before
            } else {
                before.push(parameter)
            },
            _ => before,
        }
    }
}

/// The number of a parameter of the statement that overwrites a row: its place,
/// counted from 1, among those that the assignments name.
pub open spec fn parameter_number(parameter: Parameter) -> int {
    1 + bound_parameters(restore_assignments()).index_of(parameter)
}

/// How many values are bound to the statement that overwrites a row before those
/// that name the row. The condition comes after the assignments.
pub open spec fn carved_parameters() -> int {
    bound_parameters(restore_assignments()).len() as int
}

/// Assignments of no value name no parameter.
proof fn lemma_nulls_are_not_bound(list: Seq<Assignment>, nulls: Seq<Assignment>)
    requires
        forall|i: int| 0 <= i < nulls.len() ==> (#[trigger] nulls[i]).source is Null,
    ensures
        bound_parameters(list + nulls) == bound_parameters(list),
    decreases nulls.len(),
{
    if nulls.len() == 0 {
        assert(list + nulls =~= list);
    } else {
        lemma_nulls_are_not_bound(list, nulls.drop_last());
        assert((list + nulls).drop_last() =~= list + nulls.drop_last());
        assert((list + nulls).last() == nulls[nulls.len() - 1]);
    }
}

/// The numbers of the parameters.
pub(crate) proof fn lemma_parameter_numbers()
    ensures
        parameter_number(Parameter::Rand) == 1,
        parameter_number(Parameter::Van) == 2,
        parameter_number(Parameter::Total) == 3,
        parameter_number(Parameter::TxHash) == 4,
        carved_parameters() == 4,
{
    let list = identity_assignments();
    let named = seq![Parameter::Rand, Parameter::Van, Parameter::Total, Parameter::TxHash];
    assert(bound_parameters(list) =~= named) by {
        assert(bound_parameters(list.take(0)) =~= named.take(0));
        assert(list.take(1).drop_last() =~= list.take(0));
        assert(list.take(2).drop_last() =~= list.take(1));
        assert(list.take(3).drop_last() =~= list.take(2));
        assert(list.take(4).drop_last() =~= list.take(3));
        assert(list.drop_last() =~= list.take(4));
        assert(bound_parameters(list.take(1)) =~= named.take(1));
        assert(bound_parameters(list.take(2)) =~= named.take(2));
        assert(bound_parameters(list.take(3)) =~= named.take(3));
        assert(bound_parameters(list.take(4)) =~= named.take(3));
    }
    lemma_nulls_are_not_bound(
        list,
        generation_columns().map_values(
            |column: BundleColumn| Assignment { column, source: Source::Null },
        ),
    );
    assert(named[0] == Parameter::Rand && named[1] == Parameter::Van && named[2]
        == Parameter::Total && named[3] == Parameter::TxHash);
}

/// How a source is written.
pub open spec fn source_text(source: Source) -> Seq<char> {
    match source {
        Source::Bound(parameter) => parameter_name(parameter),
        Source::Zero => "0"@,
        Source::Null => "NULL"@,
    }
}

/// How an assignment is written.
pub open spec fn assignment_text(assignment: Assignment) -> Seq<char> {
    column_name(assignment.column) + " = "@ + source_text(assignment.source)
}

/// How a list of assignments is written, each on a line of its own.
pub open spec fn assignments_text(list: Seq<Assignment>) -> Seq<char>
    decreases list.len(),
{
    if list.len() == 0 {
        Seq::empty()
    } else if list.len() == 1 {
        assignment_text(list[0])
    } else {
        assignments_text(list.drop_last()) + ",\n                     "@ + assignment_text(
            list.last(),
        )
    }
}

/// Asks whether a round exists for a wallet. The round is parameter 1, the wallet
/// parameter 2.
pub open spec fn round_lookup_sql() -> Seq<char> {
    "SELECT EXISTS(SELECT 1 FROM rounds\n                           WHERE round_id = :round_id AND wallet_id = :wallet_id)"@
}

/// Asks for the secret and the transaction hash of a bundle. Its round, wallet
/// and index are parameters 1 to 3.
pub open spec fn bundle_read_sql() -> Seq<char> {
    "SELECT van_comm_rand, delegation_tx_hash FROM bundles\n                 WHERE round_id = :round_id AND wallet_id = :wallet_id\n                   AND bundle_index = :bundle_index"@
}

/// Overwrites the row of a bundle. The carved values are parameters 1 to 4; the
/// round, wallet and index are parameters 5 to 7.
pub open spec fn bundle_write_sql() -> Seq<char> {
    "UPDATE bundles SET\n                     "@ + assignments_text(restore_assignments())
        + "\n                 WHERE round_id = :round_id AND wallet_id = :wallet_id\n                   AND bundle_index = :bundle_index"@
}

/// The text of the statement that looks a round up.
pub fn round_lookup_text() -> (sql: &'static str)
    ensures
        sql@ == round_lookup_sql(),
{
    "SELECT EXISTS(SELECT 1 FROM rounds\n                           WHERE round_id = :round_id AND wallet_id = :wallet_id)"
}

/// The text of the statement that reads a bundle.
pub fn bundle_read_text() -> (sql: &'static str)
    ensures
        sql@ == bundle_read_sql(),
{
    "SELECT van_comm_rand, delegation_tx_hash FROM bundles\n                 WHERE round_id = :round_id AND wallet_id = :wallet_id\n                   AND bundle_index = :bundle_index"
}

fn restore_list() -> (list: Vec<Assignment>)
    ensures
        list@ == restore_assignments(),
{
    let identity: Vec<Assignment> = vec![
        Assignment { column: BundleColumn::VanCommRand, source: Source::Bound(Parameter::Rand) },
        Assignment { column: BundleColumn::GovComm, source: Source::Bound(Parameter::Van) },
        Assignment { column: BundleColumn::TotalNoteValue, source: Source::Bound(Parameter::Total) },
        Assignment { column: BundleColumn::AddressIndex, source: Source::Zero },
        Assignment { column: BundleColumn::DelegationTxHash, source: Source::Bound(Parameter::TxHash) },
    ];
    let cleared: Vec<BundleColumn> = vec![
        BundleColumn::NotePositionsBlob,
        BundleColumn::NoteIdentityHashesBlob,
        BundleColumn::DummyNullifiers,
        BundleColumn::RhoSigned,
        BundleColumn::PaddedNoteData,
        BundleColumn::NfSigned,
        BundleColumn::CmxNew,
        BundleColumn::Alpha,
        BundleColumn::RseedSigned,
        BundleColumn::RseedOutput,
        BundleColumn::VanLeafPosition,
        BundleColumn::Rk,
        BundleColumn::GovNullifiersBlob,
        BundleColumn::PaddedNoteSecrets,
        BundleColumn::PcztSighash,
        BundleColumn::Tx1Effects,
    ];
    let mut list = identity;
    let ghost nulls = generation_columns().map_values(
        |column: BundleColumn| Assignment { column, source: Source::Null },
    );
    assert(list@ =~= identity_assignments());
    assert(cleared@ =~= generation_columns());
    let mut i: usize = 0;
    while i < cleared.len()
        invariant
            i <= cleared.len(),
            cleared@ == generation_columns(),
            nulls == generation_columns().map_values(
                |column: BundleColumn| Assignment { column, source: Source::Null },
            ),
            list@ == identity_assignments() + nulls.take(i as int),
        decreases cleared.len() - i,
    {
        list.push(Assignment { column: cleared[i], source: Source::Null });
        assert(nulls.take(i + 1) =~= nulls.take(i as int).push(nulls[i as int]));
        i += 1;
    }
    assert(nulls.take(i as int) =~= nulls);
    list
}

fn append_assignment(sql: &mut String, assignment: Assignment)
    ensures
        final(sql)@ == old(sql)@ + assignment_text(assignment),
{
    sql.append(assignment.column.name());
    sql.append(" = ");
    match assignment.source {
        Source::Bound(parameter) => {
            sql.append(parameter.name());
        },
        Source::Zero => {
            sql.append("0");
        },
        Source::Null => {
            sql.append("NULL");
        },
    }
    assert(sql@ =~= old(sql)@ + assignment_text(assignment));
}

/// The text of the statement that overwrites a bundle.
pub fn bundle_write_text() -> (sql: String)
    ensures
        sql@ == bundle_write_sql(),
{
    let list = restore_list();
    let mut sql = "UPDATE bundles SET\n                     ".to_owned();
    let ghost head = sql@;
    let mut i: usize = 0;
    while i < list.len()
        invariant
            i <= list.len(),
            sql@ == head + assignments_text(list@.take(i as int)),
        decreases list.len() - i,
    {
        if i > 0 {
            sql.append(",\n                     ");
        }
        append_assignment(&mut sql, list[i]);
        proof {
            let grown = list@.take(i + 1);
            assert(grown.drop_last() =~= list@.take(i as int));
            assert(grown.last() == list@[i as int]);
            assert(sql@ =~= head + assignments_text(grown));
        }
        i += 1;
    }
    assert(list@.take(i as int) =~= list@);
    sql.append("\n                 WHERE round_id = :round_id AND wallet_id = :wallet_id\n                   AND bundle_index = :bundle_index");
    sql
}

} // verus!
