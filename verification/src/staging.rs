//! A transaction under construction: inputs and outputs are gathered while
//! it is balancing, witnesses while it is finalizing, and once sealed it
//! changes no more.

use crate::text::decimal;
use crate::text::decimal_text;
use vstd::prelude::*;
use vstd::string::StringExecFns;

verus! {

/// The number of bytes that name the source of an input.
pub const INPUT_PTR_SIZE: usize = 32;

/// The stage that a transaction under construction is at.
#[derive(Debug, PartialEq, Eq, Copy, Clone, Structural)]
pub enum StagingKind {
    Balancing,
    Finalizing,
    Sealed,
}

/// Funds to spend: an output of an earlier transaction by its index, or an
/// account, and the value taken from it.
#[derive(Debug, PartialEq, Eq, Copy, Clone)]
pub struct Input {
    pub index_or_account: u8,
    pub value: u64,
    pub input_ptr: [u8; INPUT_PTR_SIZE],
}

/// Funds to hand over: the address that receives them, in its binary form,
/// and their value.
#[derive(Debug, PartialEq, Eq)]
pub struct Output {
    pub address: Vec<u8>,
    pub value: u64,
}

/// The proof that the owner of an input agrees to the transaction, in its
/// binary form.
#[derive(Debug, PartialEq, Eq)]
pub struct Witness {
    pub bytes: Vec<u8>,
}

/// How inputs and outputs of a transaction compare once the fee is taken.
#[derive(Debug, PartialEq, Eq, Copy, Clone, Structural)]
pub enum Balance {
    Positive(u64),
    Negative(u64),
    Zero,
}

/// Why the fee and the change of a transaction could not be settled. The
/// code is that of the builder which was asked.
#[derive(Debug, PartialEq, Eq, Copy, Clone, Structural)]
pub struct FinalizationError {
    pub code: u32,
}

/// Why no message could be built of a sealed transaction. The code is that
/// of the builder which was asked.
#[derive(Debug, PartialEq, Eq, Copy, Clone, Structural)]
pub struct BuildError {
    pub code: u32,
}

/// Why a step on a transaction under construction was refused.
#[allow(inconsistent_fields)]
#[derive(Debug, PartialEq, Eq, Copy, Clone, Structural)]
pub enum Error {
    TxKindToAddInputInvalid { kind: StagingKind },
    TxKindToAddOutputInvalid { kind: StagingKind },
    TxKindToAddWitnessInvalid { kind: StagingKind },
    TxKindToSealInvalid { kind: StagingKind },
    TxKindToFinalizeInvalid { kind: StagingKind },
    TxKindToGetMessageInvalid { kind: StagingKind },
    TooManyWitnessesToAddWitness { actual: usize, max: usize },
    WitnessCountToSealInvalid { actual: usize, expected: usize },
    AccountAddressSingle,
    AccountAddressGroup,
    TxFinalizationFailed { source: FinalizationError },
    GeneratedTxBuildingFailed { source: BuildError },
    GeneratedTxTypeUnexpected,
}

/// The value of `index_or_account` that marks an input as taken from an account.
pub const ACCOUNT_INPUT: u8 = 0xff;

/// The kinds of address, each with the public keys it is made of.
#[derive(Debug, PartialEq, Eq, Copy, Clone)]
pub enum AddressKind {
    /// An address of unspent outputs.
    Single([u8; INPUT_PTR_SIZE]),
    /// An address of unspent outputs that delegates its stake.
    Group([u8; INPUT_PTR_SIZE], [u8; INPUT_PTR_SIZE]),
    /// The address of an account.
    Account([u8; INPUT_PTR_SIZE]),
}

/// The step that adds funds of an account to a transaction.
#[derive(Debug, PartialEq, Eq, Copy, Clone)]
pub struct AddAccount {
    /// The account to debit the funds from.
    pub account: AddressKind,
    pub value: u64,
}

/// What settling a transaction gives: how it balances, and the inputs and
/// outputs it has from then on.
pub struct Finalized {
    pub balance: Balance,
    pub inputs: Vec<Input>,
    pub outputs: Vec<Output>,
}

/// A transaction under construction.
pub struct Staging {
    kind: StagingKind,
    inputs: Vec<Input>,
    outputs: Vec<Output>,
    witnesses: Vec<Witness>,
}

/// The transaction as its three lists and the stage it is at.
pub struct StagingView {
    pub kind: StagingKind,
    pub inputs: Seq<Input>,
    pub outputs: Seq<Output>,
    pub witnesses: Seq<Witness>,
}

impl StagingView {
    /// Witnesses come only once the transaction is finalizing, never more
    /// of them than inputs, and a sealed transaction has one for each input.
    pub open spec fn wf(self) -> bool {
        match self.kind {
            StagingKind::Balancing => self.witnesses.len() == 0,
            StagingKind::Finalizing => self.witnesses.len() <= self.inputs.len(),
            StagingKind::Sealed => self.witnesses.len() == self.inputs.len(),
        }
    }
}

impl StagingKind {
    /// The name of the stage in lower case.
    pub open spec fn spec_name(&self) -> Seq<char> {
        match self {
            StagingKind::Balancing => "balancing"@,
            StagingKind::Finalizing => "finalizing"@,
            StagingKind::Sealed => "sealed"@,
        }
    }

    pub fn name(&self) -> (s: String)
        ensures
            s@ == self.spec_name(),
    {
        match self {
            StagingKind::Balancing => String::from_str("balancing"),
            StagingKind::Finalizing => String::from_str("finalizing"),
            StagingKind::Sealed => String::from_str("sealed"),
        }
    }
}

impl View for Staging {
    type V = StagingView;

    closed spec fn view(&self) -> StagingView {
        StagingView {
            kind: self.kind,
            inputs: self.inputs@,
            outputs: self.outputs@,
            witnesses: self.witnesses@,
        }
    }
}

impl Staging {
    /// An empty transaction, open for inputs and outputs.
    pub fn new() -> (s: Staging)
        ensures
            s@.wf(),
            s@ == (StagingView {
                kind: StagingKind::Balancing,
                inputs: Seq::empty(),
                outputs: Seq::empty(),
                witnesses: Seq::empty(),
            }),
    {
        Staging {
            kind: StagingKind::Balancing,
            inputs: Vec::new(),
            outputs: Vec::new(),
            witnesses: Vec::new(),
        }
    }

    /// A transaction as it was put down earlier, taken as it stands.
    pub fn from_parts(
        kind: StagingKind,
        inputs: Vec<Input>,
        outputs: Vec<Output>,
        witnesses: Vec<Witness>,
    ) -> (s: Staging)
        ensures
            s@ == (StagingView {
                kind,
                inputs: inputs@,
                outputs: outputs@,
                witnesses: witnesses@,
            }),
    {
        Staging { kind, inputs, outputs, witnesses }
    }

    /// Adds an input at the end; only a balancing transaction takes one.
    pub fn add_input(&mut self, input: Input) -> (r: Result<(), Error>)
        ensures
            old(self)@.wf() ==> final(self)@.wf(),
            match r {
                Ok(()) => old(self)@.kind == StagingKind::Balancing && final(self)@ == (StagingView {
                    inputs: old(self)@.inputs.push(input),
                    ..old(self)@
                }),
                Err(e) => old(self)@.kind != StagingKind::Balancing && e == (
                Error::TxKindToAddInputInvalid { kind: old(self)@.kind }) && final(self)@ == old(
                    self,
                )@,
            },
    {
        if self.kind != StagingKind::Balancing {
            return Err(Error::TxKindToAddInputInvalid { kind: self.kind });
        }
        self.inputs.push(input);
        Ok(())
    }

    /// Adds an output at the end; only a balancing transaction takes one.
    pub fn add_output(&mut self, output: Output) -> (r: Result<(), Error>)
        ensures
            old(self)@.wf() ==> final(self)@.wf(),
            match r {
                Ok(()) => old(self)@.kind == StagingKind::Balancing && final(self)@ == (StagingView {
                    outputs: old(self)@.outputs.push(output),
                    ..old(self)@
                }),
                Err(e) => old(self)@.kind != StagingKind::Balancing && e == (
                Error::TxKindToAddOutputInvalid { kind: old(self)@.kind }) && final(self)@ == old(
                    self,
                )@,
            },
    {
        if self.kind != StagingKind::Balancing {
            return Err(Error::TxKindToAddOutputInvalid { kind: self.kind });
        }
        self.outputs.push(output);
        Ok(())
    }

    /// What `add_witness` answers on a transaction that looks like `v`.
    pub open spec fn add_witness_outcome(v: StagingView) -> Result<(), Error> {
        if v.kind != StagingKind::Finalizing {
            Err(Error::TxKindToAddWitnessInvalid { kind: v.kind })
        } else if v.inputs.len() <= v.witnesses.len() {
            Err(
                Error::TooManyWitnessesToAddWitness {
                    actual: v.witnesses.len() as usize,
                    max: v.inputs.len() as usize,
                },
            )
        } else {
            Ok(())
        }
    }

    /// Adds a witness at the end; only a finalizing transaction takes one,
    /// and no more of them than it has inputs.
    pub fn add_witness(&mut self, witness: Witness) -> (r: Result<(), Error>)
        ensures
            old(self)@.wf() ==> final(self)@.wf(),
            r == Self::add_witness_outcome(old(self)@),
            final(self)@ == if r is Ok {
                StagingView { witnesses: old(self)@.witnesses.push(witness), ..old(self)@ }
            } else {
                old(self)@
            },
    {
        if self.kind != StagingKind::Finalizing {
            return Err(Error::TxKindToAddWitnessInvalid { kind: self.kind });
        }
        if self.inputs.len() <= self.witnesses.len() {
            return Err(
                Error::TooManyWitnessesToAddWitness {
                    actual: self.witnesses.len(),
                    max: self.inputs.len(),
                },
            );
        }
        self.witnesses.push(witness);
        Ok(())
    }

    pub fn witness_count(&self) -> (n: usize)
        ensures
            n == self@.witnesses.len(),
    {
        self.witnesses.len()
    }

    pub fn staging_kind_name(&self) -> (s: String)
        ensures
            s@ == self@.kind.spec_name(),
    {
        self.kind.name()
    }

    pub fn kind(&self) -> (k: StagingKind)
        ensures
            k == self@.kind,
    {
        self.kind
    }

    pub closed spec fn spec_inputs(&self) -> &Vec<Input> {
        &self.inputs
    }

    pub closed spec fn spec_outputs(&self) -> &Vec<Output> {
        &self.outputs
    }

    #[verifier::when_used_as_spec(spec_inputs)]
    pub fn inputs(&self) -> (v: &Vec<Input>)
        ensures
            v == self.spec_inputs(),
            v@ == self@.inputs,
    {
        &self.inputs
    }

    #[verifier::when_used_as_spec(spec_outputs)]
    pub fn outputs(&self) -> (v: &Vec<Output>)
        ensures
            v == self.spec_outputs(),
            v@ == self@.outputs,
    {
        &self.outputs
    }

    pub fn witnesses(&self) -> (v: &Vec<Witness>)
        ensures
            v@ == self@.witnesses,
    {
        &self.witnesses
    }

    /// Settles fee and change of a balancing transaction: `settle` is given
    /// the inputs and outputs and hands back what they become. Where it
    /// succeeds the transaction holds those and is finalizing; where it
    /// fails, and where the transaction is not balancing, nothing changes.
    pub fn finalize<F: FnOnce(&Vec<Input>, &Vec<Output>) -> Result<Finalized, FinalizationError>>(
        &mut self,
        settle: F,
    ) -> (r: Result<Balance, Error>)
        requires
            old(self)@.kind == StagingKind::Balancing ==> call_requires(
                settle,
                (old(self).inputs(), old(self).outputs()),
            ),
        ensures
            old(self)@.wf() ==> final(self)@.wf(),
            match r {
                Ok(balance) => {
                    &&& old(self)@.kind == StagingKind::Balancing
                    &&& exists|settled: Finalized|
                        {
                            &&& #[trigger] call_ensures(
                                settle,
                                (old(self).inputs(), old(self).outputs()),
                                Ok(settled),
                            )
                            &&& balance == settled.balance
                            &&& final(self)@ == (StagingView {
                                kind: StagingKind::Finalizing,
                                inputs: settled.inputs@,
                                outputs: settled.outputs@,
                                witnesses: old(self)@.witnesses,
                            })
                        }
                },
                Err(Error::TxKindToFinalizeInvalid { kind }) => {
                    &&& kind == old(self)@.kind
                    &&& kind != StagingKind::Balancing
                    &&& final(self)@ == old(self)@
                },
                Err(Error::TxFinalizationFailed { source }) => {
                    &&& old(self)@.kind == StagingKind::Balancing
                    &&& call_ensures(
                        settle,
                        (old(self).inputs(), old(self).outputs()),
                        Err(source),
                    )
                    &&& final(self)@ == old(self)@
                },
                Err(_) => false,
            },
    {
        if self.kind != StagingKind::Balancing {
            return Err(Error::TxKindToFinalizeInvalid { kind: self.kind });
        }
        let settled = match settle(&self.inputs, &self.outputs) {
            Ok(settled) => settled,
            Err(source) => {
                return Err(Error::TxFinalizationFailed { source });
            },
        };
        let balance = settled.balance;
        proof {
            assert(call_ensures(settle, (old(self).inputs(), old(self).outputs()), Ok(settled)));
        }
        self.inputs = settled.inputs;
        self.outputs = settled.outputs;
        self.kind = StagingKind::Finalizing;
        Ok(balance)
    }

    /// What `seal` answers on a transaction that looks like `v`.
    pub open spec fn seal_outcome(v: StagingView) -> Result<(), Error> {
        if v.kind != StagingKind::Finalizing {
            Err(Error::TxKindToSealInvalid { kind: v.kind })
        } else if v.inputs.len() != v.witnesses.len() {
            Err(
                Error::WitnessCountToSealInvalid {
                    actual: v.witnesses.len() as usize,
                    expected: v.inputs.len() as usize,
                },
            )
        } else {
            Ok(())
        }
    }

    /// Seals a finalizing transaction that has a witness for each input.
    pub fn seal(&mut self) -> (r: Result<(), Error>)
        ensures
            old(self)@.wf() ==> final(self)@.wf(),
            r == Self::seal_outcome(old(self)@),
            final(self)@ == if r is Ok {
                StagingView { kind: StagingKind::Sealed, ..old(self)@ }
            } else {
                old(self)@
            },
    {
        if self.kind != StagingKind::Finalizing {
            return Err(Error::TxKindToSealInvalid { kind: self.kind });
        }
        if self.inputs.len() != self.witnesses.len() {
            return Err(
                Error::WitnessCountToSealInvalid {
                    actual: self.witnesses.len(),
                    expected: self.inputs.len(),
                },
            );
        }
        self.kind = StagingKind::Sealed;
        Ok(())
    }

    /// The message that carries a sealed transaction: `build` is given the
    /// transaction with its witnesses and hands back the message, or `None`
    /// where what it built is no transaction message.
    pub fn message<M, F: FnOnce(&Staging) -> Result<Option<M>, BuildError>>(&self, build: F) -> (r:
        Result<M, Error>)
        requires
            self@.kind == StagingKind::Sealed ==> call_requires(build, (self,)),
        ensures
            match r {
                Ok(message) => self@.kind == StagingKind::Sealed && call_ensures(
                    build,
                    (self,),
                    Ok(Some(message)),
                ),
                Err(Error::TxKindToGetMessageInvalid { kind }) => kind == self@.kind && kind
                    != StagingKind::Sealed,
                Err(Error::GeneratedTxBuildingFailed { source }) => self@.kind
                    == StagingKind::Sealed && call_ensures(build, (self,), Err(source)),
                Err(Error::GeneratedTxTypeUnexpected) => self@.kind == StagingKind::Sealed
                    && call_ensures(build, (self,), Ok(None)),
                Err(_) => false,
            },
    {
        if self.kind != StagingKind::Sealed {
            return Err(Error::TxKindToGetMessageInvalid { kind: self.kind });
        }
        match build(self) {
            Ok(Some(message)) => Ok(message),
            Ok(None) => Err(Error::GeneratedTxTypeUnexpected),
            Err(source) => Err(Error::GeneratedTxBuildingFailed { source }),
        }
    }
}

impl AddAccount {
    /// The input that this step adds, where the address is that of an account.
    pub open spec fn input(&self) -> Result<Input, Error> {
        match self.account {
            AddressKind::Account(key) => Ok(
                Input { index_or_account: ACCOUNT_INPUT, value: self.value, input_ptr: key },
            ),
            AddressKind::Single(_) => Err(Error::AccountAddressSingle),
            AddressKind::Group(_, _) => Err(Error::AccountAddressGroup),
        }
    }

    /// Adds the funds as an input of `transaction`. An address that is not
    /// that of an account is refused before the transaction is looked at.
    pub fn exec(self, transaction: &mut Staging) -> (r: Result<(), Error>)
        ensures
            old(transaction)@.wf() ==> final(transaction)@.wf(),
            match r {
                Ok(()) => self.input() is Ok && old(transaction)@.kind == StagingKind::Balancing
                    && final(transaction)@ == (StagingView {
                    inputs: old(transaction)@.inputs.push(self.input().unwrap()),
                    ..old(transaction)@
                }),
                Err(e) => final(transaction)@ == old(transaction)@ && match self.input() {
                    Err(refused) => e == refused,
                    Ok(_) => old(transaction)@.kind != StagingKind::Balancing && e == (
                    Error::TxKindToAddInputInvalid { kind: old(transaction)@.kind }),
                },
            },
    {
        let key = match self.account {
            AddressKind::Account(key) => key,
            AddressKind::Single(_) => {
                return Err(Error::AccountAddressSingle);
            },
            AddressKind::Group(_, _) => {
                return Err(Error::AccountAddressGroup);
            },
        };
        transaction.add_input(
            Input { index_or_account: ACCOUNT_INPUT, value: self.value, input_ptr: key },
        )
    }
}

impl Error {
    /// What went wrong, in words.
    pub open spec fn spec_message(&self) -> Seq<char> {
        match self {
            Error::TxKindToAddInputInvalid { kind } => "Adding input to "@ + kind.spec_name()
                + " transaction is not valid"@,
            Error::TxKindToAddOutputInvalid { kind } => "Adding output to "@ + kind.spec_name()
                + " transaction is not valid"@,
            Error::TxKindToAddWitnessInvalid { kind } => "Adding witness to "@ + kind.spec_name()
                + " transaction is not valid"@,
            Error::TxKindToSealInvalid { kind } => "Sealing "@ + kind.spec_name()
                + " transaction is not valid"@,
            Error::TxKindToFinalizeInvalid { kind } => "Finalizing "@ + kind.spec_name()
                + " transaction is not valid"@,
            Error::TxKindToGetMessageInvalid { kind } => "Cannot get message from transaction in "@
                + kind.spec_name() + " state"@,
            Error::TooManyWitnessesToAddWitness { actual, max } =>
                "Too many witnesses in transaction to add another: "@ + decimal_text(*actual as nat)
                + ", maximum is "@ + decimal_text(*max as nat),
            Error::WitnessCountToSealInvalid { actual, expected } =>
                "Invalid number of witnesses in transaction to seal: "@ + decimal_text(
                *actual as nat,
            ) + ", should be "@ + decimal_text(*expected as nat),
            Error::AccountAddressSingle => "Invalid input account, this is a UTxO address."@,
            Error::AccountAddressGroup =>
                "Invalid input account, this is a UTxO address with delegation."@,
            Error::TxFinalizationFailed { source } => "Transaction finalization failed"@,
            Error::GeneratedTxBuildingFailed { source } => "Generated transaction building failed"@,
            Error::GeneratedTxTypeUnexpected => "Unexpected generated transaction type"@,
        }
    }

    pub fn message(&self) -> (s: String)
        ensures
            s@ == self.spec_message(),
    {
        match self {
            Error::TxKindToAddInputInvalid { kind } => String::from_str("Adding input to ").concat(
                kind.name().as_str(),
            ).concat(" transaction is not valid"),
            Error::TxKindToAddOutputInvalid { kind } => String::from_str(
                "Adding output to ",
            ).concat(kind.name().as_str()).concat(" transaction is not valid"),
            Error::TxKindToAddWitnessInvalid { kind } => String::from_str(
                "Adding witness to ",
            ).concat(kind.name().as_str()).concat(" transaction is not valid"),
            Error::TxKindToSealInvalid { kind } => String::from_str("Sealing ").concat(
                kind.name().as_str(),
            ).concat(" transaction is not valid"),
            Error::TxKindToFinalizeInvalid { kind } => String::from_str("Finalizing ").concat(
                kind.name().as_str(),
            ).concat(" transaction is not valid"),
            Error::TxKindToGetMessageInvalid { kind } => String::from_str(
                "Cannot get message from transaction in ",
            ).concat(kind.name().as_str()).concat(" state"),
            Error::TooManyWitnessesToAddWitness { actual, max } => String::from_str(
                "Too many witnesses in transaction to add another: ",
            ).concat(decimal(*actual as u64).as_str()).concat(", maximum is ").concat(
                decimal(*max as u64).as_str(),
            ),
            Error::WitnessCountToSealInvalid { actual, expected } => String::from_str(
                "Invalid number of witnesses in transaction to seal: ",
            ).concat(decimal(*actual as u64).as_str()).concat(", should be ").concat(
                decimal(*expected as u64).as_str(),
            ),
            Error::AccountAddressSingle => String::from_str(
                "Invalid input account, this is a UTxO address.",
            ),
            Error::AccountAddressGroup => String::from_str(
                "Invalid input account, this is a UTxO address with delegation.",
            ),
            Error::TxFinalizationFailed { source } => String::from_str(
                "Transaction finalization failed",
            ),
            Error::GeneratedTxBuildingFailed { source } => String::from_str(
                "Generated transaction building failed",
            ),
            Error::GeneratedTxTypeUnexpected => String::from_str(
                "Unexpected generated transaction type",
            ),
        }
    }
}

} // verus!
