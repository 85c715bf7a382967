//! Branches of the chain, and the one among them that the node favours.

use crate::block::ChainLength;
use crate::hash::HeaderHash;
use crate::multiverse::GCRoot;
use vstd::prelude::*;

verus! {

/// The end of one chain: a handle that pins its ledger state in the
/// multiverse, its length, and a copy of that state at hand.
#[derive(Debug)]
pub struct Branch<L> {
    pub root: GCRoot,
    pub chain_length: ChainLength,
    pub state: L,
}

/// No branch was ever installed as tip.
#[derive(Clone, Copy, Debug, PartialEq, Eq, Structural)]
pub struct TipGetError {}

/// The branch offered as tip is not longer than the tip it would replace.
#[derive(Clone, Copy, Debug, PartialEq, Eq, Structural)]
pub struct TipReplaceError {}

/// The favoured branch, once one has been installed.
#[derive(Debug)]
pub struct Tip<L> {
    branch: Option<Branch<L>>,
}

impl<L> Branch<L> {
    pub open spec fn spec_hash(&self) -> HeaderHash {
        self.root.spec_hash()
    }

    pub fn new(root: GCRoot, chain_length: ChainLength, state: L) -> (b: Branch<L>)
        ensures
            b == (Branch { root, chain_length, state }),
    {
        Branch { root, chain_length, state }
    }

    /// The hash of the block that this branch ends with.
    #[verifier::when_used_as_spec(spec_hash)]
    pub fn hash(&self) -> (h: HeaderHash)
        ensures
            h == self.spec_hash(),
    {
        self.root.hash()
    }

    pub fn chain_length(&self) -> (n: ChainLength)
        ensures
            n == self.chain_length,
    {
        self.chain_length
    }

    pub fn state(&self) -> (s: &L)
        ensures
            *s == self.state,
    {
        &self.state
    }
}

impl<L> View for Tip<L> {
    type V = Option<Branch<L>>;

    closed spec fn view(&self) -> Option<Branch<L>> {
        self.branch
    }
}

impl<L> Tip<L> {
    /// Whether `branch` may take the place of the tip: always while no tip
    /// is installed, and after that only a longer branch.
    pub open spec fn admits(&self, branch: Branch<L>) -> bool {
        match self@ {
            Some(current) => branch.chain_length > current.chain_length,
            None => true,
        }
    }

    /// A tip with no branch installed yet.
    pub fn empty() -> (t: Tip<L>)
        ensures
            t@ is None,
    {
        Tip { branch: None }
    }

    pub fn new(branch: Branch<L>) -> (t: Tip<L>)
        ensures
            t@ == Some(branch),
    {
        Tip { branch: Some(branch) }
    }

    /// The hash of the block that the favoured branch ends with.
    pub fn hash(&self) -> (r: Result<HeaderHash, TipGetError>)
        ensures
            match r {
                Ok(h) => self@ is Some && h == self@.unwrap().spec_hash(),
                Err(_) => self@ is None,
            },
    {
        match &self.branch {
            Some(branch) => Ok(branch.hash()),
            None => Err(TipGetError {  }),
        }
    }

    /// The favoured branch.
    pub fn branch(&self) -> (r: Result<&Branch<L>, TipGetError>)
        ensures
            match r {
                Ok(b) => self@ == Some(*b),
                Err(_) => self@ is None,
            },
    {
        match &self.branch {
            Some(branch) => Ok(branch),
            None => Err(TipGetError {  }),
        }
    }

    /// Installs `branch` as the tip in one step and hands back the branch
    /// it replaces, if there was one. A branch that is not longer than the
    /// installed one is refused, and the tip stays as it was.
    pub fn replace_with(&mut self, branch: Branch<L>) -> (r: Result<
        Option<Branch<L>>,
        TipReplaceError,
    >)
        ensures
            match r {
                Ok(previous) => old(self).admits(branch) && previous == old(self)@ && final(self)@
                    == Some(branch),
                Err(_) => !old(self).admits(branch) && final(self)@ == old(self)@,
            },
    {
        let admitted = match &self.branch {
            Some(current) => branch.chain_length > current.chain_length,
            None => true,
        };
        if !admitted {
            return Err(TipReplaceError {  });
        }
        let previous = self.branch.take();
        self.branch = Some(branch);
        Ok(previous)
    }
}

} // verus!
