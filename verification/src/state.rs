//! The last processed block of the event listener, and how it is restored.
//!
//! Reading and writing the state file is I/O and stands outside the library: the caller
//! reads the file, parses it, and hands the outcome to [`StateStore::from_state_file`]; to
//! persist, it writes out [`StateStore::snapshot`].

use vstd::prelude::*;

use crate::error::StateError;

verus! {

/// Persisted state format.
#[derive(Debug)]
pub struct PersistedState {
    pub last_block: u64,
    pub chain_id: u32,
    pub updated_at: u64,
}

/// What reading the state file gave.
#[derive(Debug)]
pub enum StateFile {
    /// The file was read and parsed.
    Parsed(PersistedState),
    /// The file was read but did not parse.
    Unparsable,
    /// There is no state file.
    Missing,
    /// The file exists but could not be read.
    Unreadable,
}

/// State store tracking the last synced block.
#[derive(Debug)]
pub struct StateStore {
    path: String,
    chain_id: u32,
    last_synced: u64,
    from_file: bool,
}

impl StateStore {
    pub closed spec fn spec_path(&self) -> Seq<char> {
        self.path@
    }

    pub closed spec fn spec_chain_id(&self) -> u32 {
        self.chain_id
    }

    pub closed spec fn last_synced(&self) -> u64 {
        self.last_synced
    }

    pub closed spec fn loaded_from_file(&self) -> bool {
        self.from_file
    }

    /// A store that starts at `initial_block`, not restored from a file.
    pub fn new_fresh(path: String, chain_id: u32, initial_block: u64) -> (s: Self)
        ensures
            s.spec_path() == path@,
            s.spec_chain_id() == chain_id,
            s.last_synced() == initial_block,
            !s.loaded_from_file(),
    {
        StateStore { path, chain_id, last_synced: initial_block, from_file: false }
    }

    /// Restores the store from what reading the state file at `path` gave. A parsed state
    /// of another chain is refused with [`StateError::ChainIdMismatch`]; a parsed state of
    /// this chain resumes from its last block; a missing, unreadable or unparsable file
    /// starts fresh at `initial_block`.
    pub fn from_state_file(path: String, chain_id: u32, initial_block: u64, file: StateFile) -> (r:
        Result<Self, StateError>)
        ensures
            match file {
                StateFile::Parsed(state) => if state.chain_id != chain_id {
                    r == Err::<Self, StateError>(
                        StateError::ChainIdMismatch { expected: chain_id, actual: state.chain_id },
                    )
                } else {
                    r matches Ok(s) && s.spec_path() == path@ && s.spec_chain_id() == chain_id
                        && s.last_synced() == state.last_block && s.loaded_from_file()
                },
                _ => r matches Ok(s) && s.spec_path() == path@ && s.spec_chain_id() == chain_id
                    && s.last_synced() == initial_block && !s.loaded_from_file(),
            },
    {
        match file {
            StateFile::Parsed(state) => {
                if state.chain_id != chain_id {
                    return Err(StateError::ChainIdMismatch { expected: chain_id, actual: state.chain_id });
                }
                Ok(StateStore { path, chain_id, last_synced: state.last_block, from_file: true })
            },
            _ => Ok(Self::new_fresh(path, chain_id, initial_block)),
        }
    }

    /// Records that `block` was synced: the store keeps the larger of what it had and `block`.
    pub fn update(&mut self, block: u64)
        ensures
            final(self).last_synced() == if block > old(self).last_synced() { block } else { old(self).last_synced() },
            final(self).spec_path() == old(self).spec_path(),
            final(self).spec_chain_id() == old(self).spec_chain_id(),
            final(self).loaded_from_file() == old(self).loaded_from_file(),
    {
        if block > self.last_synced {
            self.last_synced = block;
        }
    }

    /// The last synced block.
    pub fn get(&self) -> (b: u64)
        ensures
            b == self.last_synced(),
    {
        self.last_synced
    }

    /// Whether the state was restored from an existing file.
    pub fn was_loaded_from_file(&self) -> (r: bool)
        ensures
            r == self.loaded_from_file(),
    {
        self.from_file
    }

    /// The path of the state file.
    pub fn path(&self) -> (p: &String)
        ensures
            p@ == self.spec_path(),
    {
        &self.path
    }

    /// The state to write to the file, stamped `updated_at` (milliseconds since the epoch).
    pub fn snapshot(&self, updated_at: u64) -> (p: PersistedState)
        ensures
            p.last_block == self.last_synced(),
            p.chain_id == self.spec_chain_id(),
            p.updated_at == updated_at,
    {
        PersistedState { last_block: self.last_synced, chain_id: self.chain_id, updated_at }
    }
}

/// The last synced block never goes back: after updates with any blocks, it is the largest
/// of the starting value and those blocks.
pub proof fn lemma_update_is_monotone(before: u64, block: u64, after: u64)
    requires
        after == if block > before { block } else { before },
    ensures
        after >= before,
        after >= block,
        after == before || after == block,
{
}

} // verus!
