//! The wallet's store: the proofs it holds and the keysets it has seen.

use crate::error::LocalStoreError;
use crate::model::{clone_proofs, holds_secret, secret_in, Proof, Proofs};
use vstd::prelude::*;

verus! {

/// A keyset of a mint, as the wallet remembers it.
#[derive(Debug, PartialEq, Eq)]
pub struct WalletKeyset {
    pub id: String,
    pub mint_url: String,
}

impl Clone for WalletKeyset {
    fn clone(&self) -> (copy: Self)
        ensures
            copy == *self,
    {
        WalletKeyset { id: self.id.clone(), mint_url: self.mint_url.clone() }
    }
}

/// The stored proofs without those whose secret is among `gone`.
pub open spec fn without_proofs(stored: Seq<Proof>, gone: Seq<Proof>) -> Seq<Proof>
    decreases stored.len(),
{
    if stored.len() == 0 {
        Seq::empty()
    } else if secret_in(gone, stored.last().secret@) {
        without_proofs(stored.drop_last(), gone)
    } else {
        without_proofs(stored.drop_last(), gone).push(stored.last())
    }
}

/// The store behind a wallet. Each operation either takes effect as a whole
/// or fails and changes nothing.
pub trait LocalStore {
    /// The proofs that the wallet holds, in the order in which they came.
    spec fn proofs(&self) -> Seq<Proof>;

    /// The keysets that the wallet has seen.
    spec fn keysets(&self) -> Seq<WalletKeyset>;

    /// Adds proofs to those that the wallet holds.
    fn add_proofs(&mut self, proofs: &Proofs) -> (done: Result<(), LocalStoreError>)
        ensures
            done is Ok ==> final(self).proofs() == old(self).proofs() + proofs@,
            done is Err ==> final(self).proofs() == old(self).proofs(),
            final(self).keysets() == old(self).keysets(),
    ;

    /// The proofs that the wallet holds.
    fn get_proofs(&self) -> (found: Result<Proofs, LocalStoreError>)
        ensures
            found matches Ok(proofs) ==> proofs@ == self.proofs(),
    ;

    /// Takes away the proofs with the secrets of the given ones.
    fn delete_proofs(&mut self, proofs: &Proofs) -> (done: Result<(), LocalStoreError>)
        ensures
            done is Ok ==> final(self).proofs() == without_proofs(old(self).proofs(), proofs@),
            done is Err ==> final(self).proofs() == old(self).proofs(),
            final(self).keysets() == old(self).keysets(),
    ;

    /// The keysets that the wallet has seen.
    fn get_keysets(&self) -> (found: Result<Vec<WalletKeyset>, LocalStoreError>)
        ensures
            found matches Ok(keysets) ==> keysets@ == self.keysets(),
    ;

    /// Remembers a keyset.
    fn add_keyset(&mut self, keyset: &WalletKeyset) -> (done: Result<(), LocalStoreError>)
        ensures
            done is Ok ==> final(self).keysets() == old(self).keysets().push(*keyset),
            done is Err ==> final(self).keysets() == old(self).keysets(),
            final(self).proofs() == old(self).proofs(),
    ;
}

/// A store that keeps everything in memory and never fails.
#[derive(Debug)]
pub struct MemoryLocalStore {
    held: Vec<Proof>,
    seen: Vec<WalletKeyset>,
}

impl MemoryLocalStore {
    /// A store that holds nothing.
    pub fn new() -> (store: Self)
        ensures
            store.proofs() == Seq::<Proof>::empty(),
            store.keysets() == Seq::<WalletKeyset>::empty(),
    {
        MemoryLocalStore { held: Vec::new(), seen: Vec::new() }
    }

    /// A store that holds the given proofs.
    pub fn with_proofs(proofs: Proofs) -> (store: Self)
        ensures
            store.proofs() == proofs@,
            store.keysets() == Seq::<WalletKeyset>::empty(),
    {
        MemoryLocalStore { held: proofs.0, seen: Vec::new() }
    }
}

impl Clone for MemoryLocalStore {
    fn clone(&self) -> (copy: Self)
        ensures
            copy.proofs() == self.proofs(),
            copy.keysets() == self.keysets(),
    {
        let mut seen: Vec<WalletKeyset> = Vec::new();
        let mut i: usize = 0;
        while i < self.seen.len()
            invariant
                i <= self.seen.len(),
                seen@ == self.seen@.subrange(0, i as int),
            decreases self.seen.len() - i,
        {
            seen.push(self.seen[i].clone());
            assert(seen@ =~= self.seen@.subrange(0, i + 1));
            i += 1;
        }
        assert(self.seen@.subrange(0, self.seen.len() as int) =~= self.seen@);
        MemoryLocalStore { held: clone_proofs(&self.held), seen }
    }
}

impl LocalStore for MemoryLocalStore {
    closed spec fn proofs(&self) -> Seq<Proof> {
        self.held@
    }

    closed spec fn keysets(&self) -> Seq<WalletKeyset> {
        self.seen@
    }

    fn add_proofs(&mut self, proofs: &Proofs) -> (done: Result<(), LocalStoreError>)
        ensures
            done is Ok,
    {
        let ghost before = self.held@;
        let mut i: usize = 0;
        while i < proofs.0.len()
            invariant
                i <= proofs.0.len(),
                self.seen@ == old(self).seen@,
                self.held@ == before + proofs@.subrange(0, i as int),
            decreases proofs.0.len() - i,
        {
            self.held.push(proofs.0[i].clone());
            assert(self.held@ =~= before + proofs@.subrange(0, i + 1));
            i += 1;
        }
        assert(proofs@.subrange(0, proofs@.len() as int) =~= proofs@);
        Ok(())
    }

    fn get_proofs(&self) -> (found: Result<Proofs, LocalStoreError>)
        ensures
            found is Ok,
    {
        Ok(Proofs(clone_proofs(&self.held)))
    }

    fn delete_proofs(&mut self, proofs: &Proofs) -> (done: Result<(), LocalStoreError>)
        ensures
            done is Ok,
    {
        let ghost before = self.held@;
        let mut kept: Vec<Proof> = Vec::new();
        let mut i: usize = 0;
        assert(before.subrange(0, 0) =~= Seq::<Proof>::empty());
        while i < self.held.len()
            invariant
                i <= self.held.len(),
                self.held@ == before,
                kept@ == without_proofs(before.subrange(0, i as int), proofs@),
            decreases self.held.len() - i,
        {
            proof {
                let next = before.subrange(0, i + 1);
                assert(next.drop_last() =~= before.subrange(0, i as int));
                assert(next.last() == before[i as int]);
            }
            if !holds_secret(&proofs.0, &self.held[i].secret) {
                kept.push(self.held[i].clone());
            }
            i += 1;
        }
        assert(before.subrange(0, before.len() as int) =~= before);
        self.held = kept;
        Ok(())
    }

    fn get_keysets(&self) -> (found: Result<Vec<WalletKeyset>, LocalStoreError>)
        ensures
            found is Ok,
    {
        let mut seen: Vec<WalletKeyset> = Vec::new();
        let mut i: usize = 0;
        while i < self.seen.len()
            invariant
                i <= self.seen.len(),
                seen@ == self.seen@.subrange(0, i as int),
            decreases self.seen.len() - i,
        {
            seen.push(self.seen[i].clone());
            assert(seen@ =~= self.seen@.subrange(0, i + 1));
            i += 1;
        }
        assert(self.seen@.subrange(0, self.seen.len() as int) =~= self.seen@);
        Ok(seen)
    }

    fn add_keyset(&mut self, keyset: &WalletKeyset) -> (done: Result<(), LocalStoreError>)
        ensures
            done is Ok,
    {
        self.seen.push(keyset.clone());
        Ok(())
    }
}

/// Storage that is taken as it comes: nothing is known of what it does.
/// This is what a store outside this library implements.
pub trait LocalStoreBackend {
    /// Adds proofs to those that are held.
    fn add_proofs(&mut self, proofs: &Proofs) -> Result<(), LocalStoreError>;

    /// All the proofs that are held.
    fn get_proofs(&self) -> Result<Proofs, LocalStoreError>;

    /// Takes away the proofs with the secrets of the given ones.
    fn delete_proofs(&mut self, proofs: &Proofs) -> Result<(), LocalStoreError>;

    /// All the keysets that are remembered.
    fn get_keysets(&self) -> Result<Vec<WalletKeyset>, LocalStoreError>;

    /// Remembers a keyset.
    fn add_keyset(&mut self, keyset: &WalletKeyset) -> Result<(), LocalStoreError>;
}

/// A store that writes through to a backend. What the backend held when the
/// store was opened is read once; from then on the store answers from
/// memory, and changes what it holds only when the backend has taken the
/// change.
pub struct CachedLocalStore<B: LocalStoreBackend> {
    memory: MemoryLocalStore,
    backend: B,
}

impl<B: LocalStoreBackend> CachedLocalStore<B> {
    /// The backend that the store writes through to.
    pub closed spec fn inner(&self) -> B {
        self.backend
    }

    /// Opens a store on a backend and reads what the backend holds. Fails
    /// where the backend does. The store that is opened writes through to
    /// this backend; what it holds is what `with_loaded` makes of the
    /// backend's answers.
    pub fn open(backend: B) -> (opened: Result<Self, LocalStoreError>)
        ensures
            opened matches Ok(store) ==> store.inner() == backend,
    {
        let held = backend.get_proofs()?;
        let seen = backend.get_keysets()?;
        Ok(Self::with_loaded(backend, held, seen))
    }

    /// The store on a backend that holds what was read from the backend.
    pub fn with_loaded(backend: B, held: Proofs, seen: Vec<WalletKeyset>) -> (store: Self)
        ensures
            store.inner() == backend,
            store.proofs() == held@,
            store.keysets() == seen@,
    {
        CachedLocalStore { memory: MemoryLocalStore { held: held.0, seen }, backend }
    }

    /// The backend.
    pub fn backend(&self) -> (backend: &B)
        ensures
            *backend == self.inner(),
    {
        &self.backend
    }

    /// Adds proofs in memory once the backend has answered whether it has
    /// added them: where the backend failed, its error is handed on and
    /// nothing changes.
    pub fn proofs_added(&mut self, taken: Result<(), LocalStoreError>, proofs: &Proofs) -> (done:
        Result<(), LocalStoreError>)
        ensures
            done == taken,
            final(self).inner() == old(self).inner(),
            taken is Ok ==> final(self).proofs() == old(self).proofs() + proofs@,
            taken is Err ==> final(self).proofs() == old(self).proofs(),
            final(self).keysets() == old(self).keysets(),
    {
        match taken {
            Ok(kept) => {
                let _ = self.memory.add_proofs(proofs);
                Ok(kept)
            },
            Err(e) => Err(e),
        }
    }

    /// Takes proofs away in memory once the backend has answered whether it
    /// has taken them away: where the backend failed, its error is handed
    /// on and nothing changes.
    pub fn proofs_deleted(&mut self, taken: Result<(), LocalStoreError>, proofs: &Proofs) -> (done:
        Result<(), LocalStoreError>)
        ensures
            done == taken,
            final(self).inner() == old(self).inner(),
            taken is Ok ==> final(self).proofs() == without_proofs(old(self).proofs(), proofs@),
            taken is Err ==> final(self).proofs() == old(self).proofs(),
            final(self).keysets() == old(self).keysets(),
    {
        match taken {
            Ok(kept) => {
                let _ = self.memory.delete_proofs(proofs);
                Ok(kept)
            },
            Err(e) => Err(e),
        }
    }

    /// Remembers a keyset in memory once the backend has answered whether
    /// it remembers it: where the backend failed, its error is handed on
    /// and nothing changes.
    pub fn keyset_added(&mut self, taken: Result<(), LocalStoreError>, keyset: &WalletKeyset) -> (done:
        Result<(), LocalStoreError>)
        ensures
            done == taken,
            final(self).inner() == old(self).inner(),
            taken is Ok ==> final(self).keysets() == old(self).keysets().push(*keyset),
            taken is Err ==> final(self).keysets() == old(self).keysets(),
            final(self).proofs() == old(self).proofs(),
    {
        match taken {
            Ok(kept) => {
                let _ = self.memory.add_keyset(keyset);
                Ok(kept)
            },
            Err(e) => Err(e),
        }
    }
}

impl<B: LocalStoreBackend> LocalStore for CachedLocalStore<B> {
    closed spec fn proofs(&self) -> Seq<Proof> {
        self.memory.proofs()
    }

    closed spec fn keysets(&self) -> Seq<WalletKeyset> {
        self.memory.keysets()
    }

    fn add_proofs(&mut self, proofs: &Proofs) -> (done: Result<(), LocalStoreError>) {
        let taken = self.backend.add_proofs(proofs);
        self.proofs_added(taken, proofs)
    }

    fn get_proofs(&self) -> (found: Result<Proofs, LocalStoreError>)
        ensures
            found is Ok,
    {
        self.memory.get_proofs()
    }

    fn delete_proofs(&mut self, proofs: &Proofs) -> (done: Result<(), LocalStoreError>) {
        let taken = self.backend.delete_proofs(proofs);
        self.proofs_deleted(taken, proofs)
    }

    fn get_keysets(&self) -> (found: Result<Vec<WalletKeyset>, LocalStoreError>)
        ensures
            found is Ok,
    {
        self.memory.get_keysets()
    }

    fn add_keyset(&mut self, keyset: &WalletKeyset) -> (done: Result<(), LocalStoreError>) {
        let taken = self.backend.add_keyset(keyset);
        self.keyset_added(taken, keyset)
    }
}

} // verus!
