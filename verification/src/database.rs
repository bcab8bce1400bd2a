//! The mint's state: the invoices that wait for payment and the proofs that
//! have been spent.

use crate::error::DatabaseError;
use crate::model::{clone_proofs, Invoice, Proof, Proofs};
use vstd::prelude::*;

verus! {

/// The store behind a mint. Each operation either takes effect as a whole
/// or fails and changes nothing.
pub trait Database {
    /// The invoices that wait for payment, by their key.
    spec fn pending(&self) -> Map<Seq<char>, Invoice>;

    /// The proofs that have been spent, in the order in which they were.
    spec fn used(&self) -> Seq<Proof>;

    /// Keeps an invoice under a key.
    fn add_pending_invoice(&mut self, key: String, invoice: Invoice) -> (done: Result<
        (),
        DatabaseError,
    >)
        ensures
            done is Ok ==> final(self).pending() == old(self).pending().insert(key@, invoice),
            done is Err ==> final(self).pending() == old(self).pending(),
            final(self).used() == old(self).used(),
    ;

    /// The invoice kept under a key, if there is one.
    fn get_pending_invoice(&self, key: &String) -> (found: Result<Option<Invoice>, DatabaseError>)
        ensures
            found matches Ok(invoice) ==> invoice == if self.pending().contains_key(key@) {
                Some(self.pending()[key@])
            } else {
                None::<Invoice>
            },
    ;

    /// Forgets the invoice kept under a key.
    fn remove_pending_invoice(&mut self, key: &String) -> (done: Result<(), DatabaseError>)
        ensures
            done is Ok ==> final(self).pending() == old(self).pending().remove(key@),
            done is Err ==> final(self).pending() == old(self).pending(),
            final(self).used() == old(self).used(),
    ;

    /// Records proofs as spent.
    fn add_used_proofs(&mut self, proofs: &Proofs) -> (done: Result<(), DatabaseError>)
        ensures
            done is Ok ==> final(self).used() == old(self).used() + proofs@,
            done is Err ==> final(self).used() == old(self).used(),
            final(self).pending() == old(self).pending(),
    ;

    /// The proofs that have been spent.
    fn get_used_proofs(&self) -> (found: Result<Proofs, DatabaseError>)
        ensures
            found matches Ok(proofs) ==> proofs@ == self.used(),
    ;
}

/// The map that a sequence of entries stands for: of two entries with the
/// same key, the later one counts.
pub open spec fn entries_map(entries: Seq<(String, Invoice)>) -> Map<Seq<char>, Invoice>
    decreases entries.len(),
{
    if entries.len() == 0 {
        Map::empty()
    } else {
        entries_map(entries.drop_last()).insert(entries.last().0@, entries.last().1)
    }
}

/// The entries without those of a key.
pub open spec fn entries_without(entries: Seq<(String, Invoice)>, key: Seq<char>) -> Seq<
    (String, Invoice),
>
    decreases entries.len(),
{
    if entries.len() == 0 {
        Seq::empty()
    } else if entries.last().0@ == key {
        entries_without(entries.drop_last(), key)
    } else {
        entries_without(entries.drop_last(), key).push(entries.last())
    }
}

proof fn lemma_entries_without(entries: Seq<(String, Invoice)>, key: Seq<char>)
    ensures
        entries_map(entries_without(entries, key)) == entries_map(entries).remove(key),
    decreases entries.len(),
{
    if entries.len() == 0 {
        assert(entries_map(entries).remove(key) =~= Map::<Seq<char>, Invoice>::empty());
    } else {
        lemma_entries_without(entries.drop_last(), key);
        let rest = entries_without(entries.drop_last(), key);
        if entries.last().0@ == key {
            assert(entries_map(entries).remove(key) =~= entries_map(entries.drop_last()).remove(
                key,
            ));
        } else {
            assert(rest.push(entries.last()).drop_last() =~= rest);
            assert(entries_map(entries).remove(key) =~= entries_map(entries.drop_last()).remove(
                key,
            ).insert(entries.last().0@, entries.last().1));
        }
    }
}

proof fn lemma_entries_lookup(entries: Seq<(String, Invoice)>, key: Seq<char>, at: int)
    requires
        0 <= at <= entries.len(),
        forall|j: int| at <= j < entries.len() ==> entries[j].0@ != key,
    ensures
        entries_map(entries).contains_key(key) <==> entries_map(
            entries.subrange(0, at),
        ).contains_key(key),
        entries_map(entries).contains_key(key) ==> entries_map(entries)[key] == entries_map(
            entries.subrange(0, at),
        )[key],
    decreases entries.len(),
{
    if at == entries.len() {
        assert(entries.subrange(0, at) =~= entries);
    } else {
        lemma_entries_lookup(entries.drop_last(), key, at);
        assert(entries.drop_last().subrange(0, at) =~= entries.subrange(0, at));
    }
}

/// A store that keeps everything in memory and never fails.
#[derive(Debug)]
pub struct MemoryDatabase {
    invoices: Vec<(String, Invoice)>,
    spent: Vec<Proof>,
}

impl MemoryDatabase {
    /// A store that holds nothing.
    pub fn new() -> (store: Self)
        ensures
            store.pending() == Map::<Seq<char>, Invoice>::empty(),
            store.used() == Seq::<Proof>::empty(),
    {
        MemoryDatabase { invoices: Vec::new(), spent: Vec::new() }
    }
}

impl MemoryDatabase {
    /// A store that holds the given invoices, of which a later one replaces
    /// an earlier one with the same key, and the given spent proofs.
    pub fn with(invoices: Vec<(String, Invoice)>, spent: Proofs) -> (store: Self)
        ensures
            store.pending() == entries_map(invoices@),
            store.used() == spent@,
    {
        MemoryDatabase { invoices, spent: spent.0 }
    }
}

impl Database for MemoryDatabase {
    closed spec fn pending(&self) -> Map<Seq<char>, Invoice> {
        entries_map(self.invoices@)
    }

    closed spec fn used(&self) -> Seq<Proof> {
        self.spent@
    }

    fn add_pending_invoice(&mut self, key: String, invoice: Invoice) -> (done: Result<
        (),
        DatabaseError,
    >)
        ensures
            done is Ok,
    {
        let ghost before = self.invoices@;
        self.invoices.push((key, invoice));
        assert(self.invoices@.drop_last() =~= before);
        Ok(())
    }

    fn get_pending_invoice(&self, key: &String) -> (found: Result<Option<Invoice>, DatabaseError>)
        ensures
            found is Ok,
    {
        let mut i: usize = self.invoices.len();
        while i > 0
            invariant
                i <= self.invoices.len(),
                forall|j: int| i <= j < self.invoices.len() ==> self.invoices@[j].0@ != key@,
            decreases i,
        {
            i -= 1;
            if self.invoices[i].0 == *key {
                proof {
                    lemma_entries_lookup(self.invoices@, key@, i + 1);
                    let front = self.invoices@.subrange(0, i + 1);
                    assert(front.last() == self.invoices@[i as int]);
                    assert(entries_map(front) == entries_map(front.drop_last()).insert(
                        front.last().0@,
                        front.last().1,
                    ));
                }
                return Ok(Some(self.invoices[i].1.clone()));
            }
        }
        proof {
            lemma_entries_lookup(self.invoices@, key@, 0);
            assert(self.invoices@.subrange(0, 0) =~= Seq::<(String, Invoice)>::empty());
        }
        Ok(None)
    }

    fn remove_pending_invoice(&mut self, key: &String) -> (done: Result<(), DatabaseError>)
        ensures
            done is Ok,
    {
        let ghost before = self.invoices@;
        let mut kept: Vec<(String, Invoice)> = Vec::new();
        let mut i: usize = 0;
        assert(before.subrange(0, 0) =~= Seq::<(String, Invoice)>::empty());
        while i < self.invoices.len()
            invariant
                i <= self.invoices.len(),
                self.invoices@ == before,
                kept@ == entries_without(before.subrange(0, i as int), key@),
            decreases self.invoices.len() - i,
        {
            proof {
                let next = before.subrange(0, i + 1);
                assert(next.drop_last() =~= before.subrange(0, i as int));
                assert(next.last() == before[i as int]);
            }
            if !(self.invoices[i].0 == *key) {
                let entry = (self.invoices[i].0.clone(), self.invoices[i].1.clone());
                kept.push(entry);
            }
            i += 1;
        }
        proof {
            assert(before.subrange(0, before.len() as int) =~= before);
            lemma_entries_without(before, key@);
        }
        self.invoices = kept;
        Ok(())
    }

    fn add_used_proofs(&mut self, proofs: &Proofs) -> (done: Result<(), DatabaseError>)
        ensures
            done is Ok,
    {
        let ghost before = self.spent@;
        let mut i: usize = 0;
        while i < proofs.0.len()
            invariant
                i <= proofs.0.len(),
                self.invoices@ == old(self).invoices@,
                self.spent@ == before + proofs@.subrange(0, i as int),
            decreases proofs.0.len() - i,
        {
            self.spent.push(proofs.0[i].clone());
            assert(self.spent@ =~= before + proofs@.subrange(0, i + 1));
            i += 1;
        }
        assert(proofs@.subrange(0, proofs@.len() as int) =~= proofs@);
        Ok(())
    }

    fn get_used_proofs(&self) -> (found: Result<Proofs, DatabaseError>)
        ensures
            found is Ok,
    {
        Ok(Proofs(clone_proofs(&self.spent)))
    }
}

/// Storage that is taken as it comes: nothing is known of what it does.
/// This is what a store outside this library implements.
pub trait DatabaseBackend {
    /// Keeps an invoice under a key.
    fn add_pending_invoice(&mut self, key: String, invoice: Invoice) -> Result<(), DatabaseError>;

    /// Forgets the invoice kept under a key.
    fn remove_pending_invoice(&mut self, key: &String) -> Result<(), DatabaseError>;

    /// Records proofs as spent.
    fn add_used_proofs(&mut self, proofs: &Proofs) -> Result<(), DatabaseError>;

    /// All the invoices that are kept, each with its key.
    fn get_pending_invoices(&self) -> Result<Vec<(String, Invoice)>, DatabaseError>;

    /// All the proofs that are recorded as spent.
    fn get_used_proofs(&self) -> Result<Proofs, DatabaseError>;
}

/// A store that writes through to a backend. What the backend held when the
/// store was opened is read once; from then on the store answers from
/// memory, and changes what it holds only when the backend has taken the
/// change.
pub struct CachedDatabase<B: DatabaseBackend> {
    memory: MemoryDatabase,
    backend: B,
}

impl<B: DatabaseBackend> CachedDatabase<B> {
    /// The backend that the store writes through to.
    pub closed spec fn inner(&self) -> B {
        self.backend
    }

    /// Opens a store on a backend and reads what the backend holds. Fails
    /// where the backend does. The store that is opened writes through to
    /// this backend; what it holds is what `with_loaded` makes of the
    /// backend's answers.
    pub fn open(backend: B) -> (opened: Result<Self, DatabaseError>)
        ensures
            opened matches Ok(store) ==> store.inner() == backend,
    {
        let invoices = backend.get_pending_invoices()?;
        let spent = backend.get_used_proofs()?;
        Ok(Self::with_loaded(backend, invoices, spent))
    }

    /// The store on a backend that holds what was read from the backend:
    /// the invoices, of which a later one replaces an earlier one with the
    /// same key, and the spent proofs.
    pub fn with_loaded(backend: B, invoices: Vec<(String, Invoice)>, spent: Proofs) -> (store: Self)
        ensures
            store.inner() == backend,
            store.pending() == entries_map(invoices@),
            store.used() == spent@,
    {
        CachedDatabase { memory: MemoryDatabase::with(invoices, spent), backend }
    }

    /// The backend.
    pub fn backend(&self) -> (backend: &B)
        ensures
            *backend == self.inner(),
    {
        &self.backend
    }

    /// Keeps an invoice in memory once the backend has answered whether it
    /// keeps it: where the backend failed, its error is handed on and
    /// nothing changes.
    pub fn invoice_added(
        &mut self,
        taken: Result<(), DatabaseError>,
        key: String,
        invoice: Invoice,
    ) -> (done: Result<(), DatabaseError>)
        ensures
            done == taken,
            final(self).inner() == old(self).inner(),
            taken is Ok ==> final(self).pending() == old(self).pending().insert(key@, invoice),
            taken is Err ==> final(self).pending() == old(self).pending(),
            final(self).used() == old(self).used(),
    {
        match taken {
            Ok(kept) => {
                let _ = self.memory.add_pending_invoice(key, invoice);
                Ok(kept)
            },
            Err(e) => Err(e),
        }
    }

    /// Forgets an invoice in memory once the backend has answered whether
    /// it has forgotten it: where the backend failed, its error is handed
    /// on and nothing changes.
    pub fn invoice_removed(&mut self, taken: Result<(), DatabaseError>, key: &String) -> (done:
        Result<(), DatabaseError>)
        ensures
            done == taken,
            final(self).inner() == old(self).inner(),
            taken is Ok ==> final(self).pending() == old(self).pending().remove(key@),
            taken is Err ==> final(self).pending() == old(self).pending(),
            final(self).used() == old(self).used(),
    {
        match taken {
            Ok(kept) => {
                let _ = self.memory.remove_pending_invoice(key);
                Ok(kept)
            },
            Err(e) => Err(e),
        }
    }

    /// Records proofs as spent in memory once the backend has answered
    /// whether it has recorded them: where the backend failed, its error is
    /// handed on and nothing changes.
    pub fn proofs_spent(&mut self, taken: Result<(), DatabaseError>, proofs: &Proofs) -> (done:
        Result<(), DatabaseError>)
        ensures
            done == taken,
            final(self).inner() == old(self).inner(),
            taken is Ok ==> final(self).used() == old(self).used() + proofs@,
            taken is Err ==> final(self).used() == old(self).used(),
            final(self).pending() == old(self).pending(),
    {
        match taken {
            Ok(kept) => {
                let _ = self.memory.add_used_proofs(proofs);
                Ok(kept)
            },
            Err(e) => Err(e),
        }
    }
}

impl<B: DatabaseBackend> Database for CachedDatabase<B> {
    closed spec fn pending(&self) -> Map<Seq<char>, Invoice> {
        self.memory.pending()
    }

    closed spec fn used(&self) -> Seq<Proof> {
        self.memory.used()
    }

    fn add_pending_invoice(&mut self, key: String, invoice: Invoice) -> (done: Result<
        (),
        DatabaseError,
    >) {
        let taken = self.backend.add_pending_invoice(key.clone(), invoice.clone());
        self.invoice_added(taken, key, invoice)
    }

    fn get_pending_invoice(&self, key: &String) -> (found: Result<Option<Invoice>, DatabaseError>)
        ensures
            found is Ok,
    {
        self.memory.get_pending_invoice(key)
    }

    fn remove_pending_invoice(&mut self, key: &String) -> (done: Result<(), DatabaseError>) {
        let taken = self.backend.remove_pending_invoice(key);
        self.invoice_removed(taken, key)
    }

    fn add_used_proofs(&mut self, proofs: &Proofs) -> (done: Result<(), DatabaseError>) {
        let taken = self.backend.add_used_proofs(proofs);
        self.proofs_spent(taken, proofs)
    }

    fn get_used_proofs(&self) -> (found: Result<Proofs, DatabaseError>)
        ensures
            found is Ok,
    {
        self.memory.get_used_proofs()
    }
}

} // verus!
