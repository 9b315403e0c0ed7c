//! The write-buffering batch itself.
//!
//! An [`MMRBatch`] owns one backing store handle and a pending segment list:
//! the runs appended during the current pass, in insertion order, not yet
//! durable. Reads see the pending list first (newest run first) and fall
//! back to the store; commit drains the list into the store's write
//! capability, oldest run first.

use crate::store::{
    accepts_all,
    committed,
    lemma_write_chain_snoc,
    read_matches,
    runs_written,
    write_chain,
    MMRStoreReadOps,
    MMRStoreWriteOps,
    StoreError,
};
use core::marker::PhantomData;
use vstd::prelude::*;

verus! {

/// What the pending-list scan of `get_elem` resolves for `pos`, if anything.
///
/// Runs are inspected newest first. A run starting after `pos` is skipped; a
/// run covering `pos` resolves it; a run starting at or before `pos` but too
/// short to cover it stops the scan, so the durable store answers. Both "no
/// run starts at or before `pos`" and "the scan stopped short" yield `None`:
/// in either case the store is consulted.
pub open spec fn pending_lookup<Elem>(runs: Seq<(u64, Seq<Elem>)>, pos: u64) -> Option<Elem>
    decreases runs.len(),
{
    if runs.len() == 0 {
        None
    } else {
        let (start, elems) = runs.last();
        if pos < start {
            pending_lookup(runs.drop_last(), pos)
        } else if pos - start < elems.len() {
            Some(elems[pos - start])
        } else {
            None
        }
    }
}

/// A batch of staged appends layered over an exclusively owned store handle.
pub struct MMRBatch<Elem, Store, ForkUnique> {
    memory_batch: Vec<(u64, Vec<Elem>)>,
    store: Store,
    _marker: PhantomData<ForkUnique>,
}

impl<Elem, Store, ForkUnique> MMRBatch<Elem, Store, ForkUnique> {
    /// The pending segment list: the staged runs in insertion order, each as
    /// its starting position and its element sequence.
    pub closed spec fn pending(&self) -> Seq<(u64, Seq<Elem>)> {
        self.memory_batch@.map_values(|run: (u64, Vec<Elem>)| (run.0, run.1@))
    }

    /// The store handle the batch owns.
    pub closed spec fn spec_store(&self) -> Store {
        self.store
    }

    /// Wraps a batch with an empty pending segment list around `store`,
    /// taking ownership of the handle. No store access is performed.
    pub fn new(store: Store) -> (b: Self)
        ensures
            b.pending() == Seq::<(u64, Seq<Elem>)>::empty(),
            b.spec_store() == store,
    {
        let b = MMRBatch { memory_batch: Vec::new(), store, _marker: PhantomData };
        proof {
            assert(b.pending() =~= Seq::<(u64, Seq<Elem>)>::empty());
        }
        b
    }

    /// Stages the run `(pos, elems)` at the end of the pending segment list.
    /// Always succeeds; nothing is validated, merged or deduplicated, and the
    /// store is not touched.
    pub fn append(&mut self, pos: u64, elems: Vec<Elem>)
        ensures
            final (self).pending() == old(self).pending().push((pos, elems@)),
            final (self).spec_store() == old(self).spec_store(),
    {
        self.memory_batch.push((pos, elems));
        proof {
            assert(final (self).pending() =~= old(self).pending().push((pos, elems@)));
        }
    }

    /// A read-only handle to the backing store; no store access is triggered.
    pub fn store(&self) -> (s: &Store)
        ensures
            *s == self.spec_store(),
    {
        &self.store
    }

    /// Destructively converts the batch into its pending segment list, in
    /// insertion order, without contacting the store. The store handle is
    /// dropped.
    pub fn into_runs(self) -> (runs: Vec<(u64, Vec<Elem>)>)
        ensures
            runs@.map_values(|run: (u64, Vec<Elem>)| (run.0, run.1@)) == self.pending(),
    {
        let MMRBatch { memory_batch, store: _, _marker } = self;
        memory_batch
    }
}

impl<Elem, Store: Default, ForkUnique> Default for MMRBatch<Elem, Store, ForkUnique> {
    /// An empty batch around the store's default value.
    fn default() -> (b: Self)
        ensures
            b.pending() == Seq::<(u64, Seq<Elem>)>::empty(),
    {
        MMRBatch::new(Store::default())
    }
}

impl<Elem: Clone, Store: MMRStoreReadOps<Elem>, ForkUnique> MMRBatch<Elem, Store, ForkUnique> {
    /// Read-through lookup of one position: the most recent staged write
    /// shadows older staged writes and the durable store for the positions
    /// it covers; every other position is answered by the store's read
    /// capability, whose report — found, absent or failed — is passed on
    /// unchanged.
    pub fn get_elem(&self, pos: u64) -> (r: Result<Option<Elem>, StoreError>)
        ensures
            match pending_lookup(self.pending(), pos) {
                Some(e) => r matches Ok(ro) && ro matches Some(re) && cloned::<Elem>(e, re),
                None => read_matches(self.spec_store().read_result(pos), r),
            },
    {
        let ghost runs = self.pending();
        let mut i: usize = self.memory_batch.len();
        proof {
            assert(runs.take(i as int) =~= runs);
        }
        while i > 0
            invariant
                i <= self.memory_batch.len(),
                runs == self.pending(),
                pending_lookup(runs, pos) == pending_lookup(runs.take(i as int), pos),
            decreases i,
        {
            i = i - 1;
            let start = self.memory_batch[i].0;
            let elems = &self.memory_batch[i].1;
            proof {
                assert(runs.take(i + 1).last() == runs[i as int]);
                assert(runs.take(i + 1).drop_last() =~= runs.take(i as int));
            }
            if pos < start {
                // This run starts after the target; an older run may still
                // cover it.
            } else if pos - start < elems.len() as u64 {
                let off = (pos - start) as usize;
                let e = elems[off].clone();
                return Ok(Some(e));
            } else {
                // This run starts at or before the target but is too short:
                // the pending list cannot resolve it.
                proof {
                    assert(pending_lookup(runs, pos) is None);
                }
                return self.store.get_elem(pos);
            }
        }
        proof {
            assert(runs.take(0) =~= Seq::<(u64, Seq<Elem>)>::empty());
        }
        self.store.get_elem(pos)
    }
}

impl<
    Elem,
    Store: MMRStoreWriteOps<Elem, ForkUnique>,
    ForkUnique: Clone,
> MMRBatch<Elem, Store, ForkUnique> {
    /// Drains the pending segment list, oldest run first, handing each run
    /// with a clone of `unique` to the store's write capability.
    ///
    /// On full success the store has done exactly one successful write per
    /// staged run, in insertion order, and nothing else; the write history
    /// has grown by every staged run, and the pending list is empty. The
    /// commit stops at the first write the store refuses: that store error
    /// is reported unchanged, the runs before the refused one stay durable,
    /// and the refused run and the runs after it are dropped from the
    /// pending list without having been persisted. Failure can only come
    /// from the store: where the store owes success on every write — a
    /// commit of an empty pending list asks for none — commit succeeds.
    #[verifier::rlimit(60)]
    pub fn commit(&mut self, unique: &ForkUnique) -> (r: Result<(), StoreError>)
        ensures
            final (self).pending() == Seq::<(u64, Seq<Elem>)>::empty(),
            r is Ok ==> runs_written(
                old(self).spec_store().writes(),
                final (self).spec_store().writes(),
                old(self).pending(),
                old(self).pending().len() as int,
                *unique,
            ),
            r is Ok ==> committed(
                old(self).spec_store(),
                final (self).spec_store(),
                old(self).pending(),
                *unique,
            ),
            accepts_all(old(self).spec_store(), old(self).pending(), *unique) ==> r is Ok,
            r matches Err(e) ==> exists|k: int|
                {
                    &&& 0 <= k < old(self).pending().len()
                    &&& runs_written(
                        old(self).spec_store().writes(),
                        final (self).spec_store().writes(),
                        old(self).pending(),
                        k,
                        *unique,
                    )
                    &&& committed(
                        old(self).spec_store(),
                        final (self).spec_store(),
                        old(self).pending().take(k),
                        *unique,
                    )
                    &&& !final (self).spec_store().can_accept(
                        old(self).pending()[k].0,
                        old(self).pending()[k].1,
                    )
                    &&& final (self).spec_store().may_refuse(
                        old(self).pending()[k].0,
                        old(self).pending()[k].1,
                        e,
                    )
                },
            old(self).pending().len() == 0 ==> r is Ok && final (self).spec_store() == old(
                self,
            ).spec_store(),
    {
        let ghost runs = old(self).pending();
        let ghost w0 = old(self).spec_store().writes();
        let mut staged: Vec<(u64, Vec<Elem>)> = Vec::new();
        core::mem::swap(&mut staged, &mut self.memory_batch);
        proof {
            assert(self.pending() =~= Seq::<(u64, Seq<Elem>)>::empty());
            assert(staged@.map_values(|run: (u64, Vec<Elem>)| (run.0, run.1@)) =~= runs);
        }
        let ghost n = runs.len() as int;
        proof {
            assert(n == staged.len());
        }
        let mut k: usize = 0;
        let ghost mut states: Seq<Store> = seq![old(self).spec_store()];
        let ghost mut tags: Seq<ForkUnique> = Seq::empty();
        proof {
            assert(runs.take(0) =~= Seq::<(u64, Seq<Elem>)>::empty());
            assert(write_chain(states, tags, runs.take(0), *unique));
        }
        while staged.len() > 0
            invariant
                runs == old(self).pending(),
                w0 == old(self).spec_store().writes(),
                n == runs.len(),
                k + staged.len() == n,
                n <= usize::MAX,
                forall|j: int|
                    0 <= j < staged.len() ==> (#[trigger] staged@[j]).0 == runs[k + j].0
                        && staged@[j].1@ == runs[k + j].1,
                runs_written(w0, self.spec_store().writes(), runs, k as int, *unique),
                states.len() == k + 1,
                tags.len() == k,
                states[0] == old(self).spec_store(),
                states[k as int] == self.spec_store(),
                write_chain(states, tags, runs.take(k as int), *unique),
                self.pending() == Seq::<(u64, Seq<Elem>)>::empty(),
                n == 0 ==> self.spec_store() == old(self).spec_store(),
            decreases staged.len(),
        {
            let (pos, elems) = staged.remove(0);
            let tag = unique.clone();
            let ghost tg = tag;
            let res = self.store.append(pos, elems, tag);
            match res {
                Ok(()) => {
                    proof {
                        lemma_write_chain_snoc(
                            states,
                            tags,
                            runs.take(k as int),
                            *unique,
                            self.spec_store(),
                            tg,
                            runs[k as int],
                        );
                        states = states.push(self.spec_store());
                        tags = tags.push(tg);
                        assert(runs.take(k as int).push(runs[k as int]) =~= runs.take(k + 1));
                    }
                    k = k + 1;
                },
                Err(e) => {
                    proof {
                        assert((k as int) < runs.len());
                        assert(committed(
                            old(self).spec_store(),
                            self.spec_store(),
                            runs.take(k as int),
                            *unique,
                        ));
                        assert(!accepts_all(old(self).spec_store(), runs, *unique));
                        assert(runs_written(w0, self.spec_store().writes(), runs, k as int, *unique));
                    }
                    return Err(e);
                },
            }
        }
        proof {
            assert(runs.take(n) =~= runs);
        }
        Ok(())
    }
}

} // verus!
