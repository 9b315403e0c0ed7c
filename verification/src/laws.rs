//! The laws of the read-through and commit semantics, proved once and for
//! all over the spec-level models that the contracts of [`crate::batch`] and
//! [`crate::mem_store`] are written in.

use crate::batch::{pending_lookup, MMRBatch};
use crate::mem_store::{cell_lookup, flat_cells, run_cells, run_fits, MemStore};
use crate::store::{
    accepts_all,
    committed,
    runs_written,
    write_chain,
    MMRStoreReadOps,
    MMRStoreWriteOps,
    StoreError,
};
use vstd::prelude::*;

verus! {

/// Whether the run covers position `pos`.
pub open spec fn covers<Elem>(run: (u64, Seq<Elem>), pos: u64) -> bool {
    run.0 <= pos < run.0 + run.1.len()
}

/// Whether the runs are staged in non-decreasing position order without
/// overlap: each run ends at or before the next one starts. This is the
/// caller obligation the reverse-scan merge of `get_elem` is designed for.
pub open spec fn well_separated<Elem>(runs: Seq<(u64, Seq<Elem>)>) -> bool {
    forall|i: int, j: int|
        0 <= i < j < runs.len() ==> (#[trigger] runs[i]).0 + runs[i].1.len() <= (
        #[trigger] runs[j]).0
}

/// A position no pending run covers is resolved by the store: the pending
/// scan yields nothing for it, with no assumption on how the runs are laid
/// out.
pub proof fn lemma_get_uncovered<Elem>(runs: Seq<(u64, Seq<Elem>)>, pos: u64)
    requires
        forall|i: int| 0 <= i < runs.len() ==> !covers(#[trigger] runs[i], pos),
    ensures
        pending_lookup(runs, pos) is None,
    decreases runs.len(),
{
    if runs.len() > 0 {
        assert(forall|i: int|
            0 <= i < runs.drop_last().len() ==> runs.drop_last()[i] == runs[i]);
        lemma_get_uncovered(runs.drop_last(), pos);
    }
}

/// A position some pending run covers is resolved from that run — under the
/// no-overlap staging order, the scan can neither stop short of it nor
/// prefer another run, so neither an older run's value nor the store's is
/// ever reported for it.
pub proof fn lemma_get_covered<Elem>(runs: Seq<(u64, Seq<Elem>)>, pos: u64, j: int)
    requires
        well_separated(runs),
        0 <= j < runs.len(),
        covers(runs[j], pos),
    ensures
        pending_lookup(runs, pos) == Some(runs[j].1[pos - runs[j].0]),
    decreases runs.len(),
{
    let (start, elems) = runs.last();
    if j == runs.len() - 1 {
        assert(pending_lookup(runs, pos) == Some(elems[pos - start]));
    } else {
        assert(runs[j].0 + runs[j].1.len() <= start);
        assert(pos < start);
        assert(forall|i: int|
            0 <= i < runs.drop_last().len() ==> runs.drop_last()[i] == runs[i]);
        lemma_get_covered(runs.drop_last(), pos, j);
    }
}

/// Reading a position of a freshly staged run resolves to exactly the
/// element supplied for it, whatever was staged before and whatever the
/// store holds: the newest run is scanned first.
pub proof fn lemma_append_round_trip<Elem>(
    runs: Seq<(u64, Seq<Elem>)>,
    pos: u64,
    es: Seq<Elem>,
    p: u64,
)
    requires
        pos <= p,
        p - pos < es.len(),
    ensures
        pending_lookup(runs.push((pos, es)), p) == Some(es[p - pos]),
{
    assert(runs.push((pos, es)).last() == (pos, es));
}

/// Searching concatenated cells newest-first answers from the later part
/// when it knows the position, and from the earlier part otherwise.
pub proof fn lemma_cell_lookup_concat<Elem>(a: Seq<(u64, Elem)>, b: Seq<(u64, Elem)>, pos: u64)
    ensures
        cell_lookup(a + b, pos) == match cell_lookup(b, pos) {
            Some(e) => Some(e),
            None => cell_lookup(a, pos),
        },
    decreases b.len(),
{
    if b.len() == 0 {
        assert(a + b =~= a);
    } else {
        assert((a + b).last() == b.last());
        assert((a + b).drop_last() =~= a + b.drop_last());
        lemma_cell_lookup_concat(a, b.drop_last(), pos);
    }
}

/// The cells of one run know exactly the positions the run covers, each
/// mapped to its element of the run.
pub proof fn lemma_run_cells_lookup<Elem>(start: u64, es: Seq<Elem>, pos: u64)
    requires
        run_fits(start, es.len()),
    ensures
        cell_lookup(run_cells(start, es), pos) == (if covers((start, es), pos) {
            Some(es[pos - start])
        } else {
            None::<Elem>
        }),
    decreases es.len(),
{
    if es.len() > 0 {
        let cells = run_cells(start, es);
        assert(cells.last() == (((start + es.len() - 1) as u64, es.last())));
        assert(cells.drop_last() =~= run_cells(start, es.drop_last()));
        lemma_run_cells_lookup(start, es.drop_last(), pos);
    }
}

/// Flattening a write history distributes over concatenation.
pub proof fn lemma_flat_cells_concat<Elem, ForkUnique>(
    a: Seq<(u64, Seq<Elem>, ForkUnique)>,
    b: Seq<(u64, Seq<Elem>, ForkUnique)>,
)
    ensures
        flat_cells(a + b) == flat_cells(a) + flat_cells(b),
    decreases b.len(),
{
    if b.len() == 0 {
        assert(a + b =~= a);
        assert(flat_cells(b) =~= Seq::<(u64, Elem)>::empty());
        assert(flat_cells(a) + flat_cells(b) =~= flat_cells(a));
    } else {
        assert((a + b).last() == b.last());
        assert((a + b).drop_last() =~= a + b.drop_last());
        lemma_flat_cells_concat(a, b.drop_last());
        assert(flat_cells(a) + flat_cells(b.drop_last()) + run_cells(b.last().0, b.last().1) =~= flat_cells(
            a,
        ) + flat_cells(b));
    }
}

/// The cells of a well-separated sequence of committed runs answer a
/// position search exactly as the pending scan of those runs would.
proof fn lemma_committed_runs_lookup<Elem, ForkUnique>(
    entries: Seq<(u64, Seq<Elem>, ForkUnique)>,
    runs: Seq<(u64, Seq<Elem>)>,
    pos: u64,
)
    requires
        entries.len() == runs.len(),
        forall|i: int|
            0 <= i < runs.len() ==> (#[trigger] entries[i]).0 == runs[i].0 && entries[i].1
                == runs[i].1,
        well_separated(runs),
        forall|i: int| 0 <= i < runs.len() ==> run_fits((#[trigger] runs[i]).0, runs[i].1.len()),
    ensures
        cell_lookup(flat_cells(entries), pos) == pending_lookup(runs, pos),
    decreases runs.len(),
{
    if runs.len() == 0 {
        assert(flat_cells(entries) =~= Seq::<(u64, Elem)>::empty());
    } else {
        let (start, es) = runs.last();
        assert(entries.last().0 == start && entries.last().1 == es);
        lemma_cell_lookup_concat(flat_cells(entries.drop_last()), run_cells(start, es), pos);
        lemma_run_cells_lookup(start, es, pos);
        assert(forall|i: int|
            0 <= i < runs.drop_last().len() ==> runs.drop_last()[i] == runs[i]);
        assert(forall|i: int|
            0 <= i < entries.drop_last().len() ==> entries.drop_last()[i] == entries[i]);
        if covers((start, es), pos) {
            assert(pending_lookup(runs, pos) == Some(es[pos - start]));
        } else if pos < start {
            lemma_committed_runs_lookup(entries.drop_last(), runs.drop_last(), pos);
        } else {
            // The scan stops short: the last run starts at or before `pos`
            // but does not reach it, and under the staging order every
            // older run ends even earlier.
            lemma_committed_runs_lookup(entries.drop_last(), runs.drop_last(), pos);
            assert(forall|i: int|
                0 <= i < runs.drop_last().len() ==> !covers(
                    #[trigger] runs.drop_last()[i],
                    pos,
                ));
            lemma_get_uncovered(runs.drop_last(), pos);
        }
    }
}

/// After a fully successful commit of well-separated runs, the store's
/// cells answer every position exactly as the batch did before the commit:
/// a position some staged run covered yields the very element the pending
/// scan resolved for it — now from the store — and every other position
/// yields what the store already held.
pub proof fn lemma_commit_preserves_reads<Elem, ForkUnique: Clone>(
    runs: Seq<(u64, Seq<Elem>)>,
    w0: Seq<(u64, Seq<Elem>, ForkUnique)>,
    w1: Seq<(u64, Seq<Elem>, ForkUnique)>,
    fork: ForkUnique,
    pos: u64,
)
    requires
        well_separated(runs),
        forall|i: int| 0 <= i < runs.len() ==> run_fits((#[trigger] runs[i]).0, runs[i].1.len()),
        runs_written(w0, w1, runs, runs.len() as int, fork),
    ensures
        cell_lookup(flat_cells(w1), pos) == match pending_lookup(runs, pos) {
            Some(e) => Some(e),
            None => cell_lookup(flat_cells(w0), pos),
        },
{
    let entries = w1.skip(w0.len() as int);
    assert(w1 =~= w0 + entries);
    lemma_flat_cells_concat(w0, entries);
    lemma_cell_lookup_concat(flat_cells(w0), flat_cells(entries), pos);
    assert(forall|i: int|
        0 <= i < runs.len() ==> (#[trigger] entries[i]).0 == runs[i].0 && entries[i].1
            == runs[i].1) by {
        assert(forall|i: int|
            0 <= i < runs.len() ==> entries[i] == w1[w0.len() + i]);
    }
    lemma_committed_runs_lookup(entries, runs, pos);
}

/// Along a chain of successful [`MemStore`] writes, the failure-injection
/// settings only count down: the read configuration stays as it was, and a
/// store without a write-failure budget never acquires one.
proof fn lemma_mem_chain_keeps_settings<Elem, ForkUnique: Clone>(
    states: Seq<MemStore<Elem, ForkUnique>>,
    tags: Seq<ForkUnique>,
    runs: Seq<(u64, Seq<Elem>)>,
    fork: ForkUnique,
    i: int,
)
    requires
        write_chain(states, tags, runs, fork),
        0 <= i <= runs.len(),
    ensures
        states[i].spec_read_fail() == states[0].spec_read_fail(),
        states[0].spec_fail_after() is None ==> states[i].spec_fail_after() is None,
    decreases i,
{
    if i > 0 {
        lemma_mem_chain_keeps_settings(states, tags, runs, fork, i - 1);
        assert(states[i - 1].ok_post(runs[i - 1].0, runs[i - 1].1, tags[i - 1], states[i]));
    }
}

/// Committing runs into a [`MemStore`] leaves its failure-injection
/// settings alone: the read configuration is unchanged, and a store that
/// owed success on every write still owes it.
pub proof fn lemma_mem_committed_keeps_settings<Elem, ForkUnique: Clone>(
    s0: MemStore<Elem, ForkUnique>,
    s1: MemStore<Elem, ForkUnique>,
    runs: Seq<(u64, Seq<Elem>)>,
    fork: ForkUnique,
)
    requires
        committed(s0, s1, runs, fork),
    ensures
        s1.spec_read_fail() == s0.spec_read_fail(),
        s0.spec_fail_after() is None ==> s1.spec_fail_after() is None,
{
    let (states, tags) = choose|
        states: Seq<MemStore<Elem, ForkUnique>>,
        tags: Seq<ForkUnique>,
    |
        {
            &&& write_chain(states, tags, runs, fork)
            &&& states[0] == s0
            &&& states[runs.len() as int] == s1
        };
    lemma_mem_chain_keeps_settings(states, tags, runs, fork, runs.len() as int);
}

/// A [`MemStore`] with no injected write failure owes success on every
/// write a commit performs, as long as each staged run fits the `u64`
/// position space — so `commit` on such a store is guaranteed to succeed.
pub proof fn lemma_mem_store_accepts_all<Elem, ForkUnique: Clone>(
    s0: MemStore<Elem, ForkUnique>,
    runs: Seq<(u64, Seq<Elem>)>,
    fork: ForkUnique,
)
    requires
        s0.spec_fail_after() is None,
        forall|i: int| 0 <= i < runs.len() ==> run_fits((#[trigger] runs[i]).0, runs[i].1.len()),
    ensures
        accepts_all(s0, runs, fork),
{
    assert forall|s1: MemStore<Elem, ForkUnique>, k: int|
        0 <= k < runs.len() && #[trigger] committed(s0, s1, runs.take(k), fork) implies s1.can_accept(
        runs[k].0,
        runs[k].1,
    ) by {
        lemma_mem_committed_keeps_settings(s0, s1, runs.take(k), fork);
        assert(run_fits(runs[k].0, runs[k].1.len()));
    }
}

/// The batch-level shape of the same law, for a batch backed by a
/// [`MemStore`] whose reads are not failure-injected. `before` and `after`
/// are the batch around a fully successful commit, related exactly as the
/// `ensures` of [`MMRBatch::commit`] state them on `Ok`; `e` is what
/// `get_elem(pos)` resolved from the pending list before the commit.
/// Afterwards the pending list resolves nothing, and the store — which now
/// answers every read of the batch, its read configuration untouched by the
/// commit — reports that same element for `pos`.
pub proof fn lemma_commit_preserves_batch_reads<Elem: Clone, ForkUnique: Clone>(
    before: MMRBatch<Elem, MemStore<Elem, ForkUnique>, ForkUnique>,
    after: MMRBatch<Elem, MemStore<Elem, ForkUnique>, ForkUnique>,
    fork: ForkUnique,
    pos: u64,
    e: Elem,
)
    requires
        well_separated(before.pending()),
        forall|i: int|
            0 <= i < before.pending().len() ==> run_fits(
                (#[trigger] before.pending()[i]).0,
                before.pending()[i].1.len(),
            ),
        pending_lookup(before.pending(), pos) == Some(e),
        before.spec_store().spec_read_fail() is None,
        after.pending() == Seq::<(u64, Seq<Elem>)>::empty(),
        runs_written(
            before.spec_store().writes(),
            after.spec_store().writes(),
            before.pending(),
            before.pending().len() as int,
            fork,
        ),
        committed(before.spec_store(), after.spec_store(), before.pending(), fork),
    ensures
        pending_lookup(after.pending(), pos) is None,
        after.spec_store().spec_read_fail() is None,
        after.spec_store().read_result(pos) == Ok::<Option<Elem>, StoreError>(Some(e)),
{
    lemma_mem_committed_keeps_settings(
        before.spec_store(),
        after.spec_store(),
        before.pending(),
        fork,
    );
    lemma_commit_preserves_reads(
        before.pending(),
        before.spec_store().writes(),
        after.spec_store().writes(),
        fork,
        pos,
    );
}

} // verus!
