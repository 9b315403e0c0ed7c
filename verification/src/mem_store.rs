//! An in-memory backing store offering both capabilities.
//!
//! [`MemStore`] keeps every successfully written cell in memory and answers
//! reads from the newest write of each position. Its write history is
//! carried alongside as a ghost log, so the capability contracts of
//! [`crate::store`] can be proved against it, and — unlike an opaque durable
//! store — its reads provably reflect its writes. Failure injection (a read
//! failure code, or a budget of writes before a write failure) makes the
//! error paths of a batch reachable.

use crate::store::{MMRStoreReadOps, MMRStoreWriteOps, StoreError, read_matches};
use vstd::prelude::*;

verus! {

/// Error code a [`MemStore`] reports when a run would not fit the `u64`
/// position space.
pub const OUT_OF_RANGE_CODE: u64 = 1;

/// The cells a single run occupies: position `start + i` holds the `i`-th
/// element of the run.
pub open spec fn run_cells<Elem>(start: u64, es: Seq<Elem>) -> Seq<(u64, Elem)> {
    Seq::new(es.len(), |i: int| ((start + i) as u64, es[i]))
}

/// All cells a write history has laid down, oldest first.
pub open spec fn flat_cells<Elem, ForkUnique>(w: Seq<(u64, Seq<Elem>, ForkUnique)>) -> Seq<
    (u64, Elem),
>
    decreases w.len(),
{
    if w.len() == 0 {
        Seq::empty()
    } else {
        flat_cells(w.drop_last()) + run_cells(w.last().0, w.last().1)
    }
}

/// The newest cell written at `pos`, if any: cells are searched newest
/// first.
pub open spec fn cell_lookup<Elem>(cells: Seq<(u64, Elem)>, pos: u64) -> Option<Elem>
    decreases cells.len(),
{
    if cells.len() == 0 {
        None
    } else if cells.last().0 == pos {
        Some(cells.last().1)
    } else {
        cell_lookup(cells.drop_last(), pos)
    }
}

/// Whether a run of `len` elements starting at `pos` stays inside the `u64`
/// position space.
pub open spec fn run_fits(pos: u64, len: nat) -> bool {
    pos + len <= u64::MAX + 1
}

/// An in-memory store with optional failure injection.
pub struct MemStore<Elem, ForkUnique> {
    cells: Vec<(u64, Elem)>,
    fail_reads: Option<u64>,
    fail_after: Option<u64>,
    fail_code: u64,
    log: Ghost<Seq<(u64, Seq<Elem>, ForkUnique)>>,
}

impl<Elem, ForkUnique> MemStore<Elem, ForkUnique> {
    #[verifier::type_invariant]
    spec fn wf(&self) -> bool {
        self.cells@ == flat_cells(self.log@)
    }

    /// The injected read failure: `Some(code)` makes every read fail with
    /// that code.
    pub closed spec fn spec_read_fail(&self) -> Option<u64> {
        self.fail_reads
    }

    /// The injected write failure plan: `Some(n)` lets `n` more writes
    /// succeed and fails every write after them.
    pub closed spec fn spec_fail_after(&self) -> Option<u64> {
        self.fail_after
    }

    /// The error code an injected write failure reports.
    pub closed spec fn spec_fail_code(&self) -> u64 {
        self.fail_code
    }

    /// An empty store that never fails.
    pub fn new() -> (s: Self)
        ensures
            s.writes() == Seq::<(u64, Seq<Elem>, ForkUnique)>::empty(),
            s.spec_read_fail() is None,
            s.spec_fail_after() is None,
    {
        let s = MemStore {
            cells: Vec::new(),
            fail_reads: None,
            fail_after: None,
            fail_code: 0,
            log: Ghost(Seq::empty()),
        };
        proof {
            assert(s.cells@ =~= flat_cells(s.log@));
        }
        s
    }

    /// An empty store whose first `successes` writes succeed and whose
    /// writes after them fail with `code`. Reads never fail.
    pub fn with_write_failure(successes: u64, code: u64) -> (s: Self)
        ensures
            s.writes() == Seq::<(u64, Seq<Elem>, ForkUnique)>::empty(),
            s.spec_read_fail() is None,
            s.spec_fail_after() == Some(successes),
            s.spec_fail_code() == code,
    {
        let s = MemStore {
            cells: Vec::new(),
            fail_reads: None,
            fail_after: Some(successes),
            fail_code: code,
            log: Ghost(Seq::empty()),
        };
        proof {
            assert(s.cells@ =~= flat_cells(s.log@));
        }
        s
    }

    /// An empty store whose every read fails with `code`. Writes succeed.
    pub fn with_read_failure(code: u64) -> (s: Self)
        ensures
            s.writes() == Seq::<(u64, Seq<Elem>, ForkUnique)>::empty(),
            s.spec_read_fail() == Some(code),
            s.spec_fail_after() is None,
    {
        let s = MemStore {
            cells: Vec::new(),
            fail_reads: Some(code),
            fail_after: None,
            fail_code: 0,
            log: Ghost(Seq::empty()),
        };
        proof {
            assert(s.cells@ =~= flat_cells(s.log@));
        }
        s
    }
}

impl<Elem, ForkUnique> Default for MemStore<Elem, ForkUnique> {
    /// The same store [`MemStore::new`] builds: empty, never failing.
    fn default() -> (s: Self)
        ensures
            s.writes() == Seq::<(u64, Seq<Elem>, ForkUnique)>::empty(),
            s.spec_read_fail() is None,
            s.spec_fail_after() is None,
    {
        MemStore::new()
    }
}

impl<Elem: Clone, ForkUnique> MMRStoreReadOps<Elem> for MemStore<Elem, ForkUnique> {
    /// With a read failure injected, every read fails with that code;
    /// otherwise a read reports the newest cell the write history has laid
    /// down at `pos`, so reads reflect exactly what has been written.
    open spec fn read_result(&self, pos: u64) -> Result<Option<Elem>, StoreError> {
        match self.spec_read_fail() {
            Some(code) => Err(StoreError { code }),
            None => match cell_lookup(flat_cells(self.writes()), pos) {
                Some(e) => Ok(Some(e)),
                None => Ok(None),
            },
        }
    }

    fn get_elem(&self, pos: u64) -> (r: Result<Option<Elem>, StoreError>) {
        proof {
            use_type_invariant(&*self);
        }
        match self.fail_reads {
            Some(code) => Err(StoreError { code }),
            None => {
                let ghost cells = self.cells@;
                let mut i: usize = self.cells.len();
                proof {
                    assert(cells.take(i as int) =~= cells);
                }
                while i > 0
                    invariant
                        i <= self.cells.len(),
                        cells == self.cells@,
                        cells == flat_cells(self.writes()),
                        self.spec_read_fail() is None,
                        cell_lookup(cells, pos) == cell_lookup(cells.take(i as int), pos),
                    decreases i,
                {
                    i = i - 1;
                    proof {
                        assert(cells.take(i + 1).last() == cells[i as int]);
                        assert(cells.take(i + 1).drop_last() =~= cells.take(i as int));
                    }
                    if self.cells[i].0 == pos {
                        let e = self.cells[i].1.clone();
                        return Ok(Some(e));
                    }
                }
                proof {
                    assert(cells.take(0) =~= Seq::<(u64, Elem)>::empty());
                }
                Ok(None)
            },
        }
    }
}

impl<Elem, ForkUnique> MMRStoreWriteOps<Elem, ForkUnique> for MemStore<Elem, ForkUnique> {
    closed spec fn writes(&self) -> Seq<(u64, Seq<Elem>, ForkUnique)> {
        self.log@
    }

    /// Success is owed exactly when the injected budget is not used up and
    /// the run fits the `u64` position space.
    open spec fn can_accept(&self, pos: u64, elems: Seq<Elem>) -> bool {
        self.spec_fail_after() != Some(0u64) && run_fits(pos, elems.len())
    }

    /// An exhausted budget fails with the injected code; a run past the end
    /// of the position space fails with [`OUT_OF_RANGE_CODE`]; nothing else
    /// fails.
    open spec fn may_refuse(&self, pos: u64, elems: Seq<Elem>, e: StoreError) -> bool {
        if self.spec_fail_after() == Some(0u64) {
            e == (StoreError { code: self.spec_fail_code() })
        } else if !run_fits(pos, elems.len()) {
            e == (StoreError { code: OUT_OF_RANGE_CODE })
        } else {
            false
        }
    }

    /// A successful write extends the history by exactly the tagged run,
    /// uses up one unit of the write-failure budget, and changes nothing
    /// else: reads stay configured as they were.
    open spec fn ok_post(
        &self,
        pos: u64,
        elems: Seq<Elem>,
        unique: ForkUnique,
        post: Self,
    ) -> bool {
        &&& self.can_accept(pos, elems)
        &&& post.writes() == self.writes().push((pos, elems, unique))
        &&& post.spec_read_fail() == self.spec_read_fail()
        &&& post.spec_fail_code() == self.spec_fail_code()
        &&& post.spec_fail_after() == match self.spec_fail_after() {
            Some(n) => Some((n - 1) as u64),
            None => None::<u64>,
        }
    }

    /// A write fails when the injected budget is used up, or when the run
    /// would not fit the `u64` position space; any other write succeeds,
    /// lays the run's cells down and uses up one unit of the budget.
    fn append(&mut self, pos: u64, elems: Vec<Elem>, unique: ForkUnique) -> (r: Result<
        (),
        StoreError,
    >)
        ensures
            r is Ok <==> old(self).can_accept(pos, elems@),
    {
        proof {
            use_type_invariant(&*self);
        }
        let injected = match self.fail_after {
            Some(n) => n == 0,
            None => false,
        };
        if injected {
            return Err(StoreError { code: self.fail_code });
        }
        let fits = elems.len() == 0 || (elems.len() - 1) as u64 <= u64::MAX - pos;
        if !fits {
            return Err(StoreError { code: OUT_OF_RANGE_CODE });
        }
        let new_fail_after = match self.fail_after {
            Some(n) => Some(n - 1),
            None => None,
        };
        let mut tmp = MemStore {
            cells: Vec::new(),
            fail_reads: None,
            fail_after: None,
            fail_code: 0,
            log: Ghost(Seq::empty()),
        };
        proof {
            assert(tmp.cells@ =~= flat_cells(tmp.log@));
        }
        core::mem::swap(&mut tmp, self);
        let MemStore { cells: mut cells, fail_reads, fail_after: _, fail_code, log } = tmp;
        let ghost log0 = log@;
        let ghost elems0 = elems@;
        let mut elems = elems;
        let mut j: usize = 0;
        proof {
            assert(elems0.take(0) =~= Seq::<Elem>::empty());
            assert(run_cells(pos, elems0.take(0)) =~= Seq::<(u64, Elem)>::empty());
            assert(cells@ =~= flat_cells(log0) + run_cells(pos, elems0.take(0)));
        }
        while elems.len() > 0
            invariant
                elems0.len() <= usize::MAX,
                j + elems.len() == elems0.len(),
                elems@ == elems0.skip(j as int),
                cells@ == flat_cells(log0) + run_cells(pos, elems0.take(j as int)),
                run_fits(pos, elems0.len()),
            decreases elems.len(),
        {
            let e = elems.remove(0);
            cells.push((pos + j as u64, e));
            proof {
                assert(elems@ =~= elems0.skip(j + 1));
                assert(run_cells(pos, elems0.take(j + 1)) =~= run_cells(
                    pos,
                    elems0.take(j as int),
                ).push(((pos + j as int) as u64, elems0[j as int])));
                assert(cells@ =~= flat_cells(log0) + run_cells(pos, elems0.take(j + 1)));
            }
            j = j + 1;
        }
        let ghost new_log = log0.push((pos, elems0, unique));
        proof {
            assert(elems0.take(elems0.len() as int) =~= elems0);
            assert(new_log.drop_last() =~= log0);
            assert(flat_cells(new_log) == flat_cells(log0) + run_cells(pos, elems0));
            assert(cells@ == flat_cells(new_log));
        }
        *self = MemStore {
            cells,
            fail_reads,
            fail_after: new_fail_after,
            fail_code,
            log: Ghost(new_log),
        };
        Ok(())
    }
}

} // verus!
