//! The capability interfaces through which a batch reaches its backing
//! store, and the spec-level vocabulary their contracts are written in.
//!
//! A store is modelled by two independent capabilities: reading one position
//! ([`MMRStoreReadOps`]) and durably appending one contiguous run of elements
//! tagged with a fork identifier ([`MMRStoreWriteOps`]). A store
//! implementation may offer either capability or both.

use vstd::prelude::*;

verus! {

/// The single failure kind this layer knows: an opaque, store-specific
/// error. The code carries whatever the store wants to report; this layer
/// never interprets it, it only propagates it.
#[derive(Clone, Copy, Debug, PartialEq, Eq, Structural)]
pub struct StoreError {
    pub code: u64,
}

/// Relates the model of a read (`m`) to the value an executable read
/// actually returned (`r`): errors and absence are reproduced exactly, and a
/// found element may be any possible clone of the modelled element.
pub open spec fn read_matches<Elem: Clone>(
    m: Result<Option<Elem>, StoreError>,
    r: Result<Option<Elem>, StoreError>,
) -> bool {
    match m {
        Ok(mo) => match r {
            Ok(ro) => match mo {
                Some(me) => ro matches Some(re) && cloned::<Elem>(me, re),
                None => ro is None,
            },
            Err(_) => false,
        },
        Err(me) => r matches Err(re) && re == me,
    }
}

/// Read capability: looking one position up in the durable store.
///
/// Reads are side-effect-free and idempotent, so a store's read behaviour is
/// modelled by the spec function `read_result`: what one read of each
/// position reports in the store's current state (found, absent, or failed).
pub trait MMRStoreReadOps<Elem: Clone>: Sized {
    /// What a read of `pos` reports in the store's current state.
    spec fn read_result(&self, pos: u64) -> Result<Option<Elem>, StoreError>;

    /// Reads the durably stored element at `pos`, if any.
    fn get_elem(&self, pos: u64) -> (r: Result<Option<Elem>, StoreError>)
        ensures
            read_matches(self.read_result(pos), r),
    ;
}

/// Write capability: durably appending one contiguous run of elements.
///
/// A store's write behaviour is modelled by four spec functions. `writes` is
/// the history of successfully persisted runs, each tagged with the fork
/// identifier it was handed. `can_accept` names the writes the store owes
/// success on, `may_refuse` the errors it may report for a write, and
/// `ok_post` the states a successful write may leave the store in. A failed
/// write leaves the store untouched.
pub trait MMRStoreWriteOps<Elem, ForkUnique>: Sized {
    /// The runs persisted so far, oldest first, each with its fork tag.
    spec fn writes(&self) -> Seq<(u64, Seq<Elem>, ForkUnique)>;

    /// The writes this store cannot refuse. A store free to fail any write
    /// (a disk, a network) may leave this empty; the batch then owes commit
    /// success only on an empty pending list.
    spec fn can_accept(&self, pos: u64, elems: Seq<Elem>) -> bool;

    /// Whether the store, in this state, may refuse a write of `elems` at
    /// `pos` with error `e`: every reported failure is one of these.
    spec fn may_refuse(&self, pos: u64, elems: Seq<Elem>, e: StoreError) -> bool;

    /// Whether `post` is a state a successful write of `elems` at `pos`
    /// tagged `unique` may leave the store in.
    spec fn ok_post(&self, pos: u64, elems: Seq<Elem>, unique: ForkUnique, post: Self) -> bool;

    /// Durably persists `elems` at positions `pos..pos + elems.len()`,
    /// tagged with `unique`.
    fn append(&mut self, pos: u64, elems: Vec<Elem>, unique: ForkUnique) -> (r: Result<
        (),
        StoreError,
    >)
        ensures
            r is Ok ==> final (self).writes() == old(self).writes().push((pos, elems@, unique)),
            r is Ok ==> old(self).ok_post(pos, elems@, unique, *final (self)),
            r is Err ==> *final (self) == *old(self),
            r matches Err(e) ==> old(self).may_refuse(pos, elems@, e),
            old(self).can_accept(pos, elems@) ==> r is Ok,
    ;
}

/// Holds when the write history `w1` extends `w0` with exactly the first `k`
/// of the staged runs `runs`, in order, each element sequence intact and each
/// entry tagged with some clone of `fork`.
pub open spec fn runs_written<Elem, ForkUnique: Clone>(
    w0: Seq<(u64, Seq<Elem>, ForkUnique)>,
    w1: Seq<(u64, Seq<Elem>, ForkUnique)>,
    runs: Seq<(u64, Seq<Elem>)>,
    k: int,
    fork: ForkUnique,
) -> bool {
    &&& w1.len() == w0.len() + k
    &&& (forall|i: int| 0 <= i < w0.len() ==> w1[i] == w0[i])
    &&& (forall|i: int|
        0 <= i < k ==> {
            &&& (#[trigger] w1[w0.len() + i]).0 == runs[i].0
            &&& w1[w0.len() + i].1 == runs[i].1
            &&& cloned::<ForkUnique>(fork, w1[w0.len() + i].2)
        })
}

/// Holds when `states` and `tags` witness a chain of successful writes of
/// `runs` from `states[0]`: step `i` writes run `i`, tagged with the clone
/// `tags[i]` of `fork`, and moves the store from `states[i]` to
/// `states[i + 1]` as its `ok_post` allows.
pub open spec fn write_chain<Elem, ForkUnique: Clone, Store: MMRStoreWriteOps<Elem, ForkUnique>>(
    states: Seq<Store>,
    tags: Seq<ForkUnique>,
    runs: Seq<(u64, Seq<Elem>)>,
    fork: ForkUnique,
) -> bool {
    &&& states.len() == runs.len() + 1
    &&& tags.len() == runs.len()
    &&& (forall|i: int|
        #![trigger states[i]]
        #![trigger tags[i]]
        0 <= i < runs.len() ==> cloned::<ForkUnique>(fork, tags[i]) && states[i].ok_post(
            runs[i].0,
            runs[i].1,
            tags[i],
            states[i + 1],
        ))
}

/// A write chain grows by one step: a successful write of `run` out of the
/// chain's last state, tagged with the clone `tag` of `fork`, extends the
/// chain by that run.
pub proof fn lemma_write_chain_snoc<
    Elem,
    ForkUnique: Clone,
    Store: MMRStoreWriteOps<Elem, ForkUnique>,
>(
    states: Seq<Store>,
    tags: Seq<ForkUnique>,
    runs: Seq<(u64, Seq<Elem>)>,
    fork: ForkUnique,
    s1: Store,
    tag: ForkUnique,
    run: (u64, Seq<Elem>),
)
    requires
        write_chain(states, tags, runs, fork),
        cloned::<ForkUnique>(fork, tag),
        states.last().ok_post(run.0, run.1, tag, s1),
    ensures
        write_chain(states.push(s1), tags.push(tag), runs.push(run), fork),
{
    let ns = states.push(s1);
    let nt = tags.push(tag);
    let nr = runs.push(run);
    assert forall|i: int|
        0 <= i < nr.len() implies cloned::<ForkUnique>(fork, #[trigger] nt[i]) && (
        #[trigger] ns[i]).ok_post(nr[i].0, nr[i].1, nt[i], ns[i + 1]) by {
        if i < runs.len() {
            assert(cloned::<ForkUnique>(fork, tags[i]) && states[i].ok_post(
                runs[i].0,
                runs[i].1,
                tags[i],
                states[i + 1],
            ));
            assert(ns[i] == states[i] && nt[i] == tags[i] && nr[i] == runs[i]);
            assert(ns[i + 1] == states[i + 1]);
        } else {
            assert(ns[i] == states.last());
            assert(nt[i] == tag && nr[i] == run);
            assert(ns[i + 1] == s1);
        }
    }
}

/// Holds when some chain of successful writes of `runs`, each tagged with a
/// clone of `fork`, leads the store from state `s0` to state `s1`. This is
/// the state-level account of a fully successful commit: beyond the write
/// history, nothing happened to the store but what its own `ok_post` allows
/// for exactly these runs.
pub open spec fn committed<Elem, ForkUnique: Clone, Store: MMRStoreWriteOps<Elem, ForkUnique>>(
    s0: Store,
    s1: Store,
    runs: Seq<(u64, Seq<Elem>)>,
    fork: ForkUnique,
) -> bool {
    exists|states: Seq<Store>, tags: Seq<ForkUnique>|
        #![trigger write_chain(states, tags, runs, fork)]
        {
            &&& write_chain(states, tags, runs, fork)
            &&& states[0] == s0
            &&& states[runs.len() as int] == s1
        }
}

/// Holds when the store owes success on every write a commit of `runs` from
/// state `s0` performs: whatever state a successful prefix of the runs may
/// leave the store in, it cannot refuse the next run.
pub open spec fn accepts_all<Elem, ForkUnique: Clone, Store: MMRStoreWriteOps<Elem, ForkUnique>>(
    s0: Store,
    runs: Seq<(u64, Seq<Elem>)>,
    fork: ForkUnique,
) -> bool {
    forall|s1: Store, k: int|
        0 <= k < runs.len() && #[trigger] committed(s0, s1, runs.take(k), fork) ==> s1.can_accept(
            runs[k].0,
            runs[k].1,
        )
}

} // verus!
