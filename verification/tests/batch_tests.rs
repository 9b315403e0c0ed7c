use mmr_batch::batch::MMRBatch;
use mmr_batch::mem_store::{MemStore, OUT_OF_RANGE_CODE};
use mmr_batch::store::{MMRStoreReadOps, MMRStoreWriteOps, StoreError};

type Batch = MMRBatch<u64, MemStore<u64, u64>, u64>;

fn new_batch() -> Batch {
    MMRBatch::new(MemStore::new())
}

#[test]
fn append_round_trip() {
    // Reading every position of a freshly appended run returns exactly the
    // elements supplied, in order, without consulting the store.
    let mut b = new_batch();
    b.append(10, vec![7, 8, 9]);
    assert_eq!(b.get_elem(10), Ok(Some(7)));
    assert_eq!(b.get_elem(11), Ok(Some(8)));
    assert_eq!(b.get_elem(12), Ok(Some(9)));
}

#[test]
fn positions_outside_pending_fall_through() {
    // Positions before the run or past its end are answered by the store,
    // which holds nothing here.
    let mut b = new_batch();
    b.append(10, vec![7, 8, 9]);
    assert_eq!(b.get_elem(9), Ok(None));
    assert_eq!(b.get_elem(13), Ok(None));
    assert_eq!(b.get_elem(0), Ok(None));
}

#[test]
fn newest_run_wins() {
    // The most recently appended run shadows older runs for the positions
    // it covers.
    let mut b = new_batch();
    b.append(10, vec![1, 2, 3]);
    b.append(10, vec![4, 5, 6]);
    assert_eq!(b.get_elem(10), Ok(Some(4)));
    assert_eq!(b.get_elem(11), Ok(Some(5)));
    assert_eq!(b.get_elem(12), Ok(Some(6)));
}

#[test]
fn uncovered_read_is_the_stores_answer() {
    // A position no pending run covers reports exactly what the store's
    // read capability reports.
    let mut store: MemStore<u64, u64> = MemStore::new();
    assert_eq!(store.append(5, vec![50], 0), Ok(()));
    let mut b: Batch = MMRBatch::new(store);
    assert_eq!(b.get_elem(5), Ok(Some(50)));
    b.append(10, vec![7]);
    assert_eq!(b.get_elem(5), Ok(Some(50)));
    assert_eq!(b.get_elem(10), Ok(Some(7)));
}

#[test]
fn read_failure_passes_through() {
    // A store read failure is propagated unchanged, but positions resolved
    // from pending data never touch the store.
    let mut b: Batch = MMRBatch::new(MemStore::with_read_failure(42));
    assert_eq!(b.get_elem(0), Err(StoreError { code: 42 }));
    b.append(10, vec![1]);
    assert_eq!(b.get_elem(10), Ok(Some(1)));
    assert_eq!(b.get_elem(11), Err(StoreError { code: 42 }));
}

#[test]
fn commit_then_read_from_store() {
    // After a fully successful commit the pending list is empty and every
    // previously pending position reads the same value, now from the store.
    let mut b = new_batch();
    b.append(10, vec![1, 2, 3]);
    b.append(13, vec![4]);
    assert_eq!(b.commit(&99), Ok(()));
    assert_eq!(b.get_elem(10), Ok(Some(1)));
    assert_eq!(b.get_elem(11), Ok(Some(2)));
    assert_eq!(b.get_elem(12), Ok(Some(3)));
    assert_eq!(b.get_elem(13), Ok(Some(4)));
    assert_eq!(b.into_runs(), Vec::<(u64, Vec<u64>)>::new());
}

#[test]
fn commit_of_empty_batch_writes_nothing() {
    // Committing an empty pending list succeeds trivially: no write is
    // attempted, as the store failing every write shows.
    let mut b: Batch = MMRBatch::new(MemStore::with_write_failure(0, 77));
    assert_eq!(b.commit(&1), Ok(()));
    assert_eq!(b.commit(&1), Ok(()));
}

#[test]
fn overlapping_rewrite_scenario() {
    // Staging, overlapping re-staging, then committing: the newest run wins
    // while pending, and its elements are what the store persists.
    let mut b = new_batch();
    b.append(10, vec![1, 2, 3]);
    assert_eq!(b.get_elem(11), Ok(Some(2)));
    b.append(10, vec![4, 5, 6]);
    assert_eq!(b.get_elem(10), Ok(Some(4)));
    assert_eq!(b.commit(&1), Ok(()));
    assert_eq!(b.get_elem(10), Ok(Some(4)));
}

#[test]
fn partial_commit_failure_loses_later_runs() {
    // The store fails the second of three writes: the first run is durable,
    // the failing and the unprocessed run are neither durable nor still
    // pending, and the reported error is the store's.
    let mut b: Batch = MMRBatch::new(MemStore::with_write_failure(1, 77));
    b.append(0, vec![1]);
    b.append(10, vec![2]);
    b.append(20, vec![3]);
    assert_eq!(b.commit(&9), Err(StoreError { code: 77 }));
    assert_eq!(b.get_elem(0), Ok(Some(1)));
    assert_eq!(b.get_elem(10), Ok(None));
    assert_eq!(b.get_elem(20), Ok(None));
    assert_eq!(b.into_runs(), Vec::<(u64, Vec<u64>)>::new());
}

#[test]
fn store_accessor_reads_durable_state_only() {
    // The accessor hands out the store handle; pending data is invisible
    // through it.
    let mut b = new_batch();
    b.append(10, vec![7]);
    assert_eq!(b.store().get_elem(10), Ok(None));
    assert_eq!(b.commit(&1), Ok(()));
    assert_eq!(b.store().get_elem(10), Ok(Some(7)));
}

#[test]
fn empty_run_covers_nothing() {
    // An empty run is staged like any other but resolves no position.
    let mut b = new_batch();
    b.append(10, vec![]);
    assert_eq!(b.get_elem(10), Ok(None));
    assert_eq!(b.into_runs(), vec![(10, Vec::<u64>::new())]);
}

#[test]
fn into_runs_returns_pending_in_insertion_order() {
    let mut b = new_batch();
    b.append(10, vec![1, 2]);
    b.append(5, vec![3]);
    assert_eq!(b.into_runs(), vec![(10, vec![1, 2]), (5, vec![3])]);
}

#[test]
fn run_past_the_end_of_the_position_space_is_refused() {
    // A run whose positions would leave the u64 space is refused by the
    // store; one that ends exactly at the last position is accepted.
    let mut store: MemStore<u64, u64> = MemStore::new();
    assert_eq!(
        store.append(u64::MAX, vec![1, 2], 0),
        Err(StoreError { code: OUT_OF_RANGE_CODE })
    );
    assert_eq!(store.append(u64::MAX, vec![1], 0), Ok(()));
    assert_eq!(store.get_elem(u64::MAX), Ok(Some(1)));
}

#[test]
fn default_batch_is_empty_around_a_default_store() {
    let mut b: Batch = Default::default();
    assert_eq!(b.get_elem(0), Ok(None));
    b.append(3, vec![4]);
    assert_eq!(b.commit(&1), Ok(()));
    assert_eq!(b.get_elem(3), Ok(Some(4)));
}

#[test]
fn writes_after_the_failure_budget_keep_failing() {
    let mut store: MemStore<u64, u64> = MemStore::with_write_failure(1, 77);
    assert_eq!(store.append(0, vec![1], 0), Ok(()));
    assert_eq!(store.append(1, vec![2], 0), Err(StoreError { code: 77 }));
    assert_eq!(store.append(2, vec![3], 0), Err(StoreError { code: 77 }));
    assert_eq!(store.get_elem(0), Ok(Some(1)));
    assert_eq!(store.get_elem(1), Ok(None));
}
