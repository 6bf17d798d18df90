use havi::hppr_pool::HpprAsyncPool;

const EP: &str = "tcp://repo.example:7070";

#[test]
fn returned_connections_are_reused_last_first() {
    let mut pool: HpprAsyncPool<u32, u64> = HpprAsyncPool::new();
    assert_eq!(pool.try_idle(EP, &1, 0), None);
    pool.release(EP, &1, 10, false, 0);
    pool.release(EP, &1, 11, false, 5);
    assert_eq!(pool.try_idle(EP, &1, 100), Some(11));
    assert_eq!(pool.try_idle(EP, &1, 100), Some(10));
    assert_eq!(pool.try_idle(EP, &1, 100), None);
}

#[test]
fn at_most_four_idle_connections_are_kept() {
    let mut pool: HpprAsyncPool<u32, u64> = HpprAsyncPool::new();
    for c in 1..=6 {
        pool.release(EP, &1, c, false, 0);
    }
    let mut taken = Vec::new();
    while let Some(c) = pool.try_idle(EP, &1, 1) {
        taken.push(c);
    }
    assert_eq!(taken, vec![4, 3, 2, 1]);
}

#[test]
fn stale_connections_are_dropped() {
    let mut pool: HpprAsyncPool<u32, u64> = HpprAsyncPool::new();
    pool.release(EP, &1, 1, false, 0);
    pool.release(EP, &1, 2, false, 30_000);
    pool.release(EP, &1, 3, false, 10_000);
    assert_eq!(pool.try_idle(EP, &1, 70_000), Some(2));
    assert_eq!(pool.try_idle(EP, &1, 70_000), None);
    pool.release(EP, &1, 4, false, 0);
    assert_eq!(pool.try_idle(EP, &1, 60_000), None);
}

#[test]
fn keys_separate_endpoints_and_signers() {
    let mut pool: HpprAsyncPool<u32, u64> = HpprAsyncPool::new();
    pool.release(EP, &1, 1, false, 0);
    pool.release(EP, &2, 2, false, 0);
    pool.release("tcp://other:1", &1, 3, false, 0);
    assert_eq!(pool.try_idle(EP, &2, 1), Some(2));
    assert_eq!(pool.try_idle("tcp://other:1", &1, 1), Some(3));
    assert_eq!(pool.try_idle(EP, &1, 1), Some(1));
}

#[test]
fn quib_streams_are_not_pooled_but_bases_are_kept() {
    let mut pool: HpprAsyncPool<u32, u64> = HpprAsyncPool::new();
    pool.release(EP, &1, 9, true, 0);
    assert_eq!(pool.try_idle(EP, &1, 1), None);
    assert_eq!(pool.take_quib_base(EP, &1), None);
    pool.store_quib_base(EP, &1, 20);
    pool.store_quib_base(EP, &1, 21);
    assert_eq!(pool.take_quib_base(EP, &1), Some(21));
    assert_eq!(pool.take_quib_base(EP, &1), None);
}

#[test]
fn invalidate_forgets_an_endpoint_for_every_signer() {
    let mut pool: HpprAsyncPool<u32, u64> = HpprAsyncPool::new();
    pool.release(EP, &1, 1, false, 0);
    pool.release(EP, &2, 2, false, 0);
    pool.release("tcp://other:1", &1, 3, false, 0);
    pool.store_quib_base(EP, &1, 4);
    pool.store_quib_base("tcp://other:1", &1, 5);
    pool.invalidate(EP);
    assert_eq!(pool.try_idle(EP, &1, 1), None);
    assert_eq!(pool.try_idle(EP, &2, 1), None);
    assert_eq!(pool.take_quib_base(EP, &1), None);
    assert_eq!(pool.try_idle("tcp://other:1", &1, 1), Some(3));
    assert_eq!(pool.take_quib_base("tcp://other:1", &1), Some(5));
    pool.release(EP, &1, 6, false, 0);
    pool.clear();
    assert_eq!(pool.try_idle(EP, &1, 1), None);
}
