use moe_infer::cache::{default_ssm_gpu, is_full_layer, Cache, CacheDims, FullState, LinearState, State};
use moe_infer::constants::{CONV_KERNEL_SIZE, MAX_SEQ};
use moe_infer::deferred::{copy_prefix, DeferredExperts};
use moe_infer::expert_cache::{align_to_page, ExpertLRUCache, MallocExpertCache, PAGE_SIZE};
use moe_infer::expert_fetch::fetch_experts;
use moe_infer::scalar::{Scalar, Term};

fn bits(n: u32) -> Term {
    Term::Bits(n)
}

#[test]
fn lru_hits_and_misses_are_counted() {
    let mut c: ExpertLRUCache<u32> = ExpertLRUCache::new(2, 4, vec![10, 20]);
    assert!(c.lookup(0, 1, 4).is_none());
    assert_eq!(*c.insert(0, 1, 4), 10);
    assert_eq!(c.lookup(0, 1, 4), Some(&10));
    assert_eq!(c.stats(), (1, 1));
    assert_eq!(c.entry_index(0, 1, 4), 0);
    assert_eq!(c.entry_index(1, 1, 4), -1);
}

#[test]
fn lru_evicts_the_least_recently_used() {
    let mut c: ExpertLRUCache<u32> = ExpertLRUCache::new(1, 8, vec![10, 20]);
    assert_eq!(*c.insert(0, 1, 8), 10);
    assert_eq!(*c.insert(0, 2, 8), 20);
    assert_eq!(c.lookup(0, 1, 8), Some(&10));
    assert_eq!(*c.insert(0, 3, 8), 20);
    assert_eq!(c.entry_index(0, 2, 8), -1);
    assert_eq!(c.entry_index(0, 1, 8), 0);
    assert_eq!(c.entry_index(0, 3, 8), 1);
    assert_eq!(*c.buffer(1), 20);
}

#[test]
fn lru_keeps_pinned_entries() {
    let mut c: ExpertLRUCache<u32> = ExpertLRUCache::new(1, 8, vec![10, 20]);
    c.insert(0, 1, 8);
    c.insert(0, 2, 8);
    c.pin(0);
    assert_eq!(*c.insert(0, 3, 8), 20);
    assert_eq!(c.entry_index(0, 1, 8), 0);
    c.unpin(0);
    assert_eq!(*c.insert(0, 4, 8), 10);
    assert_eq!(c.entry_index(0, 1, 8), -1);
}

#[test]
fn lru_unpins_batches() {
    let mut c: ExpertLRUCache<u32> = ExpertLRUCache::new(1, 8, vec![10, 20, 30]);
    c.insert(0, 0, 8);
    c.insert(0, 1, 8);
    c.insert(0, 2, 8);
    c.pin(0);
    c.pin(1);
    c.unpin_batch(&[0, 1]);
    assert_eq!(*c.insert(0, 3, 8), 10);
    assert_eq!(*c.insert(0, 4, 8), 20);
}

#[test]
fn lru_lookup_or_insert_tells_hits() {
    let mut c: ExpertLRUCache<u32> = ExpertLRUCache::new(2, 8, vec![10, 20]);
    let (slot, buf, hit) = c.lookup_or_insert(1, 5, 8);
    assert_eq!((slot, *buf, hit), (0, 10, false));
    let (slot, buf, hit) = c.lookup_or_insert(1, 5, 8);
    assert_eq!((slot, *buf, hit), (0, 10, true));
    let (slot, buf, hit) = c.lookup_or_insert(0, 5, 8);
    assert_eq!((slot, *buf, hit), (1, 20, false));
    assert_eq!(c.stats(), (1, 2));
}

#[test]
fn lru_lookup_or_insert_is_a_lookup_and_an_insertion() {
    let mut a: ExpertLRUCache<u32> = ExpertLRUCache::new(2, 4, vec![10, 20, 30]);
    let mut b: ExpertLRUCache<u32> = ExpertLRUCache::new(2, 4, vec![10, 20, 30]);
    let keys = [(0, 1), (1, 1), (0, 1), (0, 2), (1, 3), (1, 1), (0, 0), (0, 1)];
    let (mut hits, mut misses) = (0, 0);
    for (layer, expert) in keys {
        let (_, _, hit) = a.lookup_or_insert(layer, expert, 4);
        if b.lookup(layer, expert, 4).is_none() {
            assert!(!hit);
            b.insert(layer, expert, 4);
            misses += 1;
        } else {
            assert!(hit);
            hits += 1;
        }
        assert_eq!(a.stats(), (hits, misses));
        assert_eq!(b.stats(), (hits, misses));
        for l in 0..2 {
            for e in 0..4 {
                assert_eq!(a.entry_index(l, e, 4), b.entry_index(l, e, 4));
            }
        }
    }
}

#[test]
fn malloc_cache_pairs_data_and_buffers() {
    let mut c: MallocExpertCache<u64, u32> = MallocExpertCache::new(1, 4, vec![100, 200], vec![1, 2]);
    assert!(c.lookup(0, 2, 4).is_none());
    assert_eq!(c.insert(0, 2, 4), (100, 0));
    assert_eq!(c.lookup(0, 2, 4), Some((100, 0)));
    let (slot, buf, data, hit) = c.lookup_or_insert(0, 3, 4);
    assert_eq!((slot, *buf, data, hit), (1, 2, 200, false));
    assert_eq!(*c.metal_buf(0), 1);
    assert_eq!(c.stats(), (1, 2));
}

#[test]
fn pages_are_rounded_up() {
    assert_eq!(align_to_page(0), 0);
    assert_eq!(align_to_page(1), PAGE_SIZE);
    assert_eq!(align_to_page(PAGE_SIZE), PAGE_SIZE);
    assert_eq!(align_to_page(PAGE_SIZE + 1), 2 * PAGE_SIZE);
}

#[test]
fn fetching_reports_what_is_missing() {
    let mut c: ExpertLRUCache<u32> = ExpertLRUCache::new(1, 8, vec![10, 20, 30]);
    c.insert(0, 5, 8);
    let mut data: Vec<u32> = vec![0, 0, 0];
    let missing = fetch_experts(&mut c, 0, 8, &[4, 5, 6], &mut data);
    assert_eq!(missing, vec![0, 2]);
    assert_eq!(data[1], 10);
    assert_ne!(data[0], data[2]);
    // All of them are cached afterwards.
    let again = fetch_experts(&mut c, 0, 8, &[4, 5, 6], &mut data);
    assert!(again.is_empty());
}

fn dims() -> CacheDims {
    CacheDims {
        num_layers: 5,
        num_kv_heads: 1,
        head_dim: 2,
        linear_num_v_heads: 2,
        linear_num_k_heads: 1,
        linear_total_key: 2,
        linear_total_value: 4,
        linear_conv_dim: 8,
    }
}

#[test]
fn cache_sizes_can_be_tested() {
    assert!(dims().is_valid());
    assert!(!CacheDims { linear_num_v_heads: 0, ..dims() }.is_valid());
    assert!(!CacheDims { num_layers: usize::MAX, ..dims() }.is_valid());
    assert!(!CacheDims { num_kv_heads: usize::MAX, ..dims() }.is_valid());
    assert!(!CacheDims { linear_conv_dim: usize::MAX, ..dims() }.is_valid());
    assert!(!CacheDims { linear_total_key: usize::MAX, linear_num_k_heads: 1, ..dims() }.is_valid());
}

#[test]
fn cache_layers_follow_the_interval() {
    let c: Cache<Term, u32> = Cache::new(&dims());
    assert_eq!(c.pos, 0);
    assert_eq!(c.states.len(), 5);
    for layer in 0..5 {
        assert_eq!(is_full_layer(layer), layer == 3);
        assert_eq!(matches!(c.states[layer], State::Full(_)), layer == 3);
    }
    assert_eq!(c.full(3).k_cache.len(), MAX_SEQ * 2);
    assert_eq!(c.full(3).v_cache.len(), MAX_SEQ * 2);
    assert_eq!(c.lin(0).conv_state.len(), (CONV_KERNEL_SIZE - 1) * 8);
    assert_eq!(c.lin(0).ssm_state.len(), 2 * 2 * 2);
    assert!(c.lin(0).ssm_state_gpu.is_none());
}

#[test]
fn cache_position_moves_full_layers() {
    let mut c: Cache<Term, u32> = Cache::new(&dims());
    c.set_pos(7);
    assert_eq!(c.pos, 7);
    assert_eq!(c.full(3).len, 7);
    c.lin_mut(1).conv_state[0] = bits(9);
    c.full_mut(3).k_cache[0] = bits(8);
    c.reset();
    assert_eq!(c.pos, 0);
    assert_eq!(c.full(3).len, 0);
    assert_eq!(c.lin(1).conv_state[0], bits(0));
    // Keys and values stay; they are not read behind the length.
    assert_eq!(c.full(3).k_cache[0], bits(8));
}

#[test]
fn cache_copies_numbers_and_position() {
    let mut a: Cache<Term, u32> = Cache::new(&dims());
    let mut b: Cache<Term, u32> = Cache::new(&dims());
    b.set_pos(3);
    b.full_mut(3).v_cache[1] = bits(5);
    b.lin_mut(4).ssm_state[3] = bits(6);
    a.copy_from(&b);
    assert_eq!(a.pos, 3);
    assert_eq!(a.full(3).len, 3);
    assert_eq!(a.full(3).v_cache[1], bits(5));
    assert_eq!(a.lin(4).ssm_state[3], bits(6));
}

#[test]
fn states_know_their_kind() {
    let mut s: State<Term, u32> = State::Full(FullState::new(2, 3));
    assert_eq!(s.as_full().k_cache.len(), 6);
    s.as_full_mut().len = 1;
    assert_eq!(s.as_full().len, 1);
    let mut l: State<Term, u32> = State::Linear(LinearState::new(1, 2, 3, 4));
    l.as_linear_mut().ssm_state_gpu = Some(7);
    assert_eq!(l.as_linear().ssm_state_gpu, Some(7));
    assert_eq!(default_ssm_gpu::<u32>(), None);
}

#[test]
fn deferred_experts_are_completed_once() {
    let mut d: DeferredExperts<u32, u64> = DeferredExperts::new();
    assert!(!d.is_active());
    let c = d.complete();
    assert_eq!((c.wait, c.read), (None, None));

    let mut d: DeferredExperts<u32, u64> = DeferredExperts::committed(4, 9, vec![1, 2], true);
    assert!(d.is_active());
    assert!(d.gpu_combined);
    let c = d.complete_fast();
    assert_eq!((c.wait, c.read), (Some(4), Some(9)));
    assert!(!d.is_active());
    assert!(d.keep_alive.is_empty());
    assert_eq!(d.complete().wait, None);

    let mut d: DeferredExperts<u32, u64> = DeferredExperts::committed(4, 9, vec![], false);
    d.discard();
    assert!(!d.is_active());
}

#[test]
fn prefixes_are_copied() {
    let mut dst = [1, 2, 3, 4];
    copy_prefix(&mut dst, &[9, 8, 7], 2);
    assert_eq!(dst, [9, 8, 3, 4]);
}

#[test]
fn terms_record_operations() {
    let x = Term::of_bits(1).plus(&Term::of_usize(2)).negated();
    assert_eq!(
        x,
        Term::Neg(Box::new(Term::Plus(Box::new(Term::Bits(1)), Box::new(Term::Count(2)))))
    );
    assert_eq!(Term::of_bits(17).bits(), 17);
}
