use view_store::hash::BlockHash;
use view_store::store::{PoolView, ViewStore};
use view_store::tree_route::{HashAndNumber, TreeRoute};

fn hash(byte: u8) -> BlockHash {
    BlockHash::new([byte; 32])
}

fn block(number: u64, byte: u8) -> HashAndNumber {
    HashAndNumber { number, hash: hash(byte) }
}

fn view(number: u64, byte: u8, pool: u32) -> PoolView<u32> {
    PoolView { at: block(number, byte), pool }
}

fn route(blocks: Vec<HashAndNumber>, pivot: usize) -> TreeRoute {
    TreeRoute::new(blocks, pivot).expect("the pivot is a position of the route")
}

/// Route from R1 (0x11) to E2 (0x22) over the common block C (0x0c):
/// retracted [R1, R2, R3], enacted [E1, E2].
fn fork_route() -> TreeRoute {
    route(
        vec![
            block(13, 0x11),
            block(12, 0x12),
            block(11, 0x13),
            block(10, 0x0c),
            block(11, 0x21),
            block(12, 0x22),
        ],
        3,
    )
}

fn store_with(views: Vec<PoolView<u32>>) -> ViewStore<u32> {
    let mut store = ViewStore::new();
    for v in views {
        let at = v.at;
        store.insert_new_view(v, &route(vec![at], 0));
    }
    store
}

fn active(store: &ViewStore<u32>) -> Vec<BlockHash> {
    store.views().key_list()
}

fn retracted(store: &ViewStore<u32>) -> Vec<BlockHash> {
    store.retracted_views().key_list()
}

#[test]
fn new_store_is_empty() {
    let store: ViewStore<u32> = ViewStore::new();
    assert!(store.is_empty());
    assert_eq!(store.views().len(), 0);
    assert_eq!(store.retracted_views().len(), 0);
    assert_eq!(store.most_recent_view(), None);
    assert!(store.get_view_at(&hash(1), true).is_none());
    assert!(store.find_best_view(&fork_route()).is_none());
}

#[test]
fn find_best_view_takes_enacted_block_first() {
    let store = store_with(vec![view(11, 0x21, 7)]);
    let best = store.find_best_view(&fork_route()).expect("the view at E1 is found");
    assert_eq!(best.at.hash, hash(0x21));
    assert_eq!(best.at.number, 11);
    assert_eq!(best.pool, 7);
}

#[test]
fn find_best_view_prefers_enacted_over_common_and_retracted() {
    let store = store_with(vec![view(11, 0x13, 1), view(10, 0x0c, 2), view(11, 0x21, 3)]);
    let best = store.find_best_view(&fork_route()).expect("a view is found");
    assert_eq!(best.at.hash, hash(0x21));
    assert_eq!(best.pool, 3);
}

#[test]
fn find_best_view_prefers_block_nearest_to_new_head() {
    let store = store_with(vec![view(11, 0x21, 1), view(12, 0x22, 2)]);
    let best = store.find_best_view(&fork_route()).expect("a view is found");
    assert_eq!(best.at.hash, hash(0x22));
}

#[test]
fn find_best_view_prefers_common_over_retracted() {
    let store = store_with(vec![view(13, 0x11, 1), view(11, 0x13, 2), view(10, 0x0c, 3)]);
    let best = store.find_best_view(&fork_route()).expect("a view is found");
    assert_eq!(best.at.hash, hash(0x0c));
}

#[test]
fn find_best_view_walks_retracted_from_common_outwards() {
    let store = store_with(vec![view(13, 0x11, 1), view(12, 0x12, 2)]);
    let best = store.find_best_view(&fork_route()).expect("a view is found");
    assert_eq!(best.at.hash, hash(0x12));
    assert_eq!(best.pool, 2);
}

#[test]
fn find_best_view_ignores_blocks_off_the_route() {
    let store = store_with(vec![view(5, 0x77, 1)]);
    assert!(store.find_best_view(&fork_route()).is_none());
}

#[test]
fn find_best_view_ignores_retracted_views() {
    let mut store = store_with(vec![view(10, 0x0c, 1)]);
    // C is superseded by a view at a block off the fork route.
    store.insert_new_view(view(11, 0x31, 2), &route(vec![block(10, 0x0c), block(11, 0x31)], 0));
    assert_eq!(retracted(&store), vec![hash(0x0c)]);
    assert!(store.find_best_view(&fork_route()).is_none());
}

#[test]
fn insert_new_view_installs_view_and_sets_most_recent() {
    let mut store: ViewStore<u32> = ViewStore::new();
    let retired = store.insert_new_view(view(0, 0xa0, 1), &route(vec![block(0, 0xa0)], 0));
    assert!(retired.is_empty());
    assert!(!store.is_empty());
    assert_eq!(active(&store), vec![hash(0xa0)]);
    assert!(retracted(&store).is_empty());
    assert_eq!(store.most_recent_view(), Some(hash(0xa0)));
}

#[test]
fn insert_new_view_retires_common_and_enacted_views() {
    let mut store = store_with(vec![view(10, 0x0c, 1), view(11, 0x21, 2), view(13, 0x11, 3)]);
    let retired = store.insert_new_view(view(12, 0x22, 4), &fork_route());
    assert_eq!(retired, vec![hash(0x0c), hash(0x21)]);
    // The view on the abandoned fork stays active: only finalization prunes it.
    assert_eq!(active(&store), vec![hash(0x11), hash(0x22)]);
    assert_eq!(retracted(&store), vec![hash(0x0c), hash(0x21)]);
    assert_eq!(store.most_recent_view(), Some(hash(0x22)));
    assert_eq!(store.retracted_views().get(&hash(0x0c)).map(|v| v.pool), Some(1));
    assert_eq!(store.retracted_views().get(&hash(0x21)).map(|v| v.pool), Some(2));
    assert_eq!(store.views().get(&hash(0x22)).map(|v| v.pool), Some(4));
}

#[test]
fn insert_new_view_keeps_views_and_retracted_views_apart() {
    let mut store: ViewStore<u32> = ViewStore::new();
    store.insert_new_view(view(0, 0xa0, 0), &route(vec![block(0, 0xa0)], 0));
    store.insert_new_view(view(1, 0xa1, 1), &route(vec![block(0, 0xa0), block(1, 0xa1)], 0));
    store.insert_new_view(view(1, 0xb1, 2), &route(vec![block(1, 0xa1), block(0, 0xa0), block(1, 0xb1)], 1));
    store.insert_new_view(view(2, 0xb2, 3), &route(vec![block(1, 0xb1), block(2, 0xb2)], 0));
    for h in active(&store) {
        assert!(!store.retracted_views().contains_key(&h));
    }
    for h in retracted(&store) {
        assert!(!store.views().contains_key(&h));
    }
    assert_eq!(active(&store), vec![hash(0xa1), hash(0xb2)]);
    assert_eq!(retracted(&store), vec![hash(0xa0), hash(0xb1)]);
}

#[test]
fn insert_new_view_reports_a_repeated_block_once() {
    let mut store = store_with(vec![view(10, 0x0c, 1)]);
    let twice = route(vec![block(10, 0x0c), block(10, 0x0c), block(11, 0x21)], 0);
    let retired = store.insert_new_view(view(11, 0x21, 2), &twice);
    assert_eq!(retired, vec![hash(0x0c)]);
}

#[test]
fn insert_new_view_replaces_an_active_view_off_the_route() {
    let mut store = store_with(vec![view(7, 0x70, 1)]);
    let retired = store.insert_new_view(view(7, 0x70, 2), &route(vec![block(6, 0x60)], 0));
    assert!(retired.is_empty());
    assert_eq!(active(&store), vec![hash(0x70)]);
    assert_eq!(store.views().get(&hash(0x70)).map(|v| v.pool), Some(2));
    assert!(retracted(&store).is_empty());
}

#[test]
fn get_view_at_tells_retracted_views_apart() {
    let mut store = store_with(vec![view(10, 0x0c, 1)]);
    store.insert_new_view(view(11, 0x21, 2), &route(vec![block(10, 0x0c), block(11, 0x21)], 0));

    let (found, is_retracted) = store.get_view_at(&hash(0x21), false).expect("active");
    assert_eq!((found.pool, is_retracted), (2, false));
    let (found, is_retracted) = store.get_view_at(&hash(0x21), true).expect("active");
    assert_eq!((found.pool, is_retracted), (2, false));

    assert!(store.get_view_at(&hash(0x0c), false).is_none());
    let (found, is_retracted) = store.get_view_at(&hash(0x0c), true).expect("retracted");
    assert_eq!((found.pool, found.at.number, is_retracted), (1, 10, true));

    assert!(store.get_view_at(&hash(0x99), true).is_none());
}

#[test]
fn get_view_at_gives_the_same_twice() {
    let mut store = store_with(vec![view(10, 0x0c, 1)]);
    store.insert_new_view(view(11, 0x21, 2), &route(vec![block(10, 0x0c), block(11, 0x21)], 0));
    for (at, allow) in [(0x0c, true), (0x0c, false), (0x21, true), (0x21, false), (0x99, true)] {
        let first = store.get_view_at(&hash(at), allow).map(|(v, r)| (v.at.hash, v.pool, r));
        let second = store.get_view_at(&hash(at), allow).map(|(v, r)| (v.at.hash, v.pool, r));
        assert_eq!(first, second);
    }
}

fn store_for_finalization() -> ViewStore<u32> {
    // Active: 0x05 at 5, 0x15 at 5 (another fork), 0x06 at 6, 0x04 at 4.
    // Retracted: 0x03 at 3, 0x07 at 7.
    let mut store = store_with(vec![view(3, 0x03, 3), view(7, 0x07, 7)]);
    store.insert_new_view(view(4, 0x04, 4), &route(vec![block(3, 0x03), block(7, 0x07)], 0));
    store.insert_new_view(view(5, 0x05, 5), &route(vec![block(1, 0x01)], 0));
    store.insert_new_view(view(5, 0x15, 15), &route(vec![block(1, 0x01)], 0));
    store.insert_new_view(view(6, 0x06, 6), &route(vec![block(1, 0x01)], 0));
    assert_eq!(active(&store), vec![hash(0x04), hash(0x05), hash(0x15), hash(0x06)]);
    assert_eq!(retracted(&store), vec![hash(0x03), hash(0x07)]);
    store
}

#[test]
fn handle_finalized_prunes_below_known_height() {
    let mut store = store_for_finalization();
    store.handle_finalized::<()>(hash(0x05), Ok(Some(5)));
    assert_eq!(active(&store), vec![hash(0x05), hash(0x06)]);
    assert_eq!(retracted(&store), vec![hash(0x07)]);
    assert_eq!(store.most_recent_view(), Some(hash(0x06)));
    for i in 0..store.views().len() {
        let v = store.views().value_at(i);
        assert!(v.at.number > 5 || (v.at.number == 5 && v.at.hash == hash(0x05)));
    }
    for i in 0..store.retracted_views().len() {
        assert!(store.retracted_views().value_at(i).at.number > 5);
    }
}

#[test]
fn handle_finalized_drops_retracted_view_at_finalized_height() {
    let mut store = store_for_finalization();
    store.handle_finalized::<()>(hash(0x77), Ok(Some(7)));
    assert!(active(&store).is_empty());
    assert!(retracted(&store).is_empty());
}

#[test]
fn handle_finalized_without_number_keeps_only_finalized_view() {
    let mut store = store_for_finalization();
    store.handle_finalized::<()>(hash(0x05), Ok(None));
    assert_eq!(active(&store), vec![hash(0x05)]);
    assert!(retracted(&store).is_empty());
}

#[test]
fn handle_finalized_after_failed_lookup_keeps_only_finalized_view() {
    let mut store = store_for_finalization();
    store.handle_finalized(hash(0x06), Err("backend is gone"));
    assert_eq!(active(&store), vec![hash(0x06)]);
    assert!(retracted(&store).is_empty());

    let mut store = store_for_finalization();
    store.handle_finalized(hash(0x99), Err("backend is gone"));
    assert!(store.is_empty());
    assert!(retracted(&store).is_empty());
    assert_eq!(store.most_recent_view(), Some(hash(0x06)));
}

#[test]
fn handle_finalized_drops_finalized_view_below_reported_height() {
    // The view at the finalized block is kept at the finalized height, not below it.
    let mut store = store_with(vec![view(4, 0x04, 4)]);
    store.handle_finalized::<()>(hash(0x04), Ok(Some(5)));
    assert!(store.is_empty());
}

#[test]
fn tree_route_needs_pivot_on_the_route() {
    assert!(TreeRoute::new(vec![], 0).is_none());
    assert!(TreeRoute::new(vec![block(1, 1)], 1).is_none());
    assert!(TreeRoute::new(vec![block(1, 1), block(2, 2)], 2).is_none());
    assert!(TreeRoute::new(vec![block(1, 1)], 0).is_some());
}

#[test]
fn tree_route_splits_at_pivot() {
    let r = fork_route();
    let hashes = |blocks: &[HashAndNumber]| blocks.iter().map(|b| b.hash).collect::<Vec<_>>();
    assert_eq!(hashes(r.retracted()), vec![hash(0x11), hash(0x12), hash(0x13)]);
    assert_eq!(r.common_block().hash, hash(0x0c));
    assert_eq!(r.common_block().number, 10);
    assert_eq!(hashes(r.enacted()), vec![hash(0x21), hash(0x22)]);
    assert_eq!(r.len(), 6);
    assert_eq!(r.pivot_index(), 3);
    assert_eq!(r.block_at(4).hash, hash(0x21));

    let straight = route(vec![block(1, 1)], 0);
    assert!(straight.retracted().is_empty());
    assert!(straight.enacted().is_empty());
    assert_eq!(straight.common_block().hash, hash(1));
}

#[test]
fn insert_new_view_drops_a_retracted_view_of_the_new_block() {
    // G is retired by A. When a view at G comes again, G is active only.
    let mut store = store_with(vec![view(0, 0xa0, 1)]);
    store.insert_new_view(view(1, 0xa1, 2), &route(vec![block(0, 0xa0), block(1, 0xa1)], 0));
    assert_eq!(active(&store), vec![hash(0xa1)]);
    assert_eq!(retracted(&store), vec![hash(0xa0)]);
    // Route from A back to G: retracted [A], common G, nothing enacted.
    let retired =
        store.insert_new_view(view(0, 0xa0, 3), &route(vec![block(1, 0xa1), block(0, 0xa0)], 1));
    assert!(retired.is_empty());
    assert_eq!(active(&store), vec![hash(0xa1), hash(0xa0)]);
    assert!(retracted(&store).is_empty());
    assert!(!store.retracted_views().contains_key(&hash(0xa0)));
    let (found, is_retracted) = store.get_view_at(&hash(0xa0), true).expect("active");
    assert_eq!((found.pool, is_retracted), (3, false));
    assert_eq!(store.most_recent_view(), Some(hash(0xa0)));
}

#[test]
fn insert_new_view_replaces_an_active_view_of_the_new_block_on_the_route() {
    // The older view at A gives way to the new one and is not kept as retracted.
    let mut store = store_with(vec![view(0, 0xa0, 0), view(1, 0xa1, 1)]);
    let retired =
        store.insert_new_view(view(1, 0xa1, 2), &route(vec![block(0, 0xa0), block(1, 0xa1)], 0));
    assert_eq!(retired, vec![hash(0xa0)]);
    assert_eq!(active(&store), vec![hash(0xa1)]);
    assert_eq!(store.views().get(&hash(0xa1)).map(|v| v.pool), Some(2));
    assert_eq!(retracted(&store), vec![hash(0xa0)]);
    assert!(!store.retracted_views().contains_key(&hash(0xa1)));
}

#[test]
fn insert_new_view_retires_a_view_that_came_again() {
    let mut store = store_with(vec![view(0, 0xa0, 1)]);
    store.insert_new_view(view(1, 0xa1, 2), &route(vec![block(0, 0xa0), block(1, 0xa1)], 0));
    store.insert_new_view(view(0, 0xa0, 3), &route(vec![block(1, 0xa1), block(0, 0xa0)], 1));
    // The second view at G is retired in its turn.
    let retired =
        store.insert_new_view(view(2, 0xa2, 4), &route(vec![block(0, 0xa0), block(2, 0xa2)], 0));
    assert_eq!(retired, vec![hash(0xa0)]);
    assert_eq!(active(&store), vec![hash(0xa1), hash(0xa2)]);
    assert_eq!(retracted(&store), vec![hash(0xa0)]);
    assert_eq!(store.retracted_views().get(&hash(0xa0)).map(|v| v.pool), Some(3));
}

#[test]
fn views_and_retracted_views_stay_apart_whatever_is_inserted() {
    // Every block of a small tree gets a view again and again, along routes
    // that supersede ever different blocks.
    let mut store: ViewStore<u32> = ViewStore::new();
    let blocks = [block(0, 1), block(1, 2), block(1, 3), block(2, 4)];
    let mut pool = 0;
    for round in 0..3 {
        for (i, at) in blocks.iter().enumerate() {
            let mut on_route = vec![blocks[(i + round) % 4], blocks[(i + round + 1) % 4], *at];
            on_route.rotate_left(round);
            pool += 1;
            let retired = store
                .insert_new_view(PoolView { at: *at, pool }, &route(on_route, round % 3));
            assert!(store.views().contains_key(&at.hash));
            assert_eq!(store.most_recent_view(), Some(at.hash));
            for h in active(&store) {
                assert!(!store.retracted_views().contains_key(&h));
            }
            for h in retired {
                assert!(store.retracted_views().contains_key(&h));
                assert!(!store.views().contains_key(&h));
            }
        }
    }
}
