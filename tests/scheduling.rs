use raytracer::scheduler::RenderQueue;
use raytracer::tiles::{make_workblocks, plan_workblocks, WorkBlock};

fn wb(x0: i32, x1: i32, y0: i32, y1: i32) -> WorkBlock {
    WorkBlock { xdim: (x0, x1), ydim: (y0, y1) }
}

#[test]
fn partition_is_row_major_and_clipped() {
    let blocks = make_workblocks(10, 5, 4);
    assert_eq!(
        blocks,
        vec![
            wb(0, 4, 0, 4),
            wb(4, 8, 0, 4),
            wb(8, 10, 0, 4),
            wb(0, 4, 4, 5),
            wb(4, 8, 4, 5),
            wb(8, 10, 4, 5),
        ]
    );
}

#[test]
fn partition_of_exact_multiple_has_empty_edge_blocks() {
    let blocks = make_workblocks(8, 4, 4);
    assert_eq!(blocks.len(), 3 * 2);
    assert_eq!(blocks[2], wb(8, 8, 0, 4));
    assert_eq!(blocks[5], wb(8, 8, 4, 4));
}

#[test]
fn partition_of_empty_image() {
    assert_eq!(make_workblocks(0, 0, 16), vec![wb(0, 0, 0, 0)]);
}

fn sorted(mut v: Vec<WorkBlock>) -> Vec<(i32, i32, i32, i32)> {
    let mut t: Vec<(i32, i32, i32, i32)> = v.drain(..).map(|b| (b.xdim.0, b.xdim.1, b.ydim.0, b.ydim.1)).collect();
    t.sort();
    t
}

#[test]
fn shuffled_plan_holds_the_same_blocks() {
    let plain = plan_workblocks(100, 70, 16, false);
    assert_eq!(plain, make_workblocks(100, 70, 16));
    let shuffled = plan_workblocks(100, 70, 16, true);
    assert_eq!(shuffled.len(), plain.len());
    assert_eq!(sorted(shuffled), sorted(plain));
}

#[test]
fn queue_pops_last_block_first() {
    let blocks = make_workblocks(10, 5, 4);
    let mut q = RenderQueue::new(blocks.clone());
    assert_eq!(q.total_blocks(), 6);
    assert_eq!(q.next_block(), Some(blocks[5]));
    assert_eq!(q.next_block(), Some(blocks[4]));
    assert_eq!(q.blocks_pending(), 4);
    q.complete_block();
    assert_eq!(q.blocks_done(), 1);
    assert!(!q.is_finished());
}

#[test]
fn drained_queue_finishes() {
    let mut q = RenderQueue::new(make_workblocks(3, 3, 2));
    let mut handed = 0;
    while let Some(_) = q.next_block() {
        handed += 1;
        q.complete_block();
    }
    assert_eq!(handed, 4);
    assert_eq!(q.next_block(), None);
    assert!(q.is_finished());
    assert_eq!(q.blocks_done(), q.total_blocks());
}

#[test]
fn cancellation_stops_handout() {
    let mut q = RenderQueue::new(make_workblocks(64, 64, 8));
    assert!(q.next_block().is_some());
    q.cancel();
    assert!(q.is_cancelled());
    for _ in 0..10 {
        assert_eq!(q.next_block(), None);
    }
    q.complete_block();
    assert!(q.blocks_done() <= q.total_blocks());
    assert_eq!(q.blocks_done(), 1);
    assert!(!q.is_finished());
}

#[test]
fn workers_stop_within_pending_plus_one_polls() {
    let mut q = RenderQueue::new(make_workblocks(20, 20, 8));
    let pending = q.blocks_pending();
    let mut polls = 0;
    loop {
        polls += 1;
        if q.next_block().is_none() {
            break;
        }
    }
    assert_eq!(polls, pending + 1);
}

#[test]
fn block_pixels_run_bottom_row_first() {
    let b = wb(2, 4, 5, 7);
    assert_eq!(b.pixels(), vec![(2, 6), (3, 6), (2, 5), (3, 5)]);
    assert_eq!(wb(4, 4, 0, 3).pixels(), vec![]);
}

#[test]
fn pixel_index_is_row_major() {
    assert_eq!(raytracer::tiles::pixel_index(3, 2, 10), 23);
    assert_eq!(raytracer::tiles::pixel_index(0, 0, 1), 0);
}

#[test]
fn block_count_matches_partition() {
    assert_eq!(raytracer::tiles::block_count_checked(10, 5, 4), Some(6));
    assert_eq!(raytracer::tiles::block_count_checked(0, 0, 1), Some(1));
    assert_eq!(raytracer::tiles::block_count_checked(i32::MAX - 1, i32::MAX - 1, 1).map(|n| n > 0), Some(true));
}
