use mandelbrot_explorer::grid::grid_cells;
use mandelbrot_explorer::queue::PointQueue;
use mandelbrot_explorer::vector::LaneState;
use mandelbrot_explorer::vector::VectorScheduler;

#[test]
fn grid_enumerates_cells_x_major() {
    let cells = grid_cells(3, 2);
    assert_eq!(cells, vec![(0, 0), (0, 1), (1, 0), (1, 1), (2, 0), (2, 1)]);
}

#[test]
fn grid_size_is_width_times_height() {
    assert_eq!(grid_cells(700, 480).len(), 700 * 480);
    assert_eq!(grid_cells(1, 1), vec![(0, 0)]);
}

#[test]
fn degenerate_grid_is_empty() {
    assert!(grid_cells(0, 5).is_empty());
    assert!(grid_cells(5, 0).is_empty());
    assert!(grid_cells(0, 0).is_empty());
}

#[test]
fn queue_hands_out_each_point_once() {
    let mut queue = PointQueue::new(3);
    assert!(!queue.is_exhausted());
    assert_eq!(queue.pop(), Some(0));
    assert_eq!(queue.pop(), Some(1));
    assert_eq!(queue.pop(), Some(2));
    assert!(queue.is_exhausted());
    assert_eq!(queue.pop(), None);
    assert_eq!(queue.pop(), None);
}

#[test]
fn empty_queue_yields_nothing() {
    let mut queue = PointQueue::new(0);
    assert!(queue.is_exhausted());
    assert_eq!(queue.pop(), None);
}

#[test]
fn lane_is_recycled_through_fill_burst_harvest() {
    let mut scheduler = VectorScheduler::new(10);
    assert!(!scheduler.has_active());
    assert!(scheduler.all_empty());

    scheduler.fill_lane(0, 5);
    assert!(scheduler.has_active());
    assert!(!scheduler.all_empty());

    // Two passed checks, then a failed one: the count freezes at 2.
    scheduler.burst_step(&vec![true; 8]);
    scheduler.burst_step(&vec![true; 8]);
    scheduler.burst_step(&vec![false; 8]);
    assert!(!scheduler.has_active());
    assert!(matches!(scheduler.lanes[0].state, LaneState::Done));

    let (point, count) = scheduler.harvest_lane(0);
    assert_eq!(point, 5);
    assert_eq!(count, 2);
    assert!(scheduler.all_empty());
}

#[test]
fn lane_count_stops_at_the_cap() {
    let mut scheduler = VectorScheduler::new(3);
    scheduler.fill_lane(2, 9);
    for _ in 0..5 {
        scheduler.burst_step(&vec![true; 8]);
    }
    let (point, count) = scheduler.harvest_lane(2);
    assert_eq!(point, 9);
    assert_eq!(count, 3);
}
