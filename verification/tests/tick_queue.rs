use redpiler::geometry::BlockPos;
use redpiler::tick_queue::{ScheduledTick, TickEntry, TickPriority, TickQueue};

fn tick(ticks_left: u32, priority: TickPriority, tick_fn: usize) -> ScheduledTick {
    ScheduledTick { ticks_left, priority, tick_fn }
}

#[test]
fn schedule_maps_priority_numbers() {
    let mut q = TickQueue::new();
    q.schedule_tick(2, 0, 7);
    q.schedule_tick(1, 1, 8);
    q.schedule_tick(0, 2, 9);
    q.schedule_tick(0, 3, 10);
    assert_eq!(
        q.ticks(),
        vec![
            tick(2, TickPriority::Normal, 7),
            tick(1, TickPriority::High, 8),
            tick(0, TickPriority::Higher, 9),
            tick(0, TickPriority::Highest, 10),
        ]
    );
}

#[test]
fn sort_orders_by_time_then_urgency_keeping_ties() {
    let mut q = TickQueue::new();
    q.schedule_tick(1, 0, 1);
    q.schedule_tick(0, 0, 2);
    q.schedule_tick(0, 3, 3);
    q.schedule_tick(1, 0, 4);
    q.schedule_tick(0, 0, 5);
    q.sort_for_tick();
    assert_eq!(
        q.ticks(),
        vec![
            tick(0, TickPriority::Highest, 3),
            tick(0, TickPriority::Normal, 2),
            tick(0, TickPriority::Normal, 5),
            tick(1, TickPriority::Normal, 1),
            tick(1, TickPriority::Normal, 4),
        ]
    );
}

#[test]
fn pop_due_takes_only_ticks_due_now() {
    let mut q = TickQueue::new();
    q.schedule_tick(0, 2, 4);
    q.schedule_tick(3, 0, 5);
    q.sort_for_tick();
    assert_eq!(q.pop_due(), Some(4));
    assert_eq!(q.pop_due(), None);
    assert_eq!(q.ticks(), vec![tick(3, TickPriority::Normal, 5)]);
}

#[test]
fn schedule_entries_and_reset_round_trip() {
    let a = BlockPos::new(1, 2, 3);
    let b = BlockPos::new(4, 5, 6);
    let entries = vec![
        TickEntry { ticks_left: 2, tick_priority: TickPriority::High, pos: b },
        TickEntry { ticks_left: 1, tick_priority: TickPriority::Normal, pos: a },
    ];
    let mut q = TickQueue::new();
    // Node 0 stands at `a`, node 1 at `b`; tick function i belongs to node i.
    q.schedule_entries(&entries, &vec![a, b], &vec![0, 1]);
    assert_eq!(q.ticks(), vec![tick(2, TickPriority::High, 1), tick(1, TickPriority::Normal, 0)]);
    let back = q.reset(&vec![0, 1], &vec![a, b]);
    assert_eq!(back, entries);
    assert!(q.ticks().is_empty());
}

#[test]
fn schedule_entries_takes_the_last_node_at_a_position() {
    let a = BlockPos::new(0, 0, 0);
    let b = BlockPos::new(0, 1, 0);
    let entries = vec![TickEntry { ticks_left: 4, tick_priority: TickPriority::Highest, pos: a }];
    let mut q = TickQueue::new();
    q.schedule_entries(&entries, &vec![a, b, a], &vec![10, 11, 12]);
    assert_eq!(q.ticks(), vec![tick(4, TickPriority::Highest, 12)]);
}
