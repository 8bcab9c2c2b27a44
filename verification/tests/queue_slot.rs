use backlog_breakdown::consume_counter::ConsumeCount;
use backlog_breakdown::item::{Item, ItemHandleIndex, ItemId, ItemType, NANOS_PER_SEC};
use backlog_breakdown::queue::{
    check_active, consume_active, ActiveItem, Countdown, ItemConsumed, Queue,
};
use backlog_breakdown::stress::{StressMeter, StressOrigin, StressPopupText, RELIEF};

fn item(id: u32, item_type: ItemType, variant: usize) -> Item {
    Item { id: ItemId(id), item_type, index: ItemHandleIndex(variant), dragging: false }
}

#[test]
fn queue_holds_at_most_two() {
    assert_eq!(Queue::MAX_ITEMS, 2);
    let mut queue = Queue::new();
    assert_eq!(queue.len(), 0);
    assert!(!queue.is_full());
    assert_eq!(queue.try_enqueue(item(0, ItemType::Book, 0)), None);
    assert!(!queue.is_full());
    assert_eq!(queue.try_enqueue(item(1, ItemType::Game, 0)), None);
    assert!(queue.is_full());
    assert_eq!(queue.len(), 2);
}

#[test]
fn full_queue_hands_the_item_back_unchanged() {
    let mut queue = Queue::new();
    queue.try_enqueue(item(0, ItemType::Book, 0));
    queue.try_enqueue(item(1, ItemType::Game, 0));
    let refused = queue.try_enqueue(item(2, ItemType::Comic, 3));
    assert_eq!(refused, Some(item(2, ItemType::Comic, 3)));
    assert_eq!(queue.len(), 2);
    let kept: Vec<Item> = queue.items().iter().copied().collect();
    assert_eq!(kept, vec![item(0, ItemType::Book, 0), item(1, ItemType::Game, 0)]);
}

#[test]
fn queue_is_first_come_first_served() {
    let mut queue = Queue::new();
    queue.try_enqueue(item(7, ItemType::Movie, 0));
    queue.try_enqueue(item(3, ItemType::Comic, 0));
    assert_eq!(queue.pop_front(), Some(item(7, ItemType::Movie, 0)));
    queue.try_enqueue(item(9, ItemType::Book, 0));
    assert_eq!(queue.pop_front(), Some(item(3, ItemType::Comic, 0)));
    assert_eq!(queue.pop_front(), Some(item(9, ItemType::Book, 0)));
    assert_eq!(queue.pop_front(), None);
    assert_eq!(queue.len(), 0);
}

#[test]
fn promotion_fills_a_free_slot_from_the_front() {
    let mut queue = Queue::new();
    queue.try_enqueue(item(0, ItemType::Game, 1));
    queue.try_enqueue(item(1, ItemType::Comic, 2));
    let mut active: Option<ActiveItem> = None;
    check_active(&mut queue, &mut active);
    assert_eq!(
        active,
        Some(ActiveItem {
            item: item(0, ItemType::Game, 1),
            timer: Countdown { elapsed: 0, duration: 8 * NANOS_PER_SEC, finished: false },
        })
    );
    assert_eq!(queue.len(), 1);
}

#[test]
fn promotion_leaves_a_taken_slot_alone() {
    let mut queue = Queue::new();
    queue.try_enqueue(item(1, ItemType::Comic, 2));
    let taken = ActiveItem {
        item: item(0, ItemType::Game, 1),
        timer: Countdown { elapsed: 5, duration: 8 * NANOS_PER_SEC, finished: false },
    };
    let mut active = Some(taken);
    check_active(&mut queue, &mut active);
    assert_eq!(active, Some(taken));
    assert_eq!(queue.len(), 1);
}

#[test]
fn promotion_from_an_empty_queue_does_nothing() {
    let mut queue = Queue::new();
    let mut active: Option<ActiveItem> = None;
    check_active(&mut queue, &mut active);
    assert_eq!(active, None);
    assert_eq!(queue.len(), 0);
}

#[test]
fn countdown_completes_exactly_once() {
    let mut timer = Countdown::new(1000);
    assert!(!timer.tick(400));
    assert_eq!(timer, Countdown { elapsed: 400, duration: 1000, finished: false });
    assert!(!timer.tick(599));
    assert!(timer.tick(1));
    assert_eq!(timer, Countdown { elapsed: 1000, duration: 1000, finished: true });
    assert!(!timer.tick(1));
    assert!(!timer.tick(u64::MAX));
    assert_eq!(timer, Countdown { elapsed: 1000, duration: 1000, finished: true });
}

#[test]
fn countdown_stops_at_its_duration() {
    let mut timer = Countdown::new(1000);
    assert!(timer.tick(u64::MAX));
    assert_eq!(timer.elapsed, 1000);
}

#[test]
fn fraction_remaining_runs_from_all_to_nothing() {
    let mut timer = Countdown::new(5 * NANOS_PER_SEC);
    assert_eq!(timer.fraction_remaining(), (5 * NANOS_PER_SEC, 5 * NANOS_PER_SEC));
    timer.tick(2 * NANOS_PER_SEC);
    assert_eq!(timer.fraction_remaining(), (3 * NANOS_PER_SEC, 5 * NANOS_PER_SEC));
    timer.tick(3 * NANOS_PER_SEC);
    assert_eq!(timer.fraction_remaining(), (0, 5 * NANOS_PER_SEC));
}

#[test]
fn consumption_counts_the_item_and_relieves_stress() {
    let mut active = Some(ActiveItem {
        item: item(4, ItemType::Movie, 3),
        timer: Countdown::new(ItemType::Movie.consume_time()),
    });
    let mut consumed = ConsumeCount::new();
    let mut stress = StressMeter::new();
    let report = consume_active(&mut active, NANOS_PER_SEC, &mut consumed, &mut stress);
    assert_eq!(report, None);
    assert_eq!(consumed.total, 0);
    assert_eq!(stress.value, 20);
    assert_eq!(active.unwrap().timer.elapsed, NANOS_PER_SEC);
    let report = consume_active(&mut active, NANOS_PER_SEC, &mut consumed, &mut stress);
    assert_eq!(
        report,
        Some(ItemConsumed {
            item: item(4, ItemType::Movie, 3),
            popup: StressPopupText { spawn_origin: StressOrigin::ActiveSlot, stress_value: RELIEF },
        })
    );
    assert_eq!(active, None);
    assert_eq!(consumed.total, 1);
    assert_eq!(consumed.movies.total, 1);
    assert_eq!(consumed.movies.items, vec![(3, 1)]);
    assert_eq!(stress.value, 18);
    let report = consume_active(&mut active, NANOS_PER_SEC, &mut consumed, &mut stress);
    assert_eq!(report, None);
    assert_eq!(consumed.total, 1);
    assert_eq!(stress.value, 18);
}

#[test]
fn consumption_at_zero_stress_counts_without_relief() {
    let mut active = Some(ActiveItem {
        item: item(0, ItemType::Comic, 0),
        timer: Countdown::new(ItemType::Comic.consume_time()),
    });
    let mut consumed = ConsumeCount::new();
    let mut stress = StressMeter { value: 0 };
    let report = consume_active(&mut active, NANOS_PER_SEC, &mut consumed, &mut stress);
    assert!(report.is_some());
    assert_eq!(consumed.comics.total, 1);
    assert_eq!(stress.value, 0);
}

#[test]
fn finished_timer_in_the_slot_counts_nothing_more() {
    let mut active = Some(ActiveItem {
        item: item(0, ItemType::Comic, 0),
        timer: Countdown { elapsed: 10, duration: 10, finished: true },
    });
    let mut consumed = ConsumeCount::new();
    let mut stress = StressMeter::new();
    let report = consume_active(&mut active, 5, &mut consumed, &mut stress);
    assert_eq!(report, None);
    assert_eq!(consumed.total, 0);
    assert_eq!(stress.value, 20);
}
