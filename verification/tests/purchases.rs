use backlog_breakdown::dialog::ShownDialog;
use backlog_breakdown::item::{Item, ItemType};
use backlog_breakdown::simulation::purchase::UnitDraws;
use backlog_breakdown::simulation::{Purchase, Simulation};
use backlog_breakdown::spawning::{burst_size, is_bulk};
use bevy_rand::prelude::ChaCha8Rng;
use rand_core::{RngCore, SeedableRng};

const ALL: [ItemType; 4] = [ItemType::Book, ItemType::Movie, ItemType::Game, ItemType::Comic];

fn seed_whose_first_roll(bulk: bool) -> u64 {
    for seed in 0..100_000u64 {
        let mut rng = ChaCha8Rng::seed_from_u64(seed);
        if is_bulk(rng.next_u32()) == bulk {
            return seed;
        }
    }
    panic!("no seed found");
}

fn pile(session: &Simulation, item_type: ItemType) -> Vec<Item> {
    session.stack(item_type).items().clone()
}

fn fill(session: &mut Simulation, stack: ItemType, books: u32) {
    for _ in 0..books {
        session.spawn_on_drawn(ItemType::Book, stack, 0);
    }
}

fn members(session: &Simulation) -> usize {
    ALL.iter().map(|stack| session.stack(*stack).items().len()).sum()
}

#[test]
fn bulk_event_brings_its_whole_burst_where_there_is_room() {
    let seed = seed_whose_first_roll(true);
    let mut rng = ChaCha8Rng::seed_from_u64(seed);
    let mut twin = ChaCha8Rng::seed_from_u64(seed);
    let mut session = Simulation::new();
    let purchase = session.trigger_purchase_event(&mut rng);
    let roll = twin.next_u32();
    assert!((roll as u64) * 10 < 1 << 32);
    let planned = burst_size(twin.next_u32());
    assert!((4..=8).contains(&planned));
    assert_eq!(purchase, Purchase { bulk: true, planned, spawned: planned });
    assert_eq!(session.created(), planned);
    assert_eq!(members(&session), planned as usize);
    assert!(session.today().clicked_today);
    assert_eq!(session.stress().value, 18);

    let mut replay = Simulation::new();
    let mut shown = ShownDialog(None);
    for _ in 0..planned {
        shown = ShownDialog::for_draw(twin.next_u32());
        let category = twin.next_u32();
        let variant = twin.next_u32();
        let stack = twin.next_u32();
        replay.spawn_drawn(category, variant, stack).unwrap();
    }
    for stack in ALL {
        assert_eq!(pile(&session, stack), pile(&replay, stack));
    }
    assert_eq!(session.dialog().0, shown.0);
    assert_eq!(rng.next_u32(), twin.next_u32());
}

#[test]
fn bulk_event_stops_when_the_stacks_fill_up() {
    let seed = seed_whose_first_roll(true);
    let mut rng = ChaCha8Rng::seed_from_u64(seed);
    let mut session = Simulation::new();
    fill(&mut session, ItemType::Book, 14);
    fill(&mut session, ItemType::Movie, 15);
    fill(&mut session, ItemType::Game, 15);
    fill(&mut session, ItemType::Comic, 15);
    assert_eq!(session.stack(ItemType::Book).current_height(), 238);
    let purchase = session.trigger_purchase_event(&mut rng);
    assert!(purchase.bulk);
    assert!(purchase.planned >= 4);
    assert_eq!(purchase.spawned, 1);
    assert_eq!(session.created(), 60);
    assert_eq!(session.stack(ItemType::Book).items().len(), 15);
    assert!(session.stack(ItemType::Book).is_full());
    assert!(session.today().clicked_today);
    assert_eq!(session.stress().value, 18);
}

#[test]
fn bulk_event_with_room_for_two() {
    let seed = seed_whose_first_roll(true);
    let mut rng = ChaCha8Rng::seed_from_u64(seed);
    let mut session = Simulation::new();
    fill(&mut session, ItemType::Book, 14);
    fill(&mut session, ItemType::Movie, 14);
    fill(&mut session, ItemType::Game, 15);
    fill(&mut session, ItemType::Comic, 15);
    let purchase = session.trigger_purchase_event(&mut rng);
    assert!(purchase.bulk);
    assert!(purchase.spawned >= 2);
    assert!(purchase.spawned <= 4);
    assert!(purchase.spawned <= purchase.planned);
    assert_eq!(session.created(), 58 + purchase.spawned);
    if purchase.spawned < purchase.planned {
        for stack in ALL {
            assert!(session.stack(stack).is_full());
        }
    }
    assert_eq!(session.stress().value, 18);
}

#[test]
fn bulk_event_into_full_stacks_brings_nothing_and_settles_nothing() {
    let seed = seed_whose_first_roll(true);
    let mut rng = ChaCha8Rng::seed_from_u64(seed);
    let mut session = Simulation::new();
    for stack in ALL {
        fill(&mut session, stack, 15);
    }
    let purchase = session.trigger_purchase_event(&mut rng);
    assert!(purchase.bulk);
    assert_eq!(purchase.spawned, 0);
    assert_eq!(session.created(), 60);
    assert!(!session.today().clicked_today);
    assert_eq!(session.stress().value, 20);
    assert!(session.dialog().0.is_some());
}

#[test]
fn plain_purchase_brings_one_item() {
    let seed = seed_whose_first_roll(false);
    let mut rng = ChaCha8Rng::seed_from_u64(seed);
    let mut twin = ChaCha8Rng::seed_from_u64(seed);
    let mut session = Simulation::new();
    let purchase = session.trigger_purchase_event(&mut rng);
    assert_eq!(purchase, Purchase { bulk: false, planned: 1, spawned: 1 });
    assert_eq!(session.created(), 1);
    assert!(session.today().clicked_today);
    assert_eq!(session.stress().value, 18);
    assert_eq!(session.dialog().0, None);

    let roll = twin.next_u32();
    assert!((roll as u64) * 10 >= 1 << 32);
    let mut replay = Simulation::new();
    let category = twin.next_u32();
    let variant = twin.next_u32();
    let stack = twin.next_u32();
    replay.spawn_drawn(category, variant, stack).unwrap();
    for stack in ALL {
        assert_eq!(pile(&session, stack), pile(&replay, stack));
    }
}

#[test]
fn plain_purchase_into_full_stacks_settles_nothing() {
    let seed = seed_whose_first_roll(false);
    let mut rng = ChaCha8Rng::seed_from_u64(seed);
    let mut session = Simulation::new();
    for stack in ALL {
        fill(&mut session, stack, 15);
    }
    let purchase = session.trigger_purchase_event(&mut rng);
    assert_eq!(purchase, Purchase { bulk: false, planned: 1, spawned: 0 });
    assert!(!session.today().clicked_today);
    assert_eq!(session.stress().value, 20);
    assert_eq!(session.dialog().0, None);
}

#[test]
fn purchase_at_zero_stress_marks_the_day_without_relief() {
    let seed = seed_whose_first_roll(false);
    let mut rng = ChaCha8Rng::seed_from_u64(seed);
    let mut session = Simulation::new();
    for _ in 0..10 {
        session.settle_purchase(1);
    }
    assert_eq!(session.stress().value, 0);
    let purchase = session.trigger_purchase_event(&mut rng);
    assert_eq!(purchase.spawned, 1);
    assert!(session.today().clicked_today);
    assert_eq!(session.stress().value, 0);
}

#[test]
fn about_a_tenth_of_the_purchases_are_bulk() {
    let mut rng = ChaCha8Rng::seed_from_u64(2024);
    let mut bulk = 0u32;
    for _ in 0..2000 {
        let mut session = Simulation::new();
        let purchase = session.trigger_purchase_event(&mut rng);
        if purchase.bulk {
            bulk += 1;
            assert_eq!(purchase.spawned, purchase.planned);
        } else {
            assert_eq!(purchase.spawned, 1);
        }
    }
    assert!(bulk > 120 && bulk < 280);
}

fn lazily_drawn(seed: u64, session: &Simulation) -> (u32, u32, Vec<UnitDraws>) {
    let mut rng = ChaCha8Rng::seed_from_u64(seed);
    let mut replay = Simulation::new();
    for stack in ALL {
        for item in session.stack(stack).items().iter() {
            replay.spawn_on_drawn(item.item_type, stack, 0);
        }
    }
    let roll = rng.next_u32();
    let bulk = is_bulk(roll);
    let size_raw = if bulk { rng.next_u32() } else { 0 };
    let planned = if bulk { burst_size(size_raw) } else { 1 };
    let mut units: Vec<UnitDraws> = Vec::new();
    for _ in 0..planned {
        let dialog = if bulk { rng.next_u32() } else { 0 };
        let category = rng.next_u32();
        let free = ALL.iter().any(|stack| !replay.stack(*stack).is_full());
        let variant = if free { rng.next_u32() } else { 0 };
        let stack = if free { rng.next_u32() } else { 0 };
        units.push((dialog, category, variant, stack));
        if !replay.purchase_unit(bulk, (dialog, category, variant, stack)) {
            break;
        }
    }
    while units.len() < 8 {
        units.push((0, 0, 0, 0));
    }
    (roll, size_raw, units)
}

#[test]
fn bulk_purchase_with_given_draws() {
    let mut session = Simulation::new();
    let units: Vec<UnitDraws> = vec![
        (0, 0, 0, 0),
        (0x4000_0000, 0x4000_0000, 171_798_692, 0x4000_0000),
        (0x8000_0000, 0x8000_0000, 0xffff_ffff, 0x8000_0000),
        (0xffff_ffff, 0xc000_0000, 0x8000_0000, 0xffff_ffff),
        (1, 2, 3, 4),
        (5, 6, 7, 8),
        (9, 10, 11, 12),
        (13, 14, 15, 16),
    ];
    let purchase = session.purchase_drawn(0, 0, &units);
    assert_eq!(purchase, Purchase { bulk: true, planned: 4, spawned: 4 });
    assert_eq!(session.created(), 4);
    let book = pile(&session, ItemType::Book);
    let movie = pile(&session, ItemType::Movie);
    let game = pile(&session, ItemType::Game);
    let comic = pile(&session, ItemType::Comic);
    assert_eq!(book.len(), 1);
    assert_eq!((book[0].id.0, book[0].item_type, book[0].index.0), (0, ItemType::Book, 0));
    assert_eq!((movie[0].id.0, movie[0].item_type, movie[0].index.0), (1, ItemType::Comic, 1));
    assert_eq!((game[0].id.0, game[0].item_type, game[0].index.0), (2, ItemType::Game, 24));
    assert_eq!((comic[0].id.0, comic[0].item_type, comic[0].index.0), (3, ItemType::Movie, 12));
    assert_eq!(session.dialog().0, Some("I wanted to revist these."));
    assert!(session.today().clicked_today);
    assert_eq!(session.stress().value, 18);
}

#[test]
fn largest_burst_with_given_draws() {
    let mut session = Simulation::new();
    let units: Vec<UnitDraws> = vec![(0, 0, 0, 0); 8];
    let purchase = session.purchase_drawn(429_496_729, 0xffff_ffff, &units);
    assert_eq!(purchase, Purchase { bulk: true, planned: 8, spawned: 8 });
    assert_eq!(session.stack(ItemType::Book).items().len(), 8);
    assert_eq!(session.dialog().0, Some("Humble Bundle again..."));
}

#[test]
fn plain_purchase_with_given_draws() {
    let mut session = Simulation::new();
    let mut units: Vec<UnitDraws> = vec![(7, 7, 7, 7); 8];
    units[0] = (0xffff_ffff, 0x8000_0000, 0x8000_0000, 0x4000_0000);
    let purchase = session.purchase_drawn(429_496_730, 0xffff_ffff, &units);
    assert_eq!(purchase, Purchase { bulk: false, planned: 1, spawned: 1 });
    let movie = pile(&session, ItemType::Movie);
    assert_eq!((movie[0].item_type, movie[0].index.0), (ItemType::Game, 12));
    assert_eq!(members(&session), 1);
    assert_eq!(session.dialog().0, None);
    assert!(session.today().clicked_today);
    assert_eq!(session.stress().value, 18);
}

#[test]
fn burst_with_given_draws_stops_at_full_stacks() {
    let mut session = Simulation::new();
    fill(&mut session, ItemType::Book, 15);
    fill(&mut session, ItemType::Movie, 15);
    fill(&mut session, ItemType::Game, 14);
    fill(&mut session, ItemType::Comic, 14);
    let units: Vec<UnitDraws> = vec![
        (0, 0, 0, 0xffff_ffff),
        (0x4000_0000, 0, 0, 0),
        (0x8000_0000, 0, 0, 0),
        (0xc000_0000, 0, 0, 0),
        (0, 0, 0, 0),
        (0, 0, 0, 0),
        (0, 0, 0, 0),
        (0, 0, 0, 0),
    ];
    let purchase = session.purchase_drawn(0, 0x8000_0000, &units);
    assert_eq!(purchase, Purchase { bulk: true, planned: 6, spawned: 2 });
    assert_eq!(session.stack(ItemType::Comic).items().len(), 15);
    assert_eq!(session.stack(ItemType::Game).items().len(), 15);
    assert_eq!(session.created(), 60);
    assert_eq!(session.dialog().0, Some("Couldn't resist"));
    assert!(session.today().clicked_today);
    assert_eq!(session.stress().value, 18);
}

#[test]
fn purchase_with_given_draws_into_full_stacks_settles_nothing() {
    let mut session = Simulation::new();
    for stack in ALL {
        fill(&mut session, stack, 15);
    }
    let units: Vec<UnitDraws> = vec![(0xffff_ffff, 1, 2, 3); 8];
    let purchase = session.purchase_drawn(0, 0, &units);
    assert_eq!(purchase, Purchase { bulk: true, planned: 4, spawned: 0 });
    assert_eq!(session.dialog().0, Some("I wanted to revist these."));
    assert!(!session.today().clicked_today);
    assert_eq!(session.stress().value, 20);
    let purchase = session.purchase_drawn(0xffff_ffff, 0, &units);
    assert_eq!(purchase, Purchase { bulk: false, planned: 1, spawned: 0 });
    assert_eq!(session.created(), 60);
}

#[test]
fn equal_draws_give_equal_purchases() {
    let units: Vec<UnitDraws> = (0..8u32)
        .map(|k| (k * 0x1357_9bdf, k * 0x2468_ace1 + 5, k * 0x0f0f_0f0f + 9, k * 0x7777_7777))
        .collect();
    for roll in [0u32, 100, 429_496_729, 429_496_730, 0xffff_ffff] {
        let mut one = Simulation::new();
        let mut other = Simulation::new();
        fill(&mut one, ItemType::Game, 3);
        fill(&mut other, ItemType::Game, 3);
        assert_eq!(
            one.purchase_drawn(roll, 0x9000_0000, &units),
            other.purchase_drawn(roll, 0x9000_0000, &units)
        );
        for stack in ALL {
            assert_eq!(pile(&one, stack), pile(&other, stack));
        }
        assert_eq!(one.stress(), other.stress());
        assert_eq!(one.today(), other.today());
        assert_eq!(one.dialog().0, other.dialog().0);
    }
}

#[test]
fn generator_purchase_is_the_purchase_of_its_draws() {
    for seed in 0..60u64 {
        for books in [0u32, 14, 15] {
            let mut session = Simulation::new();
            let mut replay = Simulation::new();
            for stack in ALL {
                fill(&mut session, stack, if stack == ItemType::Comic { books } else { 15 });
                fill(&mut replay, stack, if stack == ItemType::Comic { books } else { 15 });
            }
            let (roll, size_raw, units) = lazily_drawn(seed, &session);
            let mut rng = ChaCha8Rng::seed_from_u64(seed);
            let purchase = session.trigger_purchase_event(&mut rng);
            assert_eq!(purchase, replay.purchase_drawn(roll, size_raw, &units));
            for stack in ALL {
                assert_eq!(pile(&session, stack), pile(&replay, stack));
            }
            assert_eq!(session.stress(), replay.stress());
            assert_eq!(session.today(), replay.today());
            assert_eq!(session.dialog().0, replay.dialog().0);
            assert_eq!(session.created(), replay.created());
        }
    }
}

#[test]
fn purchase_unit_shows_its_text_only_in_a_bulk_event() {
    let mut session = Simulation::new();
    assert!(session.purchase_unit(false, (0, 0, 0, 0)));
    assert_eq!(session.dialog().0, None);
    assert!(session.purchase_unit(true, (0x4000_0000, 0, 0, 0)));
    assert_eq!(session.dialog().0, Some("Got a gift card!"));
    assert_eq!(session.created(), 2);
    for stack in ALL {
        fill(&mut session, stack, 15);
    }
    assert!(!session.purchase_unit(true, (0, 0, 0, 0)));
    assert_eq!(session.dialog().0, Some("Humble Bundle again..."));
    assert_eq!(session.created(), 62);
}
