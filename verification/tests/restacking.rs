use backlog_breakdown::game_state::GameState;
use backlog_breakdown::item::{Item, ItemId, ItemType, NANOS_PER_SEC};
use backlog_breakdown::simulation::restack::{restack, restack_drawn, RestackDraws};
use backlog_breakdown::simulation::{Location, Simulation};
use bevy_rand::prelude::ChaCha8Rng;
use rand_core::{RngCore, SeedableRng};

const STACKS: [ItemType; 4] = [ItemType::Book, ItemType::Movie, ItemType::Game, ItemType::Comic];

fn members(session: &Simulation, item_type: ItemType) -> Vec<Item> {
    session.stack(item_type).items().clone()
}

fn loose(session: &mut Simulation, item_type: ItemType) -> ItemId {
    let id = session.spawn_on_drawn(item_type, item_type, 0);
    session.remove_item(id);
    id
}

fn load(session: &mut Simulation, stack: ItemType, books: u32) {
    for _ in 0..books {
        session.spawn_on_drawn(ItemType::Book, stack, 0);
    }
}

#[test]
fn loose_items_go_where_their_draws_say() {
    let mut session = Simulation::new();
    let a = loose(&mut session, ItemType::Comic);
    let b = loose(&mut session, ItemType::Comic);
    let c = loose(&mut session, ItemType::Game);
    let draws: Vec<RestackDraws> = vec![(0x4000_0000, 9), (0xffff_ffff, 9), (0, 9)];
    restack_drawn(&mut session, &draws);
    assert_eq!(session.location(a), Some(Location::InStack(ItemType::Movie)));
    assert_eq!(session.location(b), Some(Location::InStack(ItemType::Comic)));
    assert_eq!(session.location(c), Some(Location::InStack(ItemType::Book)));
    assert_eq!(session.free().len(), 0);
    assert_eq!(session.stack(ItemType::Movie).current_height(), 8);
    assert_eq!(session.stack(ItemType::Comic).current_height(), 8);
    assert_eq!(session.stack(ItemType::Book).current_height(), 12);
}

#[test]
fn loose_item_overflows_by_its_second_draw() {
    let mut session = Simulation::new();
    load(&mut session, ItemType::Book, 15);
    load(&mut session, ItemType::Game, 15);
    let a = loose(&mut session, ItemType::Comic);
    let b = loose(&mut session, ItemType::Comic);
    let c = loose(&mut session, ItemType::Comic);
    let draws: Vec<RestackDraws> = vec![(0, 0), (0x8000_0000, 0xffff_ffff), (0x4000_0000, 0)];
    restack_drawn(&mut session, &draws);
    assert_eq!(session.location(a), Some(Location::InStack(ItemType::Movie)));
    assert_eq!(session.location(b), Some(Location::InStack(ItemType::Comic)));
    assert_eq!(session.location(c), Some(Location::InStack(ItemType::Movie)));
    assert_eq!(session.stack(ItemType::Book).items().len(), 15);
    assert_eq!(session.stack(ItemType::Game).items().len(), 15);
}

#[test]
fn held_items_and_full_stacks_keep_items_free() {
    let mut session = Simulation::new();
    let held = session.spawn_on_drawn(ItemType::Movie, ItemType::Movie, 0);
    session.start_drag(held);
    let a = loose(&mut session, ItemType::Comic);
    let draws: Vec<RestackDraws> = vec![(0xffff_ffff, 0), (0x8000_0000, 0)];
    restack_drawn(&mut session, &draws);
    assert_eq!(session.location(held), Some(Location::Dragging));
    assert_eq!(session.location(a), Some(Location::InStack(ItemType::Game)));

    let mut session = Simulation::new();
    for stack in STACKS {
        load(&mut session, stack, 15);
    }
    session.remove_item(ItemId(0));
    session.spawn_on_drawn(ItemType::Book, ItemType::Book, 0);
    let draws: Vec<RestackDraws> = vec![(0, 0)];
    restack_drawn(&mut session, &draws);
    assert_eq!(session.location(ItemId(0)), Some(Location::Loose));
    assert_eq!(session.free().len(), 1);
}

#[test]
fn restacking_one_item_says_whether_it_was_placed() {
    let mut session = Simulation::new();
    let held = session.spawn_on_drawn(ItemType::Movie, ItemType::Movie, 0);
    session.start_drag(held);
    let a = loose(&mut session, ItemType::Comic);
    assert!(!session.restack_item_drawn(0, (0, 0)));
    assert_eq!(session.free().len(), 2);
    assert!(session.restack_item_drawn(1, (0, 0)));
    assert_eq!(session.location(a), Some(Location::InStack(ItemType::Book)));
    assert_eq!(session.free().len(), 1);
}

fn lazily_drawn(seed: u64, session: &Simulation) -> Vec<RestackDraws> {
    let mut rng = ChaCha8Rng::seed_from_u64(seed);
    let mut heights: Vec<u64> =
        STACKS.iter().map(|stack| session.stack(*stack).current_height()).collect();
    let mut draws = Vec::new();
    for item in session.free().iter() {
        if item.dragging {
            draws.push((0, 0));
            continue;
        }
        let preferred = rng.next_u32();
        let meant = ((preferred as u64 * 4) >> 32) as usize;
        let free: Vec<usize> = (0..4).filter(|k| heights[*k] <= 240).collect();
        let overflow = if heights[meant] > 240 && !free.is_empty() { rng.next_u32() } else { 0 };
        draws.push((preferred, overflow));
        let target = if heights[meant] <= 240 {
            Some(meant)
        } else if free.is_empty() {
            None
        } else {
            Some(free[((overflow as u64 * free.len() as u64) >> 32) as usize])
        };
        if let Some(k) = target {
            heights[k] += item.item_type.stack_dimensions().1;
        }
    }
    draws
}

fn crowded(loose_items: u32) -> Simulation {
    let mut session = Simulation::new();
    load(&mut session, ItemType::Book, 15);
    load(&mut session, ItemType::Movie, 13);
    load(&mut session, ItemType::Comic, 14);
    for k in 0..loose_items {
        let id = loose(&mut session, ItemType::Book);
        if k % 5 == 2 {
            session.start_drag(id);
        }
    }
    session
}

#[test]
fn generator_restacking_is_the_restacking_of_its_draws() {
    for seed in 0..40u64 {
        let mut session = crowded(25);
        let mut replay = crowded(25);
        let draws = lazily_drawn(seed, &session);
        let mut rng = ChaCha8Rng::seed_from_u64(seed);
        restack(&mut session, &mut rng);
        restack_drawn(&mut replay, &draws);
        for stack in STACKS {
            assert_eq!(members(&session, stack), members(&replay, stack));
        }
        assert_eq!(session.free().clone(), replay.free().clone());
    }
}

#[test]
fn tick_with_given_draws() {
    let mut session = Simulation::new();
    let a = loose(&mut session, ItemType::Comic);
    let b = session.spawn_on_drawn(ItemType::Movie, ItemType::Movie, 0);
    session.try_enqueue(b);
    let draws: Vec<RestackDraws> = vec![(0xc000_0000, 0)];
    let report = session.tick_drawn(2 * NANOS_PER_SEC, &draws);
    assert_eq!(session.location(a), Some(Location::InStack(ItemType::Comic)));
    assert_eq!(report.consumed.unwrap().item.id, b);
    assert_eq!(report.day, None);
    assert!(!report.failed);
    assert_eq!(session.consumed().movies.total, 1);
    assert_eq!(session.stress().value, 18);
    assert_eq!(session.today().elapsed, 2 * NANOS_PER_SEC);
}

#[test]
fn generator_tick_is_the_tick_of_its_draws() {
    for seed in 0..20u64 {
        let mut session = crowded(12);
        let mut replay = crowded(12);
        let draws = lazily_drawn(seed, &session);
        let mut rng = ChaCha8Rng::seed_from_u64(seed);
        assert_eq!(
            session.tick(10 * NANOS_PER_SEC, &mut rng),
            replay.tick_drawn(10 * NANOS_PER_SEC, &draws)
        );
        for stack in STACKS {
            assert_eq!(members(&session, stack), members(&replay, stack));
        }
        assert_eq!(session.free().clone(), replay.free().clone());
        assert_eq!(session.stress(), replay.stress());
        assert_eq!(session.penalty(), replay.penalty());
        assert_eq!(session.state(), GameState::Playing);
    }
}

#[test]
fn failed_session_ignores_the_draws_of_a_tick() {
    let mut session = Simulation::new();
    let mut rng = ChaCha8Rng::seed_from_u64(1);
    for _ in 0..19 {
        session.tick(10 * NANOS_PER_SEC, &mut rng);
    }
    assert_eq!(session.state(), GameState::Failed);
    let draws: Vec<RestackDraws> = Vec::new();
    let report = session.tick_drawn(10 * NANOS_PER_SEC, &draws);
    assert!(report.failed);
    assert_eq!(session.stress().value, 210);
}
