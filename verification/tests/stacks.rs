use backlog_breakdown::item::{Item, ItemHandleIndex, ItemId, ItemType};
use backlog_breakdown::stack::{
    add_to_stack_or_overflow, check_stack, collect_free, find_item, get_random_stack,
    pick_free_stack, place_on, stack_items, take_from, Stack, StackPenalty, MAX_HEIGHT,
};
use bevy_rand::prelude::ChaCha8Rng;
use rand_core::SeedableRng;

fn item(id: u32, item_type: ItemType) -> Item {
    Item { id: ItemId(id), item_type, index: ItemHandleIndex(0), dragging: false }
}

fn fill(stack: &mut Stack, first: u32, count: u32, item_type: ItemType) {
    for k in 0..count {
        stack.add_item(item(first + k, item_type));
    }
}

fn full_stacks() -> Vec<Stack> {
    let mut stacks = Stack::spawn_stacks();
    for k in 0..4 {
        for n in 0..15u32 {
            place_on(&mut stacks, k, item(100 * k as u32 + n, ItemType::Book));
        }
    }
    stacks
}

#[test]
fn new_stack_is_empty() {
    let stack = Stack::new(ItemType::Game);
    assert_eq!(stack.item_type(), ItemType::Game);
    assert_eq!(stack.items().len(), 0);
    assert_eq!(stack.current_height(), 0);
    assert!(!stack.is_full());
}

#[test]
fn four_stacks_in_order() {
    let stacks = Stack::spawn_stacks();
    assert_eq!(stacks.len(), 4);
    assert_eq!(stacks[0].item_type(), ItemType::Book);
    assert_eq!(stacks[1].item_type(), ItemType::Movie);
    assert_eq!(stacks[2].item_type(), ItemType::Game);
    assert_eq!(stacks[3].item_type(), ItemType::Comic);
}

#[test]
fn fill_height_is_the_sum_of_the_members() {
    let mut stack = Stack::new(ItemType::Book);
    stack.add_item(item(0, ItemType::Book));
    assert_eq!(stack.current_height(), 17);
    stack.add_item(item(1, ItemType::Comic));
    assert_eq!(stack.current_height(), 25);
    stack.add_item(item(2, ItemType::Game));
    assert_eq!(stack.current_height(), 37);
    stack.add_item(item(3, ItemType::Movie));
    assert_eq!(stack.current_height(), 47);
    let removed = stack.remove_item(1);
    assert_eq!(removed, item(1, ItemType::Comic));
    assert_eq!(stack.current_height(), 39);
    let removed = stack.remove_item(0);
    assert_eq!(removed, item(0, ItemType::Book));
    assert_eq!(stack.current_height(), 22);
    assert_eq!(stack.items().clone(), vec![item(2, ItemType::Game), item(3, ItemType::Movie)]);
    stack.remove_item(1);
    stack.remove_item(0);
    assert_eq!(stack.current_height(), 0);
}

#[test]
fn recomputed_height_agrees() {
    let mut stack = Stack::new(ItemType::Comic);
    fill(&mut stack, 0, 5, ItemType::Comic);
    fill(&mut stack, 5, 2, ItemType::Book);
    assert_eq!(stack.current_height(), 74);
    stack_items(&mut stack);
    assert_eq!(stack.current_height(), 74);
    assert_eq!(stack.items().len(), 7);
}

#[test]
fn stack_is_full_only_above_the_limit() {
    assert_eq!(MAX_HEIGHT, 240);
    let mut stack = Stack::new(ItemType::Comic);
    fill(&mut stack, 0, 30, ItemType::Comic);
    assert_eq!(stack.current_height(), 240);
    assert!(!stack.is_full());
    stack.add_item(item(30, ItemType::Comic));
    assert_eq!(stack.current_height(), 248);
    assert!(stack.is_full());
}

#[test]
fn position_of_finds_the_first_place() {
    let mut stack = Stack::new(ItemType::Book);
    fill(&mut stack, 10, 4, ItemType::Book);
    assert_eq!(stack.position_of(ItemId(10)), Some(0));
    assert_eq!(stack.position_of(ItemId(13)), Some(3));
    assert_eq!(stack.position_of(ItemId(14)), None);
    let items = vec![item(5, ItemType::Game), item(5, ItemType::Book)];
    assert_eq!(find_item(&items, ItemId(5)), Some(0));
    assert_eq!(find_item(&items, ItemId(6)), None);
}

#[test]
fn mismatches_count_items_of_other_categories() {
    let mut stack = Stack::new(ItemType::Movie);
    assert_eq!(stack.mismatches(), 0);
    fill(&mut stack, 0, 3, ItemType::Movie);
    assert_eq!(stack.mismatches(), 0);
    fill(&mut stack, 3, 2, ItemType::Book);
    stack.add_item(item(5, ItemType::Comic));
    assert_eq!(stack.mismatches(), 3);
}

#[test]
fn penalty_is_half_a_point_for_each_misplaced_item() {
    let mut stacks = Stack::spawn_stacks();
    assert_eq!(check_stack(&stacks), StackPenalty(0));
    place_on(&mut stacks, 0, item(0, ItemType::Book));
    place_on(&mut stacks, 1, item(1, ItemType::Movie));
    assert_eq!(check_stack(&stacks), StackPenalty(0));
    place_on(&mut stacks, 0, item(2, ItemType::Movie));
    place_on(&mut stacks, 3, item(3, ItemType::Game));
    place_on(&mut stacks, 3, item(4, ItemType::Book));
    assert_eq!(check_stack(&stacks), StackPenalty(3));
}

#[test]
fn take_from_gives_the_item_back() {
    let mut stacks = Stack::spawn_stacks();
    place_on(&mut stacks, 2, item(0, ItemType::Game));
    place_on(&mut stacks, 2, item(1, ItemType::Game));
    let taken = take_from(&mut stacks, 2, 0);
    assert_eq!(taken, item(0, ItemType::Game));
    assert_eq!(stacks[2].items().clone(), vec![item(1, ItemType::Game)]);
    assert_eq!(stacks[2].current_height(), 12);
}

#[test]
fn free_stacks_are_those_not_full() {
    let mut stacks = Stack::spawn_stacks();
    assert_eq!(collect_free(&stacks), vec![0, 1, 2, 3]);
    for n in 0..15u32 {
        place_on(&mut stacks, 1, item(n, ItemType::Book));
    }
    assert!(stacks[1].is_full());
    assert_eq!(collect_free(&stacks), vec![0, 2, 3]);
    assert_eq!(pick_free_stack(&stacks, 0), Some(0));
    assert_eq!(pick_free_stack(&stacks, 0x5555_5556), Some(2));
    assert_eq!(pick_free_stack(&stacks, 0xffff_ffff), Some(3));
}

#[test]
fn no_stack_is_picked_where_all_are_full() {
    let stacks = full_stacks();
    assert_eq!(collect_free(&stacks), Vec::<usize>::new());
    assert_eq!(pick_free_stack(&stacks, 17), None);
    let mut rng = ChaCha8Rng::seed_from_u64(1);
    assert_eq!(get_random_stack(&stacks, &mut rng), None);
}

#[test]
fn random_stack_is_never_a_full_one() {
    let mut stacks = Stack::spawn_stacks();
    for n in 0..15u32 {
        place_on(&mut stacks, 0, item(n, ItemType::Book));
        place_on(&mut stacks, 2, item(100 + n, ItemType::Book));
    }
    let mut rng = ChaCha8Rng::seed_from_u64(99);
    let mut seen = [false; 4];
    for _ in 0..200 {
        let pick = get_random_stack(&stacks, &mut rng).unwrap();
        seen[pick] = true;
    }
    assert_eq!(seen, [false, true, false, true]);
}

#[test]
fn item_goes_to_the_preferred_stack_while_it_is_not_full() {
    let mut stacks = Stack::spawn_stacks();
    let mut rng = ChaCha8Rng::seed_from_u64(5);
    for n in 0..31u32 {
        let outcome = add_to_stack_or_overflow(&mut stacks, 3, item(n, ItemType::Comic), &mut rng);
        assert_eq!(outcome, Ok(3));
    }
    assert_eq!(stacks[3].current_height(), 248);
    let outcome = add_to_stack_or_overflow(&mut stacks, 3, item(31, ItemType::Comic), &mut rng);
    assert!(matches!(outcome, Ok(0) | Ok(1) | Ok(2)));
    assert_eq!(stacks[3].items().len(), 31);
}

#[test]
fn item_is_handed_back_where_all_stacks_are_full() {
    let mut stacks = full_stacks();
    let mut rng = ChaCha8Rng::seed_from_u64(5);
    let outcome = add_to_stack_or_overflow(&mut stacks, 1, item(999, ItemType::Movie), &mut rng);
    assert_eq!(outcome, Err(item(999, ItemType::Movie)));
    for k in 0..4 {
        assert_eq!(stacks[k].items().len(), 15);
        assert_eq!(stacks[k].current_height(), 255);
    }
}
