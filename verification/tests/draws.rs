use backlog_breakdown::dialog::{dialog_text, ShownDialog};
use backlog_breakdown::entropy::bucket;
use backlog_breakdown::spawning::{burst_size, is_bulk};
use bevy_rand::prelude::ChaCha8Rng;
use rand_core::{RngCore, SeedableRng};

#[test]
fn bucket_cuts_the_range_into_equal_parts() {
    assert_eq!(bucket(0, 4), 0);
    assert_eq!(bucket(0x3fff_ffff, 4), 0);
    assert_eq!(bucket(0x4000_0000, 4), 1);
    assert_eq!(bucket(0x7fff_ffff, 4), 1);
    assert_eq!(bucket(0x8000_0000, 4), 2);
    assert_eq!(bucket(0xc000_0000, 4), 3);
    assert_eq!(bucket(0xffff_ffff, 4), 3);
}

#[test]
fn bucket_of_one_part_is_zero() {
    assert_eq!(bucket(0, 1), 0);
    assert_eq!(bucket(0xffff_ffff, 1), 0);
    assert_eq!(bucket(12345, 0), 0);
}

#[test]
fn bucket_stays_below_the_number_of_parts() {
    for n in 1..40u32 {
        assert_eq!(bucket(0xffff_ffff, n), n - 1);
        assert_eq!(bucket(0, n), 0);
    }
}

#[test]
fn a_tenth_of_the_rolls_is_bulk() {
    assert!(is_bulk(0));
    assert!(is_bulk(429_496_729));
    assert!(!is_bulk(429_496_730));
    assert!(!is_bulk(0x8000_0000));
    assert!(!is_bulk(0xffff_ffff));
}

#[test]
fn burst_size_runs_from_four_to_eight() {
    assert_eq!(burst_size(0), 4);
    assert_eq!(burst_size(858_993_459), 4);
    assert_eq!(burst_size(858_993_460), 5);
    assert_eq!(burst_size(0x8000_0000), 6);
    assert_eq!(burst_size(0xc000_0000), 7);
    assert_eq!(burst_size(0xffff_ffff), 8);
}

#[test]
fn dialog_texts_in_order() {
    assert_eq!(dialog_text(0), "Humble Bundle again...");
    assert_eq!(dialog_text(1), "Got a gift card!");
    assert_eq!(dialog_text(2), "Couldn't resist");
    assert_eq!(dialog_text(3), "It wasn't on sale, but...");
    assert_eq!(dialog_text(4), "I wanted to revist these.");
}

#[test]
fn dialog_for_draw_picks_by_bucket() {
    assert_eq!(ShownDialog::for_draw(0).0, Some("Humble Bundle again..."));
    assert_eq!(ShownDialog::for_draw(0x8000_0000).0, Some("Couldn't resist"));
    assert_eq!(ShownDialog::for_draw(0xffff_ffff).0, Some("I wanted to revist these."));
}

#[test]
fn random_dialog_takes_one_draw_from_the_generator() {
    for seed in 0..20u64 {
        let mut rng = ChaCha8Rng::seed_from_u64(seed);
        let mut twin = ChaCha8Rng::seed_from_u64(seed);
        let shown = ShownDialog::new_random(&mut rng);
        let expected = ShownDialog::for_draw(twin.next_u32());
        assert_eq!(shown.0, expected.0);
        assert_eq!(rng.next_u32(), twin.next_u32());
    }
}

#[test]
fn random_dialogs_are_not_all_the_same() {
    let mut rng = ChaCha8Rng::from_seed([3u8; 32]);
    let first = ShownDialog::new_random(&mut rng);
    let mut differs = false;
    for _ in 0..200 {
        if ShownDialog::new_random(&mut rng).0 != first.0 {
            differs = true;
        }
    }
    assert!(differs);
}
