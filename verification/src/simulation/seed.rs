use crate::item::{Item, ItemType, CATALOG_VARIANTS, ITEM_LIMIT};
use crate::simulation::spawner::{extends, is_spawned};
use crate::simulation::{Simulation, SimulationView};
use bevy_rand::prelude::ChaCha8Rng;
use vstd::prelude::*;

verus! {

/// Books that lie on their stack when a session starts.
pub const SEED_BOOKS: u32 = 3;

/// Comics that lie on their stack when a session starts.
pub const SEED_COMICS: u32 = 10;

/// Games that lie on their stack when a session starts.
pub const SEED_GAMES: u32 = 8;

/// Movies that lie on their stack when a session starts.
pub const SEED_MOVIES: u32 = 3;

/// Whether `after` is `before` with `n` new items of `item_type` on top,
/// whose identities count up from `first`.
pub open spec fn seeded_pile(
    before: Seq<Item>,
    after: Seq<Item>,
    item_type: ItemType,
    n: int,
    first: int,
) -> bool {
    &&& extends(before, after, n)
    &&& forall|j: int|
        0 <= j < n ==> {
            &&& is_spawned(#[trigger] after[before.len() + j], first + j, first + j + 1)
            &&& after[before.len() + j].item_type == item_type
        }
}

impl SimulationView {
    /// Whether `after` is this session with `n` new items of `item_type` on
    /// top of the stack of that category, and nothing else changed.
    pub open spec fn seeded(self, after: SimulationView, item_type: ItemType, n: int) -> bool {
        let k = item_type.spec_position();
        &&& after == SimulationView {
            piles: self.piles.update(k, after.piles[k]),
            created: (self.created + n) as u32,
            ..self
        }
        &&& after.created == self.created + n
        &&& seeded_pile(self.piles[k], after.piles[k], item_type, n, self.created as int)
    }

    /// Whether `after` is this session with the starting items on its
    /// stacks: 3 books, then 10 comics, then 8 games, then 3 movies, each on
    /// the stack of its category.
    pub open spec fn seeded_all(self, after: SimulationView) -> bool {
        &&& after == SimulationView {
            piles: after.piles,
            created: (self.created + 24) as u32,
            ..self
        }
        &&& after.created == self.created + 24
        &&& after.piles.len() == 4
        &&& seeded_pile(self.piles[0], after.piles[0], ItemType::Book, 3, self.created as int)
        &&& seeded_pile(self.piles[3], after.piles[3], ItemType::Comic, 10, self.created + 3)
        &&& seeded_pile(self.piles[2], after.piles[2], ItemType::Game, 8, self.created + 13)
        &&& seeded_pile(self.piles[1], after.piles[1], ItemType::Movie, 3, self.created + 21)
    }
}

impl SimulationView {
    /// The session after `n` items of `item_type` were made and put on the
    /// stack of their category, one after the other, with the skins that the
    /// raw draws `skins[from]`, `skins[from + 1]` and so on pick.
    pub open spec fn seed_run(
        self,
        item_type: ItemType,
        skins: Seq<u32>,
        from: int,
        n: nat,
    ) -> SimulationView
        decreases n,
    {
        if n == 0 {
            self
        } else {
            self.seed_run(item_type, skins, from, (n - 1) as nat).spawn_on(
                item_type,
                item_type,
                skins[from + n - 1],
            )
        }
    }

    /// The session with the starting items on its stacks, their skins
    /// picked by the given raw draws in the order in which the items are
    /// made: 3 books, then 10 comics, then 8 games, then 3 movies.
    pub open spec fn seed_all_drawn(self, skins: Seq<u32>) -> SimulationView {
        self.seed_run(ItemType::Book, skins, 0, 3).seed_run(ItemType::Comic, skins, 3, 10).seed_run(
            ItemType::Game,
            skins,
            13,
            8,
        ).seed_run(ItemType::Movie, skins, 21, 3)
    }

    /// Whether the given raw draws explain the seeding of one stack.
    pub open spec fn seed_explained(
        self,
        after: SimulationView,
        item_type: ItemType,
        count: nat,
        skins: Seq<u32>,
    ) -> bool {
        skins.len() == count && after == self.seed_run(item_type, skins, 0, count)
    }

    /// Whether the given raw draws explain the seeding of all stacks.
    pub open spec fn seed_all_explained(self, after: SimulationView, skins: Seq<u32>) -> bool {
        skins.len() == 24 && after == self.seed_all_drawn(skins)
    }
}

/// Seeding depends on the draws that it reads alone.
pub proof fn lemma_seed_same(
    session: SimulationView,
    item_type: ItemType,
    skins: Seq<u32>,
    from: int,
    others: Seq<u32>,
    other_from: int,
    n: nat,
)
    requires
        0 <= from,
        from + n <= skins.len(),
        0 <= other_from,
        other_from + n <= others.len(),
        skins.subrange(from, from + n) == others.subrange(other_from, other_from + n),
    ensures
        session.seed_run(item_type, skins, from, n) == session.seed_run(
            item_type,
            others,
            other_from,
            n,
        ),
    decreases n,
{
    if n > 0 {
        let read = skins.subrange(from, from + n);
        let other_read = others.subrange(other_from, other_from + n);
        assert(read[n - 1] == skins[from + n - 1]);
        assert(other_read[n - 1] == others[other_from + n - 1]);
        assert(skins.subrange(from, from + n - 1) =~= read.take(n - 1));
        assert(others.subrange(other_from, other_from + n - 1) =~= other_read.take(n - 1));
        lemma_seed_same(session, item_type, skins, from, others, other_from, (n - 1) as nat);
    }
}

proof fn lemma_seeded_step(
    start: SimulationView,
    before: SimulationView,
    item_type: ItemType,
    n: int,
    variant_raw: u32,
)
    requires
        start.piles.len() == 4,
        n >= 0,
        start.seeded(before, item_type, n),
        before.created < ITEM_LIMIT,
    ensures
        start.seeded(before.spawn_on(item_type, item_type, variant_raw), item_type, n + 1),
{
    crate::entropy::lemma_bucket_bounds(variant_raw, CATALOG_VARIANTS as u32);
    let k = item_type.spec_position();
    let after = before.spawn_on(item_type, item_type, variant_raw);
    let base = start.piles[k];
    assert(after.piles[k] == before.piles[k].push(before.next_item(item_type, variant_raw)));
    assert(after.piles[k].take(base.len() as int) =~= before.piles[k].take(base.len() as int));
    assert(after.piles =~= start.piles.update(k, after.piles[k]));
    assert forall|j: int| 0 <= j < n + 1 implies {
        &&& is_spawned(
            #[trigger] after.piles[k][base.len() + j],
            start.created + j,
            start.created + j + 1,
        )
        &&& after.piles[k][base.len() + j].item_type == item_type
    } by {
        if j < n {
            assert(after.piles[k][base.len() + j] == before.piles[k][base.len() + j]);
        }
    }
}

impl Simulation {
    /// Makes `count` items of `item_type`, with the skins that the raw draws
    /// from `skins[from]` on pick, and puts them on the stack of their
    /// category, whatever its height.
    pub fn seed_stack_drawn(&mut self, item_type: ItemType, count: u32, skins: &Vec<u32>, from: usize)
        requires
            old(self).wf(),
            old(self)@.created + count <= ITEM_LIMIT,
            from + count <= skins@.len(),
        ensures
            final(self).wf(),
            final(self)@ == old(self)@.seed_run(item_type, skins@, from as int, count as nat),
            old(self)@.seeded(final(self)@, item_type, count as int),
    {
        let mut done: u32 = 0;
        let given = skins.len();
        proof {
            let k = item_type.spec_position();
            assert(self@.piles[k].take(self@.piles[k].len() as int) =~= self@.piles[k]);
            assert(self@.piles =~= self@.piles.update(k, self@.piles[k]));
        }
        while done < count
            invariant
                self.wf(),
                old(self)@.piles.len() == 4,
                done <= count,
                given == skins@.len(),
                from + count <= given,
                old(self)@.created + count <= ITEM_LIMIT,
                old(self)@.seeded(self@, item_type, done as int),
                self@ == old(self)@.seed_run(item_type, skins@, from as int, done as nat),
            decreases count - done,
        {
            let ghost before = self@;
            let raw = skins[from + done as usize];
            self.spawn_on_drawn(item_type, item_type, raw);
            proof {
                lemma_seeded_step(old(self)@, before, item_type, done as int, raw);
            }
            done = done + 1;
        }
    }

    /// Makes `count` items of `item_type`, with skins drawn from the
    /// generator, and puts them on the stack of their category, whatever
    /// its height. What comes of it is what `seed_stack_drawn` makes of the
    /// draws.
    pub fn seed_stack(&mut self, item_type: ItemType, count: u32, rng: &mut ChaCha8Rng)
        requires
            old(self).wf(),
            old(self)@.created + count <= ITEM_LIMIT,
        ensures
            final(self).wf(),
            exists|skins: Seq<u32>|
                old(self)@.seed_explained(final(self)@, item_type, count as nat, skins),
            old(self)@.seeded(final(self)@, item_type, count as int),
    {
        let mut done: u32 = 0;
        let ghost mut tape: Seq<u32> = Seq::empty();
        proof {
            let k = item_type.spec_position();
            assert(self@.piles[k].take(self@.piles[k].len() as int) =~= self@.piles[k]);
            assert(self@.piles =~= self@.piles.update(k, self@.piles[k]));
        }
        while done < count
            invariant
                self.wf(),
                old(self)@.piles.len() == 4,
                done <= count,
                tape.len() == done,
                old(self)@.created + count <= ITEM_LIMIT,
                old(self)@.seeded(self@, item_type, done as int),
                self@ == old(self)@.seed_run(item_type, tape, 0, done as nat),
            decreases count - done,
        {
            let ghost before = self@;
            self.spawn_on(item_type, item_type, rng);
            proof {
                let raw = choose|raw: u32| self@ == before.spawn_on(item_type, item_type, raw);
                lemma_seeded_step(old(self)@, before, item_type, done as int, raw);
                assert(tape.subrange(0, done as int) =~= tape.push(raw).subrange(0, done as int));
                lemma_seed_same(old(self)@, item_type, tape, 0, tape.push(raw), 0, done as nat);
                tape = tape.push(raw);
            }
            done = done + 1;
        }
        proof {
            assert(old(self)@.seed_explained(self@, item_type, count as nat, tape));
        }
    }

    /// Puts the starting items on the stacks: 3 books, 10 comics, 8 games
    /// and 3 movies, in that order, their skins picked by the given raw
    /// draws, one for each item.
    pub fn seed_stacks_drawn(&mut self, skins: &Vec<u32>)
        requires
            old(self).wf(),
            old(self)@.created + 24 <= ITEM_LIMIT,
            skins@.len() >= 24,
        ensures
            final(self).wf(),
            final(self)@ == old(self)@.seed_all_drawn(skins@),
            old(self)@.seeded_all(final(self)@),
    {
        self.seed_stack_drawn(ItemType::Book, SEED_BOOKS, skins, 0);
        self.seed_stack_drawn(ItemType::Comic, SEED_COMICS, skins, 3);
        self.seed_stack_drawn(ItemType::Game, SEED_GAMES, skins, 13);
        self.seed_stack_drawn(ItemType::Movie, SEED_MOVIES, skins, 21);
    }

    /// Puts the starting items on the stacks: 3 books, 10 comics, 8 games
    /// and 3 movies, in that order, with skins drawn from the generator.
    /// What comes of it is what `seed_stacks_drawn` makes of the draws.
    pub fn seed_stacks(&mut self, rng: &mut ChaCha8Rng)
        requires
            old(self).wf(),
            old(self)@.created + 24 <= ITEM_LIMIT,
        ensures
            final(self).wf(),
            exists|skins: Seq<u32>| old(self)@.seed_all_explained(final(self)@, skins),
            old(self)@.seeded_all(final(self)@),
    {
        let ghost start = self@;
        self.seed_stack(ItemType::Book, SEED_BOOKS, rng);
        let ghost booked = self@;
        self.seed_stack(ItemType::Comic, SEED_COMICS, rng);
        let ghost comicked = self@;
        self.seed_stack(ItemType::Game, SEED_GAMES, rng);
        let ghost gamed = self@;
        self.seed_stack(ItemType::Movie, SEED_MOVIES, rng);
        proof {
            let books = choose|skins: Seq<u32>|
                start.seed_explained(booked, ItemType::Book, 3, skins);
            let comics = choose|skins: Seq<u32>|
                booked.seed_explained(comicked, ItemType::Comic, 10, skins);
            let games = choose|skins: Seq<u32>|
                comicked.seed_explained(gamed, ItemType::Game, 8, skins);
            let movies = choose|skins: Seq<u32>|
                gamed.seed_explained(self@, ItemType::Movie, 3, skins);
            let skins = books + comics + games + movies;
            assert(books.subrange(0, 3) =~= skins.subrange(0, 3));
            assert(comics.subrange(0, 10) =~= skins.subrange(3, 13));
            assert(games.subrange(0, 8) =~= skins.subrange(13, 21));
            assert(movies.subrange(0, 3) =~= skins.subrange(21, 24));
            lemma_seed_same(start, ItemType::Book, books, 0, skins, 0, 3);
            lemma_seed_same(booked, ItemType::Comic, comics, 0, skins, 3, 10);
            lemma_seed_same(comicked, ItemType::Game, games, 0, skins, 13, 8);
            lemma_seed_same(gamed, ItemType::Movie, movies, 0, skins, 21, 3);
            assert(start.seed_all_explained(self@, skins));
        }
    }
}

} // verus!
