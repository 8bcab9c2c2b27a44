use crate::item::ItemType;
use vstd::prelude::*;

verus! {

/// Sum of the counts of a histogram.
pub open spec fn sum_counts(entries: Seq<(usize, u32)>) -> nat
    decreases entries.len(),
{
    if entries.len() == 0 {
        0
    } else {
        sum_counts(entries.drop_last()) + entries.last().1 as nat
    }
}

/// Whether `i` is the earliest entry that holds the largest count.
pub open spec fn is_first_max(entries: Seq<(usize, u32)>, i: int) -> bool {
    &&& 0 <= i < entries.len()
    &&& forall|j: int| 0 <= j < entries.len() ==> entries[j].1 <= entries[i].1
    &&& forall|j: int| 0 <= j < i ==> entries[j].1 < entries[i].1
}

/// Whether some entry of the histogram is for `key`.
pub open spec fn has_key(entries: Seq<(usize, u32)>, key: usize) -> bool {
    exists|i: int| 0 <= i < entries.len() && (#[trigger] entries[i]).0 == key
}

/// The histogram after one more consumption of `key`: its entry grows by
/// one, or a new entry of one is added behind the others.
pub open spec fn spec_bump(entries: Seq<(usize, u32)>, key: usize) -> Seq<(usize, u32)> {
    if has_key(entries, key) {
        let i = choose|i: int| 0 <= i < entries.len() && (#[trigger] entries[i]).0 == key;
        entries.update(i, (key, (entries[i].1 + 1) as u32))
    } else {
        entries.push((key, 1u32))
    }
}

/// A new entry adds its count to the sum.
pub proof fn lemma_sum_push(entries: Seq<(usize, u32)>, entry: (usize, u32))
    ensures
        sum_counts(entries.push(entry)) == sum_counts(entries) + entry.1,
{
    assert(entries.push(entry).drop_last() =~= entries);
}

/// A changed entry changes the sum by as much as it changed; no entry
/// counts more than the sum.
pub proof fn lemma_sum_update(entries: Seq<(usize, u32)>, i: int, entry: (usize, u32))
    requires
        0 <= i < entries.len(),
    ensures
        sum_counts(entries.update(i, entry)) == sum_counts(entries) - entries[i].1 + entry.1,
        entries[i].1 <= sum_counts(entries),
    decreases entries.len(),
{
    if i == entries.len() - 1 {
        assert(entries.update(i, entry).drop_last() =~= entries.drop_last());
    } else {
        lemma_sum_update(entries.drop_last(), i, entry);
        assert(entries.update(i, entry).drop_last() =~= entries.drop_last().update(i, entry));
    }
}

/// What was consumed of one category: how many items, and how often each
/// catalog skin, in the order in which the skins were first consumed.
pub struct ConsumeTypeCount {
    pub total: u32,
    pub items: Vec<(usize, u32)>,
}

/// What was consumed in a session, in all and by category.
pub struct ConsumeCount {
    pub total: u32,
    pub books: ConsumeTypeCount,
    pub comics: ConsumeTypeCount,
    pub movies: ConsumeTypeCount,
    pub games: ConsumeTypeCount,
}

/// A category's count as plain values.
#[verifier::ext_equal]
pub struct TypeTally {
    pub total: u32,
    pub items: Seq<(usize, u32)>,
}

/// A session's count as plain values.
#[verifier::ext_equal]
pub struct Tally {
    pub total: u32,
    pub books: TypeTally,
    pub comics: TypeTally,
    pub movies: TypeTally,
    pub games: TypeTally,
}

impl TypeTally {
    /// No skin is listed twice, no listed count is zero, and the counts add
    /// up to the total.
    pub open spec fn wf(self) -> bool {
        &&& forall|i: int, j: int|
            0 <= i < j < self.items.len() ==> self.items[i].0 != self.items[j].0
        &&& forall|i: int| 0 <= i < self.items.len() ==> self.items[i].1 >= 1
        &&& self.total == sum_counts(self.items)
    }

    /// The count after one more consumed item of skin `variant`.
    pub open spec fn recorded(self, variant: usize) -> TypeTally {
        TypeTally { total: (self.total + 1) as u32, items: spec_bump(self.items, variant) }
    }

    /// The skin that was consumed most often, the earliest of equals.
    pub open spec fn favorite(self) -> Option<usize> {
        if self.items.len() == 0 {
            None
        } else {
            Some(self.items[choose|i: int| is_first_max(self.items, i)].0)
        }
    }
}

impl Tally {
    /// Every category's count is well formed, and the four totals add up to
    /// the total.
    pub open spec fn wf(self) -> bool {
        &&& self.books.wf()
        &&& self.comics.wf()
        &&& self.movies.wf()
        &&& self.games.wf()
        &&& self.total == self.books.total + self.comics.total + self.movies.total
            + self.games.total
    }

    /// The count kept for one category.
    pub open spec fn of(self, item_type: ItemType) -> TypeTally {
        match item_type {
            ItemType::Book => self.books,
            ItemType::Movie => self.movies,
            ItemType::Game => self.games,
            ItemType::Comic => self.comics,
        }
    }

    /// The count after one more consumed item: the total, its category's
    /// total and its skin's entry each grow by one.
    pub open spec fn recorded(self, item_type: ItemType, variant: usize) -> Tally {
        let total = (self.total + 1) as u32;
        match item_type {
            ItemType::Book => Tally { total, books: self.books.recorded(variant), ..self },
            ItemType::Movie => Tally { total, movies: self.movies.recorded(variant), ..self },
            ItemType::Game => Tally { total, games: self.games.recorded(variant), ..self },
            ItemType::Comic => Tally { total, comics: self.comics.recorded(variant), ..self },
        }
    }

    /// The count of a session in which nothing was consumed.
    pub open spec fn empty() -> Tally {
        let none = TypeTally { total: 0, items: Seq::empty() };
        Tally { total: 0, books: none, comics: none, movies: none, games: none }
    }
}

/// Only one entry is the earliest with the largest count.
pub proof fn lemma_first_max_unique(entries: Seq<(usize, u32)>, i: int, j: int)
    requires
        is_first_max(entries, i),
        is_first_max(entries, j),
    ensures
        i == j,
{
    if i < j {
        assert(entries[i].1 < entries[j].1);
    } else if j < i {
        assert(entries[j].1 < entries[i].1);
    }
}

impl View for ConsumeTypeCount {
    type V = TypeTally;

    open spec fn view(&self) -> TypeTally {
        TypeTally { total: self.total, items: self.items@ }
    }
}

impl View for ConsumeCount {
    type V = Tally;

    open spec fn view(&self) -> Tally {
        Tally {
            total: self.total,
            books: self.books@,
            comics: self.comics@,
            movies: self.movies@,
            games: self.games@,
        }
    }
}

impl ConsumeTypeCount {
    pub fn new() -> (count: Self)
        ensures
            count@.wf(),
            count@ == (TypeTally { total: 0, items: Seq::empty() }),
    {
        ConsumeTypeCount { total: 0, items: Vec::new() }
    }

    /// The skin that was consumed most often; of several with the same
    /// count, the one that was consumed first. `None` while nothing was.
    pub fn favorite(&self) -> (favorite: Option<usize>)
        ensures
            favorite == self@.favorite(),
            self@.items.len() > 0 ==> exists|i: int|
                is_first_max(self@.items, i) && favorite == Some(self@.items[i].0),
    {
        if self.items.len() == 0 {
            return None;
        }
        let mut best: usize = 0;
        let mut k: usize = 1;
        while k < self.items.len()
            invariant
                0 <= best < k <= self.items@.len(),
                forall|j: int| 0 <= j < k ==> self.items@[j].1 <= self.items@[best as int].1,
                forall|j: int| 0 <= j < best ==> self.items@[j].1 < self.items@[best as int].1,
            decreases self.items@.len() - k,
        {
            if self.items[k].1 > self.items[best].1 {
                best = k;
            }
            k = k + 1;
        }
        proof {
            assert(is_first_max(self.items@, best as int));
            let chosen = choose|i: int| is_first_max(self.items@, i);
            lemma_first_max_unique(self.items@, best as int, chosen);
        }
        Some(self.items[best].0)
    }

    /// Counts one more consumed item of skin `variant`.
    pub fn record(&mut self, variant: usize)
        requires
            old(self)@.wf(),
            old(self).total < u32::MAX,
        ensures
            final(self)@.wf(),
            final(self)@ == old(self)@.recorded(variant),
    {
        let mut k: usize = 0;
        while k < self.items.len()
            invariant
                0 <= k <= self.items@.len(),
                old(self)@.wf(),
                old(self).total < u32::MAX,
                self.items@ == old(self).items@,
                self.total == old(self).total,
                forall|j: int| 0 <= j < k ==> (#[trigger] self.items@[j]).0 != variant,
            decreases self.items@.len() - k,
        {
            if self.items[k].0 == variant {
                let ghost chosen = choose|i: int|
                    0 <= i < self.items@.len() && (#[trigger] self.items@[i]).0 == variant;
                proof {
                    assert(self.items@[k as int].0 == variant);
                    assert(chosen == k) by {
                        if chosen < k {
                            assert(self.items@[chosen].0 != self.items@[k as int].0);
                        } else if chosen > k {
                            assert(self.items@[k as int].0 != self.items@[chosen].0);
                        }
                    }
                    lemma_sum_update(
                        self.items@,
                        k as int,
                        (variant, (self.items@[k as int].1 + 1) as u32),
                    );
                }
                let count = self.items[k].1;
                self.items[k] = (variant, count + 1);
                self.total = self.total + 1;
                return ;
            }
            k = k + 1;
        }
        proof {
            assert(!has_key(self.items@, variant));
            lemma_sum_push(self.items@, (variant, 1u32));
        }
        self.items.push((variant, 1));
        self.total = self.total + 1;
    }
}

impl ConsumeCount {
    pub fn new() -> (count: Self)
        ensures
            count@.wf(),
            count@ == Tally::empty(),
    {
        ConsumeCount {
            total: 0,
            books: ConsumeTypeCount::new(),
            comics: ConsumeTypeCount::new(),
            movies: ConsumeTypeCount::new(),
            games: ConsumeTypeCount::new(),
        }
    }

    /// Counts one consumed item: the total, its category's total and its
    /// skin's entry each grow by one; the other categories stay.
    pub fn record(&mut self, item_type: ItemType, variant: usize)
        requires
            old(self)@.wf(),
            old(self).total < u32::MAX,
        ensures
            final(self)@.wf(),
            final(self)@ == old(self)@.recorded(item_type, variant),
    {
        self.total = self.total + 1;
        match item_type {
            ItemType::Book => self.books.record(variant),
            ItemType::Movie => self.movies.record(variant),
            ItemType::Game => self.games.record(variant),
            ItemType::Comic => self.comics.record(variant),
        }
    }
}

} // verus!
