//! A finite set of URL strings.

use vstd::prelude::*;

verus! {

/// A set of URL strings: nothing occurs in it twice.
///
/// Its view is the mathematical set of its strings, each a sequence of
/// characters.
pub struct UrlSet {
    items: Vec<String>,
}

impl View for UrlSet {
    type V = Set<Seq<char>>;

    closed spec fn view(&self) -> Set<Seq<char>> {
        self.items.deep_view().to_set()
    }
}

impl UrlSet {
    #[verifier::type_invariant]
    spec fn distinct(self) -> bool {
        self.items.deep_view().no_duplicates()
    }

    /// The empty set.
    pub fn new() -> (set: UrlSet)
        ensures
            set@ == Set::<Seq<char>>::empty(),
    {
        let set = UrlSet { items: Vec::new() };
        assert(set.items.deep_view() =~= Seq::<Seq<char>>::empty());
        assert(set@ =~= Set::<Seq<char>>::empty());
        set
    }

    /// The number of members.
    pub fn len(&self) -> (n: usize)
        ensures
            n == self@.len(),
            self@.finite(),
    {
        proof {
            use_type_invariant(self);
            self.items.deep_view().unique_seq_to_set();
        }
        self.items.len()
    }

    /// Whether the set has no member.
    pub fn is_empty(&self) -> (empty: bool)
        ensures
            empty == (self@ == Set::<Seq<char>>::empty()),
    {
        let empty = self.items.len() == 0;
        proof {
            if empty {
                assert(self@ =~= Set::<Seq<char>>::empty());
            } else {
                assert(self@.contains(self.items.deep_view()[0]));
            }
        }
        empty
    }

    /// The members, each once.
    pub fn urls(&self) -> (urls: &Vec<String>)
        ensures
            urls.deep_view().no_duplicates(),
            urls.deep_view().to_set() == self@,
            urls.len() == self@.len(),
    {
        proof {
            use_type_invariant(self);
            self.items.deep_view().unique_seq_to_set();
        }
        &self.items
    }

    /// Whether `url` is a member.
    pub fn contains(&self, url: &String) -> (found: bool)
        ensures
            found == self@.contains(url@),
    {
        let mut i: usize = 0;
        while i < self.items.len()
            invariant
                i <= self.items.len(),
                forall|j: int| 0 <= j < i ==> self.items.deep_view()[j] != url@,
            decreases self.items.len() - i,
        {
            if self.items[i] == *url {
                assert(self.items.deep_view()[i as int] == url@);
                return true;
            }
            i += 1;
        }
        false
    }

    /// Adds `url`, and says whether it was new.
    pub fn insert(&mut self, url: String) -> (added: bool)
        ensures
            final(self)@ == old(self)@.insert(url@),
            added == !old(self)@.contains(url@),
    {
        proof {
            use_type_invariant(&*self);
        }
        if self.contains(&url) {
            assert(self@.insert(url@) =~= self@);
            return false;
        }
        let ghost before = self.items.deep_view();
        let mut items: Vec<String> = Vec::new();
        std::mem::swap(&mut items, &mut self.items);
        items.push(url);
        proof {
            let after = items.deep_view();
            assert(after =~= before.push(url@));
            lemma_push_new(before, url@);
        }
        self.items = items;
        true
    }

    /// Takes `url` out, and says whether it was a member.
    pub fn remove(&mut self, url: &String) -> (removed: bool)
        ensures
            final(self)@ == old(self)@.remove(url@),
            removed == old(self)@.contains(url@),
    {
        proof {
            use_type_invariant(&*self);
        }
        let ghost before = self.items.deep_view();
        let mut i: usize = 0;
        while i < self.items.len()
            invariant
                i <= self.items.len(),
                self.items.deep_view() == before,
                *self == *old(self),
                before.no_duplicates(),
                forall|j: int| 0 <= j < i ==> before[j] != url@,
            decreases self.items.len() - i,
        {
            if self.items[i] == *url {
                assert(before[i as int] == url@);
                let mut items: Vec<String> = Vec::new();
                std::mem::swap(&mut items, &mut self.items);
                items.remove(i);
                proof {
                    assert(items.deep_view() =~= before.remove(i as int));
                    lemma_remove_at(before, i as int);
                }
                self.items = items;
                return true;
            }
            i += 1;
        }
        assert(self@.remove(url@) =~= self@);
        false
    }

    /// The members of this set that `other` lacks.
    pub fn difference(&self, other: &UrlSet) -> (rest: UrlSet)
        ensures
            rest@ == self@.difference(other@),
    {
        let ghost all = self.items.deep_view();
        let mut rest = UrlSet::new();
        let mut i: usize = 0;
        while i < self.items.len()
            invariant
                i <= self.items.len(),
                all == self.items.deep_view(),
                rest@ == all.take(i as int).to_set().difference(other@),
            decreases self.items.len() - i,
        {
            proof {
                lemma_take_next(all, i as int);
            }
            if !other.contains(&self.items[i]) {
                rest.insert(self.items[i].clone());
            }
            assert(rest@ =~= all.take(i as int + 1).to_set().difference(other@));
            i += 1;
        }
        assert(all.take(i as int) =~= all);
        rest
    }

    /// Adds every member of `other`.
    pub fn extend(&mut self, other: &UrlSet)
        ensures
            final(self)@ == old(self)@.union(other@),
    {
        let ghost all = other.items.deep_view();
        let mut i: usize = 0;
        assert(self@ =~= old(self)@.union(all.take(0).to_set()));
        while i < other.items.len()
            invariant
                i <= other.items.len(),
                all == other.items.deep_view(),
                self@ == old(self)@.union(all.take(i as int).to_set()),
            decreases other.items.len() - i,
        {
            proof {
                lemma_take_next(all, i as int);
            }
            self.insert(other.items[i].clone());
            assert(self@ =~= old(self)@.union(all.take(i as int + 1).to_set()));
            i += 1;
        }
        assert(all.take(i as int) =~= all);
    }

    /// The set is finite, and its size is a machine integer.
    pub proof fn lemma_finite(&self)
        ensures
            self@.finite(),
            self@.len() <= usize::MAX,
    {
        vstd::seq_lib::seq_to_set_is_finite(self.items.deep_view());
        self.items.deep_view().lemma_cardinality_of_set();
        assert(self.items.deep_view().len() == self.items.len());
    }
}

/// Pushing a value that a duplicate-free sequence lacks keeps it
/// duplicate-free, and adds the value to its set.
proof fn lemma_push_new(items: Seq<Seq<char>>, url: Seq<char>)
    requires
        items.no_duplicates(),
        !items.to_set().contains(url),
    ensures
        items.push(url).no_duplicates(),
        items.push(url).to_set() == items.to_set().insert(url),
{
    let after = items.push(url);
    assert forall|a: int, b: int|
        0 <= a < after.len() && 0 <= b < after.len() && a != b implies after[a] != after[b] by {
        if a < items.len() {
            assert(items.to_set().contains(items[a]));
        }
        if b < items.len() {
            assert(items.to_set().contains(items[b]));
        }
    }
    items.lemma_push_to_set_commute(url);
}

/// Taking one position out of a duplicate-free sequence keeps it
/// duplicate-free, and takes the value at that position out of its set.
proof fn lemma_remove_at(items: Seq<Seq<char>>, at: int)
    requires
        items.no_duplicates(),
        0 <= at < items.len(),
    ensures
        items.remove(at).no_duplicates(),
        items.remove(at).to_set() == items.to_set().remove(items[at]),
{
    let after = items.remove(at);
    assert forall|a: int, b: int|
        0 <= a < after.len() && 0 <= b < after.len() && a != b implies after[a] != after[b] by {
        let a0 = if a < at { a } else { a + 1 };
        let b0 = if b < at { b } else { b + 1 };
        assert(after[a] == items[a0]);
        assert(after[b] == items[b0]);
    }
    assert forall|v: Seq<char>| after.to_set().contains(v) implies items.to_set().remove(
        items[at],
    ).contains(v) by {
        let a = choose|a: int| 0 <= a < after.len() && after[a] == v;
        let a0 = if a < at { a } else { a + 1 };
        assert(items[a0] == v);
    }
    assert forall|v: Seq<char>| items.to_set().remove(items[at]).contains(v) implies after.to_set().contains(
        v,
    ) by {
        let b = choose|b: int| 0 <= b < items.len() && items[b] == v;
        let b0 = if b < at { b } else { b - 1 };
        assert(after[b0] == v);
    }
    assert(after.to_set() =~= items.to_set().remove(items[at]));
}

/// The set of the first `n + 1` items is that of the first `n` and the next.
proof fn lemma_take_next(items: Seq<Seq<char>>, n: int)
    requires
        0 <= n < items.len(),
    ensures
        items.take(n + 1).to_set() == items.take(n).to_set().insert(items[n]),
{
    assert(items.take(n + 1) =~= items.take(n).push(items[n]));
    items.take(n).lemma_push_to_set_commute(items[n]);
}

} // verus!
