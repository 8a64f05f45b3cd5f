//! Maps from strings to strings.
use crate::directory::views;
use crate::text::same_text;
use vstd::prelude::*;

verus! {

/// A map from strings to strings, as its entries. No key occurs twice.
#[derive(Debug)]
pub struct TextMap {
    entries: Vec<(String, String)>,
}

/// The entries, with their strings as sequences.
pub open spec fn pairs(entries: Seq<(String, String)>) -> Seq<(Seq<char>, Seq<char>)> {
    entries.map_values(|e: (String, String)| (e.0@, e.1@))
}

/// The map that a row of entries makes, a later entry in place of an earlier one
/// with the same key.
pub open spec fn map_of(pairs: Seq<(Seq<char>, Seq<char>)>) -> Map<Seq<char>, Seq<char>>
    decreases pairs.len(),
{
    if pairs.len() == 0 {
        Map::empty()
    } else {
        map_of(pairs.drop_last()).insert(pairs.last().0, pairs.last().1)
    }
}

/// No key occurs twice.
pub open spec fn distinct(pairs: Seq<(Seq<char>, Seq<char>)>) -> bool {
    forall|i: int, j: int| 0 <= i < j < pairs.len() ==> #[trigger] pairs[i].0 != #[trigger] pairs[j].0
}

proof fn lemma_map_of(pairs: Seq<(Seq<char>, Seq<char>)>)
    requires
        distinct(pairs),
    ensures
        forall|i: int|
            0 <= i < pairs.len() ==> map_of(pairs).dom().contains((#[trigger] pairs[i]).0) && map_of(
                pairs,
            )[pairs[i].0] == pairs[i].1,
        forall|k: Seq<char>| #[trigger]
            map_of(pairs).dom().contains(k) ==> exists|i: int|
                0 <= i < pairs.len() && (#[trigger] pairs[i]).0 == k,
        map_of(pairs).dom().finite(),
        map_of(pairs).dom().len() == pairs.len(),
    decreases pairs.len(),
{
    if pairs.len() > 0 {
        let fewer = pairs.drop_last();
        assert(distinct(fewer)) by {
            assert forall|i: int, j: int| 0 <= i < j < fewer.len() implies #[trigger] fewer[i].0
                != #[trigger] fewer[j].0 by {
                assert(pairs[i].0 != pairs[j].0);
            }
        }
        lemma_map_of(fewer);
        assert(map_of(pairs).dom() =~= map_of(fewer).dom().insert(pairs.last().0));
        assert(!map_of(fewer).dom().contains(pairs.last().0)) by {
            if map_of(fewer).dom().contains(pairs.last().0) {
                let i = choose|i: int| 0 <= i < fewer.len() && (#[trigger] fewer[i]).0 == pairs.last().0;
                assert(pairs[i].0 != pairs[pairs.len() - 1].0);
            }
        }
        assert forall|i: int| 0 <= i < pairs.len() implies map_of(pairs).dom().contains(
            (#[trigger] pairs[i]).0,
        ) && map_of(pairs)[pairs[i].0] == pairs[i].1 by {
            if i < fewer.len() {
                assert(fewer[i] == pairs[i]);
            }
        }
        assert forall|k: Seq<char>| #[trigger] map_of(pairs).dom().contains(k) implies exists|i: int|
            0 <= i < pairs.len() && (#[trigger] pairs[i]).0 == k by {
            if k == pairs.last().0 {
                assert(pairs[pairs.len() - 1].0 == k);
            } else {
                let i = choose|i: int| 0 <= i < fewer.len() && (#[trigger] fewer[i]).0 == k;
                assert(pairs[i].0 == k);
            }
        }
    }
}

/// Entries with distinct keys make the map that has their keys and values.
proof fn lemma_map_is(pairs: Seq<(Seq<char>, Seq<char>)>, m: Map<Seq<char>, Seq<char>>)
    requires
        distinct(pairs),
        forall|i: int|
            0 <= i < pairs.len() ==> m.dom().contains((#[trigger] pairs[i]).0) && m[pairs[i].0]
                == pairs[i].1,
        forall|k: Seq<char>| #[trigger]
            m.dom().contains(k) ==> exists|i: int| 0 <= i < pairs.len() && (#[trigger] pairs[i]).0 == k,
    ensures
        map_of(pairs) == m,
{
    lemma_map_of(pairs);
    assert forall|k: Seq<char>| #[trigger] map_of(pairs).dom().contains(k) implies m.dom().contains(k)
        && map_of(pairs)[k] == m[k] by {
        let i = choose|i: int| 0 <= i < pairs.len() && (#[trigger] pairs[i]).0 == k;
        assert(m[pairs[i].0] == pairs[i].1);
    }
    assert forall|k: Seq<char>| #[trigger] m.dom().contains(k) implies map_of(pairs).dom().contains(
        k,
    ) by {
        let i = choose|i: int| 0 <= i < pairs.len() && (#[trigger] pairs[i]).0 == k;
    }
    assert(map_of(pairs) =~= m);
}

impl View for TextMap {
    type V = Map<Seq<char>, Seq<char>>;

    closed spec fn view(&self) -> Map<Seq<char>, Seq<char>> {
        map_of(pairs(self.entries@))
    }
}

impl TextMap {
    #[verifier::type_invariant]
    spec fn well_formed(self) -> bool {
        distinct(pairs(self.entries@))
    }

    /// A map without entries.
    pub fn new() -> (m: Self)
        ensures
            m@ == Map::<Seq<char>, Seq<char>>::empty(),
    {
        TextMap { entries: Vec::new() }
    }

    /// The number of entries.
    pub fn len(&self) -> (n: usize)
        ensures
            self@.dom().finite(),
            n == self@.dom().len(),
    {
        proof {
            use_type_invariant(self);
            lemma_map_of(pairs(self.entries@));
        }
        self.entries.len()
    }

    /// The entries, in the order in which their keys came.
    pub fn entries(&self) -> (entries: &Vec<(String, String)>)
        ensures
            distinct(pairs(entries@)),
            self@ == map_of(pairs(entries@)),
    {
        proof {
            use_type_invariant(self);
        }
        &self.entries
    }

    /// The place of a key.
    fn place_of(&self, key: &str) -> (r: Option<usize>)
        ensures
            match r {
                Some(i) => i < self.entries@.len() && self.entries@[i as int].0@ == key@,
                None => forall|i: int|
                    0 <= i < self.entries@.len() ==> (#[trigger] self.entries@[i]).0@ != key@,
            },
    {
        for i in 0..self.entries.len()
            invariant
                forall|j: int| 0 <= j < i ==> (#[trigger] self.entries@[j]).0@ != key@,
        {
            if same_text(self.entries[i].0.as_str(), key) {
                return Some(i);
            }
        }
        None
    }

    /// The value of a key.
    pub fn get(&self, key: &str) -> (r: Option<&String>)
        ensures
            match r {
                Some(value) => self@.dom().contains(key@) && self@[key@] == value@,
                None => !self@.dom().contains(key@),
            },
    {
        proof {
            use_type_invariant(self);
            lemma_map_of(pairs(self.entries@));
        }
        let ghost all = pairs(self.entries@);
        match self.place_of(key) {
            Some(i) => {
                assert(all[i as int] == (key@, self.entries@[i as int].1@));
                Some(&self.entries[i].1)
            },
            None => {
                assert forall|i: int| 0 <= i < all.len() implies (#[trigger] all[i]).0 != key@ by {
                    assert(self.entries@[i].0@ != key@);
                }
                None
            },
        }
    }

    /// Gives a key a value, in place of the one that it had.
    pub fn insert(&mut self, key: String, value: String)
        ensures
            final(self)@ == old(self)@.insert(key@, value@),
    {
        proof {
            use_type_invariant(&*self);
            lemma_map_of(pairs(self.entries@));
        }
        let ghost before = pairs(self.entries@);
        let ghost after = self@.insert(key@, value@);
        let place = self.place_of(key.as_str());
        let mut entries: Vec<(String, String)> = Vec::new();
        std::mem::swap(&mut entries, &mut self.entries);
        let ghost k = key@;
        let ghost v = value@;
        match place {
            Some(i) => {
                entries.set(i, (key, value));
                proof {
                    let all = pairs(entries@);
                    assert(all =~= before.update(i as int, (k, v)));
                    assert(before[i as int].0 == k);
                    assert forall|a: int, b: int| 0 <= a < b < all.len() implies #[trigger] all[a].0
                        != #[trigger] all[b].0 by {
                        assert(before[a].0 != before[b].0);
                    }
                    assert forall|j: int| 0 <= j < all.len() implies after.dom().contains(
                        (#[trigger] all[j]).0,
                    ) && after[all[j].0] == all[j].1 by {
                        if j < i {
                            assert(before[j].0 != before[i as int].0);
                        } else if j > i {
                            assert(before[i as int].0 != before[j].0);
                        }
                    }
                    assert forall|x: Seq<char>| #[trigger] after.dom().contains(x) implies exists|j: int|
                        0 <= j < all.len() && (#[trigger] all[j]).0 == x by {
                        if x == k {
                            assert(all[i as int].0 == x);
                        } else {
                            let j = choose|j: int| 0 <= j < before.len() && (#[trigger] before[j]).0 == x;
                            assert(all[j].0 == x);
                        }
                    }
                    lemma_map_is(all, after);
                }
            },
            None => {
                entries.push((key, value));
                proof {
                    let all = pairs(entries@);
                    assert(all =~= before.push((k, v)));
                    assert(all.drop_last() =~= before);
                    assert forall|a: int, b: int| 0 <= a < b < all.len() implies #[trigger] all[a].0
                        != #[trigger] all[b].0 by {
                        assert(before[a].0 == entries@[a].0@);
                        if b < before.len() {
                            assert(before[a].0 != before[b].0);
                        }
                    }
                }
            },
        }
        self.entries = entries;
    }

    /// Takes a key out.
    pub fn remove(&mut self, key: &str)
        ensures
            final(self)@ == old(self)@.remove(key@),
    {
        proof {
            use_type_invariant(&*self);
            lemma_map_of(pairs(self.entries@));
        }
        let ghost before = pairs(self.entries@);
        let ghost after = self@.remove(key@);
        let place = self.place_of(key);
        let mut entries: Vec<(String, String)> = Vec::new();
        std::mem::swap(&mut entries, &mut self.entries);
        match place {
            Some(i) => {
                let ghost at = i as int;
                let _ = entries.remove(i);
                proof {
                    let all = pairs(entries@);
                    assert(all =~= before.remove(at));
                    assert(before[at].0 == key@);
                    assert forall|a: int, b: int| 0 <= a < b < all.len() implies #[trigger] all[a].0
                        != #[trigger] all[b].0 by {
                        let c = if a < at { a } else { a + 1 };
                        let d = if b < at { b } else { b + 1 };
                        assert(before[c].0 != before[d].0);
                    }
                    assert forall|j: int| 0 <= j < all.len() implies after.dom().contains(
                        (#[trigger] all[j]).0,
                    ) && after[all[j].0] == all[j].1 by {
                        if j < at {
                            assert(before[j].0 != before[at].0);
                        } else {
                            assert(before[at].0 != before[j + 1].0);
                        }
                    }
                    assert forall|x: Seq<char>| #[trigger] after.dom().contains(x) implies exists|j: int|
                        0 <= j < all.len() && (#[trigger] all[j]).0 == x by {
                        let j = choose|j: int| 0 <= j < before.len() && (#[trigger] before[j]).0 == x;
                        if j < at {
                            assert(all[j].0 == x);
                        } else {
                            assert(all[j - 1].0 == x);
                        }
                    }
                    lemma_map_is(all, after);
                }
            },
            None => {
                assert(!old(self)@.dom().contains(key@)) by {
                    assert forall|j: int| 0 <= j < before.len() implies (#[trigger] before[j]).0 != key@ by {
                        assert(old(self).entries@[j].0@ != key@);
                    }
                }
                assert(after =~= old(self)@);
            },
        }
        self.entries = entries;
    }

    /// Takes out every key that is not among `keys`.
    pub fn retain(&mut self, keys: &[String])
        ensures
            final(self)@ == old(self)@.restrict(views(keys@).to_set()),
    {
        proof {
            use_type_invariant(&*self);
            lemma_map_of(pairs(self.entries@));
        }
        let ghost before = pairs(self.entries@);
        let ghost after = self@.restrict(views(keys@).to_set());
        let mut kept: Vec<(String, String)> = Vec::new();
        let mut entries: Vec<(String, String)> = Vec::new();
        std::mem::swap(&mut entries, &mut self.entries);
        let ghost mut from: Seq<int> = seq![];
        for i in 0..entries.len()
            invariant
                before == pairs(entries@),
                distinct(before),
                from.len() == kept@.len(),
                forall|a: int|
                    0 <= a < from.len() ==> 0 <= #[trigger] from[a] < i && pairs(kept@)[a]
                        == before[from[a]] && views(keys@).to_set().contains(before[from[a]].0),
                forall|a: int, b: int| 0 <= a < b < from.len() ==> #[trigger] from[a] < #[trigger] from[b],
                forall|j: int|
                    0 <= j < i && views(keys@).to_set().contains((#[trigger] before[j]).0)
                        ==> from.contains(j),
        {
            let wanted = contains_text(keys, entries[i].0.as_str());
            let ghost earlier = from;
            if wanted {
                let ghost old_kept = kept@;
                kept.push((entries[i].0.clone(), entries[i].1.clone()));
                proof {
                    from = from.push(i as int);
                    assert forall|a: int| 0 <= a < from.len() implies 0 <= #[trigger] from[a] < i + 1
                        && pairs(kept@)[a] == before[from[a]] && views(keys@).to_set().contains(
                        before[from[a]].0,
                    ) by {
                        if a < earlier.len() {
                            assert(from[a] == earlier[a]);
                            assert(pairs(kept@)[a] == pairs(old_kept)[a]);
                        }
                    }
                    assert forall|j: int|
                        0 <= j < i + 1 && views(keys@).to_set().contains(
                            (#[trigger] before[j]).0,
                        ) implies from.contains(j) by {
                        if j < i {
                            let a = choose|a: int| 0 <= a < earlier.len() && earlier[a] == j;
                            assert(from[a] == j);
                        } else {
                            assert(from[from.len() - 1] == j);
                        }
                    }
                }
            } else {
                assert(before[i as int].0 == entries@[i as int].0@);
            }
        }
        proof {
            let all = pairs(kept@);
            assert forall|a: int, b: int| 0 <= a < b < all.len() implies #[trigger] all[a].0
                != #[trigger] all[b].0 by {
                assert(from[a] < from[b]);
                assert(before[from[a]].0 != before[from[b]].0);
            }
            assert forall|a: int| 0 <= a < all.len() implies after.dom().contains((#[trigger] all[a]).0)
                && after[all[a].0] == all[a].1 by {
                assert(all[a] == before[from[a]]);
            }
            assert forall|x: Seq<char>| #[trigger] after.dom().contains(x) implies exists|a: int|
                0 <= a < all.len() && (#[trigger] all[a]).0 == x by {
                let j = choose|j: int| 0 <= j < before.len() && (#[trigger] before[j]).0 == x;
                assert(from.contains(j));
                let a = choose|a: int| 0 <= a < from.len() && from[a] == j;
                assert(all[a].0 == x);
            }
            lemma_map_is(all, after);
        }
        self.entries = kept;
    }

    /// Whether every entry of this map is one of the other.
    fn is_within(&self, other: &TextMap) -> (b: bool)
        ensures
            b == forall|k: Seq<char>| #[trigger]
                self@.dom().contains(k) ==> other@.dom().contains(k) && other@[k] == self@[k],
    {
        proof {
            use_type_invariant(self);
            lemma_map_of(pairs(self.entries@));
        }
        let ghost all = pairs(self.entries@);
        for i in 0..self.entries.len()
            invariant
                all == pairs(self.entries@),
                forall|j: int|
                    0 <= j < all.len() ==> self@.dom().contains((#[trigger] all[j]).0)
                        && self@[all[j].0] == all[j].1,
                forall|j: int|
                    0 <= j < i ==> other@.dom().contains((#[trigger] all[j]).0) && other@[all[j].0]
                        == all[j].1,
        {
            assert(all[i as int] == (self.entries@[i as int].0@, self.entries@[i as int].1@));
            match other.get(self.entries[i].0.as_str()) {
                Some(value) => {
                    if !same_text(value.as_str(), self.entries[i].1.as_str()) {
                        return false;
                    }
                },
                None => {
                    return false;
                },
            }
        }
        assert forall|k: Seq<char>| #[trigger] self@.dom().contains(k) implies other@.dom().contains(k)
            && other@[k] == self@[k] by {
            let i = choose|i: int| 0 <= i < all.len() && (#[trigger] all[i]).0 == k;
        }
        true
    }

    /// Whether two maps have the same entries.
    pub fn same(&self, other: &TextMap) -> (b: bool)
        ensures
            b == (self@ == other@),
    {
        let b = self.is_within(other) && other.is_within(self);
        if b {
            assert(self@ =~= other@);
        }
        b
    }
}

impl Clone for TextMap {
    fn clone(&self) -> (m: Self)
        ensures
            m@ == self@,
    {
        proof {
            use_type_invariant(self);
        }
        let mut entries: Vec<(String, String)> = Vec::new();
        for i in 0..self.entries.len()
            invariant
                entries@.len() == i,
                forall|j: int|
                    0 <= j < i ==> (#[trigger] entries@[j]).0@ == self.entries@[j].0@ && entries@[j].1@
                        == self.entries@[j].1@,
        {
            entries.push((self.entries[i].0.clone(), self.entries[i].1.clone()));
        }
        assert(pairs(entries@) =~= pairs(self.entries@));
        TextMap { entries }
    }
}

impl Default for TextMap {
    fn default() -> (m: Self)
        ensures
            m@ == Map::<Seq<char>, Seq<char>>::empty(),
    {
        TextMap::new()
    }
}

/// Whether a string is one of a row.
pub fn contains_text(row: &[String], s: &str) -> (b: bool)
    ensures
        b == views(row@).to_set().contains(s@),
{
    for i in 0..row.len()
        invariant
            forall|j: int| 0 <= j < i ==> (#[trigger] row@[j])@ != s@,
    {
        if same_text(row[i].as_str(), s) {
            assert(views(row@)[i as int] == s@);
            return true;
        }
    }
    assert(!views(row@).contains(s@));
    false
}

/// A row of pairs makes a map of their keys, each with the value of the last pair that
/// has it.
pub proof fn law_later_pairs_count(pairs: Seq<(Seq<char>, Seq<char>)>, key: Seq<char>, i: int)
    ensures
        map_of(pairs).dom().contains(key) <==> exists|j: int|
            0 <= j < pairs.len() && (#[trigger] pairs[j]).0 == key,
        0 <= i < pairs.len() && pairs[i].0 == key && (forall|j: int|
            i < j < pairs.len() ==> (#[trigger] pairs[j]).0 != key) ==> map_of(pairs)[key]
            == pairs[i].1,
    decreases pairs.len(),
{
    if pairs.len() > 0 {
        let shorter = pairs.drop_last();
        let last = pairs.last();
        law_later_pairs_count(shorter, key, i);
        assert(pairs[pairs.len() - 1] == last);
        if exists|j: int| 0 <= j < shorter.len() && (#[trigger] shorter[j]).0 == key {
            let j = choose|j: int| 0 <= j < shorter.len() && (#[trigger] shorter[j]).0 == key;
            assert(pairs[j].0 == key);
        }
        if exists|j: int| 0 <= j < pairs.len() && (#[trigger] pairs[j]).0 == key {
            let j = choose|j: int| 0 <= j < pairs.len() && (#[trigger] pairs[j]).0 == key;
            if j < shorter.len() {
                assert(shorter[j].0 == key);
            }
        }
        if 0 <= i < pairs.len() - 1 && pairs[i].0 == key && (forall|j: int|
            i < j < pairs.len() ==> (#[trigger] pairs[j]).0 != key) {
            assert(pairs[pairs.len() - 1].0 != key);
            assert(shorter[i] == pairs[i]);
            assert forall|j: int| i < j < shorter.len() implies (#[trigger] shorter[j]).0 != key by {
                assert(shorter[j] == pairs[j]);
            }
        }
    }
}

} // verus!
