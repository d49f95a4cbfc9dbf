//! A map from strings to strings that can be walked entry by entry: headers,
//! plugin variables and plugin sources are kept in it.

use vstd::prelude::*;

use crate::text::str_eq;

verus! {

/// The map that a list of pairs stands for: a later pair overrides an earlier
/// one with the same key.
pub open spec fn pairs_map<V>(pairs: Seq<(Seq<char>, V)>) -> Map<Seq<char>, V>
    decreases pairs.len(),
{
    if pairs.len() == 0 {
        Map::empty()
    } else {
        pairs_map(pairs.drop_last()).insert(pairs.last().0, pairs.last().1)
    }
}

/// No two pairs have the same key.
pub open spec fn distinct_keys<V>(pairs: Seq<(Seq<char>, V)>) -> bool {
    forall|i: int, j: int|
        #![trigger pairs[i], pairs[j]]
        0 <= i < j < pairs.len() ==> pairs[i].0 != pairs[j].0
}

/// The views of a list of string pairs.
pub open spec fn pair_views(pairs: Seq<(String, String)>) -> Seq<(Seq<char>, Seq<char>)> {
    pairs.map_values(|p: (String, String)| (p.0@, p.1@))
}

/// A key is in the map of a list exactly when some pair of the list has it.
pub proof fn lemma_pairs_map_dom<V>(pairs: Seq<(Seq<char>, V)>, key: Seq<char>)
    ensures
        pairs_map(pairs).contains_key(key) <==> exists|i: int|
            0 <= i < pairs.len() && (#[trigger] pairs[i]).0 == key,
    decreases pairs.len(),
{
    if pairs.len() > 0 {
        let rest = pairs.drop_last();
        lemma_pairs_map_dom(rest, key);
        if pairs_map(pairs).contains_key(key) {
            if pairs.last().0 == key {
                assert(pairs[pairs.len() - 1].0 == key);
            } else {
                let i = choose|i: int| 0 <= i < rest.len() && (#[trigger] rest[i]).0 == key;
                assert(pairs[i].0 == key);
            }
        }
        if exists|i: int| 0 <= i < pairs.len() && (#[trigger] pairs[i]).0 == key {
            let i = choose|i: int| 0 <= i < pairs.len() && (#[trigger] pairs[i]).0 == key;
            if i < rest.len() {
                assert(rest[i].0 == key);
            }
        }
    }
}

/// Where the keys are distinct, each pair is an entry of the map.
pub proof fn lemma_pairs_map_get<V>(pairs: Seq<(Seq<char>, V)>, i: int)
    requires
        distinct_keys(pairs),
        0 <= i < pairs.len(),
    ensures
        pairs_map(pairs).contains_key(pairs[i].0),
        pairs_map(pairs)[pairs[i].0] == pairs[i].1,
    decreases pairs.len(),
{
    let rest = pairs.drop_last();
    if i < rest.len() {
        assert(distinct_keys(rest)) by {
            assert forall|a: int, b: int|
                #![trigger rest[a], rest[b]]
                0 <= a < b < rest.len() implies rest[a].0 != rest[b].0 by {
                assert(pairs[a].0 != pairs[b].0);
            }
        }
        lemma_pairs_map_get(rest, i);
        assert(pairs[i].0 != pairs[pairs.len() - 1].0);
    }
}

/// Overwriting the value of one pair overwrites that entry of the map.
pub proof fn lemma_pairs_map_update<V>(pairs: Seq<(Seq<char>, V)>, i: int, key: Seq<char>, value: V)
    requires
        distinct_keys(pairs),
        0 <= i < pairs.len(),
        pairs[i].0 == key,
    ensures
        distinct_keys(pairs.update(i, (key, value))),
        pairs_map(pairs.update(i, (key, value))) == pairs_map(pairs).insert(key, value),
    decreases pairs.len(),
{
    let next = pairs.update(i, (key, value));
    assert(distinct_keys(next)) by {
        assert forall|a: int, b: int|
            #![trigger next[a], next[b]]
            0 <= a < b < next.len() implies next[a].0 != next[b].0 by {
            assert(pairs[a].0 != pairs[b].0);
        }
    }
    let rest = pairs.drop_last();
    if i == pairs.len() - 1 {
        assert(next.drop_last() =~= rest);
        assert(pairs_map(next) =~= pairs_map(pairs).insert(key, value));
    } else {
        assert(distinct_keys(rest)) by {
            assert forall|a: int, b: int|
                #![trigger rest[a], rest[b]]
                0 <= a < b < rest.len() implies rest[a].0 != rest[b].0 by {
                assert(pairs[a].0 != pairs[b].0);
            }
        }
        lemma_pairs_map_update(rest, i, key, value);
        assert(next.drop_last() =~= rest.update(i, (key, value)));
        assert(next.last() == pairs.last());
        assert(pairs[i].0 != pairs[pairs.len() - 1].0);
        assert(pairs_map(next) =~= pairs_map(pairs).insert(key, value));
    }
}

/// A pair with a new key at the end adds that entry to the map.
pub proof fn lemma_pairs_map_push<V>(pairs: Seq<(Seq<char>, V)>, key: Seq<char>, value: V)
    requires
        distinct_keys(pairs),
        forall|i: int| 0 <= i < pairs.len() ==> (#[trigger] pairs[i]).0 != key,
    ensures
        distinct_keys(pairs.push((key, value))),
        pairs_map(pairs.push((key, value))) == pairs_map(pairs).insert(key, value),
{
    let next = pairs.push((key, value));
    assert(next.drop_last() =~= pairs);
    assert forall|a: int, b: int|
        #![trigger next[a], next[b]]
        0 <= a < b < next.len() implies next[a].0 != next[b].0 by {
        if b < pairs.len() {
            assert(pairs[a].0 != pairs[b].0);
        } else {
            assert(pairs[a].0 != key);
        }
    }
}

/// A map from strings to strings.
///
/// Its view is the mathematical map; [`StrMap::entries`] is the order in which
/// its entries are walked, in which no key occurs twice.
#[derive(Debug)]
pub struct StrMap {
    pairs: Vec<(String, String)>,
}

impl View for StrMap {
    type V = Map<Seq<char>, Seq<char>>;

    open spec fn view(&self) -> Map<Seq<char>, Seq<char>> {
        pairs_map(self.entries())
    }
}

impl StrMap {
    /// The entries in the order in which they are walked.
    pub closed spec fn entries(&self) -> Seq<(Seq<char>, Seq<char>)> {
        pair_views(self.pairs@)
    }

    #[verifier::type_invariant]
    spec fn keys_are_distinct(self) -> bool {
        distinct_keys(pair_views(self.pairs@))
    }

    /// An empty map.
    pub fn new() -> (r: StrMap)
        ensures
            r.entries() == Seq::<(Seq<char>, Seq<char>)>::empty(),
            r@ == Map::<Seq<char>, Seq<char>>::empty(),
    {
        let r = StrMap { pairs: Vec::new() };
        assert(r.entries() =~= Seq::empty());
        r
    }

    /// How many entries there are.
    pub fn len(&self) -> (n: usize)
        ensures
            n == self.entries().len(),
            distinct_keys(self.entries()),
    {
        proof {
            use_type_invariant(self);
        }
        self.pairs.len()
    }

    /// The entry at a position of the walk.
    pub fn entry(&self, i: usize) -> (r: (&str, &str))
        requires
            i < self.entries().len(),
        ensures
            r.0@ == self.entries()[i as int].0,
            r.1@ == self.entries()[i as int].1,
            self@.contains_key(r.0@),
            self@[r.0@] == r.1@,
    {
        proof {
            use_type_invariant(self);
            lemma_pairs_map_get(self.entries(), i as int);
        }
        (self.pairs[i].0.as_str(), self.pairs[i].1.as_str())
    }

    fn position(&self, key: &str) -> (r: Option<usize>)
        ensures
            r matches Some(i) ==> i < self.entries().len() && self.entries()[i as int].0 == key@,
            r is None ==> forall|i: int|
                0 <= i < self.entries().len() ==> (#[trigger] self.entries()[i]).0 != key@,
    {
        let mut i: usize = 0;
        while i < self.pairs.len()
            invariant
                i <= self.pairs.len(),
                self.entries().len() == self.pairs.len(),
                forall|j: int| 0 <= j < i ==> (#[trigger] self.entries()[j]).0 != key@,
            decreases self.pairs.len() - i,
        {
            if str_eq(self.pairs[i].0.as_str(), key) {
                return Some(i);
            }
            i += 1;
        }
        None
    }

    /// Looks a key up.
    pub fn get(&self, key: &str) -> (r: Option<String>)
        ensures
            r is Some <==> self@.contains_key(key@),
            r matches Some(v) ==> v@ == self@[key@],
    {
        proof {
            use_type_invariant(self);
            lemma_pairs_map_dom(self.entries(), key@);
        }
        match self.position(key) {
            Some(i) => {
                proof {
                    lemma_pairs_map_get(self.entries(), i as int);
                }
                Some(self.pairs[i].1.clone())
            },
            None => None,
        }
    }

    /// Gives a key a value, in place of the one it may have had.
    pub fn insert(&mut self, key: String, value: String)
        ensures
            final(self)@ == old(self)@.insert(key@, value@),
    {
        proof {
            use_type_invariant(&*self);
        }
        let ghost before = self.entries();
        let found = self.position(key.as_str());
        let mut pairs: Vec<(String, String)> = Vec::new();
        std::mem::swap(&mut pairs, &mut self.pairs);
        assert(pair_views(pairs@) == before);
        match found {
            Some(i) => {
                pairs.set(i, (key, value));
                proof {
                    lemma_pairs_map_update(before, i as int, key@, value@);
                    assert(pair_views(pairs@) =~= before.update(i as int, (key@, value@)));
                }
            },
            None => {
                pairs.push((key, value));
                proof {
                    lemma_pairs_map_push(before, key@, value@);
                    assert(pair_views(pairs@) =~= before.push((key@, value@)));
                }
            },
        }
        self.pairs = pairs;
    }
}

impl Clone for StrMap {
    fn clone(&self) -> (r: StrMap)
        ensures
            r.entries() == self.entries(),
            r@ == self@,
    {
        proof {
            use_type_invariant(self);
        }
        let mut pairs: Vec<(String, String)> = Vec::new();
        let mut i: usize = 0;
        while i < self.pairs.len()
            invariant
                i <= self.pairs.len(),
                pair_views(pairs@) == pair_views(self.pairs@).take(i as int),
            decreases self.pairs.len() - i,
        {
            let ghost before = pairs@;
            let ghost all = pair_views(self.pairs@);
            pairs.push((self.pairs[i].0.clone(), self.pairs[i].1.clone()));
            assert(pair_views(pairs@) =~= pair_views(before).push(all[i as int]));
            assert(all.take(i + 1) =~= all.take(i as int).push(all[i as int]));
            i += 1;
        }
        assert(pair_views(pairs@) =~= pair_views(self.pairs@));
        StrMap { pairs }
    }
}

/// A list of no pairs stands for an empty map, and one more pair gives its key its
/// value, in place of what the key had.
pub proof fn law_last_pair_wins<V>(
    pairs: Seq<(Seq<char>, V)>,
    key: Seq<char>,
    value: V,
    other: Seq<char>,
)
    ensures
        !pairs_map::<V>(seq![]).contains_key(key),
        pairs_map(pairs.push((key, value))).contains_key(key),
        pairs_map(pairs.push((key, value)))[key] == value,
        other != key ==> {
            &&& pairs_map(pairs.push((key, value))).contains_key(other) <==> pairs_map(
                pairs,
            ).contains_key(other)
            &&& pairs_map(pairs).contains_key(other) ==> pairs_map(
                pairs.push((key, value)),
            )[other] == pairs_map(pairs)[other]
        },
{
    assert(pairs.push((key, value)).drop_last() =~= pairs);
}

/// Pairs are seen pair by pair.
pub proof fn law_pairs_are_seen_whole(pairs: Seq<(String, String)>, i: int)
    requires
        0 <= i < pairs.len(),
    ensures
        pair_views(pairs).len() == pairs.len(),
        pair_views(pairs)[i] == (pairs[i].0@, pairs[i].1@),
{
}

} // verus!
