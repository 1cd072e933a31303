//! The environment handed to a launched process: a mapping from variable
//! names to values in which no name occurs twice.

use vstd::prelude::*;

verus! {

/// The name held at place `i`.
pub open spec fn key_at(pairs: Seq<(String, String)>, i: int) -> Seq<char> {
    pairs[i].0@
}

/// No name occurs at two places.
pub open spec fn keys_unique(pairs: Seq<(String, String)>) -> bool {
    forall|i: int, j: int|
        0 <= i < j < pairs.len() ==> #[trigger] key_at(pairs, i) != #[trigger] key_at(pairs, j)
}

/// Some place holds the name `key`.
pub open spec fn holds_key(pairs: Seq<(String, String)>, key: Seq<char>) -> bool {
    exists|i: int| 0 <= i < pairs.len() && #[trigger] key_at(pairs, i) == key
}

/// A place that holds the name `key`.
pub open spec fn place_of(pairs: Seq<(String, String)>, key: Seq<char>) -> int {
    choose|i: int| 0 <= i < pairs.len() && #[trigger] key_at(pairs, i) == key
}

/// The mapping that a sequence of pairs stands for.
pub open spec fn mapping_of(pairs: Seq<(String, String)>) -> Map<Seq<char>, Seq<char>> {
    Map::new(|key: Seq<char>| holds_key(pairs, key), |key: Seq<char>| pairs[place_of(pairs, key)].1@)
}

/// Where no name occurs twice, each pair is an entry of the mapping.
pub proof fn lemma_pairs_are_entries(pairs: Seq<(String, String)>)
    requires
        keys_unique(pairs),
    ensures
        forall|i: int|
            0 <= i < pairs.len() ==> mapping_of(pairs).contains_key(#[trigger] key_at(pairs, i))
                && mapping_of(pairs)[key_at(pairs, i)] == pairs[i].1@,
{
    assert forall|i: int| 0 <= i < pairs.len() implies mapping_of(pairs).contains_key(
        #[trigger] key_at(pairs, i),
    ) && mapping_of(pairs)[key_at(pairs, i)] == pairs[i].1@ by {
        let key = key_at(pairs, i);
        assert(holds_key(pairs, key));
        let p = place_of(pairs, key);
        assert(key_at(pairs, p) == key);
        assert(p == i);
    }
}

/// The mapping collected from the properties of a host object, looked up one
/// by one: a property with a value sets its name to that value, in place of
/// what an earlier property of the same name set; a property without a value
/// is left out.
pub open spec fn collected(lookups: Seq<(String, Option<String>)>) -> Map<Seq<char>, Seq<char>>
    decreases lookups.len(),
{
    if lookups.len() == 0 {
        Map::empty()
    } else {
        let front = collected(lookups.drop_last());
        match lookups.last().1 {
            Some(value) => front.insert(lookups.last().0@, value@),
            None => front,
        }
    }
}

/// An environment: variable names with their values, each name once.
#[derive(Debug)]
pub struct EnvMap {
    pairs: Vec<(String, String)>,
}

impl View for EnvMap {
    type V = Map<Seq<char>, Seq<char>>;

    closed spec fn view(&self) -> Map<Seq<char>, Seq<char>> {
        mapping_of(self.pairs@)
    }
}

impl EnvMap {
    /// The invariant: no name occurs twice.
    #[verifier::type_invariant]
    spec fn wf(&self) -> bool {
        keys_unique(self.pairs@)
    }

    /// The empty environment.
    pub fn new() -> (env: EnvMap)
        ensures
            env@ == Map::<Seq<char>, Seq<char>>::empty(),
    {
        let env = EnvMap { pairs: Vec::new() };
        assert(env@ =~= Map::<Seq<char>, Seq<char>>::empty());
        env
    }

    /// Collects the environment from looked-up properties: every property
    /// that has a value, a later one in place of an earlier one of its name.
    pub fn from_lookups(lookups: &Vec<(String, Option<String>)>) -> (env: EnvMap)
        ensures
            env@ == collected(lookups@),
    {
        let mut env = EnvMap::new();
        let mut i: usize = 0;
        while i < lookups.len()
            invariant
                i <= lookups@.len(),
                env@ == collected(lookups@.subrange(0, i as int)),
            decreases lookups@.len() - i,
        {
            proof {
                assert(lookups@.subrange(0, i + 1).drop_last() =~= lookups@.subrange(0, i as int));
            }
            match &lookups[i].1 {
                Some(value) => {
                    env.insert(lookups[i].0.clone(), value.clone());
                },
                None => {},
            }
            i += 1;
        }
        proof {
            assert(lookups@.subrange(0, i as int) =~= lookups@);
        }
        env
    }

    /// The number of variables.
    pub fn len(&self) -> (n: usize)
        ensures
            n == self@.dom().len(),
            self@.dom().finite(),
    {
        proof {
            use_type_invariant(self);
            lemma_domain_size(self.pairs@);
        }
        self.pairs.len()
    }

    /// The place of `key` among the pairs, if it is there.
    fn find(&self, key: &String) -> (place: Option<usize>)
        ensures
            match place {
                Some(i) => i < self.pairs@.len() && key_at(self.pairs@, i as int) == key@,
                None => !holds_key(self.pairs@, key@),
            },
    {
        let mut i: usize = 0;
        while i < self.pairs.len()
            invariant
                i <= self.pairs@.len(),
                forall|j: int| 0 <= j < i ==> #[trigger] key_at(self.pairs@, j) != key@,
            decreases self.pairs@.len() - i,
        {
            if self.pairs[i].0 == *key {
                return Some(i);
            }
            i += 1;
        }
        None
    }

    /// The value of the variable `key`, if the environment has it.
    pub fn get(&self, key: &String) -> (value: Option<&String>)
        ensures
            match value {
                Some(v) => self@.contains_key(key@) && self@[key@] == v@,
                None => !self@.contains_key(key@),
            },
    {
        match self.find(key) {
            Some(i) => {
                proof {
                    use_type_invariant(self);
                    lemma_pairs_are_entries(self.pairs@);
                }
                Some(&self.pairs[i].1)
            },
            None => None,
        }
    }

    /// Sets the variable `key` to `value`, in place of the value it had.
    pub fn insert(&mut self, key: String, value: String)
        ensures
            final(self)@ == old(self)@.insert(key@, value@),
    {
        proof {
            use_type_invariant(&*self);
        }
        let ghost before = self.pairs@;
        let ghost k = key@;
        let ghost v = value@;
        let found = self.find(&key);
        let mut pairs: Vec<(String, String)> = Vec::new();
        std::mem::swap(&mut pairs, &mut self.pairs);
        match found {
            Some(i) => {
                pairs.set(i, (key, value));
                proof {
                    let after = pairs@;
                    assert forall|j: int| 0 <= j < after.len() implies #[trigger] key_at(after, j)
                        == key_at(before, j) by {}
                    assert(keys_unique(after)) by {
                        assert forall|a: int, b: int| 0 <= a < b < after.len() implies #[trigger] key_at(
                            after,
                            a,
                        ) != #[trigger] key_at(after, b) by {
                            assert(key_at(before, a) != key_at(before, b));
                        }
                    }
                    lemma_pairs_are_entries(before);
                    lemma_pairs_are_entries(after);
                    assert forall|name: Seq<char>| holds_key(after, name) <==> (holds_key(
                        before,
                        name,
                    ) || name == k) by {
                        if holds_key(after, name) {
                            let p = place_of(after, name);
                            assert(key_at(before, p) == name);
                        }
                        if holds_key(before, name) {
                            let p = place_of(before, name);
                            assert(key_at(after, p) == name);
                        }
                        if name == k {
                            assert(key_at(after, i as int) == name);
                        }
                    }
                    assert forall|name: Seq<char>| holds_key(after, name) implies mapping_of(
                        after,
                    )[name] == mapping_of(before).insert(k, v)[name] by {
                        let p = place_of(after, name);
                        assert(key_at(after, p) == name);
                        assert(key_at(before, p) == name);
                        if name != k {
                            assert(p != i);
                            assert(after[p] == before[p]);
                        } else {
                            assert(key_at(after, i as int) == name);
                        }
                    }
                    assert(mapping_of(after) =~= mapping_of(before).insert(k, v));
                }
            },
            None => {
                pairs.push((key, value));
                proof {
                    let after = pairs@;
                    let last = before.len() as int;
                    assert forall|j: int| 0 <= j < before.len() implies #[trigger] key_at(after, j)
                        == key_at(before, j) by {}
                    assert(key_at(after, last) == k);
                    assert(keys_unique(after)) by {
                        assert forall|a: int, b: int| 0 <= a < b < after.len() implies #[trigger] key_at(
                            after,
                            a,
                        ) != #[trigger] key_at(after, b) by {
                            if b < last {
                                assert(key_at(before, a) != key_at(before, b));
                            } else {
                                assert(key_at(before, a) != k);
                            }
                        }
                    }
                    lemma_pairs_are_entries(before);
                    lemma_pairs_are_entries(after);
                    assert forall|name: Seq<char>| holds_key(after, name) <==> (holds_key(
                        before,
                        name,
                    ) || name == k) by {
                        if holds_key(after, name) {
                            let p = place_of(after, name);
                            if p < last {
                                assert(key_at(before, p) == name);
                            }
                        }
                        if holds_key(before, name) {
                            let p = place_of(before, name);
                            assert(key_at(after, p) == name);
                        }
                        if name == k {
                            assert(key_at(after, last) == name);
                        }
                    }
                    assert forall|name: Seq<char>| holds_key(after, name) implies mapping_of(
                        after,
                    )[name] == mapping_of(before).insert(k, v)[name] by {
                        let p = place_of(after, name);
                        assert(key_at(after, p) == name);
                        if name != k {
                            assert(p != last);
                            assert(key_at(before, p) == name);
                            assert(after[p] == before[p]);
                        } else {
                            assert(key_at(after, last) == name);
                        }
                    }
                    assert(mapping_of(after) =~= mapping_of(before).insert(k, v));
                }
            },
        }
        self.pairs = pairs;
    }

    /// The variables as pairs of name and value, each name once.
    pub fn entries(&self) -> (pairs: &Vec<(String, String)>)
        ensures
            keys_unique(pairs@),
            mapping_of(pairs@) == self@,
    {
        proof {
            use_type_invariant(self);
        }
        &self.pairs
    }

    /// Gives the variables up as pairs of name and value, each name once.
    pub fn into_entries(self) -> (pairs: Vec<(String, String)>)
        ensures
            keys_unique(pairs@),
            mapping_of(pairs@) == self@,
    {
        proof {
            use_type_invariant(&self);
        }
        self.pairs
    }
}

/// Where no name occurs twice, the mapping has as many entries as there are
/// pairs.
pub proof fn lemma_domain_size(pairs: Seq<(String, String)>)
    requires
        keys_unique(pairs),
    ensures
        mapping_of(pairs).dom().finite(),
        mapping_of(pairs).dom().len() == pairs.len(),
    decreases pairs.len(),
{
    if pairs.len() == 0 {
        assert(mapping_of(pairs).dom() =~= Set::<Seq<char>>::empty());
    } else {
        let front = pairs.drop_last();
        let last = pairs.len() - 1;
        assert forall|i: int| 0 <= i < front.len() implies #[trigger] key_at(front, i) == key_at(
            pairs,
            i,
        ) by {}
        assert(keys_unique(front)) by {
            assert forall|a: int, b: int| 0 <= a < b < front.len() implies #[trigger] key_at(
                front,
                a,
            ) != #[trigger] key_at(front, b) by {
                assert(key_at(pairs, a) != key_at(pairs, b));
            }
        }
        lemma_domain_size(front);
        let k = key_at(pairs, last);
        assert forall|name: Seq<char>| holds_key(pairs, name) <==> (holds_key(front, name) || name
            == k) by {
            if holds_key(pairs, name) {
                let p = place_of(pairs, name);
                if p < last {
                    assert(key_at(front, p) == name);
                }
            }
            if holds_key(front, name) {
                let p = place_of(front, name);
                assert(key_at(pairs, p) == name);
            }
        }
        if holds_key(front, k) {
            let p = place_of(front, k);
            assert(key_at(pairs, p) == k);
            assert(false);
        }
        assert(mapping_of(pairs).dom() =~= mapping_of(front).dom().insert(k));
    }
}

} // verus!
