//! A mapping of setting keys to values, kept as a list of pairs whose keys
//! are distinct.

use vstd::prelude::*;
use vstd::string::*;

verus! {

/// No key occurs twice in `ps`.
pub open spec fn keys_distinct(ps: Seq<(Seq<char>, Seq<char>)>) -> bool {
    forall|i: int, j: int| 0 <= i < j < ps.len() ==> ps[i].0 != ps[j].0
}

/// The mapping that a list of pairs denotes: a later pair overrides an
/// earlier one with the same key.
pub open spec fn map_of_pairs(ps: Seq<(Seq<char>, Seq<char>)>) -> Map<Seq<char>, Seq<char>>
    decreases ps.len(),
{
    if ps.len() == 0 {
        Map::empty()
    } else {
        map_of_pairs(ps.drop_last()).insert(ps.last().0, ps.last().1)
    }
}

pub proof fn lemma_map_of_pairs_dom(ps: Seq<(Seq<char>, Seq<char>)>, k: Seq<char>)
    ensures
        map_of_pairs(ps).dom().contains(k) <==> exists|i: int| 0 <= i < ps.len() && ps[i].0 == k,
    decreases ps.len(),
{
    if ps.len() > 0 {
        lemma_map_of_pairs_dom(ps.drop_last(), k);
        if map_of_pairs(ps).dom().contains(k) && k != ps.last().0 {
            let i = choose|i: int| 0 <= i < ps.drop_last().len() && ps.drop_last()[i].0 == k;
            assert(ps[i].0 == k);
        }
        if exists|i: int| 0 <= i < ps.len() && ps[i].0 == k {
            let i = choose|i: int| 0 <= i < ps.len() && ps[i].0 == k;
            if i < ps.len() - 1 {
                assert(ps.drop_last()[i].0 == k);
            }
        }
    }
}

pub proof fn lemma_map_of_pairs_index(ps: Seq<(Seq<char>, Seq<char>)>, i: int)
    requires
        keys_distinct(ps),
        0 <= i < ps.len(),
    ensures
        map_of_pairs(ps).dom().contains(ps[i].0),
        map_of_pairs(ps)[ps[i].0] == ps[i].1,
    decreases ps.len(),
{
    if i < ps.len() - 1 {
        lemma_map_of_pairs_index(ps.drop_last(), i);
    }
}

pub proof fn lemma_map_of_pairs_len(ps: Seq<(Seq<char>, Seq<char>)>)
    requires
        keys_distinct(ps),
    ensures
        map_of_pairs(ps).dom().finite(),
        map_of_pairs(ps).dom().len() == ps.len(),
    decreases ps.len(),
{
    if ps.len() > 0 {
        let init = ps.drop_last();
        lemma_map_of_pairs_len(init);
        lemma_map_of_pairs_dom(init, ps.last().0);
    }
}

pub proof fn lemma_map_of_pairs_update(ps: Seq<(Seq<char>, Seq<char>)>, i: int, v: Seq<char>)
    requires
        keys_distinct(ps),
        0 <= i < ps.len(),
    ensures
        map_of_pairs(ps.update(i, (ps[i].0, v))) == map_of_pairs(ps).insert(ps[i].0, v),
    decreases ps.len(),
{
    let qs = ps.update(i, (ps[i].0, v));
    if i == ps.len() - 1 {
        assert(qs.drop_last() == ps.drop_last());
        assert(map_of_pairs(qs) =~= map_of_pairs(ps).insert(ps[i].0, v));
    } else {
        assert(qs.drop_last() == ps.drop_last().update(i, (ps[i].0, v)));
        lemma_map_of_pairs_update(ps.drop_last(), i, v);
        assert(map_of_pairs(qs) =~= map_of_pairs(ps).insert(ps[i].0, v));
    }
}

/// The settings of one application: environment-variable keys and values.
#[derive(Debug)]
pub struct Settings {
    entries: Vec<(String, String)>,
}

impl Settings {
    /// No key occurs twice; every value of the type satisfies this.
    #[verifier::type_invariant]
    pub open spec fn inv(self) -> bool {
        keys_distinct(self.pairs())
    }

    /// The pairs in the order in which their keys were first inserted.
    pub closed spec fn pairs(self) -> Seq<(Seq<char>, Seq<char>)> {
        self.entries.deep_view()
    }

    /// An empty mapping.
    pub fn new() -> (r: Settings)
        ensures
            r.pairs() == Seq::<(Seq<char>, Seq<char>)>::empty(),
            r@ == Map::<Seq<char>, Seq<char>>::empty(),
    {
        let r = Settings { entries: Vec::new() };
        assert(r.pairs() =~= Seq::<(Seq<char>, Seq<char>)>::empty());
        r
    }

    /// The position of `key` among the pairs, if it is there.
    fn position(&self, key: &String) -> (r: Option<usize>)
        ensures
            match r {
                Some(i) => i < self.pairs().len() && self.pairs()[i as int].0 == key@,
                None => forall|i: int| 0 <= i < self.pairs().len() ==> self.pairs()[i].0 != key@,
            },
    {
        let n = self.entries.len();
        let mut i: usize = 0;
        while i < n
            invariant
                n == self.entries@.len(),
                self.pairs() == self.entries.deep_view(),
                i <= n,
                forall|j: int| 0 <= j < i ==> self.pairs()[j].0 != key@,
            decreases n - i,
        {
            if self.entries[i].0 == *key {
                return Some(i);
            }
            i = i + 1;
        }
        None
    }

    /// Sets `key` to `value`, replacing the value it had if it was present.
    pub fn insert(&mut self, key: String, value: String)
        ensures
            final(self)@ == old(self)@.insert(key@, value@),
            match old(self).position_spec(key@) {
                Some(i) => final(self).pairs() == old(self).pairs().update(i, (key@, value@)),
                None => final(self).pairs() == old(self).pairs().push((key@, value@)),
            },
    {
        proof {
            use_type_invariant(&*self);
        }
        let pos = self.position(&key);
        proof {
            match pos {
                Some(i) => self.lemma_position_spec_found(key@, i as int),
                None => self.lemma_position_spec_absent(key@),
            }
        }
        let mut entries: Vec<(String, String)> = Vec::new();
        std::mem::swap(&mut entries, &mut self.entries);
        let ghost ps = entries.deep_view();
        let ghost kv = (key@, value@);
        match pos {
            Some(i) => {
                proof {
                    lemma_map_of_pairs_update(ps, i as int, value@);
                }
                entries.set(i, (key, value));
                assert(entries.deep_view() =~= ps.update(i as int, kv));
            },
            None => {
                entries.push((key, value));
                assert(entries.deep_view() =~= ps.push(kv));
                assert(entries.deep_view().drop_last() =~= ps);
            },
        }
        self.entries = entries;
    }

    /// The value of `key`, if present.
    pub fn get(&self, key: &str) -> (r: Option<&String>)
        ensures
            match r {
                Some(v) => self@.contains_key(key@) && self@[key@] == v@,
                None => !self@.contains_key(key@),
            },
    {
        proof {
            use_type_invariant(self);
        }
        let k = String::from_str(key);
        match self.position(&k) {
            Some(i) => {
                proof {
                    lemma_map_of_pairs_index(self.pairs(), i as int);
                }
                Some(&self.entries[i].1)
            },
            None => {
                proof {
                    lemma_map_of_pairs_dom(self.pairs(), key@);
                }
                None
            },
        }
    }

    /// The number of keys.
    pub fn len(&self) -> (r: usize)
        ensures
            r == self@.len(),
            r == self.pairs().len(),
    {
        proof {
            use_type_invariant(self);
            lemma_map_of_pairs_len(self.pairs());
        }
        self.entries.len()
    }

    /// Whether no key is set.
    pub fn is_empty(&self) -> (r: bool)
        ensures
            r == (self@ == Map::<Seq<char>, Seq<char>>::empty()),
            r == (self.pairs().len() == 0),
    {
        proof {
            use_type_invariant(self);
            if self.pairs().len() > 0 {
                lemma_map_of_pairs_index(self.pairs(), self.pairs().len() - 1);
            } else {
                assert(self@ =~= Map::<Seq<char>, Seq<char>>::empty());
            }
        }
        self.entries.len() == 0
    }

    /// The pairs, in the order in which their keys were first inserted.
    pub fn entries(&self) -> (r: &Vec<(String, String)>)
        ensures
            r.deep_view() == self.pairs(),
    {
        &self.entries
    }

    /// The index of `key` among the pairs, if present.
    pub open spec fn position_spec(self, key: Seq<char>) -> Option<int> {
        if exists|i: int| 0 <= i < self.pairs().len() && self.pairs()[i].0 == key {
            Some(choose|i: int| 0 <= i < self.pairs().len() && self.pairs()[i].0 == key)
        } else {
            None
        }
    }

    proof fn lemma_position_spec_found(self, key: Seq<char>, i: int)
        requires
            keys_distinct(self.pairs()),
            0 <= i < self.pairs().len(),
            self.pairs()[i].0 == key,
        ensures
            self.position_spec(key) == Some(i),
    {
    }

    proof fn lemma_position_spec_absent(self, key: Seq<char>)
        requires
            forall|i: int| 0 <= i < self.pairs().len() ==> self.pairs()[i].0 != key,
        ensures
            self.position_spec(key) is None,
    {
    }
}

impl View for Settings {
    type V = Map<Seq<char>, Seq<char>>;

    open spec fn view(&self) -> Map<Seq<char>, Seq<char>> {
        map_of_pairs(self.pairs())
    }
}

} // verus!
