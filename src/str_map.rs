//! A mapping from names to values in which the last write of a name wins,
//! used for header fields and route parameters.
use vstd::prelude::*;

verus! {

/// The value that the last entry named `k` gives, if any entry is named `k`.
pub open spec fn lookup(e: Seq<(Seq<char>, Seq<char>)>, k: Seq<char>) -> Option<Seq<char>>
    decreases e.len(),
{
    if e.len() == 0 {
        None
    } else if e.last().0 == k {
        Some(e.last().1)
    } else {
        lookup(e.drop_last(), k)
    }
}

/// The mapping that a sequence of writes leaves.
pub open spec fn map_of(e: Seq<(Seq<char>, Seq<char>)>) -> Map<Seq<char>, Seq<char>> {
    Map::new(|k: Seq<char>| lookup(e, k) is Some, |k: Seq<char>| lookup(e, k)->0)
}

/// Whether entry `i` of `e` is the last one with its name.
pub open spec fn is_live(e: Seq<(Seq<char>, Seq<char>)>, i: int) -> bool {
    forall|j: int| i < j < e.len() ==> e[j].0 != e[i].0
}

/// The entry that `lookup` finds for `k` is the last one named `k`.
pub proof fn lemma_lookup(e: Seq<(Seq<char>, Seq<char>)>, k: Seq<char>)
    ensures
        lookup(e, k) is None <==> forall|j: int| 0 <= j < e.len() ==> e[j].0 != k,
        forall|i: int|
            0 <= i < e.len() && e[i].0 == k && is_live(e, i) ==> lookup(e, k) == Some(e[i].1),
    decreases e.len(),
{
    if e.len() > 0 {
        lemma_lookup(e.drop_last(), k);
        assert forall|i: int|
            0 <= i < e.len() && e[i].0 == k && is_live(e, i) implies lookup(e, k) == Some(
                e[i].1,
            ) by {
            if i < e.len() - 1 {
                assert(e.drop_last()[i] == e[i]);
                assert(is_live(e.drop_last(), i));
            }
        }
        if forall|j: int| 0 <= j < e.len() ==> e[j].0 != k {
            assert(forall|j: int| 0 <= j < e.drop_last().len() ==> e.drop_last()[j].0 != k);
        }
        if lookup(e, k) is None {
            assert forall|j: int| 0 <= j < e.len() implies e[j].0 != k by {
                if j < e.len() - 1 {
                    assert(e.drop_last()[j] == e[j]);
                }
            }
        }
    }
}

/// Name/value pairs of text, kept in the order of their writes.
pub struct StrMap {
    entries: Vec<(String, String)>,
}

impl View for StrMap {
    type V = Map<Seq<char>, Seq<char>>;

    open spec fn view(&self) -> Map<Seq<char>, Seq<char>> {
        map_of(self.writes())
    }
}

impl StrMap {
    /// The writes made to the map, oldest first.
    pub closed spec fn writes(&self) -> Seq<(Seq<char>, Seq<char>)> {
        self.entries@.map_values(|p: (String, String)| (p.0@, p.1@))
    }

    /// An empty map.
    pub fn new() -> (r: StrMap)
        ensures
            r.writes() == Seq::<(Seq<char>, Seq<char>)>::empty(),
            r@ == Map::<Seq<char>, Seq<char>>::empty(),
    {
        let r = StrMap { entries: Vec::new() };
        assert(r.writes() =~= Seq::<(Seq<char>, Seq<char>)>::empty());
        assert(r@ =~= Map::<Seq<char>, Seq<char>>::empty());
        r
    }

    /// Sets `key` to `value`, replacing an earlier value of `key`.
    pub fn insert(&mut self, key: String, value: String)
        ensures
            final(self).writes() == old(self).writes().push((key@, value@)),
            final(self)@ == old(self)@.insert(key@, value@),
    {
        let ghost before = self.writes();
        self.entries.push((key, value));
        assert(self.writes() =~= before.push((key@, value@)));
        assert(self.writes().drop_last() =~= before);
        assert(self@ =~= map_of(before).insert(key@, value@));
    }

    /// The number of writes made to the map.
    pub fn write_count(&self) -> (r: usize)
        ensures
            r == self.writes().len(),
    {
        self.entries.len()
    }

    /// The name and value of write `i`.
    pub fn write_at(&self, i: usize) -> (r: (&String, &String))
        requires
            i < self.writes().len(),
        ensures
            (r.0@, r.1@) == self.writes()[i as int],
    {
        (&self.entries[i].0, &self.entries[i].1)
    }

    /// Whether write `i` is the last write of its name.
    pub fn is_last_write(&self, i: usize) -> (r: bool)
        requires
            i < self.writes().len(),
        ensures
            r == is_live(self.writes(), i as int),
    {
        let n = self.entries.len();
        assert(self.writes().len() == n);
        let mut j: usize = i + 1;
        while j < n
            invariant
                i < j <= n == self.entries.len(),
                forall|m: int| i < m < j ==> self.writes()[m].0 != self.writes()[i as int].0,
            decreases n - j,
        {
            if self.entries[j].0 == self.entries[i].0 {
                assert(self.writes()[j as int].0 == self.writes()[i as int].0);
                return false;
            }
            j = j + 1;
        }
        true
    }

    /// The value of `key`, if it is set.
    pub fn get(&self, key: &str) -> (r: Option<&String>)
        ensures
            r is Some <==> self@.contains_key(key@),
            r matches Some(v) ==> v@ == self@[key@],
    {
        let k = String::from_str(key);
        let mut i: usize = self.entries.len();
        while i > 0
            invariant
                i <= self.entries.len(),
                k@ == key@,
                forall|j: int| i <= j < self.writes().len() ==> self.writes()[j].0 != key@,
            decreases i,
        {
            if self.entries[i - 1].0 == k {
                proof {
                    lemma_lookup(self.writes(), key@);
                    assert(self.writes()[i - 1].0 == key@);
                    assert(is_live(self.writes(), i - 1));
                }
                return Some(&self.entries[i - 1].1);
            }
            i = i - 1;
        }
        proof {
            lemma_lookup(self.writes(), key@);
        }
        None
    }

    /// Whether `key` is set.
    pub fn contains_key(&self, key: &str) -> (r: bool)
        ensures
            r == self@.contains_key(key@),
    {
        self.get(key).is_some()
    }
}

} // verus!
