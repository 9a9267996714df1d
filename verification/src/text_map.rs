//! A map from texts, kept as a list.
use crate::text::same_text;
use vstd::prelude::*;

verus! {

/// A map from texts. The first entry of a text counts.
#[derive(Debug)]
pub struct TextMap<V> {
    entries: Vec<(String, V)>,
}

/// The map of the first `k` entries.
spec fn map_of<V>(list: Seq<(String, V)>, k: int) -> Map<Seq<char>, V>
    decreases k,
{
    if k <= 0 || k > list.len() {
        Map::empty()
    } else {
        let before = map_of(list, k - 1);
        if before.dom().contains(list[k - 1].0@) {
            before
        } else {
            before.insert(list[k - 1].0@, list[k - 1].1)
        }
    }
}

proof fn absent<V>(list: Seq<(String, V)>, key: Seq<char>, k: int)
    requires
        0 <= k <= list.len(),
        forall|j: int| 0 <= j < k ==> (#[trigger] list[j]).0@ != key,
    ensures
        !map_of(list, k).dom().contains(key),
    decreases k,
{
    if k > 0 {
        absent(list, key, k - 1);
        assert(list[k - 1].0@ != key);
    }
}

proof fn first<V>(list: Seq<(String, V)>, i: int, k: int)
    requires
        0 <= i < k <= list.len(),
        forall|j: int| 0 <= j < i ==> (#[trigger] list[j]).0@ != list[i].0@,
    ensures
        map_of(list, k).dom().contains(list[i].0@),
        map_of(list, k)[list[i].0@] == list[i].1,
    decreases k,
{
    if i == k - 1 {
        absent(list, list[i].0@, k - 1);
    } else {
        first(list, i, k - 1);
    }
}

proof fn prefix<V>(a: Seq<(String, V)>, b: Seq<(String, V)>, k: int)
    requires
        0 <= k <= a.len(),
        k <= b.len(),
        forall|j: int| 0 <= j < k ==> a[j] == b[j],
    ensures
        map_of(a, k) == map_of(b, k),
    decreases k,
{
    if k > 0 {
        prefix(a, b, k - 1);
    }
}

proof fn updated<V>(list: Seq<(String, V)>, i: int, v: (String, V), k: int)
    requires
        0 <= i < list.len(),
        0 <= k <= list.len(),
        v.0@ == list[i].0@,
        forall|j: int| 0 <= j < i ==> (#[trigger] list[j]).0@ != list[i].0@,
    ensures
        map_of(list.update(i, v), k) == if i < k {
            map_of(list, k).insert(v.0@, v.1)
        } else {
            map_of(list, k)
        },
    decreases k,
{
    if k > 0 {
        updated(list, i, v, k - 1);
        if i == k - 1 {
            absent(list, v.0@, k - 1);
            assert(map_of(list.update(i, v), k) =~= map_of(list, k).insert(v.0@, v.1));
        } else if i < k - 1 {
            first(list, i, k - 1);
            assert(map_of(list.update(i, v), k) =~= map_of(list, k).insert(v.0@, v.1));
        }
    }
}

proof fn without<V>(list: Seq<(String, V)>, i: int, k: int)
    requires
        0 <= i < k <= list.len(),
    ensures
        map_of(list.remove(i), k - 1).remove(list[i].0@) == map_of(list, k).remove(list[i].0@),
    decreases k,
{
    let p = list[i].0@;
    let less = list.remove(i);
    if k == i + 1 {
        prefix(less, list, i);
        assert(map_of(less, k - 1).remove(p) =~= map_of(list, k).remove(p));
    } else {
        without(list, i, k - 1);
        let e = list[k - 1];
        assert(less[k - 2] == e);
        let m = map_of(list, k - 1);
        let n = map_of(less, k - 2);
        assert(n.remove(p) == m.remove(p));
        if e.0@ != p {
            assert(m.dom().contains(e.0@) == m.remove(p).dom().contains(e.0@));
            assert(n.dom().contains(e.0@) == n.remove(p).dom().contains(e.0@));
            assert(m.insert(e.0@, e.1).remove(p) =~= m.remove(p).insert(e.0@, e.1));
            assert(n.insert(e.0@, e.1).remove(p) =~= n.remove(p).insert(e.0@, e.1));
        } else {
            assert(m.insert(e.0@, e.1).remove(p) =~= m.remove(p));
            assert(n.insert(e.0@, e.1).remove(p) =~= n.remove(p));
        }
    }
}

impl<V> TextMap<V> {
    pub closed spec fn view(&self) -> Map<Seq<char>, V> {
        map_of(self.entries@, self.entries@.len() as int)
    }

    pub fn new() -> (m: TextMap<V>)
        ensures
            m@ == Map::<Seq<char>, V>::empty(),
    {
        TextMap { entries: Vec::new() }
    }

    fn find(&self, key: &str) -> (res: Option<usize>)
        ensures
            match res {
                Some(k) => k < self.entries.len() && self.entries@[k as int].0@ == key@ && forall|
                    j: int,
                |
                    0 <= j < k ==> (#[trigger] self.entries@[j]).0@ != key@,
                None => forall|j: int|
                    0 <= j < self.entries.len() ==> (#[trigger] self.entries@[j]).0@ != key@,
            },
    {
        let mut k: usize = 0;
        while k < self.entries.len()
            invariant
                k <= self.entries.len(),
                forall|j: int| 0 <= j < k ==> (#[trigger] self.entries@[j]).0@ != key@,
            decreases self.entries.len() - k,
        {
            if same_text(self.entries[k].0.as_str(), key) {
                return Some(k);
            }
            k += 1;
        }
        None
    }

    /// The value of a text.
    pub fn get(&self, key: &str) -> (res: Option<&V>)
        ensures
            match res {
                Some(v) => self@.dom().contains(key@) && self@[key@] == *v,
                None => !self@.dom().contains(key@),
            },
    {
        let n: usize = self.entries.len();
        match self.find(key) {
            Some(k) => {
                proof {
                    first(self.entries@, k as int, n as int);
                }
                Some(&self.entries[k].1)
            },
            None => {
                proof {
                    absent(self.entries@, key@, n as int);
                }
                None
            },
        }
    }

    pub fn contains(&self, key: &str) -> (res: bool)
        ensures
            res == self@.dom().contains(key@),
    {
        self.get(key).is_some()
    }

    /// Gives a text a value.
    pub fn insert(&mut self, key: &str, value: V)
        ensures
            final(self)@ == old(self)@.insert(key@, value),
    {
        let n: usize = self.entries.len();
        match self.find(key) {
            Some(k) => {
                let ghost list = self.entries@;
                let entry = (key.to_owned(), value);
                proof {
                    updated(list, k as int, entry, n as int);
                }
                self.entries.set(k, entry);
            },
            None => {
                let ghost list = self.entries@;
                self.entries.push((key.to_owned(), value));
                proof {
                    absent(list, key@, n as int);
                    prefix(list, self.entries@, n as int);
                }
            },
        }
    }

    /// Takes the value of a text away.
    pub fn remove(&mut self, key: &str)
        ensures
            final(self)@ == old(self)@.remove(key@),
    {
        let ghost goal = self@.remove(key@);
        let mut k: usize = 0;
        while k < self.entries.len()
            invariant
                k <= self.entries.len(),
                forall|j: int| 0 <= j < k ==> (#[trigger] self.entries@[j]).0@ != key@,
                self@.remove(key@) == goal,
                goal == old(self)@.remove(key@),
            decreases self.entries.len() - k,
        {
            if same_text(self.entries[k].0.as_str(), key) {
                let ghost list = self.entries@;
                let _ = self.entries.remove(k);
                proof {
                    without(list, k as int, list.len() as int);
                }
            } else {
                k += 1;
            }
        }
        proof {
            absent(self.entries@, key@, k as int);
            assert(self@ =~= self@.remove(key@));
        }
    }

    /// Takes the value of a text away and hands it out.
    pub fn take(&mut self, key: &str) -> (res: Option<V>)
        ensures
            final(self)@ == old(self)@.remove(key@),
            match res {
                Some(v) => old(self)@.dom().contains(key@) && old(self)@[key@] == v,
                None => !old(self)@.dom().contains(key@),
            },
    {
        let n: usize = self.entries.len();
        match self.find(key) {
            Some(k) => {
                let ghost list = self.entries@;
                proof {
                    first(list, k as int, n as int);
                    without(list, k as int, n as int);
                }
                let (_, v) = self.entries.remove(k);
                self.remove(key);
                Some(v)
            },
            None => {
                proof {
                    absent(self.entries@, key@, n as int);
                    assert(self@ =~= self@.remove(key@));
                }
                None
            },
        }
    }
}

} // verus!
