//! The small keyed tables that the relay and the client keep: sets of
//! connection addresses, and the table from host names to the client that
//! serves each.
use vstd::prelude::*;

verus! {

/// A set of addresses.
pub struct AddrSet {
    items: Vec<String>,
}

/// `k` is one of the strings of `s`.
pub open spec fn holds(s: Seq<String>, k: Seq<char>) -> bool {
    exists|i: int| 0 <= i < s.len() && (#[trigger] s[i])@ == k
}

impl View for AddrSet {
    type V = Set<Seq<char>>;

    closed spec fn view(&self) -> Set<Seq<char>> {
        Set::new(|k: Seq<char>| holds(self.items@, k))
    }
}

impl AddrSet {
    pub fn new() -> (s: AddrSet)
        ensures
            s@ == Set::<Seq<char>>::empty(),
    {
        let s = AddrSet { items: Vec::new() };
        assert(s@ =~= Set::<Seq<char>>::empty());
        s
    }

    pub fn contains(&self, key: &String) -> (b: bool)
        ensures
            b == self@.contains(key@),
    {
        let mut i: usize = 0;
        while i < self.items.len()
            invariant
                i <= self.items@.len(),
                forall|j: int| 0 <= j < i ==> (#[trigger] self.items@[j])@ != key@,
            decreases self.items@.len() - i,
        {
            if self.items[i] == *key {
                assert(holds(self.items@, key@));
                return true;
            }
            i = i + 1;
        }
        false
    }

    pub fn insert(&mut self, key: String)
        ensures
            final(self)@ == old(self)@.insert(key@),
    {
        if !self.contains(&key) {
            let ghost k = key@;
            self.items.push(key);
            assert forall|x: Seq<char>| holds(self.items@, x) == (holds(old(self).items@, x) || x == k) by {
                if holds(old(self).items@, x) {
                    let i = choose|i: int| 0 <= i < old(self).items@.len() && (#[trigger] old(self).items@[i])@ == x;
                    assert(self.items@[i] == old(self).items@[i]);
                }
                if x == k {
                    assert(self.items@[old(self).items@.len() as int]@ == x);
                }
            }
            assert(self@ =~= old(self)@.insert(k));
        } else {
            assert(self@ =~= old(self)@.insert(key@));
        }
    }

    pub fn remove(&mut self, key: &String)
        ensures
            final(self)@ == old(self)@.remove(key@),
    {
        let mut kept: Vec<String> = Vec::new();
        let mut i: usize = 0;
        while i < self.items.len()
            invariant
                i <= self.items@.len(),
                self.items@ == old(self).items@,
                forall|x: Seq<char>|
                    holds(kept@, x) == (x != key@ && exists|j: int|
                        0 <= j < i && (#[trigger] self.items@[j])@ == x),
            decreases self.items@.len() - i,
        {
            let ghost before = kept@;
            if self.items[i] != *key {
                kept.push(self.items[i].clone());
            }
            assert forall|x: Seq<char>|
                holds(kept@, x) == (x != key@ && exists|j: int|
                    0 <= j < i + 1 && (#[trigger] self.items@[j])@ == x) by {
                if holds(kept@, x) {
                    let m = choose|m: int| 0 <= m < kept@.len() && (#[trigger] kept@[m])@ == x;
                    if m < before.len() {
                        assert(before[m] == kept@[m]);
                        assert(holds(before, x));
                    } else {
                        assert(self.items@[i as int]@ == x);
                    }
                }
                if x != key@ && exists|j: int| 0 <= j < i + 1 && (#[trigger] self.items@[j])@ == x {
                    let j = choose|j: int| 0 <= j < i + 1 && (#[trigger] self.items@[j])@ == x;
                    if j < i {
                        assert(holds(before, x));
                        let m = choose|m: int| 0 <= m < before.len() && (#[trigger] before[m])@ == x;
                        assert(kept@[m] == before[m]);
                    } else {
                        assert(kept@[kept@.len() - 1]@ == x);
                    }
                }
            }
            i = i + 1;
        }
        self.items = kept;
        assert(self@ =~= old(self)@.remove(key@));
    }
}

/// Host names and the address that serves each, as views.
pub type HostEntries = Seq<(Seq<char>, Seq<char>)>;

/// The first position at or after `i` whose host is `k`.
pub open spec fn find_key(e: HostEntries, k: Seq<char>, i: int) -> Option<int>
    decreases e.len() - i,
{
    if i < 0 || i >= e.len() {
        None
    } else if e[i].0 == k {
        Some(i)
    } else {
        find_key(e, k, i + 1)
    }
}

/// The address that serves host `k`.
pub open spec fn lookup(e: HostEntries, k: Seq<char>) -> Option<Seq<char>> {
    match find_key(e, k, 0) {
        Some(j) => Some(e[j].1),
        None => None,
    }
}

/// The entries as a map from host to address.
pub open spec fn entries_map(e: HostEntries) -> Map<Seq<char>, Seq<char>> {
    Map::new(|k: Seq<char>| lookup(e, k) is Some, |k: Seq<char>| lookup(e, k).unwrap())
}

proof fn lemma_find_key_bounds(e: HostEntries, k: Seq<char>, i: int)
    requires
        0 <= i,
    ensures
        find_key(e, k, i) matches Some(j) ==> i <= j < e.len() && e[j].0 == k,
        find_key(e, k, i) matches Some(j) ==> forall|m: int| i <= m < j ==> (#[trigger] e[m]).0 != k,
        find_key(e, k, i) is None ==> forall|j: int| i <= j < e.len() ==> (#[trigger] e[j]).0 != k,
    decreases e.len() - i,
{
    if i < e.len() && e[i].0 != k {
        lemma_find_key_bounds(e, k, i + 1);
    }
}

/// Changing the entry at `j` to another host's leaves where `k` is found.
proof fn lemma_find_key_update(e: HostEntries, j: int, x: (Seq<char>, Seq<char>), k: Seq<char>, i: int)
    requires
        0 <= i,
        0 <= j < e.len(),
        e[j].0 != k,
        x.0 != k,
    ensures
        find_key(e.update(j, x), k, i) == find_key(e, k, i),
    decreases e.len() - i,
{
    if i < e.len() && e.update(j, x)[i].0 != k {
        lemma_find_key_update(e, j, x, k, i + 1);
    }
}

/// Appending another host's entry leaves where `k` is found.
proof fn lemma_find_key_push(e: HostEntries, x: (Seq<char>, Seq<char>), k: Seq<char>, i: int)
    requires
        0 <= i,
        x.0 != k,
    ensures
        find_key(e.push(x), k, i) == find_key(e, k, i),
    decreases e.len() - i,
{
    if 0 <= i < e.len() {
        assert(e.push(x)[i] == e[i]);
        if e[i].0 != k {
            lemma_find_key_push(e, x, k, i + 1);
        }
    } else if i == e.len() {
        assert(e.push(x)[i] == x);
        assert(find_key(e.push(x), k, i + 1) is None);
    }
}

/// Changing the first entry of `k` keeps it the first.
proof fn lemma_find_key_update_same(e: HostEntries, j: int, v: Seq<char>, k: Seq<char>, i: int)
    requires
        0 <= i <= j,
        find_key(e, k, i) == Some(j),
    ensures
        find_key(e.update(j, (k, v)), k, i) == Some(j),
    decreases j - i,
{
    lemma_find_key_bounds(e, k, i);
    if i < j {
        assert(e[i].0 != k);
        assert(e.update(j, (k, v))[i] == e[i]);
        lemma_find_key_update_same(e, j, v, k, i + 1);
    } else {
        assert(e.update(j, (k, v))[j] == (k, v));
    }
}

/// Appending `k` to entries without it makes the new entry the first.
proof fn lemma_find_key_push_same(e: HostEntries, v: Seq<char>, k: Seq<char>, i: int)
    requires
        0 <= i <= e.len(),
        find_key(e, k, i) is None,
    ensures
        find_key(e.push((k, v)), k, i) == Some(e.len() as int),
    decreases e.len() - i,
{
    if i < e.len() {
        lemma_find_key_push_same(e, v, k, i + 1);
    }
}

/// `m` without every key that maps to `v`.
pub open spec fn without_value(m: Map<Seq<char>, Seq<char>>, v: Seq<char>) -> Map<
    Seq<char>,
    Seq<char>,
> {
    Map::new(|k: Seq<char>| m.contains_key(k) && m[k] != v, |k: Seq<char>| m[k])
}

/// What the entries kept so far map `x` to, when the first `i` entries have
/// been looked at and those that map to `v` are dropped.
spec fn kept_lookup(e: HostEntries, x: Seq<char>, i: int, v: Seq<char>) -> Option<Seq<char>> {
    match find_key(e, x, 0) {
        Some(j) => if j < i && e[j].1 != v {
            Some(e[j].1)
        } else {
            None
        },
        None => None,
    }
}

/// The host table.
pub struct HostTable {
    entries: Vec<(String, String)>,
}

/// The entries as views.
pub open spec fn entry_views(e: Seq<(String, String)>) -> HostEntries {
    e.map_values(|p: (String, String)| (p.0@, p.1@))
}

impl View for HostTable {
    type V = Map<Seq<char>, Seq<char>>;

    closed spec fn view(&self) -> Map<Seq<char>, Seq<char>> {
        entries_map(entry_views(self.entries@))
    }
}

impl HostTable {
    pub fn new() -> (t: HostTable)
        ensures
            t@ == Map::<Seq<char>, Seq<char>>::empty(),
    {
        let t = HostTable { entries: Vec::new() };
        assert(t@ =~= Map::<Seq<char>, Seq<char>>::empty());
        t
    }

    fn position(&self, host: &String) -> (res: Option<usize>)
        ensures
            res matches Some(j) ==> find_key(entry_views(self.entries@), host@, 0) == Some(j as int),
            res is None ==> find_key(entry_views(self.entries@), host@, 0) is None,
    {
        let ghost e = entry_views(self.entries@);
        let mut i: usize = 0;
        while i < self.entries.len()
            invariant
                i <= self.entries@.len(),
                e == entry_views(self.entries@),
                find_key(e, host@, 0) == find_key(e, host@, i as int),
            decreases self.entries@.len() - i,
        {
            if self.entries[i].0 == *host {
                return Some(i);
            }
            i = i + 1;
        }
        None
    }

    /// The address that serves `host`.
    pub fn get(&self, host: &String) -> (res: Option<String>)
        ensures
            res matches Some(a) ==> self@.contains_key(host@) && self@[host@] == a@,
            res is None ==> !self@.contains_key(host@),
    {
        proof {
            lemma_find_key_bounds(entry_views(self.entries@), host@, 0);
        }
        match self.position(host) {
            Some(j) => {
                let a = self.entries[j].1.clone();
                assert(entry_views(self.entries@)[j as int] == (self.entries@[j as int].0@, self.entries@[j as int].1@));
                Some(a)
            },
            None => None,
        }
    }

    /// Makes `addr` the address that serves `host`.
    pub fn insert(&mut self, host: String, addr: String)
        ensures
            final(self)@ == old(self)@.insert(host@, addr@),
    {
        let ghost e = entry_views(old(self).entries@);
        let ghost k = host@;
        let ghost v = addr@;
        match self.position(&host) {
            Some(j) => {
                proof {
                    lemma_find_key_bounds(e, k, 0);
                }
                self.entries.set(j, (host, addr));
                let ghost e2 = entry_views(self.entries@);
                assert(e2 =~= e.update(j as int, (k, v)));
                assert forall|x: Seq<char>| x != k implies lookup(e2, x) == lookup(e, x) by {
                    lemma_find_key_update(e, j as int, (k, v), x, 0);
                    lemma_find_key_bounds(e, x, 0);
                }
                proof {
                    lemma_find_key_update_same(e, j as int, v, k, 0);
                }
            },
            None => {
                self.entries.push((host, addr));
                let ghost e2 = entry_views(self.entries@);
                assert(e2 =~= e.push((k, v)));
                assert forall|x: Seq<char>| x != k implies lookup(e2, x) == lookup(e, x) by {
                    lemma_find_key_push(e, (k, v), x, 0);
                    lemma_find_key_bounds(e, x, 0);
                }
                proof {
                    lemma_find_key_push_same(e, v, k, 0);
                }
            },
        }
        assert(self@ =~= old(self)@.insert(k, v));
    }
    /// Drops every host that `addr` serves.
    pub fn remove_value(&mut self, addr: &String)
        ensures
            final(self)@ == without_value(old(self)@, addr@),
    {
        let ghost e = entry_views(self.entries@);
        let ghost v = addr@;
        let mut kept: Vec<(String, String)> = Vec::new();
        assert forall|x: Seq<char>| lookup(entry_views(kept@), x) == kept_lookup(e, x, 0, v) by {
            lemma_find_key_bounds(e, x, 0);
            assert(find_key(entry_views(kept@), x, 0) is None);
        }
        let mut i: usize = 0;
        while i < self.entries.len()
            invariant
                i <= self.entries@.len(),
                e == entry_views(self.entries@),
                v == addr@,
                forall|x: Seq<char>| lookup(entry_views(kept@), x) == kept_lookup(e, x, i as int, v),
            decreases self.entries@.len() - i,
        {
            let ghost k = e[i as int].0;
            let ghost before = entry_views(kept@);
            let ghost mut pushed = false;
            proof {
                lemma_find_key_bounds(e, k, 0);
            }
            let first = self.position(&self.entries[i].0);
            let is_first = match first {
                Some(f) => f == i,
                None => false,
            };
            assert(is_first <==> find_key(e, k, 0) == Some(i as int));
            assert(e[i as int] == (self.entries@[i as int].0@, self.entries@[i as int].1@));
            let same = self.entries[i].1 == *addr;
            assert(same == (self.entries@[i as int].1@ == v));
            let keep = is_first && !same;
            if keep {
                let key = self.entries[i].0.clone();
                let value = self.entries[i].1.clone();
                kept.push((key, value));
                assert(entry_views(kept@) =~= before.push((k, e[i as int].1)));
                proof {
                    assert(lookup(before, k) == kept_lookup(e, k, i as int, v));
                    lemma_find_key_push_same(before, e[i as int].1, k, 0);
                    pushed = true;
                }
            }
            assert(pushed == keep);
            assert(!pushed ==> entry_views(kept@) == before);
            assert(pushed ==> entry_views(kept@) == before.push((k, e[i as int].1)));
            assert(keep == (find_key(e, k, 0) == Some(i as int) && e[i as int].1 != v));
            assert forall|x: Seq<char>|
                lookup(entry_views(kept@), x) == kept_lookup(e, x, i + 1, v) by {
                lemma_find_key_bounds(e, x, 0);
                assert(lookup(before, x) == kept_lookup(e, x, i as int, v));
                assert(e[i as int].0 == k);
                if x == k {
                    assert(find_key(e, x, 0) is Some);
                    let j = find_key(e, x, 0).unwrap();
                    assert(j <= i);
                    if j == i as int && !pushed {
                        assert(e[i as int].1 == v);
                        assert(kept_lookup(e, x, i + 1, v) is None);
                        assert(lookup(entry_views(kept@), x) is None);
                    } else if j == i as int {
                        assert(kept_lookup(e, x, i + 1, v) == Some(e[i as int].1));
                        assert(find_key(entry_views(kept@), x, 0) == Some(before.len() as int));
                        assert(entry_views(kept@)[before.len() as int] == (k, e[i as int].1));
                        assert(lookup(entry_views(kept@), x) == Some(e[i as int].1));
                    } else {
                        assert(kept_lookup(e, x, i + 1, v) == kept_lookup(e, x, i as int, v));
                    }
                }
                if x != k {
                    assert(kept_lookup(e, x, i + 1, v) == kept_lookup(e, x, i as int, v));
                    if pushed {
                        lemma_find_key_push(before, (k, e[i as int].1), x, 0);
                        lemma_find_key_bounds(before, x, 0);
                        if find_key(before, x, 0) is Some {
                            let j2 = find_key(before, x, 0).unwrap();
                            assert(entry_views(kept@)[j2] == before[j2]);
                        }
                    }
                }
            }
            i = i + 1;
        }
        self.entries = kept;
        assert forall|x: Seq<char>|
            #![trigger lookup(e, x)]
            kept_lookup(e, x, e.len() as int, v) == (if lookup(e, x) is Some && lookup(e, x).unwrap()
                != v {
                lookup(e, x)
            } else {
                None
            }) by {
            lemma_find_key_bounds(e, x, 0);
        }
        assert(self@ =~= without_value(old(self)@, v));
    }
}

} // verus!
