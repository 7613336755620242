//! A map keyed by name: the last registration for a name wins, and the entry it
//! replaces is handed back.
use vstd::prelude::*;

verus! {

/// Whether no two entries share a name.
pub open spec fn unique_names<T>(e: Seq<(String, T)>) -> bool {
    forall|i: int, j: int|
        0 <= i < e.len() && 0 <= j < e.len() && i != j ==> #[trigger] e[i].0@ != #[trigger] e[j].0@
}

/// Whether some entry has name `k`.
pub open spec fn has_name<T>(e: Seq<(String, T)>, k: Seq<char>) -> bool {
    exists|i: int| 0 <= i < e.len() && #[trigger] e[i].0@ == k
}

/// The map from name to entry that the entries stand for.
pub open spec fn entries_map<T>(e: Seq<(String, T)>) -> Map<Seq<char>, T> {
    Map::new(
        |k: Seq<char>| has_name(e, k),
        |k: Seq<char>| e[choose|i: int| 0 <= i < e.len() && #[trigger] e[i].0@ == k].1,
    )
}

proof fn lemma_entries_map_at<T>(e: Seq<(String, T)>, j: int)
    requires
        unique_names(e),
        0 <= j < e.len(),
    ensures
        entries_map(e).contains_key(e[j].0@),
        entries_map(e)[e[j].0@] == e[j].1,
{
    let k = e[j].0@;
    assert(has_name(e, k));
    let i = choose|i: int| 0 <= i < e.len() && #[trigger] e[i].0@ == k;
    assert(i == j);
}

/// Entries keyed by name: the tools of an executor.
pub struct Registry<T> {
    entries: Vec<(String, T)>,
}

impl<T> View for Registry<T> {
    type V = Map<Seq<char>, T>;

    closed spec fn view(&self) -> Map<Seq<char>, T> {
        entries_map(self.entries@)
    }
}

impl<T> Registry<T> {
    /// Names are unique among the entries.
    pub closed spec fn wf(&self) -> bool {
        unique_names(self.entries@)
    }

    /// An empty registry.
    pub fn new() -> (r: Self)
        ensures
            r.wf(),
            r@ == Map::<Seq<char>, T>::empty(),
    {
        let r = Registry { entries: Vec::new() };
        assert(r@ =~= Map::<Seq<char>, T>::empty());
        r
    }

    fn find(&self, name: &str) -> (r: Option<usize>)
        requires
            self.wf(),
        ensures
            match r {
                Some(j) => j < self.entries@.len() && self.entries@[j as int].0@ == name@,
                None => !has_name(self.entries@, name@),
            },
    {
        let mut j: usize = 0;
        while j < self.entries.len()
            invariant
                j <= self.entries@.len(),
                forall|i: int| 0 <= i < j ==> #[trigger] self.entries@[i].0@ != name@,
            decreases self.entries@.len() - j,
        {
            if same_text(self.entries[j].0.as_str(), name) {
                return Some(j);
            }
            j += 1;
        }
        None
    }

    /// Whether an entry is registered under `name`.
    pub fn contains(&self, name: &str) -> (r: bool)
        requires
            self.wf(),
        ensures
            r == self@.contains_key(name@),
    {
        match self.find(name) {
            Some(j) => {
                proof { lemma_entries_map_at(self.entries@, j as int); }
                true
            },
            None => false,
        }
    }

    /// The entry registered under `name`, if any.
    pub fn get(&self, name: &str) -> (r: Option<&T>)
        requires
            self.wf(),
        ensures
            r is Some == self@.contains_key(name@),
            r is Some ==> *r->Some_0 == self@[name@],
    {
        match self.find(name) {
            Some(j) => {
                proof { lemma_entries_map_at(self.entries@, j as int); }
                Some(&self.entries[j].1)
            },
            None => None,
        }
    }

    /// Registers `tool` under `name`, replacing and returning the entry that
    /// was registered under that name before, if any.
    pub fn add(&mut self, name: String, tool: T) -> (r: Option<T>)
        requires
            old(self).wf(),
        ensures
            final(self).wf(),
            final(self)@ == old(self)@.insert(name@, tool),
            r is Some == old(self)@.contains_key(name@),
            r is Some ==> r->Some_0 == old(self)@[name@],
    {
        let ghost e = self.entries@;
        let ghost k = name@;
        match self.find(name.as_str()) {
            Some(j) => {
                proof { lemma_entries_map_at(e, j as int); }
                let mut entry = (name, tool);
                self.entries.set_and_swap(j, &mut entry);
                let ghost e2 = self.entries@;
                assert(unique_names(e2)) by {
                    assert forall|a: int, b: int|
                        0 <= a < e2.len() && 0 <= b < e2.len() && a != b implies #[trigger] e2[a].0@ != #[trigger] e2[b].0@ by {
                        assert(e[a].0@ != e[b].0@);
                    }
                }
                assert forall|x: Seq<char>| #[trigger] has_name(e2, x) == has_name(e, x) by {
                    if has_name(e, x) {
                        let i = choose|i: int| 0 <= i < e.len() && #[trigger] e[i].0@ == x;
                        assert(e2[i].0@ == x);
                    }
                    if has_name(e2, x) {
                        let i = choose|i: int| 0 <= i < e2.len() && #[trigger] e2[i].0@ == x;
                        assert(e[i].0@ == x);
                    }
                }
                assert forall|x: Seq<char>| #[trigger] has_name(e2, x) implies entries_map(e2)[x]
                    == entries_map(e).insert(k, tool)[x] by {
                    let i = choose|i: int| 0 <= i < e2.len() && #[trigger] e2[i].0@ == x;
                    lemma_entries_map_at(e2, i);
                    if x != k {
                        lemma_entries_map_at(e, i);
                    }
                }
                assert(entries_map(e2) =~= entries_map(e).insert(k, tool));
                Some(entry.1)
            },
            None => {
                self.entries.push((name, tool));
                let ghost e2 = self.entries@;
                assert(unique_names(e2)) by {
                    assert forall|a: int, b: int|
                        0 <= a < e2.len() && 0 <= b < e2.len() && a != b implies #[trigger] e2[a].0@ != #[trigger] e2[b].0@ by {
                        if a < e.len() && b < e.len() {
                            assert(e[a].0@ != e[b].0@);
                        } else if a < e.len() {
                            assert(e[a].0@ != k);
                        } else {
                            assert(e[b].0@ != k);
                        }
                    }
                }
                assert forall|x: Seq<char>| #[trigger] has_name(e2, x) == (has_name(e, x) || x == k) by {
                    if has_name(e, x) {
                        let i = choose|i: int| 0 <= i < e.len() && #[trigger] e[i].0@ == x;
                        assert(e2[i].0@ == x);
                    }
                    if x == k {
                        assert(e2[e.len() as int].0@ == x);
                    }
                    if has_name(e2, x) && x != k {
                        let i = choose|i: int| 0 <= i < e2.len() && #[trigger] e2[i].0@ == x;
                        assert(e[i].0@ == x);
                    }
                }
                assert forall|x: Seq<char>| #[trigger] has_name(e2, x) implies entries_map(e2)[x]
                    == entries_map(e).insert(k, tool)[x] by {
                    let i = choose|i: int| 0 <= i < e2.len() && #[trigger] e2[i].0@ == x;
                    lemma_entries_map_at(e2, i);
                    if x != k {
                        lemma_entries_map_at(e, i);
                    }
                }
                assert(entries_map(e2) =~= entries_map(e).insert(k, tool));
                None
            },
        }
    }
}

/// Whether two strings hold the same characters.
pub fn same_text(a: &str, b: &str) -> (r: bool)
    ensures
        r == (a@ == b@),
{
    let n = a.unicode_len();
    if n != b.unicode_len() {
        return false;
    }
    let mut i: usize = 0;
    while i < n
        invariant
            n == a@.len(),
            n == b@.len(),
            i <= n,
            a@.subrange(0, i as int) == b@.subrange(0, i as int),
        decreases n - i,
    {
        if a.get_char(i) != b.get_char(i) {
            assert(a@[i as int] != b@[i as int]);
            return false;
        }
        assert(a@.subrange(0, i as int + 1) =~= a@.subrange(0, i as int).push(a@[i as int]));
        assert(b@.subrange(0, i as int + 1) =~= b@.subrange(0, i as int).push(b@[i as int]));
        i += 1;
    }
    assert(a@ =~= a@.subrange(0, n as int));
    assert(b@ =~= b@.subrange(0, n as int));
    true
}

} // verus!
