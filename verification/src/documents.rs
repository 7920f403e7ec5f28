//! The open documents of the server: the text of each by its URI.
use vstd::prelude::*;

use crate::text::str_eq;

verus! {

/// The (URI, text) pairs that a sequence of entries stands for.
pub open spec fn pairs_view(v: Seq<(String, String)>) -> Seq<(Seq<char>, Seq<char>)> {
    v.map_values(|e: (String, String)| (e.0@, e.1@))
}

/// No URI occurs twice.
pub open spec fn keys_distinct(s: Seq<(Seq<char>, Seq<char>)>) -> bool {
    forall|i: int, j: int| 0 <= i < j < s.len() ==> #[trigger] s[i].0 != #[trigger] s[j].0
}

/// The map from URI to text that a sequence of distinct entries stands for.
pub open spec fn entries_map(s: Seq<(Seq<char>, Seq<char>)>) -> Map<Seq<char>, Seq<char>> {
    Map::new(
        |k: Seq<char>| exists|i: int| 0 <= i < s.len() && #[trigger] s[i].0 == k,
        |k: Seq<char>| s[choose|i: int| 0 <= i < s.len() && #[trigger] s[i].0 == k].1,
    )
}

/// The texts of the open documents, by URI.
pub struct DocumentStore {
    entries: Vec<(String, String)>,
}

impl View for DocumentStore {
    type V = Map<Seq<char>, Seq<char>>;

    closed spec fn view(&self) -> Map<Seq<char>, Seq<char>> {
        entries_map(pairs_view(self.entries@))
    }
}

proof fn lemma_entries_map_at(s: Seq<(Seq<char>, Seq<char>)>, i: int)
    requires
        keys_distinct(s),
        0 <= i < s.len(),
    ensures
        entries_map(s).contains_key(s[i].0),
        entries_map(s)[s[i].0] == s[i].1,
{
    let k = s[i].0;
    assert(exists|j: int| 0 <= j < s.len() && #[trigger] s[j].0 == k);
    let j = choose|j: int| 0 <= j < s.len() && #[trigger] s[j].0 == k;
    if j != i {
        if j < i {
            assert(s[j].0 != s[i].0);
        } else {
            assert(s[i].0 != s[j].0);
        }
    }
}

proof fn lemma_entries_map_ext(
    s: Seq<(Seq<char>, Seq<char>)>,
    m: Map<Seq<char>, Seq<char>>,
)
    requires
        keys_distinct(s),
        forall|i: int| 0 <= i < s.len() ==> m.contains_key(#[trigger] s[i].0) && m[s[i].0] == s[i].1,
        forall|k: Seq<char>| #[trigger] m.contains_key(k) ==> exists|i: int|
            0 <= i < s.len() && #[trigger] s[i].0 == k,
    ensures
        entries_map(s) == m,
{
    assert forall|k: Seq<char>| #[trigger] entries_map(s).contains_key(k) implies m.contains_key(k)
        && entries_map(s)[k] == m[k] by {
        let i = choose|i: int| 0 <= i < s.len() && #[trigger] s[i].0 == k;
        lemma_entries_map_at(s, i);
    }
    assert forall|k: Seq<char>| #[trigger] m.contains_key(k) implies entries_map(s).contains_key(
        k,
    ) by {
        let i = choose|i: int| 0 <= i < s.len() && #[trigger] s[i].0 == k;
        lemma_entries_map_at(s, i);
    }
    assert(entries_map(s) =~= m);
}

impl DocumentStore {
    #[verifier::type_invariant]
    spec fn inv(self) -> bool {
        keys_distinct(pairs_view(self.entries@))
    }

    /// A store with no documents.
    pub fn new() -> (res: Self)
        ensures
            res@ == Map::<Seq<char>, Seq<char>>::empty(),
    {
        let res = DocumentStore { entries: Vec::new() };
        assert(res@ =~= Map::<Seq<char>, Seq<char>>::empty());
        res
    }

    /// The index of the entry for `uri`.
    fn find(&self, uri: &str) -> (res: Option<usize>)
        ensures
            match res {
                Some(i) => i < self.entries@.len() && self.entries@[i as int].0@ == uri@,
                None => forall|i: int|
                    0 <= i < self.entries@.len() ==> #[trigger] self.entries@[i].0@ != uri@,
            },
    {
        let mut i: usize = 0;
        while i < self.entries.len()
            invariant
                i <= self.entries@.len(),
                forall|j: int| 0 <= j < i ==> #[trigger] self.entries@[j].0@ != uri@,
            decreases self.entries.len() - i,
        {
            if str_eq(self.entries[i].0.as_str(), uri) {
                return Some(i);
            }
            i = i + 1;
        }
        None
    }

    /// The text of the document at `uri`, if it is open.
    pub fn get(&self, uri: &str) -> (res: Option<&String>)
        ensures
            match res {
                Some(t) => self@.contains_key(uri@) && self@[uri@] == t@,
                None => !self@.contains_key(uri@),
            },
    {
        proof {
            use_type_invariant(self);
        }
        let ghost s = pairs_view(self.entries@);
        match self.find(uri) {
            Some(i) => {
                proof {
                    lemma_entries_map_at(s, i as int);
                }
                Some(&self.entries[i].1)
            },
            None => {
                proof {
                    if entries_map(s).contains_key(uri@) {
                        let j = choose|j: int| 0 <= j < s.len() && #[trigger] s[j].0 == uri@;
                        assert(self.entries@[j].0@ != uri@);
                    }
                }
                None
            },
        }
    }

    /// Records `text` as the text of the document at `uri`, in place of
    /// any earlier text.
    pub fn insert(&mut self, uri: String, text: String)
        ensures
            final(self)@ == old(self)@.insert(uri@, text@),
    {
        proof {
            use_type_invariant(&*self);
        }
        let ghost s = pairs_view(self.entries@);
        let ghost m = entries_map(s).insert(uri@, text@);
        let ghost k = uri@;
        let ghost v = text@;
        match self.find(uri.as_str()) {
            Some(i) => {
                let ghost s2 = s.update(i as int, (k, v));
                proof {
                    assert(pairs_view(self.entries@.update(i as int, (uri, text))) =~= s2);
                    assert forall|a: int, b: int| 0 <= a < b < s2.len() implies #[trigger] s2[a].0
                        != #[trigger] s2[b].0 by {
                        assert(s[a].0 != s[b].0);
                    }
                    assert forall|j: int| 0 <= j < s2.len() implies m.contains_key(
                        #[trigger] s2[j].0,
                    ) && m[s2[j].0] == s2[j].1 by {
                        if j != i {
                            lemma_entries_map_at(s, j);
                            if j < i {
                                assert(s[j].0 != s[i as int].0);
                            } else {
                                assert(s[i as int].0 != s[j].0);
                            }
                        }
                    }
                    assert forall|x: Seq<char>| #[trigger] m.contains_key(x) implies exists|j: int|
                        0 <= j < s2.len() && #[trigger] s2[j].0 == x by {
                        if x == k {
                            assert(s2[i as int].0 == x);
                        } else {
                            let j = choose|j: int| 0 <= j < s.len() && #[trigger] s[j].0 == x;
                            assert(s2[j].0 == x);
                        }
                    }
                    lemma_entries_map_ext(s2, m);
                }
                let mut entries: Vec<(String, String)> = Vec::new();
                std::mem::swap(&mut entries, &mut self.entries);
                entries.set(i, (uri, text));
                self.entries = entries;
            },
            None => {
                let ghost s2 = s.push((k, v));
                proof {
                    assert(pairs_view(self.entries@.push((uri, text))) =~= s2);
                    assert forall|a: int, b: int| 0 <= a < b < s2.len() implies #[trigger] s2[a].0
                        != #[trigger] s2[b].0 by {
                        if b < s.len() {
                            assert(s[a].0 != s[b].0);
                        } else {
                            assert(self.entries@[a].0@ != k);
                        }
                    }
                    assert forall|j: int| 0 <= j < s2.len() implies m.contains_key(
                        #[trigger] s2[j].0,
                    ) && m[s2[j].0] == s2[j].1 by {
                        if j < s.len() {
                            lemma_entries_map_at(s, j);
                            assert(self.entries@[j].0@ != k);
                        }
                    }
                    assert forall|x: Seq<char>| #[trigger] m.contains_key(x) implies exists|j: int|
                        0 <= j < s2.len() && #[trigger] s2[j].0 == x by {
                        if x == k {
                            assert(s2[s.len() as int].0 == x);
                        } else {
                            let j = choose|j: int| 0 <= j < s.len() && #[trigger] s[j].0 == x;
                            assert(s2[j].0 == x);
                        }
                    }
                    lemma_entries_map_ext(s2, m);
                }
                let mut entries: Vec<(String, String)> = Vec::new();
                std::mem::swap(&mut entries, &mut self.entries);
                entries.push((uri, text));
                self.entries = entries;
            },
        }
    }

    /// Forgets the document at `uri`.
    pub fn remove(&mut self, uri: &str)
        ensures
            final(self)@ == old(self)@.remove(uri@),
    {
        proof {
            use_type_invariant(&*self);
        }
        let ghost s = pairs_view(self.entries@);
        let ghost m = entries_map(s).remove(uri@);
        match self.find(uri) {
            Some(i) => {
                let ghost s2 = s.remove(i as int);
                proof {
                    assert(pairs_view(self.entries@.remove(i as int)) =~= s2);
                    assert forall|a: int, b: int| 0 <= a < b < s2.len() implies #[trigger] s2[a].0
                        != #[trigger] s2[b].0 by {
                        let a1 = if a < i { a } else { a + 1 };
                        let b1 = if b < i { b } else { b + 1 };
                        assert(s2[a] == s[a1]);
                        assert(s2[b] == s[b1]);
                        assert(s[a1].0 != s[b1].0);
                    }
                    assert forall|j: int| 0 <= j < s2.len() implies m.contains_key(
                        #[trigger] s2[j].0,
                    ) && m[s2[j].0] == s2[j].1 by {
                        let j1 = if j < i { j } else { j + 1 };
                        assert(s2[j] == s[j1]);
                        lemma_entries_map_at(s, j1);
                        if j1 < i {
                            assert(s[j1].0 != s[i as int].0);
                        } else {
                            assert(s[i as int].0 != s[j1].0);
                        }
                    }
                    assert forall|x: Seq<char>| #[trigger] m.contains_key(x) implies exists|j: int|
                        0 <= j < s2.len() && #[trigger] s2[j].0 == x by {
                        let j = choose|j: int| 0 <= j < s.len() && #[trigger] s[j].0 == x;
                        assert(j != i);
                        if j < i {
                            assert(s2[j].0 == x);
                        } else {
                            assert(s2[j - 1].0 == x);
                        }
                    }
                    lemma_entries_map_ext(s2, m);
                }
                let mut entries: Vec<(String, String)> = Vec::new();
                std::mem::swap(&mut entries, &mut self.entries);
                entries.remove(i);
                self.entries = entries;
            },
            None => {
                proof {
                    assert forall|j: int| 0 <= j < s.len() implies m.contains_key(#[trigger] s[j].0)
                        && m[s[j].0] == s[j].1 by {
                        lemma_entries_map_at(s, j);
                        assert(self.entries@[j].0@ != uri@);
                    }
                    assert forall|x: Seq<char>| #[trigger] m.contains_key(x) implies exists|j: int|
                        0 <= j < s.len() && #[trigger] s[j].0 == x by {
                        let j = choose|j: int| 0 <= j < s.len() && #[trigger] s[j].0 == x;
                    }
                    lemma_entries_map_ext(s, m);
                }
            },
        }
    }
}

} // verus!
