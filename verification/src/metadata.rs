//! Named texts that plugins attach to spaces, tabs and terminals.

use vstd::prelude::*;

use crate::text::str_eq;

verus! {

/// Texts by name; a name has one text.
#[derive(Debug)]
pub struct TokenMap {
    entries: Vec<(String, String)>,
}

/// The first entry named `name`, among the first `n`.
pub closed spec fn entry_of(entries: Seq<(String, String)>, name: Seq<char>, n: nat) -> Option<int>
    decreases n,
{
    if n == 0 {
        None
    } else if entry_of(entries, name, (n - 1) as nat) is Some {
        entry_of(entries, name, (n - 1) as nat)
    } else if entries[n - 1].0@ == name {
        Some(n - 1)
    } else {
        None
    }
}

proof fn lemma_entry_of(entries: Seq<(String, String)>, name: Seq<char>, n: nat)
    requires
        n <= entries.len(),
    ensures
        match entry_of(entries, name, n) {
            Some(i) => 0 <= i < n && entries[i].0@ == name && forall|j: int|
                0 <= j < i ==> (#[trigger] entries[j]).0@ != name,
            None => forall|j: int| 0 <= j < n ==> (#[trigger] entries[j]).0@ != name,
        },
    decreases n,
{
    if n > 0 {
        lemma_entry_of(entries, name, (n - 1) as nat);
    }
}

proof fn lemma_entry_is(entries: Seq<(String, String)>, name: Seq<char>, n: nat, i: int)
    requires
        0 <= i < n <= entries.len(),
        entries[i].0@ == name,
        forall|j: int| 0 <= j < i ==> (#[trigger] entries[j]).0@ != name,
    ensures
        entry_of(entries, name, n) == Some(i),
{
    lemma_entry_of(entries, name, n);
}

impl View for TokenMap {
    type V = Map<Seq<char>, Seq<char>>;

    closed spec fn view(&self) -> Map<Seq<char>, Seq<char>> {
        Map::new(
            |name: Seq<char>| entry_of(self.entries@, name, self.entries@.len()) is Some,
            |name: Seq<char>|
                self.entries@[entry_of(self.entries@, name, self.entries@.len())->0].1@,
        )
    }
}

impl TokenMap {
    /// The text named `name`, if there is one.
    pub open spec fn text_of(self, name: Seq<char>) -> Option<Seq<char>> {
        if self@.contains_key(name) {
            Some(self@[name])
        } else {
            None
        }
    }

    /// No texts.
    pub fn new() -> (out: TokenMap)
        ensures
            out@ == Map::<Seq<char>, Seq<char>>::empty(),
    {
        let out = TokenMap { entries: Vec::new() };
        proof {
            assert forall|name: Seq<char>| entry_of(out.entries@, name, 0) is None by {}
            assert(out@ =~= Map::<Seq<char>, Seq<char>>::empty());
        }
        out
    }

    fn position(&self, name: &str) -> (at: Option<usize>)
        ensures
            match at {
                Some(i) => entry_of(self.entries@, name@, self.entries@.len()) == Some(i as int)
                    && i < self.entries@.len(),
                None => entry_of(self.entries@, name@, self.entries@.len()) is None,
            },
    {
        let mut i: usize = 0;
        while i < self.entries.len()
            invariant
                i <= self.entries@.len(),
                forall|j: int| 0 <= j < i ==> (#[trigger] self.entries@[j]).0@ != name@,
            decreases self.entries@.len() - i,
        {
            if str_eq(self.entries[i].0.as_str(), name) {
                proof {
                    lemma_entry_is(self.entries@, name@, self.entries@.len(), i as int);
                }
                return Some(i);
            }
            i = i + 1;
        }
        proof {
            lemma_entry_of(self.entries@, name@, self.entries@.len());
        }
        None
    }

    /// The text named `name`, if there is one.
    pub fn get(&self, name: &str) -> (out: Option<&String>)
        ensures
            match out {
                Some(text) => self.text_of(name@) == Some(text@),
                None => self.text_of(name@) is None,
            },
    {
        match self.position(name) {
            Some(i) => Some(&self.entries[i].1),
            None => None,
        }
    }

    /// The same texts.
    pub fn copy(&self) -> (out: TokenMap)
        ensures
            out@ == self@,
    {
        let mut entries: Vec<(String, String)> = Vec::new();
        let mut i: usize = 0;
        while i < self.entries.len()
            invariant
                i <= self.entries@.len(),
                entries@.len() == i,
                forall|j: int|
                    0 <= j < i ==> (#[trigger] entries@[j]).0@ == self.entries@[j].0@
                        && entries@[j].1@ == self.entries@[j].1@,
            decreases self.entries@.len() - i,
        {
            entries.push((self.entries[i].0.clone(), self.entries[i].1.clone()));
            i = i + 1;
        }
        let out = TokenMap { entries };
        proof {
            assert forall|name: Seq<char>|
                #![trigger entry_of(out.entries@, name, i as nat)]
                entry_of(out.entries@, name, i as nat) == entry_of(
                    self.entries@,
                    name,
                    i as nat,
                ) by {
                lemma_same_names(out.entries@, self.entries@, name, i as nat);
            }
            assert forall|name: Seq<char>| out@.contains_key(name) implies out@[name]
                == self@[name] by {
                lemma_entry_of(out.entries@, name, i as nat);
            }
            assert(out@ =~= self@);
        }
        out
    }

    /// Gives `name` the text `value`.
    pub fn insert(&mut self, name: String, value: String)
        ensures
            final(self)@ == old(self)@.insert(name@, value@),
    {
        let ghost before = self.entries@;
        match self.position(name.as_str()) {
            Some(i) => {
                proof {
                    lemma_entry_of(before, name@, before.len());
                }
                self.entries.set(i, (name, value));
                proof {
                    let after = self.entries@;
                    assert forall|other: Seq<char>|
                        #![trigger entry_of(after, other, after.len())]
                        entry_of(after, other, after.len()) == entry_of(
                            before,
                            other,
                            before.len(),
                        ) by {
                        lemma_same_names(before, after, other, before.len());
                    }
                    lemma_entry_of(before, name@, before.len());
                    assert forall|other: Seq<char>|
                        self@.contains_key(other) implies self@[other] == old(self)@.insert(
                        name@,
                        value@,
                    )[other] by {
                        lemma_entry_of(after, other, after.len());
                        lemma_entry_of(before, other, before.len());
                    }
                    assert(self@ =~= old(self)@.insert(name@, value@));
                }
            },
            None => {
                self.entries.push((name, value));
                proof {
                    let after = self.entries@;
                    assert forall|other: Seq<char>|
                        #![trigger entry_of(after, other, before.len())]
                        entry_of(after, other, before.len()) == entry_of(
                            before,
                            other,
                            before.len(),
                        ) by {
                        lemma_same_names(before, after, other, before.len());
                    }
                    assert forall|other: Seq<char>|
                        self@.contains_key(other) <==> old(self)@.insert(
                            name@,
                            value@,
                        ).contains_key(other) by {
                        assert(entry_of(after, other, before.len()) == entry_of(
                            before,
                            other,
                            before.len(),
                        ));
                    }
                    assert forall|other: Seq<char>|
                        self@.contains_key(other) implies self@[other] == old(self)@.insert(
                        name@,
                        value@,
                    )[other] by {
                        assert(entry_of(after, other, before.len()) == entry_of(
                            before,
                            other,
                            before.len(),
                        ));
                        lemma_entry_of(before, other, before.len());
                        lemma_entry_of(after, other, after.len());
                    }
                    assert(self@ =~= old(self)@.insert(name@, value@));
                }
            },
        }
    }
}

proof fn lemma_same_names(
    a: Seq<(String, String)>,
    b: Seq<(String, String)>,
    name: Seq<char>,
    n: nat,
)
    requires
        n <= a.len(),
        n <= b.len(),
        forall|i: int| 0 <= i < n ==> (#[trigger] a[i]).0@ == b[i].0@,
    ensures
        entry_of(a, name, n) == entry_of(b, name, n),
    decreases n,
{
    if n > 0 {
        lemma_same_names(a, b, name, (n - 1) as nat);
        assert(a[n - 1].0@ == b[n - 1].0@);
    }
}

} // verus!
