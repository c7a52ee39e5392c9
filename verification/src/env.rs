//! The environment overlay: the variables that the backend gets on top of
//! what it inherits.

use vstd::prelude::*;
use vstd::string::*;

verus! {

/// The map that a sequence of name and value pairs stands for. Where a name
/// occurs twice, the later pair counts.
pub open spec fn map_of(pairs: Seq<(Seq<char>, Seq<char>)>) -> Map<Seq<char>, Seq<char>>
    decreases pairs.len(),
{
    if pairs.len() == 0 {
        Map::empty()
    } else {
        map_of(pairs.drop_last()).insert(pairs.last().0, pairs.last().1)
    }
}

/// No name occurs in two pairs.
pub open spec fn names_distinct(pairs: Seq<(Seq<char>, Seq<char>)>) -> bool {
    forall|i: int, j: int| 0 <= i < j < pairs.len() ==> pairs[i].0 != pairs[j].0
}

/// A name is in the map exactly if a pair holds it.
proof fn lemma_map_of_names(pairs: Seq<(Seq<char>, Seq<char>)>, name: Seq<char>)
    ensures
        map_of(pairs).contains_key(name) <==> exists|i: int|
            0 <= i < pairs.len() && #[trigger] pairs[i].0 == name,
    decreases pairs.len(),
{
    if pairs.len() > 0 {
        let earlier = pairs.drop_last();
        lemma_map_of_names(earlier, name);
        if map_of(pairs).contains_key(name) {
            if pairs.last().0 == name {
                assert(pairs[pairs.len() - 1].0 == name);
            } else {
                let i = choose|i: int| 0 <= i < earlier.len() && #[trigger] earlier[i].0 == name;
                assert(pairs[i].0 == name);
            }
        }
        if exists|i: int| 0 <= i < pairs.len() && #[trigger] pairs[i].0 == name {
            let i = choose|i: int| 0 <= i < pairs.len() && #[trigger] pairs[i].0 == name;
            if i < pairs.len() - 1 {
                assert(earlier[i].0 == name);
            }
        }
    }
}

/// With distinct names, each pair's value is the one that the map holds.
proof fn lemma_map_of_value(pairs: Seq<(Seq<char>, Seq<char>)>, i: int)
    requires
        names_distinct(pairs),
        0 <= i < pairs.len(),
    ensures
        map_of(pairs).contains_key(pairs[i].0),
        map_of(pairs)[pairs[i].0] == pairs[i].1,
    decreases pairs.len(),
{
    if i < pairs.len() - 1 {
        let earlier = pairs.drop_last();
        assert(names_distinct(earlier)) by {
            assert forall|a: int, b: int| 0 <= a < b < earlier.len() implies earlier[a].0
                != earlier[b].0 by {
                assert(pairs[a].0 != pairs[b].0);
            }
        }
        lemma_map_of_value(earlier, i);
        assert(pairs[i].0 != pairs[pairs.len() - 1].0);
    }
}

/// With distinct names, the map has as many names as there are pairs.
proof fn lemma_map_of_len(pairs: Seq<(Seq<char>, Seq<char>)>)
    requires
        names_distinct(pairs),
    ensures
        map_of(pairs).dom().finite(),
        map_of(pairs).dom().len() == pairs.len(),
    decreases pairs.len(),
{
    if pairs.len() > 0 {
        let earlier = pairs.drop_last();
        assert(names_distinct(earlier)) by {
            assert forall|a: int, b: int| 0 <= a < b < earlier.len() implies earlier[a].0
                != earlier[b].0 by {
                assert(pairs[a].0 != pairs[b].0);
            }
        }
        lemma_map_of_len(earlier);
        lemma_map_of_names(earlier, pairs.last().0);
        if map_of(earlier).contains_key(pairs.last().0) {
            let i = choose|i: int|
                0 <= i < earlier.len() && #[trigger] earlier[i].0 == pairs.last().0;
            assert(pairs[i].0 == pairs[pairs.len() - 1].0);
        }
        assert(map_of(pairs).dom() == map_of(earlier).dom().insert(pairs.last().0));
    }
}

/// With distinct names, a new value for the name of pair `i` replaces that
/// pair's value in the map.
proof fn lemma_map_of_update(
    pairs: Seq<(Seq<char>, Seq<char>)>,
    i: int,
    value: Seq<char>,
)
    requires
        names_distinct(pairs),
        0 <= i < pairs.len(),
    ensures
        names_distinct(pairs.update(i, (pairs[i].0, value))),
        map_of(pairs.update(i, (pairs[i].0, value))) == map_of(pairs).insert(pairs[i].0, value),
{
    let name = pairs[i].0;
    let updated = pairs.update(i, (name, value));
    assert(names_distinct(updated)) by {
        assert forall|a: int, b: int| 0 <= a < b < updated.len() implies updated[a].0
            != updated[b].0 by {
            assert(pairs[a].0 != pairs[b].0);
        }
    }
    assert forall|key: Seq<char>|
        map_of(updated).contains_key(key) <==> map_of(pairs).insert(name, value).contains_key(
            key,
        ) by {
        lemma_map_of_names(updated, key);
        lemma_map_of_names(pairs, key);
        if map_of(updated).contains_key(key) {
            let a = choose|a: int| 0 <= a < updated.len() && #[trigger] updated[a].0 == key;
            assert(pairs[a].0 == key);
        }
        if map_of(pairs).contains_key(key) {
            let a = choose|a: int| 0 <= a < pairs.len() && #[trigger] pairs[a].0 == key;
            assert(updated[a].0 == key);
        }
        if key == name {
            assert(updated[i].0 == key);
        }
    }
    assert forall|key: Seq<char>| map_of(updated).contains_key(key) implies map_of(updated)[key]
        == map_of(pairs).insert(name, value)[key] by {
        lemma_map_of_names(updated, key);
        let a = choose|a: int| 0 <= a < updated.len() && #[trigger] updated[a].0 == key;
        lemma_map_of_value(updated, a);
        lemma_map_of_value(pairs, a);
        if a != i {
            if a < i {
                assert(pairs[a].0 != pairs[i].0);
            } else {
                assert(pairs[i].0 != pairs[a].0);
            }
        }
    }
    assert(map_of(updated) =~= map_of(pairs).insert(name, value));
}

/// The index of the first pair with the given name.
fn find(entries: &Vec<(String, String)>, name: &String) -> (found: Option<usize>)
    ensures
        match found {
            Some(i) => i < entries.len() && entries[i as int].0@ == name@ && forall|k: int|
                0 <= k < i ==> entries[k].0@ != name@,
            None => forall|k: int| 0 <= k < entries.len() ==> entries[k].0@ != name@,
        },
{
    let mut i: usize = 0;
    while i < entries.len()
        invariant
            i <= entries.len(),
            forall|k: int| 0 <= k < i ==> entries[k].0@ != name@,
        decreases entries.len() - i,
    {
        if entries[i].0 == *name {
            return Some(i);
        }
        i = i + 1;
    }
    None
}

/// A set of environment variables, each name with one value.
#[derive(Debug)]
pub struct EnvOverlay {
    entries: Vec<(String, String)>,
}

impl View for EnvOverlay {
    type V = Map<Seq<char>, Seq<char>>;

    closed spec fn view(&self) -> Map<Seq<char>, Seq<char>> {
        map_of(self.entries.deep_view())
    }
}

impl EnvOverlay {
    #[verifier::type_invariant]
    spec fn well_formed(self) -> bool {
        names_distinct(self.entries.deep_view())
    }

    /// The overlay that sets no variable.
    pub fn new() -> (overlay: EnvOverlay)
        ensures
            overlay@ == Map::<Seq<char>, Seq<char>>::empty(),
    {
        let overlay = EnvOverlay { entries: Vec::new() };
        assert(overlay.entries.deep_view() == Seq::<(Seq<char>, Seq<char>)>::empty());
        overlay
    }

    /// The number of variables that the overlay sets.
    pub fn len(&self) -> (n: usize)
        ensures
            self@.dom().finite(),
            n == self@.dom().len(),
    {
        proof {
            use_type_invariant(self);
            lemma_map_of_len(self.entries.deep_view());
        }
        self.entries.len()
    }

    /// Sets a variable. A value that the name had before is replaced and
    /// handed back.
    pub fn insert(&mut self, name: String, value: String) -> (previous: Option<String>)
        ensures
            final(self)@ == old(self)@.insert(name@, value@),
            previous.deep_view() == (if old(self)@.contains_key(name@) {
                Some(old(self)@[name@])
            } else {
                None
            }),
    {
        proof {
            use_type_invariant(&*self);
        }
        let ghost pairs = self.entries.deep_view();
        // The entries leave the overlay while they change, so that the
        // overlay holds distinct names at every moment.
        let mut entries: Vec<(String, String)> = Vec::new();
        assert(entries.deep_view() == Seq::<(Seq<char>, Seq<char>)>::empty());
        core::mem::swap(&mut self.entries, &mut entries);
        let previous = match find(&entries, &name) {
            Some(i) => {
                let previous = entries[i].1.clone();
                proof {
                    lemma_map_of_value(pairs, i as int);
                    lemma_map_of_update(pairs, i as int, value@);
                }
                entries.set(i, (name, value));
                assert(entries.deep_view() == pairs.update(i as int, (name@, value@)));
                Some(previous)
            },
            None => {
                proof {
                    lemma_map_of_names(pairs, name@);
                    assert(pairs.push((name@, value@)).drop_last() == pairs);
                }
                entries.push((name, value));
                assert(entries.deep_view() == pairs.push((name@, value@)));
                None
            },
        };
        core::mem::swap(&mut self.entries, &mut entries);
        previous
    }

    /// The value of a variable, if the overlay sets it.
    pub fn get(&self, name: &str) -> (value: Option<&String>)
        ensures
            value.deep_view() == (if self@.contains_key(name@) {
                Some(self@[name@])
            } else {
                None
            }),
    {
        proof {
            use_type_invariant(self);
        }
        let owned = name.to_owned();
        match find(&self.entries, &owned) {
            Some(i) => {
                proof {
                    lemma_map_of_value(self.entries.deep_view(), i as int);
                }
                Some(&self.entries[i].1)
            },
            None => {
                proof {
                    lemma_map_of_names(self.entries.deep_view(), name@);
                }
                None
            },
        }
    }

    /// The variables as pairs of name and value, each name once: what a host
    /// hands to the process it spawns.
    pub fn into_pairs(self) -> (pairs: Vec<(String, String)>)
        ensures
            names_distinct(pairs.deep_view()),
            map_of(pairs.deep_view()) == self@,
    {
        proof {
            use_type_invariant(&self);
        }
        self.entries
    }
}

} // verus!
