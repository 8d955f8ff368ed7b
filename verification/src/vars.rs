//! Named values: environment variables, parameters and secrets.
use crate::text::same;
use vstd::prelude::*;

verus! {

/// Values by name, where no name occurs twice.
#[derive(Debug)]
pub struct Vars {
    entries: Vec<(String, String)>,
}

/// Whether some entry has a name.
pub open spec fn names(entries: Seq<(String, String)>, name: Seq<char>) -> bool {
    exists|i: int| 0 <= i < entries.len() && (#[trigger] entries[i]).0@ == name
}

/// The value of an entry that has a name.
pub open spec fn value_of(entries: Seq<(String, String)>, name: Seq<char>) -> Seq<char> {
    entries[choose|i: int| 0 <= i < entries.len() && (#[trigger] entries[i]).0@ == name].1@
}

/// No two entries share a name.
pub open spec fn names_are_distinct(entries: Seq<(String, String)>) -> bool {
    forall|i: int, j: int|
        0 <= i < j < entries.len() ==> (#[trigger] entries[i]).0@ != (#[trigger] entries[j]).0@
}

/// The map that a list of entries spells.
pub open spec fn map_of(entries: Seq<(String, String)>) -> Map<Seq<char>, Seq<char>> {
    Map::new(|name: Seq<char>| names(entries, name), |name: Seq<char>| value_of(entries, name))
}

/// A map after a list of entries was put into it in turn, a later one replacing an earlier.
pub open spec fn with_entries(
    map: Map<Seq<char>, Seq<char>>,
    entries: Seq<(String, String)>,
) -> Map<Seq<char>, Seq<char>>
    decreases entries.len(),
{
    if entries.len() == 0 {
        map
    } else {
        with_entries(map, entries.drop_last()).insert(entries.last().0@, entries.last().1@)
    }
}

impl View for Vars {
    type V = Map<Seq<char>, Seq<char>>;

    closed spec fn view(&self) -> Map<Seq<char>, Seq<char>> {
        map_of(self.entries@)
    }
}

impl Vars {
    #[verifier::type_invariant]
    spec fn distinct(self) -> bool {
        names_are_distinct(self.entries@)
    }

    /// No values at all.
    pub fn new() -> (vars: Vars)
        ensures
            vars@ == Map::<Seq<char>, Seq<char>>::empty(),
    {
        let vars = Vars { entries: Vec::new() };
        assert(vars@ =~= Map::<Seq<char>, Seq<char>>::empty());
        vars
    }

    /// The values of a list, a later entry replacing an earlier one of the same name.
    pub fn from_entries(entries: &Vec<(String, String)>) -> (vars: Vars)
        ensures
            vars@ == with_entries(Map::empty(), entries@),
    {
        let mut vars = Vars::new();
        vars.extend(entries);
        vars
    }

    /// The names and values, each name once.
    pub fn entries(&self) -> (entries: &Vec<(String, String)>)
        ensures
            names_are_distinct(entries@),
            map_of(entries@) == self@,
    {
        proof {
            use_type_invariant(self);
        }
        &self.entries
    }

    fn find(&self, name: &str) -> (r: Option<usize>)
        ensures
            r matches Some(i) ==> i < self.entries@.len() && self.entries@[i as int].0@ == name@
                && self@.contains_key(name@) && self@[name@] == self.entries@[i as int].1@,
            r is None ==> !self@.contains_key(name@),
    {
        proof {
            use_type_invariant(self);
        }
        let mut i: usize = 0;
        while i < self.entries.len()
            invariant
                i <= self.entries@.len(),
                names_are_distinct(self.entries@),
                forall|j: int| 0 <= j < i ==> (#[trigger] self.entries@[j]).0@ != name@,
            decreases self.entries.len() - i,
        {
            if same(self.entries[i].0.as_str(), name) {
                assert(names(self.entries@, name@));
                return Some(i);
            }
            i = i + 1;
        }
        None
    }

    /// The value of a name, if it has one.
    pub fn get(&self, name: &str) -> (r: Option<&String>)
        ensures
            r is Some <==> self@.contains_key(name@),
            r matches Some(value) ==> value@ == self@[name@],
    {
        match self.find(name) {
            Some(i) => Some(&self.entries[i].1),
            None => None,
        }
    }

    /// Gives a name a value, replacing the one it had.
    pub fn insert(&mut self, name: &str, value: &str)
        ensures
            final(self)@ == old(self)@.insert(name@, value@),
    {
        proof {
            use_type_invariant(&*self);
        }
        let found = self.find(name);
        let mut entries: Vec<(String, String)> = Vec::new();
        core::mem::swap(&mut entries, &mut self.entries);
        let ghost before = entries@;
        match found {
            Some(i) => {
                entries.set(i, (name.to_owned(), value.to_owned()));
                proof {
                    assert(map_of(entries@) =~= map_of(before).insert(name@, value@)) by {
                        assert(entries@[i as int].0@ == name@);
                        assert forall|n: Seq<char>| names(entries@, n) == names(before, n) by {
                            if names(before, n) {
                                let j = choose|j: int|
                                    0 <= j < before.len() && (#[trigger] before[j]).0@ == n;
                                assert(entries@[j].0@ == n);
                            }
                            if names(entries@, n) {
                                let j = choose|j: int|
                                    0 <= j < entries@.len() && (#[trigger] entries@[j]).0@ == n;
                                assert(before[j].0@ == n);
                            }
                        }
                        assert forall|n: Seq<char>| names(before, n) && n != name@ implies value_of(
                            entries@,
                            n,
                        ) == value_of(before, n) by {
                            let j = choose|j: int|
                                0 <= j < before.len() && (#[trigger] before[j]).0@ == n;
                            assert(entries@[j].0@ == n);
                        }
                    }
                }
            },
            None => {
                entries.push((name.to_owned(), value.to_owned()));
                proof {
                    let last = before.len() as int;
                    assert(entries@[last].0@ == name@);
                    assert(map_of(entries@) =~= map_of(before).insert(name@, value@)) by {
                        assert forall|n: Seq<char>| names(before, n) implies names(entries@, n)
                            && value_of(entries@, n) == value_of(before, n) by {
                            let j = choose|j: int|
                                0 <= j < before.len() && (#[trigger] before[j]).0@ == n;
                            assert(entries@[j].0@ == n);
                        }
                        assert forall|n: Seq<char>| names(entries@, n) && n != name@ implies names(
                            before,
                            n,
                        ) by {
                            let j = choose|j: int|
                                0 <= j < entries@.len() && (#[trigger] entries@[j]).0@ == n;
                            assert(before[j].0@ == n);
                        }
                    }
                }
            },
        }
        self.entries = entries;
    }

    /// Takes a name and its value away.
    pub fn remove(&mut self, name: &str)
        ensures
            final(self)@ == old(self)@.remove(name@),
    {
        proof {
            use_type_invariant(&*self);
        }
        let found = self.find(name);
        let mut entries: Vec<(String, String)> = Vec::new();
        core::mem::swap(&mut entries, &mut self.entries);
        let ghost before = entries@;
        match found {
            Some(i) => {
                entries.remove(i);
                proof {
                    assert(map_of(entries@) =~= map_of(before).remove(name@)) by {
                        assert forall|n: Seq<char>| names(before, n) && n != name@ implies names(
                            entries@,
                            n,
                        ) && value_of(entries@, n) == value_of(before, n) by {
                            let j = choose|j: int|
                                0 <= j < before.len() && (#[trigger] before[j]).0@ == n;
                            assert(entries@[if j < i { j } else { j - 1 }].0@ == n);
                        }
                        assert forall|n: Seq<char>| names(entries@, n) implies names(before, n) && n
                            != name@ by {
                            let j = choose|j: int|
                                0 <= j < entries@.len() && (#[trigger] entries@[j]).0@ == n;
                            assert(before[if j < i { j } else { j + 1 }].0@ == n);
                        }
                    }
                }
            },
            None => {
                assert(map_of(before).remove(name@) =~= map_of(before));
            },
        }
        self.entries = entries;
    }

    /// Puts a list of values in, in turn.
    pub fn extend(&mut self, entries: &Vec<(String, String)>)
        ensures
            final(self)@ == with_entries(old(self)@, entries@),
    {
        let mut i: usize = 0;
        assert(entries@.take(0) =~= Seq::empty());
        while i < entries.len()
            invariant
                i <= entries@.len(),
                self@ == with_entries(old(self)@, entries@.take(i as int)),
            decreases entries.len() - i,
        {
            self.insert(entries[i].0.as_str(), entries[i].1.as_str());
            i = i + 1;
            assert(entries@.take(i as int).drop_last() =~= entries@.take(i - 1));
        }
        assert(entries@.take(i as int) =~= entries@);
    }
}

/// Of entries put into a map the last of a name decides; a name that none of them has is as
/// it was.
pub proof fn the_last_entry_of_a_name_decides(
    map: Map<Seq<char>, Seq<char>>,
    entries: Seq<(String, String)>,
    name: Seq<char>,
    i: int,
)
    ensures
        0 <= i < entries.len() && entries[i].0@ == name && (forall|j: int|
            i < j < entries.len() ==> (#[trigger] entries[j]).0@ != name) ==> with_entries(
            map,
            entries,
        ).contains_pair(name, entries[i].1@),
        (forall|j: int| 0 <= j < entries.len() ==> (#[trigger] entries[j]).0@ != name) ==> {
            &&& with_entries(map, entries).contains_key(name) <==> map.contains_key(name)
            &&& with_entries(map, entries)[name] == map[name]
        },
    decreases entries.len(),
{
    if entries.len() > 0 {
        let before = entries.drop_last();
        the_last_entry_of_a_name_decides(map, before, name, i);
        assert forall|j: int| 0 <= j < before.len() implies #[trigger] before[j] == entries[j] by {}
        assert(entries.last() == entries[entries.len() - 1]);
    }
}

} // verus!
