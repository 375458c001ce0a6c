//! Timelines by name: the scripts that a session can run and jump to.
//!
//! A timeline is a script in flat form. The registry is a mapping from name
//! to timeline that also gives each timeline a place, so that the frames of
//! a session can name their timelines by a number.

use vstd::prelude::*;
use crate::statement::Statement;

verus! {

/// A timeline under its name.
struct Timeline {
    name: String,
    statements: Vec<Statement>,
}

/// `at` is the first place in `names` that holds `name`.
pub open spec fn is_first_named(names: Seq<Seq<char>>, name: Seq<char>, at: int) -> bool {
    &&& 0 <= at < names.len()
    &&& names[at] == name
    &&& forall|k: int| 0 <= k < at ==> names[k] != name
}

/// The first place in `names` that holds `name`, if any does.
pub open spec fn position_of(names: Seq<Seq<char>>, name: Seq<char>) -> Option<int> {
    if exists|at: int| is_first_named(names, name, at) {
        Some(choose|at: int| is_first_named(names, name, at))
    } else {
        None
    }
}

/// A first place is the position.
pub proof fn lemma_position_is(names: Seq<Seq<char>>, name: Seq<char>, at: int)
    requires
        is_first_named(names, name, at),
    ensures
        position_of(names, name) == Some(at),
{
    let found = choose|k: int| is_first_named(names, name, k);
    assert(!(found < at) && !(at < found));
}

/// A position is a first place.
pub proof fn lemma_position_found(names: Seq<Seq<char>>, name: Seq<char>)
    requires
        position_of(names, name) is Some,
    ensures
        is_first_named(names, name, position_of(names, name).unwrap()),
{
}

/// A name that occurs somewhere has a position.
pub proof fn lemma_position_some(names: Seq<Seq<char>>, name: Seq<char>, at: int)
    requires
        0 <= at < names.len(),
        names[at] == name,
    ensures
        position_of(names, name) is Some,
    decreases at,
{
    if exists|k: int| 0 <= k < at && names[k] == name {
        let k = choose|k: int| 0 <= k < at && names[k] == name;
        lemma_position_some(names, name, k);
    } else {
        assert(is_first_named(names, name, at));
    }
}

/// A name that occurs nowhere has no position.
pub proof fn lemma_position_none(names: Seq<Seq<char>>, name: Seq<char>)
    requires
        forall|k: int| 0 <= k < names.len() ==> names[k] != name,
    ensures
        position_of(names, name) is None,
{
}

/// The timelines of a script collection, each under a name of its own.
///
/// Timelines keep the place at which they were inserted, so a place can
/// stand for a timeline for as long as the registry lives.
pub struct Registry {
    timelines: Vec<Timeline>,
}

impl Registry {
    #[verifier::type_invariant]
    spec fn names_differ(self) -> bool {
        forall|i: int, j: int|
            0 <= i < j < self.timelines.len() ==> self.timelines[i].name@
                != self.timelines[j].name@
    }

    /// The names of the timelines, by place.
    pub closed spec fn names(self) -> Seq<Seq<char>> {
        Seq::new(self.timelines.len() as nat, |i: int| self.timelines[i].name@)
    }

    /// The statements of the timelines, by place.
    pub closed spec fn scripts(self) -> Seq<Seq<Statement>> {
        Seq::new(self.timelines.len() as nat, |i: int| self.timelines[i].statements@)
    }

    /// The registry as a mapping from name to statements.
    pub open spec fn view(self) -> Map<Seq<char>, Seq<Statement>> {
        Map::new(
            |name: Seq<char>| position_of(self.names(), name) is Some,
            |name: Seq<char>| self.scripts()[position_of(self.names(), name).unwrap()],
        )
    }

    /// There is one script for each name.
    pub proof fn lemma_same_length(self)
        ensures
            self.names().len() == self.scripts().len(),
    {
    }

    /// Every script has a length that the machine can count.
    pub proof fn lemma_countable(self)
        ensures
            forall|i: int|
                0 <= i < self.scripts().len() ==> (#[trigger] self.scripts()[i]).len()
                    <= usize::MAX,
    {
        assert forall|i: int| 0 <= i < self.scripts().len() implies (#[trigger] self.scripts()[i]).len()
            <= usize::MAX by {
            assert(self.timelines[i].statements.len() == self.timelines[i].statements@.len());
        }
    }

    /// A registry without timelines.
    pub fn new() -> (r: Self)
        ensures
            r.names() == Seq::<Seq<char>>::empty(),
            r.scripts() == Seq::<Seq<Statement>>::empty(),
    {
        let r = Registry { timelines: Vec::new() };
        assert(r.names() =~= Seq::<Seq<char>>::empty());
        assert(r.scripts() =~= Seq::<Seq<Statement>>::empty());
        r
    }

    /// The number of timelines.
    pub fn len(&self) -> (r: usize)
        ensures
            r == self.names().len(),
    {
        self.timelines.len()
    }

    /// The place of the timeline called `name`.
    pub fn find(&self, name: &str) -> (r: Option<usize>)
        ensures
            position_of(self.names(), name@) == match r {
                Some(at) => Some(at as int),
                None => None,
            },
            r matches Some(at) ==> is_first_named(self.names(), name@, at as int),
            r is None ==> forall|k: int| 0 <= k < self.names().len() ==> self.names()[k] != name@,
    {
        let wanted: String = name.to_owned();
        let n: usize = self.timelines.len();
        let mut i: usize = 0;
        while i < n
            invariant
                n == self.timelines.len(),
                i <= n,
                wanted@ == name@,
                forall|k: int| 0 <= k < i ==> self.names()[k] != name@,
            decreases n - i,
        {
            if self.timelines[i].name == wanted {
                proof {
                    lemma_position_is(self.names(), name@, i as int);
                }
                return Some(i);
            }
            i = i + 1;
        }
        proof {
            lemma_position_none(self.names(), name@);
        }
        None
    }

    /// The statements of the timeline at `place`.
    pub fn statements(&self, place: usize) -> (r: Option<&Vec<Statement>>)
        ensures
            place < self.names().len() ==> (r matches Some(found) && found@
                == self.scripts()[place as int]),
            place >= self.names().len() ==> r is None,
    {
        if place < self.timelines.len() {
            Some(&self.timelines[place].statements)
        } else {
            None
        }
    }

    /// The name of the timeline at `place`: the one name that `find` answers
    /// with that place.
    pub fn name(&self, place: usize) -> (r: Option<&String>)
        ensures
            place < self.names().len() ==> (r matches Some(found) && found@
                == self.names()[place as int] && position_of(self.names(), found@) == Some(
                place as int,
            )),
            place >= self.names().len() ==> r is None,
    {
        proof {
            use_type_invariant(self);
        }
        if place < self.timelines.len() {
            proof {
                let names = self.names();
                assert forall|k: int| 0 <= k < place implies names[k] != names[place as int] by {
                    assert(names[k] == self.timelines[k].name@);
                }
                lemma_position_is(names, names[place as int], place as int);
            }
            Some(&self.timelines[place].name)
        } else {
            None
        }
    }

    /// The statements of the timeline called `name`.
    pub fn get(&self, name: &str) -> (r: Option<&Vec<Statement>>)
        ensures
            self@.contains_key(name@) ==> (r matches Some(found) && found@ == self@[name@]),
            !self@.contains_key(name@) ==> r is None,
    {
        match self.find(name) {
            Some(at) => self.statements(at),
            None => None,
        }
    }

    /// Puts `statements` under `name`: in the place of the timeline of that
    /// name if there is one, else in a new place after the others.
    pub fn insert(&mut self, name: String, statements: Vec<Statement>)
        ensures
            final(self)@ == old(self)@.insert(name@, statements@),
            position_of(old(self).names(), name@) matches Some(at) ==> {
                &&& final(self).names() == old(self).names()
                &&& final(self).scripts() == old(self).scripts().update(at, statements@)
            },
            position_of(old(self).names(), name@) is None ==> {
                &&& final(self).names() == old(self).names().push(name@)
                &&& final(self).scripts() == old(self).scripts().push(statements@)
            },
    {
        proof {
            use_type_invariant(&*self);
        }
        let found = self.find(name.as_str());
        let mut timelines: Vec<Timeline> = Vec::new();
        std::mem::swap(&mut timelines, &mut self.timelines);
        let ghost before = timelines@;
        match found {
            Some(at) => {
                timelines.set(at, Timeline { name, statements });
                assert(Seq::new(timelines.len() as nat, |i: int| timelines[i].name@)
                    =~= Seq::new(before.len(), |i: int| before[i].name@));
                assert(Seq::new(timelines.len() as nat, |i: int| timelines[i].statements@)
                    =~= Seq::new(before.len(), |i: int| before[i].statements@).update(
                    at as int,
                    statements@,
                ));
            },
            None => {
                timelines.push(Timeline { name, statements });
                assert(Seq::new(timelines.len() as nat, |i: int| timelines[i].name@)
                    =~= Seq::new(before.len(), |i: int| before[i].name@).push(name@));
                assert(Seq::new(timelines.len() as nat, |i: int| timelines[i].statements@)
                    =~= Seq::new(before.len(), |i: int| before[i].statements@).push(
                    statements@,
                ));
                assert forall|i: int, j: int| 0 <= i < j < timelines.len() implies timelines[i].name@
                    != timelines[j].name@ by {
                    if j == timelines.len() - 1 {
                        assert(old(self).names()[i] == before[i].name@);
                        assert(old(self).names()[i] != name@);
                    }
                }
            },
        }
        self.timelines = timelines;
        proof {
            let old_names = old(self).names();
            let old_scripts = old(self).scripts();
            let new_names = self.names();
            let new_scripts = self.scripts();
            let wanted = old(self)@.insert(name@, statements@);
            assert forall|other: Seq<char>| #[trigger]
                self@.contains_key(other) == wanted.contains_key(other) && (self@.contains_key(
                    other,
                ) ==> self@[other] == wanted[other]) by {
                match found {
                    Some(at) => {
                        assert(position_of(new_names, other) == position_of(old_names, other));
                        if other == name@ {
                        } else if position_of(old_names, other) is Some {
                            lemma_position_found(old_names, other);
                        }
                    },
                    None => {
                        if other == name@ {
                            assert(is_first_named(new_names, other, old_names.len() as int));
                            lemma_position_is(new_names, other, old_names.len() as int);
                        } else if position_of(old_names, other) is Some {
                            lemma_position_found(old_names, other);
                            let at = position_of(old_names, other).unwrap();
                            assert(is_first_named(new_names, other, at));
                            lemma_position_is(new_names, other, at);
                        } else {
                            if position_of(new_names, other) is Some {
                                lemma_position_found(new_names, other);
                                let at = position_of(new_names, other).unwrap();
                                lemma_position_some(old_names, other, at);
                            }
                        }
                    },
                }
            }
            assert(self@ =~= wanted);
        }
    }
}

} // verus!
