//! Sets of endpoint names: the connection pool as the routing core sees
//! it, and the endpoints a request has already tried. Also the choice of a
//! random endpoint from the pool.

use crate::slots::names_view;
use vstd::prelude::*;

verus! {

/// A set of endpoint names, kept in the order in which they were added.
/// No name occurs twice.
#[derive(Debug)]
pub struct EndpointSet {
    names: Vec<String>,
}

impl View for EndpointSet {
    type V = Seq<Seq<char>>;

    closed spec fn view(&self) -> Seq<Seq<char>> {
        names_view(self.names@)
    }
}

impl EndpointSet {
    /// No name occurs twice. This holds of every set.
    #[verifier::type_invariant]
    pub open spec fn distinct(self) -> bool {
        self@.no_duplicates()
    }

    /// Makes an empty set.
    pub fn new() -> (set: EndpointSet)
        ensures
            set@ == Seq::<Seq<char>>::empty(),
    {
        let set = EndpointSet { names: Vec::new() };
        set
    }

    /// Number of names in the set.
    pub fn len(&self) -> (len: usize)
        ensures
            len == self@.len(),
            self@.no_duplicates(),
    {
        proof {
            use_type_invariant(self);
        }
        self.names.len()
    }

    /// Whether the set holds no name.
    pub fn is_empty(&self) -> (empty: bool)
        ensures
            empty == (self@.len() == 0),
    {
        self.names.len() == 0
    }

    /// The name at position `index`.
    pub fn get(&self, index: usize) -> (name: &String)
        requires
            index < self@.len(),
        ensures
            name@ == self@[index as int],
    {
        &self.names[index]
    }

    /// Position of `name` in the set, if it is there.
    pub fn position(&self, name: &String) -> (at: Option<usize>)
        ensures
            match at {
                Some(index) => index < self@.len() && self@[index as int] == name@,
                None => !self@.contains(name@),
            },
    {
        let mut i: usize = 0;
        while i < self.names.len()
            invariant
                i <= self.names@.len(),
                forall|k: int| 0 <= k < i ==> self@[k] != name@,
            decreases self.names@.len() - i,
        {
            if self.names[i] == *name {
                return Some(i);
            }
            i = i + 1;
        }
        None
    }

    /// Whether the set holds `name`.
    pub fn contains(&self, name: &String) -> (found: bool)
        ensures
            found == self@.contains(name@),
    {
        self.position(name).is_some()
    }

    /// Adds `name` unless the set holds it already. Returns whether it was
    /// added.
    pub fn insert(&mut self, name: String) -> (added: bool)
        ensures
            added == !old(self)@.contains(name@),
            final(self)@ == with_name(old(self)@, name@),
    {
        proof {
            use_type_invariant(&*self);
        }
        if self.contains(&name) {
            return false;
        }
        let ghost before = self@;
        let mut taken = EndpointSet { names: Vec::new() };
        core::mem::swap(self, &mut taken);
        let mut names = taken.names;
        names.push(name);
        proof {
            assert(names_view(names@) =~= before.push(name@));
        }
        *self = EndpointSet { names };
        true
    }

    /// Removes `name` if the set holds it. Returns whether it did.
    pub fn remove(&mut self, name: &String) -> (removed: bool)
        ensures
            removed == old(self)@.contains(name@),
            final(self)@ == without_name(old(self)@, name@),
    {
        proof {
            use_type_invariant(&*self);
        }
        match self.position(name) {
            Some(at) => {
                let ghost before = self@;
                let mut taken = EndpointSet { names: Vec::new() };
                core::mem::swap(self, &mut taken);
                let mut names = taken.names;
                names.remove(at);
                proof {
                    assert(names_view(names@) =~= before.remove(at as int));
                    assert(before.remove(at as int).no_duplicates());
                }
                *self = EndpointSet { names };
                true
            },
            None => false,
        }
    }

    /// Removes every name.
    pub fn clear(&mut self)
        ensures
            final(self)@ == Seq::<Seq<char>>::empty(),
    {
        *self = EndpointSet::new();
    }

    /// Copies the set.
    pub fn duplicate(&self) -> (copy: EndpointSet)
        ensures
            copy@ == self@,
    {
        proof {
            use_type_invariant(self);
        }
        let mut names: Vec<String> = Vec::new();
        let mut i: usize = 0;
        while i < self.names.len()
            invariant
                i <= self.names@.len(),
                names_view(names@) == self@.take(i as int),
            decreases self.names@.len() - i,
        {
            let ghost before = names_view(names@);
            let name = self.names[i].clone();
            names.push(name);
            proof {
                assert(names_view(names@) =~= before.push(name@));
            }
            i = i + 1;
        }
        EndpointSet { names }
    }
}

/// The set with `name` added at the end, unless it is there already.
pub open spec fn with_name(names: Seq<Seq<char>>, name: Seq<char>) -> Seq<Seq<char>> {
    if names.contains(name) {
        names
    } else {
        names.push(name)
    }
}

/// The set with `name` taken out, if it is there.
pub open spec fn without_name(names: Seq<Seq<char>>, name: Seq<char>) -> Seq<Seq<char>> {
    if names.contains(name) {
        names.remove(names.index_of(name))
    } else {
        names
    }
}

/// The names of `names` that `excluded` does not hold, in order.
pub open spec fn without(names: Seq<Seq<char>>, excluded: Seq<Seq<char>>) -> Seq<Seq<char>>
    decreases names.len(),
{
    if names.len() == 0 {
        names
    } else if excluded.contains(names.last()) {
        without(names.drop_last(), excluded)
    } else {
        without(names.drop_last(), excluded).push(names.last())
    }
}

/// Whether every name of `names` is among `excluded`.
pub open spec fn covered(names: Seq<Seq<char>>, excluded: Seq<Seq<char>>) -> bool {
    forall|i: int| 0 <= i < names.len() ==> excluded.contains(#[trigger] names[i])
}

/// The endpoints among which a random choice is made: those of the pool
/// that are not excluded. Where every endpoint of the pool is excluded,
/// and where no exclusions are given, the whole pool.
pub open spec fn candidates(pool: Seq<Seq<char>>, excludes: Option<Seq<Seq<char>>>) -> Seq<
    Seq<char>,
> {
    match excludes {
        Some(excluded) => if covered(pool, excluded) {
            pool
        } else {
            without(pool, excluded)
        },
        None => pool,
    }
}

/// `without` keeps exactly the names that are not excluded, and keeps
/// nothing exactly when every name is excluded.
pub proof fn lemma_without(names: Seq<Seq<char>>, excluded: Seq<Seq<char>>)
    ensures
        forall|name: Seq<char>| #[trigger]
            without(names, excluded).contains(name) <==> names.contains(name)
                && !excluded.contains(name),
        without(names, excluded).len() <= names.len(),
        without(names, excluded).len() == 0 <==> covered(names, excluded),
        names.no_duplicates() ==> without(names, excluded).no_duplicates(),
    decreases names.len(),
{
    if names.len() > 0 {
        let init = names.drop_last();
        let last = names.last();
        lemma_without(init, excluded);
        let kept = without(init, excluded);
        assert forall|name: Seq<char>| #[trigger]
            without(names, excluded).contains(name) <==> names.contains(name)
                && !excluded.contains(name) by {
            if names.contains(name) {
                let i = choose|i: int| 0 <= i < names.len() && names[i] == name;
                if i < init.len() {
                    assert(init[i] == name);
                }
            }
            if kept.contains(name) {
                let i = choose|i: int| 0 <= i < kept.len() && kept[i] == name;
                if !excluded.contains(last) {
                    assert(kept.push(last)[i] == name);
                }
            }
            if !excluded.contains(last) {
                assert(kept.push(last)[kept.len() as int] == last);
            }
        }
        if without(names, excluded).len() == 0 {
            assert forall|i: int| 0 <= i < names.len() implies excluded.contains(
                #[trigger] names[i],
            ) by {
                if i < init.len() {
                    assert(init[i] == names[i]);
                }
            }
        }
        if names.no_duplicates() {
            if !excluded.contains(last) {
                assert(!kept.contains(last));
            }
        }
    }
}

/// A random choice is made among endpoints of the pool, and there is one
/// to choose as soon as the pool holds one. The exclusions are respected
/// as long as they leave an endpoint of the pool, and are ignored
/// otherwise.
pub proof fn lemma_candidates(pool: Seq<Seq<char>>, excludes: Option<Seq<Seq<char>>>)
    ensures
        pool.len() > 0 ==> candidates(pool, excludes).len() > 0,
        forall|i: int|
            0 <= i < candidates(pool, excludes).len() ==> pool.contains(
                #[trigger] candidates(pool, excludes)[i],
            ),
        excludes matches Some(excluded) ==> (!covered(pool, excluded) ==> forall|i: int|
            0 <= i < candidates(pool, excludes).len() ==> !excluded.contains(
                #[trigger] candidates(pool, excludes)[i],
            )),
        excludes matches Some(excluded) ==> (covered(pool, excluded) ==> candidates(pool, excludes)
            == pool),
{
    match excludes {
        Some(excluded) => {
            lemma_without(pool, excluded);
            assert forall|i: int| 0 <= i < candidates(pool, excludes).len() implies pool.contains(
                #[trigger] candidates(pool, excludes)[i],
            ) by {
                let name = candidates(pool, excludes)[i];
                assert(candidates(pool, excludes).contains(name));
            }
            if !covered(pool, excluded) {
                assert forall|i: int|
                    0 <= i < candidates(pool, excludes).len() implies !excluded.contains(
                    #[trigger] candidates(pool, excludes)[i],
                ) by {
                    let name = candidates(pool, excludes)[i];
                    assert(without(pool, excluded).contains(name));
                }
            }
        },
        None => {
            assert forall|i: int| 0 <= i < pool.len() implies pool.contains(#[trigger] pool[i]) by {}
        },
    }
}

/// Draws an index below `bound` with the `rand` crate: one call of
/// `IteratorRandom::choose` on the range `0..bound`, with the thread's
/// generator. Which index comes is left open. The crate documents that
/// `choose` returns `None` if and only if the iterator is empty, and
/// otherwise one of its items.
#[verifier::external_body]
fn random_index(bound: usize) -> (drawn: Option<usize>)
    ensures
        bound > 0 ==> drawn is Some,
        drawn matches Some(index) ==> index < bound,
{
    rand::seq::IteratorRandom::choose(0..bound, &mut rand::thread_rng())
}

/// The names that an optional set of exclusions holds.
pub open spec fn excludes_view(excludes: Option<&EndpointSet>) -> Option<Seq<Seq<char>>> {
    match excludes {
        Some(excluded) => Some(excluded@),
        None => None,
    }
}

impl EndpointSet {
    /// Whether the set holds every name of `other`.
    pub fn covers(&self, other: &EndpointSet) -> (all: bool)
        ensures
            all == covered(other@, self@),
    {
        let mut i: usize = 0;
        while i < other.len()
            invariant
                i <= other@.len(),
                forall|k: int| 0 <= k < i ==> self@.contains(#[trigger] other@[k]),
            decreases other@.len() - i,
        {
            if !self.contains(other.get(i)) {
                return false;
            }
            i = i + 1;
        }
        true
    }
}

/// Lists the positions in `pool` of the candidates for a random choice.
fn candidate_positions(pool: &EndpointSet, excludes: Option<&EndpointSet>) -> (positions: Vec<
    usize,
>)
    ensures
        positions@.len() == candidates(pool@, excludes_view(excludes)).len(),
        forall|k: int|
            0 <= k < positions@.len() ==> positions@[k] < pool@.len() && pool@[positions@[k] as int]
                == candidates(pool@, excludes_view(excludes))[k],
{
    let mut positions: Vec<usize> = Vec::new();
    let skip = match excludes {
        Some(excluded) => !excluded.covers(pool),
        None => false,
    };
    let mut i: usize = 0;
    let ghost excluded_names = match excludes {
        Some(excluded) => excluded@,
        None => Seq::<Seq<char>>::empty(),
    };
    while i < pool.len()
        invariant
            i <= pool@.len(),
            skip ==> excludes is Some && excluded_names == excludes->Some_0@,
            skip ==> positions@.len() == without(pool@.take(i as int), excluded_names).len(),
            !skip ==> positions@.len() == i,
            forall|k: int|
                0 <= k < positions@.len() ==> positions@[k] < i && pool@[positions@[k] as int] == (
                if skip {
                    without(pool@.take(i as int), excluded_names)[k]
                } else {
                    pool@[k]
                }),
        decreases pool@.len() - i,
    {
        proof {
            assert(pool@.take(i + 1).drop_last() =~= pool@.take(i as int));
        }
        let keep = match excludes {
            Some(excluded) => !skip || !excluded.contains(pool.get(i)),
            None => true,
        };
        if keep {
            positions.push(i);
        }
        i = i + 1;
    }
    proof {
        assert(pool@.take(pool@.len() as int) =~= pool@);
    }
    positions
}

/// Which endpoint a draw selects: the candidate at the drawn position.
/// `None` when nothing was drawn or the draw lies beyond the candidates.
pub open spec fn selected(
    pool: Seq<Seq<char>>,
    excludes: Option<Seq<Seq<char>>>,
    drawn: Option<usize>,
) -> Option<Seq<char>> {
    match drawn {
        Some(index) => if index < candidates(pool, excludes).len() {
            Some(candidates(pool, excludes)[index as int])
        } else {
            None
        },
        None => None,
    }
}

/// Selects the endpoint that a draw stands for: the draw counts through
/// the candidates, that is the endpoints of the pool outside `excludes`,
/// or the whole pool where every endpoint is excluded.
pub fn select_endpoint(
    pool: &EndpointSet,
    excludes: Option<&EndpointSet>,
    drawn: Option<usize>,
) -> (chosen: Option<String>)
    ensures
        match chosen {
            Some(name) => selected(pool@, excludes_view(excludes), drawn) == Some(name@),
            None => selected(pool@, excludes_view(excludes), drawn) is None,
        },
{
    let positions = candidate_positions(pool, excludes);
    match drawn {
        Some(index) => {
            if index < positions.len() {
                Some(pool.get(positions[index]).clone())
            } else {
                None
            }
        },
        None => None,
    }
}

/// Draws the position of one candidate at random. Returns `None` only
/// when there is no candidate, which is when the pool is empty. Which
/// position comes is left open.
pub fn draw_candidate(pool: &EndpointSet, excludes: Option<&EndpointSet>) -> (drawn: Option<usize>)
    ensures
        pool@.len() > 0 ==> drawn is Some,
        drawn matches Some(index) ==> index < candidates(pool@, excludes_view(excludes)).len(),
        selected(pool@, excludes_view(excludes), drawn) is Some <==> pool@.len() > 0,
{
    proof {
        lemma_candidates(pool@, excludes_view(excludes));
    }
    let positions = candidate_positions(pool, excludes);
    random_index(positions.len())
}

/// Picks a random endpoint of the pool that is not among `excludes`;
/// where the exclusions cover the whole pool, they are ignored. Any
/// candidate may come: the endpoint is the one that `select_endpoint`
/// gives for the position that was drawn.
pub fn get_random_connection(pool: &EndpointSet, excludes: Option<&EndpointSet>) -> (chosen: String)
    requires
        pool@.len() > 0,
    ensures
        candidates(pool@, excludes_view(excludes)).contains(chosen@),
        pool@.contains(chosen@),
{
    proof {
        lemma_candidates(pool@, excludes_view(excludes));
    }
    let drawn = draw_candidate(pool, excludes);
    select_endpoint(pool, excludes, drawn).unwrap()
}

} // verus!
