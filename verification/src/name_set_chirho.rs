//! Sets of names: the premises that dependency-directed search blames and
//! learns, and the nodes subscribed to a cell.

use vstd::prelude::*;

verus! {

/// A set of names, kept in the order first inserted.
pub struct NameSetChirho {
    /// The names, each at most once.
    names_chirho: Vec<String>,
}

/// The names of a sequence of strings.
pub open spec fn string_views_chirho(s: Seq<String>) -> Seq<Seq<char>> {
    s.map_values(|n: String| n@)
}

impl View for NameSetChirho {
    type V = Set<Seq<char>>;

    closed spec fn view(&self) -> Set<Seq<char>> {
        string_views_chirho(self.names_chirho@).to_set()
    }
}

impl NameSetChirho {
    /// The names in the order first inserted.
    pub closed spec fn order_spec_chirho(&self) -> Seq<Seq<char>> {
        string_views_chirho(self.names_chirho@)
    }

    /// No name occurs twice.
    #[verifier::type_invariant]
    closed spec fn wf_chirho(&self) -> bool {
        string_views_chirho(self.names_chirho@).no_duplicates()
    }

    /// Creates an empty set.
    pub fn new_chirho() -> (r: Self)
        ensures
            r@ == Set::<Seq<char>>::empty(),
            r.order_spec_chirho() == Seq::<Seq<char>>::empty(),
    {
        let r = NameSetChirho { names_chirho: Vec::new() };
        assert(string_views_chirho(r.names_chirho@) =~= Seq::<Seq<char>>::empty());
        r
    }

    /// Returns true if the name is a member.
    pub fn contains_chirho(&self, name_chirho: &String) -> (r: bool)
        ensures
            r == self@.contains(name_chirho@),
    {
        let ghost v = string_views_chirho(self.names_chirho@);
        let mut i: usize = 0;
        while i < self.names_chirho.len()
            invariant
                0 <= i <= self.names_chirho@.len(),
                v == string_views_chirho(self.names_chirho@),
                forall|j: int| 0 <= j < i ==> v[j] != name_chirho@,
            decreases self.names_chirho@.len() - i,
        {
            if self.names_chirho[i] == *name_chirho {
                assert(v[i as int] == name_chirho@);
                assert(v.contains(name_chirho@));
                return true;
            }
            i = i + 1;
        }
        assert(!v.contains(name_chirho@)) by {
            if v.contains(name_chirho@) {
                let j = choose|j: int| 0 <= j < v.len() && v[j] == name_chirho@;
                assert(v[j] != name_chirho@);
            }
        }
        false
    }

    /// Adds a name; returns true if it was not a member.
    pub fn insert_chirho(&mut self, name_chirho: String) -> (r: bool)
        ensures
            final(self)@ == old(self)@.insert(name_chirho@),
            r == !old(self)@.contains(name_chirho@),
            final(self).order_spec_chirho() == (if r {
                old(self).order_spec_chirho().push(name_chirho@)
            } else {
                old(self).order_spec_chirho()
            }),
    {
        proof {
            use_type_invariant(&*self);
        }
        if self.contains_chirho(&name_chirho) {
            proof {
                assert(self@.insert(name_chirho@) =~= self@);
            }
            return false;
        }
        let ghost before = string_views_chirho(self.names_chirho@);
        let ghost n = name_chirho@;
        let mut names = Vec::new();
        std::mem::swap(&mut names, &mut self.names_chirho);
        names.push(name_chirho);
        proof {
            assert(string_views_chirho(names@) =~= before.push(n));
            assert(!before.contains(n));
            assert(before.push(n).no_duplicates()) by {
                assert forall|i: int, j: int| 0 <= i < before.push(n).len() && 0 <= j < before.push(n).len() && i != j
                    implies before.push(n)[i] != before.push(n)[j] by {
                    if i < before.len() && j < before.len() {
                    } else if i < before.len() {
                        assert(before.contains(before[i]));
                    } else {
                        assert(before.contains(before[j]));
                    }
                }
            }
            before.lemma_push_to_set_commute(n);
        }
        self.names_chirho = names;
        true
    }

    /// Returns true if there is no member.
    pub fn is_empty_chirho(&self) -> (r: bool)
        ensures
            r == (self@ == Set::<Seq<char>>::empty()),
    {
        proof {
            use_type_invariant(self);
            self.order_spec_chirho().unique_seq_to_set();
            if self.order_spec_chirho().len() > 0 {
                assert(self@.contains(self.order_spec_chirho()[0]));
            } else {
                assert(self@ =~= Set::<Seq<char>>::empty());
            }
        }
        self.names_chirho.len() == 0
    }

    /// Returns the number of members.
    pub fn len_chirho(&self) -> (r: usize)
        ensures
            r == self@.len(),
    {
        proof {
            use_type_invariant(self);
            self.order_spec_chirho().unique_seq_to_set();
        }
        self.names_chirho.len()
    }

    /// Returns true if every member is a member of `other`.
    pub fn is_subset_chirho(&self, other_chirho: &NameSetChirho) -> (r: bool)
        ensures
            r == self@.subset_of(other_chirho@),
    {
        let ghost v = string_views_chirho(self.names_chirho@);
        let mut i: usize = 0;
        while i < self.names_chirho.len()
            invariant
                0 <= i <= self.names_chirho@.len(),
                v == string_views_chirho(self.names_chirho@),
                forall|j: int| 0 <= j < i ==> other_chirho@.contains(#[trigger] v[j]),
            decreases self.names_chirho@.len() - i,
        {
            if !other_chirho.contains_chirho(&self.names_chirho[i]) {
                assert(self@.contains(v[i as int]));
                return false;
            }
            i = i + 1;
        }
        assert forall|x: Seq<char>| self@.contains(x) implies other_chirho@.contains(x) by {
            let j = choose|j: int| 0 <= j < v.len() && v[j] == x;
            assert(other_chirho@.contains(v[j]));
        }
        true
    }

    /// Adds every member of `other`, in its order.
    pub fn extend_chirho(&mut self, other_chirho: &NameSetChirho)
        ensures
            final(self)@ == old(self)@.union(other_chirho@),
    {
        let ghost v = string_views_chirho(other_chirho.names_chirho@);
        let mut i: usize = 0;
        while i < other_chirho.names_chirho.len()
            invariant
                0 <= i <= other_chirho.names_chirho@.len(),
                v == string_views_chirho(other_chirho.names_chirho@),
                self@ == old(self)@.union(v.take(i as int).to_set()),
            decreases other_chirho.names_chirho@.len() - i,
        {
            let name = other_chirho.names_chirho[i].clone();
            self.insert_chirho(name);
            proof {
                assert(v.take(i + 1) =~= v.take(i as int).push(v[i as int]));
                v.take(i as int).lemma_push_to_set_commute(v[i as int]);
            }
            i = i + 1;
        }
        proof {
            assert(v.take(i as int) =~= v);
            assert(self@ =~= old(self)@.union(other_chirho@));
        }
    }

    /// A copy of this set, in the same order.
    pub fn copy_chirho(&self) -> (r: Self)
        ensures
            r@ == self@,
            r.order_spec_chirho() == self.order_spec_chirho(),
    {
        proof {
            use_type_invariant(self);
        }
        let mut names: Vec<String> = Vec::new();
        let mut i: usize = 0;
        while i < self.names_chirho.len()
            invariant
                0 <= i <= self.names_chirho@.len(),
                string_views_chirho(names@) == string_views_chirho(self.names_chirho@).take(i as int),
            decreases self.names_chirho@.len() - i,
        {
            let name = self.names_chirho[i].clone();
            assert(name@ == self.names_chirho@[i as int]@);
            let ghost prev = names@;
            names.push(name);
            proof {
                let target = string_views_chirho(self.names_chirho@).take(i + 1);
                assert(string_views_chirho(prev) == string_views_chirho(self.names_chirho@).take(i as int));
                assert forall|j: int| 0 <= j < i + 1 implies #[trigger] string_views_chirho(names@)[j] == target[j] by {
                    if j < i {
                        assert(names@[j] == prev[j]);
                        assert(string_views_chirho(prev)[j] == target[j]);
                    }
                }
                assert(string_views_chirho(names@) =~= target);
            }
            i = i + 1;
        }
        proof {
            assert(string_views_chirho(self.names_chirho@).take(i as int) =~= string_views_chirho(self.names_chirho@));
        }
        NameSetChirho { names_chirho: names }
    }

    /// The members, in the order first inserted.
    pub fn names_chirho(&self) -> (r: Vec<String>)
        ensures
            string_views_chirho(r@) == self.order_spec_chirho(),
            string_views_chirho(r@).to_set() == self@,
            string_views_chirho(r@).no_duplicates(),
    {
        proof {
            use_type_invariant(self);
        }
        let c = self.copy_chirho();
        c.names_chirho
    }
}

} // verus!
