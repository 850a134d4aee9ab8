use vstd::prelude::*;
use vstd::string::StringExecFns;

verus! {

/// The character-sequence views of a sequence of strings.
pub open spec fn names_seq(s: Seq<String>) -> Seq<Seq<char>> {
    s.map_values(|x: String| x@)
}

/// Relies on str's PartialEq: two string slices are equal exactly when their
/// character sequences are equal.
#[verifier::external_body]
pub(crate) fn str_eq(a: &str, b: &str) -> (r: bool)
    ensures
        r == (a@ == b@),
{
    a == b
}

/// A set of capability names, kept as a duplicate-free vector so that the
/// insertion order is available to the emission layer.
pub struct Names {
    items: Vec<String>,
}

impl View for Names {
    type V = Set<Seq<char>>;

    open spec fn view(&self) -> Set<Seq<char>> {
        self.names().to_set()
    }
}

impl Names {
    /// The member names in insertion order.
    pub closed spec fn names(&self) -> Seq<Seq<char>> {
        names_seq(self.items@)
    }

    /// No name occurs twice.
    pub open spec fn wf(&self) -> bool {
        self.names().no_duplicates()
    }

    pub fn new() -> (r: Names)
        ensures
            r@ == Set::<Seq<char>>::empty(),
            r.names() == Seq::<Seq<char>>::empty(),
            r.wf(),
    {
        let r = Names { items: Vec::new() };
        proof {
            assert(r.names() =~= Seq::<Seq<char>>::empty());
            assert(r@ =~= Set::<Seq<char>>::empty());
        }
        r
    }

    pub fn contains(&self, name: &str) -> (r: bool)
        ensures
            r == self@.contains(name@),
    {
        let mut i: usize = 0;
        while i < self.items.len()
            invariant
                i <= self.items@.len(),
                forall|j: int| 0 <= j < i ==> self.names()[j] != name@,
            decreases self.items@.len() - i,
        {
            if str_eq(self.items[i].as_str(), name) {
                assert(self.names()[i as int] == name@);
                assert(self.names().contains(name@));
                return true;
            }
            i = i + 1;
        }
        assert(!self.names().contains(name@));
        false
    }

    pub fn insert(&mut self, name: &str)
        requires
            old(self).wf(),
        ensures
            final(self)@ == old(self)@.insert(name@),
            final(self).wf(),
            final(self).names() == if old(self)@.contains(name@) {
                old(self).names()
            } else {
                old(self).names().push(name@)
            },
    {
        if !self.contains(name) {
            let owned = <String as StringExecFns>::from_str(name);
            self.items.push(owned);
            proof {
                assert(self.names() =~= old(self).names().push(name@));
                old(self).names().lemma_push_to_set_commute(name@);
                assert(self@ =~= old(self)@.insert(name@));
            }
        } else {
            proof {
                assert(self@ =~= old(self)@.insert(name@));
            }
        }
    }

    /// Inserts every member of `other`.
    pub fn insert_all(&mut self, other: &Names)
        requires
            old(self).wf(),
        ensures
            final(self)@ == old(self)@.union(other@),
            final(self).wf(),
    {
        proof {
            assert(self@ =~= old(self)@.union(other.names().take(0).to_set()));
        }
        let mut i: usize = 0;
        while i < other.items.len()
            invariant
                i <= other.items@.len(),
                self.wf(),
                self@ == old(self)@.union(other.names().take(i as int).to_set()),
            decreases other.items@.len() - i,
        {
            self.insert(other.items[i].as_str());
            proof {
                other.names().lemma_take_succ_push(i as int);
                other.names().take(i as int).lemma_push_to_set_commute(other.names()[i as int]);
                assert(other.names().take(i as int + 1).to_set() =~= other.names().take(
                    i as int,
                ).to_set().insert(other.names()[i as int]));
                assert(self@ =~= old(self)@.union(other.names().take(i as int + 1).to_set()));
            }
            i = i + 1;
        }
        proof {
            assert(other.names().take(other.names().len() as int) =~= other.names());
            assert(self@ =~= old(self)@.union(other@));
        }
    }

    /// Inserts every string of `list`.
    pub fn insert_list(&mut self, list: &Vec<String>)
        requires
            old(self).wf(),
        ensures
            final(self)@ == old(self)@.union(names_seq(list@).to_set()),
            final(self).wf(),
    {
        proof {
            assert(self@ =~= old(self)@.union(names_seq(list@).take(0).to_set()));
        }
        let mut i: usize = 0;
        while i < list.len()
            invariant
                i <= list@.len(),
                self.wf(),
                self@ == old(self)@.union(names_seq(list@).take(i as int).to_set()),
            decreases list@.len() - i,
        {
            self.insert(list[i].as_str());
            proof {
                names_seq(list@).lemma_take_succ_push(i as int);
                names_seq(list@).take(i as int).lemma_push_to_set_commute(
                    names_seq(list@)[i as int],
                );
                assert(names_seq(list@).take(i as int + 1).to_set() =~= names_seq(list@).take(
                    i as int,
                ).to_set().insert(names_seq(list@)[i as int]));
                assert(self@ =~= old(self)@.union(names_seq(list@).take(i as int + 1).to_set()));
            }
            i = i + 1;
        }
        proof {
            assert(names_seq(list@).take(names_seq(list@).len() as int) =~= names_seq(list@));
            assert(self@ =~= old(self)@.union(names_seq(list@).to_set()));
        }
    }

    pub fn len(&self) -> (n: usize)
        ensures
            n == self.names().len(),
    {
        self.items.len()
    }

    /// The members in insertion order.
    pub fn items(&self) -> (r: &Vec<String>)
        ensures
            names_seq(r@) == self.names(),
    {
        &self.items
    }
}

} // verus!
