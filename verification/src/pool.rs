//! What the node tells of a stake pool.

use vstd::prelude::*;

verus! {

/// A stake pool as the set of its members, each by the name it is shown under.
#[derive(Debug)]
pub struct Pool {
    members: Vec<String>,
}

/// No name is listed twice.
pub open spec fn names_differ(s: Seq<String>) -> bool {
    forall|i: int, j: int|
        0 <= i < s.len() && 0 <= j < s.len() && (#[trigger] s[i])@ == (#[trigger] s[j])@ ==> i == j
}

/// `name` is among the names listed.
pub open spec fn has_name(s: Seq<String>, name: Seq<char>) -> bool {
    exists|i: int| 0 <= i < s.len() && (#[trigger] s[i])@ == name
}

impl View for Pool {
    type V = Set<Seq<char>>;

    closed spec fn view(&self) -> Set<Seq<char>> {
        Set::new(|name: Seq<char>| has_name(self.members@, name))
    }
}

impl Pool {
    /// No member is listed twice.
    pub closed spec fn wf(&self) -> bool {
        names_differ(self.members@)
    }

    /// A pool without members.
    pub fn new() -> (p: Pool)
        ensures
            p.wf(),
            p@ == Set::<Seq<char>>::empty(),
    {
        let p = Pool { members: Vec::new() };
        assert(p@ =~= Set::<Seq<char>>::empty());
        p
    }

    pub fn contains(&self, name: &String) -> (b: bool)
        ensures
            b == self@.contains(name@),
    {
        let mut i: usize = 0;
        while i < self.members.len()
            invariant
                i <= self.members@.len(),
                forall|j: int| 0 <= j < i ==> (#[trigger] self.members@[j])@ != name@,
            decreases self.members@.len() - i,
        {
            if self.members[i] == *name {
                assert(has_name(self.members@, name@));
                return true;
            }
            i += 1;
        }
        false
    }

    /// Makes `name` a member; says whether it was none before.
    pub fn insert(&mut self, name: String) -> (fresh: bool)
        requires
            old(self).wf(),
        ensures
            final(self).wf(),
            final(self)@ == old(self)@.insert(name@),
            fresh == !old(self)@.contains(name@),
    {
        if self.contains(&name) {
            assert(self@ =~= old(self)@.insert(name@));
            return false;
        }
        let ghost before = self.members@;
        self.members.push(name);
        proof {
            let after = self.members@;
            assert forall|i: int, j: int|
                0 <= i < after.len() && 0 <= j < after.len() && (#[trigger] after[i])@ == (
                #[trigger] after[j])@ implies i == j by {
                if i < before.len() && j < before.len() {
                    assert(before[i]@ == before[j]@);
                } else if i < before.len() {
                    assert(has_name(before, name@));
                } else if j < before.len() {
                    assert(has_name(before, name@));
                }
            }
            assert forall|n: Seq<char>| has_name(after, n) <==> has_name(before, n) || n
                == name@ by {
                if has_name(after, n) {
                    let i = choose|i: int| 0 <= i < after.len() && (#[trigger] after[i])@ == n;
                    if i < before.len() {
                        assert(before[i]@ == n);
                    }
                }
                if has_name(before, n) {
                    let i = choose|i: int| 0 <= i < before.len() && (#[trigger] before[i])@ == n;
                    assert(after[i]@ == n);
                }
                if n == name@ {
                    assert(after[after.len() - 1]@ == n);
                }
            }
            assert(self@ =~= old(self)@.insert(name@));
        }
        true
    }

    /// The members, each once, in the order in which they joined.
    pub fn members(&self) -> (names: &Vec<String>)
        requires
            self.wf(),
        ensures
            names_differ(names@),
            forall|n: Seq<char>| has_name(names@, n) <==> #[trigger] self@.contains(n),
    {
        &self.members
    }
}

} // verus!
