//! A set of case-normalized identity strings. Every identity is lower-cased
//! before it is inserted, and callers lower-case before testing membership,
//! so comparisons are case-insensitive throughout.

use vstd::prelude::*;

verus! {

/// An immutable-once-built set of normalized identity strings. Used for the
/// run-wide editor directory and for a proposal's declared author set.
pub struct IdentitySet {
    items: Vec<String>,
}

impl View for IdentitySet {
    type V = Set<Seq<char>>;

    closed spec fn view(&self) -> Set<Seq<char>> {
        Set::new(
            |x: Seq<char>|
                exists|j: int| 0 <= j < self.items@.len() && #[trigger] self.items@[j]@ == x,
        )
    }
}

impl IdentitySet {
    /// The empty identity set.
    pub fn new() -> (r: IdentitySet)
        ensures
            r@ == Set::<Seq<char>>::empty(),
    {
        let r = IdentitySet { items: Vec::new() };
        proof {
            assert(r@ =~= Set::<Seq<char>>::empty());
        }
        r
    }

    /// Adds one identity to the set.
    pub fn insert(&mut self, s: String)
        ensures
            final(self)@ == old(self)@.insert(s@),
    {
        let ghost pre = self.items@;
        let ghost x = s@;
        self.items.push(s);
        proof {
            assert forall|y: Seq<char>| self@.contains(y) implies old(self)@.insert(x).contains(
                y,
            ) by {
                let j = choose|j: int| 0 <= j < self.items@.len() && #[trigger] self.items@[j]@
                    == y;
                if j < pre.len() {
                    assert(pre[j]@ == y);
                }
            }
            assert forall|y: Seq<char>| old(self)@.insert(x).contains(y) implies self@.contains(
                y,
            ) by {
                if old(self)@.contains(y) {
                    let j = choose|j: int| 0 <= j < pre.len() && #[trigger] pre[j]@ == y;
                    assert(self.items@[j]@ == y);
                } else {
                    assert(self.items@[pre.len() as int]@ == y);
                }
            }
            assert(self@ =~= old(self)@.insert(x));
        }
    }

    /// Whether the set holds exactly this string.
    pub fn contains(&self, s: &String) -> (r: bool)
        ensures
            r == self@.contains(s@),
    {
        let mut i: usize = 0;
        while i < self.items.len()
            invariant
                i <= self.items.len(),
                forall|j: int| 0 <= j < i ==> #[trigger] self.items@[j]@ != s@,
            decreases self.items.len() - i,
        {
            if self.items[i].eq(s) {
                proof {
                    assert(self.items@[i as int]@ == s@);
                }
                return true;
            }
            i += 1;
        }
        false
    }
}

} // verus!
