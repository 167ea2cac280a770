//! Tables of records keyed by address, stored as a sequence of entries.

use crate::address::{same_address, Address};
use vstd::prelude::*;

verus! {

/// No two entries of the table share an address.
pub open spec fn keys_unique<T>(s: Seq<(Address, T)>) -> bool {
    forall|i: int, j: int| 0 <= i < s.len() && 0 <= j < s.len() && s[i].0@ == s[j].0@ ==> i == j
}

/// The position of the last entry stored at address `a`, or -1 where there is none.
pub open spec fn index_of<T>(s: Seq<(Address, T)>, a: Seq<u8>) -> int
    decreases s.len(),
{
    if s.len() == 0 {
        -1
    } else if s.last().0@ == a {
        s.len() - 1
    } else {
        index_of(s.drop_last(), a)
    }
}

/// Whether some entry is stored at address `a`.
pub open spec fn has_key<T>(s: Seq<(Address, T)>, a: Seq<u8>) -> bool {
    index_of(s, a) >= 0
}

/// What `index_of` finds: a position whose address is `a`, or -1 where no entry has it.
pub proof fn lemma_index_of<T>(s: Seq<(Address, T)>, a: Seq<u8>)
    ensures
        -1 <= index_of(s, a) < s.len(),
        index_of(s, a) >= 0 ==> s[index_of(s, a)].0@ == a,
        index_of(s, a) == -1 ==> forall|i: int| 0 <= i < s.len() ==> s[i].0@ != a,
        keys_unique(s) ==> forall|i: int| 0 <= i < s.len() && s[i].0@ == a ==> index_of(s, a) == i,
    decreases s.len(),
{
    if s.len() > 0 {
        let t = s.drop_last();
        lemma_index_of(t, a);
        assert forall|i: int| 0 <= i < t.len() implies t[i] == s[i] by {}
    }
}

/// Two tables with the same addresses in the same places find every address in the same place.
pub proof fn lemma_index_of_same_keys<T>(s: Seq<(Address, T)>, t: Seq<(Address, T)>, a: Seq<u8>)
    requires
        s.len() == t.len(),
        forall|i: int| 0 <= i < s.len() ==> s[i].0@ == t[i].0@,
    ensures
        index_of(s, a) == index_of(t, a),
    decreases s.len(),
{
    if s.len() > 0 {
        let (s1, t1) = (s.drop_last(), t.drop_last());
        assert forall|i: int| 0 <= i < s1.len() implies s1[i].0@ == t1[i].0@ by {
            assert(s1[i] == s[i] && t1[i] == t[i]);
        }
        lemma_index_of_same_keys(s1, t1, a);
    }
}

/// An entry appended to a table is found at its address; every other address is found as before.
pub proof fn lemma_index_of_push<T>(s: Seq<(Address, T)>, e: (Address, T), a: Seq<u8>)
    ensures
        index_of(s.push(e), a) == if e.0@ == a { s.len() as int } else { index_of(s, a) },
{
    assert(s.push(e).drop_last() =~= s);
}

/// The position of the entry at address `a`, where the table has one.
pub fn find_index<T>(s: &Vec<(Address, T)>, a: &Address) -> (r: Option<usize>)
    requires
        keys_unique(s@),
    ensures
        match r {
            Some(i) => index_of(s@, a@) == i as int && i < s@.len() && s@[i as int].0@ == a@,
            None => index_of(s@, a@) == -1,
        },
{
    proof {
        lemma_index_of(s@, a@);
    }
    let mut i: usize = 0;
    while i < s.len()
        invariant
            0 <= i <= s@.len(),
            keys_unique(s@),
            forall|j: int| 0 <= j < i ==> s@[j].0@ != a@,
            forall|j: int| 0 <= j < s@.len() && s@[j].0@ == a@ ==> index_of(s@, a@) == j,
            -1 <= index_of(s@, a@) < s@.len(),
            index_of(s@, a@) >= 0 ==> s@[index_of(s@, a@)].0@ == a@,
        decreases s@.len() - i,
    {
        if same_address(&s[i].0, a) {
            return Some(i);
        }
        i = i + 1;
    }
    None
}

} // verus!
