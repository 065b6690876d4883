use vstd::prelude::*;

verus! {

/// Compares two string slices character by character.
pub fn str_eq(a: &str, b: &str) -> (r: bool)
    ensures
        r == (a@ == b@),
{
    let la = a.unicode_len();
    let lb = b.unicode_len();
    if la != lb {
        proof {
            if a@ == b@ {
                assert(a@.len() == b@.len());
            }
        }
        return false;
    }
    let mut i: usize = 0;
    while i < la
        invariant
            la == a@.len(),
            la == b@.len(),
            i <= la,
            forall|j: int| 0 <= j < i ==> a@[j] == b@[j],
        decreases la - i,
    {
        let ca = a.get_char(i);
        let cb = b.get_char(i);
        if ca != cb {
            proof {
                assert(a@[i as int] != b@[i as int]);
            }
            return false;
        }
        i = i + 1;
    }
    proof {
        assert(a@ =~= b@);
    }
    true
}

} // verus!
