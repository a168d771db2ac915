//! Case-insensitive ordering of names, folding at ASCII granularity.

use vstd::prelude::*;

verus! {

/// Code point of `c`, with ASCII uppercase letters folded to lowercase.
pub open spec fn fold_code(c: char) -> int {
    if 65 <= c as int && c as int <= 90 {
        c as int + 32
    } else {
        c as int
    }
}

/// Lexicographic "less or equal" on names compared by folded code points;
/// a prefix orders before every extension of it.
pub open spec fn ci_le(a: Seq<char>, b: Seq<char>) -> bool
    decreases a.len(),
{
    if a.len() == 0 {
        true
    } else if b.len() == 0 {
        false
    } else if fold_code(a[0]) < fold_code(b[0]) {
        true
    } else if fold_code(a[0]) > fold_code(b[0]) {
        false
    } else {
        ci_le(a.skip(1), b.skip(1))
    }
}

/// `ci_le` relates every pair of names one way or the other.
pub proof fn lemma_ci_le_total(a: Seq<char>, b: Seq<char>)
    ensures
        ci_le(a, b) || ci_le(b, a),
    decreases a.len(),
{
    if a.len() != 0 && b.len() != 0 && fold_code(a[0]) == fold_code(b[0]) {
        lemma_ci_le_total(a.skip(1), b.skip(1));
    }
}

/// `ci_le` is transitive.
pub proof fn lemma_ci_le_trans(a: Seq<char>, b: Seq<char>, c: Seq<char>)
    requires
        ci_le(a, b),
        ci_le(b, c),
    ensures
        ci_le(a, c),
    decreases a.len(),
{
    if a.len() != 0 && b.len() != 0 && c.len() != 0 && fold_code(a[0]) == fold_code(b[0])
        && fold_code(b[0]) == fold_code(c[0]) {
        lemma_ci_le_trans(a.skip(1), b.skip(1), c.skip(1));
    }
}

/// Folded code point of one character.
pub fn fold_char_code(c: char) -> (r: u32)
    ensures
        r as int == fold_code(c),
{
    let u = c as u32;
    if 65 <= u && u <= 90 {
        u + 32
    } else {
        u
    }
}

/// Decides `ci_le` on two names.
pub fn ci_le_exec(a: &str, b: &str) -> (r: bool)
    ensures
        r == ci_le(a@, b@),
{
    let la = a.unicode_len();
    let lb = b.unicode_len();
    let mut i: usize = 0;
    proof {
        assert(a@.skip(0) =~= a@);
        assert(b@.skip(0) =~= b@);
    }
    loop
        invariant
            i <= la,
            i <= lb,
            la == a@.len(),
            lb == b@.len(),
            ci_le(a@, b@) == ci_le(a@.skip(i as int), b@.skip(i as int)),
        decreases la - i,
    {
        if i >= la {
            proof {
                assert(a@.skip(i as int) =~= Seq::<char>::empty());
            }
            return true;
        }
        if i >= lb {
            proof {
                assert(b@.skip(i as int) =~= Seq::<char>::empty());
            }
            return false;
        }
        let ca = fold_char_code(a.get_char(i));
        let cb = fold_char_code(b.get_char(i));
        proof {
            assert(a@.skip(i as int)[0] == a@[i as int]);
            assert(b@.skip(i as int)[0] == b@[i as int]);
            assert(a@.skip(i as int).skip(1) =~= a@.skip(i as int + 1));
            assert(b@.skip(i as int).skip(1) =~= b@.skip(i as int + 1));
        }
        if ca < cb {
            return true;
        }
        if ca > cb {
            return false;
        }
        i = i + 1;
    }
}

} // verus!
