//! Decorating plain text: a shade block before each visible character.

use vstd::prelude::*;

verus! {

/// `s` decorated: every character that is not a space gains a shade block
/// right before it; spaces pass through unchanged.
pub open spec fn spec_link_in_bio(s: Seq<char>) -> Seq<char>
    decreases s.len(),
{
    if s.len() == 0 {
        Seq::empty()
    } else {
        spec_link_in_bio(s.drop_last()) + (if s.last() == ' ' {
            seq![' ']
        } else {
            seq!['\u{2591}', s.last()]
        })
    }
}

/// `s` with a shade block before each non-space character.
pub fn link_in_bio(s: &str) -> (r: String)
    ensures
        r@ == spec_link_in_bio(s@),
{
    let n = s.unicode_len();
    let mut genned = String::new();
    let mut i: usize = 0;
    proof {
        assert(s@.take(0) =~= Seq::<char>::empty());
    }
    while i < n
        invariant
            i <= n,
            n == s@.len(),
            genned@ == spec_link_in_bio(s@.take(i as int)),
        decreases n - i,
    {
        let c = s.get_char(i);
        proof {
            assert(s@.take(i + 1).drop_last() =~= s@.take(i as int));
            assert(s@.take(i + 1).last() == s@[i as int]);
        }
        if c != ' ' {
            genned.append("\u{2591}");
            let piece = s.substring_char(i, i + 1);
            proof {
                assert(piece@ =~= seq![c]);
            }
            genned.append(piece);
            proof {
                reveal_strlit("\u{2591}");
                assert("\u{2591}"@ =~= seq!['\u{2591}']);
                assert(genned@ =~= spec_link_in_bio(s@.take(i + 1)));
            }
        } else {
            genned.append(" ");
            proof {
                reveal_strlit(" ");
                assert(" "@ =~= seq![' ']);
                assert(genned@ =~= spec_link_in_bio(s@.take(i + 1)));
            }
        }
        i = i + 1;
    }
    proof {
        assert(s@.take(n as int) =~= s@);
    }
    genned
}

} // verus!
