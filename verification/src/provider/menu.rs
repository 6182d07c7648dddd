//! Which selections get the "Verbinde im Terminal" menu entry.

use vstd::prelude::*;

use crate::text::{ascii_lower, chars_of, eq_ignore_ascii_case, to_ascii_lowercase};

verus! {

broadcast use vstd::string::group_string_axioms;

/// A URI that names an `.ovpn` file: it ends in `.ovpn`, in any ASCII case.
pub open spec fn ovpn_uri(uri: Seq<char>) -> bool {
    uri.len() >= 5 && eq_ignore_ascii_case(uri.skip(uri.len() - 5), ".ovpn"@)
}

/// Whether the menu entry is offered for a file with this URI.
pub fn is_ovpn_uri(uri: &str) -> (r: bool)
    ensures
        r == ovpn_uri(uri@),
{
    let chars = chars_of(uri);
    let suffix = chars_of(".ovpn");
    proof {
        reveal_strlit(".ovpn");
    }
    let n = chars.len();
    if n < 5 {
        return false;
    }
    let mut k: usize = 0;
    while k < 5
        invariant
            n == chars@.len(),
            n >= 5,
            k <= 5,
            suffix@ == ".ovpn"@,
            chars@ == uri@,
            suffix@.len() == 5,
            forall|i: int| 0 <= i < 5 ==> ascii_lower(#[trigger] suffix@[i]) == suffix@[i],
            forall|i: int| 0 <= i < k ==> ascii_lower(chars@[n - 5 + i]) == suffix@[i],
        decreases 5 - k,
    {
        if to_ascii_lowercase(chars[n - 5 + k]) != suffix[k] {
            let ghost tail = uri@.skip(uri@.len() - 5);
            assert(tail[k as int] == chars@[n - 5 + k]);
            assert(ascii_lower(tail[k as int]) != ascii_lower(".ovpn"@[k as int]));
            return false;
        }
        k = k + 1;
    }
    true
}

} // verus!
