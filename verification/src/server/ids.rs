//! Random identifiers, for lobbies and guest players.

use vstd::prelude::*;

verus! {

/// A symbol of the URL-safe alphabet: `_`, `-`, a digit, or a latin
/// letter in either case.
pub open spec fn is_id_char(c: char) -> bool {
    ||| c == '_'
    ||| c == '-'
    ||| ('0' <= c && c <= '9')
    ||| ('a' <= c && c <= 'z')
    ||| ('A' <= c && c <= 'Z')
}

/// `nanoid::format`, with `nanoid::rngs::default` as the source of random
/// bytes and the alphabet `nanoid::alphabet::SAFE`: a random string of
/// `size` symbols, each taken from that alphabet. Nothing is claimed of
/// which symbols come out. A size of 0 would ask for no random bytes and
/// loop forever, and `8 * size` must not overflow.
#[verifier::external_body]
pub(crate) fn nanoid_format(size: usize) -> (r: String)
    requires
        0 < size <= usize::MAX / 8,
    ensures
        r@.len() == size,
        forall|i: int| 0 <= i < r@.len() ==> is_id_char(#[trigger] r@[i]),
{
    nanoid::format(nanoid::rngs::default, &nanoid::alphabet::SAFE, size)
}

} // verus!
