//! Dice rolls and room codes: everything that is left to chance.

use vstd::prelude::*;
use rand::RngExt;

verus! {

/// Calls `random_range` of `rand`'s thread generator on the inclusive range `lo..=hi`: some value
/// in the range. Which one is left to chance.
#[verifier::external_body]
fn random_between(lo: usize, hi: usize) -> (res: usize)
    requires
        lo <= hi,
    ensures
        lo <= res <= hi,
{
    rand::rng().random_range(lo..=hi)
}

/// The number of characters of a room code.
pub const CODE_LEN: usize = 5;

/// The number of characters that a room code draws from.
pub const CODE_ALPHABET_LEN: usize = 32;

/// The characters of room codes: the capital letters without `I` and `O`, and the digits from two.
pub open spec fn code_alphabet() -> Seq<char> {
    "ABCDEFGHJKLMNPQRSTUVWXYZ23456789"@
}

/// A room code: five characters of the alphabet.
pub open spec fn is_room_code(code: Seq<char>) -> bool {
    &&& code.len() == CODE_LEN
    &&& forall|i: int| 0 <= i < code.len() ==> code_alphabet().contains(#[trigger] code[i])
}

/// A die shows a face from one to six.
pub open spec fn is_face(d: u8) -> bool {
    1 <= d <= 6
}

/// Every die shows a face.
pub open spec fn all_faces(dice: Seq<u8>) -> bool {
    forall|i: int| 0 <= i < dice.len() ==> is_face(#[trigger] dice[i])
}

/// The code that a sequence of draws from the alphabet spells.
pub open spec fn spelled(draws: Seq<usize>) -> Seq<char> {
    draws.map_values(|d: usize| code_alphabet()[d as int])
}

/// Spells the code of the given draws.
pub fn code_from_draws(draws: &Vec<usize>) -> (res: String)
    requires
        forall|i: int| 0 <= i < draws@.len() ==> #[trigger] draws@[i] < CODE_ALPHABET_LEN,
    ensures
        res@ == spelled(draws@),
{
    let alphabet = crate::text::chars_of("ABCDEFGHJKLMNPQRSTUVWXYZ23456789");
    proof {
        reveal_strlit("ABCDEFGHJKLMNPQRSTUVWXYZ23456789");
    }
    let mut out = String::new();
    let mut i: usize = 0;
    while i < draws.len()
        invariant
            i <= draws@.len(),
            alphabet@ == code_alphabet(),
            alphabet@.len() == CODE_ALPHABET_LEN,
            forall|k: int| 0 <= k < draws@.len() ==> #[trigger] draws@[k] < CODE_ALPHABET_LEN,
            out@ == spelled(draws@.take(i as int)),
        decreases draws@.len() - i,
    {
        out.push(alphabet[draws[i]]);
        i += 1;
        assert(out@ == spelled(draws@.take(i as int)));
    }
    assert(draws@.take(i as int) == draws@);
    out
}

/// Draws a room code.
pub fn generate_code() -> (res: String)
    ensures
        is_room_code(res@),
{
    let mut draws: Vec<usize> = Vec::new();
    while draws.len() < CODE_LEN
        invariant
            draws@.len() <= CODE_LEN,
            forall|k: int| 0 <= k < draws@.len() ==> #[trigger] draws@[k] < CODE_ALPHABET_LEN,
        decreases CODE_LEN - draws@.len(),
    {
        draws.push(random_between(0, CODE_ALPHABET_LEN - 1));
    }
    let code = code_from_draws(&draws);
    proof {
        reveal_strlit("ABCDEFGHJKLMNPQRSTUVWXYZ23456789");
        assert forall|i: int| 0 <= i < code@.len() implies code_alphabet().contains(
            #[trigger] code@[i],
        ) by {
            assert(code@[i] == code_alphabet()[draws@[i] as int]);
        }
    }
    code
}

/// Rolls `n` dice.
pub fn roll_n(n: usize) -> (res: Vec<u8>)
    ensures
        res@.len() == n,
        all_faces(res@),
{
    let mut dice: Vec<u8> = Vec::new();
    while dice.len() < n
        invariant
            dice@.len() <= n,
            all_faces(dice@),
        decreases n - dice@.len(),
    {
        dice.push(random_between(1, 6) as u8);
    }
    dice
}

} // verus!
