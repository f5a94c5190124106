//! Dice scoring for Bones (5 dice) and Farkle (6 dice).
//!
//! Shared singles:
//! - 1 → 100, 5 → 50
//!
//! Bones:
//! - three 1s → 1000; five 1s → 2000
//! - three of a kind → face × 100
//! - four of a kind → face × 200 (four 1s stay 1000)
//! - five of a kind (faces 2–6) → automatic win
//!
//! Farkle:
//! - 3× 1s = 1000; other 3× = face × 100
//! - 4× / 5× / 6× = face × 200 / 300 / 400 (1s: 2000 / 3000 / 4000)
//! - three pairs / straight 1–6 = 1500; two triplets = 2500

use crate::chance::{all_faces, is_face};
use crate::protocol::GameMode;
use crate::scoring_laws::cheapest_selection_decides;
use vstd::prelude::*;

verus! {

/// What a set of dice is worth.
#[derive(Clone, Copy, Debug, PartialEq, Eq, Structural)]
pub struct ScoreOutcome {
    pub points: u32,
    pub auto_win: bool,
}

/// What a selection of dice is worth, and which of the selected dice earn it.
#[derive(Clone, Debug)]
pub struct HeldScore {
    pub points: u32,
    pub auto_win: bool,
    pub used: Vec<usize>,
}

/// A held score, with the used dice as a sequence.
#[verifier::ext_equal]
pub struct HeldModel {
    pub points: u32,
    pub auto_win: bool,
    pub used: Seq<usize>,
}

impl View for HeldScore {
    type V = HeldModel;

    open spec fn view(&self) -> HeldModel {
        HeldModel { points: self.points, auto_win: self.auto_win, used: self.used@ }
    }
}

// ---------------------------------------------------------------------------
// The rules
// ---------------------------------------------------------------------------

/// How many of the dice show `face`.
pub open spec fn copies(dice: Seq<u8>, face: u8) -> nat {
    dice.filter(|d: u8| d == face).len()
}

/// How many dice show each face; the entry for face zero is no face of a die.
pub open spec fn tally(dice: Seq<u8>) -> Seq<nat> {
    Seq::new(7, |f: int| copies(dice, f as u8))
}

pub open spec fn one_if(b: bool) -> nat {
    if b {
        1
    } else {
        0
    }
}

/// How many faces show exactly `k` times.
pub open spec fn faces_with(t: Seq<nat>, k: nat) -> nat {
    one_if(t[1] == k) + one_if(t[2] == k) + one_if(t[3] == k) + one_if(t[4] == k) + one_if(
        t[5] == k,
    ) + one_if(t[6] == k)
}

/// Every face once.
pub open spec fn straight(t: Seq<nat>) -> bool {
    faces_with(t, 1) == 6
}

/// Three faces twice, and no other die.
pub open spec fn three_pairs(t: Seq<nat>) -> bool {
    faces_with(t, 2) == 3 && faces_with(t, 0) == 3
}

/// Two faces three times, and no other die.
pub open spec fn two_triplets(t: Seq<nat>) -> bool {
    faces_with(t, 3) == 2 && faces_with(t, 0) == 4
}

/// The points of the six dice combinations of Farkle.
pub open spec fn special(t: Seq<nat>, n: nat) -> Option<u32> {
    if n != 6 {
        None
    } else if straight(t) || three_pairs(t) {
        Some(1500)
    } else if two_triplets(t) {
        Some(2500)
    } else {
        None
    }
}

/// Three of a kind.
pub open spec fn triple_value(face: int) -> nat
    recommends
        1 <= face <= 6,
{
    if face == 1 {
        1000
    } else {
        (face * 100) as nat
    }
}

/// How many of `c` equal dice count as one set of three or more.
pub open spec fn set_size(mode: GameMode, c: nat) -> nat {
    let largest: nat = if mode == GameMode::Farkle {
        6
    } else {
        4
    };
    if c < 3 {
        0
    } else if c < largest {
        c
    } else {
        largest
    }
}

/// The points of the set of three or more among `c` dice of one face.
pub open spec fn set_points(mode: GameMode, face: int, c: nat) -> nat {
    let k = set_size(mode, c);
    if k == 0 {
        0
    } else if mode == GameMode::Bones && face == 1 {
        1000
    } else {
        triple_value(face) * (k - 2) as nat
    }
}

/// The points of one die on its own.
pub open spec fn single_value(face: int) -> nat {
    if face == 1 {
        100
    } else if face == 5 {
        50
    } else {
        0
    }
}

/// The points of `c` dice of one face.
pub open spec fn face_points(mode: GameMode, face: int, c: nat) -> nat {
    set_points(mode, face, c) + (c - set_size(mode, c)) as nat * single_value(face)
}

/// How many of `c` dice of one face earn points.
pub open spec fn face_used(mode: GameMode, face: int, c: nat) -> nat {
    if face == 1 || face == 5 {
        c
    } else {
        set_size(mode, c)
    }
}

/// The points of all faces together.
pub open spec fn total_points(mode: GameMode, t: Seq<nat>) -> nat {
    face_points(mode, 1, t[1]) + face_points(mode, 2, t[2]) + face_points(mode, 3, t[3])
        + face_points(mode, 4, t[4]) + face_points(mode, 5, t[5]) + face_points(mode, 6, t[6])
}

/// Every die earns points.
pub open spec fn all_used(mode: GameMode, t: Seq<nat>) -> bool {
    forall|f: int| 1 <= f <= 6 ==> face_used(mode, f, #[trigger] t[f]) == t[f]
}

/// The lowest face that shows exactly five times.
pub open spec fn five_face(t: Seq<nat>) -> Option<int> {
    if t[1] == 5 {
        Some(1)
    } else if t[2] == 5 {
        Some(2)
    } else if t[3] == 5 {
        Some(3)
    } else if t[4] == 5 {
        Some(4)
    } else if t[5] == 5 {
        Some(5)
    } else if t[6] == 5 {
        Some(6)
    } else {
        None
    }
}

/// The combinations that are scored as a whole: the specials of Farkle, and five of a kind in
/// Bones, which wins at once unless it is five 1s.
pub open spec fn whole_outcome(mode: GameMode, t: Seq<nat>, n: nat) -> Option<ScoreOutcome> {
    if mode == GameMode::Farkle {
        match special(t, n) {
            Some(points) => Some(ScoreOutcome { points, auto_win: false }),
            None => None,
        }
    } else {
        match five_face(t) {
            Some(face) => if face == 1 {
                Some(ScoreOutcome { points: 2000, auto_win: false })
            } else {
                Some(ScoreOutcome { points: 0, auto_win: true })
            },
            None => None,
        }
    }
}

/// The dice of every face but the one that shows five times can be used: they earn points, or are
/// five of a kind themselves.
pub open spec fn rest_used(mode: GameMode, t: Seq<nat>) -> bool {
    forall|f: int|
        1 <= f <= 6 && five_face(t) != Some(f) ==> face_used(mode, f, #[trigger] t[f]) == t[f]
            || t[f] == 5
}

/// The score of a set of dice, all of which must be used.
pub open spec fn dice_score(mode: GameMode, dice: Seq<u8>) -> Option<ScoreOutcome> {
    let t = tally(dice);
    if dice.len() == 0 || !all_faces(dice) {
        None
    } else if whole_outcome(mode, t, dice.len()) is Some {
        if mode == GameMode::Bones && !rest_used(mode, t) {
            None
        } else {
            whole_outcome(mode, t, dice.len())
        }
    } else if all_used(mode, t) {
        Some(ScoreOutcome { points: total_points(mode, t) as u32, auto_win: false })
    } else {
        None
    }
}

/// The point total of a set of dice fits its machine type.
pub open spec fn score_fits(mode: GameMode, dice: Seq<u8>) -> bool {
    all_faces(dice) ==> total_points(mode, tally(dice)) <= u32::MAX
}

/// A selection of dice: places in the roll, none twice, each with a die that shows a face.
pub open spec fn valid_selection(dice: Seq<u8>, sel: Seq<usize>) -> bool {
    &&& sel.no_duplicates()
    &&& forall|k: int|
        0 <= k < sel.len() ==> #[trigger] sel[k] < dice.len() && is_face(dice[sel[k] as int])
}

/// The die at a place shows `face`.
pub open spec fn shows_face(dice: Seq<u8>, face: u8) -> spec_fn(usize) -> bool {
    |i: usize| dice[i as int] == face
}

/// The selected places whose die shows `face`, in the order of the selection.
pub open spec fn of_face(dice: Seq<u8>, sel: Seq<usize>, face: u8) -> Seq<usize> {
    sel.filter(shows_face(dice, face))
}

/// How many selected dice show each face.
pub open spec fn held_tally(dice: Seq<u8>, sel: Seq<usize>) -> Seq<nat> {
    Seq::new(7, |f: int| of_face(dice, sel, f as u8).len())
}

/// The selected places of one face that earn points: as many as are used, from the first.
pub open spec fn used_of_face(mode: GameMode, dice: Seq<u8>, sel: Seq<usize>, face: int) -> Seq<
    usize,
> {
    let places = of_face(dice, sel, face as u8);
    places.take(face_used(mode, face, places.len()) as int)
}

/// The selected places of the first `n` faces that earn points, face by face.
pub open spec fn used_up_to(mode: GameMode, dice: Seq<u8>, sel: Seq<usize>, n: int) -> Seq<usize>
    decreases n,
{
    if n <= 0 {
        seq![]
    } else {
        used_up_to(mode, dice, sel, n - 1) + used_of_face(mode, dice, sel, n)
    }
}

/// The selected places that earn points, face by face.
pub open spec fn used_places(mode: GameMode, dice: Seq<u8>, sel: Seq<usize>) -> Seq<usize> {
    used_up_to(mode, dice, sel, 6)
}

/// The selected places of the first `n` faces, face by face.
pub open spec fn places_up_to(dice: Seq<u8>, sel: Seq<usize>, n: int) -> Seq<usize>
    decreases n,
{
    if n <= 0 {
        seq![]
    } else {
        places_up_to(dice, sel, n - 1) + of_face(dice, sel, n as u8)
    }
}

/// All selected places, face by face.
pub open spec fn places_by_face(dice: Seq<u8>, sel: Seq<usize>) -> Seq<usize> {
    places_up_to(dice, sel, 6)
}

/// The score of the complete combinations in a selection. Dead dice are left aside.
pub open spec fn held_score(mode: GameMode, dice: Seq<u8>, sel: Seq<usize>) -> Option<HeldModel> {
    let t = held_tally(dice, sel);
    if sel.len() == 0 || !valid_selection(dice, sel) {
        None
    } else {
        match whole_outcome(mode, t, sel.len()) {
            Some(o) => Some(
                HeldModel {
                    points: o.points,
                    auto_win: o.auto_win,
                    used: if mode == GameMode::Farkle {
                        places_by_face(dice, sel)
                    } else {
                        of_face(dice, sel, five_face(t)->0 as u8)
                    },
                },
            ),
            None => if total_points(mode, t) == 0 {
                None
            } else {
                Some(
                    HeldModel {
                        points: total_points(mode, t) as u32,
                        auto_win: false,
                        used: used_places(mode, dice, sel),
                    },
                )
            },
        }
    }
}

/// The point total of a selection fits its machine type.
pub open spec fn held_fits(mode: GameMode, dice: Seq<u8>, sel: Seq<usize>) -> bool {
    valid_selection(dice, sel) ==> total_points(mode, held_tally(dice, sel)) <= u32::MAX
}

/// The whole roll is one of the specials of Farkle.
pub open spec fn full_special(mode: GameMode, dice: Seq<u8>) -> bool {
    mode == GameMode::Farkle && all_faces(dice) && special(tally(dice), dice.len()) is Some
}

/// Some die of the roll is worth points: the roll is no bust.
pub open spec fn any_score(mode: GameMode, dice: Seq<u8>) -> bool {
    &&& dice.len() > 0
    &&& all_faces(dice)
    &&& {
        ||| full_special(mode, dice)
        ||| copies(dice, 1) > 0
        ||| copies(dice, 5) > 0
        ||| exists|f: int| 2 <= f <= 6 && #[trigger] tally(dice)[f] >= 3
    }
}

/// A die can be kept if it is a 1 or 5, its face has at least three showing, or the full roll is
/// a special combination that includes it.
pub open spec fn keepable(mode: GameMode, dice: Seq<u8>, index: int) -> bool {
    &&& 0 <= index < dice.len()
    &&& {
        ||| dice[index] == 1
        ||| dice[index] == 5
        ||| 2 <= dice[index] <= 6 && (copies(dice, dice[index]) >= 3 || full_special(mode, dice))
    }
}

/// A sum that stops at the largest value of its machine type.
pub open spec fn capped(n: int) -> int {
    if n > u32::MAX {
        u32::MAX as int
    } else {
        n
    }
}

/// A selection that scores, with points that fit their machine type, and, when `on_board`, keeps
/// the score at or under `win_score`.
pub open spec fn playable(
    mode: GameMode,
    dice: Seq<u8>,
    sel: Seq<usize>,
    score: u32,
    turn_points: u32,
    on_board: bool,
    win_score: u32,
) -> bool {
    &&& held_fits(mode, dice, sel)
    &&& held_score(mode, dice, sel) matches Some(held) && (held.auto_win || !on_board || capped(
        score + capped(turn_points + held.points),
    ) <= win_score)
}

/// Some selection of the dice is playable.
pub open spec fn some_playable(
    mode: GameMode,
    dice: Seq<u8>,
    score: u32,
    turn_points: u32,
    on_board: bool,
    win_score: u32,
) -> bool {
    exists|sel: Seq<usize>| playable(mode, dice, sel, score, turn_points, on_board, win_score)
}

// ---------------------------------------------------------------------------
// Counting
// ---------------------------------------------------------------------------

/// An array of counts shows a tally.
pub open spec fn shows(counts: Seq<usize>, t: Seq<nat>) -> bool {
    &&& counts.len() == 7
    &&& t.len() == 7
    &&& forall|f: int| 0 <= f < 7 ==> #[trigger] counts[f] == t[f]
}

pub proof fn lemma_copies_push(dice: Seq<u8>, d: u8, face: u8)
    ensures
        copies(dice.push(d), face) == copies(dice, face) + one_if(d == face),
{
    reveal(Seq::filter);
    assert(dice.push(d).drop_last() == dice);
}

pub proof fn lemma_copies_bound(dice: Seq<u8>, face: u8)
    ensures
        copies(dice, face) <= dice.len(),
{
    dice.lemma_filter_len(|d: u8| d == face);
}

fn face_counts(dice: &[u8]) -> (res: Option<[usize; 7]>)
    ensures
        res is Some <==> all_faces(dice@),
        res matches Some(counts) ==> shows(counts@, tally(dice@)),
{
    let mut counts: [usize; 7] = [0; 7];
    let mut i: usize = 0;
    proof {
        reveal(Seq::filter);
    }
    while i < dice.len()
        invariant
            i <= dice@.len(),
            all_faces(dice@.take(i as int)),
            shows(counts@, tally(dice@.take(i as int))),
        decreases dice@.len() - i,
    {
        let d = dice[i];
        if d < 1 || d > 6 {
            assert(!is_face(dice@[i as int]));
            return None;
        }
        proof {
            let before = dice@.take(i as int);
            assert(dice@.take(i + 1) == before.push(d));
            assert forall|f: int| 0 <= f < 7 implies #[trigger] tally(dice@.take(i + 1))[f]
                == tally(before)[f] + one_if(d == f) by {
                lemma_copies_push(before, d, f as u8);
            }
            assert(tally(before)[d as int] <= before.len()) by {
                lemma_copies_bound(before, d);
            }
            assert forall|k: int| 0 <= k < i + 1 implies is_face(#[trigger] dice@.take(i + 1)[k]) by {
                if k < i {
                    assert(before[k] == dice@.take(i + 1)[k]);
                }
            }
        }
        counts[d as usize] += 1;
        i += 1;
    }
    assert(dice@.take(i as int) == dice@);
    Some(counts)
}

fn count_with(counts: &[usize; 7], k: usize) -> (res: usize)
    ensures
        forall|t: Seq<nat>| #[trigger] shows(counts@, t) ==> res == faces_with(t, k as nat),
{
    let mut n: usize = 0;
    if counts[1] == k {
        n += 1;
    }
    if counts[2] == k {
        n += 1;
    }
    if counts[3] == k {
        n += 1;
    }
    if counts[4] == k {
        n += 1;
    }
    if counts[5] == k {
        n += 1;
    }
    if counts[6] == k {
        n += 1;
    }
    n
}

fn is_straight(counts: &[usize; 7]) -> (res: bool)
    ensures
        forall|t: Seq<nat>| #[trigger] shows(counts@, t) ==> res == straight(t),
{
    count_with(counts, 1) == 6
}

fn is_three_pairs(counts: &[usize; 7]) -> (res: bool)
    ensures
        forall|t: Seq<nat>| #[trigger] shows(counts@, t) ==> res == three_pairs(t),
{
    count_with(counts, 2) == 3 && count_with(counts, 0) == 3
}

fn is_two_triplets(counts: &[usize; 7]) -> (res: bool)
    ensures
        forall|t: Seq<nat>| #[trigger] shows(counts@, t) ==> res == two_triplets(t),
{
    count_with(counts, 3) == 2 && count_with(counts, 0) == 4
}

fn farkle_special(counts: &[usize; 7], len: usize) -> (res: Option<ScoreOutcome>)
    ensures
        forall|t: Seq<nat>| #[trigger]
            shows(counts@, t) ==> res == whole_outcome(GameMode::Farkle, t, len as nat),
{
    if len != 6 {
        return None;
    }
    if is_straight(counts) || is_three_pairs(counts) {
        return Some(ScoreOutcome { points: 1500, auto_win: false });
    }
    if is_two_triplets(counts) {
        return Some(ScoreOutcome { points: 2500, auto_win: false });
    }
    None
}

fn three_of_a_kind_value(face: u8) -> (res: u32)
    requires
        is_face(face),
    ensures
        res == triple_value(face as int),
{
    if face == 1 {
        1000
    } else {
        (face as u32) * 100
    }
}

/// Points for n-of-a-kind in Farkle: the value of three times (n - 2), for n from three to six.
fn kind_points(face: u8, count: usize) -> (res: u32)
    requires
        is_face(face),
    ensures
        res == set_points(GameMode::Farkle, face as int, count as nat),
{
    let n: u32 = if count < 6 {
        count as u32
    } else {
        6
    };
    if n < 3 {
        return 0;
    }
    let base: u32 = three_of_a_kind_value(face);
    assert(base * (n - 2) <= 4000) by (nonlinear_arith)
        requires
            0 <= base <= 1000,
            3 <= n <= 6,
    ;
    base * (n - 2)
}

fn face_set_size(mode: GameMode, c: usize) -> (res: usize)
    ensures
        res == set_size(mode, c as nat),
{
    if c < 3 {
        0
    } else if mode == GameMode::Farkle {
        if c < 6 {
            c
        } else {
            6
        }
    } else if c < 4 {
        c
    } else {
        4
    }
}

fn face_set_points(mode: GameMode, face: u8, c: usize) -> (res: u32)
    requires
        is_face(face),
    ensures
        res == set_points(mode, face as int, c as nat),
        res <= 4000,
{
    if mode == GameMode::Farkle {
        let res: u32 = kind_points(face, c);
        proof {
            lemma_set_points_bound(mode, face as int, c as nat);
        }
        res
    } else if c >= 4 {
        if face == 1 {
            1000
        } else {
            assert(triple_value(face as int) * 2 == face * 200);
            (face as u32) * 200
        }
    } else if c >= 3 {
        assert(triple_value(face as int) * 1 == triple_value(face as int));
        three_of_a_kind_value(face)
    } else {
        0
    }
}

pub proof fn lemma_set_points_bound(mode: GameMode, face: int, c: nat)
    requires
        1 <= face <= 6,
    ensures
        set_points(mode, face, c) <= 4000,
        set_points(mode, face, c) <= 1000 * set_size(mode, c),
        set_size(mode, c) <= c,
        set_size(mode, c) > 0 ==> set_points(mode, face, c) > 0,
{
    let k = set_size(mode, c);
    if k > 0 && !(mode == GameMode::Bones && face == 1) {
        let v = triple_value(face);
        let m = (k - 2) as nat;
        assert(0 < v * m <= 1000 * m) by (nonlinear_arith)
            requires
                0 < v <= 1000,
                m > 0,
        ;
    }
}

/// The points of `c` dice of one face.
fn points_of_face(mode: GameMode, face: u8, c: usize) -> (res: u32)
    requires
        is_face(face),
        face_points(mode, face as int, c as nat) <= u32::MAX,
    ensures
        res == face_points(mode, face as int, c as nat),
{
    let set: u32 = face_set_points(mode, face, c);
    let size: usize = face_set_size(mode, c);
    proof {
        lemma_set_points_bound(mode, face as int, c as nat);
    }
    if face == 1 {
        set + ((c - size) as u32) * 100
    } else if face == 5 {
        set + ((c - size) as u32) * 50
    } else {
        set
    }
}

fn used_count(mode: GameMode, face: u8, c: usize) -> (res: usize)
    ensures
        res == face_used(mode, face as int, c as nat),
        res <= c,
{
    if face == 1 || face == 5 {
        c
    } else {
        face_set_size(mode, c)
    }
}

/// The points of the first `n` faces.
pub open spec fn points_up_to(mode: GameMode, t: Seq<nat>, n: int) -> nat
    decreases n,
{
    if n <= 0 {
        0
    } else {
        points_up_to(mode, t, n - 1) + face_points(mode, n, t[n])
    }
}

proof fn lemma_points_up_to(mode: GameMode, t: Seq<nat>, n: int)
    requires
        0 <= n <= 6,
    ensures
        points_up_to(mode, t, 6) == total_points(mode, t),
        points_up_to(mode, t, n) <= total_points(mode, t),
        n > 0 ==> points_up_to(mode, t, n) == points_up_to(mode, t, n - 1) + face_points(
            mode,
            n,
            t[n],
        ),
{
    reveal_with_fuel(points_up_to, 7);
}

/// The sum over all faces of the points that their dice earn.
fn sum_points(mode: GameMode, counts: &[usize; 7], Ghost(t): Ghost<Seq<nat>>) -> (res: u32)
    requires
        shows(counts@, t),
        total_points(mode, t) <= u32::MAX,
    ensures
        res == total_points(mode, t),
{
    let mut points: u32 = 0;
    let mut face: usize = 1;
    while face <= 6
        invariant
            1 <= face <= 7,
            shows(counts@, t),
            total_points(mode, t) <= u32::MAX,
            points == points_up_to(mode, t, face - 1),
        decreases 7 - face,
    {
        proof {
            lemma_points_up_to(mode, t, face as int);
        }
        points += points_of_face(mode, face as u8, counts[face]);
        face += 1;
    }
    proof {
        lemma_points_up_to(mode, t, 6);
    }
    points
}

/// The lowest face with a count of exactly five.
fn find_five(counts: &[usize; 7]) -> (res: Option<usize>)
    ensures
        forall|t: Seq<nat>| #[trigger]
            shows(counts@, t) ==> match res {
                Some(face) => five_face(t) == Some(face as int),
                None => five_face(t) is None,
            },
{
    let mut face: usize = 1;
    while face <= 6
        invariant
            1 <= face <= 7,
            forall|f: int| 1 <= f < face ==> #[trigger] counts@[f] != 5,
        decreases 7 - face,
    {
        if counts[face] == 5 {
            assert forall|t: Seq<nat>| #[trigger] shows(counts@, t) implies five_face(t) == Some(
                face as int,
            ) by {
                assert forall|f: int| 1 <= f < face implies #[trigger] t[f] != 5 by {
                    assert(counts@[f] != 5);
                }
            }
            return Some(face);
        }
        face += 1;
    }
    assert forall|t: Seq<nat>| #[trigger] shows(counts@, t) implies five_face(t) is None by {
        assert forall|f: int| 1 <= f <= 6 implies #[trigger] t[f] != 5 by {
            assert(counts@[f] != 5);
        }
    }
    None
}

/// The combinations that are scored as a whole.
fn whole_score(mode: GameMode, counts: &[usize; 7], len: usize) -> (res: Option<ScoreOutcome>)
    ensures
        forall|t: Seq<nat>| #[trigger]
            shows(counts@, t) ==> res == whole_outcome(mode, t, len as nat),
{
    if mode == GameMode::Farkle {
        farkle_special(counts, len)
    } else {
        match find_five(counts) {
            Some(face) => if face == 1 {
                Some(ScoreOutcome { points: 2000, auto_win: false })
            } else {
                Some(ScoreOutcome { points: 0, auto_win: true })
            },
            None => None,
        }
    }
}

// ---------------------------------------------------------------------------
// Scoring
// ---------------------------------------------------------------------------

/// Tells whether the dice of every face earn points, all of them.
fn every_die_used(mode: GameMode, counts: &[usize; 7], Ghost(t): Ghost<Seq<nat>>) -> (res: bool)
    requires
        shows(counts@, t),
    ensures
        res == all_used(mode, t),
{
    let mut face: usize = 1;
    while face <= 6
        invariant
            1 <= face <= 7,
            shows(counts@, t),
            forall|f: int| 1 <= f < face ==> face_used(mode, f, #[trigger] t[f]) == t[f],
        decreases 7 - face,
    {
        if used_count(mode, face as u8, counts[face]) != counts[face] {
            assert(face_used(mode, face as int, t[face as int]) != t[face as int]);
            return false;
        }
        face += 1;
    }
    true
}

/// Tells whether the dice of every face but the one that shows five times can be used.
fn other_dice_used(mode: GameMode, counts: &[usize; 7], Ghost(t): Ghost<Seq<nat>>) -> (res: bool)
    requires
        shows(counts@, t),
    ensures
        res == rest_used(mode, t),
{
    let five = find_five(counts);
    let mut face: usize = 1;
    while face <= 6
        invariant
            1 <= face <= 7,
            shows(counts@, t),
            match five {
                Some(g) => five_face(t) == Some(g as int),
                None => five_face(t) is None,
            },
            forall|f: int|
                1 <= f < face && five_face(t) != Some(f) ==> face_used(mode, f, #[trigger] t[f])
                    == t[f] || t[f] == 5,
        decreases 7 - face,
    {
        let is_five = match five {
            Some(g) => g == face,
            None => false,
        };
        let c: usize = counts[face];
        assert(c == t[face as int]);
        if !is_five && c != 5 && used_count(mode, face as u8, c) != c {
            return false;
        }
        face += 1;
    }
    true
}

/// Scores the dice by their counts alone: all of them must be used.
fn score_n_of_a_kind(mode: GameMode, counts: &[usize; 7], Ghost(t): Ghost<Seq<nat>>) -> (res: Option<
    ScoreOutcome,
>)
    requires
        shows(counts@, t),
        total_points(mode, t) <= u32::MAX,
    ensures
        res == (if all_used(mode, t) {
            Some(ScoreOutcome { points: total_points(mode, t) as u32, auto_win: false })
        } else {
            None
        }),
{
    if !every_die_used(mode, counts, Ghost(t)) {
        return None;
    }
    Some(ScoreOutcome { points: sum_points(mode, counts, Ghost(t)), auto_win: false })
}

/// Score a multiset of die faces. Returns `None` if any die cannot be used
/// in a scoring combination.
pub fn score_dice(mode: GameMode, dice: &[u8]) -> (res: Option<ScoreOutcome>)
    requires
        score_fits(mode, dice@),
    ensures
        res == dice_score(mode, dice@),
{
    if dice.len() == 0 {
        return None;
    }
    match face_counts(dice) {
        Some(counts) => {
            if let Some(whole) = whole_score(mode, &counts, dice.len()) {
                if mode == GameMode::Bones && !other_dice_used(
                    mode,
                    &counts,
                    Ghost(tally(dice@)),
                ) {
                    return None;
                }
                return Some(whole);
            }
            score_n_of_a_kind(mode, &counts, Ghost(tally(dice@)))
        },
        None => None,
    }
}

/// Tells whether a set of dice wins at once.
pub fn wins_at_once(mode: GameMode, dice: &[u8]) -> (res: bool)
    ensures
        res == (dice_score(mode, dice@) matches Some(outcome) && outcome.auto_win),
{
    if dice.len() == 0 {
        return false;
    }
    match face_counts(dice) {
        Some(counts) => {
            match whole_score(mode, &counts, dice.len()) {
                Some(whole) => whole.auto_win && other_dice_used(
                    mode,
                    &counts,
                    Ghost(tally(dice@)),
                ),
                None => false,
            }
        },
        None => false,
    }
}

pub proof fn lemma_push_distinct(s: Seq<usize>, x: usize)
    requires
        s.no_duplicates(),
        !s.contains(x),
    ensures
        s.push(x).no_duplicates(),
        forall|y: usize| #[trigger] s.push(x).contains(y) <==> s.contains(y) || y == x,
{
    let after = s.push(x);
    assert forall|a: int, b: int|
        0 <= a < after.len() && 0 <= b < after.len() && a != b implies after[a] != after[b] by {
        if a == s.len() {
            assert(s.contains(s[b]));
        } else if b == s.len() {
            assert(s.contains(s[a]));
        } else {
            assert(s[a] != s[b]);
        }
    }
    assert forall|y: usize| #[trigger] after.contains(y) <==> s.contains(y) || y == x by {
        if s.contains(y) {
            let j = choose|j: int| 0 <= j < s.len() && s[j] == y;
            assert(after[j] == y);
        }
        if y == x {
            assert(after[s.len() as int] == y);
        }
    }
}

/// Places in a roll, none twice.
pub open spec fn distinct_places(len: nat, sel: Seq<usize>) -> bool {
    &&& sel.no_duplicates()
    &&& forall|k: int| 0 <= k < sel.len() ==> #[trigger] sel[k] < len
}

/// Tells whether the places are in a roll of `len` dice, none twice.
fn check_places(len: usize, selected: &[usize]) -> (res: bool)
    ensures
        res == distinct_places(len as nat, selected@),
{
    let mut seen: Vec<bool> = vec![false; len];
    let mut k: usize = 0;
    while k < selected.len()
        invariant
            k <= selected@.len(),
            seen@.len() == len,
            selected@.take(k as int).no_duplicates(),
            forall|q: int| 0 <= q < k ==> #[trigger] selected@[q] < len,
            forall|i: int|
                0 <= i < len ==> #[trigger] seen@[i] == selected@.take(k as int).contains(i as usize),
        decreases selected@.len() - k,
    {
        let i = selected[k];
        let ghost before = selected@.take(k as int);
        assert(selected@.take(k + 1) == before.push(i));
        if i >= len {
            return false;
        }
        if seen[i] {
            proof {
                let j = choose|j: int| 0 <= j < before.len() && before[j] == i;
                assert(selected@[j] == selected@[k as int]);
            }
            return false;
        }
        seen.set(i, true);
        proof {
            lemma_push_distinct(before, i);
        }
        k += 1;
    }
    assert(selected@.take(k as int) == selected@);
    true
}

/// Tells whether the places are in the roll, none twice, each with a die that shows a face.
fn check_selection(dice: &[u8], selected: &[usize]) -> (res: bool)
    ensures
        res == valid_selection(dice@, selected@),
{
    if !check_places(dice.len(), selected) {
        return false;
    }
    let mut k: usize = 0;
    while k < selected.len()
        invariant
            k <= selected@.len(),
            distinct_places(dice@.len(), selected@),
            forall|q: int| 0 <= q < k ==> is_face(dice@[#[trigger] selected@[q] as int]),
        decreases selected@.len() - k,
    {
        let face = dice[selected[k]];
        if face < 1 || face > 6 {
            assert(!is_face(dice@[selected@[k as int] as int]));
            return false;
        }
        k += 1;
    }
    true
}

/// The selected places whose die shows `face`.
fn places_of_face(dice: &[u8], selected: &[usize], face: u8) -> (res: Vec<usize>)
    requires
        valid_selection(dice@, selected@),
    ensures
        res@ == of_face(dice@, selected@, face),
        res@.len() <= selected@.len(),
{
    let mut out: Vec<usize> = Vec::new();
    let mut k: usize = 0;
    proof {
        reveal(Seq::filter);
    }
    while k < selected.len()
        invariant
            k <= selected@.len(),
            valid_selection(dice@, selected@),
            out@ == of_face(dice@, selected@.take(k as int), face),
            out@.len() <= k,
        decreases selected@.len() - k,
    {
        let i = selected[k];
        proof {
            reveal(Seq::filter);
            assert(selected@.take(k + 1).drop_last() == selected@.take(k as int));
        }
        if dice[i] == face {
            out.push(i);
        }
        k += 1;
    }
    assert(selected@.take(k as int) == selected@);
    out
}

/// Counts the selected dice of each face.
fn held_counts(dice: &[u8], selected: &[usize]) -> (res: [usize; 7])
    requires
        valid_selection(dice@, selected@),
    ensures
        shows(res@, held_tally(dice@, selected@)),
{
    let mut counts: [usize; 7] = [0; 7];
    let mut face: usize = 0;
    while face < 7
        invariant
            face <= 7,
            valid_selection(dice@, selected@),
            counts@.len() == 7,
            forall|f: int| 0 <= f < face ==> #[trigger] counts@[f] == held_tally(dice@, selected@)[f],
        decreases 7 - face,
    {
        counts[face] = places_of_face(dice, selected, face as u8).len();
        face += 1;
    }
    counts
}

/// Appends the first `n` places.
fn append_first(out: &mut Vec<usize>, places: &Vec<usize>, n: usize)
    requires
        n <= places@.len(),
    ensures
        final(out)@ == old(out)@ + places@.take(n as int),
{
    let mut k: usize = 0;
    let ghost start = out@;
    assert(out@ == start + places@.take(0));
    while k < n
        invariant
            k <= n <= places@.len(),
            out@ == start + places@.take(k as int),
        decreases n - k,
    {
        out.push(places[k]);
        k += 1;
        assert(out@ == start + places@.take(k as int));
    }
}

/// All selected places, face by face.
fn collect_places(dice: &[u8], selected: &[usize]) -> (res: Vec<usize>)
    requires
        valid_selection(dice@, selected@),
    ensures
        res@ == places_by_face(dice@, selected@),
{
    let mut out: Vec<usize> = Vec::new();
    let mut face: usize = 1;
    while face <= 6
        invariant
            1 <= face <= 7,
            valid_selection(dice@, selected@),
            out@ == places_up_to(dice@, selected@, face - 1),
        decreases 7 - face,
    {
        let places = places_of_face(dice, selected, face as u8);
        append_first(&mut out, &places, places.len());
        assert(places@.take(places@.len() as int) == places@);
        face += 1;
    }
    out
}

/// The selected places that earn points, face by face.
fn collect_used(mode: GameMode, dice: &[u8], selected: &[usize]) -> (res: Vec<usize>)
    requires
        valid_selection(dice@, selected@),
    ensures
        res@ == used_places(mode, dice@, selected@),
{
    let mut out: Vec<usize> = Vec::new();
    let mut face: usize = 1;
    while face <= 6
        invariant
            1 <= face <= 7,
            valid_selection(dice@, selected@),
            out@ == used_up_to(mode, dice@, selected@, face - 1),
        decreases 7 - face,
    {
        let places = places_of_face(dice, selected, face as u8);
        append_first(&mut out, &places, used_count(mode, face as u8, places.len()));
        face += 1;
    }
    out
}

/// Score only complete combinations in a selection. Dead leftover faces
/// (e.g. a lone 6, or a 2 next to three 6s) are ignored, not rejected.
pub fn score_held(mode: GameMode, dice: &[u8], selected: &[usize]) -> (res: Option<HeldScore>)
    requires
        held_fits(mode, dice@, selected@),
    ensures
        match res {
            Some(held) => held_score(mode, dice@, selected@) == Some(held@),
            None => held_score(mode, dice@, selected@) is None,
        },
{
    if selected.len() == 0 || !check_selection(dice, selected) {
        return None;
    }
    let counts = held_counts(dice, selected);
    let ghost t = held_tally(dice@, selected@);
    if let Some(whole) = whole_score(mode, &counts, selected.len()) {
        let used = if mode == GameMode::Farkle {
            collect_places(dice, selected)
        } else {
            match find_five(&counts) {
                Some(face) => places_of_face(dice, selected, face as u8),
                None => Vec::new(),
            }
        };
        return Some(HeldScore { points: whole.points, auto_win: whole.auto_win, used });
    }
    let points: u32 = sum_points(mode, &counts, Ghost(t));
    if points == 0 {
        None
    } else {
        Some(HeldScore { points, auto_win: false, used: collect_used(mode, dice, selected) })
    }
}

/// The points of `c` dice of one face, however many there are.
fn wide_points_of_face(mode: GameMode, face: u8, c: usize) -> (res: u128)
    requires
        is_face(face),
    ensures
        res == face_points(mode, face as int, c as nat),
        res <= 1000 * c,
{
    let set: u32 = face_set_points(mode, face, c);
    let size: usize = face_set_size(mode, c);
    proof {
        lemma_set_points_bound(mode, face as int, c as nat);
        lemma_face_points_bound(mode, face as int, c as nat);
    }
    if face == 1 {
        (set as u128) + ((c - size) as u128) * 100
    } else if face == 5 {
        (set as u128) + ((c - size) as u128) * 50
    } else {
        set as u128
    }
}

/// Tells whether the points of a selection fit their machine type.
pub fn held_points_fit(mode: GameMode, dice: &[u8], selected: &[usize]) -> (res: bool)
    ensures
        res == held_fits(mode, dice@, selected@),
{
    if !check_selection(dice, selected) {
        return true;
    }
    let counts = held_counts(dice, selected);
    let ghost t = held_tally(dice@, selected@);
    assert(counts@[1] == t[1] && counts@[2] == t[2] && counts@[3] == t[3] && counts@[4] == t[4]
        && counts@[5] == t[5] && counts@[6] == t[6]);
    let total: u128 = wide_points_of_face(mode, 1, counts[1]) + wide_points_of_face(
        mode,
        2,
        counts[2],
    ) + wide_points_of_face(mode, 3, counts[3]) + wide_points_of_face(mode, 4, counts[4])
        + wide_points_of_face(mode, 5, counts[5]) + wide_points_of_face(mode, 6, counts[6]);
    total <= u32::MAX as u128
}

/// Tells whether any die of a roll is worth points.
pub fn has_any_score(mode: GameMode, dice: &[u8]) -> (res: bool)
    ensures
        res == any_score(mode, dice@),
{
    if dice.len() == 0 {
        return false;
    }
    match face_counts(dice) {
        Some(counts) => {
            let ghost t = tally(dice@);
            if mode == GameMode::Farkle && farkle_special(&counts, dice.len()).is_some() {
                return true;
            }
            assert(counts@[1] == t[1] && counts@[5] == t[5]);
            if counts[1] > 0 || counts[5] > 0 {
                return true;
            }
            let mut face: usize = 2;
            while face <= 6
                invariant
                    2 <= face <= 7,
                    dice@.len() > 0,
                    all_faces(dice@),
                    t == tally(dice@),
                    shows(counts@, t),
                    forall|f: int| 2 <= f < face ==> #[trigger] t[f] < 3,
                decreases 7 - face,
            {
                if counts[face] >= 3 {
                    assert(tally(dice@)[face as int] >= 3);
                    return true;
                }
                face += 1;
            }
            false
        },
        None => false,
    }
}

fn full_hand_special(mode: GameMode, dice: &[u8]) -> (res: bool)
    ensures
        res == full_special(mode, dice@),
{
    if mode != GameMode::Farkle {
        return false;
    }
    match face_counts(dice) {
        Some(counts) => farkle_special(&counts, dice.len()).is_some(),
        None => false,
    }
}

/// How many dice show `face`.
fn count_face(dice: &[u8], face: u8) -> (res: usize)
    ensures
        res == copies(dice@, face),
{
    let mut n: usize = 0;
    let mut i: usize = 0;
    proof {
        reveal(Seq::filter);
    }
    while i < dice.len()
        invariant
            i <= dice@.len(),
            n <= i,
            n == copies(dice@.take(i as int), face),
        decreases dice@.len() - i,
    {
        proof {
            assert(dice@.take(i + 1) == dice@.take(i as int).push(dice@[i as int]));
            lemma_copies_push(dice@.take(i as int), dice@[i as int], face);
        }
        if dice[i] == face {
            n += 1;
        }
        i += 1;
    }
    assert(dice@.take(i as int) == dice@);
    n
}

/// A die can be kept if it is a 1 or 5, its face has at least three showing,
/// or (Farkle) the full roll is a special combination that includes it.
pub fn can_keep_die(mode: GameMode, dice: &[u8], index: usize) -> (res: bool)
    ensures
        res == keepable(mode, dice@, index as int),
{
    if index >= dice.len() {
        return false;
    }
    let face = dice[index];
    if face == 1 || face == 5 {
        return true;
    }
    if face < 2 || face > 6 {
        return false;
    }
    if count_face(dice, face) >= 3 {
        return true;
    }
    full_hand_special(mode, dice)
}

/// The faces at the given places.
pub open spec fn picked(dice: Seq<u8>, sel: Seq<usize>) -> Seq<u8> {
    sel.map_values(|i: usize| dice[i as int])
}

/// The score of the dice at the given places, all of which must be used.
pub open spec fn selection_score(mode: GameMode, dice: Seq<u8>, sel: Seq<usize>) -> Option<
    ScoreOutcome,
> {
    if distinct_places(dice.len(), sel) {
        dice_score(mode, picked(dice, sel))
    } else {
        None
    }
}

/// Scores the dice at the given places. Returns `None` where a place is named twice or is not
/// there, or where some die cannot be used.
pub fn score_selection(mode: GameMode, dice: &[u8], selected: &[usize]) -> (res: Option<
    ScoreOutcome,
>)
    requires
        distinct_places(dice@.len(), selected@) ==> score_fits(mode, picked(dice@, selected@)),
    ensures
        res == selection_score(mode, dice@, selected@),
{
    if !check_places(dice.len(), selected) {
        return None;
    }
    let mut faces: Vec<u8> = Vec::new();
    let mut k: usize = 0;
    while k < selected.len()
        invariant
            k <= selected@.len(),
            distinct_places(dice@.len(), selected@),
            faces@ == picked(dice@, selected@.take(k as int)),
        decreases selected@.len() - k,
    {
        faces.push(dice[selected[k]]);
        k += 1;
        assert(faces@ == picked(dice@, selected@.take(k as int)));
    }
    assert(selected@.take(k as int) == selected@);
    score_dice(mode, faces.as_slice())
}

// ---------------------------------------------------------------------------
// Playable selections
// ---------------------------------------------------------------------------

/// Places from `lo` up to `hi`, in rising order.
pub open spec fn rising(sel: Seq<usize>, lo: int, hi: int) -> bool {
    &&& forall|k: int| 0 <= k < sel.len() ==> lo <= #[trigger] sel[k] < hi
    &&& forall|a: int, b: int| 0 <= a < b < sel.len() ==> sel[a] < sel[b]
}

/// The fewest points that some of the dice with the given tally can be worth, if any of them are
/// worth anything.
pub open spec fn fewest_points(mode: GameMode, t: Seq<nat>) -> Option<u32> {
    if t[5] > 0 {
        Some(50)
    } else if t[1] > 0 {
        Some(100)
    } else if t[2] >= 3 {
        Some(200)
    } else if t[3] >= 3 {
        Some(300)
    } else if t[4] >= 3 {
        Some(400)
    } else if t[6] >= 3 {
        Some(600)
    } else if mode == GameMode::Farkle && one_if(t[2] >= 2) + one_if(t[3] >= 2) + one_if(
        t[4] >= 2,
    ) + one_if(t[6] >= 2) >= 3 {
        Some(1500)
    } else {
        None
    }
}

/// Some of the dice with the given tally win at once.
pub open spec fn can_win_at_once(mode: GameMode, t: Seq<nat>) -> bool {
    mode == GameMode::Bones && (t[2] >= 5 || t[3] >= 5 || t[4] >= 5 || t[5] >= 5 || t[6] >= 5)
}

fn count_faces(dice: &[u8]) -> (res: [usize; 7])
    ensures
        shows(res@, tally(dice@)),
{
    let mut counts: [usize; 7] = [0; 7];
    let mut face: usize = 0;
    while face < 7
        invariant
            face <= 7,
            counts@.len() == 7,
            forall|f: int| 0 <= f < face ==> #[trigger] counts@[f] == tally(dice@)[f],
        decreases 7 - face,
    {
        counts[face] = count_face(dice, face as u8);
        face += 1;
    }
    counts
}

fn least_worth(mode: GameMode, counts: &[usize; 7], Ghost(t): Ghost<Seq<nat>>) -> (res: Option<u32>)
    requires
        shows(counts@, t),
    ensures
        res == fewest_points(mode, t),
{
    assert(counts@[1] == t[1] && counts@[2] == t[2] && counts@[3] == t[3] && counts@[4] == t[4]
        && counts@[5] == t[5] && counts@[6] == t[6]);
    if counts[5] > 0 {
        return Some(50);
    }
    if counts[1] > 0 {
        return Some(100);
    }
    if counts[2] >= 3 {
        return Some(200);
    }
    if counts[3] >= 3 {
        return Some(300);
    }
    if counts[4] >= 3 {
        return Some(400);
    }
    if counts[6] >= 3 {
        return Some(600);
    }
    let mut pairs: usize = 0;
    if counts[2] >= 2 {
        pairs += 1;
    }
    if counts[3] >= 2 {
        pairs += 1;
    }
    if counts[4] >= 2 {
        pairs += 1;
    }
    if counts[6] >= 2 {
        pairs += 1;
    }
    if mode == GameMode::Farkle && pairs >= 3 {
        Some(1500)
    } else {
        None
    }
}

/// True if some non-empty selection scores and, when `on_board`, keeps
/// `score + turn_points + kept` at or under `win_score` (auto-wins always count).
pub fn has_playable_keep(
    mode: GameMode,
    dice: &[u8],
    score: u32,
    turn_points: u32,
    on_board: bool,
    win_score: u32,
) -> (res: bool)
    ensures
        res == some_playable(mode, dice@, score, turn_points, on_board, win_score),
{
    let counts = count_faces(dice);
    let ghost t = tally(dice@);
    proof {
        assert(counts@[1] == t[1] && counts@[2] == t[2] && counts@[3] == t[3] && counts@[4]
            == t[4] && counts@[5] == t[5] && counts@[6] == t[6]);
        assert(dice.len() == dice@.len());
        cheapest_selection_decides(mode, dice@, score, turn_points, on_board, win_score);
    }
    if mode == GameMode::Bones && (counts[2] >= 5 || counts[3] >= 5 || counts[4] >= 5 || counts[5]
        >= 5 || counts[6] >= 5) {
        return true;
    }
    match least_worth(mode, &counts, Ghost(t)) {
        Some(points) => {
            if !on_board {
                return true;
            }
            score.saturating_add(turn_points.saturating_add(points)) <= win_score
        },
        None => false,
    }
}

// ---------------------------------------------------------------------------
// Facts about tallies
// ---------------------------------------------------------------------------

pub proof fn lemma_rising_is_short(sel: Seq<usize>, lo: int, hi: int)
    requires
        rising(sel, lo, hi),
        lo <= hi,
    ensures
        sel.len() <= hi - lo,
    decreases sel.len(),
{
    if sel.len() > 0 {
        let last = sel.last() as int;
        assert(lo <= sel[sel.len() - 1] < hi);
        assert(rising(sel.drop_last(), lo, last));
        lemma_rising_is_short(sel.drop_last(), lo, last);
    }
}

pub proof fn lemma_of_face_push(dice: Seq<u8>, sel: Seq<usize>, i: usize, face: u8)
    ensures
        of_face(dice, sel.push(i), face).len() == of_face(dice, sel, face).len() + one_if(
            dice[i as int] == face,
        ),
{
    reveal(Seq::filter);
    assert(sel.push(i).drop_last() == sel);
}

/// How many dice a tally counts.
pub open spec fn tally_sum(t: Seq<nat>) -> nat {
    t[1] + t[2] + t[3] + t[4] + t[5] + t[6]
}

/// The tally of a selection counts each selected die once.
pub proof fn lemma_held_tally_sum(dice: Seq<u8>, sel: Seq<usize>)
    requires
        forall|k: int| 0 <= k < sel.len() ==> is_face(dice[#[trigger] sel[k] as int]),
    ensures
        tally_sum(held_tally(dice, sel)) == sel.len(),
    decreases sel.len(),
{
    reveal(Seq::filter);
    if sel.len() > 0 {
        let head = sel.drop_last();
        let i = sel.last();
        assert(head.push(i) == sel);
        assert forall|k: int| 0 <= k < head.len() implies is_face(
            dice[#[trigger] head[k] as int],
        ) by {
            assert(head[k] == sel[k]);
        }
        lemma_held_tally_sum(dice, head);
        lemma_of_face_push(dice, head, i, 1);
        lemma_of_face_push(dice, head, i, 2);
        lemma_of_face_push(dice, head, i, 3);
        lemma_of_face_push(dice, head, i, 4);
        lemma_of_face_push(dice, head, i, 5);
        lemma_of_face_push(dice, head, i, 6);
        assert(is_face(dice[sel[sel.len() - 1] as int]));
    }
}

pub proof fn lemma_face_points_bound(mode: GameMode, face: int, c: nat)
    requires
        1 <= face <= 6,
    ensures
        face_points(mode, face, c) <= 1000 * c,
        face_used(mode, face, c) <= c,
        face_points(mode, face, c) == 0 <==> face_used(mode, face, c) == 0,
{
    lemma_set_points_bound(mode, face, c);
    let rest = (c - set_size(mode, c)) as nat;
    let v = single_value(face);
    assert(rest * v <= 1000 * rest) by (nonlinear_arith)
        requires
            v <= 1000,
    ;
    if v > 0 && rest > 0 {
        assert(rest * v > 0) by (nonlinear_arith)
            requires
                v > 0,
                rest > 0,
        ;
    }
    if v == 0 {
        assert(rest * v == 0) by (nonlinear_arith)
            requires
                v == 0,
        ;
    }
    if rest == 0 {
        assert(rest * v == 0) by (nonlinear_arith)
            requires
                rest == 0,
        ;
    }
}

/// No die is worth more than a thousand points.
pub proof fn lemma_total_bound(mode: GameMode, t: Seq<nat>)
    ensures
        total_points(mode, t) <= 1000 * tally_sum(t),
{
    lemma_face_points_bound(mode, 1, t[1]);
    lemma_face_points_bound(mode, 2, t[2]);
    lemma_face_points_bound(mode, 3, t[3]);
    lemma_face_points_bound(mode, 4, t[4]);
    lemma_face_points_bound(mode, 5, t[5]);
    lemma_face_points_bound(mode, 6, t[6]);
}

/// Point totals of up to four million dice fit their machine type.
pub proof fn lemma_held_fits_short(mode: GameMode, dice: Seq<u8>, sel: Seq<usize>)
    requires
        sel.len() <= 4_000_000,
    ensures
        held_fits(mode, dice, sel),
{
    if valid_selection(dice, sel) {
        lemma_held_tally_sum(dice, sel);
        lemma_total_bound(mode, held_tally(dice, sel));
    }
}

/// A choice of distinct places is no longer than the roll.
pub proof fn lemma_distinct_places_len(len: nat, sel: Seq<usize>)
    requires
        distinct_places(len, sel),
    ensures
        sel.len() <= len,
{
    let sorted = lemma_sorted_form(sel);
    assert(rising(sorted, 0, len as int)) by {
        assert forall|k: int| 0 <= k < sorted.len() implies 0 <= #[trigger] sorted[k] < len by {
            assert(sel.contains(sorted[k]));
        }
    }
    lemma_rising_is_short(sorted, 0, len as int);
}

/// The same places in rising order.
pub proof fn lemma_sorted_form(sel: Seq<usize>) -> (sorted: Seq<usize>)
    requires
        sel.no_duplicates(),
    ensures
        sorted.to_multiset() == sel.to_multiset(),
        sorted.len() == sel.len(),
        forall|a: int, b: int| 0 <= a < b < sorted.len() ==> sorted[a] < sorted[b],
        forall|k: int| 0 <= k < sorted.len() ==> sel.contains(#[trigger] sorted[k]),
        sorted.no_duplicates(),
{
    broadcast use vstd::seq_lib::group_to_multiset_ensures;

    let leq = |a: usize, b: usize| a <= b;
    sel.lemma_sort_by_ensures(leq);
    let sorted = sel.sort_by(leq);
    assert(sorted.len() == sorted.to_multiset().len());
    assert(sel.len() == sel.to_multiset().len());
    sel.lemma_multiset_has_no_duplicates();
    sorted.lemma_multiset_has_no_duplicates_conv();
    assert forall|a: int, b: int| 0 <= a < b < sorted.len() implies sorted[a] < sorted[b] by {
        assert(leq(sorted[a], sorted[b]));
        assert(sorted[a] != sorted[b]);
    }
    assert forall|k: int| 0 <= k < sorted.len() implies sel.contains(#[trigger] sorted[k]) by {
        assert(sorted.to_multiset().contains(sorted[k]));
    }
    sorted
}

pub proof fn lemma_rising_form(dice: Seq<u8>, sel: Seq<usize>) -> (sorted: Seq<usize>)
    requires
        valid_selection(dice, sel),
    ensures
        sorted.to_multiset() == sel.to_multiset(),
        rising(sorted, 0, dice.len() as int),
{
    let sorted = lemma_sorted_form(sel);
    assert forall|k: int| 0 <= k < sorted.len() implies 0 <= #[trigger] sorted[k] < dice.len() by {
        assert(sel.contains(sorted[k]));
    }
    sorted
}

proof fn lemma_filter_multiset(sel: Seq<usize>, pred: spec_fn(usize) -> bool)
    ensures
        sel.filter(pred).to_multiset() == sel.to_multiset().filter(pred),
    decreases sel.len(),
{
    broadcast use vstd::seq_lib::group_to_multiset_ensures;
    broadcast use vstd::multiset::group_multiset_axioms;

    reveal(Seq::filter);
    if sel.len() > 0 {
        let head = sel.drop_last();
        lemma_filter_multiset(head, pred);
        assert(head.push(sel.last()) == sel);
    }
    assert(sel.filter(pred).to_multiset() =~= sel.to_multiset().filter(pred));
}

/// The order in which dice are selected changes neither whether the selection scores, nor its
/// points, nor whether it wins.
pub proof fn selection_order_is_immaterial(
    mode: GameMode,
    dice: Seq<u8>,
    sel1: Seq<usize>,
    sel2: Seq<usize>,
)
    requires
        sel1.to_multiset() == sel2.to_multiset(),
    ensures
        held_tally(dice, sel1) == held_tally(dice, sel2),
        match (held_score(mode, dice, sel1), held_score(mode, dice, sel2)) {
            (Some(h1), Some(h2)) => h1.points == h2.points && h1.auto_win == h2.auto_win,
            (None, None) => true,
            _ => false,
        },
{
    broadcast use vstd::seq_lib::group_to_multiset_ensures;

    assert(sel1.len() == sel1.to_multiset().len());
    assert(sel2.len() == sel2.to_multiset().len());
    assert forall|f: int| 0 <= f < 7 implies #[trigger] held_tally(dice, sel1)[f] == held_tally(
        dice,
        sel2,
    )[f] by {
        let pred = shows_face(dice, f as u8);
        lemma_filter_multiset(sel1, pred);
        lemma_filter_multiset(sel2, pred);
        assert(of_face(dice, sel1, f as u8).len() == sel1.filter(pred).to_multiset().len());
        assert(of_face(dice, sel2, f as u8).len() == sel2.filter(pred).to_multiset().len());
    }
    assert(held_tally(dice, sel1) =~= held_tally(dice, sel2));
    if valid_selection(dice, sel1) {
        lemma_valid_permuted(dice, sel1, sel2);
    }
    if valid_selection(dice, sel2) {
        lemma_valid_permuted(dice, sel2, sel1);
    }
}

proof fn lemma_valid_permuted(dice: Seq<u8>, sel1: Seq<usize>, sel2: Seq<usize>)
    requires
        sel1.to_multiset() == sel2.to_multiset(),
        valid_selection(dice, sel1),
    ensures
        valid_selection(dice, sel2),
{
    broadcast use vstd::seq_lib::group_to_multiset_ensures;

    sel1.lemma_multiset_has_no_duplicates();
    sel2.lemma_multiset_has_no_duplicates_conv();
    assert forall|k: int| 0 <= k < sel2.len() implies #[trigger] sel2[k] < dice.len() && is_face(
        dice[sel2[k] as int],
    ) by {
        assert(sel2.to_multiset().contains(sel2[k]));
        assert(sel1.contains(sel2[k]));
        let j = choose|j: int| 0 <= j < sel1.len() && sel1[j] == sel2[k];
        assert(sel1[j] < dice.len() && is_face(dice[sel1[j] as int]));
    }
}

} // verus!
