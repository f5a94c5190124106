//! What dice are worth, in numbers: the price list of both games, stated face by face.

use crate::chance::{all_faces, is_face};
use crate::protocol::GameMode;
use crate::scoring::{
    HeldModel, ScoreOutcome, all_used, any_score, dice_score, distinct_places, face_points,
    face_used, faces_with, five_face, held_score, held_tally, keepable, lemma_face_points_bound,
    lemma_held_fits_short, lemma_held_tally_sum, lemma_of_face_push, lemma_total_bound, of_face,
    picked, places_by_face, places_up_to, playable, selection_score, shows_face, some_playable,
    special, straight, tally, tally_sum, three_pairs, two_triplets, used_of_face, used_places,
    used_up_to, valid_selection, whole_outcome,
};
use crate::scoring_laws::{
    lemma_face_points_few, lemma_of_face, lemma_one_face_total,
    lemma_places_of_places, lemma_uniform_tally, lemma_used_len, lemma_used_of_used,
    lemma_used_up_to_distinct, lemma_whole_roll, selection_is_no_longer_than_roll,
    used_dice_are_keepable, used_dice_are_selected, whole_roll,
};
use crate::text_laws::lemma_filter_member;
use vstd::prelude::*;

verus! {

/// How many of the dice at the given places show `face`.
pub open spec fn showing(dice: Seq<u8>, sel: Seq<usize>, face: int) -> nat
    decreases sel.len(),
{
    if sel.len() == 0 {
        0
    } else if dice[sel.last() as int] == face {
        showing(dice, sel.drop_last(), face) + 1
    } else {
        showing(dice, sel.drop_last(), face)
    }
}

pub proof fn lemma_showing(dice: Seq<u8>, sel: Seq<usize>, face: int)
    requires
        0 <= face <= 6,
    ensures
        showing(dice, sel, face) == held_tally(dice, sel)[face],
    decreases sel.len(),
{
    reveal(Seq::filter);
    if sel.len() > 0 {
        let head = sel.drop_last();
        lemma_showing(dice, head, face);
        lemma_of_face_push(dice, head, sel.last(), face as u8);
        assert(head.push(sel.last()) =~= sel);
    }
}

/// The selection is worth the given points and does not win at once.
pub open spec fn is_worth(held: Option<HeldModel>, points: int) -> bool {
    held matches Some(h) && h.points == points && !h.auto_win
}

/// The selection wins at once.
pub open spec fn is_a_win(held: Option<HeldModel>) -> bool {
    held matches Some(h) && h.auto_win
}

/// One to six dice of one face, held alone: singles, three of a kind and up, in both games.
pub proof fn equal_dice_are_worth(mode: GameMode, dice: Seq<u8>, sel: Seq<usize>, face: u8)
    requires
        1 <= face <= 6,
        distinct_places(dice.len(), sel),
        forall|k: int| 0 <= k < sel.len() ==> dice[#[trigger] sel[k] as int] == face,
        1 <= sel.len() <= 6,
        mode == GameMode::Bones ==> sel.len() <= 5,
    ensures
        ({
            let h = held_score(mode, dice, sel);
            let n = sel.len();
            // A single die and a pair.
            &&& n == 1 && face == 1 ==> is_worth(h, 100)
            &&& n == 2 && face == 1 ==> is_worth(h, 200)
            &&& n == 1 && face == 5 ==> is_worth(h, 50)
            &&& n == 2 && face == 5 ==> is_worth(h, 100)
            &&& n <= 2 && face != 1 && face != 5 ==> h is None
            // Three of a kind.
            &&& n == 3 && face == 1 ==> is_worth(h, 1000)
            &&& n == 3 && face == 2 ==> is_worth(h, 200)
            &&& n == 3 && face == 3 ==> is_worth(h, 300)
            &&& n == 3 && face == 4 ==> is_worth(h, 400)
            &&& n == 3 && face == 5 ==> is_worth(h, 500)
            &&& n == 3 && face == 6 ==> is_worth(h, 600)
            // Four of a kind.
            &&& n == 4 && face == 1 && mode == GameMode::Bones ==> is_worth(h, 1000)
            &&& n == 4 && face == 1 && mode == GameMode::Farkle ==> is_worth(h, 2000)
            &&& n == 4 && face == 2 ==> is_worth(h, 400)
            &&& n == 4 && face == 3 ==> is_worth(h, 600)
            &&& n == 4 && face == 4 ==> is_worth(h, 800)
            &&& n == 4 && face == 5 ==> is_worth(h, 1000)
            &&& n == 4 && face == 6 ==> is_worth(h, 1200)
            // Five of a kind.
            &&& n == 5 && mode == GameMode::Bones && face == 1 ==> is_worth(h, 2000)
            &&& n == 5 && mode == GameMode::Bones && face != 1 ==> is_a_win(h) && h->0.points == 0
            &&& n == 5 && mode == GameMode::Farkle && face == 1 ==> is_worth(h, 3000)
            &&& n == 5 && mode == GameMode::Farkle && face == 2 ==> is_worth(h, 600)
            &&& n == 5 && mode == GameMode::Farkle && face == 3 ==> is_worth(h, 900)
            &&& n == 5 && mode == GameMode::Farkle && face == 4 ==> is_worth(h, 1200)
            &&& n == 5 && mode == GameMode::Farkle && face == 5 ==> is_worth(h, 1500)
            &&& n == 5 && mode == GameMode::Farkle && face == 6 ==> is_worth(h, 1800)
            // Six of a kind.
            &&& n == 6 && face == 1 ==> is_worth(h, 4000)
            &&& n == 6 && face == 2 ==> is_worth(h, 800)
            &&& n == 6 && face == 3 ==> is_worth(h, 1200)
            &&& n == 6 && face == 4 ==> is_worth(h, 1600)
            &&& n == 6 && face == 5 ==> is_worth(h, 2000)
            &&& n == 6 && face == 6 ==> is_worth(h, 2400)
        }),
{
    let t = held_tally(dice, sel);
    let n = sel.len();
    assert forall|g: int| 0 <= g < 7 implies #[trigger] t[g] == if g == face {
        n
    } else {
        0
    } by {
        lemma_uniform_tally(dice, sel, face, g as u8);
    }
    assert(valid_selection(dice, sel));
    lemma_one_face_total(mode, t, face as int, n);
    lemma_held_fits_short(mode, dice, sel);
    assert(t[1] == n || t[1] == 0);
    assert(t[2] == n || t[2] == 0);
    assert(t[3] == n || t[3] == 0);
    assert(t[4] == n || t[4] == 0);
    assert(t[5] == n || t[5] == 0);
    assert(t[6] == n || t[6] == 0);
    assert(t[face as int] == n);
    if mode == GameMode::Bones && n == 5 {
        assert(five_face(t) == Some(face as int));
    } else {
        lemma_face_points_few(mode, face as int, n);
        if mode == GameMode::Farkle {
            lemma_one_face_is_no_special(t, face as int, n);
        } else {
            assert(five_face(t) is None);
        }
    }
}

proof fn lemma_one_face_is_no_special(t: Seq<nat>, face: int, n: nat)
    requires
        1 <= face <= 6,
        1 <= n <= 6,
        forall|g: int| 0 <= g < 7 ==> #[trigger] t[g] == if g == face {
            n
        } else {
            0
        },
    ensures
        special(t, n) is None,
{
    if n == 6 {
        assert(t[1] == 6 || t[1] == 0);
        assert(t[2] == 6 || t[2] == 0);
        assert(t[3] == 6 || t[3] == 0);
        assert(t[4] == 6 || t[4] == 0);
        assert(t[5] == 6 || t[5] == 0);
        assert(t[6] == 6 || t[6] == 0);
    }
}

// ---------------------------------------------------------------------------
// The six dice combinations of Farkle
// ---------------------------------------------------------------------------

/// Every face once.
pub open spec fn runs_through(dice: Seq<u8>, sel: Seq<usize>) -> bool {
    sel.len() == 6 && forall|f: int| 1 <= f <= 6 ==> #[trigger] showing(dice, sel, f) == 1
}

/// Three different faces twice each.
pub open spec fn makes_pairs(dice: Seq<u8>, sel: Seq<usize>, f: int, g: int, h: int) -> bool {
    &&& 1 <= f < g < h <= 6
    &&& sel.len() == 6
    &&& showing(dice, sel, f) == 2
    &&& showing(dice, sel, g) == 2
    &&& showing(dice, sel, h) == 2
}

/// Two different faces three times each.
pub open spec fn makes_triplets(dice: Seq<u8>, sel: Seq<usize>, f: int, g: int) -> bool {
    &&& 1 <= f < g <= 6
    &&& sel.len() == 6
    &&& showing(dice, sel, f) == 3
    &&& showing(dice, sel, g) == 3
}

/// The selection is one of the combinations that Farkle pays as a whole.
pub open spec fn is_combination(dice: Seq<u8>, sel: Seq<usize>) -> bool {
    ||| runs_through(dice, sel)
    ||| exists|f: int, g: int, h: int| makes_pairs(dice, sel, f, g, h)
    ||| exists|f: int, g: int| makes_triplets(dice, sel, f, g)
}

/// In Farkle a straight and three pairs are worth 1,500, and two triplets 2,500; all six dice
/// earn that.
pub proof fn combinations_are_worth(dice: Seq<u8>, sel: Seq<usize>, f: int, g: int, h: int)
    requires
        valid_selection(dice, sel),
    ensures
        ({
            let held = held_score(GameMode::Farkle, dice, sel);
            &&& runs_through(dice, sel) ==> is_worth(held, 1500) && held->0.used.len() == 6
            &&& makes_pairs(dice, sel, f, g, h) ==> is_worth(held, 1500) && held->0.used.len() == 6
            &&& makes_triplets(dice, sel, f, g) ==> is_worth(held, 2500) && held->0.used.len() == 6
        }),
{
    let t = held_tally(dice, sel);
    lemma_all_showing(dice, sel);
    lemma_held_tally_sum(dice, sel);
    lemma_places_len(dice, sel);
    if runs_through(dice, sel) {
        assert(showing(dice, sel, 1) == 1 && showing(dice, sel, 2) == 1 && showing(dice, sel, 3)
            == 1 && showing(dice, sel, 4) == 1 && showing(dice, sel, 5) == 1 && showing(
            dice,
            sel,
            6,
        ) == 1);
        assert(straight(t));
    }
    if makes_pairs(dice, sel, f, g, h) {
        lemma_showing(dice, sel, f);
        lemma_showing(dice, sel, g);
        lemma_showing(dice, sel, h);
        lemma_pairs_rest(t, f, g, h);
    }
    if makes_triplets(dice, sel, f, g) {
        lemma_showing(dice, sel, f);
        lemma_showing(dice, sel, g);
        lemma_triplets_rest(t, f, g);
    }
}

proof fn lemma_all_showing(dice: Seq<u8>, sel: Seq<usize>)
    ensures
        showing(dice, sel, 1) == held_tally(dice, sel)[1],
        showing(dice, sel, 2) == held_tally(dice, sel)[2],
        showing(dice, sel, 3) == held_tally(dice, sel)[3],
        showing(dice, sel, 4) == held_tally(dice, sel)[4],
        showing(dice, sel, 5) == held_tally(dice, sel)[5],
        showing(dice, sel, 6) == held_tally(dice, sel)[6],
{
    lemma_showing(dice, sel, 1);
    lemma_showing(dice, sel, 2);
    lemma_showing(dice, sel, 3);
    lemma_showing(dice, sel, 4);
    lemma_showing(dice, sel, 5);
    lemma_showing(dice, sel, 6);
}

proof fn lemma_places_len(dice: Seq<u8>, sel: Seq<usize>)
    ensures
        places_by_face(dice, sel).len() == tally_sum(held_tally(dice, sel)),
{
    reveal_with_fuel(places_up_to, 7);
}

proof fn lemma_pairs_rest(t: Seq<nat>, f: int, g: int, h: int)
    requires
        1 <= f < g < h <= 6,
        t[f] == 2,
        t[g] == 2,
        t[h] == 2,
        tally_sum(t) == 6,
    ensures
        three_pairs(t),
        !two_triplets(t),
{
    lemma_two_each(t, f, g, h);
}

proof fn lemma_two_each(t: Seq<nat>, f: int, g: int, h: int)
    requires
        1 <= f < g < h <= 6,
        t[f] == 2,
        t[g] == 2,
        t[h] == 2,
        tally_sum(t) == 6,
    ensures
        forall|k: int|
            1 <= k <= 6 ==> #[trigger] t[k] == if k == f || k == g || k == h {
                2nat
            } else {
                0nat
            },
        faces_with(t, 2) == 3,
        faces_with(t, 0) == 3,
        faces_with(t, 3) == 0,
{
}

proof fn lemma_triplets_rest(t: Seq<nat>, f: int, g: int)
    requires
        1 <= f < g <= 6,
        t[f] == 3,
        t[g] == 3,
        tally_sum(t) == 6,
    ensures
        two_triplets(t),
        !three_pairs(t),
        !straight(t),
{
}

// ---------------------------------------------------------------------------
// Everything else
// ---------------------------------------------------------------------------

/// The points of a held score; none where nothing scores.
pub open spec fn points_of(held: Option<HeldModel>) -> int {
    match held {
        Some(h) => h.points as int,
        None => 0,
    }
}

/// The points of the selected dice of one face, held alone.
pub open spec fn points_alone(mode: GameMode, dice: Seq<u8>, sel: Seq<usize>, face: u8) -> int {
    points_of(held_score(mode, dice, of_face(dice, sel, face)))
}

/// A selection that is no combination of its own is worth what its faces are worth alone, added
/// up, and scores if that is anything.
pub proof fn other_dice_are_worth_the_sum_of_their_faces(
    mode: GameMode,
    dice: Seq<u8>,
    sel: Seq<usize>,
)
    requires
        valid_selection(dice, sel),
        sel.len() <= mode.full_roll(),
        mode == GameMode::Bones ==> forall|f: int|
            1 <= f <= 6 ==> #[trigger] showing(dice, sel, f) < 5,
        mode == GameMode::Farkle ==> !is_combination(dice, sel),
    ensures
        ({
            let sum = points_alone(mode, dice, sel, 1) + points_alone(mode, dice, sel, 2)
                + points_alone(mode, dice, sel, 3) + points_alone(mode, dice, sel, 4)
                + points_alone(mode, dice, sel, 5) + points_alone(mode, dice, sel, 6);
            &&& points_of(held_score(mode, dice, sel)) == sum
            &&& held_score(mode, dice, sel) is Some <==> sum > 0
            &&& held_score(mode, dice, sel) matches Some(h) ==> !h.auto_win
        }),
{
    let t = held_tally(dice, sel);
    lemma_all_showing(dice, sel);
    lemma_held_tally_sum(dice, sel);
    lemma_total_bound(mode, t);
    if mode == GameMode::Bones {
        assert(showing(dice, sel, 1) < 5 && showing(dice, sel, 2) < 5 && showing(dice, sel, 3) < 5
            && showing(dice, sel, 4) < 5 && showing(dice, sel, 5) < 5 && showing(dice, sel, 6) < 5);
        assert(five_face(t) is None);
    } else {
        lemma_no_combination(dice, sel);
    }
    assert(whole_outcome(mode, t, sel.len()) is None);
    lemma_points_alone(mode, dice, sel, 1);
    lemma_points_alone(mode, dice, sel, 2);
    lemma_points_alone(mode, dice, sel, 3);
    lemma_points_alone(mode, dice, sel, 4);
    lemma_points_alone(mode, dice, sel, 5);
    lemma_points_alone(mode, dice, sel, 6);
}

/// Dice of one face alone are worth the points of that face, where they do not win at once.
proof fn lemma_points_alone(mode: GameMode, dice: Seq<u8>, sel: Seq<usize>, face: u8)
    requires
        valid_selection(dice, sel),
        1 <= face <= 6,
        held_tally(dice, sel)[face as int] <= mode.full_roll(),
        mode == GameMode::Bones ==> held_tally(dice, sel)[face as int] < 5,
    ensures
        points_alone(mode, dice, sel, face) == face_points(
            mode,
            face as int,
            held_tally(dice, sel)[face as int],
        ),
{
    let alone = of_face(dice, sel, face);
    let n = alone.len();
    lemma_of_face(dice, sel, face);
    assert forall|k: int| 0 <= k < alone.len() implies dice[#[trigger] alone[k] as int] == face
        && alone[k] < dice.len() by {
        assert(alone.contains(alone[k]));
        assert(sel.contains(alone[k]));
        let j = choose|j: int| 0 <= j < sel.len() && sel[j] == alone[k];
        assert(sel[j] < dice.len());
    }
    let t = held_tally(dice, alone);
    assert forall|g: int| 0 <= g < 7 implies #[trigger] t[g] == if g == face {
        n
    } else {
        0
    } by {
        lemma_uniform_tally(dice, alone, face, g as u8);
    }
    lemma_one_face_total(mode, t, face as int, n);
    lemma_face_points_bound(mode, face as int, n);
    if n > 0 {
        assert(valid_selection(dice, alone));
        assert(t[1] == n || t[1] == 0);
        assert(t[2] == n || t[2] == 0);
        assert(t[3] == n || t[3] == 0);
        assert(t[4] == n || t[4] == 0);
        assert(t[5] == n || t[5] == 0);
        assert(t[6] == n || t[6] == 0);
        if mode == GameMode::Farkle {
            lemma_one_face_is_no_special(t, face as int, n);
        } else {
            assert(five_face(t) is None);
        }
    }
}

proof fn lemma_no_combination(dice: Seq<u8>, sel: Seq<usize>)
    requires
        valid_selection(dice, sel),
        !is_combination(dice, sel),
    ensures
        special(held_tally(dice, sel), sel.len()) is None,
{
    let t = held_tally(dice, sel);
    lemma_all_showing(dice, sel);
    if sel.len() == 6 {
        if straight(t) {
            assert(t[1] == 1 && t[2] == 1 && t[3] == 1 && t[4] == 1 && t[5] == 1 && t[6] == 1);
            assert(runs_through(dice, sel)) by {
                assert forall|f: int| 1 <= f <= 6 implies #[trigger] showing(dice, sel, f) == 1 by {
                    lemma_showing(dice, sel, f);
                    assert(t[f] == 1);
                }
            }
        }
        if three_pairs(t) {
            let (f, g, h) = lemma_find_pairs(t);
            lemma_showing(dice, sel, f);
            lemma_showing(dice, sel, g);
            lemma_showing(dice, sel, h);
            assert(makes_pairs(dice, sel, f, g, h));
        }
        if two_triplets(t) {
            let (f, g) = lemma_find_triplets(t);
            lemma_showing(dice, sel, f);
            lemma_showing(dice, sel, g);
            assert(makes_triplets(dice, sel, f, g));
        }
    }
}

proof fn lemma_find_pairs(t: Seq<nat>) -> (res: (int, int, int))
    requires
        three_pairs(t),
    ensures
        1 <= res.0 < res.1 < res.2 <= 6,
        t[res.0] == 2,
        t[res.1] == 2,
        t[res.2] == 2,
{
    let f: int = if t[1] == 2 {
        1
    } else if t[2] == 2 {
        2
    } else if t[3] == 2 {
        3
    } else {
        4
    };
    let h: int = if t[6] == 2 {
        6
    } else if t[5] == 2 {
        5
    } else if t[4] == 2 {
        4
    } else {
        3
    };
    let g: int = if f < 2 && t[2] == 2 && h > 2 {
        2
    } else if f < 3 && t[3] == 2 && h > 3 {
        3
    } else if f < 4 && t[4] == 2 && h > 4 {
        4
    } else {
        5
    };
    (f, g, h)
}

proof fn lemma_find_triplets(t: Seq<nat>) -> (res: (int, int))
    requires
        two_triplets(t),
    ensures
        1 <= res.0 < res.1 <= 6,
        t[res.0] == 3,
        t[res.1] == 3,
{
    let f: int = if t[1] == 3 {
        1
    } else if t[2] == 3 {
        2
    } else if t[3] == 3 {
        3
    } else if t[4] == 3 {
        4
    } else {
        5
    };
    let g: int = if t[6] == 3 {
        6
    } else if t[5] == 3 {
        5
    } else if t[4] == 3 {
        4
    } else if t[3] == 3 {
        3
    } else {
        2
    };
    (f, g)
}

// ---------------------------------------------------------------------------
// What scores at all
// ---------------------------------------------------------------------------

/// Only places of the roll, named once each, with dice that show a face, can score.
pub proof fn only_dice_of_the_roll_score(mode: GameMode, dice: Seq<u8>, sel: Seq<usize>)
    requires
        held_score(mode, dice, sel) is Some,
    ensures
        0 < sel.len() <= dice.len(),
        forall|a: int, b: int| 0 <= a < b < sel.len() ==> sel[a] != sel[b],
        forall|k: int|
            0 <= k < sel.len() ==> #[trigger] sel[k] < dice.len() && 1 <= dice[sel[k] as int] <= 6,
{
    selection_is_no_longer_than_roll(dice, sel);
}

/// On a roll of the game, the dice of a selection that earn its points are its 1s and 5s, every
/// face of which it has three or more, and all of a combination.
pub proof fn dice_that_earn_points(mode: GameMode, dice: Seq<u8>, sel: Seq<usize>, i: usize)
    requires
        dice.len() <= mode.full_roll(),
        held_score(mode, dice, sel) is Some,
    ensures
        held_score(mode, dice, sel)->0.used.contains(i) <==> sel.contains(i) && {
            ||| dice[i as int] == 1
            ||| dice[i as int] == 5
            ||| showing(dice, sel, dice[i as int] as int) >= 3
            ||| mode == GameMode::Farkle && is_combination(dice, sel)
        },
{
    let held = held_score(mode, dice, sel)->0;
    let t = held_tally(dice, sel);
    let face = dice[i as int];
    selection_is_no_longer_than_roll(dice, sel);
    used_dice_are_selected(mode, dice, sel);
    lemma_held_tally_sum(dice, sel);
    lemma_all_showing(dice, sel);
    if held.used.contains(i) {
        let k = choose|k: int| 0 <= k < held.used.len() && held.used[k] == i;
        assert(sel.contains(held.used[k]));
    }
    if sel.contains(i) {
        let k = choose|k: int| 0 <= k < sel.len() && sel[k] == i;
        assert(is_face(dice[sel[k] as int]));
        lemma_showing(dice, sel, face as int);
        lemma_of_face(dice, sel, face);
        if whole_outcome(mode, t, sel.len()) is None {
            lemma_earned(mode, dice, sel, i);
            if mode == GameMode::Farkle && is_combination(dice, sel) {
                lemma_combination_is_whole(dice, sel);
            }
        } else if mode == GameMode::Farkle {
            lemma_places_of_places(dice, sel, 6, face as int);
            lemma_face_member(dice, held.used, face, i);
            lemma_whole_is_combination(dice, sel);
        } else {
            let five = five_face(t)->0;
            assert(t[five] == 5);
            assert(face == five) by {
                if face != five {
                    assert(of_face(dice, sel, face).contains(i));
                    assert(t[face as int] > 0);
                }
            }
        }
    }
}

proof fn lemma_face_member(dice: Seq<u8>, sel: Seq<usize>, face: u8, i: usize)
    requires
        of_face(dice, sel, face).contains(i),
        sel.no_duplicates(),
    ensures
        sel.contains(i),
{
    lemma_of_face(dice, sel, face);
}

proof fn lemma_face_earns(mode: GameMode, face: int, c: nat)
    requires
        c <= mode.full_roll(),
        mode == GameMode::Bones ==> c != 5,
    ensures
        face_used(mode, face, c) == if face == 1 || face == 5 || c >= 3 {
            c
        } else {
            0
        },
{
}

proof fn lemma_no_five(t: Seq<nat>, face: int)
    requires
        five_face(t) is None,
        1 <= face <= 6,
    ensures
        t[face] != 5,
{
}

proof fn lemma_tally_part(t: Seq<nat>, face: int)
    requires
        1 <= face <= 6,
    ensures
        t[face] <= tally_sum(t),
{
}

proof fn lemma_used_member(mode: GameMode, dice: Seq<u8>, sel: Seq<usize>, i: usize)
    requires
        sel.no_duplicates(),
        is_face(dice[i as int]),
    ensures
        used_places(mode, dice, sel).contains(i) <==> used_of_face(
            mode,
            dice,
            sel,
            dice[i as int] as int,
        ).contains(i),
{
    let face = dice[i as int];
    lemma_used_of_used(mode, dice, sel, 6, face as int);
    lemma_used_up_to_distinct(mode, dice, sel);
    lemma_of_face(dice, used_places(mode, dice, sel), face);
}

proof fn lemma_earned(mode: GameMode, dice: Seq<u8>, sel: Seq<usize>, i: usize)
    requires
        valid_selection(dice, sel),
        sel.contains(i),
        sel.len() <= mode.full_roll(),
        mode == GameMode::Bones ==> five_face(held_tally(dice, sel)) is None,
        is_face(dice[i as int]),
    ensures
        used_places(mode, dice, sel).contains(i) <==> dice[i as int] == 1 || dice[i as int] == 5
            || held_tally(dice, sel)[dice[i as int] as int] >= 3,
{
    let t = held_tally(dice, sel);
    let face = dice[i as int];
    let places = of_face(dice, sel, face);
    let kept = used_of_face(mode, dice, sel, face as int);
    assert(t[face as int] == places.len());
    lemma_of_face(dice, sel, face);
    lemma_held_tally_sum(dice, sel);
    lemma_tally_part(t, face as int);
    if mode == GameMode::Bones {
        lemma_no_five(t, face as int);
    }
    lemma_face_earns(mode, face as int, places.len());
    lemma_used_member(mode, dice, sel, i);
    if face == 1 || face == 5 || places.len() >= 3 {
        assert(kept =~= places);
    } else {
        assert(kept.len() == 0);
    }
}

proof fn lemma_combination_is_whole(dice: Seq<u8>, sel: Seq<usize>)
    requires
        valid_selection(dice, sel),
        is_combination(dice, sel),
    ensures
        whole_outcome(GameMode::Farkle, held_tally(dice, sel), sel.len()) is Some,
{
    let t = held_tally(dice, sel);
    lemma_all_showing(dice, sel);
    lemma_held_tally_sum(dice, sel);
    if runs_through(dice, sel) {
        assert(showing(dice, sel, 1) == 1 && showing(dice, sel, 2) == 1 && showing(dice, sel, 3)
            == 1 && showing(dice, sel, 4) == 1 && showing(dice, sel, 5) == 1 && showing(
            dice,
            sel,
            6,
        ) == 1);
        assert(straight(t));
    } else if exists|f: int, g: int, h: int| makes_pairs(dice, sel, f, g, h) {
        let (f, g, h) = choose|f: int, g: int, h: int| makes_pairs(dice, sel, f, g, h);
        lemma_showing(dice, sel, f);
        lemma_showing(dice, sel, g);
        lemma_showing(dice, sel, h);
        lemma_pairs_rest(t, f, g, h);
    } else {
        let (f, g) = choose|f: int, g: int| makes_triplets(dice, sel, f, g);
        lemma_showing(dice, sel, f);
        lemma_showing(dice, sel, g);
        lemma_triplets_rest(t, f, g);
    }
}

proof fn lemma_whole_is_combination(dice: Seq<u8>, sel: Seq<usize>)
    requires
        valid_selection(dice, sel),
        whole_outcome(GameMode::Farkle, held_tally(dice, sel), sel.len()) is Some,
    ensures
        is_combination(dice, sel),
{
    if !is_combination(dice, sel) {
        lemma_no_combination(dice, sel);
    }
}

/// Where some face earns points, or the dice are a combination, all of them together score.
proof fn lemma_whole_scores(mode: GameMode, dice: Seq<u8>, face: int)
    requires
        dice.len() <= mode.full_roll(),
        all_faces(dice),
        1 <= face <= 6,
        tally(dice)[face] > 0,
        mode == GameMode::Farkle && special(tally(dice), dice.len()) is Some || face_used(
            mode,
            face,
            tally(dice)[face],
        ) > 0,
    ensures
        held_score(mode, dice, whole_roll(dice.len())) is Some,
{
    let all = whole_roll(dice.len());
    let t = tally(dice);
    lemma_whole_roll(dice);
    lemma_held_tally_sum(dice, all);
    lemma_face_points_bound(mode, 1, t[1]);
    lemma_face_points_bound(mode, 2, t[2]);
    lemma_face_points_bound(mode, 3, t[3]);
    lemma_face_points_bound(mode, 4, t[4]);
    lemma_face_points_bound(mode, 5, t[5]);
    lemma_face_points_bound(mode, 6, t[6]);
}

proof fn lemma_keepable_earns(mode: GameMode, dice: Seq<u8>, i: usize)
    requires
        dice.len() <= mode.full_roll(),
        all_faces(dice),
        keepable(mode, dice, i as int),
    ensures
        ({
            let all = whole_roll(dice.len());
            held_score(mode, dice, all) matches Some(h) && h.used.contains(i)
        }),
{
    let all = whole_roll(dice.len());
    let t = tally(dice);
    let face = dice[i as int];
    lemma_whole_roll(dice);
    assert(all[i as int] == i);
    assert(all.contains(i));
    assert(is_face(face));
    lemma_of_face(dice, all, face);
    assert(of_face(dice, all, face).contains(i));
    assert(t[face as int] > 0);
    lemma_whole_scores(mode, dice, face as int);
    lemma_showing(dice, all, face as int);
    if mode == GameMode::Farkle && special(t, dice.len()) is Some {
        lemma_whole_is_combination(dice, all);
    }
    dice_that_earn_points(mode, dice, all, i);
}

/// A die of a roll may be kept exactly where some selection earns points with it.
pub proof fn keepable_dice_earn_points(mode: GameMode, dice: Seq<u8>, i: usize)
    requires
        dice.len() <= mode.full_roll(),
        all_faces(dice),
        i < dice.len(),
    ensures
        keepable(mode, dice, i as int) <==> exists|sel: Seq<usize>|
            (#[trigger] held_score(mode, dice, sel)) matches Some(h) && h.used.contains(i),
{
    if exists|sel: Seq<usize>|
        (#[trigger] held_score(mode, dice, sel)) matches Some(h) && h.used.contains(i) {
        let sel = choose|sel: Seq<usize>|
            (#[trigger] held_score(mode, dice, sel)) matches Some(h) && h.used.contains(i);
        let used = held_score(mode, dice, sel)->0.used;
        let k = choose|k: int| 0 <= k < used.len() && used[k] == i;
        used_dice_are_keepable(mode, dice, sel);
        assert(keepable(mode, dice, used[k] as int));
    }
    if keepable(mode, dice, i as int) {
        lemma_keepable_earns(mode, dice, i);
    }
}

/// A set of dice is worth what it is worth as a selection of all of them, if all of them earn
/// points, and else nothing.
pub proof fn whole_hands_are_worth(mode: GameMode, dice: Seq<u8>)
    requires
        dice.len() <= mode.full_roll(),
        all_faces(dice),
    ensures
        ({
            let all = Seq::new(dice.len(), |i: int| i as usize);
            dice_score(mode, dice) == match held_score(mode, dice, all) {
                Some(h) => if h.used.len() == dice.len() {
                    Some(ScoreOutcome { points: h.points, auto_win: h.auto_win })
                } else {
                    None
                },
                None => None,
            }
        }),
{
    let all = whole_roll(dice.len());
    assert(all =~= Seq::new(dice.len(), |i: int| i as usize));
    let t = tally(dice);
    lemma_whole_roll(dice);
    lemma_held_tally_sum(dice, all);
    lemma_used_len(mode, dice, all);
    lemma_face_points_bound(mode, 1, t[1]);
    lemma_face_points_bound(mode, 2, t[2]);
    lemma_face_points_bound(mode, 3, t[3]);
    lemma_face_points_bound(mode, 4, t[4]);
    lemma_face_points_bound(mode, 5, t[5]);
    lemma_face_points_bound(mode, 6, t[6]);
    if whole_outcome(mode, t, dice.len()) is Some {
        if mode == GameMode::Bones {
            let five = five_face(t)->0;
            assert(t[five] == 5);
            assert forall|f: int| 1 <= f <= 6 && five_face(t) != Some(f) implies #[trigger] t[f]
                == 0 by {}
        }
    } else {
        let used = face_used(mode, 1, t[1]) + face_used(mode, 2, t[2]) + face_used(mode, 3, t[3])
            + face_used(mode, 4, t[4]) + face_used(mode, 5, t[5]) + face_used(mode, 6, t[6]);
        if used == dice.len() {
            assert(all_used(mode, t));
        } else {
            assert(!all_used(mode, t)) by {
                if all_used(mode, t) {
                    assert(face_used(mode, 1, t[1]) == t[1]);
                    assert(face_used(mode, 2, t[2]) == t[2]);
                    assert(face_used(mode, 3, t[3]) == t[3]);
                    assert(face_used(mode, 4, t[4]) == t[4]);
                    assert(face_used(mode, 5, t[5]) == t[5]);
                    assert(face_used(mode, 6, t[6]) == t[6]);
                }
            }
        }
    }
}

/// Dice that do not show a face from one to six are worth nothing in a set.
pub proof fn only_faces_are_worth_anything(mode: GameMode, dice: Seq<u8>, k: int)
    requires
        0 <= k < dice.len(),
        !(1 <= dice[k] <= 6),
    ensures
        dice_score(mode, dice) is None,
        !any_score(mode, dice),
{
    assert(!is_face(dice[k]));
}

/// Places score as a set only where they are places of the roll, none of them named twice.
pub proof fn only_places_of_the_roll_score(mode: GameMode, dice: Seq<u8>, sel: Seq<usize>)
    requires
        selection_score(mode, dice, sel) is Some,
    ensures
        sel.len() > 0,
        forall|a: int, b: int| 0 <= a < b < sel.len() ==> sel[a] != sel[b],
        forall|k: int|
            0 <= k < sel.len() ==> #[trigger] sel[k] < dice.len() && 1 <= dice[sel[k] as int] <= 6,
{
    assert forall|k: int| 0 <= k < sel.len() implies #[trigger] sel[k] < dice.len() && 1
        <= dice[sel[k] as int] <= 6 by {
        assert(is_face(picked(dice, sel)[k]));
    }
}

/// The selection scores, and where the player is on the board its points do not take the score
/// over the goal.
pub open spec fn may_be_held(
    mode: GameMode,
    dice: Seq<u8>,
    sel: Seq<usize>,
    score: int,
    turn_points: int,
    on_board: bool,
    goal: int,
) -> bool {
    held_score(mode, dice, sel) matches Some(h) && (h.auto_win || !on_board || score + turn_points
        + h.points <= goal)
}

/// There is something to keep exactly where some selection may be held.
pub proof fn something_to_keep_is_a_selection(
    mode: GameMode,
    dice: Seq<u8>,
    score: u32,
    turn_points: u32,
    on_board: bool,
    goal: u32,
)
    requires
        dice.len() <= mode.full_roll(),
        goal < u32::MAX,
    ensures
        some_playable(mode, dice, score, turn_points, on_board, goal) <==> exists|sel: Seq<usize>|
            may_be_held(
                mode,
                dice,
                sel,
                score as int,
                turn_points as int,
                on_board,
                goal as int,
            ),
{
    if some_playable(mode, dice, score, turn_points, on_board, goal) {
        let sel = choose|sel: Seq<usize>|
            playable(mode, dice, sel, score, turn_points, on_board, goal);
        assert(may_be_held(
            mode,
            dice,
            sel,
            score as int,
            turn_points as int,
            on_board,
            goal as int,
        ));
    }
    if exists|sel: Seq<usize>|
        may_be_held(
            mode,
            dice,
            sel,
            score as int,
            turn_points as int,
            on_board,
            goal as int,
        ) {
        let sel = choose|sel: Seq<usize>|
            may_be_held(
                mode,
                dice,
                sel,
                score as int,
                turn_points as int,
                on_board,
                goal as int,
            );
        selection_is_no_longer_than_roll(dice, sel);
        lemma_held_fits_short(mode, dice, sel);
        assert(playable(mode, dice, sel, score, turn_points, on_board, goal));
    }
}

/// The first place is named before the second one.
pub open spec fn named_before(sel: Seq<usize>, first: usize, second: usize) -> bool {
    exists|p: int, q: int|
        0 <= p < q < sel.len() && #[trigger] sel[p] == first && #[trigger] sel[q] == second
}

/// The places are in the order of the faces there, and those of one face in the order of the
/// selection.
pub open spec fn face_by_face(dice: Seq<u8>, sel: Seq<usize>, used: Seq<usize>) -> bool {
    forall|a: int, b: int|
        0 <= a < b < used.len() ==> {
            let x = dice[#[trigger] used[a] as int];
            let y = dice[#[trigger] used[b] as int];
            x <= y && (x == y ==> named_before(sel, used[a], used[b]))
        }
}

proof fn lemma_in_order(dice: Seq<u8>, sel: Seq<usize>, face: u8, a: int, b: int)
    requires
        0 <= a < b < of_face(dice, sel, face).len(),
    ensures
        named_before(sel, of_face(dice, sel, face)[a], of_face(dice, sel, face)[b]),
    decreases sel.len(),
{
    reveal(Seq::filter);
    let all = of_face(dice, sel, face);
    if sel.len() > 0 {
        let rest = sel.drop_last();
        let before = of_face(dice, rest, face);
        if b < before.len() {
            lemma_in_order(dice, rest, face, a, b);
            let (p, q) = choose|p: int, q: int|
                0 <= p < q < rest.len() && #[trigger] rest[p] == before[a] && #[trigger] rest[q]
                    == before[b];
            assert(sel[p] == all[a] && sel[q] == all[b]);
        } else {
            assert(before.contains(before[a]));
            lemma_filter_member(rest, shows_face(dice, face), before[a]);
            let p = choose|p: int| 0 <= p < rest.len() && rest[p] == before[a];
            let q = rest.len() as int;
            assert(sel[p] == all[a] && sel[q] == all[b]);
        }
    }
}

proof fn lemma_shows_face(dice: Seq<u8>, sel: Seq<usize>, face: u8, a: int)
    requires
        0 <= a < of_face(dice, sel, face).len(),
    ensures
        dice[of_face(dice, sel, face)[a] as int] == face,
{
    let all = of_face(dice, sel, face);
    assert(all.contains(all[a]));
    lemma_filter_member(sel, shows_face(dice, face), all[a]);
}

/// Places of lower faces, and then some of the next one from the first on, are in order.
proof fn lemma_one_face_more(
    dice: Seq<u8>,
    sel: Seq<usize>,
    lower: Seq<usize>,
    face: u8,
    count: int,
)
    requires
        face_by_face(dice, sel, lower),
        forall|a: int| 0 <= a < lower.len() ==> dice[#[trigger] lower[a] as int] < face,
        0 <= count <= of_face(dice, sel, face).len(),
    ensures
        ({
            let all = lower + of_face(dice, sel, face).take(count);
            &&& face_by_face(dice, sel, all)
            &&& forall|a: int| 0 <= a < all.len() ==> dice[#[trigger] all[a] as int] <= face
        }),
{
    let more = of_face(dice, sel, face);
    let all = lower + more.take(count);
    let n = lower.len() as int;
    assert forall|a: int| 0 <= a < all.len() implies dice[#[trigger] all[a] as int] <= face && (a
        < n ==> all[a] == lower[a]) && (a >= n ==> all[a] == more[a - n] && dice[all[a] as int]
        == face) by {
        if a >= n {
            lemma_shows_face(dice, sel, face, a - n);
        }
    }
    assert forall|a: int, b: int| 0 <= a < b < all.len() implies {
        let x = dice[#[trigger] all[a] as int];
        let y = dice[#[trigger] all[b] as int];
        x <= y && (x == y ==> named_before(sel, all[a], all[b]))
    } by {
        if a >= n {
            lemma_in_order(dice, sel, face, a - n, b - n);
        } else if b < n {
            assert(dice[lower[a] as int] <= dice[lower[b] as int]);
        }
    }
}

proof fn lemma_used_in_order(mode: GameMode, dice: Seq<u8>, sel: Seq<usize>, n: int)
    requires
        0 <= n <= 6,
    ensures
        face_by_face(dice, sel, used_up_to(mode, dice, sel, n)),
        forall|a: int|
            0 <= a < used_up_to(mode, dice, sel, n).len() ==> dice[#[trigger] used_up_to(
                mode,
                dice,
                sel,
                n,
            )[a] as int] <= n,
        face_by_face(dice, sel, places_up_to(dice, sel, n)),
        forall|a: int|
            0 <= a < places_up_to(dice, sel, n).len() ==> dice[#[trigger] places_up_to(
                dice,
                sel,
                n,
            )[a] as int] <= n,
    decreases n,
{
    if n > 0 {
        lemma_used_in_order(mode, dice, sel, n - 1);
        let more = of_face(dice, sel, n as u8);
        lemma_one_face_more(
            dice,
            sel,
            used_up_to(mode, dice, sel, n - 1),
            n as u8,
            face_used(mode, n, more.len()) as int,
        );
        lemma_one_face_more(dice, sel, places_up_to(dice, sel, n - 1), n as u8, more.len() as int);
        assert(more.take(more.len() as int) =~= more);
    }
}

/// The dice that earn points are told face by face, and those of one face in the order in which
/// they were selected.
pub proof fn used_dice_come_face_by_face(mode: GameMode, dice: Seq<u8>, sel: Seq<usize>)
    requires
        held_score(mode, dice, sel) is Some,
    ensures
        face_by_face(dice, sel, held_score(mode, dice, sel)->0.used),
{
    lemma_used_in_order(mode, dice, sel, 6);
    let t = held_tally(dice, sel);
    if mode == GameMode::Bones && whole_outcome(mode, t, sel.len()) is Some {
        let f = five_face(t)->0 as u8;
        let all = of_face(dice, sel, f);
        assert forall|a: int, b: int| 0 <= a < b < all.len() implies {
            let x = dice[#[trigger] all[a] as int];
            let y = dice[#[trigger] all[b] as int];
            x <= y && (x == y ==> named_before(sel, all[a], all[b]))
        } by {
            lemma_shows_face(dice, sel, f, a);
            lemma_shows_face(dice, sel, f, b);
            lemma_in_order(dice, sel, f, a, b);
        }
    }
}

} // verus!
