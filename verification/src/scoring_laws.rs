//! What holds of the scoring rules as a whole.

use crate::chance::{all_faces, is_face};
use crate::protocol::GameMode;
use crate::scoring::{
    ScoreOutcome, all_used, any_score, can_win_at_once, capped, copies, dice_score, distinct_places,
    face_points, face_used, faces_with, fewest_points, five_face, full_special, held_fits,
    held_score, held_tally, keepable, lemma_copies_push, lemma_distinct_places_len,
    lemma_face_points_bound, lemma_held_fits_short, lemma_held_tally_sum, lemma_of_face_push,
    lemma_push_distinct, lemma_rising_form, lemma_rising_is_short, lemma_total_bound, of_face,
    picked, places_by_face, places_up_to, playable, rest_used, rising,
    selection_order_is_immaterial, selection_score, set_size, shows_face, single_value,
    some_playable, special, straight, tally, tally_sum, three_pairs, total_points, triple_value,
    used_of_face, used_places, used_up_to, valid_selection, whole_outcome,
};
use vstd::prelude::*;

verus! {

// ---------------------------------------------------------------------------
// Selections against the roll
// ---------------------------------------------------------------------------

/// All places of a roll of `n` dice.
pub open spec fn whole_roll(n: nat) -> Seq<usize> {
    Seq::new(n, |i: int| i as usize)
}

/// A rising selection has no more dice of a face than the roll, and as many where it takes all.
proof fn lemma_rising_tally(dice: Seq<u8>, sel: Seq<usize>, n: int, face: u8)
    requires
        0 <= n <= dice.len(),
        rising(sel, 0, n),
    ensures
        of_face(dice, sel, face).len() <= copies(dice.take(n), face),
        sel.len() == n ==> of_face(dice, sel, face).len() == copies(dice.take(n), face),
        sel.len() == n ==> forall|k: int| 0 <= k < n ==> #[trigger] sel[k] == k,
    decreases n,
{
    reveal(Seq::filter);
    lemma_rising_is_short(sel, 0, n);
    if n > 0 {
        let shorter = dice.take(n - 1);
        assert(dice.take(n) == shorter.push(dice[n - 1]));
        lemma_copies_push(shorter, dice[n - 1], face);
        if sel.len() > 0 && sel.last() == n - 1 {
            let head = sel.drop_last();
            assert(head.push(sel.last()) == sel);
            assert(rising(head, 0, n - 1));
            lemma_of_face_push(dice, head, sel.last(), face);
            lemma_rising_tally(dice, head, n - 1, face);
            if sel.len() == n {
                assert forall|k: int| 0 <= k < n implies #[trigger] sel[k] == k by {
                    if k < n - 1 {
                        assert(head[k] == sel[k]);
                    }
                }
            }
        } else {
            assert(rising(sel, 0, n - 1)) by {
                assert forall|k: int| 0 <= k < sel.len() implies 0 <= #[trigger] sel[k] < n - 1 by {
                    assert(0 <= sel[k] < n);
                    if k < sel.len() - 1 {
                        assert(sel[k] < sel[sel.len() - 1]);
                    }
                }
            }
            lemma_rising_is_short(sel, 0, n - 1);
            lemma_rising_tally(dice, sel, n - 1, face);
        }
    }
}

/// A selection has no more dice of a face than the roll, and as many where it takes all.
pub proof fn lemma_held_tally_bound(dice: Seq<u8>, sel: Seq<usize>, face: int)
    requires
        valid_selection(dice, sel),
        0 <= face <= 6,
    ensures
        held_tally(dice, sel)[face] <= tally(dice)[face],
        sel.len() == dice.len() ==> held_tally(dice, sel)[face] == tally(dice)[face],
        sel.len() <= dice.len(),
        sel.len() == dice.len() ==> all_faces(dice),
{
    broadcast use vstd::seq_lib::group_to_multiset_ensures;

    let sorted = lemma_rising_form(dice, sel);
    assert(sorted.len() == sorted.to_multiset().len());
    assert(sel.len() == sel.to_multiset().len());
    selection_order_is_immaterial(GameMode::Bones, dice, sel, sorted);
    assert(held_tally(dice, sel)[face] == held_tally(dice, sorted)[face]);
    lemma_rising_tally(dice, sorted, dice.len() as int, face as u8);
    lemma_rising_is_short(sorted, 0, dice.len() as int);
    assert(dice.take(dice.len() as int) == dice);
    if sel.len() == dice.len() {
        assert forall|k: int| 0 <= k < dice.len() implies is_face(#[trigger] dice[k]) by {
            assert(sorted[k] == k);
            assert(sorted.to_multiset().contains(sorted[k]));
            assert(sel.contains(sorted[k]));
            let j = choose|j: int| 0 <= j < sel.len() && sel[j] == sorted[k];
            assert(is_face(dice[sel[j] as int]));
        }
    }
}

/// The whole roll, taken as a selection, has the tally of the roll.
pub proof fn lemma_whole_roll(dice: Seq<u8>)
    requires
        all_faces(dice),
        dice.len() <= usize::MAX,
    ensures
        valid_selection(dice, whole_roll(dice.len())),
        held_tally(dice, whole_roll(dice.len())) == tally(dice),
{
    let all = whole_roll(dice.len());
    assert(valid_selection(dice, all));
    assert forall|f: int| 0 <= f < 7 implies #[trigger] held_tally(dice, all)[f] == tally(
        dice,
    )[f] by {
        lemma_held_tally_bound(dice, all, f);
    }
    assert(held_tally(dice, all) =~= tally(dice));
}

/// A face that earns points makes the total positive, and a positive total has such a face.
proof fn lemma_total_positive(mode: GameMode, t: Seq<nat>)
    ensures
        total_points(mode, t) > 0 <==> exists|f: int|
            1 <= f <= 6 && face_used(mode, f, #[trigger] t[f]) > 0,
{
    lemma_face_points_bound(mode, 1, t[1]);
    lemma_face_points_bound(mode, 2, t[2]);
    lemma_face_points_bound(mode, 3, t[3]);
    lemma_face_points_bound(mode, 4, t[4]);
    lemma_face_points_bound(mode, 5, t[5]);
    lemma_face_points_bound(mode, 6, t[6]);
    if total_points(mode, t) > 0 {
        let f: int = if face_points(mode, 1, t[1]) > 0 {
            1
        } else if face_points(mode, 2, t[2]) > 0 {
            2
        } else if face_points(mode, 3, t[3]) > 0 {
            3
        } else if face_points(mode, 4, t[4]) > 0 {
            4
        } else if face_points(mode, 5, t[5]) > 0 {
            5
        } else {
            6
        };
        assert(1 <= f <= 6 && face_used(mode, f, t[f]) > 0);
    }
}

/// The roll of a game has at most as many dice as the special combinations need.
pub open spec fn table_roll(mode: GameMode, dice: Seq<u8>) -> bool {
    mode == GameMode::Farkle ==> dice.len() <= 6
}

// ---------------------------------------------------------------------------
// Laws
// ---------------------------------------------------------------------------

/// A roll is a bust exactly when no selection of its dice scores.
pub proof fn bust_means_nothing_scores(mode: GameMode, dice: Seq<u8>)
    requires
        all_faces(dice),
        table_roll(mode, dice),
        dice.len() <= usize::MAX,
    ensures
        any_score(mode, dice) <==> exists|sel: Seq<usize>|
            held_score(mode, dice, sel) is Some,
{
    let t = tally(dice);
    if any_score(mode, dice) {
        let all = whole_roll(dice.len());
        lemma_whole_roll(dice);
        lemma_total_positive(mode, t);
        if total_points(mode, t) == 0 {
            assert(face_used(mode, 1, t[1]) == 0);
            assert(face_used(mode, 5, t[5]) == 0);
            assert forall|f: int| 2 <= f <= 6 implies #[trigger] t[f] < 3 by {
                assert(face_used(mode, f, t[f]) == 0);
            }
            assert(full_special(mode, dice));
        }
        assert(held_score(mode, dice, all) is Some);
    }
    if exists|sel: Seq<usize>| held_score(mode, dice, sel) is Some {
        let sel = choose|sel: Seq<usize>| held_score(mode, dice, sel) is Some;
        lemma_scoring_selection(mode, dice, sel);
        if !full_special(mode, dice) {
            let f = choose|f: int|
                1 <= f <= 6 && face_used(mode, f, #[trigger] held_tally(dice, sel)[f]) > 0;
            lemma_held_tally_bound(dice, sel, f);
            assert(tally(dice)[f] >= held_tally(dice, sel)[f]);
            if f != 1 && f != 5 {
                assert(tally(dice)[f] >= 3);
            }
        }
    }
}

/// A selection that scores has a face whose dice earn points, or is a special of the whole roll.
proof fn lemma_scoring_selection(mode: GameMode, dice: Seq<u8>, sel: Seq<usize>)
    requires
        held_score(mode, dice, sel) is Some,
        table_roll(mode, dice),
    ensures
        full_special(mode, dice) || exists|f: int|
            1 <= f <= 6 && face_used(mode, f, #[trigger] held_tally(dice, sel)[f]) > 0,
        dice.len() > 0,
        mode == GameMode::Farkle && whole_outcome(
            mode,
            held_tally(dice, sel),
            sel.len(),
        ) is Some ==> full_special(mode, dice),
{
    let t = held_tally(dice, sel);
    lemma_held_tally_bound(dice, sel, 0);
    lemma_total_positive(mode, t);
    match whole_outcome(mode, t, sel.len()) {
        Some(_) => {
            if mode == GameMode::Farkle {
                assert forall|f: int| 0 <= f < 7 implies #[trigger] t[f] == tally(dice)[f] by {
                    lemma_held_tally_bound(dice, sel, f);
                }
                assert(t =~= tally(dice));
            } else {
                let f = five_face(t)->0;
                assert(face_used(mode, f, t[f]) > 0);
            }
        },
        None => {},
    }
}

proof fn lemma_filter_distinct(sel: Seq<usize>, pred: spec_fn(usize) -> bool)
    requires
        sel.no_duplicates(),
    ensures
        sel.filter(pred).no_duplicates(),
        forall|i: usize| #[trigger] sel.filter(pred).contains(i) <==> sel.contains(i) && pred(i),
    decreases sel.len(),
{
    reveal(Seq::filter);
    if sel.len() > 0 {
        let head = sel.drop_last();
        let last = sel.last();
        assert(head.push(last) == sel);
        lemma_filter_distinct(head, pred);
        assert(!head.contains(last)) by {
            if head.contains(last) {
                let j = choose|j: int| 0 <= j < head.len() && head[j] == last;
                assert(sel[j] == sel[sel.len() - 1]);
            }
        }
        lemma_push_distinct(head, last);
        if pred(last) {
            lemma_push_distinct(head.filter(pred), last);
        }
    }
}

pub proof fn lemma_of_face(dice: Seq<u8>, sel: Seq<usize>, face: u8)
    requires
        sel.no_duplicates(),
    ensures
        of_face(dice, sel, face).no_duplicates(),
        forall|i: usize| #[trigger]
            of_face(dice, sel, face).contains(i) <==> sel.contains(i) && dice[i as int] == face,
{
    lemma_filter_distinct(sel, shows_face(dice, face));
}

/// Distinct places that are all selected, and whose faces are among the first `n`.
spec fn sound_places(dice: Seq<u8>, sel: Seq<usize>, out: Seq<usize>, n: int) -> bool {
    &&& out.no_duplicates()
    &&& forall|k: int|
        0 <= k < out.len() ==> sel.contains(#[trigger] out[k]) && dice[out[k] as int] <= n
}

proof fn lemma_sound_add(dice: Seq<u8>, sel: Seq<usize>, out: Seq<usize>, more: Seq<usize>, n: int)
    requires
        sound_places(dice, sel, out, n - 1),
        more.no_duplicates(),
        forall|k: int|
            0 <= k < more.len() ==> sel.contains(#[trigger] more[k]) && dice[more[k] as int] == n,
    ensures
        sound_places(dice, sel, out + more, n),
{
    let both = out + more;
    assert forall|a: int, b: int|
        0 <= a < both.len() && 0 <= b < both.len() && a != b implies both[a] != both[b] by {
        if a < out.len() && b < out.len() {
            assert(out[a] != out[b]);
        } else if a < out.len() {
            assert(dice[out[a] as int] <= n - 1);
            assert(dice[more[b - out.len()] as int] == n);
        } else if b < out.len() {
            assert(dice[out[b] as int] <= n - 1);
            assert(dice[more[a - out.len()] as int] == n);
        } else {
            assert(more[a - out.len()] != more[b - out.len()]);
        }
    }
    assert forall|k: int| 0 <= k < both.len() implies sel.contains(#[trigger] both[k])
        && dice[both[k] as int] <= n by {
        if k < out.len() {
            assert(both[k] == out[k]);
        } else {
            assert(both[k] == more[k - out.len()]);
        }
    }
}

proof fn lemma_used_up_to(mode: GameMode, dice: Seq<u8>, sel: Seq<usize>, n: int)
    requires
        sel.no_duplicates(),
        0 <= n <= 6,
    ensures
        sound_places(dice, sel, used_up_to(mode, dice, sel, n), n),
        forall|k: int|
            0 <= k < used_up_to(mode, dice, sel, n).len() ==> {
                let g = dice[#[trigger] used_up_to(mode, dice, sel, n)[k] as int] as int;
                face_used(mode, g, held_tally(dice, sel)[g]) > 0 && g > 0
            },
    decreases n,
{
    if n > 0 {
        lemma_used_up_to(mode, dice, sel, n - 1);
        lemma_of_face(dice, sel, n as u8);
        let before = used_up_to(mode, dice, sel, n - 1);
        let places = of_face(dice, sel, n as u8);
        let more = used_of_face(mode, dice, sel, n);
        lemma_face_points_bound(mode, n, places.len());
        assert forall|k: int| 0 <= k < more.len() implies sel.contains(#[trigger] more[k])
            && dice[more[k] as int] == n by {
            assert(places.contains(places[k]));
        }
        assert(more.no_duplicates()) by {
            assert forall|a: int, b: int|
                0 <= a < more.len() && 0 <= b < more.len() && a != b implies more[a] != more[b] by {
                assert(places[a] != places[b]);
            }
        }
        lemma_sound_add(dice, sel, before, more, n);
        let both = used_up_to(mode, dice, sel, n);
        assert forall|k: int| 0 <= k < both.len() implies {
            let g = dice[#[trigger] both[k] as int] as int;
            face_used(mode, g, held_tally(dice, sel)[g]) > 0 && g > 0
        } by {
            if k < before.len() {
                assert(both[k] == before[k]);
            } else {
                assert(both[k] == more[k - before.len()]);
            }
        }
    }
}

/// The used places are selected once each.
pub proof fn lemma_used_up_to_distinct(mode: GameMode, dice: Seq<u8>, sel: Seq<usize>)
    requires
        sel.no_duplicates(),
    ensures
        used_places(mode, dice, sel).no_duplicates(),
{
    lemma_used_up_to(mode, dice, sel, 6);
}

proof fn lemma_places_up_to(dice: Seq<u8>, sel: Seq<usize>, n: int)
    requires
        sel.no_duplicates(),
        0 <= n <= 6,
    ensures
        sound_places(dice, sel, places_up_to(dice, sel, n), n),
    decreases n,
{
    if n > 0 {
        lemma_places_up_to(dice, sel, n - 1);
        lemma_of_face(dice, sel, n as u8);
        let places = of_face(dice, sel, n as u8);
        assert forall|k: int| 0 <= k < places.len() implies sel.contains(#[trigger] places[k])
            && dice[places[k] as int] == n by {
            assert(places.contains(places[k]));
        }
        lemma_sound_add(dice, sel, places_up_to(dice, sel, n - 1), places, n);
    }
}

/// The dice that a held score uses are selected dice, none twice.
pub proof fn used_dice_are_selected(mode: GameMode, dice: Seq<u8>, sel: Seq<usize>)
    requires
        held_score(mode, dice, sel) is Some,
    ensures
        ({
            let held = held_score(mode, dice, sel)->0;
            &&& held.used.no_duplicates()
            &&& forall|k: int| 0 <= k < held.used.len() ==> sel.contains(#[trigger] held.used[k])
            &&& distinct_places(dice.len(), held.used)
            &&& held.used.len() <= dice.len()
        }),
{
    let held = held_score(mode, dice, sel)->0;
    let t = held_tally(dice, sel);
    lemma_used_up_to(mode, dice, sel, 6);
    lemma_places_up_to(dice, sel, 6);
    if mode == GameMode::Bones && whole_outcome(mode, t, sel.len()) is Some {
        let f = five_face(t)->0 as u8;
        lemma_of_face(dice, sel, f);
        assert forall|k: int| 0 <= k < held.used.len() implies sel.contains(
            #[trigger] held.used[k],
        ) by {
            assert(held.used.contains(held.used[k]));
        }
    }
    assert forall|k: int| 0 <= k < held.used.len() implies #[trigger] held.used[k]
        < dice.len() by {
        assert(sel.contains(held.used[k]));
        let j = choose|j: int| 0 <= j < sel.len() && sel[j] == held.used[k];
        assert(sel[j] < dice.len());
    }
    lemma_distinct_places_len(dice.len(), held.used);
}

/// Every die that a held score uses is one that may be kept.
pub proof fn used_dice_are_keepable(mode: GameMode, dice: Seq<u8>, sel: Seq<usize>)
    requires
        held_score(mode, dice, sel) is Some,
        table_roll(mode, dice),
    ensures
        forall|k: int|
            0 <= k < held_score(mode, dice, sel)->0.used.len() ==> keepable(
                mode,
                dice,
                #[trigger] held_score(mode, dice, sel)->0.used[k] as int,
            ),
{
    let held = held_score(mode, dice, sel)->0;
    let t = held_tally(dice, sel);
    used_dice_are_selected(mode, dice, sel);
    lemma_scoring_selection(mode, dice, sel);
    lemma_used_up_to(mode, dice, sel, 6);
    assert forall|k: int| 0 <= k < held.used.len() implies keepable(
        mode,
        dice,
        #[trigger] held.used[k] as int,
    ) by {
        let i = held.used[k];
        assert(sel.contains(i));
        let j = choose|j: int| 0 <= j < sel.len() && sel[j] == i;
        assert(sel[j] < dice.len() && is_face(dice[sel[j] as int]));
        let g = dice[i as int] as int;
        lemma_held_tally_bound(dice, sel, g);
        if whole_outcome(mode, t, sel.len()) is Some {
            if mode == GameMode::Bones {
                let f = five_face(t)->0 as u8;
                lemma_of_face(dice, sel, f);
                assert(of_face(dice, sel, f).contains(held.used[k]));
                assert(copies(dice, g as u8) >= 3);
            }
        } else {
            assert(face_used(mode, g, t[g]) > 0);
            if g != 1 && g != 5 {
                assert(t[g] >= 3);
                assert(copies(dice, g as u8) >= 3);
            }
        }
    }
}

proof fn lemma_picked_tally(dice: Seq<u8>, sel: Seq<usize>, face: u8)
    ensures
        copies(picked(dice, sel), face) == of_face(dice, sel, face).len(),
    decreases sel.len(),
{
    reveal(Seq::filter);
    if sel.len() > 0 {
        let head = sel.drop_last();
        assert(head.push(sel.last()) == sel);
        lemma_picked_tally(dice, head, face);
        lemma_of_face_push(dice, head, sel.last(), face);
        assert(picked(dice, sel) == picked(dice, head).push(dice[sel.last() as int]));
        lemma_copies_push(picked(dice, head), dice[sel.last() as int], face);
    }
}

pub proof fn lemma_used_len(mode: GameMode, dice: Seq<u8>, sel: Seq<usize>)
    ensures
        used_places(mode, dice, sel).len() == ({
            let t = held_tally(dice, sel);
            face_used(mode, 1, t[1]) + face_used(mode, 2, t[2]) + face_used(mode, 3, t[3])
                + face_used(mode, 4, t[4]) + face_used(mode, 5, t[5]) + face_used(mode, 6, t[6])
        }),
        places_by_face(dice, sel).len() == tally_sum(held_tally(dice, sel)),
{
    let t = held_tally(dice, sel);
    lemma_face_points_bound(mode, 1, t[1]);
    lemma_face_points_bound(mode, 2, t[2]);
    lemma_face_points_bound(mode, 3, t[3]);
    lemma_face_points_bound(mode, 4, t[4]);
    lemma_face_points_bound(mode, 5, t[5]);
    lemma_face_points_bound(mode, 6, t[6]);
    reveal_with_fuel(used_up_to, 7);
    reveal_with_fuel(places_up_to, 7);
}

/// Where every selected die can be used, the held score is the score of the selected dice, and on
/// a roll of the game it uses them all.
pub proof fn clean_selection_scores_the_same(mode: GameMode, dice: Seq<u8>, sel: Seq<usize>)
    requires
        selection_score(mode, dice, sel) is Some,
        held_fits(mode, dice, sel),
    ensures
        held_score(mode, dice, sel) is Some,
        held_score(mode, dice, sel)->0.points == selection_score(mode, dice, sel)->0.points,
        held_score(mode, dice, sel)->0.auto_win == selection_score(mode, dice, sel)->0.auto_win,
        sel.len() <= mode.full_roll() ==> held_score(mode, dice, sel)->0.used.len() == sel.len(),
{
    let dice_at = picked(dice, sel);
    let t = held_tally(dice, sel);
    assert forall|f: int| 0 <= f < 7 implies #[trigger] tally(dice_at)[f] == t[f] by {
        lemma_picked_tally(dice, sel, f as u8);
    }
    assert(tally(dice_at) =~= t);
    assert forall|k: int| 0 <= k < sel.len() implies #[trigger] sel[k] < dice.len() && is_face(
        dice[sel[k] as int],
    ) by {
        assert(is_face(dice_at[k]));
    }
    lemma_held_tally_sum(dice, sel);
    lemma_total_positive(mode, t);
    lemma_used_len(mode, dice, sel);
    if whole_outcome(mode, t, sel.len()) is None {
        if total_points(mode, t) == 0 {
            assert(face_used(mode, 1, t[1]) == 0);
            assert(face_used(mode, 2, t[2]) == 0);
            assert(face_used(mode, 3, t[3]) == 0);
            assert(face_used(mode, 4, t[4]) == 0);
            assert(face_used(mode, 5, t[5]) == 0);
            assert(face_used(mode, 6, t[6]) == 0);
        }
    }
}

// ---------------------------------------------------------------------------
// The cheapest selection
// ---------------------------------------------------------------------------

/// The first `k` dice of a roll that show `face`.
pub open spec fn first_of_face(dice: Seq<u8>, face: u8, k: int) -> Seq<usize> {
    of_face(dice, whole_roll(dice.len()), face).take(k)
}

/// Places that all show one face count for that face alone.
pub proof fn lemma_uniform_tally(dice: Seq<u8>, sel: Seq<usize>, face: u8, g: u8)
    requires
        forall|k: int| 0 <= k < sel.len() ==> dice[#[trigger] sel[k] as int] == face,
    ensures
        of_face(dice, sel, g).len() == if g == face {
            sel.len()
        } else {
            0
        },
    decreases sel.len(),
{
    reveal(Seq::filter);
    if sel.len() > 0 {
        let head = sel.drop_last();
        assert(head.push(sel.last()) == sel);
        assert(dice[sel[sel.len() - 1] as int] == face);
        assert forall|k: int| 0 <= k < head.len() implies dice[#[trigger] head[k] as int]
            == face by {
            assert(head[k] == sel[k]);
        }
        lemma_uniform_tally(dice, head, face, g);
        lemma_of_face_push(dice, head, sel.last(), g);
    }
}

proof fn lemma_first_of_face(dice: Seq<u8>, face: u8, k: int)
    requires
        dice.len() <= usize::MAX,
        is_face(face),
        0 <= k <= copies(dice, face),
    ensures
        ({
            let sel = first_of_face(dice, face, k);
            &&& sel.len() == k
            &&& valid_selection(dice, sel)
            &&& forall|j: int| 0 <= j < sel.len() ==> dice[#[trigger] sel[j] as int] == face
            &&& forall|g: int|
                0 <= g < 7 ==> #[trigger] held_tally(dice, sel)[g] == if g == face {
                    k
                } else {
                    0
                }
        }),
{
    let all = whole_roll(dice.len());
    let places = of_face(dice, all, face);
    let sel = first_of_face(dice, face, k);
    assert(rising(all, 0, dice.len() as int));
    lemma_rising_tally(dice, all, dice.len() as int, face);
    assert(dice.take(dice.len() as int) == dice);
    lemma_of_face(dice, all, face);
    assert forall|j: int| 0 <= j < sel.len() implies dice[#[trigger] sel[j] as int] == face && sel[j]
        < dice.len() by {
        assert(sel[j] == places[j]);
        assert(places.contains(places[j]));
        assert(all.contains(sel[j]));
    }
    assert forall|a: int, b: int|
        0 <= a < sel.len() && 0 <= b < sel.len() && a != b implies sel[a] != sel[b] by {
        assert(places[a] != places[b]);
    }
    assert forall|g: int| 0 <= g < 7 implies #[trigger] held_tally(dice, sel)[g] == if g == face {
        k
    } else {
        0
    } by {
        lemma_uniform_tally(dice, sel, face, g as u8);
    }
}

/// Dice of one face are worth what that face is worth.
pub proof fn lemma_one_face_total(mode: GameMode, t: Seq<nat>, face: int, k: nat)
    requires
        1 <= face <= 6,
        forall|g: int| 0 <= g < 7 ==> #[trigger] t[g] == if g == face {
            k
        } else {
            0
        },
    ensures
        total_points(mode, t) == face_points(mode, face, k),
{
    assert(t[1] == if 1 == face { k } else { 0 });
    assert(t[2] == if 2 == face { k } else { 0 });
    assert(t[3] == if 3 == face { k } else { 0 });
    assert(t[4] == if 4 == face { k } else { 0 });
    assert(t[5] == if 5 == face { k } else { 0 });
    assert(t[6] == if 6 == face { k } else { 0 });
    lemma_face_points_bound(mode, 1, 0);
    lemma_face_points_bound(mode, 2, 0);
    lemma_face_points_bound(mode, 3, 0);
    lemma_face_points_bound(mode, 4, 0);
    lemma_face_points_bound(mode, 5, 0);
    lemma_face_points_bound(mode, 6, 0);
}

/// One 1 or 5, or three of another face, can be held for their points.
proof fn lemma_cheap_face(mode: GameMode, dice: Seq<u8>, face: u8)
    requires
        dice.len() <= usize::MAX,
        is_face(face),
        copies(dice, face) >= if face == 1 || face == 5 {
            1nat
        } else {
            3nat
        },
    ensures
        ({
            let k: int = if face == 1 || face == 5 {
                1
            } else {
                3
            };
            let sel = first_of_face(dice, face, k);
            &&& held_fits(mode, dice, sel)
            &&& held_score(mode, dice, sel) is Some
            &&& held_score(mode, dice, sel)->0.points == if face == 1 {
                100
            } else if face == 5 {
                50
            } else {
                face * 100
            }
        }),
{
    let k: int = if face == 1 || face == 5 {
        1
    } else {
        3
    };
    let sel = first_of_face(dice, face, k);
    let t = held_tally(dice, sel);
    lemma_first_of_face(dice, face, k);
    lemma_one_face_total(mode, t, face as int, k as nat);
    lemma_face_points_few(mode, face as int, k as nat);
    lemma_held_fits_short(mode, dice, sel);
    assert(t[1] <= 3 && t[2] <= 3 && t[3] <= 3 && t[4] <= 3 && t[5] <= 3 && t[6] <= 3);
    assert(five_face(t) is None);
    assert(whole_outcome(mode, t, sel.len()) is None);
    assert(total_points(mode, t) > 0);
}

/// Five of a face but 1 can be held in Bones, and win.
proof fn lemma_five_wins(dice: Seq<u8>, face: u8)
    requires
        dice.len() <= usize::MAX,
        2 <= face <= 6,
        copies(dice, face) >= 5,
    ensures
        ({
            let sel = first_of_face(dice, face, 5);
            &&& held_fits(GameMode::Bones, dice, sel)
            &&& held_score(GameMode::Bones, dice, sel) is Some
            &&& held_score(GameMode::Bones, dice, sel)->0.auto_win
        }),
{
    let sel = first_of_face(dice, face, 5);
    let t = held_tally(dice, sel);
    lemma_first_of_face(dice, face, 5);
    lemma_held_fits_short(GameMode::Bones, dice, sel);
    assert(t[1] == 0);
    assert(t[face as int] == 5);
}

/// Selections of different faces can be put together.
proof fn lemma_join_faces(dice: Seq<u8>, a: Seq<usize>, b: Seq<usize>, face: u8)
    requires
        valid_selection(dice, a),
        valid_selection(dice, b),
        forall|k: int| 0 <= k < a.len() ==> dice[#[trigger] a[k] as int] < face,
        forall|k: int| 0 <= k < b.len() ==> dice[#[trigger] b[k] as int] == face,
    ensures
        valid_selection(dice, a + b),
        forall|g: int|
            0 <= g < 7 ==> #[trigger] held_tally(dice, a + b)[g] == held_tally(dice, a)[g]
                + held_tally(dice, b)[g],
        forall|k: int| 0 <= k < (a + b).len() ==> dice[#[trigger] (a + b)[k] as int] <= face,
{
    let both = a + b;
    assert forall|i: int, j: int|
        0 <= i < both.len() && 0 <= j < both.len() && i != j implies both[i] != both[j] by {
        if i < a.len() && j < a.len() {
            assert(a[i] != a[j]);
        } else if i < a.len() {
            assert(dice[a[i] as int] < face && dice[b[j - a.len()] as int] == face);
        } else if j < a.len() {
            assert(dice[a[j] as int] < face && dice[b[i - a.len()] as int] == face);
        } else {
            assert(b[i - a.len()] != b[j - a.len()]);
        }
    }
    assert forall|k: int| 0 <= k < both.len() implies #[trigger] both[k] < dice.len() && is_face(
        dice[both[k] as int],
    ) && dice[both[k] as int] <= face by {
        if k < a.len() {
            assert(both[k] == a[k]);
        } else {
            assert(both[k] == b[k - a.len()]);
        }
    }
    assert forall|g: int| 0 <= g < 7 implies #[trigger] held_tally(dice, both)[g] == held_tally(
        dice,
        a,
    )[g] + held_tally(dice, b)[g] by {
        Seq::filter_distributes_over_add(a, b, shows_face(dice, g as u8));
    }
}

/// Twice each of three faces, and no other die.
proof fn lemma_pairs_tally(t: Seq<nat>, f: int, g: int, h: int)
    requires
        1 <= f < g < h <= 6,
        forall|k: int| 0 <= k < 7 ==> #[trigger] t[k] == if k == f || k == g || k == h {
            2nat
        } else {
            0nat
        },
    ensures
        special(t, 6) == Some(1500u32),
{
    assert(t[1] == if 1 == f || 1 == g || 1 == h { 2nat } else { 0nat });
    assert(t[2] == if 2 == f || 2 == g || 2 == h { 2nat } else { 0nat });
    assert(t[3] == if 3 == f || 3 == g || 3 == h { 2nat } else { 0nat });
    assert(t[4] == if 4 == f || 4 == g || 4 == h { 2nat } else { 0nat });
    assert(t[5] == if 5 == f || 5 == g || 5 == h { 2nat } else { 0nat });
    assert(t[6] == if 6 == f || 6 == g || 6 == h { 2nat } else { 0nat });
    assert(three_pairs(t));
}

/// Three pairs of different faces can be held in Farkle.
proof fn lemma_three_pairs_held(dice: Seq<u8>, f: u8, g: u8, h: u8)
    requires
        dice.len() <= usize::MAX,
        1 <= f < g < h <= 6,
        copies(dice, f) >= 2,
        copies(dice, g) >= 2,
        copies(dice, h) >= 2,
    ensures
        ({
            let sel = first_of_face(dice, f, 2) + first_of_face(dice, g, 2) + first_of_face(
                dice,
                h,
                2,
            );
            &&& held_fits(GameMode::Farkle, dice, sel)
            &&& held_score(GameMode::Farkle, dice, sel) is Some
            &&& held_score(GameMode::Farkle, dice, sel)->0.points == 1500
        }),
{
    let a = first_of_face(dice, f, 2);
    let b = first_of_face(dice, g, 2);
    let c = first_of_face(dice, h, 2);
    lemma_first_of_face(dice, f, 2);
    lemma_first_of_face(dice, g, 2);
    lemma_first_of_face(dice, h, 2);
    lemma_join_faces(dice, a, b, g);
    lemma_join_faces(dice, a + b, c, h);
    let t = held_tally(dice, a + b + c);
    assert forall|k: int| 0 <= k < 7 implies #[trigger] t[k] == if k == f || k == g || k == h {
        2nat
    } else {
        0nat
    } by {
        assert(held_tally(dice, a + b)[k] == held_tally(dice, a)[k] + held_tally(dice, b)[k]);
    }
    lemma_pairs_tally(t, f as int, g as int, h as int);
    lemma_held_fits_short(GameMode::Farkle, dice, a + b + c);
}

/// A set of a face is worth at least the three of a kind of that face.
proof fn lemma_set_worth(mode: GameMode, face: int, c: nat)
    requires
        1 <= face <= 6,
    ensures
        face != 1 && face != 5 && c < 3 ==> face_points(mode, face, c) == 0,
        c >= 3 ==> face_points(mode, face, c) >= triple_value(face),
        face == 1 && c > 0 ==> face_points(mode, face, c) >= 100,
        face == 5 && c > 0 ==> face_points(mode, face, c) >= 50,
        c == 0 ==> face_points(mode, face, c) == 0,
{
    lemma_face_points_bound(mode, face, c);
    let k = set_size(mode, c);
    let v = triple_value(face);
    let rest = (c - k) as nat;
    if k > 0 {
        let m = (k - 2) as nat;
        assert(v * m >= v) by (nonlinear_arith)
            requires
                m >= 1,
        ;
    }
    if rest > 0 {
        let w = single_value(face);
        assert(rest * w >= w) by (nonlinear_arith)
            requires
                rest >= 1,
        ;
    }
    if face != 1 && face != 5 {
        assert(rest * single_value(face) == 0) by (nonlinear_arith)
            requires
                single_value(face) == 0,
        ;
    }
}

/// No selection from dice with tally `t` that does not win at once is worth less than the
/// cheapest one.
proof fn lemma_fewest(mode: GameMode, dice: Seq<u8>, sel: Seq<usize>)
    requires
        held_score(mode, dice, sel) is Some,
        held_fits(mode, dice, sel),
    ensures
        ({
            let held = held_score(mode, dice, sel)->0;
            let t = tally(dice);
            if held.auto_win {
                can_win_at_once(mode, t)
            } else {
                fewest_points(mode, t) matches Some(points) && points <= held.points
            }
        }),
{
    let s = held_tally(dice, sel);
    let t = tally(dice);
    lemma_held_tally_bound(dice, sel, 1);
    lemma_held_tally_bound(dice, sel, 2);
    lemma_held_tally_bound(dice, sel, 3);
    lemma_held_tally_bound(dice, sel, 4);
    lemma_held_tally_bound(dice, sel, 5);
    lemma_held_tally_bound(dice, sel, 6);
    lemma_set_worth(mode, 1, s[1]);
    lemma_set_worth(mode, 2, s[2]);
    lemma_set_worth(mode, 3, s[3]);
    lemma_set_worth(mode, 4, s[4]);
    lemma_set_worth(mode, 5, s[5]);
    lemma_set_worth(mode, 6, s[6]);
}

/// Some selection is playable if and only if some dice win at once or the cheapest ones that
/// score do not go over.
pub proof fn cheapest_selection_decides(
    mode: GameMode,
    dice: Seq<u8>,
    score: u32,
    turn_points: u32,
    on_board: bool,
    win_score: u32,
)
    requires
        dice.len() <= usize::MAX,
    ensures
        some_playable(mode, dice, score, turn_points, on_board, win_score) <==> can_win_at_once(
            mode,
            tally(dice),
        ) || (fewest_points(mode, tally(dice)) matches Some(points) && (!on_board || capped(
            score + capped(turn_points + points),
        ) <= win_score)),
{
    let t = tally(dice);
    if some_playable(mode, dice, score, turn_points, on_board, win_score) {
        let sel = choose|sel: Seq<usize>|
            playable(mode, dice, sel, score, turn_points, on_board, win_score);
        lemma_fewest(mode, dice, sel);
    }
    if can_win_at_once(mode, t) {
        let face: u8 = if t[2] >= 5 {
            2
        } else if t[3] >= 5 {
            3
        } else if t[4] >= 5 {
            4
        } else if t[5] >= 5 {
            5
        } else {
            6
        };
        lemma_five_wins(dice, face);
        assert(playable(
            mode,
            dice,
            first_of_face(dice, face, 5),
            score,
            turn_points,
            on_board,
            win_score,
        ));
    }
    if let Some(points) = fewest_points(mode, t) {
        if !on_board || capped(score + capped(turn_points + points)) <= win_score {
            let sel = lemma_cheapest(mode, dice);
            assert(playable(mode, dice, sel, score, turn_points, on_board, win_score));
        }
    }
}

proof fn lemma_cheapest(mode: GameMode, dice: Seq<u8>) -> (sel: Seq<usize>)
    requires
        dice.len() <= usize::MAX,
        fewest_points(mode, tally(dice)) is Some,
    ensures
        held_fits(mode, dice, sel),
        held_score(mode, dice, sel) matches Some(held) && Some(held.points) == fewest_points(
            mode,
            tally(dice),
        ),
{
    let t = tally(dice);
    let face: u8 = if t[5] > 0 {
        5
    } else if t[1] > 0 {
        1
    } else if t[2] >= 3 {
        2
    } else if t[3] >= 3 {
        3
    } else if t[4] >= 3 {
        4
    } else if t[6] >= 3 {
        6
    } else {
        0
    };
    if face != 0 {
        lemma_cheap_face(mode, dice, face);
        first_of_face(
            dice,
            face,
            if face == 1 || face == 5 {
                1
            } else {
                3
            },
        )
    } else {
        let f: u8 = if t[2] >= 2 {
            2
        } else {
            3
        };
        let h: u8 = if t[6] >= 2 {
            6
        } else {
            4
        };
        let g: u8 = if f == 2 && t[3] >= 2 {
            3
        } else {
            4
        };
        lemma_three_pairs_held(dice, f, g, h);
        first_of_face(dice, f, 2) + first_of_face(dice, g, 2) + first_of_face(dice, h, 2)
    }
}

// ---------------------------------------------------------------------------
// Scoring the used dice again, and scoring more dice
// ---------------------------------------------------------------------------

/// Places that all show one face are the places of that face, and none of another one's.
proof fn lemma_uniform_places(dice: Seq<u8>, sel: Seq<usize>, face: u8, g: u8)
    requires
        forall|k: int| 0 <= k < sel.len() ==> dice[#[trigger] sel[k] as int] == face,
    ensures
        of_face(dice, sel, g) == if g == face {
            sel
        } else {
            seq![]
        },
    decreases sel.len(),
{
    reveal(Seq::filter);
    if sel.len() > 0 {
        let head = sel.drop_last();
        assert(dice[sel[sel.len() - 1] as int] == face);
        assert forall|k: int| 0 <= k < head.len() implies dice[#[trigger] head[k] as int]
            == face by {
            assert(head[k] == sel[k]);
        }
        lemma_uniform_places(dice, head, face, g);
        assert(head.push(sel.last()) =~= sel);
    } else {
        assert(sel =~= seq![]);
    }
}

proof fn lemma_of_face_shows(dice: Seq<u8>, sel: Seq<usize>, face: u8, k: int)
    requires
        sel.no_duplicates(),
        0 <= k < of_face(dice, sel, face).len(),
    ensures
        dice[of_face(dice, sel, face)[k] as int] == face,
{
    lemma_of_face(dice, sel, face);
    assert(of_face(dice, sel, face).contains(of_face(dice, sel, face)[k]));
}

/// The used places of a face, looked up among all used places.
pub proof fn lemma_used_of_used(mode: GameMode, dice: Seq<u8>, sel: Seq<usize>, n: int, face: int)
    requires
        sel.no_duplicates(),
        0 <= n <= 6,
        0 <= face <= 6,
    ensures
        of_face(dice, used_up_to(mode, dice, sel, n), face as u8) == if 1 <= face <= n {
            used_of_face(mode, dice, sel, face)
        } else {
            seq![]
        },
    decreases n,
{
    reveal(Seq::filter);
    if n > 0 {
        let before = used_up_to(mode, dice, sel, n - 1);
        let more = used_of_face(mode, dice, sel, n);
        let places = of_face(dice, sel, n as u8);
        lemma_face_points_bound(mode, n, places.len());
        lemma_used_of_used(mode, dice, sel, n - 1, face);
        Seq::filter_distributes_over_add(before, more, shows_face(dice, face as u8));
        assert forall|k: int| 0 <= k < more.len() implies dice[#[trigger] more[k] as int] == n by {
            lemma_of_face_shows(dice, sel, n as u8, k);
        }
        lemma_uniform_places(dice, more, n as u8, face as u8);
        assert(Seq::<usize>::empty() + more =~= more);
        assert(of_face(dice, before, face as u8) + Seq::<usize>::empty() =~= of_face(
            dice,
            before,
            face as u8,
        ));
    }
}

/// The places of a face, looked up among all places.
pub proof fn lemma_places_of_places(dice: Seq<u8>, sel: Seq<usize>, n: int, face: int)
    requires
        sel.no_duplicates(),
        0 <= n <= 6,
        0 <= face <= 6,
    ensures
        of_face(dice, places_up_to(dice, sel, n), face as u8) == if 1 <= face <= n {
            of_face(dice, sel, face as u8)
        } else {
            seq![]
        },
    decreases n,
{
    reveal(Seq::filter);
    if n > 0 {
        let before = places_up_to(dice, sel, n - 1);
        let more = of_face(dice, sel, n as u8);
        lemma_places_of_places(dice, sel, n - 1, face);
        Seq::filter_distributes_over_add(before, more, shows_face(dice, face as u8));
        assert forall|k: int| 0 <= k < more.len() implies dice[#[trigger] more[k] as int] == n by {
            lemma_of_face_shows(dice, sel, n as u8, k);
        }
        lemma_uniform_places(dice, more, n as u8, face as u8);
        assert(Seq::<usize>::empty() + more =~= more);
        assert(of_face(dice, before, face as u8) + Seq::<usize>::empty() =~= of_face(
            dice,
            before,
            face as u8,
        ));
    }
}

/// Selections with the same places face by face have the same places altogether.
proof fn lemma_same_places(dice: Seq<u8>, a: Seq<usize>, b: Seq<usize>, n: int)
    requires
        0 <= n <= 6,
        forall|f: int|
            1 <= f <= 6 ==> #[trigger] of_face(dice, a, f as u8) == of_face(dice, b, f as u8),
    ensures
        places_up_to(dice, a, n) == places_up_to(dice, b, n),
    decreases n,
{
    if n > 0 {
        lemma_same_places(dice, a, b, n - 1);
        assert(of_face(dice, a, n as u8) == of_face(dice, b, n as u8));
    }
}

/// The dice of a face that are used are all used on their own, for the same points.
proof fn lemma_face_again(mode: GameMode, face: int, c: nat)
    requires
        1 <= face <= 6,
    ensures
        face_used(mode, face, face_used(mode, face, c)) == face_used(mode, face, c),
        face_points(mode, face, face_used(mode, face, c)) == face_points(mode, face, c),
        face_used(mode, face, c) <= c,
        face != 1 && face != 5 && mode == GameMode::Bones ==> face_used(mode, face, c) <= 4,
{
    let k = face_used(mode, face, c);
    let v = single_value(face);
    if face != 1 && face != 5 {
        assert((c - set_size(mode, c)) as nat * v == 0) by (nonlinear_arith)
            requires
                v == 0,
        ;
        assert((k - set_size(mode, k)) as nat * v == 0) by (nonlinear_arith)
            requires
                v == 0,
        ;
    }
}

/// What is used of the used dice is all of them, in the same order.
#[verifier::rlimit(30)]
proof fn lemma_used_again(mode: GameMode, dice: Seq<u8>, sel: Seq<usize>, n: int)
    requires
        sel.no_duplicates(),
        0 <= n <= 6,
    ensures
        used_up_to(mode, dice, used_places(mode, dice, sel), n) == used_up_to(mode, dice, sel, n),
    decreases n,
{
    if n > 0 {
        lemma_used_again(mode, dice, sel, n - 1);
        lemma_used_of_face_again(mode, dice, sel, n);
    }
}

/// What is used of the used dice of a face is all of them.
proof fn lemma_used_of_face_again(mode: GameMode, dice: Seq<u8>, sel: Seq<usize>, face: int)
    requires
        sel.no_duplicates(),
        1 <= face <= 6,
    ensures
        used_of_face(mode, dice, used_places(mode, dice, sel), face) == used_of_face(
            mode,
            dice,
            sel,
            face,
        ),
{
    let c = of_face(dice, sel, face as u8).len();
    let more = used_of_face(mode, dice, sel, face);
    lemma_used_of_used(mode, dice, sel, 6, face);
    lemma_face_again(mode, face, c);
    assert(more.len() == face_used(mode, face, c));
    assert(more.take(more.len() as int) =~= more);
}

/// The score of a set of dice read off from the tally of the selection that picks them.
proof fn lemma_picked_score(mode: GameMode, dice: Seq<u8>, sel: Seq<usize>)
    requires
        valid_selection(dice, sel),
    ensures
        tally(picked(dice, sel)) == held_tally(dice, sel),
        all_faces(picked(dice, sel)),
        picked(dice, sel).len() == sel.len(),
{
    let dice_at = picked(dice, sel);
    assert forall|f: int| 0 <= f < 7 implies #[trigger] tally(dice_at)[f] == held_tally(
        dice,
        sel,
    )[f] by {
        lemma_picked_tally(dice, sel, f as u8);
    }
    assert(tally(dice_at) =~= held_tally(dice, sel));
    assert forall|k: int| 0 <= k < dice_at.len() implies is_face(#[trigger] dice_at[k]) by {
        assert(is_face(dice[sel[k] as int]));
    }
}

proof fn lemma_used_valid(mode: GameMode, dice: Seq<u8>, sel: Seq<usize>)
    requires
        held_score(mode, dice, sel) is Some,
    ensures
        valid_selection(dice, held_score(mode, dice, sel)->0.used),
{
    let used = held_score(mode, dice, sel)->0.used;
    used_dice_are_selected(mode, dice, sel);
    assert forall|k: int| 0 <= k < used.len() implies #[trigger] used[k] < dice.len() && is_face(
        dice[used[k] as int],
    ) by {
        assert(sel.contains(used[k]));
        let j = choose|j: int| 0 <= j < sel.len() && sel[j] == used[k];
        assert(is_face(dice[sel[j] as int]));
    }
}

/// On a roll of the game, the used dice of a held score are worth the same again, all of them
/// used: as a selection and as a set of dice.
pub proof fn used_dice_score_the_same_again(mode: GameMode, dice: Seq<u8>, sel: Seq<usize>)
    requires
        dice.len() <= mode.full_roll(),
        held_score(mode, dice, sel) is Some,
    ensures
        ({
            let held = held_score(mode, dice, sel)->0;
            &&& held_score(mode, dice, held.used) == Some(held)
            &&& dice_score(mode, picked(dice, held.used)) == Some(
                ScoreOutcome { points: held.points, auto_win: held.auto_win },
            )
        }),
{
    let s = held_tally(dice, sel);
    lemma_used_valid(mode, dice, sel);
    lemma_picked_score(mode, dice, held_score(mode, dice, sel)->0.used);
    if whole_outcome(mode, s, sel.len()) is None {
        lemma_plain_again(mode, dice, sel);
    } else if mode == GameMode::Farkle {
        lemma_special_again(dice, sel);
    } else {
        lemma_five_again(dice, sel);
    }
}

#[verifier::rlimit(30)]
proof fn lemma_plain_again(mode: GameMode, dice: Seq<u8>, sel: Seq<usize>)
    requires
        dice.len() <= mode.full_roll(),
        held_score(mode, dice, sel) is Some,
        whole_outcome(mode, held_tally(dice, sel), sel.len()) is None,
        valid_selection(dice, used_places(mode, dice, sel)),
    ensures
        ({
            let used = used_places(mode, dice, sel);
            let u = held_tally(dice, used);
            &&& used.len() > 0
            &&& whole_outcome(mode, u, used.len()) is None
            &&& total_points(mode, u) == total_points(mode, held_tally(dice, sel))
            &&& all_used(mode, u)
            &&& used_places(mode, dice, used) == used
        }),
{
    let used = used_places(mode, dice, sel);
    let s = held_tally(dice, sel);
    let u = held_tally(dice, used);
    assert forall|f: int| 1 <= f <= 6 implies #[trigger] u[f] == face_used(mode, f, s[f]) by {
        lemma_used_of_used(mode, dice, sel, 6, f);
        lemma_face_again(mode, f, s[f]);
    }
    assert forall|f: int| 1 <= f <= 6 implies face_used(mode, f, #[trigger] u[f]) == u[f]
        && face_points(mode, f, u[f]) == face_points(mode, f, s[f]) && u[f] <= s[f] by {
        lemma_face_again(mode, f, s[f]);
    }
    assert(face_points(mode, 1, u[1]) == face_points(mode, 1, s[1]));
    assert(face_points(mode, 2, u[2]) == face_points(mode, 2, s[2]));
    assert(face_points(mode, 3, u[3]) == face_points(mode, 3, s[3]));
    assert(face_points(mode, 4, u[4]) == face_points(mode, 4, s[4]));
    assert(face_points(mode, 5, u[5]) == face_points(mode, 5, s[5]));
    assert(face_points(mode, 6, u[6]) == face_points(mode, 6, s[6]));
    lemma_used_again(mode, dice, sel, 6);
    lemma_held_tally_sum(dice, sel);
    lemma_held_tally_sum(dice, used);
    selection_is_no_longer_than_roll(dice, sel);
    lemma_total_bound(mode, u);
    if mode == GameMode::Bones {
        assert forall|f: int| 1 <= f <= 6 implies #[trigger] u[f] != 5 by {
            lemma_face_again(mode, f, s[f]);
            assert(s[f] != 5);
        }
    } else if used.len() == 6 {
        assert(u[1] == s[1] && u[2] == s[2] && u[3] == s[3] && u[4] == s[4] && u[5] == s[5] && u[6]
            == s[6]);
    }
}

/// As many faces show a number of times where every face shows the same number of times.
proof fn lemma_same_faces(a: Seq<nat>, b: Seq<nat>, k: nat)
    requires
        forall|f: int| 1 <= f <= 6 ==> #[trigger] a[f] == b[f],
    ensures
        faces_with(a, k) == faces_with(b, k),
{
    assert(a[1] == b[1] && a[2] == b[2] && a[3] == b[3] && a[4] == b[4] && a[5] == b[5] && a[6]
        == b[6]);
}

proof fn lemma_same_special(a: Seq<nat>, b: Seq<nat>, n: nat)
    requires
        faces_with(a, 0) == faces_with(b, 0),
        faces_with(a, 1) == faces_with(b, 1),
        faces_with(a, 2) == faces_with(b, 2),
        faces_with(a, 3) == faces_with(b, 3),
    ensures
        special(a, n) == special(b, n),
{
}

/// What dice are worth depends on how many of each face there are.
#[verifier::rlimit(30)]
proof fn lemma_same_tally(mode: GameMode, a: Seq<nat>, b: Seq<nat>, n: nat)
    requires
        forall|f: int| 1 <= f <= 6 ==> #[trigger] a[f] == b[f],
    ensures
        whole_outcome(mode, a, n) == whole_outcome(mode, b, n),
        total_points(mode, a) == total_points(mode, b),
        tally_sum(a) == tally_sum(b),
{
    lemma_same_faces(a, b, 0);
    lemma_same_faces(a, b, 1);
    lemma_same_faces(a, b, 2);
    lemma_same_faces(a, b, 3);
    lemma_same_special(a, b, n);
    assert(a[1] == b[1] && a[2] == b[2] && a[3] == b[3] && a[4] == b[4] && a[5] == b[5] && a[6]
        == b[6]);
}

proof fn lemma_special_again(dice: Seq<u8>, sel: Seq<usize>)
    requires
        held_score(GameMode::Farkle, dice, sel) is Some,
        whole_outcome(GameMode::Farkle, held_tally(dice, sel), sel.len()) is Some,
        valid_selection(dice, places_by_face(dice, sel)),
    ensures
        ({
            let used = places_by_face(dice, sel);
            &&& used.len() == sel.len()
            &&& whole_outcome(GameMode::Farkle, held_tally(dice, used), used.len())
                == whole_outcome(GameMode::Farkle, held_tally(dice, sel), sel.len())
            &&& places_by_face(dice, used) == used
        }),
{
    let used = places_by_face(dice, sel);
    let s = held_tally(dice, sel);
    let u = held_tally(dice, used);
    assert forall|f: int| 1 <= f <= 6 implies #[trigger] of_face(dice, used, f as u8) == of_face(
        dice,
        sel,
        f as u8,
    ) by {
        lemma_places_of_places(dice, sel, 6, f);
    }
    assert forall|f: int| 1 <= f <= 6 implies #[trigger] u[f] == s[f] by {
        assert(of_face(dice, used, f as u8) == of_face(dice, sel, f as u8));
    }
    lemma_same_tally(GameMode::Farkle, u, s, sel.len());
    lemma_same_places(dice, used, sel, 6);
    lemma_held_tally_sum(dice, sel);
    lemma_held_tally_sum(dice, used);
}

proof fn lemma_five_again(dice: Seq<u8>, sel: Seq<usize>)
    requires
        held_score(GameMode::Bones, dice, sel) is Some,
        five_face(held_tally(dice, sel)) is Some,
        valid_selection(
            dice,
            of_face(dice, sel, five_face(held_tally(dice, sel))->0 as u8),
        ),
    ensures
        ({
            let face = five_face(held_tally(dice, sel))->0;
            let used = of_face(dice, sel, face as u8);
            let u = held_tally(dice, used);
            &&& used.len() == 5
            &&& five_face(u) == Some(face)
            &&& rest_used(GameMode::Bones, u)
            &&& of_face(dice, used, face as u8) == used
        }),
{
    let face = five_face(held_tally(dice, sel))->0;
    let used = of_face(dice, sel, face as u8);
    let u = held_tally(dice, used);
    assert(held_tally(dice, sel)[face] == 5);
    assert forall|k: int| 0 <= k < used.len() implies dice[#[trigger] used[k] as int] == face by {
        lemma_of_face_shows(dice, sel, face as u8, k);
    }
    assert forall|g: int| 1 <= g <= 6 implies #[trigger] u[g] == if g == face {
        5nat
    } else {
        0nat
    } by {
        lemma_uniform_places(dice, used, face as u8, g as u8);
    }
    lemma_uniform_places(dice, used, face as u8, face as u8);
    assert(u[1] == 5 || u[1] == 0);
    assert(u[2] == 5 || u[2] == 0);
    assert(u[3] == 5 || u[3] == 0);
    assert(u[4] == 5 || u[4] == 0);
    assert(u[5] == 5 || u[5] == 0);
    assert(u[6] == 5 || u[6] == 0);
}

/// More places hold no fewer dice of a face.
proof fn lemma_subset_tally(dice: Seq<u8>, a: Seq<usize>, b: Seq<usize>, face: u8)
    requires
        a.no_duplicates(),
        b.no_duplicates(),
        forall|k: int| 0 <= k < a.len() ==> b.contains(#[trigger] a[k]),
    ensures
        of_face(dice, a, face).len() <= of_face(dice, b, face).len(),
{
    let x = of_face(dice, a, face);
    let y = of_face(dice, b, face);
    lemma_of_face(dice, a, face);
    lemma_of_face(dice, b, face);
    x.unique_seq_to_set();
    y.unique_seq_to_set();
    assert forall|i: usize| x.to_set().contains(i) implies y.to_set().contains(i) by {
        assert(x.contains(i));
        assert(a.contains(i));
        let k = choose|k: int| 0 <= k < a.len() && a[k] == i;
        assert(b.contains(a[k]));
        assert(y.contains(i));
    }
    vstd::set_lib::lemma_len_subset(x.to_set(), y.to_set());
}

/// More dice of a face, up to the number of a roll, are worth no less.
proof fn lemma_face_points_rise(mode: GameMode, face: int, c: nat, d: nat)
    requires
        1 <= face <= 6,
        c <= d,
        mode == GameMode::Bones ==> d <= 4,
        mode == GameMode::Farkle ==> d <= 6,
    ensures
        face_points(mode, face, c) <= face_points(mode, face, d),
{
    let v = triple_value(face);
    let w = single_value(face);
    assert(v * 0 == 0 && v * 1 == v && v * 2 == v + v && v * 3 == v + v + v && v * 4 == v + v + v
        + v) by (nonlinear_arith);
    assert(w * 0 == 0 && w * 1 == w && w * 2 == w + w) by (nonlinear_arith);
    assert(0 * w == 0 && 1 * w == w && 2 * w == w + w) by (nonlinear_arith);
    assert(v >= w + w);
    lemma_face_points_few(mode, face, c);
    lemma_face_points_few(mode, face, d);
}

/// The points of up to a roll of dice of one face.
pub proof fn lemma_face_points_few(mode: GameMode, face: int, c: nat)
    requires
        1 <= face <= 6,
        mode == GameMode::Bones ==> c <= 4,
        mode == GameMode::Farkle ==> c <= 6,
    ensures
        ({
            let v = triple_value(face);
            let w = single_value(face);
            face_points(mode, face, c) == if c == 0 {
                0
            } else if c == 1 {
                w
            } else if c == 2 {
                w + w
            } else if c == 3 || (mode == GameMode::Bones && face == 1) {
                v
            } else if c == 4 {
                v + v
            } else if c == 5 {
                v + v + v
            } else {
                v + v + v + v
            }
        }),
{
    let v = triple_value(face);
    let w = single_value(face);
    assert(v * 1 == v && v * 2 == v + v && v * 3 == v + v + v && v * 4 == v + v + v + v)
        by (nonlinear_arith);
    assert(0 * w == 0 && 1 * w == w && 2 * w == w + w) by (nonlinear_arith);
}

/// Selecting more dice of a roll never lowers the score: where some dice score, so do more dice,
/// and they win at once or are worth at least as much.
pub proof fn more_dice_score_no_less(
    mode: GameMode,
    dice: Seq<u8>,
    fewer: Seq<usize>,
    more: Seq<usize>,
)
    requires
        dice.len() <= mode.full_roll(),
        all_faces(dice),
        held_score(mode, dice, fewer) is Some,
        distinct_places(dice.len(), more),
        forall|k: int| 0 <= k < fewer.len() ==> more.contains(#[trigger] fewer[k]),
    ensures
        held_score(mode, dice, more) is Some,
        held_score(mode, dice, more)->0.auto_win || held_score(mode, dice, more)->0.points
            >= held_score(mode, dice, fewer)->0.points,
{
    let a = held_tally(dice, fewer);
    let b = held_tally(dice, more);
    assert(valid_selection(dice, more)) by {
        assert forall|k: int| 0 <= k < more.len() implies #[trigger] more[k] < dice.len()
            && is_face(dice[more[k] as int]) by {}
    }
    assert(more.len() > 0) by {
        assert(more.contains(fewer[0]));
    }
    assert forall|f: int| 1 <= f <= 6 implies #[trigger] a[f] <= b[f] by {
        lemma_subset_tally(dice, fewer, more, f as u8);
    }
    lemma_held_tally_sum(dice, fewer);
    lemma_held_tally_sum(dice, more);
    selection_is_no_longer_than_roll(dice, more);
    lemma_held_fits_short(mode, dice, fewer);
    lemma_held_fits_short(mode, dice, more);
    lemma_tallies_rise(mode, a, b);
}

proof fn lemma_tallies_rise(mode: GameMode, a: Seq<nat>, b: Seq<nat>)
    requires
        forall|f: int| 1 <= f <= 6 ==> #[trigger] a[f] <= b[f],
        tally_sum(b) <= mode.full_roll(),
    ensures
        match (whole_outcome(mode, a, tally_sum(a)), whole_outcome(mode, b, tally_sum(b))) {
            (Some(x), Some(y)) => y.auto_win || x.points <= y.points,
            (Some(x), None) => false,
            (None, Some(y)) => y.auto_win || total_points(mode, a) <= y.points,
            (None, None) => total_points(mode, a) <= total_points(mode, b),
        },
{
    assert(a[1] <= b[1] && a[2] <= b[2] && a[3] <= b[3] && a[4] <= b[4] && a[5] <= b[5] && a[6]
        <= b[6]);
    if tally_sum(a) == tally_sum(b) {
        assert forall|f: int| 1 <= f <= 6 implies #[trigger] a[f] == b[f] by {}
        lemma_same_tally(mode, a, b, tally_sum(a));
    } else if mode == GameMode::Bones {
        lemma_bones_rise(a, b);
    } else {
        lemma_farkle_rise(a, b);
    }
}

proof fn lemma_bones_rise(a: Seq<nat>, b: Seq<nat>)
    requires
        forall|f: int| 1 <= f <= 6 ==> #[trigger] a[f] <= b[f],
        tally_sum(a) < tally_sum(b) <= 5,
    ensures
        five_face(a) is None,
        match five_face(b) {
            Some(face) => face == 1 ==> total_points(GameMode::Bones, a) <= 2000,
            None => total_points(GameMode::Bones, a) <= total_points(GameMode::Bones, b),
        },
{
    let mode = GameMode::Bones;
    assert(a[1] <= b[1] && a[2] <= b[2] && a[3] <= b[3] && a[4] <= b[4] && a[5] <= b[5] && a[6]
        <= b[6]);
    if five_face(b) is None {
        lemma_face_points_rise(mode, 1, a[1], b[1]);
        lemma_face_points_rise(mode, 2, a[2], b[2]);
        lemma_face_points_rise(mode, 3, a[3], b[3]);
        lemma_face_points_rise(mode, 4, a[4], b[4]);
        lemma_face_points_rise(mode, 5, a[5], b[5]);
        lemma_face_points_rise(mode, 6, a[6], b[6]);
    } else if five_face(b) == Some(1int) {
        lemma_face_points_few(mode, 1, a[1]);
        lemma_face_points_few(mode, 2, a[2]);
        lemma_face_points_few(mode, 3, a[3]);
        lemma_face_points_few(mode, 4, a[4]);
        lemma_face_points_few(mode, 5, a[5]);
        lemma_face_points_few(mode, 6, a[6]);
    }
}

proof fn lemma_farkle_rise(a: Seq<nat>, b: Seq<nat>)
    requires
        forall|f: int| 1 <= f <= 6 ==> #[trigger] a[f] <= b[f],
        tally_sum(a) < tally_sum(b) <= 6,
    ensures
        special(a, tally_sum(a)) is None,
        match special(b, tally_sum(b)) {
            Some(points) => total_points(GameMode::Farkle, a) <= points,
            None => total_points(GameMode::Farkle, a) <= total_points(GameMode::Farkle, b),
        },
{
    let mode = GameMode::Farkle;
    assert(a[1] <= b[1] && a[2] <= b[2] && a[3] <= b[3] && a[4] <= b[4] && a[5] <= b[5] && a[6]
        <= b[6]);
    lemma_face_points_rise(mode, 1, a[1], b[1]);
    lemma_face_points_rise(mode, 2, a[2], b[2]);
    lemma_face_points_rise(mode, 3, a[3], b[3]);
    lemma_face_points_rise(mode, 4, a[4], b[4]);
    lemma_face_points_rise(mode, 5, a[5], b[5]);
    lemma_face_points_rise(mode, 6, a[6], b[6]);
    if special(b, tally_sum(b)) is Some {
        lemma_special_worth(b);
    }
}

/// A special combination is worth no less than its dice one by one.
proof fn lemma_special_worth(t: Seq<nat>)
    requires
        special(t, 6) is Some,
    ensures
        total_points(GameMode::Farkle, t) <= special(t, 6)->0,
{
    if straight(t) {
        assert(t[1] == 1 && t[2] == 1 && t[3] == 1 && t[4] == 1 && t[5] == 1 && t[6] == 1);
        lemma_few_points(t);
    } else if three_pairs(t) {
        lemma_only_two_counts(t, 2);
        lemma_few_points(t);
    } else {
        lemma_only_two_counts(t, 3);
        lemma_few_points(t);
    }
}

/// Where six faces show `k` times or not at all, none shows another number of times.
proof fn lemma_only_two_counts(t: Seq<nat>, k: nat)
    requires
        k > 0,
        faces_with(t, k) + faces_with(t, 0) == 6,
    ensures
        t[1] == k || t[1] == 0,
        t[2] == k || t[2] == 0,
        t[3] == k || t[3] == 0,
        t[4] == k || t[4] == 0,
        t[5] == k || t[5] == 0,
        t[6] == k || t[6] == 0,
{
}

/// The points of up to three dice of each face.
proof fn lemma_few_points(t: Seq<nat>)
    requires
        t[1] <= 3,
        t[2] <= 3,
        t[3] <= 3,
        t[4] <= 3,
        t[5] <= 3,
        t[6] <= 3,
    ensures
        face_points(GameMode::Farkle, 1, t[1]) == few_points(1, t[1]),
        face_points(GameMode::Farkle, 2, t[2]) == few_points(2, t[2]),
        face_points(GameMode::Farkle, 3, t[3]) == few_points(3, t[3]),
        face_points(GameMode::Farkle, 4, t[4]) == few_points(4, t[4]),
        face_points(GameMode::Farkle, 5, t[5]) == few_points(5, t[5]),
        face_points(GameMode::Farkle, 6, t[6]) == few_points(6, t[6]),
{
    lemma_face_points_few(GameMode::Farkle, 1, t[1]);
    lemma_face_points_few(GameMode::Farkle, 2, t[2]);
    lemma_face_points_few(GameMode::Farkle, 3, t[3]);
    lemma_face_points_few(GameMode::Farkle, 4, t[4]);
    lemma_face_points_few(GameMode::Farkle, 5, t[5]);
    lemma_face_points_few(GameMode::Farkle, 6, t[6]);
}

/// The points of up to three dice of a face.
spec fn few_points(face: int, c: nat) -> nat {
    if c == 3 {
        triple_value(face)
    } else if c == 2 {
        single_value(face) + single_value(face)
    } else if c == 1 {
        single_value(face)
    } else {
        0
    }
}

// ---------------------------------------------------------------------------
// What points can be
// ---------------------------------------------------------------------------

proof fn lemma_face_points_fifty(mode: GameMode, face: int, c: nat)
    requires
        1 <= face <= 6,
    ensures
        face_points(mode, face, c) % 50 == 0,
{
    let k = set_size(mode, c);
    let v = triple_value(face);
    assert(v % 50 == 0);
    if k > 0 {
        let m = (k - 2) as nat;
        assert(1 <= m <= 4);
        assert((v * m) % 50 == 0) by {
            assert(v * 1 == v && v * 2 == v + v && v * 3 == v + v + v && v * 4 == v + v + v + v)
                by (nonlinear_arith);
        }
    }
    let rest = (c - k) as nat;
    if face == 1 {
        assert((rest * 100) % 50 == 0);
    } else if face == 5 {
        assert((rest * 50) % 50 == 0);
    } else {
        assert(rest * single_value(face) == 0) by (nonlinear_arith)
            requires
                single_value(face) == 0,
        ;
    }
}

proof fn lemma_sum_fifty(a: nat, b: nat, c: nat, d: nat, e: nat, f: nat)
    requires
        a % 50 == 0,
        b % 50 == 0,
        c % 50 == 0,
        d % 50 == 0,
        e % 50 == 0,
        f % 50 == 0,
    ensures
        in_fifties(a + b + c + d + e + f),
{
    reveal(in_fifties);
}

/// A multiple of fifty.
#[verifier::opaque]
pub open spec fn in_fifties(n: nat) -> bool {
    n % 50 == 0
}

#[verifier::spinoff_prover]
proof fn lemma_total_fifty(mode: GameMode, t: Seq<nat>)
    ensures
        in_fifties(total_points(mode, t)),
{
    lemma_face_points_fifty(mode, 1, t[1]);
    lemma_face_points_fifty(mode, 2, t[2]);
    lemma_face_points_fifty(mode, 3, t[3]);
    lemma_face_points_fifty(mode, 4, t[4]);
    lemma_face_points_fifty(mode, 5, t[5]);
    lemma_face_points_fifty(mode, 6, t[6]);
    lemma_sum_fifty(
        face_points(mode, 1, t[1]),
        face_points(mode, 2, t[2]),
        face_points(mode, 3, t[3]),
        face_points(mode, 4, t[4]),
        face_points(mode, 5, t[5]),
        face_points(mode, 6, t[6]),
    );
}

/// Points come in multiples of fifty.
pub proof fn points_are_multiples_of_fifty(mode: GameMode, dice: Seq<u8>, sel: Seq<usize>)
    requires
        held_score(mode, dice, sel) is Some,
        held_fits(mode, dice, sel),
    ensures
        in_fifties(held_score(mode, dice, sel)->0.points as nat),
        held_score(mode, dice, sel)->0.points > 0 || held_score(mode, dice, sel)->0.auto_win,
{
    assert(in_fifties(0) && in_fifties(1500) && in_fifties(2000) && in_fifties(2500)) by {
        reveal(in_fifties);
    }
    lemma_total_fifty(mode, held_tally(dice, sel));
}

/// No selection holds more dice than there are.
pub proof fn selection_is_no_longer_than_roll(dice: Seq<u8>, sel: Seq<usize>)
    requires
        valid_selection(dice, sel),
    ensures
        sel.len() <= dice.len(),
{
    lemma_distinct_places_len(dice.len(), sel);
}

/// A held score is worth no more than a thousand points for each selected die.
pub proof fn held_points_are_bounded(mode: GameMode, dice: Seq<u8>, sel: Seq<usize>)
    requires
        held_score(mode, dice, sel) is Some,
        held_fits(mode, dice, sel),
    ensures
        held_score(mode, dice, sel)->0.points <= 1000 * sel.len(),
        sel.len() <= dice.len(),
{
    let t = held_tally(dice, sel);
    lemma_held_tally_sum(dice, sel);
    lemma_total_bound(mode, t);
    lemma_held_tally_bound(dice, sel, 0);
}

/// Five of a kind wins Bones at once, unless the face is a 1, and nothing wins Farkle at once.
pub proof fn automatic_win_is_five_of_a_kind(mode: GameMode, dice: Seq<u8>, sel: Seq<usize>)
    requires
        held_score(mode, dice, sel) is Some,
    ensures
        held_score(mode, dice, sel)->0.auto_win <==> mode == GameMode::Bones && held_tally(
            dice,
            sel,
        )[1] != 5 && exists|f: int| 2 <= f <= 6 && #[trigger] held_tally(dice, sel)[f] == 5,
{
    let t = held_tally(dice, sel);
    if mode == GameMode::Bones && five_face(t) is Some {
        assert(t[five_face(t)->0] == 5);
    }
}

} // verus!
