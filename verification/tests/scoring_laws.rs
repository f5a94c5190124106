use bones::protocol::GameMode;
use bones::scoring::{
    can_keep_die, has_any_score, has_playable_keep, score_dice, score_held, score_selection,
    wins_at_once,
};

/// Every roll of `n` dice, one in `step` of them.
fn rolls(n: u32, step: usize) -> Vec<Vec<u8>> {
    (0..6usize.pow(n))
        .step_by(step)
        .map(|k| (0..n).map(|i| (k / 6usize.pow(i) % 6) as u8 + 1).collect())
        .collect()
}

/// Every choice of places in a roll.
fn choices(n: usize) -> Vec<Vec<usize>> {
    (0..1usize << n)
        .map(|mask| (0..n).filter(|i| mask >> i & 1 == 1).collect())
        .collect()
}

fn check_roll(mode: GameMode, dice: &[u8], choices: &[Vec<usize>]) {
    let mut some = false;
    for sel in choices {
        let Some(held) = score_held(mode, dice, sel) else {
            continue;
        };
        some = true;
        assert!(held.points % 50 == 0 && held.points as usize <= 1000 * sel.len());
        assert!(held.used.iter().all(|i| sel.contains(i)));
        assert!(held.used.iter().all(|i| can_keep_die(mode, dice, *i)));
        if held.auto_win {
            assert_eq!(mode, GameMode::Bones);
            assert!(dice.iter().all(|d| *d == dice[0]) && dice[0] != 1);
        }
        let clean = score_held(mode, dice, &held.used).unwrap();
        assert_eq!(clean.points, held.points);
        assert_eq!((clean.auto_win, &clean.used), (held.auto_win, &held.used));
        let hand = score_selection(mode, dice, &held.used).unwrap();
        assert_eq!((hand.points, hand.auto_win), (held.points, held.auto_win));
        for extra in (0..dice.len()).filter(|i| !sel.contains(i)) {
            let mut more = sel.clone();
            more.push(extra);
            let next = score_held(mode, dice, &more).unwrap();
            assert!(next.auto_win || next.points >= held.points);
        }
        let turned: Vec<usize> = sel.iter().rev().copied().collect();
        let other = score_held(mode, dice, &turned).unwrap();
        assert_eq!((other.points, other.auto_win), (held.points, held.auto_win));
    }
    assert_eq!(some, has_any_score(mode, dice), "{dice:?}");
    assert_eq!(some, has_playable_keep(mode, dice, 0, 0, false, 10_000));
}

#[test]
fn bones_rolls_obey_the_laws() {
    let choices = choices(5);
    for dice in rolls(5, 1) {
        check_roll(GameMode::Bones, &dice, &choices);
    }
}

#[test]
fn farkle_rolls_obey_the_laws() {
    let choices = choices(6);
    for dice in rolls(6, 17) {
        check_roll(GameMode::Farkle, &dice, &choices);
    }
}

#[test]
fn points_of_the_combinations() {
    let bones = |dice: &[u8]| score_dice(GameMode::Bones, dice).map(|o| (o.points, o.auto_win));
    let farkle = |dice: &[u8]| score_dice(GameMode::Farkle, dice).map(|o| (o.points, o.auto_win));
    assert_eq!(bones(&[1]), Some((100, false)));
    assert_eq!(bones(&[5]), Some((50, false)));
    assert_eq!(bones(&[1, 1, 1]), Some((1000, false)));
    assert_eq!(bones(&[1, 1, 1, 1, 1]), Some((2000, false)));
    assert_eq!(bones(&[4, 4, 4]), Some((400, false)));
    assert_eq!(bones(&[4, 4, 4, 4]), Some((800, false)));
    assert_eq!(bones(&[4, 4, 4, 5]), Some((450, false)));
    assert_eq!(bones(&[2]), None);
    assert_eq!(bones(&[]), None);
    assert!(bones(&[4, 4, 4, 4, 4]).unwrap().1);
    assert_eq!(farkle(&[4, 4, 4, 4, 4]), Some((1200, false)));
    assert_eq!(farkle(&[4, 4, 4, 4, 4, 4]), Some((1600, false)));
    assert_eq!(farkle(&[1, 1, 1, 1, 1]), Some((3000, false)));
    assert_eq!(farkle(&[1, 1, 1, 1, 1, 1]), Some((4000, false)));
    assert_eq!(farkle(&[6, 5, 4, 3, 2, 1]), Some((1500, false)));
    assert_eq!(farkle(&[2, 2, 3, 3, 6, 6]), Some((1500, false)));
    assert_eq!(farkle(&[2, 2, 2, 3, 3, 3]), Some((2500, false)));
}

#[test]
fn selections_name_each_die_once() {
    let dice = [1, 5, 2, 2, 2];
    assert!(score_held(GameMode::Bones, &dice, &[0, 0]).is_none());
    assert!(score_held(GameMode::Bones, &dice, &[5]).is_none());
    assert!(score_held(GameMode::Bones, &dice, &[]).is_none());
    assert_eq!(
        score_selection(GameMode::Bones, &dice, &[0, 1]).unwrap().points,
        150
    );
    assert!(score_selection(GameMode::Bones, &dice, &[0, 0]).is_none());
    assert!(score_selection(GameMode::Bones, &dice, &[2]).is_none());
}

#[test]
fn players_on_the_board_may_not_go_over() {
    let dice = [1, 2, 3];
    assert!(has_playable_keep(GameMode::Bones, &dice, 9_900, 0, true, 10_000));
    assert!(!has_playable_keep(GameMode::Bones, &dice, 9_900, 50, true, 10_000));
    assert!(has_playable_keep(GameMode::Bones, &dice, 9_950, 0, false, 10_000));
}

#[test]
fn five_of_a_kind_needs_the_other_dice_used() {
    let bones = |dice: &[u8]| score_dice(GameMode::Bones, dice).map(|o| (o.points, o.auto_win));
    assert_eq!(bones(&[2, 2, 2, 2, 2, 3]), None);
    assert_eq!(bones(&[1, 1, 1, 1, 1, 3]), None);
    assert_eq!(bones(&[2, 2, 2, 2, 2, 1]), Some((0, true)));
    assert_eq!(bones(&[2, 2, 2, 2, 2, 3, 3, 3]), Some((0, true)));
    assert!(wins_at_once(GameMode::Bones, &[2, 2, 2, 2, 2]));
    assert!(!wins_at_once(GameMode::Bones, &[2, 2, 2, 2, 2, 3]));
    assert!(!wins_at_once(GameMode::Bones, &[1, 1, 1, 1, 1]));
    assert!(!wins_at_once(GameMode::Farkle, &[2, 2, 2, 2, 2]));
    assert!(!wins_at_once(GameMode::Bones, &[]));
    let held = score_held(GameMode::Bones, &[2, 2, 2, 2, 2, 3], &[0, 1, 2, 3, 4, 5]).unwrap();
    assert!(held.auto_win);
    assert_eq!(held.used, vec![0, 1, 2, 3, 4]);
}

#[test]
fn playable_keeps_are_found_among_many_dice() {
    let play = |mode, dice: &[u8], score, on_board| {
        has_playable_keep(mode, dice, score, 0, on_board, 10_000)
    };
    assert!(play(GameMode::Farkle, &[1; 17], 0, false));
    assert!(play(GameMode::Farkle, &[1; 17], 9_900, true));
    assert!(!play(GameMode::Farkle, &[1; 17], 9_950, true));
    assert!(play(GameMode::Bones, &[2; 200], 10_000, true));
    assert!(!play(GameMode::Farkle, &[2; 200], 9_850, true));
    assert!(play(GameMode::Farkle, &[2; 200], 9_800, true));
    assert!(play(GameMode::Farkle, &[2, 2, 3, 3, 6, 6, 4], 8_500, true));
    assert!(!play(GameMode::Farkle, &[2, 2, 3, 3, 6, 6, 4], 8_550, true));
    assert!(!play(GameMode::Farkle, &[2, 2, 3, 3, 6, 4], 0, false));
    assert!(!play(GameMode::Bones, &[2, 2, 3, 3, 6, 6], 0, false));
    assert!(play(GameMode::Bones, &[5, 0, 9], 9_950, true));
    assert!(!play(GameMode::Bones, &[], 0, false));
}

/// The answer by trying every selection.
fn tried(mode: GameMode, dice: &[u8], score: u32, choices: &[Vec<usize>]) -> bool {
    choices.iter().any(|sel| {
        score_held(mode, dice, sel).is_some_and(|h| h.auto_win || score + h.points <= 10_000)
    })
}

#[test]
fn playable_keeps_are_those_that_a_search_finds() {
    let five = choices(5);
    for dice in rolls(5, 7) {
        for score in [9_000, 9_400, 9_500, 9_850, 9_900, 9_950, 10_000] {
            assert_eq!(
                has_playable_keep(GameMode::Bones, &dice, score, 0, true, 10_000),
                tried(GameMode::Bones, &dice, score, &five)
            );
        }
    }
    let six = choices(6);
    for dice in rolls(6, 97) {
        for score in [8_500, 9_400, 9_500, 9_850, 9_900, 9_950, 10_000] {
            assert_eq!(
                has_playable_keep(GameMode::Farkle, &dice, score, 0, true, 10_000),
                tried(GameMode::Farkle, &dice, score, &six)
            );
        }
    }
}
