use bones::protocol::GameMode;
use bones::scoring::{
    can_keep_die, has_any_score, has_playable_keep, score_dice, score_held, score_selection,
};

#[test]
fn singles() {
    assert_eq!(score_dice(GameMode::Bones, &[1]).unwrap().points, 100);
    assert_eq!(score_dice(GameMode::Bones, &[5]).unwrap().points, 50);
    assert_eq!(score_dice(GameMode::Bones, &[1, 5]).unwrap().points, 150);
    assert!(score_dice(GameMode::Bones, &[2]).is_none());
}

#[test]
fn three_ones() {
    assert_eq!(score_dice(GameMode::Bones, &[1, 1, 1]).unwrap().points, 1000);
    assert_eq!(score_dice(GameMode::Bones, &[1, 1, 1, 1]).unwrap().points, 1000);
    assert_eq!(score_dice(GameMode::Bones, &[1, 1, 1, 1, 5]).unwrap().points, 1050);
}

#[test]
fn five_ones() {
    let s = score_dice(GameMode::Bones, &[1, 1, 1, 1, 1]).unwrap();
    assert_eq!(s.points, 2000);
    assert!(!s.auto_win);
}

#[test]
fn n_of_a_kind() {
    assert_eq!(score_dice(GameMode::Bones, &[2, 2, 2]).unwrap().points, 200);
    assert_eq!(score_dice(GameMode::Bones, &[3, 3, 3, 3]).unwrap().points, 600);
    assert_eq!(score_dice(GameMode::Bones, &[4, 4, 4, 1]).unwrap().points, 500);
}

#[test]
fn five_of_a_kind_wins_bones() {
    let s = score_dice(GameMode::Bones, &[6, 6, 6, 6, 6]).unwrap();
    assert!(s.auto_win);
}

#[test]
fn five_of_a_kind_scores_farkle() {
    // 5× 6s = face × 300 = 1800
    let s = score_dice(GameMode::Farkle, &[6, 6, 6, 6, 6]).unwrap();
    assert!(!s.auto_win);
    assert_eq!(s.points, 1800);
}

#[test]
fn six_of_a_kind_farkle() {
    // 6× 2s = face × 400 = 800
    let s = score_dice(GameMode::Farkle, &[2, 2, 2, 2, 2, 2]).unwrap();
    assert_eq!(s.points, 800);
    assert!(!s.auto_win);
}

#[test]
fn farkle_ones_scale_from_three_of_a_kind() {
    assert_eq!(score_dice(GameMode::Farkle, &[1, 1, 1]).unwrap().points, 1000);
    assert_eq!(score_dice(GameMode::Farkle, &[1, 1, 1, 1]).unwrap().points, 2000);
    assert_eq!(score_dice(GameMode::Farkle, &[1, 1, 1, 1, 1]).unwrap().points, 3000);
    assert_eq!(score_dice(GameMode::Farkle, &[1, 1, 1, 1, 1, 1]).unwrap().points, 4000);
}

#[test]
fn three_pairs() {
    let s = score_dice(GameMode::Farkle, &[2, 2, 3, 3, 4, 4]).unwrap();
    assert_eq!(s.points, 1500);
    assert!(score_dice(GameMode::Bones, &[2, 2, 3, 3, 4]).is_none());
}

#[test]
fn straight() {
    let s = score_dice(GameMode::Farkle, &[1, 2, 3, 4, 5, 6]).unwrap();
    assert_eq!(s.points, 1500);
}

#[test]
fn two_triplets() {
    let s = score_dice(GameMode::Farkle, &[2, 2, 2, 5, 5, 5]).unwrap();
    assert_eq!(s.points, 2500);
}

#[test]
fn bust_detection() {
    assert!(!has_any_score(GameMode::Bones, &[2, 3, 4, 6, 6]));
    assert!(has_any_score(GameMode::Bones, &[2, 3, 4, 6, 5]));
    assert!(has_any_score(GameMode::Bones, &[2, 2, 2, 3, 4]));
    assert!(has_any_score(GameMode::Farkle, &[2, 2, 3, 3, 4, 4]));
    assert!(has_any_score(GameMode::Farkle, &[1, 2, 3, 4, 5, 6]));
}

#[test]
fn selection_rejects_dupes_and_dead() {
    assert!(score_selection(GameMode::Bones, &[1, 2, 5], &[0, 2]).is_some());
    assert!(score_selection(GameMode::Bones, &[1, 2, 5], &[0, 1]).is_none());
    assert!(score_selection(GameMode::Bones, &[1, 2, 5], &[0, 0]).is_none());
}

#[test]
fn keepable_dice_are_ones_fives_or_n_of_a_kind() {
    let dice = [1, 6, 6, 6, 2];
    assert!(can_keep_die(GameMode::Bones, &dice, 0));
    assert!(can_keep_die(GameMode::Bones, &dice, 1));
    assert!(can_keep_die(GameMode::Bones, &dice, 2));
    assert!(can_keep_die(GameMode::Bones, &dice, 3));
    assert!(!can_keep_die(GameMode::Bones, &dice, 4));
    assert!(!can_keep_die(GameMode::Bones, &[2, 3, 4, 6, 6], 0));
    assert!(can_keep_die(GameMode::Bones, &[5, 2, 3, 4, 6], 0));
}

#[test]
fn keepable_farkle_specials() {
    let pairs = [2, 2, 3, 3, 4, 4];
    for i in 0..6 {
        assert!(can_keep_die(GameMode::Farkle, &pairs, i));
    }
    let straight = [1, 2, 3, 4, 5, 6];
    for i in 0..6 {
        assert!(can_keep_die(GameMode::Farkle, &straight, i));
    }
}

#[test]
fn held_ignores_incomplete_and_dead() {
    assert!(score_held(GameMode::Bones, &[6, 6, 2, 3, 4], &[0]).is_none());
    assert!(score_held(GameMode::Bones, &[6, 6, 2, 3, 4], &[0, 1]).is_none());
    assert_eq!(
        score_held(GameMode::Bones, &[6, 6, 6, 2, 3], &[0, 1, 2]).unwrap().points,
        600
    );
    assert_eq!(
        score_held(GameMode::Bones, &[6, 6, 6, 2, 3], &[0, 1, 2, 3]).unwrap().points,
        600
    );
    assert_eq!(
        score_held(GameMode::Bones, &[6, 6, 6, 2, 3], &[0, 1, 2, 3]).unwrap().used.len(),
        3
    );
    assert_eq!(score_held(GameMode::Bones, &[1, 6, 2], &[0, 1]).unwrap().points, 100);
    assert_eq!(score_held(GameMode::Bones, &[1, 1, 1, 6], &[0, 1, 2]).unwrap().points, 1000);
}

#[test]
fn held_farkle_three_pairs() {
    let dice = [2, 2, 3, 3, 4, 4];
    let held = score_held(GameMode::Farkle, &dice, &[0, 1, 2, 3, 4, 5]).unwrap();
    assert_eq!(held.points, 1500);
    assert_eq!(held.used.len(), 6);
}

#[test]
fn playable_keep_respects_win_cap() {
    let dice = [2, 4, 5, 3, 3, 3];
    // 9,800 + 300 from three 3s would overshoot, but the lone 5 still fits.
    assert!(has_playable_keep(GameMode::Farkle, &dice, 9_800, 0, true, 10_000));
    // Only three 3s score, and every keep overshoots.
    assert!(!has_playable_keep(GameMode::Farkle, &[2, 4, 3, 3, 3, 6], 9_800, 0, true, 10_000));
    // Off the board, any scoring keep is playable.
    assert!(has_playable_keep(GameMode::Farkle, &[2, 4, 3, 3, 3, 6], 0, 0, false, 10_000));
}
