use bones::clock::now_ms;
use bones::game::{ForfeitCause, PendingBank, Player, Room};
use bones::ids::Uuid;
use bones::protocol::{GameMode, GamePhase, invite_path};
use bones::text::format_duration_secs;

fn player(name: &str) -> Player {
    Player {
        id: Uuid::new_v4(),
        seat_key: Uuid::new_v4(),
        name: name.into(),
        score: 0,
        on_board: false,
        connected: true,
        forfeited: false,
    }
}

fn room_with_two() -> Room {
    let mut room = Room::new("TEST1".into(), player("A"));
    room.players.push(player("B"));
    room.start().unwrap();
    room
}

#[test]
fn needs_two_to_start() {
    let mut room = Room::new("X".into(), player("Solo"));
    assert!(room.start().is_err());
}

#[test]
fn board_threshold_enforced() {
    let mut room = room_with_two();
    let id = room.players[0].id;
    room.dice = vec![5, 2, 3, 4, 6];
    room.awaiting_keep = true;
    room.keep(id, vec![0]).unwrap();
    assert_eq!(room.turn_points, 50);
    let err = room.bank(id, vec![]).unwrap_err();
    assert!(err.contains("1,000") || err.contains("1000"));
}

#[test]
fn host_can_switch_to_farkle() {
    let mut room = Room::new("FARK".into(), player("A"));
    room.players.push(player("B"));
    room.update_settings(GameMode::Farkle, Some(60), 500)
        .unwrap();
    assert_eq!(room.mode, GameMode::Farkle);
    assert_eq!(room.board_threshold, 500);
    assert_eq!(room.dice_count(), 6);
    room.start().unwrap();
    let id = room.players[0].id;
    room.dice = vec![5, 2, 3, 4, 6, 6];
    room.awaiting_keep = true;
    room.keep(id, vec![0]).unwrap();
    assert_eq!(room.turn_points, 50);
    let err = room.bank(id, vec![]).unwrap_err();
    assert!(err.contains("500"));
    room.dice = vec![1, 1, 1, 2, 3, 4];
    room.awaiting_keep = true;
    room.turn_points = 0;
    room.bank(id, vec![0, 1, 2]).unwrap();
    assert_eq!(room.players[0].score, 1000);
    assert!(room.players[0].on_board);
}

#[test]
fn settings_locked_after_start() {
    let mut room = room_with_two();
    assert!(
        room.update_settings(GameMode::Farkle, Some(60), 500)
            .is_err()
    );
}

#[test]
fn idle_forfeit_defaults_off() {
    let mut room = Room::new("NEW".into(), player("A"));
    assert!(room.idle_timeout_secs.is_none());
    room.players.push(player("B"));
    room.start().unwrap();
    assert!(room.action_deadline_ms.is_none());
    assert!(!room.check_timeout(now_ms().saturating_add(120_000)));
}

#[test]
fn custom_board_threshold_enforced() {
    let mut room = Room::new("CUST".into(), player("A"));
    room.players.push(player("B"));
    room.update_settings(GameMode::Bones, None, 2_000).unwrap();
    assert_eq!(room.board_threshold, 2_000);
    room.start().unwrap();
    let id = room.players[0].id;
    room.dice = vec![1, 1, 1, 2, 3];
    room.awaiting_keep = true;
    let err = room.bank(id, vec![0, 1, 2]).unwrap_err();
    assert!(err.contains("2,000") || err.contains("2000"));
    room.dice = vec![1, 1, 1, 1, 1];
    room.awaiting_keep = true;
    room.turn_points = 0;
    room.bank(id, vec![0, 1, 2, 3, 4]).unwrap();
    assert_eq!(room.players[0].score, 2_000);
    assert!(room.players[0].on_board);
}

#[test]
fn invalid_board_threshold_rejected() {
    let mut room = Room::new("BAD".into(), player("A"));
    assert!(room.update_settings(GameMode::Bones, None, 10_001).is_err());
    assert_eq!(room.board_threshold, 1_000);
    room.update_settings(GameMode::Bones, None, 750).unwrap();
    assert_eq!(room.board_threshold, 750);
}

#[test]
fn switching_mode_resets_board_threshold_to_game_default() {
    let mut room = Room::new("SNAP".into(), player("A"));
    room.update_settings(GameMode::Bones, None, 2_000).unwrap();
    assert_eq!(room.board_threshold, 2_000);
    room.update_settings(GameMode::Farkle, None, 2_000).unwrap();
    assert_eq!(room.mode, GameMode::Farkle);
    assert_eq!(room.board_threshold, 500);
    room.update_settings(GameMode::Farkle, None, 750).unwrap();
    assert_eq!(room.board_threshold, 750);
    room.update_settings(GameMode::Bones, None, 750).unwrap();
    assert_eq!(room.mode, GameMode::Bones);
    assert_eq!(room.board_threshold, 1_000);
}

#[test]
fn idle_forfeit_can_be_disabled() {
    let mut room = Room::new("OFF".into(), player("A"));
    room.players.push(player("B"));
    room.update_settings(GameMode::Bones, None, 1_000).unwrap();
    assert!(room.idle_timeout_secs.is_none());
    room.start().unwrap();
    assert!(room.action_deadline_ms.is_none());
    assert!(!room.check_timeout(now_ms().saturating_add(120_000)));
    assert!(!room.players[0].forfeited);
}

#[test]
fn idle_forfeit_allows_longer_lobby_options() {
    let mut room = Room::new("LONG".into(), player("A"));
    for secs in [600, 900, 1_200, 1_800] {
        room.update_settings(GameMode::Bones, Some(secs), 1_000)
            .unwrap();
        assert_eq!(room.idle_timeout_secs, Some(secs));
    }
    assert!(
        room.update_settings(GameMode::Bones, Some(7 * 60), 1_000)
            .is_err()
    );
    assert_eq!(format_duration_secs(1_800), "30 minutes");
}

#[test]
fn farkle_three_pairs_does_not_bust() {
    let mut room = Room::new("PAIR".into(), player("A"));
    room.players.push(player("B"));
    room.update_settings(GameMode::Farkle, Some(60), 500)
        .unwrap();
    room.start().unwrap();
    let id = room.players[0].id;
    room.dice = vec![2, 2, 3, 3, 4, 4];
    room.awaiting_keep = true;
    room.bank(id, vec![0, 1, 2, 3, 4, 5]).unwrap();
    assert_eq!(room.players[0].score, 1500);
    assert!(room.players[0].on_board);
}

#[test]
fn reclaim_keeps_host() {
    let seat = Uuid::new_v4();
    let old_id = Uuid::new_v4();
    let mut room = Room::new(
        "R".into(),
        Player {
            id: old_id,
            seat_key: seat,
            name: "Host".into(),
            score: 500,
            on_board: true,
            connected: false,
            forfeited: false,
        },
    );
    room.players.push(player("Guest"));
    let new_id = Uuid::new_v4();
    room.reclaim_seat(seat, new_id, "Host".into()).unwrap();
    assert_eq!(room.host_id, new_id);
    assert_eq!(room.players[0].id, new_id);
    assert!(room.players[0].connected);
    assert_eq!(room.players[0].score, 500);
    assert_eq!(room.view_for(new_id).invite_path, "/g/R");
}

#[test]
fn bank_keeps_then_banks() {
    let mut room = room_with_two();
    let id = room.players[0].id;
    room.dice = vec![1, 1, 1, 2, 3];
    room.awaiting_keep = true;
    room.bank(id, vec![0, 1, 2]).unwrap();
    assert_eq!(room.players[0].score, 1000);
    assert!(room.players[0].on_board);
    assert_eq!(room.current_player().unwrap().id, room.players[1].id);
}

#[test]
fn bust_keeps_dice_on_the_table() {
    let mut room = room_with_two();
    let b = room.players[1].id;
    room.dice = vec![2, 3, 4, 6, 6];
    room.awaiting_keep = true;
    room.status_message = format!("{} busted.", room.players[0].name);
    room.turn_points = 0;
    room.begin_next_turn(true);
    assert_eq!(room.dice, vec![2, 3, 4, 6, 6]);
    assert!(room.bust_showing);
    assert_eq!(room.current_player().unwrap().id, b);
    assert!(!room.awaiting_keep);
    assert_eq!(room.dice_to_roll(), 5);
    let view = room.view_for(b);
    assert!(view.bust);
    assert_eq!(view.dice, vec![2, 3, 4, 6, 6]);
    assert_eq!(view.message, format!("{} busted.", room.players[0].name));
}

#[test]
fn invite_path_includes_code() {
    let room = Room::new("ABC12".into(), player("Host"));
    assert_eq!(room.view_for(room.host_id).invite_path, "/g/ABC12");
    assert_eq!(room.view_for(room.host_id).code, "ABC12");
}

#[test]
fn host_can_end_game_early() {
    let mut room = room_with_two();
    let host = room.host_id;
    let guest = room.players[1].id;
    room.players[0].score = 2400;
    room.players[0].on_board = true;
    room.players[1].score = 1100;
    room.players[1].on_board = true;

    assert!(room.end_game(guest).is_err());
    room.end_game(host).unwrap();
    assert_eq!(room.phase, GamePhase::Finished);
    assert_eq!(room.winner_id, Some(host));
    assert!(room.status_message.contains("wins with 2,400"));
}

#[test]
fn end_game_tie_has_no_winner() {
    let mut room = room_with_two();
    room.players[0].score = 1500;
    room.players[0].on_board = true;
    room.players[1].score = 1500;
    room.players[1].on_board = true;
    room.end_game(room.host_id).unwrap();
    assert_eq!(room.phase, GamePhase::Finished);
    assert_eq!(room.winner_id, None);
    assert!(room.status_message.contains("No winner"));
}

#[test]
fn end_game_applies_pending_bank() {
    let mut room = room_with_two();
    let host = room.host_id;
    room.players[0].score = 1000;
    room.players[0].on_board = true;
    room.players[1].score = 2000;
    room.players[1].on_board = true;
    room.pending_bank = Some(PendingBank {
        player_id: host,
        points: 400,
        leftover: 2,
    });
    room.phase = GamePhase::StealWindow;
    room.end_game(host).unwrap();
    assert_eq!(room.players[0].score, 1400);
    assert_eq!(room.winner_id, Some(room.players[1].id));
    assert!(room.pending_bank.is_none());
}

#[test]
fn cannot_end_game_in_lobby() {
    let mut room = Room::new("LOBBY".into(), player("Host"));
    room.players.push(player("Guest"));
    assert!(room.end_game(room.host_id).is_err());
}

fn room_with_three() -> Room {
    let mut room = Room::new("TEST3".into(), player("A"));
    room.players.push(player("B"));
    room.players.push(player("C"));
    room.start().unwrap();
    room
}

#[test]
fn player_can_forfeit_and_opponent_wins() {
    let mut room = room_with_two();
    let host = room.host_id;
    let guest = room.players[1].id;
    room.players[1].score = 800;
    room.forfeit(host, ForfeitCause::Manual).unwrap();
    assert!(room.players[0].forfeited);
    assert_eq!(room.phase, GamePhase::Finished);
    assert_eq!(room.winner_id, Some(guest));
    assert_eq!(room.host_id, guest);
    assert!(room.status_message.contains("forfeited"));
    assert!(room.action_deadline_ms.is_none());
}

#[test]
fn cannot_forfeit_in_lobby() {
    let mut room = Room::new("LOBBY".into(), player("Host"));
    room.players.push(player("Guest"));
    assert!(room.forfeit(room.host_id, ForfeitCause::Manual).is_err());
}

#[test]
fn forfeit_skips_remaining_turns() {
    let mut room = room_with_three();
    let a = room.players[0].id;
    let b = room.players[1].id;
    let c = room.players[2].id;
    room.forfeit(b, ForfeitCause::Manual).unwrap();
    assert_eq!(room.phase, GamePhase::Playing);
    assert_eq!(room.current_player().unwrap().id, a);
    room.players[0].on_board = true;
    room.turn_points = 100;
    room.awaiting_keep = false;
    room.bank(a, vec![]).unwrap();
    assert_eq!(room.phase, GamePhase::Playing);
    assert_eq!(room.current_player().unwrap().id, c);
}

#[test]
fn host_forfeit_transfers_host() {
    let mut room = room_with_three();
    let a = room.host_id;
    let b = room.players[1].id;
    room.forfeit(a, ForfeitCause::Manual).unwrap();
    assert_eq!(room.host_id, b);
    assert_eq!(room.phase, GamePhase::Playing);
    assert_eq!(room.current_player().unwrap().id, b);
    assert!(room.players[0].forfeited);
}

#[test]
fn timeout_forfeits_acting_player() {
    let mut room = room_with_two();
    room.idle_timeout_secs = Some(60);
    let guest = room.players[1].id;
    room.action_deadline_ms = Some(now_ms().saturating_sub(1));
    assert!(room.check_timeout(now_ms()));
    assert!(room.players[0].forfeited);
    assert_eq!(room.winner_id, Some(guest));
    assert!(room.status_message.contains("1 minute"));
}

#[test]
fn playing_resets_the_action_deadline() {
    let mut room = room_with_two();
    room.idle_timeout_secs = Some(60);
    let id = room.players[0].id;
    room.dice = vec![1, 2, 3, 4, 6];
    room.awaiting_keep = true;
    room.keep(id, vec![0]).unwrap();
    let deadline = room.action_deadline_ms.expect("deadline");
    let now = now_ms();
    let timeout_ms = room.idle_timeout_secs.unwrap() * 1000;
    assert!(deadline >= now + timeout_ms - 2_000);
    assert!(deadline <= now + timeout_ms + 2_000);
}

#[test]
fn steal_timeout_applies_pending_bank() {
    let mut room = room_with_three();
    let a = room.players[0].id;
    let b = room.players[1].id;
    room.players[0].score = 1000;
    room.players[0].on_board = true;
    room.players[1].on_board = true;
    room.pending_bank = Some(PendingBank {
        player_id: a,
        points: 350,
        leftover: 2,
    });
    room.phase = GamePhase::StealWindow;
    room.action_deadline_ms = Some(now_ms().saturating_sub(1));
    assert_eq!(room.acting_player_id(), Some(b));
    assert!(room.check_timeout(now_ms()));
    assert!(room.players[1].forfeited);
    assert_eq!(room.players[0].score, 1350);
    assert_eq!(room.phase, GamePhase::Playing);
    assert_eq!(room.current_player().unwrap().id, room.players[2].id);
}

#[test]
fn select_is_visible_to_other_players() {
    let mut room = room_with_two();
    let a = room.players[0].id;
    let b = room.players[1].id;
    room.dice = vec![1, 5, 2, 3, 4];
    room.awaiting_keep = true;
    room.select(a, vec![0, 1]).unwrap();
    assert_eq!(room.selected, vec![0, 1]);
    assert_eq!(room.view_for(b).selected, vec![0, 1]);
    assert!(room.select(b, vec![2]).is_err());
    room.select(a, vec![]).unwrap();
    assert!(room.view_for(b).selected.is_empty());
    room.select(a, vec![0, 2]).unwrap();
    assert_eq!(room.selected, vec![0]);
}

#[test]
fn bank_overshoot_lets_you_unmark_and_win() {
    let mut room = room_with_two();
    let id = room.players[0].id;
    room.players[0].score = 9_900;
    room.players[0].on_board = true;
    room.dice = vec![1, 1, 5];
    room.awaiting_keep = true;
    let err = room.bank(id, vec![0, 1, 2]).unwrap_err();
    assert!(err.contains("exactly") || err.contains("10,000") || err.contains("10000"));
    assert!(room.awaiting_keep);
    assert_eq!(room.turn_points, 0);
    assert_eq!(room.players[0].score, 9_900);
    room.select(id, vec![0]).unwrap();
    assert_eq!(room.selected, vec![0]);
    room.bank(id, vec![0]).unwrap();
    assert_eq!(room.phase, GamePhase::Finished);
    assert_eq!(room.winner_id, Some(id));
    assert_eq!(room.players[0].score, 10_000);
}

#[test]
fn keep_rejects_selection_that_would_go_over() {
    let mut room = room_with_two();
    let id = room.players[0].id;
    room.players[0].score = 9_800;
    room.players[0].on_board = true;
    room.mode = GameMode::Farkle;
    room.dice = vec![2, 4, 5, 3, 3, 3];
    room.awaiting_keep = true;
    let err = room.keep(id, vec![3, 4, 5]).unwrap_err();
    assert!(err.contains("exactly") || err.contains("10,000"));
    assert_eq!(room.turn_points, 0);
    assert!(room.awaiting_keep);
    // Lone 5 still fits under the cap.
    room.keep(id, vec![2]).unwrap();
    assert_eq!(room.turn_points, 50);
}

#[test]
fn roll_busts_when_only_scoring_keeps_go_over() {
    let mut room = room_with_two();
    let id = room.players[0].id;
    let next = room.players[1].id;
    room.players[0].score = 9_800;
    room.players[0].on_board = true;
    room.mode = GameMode::Farkle;
    room.dice = vec![2, 4, 3, 3, 3, 6];
    room.selected.clear();
    room.awaiting_keep = true;
    room.bust_showing = false;
    room.turn_points = 0;
    room.resolve_rolled_dice(id, None).unwrap();
    assert_eq!(room.current_player().unwrap().id, next);
    assert!(room.bust_showing);
    assert!(room.status_message.contains("going over"));
    assert_eq!(room.dice, vec![2, 4, 3, 3, 3, 6]);
}

#[test]
fn bank_skips_steal_when_next_would_go_over() {
    let mut room = room_with_two();
    let a = room.players[0].id;
    let b = room.players[1].id;
    room.players[0].score = 1000;
    room.players[0].on_board = true;
    room.players[1].score = 9400;
    room.players[1].on_board = true;
    room.dice = vec![1, 1, 1, 2, 3];
    room.awaiting_keep = true;
    room.bank(a, vec![0, 1, 2]).unwrap();
    assert_eq!(room.phase, GamePhase::Playing);
    assert!(room.pending_bank.is_none());
    assert_eq!(room.players[0].score, 2000);
    assert_eq!(room.current_player().unwrap().id, b);
    assert!(!room.view_for(b).steal_available);
}

#[test]
fn bank_offers_steal_when_next_can_take_it() {
    let mut room = room_with_two();
    let a = room.players[0].id;
    let b = room.players[1].id;
    room.players[0].score = 1000;
    room.players[0].on_board = true;
    room.players[1].score = 1000;
    room.players[1].on_board = true;
    room.dice = vec![1, 1, 1, 2, 3];
    room.awaiting_keep = true;
    room.bank(a, vec![0, 1, 2]).unwrap();
    assert_eq!(room.phase, GamePhase::StealWindow);
    let pending = room.pending_bank.as_ref().unwrap();
    assert_eq!(pending.points, 1000);
    assert_eq!(pending.leftover, 2);
    assert!(room.view_for(b).steal_available);
    assert!(!room.view_for(a).steal_available);
}

#[test]
fn bank_offers_steal_when_it_hits_exactly_10000() {
    let mut room = room_with_two();
    let a = room.players[0].id;
    let b = room.players[1].id;
    room.players[0].score = 1000;
    room.players[0].on_board = true;
    room.players[1].score = 9000;
    room.players[1].on_board = true;
    room.dice = vec![1, 1, 1, 2, 3];
    room.awaiting_keep = true;
    room.bank(a, vec![0, 1, 2]).unwrap();
    assert_eq!(room.phase, GamePhase::StealWindow);
    assert!(room.view_for(b).steal_available);
}

#[test]
fn steal_rejects_when_it_would_go_over() {
    let mut room = room_with_two();
    let a = room.players[0].id;
    let b = room.players[1].id;
    room.players[0].score = 1000;
    room.players[0].on_board = true;
    room.players[1].score = 9500;
    room.players[1].on_board = true;
    room.pending_bank = Some(PendingBank {
        player_id: a,
        points: 1000,
        leftover: 2,
    });
    room.phase = GamePhase::StealWindow;
    let err = room.steal(b).unwrap_err();
    assert!(err.contains("over") || err.contains("10,000"));
    assert_eq!(room.phase, GamePhase::StealWindow);
    assert_eq!(room.players[0].score, 1000);
}

#[test]
fn rematch_clears_forfeit() {
    let mut room = room_with_three();
    let a = room.host_id;
    room.forfeit(room.players[1].id, ForfeitCause::Manual)
        .unwrap();
    room.phase = GamePhase::Finished;
    room.rematch(a).unwrap();
    assert!(room.players.iter().all(|p| !p.forfeited));
    assert!(room.action_deadline_ms.is_none());
}

#[test]
fn vacate_lobby_removes_player_and_transfers_host() {
    let mut room = Room::new("LOBBY".into(), player("Host"));
    room.players.push(player("Guest"));
    let host_id = room.players[0].id;
    let host_seat = room.players[0].seat_key;
    let guest_id = room.players[1].id;
    let (old_id, empty) = room.vacate_seat(host_seat).unwrap();
    assert_eq!(old_id, host_id);
    assert!(!empty);
    assert_eq!(room.players.len(), 1);
    assert_eq!(room.host_id, guest_id);
    assert!(room.status_message.contains("left"));
}

#[test]
fn vacate_last_lobby_player_empties_room() {
    let mut room = Room::new("SOLO".into(), player("Host"));
    let seat = room.players[0].seat_key;
    let (_, empty) = room.vacate_seat(seat).unwrap();
    assert!(empty);
    assert!(room.players.is_empty());
}

#[test]
fn vacate_started_game_detaches_without_dropping_row() {
    let mut room = room_with_two();
    let seat = room.players[0].seat_key;
    let old_id = room.players[0].id;
    let (released, empty) = room.vacate_seat(seat).unwrap();
    assert_eq!(released, old_id);
    assert!(!empty);
    assert_eq!(room.players.len(), 2);
    assert_ne!(room.players[0].id, old_id);
    assert!(!room.players[0].connected);
    assert!(room.players[0].forfeited);
    assert_eq!(room.phase, GamePhase::Finished);
}

#[test]
fn vacate_already_forfeited_does_not_remove_row() {
    let mut room = room_with_three();
    let seat = room.players[1].seat_key;
    let old_id = room.players[1].id;
    room.forfeit(old_id, ForfeitCause::Manual).unwrap();
    let (released, empty) = room.vacate_seat(seat).unwrap();
    assert_eq!(released, old_id);
    assert!(!empty);
    assert_eq!(room.players.len(), 3);
    assert!(room.players[1].forfeited);
    assert!(!room.players[1].connected);
    assert_ne!(room.players[1].id, old_id);
    assert_eq!(room.phase, GamePhase::Playing);
}
