use bones::game::{ForfeitCause, PendingBank, Player, Room};
use bones::ids::Uuid;
use bones::protocol::{ClientMessage, GameMode, GamePhase, WIN_SCORE};
use bones::requests::Luck;

fn player(name: &str) -> Player {
    Player::seated(Uuid::new_v4(), Uuid::new_v4(), name.into())
}

/// A running game of the given size, with everyone on the board.
fn table(n: usize) -> Room {
    let mut room = Room::new("TABLE".into(), player("P0"));
    for i in 1..n {
        room.players.push(player(&format!("P{i}")));
    }
    room.start_at(0).unwrap();
    for p in &mut room.players {
        p.on_board = true;
        p.score = 1_000;
    }
    room
}

fn rolled(room: &mut Room, dice: &[u8]) {
    room.dice = dice.to_vec();
    room.awaiting_keep = true;
}

fn luck(dice: Vec<u8>) -> Luck {
    Luck {
        now: 5_000,
        fresh: Uuid::new_v4(),
        code: "AAAAA".into(),
        dice,
    }
}

#[test]
fn bank_wins_only_on_the_goal() {
    let mut room = table(2);
    let id = room.players[0].id;
    room.players[0].score = WIN_SCORE - 100;
    rolled(&mut room, &[1, 5, 2, 3, 4]);
    assert_eq!(
        room.bank(id, vec![0, 1]).unwrap_err(),
        "Must hit exactly 10,000. Banking would make 10,050."
    );
    assert_eq!(room.players[0].score, WIN_SCORE - 100);
    room.bank(id, vec![0]).unwrap();
    assert_eq!(room.phase, GamePhase::Finished);
    assert_eq!(room.winner_id, Some(id));
    assert_eq!(room.players[0].score, WIN_SCORE);
}

#[test]
fn first_bank_needs_the_minimum() {
    let mut room = table(2);
    let id = room.players[0].id;
    room.players[0].on_board = false;
    room.players[0].score = 0;
    room.turn_points = 950;
    rolled(&mut room, &[5, 2, 3, 4, 6]);
    room.board_threshold = 1_001;
    assert_eq!(
        room.bank(id, vec![0]).unwrap_err(),
        "Need at least 1,001 in one turn to get on the board"
    );
    room.board_threshold = 1_000;
    room.bank(id, vec![0]).unwrap();
    assert!(room.players[0].on_board);
    assert_eq!(room.players[0].score, 1_000);
}

#[test]
fn bank_waits_while_it_can_be_stolen() {
    let mut room = table(2);
    let id = room.players[0].id;
    rolled(&mut room, &[1, 2, 3, 4, 6]);
    room.bank(id, vec![0]).unwrap();
    assert_eq!(room.phase, GamePhase::StealWindow);
    assert_eq!(room.players[0].score, 1_000);
    let pending = room.pending_bank.unwrap();
    assert_eq!((pending.points, pending.leftover), (100, 4));
    let next = room.players[1].id;
    assert!(room.view_for(next).steal_available);
    assert!(!room.view_for(id).steal_available);
    assert_eq!(
        room.steal(id).unwrap_err(),
        "Only the next player can steal"
    );
    assert_eq!(
        room.decline_steal(id).unwrap_err(),
        "Only the next player can decline"
    );
    room.decline_steal(next).unwrap();
    assert_eq!(room.players[0].score, 1_100);
    assert_eq!(room.players[1].score, 1_000);
    assert_eq!(room.turn_index, 1);
    assert!(room.pending_bank.is_none());
}

#[test]
fn busted_steal_pays_the_banker() {
    let mut room = table(2);
    let (banker, thief) = (room.players[0].id, room.players[1].id);
    rolled(&mut room, &[1, 2, 3, 4, 6]);
    room.bank(banker, vec![0]).unwrap();
    let mut won = room.clone();
    room.steal_with(thief, vec![2, 3, 4, 6], 0).unwrap();
    assert!(room.bust_showing);
    assert_eq!(room.players[0].score, 1_100);
    assert_eq!(room.status_message, "P1 busted the steal.");
    assert_eq!(room.turn_index, 0);
    won.steal_with(thief, vec![1, 3, 4, 6], 0).unwrap();
    assert!(!won.bust_showing);
    assert_eq!(won.players[0].score, 1_000);
    assert_eq!(won.turn_points, 100);
    assert_eq!(won.turn_index, 1);
    assert_eq!(
        won.status_message,
        "P1 steals with 100 pending! Select scoring dice."
    );
}

#[test]
fn bust_leaves_its_dice_and_gives_a_full_roll() {
    let mut room = table(3);
    let id = room.players[0].id;
    room.turn_points = 300;
    room.land_roll_at(id, vec![2, 3, 4], 0);
    assert_eq!(room.status_message, "P0 busted.");
    assert_eq!(room.dice, vec![2, 3, 4]);
    assert_eq!(room.turn_points, 0);
    assert_eq!(room.turn_index, 1);
    assert_eq!(room.dice_to_roll(), 5);
    assert_eq!(room.players[0].score, 1_000);
}

#[test]
fn overshooting_roll_busts_with_the_goal_named() {
    let mut room = table(2);
    let id = room.players[0].id;
    room.players[0].score = WIN_SCORE - 50;
    room.land_roll_at(id, vec![1, 2, 3], 0);
    assert_eq!(
        room.status_message,
        "P0 busted — nothing scores without going over 10,000."
    );
}

#[test]
fn hot_dice_are_all_rolled_again() {
    let mut room = table(2);
    let id = room.players[0].id;
    rolled(&mut room, &[1, 1, 1, 5, 5]);
    room.keep(id, vec![4, 3, 2, 1, 0]).unwrap();
    assert_eq!(
        room.status_message,
        "Hot dice! Turn total 1,100 — roll all 5 again or bank"
    );
    assert_eq!(room.dice_to_roll(), 5);
}

#[test]
fn kept_dice_stay_off_the_next_roll() {
    let mut room = table(2);
    let id = room.players[0].id;
    rolled(&mut room, &[1, 2, 2, 2, 6]);
    room.keep(id, vec![0, 1, 2, 3]).unwrap();
    assert_eq!(
        room.status_message,
        "Kept for 300 — turn total 300. Roll remaining or bank."
    );
    assert_eq!(room.dice_to_roll(), 1);
    let count = room.prepare_roll_at(id, &[], 0).unwrap();
    assert_eq!(count, 1);
}

#[test]
fn rolling_on_keeps_the_selection_first() {
    let mut room = table(2);
    let id = room.players[0].id;
    rolled(&mut room, &[1, 2, 2, 3, 6]);
    assert_eq!(
        room.roll(id, vec![1]).unwrap_err(),
        "Select a scoring combination first"
    );
    room.roll(id, vec![0]).unwrap();
    assert_eq!(room.dice.len(), 4);
    assert!(room.bust_showing || room.turn_points == 100);
}

#[test]
fn five_of_a_kind_wins_at_once() {
    let mut room = table(2);
    let id = room.players[0].id;
    room.land_roll_at(id, vec![3, 3, 3, 3, 3], 0);
    assert_eq!(room.winner_id, Some(id));
    assert_eq!(
        room.status_message,
        "P0 rolled five of a kind and wins automatically!"
    );
    let mut room = table(2);
    let (banker, thief) = (room.players[0].id, room.players[1].id);
    room.phase = GamePhase::StealWindow;
    room.pending_bank = Some(PendingBank {
        player_id: banker,
        points: 100,
        leftover: 5,
    });
    room.steal_with(thief, vec![3, 3, 3, 3, 3], 0).unwrap();
    assert_eq!(room.winner_id, Some(thief));
    assert_eq!(
        room.status_message,
        "P1 stole and rolled five of a kind — automatic win!"
    );
}

#[test]
fn refused_requests_leave_the_room_alone() {
    let mut room = table(2);
    let (id, other) = (room.players[0].id, room.players[1].id);
    let before = format!("{room:?}");
    let requests = vec![
        (other, ClientMessage::Roll { indices: vec![] }, "Not your turn"),
        (id, ClientMessage::Select { indices: vec![0] }, "Nothing to select"),
        (id, ClientMessage::Keep { indices: vec![0] }, "Roll first"),
        (id, ClientMessage::Bank { indices: vec![] }, "Nothing to bank"),
        (other, ClientMessage::Steal, "No steal available"),
        (other, ClientMessage::DeclineSteal, "No steal to decline"),
        (other, ClientMessage::EndGame, "Only the host can end the game"),
        (other, ClientMessage::Rematch, "Only the host can start a rematch"),
        (id, ClientMessage::StartGame, "Game already started"),
        (Uuid::nil(), ClientMessage::Forfeit, "Not in this game"),
        (
            id,
            ClientMessage::UpdateSettings {
                mode: GameMode::Bones,
                idle_timeout_secs: None,
                board_threshold: None,
            },
            "Settings can only be changed in the lobby",
        ),
    ];
    for (who, msg, words) in requests {
        assert_eq!(room.perform(who, &msg, &luck(vec![1])).unwrap_err(), words);
        assert_eq!(format!("{room:?}"), before);
    }
    rolled(&mut room, &[1, 2, 2, 3, 6]);
    let before = format!("{room:?}");
    assert_eq!(room.select(id, vec![5]).unwrap_err(), "Invalid die");
    assert_eq!(
        room.keep(id, vec![1]).unwrap_err(),
        "Select a scoring combination first"
    );
    assert_eq!(format!("{room:?}"), before);
}

#[test]
fn remaining_refusals_have_their_words() {
    let mut room = table(2);
    let (id, next) = (room.players[0].id, room.players[1].id);
    room.phase = GamePhase::Finished;
    assert_eq!(
        room.roll(id, vec![]).unwrap_err(),
        "Not your moment to roll"
    );
    assert_eq!(room.select(id, vec![]).unwrap_err(), "Cannot select dice now");
    assert_eq!(room.keep(id, vec![]).unwrap_err(), "Cannot keep dice now");
    assert_eq!(room.bank(id, vec![]).unwrap_err(), "Cannot bank now");
    assert_eq!(room.end_game(id).unwrap_err(), "Game is not in progress");
    assert_eq!(
        room.forfeit(id, ForfeitCause::Manual).unwrap_err(),
        "Game is not in progress"
    );
    room.phase = GamePhase::StealWindow;
    assert_eq!(room.steal(next).unwrap_err(), "No pending bank");
    room.pending_bank = Some(PendingBank {
        player_id: id,
        points: 100,
        leftover: 0,
    });
    assert_eq!(room.steal(next).unwrap_err(), "No leftover dice");
    room.players[1].on_board = false;
    assert_eq!(
        room.steal(next).unwrap_err(),
        "You must be on the board to steal"
    );
    room.players.clear();
    assert_eq!(room.steal(next).unwrap_err(), "No next player");
    assert_eq!(room.decline_steal(next).unwrap_err(), "No next player");
    room.phase = GamePhase::Playing;
    assert_eq!(room.roll(id, vec![]).unwrap_err(), "No current player");
    let mut room = table(2);
    let id = room.players[0].id;
    room.dice = vec![1, 2];
    room.selected = vec![0, 1];
    assert_eq!(room.roll(id, vec![]).unwrap_err(), "No dice left to roll");
    room.forfeit(id, ForfeitCause::Manual).unwrap();
    room.phase = GamePhase::Playing;
    assert_eq!(
        room.forfeit(id, ForfeitCause::Manual).unwrap_err(),
        "Already forfeited"
    );
}

#[test]
fn last_player_standing_wins() {
    let mut room = table(3);
    let ids: Vec<Uuid> = room.players.iter().map(|p| p.id).collect();
    room.forfeit(ids[0], ForfeitCause::Manual).unwrap();
    assert_eq!(room.host_id, ids[1]);
    assert_eq!(room.turn_index, 1);
    assert_eq!(
        room.status_message,
        "P0 forfeited. P1's turn — roll when ready"
    );
    room.forfeit(ids[2], ForfeitCause::Manual).unwrap();
    assert_eq!(room.phase, GamePhase::Finished);
    assert_eq!(room.winner_id, Some(ids[1]));
    assert_eq!(room.status_message, "P2 forfeited. P1 wins with 1,000.");
}

#[test]
fn timeouts_wait_for_the_deadline() {
    let mut room = table(3);
    room.idle_timeout_secs = Some(30);
    room.begin_next_turn_at(false, 1_000);
    assert_eq!(room.action_deadline_ms, Some(31_000));
    assert!(!room.check_timeout_at(30_999, 0));
    assert_eq!(room.acting_player_id(), Some(room.players[1].id));
    assert!(room.check_timeout_at(31_000, 40_000));
    assert!(room.players[1].forfeited);
    assert_eq!(room.turn_index, 2);
    assert_eq!(room.action_deadline_ms, Some(70_000));
    assert_eq!(
        room.status_message,
        "P1 forfeited — no play within 30 seconds. P2's turn — roll when ready"
    );
    room.action_deadline_ms = None;
    assert!(!room.check_timeout_at(u64::MAX, 0));
}

#[test]
fn deadlines_saturate() {
    let mut room = table(2);
    room.idle_timeout_secs = Some(u64::MAX);
    room.begin_next_turn_at(false, 1);
    assert_eq!(room.action_deadline_ms, Some(u64::MAX));
}

#[test]
fn coming_back_restores_host_and_banker() {
    let mut room = table(2);
    let id = room.players[0].id;
    let seat = room.players[0].seat_key;
    room.phase = GamePhase::StealWindow;
    room.pending_bank = Some(PendingBank {
        player_id: id,
        points: 100,
        leftover: 2,
    });
    let ghost = Uuid::new_v4();
    let before = format!("{room:?}");
    assert_eq!(room.detach_connection_to(seat, ghost), Some(id));
    assert_eq!(room.host_id, ghost);
    assert_eq!(room.pending_bank.unwrap().player_id, ghost);
    assert_eq!(room.reclaim_seat(seat, id, "P0".into()), Ok(ghost));
    assert_eq!(room.status_message, "P0 reconnected");
    room.status_message = "P0's turn — need 1,000 in one turn to get on the board".into();
    assert_eq!(format!("{room:?}"), before);
    assert_eq!(
        room.reclaim_seat(Uuid::nil(), id, "X".into()),
        Err("No seat to reclaim".to_string())
    );
}

#[test]
fn seats_outlive_connections_in_a_running_game() {
    let mut room = table(3);
    let seat = room.players[1].seat_key;
    let id = room.players[1].id;
    assert_eq!(room.vacate_seat(seat), Some((id, false)));
    assert_eq!(room.seat_index(seat), Some(1));
    assert!(!room.players[1].connected);
    let back = Uuid::new_v4();
    assert!(room.join(back, "P1".into(), seat).is_ok());
    assert_eq!(room.player_index(back), Some(1));
    assert_eq!(room.vacate_seat(Uuid::nil()), None);
    assert_eq!(room.detach_connection(Uuid::nil()), None);
}

#[test]
fn marks_are_kept_to_what_can_be_kept() {
    let mut room = table(2);
    let id = room.players[0].id;
    rolled(&mut room, &[1, 2, 2, 3, 5]);
    room.select(id, vec![4, 1, 0, 4]).unwrap();
    assert_eq!(room.selected, vec![0, 4]);
    let marked = room.selected.clone();
    room.select(id, marked).unwrap();
    assert_eq!(room.selected, vec![0, 4]);
}

#[test]
fn finished_games_only_restart() {
    let mut room = table(2);
    let id = room.players[0].id;
    room.end_game(id).unwrap();
    assert_eq!(room.winner_id, None);
    assert_eq!(room.status_message, "Host ended the game. No winner.");
    let before = format!("{room:?}");
    for msg in [
        ClientMessage::StartGame,
        ClientMessage::Roll { indices: vec![] },
        ClientMessage::EndGame,
        ClientMessage::Forfeit,
    ] {
        assert!(room.perform(id, &msg, &luck(vec![])).is_err());
    }
    assert_eq!(format!("{room:?}"), before);
    room.perform(id, &ClientMessage::Rematch, &luck(vec![])).unwrap();
    assert_eq!(room.phase, GamePhase::Lobby);
    assert!(room.players.iter().all(|p| p.score == 0 && !p.on_board));
    room.perform(id, &ClientMessage::StartGame, &luck(vec![])).unwrap();
    assert_eq!(room.phase, GamePhase::Playing);
}

#[test]
fn current_row_can_be_changed_in_place() {
    let mut room = table(2);
    room.current_player_mut().unwrap().score = 77;
    assert_eq!(room.current_player().unwrap().score, 77);
    room.turn_index = 9;
    assert!(room.current_player_mut().is_none());
}

#[test]
fn overflow_is_noticed_where_it_would_come() {
    let mut room = table(3);
    let (id, next) = (room.players[0].id, room.players[1].id);
    room.players[0].on_board = false;
    rolled(&mut room, &[1, 2, 2, 3, 5]);
    let keep = |indices| ClientMessage::Keep { indices };
    let bank = |indices| ClientMessage::Bank { indices };
    let roll = |indices| ClientMessage::Roll { indices };
    room.turn_points = u32::MAX - 100;
    assert!(room.request_fits(id, &keep(vec![0]), &luck(vec![])));
    assert!(!room.request_fits(id, &keep(vec![0, 4]), &luck(vec![])));
    assert!(!room.request_fits(id, &bank(vec![0, 4]), &luck(vec![])));
    assert!(!room.request_fits(id, &roll(vec![0, 4]), &luck(vec![])));
    assert!(room.request_fits(id, &keep(vec![1]), &luck(vec![])));
    assert!(room.request_fits(next, &keep(vec![0, 4]), &luck(vec![])));
    assert_eq!(room.dice_called_for(id, &roll(vec![0, 4])), 0);
    assert_eq!(room.dice_called_for(id, &roll(vec![0])), 4);
    room.phase = GamePhase::StealWindow;
    room.players[0].score = u32::MAX;
    room.pending_bank = Some(PendingBank {
        player_id: id,
        points: 1,
        leftover: 1,
    });
    assert!(!room.request_fits(next, &ClientMessage::DeclineSteal, &luck(vec![])));
    assert!(room.request_fits(id, &ClientMessage::DeclineSteal, &luck(vec![])));
    assert!(!room.request_fits(id, &ClientMessage::EndGame, &luck(vec![])));
    assert!(!room.request_fits(next, &ClientMessage::Forfeit, &luck(vec![])));
    let last = room.players[2].id;
    assert!(room.request_fits(last, &ClientMessage::Forfeit, &luck(vec![])));
    assert!(room.vacate_fits(room.players[2].seat_key));
    assert!(!room.vacate_fits(room.players[1].seat_key));
    room.action_deadline_ms = Some(10);
    assert!(room.timeout_fits(9));
    assert!(!room.timeout_fits(10));
}

#[test]
fn next_row_is_found_from_any_turn() {
    let mut room = table(3);
    for turn in [0, 1, 2, 3, 100, usize::MAX - 1] {
        room.turn_index = turn;
        assert_eq!(room.next_player_index(), (turn + 1) % 3);
    }
    room.players[2].forfeited = true;
    room.turn_index = 1;
    assert_eq!(room.next_player_index(), 0);
}

#[test]
fn who_leaves_holds_no_row() {
    let mut room = table(3);
    let (id, seat) = (room.players[1].id, room.players[1].seat_key);
    room.vacate_seat(seat);
    assert_eq!(room.player_index(id), None);
    let mut lobby = Room::new("LOBBY".into(), player("A"));
    let (id, seat) = (lobby.players[0].id, lobby.players[0].seat_key);
    assert_eq!(lobby.vacate_seat(seat), Some((id, true)));
    assert_eq!(lobby.player_index(id), None);
}

#[test]
fn idle_forfeit_off_never_times_out() {
    let mut room = table(2);
    assert_eq!(room.idle_timeout_secs, None);
    room.begin_next_turn_at(false, 0);
    assert!(!room.check_timeout(u64::MAX));
}

#[test]
fn first_bank_on_the_goal_wins() {
    let mut room = Room::new("TEST1".into(), player("A"));
    room.players.push(player("B"));
    room.start().unwrap();
    let id = room.players[0].id;
    room.turn_points = 10_000;
    let mut short = room.clone();
    room.bank(id, vec![]).unwrap();
    assert_eq!(room.players[0].score, 10_000);
    assert!(room.players[0].on_board);
    assert_eq!(room.phase, GamePhase::Finished);
    assert_eq!(room.winner_id, Some(id));
    assert_eq!(room.status_message, "A hits exactly 10,000 and wins!");
    short.turn_points = 9_950;
    short.bank(id, vec![]).unwrap();
    assert_eq!(short.players[0].score, 9_950);
    assert_eq!(short.phase, GamePhase::Playing);
    assert_eq!(short.winner_id, None);
}
