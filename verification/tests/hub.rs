use bones::game::{PendingBank, Player, Room};
use bones::hub::{Hub, Job, NetCommand, StoreCall, StoreReply, Visit};
use bones::ids::Uuid;
use bones::protocol::{ClientMessage, GameMode, GamePhase, ServerMessage};
use bones::requests::Luck;
use bones::store::StoreEvent;

/// Works off everything that is lined up, with no store to ask.
fn update(hub: &mut Hub) {
    hub.line_up(vec![], vec![], vec![]);
    settle(hub);
}

fn settle(hub: &mut Hub) {
    while !hub.is_idle() {
        assert!(hub.step().unwrap().is_none());
    }
}

fn push(hub: &mut Hub, player_id: Uuid, msg: ClientMessage) {
    hub.line_up(vec![], vec![], vec![NetCommand { player_id, msg }]);
    settle(hub);
}

/// What has been sent to a connection; the rest of the outbox stays with the caller.
fn sent_to(out: &Vec<(Uuid, ServerMessage)>, id: Uuid) -> Vec<ServerMessage> {
    out.iter()
        .filter(|(to, _)| *to == id)
        .map(|(_, msg)| msg.clone())
        .collect()
}

fn is_state(msg: &ServerMessage) -> bool {
    matches!(msg, ServerMessage::State(_))
}

fn error_of(out: &Vec<(Uuid, ServerMessage)>, id: Uuid) -> Option<String> {
    sent_to(out, id).into_iter().find_map(|m| match m {
        ServerMessage::Error { message } => Some(message),
        _ => None,
    })
}

fn created_code(out: &Vec<(Uuid, ServerMessage)>, id: Uuid) -> String {
    sent_to(out, id)
        .into_iter()
        .find_map(|m| match m {
            ServerMessage::GameCreated { code, .. } => Some(code),
            _ => None,
        })
        .expect("created")
}

fn create(hub: &mut Hub, host: Uuid) -> String {
    push(
        hub,
        host,
        ClientMessage::CreateGame {
            name: "Host".into(),
            seat_key: Uuid::new_v4(),
        },
    );
    let out = hub.take_outbox();
    created_code(&out, host)
}

fn join(hub: &mut Hub, player: Uuid, code: &str, seat_key: Uuid) {
    push(
        hub,
        player,
        ClientMessage::JoinGame {
            code: code.into(),
            name: "Guest".into(),
            seat_key,
        },
    );
}

fn luck(code: &str, dice: Vec<u8>, now: u64) -> Luck {
    Luck {
        now,
        fresh: Uuid::new_v4(),
        code: code.into(),
        dice,
    }
}

fn player(name: &str) -> Player {
    Player {
        id: Uuid::new_v4(),
        seat_key: Uuid::new_v4(),
        name: name.into(),
        score: 0,
        on_board: false,
        connected: true,
        forfeited: false,
    }
}

#[test]
fn illegal_select_sends_error_without_state() {
    let mut hub = Hub::new(false);
    let host = Uuid::new_v4();
    push(
        &mut hub,
        host,
        ClientMessage::CreateGame {
            name: "Host".into(),
            seat_key: Uuid::new_v4(),
        },
    );
    let created = sent_to(&hub.take_outbox(), host);
    assert!(
        created
            .iter()
            .any(|m| matches!(m, ServerMessage::GameCreated { .. }))
    );
    assert!(created.iter().any(|m| matches!(m, ServerMessage::State(_))));

    push(&mut hub, host, ClientMessage::Select { indices: vec![0] });
    let after = sent_to(&hub.take_outbox(), host);
    assert!(
        after
            .iter()
            .any(|m| matches!(m, ServerMessage::Error { .. }))
    );
    assert!(
        !after.iter().any(|m| matches!(m, ServerMessage::State(_))),
        "illegal select must not fan out State"
    );
}

#[test]
fn failed_join_does_not_vacate_current_table() {
    let mut hub = Hub::new(false);
    let host = Uuid::new_v4();
    let guest = Uuid::new_v4();
    let guest_seat = Uuid::new_v4();

    push(
        &mut hub,
        host,
        ClientMessage::CreateGame {
            name: "Host".into(),
            seat_key: Uuid::new_v4(),
        },
    );
    let host_code = created_code(&hub.take_outbox(), host);

    push(
        &mut hub,
        guest,
        ClientMessage::JoinGame {
            code: host_code.clone(),
            name: "Guest".into(),
            seat_key: guest_seat,
        },
    );
    let _ = hub.take_outbox();

    push(
        &mut hub,
        guest,
        ClientMessage::JoinGame {
            code: "ZZZZZ".into(),
            name: "Guest".into(),
            seat_key: guest_seat,
        },
    );
    let out = hub.take_outbox();
    let guest_msgs = sent_to(&out, guest);
    assert!(
        guest_msgs
            .iter()
            .any(|m| matches!(m, ServerMessage::Error { .. }))
    );
    assert!(
        !guest_msgs
            .iter()
            .any(|m| matches!(m, ServerMessage::State(_)))
    );
    assert!(
        !sent_to(&out, host)
            .iter()
            .any(|m| matches!(m, ServerMessage::State(_))),
        "failed join must not broadcast a leave from the old table"
    );

    let room = hub.rooms.get(&host_code).expect("room");
    assert_eq!(room.players.len(), 2);
    assert!(room.players.iter().any(|p| p.seat_key == guest_seat));
}

#[test]
fn created_room_is_announced_with_its_invitation() {
    let mut hub = Hub::new(false);
    let host = Uuid::new_v4();
    push(
        &mut hub,
        host,
        ClientMessage::CreateGame {
            name: "  \u{0007} ".into(),
            seat_key: Uuid::new_v4(),
        },
    );
    let out = hub.take_outbox();
    assert_eq!(out.len(), 2);
    match &out[0].1 {
        ServerMessage::GameCreated {
            code,
            player_id,
            invite_path,
        } => {
            assert_eq!(code.len(), 5);
            assert_eq!(*player_id, host);
            assert_eq!(*invite_path, format!("/g/{code}"));
        }
        _ => panic!("first the announcement"),
    }
    match &out[1].1 {
        ServerMessage::State(view) => {
            assert_eq!(view.you_are, host);
            assert_eq!(view.players[0].name, "Player");
        }
        _ => panic!("then the room"),
    }
}

#[test]
fn codes_are_read_in_any_case_and_with_spaces() {
    let mut hub = Hub::new(false);
    let host = Uuid::new_v4();
    let guest = Uuid::new_v4();
    let code = create(&mut hub, host);
    let typed = format!("  {} ", code.to_lowercase());
    join(&mut hub, guest, &typed, Uuid::new_v4());
    let out = hub.take_outbox();
    assert!(matches!(&sent_to(&out, guest)[0], ServerMessage::Joined { code: c, .. } if *c == code));
    assert!(sent_to(&out, host).iter().all(is_state));
    assert_eq!(hub.rooms.get(&code).unwrap().status_message, "Guest joined — 2 player(s).");
}

#[test]
fn strangers_hear_that_they_are_in_no_game() {
    let mut hub = Hub::new(false);
    let id = Uuid::new_v4();
    push(&mut hub, id, ClientMessage::StartGame);
    let out = hub.take_outbox();
    assert_eq!(out.len(), 1);
    assert_eq!(error_of(&out, id).unwrap(), "You are not in a game");
    for quiet in vec![ClientMessage::Sync, ClientMessage::Pong, ClientMessage::LeaveGame] {
        push(&mut hub, id, quiet);
        assert!(hub.take_outbox().is_empty());
    }
}

#[test]
fn snapshot_goes_to_the_one_who_asked() {
    let mut hub = Hub::new(false);
    let host = Uuid::new_v4();
    let guest = Uuid::new_v4();
    let code = create(&mut hub, host);
    join(&mut hub, guest, &code, Uuid::new_v4());
    let _ = hub.take_outbox();
    push(&mut hub, guest, ClientMessage::Sync);
    let out = hub.take_outbox();
    assert_eq!(out.len(), 1);
    assert_eq!(out[0].0, guest);
    assert!(is_state(&out[0].1));
}

#[test]
fn only_the_host_sets_rules_and_starts() {
    let mut hub = Hub::new(false);
    let host = Uuid::new_v4();
    let guest = Uuid::new_v4();
    let code = create(&mut hub, host);
    join(&mut hub, guest, &code, Uuid::new_v4());
    let _ = hub.take_outbox();
    let settings = ClientMessage::UpdateSettings {
        mode: GameMode::Farkle,
        idle_timeout_secs: Some(60),
        board_threshold: None,
    };
    push(&mut hub, guest, settings.clone());
    assert_eq!(
        error_of(&hub.take_outbox(), guest).unwrap(),
        "Only the host can change settings"
    );
    push(&mut hub, guest, ClientMessage::StartGame);
    assert_eq!(
        error_of(&hub.take_outbox(), guest).unwrap(),
        "Only the host can start"
    );
    push(&mut hub, host, settings);
    push(&mut hub, host, ClientMessage::StartGame);
    let room = hub.rooms.get(&code).unwrap();
    assert_eq!(room.mode, GameMode::Farkle);
    assert_eq!(room.board_threshold, 500);
    assert_eq!(room.phase, GamePhase::Playing);
    push(&mut hub, guest, ClientMessage::Rematch);
    assert_eq!(
        error_of(&hub.take_outbox(), guest).unwrap(),
        "Only the host can start a rematch"
    );
}

#[test]
fn missing_minimum_is_the_default_of_the_game() {
    let mut hub = Hub::new(false);
    let host = Uuid::new_v4();
    let code = create(&mut hub, host);
    let set = |board_threshold| ClientMessage::UpdateSettings {
        mode: GameMode::Bones,
        idle_timeout_secs: None,
        board_threshold,
    };
    push(&mut hub, host, set(Some(2000)));
    assert_eq!(hub.rooms.get(&code).unwrap().board_threshold, 2000);
    push(&mut hub, host, set(None));
    assert_eq!(hub.rooms.get(&code).unwrap().board_threshold, 1000);
}

#[test]
fn full_and_running_tables_turn_guests_away() {
    let mut hub = Hub::new(false);
    let host = Uuid::new_v4();
    let code = create(&mut hub, host);
    for _ in 0..7 {
        join(&mut hub, Uuid::new_v4(), &code, Uuid::new_v4());
    }
    let _ = hub.take_outbox();
    let late = Uuid::new_v4();
    join(&mut hub, late, &code, Uuid::new_v4());
    let out = hub.take_outbox();
    assert_eq!(out.len(), 1);
    assert_eq!(error_of(&out, late).unwrap(), "Game is full");
    push(&mut hub, host, ClientMessage::StartGame);
    let _ = hub.take_outbox();
    join(&mut hub, late, &code, Uuid::new_v4());
    assert_eq!(
        error_of(&hub.take_outbox(), late).unwrap(),
        "Game already in progress"
    );
}

#[test]
fn joining_another_table_leaves_the_first() {
    let mut hub = Hub::new(false);
    let (a, b, roamer) = (Uuid::new_v4(), Uuid::new_v4(), Uuid::new_v4());
    let seat = Uuid::new_v4();
    let first = create(&mut hub, a);
    let second = create(&mut hub, b);
    join(&mut hub, roamer, &first, seat);
    let _ = hub.take_outbox();
    join(&mut hub, roamer, &second, seat);
    let out = hub.take_outbox();
    assert_eq!(hub.rooms.get(&first).unwrap().players.len(), 1);
    assert_eq!(hub.rooms.get(&second).unwrap().players.len(), 2);
    assert_eq!(hub.members.get(roamer).unwrap(), second);
    assert!(sent_to(&out, a).iter().all(is_state));
    assert_eq!(sent_to(&out, a).len(), 1);
    assert_eq!(
        hub.rooms.get(&first).unwrap().status_message,
        "Guest left — 1 player(s)."
    );
}

#[test]
fn last_player_to_leave_a_lobby_closes_it() {
    let mut hub = Hub::new(false);
    let host = Uuid::new_v4();
    let code = create(&mut hub, host);
    push(&mut hub, host, ClientMessage::LeaveGame);
    assert!(hub.rooms.get(&code).is_none());
    assert!(hub.members.get(host).is_none());
}

#[test]
fn leaving_a_running_game_forfeits_and_keeps_the_row() {
    let mut hub = Hub::new(false);
    let (host, guest) = (Uuid::new_v4(), Uuid::new_v4());
    let code = create(&mut hub, host);
    join(&mut hub, guest, &code, Uuid::new_v4());
    push(&mut hub, host, ClientMessage::StartGame);
    push(&mut hub, guest, ClientMessage::LeaveGame);
    let room = hub.rooms.get(&code).unwrap();
    assert_eq!(room.players.len(), 2);
    assert!(room.players[1].forfeited);
    assert!(!room.players[1].connected);
    assert_ne!(room.players[1].id, guest);
    assert_eq!(room.phase, GamePhase::Finished);
    assert_eq!(room.winner_id, Some(host));
}

#[test]
fn dropped_connection_is_shown_once_and_can_come_back() {
    let mut hub = Hub::new(false);
    let (host, guest, back) = (Uuid::new_v4(), Uuid::new_v4(), Uuid::new_v4());
    let seat = Uuid::new_v4();
    let code = create(&mut hub, host);
    join(&mut hub, guest, &code, seat);
    let _ = hub.take_outbox();
    hub.line_up(vec![], vec![guest], vec![]);
    settle(&mut hub);
    assert_eq!(sent_to(&hub.take_outbox(), host).len(), 1);
    let room = hub.rooms.get(&code).unwrap();
    assert!(!room.players[1].connected);
    assert_eq!(room.status_message, "Guest disconnected");
    hub.mark_disconnected(guest);
    settle(&mut hub);
    assert!(hub.take_outbox().is_empty());
    join(&mut hub, back, &code, seat);
    let room = hub.rooms.get(&code).unwrap();
    assert_eq!(room.players.len(), 2);
    assert!(room.players[1].connected);
    assert_eq!(room.players[1].id, back);
    assert_eq!(hub.members.get(guest), None);
    assert_eq!(hub.members.get(back).unwrap(), code);
}

#[test]
fn overdue_players_are_put_out() {
    let mut hub = Hub::new(false);
    let (host, guest) = (Uuid::new_v4(), Uuid::new_v4());
    let code = create(&mut hub, host);
    join(&mut hub, guest, &code, Uuid::new_v4());
    push(&mut hub, host, ClientMessage::StartGame);
    let i = hub.rooms.find(&code).unwrap();
    hub.rooms.rooms[i].action_deadline_ms = Some(1);
    let _ = hub.take_outbox();
    update(&mut hub);
    let room = hub.rooms.get(&code).unwrap();
    assert!(room.players[0].forfeited);
    assert_eq!(room.winner_id, Some(guest));
    assert_eq!(hub.take_outbox().len(), 2);
}

#[test]
fn rolled_dice_come_from_luck() {
    let mut hub = Hub::new(false);
    let (host, guest) = (Uuid::new_v4(), Uuid::new_v4());
    let code = create(&mut hub, host);
    join(&mut hub, guest, &code, Uuid::new_v4());
    push(&mut hub, host, ClientMessage::StartGame);
    hub.schedule(Job::Command {
        player: host,
        msg: ClientMessage::Roll { indices: vec![] },
    });
    assert!(hub.step_with(&luck("AAAAA", vec![], 0)).is_none());
    assert_eq!(hub.dice_wanted(), 5);
    assert!(hub.step_with(&luck("AAAAA", vec![1, 2, 2, 3, 4], 0)).is_none());
    settle(&mut hub);
    let room = hub.rooms.get(&code).unwrap();
    assert_eq!(room.dice, vec![1, 2, 2, 3, 4]);
    assert!(room.awaiting_keep);
}

// -- with a shared store ----------------------------------------------------

fn step(hub: &mut Hub) -> StoreCall {
    loop {
        if let Some(call) = hub.step().unwrap() {
            return call;
        }
        assert!(!hub.is_idle());
    }
}

fn reply(hub: &mut Hub, reply: StoreReply) {
    assert!(hub.expects(&reply));
    hub.resume(reply);
}

fn stored_room(code: &str, host: &Player) -> Room {
    Room::new(code.into(), host.clone())
}

#[test]
fn new_room_is_saved_and_its_host_freed_elsewhere() {
    let mut hub = Hub::new(true);
    let host = Uuid::new_v4();
    let seat = Uuid::new_v4();
    hub.schedule(Job::Command {
        player: host,
        msg: ClientMessage::CreateGame {
            name: "Host".into(),
            seat_key: seat,
        },
    });
    let code = match step(&mut hub) {
        StoreCall::Create { room } => {
            assert_eq!(room.version, 0);
            assert_eq!(room.host_id, host);
            room.code
        }
        _ => panic!("create"),
    };
    assert!(hub.rooms.get(&code).is_none());
    assert!(!hub.expects(&StoreReply::Done));
    reply(&mut hub, StoreReply::Saved(Ok(true)));
    assert!(matches!(
        step(&mut hub),
        StoreCall::SetSeat { seat_key, code: c } if seat_key == seat && c == code
    ));
    reply(&mut hub, StoreReply::Done);
    assert!(matches!(step(&mut hub), StoreCall::GetSeat { seat_key } if seat_key == seat));
    reply(&mut hub, StoreReply::Seat(Ok(Some(code.clone()))));
    settle(&mut hub);
    let out = hub.take_outbox();
    assert!(matches!(&out[0].1, ServerMessage::GameCreated { .. }));
    assert!(is_state(&out[1].1));
    assert_eq!(hub.members.get(host).unwrap(), code);
}

#[test]
fn taken_codes_are_tried_again_and_then_given_up() {
    let mut hub = Hub::new(true);
    let host = Uuid::new_v4();
    hub.schedule(Job::Create {
        player: player("Host"),
        tries: 2,
    });
    for _ in 0..2 {
        assert!(matches!(step(&mut hub), StoreCall::Create { .. }));
        reply(&mut hub, StoreReply::Saved(Ok(false)));
    }
    settle(&mut hub);
    let out = hub.take_outbox();
    assert_eq!(out.len(), 1);
    assert!(
        matches!(&out[0].1, ServerMessage::Error { message } if message == "Could not create a room")
    );
    push_error(&mut hub, host);
}

fn push_error(hub: &mut Hub, host: Uuid) {
    hub.schedule(Job::Command {
        player: host,
        msg: ClientMessage::CreateGame {
            name: "Host".into(),
            seat_key: Uuid::new_v4(),
        },
    });
    assert!(matches!(step(hub), StoreCall::Create { .. }));
    reply(hub, StoreReply::Saved(Err("down".into())));
    settle(hub);
    assert_eq!(
        error_of(&hub.take_outbox(), host).unwrap(),
        "Could not create a room"
    );
    assert!(hub.rooms.rooms.is_empty());
}

#[test]
fn codes_in_use_here_are_not_tried_in_the_store() {
    let mut hub = Hub::new(false);
    let host = player("Host");
    hub.rooms.upsert(stored_room("AAAAA", &host));
    hub.schedule(Job::Create {
        player: player("Other"),
        tries: 2,
    });
    assert!(hub.step_with(&luck("AAAAA", vec![], 0)).is_none());
    assert!(hub.step_with(&luck("BBBBB", vec![], 0)).is_none());
    assert_eq!(hub.rooms.rooms.len(), 2);
    hub.schedule(Job::Create {
        player: host.clone(),
        tries: 0,
    });
    let _ = hub.step_with(&luck("CCCCC", vec![], 0));
    assert_eq!(
        error_of(&hub.take_outbox(), host.id).unwrap(),
        "Could not create a room"
    );
}

#[test]
fn requests_work_on_what_the_store_has() {
    let mut hub = Hub::new(true);
    let host = player("Host");
    let mut room = stored_room("ABCDE", &host);
    room.players.push(player("Guest"));
    room.version = 7;
    hub.members.track(host.id, "ABCDE");
    hub.schedule(Job::Command {
        player: host.id,
        msg: ClientMessage::StartGame,
    });
    assert!(matches!(step(&mut hub), StoreCall::Get { code } if code == "ABCDE"));
    reply(&mut hub, StoreReply::Room(Ok(Some(room))));
    match step(&mut hub) {
        StoreCall::Update { room, expected } => {
            assert_eq!(expected, 7);
            assert_eq!(room.version, 8);
            assert_eq!(room.phase, GamePhase::Playing);
        }
        _ => panic!("update"),
    }
    assert_eq!(hub.rooms.get("ABCDE").unwrap().version, 7);
    reply(&mut hub, StoreReply::Saved(Ok(true)));
    settle(&mut hub);
    assert_eq!(hub.rooms.get("ABCDE").unwrap().version, 8);
    assert_eq!(hub.take_outbox().len(), 2);
}

#[test]
fn lost_race_takes_over_what_the_winner_saved() {
    let mut hub = Hub::new(true);
    let host = player("Host");
    let room = stored_room("ABCDE", &host);
    hub.rooms.upsert(room.clone());
    hub.schedule(Job::Persist {
        code: "ABCDE".into(),
    });
    assert!(matches!(
        step(&mut hub),
        StoreCall::Update { expected: 0, .. }
    ));
    reply(&mut hub, StoreReply::Saved(Ok(false)));
    assert_eq!(hub.rooms.get("ABCDE").unwrap().version, 0);
    assert!(matches!(step(&mut hub), StoreCall::Get { .. }));
    let mut newer = room.clone();
    newer.version = 3;
    newer.status_message = "elsewhere".into();
    reply(&mut hub, StoreReply::Room(Ok(Some(newer))));
    settle(&mut hub);
    assert_eq!(hub.rooms.get("ABCDE").unwrap().version, 3);
    assert_eq!(hub.rooms.get("ABCDE").unwrap().status_message, "elsewhere");
    hub.schedule(Job::Persist {
        code: "ABCDE".into(),
    });
    let _ = step(&mut hub);
    reply(&mut hub, StoreReply::Saved(Err("down".into())));
    settle(&mut hub);
    assert_eq!(hub.rooms.get("ABCDE").unwrap().version, 3);
}

#[test]
fn rooms_that_the_store_lost_are_given_up() {
    let mut hub = Hub::new(true);
    let host = player("Host");
    hub.rooms.upsert(stored_room("ABCDE", &host));
    hub.members.track(host.id, "ABCDE");
    hub.schedule(Job::Command {
        player: host.id,
        msg: ClientMessage::StartGame,
    });
    let _ = step(&mut hub);
    reply(&mut hub, StoreReply::Room(Ok(None)));
    settle(&mut hub);
    assert_eq!(
        error_of(&hub.take_outbox(), host.id).unwrap(),
        "Game not found"
    );
    assert!(hub.rooms.get("ABCDE").is_none());
    hub.schedule(Job::Command {
        player: host.id,
        msg: ClientMessage::JoinGame {
            code: "ABCDE".into(),
            name: "Host".into(),
            seat_key: host.seat_key,
        },
    });
    let _ = step(&mut hub);
    reply(&mut hub, StoreReply::Room(Err("down".into())));
    settle(&mut hub);
    assert_eq!(error_of(&hub.take_outbox(), host.id).unwrap(), "down");
    hub.schedule(Job::Command {
        player: host.id,
        msg: ClientMessage::Sync,
    });
    let _ = step(&mut hub);
    reply(&mut hub, StoreReply::Room(Err("down".into())));
    settle(&mut hub);
    assert!(hub.take_outbox().is_empty());
}

#[test]
fn leaving_with_a_store_looks_up_the_seat_and_cleans_up() {
    let mut hub = Hub::new(true);
    let host = player("Host");
    let room = stored_room("ABCDE", &host);
    hub.schedule(Job::Vacate {
        seat_key: host.seat_key,
        keep: None,
    });
    assert!(matches!(step(&mut hub), StoreCall::GetSeat { .. }));
    reply(&mut hub, StoreReply::Seat(Ok(Some("ABCDE".into()))));
    assert!(matches!(step(&mut hub), StoreCall::Get { code } if code == "ABCDE"));
    reply(&mut hub, StoreReply::Room(Ok(Some(room))));
    assert!(
        matches!(step(&mut hub), StoreCall::DelSeat { seat_key } if seat_key == host.seat_key)
    );
    reply(&mut hub, StoreReply::Done);
    assert!(matches!(step(&mut hub), StoreCall::Delete { code } if code == "ABCDE"));
    reply(&mut hub, StoreReply::Done);
    settle(&mut hub);
    assert!(hub.rooms.rooms.is_empty());
}

#[test]
fn news_from_the_store_is_shown_when_newer() {
    let mut hub = Hub::new(true);
    let host = player("Host");
    let mut room = stored_room("ABCDE", &host);
    room.version = 2;
    hub.line_up(
        vec![StoreEvent::Upsert { room: room.clone() }],
        vec![],
        vec![],
    );
    settle(&mut hub);
    assert_eq!(hub.take_outbox().len(), 1);
    room.status_message = "again".into();
    hub.line_up(
        vec![StoreEvent::Upsert { room: room.clone() }],
        vec![],
        vec![],
    );
    settle(&mut hub);
    assert!(hub.take_outbox().is_empty());
    assert_eq!(hub.rooms.get("ABCDE").unwrap().status_message, "again");
    hub.line_up(
        vec![StoreEvent::Delete {
            code: "ABCDE".into(),
        }],
        vec![],
        vec![],
    );
    settle(&mut hub);
    assert!(hub.rooms.get("ABCDE").is_none());
}

#[test]
fn what_comes_in_is_worked_off_in_order() {
    let mut hub = Hub::new(false);
    let host = player("Host");
    let room = stored_room("ABCDE", &host);
    hub.members.track(host.id, "ABCDE");
    hub.line_up(
        vec![StoreEvent::Upsert { room }],
        vec![host.id],
        vec![
            NetCommand {
                player_id: host.id,
                msg: ClientMessage::Sync,
            },
            NetCommand {
                player_id: host.id,
                msg: ClientMessage::StartGame,
            },
        ],
    );
    settle(&mut hub);
    let out = hub.take_outbox();
    assert_eq!(out.len(), 4);
    assert!(is_state(&out[0].1));
    assert!(
        matches!(&out[1].1, ServerMessage::State(view) if view.message == "Host disconnected")
    );
    assert!(is_state(&out[2].1));
    assert!(
        matches!(&out[3].1, ServerMessage::Error { message } if message == "Need at least 2 players")
    );
}

#[test]
fn odd_rooms_are_served_all_the_same() {
    let mut hub = Hub::new(true);
    let host = player("Host");
    let mut room = stored_room("ABCDE", &host);
    room.dice = (0..300).map(|i| (i % 6 + 1) as u8).collect();
    room.turn_index = usize::MAX;
    room.turn_points = u32::MAX;
    room.version = u64::MAX;
    hub.line_up(vec![StoreEvent::Upsert { room }], vec![], vec![]);
    settle(&mut hub);
    assert_eq!(hub.take_outbox().len(), 1);
    hub.schedule(Job::Greet {
        player: host.id,
        code: "ABCDE".into(),
        created: false,
    });
    settle(&mut hub);
    assert_eq!(hub.take_outbox().len(), 2);
    hub.schedule(Job::Enter {
        code: "ABCDE".into(),
        visit: Visit::Show { player: host.id },
    });
    settle(&mut hub);
    assert_eq!(hub.take_outbox().len(), 1);
    hub.schedule(Job::Enter {
        code: "ABCDE".into(),
        visit: Visit::Act {
            player: host.id,
            msg: ClientMessage::Rematch,
        },
    });
    assert!(hub.step().unwrap().is_none());
    assert_eq!(hub.rooms.get("ABCDE").unwrap().turn_points, 0);
}

#[test]
fn rooms_that_would_overflow_are_given_up_alone() {
    let mut hub = Hub::new(true);
    let host = player("Host");
    let mut room = stored_room("ABCDE", &host);
    room.version = u64::MAX;
    hub.rooms.upsert(room);
    hub.rooms.upsert(stored_room("FGHJK", &host));
    hub.schedule(Job::Persist {
        code: "ABCDE".into(),
    });
    assert!(!hub.fits(&luck("AAAAA", vec![], 0)));
    assert!(matches!(hub.step(), Err(code) if code == "ABCDE"));
    assert!(hub.fits(&luck("AAAAA", vec![], 0)));
    settle(&mut hub);
    assert!(hub.rooms.get("ABCDE").is_none());
    assert!(hub.rooms.get("FGHJK").is_some());
}

#[test]
fn overflowing_steal_matters_only_when_it_busts() {
    let mut hub = Hub::new(false);
    let (banker, thief) = (player("Banker"), player("Thief"));
    let mut room = stored_room("ABCDE", &banker);
    room.players.push(thief.clone());
    room.start().unwrap();
    for p in &mut room.players {
        p.on_board = true;
    }
    room.players[0].score = u32::MAX;
    room.phase = GamePhase::StealWindow;
    room.pending_bank = Some(PendingBank {
        player_id: banker.id,
        points: 100,
        leftover: 2,
    });
    hub.rooms.upsert(room);
    hub.schedule(Job::Enter {
        code: "ABCDE".into(),
        visit: Visit::Act {
            player: thief.id,
            msg: ClientMessage::Steal,
        },
    });
    assert_eq!(hub.dice_wanted(), 2);
    assert!(!hub.fits(&luck("AAAAA", vec![2, 3], 0)));
    let good = luck("AAAAA", vec![1, 3], 0);
    assert!(hub.fits(&good));
    assert!(hub.step_with(&good).is_none());
    assert_eq!(hub.rooms.get("ABCDE").unwrap().turn_points, 100);
}
