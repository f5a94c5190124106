use bones::game::{Player, Room};
use bones::ids::Uuid;
use bones::rooms::{GameRooms, PlayerRooms};
use bones::session::{
    Incoming, Outgoing, ReadStep, WriteStep, has_pending, read_step, welcome, write_step,
};
use bones::protocol::{ClientMessage, ServerMessage};
use bones::store::{
    FIRST_RETRY_MS, channel, expected_version, next_retry_ms, room_key, room_key_pattern, save_keys,
    seat_key,
};

fn room(code: &str, deadline: Option<u64>) -> Room {
    let mut room = Room::new(
        code.into(),
        Player::seated(Uuid::new_v4(), Uuid::new_v4(), "A".into()),
    );
    room.action_deadline_ms = deadline;
    room
}

#[test]
fn rooms_are_kept_by_code() {
    let mut rooms = GameRooms::new();
    rooms.upsert(room("AAAAA", None));
    rooms.upsert(room("BBBBB", None));
    rooms.upsert(room("AAAAA", Some(5)));
    assert_eq!(rooms.rooms.len(), 2);
    assert_eq!(rooms.get("AAAAA").unwrap().action_deadline_ms, Some(5));
    assert_eq!(rooms.codes_but(&None), vec!["AAAAA", "BBBBB"]);
    assert_eq!(rooms.codes_but(&Some("AAAAA".into())), vec!["BBBBB"]);
    rooms.drop_room("AAAAA");
    rooms.drop_room("CCCCC");
    assert!(rooms.get("AAAAA").is_none());
    assert_eq!(rooms.find("BBBBB"), Some(0));
}

#[test]
fn loop_sleeps_until_the_earliest_deadline() {
    let mut rooms = GameRooms::new();
    assert_eq!(rooms.next_idle_wait(0), 400);
    assert!(!rooms.timeout_due(0));
    rooms.upsert(room("AAAAA", None));
    rooms.upsert(room("BBBBB", Some(1_000)));
    rooms.upsert(room("CCCCC", Some(900)));
    assert_eq!(rooms.next_idle_wait(0), 400);
    assert_eq!(rooms.next_idle_wait(850), 50);
    assert_eq!(rooms.next_idle_wait(899), 1);
    assert_eq!(rooms.next_idle_wait(900), 400);
    assert!(!rooms.timeout_due(899));
    assert!(rooms.timeout_due(900));
}

#[test]
fn members_are_in_one_room() {
    let (a, b) = (Uuid::new_v4(), Uuid::new_v4());
    let mut members = PlayerRooms::new();
    members.track(a, "AAAAA");
    members.track(b, "AAAAA");
    members.track(a, "BBBBB");
    assert_eq!(members.get(a).unwrap(), "BBBBB");
    assert_eq!(members.get(b).unwrap(), "AAAAA");
    assert_eq!(members.entries.len(), 2);
    members.remove(a);
    assert_eq!(members.get(a), None);
    assert_eq!(members.get(b).unwrap(), "AAAAA");
}

#[test]
fn store_keys_carry_code_and_seat() {
    let mut table = room("AAAAA", None);
    table.players[0].seat_key = Uuid(1);
    table.players.push(Player::seated(Uuid(2), Uuid(3), "B".into()));
    assert_eq!(room_key("AAAAA"), "bones:room:AAAAA");
    assert_eq!(
        seat_key(Uuid(1)),
        "bones:seat:00000000-0000-0000-0000-000000000001"
    );
    assert_eq!(
        save_keys(&table),
        vec![
            "bones:room:AAAAA",
            "bones:rooms",
            "bones:seat:00000000-0000-0000-0000-000000000001",
            "bones:seat:00000000-0000-0000-0000-000000000003",
        ]
    );
    assert_eq!(channel(), "bones:rooms");
    assert_eq!(room_key_pattern(), "bones:room:*");
    assert_eq!(expected_version(None), "new");
    assert_eq!(expected_version(Some(41)), "41");
}

#[test]
fn retries_slow_down() {
    let mut delays = vec![FIRST_RETRY_MS];
    for _ in 0..6 {
        delays.push(next_retry_ms(delays[delays.len() - 1]));
    }
    assert_eq!(delays, vec![200, 400, 800, 1_600, 3_200, 5_000, 5_000]);
    assert_eq!(next_retry_ms(u64::MAX), 5_000);
}

#[test]
fn reading_half_queues_messages_and_complains() {
    assert!(matches!(
        read_step(Incoming::Text(Ok(ClientMessage::Pong))),
        ReadStep::Nothing
    ));
    assert!(matches!(
        read_step(Incoming::Text(Ok(ClientMessage::Sync))),
        ReadStep::Queue(ClientMessage::Sync)
    ));
    match read_step(Incoming::Text(Err("expected value".into()))) {
        ReadStep::Tell(ServerMessage::Error { message }) => {
            assert_eq!(message, "Bad message: expected value")
        }
        _ => panic!("a complaint"),
    }
    assert!(matches!(read_step(Incoming::Close), ReadStep::Leave));
    assert!(matches!(read_step(Incoming::End), ReadStep::Leave));
    assert!(matches!(read_step(Incoming::Other), ReadStep::Nothing));
}

#[test]
fn writing_half_sends_pings_and_closes() {
    assert!(matches!(write_step(Outgoing::Shutdown), WriteStep::Close));
    assert!(matches!(write_step(Outgoing::End), WriteStep::Stop));
    assert!(matches!(
        write_step(Outgoing::Tick),
        WriteStep::Ping(ServerMessage::Ping)
    ));
    let id = Uuid::new_v4();
    assert!(matches!(
        write_step(Outgoing::Message(welcome(id))),
        WriteStep::Send(ServerMessage::Welcome { player_id }) if player_id == id
    ));
}

#[test]
fn loop_wakes_for_anything_pending() {
    assert!(!has_pending(false, 0, 0, 0));
    assert!(has_pending(true, 0, 0, 0));
    assert!(has_pending(false, 1, 0, 0));
    assert!(has_pending(false, 0, 1, 0));
    assert!(has_pending(false, 0, 0, 1));
}

#[test]
fn store_keys_tell_things_apart() {
    assert_ne!(room_key("AAAAA"), room_key("AAAAB"));
    assert_ne!(room_key("s"), channel());
    assert_ne!(room_key(&Uuid(1).to_text()), seat_key(Uuid(1)));
    assert_ne!(expected_version(Some(1)), expected_version(Some(11)));
    assert_ne!(expected_version(None), expected_version(Some(0)));
}
