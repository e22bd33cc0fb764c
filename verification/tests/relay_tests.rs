use sstp::messages::Message;
use sstp::relay::{Relay, RelayAction, RelayEvent, RelaySession, RoomInfo, Rooms, ROOM_LIFETIME_NANOS};
use sstp::utils::calc_chunks;

fn room(sender: u64, name: &str, size: u64, opened: u64) -> RoomInfo {
    RoomInfo {
        sender,
        sender_addr: format!("10.0.0.{}:4000", sender),
        filename: name.to_string(),
        size,
        opened,
    }
}

#[test]
fn relay_new_builds() {
    let _relay = Relay::new();
}

#[test]
fn rooms_get_after_create() {
    let mut rooms = Rooms::new();
    assert!(rooms.get(&"a-b-c".to_string()).is_none());
    rooms.create_room("a-b-c".to_string(), room(1, "f.txt", 10, 0));
    rooms.create_room("d-e-f".to_string(), room(2, "g.txt", 20, 0));
    let r = rooms.get(&"a-b-c".to_string()).unwrap();
    assert_eq!(r.filename, "f.txt");
    assert_eq!(r.sender, 1);
    assert_eq!(rooms.get(&"d-e-f".to_string()).unwrap().size, 20);
}

#[test]
fn rooms_create_replaces_same_code() {
    let mut rooms = Rooms::new();
    rooms.create_room("a-b-c".to_string(), room(1, "f.txt", 10, 0));
    rooms.create_room("a-b-c".to_string(), room(3, "h.txt", 30, 5));
    let r = rooms.get(&"a-b-c".to_string()).unwrap();
    assert_eq!(r.sender, 3);
    assert_eq!(r.filename, "h.txt");
    assert!(rooms.remove(&"a-b-c".to_string()).is_some());
    assert!(rooms.get(&"a-b-c".to_string()).is_none());
}

#[test]
fn rooms_remove_gives_back_the_room() {
    let mut rooms = Rooms::new();
    rooms.create_room("a-b-c".to_string(), room(1, "f.txt", 10, 0));
    rooms.create_room("d-e-f".to_string(), room(2, "g.txt", 20, 0));
    let r = rooms.remove(&"a-b-c".to_string()).unwrap();
    assert_eq!(r.filename, "f.txt");
    assert!(rooms.remove(&"a-b-c".to_string()).is_none());
    assert!(rooms.get(&"d-e-f".to_string()).is_some());
}

#[test]
fn rooms_cleanup_closes_rooms_an_hour_old() {
    let mut rooms = Rooms::new();
    rooms.create_room("old".to_string(), room(1, "o.txt", 1, 0));
    rooms.create_room("edge".to_string(), room(2, "e.txt", 1, 1));
    rooms.create_room("young".to_string(), room(3, "y.txt", 1, 2_000_000_000_000));
    rooms.create_room("future".to_string(), room(4, "z.txt", 1, 9_000_000_000_000));
    rooms.cleanup(ROOM_LIFETIME_NANOS);
    assert!(rooms.get(&"old".to_string()).is_none());
    assert!(rooms.get(&"edge".to_string()).is_some());
    assert!(rooms.get(&"young".to_string()).is_some());
    assert!(rooms.get(&"future".to_string()).is_some());
    rooms.cleanup(ROOM_LIFETIME_NANOS + 1);
    assert!(rooms.get(&"edge".to_string()).is_none());
}

#[test]
fn send_opens_a_room() {
    let mut rooms = Rooms::new();
    let (s, a) = RelaySession::new().step(
        &mut rooms,
        7,
        &"1.1.1.1:1".to_string(),
        42,
        RelayEvent::Received(Message::new_send("f.txt".to_string(), 5, "a-b-c".to_string())),
    );
    assert!(matches!(s, RelaySession::Closed));
    match a {
        RelayAction::KeepAsSender { code } => assert_eq!(code, "a-b-c"),
        _ => panic!("expected the connection to be kept"),
    }
    let r = rooms.get(&"a-b-c".to_string()).unwrap();
    assert_eq!(r.sender, 7);
    assert_eq!(r.sender_addr, "1.1.1.1:1");
    assert_eq!(r.filename, "f.txt");
    assert_eq!(r.size, 5);
    assert_eq!(r.opened, 42);
}

#[test]
fn get_of_unknown_room_is_an_error() {
    let mut rooms = Rooms::new();
    let (s, a) = RelaySession::new().step(
        &mut rooms,
        1,
        &"2.2.2.2:2".to_string(),
        0,
        RelayEvent::Received(Message::new_get("x-y-z".to_string())),
    );
    assert!(matches!(s, RelaySession::Closed));
    match a {
        RelayAction::ReplyAndClose(m) => {
            assert_eq!(m, Message::new_error("Room code does not exist".to_string()))
        }
        _ => panic!("expected an error reply"),
    }
}

#[test]
fn a_connection_starts_with_a_message() {
    let rooms = Rooms::new();
    let s = RelaySession::new();
    assert!(!s.accepts(&rooms, &RelayEvent::Performed));
    assert!(s.accepts(&rooms, &RelayEvent::Received(Message::new_approve_res(true))));
    assert!(s.accepts(&rooms, &RelayEvent::Received(Message::new_get("a".to_string()))));
}

#[test]
fn other_first_message_ends_the_connection() {
    let mut rooms = Rooms::new();
    open_room(&mut rooms, 10);
    let (s, a) = RelaySession::new().step(
        &mut rooms,
        1,
        &"2.2.2.2:2".to_string(),
        0,
        RelayEvent::Received(Message::new_ready("x".to_string())),
    );
    assert!(matches!(s, RelaySession::Closed));
    assert!(matches!(a, RelayAction::Close));
    assert!(rooms.get(&"a-b-c".to_string()).is_some());
}

fn open_room(rooms: &mut Rooms, size: u64) {
    let (_, _) = RelaySession::new().step(
        rooms,
        7,
        &"1.1.1.1:1".to_string(),
        0,
        RelayEvent::Received(Message::new_send("f.bin".to_string(), size, "a-b-c".to_string())),
    );
}

#[test]
fn approved_transfer_forwards_every_chunk_then_closes_the_room() {
    let size = 2_500_000u64;
    let mut rooms = Rooms::new();
    open_room(&mut rooms, size);
    let client_addr = "2.2.2.2:2".to_string();
    let (s, a) = RelaySession::new().step(
        &mut rooms,
        9,
        &client_addr,
        1,
        RelayEvent::Received(Message::new_get("a-b-c".to_string())),
    );
    match a {
        RelayAction::Reply(m) => assert_eq!(
            m,
            Message::new_approve_req("f.bin".to_string(), size, "1.1.1.1:1".to_string())
        ),
        _ => panic!("expected an approval request"),
    }
    let (mut s, a) = s.step(
        &mut rooms,
        9,
        &client_addr,
        2,
        RelayEvent::Received(Message::new_approve_res(true)),
    );
    match a {
        RelayAction::Notify { sender, message } => {
            assert_eq!(sender, 7);
            assert_eq!(message, Message::new_ready(client_addr.clone()));
        }
        _ => panic!("expected the sender to be told"),
    }
    let mut forwarded = 0u64;
    loop {
        let (next, a) = s.step(&mut rooms, 9, &client_addr, 3, RelayEvent::Performed);
        s = next;
        match a {
            RelayAction::Forward { sender } => {
                assert_eq!(sender, 7);
                forwarded += 1;
            }
            RelayAction::Close => break,
            _ => panic!("unexpected action"),
        }
    }
    assert_eq!(forwarded, calc_chunks(size));
    assert_eq!(forwarded, 3);
    assert!(rooms.get(&"a-b-c".to_string()).is_none());
}

#[test]
fn empty_file_forwards_nothing() {
    let mut rooms = Rooms::new();
    open_room(&mut rooms, 0);
    let addr = "2.2.2.2:2".to_string();
    let (s, _) = RelaySession::new().step(&mut rooms, 9, &addr, 1, RelayEvent::Received(Message::new_get("a-b-c".to_string())));
    let (s, _) = s.step(&mut rooms, 9, &addr, 1, RelayEvent::Received(Message::new_approve_res(true)));
    let (s, a) = s.step(&mut rooms, 9, &addr, 1, RelayEvent::Performed);
    assert!(matches!(a, RelayAction::Close));
    assert!(matches!(s, RelaySession::Closed));
    assert!(rooms.get(&"a-b-c".to_string()).is_none());
}

#[test]
fn declined_transfer_keeps_the_room() {
    let mut rooms = Rooms::new();
    open_room(&mut rooms, 10);
    let addr = "2.2.2.2:2".to_string();
    let (s, _) = RelaySession::new().step(&mut rooms, 9, &addr, 1, RelayEvent::Received(Message::new_get("a-b-c".to_string())));
    let (s, a) = s.step(&mut rooms, 9, &addr, 1, RelayEvent::Received(Message::new_approve_res(false)));
    assert!(matches!(a, RelayAction::Close));
    assert!(matches!(s, RelaySession::Closed));
    assert!(rooms.get(&"a-b-c".to_string()).is_some());
}

#[test]
fn only_an_answer_may_follow_the_approval_request() {
    let mut rooms = Rooms::new();
    open_room(&mut rooms, 10);
    let addr = "2.2.2.2:2".to_string();
    let (s, _) = RelaySession::new().step(&mut rooms, 9, &addr, 1, RelayEvent::Received(Message::new_get("a-b-c".to_string())));
    assert!(!s.accepts(&rooms, &RelayEvent::Received(Message::new_get("a-b-c".to_string()))));
    assert!(!s.accepts(&rooms, &RelayEvent::Performed));
    assert!(s.accepts(&rooms, &RelayEvent::Received(Message::new_approve_res(false))));
}

#[test]
fn the_room_must_still_be_open_when_the_transfer_ends() {
    let mut rooms = Rooms::new();
    open_room(&mut rooms, 0);
    let addr = "2.2.2.2:2".to_string();
    let (s, _) = RelaySession::new().step(&mut rooms, 9, &addr, 1, RelayEvent::Received(Message::new_get("a-b-c".to_string())));
    let (s, _) = s.step(&mut rooms, 9, &addr, 1, RelayEvent::Received(Message::new_approve_res(true)));
    assert!(s.accepts(&rooms, &RelayEvent::Performed));
    rooms.remove(&"a-b-c".to_string());
    assert!(!s.accepts(&rooms, &RelayEvent::Performed));
}

#[test]
fn is_sender_names_the_rooms_connection() {
    let mut rooms = Rooms::new();
    open_room(&mut rooms, 10);
    assert!(rooms.is_sender(&"a-b-c".to_string(), 7));
    assert!(!rooms.is_sender(&"a-b-c".to_string(), 8));
    assert!(!rooms.is_sender(&"x".to_string(), 7));
}

#[test]
fn closed_session_stays_closed() {
    let mut rooms = Rooms::new();
    open_room(&mut rooms, 10);
    let (s, a) = RelaySession::Closed.step(
        &mut rooms,
        1,
        &"x".to_string(),
        0,
        RelayEvent::Received(Message::new_send("g".to_string(), 1, "q".to_string())),
    );
    assert!(matches!(s, RelaySession::Closed));
    assert!(matches!(a, RelayAction::Close));
    assert!(rooms.get(&"q".to_string()).is_none());
    assert!(rooms.get(&"a-b-c".to_string()).is_some());
}
