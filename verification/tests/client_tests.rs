use sstp::client::{Chunker, Client, Download, Getter, Sender};
use sstp::messages::{ErrorMessage, Message};
use sstp::relay::{RelayAction, RelayEvent, RelaySession, Rooms};
use sstp::utils::{calc_chunks, split_into_chunks, CHUNK_SIZE};

#[test]
fn client_new_builds() {
    let _client = Client::new();
}

#[test]
fn getter_new_and_room_request() {
    let g = Getter::new(Some("a-b-c"), None);
    assert_eq!(g.code, "a-b-c");
    assert_eq!(g.relay_addr, "139.177.178.244:8004");
    assert!(g.filename.is_none() && g.size.is_none() && g.peer_addr.is_none());
    assert_eq!(g.room_request(), Message::new_get("a-b-c".to_string()));
    let g = Getter::new(Some("x"), Some("127.0.0.1:8003"));
    assert_eq!(g.relay_addr, "127.0.0.1:8003");
}

#[test]
fn getter_learns_the_room() {
    let mut g = Getter::new(Some("a-b-c"), None);
    let reply = Message::new_approve_req("f.txt".to_string(), 1234, "1.1.1.1:1".to_string());
    assert_eq!(g.accept_room_reply(reply), Ok(()));
    assert_eq!(g.filename.as_deref(), Some("f.txt"));
    assert_eq!(g.size, Some(1234));
    assert_eq!(g.peer_addr.as_deref(), Some("1.1.1.1:1"));
    assert_eq!(g.approval_reply(true), Message::new_approve_res(true));
    let d = g.start_transfer();
    assert_eq!(d.remaining(), 1);
    assert!(!d.is_complete());
}

#[test]
fn getter_reports_relay_errors() {
    let mut g = Getter::new(Some("a-b-c"), None);
    let r = g.accept_room_reply(Message::new_error("Room code does not exist".to_string()));
    assert_eq!(r, Err(ErrorMessage { text: "Room code does not exist".to_string() }));
    assert!(g.filename.is_none());
    assert!(g.size.is_none());
}

#[test]
fn download_collects_chunks_in_order() {
    let mut d = Download::new(2);
    assert_eq!(d.remaining(), 2);
    d.accept_chunk(vec![1, 2, 3]);
    assert!(!d.is_complete());
    d.accept_chunk(vec![4]);
    assert!(d.is_complete());
    assert_eq!(d.content(), &vec![1, 2, 3, 4]);
    assert_eq!(d.into_content(), vec![1, 2, 3, 4]);
}

#[test]
fn sender_creates_a_room() {
    let mut s = Sender::new("f.txt".to_string(), 99, Some("127.0.0.1:8003"));
    assert_eq!(s.relay_addr, "127.0.0.1:8003");
    assert!(s.code.is_none());
    let m = s.create_room();
    let code = s.code.clone().unwrap();
    assert!(!code.contains(' '));
    assert_eq!(code.split('-').count(), 3);
    assert_eq!(m, Message::new_send("f.txt".to_string(), 99, code));
    assert_eq!(Sender::new("g".to_string(), 1, None).relay_addr, "139.177.178.244:8004");
}

#[test]
fn sender_waits_for_ready() {
    let mut s = Sender::new("f.txt".to_string(), 99, None);
    assert!(s.peer_addr.is_none());
    s.accept_ready(Message::new_ready("2.2.2.2:2".to_string()));
    assert_eq!(s.peer_addr.as_deref(), Some("2.2.2.2:2"));
    assert_eq!(s.chunk_message(&[5, 6]).content, vec![5, 6]);
}

#[test]
fn whole_transfer_delivers_the_file() {
    // A file of three chunks goes from a sender through the relay's decisions
    // to a receiver's download.
    let file: Vec<u8> = (0..2_000_123u32).map(|i| (i % 97) as u8).collect();
    let mut rooms = Rooms::new();

    let mut sender = Sender::new("f.bin".to_string(), file.len() as u64, None);
    let announce = sender.create_room();
    let (_, a) = RelaySession::new().step(&mut rooms, 1, &"1.1.1.1:1".to_string(), 0, RelayEvent::Received(announce));
    assert!(matches!(a, RelayAction::KeepAsSender { .. }));

    let mut getter = Getter::new(Some(sender.code.as_ref().unwrap().as_str()), None);
    let addr = "2.2.2.2:2".to_string();
    let (s, a) = RelaySession::new().step(&mut rooms, 2, &addr, 1, RelayEvent::Received(getter.room_request()));
    let reply = match a {
        RelayAction::Reply(m) => m,
        _ => panic!("expected an approval request"),
    };
    getter.accept_room_reply(reply).unwrap();
    assert_eq!(getter.size, Some(file.len() as u64));
    let (mut s, a) = s.step(&mut rooms, 2, &addr, 2, RelayEvent::Received(getter.approval_reply(true)));
    match a {
        RelayAction::Notify { message, .. } => sender.accept_ready(message),
        _ => panic!("expected the sender to be told"),
    }
    assert_eq!(sender.peer_addr.as_deref(), Some("2.2.2.2:2"));

    // The sender reads the file in uneven pieces; the chunker cuts them into
    // the chunks that are sent.
    let mut chunker = Chunker::new();
    let mut chunks: Vec<Vec<u8>> = Vec::new();
    for piece in file.chunks(333_333) {
        chunks.extend(chunker.push(piece));
    }
    chunks.extend(chunker.finish());
    assert_eq!(chunks, split_into_chunks(&file));
    assert!(chunks.iter().all(|c| c.len() <= CHUNK_SIZE));
    let mut download = getter.start_transfer();
    let mut next = 0usize;
    loop {
        let (n, a) = s.step(&mut rooms, 2, &addr, 3, RelayEvent::Performed);
        s = n;
        match a {
            RelayAction::Forward { .. } => {
                let msg = sender.chunk_message(&chunks[next]);
                next += 1;
                download.accept_chunk(msg.content);
            }
            RelayAction::Close => break,
            _ => panic!("unexpected action"),
        }
    }
    assert_eq!(next as u64, calc_chunks(file.len() as u64));
    assert!(download.is_complete());
    assert_eq!(download.into_content(), file);
}

#[test]
fn create_room_with_code_announces_the_file_under_it() {
    let mut s = Sender::new("f.txt".to_string(), 5, None);
    let m = s.create_room_with_code("alpha-beta-gamma".to_string());
    assert_eq!(s.code.as_deref(), Some("alpha-beta-gamma"));
    assert_eq!(m, Message::new_send("f.txt".to_string(), 5, "alpha-beta-gamma".to_string()));
}

#[test]
fn chunker_cuts_pieces_into_full_chunks() {
    let mut c = Chunker::new();
    assert!(c.push(&vec![1u8; 600_000]).is_empty());
    let full = c.push(&vec![2u8; 900_000]);
    assert_eq!(full.len(), 1);
    assert_eq!(full[0].len(), CHUNK_SIZE);
    assert_eq!(&full[0][..600_000], &vec![1u8; 600_000][..]);
    assert_eq!(c.finish(), Some(vec![2u8; 500_000]));
}

#[test]
fn chunker_of_exact_chunks_leaves_nothing() {
    let mut c = Chunker::new();
    assert_eq!(c.push(&vec![3u8; 2 * CHUNK_SIZE]).len(), 2);
    assert_eq!(c.finish(), None);
    assert_eq!(Chunker::new().finish(), None);
}
