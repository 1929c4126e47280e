use lobby_hub::chat::{chat_line, client_connected, client_message, decode_body, BodyError, Message};
use lobby_hub::registry::Registry;
use tokio::sync::mpsc::unbounded_channel;

#[test]
fn chat_line_names_the_writer() {
    assert_eq!(chat_line(7, &"hi".to_string()), "<User#7>: hi");
    assert_eq!(chat_line(0, &String::new()), "<User#0>: ");
    assert_eq!(chat_line(1234, &"a b".to_string()), "<User#1234>: a b");
}

#[test]
fn decode_body_accepts_utf8() {
    assert_eq!(decode_body("héllo".as_bytes().to_vec()).unwrap(), "héllo");
    assert_eq!(decode_body(vec![b'x'; 500]).unwrap().len(), 500);
    assert_eq!(decode_body(Vec::new()).unwrap(), "");
}

#[test]
fn decode_body_refuses_large_or_invalid() {
    assert_eq!(decode_body(vec![b'x'; 501]).unwrap_err(), BodyError::TooLarge);
    assert_eq!(decode_body(vec![0xff, 0xfe]).unwrap_err(), BodyError::NotUtf8);
}

#[test]
fn connect_sends_own_id_first() {
    let mut clients: Registry<Message> = Registry::new();
    let (tx, mut rx) = unbounded_channel();
    let (id, welcomed) = client_connected(&mut clients, tx).unwrap();
    assert_eq!(id, 1);
    assert!(welcomed);
    assert!(matches!(rx.try_recv(), Ok(Message::ClientId(1))));
    assert!(clients.contains(id));
}

#[test]
fn connect_with_closed_channel_is_not_kept() {
    let mut clients: Registry<Message> = Registry::new();
    let (tx, rx) = unbounded_channel();
    drop(rx);
    let (id, welcomed) = client_connected(&mut clients, tx).unwrap();
    assert!(!welcomed);
    assert!(!clients.contains(id));
    assert_eq!(clients.len(), 0);
}

#[test]
fn message_reaches_everyone_but_writer() {
    let mut clients: Registry<Message> = Registry::new();
    let (ta, mut ra) = unbounded_channel();
    let (tb, mut rb) = unbounded_channel();
    let (tc, mut rc) = unbounded_channel();
    let (a, _) = client_connected(&mut clients, ta).unwrap();
    let (b, _) = client_connected(&mut clients, tb).unwrap();
    let (c, _) = client_connected(&mut clients, tc).unwrap();
    for rx in [&mut ra, &mut rb, &mut rc] {
        assert!(matches!(rx.try_recv(), Ok(Message::ClientId(_))));
    }
    let out = client_message(&mut clients, a, &"hello".to_string());
    assert_eq!(out.iter().map(|d| d.id).collect::<Vec<_>>(), vec![b, c]);
    assert!(ra.try_recv().is_err());
    for rx in [&mut rb, &mut rc] {
        assert!(matches!(rx.try_recv(), Ok(Message::Reply(l)) if l == "<User#1>: hello"));
    }
    assert_eq!(clients.len(), 3);
}

#[test]
fn message_prunes_departed_reader() {
    let mut clients: Registry<Message> = Registry::new();
    let (ta, _ra) = unbounded_channel();
    let (tb, rb) = unbounded_channel();
    let (a, _) = client_connected(&mut clients, ta).unwrap();
    let (b, _) = client_connected(&mut clients, tb).unwrap();
    drop(rb);
    let out = client_message(&mut clients, a, &"x".to_string());
    assert_eq!(out.len(), 1);
    assert!(!out[0].sent);
    assert!(!clients.contains(b));
    assert!(clients.contains(a));
}
