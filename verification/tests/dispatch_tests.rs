use json_ipc_server::connection::Interest;
use json_ipc_server::dispatch::{event_actions, Action, EventOutcome, ReadInput};
use json_ipc_server::rpc::RequestHandler;
use json_ipc_server::table::{ConnTable, SERVER_TOKEN};

struct Echo;

impl RequestHandler for Echo {
    fn handle(&self, msg: &Vec<u8>) -> Option<Vec<u8>> {
        let mut out = b"echo:".to_vec();
        out.extend_from_slice(msg);
        Some(out)
    }
}

struct Mute;

impl RequestHandler for Mute {
    fn handle(&self, _msg: &Vec<u8>) -> Option<Vec<u8>> {
        None
    }
}

#[test]
fn readable_on_server_token_accepts() {
    assert_eq!(event_actions(SERVER_TOKEN, true, false, false), vec![Action::Accept]);
}

#[test]
fn readable_on_client_reads() {
    assert_eq!(event_actions(3, true, false, false), vec![Action::Read(3)]);
}

#[test]
fn hup_on_client_closes_but_server_hup_is_informational() {
    assert_eq!(event_actions(3, false, false, true), vec![Action::Close(3)]);
    assert_eq!(event_actions(SERVER_TOKEN, false, false, true), vec![]);
}

#[test]
fn combined_events_in_order() {
    assert_eq!(
        event_actions(2, true, true, true),
        vec![Action::Read(2), Action::Close(2), Action::Write(2)]
    );
}

#[test]
fn writable_on_server_token_is_ignored() {
    assert_eq!(event_actions(SERVER_TOKEN, false, true, false), vec![]);
}

fn one_connection() -> (ConnTable, usize) {
    let mut t = ConnTable::new(4);
    let tok = t.try_accept(json_ipc_server::connection::Connection::new()).ok().unwrap();
    (t, tok)
}

#[test]
fn would_block_rearms_reading() {
    let (mut t, tok) = one_connection();
    let r = t.on_readable(tok, ReadInput::WouldBlock, &Echo);
    assert_eq!(r, EventOutcome::Rearm(Interest::Readable));
}

#[test]
fn read_error_closes_and_removes() {
    let (mut t, tok) = one_connection();
    let r = t.on_readable(tok, ReadInput::Failed, &Echo);
    assert_eq!(r, EventOutcome::Closed);
    assert!(t.slots[tok - 1].is_none());
}

#[test]
fn stale_tokens_are_ignored() {
    let (mut t, _tok) = one_connection();
    assert_eq!(t.on_readable(3, ReadInput::WouldBlock, &Echo), EventOutcome::NotLive);
    assert_eq!(t.on_readable(0, ReadInput::WouldBlock, &Echo), EventOutcome::NotLive);
    assert_eq!(t.on_written(3, 10), EventOutcome::NotLive);
    assert_eq!(t.next_write_chunk(3), None);
}

#[test]
fn data_with_responses_turns_to_writing() {
    let (mut t, tok) = one_connection();
    let r = t.on_readable(tok, ReadInput::Data(b"{\"a\":1}".to_vec()), &Echo);
    assert_eq!(r, EventOutcome::Rearm(Interest::Writable));
    let chunk = t.next_write_chunk(tok).unwrap();
    assert_eq!(chunk, b"echo:{\"a\":1}".to_vec());
    let written = t.on_written(tok, chunk.len());
    assert_eq!(written, EventOutcome::Rearm(Interest::Readable));
}

// A zero-length read is a no-op, not a hangup.
#[test]
fn zero_length_read_is_a_no_op() {
    let (mut t, tok) = one_connection();
    t.on_readable(tok, ReadInput::Data(b"{\"a\":".to_vec()), &Echo);
    let r = t.on_readable(tok, ReadInput::Data(Vec::new()), &Echo);
    assert_eq!(r, EventOutcome::Rearm(Interest::Readable));
    match &t.slots[tok - 1] {
        Some(c) => assert_eq!(c.request, b"{\"a\":".to_vec()),
        None => panic!("connection must stay live"),
    }
}

#[test]
fn incomplete_data_keeps_reading() {
    let (mut t, tok) = one_connection();
    let r = t.on_readable(tok, ReadInput::Data(b"{\"a\":".to_vec()), &Echo);
    assert_eq!(r, EventOutcome::Rearm(Interest::Readable));
    assert_eq!(t.next_write_chunk(tok).unwrap(), Vec::<u8>::new());
}

// A batch of notifications alone writes nothing and the connection keeps
// reading.
#[test]
fn notification_batch_writes_nothing() {
    let (mut t, tok) = one_connection();
    let r = t.on_readable(tok, ReadInput::Data(b"{\"a\":1}{\"b\":2}".to_vec()), &Mute);
    assert_eq!(r, EventOutcome::Rearm(Interest::Readable));
    match &t.slots[tok - 1] {
        Some(c) => assert!(c.write_buf.is_none()),
        None => panic!("connection must stay live"),
    }
}
