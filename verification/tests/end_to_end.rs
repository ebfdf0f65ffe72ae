use json_ipc_server::connection::Interest;
use json_ipc_server::dispatch::{EventOutcome, ReadInput};
use json_ipc_server::rpc::RequestHandler;
use json_ipc_server::table::ConnTable;

/// The message-handling collaborator backed by a real `jsonrpc_core`
/// handler that echoes a fixed string for `say_hello`.
struct FixedHello(jsonrpc_core::IoHandler);

impl RequestHandler for FixedHello {
    fn handle(&self, msg: &Vec<u8>) -> Option<Vec<u8>> {
        self.0
            .handle_request_sync(&String::from_utf8_lossy(msg))
            .map(|s| s.into_bytes())
    }
}

fn fixed_hello() -> FixedHello {
    let mut io =
        jsonrpc_core::IoHandler::with_compatibility(jsonrpc_core::Compatibility::Both);
    io.add_sync_method("say_hello", |_params: jsonrpc_core::Params| {
        Ok(jsonrpc_core::Value::String("hello".to_string()))
    });
    FixedHello(io)
}

// End to end through the library: one request on a fresh connection yields
// exactly one response text, no extra bytes, and the connection is open and
// awaiting the next request afterwards.
#[test]
fn say_hello_round_trip() {
    let handler = fixed_hello();
    let mut table = ConnTable::new(8);
    let tok = table
        .try_accept(json_ipc_server::connection::Connection::new())
        .ok()
        .expect("a fresh table has room");

    let request = br#"{"id":1,"method":"say_hello","params":[]}"#.to_vec();
    let outcome = table.on_readable(tok, ReadInput::Data(request), &handler);
    assert_eq!(outcome, EventOutcome::Rearm(Interest::Writable));

    let chunk = table.next_write_chunk(tok).expect("connection is live");
    let expected = br#"{"result":"hello","id":1}"#.to_vec();
    assert_eq!(chunk, expected, "exactly one response text, no extra bytes");

    let drained = table.on_written(tok, chunk.len());
    assert_eq!(drained, EventOutcome::Rearm(Interest::Readable));

    // Still open: the next request on the same connection is answered too.
    let outcome = table.on_readable(
        tok,
        ReadInput::Data(br#"{"id":2,"method":"say_hello","params":[]}"#.to_vec()),
        &handler,
    );
    assert_eq!(outcome, EventOutcome::Rearm(Interest::Writable));
    let chunk = table.next_write_chunk(tok).expect("connection is live");
    assert_eq!(chunk, br#"{"result":"hello","id":2}"#.to_vec());
}
