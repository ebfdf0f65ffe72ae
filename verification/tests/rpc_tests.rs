use json_ipc_server::rpc::{concat_responses, respond_all, RequestHandler};

/// The message-handling collaborator backed by a real `jsonrpc_core` handler.
struct JsonHandler(jsonrpc_core::IoHandler);

impl RequestHandler for JsonHandler {
    fn handle(&self, msg: &Vec<u8>) -> Option<Vec<u8>> {
        self.0
            .handle_request_sync(&String::from_utf8_lossy(msg))
            .map(|s| s.into_bytes())
    }
}

fn dummy_handler() -> JsonHandler {
    let mut io = jsonrpc_core::IoHandler::new();
    io.add_sync_method("say_hello", |params: jsonrpc_core::Params| {
        let (a, b): (u64, u64) = params.parse()?;
        Ok(jsonrpc_core::Value::String(format!("hello {}! you sent {}", a, b)))
    });
    JsonHandler(io)
}

const REQUEST: &str = r#"{"jsonrpc": "2.0", "method": "say_hello", "params": [42, 23], "id": 1}"#;
const RESPONSE: &str = r#"{"jsonrpc":"2.0","result":"hello 42! you sent 23","id":1}"#;

#[test]
fn one_request_one_response() {
    let handler = dummy_handler();
    let msgs = vec![REQUEST.as_bytes().to_vec()];
    let rs = respond_all(&handler, &msgs);
    assert_eq!(rs, vec![Some(RESPONSE.as_bytes().to_vec())]);
}

// Pipelining: N requests in one batch get N answers, in arrival order, and
// the bytes written back are their concatenation in that order.
#[test]
fn pipelined_batch_answers_in_order() {
    let handler = dummy_handler();
    let second =
        r#"{"jsonrpc": "2.0", "method": "say_hello", "params": [7, 9], "id": 2}"#;
    let second_response = r#"{"jsonrpc":"2.0","result":"hello 7! you sent 9","id":2}"#;
    let msgs = vec![REQUEST.as_bytes().to_vec(), second.as_bytes().to_vec()];
    let rs = respond_all(&handler, &msgs);
    assert_eq!(rs.len(), 2);
    assert_eq!(rs[0], Some(RESPONSE.as_bytes().to_vec()));
    assert_eq!(rs[1], Some(second_response.as_bytes().to_vec()));
    let out = concat_responses(&rs);
    let mut expected = RESPONSE.as_bytes().to_vec();
    expected.extend_from_slice(second_response.as_bytes());
    assert_eq!(out, expected);
}

// Notification semantics: a request without an id gets no answer slot
// content, and contributes no bytes.
#[test]
fn notification_is_silent() {
    let handler = dummy_handler();
    let notification =
        r#"{"jsonrpc": "2.0", "method": "say_hello", "params": [1, 2]}"#;
    let msgs = vec![notification.as_bytes().to_vec()];
    let rs = respond_all(&handler, &msgs);
    assert_eq!(rs, vec![None]);
    assert!(concat_responses(&rs).is_empty());
}

// A mixed batch answers only the ordinary requests, in their order.
#[test]
fn mixed_batch_answers_only_calls() {
    let handler = dummy_handler();
    let notification =
        r#"{"jsonrpc": "2.0", "method": "say_hello", "params": [1, 2]}"#;
    let msgs = vec![
        notification.as_bytes().to_vec(),
        REQUEST.as_bytes().to_vec(),
        notification.as_bytes().to_vec(),
    ];
    let rs = respond_all(&handler, &msgs);
    assert_eq!(rs.len(), 3);
    assert!(rs[0].is_none());
    assert!(rs[2].is_none());
    let out = concat_responses(&rs);
    assert_eq!(out, RESPONSE.as_bytes().to_vec());
}

#[test]
fn concat_keeps_order_and_skips_empty_slots() {
    let rs = vec![Some(b"ab".to_vec()), None, Some(b"c".to_vec())];
    assert_eq!(concat_responses(&rs), b"abc".to_vec());
}
