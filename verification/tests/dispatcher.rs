use lsp_client::dispatcher::{dispatch, DispatchError};
use lsp_client::pending::PendingTable;
use lsp_client::protocol::{decode, Decoded};
use serde_json::Value;

fn json(text: &str) -> Value {
    serde_json::from_str(text).unwrap()
}

#[test]
fn notification_creates_no_entry() {
    let mut table: PendingTable<&str> = PendingTable::new();
    let exit = json("{\"jsonrpc\":\"2.0\",\"method\":\"exit\",\"params\":{}}");
    let bytes = dispatch(&mut table, &exit, None).unwrap();
    assert_eq!(0, table.len());
    assert_eq!(Decoded::Message { value: exit, consumed: bytes.len() }, decode(&bytes));
}

#[test]
fn notification_with_an_id_creates_no_entry_either() {
    let mut table: PendingTable<&str> = PendingTable::new();
    let envelope = json("{\"jsonrpc\":\"2.0\",\"method\":\"m\",\"params\":null,\"id\":4}");
    assert!(dispatch(&mut table, &envelope, None).is_ok());
    assert!(!table.is_pending(4));
}

#[test]
fn request_is_registered_and_framed() {
    let mut table: PendingTable<&str> = PendingTable::new();
    let request = json("{\"jsonrpc\":\"2.0\",\"method\":\"initialize\",\"params\":{},\"id\":1}");
    let bytes = dispatch(&mut table, &request, Some("caller")).unwrap();
    assert!(table.is_pending(1));
    assert_eq!(1, table.len());
    assert_eq!(
        "Content-Length: 58\r\n\r\n{\"id\":1,\"jsonrpc\":\"2.0\",\"method\":\"initialize\",\"params\":{}}".as_bytes(),
        &bytes[..]
    );
}

#[test]
fn request_without_a_usable_id_is_refused() {
    let mut table: PendingTable<&str> = PendingTable::new();
    for text in ["{\"method\":\"m\"}", "{\"method\":\"m\",\"id\":null}", "{\"method\":\"m\",\"id\":\"1\"}"] {
        match dispatch(&mut table, &json(text), Some("caller")) {
            Err(DispatchError::MissingId { handle }) => assert_eq!("caller", handle),
            other => panic!("{}: {:?}", text, other),
        }
    }
    assert_eq!(0, table.len());
}

#[test]
fn request_under_a_pending_id_is_refused() {
    let mut table: PendingTable<&str> = PendingTable::new();
    let request = json("{\"method\":\"m\",\"id\":8}");
    assert!(dispatch(&mut table, &request, Some("first")).is_ok());
    match dispatch(&mut table, &request, Some("second")) {
        Err(DispatchError::DuplicateId { id, handle }) => {
            assert_eq!(8, id);
            assert_eq!("second", handle);
        }
        other => panic!("{:?}", other),
    }
    assert_eq!(1, table.len());
    assert_eq!("first", table.resolve(8, json("{\"id\":8}")).unwrap().handle);
}

#[test]
fn units_keep_their_order() {
    let mut table: PendingTable<u64> = PendingTable::new();
    let mut written = Vec::new();
    for id in [3u64, 1, 2] {
        let request = json(&format!("{{\"method\":\"m\",\"id\":{}}}", id));
        written.extend_from_slice(&dispatch(&mut table, &request, Some(id)).unwrap());
    }
    let mut ids = Vec::new();
    let mut at = 0;
    while at < written.len() {
        match decode(&written[at..]) {
            Decoded::Message { value, consumed } => {
                ids.push(value.get("id").unwrap().as_u64().unwrap());
                at += consumed;
            }
            other => panic!("{:?}", other),
        }
    }
    assert_eq!(vec![3, 1, 2], ids);
}
