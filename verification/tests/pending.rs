use lsp_client::pending::{Delivery, PendingTable};
use serde_json::Value;

fn response(id: u64) -> Value {
    serde_json::from_str(&format!("{{\"jsonrpc\":\"2.0\",\"result\":\"r{}\",\"id\":{}}}", id, id)).unwrap()
}

#[test]
fn register_then_resolve() {
    let mut table: PendingTable<&str> = PendingTable::new();
    assert_eq!(0, table.len());
    assert_eq!(Ok(()), table.register(1, "one"));
    assert!(table.is_pending(1));
    assert_eq!(1, table.len());
    assert_eq!(Ok(Delivery { handle: "one", value: response(1) }), table.resolve(1, response(1)));
    assert!(!table.is_pending(1));
    assert_eq!(0, table.len());
}

#[test]
fn register_refuses_a_live_id() {
    let mut table: PendingTable<&str> = PendingTable::new();
    assert_eq!(Ok(()), table.register(5, "first"));
    assert_eq!(Err("second"), table.register(5, "second"));
    assert_eq!(1, table.len());
    assert_eq!(Ok(Delivery { handle: "first", value: response(5) }), table.resolve(5, response(5)));
    assert_eq!(Ok(()), table.register(5, "third"));
}

#[test]
fn resolve_is_single_use() {
    let mut table: PendingTable<u32> = PendingTable::new();
    table.register(3, 30).unwrap();
    assert!(table.resolve(3, response(3)).is_ok());
    assert_eq!(Err(response(3)), table.resolve(3, response(3)));
}

#[test]
fn responses_in_any_order_reach_their_own_handle() {
    let orders: [[u64; 4]; 4] = [[1, 2, 3, 4], [4, 3, 2, 1], [2, 4, 1, 3], [3, 1, 4, 2]];
    for order in orders.iter() {
        let mut table: PendingTable<String> = PendingTable::new();
        for id in 1..=4u64 {
            assert_eq!(Ok(()), table.register(id, format!("caller-{}", id)));
        }
        for id in order.iter() {
            assert_eq!(
                Ok(Delivery { handle: format!("caller-{}", id), value: response(*id) }),
                table.resolve(*id, response(*id))
            );
        }
        assert_eq!(0, table.len());
    }
}

#[test]
fn unknown_id_disturbs_nothing() {
    let mut table: PendingTable<&str> = PendingTable::new();
    table.register(1, "one").unwrap();
    table.register(2, "two").unwrap();
    assert_eq!(Err(response(99)), table.resolve(99, response(99)));
    assert_eq!(2, table.len());
    assert!(table.is_pending(1));
    assert!(table.is_pending(2));
    assert_eq!(Ok(Delivery { handle: "two", value: response(2) }), table.resolve(2, response(2)));
    assert_eq!(Ok(Delivery { handle: "one", value: response(1) }), table.resolve(1, response(1)));
}
