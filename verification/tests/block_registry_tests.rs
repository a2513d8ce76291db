use std::collections::HashSet;
use tana_edge::block::BlockContext;
use tana_edge::registry::capability_table;
use tana_edge::text::{hex_string, str_lt};

#[test]
fn mock_context_fields() {
    let ctx = BlockContext::mock(1700000000000);
    assert_eq!(ctx.height, 12345);
    assert_eq!(ctx.timestamp_ms, 1700000000000);
    assert_eq!(ctx.executor, "user_edge_server");
    assert_eq!(ctx.contract_id, "contract_edge");
    assert_eq!(ctx.gas_limit, 1_000_000);
}

#[test]
fn block_hash_is_hex_of_height() {
    let ctx = BlockContext::mock(0);
    assert_eq!(ctx.hash(), "0x3039");
    assert_eq!(ctx.previous_hash(), "0x3038");
}

#[test]
fn hex_rendering_exact() {
    assert_eq!(hex_string(0), "0x0");
    assert_eq!(hex_string(255), "0xff");
    assert_eq!(hex_string(4096), "0x1000");
    assert_eq!(hex_string(u64::MAX), "0xffffffffffffffff");
}

#[test]
fn lexicographic_compare() {
    assert!(str_lt("a", "b"));
    assert!(str_lt("a", "ab"));
    assert!(!str_lt("b", "ab"));
    assert!(!str_lt("a", "a"));
    assert!(str_lt("", "a"));
}

#[test]
fn registry_lists_every_capability_once() {
    let table = capability_table();
    assert_eq!(table.len(), 25);

    let names: HashSet<String> = table.iter().map(|c| c.name.clone()).collect();
    assert_eq!(names.len(), 25);
    assert!(names.contains("op_fetch"));
    assert!(names.contains("op_data_commit"));
    assert!(names.contains("op_tx_execute"));
    assert!(names.contains("op_block_get_height"));

    for cap in &table {
        let asynchronous = matches!(
            cap.name.as_str(),
            "op_fetch" | "op_block_get_balance" | "op_block_get_user" | "op_block_get_transaction"
        );
        assert_eq!(cap.is_async, asynchronous, "capability {}", cap.name);
    }
}
