use snjs_core::cmds;
use snjs_core::error::CoreError;
use snjs_core::ops::{OpTable, Route, CATALOG_OP_NAME};

fn foo_handler() -> &'static [u8] {
    b"oof!"
}

fn bar_handler() -> &'static [u8] {
    b"rab!"
}

fn call(table: &OpTable, handlers: &[fn() -> &'static [u8]], id: usize) -> Vec<u8> {
    match table.route_op(id as i64) {
        Ok(Route::Handler(i)) => handlers[i - 1]().to_vec(),
        _ => panic!("unexpected route"),
    }
}

#[test]
fn op_table() {
    let mut op_table = OpTable::new();
    let foo_id = op_table.register_op("foo");
    assert_eq!(foo_id, 1);
    let bar_id = op_table.register_op("bar");
    assert_eq!(bar_id, 2);
    let handlers: Vec<fn() -> &'static [u8]> = vec![foo_handler, bar_handler];

    let foo_res = call(&op_table, &handlers, foo_id);
    assert!(&*foo_res == b"oof!");
    let bar_res = call(&op_table, &handlers, bar_id);
    assert!(&*bar_res == b"rab!");

    let mut catalog_entries = match op_table.route_op(0) {
        Ok(Route::Catalog(entries)) => entries,
        _ => panic!("unexpected `Op` variant"),
    };
    catalog_entries.sort_by(|(_, id1), (_, id2)| id1.partial_cmp(id2).unwrap());
    assert_eq!(
        catalog_entries,
        vec![
            ("ops".to_owned(), 0),
            ("foo".to_owned(), 1),
            ("bar".to_owned(), 2)
        ]
    )
}

#[test]
fn registration_ids_follow_call_order() {
    let mut t = OpTable::new();
    let names = ["a", "b", "c", "d", "e"];
    for (k, n) in names.iter().enumerate() {
        assert_eq!(t.register_op(n), k + 1);
    }
    assert_eq!(t.len(), 6);
    let cat = t.catalog();
    assert_eq!(cat[0], (CATALOG_OP_NAME.to_owned(), 0));
    for (k, n) in names.iter().enumerate() {
        assert_eq!(cat[k + 1], (n.to_string(), k + 1));
    }
}

#[test]
fn unknown_op_ids_are_rejected() {
    let mut t = OpTable::new();
    t.register_op("only");
    for bad in [-1i64, 2, 3, i64::MAX, i64::MIN] {
        match t.route_op(bad) {
            Err(CoreError::UnknownOp { id }) => assert_eq!(id, bad),
            _ => panic!("expected an unknown-op error for {}", bad),
        }
    }
    assert_eq!(t.len(), 2);
    assert_eq!(t.id_of("only"), Some(1));
}

#[test]
fn catalog_of_fresh_table_holds_itself() {
    let t = OpTable::new();
    match t.route_op(0) {
        Ok(Route::Catalog(c)) => assert_eq!(c, vec![("ops".to_owned(), 0)]),
        _ => panic!("expected the catalog"),
    }
    assert_eq!(t.id_of("ops"), Some(0));
    assert_eq!(t.id_of("missing"), None);
}

#[test]
fn command_groups_register_their_ops() {
    let mut t = OpTable::new();
    cmds::errors::init(&mut t);
    assert_eq!(t.id_of("op_apply_source_map"), Some(1));
    assert_eq!(t.id_of("op_format_diagnostic"), Some(2));
    cmds::os::init(&mut t);
    assert_eq!(t.id_of("op_exit"), Some(3));
    assert_eq!(t.id_of("op_v8_memory_info"), Some(14));
    assert_eq!(t.len(), 15);
}

#[test]
fn register_all_appends_in_order() {
    let mut t = OpTable::new();
    t.register_all(&["x", "y"]);
    assert_eq!(t.id_of("x"), Some(1));
    assert_eq!(t.id_of("y"), Some(2));
}

#[test]
fn bus_tls_and_inspector_groups_register_in_order() {
    let mut t = OpTable::new();
    cmds::skynet::init(&mut t);
    assert_eq!(t.id_of("op_skynet_command"), Some(1));
    assert_eq!(t.id_of("op_skynet_socket_nodelay"), Some(22));
    cmds::tls::init(&mut t);
    assert_eq!(t.id_of("op_tls_new_ctx"), Some(23));
    assert_eq!(t.id_of("op_tls_ssl_read"), Some(33));
    cmds::inspect::init(&mut t);
    assert_eq!(t.id_of("op_v8inspector_disconnect"), Some(35));
    assert_eq!(t.len(), 36);
}
