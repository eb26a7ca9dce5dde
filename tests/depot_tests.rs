use salvo_core_runtime::depot::{Depot, DepotValue};

fn key(s: &str) -> String {
    s.to_string()
}

#[test]
fn insert_then_get_text() {
    let mut d = Depot::new();
    d.insert(key("current_user"), DepotValue::Text("Elon Musk".to_string()));
    assert_eq!(d.get_text(&key("current_user")), Some("Elon Musk".to_string()));
    assert_eq!(d.get_text(&key("other")), None);
}

#[test]
fn insert_replaces_value() {
    let mut d = Depot::new();
    d.insert(key("n"), DepotValue::Number(1));
    d.insert(key("n"), DepotValue::Number(2));
    assert!(matches!(d.get(&key("n")), Some(DepotValue::Number(2))));
}

#[test]
fn wrong_shape_reads_none() {
    let mut d = Depot::new();
    d.insert(key("flag"), DepotValue::Flag(true));
    assert_eq!(d.get_text(&key("flag")), None);
    assert!(matches!(d.get(&key("flag")), Some(DepotValue::Flag(true))));
    let copy = d.get(&key("flag")).unwrap().duplicate();
    assert!(matches!(copy, DepotValue::Flag(true)));
}
