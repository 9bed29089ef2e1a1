use photon_meter::item_table::{load_item_table, parse_item_line};

#[test]
fn lines_read_as_id_and_name() {
    assert_eq!(parse_item_line(&b"0,UNIQUE_HIDEOUT".to_vec()), Some((0, "UNIQUE_HIDEOUT".to_string())));
    assert_eq!(parse_item_line(&b"+12,T1_FARM_CARROT_SEED,extra".to_vec()), Some((12, "T1_FARM_CARROT_SEED".to_string())));
    assert_eq!(parse_item_line(&b"4294967295,MAX".to_vec()), Some((u32::MAX, "MAX".to_string())));
    assert_eq!(parse_item_line(&b"7,".to_vec()), Some((7, String::new())));
}

#[test]
fn malformed_lines_are_skipped() {
    assert_eq!(parse_item_line(&b"no comma".to_vec()), None);
    assert_eq!(parse_item_line(&b",NAME".to_vec()), None);
    assert_eq!(parse_item_line(&b"12a,NAME".to_vec()), None);
    assert_eq!(parse_item_line(&b"4294967296,TOO_BIG".to_vec()), None);
    assert_eq!(parse_item_line(&b"".to_vec()), None);
    assert_eq!(parse_item_line(&vec![b'1', b',', 0xFF]), None);
}

#[test]
fn table_takes_every_line_and_later_wins() {
    let text = b"1,A\n2,B\nbad\n1,C\n3,D".to_vec();
    let db = load_item_table(&text);
    assert_eq!(db.get(1), Some("C".to_string()));
    assert_eq!(db.get(2), Some("B".to_string()));
    assert_eq!(db.get(3), Some("D".to_string()));
    assert_eq!(db.get(4), None);
}

#[test]
fn mod_test_itemdb_generation() {
    let db = load_item_table(&b"0,UNIQUE_HIDEOUT\n1,T1_FARM_CARROT_SEED".to_vec());
    assert_eq!(db.get(0), Some("UNIQUE_HIDEOUT".to_string()));
    assert_eq!(db.get(1), Some("T1_FARM_CARROT_SEED".to_string()));
}
