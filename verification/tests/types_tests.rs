use kbdi::types::{hex_string, InputList, InputListItem};

#[test]
fn item_parse_canonical() {
    let it = InputListItem::parse("0409:A0000409").unwrap();
    assert_eq!(it.lang_id, 0x0409);
    assert_eq!(it.tip_id, 0xA0000409);
}

#[test]
fn item_parse_lowercase() {
    let it = InputListItem::parse("0c39:a0010c39").unwrap();
    assert_eq!(it.lang_id, 0x0c39);
    assert_eq!(it.tip_id, 0xa0010c39);
}

#[test]
fn item_round_trip() {
    let it = InputListItem { lang_id: 0x0409, tip_id: 0xA0000409 };
    let text = it.to_text();
    assert_eq!(text, "0409:A0000409");
    let back = InputListItem::parse(&text).unwrap();
    assert_eq!(back, it);
}

#[test]
fn item_round_trip_extremes() {
    for it in [
        InputListItem { lang_id: 0x0000, tip_id: 0x00000000 },
        InputListItem { lang_id: 0xFFFF, tip_id: 0xFFFFFFFF },
        InputListItem { lang_id: 0x0001, tip_id: 0xA0000001 },
    ] {
        assert_eq!(InputListItem::parse(&it.to_text()), Some(it));
    }
}

#[test]
fn item_parse_rejects_malformed() {
    // Wrong digit counts.
    assert_eq!(InputListItem::parse("409:A0000409"), None);
    assert_eq!(InputListItem::parse("0409:A000040"), None);
    assert_eq!(InputListItem::parse("0409:A00004090"), None);
    assert_eq!(InputListItem::parse(""), None);
    // Misplaced or missing separator.
    assert_eq!(InputListItem::parse("0409xA0000409"), None);
    assert_eq!(InputListItem::parse("04091A0000409"), None);
    // Non-hex characters.
    assert_eq!(InputListItem::parse("04G9:A0000409"), None);
    assert_eq!(InputListItem::parse("0409:A00004Z9"), None);
    // No silent truncation of longer text.
    assert_eq!(InputListItem::parse("0409:A0000409;0410:A0000410"), None);
}

#[test]
fn item_lcid_kbid_text() {
    let it = InputListItem { lang_id: 0x0c39, tip_id: 0xa0010c39 };
    assert_eq!(it.lcid(), "0C39");
    assert_eq!(it.kbid(), "A0010C39");
}

#[test]
fn hex_string_pads_and_widens() {
    assert_eq!(hex_string(0x1A, 4, true), "001A");
    assert_eq!(hex_string(0x1a, 4, false), "001a");
    assert_eq!(hex_string(0, 4, false), "0000");
    // A value wider than the minimum is never truncated.
    assert_eq!(hex_string(0x10000, 4, false), "10000");
    assert_eq!(hex_string(0xA0000409, 8, false), "a0000409");
}

#[test]
fn input_list_parse_all_and_join() {
    let texts = vec!["0409:A0000409".to_string(), "0C39:A0010C39".to_string()];
    let list = InputList::parse_all(&texts).unwrap();
    assert_eq!(list.inner().len(), 2);
    assert_eq!(list.inner()[0].lang_id, 0x0409);
    assert_eq!(list.inner()[1].tip_id, 0xA0010C39);
    assert_eq!(list.to_text(), "0409:A0000409;0C39:A0010C39");
}

#[test]
fn input_list_parse_all_rejects_bad_piece() {
    let texts = vec!["0409:A0000409".to_string(), "bogus".to_string()];
    assert!(InputList::parse_all(&texts).is_none());
}

#[test]
fn input_list_accessors() {
    let items = vec![InputListItem { lang_id: 1, tip_id: 2 }];
    let mut list = InputList::from_items(items);
    assert_eq!(list.inner().len(), 1);
    list.inner_mut().push(InputListItem { lang_id: 3, tip_id: 4 });
    let inner = list.into_inner();
    assert_eq!(inner.len(), 2);
    assert_eq!(inner[1].lang_id, 3);
}
