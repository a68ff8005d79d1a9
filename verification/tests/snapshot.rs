use sfi_store::codec::{decode_snapshot, encode_snapshot};
use sfi_store::data::DataAgent;
use sfi_store::domain::{Inventory, Item, Unit};
use sfi_store::ids::Id;

fn sample_collection() -> Vec<Inventory> {
    let inv_id = Id::from_value(7);
    let item_id = Id::from_value(8);
    vec![
        Inventory {
            uuid: inv_id,
            name: String::from("He said \"hi\" \\ bye, [brackets]"),
            owner: Id::from_value(9),
            admins: vec![Id::from_value(1), Id::from_value(2)],
            writables: vec![Id::from_value(3)],
            readables: vec![],
            items: vec![
                Item {
                    uuid: item_id,
                    inventory_uuid: inv_id,
                    name: String::from("Milk"),
                    ean: Some(String::from("4001")),
                    units: vec![
                        Unit {
                            uuid: Id::from_value(20),
                            item_uuid: item_id,
                            inventory_uuid: inv_id,
                            name: String::from("carton"),
                        },
                        Unit {
                            uuid: Id::from_value(21),
                            item_uuid: item_id,
                            inventory_uuid: inv_id,
                            name: String::from("bottle"),
                        },
                    ],
                },
                Item {
                    uuid: Id::from_value(10),
                    inventory_uuid: inv_id,
                    name: String::from("Eggs"),
                    ean: None,
                    units: vec![],
                },
            ],
        },
        Inventory {
            uuid: Id::from_value(340282366920938463463374607431768211455),
            name: String::from("Größeres Lager"),
            owner: Id::from_value(0),
            admins: vec![],
            writables: vec![],
            readables: vec![],
            items: vec![],
        },
    ]
}

#[test]
fn round_trip_reproduces_the_collection() {
    let original = sample_collection();
    let text = encode_snapshot(&original);
    let decoded = decode_snapshot(&text).expect("own snapshot decodes");
    assert_eq!(decoded, original);
}

#[test]
fn empty_collection_encodes_as_empty_array() {
    assert_eq!(encode_snapshot(&vec![]), "[]");
}

#[test]
fn one_inventory_has_the_documented_layout() {
    let collection = vec![Inventory {
        uuid: Id::from_value(1),
        name: String::from("a"),
        owner: Id::from_value(2),
        admins: vec![],
        writables: vec![],
        readables: vec![],
        items: vec![],
    }];
    assert_eq!(encode_snapshot(&collection), "[[1,\"a\",2,[],[],[],[]]]");
}

#[test]
fn documented_layout_decodes_back() {
    let decoded = decode_snapshot("[[1,\"a\",2,[],[],[],[]]]").expect("well-shaped text");
    assert_eq!(decoded.len(), 1);
    assert_eq!(decoded[0].uuid, Id::from_value(1));
    assert_eq!(decoded[0].name, "a");
    assert_eq!(decoded[0].owner, Id::from_value(2));
    assert!(decoded[0].items.is_empty());
}

#[test]
fn foreign_or_broken_text_is_rejected() {
    assert_eq!(decode_snapshot(""), None);
    assert_eq!(decode_snapshot("not a snapshot"), None);
    assert_eq!(decode_snapshot("["), None);
    assert_eq!(decode_snapshot("{}"), None);
    assert_eq!(decode_snapshot("[[1,\"a\",2,[],[],[]]]"), None);
    assert_eq!(decode_snapshot("[] trailing"), None);
    // An identifier beyond the 128-bit range is rejected, not wrapped.
    assert_eq!(
        decode_snapshot("[[340282366920938463463374607431768211456,\"a\",2,[],[],[],[]]]"),
        None
    );
}

#[test]
fn load_accepts_own_snapshot_and_rejects_corrupt_entries() {
    let original = sample_collection();
    let text = encode_snapshot(&original);
    let agent = DataAgent::load_stored(Some(&text));
    assert_eq!(agent.get_inventories(), original);
    assert!(DataAgent::load_stored(Some("garbage"))
        .get_inventories()
        .is_empty());
    assert!(DataAgent::load_stored(None).get_inventories().is_empty());
}

#[test]
fn load_rejects_collections_that_break_the_invariant() {
    // Well-shaped text, but the item points at inventory 99 instead of 1.
    let text = "[[1,\"a\",2,[],[],[],[[5,99,\"x\",null,[]]]]]";
    assert!(decode_snapshot(text).is_some());
    let agent = DataAgent::load_stored(Some(text));
    assert!(agent.get_inventories().is_empty());
    // Two inventories under the same identifier are likewise rejected.
    let dup = "[[1,\"a\",2,[],[],[],[]],[1,\"b\",2,[],[],[],[]]]";
    assert!(decode_snapshot(dup).is_some());
    assert!(DataAgent::load_stored(Some(dup)).get_inventories().is_empty());
}

#[test]
fn names_are_escaped_in_the_snapshot_text() {
    let collection = vec![Inventory {
        uuid: Id::from_value(1),
        name: String::from("a\"b\\c"),
        owner: Id::from_value(2),
        admins: vec![],
        writables: vec![],
        readables: vec![],
        items: vec![],
    }];
    assert_eq!(
        encode_snapshot(&collection),
        "[[1,\"a\\\"b\\\\c\",2,[],[],[],[]]]"
    );
}

#[test]
fn nested_records_have_the_documented_layout() {
    let text = "[[1,\"p\",2,[3],[],[],[[4,1,\"m\",\"4001\",[[5,4,1,\"u\"]]]]]]";
    let decoded = decode_snapshot(text).expect("well-shaped text");
    assert_eq!(encode_snapshot(&decoded), text);
    assert_eq!(decoded[0].items[0].units[0].name, "u");
    assert_eq!(decoded[0].items[0].ean, Some(String::from("4001")));
}
