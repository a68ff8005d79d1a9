use sfi_store::auth::{AuthState, UserInfo};
use sfi_store::data::{DataAgent, DataAgentRequest, DataAgentResponse, DataError, Msg};
use sfi_store::ids::Id;

fn logged_in_agent(user_value: u128) -> DataAgent {
    let mut agent = DataAgent::create(None);
    agent.update(Msg::NewAuthState(AuthState::LoggedIn(UserInfo {
        uuid: Id::from_value(user_value),
        name: String::from("user"),
    })));
    agent
}

#[test]
fn create_then_get_returns_new_inventory() {
    let mut agent = logged_in_agent(9);
    let uuid = agent
        .create_inventory(String::from("Pantry"))
        .expect("creation under a logged-in session");
    let inv = agent.get_inventory(uuid).expect("the new inventory exists");
    assert_eq!(inv.uuid, uuid);
    assert_eq!(inv.name, "Pantry");
    assert_eq!(inv.owner, Id::from_value(9));
    assert!(inv.admins.is_empty());
    assert!(inv.writables.is_empty());
    assert!(inv.readables.is_empty());
    assert!(inv.items.is_empty());
}

#[test]
fn unauthenticated_create_is_dropped() {
    let mut agent = DataAgent::create(None);
    assert_eq!(agent.create_inventory(String::from("test")), None);
    assert_eq!(agent.get_inventories().len(), 0);
}

#[test]
fn unauthenticated_create_request_produces_no_effects() {
    let mut agent = DataAgent::create(None);
    agent.connected(3, true);
    let before = agent.get_inventories().len();
    let effects = agent.handle_input(DataAgentRequest::CreateInventory(String::from("test")), 1);
    assert!(effects.responses.is_empty());
    assert!(effects.persist.is_none());
    assert_eq!(agent.get_inventories().len(), before);
}

#[test]
fn get_inventories_is_idempotent() {
    let mut agent = logged_in_agent(4);
    agent.create_inventory(String::from("one")).unwrap();
    agent.create_inventory(String::from("two")).unwrap();
    let first = agent.get_inventories();
    let second = agent.get_inventories();
    assert_eq!(first, second);
}

#[test]
fn create_item_and_unit_keep_back_references() {
    let mut agent = logged_in_agent(2);
    let inv = agent.create_inventory(String::from("Pantry")).unwrap();
    let item = agent
        .create_item(inv, String::from("Milk"), Some(String::from("4001")))
        .expect("item creation");
    let unit = agent
        .create_unit(inv, item, String::from("carton"))
        .expect("unit creation");
    let got = agent.get_item(inv, item).expect("item exists");
    assert_eq!(got.uuid, item);
    assert_eq!(got.inventory_uuid, inv);
    assert_eq!(got.name, "Milk");
    assert_eq!(got.ean, Some(String::from("4001")));
    assert_eq!(got.units.len(), 1);
    assert_eq!(got.units[0].uuid, unit);
    assert_eq!(got.units[0].item_uuid, item);
    assert_eq!(got.units[0].inventory_uuid, inv);
    assert_eq!(got.units[0].name, "carton");
}

#[test]
fn get_item_errors_name_the_missing_identifier() {
    let mut agent = logged_in_agent(2);
    let inv = agent.create_inventory(String::from("Pantry")).unwrap();
    let missing = Id::from_value(123456);
    assert_eq!(
        agent.get_item(missing, missing),
        Err(DataError::InventoryNotFound)
    );
    assert_eq!(agent.get_item(inv, missing), Err(DataError::ItemNotFound));
}

#[test]
fn update_inventory_replaces_details_and_keeps_items() {
    let mut agent = logged_in_agent(2);
    let inv = agent.create_inventory(String::from("Pantry")).unwrap();
    let item = agent
        .create_item(inv, String::from("Milk"), None)
        .expect("item creation");
    let admin = Id::from_value(77);
    let updated = agent.update_inventory(
        inv,
        String::from("Cellar"),
        Id::from_value(8),
        vec![admin],
        vec![],
        vec![],
    );
    assert!(updated);
    let got = agent.get_inventory(inv).unwrap();
    assert_eq!(got.name, "Cellar");
    assert_eq!(got.owner, Id::from_value(8));
    assert_eq!(got.admins, vec![admin]);
    assert_eq!(got.items.len(), 1);
    assert_eq!(got.items[0].uuid, item);
    assert!(!agent.update_inventory(
        Id::from_value(999),
        String::from("x"),
        Id::from_value(1),
        vec![],
        vec![],
        vec![],
    ));
}

#[test]
fn update_item_replaces_name_and_ean_only() {
    let mut agent = logged_in_agent(2);
    let inv = agent.create_inventory(String::from("Pantry")).unwrap();
    let item = agent
        .create_item(inv, String::from("Milk"), Some(String::from("4001")))
        .unwrap();
    let unit = agent.create_unit(inv, item, String::from("carton")).unwrap();
    agent
        .update_item(inv, item, String::from("Oat milk"), None)
        .expect("item exists");
    let got = agent.get_item(inv, item).unwrap();
    assert_eq!(got.name, "Oat milk");
    assert_eq!(got.ean, None);
    assert_eq!(got.uuid, item);
    assert_eq!(got.units.len(), 1);
    assert_eq!(got.units[0].uuid, unit);
    assert_eq!(
        agent.update_item(inv, Id::from_value(5), String::from("x"), None),
        Err(DataError::ItemNotFound)
    );
}

#[test]
fn delete_item_removes_only_that_item() {
    let mut agent = logged_in_agent(2);
    let inv = agent.create_inventory(String::from("Pantry")).unwrap();
    let keep = agent.create_item(inv, String::from("Milk"), None).unwrap();
    let gone = agent.create_item(inv, String::from("Eggs"), None).unwrap();
    agent.delete_item(inv, gone).expect("item exists");
    assert_eq!(agent.get_item(inv, gone), Err(DataError::ItemNotFound));
    assert_eq!(agent.get_item(inv, keep).unwrap().name, "Milk");
}

#[test]
fn delete_inventory_makes_item_lookups_fail() {
    let mut agent = logged_in_agent(2);
    let inv = agent.create_inventory(String::from("Pantry")).unwrap();
    let item = agent.create_item(inv, String::from("Milk"), None).unwrap();
    assert!(agent.delete_inventory(inv));
    assert_eq!(agent.get_inventory(inv), None);
    assert_eq!(agent.get_item(inv, item), Err(DataError::InventoryNotFound));
    assert!(!agent.delete_inventory(inv));
}

#[test]
fn end_to_end_flow() {
    let mut agent = logged_in_agent(11);
    let inventory = agent.create_inventory(String::from("Pantry")).unwrap();
    assert_eq!(
        agent.get_inventory(inventory).unwrap().owner,
        Id::from_value(11)
    );
    let item = agent
        .create_item(inventory, String::from("Milk"), Some(String::from("4001")))
        .unwrap();
    assert_eq!(agent.get_item(inventory, item).unwrap().name, "Milk");
    agent.delete_all_data();
    assert!(agent.get_inventories().is_empty());
}

#[test]
fn make_debug_inventory_works_without_session() {
    let mut agent = DataAgent::create(None);
    let uuid = agent.make_debug_inventory().expect("debug creation");
    let inv = agent.get_inventory(uuid).unwrap();
    assert_eq!(inv.name, "debug inv");
}

#[test]
fn make_debug_inventory_uses_current_user_as_owner() {
    let mut agent = logged_in_agent(21);
    let uuid = agent.make_debug_inventory().expect("debug creation");
    assert_eq!(agent.get_inventory(uuid).unwrap().owner, Id::from_value(21));
}

#[test]
fn mutation_replies_to_requester_and_broadcasts_to_others() {
    let mut agent = logged_in_agent(2);
    agent.connected(1, true);
    agent.connected(6, true);
    agent.connected(8, false);
    let effects = agent.handle_input(DataAgentRequest::CreateInventory(String::from("Pantry")), 1);
    assert_eq!(effects.responses.len(), 2);
    assert_eq!(effects.responses[0].0, 1);
    let uuid = match &effects.responses[0].1 {
        DataAgentResponse::NewInventoryUuid(uuid) => *uuid,
        other => panic!("unexpected direct reply {other:?}"),
    };
    assert_eq!(effects.responses[1].0, 6);
    match &effects.responses[1].1 {
        DataAgentResponse::Inventories(all) => {
            assert_eq!(all.len(), 1);
            assert_eq!(all[0].uuid, uuid);
        }
        other => panic!("unexpected broadcast {other:?}"),
    }
    assert!(effects.persist.is_some());
}

#[test]
fn disconnected_subscriber_receives_no_broadcasts() {
    let mut agent = logged_in_agent(2);
    agent.connected(6, true);
    agent.disconnected(6);
    let effects = agent.handle_input(DataAgentRequest::CreateInventory(String::from("Pantry")), 1);
    assert_eq!(effects.responses.len(), 1);
    assert_eq!(effects.responses[0].0, 1);
}

#[test]
fn read_requests_answer_the_requester_only() {
    let mut agent = logged_in_agent(2);
    agent.connected(6, true);
    let inv = agent.create_inventory(String::from("Pantry")).unwrap();
    let effects = agent.handle_input(DataAgentRequest::GetInventory(inv), 9);
    assert_eq!(effects.responses.len(), 1);
    assert_eq!(effects.responses[0].0, 9);
    assert!(effects.persist.is_none());
    match &effects.responses[0].1 {
        DataAgentResponse::Inventory(found) => assert_eq!(found.uuid, inv),
        other => panic!("unexpected reply {other:?}"),
    }
    let missing = agent.handle_input(DataAgentRequest::GetInventory(Id::from_value(424242)), 9);
    assert_eq!(
        missing.responses,
        vec![(9, DataAgentResponse::InvalidInventoryUuid)]
    );
}

#[test]
fn item_requests_report_which_identifier_is_invalid() {
    let mut agent = logged_in_agent(2);
    let inv = agent.create_inventory(String::from("Pantry")).unwrap();
    let bad = Id::from_value(31337);
    let effects = agent.handle_input(DataAgentRequest::GetItem(bad, bad), 4);
    assert_eq!(
        effects.responses,
        vec![(4, DataAgentResponse::InvalidInventoryUuid)]
    );
    let effects = agent.handle_input(DataAgentRequest::GetItem(inv, bad), 4);
    assert_eq!(
        effects.responses,
        vec![(4, DataAgentResponse::InvalidItemUuid)]
    );
    let effects = agent.handle_input(DataAgentRequest::CreateUnit(inv, bad, String::from("u")), 4);
    assert_eq!(
        effects.responses,
        vec![(4, DataAgentResponse::InvalidItemUuid)]
    );
}

#[test]
fn every_mutation_persists_the_new_collection() {
    let mut agent = logged_in_agent(2);
    let effects = agent.handle_input(DataAgentRequest::CreateInventory(String::from("Pantry")), 1);
    let persisted = effects.persist.expect("mutation persists");
    let reloaded = DataAgent::load_stored(Some(&persisted));
    assert_eq!(reloaded.get_inventories(), agent.get_inventories());
    let effects = agent.handle_input(DataAgentRequest::DeleteAllData, 1);
    let persisted = effects.persist.expect("reset persists");
    let reloaded = DataAgent::load_stored(Some(&persisted));
    assert!(reloaded.get_inventories().is_empty());
}

#[test]
fn update_requests_confirm_and_broadcast() {
    let mut agent = logged_in_agent(2);
    agent.connected(6, true);
    let inv = agent.create_inventory(String::from("Pantry")).unwrap();
    let item = agent.create_item(inv, String::from("Milk"), None).unwrap();
    let effects = agent.handle_input(
        DataAgentRequest::UpdateInventory {
            uuid: inv,
            name: String::from("Cellar"),
            owner: Id::from_value(2),
            admins: vec![],
            writables: vec![],
            readables: vec![],
        },
        9,
    );
    assert_eq!(effects.responses.len(), 2);
    assert_eq!(
        effects.responses[0],
        (9, DataAgentResponse::UpdatedInventory(inv))
    );
    assert_eq!(effects.responses[1].0, 6);
    assert!(effects.persist.is_some());
    let effects = agent.handle_input(
        DataAgentRequest::UpdateItem(inv, item, String::from("Oat milk"), None),
        9,
    );
    assert_eq!(effects.responses[0], (9, DataAgentResponse::UpdatedItem));
    let effects = agent.handle_input(DataAgentRequest::DeleteItem(inv, item), 9);
    assert_eq!(
        effects.responses[0],
        (9, DataAgentResponse::DeletedItem(item))
    );
    let effects = agent.handle_input(DataAgentRequest::DeleteInventory(inv), 9);
    assert_eq!(
        effects.responses[0],
        (9, DataAgentResponse::DeletedInventory(inv))
    );
    assert!(agent.get_inventories().is_empty());
}

#[test]
fn persisted_text_matches_the_current_collection() {
    let mut agent = logged_in_agent(2);
    let effects = agent.handle_input(DataAgentRequest::MakeDebugInventory, 1);
    let persisted = effects.persist.expect("mutation persists");
    assert_eq!(
        persisted,
        sfi_store::codec::encode_snapshot(&agent.get_inventories())
    );
}

#[test]
fn empty_ean_counts_as_absent() {
    let mut agent = logged_in_agent(2);
    let inv = agent.create_inventory(String::from("Pantry")).unwrap();
    let item = agent
        .create_item(inv, String::from("Milk"), Some(String::new()))
        .unwrap();
    assert_eq!(agent.get_item(inv, item).unwrap().ean, None);
    agent
        .update_item(inv, item, String::from("Milk"), Some(String::from("")))
        .unwrap();
    assert_eq!(agent.get_item(inv, item).unwrap().ean, None);
    agent
        .update_item(inv, item, String::from("Milk"), Some(String::from("4001")))
        .unwrap();
    assert_eq!(
        agent.get_item(inv, item).unwrap().ean,
        Some(String::from("4001"))
    );
}
