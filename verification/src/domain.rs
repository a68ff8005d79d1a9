//! The domain model: inventories, their items, and the units inside items.
//!
//! Entities are plain data plus constructors. An item carries the identifier
//! of its containing inventory, and a unit carries the identifiers of both
//! its item and its inventory; well-formedness of a collection says that all
//! of these back-references agree with the containers and that identifiers
//! are unique within their scope.

use vstd::prelude::*;

use crate::ids::{fresh_id, Id};

verus! {

/// One trackable physical instance belonging to an item.
#[derive(Debug, PartialEq)]
pub struct Unit {
    pub uuid: Id,
    pub item_uuid: Id,
    pub inventory_uuid: Id,
    pub name: String,
}

/// The mathematical value of a [`Unit`].
#[verifier::ext_equal]
pub ghost struct UnitView {
    pub uuid: Id,
    pub item_uuid: Id,
    pub inventory_uuid: Id,
    pub name: Seq<char>,
}

impl View for Unit {
    type V = UnitView;

    open spec fn view(&self) -> UnitView {
        UnitView {
            uuid: self.uuid,
            item_uuid: self.item_uuid,
            inventory_uuid: self.inventory_uuid,
            name: self.name@,
        }
    }
}

/// A distinct product type within an inventory, with an optional EAN code
/// and an ordered collection of units.
#[derive(Debug, PartialEq)]
pub struct Item {
    pub uuid: Id,
    pub inventory_uuid: Id,
    pub name: String,
    pub ean: Option<String>,
    pub units: Vec<Unit>,
}

/// The mathematical value of an [`Item`].
#[verifier::ext_equal]
pub ghost struct ItemView {
    pub uuid: Id,
    pub inventory_uuid: Id,
    pub name: Seq<char>,
    pub ean: Option<Seq<char>>,
    pub units: Seq<UnitView>,
}

/// The mathematical value of an optional text field.
pub open spec fn opt_text_view(o: Option<String>) -> Option<Seq<char>> {
    match o {
        Some(s) => Some(s@),
        None => None,
    }
}

/// An EAN code is validated only for non-emptiness when present: an empty
/// code counts as absent.
pub open spec fn normalize_ean(o: Option<Seq<char>>) -> Option<Seq<char>> {
    match o {
        Some(s) => if s.len() == 0 {
            None
        } else {
            Some(s)
        },
        None => None,
    }
}

impl View for Item {
    type V = ItemView;

    open spec fn view(&self) -> ItemView {
        ItemView {
            uuid: self.uuid,
            inventory_uuid: self.inventory_uuid,
            name: self.name@,
            ean: opt_text_view(self.ean),
            units: self.units@.map_values(|u: Unit| u@),
        }
    }
}

/// A named container of items, with an owner and three access tiers.
#[derive(Debug, PartialEq)]
pub struct Inventory {
    pub uuid: Id,
    pub name: String,
    pub owner: Id,
    pub admins: Vec<Id>,
    pub writables: Vec<Id>,
    pub readables: Vec<Id>,
    pub items: Vec<Item>,
}

/// The mathematical value of an [`Inventory`].
#[verifier::ext_equal]
pub ghost struct InventoryView {
    pub uuid: Id,
    pub name: Seq<char>,
    pub owner: Id,
    pub admins: Seq<Id>,
    pub writables: Seq<Id>,
    pub readables: Seq<Id>,
    pub items: Seq<ItemView>,
}

impl View for Inventory {
    type V = InventoryView;

    open spec fn view(&self) -> InventoryView {
        InventoryView {
            uuid: self.uuid,
            name: self.name@,
            owner: self.owner,
            admins: self.admins@,
            writables: self.writables@,
            readables: self.readables@,
            items: self.items@.map_values(|i: Item| i@),
        }
    }
}

/// The mathematical value of a whole collection of inventories.
pub open spec fn inventories_view(invs: Seq<Inventory>) -> Seq<InventoryView> {
    invs.map_values(|i: Inventory| i@)
}

/// The mathematical value of a list of items.
pub open spec fn items_view(items: Seq<Item>) -> Seq<ItemView> {
    items.map_values(|i: Item| i@)
}

/// Whether a unit belongs, by its back-references, to the given item of the
/// given inventory.
pub open spec fn unit_belongs(u: UnitView, item_uuid: Id, inventory_uuid: Id) -> bool {
    &&& u.item_uuid == item_uuid
    &&& u.inventory_uuid == inventory_uuid
}

/// Whether an item is internally consistent: every unit points back at the
/// item and at the item's inventory, and unit identifiers are unique.
pub open spec fn item_wf(it: ItemView) -> bool {
    &&& forall|k: int| 0 <= k < it.units.len() ==> unit_belongs(#[trigger] it.units[k], it.uuid, it.inventory_uuid)
    &&& forall|k: int, l: int| 0 <= k < l < it.units.len() ==> it.units[k].uuid != it.units[l].uuid
}

/// Whether an inventory is internally consistent: every item points back at
/// the inventory, item identifiers are unique, and every item is itself
/// well-formed.
pub open spec fn inventory_wf(inv: InventoryView) -> bool {
    &&& forall|k: int| 0 <= k < inv.items.len() ==> (#[trigger] inv.items[k]).inventory_uuid == inv.uuid
    &&& forall|k: int| 0 <= k < inv.items.len() ==> item_wf(#[trigger] inv.items[k])
    &&& forall|k: int, l: int| 0 <= k < l < inv.items.len() ==> inv.items[k].uuid != inv.items[l].uuid
}

/// Whether a collection of inventories is well-formed: inventory identifiers
/// are unique and every inventory is well-formed.
pub open spec fn collection_wf(s: Seq<InventoryView>) -> bool {
    &&& forall|k: int| 0 <= k < s.len() ==> inventory_wf(#[trigger] s[k])
    &&& forall|k: int, l: int| 0 <= k < l < s.len() ==> s[k].uuid != s[l].uuid
}

impl Unit {
    /// Creates a unit for the given item of the given inventory, under a
    /// freshly drawn identifier.
    pub fn new(item_uuid: Id, inventory_uuid: Id, name: String) -> (r: Unit)
        ensures
            r@ == (UnitView { uuid: r.uuid, item_uuid, inventory_uuid, name: name@ }),
    {
        Unit { uuid: fresh_id(), item_uuid, inventory_uuid, name }
    }
}

impl Clone for Unit {
    fn clone(&self) -> (r: Self)
        ensures
            r == *self,
    {
        Unit {
            uuid: self.uuid,
            item_uuid: self.item_uuid,
            inventory_uuid: self.inventory_uuid,
            name: self.name.clone(),
        }
    }
}

impl Item {
    /// Creates an item for the given inventory, under a freshly drawn
    /// identifier, with no units.
    pub fn new(inventory_uuid: Id, name: String, ean: Option<String>) -> (r: Item)
        ensures
            r@ == (ItemView {
                uuid: r.uuid,
                inventory_uuid,
                name: name@,
                ean: normalize_ean(opt_text_view(ean)),
                units: Seq::<UnitView>::empty(),
            }),
            item_wf(r@),
    {
        let ean = match ean {
            Some(code) => if code.as_str().is_empty() {
                None
            } else {
                Some(code)
            },
            None => None,
        };
        let it = Item { uuid: fresh_id(), inventory_uuid, name, ean, units: Vec::new() };
        proof {
            assert(it.units@.map_values(|u: Unit| u@) =~= Seq::<UnitView>::empty());
        }
        it
    }
}

impl Clone for Item {
    fn clone(&self) -> (r: Self)
        ensures
            r@ == self@,
    {
        let units = clone_units(&self.units);
        let r = Item {
            uuid: self.uuid,
            inventory_uuid: self.inventory_uuid,
            name: self.name.clone(),
            ean: (match &self.ean {
                Some(s) => Some(s.clone()),
                None => None,
            }),
            units,
        };
        proof {
            assert(r@.units =~= self@.units);
            assert(r@ =~= self@);
        }
        r
    }
}

impl Inventory {
    /// Creates an inventory owned by the given user, under a freshly drawn
    /// identifier, with empty access tiers and no items.
    pub fn new(name: String, owner: Id) -> (r: Inventory)
        ensures
            r@ == (InventoryView {
                uuid: r.uuid,
                name: name@,
                owner,
                admins: Seq::<Id>::empty(),
                writables: Seq::<Id>::empty(),
                readables: Seq::<Id>::empty(),
                items: Seq::<ItemView>::empty(),
            }),
            inventory_wf(r@),
    {
        let inv = Inventory {
            uuid: fresh_id(),
            name,
            owner,
            admins: Vec::new(),
            writables: Vec::new(),
            readables: Vec::new(),
            items: Vec::new(),
        };
        proof {
            assert(inv.items@.map_values(|i: Item| i@) =~= Seq::<ItemView>::empty());
        }
        inv
    }
}

impl Clone for Inventory {
    fn clone(&self) -> (r: Self)
        ensures
            r@ == self@,
    {
        let r = Inventory {
            uuid: self.uuid,
            name: self.name.clone(),
            owner: self.owner,
            admins: clone_ids(&self.admins),
            writables: clone_ids(&self.writables),
            readables: clone_ids(&self.readables),
            items: clone_items(&self.items),
        };
        proof {
            assert(r@.items =~= self@.items);
            assert(r@ =~= self@);
        }
        r
    }
}

/// Copies a list of identifiers.
pub fn clone_ids(v: &Vec<Id>) -> (r: Vec<Id>)
    ensures
        r@ == v@,
{
    let mut r: Vec<Id> = Vec::new();
    let mut k: usize = 0;
    while k < v.len()
        invariant
            k <= v.len(),
            r@ =~= v@.take(k as int),
        decreases v.len() - k,
    {
        r.push(v[k]);
        k += 1;
    }
    proof {
        assert(r@ =~= v@);
    }
    r
}

/// Copies a list of units.
pub fn clone_units(v: &Vec<Unit>) -> (r: Vec<Unit>)
    ensures
        r@ == v@,
{
    let mut r: Vec<Unit> = Vec::new();
    let mut k: usize = 0;
    while k < v.len()
        invariant
            k <= v.len(),
            r@ =~= v@.take(k as int),
        decreases v.len() - k,
    {
        r.push(v[k].clone());
        k += 1;
    }
    proof {
        assert(r@ =~= v@);
    }
    r
}

/// Copies a list of items.
pub fn clone_items(v: &Vec<Item>) -> (r: Vec<Item>)
    ensures
        items_view(r@) == items_view(v@),
{
    let mut r: Vec<Item> = Vec::new();
    let mut k: usize = 0;
    while k < v.len()
        invariant
            k <= v.len(),
            r@.len() == k,
            forall|i: int| 0 <= i < k ==> (#[trigger] r@[i])@ == v@[i]@,
        decreases v.len() - k,
    {
        r.push(v[k].clone());
        k += 1;
    }
    proof {
        assert forall|i: int| 0 <= i < v@.len() implies items_view(r@)[i] == items_view(v@)[i] by {
            assert(r@[i]@ == v@[i]@);
        }
        assert(items_view(r@) =~= items_view(v@));
    }
    r
}

/// Copies a collection of inventories.
pub fn clone_inventories(v: &Vec<Inventory>) -> (r: Vec<Inventory>)
    ensures
        inventories_view(r@) == inventories_view(v@),
{
    let mut r: Vec<Inventory> = Vec::new();
    let mut k: usize = 0;
    while k < v.len()
        invariant
            k <= v.len(),
            r@.len() == k,
            forall|i: int| 0 <= i < k ==> (#[trigger] r@[i])@ == v@[i]@,
        decreases v.len() - k,
    {
        r.push(v[k].clone());
        k += 1;
    }
    proof {
        assert forall|i: int| 0 <= i < v@.len() implies inventories_view(r@)[i] == inventories_view(v@)[i] by {
            assert(r@[i]@ == v@[i]@);
        }
        assert(inventories_view(r@) =~= inventories_view(v@));
    }
    r
}

/// The same inventory with its item list replaced.
pub open spec fn with_items(inv: InventoryView, items: Seq<ItemView>) -> InventoryView {
    InventoryView {
        uuid: inv.uuid,
        name: inv.name,
        owner: inv.owner,
        admins: inv.admins,
        writables: inv.writables,
        readables: inv.readables,
        items,
    }
}

/// The same inventory with its mutable details replaced; identifier and
/// item list untouched.
pub open spec fn with_details(
    inv: InventoryView,
    name: Seq<char>,
    owner: Id,
    admins: Seq<Id>,
    writables: Seq<Id>,
    readables: Seq<Id>,
) -> InventoryView {
    InventoryView { uuid: inv.uuid, name, owner, admins, writables, readables, items: inv.items }
}

/// The same item with its unit list replaced.
pub open spec fn with_units(it: ItemView, units: Seq<UnitView>) -> ItemView {
    ItemView { uuid: it.uuid, inventory_uuid: it.inventory_uuid, name: it.name, ean: it.ean, units }
}

/// The same item with name and EAN replaced; identifier, back-reference
/// and unit list untouched.
pub open spec fn with_item_details(it: ItemView, name: Seq<char>, ean: Option<Seq<char>>) -> ItemView {
    ItemView { uuid: it.uuid, inventory_uuid: it.inventory_uuid, name, ean, units: it.units }
}

/// Appending a well-formed item with an unseen identifier and the right
/// back-reference keeps the inventory well-formed.
pub proof fn lemma_inventory_wf_push_item(inv: InventoryView, it: ItemView)
    requires
        inventory_wf(inv),
        item_wf(it),
        it.inventory_uuid == inv.uuid,
        forall|l: int| 0 <= l < inv.items.len() ==> inv.items[l].uuid != it.uuid,
    ensures
        inventory_wf(with_items(inv, inv.items.push(it))),
{
    let t = inv.items.push(it);
    let res = with_items(inv, t);
    assert forall|k: int| 0 <= k < t.len() implies (#[trigger] t[k]).inventory_uuid == res.uuid
        && item_wf(t[k]) by {
        if k < inv.items.len() {
            assert(t[k] == inv.items[k]);
        } else {
            assert(t[k] == it);
        }
    }
    assert forall|k: int, l: int| 0 <= k < l < t.len() implies t[k].uuid != t[l].uuid by {
        if l < inv.items.len() {
            assert(t[k] == inv.items[k] && t[l] == inv.items[l]);
        } else {
            assert(t[k] == inv.items[k] && t[l] == it);
        }
    }
}

/// Replacing an item by a well-formed one under the same identifier and
/// back-reference keeps the inventory well-formed.
pub proof fn lemma_inventory_wf_update_item(inv: InventoryView, j: int, it: ItemView)
    requires
        inventory_wf(inv),
        0 <= j < inv.items.len(),
        it.uuid == inv.items[j].uuid,
        it.inventory_uuid == inv.uuid,
        item_wf(it),
    ensures
        inventory_wf(with_items(inv, inv.items.update(j, it))),
{
    let t = inv.items.update(j, it);
    let res = with_items(inv, t);
    assert forall|k: int| 0 <= k < t.len() implies (#[trigger] t[k]).inventory_uuid == res.uuid
        && item_wf(t[k]) by {
        if k != j {
            assert(t[k] == inv.items[k]);
        }
    }
    assert forall|k: int, l: int| 0 <= k < l < t.len() implies t[k].uuid != t[l].uuid by {
        assert(t[k].uuid == inv.items[k].uuid && t[l].uuid == inv.items[l].uuid);
    }
}

/// Removing an item keeps the inventory well-formed.
pub proof fn lemma_inventory_wf_remove_item(inv: InventoryView, j: int)
    requires
        inventory_wf(inv),
        0 <= j < inv.items.len(),
    ensures
        inventory_wf(with_items(inv, inv.items.remove(j))),
{
    let t = inv.items.remove(j);
    inv.items.remove_ensures(j);
    assert forall|k: int| 0 <= k < t.len() implies (#[trigger] t[k]).inventory_uuid == inv.uuid
        && item_wf(t[k]) by {
        let pk: int = if k < j { k } else { k + 1 };
        assert(t[k] == inv.items[pk]);
    }
    assert forall|k: int, l: int| 0 <= k < l < t.len() implies t[k].uuid != t[l].uuid by {
        let pk: int = if k < j { k } else { k + 1 };
        let pl: int = if l < j { l } else { l + 1 };
        assert(t[k] == inv.items[pk] && t[l] == inv.items[pl]);
        assert(inv.items[pk].uuid != inv.items[pl].uuid);
    }
}

/// Appending a unit with an unseen identifier and the right back-references
/// keeps the item well-formed.
pub proof fn lemma_item_wf_push_unit(it: ItemView, u: UnitView)
    requires
        item_wf(it),
        unit_belongs(u, it.uuid, it.inventory_uuid),
        forall|l: int| 0 <= l < it.units.len() ==> it.units[l].uuid != u.uuid,
    ensures
        item_wf(with_units(it, it.units.push(u))),
{
    let t = it.units.push(u);
    let res = with_units(it, t);
    assert forall|k: int| 0 <= k < t.len() implies unit_belongs(
        #[trigger] t[k],
        res.uuid,
        res.inventory_uuid,
    ) by {
        if k < it.units.len() {
            assert(t[k] == it.units[k]);
        } else {
            assert(t[k] == u);
        }
    }
    assert forall|k: int, l: int| 0 <= k < l < t.len() implies t[k].uuid != t[l].uuid by {
        if l < it.units.len() {
            assert(t[k] == it.units[k] && t[l] == it.units[l]);
        } else {
            assert(t[k] == it.units[k] && t[l] == u);
        }
    }
}

} // verus!
