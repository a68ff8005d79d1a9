//! The data store service: the authoritative in-memory collection of
//! inventories, queried and mutated through a typed request/response
//! protocol.
//!
//! The service is the sole owner of the collection; consumers receive
//! copies, never shared handles. Creating an inventory is gated on the
//! observed session state: without a logged-in user the request is dropped
//! without any effect. Reads are not access-controlled: every consumer
//! receives the full collection.

use vstd::prelude::*;

use crate::auth::AuthState;
use crate::domain::{
    collection_wf, inventories_view, inventory_wf, item_wf, lemma_inventory_wf_push_item,
    normalize_ean, lemma_inventory_wf_remove_item, lemma_inventory_wf_update_item,
    lemma_item_wf_push_unit, opt_text_view, unit_belongs, with_details, with_item_details,
    with_items, with_units, Inventory, InventoryView, Item, ItemView, Unit, UnitView,
};
use crate::ids::{fresh_id, Id};

verus! {

/// Why a store operation could not be carried out.
#[derive(Clone, Copy, PartialEq, Eq, Structural, Debug)]
pub enum DataError {
    /// No inventory carries the given identifier.
    InventoryNotFound,
    /// The inventory exists, but none of its items carries the given
    /// identifier.
    ItemNotFound,
    /// The freshly drawn identifier already occurs in the target scope, so
    /// the entity was not created. With identifiers drawn at random this
    /// does not happen in practice.
    IdCollision,
}

/// The first inventory of `s` carrying `uuid`, if any.
pub open spec fn lookup_inventory(s: Seq<InventoryView>, uuid: Id) -> Option<InventoryView>
    decreases s.len(),
{
    if s.len() == 0 {
        None
    } else if s[0].uuid == uuid {
        Some(s[0])
    } else {
        lookup_inventory(s.drop_first(), uuid)
    }
}

/// The first item of `items` carrying `uuid`, if any.
pub open spec fn lookup_item_seq(items: Seq<ItemView>, uuid: Id) -> Option<ItemView>
    decreases items.len(),
{
    if items.len() == 0 {
        None
    } else if items[0].uuid == uuid {
        Some(items[0])
    } else {
        lookup_item_seq(items.drop_first(), uuid)
    }
}

/// The item `item_uuid` of inventory `inventory_uuid`, if both exist.
pub open spec fn lookup_item(s: Seq<InventoryView>, inventory_uuid: Id, item_uuid: Id) -> Option<
    ItemView,
> {
    match lookup_inventory(s, inventory_uuid) {
        None => None,
        Some(inv) => lookup_item_seq(inv.items, item_uuid),
    }
}

/// A hit during a left-to-right scan is what `lookup_inventory` returns.
pub proof fn lemma_lookup_inventory_found(s: Seq<InventoryView>, uuid: Id, i: int)
    requires
        0 <= i < s.len(),
        s[i].uuid == uuid,
        forall|j: int| 0 <= j < i ==> s[j].uuid != uuid,
    ensures
        lookup_inventory(s, uuid) == Some(s[i]),
    decreases i,
{
    if i > 0 {
        lemma_lookup_inventory_found(s.drop_first(), uuid, i - 1);
    }
}

/// A scan that hits nothing means `lookup_inventory` returns nothing.
pub proof fn lemma_lookup_inventory_none(s: Seq<InventoryView>, uuid: Id)
    requires
        forall|j: int| 0 <= j < s.len() ==> s[j].uuid != uuid,
    ensures
        lookup_inventory(s, uuid) == None::<InventoryView>,
    decreases s.len(),
{
    if s.len() > 0 {
        lemma_lookup_inventory_none(s.drop_first(), uuid);
    }
}

/// A hit during a left-to-right scan is what `lookup_item_seq` returns.
pub proof fn lemma_lookup_item_found(items: Seq<ItemView>, uuid: Id, i: int)
    requires
        0 <= i < items.len(),
        items[i].uuid == uuid,
        forall|j: int| 0 <= j < i ==> items[j].uuid != uuid,
    ensures
        lookup_item_seq(items, uuid) == Some(items[i]),
    decreases i,
{
    if i > 0 {
        lemma_lookup_item_found(items.drop_first(), uuid, i - 1);
    }
}

/// A scan that hits nothing means `lookup_item_seq` returns nothing.
pub proof fn lemma_lookup_item_none(items: Seq<ItemView>, uuid: Id)
    requires
        forall|j: int| 0 <= j < items.len() ==> items[j].uuid != uuid,
    ensures
        lookup_item_seq(items, uuid) == None::<ItemView>,
    decreases items.len(),
{
    if items.len() > 0 {
        lemma_lookup_item_none(items.drop_first(), uuid);
    }
}

/// Pushing a well-formed inventory with an unseen identifier keeps the
/// collection well-formed.
pub proof fn lemma_wf_push(s: Seq<InventoryView>, inv: InventoryView)
    requires
        collection_wf(s),
        inventory_wf(inv),
        forall|j: int| 0 <= j < s.len() ==> s[j].uuid != inv.uuid,
    ensures
        collection_wf(s.push(inv)),
{
    let t = s.push(inv);
    assert forall|k: int| 0 <= k < t.len() implies inventory_wf(#[trigger] t[k]) by {
        if k < s.len() {
            assert(t[k] == s[k]);
        } else {
            assert(t[k] == inv);
        }
    }
    assert forall|k: int, l: int| 0 <= k < l < t.len() implies t[k].uuid != t[l].uuid by {
        if l < s.len() {
            assert(t[k] == s[k] && t[l] == s[l]);
        } else {
            assert(t[k] == s[k] && t[l] == inv);
        }
    }
}

/// Replacing an inventory by a well-formed one under the same identifier
/// keeps the collection well-formed.
pub proof fn lemma_wf_update(s: Seq<InventoryView>, i: int, inv: InventoryView)
    requires
        collection_wf(s),
        0 <= i < s.len(),
        inv.uuid == s[i].uuid,
        inventory_wf(inv),
    ensures
        collection_wf(s.update(i, inv)),
{
    let t = s.update(i, inv);
    assert forall|k: int| 0 <= k < t.len() implies inventory_wf(#[trigger] t[k]) by {
        if k != i {
            assert(t[k] == s[k]);
        }
    }
    assert forall|k: int, l: int| 0 <= k < l < t.len() implies t[k].uuid != t[l].uuid by {
        assert(t[k].uuid == s[k].uuid && t[l].uuid == s[l].uuid);
    }
}

/// Removing an inventory keeps the collection well-formed.
pub proof fn lemma_wf_remove(s: Seq<InventoryView>, i: int)
    requires
        collection_wf(s),
        0 <= i < s.len(),
    ensures
        collection_wf(s.remove(i)),
{
    let t = s.remove(i);
    s.remove_ensures(i);
    assert forall|k: int| 0 <= k < t.len() implies inventory_wf(#[trigger] t[k]) by {
        let pk: int = if k < i { k } else { k + 1 };
        assert(t[k] == s[pk]);
    }
    assert forall|k: int, l: int| 0 <= k < l < t.len() implies t[k].uuid != t[l].uuid by {
        let pk: int = if k < i { k } else { k + 1 };
        let pl: int = if l < i { l } else { l + 1 };
        assert(t[k] == s[pk] && t[l] == s[pl]);
        assert(s[pk].uuid != s[pl].uuid);
    }
}

/// After removing the one inventory that carried `uuid`, no inventory
/// carries it any more.
pub proof fn lemma_lookup_after_remove(s: Seq<InventoryView>, i: int, uuid: Id)
    requires
        collection_wf(s),
        0 <= i < s.len(),
        s[i].uuid == uuid,
    ensures
        lookup_inventory(s.remove(i), uuid) == None::<InventoryView>,
{
    let t = s.remove(i);
    s.remove_ensures(i);
    assert forall|k: int| 0 <= k < t.len() implies t[k].uuid != uuid by {
        let pk: int = if k < i { k } else { k + 1 };
        assert(t[k] == s[pk]);
        if pk < i {
            assert(s[pk].uuid != s[i].uuid);
        } else {
            assert(s[i].uuid != s[pk].uuid);
        }
    }
    lemma_lookup_inventory_none(t, uuid);
}

/// What [`DataAgent::create_inventory`] promises of the collection: without
/// a logged-in session (or on the practically impossible identifier
/// collision) nothing is returned and nothing changes; on success the new
/// inventory — owned by the current user, with the given name, empty access
/// tiers and no items — is appended under an identifier that no existing
/// inventory carries.
pub open spec fn create_inventory_post(
    pre: DataAgent,
    post: DataAgent,
    name: Seq<char>,
    r: Option<Id>,
) -> bool {
    &&& (!(pre.state() matches AuthState::LoggedIn(_)) ==> r is None)
    &&& (r is None ==> post.invs() == pre.invs())
    &&& (r is None ==> !(pre.state() matches AuthState::LoggedIn(_)) || pre.invs().len() > 0)
    &&& (r matches Some(uuid) ==> ({
        &&& pre.state() matches AuthState::LoggedIn(user) && post.invs() == pre.invs().push(
            InventoryView {
                uuid,
                name,
                owner: user.uuid,
                admins: Seq::<Id>::empty(),
                writables: Seq::<Id>::empty(),
                readables: Seq::<Id>::empty(),
                items: Seq::<ItemView>::empty(),
            },
        )
        &&& lookup_inventory(pre.invs(), uuid) == None::<InventoryView>
    }))
}

/// If no inventory is found under an identifier, none carries it.
pub proof fn lemma_lookup_inventory_none_char(s: Seq<InventoryView>, uuid: Id)
    requires
        lookup_inventory(s, uuid) == None::<InventoryView>,
    ensures
        forall|j: int| 0 <= j < s.len() ==> s[j].uuid != uuid,
    decreases s.len(),
{
    if s.len() > 0 {
        lemma_lookup_inventory_none_char(s.drop_first(), uuid);
        assert forall|j: int| 0 <= j < s.len() implies s[j].uuid != uuid by {
            if j > 0 {
                assert(s[j] == s.drop_first()[j - 1]);
            }
        }
    }
}

/// The store invariant spelled out: every item of every inventory points
/// back at its inventory, every unit points back at its item and at that
/// item's inventory, and identifiers are unique within their scope — and
/// this holds after every operation, since each one preserves
/// [`DataAgent::wf`].
pub proof fn lemma_wf_back_references(agent: DataAgent)
    requires
        agent.wf(),
    ensures
        collection_wf(agent.invs()),
{
}

/// Creating an inventory and reading it back: a successful creation under
/// a logged-in user makes the new identifier resolve to an inventory with
/// exactly the given name, the user as owner, and no items.
pub proof fn lemma_create_then_get(pre: DataAgent, post: DataAgent, name: Seq<char>, uuid: Id)
    requires
        create_inventory_post(pre, post, name, Some(uuid)),
    ensures
        pre.state() matches AuthState::LoggedIn(user) ==> lookup_inventory(post.invs(), uuid)
            == Some(
            InventoryView {
                uuid,
                name,
                owner: user.uuid,
                admins: Seq::<Id>::empty(),
                writables: Seq::<Id>::empty(),
                readables: Seq::<Id>::empty(),
                items: Seq::<ItemView>::empty(),
            },
        ),
{
    if pre.state() matches AuthState::LoggedIn(user) {
        lemma_lookup_inventory_none_char(pre.invs(), uuid);
        let t = post.invs();
        assert(t.last().uuid == uuid);
        assert forall|j: int| 0 <= j < t.len() - 1 implies t[j].uuid != uuid by {
            assert(t[j] == pre.invs()[j]);
        }
        lemma_lookup_inventory_found(t, uuid, t.len() - 1);
    }
}

/// Reading the collection is idempotent: two reads without an intervening
/// mutation see the identical collection.
pub proof fn lemma_get_inventories_idempotent(
    agent: DataAgent,
    first: Seq<InventoryView>,
    second: Seq<InventoryView>,
)
    requires
        first == agent.invs(),
        second == agent.invs(),
    ensures
        first == second,
{
}

/// An unauthenticated creation leaves the collection — in particular its
/// size — exactly as it was.
pub proof fn lemma_unauthenticated_create_is_noop(
    pre: DataAgent,
    post: DataAgent,
    name: Seq<char>,
    r: Option<Id>,
)
    requires
        create_inventory_post(pre, post, name, r),
        !(pre.state() matches AuthState::LoggedIn(_)),
    ensures
        post.invs() == pre.invs(),
        post.invs().len() == pre.invs().len(),
{
}

/// Deleting an inventory makes every item lookup against it fail: after
/// the removal, the inventory identifier resolves to nothing, and so does
/// any item that belonged to it.
pub proof fn lemma_delete_clears_items(s: Seq<InventoryView>, i: int, uuid: Id, item_uuid: Id)
    requires
        collection_wf(s),
        0 <= i < s.len(),
        s[i].uuid == uuid,
    ensures
        lookup_inventory(s.remove(i), uuid) == None::<InventoryView>,
        lookup_item(s.remove(i), uuid, item_uuid) == None::<ItemView>,
{
    lemma_lookup_after_remove(s, i, uuid);
}

/// Write-through round trip at the store: the snapshot text of a
/// well-formed collection decodes to exactly that collection, which the
/// invariant check then accepts — so a later [`DataAgent::load_stored`] of
/// what was persisted restores the collection identically.
pub proof fn lemma_persisted_snapshot_restores(agent: DataAgent)
    requires
        agent.wf(),
    ensures
        crate::codec::parse_snapshot(crate::codec::snapshot_text(agent.invs())) == Some(
            agent.invs(),
        ),
        collection_wf(agent.invs()),
{
    crate::codec::lemma_snapshot_round_trip(agent.invs());
}

/// A request to the data store service.
#[derive(Debug)]
pub enum DataAgentRequest {
    GetInventories,
    GetInventory(Id),
    CreateInventory(String),
    UpdateInventory {
        uuid: Id,
        name: String,
        owner: Id,
        admins: Vec<Id>,
        writables: Vec<Id>,
        readables: Vec<Id>,
    },
    DeleteInventory(Id),
    GetItem(Id, Id),
    CreateItem(Id, String, Option<String>),
    UpdateItem(Id, Id, String, Option<String>),
    DeleteItem(Id, Id),
    CreateUnit(Id, Id, String),
    MakeDebugInventory,
    DeleteAllData,
}

/// A reply from the data store service.
#[derive(Debug, PartialEq)]
pub enum DataAgentResponse {
    /// The full collection.
    Inventories(Vec<Inventory>),
    /// One inventory, copied out of the store.
    Inventory(Inventory),
    /// The requested inventory identifier matches nothing.
    InvalidInventoryUuid,
    /// The requested item identifier matches nothing in its inventory.
    InvalidItemUuid,
    /// The identifier of a newly created inventory.
    NewInventoryUuid(Id),
    /// The identifier of an updated inventory.
    UpdatedInventory(Id),
    /// The identifier of a deleted inventory.
    DeletedInventory(Id),
    /// One item, copied out of the store.
    Item(Item),
    /// The identifier of a newly created item.
    NewItemUuid(Id),
    /// Confirmation that an item was updated.
    UpdatedItem,
    /// The identifier of a deleted item.
    DeletedItem(Id),
    /// The identifier of a newly created unit.
    NewUnitUuid(Id),
}

/// A state change observed from the authentication agent.
pub enum Msg {
    NewAuthState(AuthState),
}

/// The data store service.
pub struct DataAgent {
    inventories: Vec<Inventory>,
    subscribers: Vec<u64>,
    auth_state: AuthState,
}

impl DataAgent {
    /// The collection held by the store.
    pub closed spec fn invs(&self) -> Seq<InventoryView> {
        inventories_view(self.inventories@)
    }

    /// The registered subscribers, in registration order.
    pub closed spec fn subs(&self) -> Seq<u64> {
        self.subscribers@
    }

    /// The session state the store last observed.
    pub closed spec fn state(&self) -> AuthState {
        self.auth_state
    }

    /// The store's invariant: the collection is well-formed and each
    /// subscriber is registered exactly once.
    pub closed spec fn wf(&self) -> bool {
        &&& collection_wf(self.invs())
        &&& forall|i: int, j: int|
            0 <= i < j < self.subscribers@.len() ==> self.subscribers@[i] != self.subscribers@[j]
    }

    /// Creates the store from a previously loaded collection, if a
    /// well-formed one was handed in; anything else — nothing stored yet,
    /// or a collection that does not satisfy the invariant — counts as
    /// absent and yields the empty collection.
    pub fn create(loaded: Option<Vec<Inventory>>) -> (r: DataAgent)
        ensures
            r.wf(),
            r.subs() == Seq::<u64>::empty(),
            r.state() == AuthState::Initial,
            r.invs() == (match loaded {
                Some(v) => if collection_wf(inventories_view(v@)) {
                    inventories_view(v@)
                } else {
                    Seq::<InventoryView>::empty()
                },
                None => Seq::<InventoryView>::empty(),
            }),
    {
        let inventories = match loaded {
            Some(v) => {
                if check_collection_wf(&v) {
                    v
                } else {
                    Vec::new()
                }
            },
            None => Vec::new(),
        };
        let r = DataAgent { inventories, subscribers: Vec::new(), auth_state: AuthState::Initial };
        proof {
            assert(r.subscribers@ =~= Seq::<u64>::empty());
            assert(inventories_view(Seq::<Inventory>::empty()) =~= Seq::<InventoryView>::empty());
        }
        r
    }

    /// Reads the session state the store last observed.
    pub fn current_state(&self) -> (r: &AuthState)
        ensures
            *r == self.state(),
    {
        &self.auth_state
    }

    /// Creates the store from what durable storage held: a stored snapshot
    /// is decoded and taken over when it is well-shaped and satisfies the
    /// invariant; anything else — nothing stored, or a corrupt entry —
    /// counts as absent and yields the empty collection.
    pub fn load_stored(stored: Option<&str>) -> (r: DataAgent)
        ensures
            r.wf(),
            r.subs() == Seq::<u64>::empty(),
            r.state() == AuthState::Initial,
            r.invs() == (match stored {
                Some(text) => match crate::codec::parse_snapshot(text@) {
                    Some(views) => if collection_wf(views) {
                        views
                    } else {
                        Seq::<InventoryView>::empty()
                    },
                    None => Seq::<InventoryView>::empty(),
                },
                None => Seq::<InventoryView>::empty(),
            }),
    {
        match stored {
            Some(text) => DataAgent::create(crate::codec::decode_snapshot(text)),
            None => DataAgent::create(None),
        }
    }

    /// Registers a consumer. Only a live subscriber — one that asked for
    /// unsolicited broadcasts when it connected — enters the registry; a
    /// one-shot requester is not recorded at all.
    pub fn connected(&mut self, id: u64, is_subscriber: bool)
        requires
            old(self).wf(),
        ensures
            final(self).wf(),
            final(self).invs() == old(self).invs(),
            final(self).state() == old(self).state(),
            final(self).subs() == (if is_subscriber && !old(self).subs().contains(id) {
                old(self).subs().push(id)
            } else {
                old(self).subs()
            }),
    {
        if is_subscriber && !crate::auth::contains_id(&self.subscribers, id) {
            self.subscribers.push(id);
        }
    }

    /// Deregisters a consumer.
    pub fn disconnected(&mut self, id: u64)
        requires
            old(self).wf(),
        ensures
            final(self).wf(),
            final(self).invs() == old(self).invs(),
            final(self).state() == old(self).state(),
            final(self).subs() == old(self).subs().remove_value(id),
            !final(self).subs().contains(id),
    {
        let mut k: usize = 0;
        while k < self.subscribers.len()
            invariant
                old(self).wf(),
                self.subscribers@ == old(self).subscribers@,
                self.inventories@ == old(self).inventories@,
                self.auth_state == old(self).auth_state,
                k <= self.subscribers@.len(),
                forall|i: int| 0 <= i < k ==> old(self).subscribers@[i] != id,
                forall|i: int, j: int|
                    0 <= i < j < old(self).subscribers@.len() ==> old(self).subscribers@[i]
                        != old(self).subscribers@[j],
            decreases self.subscribers@.len() - k,
        {
            if self.subscribers[k] == id {
                let ghost pre = old(self).subscribers@;
                self.subscribers.remove(k);
                proof {
                    crate::auth::lemma_registry_remove(pre, k as int, id);
                    assert(self.subscribers@ == pre.remove(k as int));
                }
                return;
            }
            k += 1;
        }
        proof {
            let pre = old(self).subscribers@;
            pre.index_of_first_ensures(id);
            assert(!pre.contains(id));
            assert(pre.remove_value(id) == pre);
        }
    }

    /// Observes a new session state.
    pub fn update(&mut self, msg: Msg)
        requires
            old(self).wf(),
        ensures
            final(self).wf(),
            final(self).invs() == old(self).invs(),
            final(self).subs() == old(self).subs(),
            msg matches Msg::NewAuthState(s) ==> final(self).state() == s,
    {
        match msg {
            Msg::NewAuthState(s) => {
                self.auth_state = s;
            },
        }
    }

    /// The index of the inventory carrying `uuid`, if any.
    fn find_inv(&self, uuid: Id) -> (r: Option<usize>)
        ensures
            match r {
                Some(i) => {
                    &&& i < self.invs().len()
                    &&& self.invs()[i as int].uuid == uuid
                    &&& forall|j: int| 0 <= j < i ==> self.invs()[j].uuid != uuid
                    &&& lookup_inventory(self.invs(), uuid) == Some(self.invs()[i as int])
                },
                None => {
                    &&& forall|j: int| 0 <= j < self.invs().len() ==> self.invs()[j].uuid != uuid
                    &&& lookup_inventory(self.invs(), uuid) == None::<InventoryView>
                },
            },
    {
        let mut k: usize = 0;
        while k < self.inventories.len()
            invariant
                k <= self.invs().len(),
                self.invs().len() == self.inventories@.len(),
                forall|j: int| 0 <= j < k ==> self.invs()[j].uuid != uuid,
            decreases self.inventories@.len() - k,
        {
            if self.inventories[k].uuid == uuid {
                proof {
                    assert(self.invs()[k as int] == self.inventories@[k as int]@);
                    lemma_lookup_inventory_found(self.invs(), uuid, k as int);
                }
                return Some(k);
            }
            proof {
                assert(self.invs()[k as int] == self.inventories@[k as int]@);
            }
            k += 1;
        }
        proof {
            lemma_lookup_inventory_none(self.invs(), uuid);
        }
        None
    }

    /// Hands out a copy of the full collection.
    pub fn get_inventories(&self) -> (r: Vec<Inventory>)
        ensures
            inventories_view(r@) == self.invs(),
    {
        crate::domain::clone_inventories(&self.inventories)
    }

    /// Hands out a copy of the inventory carrying `uuid`, if any.
    pub fn get_inventory(&self, uuid: Id) -> (r: Option<Inventory>)
        ensures
            match r {
                Some(inv) => lookup_inventory(self.invs(), uuid) == Some(inv@),
                None => lookup_inventory(self.invs(), uuid) == None::<InventoryView>,
            },
    {
        match self.find_inv(uuid) {
            Some(i) => Some(self.inventories[i].clone()),
            None => None,
        }
    }

    /// Hands out a copy of item `item_uuid` of inventory `inventory_uuid`.
    /// Fails with the error naming the first identifier that matches
    /// nothing.
    pub fn get_item(&self, inventory_uuid: Id, item_uuid: Id) -> (r: Result<Item, DataError>)
        ensures
            match r {
                Ok(it) => lookup_item(self.invs(), inventory_uuid, item_uuid) == Some(it@),
                Err(DataError::InventoryNotFound) => lookup_inventory(self.invs(), inventory_uuid)
                    == None::<InventoryView>,
                Err(DataError::ItemNotFound) => {
                    &&& lookup_inventory(self.invs(), inventory_uuid) is Some
                    &&& lookup_item(self.invs(), inventory_uuid, item_uuid) == None::<ItemView>
                },
                Err(DataError::IdCollision) => false,
            },
    {
        let i = match self.find_inv(inventory_uuid) {
            Some(i) => i,
            None => {
                return Err(DataError::InventoryNotFound);
            },
        };
        let inv = &self.inventories[i];
        proof {
            assert(self.invs()[i as int] == self.inventories@[i as int]@);
        }
        match find_item(inv, item_uuid) {
            Some(j) => Ok(inv.items[j].clone()),
            None => Err(DataError::ItemNotFound),
        }
    }

    /// Creates an inventory owned by the current user. Without a logged-in
    /// session the request is dropped: nothing changes and nothing is
    /// returned. The same holds in the practically impossible case that the
    /// freshly drawn identifier is already taken.
    pub fn create_inventory(&mut self, name: String) -> (r: Option<Id>)
        requires
            old(self).wf(),
        ensures
            final(self).wf(),
            final(self).subs() == old(self).subs(),
            final(self).state() == old(self).state(),
            create_inventory_post(*old(self), *final(self), name@, r),
    {
        let owner = match &self.auth_state {
            AuthState::LoggedIn(user) => user.uuid,
            _ => {
                return None;
            },
        };
        let inv = Inventory::new(name, owner);
        let uuid = inv.uuid;
        match self.find_inv(uuid) {
            Some(_) => None,
            None => {
                let ghost pre = self.invs();
                let ghost view = inv@;
                self.inventories.push(inv);
                proof {
                    assert(self.invs() =~= pre.push(view));
                    lemma_wf_push(pre, view);
                }
                Some(uuid)
            },
        }
    }

    /// Creates a throwaway inventory for development tooling, bypassing the
    /// session gate: the owner is the current user when logged in, and a
    /// freshly drawn placeholder identity otherwise. Nothing is returned
    /// only in the practically impossible case of an identifier collision.
    pub fn make_debug_inventory(&mut self) -> (r: Option<Id>)
        requires
            old(self).wf(),
        ensures
            final(self).wf(),
            final(self).subs() == old(self).subs(),
            final(self).state() == old(self).state(),
            r is None ==> final(self).invs() == old(self).invs(),
            r is None ==> old(self).invs().len() > 0,
            r matches Some(uuid) ==> ({
                let added = final(self).invs().last();
                &&& final(self).invs() == old(self).invs().push(added)
                &&& added.uuid == uuid
                &&& added.name == "debug inv"@
                &&& added.admins == Seq::<Id>::empty()
                &&& added.writables == Seq::<Id>::empty()
                &&& added.readables == Seq::<Id>::empty()
                &&& added.items == Seq::<ItemView>::empty()
                &&& (old(self).state() matches AuthState::LoggedIn(user) ==> added.owner
                    == user.uuid)
                &&& lookup_inventory(old(self).invs(), uuid) == None::<InventoryView>
            }),
    {
        let owner = match &self.auth_state {
            AuthState::LoggedIn(user) => user.uuid,
            _ => fresh_id(),
        };
        let inv = Inventory::new("debug inv".to_owned(), owner);
        let uuid = inv.uuid;
        match self.find_inv(uuid) {
            Some(_) => None,
            None => {
                let ghost pre = self.invs();
                let ghost view = inv@;
                self.inventories.push(inv);
                proof {
                    assert(self.invs() =~= pre.push(view));
                    lemma_wf_push(pre, view);
                }
                Some(uuid)
            },
        }
    }

    /// Deletes the inventory carrying `uuid`, and with it all of its items
    /// and units. Reports whether such an inventory existed.
    pub fn delete_inventory(&mut self, uuid: Id) -> (r: bool)
        requires
            old(self).wf(),
        ensures
            final(self).wf(),
            final(self).subs() == old(self).subs(),
            final(self).state() == old(self).state(),
            r == (lookup_inventory(old(self).invs(), uuid) is Some),
            !r ==> final(self).invs() == old(self).invs(),
            r ==> (exists|i: int|
                {
                    &&& 0 <= i < old(self).invs().len()
                    &&& old(self).invs()[i].uuid == uuid
                    &&& final(self).invs() == old(self).invs().remove(i)
                }),
            r ==> lookup_inventory(final(self).invs(), uuid) == None::<InventoryView>,
    {
        match self.find_inv(uuid) {
            Some(i) => {
                let ghost pre = self.invs();
                self.inventories.remove(i);
                proof {
                    assert(self.invs() =~= pre.remove(i as int));
                    lemma_wf_remove(pre, i as int);
                    lemma_lookup_after_remove(pre, i as int, uuid);
                }
                true
            },
            None => false,
        }
    }

    /// Resets the collection to empty.
    pub fn delete_all_data(&mut self)
        requires
            old(self).wf(),
        ensures
            final(self).wf(),
            final(self).subs() == old(self).subs(),
            final(self).state() == old(self).state(),
            final(self).invs() == Seq::<InventoryView>::empty(),
    {
        self.inventories = Vec::new();
        proof {
            assert(self.invs() =~= Seq::<InventoryView>::empty());
        }
    }

    /// Creates an item in the inventory carrying `inventory_uuid`, with no
    /// units, and appends it to that inventory's item list.
    pub fn create_item(&mut self, inventory_uuid: Id, name: String, ean: Option<String>) -> (r:
        Result<Id, DataError>)
        requires
            old(self).wf(),
        ensures
            final(self).wf(),
            final(self).subs() == old(self).subs(),
            final(self).state() == old(self).state(),
            r == Err::<Id, DataError>(DataError::InventoryNotFound) <==> lookup_inventory(
                old(self).invs(),
                inventory_uuid,
            ) is None,
            r != Err::<Id, DataError>(DataError::ItemNotFound),
            r == Err::<Id, DataError>(DataError::IdCollision) ==> (lookup_inventory(
                old(self).invs(),
                inventory_uuid,
            ) matches Some(found) && found.items.len() > 0),
            r matches Err(_) ==> final(self).invs() == old(self).invs(),
            r matches Ok(uuid) ==> (exists|i: int|
                {
                    &&& 0 <= i < old(self).invs().len()
                    &&& (#[trigger] old(self).invs()[i]).uuid == inventory_uuid
                    &&& forall|l: int|
                        0 <= l < old(self).invs()[i].items.len() ==> old(self).invs()[i].items[l].uuid != uuid
                    &&& final(self).invs() == old(self).invs().update(
                        i,
                        with_items(
                            old(self).invs()[i],
                            old(self).invs()[i].items.push(
                                ItemView {
                                    uuid,
                                    inventory_uuid,
                                    name: name@,
                                    ean: normalize_ean(opt_text_view(ean)),
                                    units: Seq::<UnitView>::empty(),
                                },
                            ),
                        ),
                    )
                }),
    {
        let i = match self.find_inv(inventory_uuid) {
            Some(i) => i,
            None => {
                return Err(DataError::InventoryNotFound);
            },
        };
        let item = Item::new(inventory_uuid, name, ean);
        let uuid = item.uuid;
        let ghost pre = self.invs();
        let ghost it_view = item@;
        let mut inv = self.inventories.remove(i);
        proof {
            assert(pre[i as int] == inv@);
        }
        match find_item(&inv, uuid) {
            Some(_) => {
                self.inventories.insert(i, inv);
                proof {
                    assert(self.invs() =~= pre);
                }
                Err(DataError::IdCollision)
            },
            None => {
                inv.items.push(item);
                proof {
                    assert(inv@.items =~= pre[i as int].items.push(it_view));
                    assert(inv@ =~= with_items(pre[i as int], pre[i as int].items.push(it_view)));
                    lemma_inventory_wf_push_item(pre[i as int], it_view);
                }
                let ghost nv = inv@;
                self.inventories.insert(i, inv);
                proof {
                    assert(self.invs() =~= pre.update(i as int, nv));
                    lemma_wf_update(pre, i as int, nv);
                }
                Ok(uuid)
            },
        }
    }

    /// Creates a unit in item `item_uuid` of inventory `inventory_uuid`
    /// and appends it to that item's unit list.
    pub fn create_unit(&mut self, inventory_uuid: Id, item_uuid: Id, name: String) -> (r: Result<
        Id,
        DataError,
    >)
        requires
            old(self).wf(),
        ensures
            final(self).wf(),
            final(self).subs() == old(self).subs(),
            final(self).state() == old(self).state(),
            r == Err::<Id, DataError>(DataError::InventoryNotFound) <==> lookup_inventory(
                old(self).invs(),
                inventory_uuid,
            ) is None,
            r == Err::<Id, DataError>(DataError::ItemNotFound) <==> (lookup_inventory(
                old(self).invs(),
                inventory_uuid,
            ) is Some && lookup_item(old(self).invs(), inventory_uuid, item_uuid) is None),
            r == Err::<Id, DataError>(DataError::IdCollision) ==> (lookup_item(
                old(self).invs(),
                inventory_uuid,
                item_uuid,
            ) matches Some(found) && found.units.len() > 0),
            r matches Err(_) ==> final(self).invs() == old(self).invs(),
            r matches Ok(uuid) ==> (exists|i: int, j: int|
                {
                    &&& 0 <= i < old(self).invs().len()
                    &&& #[trigger] old(self).invs()[i].items[j].uuid == item_uuid
                    &&& old(self).invs()[i].uuid == inventory_uuid
                    &&& 0 <= j < old(self).invs()[i].items.len()
                    &&& forall|l: int|
                        0 <= l < old(self).invs()[i].items[j].units.len() ==> old(self).invs()[i].items[j].units[l].uuid != uuid
                    &&& final(self).invs() == old(self).invs().update(
                        i,
                        with_items(
                            old(self).invs()[i],
                            old(self).invs()[i].items.update(
                                j,
                                with_units(
                                    old(self).invs()[i].items[j],
                                    old(self).invs()[i].items[j].units.push(
                                        UnitView {
                                            uuid,
                                            item_uuid,
                                            inventory_uuid,
                                            name: name@,
                                        },
                                    ),
                                ),
                            ),
                        ),
                    )
                }),
    {
        let i = match self.find_inv(inventory_uuid) {
            Some(i) => i,
            None => {
                return Err(DataError::InventoryNotFound);
            },
        };
        let ghost pre = self.invs();
        let mut inv = self.inventories.remove(i);
        proof {
            assert(pre[i as int] == inv@);
        }
        let j = match find_item(&inv, item_uuid) {
            Some(j) => j,
            None => {
                self.inventories.insert(i, inv);
                proof {
                    assert(self.invs() =~= pre);
                }
                return Err(DataError::ItemNotFound);
            },
        };
        let unit = Unit::new(item_uuid, inventory_uuid, name);
        let uuid = unit.uuid;
        let ghost u_view = unit@;
        let ghost inv_view = inv@;
        let mut item = inv.items.remove(j);
        proof {
            assert(inv_view.items[j as int] == item@);
        }
        match find_unit(&item, uuid) {
            Some(_) => {
                inv.items.insert(j, item);
                proof {
                    assert(inv@ =~= inv_view);
                }
                self.inventories.insert(i, inv);
                proof {
                    assert(self.invs() =~= pre);
                }
                Err(DataError::IdCollision)
            },
            None => {
                let ghost it_pre = item@;
                item.units.push(unit);
                proof {
                    assert(item@.units =~= it_pre.units.push(u_view));
                    assert(item@ =~= with_units(it_pre, it_pre.units.push(u_view)));
                    lemma_item_wf_push_unit(it_pre, u_view);
                }
                let ghost it_new = item@;
                inv.items.insert(j, item);
                proof {
                    assert(inv@.items =~= inv_view.items.update(j as int, it_new));
                    assert(inv@ =~= with_items(inv_view, inv_view.items.update(j as int, it_new)));
                    lemma_inventory_wf_update_item(inv_view, j as int, it_new);
                }
                let ghost nv = inv@;
                self.inventories.insert(i, inv);
                proof {
                    assert(self.invs() =~= pre.update(i as int, nv));
                    lemma_wf_update(pre, i as int, nv);
                }
                Ok(uuid)
            },
        }
    }

    /// Replaces the mutable details of the inventory carrying `uuid`;
    /// identifier and item list stay untouched. Reports whether such an
    /// inventory existed.
    pub fn update_inventory(
        &mut self,
        uuid: Id,
        name: String,
        owner: Id,
        admins: Vec<Id>,
        writables: Vec<Id>,
        readables: Vec<Id>,
    ) -> (r: bool)
        requires
            old(self).wf(),
        ensures
            final(self).wf(),
            final(self).subs() == old(self).subs(),
            final(self).state() == old(self).state(),
            r == (lookup_inventory(old(self).invs(), uuid) is Some),
            !r ==> final(self).invs() == old(self).invs(),
            r ==> (exists|i: int|
                {
                    &&& 0 <= i < old(self).invs().len()
                    &&& (#[trigger] old(self).invs()[i]).uuid == uuid
                    &&& final(self).invs() == old(self).invs().update(
                        i,
                        with_details(
                            old(self).invs()[i],
                            name@,
                            owner,
                            admins@,
                            writables@,
                            readables@,
                        ),
                    )
                }),
    {
        let i = match self.find_inv(uuid) {
            Some(i) => i,
            None => {
                return false;
            },
        };
        let ghost pre = self.invs();
        let inv = self.inventories.remove(i);
        proof {
            assert(pre[i as int] == inv@);
        }
        let new_inv = Inventory {
            uuid: inv.uuid,
            name,
            owner,
            admins,
            writables,
            readables,
            items: inv.items,
        };
        proof {
            assert(new_inv@ =~= with_details(
                pre[i as int],
                name@,
                owner,
                admins@,
                writables@,
                readables@,
            ));
        }
        let ghost nv = new_inv@;
        self.inventories.insert(i, new_inv);
        proof {
            assert(self.invs() =~= pre.update(i as int, nv));
            assert(inventory_wf(nv));
            lemma_wf_update(pre, i as int, nv);
        }
        true
    }

    /// Replaces name and EAN of item `item_uuid` of inventory
    /// `inventory_uuid`; identifier, back-reference and unit list stay
    /// untouched.
    pub fn update_item(
        &mut self,
        inventory_uuid: Id,
        item_uuid: Id,
        name: String,
        ean: Option<String>,
    ) -> (r: Result<(), DataError>)
        requires
            old(self).wf(),
        ensures
            final(self).wf(),
            final(self).subs() == old(self).subs(),
            final(self).state() == old(self).state(),
            r == Err::<(), DataError>(DataError::InventoryNotFound) <==> lookup_inventory(
                old(self).invs(),
                inventory_uuid,
            ) is None,
            r == Err::<(), DataError>(DataError::ItemNotFound) <==> (lookup_inventory(
                old(self).invs(),
                inventory_uuid,
            ) is Some && lookup_item(old(self).invs(), inventory_uuid, item_uuid) is None),
            r != Err::<(), DataError>(DataError::IdCollision),
            r matches Err(_) ==> final(self).invs() == old(self).invs(),
            r matches Ok(_) ==> (exists|i: int, j: int|
                {
                    &&& 0 <= i < old(self).invs().len()
                    &&& #[trigger] old(self).invs()[i].items[j].uuid == item_uuid
                    &&& old(self).invs()[i].uuid == inventory_uuid
                    &&& 0 <= j < old(self).invs()[i].items.len()
                    &&& final(self).invs() == old(self).invs().update(
                        i,
                        with_items(
                            old(self).invs()[i],
                            old(self).invs()[i].items.update(
                                j,
                                with_item_details(
                                    old(self).invs()[i].items[j],
                                    name@,
                                    normalize_ean(opt_text_view(ean)),
                                ),
                            ),
                        ),
                    )
                }),
    {
        let i = match self.find_inv(inventory_uuid) {
            Some(i) => i,
            None => {
                return Err(DataError::InventoryNotFound);
            },
        };
        let ghost pre = self.invs();
        let mut inv = self.inventories.remove(i);
        proof {
            assert(pre[i as int] == inv@);
        }
        let j = match find_item(&inv, item_uuid) {
            Some(j) => j,
            None => {
                self.inventories.insert(i, inv);
                proof {
                    assert(self.invs() =~= pre);
                }
                return Err(DataError::ItemNotFound);
            },
        };
        let ghost inv_view = inv@;
        let item = inv.items.remove(j);
        proof {
            assert(inv_view.items[j as int] == item@);
        }
        let ean_norm = match ean {
            Some(code) => if code.as_str().is_empty() {
                None
            } else {
                Some(code)
            },
            None => None,
        };
        let new_item = Item {
            uuid: item.uuid,
            inventory_uuid: item.inventory_uuid,
            name,
            ean: ean_norm,
            units: item.units,
        };
        proof {
            assert(new_item@ =~= with_item_details(
                inv_view.items[j as int],
                name@,
                normalize_ean(opt_text_view(ean)),
            ));
        }
        let ghost it_new = new_item@;
        inv.items.insert(j, new_item);
        proof {
            assert(inv@.items =~= inv_view.items.update(j as int, it_new));
            assert(inv@ =~= with_items(inv_view, inv_view.items.update(j as int, it_new)));
            assert(item_wf(it_new));
            lemma_inventory_wf_update_item(inv_view, j as int, it_new);
        }
        let ghost nv = inv@;
        self.inventories.insert(i, inv);
        proof {
            assert(self.invs() =~= pre.update(i as int, nv));
            lemma_wf_update(pre, i as int, nv);
        }
        Ok(())
    }

    /// Deletes item `item_uuid` of inventory `inventory_uuid`, and with it
    /// all of its units.
    pub fn delete_item(&mut self, inventory_uuid: Id, item_uuid: Id) -> (r: Result<
        (),
        DataError,
    >)
        requires
            old(self).wf(),
        ensures
            final(self).wf(),
            final(self).subs() == old(self).subs(),
            final(self).state() == old(self).state(),
            r == Err::<(), DataError>(DataError::InventoryNotFound) <==> lookup_inventory(
                old(self).invs(),
                inventory_uuid,
            ) is None,
            r == Err::<(), DataError>(DataError::ItemNotFound) <==> (lookup_inventory(
                old(self).invs(),
                inventory_uuid,
            ) is Some && lookup_item(old(self).invs(), inventory_uuid, item_uuid) is None),
            r != Err::<(), DataError>(DataError::IdCollision),
            r matches Err(_) ==> final(self).invs() == old(self).invs(),
            r matches Ok(_) ==> (exists|i: int, j: int|
                {
                    &&& 0 <= i < old(self).invs().len()
                    &&& #[trigger] old(self).invs()[i].items[j].uuid == item_uuid
                    &&& old(self).invs()[i].uuid == inventory_uuid
                    &&& 0 <= j < old(self).invs()[i].items.len()
                    &&& final(self).invs() == old(self).invs().update(
                        i,
                        with_items(old(self).invs()[i], old(self).invs()[i].items.remove(j)),
                    )
                }),
    {
        let i = match self.find_inv(inventory_uuid) {
            Some(i) => i,
            None => {
                return Err(DataError::InventoryNotFound);
            },
        };
        let ghost pre = self.invs();
        let mut inv = self.inventories.remove(i);
        proof {
            assert(pre[i as int] == inv@);
        }
        let j = match find_item(&inv, item_uuid) {
            Some(j) => j,
            None => {
                self.inventories.insert(i, inv);
                proof {
                    assert(self.invs() =~= pre);
                }
                return Err(DataError::ItemNotFound);
            },
        };
        let ghost inv_view = inv@;
        inv.items.remove(j);
        proof {
            assert(inv@.items =~= inv_view.items.remove(j as int));
            assert(inv@ =~= with_items(inv_view, inv_view.items.remove(j as int)));
            lemma_inventory_wf_remove_item(inv_view, j as int);
        }
        let ghost nv = inv@;
        self.inventories.insert(i, inv);
        proof {
            assert(self.invs() =~= pre.update(i as int, nv));
            lemma_wf_update(pre, i as int, nv);
        }
        Ok(())
    }
}

/// The index of the item carrying `uuid` within the inventory, if any.
fn find_item(inv: &Inventory, uuid: Id) -> (r: Option<usize>)
    ensures
        match r {
            Some(j) => {
                &&& j < inv@.items.len()
                &&& inv@.items[j as int].uuid == uuid
                &&& forall|l: int| 0 <= l < j ==> inv@.items[l].uuid != uuid
                &&& lookup_item_seq(inv@.items, uuid) == Some(inv@.items[j as int])
            },
            None => {
                &&& forall|l: int| 0 <= l < inv@.items.len() ==> inv@.items[l].uuid != uuid
                &&& lookup_item_seq(inv@.items, uuid) == None::<ItemView>
            },
        },
{
    let mut k: usize = 0;
    while k < inv.items.len()
        invariant
            k <= inv@.items.len(),
            inv@.items.len() == inv.items@.len(),
            forall|l: int| 0 <= l < k ==> inv@.items[l].uuid != uuid,
        decreases inv.items@.len() - k,
    {
        if inv.items[k].uuid == uuid {
            proof {
                assert(inv@.items[k as int] == inv.items@[k as int]@);
                lemma_lookup_item_found(inv@.items, uuid, k as int);
            }
            return Some(k);
        }
        proof {
            assert(inv@.items[k as int] == inv.items@[k as int]@);
        }
        k += 1;
    }
    proof {
        lemma_lookup_item_none(inv@.items, uuid);
    }
    None
}

/// The index of the unit carrying `uuid` within the item, if any.
fn find_unit(it: &Item, uuid: Id) -> (r: Option<usize>)
    ensures
        match r {
            Some(j) => {
                &&& j < it@.units.len()
                &&& it@.units[j as int].uuid == uuid
            },
            None => forall|l: int| 0 <= l < it@.units.len() ==> it@.units[l].uuid != uuid,
        },
{
    let mut k: usize = 0;
    while k < it.units.len()
        invariant
            k <= it.units@.len(),
            it@.units.len() == it.units@.len(),
            forall|l: int| 0 <= l < k ==> it@.units[l].uuid != uuid,
        decreases it.units@.len() - k,
    {
        if it.units[k].uuid == uuid {
            proof {
                assert(it@.units[k as int] == it.units@[k as int]@);
            }
            return Some(k);
        }
        proof {
            assert(it@.units[k as int] == it.units@[k as int]@);
        }
        k += 1;
    }
    None
}

/// Decides whether an item satisfies its internal invariant.
fn check_item_wf(it: &Item) -> (b: bool)
    ensures
        b == item_wf(it@),
{
    let mut k: usize = 0;
    while k < it.units.len()
        invariant
            k <= it.units@.len(),
            it@.units.len() == it.units@.len(),
            forall|l: int|
                0 <= l < k ==> unit_belongs(#[trigger] it@.units[l], it@.uuid, it@.inventory_uuid),
            forall|l: int, m: int| 0 <= l < m < k ==> it@.units[l].uuid != it@.units[m].uuid,
        decreases it.units@.len() - k,
    {
        let u = &it.units[k];
        proof {
            assert(it@.units[k as int] == it.units@[k as int]@);
        }
        if !(u.item_uuid == it.uuid && u.inventory_uuid == it.inventory_uuid) {
            return false;
        }
        let mut l: usize = 0;
        while l < k
            invariant
                l <= k,
                k < it.units@.len(),
                it@.units.len() == it.units@.len(),
                it@.units[k as int] == it.units@[k as int]@,
                forall|m: int| 0 <= m < l ==> it@.units[m].uuid != it@.units[k as int].uuid,
            decreases k - l,
        {
            proof {
                assert(it@.units[l as int] == it.units@[l as int]@);
            }
            if it.units[l].uuid == it.units[k].uuid {
                proof {
                    assert(it@.units[l as int].uuid == it@.units[k as int].uuid);
                    assert(!item_wf(it@));
                }
                return false;
            }
            proof {
                assert(it@.units[l as int].uuid != it@.units[k as int].uuid);
            }
            l += 1;
        }
        k += 1;
    }
    true
}

/// Decides whether an inventory satisfies its internal invariant.
fn check_inventory_wf(inv: &Inventory) -> (b: bool)
    ensures
        b == inventory_wf(inv@),
{
    let mut k: usize = 0;
    while k < inv.items.len()
        invariant
            k <= inv.items@.len(),
            inv@.items.len() == inv.items@.len(),
            forall|l: int| 0 <= l < k ==> (#[trigger] inv@.items[l]).inventory_uuid == inv@.uuid,
            forall|l: int| 0 <= l < k ==> item_wf(#[trigger] inv@.items[l]),
            forall|l: int, m: int| 0 <= l < m < k ==> inv@.items[l].uuid != inv@.items[m].uuid,
        decreases inv.items@.len() - k,
    {
        let it = &inv.items[k];
        proof {
            assert(inv@.items[k as int] == inv.items@[k as int]@);
        }
        if !(it.inventory_uuid == inv.uuid) {
            return false;
        }
        if !check_item_wf(it) {
            return false;
        }
        let mut l: usize = 0;
        while l < k
            invariant
                l <= k,
                k < inv.items@.len(),
                inv@.items.len() == inv.items@.len(),
                inv@.items[k as int] == inv.items@[k as int]@,
                forall|m: int| 0 <= m < l ==> inv@.items[m].uuid != inv@.items[k as int].uuid,
            decreases k - l,
        {
            proof {
                assert(inv@.items[l as int] == inv.items@[l as int]@);
            }
            if inv.items[l].uuid == inv.items[k].uuid {
                proof {
                    assert(inv@.items[l as int].uuid == inv@.items[k as int].uuid);
                    assert(!inventory_wf(inv@));
                }
                return false;
            }
            proof {
                assert(inv@.items[l as int].uuid != inv@.items[k as int].uuid);
            }
            l += 1;
        }
        k += 1;
    }
    true
}

/// Decides whether a whole collection satisfies the store invariant.
pub fn check_collection_wf(v: &Vec<Inventory>) -> (b: bool)
    ensures
        b == collection_wf(inventories_view(v@)),
{
    let ghost s = inventories_view(v@);
    let mut k: usize = 0;
    while k < v.len()
        invariant
            k <= v@.len(),
            s == inventories_view(v@),
            s.len() == v@.len(),
            forall|l: int| 0 <= l < k ==> inventory_wf(#[trigger] s[l]),
            forall|l: int, m: int| 0 <= l < m < k ==> s[l].uuid != s[m].uuid,
        decreases v@.len() - k,
    {
        let inv = &v[k];
        proof {
            assert(s[k as int] == v@[k as int]@);
        }
        if !check_inventory_wf(inv) {
            return false;
        }
        let mut l: usize = 0;
        while l < k
            invariant
                l <= k,
                k < v@.len(),
                s == inventories_view(v@),
                s.len() == v@.len(),
                s[k as int] == v@[k as int]@,
                forall|m: int| 0 <= m < l ==> s[m].uuid != s[k as int].uuid,
            decreases k - l,
        {
            proof {
                assert(s[l as int] == v@[l as int]@);
            }
            if v[l].uuid == v[k].uuid {
                proof {
                    assert(s[l as int].uuid == s[k as int].uuid);
                    assert(!collection_wf(s));
                }
                return false;
            }
            proof {
                assert(s[l as int].uuid != s[k as int].uuid);
            }
            l += 1;
        }
        k += 1;
    }
    true
}

/// What one handled request produces: the replies to deliver, and the
/// snapshot text to persist when the collection changed.
pub struct DataEffects {
    pub responses: Vec<(u64, DataAgentResponse)>,
    pub persist: Option<String>,
}

/// The subscribers that are not the requester, in registration order.
pub open spec fn others(subs: Seq<u64>, requester: u64) -> Seq<u64> {
    subs.filter(|s: u64| s != requester)
}

/// Whether `r`, from position `start` on, delivers a copy of `snap` to
/// every subscriber other than the requester, in registration order.
pub open spec fn broadcasts_from(
    r: Seq<(u64, DataAgentResponse)>,
    start: int,
    subs: Seq<u64>,
    requester: u64,
    snap: Seq<InventoryView>,
) -> bool {
    &&& r.len() == start + others(subs, requester).len()
    &&& forall|k: int|
        start <= k < r.len() ==> (#[trigger] r[k]).0 == others(subs, requester)[k - start]
    &&& forall|k: int|
        start <= k < r.len() ==> ((#[trigger] r[k]).1 matches DataAgentResponse::Inventories(v)
            && inventories_view(v@) == snap)
}

impl DataAgent {
    /// Appends one copy of the current collection for every subscriber
    /// other than the requester.
    fn push_broadcasts(&self, requester: u64, out: &mut Vec<(u64, DataAgentResponse)>)
        ensures
            final(out)@.len() >= old(out)@.len(),
            final(out)@.take(old(out)@.len() as int) == old(out)@,
            broadcasts_from(
                final(out)@,
                old(out)@.len() as int,
                self.subs(),
                requester,
                self.invs(),
            ),
    {
        let ghost base = out@.len() as int;
        let ghost subs = self.subscribers@;
        let mut k: usize = 0;
        while k < self.subscribers.len()
            invariant
                k <= subs.len(),
                subs == self.subscribers@,
                out@.len() >= base,
                base <= old(out)@.len() + subs.len(),
                out@.take(base) == old(out)@,
                base == old(out)@.len(),
                broadcasts_from(out@, base, subs.take(k as int), requester, self.invs()),
            decreases subs.len() - k,
        {
            let sub = self.subscribers[k];
            let ghost pre = out@;
            if sub != requester {
                let copy = crate::domain::clone_inventories(&self.inventories);
                out.push((sub, DataAgentResponse::Inventories(copy)));
            }
            proof {
                reveal(Seq::filter);
                assert(subs.take(k as int + 1).drop_last() =~= subs.take(k as int));
                assert(subs.take(k as int + 1).last() == subs[k as int]);
                if sub != requester {
                    assert(others(subs.take(k as int + 1), requester) == others(
                        subs.take(k as int),
                        requester,
                    ).push(subs[k as int]));
                    assert(out@.take(base) =~= pre.take(base));
                } else {
                    assert(others(subs.take(k as int + 1), requester) == others(
                        subs.take(k as int),
                        requester,
                    ));
                }
            }
            k += 1;
        }
        proof {
            assert(subs.take(subs.len() as int) =~= subs);
        }
    }

    /// Handles one request from the consumer identified by `id`: carries
    /// the operation out against the collection, and produces the direct
    /// reply, the broadcast copies of the new collection for the other
    /// subscribers after a mutation, and — whenever the collection changed
    /// — the snapshot text to write through to durable storage.
    ///
    /// An unauthenticated creation, like the practically impossible
    /// identifier collision, is dropped: no reply, no broadcast, no
    /// persistence.
    #[verifier::rlimit(100)]
    #[verifier::spinoff_prover]
    pub fn handle_input(&mut self, msg: DataAgentRequest, id: u64) -> (r: DataEffects)
        requires
            old(self).wf(),
        ensures
            final(self).wf(),
            final(self).subs() == old(self).subs(),
            final(self).state() == old(self).state(),
            r.persist matches Some(s) ==> s@ == crate::codec::snapshot_text(final(self).invs()),
            final(self).invs() != old(self).invs() ==> r.persist is Some,
            msg matches DataAgentRequest::GetInventories ==> ({
                &&& final(self).invs() == old(self).invs()
                &&& r.persist is None
                &&& r.responses@.len() == 1
                &&& r.responses@[0].0 == id
                &&& (r.responses@[0].1 matches DataAgentResponse::Inventories(v)
                    && inventories_view(v@) == old(self).invs())
            }),
            msg matches DataAgentRequest::GetInventory(uuid) ==> ({
                &&& final(self).invs() == old(self).invs()
                &&& r.persist is None
                &&& r.responses@.len() == 1
                &&& r.responses@[0].0 == id
                &&& (match lookup_inventory(old(self).invs(), uuid) {
                    Some(found) => r.responses@[0].1
                        matches DataAgentResponse::Inventory(inv) && inv@ == found,
                    None => r.responses@[0].1 == DataAgentResponse::InvalidInventoryUuid,
                })
            }),
            msg matches DataAgentRequest::GetItem(inventory_uuid, item_uuid) ==> ({
                &&& final(self).invs() == old(self).invs()
                &&& r.persist is None
                &&& r.responses@.len() == 1
                &&& r.responses@[0].0 == id
                &&& (if lookup_inventory(old(self).invs(), inventory_uuid) is None {
                    r.responses@[0].1 == DataAgentResponse::InvalidInventoryUuid
                } else {
                    match lookup_item(old(self).invs(), inventory_uuid, item_uuid) {
                        Some(found) => r.responses@[0].1
                            matches DataAgentResponse::Item(it) && it@ == found,
                        None => r.responses@[0].1 == DataAgentResponse::InvalidItemUuid,
                    }
                })
            }),
            msg matches DataAgentRequest::CreateInventory(name) ==> ({
                &&& (!(old(self).state() matches AuthState::LoggedIn(_)) ==> r.responses@.len()
                    == 0)
                &&& (r.responses@.len() == 0 ==> final(self).invs() == old(self).invs()
                    && r.persist is None)
                &&& (r.responses@.len() == 0 ==> !(old(self).state()
                    matches AuthState::LoggedIn(_)) || old(self).invs().len() > 0)
                &&& (r.responses@.len() != 0 ==> ({
                    &&& r.responses@[0].0 == id
                    &&& (r.responses@[0].1 matches DataAgentResponse::NewInventoryUuid(uuid)
                        && old(self).state() matches AuthState::LoggedIn(user) && final(self).invs() == old(self).invs().push(
                        InventoryView {
                            uuid,
                            name: name@,
                            owner: user.uuid,
                            admins: Seq::<Id>::empty(),
                            writables: Seq::<Id>::empty(),
                            readables: Seq::<Id>::empty(),
                            items: Seq::<ItemView>::empty(),
                        },
                    ) && lookup_inventory(old(self).invs(), uuid) == None::<InventoryView>
                        && lookup_inventory(final(self).invs(), uuid) == Some(
                        final(self).invs().last(),
                    ))
                    &&& broadcasts_from(r.responses@, 1, old(self).subs(), id, final(self).invs())
                    &&& r.persist is Some
                }))
            }),
            msg matches DataAgentRequest::MakeDebugInventory ==> ({
                &&& (r.responses@.len() == 0 ==> final(self).invs() == old(self).invs()
                    && r.persist is None)
                &&& (r.responses@.len() == 0 ==> old(self).invs().len() > 0)
                &&& (r.responses@.len() != 0 ==> ({
                    let added = final(self).invs().last();
                    &&& r.responses@[0].0 == id
                    &&& (r.responses@[0].1 matches DataAgentResponse::NewInventoryUuid(uuid)
                        && final(self).invs() == old(self).invs().push(added) && added.uuid
                        == uuid && added.name == "debug inv"@ && added.admins == Seq::<
                        Id,
                    >::empty() && added.writables == Seq::<Id>::empty() && added.readables
                        == Seq::<Id>::empty() && added.items == Seq::<ItemView>::empty() && (
                    old(self).state() matches AuthState::LoggedIn(user) ==> added.owner
                        == user.uuid) && lookup_inventory(old(self).invs(), uuid) == None::<
                        InventoryView,
                    > && lookup_inventory(final(self).invs(), uuid) == Some(added))
                    &&& broadcasts_from(r.responses@, 1, old(self).subs(), id, final(self).invs())
                    &&& r.persist is Some
                }))
            }),
            msg matches DataAgentRequest::DeleteAllData ==> ({
                &&& final(self).invs() == Seq::<InventoryView>::empty()
                &&& r.responses@.len() >= 1
                &&& r.responses@[0].0 == id
                &&& (r.responses@[0].1 matches DataAgentResponse::Inventories(v)
                    && inventories_view(v@) == final(self).invs())
                &&& broadcasts_from(r.responses@, 1, old(self).subs(), id, final(self).invs())
                &&& r.persist is Some
            }),
            msg matches DataAgentRequest::DeleteInventory(uuid) ==> ({
                if lookup_inventory(old(self).invs(), uuid) is Some {
                    &&& (exists|i: int|
                        {
                            &&& 0 <= i < old(self).invs().len()
                            &&& (#[trigger] old(self).invs()[i]).uuid == uuid
                            &&& final(self).invs() == old(self).invs().remove(i)
                        })
                    &&& lookup_inventory(final(self).invs(), uuid) == None::<InventoryView>
                    &&& r.responses@.len() >= 1
                    &&& r.responses@[0] == (id, DataAgentResponse::DeletedInventory(uuid))
                    &&& broadcasts_from(r.responses@, 1, old(self).subs(), id, final(self).invs())
                    &&& r.persist is Some
                } else {
                    &&& final(self).invs() == old(self).invs()
                    &&& r.responses@ == seq![(id, DataAgentResponse::InvalidInventoryUuid)]
                    &&& r.persist is None
                }
            }),
            msg matches DataAgentRequest::UpdateInventory {
                uuid,
                name,
                owner,
                admins,
                writables,
                readables,
            } ==> ({
                if lookup_inventory(old(self).invs(), uuid) is Some {
                    &&& (exists|i: int|
                        {
                            &&& 0 <= i < old(self).invs().len()
                            &&& (#[trigger] old(self).invs()[i]).uuid == uuid
                            &&& final(self).invs() == old(self).invs().update(
                                i,
                                with_details(
                                    old(self).invs()[i],
                                    name@,
                                    owner,
                                    admins@,
                                    writables@,
                                    readables@,
                                ),
                            )
                        })
                    &&& r.responses@.len() >= 1
                    &&& r.responses@[0] == (id, DataAgentResponse::UpdatedInventory(uuid))
                    &&& broadcasts_from(r.responses@, 1, old(self).subs(), id, final(self).invs())
                    &&& r.persist is Some
                } else {
                    &&& final(self).invs() == old(self).invs()
                    &&& r.responses@ == seq![(id, DataAgentResponse::InvalidInventoryUuid)]
                    &&& r.persist is None
                }
            }),
            msg matches DataAgentRequest::CreateItem(inventory_uuid, name, ean) ==> ({
                &&& (lookup_inventory(old(self).invs(), inventory_uuid) is None ==> final(self).invs() == old(self).invs() && r.responses@ == seq![
                    (id, DataAgentResponse::InvalidInventoryUuid),
                ] && r.persist is None)
                &&& (r.responses@.len() == 0 ==> final(self).invs() == old(self).invs()
                    && r.persist is None)
                &&& (r.responses@.len() == 0 ==> (lookup_inventory(
                    old(self).invs(),
                    inventory_uuid,
                ) matches Some(found) && found.items.len() > 0))
                &&& ((r.responses@.len() != 0 && lookup_inventory(
                    old(self).invs(),
                    inventory_uuid,
                ) is Some) ==> ({
                    &&& r.responses@[0].0 == id
                    &&& (r.responses@[0].1 matches DataAgentResponse::NewItemUuid(uuid) && (
                    exists|i: int|
                        {
                            &&& 0 <= i < old(self).invs().len()
                            &&& (#[trigger] old(self).invs()[i]).uuid == inventory_uuid
                            &&& final(self).invs() == old(self).invs().update(
                                i,
                                with_items(
                                    old(self).invs()[i],
                                    old(self).invs()[i].items.push(
                                        ItemView {
                                            uuid,
                                            inventory_uuid,
                                            name: name@,
                                            ean: normalize_ean(opt_text_view(ean)),
                                            units: Seq::<UnitView>::empty(),
                                        },
                                    ),
                                ),
                            )
                        }))
                    &&& broadcasts_from(r.responses@, 1, old(self).subs(), id, final(self).invs())
                    &&& r.persist is Some
                }))
            }),
            msg matches DataAgentRequest::UpdateItem(inventory_uuid, item_uuid, name, ean) ==> ({
                if lookup_inventory(old(self).invs(), inventory_uuid) is None {
                    &&& final(self).invs() == old(self).invs()
                    &&& r.responses@ == seq![(id, DataAgentResponse::InvalidInventoryUuid)]
                    &&& r.persist is None
                } else if lookup_item(old(self).invs(), inventory_uuid, item_uuid) is None {
                    &&& final(self).invs() == old(self).invs()
                    &&& r.responses@ == seq![(id, DataAgentResponse::InvalidItemUuid)]
                    &&& r.persist is None
                } else {
                    &&& (exists|i: int, j: int|
                        {
                            &&& 0 <= i < old(self).invs().len()
                            &&& #[trigger] old(self).invs()[i].items[j].uuid == item_uuid
                            &&& old(self).invs()[i].uuid == inventory_uuid
                            &&& 0 <= j < old(self).invs()[i].items.len()
                            &&& final(self).invs() == old(self).invs().update(
                                i,
                                with_items(
                                    old(self).invs()[i],
                                    old(self).invs()[i].items.update(
                                        j,
                                        with_item_details(
                                            old(self).invs()[i].items[j],
                                            name@,
                                            normalize_ean(opt_text_view(ean)),
                                        ),
                                    ),
                                ),
                            )
                        })
                    &&& r.responses@.len() >= 1
                    &&& r.responses@[0] == (id, DataAgentResponse::UpdatedItem)
                    &&& broadcasts_from(r.responses@, 1, old(self).subs(), id, final(self).invs())
                    &&& r.persist is Some
                }
            }),
            msg matches DataAgentRequest::DeleteItem(inventory_uuid, item_uuid) ==> ({
                if lookup_inventory(old(self).invs(), inventory_uuid) is None {
                    &&& final(self).invs() == old(self).invs()
                    &&& r.responses@ == seq![(id, DataAgentResponse::InvalidInventoryUuid)]
                    &&& r.persist is None
                } else if lookup_item(old(self).invs(), inventory_uuid, item_uuid) is None {
                    &&& final(self).invs() == old(self).invs()
                    &&& r.responses@ == seq![(id, DataAgentResponse::InvalidItemUuid)]
                    &&& r.persist is None
                } else {
                    &&& (exists|i: int, j: int|
                        {
                            &&& 0 <= i < old(self).invs().len()
                            &&& #[trigger] old(self).invs()[i].items[j].uuid == item_uuid
                            &&& old(self).invs()[i].uuid == inventory_uuid
                            &&& 0 <= j < old(self).invs()[i].items.len()
                            &&& final(self).invs() == old(self).invs().update(
                                i,
                                with_items(
                                    old(self).invs()[i],
                                    old(self).invs()[i].items.remove(j),
                                ),
                            )
                        })
                    &&& r.responses@.len() >= 1
                    &&& r.responses@[0] == (id, DataAgentResponse::DeletedItem(item_uuid))
                    &&& broadcasts_from(r.responses@, 1, old(self).subs(), id, final(self).invs())
                    &&& r.persist is Some
                }
            }),
            msg matches DataAgentRequest::CreateUnit(inventory_uuid, item_uuid, name) ==> ({
                &&& (lookup_inventory(old(self).invs(), inventory_uuid) is None ==> final(self).invs() == old(self).invs() && r.responses@ == seq![
                    (id, DataAgentResponse::InvalidInventoryUuid),
                ] && r.persist is None)
                &&& ((lookup_inventory(old(self).invs(), inventory_uuid) is Some && lookup_item(
                    old(self).invs(),
                    inventory_uuid,
                    item_uuid,
                ) is None) ==> final(self).invs() == old(self).invs() && r.responses@ == seq![
                    (id, DataAgentResponse::InvalidItemUuid),
                ] && r.persist is None)
                &&& (r.responses@.len() == 0 ==> final(self).invs() == old(self).invs()
                    && r.persist is None)
                &&& (r.responses@.len() == 0 ==> (lookup_item(
                    old(self).invs(),
                    inventory_uuid,
                    item_uuid,
                ) matches Some(found) && found.units.len() > 0))
                &&& ((r.responses@.len() != 0 && lookup_item(
                    old(self).invs(),
                    inventory_uuid,
                    item_uuid,
                ) is Some) ==> ({
                    &&& r.responses@[0].0 == id
                    &&& (r.responses@[0].1 matches DataAgentResponse::NewUnitUuid(uuid) && (
                    exists|i: int, j: int|
                        {
                            &&& 0 <= i < old(self).invs().len()
                            &&& #[trigger] old(self).invs()[i].items[j].uuid == item_uuid
                            &&& old(self).invs()[i].uuid == inventory_uuid
                            &&& 0 <= j < old(self).invs()[i].items.len()
                            &&& final(self).invs() == old(self).invs().update(
                                i,
                                with_items(
                                    old(self).invs()[i],
                                    old(self).invs()[i].items.update(
                                        j,
                                        with_units(
                                            old(self).invs()[i].items[j],
                                            old(self).invs()[i].items[j].units.push(
                                                UnitView {
                                                    uuid,
                                                    item_uuid,
                                                    inventory_uuid,
                                                    name: name@,
                                                },
                                            ),
                                        ),
                                    ),
                                ),
                            )
                        }))
                    &&& broadcasts_from(r.responses@, 1, old(self).subs(), id, final(self).invs())
                    &&& r.persist is Some
                }))
            }),
    {
        let mut responses: Vec<(u64, DataAgentResponse)> = Vec::new();
        let mut persist: Option<String> = None;
        match msg {
            DataAgentRequest::GetInventories => {
                responses.push((id, DataAgentResponse::Inventories(self.get_inventories())));
            },
            DataAgentRequest::GetInventory(uuid) => {
                match self.get_inventory(uuid) {
                    Some(inv) => {
                        responses.push((id, DataAgentResponse::Inventory(inv)));
                    },
                    None => {
                        responses.push((id, DataAgentResponse::InvalidInventoryUuid));
                        proof {
                            assert(responses@ =~= seq![(id, DataAgentResponse::InvalidInventoryUuid)]);
                        }
                    },
                }
            },
            DataAgentRequest::GetItem(inventory_uuid, item_uuid) => {
                match self.get_item(inventory_uuid, item_uuid) {
                    Ok(it) => {
                        responses.push((id, DataAgentResponse::Item(it)));
                    },
                    Err(DataError::InventoryNotFound) => {
                        responses.push((id, DataAgentResponse::InvalidInventoryUuid));
                        proof {
                            assert(responses@ =~= seq![(id, DataAgentResponse::InvalidInventoryUuid)]);
                        }
                    },
                    Err(_) => {
                        responses.push((id, DataAgentResponse::InvalidItemUuid));
                        proof {
                            assert(responses@ =~= seq![(id, DataAgentResponse::InvalidItemUuid)]);
                        }
                    },
                }
            },
            DataAgentRequest::CreateInventory(name) => {
                let ghost requested = name@;
                match self.create_inventory(name) {
                    Some(uuid) => {
                        proof {
                            lemma_create_then_get(*old(self), *self, requested, uuid);
                        }
                        responses.push((id, DataAgentResponse::NewInventoryUuid(uuid)));
                        let ghost direct = responses@;
                        self.push_broadcasts(id, &mut responses);
                        proof {
                            assert(responses@.take(1)[0] == responses@[0]);
                            assert(responses@[0] == direct[0]);
                        }
                        persist = Some(crate::codec::encode_snapshot(&self.inventories));
                    },
                    None => {},
                }
            },
            DataAgentRequest::MakeDebugInventory => {
                match self.make_debug_inventory() {
                    Some(uuid) => {
                        proof {
                            let pre = old(self).invs();
                            let t = self.invs();
                            lemma_lookup_inventory_none_char(pre, uuid);
                            assert forall|j: int| 0 <= j < t.len() - 1 implies t[j].uuid
                                != uuid by {
                                assert(t[j] == pre[j]);
                            }
                            lemma_lookup_inventory_found(t, uuid, t.len() - 1);
                        }
                        responses.push((id, DataAgentResponse::NewInventoryUuid(uuid)));
                        let ghost direct = responses@;
                        self.push_broadcasts(id, &mut responses);
                        proof {
                            assert(responses@.take(1)[0] == responses@[0]);
                            assert(responses@[0] == direct[0]);
                        }
                        persist = Some(crate::codec::encode_snapshot(&self.inventories));
                    },
                    None => {},
                }
            },
            DataAgentRequest::DeleteAllData => {
                self.delete_all_data();
                responses.push((id, DataAgentResponse::Inventories(self.get_inventories())));
                let ghost direct = responses@;
                self.push_broadcasts(id, &mut responses);
                proof {
                    assert(responses@.take(1)[0] == responses@[0]);
                    assert(responses@[0] == direct[0]);
                }
                persist = Some(crate::codec::encode_snapshot(&self.inventories));
            },
            DataAgentRequest::DeleteInventory(uuid) => {
                if self.delete_inventory(uuid) {
                    responses.push((id, DataAgentResponse::DeletedInventory(uuid)));
                    let ghost direct = responses@;
                    self.push_broadcasts(id, &mut responses);
                    proof {
                        assert(responses@.take(1)[0] == responses@[0]);
                        assert(responses@[0] == direct[0]);
                    }
                    persist = Some(crate::codec::encode_snapshot(&self.inventories));
                } else {
                    responses.push((id, DataAgentResponse::InvalidInventoryUuid));
                    proof {
                        assert(responses@ =~= seq![(id, DataAgentResponse::InvalidInventoryUuid)]);
                    }
                }
            },
            DataAgentRequest::UpdateInventory { uuid, name, owner, admins, writables, readables } => {
                if self.update_inventory(uuid, name, owner, admins, writables, readables) {
                    responses.push((id, DataAgentResponse::UpdatedInventory(uuid)));
                    let ghost direct = responses@;
                    self.push_broadcasts(id, &mut responses);
                    proof {
                        assert(responses@.take(1)[0] == responses@[0]);
                        assert(responses@[0] == direct[0]);
                    }
                    persist = Some(crate::codec::encode_snapshot(&self.inventories));
                } else {
                    responses.push((id, DataAgentResponse::InvalidInventoryUuid));
                    proof {
                        assert(responses@ =~= seq![(id, DataAgentResponse::InvalidInventoryUuid)]);
                    }
                }
            },
            DataAgentRequest::CreateItem(inventory_uuid, name, ean) => {
                match self.create_item(inventory_uuid, name, ean) {
                    Ok(uuid) => {
                        responses.push((id, DataAgentResponse::NewItemUuid(uuid)));
                        let ghost direct = responses@;
                        self.push_broadcasts(id, &mut responses);
                        proof {
                            assert(responses@.take(1)[0] == responses@[0]);
                            assert(responses@[0] == direct[0]);
                        }
                        persist = Some(crate::codec::encode_snapshot(&self.inventories));
                    },
                    Err(DataError::InventoryNotFound) => {
                        responses.push((id, DataAgentResponse::InvalidInventoryUuid));
                        proof {
                            assert(responses@ =~= seq![(id, DataAgentResponse::InvalidInventoryUuid)]);
                        }
                    },
                    Err(_) => {},
                }
            },
            DataAgentRequest::UpdateItem(inventory_uuid, item_uuid, name, ean) => {
                match self.update_item(inventory_uuid, item_uuid, name, ean) {
                    Ok(_) => {
                        responses.push((id, DataAgentResponse::UpdatedItem));
                        let ghost direct = responses@;
                        self.push_broadcasts(id, &mut responses);
                        proof {
                            assert(responses@.take(1)[0] == responses@[0]);
                            assert(responses@[0] == direct[0]);
                        }
                        persist = Some(crate::codec::encode_snapshot(&self.inventories));
                    },
                    Err(DataError::InventoryNotFound) => {
                        responses.push((id, DataAgentResponse::InvalidInventoryUuid));
                        proof {
                            assert(responses@ =~= seq![(id, DataAgentResponse::InvalidInventoryUuid)]);
                        }
                    },
                    Err(_) => {
                        responses.push((id, DataAgentResponse::InvalidItemUuid));
                        proof {
                            assert(responses@ =~= seq![(id, DataAgentResponse::InvalidItemUuid)]);
                        }
                    },
                }
            },
            DataAgentRequest::DeleteItem(inventory_uuid, item_uuid) => {
                match self.delete_item(inventory_uuid, item_uuid) {
                    Ok(_) => {
                        responses.push((id, DataAgentResponse::DeletedItem(item_uuid)));
                        let ghost direct = responses@;
                        self.push_broadcasts(id, &mut responses);
                        proof {
                            assert(responses@.take(1)[0] == responses@[0]);
                            assert(responses@[0] == direct[0]);
                        }
                        persist = Some(crate::codec::encode_snapshot(&self.inventories));
                    },
                    Err(DataError::InventoryNotFound) => {
                        responses.push((id, DataAgentResponse::InvalidInventoryUuid));
                        proof {
                            assert(responses@ =~= seq![(id, DataAgentResponse::InvalidInventoryUuid)]);
                        }
                    },
                    Err(_) => {
                        responses.push((id, DataAgentResponse::InvalidItemUuid));
                        proof {
                            assert(responses@ =~= seq![(id, DataAgentResponse::InvalidItemUuid)]);
                        }
                    },
                }
            },
            DataAgentRequest::CreateUnit(inventory_uuid, item_uuid, name) => {
                match self.create_unit(inventory_uuid, item_uuid, name) {
                    Ok(uuid) => {
                        responses.push((id, DataAgentResponse::NewUnitUuid(uuid)));
                        let ghost direct = responses@;
                        self.push_broadcasts(id, &mut responses);
                        proof {
                            assert(responses@.take(1)[0] == responses@[0]);
                            assert(responses@[0] == direct[0]);
                        }
                        persist = Some(crate::codec::encode_snapshot(&self.inventories));
                    },
                    Err(DataError::InventoryNotFound) => {
                        responses.push((id, DataAgentResponse::InvalidInventoryUuid));
                        proof {
                            assert(responses@ =~= seq![(id, DataAgentResponse::InvalidInventoryUuid)]);
                        }
                    },
                    Err(DataError::ItemNotFound) => {
                        responses.push((id, DataAgentResponse::InvalidItemUuid));
                        proof {
                            assert(responses@ =~= seq![(id, DataAgentResponse::InvalidItemUuid)]);
                        }
                    },
                    Err(_) => {},
                }
            },
        }
        DataEffects { responses, persist }
    }
}

} // verus!
