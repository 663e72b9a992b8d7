use crate::indexed_set::{swap_remove, IndexedSet};
use std::collections::HashMap;
use vstd::prelude::*;

verus! {

broadcast use vstd::std_specs::hash::group_hash_axioms;

/// An account, as the caller's authentication hands it over.
pub type AccountId = u64;

/// A kitty's id: a hash value, unique among the kitties minted.
pub type KittyId = u64;

/// An amount of the ledger's currency.
pub type Balance = u64;

/// The longest name, in bytes, that a kitty can be given.
pub const MAX_NAME_LEN: usize = 64;

/// A kitty's record: a price of 0 means it is not for sale.
#[derive(Clone, Debug, PartialEq)]
pub struct Kitty {
    pub id: KittyId,
    pub name: Vec<u8>,
    pub dna: KittyId,
    pub price: Balance,
    pub gen: u64,
}

/// The same kitty with another price.
pub open spec fn with_price(k: Kitty, price: Balance) -> Kitty {
    Kitty { id: k.id, name: k.name, dna: k.dna, price: price, gen: k.gen }
}

/// A notice of a state change, one per successful call (two for a purchase).
#[derive(Clone, Copy, Debug, PartialEq, Eq, Structural)]
pub enum Event {
    Created(AccountId, KittyId),
    PriceSet(AccountId, KittyId, Balance),
    Transferred(AccountId, AccountId, KittyId),
    Bought(AccountId, AccountId, KittyId, Balance),
}

/// Why a call was refused; a refused call changes nothing.
#[derive(Clone, Copy, Debug, PartialEq, Eq, Structural)]
pub enum KittyError {
    AssetAlreadyExists,
    NotFound,
    NotOwner,
    OwnershipMismatch,
    CountOverflow,
    NotForSale,
    PriceExceedsLimit,
    SelfPurchase,
    InsufficientFunds,
    NameTooLong,
}

/// What the buyer owes the seller once a purchase is recorded.
#[derive(Clone, Copy, Debug, PartialEq, Eq, Structural)]
pub struct Payment {
    pub from: AccountId,
    pub to: AccountId,
    pub amount: Balance,
}

/// The registry, the ownership index, the global enumerator, one enumerator
/// per owner, the nonce and the event log.
pub struct Module {
    kitties: HashMap<KittyId, Kitty>,
    owners: HashMap<KittyId, AccountId>,
    all_kitties: IndexedSet,
    owned_kitties: HashMap<AccountId, IndexedSet>,
    nonce: u64,
    events: Vec<Event>,
}

impl Module {
    pub closed spec fn kitties_map(&self) -> Map<KittyId, Kitty> {
        self.kitties@
    }

    pub closed spec fn owners_map(&self) -> Map<KittyId, AccountId> {
        self.owners@
    }

    /// The global enumerator's array.
    pub closed spec fn all_seq(&self) -> Seq<KittyId> {
        self.all_kitties@
    }

    /// The array of `a`'s enumerator; empty for an account that never owned one.
    pub closed spec fn owned_seq(&self, a: AccountId) -> Seq<KittyId> {
        if self.owned_kitties@.contains_key(a) {
            self.owned_kitties@[a]@
        } else {
            Seq::empty()
        }
    }

    /// The slot that `id` holds in `a`'s enumerator.
    pub closed spec fn owned_position(&self, a: AccountId, id: KittyId) -> int {
        self.owned_kitties@[a].positions()[id] as int
    }

    pub closed spec fn nonce_value(&self) -> u64 {
        self.nonce
    }

    pub closed spec fn event_log(&self) -> Seq<Event> {
        self.events@
    }

    pub closed spec fn enumerators_wf(&self) -> bool {
        &&& self.all_kitties.wf()
        &&& forall|a: AccountId| #[trigger]
            self.owned_kitties@.contains_key(a) ==> self.owned_kitties@[a].wf()
    }

    pub open spec fn is_owner(&self, a: AccountId, id: KittyId) -> bool {
        self.owners_map().contains_key(id) && self.owners_map()[id] == a
    }

    /// Every kitty has exactly one owner, stands once in the global
    /// enumerator and once in its owner's enumerator, and nowhere else.
    pub open spec fn wf(&self) -> bool {
        &&& self.enumerators_wf()
        &&& self.kitties_map().dom() == self.owners_map().dom()
        &&& self.all_seq().no_duplicates()
        &&& forall|id: KittyId| #[trigger]
            self.all_seq().contains(id) <==> self.kitties_map().contains_key(id)
        &&& forall|a: AccountId| #[trigger] self.owned_seq(a).no_duplicates()
        &&& forall|a: AccountId, id: KittyId| #[trigger]
            self.owned_seq(a).contains(id) <==> self.is_owner(a, id)
    }

    /// `kitty` was registered under `id` for `to`, in both enumerators, and
    /// announced; nothing else changed but the nonce, which this leaves open.
    pub open spec fn registered(pre: Module, post: Module, to: AccountId, id: KittyId, kitty: Kitty) -> bool {
        &&& post.kitties_map() == pre.kitties_map().insert(id, kitty)
        &&& post.owners_map() == pre.owners_map().insert(id, to)
        &&& post.all_seq() == pre.all_seq().push(id)
        &&& post.owned_seq(to) == pre.owned_seq(to).push(id)
        &&& forall|a: AccountId| a != to ==> #[trigger] post.owned_seq(a) == pre.owned_seq(a)
        &&& post.event_log() == pre.event_log().push(Event::Created(to, id))
    }

    /// State after a successful `mint(to, id, kitty)`.
    pub open spec fn minted(pre: Module, post: Module, to: AccountId, id: KittyId, kitty: Kitty) -> bool {
        &&& Module::registered(pre, post, to, id, kitty)
        &&& post.nonce_value() == pre.nonce_value()
    }

    /// The record that a new kitty starts with: its id doubles as its dna,
    /// and it is not for sale.
    pub open spec fn fresh_kitty(id: KittyId, name: Vec<u8>) -> Kitty {
        Kitty { id: id, name: name, dna: id, price: 0, gen: 0 }
    }

    /// The nonce after `n`: one more, wrapping round at the top.
    pub open spec fn next_nonce(n: u64) -> u64 {
        if n == u64::MAX {
            0
        } else {
            (n + 1) as u64
        }
    }

    /// Ownership, both enumerators and the nonce are as before.
    pub open spec fn same_ownership(pre: Module, post: Module) -> bool {
        &&& post.owners_map() == pre.owners_map()
        &&& post.all_seq() == pre.all_seq()
        &&& forall|a: AccountId| #[trigger] post.owned_seq(a) == pre.owned_seq(a)
        &&& post.nonce_value() == pre.nonce_value()
    }

    /// State after a successful `set_price(owner, id, price)`.
    pub open spec fn price_set(pre: Module, post: Module, owner: AccountId, id: KittyId, price: Balance) -> bool {
        &&& Module::same_ownership(pre, post)
        &&& post.kitties_map() == pre.kitties_map().insert(id, with_price(pre.kitties_map()[id], price))
        &&& post.event_log() == pre.event_log().push(Event::PriceSet(owner, id, price))
    }

    pub open spec fn seller(&self, id: KittyId) -> AccountId {
        self.owners_map()[id]
    }

    pub open spec fn asking_price(&self, id: KittyId) -> Balance {
        self.kitties_map()[id].price
    }

    /// State after a successful `buy_kitty(buyer, id, ..)`: the kitty went
    /// from its seller to the buyer and is no longer for sale.
    pub open spec fn bought(pre: Module, post: Module, buyer: AccountId, id: KittyId) -> bool {
        &&& Module::ownership_moved(pre, post, pre.seller(id), buyer, id)
        &&& post.kitties_map() == pre.kitties_map().insert(id, with_price(pre.kitties_map()[id], 0))
        &&& post.event_log() == pre.event_log().push(Event::Transferred(pre.seller(id), buyer, id)).push(
            Event::Bought(buyer, pre.seller(id), id, pre.asking_price(id)),
        )
    }

    /// Ownership of `id` went from `from` to `to`, and the two owners'
    /// enumerators followed: a swap and pop on one side, an append on the other.
    pub open spec fn ownership_moved(pre: Module, post: Module, from: AccountId, to: AccountId, id: KittyId) -> bool {
        let removed = swap_remove(pre.owned_seq(from), pre.owned_position(from, id));
        &&& post.owners_map() == pre.owners_map().insert(id, to)
        &&& post.all_seq() == pre.all_seq()
        &&& post.owned_seq(to) == (if from == to { removed } else { pre.owned_seq(to) }).push(id)
        &&& from != to ==> post.owned_seq(from) == removed
        &&& from != to ==> post.owned_seq(from).to_set() == pre.owned_seq(from).to_set().remove(id)
        &&& from != to ==> post.owned_seq(to).to_set() == pre.owned_seq(to).to_set().insert(id)
        &&& forall|a: AccountId| a != from && a != to ==> #[trigger] post.owned_seq(a) == pre.owned_seq(a)
        &&& post.nonce_value() == pre.nonce_value()
    }

    /// State after a successful `transfer_from(from, to, id)`.
    pub open spec fn transferred(pre: Module, post: Module, from: AccountId, to: AccountId, id: KittyId) -> bool {
        &&& Module::ownership_moved(pre, post, from, to, id)
        &&& post.kitties_map() == pre.kitties_map()
        &&& post.event_log() == pre.event_log().push(Event::Transferred(from, to, id))
    }

    pub fn new() -> (r: Self)
        ensures
            r.wf(),
            r.kitties_map() == Map::<KittyId, Kitty>::empty(),
            r.owners_map() == Map::<KittyId, AccountId>::empty(),
            r.all_seq() == Seq::<KittyId>::empty(),
            forall|a: AccountId| #[trigger] r.owned_seq(a) == Seq::<KittyId>::empty(),
            r.nonce_value() == 0,
            r.event_log() == Seq::<Event>::empty(),
    {
        let r = Module {
            kitties: HashMap::new(),
            owners: HashMap::new(),
            all_kitties: IndexedSet::new(),
            owned_kitties: HashMap::new(),
            nonce: 0,
            events: Vec::new(),
        };
        assert(r.kitties_map().dom() =~= r.owners_map().dom());
        r
    }

    pub fn kitty(&self, kitty_id: KittyId) -> (r: Option<&Kitty>)
        ensures
            r.is_some() == self.kitties_map().contains_key(kitty_id),
            r.is_some() ==> *r.unwrap() == self.kitties_map()[kitty_id],
    {
        self.kitties.get(&kitty_id)
    }

    pub fn owner_of(&self, kitty_id: KittyId) -> (r: Option<AccountId>)
        ensures
            r.is_some() == self.owners_map().contains_key(kitty_id),
            r.is_some() ==> r.unwrap() == self.owners_map()[kitty_id],
    {
        match self.owners.get(&kitty_id) {
            Some(owner) => Some(*owner),
            None => None,
        }
    }

    pub fn all_kitties_count(&self) -> (r: u64)
        requires
            self.wf(),
        ensures
            r == self.all_seq().len(),
    {
        self.all_kitties.len()
    }

    /// The kitty in slot `index` of the global enumerator.
    pub fn kitty_by_index(&self, index: u64) -> (r: Option<KittyId>)
        requires
            self.wf(),
        ensures
            index < self.all_seq().len() ==> r == Some(self.all_seq()[index as int]),
            index >= self.all_seq().len() ==> r.is_none(),
    {
        self.all_kitties.get(index)
    }

    /// The kitty in slot `index` of `owner`'s enumerator.
    pub fn kitty_of_owner_by_index(&self, owner: AccountId, index: u64) -> (r: Option<KittyId>)
        requires
            self.wf(),
        ensures
            index < self.owned_seq(owner).len() ==> r == Some(self.owned_seq(owner)[index as int]),
            index >= self.owned_seq(owner).len() ==> r.is_none(),
    {
        match self.owned_kitties.get(&owner) {
            Some(s) => s.get(index),
            None => None,
        }
    }

    pub fn nonce(&self) -> (r: u64)
        ensures
            r == self.nonce_value(),
    {
        self.nonce
    }

    /// Every event emitted so far, oldest first.
    pub fn events(&self) -> (r: &Vec<Event>)
        ensures
            r@ == self.event_log(),
    {
        &self.events
    }

    pub fn owned_kitty_count(&self, a: AccountId) -> (r: u64)
        requires
            self.wf(),
        ensures
            r == self.owned_seq(a).len(),
    {
        match self.owned_kitties.get(&a) {
            Some(s) => s.len(),
            None => 0,
        }
    }

    /// Registers `new_kitty` under `kitty_id` as owned by `to`, and appends
    /// it to the global enumerator and to `to`'s.
    pub fn mint(&mut self, to: AccountId, kitty_id: KittyId, new_kitty: Kitty) -> (r: Result<(), KittyError>)
        requires
            old(self).wf(),
        ensures
            final(self).wf(),
            old(self).kitties_map().contains_key(kitty_id) ==> r == Err::<(), KittyError>(KittyError::AssetAlreadyExists),
            !old(self).kitties_map().contains_key(kitty_id) && (old(self).owned_seq(to).len() == u64::MAX
                || old(self).all_seq().len() == u64::MAX) ==> r == Err::<(), KittyError>(KittyError::CountOverflow),
            r.is_ok() <==> !old(self).kitties_map().contains_key(kitty_id) && old(self).owned_seq(to).len() < u64::MAX
                && old(self).all_seq().len() < u64::MAX,
            r.is_ok() ==> Module::minted(*old(self), *final(self), to, kitty_id, new_kitty),
            r.is_err() ==> *final(self) == *old(self),
    {
        if self.owners.contains_key(&kitty_id) {
            return Err(KittyError::AssetAlreadyExists);
        }
        let owned_count = self.owned_kitty_count(to);
        if owned_count == u64::MAX {
            return Err(KittyError::CountOverflow);
        }
        let all_count = self.all_kitties.len();
        if all_count == u64::MAX {
            return Err(KittyError::CountOverflow);
        }
        proof {
            assert(!self.all_seq().contains(kitty_id));
            assert(!self.owned_seq(to).contains(kitty_id));
        }
        let ghost pre = *self;
        self.kitties.insert(kitty_id, new_kitty);
        self.owners.insert(kitty_id, to);
        self.all_kitties.append(kitty_id);
        let ghost inserted = *self;
        self.append_owned(to, kitty_id);
        let ghost mid = *self;
        self.events.push(Event::Created(to, kitty_id));
        proof {
            assert(self.kitties_map().dom() =~= self.owners_map().dom());
            assert forall|id: KittyId| #[trigger]
                self.kitties_map().contains_key(id) implies self.all_seq().contains(id) by {
                if id != kitty_id {
                    assert(pre.all_seq().contains(id));
                    let j = choose|j: int| 0 <= j < pre.all_seq().len() && pre.all_seq()[j] == id;
                    assert(self.all_seq()[j] == id);
                } else {
                    assert(self.all_seq()[self.all_seq().len() - 1] == id);
                }
            }
            assert forall|id: KittyId| #[trigger]
                self.all_seq().contains(id) implies self.kitties_map().contains_key(id) by {
                if id != kitty_id {
                    let j = choose|j: int| 0 <= j < self.all_seq().len() && self.all_seq()[j] == id;
                    assert(j < pre.all_seq().len());
                    assert(pre.all_seq()[j] == id);
                    assert(pre.all_seq().contains(id));
                }
            }
            assert forall|a: AccountId| #[trigger] self.owned_seq(a).no_duplicates() by {
                assert(self.owned_seq(a) == mid.owned_seq(a));
                if a != to {
                    assert(mid.owned_seq(a) == inserted.owned_seq(a));
                    assert(inserted.owned_seq(a) == pre.owned_seq(a));
                    assert(pre.owned_seq(a).no_duplicates());
                }
            }
            assert forall|a: AccountId, id: KittyId| #[trigger]
                self.owned_seq(a).contains(id) <==> self.is_owner(a, id) by {
                assert(self.owned_seq(a) == mid.owned_seq(a));
                assert(inserted.owned_seq(a) == pre.owned_seq(a));
                if a == to {
                    if id != kitty_id {
                        if pre.owned_seq(a).contains(id) {
                            let j = choose|j: int| 0 <= j < pre.owned_seq(a).len() && pre.owned_seq(a)[j] == id;
                            assert(self.owned_seq(a)[j] == id);
                        }
                        if self.owned_seq(a).contains(id) {
                            let j = choose|j: int| 0 <= j < self.owned_seq(a).len() && self.owned_seq(a)[j] == id;
                            assert(pre.owned_seq(a)[j] == id);
                        }
                        assert(pre.owned_seq(a).contains(id) <==> pre.is_owner(a, id));
                    } else {
                        assert(self.owned_seq(a)[self.owned_seq(a).len() - 1] == id);
                    }
                } else {
                    assert(pre.owned_seq(a).contains(id) <==> pre.is_owner(a, id));
                    if id == kitty_id {
                        assert(!pre.owned_seq(a).contains(id));
                    }
                }
            }
            assert forall|a: AccountId| a != to implies #[trigger] self.owned_seq(a) == pre.owned_seq(a) by {
                assert(self.owned_seq(a) == mid.owned_seq(a));
                assert(mid.owned_seq(a) == inserted.owned_seq(a));
                assert(inserted.owned_seq(a) == pre.owned_seq(a));
            }
            assert(self.owned_seq(to) == mid.owned_seq(to));
            assert(inserted.owned_seq(to) == pre.owned_seq(to));
        }
        Ok(())
    }

    /// Moves `kitty_id` from `from`'s enumerator to `to`'s and makes `to` its owner.
    pub fn transfer_from(&mut self, from: AccountId, to: AccountId, kitty_id: KittyId) -> (r: Result<(), KittyError>)
        requires
            old(self).wf(),
        ensures
            final(self).wf(),
            !old(self).is_owner(from, kitty_id) ==> r == Err::<(), KittyError>(KittyError::OwnershipMismatch),
            old(self).is_owner(from, kitty_id) && old(self).owned_seq(to).len() == u64::MAX ==> r == Err::<
                (),
                KittyError,
            >(KittyError::CountOverflow),
            r.is_ok() <==> old(self).is_owner(from, kitty_id) && old(self).owned_seq(to).len() < u64::MAX,
            r.is_ok() ==> Module::transferred(*old(self), *final(self), from, to, kitty_id),
            r.is_err() ==> *final(self) == *old(self),
    {
        match self.owners.get(&kitty_id) {
            Some(owner) => {
                if *owner != from {
                    return Err(KittyError::OwnershipMismatch);
                }
            },
            None => {
                return Err(KittyError::OwnershipMismatch);
            },
        }
        let count_to = self.owned_kitty_count(to);
        if count_to == u64::MAX {
            return Err(KittyError::CountOverflow);
        }
        let ghost pre = *self;
        proof {
            assert(pre.owned_seq(from).contains(kitty_id));
            if from != to {
                assert(!pre.owned_seq(to).contains(kitty_id));
            }
        }
        self.remove_owned(from, kitty_id);
        let ghost s1 = *self;
        proof {
            assert(!s1.owned_seq(to).to_set().contains(kitty_id));
            if from != to {
                assert(s1.owned_seq(to) == pre.owned_seq(to));
            }
        }
        self.append_owned(to, kitty_id);
        let ghost s2 = *self;
        self.owners.insert(kitty_id, to);
        self.events.push(Event::Transferred(from, to, kitty_id));
        proof {
            assert(self.kitties_map().dom() =~= self.owners_map().dom());
            assert forall|a: AccountId| #[trigger] self.owned_seq(a) == s2.owned_seq(a) by {}
            assert forall|a: AccountId| a != from && a != to implies #[trigger] self.owned_seq(a) == pre.owned_seq(a) by {
                assert(s2.owned_seq(a) == s1.owned_seq(a));
            }
            assert forall|a: AccountId| #[trigger] self.owned_seq(a).no_duplicates() by {
                assert(self.owned_seq(a) == s2.owned_seq(a));
                if a != to {
                    assert(s2.owned_seq(a) == s1.owned_seq(a));
                    if a != from {
                        assert(pre.owned_seq(a).no_duplicates());
                    }
                }
            }
            assert forall|a: AccountId, id: KittyId| #[trigger]
                self.owned_seq(a).contains(id) <==> self.is_owner(a, id) by {
                assert(self.owned_seq(a) == s2.owned_seq(a));
                assert(self.owned_seq(a).contains(id) <==> s2.owned_seq(a).to_set().contains(id));
                assert(pre.owned_seq(a).contains(id) <==> pre.is_owner(a, id));
                assert(pre.owned_seq(a).contains(id) <==> pre.owned_seq(a).to_set().contains(id));
                if a == to {
                    assert(s2.owned_seq(a).to_set() == s1.owned_seq(a).to_set().insert(kitty_id));
                    if a == from {
                        assert(s1.owned_seq(a).to_set() == pre.owned_seq(a).to_set().remove(kitty_id));
                    } else {
                        assert(s1.owned_seq(a) == pre.owned_seq(a));
                    }
                } else {
                    assert(s2.owned_seq(a) == s1.owned_seq(a));
                    if a == from {
                        assert(s1.owned_seq(a).to_set() == pre.owned_seq(a).to_set().remove(kitty_id));
                    } else {
                        assert(s1.owned_seq(a) == pre.owned_seq(a));
                    }
                }
            }
            if from != to {
                assert(s2.owned_seq(from) == s1.owned_seq(from));
                assert(s1.owned_seq(to) == pre.owned_seq(to));
            }
        }
        Ok(())
    }

    /// Mints a kitty named `name` for `sender` under `random_hash`, the id
    /// drawn from the random seed, the sender and the current nonce, and
    /// advances the nonce.
    pub fn create_kitty(&mut self, sender: AccountId, name: Vec<u8>, random_hash: KittyId) -> (r: Result<(), KittyError>)
        requires
            old(self).wf(),
        ensures
            final(self).wf(),
            name@.len() > MAX_NAME_LEN ==> r == Err::<(), KittyError>(KittyError::NameTooLong),
            name@.len() <= MAX_NAME_LEN && old(self).kitties_map().contains_key(random_hash) ==> r == Err::<
                (),
                KittyError,
            >(KittyError::AssetAlreadyExists),
            name@.len() <= MAX_NAME_LEN && !old(self).kitties_map().contains_key(random_hash) && (old(self).owned_seq(
                sender,
            ).len() == u64::MAX || old(self).all_seq().len() == u64::MAX) ==> r == Err::<(), KittyError>(
                KittyError::CountOverflow,
            ),
            r.is_ok() <==> name@.len() <= MAX_NAME_LEN && !old(self).kitties_map().contains_key(random_hash)
                && old(self).owned_seq(sender).len() < u64::MAX && old(self).all_seq().len() < u64::MAX,
            r.is_ok() ==> Module::registered(*old(self), *final(self), sender, random_hash, Module::fresh_kitty(random_hash, name)),
            r.is_ok() ==> final(self).nonce_value() == Module::next_nonce(old(self).nonce_value()),
            r.is_err() ==> *final(self) == *old(self),
    {
        if name.len() > MAX_NAME_LEN {
            return Err(KittyError::NameTooLong);
        }
        let ghost name_value = name;
        let new_kitty = Kitty { id: random_hash, name: name, dna: random_hash, price: 0, gen: 0 };
        assert(new_kitty == Module::fresh_kitty(random_hash, name_value));
        let ghost pre = *self;
        match self.mint(sender, random_hash, new_kitty) {
            Ok(()) => {},
            Err(e) => {
                return Err(e);
            },
        }
        let ghost mid = *self;
        self.nonce = if self.nonce == u64::MAX {
            0
        } else {
            self.nonce + 1
        };
        proof {
            assert forall|a: AccountId| #[trigger] self.owned_seq(a) == mid.owned_seq(a) by {}
        }
        Ok(())
    }

    /// Sets the price of a kitty that `sender` owns; 0 takes it off sale.
    pub fn set_price(&mut self, sender: AccountId, kitty_id: KittyId, new_price: Balance) -> (r: Result<(), KittyError>)
        requires
            old(self).wf(),
        ensures
            final(self).wf(),
            !old(self).kitties_map().contains_key(kitty_id) ==> r == Err::<(), KittyError>(KittyError::NotFound),
            old(self).kitties_map().contains_key(kitty_id) && !old(self).is_owner(sender, kitty_id) ==> r == Err::<
                (),
                KittyError,
            >(KittyError::NotOwner),
            r.is_ok() <==> old(self).is_owner(sender, kitty_id),
            r.is_ok() ==> Module::price_set(*old(self), *final(self), sender, kitty_id, new_price),
            r.is_err() ==> *final(self) == *old(self),
    {
        if !self.kitties.contains_key(&kitty_id) {
            return Err(KittyError::NotFound);
        }
        match self.owners.get(&kitty_id) {
            Some(owner) => {
                if *owner != sender {
                    return Err(KittyError::NotOwner);
                }
            },
            None => {
                return Err(KittyError::NotOwner);
            },
        }
        let ghost pre = *self;
        self.put_price(kitty_id, new_price);
        self.events.push(Event::PriceSet(sender, kitty_id, new_price));
        proof {
            assert forall|a: AccountId| #[trigger] self.owned_seq(a) == pre.owned_seq(a) by {}
            assert(self.kitties_map().dom() =~= pre.kitties_map().dom());
            assert(self.enumerators_wf());
        }
        Ok(())
    }

    /// Moves a kitty that `sender` owns to `to`.
    pub fn transfer(&mut self, sender: AccountId, to: AccountId, kitty_id: KittyId) -> (r: Result<(), KittyError>)
        requires
            old(self).wf(),
        ensures
            final(self).wf(),
            !old(self).owners_map().contains_key(kitty_id) ==> r == Err::<(), KittyError>(KittyError::NotFound),
            old(self).owners_map().contains_key(kitty_id) && !old(self).is_owner(sender, kitty_id) ==> r == Err::<
                (),
                KittyError,
            >(KittyError::NotOwner),
            old(self).is_owner(sender, kitty_id) && old(self).owned_seq(to).len() == u64::MAX ==> r == Err::<
                (),
                KittyError,
            >(KittyError::CountOverflow),
            r.is_ok() <==> old(self).is_owner(sender, kitty_id) && old(self).owned_seq(to).len() < u64::MAX,
            r.is_ok() ==> Module::transferred(*old(self), *final(self), sender, to, kitty_id),
            r.is_err() ==> *final(self) == *old(self),
    {
        match self.owners.get(&kitty_id) {
            Some(owner) => {
                if *owner != sender {
                    return Err(KittyError::NotOwner);
                }
            },
            None => {
                return Err(KittyError::NotFound);
            },
        }
        self.transfer_from(sender, to, kitty_id)
    }

    /// Buys a kitty for sale at no more than `max_price`, with
    /// `buyer_balance` the buyer's free balance. On success the kitty and
    /// its owner's enumerator entry move to the buyer, the kitty leaves the
    /// market, and the returned payment is what the balance ledger must
    /// move from the buyer to the seller.
    pub fn buy_kitty(&mut self, buyer: AccountId, kitty_id: KittyId, max_price: Balance, buyer_balance: Balance) -> (r:
        Result<Payment, KittyError>)
        requires
            old(self).wf(),
        ensures
            final(self).wf(),
            !old(self).kitties_map().contains_key(kitty_id) ==> r == Err::<Payment, KittyError>(KittyError::NotFound),
            old(self).kitties_map().contains_key(kitty_id) && old(self).is_owner(buyer, kitty_id) ==> r == Err::<
                Payment,
                KittyError,
            >(KittyError::SelfPurchase),
            old(self).kitties_map().contains_key(kitty_id) && !old(self).is_owner(buyer, kitty_id) && old(
                self,
            ).asking_price(kitty_id) == 0 ==> r == Err::<Payment, KittyError>(KittyError::NotForSale),
            old(self).kitties_map().contains_key(kitty_id) && !old(self).is_owner(buyer, kitty_id) && old(
                self,
            ).asking_price(kitty_id) > 0 && old(self).asking_price(kitty_id) > max_price ==> r == Err::<
                Payment,
                KittyError,
            >(KittyError::PriceExceedsLimit),
            old(self).kitties_map().contains_key(kitty_id) && !old(self).is_owner(buyer, kitty_id) && 0 < old(
                self,
            ).asking_price(kitty_id) <= max_price && buyer_balance < old(self).asking_price(kitty_id) ==> r == Err::<
                Payment,
                KittyError,
            >(KittyError::InsufficientFunds),
            old(self).kitties_map().contains_key(kitty_id) && !old(self).is_owner(buyer, kitty_id) && 0 < old(
                self,
            ).asking_price(kitty_id) <= max_price && old(self).asking_price(kitty_id) <= buyer_balance && old(
                self,
            ).owned_seq(buyer).len() == u64::MAX ==> r == Err::<Payment, KittyError>(KittyError::CountOverflow),
            r.is_ok() <==> old(self).kitties_map().contains_key(kitty_id) && !old(self).is_owner(buyer, kitty_id) && 0
                < old(self).asking_price(kitty_id) <= max_price && old(self).asking_price(kitty_id) <= buyer_balance
                && old(self).owned_seq(buyer).len() < u64::MAX,
            r.is_ok() ==> r == Ok::<Payment, KittyError>(
                (Payment { from: buyer, to: old(self).seller(kitty_id), amount: old(self).asking_price(kitty_id) }),
            ),
            r.is_ok() ==> Module::bought(*old(self), *final(self), buyer, kitty_id),
            r.is_err() ==> *final(self) == *old(self),
    {
        let price = match self.kitties.get(&kitty_id) {
            Some(kitty) => kitty.price,
            None => {
                return Err(KittyError::NotFound);
            },
        };
        let seller = match self.owners.get(&kitty_id) {
            Some(owner) => *owner,
            None => {
                return Err(KittyError::NotFound);
            },
        };
        if seller == buyer {
            return Err(KittyError::SelfPurchase);
        }
        if price == 0 {
            return Err(KittyError::NotForSale);
        }
        if price > max_price {
            return Err(KittyError::PriceExceedsLimit);
        }
        if buyer_balance < price {
            return Err(KittyError::InsufficientFunds);
        }
        let ghost pre = *self;
        match self.transfer_from(seller, buyer, kitty_id) {
            Ok(()) => {},
            Err(e) => {
                return Err(e);
            },
        }
        let ghost mid = *self;
        self.put_price(kitty_id, 0);
        self.events.push(Event::Bought(buyer, seller, kitty_id, price));
        proof {
            assert forall|a: AccountId| #[trigger] self.owned_seq(a) == mid.owned_seq(a) by {}
            assert(self.kitties_map().dom() =~= mid.kitties_map().dom());
        }
        Ok(Payment { from: buyer, to: seller, amount: price })
    }

    /// Replaces the price in the record of a registered kitty.
    fn put_price(&mut self, kitty_id: KittyId, price: Balance)
        requires
            old(self).kitties_map().contains_key(kitty_id),
        ensures
            final(self).kitties_map() == old(self).kitties_map().insert(
                kitty_id,
                with_price(old(self).kitties_map()[kitty_id], price),
            ),
            final(self).owners == old(self).owners,
            final(self).all_kitties == old(self).all_kitties,
            final(self).owned_kitties == old(self).owned_kitties,
            final(self).nonce == old(self).nonce,
            final(self).events == old(self).events,
    {
        let mut kitty = self.kitties.remove(&kitty_id).unwrap();
        kitty.price = price;
        self.kitties.insert(kitty_id, kitty);
        assert(self.kitties_map() =~= old(self).kitties_map().insert(
            kitty_id,
            with_price(old(self).kitties_map()[kitty_id], price),
        ));
    }

    /// Puts `id` at the end of `a`'s enumerator, creating it if needed.
    fn append_owned(&mut self, a: AccountId, id: KittyId)
        requires
            old(self).enumerators_wf(),
            !old(self).owned_seq(a).contains(id),
            old(self).owned_seq(a).len() < u64::MAX,
        ensures
            final(self).enumerators_wf(),
            final(self).owned_seq(a) == old(self).owned_seq(a).push(id),
            final(self).owned_seq(a).no_duplicates(),
            final(self).owned_seq(a).to_set() == old(self).owned_seq(a).to_set().insert(id),
            forall|b: AccountId| b != a ==> #[trigger] final(self).owned_seq(b) == old(self).owned_seq(b),
            final(self).kitties == old(self).kitties,
            final(self).owners == old(self).owners,
            final(self).all_kitties == old(self).all_kitties,
            final(self).nonce == old(self).nonce,
            final(self).events == old(self).events,
    {
        let mut set = match self.owned_kitties.remove(&a) {
            Some(s) => s,
            None => IndexedSet::new(),
        };
        set.append(id);
        self.owned_kitties.insert(a, set);
    }

    /// Takes `id` out of `a`'s enumerator by swap and pop.
    fn remove_owned(&mut self, a: AccountId, id: KittyId)
        requires
            old(self).enumerators_wf(),
            old(self).owned_seq(a).contains(id),
        ensures
            final(self).enumerators_wf(),
            final(self).owned_seq(a) == swap_remove(old(self).owned_seq(a), old(self).owned_position(a, id)),
            final(self).owned_seq(a).len() == old(self).owned_seq(a).len() - 1,
            final(self).owned_seq(a).no_duplicates(),
            final(self).owned_seq(a).to_set() == old(self).owned_seq(a).to_set().remove(id),
            forall|b: AccountId| b != a ==> #[trigger] final(self).owned_seq(b) == old(self).owned_seq(b),
            final(self).kitties == old(self).kitties,
            final(self).owners == old(self).owners,
            final(self).all_kitties == old(self).all_kitties,
            final(self).nonce == old(self).nonce,
            final(self).events == old(self).events,
    {
        let mut set = self.owned_kitties.remove(&a).unwrap();
        set.remove(id);
        self.owned_kitties.insert(a, set);
    }
}

/// A successful mint makes `to` the owner of `id`, grows the global count
/// and `to`'s count by one each, and leaves `id` in each of the two
/// enumerators, exactly once since neither holds a duplicate.
pub proof fn lemma_mint_registers_once(pre: Module, post: Module, to: AccountId, id: KittyId, kitty: Kitty)
    requires
        pre.wf(),
        post.wf(),
        Module::minted(pre, post, to, id, kitty),
    ensures
        post.is_owner(to, id),
        post.all_seq().len() == pre.all_seq().len() + 1,
        post.owned_seq(to).len() == pre.owned_seq(to).len() + 1,
        post.all_seq().contains(id),
        post.owned_seq(to).contains(id),
        post.all_seq().no_duplicates(),
        post.owned_seq(to).no_duplicates(),
{
    assert(post.all_seq()[pre.all_seq().len() as int] == id);
    assert(post.owned_seq(to)[pre.owned_seq(to).len() as int] == id);
}

/// Handing a kitty from `a` to `b` and back gives it to `a` again and
/// restores what each of the two owns, though maybe not in the same order.
pub proof fn lemma_transfer_round_trip(s0: Module, s1: Module, s2: Module, a: AccountId, b: AccountId, id: KittyId)
    requires
        s0.wf(),
        s0.is_owner(a, id),
        a != b,
        Module::transferred(s0, s1, a, b, id),
        Module::transferred(s1, s2, b, a, id),
    ensures
        s2.is_owner(a, id),
        s2.owners_map() == s0.owners_map(),
        s2.owned_seq(a).to_set() == s0.owned_seq(a).to_set(),
        s2.owned_seq(b).to_set() == s0.owned_seq(b).to_set(),
{
    assert(s0.owned_seq(a).contains(id));
    assert(!s0.owned_seq(b).contains(id));
    assert(s0.owned_seq(a).to_set().contains(id));
    assert(!s0.owned_seq(b).to_set().contains(id));
    assert(s2.owners_map() =~= s0.owners_map());
    assert(s2.owned_seq(a).to_set() =~= s0.owned_seq(a).to_set());
    assert(s2.owned_seq(b).to_set() =~= s0.owned_seq(b).to_set());
}

} // verus!
