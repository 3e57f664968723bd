//! The raycasting engine's player inventory, whose search for a stashed weapon ends at the
//! first key.
use vstd::prelude::*;
pub use crate::world::player::Items;
use crate::world::player::{
    equipped_after_changes, is_weapon, is_weapon_named, item_name, weapon_names_unique, lemma_weapons_are_weapons, lemma_weapons_prefix,
    lemma_weapons_update_len, refilled, weapons, ammo_of, damage_bits_of,
};

verus! {

/// Whether the scan for a weapon called `name` stops at `item`: at a weapon of that name, or
/// at any key.
pub open spec fn stops_scan(item: Items, name: Seq<char>) -> bool {
    item is Key || is_weapon_named(item, name)
}

/// The position of the first item of `items` at which the scan for `name` stops, or `-1`.
pub open spec fn first_stop(items: Seq<Items>, name: Seq<char>) -> int
    decreases items.len(),
{
    if items.len() == 0 {
        -1
    } else if first_stop(items.drop_last(), name) >= 0 {
        first_stop(items.drop_last(), name)
    } else if stops_scan(items.last(), name) {
        items.len() - 1
    } else {
        -1
    }
}

/// The stash after `new_item` is added: a weapon is looked for among the stashed items in
/// order; the first weapon of its name gets its ammo, but a key met before any such weapon
/// ends the search and the new weapon is not stashed; when the search meets neither, the
/// weapon is appended. A key is always appended.
pub open spec fn stash_after_add(items: Seq<Items>, new_item: Items) -> Seq<Items> {
    match new_item {
        Items::Weapon { name, ammo, .. } => {
            let pos = first_stop(items, name@);
            if pos < 0 {
                items.push(new_item)
            } else if items[pos] is Key {
                items
            } else {
                items.update(pos, refilled(items[pos], ammo))
            }
        },
        Items::Key { .. } => items.push(new_item),
    }
}

/// Whether adding `new_item` to `items` keeps the refilled ammo within `u32`.
pub open spec fn add_fits(items: Seq<Items>, new_item: Items) -> bool {
    match new_item {
        Items::Weapon { name, ammo, .. } => {
            let pos = first_stop(items, name@);
            pos >= 0 ==> ammo_of(items[pos]) + ammo <= u32::MAX
        },
        Items::Key { .. } => true,
    }
}

/// The scan stops at `first_stop`, and at no item before it.
pub proof fn lemma_first_stop(items: Seq<Items>, name: Seq<char>)
    ensures
        -1 <= first_stop(items, name) < items.len(),
        first_stop(items, name) >= 0 ==> stops_scan(items[first_stop(items, name)], name),
        forall|j: int|
            0 <= j < items.len() && (first_stop(items, name) < 0 || j < first_stop(items, name))
                ==> !stops_scan(#[trigger] items[j], name),
    decreases items.len(),
{
    if items.len() > 0 {
        let prefix = items.drop_last();
        lemma_first_stop(prefix, name);
        assert forall|j: int|
            0 <= j < items.len() && (first_stop(items, name) < 0 || j < first_stop(items, name))
            implies !stops_scan(#[trigger] items[j], name) by {
            if j < items.len() - 1 {
                assert(items[j] == prefix[j]);
            }
        }
    }
}

/// Picking up a weapon: the stashed items are scanned in order. If the first item that is a
/// key or a weapon of the same name is such a weapon, its ammo becomes its old ammo plus the
/// new weapon's ammo (0 included), it keeps its name and damage, and nothing else changes; if
/// it is a key, nothing changes at all; if there is no such item, the weapon is appended.
/// A key is always appended.
pub proof fn lemma_add_item_refills_or_appends(items: Seq<Items>, new_item: Items)
    ensures
        new_item is Key ==> stash_after_add(items, new_item) == items.push(new_item),
        new_item matches Items::Weapon { name, ammo, .. } ==> {
            let after = stash_after_add(items, new_item);
            &&& (forall|j: int| 0 <= j < items.len() ==> !stops_scan(#[trigger] items[j], name@))
                ==> after == items.push(new_item)
            &&& forall|j: int|
                0 <= j < items.len() && stops_scan(#[trigger] items[j], name@) && (forall|i: int|
                    0 <= i < j ==> !stops_scan(#[trigger] items[i], name@)) ==> {
                    &&& items[j] is Key ==> after == items
                    &&& is_weapon_named(items[j], name@) && ammo_of(items[j]) + ammo <= u32::MAX
                        ==> {
                        &&& after.len() == items.len()
                        &&& ammo_of(after[j]) == ammo_of(items[j]) + ammo
                        &&& is_weapon_named(after[j], name@)
                        &&& damage_bits_of(after[j]) == damage_bits_of(items[j])
                        &&& forall|i: int| 0 <= i < items.len() && i != j ==> after[i] == items[i]
                    }
                }
        },
{
    if let Items::Weapon { name, ammo, .. } = new_item {
        lemma_first_stop(items, name@);
        let pos = first_stop(items, name@);
        let after = stash_after_add(items, new_item);
        if pos >= 0 {
            assert(stops_scan(items[pos], name@));
        } else {
            assert(after == items.push(new_item));
        }
        assert forall|j: int|
            0 <= j < items.len() && stops_scan(#[trigger] items[j], name@) && (forall|i: int|
                0 <= i < j ==> !stops_scan(#[trigger] items[i], name@)) implies {
                &&& items[j] is Key ==> after == items
                &&& is_weapon_named(items[j], name@) && ammo_of(items[j]) + ammo <= u32::MAX ==> {
                    &&& after.len() == items.len()
                    &&& ammo_of(after[j]) == ammo_of(items[j]) + ammo
                    &&& is_weapon_named(after[j], name@)
                    &&& damage_bits_of(after[j]) == damage_bits_of(items[j])
                    &&& forall|i: int| 0 <= i < items.len() && i != j ==> after[i] == items[i]
                }
            } by {
            if pos < j {
                assert(!stops_scan(items[pos], name@));
            }
            if pos < 0 {
                assert(!stops_scan(items[j], name@));
            }
            assert(j == pos);
        }
        if forall|j: int| 0 <= j < items.len() ==> !stops_scan(#[trigger] items[j], name@) {
            if pos >= 0 {
                assert(!stops_scan(items[pos], name@));
            }
        }
    }
}

/// This inventory never stashes a second weapon of a name already held either: when no two
/// weapons share a name, none do after `add_item`.
pub proof fn lemma_add_item_keeps_names_unique(items: Seq<Items>, new_item: Items)
    requires
        weapon_names_unique(items),
    ensures
        weapon_names_unique(stash_after_add(items, new_item)),
{
    let after = stash_after_add(items, new_item);
    if let Items::Weapon { name, .. } = new_item {
        lemma_first_stop(items, name@);
    }
    assert forall|i: int, j: int|
        0 <= i < j < after.len() && is_weapon(#[trigger] after[i]) && is_weapon(#[trigger] after[j])
        implies item_name(after[i]) != item_name(after[j]) by {
        if j < items.len() {
            assert(item_name(after[i]) == item_name(items[i]));
            assert(item_name(after[j]) == item_name(items[j]));
        } else if let Items::Weapon { name, .. } = new_item {
            assert(after[i] == items[i]);
            assert(!stops_scan(items[i], name@));
        }
    }
}

/// The inventory's main structure.
pub struct Inventory {
    equipped_wpn: usize,
    stashed_items: Vec<Items>,
}

impl Inventory {
    /// The stashed items, in order.
    pub closed spec fn stash(self) -> Seq<Items> {
        self.stashed_items@
    }

    /// The index, among the weapons, of the equipped weapon.
    pub closed spec fn equipped(self) -> nat {
        self.equipped_wpn as nat
    }

    /// The number of weapons in the inventory.
    pub open spec fn wpn_count(self) -> nat {
        weapons(self.stash()).len()
    }

    /// The equipped index designates a weapon whenever the inventory holds one, and is
    /// `0` otherwise.
    pub open spec fn wf(self) -> bool {
        self.equipped() == 0 || self.equipped() < self.wpn_count()
    }

    /// Creates an empty new inventory.
    pub fn new() -> (inv: Self)
        ensures
            inv.wf(),
            inv.stash() == Seq::<Items>::empty(),
            inv.equipped() == 0,
    {
        Self { equipped_wpn: 0, stashed_items: Vec::new() }
    }

    /// Adds an item: a weapon already stashed by name gets the new ammo, as long as no key
    /// comes before it in the stash (a key met first ends the search and the weapon is not
    /// stashed); otherwise the item is appended.
    #[verifier::loop_isolation(false)]
    pub fn add_item(&mut self, new_item: Items)
        requires
            old(self).wf(),
            add_fits(old(self).stash(), new_item),
        ensures
            final(self).wf(),
            final(self).equipped() == old(self).equipped(),
            final(self).stash() == stash_after_add(old(self).stash(), new_item),
    {
        let ghost old_items = self.stashed_items@;
        proof {
            lemma_weapons_are_weapons(old_items);
        }
        match new_item {
            Items::Weapon { name, damage_bits, ammo } => {
                let ghost pos = first_stop(old_items, name@);
                proof {
                    lemma_first_stop(old_items, name@);
                }
                // look for an existing weapon with the same name
                let len = self.stashed_items.len();
                let mut i: usize = 0;
                while i < len
                    invariant
                        self.stashed_items@ == old_items,
                        self.equipped_wpn == old(self).equipped_wpn,
                        0 <= i <= len,
                        pos < 0 || i <= pos,
                    decreases len - i,
                {
                    let stop = match &self.stashed_items[i] {
                        Items::Weapon { name: existing_name, .. } => {
                            if *existing_name == name {
                                1u8
                            } else {
                                0u8
                            }
                        },
                        Items::Key { .. } => 2u8,
                    };
                    if stop == 1 {
                        assert(i == pos);
                        // if is the same weapon, only add the ammo
                        if let Items::Weapon { ammo: existing_ammo, .. } = &mut self.stashed_items[i] {
                            *existing_ammo += ammo;
                        }
                        proof {
                            lemma_weapons_update_len(old_items, pos, self.stashed_items@[pos]);
                            assert(self.stashed_items@ =~= old_items.update(
                                pos,
                                refilled(old_items[pos], ammo),
                            ));
                        }
                        return;
                    } else if stop == 2 {
                        assert(i == pos);
                        return;
                    }
                    i += 1;
                }
                // else just add the weapon to the inventory
                self.stashed_items.push(Items::Weapon { name, damage_bits, ammo });
                proof {
                    assert(self.stashed_items@.drop_last() =~= old_items);
                }
            },
            Items::Key { .. } => {
                self.stashed_items.push(new_item);
                proof {
                    assert(self.stashed_items@.drop_last() =~= old_items);
                }
            },
        }
    }

    /// Gets the amount of weapons on the inventory.
    fn get_wpn_count(&self) -> (count: usize)
        ensures
            count == self.wpn_count(),
    {
        let mut count: usize = 0;
        let len = self.stashed_items.len();
        let mut i: usize = 0;
        proof {
            lemma_weapons_are_weapons(self.stashed_items@);
            assert(self.stashed_items@.take(0) =~= Seq::<Items>::empty());
        }
        while i < len
            invariant
                len == self.stashed_items@.len(),
                0 <= i <= len,
                count == weapons(self.stashed_items@.take(i as int)).len(),
            decreases len - i,
        {
            proof {
                let items = self.stashed_items@;
                assert(items.take(i + 1).drop_last() =~= items.take(i as int));
                lemma_weapons_prefix(items, i + 1);
                lemma_weapons_are_weapons(items);
            }
            if let Items::Weapon { .. } = &self.stashed_items[i] {
                count += 1;
            }
            i += 1;
        }
        proof {
            assert(self.stashed_items@.take(len as int) =~= self.stashed_items@);
        }
        count
    }

    #[allow(dead_code)]
    /// Gets the current equipped weapon according to Inventory's `self.equipped_wpn`.
    fn get_equipped_wpn(&self) -> (idx: usize)
        ensures
            idx == self.equipped(),
    {
        self.equipped_wpn
    }

    /// Gets the current weapon from the actual Inventory's vector: the weapon, counting only
    /// weapons, at the equipped index, if there is one.
    pub fn get_current_wpn(&self) -> (wpn: Option<&Items>)
        ensures
            wpn is Some <==> self.equipped() < self.wpn_count(),
            wpn matches Some(item) ==> *item == weapons(self.stash())[self.equipped() as int],
    {
        let equipped = self.equipped_wpn;
        let len = self.stashed_items.len();
        let mut seen: usize = 0;
        let mut i: usize = 0;
        let ghost items = self.stashed_items@;
        proof {
            assert(items.take(0) =~= Seq::<Items>::empty());
        }
        while i < len
            invariant
                items == self.stashed_items@,
                len == items.len(),
                equipped == self.equipped_wpn,
                0 <= i <= len,
                seen == weapons(items.take(i as int)).len(),
                seen <= equipped,
            decreases len - i,
        {
            proof {
                assert(items.take(i + 1).drop_last() =~= items.take(i as int));
                lemma_weapons_prefix(items, i + 1);
            }
            if let Items::Weapon { .. } = &self.stashed_items[i] {
                if seen == equipped {
                    proof {
                        assert(weapons(items.take(i + 1))[seen as int] == items[i as int]);
                    }
                    return Some(&self.stashed_items[i]);
                }
                seen += 1;
            }
            i += 1;
        }
        proof {
            assert(items.take(len as int) =~= items);
        }
        None
    }

    /// Cycles to the next weapon in the inventory.
    pub fn change_weapon(&mut self)
        requires
            old(self).wf(),
        ensures
            final(self).wf(),
            final(self).stash() == old(self).stash(),
            final(self).equipped() == equipped_after_changes(
                old(self).equipped(),
                old(self).wpn_count(),
                1,
            ),
    {
        let wpn_count = self.get_wpn_count();
        if wpn_count > 0 {
            self.equipped_wpn = (self.equipped_wpn + 1) % wpn_count;
        }
        proof {
            assert(equipped_after_changes(old(self).equipped(), old(self).wpn_count(), 0)
                == old(self).equipped());
        }
    }
}

} // verus!
