use vstd::prelude::*;

verus! {

/// Types of items a player can carry.
///
/// A weapon's damage is a 32-bit float in the game; the inventory never reads it and carries
/// its IEEE 754 bit pattern (`f32::to_bits`) in `damage_bits`.
#[derive(PartialEq, Eq, Debug)]
pub enum Items {
    Weapon { name: String, damage_bits: u32, ammo: u32 },
    Key { name: String, opens: u8 },
}

/// Whether an item is a weapon.
pub open spec fn is_weapon(item: Items) -> bool {
    item is Weapon
}

/// Whether an item is a weapon called `name`.
pub open spec fn is_weapon_named(item: Items, name: Seq<char>) -> bool {
    match item {
        Items::Weapon { name: n, .. } => n@ == name,
        Items::Key { .. } => false,
    }
}

/// The weapons among `items`, in the order in which they are stashed.
pub open spec fn weapons(items: Seq<Items>) -> Seq<Items>
    decreases items.len(),
{
    if items.len() == 0 {
        Seq::empty()
    } else if is_weapon(items.last()) {
        weapons(items.drop_last()).push(items.last())
    } else {
        weapons(items.drop_last())
    }
}

/// The position of the first weapon called `name` in `items`, or `-1` when there is none.
pub open spec fn first_weapon_named(items: Seq<Items>, name: Seq<char>) -> int
    decreases items.len(),
{
    if items.len() == 0 {
        -1
    } else if first_weapon_named(items.drop_last(), name) >= 0 {
        first_weapon_named(items.drop_last(), name)
    } else if is_weapon_named(items.last(), name) {
        items.len() - 1
    } else {
        -1
    }
}

/// The same weapon with `extra` more ammo.
pub open spec fn refilled(item: Items, extra: u32) -> Items {
    match item {
        Items::Weapon { name, damage_bits, ammo } => Items::Weapon {
            name,
            damage_bits,
            ammo: (ammo + extra) as u32,
        },
        Items::Key { .. } => item,
    }
}

/// The ammo of a weapon (0 for any other item).
pub open spec fn ammo_of(item: Items) -> int {
    match item {
        Items::Weapon { ammo, .. } => ammo as int,
        Items::Key { .. } => 0,
    }
}

/// The stash after `new_item` is added: a weapon whose name is already stashed as a weapon
/// refills the first such weapon with its ammo; any other item is appended.
pub open spec fn stash_after_add(items: Seq<Items>, new_item: Items) -> Seq<Items> {
    match new_item {
        Items::Weapon { name, ammo, .. } => {
            let pos = first_weapon_named(items, name@);
            if pos >= 0 {
                items.update(pos, refilled(items[pos], ammo))
            } else {
                items.push(new_item)
            }
        },
        Items::Key { .. } => items.push(new_item),
    }
}

/// The position in `items` of the `n`-th weapon (counting from 0), or `-1` when there are
/// no more than `n` weapons.
pub open spec fn weapon_slot(items: Seq<Items>, n: int) -> int
    decreases items.len(),
{
    if items.len() == 0 {
        -1
    } else if n < weapons(items.drop_last()).len() {
        weapon_slot(items.drop_last(), n)
    } else if n == weapons(items.drop_last()).len() && is_weapon(items.last()) {
        items.len() - 1
    } else {
        -1
    }
}

/// The damage bits of a weapon (0 for any other item).
pub open spec fn damage_bits_of(item: Items) -> u32 {
    match item {
        Items::Weapon { damage_bits, .. } => damage_bits,
        Items::Key { .. } => 0,
    }
}

/// The same weapon with one round less.
pub open spec fn spent(item: Items) -> Items {
    match item {
        Items::Weapon { name, damage_bits, ammo } => Items::Weapon {
            name,
            damage_bits,
            ammo: (ammo - 1) as u32,
        },
        Items::Key { .. } => item,
    }
}

/// Whether adding `new_item` to `items` keeps the refilled ammo within `u32`.
pub open spec fn add_fits(items: Seq<Items>, new_item: Items) -> bool {
    match new_item {
        Items::Weapon { name, ammo, .. } => {
            let pos = first_weapon_named(items, name@);
            pos >= 0 ==> ammo_of(items[pos]) + ammo <= u32::MAX
        },
        Items::Key { .. } => true,
    }
}

/// The weapons of a prefix are a prefix of the weapons.
pub proof fn lemma_weapons_prefix(items: Seq<Items>, k: int)
    requires
        0 <= k <= items.len(),
    ensures
        weapons(items.take(k)).len() <= weapons(items).len(),
        forall|j: int|
            0 <= j < weapons(items.take(k)).len() ==> #[trigger] weapons(items.take(k))[j]
                == weapons(items)[j],
    decreases items.len(),
{
    if k == items.len() {
        assert(items.take(k) =~= items);
    } else {
        assert(items.take(k) =~= items.drop_last().take(k));
        lemma_weapons_prefix(items.drop_last(), k);
    }
}

/// The `n`-th weapon sits at `weapon_slot(items, n)`, with exactly `n` weapons before it.
pub proof fn lemma_weapon_slot(items: Seq<Items>, n: int)
    requires
        0 <= n,
    ensures
        n < weapons(items).len() ==> {
            let slot = weapon_slot(items, n);
            &&& 0 <= slot < items.len()
            &&& items[slot] == weapons(items)[n]
            &&& weapons(items.take(slot)).len() == n
        },
        n >= weapons(items).len() ==> weapon_slot(items, n) == -1,
    decreases items.len(),
{
    if items.len() > 0 {
        let prefix = items.drop_last();
        lemma_weapon_slot(prefix, n);
        lemma_weapons_prefix(items, items.len() - 1);
        assert(items.take(items.len() - 1) =~= prefix);
        if n < weapons(prefix).len() {
            let slot = weapon_slot(prefix, n);
            assert(items.take(slot) =~= prefix.take(slot));
        }
    }
}

/// Every entry of `weapons` is a weapon.
pub proof fn lemma_weapons_are_weapons(items: Seq<Items>)
    ensures
        forall|j: int| 0 <= j < weapons(items).len() ==> is_weapon(#[trigger] weapons(items)[j]),
        weapons(items).len() <= items.len(),
    decreases items.len(),
{
    if items.len() > 0 {
        lemma_weapons_are_weapons(items.drop_last());
    }
}

/// Changing an item into another of the same kind keeps the number of weapons.
pub proof fn lemma_weapons_update_len(items: Seq<Items>, pos: int, item: Items)
    requires
        0 <= pos < items.len(),
        is_weapon(items[pos]) == is_weapon(item),
    ensures
        weapons(items.update(pos, item)).len() == weapons(items).len(),
    decreases items.len(),
{
    let updated = items.update(pos, item);
    if pos == items.len() - 1 {
        assert(updated.drop_last() =~= items.drop_last());
    } else {
        assert(updated.drop_last() =~= items.drop_last().update(pos, item));
        lemma_weapons_update_len(items.drop_last(), pos, item);
    }
}

/// Changing the item at `pos` into any item of the same kind keeps the number of weapons.
pub proof fn lemma_weapons_update_len_any(items: Seq<Items>, pos: int)
    requires
        0 <= pos < items.len(),
    ensures
        forall|item: Items|
            is_weapon(item) == is_weapon(items[pos]) ==> #[trigger] weapons(
                items.update(pos, item),
            ).len() == weapons(items).len(),
{
    assert forall|item: Items| is_weapon(item) == is_weapon(items[pos]) implies #[trigger] weapons(
        items.update(pos, item),
    ).len() == weapons(items).len() by {
        lemma_weapons_update_len(items, pos, item);
    }
}

/// The first weapon called `name` is a weapon called `name`; none comes before it.
pub proof fn lemma_first_weapon_named(items: Seq<Items>, name: Seq<char>)
    ensures
        -1 <= first_weapon_named(items, name) < items.len(),
        first_weapon_named(items, name) >= 0 ==> is_weapon_named(
            items[first_weapon_named(items, name)],
            name,
        ),
        forall|j: int|
            0 <= j < items.len() && (first_weapon_named(items, name) < 0 || j < first_weapon_named(
                items,
                name,
            )) ==> !is_weapon_named(#[trigger] items[j], name),
    decreases items.len(),
{
    if items.len() > 0 {
        let prefix = items.drop_last();
        lemma_first_weapon_named(prefix, name);
        assert forall|j: int|
            0 <= j < items.len() && (first_weapon_named(items, name) < 0 || j < first_weapon_named(
                items,
                name,
            )) implies !is_weapon_named(#[trigger] items[j], name) by {
            if j < items.len() - 1 {
                assert(items[j] == prefix[j]);
            }
        }
    }
}

/// Adding an item changes the weapons only by a new weapon at the end: a key or a weapon
/// already held by name leaves the number of weapons as it was (and a key leaves the weapons
/// themselves as they were), while a weapon of a new name becomes the last weapon.
pub proof fn lemma_add_item_weapons(items: Seq<Items>, new_item: Items)
    ensures
        new_item is Key ==> weapons(stash_after_add(items, new_item)) == weapons(items),
        (new_item matches Items::Weapon { name, .. } && first_weapon_named(items, name@) >= 0)
            ==> weapons(stash_after_add(items, new_item)).len() == weapons(items).len(),
        (new_item matches Items::Weapon { name, .. } && first_weapon_named(items, name@) < 0)
            ==> weapons(stash_after_add(items, new_item)) == weapons(items).push(new_item),
{
    assert(items.push(new_item).drop_last() =~= items);
    if let Items::Weapon { name, ammo, .. } = new_item {
        let pos = first_weapon_named(items, name@);
        if pos >= 0 {
            lemma_first_weapon_named(items, name@);
            lemma_weapons_update_len(items, pos, refilled(items[pos], ammo));
        }
    }
}

/// Picking up a weapon whose name is already stashed refills the first such weapon: its
/// ammo becomes its old ammo plus the new weapon's ammo (whatever the old ammo, 0 included),
/// it keeps its name and damage, and no other item changes. A weapon of a new name, and any
/// key, is appended at the end.
pub proof fn lemma_add_item_refills_or_appends(items: Seq<Items>, new_item: Items)
    ensures
        new_item is Key ==> stash_after_add(items, new_item) == items.push(new_item),
        new_item matches Items::Weapon { name, ammo, .. } ==> {
            let after = stash_after_add(items, new_item);
            &&& (forall|j: int| 0 <= j < items.len() ==> !is_weapon_named(#[trigger] items[j], name@))
                ==> after == items.push(new_item)
            &&& forall|j: int|
                0 <= j < items.len() && is_weapon_named(#[trigger] items[j], name@) && (forall|i: int|
                    0 <= i < j ==> !is_weapon_named(#[trigger] items[i], name@)) && ammo_of(items[j])
                    + ammo <= u32::MAX ==> {
                    &&& after.len() == items.len()
                    &&& ammo_of(after[j]) == ammo_of(items[j]) + ammo
                    &&& is_weapon_named(after[j], name@)
                    &&& damage_bits_of(after[j]) == damage_bits_of(items[j])
                    &&& forall|i: int| 0 <= i < items.len() && i != j ==> after[i] == items[i]
                }
        },
{
    if let Items::Weapon { name, ammo, .. } = new_item {
        lemma_first_weapon_named(items, name@);
        let pos = first_weapon_named(items, name@);
        let after = stash_after_add(items, new_item);
        if pos >= 0 {
            assert(is_weapon_named(items[pos], name@));
        } else {
            assert(after == items.push(new_item));
        }
        assert forall|j: int|
            0 <= j < items.len() && is_weapon_named(#[trigger] items[j], name@) && (forall|i: int|
                0 <= i < j ==> !is_weapon_named(#[trigger] items[i], name@)) && ammo_of(items[j])
                + ammo <= u32::MAX implies {
                &&& after.len() == items.len()
                &&& ammo_of(after[j]) == ammo_of(items[j]) + ammo
                &&& is_weapon_named(after[j], name@)
                &&& damage_bits_of(after[j]) == damage_bits_of(items[j])
                &&& forall|i: int| 0 <= i < items.len() && i != j ==> after[i] == items[i]
            } by {
            if pos < j {
                assert(!is_weapon_named(items[pos], name@));
            }
            if pos < 0 {
                assert(!is_weapon_named(items[j], name@));
            }
            assert(j == pos);
            assert(after == items.update(pos, refilled(items[pos], ammo)));
        }
        if forall|j: int| 0 <= j < items.len() ==> !is_weapon_named(#[trigger] items[j], name@) {
            if pos >= 0 {
                assert(!is_weapon_named(items[pos], name@));
            }
        }
    }
}

/// The weapons of a stash are exactly its items that are weapons, in stash order.
pub proof fn lemma_weapons_are_filtered(items: Seq<Items>)
    ensures
        weapons(items) == items.filter(|item: Items| item is Weapon),
    decreases items.len(),
{
    reveal(Seq::filter);
    if items.len() > 0 {
        lemma_weapons_are_filtered(items.drop_last());
    }
}

/// The name of an item.
pub open spec fn item_name(item: Items) -> Seq<char> {
    match item {
        Items::Weapon { name, .. } => name@,
        Items::Key { name, .. } => name@,
    }
}

/// Whether no two weapons among `items` share a name.
pub open spec fn weapon_names_unique(items: Seq<Items>) -> bool {
    forall|i: int, j: int|
        0 <= i < j < items.len() && is_weapon(#[trigger] items[i]) && is_weapon(#[trigger] items[j])
            ==> item_name(items[i]) != item_name(items[j])
}

/// Adding an item never stashes a second weapon of a name already held: when no two
/// weapons share a name, none do after `add_item` either.
pub proof fn lemma_add_item_keeps_names_unique(items: Seq<Items>, new_item: Items)
    requires
        weapon_names_unique(items),
    ensures
        weapon_names_unique(stash_after_add(items, new_item)),
{
    let after = stash_after_add(items, new_item);
    match new_item {
        Items::Weapon { name, ammo, .. } => {
            lemma_first_weapon_named(items, name@);
            let pos = first_weapon_named(items, name@);
            assert forall|i: int, j: int|
                0 <= i < j < after.len() && is_weapon(#[trigger] after[i]) && is_weapon(#[trigger] after[j])
                implies item_name(after[i]) != item_name(after[j]) by {
                if pos >= 0 {
                    assert(item_name(after[i]) == item_name(items[i]));
                    assert(item_name(after[j]) == item_name(items[j]));
                } else if j == items.len() {
                    assert(after[i] == items[i]);
                    assert(!is_weapon_named(items[i], name@));
                } else {
                    assert(after[i] == items[i]);
                    assert(after[j] == items[j]);
                }
            }
        },
        Items::Key { .. } => {
            assert forall|i: int, j: int|
                0 <= i < j < after.len() && is_weapon(#[trigger] after[i]) && is_weapon(#[trigger] after[j])
                implies item_name(after[i]) != item_name(after[j]) by {
                assert(after[i] == items[i]);
                assert(after[j] == items[j]);
            }
        },
    }
}

/// The equipped index after `k` weapon changes among `n` weapons, starting from `e`.
pub open spec fn equipped_after_changes(e: nat, n: nat, k: nat) -> nat
    decreases k,
{
    if k == 0 {
        e
    } else if n > 0 {
        (equipped_after_changes(e, n, (k - 1) as nat) + 1) % n
    } else {
        e
    }
}

/// Changing weapons walks through the weapons in order: `k` changes from weapon `e` of `n`
/// land on weapon `(e + k) % n`, so `n` changes come back to the weapon one started with.
pub proof fn lemma_change_weapon_cycles(e: nat, n: nat, k: nat)
    requires
        e < n,
    ensures
        equipped_after_changes(e, n, k) == (e + k) % n,
        equipped_after_changes(e, n, n) == e,
{
    lemma_changes_land(e, n, k);
    lemma_changes_land(e, n, n);
    vstd::arithmetic::div_mod::lemma_mod_add_multiples_vanish(e as int, n as int);
    vstd::arithmetic::div_mod::lemma_small_mod(e, n);
}

/// With at least one weapon, `k > 0` weapon changes from any equipped index `e` (even one
/// past the last weapon) land on weapon `(e + k) % n`, which is a weapon.
pub proof fn lemma_change_weapon_from_any(e: nat, n: nat, k: nat)
    requires
        n > 0,
        k > 0,
    ensures
        equipped_after_changes(e, n, k) == (e + k) % n,
        equipped_after_changes(e, n, k) < n,
    decreases k,
{
    if k > 1 {
        lemma_change_weapon_from_any(e, n, (k - 1) as nat);
        vstd::arithmetic::div_mod::lemma_add_mod_noop_right(1, e + k - 1, n as int);
        assert(equipped_after_changes(e, n, k) == (equipped_after_changes(e, n, (k - 1) as nat) + 1) % n);
    } else {
        assert(equipped_after_changes(e, n, 0) == e);
        assert(equipped_after_changes(e, n, 1) == (e + 1) % n);
    }
    vstd::arithmetic::div_mod::lemma_mod_bound((e + k) as int, n as int);
}

/// `k` weapon changes from weapon `e` of `n` land on weapon `(e + k) % n`.
proof fn lemma_changes_land(e: nat, n: nat, k: nat)
    requires
        e < n,
    ensures
        equipped_after_changes(e, n, k) == (e + k) % n,
    decreases k,
{
    if k == 0 {
        vstd::arithmetic::div_mod::lemma_small_mod(e, n);
    } else {
        lemma_changes_land(e, n, (k - 1) as nat);
        vstd::arithmetic::div_mod::lemma_add_mod_noop_right(1, e + k - 1, n as int);
    }
}

/// The inventory's main structure.
pub struct Inventory {
    equipped_wpn: usize,
    stashed_items: Vec<Items>,
}

impl Inventory {
    /// The stashed items, in order.
    pub closed spec fn stash(self) -> Seq<Items> {
        self.stashed_items@
    }

    /// The index, among the weapons, of the equipped weapon.
    pub closed spec fn equipped(self) -> nat {
        self.equipped_wpn as nat
    }

    /// The number of weapons in the inventory.
    pub open spec fn wpn_count(self) -> nat {
        weapons(self.stash()).len()
    }

    /// The equipped index designates a weapon whenever the inventory holds one, and is
    /// `0` otherwise.
    pub open spec fn wf(self) -> bool {
        self.equipped() == 0 || self.equipped() < self.wpn_count()
    }

    /// The struct's constructor: an empty inventory with the first weapon slot equipped.
    pub fn new() -> (inv: Self)
        ensures
            inv.wf(),
            inv.stash() == Seq::<Items>::empty(),
            inv.equipped() == 0,
    {
        Self { equipped_wpn: 0, stashed_items: Vec::new() }
    }

    /// Adds an item to the inventory vector, if the item is an existing weapon in the
    /// inventory, updates the ammo quantity, else just adds the item.
    #[verifier::loop_isolation(false)]
    pub fn add_item(&mut self, new_item: Items)
        requires
            add_fits(old(self).stash(), new_item),
        ensures
            old(self).wf() ==> final(self).wf(),
            final(self).equipped() == old(self).equipped(),
            final(self).stash() == stash_after_add(old(self).stash(), new_item),
    {
        let ghost old_items = self.stashed_items@;
        proof {
            lemma_weapons_are_weapons(old_items);
        }
        match new_item {
            Items::Weapon { name, damage_bits, ammo } => {
                let ghost pos = first_weapon_named(old_items, name@);
                proof {
                    lemma_first_weapon_named(old_items, name@);
                }
                // look for an existing Weapon with the same name
                let len = self.stashed_items.len();
                let mut i: usize = 0;
                while i < len
                    invariant
                        self.stashed_items@ == old_items,
                        self.equipped_wpn == old(self).equipped_wpn,
                        0 <= i <= len,
                        pos < 0 || i <= pos,
                    decreases len - i,
                {
                    let same = match &self.stashed_items[i] {
                        Items::Weapon { name: existing_name, .. } => *existing_name == name,
                        Items::Key { .. } => false,
                    };
                    if same {
                        assert(i == pos);
                        // if is the same Weapon, only add the ammo
                        if let Items::Weapon { ammo: existing_ammo, .. } = &mut self.stashed_items[i] {
                            *existing_ammo += ammo;
                        }
                        proof {
                            lemma_weapons_update_len(old_items, pos, self.stashed_items@[pos]);
                            assert(self.stashed_items@ =~= old_items.update(
                                pos,
                                refilled(old_items[pos], ammo),
                            ));
                        }
                        return;
                    }
                    i += 1;
                }
                // else just add the Weapon to the inventory
                self.stashed_items.push(Items::Weapon { name, damage_bits, ammo });
                proof {
                    assert(self.stashed_items@.drop_last() =~= old_items);
                }
            },
            Items::Key { .. } => {
                self.stashed_items.push(new_item);
                proof {
                    assert(self.stashed_items@.drop_last() =~= old_items);
                }
            },
        }
    }

    /// Gets the amount of weapons on the inventory.
    fn get_wpn_count(&self) -> (count: usize)
        ensures
            count == self.wpn_count(),
    {
        let mut count: usize = 0;
        let len = self.stashed_items.len();
        let mut i: usize = 0;
        proof {
            lemma_weapons_are_weapons(self.stashed_items@);
            assert(self.stashed_items@.take(0) =~= Seq::<Items>::empty());
        }
        while i < len
            invariant
                len == self.stashed_items@.len(),
                0 <= i <= len,
                count == weapons(self.stashed_items@.take(i as int)).len(),
            decreases len - i,
        {
            proof {
                let items = self.stashed_items@;
                assert(items.take(i + 1).drop_last() =~= items.take(i as int));
                lemma_weapons_prefix(items, i + 1);
                lemma_weapons_are_weapons(items);
            }
            if let Items::Weapon { .. } = &self.stashed_items[i] {
                count += 1;
            }
            i += 1;
        }
        proof {
            assert(self.stashed_items@.take(len as int) =~= self.stashed_items@);
        }
        count
    }

    /// Gets the current equipped weapon according to Inventory's `self.equipped_wpn`.
    pub fn get_equipped_wpn(&self) -> (idx: usize)
        ensures
            idx == self.equipped(),
    {
        self.equipped_wpn
    }

    /// Gets the current weapon from the actual Inventory's vector: the weapon, counting only
    /// weapons, at the equipped index, if there is one.
    pub fn get_current_wpn(&self) -> (wpn: Option<&Items>)
        ensures
            wpn is Some <==> self.equipped() < self.wpn_count(),
            wpn matches Some(item) ==> *item == weapons(self.stash())[self.equipped() as int],
    {
        let equipped = self.equipped_wpn;
        let len = self.stashed_items.len();
        let mut seen: usize = 0;
        let mut i: usize = 0;
        let ghost items = self.stashed_items@;
        proof {
            assert(items.take(0) =~= Seq::<Items>::empty());
        }
        while i < len
            invariant
                items == self.stashed_items@,
                len == items.len(),
                equipped == self.equipped_wpn,
                0 <= i <= len,
                seen == weapons(items.take(i as int)).len(),
                seen <= equipped,
            decreases len - i,
        {
            proof {
                assert(items.take(i + 1).drop_last() =~= items.take(i as int));
                lemma_weapons_prefix(items, i + 1);
            }
            if let Items::Weapon { .. } = &self.stashed_items[i] {
                if seen == equipped {
                    proof {
                        assert(weapons(items.take(i + 1))[seen as int] == items[i as int]);
                    }
                    return Some(&self.stashed_items[i]);
                }
                seen += 1;
            }
            i += 1;
        }
        proof {
            assert(items.take(len as int) =~= items);
        }
        None
    }

    /// Gets the current weapon as a mutable reference from the actual Inventory's vector.
    /// Whatever is written through it replaces that item in the stash.
    pub fn get_current_wpn_mut(&mut self) -> (wpn: Option<&mut Items>)
        ensures
            wpn is Some <==> old(self).equipped() < old(self).wpn_count(),
            final(self).equipped() == old(self).equipped(),
            wpn matches Some(item) ==> {
                &&& *item == weapons(old(self).stash())[old(self).equipped() as int]
                &&& final(self).stash() == old(self).stash().update(
                    weapon_slot(old(self).stash(), old(self).equipped() as int),
                    *final(item),
                )
            },
            wpn is None ==> final(self).stash() == old(self).stash(),
            old(self).wf() && (wpn is None || (wpn matches Some(item) && is_weapon(*final(item))))
                ==> final(self).wf(),
    {
        let equipped = self.equipped_wpn;
        let len = self.stashed_items.len();
        let mut seen: usize = 0;
        let mut i: usize = 0;
        let ghost items = self.stashed_items@;
        proof {
            assert(items.take(0) =~= Seq::<Items>::empty());
            lemma_weapon_slot(items, equipped as int);
        }
        while i < len
            invariant
                items == self.stashed_items@,
                items == old(self).stashed_items@,
                self.equipped_wpn == old(self).equipped_wpn,
                len == items.len(),
                equipped == self.equipped_wpn,
                0 <= i <= len,
                seen == weapons(items.take(i as int)).len(),
                seen <= equipped,
                equipped < weapons(items).len() ==> {
                    let slot = weapon_slot(items, equipped as int);
                    &&& i <= slot < items.len()
                    &&& items[slot] == weapons(items)[equipped as int]
                    &&& weapons(items.take(slot)).len() == equipped
                },
                equipped >= weapons(items).len() ==> weapon_slot(items, equipped as int) == -1,
            decreases len - i,
        {
            proof {
                assert(items.take(i + 1).drop_last() =~= items.take(i as int));
                lemma_weapons_prefix(items, i + 1);
            }
            let is_wpn = match &self.stashed_items[i] {
                Items::Weapon { .. } => true,
                Items::Key { .. } => false,
            };
            proof {
                lemma_weapons_are_weapons(items);
                if equipped < weapons(items).len() && weapon_slot(items, equipped as int) == i {
                    assert(is_wpn);
                    assert(seen == equipped);
                }
            }
            if is_wpn {
                if seen == equipped {
                    proof {
                        assert(weapons(items.take(i + 1))[seen as int] == items[i as int]);
                        lemma_weapons_prefix(items, weapon_slot(items, equipped as int) + 1);
                        if i < weapon_slot(items, equipped as int) {
                            let slot = weapon_slot(items, equipped as int);
                            lemma_weapons_prefix(items.take(slot), i + 1);
                            assert(items.take(slot).take(i + 1) =~= items.take(i + 1));
                        }
                        lemma_weapons_update_len_any(items, i as int);
                    }
                    return Some(&mut self.stashed_items[i]);
                }
                seen += 1;
            }
            i += 1;
        }
        proof {
            assert(items.take(len as int) =~= items);
        }
        None
    }

    /// Fires the equipped weapon: when it is there and has ammo, uses up one round of it and
    /// gives its damage bits; otherwise the inventory stays as it is and gives nothing.
    pub fn fire_current_wpn(&mut self) -> (damage_bits: Option<u32>)
        ensures
            old(self).wf() ==> final(self).wf(),
            final(self).equipped() == old(self).equipped(),
            ({
                let stash = old(self).stash();
                let eq = old(self).equipped() as int;
                if eq < old(self).wpn_count() && ammo_of(weapons(stash)[eq]) > 0 {
                    &&& damage_bits == Some(damage_bits_of(weapons(stash)[eq]))
                    &&& final(self).stash() == stash.update(
                        weapon_slot(stash, eq),
                        spent(weapons(stash)[eq]),
                    )
                } else {
                    &&& damage_bits is None
                    &&& final(self).stash() == stash
                }
            }),
    {
        let ghost stash = self.stashed_items@;
        let ghost eq = self.equipped_wpn as int;
        proof {
            lemma_weapon_slot(stash, eq);
            lemma_weapons_are_weapons(stash);
        }
        match self.get_current_wpn_mut() {
            Some(Items::Weapon { damage_bits, ammo, .. }) => {
                if *ammo > 0 {
                    *ammo -= 1;
                    let bits = *damage_bits;
                    proof {
                        lemma_weapons_update_len(stash, weapon_slot(stash, eq), spent(weapons(stash)[eq]));
                    }
                    Some(bits)
                } else {
                    proof {
                        assert(self.stashed_items@ =~= stash);
                    }
                    None
                }
            },
            Some(Items::Key { .. }) => {
                proof {
                    assert(is_weapon(weapons(stash)[eq]));
                }
                None
            },
            None => None,
        }
    }

    /// Cycles to the next weapon in the inventory: with `n > 0` weapons, the equipped index
    /// becomes `(e + 1) % n`, which designates a weapon; without weapons nothing changes.
    pub fn change_weapon(&mut self)
        ensures
            final(self).stash() == old(self).stash(),
            final(self).equipped() == equipped_after_changes(
                old(self).equipped(),
                old(self).wpn_count(),
                1,
            ),
            old(self).wpn_count() > 0 || old(self).wf() ==> final(self).wf(),
    {
        let wpn_count = self.get_wpn_count();
        if wpn_count > 0 {
            // (e % n + 1) % n is (e + 1) % n, computed without overflowing
            let e = self.equipped_wpn;
            let next = (e % wpn_count + 1) % wpn_count;
            proof {
                vstd::arithmetic::div_mod::lemma_add_mod_noop_right(1, e as int, wpn_count as int);
                vstd::arithmetic::div_mod::lemma_mod_bound(e as int, wpn_count as int);
            }
            self.equipped_wpn = next;
        }
        proof {
            assert(equipped_after_changes(old(self).equipped(), old(self).wpn_count(), 0)
                == old(self).equipped());
        }
    }
}

} // verus!
