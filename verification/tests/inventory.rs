use raycaster::world::player::{Inventory, Items};

fn weapon(name: &str, damage: f32, ammo: u32) -> Items {
    Items::Weapon { name: name.to_string(), damage_bits: damage.to_bits(), ammo }
}

fn key(name: &str, opens: u8) -> Items {
    Items::Key { name: name.to_string(), opens }
}

fn current(inv: &Inventory) -> Option<(String, f32, u32)> {
    match inv.get_current_wpn() {
        Some(Items::Weapon { name, damage_bits, ammo }) => {
            Some((name.clone(), f32::from_bits(*damage_bits), *ammo))
        }
        Some(Items::Key { .. }) => panic!("the current weapon is a key"),
        None => None,
    }
}

#[test]
fn new_inventory_is_empty() {
    let inv = Inventory::new();
    assert_eq!(inv.get_equipped_wpn(), 0);
    assert!(inv.get_current_wpn().is_none());
}

#[test]
fn first_weapon_becomes_current() {
    let mut inv = Inventory::new();
    inv.add_item(weapon("pistol", 10.0, 12));
    assert_eq!(current(&inv), Some(("pistol".to_string(), 10.0, 12)));
}

#[test]
fn same_weapon_adds_ammo() {
    let mut inv = Inventory::new();
    inv.add_item(weapon("pistol", 10.0, 12));
    inv.add_item(weapon("pistol", 99.0, 8));
    // the damage of the stashed weapon stays; only the ammo grows
    assert_eq!(current(&inv), Some(("pistol".to_string(), 10.0, 20)));
    // no second pistol was added: changing weapons stays on it
    inv.change_weapon();
    assert_eq!(inv.get_equipped_wpn(), 0);
}

#[test]
fn keys_are_not_weapons() {
    let mut inv = Inventory::new();
    inv.add_item(key("red", 3));
    assert!(inv.get_current_wpn().is_none());
    inv.change_weapon();
    assert_eq!(inv.get_equipped_wpn(), 0);
    inv.add_item(weapon("shotgun", 40.0, 2));
    inv.add_item(key("blue", 4));
    assert_eq!(current(&inv), Some(("shotgun".to_string(), 40.0, 2)));
}

#[test]
fn key_with_weapon_name_is_appended() {
    let mut inv = Inventory::new();
    inv.add_item(key("pistol", 1));
    inv.add_item(weapon("pistol", 10.0, 5));
    inv.add_item(weapon("pistol", 10.0, 5));
    assert_eq!(current(&inv), Some(("pistol".to_string(), 10.0, 10)));
}

#[test]
fn change_weapon_cycles_through_weapons() {
    let mut inv = Inventory::new();
    inv.add_item(weapon("knife", 5.0, 0));
    inv.add_item(key("red", 3));
    inv.add_item(weapon("pistol", 10.0, 12));
    inv.add_item(weapon("rifle", 25.0, 30));
    assert_eq!(current(&inv).unwrap().0, "knife");
    inv.change_weapon();
    assert_eq!(inv.get_equipped_wpn(), 1);
    assert_eq!(current(&inv).unwrap().0, "pistol");
    inv.change_weapon();
    assert_eq!(current(&inv).unwrap().0, "rifle");
    inv.change_weapon();
    assert_eq!(inv.get_equipped_wpn(), 0);
    assert_eq!(current(&inv).unwrap().0, "knife");
}

#[test]
fn three_changes_among_three_weapons_come_back() {
    let mut inv = Inventory::new();
    inv.add_item(weapon("a", 1.0, 1));
    inv.add_item(weapon("b", 1.0, 1));
    inv.add_item(weapon("c", 1.0, 1));
    inv.change_weapon();
    let start = inv.get_equipped_wpn();
    for _ in 0..3 {
        inv.change_weapon();
    }
    assert_eq!(inv.get_equipped_wpn(), start);
}

#[test]
fn current_weapon_mut_writes_into_the_stash() {
    let mut inv = Inventory::new();
    inv.add_item(weapon("pistol", 10.0, 12));
    if let Some(Items::Weapon { ammo, .. }) = inv.get_current_wpn_mut() {
        *ammo = 3;
    }
    assert_eq!(current(&inv), Some(("pistol".to_string(), 10.0, 3)));
}

#[test]
fn current_weapon_mut_is_none_without_weapons() {
    let mut inv = Inventory::new();
    inv.add_item(key("red", 3));
    assert!(inv.get_current_wpn_mut().is_none());
}

#[test]
fn firing_spends_one_round() {
    let mut inv = Inventory::new();
    inv.add_item(weapon("pistol", 10.5, 2));
    assert_eq!(inv.fire_current_wpn().map(f32::from_bits), Some(10.5));
    assert_eq!(current(&inv).unwrap().2, 1);
    assert_eq!(inv.fire_current_wpn().map(f32::from_bits), Some(10.5));
    assert_eq!(current(&inv).unwrap().2, 0);
    assert_eq!(inv.fire_current_wpn(), None);
    assert_eq!(current(&inv).unwrap().2, 0);
}

#[test]
fn firing_without_weapon_does_nothing() {
    let mut inv = Inventory::new();
    assert_eq!(inv.fire_current_wpn(), None);
    inv.add_item(key("red", 3));
    assert_eq!(inv.fire_current_wpn(), None);
}

#[test]
fn firing_uses_the_equipped_weapon() {
    let mut inv = Inventory::new();
    inv.add_item(weapon("pistol", 10.0, 5));
    inv.add_item(weapon("rifle", 25.0, 7));
    inv.change_weapon();
    assert_eq!(inv.fire_current_wpn().map(f32::from_bits), Some(25.0));
    assert_eq!(current(&inv), Some(("rifle".to_string(), 25.0, 6)));
    inv.change_weapon();
    assert_eq!(current(&inv), Some(("pistol".to_string(), 10.0, 5)));
}

#[test]
fn items_compare_by_value() {
    let mut inv = Inventory::new();
    inv.add_item(weapon("rifle", 25.0, 30));
    assert_eq!(inv.get_current_wpn(), Some(&weapon("rifle", 25.0, 30)));
    assert_ne!(weapon("rifle", 25.0, 30), weapon("rifle", 25.0, 31));
    assert_ne!(key("red", 1), key("red", 2));
}

#[test]
fn inventory_keeps_working_after_a_weapon_is_overwritten_by_a_key() {
    let mut inv = Inventory::new();
    inv.add_item(weapon("pistol", 10.0, 12));
    inv.add_item(weapon("shotgun", 40.0, 2));
    inv.change_weapon();
    assert_eq!(inv.get_equipped_wpn(), 1);
    if let Some(item) = inv.get_current_wpn_mut() {
        *item = key("red", 3);
    }
    // only one weapon is left, and the equipped index points past it
    assert!(inv.get_current_wpn().is_none());
    assert_eq!(inv.fire_current_wpn(), None);
    inv.add_item(weapon("pistol", 10.0, 3));
    assert_eq!(inv.get_equipped_wpn(), 1);
    inv.change_weapon();
    assert_eq!(inv.get_equipped_wpn(), 0);
    assert_eq!(current(&inv), Some(("pistol".to_string(), 10.0, 15)));
    assert_eq!(inv.fire_current_wpn(), Some(10.0f32.to_bits()));
    assert_eq!(current(&inv), Some(("pistol".to_string(), 10.0, 14)));
}
