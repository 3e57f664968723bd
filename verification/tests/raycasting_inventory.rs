use raycaster::raycasting_engine::player::{Inventory, Items};

fn weapon(name: &str, ammo: u32) -> Items {
    Items::Weapon { name: name.to_string(), damage_bits: 12.5f32.to_bits(), ammo }
}

fn key(name: &str) -> Items {
    Items::Key { name: name.to_string(), opens: 1 }
}

fn current(inv: &Inventory) -> Option<(String, u32)> {
    match inv.get_current_wpn() {
        Some(Items::Weapon { name, ammo, .. }) => Some((name.clone(), *ammo)),
        Some(Items::Key { .. }) => panic!("the current weapon is a key"),
        None => None,
    }
}

#[test]
fn weapons_before_any_key_are_merged() {
    let mut inv = Inventory::new();
    inv.add_item(weapon("pistol", 4));
    inv.add_item(weapon("rifle", 2));
    inv.add_item(weapon("pistol", 6));
    assert_eq!(current(&inv), Some(("pistol".to_string(), 10)));
    inv.change_weapon();
    assert_eq!(current(&inv), Some(("rifle".to_string(), 2)));
    inv.change_weapon();
    assert_eq!(current(&inv), Some(("pistol".to_string(), 10)));
}

#[test]
fn a_key_ends_the_search_and_the_weapon_is_not_stashed() {
    let mut inv = Inventory::new();
    inv.add_item(key("red"));
    inv.add_item(weapon("pistol", 4));
    assert!(inv.get_current_wpn().is_none());
    inv.change_weapon();
    assert!(inv.get_current_wpn().is_none());
}

#[test]
fn a_weapon_before_the_key_is_still_refilled() {
    let mut inv = Inventory::new();
    inv.add_item(weapon("pistol", 4));
    inv.add_item(key("red"));
    inv.add_item(weapon("pistol", 1));
    assert_eq!(current(&inv), Some(("pistol".to_string(), 5)));
    inv.add_item(weapon("rifle", 3));
    inv.change_weapon();
    // the rifle was not stashed: the key came first
    assert_eq!(current(&inv), Some(("pistol".to_string(), 5)));
}

#[test]
fn empty_inventory_has_no_weapon() {
    let mut inv = Inventory::new();
    assert!(inv.get_current_wpn().is_none());
    inv.change_weapon();
    assert!(inv.get_current_wpn().is_none());
}
