use colony::resources::{HOUSE_FOOD_CAPACITY, Inventory, public_stock};
use colony::types::ResourceKind;

#[test]
fn inventory_capacity_uses_resource_sizes() {
    let mut inventory = Inventory::public(20);

    assert!(inventory.add(ResourceKind::Wood, 2));
    assert_eq!(inventory.used_capacity(), 20);
    assert_eq!(inventory.max_addable(ResourceKind::Food), 0);
    assert!(!inventory.add(ResourceKind::Food, 1));
}

#[test]
fn food_can_fill_remaining_capacity() {
    let mut inventory = Inventory::public(12);

    assert!(inventory.add(ResourceKind::Wood, 1));
    assert_eq!(inventory.add_partial(ResourceKind::Food, 5), 2);
    assert_eq!(inventory.food, 2);
    assert_eq!(inventory.used_capacity(), 12);
}

#[test]
fn home_inventory_rejects_wood() {
    let mut inventory = Inventory::home_food(HOUSE_FOOD_CAPACITY);

    assert_eq!(inventory.max_addable(ResourceKind::Wood), 0);
    assert!(!inventory.add(ResourceKind::Wood, 1));
    assert!(inventory.add(ResourceKind::Food, 20));
}

#[test]
fn remove_is_atomic() {
    let mut inventory = Inventory::public(20);
    inventory.add(ResourceKind::Wood, 1);

    assert!(!inventory.remove(ResourceKind::Wood, 2));
    assert_eq!(inventory.wood, 1);
    assert!(inventory.remove(ResourceKind::Wood, 1));
    assert_eq!(inventory.wood, 0);
}

#[test]
fn public_stock_only_sums_given_public_inventories() {
    let mut public = Inventory::public(100);
    let mut home = Inventory::home_food(20);
    public.add(ResourceKind::Food, 5);
    home.add(ResourceKind::Food, 20);

    let stock = public_stock(&[public]);

    assert_eq!(stock.food, 5);
    assert_eq!(stock.amount(ResourceKind::Food), 5);
}
