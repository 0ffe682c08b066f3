// Identifiers, ascending vectors and the records that the pallet is made of.

use pallet_commodities::asset_id::{AssetId, Order};
use pallet_commodities::holdings::{OwnedSets, OwnerCounts};
use pallet_commodities::ordered;
use pallet_commodities::owner_index::OwnerIndex;

fn id(first: u8, last: u8) -> AssetId {
    let mut bytes = [0u8; 32];
    bytes[0] = first;
    bytes[31] = last;
    AssetId::from_bytes(bytes)
}

#[test]
fn identifiers_keep_their_bytes() {
    let mut bytes = [0u8; 32];
    for (i, b) in bytes.iter_mut().enumerate() {
        *b = i as u8;
    }
    let id = AssetId::from_bytes(bytes);
    assert_eq!(id.to_bytes(), bytes);
    assert_eq!(id.bytes, bytes);
}

#[test]
fn identifiers_compare_byte_by_byte() {
    assert_eq!(id(0, 0).compare(&id(0, 0)), Order::Equal);
    assert_eq!(id(0, 1).compare(&id(0, 2)), Order::Before);
    assert_eq!(id(0, 2).compare(&id(0, 1)), Order::After);
    assert_eq!(id(1, 0).compare(&id(0, 255)), Order::After);
    assert_eq!(id(0, 255).compare(&id(1, 0)), Order::Before);
    assert_eq!(id(255, 255).compare(&id(255, 255)), Order::Equal);
    assert_eq!(id(127, 0).compare(&id(128, 0)), Order::Before);
}

#[test]
fn comparison_agrees_with_the_order_of_the_byte_arrays() {
    let ids = [id(0, 0), id(0, 9), id(3, 1), id(3, 2), id(200, 0), id(255, 255)];
    for a in ids.iter() {
        for b in ids.iter() {
            let expected = match a.bytes.cmp(&b.bytes) {
                std::cmp::Ordering::Less => Order::Before,
                std::cmp::Ordering::Equal => Order::Equal,
                std::cmp::Ordering::Greater => Order::After,
            };
            assert_eq!(a.compare(b), expected);
        }
    }
}

#[test]
fn search_finds_the_position_or_the_place_to_insert() {
    let v = vec![id(1, 0), id(3, 0), id(5, 0), id(7, 0)];
    assert_eq!(ordered::search(&v, &id(1, 0)), Ok(0));
    assert_eq!(ordered::search(&v, &id(5, 0)), Ok(2));
    assert_eq!(ordered::search(&v, &id(7, 0)), Ok(3));
    assert_eq!(ordered::search(&v, &id(0, 0)), Err(0));
    assert_eq!(ordered::search(&v, &id(4, 0)), Err(2));
    assert_eq!(ordered::search(&v, &id(7, 1)), Err(4));
    let empty: Vec<AssetId> = Vec::new();
    assert_eq!(ordered::search(&empty, &id(1, 0)), Err(0));
}

#[test]
fn insert_keeps_the_vector_ascending_and_without_repeats() {
    let mut v: Vec<AssetId> = Vec::new();
    assert!(ordered::insert(&mut v, id(5, 0)));
    assert!(ordered::insert(&mut v, id(1, 0)));
    assert!(ordered::insert(&mut v, id(9, 0)));
    assert!(ordered::insert(&mut v, id(5, 1)));
    assert!(!ordered::insert(&mut v, id(5, 0)));
    assert_eq!(v, vec![id(1, 0), id(5, 0), id(5, 1), id(9, 0)]);
}

#[test]
fn remove_takes_out_the_one_identifier() {
    let mut v = vec![id(1, 0), id(5, 0), id(5, 1), id(9, 0)];
    ordered::remove(&mut v, &id(5, 0));
    assert_eq!(v, vec![id(1, 0), id(5, 1), id(9, 0)]);
    ordered::remove(&mut v, &id(9, 0));
    ordered::remove(&mut v, &id(1, 0));
    assert_eq!(v, vec![id(5, 1)]);
    ordered::remove(&mut v, &id(5, 1));
    assert!(v.is_empty());
}

#[test]
fn owner_index_maps_each_identifier_to_its_owner() {
    let mut index = OwnerIndex::new();
    assert_eq!(index.len(), 0);
    assert_eq!(index.get(&id(1, 0)), None);
    index.set(id(5, 0), 50);
    index.set(id(1, 0), 10);
    index.set(id(9, 0), 90);
    assert_eq!(index.len(), 3);
    assert_eq!(index.get(&id(1, 0)), Some(10));
    assert_eq!(index.get(&id(5, 0)), Some(50));
    assert_eq!(index.get(&id(9, 0)), Some(90));
    assert_eq!(index.get(&id(2, 0)), None);
    index.set(id(5, 0), 51);
    assert_eq!(index.len(), 3);
    assert_eq!(index.get(&id(5, 0)), Some(51));
    assert_eq!(index.get(&id(1, 0)), Some(10));
    index.unset(&id(1, 0));
    assert_eq!(index.len(), 2);
    assert_eq!(index.get(&id(1, 0)), None);
    assert_eq!(index.get(&id(5, 0)), Some(51));
    assert_eq!(index.get(&id(9, 0)), Some(90));
    index.unset(&id(1, 0));
    assert_eq!(index.len(), 2);
}

#[test]
fn owner_counts_start_at_zero() {
    let mut counts = OwnerCounts::new();
    assert_eq!(counts.get(3), 0);
    counts.set(3, 7);
    assert_eq!(counts.get(3), 7);
    assert_eq!(counts.get(4), 0);
    counts.set(3, 0);
    assert_eq!(counts.get(3), 0);
}

#[test]
fn owned_sets_list_each_account_in_ascending_order() {
    let mut sets = OwnedSets::new();
    assert_eq!(sets.list(1), vec![]);
    assert!(sets.add(1, id(9, 0)));
    assert!(sets.add(1, id(2, 0)));
    assert!(sets.add(2, id(5, 0)));
    assert!(!sets.add(1, id(9, 0)));
    assert_eq!(sets.list(1), vec![id(2, 0), id(9, 0)]);
    assert_eq!(sets.list(2), vec![id(5, 0)]);
    sets.take(1, &id(2, 0));
    assert_eq!(sets.list(1), vec![id(9, 0)]);
    assert_eq!(sets.list(2), vec![id(5, 0)]);
    sets.take(2, &id(5, 0));
    assert_eq!(sets.list(2), vec![]);
}
