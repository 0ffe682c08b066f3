// The dispatchable calls of the pallet, under limits of five commodities in
// all and two for one account, with the root origin as commodity admin.

use frame_support::Hashable;
use pallet_commodities::{
    AssetId, Config, DispatchError, Error, Event, Origin, Pallet, UniqueAssets,
};

fn new_test_ext() -> Pallet {
    Pallet::new(Config {
        commodity_admin: Origin::root(),
        commodity_limit: 5,
        user_commodity_limit: 2,
    })
}

fn hash_of(info: Vec<u8>) -> AssetId {
    AssetId::from_bytes(info.blake2_256())
}

#[test]
fn mint() {
    let mut commodities = new_test_ext();
    assert_eq!(commodities.total(), 0);
    assert_eq!(commodities.total_for_account(1), 0);
    assert_eq!(<Pallet as UniqueAssets>::total(&commodities), 0);
    assert_eq!(<Pallet as UniqueAssets>::total_for_account(&commodities, &1), 0);
    assert_eq!(
        commodities.account_for_commodity(hash_of(Vec::<u8>::default())),
        None
    );

    assert_eq!(
        commodities.mint(Origin::root(), 1, Vec::<u8>::default()),
        Ok(Event::Minted(hash_of(Vec::<u8>::default()), 1))
    );

    assert_eq!(commodities.total(), 1);
    assert_eq!(<Pallet as UniqueAssets>::total(&commodities), 1);
    assert_eq!(commodities.burned(), 0);
    assert_eq!(<Pallet as UniqueAssets>::burned(&commodities), 0);
    assert_eq!(commodities.total_for_account(1), 1);
    assert_eq!(<Pallet as UniqueAssets>::total_for_account(&commodities, &1), 1);
    let commodities_for_account = commodities.commodities_for_account(1);
    assert_eq!(commodities_for_account.len(), 1);
    assert_eq!(commodities_for_account[0], hash_of(Vec::<u8>::default()));
    assert_eq!(
        commodities.account_for_commodity(hash_of(Vec::<u8>::default())),
        Some(1)
    );
}

#[test]
fn mint_err_non_admin() {
    let mut commodities = new_test_ext();
    assert_eq!(
        commodities.mint(Origin::signed(1), 1, Vec::<u8>::default()),
        Err(DispatchError::BadOrigin)
    );
}

#[test]
fn mint_err_dupe() {
    let mut commodities = new_test_ext();
    assert!(commodities.mint(Origin::root(), 1, Vec::<u8>::default()).is_ok());

    assert_eq!(
        commodities.mint(Origin::root(), 2, Vec::<u8>::default()),
        Err(DispatchError::Module(Error::CommodityExists))
    );
}

#[test]
fn mint_err_max_user() {
    let mut commodities = new_test_ext();
    assert!(commodities.mint(Origin::root(), 1, vec![]).is_ok());
    assert!(commodities.mint(Origin::root(), 1, vec![0]).is_ok());

    assert_eq!(
        commodities.mint(Origin::root(), 1, vec![1]),
        Err(DispatchError::Module(Error::TooManyCommoditiesForAccount))
    );
}

#[test]
fn mint_err_max() {
    let mut commodities = new_test_ext();
    assert!(commodities.mint(Origin::root(), 1, vec![]).is_ok());
    assert!(commodities.mint(Origin::root(), 2, vec![0]).is_ok());
    assert!(commodities.mint(Origin::root(), 3, vec![1]).is_ok());
    assert!(commodities.mint(Origin::root(), 4, vec![2]).is_ok());
    assert!(commodities.mint(Origin::root(), 5, vec![3]).is_ok());

    assert_eq!(
        commodities.mint(Origin::root(), 6, vec![4]),
        Err(DispatchError::Module(Error::TooManyCommodities))
    );
}

#[test]
fn burn() {
    let mut commodities = new_test_ext();
    assert!(commodities.mint(Origin::root(), 1, Vec::<u8>::default()).is_ok());
    assert_eq!(
        commodities.burn(Origin::signed(1), hash_of(Vec::<u8>::default())),
        Ok(Event::Burned(hash_of(Vec::<u8>::default())))
    );

    assert_eq!(commodities.total(), 0);
    assert_eq!(commodities.burned(), 1);
    assert_eq!(commodities.total_for_account(1), 0);
    assert_eq!(commodities.commodities_for_account(1), vec![]);
    assert_eq!(
        commodities.account_for_commodity(hash_of(Vec::<u8>::default())),
        None
    );
}

#[test]
fn burn_err_not_owner() {
    let mut commodities = new_test_ext();
    assert!(commodities.mint(Origin::root(), 1, Vec::<u8>::default()).is_ok());

    assert_eq!(
        commodities.burn(Origin::signed(2), hash_of(Vec::<u8>::default())),
        Err(DispatchError::Module(Error::NotCommodityOwner))
    );
}

#[test]
fn burn_err_not_exist() {
    let mut commodities = new_test_ext();
    assert_eq!(
        commodities.burn(Origin::signed(1), hash_of(Vec::<u8>::default())),
        Err(DispatchError::Module(Error::NotCommodityOwner))
    );
}

#[test]
fn transfer() {
    let mut commodities = new_test_ext();
    assert!(commodities.mint(Origin::root(), 1, Vec::<u8>::default()).is_ok());
    assert_eq!(
        commodities.transfer(Origin::signed(1), 2, hash_of(Vec::<u8>::default())),
        Ok(Event::Transferred(hash_of(Vec::<u8>::default()), 2))
    );

    assert_eq!(commodities.total(), 1);
    assert_eq!(commodities.burned(), 0);
    assert_eq!(commodities.total_for_account(1), 0);
    assert_eq!(commodities.total_for_account(2), 1);
    assert_eq!(commodities.commodities_for_account(1), vec![]);
    let commodities_for_account = commodities.commodities_for_account(2);
    assert_eq!(commodities_for_account.len(), 1);
    assert_eq!(commodities_for_account[0], hash_of(Vec::<u8>::default()));
    assert_eq!(
        commodities.account_for_commodity(hash_of(Vec::<u8>::default())),
        Some(2)
    );
}

#[test]
fn transfer_err_not_owner() {
    let mut commodities = new_test_ext();
    assert!(commodities.mint(Origin::root(), 1, Vec::<u8>::default()).is_ok());

    assert_eq!(
        commodities.transfer(Origin::signed(0), 2, hash_of(Vec::<u8>::default())),
        Err(DispatchError::Module(Error::NotCommodityOwner))
    );
}

#[test]
fn transfer_err_not_exist() {
    let mut commodities = new_test_ext();
    assert_eq!(
        commodities.transfer(Origin::signed(1), 2, hash_of(Vec::<u8>::default())),
        Err(DispatchError::Module(Error::NotCommodityOwner))
    );
}

#[test]
fn transfer_err_max_user() {
    let mut commodities = new_test_ext();
    assert!(commodities.mint(Origin::root(), 1, vec![0]).is_ok());
    assert!(commodities.mint(Origin::root(), 1, vec![1]).is_ok());
    assert!(commodities.mint(Origin::root(), 2, Vec::<u8>::default()).is_ok());
    assert_eq!(
        commodities.account_for_commodity(hash_of(Vec::<u8>::default())),
        Some(2)
    );

    assert_eq!(
        commodities.transfer(Origin::signed(2), 1, hash_of(Vec::<u8>::default())),
        Err(DispatchError::Module(Error::TooManyCommoditiesForAccount))
    );
}

#[test]
fn calls_need_the_right_origin() {
    let mut commodities = new_test_ext();
    let id = hash_of(vec![7]);
    assert_eq!(
        commodities.mint(Origin::none(), 1, vec![7]),
        Err(DispatchError::BadOrigin)
    );
    assert!(commodities.mint(Origin::root(), 1, vec![7]).is_ok());
    assert_eq!(commodities.burn(Origin::root(), id), Err(DispatchError::BadOrigin));
    assert_eq!(commodities.burn(Origin::none(), id), Err(DispatchError::BadOrigin));
    assert_eq!(
        commodities.transfer(Origin::root(), 2, id),
        Err(DispatchError::BadOrigin)
    );
    assert_eq!(
        commodities.transfer(Origin::none(), 2, id),
        Err(DispatchError::BadOrigin)
    );
    assert_eq!(commodities.total(), 1);
    assert_eq!(commodities.account_for_commodity(id), Some(1));
}

#[test]
fn a_signed_account_can_be_the_admin() {
    let mut commodities = Pallet::new(Config {
        commodity_admin: Origin::signed(9),
        commodity_limit: 5,
        user_commodity_limit: 2,
    });
    assert_eq!(
        commodities.mint(Origin::root(), 1, vec![1]),
        Err(DispatchError::BadOrigin)
    );
    assert_eq!(
        commodities.mint(Origin::signed(8), 1, vec![1]),
        Err(DispatchError::BadOrigin)
    );
    assert_eq!(
        commodities.mint(Origin::signed(9), 1, vec![1]),
        Ok(Event::Minted(hash_of(vec![1]), 1))
    );
}

#[test]
fn the_signer_of_a_nonexistent_commodity_is_never_its_owner() {
    let mut commodities = new_test_ext();
    let id = hash_of(vec![3]);
    assert!(!commodities.is_owner(0, &id));
    assert_eq!(
        commodities.burn(Origin::signed(0), id),
        Err(DispatchError::Module(Error::NotCommodityOwner))
    );
    assert_eq!(
        commodities.transfer(Origin::signed(0), 0, id),
        Err(DispatchError::Module(Error::NotCommodityOwner))
    );
    assert!(commodities.mint(Origin::root(), 0, vec![3]).is_ok());
    assert!(commodities.is_owner(0, &id));
    assert!(!commodities.is_owner(1, &id));
}

#[test]
fn ensure_signed_gives_the_signer() {
    assert_eq!(pallet_commodities::ensure_signed(Origin::signed(5)), Ok(5));
    assert_eq!(
        pallet_commodities::ensure_signed(Origin::root()),
        Err(DispatchError::BadOrigin)
    );
    assert_eq!(
        pallet_commodities::ensure_signed(Origin::none()),
        Err(DispatchError::BadOrigin)
    );
}
