use tangle_client::burn::{Burn, BurnDto};
use tangle_client::ids::{AccountId, FoundryId, NativeToken, NftId, TokenAmount, TokenId};

#[test]
fn adding_the_same_account_twice_burns_it_once() {
    let burn = Burn::new()
        .add_account(AccountId { id: 1 })
        .add_account(AccountId { id: 2 })
        .add_account(AccountId { id: 1 });
    assert_eq!(burn.accounts().len(), 2);
    assert!(burn.accounts().contains(&AccountId { id: 1 }));
    assert!(burn.accounts().contains(&AccountId { id: 2 }));
}

#[test]
fn nfts_and_foundries_behave_as_sets() {
    let burn = Burn::new()
        .add_nft(NftId { id: 5 })
        .add_nft(NftId { id: 5 })
        .add_foundry(FoundryId { id: 9 })
        .add_foundry(FoundryId { id: 8 })
        .add_foundry(FoundryId { id: 9 });
    assert_eq!(burn.nfts().len(), 1);
    assert_eq!(burn.foundries().len(), 2);
}

#[test]
fn setters_replace_whole_parts() {
    let burn = Burn::new()
        .add_account(AccountId { id: 1 })
        .set_accounts(vec![AccountId { id: 7 }, AccountId { id: 8 }])
        .set_nfts(vec![NftId { id: 3 }])
        .set_foundries(vec![FoundryId { id: 4 }]);
    assert_eq!(burn.accounts(), &vec![AccountId { id: 7 }, AccountId { id: 8 }]);
    assert_eq!(burn.nfts(), &vec![NftId { id: 3 }]);
    assert_eq!(burn.foundries(), &vec![FoundryId { id: 4 }]);
}

#[test]
fn token_amounts_sort_by_token_and_replace_on_repeat() {
    let burn = Burn::new()
        .add_native_token(TokenId { id: 5 }, TokenAmount::from_u64(10))
        .add_native_token(TokenId { id: 3 }, TokenAmount::from_u64(20))
        .add_native_token(TokenId { id: 5 }, TokenAmount::from_u64(30));
    let tokens = burn.native_tokens();
    assert_eq!(tokens.len(), 2);
    assert_eq!(tokens[0], NativeToken { token_id: TokenId { id: 3 }, amount: TokenAmount::from_u64(20) });
    assert_eq!(tokens[1], NativeToken { token_id: TokenId { id: 5 }, amount: TokenAmount::from_u64(30) });
}

#[test]
fn set_native_tokens_orders_the_entries() {
    let burn = Burn::new().set_native_tokens(vec![
        NativeToken { token_id: TokenId { id: 9 }, amount: TokenAmount::from_u64(1) },
        NativeToken { token_id: TokenId { id: 2 }, amount: TokenAmount::from_u64(2) },
        NativeToken { token_id: TokenId { id: 6 }, amount: TokenAmount::from_u64(3) },
    ]);
    let ids: Vec<u64> = burn.native_tokens().iter().map(|t| t.token_id.id).collect();
    assert_eq!(ids, vec![2, 6, 9]);
}

#[test]
fn empty_parts_travel_as_absent() {
    let dto = Burn::new().to_dto();
    assert!(dto.accounts.is_none());
    assert!(dto.nfts.is_none());
    assert!(dto.foundries.is_none());
    assert!(dto.native_tokens.is_none());

    let dto = Burn::new().add_account(AccountId { id: 1 }).to_dto();
    assert_eq!(dto.accounts, Some(vec![AccountId { id: 1 }]));
    assert!(dto.nfts.is_none());
}

#[test]
fn absent_parts_read_back_as_empty() {
    let dto = BurnDto { accounts: None, nfts: None, foundries: None, native_tokens: None };
    let burn = dto.into_burn();
    assert!(burn.accounts().is_empty());
    assert!(burn.nfts().is_empty());
    assert!(burn.foundries().is_empty());
    assert!(burn.native_tokens().is_empty());
}

#[test]
fn wire_round_trip_preserves_a_directive() {
    let burn = Burn::new()
        .add_account(AccountId { id: 1 })
        .add_nft(NftId { id: 2 })
        .add_foundry(FoundryId { id: 3 })
        .add_native_token(TokenId { id: 4 }, TokenAmount::new(1, 2));
    let round_tripped = burn.clone().to_dto().into_burn();
    assert_eq!(round_tripped, burn);
}

#[test]
fn token_amounts_hold_both_halves() {
    let amount = TokenAmount::new(7, 9);
    assert_eq!(amount.hi, 7);
    assert_eq!(amount.lo, 9);
    let small = TokenAmount::from_u64(u64::MAX);
    assert_eq!(small.hi, 0);
    assert_eq!(small.lo, u64::MAX as u128);
}
