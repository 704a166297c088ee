use cw721::error::Cw721ContractError;
use cw721::expiration::{BlockInfo, Expiration};
use cw721::msg::{
    Coin, CollectionNftMetadataMsg, Cw721ExecuteMsg, Cw721InstantiateMsg, Cw721QueryMsg,
    Cw721QueryResponse, ResponseMsg,
};
use cw721::ownership::Action;
use cw721::query::humanize_approval;
use cw721::state::{Approval, Attribute, Cw721Contract, MetadataExt};

fn block(height: u64, time: u64) -> BlockInfo {
    BlockInfo { height, time }
}

fn fresh(minter: &str, creator: &str) -> Cw721Contract {
    Cw721Contract::instantiate(
        Cw721InstantiateMsg {
            name: "SpaceShips".to_string(),
            symbol: "SPACE".to_string(),
            collection_metadata_extension: Vec::new(),
            minter: Some(minter.to_string()),
            creator: Some(creator.to_string()),
            withdraw_address: None,
        },
        "deployer",
        &block(1, 1000),
    )
    .unwrap()
}

fn mint(c: &mut Cw721Contract, minter: &str, id: &str, owner: &str) {
    c.mint(minter, id.to_string(), owner.to_string(), None, MetadataExt {})
        .unwrap();
}

#[test]
fn expiration_cases() {
    let b = block(100, 5000);
    assert!(!Expiration::Never.is_expired(&b));
    assert!(!Expiration::AtHeight(101).is_expired(&b));
    assert!(Expiration::AtHeight(100).is_expired(&b));
    assert!(Expiration::AtHeight(99).is_expired(&b));
    assert!(!Expiration::AtTime(5001).is_expired(&b));
    assert!(Expiration::AtTime(5000).is_expired(&b));
    assert!(Expiration::AtTime(4999).is_expired(&b));
}

#[test]
fn mint_and_query_roundtrip() {
    let mut c = fresh("minty", "cready");
    assert_eq!(c.query_num_tokens().count, 0);
    mint(&mut c, "minty", "t1", "alice");
    assert_eq!(c.query_num_tokens().count, 1);
    let info = c.query_owner_of("t1", false, &block(1, 1)).unwrap();
    assert_eq!(info.owner, "alice");
    assert!(info.approvals.is_empty());
    let nft = c.query_nft_info("t1").unwrap();
    assert_eq!(nft.token_uri, None);
}

#[test]
fn mint_requires_minter() {
    let mut c = fresh("minty", "cready");
    let r = c.mint(
        "alice",
        "t1".to_string(),
        "alice".to_string(),
        None,
        MetadataExt {},
    );
    assert_eq!(r, Err(Cw721ContractError::Unauthorized));
    assert_eq!(c.query_num_tokens().count, 0);
}

#[test]
fn mint_duplicate_id_fails() {
    let mut c = fresh("minty", "cready");
    mint(&mut c, "minty", "t1", "alice");
    let r = c.mint(
        "minty",
        "t1".to_string(),
        "bob".to_string(),
        None,
        MetadataExt {},
    );
    assert_eq!(r, Err(Cw721ContractError::AlreadyExists));
    assert_eq!(c.query_owner_of("t1", false, &block(1, 1)).unwrap().owner, "alice");
}

#[test]
fn transfer_approve_scenario() {
    let mut c = fresh("minty", "cready");
    let b = block(5, 500);
    mint(&mut c, "minty", "t1", "alice");
    let info = c.query_owner_of("t1", false, &b).unwrap();
    assert_eq!(info.owner, "alice");
    assert!(info.approvals.is_empty());

    c.approve("alice", "bob".to_string(), "t1", None, &b).unwrap();
    let a = c.query_approval("t1", "bob", false, &b).unwrap();
    assert_eq!(a.approval.spender, "bob");
    assert_eq!(a.approval.expires, Expiration::Never);

    c.transfer_nft("bob", "carol".to_string(), "t1".to_string(), &b)
        .unwrap();
    assert_eq!(c.query_owner_of("t1", false, &b).unwrap().owner, "carol");
    let alice_tokens = c.query_tokens("alice", None, None).tokens;
    assert!(!alice_tokens.contains(&"t1".to_string()));
    let carol_tokens = c.query_tokens("carol", None, None).tokens;
    assert!(carol_tokens.contains(&"t1".to_string()));
    let all = c.query_approvals("t1", true, &b).unwrap().approvals;
    assert!(all.is_empty());
}

#[test]
fn approval_expiration_scenario() {
    let mut c = fresh("minty", "cready");
    let at50 = block(50, 50);
    let at150 = block(150, 150);
    mint(&mut c, "minty", "t1", "alice");
    c.approve("alice", "bob".to_string(), "t1", Some(Expiration::AtHeight(100)), &at50)
        .unwrap();
    let a = c.query_approval("t1", "bob", false, &at50).unwrap();
    assert_eq!(a.approval.spender, "bob");
    assert_eq!(a.approval.expires, Expiration::AtHeight(100));

    let miss = c.query_approval("t1", "bob", false, &at150);
    assert_eq!(miss.map(|r| r.approval.spender), Err(Cw721ContractError::NotFound));
    let hit = c.query_approval("t1", "bob", true, &at150).unwrap();
    assert_eq!(hit.approval.spender, "bob");
    assert_eq!(hit.approval.expires, Expiration::AtHeight(100));
}

#[test]
fn expired_approval_cannot_transfer() {
    let mut c = fresh("minty", "cready");
    let at50 = block(50, 50);
    let at150 = block(150, 150);
    mint(&mut c, "minty", "t1", "alice");
    c.approve("alice", "bob".to_string(), "t1", Some(Expiration::AtHeight(100)), &at50)
        .unwrap();
    let r = c.transfer_nft("bob", "carol".to_string(), "t1".to_string(), &at150);
    assert_eq!(r, Err(Cw721ContractError::Unauthorized));
    assert_eq!(c.query_owner_of("t1", true, &at150).unwrap().owner, "alice");
}

#[test]
fn approve_upsert_replaces_prior_entry() {
    let mut c = fresh("minty", "cready");
    let b = block(5, 500);
    mint(&mut c, "minty", "t1", "alice");
    c.approve("alice", "bob".to_string(), "t1", Some(Expiration::AtHeight(100)), &b)
        .unwrap();
    c.approve("alice", "bob".to_string(), "t1", Some(Expiration::AtHeight(200)), &b)
        .unwrap();
    let all = c.query_approvals("t1", true, &b).unwrap().approvals;
    assert_eq!(all.len(), 1);
    assert_eq!(all[0].spender, "bob");
    assert_eq!(all[0].expires, Expiration::AtHeight(200));
}

#[test]
fn approve_expired_grant_rejected() {
    let mut c = fresh("minty", "cready");
    let b = block(100, 100);
    mint(&mut c, "minty", "t1", "alice");
    let r = c.approve("alice", "bob".to_string(), "t1", Some(Expiration::AtHeight(50)), &b);
    assert_eq!(r, Err(Cw721ContractError::Expired));
}

#[test]
fn revoke_removes_and_absent_is_no_op() {
    let mut c = fresh("minty", "cready");
    let b = block(5, 500);
    mint(&mut c, "minty", "t1", "alice");
    c.approve("alice", "bob".to_string(), "t1", None, &b).unwrap();
    c.revoke("alice", "bob", "t1", &b).unwrap();
    assert!(c.query_approvals("t1", true, &b).unwrap().approvals.is_empty());
    c.revoke("alice", "nobody", "t1", &b).unwrap();
}

#[test]
fn unauthorized_transfer_changes_nothing() {
    let mut c = fresh("minty", "cready");
    let b = block(5, 500);
    mint(&mut c, "minty", "t1", "alice");
    let r = c.transfer_nft("mallory", "mallory".to_string(), "t1".to_string(), &b);
    assert_eq!(r, Err(Cw721ContractError::Unauthorized));
    assert_eq!(c.query_owner_of("t1", true, &b).unwrap().owner, "alice");
    assert_eq!(c.query_num_tokens().count, 1);
    let alice_tokens = c.query_tokens("alice", None, None).tokens;
    assert_eq!(alice_tokens, vec!["t1".to_string()]);
}

#[test]
fn transfer_to_self_keeps_token_and_clears_approvals() {
    let mut c = fresh("minty", "cready");
    let b = block(5, 500);
    mint(&mut c, "minty", "t1", "alice");
    c.approve("alice", "bob".to_string(), "t1", None, &b).unwrap();
    c.transfer_nft("alice", "alice".to_string(), "t1".to_string(), &b)
        .unwrap();
    assert_eq!(c.query_owner_of("t1", true, &b).unwrap().owner, "alice");
    assert!(c.query_approvals("t1", true, &b).unwrap().approvals.is_empty());
    assert_eq!(c.query_tokens("alice", None, None).tokens, vec!["t1".to_string()]);
}

#[test]
fn transfer_of_missing_token_is_not_found() {
    let mut c = fresh("minty", "cready");
    let b = block(5, 500);
    let r = c.transfer_nft("alice", "bob".to_string(), "ghost".to_string(), &b);
    assert_eq!(r, Err(Cw721ContractError::NotFound));
}

#[test]
fn operator_may_transfer() {
    let mut c = fresh("minty", "cready");
    let b = block(5, 500);
    mint(&mut c, "minty", "t1", "alice");
    c.approve_all("alice", "opal".to_string(), None, &b).unwrap();
    c.transfer_nft("opal", "bob".to_string(), "t1".to_string(), &b)
        .unwrap();
    assert_eq!(c.query_owner_of("t1", false, &b).unwrap().owner, "bob");
}

#[test]
fn operator_queries_and_revocation() {
    let mut c = fresh("minty", "cready");
    let b = block(5, 500);
    c.approve_all("alice", "opal".to_string(), Some(Expiration::AtHeight(100)), &b)
        .unwrap();
    let o = c.query_operator("alice", "opal", false, &b).unwrap();
    assert_eq!(o.approval.spender, "opal");
    assert_eq!(o.approval.expires, Expiration::AtHeight(100));

    let later = block(100, 100);
    let miss = c.query_operator("alice", "opal", false, &later);
    assert_eq!(miss.map(|r| r.approval.spender), Err(Cw721ContractError::NotFound));
    let hit = c.query_operator("alice", "opal", true, &later).unwrap();
    assert_eq!(hit.approval.spender, "opal");

    c.revoke_all("alice", "opal");
    let gone = c.query_operator("alice", "opal", true, &b);
    assert_eq!(gone.map(|r| r.approval.spender), Err(Cw721ContractError::NotFound));
}

#[test]
fn operators_pagination_and_filter() {
    let mut c = fresh("minty", "cready");
    let b = block(5, 500);
    c.approve_all("alice", "op1".to_string(), None, &b).unwrap();
    c.approve_all("alice", "op2".to_string(), Some(Expiration::AtHeight(10)), &b)
        .unwrap();
    c.approve_all("alice", "op3".to_string(), None, &b).unwrap();
    c.approve_all("zara", "op4".to_string(), None, &b).unwrap();

    let all = c.query_operators("alice", true, None, None, &b).operators;
    assert_eq!(all.len(), 3);
    assert_eq!(all[0].spender, "op1");
    assert_eq!(all[1].spender, "op2");
    assert_eq!(all[2].spender, "op3");

    let later = block(10, 10);
    let live = c.query_operators("alice", false, None, None, &later).operators;
    assert_eq!(live.len(), 2);
    assert_eq!(live[0].spender, "op1");
    assert_eq!(live[1].spender, "op3");

    let after = c
        .query_operators("alice", true, Some("op1".to_string()), Some(1), &b)
        .operators;
    assert_eq!(after.len(), 1);
    assert_eq!(after[0].spender, "op2");
}

#[test]
fn burn_restores_count_and_clears_structures() {
    let mut c = fresh("minty", "cready");
    let b = block(5, 500);
    mint(&mut c, "minty", "t0", "alice");
    assert_eq!(c.query_num_tokens().count, 1);
    mint(&mut c, "minty", "t1", "alice");
    assert_eq!(c.query_num_tokens().count, 2);
    c.burn("alice", "t1", &b).unwrap();
    assert_eq!(c.query_num_tokens().count, 1);
    let r = c.query_owner_of("t1", true, &b);
    assert_eq!(r.map(|x| x.owner), Err(Cw721ContractError::NotFound));
    let alice_tokens = c.query_tokens("alice", None, None).tokens;
    assert_eq!(alice_tokens, vec!["t0".to_string()]);
}

#[test]
fn burn_requires_send_rights() {
    let mut c = fresh("minty", "cready");
    let b = block(5, 500);
    mint(&mut c, "minty", "t1", "alice");
    let r = c.burn("mallory", "t1", &b);
    assert_eq!(r, Err(Cw721ContractError::Unauthorized));
    assert_eq!(c.query_num_tokens().count, 1);
}

#[test]
fn send_nft_carries_receipt_and_transfers() {
    let mut c = fresh("minty", "cready");
    let b = block(5, 500);
    mint(&mut c, "minty", "t1", "alice");
    let receipt = c
        .send_nft("alice", "somecontract".to_string(), "t1".to_string(), vec![1, 2, 3], &b)
        .unwrap();
    assert_eq!(receipt.sender, "alice");
    assert_eq!(receipt.token_id, "t1");
    assert_eq!(receipt.msg, vec![1, 2, 3]);
    assert_eq!(c.query_owner_of("t1", false, &b).unwrap().owner, "somecontract");
    assert!(c.query_approvals("t1", true, &b).unwrap().approvals.is_empty());
}

#[test]
fn tokens_pagination_bounds() {
    let mut c = fresh("minty", "cready");
    for i in 0..12 {
        mint(&mut c, "minty", &format!("tok{:02}", i), "alice");
    }
    let first = c.query_tokens("alice", None, None).tokens;
    assert_eq!(first.len(), 10);
    assert_eq!(first[0], "tok00");
    assert_eq!(first[9], "tok09");

    let rest = c.query_tokens("alice", Some("tok09".to_string()), None).tokens;
    assert_eq!(rest, vec!["tok10".to_string(), "tok11".to_string()]);
    assert!(!rest.contains(&"tok09".to_string()));

    let two = c.query_tokens("alice", Some("tok03".to_string()), Some(2)).tokens;
    assert_eq!(two, vec!["tok04".to_string(), "tok05".to_string()]);

    let clamped = c.query_tokens("alice", None, Some(0)).tokens;
    assert_eq!(clamped.len(), 1);
}

#[test]
fn all_tokens_ascending_across_owners() {
    let mut c = fresh("minty", "cready");
    mint(&mut c, "minty", "b", "bob");
    mint(&mut c, "minty", "a", "alice");
    mint(&mut c, "minty", "c", "carol");
    let all = c.query_all_tokens(None, None).tokens;
    assert_eq!(all, vec!["a".to_string(), "b".to_string(), "c".to_string()]);
    let after = c.query_all_tokens(Some("a".to_string()), Some(1)).tokens;
    assert_eq!(after, vec!["b".to_string()]);
}

#[test]
fn owner_is_implicitly_approved() {
    let mut c = fresh("minty", "cready");
    let b = block(5, 500);
    mint(&mut c, "minty", "t1", "alice");
    let a = c.query_approval("t1", "alice", false, &b).unwrap();
    assert_eq!(a.approval.spender, "alice");
    assert_eq!(a.approval.expires, Expiration::Never);
    let miss = c.query_approval("t1", "bob", false, &b);
    assert_eq!(miss.map(|r| r.approval.spender), Err(Cw721ContractError::NotFound));
}

#[test]
fn minter_ownership_two_phase_transfer() {
    let mut c = fresh("minty", "cready");
    let b = block(5, 500);
    c.update_minter_ownership(
        "minty",
        Action::TransferOwnership { new_owner: "nova".to_string(), expiry: None },
        &b,
    )
    .unwrap();
    let pending = c.query_minter_ownership();
    assert_eq!(pending.owner, Some("minty".to_string()));
    assert_eq!(pending.pending_owner, Some("nova".to_string()));

    let r = c.update_minter_ownership("mallory", Action::AcceptOwnership, &b);
    assert_eq!(r, Err(Cw721ContractError::Unauthorized));

    c.update_minter_ownership("nova", Action::AcceptOwnership, &b).unwrap();
    let done = c.query_minter_ownership();
    assert_eq!(done.owner, Some("nova".to_string()));
    assert_eq!(done.pending_owner, None);

    let r = c.mint("minty", "t1".to_string(), "alice".to_string(), None, MetadataExt {});
    assert_eq!(r, Err(Cw721ContractError::Unauthorized));
    c.mint("nova", "t1".to_string(), "alice".to_string(), None, MetadataExt {})
        .unwrap();
}

#[test]
fn ownership_accept_after_expiry_fails() {
    let mut c = fresh("minty", "cready");
    c.update_minter_ownership(
        "minty",
        Action::TransferOwnership {
            new_owner: "nova".to_string(),
            expiry: Some(Expiration::AtHeight(100)),
        },
        &block(5, 5),
    )
    .unwrap();
    let r = c.update_minter_ownership("nova", Action::AcceptOwnership, &block(100, 100));
    assert_eq!(r, Err(Cw721ContractError::Expired));
    assert_eq!(c.query_minter_ownership().owner, Some("minty".to_string()));
}

#[test]
fn renounce_only_without_live_proposal() {
    let mut c = fresh("minty", "cready");
    let b = block(5, 5);
    c.update_creator_ownership(
        "cready",
        Action::TransferOwnership {
            new_owner: "nova".to_string(),
            expiry: Some(Expiration::AtHeight(100)),
        },
        &b,
    )
    .unwrap();
    let r = c.update_creator_ownership("cready", Action::RenounceOwnership, &b);
    assert_eq!(r, Err(Cw721ContractError::InvalidInput));
    let r = c.update_creator_ownership("cready", Action::RenounceOwnership, &block(100, 100));
    assert_eq!(r, Ok(()));
    assert_eq!(c.query_creator_ownership().owner, None);
}

#[test]
fn creator_curates_metadata_not_owner() {
    let mut c = fresh("minty", "cready");
    let b = block(5, 500);
    mint(&mut c, "minty", "t1", "alice");
    let r = c.update_nft_info("alice", "t1", Some("ipfs://new".to_string()), MetadataExt {});
    assert_eq!(r, Err(Cw721ContractError::Unauthorized));
    c.update_nft_info("cready", "t1", Some("ipfs://new".to_string()), MetadataExt {})
        .unwrap();
    assert_eq!(
        c.query_nft_info("t1").unwrap().token_uri,
        Some("ipfs://new".to_string())
    );
    assert_eq!(c.query_owner_of("t1", true, &b).unwrap().owner, "alice");
}

#[test]
fn collection_metadata_partial_update() {
    let mut c = fresh("minty", "cready");
    let meta0 = c.query_collection_metadata();
    assert_eq!(meta0.name, "SpaceShips");
    assert_eq!(meta0.symbol, "SPACE");
    assert_eq!(meta0.updated_at, 1000);

    c.update_collection_metadata(
        "cready",
        CollectionNftMetadataMsg {
            name: Some("Shuttles".to_string()),
            symbol: None,
            extension: Some(vec![
                Attribute { key: "theme".to_string(), value: "space".to_string() },
                Attribute { key: "artist".to_string(), value: "ada".to_string() },
            ]),
        },
        &block(9, 9000),
    )
    .unwrap();
    let meta = c.query_collection_metadata_and_extension();
    assert_eq!(meta.name, "Shuttles");
    assert_eq!(meta.symbol, "SPACE");
    assert_eq!(meta.updated_at, 9000);
    assert_eq!(meta.extension.len(), 2);
    assert_eq!(meta.extension[0].key, "artist");
    assert_eq!(meta.extension[1].key, "theme");
}

#[test]
fn duplicate_attribute_keys_rejected() {
    let mut c = fresh("minty", "cready");
    let r = c.update_collection_metadata(
        "cready",
        CollectionNftMetadataMsg {
            name: None,
            symbol: None,
            extension: Some(vec![
                Attribute { key: "k".to_string(), value: "1".to_string() },
                Attribute { key: "k".to_string(), value: "2".to_string() },
            ]),
        },
        &block(9, 9000),
    );
    assert_eq!(r, Err(Cw721ContractError::InvalidInput));
}

#[test]
fn withdraw_address_lifecycle() {
    let mut c = fresh("minty", "cready");
    let r = c.withdraw_funds(Coin { denom: "atom".to_string(), amount: 5 });
    assert!(matches!(r, Err(Cw721ContractError::NotFound)));

    let r = c.set_withdraw_address("mallory", "treasury".to_string());
    assert_eq!(r, Err(Cw721ContractError::Unauthorized));
    c.set_withdraw_address("cready", "treasury".to_string()).unwrap();
    assert_eq!(c.query_withdraw_address(), Some("treasury".to_string()));

    let payout = c.withdraw_funds(Coin { denom: "atom".to_string(), amount: 5 }).unwrap();
    match payout {
        ResponseMsg::BankSend { to_address, amount } => {
            assert_eq!(to_address, "treasury");
            assert_eq!(amount.denom, "atom");
            assert_eq!(amount.amount, 5);
        }
        _ => panic!("expected a bank payout"),
    }

    c.remove_withdraw_address("cready").unwrap();
    assert_eq!(c.query_withdraw_address(), None);
    let r = c.remove_withdraw_address("cready");
    assert_eq!(r, Err(Cw721ContractError::NotFound));
}

#[test]
fn migrate_replaces_roles() {
    let mut c = fresh("minty", "cready");
    c.migrate(Some("newminter".to_string()), None);
    assert_eq!(c.query_minter().minter, Some("newminter".to_string()));
    assert_eq!(c.query_creator_ownership().owner, Some("cready".to_string()));
}

#[test]
fn instantiate_defaults_roles_to_sender() {
    let c = Cw721Contract::instantiate(
        Cw721InstantiateMsg {
            name: "N".to_string(),
            symbol: "S".to_string(),
            collection_metadata_extension: Vec::new(),
            minter: None,
            creator: None,
            withdraw_address: None,
        },
        "deployer",
        &block(1, 1),
    )
    .unwrap();
    assert_eq!(c.query_minter().minter, Some("deployer".to_string()));
    assert_eq!(c.query_creator_ownership().owner, Some("deployer".to_string()));
}

#[test]
fn dispatchers_route_messages() {
    let mut c = fresh("minty", "cready");
    let b = block(5, 500);
    c.execute(
        "minty",
        &b,
        Cw721ExecuteMsg::Mint {
            token_id: "t1".to_string(),
            owner: "alice".to_string(),
            token_uri: None,
            extension: MetadataExt {},
        },
    )
    .unwrap();
    let out = c
        .execute(
            "alice",
            &b,
            Cw721ExecuteMsg::SendNft {
                contract: "vault".to_string(),
                token_id: "t1".to_string(),
                msg: vec![9],
            },
        )
        .unwrap();
    assert_eq!(out.messages.len(), 1);
    match c
        .query(&b, Cw721QueryMsg::OwnerOf { token_id: "t1".to_string(), include_expired: None })
        .unwrap()
    {
        Cw721QueryResponse::OwnerOf(resp) => {
            assert_eq!(resp.owner, "vault");
            assert!(resp.approvals.is_empty());
        }
        _ => panic!("expected an owner answer"),
    }
    match c.query(&b, Cw721QueryMsg::NumTokens {}).unwrap() {
        Cw721QueryResponse::NumTokens(resp) => assert_eq!(resp.count, 1),
        _ => panic!("expected a count answer"),
    }
}

#[test]
fn royalty_amounts_round_down() {
    let r = cw721::royalty::query_royalties_info(Some(7), Some("artist".to_string()), 1000);
    assert_eq!(r.royalty_amount, 70);
    assert_eq!(r.address, "artist");
    let r = cw721::royalty::query_royalties_info(Some(7), None, 999);
    assert_eq!(r.royalty_amount, 69);
    assert_eq!(r.address, "");
    let r = cw721::royalty::query_royalties_info(None, Some("artist".to_string()), 12345);
    assert_eq!(r.royalty_amount, 0);
    let r = cw721::royalty::query_royalties_info(Some(100), None, 12345);
    assert_eq!(r.royalty_amount, 12345);
    assert!(cw721::royalty::check_royalties().royalty_payments);
}

#[test]
fn humanize_approval_copies_fields() {
    let a = Approval { spender: "bob".to_string(), expires: Expiration::AtTime(77) };
    let h = humanize_approval(&a);
    assert_eq!(h.spender, "bob");
    assert_eq!(h.expires, Expiration::AtTime(77));
}
