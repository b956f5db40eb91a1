use tangle_client::block::{
    dedup_block_ids, promote_parents, transaction_input_ids, Block, BlockMetadata, Input, Payload,
    TransactionPayload,
};
use tangle_client::client::{Client, RetryAction};
use tangle_client::clock::get_time_checked;
use tangle_client::error::ClientError;
use tangle_client::feature::{IssuerFeature, IssuerFeatureDto};
use tangle_client::ids::{Address, BlockId, NftId, OutputId, TransactionId};
use tangle_client::output::{get_output_amount_and_address, ExpirationCondition, Output, OutputKind};

fn metadata(promote: Option<bool>, reattach: Option<bool>) -> BlockMetadata {
    BlockMetadata { ledger_inclusion_state: None, should_promote: promote, should_reattach: reattach }
}

fn output_id(tx: u64, index: u16) -> OutputId {
    OutputId { transaction_id: TransactionId { id: tx }, index }
}

#[test]
fn clock_within_the_window_passes_through() {
    assert_eq!(get_time_checked(1_700_000_000, Some(1_700_000_200)), Ok(1_700_000_000));
    assert_eq!(get_time_checked(1_700_000_000, None), Ok(1_700_000_000));
}

#[test]
fn clock_drift_is_reported_with_both_readings() {
    assert_eq!(
        get_time_checked(1_700_000_000, Some(1_700_001_000)),
        Err(ClientError::TimeNotSynced {
            current_time: 1_700_000_000,
            milestone_timestamp: 1_700_001_000,
        })
    );
    assert_eq!(
        get_time_checked(1_700_000_000, Some(1_700_000_400)),
        Err(ClientError::TimeNotSynced {
            current_time: 1_700_000_000,
            milestone_timestamp: 1_700_000_400,
        })
    );
}

#[test]
fn clock_window_edges_follow_the_milestone() {
    // The drift must be strictly under five minutes on either side.
    assert_eq!(get_time_checked(701, Some(1000)), Ok(701));
    assert!(get_time_checked(700, Some(1000)).is_err());
    assert_eq!(get_time_checked(1299, Some(1000)), Ok(1299));
    assert!(get_time_checked(1300, Some(1000)).is_err());
}

#[test]
fn retry_prefers_promotion_over_reattachment() {
    let client = Client::new(true, 1000, 1_000_000);
    let b = BlockId { id: 1 };
    assert_eq!(client.retry_decision(b, &metadata(Some(true), Some(true))), Ok(RetryAction::Promote));
    assert_eq!(client.retry_decision(b, &metadata(None, Some(true))), Ok(RetryAction::Reattach));
    assert_eq!(
        client.retry_decision(b, &metadata(Some(false), None)),
        Err(ClientError::NoNeedPromoteOrReattach { block_id: b })
    );
}

#[test]
fn explicit_promote_and_reattach_need_the_recommendation() {
    let client = Client::new(true, 1000, 1_000_000);
    let b = BlockId { id: 2 };
    assert!(client.promote_decision(b, &metadata(Some(true), None)).is_ok());
    assert_eq!(
        client.promote_decision(b, &metadata(None, Some(true))),
        Err(ClientError::NoNeedPromoteOrReattach { block_id: b })
    );
    assert!(client.reattach_decision(b, &metadata(None, Some(true))).is_ok());
    assert_eq!(
        client.reattach_decision(b, &metadata(Some(true), None)),
        Err(ClientError::NoNeedPromoteOrReattach { block_id: b })
    );
}

#[test]
fn published_block_follows_the_proof_of_work_site() {
    let local = Client::new(true, 1000, 1_000_000);
    let remote = Client::new(false, 1000, 1_000_000);
    let built = Block { parents: Vec::new(), payload: None, nonce: 1 };
    let fetched = Block { parents: Vec::new(), payload: None, nonce: 2 };
    assert_eq!(local.published_block(built.clone(), Some(fetched.clone())).nonce, 1);
    assert_eq!(remote.published_block(built, Some(fetched)).nonce, 2);
}

#[test]
fn promotion_references_the_target_after_the_tips() {
    let tips = vec![BlockId { id: 1 }, BlockId { id: 2 }];
    let parents = promote_parents(tips, BlockId { id: 9 });
    assert_eq!(parents, vec![BlockId { id: 1 }, BlockId { id: 2 }, BlockId { id: 9 }]);
}

#[test]
fn transaction_inputs_come_back_in_order() {
    let block = Block {
        parents: Vec::new(),
        payload: Some(Payload::Transaction(TransactionPayload {
            transaction_id: TransactionId { id: 7 },
            inputs: vec![
                Input::Utxo { output_id: output_id(1, 0) },
                Input::Utxo { output_id: output_id(2, 3) },
            ],
            outputs: Vec::new(),
        })),
        nonce: 0,
    };
    let ids = transaction_input_ids(&block).unwrap();
    assert_eq!(ids, vec![output_id(1, 0), output_id(2, 3)]);
}

#[test]
fn treasury_inputs_and_foreign_payloads_are_refused() {
    let block = Block {
        parents: Vec::new(),
        payload: Some(Payload::Transaction(TransactionPayload {
            transaction_id: TransactionId { id: 7 },
            inputs: vec![Input::Utxo { output_id: output_id(1, 0) }, Input::Treasury],
            outputs: Vec::new(),
        })),
        nonce: 0,
    };
    assert_eq!(transaction_input_ids(&block), Err(ClientError::UnexpectedPayload));
    let promotion = Block { parents: Vec::new(), payload: None, nonce: 0 };
    assert_eq!(transaction_input_ids(&promotion), Err(ClientError::UnexpectedPayload));
}

#[test]
fn duplicate_block_ids_are_queried_once() {
    let ids = vec![BlockId { id: 1 }, BlockId { id: 2 }, BlockId { id: 1 }, BlockId { id: 3 }];
    let unique = dedup_block_ids(&ids);
    assert_eq!(unique, vec![BlockId { id: 1 }, BlockId { id: 2 }, BlockId { id: 3 }]);
}

#[test]
fn block_builder_stages_its_configuration() {
    let client = Client::new(true, 1500, 1_000_000);
    let builder = client
        .block()
        .with_inputs(vec![Input::Utxo { output_id: output_id(4, 0) }])
        .with_outputs(Vec::new())
        .with_tag(vec![0xAB])
        .with_data(vec![0xCD, 0xEF]);
    assert_eq!(builder.inputs.unwrap().len(), 1);
    assert_eq!(builder.tag.unwrap(), vec![0xAB]);
    assert_eq!(builder.data.unwrap(), vec![0xCD, 0xEF]);
    assert_eq!(builder.client.min_pow_score, 1500);
}

#[test]
fn address_derivation_request_carries_its_range() {
    let client = Client::new(true, 1500, 1_000_000);
    let request = client.get_addresses().with_account_index(3).with_range(10, 30).with_internal(true);
    assert_eq!(request.account_index, 3);
    assert_eq!(request.range_start, 10);
    assert_eq!(request.range_end, 30);
    assert!(request.internal);
}

#[test]
fn expired_outputs_answer_to_the_return_address() {
    let owner = Address::Ed25519 { key_hash: 1 };
    let sender = Address::Ed25519 { key_hash: 2 };
    let output = Output {
        kind: OutputKind::Basic,
        amount: 750,
        address: owner,
        expiration: Some(ExpirationCondition { unix_time: 1000, return_address: sender }),
        timelock: None,
        storage_deposit_return: None,
    };
    assert_eq!(get_output_amount_and_address(&output, 999), (750, owner));
    assert_eq!(get_output_amount_and_address(&output, 1000), (750, sender));
}

#[test]
fn issuer_feature_wraps_an_address() {
    let address = Address::Nft { nft_id: NftId { id: 4 } };
    let feature = IssuerFeature::new(address);
    assert_eq!(feature.address(), &address);
    assert_eq!(IssuerFeature::KIND, 1);
    let dto = IssuerFeatureDto::from_feature(&feature);
    assert_eq!(dto.kind, 1);
    assert_eq!(dto.address, address);
}
