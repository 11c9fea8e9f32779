//! Wire codec round trips and rejection of malformed bytes, and the RPC-layer
//! logic: continuation tokens, fee estimates, transaction translation and
//! class decompression.

use papyrus_sync::codec::{
    decode_data_at, decode_length_delimited_data, decode_query, decode_u64,
    encode_length_delimited_data, encode_query, encode_varint,
};
use papyrus_sync::protocol::{
    BlockHash, BlockHashOrNumber, BlockHeader, BlockNumber, Data, DataType, Direction,
    InternalQuery, Signature,
};
use papyrus_sync::rpc::{
    executable_txn_from_broadcasted, execution_error_to_rpc, required_deprecated_class_hash,
    BroadcastedDeclareTransaction, BroadcastedDeclareV1Transaction,
    BroadcastedDeclareV2Transaction, BroadcastedTransaction, stored_invoke_from_rpc,
    stored_txn_to_executable_txn, user_deprecated_contract_class_to_sn_api, ContinuationToken,
    ContinuationTokenAsStruct, DeclareTransaction, DeclareTransactionV0V1,
    DeployAccountTransaction, DeployTransaction, DeprecatedContractClass, EventIndex,
    ExecutableTransactionInput, ExecutionError, FeeEstimate, InvokeTransaction,
    InvokeTransactionV1, L1HandlerTransaction, RpcError, StoredInvokeTransaction,
    StoredTransaction,
};
use papyrus_sync::state_diff::ThinStateDiff;

#[test]
fn varint_round_trips() {
    for value in [0u64, 1, 127, 128, 300, 16383, 16384, u64::MAX] {
        let mut bytes = Vec::new();
        encode_varint(value, &mut bytes);
        assert_eq!(decode_u64(&bytes, 0), Some((value, bytes.len())));
    }
    // One byte per seven bits, high bit marking continuation.
    let mut bytes = Vec::new();
    encode_varint(300, &mut bytes);
    assert_eq!(bytes, vec![0xac, 0x02]);
    // A non-canonical encoding decodes to the same value.
    assert_eq!(decode_u64(&vec![0x80, 0x01], 0), Some((128, 2)));
    // An unterminated varint is rejected.
    assert_eq!(decode_u64(&vec![0x80, 0x80], 0), None);
}

#[test]
fn query_round_trips() {
    let queries = [
        InternalQuery {
            start_block: BlockHashOrNumber::Number(BlockNumber(0)),
            direction: Direction::Forward,
            limit: 5,
            step: 1,
        },
        InternalQuery {
            start_block: BlockHashOrNumber::Hash(BlockHash(0xdead)),
            direction: Direction::Backward,
            limit: u64::MAX,
            step: 3,
        },
    ];
    for query in queries {
        let bytes = encode_query(&query);
        assert_eq!(decode_query(&bytes), Some(query));
    }
    // Trailing bytes are rejected.
    let mut bytes = encode_query(&queries[0]);
    bytes.push(0);
    assert_eq!(decode_query(&bytes), None);
    // An unknown start tag is rejected.
    assert_eq!(decode_query(&vec![7, 0, 0, 1, 1]), None);
    assert_eq!(decode_query(&Vec::new()), None);
}

fn sample_state_diff() -> ThinStateDiff {
    ThinStateDiff {
        deployed_contracts: vec![(1, 2), (3, 4)],
        storage_diffs: vec![(1, vec![(5, 6), (7, 8)]), (3, vec![])],
        declared_classes: vec![(9, 10)],
        deprecated_declared_classes: vec![11, 11],
        nonces: vec![(1, 1)],
        replaced_classes: vec![],
    }
}

#[test]
fn data_frames_round_trip() {
    let items = vec![
        Data::BlockHeaderAndSignature {
            header: BlockHeader {
                block_number: BlockNumber(17),
                block_hash: BlockHash(99),
                state_diff_length: Some(11),
            },
            signatures: vec![Signature { r: 1, s: 2 }, Signature { r: 3, s: 4 }],
        },
        Data::BlockHeaderAndSignature {
            header: BlockHeader {
                block_number: BlockNumber(0),
                block_hash: BlockHash(0),
                state_diff_length: None,
            },
            signatures: vec![],
        },
        Data::StateDiffChunk { part: sample_state_diff() },
        Data::Fin(DataType::SignedBlockHeader),
        Data::Fin(DataType::StateDiff),
    ];
    for item in items {
        let frame = encode_length_delimited_data(&item);
        assert_eq!(decode_length_delimited_data(&frame), Some(item));
    }
}

#[test]
fn malformed_frames_are_rejected() {
    // An empty buffer has no length.
    assert_eq!(decode_length_delimited_data(&Vec::new()), None);
    // A length that overruns the buffer.
    assert_eq!(decode_length_delimited_data(&vec![5, 3, 0]), None);
    // A frame with trailing garbage after the declared payload.
    let mut frame = encode_length_delimited_data(&Data::Fin(DataType::StateDiff));
    frame.push(0);
    assert_eq!(decode_length_delimited_data(&frame), None);
    // An unknown payload tag.
    assert_eq!(decode_data_at(&vec![9u8, 0], 0), None);
    // An end-of-stream marker with an unknown kind of data.
    assert_eq!(decode_data_at(&vec![3u8, 7], 0), None);
}

#[test]
fn continuation_token_round_trips() {
    let index = EventIndex { block_number: 17, transaction_offset: 3, event_offset: 0 };
    let token = ContinuationToken::new(ContinuationTokenAsStruct(index)).unwrap();
    // Sixty digits, two commas, two brackets.
    assert_eq!(token.0.len(), 64);
    let parsed = token.parse().unwrap();
    assert_eq!(parsed.0, index);

    let extremes = EventIndex {
        block_number: u64::MAX,
        transaction_offset: 0,
        event_offset: u64::MAX,
    };
    let token = ContinuationToken::new(ContinuationTokenAsStruct(extremes)).unwrap();
    assert_eq!(token.parse().unwrap().0, extremes);
}

#[test]
fn continuation_token_rejects_malformed_text() {
    for text in [
        "",
        "not a token",
        "[0,1,2]",
        // Sixty-four bytes, but the separators are misplaced.
        "0000000000000000000000000000000000000000000000000000000000000000",
        // The right shape, but a digit position holds a letter.
        "[0000000000000000000a,00000000000000000003,00000000000000000000]",
        // The right shape, but the first number passes a machine word.
        "[99999999999999999999,00000000000000000003,00000000000000000000]",
    ] {
        let token = ContinuationToken(text.to_string());
        assert_eq!(token.parse(), Err(RpcError::InvalidContinuationToken));
    }
}

#[test]
fn fee_estimate_divides_fee_by_price() {
    assert_eq!(
        FeeEstimate::from(10, 105),
        FeeEstimate { gas_consumed: 10, gas_price: 10, overall_fee: 105 }
    );
    // A zero gas price yields the zero estimate.
    assert_eq!(
        FeeEstimate::from(0, 105),
        FeeEstimate { gas_consumed: 0, gas_price: 0, overall_fee: 0 }
    );
    assert_eq!(FeeEstimate::default().overall_fee, 0);
}

fn declare_v0v1(class_hash: u64) -> DeclareTransactionV0V1 {
    DeclareTransactionV0V1 {
        max_fee: 1,
        signature: vec![(1, 2)],
        nonce: 0,
        class_hash,
        sender_address: 7,
    }
}

fn sample_class() -> papyrus_sync::rpc::ExecutableDeprecatedClass {
    user_deprecated_contract_class_to_sn_api(sample_user_class()).unwrap()
}

fn sample_user_class() -> DeprecatedContractClass {
    let program_json = br#"{"builtins":[],"data":[],"hints":{},"identifiers":{},"main_scope":"main","prime":"0x1","reference_manager":{}}"#;
    let mut encoder =
        flate2::write::GzEncoder::new(Vec::new(), flate2::Compression::default());
    std::io::Write::write_all(&mut encoder, program_json).unwrap();
    let compressed = encoder.finish().unwrap();
    let encoded = base64::Engine::encode(&base64::engine::general_purpose::STANDARD, compressed);
    DeprecatedContractClass {
        abi: vec![1, 2, 3],
        compressed_program: encoded,
        entry_points_by_type: vec![4, 5],
    }
}

#[test]
fn stored_transactions_translate_to_executable_form() {
    let class = sample_class();
    let result = stored_txn_to_executable_txn(
        StoredTransaction::Declare(DeclareTransaction::V0(declare_v0v1(5))),
        Some(class),
    );
    assert!(matches!(result, Ok(ExecutableTransactionInput::DeclareV0(tx, _)) if tx.class_hash == 5));

    // A declare without its class definition cannot execute.
    let result = stored_txn_to_executable_txn(
        StoredTransaction::Declare(DeclareTransaction::V1(declare_v0v1(5))),
        None,
    );
    assert_eq!(result.unwrap_err(), RpcError::InternalServerError);

    // Legacy deploys and L1 handlers cannot execute.
    let result = stored_txn_to_executable_txn(
        StoredTransaction::Deploy(DeployTransaction { class_hash: 1, contract_address: 2 }),
        None,
    );
    assert_eq!(result.unwrap_err(), RpcError::InternalServerError);
    let result = stored_txn_to_executable_txn(
        StoredTransaction::L1Handler(L1HandlerTransaction {
            contract_address: 1,
            entry_point_selector: 2,
        }),
        None,
    );
    assert_eq!(result.unwrap_err(), RpcError::InternalServerError);

    // Deploy-account and invoke transactions pass through.
    let deploy = DeployAccountTransaction {
        max_fee: 1,
        signature: vec![],
        nonce: 0,
        class_hash: 3,
        contract_address_salt: 4,
        constructor_calldata: vec![9],
    };
    let result = stored_txn_to_executable_txn(
        StoredTransaction::DeployAccount(deploy.clone()),
        None,
    );
    assert!(matches!(result, Ok(ExecutableTransactionInput::Deploy(tx)) if tx == deploy));
}

#[test]
fn declare_transactions_name_their_class_hash() {
    assert_eq!(
        required_deprecated_class_hash(&StoredTransaction::Declare(DeclareTransaction::V0(
            declare_v0v1(5)
        ))),
        Some(5)
    );
    assert_eq!(
        required_deprecated_class_hash(&StoredTransaction::Invoke(StoredInvokeTransaction::V1(
            papyrus_sync::rpc::StoredInvokeTransactionV1 {
                max_fee: 1,
                signature: vec![],
                nonce: 0,
                sender_address: 1,
                calldata: vec![],
            }
        ))),
        None
    );
}

#[test]
fn invoke_transactions_drop_their_version_field() {
    let v1 = InvokeTransactionV1 {
        max_fee: 5,
        version: 1,
        signature: vec![(1, 1)],
        nonce: 2,
        sender_address: 3,
        calldata: vec![4],
    };
    let stored = stored_invoke_from_rpc(InvokeTransaction::Version1(v1.clone()));
    match stored {
        StoredInvokeTransaction::V1(tx) => {
            assert_eq!(tx.max_fee, v1.max_fee);
            assert_eq!(tx.signature, v1.signature);
            assert_eq!(tx.nonce, v1.nonce);
            assert_eq!(tx.sender_address, v1.sender_address);
            assert_eq!(tx.calldata, v1.calldata);
        },
        other => panic!("unexpected version {other:?}"),
    }
}

#[test]
fn execution_errors_map_to_rpc_errors() {
    assert_eq!(execution_error_to_rpc(ExecutionError::NotSynced), RpcError::BlockNotFound);
    assert_eq!(
        execution_error_to_rpc(ExecutionError::ContractNotFound),
        RpcError::ContractNotFound
    );
    assert_eq!(
        execution_error_to_rpc(ExecutionError::ExecutionFailed),
        RpcError::ContractError
    );
}

#[test]
fn decompress_program_decodes_once_and_inflates() {
    let class = sample_user_class();
    let program = papyrus_sync::rpc::decompress_program(&class.compressed_program).unwrap();
    assert_eq!(program.prime, serde_json::Value::String("0x1".to_string()));

    // Invalid base64 is an internal error.
    assert_eq!(
        papyrus_sync::rpc::decompress_program(&"!!!".to_string()).unwrap_err(),
        RpcError::InternalServerError
    );
    // Valid base64 of bytes that are no gzip stream.
    let not_gzip = base64::Engine::encode(&base64::engine::general_purpose::STANDARD, b"hello");
    assert_eq!(
        papyrus_sync::rpc::decompress_program(&not_gzip).unwrap_err(),
        RpcError::InternalServerError
    );
    // A gzip stream holding bytes that are no program.
    let mut encoder = flate2::write::GzEncoder::new(Vec::new(), flate2::Compression::default());
    std::io::Write::write_all(&mut encoder, b"not json").unwrap();
    let compressed = encoder.finish().unwrap();
    let encoded = base64::Engine::encode(&base64::engine::general_purpose::STANDARD, compressed);
    assert_eq!(
        papyrus_sync::rpc::decompress_program(&encoded).unwrap_err(),
        RpcError::InternalServerError
    );
}

#[test]
fn user_class_translation_passes_fields_through() {
    let class = sample_user_class();
    let translated = user_deprecated_contract_class_to_sn_api(class.clone()).unwrap();
    assert_eq!(translated.abi, class.abi);
    assert_eq!(translated.entry_points_by_type, class.entry_points_by_type);
}

#[test]
fn broadcasted_transactions_translate_to_executable_form() {
    // A version one declare decompresses its class and keeps its fields.
    let declare = BroadcastedDeclareV1Transaction {
        contract_class: sample_user_class(),
        sender_address: 7,
        nonce: 1,
        max_fee: 9,
        signature: vec![(1, 2)],
    };
    let result = executable_txn_from_broadcasted(BroadcastedTransaction::Declare(
        BroadcastedDeclareTransaction::V1(declare),
    ));
    match result.unwrap() {
        ExecutableTransactionInput::DeclareV1(tx, class) => {
            assert_eq!(tx.sender_address, 7);
            assert_eq!(tx.max_fee, 9);
            // Execution does not read the class hash; it stays at its default.
            assert_eq!(tx.class_hash, 0);
            assert_eq!(class.abi, vec![1, 2, 3]);
        },
        other => panic!("unexpected translation {other:?}"),
    }

    // A version two declare cannot execute yet.
    let declare2 = BroadcastedDeclareV2Transaction {
        compiled_class_hash: 1,
        sender_address: 2,
        nonce: 3,
        max_fee: 4,
        signature: vec![],
    };
    let result = executable_txn_from_broadcasted(BroadcastedTransaction::Declare(
        BroadcastedDeclareTransaction::V2(declare2),
    ));
    assert_eq!(result.unwrap_err(), RpcError::InternalServerError);

    // An invoke drops its version field.
    let invoke = InvokeTransaction::Version1(InvokeTransactionV1 {
        max_fee: 5,
        version: 1,
        signature: vec![],
        nonce: 0,
        sender_address: 3,
        calldata: vec![8],
    });
    let result = executable_txn_from_broadcasted(BroadcastedTransaction::Invoke(invoke));
    assert!(matches!(
        result,
        Ok(ExecutableTransactionInput::Invoke(StoredInvokeTransaction::V1(tx))) if tx.calldata == vec![8]
    ));
}
