use cfx_transaction::{
    call_data, oracle_call, Action, DecoderError, Transaction, TransactionWithSignature, U256,
};

fn oracle() -> [u8; 20] {
    let mut address = [0u8; 20];
    for (i, byte) in address.iter_mut().enumerate() {
        *byte = i as u8 + 1;
    }
    address
}

fn sample() -> Transaction {
    Transaction {
        nonce: U256::from_u64(0),
        gas_price: U256::from_u64(1),
        gas: U256::from_u64(500_000),
        action: Action::Call(oracle()),
        value: U256::from_u64(0),
        storage_limit: 1000,
        epoch_height: 100,
        chain_id: 1,
        data: vec![],
    }
}

fn large() -> Transaction {
    let mut data = Vec::new();
    for i in 0..512u32 {
        data.push(i as u8);
    }
    let mut top = [0u8; 32];
    top[23] = 1;
    Transaction {
        nonce: U256([0xff; 32]),
        gas_price: U256(top),
        gas: U256::from_u64(0x80),
        action: Action::Create,
        value: U256::from_u64(0x7f),
        storage_limit: u64::MAX,
        epoch_height: 0,
        chain_id: u32::MAX,
        data,
    }
}

fn theirs(tx: &Transaction) -> Vec<u8> {
    let mut stream = rlp::RlpStream::new_list(9);
    stream.append(&ethereum_types::U256::from_big_endian(&tx.nonce.0));
    stream.append(&ethereum_types::U256::from_big_endian(&tx.gas_price.0));
    stream.append(&ethereum_types::U256::from_big_endian(&tx.gas.0));
    match tx.action {
        Action::Create => stream.append(&""),
        Action::Call(address) => stream.append(&ethereum_types::H160(address)),
    };
    stream.append(&ethereum_types::U256::from_big_endian(&tx.value.0));
    stream.append(&tx.storage_limit);
    stream.append(&tx.epoch_height);
    stream.append(&tx.chain_id);
    stream.append(&tx.data);
    stream.out().to_vec()
}

#[test]
fn action_default_is_create() {
    assert_eq!(Action::default(), Action::Create);
}

#[test]
fn action_encodings() {
    let mut out = Vec::new();
    Action::Create.rlp_append(&mut out);
    assert_eq!(out, vec![0x80]);
    let mut out = vec![0xee];
    Action::Call(oracle()).rlp_append(&mut out);
    let mut expected = vec![0xee, 0x94];
    expected.extend_from_slice(&oracle());
    assert_eq!(out, expected);
}

#[test]
fn action_fields() {
    assert_eq!(Action::Create.to_field(), Vec::<u8>::new());
    assert_eq!(Action::Call(oracle()).to_field(), oracle().to_vec());
    assert_eq!(Action::from_field(&[]), Ok(Action::Create));
    assert_eq!(Action::from_field(&oracle()), Ok(Action::Call(oracle())));
}

#[test]
fn action_round_trip() {
    for action in [Action::Create, Action::Call(oracle()), Action::Call([0; 20])] {
        let mut out = Vec::new();
        action.rlp_append(&mut out);
        assert_eq!(Action::decode(&out), Ok(action));
    }
}

#[test]
fn action_of_other_length_fails() {
    for len in 1..20usize {
        assert_eq!(Action::from_field(&vec![7u8; len]), Err(DecoderError::RlpIsTooShort));
    }
    for len in [21usize, 22, 32, 64] {
        assert_eq!(Action::from_field(&vec![7u8; len]), Err(DecoderError::RlpIsTooBig));
    }
    assert_eq!(Action::decode(&[0x05]), Err(DecoderError::RlpIsTooShort));
    let mut long = vec![0x95];
    long.extend_from_slice(&[1u8; 21]);
    assert_eq!(Action::decode(&long), Err(DecoderError::RlpIsTooBig));
}

#[test]
fn action_decoding_wants_the_whole_input() {
    assert_eq!(Action::decode(&[0x80, 0x80]), Err(DecoderError::RlpInconsistentLengthAndData));
    assert_eq!(Action::decode(&[0xc0]), Err(DecoderError::RlpExpectedToBeData));
    assert_eq!(Action::decode(&[]), Err(DecoderError::RlpIsTooShort));
}

#[test]
fn default_transaction_is_empty() {
    let tx = Transaction::default();
    assert_eq!(tx.nonce, U256::zero());
    assert_eq!(tx.gas_price, U256::zero());
    assert_eq!(tx.gas, U256::zero());
    assert_eq!(tx.action, Action::Create);
    assert_eq!(tx.value, U256::zero());
    assert_eq!(tx.storage_limit, 0);
    assert_eq!(tx.epoch_height, 0);
    assert_eq!(tx.chain_id, 0);
    assert_eq!(tx.data, Vec::<u8>::new());
    assert_eq!(hex::encode(tx.rlp_bytes()), "c9808080808080808080");
}

#[test]
fn fields_stand_in_the_order_of_the_format() {
    let fields = sample().to_fields();
    assert_eq!(fields.len(), 9);
    assert_eq!(fields[0], Vec::<u8>::new());
    assert_eq!(fields[1], vec![0x01]);
    assert_eq!(fields[2], vec![0x07, 0xa1, 0x20]);
    assert_eq!(fields[3], oracle().to_vec());
    assert_eq!(fields[4], Vec::<u8>::new());
    assert_eq!(fields[5], vec![0x03, 0xe8]);
    assert_eq!(fields[6], vec![0x64]);
    assert_eq!(fields[7], vec![0x01]);
    assert_eq!(fields[8], Vec::<u8>::new());
}

#[test]
fn canonical_encoding_is_pinned() {
    assert_eq!(
        hex::encode(sample().rlp_bytes()),
        "e280018307a120940102030405060708090a0b0c0d0e0f1011121314808203e8640180"
    );
}

#[test]
fn canonical_encoding_agrees_with_rlp_crate() {
    for tx in [sample(), large(), Transaction::default()] {
        assert_eq!(tx.rlp_bytes(), theirs(&tx));
    }
}

#[test]
fn large_encoding_has_a_long_header() {
    let bytes = large().rlp_bytes();
    assert_eq!(bytes.len(), 580);
    assert_eq!(hex::encode(&bytes[..8]), "f90241a0ffffffff");
}

#[test]
fn transaction_round_trip() {
    for tx in [sample(), large(), Transaction::default()] {
        assert_eq!(Transaction::decode(&tx.rlp_bytes()), Ok(tx));
    }
}

#[test]
fn decoding_is_canonical() {
    let bytes = sample().rlp_bytes();
    let tx = Transaction::decode(&bytes).unwrap();
    assert_eq!(tx.rlp_bytes(), bytes);
}

#[test]
fn decoding_a_list_of_other_length_fails() {
    let eight = vec![vec![]; 8];
    let ten = vec![vec![]; 10];
    assert_eq!(Transaction::from_fields(&eight), Err(DecoderError::RlpIncorrectListLen));
    assert_eq!(Transaction::from_fields(&ten), Err(DecoderError::RlpIncorrectListLen));
    assert_eq!(
        Transaction::decode(&[0xc8, 0x80, 0x80, 0x80, 0x80, 0x80, 0x80, 0x80, 0x80]),
        Err(DecoderError::RlpIncorrectListLen)
    );
}

#[test]
fn decoding_reports_the_first_bad_field() {
    let mut fields = sample().to_fields();
    fields[7] = vec![1, 2, 3, 4, 5];
    assert_eq!(Transaction::from_fields(&fields), Err(DecoderError::RlpIsTooBig));
    fields[5] = vec![0, 1];
    assert_eq!(Transaction::from_fields(&fields), Err(DecoderError::RlpInvalidIndirection));
    fields[3] = vec![1; 19];
    assert_eq!(Transaction::from_fields(&fields), Err(DecoderError::RlpIsTooShort));
    fields[0] = vec![1; 33];
    assert_eq!(Transaction::from_fields(&fields), Err(DecoderError::RlpIsTooBig));
}

#[test]
fn decoding_refuses_what_is_not_a_transaction() {
    assert_eq!(Transaction::decode(&[]), Err(DecoderError::RlpIsTooShort));
    assert_eq!(Transaction::decode(&[0x80]), Err(DecoderError::RlpExpectedToBeList));
    let mut bytes = sample().rlp_bytes();
    bytes.push(0);
    assert_eq!(Transaction::decode(&bytes), Err(DecoderError::RlpInconsistentLengthAndData));
    bytes.pop();
    bytes.pop();
    assert_eq!(Transaction::decode(&bytes), Err(DecoderError::RlpIsTooShort));
}

#[test]
fn digest_is_pinned() {
    assert_eq!(
        hex::encode(sample().hash()),
        "7a10008fc3f48ee5df3e97af50f8e9481741215ee112c56d0ee7570e1719d40a"
    );
    assert_eq!(
        hex::encode(Transaction::default().hash()),
        "c5b2c658f5fa236c598a6e7fbf7f21413dc42e2a41dd982eb772b30707cba2eb"
    );
    assert_eq!(
        hex::encode(large().hash()),
        "cf02cfebc72cdf7db81098ee47ae14dc7246ac389fd37d083944fd7750484af6"
    );
}

#[test]
fn digest_is_that_of_the_encoding() {
    for tx in [sample(), large()] {
        assert_eq!(tx.hash(), keccak_hash::keccak(tx.rlp_bytes()).0);
    }
}

#[test]
fn digest_depends_on_the_fields_alone() {
    assert_eq!(sample().hash(), sample().hash());
    assert_eq!(sample().hash(), sample().clone().hash());
}

#[test]
fn digest_changes_with_each_field() {
    let base = sample().hash();
    let mut changed: Vec<Transaction> = Vec::new();
    for _ in 0..9 {
        changed.push(sample());
    }
    changed[0].nonce = U256::from_u64(1);
    changed[1].gas_price = U256::from_u64(2);
    changed[2].gas = U256::from_u64(500_001);
    changed[3].action = Action::Create;
    changed[4].value = U256::from_u64(1);
    changed[5].storage_limit = 1001;
    changed[6].epoch_height = 101;
    changed[7].chain_id = 2;
    changed[8].data = vec![0];
    for tx in changed.iter() {
        assert_ne!(tx.hash(), base);
        assert_ne!(tx.rlp_bytes(), sample().rlp_bytes());
    }
}

#[test]
fn oracle_call_has_the_fixed_terms() {
    let tx = oracle_call(oracle(), vec![], 100, U256::zero());
    assert_eq!(tx, sample());
    let other = oracle_call([9; 20], vec![1, 2], 7, U256::from_u64(3));
    assert_eq!(other.action, Action::Call([9; 20]));
    assert_eq!(other.data, vec![1, 2]);
    assert_eq!(other.epoch_height, 7);
    assert_eq!(other.nonce, U256::from_u64(3));
    assert_eq!(other.chain_id, 1);
    assert_eq!(other.storage_limit, 1000);
    assert_eq!(other.gas, U256::from_u64(500_000));
    assert_eq!(other.gas_price, U256::from_u64(1));
    assert_eq!(other.value, U256::zero());
}

#[test]
fn envelope_has_twelve_fields_in_one_list() {
    let signed = TransactionWithSignature {
        unsigned: sample(),
        v: 0,
        r: U256::from_u64(0x1234),
        s: U256::from_u64(0x80),
    };
    assert_eq!(
        signed.into_hex_string(),
        "e880018307a120940102030405060708090a0b0c0d0e0f1011121314808203e8640180808212348180"
    );
}

fn envelope() -> TransactionWithSignature {
    TransactionWithSignature {
        unsigned: sample(),
        v: 1,
        r: U256([0xab; 32]),
        s: U256::from_u64(0x80),
    }
}

#[test]
fn envelope_round_trip() {
    let signed = envelope();
    assert_eq!(TransactionWithSignature::decode(&signed.rlp_bytes()), Ok(signed));
    let other = TransactionWithSignature { unsigned: large(), v: 0, r: U256::zero(), s: U256([0xff; 32]) };
    assert_eq!(TransactionWithSignature::decode(&other.rlp_bytes()), Ok(other));
}

#[test]
fn envelope_decoding_refuses_other_lists() {
    assert_eq!(
        TransactionWithSignature::decode(&sample().rlp_bytes()),
        Err(DecoderError::RlpIncorrectListLen)
    );
    assert_eq!(TransactionWithSignature::decode(&[0x80]), Err(DecoderError::RlpExpectedToBeList));
    let mut fields = sample().to_fields();
    fields.push(vec![1, 2]);
    fields.push(vec![3]);
    fields.push(vec![4]);
    let bytes = cfx_transaction::codec::encode_list(&fields);
    assert_eq!(TransactionWithSignature::decode(&bytes), Err(DecoderError::RlpIsTooBig));
    fields[9] = vec![1];
    fields[11] = vec![0, 4];
    let bytes = cfx_transaction::codec::encode_list(&fields);
    assert_eq!(TransactionWithSignature::decode(&bytes), Err(DecoderError::RlpInvalidIndirection));
}

#[test]
fn call_data_ends_with_the_result_as_a_word() {
    let data = call_data(&[0xde, 0xad, 0xbe, 0xef], 1000);
    assert_eq!(data.len(), 36);
    assert_eq!(&data[..4], &[0xde, 0xad, 0xbe, 0xef]);
    assert_eq!(hex::encode(&data[4..]), format!("{:0>64x}", 1000));
    assert_eq!(hex::encode(call_data(&[], u64::MAX)), format!("{:0>64x}", u64::MAX));
    assert_eq!(call_data(&[], 0), vec![0u8; 32]);
}
