use dawn::beacon::Beacon;
use dawn::blockchain::address::Address;
use dawn::blockchain::block::{genesis_block, Block, BlockData};
use dawn::blockchain::transaction::{coinbase_transaction, Transaction, TransactionIn, TransactionOut};
use dawn::util::key::{generate_pk_and_sk, PK};

fn sample_transactions(sender: &Address, recipient: &Address) -> Vec<Transaction> {
    vec![
        coinbase_transaction(recipient, 4),
        Transaction {
            sender: sender.clone(),
            out: vec![
                TransactionOut { address: recipient.clone(), amount: 7 },
                TransactionOut { address: sender.clone(), amount: 0 },
            ],
            tx_in: vec![TransactionIn { unspent_id: 3 }, TransactionIn { unspent_id: 12 }],
            fee: 2,
            signature: vec![0, 17, 255],
        },
    ]
}

#[test]
fn block_data_is_written_as_formatting_writes_it() {
    let sender = PK { der: "ab\"c\\d\ne\tf\r\0g\u{1b}h\u{7f}é".to_string() };
    let recipient = PK { der: "0a1b".to_string() };
    let txs = sample_transactions(&sender, &recipient);
    let beacon = Beacon { values: vec![120, -30, 0, i32::MIN, i32::MAX] };
    let previous_hash = [9u8; 32];
    let expected = format!("{}{}{:?}{:?}{:?}{:?}", 18446744073709551615u64, i64::MIN, txs, beacon, sender, previous_hash);
    let data = BlockData::new(u64::MAX, i64::MIN, &txs, &beacon, &sender, previous_hash);
    assert_eq!(String::from_utf8(data.to_bytes()).unwrap(), expected);
}

#[test]
fn empty_block_data_is_written_as_formatting_writes_it() {
    let issuer = PK { der: String::new() };
    let beacon = Beacon { values: vec![] };
    let data = BlockData::new(0, 0, &[], &beacon, &issuer, [0u8; 32]);
    let expected = format!("{}{}{:?}{:?}{:?}{:?}", 0, 0, Vec::<Transaction>::new(), beacon, issuer, [0u8; 32]);
    assert_eq!(String::from_utf8(data.to_bytes()).unwrap(), expected);
}

#[test]
fn genesis_hash_is_the_sha256_of_its_text() {
    assert_eq!(
        genesis_block().hash,
        [
            148, 102, 59, 189, 246, 94, 179, 239, 186, 135, 230, 202, 116, 53, 66, 244, 73, 191, 105, 8, 98, 186,
            110, 9, 3, 141, 210, 69, 146, 15, 184, 196
        ]
    );
}

#[test]
fn block_hash_covers_the_text_of_data_solution_and_signature() {
    let issuer = PK { der: "ab".to_string() };
    let b = Block::new(1, -5, vec![], Beacon { values: vec![120, -30] }, vec![7, 200], &issuer, [1u8; 32], vec![0, 9]);
    assert_eq!(
        b.hash,
        [
            20, 153, 159, 126, 65, 243, 126, 237, 49, 12, 89, 36, 254, 195, 124, 80, 39, 31, 250, 75, 14, 52, 198,
            136, 58, 158, 157, 124, 145, 106, 80, 37
        ]
    );
    assert_eq!(b.calculate_hash(), b.hash);
}

#[test]
fn block_signature_covers_the_text_of_data_and_solution() {
    let (issuer, sk) = generate_pk_and_sk(512).unwrap();
    let (other, _) = generate_pk_and_sk(512).unwrap();
    let txs = sample_transactions(&issuer, &other);
    let beacon = Beacon { values: vec![3, -4] };
    let vdf_solution = vec![5u8, 6];
    let b = Block::new_with_creating_signature(
        2,
        77,
        sample_transactions(&issuer, &other),
        Beacon { values: vec![3, -4] },
        vdf_solution.clone(),
        &issuer,
        [4u8; 32],
        &sk,
    )
    .unwrap();
    let text = format!("{}{}{:?}{:?}{:?}{:?}{:?}", 2, 77, txs, beacon, issuer, [4u8; 32], vdf_solution);
    assert_eq!(b.signature, sk.sign(text.as_bytes()).unwrap());
    assert!(issuer.verify(text.as_bytes(), &b.signature));
    assert!(b.verify_signature());
}

#[test]
fn transaction_signature_covers_the_text_of_sender_outputs_and_inputs() {
    let (sender, sk) = generate_pk_and_sk(512).unwrap();
    let (recipient, _) = generate_pk_and_sk(512).unwrap();
    let out = vec![
        TransactionOut { address: recipient.clone(), amount: 10 },
        TransactionOut { address: sender.clone(), amount: 3 },
    ];
    let tx_in = vec![TransactionIn { unspent_id: 1 }, TransactionIn { unspent_id: 4 }];
    let tx = Transaction::new_with_creating_signature(&sender, out.clone(), tx_in.clone(), &sk).unwrap();
    let text = format!("{}{:?}{:?}", sender.der, out, tx_in);
    assert_eq!(tx.signature, sk.sign(text.as_bytes()).unwrap());
    assert!(sender.verify(text.as_bytes(), &tx.signature));
    assert!(tx.verify_signature());
}

#[test]
fn signed_text_tells_index_and_time_apart_one_at_a_time() {
    let issuer = PK { der: "ab".to_string() };
    let beacon = Beacon { values: vec![1] };
    let text = |index: u64, timestamp: i64| BlockData::new(index, timestamp, &[], &beacon, &issuer, [2u8; 32]).to_bytes();
    assert_ne!(text(1, 23), text(2, 23));
    assert_ne!(text(1, 23), text(1, -23));
    assert_ne!(text(1, 23), text(1, 24));
    // Index and time stand side by side without a separator.
    assert_eq!(text(1, 23), text(12, 3));
}
