use powledger::block::Block;
use powledger::ledger::{AdmitError, DifficultyError, FaucetError, Ledger, MiningError};
use powledger::select::select_transactions;
use powledger::tx::{OutPoint, Transaction, TxInput, TxOutput};
use powledger::validate::ValidationError;
use powledger::wallet::{pubkey_to_address_hex, verify_signature_hex};
use powledger::BASE_REWARD;

const GEN_PUBKEY_UPPER: &str = "0279BE667EF9DCBBAC55A06295CE870B07029BFCDB2DCE28D959F2815B16F81798";

fn keypair() -> (secp256k1::SecretKey, String) {
    let secp = secp256k1::Secp256k1::new();
    let sk = secp256k1::SecretKey::from_slice(&[1u8; 32]).unwrap();
    let pk = secp256k1::PublicKey::from_secret_key(&secp, &sk);
    (sk, hex::encode(pk.serialize()))
}

fn spend(
    sk: &secp256k1::SecretKey,
    pk_hex: &str,
    txid: &str,
    vout: u32,
    to: &str,
    amount: u64,
) -> (Vec<TxInput>, Vec<TxOutput>) {
    let outputs = vec![TxOutput {
        address: to.into(),
        amount,
    }];
    let draft = Transaction::new(
        vec![TxInput {
            outpoint: OutPoint {
                txid: txid.into(),
                vout,
            },
            pubkey: pk_hex.into(),
            signature: String::new(),
        }],
        outputs.clone(),
    );
    let h = draft.sighash();
    let secp = secp256k1::Secp256k1::new();
    let msg = secp256k1::Message::from_slice(&h).unwrap();
    let sig_hex = hex::encode(secp.sign_ecdsa(&msg, sk).serialize_der());
    let inputs = vec![TxInput {
        outpoint: OutPoint {
            txid: txid.into(),
            vout,
        },
        pubkey: pk_hex.into(),
        signature: sig_hex,
    }];
    (inputs, outputs)
}

#[test]
fn wallet_wrappers_behave() {
    let derived = pubkey_to_address_hex(GEN_PUBKEY_UPPER).unwrap();
    assert_eq!(derived, GEN_PUBKEY_UPPER.to_lowercase());
    assert!(pubkey_to_address_hex("zz").is_err());
    assert!(verify_signature_hex("zz", "zz", &[0u8; 32]).is_err());
}

#[test]
fn faucet_creates_spendable_output() {
    let mut l = Ledger::new(1);
    assert_eq!(l.faucet("a".into(), 0), Err(FaucetError::ZeroAmount));
    let f = l.faucet("a".into(), 100).unwrap();
    assert_eq!(f.outpoints.len(), 1);
    let op = &f.outpoints[0];
    assert_eq!(op.txid, f.txid);
    assert_eq!(op.vout, 0);
    assert!(l.utxo.contains(op));
    assert_eq!(l.utxo.get(op).unwrap().amount, 100);
    let b = l.balance("a".into());
    assert_eq!(b.balance, 100);
    assert_eq!(b.utxos, 1);
}

#[test]
fn admission_rejects_each_malformed_shape() {
    let (sk, pk_hex) = keypair();
    let mut l = Ledger::new(1);
    let f = l.faucet(pk_hex.clone(), 100).unwrap();

    let r = l.submit_transaction(Vec::new(), Vec::new());
    assert!(matches!(r, Err(AdmitError::NoOutputs)));

    let r = l.submit_transaction(
        Vec::new(),
        vec![TxOutput {
            address: "b".into(),
            amount: 0,
        }],
    );
    assert!(matches!(r, Err(AdmitError::ZeroAmountOutput)));

    let r = l.submit_transaction(
        Vec::new(),
        vec![TxOutput {
            address: "b".into(),
            amount: 1,
        }],
    );
    assert!(matches!(
        r,
        Err(AdmitError::Rejected(ValidationError::MissingInputs))
    ));

    // duplicate outpoints are refused before anything else
    let dup = TxInput {
        outpoint: OutPoint {
            txid: "nowhere".into(),
            vout: 0,
        },
        pubkey: String::new(),
        signature: String::new(),
    };
    let r = l.submit_transaction(
        vec![dup.clone(), dup],
        vec![TxOutput {
            address: "b".into(),
            amount: 1,
        }],
    );
    assert!(matches!(
        r,
        Err(AdmitError::Rejected(ValidationError::DuplicateInput))
    ));

    let r = l.submit_transaction(
        vec![TxInput {
            outpoint: OutPoint {
                txid: "nowhere".into(),
                vout: 0,
            },
            pubkey: pk_hex.clone(),
            signature: "00".into(),
        }],
        vec![TxOutput {
            address: "b".into(),
            amount: 1,
        }],
    );
    assert!(matches!(
        r,
        Err(AdmitError::Rejected(ValidationError::UnknownOutput))
    ));

    let mut mk = |pubkey: &str, signature: &str| {
        l.submit_transaction(
            vec![TxInput {
                outpoint: OutPoint {
                    txid: f.txid.clone(),
                    vout: 0,
                },
                pubkey: pubkey.into(),
                signature: signature.into(),
            }],
            vec![TxOutput {
                address: "b".into(),
                amount: 1,
            }],
        )
    };
    assert!(matches!(
        mk("zz", "00"),
        Err(AdmitError::Rejected(ValidationError::BadPublicKey))
    ));
    assert!(matches!(
        mk(GEN_PUBKEY_UPPER, "00"),
        Err(AdmitError::Rejected(ValidationError::OwnershipMismatch))
    ));
    assert!(matches!(
        mk(&pk_hex, ""),
        Err(AdmitError::Rejected(ValidationError::MissingSignature))
    ));
    assert!(matches!(
        mk(&pk_hex, "zz"),
        Err(AdmitError::Rejected(ValidationError::MalformedSignature))
    ));

    // a real signature over the wrong content fails verification
    let wrong = Transaction::new(
        Vec::new(),
        vec![TxOutput {
            address: "q".into(),
            amount: 3,
        }],
    );
    let secp = secp256k1::Secp256k1::new();
    let msg = secp256k1::Message::from_slice(&wrong.sighash()).unwrap();
    let bad_sig = hex::encode(secp.sign_ecdsa(&msg, &sk).serialize_der());
    assert!(matches!(
        mk(&pk_hex, &bad_sig),
        Err(AdmitError::Rejected(ValidationError::InvalidSignature))
    ));

    // nothing was admitted along the way
    assert_eq!(l.mempool.len(), 0);
}

#[test]
fn overspend_rejected_and_zero_fee_accepted() {
    let (sk, pk_hex) = keypair();
    let mut l = Ledger::new(1);
    let f = l.faucet(pk_hex.clone(), 100).unwrap();

    let (inputs, outputs) = spend(&sk, &pk_hex, &f.txid, 0, "b", 200);
    let r = l.submit_transaction(inputs, outputs);
    assert!(matches!(
        r,
        Err(AdmitError::Rejected(ValidationError::InsufficientFunds))
    ));

    let (inputs, outputs) = spend(&sk, &pk_hex, &f.txid, 0, "b", 100);
    assert!(l.submit_transaction(inputs, outputs).is_ok());
    assert_eq!(l.mempool.len(), 1);
}

#[test]
fn faucet_spend_and_double_spend_filtered() {
    let (sk, pk_hex) = keypair();
    let mut l = Ledger::new(1);
    let f = l.faucet(pk_hex.clone(), 100).unwrap();

    let (i1, o1) = spend(&sk, &pk_hex, &f.txid, 0, "b", 40);
    let r1 = l.submit_transaction(i1, o1).unwrap();
    let (i2, o2) = spend(&sk, &pk_hex, &f.txid, 0, "b", 40);
    let r2 = l.submit_transaction(i2, o2).unwrap();
    // same content both times: same identifier
    assert_eq!(r1.txid, r2.txid);
    assert_eq!(l.mempool.len(), 2);
    let snapshot = l.mempool_snapshot();
    assert_eq!(snapshot.size, 2);
    assert_eq!(snapshot.transactions[0], r1.txid);

    // only one of the two can ever be mined, at fee 100 - 40 = 60
    let (picked, fees) = select_transactions(&l.mempool, &l.utxo);
    assert_eq!(picked.len(), 1);
    assert_eq!(fees, 60);
}

#[test]
fn direct_mining_applies_the_block() {
    let (sk, pk_hex) = keypair();
    let mut l = Ledger::new(1);
    let f = l.faucet(pk_hex.clone(), 100).unwrap();
    let (inputs, outputs) = spend(&sk, &pk_hex, &f.txid, 0, "b", 40);
    let accepted = l.submit_transaction(inputs, outputs).unwrap();

    assert_eq!(
        l.mine_block("   "),
        Err(MiningError::MinerAddressRequired)
    );

    let r = l.mine_block("miner").unwrap();
    assert_eq!(r.mined_index, 1);
    assert_eq!(l.chain.len(), 2);
    assert!(l.chain.is_valid_chain());
    let mined = l.chain.last_block();
    assert_eq!(mined.hash, r.hash);
    // coinbase first, paying base reward plus the fee
    assert_eq!(mined.transactions[0].inputs.len(), 0);
    assert_eq!(mined.transactions[0].outputs[0].address, "miner");
    assert_eq!(mined.transactions[0].outputs[0].amount, BASE_REWARD + 60);
    // the included transaction left the mempool, its effects applied
    assert_eq!(l.mempool.len(), 0);
    assert!(!l.utxo.contains(&OutPoint {
        txid: f.txid.clone(),
        vout: 0
    }));
    assert!(l.utxo.contains(&OutPoint {
        txid: accepted.txid.clone(),
        vout: 0
    }));
    let b = l.balance("b".into());
    assert_eq!(b.balance, 40);
}

#[test]
fn miner_address_is_trimmed() {
    let mut l = Ledger::new(1);
    let resp = l.request_template("  m  ").unwrap();
    assert_eq!(resp.transactions[0].outputs[0].address, "m");
    assert_eq!(
        l.request_template("  "),
        Err(MiningError::MinerAddressRequired)
    );
}

#[test]
fn template_submit_round_trip() {
    let (sk, pk_hex) = keypair();
    let mut l = Ledger::new(1);
    let f = l.faucet(pk_hex.clone(), 100).unwrap();
    let (inputs, outputs) = spend(&sk, &pk_hex, &f.txid, 0, "b", 40);
    let accepted = l.submit_transaction(inputs, outputs).unwrap();

    let t = l.request_template("miner").unwrap();
    assert_eq!(t.index, 1);
    assert_eq!(t.previous_hash, l.chain.last_block().hash);
    assert_eq!(t.transactions.len(), 2);
    assert_eq!(t.transactions[0].outputs[0].amount, BASE_REWARD + 60);

    // the solver works on a local copy, reusing the fixed timestamp
    let mut b = Block::new_with_timestamp(
        t.index,
        t.previous_hash.clone(),
        t.transactions.clone(),
        t.timestamp,
    );
    b.mine(t.difficulty);

    let out = l
        .submit_solution(&t.template_id, b.nonce, b.hash.as_str())
        .unwrap();
    assert!(out.accepted);
    assert_eq!(out.mined_index, Some(1));
    assert_eq!(out.hash.as_deref(), Some(b.hash.as_str()));
    assert_eq!(l.chain.len(), 2);
    assert!(l.chain.is_valid_chain());
    assert_eq!(l.mempool.len(), 0);
    assert!(!l.utxo.contains(&OutPoint {
        txid: f.txid.clone(),
        vout: 0
    }));
    assert!(l.utxo.contains(&OutPoint {
        txid: accepted.txid.clone(),
        vout: 0
    }));

    // a template is single-use: the same submission cannot run twice
    assert_eq!(
        l.submit_solution(&t.template_id, b.nonce, b.hash.as_str()),
        Err(MiningError::UnknownTemplate)
    );
}

#[test]
fn stale_template_rejected_after_head_moves() {
    let mut l = Ledger::new(1);
    let t = l.request_template("miner").unwrap();

    // any other successful append moves the head past the template
    l.mine_block("rival").unwrap();

    let mut b = Block::new_with_timestamp(
        t.index,
        t.previous_hash.clone(),
        t.transactions.clone(),
        t.timestamp,
    );
    b.mine(t.difficulty);
    assert_eq!(
        l.submit_solution(&t.template_id, b.nonce, b.hash.as_str()),
        Err(MiningError::StaleTemplate)
    );
    // the template was discarded even though the submission failed
    assert_eq!(
        l.submit_solution(&t.template_id, b.nonce, b.hash.as_str()),
        Err(MiningError::UnknownTemplate)
    );
}

#[test]
fn submission_must_match_claim_and_difficulty() {
    let mut l = Ledger::new(1);

    let t = l.request_template("miner").unwrap();
    assert_eq!(
        l.submit_solution(&t.template_id, 0, "deadbeef"),
        Err(MiningError::HashMismatch)
    );

    let t = l.request_template("miner").unwrap();
    let mut b = Block::new_with_timestamp(
        t.index,
        t.previous_hash.clone(),
        t.transactions.clone(),
        t.timestamp,
    );
    b.mine(t.difficulty);
    // the difficulty moved between issuance and submission: the solution
    // is held to the current value, not the recorded one
    l.chain.set_difficulty(64);
    assert_eq!(
        l.submit_solution(&t.template_id, b.nonce, b.hash.as_str()),
        Err(MiningError::InsufficientWork)
    );
}

#[test]
fn difficulty_updates_are_bounded() {
    let mut l = Ledger::new(1);
    assert_eq!(l.set_difficulty(7), Err(DifficultyError::TooHigh));
    assert_eq!(l.chain.difficulty(), 1);
    let r = l.set_difficulty(5).unwrap();
    assert_eq!(r.difficulty, 5);
    assert_eq!(l.chain.difficulty(), 5);
    let v = l.validate_chain();
    assert!(v.valid);
    assert_eq!(v.length, 1);
    assert_eq!(v.difficulty, 5);
}
