use powledger::block::Block;
use powledger::chain::{Blockchain, ChainError};
use powledger::encode::{dec_i64_string, dec_u64_string, str_eq, str_lex_lt};
use powledger::tx::{OutPoint, Transaction, TxInput, TxOutput};
use powledger::{DEFAULT_DIFFICULTY, DIFF_MIN};

fn demo_input(txid: &str, vout: u32) -> TxInput {
    TxInput {
        outpoint: OutPoint {
            txid: txid.into(),
            vout,
        },
        pubkey: String::new(),
        signature: String::new(),
    }
}

#[test]
fn genesis_has_valid_hash() {
    let b = Block::genesis();
    assert_eq!(b.hash, b.compute_hash());
    assert!(!b.hash.is_empty());
}

#[test]
fn mining_produces_leading_zeros() {
    let tx = Transaction::new(
        vec![demo_input("demo-txid", 0)],
        vec![TxOutput {
            address: "addr".into(),
            amount: 1,
        }],
    );
    let mut b = Block::new(1, "prev".into(), vec![tx]);
    b.mine(2);
    assert!(b.hash.starts_with("00"));
    assert!(b.is_valid(2));
}

#[test]
fn invalid_when_mutated() {
    let tx = Transaction::new(
        vec![demo_input("demo-txid", 0)],
        vec![TxOutput {
            address: "addr".into(),
            amount: 1,
        }],
    );
    let mut b = Block::new(2, "prev".into(), vec![tx]);
    b.mine(2);
    let old_hash = b.hash.clone();

    // Mutate: add a new tx (tampering)
    let extra = Transaction::new(
        vec![demo_input("x", 0)],
        vec![TxOutput {
            address: "y".into(),
            amount: 1,
        }],
    );
    b.transactions.push(extra);

    assert_ne!(old_hash, b.compute_hash());
    assert!(!b.is_valid(2));
}

#[test]
fn compute_hash_is_pure() {
    let b = Block::new(3, "prev".into(), Vec::new());
    assert_eq!(b.compute_hash(), b.compute_hash());
    assert_eq!(b.hash.len(), 64);
    assert!(b.hash.chars().all(|c| c.is_ascii_hexdigit()));
    assert!(b.hash.chars().all(|c| !c.is_ascii_uppercase()));
}

#[test]
fn genesis_only_chain_is_valid() {
    let bc = Blockchain::new(DEFAULT_DIFFICULTY);
    assert_eq!(bc.len(), 1);
    assert_eq!(bc.difficulty(), DEFAULT_DIFFICULTY);
    assert!(bc.is_valid_chain());
    assert_eq!(bc.last_block().index, 0);
    assert_eq!(bc.last_block().previous_hash, "0");
}

#[test]
fn chain_invalid_when_block_mutated() {
    let mut bc = Blockchain::new(1);
    bc.mine_block(Vec::new());
    assert!(bc.is_valid_chain());
    bc.chain[1].timestamp += 1;
    assert!(!bc.is_valid_chain());
}

#[test]
fn append_premined_rejects_stale_and_weak_blocks() {
    let mut bc = Blockchain::new(1);
    let stale = Block::new(1, "not-the-head".into(), Vec::new());
    assert_eq!(
        bc.append_premined_block(stale),
        Err(ChainError::StaleTemplate)
    );

    bc.set_difficulty(64);
    let linked = Block::new(1, bc.last_block().hash.clone(), Vec::new());
    assert_eq!(
        bc.append_premined_block(linked),
        Err(ChainError::InvalidProofOfWork)
    );

    bc.set_difficulty(1);
    let mut good = Block::new(1, bc.last_block().hash.clone(), Vec::new());
    good.mine(1);
    assert_eq!(bc.append_premined_block(good), Ok(()));
    assert_eq!(bc.len(), 2);
    assert!(bc.is_valid_chain());
}

#[test]
fn difficulty_rises_when_blocks_come_fast() {
    let mut bc = Blockchain::new(3);
    // Ten extra blocks stamped far in the future: every interval in the
    // retarget window clamps to one second, far below the target.
    for i in 1..11u64 {
        bc.chain.push(Block::new_with_timestamp(
            i,
            "x".into(),
            Vec::new(),
            1_000_000_000_000,
        ));
    }
    assert_eq!(bc.len(), 11);
    bc.mine_block(Vec::new());
    assert_eq!(bc.difficulty(), 4);
}

#[test]
fn difficulty_falls_when_blocks_come_slow() {
    let mut bc = Blockchain::new(3);
    // Nine extra blocks spaced a thousand seconds apart, far above the
    // target interval.
    for i in 1..10u64 {
        bc.chain.push(Block::new_with_timestamp(
            i,
            "x".into(),
            Vec::new(),
            (i as i64) * 1000,
        ));
    }
    bc.mine_block(Vec::new());
    assert_eq!(bc.difficulty(), 2);
}

#[test]
fn difficulty_never_falls_below_minimum() {
    let mut bc = Blockchain::new(DIFF_MIN);
    for i in 1..10u64 {
        bc.chain.push(Block::new_with_timestamp(
            i,
            "x".into(),
            Vec::new(),
            (i as i64) * 1000,
        ));
    }
    bc.mine_block(Vec::new());
    assert_eq!(bc.difficulty(), DIFF_MIN);
}

#[test]
fn decimal_renderings_are_exact() {
    assert_eq!(dec_u64_string(0), "0");
    assert_eq!(dec_u64_string(12345), "12345");
    assert_eq!(dec_u64_string(u64::MAX), "18446744073709551615");
    assert_eq!(dec_i64_string(-7), "-7");
    assert_eq!(dec_i64_string(0), "0");
    assert_eq!(dec_i64_string(i64::MIN), "-9223372036854775808");
}

#[test]
fn string_order_and_equality_helpers() {
    assert!(str_lex_lt("abc", "abd"));
    assert!(str_lex_lt("ab", "abc"));
    assert!(!str_lex_lt("abc", "abc"));
    assert!(!str_lex_lt("b", "ab"));
    assert!(str_eq("same", "same"));
    assert!(!str_eq("same", "sane"));
}

#[test]
fn transaction_ids_are_content_digests() {
    let t1 = Transaction::new(
        vec![demo_input("a", 0)],
        vec![TxOutput {
            address: "to".into(),
            amount: 2,
        }],
    );
    let t2 = Transaction::new(
        vec![demo_input("a", 0)],
        vec![TxOutput {
            address: "to".into(),
            amount: 2,
        }],
    );
    let t3 = Transaction::new(
        vec![demo_input("a", 1)],
        vec![TxOutput {
            address: "to".into(),
            amount: 2,
        }],
    );
    assert_eq!(t1.txid, t2.txid);
    assert_ne!(t1.txid, t3.txid);
    assert_eq!(t1.txid.len(), 64);
    assert!(t1.txid.chars().all(|c| c.is_ascii_hexdigit()));
    assert!(t1.vsize_bytes() > 0);
}

#[test]
fn total_output_amount_sums_outputs() {
    let t = Transaction::new(
        Vec::new(),
        vec![
            TxOutput {
                address: "a".into(),
                amount: 2,
            },
            TxOutput {
                address: "b".into(),
                amount: 3,
            },
        ],
    );
    assert_eq!(t.total_output_amount(), 5);
}

#[test]
fn sighash_ignores_signatures() {
    let unsigned = Transaction::new(
        vec![demo_input("a", 0)],
        vec![TxOutput {
            address: "to".into(),
            amount: 2,
        }],
    );
    let mut signed_input = demo_input("a", 0);
    signed_input.pubkey = "02aa".into();
    signed_input.signature = "3044".into();
    let signed = Transaction::new(
        vec![signed_input],
        vec![TxOutput {
            address: "to".into(),
            amount: 2,
        }],
    );
    assert_eq!(unsigned.sighash(), signed.sighash());
    assert_ne!(unsigned.txid, signed.txid);
}
