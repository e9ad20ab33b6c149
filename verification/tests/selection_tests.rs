use powledger::select::select_transactions;
use powledger::tx::{OutPoint, Transaction, TxInput, TxOutput};
use powledger::utxo::{address_balance, UtxoSet};

fn bare_input(txid: &str, vout: u32) -> TxInput {
    TxInput {
        outpoint: OutPoint {
            txid: txid.into(),
            vout,
        },
        pubkey: String::new(),
        signature: String::new(),
    }
}

fn out(address: &str, amount: u64) -> TxOutput {
    TxOutput {
        address: address.into(),
        amount,
    }
}

#[test]
fn utxo_set_is_a_key_value_store() {
    let mut u = UtxoSet::new();
    assert!(u.is_empty());
    let op = OutPoint {
        txid: "t".into(),
        vout: 0,
    };
    u.insert(op.clone(), out("a", 7));
    assert!(u.contains(&op));
    assert_eq!(u.len(), 1);
    assert_eq!(u.get(&op).unwrap().amount, 7);
    // inserting under the same key replaces
    u.insert(op.clone(), out("a", 9));
    assert_eq!(u.len(), 1);
    assert_eq!(u.get(&op).unwrap().amount, 9);
    let spent = u.spend(&op).unwrap();
    assert_eq!(spent.amount, 9);
    assert!(!u.contains(&op));
    assert!(u.spend(&op).is_none());
    assert!(u.is_empty());
}

#[test]
fn utxo_add_tx_outputs_keys_by_position() {
    let mut u = UtxoSet::new();
    let t = Transaction::new(Vec::new(), vec![out("a", 1), out("b", 2)]);
    u.add_tx_outputs(&t);
    assert_eq!(u.len(), 2);
    let second = OutPoint {
        txid: t.txid.clone(),
        vout: 1,
    };
    assert_eq!(u.get(&second).unwrap().address, "b");
}

#[test]
fn address_balance_sums_matching_entries() {
    let mut u = UtxoSet::new();
    u.insert(
        OutPoint {
            txid: "x".into(),
            vout: 0,
        },
        out("a", 10),
    );
    u.insert(
        OutPoint {
            txid: "x".into(),
            vout: 1,
        },
        out("b", 5),
    );
    u.insert(
        OutPoint {
            txid: "y".into(),
            vout: 0,
        },
        out("a", 30),
    );
    let (sum, count) = address_balance(u.iter(), "a");
    assert_eq!(sum, 40);
    assert_eq!(count, 2);
}

#[test]
fn selector_prefers_higher_fee_rate_on_double_spend() {
    // Two mempool transactions spend the same outpoint; the one with the
    // higher fee rate wins and the other is excluded.
    let mut u = UtxoSet::new();
    u.insert(
        OutPoint {
            txid: "coin".into(),
            vout: 0,
        },
        out("owner", 100),
    );
    let cheap = Transaction::new(vec![bare_input("coin", 0)], vec![out("dest", 60)]);
    let rich = Transaction::new(vec![bare_input("coin", 0)], vec![out("dest", 40)]);
    let mempool = vec![cheap.clone(), rich.clone()];
    let (picked, fees) = select_transactions(&mempool, &u);
    assert_eq!(picked.len(), 1);
    assert_eq!(picked[0].txid, rich.txid);
    assert_eq!(fees, 60);
}

#[test]
fn selector_is_deterministic_on_a_snapshot() {
    let mut u = UtxoSet::new();
    u.insert(
        OutPoint {
            txid: "c1".into(),
            vout: 0,
        },
        out("o", 50),
    );
    u.insert(
        OutPoint {
            txid: "c2".into(),
            vout: 0,
        },
        out("o", 80),
    );
    let t1 = Transaction::new(vec![bare_input("c1", 0)], vec![out("d", 30)]);
    let t2 = Transaction::new(vec![bare_input("c2", 0)], vec![out("d", 20)]);
    let mempool = vec![t1, t2];
    let (p1, f1) = select_transactions(&mempool, &u);
    let (p2, f2) = select_transactions(&mempool, &u);
    assert_eq!(f1, f2);
    assert_eq!(p1.len(), p2.len());
    let mut i = 0;
    while i < p1.len() {
        assert_eq!(p1[i].txid, p2[i].txid);
        i += 1;
    }
    assert_eq!(f1, 80);
    assert_eq!(p1.len(), 2);
    // higher fee rate (and fee) first
    assert_eq!(p1[0].total_output_amount(), 20);
}

#[test]
fn selector_skips_ineligible_transactions() {
    let mut u = UtxoSet::new();
    u.insert(
        OutPoint {
            txid: "c".into(),
            vout: 0,
        },
        out("o", 10),
    );
    // no inputs: coinbase-shaped, never selected
    let coinbase_like = Transaction::new(Vec::new(), vec![out("d", 1)]);
    // unknown input
    let unknown = Transaction::new(vec![bare_input("nope", 0)], vec![out("d", 1)]);
    // declares more than it provides
    let overspend = Transaction::new(vec![bare_input("c", 0)], vec![out("d", 11)]);
    let mempool = vec![coinbase_like, unknown, overspend];
    let (picked, fees) = select_transactions(&mempool, &u);
    assert_eq!(picked.len(), 0);
    assert_eq!(fees, 0);
}

#[test]
fn selector_accepts_zero_fee_candidates() {
    let mut u = UtxoSet::new();
    u.insert(
        OutPoint {
            txid: "c".into(),
            vout: 0,
        },
        out("o", 10),
    );
    let even = Transaction::new(vec![bare_input("c", 0)], vec![out("d", 10)]);
    let mempool = vec![even.clone()];
    let (picked, fees) = select_transactions(&mempool, &u);
    assert_eq!(picked.len(), 1);
    assert_eq!(picked[0].txid, even.txid);
    assert_eq!(fees, 0);
}
