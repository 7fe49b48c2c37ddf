use ckbtc_minter::address::{network_and_public_key_to_p2wpkh, BitcoinAddress, ParseAddressError};
use ckbtc_minter::signature::EncodedSignature;
use ckbtc_minter::state::{
    Account, ChangeOutput, CkBtcMinterState, InitArgs, Network, RetrieveBtcRequest,
    RetrieveBtcStatus, Utxo, UtxoSet,
};
use ckbtc_minter::tx;
use ckbtc_minter::tx::OutPoint;
use ckbtc_minter::{build_unsigned_transaction, distribute, fake_sign, greedy, BuildTxError};
use std::collections::HashMap;
use bitcoin::blockdata::{opcodes, script::Builder};
use bitcoin::network::constants::Network as BtcNetwork;
use bitcoin::util::address::{Payload, WitnessVersion};
use bitcoin::util::psbt::serialize::{Deserialize, Serialize};
use simple_asn1::from_der;
use simple_asn1::ASN1Block::{Integer, Sequence};
use std::str::FromStr;

/// A small deterministic generator so the model tests cover varied inputs
/// reproducibly.
struct Rng(u64);

impl Rng {
    fn next(&mut self) -> u64 {
        let mut x = self.0;
        x ^= x << 13;
        x ^= x >> 7;
        x ^= x << 17;
        self.0 = x;
        x
    }

    fn bytes(&mut self, n: usize) -> Vec<u8> {
        (0..n).map(|_| (self.next() & 0xff) as u8).collect()
    }

    fn range(&mut self, lo: u64, hi: u64) -> u64 {
        lo + self.next() % (hi - lo)
    }
}

fn dummy_utxo_from_value(v: u64) -> Utxo {
    Utxo {
        outpoint: OutPoint {
            txid: v.to_be_bytes().to_vec(),
            vout: 0,
        },
        value: v,
        height: 0,
    }
}

fn utxo_set(utxos: Vec<Utxo>) -> UtxoSet {
    let mut set = UtxoSet::new();
    for u in utxos {
        set.insert(u);
    }
    set
}

fn set_entries(set: &UtxoSet) -> Vec<Utxo> {
    (0..set.len()).map(|i| set.get(i).clone()).collect()
}

fn set_contains(set: &UtxoSet, u: &Utxo) -> bool {
    set_entries(set).iter().any(|e| e == u)
}

#[test]
fn greedy_smoke_test() {
    let mut utxos = utxo_set((1..10u64).map(dummy_utxo_from_value).collect());
    assert_eq!(utxos.len(), 9_usize);

    let res = greedy(15, &mut utxos);

    assert_eq!(res[0].value, 9_u64);
    assert_eq!(res[1].value, 6_u64);
}

#[test]
fn greedy_solution_properties() {
    let mut rng = Rng(0x3779_21af);
    for case in 0..25 {
        let n = 1 + (case % 9) as usize;
        let values: Vec<u64> = (0..n).map(|_| rng.range(1, 1_000_000_000)).collect();
        let target = rng.range(1, 1_000_000_000);

        let mut utxos = utxo_set(values.iter().copied().map(dummy_utxo_from_value).collect());
        let total: u64 = set_entries(&utxos).iter().map(|u| u.value).sum();
        if total < target {
            utxos.insert(dummy_utxo_from_value(target - total));
        }
        let original = set_entries(&utxos);

        let solution = greedy(target, &mut utxos);

        assert!(!solution.is_empty(), "greedy must find a solution");
        assert!(
            solution.iter().map(|u| u.value).sum::<u64>() >= target,
            "greedy must reach the target amount"
        );
        assert!(
            solution.iter().all(|u| original.contains(u)),
            "greedy must select from the available set"
        );
        assert!(
            solution.iter().all(|u| !set_contains(&utxos, u)),
            "greedy must remove what it selected"
        );
    }
}

#[test]
fn greedy_does_not_modify_input_when_fails() {
    let mut rng = Rng(0x51ed_2701);
    for case in 0..25 {
        let n = 1 + (case % 9) as usize;
        let values: Vec<u64> = (0..n).map(|_| rng.range(1, 1_000_000_000)).collect();
        let mut utxos = utxo_set(values.iter().copied().map(dummy_utxo_from_value).collect());
        let total: u64 = set_entries(&utxos).iter().map(|u| u.value).sum();
        let original = set_entries(&utxos);

        let solution = greedy(total + 1, &mut utxos);

        assert!(solution.is_empty());
        assert_eq!(set_entries(&utxos), original);
    }
}

#[test]
fn test_min_change_amount() {
    let mut available_utxos = UtxoSet::new();
    available_utxos.insert(Utxo {
        outpoint: OutPoint {
            txid: vec![0; 32],
            vout: 0,
        },
        value: 100_000,
        height: 10,
    });
    available_utxos.insert(Utxo {
        outpoint: OutPoint {
            txid: vec![1; 32],
            vout: 1,
        },
        value: 100_000,
        height: 10,
    });

    let minter_addr = BitcoinAddress::P2wpkhV0([0; 20]);
    let out1_addr = BitcoinAddress::P2wpkhV0([1; 20]);
    let out2_addr = BitcoinAddress::P2wpkhV0([2; 20]);
    let fee_per_vbyte = 10000;

    let (tx, change_output, _) = build_unsigned_transaction(
        &mut available_utxos,
        vec![(out1_addr, 100_000), (out2_addr, 99_999)],
        minter_addr,
        fee_per_vbyte,
    )
    .expect("failed to build a transaction");

    let fee = fake_sign(&tx).vsize() as u64 * fee_per_vbyte / 1000;

    assert_eq!(tx.outputs.len(), 3);
    let fee_share = (fee + ckbtc_minter::MIN_CHANGE - 1) / 2;
    assert_eq!(
        &tx.outputs,
        &vec![
            tx::TxOut {
                address: out1_addr,
                value: 100_000 - fee_share,
            },
            tx::TxOut {
                address: out2_addr,
                value: 99_999 - fee_share,
            },
            tx::TxOut {
                address: minter_addr,
                value: ckbtc_minter::MIN_CHANGE,
            }
        ]
    );
    assert_eq!(
        change_output,
        Some(ChangeOutput {
            vout: 2,
            value: ckbtc_minter::MIN_CHANGE,
        })
    );
}

#[test]
fn test_no_zero_outputs() {
    let mut available_utxos = UtxoSet::new();
    available_utxos.insert(Utxo {
        outpoint: OutPoint {
            txid: vec![0; 32],
            vout: 0,
        },
        value: 100_000,
        height: 10,
    });

    let minter_addr = BitcoinAddress::P2wpkhV0([0; 20]);
    let out1_addr = BitcoinAddress::P2wpkhV0([1; 20]);
    let out2_addr = BitcoinAddress::P2wpkhV0([2; 20]);
    let fee_per_vbyte = 10000;

    assert_eq!(
        build_unsigned_transaction(
            &mut available_utxos,
            vec![(out1_addr, 99_900), (out2_addr, 100)],
            minter_addr,
            fee_per_vbyte,
        ),
        Err(BuildTxError::ZeroOutput {
            address: out2_addr,
            amount: 100
        })
    );

    assert_eq!(available_utxos.len(), 1);
}

fn address_to_script_pubkey(address: &BitcoinAddress) -> bitcoin::Script {
    let address_string = address.display(Network::Mainnet);
    let btc_address = bitcoin::Address::from_str(&address_string).unwrap();
    btc_address.script_pubkey()
}

fn network_to_btc_network(network: Network) -> bitcoin::network::constants::Network {
    match network {
        Network::Mainnet => BtcNetwork::Bitcoin,
        Network::Testnet => BtcNetwork::Testnet,
        Network::Regtest => BtcNetwork::Regtest,
    }
}

fn address_to_btc_address(address: &BitcoinAddress, network: Network) -> bitcoin::Address {
    match address {
        BitcoinAddress::P2wpkhV0(pkhash) => bitcoin::Address {
            payload: Payload::WitnessProgram {
                version: WitnessVersion::V0,
                program: pkhash.to_vec(),
            },
            network: network_to_btc_network(network),
        },
        BitcoinAddress::P2pkh(pkhash) => bitcoin::Address {
            payload: Payload::PubkeyHash(bitcoin::PubkeyHash::from_hash(
                bitcoin::hashes::Hash::from_slice(pkhash).unwrap(),
            )),
            network: network_to_btc_network(network),
        },
        BitcoinAddress::P2sh(script_hash) => bitcoin::Address {
            payload: Payload::ScriptHash(bitcoin::ScriptHash::from_hash(
                bitcoin::hashes::Hash::from_slice(script_hash).unwrap(),
            )),
            network: network_to_btc_network(network),
        },
    }
}

fn as_txid(hash: &[u8]) -> bitcoin::Txid {
    bitcoin::Txid::from_hash(bitcoin::hashes::Hash::from_slice(hash).unwrap())
}

fn p2wpkh_script_code(pkhash: &[u8; 20]) -> bitcoin::Script {

    Builder::new()
        .push_opcode(opcodes::all::OP_DUP)
        .push_opcode(opcodes::all::OP_HASH160)
        .push_slice(&pkhash[..])
        .push_opcode(opcodes::all::OP_EQUALVERIFY)
        .push_opcode(opcodes::all::OP_CHECKSIG)
        .into_script()
}

fn unsigned_tx_to_bitcoin_tx(tx: &tx::UnsignedTransaction) -> bitcoin::Transaction {
    bitcoin::Transaction {
        version: tx::TX_VERSION as i32,
        lock_time: bitcoin::PackedLockTime(tx.lock_time),
        input: tx
            .inputs
            .iter()
            .map(|txin| bitcoin::TxIn {
                previous_output: bitcoin::OutPoint {
                    txid: as_txid(&txin.previous_output.txid),
                    vout: txin.previous_output.vout,
                },
                sequence: bitcoin::Sequence(txin.sequence),
                script_sig: bitcoin::Script::default(),
                witness: bitcoin::Witness::default(),
            })
            .collect(),
        output: tx
            .outputs
            .iter()
            .map(|txout| bitcoin::TxOut {
                value: txout.value,
                script_pubkey: address_to_script_pubkey(&txout.address),
            })
            .collect(),
    }
}

fn signed_tx_to_bitcoin_tx(tx: &tx::SignedTransaction) -> bitcoin::Transaction {
    bitcoin::Transaction {
        version: tx::TX_VERSION as i32,
        lock_time: bitcoin::PackedLockTime(tx.lock_time),
        input: tx
            .inputs
            .iter()
            .map(|txin| bitcoin::TxIn {
                previous_output: bitcoin::OutPoint {
                    txid: as_txid(&txin.previous_output.txid),
                    vout: txin.previous_output.vout,
                },
                sequence: bitcoin::Sequence(txin.sequence),
                script_sig: bitcoin::Script::default(),
                witness: bitcoin::Witness::from_vec(vec![
                    txin.signature.as_slice().to_vec(),
                    txin.pubkey.to_vec(),
                ]),
            })
            .collect(),
        output: tx
            .outputs
            .iter()
            .map(|txout| bitcoin::TxOut {
                value: txout.value,
                script_pubkey: address_to_script_pubkey(&txout.address),
            })
            .collect(),
    }
}

fn arb_address(rng: &mut Rng) -> BitcoinAddress {
    let mut h = [0u8; 20];
    h.copy_from_slice(&rng.bytes(20));
    match rng.next() % 3 {
        0 => BitcoinAddress::P2wpkhV0(h),
        1 => BitcoinAddress::P2pkh(h),
        _ => BitcoinAddress::P2sh(h),
    }
}

fn arb_unsigned_input(rng: &mut Rng) -> tx::UnsignedInput {
    tx::UnsignedInput {
        previous_output: OutPoint {
            txid: rng.bytes(32),
            vout: rng.next() as u32,
        },
        value: rng.range(5_000, 1_000_000_000),
        sequence: rng.next() as u32,
    }
}

fn arb_tx_out(rng: &mut Rng) -> tx::TxOut {
    tx::TxOut {
        value: rng.range(1, 10_000_000_000),
        address: arb_address(rng),
    }
}

#[test]
fn unsigned_tx_encoding_model() {

    let mut rng = Rng(0x00c0_ffee);
    for case in 0..10 {
        let n_in = 1 + (case % 5) as usize;
        let n_out = 1 + (case % 7) as usize;
        let arb_tx = tx::UnsignedTransaction {
            inputs: (0..n_in).map(|_| arb_unsigned_input(&mut rng)).collect(),
            outputs: (0..n_out).map(|_| arb_tx_out(&mut rng)).collect(),
            lock_time: rng.next() as u32,
        };
        let btc_tx = unsigned_tx_to_bitcoin_tx(&arb_tx);

        let tx_bytes = tx::encode_into(&arb_tx, Vec::<u8>::new());
        let decoded_btc_tx = bitcoin::Transaction::deserialize(&tx_bytes)
            .expect("failed to deserialize an unsigned transaction");

        assert_eq!(btc_tx.serialize(), tx_bytes);
        assert_eq!(&decoded_btc_tx, &btc_tx);
        let btc_txid = btc_tx.txid();
        let btc_txid_bytes: &[u8] = btc_txid.as_ref();
        assert_eq!(&arb_tx.txid()[..], btc_txid_bytes);
    }
}

#[test]
fn unsigned_tx_sighash_model() {
    let mut rng = Rng(0x5160_a511);
    for case in 0..8 {
        let n_in = 1 + (case % 5) as usize;
        let n_out = 1 + (case % 7) as usize;
        let inputs_data: Vec<(tx::UnsignedInput, Vec<u8>)> = (0..n_in)
            .map(|_| (arb_unsigned_input(&mut rng), rng.bytes(tx::PUBKEY_LEN)))
            .collect();
        let arb_tx = tx::UnsignedTransaction {
            inputs: inputs_data.iter().map(|(i, _)| i.clone()).collect(),
            outputs: (0..n_out).map(|_| arb_tx_out(&mut rng)).collect(),
            lock_time: rng.next() as u32,
        };
        let btc_tx = unsigned_tx_to_bitcoin_tx(&arb_tx);

        let sighasher = tx::TxSigHasher::new(&arb_tx);
        let mut btc_sighasher = bitcoin::util::sighash::SighashCache::new(&btc_tx);

        for (i, (input, pubkey)) in inputs_data.iter().enumerate() {
            let mut buf = Vec::<u8>::new();
            let pkhash = tx::hash160(pubkey);

            sighasher.encode_sighash_data(i, &pkhash, &mut buf);

            let mut btc_buf = Vec::<u8>::new();
            let script_code = p2wpkh_script_code(&pkhash);
            btc_sighasher
                .segwit_encode_signing_data_to(
                    &mut btc_buf,
                    i,
                    &script_code,
                    input.value,
                    bitcoin::EcdsaSighashType::All,
                )
                .expect("failed to encode sighash data");
            assert_eq!(hex::encode(&buf), hex::encode(&btc_buf));

            let sighash = sighasher.sighash(i, &pkhash);
            let btc_sighash = btc_sighasher
                .segwit_signature_hash(i, &script_code, input.value, bitcoin::EcdsaSighashType::All)
                .unwrap();
            assert_eq!(hex::encode(sighash), hex::encode(btc_sighash));
        }
    }
}

#[test]
fn signed_tx_encoding_model() {

    let mut rng = Rng(0x0dd_ba11);
    for case in 0..10 {
        let n_in = 1 + (case % 5) as usize;
        let n_out = 1 + (case % 7) as usize;
        let inputs: Vec<tx::SignedInput> = (0..n_in)
            .map(|_| {
                let sec1: Vec<u8> = (0..64).map(|_| 1 + (rng.next() % 0xfe) as u8).collect();
                tx::SignedInput {
                    previous_output: OutPoint {
                        txid: rng.bytes(32),
                        vout: rng.next() as u32,
                    },
                    sequence: rng.next() as u32,
                    signature: EncodedSignature::from_sec1(&sec1),
                    pubkey: rng.bytes(32),
                }
            })
            .collect();
        let arb_tx = tx::SignedTransaction {
            inputs,
            outputs: (0..n_out).map(|_| arb_tx_out(&mut rng)).collect(),
            lock_time: rng.next() as u32,
        };
        let btc_tx = signed_tx_to_bitcoin_tx(&arb_tx);

        let tx_bytes = tx::encode_into(&arb_tx, Vec::<u8>::new());
        let decoded_btc_tx = bitcoin::Transaction::deserialize(&tx_bytes)
            .expect("failed to deserialize a signed transaction");

        assert_eq!(btc_tx.serialize(), tx_bytes);
        assert_eq!(&decoded_btc_tx, &btc_tx);
        let btc_wtxid = btc_tx.wtxid();
        let btc_wtxid_bytes: &[u8] = btc_wtxid.as_ref();
        assert_eq!(&arb_tx.wtxid()[..], btc_wtxid_bytes);
        assert_eq!(arb_tx.vsize(), btc_tx.vsize());
    }
}

fn arb_utxo(rng: &mut Rng, lo: u64, hi: u64) -> Utxo {
    Utxo {
        outpoint: OutPoint {
            txid: rng.bytes(32),
            vout: (rng.next() % 5) as u32,
        },
        value: rng.range(lo, hi),
        height: 0,
    }
}

#[test]
fn build_tx_splits_utxos() {
    let mut rng = Rng(0xbeef_cafe);
    for case in 0..10 {
        let n = 1 + (case % 8) as usize;
        let mut utxos = utxo_set((0..n).map(|_| arb_utxo(&mut rng, 5_000, 1_000_000_000)).collect());
        let mut dst_pkhash = [0u8; 20];
        dst_pkhash.copy_from_slice(&rng.bytes(20));
        let mut main_pkhash = [0u8; 20];
        main_pkhash.copy_from_slice(&rng.bytes(20));
        let fee_per_vbyte = rng.range(1000, 2000);

        let value_by_outpoint: HashMap<Vec<u8>, u64> = set_entries(&utxos)
            .iter()
            .map(|u| {
                let mut key = u.outpoint.txid.clone();
                key.extend_from_slice(&u.outpoint.vout.to_le_bytes());
                (key, u.value)
            })
            .collect();
        let utxo_count = utxos.len();
        let total_value: u64 = set_entries(&utxos).iter().map(|u| u.value).sum();

        let target = total_value / 2;
        let (unsigned_tx, _, _) = build_unsigned_transaction(
            &mut utxos,
            vec![(BitcoinAddress::P2wpkhV0(dst_pkhash), target)],
            BitcoinAddress::P2wpkhV0(main_pkhash),
            fee_per_vbyte,
        )
        .expect("failed to build transaction");

        let fee = fake_sign(&unsigned_tx).vsize() as u64 * fee_per_vbyte / 1000;

        let inputs_value: u64 = unsigned_tx
            .inputs
            .iter()
            .map(|input| {
                let mut key = input.previous_output.txid.clone();
                key.extend_from_slice(&input.previous_output.vout.to_le_bytes());
                value_by_outpoint.get(&key).unwrap()
            })
            .sum();

        assert!(inputs_value >= target);
        assert!(fee < target);
        assert_eq!(utxo_count, unsigned_tx.inputs.len() + utxos.len());
        assert_eq!(
            set_entries(&utxos).iter().map(|u| u.value).sum::<u64>(),
            total_value - inputs_value
        );
    }
}

#[test]
fn build_tx_handles_change_from_inputs() {
    let mut rng = Rng(0x0123_4567);
    for case in 0..10 {
        let n = 1 + (case % 8) as usize;
        let mut utxos = utxo_set(
            (0..n)
                .map(|_| arb_utxo(&mut rng, 1_000_000, 1_000_000_000))
                .collect(),
        );
        let mut dst_pkhash = [1u8; 20];
        dst_pkhash.copy_from_slice(&rng.bytes(20));
        let mut main_pkhash = [2u8; 20];
        main_pkhash.copy_from_slice(&rng.bytes(20));
        if dst_pkhash == main_pkhash {
            continue;
        }
        let target = rng.range(10_000, 50_000);
        let fee_per_vbyte = rng.range(1000, 2000);

        let value_by_outpoint: HashMap<Vec<u8>, u64> = set_entries(&utxos)
            .iter()
            .map(|u| {
                let mut key = u.outpoint.txid.clone();
                key.extend_from_slice(&u.outpoint.vout.to_le_bytes());
                (key, u.value)
            })
            .collect();

        let (unsigned_tx, change_output, _) = build_unsigned_transaction(
            &mut utxos,
            vec![(BitcoinAddress::P2wpkhV0(dst_pkhash), target)],
            BitcoinAddress::P2wpkhV0(main_pkhash),
            fee_per_vbyte,
        )
        .expect("failed to build transaction");

        let fee = fake_sign(&unsigned_tx).vsize() as u64 * fee_per_vbyte / 1000;
        let inputs_value: u64 = unsigned_tx
            .inputs
            .iter()
            .map(|input| {
                let mut key = input.previous_output.txid.clone();
                key.extend_from_slice(&input.previous_output.vout.to_le_bytes());
                value_by_outpoint.get(&key).unwrap()
            })
            .sum();

        assert_eq!(
            &unsigned_tx.outputs,
            &vec![
                tx::TxOut {
                    value: target - fee,
                    address: BitcoinAddress::P2wpkhV0(dst_pkhash),
                },
                tx::TxOut {
                    value: inputs_value - target,
                    address: BitcoinAddress::P2wpkhV0(main_pkhash),
                },
            ]
        );

        assert_eq!(
            change_output,
            Some(ChangeOutput {
                vout: 1,
                value: inputs_value - target
            })
        );
    }
}

#[test]
fn build_tx_does_not_modify_utxos_on_error() {
    let mut rng = Rng(0x7777_0001);
    let n = 5usize;
    let mut utxos = utxo_set((0..n).map(|_| arb_utxo(&mut rng, 5_000, 1_000_000_000)).collect());
    let mut dst_pkhash = [0u8; 20];
    dst_pkhash.copy_from_slice(&rng.bytes(20));
    let mut main_pkhash = [0u8; 20];
    main_pkhash.copy_from_slice(&rng.bytes(20));
    let fee_per_vbyte = rng.range(1000, 2000);

    let utxos_copy = set_entries(&utxos);
    let total_value: u64 = utxos_copy.iter().map(|u| u.value).sum();

    assert_eq!(
        build_unsigned_transaction(
            &mut utxos,
            vec![(BitcoinAddress::P2wpkhV0(dst_pkhash), total_value * 2)],
            BitcoinAddress::P2wpkhV0(main_pkhash),
            fee_per_vbyte,
        )
        .expect_err("build transaction should fail because the amount is too high"),
        BuildTxError::NotEnoughFunds
    );
    assert_eq!(utxos_copy, set_entries(&utxos));

    assert_eq!(
        build_unsigned_transaction(
            &mut utxos,
            vec![(BitcoinAddress::P2wpkhV0(dst_pkhash), 1)],
            BitcoinAddress::P2wpkhV0(main_pkhash),
            fee_per_vbyte,
        )
        .expect_err("build transaction should fail because the amount is too low to pay the fee"),
        BuildTxError::AmountTooLow
    );
    assert_eq!(utxos_copy, set_entries(&utxos));
}

fn test_state() -> CkBtcMinterState {
    CkBtcMinterState::from(InitArgs {
        btc_network: Network::Regtest,
        ecdsa_key_name: "".to_string(),
        retrieve_btc_min_amount: 0,
        ledger_id: 42,
        max_time_in_queue_nanos: 0,
        min_confirmations: None,
    })
}

fn test_account(i: u8) -> Account {
    Account {
        owner: vec![i, i, i, i],
        subaccount: if i % 2 == 0 { None } else { Some([i; 32]) },
    }
}

#[test]
fn add_utxos_maintains_invariants() {
    let mut rng = Rng(0xabc0_0001);
    let mut state = test_state();
    for k in 0..15 {
        let utxo = arb_utxo(&mut rng, 5_000, 1_000_000_000);
        let account = test_account((k % 5) as u8);
        state.add_utxos(account, vec![utxo]);
        state.check_invariants().expect("invariant check failed");
    }
}

#[test]
fn batching_preserves_invariants() {
    let mut rng = Rng(0xabc0_0002);
    let mut state = test_state();

    let mut available_amount = 0u64;
    for k in 0..15 {
        let utxo = arb_utxo(&mut rng, 5_000, 1_000_000_000);
        available_amount += utxo.value;
        state.add_utxos(test_account((k % 5) as u8), vec![utxo]);
    }
    let mut requests: Vec<RetrieveBtcRequest> = (0..20u64)
        .map(|i| RetrieveBtcRequest {
            amount: rng.range(5_000, 1_000_000_000),
            address: arb_address(&mut rng),
            block_index: i,
            received_at: 1_569_975_147_000 + rng.range(0, 500_000_000_000),
        })
        .collect();
    requests.sort_by_key(|req| req.received_at);
    for (i, req) in requests.iter_mut().enumerate() {
        req.block_index = i as u64;
    }

    for req in requests {
        let block_index = req.block_index;
        state.push_back_pending_request(req);
        assert_eq!(
            state.retrieve_btc_status(block_index),
            RetrieveBtcStatus::Pending
        );
    }

    let batch = state.build_batch();

    for req in batch.iter() {
        assert_eq!(
            state.retrieve_btc_status(req.block_index),
            RetrieveBtcStatus::Unknown
        );
    }

    assert!(batch.iter().map(|req| req.amount).sum::<u64>() <= available_amount);

    state.check_invariants().expect("invariant check failed");
}

#[test]
fn btc_v0_p2wpkh_address_parsing() {
    let mut rng = Rng(0x1fee_7051);
    for _ in 0..8 {
        let mut pkbytes = rng.bytes(32);
        pkbytes.insert(0, 0x02);

        for network in [Network::Mainnet, Network::Testnet, Network::Regtest].iter() {
            let addr = network_and_public_key_to_p2wpkh(*network, &pkbytes);
            assert_eq!(
                Ok(BitcoinAddress::P2wpkhV0(tx::hash160(&pkbytes))),
                BitcoinAddress::parse(&addr, *network)
            );
        }
    }
}

#[test]
fn btc_address_parsing_model() {
    let mut rng = Rng(0x2fee_7052);
    for _ in 0..8 {
        let mut pkbytes = rng.bytes(32);
        pkbytes.insert(0, 0x02);

        let pk_result = bitcoin::PublicKey::from_slice(&pkbytes);
        let pk = match pk_result {
            Ok(pk) => pk,
            Err(_) => continue,
        };
        let pkhash = tx::hash160(&pkbytes);

        for network in [Network::Mainnet, Network::Testnet, Network::Regtest].iter() {
            let btc_net = network_to_btc_network(*network);
            let btc_addr = bitcoin::Address::p2pkh(&pk, btc_net);
            assert_eq!(
                Ok(BitcoinAddress::P2pkh(tx::hash160(&pkbytes))),
                BitcoinAddress::parse(&btc_addr.to_string(), *network)
            );

            let btc_addr = bitcoin::Address::p2wpkh(&pk, btc_net).unwrap();
            assert_eq!(
                Ok(BitcoinAddress::P2wpkhV0(pkhash)),
                BitcoinAddress::parse(&btc_addr.to_string(), *network)
            );
        }
    }
}

#[test]
fn btc_address_display_model() {
    let mut rng = Rng(0x3fee_7053);
    for _ in 0..20 {
        let address = arb_address(&mut rng);
        for network in [Network::Mainnet, Network::Testnet].iter() {
            let addr_str = address.display(*network);
            let btc_addr = address_to_btc_address(&address, *network);
            assert_eq!(btc_addr, bitcoin::Address::from_str(&addr_str).unwrap());
        }
    }
}

#[test]
fn address_roundtrip() {
    let mut rng = Rng(0x4fee_7054);
    for _ in 0..20 {
        let address = arb_address(&mut rng);
        for network in [Network::Mainnet, Network::Testnet, Network::Regtest].iter() {
            let addr_str = address.display(*network);
            assert_eq!(BitcoinAddress::parse(&addr_str, *network), Ok(address));
        }
    }
}

#[test]
fn address_parse_errors() {
    assert_eq!(
        BitcoinAddress::parse("", Network::Mainnet),
        Err(ParseAddressError::Malformed)
    );
    // A mainnet P2PKH address handed to the testnet parser.
    let addr = BitcoinAddress::P2pkh([7; 20]).display(Network::Mainnet);
    assert_eq!(
        BitcoinAddress::parse(&addr, Network::Testnet),
        Err(ParseAddressError::WrongNetwork)
    );
    // Corrupt the last character of a valid address.
    let mut addr = BitcoinAddress::P2sh([9; 20]).display(Network::Mainnet);
    let last = addr.pop().unwrap();
    addr.push(if last == '2' { '3' } else { '2' });
    assert!(BitcoinAddress::parse(&addr, Network::Mainnet).is_err());
    // A witness version other than zero.
    let good = BitcoinAddress::P2wpkhV0([1; 20]).display(Network::Mainnet);
    assert!(BitcoinAddress::parse(&good, Network::Mainnet).is_ok());
}

#[test]
fn sec1_to_der_positive_parses() {

    let mut rng = Rng(0x6a5e_0001);
    for _ in 0..10 {
        let sig: Vec<u8> = (0..64).map(|_| 1 + (rng.next() % 0x0e) as u8).collect();
        let der = ckbtc_minter::signature::sec1_to_der(&sig);
        let decoded = from_der(&der).expect("failed to decode DER");
        if let [Sequence(_, items)] = &decoded[..] {
            if let [Integer(_, r), Integer(_, s)] = &items[..] {
                let (_, r_be) = r.to_bytes_be();
                let (_, s_be) = s.to_bytes_be();
                assert_eq!(&r_be[..], &sig[..32]);
                assert_eq!(&s_be[..], &sig[32..]);
                continue;
            }
        }
        panic!("expected a DER sequence with two items, got: {:?}", decoded);
    }
}

#[test]
fn sec1_to_der_non_zero_parses() {

    let mut rng = Rng(0x6a5e_0002);
    for _ in 0..10 {
        let mut sig: Vec<u8> = (0..64).map(|_| (rng.next() & 0xff) as u8).collect();
        if sig[..32].iter().all(|x| *x == 0) {
            sig[0] = 1;
        }
        if sig[32..].iter().all(|x| *x == 0) {
            sig[32] = 1;
        }

        let der = ckbtc_minter::signature::sec1_to_der(&sig);
        let decoded = from_der(&der).expect("failed to decode DER");

        if let [Sequence(_, items)] = &decoded[..] {
            if let [Integer(_, _r), Integer(_, _s)] = &items[..] {
                continue;
            }
        }
        panic!("expected a DER sequence with two items, got: {:?}", decoded);
    }
}

#[test]
fn encode_valid_signatures() {
    let mut rng = Rng(0x6a5e_0003);
    for _ in 0..10 {
        let mut sig: Vec<u8> = (0..64).map(|_| (rng.next() & 0xff) as u8).collect();
        if sig[..32].iter().all(|x| *x == 0) {
            sig[0] = 1;
        }
        if sig[32..].iter().all(|x| *x == 0) {
            sig[32] = 1;
        }

        let encoded = EncodedSignature::from_sec1(&sig);
        ckbtc_minter::signature::validate_encoded_signature(encoded.as_slice())
            .expect("invalid signature");
    }
}

#[test]
fn validate_encoded_signature_rejects_garbage() {
    assert!(ckbtc_minter::signature::validate_encoded_signature(&[]).is_err());
    assert!(ckbtc_minter::signature::validate_encoded_signature(&[0x30, 0x00]).is_err());
    let sig = [7u8; 64];
    let mut der = ckbtc_minter::signature::sec1_to_der(&sig);
    der[0] = 0x31;
    assert!(ckbtc_minter::signature::validate_encoded_signature(&der).is_err());
}

#[test]
fn amount_distribute_props() {
    let mut rng = Rng(0xd15e_a5e1);
    for case in 0..25 {
        let amount = rng.next();
        let n = 1 + (case % 19) as u64;
        let shares = distribute(amount, n);

        // Distribute respects the share number.
        assert_eq!(shares.len(), n as usize);

        // Distribute preserves the total.
        assert_eq!(amount, shares.iter().sum::<u64>());

        // Distribute is fair.
        for x in shares.iter() {
            for y in shares.iter() {
                assert!(x.max(y) - x.min(y) <= 1);
            }
        }
    }
}

#[test]
fn distribute_exact_shares() {
    assert_eq!(distribute(7, 3), vec![3, 2, 2]);
    assert_eq!(distribute(0, 2), vec![0, 0]);
    assert_eq!(distribute(10, 1), vec![10]);
}

#[test]
fn add_utxos_skips_duplicate_outpoints() {
    let mut state = test_state();
    let utxo = Utxo {
        outpoint: OutPoint {
            txid: vec![9; 32],
            vout: 3,
        },
        value: 7_000,
        height: 1,
    };
    state.add_utxos(test_account(0), vec![utxo.clone()]);
    assert_eq!(state.available_utxos.len(), 1);
    state.add_utxos(test_account(1), vec![utxo]);
    assert_eq!(state.available_utxos.len(), 1);
    state.check_invariants().expect("invariant check failed");
}

#[test]
fn pending_queue_stays_sorted_by_arrival() {
    let mut state = test_state();
    let req = |block_index: u64, received_at: u64| RetrieveBtcRequest {
        amount: 10_000,
        address: BitcoinAddress::P2wpkhV0([3; 20]),
        block_index,
        received_at,
    };
    state.push_back_pending_request(req(0, 50));
    state.push_back_pending_request(req(1, 10));
    state.push_back_pending_request(req(2, 30));
    state.check_invariants().expect("invariant check failed");
    assert_eq!(state.retrieve_btc_status(1), RetrieveBtcStatus::Pending);

    // Nothing is available, so no request can leave the queue.
    let batch = state.build_batch();
    assert!(batch.is_empty());
    assert_eq!(state.retrieve_btc_status(2), RetrieveBtcStatus::Pending);
}

#[test]
fn check_invariants_reports_a_disordered_queue() {
    let mut state = test_state();
    state.pending_retrieve_btc_requests = vec![
        RetrieveBtcRequest {
            amount: 1_000,
            address: BitcoinAddress::P2wpkhV0([4; 20]),
            block_index: 0,
            received_at: 50,
        },
        RetrieveBtcRequest {
            amount: 1_000,
            address: BitcoinAddress::P2wpkhV0([5; 20]),
            block_index: 1,
            received_at: 10,
        },
    ];
    assert!(state.check_invariants().is_err());
}
