//! Core logic of a Bitcoin-custodying minter: UTXO selection, fee-correct
//! unsigned-transaction construction, BIP143 sighash computation, DER signature
//! encoding, and the three supported Bitcoin address encodings, together with
//! the swap-parameter validation rules and a persistent integer-keyed map.
use vstd::prelude::*;

pub mod address;
pub mod state;
pub mod swap;
pub mod digest;
pub mod intmap;
pub mod signature;
pub mod tx;

verus! {

use vstd::multiset::Multiset;
use crate::state::{
    sum_utxo_values,
    lemma_sum_utxo_values_nonneg,
    ChangeOutput,
    UtxoSet,
    UtxoV,
    Utxo,
};
use crate::address::{script_pubkey_of, BitcoinAddress};
use crate::signature::EncodedSignature;
use crate::tx::{
    compact_size,
    concat_bytes,
    signed_input_base_wire,
    signed_tx_base_wire,
    signed_tx_wire,
    tx_out_wire,
    unsigned_input_wire,
    unsigned_tx_wire,
    witness_wire,
    OutPoint,
    SignedInput,
    SignedTransaction,
    TxOut,
    UnsignedInput,
    UnsignedTransaction,
};

/// The smallest change value the transaction builder is willing to create;
/// a would-be change output below this threshold is topped up out of the
/// requested outputs instead of being left as dust.
pub const MIN_CHANGE: u64 = 1_001;

/// The sum of a sequence of satoshi amounts, as a mathematical integer.
pub open spec fn sum_values(s: Seq<u64>) -> int
    decreases s.len(),
{
    if s.len() == 0 {
        0
    } else {
        sum_values(s.drop_last()) + s.last()
    }
}

pub proof fn lemma_sum_values_push(s: Seq<u64>, x: u64)
    ensures
        sum_values(s.push(x)) == sum_values(s) + x,
{
    assert(s.push(x).drop_last() =~= s);
}

/// The share that `distribute(amount, n)` assigns to index `i`:
/// an equal split, with the remainder going one satoshi at a time
/// to the earliest indices.
pub open spec fn share_at(amount: u64, n: u64, i: int) -> int {
    amount / n + if i < amount % n {
        1int
    } else {
        0int
    }
}

/// Splits `amount` into `n` nearly-equal shares: the shares sum exactly to
/// `amount`, any two of them differ by at most one, and the larger shares
/// come first.
pub fn distribute(amount: u64, n: u64) -> (shares: Vec<u64>)
    requires
        1 <= n,
    ensures
        shares@.len() == n,
        sum_values(shares@) == amount,
        forall|i: int| 0 <= i < n ==> shares@[i] == share_at(amount, n, i),
        forall|i: int, j: int|
            0 <= i < n && 0 <= j < n ==> shares@[i] - shares@[j] <= 1,
{
    let share = amount / n;
    let rem = amount % n;
    let mut shares: Vec<u64> = Vec::new();
    let mut i: u64 = 0;
    while i < n
        invariant
            i <= n,
            1 <= n,
            share == amount / n,
            rem == amount % n,
            shares@.len() == i,
            forall|k: int| 0 <= k < i ==> shares@[k] == share_at(amount, n, k),
            sum_values(shares@) == i * (share as int) + (if i <= rem {
                i as int
            } else {
                rem as int
            }),
        decreases n - i,
    {
        let ghost prev = shares@;
        if i < rem {
            assert(share < u64::MAX) by {
                vstd::arithmetic::div_mod::lemma_fundamental_div_mod(
                    amount as int,
                    n as int,
                );
                assert(n * (amount / n) >= amount / n) by (nonlinear_arith)
                    requires
                        n >= 1,
                        amount / n >= 0,
                ;
            }
            shares.push(share + 1);
        } else {
            shares.push(share);
        }
        proof {
            lemma_sum_values_push(prev, shares@.last());
            assert((i + 1) * (share as int) == i * (share as int) + share)
                by (nonlinear_arith);
        }
        i = i + 1;
    }
    proof {
        vstd::arithmetic::div_mod::lemma_fundamental_div_mod(
            amount as int,
            n as int,
        );
    }
    shares
}

/// The position of the best single pick for `target` in the sorted sequence
/// `s`: the last (hence largest) element whose value does not exceed
/// `target`, or `-1` when every element exceeds it.
pub open spec fn largest_le_index(s: Seq<UtxoV>, target: u64) -> int
    decreases s.len(),
{
    if s.len() == 0 {
        -1
    } else if s.last().value <= target {
        s.len() - 1
    } else {
        largest_le_index(s.drop_last(), target)
    }
}

pub proof fn lemma_largest_le_index(s: Seq<UtxoV>, target: u64)
    ensures
        largest_le_index(s, target) >= -1,
        largest_le_index(s, target) == -1 ==> forall|j: int|
            0 <= j < s.len() ==> s[j].value > target,
        largest_le_index(s, target) >= 0 ==> {
            let i = largest_le_index(s, target);
            &&& 0 <= i < s.len()
            &&& s[i].value <= target
            &&& forall|j: int| i < j < s.len() ==> s[j].value > target
        },
    decreases s.len(),
{
    if s.len() > 0 && s.last().value > target {
        lemma_largest_le_index(s.drop_last(), target);
        let i = largest_le_index(s, target);
        if i == -1 {
            assert forall|j: int| 0 <= j < s.len() implies s[j].value > target by {
                if j < s.len() - 1 {
                    assert(s.drop_last()[j] == s[j]);
                }
            }
        } else {
            assert forall|j: int| i < j < s.len() implies s[j].value > target by {
                if j < s.len() - 1 {
                    assert(s.drop_last()[j] == s[j]);
                }
            }
            assert(s[i] == s.drop_last()[i]);
        }
    }
}

/// One run of the greedy selector over a sorted sequence, assuming the
/// target is reachable: the selected elements in pick order, and what is
/// left, in order. While the remaining target is positive it picks the
/// largest element not exceeding it, or, when none exists, the smallest
/// remaining element, which overshoots and finishes the selection.
pub open spec fn greedy_pair(target: u64, s: Seq<UtxoV>) -> (Seq<UtxoV>, Seq<UtxoV>)
    decreases s.len(),
{
    if target == 0 || s.len() == 0 {
        (Seq::empty(), s)
    } else {
        let i = largest_le_index(s, target);
        if 0 <= i < s.len() && s[i].value <= target {
            let rest = greedy_pair((target - s[i].value) as u64, s.remove(i));
            (seq![s[i]] + rest.0, rest.1)
        } else {
            (seq![s[0]], s.drop_first())
        }
    }
}

/// What `greedy` selects and what it leaves: nothing moves when the set
/// cannot cover the target.
pub open spec fn greedy_spec(target: u64, s: Seq<UtxoV>) -> (Seq<UtxoV>, Seq<UtxoV>) {
    if sum_utxo_values(s) < target {
        (Seq::empty(), s)
    } else {
        greedy_pair(target, s)
    }
}

/// What the greedy selector guarantees: the selection covers the target,
/// it is non-empty whenever the target is positive and reachable, and
/// together with what is left it is exactly the original set.
pub proof fn lemma_greedy_pair_properties(target: u64, s: Seq<UtxoV>)
    requires
        sum_utxo_values(s) >= target,
    ensures
        sum_utxo_values(greedy_pair(target, s).0) >= target,
        sum_utxo_values(greedy_pair(target, s).0) <= target + 0xffff_ffff_ffff_ffffu64,
        target > 0 && s.len() > 0 ==> greedy_pair(target, s).0.len() > 0,
        greedy_pair(target, s).0.to_multiset().add(greedy_pair(target, s).1.to_multiset())
            =~= s.to_multiset(),
    decreases s.len(),
{
    broadcast use vstd::seq_lib::group_to_multiset_ensures;

    if target == 0 || s.len() == 0 {
        assert(greedy_pair(target, s).0.to_multiset() =~= Multiset::<UtxoV>::empty());
    } else {
        let i = largest_le_index(s, target);
        lemma_largest_le_index(s, target);
        if 0 <= i < s.len() && s[i].value <= target {
            let t2 = (target - s[i].value) as u64;
            crate::state::lemma_sum_utxo_values_remove(s, i);
            lemma_greedy_pair_properties(t2, s.remove(i));
            let rest = greedy_pair(t2, s.remove(i));
            let sel = seq![s[i]] + rest.0;
            lemma_sum_utxo_values_cons(s[i], rest.0);
            assert(sel.remove(0) =~= rest.0);
            assert(sel.remove(0).to_multiset() =~= sel.to_multiset().remove(sel[0]));
            assert(sel.contains(sel[0]));
            assert(sel.to_multiset() =~= rest.0.to_multiset().insert(s[i]));
            assert(sel.to_multiset().add(rest.1.to_multiset()) =~= s.remove(
                i,
            ).to_multiset().insert(s[i]));
            assert(s.remove(i).to_multiset() =~= s.to_multiset().remove(s[i]));
            assert(s.contains(s[i]));
            assert(s.to_multiset().count(s[i]) > 0);
            assert(s.remove(i).to_multiset().insert(s[i]) =~= s.to_multiset());
        } else {
            let sel = seq![s[0]];
            assert(s[0].value > target);
            assert(s.drop_first() =~= s.remove(0));
            lemma_sum_utxo_values_cons(s[0], Seq::<UtxoV>::empty());
            assert(seq![s[0]] + Seq::<UtxoV>::empty() =~= sel);
            assert(sum_utxo_values(Seq::<UtxoV>::empty()) == 0);
            assert(sum_utxo_values(sel) == s[0].value);
            assert(sel.remove(0) =~= Seq::<UtxoV>::empty());
            assert(sel.remove(0).to_multiset() =~= sel.to_multiset().remove(sel[0]));
            assert(sel.contains(sel[0]));
            assert(Seq::<UtxoV>::empty().to_multiset() =~= Multiset::<UtxoV>::empty());
            assert(sel.to_multiset() =~= Multiset::<UtxoV>::empty().insert(s[0]));
            assert(s.remove(0).to_multiset() =~= s.to_multiset().remove(s[0]));
            assert(s.contains(s[0]));
            assert(s.to_multiset().count(s[0]) > 0);
            assert(sel.to_multiset().add(s.remove(0).to_multiset()) =~= s.to_multiset());
        }
    }
}

pub proof fn lemma_sum_utxo_values_cons(u: UtxoV, s: Seq<UtxoV>)
    ensures
        sum_utxo_values(seq![u] + s) == u.value + sum_utxo_values(s),
    decreases s.len(),
{
    if s.len() == 0 {
        assert(seq![u] + s =~= seq![u]);
        assert(seq![u].drop_last() =~= Seq::<UtxoV>::empty());
        assert(sum_utxo_values(Seq::<UtxoV>::empty()) == 0);
        assert(sum_utxo_values(seq![u]) == u.value);
    } else {
        assert((seq![u] + s).drop_last() =~= seq![u] + s.drop_last());
        assert((seq![u] + s).last() == s.last());
        lemma_sum_utxo_values_cons(u, s.drop_last());
    }
}

/// The views of the selected UTXOs, in pick order.
pub open spec fn utxo_views(s: Seq<Utxo>) -> Seq<UtxoV> {
    s.map(|_k: int, u: Utxo| u@)
}

/// Selects UTXOs covering `target` and removes them from `available`:
/// repeatedly the largest whose value does not exceed the remaining target,
/// else the smallest remaining one, which finishes the selection. When the
/// whole set cannot cover `target`, or `target` is zero, it selects nothing
/// and leaves `available` untouched.
pub fn greedy(target: u64, available: &mut UtxoSet) -> (res: Vec<Utxo>)
    requires
        old(available).wf(),
    ensures
        final(available).wf(),
        utxo_views(res@) =~= greedy_spec(target, old(available)@).0,
        final(available)@ =~= greedy_spec(target, old(available)@).1,
{
    let total = available.total_value();
    let mut res: Vec<Utxo> = Vec::new();
    if (target as u128) > total {
        assert(utxo_views(res@) =~= Seq::<UtxoV>::empty());
        return res;
    }
    let ghost s0 = available@;
    let mut t: u64 = target;
    while t > 0
        invariant
            available.wf(),
            sum_utxo_values(available@) >= t,
            greedy_pair(target, s0).0 =~= utxo_views(res@) + greedy_pair(t, available@).0,
            greedy_pair(target, s0).1 =~= greedy_pair(t, available@).1,
            t == 0 ==> greedy_pair(t, available@).0 =~= Seq::<UtxoV>::empty(),
        decreases available@.len(),
    {
        let ghost cur = available@;
        proof {
            if available@.len() == 0 {
                assert(sum_utxo_values(available@) == 0);
            }
            lemma_largest_le_index(cur, t);
        }
        let n = available.len();
        let mut j: usize = n;
        let mut found: bool = false;
        let mut idx: usize = 0;
        while j > 0 && !found
            invariant
                j <= n,
                n == available@.len(),
                available.wf(),
                !found ==> forall|m: int| j <= m < n ==> available@[m].value > t,
                found ==> j < n && available@[j as int].value <= t && idx == j
                    && forall|m: int| j < m < n ==> available@[m].value > t,
            decreases j + (if found { 0int } else { 1int }),
        {
            if available.get(j - 1).value <= t {
                found = true;
                idx = j - 1;
                j = j - 1;
            } else {
                j = j - 1;
            }
        }
        if found {
            proof {
                let i = largest_le_index(cur, t);
                assert(i >= 0);
                assert(i == idx as int);
            }
            let u = available.remove_at(idx);
            proof {
                crate::state::lemma_sum_utxo_values_remove(cur, idx as int);
                assert(utxo_views(res@.push(u)) =~= utxo_views(res@).push(u@));
                assert(utxo_views(res@) + greedy_pair(t, cur).0 =~= utxo_views(
                    res@.push(u),
                ) + greedy_pair((t - u.value) as u64, cur.remove(idx as int)).0);
            }
            res.push(u);
            t = t - res[res.len() - 1].value;
        } else {
            proof {
                let i = largest_le_index(cur, t);
                if i >= 0 {
                    assert(cur[i].value <= t);
                    assert(false);
                }
                assert(cur.remove(0) =~= cur.drop_first());
            }
            let u = available.remove_at(0);
            proof {
                assert(utxo_views(res@.push(u)) =~= utxo_views(res@).push(u@));
                assert(greedy_pair(t, cur).0 =~= seq![u@]);
                assert(utxo_views(res@) + greedy_pair(t, cur).0 =~= utxo_views(
                    res@.push(u),
                ));
            }
            res.push(u);
            t = 0;
            proof {
                lemma_sum_utxo_values_nonneg(available@);
            }
        }
    }
    assert(utxo_views(res@) =~= greedy_pair(target, s0).0);
    res
}

/// The sequence number every input this library builds carries.
pub const DEFAULT_SEQUENCE: u32 = 0xffff_ffff;

/// The compact form every placeholder signature encodes: 64 bytes of 0x01.
pub open spec fn fake_sig_sec1() -> Seq<u8> {
    Seq::new(64, |_i: int| 1u8)
}

/// A placeholder DER signature is exactly 70 bytes long.
pub proof fn lemma_fake_der_len()
    ensures
        crate::signature::sec1_der(fake_sig_sec1()).len() == 70,
{
    let s = fake_sig_sec1();
    let r = s.subrange(0, 32);
    let t = s.subrange(32, 64);
    assert(r.len() == 32 && r[0] == 1);
    assert(t.len() == 32 && t[0] == 1);
    assert(crate::signature::strip_leading_zeros(r) == r);
    assert(crate::signature::strip_leading_zeros(t) == t);
}

/// Pointwise-equal inputs serialize to the same non-witness bytes.
pub proof fn lemma_inputs_base_eq(a: Seq<SignedInput>, b: Seq<UnsignedInput>)
    requires
        a.len() == b.len(),
        forall|k: int| #![trigger a[k]]
            0 <= k < a.len() ==> a[k].previous_output.txid@
                == b[k].previous_output.txid@ && a[k].previous_output.vout
                == b[k].previous_output.vout && a[k].sequence == b[k].sequence,
    ensures
        concat_bytes(a, |i: SignedInput| signed_input_base_wire(i)) =~= concat_bytes(
            b,
            |i: UnsignedInput| unsigned_input_wire(i),
        ),
    decreases a.len(),
{
    if a.len() > 0 {
        lemma_inputs_base_eq(a.drop_last(), b.drop_last());
        assert(signed_input_base_wire(a.last()) =~= unsigned_input_wire(b.last()));
    }
}

/// Every placeholder witness stack is 106 bytes, so the stacks together
/// add 106 bytes per input.
pub proof fn lemma_witness_total_len(a: Seq<SignedInput>)
    requires
        forall|k: int| #![trigger a[k]]
            0 <= k < a.len() ==> a[k].signature.0@.len() == 70
                && a[k].pubkey@.len() == 33,
    ensures
        concat_bytes(a, |i: SignedInput| witness_wire(i)).len() == 106 * a.len(),
    decreases a.len(),
{
    if a.len() == 0 {
    } else {
        lemma_witness_total_len(a.drop_last());
        assert(witness_wire(a.last()).len() == 106);
    }
}

/// Replaces every input of `tx` with one carrying a placeholder signature of
/// the exact length a real one will have, so that the result's serialized
/// size equals the final transaction's size.
pub fn fake_sign(tx: &UnsignedTransaction) -> (st: SignedTransaction)
    ensures
        st.inputs@.len() == tx.inputs@.len(),
        st.outputs@ =~= tx.outputs@,
        st.lock_time == tx.lock_time,
        signed_tx_base_wire(st) =~= unsigned_tx_wire(*tx),
        signed_tx_wire(st).len() == unsigned_tx_wire(*tx).len() + 2 + 106 * tx.inputs@.len(),
{
    let n = tx.inputs.len();
    let mut inputs: Vec<SignedInput> = Vec::new();
    let mut k: usize = 0;
    while k < n
        invariant
            k <= n,
            n == tx.inputs@.len(),
            inputs@.len() == k,
            forall|j: int| #![trigger inputs@[j]]
                0 <= j < k ==> inputs@[j].previous_output.txid@
                    == tx.inputs@[j].previous_output.txid@
                    && inputs@[j].previous_output.vout == tx.inputs@[j].previous_output.vout
                    && inputs@[j].sequence == tx.inputs@[j].sequence,
            forall|j: int| #![trigger inputs@[j]]
                0 <= j < k ==> inputs@[j].signature.0@.len() == 70
                    && inputs@[j].pubkey@.len() == 33,
        decreases n - k,
    {
        let fake: Vec<u8> = vec![1u8; 64];
        let input = &tx.inputs[k];
        proof {
            lemma_fake_der_len();
            assert(fake@ =~= fake_sig_sec1());
        }
        let si = SignedInput {
            previous_output: OutPoint {
                txid: input.previous_output.txid.clone(),
                vout: input.previous_output.vout,
            },
            sequence: input.sequence,
            signature: EncodedSignature::from_sec1(fake.as_slice()),
            pubkey: vec![0u8; 33],
        };
        proof {
            assert(si.previous_output.txid@ =~= input.previous_output.txid@);
        }
        inputs.push(si);
        proof {
            assert(inputs@[k as int] == si);
        }
        k = k + 1;
    }
    let mut outputs: Vec<TxOut> = Vec::new();
    let mut k2: usize = 0;
    while k2 < tx.outputs.len()
        invariant
            k2 <= tx.outputs@.len(),
            outputs@ =~= tx.outputs@.take(k2 as int),
        decreases tx.outputs@.len() - k2,
    {
        outputs.push(tx.outputs[k2]);
        proof {
            assert(outputs@ =~= tx.outputs@.take(k2 + 1));
        }
        k2 = k2 + 1;
    }
    assert(outputs@ =~= tx.outputs@);
    let st = SignedTransaction { inputs, outputs, lock_time: tx.lock_time };
    proof {
        lemma_inputs_base_eq(st.inputs@, tx.inputs@);
        lemma_witness_total_len(st.inputs@);
        assert(signed_tx_base_wire(st) =~= unsigned_tx_wire(*tx));
    }
    st
}

/// The satoshi total a batch of requested payments asks for.
pub open spec fn sum_amounts(reqs: Seq<(BitcoinAddress, u64)>) -> int
    decreases reqs.len(),
{
    if reqs.len() == 0 {
        0
    } else {
        sum_amounts(reqs.drop_last()) + reqs.last().1
    }
}

/// The satoshi total carried by a list of transaction outputs.
pub open spec fn sum_out_values(outs: Seq<TxOut>) -> int
    decreases outs.len(),
{
    if outs.len() == 0 {
        0
    } else {
        sum_out_values(outs.drop_last()) + outs.last().value
    }
}

/// Serialized length of one input spending the given UTXO, with its empty
/// scriptSig: txid, index, script length byte, sequence.
pub open spec fn inputs_wire_len(sel: Seq<UtxoV>) -> int
    decreases sel.len(),
{
    if sel.len() == 0 {
        0
    } else {
        inputs_wire_len(sel.drop_last()) + sel.last().txid.len() + 9
    }
}

/// Serialized length of the requested outputs: value, script length byte
/// and script for each.
pub open spec fn outputs_wire_len(reqs: Seq<(BitcoinAddress, u64)>) -> int
    decreases reqs.len(),
{
    if reqs.len() == 0 {
        0
    } else {
        outputs_wire_len(reqs.drop_last()) + 9 + script_pubkey_of(reqs.last().0).len()
    }
}

/// Non-witness serialized length of the transaction the builder assembles.
pub open spec fn trial_base_len(
    sel: Seq<UtxoV>,
    reqs: Seq<(BitcoinAddress, u64)>,
    change_addr: BitcoinAddress,
    has_change: bool,
) -> int {
    8 + compact_size(sel.len()).len() + inputs_wire_len(sel) + compact_size(
        reqs.len() + (if has_change {
            1nat
        } else {
            0nat
        }),
    ).len() + outputs_wire_len(reqs) + (if has_change {
        9 + script_pubkey_of(change_addr).len() as int
    } else {
        0int
    })
}

/// Virtual size of the trial-signed transaction, by the segwit weight rule,
/// counting 106 witness bytes per input.
pub open spec fn trial_vsize(
    sel: Seq<UtxoV>,
    reqs: Seq<(BitcoinAddress, u64)>,
    change_addr: BitcoinAddress,
    has_change: bool,
) -> int {
    (4 * trial_base_len(sel, reqs, change_addr, has_change) + 106 * sel.len() + 5) / 4
}

/// The fee the builder charges: trial virtual size times the fee rate, in
/// millisatoshi per vbyte.
pub open spec fn fee_for(
    sel: Seq<UtxoV>,
    reqs: Seq<(BitcoinAddress, u64)>,
    change_addr: BitcoinAddress,
    has_change: bool,
    fee_per_vbyte: u64,
) -> int {
    trial_vsize(sel, reqs, change_addr, has_change) * fee_per_vbyte / 1000
}

/// Every scriptPubKey this library emits is between 22 and 25 bytes.
pub proof fn lemma_spk_len(a: BitcoinAddress)
    ensures
        22 <= script_pubkey_of(a).len() <= 25,
{
}

pub proof fn lemma_concat_push<T>(s: Seq<T>, x: T, f: spec_fn(T) -> Seq<u8>)
    ensures
        concat_bytes(s.push(x), f) == concat_bytes(s, f) + f(x),
{
    assert(s.push(x).drop_last() =~= s);
}

/// The built inputs serialize to exactly the length the fee formula counts.
pub proof fn lemma_built_inputs_len(inputs: Seq<UnsignedInput>, sel: Seq<UtxoV>)
    requires
        inputs.len() == sel.len(),
        forall|k: int|
            0 <= k < inputs.len() ==> #[trigger] inputs[k].previous_output.txid@
                == sel[k].txid,
    ensures
        concat_bytes(inputs, |i: UnsignedInput| unsigned_input_wire(i)).len()
            == inputs_wire_len(sel),
    decreases inputs.len(),
{
    if inputs.len() > 0 {
        lemma_built_inputs_len(inputs.drop_last(), sel.drop_last());
        assert(unsigned_input_wire(inputs.last()).len() == sel.last().txid.len() + 9);
    }
}

/// The built outputs serialize to exactly the length the fee formula counts.
pub proof fn lemma_built_outputs_len(outs: Seq<TxOut>, reqs: Seq<(BitcoinAddress, u64)>)
    requires
        outs.len() == reqs.len(),
        forall|k: int| 0 <= k < outs.len() ==> (#[trigger] outs[k].address) == reqs[k].0,
    ensures
        concat_bytes(outs, |o: TxOut| tx_out_wire(o)).len() == outputs_wire_len(reqs),
    decreases outs.len(),
{
    if outs.len() > 0 {
        lemma_built_outputs_len(outs.drop_last(), reqs.drop_last());
        lemma_spk_len(outs.last().address);
        assert(tx_out_wire(outs.last()).len() == 9 + script_pubkey_of(reqs.last().0).len());
    }
}

/// The share deducted from requested output `i` when `d` millisatoshi must
/// be apportioned over `n` outputs.
pub open spec fn share_of(d: int, n: int, i: int) -> int {
    d / n + if i < d % n {
        1int
    } else {
        0int
    }
}

/// The first requested output that apportioning `d` over the batch would
/// drain to zero or below, searching from `i`; `-1` when none is drained.
pub open spec fn zero_index_from(reqs: Seq<(BitcoinAddress, u64)>, d: int, i: int) -> int
    decreases reqs.len() - i,
{
    if i < 0 || i >= reqs.len() {
        -1
    } else if reqs[i].1 <= share_of(d, reqs.len() as int, i) {
        i
    } else {
        zero_index_from(reqs, d, i + 1)
    }
}

pub proof fn lemma_zero_index_from(reqs: Seq<(BitcoinAddress, u64)>, d: int, i: int)
    requires
        0 <= i <= reqs.len(),
    ensures
        zero_index_from(reqs, d, i) == -1 ==> forall|j: int|
            i <= j < reqs.len() ==> (#[trigger] reqs[j].1) > share_of(
                d,
                reqs.len() as int,
                j,
            ),
        zero_index_from(reqs, d, i) != -1 ==> {
            let z = zero_index_from(reqs, d, i);
            &&& i <= z < reqs.len()
            &&& reqs[z].1 <= share_of(d, reqs.len() as int, z)
            &&& forall|j: int|
                i <= j < z ==> (#[trigger] reqs[j].1) > share_of(d, reqs.len() as int, j)
        },
    decreases reqs.len() - i,
{
    if i < reqs.len() && reqs[i].1 > share_of(d, reqs.len() as int, i) {
        lemma_zero_index_from(reqs, d, i + 1);
    }
}

/// Whether the requested total is unreachable: zero, or more than the
/// available set holds.
pub open spec fn not_enough_funds(reqs: Seq<(BitcoinAddress, u64)>, s0: Seq<UtxoV>) -> bool {
    sum_amounts(reqs) == 0 || sum_amounts(reqs) > sum_utxo_values(s0)
}

/// Everything the builder decides once the selection is fixed, so the
/// contract and the code speak of one set of quantities.
pub open spec fn builder_sel(reqs: Seq<(BitcoinAddress, u64)>, s0: Seq<UtxoV>) -> Seq<
    UtxoV,
> {
    greedy_spec(sum_amounts(reqs) as u64, s0).0
}

pub open spec fn builder_surplus(reqs: Seq<(BitcoinAddress, u64)>, s0: Seq<UtxoV>) -> int {
    sum_utxo_values(builder_sel(reqs, s0)) - sum_amounts(reqs)
}

pub open spec fn builder_fee(
    reqs: Seq<(BitcoinAddress, u64)>,
    s0: Seq<UtxoV>,
    change_addr: BitcoinAddress,
    fee_per_vbyte: u64,
) -> int {
    fee_for(
        builder_sel(reqs, s0),
        reqs,
        change_addr,
        builder_surplus(reqs, s0) > 0,
        fee_per_vbyte,
    )
}

/// The change value actually emitted: the surplus, topped up to MIN_CHANGE.
pub open spec fn builder_change_value(reqs: Seq<(BitcoinAddress, u64)>, s0: Seq<UtxoV>) -> int {
    if builder_surplus(reqs, s0) >= MIN_CHANGE {
        builder_surplus(reqs, s0)
    } else {
        MIN_CHANGE as int
    }
}

/// What is taken out of the requested outputs: the fee, plus whatever is
/// needed to lift the change output to MIN_CHANGE.
pub open spec fn builder_deducted(
    reqs: Seq<(BitcoinAddress, u64)>,
    s0: Seq<UtxoV>,
    change_addr: BitcoinAddress,
    fee_per_vbyte: u64,
) -> int {
    builder_fee(reqs, s0, change_addr, fee_per_vbyte) + (if builder_surplus(reqs, s0) > 0 {
        builder_change_value(reqs, s0) - builder_surplus(reqs, s0)
    } else {
        0int
    })
}

/// The first `i` shares of apportioning `d` over `n` outputs, summed.
pub open spec fn shares_prefix(d: int, n: int, i: int) -> int
    decreases i,
{
    if i <= 0 {
        0
    } else {
        shares_prefix(d, n, i - 1) + share_of(d, n, i - 1)
    }
}

pub proof fn lemma_shares_prefix_closed(d: int, n: int, i: int)
    requires
        0 <= d,
        1 <= n,
        0 <= i <= n,
    ensures
        shares_prefix(d, n, i) == i * (d / n) + (if i <= d % n {
            i
        } else {
            d % n
        }),
    decreases i,
{
    vstd::arithmetic::div_mod::lemma_fundamental_div_mod(d, n);
    assert(d / n >= 0 && 0 <= d % n < n) by (nonlinear_arith)
        requires
            d >= 0,
            n >= 1,
    ;
    if i > 0 {
        lemma_shares_prefix_closed(d, n, i - 1);
        assert(i * (d / n) == (i - 1) * (d / n) + d / n) by (nonlinear_arith);
    } else {
        assert(0int * (d / n) == 0) by (nonlinear_arith);
    }
}

/// Apportioning `d` over `n` outputs hands out exactly `d`.
pub proof fn lemma_shares_prefix_total(d: int, n: int)
    requires
        0 <= d,
        1 <= n,
    ensures
        shares_prefix(d, n, n) == d,
{
    lemma_shares_prefix_closed(d, n, n);
    vstd::arithmetic::div_mod::lemma_fundamental_div_mod(d, n);
    assert(0 <= d % n < n) by {
        vstd::arithmetic::div_mod::lemma_mod_bound(d, n);
    }
}

pub proof fn lemma_sum_amounts_take_step(reqs: Seq<(BitcoinAddress, u64)>, i: int)
    requires
        0 <= i < reqs.len(),
    ensures
        sum_amounts(reqs.take(i + 1)) == sum_amounts(reqs.take(i)) + reqs[i].1,
{
    assert(reqs.take(i + 1).drop_last() =~= reqs.take(i));
}

pub proof fn lemma_sum_amounts_take_le(reqs: Seq<(BitcoinAddress, u64)>, i: int)
    requires
        0 <= i <= reqs.len(),
    ensures
        sum_amounts(reqs.take(i)) <= sum_amounts(reqs),
    decreases reqs.len() - i,
{
    if i == reqs.len() {
        assert(reqs.take(i) =~= reqs);
    } else {
        lemma_sum_amounts_take_le(reqs, i + 1);
        lemma_sum_amounts_take_step(reqs, i);
    }
}

pub proof fn lemma_sum_out_values_push(s: Seq<TxOut>, o: TxOut)
    ensures
        sum_out_values(s.push(o)) == sum_out_values(s) + o.value,
{
    assert(s.push(o).drop_last() =~= s);
}

/// Errors the transaction builder can return.
#[derive(Clone, Debug, PartialEq, Eq)]
pub enum BuildTxError {
    /// The available UTXOs cannot cover the requested total.
    NotEnoughFunds,
    /// A lone request cannot pay its own fee.
    AmountTooLow,
    /// Apportioning the fee would drain the given request to nothing.
    ZeroOutput { address: BitcoinAddress, amount: u64 },
}

/// Builds a fee-correct unsigned transaction paying each request from
/// `available_utxos`, with one change output back to `main_address` when the
/// selected inputs leave a surplus. The fee comes from a trial signing with
/// placeholder signatures; it is apportioned over the requested outputs,
/// together with whatever tops the change output up to `MIN_CHANGE`. Every
/// failure leaves `available_utxos` exactly as it was.
#[verifier::rlimit(100)]
pub fn build_unsigned_transaction(
    available_utxos: &mut UtxoSet,
    requests: Vec<(BitcoinAddress, u64)>,
    main_address: BitcoinAddress,
    fee_per_vbyte: u64,
) -> (r: Result<(UnsignedTransaction, Option<ChangeOutput>, Vec<Utxo>), BuildTxError>)
    requires
        old(available_utxos).wf(),
        requests@.len() >= 1,
        sum_amounts(requests@) <= u64::MAX,
    ensures
        final(available_utxos).wf(),
        r is Err ==> final(available_utxos)@ =~= old(available_utxos)@,
        (r matches Err(BuildTxError::NotEnoughFunds)) <==> not_enough_funds(
            requests@,
            old(available_utxos)@,
        ),
        (r matches Err(BuildTxError::AmountTooLow)) <==> (!not_enough_funds(
            requests@,
            old(available_utxos)@,
        ) && requests@.len() == 1 && requests@[0].1 <= builder_fee(
            requests@,
            old(available_utxos)@,
            main_address,
            fee_per_vbyte,
        )),
        (!not_enough_funds(requests@, old(available_utxos)@) && !(requests@.len() == 1
            && requests@[0].1 <= builder_fee(
            requests@,
            old(available_utxos)@,
            main_address,
            fee_per_vbyte,
        ))) ==> (r is Err <==> zero_index_from(
            requests@,
            builder_deducted(requests@, old(available_utxos)@, main_address, fee_per_vbyte),
            0,
        ) != -1),
        r matches Err(BuildTxError::ZeroOutput { address, amount }) ==> ({
            let z = zero_index_from(
                requests@,
                builder_deducted(
                    requests@,
                    old(available_utxos)@,
                    main_address,
                    fee_per_vbyte,
                ),
                0,
            );
            &&& 0 <= z < requests@.len()
            &&& address == requests@[z].0
            &&& amount == requests@[z].1
        }),
        r matches Ok((tx, change_out, used)) ==> ({
            let s0 = old(available_utxos)@;
            let sel = builder_sel(requests@, s0);
            let d = builder_deducted(requests@, s0, main_address, fee_per_vbyte);
            let n = requests@.len() as int;
            let has_change = builder_surplus(requests@, s0) > 0;
            let chv = builder_change_value(requests@, s0);
            &&& utxo_views(used@) =~= sel
            &&& final(available_utxos)@ =~= greedy_spec(
                sum_amounts(requests@) as u64,
                s0,
            ).1
            &&& tx.lock_time == 0
            &&& tx.inputs@.len() == sel.len()
            &&& forall|k: int|
                #![trigger tx.inputs@[k]]
                0 <= k < sel.len() ==> tx.inputs@[k].previous_output.txid@ == sel[k].txid
                    && tx.inputs@[k].previous_output.vout == sel[k].vout
                    && tx.inputs@[k].value == sel[k].value && tx.inputs@[k].sequence
                    == DEFAULT_SEQUENCE
            &&& tx.outputs@.len() == n + (if has_change {
                1int
            } else {
                0int
            })
            &&& forall|i: int|
                #![trigger tx.outputs@[i]]
                0 <= i < n ==> tx.outputs@[i].address == requests@[i].0
                    && tx.outputs@[i].value == requests@[i].1 - share_of(d, n, i)
            &&& builder_surplus(requests@, s0) <= u64::MAX
            &&& has_change ==> tx.outputs@[n] == (TxOut {
                value: chv as u64,
                address: main_address,
            }) && change_out == Some(ChangeOutput { vout: n as u64, value: chv as u64 })
            &&& !has_change ==> change_out is None
            &&& sum_out_values(tx.outputs@) == sum_utxo_values(sel) - builder_fee(
                requests@,
                s0,
                main_address,
                fee_per_vbyte,
            )
        }),
{
    let ghost s0 = old(available_utxos)@;
    let nreq = requests.len();

    let mut total: u64 = 0;
    let mut i: usize = 0;
    while i < nreq
        invariant
            i <= nreq,
            nreq == requests@.len(),
            sum_amounts(requests@) <= u64::MAX,
            total == sum_amounts(requests@.take(i as int)),
        decreases nreq - i,
    {
        proof {
            lemma_sum_amounts_take_step(requests@, i as int);
            lemma_sum_amounts_take_le(requests@, i + 1);
        }
        total = total + requests[i].1;
        i = i + 1;
    }
    proof {
        assert(requests@.take(nreq as int) =~= requests@);
    }

    let mut scratch = available_utxos.duplicate();
    let used = greedy(total, &mut scratch);
    let ghost sel = utxo_views(used@);
    proof {
        lemma_sum_utxo_values_nonneg(s0);
        if !not_enough_funds(requests@, s0) {
            lemma_greedy_pair_properties(total, s0);
        }
    }
    if used.is_empty() {
        proof {
            assert(sel =~= Seq::<UtxoV>::empty());
            assert(not_enough_funds(requests@, s0));
        }
        return Err(BuildTxError::NotEnoughFunds);
    }
    proof {
        assert(!not_enough_funds(requests@, s0));
        assert(sel =~= greedy_pair(total, s0).0);
        assert(sel =~= builder_sel(requests@, s0));
    }

    let mut inputs_value: u128 = 0;
    let nu = used.len();
    let mut k: usize = 0;
    proof {
        assert(sel.take(0) =~= Seq::<UtxoV>::empty());
    }
    while k < nu
        invariant
            k <= nu,
            nu == used@.len(),
            sel == utxo_views(used@),
            inputs_value == sum_utxo_values(sel.take(k as int)),
            inputs_value <= k * 0xffff_ffff_ffff_ffffu64,
        decreases nu - k,
    {
        proof {
            assert(sel.take(k + 1).drop_last() =~= sel.take(k as int));
            assert((k + 1) * 0xffff_ffff_ffff_ffffu64 == k * 0xffff_ffff_ffff_ffffu64
                + 0xffff_ffff_ffff_ffffu64) by (nonlinear_arith);
            assert(k * 0xffff_ffff_ffff_ffffu64 <= (usize::MAX as int)
                * 0xffff_ffff_ffff_ffffu64) by (nonlinear_arith)
                requires
                    0 <= k <= usize::MAX as int,
            ;
        }
        inputs_value = inputs_value + used[k].value as u128;
        k = k + 1;
    }
    proof {
        assert(sel.take(nu as int) =~= sel);
        assert(inputs_value == sum_utxo_values(sel));
    }

    let surplus: u128 = inputs_value - total as u128;
    let has_change = surplus > 0;
    proof {
        assert(surplus == builder_surplus(requests@, s0));
    }

    let mut tin: Vec<UnsignedInput> = Vec::new();
    let mut k2: usize = 0;
    while k2 < nu
        invariant
            k2 <= nu,
            nu == used@.len(),
            sel == utxo_views(used@),
            tin@.len() == k2,
            forall|j: int|
                #![trigger tin@[j]]
                0 <= j < k2 ==> tin@[j].previous_output.txid@ == sel[j].txid
                    && tin@[j].previous_output.vout == sel[j].vout && tin@[j].value
                    == sel[j].value && tin@[j].sequence == DEFAULT_SEQUENCE,
        decreases nu - k2,
    {
        let u = &used[k2];
        let ti = UnsignedInput {
            previous_output: OutPoint { txid: u.outpoint.txid.clone(), vout: u.outpoint.vout },
            value: u.value,
            sequence: DEFAULT_SEQUENCE,
        };
        proof {
            assert(ti.previous_output.txid@ =~= u.outpoint.txid@);
        }
        tin.push(ti);
        proof {
            assert(tin@[k2 as int] == ti);
        }
        k2 = k2 + 1;
    }

    let mut touts: Vec<TxOut> = Vec::new();
    let mut k3: usize = 0;
    while k3 < nreq
        invariant
            k3 <= nreq,
            nreq == requests@.len(),
            touts@.len() == k3,
            forall|j: int|
                #![trigger touts@[j]]
                0 <= j < k3 ==> touts@[j].address == requests@[j].0,
        decreases nreq - k3,
    {
        touts.push(TxOut { value: requests[k3].1, address: requests[k3].0 });
        k3 = k3 + 1;
    }
    let ghost base_outs = touts@;
    if has_change {
        touts.push(TxOut { value: (surplus & 0xffff_ffff_ffff_ffff) as u64, address: main_address });
    }
    let prov = UnsignedTransaction { inputs: tin, outputs: touts, lock_time: 0 };
    let trial = fake_sign(&prov);
    let vs = trial.vsize();
    proof {
        lemma_built_inputs_len(prov.inputs@, sel);
        lemma_built_outputs_len(base_outs, requests@);
        if has_change {
            lemma_concat_push(base_outs, prov.outputs@.last(), |o: TxOut| tx_out_wire(o));
            lemma_spk_len(main_address);
            assert(prov.outputs@ =~= base_outs.push(prov.outputs@.last()));
        } else {
            assert(prov.outputs@ =~= base_outs);
        }
        assert(unsigned_tx_wire(prov).len() == trial_base_len(
            sel,
            requests@,
            main_address,
            has_change,
        ));
        assert(vs == trial_vsize(sel, requests@, main_address, has_change));
    }
    proof {
        assert((vs as int) * (fee_per_vbyte as int) <= 0xffff_ffff_ffff_ffffint
            * 0xffff_ffff_ffff_ffffint) by (nonlinear_arith)
            requires
                0 <= vs as int <= 0xffff_ffff_ffff_ffffint,
                0 <= fee_per_vbyte as int <= 0xffff_ffff_ffff_ffffint,
        ;
    }
    let fee: u128 = (vs as u128) * (fee_per_vbyte as u128) / 1000;
    proof {
        assert(fee == builder_fee(requests@, s0, main_address, fee_per_vbyte));
    }

    if nreq == 1 && (requests[0].1 as u128) <= fee {
        return Err(BuildTxError::AmountTooLow);
    }

    let change_value: u128 = if has_change {
        if surplus < MIN_CHANGE as u128 {
            MIN_CHANGE as u128
        } else {
            surplus
        }
    } else {
        0
    };
    let deducted: u128 = if has_change {
        fee + (change_value - surplus)
    } else {
        fee
    };
    proof {
        if has_change {
            assert(change_value == builder_change_value(requests@, s0));
        }
        assert(deducted == builder_deducted(requests@, s0, main_address, fee_per_vbyte));
    }
    proof {
        assert(deducted <= 0xffff_ffff_ffff_ffff_ffff_ffff_ffff_fff0u128);
    }
    let ghost d = deducted as int;
    let ghost ng = nreq as int;

    let dn = nreq as u128;
    let mut bad: usize = nreq;
    let mut z: usize = 0;
    while z < nreq
        invariant_except_break
            z <= nreq,
            1 <= nreq == requests@.len(),
            dn == nreq as u128,
            d == deducted as int,
            ng == nreq as int,
            deducted <= 0xffff_ffff_ffff_ffff_ffff_ffff_ffff_fff0u128,
            bad == nreq,
            forall|j: int|
                0 <= j < z ==> (#[trigger] requests@[j].1) > share_of(d, ng, j),
        ensures
            bad < nreq ==> requests@[bad as int].1 <= share_of(d, ng, bad as int)
                && forall|j: int|
                0 <= j < bad ==> (#[trigger] requests@[j].1) > share_of(d, ng, j),
            bad >= nreq ==> forall|j: int|
                0 <= j < nreq as int ==> (#[trigger] requests@[j].1) > share_of(d, ng, j),
        decreases nreq - z,
    {
        proof {
            assert(deducted / dn <= deducted) by (nonlinear_arith)
                requires
                    dn >= 1,
            ;
        }
        let share: u128 = deducted / dn + (if (z as u128) < deducted % dn {
            1
        } else {
            0
        });
        proof {
            assert(share == share_of(d, ng, z as int));
        }
        if (requests[z].1 as u128) <= share {
            bad = z;
            break ;
        }
        z = z + 1;
    }
    if bad < nreq {
        proof {
            lemma_zero_index_from(requests@, d, 0);
            let zi = zero_index_from(requests@, d, 0);
            if zi == -1 {
                assert(requests@[bad as int].1 > share_of(d, ng, bad as int));
                assert(false);
            }
            if zi < bad {
                assert(requests@[zi].1 > share_of(d, ng, zi));
                assert(false);
            }
            if zi > bad {
                assert(requests@[bad as int].1 > share_of(d, ng, bad as int));
                assert(false);
            }
        }
        return Err(
            BuildTxError::ZeroOutput { address: requests[bad].0, amount: requests[bad].1 },
        );
    }
    proof {
        lemma_zero_index_from(requests@, d, 0);
        let zi = zero_index_from(requests@, d, 0);
        if zi != -1 {
            assert(requests@[zi].1 > share_of(d, ng, zi));
            assert(false);
        }
    }
    let mut fouts: Vec<TxOut> = Vec::new();
    let mut w: usize = 0;
    proof {
        assert(sum_amounts(requests@.take(0)) == 0);
        assert(shares_prefix(d, ng, 0) == 0);
    }
    while w < nreq
        invariant
            w <= nreq,
            1 <= nreq == requests@.len(),
            dn == nreq as u128,
            d == deducted as int,
            ng == nreq as int,
            deducted <= 0xffff_ffff_ffff_ffff_ffff_ffff_ffff_fff0u128,
            forall|j: int|
                0 <= j < nreq as int ==> (#[trigger] requests@[j].1) > share_of(d, ng, j),
            fouts@.len() == w,
            forall|j: int|
                #![trigger fouts@[j]]
                0 <= j < w ==> fouts@[j].address == requests@[j].0 && fouts@[j].value
                    == requests@[j].1 - share_of(d, ng, j),
            sum_out_values(fouts@) == sum_amounts(requests@.take(w as int)) - shares_prefix(
                d,
                ng,
                w as int,
            ),
        decreases nreq - w,
    {
        proof {
            assert(deducted / dn <= deducted) by (nonlinear_arith)
                requires
                    dn >= 1,
            ;
        }
        let share: u128 = deducted / dn + (if (w as u128) < deducted % dn {
            1
        } else {
            0
        });
        proof {
            assert(share == share_of(d, ng, w as int));
            assert(requests@[w as int].1 > share_of(d, ng, w as int));
        }
        let ghost prev = fouts@;
        let fo = TxOut {
            value: (requests[w].1 as u128 - share) as u64,
            address: requests[w].0,
        };
        fouts.push(fo);
        proof {
            assert(fouts@[w as int] == fo);
            lemma_sum_out_values_push(prev, fo);
            lemma_sum_amounts_take_step(requests@, w as int);
        }
        w = w + 1;
    }
    proof {
        assert(requests@.take(ng) =~= requests@);
        lemma_shares_prefix_total(d, ng);
        assert(sum_out_values(fouts@) == sum_amounts(requests@) - d);
    }
    let change_out: Option<ChangeOutput>;
    if has_change {
        let ghost prev = fouts@;
        let co = TxOut { value: change_value as u64, address: main_address };
        fouts.push(co);
        proof {
            lemma_sum_out_values_push(prev, co);
            assert(fouts@[ng] == co);
        }
        change_out = Some(ChangeOutput { vout: nreq as u64, value: change_value as u64 });
    } else {
        change_out = None;
    }
    let tx = UnsignedTransaction { inputs: prov.inputs, outputs: fouts, lock_time: 0 };
    *available_utxos = scratch;
    proof {
        assert(sum_out_values(tx.outputs@) == sum_utxo_values(sel) - builder_fee(
            requests@,
            s0,
            main_address,
            fee_per_vbyte,
        ));
    }
    Ok((tx, change_out, used))
}

} // verus!

