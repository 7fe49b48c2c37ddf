//! The UTXO and request ledger: the ordered set of available UTXOs, the
//! per-account UTXO sets, and the pending-withdrawal queue.
use vstd::prelude::*;

use crate::address::BitcoinAddress;
use crate::tx::OutPoint;

verus! {

use vstd::multiset::Multiset;

broadcast use {vstd::seq_lib::group_seq_properties, vstd::multiset::group_multiset_axioms};

/// The three Bitcoin network variants the minter can run against.
#[derive(Clone, Copy, Debug, PartialEq, Eq, Structural)]
pub enum Network {
    Mainnet,
    Testnet,
    Regtest,
}

/// The mathematical model of a UTXO: plain values only.
pub ghost struct UtxoV {
    pub txid: Seq<u8>,
    pub vout: u32,
    pub value: u64,
    pub height: u32,
}

/// An unspent transaction output owned by the minter.
#[derive(Clone, Debug, PartialEq, Eq, Hash)]
pub struct Utxo {
    pub outpoint: OutPoint,
    pub value: u64,
    pub height: u32,
}

impl View for Utxo {
    type V = UtxoV;

    open spec fn view(&self) -> UtxoV {
        UtxoV {
            txid: self.outpoint.txid@,
            vout: self.outpoint.vout,
            value: self.value,
            height: self.height,
        }
    }
}

/// Strict lexicographic order on byte strings.
pub open spec fn lex_lt(s: Seq<u8>, t: Seq<u8>) -> bool
    decreases s.len(),
{
    if t.len() == 0 {
        false
    } else if s.len() == 0 {
        true
    } else if s[0] < t[0] {
        true
    } else if s[0] > t[0] {
        false
    } else {
        lex_lt(s.drop_first(), t.drop_first())
    }
}

pub proof fn lemma_lex_trichotomy(s: Seq<u8>, t: Seq<u8>)
    ensures
        lex_lt(s, t) || lex_lt(t, s) || s =~= t,
        lex_lt(s, t) ==> !lex_lt(t, s),
        lex_lt(s, t) ==> !(s =~= t),
    decreases s.len() + t.len(),
{
    if t.len() == 0 || s.len() == 0 {
    } else if s[0] == t[0] {
        lemma_lex_trichotomy(s.drop_first(), t.drop_first());
        if s.drop_first() =~= t.drop_first() {
            assert(s =~= t);
        }
        if s =~= t {
            assert(s.drop_first() =~= t.drop_first());
        }
    }
}

pub proof fn lemma_lex_transitive(a: Seq<u8>, b: Seq<u8>, c: Seq<u8>)
    requires
        lex_lt(a, b),
        lex_lt(b, c),
    ensures
        lex_lt(a, c),
    decreases a.len() + b.len() + c.len(),
{
    if b.len() == 0 || c.len() == 0 {
    } else if a.len() == 0 {
    } else if a[0] == b[0] && b[0] == c[0] {
        lemma_lex_transitive(a.drop_first(), b.drop_first(), c.drop_first());
    }
}

/// If the first `k` bytes agree, the order is decided by the rest.
pub proof fn lemma_lex_skip(s: Seq<u8>, t: Seq<u8>, k: int)
    requires
        0 <= k <= s.len(),
        k <= t.len(),
        forall|j: int| 0 <= j < k ==> s[j] == t[j],
    ensures
        lex_lt(s, t) == lex_lt(s.skip(k), t.skip(k)),
    decreases k,
{
    if k > 0 && s.len() > 0 && t.len() > 0 {
        assert(s[0] == t[0]);
        lemma_lex_skip(s.drop_first(), t.drop_first(), k - 1);
        assert(s.drop_first().skip(k - 1) =~= s.skip(k));
        assert(t.drop_first().skip(k - 1) =~= t.skip(k));
    }
}

/// The total order UTXOs live under: by value, then txid, then output index.
pub open spec fn utxo_lt(a: UtxoV, b: UtxoV) -> bool {
    ||| a.value < b.value
    ||| (a.value == b.value && lex_lt(a.txid, b.txid))
    ||| (a.value == b.value && a.txid =~= b.txid && a.vout < b.vout)
}

/// The two models name the same output slot with the same value.
pub open spec fn utxo_key_eq(a: UtxoV, b: UtxoV) -> bool {
    a.value == b.value && a.txid =~= b.txid && a.vout == b.vout
}

pub proof fn lemma_utxo_order_trichotomy(a: UtxoV, b: UtxoV)
    ensures
        utxo_lt(a, b) || utxo_lt(b, a) || utxo_key_eq(a, b),
        utxo_lt(a, b) ==> !utxo_lt(b, a),
        utxo_lt(a, b) ==> !utxo_key_eq(a, b),
{
    lemma_lex_trichotomy(a.txid, b.txid);
}

pub proof fn lemma_utxo_order_transitive(a: UtxoV, b: UtxoV, c: UtxoV)
    requires
        utxo_lt(a, b),
        utxo_lt(b, c),
    ensures
        utxo_lt(a, c),
{
    if a.value == b.value && b.value == c.value {
        lemma_lex_trichotomy(a.txid, b.txid);
        lemma_lex_trichotomy(b.txid, c.txid);
        if lex_lt(a.txid, b.txid) && lex_lt(b.txid, c.txid) {
            lemma_lex_transitive(a.txid, b.txid, c.txid);
        }
    }
}

/// Strictly sorted under the UTXO order: no two elements share a key.
pub open spec fn sorted_utxos(s: Seq<UtxoV>) -> bool {
    forall|i: int, j: int| 0 <= i < j < s.len() ==> utxo_lt(s[i], s[j])
}

/// The total satoshi value of a sequence of UTXO models.
pub open spec fn sum_utxo_values(s: Seq<UtxoV>) -> int
    decreases s.len(),
{
    if s.len() == 0 {
        0
    } else {
        sum_utxo_values(s.drop_last()) + s.last().value
    }
}

pub proof fn lemma_sum_utxo_values_nonneg(s: Seq<UtxoV>)
    ensures
        sum_utxo_values(s) >= 0,
    decreases s.len(),
{
    if s.len() > 0 {
        lemma_sum_utxo_values_nonneg(s.drop_last());
    }
}

pub proof fn lemma_sum_utxo_values_remove(s: Seq<UtxoV>, i: int)
    requires
        0 <= i < s.len(),
    ensures
        sum_utxo_values(s) == sum_utxo_values(s.remove(i)) + s[i].value,
    decreases s.len(),
{
    if i == s.len() - 1 {
        assert(s.remove(i) =~= s.drop_last());
    } else {
        assert(s.remove(i).drop_last() =~= s.drop_last().remove(i));
        assert(s.remove(i).last() == s.last());
        lemma_sum_utxo_values_remove(s.drop_last(), i);
    }
}

pub proof fn lemma_sum_utxo_values_insert(s: Seq<UtxoV>, i: int, u: UtxoV)
    requires
        0 <= i <= s.len(),
    ensures
        sum_utxo_values(s.insert(i, u)) == sum_utxo_values(s) + u.value,
{
    assert(s.insert(i, u).remove(i) =~= s);
    lemma_sum_utxo_values_remove(s.insert(i, u), i);
}

/// Whether byte string `a` sorts strictly before `b`.
fn bytes_lt(a: &Vec<u8>, b: &Vec<u8>) -> (r: bool)
    ensures
        r == lex_lt(a@, b@),
{
    let la = a.len();
    let lb = b.len();
    let mut k: usize = 0;
    while k < la && k < lb && a[k] == b[k]
        invariant
            k <= la,
            k <= lb,
            la == a@.len(),
            lb == b@.len(),
            forall|j: int| 0 <= j < k ==> a@[j] == b@[j],
        decreases la - k,
    {
        k = k + 1;
    }
    proof {
        lemma_lex_skip(a@, b@, k as int);
    }
    if k < la && k < lb {
        a[k] < b[k]
    } else {
        k == la && k < lb
    }
}

/// Whether two byte strings hold the same bytes.
fn bytes_eq(a: &Vec<u8>, b: &Vec<u8>) -> (r: bool)
    ensures
        r == (a@ =~= b@),
{
    let la = a.len();
    let lb = b.len();
    if la != lb {
        return false;
    }
    let mut k: usize = 0;
    while k < la
        invariant
            k <= la,
            la == a@.len(),
            la == b@.len(),
            forall|j: int| 0 <= j < k ==> a@[j] == b@[j],
        decreases la - k,
    {
        if a[k] != b[k] {
            return false;
        }
        k = k + 1;
    }
    true
}

/// Whether `a` sorts strictly before `b` under the UTXO order.
fn utxo_lt_exec(a: &Utxo, b: &Utxo) -> (r: bool)
    ensures
        r == utxo_lt(a@, b@),
{
    if a.value != b.value {
        return a.value < b.value;
    }
    proof {
        lemma_lex_trichotomy(a.outpoint.txid@, b.outpoint.txid@);
    }
    if bytes_eq(&a.outpoint.txid, &b.outpoint.txid) {
        a.outpoint.vout < b.outpoint.vout
    } else {
        bytes_lt(&a.outpoint.txid, &b.outpoint.txid)
    }
}

/// Where the transaction builder placed the minter's own change output, so
/// the ledger can credit that UTXO back to itself once the transaction
/// confirms.
#[derive(Clone, Copy, Debug, PartialEq, Eq, Structural)]
pub struct ChangeOutput {
    /// The index of the change output in the built transaction.
    pub vout: u64,
    /// Its value in satoshi.
    pub value: u64,
}

/// An ordered set of UTXOs, strictly sorted by value, txid and output index.
#[derive(Debug)]
pub struct UtxoSet {
    items: Vec<Utxo>,
}

impl View for UtxoSet {
    type V = Seq<UtxoV>;

    closed spec fn view(&self) -> Seq<UtxoV> {
        self.items@.map(|_k: int, u: Utxo| u@)
    }
}

impl UtxoSet {
    /// The representation really is strictly sorted.
    pub closed spec fn wf(&self) -> bool {
        sorted_utxos(self@)
    }

    /// What a well-formed set looks like to callers: its elements stand in
    /// strictly increasing UTXO order, so positions are determined.
    pub proof fn lemma_wf_sorted(&self)
        requires
            self.wf(),
        ensures
            sorted_utxos(self@),
    {
    }

    pub fn new() -> (r: Self)
        ensures
            r.wf(),
            r@ =~= Seq::<UtxoV>::empty(),
    {
        let r = UtxoSet { items: Vec::new() };
        assert(r@ =~= Seq::<UtxoV>::empty());
        r
    }

    pub fn len(&self) -> (r: usize)
        ensures
            r == self@.len(),
    {
        self.items.len()
    }

    pub fn get(&self, i: usize) -> (r: &Utxo)
        requires
            i < self@.len(),
        ensures
            r@ == self@[i as int],
    {
        &self.items[i]
    }

    /// The total value held in the set.
    pub fn total_value(&self) -> (r: u128)
        ensures
            r == sum_utxo_values(self@),
    {
        let n = self.items.len();
        let mut sum: u128 = 0;
        let mut k: usize = 0;
        assert(self@.take(0) =~= Seq::<UtxoV>::empty());
        while k < n
            invariant
                k <= n,
                n == self@.len(),
                n == self.items@.len(),
                sum == sum_utxo_values(self@.take(k as int)),
                sum <= k * 0xffff_ffff_ffff_ffffu64,
            decreases n - k,
        {
            proof {
                assert(self@.take(k + 1).drop_last() =~= self@.take(k as int));
                assert((k + 1) * 0xffff_ffff_ffff_ffffu64 == k * 0xffff_ffff_ffff_ffffu64
                    + 0xffff_ffff_ffff_ffffu64) by (nonlinear_arith);
                assert(k * 0xffff_ffff_ffff_ffffu64 <= (usize::MAX as int)
                    * 0xffff_ffff_ffff_ffffu64) by (nonlinear_arith)
                    requires
                        0 <= k <= usize::MAX as int,
                ;
            }
            sum = sum + self.items[k].value as u128;
            k = k + 1;
        }
        assert(self@.take(n as int) =~= self@);
        sum
    }

    /// A fresh set holding the same UTXOs.
    pub fn duplicate(&self) -> (r: UtxoSet)
        ensures
            r@ =~= self@,
            self.wf() ==> r.wf(),
    {
        let n = self.items.len();
        let mut items: Vec<Utxo> = Vec::new();
        let mut k: usize = 0;
        while k < n
            invariant
                k <= n,
                n == self.items@.len(),
                items@.len() == k,
                forall|j: int| 0 <= j < k ==> items@[j]@ == self.items@[j]@,
            decreases n - k,
        {
            let u = &self.items[k];
            let copy = Utxo {
                outpoint: OutPoint { txid: u.outpoint.txid.clone(), vout: u.outpoint.vout },
                value: u.value,
                height: u.height,
            };
            assert(copy.outpoint.txid@ =~= u.outpoint.txid@);
            items.push(copy);
            k = k + 1;
        }
        let r = UtxoSet { items };
        assert(r@ =~= self@);
        r
    }

    /// Removes and returns the element at position `i`.
    pub fn remove_at(&mut self, i: usize) -> (r: Utxo)
        requires
            old(self).wf(),
            i < old(self)@.len(),
        ensures
            final(self).wf(),
            r@ == old(self)@[i as int],
            final(self)@ =~= old(self)@.remove(i as int),
    {
        let r = self.items.remove(i);
        proof {
            assert(self.items@.map(|_k: int, u: Utxo| u@) =~= old(self)@.remove(i as int));
        }
        r
    }

    /// Whether some element of the set spends the given outpoint.
    pub fn contains_outpoint(&self, txid: &Vec<u8>, vout: u32) -> (r: bool)
        ensures
            r == exists|j: int|
                0 <= j < self@.len() && self@[j].txid =~= txid@ && self@[j].vout == vout,
    {
        let n = self.items.len();
        let mut k: usize = 0;
        while k < n
            invariant
                k <= n,
                n == self@.len(),
                n == self.items@.len(),
                forall|j: int|
                    0 <= j < k ==> !(self@[j].txid =~= txid@ && self@[j].vout == vout),
            decreases n - k,
        {
            if self.items[k].outpoint.vout == vout && bytes_eq(
                &self.items[k].outpoint.txid,
                txid,
            ) {
                proof {
                    let w = k as int;
                    assert(0 <= w < self@.len() && self@[w].txid =~= txid@
                        && self@[w].vout == vout);
                }
                return true;
            }
            k = k + 1;
        }
        false
    }

    /// Inserts `u` at its sorted position; an element with the same key
    /// leaves the set unchanged. Returns whether the set grew.
    pub fn insert(&mut self, u: Utxo) -> (grew: bool)
        requires
            old(self).wf(),
        ensures
            final(self).wf(),
            grew == !(exists|j: int|
                0 <= j < old(self)@.len() && utxo_key_eq(old(self)@[j], u@)),
            grew ==> exists|p: int|
                0 <= p <= old(self)@.len() && final(self)@ =~= old(self)@.insert(p, u@)
                    && (forall|i: int| 0 <= i < p ==> utxo_lt(#[trigger] old(self)@[i], u@))
                    && (forall|i: int|
                    p <= i < old(self)@.len() ==> utxo_lt(u@, #[trigger] old(self)@[i])),
            !grew ==> final(self)@ =~= old(self)@,
            sum_utxo_values(final(self)@) == sum_utxo_values(old(self)@) + (if grew {
                u.value as int
            } else {
                0int
            }),
    {
        let n = self.items.len();
        let mut k: usize = 0;
        while k < n && utxo_lt_exec(&self.items[k], &u)
            invariant
                k <= n,
                n == self@.len(),
                n == self.items@.len(),
                forall|j: int| 0 <= j < k ==> utxo_lt(self@[j], u@),
            decreases n - k,
        {
            k = k + 1;
        }
        proof {
            lemma_sum_utxo_values_insert(self@, k as int, u@);
        }
        if k < n {
            let same = self.items[k].value == u.value && self.items[k].outpoint.vout
                == u.outpoint.vout && bytes_eq(&self.items[k].outpoint.txid, &u.outpoint.txid);
            if same {
                proof {
                    assert(utxo_key_eq(old(self)@[k as int], u@));
                    assert(forall|j: int|
                        k < j < n ==> utxo_lt(old(self)@[k as int], old(self)@[j]));
                    assert forall|j: int|
                        0 <= j < old(self)@.len() && j != k implies !utxo_key_eq(
                        old(self)@[j],
                        u@,
                    ) by {
                        if j < k {
                            lemma_utxo_order_trichotomy(old(self)@[j], u@);
                        } else {
                            lemma_utxo_order_trichotomy(old(self)@[k as int], old(self)@[j]);
                            lemma_utxo_order_trichotomy(old(self)@[j], u@);
                        }
                    }
                }
                return false;
            }
            proof {
                lemma_utxo_order_trichotomy(self@[k as int], u@);
            }
        }
        proof {
            assert forall|j: int| 0 <= j < old(self)@.len() implies !utxo_key_eq(
                old(self)@[j],
                u@,
            ) by {
                if j < k {
                    lemma_utxo_order_trichotomy(old(self)@[j], u@);
                } else if j == k {
                    lemma_utxo_order_trichotomy(old(self)@[j], u@);
                } else {
                    assert(utxo_lt(u@, old(self)@[k as int]));
                    assert(utxo_lt(old(self)@[k as int], old(self)@[j]));
                    lemma_utxo_order_transitive(u@, old(self)@[k as int], old(self)@[j]);
                    lemma_utxo_order_trichotomy(old(self)@[j], u@);
                }
            }
        }
        let ghost pre = self@;
        proof {
            assert forall|m: int| k <= m < pre.len() implies utxo_lt(u@, pre[m]) by {
                if m > k {
                    lemma_utxo_order_transitive(u@, pre[k as int], pre[m]);
                }
            }
        }
        self.items.insert(k, u);
        proof {
            assert(self@ =~= pre.insert(k as int, u@));
            assert forall|i: int, j: int| 0 <= i < j < self@.len() implies utxo_lt(
                self@[i],
                self@[j],
            ) by {
                if i < k && j < k {
                } else if i < k && j == k {
                    assert(self@[j] == u@);
                } else if i == k {
                    assert(self@[j] == pre[j - 1]);
                } else if i < k && j > k {
                    assert(self@[i] == pre[i] && self@[j] == pre[j - 1]);
                } else {
                    assert(self@[i] == pre[i - 1] && self@[j] == pre[j - 1]);
                }
            }
        }
        true
    }
}

/// An account owning UTXOs: the owner's principal bytes plus an optional
/// 32-byte subaccount.
#[derive(Clone, Debug)]
pub struct Account {
    pub owner: Vec<u8>,
    pub subaccount: Option<[u8; 32]>,
}

/// Whether two accounts name the same owner and subaccount.
pub open spec fn same_account(a: Account, b: Account) -> bool {
    &&& a.owner@ =~= b.owner@
    &&& match (a.subaccount, b.subaccount) {
        (None, None) => true,
        (Some(x), Some(y)) => x@ =~= y@,
        _ => false,
    }
}

/// Whether two accounts name the same owner and subaccount.
fn account_eq(a: &Account, b: &Account) -> (r: bool)
    ensures
        r == same_account(*a, *b),
{
    if !bytes_eq(&a.owner, &b.owner) {
        return false;
    }
    match (&a.subaccount, &b.subaccount) {
        (None, None) => true,
        (Some(xr), Some(yr)) => {
            let x = *xr;
            let y = *yr;
            proof {
                assert(a.subaccount == Some(x));
                assert(b.subaccount == Some(y));
            }
            let mut k: usize = 0;
            while k < 32
                invariant
                    k <= 32,
                    a.subaccount == Some(x),
                    b.subaccount == Some(y),
                    forall|j: int| 0 <= j < k ==> x@[j] == y@[j],
                decreases 32 - k,
            {
                if x[k] != y[k] {
                    proof {
                        if same_account(*a, *b) {
                            assert(x@ =~= y@);
                            assert(false);
                        }
                    }
                    return false;
                }
                k = k + 1;
            }
            assert(x@ =~= y@);
            true
        },
        _ => false,
    }
}

/// A pending withdrawal: how much, where to, under which ledger block
/// index, and when it arrived.
#[derive(Clone, Copy, Debug, PartialEq, Eq)]
pub struct RetrieveBtcRequest {
    pub amount: u64,
    pub address: BitcoinAddress,
    pub block_index: u64,
    pub received_at: u64,
}

/// What this subsystem knows about a withdrawal request.
#[derive(Clone, Copy, Debug, PartialEq, Eq, Structural)]
pub enum RetrieveBtcStatus {
    /// Nothing: the request left this subsystem (or never entered it).
    Unknown,
    /// The request is waiting in the pending queue.
    Pending,
}

/// How many confirmations the minter asks for when none are configured.
pub const DEFAULT_MIN_CONFIRMATIONS: u32 = 6;

/// The configuration the minter state starts from.
#[derive(Clone, Debug)]
pub struct InitArgs {
    pub btc_network: Network,
    pub ecdsa_key_name: String,
    pub retrieve_btc_min_amount: u64,
    pub ledger_id: u64,
    pub max_time_in_queue_nanos: u64,
    pub min_confirmations: Option<u32>,
}

/// The satoshi total asked for by a queue of withdrawal requests.
pub open spec fn sum_request_amounts(s: Seq<RetrieveBtcRequest>) -> int
    decreases s.len(),
{
    if s.len() == 0 {
        0
    } else {
        sum_request_amounts(s.drop_last()) + s.last().amount
    }
}

/// A queue sorted by arrival time, oldest first.
pub open spec fn queue_sorted(s: Seq<RetrieveBtcRequest>) -> bool {
    forall|i: int, j: int| 0 <= i < j < s.len() ==> s[i].received_at <= s[j].received_at
}

/// Whether some element of `s` spends the given outpoint.
pub open spec fn tracks_outpoint(s: Seq<UtxoV>, txid: Seq<u8>, vout: u32) -> bool {
    exists|m: int| 0 <= m < s.len() && (#[trigger] s[m]).txid =~= txid && s[m].vout == vout
}

/// The UTXOs of all accounts, pooled.
pub open spec fn accounts_multiset(s: Seq<(Account, UtxoSet)>) -> Multiset<UtxoV>
    decreases s.len(),
{
    if s.len() == 0 {
        Multiset::empty()
    } else {
        accounts_multiset(s.drop_last()).add(s.last().1@.to_multiset())
    }
}

pub proof fn lemma_accounts_multiset_push(s: Seq<(Account, UtxoSet)>, p: (Account, UtxoSet))
    ensures
        accounts_multiset(s.push(p)) =~= accounts_multiset(s).add(p.1@.to_multiset()),
{
    assert(s.push(p).drop_last() =~= s);
}

pub proof fn lemma_accounts_multiset_update(
    s: Seq<(Account, UtxoSet)>,
    j: int,
    p: (Account, UtxoSet),
)
    requires
        0 <= j < s.len(),
    ensures
        accounts_multiset(s.update(j, p)).add(s[j].1@.to_multiset())
            =~= accounts_multiset(s).add(p.1@.to_multiset()),
    decreases s.len(),
{
    if j == s.len() - 1 {
        assert(s.update(j, p).drop_last() =~= s.drop_last());
        assert(s.update(j, p).last() == p);
        assert(s[j] == s.last());
        assert(accounts_multiset(s.update(j, p)) == accounts_multiset(s.drop_last()).add(
            p.1@.to_multiset(),
        ));
        assert(accounts_multiset(s) == accounts_multiset(s.drop_last()).add(
            s[j].1@.to_multiset(),
        ));
        assert(accounts_multiset(s.drop_last()).add(p.1@.to_multiset()).add(
            s[j].1@.to_multiset(),
        ) =~= accounts_multiset(s.drop_last()).add(s[j].1@.to_multiset()).add(
            p.1@.to_multiset(),
        ));
    } else {
        lemma_accounts_multiset_update(s.drop_last(), j, p);
        assert(s.update(j, p).drop_last() =~= s.drop_last().update(j, p));
        assert(s.update(j, p).last() == s.last());
        assert(s.drop_last()[j] == s[j]);
        assert(accounts_multiset(s.update(j, p)) == accounts_multiset(
            s.drop_last().update(j, p),
        ).add(s.last().1@.to_multiset()));
        assert(accounts_multiset(s) == accounts_multiset(s.drop_last()).add(
            s.last().1@.to_multiset(),
        ));
        assert(accounts_multiset(s.drop_last().update(j, p)).add(
            s.last().1@.to_multiset(),
        ).add(s[j].1@.to_multiset()) =~= accounts_multiset(s.drop_last().update(j, p)).add(
            s[j].1@.to_multiset(),
        ).add(s.last().1@.to_multiset()));
        assert(accounts_multiset(s.drop_last()).add(p.1@.to_multiset()).add(
            s.last().1@.to_multiset(),
        ) =~= accounts_multiset(s.drop_last()).add(s.last().1@.to_multiset()).add(
            p.1@.to_multiset(),
        ));
    }
}

pub proof fn lemma_accounts_multiset_component(s: Seq<(Account, UtxoSet)>, j: int, v: UtxoV)
    requires
        0 <= j < s.len(),
    ensures
        s[j].1@.to_multiset().count(v) <= accounts_multiset(s).count(v),
    decreases s.len(),
{
    if j < s.len() - 1 {
        lemma_accounts_multiset_component(s.drop_last(), j, v);
        assert(s.drop_last()[j] == s[j]);
    }
}

/// The total number of UTXOs across all account sets.
pub open spec fn accounts_total_len(s: Seq<(Account, UtxoSet)>) -> int
    decreases s.len(),
{
    if s.len() == 0 {
        0
    } else {
        accounts_total_len(s.drop_last()) + s.last().1@.len()
    }
}

/// The UTXO custody and withdrawal-queue state of the minter.
#[derive(Debug)]
pub struct CkBtcMinterState {
    pub btc_network: Network,
    pub ecdsa_key_name: String,
    pub retrieve_btc_min_amount: u64,
    pub ledger_id: u64,
    pub max_time_in_queue_nanos: u64,
    pub min_confirmations: u32,
    /// Every UTXO the minter can spend, pooled over all accounts.
    pub available_utxos: UtxoSet,
    pub utxos_state_addresses: Vec<(Account, UtxoSet)>,
    pub pending_retrieve_btc_requests: Vec<RetrieveBtcRequest>,
}

impl CkBtcMinterState {
    /// The ledger's internal consistency: every set ordered, accounts
    /// distinct, the account sets together holding exactly the available
    /// pool, and the queue sorted by arrival.
    pub closed spec fn inv(&self) -> bool {
        &&& self.available_utxos.wf()
        &&& forall|i: int|
            0 <= i < self.utxos_state_addresses@.len()
                ==> (#[trigger] self.utxos_state_addresses@[i]).1.wf()
        &&& forall|i: int, j: int|
            0 <= i < j < self.utxos_state_addresses@.len() ==> !same_account(
                (#[trigger] self.utxos_state_addresses@[i]).0,
                (#[trigger] self.utxos_state_addresses@[j]).0,
            )
        &&& accounts_multiset(self.utxos_state_addresses@)
            =~= self.available_utxos@.to_multiset()
        &&& queue_sorted(self.pending_retrieve_btc_requests@)
    }

    /// The pending queue, oldest first.
    pub closed spec fn queue(&self) -> Seq<RetrieveBtcRequest> {
        self.pending_retrieve_btc_requests@
    }

    /// A fresh state with no UTXOs and an empty queue.
    pub fn new(args: InitArgs) -> (r: Self)
        ensures
            r.inv(),
            r.btc_network == args.btc_network,
            r.ecdsa_key_name@ == args.ecdsa_key_name@,
            r.retrieve_btc_min_amount == args.retrieve_btc_min_amount,
            r.ledger_id == args.ledger_id,
            r.max_time_in_queue_nanos == args.max_time_in_queue_nanos,
            r.min_confirmations == (match args.min_confirmations {
                Some(c) => c,
                None => DEFAULT_MIN_CONFIRMATIONS,
            }),
            r.available_utxos@ =~= Seq::<UtxoV>::empty(),
            r.queue() =~= Seq::<RetrieveBtcRequest>::empty(),
    {
        let min_confirmations = match args.min_confirmations {
            Some(c) => c,
            None => DEFAULT_MIN_CONFIRMATIONS,
        };
        let r = CkBtcMinterState {
            btc_network: args.btc_network,
            ecdsa_key_name: args.ecdsa_key_name,
            retrieve_btc_min_amount: args.retrieve_btc_min_amount,
            ledger_id: args.ledger_id,
            max_time_in_queue_nanos: args.max_time_in_queue_nanos,
            min_confirmations,
            available_utxos: UtxoSet::new(),
            utxos_state_addresses: Vec::new(),
            pending_retrieve_btc_requests: Vec::new(),
        };
        proof {
            broadcast use vstd::seq_lib::group_to_multiset_ensures;

            assert(accounts_multiset(r.utxos_state_addresses@) =~= r.available_utxos@.to_multiset());
        }
        r
    }

    /// Credits one UTXO to the account at position `j`, and to the global
    /// pool, unless its outpoint is already tracked.
    #[verifier::rlimit(100)]
    fn add_one_utxo(&mut self, j: usize, utxo: Utxo)
        requires
            old(self).inv(),
            j < old(self).utxos_state_addresses@.len(),
        ensures
            final(self).inv(),
            final(self).utxos_state_addresses@.len()
                == old(self).utxos_state_addresses@.len(),
            final(self).queue() =~= old(self).queue(),
            forall|v: UtxoV|
                old(self).available_utxos@.to_multiset().count(v) <= #[trigger] final(self).available_utxos@.to_multiset().count(v),
            forall|v: UtxoV|
                #[trigger] final(self).available_utxos@.to_multiset().count(v) <= old(
                    self,
                ).available_utxos@.to_multiset().count(v) + (if v == utxo@ {
                    1int
                } else {
                    0int
                }),
            forall|i: int|
                0 <= i < old(self).utxos_state_addresses@.len()
                    ==> (#[trigger] final(self).utxos_state_addresses@[i]).0 == old(
                    self,
                ).utxos_state_addresses@[i].0,
            tracks_outpoint(
                final(self).available_utxos@,
                utxo.outpoint.txid@,
                utxo.outpoint.vout,
            ),
    {
        broadcast use vstd::seq_lib::group_to_multiset_ensures;

        if self.available_utxos.contains_outpoint(&utxo.outpoint.txid, utxo.outpoint.vout) {
            proof {
                assert(tracks_outpoint(
                    self.available_utxos@,
                    utxo.outpoint.txid@,
                    utxo.outpoint.vout,
                ));
            }
            return ;
        }
        let copy = Utxo {
            outpoint: OutPoint {
                txid: utxo.outpoint.txid.clone(),
                vout: utxo.outpoint.vout,
            },
            value: utxo.value,
            height: utxo.height,
        };
        proof {
            assert(copy@.txid =~= utxo@.txid);
            assert(copy@ == utxo@);
        }
        let ghost pre_avail = self.available_utxos@;
        let grew = self.available_utxos.insert(copy);
        proof {
            assert forall|m: int|
                0 <= m < pre_avail.len() implies !utxo_key_eq(
                pre_avail[m],
                utxo@,
            ) by {
                if pre_avail[m].txid =~= utxo.outpoint.txid@ && pre_avail[m].vout
                    == utxo.outpoint.vout {
                    assert(false);
                }
            }
            assert(grew);
            let p = choose|p: int|
                0 <= p <= pre_avail.len() && self.available_utxos@ =~= pre_avail.insert(
                    p,
                    utxo@,
                );
            lemma_seq_insert_multiset(pre_avail, p, utxo@);
        }
        let ghost pre_accounts = self.utxos_state_addresses@;
        let pair = self.utxos_state_addresses.remove(j);
        let acct = pair.0;
        let mut set = pair.1;
        let ghost pre_set = set@;
        let grew2 = set.insert(utxo);
        proof {
            assert forall|m: int| 0 <= m < pre_set.len() implies !utxo_key_eq(
                pre_set[m],
                utxo@,
            ) by {
                let w = pre_set[m];
                assert(pre_set.contains(w));
                assert(pre_set.to_multiset().count(w) > 0);
                lemma_accounts_multiset_component(pre_accounts, j as int, w);
                assert(pre_accounts[j as int].1@ == pre_set);
                assert(pre_avail.to_multiset().count(w) > 0);
                assert(pre_avail.contains(w));
                if utxo_key_eq(w, utxo@) {
                    let m2 = choose|m2: int|
                        0 <= m2 < pre_avail.len() && pre_avail[m2] == w;
                    assert(false);
                }
            }
            assert(grew2);
            let p2 = choose|p2: int|
                0 <= p2 <= pre_set.len() && set@ =~= pre_set.insert(p2, utxo@);
            lemma_seq_insert_multiset(pre_set, p2, utxo@);
        }
        self.utxos_state_addresses.insert(j, (acct, set));
        proof {
            assert(self.utxos_state_addresses@ =~= pre_accounts.update(
                j as int,
                (acct, set),
            ));
            lemma_accounts_multiset_update(pre_accounts, j as int, (acct, set));
            let upd = self.utxos_state_addresses@;
            let l = pre_set.to_multiset();
            let snew = set@.to_multiset();
            assert(pre_accounts[j as int].1@ == pre_set);
            assert(accounts_multiset(upd).add(l) == accounts_multiset(pre_accounts).add(
                snew,
            ));
            assert(snew == l.insert(utxo@));
            assert(self.available_utxos@.to_multiset() == pre_avail.to_multiset().insert(
                utxo@,
            ));
            assert(accounts_multiset(pre_accounts) == pre_avail.to_multiset());
            assert forall|v: UtxoV|
                accounts_multiset(upd).count(v)
                    == self.available_utxos@.to_multiset().count(v) by {
                assert(accounts_multiset(upd).add(l).count(v) == accounts_multiset(
                    upd,
                ).count(v) + l.count(v));
                assert(accounts_multiset(pre_accounts).add(snew).count(v)
                    == accounts_multiset(pre_accounts).count(v) + snew.count(v));
                assert(l.insert(utxo@).count(v) == l.count(v) + (if v == utxo@ {
                    1int
                } else {
                    0int
                }));
                assert(pre_avail.to_multiset().insert(utxo@).count(v)
                    == pre_avail.to_multiset().count(v) + (if v == utxo@ {
                    1int
                } else {
                    0int
                }));
            }
            assert(accounts_multiset(self.utxos_state_addresses@)
                =~= self.available_utxos@.to_multiset());
            let p = choose|p: int|
                0 <= p <= pre_avail.len() && self.available_utxos@ =~= pre_avail.insert(
                    p,
                    utxo@,
                );
            assert(self.available_utxos@[p].txid =~= utxo.outpoint.txid@
                && self.available_utxos@[p].vout == utxo.outpoint.vout);
            assert(tracks_outpoint(
                self.available_utxos@,
                utxo.outpoint.txid@,
                utxo.outpoint.vout,
            ));
            assert forall|v: UtxoV|
                #[trigger] self.available_utxos@.to_multiset().count(v)
                    <= pre_avail.to_multiset().count(v) + (if v == utxo@ {
                    1int
                } else {
                    0int
                }) by {
                assert(self.available_utxos@.to_multiset() == pre_avail.to_multiset().insert(
                    utxo@,
                ));
            }
            assert(acct == pre_accounts[j as int].0);
            assert forall|i: int|
                0 <= i < pre_accounts.len() implies (#[trigger] self.utxos_state_addresses@[i]).0
                == pre_accounts[i].0 by {
                if i != j {
                    assert(self.utxos_state_addresses@[i] == pre_accounts[i]);
                }
            }
        }
    }

    /// Credits UTXOs to an account and to the global available pool; a UTXO
    /// whose outpoint is already tracked is left alone. Keeps every ledger
    /// invariant.
    #[verifier::rlimit(100)]
    pub fn add_utxos(&mut self, account: Account, utxos: Vec<Utxo>)
        requires
            old(self).inv(),
        ensures
            final(self).inv(),
            final(self).queue() =~= old(self).queue(),
            forall|v: UtxoV|
                old(self).available_utxos@.to_multiset().count(v) <= #[trigger] final(self).available_utxos@.to_multiset().count(v),
            forall|v: UtxoV|
                #[trigger] final(self).available_utxos@.to_multiset().count(v) <= old(
                    self,
                ).available_utxos@.to_multiset().count(v) + crate::utxo_views(
                    utxos@,
                ).to_multiset().count(v),
            exists|jj: int|
                0 <= jj < final(self).utxos_state_addresses@.len() && same_account(
                    (#[trigger] final(self).utxos_state_addresses@[jj]).0,
                    account,
                ),
            forall|k: int|
                #![trigger utxos@[k]]
                0 <= k < utxos@.len() ==> tracks_outpoint(
                    final(self).available_utxos@,
                    utxos@[k]@.txid,
                    utxos@[k]@.vout,
                ),
    {
        broadcast use vstd::seq_lib::group_to_multiset_ensures;

        let na = self.utxos_state_addresses.len();
        let mut j: usize = 0;
        let mut found = false;
        while j < na && !found
            invariant
                j <= na,
                na == self.utxos_state_addresses@.len(),
                found ==> j < na && same_account(
                    self.utxos_state_addresses@[j as int].0,
                    account,
                ),
                !found ==> forall|i0: int|
                    0 <= i0 < j ==> !same_account(
                        (#[trigger] self.utxos_state_addresses@[i0]).0,
                        account,
                    ),
            decreases na - j + (if found {
                0int
            } else {
                1int
            }),
        {
            if account_eq(&self.utxos_state_addresses[j].0, &account) {
                found = true;
            } else {
                j = j + 1;
            }
        }
        if !found {
            let ghost pre = self.utxos_state_addresses@;
            j = self.utxos_state_addresses.len();
            self.utxos_state_addresses.push((account, UtxoSet::new()));
            proof {
                lemma_accounts_multiset_push(pre, self.utxos_state_addresses@.last());
                assert forall|v: UtxoV|
                    self.utxos_state_addresses@.last().1@.to_multiset().count(v)
                        == 0 by {
                    assert(!self.utxos_state_addresses@.last().1@.contains(v));
                }
                assert(self.utxos_state_addresses@.last().1@.to_multiset() =~= Multiset::<
                    UtxoV,
                >::empty());
                assert(accounts_multiset(pre) == self.available_utxos@.to_multiset());
                assert(accounts_multiset(self.utxos_state_addresses@) == accounts_multiset(
                    pre,
                ).add(self.utxos_state_addresses@.last().1@.to_multiset()));
                assert(accounts_multiset(pre).add(
                    self.utxos_state_addresses@.last().1@.to_multiset(),
                ) == accounts_multiset(pre));
                assert(accounts_multiset(self.utxos_state_addresses@)
                    == self.available_utxos@.to_multiset());
                assert forall|i0: int, j0: int|
                    0 <= i0 < j0 < self.utxos_state_addresses@.len() implies !same_account(
                    (#[trigger] self.utxos_state_addresses@[i0]).0,
                    (#[trigger] self.utxos_state_addresses@[j0]).0,
                ) by {
                    if j0 == self.utxos_state_addresses@.len() - 1 {
                        assert(!same_account(pre[i0].0, account));
                    }
                }
                assert(self.utxos_state_addresses@[j as int].0 == account);
                assert(same_account(account, account));
            }
        }
        let n = utxos.len();
        let mut rest = utxos;
        let ghost all = rest@;
        let mut k: usize = 0;
        proof {
            assert(crate::utxo_views(all.take(0)) =~= Seq::<UtxoV>::empty());
            assert forall|v: UtxoV|
                crate::utxo_views(all.take(0)).to_multiset().count(v) == 0 by {
                assert(!crate::utxo_views(all.take(0)).contains(v));
            }
        }
        while k < n
            invariant
                k <= n,
                n == all.len(),
                rest@ =~= all.skip(k as int),
                self.inv(),
                j < self.utxos_state_addresses@.len(),
                self.queue() =~= old(self).queue(),
                forall|v: UtxoV|
                    old(self).available_utxos@.to_multiset().count(v)
                        <= #[trigger] self.available_utxos@.to_multiset().count(v),
                forall|kk: int|
                    #![trigger all[kk]]
                    0 <= kk < k ==> tracks_outpoint(
                        self.available_utxos@,
                        all[kk]@.txid,
                        all[kk]@.vout,
                    ),
                forall|v: UtxoV|
                    #[trigger] self.available_utxos@.to_multiset().count(v) <= old(
                        self,
                    ).available_utxos@.to_multiset().count(v) + crate::utxo_views(
                        all.take(k as int),
                    ).to_multiset().count(v),
                same_account(self.utxos_state_addresses@[j as int].0, account),
            decreases n - k,
        {
            let ghost pre_avail = self.available_utxos@;
            let u = rest.remove(0);
            proof {
                assert(all.skip(k as int)[0] == all[k as int]);
                assert(all.skip(k as int).drop_first() =~= all.skip(k + 1));
                assert(u == all[k as int]);
            }
            self.add_one_utxo(j, u);
            proof {
                assert(crate::utxo_views(all.take(k + 1)) =~= crate::utxo_views(
                    all.take(k as int),
                ).push(all[k as int]@));
                assert forall|v: UtxoV|
                    #[trigger] self.available_utxos@.to_multiset().count(v) <= old(
                        self,
                    ).available_utxos@.to_multiset().count(v) + crate::utxo_views(
                        all.take(k + 1),
                    ).to_multiset().count(v) by {
                    assert(crate::utxo_views(all.take(k + 1)).to_multiset()
                        =~= crate::utxo_views(all.take(k as int)).to_multiset().insert(
                        all[k as int]@,
                    ));
                    assert(self.available_utxos@.to_multiset().count(v)
                        <= pre_avail.to_multiset().count(v) + (if v == u@ {
                        1int
                    } else {
                        0int
                    }));
                }
                assert forall|kk: int|
                    #![trigger all[kk]]
                    0 <= kk < k + 1 implies tracks_outpoint(
                    self.available_utxos@,
                    all[kk]@.txid,
                    all[kk]@.vout,
                ) by {
                    if kk < k {
                        let m0 = choose|m0: int|
                            0 <= m0 < pre_avail.len() && (#[trigger] pre_avail[m0]).txid
                                =~= all[kk]@.txid && pre_avail[m0].vout == all[kk]@.vout;
                        let w = pre_avail[m0];
                        assert(pre_avail.contains(w));
                        assert(pre_avail.to_multiset().count(w) > 0);
                        assert(self.available_utxos@.to_multiset().count(w) > 0);
                        assert(self.available_utxos@.contains(w));
                        let m1 = choose|m1: int|
                            0 <= m1 < self.available_utxos@.len()
                                && self.available_utxos@[m1] == w;
                        assert(self.available_utxos@[m1].txid =~= all[kk]@.txid
                            && self.available_utxos@[m1].vout == all[kk]@.vout);
                    }
                }
            }
            k = k + 1;
        }
        proof {
            assert(all == utxos@);
            assert(all.take(n as int) =~= utxos@);
            assert forall|k2: int|
                #![trigger utxos@[k2]]
                0 <= k2 < utxos@.len() implies tracks_outpoint(
                self.available_utxos@,
                utxos@[k2]@.txid,
                utxos@[k2]@.vout,
            ) by {
                assert(all[k2] == utxos@[k2]);
                assert(tracks_outpoint(self.available_utxos@, all[k2]@.txid, all[k2]@.vout));
            }
            let jj = j as int;
            assert(0 <= jj < self.utxos_state_addresses@.len() && same_account(
                self.utxos_state_addresses@[jj].0,
                account,
            ));
        }
    }
}

/// Whether some queued request carries the given ledger block index.
pub open spec fn queue_has_block_index(s: Seq<RetrieveBtcRequest>, block_index: u64) -> bool {
    exists|i: int| 0 <= i < s.len() && (#[trigger] s[i]).block_index == block_index
}

pub proof fn lemma_sum_request_amounts_push(s: Seq<RetrieveBtcRequest>, r: RetrieveBtcRequest)
    ensures
        sum_request_amounts(s.push(r)) == sum_request_amounts(s) + r.amount,
{
    assert(s.push(r).drop_last() =~= s);
}

pub proof fn lemma_sum_utxo_values_bound(s: Seq<UtxoV>)
    ensures
        sum_utxo_values(s) <= s.len() * 0xffff_ffff_ffff_ffffu64,
    decreases s.len(),
{
    if s.len() > 0 {
        lemma_sum_utxo_values_bound(s.drop_last());
        assert(s.len() * 0xffff_ffff_ffff_ffffu64 == (s.len() - 1)
            * 0xffff_ffff_ffff_ffffu64 + 0xffff_ffff_ffff_ffffu64) by (nonlinear_arith);
    }
}

impl CkBtcMinterState {
    /// Appends a withdrawal request at its place in the arrival-ordered
    /// queue: after every request that did not arrive later, before the
    /// rest.
    pub fn push_back_pending_request(&mut self, req: RetrieveBtcRequest)
        requires
            old(self).inv(),
        ensures
            final(self).inv(),
            final(self).available_utxos@ =~= old(self).available_utxos@,
            exists|p: int|
                0 <= p <= old(self).queue().len() && final(self).queue() =~= old(self).queue().insert(p, req) && (forall|i: int|
                    0 <= i < p ==> (#[trigger] old(self).queue()[i]).received_at
                        <= req.received_at) && (forall|i: int|
                    p <= i < old(self).queue().len() ==> (#[trigger] old(self).queue()[i]).received_at > req.received_at),
            queue_has_block_index(final(self).queue(), req.block_index),
    {
        let n = self.pending_retrieve_btc_requests.len();
        let mut k: usize = 0;
        while k < n && self.pending_retrieve_btc_requests[k].received_at <= req.received_at
            invariant
                k <= n,
                n == self.pending_retrieve_btc_requests@.len(),
                forall|i: int|
                    0 <= i < k ==> (#[trigger] self.pending_retrieve_btc_requests@[i]).received_at
                        <= req.received_at,
            decreases n - k,
        {
            k = k + 1;
        }
        let ghost pre = self.pending_retrieve_btc_requests@;
        let ghost p = k as int;
        proof {
            assert forall|i: int|
                p <= i < pre.len() implies (#[trigger] pre[i]).received_at
                > req.received_at by {
                if i > p {
                    assert(pre[p].received_at <= pre[i].received_at);
                }
            }
        }
        self.pending_retrieve_btc_requests.insert(k, req);
        proof {
            let cur = self.pending_retrieve_btc_requests@;
            assert(cur =~= pre.insert(p, req));
            assert forall|i: int, j: int|
                0 <= i < j < cur.len() implies cur[i].received_at
                <= cur[j].received_at by {
                if i < p && j == p {
                } else if i == p && j > p {
                    assert(cur[j] == pre[j - 1]);
                } else if i < p && j > p {
                    assert(cur[i] == pre[i] && cur[j] == pre[j - 1]);
                } else if i > p && j > p {
                    assert(cur[i] == pre[i - 1] && cur[j] == pre[j - 1]);
                }
            }
            assert(cur[p].block_index == req.block_index);
            assert(pre == old(self).queue());
            assert(0 <= p <= old(self).queue().len() && cur =~= old(self).queue().insert(
                p,
                req,
            ) && (forall|i: int|
                0 <= i < p ==> (#[trigger] old(self).queue()[i]).received_at
                    <= req.received_at) && (forall|i: int|
                p <= i < old(self).queue().len() ==> (#[trigger] old(self).queue()[i]).received_at > req.received_at));
        }
    }

    /// Pending while the request sits in the queue; Unknown once it has
    /// left this subsystem.
    pub fn retrieve_btc_status(&self, block_index: u64) -> (r: RetrieveBtcStatus)
        ensures
            r == RetrieveBtcStatus::Pending <==> queue_has_block_index(
                self.queue(),
                block_index,
            ),
    {
        let n = self.pending_retrieve_btc_requests.len();
        let mut k: usize = 0;
        while k < n
            invariant
                k <= n,
                n == self.pending_retrieve_btc_requests@.len(),
                forall|i: int|
                    0 <= i < k ==> (#[trigger] self.pending_retrieve_btc_requests@[i]).block_index
                        != block_index,
            decreases n - k,
        {
            if self.pending_retrieve_btc_requests[k].block_index == block_index {
                return RetrieveBtcStatus::Pending;
            }
            k = k + 1;
        }
        RetrieveBtcStatus::Unknown
    }

    /// Takes the longest prefix of the pending queue whose amounts the
    /// available UTXOs can cover; what would overshoot stays queued.
    pub fn build_batch(&mut self) -> (batch: Vec<RetrieveBtcRequest>)
        requires
            old(self).inv(),
        ensures
            final(self).inv(),
            final(self).available_utxos@ =~= old(self).available_utxos@,
            batch@ + final(self).queue() =~= old(self).queue(),
            sum_request_amounts(batch@) <= sum_utxo_values(old(self).available_utxos@),
            final(self).queue().len() > 0 ==> sum_request_amounts(batch@) + final(self).queue()[0].amount > sum_utxo_values(old(self).available_utxos@),
    {
        let navail = self.available_utxos.len();
        proof {
            lemma_sum_utxo_values_bound(self.available_utxos@);
            assert((navail as int) * 0xffff_ffff_ffff_ffffu64 <= (0xffff_ffff_ffff_ffffu64
                as int) * 0xffff_ffff_ffff_ffffu64) by (nonlinear_arith)
                requires
                    0 <= navail as int <= 0xffff_ffff_ffff_ffffu64 as int,
            ;
            lemma_sum_utxo_values_nonneg(self.available_utxos@);
        }
        let total = self.available_utxos.total_value();
        let mut batch: Vec<RetrieveBtcRequest> = Vec::new();
        let mut sum: u128 = 0;
        while self.pending_retrieve_btc_requests.len() > 0 && sum
            + (self.pending_retrieve_btc_requests[0].amount as u128) <= total
            invariant
                old(self).inv(),
                self.inv(),
                total == sum_utxo_values(old(self).available_utxos@),
                total <= 0xffff_ffff_ffff_ffff_0000_0000_0000_0000u128,
                self.available_utxos@ =~= old(self).available_utxos@,
                self.utxos_state_addresses@ =~= old(self).utxos_state_addresses@,
                self.btc_network == old(self).btc_network,
                sum == sum_request_amounts(batch@),
                sum <= total,
                batch@ + self.queue() =~= old(self).queue(),
            decreases self.pending_retrieve_btc_requests@.len(),
        {
            let ghost pre_q = self.pending_retrieve_btc_requests@;
            let ghost pre_b = batch@;
            let req = self.pending_retrieve_btc_requests.remove(0);
            sum = sum + req.amount as u128;
            batch.push(req);
            proof {
                assert(pre_q[0] == req);
                assert(pre_q.remove(0) =~= pre_q.drop_first());
                lemma_sum_request_amounts_push(pre_b, req);
                assert(batch@ + self.pending_retrieve_btc_requests@ =~= pre_b + pre_q);
                assert forall|i: int, j: int|
                    0 <= i < j < self.pending_retrieve_btc_requests@.len() implies self.pending_retrieve_btc_requests@[i].received_at
                    <= self.pending_retrieve_btc_requests@[j].received_at by {
                    assert(self.pending_retrieve_btc_requests@[i] == pre_q[i + 1]);
                    assert(self.pending_retrieve_btc_requests@[j] == pre_q[j + 1]);
                }
            }
        }
        batch
    }

    /// Exactly what `check_invariants` verifies over the concrete data: the
    /// available pool strictly ordered, every account-held UTXO's outpoint
    /// tracked in the pool, the account sets together exactly as large as
    /// the pool, and the queue sorted by arrival. Outpoint uniqueness and
    /// per-account disjointness are not re-derivable from one snapshot;
    /// `add_utxos` enforces them as UTXOs come in.
    pub open spec fn checked_invariants(&self) -> bool {
        &&& sorted_utxos(self.available_utxos@)
        &&& forall|i: int, w: int|
            #![trigger self.utxos_state_addresses@[i].1@[w]]
            0 <= i < self.utxos_state_addresses@.len() && 0 <= w
                < self.utxos_state_addresses@[i].1@.len() ==> tracks_outpoint(
                self.available_utxos@,
                self.utxos_state_addresses@[i].1@[w].txid,
                self.utxos_state_addresses@[i].1@[w].vout,
            )
        &&& accounts_total_len(self.utxos_state_addresses@)
            == self.available_utxos@.len()
        &&& queue_sorted(self.queue())
    }

    /// Re-checks the ledger's consistency over the concrete data and
    /// returns the first violation found: it passes exactly on the states
    /// that satisfy [`Self::checked_invariants`], and every state
    /// satisfying the internal invariant does.
    #[verifier::rlimit(100)]
    pub fn check_invariants(&self) -> (r: Result<(), String>)
        ensures
            r is Ok <==> self.checked_invariants(),
            self.inv() ==> r is Ok,
    {
        let n = self.available_utxos.len();
        let mut k: usize = 1;
        while k < n
            invariant
                1 <= k,
                n == self.available_utxos@.len(),
                self.inv() ==> self.available_utxos.wf(),
                forall|i0: int, j0: int|
                    0 <= i0 < j0 < k ==> utxo_lt(
                        #[trigger] self.available_utxos@[i0],
                        #[trigger] self.available_utxos@[j0],
                    ),
            decreases n - k,
        {
            if !utxo_lt_exec(self.available_utxos.get(k - 1), self.available_utxos.get(k)) {
                proof {
                    assert(!sorted_utxos(self.available_utxos@));
                    if self.inv() {
                        assert(utxo_lt(
                            self.available_utxos@[k - 1],
                            self.available_utxos@[k as int],
                        ));
                    }
                }
                return Err("available UTXOs are out of order".to_string());
            }
            proof {
                assert forall|i0: int, j0: int|
                    0 <= i0 < j0 < k + 1 implies utxo_lt(
                    #[trigger] self.available_utxos@[i0],
                    #[trigger] self.available_utxos@[j0],
                ) by {
                    if j0 == k {
                        if i0 < k - 1 {
                            lemma_utxo_order_transitive(
                                self.available_utxos@[i0],
                                self.available_utxos@[k - 1],
                                self.available_utxos@[k as int],
                            );
                        }
                    }
                }
            }
            k = k + 1;
        }
        proof {
            assert(sorted_utxos(self.available_utxos@));
        }
        let na = self.utxos_state_addresses.len();
        let mut i: usize = 0;
        let mut accounted: u128 = 0;
        while i < na
            invariant
                i <= na,
                na == self.utxos_state_addresses@.len(),
                self.inv() ==> accounted == accounts_multiset(
                    self.utxos_state_addresses@.take(i as int),
                ).len(),
                accounted == accounts_total_len(self.utxos_state_addresses@.take(i as int)),
                accounted <= i * 0xffff_ffff_ffff_ffffu64,
                forall|i0: int, w0: int|
                    #![trigger self.utxos_state_addresses@[i0].1@[w0]]
                    0 <= i0 < i && 0 <= w0 < self.utxos_state_addresses@[i0].1@.len()
                        ==> tracks_outpoint(
                        self.available_utxos@,
                        self.utxos_state_addresses@[i0].1@[w0].txid,
                        self.utxos_state_addresses@[i0].1@[w0].vout,
                    ),
            decreases na - i,
        {
            let set_len = self.utxos_state_addresses[i].1.len();
            let mut w: usize = 0;
            while w < set_len
                invariant
                    w <= set_len,
                    i < na,
                    na == self.utxos_state_addresses@.len(),
                    set_len == self.utxos_state_addresses@[i as int].1@.len(),
                    forall|w0: int|
                        0 <= w0 < w ==> tracks_outpoint(
                            self.available_utxos@,
                            (#[trigger] self.utxos_state_addresses@[i as int].1@[w0]).txid,
                            self.utxos_state_addresses@[i as int].1@[w0].vout,
                        ),
                decreases set_len - w,
            {
                let u = self.utxos_state_addresses[i].1.get(w);
                if !self.available_utxos.contains_outpoint(&u.outpoint.txid, u.outpoint.vout) {
                    proof {
                        let uv = self.utxos_state_addresses@[i as int].1@[w as int];
                        assert(uv.txid =~= u.outpoint.txid@);
                        assert(!tracks_outpoint(self.available_utxos@, uv.txid, uv.vout));
                        assert(!self.checked_invariants());
                        if self.inv() {
                            broadcast use vstd::seq_lib::group_to_multiset_ensures;

                            assert(self.utxos_state_addresses@[i as int].1@.contains(uv));
                            lemma_accounts_multiset_component(
                                self.utxos_state_addresses@,
                                i as int,
                                uv,
                            );
                            assert(self.available_utxos@.to_multiset().count(uv) > 0);
                            assert(self.available_utxos@.contains(uv));
                            let m = choose|m: int|
                                0 <= m < self.available_utxos@.len()
                                    && self.available_utxos@[m] == uv;
                            assert(self.available_utxos@[m].txid =~= u.outpoint.txid@);
                            assert(false);
                        }
                    }
                    return Err("an account set holds an untracked UTXO".to_string());
                }
                proof {
                    let uv = self.utxos_state_addresses@[i as int].1@[w as int];
                    assert(uv.txid =~= u.outpoint.txid@);
                    assert(tracks_outpoint(self.available_utxos@, uv.txid, uv.vout));
                }
                w = w + 1;
            }
            proof {
                assert(self.utxos_state_addresses@.take(i + 1).drop_last()
                    =~= self.utxos_state_addresses@.take(i as int));
                broadcast use vstd::seq_lib::group_to_multiset_ensures;

                assert((i + 1) * 0xffff_ffff_ffff_ffffu64 == i * 0xffff_ffff_ffff_ffffu64
                    + 0xffff_ffff_ffff_ffffu64) by (nonlinear_arith);
                assert(i * 0xffff_ffff_ffff_ffffu64 <= (usize::MAX as int)
                    * 0xffff_ffff_ffff_ffffu64) by (nonlinear_arith)
                    requires
                        0 <= i <= usize::MAX as int,
                ;
            }
            accounted = accounted + set_len as u128;
            i = i + 1;
        }
        proof {
            assert(self.utxos_state_addresses@.take(na as int)
                =~= self.utxos_state_addresses@);
        }
        if accounted != self.available_utxos.len() as u128 {
            proof {
                assert(accounts_total_len(self.utxos_state_addresses@)
                    != self.available_utxos@.len());
                if self.inv() {
                    broadcast use vstd::seq_lib::group_to_multiset_ensures;

                    assert(accounted == accounts_multiset(self.utxos_state_addresses@).len());
                    assert(accounts_multiset(self.utxos_state_addresses@)
                        == self.available_utxos@.to_multiset());
                    assert(self.available_utxos@.to_multiset().len()
                        == self.available_utxos@.len());
                    assert(false);
                }
            }
            return Err("account sets and the available pool disagree".to_string());
        }
        let nq = self.pending_retrieve_btc_requests.len();
        let mut q: usize = 1;
        while q < nq
            invariant
                1 <= q,
                nq == self.pending_retrieve_btc_requests@.len(),
                forall|i0: int, j0: int|
                    0 <= i0 < j0 < q
                        ==> (#[trigger] self.pending_retrieve_btc_requests@[i0]).received_at
                        <= (#[trigger] self.pending_retrieve_btc_requests@[j0]).received_at,
            decreases nq - q,
        {
            if self.pending_retrieve_btc_requests[q - 1].received_at
                > self.pending_retrieve_btc_requests[q].received_at {
                proof {
                    assert(!queue_sorted(self.queue()));
                    if self.inv() {
                        assert(self.pending_retrieve_btc_requests@[q - 1].received_at
                            <= self.pending_retrieve_btc_requests@[q as int].received_at);
                    }
                }
                return Err("the pending queue is out of order".to_string());
            }
            proof {
                assert forall|i0: int, j0: int|
                    0 <= i0 < j0 < q + 1
                        implies (#[trigger] self.pending_retrieve_btc_requests@[i0]).received_at
                    <= (#[trigger] self.pending_retrieve_btc_requests@[j0]).received_at by {
                    if j0 == q && i0 < q - 1 {
                        assert(self.pending_retrieve_btc_requests@[i0].received_at
                            <= self.pending_retrieve_btc_requests@[q - 1].received_at);
                    }
                }
            }
            q = q + 1;
        }
        proof {
            assert(queue_sorted(self.queue()));
            assert(self.checked_invariants());
        }
        Ok(())
    }
}

impl vstd::std_specs::convert::FromSpecImpl<InitArgs> for CkBtcMinterState {
    open spec fn obeys_from_spec() -> bool {
        false
    }

    open spec fn from_spec(args: InitArgs) -> Self {
        choose|s: CkBtcMinterState| #[trigger] s.inv() || !s.inv()
    }
}

impl From<InitArgs> for CkBtcMinterState {
    fn from(args: InitArgs) -> Self {
        CkBtcMinterState::new(args)
    }
}

pub proof fn lemma_seq_insert_multiset(s: Seq<UtxoV>, p: int, x: UtxoV)
    requires
        0 <= p <= s.len(),
    ensures
        s.insert(p, x).to_multiset() =~= s.to_multiset().insert(x),
{
    broadcast use vstd::seq_lib::group_to_multiset_ensures;

    let t = s.insert(p, x);
    assert(t.remove(p) =~= s);
    assert(t.remove(p).to_multiset() =~= t.to_multiset().remove(t[p]));
    assert(t[p] == x);
    assert(t.contains(x));
    assert(t.to_multiset().count(x) > 0);
}

} // verus!
