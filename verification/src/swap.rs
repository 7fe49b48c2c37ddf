//! Validation rules and bookkeeping types for a token-swap sale: the sale
//! configuration, its parameter checks, buyer state, and the result records
//! of finalizing a sale.
use vstd::prelude::*;

verus! {

/// Seconds in one day.
pub const SECONDS_PER_DAY: u64 = 86_400;

/// The most direct participants one listing response may carry.
pub const MAX_LIST_DIRECT_PARTICIPANTS_LIMIT: u32 = 20_000;

/// Whether a string is a well-formed textual principal, as the candid
/// library defines it.
pub uninterp spec fn principal_ok(s: Seq<char>) -> bool;

/// Relies on candid::Principal::from_text: returns whether the text parses
/// as a principal, with the parser's message on failure.
#[verifier::external_body]
fn parse_principal(p: &str) -> (r: Result<(), String>)
    ensures
        r is Ok <==> principal_ok(p@),
{
    match candid::Principal::from_text(p) {
        Ok(_) => Ok(()),
        Err(e) => Err(e.to_string()),
    }
}

/// Whether the text is a well-formed principal.
pub fn is_valid_principal(p: &str) -> (r: bool)
    ensures
        r == principal_ok(p@),
{
    parse_principal(p).is_ok()
}

/// Checks that the text is a well-formed principal.
pub fn validate_principal(p: &str) -> (r: Result<(), String>)
    ensures
        r is Ok <==> principal_ok(p@),
{
    match parse_principal(p) {
        Ok(_) => Ok(()),
        Err(e) => Err(e),
    }
}

/// Checks that the text names a canister. A canister id is a principal;
/// no further shape check applies to the text, so this accepts exactly the
/// well-formed principals.
pub fn validate_canister_id(p: &str) -> (r: Result<(), String>)
    ensures
        r is Ok <==> principal_ok(p@),
{
    match parse_principal(p) {
        Ok(_) => Ok(()),
        Err(e) => Err(e),
    }
}

/// The initial configuration of a sale.
#[derive(Clone, Debug)]
pub struct Init {
    pub nns_governance_canister_id: String,
    pub sns_governance_canister_id: String,
    pub sns_root_canister_id: String,
    pub sns_ledger_canister_id: String,
    pub icp_ledger_canister_id: String,
    pub fallback_controller_principal_ids: Vec<String>,
    pub transaction_fee_e8s: Option<u64>,
    pub neuron_minimum_stake_e8s: Option<u64>,
}

impl Default for Init {
    fn default() -> (r: Self)
        ensures
            r.nns_governance_canister_id@ == Seq::<char>::empty(),
            r.sns_governance_canister_id@ == Seq::<char>::empty(),
            r.sns_root_canister_id@ == Seq::<char>::empty(),
            r.sns_ledger_canister_id@ == Seq::<char>::empty(),
            r.icp_ledger_canister_id@ == Seq::<char>::empty(),
            r.fallback_controller_principal_ids@ == Seq::<String>::empty(),
            r.transaction_fee_e8s is None,
            r.neuron_minimum_stake_e8s is None,
    {
        Init {
            nns_governance_canister_id: String::new(),
            sns_governance_canister_id: String::new(),
            sns_root_canister_id: String::new(),
            sns_ledger_canister_id: String::new(),
            icp_ledger_canister_id: String::new(),
            fallback_controller_principal_ids: Vec::new(),
            transaction_fee_e8s: None,
            neuron_minimum_stake_e8s: None,
        }
    }
}

/// Whether every fallback controller in `s` is a well-formed principal.
pub open spec fn all_principals_ok(s: Seq<String>) -> bool {
    forall|i: int| 0 <= i < s.len() ==> principal_ok((#[trigger] s[i])@)
}

/// Everything `Init::validate` checks.
pub open spec fn init_valid(init: Init) -> bool {
    &&& principal_ok(init.nns_governance_canister_id@)
    &&& principal_ok(init.sns_governance_canister_id@)
    &&& principal_ok(init.sns_ledger_canister_id@)
    &&& principal_ok(init.icp_ledger_canister_id@)
    &&& principal_ok(init.sns_root_canister_id@)
    &&& init.fallback_controller_principal_ids@.len() > 0
    &&& all_principals_ok(init.fallback_controller_principal_ids@)
    &&& init.transaction_fee_e8s is Some
    &&& init.neuron_minimum_stake_e8s is Some
}

impl Init {
    /// The configured ledger fee; the caller must know it is present.
    pub fn transaction_fee_e8s_or_panic(&self) -> (r: u64)
        requires
            self.transaction_fee_e8s is Some,
        ensures
            Some(r) == self.transaction_fee_e8s,
    {
        match self.transaction_fee_e8s {
            Some(fee) => fee,
            None => 0,
        }
    }

    /// Checks the five canister ids, the fallback controllers, and that
    /// both fee parameters are supplied.
    pub fn validate(&self) -> (r: Result<(), String>)
        ensures
            r is Ok <==> init_valid(*self),
    {
        if let Err(e) = validate_canister_id(self.nns_governance_canister_id.as_str()) {
            return Err(e);
        }
        if let Err(e) = validate_canister_id(self.sns_governance_canister_id.as_str()) {
            return Err(e);
        }
        if let Err(e) = validate_canister_id(self.sns_ledger_canister_id.as_str()) {
            return Err(e);
        }
        if let Err(e) = validate_canister_id(self.icp_ledger_canister_id.as_str()) {
            return Err(e);
        }
        if let Err(e) = validate_canister_id(self.sns_root_canister_id.as_str()) {
            return Err(e);
        }
        if self.fallback_controller_principal_ids.len() == 0 {
            return Err("at least one fallback controller required".to_string());
        }
        let n = self.fallback_controller_principal_ids.len();
        let mut k: usize = 0;
        while k < n
            invariant
                k <= n,
                n == self.fallback_controller_principal_ids@.len(),
                forall|i: int|
                    0 <= i < k ==> principal_ok(
                        (#[trigger] self.fallback_controller_principal_ids@[i])@,
                    ),
            decreases n - k,
        {
            if let Err(e) = validate_principal(
                self.fallback_controller_principal_ids[k].as_str(),
            ) {
                return Err(e);
            }
            k = k + 1;
        }
        if self.transaction_fee_e8s.is_none() {
            return Err("transaction_fee_e8s is required.".to_string());
        }
        if self.neuron_minimum_stake_e8s.is_none() {
            return Err("neuron_minimum_stake_e8s is required.".to_string());
        }
        Ok(())
    }
}

/// How many neurons a participant's investment is split into, and how far
/// apart their dissolve delays sit.
#[derive(Clone, Copy, Debug, PartialEq, Eq, Structural)]
pub struct NeuronBasketConstructionParameters {
    pub count: u64,
    pub dissolve_delay_interval_seconds: u64,
}

/// The tunable parameters of one sale.
#[derive(Clone, Copy, Debug, PartialEq, Eq)]
pub struct Params {
    pub min_participants: u32,
    pub min_icp_e8s: u64,
    pub max_icp_e8s: u64,
    pub min_participant_icp_e8s: u64,
    pub max_participant_icp_e8s: u64,
    pub swap_due_timestamp_seconds: u64,
    pub sns_token_e8s: u64,
    pub neuron_basket_construction_parameters: Option<NeuronBasketConstructionParameters>,
    pub sale_delay_seconds: Option<u64>,
}

/// `a * b`, stopping at the largest 64-bit value.
pub open spec fn sat_mul_u64(a: u64, b: u64) -> u64 {
    if a * b > u64::MAX {
        u64::MAX
    } else {
        (a * b) as u64
    }
}

/// `a + b`, stopping at the largest 64-bit value.
pub open spec fn sat_add_u64(a: u64, b: u64) -> u64 {
    if a + b > u64::MAX {
        u64::MAX
    } else {
        (a + b) as u64
    }
}

/// `a - b`, stopping at zero.
pub open spec fn sat_sub_u64(a: u64, b: u64) -> u64 {
    if a < b {
        0
    } else {
        (a - b) as u64
    }
}

/// Everything `Params::validate` checks, given a configuration whose fee
/// parameters and neuron basket are present.
pub open spec fn params_valid(p: Params, init: Init) -> bool {
    let fee = init.transaction_fee_e8s->Some_0;
    let min_stake = init.neuron_minimum_stake_e8s->Some_0;
    let basket = p.neuron_basket_construction_parameters->Some_0;
    &&& p.min_icp_e8s != 0
    &&& p.min_participants != 0
    &&& (p.min_participant_icp_e8s as int) * (p.sns_token_e8s as int) / (p.max_icp_e8s
        as int) >= (basket.count as int) * ((min_stake as int) + (fee as int))
    &&& p.sns_token_e8s != 0
    &&& p.max_participant_icp_e8s >= p.min_participant_icp_e8s
    &&& p.min_icp_e8s <= p.max_icp_e8s
    &&& p.max_participant_icp_e8s <= p.max_icp_e8s
    &&& p.max_icp_e8s <= 100_000_000_000_000_000
    &&& p.max_icp_e8s >= sat_mul_u64(p.min_participants as u64, p.min_participant_icp_e8s)
    &&& basket.count != 0
    &&& basket.dissolve_delay_interval_seconds != 0
    &&& sat_add_u64(
        sat_mul_u64(basket.count, basket.dissolve_delay_interval_seconds),
        1,
    ) != u64::MAX
}

/// Whether a sale opened at `now_seconds` would run for an acceptable
/// length: at least one day, at most ninety.
pub open spec fn valid_duration_at(p: Params, now_seconds: u64) -> bool {
    let open_at = sat_add_u64(now_seconds, match p.sale_delay_seconds {
        Some(d) => d,
        None => 0u64,
    });
    let duration = sat_sub_u64(p.swap_due_timestamp_seconds, open_at);
    &&& duration >= SECONDS_PER_DAY
    &&& duration <= 90 * SECONDS_PER_DAY
}

impl Params {
    /// The shortest acceptable sale: one day.
    pub const MIN_SALE_DURATION_SECONDS: u64 = 86_400;

    /// The longest acceptable sale: ninety days.
    pub const MAX_SALE_DURATION_SECONDS: u64 = 90 * 86_400;

    /// Checks the sale parameters against the configuration. The
    /// configuration must carry its fee parameters and the parameters a
    /// neuron basket, the ICP ceiling must be positive, and the
    /// participant product must fit 64 bits, as the callers guarantee.
    pub fn validate(&self, init: &Init) -> (r: Result<(), String>)
        requires
            init.transaction_fee_e8s is Some,
            init.neuron_minimum_stake_e8s is Some,
            self.neuron_basket_construction_parameters is Some,
            self.max_icp_e8s >= 1,
            init.neuron_minimum_stake_e8s->Some_0 + init.transaction_fee_e8s->Some_0
                <= u64::MAX,
            self.max_icp_e8s > 100_000_000_000_000_000 || (self.min_participants as int)
                * (self.max_icp_e8s as int) <= u64::MAX,
        ensures
            r is Ok <==> params_valid(*self, *init),
    {
        if self.min_icp_e8s == 0 {
            return Err("min_icp_e8s must be > 0".to_string());
        }
        if self.min_participants == 0 {
            return Err("min_participants must be > 0".to_string());
        }
        let transaction_fee_e8s = match init.transaction_fee_e8s {
            Some(fee) => fee,
            None => 0,
        };
        let neuron_minimum_stake_e8s = match init.neuron_minimum_stake_e8s {
            Some(stake) => stake,
            None => 0,
        };
        let basket = match self.neuron_basket_construction_parameters {
            Some(b) => b,
            None => NeuronBasketConstructionParameters {
                count: 0,
                dissolve_delay_interval_seconds: 0,
            },
        };
        proof {
            assert((self.min_participant_icp_e8s as int) * (self.sns_token_e8s as int)
                <= 0xffff_ffff_ffff_ffffint * 0xffff_ffff_ffff_ffffint)
                by (nonlinear_arith)
                requires
                    0 <= self.min_participant_icp_e8s as int <= 0xffff_ffff_ffff_ffffint,
                    0 <= self.sns_token_e8s as int <= 0xffff_ffff_ffff_ffffint,
            ;
            assert((basket.count as int) * ((neuron_minimum_stake_e8s as int)
                + (transaction_fee_e8s as int)) <= 0xffff_ffff_ffff_ffffint
                * 0xffff_ffff_ffff_ffffint) by (nonlinear_arith)
                requires
                    0 <= basket.count as int <= 0xffff_ffff_ffff_ffffint,
                    0 <= (neuron_minimum_stake_e8s as int) + (transaction_fee_e8s as int)
                        <= 0xffff_ffff_ffff_ffffint,
            ;
        }
        let min_participant_sns_e8s = (self.min_participant_icp_e8s as u128)
            * (self.sns_token_e8s as u128) / (self.max_icp_e8s as u128);
        let stake_plus_fee: u64 = neuron_minimum_stake_e8s + transaction_fee_e8s;
        let needed = (basket.count as u128) * (stake_plus_fee as u128);
        if min_participant_sns_e8s < needed {
            return Err(
                "min_participant_icp_e8s is too small to form the neuron basket".to_string(),
            );
        }
        if self.sns_token_e8s == 0 {
            return Err("sns_token_e8s must be > 0".to_string());
        }
        if self.max_participant_icp_e8s < self.min_participant_icp_e8s {
            return Err(
                "max_participant_icp_e8s must be >= min_participant_icp_e8s".to_string(),
            );
        }
        if self.min_icp_e8s > self.max_icp_e8s {
            return Err("min_icp_e8s must be <= max_icp_e8s".to_string());
        }
        if self.max_participant_icp_e8s > self.max_icp_e8s {
            return Err("max_participant_icp_e8s must be <= max_icp_e8s".to_string());
        }
        if self.max_icp_e8s > 100_000_000_000_000_000 {
            return Err("max_icp_e8s can be at most 1B ICP".to_string());
        }
        proof {
            assert((self.min_participants as int) * (self.min_participant_icp_e8s as int)
                <= 0xffff_ffff_ffff_ffffint * 0xffff_ffff_ffff_ffffint)
                by (nonlinear_arith)
                requires
                    0 <= self.min_participants as int <= 0xffff_ffff_ffff_ffffint,
                    0 <= self.min_participant_icp_e8s as int <= 0xffff_ffff_ffff_ffffint,
            ;
        }
        let sat_participants = {
            let product = (self.min_participants as u128)
                * (self.min_participant_icp_e8s as u128);
            if product > u64::MAX as u128 {
                u64::MAX
            } else {
                product as u64
            }
        };
        if self.max_icp_e8s < sat_participants {
            return Err(
                "max_icp_e8s must be >= min_participants * min_participant_icp_e8s".to_string(),
            );
        }
        if basket.count == 0 {
            return Err(
                "neuron_basket_construction_parameters.count must be > 0".to_string(),
            );
        }
        if basket.dissolve_delay_interval_seconds == 0 {
            return Err(
                "neuron_basket_construction_parameters.dissolve_delay_interval_seconds must be > 0".to_string(),
            );
        }
        proof {
            assert((basket.count as int) * (basket.dissolve_delay_interval_seconds as int)
                <= 0xffff_ffff_ffff_ffffint * 0xffff_ffff_ffff_ffffint)
                by (nonlinear_arith)
                requires
                    0 <= basket.count as int <= 0xffff_ffff_ffff_ffffint,
                    0 <= basket.dissolve_delay_interval_seconds as int
                        <= 0xffff_ffff_ffff_ffffint,
            ;
        }
        let max_delay = {
            let product = (basket.count as u128) * (basket.dissolve_delay_interval_seconds
                as u128);
            let capped = if product > u64::MAX as u128 {
                u64::MAX
            } else {
                product as u64
            };
            if capped > u64::MAX - 1 {
                u64::MAX
            } else {
                capped + 1
            }
        };
        if max_delay == u64::MAX {
            return Err(
                "the chosen neuron_basket_construction_parameters would overflow".to_string(),
            );
        }
        Ok(())
    }

    /// Whether a sale started at `now_seconds` would be open for at least
    /// one day and at most ninety.
    pub fn is_valid_if_initiated_at(&self, now_seconds: u64) -> (r: bool)
        ensures
            r == valid_duration_at(*self, now_seconds),
    {
        let sale_delay_seconds = match self.sale_delay_seconds {
            Some(d) => d,
            None => 0,
        };
        let open_timestamp_seconds = if now_seconds > u64::MAX - sale_delay_seconds {
            u64::MAX
        } else {
            now_seconds + sale_delay_seconds
        };
        let duration_seconds = if self.swap_due_timestamp_seconds < open_timestamp_seconds {
            0
        } else {
            self.swap_due_timestamp_seconds - open_timestamp_seconds
        };
        if duration_seconds < Params::MIN_SALE_DURATION_SECONDS {
            return false;
        }
        if duration_seconds > Params::MAX_SALE_DURATION_SECONDS {
            return false;
        }
        true
    }
}

/// A request to open a sale.
#[derive(Clone, Debug)]
pub struct OpenRequest {
    pub params: Option<Params>,
    pub cf_participants: Vec<CfParticipant>,
    pub open_sns_token_swap_proposal_id: Option<u64>,
}

/// Everything `OpenRequest::validate` checks.
pub open spec fn open_request_valid(req: OpenRequest, now: u64, init: Init) -> bool {
    &&& req.params is Some
    &&& valid_duration_at(req.params->Some_0, now)
    &&& params_valid(req.params->Some_0, init)
    &&& req.open_sns_token_swap_proposal_id is Some
}

impl OpenRequest {
    /// Checks the sale parameters and that a proposal id is supplied,
    /// collecting every defect found.
    pub fn validate(&self, current_timestamp_seconds: u64, init: &Init) -> (r: Result<
        (),
        String,
    >)
        requires
            init.transaction_fee_e8s is Some,
            init.neuron_minimum_stake_e8s is Some,
            init.neuron_minimum_stake_e8s->Some_0 + init.transaction_fee_e8s->Some_0
                <= u64::MAX,
            self.params matches Some(p) ==> p.neuron_basket_construction_parameters
                is Some && p.max_icp_e8s >= 1 && (p.max_icp_e8s
                > 100_000_000_000_000_000 || (p.min_participants as int) * (p.max_icp_e8s
                as int) <= u64::MAX),
        ensures
            r is Ok <==> open_request_valid(*self, current_timestamp_seconds, *init),
    {
        let mut defects: Vec<String> = Vec::new();
        match &self.params {
            None => {
                defects.push("The parameters of the swap are missing.".to_string());
            },
            Some(params) => {
                if !params.is_valid_if_initiated_at(current_timestamp_seconds) {
                    defects.push("The parameters of the swap are invalid.".to_string());
                } else if let Err(err) = params.validate(init) {
                    defects.push(err);
                }
            },
        }
        if self.open_sns_token_swap_proposal_id.is_none() {
            defects.push(
                "The open_sns_token_swap_proposal_id field has no value.".to_string(),
            );
        }
        if defects.len() == 0 {
            Ok(())
        } else {
            let mut joined = String::new();
            let mut k: usize = 0;
            while k < defects.len()
                decreases defects.len() - k,
            {
                if k > 0 {
                    joined.append("\n");
                }
                joined.append(defects[k].as_str());
                k = k + 1;
            }
            Err(joined)
        }
    }
}

/// An amount of tokens moving through the ledger, with the timestamps of
/// the transfer's start and success.
#[derive(Clone, Copy, Debug, PartialEq, Eq, Structural)]
pub struct TransferableAmount {
    pub amount_e8s: u64,
    pub transfer_start_timestamp_seconds: u64,
    pub transfer_success_timestamp_seconds: u64,
    pub amount_transferred_e8s: Option<u64>,
    pub transfer_fee_paid_e8s: Option<u64>,
}

/// A transfer record is consistent when it never claims success without a
/// start, nor success before the start.
pub open spec fn transferable_amount_valid(t: TransferableAmount) -> bool {
    &&& !(t.transfer_start_timestamp_seconds == 0 && t.transfer_success_timestamp_seconds
        > 0)
    &&& !(t.transfer_start_timestamp_seconds > t.transfer_success_timestamp_seconds
        && t.transfer_success_timestamp_seconds > 0)
}

/// The decision the transfer routine takes before calling the ledger.
#[derive(Clone, Copy, Debug, PartialEq, Eq, Structural)]
pub enum TransferStep {
    /// Skip: the amount does not even cover the ledger fee.
    AmountTooSmall,
    /// Skip: a transfer is already in progress or done.
    AlreadyStarted,
    /// Call the ledger with the amount net of the fee.
    Transfer { amount_net_fee_e8s: u64 },
}

impl TransferableAmount {
    pub fn validate(&self) -> (r: Result<(), String>)
        ensures
            r is Ok <==> transferable_amount_valid(*self),
    {
        if self.transfer_start_timestamp_seconds == 0
            && self.transfer_success_timestamp_seconds > 0 {
            return Err(
                "transfer_start_timestamp_seconds is zero but transfer_success_timestamp_seconds is non-zero".to_string(),
            );
        }
        if self.transfer_start_timestamp_seconds > self.transfer_success_timestamp_seconds
            && self.transfer_success_timestamp_seconds > 0 {
            return Err(
                "transfer_success_timestamp_seconds precedes transfer_start_timestamp_seconds".to_string(),
            );
        }
        Ok(())
    }

    /// What to do about this amount given the ledger fee: skip dust, skip
    /// transfers already under way, otherwise transfer the amount net of
    /// the fee.
    pub fn begin_transfer(&self, fee_e8s: u64) -> (r: TransferStep)
        ensures
            self.amount_e8s <= fee_e8s ==> r == TransferStep::AmountTooSmall,
            self.amount_e8s > fee_e8s && self.transfer_start_timestamp_seconds > 0 ==> r
                == TransferStep::AlreadyStarted,
            self.amount_e8s > fee_e8s && self.transfer_start_timestamp_seconds == 0 ==> r
                == (TransferStep::Transfer {
                amount_net_fee_e8s: (self.amount_e8s - fee_e8s) as u64,
            }),
    {
        if self.amount_e8s <= fee_e8s {
            return TransferStep::AmountTooSmall;
        }
        if self.transfer_start_timestamp_seconds > 0 {
            return TransferStep::AlreadyStarted;
        }
        TransferStep::Transfer { amount_net_fee_e8s: self.amount_e8s - fee_e8s }
    }

    /// Records that a ledger call is in flight.
    pub fn mark_started(&mut self, now_seconds: u64)
        ensures
            *final(self) == (TransferableAmount {
                transfer_start_timestamp_seconds: now_seconds,
                ..*old(self)
            }),
    {
        self.transfer_start_timestamp_seconds = now_seconds;
    }

    /// Records that the ledger call succeeded.
    pub fn mark_succeeded(&mut self, now_seconds: u64)
        ensures
            *final(self) == (TransferableAmount {
                transfer_success_timestamp_seconds: now_seconds,
                ..*old(self)
            }),
    {
        self.transfer_success_timestamp_seconds = now_seconds;
    }

    /// Rolls the record back after a failed ledger call.
    pub fn mark_failed(&mut self)
        ensures
            *final(self) == (TransferableAmount {
                transfer_start_timestamp_seconds: 0,
                transfer_success_timestamp_seconds: 0,
                ..*old(self)
            }),
    {
        self.transfer_start_timestamp_seconds = 0;
        self.transfer_success_timestamp_seconds = 0;
    }
}

/// What one buyer has committed to the sale.
#[derive(Clone, Copy, Debug, PartialEq, Eq, Structural)]
pub struct BuyerState {
    pub icp: Option<TransferableAmount>,
}

impl BuyerState {
    pub fn new(amount_icp_e8s: u64) -> (r: Self)
        ensures
            r.icp == Some(
                TransferableAmount {
                    amount_e8s: amount_icp_e8s,
                    transfer_start_timestamp_seconds: 0,
                    transfer_success_timestamp_seconds: 0,
                    amount_transferred_e8s: Some(0u64),
                    transfer_fee_paid_e8s: Some(0u64),
                },
            ),
    {
        BuyerState {
            icp: Some(
                TransferableAmount {
                    amount_e8s: amount_icp_e8s,
                    transfer_start_timestamp_seconds: 0,
                    transfer_success_timestamp_seconds: 0,
                    amount_transferred_e8s: Some(0),
                    transfer_fee_paid_e8s: Some(0),
                },
            ),
        }
    }

    pub fn validate(&self) -> (r: Result<(), String>)
        ensures
            r is Ok <==> (self.icp matches Some(t) && transferable_amount_valid(t)),
    {
        if let Some(icp) = &self.icp {
            icp.validate()
        } else {
            Err("Field 'icp' is missing but required".to_string())
        }
    }

    /// The committed amount, zero when nothing is recorded.
    pub fn amount_icp_e8s(&self) -> (r: u64)
        ensures
            r == (match self.icp {
                Some(t) => t.amount_e8s,
                None => 0u64,
            }),
    {
        if let Some(icp) = &self.icp {
            return icp.amount_e8s;
        }
        0
    }

    /// Sets the committed amount, creating the record if none exists.
    pub fn set_amount_icp_e8s(&mut self, val: u64)
        ensures
            final(self).icp matches Some(t) && t.amount_e8s == val,
            old(self).icp matches Some(t0) ==> final(self).icp == Some(
                TransferableAmount { amount_e8s: val, ..t0 },
            ),
            old(self).icp is None ==> final(self).icp == Some(
                TransferableAmount {
                    amount_e8s: val,
                    transfer_start_timestamp_seconds: 0,
                    transfer_success_timestamp_seconds: 0,
                    amount_transferred_e8s: Some(0u64),
                    transfer_fee_paid_e8s: Some(0u64),
                },
            ),
    {
        match &mut self.icp {
            Some(icp) => {
                icp.amount_e8s = val;
            },
            None => {
                self.icp = Some(
                    TransferableAmount {
                        amount_e8s: val,
                        transfer_start_timestamp_seconds: 0,
                        transfer_success_timestamp_seconds: 0,
                        amount_transferred_e8s: Some(0),
                        transfer_fee_paid_e8s: Some(0),
                    },
                );
            },
        }
    }
}

/// A direct participant in the sale.
#[derive(Clone, Debug)]
pub struct DirectInvestment {
    pub buyer_principal: String,
}

impl DirectInvestment {
    pub fn validate(&self) -> (r: Result<(), String>)
        ensures
            r is Ok <==> principal_ok(self.buyer_principal@),
    {
        if !is_valid_principal(self.buyer_principal.as_str()) {
            return Err("Invalid buyer principal".to_string());
        }
        Ok(())
    }
}

/// A community-fund participation in the sale.
#[derive(Clone, Debug)]
pub struct CfInvestment {
    pub hotkey_principal: String,
    pub nns_neuron_id: u64,
}

impl CfInvestment {
    pub fn validate(&self) -> (r: Result<(), String>)
        ensures
            r is Ok <==> principal_ok(self.hotkey_principal@) && self.nns_neuron_id != 0,
    {
        if !is_valid_principal(self.hotkey_principal.as_str()) {
            return Err("Invalid hotkey principal".to_string());
        }
        if self.nns_neuron_id == 0 {
            return Err("Missing nns_neuron_id".to_string());
        }
        Ok(())
    }
}

/// Who invested behind one neuron of the basket.
#[derive(Clone, Debug)]
pub enum Investor {
    Direct(DirectInvestment),
    CommunityFund(CfInvestment),
}

/// One neuron to be created for an investor.
#[derive(Clone, Debug)]
pub struct SnsNeuronRecipe {
    pub sns: Option<TransferableAmount>,
    pub investor: Option<Investor>,
}

/// Everything `SnsNeuronRecipe::validate` checks.
pub open spec fn neuron_recipe_valid(rec: SnsNeuronRecipe) -> bool {
    &&& rec.sns matches Some(t) && transferable_amount_valid(t)
    &&& match rec.investor {
        Some(Investor::Direct(di)) => principal_ok(di.buyer_principal@),
        Some(Investor::CommunityFund(cf)) => principal_ok(cf.hotkey_principal@)
            && cf.nns_neuron_id != 0,
        None => false,
    }
}

impl SnsNeuronRecipe {
    pub fn validate(&self) -> (r: Result<(), String>)
        ensures
            r is Ok <==> neuron_recipe_valid(*self),
    {
        match &self.sns {
            Some(sns) => {
                if let Err(e) = sns.validate() {
                    return Err(e);
                }
            },
            None => {
                return Err("Missing required field 'sns'".to_string());
            },
        }
        match &self.investor {
            Some(Investor::Direct(di)) => {
                if let Err(e) = di.validate() {
                    return Err(e);
                }
            },
            Some(Investor::CommunityFund(cf)) => {
                if let Err(e) = cf.validate() {
                    return Err(e);
                }
            },
            None => {
                return Err("Missing required field 'investor'".to_string());
            },
        }
        Ok(())
    }
}

/// One community-fund neuron's share.
#[derive(Clone, Copy, Debug, PartialEq, Eq, Structural)]
pub struct CfNeuron {
    pub nns_neuron_id: u64,
    pub amount_icp_e8s: u64,
}

impl CfNeuron {
    pub fn validate(&self) -> (r: Result<(), String>)
        ensures
            r is Ok <==> self.nns_neuron_id != 0 && self.amount_icp_e8s != 0,
    {
        if self.nns_neuron_id == 0 {
            return Err("nns_neuron_id must be specified".to_string());
        }
        if self.amount_icp_e8s == 0 {
            return Err("amount_icp_e8s must be specified".to_string());
        }
        Ok(())
    }
}

/// The saturating total of the neurons' amounts.
pub open spec fn cf_neurons_total(s: Seq<CfNeuron>) -> u64
    decreases s.len(),
{
    if s.len() == 0 {
        0
    } else {
        sat_add_u64(cf_neurons_total(s.drop_last()), s.last().amount_icp_e8s)
    }
}

/// A community-fund participant and the neurons it invests through.
#[derive(Clone, Debug)]
pub struct CfParticipant {
    pub hotkey_principal: String,
    pub cf_neurons: Vec<CfNeuron>,
}

/// Everything `CfParticipant::validate` checks.
pub open spec fn cf_participant_valid(p: CfParticipant) -> bool {
    &&& principal_ok(p.hotkey_principal@)
    &&& p.cf_neurons@.len() > 0
    &&& forall|i: int|
        0 <= i < p.cf_neurons@.len() ==> (#[trigger] p.cf_neurons@[i]).nns_neuron_id != 0
            && p.cf_neurons@[i].amount_icp_e8s != 0
}

impl CfParticipant {
    pub fn validate(&self) -> (r: Result<(), String>)
        ensures
            r is Ok <==> cf_participant_valid(*self),
    {
        if !is_valid_principal(self.hotkey_principal.as_str()) {
            return Err("Invalid hotkey principal".to_string());
        }
        if self.cf_neurons.len() == 0 {
            return Err("A CF participant must have at least one neuron".to_string());
        }
        let n = self.cf_neurons.len();
        let mut k: usize = 0;
        while k < n
            invariant
                k <= n,
                n == self.cf_neurons@.len(),
                forall|i: int|
                    0 <= i < k ==> (#[trigger] self.cf_neurons@[i]).nns_neuron_id != 0
                        && self.cf_neurons@[i].amount_icp_e8s != 0,
            decreases n - k,
        {
            if let Err(e) = self.cf_neurons[k].validate() {
                return Err(e);
            }
            k = k + 1;
        }
        Ok(())
    }

    /// The participant's total committed ICP, saturating at the 64-bit
    /// limit.
    pub fn participant_total_icp_e8s(&self) -> (r: u64)
        ensures
            r == cf_neurons_total(self.cf_neurons@),
    {
        let n = self.cf_neurons.len();
        let mut sum: u64 = 0;
        let mut k: usize = 0;
        proof {
            assert(self.cf_neurons@.take(0) =~= Seq::<CfNeuron>::empty());
        }
        while k < n
            invariant
                k <= n,
                n == self.cf_neurons@.len(),
                sum == cf_neurons_total(self.cf_neurons@.take(k as int)),
            decreases n - k,
        {
            let v = self.cf_neurons[k].amount_icp_e8s;
            proof {
                assert(self.cf_neurons@.take(k + 1).drop_last() =~= self.cf_neurons@.take(
                    k as int,
                ));
            }
            sum = if sum > u64::MAX - v {
                u64::MAX
            } else {
                sum + v
            };
            k = k + 1;
        }
        proof {
            assert(self.cf_neurons@.take(n as int) =~= self.cf_neurons@);
        }
        sum
    }
}

/// Where a sale stands in its life.
#[derive(Clone, Copy, Debug, PartialEq, Eq, Structural)]
pub enum Lifecycle {
    Unspecified,
    Pending,
    Adopted,
    Open,
    Committed,
    Aborted,
}

impl Lifecycle {
    /// Whether the sale can never change state again.
    pub fn is_terminal(&self) -> (r: bool)
        ensures
            r == (*self == Lifecycle::Committed || *self == Lifecycle::Aborted),
    {
        match self {
            Lifecycle::Committed | Lifecycle::Aborted => true,
            Lifecycle::Pending | Lifecycle::Adopted | Lifecycle::Open => false,
            Lifecycle::Unspecified => false,
        }
    }
}

/// Result of a token transfer (commit or abort) on a ledger for a single
/// buyer.
#[derive(Clone, Debug, PartialEq, Eq)]
pub enum TransferResult {
    /// Transfer was skipped as the amount was less than the requested fee.
    AmountTooSmall,
    /// Transfer was skipped as an operation is already in progress or done.
    AlreadyStarted,
    /// The operation succeeded at the given block height.
    Success(u64),
    /// The operation failed with the given message.
    Failure(String),
}

impl TransferResult {
    pub fn is_success(&self) -> (r: bool)
        ensures
            r == (self matches TransferResult::Success(_)),
    {
        match self {
            TransferResult::Success(_) => true,
            _ => false,
        }
    }
}

/// Counters over a batch of per-buyer operations.
#[derive(Clone, Copy, Debug, PartialEq, Eq, Structural)]
pub struct SweepResult {
    pub success: u32,
    pub failure: u32,
    pub skipped: u32,
    pub invalid: u32,
    pub global_failures: u32,
}

impl Default for SweepResult {
    fn default() -> (r: Self)
        ensures
            r == (SweepResult { success: 0, failure: 0, skipped: 0, invalid: 0, global_failures: 0 }),
    {
        SweepResult { success: 0, failure: 0, skipped: 0, invalid: 0, global_failures: 0 }
    }
}

/// A sweep went through cleanly: no failures, nothing invalid.
pub open spec fn successful_sweep(s: SweepResult) -> bool {
    s.failure == 0 && s.invalid == 0 && s.global_failures == 0
}

impl SweepResult {
    pub fn is_successful_sweep(&self) -> (r: bool)
        ensures
            r == successful_sweep(*self),
    {
        self.failure == 0 && self.invalid == 0 && self.global_failures == 0
    }

    /// A result that only records failures outside any single operation.
    pub fn new_with_global_failures(global_failures: u32) -> (r: Self)
        ensures
            r == (SweepResult {
                success: 0,
                failure: 0,
                skipped: 0,
                invalid: 0,
                global_failures,
            }),
    {
        SweepResult { success: 0, failure: 0, skipped: 0, invalid: 0, global_failures }
    }

    /// Folds another batch's counters into this one.
    pub fn consume(&mut self, consumable: SweepResult)
        requires
            old(self).success + consumable.success <= u32::MAX,
            old(self).failure + consumable.failure <= u32::MAX,
            old(self).skipped + consumable.skipped <= u32::MAX,
            old(self).invalid + consumable.invalid <= u32::MAX,
            old(self).global_failures + consumable.global_failures <= u32::MAX,
        ensures
            *final(self) == (SweepResult {
                success: (old(self).success + consumable.success) as u32,
                failure: (old(self).failure + consumable.failure) as u32,
                skipped: (old(self).skipped + consumable.skipped) as u32,
                invalid: (old(self).invalid + consumable.invalid) as u32,
                global_failures: (old(self).global_failures + consumable.global_failures)
                    as u32,
            }),
    {
        self.success = self.success + consumable.success;
        self.failure = self.failure + consumable.failure;
        self.skipped = self.skipped + consumable.skipped;
        self.invalid = self.invalid + consumable.invalid;
        self.global_failures = self.global_failures + consumable.global_failures;
    }
}

/// An error reported by a call into another canister.
#[derive(Clone, Debug, PartialEq, Eq)]
pub struct CanisterCallError {
    pub code: Option<i32>,
    pub description: String,
}

/// The governance service's own error record.
#[derive(Clone, Debug, PartialEq, Eq)]
pub struct GovernanceError {
    pub error_message: String,
}

/// The response to settling the community fund's participation.
#[derive(Clone, Debug, PartialEq, Eq)]
pub struct SettleResponse {
    pub governance_error: Option<GovernanceError>,
}

#[derive(Clone, Debug, PartialEq, Eq)]
pub enum SettlePossibility {
    Settled(SettleResponse),
    Unreachable(CanisterCallError),
}

/// The outcome of settling the community fund's participation.
#[derive(Clone, Debug, PartialEq, Eq)]
pub struct SettleCommunityFundParticipationResult {
    pub possibility: Option<SettlePossibility>,
}

/// Settlement went through without a governance error.
pub open spec fn successful_settlement(r: SettleCommunityFundParticipationResult) -> bool {
    r.possibility matches Some(SettlePossibility::Settled(resp)) && resp.governance_error
        is None
}

impl SettleCommunityFundParticipationResult {
    pub fn is_successful_settlement(&self) -> (r: bool)
        ensures
            r == successful_settlement(*self),
    {
        match &self.possibility {
            Some(SettlePossibility::Settled(resp)) => resp.governance_error.is_none(),
            _ => false,
        }
    }
}

/// One canister whose controller update failed.
#[derive(Clone, Debug, PartialEq, Eq)]
pub struct FailedUpdate {
    pub err_message: String,
}

/// The response to restoring the dapp's controllers.
#[derive(Clone, Debug, PartialEq, Eq)]
pub struct SetDappControllersResponse {
    pub failed_updates: Vec<FailedUpdate>,
}

#[derive(Clone, Debug, PartialEq, Eq)]
pub enum SetDappControllersPossibility {
    Updated(SetDappControllersResponse),
    Unreachable(CanisterCallError),
}

/// The outcome of restoring the dapp's controllers.
#[derive(Clone, Debug, PartialEq, Eq)]
pub struct SetDappControllersCallResult {
    pub possibility: Option<SetDappControllersPossibility>,
}

/// Every controller update went through.
pub open spec fn successful_set_dapp_controllers(r: SetDappControllersCallResult) -> bool {
    r.possibility matches Some(SetDappControllersPossibility::Updated(resp))
        && resp.failed_updates@.len() == 0
}

impl SetDappControllersCallResult {
    pub fn is_successful_set_dapp_controllers(&self) -> (r: bool)
        ensures
            r == successful_set_dapp_controllers(*self),
    {
        match &self.possibility {
            Some(SetDappControllersPossibility::Updated(resp)) => resp.failed_updates.len()
                == 0,
            _ => false,
        }
    }
}

/// The empty acknowledgement of a mode change.
#[derive(Clone, Copy, Debug, PartialEq, Eq, Structural)]
pub struct SetModeResult {}

#[derive(Clone, Debug, PartialEq, Eq)]
pub enum SetModePossibility {
    Acknowledged(SetModeResult),
    Unreachable(CanisterCallError),
}

/// The outcome of switching governance to normal mode.
#[derive(Clone, Debug, PartialEq, Eq)]
pub struct SetModeCallResult {
    pub possibility: Option<SetModePossibility>,
}

/// The mode change was acknowledged.
pub open spec fn successful_set_mode_call(r: SetModeCallResult) -> bool {
    r.possibility matches Some(SetModePossibility::Acknowledged(SetModeResult {  }))
}

impl SetModeCallResult {
    pub fn is_successful_set_mode_call(&self) -> (r: bool)
        ensures
            r == successful_set_mode_call(*self),
    {
        match &self.possibility {
            Some(SetModePossibility::Acknowledged(SetModeResult {  })) => true,
            _ => false,
        }
    }
}

/// Everything finalizing a sale reports back.
#[derive(Clone, Debug, PartialEq, Eq)]
pub struct FinalizeSwapResponse {
    pub sweep_icp_result: Option<SweepResult>,
    pub settle_community_fund_participation_result: Option<
        SettleCommunityFundParticipationResult,
    >,
    pub set_dapp_controllers_call_result: Option<SetDappControllersCallResult>,
    pub sweep_sns_result: Option<SweepResult>,
    pub claim_neuron_result: Option<SweepResult>,
    pub set_mode_call_result: Option<SetModeCallResult>,
    pub error_message: Option<String>,
}

impl Default for FinalizeSwapResponse {
    fn default() -> (r: Self)
        ensures
            r.sweep_icp_result is None,
            r.settle_community_fund_participation_result is None,
            r.set_dapp_controllers_call_result is None,
            r.sweep_sns_result is None,
            r.claim_neuron_result is None,
            r.set_mode_call_result is None,
            r.error_message is None,
    {
        FinalizeSwapResponse {
            sweep_icp_result: None,
            settle_community_fund_participation_result: None,
            set_dapp_controllers_call_result: None,
            sweep_sns_result: None,
            claim_neuron_result: None,
            set_mode_call_result: None,
            error_message: None,
        }
    }
}

impl FinalizeSwapResponse {
    /// A response that only carries an error message.
    pub fn with_error(error_message: String) -> (r: Self)
        ensures
            r.error_message == Some(error_message),
            r.sweep_icp_result is None,
            r.settle_community_fund_participation_result is None,
            r.set_dapp_controllers_call_result is None,
            r.sweep_sns_result is None,
            r.claim_neuron_result is None,
            r.set_mode_call_result is None,
    {
        FinalizeSwapResponse {
            sweep_icp_result: None,
            settle_community_fund_participation_result: None,
            set_dapp_controllers_call_result: None,
            sweep_sns_result: None,
            claim_neuron_result: None,
            set_mode_call_result: None,
            error_message: Some(error_message),
        }
    }

    pub fn set_error_message(&mut self, error_message: String)
        ensures
            *final(self) == (FinalizeSwapResponse {
                error_message: Some(error_message),
                ..*old(self)
            }),
    {
        self.error_message = Some(error_message)
    }

    /// Records the ICP sweep; a failed sweep halts finalization with an
    /// error message.
    pub fn set_sweep_icp_result(&mut self, sweep_icp_result: SweepResult)
        ensures
            *final(self) == (FinalizeSwapResponse {
                sweep_icp_result: Some(sweep_icp_result),
                error_message: final(self).error_message,
                ..*old(self)
            }),
            successful_sweep(sweep_icp_result) ==> final(self).error_message == old(
                self,
            ).error_message,
            !successful_sweep(sweep_icp_result) ==> final(self).error_message is Some,
    {
        if !sweep_icp_result.is_successful_sweep() {
            self.set_error_message(
                "Transferring ICP did not complete fully, some transfers were invalid or failed. Halting sale finalization".to_string(),
            );
        }
        self.sweep_icp_result = Some(sweep_icp_result);
    }

    /// Records the community-fund settlement; a failed settlement halts
    /// finalization with an error message.
    pub fn set_settle_community_fund_participation_result(
        &mut self,
        result: SettleCommunityFundParticipationResult,
    )
        ensures
            *final(self) == (FinalizeSwapResponse {
                settle_community_fund_participation_result: Some(result),
                error_message: final(self).error_message,
                ..*old(self)
            }),
            successful_settlement(result) ==> final(self).error_message == old(
                self,
            ).error_message,
            !successful_settlement(result) ==> final(self).error_message is Some,
    {
        if !result.is_successful_settlement() {
            self.set_error_message(
                "Settling the CommunityFund participation did not succeed. Halting sale finalization".to_string(),
            );
        }
        self.settle_community_fund_participation_result = Some(result);
    }

    /// Records the controller restoration; a failure halts finalization
    /// with an error message.
    pub fn set_set_dapp_controllers_result(&mut self, result: SetDappControllersCallResult)
        ensures
            *final(self) == (FinalizeSwapResponse {
                set_dapp_controllers_call_result: Some(result),
                error_message: final(self).error_message,
                ..*old(self)
            }),
            successful_set_dapp_controllers(result) ==> final(self).error_message == old(
                self,
            ).error_message,
            !successful_set_dapp_controllers(result) ==> final(self).error_message
                is Some,
    {
        if !result.is_successful_set_dapp_controllers() {
            self.set_error_message(
                "Restoring the dapp canisters controllers did not succeed. Halting sale finalization".to_string(),
            );
        }
        self.set_dapp_controllers_call_result = Some(result);
    }

    /// Records the SNS token sweep; a failed sweep halts finalization with
    /// an error message.
    pub fn set_sweep_sns_result(&mut self, sweep_sns_result: SweepResult)
        ensures
            *final(self) == (FinalizeSwapResponse {
                sweep_sns_result: Some(sweep_sns_result),
                error_message: final(self).error_message,
                ..*old(self)
            }),
            successful_sweep(sweep_sns_result) ==> final(self).error_message == old(
                self,
            ).error_message,
            !successful_sweep(sweep_sns_result) ==> final(self).error_message is Some,
    {
        if !sweep_sns_result.is_successful_sweep() {
            self.set_error_message(
                "Transferring SNS tokens did not complete fully, some transfers were invalid or failed. Halting sale finalization".to_string(),
            );
        }
        self.sweep_sns_result = Some(sweep_sns_result);
    }

    /// Records the neuron claims; failed claims halt finalization with an
    /// error message.
    pub fn set_claim_neuron_result(&mut self, claim_neuron_result: SweepResult)
        ensures
            *final(self) == (FinalizeSwapResponse {
                claim_neuron_result: Some(claim_neuron_result),
                error_message: final(self).error_message,
                ..*old(self)
            }),
            successful_sweep(claim_neuron_result) ==> final(self).error_message == old(
                self,
            ).error_message,
            !successful_sweep(claim_neuron_result) ==> final(self).error_message is Some,
    {
        if !claim_neuron_result.is_successful_sweep() {
            self.set_error_message(
                "Claiming SNS Neurons did not complete fully, some claims were invalid or failed. Halting sale finalization".to_string(),
            );
        }
        self.claim_neuron_result = Some(claim_neuron_result);
    }

    /// Records the governance mode change; a failure halts finalization
    /// with an error message.
    pub fn set_set_mode_call_result(&mut self, set_mode_call_result: SetModeCallResult)
        ensures
            *final(self) == (FinalizeSwapResponse {
                set_mode_call_result: Some(set_mode_call_result),
                error_message: final(self).error_message,
                ..*old(self)
            }),
            successful_set_mode_call(set_mode_call_result) ==> final(self).error_message
                == old(self).error_message,
            !successful_set_mode_call(set_mode_call_result) ==> final(self).error_message
                is Some,
    {
        if !set_mode_call_result.is_successful_set_mode_call() {
            self.set_error_message(
                "Setting the SNS Governance mode to normal did not complete fully. Halting sale finalization".to_string(),
            );
        }
        self.set_mode_call_result = Some(set_mode_call_result);
    }

    pub fn has_error_message(&self) -> (r: bool)
        ensures
            r == (self.error_message is Some),
    {
        self.error_message.is_some()
    }
}

/// The principal of one participant, as raw bytes.
#[derive(Clone, Copy, Debug, PartialEq, Eq)]
pub struct PrincipalBytes {
    pub len: u8,
    pub bytes: [u8; 29],
}

/// One direct participant and its committed amount, as listed to callers.
#[derive(Clone, Copy, Debug, PartialEq, Eq)]
pub struct Participant {
    pub participant_id: Option<PrincipalBytes>,
    pub participation: Option<BuyerState>,
}

/// A page of direct participants.
#[derive(Clone, Debug, PartialEq, Eq)]
pub struct ListDirectParticipantsResponse {
    pub participants: Vec<Participant>,
}

} // verus!
