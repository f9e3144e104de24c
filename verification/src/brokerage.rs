//! Brokerage accounts: cash and security positions replayed from the
//! account's active operations.
use vstd::prelude::*;
use crate::decimal::{format_decimal, parse_decimal, spec_format_decimal, spec_parse_decimal};
use crate::review::{ReviewError, owned, spaced, validation_failure};
use crate::dates::{spec_valid_currency, spec_valid_date, valid_currency, valid_date};
use crate::text::{seq_lt, str_lt};
use crate::text::str_eq;
use crate::keyed::{first_index, lemma_first_index, lemma_unique_push, unique_keys};

verus! {

pub struct BrokerageOpenInput {
    pub account_id: String,
    pub opened_date: String,
}

pub struct BrokerageDepositInput {
    pub account_id: String,
    pub allocation_id: String,
    pub effective_date: String,
    pub amount_minor: i64,
    pub currency: String,
}

pub struct BrokerageBuyInput {
    pub account_id: String,
    pub instrument_id: String,
    pub effective_date: String,
    pub quantity: String,
    pub gross_amount_minor: i64,
    pub fee_minor: i64,
    pub fee_treatment: String,
    pub component_id: Option<String>,
}

pub struct BrokerageSellInput {
    pub account_id: String,
    pub instrument_id: String,
    pub effective_date: String,
    pub quantity: String,
    pub gross_proceeds_minor: i64,
    pub fee_minor: i64,
    pub withholding_minor: i64,
    pub other_deductions_minor: i64,
    pub net_cash_minor: i64,
    pub component_id: Option<String>,
}

pub struct BrokerageDividendInput {
    pub account_id: String,
    pub instrument_id: String,
    pub effective_date: String,
    pub gross_dividend_minor: i64,
    pub fee_minor: i64,
    pub withholding_minor: i64,
    pub other_deductions_minor: i64,
    pub net_cash_minor: i64,
    pub component_id: Option<String>,
}

pub struct BrokerageWithdrawalInput {
    pub account_id: String,
    pub effective_date: String,
    pub amount_minor: i64,
    pub currency: String,
    pub destination_account_id: Option<String>,
    pub linked_transaction_id: Option<String>,
}

pub struct BrokerageReplacementInput {
    pub operation_id: String,
    pub reason: String,
    pub replacement: BrokerageOperationReplacement,
}

/// The new terms of a replaced operation; absent amounts are zero.
pub struct BrokerageOperationReplacement {
    pub operation_type: String,
    pub effective_date: String,
    pub currency: String,
    pub instrument_id: Option<String>,
    pub quantity: Option<String>,
    pub gross_amount_minor: i64,
    pub fee_minor: i64,
    pub fee_treatment: Option<String>,
    pub withholding_minor: i64,
    pub other_deductions_minor: i64,
    pub net_cash_minor: i64,
    pub funding_allocation_id: Option<String>,
    pub destination_account_id: Option<String>,
    pub linked_transaction_id: Option<String>,
    pub component_id: Option<String>,
}

/// One revision of a brokerage operation.
pub struct BrokerageOperation {
    pub id: String,
    pub operation_id: String,
    pub revision: i64,
    pub operation_type: String,
    pub effective_date: String,
    pub currency: String,
    pub instrument_id: Option<String>,
    pub quantity: Option<String>,
    pub gross_amount_minor: i64,
    pub historical_cost_minor: i64,
    pub realized_result_minor: i64,
    pub fee_minor: i64,
    pub fee_treatment: Option<String>,
    pub withholding_minor: i64,
    pub other_deductions_minor: i64,
    pub net_cash_minor: i64,
    pub funding_allocation_id: Option<String>,
    pub destination_account_id: Option<String>,
    pub linked_transaction_id: Option<String>,
    pub component_id: Option<String>,
    pub provenance_source: String,
    pub correction_reason: Option<String>,
    pub replaces_revision_id: Option<String>,
    pub created_at: String,
}

/// Cash of one currency held by a brokerage account.
pub struct BrokerageCash {
    pub currency: String,
    pub available_minor: i64,
    pub external_capital_minor: i64,
    pub withdrawals_minor: i64,
    pub gross_dividends_minor: i64,
    pub gross_sale_proceeds_minor: i64,
    pub realized_result_minor: i64,
    pub fees_minor: i64,
    pub withholding_minor: i64,
    pub other_deductions_minor: i64,
    pub latest_operation_id: String,
}

/// A security position of a brokerage account.
pub struct BrokeragePosition {
    pub instrument_id: String,
    pub quantity: String,
    pub historical_cost_minor: i64,
    pub cost_currency: String,
    pub latest_operation_id: String,
}

pub struct BrokerageAccount {
    pub account_id: String,
    pub opened_date: String,
    pub cash: Vec<BrokerageCash>,
    pub positions: Vec<BrokeragePosition>,
    pub active_operations: Vec<BrokerageOperation>,
}

pub struct BrokerageResponse {
    pub schema_version: String,
    pub command: String,
    pub ok: bool,
    pub accounts: Vec<BrokerageAccount>,
    pub operation_history: Vec<BrokerageOperation>,
    pub errors: Vec<ReviewError>,
}

/// Why replaying stored operations failed.
#[derive(Debug, Clone, Copy, PartialEq, Eq, Structural)]
pub enum ReplayError {
    CashOverflow,
    NegativeCash,
    MinorUnitOverflow,
    InvalidStoredQuantity,
    QuantityOverflow,
    CostOverflow,
    ResultOverflow,
    NegativePosition,
}

/// The kinds of brokerage operation.
#[derive(Debug, Clone, Copy, PartialEq, Eq, Structural)]
pub enum OperationKind {
    Deposit,
    Buy,
    Sell,
    Dividend,
    Withdrawal,
    Other,
}

pub open spec fn spec_kind(s: Seq<char>) -> OperationKind {
    if s == "deposit"@ {
        OperationKind::Deposit
    } else if s == "buy"@ {
        OperationKind::Buy
    } else if s == "sell"@ {
        OperationKind::Sell
    } else if s == "dividend"@ {
        OperationKind::Dividend
    } else if s == "withdrawal"@ {
        OperationKind::Withdrawal
    } else {
        OperationKind::Other
    }
}

/// The kind an operation type names.
pub fn operation_kind(s: &str) -> (r: OperationKind)
    ensures
        r == spec_kind(s@),
{
    if str_eq(s, "deposit") {
        OperationKind::Deposit
    } else if str_eq(s, "buy") {
        OperationKind::Buy
    } else if str_eq(s, "sell") {
        OperationKind::Sell
    } else if str_eq(s, "dividend") {
        OperationKind::Dividend
    } else if str_eq(s, "withdrawal") {
        OperationKind::Withdrawal
    } else {
        OperationKind::Other
    }
}

pub open spec fn in_i64(v: int) -> bool {
    i64::MIN <= v <= i64::MAX
}

pub open spec fn in_i128(v: int) -> bool {
    i128::MIN <= v <= i128::MAX
}

/// `a / b` rounded toward zero, for positive `b`.
pub open spec fn trunc_div(a: int, b: int) -> int {
    if a >= 0 { a / b } else { -((-a) / b) }
}

/// Adds two minor-unit amounts, failing on overflow.
pub fn checked(left: i64, right: i64) -> (r: Result<i64, ReplayError>)
    ensures
        in_i64(left + right) ==> r == Ok::<i64, ReplayError>((left + right) as i64),
        !in_i64(left + right) ==> r == Err::<i64, ReplayError>(ReplayError::MinorUnitOverflow),
{
    match left.checked_add(right) {
        Some(v) => Ok(v),
        None => Err(ReplayError::MinorUnitOverflow),
    }
}

/// `a / b` rounded toward zero, for positive `b`.
pub fn trunc_div_i128(a: i128, b: i128) -> (r: i128)
    requires
        b > 0,
    ensures
        r as int == trunc_div(a as int, b as int),
{
    let m = crate::text::magnitude_i128(a);
    let bu = b as u128;
    let q = m / bu;
    proof {
        assert(q <= m) by (nonlinear_arith)
            requires q == m / bu, bu >= 1;
    }
    if a >= 0 {
        q as i128
    } else if q > 0x7fff_ffff_ffff_ffff_ffff_ffff_ffff_ffff {
        i128::MIN
    } else {
        -(q as i128)
    }
}

/// The cost share of selling `sold` out of `held` units that cost `cost`:
/// all of it for a full sale, else `cost * sold / held` rounded toward zero.
pub open spec fn spec_disposed_cost(cost: int, sold: int, held: int) -> Option<int> {
    if sold == held {
        Some(cost)
    } else if !in_i128(cost * sold) || !in_i64(trunc_div(cost * sold, held)) {
        None
    } else {
        Some(trunc_div(cost * sold, held))
    }
}

/// Proportional historical cost of a partial sale.
pub fn disposed_cost(cost: i64, sold: i128, held: i128) -> (r: Option<i64>)
    requires
        held > 0,
    ensures
        r matches Some(v) ==> spec_disposed_cost(cost as int, sold as int, held as int) == Some(v as int),
        r is None ==> spec_disposed_cost(cost as int, sold as int, held as int) is None,
{
    if sold == held {
        return Some(cost);
    }
    let product = match (cost as i128).checked_mul(sold) {
        Some(p) => p,
        None => return None,
    };
    let q = trunc_div_i128(product, held);
    if q < i64::MIN as i128 || q > i64::MAX as i128 {
        None
    } else {
        Some(q as i64)
    }
}

/// A copy of an optional string.
pub fn clone_opt(o: &Option<String>) -> (r: Option<String>)
    ensures
        r == *o,
{
    match o {
        Some(s) => Some(s.clone()),
        None => None,
    }
}

/// A field-by-field copy of an operation.
pub fn copy_operation(o: &BrokerageOperation) -> (r: BrokerageOperation)
    ensures
        r == *o,
{
    BrokerageOperation {
        id: o.id.clone(),
        operation_id: o.operation_id.clone(),
        revision: o.revision,
        operation_type: o.operation_type.clone(),
        effective_date: o.effective_date.clone(),
        currency: o.currency.clone(),
        instrument_id: clone_opt(&o.instrument_id),
        quantity: clone_opt(&o.quantity),
        gross_amount_minor: o.gross_amount_minor,
        historical_cost_minor: o.historical_cost_minor,
        realized_result_minor: o.realized_result_minor,
        fee_minor: o.fee_minor,
        fee_treatment: clone_opt(&o.fee_treatment),
        withholding_minor: o.withholding_minor,
        other_deductions_minor: o.other_deductions_minor,
        net_cash_minor: o.net_cash_minor,
        funding_allocation_id: clone_opt(&o.funding_allocation_id),
        destination_account_id: clone_opt(&o.destination_account_id),
        linked_transaction_id: clone_opt(&o.linked_transaction_id),
        component_id: clone_opt(&o.component_id),
        provenance_source: o.provenance_source.clone(),
        correction_reason: clone_opt(&o.correction_reason),
        replaces_revision_id: clone_opt(&o.replaces_revision_id),
        created_at: o.created_at.clone(),
    }
}

/// Units held and their remaining historical cost, per instrument and currency,
/// while sale economics are derived.
pub struct SaleBasis {
    pub instrument: String,
    pub currency: String,
    pub quantity: i128,
    pub cost: i64,
}

pub open spec fn basis_keys(ps: Seq<SaleBasis>) -> Seq<(Seq<char>, Seq<char>)> {
    ps.map_values(|p: SaleBasis| (p.instrument@, p.currency@))
}

/// One operation's effect on the sale bases; a sale's historical cost and
/// realized result are recomputed from the basis it draws on.
pub open spec fn derive_step(ps: Seq<SaleBasis>, o: BrokerageOperation) -> Result<
    (Seq<SaleBasis>, BrokerageOperation),
    ReplayError,
> {
    match (o.instrument_id, o.quantity) {
        (Some(inst), Some(qs)) => match spec_parse_decimal(qs@) {
            None => Err(ReplayError::InvalidStoredQuantity),
            Some(q) => {
                let idx = first_index(basis_keys(ps), (inst@, o.currency@));
                let ps1 = if idx >= 0 {
                    ps
                } else {
                    ps.push(SaleBasis { instrument: inst, currency: o.currency, quantity: 0, cost: 0 })
                };
                let i = if idx >= 0 { idx } else { ps.len() as int };
                let p = ps1[i];
                match spec_kind(o.operation_type@) {
                    OperationKind::Buy => {
                        if !in_i128(p.quantity + q) {
                            Err(ReplayError::QuantityOverflow)
                        } else if !in_i64(p.cost + o.historical_cost_minor) {
                            Err(ReplayError::MinorUnitOverflow)
                        } else {
                            Ok((ps1.update(i, SaleBasis {
                                instrument: p.instrument,
                                currency: p.currency,
                                quantity: (p.quantity + q) as i128,
                                cost: (p.cost + o.historical_cost_minor) as i64,
                            }), o))
                        }
                    },
                    OperationKind::Sell => {
                        if q > p.quantity || p.quantity <= 0 {
                            Err(ReplayError::NegativePosition)
                        } else {
                            match spec_disposed_cost(p.cost as int, q, p.quantity as int) {
                                None => Err(ReplayError::CostOverflow),
                                Some(c) => {
                                    if !in_i64(o.gross_amount_minor - c) {
                                        Err(ReplayError::ResultOverflow)
                                    } else if !in_i64(p.cost - c) {
                                        Err(ReplayError::CostOverflow)
                                    } else {
                                        Ok((ps1.update(i, SaleBasis {
                                            instrument: p.instrument,
                                            currency: p.currency,
                                            quantity: (p.quantity - q) as i128,
                                            cost: (p.cost - c) as i64,
                                        }), BrokerageOperation {
                                            historical_cost_minor: c as i64,
                                            realized_result_minor: (o.gross_amount_minor - c) as i64,
                                            ..o
                                        }))
                                    }
                                },
                            }
                        }
                    },
                    _ => Ok((ps1, o)),
                }
            },
        },
        _ => Ok((ps, o)),
    }
}

/// The cost a sale takes out of its position: all of it when every unit
/// held is sold, otherwise the share of the cost of the units sold, rounded
/// down (for a non-negative cost).
pub proof fn law_disposed_cost(cost: i64, sold: i128, held: i128)
    ensures
        spec_disposed_cost(cost as int, held as int, held as int) == Some(cost as int),
        (0 <= cost && 0 < sold < held) ==> (spec_disposed_cost(cost as int, sold as int, held as int) matches Some(d)
            ==> d * held <= cost * sold < d * held + held),
{
    if 0 <= cost && 0 < sold < held {
        if spec_disposed_cost(cost as int, sold as int, held as int) is Some {
            let a = cost * sold;
            assert(a >= 0) by (nonlinear_arith)
                requires cost >= 0, sold > 0, a == cost * sold;
            let d = a / (held as int);
            assert(d * held <= a < d * held + held) by (nonlinear_arith)
                requires held > 0, d == a / (held as int), a >= 0;
        }
    }
}

/// A sale's realized result is its gross amount less the cost it takes out
/// of its position, and the position loses the units sold and that cost;
/// nothing else about the sale changes.
pub proof fn law_sale_result(ps: Seq<SaleBasis>, o: BrokerageOperation)
    ensures
        (spec_kind(o.operation_type@) == OperationKind::Sell && o.instrument_id is Some && o.quantity is Some)
            ==> (derive_step(ps, o) matches Ok((ps2, o2)) ==> {
            &&& o2.realized_result_minor == o.gross_amount_minor - o2.historical_cost_minor
            &&& o2 == BrokerageOperation { historical_cost_minor: o2.historical_cost_minor,
                realized_result_minor: o2.realized_result_minor, ..o }
        }),
{
}

/// Sale bases and derived operations after the first `n` operations.
pub open spec fn derive_prefix(ops: Seq<BrokerageOperation>, n: nat) -> Result<
    (Seq<SaleBasis>, Seq<BrokerageOperation>),
    ReplayError,
>
    decreases n,
{
    if n == 0 {
        Ok((Seq::empty(), Seq::empty()))
    } else {
        match derive_prefix(ops, (n - 1) as nat) {
            Err(e) => Err(e),
            Ok((ps, out)) => match derive_step(ps, ops[n - 1]) {
                Err(e) => Err(e),
                Ok((ps2, o2)) => Ok((ps2, out.push(o2))),
            },
        }
    }
}

/// The operations with every sale's historical cost and realized result derived
/// from the purchases before it, or the first failure.
pub open spec fn spec_derive(ops: Seq<BrokerageOperation>) -> Result<Seq<BrokerageOperation>, ReplayError> {
    match derive_prefix(ops, ops.len()) {
        Ok((_, out)) => Ok(out),
        Err(e) => Err(e),
    }
}

/// Parsed quantities are never negative.
pub proof fn lemma_parse_decimal_nonneg(s: Seq<char>)
    ensures
        spec_parse_decimal(s) matches Some(q) ==> q >= 0,
{
    let t = crate::text::trim_seq(s);
    let whole = crate::decimal::before_dot(t);
    let frac = crate::decimal::after_dot(t);
    if spec_parse_decimal(s) is Some {
        crate::text::lemma_digits_value_nonneg(whole);
        crate::text::lemma_digits_value_nonneg(frac);
        crate::decimal::lemma_pow10_positive((9 - frac.len()) as nat);
        assert(crate::text::digits_value(frac) * crate::text::pow10((9 - frac.len()) as nat) >= 0) by (nonlinear_arith)
            requires crate::text::digits_value(frac) >= 0, crate::text::pow10((9 - frac.len()) as nat) >= 1;
    }
}

pub proof fn lemma_derive_prefix_shape(ops: Seq<BrokerageOperation>, n: nat)
    requires
        n <= ops.len(),
    ensures
        derive_prefix(ops, n) matches Ok((ps, out)) ==> out.len() == n && unique_keys(basis_keys(ps))
            && forall|j: int| 0 <= j < ps.len() ==> (#[trigger] ps[j]).quantity >= 0,
    decreases n,
{
    if n > 0 {
        lemma_derive_prefix_shape(ops, (n - 1) as nat);
        if let Ok((ps, out)) = derive_prefix(ops, (n - 1) as nat) {
            let o = ops[n - 1];
            if let (Some(inst), Some(qs)) = (o.instrument_id, o.quantity) {
                if let Some(q) = spec_parse_decimal(qs@) {
                    lemma_parse_decimal_nonneg(qs@);
                    let k = (inst@, o.currency@);
                    let idx = first_index(basis_keys(ps), k);
                    lemma_first_index(basis_keys(ps), k);
                    let nb = SaleBasis { instrument: inst, currency: o.currency, quantity: 0, cost: 0 };
                    if idx < 0 {
                        lemma_unique_push(basis_keys(ps), k);
                        assert(basis_keys(ps.push(nb)) =~= basis_keys(ps).push(k));
                    }
                    let ps1 = if idx >= 0 { ps } else { ps.push(nb) };
                    let i = if idx >= 0 { idx } else { ps.len() as int };
                    let p = ps1[i];
                    assert(forall|j: int| 0 <= j < ps1.len() ==> (#[trigger] ps1[j]).quantity >= 0);
                    if let Ok((ps2, _)) = derive_step(ps, o) {
                        if spec_kind(o.operation_type@) == OperationKind::Buy || spec_kind(o.operation_type@) == OperationKind::Sell {
                            let np = ps2[i];
                            assert(basis_keys(ps2) =~= basis_keys(ps1).update(i, (np.instrument@, np.currency@)));
                            assert(basis_keys(ps1).update(i, (np.instrument@, np.currency@)) =~= basis_keys(ps1));
                            assert forall|j: int| 0 <= j < ps2.len() implies (#[trigger] ps2[j]).quantity >= 0 by {
                                if j != i {
                                    assert(ps2[j] == ps1[j]);
                                }
                            }
                        }
                    }
                }
            }
        }
    }
}

/// Looks up the sale basis of an instrument in a currency.
fn find_basis(ps: &Vec<SaleBasis>, inst: &String, cur: &String) -> (r: Option<usize>)
    ensures
        r is None <==> first_index(basis_keys(ps@), (inst@, cur@)) == -1,
        r matches Some(i) ==> i as int == first_index(basis_keys(ps@), (inst@, cur@)),
{
    let ghost keys = basis_keys(ps@);
    let ghost k = (inst@, cur@);
    let mut i: usize = 0;
    while i < ps.len()
        invariant
            i <= ps.len(),
            keys == basis_keys(ps@),
            k == (inst@, cur@),
            forall|j: int| 0 <= j < i ==> keys[j] != k,
        decreases ps.len() - i,
    {
        assert(keys[i as int] == (ps@[i as int].instrument@, ps@[i as int].currency@));
        let same_instrument = str_eq(ps[i].instrument.as_str(), inst.as_str());
        let same_currency = str_eq(ps[i].currency.as_str(), cur.as_str());
        assert(same_instrument == (ps@[i as int].instrument@ == inst@));
        assert(same_currency == (ps@[i as int].currency@ == cur@));
        if same_instrument && same_currency {
            proof {
                lemma_first_index(keys, k);
                assert(keys[i as int] == k);
                let f = first_index(keys, k);
                if f == -1 {
                    assert(keys[i as int] != k);
                } else if f < i {
                    assert(keys[f] != k);
                } else if f > i {
                    assert(keys[i as int] != k);
                }
            }
            return Some(i);
        }
        i = i + 1;
    }
    proof {
        lemma_first_index(keys, k);
        if first_index(keys, k) != -1 {
            assert(keys[first_index(keys, k)] != k);
        }
    }
    None
}

pub proof fn lemma_derive_prefix_err(ops: Seq<BrokerageOperation>, m: nat, n: nat)
    requires
        m <= n,
        derive_prefix(ops, m) is Err,
    ensures
        derive_prefix(ops, n) == derive_prefix(ops, m),
    decreases n - m,
{
    if m < n {
        lemma_derive_prefix_err(ops, m, (n - 1) as nat);
    }
}

/// Applies one operation to the sale bases; returns the operation with its
/// sale economics derived.
fn derive_one(ps: &mut Vec<SaleBasis>, o: BrokerageOperation) -> (r: Result<BrokerageOperation, ReplayError>)
    requires
        unique_keys(basis_keys(old(ps)@)),
    ensures
        derive_step(old(ps)@, o) matches Ok((ps2, o2)) ==> r == Ok::<BrokerageOperation, ReplayError>(o2) && final(ps)@ == ps2,
        derive_step(old(ps)@, o) matches Err(e) ==> r == Err::<BrokerageOperation, ReplayError>(e),
{
    if o.instrument_id.is_none() || o.quantity.is_none() {
        return Ok(o);
    }
    let inst = clone_opt(&o.instrument_id).unwrap();
    let qs = clone_opt(&o.quantity).unwrap();
    let q = match parse_decimal(qs.as_str()) {
        Some(q) => q,
        None => return Err(ReplayError::InvalidStoredQuantity),
    };
    proof {
        lemma_parse_decimal_nonneg(qs@);
    }
    let ghost key = (inst@, o.currency@);
    let ghost ps0 = ps@;
    proof {
        lemma_first_index(basis_keys(ps@), key);
    }
    let idx = match find_basis(ps, &inst, &o.currency) {
        Some(j) => j,
        None => {
            let nb = SaleBasis { instrument: inst.clone(), currency: o.currency.clone(), quantity: 0, cost: 0 };
            ps.push(nb);
            (ps.len() - 1) as usize
        },
    };
    let kind = operation_kind(o.operation_type.as_str());
    match kind {
        OperationKind::Buy => {
            let nq = match ps[idx].quantity.checked_add(q) {
                Some(v) => v,
                None => return Err(ReplayError::QuantityOverflow),
            };
            let nc = match checked(ps[idx].cost, o.historical_cost_minor) {
                Ok(v) => v,
                Err(e) => return Err(e),
            };
            let nb = SaleBasis { instrument: ps[idx].instrument.clone(), currency: ps[idx].currency.clone(), quantity: nq, cost: nc };
            ps.set(idx, nb);
            Ok(o)
        },
        OperationKind::Sell => {
            let held = ps[idx].quantity;
            if q > held || held <= 0 {
                return Err(ReplayError::NegativePosition);
            }
            let cost = match disposed_cost(ps[idx].cost, q, held) {
                Some(c) => c,
                None => return Err(ReplayError::CostOverflow),
            };
            let result = match o.gross_amount_minor.checked_sub(cost) {
                Some(v) => v,
                None => return Err(ReplayError::ResultOverflow),
            };
            let remaining_cost = match ps[idx].cost.checked_sub(cost) {
                Some(v) => v,
                None => return Err(ReplayError::CostOverflow),
            };
            let nb = SaleBasis { instrument: ps[idx].instrument.clone(), currency: ps[idx].currency.clone(), quantity: held - q, cost: remaining_cost };
            ps.set(idx, nb);
            let mut updated = o;
            updated.historical_cost_minor = cost;
            updated.realized_result_minor = result;
            Ok(updated)
        },
        _ => Ok(o),
    }
}

/// Derives every sale's historical cost and realized result from the buys
/// before it, replaying the operations in order.
pub fn derive_sale_economics(operations: &mut Vec<BrokerageOperation>) -> (r: Result<(), ReplayError>)
    ensures
        final(operations)@.len() == old(operations)@.len(),
        r is Ok <==> spec_derive(old(operations)@) is Ok,
        spec_derive(old(operations)@) matches Ok(out) ==> final(operations)@ == out,
        spec_derive(old(operations)@) matches Err(e) ==> r == Err::<(), ReplayError>(e),
{
    let ghost ops0 = operations@;
    let mut ps: Vec<SaleBasis> = Vec::new();
    let n = operations.len();
    let mut i: usize = 0;
    assert(operations@.subrange(0, 0) =~= Seq::<BrokerageOperation>::empty());
    assert(operations@.subrange(0, n as int) =~= ops0.subrange(0, n as int));
    let mut failure: Option<ReplayError> = None;
    while i < n
        invariant_except_break
            derive_prefix(ops0, i as nat) == Ok::<(Seq<SaleBasis>, Seq<BrokerageOperation>), ReplayError>((ps@, operations@.subrange(0, i as int))),
            operations@.subrange(i as int, n as int) == ops0.subrange(i as int, n as int),
            failure is None,
        invariant
            n == operations.len() == ops0.len(),
            i <= n,
        ensures
            failure matches Some(e) ==> derive_prefix(ops0, n as nat) == Err::<(Seq<SaleBasis>, Seq<BrokerageOperation>), ReplayError>(e),
            failure is None ==> i == n && derive_prefix(ops0, n as nat) == Ok::<(Seq<SaleBasis>, Seq<BrokerageOperation>), ReplayError>((ps@, operations@.subrange(0, n as int))),
        decreases n - i,
    {
        proof {
            lemma_derive_prefix_shape(ops0, i as nat);
            assert(ops0[i as int] == ops0.subrange(i as int, n as int)[0]);
            assert(operations@[i as int] == operations@.subrange(i as int, n as int)[0]);
        }
        let o = copy_operation(&operations[i]);
        let ghost before = operations@;
        let ghost ps_before = ps@;
        match derive_one(&mut ps, o) {
            Ok(updated) => {
                operations.set(i, updated);
                proof {
                    assert(operations@.subrange(0, i + 1) =~= before.subrange(0, i as int).push(updated));
                    assert(operations@.subrange(i + 1, n as int) =~= before.subrange(i + 1, n as int));
                    assert(before.subrange(i + 1, n as int) =~= before.subrange(i as int, n as int).subrange(1, n - i));
                    assert(ops0.subrange(i + 1, n as int) =~= ops0.subrange(i as int, n as int).subrange(1, n - i));
                }
            },
            Err(e) => {
                proof {
                    lemma_derive_prefix_err(ops0, (i + 1) as nat, n as nat);
                }
                failure = Some(e);
                break;
            },
        }
        i = i + 1;
    }
    match failure {
        Some(e) => Err(e),
        None => {
            assert(operations@.subrange(0, n as int) =~= operations@);
            Ok(())
        },
    }
}

/// Running cash totals of one currency.
pub struct CashState {
    pub currency: String,
    pub available: i64,
    pub external: i64,
    pub withdrawals: i64,
    pub dividends: i64,
    pub sales: i64,
    pub result: i64,
    pub fees: i64,
    pub withholding: i64,
    pub other: i64,
    pub latest: String,
}

/// Units held of one instrument in one currency and their historical cost.
pub struct PositionState {
    pub instrument: String,
    pub currency: String,
    pub quantity: i128,
    pub cost: i64,
    pub latest: String,
}

/// Cash per currency and positions per instrument and currency, in order of
/// first appearance.
pub struct BrokerageState {
    pub cash: Vec<CashState>,
    pub positions: Vec<PositionState>,
}

pub open spec fn cash_keys(cs: Seq<CashState>) -> Seq<Seq<char>> {
    cs.map_values(|c: CashState| c.currency@)
}

pub open spec fn position_keys(ps: Seq<PositionState>) -> Seq<(Seq<char>, Seq<char>)> {
    ps.map_values(|p: PositionState| (p.instrument@, p.currency@))
}

pub open spec fn fresh_cash(o: BrokerageOperation) -> CashState {
    CashState {
        currency: o.currency,
        available: 0,
        external: 0,
        withdrawals: 0,
        dividends: 0,
        sales: 0,
        result: 0,
        fees: 0,
        withholding: 0,
        other: 0,
        latest: o.operation_id,
    }
}

/// The cash entry of the operation's currency after the operation.
pub open spec fn cash_step(c: CashState, o: BrokerageOperation) -> Result<CashState, ReplayError> {
    let available = c.available + o.net_cash_minor;
    let kind = spec_kind(o.operation_type@);
    let external = if kind == OperationKind::Deposit { c.external + o.gross_amount_minor } else { c.external as int };
    let withdrawals = if kind == OperationKind::Withdrawal { c.withdrawals + o.gross_amount_minor } else { c.withdrawals as int };
    let dividends = if kind == OperationKind::Dividend { c.dividends + o.gross_amount_minor } else { c.dividends as int };
    let sales = if kind == OperationKind::Sell { c.sales + o.gross_amount_minor } else { c.sales as int };
    let result = if kind == OperationKind::Sell { c.result + o.realized_result_minor } else { c.result as int };
    if !in_i64(available) {
        Err(ReplayError::CashOverflow)
    } else if available < 0 {
        Err(ReplayError::NegativeCash)
    } else if !in_i64(c.fees + o.fee_minor) || !in_i64(c.withholding + o.withholding_minor)
        || !in_i64(c.other + o.other_deductions_minor) || !in_i64(external) || !in_i64(withdrawals)
        || !in_i64(dividends) || !in_i64(sales) || !in_i64(result) {
        Err(ReplayError::MinorUnitOverflow)
    } else {
        Ok(CashState {
            currency: c.currency,
            available: available as i64,
            external: external as i64,
            withdrawals: withdrawals as i64,
            dividends: dividends as i64,
            sales: sales as i64,
            result: result as i64,
            fees: (c.fees + o.fee_minor) as i64,
            withholding: (c.withholding + o.withholding_minor) as i64,
            other: (c.other + o.other_deductions_minor) as i64,
            latest: o.operation_id,
        })
    }
}

/// The position entry after the operation, given its parsed quantity `q`.
pub open spec fn position_step(p: PositionState, o: BrokerageOperation, q: int) -> Result<PositionState, ReplayError> {
    let kind = spec_kind(o.operation_type@);
    if kind == OperationKind::Buy {
        if !in_i128(p.quantity + q) {
            Err(ReplayError::QuantityOverflow)
        } else if !in_i64(p.cost + o.historical_cost_minor) {
            Err(ReplayError::MinorUnitOverflow)
        } else if p.quantity + q < 0 || p.cost + o.historical_cost_minor < 0 {
            Err(ReplayError::NegativePosition)
        } else {
            Ok(PositionState {
                quantity: (p.quantity + q) as i128,
                cost: (p.cost + o.historical_cost_minor) as i64,
                latest: o.operation_id,
                ..p
            })
        }
    } else if kind == OperationKind::Sell {
        match spec_disposed_cost(p.cost as int, q, p.quantity as int) {
            None => Err(ReplayError::CostOverflow),
            Some(d) => {
                if !in_i128(p.quantity - q) {
                    Err(ReplayError::QuantityOverflow)
                } else if !in_i64(p.cost - d) {
                    Err(ReplayError::CostOverflow)
                } else if p.quantity - q < 0 || p.cost - d < 0 {
                    Err(ReplayError::NegativePosition)
                } else {
                    Ok(PositionState {
                        quantity: (p.quantity - q) as i128,
                        cost: (p.cost - d) as i64,
                        latest: o.operation_id,
                        ..p
                    })
                }
            },
        }
    } else if p.quantity < 0 || p.cost < 0 {
        Err(ReplayError::NegativePosition)
    } else {
        Ok(PositionState { latest: o.operation_id, ..p })
    }
}

/// The position entry an operation with an instrument and quantity draws on.
pub open spec fn position_slot(ps: Seq<PositionState>, inst: String, o: BrokerageOperation) -> (Seq<PositionState>, int) {
    let idx = first_index(position_keys(ps), (inst@, o.currency@));
    if idx >= 0 {
        (ps, idx)
    } else {
        (ps.push(PositionState { instrument: inst, currency: o.currency, quantity: 0, cost: 0, latest: o.operation_id }), ps.len() as int)
    }
}

/// One operation applied to the brokerage state.
pub open spec fn replay_step(cs: Seq<CashState>, ps: Seq<PositionState>, o: BrokerageOperation) -> Result<
    (Seq<CashState>, Seq<PositionState>),
    ReplayError,
> {
    let ci = first_index(cash_keys(cs), o.currency@);
    let cs1 = if ci >= 0 { cs } else { cs.push(fresh_cash(o)) };
    let i = if ci >= 0 { ci } else { cs.len() as int };
    match cash_step(cs1[i], o) {
        Err(e) => Err(e),
        Ok(c) => {
            let cs2 = cs1.update(i, c);
            match (o.instrument_id, o.quantity) {
                (Some(inst), Some(qs)) => match spec_parse_decimal(qs@) {
                    None => Err(ReplayError::InvalidStoredQuantity),
                    Some(q) => {
                        let (ps1, j) = position_slot(ps, inst, o);
                        match position_step(ps1[j], o, q) {
                            Err(e) => Err(e),
                            Ok(p) => Ok((cs2, ps1.update(j, p))),
                        }
                    },
                },
                _ => Ok((cs2, ps)),
            }
        },
    }
}

/// Whether applying `o` to the state would divide by an empty position: a
/// partial sale of an instrument with no units held.
pub open spec fn step_divides_by_zero(cs: Seq<CashState>, ps: Seq<PositionState>, o: BrokerageOperation) -> bool {
    let ci = first_index(cash_keys(cs), o.currency@);
    let cs1 = if ci >= 0 { cs } else { cs.push(fresh_cash(o)) };
    let i = if ci >= 0 { ci } else { cs.len() as int };
    &&& cash_step(cs1[i], o) is Ok
    &&& o.instrument_id is Some
    &&& o.quantity is Some
    &&& spec_parse_decimal(o.quantity->0@) matches Some(q) && {
        let (ps1, j) = position_slot(ps, o.instrument_id->0, o);
        spec_kind(o.operation_type@) == OperationKind::Sell && q != ps1[j].quantity && ps1[j].quantity == 0
    }
}

/// The state after the first `n` operations.
pub open spec fn replay_prefix(ops: Seq<BrokerageOperation>, n: nat) -> Result<
    (Seq<CashState>, Seq<PositionState>),
    ReplayError,
>
    decreases n,
{
    if n == 0 {
        Ok((Seq::empty(), Seq::empty()))
    } else {
        match replay_prefix(ops, (n - 1) as nat) {
            Err(e) => Err(e),
            Ok((cs, ps)) => replay_step(cs, ps, ops[n - 1]),
        }
    }
}

/// The state after all operations, or the first failure.
pub open spec fn spec_replay(ops: Seq<BrokerageOperation>) -> Result<(Seq<CashState>, Seq<PositionState>), ReplayError> {
    replay_prefix(ops, ops.len())
}

/// No operation divides by an empty position while the replay still succeeds.
pub open spec fn replay_total(ops: Seq<BrokerageOperation>) -> bool {
    forall|n: nat| n < ops.len() ==> (#[trigger] replay_prefix(ops, n) matches Ok((cs, ps)) ==> !step_divides_by_zero(cs, ps, ops[n as int]))
}

fn find_cash(cs: &Vec<CashState>, cur: &String) -> (r: Option<usize>)
    ensures
        r is None <==> first_index(cash_keys(cs@), cur@) == -1,
        r matches Some(i) ==> i as int == first_index(cash_keys(cs@), cur@),
{
    let ghost keys = cash_keys(cs@);
    let mut i: usize = 0;
    while i < cs.len()
        invariant
            i <= cs.len(),
            keys == cash_keys(cs@),
            forall|j: int| 0 <= j < i ==> keys[j] != cur@,
        decreases cs.len() - i,
    {
        assert(keys[i as int] == cs@[i as int].currency@);
        if str_eq(cs[i].currency.as_str(), cur.as_str()) {
            proof {
                lemma_first_index(keys, cur@);
                let f = first_index(keys, cur@);
                if f == -1 {
                    assert(keys[i as int] != cur@);
                } else if f < i {
                    assert(keys[f] != cur@);
                } else if f > i {
                    assert(keys[i as int] != cur@);
                }
            }
            return Some(i);
        }
        i = i + 1;
    }
    proof {
        lemma_first_index(keys, cur@);
        if first_index(keys, cur@) != -1 {
            assert(keys[first_index(keys, cur@)] != cur@);
        }
    }
    None
}

fn find_position(ps: &Vec<PositionState>, inst: &String, cur: &String) -> (r: Option<usize>)
    ensures
        r is None <==> first_index(position_keys(ps@), (inst@, cur@)) == -1,
        r matches Some(i) ==> i as int == first_index(position_keys(ps@), (inst@, cur@)),
{
    let ghost keys = position_keys(ps@);
    let ghost k = (inst@, cur@);
    let mut i: usize = 0;
    while i < ps.len()
        invariant
            i <= ps.len(),
            keys == position_keys(ps@),
            k == (inst@, cur@),
            forall|j: int| 0 <= j < i ==> keys[j] != k,
        decreases ps.len() - i,
    {
        assert(keys[i as int] == (ps@[i as int].instrument@, ps@[i as int].currency@));
        let same_instrument = str_eq(ps[i].instrument.as_str(), inst.as_str());
        let same_currency = str_eq(ps[i].currency.as_str(), cur.as_str());
        if same_instrument && same_currency {
            proof {
                lemma_first_index(keys, k);
                let f = first_index(keys, k);
                if f == -1 {
                    assert(keys[i as int] != k);
                } else if f < i {
                    assert(keys[f] != k);
                } else if f > i {
                    assert(keys[i as int] != k);
                }
            }
            return Some(i);
        }
        i = i + 1;
    }
    proof {
        lemma_first_index(keys, k);
        if first_index(keys, k) != -1 {
            assert(keys[first_index(keys, k)] != k);
        }
    }
    None
}

fn add_if(flag: bool, base: i64, amount: i64) -> (r: Option<i64>)
    ensures
        ({
            let v = if flag { base + amount } else { base as int };
            &&& (r is Some <==> in_i64(v))
            &&& (r matches Some(x) ==> x as int == v)
        }),
{
    if flag { base.checked_add(amount) } else { Some(base) }
}

fn cash_apply(c: &CashState, o: &BrokerageOperation) -> (r: Result<CashState, ReplayError>)
    ensures
        r == cash_step(*c, *o),
{
    let available = match c.available.checked_add(o.net_cash_minor) {
        Some(v) => v,
        None => return Err(ReplayError::CashOverflow),
    };
    if available < 0 {
        return Err(ReplayError::NegativeCash);
    }
    let kind = operation_kind(o.operation_type.as_str());
    let fees = c.fees.checked_add(o.fee_minor);
    let withholding = c.withholding.checked_add(o.withholding_minor);
    let other = c.other.checked_add(o.other_deductions_minor);
    let external = add_if(kind == OperationKind::Deposit, c.external, o.gross_amount_minor);
    let withdrawals = add_if(kind == OperationKind::Withdrawal, c.withdrawals, o.gross_amount_minor);
    let dividends = add_if(kind == OperationKind::Dividend, c.dividends, o.gross_amount_minor);
    let sales = add_if(kind == OperationKind::Sell, c.sales, o.gross_amount_minor);
    let result = add_if(kind == OperationKind::Sell, c.result, o.realized_result_minor);
    match (fees, withholding, other, external, withdrawals, dividends, sales, result) {
        (Some(fees), Some(withholding), Some(other), Some(external), Some(withdrawals), Some(dividends), Some(sales), Some(result)) => {
            Ok(CashState {
                currency: c.currency.clone(),
                available,
                external,
                withdrawals,
                dividends,
                sales,
                result,
                fees,
                withholding,
                other,
                latest: o.operation_id.clone(),
            })
        },
        _ => Err(ReplayError::MinorUnitOverflow),
    }
}

fn position_apply(p: &PositionState, o: &BrokerageOperation, q: i128) -> (r: Result<PositionState, ReplayError>)
    requires
        spec_kind(o.operation_type@) == OperationKind::Sell && q != p.quantity ==> p.quantity != 0,
        p.quantity >= 0,
    ensures
        r == position_step(*p, *o, q as int),
{
    let kind = operation_kind(o.operation_type.as_str());
    let (quantity, cost) = if kind == OperationKind::Buy {
        let nq = match p.quantity.checked_add(q) {
            Some(v) => v,
            None => return Err(ReplayError::QuantityOverflow),
        };
        let nc = match p.cost.checked_add(o.historical_cost_minor) {
            Some(v) => v,
            None => return Err(ReplayError::MinorUnitOverflow),
        };
        (nq, nc)
    } else if kind == OperationKind::Sell {
        let d = if q == p.quantity {
            p.cost
        } else {
            match disposed_cost(p.cost, q, p.quantity) {
                Some(d) => d,
                None => return Err(ReplayError::CostOverflow),
            }
        };
        let nq = match p.quantity.checked_sub(q) {
            Some(v) => v,
            None => return Err(ReplayError::QuantityOverflow),
        };
        let nc = match p.cost.checked_sub(d) {
            Some(v) => v,
            None => return Err(ReplayError::CostOverflow),
        };
        (nq, nc)
    } else {
        (p.quantity, p.cost)
    };
    if quantity < 0 || cost < 0 {
        return Err(ReplayError::NegativePosition);
    }
    Ok(PositionState {
        instrument: p.instrument.clone(),
        currency: p.currency.clone(),
        quantity,
        cost,
        latest: o.operation_id.clone(),
    })
}

/// A well-formed state: one entry per key, no negative cash, no negative
/// position quantity or cost.
pub open spec fn state_invariant(cs: Seq<CashState>, ps: Seq<PositionState>) -> bool {
    &&& unique_keys(cash_keys(cs))
    &&& unique_keys(position_keys(ps))
    &&& forall|j: int| 0 <= j < cs.len() ==> (#[trigger] cs[j]).available >= 0
    &&& forall|j: int| 0 <= j < ps.len() ==> (#[trigger] ps[j]).quantity >= 0 && ps[j].cost >= 0
}

pub proof fn lemma_replay_step_invariant(cs: Seq<CashState>, ps: Seq<PositionState>, o: BrokerageOperation)
    requires
        state_invariant(cs, ps),
    ensures
        replay_step(cs, ps, o) matches Ok((cs2, ps2)) ==> state_invariant(cs2, ps2),
{
    let ci = first_index(cash_keys(cs), o.currency@);
    lemma_first_index(cash_keys(cs), o.currency@);
    let cs1 = if ci >= 0 { cs } else { cs.push(fresh_cash(o)) };
    let i = if ci >= 0 { ci } else { cs.len() as int };
    if ci < 0 {
        lemma_unique_push(cash_keys(cs), o.currency@);
        assert(cash_keys(cs.push(fresh_cash(o))) =~= cash_keys(cs).push(o.currency@));
    }
    assert(unique_keys(cash_keys(cs1)));
    assert(forall|j: int| 0 <= j < cs1.len() ==> (#[trigger] cs1[j]).available >= 0);
    if let Ok(c) = cash_step(cs1[i], o) {
        let cs2 = cs1.update(i, c);
        assert(cash_keys(cs2) =~= cash_keys(cs1));
        assert forall|j: int| 0 <= j < cs2.len() implies (#[trigger] cs2[j]).available >= 0 by {
            if j != i {
                assert(cs2[j] == cs1[j]);
            }
        }
        if let (Some(inst), Some(qs)) = (o.instrument_id, o.quantity) {
            if let Some(q) = spec_parse_decimal(qs@) {
                let k = (inst@, o.currency@);
                lemma_first_index(position_keys(ps), k);
                let (ps1, j) = position_slot(ps, inst, o);
                if first_index(position_keys(ps), k) < 0 {
                    lemma_unique_push(position_keys(ps), k);
                    assert(position_keys(ps1) =~= position_keys(ps).push(k));
                }
                assert(forall|m: int| 0 <= m < ps1.len() ==> (#[trigger] ps1[m]).quantity >= 0 && ps1[m].cost >= 0);
                if let Ok(p) = position_step(ps1[j], o, q) {
                    let ps2 = ps1.update(j, p);
                    assert(position_keys(ps2) =~= position_keys(ps1));
                    assert forall|m: int| 0 <= m < ps2.len() implies (#[trigger] ps2[m]).quantity >= 0 && ps2[m].cost >= 0 by {
                        if m != j {
                            assert(ps2[m] == ps1[m]);
                        }
                    }
                }
            }
        }
    }
}

/// What an operation adds to cash figure `k` of its currency; the figures
/// are, in order, available cash, external deposits, withdrawals,
/// dividends, sales, realized result, fees, withholding and other
/// deductions.
pub open spec fn op_cash_delta(o: BrokerageOperation, k: int) -> int {
    let kind = spec_kind(o.operation_type@);
    if k == 0 {
        o.net_cash_minor as int
    } else if k == 1 {
        if kind == OperationKind::Deposit { o.gross_amount_minor as int } else { 0 }
    } else if k == 2 {
        if kind == OperationKind::Withdrawal { o.gross_amount_minor as int } else { 0 }
    } else if k == 3 {
        if kind == OperationKind::Dividend { o.gross_amount_minor as int } else { 0 }
    } else if k == 4 {
        if kind == OperationKind::Sell { o.gross_amount_minor as int } else { 0 }
    } else if k == 5 {
        if kind == OperationKind::Sell { o.realized_result_minor as int } else { 0 }
    } else if k == 6 {
        o.fee_minor as int
    } else if k == 7 {
        o.withholding_minor as int
    } else {
        o.other_deductions_minor as int
    }
}

/// Cash figure `k` of a currency's cash state (see `op_cash_delta`).
pub open spec fn cash_figure(c: CashState, k: int) -> int {
    if k == 0 {
        c.available as int
    } else if k == 1 {
        c.external as int
    } else if k == 2 {
        c.withdrawals as int
    } else if k == 3 {
        c.dividends as int
    } else if k == 4 {
        c.sales as int
    } else if k == 5 {
        c.result as int
    } else if k == 6 {
        c.fees as int
    } else if k == 7 {
        c.withholding as int
    } else {
        c.other as int
    }
}

/// What the operations in currency `cur` add to cash figure `k`.
pub open spec fn currency_sum(ops: Seq<BrokerageOperation>, cur: Seq<char>, k: int) -> int
    decreases ops.len(),
{
    if ops.len() == 0 {
        0
    } else {
        currency_sum(ops.drop_last(), cur, k) + if ops.last().currency@ == cur { op_cash_delta(ops.last(), k) } else { 0 }
    }
}

proof fn lemma_currency_sum_absent(ops: Seq<BrokerageOperation>, cur: Seq<char>, k: int)
    requires
        forall|j: int| 0 <= j < ops.len() ==> (#[trigger] ops[j]).currency@ != cur,
    ensures
        currency_sum(ops, cur, k) == 0,
    decreases ops.len(),
{
    if ops.len() > 0 {
        let pre = ops.drop_last();
        assert forall|j: int| 0 <= j < pre.len() implies (#[trigger] pre[j]).currency@ != cur by {
            assert(pre[j] == ops[j]);
        }
        lemma_currency_sum_absent(pre, cur, k);
        assert(ops.last() == ops[ops.len() - 1]);
    }
}

proof fn lemma_cash_step_adds(c0: CashState, o: BrokerageOperation, k: int)
    requires
        cash_step(c0, o) is Ok,
        0 <= k < 9,
    ensures
        cash_step(c0, o)->Ok_0.currency == c0.currency,
        cash_figure(cash_step(c0, o)->Ok_0, k) == cash_figure(c0, k) + op_cash_delta(o, k),
{
}

/// Each cash figure of a currency is the sum of what that currency's
/// operations added to it: after any successful replay of the first `n`
/// operations, the cash states name each currency once, every currency of
/// those operations has one, and each of its nine figures equals the sum
/// of the operations' amounts for that figure.
pub proof fn law_cash_figures_are_sums(ops: Seq<BrokerageOperation>, n: nat)
    requires
        n <= ops.len(),
    ensures
        replay_prefix(ops, n) matches Ok((cs, ps)) ==> {
            &&& unique_keys(cash_keys(cs))
            &&& forall|j: int| 0 <= j < n ==> cash_keys(cs).contains(#[trigger] ops[j].currency@)
            &&& forall|i: int, k: int| 0 <= i < cs.len() && 0 <= k < 9 ==> #[trigger] cash_figure(cs[i], k)
                == currency_sum(ops.take(n as int), cs[i].currency@, k)
        },
    decreases n,
{
    if n > 0 {
        law_cash_figures_are_sums(ops, (n - 1) as nat);
        if let Ok((cs, ps)) = replay_prefix(ops, (n - 1) as nat) {
            let o = ops[n - 1];
            let pre = ops.take(n - 1);
            let cur = ops.take(n as int);
            assert(cur.drop_last() =~= pre);
            assert(cur.last() == o);
            let keys = cash_keys(cs);
            lemma_first_index(keys, o.currency@);
            let ci = first_index(keys, o.currency@);
            let cs1 = if ci >= 0 { cs } else { cs.push(fresh_cash(o)) };
            let i = if ci >= 0 { ci } else { cs.len() as int };
            if ci < 0 {
                lemma_unique_push(keys, o.currency@);
                assert(cash_keys(cs1) =~= keys.push(o.currency@));
                assert forall|j: int| 0 <= j < pre.len() implies (#[trigger] pre[j]).currency@ != o.currency@ by {
                    assert(pre[j] == ops[j]);
                    assert(keys.contains(ops[j].currency@));
                }
                assert forall|k: int| 0 <= k < 9 implies currency_sum(pre, o.currency@, k) == 0 by {
                    lemma_currency_sum_absent(pre, o.currency@, k);
                }
            }
            if let Ok(c) = cash_step(cs1[i], o) {
                let cs2 = cs1.update(i, c);
                assert(cash_keys(cs2) =~= cash_keys(cs1));
                if let Ok((cs3, ps3)) = replay_step(cs, ps, o) {
                    assert(cs3 == cs2);
                    assert forall|j: int| 0 <= j < n implies cash_keys(cs2).contains(#[trigger] ops[j].currency@) by {
                        if j < n - 1 {
                            assert(keys.contains(ops[j].currency@));
                            let w = choose|w: int| 0 <= w < keys.len() && keys[w] == ops[j].currency@;
                            assert(cash_keys(cs2)[w] == ops[j].currency@);
                        } else {
                            assert(cash_keys(cs2)[i] == o.currency@);
                        }
                    }
                    assert forall|a: int, k: int| 0 <= a < cs2.len() && 0 <= k < 9 implies #[trigger] cash_figure(cs2[a], k)
                        == currency_sum(cur, cs2[a].currency@, k) by {
                        assert(cash_keys(cs1)[i] == o.currency@);
                        assert(cs1[i].currency@ == o.currency@);
                        if a == i {
                            assert(cs2[a] == c);
                            lemma_cash_step_adds(cs1[i], o, k);
                            if ci >= 0 {
                                assert(cs1[i] == cs[i]);
                                assert(cash_figure(cs[i], k) == currency_sum(pre, cs[i].currency@, k));
                            }
                            assert(currency_sum(cur, o.currency@, k) == currency_sum(pre, o.currency@, k)
                                + op_cash_delta(o, k));
                        } else {
                            assert(cs2[a] == cs1[a]);
                            assert(cash_keys(cs1)[a] != cash_keys(cs1)[i]);
                            assert(cs1[a].currency@ != o.currency@);
                            assert(a < cs.len());
                            assert(cs1[a] == cs[a]);
                            assert(cash_figure(cs[a], k) == currency_sum(pre, cs[a].currency@, k));
                            assert(currency_sum(cur, cs[a].currency@, k) == currency_sum(pre, cs[a].currency@, k));
                        }
                    }
                }
            }
        }
    }
}

/// Every state a successful replay reaches keeps cash and positions non-negative.
pub proof fn law_replay_never_negative(ops: Seq<BrokerageOperation>, n: nat)
    requires
        n <= ops.len(),
    ensures
        replay_prefix(ops, n) matches Ok((cs, ps)) ==> state_invariant(cs, ps),
    decreases n,
{
    if n > 0 {
        law_replay_never_negative(ops, (n - 1) as nat);
        if let Ok((cs, ps)) = replay_prefix(ops, (n - 1) as nat) {
            lemma_replay_step_invariant(cs, ps, ops[n - 1]);
        }
    } else {
        assert(cash_keys(Seq::<CashState>::empty()) =~= Seq::<Seq<char>>::empty());
        assert(position_keys(Seq::<PositionState>::empty()) =~= Seq::<(Seq<char>, Seq<char>)>::empty());
    }
}

pub proof fn lemma_replay_prefix_err(ops: Seq<BrokerageOperation>, m: nat, n: nat)
    requires
        m <= n,
        replay_prefix(ops, m) is Err,
    ensures
        replay_prefix(ops, n) == replay_prefix(ops, m),
    decreases n - m,
{
    if m < n {
        lemma_replay_prefix_err(ops, m, (n - 1) as nat);
    }
}

fn replay_one(cash: &mut Vec<CashState>, positions: &mut Vec<PositionState>, o: &BrokerageOperation) -> (r: Result<(), ReplayError>)
    requires
        state_invariant(old(cash)@, old(positions)@),
        !step_divides_by_zero(old(cash)@, old(positions)@, *o),
    ensures
        replay_step(old(cash)@, old(positions)@, *o) matches Ok((cs, ps)) ==> r is Ok && final(cash)@ == cs && final(positions)@ == ps,
        replay_step(old(cash)@, old(positions)@, *o) matches Err(e) ==> r == Err::<(), ReplayError>(e),
{
    let ghost cs0 = cash@;
    let ghost ps0 = positions@;
    proof {
        lemma_first_index(cash_keys(cs0), o.currency@);
    }
    let i = match find_cash(cash, &o.currency) {
        Some(i) => i,
        None => {
            cash.push(CashState {
                currency: o.currency.clone(),
                available: 0,
                external: 0,
                withdrawals: 0,
                dividends: 0,
                sales: 0,
                result: 0,
                fees: 0,
                withholding: 0,
                other: 0,
                latest: o.operation_id.clone(),
            });
            cash.len() - 1
        },
    };
    let c = match cash_apply(&cash[i], o) {
        Ok(c) => c,
        Err(e) => return Err(e),
    };
    cash.set(i, c);
    if o.instrument_id.is_none() || o.quantity.is_none() {
        return Ok(());
    }
    let inst = clone_opt(&o.instrument_id).unwrap();
    let qs = clone_opt(&o.quantity).unwrap();
    let q = match parse_decimal(qs.as_str()) {
        Some(q) => q,
        None => return Err(ReplayError::InvalidStoredQuantity),
    };
    let ghost k = (inst@, o.currency@);
    proof {
        lemma_first_index(position_keys(ps0), k);
    }
    let j = match find_position(positions, &inst, &o.currency) {
        Some(j) => j,
        None => {
            positions.push(PositionState {
                instrument: inst.clone(),
                currency: o.currency.clone(),
                quantity: 0,
                cost: 0,
                latest: o.operation_id.clone(),
            });
            positions.len() - 1
        },
    };
    assert(positions@[j as int].quantity >= 0);
    let p = match position_apply(&positions[j], o, q) {
        Ok(p) => p,
        Err(e) => return Err(e),
    };
    positions.set(j, p);
    Ok(())
}

/// Replays an account's active operations into its cash and positions.
pub fn state_from_ops(ops: &Vec<BrokerageOperation>) -> (r: Result<BrokerageState, ReplayError>)
    requires
        replay_total(ops@),
    ensures
        r matches Ok(st) ==> spec_replay(ops@) == Ok::<(Seq<CashState>, Seq<PositionState>), ReplayError>((st.cash@, st.positions@)),
        r matches Err(e) ==> spec_replay(ops@) == Err::<(Seq<CashState>, Seq<PositionState>), ReplayError>(e),
{
    let mut cash: Vec<CashState> = Vec::new();
    let mut positions: Vec<PositionState> = Vec::new();
    let n = ops.len();
    let mut i: usize = 0;
    while i < n
        invariant
            n == ops.len(),
            i <= n,
            replay_total(ops@),
            replay_prefix(ops@, i as nat) == Ok::<(Seq<CashState>, Seq<PositionState>), ReplayError>((cash@, positions@)),
        decreases n - i,
    {
        proof {
            law_replay_never_negative(ops@, i as nat);
            assert(replay_prefix(ops@, i as nat) matches Ok((cs, ps)) ==> !step_divides_by_zero(cs, ps, ops@[i as int]));
        }
        match replay_one(&mut cash, &mut positions, &ops[i]) {
            Ok(()) => {},
            Err(e) => {
                proof {
                    lemma_replay_prefix_err(ops@, (i + 1) as nat, n as nat);
                }
                return Err(e);
            },
        }
        i = i + 1;
    }
    Ok(BrokerageState { cash, positions })
}

pub proof fn lemma_derive_prefix_ok_below(ops: Seq<BrokerageOperation>, m: nat, n: nat)
    requires
        m <= n,
        derive_prefix(ops, n) is Ok,
    ensures
        derive_prefix(ops, m) is Ok,
{
    if derive_prefix(ops, m) is Err {
        lemma_derive_prefix_err(ops, m, n);
    }
}

pub proof fn lemma_derive_prefix_out(ops: Seq<BrokerageOperation>, m: nat, n: nat)
    requires
        m <= n <= ops.len(),
        derive_prefix(ops, n) is Ok,
    ensures
        derive_prefix(ops, m) is Ok,
        derive_prefix(ops, m)->Ok_0.1 == derive_prefix(ops, n)->Ok_0.1.subrange(0, m as int),
    decreases n - m,
{
    lemma_derive_prefix_ok_below(ops, m, n);
    lemma_derive_prefix_shape(ops, n);
    if m < n {
        lemma_derive_prefix_ok_below(ops, (n - 1) as nat, n);
        lemma_derive_prefix_out(ops, m, (n - 1) as nat);
        lemma_derive_prefix_shape(ops, (n - 1) as nat);
        let prev = derive_prefix(ops, (n - 1) as nat)->Ok_0.1;
        let cur = derive_prefix(ops, n)->Ok_0.1;
        assert(cur.subrange(0, m as int) =~= prev.subrange(0, m as int));
    } else {
        assert(derive_prefix(ops, n)->Ok_0.1.subrange(0, m as int) =~= derive_prefix(ops, n)->Ok_0.1);
    }
}

/// Deriving sale economics changes only a sale's historical cost and result.
pub proof fn lemma_derive_step_keeps_identity(ps: Seq<SaleBasis>, o: BrokerageOperation)
    ensures
        derive_step(ps, o) matches Ok((_, o2)) ==> o2.instrument_id == o.instrument_id
            && o2.quantity == o.quantity && o2.currency == o.currency
            && o2.operation_type == o.operation_type && o2.operation_id == o.operation_id
            && o2.net_cash_minor == o.net_cash_minor,
{
}

/// Positions of a replay and sale bases of the derivation agree on keys and units.
pub open spec fn bases_match(ps: Seq<PositionState>, bs: Seq<SaleBasis>) -> bool {
    &&& position_keys(ps) == basis_keys(bs)
    &&& forall|j: int| 0 <= j < ps.len() ==> (#[trigger] ps[j]).quantity == bs[j].quantity
}

/// A replay step over a derived operation mirrors the derivation's step on
/// the sale bases, and never divides by an empty position.
pub proof fn lemma_step_tracks_derive(
    cs: Seq<CashState>,
    ps: Seq<PositionState>,
    bs: Seq<SaleBasis>,
    o: BrokerageOperation,
)
    requires
        bases_match(ps, bs),
        derive_step(bs, o) is Ok,
    ensures
        !step_divides_by_zero(cs, ps, derive_step(bs, o)->Ok_0.1),
        replay_step(cs, ps, derive_step(bs, o)->Ok_0.1) matches Ok((cs2, ps2)) ==> bases_match(ps2, derive_step(bs, o)->Ok_0.0),
{
    let (bs2, o2) = derive_step(bs, o)->Ok_0;
    lemma_derive_step_keeps_identity(bs, o);
    if let (Some(inst), Some(qs)) = (o.instrument_id, o.quantity) {
        if let Some(q) = spec_parse_decimal(qs@) {
            let k = (inst@, o.currency@);
            let (ps1, j) = position_slot(ps, inst, o2);
            let idx = first_index(basis_keys(bs), k);
            let nb = SaleBasis { instrument: inst, currency: o.currency, quantity: 0, cost: 0 };
            let bs1 = if idx >= 0 { bs } else { bs.push(nb) };
            lemma_first_index(basis_keys(bs), k);
            if idx < 0 {
                assert(basis_keys(bs1) =~= basis_keys(bs).push(k));
                assert(position_keys(ps1) =~= position_keys(ps).push(k));
            }
            assert(position_keys(ps1) == basis_keys(bs1));
            assert(forall|m: int| 0 <= m < ps1.len() ==> (#[trigger] ps1[m]).quantity == bs1[m].quantity);
            assert(ps1[j].quantity == bs1[j].quantity);
            if let Ok((cs2, ps2)) = replay_step(cs, ps, o2) {
                let p = ps2[j];
                assert(position_keys(ps2) =~= position_keys(ps1)) by {
                    assert(ps2 == ps1.update(j, p));
                }
                if spec_kind(o.operation_type@) == OperationKind::Buy || spec_kind(o.operation_type@) == OperationKind::Sell {
                    assert(basis_keys(bs2) =~= basis_keys(bs1));
                    assert forall|m: int| 0 <= m < ps2.len() implies (#[trigger] ps2[m]).quantity == bs2[m].quantity by {
                        if m != j {
                            assert(ps2[m] == ps1[m]);
                            assert(bs2[m] == bs1[m]);
                        }
                    }
                } else {
                    assert forall|m: int| 0 <= m < ps2.len() implies (#[trigger] ps2[m]).quantity == bs2[m].quantity by {
                        if m != j {
                            assert(ps2[m] == ps1[m]);
                        }
                    }
                }
            }
        }
    }
}

pub proof fn lemma_replay_tracks_derive(ops: Seq<BrokerageOperation>, out: Seq<BrokerageOperation>, n: nat)
    requires
        spec_derive(ops) == Ok::<Seq<BrokerageOperation>, ReplayError>(out),
        n <= ops.len(),
    ensures
        derive_prefix(ops, n) is Ok,
        derive_prefix(ops, n)->Ok_0.1 == out.subrange(0, n as int),
        replay_prefix(out, n) matches Ok((cs, ps)) ==> bases_match(ps, derive_prefix(ops, n)->Ok_0.0),
    decreases n,
{
    lemma_derive_prefix_shape(ops, ops.len());
    lemma_derive_prefix_out(ops, n, ops.len());
    if n > 0 {
        let m = (n - 1) as nat;
        lemma_replay_tracks_derive(ops, out, m);
        lemma_derive_prefix_shape(ops, m);
        let (bs, prev) = derive_prefix(ops, m)->Ok_0;
        assert(derive_step(bs, ops[m as int]) is Ok);
        assert(derive_step(bs, ops[m as int])->Ok_0.1 == out[m as int]) by {
            assert(derive_prefix(ops, n)->Ok_0.1 == prev.push(derive_step(bs, ops[m as int])->Ok_0.1));
            assert(out.subrange(0, n as int)[m as int] == out[m as int]);
        }
        if let Ok((cs, ps)) = replay_prefix(out, m) {
            lemma_step_tracks_derive(cs, ps, bs, ops[m as int]);
        }
    } else {
        assert(position_keys(Seq::<PositionState>::empty()) =~= basis_keys(Seq::<SaleBasis>::empty()));
    }
}

/// Replaying operations whose sale economics were derived never divides by
/// an empty position.
pub proof fn lemma_derived_replay_total(ops: Seq<BrokerageOperation>, out: Seq<BrokerageOperation>)
    requires
        spec_derive(ops) == Ok::<Seq<BrokerageOperation>, ReplayError>(out),
    ensures
        replay_total(out),
{
    lemma_derive_prefix_shape(ops, ops.len());
    assert forall|n: nat| n < out.len() implies (#[trigger] replay_prefix(out, n) matches Ok((cs, ps)) ==> !step_divides_by_zero(cs, ps, out[n as int])) by {
        lemma_replay_tracks_derive(ops, out, n);
        lemma_replay_tracks_derive(ops, out, n + 1);
        let (bs, prev) = derive_prefix(ops, n)->Ok_0;
        assert(derive_step(bs, ops[n as int]) is Ok);
        assert(derive_step(bs, ops[n as int])->Ok_0.1 == out[n as int]) by {
            assert(derive_prefix(ops, n + 1)->Ok_0.1 == prev.push(derive_step(bs, ops[n as int])->Ok_0.1));
            assert(out.subrange(0, n as int + 1)[n as int] == out[n as int]);
        }
        if let Ok((cs, ps)) = replay_prefix(out, n) {
            lemma_step_tracks_derive(cs, ps, bs, ops[n as int]);
        }
    }
}

/// The state of an account from its active operations: sale economics are
/// derived first, then the operations are replayed.
pub fn account_state(ops: &mut Vec<BrokerageOperation>) -> (r: Result<BrokerageState, ReplayError>)
    ensures
        spec_derive(old(ops)@) matches Err(e) ==> r == Err::<BrokerageState, ReplayError>(e),
        spec_derive(old(ops)@) matches Ok(out) ==> final(ops)@ == out && (r matches Ok(st)
            ==> spec_replay(out) == Ok::<(Seq<CashState>, Seq<PositionState>), ReplayError>((st.cash@, st.positions@)))
            && (r matches Err(e) ==> spec_replay(out) == Err::<(Seq<CashState>, Seq<PositionState>), ReplayError>(e)),
{
    let ghost ops0 = ops@;
    match derive_sale_economics(ops) {
        Err(e) => Err(e),
        Ok(()) => {
            proof {
                lemma_derived_replay_total(ops0, ops@);
            }
            state_from_ops(ops)
        },
    }
}

/// Schema version of every brokerage response.
pub open spec fn brokerage_schema() -> Seq<char> {
    "tracky.brokerage.v1"@
}

/// `r` reports exactly one recoverable validation failure `code` at `path`.
pub open spec fn is_error_response(r: BrokerageResponse, command: Seq<char>, code: Seq<char>, path: Seq<char>) -> bool {
    &&& r.schema_version@ == brokerage_schema()
    &&& r.command@ == command
    &&& !r.ok
    &&& r.accounts@.len() == 0
    &&& r.operation_history@.len() == 0
    &&& r.errors@.len() == 1
    &&& r.errors@[0].category@ == "validation_failure"@
    &&& r.errors@[0].code@ == code
    &&& r.errors@[0].message@ == spaced(code)
    &&& r.errors@[0].path@ == path
    &&& r.errors@[0].recoverable
    &&& r.errors@[0].details@.len() == 0
}

/// The failed response for `command` with validation failure `code` at `path`.
pub fn err(command: &str, code: &str, path: &str) -> (r: BrokerageResponse)
    ensures
        is_error_response(r, command@, code@, path@),
{
    let mut errors = Vec::new();
    errors.push(validation_failure(code, path));
    BrokerageResponse {
        schema_version: owned("tracky.brokerage.v1"),
        command: owned(command),
        ok: false,
        accounts: Vec::new(),
        operation_history: Vec::new(),
        errors,
    }
}

/// The economic terms of a brokerage operation about to be recorded.
pub struct Terms {
    pub kind: String,
    pub date: String,
    pub currency: String,
    pub instrument: Option<String>,
    pub quantity: Option<String>,
    pub gross: i64,
    pub cost: i64,
    pub result: i64,
    pub fee: i64,
    pub fee_treatment: Option<String>,
    pub withholding: i64,
    pub other: i64,
    pub net: i64,
    pub allocation: Option<String>,
    pub destination: Option<String>,
    pub linked: Option<String>,
    pub component: Option<String>,
}

/// What storage says about the references an operation makes.
pub struct BrokerageFacts {
    /// The brokerage account exists.
    pub account_exists: bool,
    /// Denomination currency of the operation's instrument when it is a security.
    pub instrument_currency: Option<String>,
    /// The withdrawal destination is an owned account in the operation's currency.
    pub destination_owned: bool,
    /// The linked canonical transaction matches account, currency, date and amount.
    pub linked_exists: bool,
    /// Another active operation already uses the component id.
    pub component_used: bool,
    /// A canonical expense already carries the component id.
    pub component_expensed: bool,
    /// Latest effective date among the account's other active operations.
    pub latest_effective_date: Option<String>,
}

pub open spec fn opt_view(o: Option<String>) -> Seq<char> {
    match o {
        Some(s) => s@,
        None => Seq::<char>::empty(),
    }
}

/// Cash available in a currency (zero without an entry).
pub open spec fn available_in(cs: Seq<CashState>, cur: Seq<char>) -> int {
    let i = first_index(cash_keys(cs), cur);
    if i >= 0 { cs[i].available as int } else { 0 }
}

/// Units held of an instrument in a currency (zero without an entry).
pub open spec fn held_in(ps: Seq<PositionState>, inst: Seq<char>, cur: Seq<char>) -> int {
    let i = first_index(position_keys(ps), (inst, cur));
    if i >= 0 { ps[i].quantity as int } else { 0 }
}

pub open spec fn is_trade_kind(k: OperationKind) -> bool {
    k == OperationKind::Buy || k == OperationKind::Sell || k == OperationKind::Dividend
}

pub open spec fn valid_fee_treatment(t: Option<String>) -> bool {
    (t matches Some(s) && (s@ == "capitalized"@ || s@ == "separate"@))
}

/// `gross - fee - withholding - other`, when every step fits in `i64`.
pub open spec fn spec_net_of(gross: int, fee: int, withholding: int, other: int) -> Option<int> {
    if !in_i64(gross - fee) || !in_i64(gross - fee - withholding) || !in_i64(gross - fee - withholding - other) {
        None
    } else {
        Some(gross - fee - withholding - other)
    }
}

/// The first rule an operation breaks, as a validation code and path, in the
/// order the rules are checked; a replay failure when the account's state is
/// needed and cannot be built.
pub open spec fn spec_validation(
    t: Terms,
    f: BrokerageFacts,
    state: Result<BrokerageState, ReplayError>,
    replacing: bool,
) -> Result<Option<(Seq<char>, Seq<char>)>, ReplayError> {
    let kind = spec_kind(t.kind@);
    let q = match t.quantity { Some(s) => spec_parse_decimal(s@), None => None };
    if !spec_valid_date(t.date@) {
        Ok(Some(("invalid_date"@, "effective_date"@)))
    } else if !f.account_exists {
        Ok(Some(("brokerage_not_found"@, "account_id"@)))
    } else if !spec_valid_currency(t.currency@) {
        Ok(Some(("invalid_currency"@, "currency"@)))
    } else if is_trade_kind(kind) && !(t.instrument is Some && (f.instrument_currency matches Some(c) && c@ == t.currency@)) {
        Ok(Some(("instrument_incompatible"@, "instrument_id"@)))
    } else if kind == OperationKind::Buy && !valid_fee_treatment(t.fee_treatment) {
        Ok(Some(("invalid_fee_treatment"@, "fee_treatment"@)))
    } else if (t.fee > 0 || t.withholding > 0 || t.other > 0) && t.component is None {
        Ok(Some(("component_id_required"@, "component_id"@)))
    } else if (kind == OperationKind::Sell || kind == OperationKind::Dividend)
        && spec_net_of(t.gross as int, t.fee as int, t.withholding as int, t.other as int) != Some(t.net as int) {
        Ok(Some(("net_reconciliation_failed"@, "net_cash_minor"@)))
    } else if kind == OperationKind::Withdrawal && t.destination is Some && !f.destination_owned {
        Ok(Some(("destination_account_incompatible"@, "destination_account_id"@)))
    } else if kind == OperationKind::Withdrawal && t.linked is Some && !f.linked_exists {
        Ok(Some(("linked_transaction_incompatible"@, "linked_transaction_id"@)))
    } else if t.gross <= 0 || ((kind == OperationKind::Buy || kind == OperationKind::Sell) && !((q matches Some(v) && v > 0))) {
        Ok(Some(("invalid_amount"@, "gross_amount_minor"@)))
    } else if t.fee < 0 || t.withholding < 0 || t.other < 0 || t.cost < 0 {
        Ok(Some(("negative_component"@, "monetary_components"@)))
    } else if t.component is Some && f.component_used {
        Ok(Some(("component_already_used"@, "component_id"@)))
    } else if t.component is Some && f.component_expensed {
        Ok(Some(("component_already_expensed"@, "component_id"@)))
    } else if !replacing && state is Err {
        Err(state->Err_0)
    } else if !replacing && kind == OperationKind::Dividend
        && !(held_in(state->Ok_0.positions@, opt_view(t.instrument), t.currency@) > 0) {
        Ok(Some(("dividend_without_position"@, "instrument_id"@)))
    } else if !replacing && !(in_i64(available_in(state->Ok_0.cash@, t.currency@) + t.net)
        && available_in(state->Ok_0.cash@, t.currency@) + t.net >= 0) {
        Ok(Some(("insufficient_cash"@, "net_cash_minor"@)))
    } else if !replacing && kind == OperationKind::Sell
        && (match q { Some(v) => v, None => 0 }) > held_in(state->Ok_0.positions@, opt_view(t.instrument), t.currency@) {
        Ok(Some(("insufficient_position"@, "quantity"@)))
    } else if !replacing && (f.latest_effective_date matches Some(d) && seq_lt(t.date@, d@)) {
        Ok(Some(("operation_out_of_order"@, "effective_date"@)))
    } else {
        Ok(None)
    }
}

fn is_one_of(s: &Option<String>, a: &str, b: &str) -> (r: bool)
    ensures
        r == (s matches Some(v) && (v@ == a@ || v@ == b@)),
{
    match s {
        Some(v) => str_eq(v.as_str(), a) || str_eq(v.as_str(), b),
        None => false,
    }
}

fn opt_or_empty(o: &Option<String>) -> (r: String)
    ensures
        r@ == opt_view(*o),
{
    match o {
        Some(s) => s.clone(),
        None => String::new(),
    }
}

fn net_of(gross: i64, fee: i64, withholding: i64, other: i64) -> (r: Option<i64>)
    ensures
        r matches Some(v) ==> spec_net_of(gross as int, fee as int, withholding as int, other as int) == Some(v as int),
        r is None ==> spec_net_of(gross as int, fee as int, withholding as int, other as int) is None,
{
    match gross.checked_sub(fee) {
        None => None,
        Some(a) => match a.checked_sub(withholding) {
            None => None,
            Some(b) => b.checked_sub(other),
        },
    }
}

fn available_exec(cs: &Vec<CashState>, cur: &String) -> (r: i64)
    ensures
        r as int == available_in(cs@, cur@),
{
    proof {
        lemma_first_index(cash_keys(cs@), cur@);
    }
    match find_cash(cs, cur) {
        Some(i) => cs[i].available,
        None => 0,
    }
}

fn held_exec(ps: &Vec<PositionState>, inst: &String, cur: &String) -> (r: i128)
    ensures
        r as int == held_in(ps@, inst@, cur@),
{
    proof {
        lemma_first_index(position_keys(ps@), (inst@, cur@));
    }
    match find_position(ps, inst, cur) {
        Some(i) => ps[i].quantity,
        None => 0,
    }
}

/// Checks an operation's terms against the brokerage rules; `Ok(Some(..))`
/// is the response naming the first rule broken.
pub fn validate(
    t: &Terms,
    f: &BrokerageFacts,
    state: &Result<BrokerageState, ReplayError>,
    replacing: bool,
) -> (r: Result<Option<BrokerageResponse>, ReplayError>)
    ensures
        spec_validation(*t, *f, *state, replacing) matches Ok(Some((code, path))) ==> (r matches Ok(Some(resp)) && is_error_response(resp, "brokerages operation"@, code, path)),
        spec_validation(*t, *f, *state, replacing) matches Ok(None) ==> r matches Ok(None),
        spec_validation(*t, *f, *state, replacing) matches Err(e) ==> r == Err::<Option<BrokerageResponse>, ReplayError>(e),
{
    let command = "brokerages operation";
    let kind = operation_kind(t.kind.as_str());
    let q = match &t.quantity {
        Some(s) => parse_decimal(s.as_str()),
        None => None,
    };
    if !valid_date(t.date.as_str()) {
        return Ok(Some(err(command, "invalid_date", "effective_date")));
    }
    if !f.account_exists {
        return Ok(Some(err(command, "brokerage_not_found", "account_id")));
    }
    if !valid_currency(t.currency.as_str()) {
        return Ok(Some(err(command, "invalid_currency", "currency")));
    }
    if kind == OperationKind::Buy || kind == OperationKind::Sell || kind == OperationKind::Dividend {
        let compatible = t.instrument.is_some() && match &f.instrument_currency {
            Some(c) => str_eq(c.as_str(), t.currency.as_str()),
            None => false,
        };
        if !compatible {
            return Ok(Some(err(command, "instrument_incompatible", "instrument_id")));
        }
    }
    if kind == OperationKind::Buy && !is_one_of(&t.fee_treatment, "capitalized", "separate") {
        return Ok(Some(err(command, "invalid_fee_treatment", "fee_treatment")));
    }
    if (t.fee > 0 || t.withholding > 0 || t.other > 0) && t.component.is_none() {
        return Ok(Some(err(command, "component_id_required", "component_id")));
    }
    if kind == OperationKind::Sell || kind == OperationKind::Dividend {
        let expected = net_of(t.gross, t.fee, t.withholding, t.other);
        let reconciled = match expected {
            Some(v) => v == t.net,
            None => false,
        };
        if !reconciled {
            return Ok(Some(err(command, "net_reconciliation_failed", "net_cash_minor")));
        }
    }
    if kind == OperationKind::Withdrawal {
        if t.destination.is_some() && !f.destination_owned {
            return Ok(Some(err(command, "destination_account_incompatible", "destination_account_id")));
        }
        if t.linked.is_some() && !f.linked_exists {
            return Ok(Some(err(command, "linked_transaction_incompatible", "linked_transaction_id")));
        }
    }
    let positive_quantity = match q {
        Some(v) => v > 0,
        None => false,
    };
    if t.gross <= 0 || ((kind == OperationKind::Buy || kind == OperationKind::Sell) && !positive_quantity) {
        return Ok(Some(err(command, "invalid_amount", "gross_amount_minor")));
    }
    if t.fee < 0 || t.withholding < 0 || t.other < 0 || t.cost < 0 {
        return Ok(Some(err(command, "negative_component", "monetary_components")));
    }
    if t.component.is_some() {
        if f.component_used {
            return Ok(Some(err(command, "component_already_used", "component_id")));
        }
        if f.component_expensed {
            return Ok(Some(err(command, "component_already_expensed", "component_id")));
        }
    }
    if !replacing {
        let st = match state {
            Ok(st) => st,
            Err(e) => return Err(*e),
        };
        let inst = opt_or_empty(&t.instrument);
        if kind == OperationKind::Dividend {
            let held = held_exec(&st.positions, &inst, &t.currency);
            if !(held > 0) {
                return Ok(Some(err(command, "dividend_without_position", "instrument_id")));
            }
        }
        let available = available_exec(&st.cash, &t.currency);
        let enough = match available.checked_add(t.net) {
            Some(v) => v >= 0,
            None => false,
        };
        if !enough {
            return Ok(Some(err(command, "insufficient_cash", "net_cash_minor")));
        }
        if kind == OperationKind::Sell {
            let sold = match q {
                Some(v) => v,
                None => 0,
            };
            let held = held_exec(&st.positions, &inst, &t.currency);
            if sold > held {
                return Ok(Some(err(command, "insufficient_position", "quantity")));
            }
        }
        if let Some(d) = &f.latest_effective_date {
            if str_lt(t.date.as_str(), d.as_str()) {
                return Ok(Some(err(command, "operation_out_of_order", "effective_date")));
            }
        }
    }
    Ok(None)
}

/// `r` is the outcome a validation failure or a success describes: the
/// failure's response for `command`, or terms.
pub open spec fn outcome_matches(
    r: Result<Terms, BrokerageResponse>,
    command: Seq<char>,
    failure: Option<(Seq<char>, Seq<char>)>,
) -> bool {
    match failure {
        Some((code, path)) => r is Err && is_error_response(r->Err_0, command, code, path),
        None => r is Ok,
    }
}

/// The normalized display form of a parsed quantity.
pub open spec fn normalized_quantity(s: Seq<char>) -> Option<Seq<char>> {
    match spec_parse_decimal(s) {
        Some(q) => Some(spec_format_decimal(q)),
        None => None,
    }
}

pub open spec fn spec_buy_failure(i: BrokerageBuyInput, ic: Option<String>) -> Option<(Seq<char>, Seq<char>)> {
    let cap = i.fee_treatment@ == "capitalized"@;
    if !cap && i.fee_treatment@ != "separate"@ {
        Some(("invalid_fee_treatment"@, "fee_treatment"@))
    } else if ic is None {
        Some(("instrument_incompatible"@, "instrument_id"@))
    } else if !in_i64(i.gross_amount_minor + (if cap { i.fee_minor as int } else { 0 })) {
        Some(("amount_overflow"@, "gross_amount_minor"@))
    } else if !in_i64(i.gross_amount_minor + i.fee_minor) {
        Some(("amount_overflow"@, "fee_minor"@))
    } else if spec_parse_decimal(i.quantity@) is None {
        Some(("invalid_quantity"@, "quantity"@))
    } else {
        None
    }
}

/// The terms of a purchase: the cost includes the fee when it is capitalized,
/// the cash outflow always does.
pub fn buy(i: BrokerageBuyInput, instrument_currency: Option<String>) -> (r: Result<Terms, BrokerageResponse>)
    requires
        i.gross_amount_minor + i.fee_minor != i64::MIN,
    ensures
        outcome_matches(r, "brokerages buy"@, spec_buy_failure(i, instrument_currency)),
        r matches Ok(t) ==> {
            let cap = i.fee_treatment@ == "capitalized"@;
            &&& t.kind@ == "buy"@
            &&& t.date == i.effective_date
            &&& t.currency == instrument_currency->0
            &&& t.instrument == Some(i.instrument_id)
            &&& t.quantity matches Some(qs) && Some(qs@) == normalized_quantity(i.quantity@)
            &&& t.gross == i.gross_amount_minor
            &&& t.cost == i.gross_amount_minor + (if cap { i.fee_minor as int } else { 0 })
            &&& t.result == 0
            &&& t.fee == i.fee_minor
            &&& t.fee_treatment == Some(i.fee_treatment)
            &&& t.withholding == 0 && t.other == 0
            &&& t.net == -(i.gross_amount_minor + i.fee_minor)
            &&& t.allocation is None && t.destination is None && t.linked is None
            &&& t.component == i.component_id
        },
{
    let command = "brokerages buy";
    let fee_cap = str_eq(i.fee_treatment.as_str(), "capitalized");
    if !fee_cap && !str_eq(i.fee_treatment.as_str(), "separate") {
        return Err(err(command, "invalid_fee_treatment", "fee_treatment"));
    }
    let currency = match instrument_currency {
        Some(c) => c,
        None => return Err(err(command, "instrument_incompatible", "instrument_id")),
    };
    let cost = match i.gross_amount_minor.checked_add(if fee_cap { i.fee_minor } else { 0 }) {
        Some(x) => x,
        None => return Err(err(command, "amount_overflow", "gross_amount_minor")),
    };
    let cash_out = match i.gross_amount_minor.checked_add(i.fee_minor) {
        Some(x) => x,
        None => return Err(err(command, "amount_overflow", "fee_minor")),
    };
    let quantity = match parse_decimal(i.quantity.as_str()) {
        Some(q) => format_decimal(q),
        None => return Err(err(command, "invalid_quantity", "quantity")),
    };
    Ok(Terms {
        kind: owned("buy"),
        date: i.effective_date,
        currency,
        instrument: Some(i.instrument_id),
        quantity: Some(quantity),
        gross: i.gross_amount_minor,
        cost,
        result: 0,
        fee: i.fee_minor,
        fee_treatment: Some(i.fee_treatment),
        withholding: 0,
        other: 0,
        net: -cash_out,
        allocation: None,
        destination: None,
        linked: None,
        component: i.component_id,
    })
}

pub open spec fn spec_sell_failure(
    i: BrokerageSellInput,
    ic: Option<String>,
    state: Result<BrokerageState, ReplayError>,
) -> Result<Option<(Seq<char>, Seq<char>)>, BrokerageFailure> {
    let sold = spec_parse_decimal(i.quantity@);
    if ic is None {
        Ok(Some(("instrument_incompatible"@, "instrument_id"@)))
    } else if spec_net_of(i.gross_proceeds_minor as int, i.fee_minor as int, i.withholding_minor as int, i.other_deductions_minor as int) != Some(i.net_cash_minor as int) {
        Ok(Some(("net_reconciliation_failed"@, "net_cash_minor"@)))
    } else if state is Err {
        Err(BrokerageFailure::Replay(state->Err_0))
    } else if sold is None {
        Ok(Some(("invalid_quantity"@, "quantity"@)))
    } else {
        let ps = state->Ok_0.positions@;
        let idx = first_index(position_keys(ps), (i.instrument_id@, ic->0@));
        if idx < 0 || sold->0 <= 0 || sold->0 > ps[idx].quantity {
            Ok(Some(("insufficient_position"@, "quantity"@)))
        } else if spec_disposed_cost(ps[idx].cost as int, sold->0, ps[idx].quantity as int) is None {
            Err(BrokerageFailure::CostOverflow)
        } else if !in_i64(i.gross_proceeds_minor - spec_disposed_cost(ps[idx].cost as int, sold->0, ps[idx].quantity as int)->0) {
            Ok(Some(("amount_overflow"@, "gross_proceeds_minor"@)))
        } else {
            Ok(None)
        }
    }
}

/// Failures that stop a command without a validation response.
#[derive(Debug, Clone, Copy, PartialEq, Eq, Structural)]
pub enum BrokerageFailure {
    Replay(ReplayError),
    CostOverflow,
    Overflow,
    PositionMissing,
    InvalidQuantity,
    RealizedResultOverflow,
}

/// The terms of a sale: the historical cost sold is the position's cost share
/// of the units sold.
pub fn sell(
    i: BrokerageSellInput,
    instrument_currency: Option<String>,
    state: &Result<BrokerageState, ReplayError>,
) -> (r: Result<Result<Terms, BrokerageResponse>, BrokerageFailure>)
    requires
        state matches Ok(st) ==> state_invariant(st.cash@, st.positions@),
    ensures
        spec_sell_failure(i, instrument_currency, *state) matches Err(e) ==> r == Err::<Result<Terms, BrokerageResponse>, BrokerageFailure>(e),
        spec_sell_failure(i, instrument_currency, *state) matches Ok(f) ==> r is Ok && outcome_matches(r->Ok_0, "brokerages sell"@, f),
        r matches Ok(Ok(t)) ==> {
            let ps = state->Ok_0.positions@;
            let idx = first_index(position_keys(ps), (i.instrument_id@, instrument_currency->0@));
            let sold = spec_parse_decimal(i.quantity@)->0;
            let cost = spec_disposed_cost(ps[idx].cost as int, sold, ps[idx].quantity as int)->0;
            &&& t.kind@ == "sell"@
            &&& t.date == i.effective_date
            &&& t.currency == instrument_currency->0
            &&& t.instrument == Some(i.instrument_id)
            &&& t.quantity matches Some(qs) && qs@ == spec_format_decimal(sold)
            &&& t.gross == i.gross_proceeds_minor
            &&& t.cost == cost
            &&& t.result == i.gross_proceeds_minor - cost
            &&& t.fee == i.fee_minor && t.withholding == i.withholding_minor && t.other == i.other_deductions_minor
            &&& t.net == i.net_cash_minor
            &&& t.fee_treatment is None && t.allocation is None && t.destination is None && t.linked is None
            &&& t.component == i.component_id
        },
{
    let command = "brokerages sell";
    let currency = match instrument_currency {
        Some(c) => c,
        None => return Ok(Err(err(command, "instrument_incompatible", "instrument_id"))),
    };
    let reconciled = match net_of(i.gross_proceeds_minor, i.fee_minor, i.withholding_minor, i.other_deductions_minor) {
        Some(v) => v == i.net_cash_minor,
        None => false,
    };
    if !reconciled {
        return Ok(Err(err(command, "net_reconciliation_failed", "net_cash_minor")));
    }
    let st = match state {
        Ok(st) => st,
        Err(e) => return Err(BrokerageFailure::Replay(*e)),
    };
    let sold = match parse_decimal(i.quantity.as_str()) {
        Some(q) => q,
        None => return Ok(Err(err(command, "invalid_quantity", "quantity"))),
    };
    proof {
        lemma_first_index(position_keys(st.positions@), (i.instrument_id@, currency@));
    }
    let idx = match find_position(&st.positions, &i.instrument_id, &currency) {
        Some(j) => j,
        None => return Ok(Err(err(command, "insufficient_position", "quantity"))),
    };
    let held = st.positions[idx].quantity;
    if sold <= 0 || sold > held {
        return Ok(Err(err(command, "insufficient_position", "quantity")));
    }
    let cost = match disposed_cost(st.positions[idx].cost, sold, held) {
        Some(c) => c,
        None => return Err(BrokerageFailure::CostOverflow),
    };
    let result = match i.gross_proceeds_minor.checked_sub(cost) {
        Some(v) => v,
        None => return Ok(Err(err(command, "amount_overflow", "gross_proceeds_minor"))),
    };
    Ok(Ok(Terms {
        kind: owned("sell"),
        date: i.effective_date,
        currency,
        instrument: Some(i.instrument_id),
        quantity: Some(format_decimal(sold)),
        gross: i.gross_proceeds_minor,
        cost,
        result,
        fee: i.fee_minor,
        fee_treatment: None,
        withholding: i.withholding_minor,
        other: i.other_deductions_minor,
        net: i.net_cash_minor,
        allocation: None,
        destination: None,
        linked: None,
        component: i.component_id,
    }))
}

pub open spec fn spec_dividend_failure(
    i: BrokerageDividendInput,
    ic: Option<String>,
    state: Result<BrokerageState, ReplayError>,
) -> Result<Option<(Seq<char>, Seq<char>)>, BrokerageFailure> {
    if ic is None {
        Ok(Some(("instrument_incompatible"@, "instrument_id"@)))
    } else if state is Err {
        Err(BrokerageFailure::Replay(state->Err_0))
    } else if !(held_in(state->Ok_0.positions@, i.instrument_id@, ic->0@) > 0) {
        Ok(Some(("dividend_without_position"@, "instrument_id"@)))
    } else if spec_net_of(i.gross_dividend_minor as int, i.fee_minor as int, i.withholding_minor as int, i.other_deductions_minor as int) != Some(i.net_cash_minor as int) {
        Ok(Some(("net_reconciliation_failed"@, "net_cash_minor"@)))
    } else {
        Ok(None)
    }
}

/// An operation's net cash reconciles exactly when it is its gross amount
/// less fee, withholding and other deductions, each partial difference
/// fitting in `i64`.
pub proof fn law_net_cash_reconciles(gross: i64, fee: i64, withholding: i64, other: i64, net: i64)
    ensures
        spec_net_of(gross as int, fee as int, withholding as int, other as int) == Some(net as int) <==> (in_i64(
            gross - fee) && in_i64(gross - fee - withholding) && net == gross - fee - withholding - other),
{
}

/// A sale of a known instrument whose net cash is not its gross proceeds
/// less fee, withholding and other deductions is refused for net
/// reconciliation, whatever the account holds.
pub proof fn law_sale_net_reconciliation(i: BrokerageSellInput, ic: Option<String>, state: Result<BrokerageState, ReplayError>)
    requires
        ic is Some,
        !(in_i64(i.gross_proceeds_minor - i.fee_minor) && in_i64(i.gross_proceeds_minor - i.fee_minor - i.withholding_minor)
            && i.net_cash_minor == i.gross_proceeds_minor - i.fee_minor - i.withholding_minor - i.other_deductions_minor),
    ensures
        spec_sell_failure(i, ic, state) == Ok::<Option<(Seq<char>, Seq<char>)>, BrokerageFailure>(
            Some(("net_reconciliation_failed"@, "net_cash_minor"@))),
{
}

/// A dividend on a held security of a known instrument is accepted exactly
/// when its net cash is its gross dividend less fee, withholding and other
/// deductions; otherwise it is refused for net reconciliation.
pub proof fn law_dividend_net_reconciliation(i: BrokerageDividendInput, ic: Option<String>, state: Result<BrokerageState, ReplayError>)
    requires
        ic is Some,
        state is Ok,
        held_in(state->Ok_0.positions@, i.instrument_id@, ic->0@) > 0,
    ensures
        (in_i64(i.gross_dividend_minor - i.fee_minor) && in_i64(i.gross_dividend_minor - i.fee_minor - i.withholding_minor)
            && i.net_cash_minor == i.gross_dividend_minor - i.fee_minor - i.withholding_minor - i.other_deductions_minor)
            ==> spec_dividend_failure(i, ic, state) == Ok::<Option<(Seq<char>, Seq<char>)>, BrokerageFailure>(None),
        !(in_i64(i.gross_dividend_minor - i.fee_minor) && in_i64(i.gross_dividend_minor - i.fee_minor - i.withholding_minor)
            && i.net_cash_minor == i.gross_dividend_minor - i.fee_minor - i.withholding_minor - i.other_deductions_minor)
            ==> spec_dividend_failure(i, ic, state) == Ok::<Option<(Seq<char>, Seq<char>)>, BrokerageFailure>(
            Some(("net_reconciliation_failed"@, "net_cash_minor"@))),
{
}

/// The terms of a dividend on a held security.
pub fn dividend(
    i: BrokerageDividendInput,
    instrument_currency: Option<String>,
    state: &Result<BrokerageState, ReplayError>,
) -> (r: Result<Result<Terms, BrokerageResponse>, BrokerageFailure>)
    ensures
        spec_dividend_failure(i, instrument_currency, *state) matches Err(e) ==> r == Err::<Result<Terms, BrokerageResponse>, BrokerageFailure>(e),
        spec_dividend_failure(i, instrument_currency, *state) matches Ok(f) ==> r is Ok && outcome_matches(r->Ok_0, "brokerages dividend"@, f),
        r matches Ok(Ok(t)) ==> {
            &&& t.kind@ == "dividend"@
            &&& t.date == i.effective_date
            &&& t.currency == instrument_currency->0
            &&& t.instrument == Some(i.instrument_id)
            &&& t.quantity is None
            &&& t.gross == i.gross_dividend_minor && t.cost == 0 && t.result == 0
            &&& t.fee == i.fee_minor && t.withholding == i.withholding_minor && t.other == i.other_deductions_minor
            &&& t.net == i.net_cash_minor
            &&& t.fee_treatment is None && t.allocation is None && t.destination is None && t.linked is None
            &&& t.component == i.component_id
        },
{
    let command = "brokerages dividend";
    let currency = match instrument_currency {
        Some(c) => c,
        None => return Ok(Err(err(command, "instrument_incompatible", "instrument_id"))),
    };
    let st = match state {
        Ok(st) => st,
        Err(e) => return Err(BrokerageFailure::Replay(*e)),
    };
    let held = held_exec(&st.positions, &i.instrument_id, &currency);
    if !(held > 0) {
        return Ok(Err(err(command, "dividend_without_position", "instrument_id")));
    }
    let reconciled = match net_of(i.gross_dividend_minor, i.fee_minor, i.withholding_minor, i.other_deductions_minor) {
        Some(v) => v == i.net_cash_minor,
        None => false,
    };
    if !reconciled {
        return Ok(Err(err(command, "net_reconciliation_failed", "net_cash_minor")));
    }
    Ok(Ok(Terms {
        kind: owned("dividend"),
        date: i.effective_date,
        currency,
        instrument: Some(i.instrument_id),
        quantity: None,
        gross: i.gross_dividend_minor,
        cost: 0,
        result: 0,
        fee: i.fee_minor,
        fee_treatment: None,
        withholding: i.withholding_minor,
        other: i.other_deductions_minor,
        net: i.net_cash_minor,
        allocation: None,
        destination: None,
        linked: None,
        component: i.component_id,
    }))
}

pub open spec fn spec_deposit_failure(
    i: BrokerageDepositInput,
    consumed: bool,
    allocation: Option<(i64, String)>,
) -> Option<(Seq<char>, Seq<char>)> {
    if i.amount_minor <= 0 {
        Some(("invalid_amount"@, "amount_minor"@))
    } else if consumed {
        Some(("allocation_already_consumed"@, "allocation_id"@))
    } else if allocation is None {
        Some(("allocation_not_found"@, "allocation_id"@))
    } else if (allocation matches Some((amount, currency)) && (amount != i.amount_minor || currency@ != i.currency@)) {
        Some(("allocation_mismatch"@, "amount_minor"@))
    } else {
        None
    }
}

/// The terms of a deposit funded by an unconsumed investment allocation whose
/// cash amount and currency (`allocation`) it must match exactly.
pub fn deposit(
    i: BrokerageDepositInput,
    consumed: bool,
    allocation: Option<(i64, String)>,
) -> (r: Result<Terms, BrokerageResponse>)
    ensures
        outcome_matches(r, "brokerages deposit"@, spec_deposit_failure(i, consumed, allocation)),
        r matches Ok(t) ==> {
            &&& t.kind@ == "deposit"@
            &&& t.date == i.effective_date
            &&& t.currency == i.currency
            &&& t.instrument is None && t.quantity is None
            &&& t.gross == i.amount_minor && t.net == i.amount_minor
            &&& t.cost == 0 && t.result == 0 && t.fee == 0 && t.withholding == 0 && t.other == 0
            &&& t.fee_treatment is None
            &&& t.allocation == Some(i.allocation_id)
            &&& t.destination is None && t.linked is None && t.component is None
        },
{
    let command = "brokerages deposit";
    if i.amount_minor <= 0 {
        return Err(err(command, "invalid_amount", "amount_minor"));
    }
    if consumed {
        return Err(err(command, "allocation_already_consumed", "allocation_id"));
    }
    let (amount, currency) = match allocation {
        Some(a) => a,
        None => return Err(err(command, "allocation_not_found", "allocation_id")),
    };
    if amount != i.amount_minor || !str_eq(currency.as_str(), i.currency.as_str()) {
        return Err(err(command, "allocation_mismatch", "amount_minor"));
    }
    Ok(Terms {
        kind: owned("deposit"),
        date: i.effective_date,
        currency: i.currency,
        instrument: None,
        quantity: None,
        gross: i.amount_minor,
        cost: 0,
        result: 0,
        fee: 0,
        fee_treatment: None,
        withholding: 0,
        other: 0,
        net: i.amount_minor,
        allocation: Some(i.allocation_id),
        destination: None,
        linked: None,
        component: None,
    })
}

/// The terms of a withdrawal: the cash outflow is the withdrawn amount.
pub fn withdraw(i: BrokerageWithdrawalInput) -> (t: Terms)
    requires
        i.amount_minor != i64::MIN,
    ensures
        t.kind@ == "withdrawal"@,
        t.date == i.effective_date,
        t.currency == i.currency,
        t.instrument is None && t.quantity is None,
        t.gross == i.amount_minor && t.net == -i.amount_minor,
        t.cost == 0 && t.result == 0 && t.fee == 0 && t.withholding == 0 && t.other == 0,
        t.fee_treatment is None && t.allocation is None && t.component is None,
        t.destination == i.destination_account_id,
        t.linked == i.linked_transaction_id,
{
    Terms {
        kind: owned("withdrawal"),
        date: i.effective_date,
        currency: i.currency,
        instrument: None,
        quantity: None,
        gross: i.amount_minor,
        cost: 0,
        result: 0,
        fee: 0,
        fee_treatment: None,
        withholding: 0,
        other: 0,
        net: -i.amount_minor,
        allocation: None,
        destination: i.destination_account_id,
        linked: i.linked_transaction_id,
        component: None,
    }
}

/// The current revision of an operation about to be replaced.
pub struct ReplacementHead {
    pub revision_id: String,
    pub account_id: String,
    pub revision: i64,
    pub operation_type: String,
    pub funding_allocation_id: Option<String>,
    pub gross_amount_minor: i64,
    pub currency: String,
}

pub open spec fn opt_seq(o: Option<String>) -> Option<Seq<char>> {
    match o {
        Some(s) => Some(s@),
        None => None,
    }
}

pub open spec fn spec_replacement_failure(i: BrokerageReplacementInput, old: Option<ReplacementHead>) -> Option<(Seq<char>, Seq<char>)> {
    let x = i.replacement;
    if crate::text::trim_seq(i.reason@).len() == 0 {
        Some(("correction_reason_required"@, "reason"@))
    } else if old is None {
        Some(("operation_not_found"@, "operation_id"@))
    } else if x.quantity matches Some(q) && spec_parse_decimal(q@) is None {
        Some(("invalid_quantity"@, "quantity"@))
    } else if x.operation_type@ != old->0.operation_type@ {
        Some(("operation_type_immutable"@, "operation_type"@))
    } else if x.operation_type@ == "deposit"@ && (opt_seq(x.funding_allocation_id) != opt_seq(old->0.funding_allocation_id)
        || x.gross_amount_minor != old->0.gross_amount_minor || x.currency@ != old->0.currency@) {
        Some(("deposit_funding_immutable"@, "funding_allocation_id"@))
    } else {
        None
    }
}

fn opt_eq(a: &Option<String>, b: &Option<String>) -> (r: bool)
    ensures
        r == (opt_seq(*a) == opt_seq(*b)),
{
    match (a, b) {
        (Some(x), Some(y)) => str_eq(x.as_str(), y.as_str()),
        (None, None) => true,
        _ => false,
    }
}

/// The replacement terms of an operation revision: the kind never changes and
/// a deposit keeps its funding.
pub fn replacement_terms(i: BrokerageReplacementInput, old: Option<ReplacementHead>) -> (r: Result<Terms, BrokerageResponse>)
    ensures
        outcome_matches(r, "brokerages replace-operation"@, spec_replacement_failure(i, old)),
        r matches Ok(t) ==> {
            let x = i.replacement;
            &&& t.kind == x.operation_type
            &&& t.date == x.effective_date
            &&& t.currency == x.currency
            &&& t.instrument == x.instrument_id
            &&& (x.quantity is None ==> t.quantity is None)
            &&& (x.quantity matches Some(q) ==> (t.quantity matches Some(tq) && Some(tq@) == normalized_quantity(q@)))
            &&& t.gross == x.gross_amount_minor && t.cost == 0 && t.result == 0
            &&& t.fee == x.fee_minor && t.fee_treatment == x.fee_treatment
            &&& t.withholding == x.withholding_minor && t.other == x.other_deductions_minor
            &&& t.net == x.net_cash_minor
            &&& t.allocation == x.funding_allocation_id
            &&& t.destination == x.destination_account_id
            &&& t.linked == x.linked_transaction_id
            &&& t.component == x.component_id
        },
{
    let command = "brokerages replace-operation";
    let reason = crate::text::to_chars(i.reason.as_str());
    let (lo, hi) = crate::text::trim_bounds(&reason);
    if lo == hi {
        return Err(err(command, "correction_reason_required", "reason"));
    }
    let old = match old {
        Some(o) => o,
        None => return Err(err(command, "operation_not_found", "operation_id")),
    };
    let x = i.replacement;
    let quantity = match x.quantity {
        Some(q) => match parse_decimal(q.as_str()) {
            Some(v) => Some(format_decimal(v)),
            None => return Err(err(command, "invalid_quantity", "quantity")),
        },
        None => None,
    };
    if !str_eq(x.operation_type.as_str(), old.operation_type.as_str()) {
        return Err(err(command, "operation_type_immutable", "operation_type"));
    }
    if str_eq(x.operation_type.as_str(), "deposit") && (!opt_eq(&x.funding_allocation_id, &old.funding_allocation_id)
        || x.gross_amount_minor != old.gross_amount_minor || !str_eq(x.currency.as_str(), old.currency.as_str())) {
        return Err(err(command, "deposit_funding_immutable", "funding_allocation_id"));
    }
    Ok(Terms {
        kind: x.operation_type,
        date: x.effective_date,
        currency: x.currency,
        instrument: x.instrument_id,
        quantity,
        gross: x.gross_amount_minor,
        cost: 0,
        result: 0,
        fee: x.fee_minor,
        fee_treatment: x.fee_treatment,
        withholding: x.withholding_minor,
        other: x.other_deductions_minor,
        net: x.net_cash_minor,
        allocation: x.funding_allocation_id,
        destination: x.destination_account_id,
        linked: x.linked_transaction_id,
        component: x.component_id,
    })
}

/// Whether recomputing a sale would divide by an empty position.
pub open spec fn recompute_divides_by_zero(t: Terms, prior: Result<BrokerageState, ReplayError>) -> bool {
    spec_kind(t.kind@) == OperationKind::Sell && prior is Ok && {
        let ps = prior->Ok_0.positions@;
        let idx = first_index(position_keys(ps), (opt_view(t.instrument), t.currency@));
        idx >= 0 && (t.quantity matches Some(qs) && (spec_parse_decimal(qs@) matches Some(q)
            && q != ps[idx].quantity && ps[idx].quantity == 0))
    }
}

/// Recomputes the derived amounts of replacement terms from their kind:
/// deposits and withdrawals move their gross amount, purchases cost the gross
/// plus a capitalized fee and pay out gross plus fee, sales take their
/// historical cost from the position held before (`prior`).
pub fn recompute(t: &mut Terms, prior: &Result<BrokerageState, ReplayError>) -> (r: Result<(), BrokerageFailure>)
    requires
        prior matches Ok(st) ==> state_invariant(st.cash@, st.positions@),
        !recompute_divides_by_zero(*old(t), *prior),
        spec_kind(old(t).kind@) == OperationKind::Buy ==> old(t).gross + old(t).fee != i64::MIN,
        spec_kind(old(t).kind@) == OperationKind::Withdrawal ==> old(t).gross != i64::MIN,
    ensures
        ({
            let t0 = *old(t);
            let t1 = *final(t);
            let kind = spec_kind(t0.kind@);
            &&& t1.kind == t0.kind && t1.date == t0.date && t1.currency == t0.currency
            &&& t1.instrument == t0.instrument && t1.quantity == t0.quantity && t1.gross == t0.gross
            &&& t1.fee == t0.fee && t1.fee_treatment == t0.fee_treatment && t1.withholding == t0.withholding
            &&& t1.other == t0.other && t1.allocation == t0.allocation && t1.destination == t0.destination
            &&& t1.linked == t0.linked && t1.component == t0.component
            &&& (kind == OperationKind::Deposit ==> r is Ok && t1.net == t0.gross && t1.cost == 0 && t1.result == 0)
            &&& (kind == OperationKind::Buy ==> (
                if !in_i64(t0.gross + t0.fee) {
                    r == Err::<(), BrokerageFailure>(BrokerageFailure::Overflow)
                } else {
                    r is Ok && t1.net == -(t0.gross + t0.fee) && t1.result == t0.result
                        && t1.cost == (if (t0.fee_treatment matches Some(ft) && ft@ == "separate"@) { t0.gross as int } else { t0.gross + t0.fee })
                }))
            &&& (kind == OperationKind::Sell ==> (
                if prior is Err {
                    r == Err::<(), BrokerageFailure>(BrokerageFailure::Replay(prior->Err_0))
                } else {
                    let ps = prior->Ok_0.positions@;
                    let idx = first_index(position_keys(ps), (opt_view(t0.instrument), t0.currency@));
                    let q = match t0.quantity { Some(qs) => spec_parse_decimal(qs@), None => None };
                    if idx < 0 {
                        r == Err::<(), BrokerageFailure>(BrokerageFailure::PositionMissing)
                    } else if q is None {
                        r == Err::<(), BrokerageFailure>(BrokerageFailure::InvalidQuantity)
                    } else if spec_disposed_cost(ps[idx].cost as int, q->0, ps[idx].quantity as int) is None {
                        r == Err::<(), BrokerageFailure>(BrokerageFailure::CostOverflow)
                    } else if !in_i64(t0.gross - spec_disposed_cost(ps[idx].cost as int, q->0, ps[idx].quantity as int)->0) {
                        r == Err::<(), BrokerageFailure>(BrokerageFailure::RealizedResultOverflow)
                    } else {
                        let c = spec_disposed_cost(ps[idx].cost as int, q->0, ps[idx].quantity as int)->0;
                        r is Ok && t1.cost == c && t1.result == t0.gross - c && t1.net == t0.net
                    }
                }))
            &&& (kind == OperationKind::Withdrawal ==> r is Ok && t1.net == -t0.gross && t1.cost == t0.cost && t1.result == t0.result)
            &&& ((kind == OperationKind::Dividend || kind == OperationKind::Other) ==> r is Ok && t1.net == t0.net && t1.cost == t0.cost && t1.result == t0.result)
        }),
{
    let kind = operation_kind(t.kind.as_str());
    match kind {
        OperationKind::Deposit => {
            t.net = t.gross;
            t.cost = 0;
            t.result = 0;
            Ok(())
        },
        OperationKind::Buy => {
            let cash_out = match t.gross.checked_add(t.fee) {
                Some(v) => v,
                None => return Err(BrokerageFailure::Overflow),
            };
            let separate = match &t.fee_treatment {
                Some(ft) => str_eq(ft.as_str(), "separate"),
                None => false,
            };
            t.cost = if separate { t.gross } else { cash_out };
            t.net = -cash_out;
            Ok(())
        },
        OperationKind::Sell => {
            let st = match prior {
                Ok(st) => st,
                Err(e) => return Err(BrokerageFailure::Replay(*e)),
            };
            let inst = opt_or_empty(&t.instrument);
            proof {
                lemma_first_index(position_keys(st.positions@), (inst@, t.currency@));
            }
            let idx = match find_position(&st.positions, &inst, &t.currency) {
                Some(j) => j,
                None => return Err(BrokerageFailure::PositionMissing),
            };
            let q = match &t.quantity {
                Some(qs) => match parse_decimal(qs.as_str()) {
                    Some(v) => v,
                    None => return Err(BrokerageFailure::InvalidQuantity),
                },
                None => return Err(BrokerageFailure::InvalidQuantity),
            };
            let held = st.positions[idx].quantity;
            assert(st.positions@[idx as int].quantity >= 0);
            let cost = if q == held {
                st.positions[idx].cost
            } else {
                match disposed_cost(st.positions[idx].cost, q, held) {
                    Some(c) => c,
                    None => return Err(BrokerageFailure::CostOverflow),
                }
            };
            let result = match t.gross.checked_sub(cost) {
                Some(v) => v,
                None => return Err(BrokerageFailure::RealizedResultOverflow),
            };
            t.cost = cost;
            t.result = result;
            Ok(())
        },
        OperationKind::Withdrawal => {
            t.net = -t.gross;
            Ok(())
        },
        _ => Ok(()),
    }
}

/// Operations effective on or before `date`, other than `exclude`.
pub open spec fn through_pred(date: Seq<char>, exclude: Option<Seq<char>>) -> spec_fn(BrokerageOperation) -> bool {
    |o: BrokerageOperation| !seq_lt(date, o.effective_date@) && (match exclude {
        Some(x) => o.operation_id@ != x,
        None => true,
    })
}

fn copy_ops_through(ops: &Vec<BrokerageOperation>, date: &str, exclude: &Option<String>) -> (r: Vec<BrokerageOperation>)
    ensures
        r@ == ops@.filter(through_pred(date@, opt_seq(*exclude))),
{
    let ghost pred = through_pred(date@, opt_seq(*exclude));
    let mut out: Vec<BrokerageOperation> = Vec::new();
    let mut i: usize = 0;
    while i < ops.len()
        invariant
            i <= ops.len(),
            pred == through_pred(date@, opt_seq(*exclude)),
            out@ == ops@.take(i as int).filter(pred),
        decreases ops.len() - i,
    {
        reveal_with_fuel(Seq::<_>::filter, 1);
        assert(ops@.take(i + 1).drop_last() =~= ops@.take(i as int));
        let o = &ops[i];
        let keep = !str_lt(date, o.effective_date.as_str()) && match exclude {
            Some(x) => !str_eq(o.operation_id.as_str(), x.as_str()),
            None => true,
        };
        if keep {
            out.push(copy_operation(o));
        }
        i = i + 1;
    }
    assert(ops@.take(ops@.len() as int) =~= ops@);
    out
}

/// The account's state from its operations effective on or before `date`,
/// leaving out the operation being replaced.
pub fn state_before(ops: &Vec<BrokerageOperation>, date: &str, exclude: &Option<String>) -> (r: Result<BrokerageState, ReplayError>)
    ensures
        ({
            let kept = ops@.filter(through_pred(date@, opt_seq(*exclude)));
            &&& spec_derive(kept) matches Err(e) ==> r == Err::<BrokerageState, ReplayError>(e)
            &&& spec_derive(kept) matches Ok(out) ==> (r matches Ok(st)
                ==> spec_replay(out) == Ok::<(Seq<CashState>, Seq<PositionState>), ReplayError>((st.cash@, st.positions@)))
                && (r matches Err(e) ==> spec_replay(out) == Err::<(Seq<CashState>, Seq<PositionState>), ReplayError>(e))
        }),
{
    let mut kept = copy_ops_through(ops, date, exclude);
    account_state(&mut kept)
}

pub open spec fn cash_view_matches(c: BrokerageCash, x: CashState) -> bool {
    &&& c.currency == x.currency
    &&& c.available_minor == x.available
    &&& c.external_capital_minor == x.external
    &&& c.withdrawals_minor == x.withdrawals
    &&& c.gross_dividends_minor == x.dividends
    &&& c.gross_sale_proceeds_minor == x.sales
    &&& c.realized_result_minor == x.result
    &&& c.fees_minor == x.fees
    &&& c.withholding_minor == x.withholding
    &&& c.other_deductions_minor == x.other
    &&& c.latest_operation_id == x.latest
}

pub open spec fn position_view_matches(p: BrokeragePosition, x: PositionState) -> bool {
    &&& p.instrument_id == x.instrument
    &&& p.quantity@ == spec_format_decimal(x.quantity as int)
    &&& p.historical_cost_minor == x.cost
    &&& p.cost_currency == x.currency
    &&& p.latest_operation_id == x.latest
}

/// The account as reported: every cash entry, and the positions still holding units.
pub fn account_summary(
    account_id: String,
    opened_date: String,
    state: BrokerageState,
    active_operations: Vec<BrokerageOperation>,
) -> (r: BrokerageAccount)
    ensures
        r.account_id == account_id,
        r.opened_date == opened_date,
        r.active_operations == active_operations,
        r.cash@.len() == state.cash@.len(),
        forall|i: int| 0 <= i < r.cash@.len() ==> cash_view_matches(#[trigger] r.cash@[i], state.cash@[i]),
        ({
            let held = state.positions@.filter(|p: PositionState| p.quantity != 0);
            &&& r.positions@.len() == held.len()
            &&& forall|i: int| 0 <= i < held.len() ==> position_view_matches(#[trigger] r.positions@[i], held[i])
        }),
{
    let mut cash: Vec<BrokerageCash> = Vec::new();
    let mut i: usize = 0;
    while i < state.cash.len()
        invariant
            i <= state.cash.len(),
            cash@.len() == i,
            forall|j: int| 0 <= j < i ==> cash_view_matches(#[trigger] cash@[j], state.cash@[j]),
        decreases state.cash.len() - i,
    {
        let x = &state.cash[i];
        cash.push(BrokerageCash {
            currency: x.currency.clone(),
            available_minor: x.available,
            external_capital_minor: x.external,
            withdrawals_minor: x.withdrawals,
            gross_dividends_minor: x.dividends,
            gross_sale_proceeds_minor: x.sales,
            realized_result_minor: x.result,
            fees_minor: x.fees,
            withholding_minor: x.withholding,
            other_deductions_minor: x.other,
            latest_operation_id: x.latest.clone(),
        });
        i = i + 1;
    }
    let ghost pred = |p: PositionState| p.quantity != 0;
    let mut positions: Vec<BrokeragePosition> = Vec::new();
    let mut k: usize = 0;
    while k < state.positions.len()
        invariant
            k <= state.positions.len(),
            pred == (|p: PositionState| p.quantity != 0),
            positions@.len() == state.positions@.take(k as int).filter(pred).len(),
            forall|j: int| 0 <= j < positions@.len() ==> position_view_matches(#[trigger] positions@[j], state.positions@.take(k as int).filter(pred)[j]),
        decreases state.positions.len() - k,
    {
        reveal_with_fuel(Seq::<_>::filter, 1);
        assert(state.positions@.take(k + 1).drop_last() =~= state.positions@.take(k as int));
        let x = &state.positions[k];
        if x.quantity != 0 {
            positions.push(BrokeragePosition {
                instrument_id: x.instrument.clone(),
                quantity: format_decimal(x.quantity),
                historical_cost_minor: x.cost,
                cost_currency: x.currency.clone(),
                latest_operation_id: x.latest.clone(),
            });
        }
        k = k + 1;
    }
    assert(state.positions@.take(state.positions@.len() as int) =~= state.positions@);
    BrokerageAccount {
        account_id,
        opened_date,
        cash,
        positions,
        active_operations,
    }
}

/// The successful brokerage response; asking for one account that does not
/// exist answers `brokerage_not_found`.
pub fn inspect_response(
    command: &str,
    requested_one: bool,
    accounts: Vec<BrokerageAccount>,
    operation_history: Vec<BrokerageOperation>,
) -> (r: BrokerageResponse)
    ensures
        requested_one && accounts@.len() == 0 ==> is_error_response(r, command@, "brokerage_not_found"@, "account_id"@),
        !(requested_one && accounts@.len() == 0) ==> r.ok && r.schema_version@ == brokerage_schema() && r.command@ == command@
            && r.accounts == accounts && r.operation_history == operation_history && r.errors@.len() == 0,
{
    if requested_one && accounts.len() == 0 {
        return err(command, "brokerage_not_found", "account_id");
    }
    BrokerageResponse {
        schema_version: owned("tracky.brokerage.v1"),
        command: owned(command),
        ok: true,
        accounts,
        operation_history,
        errors: Vec::new(),
    }
}

/// Checks a request to open a brokerage on an account: its opening date
/// must be a valid date and the account one the user owns.  `None` when the
/// brokerage can be recorded.
pub fn open_brokerage(input: &BrokerageOpenInput, account_owned: bool) -> (r: Option<BrokerageResponse>)
    ensures
        !spec_valid_date(input.opened_date@) ==> (r matches Some(e)
            && is_error_response(e, "brokerages open"@, "invalid_date"@, "opened_date"@)),
        spec_valid_date(input.opened_date@) && !account_owned ==> (r matches Some(e)
            && is_error_response(e, "brokerages open"@, "account_not_found"@, "account_id"@)),
        spec_valid_date(input.opened_date@) && account_owned ==> r is None,
{
    if !valid_date(input.opened_date.as_str()) {
        return Some(err("brokerages open", "invalid_date", "opened_date"));
    }
    if !account_owned {
        return Some(err("brokerages open", "account_not_found", "account_id"));
    }
    None
}

} // verus!
