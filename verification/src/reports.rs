//! The investment report: external capital, acquisitions and how they were
//! funded, returns, costs, closing positions and what is pending, over a
//! date range and optionally one currency and some accounts.
use vstd::prelude::*;
use crate::brokerage::{in_i64, in_i128, trunc_div, trunc_div_i128};
use crate::cdt::opt_seq;
use crate::ids::{ascii_upper, to_ascii_uppercase};
use crate::ordered::{kv, SortedMap};
use crate::review::owned;
use crate::text::{str_eq, trim_seq, trimmed};

verus! {

/// Which accounts and currency a report covers.
pub struct ReportFilters {
    pub currency: Option<String>,
    pub account_ids: Vec<String>,
}

pub open spec fn account_selected(ids: Seq<String>, account: Seq<char>) -> bool {
    exists|i: int| 0 <= i < ids.len() && (#[trigger] ids[i])@ == account
}

impl ReportFilters {
    /// A row of `account` in `currency` is covered: the currency, compared
    /// upper-cased, is the selected one (if any), and the account is among
    /// the selected ones (when some are selected).
    pub open spec fn spec_includes(self, account: Seq<char>, currency: Seq<char>) -> bool {
        (match self.currency {
            Some(c) => c@ == ascii_upper(currency),
            None => true,
        }) && (self.account_ids@.len() == 0 || account_selected(self.account_ids@, account))
    }

    pub open spec fn spec_includes_currency(self, currency: Seq<char>) -> bool {
        match self.currency {
            Some(c) => c@ == ascii_upper(currency),
            None => true,
        }
    }

    /// Filters for a selected currency (trimmed and upper-cased) and accounts.
    pub fn new(selected_currency: Option<&str>, selected_account_ids: &Vec<String>) -> (r: Self)
        ensures
            opt_seq(r.currency) == (match selected_currency {
                Some(c) => Some(ascii_upper(trim_seq(c@))),
                None => None,
            }),
            r.account_ids@ == selected_account_ids@,
    {
        let currency = match selected_currency {
            Some(c) => Some(to_ascii_uppercase(trimmed(c).as_str())),
            None => None,
        };
        ReportFilters { currency, account_ids: selected_account_ids.clone() }
    }

    /// Filters that cover everything.
    pub fn everything() -> (r: Self)
        ensures
            r.currency is None,
            r.account_ids@.len() == 0,
    {
        ReportFilters { currency: None, account_ids: Vec::new() }
    }

    pub fn includes_currency(&self, currency: &str) -> (r: bool)
        ensures
            r == self.spec_includes_currency(currency@),
    {
        match &self.currency {
            Some(c) => str_eq(c.as_str(), to_ascii_uppercase(currency).as_str()),
            None => true,
        }
    }

    pub fn includes(&self, account_id: &str, currency: &str) -> (r: bool)
        ensures
            r == self.spec_includes(account_id@, currency@),
    {
        if !self.includes_currency(currency) {
            return false;
        }
        if self.account_ids.len() == 0 {
            return true;
        }
        let mut i: usize = 0;
        while i < self.account_ids.len()
            invariant
                i <= self.account_ids@.len(),
                self.spec_includes_currency(currency@),
                forall|j: int| 0 <= j < i ==> (#[trigger] self.account_ids@[j])@ != account_id@,
            decreases self.account_ids.len() - i,
        {
            if str_eq(self.account_ids[i].as_str(), account_id) {
                assert(self.account_ids@[i as int]@ == account_id@);
                return true;
            }
            i = i + 1;
        }
        false
    }
}

/// Why a report cannot be computed from what is stored.
#[derive(Debug, Clone, Copy, PartialEq, Eq, Structural)]
pub enum ReportError {
    AmountOverflow,
    OriginOverflow,
    QuantityOverflow,
    InvalidStoredQuantity,
    SellQuantityMissing,
    IncompatibleExternalProvenance,
    IncompatibleSaleProvenance,
    IncompatibleIncomeProvenance,
    IncompatibleSale,
}

pub struct MoneyTotal {
    pub currency: String,
    pub amount_minor: i64,
}

/// The key of a per-currency total.
pub open spec fn currency_key(c: Seq<char>) -> Seq<Option<Seq<char>>> {
    seq![Some(c)]
}

pub fn key1(a: &str) -> (r: Vec<Option<String>>)
    ensures
        kv(r) == seq![Some(a@)],
{
    let mut k = Vec::new();
    k.push(Some(owned(a)));
    assert(kv(k) =~= seq![Some(a@)]);
    k
}

/// A total after adding `amount` under `key`: zero amounts are not
/// recorded; `None` when the sum leaves `i64`.
pub open spec fn spec_add(m: Map<Seq<Option<Seq<char>>>, i64>, key: Seq<Option<Seq<char>>>, amount: int) -> Option<Map<Seq<Option<Seq<char>>>, i64>> {
    let old: int = if m.contains_key(key) { m[key] as int } else { 0 };
    if amount == 0 {
        Some(m)
    } else if in_i64(old + amount) {
        Some(m.insert(key, (old + amount) as i64))
    } else {
        None
    }
}

/// A total after adding `amount` under `key`, recording the key even for a
/// zero amount.
pub open spec fn spec_add_keep(m: Map<Seq<Option<Seq<char>>>, i64>, key: Seq<Option<Seq<char>>>, amount: int) -> Option<Map<Seq<Option<Seq<char>>>, i64>> {
    let old: int = if m.contains_key(key) { m[key] as int } else { 0 };
    if in_i64(old + amount) {
        Some(m.insert(key, (old + amount) as i64))
    } else {
        None
    }
}

/// Adds `amount` to the total of `key`, leaving zero amounts unrecorded.
pub fn add_total(map: &mut SortedMap<i64>, key: Vec<Option<String>>, amount: i64) -> (r: Result<(), ReportError>)
    requires
        old(map).wf(),
    ensures
        final(map).wf(),
        match spec_add(old(map)@, kv(key), amount as int) {
            Some(m) => r is Ok && final(map)@ == m,
            None => r == Err::<(), ReportError>(ReportError::AmountOverflow),
        },
{
    if amount == 0 {
        return Ok(());
    }
    add_keep(map, key, amount)
}

/// Adds `amount` to the total of `key`, recording the key even for zero.
pub fn add_keep(map: &mut SortedMap<i64>, key: Vec<Option<String>>, amount: i64) -> (r: Result<(), ReportError>)
    requires
        old(map).wf(),
    ensures
        final(map).wf(),
        match spec_add_keep(old(map)@, kv(key), amount as int) {
            Some(m) => r is Ok && final(map)@ == m,
            None => r == Err::<(), ReportError>(ReportError::AmountOverflow) && final(map)@ == old(map)@,
        },
{
    match map.find(&key) {
        Some(i) => {
            proof { map.lemma_view_at(i as int); }
            let current = map.entries[i].value;
            match current.checked_add(amount) {
                Some(total) => {
                    map.set_value(i, total);
                    Ok(())
                },
                None => Err(ReportError::AmountOverflow),
            }
        },
        None => {
            map.insert_new(key, amount);
            Ok(())
        },
    }
}

/// The currency of a per-currency key: its first part.
pub open spec fn key_currency(k: Seq<Option<Seq<char>>>) -> Seq<char> {
    if k.len() > 0 && k[0] is Some { k[0]->0 } else { seq![] }
}

/// The totals of a per-currency map, in currency order.
pub fn totals(map: &SortedMap<i64>) -> (r: Vec<MoneyTotal>)
    requires
        map.wf(),
    ensures
        r@.len() == map.entries@.len(),
        forall|i: int| 0 <= i < r@.len() ==> (#[trigger] r@[i]).currency@ == key_currency(map.key_at(i))
            && r@[i].amount_minor == map@[map.key_at(i)],
{
    let mut out: Vec<MoneyTotal> = Vec::new();
    let mut i: usize = 0;
    while i < map.entries.len()
        invariant
            i <= map.entries@.len(),
            map.wf(),
            out@.len() == i,
            forall|q: int| 0 <= q < i ==> (#[trigger] out@[q]).currency@ == key_currency(map.key_at(q))
                && out@[q].amount_minor == map@[map.key_at(q)],
        decreases map.entries.len() - i,
    {
        let e = &map.entries[i];
        let currency = if e.key.len() > 0 {
            match &e.key[0] {
                Some(c) => c.clone(),
                None => String::new(),
            }
        } else {
            String::new()
        };
        proof {
            map.lemma_view_at(i as int);
        }
        out.push(MoneyTotal { currency, amount_minor: e.value });
        i = i + 1;
    }
    out
}

/// Cash by origin within one account and currency while operations are
/// replayed.
#[derive(Debug, Clone, Copy, PartialEq, Eq, Structural)]
pub struct FundingPools {
    pub deposited_external: i64,
    pub sale_external: i64,
    pub nonexternal_principal: i64,
    pub unattributed_principal: i64,
    pub realized_income: i64,
    pub investment_income: i64,
}

/// Units held of one instrument and the cost behind them, by origin.
#[derive(Debug, Clone, Copy, PartialEq, Eq, Structural)]
pub struct PositionOrigins {
    pub quantity: i128,
    pub external: i64,
    pub existing: i64,
    pub reinvested: i64,
    pub unattributed: i64,
}

pub open spec fn zero_pools() -> FundingPools {
    FundingPools {
        deposited_external: 0,
        sale_external: 0,
        nonexternal_principal: 0,
        unattributed_principal: 0,
        realized_income: 0,
        investment_income: 0,
    }
}

/// How much of `wanted` a pool holding `slot` can supply: nothing from an
/// empty or negative pool, never more than wanted.
pub open spec fn spec_used(slot: int, wanted: int) -> int {
    let avail = if slot > 0 { slot } else { 0 };
    if wanted < avail { wanted } else { avail }
}

/// Taking from a pool cannot make the pool leave `i64`.
pub open spec fn consume_ok(slot: int, wanted: int) -> bool {
    in_i64(slot - spec_used(slot, wanted))
}

/// Adds `amount` to a pool slot, failing when it leaves `i64`.
pub fn pool_add(slot: &mut i64, amount: i64) -> (r: Result<(), ReportError>)
    ensures
        in_i64(*old(slot) + amount) ==> r is Ok && *final(slot) == *old(slot) + amount,
        !in_i64(*old(slot) + amount) ==> r == Err::<(), ReportError>(ReportError::AmountOverflow) && *final(slot) == *old(slot),
{
    match slot.checked_add(amount) {
        Some(v) => {
            *slot = v;
            Ok(())
        },
        None => Err(ReportError::AmountOverflow),
    }
}

/// Takes from a pool what it can supply of `wanted`.
pub fn consume(slot: &mut i64, wanted: &mut i64) -> (used: i64)
    requires
        consume_ok(*old(slot) as int, *old(wanted) as int),
    ensures
        used == spec_used(*old(slot) as int, *old(wanted) as int),
        *final(slot) == *old(slot) - used,
        *final(wanted) == *old(wanted) - used,
{
    let avail = if *slot > 0 { *slot } else { 0 };
    let used = if *wanted < avail { *wanted } else { avail };
    *slot = *slot - used;
    *wanted = *wanted - used;
    used
}

/// Taking from a pool moves value without creating or losing any: the pool
/// and what is still wanted each drop by exactly what was used, a pool that
/// was not negative stays so, and nothing is used beyond a non-negative
/// request.
pub proof fn law_consume_conserves(slot: int, wanted: int)
    ensures
        (slot - spec_used(slot, wanted)) + spec_used(slot, wanted) == slot,
        (wanted - spec_used(slot, wanted)) + spec_used(slot, wanted) == wanted,
        slot >= 0 ==> slot - spec_used(slot, wanted) >= 0,
        wanted >= 0 ==> 0 <= spec_used(slot, wanted) <= wanted,
        wanted >= 0 && slot >= 0 ==> spec_used(slot, wanted) == (if wanted < slot { wanted } else { slot }),
{
}

/// The share of an origin total that leaves with `sold` of `held` units:
/// everything on a final sale, otherwise `total * sold / held` rounded toward
/// zero; `None` when it leaves `i64`.
pub open spec fn spec_allocated_origin(total: int, sold: int, held: int, final_sale: bool) -> Option<int> {
    if final_sale {
        Some(total)
    } else {
        let product = total * sold;
        let q = if held > 0 { trunc_div(product, held) } else { -trunc_div(product, -held) };
        if in_i128(product) && in_i64(q) { Some(q) } else { None }
    }
}

/// Rust's `/` on `i128` would panic: a division by zero, or `MIN / -1`.
pub open spec fn division_panics(product: int, held: int) -> bool {
    held == 0 || (held == -1 && product == i128::MIN)
}

/// Whether taking `wanted` from `slot` stays within `i64` (see `consume_ok`).
pub fn consume_fits(slot: i64, wanted: i64) -> (r: bool)
    ensures
        r == consume_ok(slot as int, wanted as int),
{
    let avail: i64 = if slot > 0 { slot } else { 0 };
    let used: i64 = if wanted < avail { wanted } else { avail };
    (slot as i128) - (used as i128) <= i64::MAX as i128
}

/// Whether the share of `total` leaving with a partial sale of `sold` of
/// `held` units would divide by zero or divide `i128::MIN` by `-1`.
pub fn division_would_panic(total: i64, sold: i128, held: i128) -> (r: bool)
    ensures
        r == (in_i128(total * sold) && division_panics(total * sold, held as int)),
{
    match (total as i128).checked_mul(sold) {
        Some(product) => held == 0 || (held == -1 && product == i128::MIN),
        None => false,
    }
}

/// The share of an origin total that leaves with a partial sale.
pub fn allocated_origin(total: i64, sold: i128, held: i128, final_sale: bool) -> (r: Result<i64, ReportError>)
    requires
        final_sale || !(in_i128(total * sold) && division_panics(total * sold, held as int)),
    ensures
        match spec_allocated_origin(total as int, sold as int, held as int, final_sale) {
            Some(v) => r == Ok::<i64, ReportError>(v as i64),
            None => r == Err::<i64, ReportError>(ReportError::OriginOverflow),
        },
{
    if final_sale {
        return Ok(total);
    }
    let product = match (total as i128).checked_mul(sold) {
        Some(p) => p,
        None => return Err(ReportError::OriginOverflow),
    };
    let q = if held > 0 {
        trunc_div_i128(product, held)
    } else if held == i128::MIN {
        proof {
            let b: int = 170141183460469231731687303715884105728;
            assert(-held as int == b);
            if product >= 0 {
                assert((product as int) / b == 0);
            } else if product == i128::MIN {
                assert((-product as int) / b == 1);
            } else {
                assert((-product as int) / b == 0);
            }
        }
        if product == i128::MIN { 1 } else { 0 }
    } else {
        let t = trunc_div_i128(product, -held);
        proof {
            if t == i128::MIN {
                assert(held == -1 && product == i128::MIN) by (nonlinear_arith)
                    requires
                        t == trunc_div(product as int, -held as int),
                        t == i128::MIN,
                        held < 0,
                        held != i128::MIN,
                        i128::MIN <= product <= i128::MAX;
            }
        }
        -t
    };
    if q < i64::MIN as i128 || q > i64::MAX as i128 {
        return Err(ReportError::OriginOverflow);
    }
    Ok(q as i64)
}

/// Sum of four origins, `None` once a partial sum leaves `i64`.
pub open spec fn origin_sum(o: Seq<i64>) -> Option<int> {
    let a = o[0] as int;
    let b = a + o[1];
    let c = b + o[2];
    let d = c + o[3];
    if in_i64(b) && in_i64(c) && in_i64(d) { Some(d) } else { None }
}

/// The cash a sale actually returned, split across the four origins of its
/// cost in proportion (the last origin takes the rounding): the cash is the
/// net cash, at least zero and at most the cost.
pub open spec fn spec_cash_backed(o: Seq<i64>, net_cash: int) -> Option<Seq<int>> {
    match origin_sum(o) {
        None => None,
        Some(cost) => {
            let cash = if net_cash > 0 { if net_cash < cost { net_cash } else { cost } } else { if 0 < cost { 0 } else { cost } };
            if cost == 0 || cash == cost {
                Some(seq![o[0] as int, o[1] as int, o[2] as int, o[3] as int])
            } else {
                let r0 = trunc_div(o[0] * cash, cost);
                let r1 = trunc_div(o[1] * cash, cost);
                let r2 = trunc_div(o[2] * cash, cost);
                let a1 = r0 + r1;
                let a2 = a1 + r2;
                if in_i64(r0) && in_i64(r1) && in_i64(r2) && in_i64(a1) && in_i64(a2) && in_i64(cash - a2) {
                    Some(seq![r0, r1, r2, cash - a2])
                } else {
                    None
                }
            }
        },
    }
}

/// Splits the cash a sale returned across the origins of its cost.
pub fn cash_backed_origins(origins: [i64; 4], net_cash: i64) -> (r: Result<[i64; 4], ReportError>)
    ensures
        match spec_cash_backed(origins@, net_cash as int) {
            Some(s) => r matches Ok(a) && a@.len() == 4 && a@[0] == s[0] && a@[1] == s[1] && a@[2] == s[2] && a@[3] == s[3],
            None => r == Err::<[i64; 4], ReportError>(ReportError::OriginOverflow),
        },
{
    let b = match origins[0].checked_add(origins[1]) {
        Some(v) => v,
        None => return Err(ReportError::OriginOverflow),
    };
    let c = match b.checked_add(origins[2]) {
        Some(v) => v,
        None => return Err(ReportError::OriginOverflow),
    };
    let cost = match c.checked_add(origins[3]) {
        Some(v) => v,
        None => return Err(ReportError::OriginOverflow),
    };
    let floor0 = if net_cash > 0 { net_cash } else { 0 };
    let cash = if floor0 < cost { floor0 } else { cost };
    if cost == 0 || cash == cost {
        return Ok(origins);
    }
    assert(cost > 0);
    assert(0 <= cash < cost);
    let share = |o: i64| -> (q: i128)
        requires
            0 <= cash < cost,
        ensures
            q as int == trunc_div(o * cash, cost as int),
    {
        proof {
            assert(in_i128(o * cash)) by (nonlinear_arith)
                requires
                    i64::MIN <= o <= i64::MAX,
                    0 <= cash <= i64::MAX;
        }
        trunc_div_i128((o as i128) * (cash as i128), cost as i128)
    };
    let s0 = share(origins[0]);
    let s1 = share(origins[1]);
    let s2 = share(origins[2]);
    if s0 < i64::MIN as i128 || s0 > i64::MAX as i128 || s1 < i64::MIN as i128 || s1 > i64::MAX as i128
        || s2 < i64::MIN as i128 || s2 > i64::MAX as i128 {
        return Err(ReportError::OriginOverflow);
    }
    let r0 = s0 as i64;
    let r1 = s1 as i64;
    let r2 = s2 as i64;
    let a1 = match r0.checked_add(r1) {
        Some(v) => v,
        None => return Err(ReportError::OriginOverflow),
    };
    let a2 = match a1.checked_add(r2) {
        Some(v) => v,
        None => return Err(ReportError::OriginOverflow),
    };
    let last = match cash.checked_sub(a2) {
        Some(v) => v,
        None => return Err(ReportError::OriginOverflow),
    };
    Ok([r0, r1, r2, last])
}

/// The cash a sale returns is exactly accounted for by the four origins it
/// is split across: they add up to the net cash, taken at least zero and at
/// most the cost.
pub proof fn law_cash_backed_sums_to_cash(o: Seq<i64>, net_cash: int)
    requires
        o.len() == 4,
        spec_cash_backed(o, net_cash) is Some,
        origin_sum(o) matches Some(cost) && cost >= 0,
    ensures
        ({
            let s = spec_cash_backed(o, net_cash)->0;
            let cost = origin_sum(o)->0;
            s[0] + s[1] + s[2] + s[3] == (if net_cash > 0 { if net_cash < cost { net_cash } else { cost } } else { 0 })
        }),
{
}

/// Everything a report accumulates, by currency or by composite key.
pub struct ReportAggregation {
    pub withdrawn: SortedMap<i64>,
    pub principal: SortedMap<i64>,
    pub interest: SortedMap<i64>,
    pub dividends: SortedMap<i64>,
    pub results: SortedMap<i64>,
    pub net: SortedMap<i64>,
    pub fees: SortedMap<i64>,
    pub withholding: SortedMap<i64>,
    pub deductions: SortedMap<i64>,
    pub gross: SortedMap<i64>,
    pub external: SortedMap<i64>,
    pub existing: SortedMap<i64>,
    pub sales: SortedMap<i64>,
    pub maturities: SortedMap<i64>,
    pub reinvest: SortedMap<i64>,
    pub instrument_acquisitions: SortedMap<i64>,
    pub return_details: SortedMap<Vec<i64>>,
    pub cost_details: SortedMap<Vec<i64>>,
    pub unattributed_withdrawals: SortedMap<i64>,
}

pub type TotalsView = Map<Seq<Option<Seq<char>>>, i64>;

pub type DetailsView = Map<Seq<Option<Seq<char>>>, Seq<i64>>;

/// What a report has accumulated.
pub struct AggregationView {
    pub withdrawn: TotalsView,
    pub principal: TotalsView,
    pub interest: TotalsView,
    pub dividends: TotalsView,
    pub results: TotalsView,
    pub net: TotalsView,
    pub fees: TotalsView,
    pub withholding: TotalsView,
    pub deductions: TotalsView,
    pub gross: TotalsView,
    pub external: TotalsView,
    pub existing: TotalsView,
    pub sales: TotalsView,
    pub maturities: TotalsView,
    pub reinvest: TotalsView,
    pub instrument_acquisitions: TotalsView,
    pub return_details: DetailsView,
    pub cost_details: DetailsView,
    pub unattributed_withdrawals: TotalsView,
}

pub open spec fn details_view(m: SortedMap<Vec<i64>>) -> DetailsView {
    m@.map_values(|v: Vec<i64>| v@)
}

impl ReportAggregation {
    pub open spec fn wf(&self) -> bool {
        &&& self.withdrawn.wf()
        &&& self.principal.wf()
        &&& self.interest.wf()
        &&& self.dividends.wf()
        &&& self.results.wf()
        &&& self.net.wf()
        &&& self.fees.wf()
        &&& self.withholding.wf()
        &&& self.deductions.wf()
        &&& self.gross.wf()
        &&& self.external.wf()
        &&& self.existing.wf()
        &&& self.sales.wf()
        &&& self.maturities.wf()
        &&& self.reinvest.wf()
        &&& self.instrument_acquisitions.wf()
        &&& self.return_details.wf()
        &&& self.cost_details.wf()
        &&& self.unattributed_withdrawals.wf()
    }

    pub open spec fn view(&self) -> AggregationView {
        AggregationView {
            withdrawn: self.withdrawn@,
            principal: self.principal@,
            interest: self.interest@,
            dividends: self.dividends@,
            results: self.results@,
            net: self.net@,
            fees: self.fees@,
            withholding: self.withholding@,
            deductions: self.deductions@,
            gross: self.gross@,
            external: self.external@,
            existing: self.existing@,
            sales: self.sales@,
            maturities: self.maturities@,
            reinvest: self.reinvest@,
            instrument_acquisitions: self.instrument_acquisitions@,
            return_details: details_view(self.return_details),
            cost_details: details_view(self.cost_details),
            unattributed_withdrawals: self.unattributed_withdrawals@,
        }
    }

    pub fn new() -> (r: Self)
        ensures
            r.wf(),
            r.view() == empty_aggregation(),
    {
        let r = ReportAggregation {
            withdrawn: SortedMap::new(),
            principal: SortedMap::new(),
            interest: SortedMap::new(),
            dividends: SortedMap::new(),
            results: SortedMap::new(),
            net: SortedMap::new(),
            fees: SortedMap::new(),
            withholding: SortedMap::new(),
            deductions: SortedMap::new(),
            gross: SortedMap::new(),
            external: SortedMap::new(),
            existing: SortedMap::new(),
            sales: SortedMap::new(),
            maturities: SortedMap::new(),
            reinvest: SortedMap::new(),
            instrument_acquisitions: SortedMap::new(),
            return_details: SortedMap::new(),
            cost_details: SortedMap::new(),
            unattributed_withdrawals: SortedMap::new(),
        };
        assert(details_view(r.return_details) =~= Map::empty());
        assert(details_view(r.cost_details) =~= Map::empty());
        r
    }
}

pub open spec fn empty_aggregation() -> AggregationView {
    AggregationView {
        withdrawn: Map::empty(),
        principal: Map::empty(),
        interest: Map::empty(),
        dividends: Map::empty(),
        results: Map::empty(),
        net: Map::empty(),
        fees: Map::empty(),
        withholding: Map::empty(),
        deductions: Map::empty(),
        gross: Map::empty(),
        external: Map::empty(),
        existing: Map::empty(),
        sales: Map::empty(),
        maturities: Map::empty(),
        reinvest: Map::empty(),
        instrument_acquisitions: Map::empty(),
        return_details: Map::empty(),
        cost_details: Map::empty(),
        unattributed_withdrawals: Map::empty(),
    }
}

pub open spec fn component_fits(old: Seq<i64>, values: Seq<i64>, i: int) -> bool {
    in_i64(old[i] + values[i])
}

/// Component-wise sums added to the components of `key` (zeros when the
/// key is new); `None` when a sum leaves `i64`.
pub open spec fn stored_components(m: DetailsView, key: Seq<Option<Seq<char>>>, n: nat) -> Seq<i64> {
    if m.contains_key(key) { m[key] } else { Seq::new(n, |_i: int| 0i64) }
}

pub open spec fn spec_add_components(m: DetailsView, key: Seq<Option<Seq<char>>>, values: Seq<i64>) -> Option<DetailsView> {
    let old = stored_components(m, key, values.len());
    if old.len() == values.len() && forall|i: int| 0 <= i < values.len() ==> #[trigger] component_fits(old, values, i) {
        Some(m.insert(key, Seq::new(values.len(), |i: int| (old[i] + values[i]) as i64)))
    } else {
        None
    }
}

/// Adds each of `values` to the matching component stored under `key`.
pub fn add_components(map: &mut SortedMap<Vec<i64>>, key: Vec<Option<String>>, values: Vec<i64>) -> (r: Result<(), ReportError>)
    requires
        old(map).wf(),
    ensures
        final(map).wf(),
        match spec_add_components(details_view(*old(map)), kv(key), values@) {
            Some(m) => r is Ok && details_view(*final(map)) == m,
            None => r == Err::<(), ReportError>(ReportError::AmountOverflow),
        },
{
    let ghost before = details_view(*map);
    let found = map.find(&key);
    let current: Vec<i64> = match found {
        Some(i) => {
            proof { map.lemma_view_at(i as int); }
            map.entries[i].value.clone()
        },
        None => {
            let mut z: Vec<i64> = Vec::new();
            let mut j: usize = 0;
            while j < values.len()
                invariant
                    j <= values@.len(),
                    z@.len() == j,
                    forall|q: int| 0 <= q < j ==> z@[q] == 0,
                decreases values.len() - j,
            {
                z.push(0);
                j = j + 1;
            }
            assert(z@ =~= Seq::new(values@.len(), |_i: int| 0i64));
            z
        },
    };
    assert(current@ == stored_components(before, kv(key), values@.len()));
    if current.len() != values.len() {
        return Err(ReportError::AmountOverflow);
    }
    let mut sums: Vec<i64> = Vec::new();
    let mut j: usize = 0;
    let ghost before_map = *map;
    while j < values.len()
        invariant
            j <= values@.len() == current@.len(),
            *map == before_map,
            before_map.wf(),
            before == details_view(before_map),
            current@ == stored_components(before, kv(key), values@.len()),
            sums@.len() == j,
            forall|q: int| 0 <= q < j ==> #[trigger] component_fits(current@, values@, q),
            forall|q: int| 0 <= q < j ==> #[trigger] sums@[q] == current@[q] + values@[q],
        decreases values.len() - j,
    {
        match current[j].checked_add(values[j]) {
            Some(v) => sums.push(v),
            None => {
                assert(!component_fits(current@, values@, j as int));
                return Err(ReportError::AmountOverflow);
            },
        }
        j = j + 1;
    }
    assert(sums@ =~= Seq::new(values@.len(), |i: int| (current@[i] + values@[i]) as i64));
    match found {
        Some(i) => map.set_value(i, sums),
        None => map.insert_new(key, sums),
    }
    proof {
        assert(details_view(*map) =~= before.insert(kv(key), Seq::new(values@.len(), |i: int| (current@[i] + values@[i]) as i64)));
    }
    Ok(())
}

} // verus!
