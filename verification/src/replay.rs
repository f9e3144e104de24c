//! Replaying brokerage operations for the investment report: cash is kept
//! in pools by origin (external deposits, sale proceeds, existing principal,
//! income), purchases draw on those pools as their funding attribution says,
//! and sales return cash to them in proportion to the cost they carried.
use vstd::prelude::*;
use crate::brokerage::in_i64;
use crate::cdt::opt_seq;
use crate::decimal::{parse_report_quantity, spec_parse_report_quantity};
use crate::ordered::{kv, SortedMap};
use crate::reports::{consume_fits, division_would_panic, add_total, add_components, add_keep, allocated_origin, cash_backed_origins, consume, consume_ok, pool_add, spec_add, spec_add_components, spec_add_keep, spec_allocated_origin, spec_cash_backed, spec_used, division_panics, zero_pools, AggregationView, FundingPools, PositionOrigins, ReportAggregation, ReportError, ReportFilters, TotalsView};
use crate::review::owned;
use crate::text::{seq_lt, str_eq, str_lt};

verus! {

/// One active brokerage operation as the report reads it.
pub struct BrokerageReplayRow {
    pub account: String,
    pub kind: String,
    pub cur: String,
    pub g: i64,
    pub rr: i64,
    pub f: i64,
    pub w: i64,
    pub d: i64,
    pub n: i64,
    pub funding: Option<String>,
    pub instrument: Option<String>,
    pub instrument_type: Option<String>,
    pub date: String,
    pub quantity: Option<String>,
    pub origin_external: i64,
    pub origin_existing: i64,
    pub origin_reinvested: i64,
    pub origin_income: i64,
    pub origin_unattributed: i64,
}

/// How replaying stops early: a failure the report reports, or an input on
/// which the computation would panic.
#[derive(Debug, Clone, Copy, PartialEq, Eq, Structural)]
pub enum Halt {
    Failure(ReportError),
    Panic,
}

pub type Key = Seq<Option<Seq<char>>>;

/// What replaying has built so far.
pub struct ReplayView {
    pub pools: Map<Key, FundingPools>,
    pub origins: Map<Key, PositionOrigins>,
    pub agg: AggregationView,
}

/// Replay state: pools per account and currency, origins per account,
/// instrument and currency, and the report totals.
pub struct ReplayState {
    pub pools: SortedMap<FundingPools>,
    pub origins: SortedMap<PositionOrigins>,
    pub aggregation: ReportAggregation,
}

impl ReplayState {
    pub open spec fn wf(&self) -> bool {
        self.pools.wf() && self.origins.wf() && self.aggregation.wf()
    }

    pub open spec fn view(&self) -> ReplayView {
        ReplayView { pools: self.pools@, origins: self.origins@, agg: self.aggregation.view() }
    }

    pub fn new() -> (r: Self)
        ensures
            r.wf(),
            r.view().pools == Map::<Key, FundingPools>::empty(),
            r.view().origins == Map::<Key, PositionOrigins>::empty(),
            r.view().agg == crate::reports::empty_aggregation(),
    {
        ReplayState { pools: SortedMap::new(), origins: SortedMap::new(), aggregation: ReportAggregation::new() }
    }
}

pub open spec fn fail(e: ReportError) -> Halt {
    Halt::Failure(e)
}

pub open spec fn key2(a: Seq<char>, b: Seq<char>) -> Key {
    seq![Some(a), Some(b)]
}

pub open spec fn key3(a: Seq<char>, b: Option<Seq<char>>, c: Seq<char>) -> Key {
    seq![Some(a), b, Some(c)]
}

pub open spec fn key4(a: Seq<char>, b: Seq<char>, c: Seq<char>, d: Seq<char>) -> Key {
    seq![Some(a), Some(b), Some(c), Some(d)]
}

pub open spec fn cur_key(c: Seq<char>) -> Key {
    seq![Some(c)]
}

/// Adds to a per-currency total, as a replay step.
pub open spec fn sadd(m: TotalsView, c: Seq<char>, amount: int) -> Result<TotalsView, Halt> {
    match spec_add(m, cur_key(c), amount) {
        Some(x) => Ok(x),
        None => Err(fail(ReportError::AmountOverflow)),
    }
}

/// Adds `amount` to a pool slot, as a replay step.
pub open spec fn slot_add(slot: int, amount: int) -> Result<int, Halt> {
    if in_i64(slot + amount) { Ok(slot + amount) } else { Err(fail(ReportError::AmountOverflow)) }
}

/// `a + b` as an origin computation.
pub open spec fn origin_plus(a: int, b: int) -> Result<int, Halt> {
    if in_i64(a + b) { Ok(a + b) } else { Err(fail(ReportError::OriginOverflow)) }
}

/// What a pool supplies of `wanted`: the pool left, the wanted left and the
/// amount used; a panic where the subtraction would overflow.
pub open spec fn take(slot: int, wanted: int) -> Result<(int, int, int), Halt> {
    if consume_ok(slot, wanted) {
        let u = spec_used(slot, wanted);
        Ok((slot - u, wanted - u, u))
    } else {
        Err(Halt::Panic)
    }
}

/// A buy draws its external funding from deposited external cash, its
/// reinvested funding from sale proceeds, then existing principal, then
/// unattributed principal, and its income funding from investment income,
/// then realized income; each attribution must be fully covered.  Gives the
/// pools after and the amounts drawn from external deposits, sale external
/// proceeds, existing principal and unattributed principal.
pub open spec fn spec_buy_pools(p: FundingPools, row: BrokerageReplayRow) -> Result<(FundingPools, (int, int, int, int)), Halt> {
    match take(p.deposited_external as int, row.origin_external as int) {
        Err(h) => Err(h),
        Ok((dep, rem, direct)) => if rem != 0 {
            Err(fail(ReportError::IncompatibleExternalProvenance))
        } else {
            match take(p.sale_external as int, row.origin_reinvested as int) {
                Err(h) => Err(h),
                Ok((sale, w1, sale_external)) => match take(p.nonexternal_principal as int, w1) {
                    Err(h) => Err(h),
                    Ok((nonext, w2, sale_existing)) => match take(p.unattributed_principal as int, w2) {
                        Err(h) => Err(h),
                        Ok((unattr, w3, sale_unattributed)) => if w3 != 0 {
                            Err(fail(ReportError::IncompatibleSaleProvenance))
                        } else {
                            match take(p.investment_income as int, row.origin_income as int) {
                                Err(h) => Err(h),
                                Ok((income, x1, _u)) => match take(p.realized_income as int, x1) {
                                    Err(h) => Err(h),
                                    Ok((realized, x2, _v)) => if x2 != 0 {
                                        Err(fail(ReportError::IncompatibleIncomeProvenance))
                                    } else {
                                        Ok((
                                            FundingPools {
                                                deposited_external: dep as i64,
                                                sale_external: sale as i64,
                                                nonexternal_principal: nonext as i64,
                                                unattributed_principal: unattr as i64,
                                                realized_income: realized as i64,
                                                investment_income: income as i64,
                                            },
                                            (direct, sale_external, sale_existing, sale_unattributed),
                                        ))
                                    },
                                },
                            }
                        },
                    },
                },
            }
        },
    }
}

/// Draws a buy's funding from the pools (see `spec_buy_pools`).
pub fn buy_pools(p: &mut FundingPools, row: &BrokerageReplayRow) -> (r: Result<(i64, i64, i64, i64), Halt>)
    ensures
        match spec_buy_pools(*old(p), *row) {
            Ok((q, t)) => r matches Ok(x) && *final(p) == q && x.0 == t.0 && x.1 == t.1 && x.2 == t.2 && x.3 == t.3,
            Err(h) => r == Err::<(i64, i64, i64, i64), Halt>(h),
        },
{
    let mut external = row.origin_external;
    if !consume_fits(p.deposited_external, external) {
        return Err(Halt::Panic);
    }
    let direct = consume(&mut p.deposited_external, &mut external);
    if external != 0 {
        return Err(Halt::Failure(ReportError::IncompatibleExternalProvenance));
    }
    let mut sale_remaining = row.origin_reinvested;
    if !consume_fits(p.sale_external, sale_remaining) {
        return Err(Halt::Panic);
    }
    let sale_external = consume(&mut p.sale_external, &mut sale_remaining);
    if !consume_fits(p.nonexternal_principal, sale_remaining) {
        return Err(Halt::Panic);
    }
    let sale_existing = consume(&mut p.nonexternal_principal, &mut sale_remaining);
    if !consume_fits(p.unattributed_principal, sale_remaining) {
        return Err(Halt::Panic);
    }
    let sale_unattributed = consume(&mut p.unattributed_principal, &mut sale_remaining);
    if sale_remaining != 0 {
        return Err(Halt::Failure(ReportError::IncompatibleSaleProvenance));
    }
    let mut income_remaining = row.origin_income;
    if !consume_fits(p.investment_income, income_remaining) {
        return Err(Halt::Panic);
    }
    consume(&mut p.investment_income, &mut income_remaining);
    if !consume_fits(p.realized_income, income_remaining) {
        return Err(Halt::Panic);
    }
    consume(&mut p.realized_income, &mut income_remaining);
    if income_remaining != 0 {
        return Err(Halt::Failure(ReportError::IncompatibleIncomeProvenance));
    }
    Ok((direct, sale_external, sale_existing, sale_unattributed))
}

/// A buy in range adds to gross acquisitions (and to its instrument's
/// acquisitions when the instrument and its type are known) and to the
/// totals of its funding attribution.
pub open spec fn spec_buy_totals(a: AggregationView, row: BrokerageReplayRow) -> Result<AggregationView, Halt> {
    let c = row.cur@;
    match sadd(a.gross, c, row.g as int) {
        Err(h) => Err(h),
        Ok(gross) => {
            let acq = if row.instrument is Some && row.instrument_type is Some {
                spec_add_keep(a.instrument_acquisitions, key4(row.account@, row.instrument->0@,
                    row.instrument_type->0@, c), row.g as int)
            } else {
                Some(a.instrument_acquisitions)
            };
            match acq {
                None => Err(fail(ReportError::AmountOverflow)),
                Some(acq) => match sadd(a.external, c, row.origin_external as int) {
                    Err(h) => Err(h),
                    Ok(external) => match sadd(a.existing, c, row.origin_existing as int) {
                        Err(h) => Err(h),
                        Ok(existing) => match sadd(a.sales, c, row.origin_reinvested as int) {
                            Err(h) => Err(h),
                            Ok(sales) => match origin_plus(row.origin_reinvested as int, row.origin_income as int) {
                                Err(h) => Err(h),
                                Ok(rein) => match sadd(a.reinvest, c, rein) {
                                    Err(h) => Err(h),
                                    Ok(reinvest) => Ok(AggregationView {
                                        gross,
                                        instrument_acquisitions: acq,
                                        external,
                                        existing,
                                        sales,
                                        reinvest,
                                        ..a
                                    }),
                                },
                            },
                        },
                    },
                },
            }
        },
    }
}

/// The zero position a first purchase starts from.
pub open spec fn zero_origins() -> PositionOrigins {
    PositionOrigins { quantity: 0, external: 0, existing: 0, reinvested: 0, unattributed: 0 }
}

/// A buy of a known instrument and quantity adds the units and the cost by
/// origin to the position: external (direct plus sale external), existing
/// (attributed plus drawn from existing principal), reinvested income, and
/// unattributed (attributed plus drawn from unattributed principal).
pub open spec fn spec_buy_position(o: PositionOrigins, row: BrokerageReplayRow, drawn: (int, int, int, int)) -> Result<PositionOrigins, Halt> {
    match spec_parse_report_quantity(row.quantity->0@) {
        None => Err(fail(ReportError::InvalidStoredQuantity)),
        Some(q) => if !crate::brokerage::in_i128(o.quantity + q) {
            Err(fail(ReportError::QuantityOverflow))
        } else {
            match origin_plus(drawn.0, drawn.1) {
                Err(h) => Err(h),
                Ok(ext) => match slot_add(o.external as int, ext) {
                    Err(h) => Err(h),
                    Ok(external) => match origin_plus(row.origin_existing as int, drawn.2) {
                        Err(h) => Err(h),
                        Ok(ex) => match slot_add(o.existing as int, ex) {
                            Err(h) => Err(h),
                            Ok(existing) => match slot_add(o.reinvested as int, row.origin_income as int) {
                                Err(h) => Err(h),
                                Ok(reinvested) => match origin_plus(row.origin_unattributed as int, drawn.3) {
                                    Err(h) => Err(h),
                                    Ok(un) => match slot_add(o.unattributed as int, un) {
                                        Err(h) => Err(h),
                                        Ok(unattributed) => Ok(PositionOrigins {
                                            quantity: (o.quantity + q) as i128,
                                            external: external as i64,
                                            existing: existing as i64,
                                            reinvested: reinvested as i64,
                                            unattributed: unattributed as i64,
                                        }),
                                    },
                                },
                            },
                        },
                    },
                },
            }
        },
    }
}

pub fn key_of(parts: Vec<Option<&str>>) -> (r: Vec<Option<String>>)
    ensures
        r@.len() == parts@.len(),
        kv(r) == parts@.map_values(|o: Option<&str>| match o {
            Some(x) => Some(x@),
            None => None::<Seq<char>>,
        }),
{
    let mut out: Vec<Option<String>> = Vec::new();
    let mut i: usize = 0;
    while i < parts.len()
        invariant
            i <= parts@.len(),
            out@.len() == i,
            forall|j: int| 0 <= j < i ==> opt_seq(#[trigger] out@[j]) == (match parts@[j] {
                Some(x) => Some(x@),
                None => None::<Seq<char>>,
            }),
        decreases parts.len() - i,
    {
        let part = match parts[i] {
            Some(x) => Some(owned(x)),
            None => None,
        };
        out.push(part);
        i = i + 1;
    }
    assert(kv(out) =~= parts@.map_values(|o: Option<&str>| match o {
        Some(x) => Some(x@),
        None => None::<Seq<char>>,
    }));
    out
}

fn ckey(c: &str) -> (r: Vec<Option<String>>)
    ensures
        kv(r) == cur_key(c@),
{
    crate::reports::key1(c)
}

fn tadd(m: &mut SortedMap<i64>, c: &str, amount: i64) -> (r: Result<(), ReportError>)
    requires
        old(m).wf(),
    ensures
        final(m).wf(),
        match sadd(old(m)@, c@, amount as int) {
            Ok(x) => r is Ok && final(m)@ == x,
            Err(h) => h matches Halt::Failure(e) && r == Err::<(), ReportError>(e),
        },
{
    add_total(m, ckey(c), amount)
}

/// Adds a buy to the report totals (see `spec_buy_totals`).
pub fn buy_totals(a: &mut ReportAggregation, row: &BrokerageReplayRow) -> (r: Result<(), ReportError>)
    requires
        old(a).wf(),
    ensures
        final(a).wf(),
        match spec_buy_totals(old(a).view(), *row) {
            Ok(v) => r is Ok && final(a).view() == v,
            Err(h) => h matches Halt::Failure(e) && r == Err::<(), ReportError>(e),
        },
{
    let c = row.cur.as_str();
    match tadd(&mut a.gross, c, row.g) {
        Ok(()) => {},
        Err(e) => return Err(e),
    }
    match (&row.instrument, &row.instrument_type) {
        (Some(i), Some(t)) => {
            let k = key_of(vec![Some(row.account.as_str()), Some(i.as_str()), Some(t.as_str()), Some(c)]);
            assert(kv(k) =~= key4(row.account@, i@, t@, c@));
            match add_keep(&mut a.instrument_acquisitions, k, row.g) {
                Ok(()) => {},
                Err(e) => return Err(e),
            }
        },
        _ => {},
    }
    match tadd(&mut a.external, c, row.origin_external) {
        Ok(()) => {},
        Err(e) => return Err(e),
    }
    match tadd(&mut a.existing, c, row.origin_existing) {
        Ok(()) => {},
        Err(e) => return Err(e),
    }
    match tadd(&mut a.sales, c, row.origin_reinvested) {
        Ok(()) => {},
        Err(e) => return Err(e),
    }
    let rein = match row.origin_reinvested.checked_add(row.origin_income) {
        Some(v) => v,
        None => return Err(ReportError::OriginOverflow),
    };
    tadd(&mut a.reinvest, c, rein)
}

/// Adds a buy to its position (see `spec_buy_position`).
pub fn buy_position(o: &mut PositionOrigins, row: &BrokerageReplayRow, drawn: (i64, i64, i64, i64)) -> (r: Result<(), ReportError>)
    requires
        row.quantity is Some,
    ensures
        match spec_buy_position(*old(o), *row, (drawn.0 as int, drawn.1 as int, drawn.2 as int, drawn.3 as int)) {
            Ok(v) => r is Ok && *final(o) == v,
            Err(h) => h matches Halt::Failure(e) && r == Err::<(), ReportError>(e),
        },
{
    let q = match &row.quantity {
        Some(text) => match parse_report_quantity(text.as_str()) {
            Some(q) => q,
            None => return Err(ReportError::InvalidStoredQuantity),
        },
        None => return Err(ReportError::InvalidStoredQuantity),
    };
    let quantity = match o.quantity.checked_add(q) {
        Some(v) => v,
        None => return Err(ReportError::QuantityOverflow),
    };
    let ext = match drawn.0.checked_add(drawn.1) {
        Some(v) => v,
        None => return Err(ReportError::OriginOverflow),
    };
    let external = match o.external.checked_add(ext) {
        Some(v) => v,
        None => return Err(ReportError::AmountOverflow),
    };
    let ex = match row.origin_existing.checked_add(drawn.2) {
        Some(v) => v,
        None => return Err(ReportError::OriginOverflow),
    };
    let existing = match o.existing.checked_add(ex) {
        Some(v) => v,
        None => return Err(ReportError::AmountOverflow),
    };
    let reinvested = match o.reinvested.checked_add(row.origin_income) {
        Some(v) => v,
        None => return Err(ReportError::AmountOverflow),
    };
    let un = match row.origin_unattributed.checked_add(drawn.3) {
        Some(v) => v,
        None => return Err(ReportError::OriginOverflow),
    };
    let unattributed = match o.unattributed.checked_add(un) {
        Some(v) => v,
        None => return Err(ReportError::AmountOverflow),
    };
    *o = PositionOrigins { quantity, external, existing, reinvested, unattributed };
    Ok(())
}

/// A sale in range adds its principal (gross less realized result) and its
/// realized result.
pub open spec fn spec_sell_totals(a: AggregationView, row: BrokerageReplayRow) -> Result<AggregationView, Halt> {
    let c = row.cur@;
    if !in_i64(row.g - row.rr) {
        Err(fail(ReportError::AmountOverflow))
    } else {
        match sadd(a.principal, c, row.g - row.rr) {
            Err(h) => Err(h),
            Ok(principal) => match sadd(a.results, c, row.rr as int) {
                Err(h) => Err(h),
                Ok(results) => Ok(AggregationView { principal, results, ..a }),
            },
        }
    }
}

/// The amount a per-currency total holds for currency `c` (zero when it
/// holds none).
pub open spec fn currency_total(m: TotalsView, c: Seq<char>) -> int {
    if m.contains_key(seq![Some(c)]) { m[seq![Some(c)]] as int } else { 0 }
}

/// A sale splits its gross proceeds into principal returned and realized
/// result: the sale's currency gains exactly gross less realized result as
/// principal returned and exactly the realized result as results, so the
/// two together grow by the gross proceeds; every other currency keeps its
/// totals.
pub proof fn law_sale_splits_gross_proceeds(a: AggregationView, row: BrokerageReplayRow, other: Seq<char>)
    requires
        other != row.cur@,
    ensures
        spec_sell_totals(a, row) matches Ok(b) ==> {
            &&& currency_total(b.principal, row.cur@) == currency_total(a.principal, row.cur@) + row.g - row.rr
            &&& currency_total(b.results, row.cur@) == currency_total(a.results, row.cur@) + row.rr
            &&& (currency_total(b.principal, row.cur@) - currency_total(a.principal, row.cur@))
                + (currency_total(b.results, row.cur@) - currency_total(a.results, row.cur@)) == row.g
            &&& currency_total(b.principal, other) == currency_total(a.principal, other)
            &&& currency_total(b.results, other) == currency_total(a.results, other)
        },
{
    assert(seq![Some(other)] != seq![Some(row.cur@)]) by {
        assert(seq![Some(other)][0] != seq![Some(row.cur@)][0]);
    }
}

/// A buy adds its gross amount to gross acquisitions and each part of its
/// funding to the total of that part, all in its currency: external
/// capital, existing cash, sale proceeds, and reinvestment (sale proceeds
/// and investment income together).
pub proof fn law_buy_totals(a: AggregationView, row: BrokerageReplayRow)
    ensures
        spec_buy_totals(a, row) matches Ok(b) ==> {
            let c = row.cur@;
            &&& currency_total(b.gross, c) == currency_total(a.gross, c) + row.g
            &&& currency_total(b.external, c) == currency_total(a.external, c) + row.origin_external
            &&& currency_total(b.existing, c) == currency_total(a.existing, c) + row.origin_existing
            &&& currency_total(b.sales, c) == currency_total(a.sales, c) + row.origin_reinvested
            &&& currency_total(b.reinvest, c) == currency_total(a.reinvest, c) + row.origin_reinvested + row.origin_income
        },
{
}

/// Every operation in range adds its fee, withholding, other deductions
/// and net cash to the totals of its currency.
pub proof fn law_costs_and_net_cash_add_up(a: AggregationView, row: BrokerageReplayRow)
    ensures
        spec_tail(a, row) matches Ok(b) ==> {
            let c = row.cur@;
            &&& currency_total(b.fees, c) == currency_total(a.fees, c) + row.f
            &&& currency_total(b.withholding, c) == currency_total(a.withholding, c) + row.w
            &&& currency_total(b.deductions, c) == currency_total(a.deductions, c) + row.d
            &&& currency_total(b.net, c) == currency_total(a.net, c) + row.n
        },
{
}

/// A dividend in range adds its gross amount to the dividends of its
/// currency, and its net cash to its account's investment income.
pub proof fn law_dividend_counts(st: ReplayView, row: BrokerageReplayRow, in_range: bool)
    ensures
        spec_dividend_step(st, row, in_range) matches Ok(v) ==> {
            &&& in_range ==> currency_total(v.agg.dividends, row.cur@) == currency_total(st.agg.dividends, row.cur@) + row.g
            &&& !in_range ==> v.agg == st.agg
            &&& v.pools[key2(row.account@, row.cur@)].investment_income == pools_of(st, row).investment_income + row.n
        },
{
}

/// Adds a sale to the report totals (see `spec_sell_totals`).
pub fn sell_totals(a: &mut ReportAggregation, row: &BrokerageReplayRow) -> (r: Result<(), ReportError>)
    requires
        old(a).wf(),
    ensures
        final(a).wf(),
        match spec_sell_totals(old(a).view(), *row) {
            Ok(v) => r is Ok && final(a).view() == v,
            Err(h) => h matches Halt::Failure(e) && r == Err::<(), ReportError>(e),
        },
{
    let c = row.cur.as_str();
    let principal = match row.g.checked_sub(row.rr) {
        Some(v) => v,
        None => return Err(ReportError::AmountOverflow),
    };
    match tadd(&mut a.principal, c, principal) {
        Ok(()) => {},
        Err(e) => return Err(e),
    }
    tadd(&mut a.results, c, row.rr)
}

/// The instrument a sale is booked to.
pub open spec fn sold_instrument(row: BrokerageReplayRow) -> Seq<char> {
    match row.instrument {
        Some(i) => i@,
        None => "__unattributed__"@,
    }
}

/// The four origins of the cost a sale of `sold` units takes out of position
/// `pos`, and the position left.
pub open spec fn spec_sale_origins(pos: PositionOrigins, sold: int) -> Result<(PositionOrigins, Seq<i64>), Halt> {
    let final_sale = sold == pos.quantity;
    let held = pos.quantity as int;
    if !final_sale && ((crate::brokerage::in_i128(pos.external * sold) && division_panics(pos.external * sold, held))
        || (crate::brokerage::in_i128(pos.existing * sold) && division_panics(pos.existing * sold, held))
        || (crate::brokerage::in_i128(pos.reinvested * sold) && division_panics(pos.reinvested * sold, held))
        || (crate::brokerage::in_i128(pos.unattributed * sold) && division_panics(pos.unattributed * sold, held))) {
        Err(Halt::Panic)
    } else {
        match (spec_allocated_origin(pos.external as int, sold, held, final_sale),
            spec_allocated_origin(pos.existing as int, sold, held, final_sale),
            spec_allocated_origin(pos.reinvested as int, sold, held, final_sale),
            spec_allocated_origin(pos.unattributed as int, sold, held, final_sale)) {
            (Some(e), Some(x), Some(r), Some(u)) => {
                if !crate::brokerage::in_i128(held - sold) {
                    Err(fail(ReportError::QuantityOverflow))
                } else if !(in_i64(pos.external - e) && in_i64(pos.existing - x) && in_i64(pos.reinvested - r)
                    && in_i64(pos.unattributed - u)) {
                    Err(fail(ReportError::OriginOverflow))
                } else {
                    Ok((
                        PositionOrigins {
                            quantity: (held - sold) as i128,
                            external: (pos.external - e) as i64,
                            existing: (pos.existing - x) as i64,
                            reinvested: (pos.reinvested - r) as i64,
                            unattributed: (pos.unattributed - u) as i64,
                        },
                        seq![e as i64, x as i64, r as i64, u as i64],
                    ))
                }
            },
            _ => Err(fail(ReportError::OriginOverflow)),
        }
    }
}

/// Takes a sale's cost out of its position (see `spec_sale_origins`).
pub fn sale_origins(pos: &mut PositionOrigins, sold: i128) -> (r: Result<[i64; 4], Halt>)
    ensures
        match spec_sale_origins(*old(pos), sold as int) {
            Ok((p, o)) => r matches Ok(a) && a@ == o && *final(pos) == p,
            Err(h) => r == Err::<[i64; 4], Halt>(h),
        },
{
    let held = pos.quantity;
    let final_sale = sold == held;
    if !final_sale && (division_would_panic(pos.external, sold, held) || division_would_panic(pos.existing, sold, held)
        || division_would_panic(pos.reinvested, sold, held) || division_would_panic(pos.unattributed, sold, held)) {
        return Err(Halt::Panic);
    }
    let e = match allocated_origin(pos.external, sold, held, final_sale) {
        Ok(v) => v,
        Err(x) => return Err(Halt::Failure(x)),
    };
    let x = match allocated_origin(pos.existing, sold, held, final_sale) {
        Ok(v) => v,
        Err(x) => return Err(Halt::Failure(x)),
    };
    let r = match allocated_origin(pos.reinvested, sold, held, final_sale) {
        Ok(v) => v,
        Err(x) => return Err(Halt::Failure(x)),
    };
    let u = match allocated_origin(pos.unattributed, sold, held, final_sale) {
        Ok(v) => v,
        Err(x) => return Err(Halt::Failure(x)),
    };
    let quantity = match held.checked_sub(sold) {
        Some(v) => v,
        None => return Err(Halt::Failure(ReportError::QuantityOverflow)),
    };
    let external = match pos.external.checked_sub(e) {
        Some(v) => v,
        None => return Err(Halt::Failure(ReportError::OriginOverflow)),
    };
    let existing = match pos.existing.checked_sub(x) {
        Some(v) => v,
        None => return Err(Halt::Failure(ReportError::OriginOverflow)),
    };
    let reinvested = match pos.reinvested.checked_sub(r) {
        Some(v) => v,
        None => return Err(Halt::Failure(ReportError::OriginOverflow)),
    };
    let unattributed = match pos.unattributed.checked_sub(u) {
        Some(v) => v,
        None => return Err(Halt::Failure(ReportError::OriginOverflow)),
    };
    *pos = PositionOrigins { quantity, external, existing, reinvested, unattributed };
    let out = [e, x, r, u];
    assert(out@ =~= seq![e, x, r, u]);
    Ok(out)
}

/// The cash a sale returned goes back to the pools by origin: external to
/// sale proceeds, existing and reinvested to non-external principal,
/// unattributed to unattributed principal, and what exceeds the cost to
/// realized income.
pub open spec fn spec_sale_pools(p: FundingPools, origins: Seq<i64>, net: int) -> Result<FundingPools, Halt> {
    match spec_cash_backed(origins, net) {
        None => Err(fail(ReportError::OriginOverflow)),
        Some(c) => match slot_add(p.sale_external as int, c[0]) {
            Err(h) => Err(h),
            Ok(sale) => match origin_plus(c[1], c[2]) {
                Err(h) => Err(h),
                Ok(nx) => match slot_add(p.nonexternal_principal as int, nx) {
                    Err(h) => Err(h),
                    Ok(nonext) => match slot_add(p.unattributed_principal as int, c[3]) {
                        Err(h) => Err(h),
                        Ok(unattr) => {
                            let s1 = c[0] + c[1];
                            let s2 = s1 + c[2];
                            let s3 = s2 + c[3];
                            if !(in_i64(s1) && in_i64(s2) && in_i64(s3)) {
                                Err(fail(ReportError::OriginOverflow))
                            } else if !in_i64(net - s3) {
                                Err(fail(ReportError::IncompatibleSale))
                            } else {
                                let gain = if net - s3 > 0 { net - s3 } else { 0 };
                                match slot_add(p.realized_income as int, gain) {
                                    Err(h) => Err(h),
                                    Ok(realized) => Ok(FundingPools {
                                        sale_external: sale as i64,
                                        nonexternal_principal: nonext as i64,
                                        unattributed_principal: unattr as i64,
                                        realized_income: realized as i64,
                                        ..p
                                    }),
                                }
                            }
                        },
                    },
                },
            },
        },
    }
}

/// Returns a sale's cash to the pools (see `spec_sale_pools`).
pub fn sale_pools(p: &mut FundingPools, origins: [i64; 4], net: i64) -> (r: Result<(), ReportError>)
    ensures
        match spec_sale_pools(*old(p), origins@, net as int) {
            Ok(q) => r is Ok && *final(p) == q,
            Err(h) => h matches Halt::Failure(e) && r == Err::<(), ReportError>(e),
        },
{
    let c = match cash_backed_origins(origins, net) {
        Ok(c) => c,
        Err(e) => return Err(e),
    };
    let sale = match p.sale_external.checked_add(c[0]) {
        Some(v) => v,
        None => return Err(ReportError::AmountOverflow),
    };
    let nx = match c[1].checked_add(c[2]) {
        Some(v) => v,
        None => return Err(ReportError::OriginOverflow),
    };
    let nonext = match p.nonexternal_principal.checked_add(nx) {
        Some(v) => v,
        None => return Err(ReportError::AmountOverflow),
    };
    let unattr = match p.unattributed_principal.checked_add(c[3]) {
        Some(v) => v,
        None => return Err(ReportError::AmountOverflow),
    };
    let returned = match c[0].checked_add(c[1]) {
        Some(a) => match a.checked_add(c[2]) {
            Some(b) => match b.checked_add(c[3]) {
                Some(v) => v,
                None => return Err(ReportError::OriginOverflow),
            },
            None => return Err(ReportError::OriginOverflow),
        },
        None => return Err(ReportError::OriginOverflow),
    };
    let diff = match net.checked_sub(returned) {
        Some(v) => v,
        None => return Err(ReportError::IncompatibleSale),
    };
    let gain = if diff > 0 { diff } else { 0 };
    let realized = match p.realized_income.checked_add(gain) {
        Some(v) => v,
        None => return Err(ReportError::AmountOverflow),
    };
    p.sale_external = sale;
    p.nonexternal_principal = nonext;
    p.unattributed_principal = unattr;
    p.realized_income = realized;
    Ok(())
}

/// A withdrawal draws first on income, then non-external principal, then
/// unattributed principal, and only then on external cash (sale proceeds,
/// then deposits).  Gives the pools after, the external cash returned, and
/// what was unattributed (drawn from unattributed principal or not covered).
pub open spec fn spec_withdrawal_pools(p: FundingPools, g: int) -> Result<(FundingPools, int, int), Halt> {
    match take(p.investment_income as int, g) {
        Err(h) => Err(h),
        Ok((income, w1, _a)) => match take(p.realized_income as int, w1) {
            Err(h) => Err(h),
            Ok((realized, w2, _b)) => match take(p.nonexternal_principal as int, w2) {
                Err(h) => Err(h),
                Ok((nonext, w3, _c)) => match take(p.unattributed_principal as int, w3) {
                    Err(h) => Err(h),
                    Ok((unattr, w4, unattributed)) => match take(p.sale_external as int, w4) {
                        Err(h) => Err(h),
                        Ok((sale, w5, from_sale)) => match take(p.deposited_external as int, w5) {
                            Err(h) => Err(h),
                            Ok((dep, w6, from_deposit)) => match origin_plus(from_sale, from_deposit) {
                                Err(h) => Err(h),
                                Ok(returned) => if !in_i64(unattributed + w6) {
                                    Err(fail(ReportError::AmountOverflow))
                                } else {
                                    Ok((
                                        FundingPools {
                                            deposited_external: dep as i64,
                                            sale_external: sale as i64,
                                            nonexternal_principal: nonext as i64,
                                            unattributed_principal: unattr as i64,
                                            realized_income: realized as i64,
                                            investment_income: income as i64,
                                        },
                                        returned,
                                        unattributed + w6,
                                    ))
                                },
                            },
                        },
                    },
                },
            },
        },
    }
}

/// Draws a withdrawal from the pools (see `spec_withdrawal_pools`).
pub fn withdrawal_pools(p: &mut FundingPools, g: i64) -> (r: Result<(i64, i64), Halt>)
    ensures
        match spec_withdrawal_pools(*old(p), g as int) {
            Ok((q, e, u)) => r matches Ok(x) && *final(p) == q && x.0 == e && x.1 == u,
            Err(h) => r == Err::<(i64, i64), Halt>(h),
        },
{
    let mut remaining = g;
    if !consume_fits(p.investment_income, remaining) {
        return Err(Halt::Panic);
    }
    consume(&mut p.investment_income, &mut remaining);
    if !consume_fits(p.realized_income, remaining) {
        return Err(Halt::Panic);
    }
    consume(&mut p.realized_income, &mut remaining);
    if !consume_fits(p.nonexternal_principal, remaining) {
        return Err(Halt::Panic);
    }
    consume(&mut p.nonexternal_principal, &mut remaining);
    if !consume_fits(p.unattributed_principal, remaining) {
        return Err(Halt::Panic);
    }
    let unattributed = consume(&mut p.unattributed_principal, &mut remaining);
    if !consume_fits(p.sale_external, remaining) {
        return Err(Halt::Panic);
    }
    let from_sale = consume(&mut p.sale_external, &mut remaining);
    if !consume_fits(p.deposited_external, remaining) {
        return Err(Halt::Panic);
    }
    let from_deposit = consume(&mut p.deposited_external, &mut remaining);
    let returned = match from_sale.checked_add(from_deposit) {
        Some(v) => v,
        None => return Err(Halt::Failure(ReportError::OriginOverflow)),
    };
    let unaccounted = match unattributed.checked_add(remaining) {
        Some(v) => v,
        None => return Err(Halt::Failure(ReportError::AmountOverflow)),
    };
    Ok((returned, unaccounted))
}

/// The pools of the operation's account and currency (zero when new).
pub open spec fn pools_of(st: ReplayView, row: BrokerageReplayRow) -> FundingPools {
    let k2 = key2(row.account@, row.cur@);
    if st.pools.contains_key(k2) { st.pools[k2] } else { zero_pools() }
}

/// A funded deposit adds its net cash to deposited external cash.
pub open spec fn spec_deposit_step(st: ReplayView, row: BrokerageReplayRow) -> Result<ReplayView, Halt> {
    let k2 = key2(row.account@, row.cur@);
    let p = pools_of(st, row);
    match slot_add(p.deposited_external as int, row.n as int) {
        Err(h) => Err(h),
        Ok(d) => Ok(ReplayView { pools: st.pools.insert(k2, FundingPools { deposited_external: d as i64, ..p }), ..st }),
    }
}

/// A buy draws on the pools, counts in the totals when in range, and adds
/// to its position when instrument and quantity are known.
pub open spec fn spec_buy_step(st: ReplayView, row: BrokerageReplayRow, in_range: bool) -> Result<ReplayView, Halt> {
    let k2 = key2(row.account@, row.cur@);
    match spec_buy_pools(pools_of(st, row), row) {
        Err(h) => Err(h),
        Ok((p2, drawn)) => {
            let agg = if in_range { spec_buy_totals(st.agg, row) } else { Ok(st.agg) };
            match agg {
                Err(h) => Err(h),
                Ok(agg) => if row.instrument is Some && row.quantity is Some {
                    let k3 = key3(row.account@, Some(row.instrument->0@), row.cur@);
                    let o = if st.origins.contains_key(k3) { st.origins[k3] } else { zero_origins() };
                    match spec_buy_position(o, row, drawn) {
                        Err(h) => Err(h),
                        Ok(o2) => Ok(ReplayView { pools: st.pools.insert(k2, p2), origins: st.origins.insert(k3, o2), agg }),
                    }
                } else {
                    Ok(ReplayView { pools: st.pools.insert(k2, p2), origins: st.origins, agg })
                },
            }
        },
    }
}

/// The position a sale is taken from: the stored one, or one holding just
/// the units sold at the sold principal, all unattributed.
pub open spec fn sale_position(st: ReplayView, row: BrokerageReplayRow, sold: int) -> PositionOrigins {
    let k3 = key3(row.account@, Some(sold_instrument(row)), row.cur@);
    if st.origins.contains_key(k3) {
        st.origins[k3]
    } else {
        PositionOrigins { quantity: sold as i128, external: 0, existing: 0, reinvested: 0, unattributed: (row.g - row.rr) as i64 }
    }
}

/// A sale counts in the totals when in range, takes its cost out of its
/// position and returns its cash to the pools.
pub open spec fn spec_sell_step(st: ReplayView, row: BrokerageReplayRow, in_range: bool) -> Result<ReplayView, Halt> {
    let k2 = key2(row.account@, row.cur@);
    let agg = if in_range { spec_sell_totals(st.agg, row) } else { Ok(st.agg) };
    match agg {
        Err(h) => Err(h),
        Ok(agg) => if !in_i64(row.g - row.rr) {
            Err(fail(ReportError::AmountOverflow))
        } else if row.quantity is None {
            Err(fail(ReportError::SellQuantityMissing))
        } else {
            match spec_parse_report_quantity(row.quantity->0@) {
                None => Err(fail(ReportError::InvalidStoredQuantity)),
                Some(sold) => {
                    let k3 = key3(row.account@, Some(sold_instrument(row)), row.cur@);
                    match spec_sale_origins(sale_position(st, row, sold), sold) {
                        Err(h) => Err(h),
                        Ok((pos2, o4)) => match spec_sale_pools(pools_of(st, row), o4, row.n as int) {
                            Err(h) => Err(h),
                            Ok(p2) => Ok(ReplayView { pools: st.pools.insert(k2, p2), origins: st.origins.insert(k3, pos2), agg }),
                        },
                    }
                },
            }
        },
    }
}

/// A dividend counts in the totals when in range and adds its net cash to
/// investment income.
pub open spec fn spec_dividend_step(st: ReplayView, row: BrokerageReplayRow, in_range: bool) -> Result<ReplayView, Halt> {
    let k2 = key2(row.account@, row.cur@);
    let p = pools_of(st, row);
    let agg = if in_range {
        match sadd(st.agg.dividends, row.cur@, row.g as int) {
            Err(h) => Err(h),
            Ok(d) => Ok(AggregationView { dividends: d, ..st.agg }),
        }
    } else {
        Ok(st.agg)
    };
    match agg {
        Err(h) => Err(h),
        Ok(agg) => match slot_add(p.investment_income as int, row.n as int) {
            Err(h) => Err(h),
            Ok(i) => Ok(ReplayView { pools: st.pools.insert(k2, FundingPools { investment_income: i as i64, ..p }), origins: st.origins, agg }),
        },
    }
}

/// A withdrawal draws on the pools and, when in range, counts the external
/// cash it returned and what was unattributed.
pub open spec fn spec_withdrawal_step(st: ReplayView, row: BrokerageReplayRow, in_range: bool) -> Result<ReplayView, Halt> {
    let k2 = key2(row.account@, row.cur@);
    match spec_withdrawal_pools(pools_of(st, row), row.g as int) {
        Err(h) => Err(h),
        Ok((p2, returned, unaccounted)) => {
            let agg = if in_range {
                match sadd(st.agg.withdrawn, row.cur@, returned) {
                    Err(h) => Err(h),
                    Ok(w) => match sadd(st.agg.unattributed_withdrawals, row.cur@, unaccounted) {
                        Err(h) => Err(h),
                        Ok(u) => Ok(AggregationView { withdrawn: w, unattributed_withdrawals: u, ..st.agg }),
                    },
                }
            } else {
                Ok(st.agg)
            };
            match agg {
                Err(h) => Err(h),
                Ok(agg) => Ok(ReplayView { pools: st.pools.insert(k2, p2), origins: st.origins, agg }),
            }
        },
    }
}

/// What the kind of an operation does to the pools, positions and totals;
/// any other kind only opens the pools of its account and currency.
pub open spec fn spec_kind_step(st: ReplayView, row: BrokerageReplayRow, in_range: bool) -> Result<ReplayView, Halt> {
    let kind = row.kind@;
    if kind == "deposit"@ && row.funding is Some {
        spec_deposit_step(st, row)
    } else if kind == "buy"@ {
        spec_buy_step(st, row, in_range)
    } else if kind == "sell"@ {
        spec_sell_step(st, row, in_range)
    } else if kind == "dividend"@ {
        spec_dividend_step(st, row, in_range)
    } else if kind == "withdrawal"@ {
        spec_withdrawal_step(st, row, in_range)
    } else {
        Ok(ReplayView { pools: st.pools.insert(key2(row.account@, row.cur@), pools_of(st, row)), ..st })
    }
}

/// The detail and cost totals every operation in range adds: per account,
/// instrument and currency the returned principal, dividends, realized
/// result and net cash, and the fees, withholding and deductions; and the
/// per-currency fees, withholding, deductions and net cash.
pub open spec fn spec_tail(a: AggregationView, row: BrokerageReplayRow) -> Result<AggregationView, Halt> {
    let sell = row.kind@ == "sell"@;
    let dividend = row.kind@ == "dividend"@;
    let c = row.cur@;
    let k = key3(row.account@, opt_seq(row.instrument), c);
    if sell && !in_i64(row.g - row.rr) {
        Err(fail(ReportError::AmountOverflow))
    } else {
        let returned: i64 = if sell { (row.g - row.rr) as i64 } else { 0 };
        let values = seq![returned, 0i64, if dividend { row.g } else { 0i64 }, if sell { row.rr } else { 0i64 }, row.n];
        match spec_add_components(a.return_details, k, values) {
            None => Err(fail(ReportError::AmountOverflow)),
            Some(rd) => match spec_add_components(a.cost_details, k, seq![row.f, row.w, row.d]) {
                None => Err(fail(ReportError::AmountOverflow)),
                Some(cd) => match sadd(a.fees, c, row.f as int) {
                    Err(h) => Err(h),
                    Ok(fees) => match sadd(a.withholding, c, row.w as int) {
                        Err(h) => Err(h),
                        Ok(withholding) => match sadd(a.deductions, c, row.d as int) {
                            Err(h) => Err(h),
                            Ok(deductions) => match sadd(a.net, c, row.n as int) {
                                Err(h) => Err(h),
                                Ok(net) => Ok(AggregationView {
                                    return_details: rd,
                                    cost_details: cd,
                                    fees,
                                    withholding,
                                    deductions,
                                    net,
                                    ..a
                                }),
                            },
                        },
                    },
                },
            },
        }
    }
}

/// One operation replayed: operations outside the filters change nothing;
/// the others act on the pools and positions, and those on or after `from`
/// also count in the totals.
#[verifier::opaque]
pub open spec fn spec_brokerage_step(st: ReplayView, row: BrokerageReplayRow, from: Seq<char>, filters: ReportFilters) -> Result<ReplayView, Halt> {
    if !filters.spec_includes(row.account@, row.cur@) {
        Ok(st)
    } else {
        let in_range = !seq_lt(row.date@, from);
        match spec_kind_step(st, row, in_range) {
            Err(h) => Err(h),
            Ok(st2) => if in_range {
                match spec_tail(st2.agg, row) {
                    Err(h) => Err(h),
                    Ok(a) => Ok(ReplayView { agg: a, ..st2 }),
                }
            } else {
                Ok(st2)
            },
        }
    }
}

/// The first `n` operations replayed in order from `st`.
pub open spec fn spec_replay(st: ReplayView, rows: Seq<BrokerageReplayRow>, n: nat, from: Seq<char>, filters: ReportFilters) -> Result<ReplayView, Halt>
    decreases n,
{
    if n == 0 {
        Ok(st)
    } else {
        match spec_replay(st, rows, (n - 1) as nat, from, filters) {
            Err(h) => Err(h),
            Ok(s) => spec_brokerage_step(s, rows[n - 1], from, filters),
        }
    }
}

pub proof fn lemma_replay_halt_stays(st: ReplayView, rows: Seq<BrokerageReplayRow>, m: nat, n: nat, from: Seq<char>, filters: ReportFilters)
    requires
        m <= n,
        spec_replay(st, rows, m, from, filters) is Err,
    ensures
        spec_replay(st, rows, n, from, filters) == spec_replay(st, rows, m, from, filters),
    decreases n - m,
{
    if m < n {
        lemma_replay_halt_stays(st, rows, m, (n - 1) as nat, from, filters);
    }
}

fn get_pools(m: &SortedMap<FundingPools>, k: &Vec<Option<String>>) -> (r: (Option<usize>, FundingPools))
    requires
        m.wf(),
    ensures
        r.0 matches Some(i) ==> i < m.entries@.len() && m.key_at(i as int) == kv(*k),
        r.0 is None ==> !m@.contains_key(kv(*k)),
        r.1 == (if m@.contains_key(kv(*k)) { m@[kv(*k)] } else { zero_pools() }),
{
    match m.find(k) {
        Some(i) => {
            proof { m.lemma_view_at(i as int); }
            (Some(i), m.entries[i].value)
        },
        None => (None, FundingPools {
            deposited_external: 0,
            sale_external: 0,
            nonexternal_principal: 0,
            unattributed_principal: 0,
            realized_income: 0,
            investment_income: 0,
        }),
    }
}

fn get_origins(m: &SortedMap<PositionOrigins>, k: &Vec<Option<String>>, default: PositionOrigins) -> (r: (Option<usize>, PositionOrigins))
    requires
        m.wf(),
    ensures
        r.0 matches Some(i) ==> i < m.entries@.len() && m.key_at(i as int) == kv(*k),
        r.0 is None ==> !m@.contains_key(kv(*k)),
        r.1 == (if m@.contains_key(kv(*k)) { m@[kv(*k)] } else { default }),
{
    match m.find(k) {
        Some(i) => {
            proof { m.lemma_view_at(i as int); }
            (Some(i), m.entries[i].value)
        },
        None => (None, default),
    }
}

fn put<V>(m: &mut SortedMap<V>, at: Option<usize>, k: Vec<Option<String>>, value: V)
    requires
        old(m).wf(),
        at matches Some(i) ==> i < old(m).entries@.len() && old(m).key_at(i as int) == kv(k),
        at is None ==> !old(m)@.contains_key(kv(k)),
    ensures
        final(m).wf(),
        final(m)@ == old(m)@.insert(kv(k), value),
{
    match at {
        Some(i) => m.set_value(i, value),
        None => m.insert_new(k, value),
    }
}

fn pools_key(row: &BrokerageReplayRow) -> (r: Vec<Option<String>>)
    ensures
        kv(r) == key2(row.account@, row.cur@),
{
    let k2 = key_of(vec![Some(row.account.as_str()), Some(row.cur.as_str())]);
    assert(kv(k2) =~= key2(row.account@, row.cur@));
    k2
}

fn deposit_step(st: &mut ReplayState, row: &BrokerageReplayRow) -> (r: Result<(), ReportError>)
    requires
        old(st).wf(),
    ensures
        final(st).wf(),
        match spec_deposit_step(old(st).view(), *row) {
            Ok(v) => r is Ok && final(st).view() == v,
            Err(h) => h matches Halt::Failure(e) && r == Err::<(), ReportError>(e),
        },
{
    let k2 = pools_key(row);
    let (at, mut p) = get_pools(&st.pools, &k2);
    match pool_add(&mut p.deposited_external, row.n) {
        Ok(()) => {},
        Err(e) => return Err(e),
    }
    put(&mut st.pools, at, k2, p);
    Ok(())
}

fn buy_step(st: &mut ReplayState, row: &BrokerageReplayRow, in_range: bool) -> (r: Result<(), Halt>)
    requires
        old(st).wf(),
    ensures
        final(st).wf(),
        match spec_buy_step(old(st).view(), *row, in_range) {
            Ok(v) => r is Ok && final(st).view() == v,
            Err(h) => r == Err::<(), Halt>(h),
        },
{
    let k2 = pools_key(row);
    let (at, mut p) = get_pools(&st.pools, &k2);
    let drawn = match buy_pools(&mut p, row) {
        Ok(d) => d,
        Err(e) => return Err(e),
    };
    if in_range {
        match buy_totals(&mut st.aggregation, row) {
            Ok(()) => {},
            Err(e) => return Err(Halt::Failure(e)),
        }
    }
    match (&row.instrument, &row.quantity) {
        (Some(i), Some(_q)) => {
            let k3 = key_of(vec![Some(row.account.as_str()), Some(i.as_str()), Some(row.cur.as_str())]);
            assert(kv(k3) =~= key3(row.account@, Some(i@), row.cur@));
            let zero = PositionOrigins { quantity: 0, external: 0, existing: 0, reinvested: 0, unattributed: 0 };
            let (oat, mut o) = get_origins(&st.origins, &k3, zero);
            match buy_position(&mut o, row, drawn) {
                Ok(()) => {},
                Err(e) => return Err(Halt::Failure(e)),
            }
            put(&mut st.origins, oat, k3, o);
        },
        _ => {},
    }
    put(&mut st.pools, at, k2, p);
    Ok(())
}

fn sell_step(st: &mut ReplayState, row: &BrokerageReplayRow, in_range: bool) -> (r: Result<(), Halt>)
    requires
        old(st).wf(),
    ensures
        final(st).wf(),
        match spec_sell_step(old(st).view(), *row, in_range) {
            Ok(v) => r is Ok && final(st).view() == v,
            Err(h) => r == Err::<(), Halt>(h),
        },
{
    let ghost before = st.view();
    let k2 = pools_key(row);
    if in_range {
        match sell_totals(&mut st.aggregation, row) {
            Ok(()) => {},
            Err(e) => return Err(Halt::Failure(e)),
        }
    }
    let sold_principal = match row.g.checked_sub(row.rr) {
        Some(v) => v,
        None => return Err(Halt::Failure(ReportError::AmountOverflow)),
    };
    let sold = match &row.quantity {
        None => return Err(Halt::Failure(ReportError::SellQuantityMissing)),
        Some(q) => match parse_report_quantity(q.as_str()) {
            Some(v) => v,
            None => return Err(Halt::Failure(ReportError::InvalidStoredQuantity)),
        },
    };
    let instrument: &str = match &row.instrument {
        Some(i) => i.as_str(),
        None => "__unattributed__",
    };
    let k3 = key_of(vec![Some(row.account.as_str()), Some(instrument), Some(row.cur.as_str())]);
    assert(kv(k3) =~= key3(row.account@, Some(sold_instrument(*row)), row.cur@));
    let fresh = PositionOrigins { quantity: sold, external: 0, existing: 0, reinvested: 0, unattributed: sold_principal };
    let (oat, mut pos) = get_origins(&st.origins, &k3, fresh);
    assert(pos == sale_position(before, *row, sold as int));
    let o4 = match sale_origins(&mut pos, sold) {
        Ok(o) => o,
        Err(e) => return Err(e),
    };
    let (at, mut p) = get_pools(&st.pools, &k2);
    match sale_pools(&mut p, o4, row.n) {
        Ok(()) => {},
        Err(e) => return Err(Halt::Failure(e)),
    }
    put(&mut st.origins, oat, k3, pos);
    put(&mut st.pools, at, k2, p);
    Ok(())
}

fn dividend_step(st: &mut ReplayState, row: &BrokerageReplayRow, in_range: bool) -> (r: Result<(), ReportError>)
    requires
        old(st).wf(),
    ensures
        final(st).wf(),
        match spec_dividend_step(old(st).view(), *row, in_range) {
            Ok(v) => r is Ok && final(st).view() == v,
            Err(h) => h matches Halt::Failure(e) && r == Err::<(), ReportError>(e),
        },
{
    let k2 = pools_key(row);
    let (at, mut p) = get_pools(&st.pools, &k2);
    if in_range {
        match tadd(&mut st.aggregation.dividends, row.cur.as_str(), row.g) {
            Ok(()) => {},
            Err(e) => return Err(e),
        }
    }
    match pool_add(&mut p.investment_income, row.n) {
        Ok(()) => {},
        Err(e) => return Err(e),
    }
    put(&mut st.pools, at, k2, p);
    Ok(())
}

fn withdrawal_step(st: &mut ReplayState, row: &BrokerageReplayRow, in_range: bool) -> (r: Result<(), Halt>)
    requires
        old(st).wf(),
    ensures
        final(st).wf(),
        match spec_withdrawal_step(old(st).view(), *row, in_range) {
            Ok(v) => r is Ok && final(st).view() == v,
            Err(h) => r == Err::<(), Halt>(h),
        },
{
    let k2 = pools_key(row);
    let (at, mut p) = get_pools(&st.pools, &k2);
    let (returned, unaccounted) = match withdrawal_pools(&mut p, row.g) {
        Ok(x) => x,
        Err(e) => return Err(e),
    };
    if in_range {
        match tadd(&mut st.aggregation.withdrawn, row.cur.as_str(), returned) {
            Ok(()) => {},
            Err(e) => return Err(Halt::Failure(e)),
        }
        match tadd(&mut st.aggregation.unattributed_withdrawals, row.cur.as_str(), unaccounted) {
            Ok(()) => {},
            Err(e) => return Err(Halt::Failure(e)),
        }
    }
    put(&mut st.pools, at, k2, p);
    Ok(())
}

/// Applies what the kind of an operation does (see `spec_kind_step`).
fn kind_step(st: &mut ReplayState, row: &BrokerageReplayRow, in_range: bool) -> (r: Result<(), Halt>)
    requires
        old(st).wf(),
    ensures
        final(st).wf(),
        match spec_kind_step(old(st).view(), *row, in_range) {
            Ok(v) => r is Ok && final(st).view() == v,
            Err(h) => r == Err::<(), Halt>(h),
        },
{
    let kind = row.kind.as_str();
    if str_eq(kind, "deposit") && row.funding.is_some() {
        match deposit_step(st, row) {
            Ok(()) => Ok(()),
            Err(e) => Err(Halt::Failure(e)),
        }
    } else if str_eq(kind, "buy") {
        buy_step(st, row, in_range)
    } else if str_eq(kind, "sell") {
        sell_step(st, row, in_range)
    } else if str_eq(kind, "dividend") {
        match dividend_step(st, row, in_range) {
            Ok(()) => Ok(()),
            Err(e) => Err(Halt::Failure(e)),
        }
    } else if str_eq(kind, "withdrawal") {
        withdrawal_step(st, row, in_range)
    } else {
        let k2 = pools_key(row);
        let (at, p) = get_pools(&st.pools, &k2);
        put(&mut st.pools, at, k2, p);
        Ok(())
    }
}

/// Adds the detail and cost totals of an operation in range (see `spec_tail`).
fn tail(a: &mut ReportAggregation, row: &BrokerageReplayRow) -> (r: Result<(), ReportError>)
    requires
        old(a).wf(),
    ensures
        final(a).wf(),
        match spec_tail(old(a).view(), *row) {
            Ok(v) => r is Ok && final(a).view() == v,
            Err(h) => h matches Halt::Failure(e) && r == Err::<(), ReportError>(e),
        },
{
    let sell = str_eq(row.kind.as_str(), "sell");
    let dividend = str_eq(row.kind.as_str(), "dividend");
    let returned: i64 = if sell {
        match row.g.checked_sub(row.rr) {
            Some(v) => v,
            None => return Err(ReportError::AmountOverflow),
        }
    } else {
        0
    };
    let instrument: Option<&str> = match &row.instrument {
        Some(i) => Some(i.as_str()),
        None => None,
    };
    let k = key_of(vec![Some(row.account.as_str()), instrument, Some(row.cur.as_str())]);
    assert(kv(k) =~= key3(row.account@, opt_seq(row.instrument), row.cur@));
    let k_cost = crate::ordered::copy_key(&k);
    let values = vec![returned, 0, if dividend { row.g } else { 0 }, if sell { row.rr } else { 0 }, row.n];
    assert(values@ =~= seq![returned, 0i64, if dividend { row.g } else { 0i64 }, if sell { row.rr } else { 0i64 }, row.n]);
    match add_components(&mut a.return_details, k, values) {
        Ok(()) => {},
        Err(e) => return Err(e),
    }
    let costs = vec![row.f, row.w, row.d];
    assert(costs@ =~= seq![row.f, row.w, row.d]);
    match add_components(&mut a.cost_details, k_cost, costs) {
        Ok(()) => {},
        Err(e) => return Err(e),
    }
    let c = row.cur.as_str();
    match tadd(&mut a.fees, c, row.f) {
        Ok(()) => {},
        Err(e) => return Err(e),
    }
    match tadd(&mut a.withholding, c, row.w) {
        Ok(()) => {},
        Err(e) => return Err(e),
    }
    match tadd(&mut a.deductions, c, row.d) {
        Ok(()) => {},
        Err(e) => return Err(e),
    }
    tadd(&mut a.net, c, row.n)
}

/// Replays one operation (see `spec_brokerage_step`).
pub fn brokerage_step(st: &mut ReplayState, row: &BrokerageReplayRow, from: &str, filters: &ReportFilters) -> (r: Result<(), Halt>)
    requires
        old(st).wf(),
    ensures
        final(st).wf(),
        match spec_brokerage_step(old(st).view(), *row, from@, *filters) {
            Ok(v) => r is Ok && final(st).view() == v,
            Err(h) => r == Err::<(), Halt>(h),
        },
{
    reveal(spec_brokerage_step);
    if !filters.includes(row.account.as_str(), row.cur.as_str()) {
        return Ok(());
    }
    let in_range = !str_lt(row.date.as_str(), from);
    match kind_step(st, row, in_range) {
        Ok(()) => {},
        Err(e) => return Err(e),
    }
    if in_range {
        match tail(&mut st.aggregation, row) {
            Ok(()) => Ok(()),
            Err(e) => Err(Halt::Failure(e)),
        }
    } else {
        Ok(())
    }
}

/// Replays brokerage operations in order (see `spec_replay`).
pub fn replay_brokerage(st: &mut ReplayState, rows: &Vec<BrokerageReplayRow>, from: &str, filters: &ReportFilters) -> (r: Result<(), ReportError>)
    requires
        old(st).wf(),
        spec_replay(old(st).view(), rows@, rows@.len(), from@, *filters) != Err::<ReplayView, Halt>(Halt::Panic),
    ensures
        final(st).wf(),
        match spec_replay(old(st).view(), rows@, rows@.len(), from@, *filters) {
            Ok(v) => r is Ok && final(st).view() == v,
            Err(h) => h matches Halt::Failure(e) && r == Err::<(), ReportError>(e),
        },
{
    let ghost start = st.view();
    let mut i: usize = 0;
    while i < rows.len()
        invariant
            i <= rows@.len(),
            st.wf(),
            spec_replay(start, rows@, rows@.len(), from@, *filters) != Err::<ReplayView, Halt>(Halt::Panic),
            spec_replay(start, rows@, i as nat, from@, *filters) == Ok::<ReplayView, Halt>(st.view()),
            start == old(st).view(),
        decreases rows.len() - i,
    {
        proof {
            if spec_replay(start, rows@, (i + 1) as nat, from@, *filters) is Err {
                lemma_replay_halt_stays(start, rows@, (i + 1) as nat, rows@.len(), from@, *filters);
            }
        }
        let ghost cur = st.view();
        match brokerage_step(st, &rows[i], from, filters) {
            Ok(()) => {},
            Err(Halt::Panic) => {
                proof {
                    assert(spec_replay(start, rows@, (i + 1) as nat, from@, *filters) == Err::<ReplayView, Halt>(Halt::Panic));
                    lemma_replay_halt_stays(start, rows@, (i + 1) as nat, rows@.len(), from@, *filters);
                }
                assert(false);
                return Err(ReportError::AmountOverflow);
            },
            Err(Halt::Failure(e)) => {
                proof {
                    assert(spec_brokerage_step(cur, rows@[i as int], from@, *filters) == Err::<ReplayView, Halt>(Halt::Failure(e)));
                    assert(spec_replay(start, rows@, (i + 1) as nat, from@, *filters) == Err::<ReplayView, Halt>(Halt::Failure(e)));
                    lemma_replay_halt_stays(start, rows@, (i + 1) as nat, rows@.len(), from@, *filters);
                    assert(spec_replay(start, rows@, rows@.len(), from@, *filters) == Err::<ReplayView, Halt>(Halt::Failure(e)));
                    assert(start == old(st).view());
                }
                return Err(e);
            },
        }
        i = i + 1;
    }
    Ok(())
}

/// Replays brokerage operations in order (see `spec_replay`), answering
/// `Halt::Panic` where a step's arithmetic could not be carried out.
pub fn replay_brokerage_checked(st: &mut ReplayState, rows: &Vec<BrokerageReplayRow>, from: &str, filters: &ReportFilters) -> (r: Result<(), Halt>)
    requires
        old(st).wf(),
    ensures
        final(st).wf(),
        match spec_replay(old(st).view(), rows@, rows@.len(), from@, *filters) {
            Ok(v) => r is Ok && final(st).view() == v,
            Err(h) => r == Err::<(), Halt>(h),
        },
{
    let ghost start = st.view();
    let mut i: usize = 0;
    while i < rows.len()
        invariant
            i <= rows@.len(),
            st.wf(),
            spec_replay(start, rows@, i as nat, from@, *filters) == Ok::<ReplayView, Halt>(st.view()),
            start == old(st).view(),
        decreases rows.len() - i,
    {
        let ghost cur = st.view();
        match brokerage_step(st, &rows[i], from, filters) {
            Ok(()) => {},
            Err(h) => {
                proof {
                    assert(spec_replay(start, rows@, (i + 1) as nat, from@, *filters) == Err::<ReplayView, Halt>(h));
                    lemma_replay_halt_stays(start, rows@, (i + 1) as nat, rows@.len(), from@, *filters);
                }
                return Err(h);
            },
        }
        i = i + 1;
    }
    Ok(())
}

/// One active CDT operation effective within the report range.
pub struct CdtReplayRow {
    pub kind: String,
    pub cur: String,
    pub p: i64,
    pub e: i64,
    pub ci: i64,
    pub gi: i64,
    pub w: i64,
    pub d: i64,
    pub n: i64,
    pub before: i64,
    pub after: i64,
    pub account: String,
    pub instrument: String,
}

/// What a CDT operation adds to the report: its returned principal,
/// interest and net cash and its withholding and deductions; constitutions
/// and renewals are acquisitions of their principal; a renewal reinvests
/// the matured principal (the smaller of the principal before and the new
/// principal less new capital and capitalized interest); new capital is
/// external funding and capitalized interest is reinvestment.
pub open spec fn spec_cdt_step(a: AggregationView, row: CdtReplayRow) -> Result<AggregationView, Halt> {
    match spec_cdt_details(a, row) {
        Err(h) => Err(h),
        Ok(a1) => match spec_cdt_acquisition(a1, row) {
            Err(h) => Err(h),
            Ok(a2) => match spec_cdt_renewal(a2, row) {
                Err(h) => Err(h),
                Ok(a3) => match spec_cdt_funding(a3, row) {
                    Err(h) => Err(h),
                    Ok(a4) => spec_cdt_flows(a4, row),
                },
            },
        },
    }
}

/// The return and cost detail lines of a CDT operation.
pub open spec fn spec_cdt_details(a: AggregationView, row: CdtReplayRow) -> Result<AggregationView, Halt> {
    let k = key3(row.account@, Some(row.instrument@), row.cur@);
    match spec_add_components(a.return_details, k, seq![row.p, row.gi, 0i64, 0i64, row.n]) {
        None => Err(fail(ReportError::AmountOverflow)),
        Some(rd) => match spec_add_components(a.cost_details, k, seq![0i64, row.w, row.d]) {
            None => Err(fail(ReportError::AmountOverflow)),
            Some(cd) => Ok(AggregationView { return_details: rd, cost_details: cd, ..a }),
        },
    }
}

/// A constitution or renewal acquires its principal after the operation.
pub open spec fn spec_cdt_acquisition(a: AggregationView, row: CdtReplayRow) -> Result<AggregationView, Halt> {
    let c = row.cur@;
    if row.kind@ == "constitution"@ || row.kind@ == "renewal"@ {
        match sadd(a.gross, c, row.after as int) {
            Err(h) => Err(h),
            Ok(g) => match spec_add_keep(a.instrument_acquisitions, key4(row.account@, row.instrument@,
                "fixed_income"@, c), row.after as int) {
                None => Err(fail(ReportError::AmountOverflow)),
                Some(ia) => Ok(AggregationView { gross: g, instrument_acquisitions: ia, ..a }),
            },
        }
    } else {
        Ok(a)
    }
}

/// A renewal matures and reinvests the smaller of the principal before it
/// and its new principal less new capital and capitalized interest.
pub open spec fn spec_cdt_renewal(a: AggregationView, row: CdtReplayRow) -> Result<AggregationView, Halt> {
    let c = row.cur@;
    if row.kind@ == "renewal"@ {
        let x = row.after - row.e;
        let y = x - row.ci;
        if !(in_i64(x) && in_i64(y)) {
            Err(fail(ReportError::AmountOverflow))
        } else {
            let matured = if row.before < y { row.before as int } else { y };
            match sadd(a.maturities, c, matured) {
                Err(h) => Err(h),
                Ok(m) => match sadd(a.reinvest, c, matured) {
                    Err(h) => Err(h),
                    Ok(r) => Ok(AggregationView { maturities: m, reinvest: r, ..a }),
                },
            }
        }
    } else {
        Ok(a)
    }
}

/// Positive new capital is external funding; positive capitalized interest
/// is reinvestment.
pub open spec fn spec_cdt_funding(a: AggregationView, row: CdtReplayRow) -> Result<AggregationView, Halt> {
    let c = row.cur@;
    let a4 = if row.e > 0 {
        match sadd(a.external, c, row.e as int) {
            Err(h) => Err(h),
            Ok(x) => Ok(AggregationView { external: x, ..a }),
        }
    } else {
        Ok(a)
    };
    match a4 {
        Err(h) => Err(h),
        Ok(a4) => if row.ci > 0 {
            match sadd(a4.reinvest, c, row.ci as int) {
                Err(h) => Err(h),
                Ok(x) => Ok(AggregationView { reinvest: x, ..a4 }),
            }
        } else {
            Ok(a4)
        },
    }
}

/// The per-currency principal, interest, withholding, deductions and net
/// cash of a CDT operation.
pub open spec fn spec_cdt_flows(a: AggregationView, row: CdtReplayRow) -> Result<AggregationView, Halt> {
    let c = row.cur@;
    match sadd(a.principal, c, row.p as int) {
        Err(h) => Err(h),
        Ok(p) => match sadd(a.interest, c, row.gi as int) {
            Err(h) => Err(h),
            Ok(i) => match sadd(a.withholding, c, row.w as int) {
                Err(h) => Err(h),
                Ok(w) => match sadd(a.deductions, c, row.d as int) {
                    Err(h) => Err(h),
                    Ok(d) => match sadd(a.net, c, row.n as int) {
                        Err(h) => Err(h),
                        Ok(n) => Ok(AggregationView { principal: p, interest: i, withholding: w, deductions: d, net: n, ..a }),
                    },
                },
            },
        },
    }
}

fn cdt_details(a: &mut ReportAggregation, row: &CdtReplayRow) -> (r: Result<(), ReportError>)
    requires
        old(a).wf(),
    ensures
        final(a).wf(),
        match spec_cdt_details(old(a).view(), *row) {
            Ok(v) => r is Ok && final(a).view() == v,
            Err(h) => h matches Halt::Failure(e) && r == Err::<(), ReportError>(e),
        },
{
    let c = row.cur.as_str();
    let k = key_of(vec![Some(row.account.as_str()), Some(row.instrument.as_str()), Some(c)]);
    assert(kv(k) =~= key3(row.account@, Some(row.instrument@), row.cur@));
    let k_cost = crate::ordered::copy_key(&k);
    let return_parts = vec![row.p, row.gi, 0, 0, row.n];
    assert(return_parts@ =~= seq![row.p, row.gi, 0i64, 0i64, row.n]);
    match add_components(&mut a.return_details, k, return_parts) {
        Ok(()) => {},
        Err(e) => return Err(e),
    }
    let costs = vec![0, row.w, row.d];
    assert(costs@ =~= seq![0i64, row.w, row.d]);
    add_components(&mut a.cost_details, k_cost, costs)
}

fn cdt_acquisition(a: &mut ReportAggregation, row: &CdtReplayRow) -> (r: Result<(), ReportError>)
    requires
        old(a).wf(),
    ensures
        final(a).wf(),
        match spec_cdt_acquisition(old(a).view(), *row) {
            Ok(v) => r is Ok && final(a).view() == v,
            Err(h) => h matches Halt::Failure(e) && r == Err::<(), ReportError>(e),
        },
{
    let c = row.cur.as_str();
    let kind = row.kind.as_str();
    if str_eq(kind, "constitution") || str_eq(kind, "renewal") {
        match tadd(&mut a.gross, c, row.after) {
            Ok(()) => {},
            Err(e) => return Err(e),
        }
        let k4 = key_of(vec![Some(row.account.as_str()), Some(row.instrument.as_str()), Some("fixed_income"), Some(c)]);
        assert(kv(k4) =~= key4(row.account@, row.instrument@, "fixed_income"@, row.cur@));
        add_keep(&mut a.instrument_acquisitions, k4, row.after)
    } else {
        Ok(())
    }
}

fn cdt_renewal(a: &mut ReportAggregation, row: &CdtReplayRow) -> (r: Result<(), ReportError>)
    requires
        old(a).wf(),
    ensures
        final(a).wf(),
        match spec_cdt_renewal(old(a).view(), *row) {
            Ok(v) => r is Ok && final(a).view() == v,
            Err(h) => h matches Halt::Failure(e) && r == Err::<(), ReportError>(e),
        },
{
    let c = row.cur.as_str();
    if str_eq(row.kind.as_str(), "renewal") {
        let reinvestable = match row.after.checked_sub(row.e) {
            Some(x) => match x.checked_sub(row.ci) {
                Some(y) => y,
                None => return Err(ReportError::AmountOverflow),
            },
            None => return Err(ReportError::AmountOverflow),
        };
        let matured = if row.before < reinvestable { row.before } else { reinvestable };
        match tadd(&mut a.maturities, c, matured) {
            Ok(()) => {},
            Err(e) => return Err(e),
        }
        tadd(&mut a.reinvest, c, matured)
    } else {
        Ok(())
    }
}

fn cdt_funding(a: &mut ReportAggregation, row: &CdtReplayRow) -> (r: Result<(), ReportError>)
    requires
        old(a).wf(),
    ensures
        final(a).wf(),
        match spec_cdt_funding(old(a).view(), *row) {
            Ok(v) => r is Ok && final(a).view() == v,
            Err(h) => h matches Halt::Failure(e) && r == Err::<(), ReportError>(e),
        },
{
    let c = row.cur.as_str();
    if row.e > 0 {
        match tadd(&mut a.external, c, row.e) {
            Ok(()) => {},
            Err(e) => return Err(e),
        }
    }
    if row.ci > 0 {
        tadd(&mut a.reinvest, c, row.ci)
    } else {
        Ok(())
    }
}

fn cdt_flows(a: &mut ReportAggregation, row: &CdtReplayRow) -> (r: Result<(), ReportError>)
    requires
        old(a).wf(),
    ensures
        final(a).wf(),
        match spec_cdt_flows(old(a).view(), *row) {
            Ok(v) => r is Ok && final(a).view() == v,
            Err(h) => h matches Halt::Failure(e) && r == Err::<(), ReportError>(e),
        },
{
    let c = row.cur.as_str();
    match tadd(&mut a.principal, c, row.p) {
        Ok(()) => {},
        Err(e) => return Err(e),
    }
    match tadd(&mut a.interest, c, row.gi) {
        Ok(()) => {},
        Err(e) => return Err(e),
    }
    match tadd(&mut a.withholding, c, row.w) {
        Ok(()) => {},
        Err(e) => return Err(e),
    }
    match tadd(&mut a.deductions, c, row.d) {
        Ok(()) => {},
        Err(e) => return Err(e),
    }
    tadd(&mut a.net, c, row.n)
}

/// Adds one CDT operation to the report (see `spec_cdt_step`).
pub fn cdt_step(a: &mut ReportAggregation, row: &CdtReplayRow) -> (r: Result<(), ReportError>)
    requires
        old(a).wf(),
    ensures
        final(a).wf(),
        match spec_cdt_step(old(a).view(), *row) {
            Ok(v) => r is Ok && final(a).view() == v,
            Err(h) => h matches Halt::Failure(e) && r == Err::<(), ReportError>(e),
        },
{
    match cdt_details(a, row) {
        Ok(()) => {},
        Err(e) => return Err(e),
    }
    match cdt_acquisition(a, row) {
        Ok(()) => {},
        Err(e) => return Err(e),
    }
    match cdt_renewal(a, row) {
        Ok(()) => {},
        Err(e) => return Err(e),
    }
    match cdt_funding(a, row) {
        Ok(()) => {},
        Err(e) => return Err(e),
    }
    cdt_flows(a, row)
}

} // verus!
