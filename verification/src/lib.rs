use vstd::prelude::*;

pub mod text;
pub mod decimal;
pub mod dates;
pub mod review;
pub mod keyed;
pub mod brokerage;
pub mod exact;
pub mod ids;
pub mod cdt;
pub mod investments;
pub mod operations;
pub mod documents;
pub mod provider_review;
pub mod enrichment;
pub mod ordered;
pub mod reports;
pub mod replay;
pub mod closing;
pub mod investment_report;
pub mod investment_integrity;
pub mod finance;
pub mod patterns;
pub mod statement;
pub mod parsers;
pub mod dashboard;
pub mod view;
pub mod arguments;

verus! {
}
