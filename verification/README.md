# tracky

A local personal-finance ledger library, verified with Verus.

`src/` holds the library's logic with its contracts and laws:

- `brokerage`, `replay`, `investments`, `cdt`, `closing`, `investment_report`,
  `investment_integrity`, `enrichment`: brokerage accounts and their replay,
  contribution allocations, CDT lifecycles, closing positions and the
  investment report.
- `finance`, `dashboard`, `view`: the finance dashboard (aggregation,
  filters, drill-down pages), its query strings and its HTML sections.
- `statement`, `parsers`, `documents`, `provider_review`: bank statement rows,
  investment-provider documents, their events and their review.
- `operations`, `arguments`, `review`, `reports`, `ids`, `text`, `decimal`,
  `dates`, `exact`, `keyed`, `ordered`, `patterns`: integrity reports,
  argument checks, error records, identifiers, text, numbers and dates.

Calls into `sha2`, `chrono` and `regex` stand behind small trusted wrappers
whose contracts say what those crates document.

`app/` is the command-line front end: argument handling, SQLite, files and
the floating-point layout of PDF text. `tests/` holds the tests.
