use sha2::{Digest, Sha256};
use tracky::statement::{
    account_hint, candidate_identifier, content_identity, description_from_row, extraction_state, nequi_movement_date, rappi_movement_date, input_name, institution_for, money_tokens,
    normalize_nequi_date, normalize_spaces, normalized_fingerprint, parse_money_minor_units,
    parser_id_for, parser_not_run, parser_status, redact_counterparties, redact_description_sample,
    redact_line, redact_row_for_evidence, replace_text, source_document_id, CredentialSource,
    DocumentDuplicateStatus, ExtractorState, InspectPdfOptions, ParserState, SourceDocument,
};

#[test]
fn redacts_agent_visible_evidence_fields() {
    let redacted = redact_line(
        "Detalle de transacciones: JANE DOE (Titular) jane@example.com Dirección Calle 123 #45-67 Número de tarjeta virtual 1234 BRE-B: JOHN DOE $ 10.000,00 123456789",
    );
    assert!(redacted.contains("<cardholder>"));
    assert!(redacted.contains("<email>"));
    assert!(redacted.contains("Dirección <address>"));
    assert!(redacted.contains("<amount>"));
    assert!(!redacted.contains("jane@example.com"));
    assert!(!redacted.contains("123456789"));
    assert!(!redacted.contains("JOHN DOE"));
}

#[test]
fn statement_amounts_become_exact_minor_units() {
    assert_eq!(parse_money_minor_units("$ -45.900,00"), Some(-4_590_000));
    assert_eq!(parse_money_minor_units("$ 125.000,00"), Some(12_500_000));
    assert_eq!(parse_money_minor_units("$ 32.500,00"), Some(3_250_000));
    assert_eq!(parse_money_minor_units("$ 0,00"), Some(0));
    assert_eq!(parse_money_minor_units("$1.234"), Some(123_400));
    assert_eq!(parse_money_minor_units("$ 9,5"), Some(950));
    assert_eq!(parse_money_minor_units("$ 1.234,567"), Some(123_456));
    assert_eq!(parse_money_minor_units("$"), None);
    assert_eq!(parse_money_minor_units("$ ,50"), None);
    assert_eq!(parse_money_minor_units("$ 99999999999999999999,00"), None);
}

#[test]
fn money_tokens_read_every_amount_of_a_row() {
    let tokens = money_tokens("15/05/2026 Para X $ -45.900,00 $ 125.000,00");
    assert_eq!(tokens.len(), 2);
    assert_eq!(tokens[0].text, "$ -45.900,00");
    assert_eq!(tokens[0].value_minor_units, Some(-4_590_000));
    assert_eq!(tokens[1].value_minor_units, Some(12_500_000));
    assert_eq!(tokens[1].currency, "COP");
    assert!(money_tokens("no amounts here").is_empty());
}

#[test]
fn nequi_dates_are_written_year_first() {
    assert_eq!(normalize_nequi_date("15/05/2026"), "2026-05-15");
    assert_eq!(normalize_nequi_date("5/5/2026"), "2026-05-05");
    assert_eq!(normalize_nequi_date("1/2/26"), "0026-02-01");
    assert_eq!(normalize_nequi_date("1/2/2026/9"), "2026-02-01");
    assert_eq!(normalize_nequi_date("15/05"), "15/05");
    assert_eq!(normalize_nequi_date("aa/05/2026"), "aa/05/2026");
}

#[test]
fn institutions_name_their_parser_and_account() {
    assert_eq!(parser_id_for("rappi"), "rappi.statement.v1");
    assert_eq!(parser_id_for("bank"), "bank.statement.v1");
    assert_eq!(account_hint("rappi").label, "Rappi card");
    assert_eq!(account_hint("nequi").label, "Nequi wallet");
    assert_eq!(account_hint("bank").label, "bank account");
    assert_eq!(account_hint("bank").currency, "COP");
    assert!(account_hint("bank").masked_identifier.is_none());
}

#[test]
fn file_names_guess_the_institution() {
    assert_eq!(institution_for("statements/RAPPI-2026-06.pdf"), "rappi");
    assert_eq!(institution_for("statements/nequi.pdf"), "nequi");
    assert_eq!(institution_for("rapp.pdf"), "nequi");
    assert_eq!(input_name("statements/nequi-redacted.pdf"), "nequi-redacted.pdf");
    assert_eq!(input_name("/"), "");
}

#[test]
fn source_document_ids_keep_twenty_six_digest_characters() {
    let digest = "0123456789abcdef0123456789abcdef";
    assert_eq!(source_document_id(digest), "srcdoc_0123456789abcdef0123456789");
    assert_eq!(source_document_id("abc"), "srcdoc_abc");
}

#[test]
fn parser_status_follows_institution_and_candidates() {
    let unsupported = parser_status("bank", 3);
    assert_eq!(unsupported.status, ParserState::UnsupportedDocument);
    assert_eq!(unsupported.candidates_found, 0);
    assert_eq!(unsupported.warnings, vec!["no deterministic parser matched institution 'bank'".to_string()]);
    let none = parser_status("nequi", 0);
    assert_eq!(none.status, ParserState::Failed);
    let some = parser_status("rappi", 2);
    assert_eq!(some.status, ParserState::Succeeded);
    assert_eq!(some.candidates_valid, 2);
    assert_eq!(some.parser_id, "rappi.statement.v1");
    let skipped = parser_not_run("nequi");
    assert_eq!(skipped.status, ParserState::NotRun);
    assert_eq!(skipped.warnings.len(), 1);
}

#[test]
fn extraction_state_reflects_errors_and_lines() {
    assert_eq!(extraction_state(false, true), ExtractorState::Succeeded);
    assert_eq!(extraction_state(false, false), ExtractorState::Succeeded);
    assert_eq!(extraction_state(true, false), ExtractorState::Failed);
    assert_eq!(extraction_state(true, true), ExtractorState::Partial);
}

#[test]
fn default_inspection_has_no_credential() {
    let options = InspectPdfOptions::default();
    assert!(options.document_credential.is_none());
    assert_eq!(options.credential_source, CredentialSource::NoCredential);
    assert!(options.institution_hint.is_none());
}

#[test]
fn text_replacement_matches_the_standard_library() {
    for (s, p, r) in [("a-b-c", "-", " "), ("aaa", "aa", "b"), ("abc", "", "x"), ("", "", "x"), ("abc", "z", "y")] {
        assert_eq!(replace_text(s, p, r), s.replace(p, r));
    }
}

#[test]
fn whitespace_collapses_to_single_spaces() {
    assert_eq!(normalize_spaces("  a \t b\n\nc  "), "a b c");
    assert_eq!(normalize_spaces("   "), "");
    assert_eq!(normalize_spaces("one"), "one");
}

#[test]
fn descriptions_drop_dates_amounts_and_boilerplate() {
    let row = "15/05/2026 Para PERSONA Virtual $ -45.900,00 $ 125.000,00 N/A";
    assert_eq!(description_from_row(row, "15/05/2026"), "Para PERSONA");
}

#[test]
fn samples_keep_eight_words() {
    let long = "uno dos tres cuatro cinco seis siete ocho nueve diez";
    assert_eq!(redact_description_sample(long), "uno dos tres cuatro cinco seis siete ocho …");
    assert_eq!(redact_description_sample("pago   tienda"), "pago tienda");
    assert_eq!(redact_counterparties("Para JOHN DOE $ 5"), "Para <counterparty>$ 5");
    assert!(redact_row_for_evidence("Pago 123456789 $ 10.000,00").contains("<amount>"));
}

#[test]
fn fingerprints_digest_the_movement_fields() {
    let source = SourceDocument {
        id: "srcdoc_x".to_string(),
        input_name: "nequi.pdf".to_string(),
        content_sha256: "00".repeat(32),
        mime_type: "application/pdf",
        byte_size: 1,
        institution_hint: "nequi".to_string(),
        account_hint: account_hint("nequi"),
        document_duplicate_status: DocumentDuplicateStatus {
            status: "unknown",
            matched_source_document_id: None,
            reason: None,
        },
    };
    let fp = normalized_fingerprint(&source, "2026-05-15", "Para ÁNGEL", -4_590_000);
    let digest = Sha256::digest("nequi|Nequi wallet|2026-05-15|-4590000|para ángel".as_bytes());
    let expected: String = digest[..16].iter().map(|b| format!("{b:02x}")).collect();
    assert_eq!(fp, expected);
    assert_eq!(fp.len(), 32);
}

#[test]
fn source_document_ids_cut_at_twenty_six_bytes() {
    let digest = "é".repeat(20);
    assert_eq!(source_document_id(&digest), format!("srcdoc_{}", "é".repeat(13)));
}

#[test]
fn movement_rows_are_recognised_by_their_date_and_amount() {
    assert_eq!(nequi_movement_date("05/03/2026 Pago PSE $ 12.000,00 $ 88.000,00"), Some("05/03/2026".to_string()));
    assert_eq!(nequi_movement_date("Fecha del movimiento 05/03/2026 Valor $ 1,00"), None);
    assert_eq!(nequi_movement_date("05/03/2026 sin valor"), None);
    assert_eq!(nequi_movement_date("Pago PSE $ 12.000,00"), None);
    assert_eq!(rappi_movement_date("2026-03-05 Compra $ 10.000"), Some("2026-03-05".to_string()));
    assert_eq!(rappi_movement_date("Detalle de transacciones 2026-03-05"), None);
    assert_eq!(candidate_identifier("srcdoc_abc", 0), "cand_abc_0001");
    assert_eq!(candidate_identifier("srcdoc_abc", 12344), "cand_abc_12345");
}

#[test]
fn content_identity_is_the_digest_and_its_source_id() {
    let (digest, id) = content_identity(b"abc");
    assert_eq!(digest, "ba7816bf8f01cfea414140de5dae2223b00361a396177a9cb410ff61f20015ad");
    assert_eq!(id, "srcdoc_ba7816bf8f01cfea414140de5d");
}
