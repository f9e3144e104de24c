use sha2::{Digest, Sha256};
use tracky::documents::{EventType, Provider};
use tracky::parsers::{detect_and_parse, redact, year_from, TextLine};

fn line(page: usize, text: &str) -> TextLine {
    TextLine { page, text: text.to_string(), positioned: false }
}

// A row of positioned cells, as grouped from the page layout (cells on one
// baseline joined left to right).
fn cells(page: usize, text: &str) -> TextLine {
    TextLine { page, text: text.to_string(), positioned: true }
}

#[test]
fn nu_amount_cell_fragment_is_parsed_from_its_visual_row() {
    let lines = vec![
        line(1, "Llegó tu extracto de Abril 2026 CDT Nu"),
        cells(2, "07 abr Abriste un CDT"),
        cells(2, "-$1.234.567,89"),
    ];
    let rows = vec![
        line(1, "Llegó tu extracto de Abril 2026 CDT Nu"),
        cells(2, "07 abr Abriste un CDT -$1.234.567,89"),
    ];
    let (_, events) = detect_and_parse("src", &lines, &rows).ok().unwrap();
    assert_eq!(events.len(), 1);
    assert_eq!(events[0].event_type, EventType::CdtOpening);
    assert_eq!(events[0].provider_effective_date, "2026-04-07");
    assert_eq!(events[0].amount_minor, Some(-123_456_789));
    assert_eq!(events[0].page_number, 2);
    assert!(events[0].evidence_redaction.chars().all(|c| !c.is_ascii_digit()));
}

#[test]
fn nu_date_description_and_amount_cells_form_one_stable_event() {
    let lines = vec![
        line(1, "Llegó tu extracto de Mayo 2026 CDT Nu"),
        cells(3, "19 may"),
        cells(3, "Recibiste dinero de un CDT"),
        cells(3, "+$1.050.000,00"),
    ];
    let rows = vec![
        line(1, "Llegó tu extracto de Mayo 2026 CDT Nu"),
        cells(3, "19 may Recibiste dinero de un CDT +$1.050.000,00"),
    ];
    let (_, first) = detect_and_parse("src", &lines, &rows).ok().unwrap();
    let (_, second) = detect_and_parse("src", &lines, &rows).ok().unwrap();
    assert_eq!(first, second);
    assert_eq!(first.len(), 1);
    assert_eq!(first[0].event_type, EventType::CdtReturn);
    assert_eq!(first[0].provider_effective_date, "2026-05-19");
    assert_eq!(first[0].amount_minor, Some(105_000_000));
    assert_eq!(first[0].page_number, 3);
}

#[test]
fn nu_linear_and_layout_copies_of_a_movement_are_deduplicated() {
    let lines = vec![
        line(1, "Llegó tu extracto de Junio 2026 CDT Nu"),
        line(2, "24 jun Abriste un CDT -$900.000,00"),
        cells(2, "24 jun Abriste un CDT"),
        cells(2, "-$900.000,00"),
    ];
    let rows = vec![
        line(1, "Llegó tu extracto de Junio 2026 CDT Nu"),
        line(2, "24 jun Abriste un CDT -$900.000,00"),
        cells(2, "24 jun Abriste un CDT -$900.000,00"),
    ];
    let (_, events) = detect_and_parse("src", &lines, &rows).ok().unwrap();
    assert_eq!(events.len(), 1);
    assert_eq!(events[0].amount_minor, Some(-90_000_000));
}

#[test]
fn nu_content_proposes_only_supported_cdt_and_plenti_movements() {
    let lines = vec![
        line(1, "Llegó tu extracto de Junio 2026 CDT Nu"),
        line(2, "16 jun Enviaste a Plenti -$2.000.000,00"),
        line(2, "19 jun Recibiste dinero de un CDT +$1.050.000,00"),
        line(2, "24 jun Abriste un CDT -$900.000,00"),
    ];
    let rows = vec![
        line(1, "Llegó tu extracto de Junio 2026 CDT Nu"),
        line(2, "16 jun Enviaste a Plenti -$2.000.000,00"),
        line(2, "19 jun Recibiste dinero de un CDT +$1.050.000,00"),
        line(2, "24 jun Abriste un CDT -$900.000,00"),
    ];
    let (provider, events) = detect_and_parse("src", &lines, &rows).ok().unwrap();
    assert_eq!(provider, Provider::Nu);
    assert_eq!(
        events.iter().map(|x| x.event_type.as_str()).collect::<Vec<_>>(),
        ["withdrawal", "cdt_return", "cdt_opening"]
    );
    assert_eq!(events[0].amount_minor, Some(-200_000_000));
    assert!(events[0].evidence_redaction.chars().all(|c| !c.is_ascii_digit()));
}

#[test]
fn plenti_content_proposes_exact_deposit_without_inventing_instrument() {
    let lines = vec![
        line(1, "Extracto Transaccional SOMOS PLENTI S.A.S."),
        line(1, "16/06/2026 Recarga Bre-B PERSONA REDACTADA 580.21 2,000,000.00"),
    ];
    let rows = vec![
        line(1, "Extracto Transaccional SOMOS PLENTI S.A.S."),
        line(1, "16/06/2026 Recarga Bre-B PERSONA REDACTADA 580.21 2,000,000.00"),
    ];
    let (_, events) = detect_and_parse("src", &lines, &rows).ok().unwrap();
    assert_eq!(events[0].amount_minor, Some(200_000_000));
    assert_eq!(events[0].instrument_hint, None);
}

#[test]
fn plenti_duplicate_visual_and_text_rows_are_normalized_once() {
    let lines = vec![
        line(1, "Extracto Transaccional SOMOS PLENTI S.A.S."),
        line(1, "16/06/2026 Recarga Bre-B REDACTADA 1.00 2,000.00"),
        line(1, "16/06/2026 Recarga Bre-B REDACTADA 1.00 2,000.00"),
    ];
    let rows = vec![
        line(1, "Extracto Transaccional SOMOS PLENTI S.A.S."),
        line(1, "16/06/2026 Recarga Bre-B REDACTADA 1.00 2,000.00"),
        line(1, "16/06/2026 Recarga Bre-B REDACTADA 1.00 2,000.00"),
    ];
    let (_, events) = detect_and_parse("src", &lines, &rows).ok().unwrap();
    assert_eq!(events.len(), 1);
}

#[test]
fn wenia_portfolio_position_keeps_exact_quantity_and_dated_value() {
    let lines = vec![
        line(1, "Comportamiento de tus criptos Wenia"),
        line(1, "Periodo del informe: del 01/06/2026 al 30/06/2026"),
        line(1, "COPW activo 10,2500 COPW valor 123.45 USD"),
    ];
    let rows = vec![
        line(1, "Comportamiento de tus criptos Wenia"),
        line(1, "Periodo del informe: del 01/06/2026 al 30/06/2026"),
        line(1, "COPW activo 10,2500 COPW valor 123.45 USD"),
    ];
    let (_, events) = detect_and_parse("src", &lines, &rows).ok().unwrap();
    assert_eq!(events[0].event_type, EventType::ObservedPosition);
    assert_eq!(events[0].provider_effective_date, "2026-06-30");
    assert_eq!(events[0].quantity.as_deref(), Some("10.25"));
    assert_eq!(events[0].amount_minor, Some(12_345));
}

#[test]
fn recognized_provider_without_complete_rows_stays_safe() {
    let lines = vec![line(1, "Comportamiento de tus criptos Wenia")];
    let rows = vec![line(1, "Comportamiento de tus criptos Wenia")];
    let error = detect_and_parse("src", &lines, &rows).err().unwrap();
    assert_eq!(error.code, "partially_recognized_document");
}

#[test]
fn unsupported_content_fails_without_candidates() {
    let lines = vec![line(1, "generic bank description")];
    let rows = vec![line(1, "generic bank description")];
    let error = detect_and_parse("src", &lines, &rows).err().unwrap();
    assert_eq!(error.code, "unsupported_document");
}

#[test]
fn provider_events_carry_identifiers_and_review_state() {
    let lines = vec![
        line(1, "Extracto Transaccional SOMOS PLENTI S.A.S."),
        line(1, "16/06/2026 Depósito amigo Plenti X 1.00 2,000.00"),
    ];
    let (_, events) = detect_and_parse("doc1", &lines, &lines).ok().unwrap();
    let e = &events[0];
    assert_eq!(e.parser_id, "plenti.investment-document.v1");
    assert_eq!(e.parser_version, "1");
    assert_eq!(e.row_index, 2);
    assert_eq!(e.provider_effective_date, "2026-06-16");
    assert_eq!(e.currency, "COP");
    assert!(e.id.starts_with("invevt_"));
    assert_eq!(e.id.len(), "invevt_".len() + 24);
    assert_eq!(e.fingerprint.len(), 64);
    assert_eq!(e.source_document_id, "doc1");
    assert_eq!(e.evidence_redaction, "##/##/#### Depósito amigo Plenti X #.## #,###.##");
}

#[test]
fn nu_documents_without_a_year_yield_no_events() {
    let lines = vec![line(1, "Llego tu extracto CDT Nu"), line(1, "24 jun Abriste un CDT -$900.000,00")];
    let error = detect_and_parse("src", &lines, &lines).err().unwrap();
    assert_eq!(error.code, "partially_recognized_document");
}

#[test]
fn digits_are_hidden_and_years_found() {
    assert_eq!(redact("CDT 24 jun 2026"), "CDT ## jun ####");
    assert_eq!(year_from(&vec![line(1, "Mayo"), line(1, "2026")]).as_deref(), Some("2026"));
    assert_eq!(year_from(&vec![line(1, "1999")]), None);
}

#[test]
fn row_fingerprints_digest_debug_formatted_optionals() {
    let lines = vec![
        line(1, "Comportamiento de tus criptos Wenia"),
        line(1, "Periodo del informe: del 01/06/2026 al 30/06/2026"),
        line(1, "COPW activo 10,2500 COPW valor 123.45 USD"),
    ];
    let (_, events) = detect_and_parse("src", &lines, &lines).ok().unwrap();
    let text = "wenia|observed_position|2026-06-30|USD|12345|Some(\"COPW\")|Some(\"10.25\")";
    let expected: String = Sha256::digest(text.as_bytes()).iter().map(|b| format!("{b:02x}")).collect();
    assert_eq!(events[0].fingerprint, expected);
    let id_key = format!("src|{expected}");
    let id_digest: String = Sha256::digest(id_key.as_bytes()).iter().map(|b| format!("{b:02x}")).collect();
    assert_eq!(events[0].id, format!("invevt_{}", &id_digest[..24]));
}
