use tracky::arguments::{
    expense_lines_from_args, parse_batch_action, parse_batch_actions, parse_expense_line, BatchActionRequest,
};

#[test]
fn expense_lines_read_category_amount_and_currency() {
    let line = parse_expense_line("food:-70000:cop").ok().unwrap();
    assert_eq!(line.category_id, "food");
    assert_eq!(line.amount_minor, -70_000);
    assert_eq!(line.currency, "COP");
    let colon = parse_expense_line("rent:100:usd:x").ok().unwrap();
    assert_eq!(colon.currency, "USD:X");
    for bad in ["food", "food:12", "food:abc:COP", " :10:COP", "food:10:  ", "food:99999999999999999999:COP"] {
        let e = parse_expense_line(bad).err().unwrap();
        assert_eq!(e.code, "invalid_expense_line");
        assert_eq!(e.value, bad);
    }
}

#[test]
fn expense_lines_need_exactly_one_source() {
    let both = expense_lines_from_args(Some("food".to_string()), vec!["food:1:COP".to_string()]).err().unwrap();
    assert_eq!(both.code, "expense_category_or_lines_required");
    let none = expense_lines_from_args(None, vec![]).err().unwrap();
    assert_eq!(none.code, "expense_lines_required");
    let whole = expense_lines_from_args(Some("food".to_string()), vec![]).ok().unwrap();
    assert_eq!(whole.len(), 1);
    assert_eq!(whole[0].amount_minor, 0);
    assert_eq!(whole[0].currency, "");
    let split = expense_lines_from_args(None, vec!["food:-1:cop".to_string(), "home:-2:cop".to_string()]).ok().unwrap();
    assert_eq!(split.len(), 2);
    let bad = expense_lines_from_args(None, vec!["food:-1:cop".to_string(), "home".to_string(), "x".to_string()])
        .err()
        .unwrap();
    assert_eq!(bad.code, "invalid_expense_line");
    assert_eq!(bad.value, "home");
}

#[test]
fn batch_actions_name_their_candidates() {
    assert_eq!(
        parse_batch_action("reject-duplicate:cand_1").ok(),
        Some(BatchActionRequest::RejectDuplicate { candidate_id: "cand_1".to_string() })
    );
    assert_eq!(
        parse_batch_action("accept_transfer_pair:a:b").ok(),
        Some(BatchActionRequest::AcceptTransferPair {
            from_candidate_id: "a".to_string(),
            to_candidate_id: "b".to_string()
        })
    );
    for missing in ["reject-duplicate", "reject_duplicate:", "accept-transfer-pair:a", "accept-transfer-pair:a:", "reject-duplicate:a:b"] {
        assert_eq!(parse_batch_action(missing).err().unwrap().code, "candidate_ids_required");
    }
    for unknown in ["", "merge:a:b", "Reject-duplicate:a"] {
        let e = parse_batch_action(unknown).err().unwrap();
        assert_eq!(e.code, "invalid_batch_action");
        assert_eq!(e.path, "actions");
    }
    let all = parse_batch_actions(&vec!["reject-duplicate:x".to_string(), "accept-transfer-pair:a:b".to_string()]);
    assert_eq!(all.ok().unwrap().len(), 2);
    let first_bad = parse_batch_actions(&vec!["bogus".to_string(), "reject-duplicate".to_string()]).err().unwrap();
    assert_eq!(first_bad.code, "invalid_batch_action");
}
