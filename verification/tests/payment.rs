use bots_core::worker::payment::{
    build_memo, choose_round_robin, PaymentCursor, PaymentPlan, MEMO_MAX_BYTES,
};

#[test]
fn a_memo_names_seed_and_number() {
    assert_eq!(build_memo("load-test", 42, 7), "load-test|seed=42|seq=7");
    assert_eq!(build_memo("", 0, 0), "seed=0|seq=0");
    assert_eq!(
        build_memo("|", u64::MAX, u64::MAX),
        format!("||seed={}|seq={}", u64::MAX, u64::MAX)
    );
}

#[test]
fn a_memo_is_capped() {
    // "|seed=1|seq=2" takes 13 bytes.
    let fits = build_memo(&"x".repeat(243), 1, 2);
    assert_eq!(fits.len(), MEMO_MAX_BYTES);
    assert!(fits.ends_with("|seed=1|seq=2"));
    let cut = build_memo(&"x".repeat(244), 1, 2);
    assert_eq!(cut.len(), MEMO_MAX_BYTES);
    assert!(cut.ends_with("|seed=1|seq="));
    assert_eq!(build_memo(&"x".repeat(300), 1, 2), "x".repeat(256));
}

#[test]
fn a_memo_is_cut_between_characters() {
    let base = "é".repeat(200);
    let memo = build_memo(&base, 1, 2);
    assert_eq!(memo, "é".repeat(128));
    let odd = build_memo(&format!("x{base}"), 1, 2);
    assert_eq!(odd, format!("x{}", "é".repeat(127)));
    assert_eq!(odd.len(), 255);
    let wide = build_memo(&format!("ab{}", "\u{1f600}".repeat(70)), 1, 2);
    assert_eq!(wide.len(), 254);
    let three = build_memo(&"€".repeat(90), 1, 2);
    assert_eq!(three.len(), 255);
}

#[test]
fn memos_tell_payments_apart() {
    let a = build_memo("b", 1, 23);
    let b = build_memo("b", 12, 3);
    let c = build_memo("b", 1, 2);
    assert_ne!(a, b);
    assert_ne!(a, c);
    assert_ne!(b, c);
}

fn list(items: &[&str]) -> Vec<String> {
    items.iter().map(|s| s.to_string()).collect()
}

#[test]
fn a_round_robin_is_fair() {
    let items = list(&["a", "b", "c"]);
    let mut idx = 5;
    let picks: Vec<String> = (0..6).map(|_| choose_round_robin(&items, &mut idx)).collect();
    assert_eq!(picks, list(&["c", "a", "b", "c", "a", "b"]));
    assert_eq!(idx, 11);
}

#[test]
fn a_round_robin_starts_over_at_the_end_of_its_range() {
    let items = list(&["a", "b"]);
    let mut idx = usize::MAX;
    assert_eq!(choose_round_robin(&items, &mut idx), "b");
    assert_eq!(idx, 0);
}

#[test]
fn payments_take_urls_and_recipients_in_turn() {
    let plan = PaymentPlan {
        rpc_urls: list(&["u0", "u1"]),
        recipients: list(&["r0"]),
        seed: 3,
        memo_base: "base".to_string(),
        from: "f".to_string(),
        signing_key: "k".to_string(),
        amount_atomic: u128::MAX,
        fee_atomic: 1,
    };
    let mut cursor = PaymentCursor::new();
    let first = plan.next_payment(&mut cursor);
    let second = plan.next_payment(&mut cursor);
    assert_eq!(first.base_url, "u0");
    assert_eq!(second.base_url, "u1");
    assert_eq!(first.body.to, "r0");
    assert_eq!(second.body.to, "r0");
    assert_eq!(first.body.memo, "base|seed=3|seq=0");
    assert_eq!(second.body.memo, "base|seed=3|seq=1");
    assert_eq!(second.body.amount, u128::MAX);
    cursor.start_step();
    assert_eq!(
        cursor,
        PaymentCursor {
            url_idx: 2,
            to_idx: 2,
            seq: 0
        }
    );
}

#[test]
fn the_number_of_a_payment_stays_at_its_largest() {
    let plan = PaymentPlan {
        rpc_urls: list(&["u"]),
        recipients: list(&["r"]),
        seed: 0,
        memo_base: String::new(),
        from: String::new(),
        signing_key: String::new(),
        amount_atomic: 0,
        fee_atomic: 0,
    };
    let mut cursor = PaymentCursor {
        url_idx: 0,
        to_idx: 0,
        seq: u64::MAX,
    };
    plan.next_payment(&mut cursor);
    assert_eq!(cursor.seq, u64::MAX);
}
