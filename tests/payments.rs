use payments::{
    derive_escrow_subaccount, Account, CaptureArgs, CreateIntentArgs, Error, EventKind,
    IntentStatus, PaymentIntent, Principal, RefundArgs, ReleaseArgs, Split, State,
};

const NOW: u64 = 1_000;

fn principal(b: &[u8]) -> Principal {
    Principal::from_bytes(b.to_vec()).unwrap()
}

fn merchant() -> Principal {
    principal(&[1, 2, 3])
}

fn service() -> Principal {
    principal(&[9, 9])
}

fn account(b: &[u8]) -> Account {
    Account { owner: principal(b), subaccount: None }
}

fn registered_state() -> State {
    let mut st = State::new();
    st.register_ledger(true, "X".to_string(), principal(&[7]), 8).unwrap();
    st
}

fn create(st: &mut State, amount: u128) -> PaymentIntent {
    let args = CreateIntentArgs {
        asset: "X".to_string(),
        amount,
        expires_at: NOW + 3600,
        metadata: vec![("order".to_string(), "42".to_string())],
    };
    st.create_intent(&merchant(), &service(), NOW, args).unwrap()
}

fn captured(st: &mut State) -> PaymentIntent {
    let intent = create(st, 100_000);
    let args = CaptureArgs { intent_id: intent.id.clone(), from: account(&[5]) };
    st.prepare_capture(&merchant(), NOW + 1, &args).unwrap();
    st.finish_capture(NOW + 2, &args, Ok(())).unwrap()
}

#[test]
fn subaccount_is_deterministic() {
    let a = derive_escrow_subaccount("x");
    let b = derive_escrow_subaccount("x");
    assert_eq!(a, b);
}

#[test]
fn escrow_is_hash_of_domain_and_id() {
    let a = derive_escrow_subaccount("x");
    assert_eq!(a, *blake3::hash(b"payments/escrowx").as_bytes());
    assert_ne!(a, derive_escrow_subaccount("y"));
}

#[test]
fn create_intent_scenario() {
    let mut st = registered_state();
    let intent = create(&mut st, 100_000);
    assert_eq!(intent.status, IntentStatus::RequiresApproval);
    assert_eq!(intent.amount, 100_000);
    assert!(intent.payer.is_none());
    assert_eq!(intent.created_at, NOW);
    assert_eq!(intent.expires_at, NOW + 3600);
    assert_eq!(intent.metadata, vec![("order".to_string(), "42".to_string())]);
    let text = candid::Principal::from_slice(&[1, 2, 3]).to_text();
    assert_eq!(intent.id, format!("pi_0_{}_{}", text, NOW));
    assert_eq!(intent.escrow.owner.bytes, vec![9, 9]);
    assert_eq!(intent.escrow.subaccount, Some(derive_escrow_subaccount(&intent.id)));
    assert_eq!(st.log.events.len(), 1);
    assert!(matches!(&st.log.events[0].kind, EventKind::IntentCreated { id } if *id == intent.id));
    assert_eq!(st.log.events[0].ts, NOW);
}

#[test]
fn ids_are_distinct_for_same_time_and_callers() {
    let mut st = registered_state();
    let a = create(&mut st, 1);
    let b = create(&mut st, 1);
    let args = CreateIntentArgs { asset: "X".to_string(), amount: 1, expires_at: NOW + 1, metadata: vec![] };
    let c = st.create_intent(&principal(&[4]), &service(), NOW, args).unwrap();
    assert_ne!(a.id, b.id);
    assert_ne!(a.id, c.id);
    assert_ne!(b.id, c.id);
    assert!(b.id.starts_with("pi_1_"));
    assert!(c.id.starts_with("pi_2_"));
}

#[test]
fn create_intent_unknown_asset() {
    let mut st = State::new();
    let args = CreateIntentArgs { asset: "Y".to_string(), amount: 1, expires_at: NOW + 10, metadata: vec![] };
    let r = st.create_intent(&merchant(), &service(), NOW, args);
    assert!(matches!(r, Err(Error::AssetNotRegistered)));
    assert_eq!(st.log.events.len(), 0);
}

#[test]
fn create_intent_not_in_future() {
    let mut st = registered_state();
    let args = CreateIntentArgs { asset: "X".to_string(), amount: 1, expires_at: NOW, metadata: vec![] };
    let r = st.create_intent(&merchant(), &service(), NOW, args);
    assert!(matches!(r, Err(Error::Expired)));
    assert!(st.intents.is_empty());
}

#[test]
fn register_ledger_requires_admin() {
    let mut st = State::new();
    let r = st.register_ledger(false, "X".to_string(), principal(&[7]), 8);
    assert!(matches!(r, Err(Error::Unauthorized)));
    assert!(st.get_ledger(&"X".to_string()).is_none());
}

#[test]
fn register_ledger_overwrites() {
    let mut st = registered_state();
    st.register_ledger(true, "X".to_string(), principal(&[8]), 6).unwrap();
    let l = st.get_ledger(&"X".to_string()).unwrap();
    assert_eq!(l.ledger_id.bytes, vec![8]);
    assert_eq!(l.decimals, 6);
    assert_eq!(st.ledgers.len(), 1);
}

#[test]
fn capture_scenario() {
    let mut st = registered_state();
    let intent = create(&mut st, 100_000);
    let args = CaptureArgs { intent_id: intent.id.clone(), from: account(&[5]) };
    let plan = st.prepare_capture(&merchant(), NOW + 1, &args).unwrap();
    assert_eq!(plan.ledger.bytes, vec![7]);
    assert_eq!(plan.transfer.amount, 100_000);
    assert_eq!(plan.transfer.from.owner.bytes, vec![5]);
    assert_eq!(plan.transfer.to.subaccount, intent.escrow.subaccount);
    assert_eq!(plan.transfer.created_at_time, Some(NOW + 1));
    let done = st.finish_capture(NOW + 2, &args, Ok(())).unwrap();
    assert_eq!(done.status, IntentStatus::Succeeded);
    assert_eq!(done.payer.unwrap().owner.bytes, vec![5]);
    assert_eq!(st.log.events.len(), 2);
    assert!(matches!(st.log.events[1].kind, EventKind::Captured { amount: 100_000, .. }));
}

#[test]
fn capture_ledger_failure_keeps_status() {
    let mut st = registered_state();
    let intent = create(&mut st, 100_000);
    let args = CaptureArgs { intent_id: intent.id.clone(), from: account(&[5]) };
    st.prepare_capture(&merchant(), NOW + 1, &args).unwrap();
    let r = st.finish_capture(NOW + 2, &args, Err("insufficient funds".to_string()));
    assert!(matches!(r, Err(Error::Other(ref d)) if d == "insufficient funds"));
    assert_eq!(st.get_intent(&intent.id, NOW + 3).unwrap().status, IntentStatus::RequiresApproval);
    assert_eq!(st.log.events.len(), 1);
}

#[test]
fn capture_errors() {
    let mut st = registered_state();
    let intent = create(&mut st, 100_000);
    let missing = CaptureArgs { intent_id: "nope".to_string(), from: account(&[5]) };
    assert!(matches!(st.prepare_capture(&merchant(), NOW, &missing), Err(Error::NotFound)));
    let args = CaptureArgs { intent_id: intent.id.clone(), from: account(&[5]) };
    assert!(matches!(st.prepare_capture(&principal(&[4]), NOW, &args), Err(Error::Unauthorized)));
    st.finish_capture(NOW + 1, &args, Ok(())).unwrap();
    assert!(matches!(st.prepare_capture(&merchant(), NOW + 2, &args), Err(Error::InvalidState)));
    assert!(matches!(st.finish_capture(NOW + 2, &args, Ok(())), Err(Error::InvalidState)));
    assert_eq!(st.log.events.len(), 2);
}

#[test]
fn capture_after_expiry_expires() {
    let mut st = registered_state();
    let intent = create(&mut st, 100_000);
    let args = CaptureArgs { intent_id: intent.id.clone(), from: account(&[5]) };
    assert!(matches!(st.prepare_capture(&merchant(), NOW + 3600, &args), Err(Error::Expired)));
    assert_eq!(st.intents[0].status, IntentStatus::Expired);
    assert!(matches!(st.log.events[1].kind, EventKind::Expired { .. }));
}

#[test]
fn release_scenario() {
    let mut st = registered_state();
    let intent = captured(&mut st);
    let args = ReleaseArgs {
        intent_id: intent.id.clone(),
        splits: vec![
            Split { to: account(&[10]), amount: 60_000 },
            Split { to: account(&[11]), amount: 40_000 },
        ],
    };
    let plan = st.prepare_release(&merchant(), NOW + 5, &args).unwrap();
    assert_eq!(plan.total, 100_000);
    assert_eq!(plan.transfers.len(), 2);
    assert_eq!(plan.transfers[0].to.owner.bytes, vec![10]);
    assert_eq!(plan.transfers[0].amount, 60_000);
    assert_eq!(plan.transfers[1].to.owner.bytes, vec![11]);
    assert_eq!(plan.transfers[1].amount, 40_000);
    assert_eq!(plan.transfers[0].from_subaccount, intent.escrow.subaccount);
    let done = st.finish_release(NOW + 6, &intent.id, plan.total, Ok(())).unwrap();
    assert_eq!(done.status, IntentStatus::Released);
    assert_eq!(st.log.events.len(), 3);
    assert!(matches!(st.log.events[2].kind, EventKind::Released { total: 100_000, .. }));
}

#[test]
fn release_over_total_rejected() {
    let mut st = registered_state();
    let intent = captured(&mut st);
    let args = ReleaseArgs {
        intent_id: intent.id.clone(),
        splits: vec![
            Split { to: account(&[10]), amount: 100_000 },
            Split { to: account(&[11]), amount: 50_000 },
        ],
    };
    assert!(matches!(st.prepare_release(&merchant(), NOW + 5, &args), Err(Error::Other(_))));
    assert_eq!(st.get_intent(&intent.id, NOW + 5).unwrap().status, IntentStatus::Succeeded);
    let huge = ReleaseArgs {
        intent_id: intent.id.clone(),
        splits: vec![
            Split { to: account(&[10]), amount: u128::MAX },
            Split { to: account(&[11]), amount: u128::MAX },
        ],
    };
    assert!(matches!(st.prepare_release(&merchant(), NOW + 5, &huge), Err(Error::Other(_))));
}

#[test]
fn release_failure_and_invalid_state() {
    let mut st = registered_state();
    let fresh = create(&mut st, 10);
    let args = ReleaseArgs { intent_id: fresh.id.clone(), splits: vec![] };
    assert!(matches!(st.prepare_release(&merchant(), NOW, &args), Err(Error::InvalidState)));
    let intent = captured(&mut st);
    let r = st.finish_release(NOW + 6, &intent.id, 1, Err("bad fee".to_string()));
    assert!(matches!(r, Err(Error::Other(_))));
    assert_eq!(st.intents[1].status, IntentStatus::Succeeded);
    let args = ReleaseArgs { intent_id: intent.id.clone(), splits: vec![] };
    assert!(matches!(st.prepare_release(&principal(&[4]), NOW, &args), Err(Error::Unauthorized)));
    assert!(matches!(st.prepare_release(&merchant(), NOW + 3600, &args), Err(Error::Expired)));
}

#[test]
fn partial_refund_rejected() {
    let mut st = registered_state();
    let intent = captured(&mut st);
    let args = RefundArgs { intent_id: intent.id.clone(), amount: 50_000 };
    assert!(matches!(st.prepare_refund(&merchant(), NOW + 5, &args), Err(Error::Other(_))));
    assert_eq!(st.get_intent(&intent.id, NOW + 5).unwrap().status, IntentStatus::Succeeded);
}

#[test]
fn full_refund() {
    let mut st = registered_state();
    let intent = captured(&mut st);
    let args = RefundArgs { intent_id: intent.id.clone(), amount: 100_000 };
    let plan = st.prepare_refund(&merchant(), NOW + 5, &args).unwrap();
    assert_eq!(plan.transfer.to.owner.bytes, vec![5]);
    assert_eq!(plan.transfer.amount, 100_000);
    assert_eq!(plan.transfer.from_subaccount, intent.escrow.subaccount);
    let done = st.finish_refund(NOW + 6, &intent.id, Ok(())).unwrap();
    assert_eq!(done.status, IntentStatus::Refunded);
    assert!(matches!(st.log.events[2].kind, EventKind::Refunded { amount: 100_000, .. }));
    let again = st.prepare_release(&merchant(), NOW + 7, &ReleaseArgs { intent_id: intent.id.clone(), splits: vec![] });
    assert!(matches!(again, Err(Error::InvalidState)));
}

#[test]
fn expiry_on_read_records_one_event() {
    let mut st = registered_state();
    let intent = create(&mut st, 100_000);
    assert_eq!(st.get_intent(&intent.id, NOW + 10).unwrap().status, IntentStatus::RequiresApproval);
    for _ in 0..3 {
        let seen = st.get_intent(&intent.id, NOW + 3600).unwrap();
        assert_eq!(seen.status, IntentStatus::Expired);
    }
    assert_eq!(st.log.events.len(), 2);
    assert!(matches!(st.log.events[1].kind, EventKind::Expired { .. }));
    assert!(st.get_intent(&"nope".to_string(), NOW).is_none());
}

fn recompute(events: &[payments::Event], start: [u8; 32]) -> [u8; 32] {
    let mut tip = start;
    for e in events {
        let (tag, id, amount): (u8, &str, u128) = match &e.kind {
            EventKind::IntentCreated { id } => (0, id, 0),
            EventKind::Captured { id, amount } => (1, id, *amount),
            EventKind::Released { id, total } => (2, id, *total),
            EventKind::Refunded { id, amount } => (3, id, *amount),
            EventKind::Expired { id } => (4, id, 0),
        };
        let bytes = candid::encode_one((e.ts, tag, id, amount)).unwrap();
        let eh = blake3::hash(&bytes);
        let mut input = tip.to_vec();
        input.extend_from_slice(eh.as_bytes());
        tip = *blake3::hash(&input).as_bytes();
    }
    tip
}

#[test]
fn chain_recomputes_every_tip() {
    let mut st = registered_state();
    let intent = captured(&mut st);
    st.finish_release(NOW + 6, &intent.id, 100_000, Ok(())).unwrap();
    let n = st.log.events.len();
    assert_eq!(n, 3);
    for k in 1..=n {
        assert_eq!(recompute(&st.log.events[..k], [0u8; 32]), st.log.tips[k - 1]);
    }
    assert_eq!(st.log.tip(), st.log.tips[n - 1]);
}

#[test]
fn certified_listing_verifies() {
    let mut st = registered_state();
    let intent = captured(&mut st);
    st.finish_release(NOW + 6, &intent.id, 100_000, Ok(())).unwrap();
    let all = st.log.list_events_certified_from(0, 10, Some(vec![1, 2]));
    assert_eq!(all.events.len(), 3);
    assert!(all.prev_prefix.is_none());
    assert_eq!(all.certificate, Some(vec![1, 2]));
    let tip = all.tip_prefix.clone().unwrap();
    assert_eq!(recompute(&all.events, [0u8; 32]).to_vec(), tip);
    let tail = st.log.list_events_certified_from(1, 10, None);
    assert_eq!(tail.events.len(), 2);
    let prev: [u8; 32] = tail.prev_prefix.clone().unwrap().try_into().unwrap();
    assert_eq!(recompute(&tail.events, prev).to_vec(), tip);
}

#[test]
fn listing_is_clamped() {
    let mut st = registered_state();
    create(&mut st, 1);
    create(&mut st, 2);
    assert_eq!(st.log.list_events(0, 1).len(), 1);
    assert_eq!(st.log.list_events(1, 10).len(), 1);
    assert_eq!(st.log.list_events(5, 10).len(), 0);
    assert_eq!(st.log.list_events(u64::MAX, u32::MAX).len(), 0);
    let empty = State::new();
    let c = empty.log.list_events_certified_from(0, 10, None);
    assert!(c.events.is_empty() && c.prev_prefix.is_none() && c.tip_prefix.is_none());
}

#[test]
fn principal_length_is_bounded() {
    assert!(Principal::from_bytes(vec![0u8; 29]).is_some());
    assert!(Principal::from_bytes(vec![0u8; 30]).is_none());
    assert!(principal(&[1, 2]).same_as(&principal(&[1, 2])));
    assert!(!principal(&[1, 2]).same_as(&principal(&[1, 3])));
    assert!(!principal(&[1]).same_as(&principal(&[1, 0])));
}

#[test]
fn refund_errors() {
    let mut st = registered_state();
    let fresh = create(&mut st, 10);
    let args = RefundArgs { intent_id: fresh.id.clone(), amount: 10 };
    assert!(matches!(st.prepare_refund(&merchant(), NOW, &args), Err(Error::InvalidState)));
    assert!(matches!(st.prepare_refund(&principal(&[4]), NOW, &args), Err(Error::Unauthorized)));
    assert!(matches!(st.prepare_refund(&merchant(), NOW + 3600, &args), Err(Error::Expired)));
    let missing = RefundArgs { intent_id: "nope".to_string(), amount: 10 };
    assert!(matches!(st.prepare_refund(&merchant(), NOW, &missing), Err(Error::NotFound)));
    let intent = captured(&mut st);
    let r = st.finish_refund(NOW + 6, &intent.id, Err("temporarily unavailable".to_string()));
    assert!(matches!(r, Err(Error::Other(_))));
    assert_eq!(st.intents[1].status, IntentStatus::Succeeded);
}
