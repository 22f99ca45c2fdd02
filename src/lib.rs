//! Escrow payment intents: a lifecycle state machine over an intent store,
//! deterministic escrow addresses, and a hash-chained certified event log.
//!
//! Host services (clock, caller identity, certification, ledger calls) stay
//! outside: each operation takes what it needs from them as plain values, and
//! operations that call a ledger are split into a `prepare_*` step that
//! validates and plans the transfers and a `finish_*` step that commits.

mod digest;
mod events;
mod ids;
mod intents;
mod types;

pub use digest::{blake3_of, derive_escrow_subaccount, escrow_domain, escrow_of, escrow_preimage};
pub use events::{
    chain, clamp, event_bytes, event_digest, event_encoding_of, lemma_certified_slice_verifies,
    lemma_chain_concat, lemma_prefix_recomputes_tip, zero_tip, CertifiedEvents, Event, EventKind,
    EventLog,
};
pub use ids::{decimal, digit_char, intent_id_of, lemma_intent_id_determines_seq, principal_text_of};
pub use intents::{
    assets_unique, find_intent, find_ledger, follows_lifecycle, ids_unique, is_transfer,
    is_transfer_from, issued_before, lemma_lifecycle_step, lemma_lifecycle_steps_compose,
    lifecycle_reachable, one_intent_changed, splits_total, with_status, within_lifecycle,
    CapturePlan, RefundPlan, ReleasePlan, State,
};
pub use types::{
    account_opt_view, is_lifecycle_edge, Account, AccountView, CaptureArgs, CreateIntentArgs,
    Error, Icrc1TransferArg, Icrc2TransferFromArg, IntentStatus, IntentView, LedgerInfo,
    PaymentIntent, Principal, RefundArgs, ReleaseArgs, Split,
};
