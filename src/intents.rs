use vstd::prelude::*;
use vstd::string::*;
use vstd::utf8::encode_utf8;

use crate::digest::{derive_escrow_subaccount, escrow_of};
use crate::events::{Event, EventKind, EventLog};
use crate::ids::{build_intent_id, intent_id_of, lemma_intent_id_determines_seq, principal_text, principal_text_of};
use crate::types::{
    is_lifecycle_edge, Account, AccountView, CaptureArgs, CreateIntentArgs, Error, Icrc1TransferArg,
    Icrc2TransferFromArg, IntentStatus, IntentView, LedgerInfo, PaymentIntent, Principal, RefundArgs,
    ReleaseArgs, Split,
};

verus! {

/// No two intents share an id.
pub open spec fn ids_unique(s: Seq<PaymentIntent>) -> bool {
    forall|i: int, j: int|
        0 <= i < s.len() && 0 <= j < s.len() && i != j ==> #[trigger] s[i].id@ != #[trigger] s[j].id@
}

/// The intent with id `id` among `s`, if any.
pub open spec fn find_intent(s: Seq<PaymentIntent>, id: Seq<char>) -> Option<IntentView> {
    if exists|i: int| 0 <= i < s.len() && #[trigger] s[i].id@ == id {
        Some(s[choose|i: int| 0 <= i < s.len() && #[trigger] s[i].id@ == id]@)
    } else {
        None
    }
}

/// No two registry entries share an asset.
pub open spec fn assets_unique(s: Seq<(String, LedgerInfo)>) -> bool {
    forall|i: int, j: int|
        0 <= i < s.len() && 0 <= j < s.len() && i != j ==> #[trigger] s[i].0@ != #[trigger] s[j].0@
}

/// The registry entry of `asset` among `s`, if any.
pub open spec fn find_ledger(s: Seq<(String, LedgerInfo)>, asset: Seq<char>) -> Option<(Seq<u8>, u8)> {
    if exists|i: int| 0 <= i < s.len() && #[trigger] s[i].0@ == asset {
        Some(s[choose|i: int| 0 <= i < s.len() && #[trigger] s[i].0@ == asset].1@)
    } else {
        None
    }
}

/// `id` was built from a sequence number below `bound`.
pub open spec fn issued_before(id: Seq<char>, bound: nat) -> bool {
    exists|s: nat, c: Seq<char>, t: nat| s < bound && id == #[trigger] intent_id_of(s, c, t)
}

/// The sum of the split amounts.
pub open spec fn splits_total(s: Seq<Split>) -> int
    decreases s.len(),
{
    if s.len() == 0 {
        0
    } else {
        splits_total(s.drop_last()) + s.last().amount
    }
}

proof fn lemma_find_intent_at(s: Seq<PaymentIntent>, i: int)
    requires
        ids_unique(s),
        0 <= i < s.len(),
    ensures
        find_intent(s, s[i].id@) == Some(s[i]@),
{
    let id = s[i].id@;
    assert(0 <= i < s.len() && s[i].id@ == id);
    let j = choose|j: int| 0 <= j < s.len() && #[trigger] s[j].id@ == id;
    assert(j == i);
}

proof fn lemma_find_intent_update(s: Seq<PaymentIntent>, i: int, v: PaymentIntent)
    requires
        ids_unique(s),
        0 <= i < s.len(),
        v.id@ == s[i].id@,
    ensures
        ids_unique(s.update(i, v)),
        forall|k: Seq<char>| #[trigger] find_intent(s.update(i, v), k)
            == if k == s[i].id@ { Some(v@) } else { find_intent(s, k) },
{
    let s2 = s.update(i, v);
    assert forall|a: int, b: int| 0 <= a < s2.len() && 0 <= b < s2.len() && a != b
        implies #[trigger] s2[a].id@ != #[trigger] s2[b].id@ by {
        assert(s2[a].id@ == s[a].id@);
        assert(s2[b].id@ == s[b].id@);
    }
    assert forall|k: Seq<char>| #[trigger] find_intent(s2, k)
        == if k == s[i].id@ { Some(v@) } else { find_intent(s, k) } by {
        if k == s[i].id@ {
            lemma_find_intent_at(s2, i);
        } else if exists|j: int| 0 <= j < s.len() && #[trigger] s[j].id@ == k {
            let j = choose|j: int| 0 <= j < s.len() && #[trigger] s[j].id@ == k;
            lemma_find_intent_at(s, j);
            assert(s2[j] == s[j]);
            lemma_find_intent_at(s2, j);
        } else {
            assert forall|j: int| 0 <= j < s2.len() implies #[trigger] s2[j].id@ != k by {
                assert(s2[j].id@ == s[j].id@);
            }
        }
    }
}

proof fn lemma_find_intent_push(s: Seq<PaymentIntent>, v: PaymentIntent)
    requires
        ids_unique(s),
        find_intent(s, v.id@) is None,
    ensures
        ids_unique(s.push(v)),
        forall|k: Seq<char>| #[trigger] find_intent(s.push(v), k)
            == if k == v.id@ { Some(v@) } else { find_intent(s, k) },
{
    let s2 = s.push(v);
    assert forall|a: int, b: int| 0 <= a < s2.len() && 0 <= b < s2.len() && a != b
        implies #[trigger] s2[a].id@ != #[trigger] s2[b].id@ by {
        if a < s.len() && b < s.len() {
            assert(s2[a] == s[a] && s2[b] == s[b]);
        } else if a < s.len() {
            assert(s2[a] == s[a]);
            assert(!(0 <= a < s.len() && s[a].id@ == v.id@));
        } else {
            assert(s2[b] == s[b]);
            assert(!(0 <= b < s.len() && s[b].id@ == v.id@));
        }
    }
    assert forall|k: Seq<char>| #[trigger] find_intent(s2, k)
        == if k == v.id@ { Some(v@) } else { find_intent(s, k) } by {
        if k == v.id@ {
            lemma_find_intent_at(s2, s.len() as int);
        } else if exists|j: int| 0 <= j < s.len() && #[trigger] s[j].id@ == k {
            let j = choose|j: int| 0 <= j < s.len() && #[trigger] s[j].id@ == k;
            lemma_find_intent_at(s, j);
            assert(s2[j] == s[j]);
            lemma_find_intent_at(s2, j);
        } else {
            assert forall|j: int| 0 <= j < s2.len() implies #[trigger] s2[j].id@ != k by {
                if j < s.len() {
                    assert(s2[j] == s[j]);
                }
            }
        }
    }
}

proof fn lemma_find_ledger_at(s: Seq<(String, LedgerInfo)>, i: int)
    requires
        assets_unique(s),
        0 <= i < s.len(),
    ensures
        find_ledger(s, s[i].0@) == Some(s[i].1@),
{
    let a = s[i].0@;
    assert(0 <= i < s.len() && s[i].0@ == a);
    let j = choose|j: int| 0 <= j < s.len() && #[trigger] s[j].0@ == a;
    assert(j == i);
}

proof fn lemma_find_ledger_update(s: Seq<(String, LedgerInfo)>, i: int, e: (String, LedgerInfo))
    requires
        assets_unique(s),
        0 <= i < s.len(),
        e.0@ == s[i].0@,
    ensures
        assets_unique(s.update(i, e)),
        forall|k: Seq<char>| #[trigger] find_ledger(s.update(i, e), k)
            == if k == e.0@ { Some(e.1@) } else { find_ledger(s, k) },
{
    let s2 = s.update(i, e);
    assert forall|a: int, b: int| 0 <= a < s2.len() && 0 <= b < s2.len() && a != b
        implies #[trigger] s2[a].0@ != #[trigger] s2[b].0@ by {
        assert(s2[a].0@ == s[a].0@);
        assert(s2[b].0@ == s[b].0@);
    }
    assert forall|k: Seq<char>| #[trigger] find_ledger(s2, k)
        == if k == e.0@ { Some(e.1@) } else { find_ledger(s, k) } by {
        if k == e.0@ {
            lemma_find_ledger_at(s2, i);
        } else if exists|j: int| 0 <= j < s.len() && #[trigger] s[j].0@ == k {
            let j = choose|j: int| 0 <= j < s.len() && #[trigger] s[j].0@ == k;
            lemma_find_ledger_at(s, j);
            assert(s2[j] == s[j]);
            lemma_find_ledger_at(s2, j);
        } else {
            assert forall|j: int| 0 <= j < s2.len() implies #[trigger] s2[j].0@ != k by {
                assert(s2[j].0@ == s[j].0@);
            }
        }
    }
}

proof fn lemma_find_ledger_push(s: Seq<(String, LedgerInfo)>, e: (String, LedgerInfo))
    requires
        assets_unique(s),
        find_ledger(s, e.0@) is None,
    ensures
        assets_unique(s.push(e)),
        forall|k: Seq<char>| #[trigger] find_ledger(s.push(e), k)
            == if k == e.0@ { Some(e.1@) } else { find_ledger(s, k) },
{
    let s2 = s.push(e);
    assert forall|a: int, b: int| 0 <= a < s2.len() && 0 <= b < s2.len() && a != b
        implies #[trigger] s2[a].0@ != #[trigger] s2[b].0@ by {
        if a < s.len() && b < s.len() {
            assert(s2[a] == s[a] && s2[b] == s[b]);
        } else if a < s.len() {
            assert(s2[a] == s[a]);
            assert(!(0 <= a < s.len() && s[a].0@ == e.0@));
        } else {
            assert(s2[b] == s[b]);
            assert(!(0 <= b < s.len() && s[b].0@ == e.0@));
        }
    }
    assert forall|k: Seq<char>| #[trigger] find_ledger(s2, k)
        == if k == e.0@ { Some(e.1@) } else { find_ledger(s, k) } by {
        if k == e.0@ {
            lemma_find_ledger_at(s2, s.len() as int);
        } else if exists|j: int| 0 <= j < s.len() && #[trigger] s[j].0@ == k {
            let j = choose|j: int| 0 <= j < s.len() && #[trigger] s[j].0@ == k;
            lemma_find_ledger_at(s, j);
            assert(s2[j] == s[j]);
            lemma_find_ledger_at(s2, j);
        } else {
            assert forall|j: int| 0 <= j < s2.len() implies #[trigger] s2[j].0@ != k by {
                if j < s.len() {
                    assert(s2[j] == s[j]);
                }
            }
        }
    }
}

/// The ledger call that a capture needs: a transfer from the payer to the
/// intent's escrow, on the ledger registered for its asset.
pub struct CapturePlan {
    pub ledger: Principal,
    pub transfer: Icrc2TransferFromArg,
}

/// The ledger calls that a release needs, to be issued one at a time in
/// order, and the total they move.
pub struct ReleasePlan {
    pub ledger: Principal,
    pub transfers: Vec<Icrc1TransferArg>,
    pub total: u128,
}

/// The ledger call that a refund needs: a transfer from the escrow back to
/// the payer.
pub struct RefundPlan {
    pub ledger: Principal,
    pub transfer: Icrc1TransferArg,
}

/// `t` moves `amount` from `from` to `to`, stamped `now`, with no fee, memo,
/// spender selector or expected allowance.
pub open spec fn is_transfer_from(t: Icrc2TransferFromArg, from: AccountView, to: AccountView, amount: u128, now: u64) -> bool {
    &&& t.from@ == from
    &&& t.to@ == to
    &&& t.amount == amount
    &&& t.fee is None
    &&& t.memo is None
    &&& t.created_at_time == Some(now)
    &&& t.spender_subaccount is None
    &&& t.expected_allowance is None
}

/// `t` moves `amount` out of the selector `from_subaccount` to `to`, stamped
/// `now`, with no fee or memo.
pub open spec fn is_transfer(t: Icrc1TransferArg, to: AccountView, amount: u128, from_subaccount: Option<[u8; 32]>, now: u64) -> bool {
    &&& t.to@ == to
    &&& t.amount == amount
    &&& t.fee is None
    &&& t.memo is None
    &&& t.from_subaccount == from_subaccount
    &&& t.created_at_time == Some(now)
}

proof fn lemma_splits_total_prefix(s: Seq<Split>, i: int)
    requires
        0 <= i <= s.len(),
    ensures
        splits_total(s.subrange(0, i)) <= splits_total(s),
    decreases s.len(),
{
    if i < s.len() {
        lemma_splits_total_prefix(s.drop_last(), i);
        assert(s.drop_last().subrange(0, i) =~= s.subrange(0, i));
    } else {
        assert(s.subrange(0, i) =~= s);
    }
}

/// The total of `splits`, or `None` when it exceeds `cap`.
fn split_total_within(splits: &Vec<Split>, cap: u128) -> (r: Option<u128>)
    ensures
        r is None <==> splits_total(splits@) > cap,
        r matches Some(t) ==> t == splits_total(splits@),
{
    let mut sum: u128 = 0;
    let mut k: usize = 0;
    while k < splits.len()
        invariant
            k <= splits@.len(),
            sum == splits_total(splits@.subrange(0, k as int)),
            sum <= cap,
        decreases splits@.len() - k,
    {
        proof {
            assert(splits@.subrange(0, k + 1).drop_last() =~= splits@.subrange(0, k as int));
            lemma_splits_total_prefix(splits@, k + 1);
        }
        if splits[k].amount > cap - sum {
            return None;
        }
        sum = sum + splits[k].amount;
        k = k + 1;
    }
    assert(splits@.subrange(0, splits@.len() as int) =~= splits@);
    Some(sum)
}

/// One transfer out of the selector `from_subaccount` per split, in order.
fn split_transfers(splits: &Vec<Split>, from_subaccount: Option<[u8; 32]>, now: u64) -> (r: Vec<Icrc1TransferArg>)
    ensures
        r@.len() == splits@.len(),
        forall|m: int| 0 <= m < splits@.len() ==> #[trigger] is_transfer(r@[m], splits@[m].to@,
            splits@[m].amount, from_subaccount, now),
{
    let mut transfers: Vec<Icrc1TransferArg> = Vec::new();
    let mut j: usize = 0;
    while j < splits.len()
        invariant
            j <= splits@.len(),
            transfers@.len() == j,
            forall|m: int| 0 <= m < j ==> #[trigger] is_transfer(transfers@[m], splits@[m].to@,
                splits@[m].amount, from_subaccount, now),
        decreases splits@.len() - j,
    {
        transfers.push(Icrc1TransferArg {
            to: splits[j].to.copy(),
            amount: splits[j].amount,
            fee: None,
            memo: None,
            from_subaccount,
            created_at_time: Some(now),
        });
        j = j + 1;
    }
    transfers
}

proof fn lemma_one_change_follows(before: &State, after: &State, id: Seq<char>, v: IntentView, e: Event)
    requires
        one_intent_changed(before, after, id, v, e),
        before.intent(id) matches Some(u) && (u.status == v.status || is_lifecycle_edge(u.status, v.status)),
    ensures
        follows_lifecycle(before, after),
{
    assert forall|k: Seq<char>| #[trigger] before.intent(k) is Some implies {
        &&& after.intent(k) is Some
        &&& (after.intent(k).unwrap().status == before.intent(k).unwrap().status
            || is_lifecycle_edge(before.intent(k).unwrap().status, after.intent(k).unwrap().status))
    } by {
        assert(after.intent(k) == if k == id { Some(v) } else { before.intent(k) });
    }
}

/// `to` can be reached from `from` by following lifecycle edges, zero or more
/// of them.
pub open spec fn lifecycle_reachable(from: IntentStatus, to: IntentStatus) -> bool {
    ||| from == to
    ||| is_lifecycle_edge(from, to)
    ||| from == IntentStatus::RequiresApproval && to == IntentStatus::Released
    ||| from == IntentStatus::RequiresApproval && to == IntentStatus::Refunded
}

/// Every intent of `before` is still in `after`, with a status reachable from
/// its earlier one along the lifecycle.
pub open spec fn within_lifecycle(before: &State, after: &State) -> bool {
    forall|k: Seq<char>| #[trigger] before.intent(k) is Some ==> {
        &&& after.intent(k) is Some
        &&& lifecycle_reachable(before.intent(k).unwrap().status, after.intent(k).unwrap().status)
    }
}

/// Statuses only move along the lifecycle, over any number of steps: if each
/// step from `a` to `b` kept to the lifecycle and the step from `b` to `c`
/// did too, every intent's status in `c` is reachable from its status in `a`.
pub proof fn lemma_lifecycle_steps_compose(a: &State, b: &State, c: &State)
    requires
        within_lifecycle(a, b),
        follows_lifecycle(b, c),
    ensures
        within_lifecycle(a, c),
{
    assert forall|k: Seq<char>| #[trigger] a.intent(k) is Some implies {
        &&& c.intent(k) is Some
        &&& lifecycle_reachable(a.intent(k).unwrap().status, c.intent(k).unwrap().status)
    } by {
        assert(b.intent(k) is Some);
    }
}

/// A single step that keeps to the lifecycle is a run of steps that does.
pub proof fn lemma_lifecycle_step(a: &State, b: &State)
    requires
        follows_lifecycle(a, b),
    ensures
        within_lifecycle(a, b),
{
    assert forall|k: Seq<char>| #[trigger] a.intent(k) is Some implies {
        &&& b.intent(k) is Some
        &&& lifecycle_reachable(a.intent(k).unwrap().status, b.intent(k).unwrap().status)
    } by {
    }
}

/// The whole service state: the asset registry, the intents, and the log.
pub struct State {
    pub next_seq: u64,
    pub ledgers: Vec<(String, LedgerInfo)>,
    pub intents: Vec<PaymentIntent>,
    pub log: EventLog,
}

/// The status of each intent after a step either stayed or moved along one
/// edge of the lifecycle, and no intent disappeared.
pub open spec fn follows_lifecycle(before: &State, after: &State) -> bool {
    forall|k: Seq<char>| #[trigger] before.intent(k) is Some ==> {
        &&& after.intent(k) is Some
        &&& (after.intent(k).unwrap().status == before.intent(k).unwrap().status
            || is_lifecycle_edge(before.intent(k).unwrap().status, after.intent(k).unwrap().status))
    }
}

/// `after` differs from `before` only in the intent with id `id`, which is now
/// `v`, and in one event `e` appended to the log.
pub open spec fn one_intent_changed(before: &State, after: &State, id: Seq<char>, v: IntentView, e: Event) -> bool {
    &&& after.next_seq == before.next_seq
    &&& after.ledgers == before.ledgers
    &&& forall|k: Seq<char>| #[trigger] after.intent(k) == if k == id { Some(v) } else { before.intent(k) }
    &&& after.log.events@ == before.log.events@.push(e)
}

/// `v` with its status set to `st`.
pub open spec fn with_status(v: IntentView, st: IntentStatus) -> IntentView {
    IntentView { status: st, ..v }
}

impl State {
    /// Intent ids and registry assets are unique, every id was built from a
    /// sequence number already handed out, and the log is well formed.
    pub open spec fn wf(&self) -> bool {
        &&& self.log.wf()
        &&& ids_unique(self.intents@)
        &&& assets_unique(self.ledgers@)
        &&& forall|i: int| 0 <= i < self.intents@.len()
            ==> issued_before(#[trigger] self.intents@[i].id@, self.next_seq as nat)
    }

    /// The intent with id `id`, if any.
    pub open spec fn intent(&self, id: Seq<char>) -> Option<IntentView> {
        find_intent(self.intents@, id)
    }

    /// The ledger and decimals registered for `asset`, if any.
    pub open spec fn ledger(&self, asset: Seq<char>) -> Option<(Seq<u8>, u8)> {
        find_ledger(self.ledgers@, asset)
    }

    /// An empty state.
    pub fn new() -> (r: State)
        ensures
            r.wf(),
            r.next_seq == 0,
            r.log.events@.len() == 0,
            forall|k: Seq<char>| #[trigger] r.intent(k) is None && r.ledger(k) is None,
    {
        State { next_seq: 0, ledgers: Vec::new(), intents: Vec::new(), log: EventLog::new() }
    }

    fn intent_index(&self, id: &String) -> (r: Option<usize>)
        requires
            self.wf(),
        ensures
            r is None ==> self.intent(id@) is None,
            r matches Some(i) ==> i < self.intents@.len() && self.intents@[i as int].id@ == id@
                && self.intent(id@) == Some(self.intents@[i as int]@),
    {
        let mut i: usize = 0;
        while i < self.intents.len()
            invariant
                self.wf(),
                i <= self.intents@.len(),
                forall|j: int| 0 <= j < i ==> #[trigger] self.intents@[j].id@ != id@,
            decreases self.intents@.len() - i,
        {
            if self.intents[i].id == *id {
                proof { lemma_find_intent_at(self.intents@, i as int); }
                return Some(i);
            }
            i = i + 1;
        }
        None
    }

    fn ledger_index(&self, asset: &String) -> (r: Option<usize>)
        requires
            self.wf(),
        ensures
            r is None ==> self.ledger(asset@) is None,
            r matches Some(i) ==> i < self.ledgers@.len() && self.ledgers@[i as int].0@ == asset@
                && self.ledger(asset@) == Some(self.ledgers@[i as int].1@),
    {
        let mut i: usize = 0;
        while i < self.ledgers.len()
            invariant
                self.wf(),
                i <= self.ledgers@.len(),
                forall|j: int| 0 <= j < i ==> #[trigger] self.ledgers@[j].0@ != asset@,
            decreases self.ledgers@.len() - i,
        {
            if self.ledgers[i].0 == *asset {
                proof { lemma_find_ledger_at(self.ledgers@, i as int); }
                return Some(i);
            }
            i = i + 1;
        }
        None
    }

    /// Replaces the intent at `i` by `p`, which keeps its id, and records `e`.
    fn commit(&mut self, i: usize, p: PaymentIntent, e: Event) -> (tip: [u8; 32])
        requires
            old(self).wf(),
            i < old(self).intents@.len(),
            p.id@ == old(self).intents@[i as int].id@,
        ensures
            final(self).wf(),
            one_intent_changed(old(self), final(self), p.id@, p@, e),
            tip@ == final(self).log.current_tip(),
    {
        proof { lemma_find_intent_update(self.intents@, i as int, p); }
        let ghost before = self.intents@;
        self.intents.set(i, p);
        assert forall|j: int| 0 <= j < self.intents@.len()
            implies issued_before(#[trigger] self.intents@[j].id@, self.next_seq as nat) by {
            assert(self.intents@[j].id@ == before[j].id@);
        }
        let Event { ts, kind } = e;
        self.log.append_event(ts, kind)
    }

    /// Creates an intent for `caller`, the merchant, at time `now`. Its id is
    /// `"pi_" + seq + "_" + caller + "_" + now` with the next sequence number,
    /// and its escrow is the selector derived from that id under `service`,
    /// the identity of this service.
    pub fn create_intent(&mut self, caller: &Principal, service: &Principal, now: u64, args: CreateIntentArgs)
        -> (r: Result<PaymentIntent, Error>)
        requires
            old(self).wf(),
            caller.wf(),
        ensures
            final(self).wf(),
            follows_lifecycle(old(self), final(self)),
            old(self).ledger(args.asset@) is None
                ==> r == Err::<PaymentIntent, Error>(Error::AssetNotRegistered) && *final(self) == *old(self),
            old(self).ledger(args.asset@) is Some && args.expires_at <= now
                ==> r == Err::<PaymentIntent, Error>(Error::Expired) && *final(self) == *old(self),
            old(self).ledger(args.asset@) is Some && args.expires_at > now && old(self).next_seq == u64::MAX
                ==> (r matches Err(Error::Other(_))) && *final(self) == *old(self),
            old(self).ledger(args.asset@) is Some && args.expires_at > now && old(self).next_seq < u64::MAX
                ==> (r matches Ok(p) && {
                &&& p.id@ == intent_id_of(old(self).next_seq as nat, principal_text_of(caller@), now as nat)
                &&& old(self).intent(p.id@) is None
                &&& p.merchant@ == caller@
                &&& p.payer is None
                &&& p.escrow.owner@ == service@
                &&& (p.escrow.subaccount matches Some(sub) && sub@ == escrow_of(encode_utf8(p.id@)))
                &&& p.asset@ == args.asset@
                &&& p.amount == args.amount
                &&& p.status == IntentStatus::RequiresApproval
                &&& p.created_at == now
                &&& p.expires_at == args.expires_at
                &&& p.metadata@ == args.metadata@
                &&& final(self).next_seq == old(self).next_seq + 1
                &&& final(self).ledgers == old(self).ledgers
                &&& forall|k: Seq<char>| #[trigger] final(self).intent(k)
                    == if k == p.id@ { Some(p@) } else { old(self).intent(k) }
                &&& final(self).log.events@ == old(self).log.events@.push(
                    Event { ts: now, kind: EventKind::IntentCreated { id: p.id } })
            }),
    {
        if self.ledger_index(&args.asset).is_none() {
            return Err(Error::AssetNotRegistered);
        }
        if args.expires_at <= now {
            return Err(Error::Expired);
        }
        if self.next_seq == u64::MAX {
            return Err(Error::Other(String::from_str("intent sequence exhausted")));
        }
        let seq = self.next_seq;
        let caller_text = principal_text(caller.bytes.as_slice());
        let id = build_intent_id(seq, caller_text.as_str(), now);
        let sub = derive_escrow_subaccount(id.as_str());
        let escrow = Account { owner: service.copy(), subaccount: Some(sub) };
        let CreateIntentArgs { asset, amount, expires_at, metadata } = args;
        let intent = PaymentIntent {
            id: id.clone(),
            merchant: caller.copy(),
            payer: None,
            escrow,
            asset,
            amount,
            status: IntentStatus::RequiresApproval,
            created_at: now,
            expires_at,
            metadata,
        };
        proof {
            let text = principal_text_of(caller@);
            assert forall|i: int| 0 <= i < self.intents@.len()
                implies #[trigger] self.intents@[i].id@ != id@ by {
                assert(issued_before(self.intents@[i].id@, seq as nat));
                let w = choose|s: nat, c: Seq<char>, t: nat|
                    s < seq && self.intents@[i].id@ == #[trigger] intent_id_of(s, c, t);
                if self.intents@[i].id@ == id@ {
                    lemma_intent_id_determines_seq(w.0, w.1, w.2, seq as nat, text, now as nat);
                }
            }
            lemma_find_intent_push(self.intents@, intent);
        }
        let snapshot = intent.copy();
        let ghost before = self.intents@;
        self.intents.push(intent);
        self.next_seq = seq + 1;
        proof {
            assert forall|j: int| 0 <= j < self.intents@.len()
                implies issued_before(#[trigger] self.intents@[j].id@, self.next_seq as nat) by {
                if j < before.len() {
                    assert(self.intents@[j] == before[j]);
                    let w = choose|s: nat, c: Seq<char>, t: nat|
                        s < seq && before[j].id@ == #[trigger] intent_id_of(s, c, t);
                    assert(intent_id_of(w.0, w.1, w.2) == before[j].id@);
                } else {
                    assert(intent_id_of(seq as nat, principal_text_of(caller@), now as nat) == id@);
                }
            }
        }
        self.log.append_event(now, EventKind::IntentCreated { id });
        Ok(snapshot)
    }

    /// The intent with id `id` as of time `now`. An intent still awaiting
    /// approval whose expiry has passed becomes `Expired` on this read, which
    /// records one `Expired` event; later reads record none.
    pub fn get_intent(&mut self, id: &String, now: u64) -> (r: Option<PaymentIntent>)
        requires
            old(self).wf(),
        ensures
            final(self).wf(),
            follows_lifecycle(old(self), final(self)),
            old(self).intent(id@) is None ==> r is None && *final(self) == *old(self),
            old(self).intent(id@) matches Some(v) ==> {
                if v.status == IntentStatus::RequiresApproval && v.expires_at <= now {
                    &&& one_intent_changed(old(self), final(self), id@, with_status(v, IntentStatus::Expired),
                        Event { ts: now, kind: EventKind::Expired { id: *id } })
                    &&& (r matches Some(p) && p@ == with_status(v, IntentStatus::Expired))
                } else {
                    *final(self) == *old(self) && (r matches Some(p) && p@ == v)
                }
            },
    {
        match self.intent_index(id) {
            None => None,
            Some(i) => {
                if self.intents[i].status == IntentStatus::RequiresApproval && self.intents[i].expires_at <= now {
                    let mut p = self.intents[i].copy();
                    p.status = IntentStatus::Expired;
                    let snapshot = p.copy();
                    self.commit(i, p, Event { ts: now, kind: EventKind::Expired { id: id.clone() } });
                    assert(snapshot@ =~= with_status(old(self).intents@[i as int]@, IntentStatus::Expired));
                    Some(snapshot)
                } else {
                    Some(self.intents[i].copy())
                }
            },
        }
    }

    /// Validates a capture of the intent `args.intent_id` by `caller` at time
    /// `now` and plans the transfer from the payer `args.from` to the escrow.
    /// An intent still awaiting approval whose expiry has passed becomes
    /// `Expired` here, with its event.
    pub fn prepare_capture(&mut self, caller: &Principal, now: u64, args: &CaptureArgs) -> (r: Result<CapturePlan, Error>)
        requires
            old(self).wf(),
        ensures
            final(self).wf(),
            follows_lifecycle(old(self), final(self)),
            match old(self).intent(args.intent_id@) {
                None => r == Err::<CapturePlan, Error>(Error::NotFound) && *final(self) == *old(self),
                Some(v) => if v.merchant != caller@ {
                    r == Err::<CapturePlan, Error>(Error::Unauthorized) && *final(self) == *old(self)
                } else if v.expires_at <= now {
                    &&& r == Err::<CapturePlan, Error>(Error::Expired)
                    &&& v.status == IntentStatus::RequiresApproval ==> one_intent_changed(old(self), final(self),
                        args.intent_id@, with_status(v, IntentStatus::Expired),
                        Event { ts: now, kind: EventKind::Expired { id: args.intent_id } })
                    &&& v.status != IntentStatus::RequiresApproval ==> *final(self) == *old(self)
                } else if v.status != IntentStatus::RequiresApproval {
                    r == Err::<CapturePlan, Error>(Error::InvalidState) && *final(self) == *old(self)
                } else {
                    &&& *final(self) == *old(self)
                    &&& match old(self).ledger(v.asset) {
                        None => r == Err::<CapturePlan, Error>(Error::AssetNotRegistered),
                        Some(l) => r matches Ok(plan) && plan.ledger@ == l.0
                            && is_transfer_from(plan.transfer, args.from@, v.escrow, v.amount, now),
                    }
                },
            },
    {
        let i = match self.intent_index(&args.intent_id) {
            None => return Err(Error::NotFound),
            Some(i) => i,
        };
        if !self.intents[i].merchant.same_as(caller) {
            return Err(Error::Unauthorized);
        }
        if self.intents[i].expires_at <= now {
            if self.intents[i].status == IntentStatus::RequiresApproval {
                let mut p = self.intents[i].copy();
                p.status = IntentStatus::Expired;
                assert(p@ == with_status(old(self).intents@[i as int]@, IntentStatus::Expired));
                self.commit(i, p, Event { ts: now, kind: EventKind::Expired { id: args.intent_id.clone() } });
                proof {
                    lemma_one_change_follows(old(self), self, args.intent_id@,
                        with_status(old(self).intents@[i as int]@, IntentStatus::Expired),
                        Event { ts: now, kind: EventKind::Expired { id: args.intent_id } });
                }
            }
            return Err(Error::Expired);
        }
        if self.intents[i].status != IntentStatus::RequiresApproval {
            return Err(Error::InvalidState);
        }
        let li = match self.ledger_index(&self.intents[i].asset) {
            None => return Err(Error::AssetNotRegistered),
            Some(li) => li,
        };
        let intent = &self.intents[i];
        let transfer = Icrc2TransferFromArg {
            from: args.from.copy(),
            to: intent.escrow.copy(),
            amount: intent.amount,
            fee: None,
            memo: None,
            created_at_time: Some(now),
            spender_subaccount: None,
            expected_allowance: None,
        };
        Ok(CapturePlan { ledger: self.ledgers[li].1.ledger_id.copy(), transfer })
    }

    /// Commits a capture once the ledger has answered `outcome` to the
    /// planned transfer: on success the intent, if it still awaits approval,
    /// records its payer and becomes `Succeeded`; a ledger failure is passed
    /// on as `Other` and changes nothing.
    pub fn finish_capture(&mut self, now: u64, args: &CaptureArgs, outcome: Result<(), String>) -> (r: Result<PaymentIntent, Error>)
        requires
            old(self).wf(),
        ensures
            final(self).wf(),
            follows_lifecycle(old(self), final(self)),
            outcome matches Err(d) ==> r == Err::<PaymentIntent, Error>(Error::Other(d)) && *final(self) == *old(self),
            outcome is Ok ==> match old(self).intent(args.intent_id@) {
                None => r == Err::<PaymentIntent, Error>(Error::NotFound) && *final(self) == *old(self),
                Some(v) => if v.status != IntentStatus::RequiresApproval {
                    r == Err::<PaymentIntent, Error>(Error::InvalidState) && *final(self) == *old(self)
                } else {
                    let w = IntentView { payer: Some(args.from@), status: IntentStatus::Succeeded, ..v };
                    &&& one_intent_changed(old(self), final(self), args.intent_id@, w,
                        Event { ts: now, kind: EventKind::Captured { id: args.intent_id, amount: v.amount } })
                    &&& (r matches Ok(p) && p@ == w)
                },
            },
    {
        if let Err(d) = outcome {
            return Err(Error::Other(d));
        }
        let i = match self.intent_index(&args.intent_id) {
            None => return Err(Error::NotFound),
            Some(i) => i,
        };
        if self.intents[i].status != IntentStatus::RequiresApproval {
            return Err(Error::InvalidState);
        }
        let mut p = self.intents[i].copy();
        p.payer = Some(args.from.copy());
        p.status = IntentStatus::Succeeded;
        let amount = p.amount;
        let snapshot = p.copy();
        let ghost w = IntentView { payer: Some(args.from@), status: IntentStatus::Succeeded, ..old(self).intents@[i as int]@ };
        assert(p@ == w);
        self.commit(i, p, Event { ts: now, kind: EventKind::Captured { id: args.intent_id.clone(), amount } });
        proof {
            lemma_one_change_follows(old(self), self, args.intent_id@, w,
                Event { ts: now, kind: EventKind::Captured { id: args.intent_id, amount } });
        }
        Ok(snapshot)
    }

    /// Validates a release of the intent `args.intent_id` by `caller` at time
    /// `now` and plans one transfer out of the escrow per split, in the order
    /// given. Splits whose total exceeds the captured amount are refused
    /// before any transfer is planned.
    pub fn prepare_release(&self, caller: &Principal, now: u64, args: &ReleaseArgs) -> (r: Result<ReleasePlan, Error>)
        requires
            self.wf(),
        ensures
            match self.intent(args.intent_id@) {
                None => r == Err::<ReleasePlan, Error>(Error::NotFound),
                Some(v) => if v.expires_at <= now {
                    r == Err::<ReleasePlan, Error>(Error::Expired)
                } else if v.status != IntentStatus::Succeeded {
                    r == Err::<ReleasePlan, Error>(Error::InvalidState)
                } else {
                    match self.ledger(v.asset) {
                        None => r == Err::<ReleasePlan, Error>(Error::AssetNotRegistered),
                        Some(l) => if v.merchant != caller@ {
                            r == Err::<ReleasePlan, Error>(Error::Unauthorized)
                        } else if splits_total(args.splits@) > v.amount {
                            r matches Err(Error::Other(_))
                        } else {
                            r matches Ok(plan) && {
                                &&& plan.ledger@ == l.0
                                &&& plan.total == splits_total(args.splits@)
                                &&& plan.transfers@.len() == args.splits@.len()
                                &&& forall|k: int| 0 <= k < args.splits@.len() ==> #[trigger] is_transfer(
                                    plan.transfers@[k], args.splits@[k].to@, args.splits@[k].amount,
                                    v.escrow.subaccount, now)
                            }
                        },
                    }
                },
            },
    {
        let i = match self.intent_index(&args.intent_id) {
            None => return Err(Error::NotFound),
            Some(i) => i,
        };
        let intent = &self.intents[i];
        if intent.expires_at <= now {
            return Err(Error::Expired);
        }
        if intent.status != IntentStatus::Succeeded {
            return Err(Error::InvalidState);
        }
        let li = match self.ledger_index(&intent.asset) {
            None => return Err(Error::AssetNotRegistered),
            Some(li) => li,
        };
        if !intent.merchant.same_as(caller) {
            return Err(Error::Unauthorized);
        }
        let sum = match split_total_within(&args.splits, intent.amount) {
            None => return Err(Error::Other(String::from_str("splits total exceeds captured amount"))),
            Some(sum) => sum,
        };
        let transfers = split_transfers(&args.splits, intent.escrow.subaccount, now);
        Ok(ReleasePlan { ledger: self.ledgers[li].1.ledger_id.copy(), transfers, total: sum })
    }

    /// Commits a release once every planned transfer went through (`outcome`
    /// is `Ok`): the intent, if still `Succeeded`, becomes `Released` and the
    /// release of `total` is recorded. A failed transfer is passed on as
    /// `Other` and changes nothing; transfers made before it stay made.
    pub fn finish_release(&mut self, now: u64, intent_id: &String, total: u128, outcome: Result<(), String>)
        -> (r: Result<PaymentIntent, Error>)
        requires
            old(self).wf(),
        ensures
            final(self).wf(),
            follows_lifecycle(old(self), final(self)),
            outcome matches Err(d) ==> r == Err::<PaymentIntent, Error>(Error::Other(d)) && *final(self) == *old(self),
            outcome is Ok ==> match old(self).intent(intent_id@) {
                None => r == Err::<PaymentIntent, Error>(Error::NotFound) && *final(self) == *old(self),
                Some(v) => if v.status != IntentStatus::Succeeded {
                    r == Err::<PaymentIntent, Error>(Error::InvalidState) && *final(self) == *old(self)
                } else {
                    &&& one_intent_changed(old(self), final(self), intent_id@, with_status(v, IntentStatus::Released),
                        Event { ts: now, kind: EventKind::Released { id: *intent_id, total } })
                    &&& (r matches Ok(p) && p@ == with_status(v, IntentStatus::Released))
                },
            },
    {
        if let Err(d) = outcome {
            return Err(Error::Other(d));
        }
        let i = match self.intent_index(intent_id) {
            None => return Err(Error::NotFound),
            Some(i) => i,
        };
        if self.intents[i].status != IntentStatus::Succeeded {
            return Err(Error::InvalidState);
        }
        let mut p = self.intents[i].copy();
        p.status = IntentStatus::Released;
        let snapshot = p.copy();
        let ghost w = with_status(old(self).intents@[i as int]@, IntentStatus::Released);
        assert(p@ == w);
        self.commit(i, p, Event { ts: now, kind: EventKind::Released { id: intent_id.clone(), total } });
        proof {
            lemma_one_change_follows(old(self), self, intent_id@, w,
                Event { ts: now, kind: EventKind::Released { id: *intent_id, total } });
        }
        Ok(snapshot)
    }

    /// Validates a refund of the intent `args.intent_id` by `caller` at time
    /// `now` and plans the transfer from the escrow back to the payer. Only
    /// the full captured amount can be refunded.
    pub fn prepare_refund(&self, caller: &Principal, now: u64, args: &RefundArgs) -> (r: Result<RefundPlan, Error>)
        requires
            self.wf(),
        ensures
            match self.intent(args.intent_id@) {
                None => r == Err::<RefundPlan, Error>(Error::NotFound),
                Some(v) => if v.expires_at <= now {
                    r == Err::<RefundPlan, Error>(Error::Expired)
                } else {
                    match self.ledger(v.asset) {
                        None => r == Err::<RefundPlan, Error>(Error::AssetNotRegistered),
                        Some(l) => if v.merchant != caller@ {
                            r == Err::<RefundPlan, Error>(Error::Unauthorized)
                        } else if v.status != IntentStatus::Succeeded {
                            r == Err::<RefundPlan, Error>(Error::InvalidState)
                        } else if args.amount != v.amount {
                            r matches Err(Error::Other(_))
                        } else {
                            match v.payer {
                                None => r matches Err(Error::Other(_)),
                                Some(payer) => r matches Ok(plan) && plan.ledger@ == l.0
                                    && is_transfer(plan.transfer, payer, v.amount, v.escrow.subaccount, now),
                            }
                        },
                    }
                },
            },
    {
        let i = match self.intent_index(&args.intent_id) {
            None => return Err(Error::NotFound),
            Some(i) => i,
        };
        let intent = &self.intents[i];
        if intent.expires_at <= now {
            return Err(Error::Expired);
        }
        let li = match self.ledger_index(&intent.asset) {
            None => return Err(Error::AssetNotRegistered),
            Some(li) => li,
        };
        if !intent.merchant.same_as(caller) {
            return Err(Error::Unauthorized);
        }
        if intent.status != IntentStatus::Succeeded {
            return Err(Error::InvalidState);
        }
        if args.amount != intent.amount {
            return Err(Error::Other(String::from_str("only full refund supported")));
        }
        let payer = match &intent.payer {
            None => return Err(Error::Other(String::from_str("payer unknown for refund"))),
            Some(payer) => payer.copy(),
        };
        let transfer = Icrc1TransferArg {
            to: payer,
            amount: intent.amount,
            fee: None,
            memo: None,
            from_subaccount: intent.escrow.subaccount,
            created_at_time: Some(now),
        };
        Ok(RefundPlan { ledger: self.ledgers[li].1.ledger_id.copy(), transfer })
    }

    /// Commits a refund once the ledger has answered `outcome` to the planned
    /// transfer: on success the intent, if still `Succeeded`, becomes
    /// `Refunded` and the refund of its amount is recorded; a ledger failure
    /// is passed on as `Other` and changes nothing.
    pub fn finish_refund(&mut self, now: u64, intent_id: &String, outcome: Result<(), String>)
        -> (r: Result<PaymentIntent, Error>)
        requires
            old(self).wf(),
        ensures
            final(self).wf(),
            follows_lifecycle(old(self), final(self)),
            outcome matches Err(d) ==> r == Err::<PaymentIntent, Error>(Error::Other(d)) && *final(self) == *old(self),
            outcome is Ok ==> match old(self).intent(intent_id@) {
                None => r == Err::<PaymentIntent, Error>(Error::NotFound) && *final(self) == *old(self),
                Some(v) => if v.status != IntentStatus::Succeeded {
                    r == Err::<PaymentIntent, Error>(Error::InvalidState) && *final(self) == *old(self)
                } else {
                    &&& one_intent_changed(old(self), final(self), intent_id@, with_status(v, IntentStatus::Refunded),
                        Event { ts: now, kind: EventKind::Refunded { id: *intent_id, amount: v.amount } })
                    &&& (r matches Ok(p) && p@ == with_status(v, IntentStatus::Refunded))
                },
            },
    {
        if let Err(d) = outcome {
            return Err(Error::Other(d));
        }
        let i = match self.intent_index(intent_id) {
            None => return Err(Error::NotFound),
            Some(i) => i,
        };
        if self.intents[i].status != IntentStatus::Succeeded {
            return Err(Error::InvalidState);
        }
        let mut p = self.intents[i].copy();
        p.status = IntentStatus::Refunded;
        let amount = p.amount;
        let snapshot = p.copy();
        let ghost w = with_status(old(self).intents@[i as int]@, IntentStatus::Refunded);
        assert(p@ == w);
        self.commit(i, p, Event { ts: now, kind: EventKind::Refunded { id: intent_id.clone(), amount } });
        proof {
            lemma_one_change_follows(old(self), self, intent_id@, w,
                Event { ts: now, kind: EventKind::Refunded { id: *intent_id, amount } });
        }
        Ok(snapshot)
    }

    /// Registers, or overwrites, the ledger that holds `asset`. Only an
    /// administrator may do so.
    pub fn register_ledger(&mut self, caller_is_admin: bool, asset: String, ledger_id: Principal, decimals: u8)
        -> (r: Result<(), Error>)
        requires
            old(self).wf(),
        ensures
            final(self).wf(),
            follows_lifecycle(old(self), final(self)),
            !caller_is_admin ==> r == Err::<(), Error>(Error::Unauthorized) && *final(self) == *old(self),
            caller_is_admin ==> {
                &&& r is Ok
                &&& final(self).next_seq == old(self).next_seq
                &&& final(self).intents == old(self).intents
                &&& final(self).log == old(self).log
                &&& forall|k: Seq<char>| #[trigger] final(self).ledger(k)
                    == if k == asset@ { Some((ledger_id@, decimals)) } else { old(self).ledger(k) }
            },
    {
        if !caller_is_admin {
            return Err(Error::Unauthorized);
        }
        let ghost asset_view = asset@;
        let ghost ledger_view = (ledger_id@, decimals);
        let found = self.ledger_index(&asset);
        let entry = (asset, LedgerInfo { ledger_id, decimals });
        match found {
            Some(i) => {
                proof { lemma_find_ledger_update(self.ledgers@, i as int, entry); }
                self.ledgers.set(i, entry);
            },
            None => {
                proof { lemma_find_ledger_push(self.ledgers@, entry); }
                self.ledgers.push(entry);
            },
        }
        Ok(())
    }

    /// The ledger registered for `asset`, if any.
    pub fn get_ledger(&self, asset: &String) -> (r: Option<LedgerInfo>)
        requires
            self.wf(),
        ensures
            r is None <==> self.ledger(asset@) is None,
            r matches Some(l) ==> self.ledger(asset@) == Some(l@),
    {
        match self.ledger_index(asset) {
            Some(i) => Some(self.ledgers[i].1.copy()),
            None => None,
        }
    }
}

} // verus!
