use vstd::prelude::*;

verus! {

/// An opaque caller or service identity, held as its raw bytes.
pub struct Principal {
    pub bytes: Vec<u8>,
}

impl View for Principal {
    type V = Seq<u8>;

    open spec fn view(&self) -> Seq<u8> {
        self.bytes@
    }
}

impl Principal {
    /// A principal holds at most 29 bytes.
    pub open spec fn wf(&self) -> bool {
        self@.len() <= 29
    }

    /// The principal with the given bytes, or `None` when there are more than 29.
    pub fn from_bytes(bytes: Vec<u8>) -> (r: Option<Principal>)
        ensures
            r is Some <==> bytes@.len() <= 29,
            r matches Some(p) ==> p@ == bytes@,
    {
        if bytes.len() <= 29 {
            Some(Principal { bytes })
        } else {
            None
        }
    }

    /// A copy of the same identity.
    pub fn copy(&self) -> (r: Principal)
        ensures
            r@ == self@,
    {
        Principal { bytes: self.bytes.clone() }
    }

    /// Whether the two principals are the same identity.
    pub fn same_as(&self, other: &Principal) -> (r: bool)
        ensures
            r == (self@ == other@),
    {
        if self.bytes.len() != other.bytes.len() {
            return false;
        }
        let mut i: usize = 0;
        while i < self.bytes.len()
            invariant
                self.bytes@.len() == other.bytes@.len(),
                i <= self.bytes@.len(),
                forall|k: int| 0 <= k < i ==> self.bytes@[k] == other.bytes@[k],
            decreases self.bytes@.len() - i,
        {
            if self.bytes[i] != other.bytes[i] {
                return false;
            }
            i = i + 1;
        }
        assert(self.bytes@ =~= other.bytes@);
        true
    }
}

/// An address at a ledger: an owner and an optional 32-byte selector.
pub struct Account {
    pub owner: Principal,
    pub subaccount: Option<[u8; 32]>,
}

/// An account as a value: the owner's bytes and the selector.
pub struct AccountView {
    pub owner: Seq<u8>,
    pub subaccount: Option<[u8; 32]>,
}

impl View for Account {
    type V = AccountView;

    open spec fn view(&self) -> AccountView {
        AccountView { owner: self.owner@, subaccount: self.subaccount }
    }
}

impl Account {
    /// A field-by-field copy.
    pub fn copy(&self) -> (r: Account)
        ensures
            r@ == self@,
    {
        Account { owner: self.owner.copy(), subaccount: self.subaccount }
    }
}

/// The ledger service that holds one asset, and the asset's decimals.
pub struct LedgerInfo {
    pub ledger_id: Principal,
    pub decimals: u8,
}

impl View for LedgerInfo {
    type V = (Seq<u8>, u8);

    open spec fn view(&self) -> (Seq<u8>, u8) {
        (self.ledger_id@, self.decimals)
    }
}

impl LedgerInfo {
    /// A field-by-field copy.
    pub fn copy(&self) -> (r: LedgerInfo)
        ensures
            r@ == self@,
    {
        LedgerInfo { ledger_id: self.ledger_id.copy(), decimals: self.decimals }
    }
}

/// Where an intent stands in its lifecycle.
#[derive(Clone, Copy, Debug, PartialEq, Eq, Structural)]
pub enum IntentStatus {
    RequiresApproval,
    Succeeded,
    Released,
    Refunded,
    Expired,
}

/// The lifecycle's edges: `RequiresApproval` to `Succeeded` or `Expired`,
/// `Succeeded` to `Released` or `Refunded`. No other move is allowed.
pub open spec fn is_lifecycle_edge(from: IntentStatus, to: IntentStatus) -> bool {
    ||| from == IntentStatus::RequiresApproval && to == IntentStatus::Succeeded
    ||| from == IntentStatus::RequiresApproval && to == IntentStatus::Expired
    ||| from == IntentStatus::Succeeded && to == IntentStatus::Released
    ||| from == IntentStatus::Succeeded && to == IntentStatus::Refunded
}

/// A merchant's request to escrow, then settle, an amount of one asset.
pub struct PaymentIntent {
    pub id: String,
    pub merchant: Principal,
    pub payer: Option<Account>,
    pub escrow: Account,
    pub asset: String,
    pub amount: u128,
    pub status: IntentStatus,
    pub created_at: u64,
    pub expires_at: u64,
    pub metadata: Vec<(String, String)>,
}

/// An intent as a value, field by field.
pub struct IntentView {
    pub id: Seq<char>,
    pub merchant: Seq<u8>,
    pub payer: Option<AccountView>,
    pub escrow: AccountView,
    pub asset: Seq<char>,
    pub amount: u128,
    pub status: IntentStatus,
    pub created_at: u64,
    pub expires_at: u64,
    pub metadata: Seq<(String, String)>,
}

/// The view of an optional account.
pub open spec fn account_opt_view(a: Option<Account>) -> Option<AccountView> {
    match a {
        Some(acc) => Some(acc@),
        None => None,
    }
}

impl View for PaymentIntent {
    type V = IntentView;

    open spec fn view(&self) -> IntentView {
        IntentView {
            id: self.id@,
            merchant: self.merchant@,
            payer: account_opt_view(self.payer),
            escrow: self.escrow@,
            asset: self.asset@,
            amount: self.amount,
            status: self.status,
            created_at: self.created_at,
            expires_at: self.expires_at,
            metadata: self.metadata@,
        }
    }
}

pub(crate) fn copy_metadata(m: &Vec<(String, String)>) -> (r: Vec<(String, String)>)
    ensures
        r@ == m@,
{
    let mut r: Vec<(String, String)> = Vec::new();
    let mut i: usize = 0;
    while i < m.len()
        invariant
            i <= m@.len(),
            r@ == m@.subrange(0, i as int),
        decreases m@.len() - i,
    {
        let pair = (m[i].0.clone(), m[i].1.clone());
        r.push(pair);
        i = i + 1;
        assert(r@ =~= m@.subrange(0, i as int));
    }
    assert(m@.subrange(0, m@.len() as int) =~= m@);
    r
}

impl PaymentIntent {
    /// A field-by-field copy.
    pub fn copy(&self) -> (r: PaymentIntent)
        ensures
            r@ == self@,
            r.id == self.id,
    {
        let payer = match &self.payer {
            Some(a) => Some(a.copy()),
            None => None,
        };
        PaymentIntent {
            id: self.id.clone(),
            merchant: self.merchant.copy(),
            payer,
            escrow: self.escrow.copy(),
            asset: self.asset.clone(),
            amount: self.amount,
            status: self.status,
            created_at: self.created_at,
            expires_at: self.expires_at,
            metadata: copy_metadata(&self.metadata),
        }
    }
}

/// What a merchant supplies to create an intent.
pub struct CreateIntentArgs {
    pub asset: String,
    pub amount: u128,
    pub expires_at: u64,
    pub metadata: Vec<(String, String)>,
}

/// The request to capture an intent's funds from a payer.
pub struct CaptureArgs {
    pub intent_id: String,
    pub from: Account,
}

/// One beneficiary of a release and the amount it receives.
pub struct Split {
    pub to: Account,
    pub amount: u128,
}

/// The request to release an intent's escrowed funds to beneficiaries.
pub struct ReleaseArgs {
    pub intent_id: String,
    pub splits: Vec<Split>,
}

/// The request to refund an intent's escrowed funds to its payer.
pub struct RefundArgs {
    pub intent_id: String,
    pub amount: u128,
}

/// A transfer out of one of this service's escrow selectors.
pub struct Icrc1TransferArg {
    pub to: Account,
    pub amount: u128,
    pub fee: Option<u128>,
    pub memo: Option<Vec<u8>>,
    pub from_subaccount: Option<[u8; 32]>,
    pub created_at_time: Option<u64>,
}

/// A transfer from a payer's account, on this service's allowance.
pub struct Icrc2TransferFromArg {
    pub from: Account,
    pub to: Account,
    pub amount: u128,
    pub fee: Option<u128>,
    pub memo: Option<Vec<u8>>,
    pub created_at_time: Option<u64>,
    pub spender_subaccount: Option<Vec<u8>>,
    pub expected_allowance: Option<u128>,
}

/// Why an operation was refused or did not complete.
#[derive(Debug)]
pub enum Error {
    AssetNotRegistered,
    NotFound,
    InvalidState,
    Expired,
    Unauthorized,
    /// Failure detail from a ledger call, or a rule of this service that the
    /// request broke; for diagnostics only.
    Other(String),
}

} // verus!
