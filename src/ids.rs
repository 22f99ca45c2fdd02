use vstd::prelude::*;
use vstd::string::*;

verus! {

/// The character of a decimal digit.
pub open spec fn digit_char(d: nat) -> char {
    if d == 0 { '0' } else if d == 1 { '1' } else if d == 2 { '2' } else if d == 3 { '3' }
    else if d == 4 { '4' } else if d == 5 { '5' } else if d == 6 { '6' } else if d == 7 { '7' }
    else if d == 8 { '8' } else { '9' }
}

/// The decimal text of `n`, without leading zeros.
pub open spec fn decimal(n: nat) -> Seq<char>
    decreases n,
{
    if n < 10 {
        seq![digit_char(n)]
    } else {
        decimal(n / 10).push(digit_char(n % 10))
    }
}

/// The textual form of the principal whose bytes are `bytes`.
pub uninterp spec fn principal_text_of(bytes: Seq<u8>) -> Seq<char>;

/// The id given to the intent with sequence number `seq`, created by the caller
/// whose textual form is `caller_text` at time `now`:
/// `"pi_" + seq + "_" + caller_text + "_" + now`.
pub open spec fn intent_id_of(seq: nat, caller_text: Seq<char>, now: nat) -> Seq<char> {
    seq!['p', 'i', '_'] + decimal(seq) + seq!['_'] + caller_text + seq!['_'] + decimal(now)
}

/// Relies on `candid::Principal::from_slice` and `Principal::to_text`: the
/// textual form of a principal depends on its bytes alone. `from_slice`
/// panics above 29 bytes, which `requires` leaves out.
#[verifier::external_body]
pub(crate) fn principal_text(bytes: &[u8]) -> (r: String)
    requires
        bytes@.len() <= 29,
    ensures
        r@ == principal_text_of(bytes@),
{
    candid::Principal::from_slice(bytes).to_text()
}

fn digit_str(d: u64) -> (r: &'static str)
    requires
        d < 10,
    ensures
        r@ == seq![digit_char(d as nat)],
{
    if d == 0 { proof { reveal_strlit("0"); } "0" }
    else if d == 1 { proof { reveal_strlit("1"); } "1" }
    else if d == 2 { proof { reveal_strlit("2"); } "2" }
    else if d == 3 { proof { reveal_strlit("3"); } "3" }
    else if d == 4 { proof { reveal_strlit("4"); } "4" }
    else if d == 5 { proof { reveal_strlit("5"); } "5" }
    else if d == 6 { proof { reveal_strlit("6"); } "6" }
    else if d == 7 { proof { reveal_strlit("7"); } "7" }
    else if d == 8 { proof { reveal_strlit("8"); } "8" }
    else { proof { reveal_strlit("9"); } "9" }
}

/// Appends the decimal text of `n` to `s`.
pub(crate) fn push_decimal(s: &mut String, n: u64)
    ensures
        final(s)@ == old(s)@ + decimal(n as nat),
    decreases n,
{
    if n >= 10 {
        push_decimal(s, n / 10);
    }
    s.append(digit_str(n % 10));
    assert(final(s)@ =~= old(s)@ + decimal(n as nat));
}

/// Builds the id `"pi_" + seq + "_" + caller_text + "_" + now`.
pub(crate) fn build_intent_id(seq: u64, caller_text: &str, now: u64) -> (r: String)
    ensures
        r@ == intent_id_of(seq as nat, caller_text@, now as nat),
{
    proof { reveal_strlit("pi_"); reveal_strlit("_"); }
    let mut s = String::from_str("pi_");
    push_decimal(&mut s, seq);
    s.append("_");
    s.append(caller_text);
    s.append("_");
    push_decimal(&mut s, now);
    assert(s@ =~= intent_id_of(seq as nat, caller_text@, now as nat));
    s
}

proof fn lemma_decimal_shape(n: nat)
    ensures
        decimal(n).len() >= 1,
        n < 10 <==> decimal(n).len() == 1,
        forall|i: int| 0 <= i < decimal(n).len() ==> #[trigger] decimal(n)[i] != '_',
    decreases n,
{
    if n >= 10 {
        lemma_decimal_shape(n / 10);
        let d = decimal(n / 10);
        assert forall|i: int| 0 <= i < decimal(n).len() implies #[trigger] decimal(n)[i] != '_' by {
            if i < d.len() {
                assert(decimal(n)[i] == d[i]);
            }
        }
    }
}

proof fn lemma_decimal_injective(a: nat, b: nat)
    requires
        decimal(a) == decimal(b),
    ensures
        a == b,
    decreases a,
{
    lemma_decimal_shape(a);
    lemma_decimal_shape(b);
    if a >= 10 && b >= 10 {
        let da = decimal(a);
        assert(decimal(a / 10) =~= da.drop_last());
        assert(decimal(b / 10) =~= da.drop_last());
        lemma_decimal_injective(a / 10, b / 10);
        assert(da.last() == digit_char(a % 10));
        assert(decimal(b).last() == digit_char(b % 10));
        assert(a % 10 == b % 10);
        assert(a == 10 * (a / 10) + a % 10);
        assert(b == 10 * (b / 10) + b % 10);
        assert(a == b);
    } else if a < 10 && b < 10 {
        assert(decimal(a)[0] == digit_char(a));
        assert(decimal(b)[0] == digit_char(b));
        assert(a == b);
    } else {
        assert(decimal(a).len() != decimal(b).len());
    }
}

/// Intent ids built from different sequence numbers differ, whatever the
/// callers and times: the sequence number can be read back from the id.
pub proof fn lemma_intent_id_determines_seq(s1: nat, c1: Seq<char>, t1: nat, s2: nat, c2: Seq<char>, t2: nat)
    requires
        intent_id_of(s1, c1, t1) == intent_id_of(s2, c2, t2),
    ensures
        s1 == s2,
{
    let id = intent_id_of(s1, c1, t1);
    let d1 = decimal(s1);
    let d2 = decimal(s2);
    lemma_decimal_shape(s1);
    lemma_decimal_shape(s2);
    assert(id[3 + d1.len() as int] == '_');
    assert(intent_id_of(s2, c2, t2)[3 + d2.len() as int] == '_');
    if d1.len() < d2.len() {
        assert(intent_id_of(s2, c2, t2)[3 + d1.len() as int] == d2[d1.len() as int]);
    } else if d2.len() < d1.len() {
        assert(id[3 + d2.len() as int] == d1[d2.len() as int]);
    } else {
        assert(d1 =~= id.subrange(3, 3 + d1.len() as int));
        assert(d2 =~= intent_id_of(s2, c2, t2).subrange(3, 3 + d2.len() as int));
        lemma_decimal_injective(s1, s2);
    }
}

} // verus!
