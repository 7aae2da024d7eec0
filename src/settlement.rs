//! The settlement protocol: a notice of incoming value is answered at once or
//! by a deferred request, and the request's result, a payout mapping, is
//! turned into one transfer per recipient.
use vstd::prelude::*;
use crate::decimal::{parse_spec, parse_decimal};

verus! {

/// The instruction that declines a settlement: the value is kept by nobody
/// and handed back to the caller.
pub const DECLINE_MSG: &'static str = "take-my-money";

/// Gas kept back for the notification itself and for issuing its request.
pub const GAS_FOR_DAO_TRANSFER: u64 = 10_000_000_000_000;

/// Attached to the deferred request: no value.
pub const NO_DEPOSIT: u128 = 0;

/// The settlement contract: it answers only the one trusted issuer.
#[derive(Debug, Clone)]
pub struct DAOpay {
    dao_account_id: String,
}

impl View for DAOpay {
    type V = Seq<char>;

    /// The trusted issuer's account.
    closed spec fn view(&self) -> Seq<char> {
        self.dao_account_id@
    }
}

/// A deferred call of `value_please` on the contract itself.
#[derive(Debug, Clone)]
pub struct ValueRequest {
    /// The instruction, handed on unchanged.
    pub amount_to_return: String,
    /// The gas forwarded to the call.
    pub gas: u64,
    /// The value attached to the call.
    pub deposit: u128,
}

/// How a notice of incoming value is answered.
#[derive(Debug, Clone)]
pub enum TransferReply {
    /// An immediate answer: this much of the value is kept.
    Value(u128),
    /// The answer comes from a deferred request.
    Deferred(ValueRequest),
}

/// The prior step's result, as the host hands it to the callback.
#[derive(Debug, Clone)]
pub enum PromiseOutcome {
    /// The prior step has not finished.
    NotReady,
    /// The prior step failed.
    Failed,
    /// The prior step succeeded with these bytes.
    Successful(Vec<u8>),
}

/// One outbound transfer.
#[derive(Debug, Clone)]
pub struct Transfer {
    /// The recipient's account.
    pub receiver_id: String,
    /// The amount paid.
    pub amount: u128,
}

/// The instruction declines the settlement.
pub fn is_decline(msg: &String) -> (r: bool)
    ensures
        r == (msg@ == DECLINE_MSG@),
{
    let decline = DECLINE_MSG.to_owned();
    *msg == decline
}

/// A notice with this instruction and this prepaid gas can be answered: the
/// decline needs no gas, a deferred request needs what the notice keeps back.
pub open spec fn gas_suffices(msg: Seq<char>, prepaid_gas: u64) -> bool {
    msg != DECLINE_MSG@ ==> prepaid_gas >= GAS_FOR_DAO_TRANSFER
}

/// Whether a notice with instruction `msg` and `prepaid_gas` can be answered.
pub fn has_gas_for(msg: &String, prepaid_gas: u64) -> (r: bool)
    ensures
        r == gas_suffices(msg@, prepaid_gas),
{
    is_decline(msg) || prepaid_gas >= GAS_FOR_DAO_TRANSFER
}

/// Only the contract itself may invoke the settlement callback.
pub fn callback_allowed(predecessor_id: &String, current_account_id: &String) -> (r: bool)
    ensures
        r == (predecessor_id@ == current_account_id@),
{
    *predecessor_id == *current_account_id
}

impl DAOpay {
    /// Sets up the contract for the trusted issuer `dao_account_id`. Setting
    /// up a contract that already holds state is fatal, and is left to the
    /// host.
    pub fn new(dao_account_id: String) -> (r: DAOpay)
        ensures
            r@ == dao_account_id@,
    {
        DAOpay { dao_account_id }
    }

    /// Whether `predecessor_id` is the trusted issuer.
    pub fn is_trusted(&self, predecessor_id: &String) -> (r: bool)
        ensures
            r == (predecessor_id@ == self@),
    {
        *predecessor_id == self.dao_account_id
    }

    /// Answers a notice that `sender_id` sent `amount`, with instruction
    /// `msg`, delivered by `predecessor_id` with `prepaid_gas` attached. Only
    /// the trusted issuer may deliver a notice: any other caller is a fatal
    /// error, ruled out here. The decline instruction is answered at once
    /// with `0`; any other is handed unchanged to one deferred request, which
    /// gets all the gas but what the notice keeps back.
    pub fn pay_on_transfer(
        &mut self,
        predecessor_id: &String,
        sender_id: String,
        amount: u128,
        msg: String,
        prepaid_gas: u64,
    ) -> (r: TransferReply)
        requires
            predecessor_id@ == old(self)@,
            gas_suffices(msg@, prepaid_gas),
        ensures
            final(self)@ == old(self)@,
            msg@ == DECLINE_MSG@ ==> r == TransferReply::Value(0),
            msg@ != DECLINE_MSG@ ==> (r matches TransferReply::Deferred(q)
                && q.amount_to_return@ == msg@ && q.gas == prepaid_gas - GAS_FOR_DAO_TRANSFER
                && q.deposit == NO_DEPOSIT),
    {
        if is_decline(&msg) {
            return TransferReply::Value(0);
        }
        TransferReply::Deferred(
            ValueRequest {
                amount_to_return: msg,
                gas: prepaid_gas - GAS_FOR_DAO_TRANSFER,
                deposit: NO_DEPOSIT,
            },
        )
    }
}

/// The largest amount.
pub const MAX_AMOUNT: u128 = 0xffff_ffff_ffff_ffff_ffff_ffff_ffff_ffffu128;

/// The result of the payout computation: turns its instruction into the
/// amount to settle.
pub trait ValueReturnTrait {
    /// Reads `amount_to_return` as an unsigned 128-bit integer. Text that
    /// is not one is a fatal error, ruled out here.
    fn value_please(&self, amount_to_return: String) -> (r: u128)
        requires
            parse_spec(amount_to_return@, MAX_AMOUNT as nat) is Ok,
        ensures
            parse_spec(amount_to_return@, MAX_AMOUNT as nat) == Ok::<
                nat,
                crate::decimal::IntParseError,
            >(r as nat),
    ;
}

impl ValueReturnTrait for DAOpay {
    fn value_please(&self, amount_to_return: String) -> (r: u128) {
        match parse_decimal(amount_to_return.as_str(), MAX_AMOUNT) {
            Ok(v) => v,
            Err(_) => 0,
        }
    }
}

/// What a JSON object of strings decodes to: its members, by name.
pub uninterp spec fn json_string_map(bytes: Seq<u8>) -> Option<Map<Seq<char>, Seq<char>>>;

/// No two entries share a name.
pub open spec fn names_distinct(v: Seq<(String, String)>) -> bool {
    forall|i: int, j: int| 0 <= i < j < v.len() ==> v[i].0@ != v[j].0@
}

/// The entries are the members of `m`, each once.
pub open spec fn lists_members(v: Seq<(String, String)>, m: Map<Seq<char>, Seq<char>>) -> bool {
    &&& names_distinct(v)
    &&& forall|i: int|
        0 <= i < v.len() ==> #[trigger] m.contains_key(v[i].0@) && m[v[i].0@] == v[i].1@
    &&& forall|k: Seq<char>| #[trigger]
        m.contains_key(k) ==> exists|i: int| 0 <= i < v.len() && v[i].0@ == k
}

/// Relies on `serde_json::from_slice` into a `HashMap<String, String>`: it
/// succeeds on the same bytes every time, with the same members, and the
/// map hands out each member once.
#[verifier::external_body]
fn decode_string_map(bytes: &[u8]) -> (r: Option<Vec<(String, String)>>)
    ensures
        r is Some <==> json_string_map(bytes@) is Some,
        r matches Some(v) ==> lists_members(v@, json_string_map(bytes@)->0),
{
    match serde_json::from_slice::<std::collections::HashMap<String, String>>(bytes) {
        Ok(m) => Some(m.into_iter().collect()),
        Err(_) => None,
    }
}

/// Every member of the mapping is an amount.
pub open spec fn amounts_valid(m: Map<Seq<char>, Seq<char>>) -> bool {
    forall|k: Seq<char>| #[trigger]
        m.contains_key(k) ==> parse_spec(m[k], MAX_AMOUNT as nat) is Ok
}

/// The transfers pay each member of the mapping its amount, once.
pub open spec fn pays_exactly(ts: Seq<Transfer>, m: Map<Seq<char>, Seq<char>>) -> bool {
    &&& forall|i: int, j: int|
        0 <= i < j < ts.len() ==> ts[i].receiver_id@ != ts[j].receiver_id@
    &&& forall|i: int|
        0 <= i < ts.len() ==> #[trigger] m.contains_key(ts[i].receiver_id@) && parse_spec(
            m[ts[i].receiver_id@],
            MAX_AMOUNT as nat,
        ) == Ok::<nat, crate::decimal::IntParseError>(ts[i].amount as nat)
    &&& forall|k: Seq<char>| #[trigger]
        m.contains_key(k) ==> exists|i: int| 0 <= i < ts.len() && ts[i].receiver_id@ == k
}

/// Transfers that pay each member of a mapping its amount once are exactly
/// as many as the mapping has members: none is dropped, none is paid twice.
pub proof fn lemma_one_transfer_per_member(ts: Seq<Transfer>, m: Map<Seq<char>, Seq<char>>)
    requires
        pays_exactly(ts, m),
    ensures
        m.dom().finite(),
        m.dom().len() == ts.len(),
{
    let ids = ts.map_values(|t: Transfer| t.receiver_id@);
    assert(ids.no_duplicates()) by {
        assert forall|i: int, j: int|
            0 <= i < ids.len() && 0 <= j < ids.len() && i != j implies ids[i] != ids[j] by {
            if i < j {
                assert(ts[i].receiver_id@ != ts[j].receiver_id@);
            } else {
                assert(ts[j].receiver_id@ != ts[i].receiver_id@);
            }
        }
    }
    ids.unique_seq_to_set();
    assert forall|k: Seq<char>| #[trigger] m.dom().contains(k) <==> ids.to_set().contains(k) by {
        if m.contains_key(k) {
            let i = choose|i: int| 0 <= i < ts.len() && ts[i].receiver_id@ == k;
            assert(ids[i] == k);
        }
        if ids.contains(k) {
            let i = choose|i: int| 0 <= i < ids.len() && ids[i] == k;
            assert(m.contains_key(ts[i].receiver_id@));
        }
    }
    assert(m.dom() =~= ids.to_set());
    vstd::seq_lib::seq_to_set_is_finite(ids);
}

/// Turns decoded payout entries into transfers, one per entry and in the same
/// order, if every amount reads as an unsigned 128-bit integer.
pub fn payouts_from_entries(entries: Vec<(String, String)>) -> (r: Option<Vec<Transfer>>)
    ensures
        r is Some <==> forall|i: int|
            0 <= i < entries@.len() ==> parse_spec(#[trigger] entries@[i].1@, MAX_AMOUNT as nat) is Ok,
        r matches Some(ts) ==> ts@.len() == entries@.len() && forall|i: int|
            0 <= i < ts@.len() ==> #[trigger] ts@[i].receiver_id@ == entries@[i].0@
                && parse_spec(entries@[i].1@, MAX_AMOUNT as nat) == Ok::<
                nat,
                crate::decimal::IntParseError,
            >(ts@[i].amount as nat),
{
    let mut ts: Vec<Transfer> = Vec::new();
    let n = entries.len();
    let mut i: usize = 0;
    while i < n
        invariant
            n == entries@.len(),
            0 <= i <= n,
            ts@.len() == i,
            forall|j: int|
                0 <= j < i ==> parse_spec(#[trigger] entries@[j].1@, MAX_AMOUNT as nat) is Ok,
            forall|j: int|
                0 <= j < i ==> #[trigger] ts@[j].receiver_id@ == entries@[j].0@ && parse_spec(
                    entries@[j].1@,
                    MAX_AMOUNT as nat,
                ) == Ok::<nat, crate::decimal::IntParseError>(ts@[j].amount as nat),
        decreases n - i,
    {
        let amount = match parse_decimal(entries[i].1.as_str(), MAX_AMOUNT) {
            Ok(v) => v,
            Err(_) => {
                return None;
            },
        };
        ts.push(Transfer { receiver_id: entries[i].0.clone(), amount });
        i = i + 1;
    }
    Some(ts)
}

/// The bytes are a payout mapping: a JSON object whose members are all amounts.
pub open spec fn payout_decodes(bytes: Seq<u8>) -> bool {
    json_string_map(bytes) is Some && amounts_valid(json_string_map(bytes)->0)
}

/// Reads a payout mapping, a JSON object from recipient to amount written
/// in decimal, and gives the transfers that pay it: one per recipient, each
/// for its amount. `None` where the bytes are not such a mapping.
pub fn decode_payouts(bytes: &[u8]) -> (r: Option<Vec<Transfer>>)
    ensures
        r is Some <==> payout_decodes(bytes@),
        r matches Some(ts) ==> pays_exactly(ts@, json_string_map(bytes@)->0),
{
    let entries = match decode_string_map(bytes) {
        Some(v) => v,
        None => {
            return None;
        },
    };
    let ghost m = json_string_map(bytes@)->0;
    let ghost ev = entries@;
    match payouts_from_entries(entries) {
        Some(ts) => {
            assert forall|k: Seq<char>| #[trigger] m.contains_key(k) implies parse_spec(
                m[k],
                MAX_AMOUNT as nat,
            ) is Ok by {
                let i = choose|i: int| 0 <= i < ev.len() && ev[i].0@ == k;
                assert(parse_spec(ev[i].1@, MAX_AMOUNT as nat) is Ok);
            }
            assert forall|k: Seq<char>| #[trigger]
                m.contains_key(k) implies exists|i: int|
                0 <= i < ts@.len() && ts@[i].receiver_id@ == k by {
                let i = choose|i: int| 0 <= i < ev.len() && ev[i].0@ == k;
                assert(ts@[i].receiver_id@ == k);
            }
            Some(ts)
        },
        None => {
            proof {
                let i = choose|i: int|
                    0 <= i < ev.len() && !(parse_spec(#[trigger] ev[i].1@, MAX_AMOUNT as nat) is Ok);
                assert(m.contains_key(ev[i].0@));
            }
            None
        },
    }
}

/// The prior step succeeded with a payout mapping.
pub open spec fn settles(prior: PromiseOutcome) -> bool {
    prior matches PromiseOutcome::Successful(b) && payout_decodes(b@)
}

impl DAOpay {
    /// The callback of the settlement: reads the payout mapping that the
    /// prior step produced and gives the transfers that pay it, one per
    /// recipient, each for its listed amount. A prior step that has not
    /// finished, has failed, or gave no payout mapping is fatal, and is ruled
    /// out here.
    pub fn make_payouts(&mut self, prior: PromiseOutcome) -> (r: Vec<Transfer>)
        requires
            settles(prior),
        ensures
            final(self)@ == old(self)@,
            prior matches PromiseOutcome::Successful(b) && pays_exactly(
                r@,
                json_string_map(b@)->0,
            ),
    {
        match prior {
            PromiseOutcome::Successful(b) => match decode_payouts(b.as_slice()) {
                Some(ts) => ts,
                None => Vec::new(),
            },
            _ => Vec::new(),
        }
    }

    /// Runs the callback where the prior step succeeded with a payout
    /// mapping; `None`, with nothing paid, where it did not.
    pub fn try_make_payouts(&mut self, prior: PromiseOutcome) -> (r: Option<Vec<Transfer>>)
        ensures
            final(self)@ == old(self)@,
            r is Some <==> settles(prior),
            r matches Some(ts) ==> (prior matches PromiseOutcome::Successful(b) && pays_exactly(
                ts@,
                json_string_map(b@)->0,
            )),
    {
        let ok = match &prior {
            PromiseOutcome::Successful(b) => decode_payouts(b.as_slice()).is_some(),
            _ => false,
        };
        if ok {
            Some(self.make_payouts(prior))
        } else {
            None
        }
    }
}

} // verus!
