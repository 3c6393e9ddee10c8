//! What a confirmed transaction did, as read from its logs.

use vstd::prelude::*;
use vstd::string::*;
use crate::error::CoreError;
use crate::planner::OperationKind;
use crate::word::{big_endian_value, Uint256};

verus! {

/// The Keccak-256 digest of a run of bytes.
pub uninterp spec fn keccak256_digest(data: Seq<u8>) -> Seq<u8>;

/// `ethers::utils::keccak256`: the Keccak-256 digest of the bytes, which
/// depends on nothing but them.
#[verifier::external_body]
fn keccak256(data: &[u8]) -> (digest: [u8; 32])
    ensures
        digest@ == keccak256_digest(data@),
{
    ethers::utils::keccak256(data)
}

/// One log entry of a receipt: its topics, the event's signature hash first
/// and the indexed arguments after it.
#[derive(Clone, Debug)]
pub struct LogEntry {
    pub topics: Vec<[u8; 32]>,
}

/// The confirmed result of a submitted transaction.
#[derive(Clone, Debug)]
pub struct Receipt {
    pub logs: Vec<LogEntry>,
    pub gas_used: u64,
    pub block_number: u64,
}

/// What an operation came to. A batch of which only a part succeeded is no
/// error: it shows as a smaller `succeeded_count`.
#[derive(Clone, Debug)]
pub struct OperationOutcome {
    pub requested_count: u64,
    pub succeeded_count: u64,
    pub created_ids: Vec<Uint256>,
    pub gas_used: u64,
}

/// The event that the contract emits for each position it creates.
pub open spec fn position_created_signature() -> Seq<char> {
    "PositionCreated(uint256,int24,int24,uint128)"@
}

/// The first topic of the logs of an event: the digest of its signature.
pub open spec fn event_topic_of(signature: Seq<char>) -> Seq<u8> {
    keccak256_digest(vstd::utf8::encode_utf8(signature))
}

/// Whether a log entry reports one unit of the operation: its first topic is
/// the event's, and an indexed argument follows.
pub open spec fn is_unit_event(log: LogEntry, topic: Seq<u8>) -> bool {
    log.topics@.len() >= 2 && log.topics@[0]@ == topic
}

/// The identifiers that the logs report, in the order of the logs: for each
/// entry of the event, its second topic read as a number, most significant
/// byte first.
pub open spec fn reported_ids(logs: Seq<LogEntry>, topic: Seq<u8>) -> Seq<nat>
    decreases logs.len(),
{
    if logs.len() == 0 {
        Seq::empty()
    } else if is_unit_event(logs.last(), topic) {
        reported_ids(logs.drop_last(), topic).push(big_endian_value(logs.last().topics@[1]@))
    } else {
        reported_ids(logs.drop_last(), topic)
    }
}

/// The numbers that a run of words holds.
pub open spec fn word_values(words: Seq<Uint256>) -> Seq<nat> {
    Seq::new(words.len(), |i: int| words[i]@)
}

impl OperationKind {
    /// The signature of the event that the contract emits once per unit of
    /// the operation, where it emits one. Only adding liquidity has such an
    /// event; of the other operations the logs tell nothing per unit.
    pub open spec fn completion_event(self) -> Option<Seq<char>> {
        match self {
            OperationKind::AddLiquidity => Some(position_created_signature()),
            _ => None,
        }
    }

    /// The event that reports each unit of the operation, if there is one.
    pub fn completion_signature(&self) -> (signature: Option<&'static str>)
        ensures
            signature is Some <==> self.completion_event() is Some,
            signature is Some ==> signature->0@ == self.completion_event()->0,
    {
        match self {
            OperationKind::AddLiquidity => Some("PositionCreated(uint256,int24,int24,uint128)"),
            _ => None,
        }
    }
}

impl OperationOutcome {
    /// The identifiers of the positions created, as numbers.
    pub open spec fn created(&self) -> Seq<nat> {
        word_values(self.created_ids@)
    }

    /// What decoding gives for logs, given the first topic of the event that
    /// counts, or `None` where the operation has no such event. With an
    /// event, every entry of it counts as one success, whatever was
    /// requested. Without one, all that was requested is taken as done.
    pub open spec fn decodes(
        &self,
        topic: Option<Seq<u8>>,
        logs: Seq<LogEntry>,
        gas_used: u64,
        requested_count: u64,
    ) -> bool {
        &&& self.requested_count == requested_count
        &&& self.gas_used == gas_used
        &&& match topic {
            Some(t) => self.created() == reported_ids(logs, t) && self.succeeded_count
                == reported_ids(logs, t).len(),
            None => self.created().len() == 0 && self.succeeded_count == requested_count,
        }
    }
}

/// The first topic of the logs of the event with this signature.
pub fn event_topic(signature: &str) -> (topic: [u8; 32])
    ensures
        topic@ == event_topic_of(signature@),
{
    keccak256(signature.as_bytes())
}

/// Whether two topics are the same 32 bytes.
pub fn same_topic(a: &[u8; 32], b: &[u8; 32]) -> (same: bool)
    ensures
        same == (a@ == b@),
{
    let mut i: usize = 0;
    while i < 32
        invariant
            i <= 32,
            forall|j: int| 0 <= j < i ==> a@[j] == b@[j],
        decreases 32 - i,
    {
        if a[i] != b[i] {
            return false;
        }
        i = i + 1;
    }
    assert(a@ =~= b@);
    true
}

/// Reads the outcome of an operation from the logs of its receipt, given
/// the first topic of the event that reports one unit.
pub fn decode_with_event(
    topic: Option<&[u8; 32]>,
    logs: &Vec<LogEntry>,
    gas_used: u64,
    requested_count: u64,
) -> (outcome: OperationOutcome)
    ensures
        outcome.decodes(
            match topic {
                Some(t) => Some(t@),
                None => None,
            },
            logs@,
            gas_used,
            requested_count,
        ),
{
    let mut created_ids: Vec<Uint256> = Vec::new();
    match topic {
        None => {
            OperationOutcome { requested_count, succeeded_count: requested_count, created_ids, gas_used }
        },
        Some(t) => {
            let mut i: usize = 0;
            while i < logs.len()
                invariant
                    i <= logs.len(),
                    word_values(created_ids@) == reported_ids(logs@.take(i as int), t@),
                    created_ids@.len() <= i,
                decreases logs.len() - i,
            {
                let log = &logs[i];
                proof {
                    assert(logs@.take(i + 1).drop_last() =~= logs@.take(i as int));
                    assert(logs@.take(i + 1).last() == logs@[i as int]);
                }
                if log.topics.len() >= 2 && same_topic(&log.topics[0], t) {
                    let id = Uint256::from_big_endian(&log.topics[1]);
                    let ghost before = created_ids@;
                    created_ids.push(id);
                    proof {
                        assert(word_values(created_ids@) =~= word_values(before).push(id@));
                    }
                }
                i = i + 1;
            }
            proof {
                assert(logs@.take(logs.len() as int) =~= logs@);
            }
            let succeeded_count: u64 = created_ids.len() as u64;
            OperationOutcome { requested_count, succeeded_count, created_ids, gas_used }
        },
    }
}

/// Reads the outcome of an operation from the logs of its receipt.
pub fn decode_outcome(
    kind: OperationKind,
    logs: &Vec<LogEntry>,
    gas_used: u64,
    requested_count: u64,
) -> (outcome: OperationOutcome)
    ensures
        outcome.decodes(
            match kind.completion_event() {
                Some(signature) => Some(event_topic_of(signature)),
                None => None,
            },
            logs@,
            gas_used,
            requested_count,
        ),
{
    match kind.completion_signature() {
        Some(signature) => {
            let topic = event_topic(signature);
            decode_with_event(Some(&topic), logs, gas_used, requested_count)
        },
        None => decode_with_event(None, logs, gas_used, requested_count),
    }
}

/// Reads the outcome of a submission: of a receipt what its logs tell, of a
/// failed submission the transport error.
pub fn decode_submission(
    kind: OperationKind,
    submission: &Result<Receipt, String>,
    requested_count: u64,
) -> (result: Result<OperationOutcome, CoreError>)
    ensures
        match result {
            Ok(outcome) => submission is Ok && outcome.decodes(
                match kind.completion_event() {
                    Some(signature) => Some(event_topic_of(signature)),
                    None => None,
                },
                submission->Ok_0.logs@,
                submission->Ok_0.gas_used,
                requested_count,
            ),
            Err(e) => submission is Err && e == CoreError::TransportError,
        },
{
    match submission {
        Ok(receipt) => Ok(decode_outcome(kind, &receipt.logs, receipt.gas_used, requested_count)),
        Err(_) => Err(CoreError::TransportError),
    }
}

/// What is decoded where an event counts does not depend on how many units
/// were requested: the identifiers and the number of successes are those of
/// the logs alone.
pub proof fn lemma_decoding_ignores_request(
    a: OperationOutcome,
    b: OperationOutcome,
    topic: Seq<u8>,
    logs: Seq<LogEntry>,
    gas_a: u64,
    gas_b: u64,
    requested_a: u64,
    requested_b: u64,
)
    requires
        a.decodes(Some(topic), logs, gas_a, requested_a),
        b.decodes(Some(topic), logs, gas_b, requested_b),
    ensures
        a.created() == b.created(),
        a.succeeded_count == b.succeeded_count,
{
}

/// No more successes are reported than there are log entries, and one
/// identifier for each success.
pub proof fn lemma_reported_ids_bounded(logs: Seq<LogEntry>, topic: Seq<u8>)
    ensures
        reported_ids(logs, topic).len() <= logs.len(),
    decreases logs.len(),
{
    if logs.len() > 0 {
        lemma_reported_ids_bounded(logs.drop_last(), topic);
    }
}

} // verus!
