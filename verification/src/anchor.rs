//! The anchoring protocol as a state machine.
//!
//! A root is anchored by a transaction that the signer sends to its own
//! address, with value zero and the root as payload. Four requests go to the
//! node, each after the answer to the one before: the current block number, a
//! gas estimate pinned to that block, the signature, the broadcast. The caller
//! performs each request and hands the answer back as an event; `post` decides
//! what comes next.

use vstd::prelude::*;
use crate::hash::Digest;
use crate::keys::Signer;

verus! {

/// The four requests of the protocol, in their order.
#[derive(Debug, Clone, Copy, PartialEq, Eq, Structural)]
pub enum AnchorStage {
    BlockNumber,
    GasEstimate,
    Signing,
    Broadcast,
}

/// Why an anchoring attempt ended without a transaction.
#[derive(Debug, Clone, Copy, PartialEq, Eq, Structural)]
pub enum ChainError {
    /// The request of this stage failed or timed out.
    RequestFailed(AnchorStage),
    /// An event arrived that does not answer the pending request.
    UnexpectedEvent,
}

/// A 256-bit quantity as four 64-bit words, the least significant first.
#[derive(Debug, Clone, Copy, PartialEq, Eq)]
pub struct Quantity {
    pub words: [u64; 4],
}

/// Where an anchoring attempt stands.
#[derive(Debug, Clone, Copy, PartialEq, Eq)]
pub enum AnchorState {
    /// Nothing was asked yet.
    Ready,
    /// The block number was asked for.
    AwaitingBlockNumber,
    /// The gas estimate was asked for.
    AwaitingGasEstimate,
    /// The transaction was handed over for signing.
    AwaitingSignature,
    /// The signed transaction was handed over for broadcast.
    AwaitingBroadcast,
    /// The node accepted the transaction with this identifier.
    Anchored { transaction: Digest },
    /// The attempt was given up.
    Failed { error: ChainError },
}

/// What the caller observed.
#[derive(Debug, Clone, PartialEq, Eq)]
pub enum AnchorEvent {
    /// The caller asks for the attempt to begin.
    Start,
    /// The node's current block number.
    BlockNumber(u64),
    /// The node's gas estimate.
    GasEstimate(Quantity),
    /// The signed transaction, as raw bytes.
    Signed(Vec<u8>),
    /// The identifier under which the node accepted the transaction.
    Accepted(Digest),
    /// The pending request failed or timed out.
    Failure,
}

/// What the caller is to do next.
#[derive(Debug, Clone, PartialEq, Eq)]
pub enum AnchorAction {
    /// Ask the node for its current block number.
    QueryBlockNumber,
    /// Ask for a gas estimate at `block` for a call with no sender, recipient,
    /// gas, price, value or data.
    EstimateGas { block: u64 },
    /// Sign a transaction of value zero to `to`, with `payload` as data and
    /// `gas` as its gas limit.
    Sign { to: [u8; 20], payload: Digest, gas: Quantity },
    /// Broadcast the signed transaction `raw`.
    Broadcast { raw: Vec<u8> },
    /// The root is anchored in `transaction`; nothing is left to do.
    Finish { transaction: Digest },
    /// The attempt is over with `error`; nothing is retried.
    Abort { error: ChainError },
}

/// The request that is pending in `state`, if one is.
pub open spec fn pending(state: AnchorState) -> Option<AnchorStage> {
    match state {
        AnchorState::AwaitingBlockNumber => Some(AnchorStage::BlockNumber),
        AnchorState::AwaitingGasEstimate => Some(AnchorStage::GasEstimate),
        AnchorState::AwaitingSignature => Some(AnchorStage::Signing),
        AnchorState::AwaitingBroadcast => Some(AnchorStage::Broadcast),
        _ => None,
    }
}

/// The error with which `event` ends an attempt that is in `state`, where the
/// event does not answer the pending request.
pub open spec fn refusal(state: AnchorState, event: AnchorEvent) -> ChainError {
    match (pending(state), event) {
        (Some(stage), AnchorEvent::Failure) => ChainError::RequestFailed(stage),
        _ => ChainError::UnexpectedEvent,
    }
}

/// The step of the protocol: the state and the action that follow `event` in
/// `state`, for the root `root` and a signer with the address `to`.
///
/// An event that answers the pending request moves to the next request. Any
/// other event ends the attempt. A finished attempt stays as it is and
/// repeats its outcome.
pub open spec fn step(state: AnchorState, event: AnchorEvent, root: Digest, to: [u8; 20]) -> (
    AnchorState,
    AnchorAction,
) {
    match (state, event) {
        (AnchorState::Anchored { transaction }, _) => (
            state,
            AnchorAction::Finish { transaction },
        ),
        (AnchorState::Failed { error }, _) => (state, AnchorAction::Abort { error }),
        (AnchorState::Ready, AnchorEvent::Start) => (
            AnchorState::AwaitingBlockNumber,
            AnchorAction::QueryBlockNumber,
        ),
        (AnchorState::AwaitingBlockNumber, AnchorEvent::BlockNumber(block)) => (
            AnchorState::AwaitingGasEstimate,
            AnchorAction::EstimateGas { block },
        ),
        (AnchorState::AwaitingGasEstimate, AnchorEvent::GasEstimate(gas)) => (
            AnchorState::AwaitingSignature,
            AnchorAction::Sign { to, payload: root, gas },
        ),
        (AnchorState::AwaitingSignature, AnchorEvent::Signed(raw)) => (
            AnchorState::AwaitingBroadcast,
            AnchorAction::Broadcast { raw },
        ),
        (AnchorState::AwaitingBroadcast, AnchorEvent::Accepted(transaction)) => (
            AnchorState::Anchored { transaction },
            AnchorAction::Finish { transaction },
        ),
        _ => (
            AnchorState::Failed { error: refusal(state, event) },
            AnchorAction::Abort { error: refusal(state, event) },
        ),
    }
}

/// Takes one step of the anchoring of `root` for `signer`: from the state and
/// what the caller observed to the next state and what the caller is to do.
pub fn post(state: AnchorState, event: AnchorEvent, root: &Digest, signer: &Signer) -> (out: (
    AnchorState,
    AnchorAction,
))
    ensures
        out == step(state, event, *root, signer.address_value()),
{
    let to = signer.address();
    let out = match state {
        AnchorState::Anchored { transaction } => (state, AnchorAction::Finish { transaction }),
        AnchorState::Failed { error } => (state, AnchorAction::Abort { error }),
        AnchorState::Ready => match event {
            AnchorEvent::Start => (
                AnchorState::AwaitingBlockNumber,
                AnchorAction::QueryBlockNumber,
            ),
            _ => give_up(ChainError::UnexpectedEvent),
        },
        AnchorState::AwaitingBlockNumber => match event {
            AnchorEvent::BlockNumber(block) => (
                AnchorState::AwaitingGasEstimate,
                AnchorAction::EstimateGas { block },
            ),
            AnchorEvent::Failure => give_up(ChainError::RequestFailed(AnchorStage::BlockNumber)),
            _ => give_up(ChainError::UnexpectedEvent),
        },
        AnchorState::AwaitingGasEstimate => match event {
            AnchorEvent::GasEstimate(gas) => (
                AnchorState::AwaitingSignature,
                AnchorAction::Sign { to, payload: *root, gas },
            ),
            AnchorEvent::Failure => give_up(ChainError::RequestFailed(AnchorStage::GasEstimate)),
            _ => give_up(ChainError::UnexpectedEvent),
        },
        AnchorState::AwaitingSignature => match event {
            AnchorEvent::Signed(raw) => (
                AnchorState::AwaitingBroadcast,
                AnchorAction::Broadcast { raw },
            ),
            AnchorEvent::Failure => give_up(ChainError::RequestFailed(AnchorStage::Signing)),
            _ => give_up(ChainError::UnexpectedEvent),
        },
        AnchorState::AwaitingBroadcast => match event {
            AnchorEvent::Accepted(transaction) => (
                AnchorState::Anchored { transaction },
                AnchorAction::Finish { transaction },
            ),
            AnchorEvent::Failure => give_up(ChainError::RequestFailed(AnchorStage::Broadcast)),
            _ => give_up(ChainError::UnexpectedEvent),
        },
    };
    assert(out == step(state, event, *root, to));
    out
}

/// The end of an attempt with `error`.
fn give_up(error: ChainError) -> (out: (AnchorState, AnchorAction))
    ensures
        out == (AnchorState::Failed { error }, AnchorAction::Abort { error }),
{
    (AnchorState::Failed { error }, AnchorAction::Abort { error })
}

/// Whether an attempt in `state` is over.
pub fn is_finished(state: &AnchorState) -> (out: bool)
    ensures
        out == (state is Anchored || state is Failed),
{
    match state {
        AnchorState::Anchored { .. } => true,
        AnchorState::Failed { .. } => true,
        _ => false,
    }
}

/// An attempt whose four requests are answered in order ends anchored in the
/// transaction that the node named, and asks on the way for the block number,
/// the estimate at that block, the signature of a transaction to the signer's
/// own address with the root as payload and the estimate as gas, and the
/// broadcast of what was signed.
pub proof fn lemma_answered_in_order(
    root: Digest,
    to: [u8; 20],
    block: u64,
    gas: Quantity,
    raw: Vec<u8>,
    transaction: Digest,
)
    ensures
        ({
            let s1 = step(AnchorState::Ready, AnchorEvent::Start, root, to);
            let s2 = step(s1.0, AnchorEvent::BlockNumber(block), root, to);
            let s3 = step(s2.0, AnchorEvent::GasEstimate(gas), root, to);
            let s4 = step(s3.0, AnchorEvent::Signed(raw), root, to);
            let s5 = step(s4.0, AnchorEvent::Accepted(transaction), root, to);
            &&& s1.1 == AnchorAction::QueryBlockNumber
            &&& s2.1 == (AnchorAction::EstimateGas { block })
            &&& s3.1 == (AnchorAction::Sign { to, payload: root, gas })
            &&& s4.1 == (AnchorAction::Broadcast { raw })
            &&& s5 == (AnchorState::Anchored { transaction }, AnchorAction::Finish { transaction })
        }),
{
}

/// A failed request ends the attempt at once, whatever the stage, and a
/// finished attempt never leaves its state.
pub proof fn lemma_failure_is_final(
    state: AnchorState,
    event: AnchorEvent,
    later: AnchorEvent,
    root: Digest,
    to: [u8; 20],
)
    ensures
        pending(state) is Some && event is Failure ==> step(state, event, root, to).0 == (
        AnchorState::Failed { error: ChainError::RequestFailed(pending(state)->Some_0) }),
        state is Anchored || state is Failed ==> step(state, event, root, to).0 == state,
        step(state, event, root, to).0 is Failed ==> step(
            step(state, event, root, to).0,
            later,
            root,
            to,
        ).0 == step(state, event, root, to).0,
{
}

} // verus!
