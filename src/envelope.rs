//! Envelopes: a payload with its sender's provenance and an optional ack nonce.
use vstd::prelude::*;
use crate::address::ActorAddress;
use crate::uri::{direct_parent, lemma_direct_parent_irreflexive};

verus! {

/// Who sent an envelope. The address is carried only where the receiver cannot
/// derive it.
#[derive(Clone, Debug)]
pub enum SenderKind<M> {
    Actor(ActorAddress<M>),
    /// Sent by the runtime itself; there is no sender address.
    System,
    /// Sent by the receiver's parent.
    Parent,
    /// Sent by the receiver to itself.
    SentToSelf,
}

/// A payload in transit, with its provenance and, for acknowledged sends, a nonce.
pub struct Envelope<M, P> {
    pub sender: SenderKind<M>,
    pub payload: P,
    pub ack_nonce: Option<u32>,
}

/// The sender kind an envelope from `from` to `to` carries.
pub open spec fn classify<M>(from: Option<ActorAddress<M>>, to: ActorAddress<M>) -> SenderKind<M> {
    match from {
        None => SenderKind::System,
        Some(a) => if a.uri@ == to.uri@ {
            SenderKind::SentToSelf
        } else if direct_parent(a.uri@, to.uri@) {
            SenderKind::Parent
        } else {
            SenderKind::Actor(a)
        },
    }
}

impl<M, P> Envelope<M, P> {
    /// Builds an envelope, reducing the sender to the kind the receiver needs:
    /// no sender is the system, the receiver itself is `SentToSelf`, the
    /// receiver's parent is `Parent`, anyone else travels with its address.
    pub fn new(
        sender: Option<ActorAddress<M>>,
        receiver: &ActorAddress<M>,
        payload: P,
        ack_nonce: Option<u32>,
    ) -> (r: Envelope<M, P>)
        ensures
            r.sender == classify(sender, *receiver),
            r.payload == payload,
            r.ack_nonce == ack_nonce,
    {
        let kind = match sender {
            None => SenderKind::System,
            Some(from) => {
                let same = from.uri.eq(&receiver.uri);
                if same {
                    SenderKind::SentToSelf
                } else if receiver.is_parent(&from) {
                    SenderKind::Parent
                } else {
                    SenderKind::Actor(from)
                }
            },
        };
        Envelope { sender: kind, payload, ack_nonce }
    }
}

/// The address a sender kind stands for, seen from an actor with address `own`
/// and parent `parent`; the system has none.
pub open spec fn sender_of<M>(
    kind: SenderKind<M>,
    parent: Option<ActorAddress<M>>,
    own: ActorAddress<M>,
) -> Option<ActorAddress<M>> {
    match kind {
        SenderKind::Actor(a) => Some(a),
        SenderKind::Parent => parent,
        SenderKind::SentToSelf => Some(own),
        SenderKind::System => None,
    }
}

/// The address behind a sender kind: the reply and acknowledgement target.
pub fn sender_address<'a, M>(
    kind: &'a SenderKind<M>,
    parent: &'a Option<ActorAddress<M>>,
    own: &'a ActorAddress<M>,
) -> (r: Option<&'a ActorAddress<M>>)
    ensures
        match r {
            Some(a) => sender_of(*kind, *parent, *own) == Some(*a),
            None => sender_of(*kind, *parent, *own) is None,
        },
{
    match kind {
        SenderKind::Actor(a) => Some(a),
        SenderKind::Parent => parent.as_ref(),
        SenderKind::SentToSelf => Some(own),
        SenderKind::System => None,
    }
}

/// Where, and with which nonce, the receiver of `env` acknowledges it before
/// handling it; `None` when no ack was asked for or the sender is the system.
pub fn ack_for<'a, M, P>(
    env: &'a Envelope<M, P>,
    parent: &'a Option<ActorAddress<M>>,
    own: &'a ActorAddress<M>,
) -> (r: Option<(&'a ActorAddress<M>, u32)>)
    ensures
        match r {
            Some((a, n)) => env.ack_nonce == Some(n) && sender_of(env.sender, *parent, *own)
                == Some(*a),
            None => env.ack_nonce is None || sender_of(env.sender, *parent, *own) is None,
        },
{
    match env.ack_nonce {
        None => None,
        Some(n) => match sender_address(&env.sender, parent, own) {
            Some(a) => Some((a, n)),
            None => None,
        },
    }
}

/// Sender classification: from an actor `a`, an envelope is `SentToSelf` iff
/// `a` is the receiver, `Parent` iff `a` is the receiver's direct parent, and
/// carries `a` itself otherwise.
pub proof fn lemma_sender_classification<M>(a: ActorAddress<M>, to: ActorAddress<M>)
    ensures
        classify(Some(a), to) is SentToSelf <==> a.uri@ == to.uri@,
        classify(Some(a), to) is Parent <==> direct_parent(a.uri@, to.uri@),
        classify(Some(a), to) is Actor <==> (a.uri@ != to.uri@ && !direct_parent(a.uri@, to.uri@)),
        classify(Some(a), to) is Actor ==> classify(Some(a), to) == SenderKind::Actor(a),
        classify(None, to) is System,
{
    lemma_direct_parent_irreflexive(to.uri@);
}

} // verus!
