//! The decisions of a miner and of a node catching up with its peers, as steps from
//! a state and an event to the next state; the programs perform the network work.

use vstd::prelude::*;
use crate::crypto::PublicKey;
use crate::network::Message;
use crate::types::block::Block;

verus! {

/// A miner's state: the template it works on, and whether it is mining it.
pub struct MinerState {
    pub template: Option<Block>,
    pub mining: bool,
}

/// What a miner does with a reply from its node.
#[derive(Debug, PartialEq, Eq, Structural)]
pub enum MinerStep {
    /// The reply was taken in.
    Accepted,
    /// The reply was not the one asked for.
    Unexpected,
}

impl MinerState {
    /// No template, not mining.
    pub fn new() -> (r: MinerState)
        ensures
            r.template is None,
            !r.mining,
    {
        MinerState { template: None, mining: false }
    }

    /// The request to send on the next tick: a new template while not mining, else a
    /// check that the current template is still valid (none without a template).
    pub fn next_request(&self, pub_key: PublicKey) -> (r: Option<Message>)
        ensures
            !self.mining ==> (r matches Some(Message::FetchTemplate(k)) && k == pub_key),
            self.mining && self.template is None ==> r is None,
            self.mining ==> (self.template matches Some(t) ==> (r matches Some(Message::ValidateTemplate(b))
                && b@ == t@)),
    {
        if !self.mining {
            Some(Message::FetchTemplate(pub_key))
        } else {
            match &self.template {
                Some(t) => Some(Message::ValidateTemplate(t.copy())),
                None => None,
            }
        }
    }

    /// Takes in the node's reply to a request for a template: a template replaces the
    /// current one and starts the mining.
    pub fn on_template_reply(&mut self, reply: Message) -> (r: MinerStep)
        ensures
            reply matches Message::Template(b) ==> r == MinerStep::Accepted && final(self).mining
                && (final(self).template matches Some(t) && t@ == b@),
            !(reply is Template) ==> r == MinerStep::Unexpected && final(self).mining == old(self).mining
                && final(self).template == old(self).template,
    {
        match reply {
            Message::Template(b) => {
                self.template = Some(b);
                self.mining = true;
                MinerStep::Accepted
            },
            _ => MinerStep::Unexpected,
        }
    }

    /// Takes in the node's reply to a validity check: an invalid template stops the
    /// mining.
    pub fn on_validity_reply(&mut self, reply: Message) -> (r: MinerStep)
        ensures
            reply matches Message::TemplateValidity(valid) ==> r == MinerStep::Accepted
                && final(self).mining == (old(self).mining && valid),
            !(reply is TemplateValidity) ==> r == MinerStep::Unexpected && final(self).mining == old(
                self,
            ).mining,
            final(self).template == old(self).template,
    {
        match reply {
            Message::TemplateValidity(valid) => {
                if !valid {
                    self.mining = false;
                }
                MinerStep::Accepted
            },
            _ => MinerStep::Unexpected,
        }
    }

    /// After a block was mined (or the steps ran out) and handed over: not mining.
    pub fn on_block_done(&mut self)
        ensures
            !final(self).mining,
            final(self).template == old(self).template,
    {
        self.mining = false;
    }
}

/// The peer with the most blocks beyond ours seen so far, and that count.
pub struct LongestChain {
    pub name: String,
    pub count: i32,
}

impl LongestChain {
    /// None seen yet: an empty name and a count of zero.
    pub fn new() -> (r: LongestChain)
        ensures
            r.name@ == Seq::<char>::empty(),
            r.count == 0,
    {
        LongestChain { name: String::new(), count: 0 }
    }

    /// Takes in a peer's answer to how many blocks it has beyond ours: a larger count
    /// than the best so far makes that peer the best. Other answers are passed over.
    pub fn observe(&mut self, node: String, reply: &Message)
        ensures
            reply matches Message::Difference(c) ==> if c > old(self).count {
                final(self).name@ == node@ && final(self).count == c
            } else {
                final(self).name@ == old(self).name@ && final(self).count == old(self).count
            },
            !(reply is Difference) ==> final(self).name@ == old(self).name@ && final(self).count == old(
                self,
            ).count,
    {
        match reply {
            Message::Difference(c) => {
                if *c > self.count {
                    self.name = node;
                    self.count = *c;
                }
            },
            _ => {},
        }
    }

    /// The best count, as an unsigned number of blocks.
    pub fn blocks(&self) -> (r: u32)
        requires
            self.count >= 0,
        ensures
            r == self.count,
    {
        self.count as u32
    }
}

} // verus!
