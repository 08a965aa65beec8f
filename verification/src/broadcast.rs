//! Messages of the server that wait to be sent out.

use vstd::prelude::*;
use std::collections::VecDeque;
use crate::server::ServerMessage;
use crate::server::ServerMessageView;

verus! {

/// Messages in the order in which they are to be sent.
pub struct BroadCastQueue {
    queue: VecDeque<ServerMessage>,
}

impl BroadCastQueue {
    /// The messages that wait, the one to send next first.
    pub closed spec fn waiting(&self) -> Seq<ServerMessageView> {
        self.queue@.map_values(|m: ServerMessage| m@)
    }

    /// No message waits.
    pub fn new() -> (q: Self)
        ensures
            q.waiting() == Seq::<ServerMessageView>::empty(),
    {
        let q = BroadCastQueue { queue: VecDeque::new() };
        assert(q.waiting() =~= Seq::<ServerMessageView>::empty());
        q
    }

    /// Appends a message behind those that wait.
    pub fn push(&mut self, broadcast: ServerMessage)
        ensures
            final(self).waiting() == old(self).waiting().push(broadcast@),
    {
        self.queue.push_back(broadcast);
        assert(self.waiting() =~= old(self).waiting().push(broadcast@));
    }

    /// Takes the message that has waited longest, if there is one.
    pub fn pop(&mut self) -> (r: Option<ServerMessage>)
        ensures
            match r {
                Some(m) => old(self).waiting().len() > 0 && m@ == old(self).waiting()[0] && final(self).waiting() == old(self).waiting().subrange(1, old(self).waiting().len() as int),
                None => old(self).waiting().len() == 0 && final(self).waiting() == old(self).waiting(),
            },
    {
        let r = self.queue.pop_front();
        proof {
            if r is Some {
                assert(self.waiting() =~= old(self).waiting().subrange(
                    1,
                    old(self).waiting().len() as int,
                ));
            } else {
                assert(self.waiting() =~= old(self).waiting());
            }
        }
        r
    }
}

} // verus!
