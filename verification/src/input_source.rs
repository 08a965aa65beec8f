//! The commands that players send, and the queue in which they wait for the
//! game loop.

use vstd::prelude::*;
use std::collections::VecDeque;

verus! {

/// What a player can ask for.
#[derive(Clone, Copy, Debug, PartialEq, Eq, Structural)]
pub enum Input {
    RequestBroadcast,
    Left,
    Right,
    Up,
    Down,
    RotateRight,
    RotateLeft,
    Flip,
    GiveUp,
    Cancel,
    Enter,
    Undo,
}

/// A command: who sent it, what it asks for, and the token by which a client
/// recognises the answer to its own command.
#[derive(Clone, Copy, Debug, PartialEq, Eq, Structural)]
pub struct UserInput {
    pub player_id: i32,
    pub token: Option<i32>,
    pub input: Input,
}

/// Commands in the order in which they arrived.
pub struct InputQueue {
    pub queue: VecDeque<UserInput>,
    pub broadcast_requested: bool,
}

/// A queue as a mathematical value: the commands that wait, the one that has
/// waited longest first, and the flag.
pub struct InputQueueView {
    pub queue: Seq<UserInput>,
    pub broadcast_requested: bool,
}

impl InputQueueView {
    /// The queue with `user_input` behind the commands that wait.
    pub open spec fn pushed(self, user_input: UserInput) -> InputQueueView {
        InputQueueView { queue: self.queue.push(user_input), ..self }
    }

    /// The queue without the command that has waited longest.
    pub open spec fn rest(self) -> InputQueueView {
        InputQueueView { queue: self.queue.subrange(1, self.queue.len() as int), ..self }
    }
}

impl View for InputQueue {
    type V = InputQueueView;

    open spec fn view(&self) -> InputQueueView {
        InputQueueView { queue: self.queue@, broadcast_requested: self.broadcast_requested }
    }
}

impl InputQueue {
    /// An empty queue.
    pub fn new() -> (q: Self)
        ensures
            q@ == (InputQueueView { queue: Seq::<UserInput>::empty(), broadcast_requested: false }),
    {
        InputQueue { queue: VecDeque::new(), broadcast_requested: false }
    }

    /// Appends a command behind those that wait.
    pub fn push(&mut self, user_input: UserInput)
        ensures
            final(self)@ == old(self)@.pushed(user_input),
    {
        self.queue.push_back(user_input);
    }

    /// Takes the command that has waited longest, if there is one.
    pub fn pop(&mut self) -> (r: Option<UserInput>)
        ensures
            old(self)@.queue.len() == 0 ==> r.is_none() && final(self)@ == old(self)@,
            old(self)@.queue.len() > 0 ==> r == Some(old(self)@.queue[0]) && final(self)@ == old(self)@.rest(),
    {
        self.queue.pop_front()
    }
}

} // verus!
