use std::collections::VecDeque;
use vstd::prelude::*;

verus! {

/// A command line received from an AI client and waiting to be executed.
#[derive(Debug, Clone)]
pub struct QueuedCommand {
    pub name: String,
}

impl QueuedCommand {
    pub fn new(name: String) -> (command: Self)
        ensures
            command.name == name,
    {
        Self { name }
    }
}

/// First-in first-out queue of the commands of one client.
#[derive(Debug)]
pub struct CommandQueue {
    commands: VecDeque<QueuedCommand>,
}

impl View for CommandQueue {
    type V = Seq<QueuedCommand>;

    closed spec fn view(&self) -> Seq<QueuedCommand> {
        self.commands@
    }
}

/// The names of the commands `q`, oldest first.
pub open spec fn command_names(q: Seq<QueuedCommand>) -> Seq<Seq<char>> {
    q.map_values(|c: QueuedCommand| c.name@)
}

impl CommandQueue {
    pub fn new() -> (queue: Self)
        ensures
            queue@ == Seq::<QueuedCommand>::empty(),
    {
        Self { commands: VecDeque::new() }
    }

    pub fn len(&self) -> (n: usize)
        ensures
            n == self@.len(),
    {
        self.commands.len()
    }

    pub fn is_empty(&self) -> (b: bool)
        ensures
            b == (self@.len() == 0),
    {
        self.commands.len() == 0
    }

    /// Appends `command` unless the queue already holds `maximum_size` commands;
    /// returns whether it was appended.
    pub fn push(&mut self, command: QueuedCommand, maximum_size: usize) -> (accepted: bool)
        ensures
            accepted == (old(self)@.len() < maximum_size),
            accepted ==> final(self)@ == old(self)@.push(command),
            !accepted ==> final(self)@ == old(self)@,
    {
        if self.commands.len() >= maximum_size {
            return false;
        }
        self.commands.push_back(command);
        true
    }

    /// Removes and returns the oldest command.
    pub fn pop(&mut self) -> (command: Option<QueuedCommand>)
        ensures
            old(self)@.len() == 0 ==> command is None && final(self)@ == old(self)@,
            old(self)@.len() > 0 ==> command == Some(old(self)@[0]) && final(self)@
                == old(self)@.drop_first(),
    {
        let r = self.commands.pop_front();
        proof {
            if old(self)@.len() > 0 {
                assert(old(self)@.subrange(1, old(self)@.len() as int) =~= old(self)@.drop_first());
            }
        }
        r
    }

    /// The oldest command, if any.
    pub fn front(&self) -> (command: Option<&QueuedCommand>)
        ensures
            self@.len() == 0 ==> command is None,
            self@.len() > 0 ==> command == Some(&self@[0]),
    {
        if self.commands.len() == 0 {
            None
        } else {
            Some(&self.commands[0])
        }
    }
}

} // verus!
