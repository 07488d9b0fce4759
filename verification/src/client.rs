use crate::command::CommandQueue;
use vstd::prelude::*;

verus! {

/// Where a connection stands in the protocol.
#[derive(Debug, Clone, Copy, PartialEq, Eq, Structural)]
pub enum ClientState {
    /// Connected; the first line names a team, or `GRAPHIC`.
    WaitingTeamName,
    /// Playing for a team.
    Ai,
    /// A graphical observer.
    Gui,
}

/// What the server keeps of one connection.
#[derive(Debug)]
pub struct Client {
    /// Received text not yet handled: what follows the last complete line.
    pub input_buffer: Vec<char>,
    pub state: ClientState,
    pub team_name: Option<String>,
    pub player_id: Option<usize>,
    pub command_queue: CommandQueue,
}

impl Client {
    /// A connection that has sent nothing yet.
    pub fn new() -> (client: Client)
        ensures
            client.input_buffer@ == Seq::<char>::empty(),
            client.state == ClientState::WaitingTeamName,
            client.team_name is None,
            client.player_id is None,
            client.command_queue@ == Seq::<crate::command::QueuedCommand>::empty(),
    {
        Client {
            input_buffer: Vec::new(),
            state: ClientState::WaitingTeamName,
            team_name: None,
            player_id: None,
            command_queue: CommandQueue::new(),
        }
    }

    /// Appends received text to the input buffer.
    pub fn receive(&mut self, text: &str)
        ensures
            final(self).input_buffer@ == old(self).input_buffer@ + text@,
            final(self).state == old(self).state,
            final(self).team_name == old(self).team_name,
            final(self).player_id == old(self).player_id,
            final(self).command_queue == old(self).command_queue,
    {
        let chars = crate::text::chars_of(text);
        let mut i: usize = 0;
        let ghost start = self.input_buffer@;
        while i < chars.len()
            invariant
                i <= chars@.len(),
                chars@ == text@,
                self.input_buffer@ == start + chars@.take(i as int),
                self.state == old(self).state,
                self.team_name == old(self).team_name,
                self.player_id == old(self).player_id,
                self.command_queue == old(self).command_queue,
            decreases chars@.len() - i,
        {
            self.input_buffer.push(chars[i]);
            assert(start + chars@.take(i + 1) =~= (start + chars@.take(i as int)).push(chars@[i as int]));
            i = i + 1;
        }
        assert(chars@.take(i as int) =~= chars@);
    }
}

} // verus!
