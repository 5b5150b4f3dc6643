//! Terminal connections over the server's channels: the connection states,
//! what may be sent in each, and the packets that change them. The sending
//! itself is done by the caller with the messages built here.

use vstd::prelude::*;
use crate::error::{UiError, UiResult};
use crate::messages::{
    packet_of_code, TerminalConnectMessage, TerminalInputMessage, TerminalOutputMessage,
    TerminalStateMessage, UiPacketType,
};
use crate::runtime::new_uuid;

verus! {

/// Terminal connection state.
#[derive(Debug, Clone, Copy, PartialEq, Eq, Structural)]
pub enum TerminalState {
    Disconnected,
    Connecting,
    Connected,
    Ready,
    Error,
}

/// The state a terminal reports with its two flags.
pub open spec fn state_from_flags(connected: bool, ready: bool) -> TerminalState {
    if connected && ready {
        TerminalState::Ready
    } else if connected {
        TerminalState::Connected
    } else {
        TerminalState::Disconnected
    }
}

/// Input may be sent in these states.
pub open spec fn accepts_input(s: TerminalState) -> bool {
    s == TerminalState::Connected || s == TerminalState::Ready
}

/// A terminal connection: its identifier and state.
#[derive(Debug, Clone, Copy)]
pub struct TerminalConnection {
    terminal_id: u128,
    state: TerminalState,
}

impl TerminalConnection {
    /// The terminal's identifier.
    pub closed spec fn id_spec(&self) -> u128 {
        self.terminal_id
    }

    /// The connection's state.
    pub closed spec fn state_spec(&self) -> TerminalState {
        self.state
    }

    /// A disconnected connection with a fresh identifier.
    pub fn new() -> (c: Self)
        ensures
            c.state_spec() == TerminalState::Disconnected,
    {
        TerminalConnection { terminal_id: new_uuid(), state: TerminalState::Disconnected }
    }

    /// The terminal's identifier.
    pub fn id(&self) -> (id: u128)
        ensures
            id == self.id_spec(),
    {
        self.terminal_id
    }

    /// The connection's state.
    pub fn get_state(&self) -> (s: TerminalState)
        ensures
            s == self.state_spec(),
    {
        self.state
    }

    /// Sets the connection's state.
    pub fn set_state(&mut self, state: TerminalState)
        ensures
            final(self).state_spec() == state,
            final(self).id_spec() == old(self).id_spec(),
    {
        self.state = state;
    }

    /// Starts connecting: the state becomes `Connecting`, and the message to
    /// send announces the shell and working directory.
    pub fn begin_connect(&mut self, shell_path: Option<String>, working_dir: Option<String>) -> (msg: TerminalConnectMessage)
        ensures
            final(self).state_spec() == TerminalState::Connecting,
            final(self).id_spec() == old(self).id_spec(),
            msg.terminal_id == old(self).id_spec(),
            msg.shell_path == shell_path,
            msg.working_dir == working_dir,
    {
        self.state = TerminalState::Connecting;
        TerminalConnectMessage { terminal_id: self.terminal_id, shell_path, working_dir }
    }

    /// The connect message was sent: the state becomes `Connected`.
    pub fn finish_connect(&mut self)
        ensures
            final(self).state_spec() == TerminalState::Connected,
            final(self).id_spec() == old(self).id_spec(),
    {
        self.state = TerminalState::Connected;
    }

    /// Disconnects: the state becomes `Disconnected`, and the message to send
    /// reports the terminal neither connected nor ready.
    pub fn disconnect(&mut self) -> (msg: TerminalStateMessage)
        ensures
            final(self).state_spec() == TerminalState::Disconnected,
            final(self).id_spec() == old(self).id_spec(),
            msg.terminal_id == old(self).id_spec(),
            !msg.connected,
            !msg.ready,
    {
        self.state = TerminalState::Disconnected;
        TerminalStateMessage { terminal_id: self.terminal_id, connected: false, ready: false }
    }

    /// The message carrying `input`, when the connection accepts input;
    /// otherwise the terminal error "Terminal not connected".
    pub fn send_input(&self, input: String) -> (r: UiResult<TerminalInputMessage>)
        ensures
            accepts_input(self.state_spec()) ==> (r matches Ok(msg) && msg.terminal_id == self.id_spec() && msg.input == input),
            !accepts_input(self.state_spec()) ==> (r matches Err(UiError::TerminalError(m)) && m@ == "Terminal not connected"@),
    {
        match self.state {
            TerminalState::Connected | TerminalState::Ready => Ok(TerminalInputMessage { terminal_id: self.terminal_id, input }),
            _ => Err(UiError::TerminalError(String::from_str("Terminal not connected"))),
        }
    }

    /// The message carrying output of the terminal.
    pub fn handle_output(&self, output: String, is_error: bool) -> (msg: TerminalOutputMessage)
        ensures
            msg.terminal_id == self.id_spec(),
            msg.output == output,
            msg.is_error == is_error,
    {
        TerminalOutputMessage { terminal_id: self.terminal_id, output, is_error }
    }
}

/// The state a terminal reports with its two flags.
pub fn state_from_message(connected: bool, ready: bool) -> (s: TerminalState)
    ensures
        s == state_from_flags(connected, ready),
{
    if connected && ready {
        TerminalState::Ready
    } else if connected {
        TerminalState::Connected
    } else {
        TerminalState::Disconnected
    }
}

/// What an incoming packet is for a terminal manager.
#[derive(Debug, Clone, Copy, PartialEq, Eq, Structural)]
pub enum PacketKind {
    /// Output of a terminal.
    Output,
    /// A terminal's state.
    State,
    /// Any other known packet: nothing to do.
    Other,
}

/// How a known packet type is handled by a terminal manager.
pub open spec fn packet_kind(t: UiPacketType) -> PacketKind {
    match t {
        UiPacketType::TerminalOutput => PacketKind::Output,
        UiPacketType::TerminalState => PacketKind::State,
        _ => PacketKind::Other,
    }
}

/// The identifiers of `conns`, in order.
pub open spec fn conn_ids(conns: Seq<TerminalConnection>) -> Seq<u128> {
    conns.map_values(|c: TerminalConnection| c.id_spec())
}

/// The first connection with identifier `id` from position `i` on.
pub open spec fn conn_index_from(conns: Seq<TerminalConnection>, id: u128, i: int) -> Option<int>
    decreases conns.len() - i,
{
    if i < 0 || i >= conns.len() {
        None
    } else if conns[i].id_spec() == id {
        Some(i)
    } else {
        conn_index_from(conns, id, i + 1)
    }
}

/// The connections of `conns` whose identifier is not `id`, in order.
pub open spec fn without_id(conns: Seq<TerminalConnection>, id: u128) -> Seq<TerminalConnection> {
    conns.filter(|c: TerminalConnection| c.id_spec() != id)
}

/// `after` is `before` with the connection at `i` in `state` and nothing else changed.
pub open spec fn state_set_at(before: Seq<TerminalConnection>, after: Seq<TerminalConnection>, i: int, state: TerminalState) -> bool {
    &&& after.len() == before.len()
    &&& forall|j: int| 0 <= j < before.len() && j != i ==> after[j] == before[j]
    &&& after[i].id_spec() == before[i].id_spec()
    &&& after[i].state_spec() == state
}

/// The flags of a state message decide the state: a terminal that does not
/// report itself connected is disconnected whatever it says of being ready;
/// a connected one is ready exactly when it says so; and the resulting state
/// accepts input exactly when the terminal reports itself connected.
pub proof fn lemma_state_flags(connected: bool, ready: bool)
    ensures
        !connected ==> state_from_flags(connected, ready) == TerminalState::Disconnected,
        connected ==> (state_from_flags(connected, ready) == TerminalState::Ready <==> ready),
        connected && !ready ==> state_from_flags(connected, ready) == TerminalState::Connected,
        accepts_input(state_from_flags(connected, ready)) <==> connected,
        state_from_flags(connected, ready) != TerminalState::Connecting,
        state_from_flags(connected, ready) != TerminalState::Error,
{
}

/// A state message reporting a terminal not connected (such as the one
/// `disconnect` sends), applied by a manager to the connection it names, leaves that connection disconnected, with its identifier, and
/// the other connections as they were.
pub proof fn lemma_disconnect_message_applied(
    before: Seq<TerminalConnection>,
    after: Seq<TerminalConnection>,
    i: int,
    msg: TerminalStateMessage,
)
    requires
        !msg.connected,
        state_set_at(before, after, i, state_from_flags(msg.connected, msg.ready)),
    ensures
        after[i].state_spec() == TerminalState::Disconnected,
        after[i].id_spec() == before[i].id_spec(),
        forall|j: int| 0 <= j < before.len() && j != i ==> after[j] == before[j],
{
}

/// Terminal manager for handling multiple terminal connections.
pub struct TerminalManager {
    connections: Vec<TerminalConnection>,
}

impl View for TerminalManager {
    type V = Seq<TerminalConnection>;

    closed spec fn view(&self) -> Seq<TerminalConnection> {
        self.connections@
    }
}

impl TerminalManager {
    /// A manager with no connections.
    pub fn new() -> (m: Self)
        ensures
            m@ == Seq::<TerminalConnection>::empty(),
    {
        TerminalManager { connections: Vec::new() }
    }

    /// Adds a new disconnected connection and returns it.
    pub fn create_terminal(&mut self) -> (c: TerminalConnection)
        ensures
            final(self)@ == old(self)@.push(c),
            c.state_spec() == TerminalState::Disconnected,
    {
        let c = TerminalConnection::new();
        self.connections.push(c);
        c
    }

    /// The first connection with identifier `id`.
    pub fn get_terminal(&self, id: u128) -> (r: Option<TerminalConnection>)
        ensures
            match r {
                Some(c) => conn_index_from(self@, id, 0) matches Some(i) && c == self@[i],
                None => conn_index_from(self@, id, 0) is None,
            },
    {
        let mut i: usize = 0;
        while i < self.connections.len()
            invariant
                0 <= i <= self@.len(),
                conn_index_from(self@, id, 0) == conn_index_from(self@, id, i as int),
            decreases self@.len() - i,
        {
            if self.connections[i].terminal_id == id {
                return Some(self.connections[i]);
            }
            i = i + 1;
        }
        None
    }

    /// Removes every connection with identifier `id`.
    pub fn remove_terminal(&mut self, id: u128)
        ensures
            final(self)@ == without_id(old(self)@, id),
    {
        let mut old_conns: Vec<TerminalConnection> = Vec::new();
        std::mem::swap(&mut old_conns, &mut self.connections);
        let mut kept: Vec<TerminalConnection> = Vec::new();
        let mut i: usize = 0;
        proof {
            assert(old_conns@.take(0) =~= Seq::<TerminalConnection>::empty());
            reveal(Seq::filter);
            assert(without_id(old_conns@.take(0), id) =~= Seq::<TerminalConnection>::empty());
        }
        while i < old_conns.len()
            invariant
                0 <= i <= old_conns@.len(),
                old_conns@ == old(self)@,
                kept@ == without_id(old_conns@.take(i as int), id),
            decreases old_conns@.len() - i,
        {
            let c = old_conns[i];
            proof {
                assert(old_conns@.take(i + 1).drop_last() =~= old_conns@.take(i as int));
                assert(old_conns@.take(i + 1).last() == c);
                reveal(Seq::filter);
            }
            if c.terminal_id != id {
                kept.push(c);
            }
            i = i + 1;
        }
        proof {
            assert(old_conns@.take(old_conns@.len() as int) =~= old_conns@);
        }
        self.connections = kept;
    }

    /// Sets the state of the first connection with identifier `id`; returns
    /// whether there was one.
    pub fn set_terminal_state(&mut self, id: u128, state: TerminalState) -> (found: bool)
        ensures
            found == conn_index_from(old(self)@, id, 0) is Some,
            match conn_index_from(old(self)@, id, 0) {
                Some(i) => state_set_at(old(self)@, final(self)@, i, state),
                None => final(self)@ == old(self)@,
            },
    {
        let mut i: usize = 0;
        while i < self.connections.len()
            invariant
                0 <= i <= self@.len(),
                self@ == old(self)@,
                conn_index_from(self@, id, 0) == conn_index_from(self@, id, i as int),
            decreases self@.len() - i,
        {
            if self.connections[i].terminal_id == id {
                let mut c = self.connections[i];
                c.state = state;
                self.connections.set(i, c);
                return true;
            }
            i = i + 1;
        }
        false
    }

    /// Classifies an incoming packet by its type number; an unknown number is
    /// the invalid-operation error of `UiPacketType::try_from`.
    pub fn classify_packet(packet_type: u16) -> (r: UiResult<PacketKind>)
        ensures
            match r {
                Ok(k) => packet_of_code(packet_type) matches Some(t) && k == packet_kind(t),
                Err(_) => packet_of_code(packet_type) is None,
            },
    {
        match UiPacketType::try_from(packet_type) {
            Ok(t) => Ok(
                match t {
                    UiPacketType::TerminalOutput => PacketKind::Output,
                    UiPacketType::TerminalState => PacketKind::State,
                    _ => PacketKind::Other,
                },
            ),
            Err(e) => Err(e),
        }
    }

    /// Applies a terminal state message: the terminal it names, if known,
    /// takes the state its flags report.
    pub fn apply_state_message(&mut self, msg: TerminalStateMessage) -> (found: bool)
        ensures
            found == conn_index_from(old(self)@, msg.terminal_id, 0) is Some,
            match conn_index_from(old(self)@, msg.terminal_id, 0) {
                Some(i) => state_set_at(old(self)@, final(self)@, i, state_from_flags(msg.connected, msg.ready)),
                None => final(self)@ == old(self)@,
            },
    {
        let state = state_from_message(msg.connected, msg.ready);
        self.set_terminal_state(msg.terminal_id, state)
    }
}

} // verus!
