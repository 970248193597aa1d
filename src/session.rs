use crate::events::{PlayerAction, ServerEvent};
use crate::player::PrivateState;
use vstd::prelude::*;

verus! {

/// What a connection's session loop has just received: from the broadcast
/// channel, or from its client.
pub enum SessionInput {
    /// An event published to every session.
    Broadcast(ServerEvent),
    /// The session fell behind the broadcast buffer and missed events.
    Lagged,
    /// The broadcast channel is gone.
    BroadcastClosed,
    /// A well-formed request from the client: an action name and an
    /// optional amount.
    Request { action: String, amount: Option<u64> },
    /// A text message that is not a well-formed request.
    Malformed,
    /// A message of another kind (binary, ping, pong).
    OtherMessage,
    /// The client closed the connection, or it ended.
    Closed,
    /// Reading from the client failed.
    ReadFailed,
    /// Sending to the client failed.
    SendFailed,
}

/// What the session loop does next.
pub enum SessionStep {
    /// Send the event to the client; when `fetch_private` holds, then ask the
    /// game for this player's private state.
    Forward { event: ServerEvent, fetch_private: bool },
    /// Send the action to the game and await its reply.
    Submit(PlayerAction),
    /// Do nothing and wait for the next input.
    Ignore,
    /// Tell the game that the player left, then end the session.
    Disconnect,
    /// End the session.
    Stop,
}

/// The action that a request names: `amount` counts for bets and raises, and
/// stands for zero when absent. Unknown names give nothing.
pub open spec fn requested_action(action: Seq<char>, amount: Option<u64>) -> Option<PlayerAction> {
    let a = match amount {
        Some(v) => v,
        None => 0,
    };
    if action == "fold"@ {
        Some(PlayerAction::Fold)
    } else if action == "check"@ {
        Some(PlayerAction::Check)
    } else if action == "call"@ {
        Some(PlayerAction::Call)
    } else if action == "bet"@ {
        Some(PlayerAction::Bet { amount: a })
    } else if action == "raise"@ {
        Some(PlayerAction::Raise { amount: a })
    } else if action == "allin"@ {
        Some(PlayerAction::AllIn)
    } else {
        None
    }
}

fn same_text(a: &str, b: &str) -> (r: bool)
    ensures
        r == (a@ == b@),
{
    a.to_owned() == b.to_owned()
}

/// Maps a client's request to a player action; `None` for an unknown name.
pub fn parse_action(action: &str, amount: Option<u64>) -> (r: Option<PlayerAction>)
    ensures
        r == requested_action(action@, amount),
{
    let a = match amount {
        Some(v) => v,
        None => 0,
    };
    if same_text(action, "fold") {
        Some(PlayerAction::Fold)
    } else if same_text(action, "check") {
        Some(PlayerAction::Check)
    } else if same_text(action, "call") {
        Some(PlayerAction::Call)
    } else if same_text(action, "bet") {
        Some(PlayerAction::Bet { amount: a })
    } else if same_text(action, "raise") {
        Some(PlayerAction::Raise { amount: a })
    } else if same_text(action, "allin") {
        Some(PlayerAction::AllIn)
    } else {
        None
    }
}

/// One turn of the session loop. Broadcast events are forwarded as they
/// are, and a round start also asks for the player's hand; a lag is
/// absorbed; a closed broadcast ends the session; a request with a known
/// action is submitted, anything else from the client is ignored; a closed
/// or failed connection, or a failed send, disconnects the player and ends
/// the session.
pub fn session_step(input: SessionInput) -> (step: SessionStep)
    ensures
        match input {
            SessionInput::Broadcast(ev) => step == (SessionStep::Forward {
                event: ev,
                fetch_private: ev is RoundStarted,
            }),
            SessionInput::Lagged => step is Ignore,
            SessionInput::BroadcastClosed => step is Stop,
            SessionInput::Request { action, amount } => match requested_action(action@, amount) {
                Some(a) => step == SessionStep::Submit(a),
                None => step is Ignore,
            },
            SessionInput::Malformed => step is Ignore,
            SessionInput::OtherMessage => step is Ignore,
            SessionInput::Closed => step is Disconnect,
            SessionInput::ReadFailed => step is Disconnect,
            SessionInput::SendFailed => step is Disconnect,
        },
{
    match input {
        SessionInput::Broadcast(event) => {
            let fetch_private = match event {
                ServerEvent::RoundStarted => true,
                _ => false,
            };
            SessionStep::Forward { event, fetch_private }
        },
        SessionInput::Lagged => SessionStep::Ignore,
        SessionInput::BroadcastClosed => SessionStep::Stop,
        SessionInput::Request { action, amount } => match parse_action(action.as_str(), amount) {
            Some(a) => SessionStep::Submit(a),
            None => SessionStep::Ignore,
        },
        SessionInput::Malformed => SessionStep::Ignore,
        SessionInput::OtherMessage => SessionStep::Ignore,
        SessionInput::Closed => SessionStep::Disconnect,
        SessionInput::ReadFailed => SessionStep::Disconnect,
        SessionInput::SendFailed => SessionStep::Disconnect,
    }
}

/// The event that delivers a player's private state: only when a hand is
/// recorded.
pub fn private_delivery(private: PrivateState) -> (r: Option<ServerEvent>)
    ensures
        private.hand is None ==> r is None,
        private.hand is Some ==> r == Some(ServerEvent::PrivateState(private)),
{
    if private.hand.is_some() {
        Some(ServerEvent::PrivateState(private))
    } else {
        None
    }
}

} // verus!
