use poker_table::cards::{init_deck, pick_cards, Card};
use rand::rngs::StdRng;
use rand::SeedableRng;
use poker_table::events::{PlayerAction, ServerEvent};
use poker_table::game::GameManager;
use poker_table::player::PlayerStatus;
use poker_table::session::{parse_action, private_delivery, session_step, SessionInput, SessionStep};
use poker_table::table::{PublicGameState, RoundPhase};

fn state_of(ev: &ServerEvent) -> &PublicGameState {
    match ev {
        ServerEvent::GameState(s) => s,
        _ => panic!("expected a table snapshot"),
    }
}

fn hand_of(g: &GameManager, id: &str) -> [Card; 2] {
    g.private_state(id).hand.expect("a dealt hand")
}

fn overlap(a: &[Card; 2], b: &[Card; 2]) -> bool {
    a.iter().any(|c| b.contains(c))
}

#[test]
fn nine_joins_then_table_full() {
    let mut g = GameManager::new();
    let mut ids: Vec<String> = Vec::new();
    for seat in 0..9usize {
        let id = g.add_waiting_player().expect("a free seat");
        assert!(!ids.contains(&id));
        assert_eq!(g.state.players[seat].seat, seat);
        assert_eq!(g.state.players[seat].id, id);
        ids.push(id);
    }
    g.take_events();
    let err = g.add_waiting_player().unwrap_err();
    assert_eq!(err, "Table full");
    assert_eq!(g.state.players.len(), 9);
    assert!(g.take_events().is_empty());
}

#[test]
fn duplicate_id_is_refused() {
    let mut g = GameManager::new();
    g.join_with_id("a".to_string()).unwrap();
    assert_eq!(g.join_with_id("a".to_string()).unwrap_err(), "duplicate player id");
    assert_eq!(g.state.players.len(), 1);
}

#[test]
fn round_starts_at_second_player() {
    let mut g = GameManager::new();
    g.join_with_id("a".to_string()).unwrap();
    assert_eq!(g.state.phase, RoundPhase::Waiting);
    assert_eq!(g.state.players[0].status, PlayerStatus::Waiting);
    assert!(g.private_state("a").hand.is_none());
    g.join_with_id("b".to_string()).unwrap();
    assert_eq!(g.state.phase, RoundPhase::Preflop);
    assert_eq!(g.state.players[0].status, PlayerStatus::Active);
    assert_eq!(g.state.players[1].status, PlayerStatus::Active);
    // a third player joins a running round and is not dealt in
    g.join_with_id("c".to_string()).unwrap();
    assert_eq!(g.state.players[2].status, PlayerStatus::Waiting);
    assert!(g.private_state("c").hand.is_none());
    assert_eq!(g.state.dealer_seat, 1);
}

#[test]
fn blinds_and_dealer_after_round_start() {
    let mut g = GameManager::new();
    g.join_with_id("a".to_string()).unwrap();
    g.join_with_id("b".to_string()).unwrap();
    assert_eq!(g.state.dealer_seat, 1);
    assert_eq!(g.state.players[0].committed, 10);
    assert_eq!(g.state.players[0].stack, 990);
    assert_eq!(g.state.players[1].committed, 20);
    assert_eq!(g.state.players[1].stack, 980);
    assert_eq!(g.state.pot, 30);
    assert_eq!(g.state.current_bet, 20);
    assert_eq!(g.state.current_turn_seat, Some(0));
}

#[test]
fn hole_cards_are_distinct() {
    let mut g = GameManager::new();
    g.join_with_id("a".to_string()).unwrap();
    g.join_with_id("b".to_string()).unwrap();
    let a = hand_of(&g, "a");
    let b = hand_of(&g, "b");
    assert_ne!(a[0], a[1]);
    assert_ne!(b[0], b[1]);
    assert!(!overlap(&a, &b));
    assert_eq!(g.cards.deck.len(), 52 - 2 * 2);
    for c in a.iter().chain(b.iter()) {
        assert!(!g.cards.deck.contains(c));
    }
}

#[test]
fn deck_is_shuffled_at_round_start() {
    let mut g = GameManager::new();
    g.join_with_id("a".to_string()).unwrap();
    g.join_with_id("b".to_string()).unwrap();
    let fresh = init_deck();
    let mut all: Vec<Card> = g.cards.deck.clone();
    all.extend(hand_of(&g, "a"));
    all.extend(hand_of(&g, "b"));
    assert_eq!(all.len(), 52);
    for c in &fresh {
        assert!(all.contains(c));
    }
    assert_ne!(g.cards.deck, fresh[..48].to_vec());
}

#[test]
fn bet_is_capped_at_stack() {
    let mut g = GameManager::new();
    g.join_with_id("a".to_string()).unwrap();
    g.join_with_id("b".to_string()).unwrap();
    g.handle_action("a", PlayerAction::Bet { amount: 5000 }).unwrap();
    assert_eq!(g.state.players[0].stack, 0);
    assert_eq!(g.state.players[0].committed, 1000);
    assert_eq!(g.state.pot, 1020);
    g.handle_action("b", PlayerAction::Raise { amount: 100 }).unwrap();
    assert_eq!(g.state.players[1].stack, 880);
    assert_eq!(g.state.players[1].committed, 120);
    assert_eq!(g.state.pot, 1120);
}

#[test]
fn other_actions() {
    let mut g = GameManager::new();
    g.join_with_id("a".to_string()).unwrap();
    g.join_with_id("b".to_string()).unwrap();
    g.take_events();
    g.handle_action("a", PlayerAction::Check).unwrap();
    g.handle_action("a", PlayerAction::Call).unwrap();
    assert_eq!(g.state.players[0].committed, 10);
    assert_eq!(g.take_events().len(), 2);
    g.handle_action("b", PlayerAction::AllIn).unwrap();
    assert_eq!(g.state.players[1].stack, 0);
    assert_eq!(g.state.players[1].committed, 1000);
    assert_eq!(g.state.pot, 1010);
    g.handle_action("a", PlayerAction::Fold).unwrap();
    assert_eq!(g.state.players[0].status, PlayerStatus::Waiting);
}

#[test]
fn unknown_player_action_fails() {
    let mut g = GameManager::new();
    g.join_with_id("a".to_string()).unwrap();
    g.take_events();
    let err = g.handle_action("zz", PlayerAction::Bet { amount: 5 }).unwrap_err();
    assert_eq!(err, "player not found");
    assert!(g.take_events().is_empty());
}

#[test]
fn private_state_without_hand_is_empty() {
    let mut g = GameManager::new();
    assert!(g.private_state("nobody").hand.is_none());
    g.join_with_id("a".to_string()).unwrap();
    assert!(g.private_state("a").hand.is_none());
    assert!(private_delivery(g.private_state("a")).is_none());
}

#[test]
fn two_sessions_join_scenario() {
    let mut g = GameManager::new();
    let first = g.add_waiting_player().unwrap();
    let events = g.take_events();
    assert_eq!(events.len(), 1);
    assert_eq!(state_of(&events[0]).players.len(), 1);

    let second = g.add_waiting_player().unwrap();
    let events = g.take_events();
    assert_eq!(events.len(), 5);
    assert_eq!(state_of(&events[0]).players.len(), 2);
    assert!(matches!(events[1], ServerEvent::BlindPosted { seat: 0, amount: 10 }));
    assert!(matches!(events[2], ServerEvent::BlindPosted { seat: 1, amount: 20 }));
    assert_eq!(state_of(&events[3]).phase, RoundPhase::Preflop);
    assert!(matches!(events[4], ServerEvent::RoundStarted));

    let mut hands: Vec<[Card; 2]> = Vec::new();
    for id in [&first, &second] {
        match session_step(SessionInput::Broadcast(events[4].clone())) {
            SessionStep::Forward { event, fetch_private } => {
                assert!(fetch_private);
                assert!(matches!(event, ServerEvent::RoundStarted));
            }
            _ => panic!("a broadcast is forwarded"),
        }
        match private_delivery(g.private_state(id)) {
            Some(ServerEvent::PrivateState(p)) => hands.push(p.hand.unwrap()),
            _ => panic!("a hand is delivered"),
        }
    }
    assert!(!overlap(&hands[0], &hands[1]));
}

#[test]
fn bet_request_scenario() {
    let mut g = GameManager::new();
    let id = g.add_waiting_player().unwrap();
    g.add_waiting_player().unwrap();
    g.take_events();
    let before = g.masked_state();
    let action = match session_step(SessionInput::Request {
        action: "bet".to_string(),
        amount: Some(50),
    }) {
        SessionStep::Submit(a) => a,
        _ => panic!("a bet is submitted"),
    };
    assert_eq!(action, PlayerAction::Bet { amount: 50 });
    g.handle_action(&id, action).unwrap();
    let events = g.take_events();
    assert_eq!(events.len(), 1);
    let after = state_of(&events[0]);
    assert_eq!(after.players[0].committed, before.players[0].committed + 50);
    assert_eq!(after.pot, before.pot + 50);
}

#[test]
fn disconnect_scenario() {
    let mut g = GameManager::new();
    let a = g.add_waiting_player().unwrap();
    g.add_waiting_player().unwrap();
    g.take_events();
    let before = g.masked_state();
    assert!(matches!(session_step(SessionInput::Closed), SessionStep::Disconnect));
    g.handle_disconnect(&a);
    let events = g.take_events();
    assert_eq!(events.len(), 1);
    let after = state_of(&events[0]);
    assert_eq!(after.players[0].status, PlayerStatus::Waiting);
    assert_eq!(after.players[1].status, before.players[1].status);
    assert_eq!(after.players[1].stack, before.players[1].stack);
    assert_eq!(after.players[1].committed, before.players[1].committed);
    assert_eq!(after.phase, RoundPhase::Preflop);
    assert_eq!(after.pot, before.pot);
}

#[test]
fn community_cards_burn_and_reveal() {
    let mut g = GameManager::new();
    g.join_with_id("a".to_string()).unwrap();
    g.join_with_id("b".to_string()).unwrap();
    let top = g.cards.deck[46];
    g.deal_flop();
    assert_eq!(g.state.phase, RoundPhase::Flop);
    assert_eq!(g.state.community_cards.len(), 3);
    assert_eq!(g.state.community_cards[0], top);
    assert_eq!(g.cards.deck.len(), 44);
    g.deal_turn();
    assert_eq!(g.state.phase, RoundPhase::Turn);
    assert_eq!(g.state.community_cards.len(), 4);
    g.deal_river();
    assert_eq!(g.state.phase, RoundPhase::River);
    assert_eq!(g.state.community_cards.len(), 5);
    assert_eq!(g.cards.deck.len(), 40);
}

#[test]
fn fresh_deck_has_every_card_once() {
    let deck = init_deck();
    assert_eq!(deck.len(), 52);
    for i in 0..52 {
        for j in (i + 1)..52 {
            assert_ne!(deck[i], deck[j]);
        }
    }
}

#[test]
fn pick_cards_is_clamped() {
    let deck = init_deck();
    let mut rng = StdRng::seed_from_u64(7);
    let five = pick_cards(&deck, 5, &mut rng);
    assert_eq!(five.len(), 5);
    for c in &five {
        assert!(deck.contains(c));
    }
    assert_ne!(five[0], five[1]);
    assert_eq!(pick_cards(&deck[..3], 10, &mut rng).len(), 3);
}

#[test]
fn parse_every_action() {
    assert_eq!(parse_action("fold", None), Some(PlayerAction::Fold));
    assert_eq!(parse_action("check", Some(3)), Some(PlayerAction::Check));
    assert_eq!(parse_action("call", None), Some(PlayerAction::Call));
    assert_eq!(parse_action("bet", Some(7)), Some(PlayerAction::Bet { amount: 7 }));
    assert_eq!(parse_action("bet", None), Some(PlayerAction::Bet { amount: 0 }));
    assert_eq!(parse_action("raise", Some(9)), Some(PlayerAction::Raise { amount: 9 }));
    assert_eq!(parse_action("allin", None), Some(PlayerAction::AllIn));
    assert_eq!(parse_action("shove", Some(1)), None);
}

#[test]
fn session_steps() {
    assert!(matches!(session_step(SessionInput::Lagged), SessionStep::Ignore));
    assert!(matches!(session_step(SessionInput::BroadcastClosed), SessionStep::Stop));
    assert!(matches!(session_step(SessionInput::Malformed), SessionStep::Ignore));
    assert!(matches!(session_step(SessionInput::OtherMessage), SessionStep::Ignore));
    assert!(matches!(session_step(SessionInput::ReadFailed), SessionStep::Disconnect));
    assert!(matches!(session_step(SessionInput::SendFailed), SessionStep::Disconnect));
    let unknown = SessionInput::Request { action: "dance".to_string(), amount: None };
    assert!(matches!(session_step(unknown), SessionStep::Ignore));
    match session_step(SessionInput::Broadcast(ServerEvent::BlindPosted { seat: 1, amount: 20 })) {
        SessionStep::Forward { event, fetch_private } => {
            assert!(!fetch_private);
            assert!(matches!(event, ServerEvent::BlindPosted { seat: 1, amount: 20 }));
        }
        _ => panic!("a broadcast is forwarded"),
    }
}

#[test]
fn join_during_running_round() {
    let mut g = GameManager::new();
    g.add_waiting_player().unwrap();
    g.add_waiting_player().unwrap();
    g.take_events();
    let deck_before = g.cards.deck.clone();
    let c = g.add_waiting_player().unwrap();
    let events = g.take_events();
    assert_eq!(events.len(), 1);
    let st = state_of(&events[0]);
    assert_eq!(st.players.len(), 3);
    assert_eq!(st.players[2].id, c);
    assert_eq!(st.players[2].seat, 2);
    assert_eq!(st.players[2].stack, 1000);
    assert_eq!(st.players[2].committed, 0);
    assert_eq!(st.players[2].status, PlayerStatus::Waiting);
    assert_eq!(st.phase, RoundPhase::Preflop);
    assert_eq!(st.pot, 30);
    assert_eq!(g.cards.deck, deck_before);
    assert!(g.private_state(&c).hand.is_none());
}

#[test]
fn bet_after_two_joins_exact_values() {
    let mut g = GameManager::new();
    let a = g.add_waiting_player().unwrap();
    g.add_waiting_player().unwrap();
    g.handle_action(&a, PlayerAction::Bet { amount: 50 }).unwrap();
    assert_eq!(g.state.players[0].stack, 940);
    assert_eq!(g.state.players[0].committed, 60);
    assert_eq!(g.state.pot, 80);
    assert_eq!(g.state.players[1].stack, 980);
    assert_eq!(g.state.players[1].committed, 20);
}
