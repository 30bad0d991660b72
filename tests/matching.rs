use cerke_matching::ids::{AccessToken, RoomId};
use cerke_matching::registry::{
    join_waiting_list, open_bot_room, pair_with_waiting, random_entrance_cancel,
    random_entrance_poll_, random_entry_, vs_cpu_entry_, AppState, EntryFault, MsgWithAccessToken, Rate,
    Season, INITIAL_SCORE,
};
use cerke_matching::types::{
    Ciurl, RetRandomCancel, RetRandomEntry, RetRandomPoll, RetVsCpuEntry, WhoGoesFirst,
};

fn msg(text: &str) -> MsgWithAccessToken {
    MsgWithAccessToken { access_token: text.to_string() }
}

#[test]
fn enter_poll_enter_poll_pairs_two_players() {
    let mut data = AppState::new();
    let t1 = match random_entry_(false, &mut data).unwrap() {
        RetRandomEntry::InWaitingList { access_token } => access_token,
        other => panic!("expected waiting, got {:?}", other),
    };
    match random_entrance_poll_(false, &msg(&t1), &data) {
        RetRandomPoll::Legal { ret: RetRandomEntry::InWaitingList { access_token } } => {
            assert_eq!(access_token, t1)
        }
        other => panic!("expected waiting, got {:?}", other),
    }
    let (t2, room2, first2, ia2) = match random_entry_(false, &mut data).unwrap() {
        RetRandomEntry::RoomAlreadyAssigned { access_token, room_id, is_first_move_my_move, is_ia_down_for_me } => {
            (access_token, room_id, is_first_move_my_move, is_ia_down_for_me)
        }
        other => panic!("expected a room, got {:?}", other),
    };
    assert_ne!(t1, t2);
    let (first1, ia1) = match random_entrance_poll_(false, &msg(&t1), &data) {
        RetRandomPoll::Legal {
            ret: RetRandomEntry::RoomAlreadyAssigned { access_token, room_id, is_first_move_my_move, is_ia_down_for_me },
        } => {
            assert_eq!(access_token, t1);
            assert_eq!(room_id, room2);
            (is_first_move_my_move, is_ia_down_for_me)
        }
        other => panic!("expected a room, got {:?}", other),
    };
    for i in 0..4 {
        assert_eq!(first1[i].result, !first2[i].result);
        assert_eq!(first1[i], first2[i].not());
    }
    assert_eq!(ia1, !ia2);
    let a = AccessToken::parse_str(&t1).unwrap();
    let b = AccessToken::parse_str(&t2).unwrap();
    let ra = data.lookup_room(a).unwrap();
    let rb = data.lookup_room(b).unwrap();
    assert_eq!(ra.room_id, rb.room_id);
    assert_eq!(ra.room_id, room2);
    for i in 0..4 {
        assert_eq!(ra.is_first_move_my_move[i].result, !rb.is_first_move_my_move[i].result);
        assert_eq!(ra.is_first_move_my_move[i], rb.is_first_move_my_move[i].not());
    }
    assert!(!data.is_waiting_token(a));
    assert!(!data.is_waiting_token(b));
    assert!(!data.is_bot_room(ra.room_id));
    let g = data.game_state(ra.room_id).unwrap();
    assert!(g.tam_itself_is_tam_hue);
    assert_eq!(g.season, Season::Iei2);
    assert_eq!(g.rate, Rate::X1);
    assert_eq!(g.ia_owner_s_score, INITIAL_SCORE);
    assert_eq!(g.ia_owner_s_score, 20);
    assert_eq!(g.is_ia_owner_s_turn, rb.is_first_move_my_move[0].result == rb.is_ia_down_for_me);
    assert!(g.waiting_for_after_half_acceptance.is_none());
    for q in g.moves_to_be_polled.iter() {
        assert!(q.is_empty());
    }
}

#[test]
fn vs_bot_entry_assigns_a_bot_room_at_once() {
    let mut data = AppState::new();
    let (t, bot_room, first, ia) = match vs_cpu_entry_(false, &mut data).unwrap() {
        RetVsCpuEntry::LetTheGameBegin { access_token, room_id, is_first_move_my_move, is_ia_down_for_me } => {
            (access_token, room_id, is_first_move_my_move, is_ia_down_for_me)
        }
    };
    let token = AccessToken::parse_str(&t).unwrap();
    assert!(!data.is_waiting_token(token));
    let room = data.lookup_room(token).unwrap();
    assert!(data.is_bot_room(room.room_id));
    assert!(data.has_game(room.room_id));
    assert_eq!(room.room_id, bot_room);
    assert_eq!(room.is_first_move_my_move, first);
    assert_eq!(room.is_ia_down_for_me, ia);
    match random_entrance_poll_(false, &msg(&t), &data) {
        RetRandomPoll::Legal { ret: RetRandomEntry::RoomAlreadyAssigned { access_token, .. } } => {
            assert_eq!(access_token, t)
        }
        other => panic!("expected a room, got {:?}", other),
    }
    // a later random entry does not pair with the bot room's player
    match random_entry_(false, &mut data).unwrap() {
        RetRandomEntry::InWaitingList { .. } => {}
        other => panic!("expected waiting, got {:?}", other),
    }
}

#[test]
fn cancel_of_unseen_token_is_cancellable() {
    let mut data = AppState::new();
    let unseen = "67e55044-10b1-426f-9247-bb680e5fe0c8";
    assert_eq!(
        random_entrance_cancel(false, &msg(unseen), &mut data),
        RetRandomCancel::Legal { cancellable: true }
    );
}

#[test]
fn cancel_of_unparsable_token_is_an_error() {
    let mut data = AppState::new();
    assert_eq!(
        random_entrance_cancel(false, &msg("not a token"), &mut data),
        RetRandomCancel::Illegal { why_illegal: "access token could not be parsed".to_string() }
    );
}

#[test]
fn cancel_removes_a_waiting_player() {
    let mut data = AppState::new();
    let t1 = match random_entry_(false, &mut data).unwrap() {
        RetRandomEntry::InWaitingList { access_token } => access_token,
        other => panic!("expected waiting, got {:?}", other),
    };
    let token = AccessToken::parse_str(&t1).unwrap();
    assert!(data.is_waiting_token(token));
    assert_eq!(
        random_entrance_cancel(false, &msg(&t1), &mut data),
        RetRandomCancel::Legal { cancellable: true }
    );
    assert!(!data.is_waiting_token(token));
    match random_entrance_poll_(false, &msg(&t1), &data) {
        RetRandomPoll::Illegal { why_illegal } => assert!(why_illegal.contains(&t1)),
        other => panic!("expected an error, got {:?}", other),
    }
    // the next entrant waits instead of pairing with the cancelled player
    match random_entry_(false, &mut data).unwrap() {
        RetRandomEntry::InWaitingList { .. } => {}
        other => panic!("expected waiting, got {:?}", other),
    }
}

#[test]
fn cancel_after_assignment_is_refused_and_changes_nothing() {
    let mut data = AppState::new();
    let t1 = match random_entry_(false, &mut data).unwrap() {
        RetRandomEntry::InWaitingList { access_token } => access_token,
        other => panic!("expected waiting, got {:?}", other),
    };
    random_entry_(false, &mut data).unwrap();
    let token = AccessToken::parse_str(&t1).unwrap();
    let room = data.lookup_room(token).unwrap().room_id;
    for _ in 0..3 {
        assert_eq!(
            random_entrance_cancel(false, &msg(&t1), &mut data),
            RetRandomCancel::Legal { cancellable: false }
        );
        assert_eq!(data.lookup_room(token).unwrap().room_id, room);
    }
}

#[test]
fn poll_twice_gives_the_same_reply() {
    let mut data = AppState::new();
    let t1 = match random_entry_(false, &mut data).unwrap() {
        RetRandomEntry::InWaitingList { access_token } => access_token,
        other => panic!("expected waiting, got {:?}", other),
    };
    let a = random_entrance_poll_(false, &msg(&t1), &data);
    let b = random_entrance_poll_(false, &msg(&t1), &data);
    assert_eq!(a, b);
    random_entry_(false, &mut data).unwrap();
    let c = random_entrance_poll_(false, &msg(&t1), &data);
    let d = random_entrance_poll_(false, &msg(&t1), &data);
    assert_eq!(c, d);
    assert_ne!(a, c);
}

#[test]
fn poll_of_unparsable_token_is_an_error() {
    let data = AppState::new();
    assert_eq!(
        random_entrance_poll_(false, &msg("xyz"), &data),
        RetRandomPoll::Illegal { why_illegal: "access token could not be parsed".to_string() }
    );
}

#[test]
fn poll_of_unknown_token_names_it() {
    let data = AppState::new();
    let unseen = "67e55044-10b1-426f-9247-bb680e5fe0c8";
    match random_entrance_poll_(false, &msg(unseen), &data) {
        RetRandomPoll::Illegal { why_illegal } => assert_eq!(
            why_illegal,
            "Invalid access token:\nI don't know 67e55044-10b1-426f-9247-bb680e5fe0c8, which is the access token that you sent me.\nPlease reapply by sending an empty object to random/entry ."
        ),
        other => panic!("expected an error, got {:?}", other),
    }
}

#[test]
fn three_entrants_leave_one_waiting() {
    let mut data = AppState::new();
    let mut waiting = 0;
    let mut assigned = 0;
    for _ in 0..3 {
        match random_entry_(false, &mut data).unwrap() {
            RetRandomEntry::InWaitingList { .. } => waiting += 1,
            RetRandomEntry::RoomAlreadyAssigned { .. } => assigned += 1,
        }
    }
    assert_eq!(waiting, 2);
    assert_eq!(assigned, 1);
}

fn tied_then(a_wins: bool) -> WhoGoesFirst {
    let one = Ciurl(true, false, false, false, false);
    let two = Ciurl(true, true, false, false, false);
    let last = if a_wins { [two, one] } else { [one, two] };
    WhoGoesFirst { result: a_wins, process: vec![[one, one], last] }
}

#[test]
fn pairing_with_chosen_values_gives_mirrored_views() {
    let mut data = AppState::new();
    let waiter = AccessToken(11);
    let newcomer = AccessToken(22);
    let room = RoomId(33);
    match join_waiting_list(&mut data, waiter).unwrap() {
        RetRandomEntry::InWaitingList { access_token } => assert_eq!(access_token, waiter.to_string()),
        other => panic!("expected waiting, got {:?}", other),
    }
    // the waiter's own token is known, so it cannot enter a second time
    let turns = || [tied_then(true), tied_then(false), tied_then(false), tied_then(true)];
    assert!(pair_with_waiting(&mut data, waiter, 0, room, turns(), true).is_none());
    assert!(data.is_waiting_token(waiter));
    match pair_with_waiting(&mut data, newcomer, 0, room, turns(), true).unwrap() {
        RetRandomEntry::RoomAlreadyAssigned { access_token, room_id, is_first_move_my_move, is_ia_down_for_me } => {
            assert_eq!(access_token, "00000000-0000-0000-0000-000000000016");
            assert_eq!(room_id, room);
            assert_eq!(is_first_move_my_move, turns());
            assert!(is_ia_down_for_me);
        }
        other => panic!("expected a room, got {:?}", other),
    }
    assert!(!data.is_waiting_token(waiter));
    let theirs = data.lookup_room(waiter).unwrap();
    assert_eq!(theirs.room_id, room);
    assert!(!theirs.is_ia_down_for_me);
    let results: Vec<bool> = theirs.is_first_move_my_move.iter().map(|w| w.result).collect();
    assert_eq!(results, vec![false, true, true, false]);
    assert_eq!(theirs.is_first_move_my_move[0].process[1][0].count(), 1);
    // spring result true and flag true: the IA side moves first
    assert!(data.game_state(room).unwrap().is_ia_owner_s_turn);
    match random_entrance_poll_(false, &msg(&waiter.to_string()), &data) {
        RetRandomPoll::Legal {
            ret: RetRandomEntry::RoomAlreadyAssigned { is_first_move_my_move, is_ia_down_for_me, .. },
        } => {
            let expected: Vec<WhoGoesFirst> = turns().iter().map(|w| w.not()).collect();
            assert_eq!(is_first_move_my_move.to_vec(), expected);
            assert!(!is_ia_down_for_me);
        }
        other => panic!("expected a room, got {:?}", other),
    }
}

#[test]
fn pairing_into_a_used_room_is_refused() {
    let mut data = AppState::new();
    let turns = || [tied_then(false), tied_then(false), tied_then(true), tied_then(true)];
    let bot_room = RoomId(7);
    match open_bot_room(&mut data, AccessToken(1), bot_room, turns(), false).unwrap() {
        RetVsCpuEntry::LetTheGameBegin { room_id, is_first_move_my_move, is_ia_down_for_me, .. } => {
            assert_eq!(room_id, bot_room);
            assert_eq!(is_first_move_my_move, turns());
            assert!(!is_ia_down_for_me);
        }
    }
    assert!(data.is_bot_room(bot_room));
    // spring result false and flag false agree: the IA side moves first
    assert!(data.game_state(bot_room).unwrap().is_ia_owner_s_turn);
    assert!(open_bot_room(&mut data, AccessToken(2), bot_room, turns(), false).is_none());
    assert!(open_bot_room(&mut data, AccessToken(1), RoomId(8), turns(), false).is_none());
    join_waiting_list(&mut data, AccessToken(3)).unwrap();
    assert!(pair_with_waiting(&mut data, AccessToken(4), 0, bot_room, turns(), true).is_none());
    assert!(data.is_waiting_token(AccessToken(3)));
    assert!(data.lookup_room(AccessToken(4)).is_none());
    assert!(pair_with_waiting(&mut data, AccessToken(4), 0, RoomId(9), turns(), true).is_some());
    assert!(!data.game_state(RoomId(9)).unwrap().is_ia_owner_s_turn);
}

#[test]
fn take_waiting_at_removes_exactly_that_participant() {
    let mut data = AppState::new();
    join_waiting_list(&mut data, AccessToken(40)).unwrap();
    assert_eq!(data.take_waiting_at(0), AccessToken(40));
    assert!(!data.is_waiting_token(AccessToken(40)));
    assert!(data.lookup_room(AccessToken(40)).is_none());
}

#[test]
fn entries_on_an_empty_registry_succeed() {
    let mut data = AppState::new();
    assert!(random_entry_(false, &mut data).is_ok());
    let mut other = AppState::new();
    let r = vs_cpu_entry_(false, &mut other);
    assert_ne!(r.as_ref().err(), Some(&EntryFault::IdentifierInUse));
    assert!(r.is_ok());
}
