//! The session registry: who waits for an opponent, which room each
//! participant plays in, the state of each room, and which rooms face a bot.
//! Every transaction takes the registry by `&mut`, so it is one critical
//! section for whoever holds the registry behind a lock.

use crate::ids::{uuid_parse, uuid_text, AccessToken, BotToken, RoomId};
use crate::random::{flip_coin, index_below, thread_rng};
use crate::types::{
    is_tournament, turns_of, lemma_mirror_involution, lemma_mirror_is_tournament, mirror, InfAfterStepInternal,
    MoveToBePolled, RetRandomCancel, RetRandomEntry, RetRandomPoll, RetVsCpuEntry, TurnOrder,
    WhoGoesFirst,
};
use std::collections::{HashMap, HashSet};
use vstd::prelude::*;
use vstd::string::StringExecFns;

verus! {

broadcast use vstd::std_specs::hash::group_hash_axioms;

#[verifier::external_type_specification]
#[verifier::external_body]
pub struct ExField(cetkaik_core::absolute::Field);

/// Relies on `cetkaik_core::absolute::yhuap_initial_board`: the starting
/// layout of the board, with both piles of captured pieces empty.
#[verifier::external_body]
fn initial_field() -> cetkaik_core::absolute::Field {
    cetkaik_core::absolute::Field {
        board: cetkaik_core::absolute::yhuap_initial_board(),
        a_side_hop1zuo1: vec![],
        ia_side_hop1zuo1: vec![],
    }
}

/// A season of the game's calendar; a game starts in spring.
#[derive(Clone, Copy, Debug, PartialEq, Eq, Structural)]
pub enum Season {
    Iei2,
    Xo1,
    Kat2,
    Iat1,
}

/// The stakes multiplier.
#[derive(Clone, Copy, Debug, PartialEq, Eq, Structural)]
pub enum Rate {
    X1,
    X2,
    X4,
    X8,
    X16,
    X32,
    X64,
}

/// The score that the IA side holds when a game begins.
pub const INITIAL_SCORE: i32 = 20;

/// The state of one room, written here once and changed afterwards by the
/// rules engine only.
#[derive(Debug)]
pub struct GameState {
    pub tam_itself_is_tam_hue: bool,
    pub season: Season,
    pub rate: Rate,
    pub ia_owner_s_score: i32,
    pub is_ia_owner_s_turn: bool,
    pub f: cetkaik_core::absolute::Field,
    pub waiting_for_after_half_acceptance: Option<InfAfterStepInternal>,
    pub moves_to_be_polled: [Vec<MoveToBePolled>; 4],
}

/// A state as it is when a room opens.
pub open spec fn is_initial_state(g: GameState, is_ia_owner_s_turn: bool) -> bool {
    &&& g.tam_itself_is_tam_hue
    &&& g.season == Season::Iei2
    &&& g.rate == Rate::X1
    &&& g.ia_owner_s_score == INITIAL_SCORE
    &&& g.is_ia_owner_s_turn == is_ia_owner_s_turn
    &&& g.waiting_for_after_half_acceptance.is_none()
    &&& forall|i: int| 0 <= i < 4 ==> (#[trigger] g.moves_to_be_polled@[i])@.len() == 0
}

impl GameState {
    /// The state of a room that has just opened.
    pub fn initial(is_ia_owner_s_turn: bool) -> (r: GameState)
        ensures
            is_initial_state(r, is_ia_owner_s_turn),
    {
        let r = GameState {
            tam_itself_is_tam_hue: true,
            season: Season::Iei2,
            rate: Rate::X1,
            ia_owner_s_score: INITIAL_SCORE,
            is_ia_owner_s_turn,
            f: initial_field(),
            waiting_for_after_half_acceptance: None,
            moves_to_be_polled: [Vec::new(), Vec::new(), Vec::new(), Vec::new()],
        };
        assert(r.moves_to_be_polled@[0] == r.moves_to_be_polled[0]);
        assert(r.moves_to_be_polled@[1] == r.moves_to_be_polled[1]);
        assert(r.moves_to_be_polled@[2] == r.moves_to_be_polled[2]);
        assert(r.moves_to_be_polled@[3] == r.moves_to_be_polled[3]);
        r
    }
}

/// One participant's view of a room.
#[derive(Debug)]
pub struct RoomInfoWithPerspective {
    pub room_id: RoomId,
    /// For each season, whether this participant moves first.
    pub is_first_move_my_move: [WhoGoesFirst; 4],
    pub is_ia_down_for_me: bool,
}

impl RoomInfoWithPerspective {
    pub open spec fn turn(self, i: int) -> TurnOrder {
        self.is_first_move_my_move@[i]@
    }
}

/// Two views of one room from its two seats: the same room, each season's
/// outcome mirrored, and the opposite flag.
pub open spec fn mirrored(a: RoomInfoWithPerspective, b: RoomInfoWithPerspective) -> bool {
    &&& a.room_id == b.room_id
    &&& forall|i: int| 0 <= i < 4 ==> #[trigger] a.turn(i) == mirror(b.turn(i))
    &&& a.is_ia_down_for_me == !b.is_ia_down_for_me
}

/// The request of a participant that identifies itself by its token.
pub struct MsgWithAccessToken {
    pub access_token: String,
}

/// The four registries behind one owner.
pub struct AppState {
    waiting_list: Vec<AccessToken>,
    person_to_room: HashMap<u128, RoomInfoWithPerspective>,
    room_to_gamestate: HashMap<u128, GameState>,
    rooms_where_opponent_is_bot: HashSet<u128>,
}

impl AppState {
    /// The tokens that wait for an opponent, in the order the list holds them.
    pub closed spec fn waiting(self) -> Seq<AccessToken> {
        self.waiting_list@
    }

    /// The room view of each participant that has a room, by token value.
    pub closed spec fn rooms(self) -> Map<u128, RoomInfoWithPerspective> {
        self.person_to_room@
    }

    /// The state of each room, by room id value.
    pub closed spec fn games(self) -> Map<u128, GameState> {
        self.room_to_gamestate@
    }

    /// The rooms whose second seat is a bot.
    pub closed spec fn bot_rooms(self) -> Set<u128> {
        self.rooms_where_opponent_is_bot@
    }

    pub open spec fn is_waiting(self, t: u128) -> bool {
        self.waiting().contains(AccessToken(t))
    }

    /// A token is known to the registry: it waits or it has a room.
    pub open spec fn knows(self, t: u128) -> bool {
        self.is_waiting(t) || self.rooms().contains_key(t)
    }

    /// The room of `t` is shared as a room must be: a bot room has `t` as
    /// its only human; any other room has exactly one more participant,
    /// whose view mirrors the view of `t`.
    pub open spec fn is_paired(self, t: u128) -> bool {
        let room = self.rooms()[t].room_id;
        if self.bot_rooms().contains(room.0) {
            forall|w: u128|
                #![trigger self.rooms()[w]]
                self.rooms().contains_key(w) && self.rooms()[w].room_id == room ==> w == t
        } else {
            exists|u: u128|
                #![trigger self.rooms()[u]]
                u != t && self.rooms().contains_key(u) && mirrored(self.rooms()[t], self.rooms()[u])
                    && forall|w: u128|
                    #![trigger self.rooms()[w]]
                    self.rooms().contains_key(w) && self.rooms()[w].room_id == room ==> w == t
                        || w == u
        }
    }

    pub open spec fn wf(self) -> bool {
        &&& self.waiting().no_duplicates()
        &&& forall|i: int|
            0 <= i < self.waiting().len() ==> !self.rooms().contains_key(
                (#[trigger] self.waiting()[i]).0,
            )
        &&& forall|t: u128| #[trigger]
            self.rooms().contains_key(t) ==> self.games().contains_key(self.rooms()[t].room_id.0)
        &&& forall|t: u128| #[trigger] self.rooms().contains_key(t) ==> self.is_paired(t)
        &&& forall|r: u128| #[trigger] self.bot_rooms().contains(r) ==> self.games().contains_key(r)
        &&& forall|t: u128, j: int|
            self.rooms().contains_key(t) && 0 <= j < 4 ==> is_tournament(#[trigger] self.rooms()[t].turn(j))
    }

    /// An empty registry.
    pub fn new() -> (r: AppState)
        ensures
            r.wf(),
            r.waiting().len() == 0,
            r.rooms().is_empty(),
            r.games().is_empty(),
            r.bot_rooms().is_empty(),
    {
        AppState {
            waiting_list: Vec::new(),
            person_to_room: HashMap::new(),
            room_to_gamestate: HashMap::new(),
            rooms_where_opponent_is_bot: HashSet::new(),
        }
    }
}

/// The reply to a token that cannot be read.
pub open spec fn unparsable_text() -> Seq<char> {
    "access token could not be parsed"@
}

/// The message for a token that the registry does not know: it names the
/// token and tells how to apply again.
pub open spec fn unknown_token_text(token: Seq<char>) -> Seq<char> {
    "Invalid access token:\nI don't know "@ + token
        + ", which is the access token that you sent me.\nPlease reapply by sending an empty object to random/entry ."@
}

fn unknown_token_message(token: &str) -> (r: String)
    ensures
        r@ == unknown_token_text(token@),
{
    let mut m = String::from_str("Invalid access token:\nI don't know ");
    m.append(token);
    m.append(", which is the access token that you sent me.\nPlease reapply by sending an empty object to random/entry .");
    m
}

fn unparsable_message() -> (r: String)
    ensures
        r@ == unparsable_text(),
{
    "access token could not be parsed".to_owned()
}

/// What a poll reply says, as plain values.
pub enum PollView {
    Illegal(Seq<char>),
    Waiting(Seq<char>),
    Assigned(Seq<char>, RoomId, Seq<TurnOrder>, bool),
}

pub open spec fn poll_view(r: RetRandomPoll) -> PollView {
    match r {
        RetRandomPoll::Illegal { why_illegal } => PollView::Illegal(why_illegal@),
        RetRandomPoll::Legal { ret } => match ret {
            RetRandomEntry::InWaitingList { access_token } => PollView::Waiting(access_token@),
            RetRandomEntry::RoomAlreadyAssigned {
                access_token,
                room_id,
                is_first_move_my_move,
                is_ia_down_for_me,
            } => PollView::Assigned(
                access_token@,
                room_id,
                turns_of(is_first_move_my_move),
                is_ia_down_for_me,
            ),
        },
    }
}

/// The reply that a poll with the token text `text` owes on registry `s`:
/// the participant's view of its room (room id, the four turn orders and
/// the flag) where it has one, "waiting" where it waits, an error otherwise.
pub open spec fn expected_poll(s: AppState, text: Seq<char>) -> PollView {
    match uuid_parse(text) {
        None => PollView::Illegal(unparsable_text()),
        Some(v) => if s.rooms().contains_key(v) {
            PollView::Assigned(
                uuid_text(v),
                s.rooms()[v].room_id,
                turns_of(s.rooms()[v].is_first_move_my_move),
                s.rooms()[v].is_ia_down_for_me,
            )
        } else if s.is_waiting(v) {
            PollView::Waiting(uuid_text(v))
        } else {
            PollView::Illegal(unknown_token_text(uuid_text(v)))
        },
    }
}

/// What a cancel does: an unreadable token is an error; a token with a room
/// cannot cancel and nothing changes; any other token leaves the waiting
/// list, if it was there, and may cancel.
pub open spec fn cancel_post(s: AppState, text: Seq<char>, s2: AppState, r: RetRandomCancel) -> bool {
    match uuid_parse(text) {
        None => s2 == s && match r {
            RetRandomCancel::Illegal { why_illegal } => why_illegal@ == unparsable_text(),
            RetRandomCancel::Legal { .. } => false,
        },
        Some(v) => if s.rooms().contains_key(v) {
            s2 == s && r == (RetRandomCancel::Legal { cancellable: false })
        } else {
            &&& r == (RetRandomCancel::Legal { cancellable: true })
            &&& s2.rooms() == s.rooms()
            &&& s2.games() == s.games()
            &&& s2.bot_rooms() == s.bot_rooms()
            &&& forall|t: u128| #[trigger] s2.is_waiting(t) == (s.is_waiting(t) && t != v)
            &&& !s.is_waiting(v) ==> s2.waiting() == s.waiting()
            &&& s.is_waiting(v) ==> exists|i: int|
                0 <= i < s.waiting().len() && s.waiting()[i] == AccessToken(v) && s2.waiting()
                    == #[trigger] s.waiting().remove(i)
        },
    }
}

/// Removing one entry from a list without repeats leaves a list without
/// repeats that holds exactly the other entries.
proof fn lemma_remove_unique(s: Seq<AccessToken>, i: int)
    requires
        s.no_duplicates(),
        0 <= i < s.len(),
    ensures
        s.remove(i).no_duplicates(),
        forall|x: AccessToken| #[trigger] s.remove(i).contains(x) == (s.contains(x) && x != s[i]),
{
    let r = s.remove(i);
    assert forall|x: AccessToken| #[trigger] r.contains(x) == (s.contains(x) && x != s[i]) by {
        if r.contains(x) {
            let j = choose|j: int| 0 <= j < r.len() && r[j] == x;
            if j < i {
                assert(s[j] == x);
            } else {
                assert(s[j + 1] == x);
            }
        }
        if s.contains(x) && x != s[i] {
            let j = choose|j: int| 0 <= j < s.len() && s[j] == x;
            if j < i {
                assert(r[j] == x);
            } else {
                assert(r[j - 1] == x);
            }
        }
    }
}

impl AppState {
    /// Where `t` stands in the waiting list, if it waits.
    fn waiting_position(&self, t: AccessToken) -> (r: Option<usize>)
        ensures
            match r {
                Some(i) => i < self.waiting().len() && self.waiting()[i as int] == t,
                None => !self.waiting().contains(t),
            },
    {
        let mut i: usize = 0;
        while i < self.waiting_list.len()
            invariant
                i <= self.waiting_list@.len(),
                forall|j: int| 0 <= j < i ==> self.waiting_list@[j] != t,
            decreases self.waiting_list@.len() - i,
        {
            if self.waiting_list[i].0 == t.0 {
                return Some(i);
            }
            i = i + 1;
        }
        None
    }

    /// Whether `t` waits for an opponent.
    pub fn is_waiting_token(&self, t: AccessToken) -> (r: bool)
        ensures
            r == self.is_waiting(t.0),
    {
        match self.waiting_position(t) {
            Some(_) => true,
            None => false,
        }
    }

    /// The room view of `t`, if it has a room.
    pub fn lookup_room(&self, t: AccessToken) -> (r: Option<&RoomInfoWithPerspective>)
        ensures
            match r {
                Some(info) => self.rooms().contains_key(t.0) && *info == self.rooms()[t.0],
                None => !self.rooms().contains_key(t.0),
            },
    {
        self.person_to_room.get(&t.0)
    }

    /// Whether a room with this id exists.
    pub fn has_game(&self, room: RoomId) -> (r: bool)
        ensures
            r == self.games().contains_key(room.0),
    {
        self.room_to_gamestate.contains_key(&room.0)
    }

    /// The state of a room, if it exists.
    pub fn game_state(&self, room: RoomId) -> (r: Option<&GameState>)
        ensures
            match r {
                Some(g) => self.games().contains_key(room.0) && *g == self.games()[room.0],
                None => !self.games().contains_key(room.0),
            },
    {
        self.room_to_gamestate.get(&room.0)
    }

    /// Whether the second seat of this room is a bot.
    pub fn is_bot_room(&self, room: RoomId) -> (r: bool)
        ensures
            r == self.bot_rooms().contains(room.0),
    {
        self.rooms_where_opponent_is_bot.contains(&room.0)
    }
}

/// Tells a participant where it stands: its room view, that it still
/// waits, or that its token is unknown or unreadable. Changes nothing.
pub fn random_entrance_poll_(_is_staging: bool, msg: &MsgWithAccessToken, data: &AppState) -> (r:
    RetRandomPoll)
    ensures
        poll_view(r) == expected_poll(*data, msg.access_token@),
        msg.access_token@.len() < 32 ==> poll_view(r) == PollView::Illegal(unparsable_text()),
{
    match AccessToken::parse_str(msg.access_token.as_str()) {
        Some(access_token) => match data.lookup_room(access_token) {
            Some(info) => RetRandomPoll::Legal {
                ret: RetRandomEntry::RoomAlreadyAssigned {
                    access_token: access_token.to_string(),
                    room_id: info.room_id,
                    is_first_move_my_move: copy_turn_orders(&info.is_first_move_my_move),
                    is_ia_down_for_me: info.is_ia_down_for_me,
                },
            },
            None => if data.is_waiting_token(access_token) {
                RetRandomPoll::Legal {
                    ret: RetRandomEntry::InWaitingList { access_token: access_token.to_string() },
                }
            } else {
                let text = access_token.to_string();
                RetRandomPoll::Illegal { why_illegal: unknown_token_message(text.as_str()) }
            },
        },
        None => RetRandomPoll::Illegal { why_illegal: unparsable_message() },
    }
}

/// Withdraws a waiting participant. A participant with a room cannot
/// withdraw; a token that nobody knows may.
pub fn random_entrance_cancel(_is_staging: bool, msg: &MsgWithAccessToken, data: &mut AppState) -> (r:
    RetRandomCancel)
    requires
        old(data).wf(),
    ensures
        final(data).wf(),
        cancel_post(*old(data), msg.access_token@, *final(data), r),
        msg.access_token@.len() < 32 ==> *final(data) == *old(data) && r is Illegal,
{
    match AccessToken::parse_str(msg.access_token.as_str()) {
        Some(access_token) => {
            if data.person_to_room.contains_key(&access_token.0) {
                RetRandomCancel::Legal { cancellable: false }
            } else {
                match data.waiting_position(access_token) {
                    Some(i) => {
                        proof {
                            lemma_remove_unique(data.waiting_list@, i as int);
                        }
                        let ghost before = *data;
                        data.waiting_list.remove(i);
                        assert forall|t: u128| #[trigger] data.is_waiting(t) == (before.is_waiting(t)
                            && t != access_token.0) by {
                            assert(before.waiting().remove(i as int).contains(AccessToken(t)) == (
                            before.waiting().contains(AccessToken(t)) && AccessToken(t)
                                != access_token));
                        }
                        assert forall|j: int| 0 <= j < data.waiting().len() implies !data.rooms().contains_key(
                            (#[trigger] data.waiting()[j]).0,
                        ) by {
                            assert(before.waiting().contains(data.waiting()[j]));
                        }
                        assert(data.rooms() == before.rooms());
                        assert(data.bot_rooms() == before.bot_rooms());
                        assert(data.games() == before.games());
                        assert forall|t: u128| #[trigger] data.rooms().contains_key(t) implies data.is_paired(t) by {
                            assert(before.is_paired(t));
                        }
                    },
                    None => {},
                }
                RetRandomCancel::Legal { cancellable: true }
            }
        },
        None => RetRandomCancel::Illegal { why_illegal: unparsable_message() },
    }
}

/// A room formed on registry `s`, giving `s2`: the participant with token
/// value `n` is paired with the one at position `i` of the waiting list,
/// which leaves the list; both get mirrored views of a room that did not
/// exist, whose four turn orders are tournaments, and the room gets its
/// initial state, in which the IA side moves first when the spring result of
/// `n` agrees with its flag.
pub open spec fn room_formed(s: AppState, s2: AppState, n: u128, i: int) -> bool {
    let p = s.waiting()[i].0;
    let mine = s2.rooms()[n];
    let room = mine.room_id.0;
    &&& 0 <= i < s.waiting().len()
    &&& s2.waiting() == s.waiting().remove(i)
    &&& !s.games().contains_key(room)
    &&& s2.rooms() == s.rooms().insert(n, mine).insert(p, s2.rooms()[p])
    &&& mirrored(mine, s2.rooms()[p])
    &&& forall|j: int| 0 <= j < 4 ==> is_tournament(#[trigger] mine.turn(j))
    &&& s2.games() == s.games().insert(room, s2.games()[room])
    &&& is_initial_state(s2.games()[room], mine.turn(0).result == mine.is_ia_down_for_me)
    &&& s2.bot_rooms() == s.bot_rooms()
}

/// What a random entry does: the caller gets a token that the registry did
/// not know. With nobody waiting, the token joins the waiting list; else a
/// room is formed with one of those who wait, and the reply carries the
/// caller's view of it: room id, four turn orders and flag.
pub open spec fn entry_post(s: AppState, s2: AppState, r: RetRandomEntry) -> bool {
    match r {
        RetRandomEntry::InWaitingList { access_token } => match uuid_parse(access_token@) {
            Some(n) => {
                &&& access_token@ == uuid_text(n)
                &&& !s.knows(n)
                &&& s.waiting().len() == 0
                &&& s2.waiting() == s.waiting().push(AccessToken(n))
                &&& s2.rooms() == s.rooms()
                &&& s2.games() == s.games()
                &&& s2.bot_rooms() == s.bot_rooms()
            },
            None => false,
        },
        RetRandomEntry::RoomAlreadyAssigned {
            access_token,
            room_id,
            is_first_move_my_move,
            is_ia_down_for_me,
        } => match uuid_parse(access_token@) {
            Some(n) => {
                &&& access_token@ == uuid_text(n)
                &&& !s.knows(n)
                &&& exists|i: int| room_formed(s, s2, n, i)
                &&& room_id == s2.rooms()[n].room_id
                &&& turns_of(is_first_move_my_move) == turns_of(s2.rooms()[n].is_first_move_my_move)
                &&& is_ia_down_for_me == s2.rooms()[n].is_ia_down_for_me
            },
            None => false,
        },
    }
}

/// The two views of a room mirror each other both ways.
proof fn lemma_mirrored_symmetric(a: RoomInfoWithPerspective, b: RoomInfoWithPerspective)
    requires
        mirrored(a, b),
    ensures
        mirrored(b, a),
{
    assert forall|i: int| 0 <= i < 4 implies #[trigger] b.turn(i) == mirror(a.turn(i)) by {
        lemma_mirror_involution(b.turn(i));
    }
}

/// Adding views of a new room `room`, and marking it or not as a bot room,
/// keeps paired a participant whose room is an older one.
proof fn lemma_other_room_stays_paired(s: AppState, s2: AppState, t: u128, room: RoomId)
    requires
        s.wf(),
        s.rooms().contains_key(t),
        !s.games().contains_key(room.0),
        forall|w: u128| #[trigger]
            s.rooms().contains_key(w) ==> s2.rooms().contains_key(w) && s2.rooms()[w] == s.rooms()[w],
        forall|w: u128| #[trigger]
            s2.rooms().contains_key(w) ==> s.rooms().contains_key(w) || s2.rooms()[w].room_id == room,
        forall|r: u128| r != room.0 ==> (#[trigger] s2.bot_rooms().contains(r) == s.bot_rooms().contains(r)),
    ensures
        s2.is_paired(t),
{
    assert(s.is_paired(t));
    let their_room = s.rooms()[t].room_id;
    assert(s.games().contains_key(their_room.0));
    assert(their_room != room);
    if s.bot_rooms().contains(their_room.0) {
        assert forall|w: u128| #![trigger s2.rooms()[w]]
            s2.rooms().contains_key(w) && s2.rooms()[w].room_id == their_room implies w == t by {
            assert(s.rooms().contains_key(w));
        }
    } else {
        let u = choose|u: u128|
            #![trigger s.rooms()[u]]
            u != t && s.rooms().contains_key(u) && mirrored(s.rooms()[t], s.rooms()[u]) && forall|
                w: u128,
            |
                #![trigger s.rooms()[w]]
                s.rooms().contains_key(w) && s.rooms()[w].room_id == their_room ==> w == t || w == u;
        assert(s2.rooms()[u] == s.rooms()[u]);
        assert forall|w: u128| #![trigger s2.rooms()[w]]
            s2.rooms().contains_key(w) && s2.rooms()[w].room_id == their_room implies w == t || w
                == u by {
            assert(s.rooms().contains_key(w));
        }
    }
}

/// Forming a room keeps the registry well formed.
proof fn lemma_room_formed_wf(s: AppState, s2: AppState, n: u128, i: int)
    requires
        s.wf(),
        !s.knows(n),
        room_formed(s, s2, n, i),
    ensures
        s2.wf(),
{
    let p = s.waiting()[i].0;
    let mine = s2.rooms()[n];
    let theirs = s2.rooms()[p];
    let room = mine.room_id;
    assert(s.waiting()[i] == AccessToken(p));
    assert(s.is_waiting(p));
    assert(p != n);
    assert(!s.rooms().contains_key(p));
    lemma_remove_unique(s.waiting(), i);
    lemma_mirrored_symmetric(mine, theirs);
    assert(!s.bot_rooms().contains(room.0));
    assert forall|j: int| 0 <= j < s2.waiting().len() implies !s2.rooms().contains_key(
        (#[trigger] s2.waiting()[j]).0,
    ) by {
        let x = s2.waiting()[j];
        assert(s.waiting().remove(i).contains(x));
        let k = choose|k: int| 0 <= k < s.waiting().len() && s.waiting()[k] == x;
        assert(!s.rooms().contains_key(s.waiting()[k].0));
        assert(x != AccessToken(p));
        assert(x != AccessToken(n));
    }
    assert forall|t: u128| #[trigger] s2.rooms().contains_key(t) implies s2.games().contains_key(
        s2.rooms()[t].room_id.0,
    ) by {
        if t != n && t != p {
            assert(s.rooms().contains_key(t));
        }
    }
    assert forall|t: u128, j: int|
        s2.rooms().contains_key(t) && 0 <= j < 4 implies is_tournament(#[trigger] s2.rooms()[t].turn(j)) by {
        if t == p {
            assert(is_tournament(mine.turn(j)));
            lemma_mirror_is_tournament(mine.turn(j));
        } else if t != n {
            assert(s.rooms()[t] == s2.rooms()[t]);
        }
    }
    assert forall|t: u128| #[trigger] s2.rooms().contains_key(t) implies s2.is_paired(t) by {
        if t == n {
            assert forall|w: u128| #![trigger s2.rooms()[w]]
                s2.rooms().contains_key(w) && s2.rooms()[w].room_id == room implies w == t || w == p by {
                if w != n && w != p {
                    assert(s.rooms().contains_key(w));
                }
            }
        } else if t == p {
            assert forall|w: u128| #![trigger s2.rooms()[w]]
                s2.rooms().contains_key(w) && s2.rooms()[w].room_id == room implies w == t || w == n by {
                if w != n && w != p {
                    assert(s.rooms().contains_key(w));
                }
            }
        } else {
            lemma_other_room_stays_paired(s, s2, t, room);
        }
    }
}

/// What an entry against a bot does: the caller gets a token that the
/// registry did not know and a room that did not exist, marked as a bot
/// room, with its initial state; the waiting list is not touched.
pub open spec fn vs_bot_post(s: AppState, s2: AppState, r: RetVsCpuEntry) -> bool {
    match r {
        RetVsCpuEntry::LetTheGameBegin {
            access_token,
            room_id,
            is_first_move_my_move,
            is_ia_down_for_me,
        } =>
            match uuid_parse(access_token@) {
            Some(n) => {
                let mine = s2.rooms()[n];
                let room = mine.room_id.0;
                &&& access_token@ == uuid_text(n)
                &&& !s.knows(n)
                &&& !s.games().contains_key(room)
                &&& s2.waiting() == s.waiting()
                &&& s2.rooms() == s.rooms().insert(n, mine)
                &&& s2.bot_rooms() == s.bot_rooms().insert(room)
                &&& s2.games() == s.games().insert(room, s2.games()[room])
                &&& is_initial_state(s2.games()[room], mine.turn(0).result == mine.is_ia_down_for_me)
                &&& forall|j: int| 0 <= j < 4 ==> is_tournament(#[trigger] mine.turn(j))
                &&& room_id == mine.room_id
                &&& turns_of(is_first_move_my_move) == turns_of(mine.is_first_move_my_move)
                &&& is_ia_down_for_me == mine.is_ia_down_for_me
            },
            None => false,
        },
    }
}

/// Opening a bot room keeps the registry well formed.
proof fn lemma_bot_room_wf(s: AppState, s2: AppState, n: u128)
    requires
        s.wf(),
        !s.knows(n),
        !s.games().contains_key(s2.rooms()[n].room_id.0),
        s2.waiting() == s.waiting(),
        s2.rooms() == s.rooms().insert(n, s2.rooms()[n]),
        s2.bot_rooms() == s.bot_rooms().insert(s2.rooms()[n].room_id.0),
        s2.games() == s.games().insert(s2.rooms()[n].room_id.0, s2.games()[s2.rooms()[n].room_id.0]),
        forall|j: int| 0 <= j < 4 ==> is_tournament(#[trigger] s2.rooms()[n].turn(j)),
    ensures
        s2.wf(),
{
    let room = s2.rooms()[n].room_id;
    assert forall|t: u128, j: int|
        s2.rooms().contains_key(t) && 0 <= j < 4 implies is_tournament(#[trigger] s2.rooms()[t].turn(j)) by {
        if t != n {
            assert(s.rooms()[t] == s2.rooms()[t]);
        }
    }
    assert forall|j: int| 0 <= j < s2.waiting().len() implies !s2.rooms().contains_key(
        (#[trigger] s2.waiting()[j]).0,
    ) by {
        assert(s.waiting().contains(s2.waiting()[j]));
    }
    assert forall|t: u128| #[trigger] s2.rooms().contains_key(t) implies s2.games().contains_key(
        s2.rooms()[t].room_id.0,
    ) by {
        if t != n {
            assert(s.rooms().contains_key(t));
        }
    }
    assert forall|t: u128| #[trigger] s2.rooms().contains_key(t) implies s2.is_paired(t) by {
        if t == n {
            assert forall|w: u128| #![trigger s2.rooms()[w]]
                s2.rooms().contains_key(w) && s2.rooms()[w].room_id == room implies w == t by {
                if w != n {
                    assert(s.rooms().contains_key(w));
                }
            }
        } else {
            lemma_other_room_stays_paired(s, s2, t, room);
        }
    }
}

pub fn open_a_room(_token: AccessToken, _new_token: AccessToken, _is_staging: bool) -> (r: RoomId) {
    RoomId::new_random()
}

pub fn open_a_room_against_bot(_token: BotToken, _new_token: AccessToken, _is_staging: bool) -> (r:
    RoomId) {
    RoomId::new_random()
}

/// The turn orders of the four seasons, one tournament each.
/// `None` where one of them stays tied for `MAX_ROUNDS` rounds.
fn draw_turn_orders(rng: &mut rand::rngs::ThreadRng) -> (r: Option<[WhoGoesFirst; 4]>)
    ensures
        match r {
            Some(t) => forall|j: int| 0 <= j < 4 ==> is_tournament(#[trigger] t@[j]@),
            None => true,
        },
{
    let a = match WhoGoesFirst::new(rng) {
        Some(w) => w,
        None => return None,
    };
    let b = match WhoGoesFirst::new(rng) {
        Some(w) => w,
        None => return None,
    };
    let c = match WhoGoesFirst::new(rng) {
        Some(w) => w,
        None => return None,
    };
    let d = match WhoGoesFirst::new(rng) {
        Some(w) => w,
        None => return None,
    };
    let r = [a, b, c, d];
    assert(r@[0] == r[0] && r@[1] == r[1] && r@[2] == r[2] && r@[3] == r[3]);
    Some(r)
}

/// A copy of the four turn orders.
fn copy_turn_orders(t: &[WhoGoesFirst; 4]) -> (r: [WhoGoesFirst; 4])
    ensures
        turns_of(r) == turns_of(*t),
{
    let a = t[0].duplicate();
    let b = t[1].duplicate();
    let c = t[2].duplicate();
    let d = t[3].duplicate();
    let r = [a, b, c, d];
    assert(r@[0] == r[0] && r@[1] == r[1] && r@[2] == r[2] && r@[3] == r[3]);
    assert(t@[0] == t[0] && t@[1] == t[1] && t@[2] == t[2] && t@[3] == t[3]);
    assert(turns_of(r) =~= turns_of(*t));
    r
}

/// The four turn orders seen from the other seat.
fn mirror_turn_orders(t: &[WhoGoesFirst; 4]) -> (r: [WhoGoesFirst; 4])
    ensures
        forall|j: int| 0 <= j < 4 ==> (#[trigger] r@[j])@ == mirror(t@[j]@),
{
    let a = t[0].not();
    let b = t[1].not();
    let c = t[2].not();
    let d = t[3].not();
    let r = [a, b, c, d];
    assert(r@[0] == r[0] && r@[1] == r[1] && r@[2] == r[2] && r@[3] == r[3]);
    assert(t@[0] == t[0] && t@[1] == t[1] && t@[2] == t[2] && t@[3] == t[3]);
    r
}

impl AppState {
    /// Takes the participant at position `pick` off the waiting list; with
    /// `pick` drawn uniformly, each waiting participant is equally likely.
    pub fn take_waiting_at(&mut self, pick: usize) -> (t: AccessToken)
        requires
            old(self).wf(),
            pick < old(self).waiting().len(),
        ensures
            final(self).wf(),
            t == old(self).waiting()[pick as int],
            final(self).waiting() == old(self).waiting().remove(pick as int),
            !final(self).is_waiting(t.0),
            final(self).rooms() == old(self).rooms(),
            final(self).games() == old(self).games(),
            final(self).bot_rooms() == old(self).bot_rooms(),
    {
        let ghost before = *self;
        proof {
            lemma_remove_unique(self.waiting_list@, pick as int);
        }
        let t = self.waiting_list.remove(pick);
        proof {
            assert(t == AccessToken(t.0));
            assert forall|j: int| 0 <= j < self.waiting().len() implies !self.rooms().contains_key(
                (#[trigger] self.waiting()[j]).0,
            ) by {
                assert(before.waiting().remove(pick as int).contains(self.waiting()[j]));
            }
            assert(self.rooms() == before.rooms());
            assert(self.games() == before.games());
            assert(self.bot_rooms() == before.bot_rooms());
            assert forall|u: u128| #[trigger] self.rooms().contains_key(u) implies self.is_paired(u) by {
                assert(before.is_paired(u));
            }
        }
        t
    }

    /// Whether the registry knows `t`.
    pub fn knows_token(&self, t: AccessToken) -> (r: bool)
        ensures
            r == self.knows(t.0),
    {
        self.person_to_room.contains_key(&t.0) || self.is_waiting_token(t)
    }
}

/// Puts a new participant with token `new_token` on the waiting list; the
/// registry must have nobody waiting. `None`, with nothing changed, exactly
/// where the registry already knows the token.
pub fn join_waiting_list(data: &mut AppState, new_token: AccessToken) -> (r: Option<RetRandomEntry>)
    requires
        old(data).wf(),
        old(data).waiting().len() == 0,
    ensures
        final(data).wf(),
        r is None <==> old(data).knows(new_token.0),
        match r {
            Some(e) => entry_post(*old(data), *final(data), e) && e is InWaitingList
                && uuid_parse(e->InWaitingList_access_token@) == Some(new_token.0)
                && final(data).is_waiting(new_token.0),
            None => *final(data) == *old(data),
        },
{
    if data.knows_token(new_token) {
        return None;
    }
    let ghost before = *data;
    data.waiting_list.push(new_token);
    let access_token = new_token.to_string();
    proof {
        assert(data.waiting() =~= seq![new_token]);
        assert(data.waiting()[0] == new_token);
        assert(data.rooms() == before.rooms());
        assert(data.games() == before.games());
        assert(data.bot_rooms() == before.bot_rooms());
        assert(data.waiting().no_duplicates());
        assert forall|t: u128| #[trigger] data.rooms().contains_key(t) implies data.is_paired(t) by {
            assert(before.is_paired(t));
        }
    }
    Some(RetRandomEntry::InWaitingList { access_token })
}

/// Pairs a new participant with token `new_token` with the participant at
/// position `pick` of the waiting list, in room `room_id`, with the given
/// turn orders and flag seen from the new participant. `None`, with nothing
/// changed, exactly where the registry already knows the token or the room.
pub fn pair_with_waiting(
    data: &mut AppState,
    new_token: AccessToken,
    pick: usize,
    room_id: RoomId,
    turns: [WhoGoesFirst; 4],
    is_ia_down_for_newtoken: bool,
) -> (r: Option<RetRandomEntry>)
    requires
        old(data).wf(),
        pick < old(data).waiting().len(),
        forall|j: int| 0 <= j < 4 ==> is_tournament(#[trigger] turns@[j]@),
    ensures
        final(data).wf(),
        r is None <==> (old(data).knows(new_token.0) || old(data).games().contains_key(room_id.0)),
        match r {
            Some(e) => {
                &&& entry_post(*old(data), *final(data), e)
                &&& room_formed(*old(data), *final(data), new_token.0, pick as int)
                &&& e is RoomAlreadyAssigned
                &&& uuid_parse(e->RoomAlreadyAssigned_access_token@) == Some(new_token.0)
                &&& final(data).rooms()[new_token.0].room_id == room_id
                &&& forall|j: int| 0 <= j < 4 ==> #[trigger] final(data).rooms()[new_token.0].turn(j) == turns@[j]@
                &&& final(data).rooms()[new_token.0].is_ia_down_for_me == is_ia_down_for_newtoken
            },
            None => *final(data) == *old(data),
        },
{
    if data.knows_token(new_token) {
        return None;
    }
    if data.room_to_gamestate.contains_key(&room_id.0) {
        return None;
    }
    let ghost before = *data;
    let token = data.take_waiting_at(pick);
    let shown = copy_turn_orders(&turns);
    let theirs = mirror_turn_orders(&turns);
    let is_ia_owner_s_turn = turns[0].result == is_ia_down_for_newtoken;
    let ghost mine_turns = turns;
    let ghost their_turns = theirs;
    data.person_to_room.insert(
        new_token.0,
        RoomInfoWithPerspective {
            room_id,
            is_first_move_my_move: turns,
            is_ia_down_for_me: is_ia_down_for_newtoken,
        },
    );
    data.person_to_room.insert(
        token.0,
        RoomInfoWithPerspective {
            room_id,
            is_first_move_my_move: theirs,
            is_ia_down_for_me: !is_ia_down_for_newtoken,
        },
    );
    data.room_to_gamestate.insert(room_id.0, GameState::initial(is_ia_owner_s_turn));
    proof {
        assert(before.waiting()[pick as int] == token);
        assert(token.0 != new_token.0) by {
            assert(before.waiting().contains(token));
        }
        let mine = data.rooms()[new_token.0];
        assert(mine.is_first_move_my_move == mine_turns);
        assert(mine_turns@[0] == mine_turns[0]);
        assert(data.rooms() =~= before.rooms().insert(new_token.0, mine).insert(
            token.0,
            data.rooms()[token.0],
        ));
        assert(data.games() =~= before.games().insert(room_id.0, data.games()[room_id.0]));
        assert(data.rooms()[token.0].is_first_move_my_move == their_turns);
        assert forall|j: int| 0 <= j < 4 implies #[trigger] data.rooms()[token.0].turn(j) == mirror(
            mine.turn(j),
        ) by {}
        lemma_mirrored_symmetric(data.rooms()[token.0], mine);
        assert(mirrored(mine, data.rooms()[token.0]));
        assert(room_formed(before, *data, new_token.0, pick as int));
        lemma_room_formed_wf(before, *data, new_token.0, pick as int);
        assert(turns_of(shown) == turns_of(mine.is_first_move_my_move));
    }
    let access_token = new_token.to_string();
    let r = RetRandomEntry::RoomAlreadyAssigned {
        access_token,
        room_id,
        is_first_move_my_move: shown,
        is_ia_down_for_me: is_ia_down_for_newtoken,
    };
    assert(entry_post(before, *data, r));
    Some(r)
}

/// Why an entry could not be made; the registry is then left as it was.
#[derive(Clone, Copy, Debug, PartialEq, Eq, Structural)]
pub enum EntryFault {
    /// A freshly drawn token or room id is already in use.
    IdentifierInUse,
    /// A turn-order tournament was still tied after `MAX_ROUNDS` rounds.
    TurnOrderUndecided,
}

/// Enters the caller for a random opponent: a fresh token, and a room with
/// a participant drawn uniformly from those who wait, if anybody waits.
/// On a registry that knows nobody, the caller is sure to wait.
pub fn random_entry_(is_staging: bool, data: &mut AppState) -> (r: Result<RetRandomEntry, EntryFault>)
    requires
        old(data).wf(),
    ensures
        final(data).wf(),
        match r {
            Ok(e) => entry_post(*old(data), *final(data), e),
            Err(_) => *final(data) == *old(data),
        },
        old(data).waiting().len() == 0 && old(data).rooms().is_empty() ==> r is Ok,
        old(data).waiting().len() == 0 ==> r != Err::<RetRandomEntry, EntryFault>(
            EntryFault::TurnOrderUndecided,
        ),
{
    let new_token = AccessToken::new_random();
    let len = data.waiting_list.len();
    if len == 0 {
        return match join_waiting_list(data, new_token) {
            Some(e) => Ok(e),
            None => Err(EntryFault::IdentifierInUse),
        };
    }
    let mut rng = thread_rng();
    let pick = index_below(&mut rng, len);
    let token = data.waiting_list[pick];
    let room_id = open_a_room(token, new_token, is_staging);
    let is_first_turn_newtoken_turn = match draw_turn_orders(&mut rng) {
        Some(t) => t,
        None => return Err(EntryFault::TurnOrderUndecided),
    };
    let is_ia_down_for_newtoken = flip_coin(&mut rng);
    match pair_with_waiting(
        data,
        new_token,
        pick,
        room_id,
        is_first_turn_newtoken_turn,
        is_ia_down_for_newtoken,
    ) {
        Some(e) => Ok(e),
        None => Err(EntryFault::IdentifierInUse),
    }
}

/// Opens room `room_id` for a new participant with token `new_token`
/// against a bot, with the given turn orders and flag. `None`, with nothing
/// changed, exactly where the registry already knows the token or the room.
pub fn open_bot_room(
    data: &mut AppState,
    new_token: AccessToken,
    room_id: RoomId,
    turns: [WhoGoesFirst; 4],
    is_ia_down_for_newtoken: bool,
) -> (r: Option<RetVsCpuEntry>)
    requires
        old(data).wf(),
        forall|j: int| 0 <= j < 4 ==> is_tournament(#[trigger] turns@[j]@),
    ensures
        final(data).wf(),
        r is None <==> (old(data).knows(new_token.0) || old(data).games().contains_key(room_id.0)),
        match r {
            Some(e) => {
                &&& vs_bot_post(*old(data), *final(data), e)
                &&& uuid_parse(e->LetTheGameBegin_access_token@) == Some(new_token.0)
                &&& final(data).rooms()[new_token.0].room_id == room_id
                &&& forall|j: int| 0 <= j < 4 ==> #[trigger] final(data).rooms()[new_token.0].turn(j) == turns@[j]@
                &&& final(data).rooms()[new_token.0].is_ia_down_for_me == is_ia_down_for_newtoken
            },
            None => *final(data) == *old(data),
        },
{
    if data.knows_token(new_token) {
        return None;
    }
    if data.room_to_gamestate.contains_key(&room_id.0) {
        return None;
    }
    let shown = copy_turn_orders(&turns);
    let is_ia_owner_s_turn = turns[0].result == is_ia_down_for_newtoken;
    let ghost before = *data;
    let ghost mine_turns = turns;
    data.person_to_room.insert(
        new_token.0,
        RoomInfoWithPerspective {
            room_id,
            is_first_move_my_move: turns,
            is_ia_down_for_me: is_ia_down_for_newtoken,
        },
    );
    data.rooms_where_opponent_is_bot.insert(room_id.0);
    data.room_to_gamestate.insert(room_id.0, GameState::initial(is_ia_owner_s_turn));
    proof {
        let mine = data.rooms()[new_token.0];
        assert(mine.is_first_move_my_move == mine_turns);
        assert(mine_turns@[0] == mine_turns[0]);
        assert(data.rooms() =~= before.rooms().insert(new_token.0, mine));
        assert(data.games() =~= before.games().insert(room_id.0, data.games()[room_id.0]));
        lemma_bot_room_wf(before, *data, new_token.0);
        assert(turns_of(shown) == turns_of(mine.is_first_move_my_move));
    }
    Some(
        RetVsCpuEntry::LetTheGameBegin {
            access_token: new_token.to_string(),
            room_id,
            is_first_move_my_move: shown,
            is_ia_down_for_me: is_ia_down_for_newtoken,
        },
    )
}

/// Enters the caller against a bot, in a room of its own at once. On a
/// registry that knows nobody, no identifier can be in use.
pub fn vs_cpu_entry_(is_staging: bool, data: &mut AppState) -> (r: Result<RetVsCpuEntry, EntryFault>)
    requires
        old(data).wf(),
    ensures
        final(data).wf(),
        match r {
            Ok(e) => vs_bot_post(*old(data), *final(data), e),
            Err(_) => *final(data) == *old(data),
        },
        old(data).waiting().len() == 0 && old(data).rooms().is_empty() && old(data).games().is_empty()
            ==> r != Err::<RetVsCpuEntry, EntryFault>(EntryFault::IdentifierInUse),
{
    let new_token = AccessToken::new_random();
    let bot_token = BotToken::new_random();
    let room_id = open_a_room_against_bot(bot_token, new_token, is_staging);
    let mut rng = thread_rng();
    let is_first_turn_newtoken_turn = match draw_turn_orders(&mut rng) {
        Some(t) => t,
        None => return Err(EntryFault::TurnOrderUndecided),
    };
    let is_ia_down_for_newtoken = flip_coin(&mut rng);
    match open_bot_room(data, new_token, room_id, is_first_turn_newtoken_turn, is_ia_down_for_newtoken) {
        Some(e) => Ok(e),
        None => Err(EntryFault::IdentifierInUse),
    }
}

/// Rooms pair participants two at a time: a participant with a room shares
/// it with exactly one other participant, whose view mirrors its own (so
/// their results are opposite in every season), or is the only human of a
/// bot room; and the room has a state. Every transaction keeps `wf`, so this
/// holds after any sequence of them.
pub proof fn lemma_rooms_pair_up(s: AppState, t: u128)
    requires
        s.wf(),
        s.rooms().contains_key(t),
    ensures
        s.is_paired(t),
        s.games().contains_key(s.rooms()[t].room_id.0),
        !s.bot_rooms().contains(s.rooms()[t].room_id.0) ==> exists|u: u128|
            #![trigger s.rooms()[u]]
            u != t && s.rooms().contains_key(u) && s.rooms()[u].room_id == s.rooms()[t].room_id
                && forall|i: int|
                0 <= i < 4 ==> #[trigger] s.rooms()[u].turn(i).result == !s.rooms()[t].turn(i).result,
{
    if !s.bot_rooms().contains(s.rooms()[t].room_id.0) {
        let u = choose|u: u128|
            #![trigger s.rooms()[u]]
            u != t && s.rooms().contains_key(u) && mirrored(s.rooms()[t], s.rooms()[u]) && forall|
                w: u128,
            |
                #![trigger s.rooms()[w]]
                s.rooms().contains_key(w) && s.rooms()[w].room_id == s.rooms()[t].room_id ==> w
                    == t || w == u;
        lemma_mirrored_symmetric(s.rooms()[t], s.rooms()[u]);
        assert forall|i: int| 0 <= i < 4 implies #[trigger] s.rooms()[u].turn(i).result
            == !s.rooms()[t].turn(i).result by {
            assert(s.rooms()[u].turn(i) == mirror(s.rooms()[t].turn(i)));
        }
    }
}

/// Polling twice in a row, with no transaction in between, gives the same
/// reply: a poll changes nothing and its reply depends on the registry and
/// the token alone.
pub proof fn lemma_poll_idempotent(s: AppState, text: Seq<char>, r1: RetRandomPoll, r2: RetRandomPoll)
    requires
        poll_view(r1) == expected_poll(s, text),
        poll_view(r2) == expected_poll(s, text),
    ensures
        poll_view(r1) == poll_view(r2),
{
}

/// Once a token has a room, a cancel answers that it cannot cancel and
/// leaves the registry unchanged, so the token still has its room for the
/// next cancel.
pub proof fn lemma_cancel_after_assignment(
    s: AppState,
    text: Seq<char>,
    s2: AppState,
    r: RetRandomCancel,
)
    requires
        uuid_parse(text) is Some,
        s.rooms().contains_key(uuid_parse(text)->Some_0),
        cancel_post(s, text, s2, r),
    ensures
        s2 == s,
        r == (RetRandomCancel::Legal { cancellable: false }),
        s2.rooms().contains_key(uuid_parse(text)->Some_0),
{
}

/// No transaction takes a room away: entries only add views, and a cancel
/// never touches them.
pub proof fn lemma_rooms_are_kept(s: AppState, s2: AppState, t: u128)
    requires
        s.wf(),
        s.rooms().contains_key(t),
        (exists|e: RetRandomEntry| entry_post(s, s2, e)) || (exists|e: RetVsCpuEntry|
            vs_bot_post(s, s2, e)) || (exists|text: Seq<char>, c: RetRandomCancel|
            cancel_post(s, text, s2, c)),
    ensures
        s2.rooms().contains_key(t),
        s2.rooms()[t] == s.rooms()[t],
{
    if exists|e: RetRandomEntry| entry_post(s, s2, e) {
        let e = choose|e: RetRandomEntry| entry_post(s, s2, e);
        match e {
            RetRandomEntry::InWaitingList { .. } => {},
            RetRandomEntry::RoomAlreadyAssigned { access_token, .. } => {
                let n = uuid_parse(access_token@)->Some_0;
                let i = choose|i: int| room_formed(s, s2, n, i);
                assert(s.waiting()[i] == AccessToken(s.waiting()[i].0));
                assert(!s.rooms().contains_key(s.waiting()[i].0));
            },
        }
    } else if exists|e: RetVsCpuEntry| vs_bot_post(s, s2, e) {
        let e = choose|e: RetVsCpuEntry| vs_bot_post(s, s2, e);
        assert(vs_bot_post(s, s2, e));
    } else {
        let (text, c) = choose|text: Seq<char>, c: RetRandomCancel| cancel_post(s, text, s2, c);
        assert(cancel_post(s, text, s2, c));
    }
}

/// A random entry that forms a room puts exactly two participants in it:
/// the caller and one who was waiting; the room is new.
pub proof fn lemma_entry_room_holds_two(s: AppState, s2: AppState, e: RetRandomEntry)
    requires
        s.wf(),
        entry_post(s, s2, e),
        e is RoomAlreadyAssigned,
    ensures
        ({
            let n = uuid_parse(e->RoomAlreadyAssigned_access_token@)->Some_0;
            let room = s2.rooms()[n].room_id;
            exists|w: u128|
                #![trigger s2.rooms()[w]]
                w != n && s.is_waiting(w) && s2.rooms().contains_key(w) && s2.rooms()[w].room_id == room
                    && forall|x: u128|
                    #![trigger s2.rooms()[x]]
                    s2.rooms().contains_key(x) && s2.rooms()[x].room_id == room ==> x == n || x == w
        }),
        forall|x: u128|
            #![trigger s.rooms()[x]]
            s.rooms().contains_key(x) ==> s.rooms()[x].room_id != s2.rooms()[uuid_parse(
                e->RoomAlreadyAssigned_access_token@,
            )->Some_0].room_id,
{
    let n = uuid_parse(e->RoomAlreadyAssigned_access_token@)->Some_0;
    let i = choose|i: int| room_formed(s, s2, n, i);
    let p = s.waiting()[i].0;
    let room = s2.rooms()[n].room_id;
    assert(s.waiting()[i] == AccessToken(p));
    assert(s.is_waiting(p));
    assert(!s.rooms().contains_key(p));
    assert forall|x: u128| #![trigger s.rooms()[x]] s.rooms().contains_key(x) implies s.rooms()[x].room_id
        != room by {
        assert(s.games().contains_key(s.rooms()[x].room_id.0));
    }
    assert forall|x: u128| #![trigger s2.rooms()[x]]
        s2.rooms().contains_key(x) && s2.rooms()[x].room_id == room implies x == n || x == p by {
        if x != n && x != p {
            assert(s.rooms().contains_key(x));
            assert(s.rooms()[x] == s2.rooms()[x]);
        }
    }
    assert(s2.rooms()[p].room_id == room);
}

/// An entry against a bot puts exactly one participant in its room, the
/// caller, and marks the room as a bot room; the room is new.
pub proof fn lemma_bot_room_holds_one(s: AppState, s2: AppState, e: RetVsCpuEntry)
    requires
        s.wf(),
        vs_bot_post(s, s2, e),
    ensures
        ({
            let n = uuid_parse(e->LetTheGameBegin_access_token@)->Some_0;
            let room = s2.rooms()[n].room_id;
            &&& s2.bot_rooms().contains(room.0)
            &&& !s2.is_waiting(n)
            &&& forall|x: u128|
                #![trigger s2.rooms()[x]]
                s2.rooms().contains_key(x) && s2.rooms()[x].room_id == room ==> x == n
        }),
{
    let n = uuid_parse(e->LetTheGameBegin_access_token@)->Some_0;
    let room = s2.rooms()[n].room_id;
    assert forall|x: u128| #![trigger s2.rooms()[x]]
        s2.rooms().contains_key(x) && s2.rooms()[x].room_id == room implies x == n by {
        if x != n {
            assert(s.rooms().contains_key(x));
            assert(s.games().contains_key(s.rooms()[x].room_id.0));
        }
    }
}

} // verus!
