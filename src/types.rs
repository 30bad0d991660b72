//! Value types exchanged with players: sticks, turn-order tournaments,
//! moves and the replies of each endpoint.

use crate::ids::RoomId;
use crate::random::flip_coin;
use vstd::prelude::*;
use vstd::string::StringExecFns;

verus! {

/// A type that serializes into `{}`.
#[derive(Clone, Copy, PartialEq, Eq, Debug, Structural)]
pub struct Unit {}

#[derive(Clone, Copy, Debug, PartialEq, Eq, Structural)]
pub enum Color {
    Kok1,
    Huok2,
}

#[derive(Clone, Copy, Debug, PartialEq, Eq, Structural)]
pub enum Profession {
    Nuak1,
    Kauk2,
    Gua2,
    Kaun1,
    Dau2,
    Maun1,
    Kua2,
    Tuk2,
    Uai1,
    Io,
}

/// One throw of five two-sided sticks; `true` is a stick that landed face up.
#[derive(Clone, Copy, Debug, PartialEq, Eq, Structural)]
pub struct Ciurl(pub bool, pub bool, pub bool, pub bool, pub bool);

pub open spec fn face_up(b: bool) -> nat {
    if b { 1 } else { 0 }
}

impl Ciurl {
    /// The number of sticks that landed face up.
    pub open spec fn strength(self) -> nat {
        face_up(self.0) + face_up(self.1) + face_up(self.2) + face_up(self.3) + face_up(self.4)
    }

    /// Throws five fair sticks.
    pub fn new(rng: &mut rand::rngs::ThreadRng) -> (r: Ciurl) {
        let a = flip_coin(rng);
        let b = flip_coin(rng);
        let c = flip_coin(rng);
        let d = flip_coin(rng);
        let e = flip_coin(rng);
        Ciurl(a, b, c, d, e)
    }

    pub fn count(self) -> (r: usize)
        ensures
            r == self.strength(),
            r <= 5,
    {
        let mut n: usize = 0;
        if self.0 {
            n = n + 1;
        }
        if self.1 {
            n = n + 1;
        }
        if self.2 {
            n = n + 1;
        }
        if self.3 {
            n = n + 1;
        }
        if self.4 {
            n = n + 1;
        }
        n
    }
}

/// How many rounds a turn-order tournament may take before it is given up
/// as a fault. A tie has probability 252/1024 per round, so the bound is
/// never met in practice.
pub const MAX_ROUNDS: usize = 1000;

/// The mathematical content of a `WhoGoesFirst`: the result and the trace
/// of throws, each round as (throw of this side, throw of the other side).
pub struct TurnOrder {
    pub result: bool,
    pub trace: Seq<(Ciurl, Ciurl)>,
}

pub open spec fn round_of(p: [Ciurl; 2]) -> (Ciurl, Ciurl) {
    (p@[0], p@[1])
}

/// A round that ends the tournament: one side threw more sticks face up.
pub open spec fn decisive(p: (Ciurl, Ciurl)) -> bool {
    p.0.strength() != p.1.strength()
}

/// The outcome seen from the other seat: the result negated and each round
/// with its two throws swapped.
pub open spec fn mirror(o: TurnOrder) -> TurnOrder {
    TurnOrder { result: !o.result, trace: o.trace.map_values(|p: (Ciurl, Ciurl)| (p.1, p.0)) }
}

/// A finished tournament: every round but the last is a tie, and the last
/// round gives the result to the side with more sticks face up.
pub open spec fn is_tournament(o: TurnOrder) -> bool {
    &&& 0 < o.trace.len() <= MAX_ROUNDS
    &&& forall|i: int| 0 <= i < o.trace.len() - 1 ==> !decisive(#[trigger] o.trace[i])
    &&& decisive(o.trace.last())
    &&& o.result == (o.trace.last().0.strength() > o.trace.last().1.strength())
}

/// The contents of the four turn orders of a room view.
pub open spec fn turns_of(a: [WhoGoesFirst; 4]) -> Seq<TurnOrder> {
    a@.map_values(|w: WhoGoesFirst| w@)
}

/// Which side moves first in one season, with the throws that decided it.
#[derive(Debug, PartialEq, Eq, Clone)]
pub struct WhoGoesFirst {
    pub result: bool,
    pub process: Vec<[Ciurl; 2]>,
}

impl View for WhoGoesFirst {
    type V = TurnOrder;

    open spec fn view(&self) -> TurnOrder {
        TurnOrder { result: self.result, trace: self.process@.map_values(|p: [Ciurl; 2]| round_of(p)) }
    }
}

impl WhoGoesFirst {
    /// Settles a tournament on given throws, one pair per round: the
    /// result and the trace up to the first round that one side wins.
    /// `None` where every round among the first `MAX_ROUNDS` is a tie.
    pub fn decide(throws: &Vec<[Ciurl; 2]>) -> (r: Option<Self>)
        ensures
            r is None <==> forall|i: int|
                0 <= i < throws@.len() && i < MAX_ROUNDS ==> !decisive(#[trigger] round_of(throws@[i])),
            match r {
                Some(w) => is_tournament(w@) && w.process@ == throws@.subrange(0, w.process@.len() as int),
                None => true,
            },
    {
        let mut process: Vec<[Ciurl; 2]> = Vec::new();
        let mut i: usize = 0;
        while i < throws.len() && i < MAX_ROUNDS
            invariant
                i <= throws@.len(),
                i <= MAX_ROUNDS,
                process@ == throws@.subrange(0, i as int),
                forall|j: int| 0 <= j < i ==> !decisive(#[trigger] round_of(throws@[j])),
            decreases MAX_ROUNDS - i,
        {
            let pair = throws[i];
            process.push(pair);
            assert(process@ =~= throws@.subrange(0, i + 1));
            let c1 = pair[0].count();
            let c2 = pair[1].count();
            if c1 != c2 {
                let r = WhoGoesFirst { process, result: c1 > c2 };
                assert(r@.trace.last() == round_of(pair));
                assert forall|j: int| 0 <= j < r@.trace.len() - 1 implies !decisive(#[trigger] r@.trace[j]) by {
                    assert(r@.trace[j] == round_of(throws@[j]));
                }
                return Some(r);
            }
            i = i + 1;
        }
        None
    }

    /// Runs the tournament: both sides throw until one has more sticks face
    /// up than the other; that side moves first (`true` for this side).
    /// `None` is the fault of a tournament still tied after `MAX_ROUNDS`
    /// rounds.
    pub fn new(rng: &mut rand::rngs::ThreadRng) -> (r: Option<Self>)
        ensures
            match r {
                Some(w) => is_tournament(w@),
                None => true,
            },
    {
        let mut throws: Vec<[Ciurl; 2]> = Vec::new();
        loop
            invariant_except_break
                throws@.len() < MAX_ROUNDS,
            decreases MAX_ROUNDS - throws@.len(),
        {
            let ciurl1 = Ciurl::new(rng);
            let ciurl2 = Ciurl::new(rng);
            throws.push([ciurl1, ciurl2]);
            if ciurl1.count() != ciurl2.count() || throws.len() == MAX_ROUNDS {
                break;
            }
        }
        WhoGoesFirst::decide(&throws)
    }

    /// The same outcome seen by the other participant.
    pub fn not(&self) -> (r: Self)
        ensures
            r@ == mirror(self@),
    {
        let mut process: Vec<[Ciurl; 2]> = Vec::new();
        let mut i: usize = 0;
        while i < self.process.len()
            invariant
                i <= self.process@.len(),
                process@.len() == i,
                forall|j: int| 0 <= j < i ==> round_of(#[trigger] process@[j]) == (
                    round_of(self.process@[j]).1,
                    round_of(self.process@[j]).0,
                ),
            decreases self.process@.len() - i,
        {
            let pair = self.process[i];
            let swapped = [pair[1], pair[0]];
            assert(round_of(swapped) == (round_of(pair).1, round_of(pair).0));
            process.push(swapped);
            i = i + 1;
        }
        let r = WhoGoesFirst { process, result: !self.result };
        assert(r@.trace =~= mirror(self@).trace);
        r
    }

    /// A copy that holds the same result and the same throws.
    pub fn duplicate(&self) -> (r: Self)
        ensures
            r@ == self@,
    {
        let mut process: Vec<[Ciurl; 2]> = Vec::new();
        let mut i: usize = 0;
        while i < self.process.len()
            invariant
                i <= self.process@.len(),
                process@ == self.process@.subrange(0, i as int),
            decreases self.process@.len() - i,
        {
            process.push(self.process[i]);
            i = i + 1;
            assert(process@ =~= self.process@.subrange(0, i as int));
        }
        assert(process@ =~= self.process@);
        WhoGoesFirst { process, result: self.result }
    }
}

/// Seeing an outcome from the other seat twice gives the outcome back, and
/// the other seat always sees the opposite result.
pub proof fn lemma_mirror_involution(o: TurnOrder)
    ensures
        mirror(mirror(o)) == o,
        mirror(o).result == !o.result,
{
    assert(mirror(mirror(o)).trace =~= o.trace);
}

/// The other seat's view of a tournament is itself a tournament.
pub proof fn lemma_mirror_is_tournament(o: TurnOrder)
    requires
        is_tournament(o),
    ensures
        is_tournament(mirror(o)),
{
    let m = mirror(o);
    assert forall|i: int| 0 <= i < m.trace.len() - 1 implies !decisive(#[trigger] m.trace[i]) by {
        assert(!decisive(o.trace[i]));
    }
}


#[derive(Clone, Copy, Debug, PartialEq, Eq, Structural)]
pub enum TacticsKey {
    VictoryAlmostCertain,
    StrengthenedShaman,
    FreeLunch,
    AvoidDefeat,
    LossAlmostCertain,
    Neutral,
}

/// The name under which a tactics key travels.
pub open spec fn tactics_name(k: TacticsKey) -> Seq<char> {
    match k {
        TacticsKey::VictoryAlmostCertain => "victory_almost_certain"@,
        TacticsKey::StrengthenedShaman => "strengthened_shaman"@,
        TacticsKey::FreeLunch => "free_lunch"@,
        TacticsKey::AvoidDefeat => "avoid_defeat"@,
        TacticsKey::LossAlmostCertain => "loss_almost_certain"@,
        TacticsKey::Neutral => "neutral"@,
    }
}

/// The message that names an unknown tactics key.
pub open spec fn unknown_tactics_text(name: Seq<char>) -> Seq<char> {
    "unknown tactics name `"@ + name + "` found. Please edit cerke_online_backend_rewritten repository."@
}

fn unknown_tactics_message(name: &str) -> (r: String)
    ensures
        r@ == unknown_tactics_text(name@),
{
    let mut m = String::from_str("unknown tactics name `");
    m.append(name);
    m.append("` found. Please edit cerke_online_backend_rewritten repository.");
    m
}

fn same_text(a: &str, b: &str) -> (r: bool)
    ensures
        r == (a@ == b@),
{
    a.to_owned() == b.to_owned()
}

impl TacticsKey {
    /// Reads a tactics key from its name.
    pub fn try_from(value: &str) -> (r: Result<TacticsKey, String>)
        ensures
            match r {
                Ok(k) => tactics_name(k) == value@,
                Err(e) => e@ == unknown_tactics_text(value@) && forall|k: TacticsKey|
                    tactics_name(k) != value@,
            },
    {
        proof {
            reveal_strlit("victory_almost_certain");
            reveal_strlit("strengthened_shaman");
            reveal_strlit("free_lunch");
            reveal_strlit("avoid_defeat");
            reveal_strlit("loss_almost_certain");
            reveal_strlit("neutral");
        }
        if same_text(value, "victory_almost_certain") {
            Ok(TacticsKey::VictoryAlmostCertain)
        } else if same_text(value, "strengthened_shaman") {
            Ok(TacticsKey::StrengthenedShaman)
        } else if same_text(value, "free_lunch") {
            Ok(TacticsKey::FreeLunch)
        } else if same_text(value, "avoid_defeat") {
            Ok(TacticsKey::AvoidDefeat)
        } else if same_text(value, "loss_almost_certain") {
            Ok(TacticsKey::LossAlmostCertain)
        } else if same_text(value, "neutral") {
            Ok(TacticsKey::Neutral)
        } else {
            Err(unknown_tactics_message(value))
        }
    }

    /// The name under which the key travels.
    pub fn as_str(self) -> (r: &'static str)
        ensures
            r@ == tactics_name(self),
    {
        match self {
            TacticsKey::VictoryAlmostCertain => "victory_almost_certain",
            TacticsKey::StrengthenedShaman => "strengthened_shaman",
            TacticsKey::FreeLunch => "free_lunch",
            TacticsKey::AvoidDefeat => "avoid_defeat",
            TacticsKey::LossAlmostCertain => "loss_almost_certain",
            TacticsKey::Neutral => "neutral",
        }
    }
}

/// Reading a key back from its name gives the key.
pub proof fn lemma_tactics_name_injective(a: TacticsKey, b: TacticsKey)
    ensures
        tactics_name(a) == tactics_name(b) ==> a == b,
{
    reveal_strlit("victory_almost_certain");
    reveal_strlit("strengthened_shaman");
    reveal_strlit("free_lunch");
    reveal_strlit("avoid_defeat");
    reveal_strlit("loss_almost_certain");
    reveal_strlit("neutral");
    if tactics_name(a) == tactics_name(b) && a != b {
        assert(tactics_name(a).len() != tactics_name(b).len() || tactics_name(a)[0] != tactics_name(b)[0]
            || tactics_name(a)[1] != tactics_name(b)[1]);
    }
}

#[derive(Debug, PartialEq, Eq)]
pub enum RetTyMok {
    Illegal,
    Legal,
}

#[derive(Debug, PartialEq, Eq)]
pub enum RetTaXot {
    Illegal,
    Legal { is_first_move_my_move: Option<WhoGoesFirst> },
}

#[derive(Debug, PartialEq, Eq)]
pub enum RetInfAfterStep {
    Legal { ciurl: Ciurl },
    Illegal { why_illegal: String },
}

#[derive(Debug, PartialEq, Eq)]
pub enum RetNormalMove {
    Illegal { why_illegal: String },
    WithWaterEntry { ciurl: Ciurl },
    WithoutWaterEntry,
}

#[derive(Debug, PartialEq, Eq)]
pub enum RetAfterHalfAcceptance {
    Illegal { why_illegal: String },
    WithWaterEntry { ciurl: Ciurl },
    WithoutWaterEntry,
}

#[derive(Debug, PartialEq, Eq)]
pub enum RetRandomEntry {
    InWaitingList { access_token: String },
    RoomAlreadyAssigned {
        access_token: String,
        room_id: RoomId,
        /// For each season, whether this participant moves first.
        is_first_move_my_move: [WhoGoesFirst; 4],
        is_ia_down_for_me: bool,
    },
}

#[derive(Debug, PartialEq, Eq)]
pub enum RetVsCpuEntry {
    LetTheGameBegin {
        access_token: String,
        room_id: RoomId,
        /// For each season, whether this participant moves first.
        is_first_move_my_move: [WhoGoesFirst; 4],
        is_ia_down_for_me: bool,
    },
}

#[derive(Debug, PartialEq, Eq)]
pub enum RetRandomPoll {
    Illegal { why_illegal: String },
    Legal { ret: RetRandomEntry },
}

#[derive(Debug, PartialEq, Eq)]
pub enum RetRandomCancel {
    Illegal { why_illegal: String },
    Legal { cancellable: bool },
}

#[derive(Debug, PartialEq, Eq)]
pub enum RetWhetherTyMokPoll {
    TyMok,
    TaXot { is_first_move_my_move: Option<WhoGoesFirst> },
    NotYetDetermined,
    Illegal { why_illegal: String },
}

#[verifier::external_type_specification]
#[verifier::external_body]
pub struct ExCoord(cetkaik_core::absolute::Coord);

pub type AbsoluteCoord = cetkaik_core::absolute::Coord;

#[derive(Debug)]
pub enum NormalMove {
    NonTamMove { data: NonTamMoveDotData },
    TamMove { flatten: TamMoveInternal },
}

#[derive(Debug, PartialEq, Eq, Clone, Copy)]
pub enum NonTamMoveDotData {
    FromHand { color: Color, profession: Profession, dest: AbsoluteCoord },
    SrcDst { src: AbsoluteCoord, dest: AbsoluteCoord, water_entry_ciurl: Option<Ciurl> },
    SrcStepDstFinite {
        src: AbsoluteCoord,
        step: AbsoluteCoord,
        dest: AbsoluteCoord,
        water_entry_ciurl: Option<Ciurl>,
    },
}

#[derive(Debug, PartialEq, Eq, Clone, Copy)]
pub enum TamMoveInternal {
    NoStep { src: AbsoluteCoord, first_dest: AbsoluteCoord, second_dest: AbsoluteCoord },
    StepsDuringFormer {
        src: AbsoluteCoord,
        step: AbsoluteCoord,
        first_dest: AbsoluteCoord,
        second_dest: AbsoluteCoord,
    },
    StepsDuringLatter {
        src: AbsoluteCoord,
        step: AbsoluteCoord,
        first_dest: AbsoluteCoord,
        second_dest: AbsoluteCoord,
    },
}

#[derive(Debug, Copy, Clone, Eq, PartialEq)]
pub enum MainMessage {
    InfAfterStep { flatten: InfAfterStepInternal },
    NonTamMove { data: NonTamMoveDotData },
    TamMove { flatten: TamMoveInternal },
}

#[derive(Debug, Copy, Clone, Eq, PartialEq)]
pub enum AfterHalfAcceptanceMessage {
    AfterHalfAcceptance { dest: Option<AbsoluteCoord> },
}

#[derive(PartialEq, Eq, Debug, Copy, Clone)]
pub struct InfAfterStepInternal {
    pub src: AbsoluteCoord,
    pub step: AbsoluteCoord,
    pub coord_signifying_planned_direction: AbsoluteCoord,
}

#[derive(Debug, PartialEq, Eq)]
pub enum RetMainPoll {
    MoveMade { content: MoveToBePolled, message: Option<TacticsKey> },
    NotYetDetermined,
    Illegal { why_illegal: String },
}

#[derive(Debug, PartialEq, Eq)]
pub enum RetInfPoll {
    MoveMade { content: MoveToBePolled },
    NotYetDetermined,
    Illegal { why_illegal: String },
}

#[derive(Debug, PartialEq, Eq)]
pub enum MoveToBePolled {
    NonTamMove { data: NonTamMoveDotData },
    TamMove { flatten: TamMoveInternal },
    InfAfterStep {
        src: AbsoluteCoord,
        step: AbsoluteCoord,
        coord_signifying_planned_direction: AbsoluteCoord,
        stepping_ciurl: Ciurl,
        final_result: Option<FinalResult>,
    },
}

#[derive(Debug, PartialEq, Eq)]
pub struct FinalResult {
    pub dest: AbsoluteCoord,
    pub water_entry_ciurl: Option<Ciurl>,
    pub thwarted_by_failing_water_entry_ciurl: Option<Ciurl>,
}

} // verus!
