use vstd::prelude::*;
use crate::arena::MatchState;
use crate::pack::{all_packs, assign_unit_ids, is_pack_entry, pack_entry, pack_size, PACK_COUNT};
use crate::tech::TechId;
use crate::unit::UnitKind;

verus! {

/// A pack a player has placed on the board. `P` is the board position type
/// (the library never reads positions).
#[derive(Clone, Debug)]
pub struct PlacedPack<P> {
    pub pack_index: usize,
    pub center: P,
    pub unit_ids: Vec<u64>,
    pub pre_drag_center: P,
    pub rotated: bool,
    pub locked: bool,
    pub round_placed: u32,
}

/// Top-level phase of the game loop.
#[derive(Clone, Debug)]
pub enum GamePhase {
    Lobby,
    DraftBan { bans: Vec<UnitKind>, confirmed: bool, peer_bans: Option<Vec<UnitKind>> },
    Build,
    WaitingForOpponent,
    Battle,
    RoundResult { match_state: MatchState, lp_damage: i32, loser_team: Option<u16> },
    GameOver(u16),
}

impl GamePhase {
    /// Chat is open while building, fighting and looking at a round result.
    pub fn allows_chat(&self) -> (b: bool)
        ensures
            b == (self is Build || self is Battle || self is RoundResult),
    {
        match self {
            GamePhase::Build | GamePhase::Battle | GamePhase::RoundResult { .. } => true,
            _ => false,
        }
    }
}

/// One undoable build action, newest last on the undo stack.
#[derive(Clone, Debug)]
pub enum UndoEntry<P> {
    /// A pack was bought and placed at this index.
    Place { placed_index: usize },
    /// A pack was moved away from `old_center`.
    Move { placed_index: usize, old_center: P },
    /// A pack was rotated (and re-clamped) from this orientation and center.
    Rotate { placed_index: usize, was_rotated: bool, old_center: P },
    /// Several packs were moved together from these centers.
    MultiMove { indices: Vec<usize>, old_centers: Vec<P> },
    /// A tech was bought.
    Tech { kind: UnitKind, tech_id: TechId },
}

/// The local player's board while building. `P` is the board position type;
/// the build rules never read positions, they only store and restore them.
#[derive(Clone, Debug)]
pub struct BuildState<P> {
    pub gold_remaining: u32,
    pub placed_packs: Vec<PlacedPack<P>>,
    pub dragging: Option<usize>,
    pub selected_pack: Option<usize>,
    pub drag_box_start: Option<P>,
    pub multi_dragging: Vec<usize>,
    pub multi_drag_offsets: Vec<P>,
    pub multi_drag_pre_centers: Vec<P>,
    pub next_id: u64,
    pub round_tech_purchases: Vec<(UnitKind, TechId)>,
    pub undo_history: Vec<UndoEntry<P>>,
}

/// `b` is a fresh round's board: `gold` to spend, `packs` carried over,
/// ids continuing from `next_id`, nothing selected, bought or undoable yet.
pub open spec fn is_fresh_board<P>(b: BuildState<P>, gold: u32, packs: Seq<PlacedPack<P>>, next_id: u64) -> bool {
    &&& b.gold_remaining == gold
    &&& b.placed_packs@ == packs
    &&& b.dragging is None
    &&& b.selected_pack is None
    &&& b.drag_box_start is None
    &&& b.multi_dragging@.len() == 0
    &&& b.multi_drag_offsets@.len() == 0
    &&& b.multi_drag_pre_centers@.len() == 0
    &&& b.next_id == next_id
    &&& b.round_tech_purchases@.len() == 0
    &&& b.undo_history@.len() == 0
}

/// `pp` is shop entry `pack_index` freshly bought in round `round` and put
/// at `center`, unrotated and unlocked, its units numbered from `first_id`.
pub open spec fn bought_pack<P>(pp: PlacedPack<P>, pack_index: usize, center: P, first_id: int, round: u32) -> bool {
    &&& pp.pack_index == pack_index
    &&& pp.center == center
    &&& pp.pre_drag_center == center
    &&& !pp.rotated
    &&& !pp.locked
    &&& pp.round_placed == round
    &&& pp.unit_ids@.len() == pack_size(pack_index as int)
    &&& forall|j: int| 0 <= j < pp.unit_ids@.len() ==> #[trigger] pp.unit_ids@[j] == first_id + j
}

/// `after` is `before` once shop entry `pack_index` is bought and placed at
/// `center`: its price is paid, the pack appended with fresh unit ids, and
/// its placement recorded for undo.
pub open spec fn purchased<P>(before: BuildState<P>, after: BuildState<P>, pack_index: usize, center: P, round: u32) -> bool {
    &&& after == BuildState {
        gold_remaining: after.gold_remaining,
        placed_packs: after.placed_packs,
        next_id: after.next_id,
        undo_history: after.undo_history,
        ..before
    }
    &&& after.gold_remaining == before.gold_remaining - pack_entry(pack_index as int).3
    &&& after.next_id == before.next_id + pack_size(pack_index as int)
    &&& after.placed_packs@.len() == before.placed_packs@.len() + 1
    &&& after.placed_packs@.drop_last() == before.placed_packs@
    &&& bought_pack(after.placed_packs@.last(), pack_index, center, before.next_id as int, round)
    &&& after.undo_history@ == before.undo_history@.push(UndoEntry::Place { placed_index: before.placed_packs@.len() as usize })
}

/// `after` is `before` once the unlocked pack at `i` is sold: the pack is
/// removed and its price refunded.
pub open spec fn sold<P>(before: BuildState<P>, after: BuildState<P>, i: int) -> bool {
    &&& after == BuildState { gold_remaining: after.gold_remaining, placed_packs: after.placed_packs, ..before }
    &&& after.gold_remaining == before.gold_remaining + pack_entry(before.placed_packs@[i].pack_index as int).3
    &&& after.placed_packs@ == before.placed_packs@.remove(i)
}

impl<P> BuildState<P> {
    /// A board for a new round: `gold` to spend, the carried-over packs, ids
    /// continuing from `next_id`.
    pub fn new_round(gold: u32, placed_packs: Vec<PlacedPack<P>>, next_id: u64) -> (b: Self)
        ensures
            is_fresh_board(b, gold, placed_packs@, next_id),
    {
        Self {
            gold_remaining: gold,
            placed_packs,
            dragging: None,
            selected_pack: None,
            drag_box_start: None,
            multi_dragging: Vec::new(),
            multi_drag_offsets: Vec::new(),
            multi_drag_pre_centers: Vec::new(),
            next_id,
            round_tech_purchases: Vec::new(),
            undo_history: Vec::new(),
        }
    }

    /// An empty board for a match's first round.
    pub fn new(gold: u32, next_id: u64) -> (b: Self)
        ensures
            is_fresh_board(b, gold, Seq::empty(), next_id),
    {
        Self::new_round(gold, Vec::new(), next_id)
    }

}

impl<P: Copy> BuildState<P> {
    /// Buy shop entry `pack_index` and place it at `center` (chosen by the
    /// caller): refused, changing nothing, when the gold does not cover its
    /// price; otherwise the price is paid, the pack appended with fresh ids
    /// taken from `next_id`, and the placement recorded for undo.
    pub fn purchase_pack(&mut self, pack_index: usize, center: P, round: u32) -> (bought: bool)
        requires
            pack_index < PACK_COUNT,
            old(self).next_id + pack_size(pack_index as int) <= u64::MAX,
        ensures
            bought == (old(self).gold_remaining >= pack_entry(pack_index as int).3),
            bought ==> purchased(*old(self), *final(self), pack_index, center, round),
            !bought ==> *final(self) == *old(self),
    {
        let packs = all_packs();
        let pack = &packs[pack_index];
        proof {
            assert(is_pack_entry(packs@[pack_index as int], pack_index as int));
        }
        if self.gold_remaining < pack.cost {
            return false;
        }
        self.gold_remaining = self.gold_remaining - pack.cost;
        proof {
            assert(pack.rows * pack.cols == pack_size(pack_index as int));
            assert(pack.rows * pack.cols <= u8::MAX) by {
                crate::pack::lemma_pack_catalogue(pack.kind);
            }
        }
        let count = pack.count() as usize;
        let first = self.next_id;
        let ids = assign_unit_ids(count, &mut self.next_id);
        let placed_index = self.placed_packs.len();
        self.placed_packs.push(PlacedPack {
            pack_index,
            center,
            unit_ids: ids,
            pre_drag_center: center,
            rotated: false,
            locked: false,
            round_placed: round,
        });
        self.undo_history.push(UndoEntry::Place { placed_index });
        proof {
            assert(self.placed_packs@.drop_last() =~= old(self).placed_packs@);
        }
        true
    }
}

impl<P> BuildState<P> {
    /// Sell the pack at `placed_index`: a locked pack (carried over from an
    /// earlier round) cannot be sold; otherwise it is removed, its price
    /// refunded, and its price and unit ids returned.
    pub fn sell_pack(&mut self, placed_index: usize) -> (r: Option<(u32, Vec<u64>)>)
        requires
            placed_index < old(self).placed_packs@.len(),
            old(self).placed_packs@[placed_index as int].pack_index < PACK_COUNT,
            old(self).gold_remaining + pack_entry(old(self).placed_packs@[placed_index as int].pack_index as int).3 <= u32::MAX,
        ensures
            r is Some <==> !old(self).placed_packs@[placed_index as int].locked,
            r is None ==> *final(self) == *old(self),
            r matches Some((cost, ids)) ==> {
                &&& sold(*old(self), *final(self), placed_index as int)
                &&& cost == pack_entry(old(self).placed_packs@[placed_index as int].pack_index as int).3
                &&& ids == old(self).placed_packs@[placed_index as int].unit_ids
            },
    {
        if self.placed_packs[placed_index].locked {
            return None;
        }
        let placed = self.placed_packs.remove(placed_index);
        let packs = all_packs();
        proof {
            assert(is_pack_entry(packs@[placed.pack_index as int], placed.pack_index as int));
        }
        let cost = packs[placed.pack_index].cost;
        self.gold_remaining = self.gold_remaining + cost;
        Some((cost, placed.unit_ids))
    }

    /// Lock this round's packs so they carry over.
    pub fn lock_current_packs(&mut self)
        ensures
            final(self).placed_packs@.len() == old(self).placed_packs@.len(),
            forall|i: int| 0 <= i < old(self).placed_packs@.len() ==> #[trigger] final(self).placed_packs@[i]
                == (PlacedPack { locked: true, ..old(self).placed_packs@[i] }),
            *final(self) == (BuildState { placed_packs: final(self).placed_packs, ..*old(self) }),
    {
        let mut i: usize = 0;
        while i < self.placed_packs.len()
            invariant
                i <= self.placed_packs@.len(),
                self.placed_packs@.len() == old(self).placed_packs@.len(),
                forall|j: int| 0 <= j < i ==> #[trigger] self.placed_packs@[j]
                    == (PlacedPack { locked: true, ..old(self).placed_packs@[j] }),
                forall|j: int| i <= j < self.placed_packs@.len() ==> #[trigger] self.placed_packs@[j] == old(self).placed_packs@[j],
                *self == (BuildState { placed_packs: self.placed_packs, ..*old(self) }),
            decreases self.placed_packs@.len() - i,
        {
            self.placed_packs[i].locked = true;
            i = i + 1;
        }
    }
}


/// This round's packs: the unlocked ones, in board order.
pub open spec fn unlocked<P>(packs: Seq<PlacedPack<P>>) -> Seq<PlacedPack<P>> {
    packs.filter(|p: PlacedPack<P>| !p.locked)
}

impl<P: Copy> BuildState<P> {
    /// This round's packs as the peer needs them: each unlocked pack's shop
    /// entry, center, orientation and unit ids, in board order.
    pub fn packs_for_peer(&self) -> (r: Vec<(usize, P, bool, Vec<u64>)>)
        ensures
            r@.len() == unlocked(self.placed_packs@).len(),
            forall|i: int| 0 <= i < r@.len() ==> {
                &&& (#[trigger] r@[i]).0 == unlocked(self.placed_packs@)[i].pack_index
                &&& r@[i].1 == unlocked(self.placed_packs@)[i].center
                &&& r@[i].2 == unlocked(self.placed_packs@)[i].rotated
                &&& r@[i].3@ == unlocked(self.placed_packs@)[i].unit_ids@
            },
    {
        let ghost packs = self.placed_packs@;
        let ghost keep = |p: PlacedPack<P>| !p.locked;
        let mut r: Vec<(usize, P, bool, Vec<u64>)> = Vec::new();
        let mut k: usize = 0;
        while k < self.placed_packs.len()
            invariant
                packs == self.placed_packs@,
                keep == (|p: PlacedPack<P>| !p.locked),
                k <= packs.len(),
                r@.len() == packs.take(k as int).filter(keep).len(),
                forall|i: int| 0 <= i < r@.len() ==> {
                    &&& (#[trigger] r@[i]).0 == packs.take(k as int).filter(keep)[i].pack_index
                    &&& r@[i].1 == packs.take(k as int).filter(keep)[i].center
                    &&& r@[i].2 == packs.take(k as int).filter(keep)[i].rotated
                    &&& r@[i].3@ == packs.take(k as int).filter(keep)[i].unit_ids@
                },
            decreases packs.len() - k,
        {
            let p = &self.placed_packs[k];
            proof {
                assert(packs.take(k as int + 1) =~= packs.take(k as int).push(*p));
                packs.take(k as int).lemma_filter_push(*p, keep);
            }
            if !p.locked {
                let ids = p.unit_ids.clone();
                proof {
                    assert(ids@ =~= p.unit_ids@);
                }
                r.push((p.pack_index, p.center, p.rotated, ids));
            }
            k = k + 1;
        }
        proof {
            assert(packs.take(packs.len() as int) =~= packs);
        }
        r
    }
}


/// Total shop price of `packs`.
pub open spec fn army_cost<P>(packs: Seq<PlacedPack<P>>) -> int
    decreases packs.len(),
{
    if packs.len() == 0 {
        0
    } else {
        army_cost(packs.drop_last()) + pack_entry(packs.last().pack_index as int).3
    }
}

proof fn lemma_army_cost_bounded<P>(packs: Seq<PlacedPack<P>>)
    ensures
        0 <= army_cost(packs) <= 300 * packs.len(),
    decreases packs.len(),
{
    if packs.len() > 0 {
        lemma_army_cost_bounded(packs.drop_last());
        crate::pack::lemma_pack_catalogue(UnitKind::Chaff);
        let i = packs.last().pack_index as int;
        assert(0 <= pack_entry(i).3 <= 300);
    }
}

/// Number of packs in `packs` placed in round `round`.
pub open spec fn placed_in_round<P>(packs: Seq<PlacedPack<P>>, round: u32) -> nat
    decreases packs.len(),
{
    if packs.len() == 0 {
        0
    } else {
        placed_in_round(packs.drop_last(), round) + if packs.last().round_placed == round { 1nat } else { 0nat }
    }
}

impl<P> BuildState<P> {
    /// How many packs on the board were bought in round `round`: what the
    /// round's build limit counts.
    pub fn packs_bought_in_round(&self, round: u32) -> (n: usize)
        ensures
            n == placed_in_round(self.placed_packs@, round),
    {
        let mut n: usize = 0;
        let mut i: usize = 0;
        while i < self.placed_packs.len()
            invariant
                i <= self.placed_packs@.len(),
                n == placed_in_round(self.placed_packs@.take(i as int), round),
                n <= i,
            decreases self.placed_packs@.len() - i,
        {
            proof {
                assert(self.placed_packs@.take(i as int + 1).drop_last() =~= self.placed_packs@.take(i as int));
            }
            if self.placed_packs[i].round_placed == round {
                n = n + 1;
            }
            i = i + 1;
        }
        proof {
            assert(self.placed_packs@.take(i as int) =~= self.placed_packs@);
        }
        n
    }
}

impl<P> BuildState<P> {
    /// Value of the army on the board: the shop prices of its packs.
    pub fn army_value(&self) -> (v: u32)
        requires
            forall|i: int| 0 <= i < self.placed_packs@.len() ==> (#[trigger] self.placed_packs@[i]).pack_index < PACK_COUNT,
            300 * self.placed_packs@.len() <= u32::MAX,
        ensures
            v == army_cost(self.placed_packs@),
    {
        let packs = all_packs();
        let mut total: u32 = 0;
        let mut i: usize = 0;
        while i < self.placed_packs.len()
            invariant
                i <= self.placed_packs@.len(),
                packs@.len() == PACK_COUNT,
                forall|j: int| 0 <= j < PACK_COUNT ==> is_pack_entry(#[trigger] packs@[j], j),
                forall|j: int| 0 <= j < self.placed_packs@.len() ==> (#[trigger] self.placed_packs@[j]).pack_index < PACK_COUNT,
                300 * self.placed_packs@.len() <= u32::MAX,
                total == army_cost(self.placed_packs@.take(i as int)),
            decreases self.placed_packs@.len() - i,
        {
            let idx = self.placed_packs[i].pack_index;
            proof {
                assert(self.placed_packs@.take(i as int + 1).drop_last() =~= self.placed_packs@.take(i as int));
                lemma_army_cost_bounded(self.placed_packs@.take(i as int + 1));
                assert(is_pack_entry(packs@[idx as int], idx as int));
            }
            total = total + packs[idx].cost;
            i = i + 1;
        }
        assert(self.placed_packs@.take(self.placed_packs@.len() as int) =~= self.placed_packs@);
        total
    }
}

} // verus!
