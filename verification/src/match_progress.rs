use vstd::prelude::*;
use vstd::string::StringExecFns;
use crate::arena::{alive_against, alive_count, alive_of, timeout_damage, MatchState};
use crate::game_state::{is_fresh_board, unlocked, BuildState, GamePhase, PlacedPack};
use crate::net::{RoundEndData, RoundEndPlayerData};
use crate::pack::{all_packs, lemma_unit_value_bounds, is_pack_entry, lemma_pack_catalogue, pack_entry, pack_index_of, unit_value, PACK_COUNT};
use crate::tech::{TechId, TechState};
use crate::text::{decimal, push_decimal};
use crate::unit::{UnitKind, UnitStatus};

verus! {

/// Life points every player starts a match with.
pub const STARTING_LP: i32 = 3000;

/// Number of units of `kind` owned by `pid` in `units`.
pub open spec fn kind_count(units: Seq<UnitStatus>, pid: u16, kind: UnitKind) -> nat
    decreases units.len(),
{
    if units.len() == 0 {
        0
    } else {
        kind_count(units.drop_last(), pid, kind) + (if units.last().player_id == pid
            && units.last().kind == kind {
            1nat
        } else {
            0nat
        })
    }
}

/// `census` lists, once each, every kind `pid` fields in `units`, with its count.
pub open spec fn is_census(census: Seq<(UnitKind, u32)>, units: Seq<UnitStatus>, pid: u16) -> bool {
    &&& forall|i: int, j: int|
        0 <= i < j < census.len() ==> (#[trigger] census[i]).0 != (#[trigger] census[j]).0
    &&& forall|i: int|
        0 <= i < census.len() ==> (#[trigger] census[i]).1 == kind_count(units, pid, census[i].0)
            && census[i].1 > 0
    &&& forall|k: UnitKind|
        #![trigger kind_count(units, pid, k)]
        kind_count(units, pid, k) > 0 ==> exists|i: int| 0 <= i < census.len() && (#[trigger] census[i]).0 == k
}

proof fn lemma_kind_count_bounded(units: Seq<UnitStatus>, pid: u16, kind: UnitKind)
    ensures
        kind_count(units, pid, kind) <= units.len(),
    decreases units.len(),
{
    if units.len() > 0 {
        lemma_kind_count_bounded(units.drop_last(), pid, kind);
    }
}

/// Tracks what the AI observed in previous rounds for counter-picking.
#[derive(Clone, Debug)]
pub struct AiMemory {
    /// What unit kinds the player had last round (kind -> count).
    pub last_enemy_kinds: Vec<(UnitKind, u32)>,
    /// Whether the AI won the last round.
    pub last_result: bool,
}

impl Default for AiMemory {
    fn default() -> (m: Self)
        ensures
            m.last_enemy_kinds@ == Seq::<(UnitKind, u32)>::empty(),
            !m.last_result,
    {
        AiMemory { last_enemy_kinds: Vec::new(), last_result: false }
    }
}

impl AiMemory {
    /// Record the human player's army composition and the round outcome.
    pub fn record_round(&mut self, player_units: &[UnitStatus], human_player_id: u16, ai_won: bool)
        requires
            player_units@.len() <= u32::MAX,
        ensures
            is_census(final(self).last_enemy_kinds@, player_units@, human_player_id),
            final(self).last_result == ai_won,
    {
        let ghost units = player_units@;
        let ghost pid = human_player_id;
        let mut counts: Vec<(UnitKind, u32)> = Vec::new();
        let mut i: usize = 0;
        while i < player_units.len()
            invariant
                units == player_units@,
                pid == human_player_id,
                units.len() <= u32::MAX,
                i <= units.len(),
                is_census(counts@, units.take(i as int), pid),
            decreases units.len() - i,
        {
            let u = player_units[i];
            let ghost before = counts@;
            proof {
                assert(units.take(i as int + 1).drop_last() =~= units.take(i as int));
                assert(units.take(i as int + 1).last() == u);
                assert forall|k: UnitKind| #[trigger] kind_count(units.take(i as int + 1), pid, k)
                    == kind_count(units.take(i as int), pid, k) + (if u.player_id == pid && u.kind == k {
                    1nat
                } else {
                    0nat
                }) by {}
            }
            if u.player_id == human_player_id {
                let mut j: usize = 0;
                let mut found = false;
                while j < counts.len()
                    invariant_except_break
                        !found,
                    invariant
                        counts@ == before,
                        j <= before.len(),
                        forall|m: int| 0 <= m < j ==> (#[trigger] before[m]).0 != u.kind,
                    ensures
                        found ==> j < before.len() && before[j as int].0 == u.kind,
                        !found ==> forall|m: int| 0 <= m < before.len() ==> (#[trigger] before[m]).0 != u.kind,
                    decreases before.len() - j,
                {
                    if counts[j].0 == u.kind {
                        found = true;
                        break;
                    }
                    j = j + 1;
                }
                if found {
                    proof {
                        lemma_kind_count_bounded(units.take(i as int), pid, u.kind);
                    }
                    let c = counts[j].1;
                    counts.set(j, (u.kind, c + 1));
                    proof {
                        let t1 = units.take(i as int + 1);
                        assert forall|k: UnitKind|
                            #![trigger kind_count(t1, pid, k)]
                            kind_count(t1, pid, k) > 0 implies exists|m: int|
                            0 <= m < counts@.len() && (#[trigger] counts@[m]).0 == k by {
                            if kind_count(units.take(i as int), pid, k) > 0 {
                                let m = choose|m: int| 0 <= m < before.len() && (#[trigger] before[m]).0 == k;
                                assert(counts@[m].0 == k);
                            } else {
                                assert(counts@[j as int].0 == k);
                            }
                        }
                    }
                } else {
                    counts.push((u.kind, 1));
                    proof {
                        let t1 = units.take(i as int + 1);
                        assert(kind_count(units.take(i as int), pid, u.kind) == 0) by {
                            if kind_count(units.take(i as int), pid, u.kind) > 0 {
                                let m = choose|m: int| 0 <= m < before.len() && (#[trigger] before[m]).0 == u.kind;
                            }
                        }
                        assert forall|k: UnitKind|
                            #![trigger kind_count(t1, pid, k)]
                            kind_count(t1, pid, k) > 0 implies exists|m: int|
                            0 <= m < counts@.len() && (#[trigger] counts@[m]).0 == k by {
                            if kind_count(units.take(i as int), pid, k) > 0 {
                                let m = choose|m: int| 0 <= m < before.len() && (#[trigger] before[m]).0 == k;
                                assert(counts@[m].0 == k);
                            } else {
                                assert(counts@[before.len() as int].0 == k);
                            }
                        }
                    }
                }
            } else {
                proof {
                    let t1 = units.take(i as int + 1);
                    assert forall|k: UnitKind|
                        #![trigger kind_count(t1, pid, k)]
                        kind_count(t1, pid, k) > 0 implies exists|m: int|
                        0 <= m < counts@.len() && (#[trigger] counts@[m]).0 == k by {
                        assert(kind_count(units.take(i as int), pid, k) > 0);
                    }
                }
            }
            i = i + 1;
        }
        proof {
            assert(units.take(units.len() as int) =~= units);
        }
        self.last_enemy_kinds = counts;
        self.last_result = ai_won;
    }
}

/// Canonical per-player state within a match. `P` is the board position
/// type of placed packs and `Z` the type of the player's deploy zone; the
/// match rules never read either.
#[derive(Clone, Debug)]
pub struct PlayerState<P, Z> {
    pub player_id: u16,
    pub lp: i32,
    pub techs: TechState,
    pub name: String,
    pub next_id: u64,
    pub gold: u32,
    pub packs: Vec<PlacedPack<P>>,
    pub ai_memory: AiMemory,
    pub deploy_zone: Z,
    pub color_index: u8,
}

/// `p` is the state player `pid` starts a match with (its deploy zone aside).
pub open spec fn is_fresh_player<P, Z>(p: PlayerState<P, Z>, pid: u16) -> bool {
    &&& p.player_id == pid
    &&& p.lp == STARTING_LP
    &&& forall|k: UnitKind| (#[trigger] p.techs.techs(k)) == Seq::<crate::tech::TechId>::empty()
    &&& p.name@ == "Player "@ + decimal(pid as nat)
    &&& p.next_id == pid as int * 100_000 + 1
    &&& p.gold == 0
    &&& p.packs@ == Seq::<PlacedPack<P>>::empty()
    &&& p.ai_memory.last_enemy_kinds@ == Seq::<(UnitKind, u32)>::empty()
    &&& !p.ai_memory.last_result
    &&& p.color_index == 0
}

impl<P, Z> PlayerState<P, Z> {
    /// A player at the start of a match, with the default deploy zone.
    pub fn new(player_id: u16) -> (p: Self)
        where Z: Default,
        ensures
            is_fresh_player(p, player_id),
    {
        let mut name = String::from_str("Player ");
        push_decimal(&mut name, player_id as u64);
        Self {
            player_id,
            lp: STARTING_LP,
            techs: TechState::new(),
            name,
            next_id: player_id as u64 * 100_000 + 1,
            gold: 0,
            packs: Vec::new(),
            ai_memory: AiMemory::default(),
            deploy_zone: Z::default(),
            color_index: 0,
        }
    }

    /// Lock all current packs for carry-over between rounds.
    pub fn lock_packs(&mut self)
        ensures
            final(self).packs@.len() == old(self).packs@.len(),
            forall|i: int| 0 <= i < old(self).packs@.len() ==> #[trigger] final(self).packs@[i]
                == (PlacedPack { locked: true, ..old(self).packs@[i] }),
            *final(self) == (PlayerState { packs: final(self).packs, ..*old(self) }),
    {
        let mut i: usize = 0;
        while i < self.packs.len()
            invariant
                i <= self.packs@.len(),
                self.packs@.len() == old(self).packs@.len(),
                forall|j: int| 0 <= j < i ==> #[trigger] self.packs@[j]
                    == (PlacedPack { locked: true, ..old(self).packs@[j] }),
                forall|j: int| i <= j < self.packs@.len() ==> #[trigger] self.packs@[j] == old(self).packs@[j],
                *self == (PlayerState { packs: self.packs, ..*old(self) }),
            decreases self.packs@.len() - i,
        {
            self.packs[i].locked = true;
            i = i + 1;
        }
    }
}

/// Round counter, the players, and the kinds banned for the match.
#[derive(Clone, Debug)]
pub struct MatchProgress<P, Z> {
    pub round: u32,
    pub players: Vec<PlayerState<P, Z>>,
    pub banned_kinds: Vec<UnitKind>,
}

/// Some player of `ps` has id `pid`.
pub open spec fn has_player<P, Z>(ps: Seq<PlayerState<P, Z>>, pid: u16) -> bool {
    exists|i: int| 0 <= i < ps.len() && (#[trigger] ps[i]).player_id == pid
}

/// `i` is the first slot of `ps` holding player `pid` (the one lookups by id find).
pub open spec fn is_first_slot<P, Z>(ps: Seq<PlayerState<P, Z>>, pid: u16, i: int) -> bool {
    &&& 0 <= i < ps.len()
    &&& ps[i].player_id == pid
    &&& forall|j: int| 0 <= j < i ==> (#[trigger] ps[j]).player_id != pid
}

/// A player id has at most one first slot.
pub proof fn lemma_first_slot_unique<P, Z>(ps: Seq<PlayerState<P, Z>>, pid: u16, i: int, j: int)
    requires
        is_first_slot(ps, pid, i),
        is_first_slot(ps, pid, j),
    ensures
        i == j,
{
    if i < j {
        assert(ps[i].player_id != pid);
    } else if j < i {
        assert(ps[j].player_id != pid);
    }
}

/// Gold value of the units of `pid` still alive in `units`.
pub open spec fn lp_damage(units: Seq<UnitStatus>, pid: u16) -> int
    decreases units.len(),
{
    if units.len() == 0 {
        0
    } else {
        lp_damage(units.drop_last(), pid) + (if units.last().alive && units.last().player_id == pid {
            unit_value(units.last().kind)
        } else {
            0
        })
    }
}

proof fn lemma_lp_damage_monotone(units: Seq<UnitStatus>, pid: u16, i: int)
    requires
        0 <= i <= units.len(),
    ensures
        0 <= lp_damage(units.take(i), pid) <= lp_damage(units, pid),
    decreases units.len() - i,
{
    if i < units.len() {
        lemma_lp_damage_monotone(units, pid, i + 1);
        assert(units.take(i + 1).drop_last() =~= units.take(i));
        assert(units.take(i + 1).last() == units[i]);
        lemma_unit_value_bounds(units[i].kind);
        lemma_lp_damage_nonneg(units.take(i), pid);
    } else {
        assert(units.take(i) =~= units);
        lemma_lp_damage_nonneg(units, pid);
    }
}

proof fn lemma_lp_damage_nonneg(units: Seq<UnitStatus>, pid: u16)
    ensures
        lp_damage(units, pid) >= 0,
    decreases units.len(),
{
    if units.len() > 0 {
        lemma_lp_damage_nonneg(units.drop_last(), pid);
        lemma_unit_value_bounds(units.last().kind);
    }
}

/// The players with life points left.
pub open spec fn standing<P, Z>(ps: Seq<PlayerState<P, Z>>) -> Seq<PlayerState<P, Z>> {
    ps.filter(|p: PlayerState<P, Z>| p.lp > 0)
}

/// Gold value of one unit of `kind`: its pack's cost divided by the pack size.
fn unit_lp_value(kind: UnitKind) -> (v: i32)
    ensures
        v == unit_value(kind),
        0 <= v <= 300,
{
    let packs = all_packs();
    proof {
        lemma_pack_catalogue(kind);
    }
    let mut i: usize = 0;
    while i < packs.len()
        invariant
            packs@.len() == PACK_COUNT,
            forall|j: int| 0 <= j < PACK_COUNT ==> is_pack_entry(#[trigger] packs@[j], j),
            i <= pack_index_of(kind),
        decreases PACK_COUNT - i,
    {
        let p = &packs[i];
        assert(is_pack_entry(packs@[i as int], i as int));
        proof {
            lemma_pack_catalogue(kind);
            assert(1 <= pack_entry(i as int).1 * pack_entry(i as int).2 <= 18);
        }
        if p.kind == kind {
            let n = p.count();
            return (p.cost / (n as u32)) as i32;
        }
        i = i + 1;
    }
    0
}

impl<P, Z> MatchProgress<P, Z> {
    /// A match at round 1 between fresh players with the given ids.
    pub fn new(player_ids: &[u16]) -> (m: Self)
        where Z: Default,
        ensures
            m.round == 1,
            m.players@.len() == player_ids@.len(),
            forall|i: int| 0 <= i < player_ids@.len() ==> is_fresh_player(#[trigger] m.players@[i], player_ids@[i]),
            m.banned_kinds@ == Seq::<UnitKind>::empty(),
    {
        let mut players: Vec<PlayerState<P, Z>> = Vec::new();
        let mut i: usize = 0;
        while i < player_ids.len()
            invariant
                i <= player_ids@.len(),
                players@.len() == i,
                forall|j: int| 0 <= j < i ==> is_fresh_player(#[trigger] players@[j], player_ids@[j]),
            decreases player_ids@.len() - i,
        {
            players.push(PlayerState::new(player_ids[i]));
            i = i + 1;
        }
        Self { round: 1, players, banned_kinds: Vec::new() }
    }

    /// Gold granted for the current round: 200 per round number.
    pub fn round_allowance(&self) -> (gold: u32)
        requires
            200 * self.round <= u32::MAX,
        ensures
            gold == 200 * self.round,
    {
        200 * self.round
    }

    /// First slot holding player `pid`.
    fn slot_of(&self, pid: u16) -> (i: usize)
        requires
            has_player(self.players@, pid),
        ensures
            is_first_slot(self.players@, pid, i as int),
    {
        let mut i: usize = 0;
        while i < self.players.len()
            invariant
                i <= self.players@.len(),
                has_player(self.players@, pid),
                forall|j: int| 0 <= j < i ==> (#[trigger] self.players@[j]).player_id != pid,
            decreases self.players@.len() - i,
        {
            if self.players[i].player_id == pid {
                return i;
            }
            i = i + 1;
        }
        proof {
            let k = choose|k: int| 0 <= k < self.players@.len() && (#[trigger] self.players@[k]).player_id == pid;
            assert(self.players@[k].player_id != pid);
        }
        0
    }

    /// The state of player `pid` (the first one with that id).
    pub fn player(&self, pid: u16) -> (p: &PlayerState<P, Z>)
        requires
            has_player(self.players@, pid),
        ensures
            exists|i: int| is_first_slot(self.players@, pid, i) && *p == self.players@[i],
    {
        let i = self.slot_of(pid);
        &self.players[i]
    }

    /// Mutable access to player `pid` (the first one with that id); nothing
    /// else in the match changes.
    pub fn player_mut(&mut self, pid: u16) -> (p: &mut PlayerState<P, Z>)
        requires
            has_player(old(self).players@, pid),
        ensures
            exists|i: int|
                is_first_slot(old(self).players@, pid, i) && *p == old(self).players@[i]
                    && final(self).players@ == old(self).players@.update(i, *final(p)),
            final(self).round == old(self).round,
            final(self).banned_kinds == old(self).banned_kinds,
    {
        let i = self.slot_of(pid);
        &mut self.players[i]
    }

    /// All players except the given one, in match order.
    pub fn other_players(&self, exclude_pid: u16) -> (others: Vec<&PlayerState<P, Z>>)
        ensures
            others@.map_values(|p: &PlayerState<P, Z>| *p) == self.players@.filter(
                |p: PlayerState<P, Z>| p.player_id != exclude_pid,
            ),
    {
        let ghost pred = |p: PlayerState<P, Z>| p.player_id != exclude_pid;
        let mut others: Vec<&PlayerState<P, Z>> = Vec::new();
        let mut i: usize = 0;
        while i < self.players.len()
            invariant
                pred == (|p: PlayerState<P, Z>| p.player_id != exclude_pid),
                i <= self.players@.len(),
                others@.map_values(|p: &PlayerState<P, Z>| *p) == self.players@.take(i as int).filter(pred),
            decreases self.players@.len() - i,
        {
            let p = &self.players[i];
            proof {
                assert(self.players@.take(i as int + 1) =~= self.players@.take(i as int).push(*p));
                self.players@.take(i as int).lemma_filter_push(*p, pred);
            }
            if p.player_id != exclude_pid {
                let ghost before = others@;
                others.push(p);
                assert(others@.map_values(|p: &PlayerState<P, Z>| *p) =~= before.map_values(
                    |p: &PlayerState<P, Z>| *p,
                ).push(*p));
            }
            i = i + 1;
        }
        assert(self.players@.take(self.players@.len() as int) =~= self.players@);
        others
    }

    /// LP damage dealt by the units of `player_id` that survived the round:
    /// for each, its pack's cost split over the pack's units.
    pub fn calculate_lp_damage(surviving_units: &[UnitStatus], player_id: u16) -> (total: i32)
        requires
            lp_damage(surviving_units@, player_id) <= i32::MAX,
        ensures
            total == lp_damage(surviving_units@, player_id),
    {
        let ghost units = surviving_units@;
        let mut total: i32 = 0;
        let mut i: usize = 0;
        while i < surviving_units.len()
            invariant
                units == surviving_units@,
                lp_damage(units, player_id) <= i32::MAX,
                i <= units.len(),
                total == lp_damage(units.take(i as int), player_id),
            decreases units.len() - i,
        {
            let unit = &surviving_units[i];
            proof {
                assert(units.take(i as int + 1).drop_last() =~= units.take(i as int));
                lemma_lp_damage_monotone(units, player_id, i as int + 1);
            }
            if unit.alive && unit.player_id == player_id {
                total = total + unit_lp_value(unit.kind);
            }
            i = i + 1;
        }
        proof {
            assert(units.take(units.len() as int) =~= units);
        }
        total
    }

    /// Move on to the next round.
    pub fn advance_round(&mut self)
        requires
            old(self).round < u32::MAX,
        ensures
            *final(self) == (MatchProgress { round: (old(self).round + 1) as u32, ..*old(self) }),
    {
        self.round = self.round + 1;
    }

    /// The match is over once some player's life points are gone.
    pub fn is_game_over(&self) -> (over: bool)
        ensures
            over == exists|i: int| 0 <= i < self.players@.len() && (#[trigger] self.players@[i]).lp <= 0,
    {
        let mut i: usize = 0;
        while i < self.players.len()
            invariant
                i <= self.players@.len(),
                forall|j: int| 0 <= j < i ==> (#[trigger] self.players@[j]).lp > 0,
            decreases self.players@.len() - i,
        {
            if self.players[i].lp <= 0 {
                return true;
            }
            i = i + 1;
        }
        false
    }

    /// The winner: the only player with life points left, if exactly one is.
    pub fn game_winner(&self) -> (winner: Option<u16>)
        ensures
            winner == (if standing(self.players@).len() == 1 {
                Some(standing(self.players@)[0].player_id)
            } else {
                None
            }),
    {
        let ghost pred = |p: PlayerState<P, Z>| p.lp > 0;
        let mut count: usize = 0;
        let mut first: u16 = 0;
        let mut i: usize = 0;
        while i < self.players.len()
            invariant
                pred == (|p: PlayerState<P, Z>| p.lp > 0),
                i <= self.players@.len(),
                count == self.players@.take(i as int).filter(pred).len(),
                count <= i,
                count >= 1 ==> first == self.players@.take(i as int).filter(pred)[0].player_id,
            decreases self.players@.len() - i,
        {
            let p = &self.players[i];
            proof {
                assert(self.players@.take(i as int + 1) =~= self.players@.take(i as int).push(*p));
                self.players@.take(i as int).lemma_filter_push(*p, pred);
            }
            if p.lp > 0 {
                if count == 0 {
                    first = p.player_id;
                }
                count = count + 1;
            }
            i = i + 1;
        }
        assert(self.players@.take(self.players@.len() as int) =~= self.players@);
        if count == 1 {
            Some(first)
        } else {
            None
        }
    }
}

/// Total timeout damage a round-end report assigns to player `pid`.
pub open spec fn timeout_total(per: Seq<RoundEndPlayerData>, pid: u16) -> int
    decreases per.len(),
{
    if per.len() == 0 {
        0
    } else {
        timeout_total(per.drop_last(), pid) + (if per.last().player_id == pid {
            per.last().timeout_damage as int
        } else {
            0
        })
    }
}

/// The round ended on the clock: some player is charged timeout damage.
pub open spec fn report_has_timeout(per: Seq<RoundEndPlayerData>) -> bool {
    exists|i: int| 0 <= i < per.len() && (#[trigger] per[i]).timeout_damage > 0
}

/// Life points player `pid` loses to a round-end report: its timeout
/// damage when the round timed out, otherwise the LP damage if it lost.
pub open spec fn round_end_loss(rd: RoundEndData, pid: u16) -> int {
    if report_has_timeout(rd.per_player@) {
        timeout_total(rd.per_player@, pid)
    } else if rd.loser == Some(pid) {
        rd.lp_damage as int
    } else {
        0
    }
}

/// `after` is `before` with the first slot of every player id charged
/// `loss(id)` life points and nothing else changed.
pub open spec fn charged<P, Z>(
    before: Seq<PlayerState<P, Z>>,
    after: Seq<PlayerState<P, Z>>,
    loss: spec_fn(u16) -> int,
) -> bool {
    &&& after.len() == before.len()
    &&& forall|k: int|
        0 <= k < before.len() ==> #[trigger] after[k] == (PlayerState {
            lp: (before[k].lp - (if is_first_slot(before, before[k].player_id, k) {
                loss(before[k].player_id)
            } else {
                0
            })) as i32,
            ..before[k]
        })
}

/// The life-point arithmetic of a round-end report stays within `i32` at
/// every step, and every player it charges is in the match.
pub open spec fn report_applicable<P, Z>(players: Seq<PlayerState<P, Z>>, rd: RoundEndData) -> bool {
    if report_has_timeout(rd.per_player@) {
        &&& forall|e: int| 0 <= e < rd.per_player@.len() ==> has_player(players, (#[trigger] rd.per_player@[e]).player_id)
        &&& forall|k: int, j: int|
            0 <= k < players.len() && 0 <= j <= rd.per_player@.len() ==> i32::MIN <= (#[trigger] players[k]).lp
                - #[trigger] timeout_total(rd.per_player@.take(j), players[k].player_id) <= i32::MAX
    } else {
        match rd.loser {
            Some(l) => {
                &&& has_player(players, l)
                &&& forall|k: int|
                    0 <= k < players.len() && (#[trigger] players[k]).player_id == l ==> i32::MIN
                        <= players[k].lp - rd.lp_damage <= i32::MAX
            },
            None => true,
        }
    }
}

impl<P, Z> MatchProgress<P, Z> {
    /// Apply an authoritative round-end report: on a timeout every listed
    /// player pays its timeout damage, otherwise the loser (if any) pays the
    /// LP damage.
    pub fn apply_round_end(&mut self, rd: &RoundEndData)
        requires
            report_applicable(old(self).players@, *rd),
        ensures
            charged(old(self).players@, final(self).players@, |pid: u16| round_end_loss(*rd, pid)),
            final(self).round == old(self).round,
            final(self).banned_kinds == old(self).banned_kinds,
    {
        let ghost before = self.players@;
        let ghost per = rd.per_player@;
        let mut has_timeout = false;
        let mut e: usize = 0;
        while e < rd.per_player.len()
            invariant
                per == rd.per_player@,
                e <= per.len(),
                has_timeout == exists|x: int| 0 <= x < e && (#[trigger] per[x]).timeout_damage > 0,
            decreases per.len() - e,
        {
            if rd.per_player[e].timeout_damage > 0 {
                has_timeout = true;
            }
            e = e + 1;
        }
        if has_timeout {
            let mut j: usize = 0;
            while j < rd.per_player.len()
                invariant
                    per == rd.per_player@,
                    report_has_timeout(per),
                    report_applicable(before, *rd),
                    j <= per.len(),
                    self.round == old(self).round,
                    self.banned_kinds == old(self).banned_kinds,
                    charged(before, self.players@, |pid: u16| timeout_total(per.take(j as int), pid)),
                decreases per.len() - j,
            {
                let pp = rd.per_player[j];
                proof {
                    assert(per.take(j as int + 1).drop_last() =~= per.take(j as int));
                    assert(per.take(j as int + 1).last() == pp);
                    assert(has_player(before, pp.player_id));
                    assert forall|k: int| 0 <= k < before.len() implies (#[trigger] self.players@[k]).player_id == before[k].player_id by {}
                    assert(has_player(self.players@, pp.player_id)) by {
                        let w = choose|w: int| 0 <= w < before.len() && (#[trigger] before[w]).player_id == pp.player_id;
                        assert(self.players@[w].player_id == pp.player_id);
                    }
                }
                let i = self.slot_of(pp.player_id);
                proof {
                    assert(is_first_slot(before, pp.player_id, i as int)) by {
                        assert forall|m: int| 0 <= m < i implies (#[trigger] before[m]).player_id != pp.player_id by {
                            assert(self.players@[m].player_id == before[m].player_id);
                        }
                    }
                    assert(i32::MIN <= before[i as int].lp - timeout_total(per.take(j as int + 1), pp.player_id) <= i32::MAX);
                }
                self.players[i].lp = self.players[i].lp - pp.timeout_damage;
                proof {
                    let loss = |pid: u16| timeout_total(per.take(j as int + 1), pid);
                    assert forall|k: int| 0 <= k < before.len() implies #[trigger] self.players@[k] == (PlayerState {
                        lp: (before[k].lp - (if is_first_slot(before, before[k].player_id, k) {
                            loss(before[k].player_id)
                        } else {
                            0
                        })) as i32,
                        ..before[k]
                    }) by {
                        if k == i {
                        } else if is_first_slot(before, before[k].player_id, k) {
                            if before[k].player_id == pp.player_id {
                                lemma_first_slot_unique(before, pp.player_id, k, i as int);
                            }
                        }
                    }
                }
                j = j + 1;
            }
            proof {
                assert(per.take(per.len() as int) =~= per);
            }
        } else {
            proof {
                assert forall|k: int| 0 <= k < before.len() implies #[trigger] self.players@[k] == (PlayerState {
                    lp: (before[k].lp - 0) as i32,
                    ..before[k]
                }) by {}
            }
            if let Some(loser) = rd.loser {
                let i = self.slot_of(loser);
                self.players[i].lp = self.players[i].lp - rd.lp_damage;
                proof {
                    assert forall|k: int| 0 <= k < before.len() implies #[trigger] self.players@[k] == (PlayerState {
                        lp: (before[k].lp - (if is_first_slot(before, before[k].player_id, k) {
                            round_end_loss(*rd, before[k].player_id)
                        } else {
                            0
                        })) as i32,
                        ..before[k]
                    }) by {
                        if k != i && is_first_slot(before, before[k].player_id, k) && before[k].player_id == loser {
                            lemma_first_slot_unique(before, loser, k, i as int);
                        }
                    }
                }
            }
        }
    }
}

/// Who loses against winner `w`: the first player that is not `w` (or `w`
/// itself when it plays alone).
pub open spec fn loser_against<P, Z>(players: Seq<PlayerState<P, Z>>, w: u16) -> u16 {
    let others = players.filter(|p: PlayerState<P, Z>| p.player_id != w);
    if others.len() > 0 {
        others[0].player_id
    } else {
        w
    }
}

/// The (LP damage, loser) a finished round produces: nothing on a timeout
/// or a draw; otherwise the winner's surviving army value, charged to the
/// first other player.
pub open spec fn round_lp_outcome_spec<P, Z>(
    players: Seq<PlayerState<P, Z>>,
    units: Seq<UnitStatus>,
    final_state: MatchState,
    timed_out: bool,
) -> (i32, Option<u16>) {
    if timed_out {
        (0, None)
    } else {
        match final_state {
            MatchState::Winner(w) => (lp_damage(units, w) as i32, Some(loser_against(players, w))),
            _ => (0, None),
        }
    }
}

impl<P, Z> MatchProgress<P, Z> {
    /// Compute LP damage and loser of a finished round, without applying them.
    pub fn round_lp_outcome(&self, units: &[UnitStatus], final_state: MatchState, timed_out: bool) -> (outcome: (
        i32,
        Option<u16>,
    ))
        requires
            timed_out || final_state != MatchState::InProgress,
            final_state matches MatchState::Winner(w) ==> lp_damage(units@, w) <= i32::MAX,
        ensures
            outcome == round_lp_outcome_spec(self.players@, units@, final_state, timed_out),
    {
        if timed_out {
            return (0, None);
        }
        match final_state {
            MatchState::Winner(winner) => {
                let damage = Self::calculate_lp_damage(units, winner);
                let others = self.other_players(winner);
                proof {
                    assert(others@.len() == others@.map_values(|p: &PlayerState<P, Z>| *p).len());
                }
                let loser: u16 = if others.len() > 0 {
                    proof {
                        assert(others@.map_values(|p: &PlayerState<P, Z>| *p)[0] == *others@[0]);
                    }
                    others[0].player_id
                } else {
                    winner
                };
                (damage, Some(loser))
            },
            _ => (0, None),
        }
    }

    /// After a round, every player other than the local one remembers the
    /// local player's army and whether it (the AI side) won.
    pub fn record_ai_memories(&mut self, units: &[UnitStatus], local_player_id: u16, final_state: MatchState)
        requires
            units@.len() <= u32::MAX,
        ensures
            final(self).round == old(self).round,
            final(self).banned_kinds == old(self).banned_kinds,
            final(self).players@.len() == old(self).players@.len(),
            forall|k: int| 0 <= k < old(self).players@.len() ==> {
                let before = #[trigger] old(self).players@[k];
                let after = final(self).players@[k];
                if before.player_id != local_player_id {
                    &&& after == (PlayerState { ai_memory: after.ai_memory, ..before })
                    &&& is_census(after.ai_memory.last_enemy_kinds@, units@, local_player_id)
                    &&& after.ai_memory.last_result == (final_state == MatchState::Winner(before.player_id))
                } else {
                    after == before
                }
            },
    {
        let mut i: usize = 0;
        while i < self.players.len()
            invariant
                units@.len() <= u32::MAX,
                i <= self.players@.len(),
                self.round == old(self).round,
                self.banned_kinds == old(self).banned_kinds,
                self.players@.len() == old(self).players@.len(),
                forall|k: int| 0 <= k < old(self).players@.len() ==> {
                    let before = #[trigger] old(self).players@[k];
                    let after = self.players@[k];
                    if k < i && before.player_id != local_player_id {
                        &&& after == (PlayerState { ai_memory: after.ai_memory, ..before })
                        &&& is_census(after.ai_memory.last_enemy_kinds@, units@, local_player_id)
                        &&& after.ai_memory.last_result == (final_state == MatchState::Winner(before.player_id))
                    } else {
                        after == before
                    }
                },
            decreases self.players@.len() - i,
        {
            let pid = self.players[i].player_id;
            if pid != local_player_id {
                let ai_won = match final_state {
                    MatchState::Winner(w) => w == pid,
                    _ => false,
                };
                self.players[i].ai_memory.record_round(units, local_player_id, ai_won);
            }
            i = i + 1;
        }
    }
}

impl<P, Z> MatchProgress<P, Z> {
    /// The phase after a round result is dismissed when the match is over:
    /// the game-over screen for the winner (0 when nobody stands alone).
    pub fn game_over_phase(&self) -> (phase: Option<GamePhase>)
        ensures
            phase is Some <==> exists|i: int| 0 <= i < self.players@.len() && (#[trigger] self.players@[i]).lp <= 0,
            phase matches Some(p) ==> p == GamePhase::GameOver(if standing(self.players@).len() == 1 {
                standing(self.players@)[0].player_id
            } else {
                0
            }),
    {
        if self.is_game_over() {
            let winner = match self.game_winner() {
                Some(w) => w,
                None => 0,
            };
            Some(GamePhase::GameOver(winner))
        } else {
            None
        }
    }

    /// Carry player `pid`'s unspent gold over and move to the next round;
    /// returns the gold that player builds with next round (carry-over plus
    /// the new round's allowance).
    pub fn start_next_round(&mut self, pid: u16, gold_remaining: u32) -> (round_gold: u32)
        requires
            has_player(old(self).players@, pid),
            old(self).round < u32::MAX,
            200 * (old(self).round + 1) + gold_remaining <= u32::MAX,
        ensures
            final(self).round == old(self).round + 1,
            final(self).banned_kinds == old(self).banned_kinds,
            exists|i: int|
                is_first_slot(old(self).players@, pid, i) && final(self).players@ == old(self).players@.update(
                    i,
                    PlayerState { gold: gold_remaining, ..old(self).players@[i] },
                ),
            round_gold == gold_remaining + 200 * (old(self).round + 1),
    {
        let i = self.slot_of(pid);
        self.players[i].gold = gold_remaining;
        self.advance_round();
        let carried = self.players[i].gold;
        carried + self.round_allowance()
    }
}

/// A sole survivor wins: the winner the match reports is a player still
/// holding life points, and every other player is out of them.
pub proof fn lemma_winner_is_last_standing<P, Z>(players: Seq<PlayerState<P, Z>>)
    requires
        standing(players).len() == 1,
    ensures
        has_player(players, standing(players)[0].player_id),
        standing(players)[0].lp > 0,
        forall|i: int| 0 <= i < players.len() && (#[trigger] players[i]).lp > 0 ==> players[i] == standing(players)[0],
{
    let pred = |p: PlayerState<P, Z>| p.lp > 0;
    let s = standing(players);
    players.lemma_filter_pred(pred, 0);
    players.lemma_filter_contains_rev(pred, s[0]);
    assert forall|i: int| 0 <= i < players.len() && (#[trigger] players[i]).lp > 0 implies players[i] == s[0] by {
        players.filter_lemma(pred);
        assert(s.contains(players[i]));
    }
}

/// In a round that did not time out, the winner is never the one charged:
/// the LP damage goes to another player whenever one exists.
pub proof fn lemma_winner_not_charged<P, Z>(players: Seq<PlayerState<P, Z>>, w: u16)
    requires
        exists|i: int| 0 <= i < players.len() && (#[trigger] players[i]).player_id != w,
    ensures
        loser_against(players, w) != w,
        has_player(players, loser_against(players, w)),
{
    let pred = |p: PlayerState<P, Z>| p.player_id != w;
    let i = choose|i: int| 0 <= i < players.len() && (#[trigger] players[i]).player_id != w;
    players.filter_lemma(pred);
    assert(players.filter(pred).contains(players[i]));
    players.lemma_filter_pred(pred, 0);
    players.lemma_filter_contains_rev(pred, players.filter(pred)[0]);
}


/// The techs owned for `kind` after buying `purchases` in order, starting
/// from `owned`; buying a tech already owned changes nothing.
pub open spec fn techs_after(owned: Seq<TechId>, kind: UnitKind, purchases: Seq<(UnitKind, TechId)>) -> Seq<TechId>
    decreases purchases.len(),
{
    if purchases.len() == 0 {
        owned
    } else {
        let before = techs_after(owned, kind, purchases.drop_last());
        let (k, t) = purchases.last();
        if k == kind && !before.contains(t) {
            before.push(t)
        } else {
            before
        }
    }
}

/// One pack of a peer's build: shop entry, center, orientation, and the
/// unit ids the sender gave its units.
pub type PeerPack<P> = (usize, P, bool, Vec<u64>);

/// The entries of a peer's build that name a shop pack.
pub open spec fn known_packs<P>(new_packs: Seq<PeerPack<P>>) -> Seq<PeerPack<P>> {
    new_packs.filter(|e: PeerPack<P>| e.0 < PACK_COUNT)
}

/// `pp` is build entry `e` placed in round `round`, locked, its units
/// carrying the ids the sender gave them.
pub open spec fn placed_from_build<P>(pp: PlacedPack<P>, e: PeerPack<P>, round: u32) -> bool {
    &&& pp.pack_index == e.0
    &&& pp.center == e.1
    &&& pp.pre_drag_center == e.1
    &&& pp.rotated == e.2
    &&& pp.locked
    &&& pp.round_placed == round
    &&& pp.unit_ids@ == e.3@
}

/// `after` is `before` once a peer's build is applied in round `round`: the
/// tech purchases are made in order, and each pack entry naming a shop pack
/// is appended with the sender's unit ids.
pub open spec fn build_applied<P, Z>(
    before: PlayerState<P, Z>,
    after: PlayerState<P, Z>,
    round: u32,
    new_packs: Seq<PeerPack<P>>,
    purchases: Seq<(UnitKind, TechId)>,
) -> bool {
    let known = known_packs(new_packs);
    &&& after == PlayerState { techs: after.techs, packs: after.packs, ..before }
    &&& forall|k: UnitKind| #[trigger] after.techs.techs(k) == techs_after(before.techs.techs(k), k, purchases)
    &&& after.packs@.len() == before.packs@.len() + known.len()
    &&& forall|j: int| 0 <= j < before.packs@.len() ==> #[trigger] after.packs@[j] == before.packs@[j]
    &&& forall|j: int| 0 <= j < known.len() ==> placed_from_build(#[trigger] after.packs@[before.packs@.len() + j], known[j], round)
}

impl<P: Copy, Z> PlayerState<P, Z> {
    fn apply_build(&mut self, round: u32, new_packs: &[PeerPack<P>], tech_purchases: &[(UnitKind, TechId)])
        ensures
            build_applied(*old(self), *final(self), round, new_packs@, tech_purchases@),
    {
        let ghost before = *self;
        let mut n: usize = 0;
        while n < tech_purchases.len()
            invariant
                n <= tech_purchases@.len(),
                *self == (PlayerState { techs: self.techs, ..before }),
                forall|k: UnitKind| #[trigger] self.techs.techs(k) == techs_after(
                    before.techs.techs(k),
                    k,
                    tech_purchases@.take(n as int),
                ),
            decreases tech_purchases@.len() - n,
        {
            let (kind, tech_id) = tech_purchases[n];
            let ghost mid = self.techs;
            self.techs.purchase(kind, tech_id);
            proof {
                assert forall|k: UnitKind| #[trigger] self.techs.techs(k) == techs_after(
                    before.techs.techs(k),
                    k,
                    tech_purchases@.take(n as int + 1),
                ) by {
                    assert(tech_purchases@.take(n as int + 1).drop_last() =~= tech_purchases@.take(n as int));
                    assert(mid.techs(k) == techs_after(before.techs.techs(k), k, tech_purchases@.take(n as int)));
                }
            }
            n = n + 1;
        }
        assert(tech_purchases@.take(tech_purchases@.len() as int) =~= tech_purchases@);
        let ghost after_techs = *self;
        let ghost pred = |e: PeerPack<P>| e.0 < PACK_COUNT;
        let mut m: usize = 0;
        while m < new_packs.len()
            invariant
                m <= new_packs@.len(),
                pred == (|e: PeerPack<P>| e.0 < PACK_COUNT),
                *self == (PlayerState { packs: self.packs, ..after_techs }),
                self.packs@.len() == before.packs@.len() + known_packs(new_packs@.take(m as int)).len(),
                forall|j: int| 0 <= j < before.packs@.len() ==> #[trigger] self.packs@[j] == before.packs@[j],
                forall|j: int|
                    0 <= j < known_packs(new_packs@.take(m as int)).len() ==> placed_from_build(
                        #[trigger] self.packs@[before.packs@.len() + j],
                        known_packs(new_packs@.take(m as int))[j],
                        round,
                    ),
            decreases new_packs@.len() - m,
        {
            let e = &new_packs[m];
            let ghost old_known = known_packs(new_packs@.take(m as int));
            proof {
                assert(new_packs@.take(m as int + 1) =~= new_packs@.take(m as int).push(*e));
                new_packs@.take(m as int).lemma_filter_push(*e, pred);
            }
            if e.0 < PACK_COUNT {
                let ids = e.3.clone();
                proof {
                    assert(ids@ =~= e.3@);
                }
                let ghost old_packs = self.packs@;
                self.packs.push(PlacedPack {
                    pack_index: e.0,
                    center: e.1,
                    unit_ids: ids,
                    pre_drag_center: e.1,
                    rotated: e.2,
                    locked: true,
                    round_placed: round,
                });
                proof {
                    let k = known_packs(new_packs@.take(m as int + 1));
                    assert(k.drop_last() =~= old_known);
                    assert forall|j: int| 0 <= j < k.len() implies placed_from_build(
                        #[trigger] self.packs@[before.packs@.len() + j],
                        k[j],
                        round,
                    ) by {
                        if j < old_known.len() {
                            assert(k[j] == old_known[j]);
                            assert(self.packs@[before.packs@.len() + j] == old_packs[before.packs@.len() + j]);
                        }
                    }
                }
            } else {
                proof {
                    assert(known_packs(new_packs@.take(m as int + 1)) == old_known);
                }
            }
            m = m + 1;
        }
        assert(new_packs@.take(new_packs@.len() as int) =~= new_packs@);
    }
}

impl<P: Copy, Z> MatchProgress<P, Z> {
    /// Apply a peer's finished build to its player: buy its techs in order,
    /// then place each of its packs that names a shop entry, locked, in the
    /// current round, keeping the unit ids the sender assigned (its own ids
    /// may have gaps from packs sold or undone). Entries naming no shop pack
    /// are skipped. The caller spawns the units.
    pub fn apply_peer_build(&mut self, player_id: u16, new_packs: &[PeerPack<P>], tech_purchases: &[(UnitKind, TechId)])
        requires
            has_player(old(self).players@, player_id),
        ensures
            final(self).round == old(self).round,
            final(self).banned_kinds == old(self).banned_kinds,
            exists|i: int|
                #![trigger is_first_slot(old(self).players@, player_id, i)]
                is_first_slot(old(self).players@, player_id, i)
                && final(self).players@ == old(self).players@.update(i, final(self).players@[i])
                && build_applied(old(self).players@[i], final(self).players@[i], old(self).round, new_packs@, tech_purchases@),
    {
        let i = self.slot_of(player_id);
        let round = self.round;
        self.players[i].apply_build(round, new_packs, tech_purchases);
    }
}

proof fn lemma_filter_keeps_all<A>(s: Seq<A>, pred: spec_fn(A) -> bool)
    requires
        forall|i: int| 0 <= i < s.len() ==> pred(#[trigger] s[i]),
    ensures
        s.filter(pred) == s,
    decreases s.len(),
{
    if s.len() == 0 {
        s.lemma_filter_len(pred);
        assert(s.filter(pred) =~= s);
    } else {
        lemma_filter_keeps_all(s.drop_last(), pred);
        assert(s.drop_last().push(s.last()) =~= s);
        s.drop_last().lemma_filter_push(s.last(), pred);
    }
}

/// `sent` describes `packs` one for one: same shop entries, centers,
/// orientations and unit ids, in order.
pub open spec fn describes<P>(sent: Seq<PeerPack<P>>, packs: Seq<PlacedPack<P>>) -> bool {
    &&& sent.len() == packs.len()
    &&& forall|i: int| 0 <= i < sent.len() ==> {
        &&& (#[trigger] sent[i]).0 == packs[i].pack_index
        &&& sent[i].1 == packs[i].center
        &&& sent[i].2 == packs[i].rotated
        &&& sent[i].3@ == packs[i].unit_ids@
    }
}

/// What one peer sends of its board, the other rebuilds: applying a build
/// that describes a board's unlocked packs appends, in order, locked packs
/// with the same shop entries, centers, orientations and unit ids.
pub proof fn lemma_peer_build_round_trip<P, Z>(
    board: BuildState<P>,
    sent: Seq<PeerPack<P>>,
    before: PlayerState<P, Z>,
    after: PlayerState<P, Z>,
    round: u32,
    purchases: Seq<(UnitKind, TechId)>,
)
    requires
        forall|i: int| 0 <= i < board.placed_packs@.len() ==> (#[trigger] board.placed_packs@[i]).pack_index < PACK_COUNT,
        describes(sent, unlocked(board.placed_packs@)),
        build_applied(before, after, round, sent, purchases),
    ensures
        after.packs@.len() == before.packs@.len() + unlocked(board.placed_packs@).len(),
        forall|j: int| 0 <= j < unlocked(board.placed_packs@).len() ==> {
            let q = #[trigger] after.packs@[before.packs@.len() + j];
            let p = unlocked(board.placed_packs@)[j];
            &&& q.pack_index == p.pack_index
            &&& q.center == p.center
            &&& q.rotated == p.rotated
            &&& q.unit_ids@ == p.unit_ids@
            &&& q.locked
        },
{
    let mine = unlocked(board.placed_packs@);
    let pred = |e: PeerPack<P>| e.0 < PACK_COUNT;
    assert forall|i: int| 0 <= i < sent.len() implies pred(#[trigger] sent[i]) by {
        board.placed_packs@.lemma_filter_pred(|p: PlacedPack<P>| !p.locked, i);
        assert(mine.contains(mine[i]));
        board.placed_packs@.lemma_filter_contains_rev(|p: PlacedPack<P>| !p.locked, mine[i]);
    }
    lemma_filter_keeps_all(sent, pred);
    assert(known_packs(sent) == sent);
    assert forall|j: int| 0 <= j < mine.len() implies {
        let q = #[trigger] after.packs@[before.packs@.len() + j];
        &&& q.pack_index == mine[j].pack_index
        &&& q.center == mine[j].center
        &&& q.rotated == mine[j].rotated
        &&& q.unit_ids@ == mine[j].unit_ids@
        &&& q.locked
    } by {
        assert(placed_from_build(after.packs@[before.packs@.len() + j], sent[j], round));
    }
}

/// `j` is the last slot of `ps` holding player `pid`.
pub open spec fn is_last_slot<P, Z>(ps: Seq<PlayerState<P, Z>>, pid: u16, j: int) -> bool {
    &&& 0 <= j < ps.len()
    &&& ps[j].player_id == pid
    &&& forall|m: int| j < m < ps.len() ==> (#[trigger] ps[m]).player_id != pid
}

/// `p` is slot `k` of the rematch of a match with players `old`: a player
/// starting afresh under the same id who, on the first slot of that id,
/// keeps the deploy zone, colour and name of the last slot with that id.
pub open spec fn rematched<P, Z>(p: PlayerState<P, Z>, old: Seq<PlayerState<P, Z>>, k: int) -> bool {
    let pid = old[k].player_id;
    &&& p.player_id == pid
    &&& p.lp == STARTING_LP
    &&& forall|kind: UnitKind| (#[trigger] p.techs.techs(kind)) == Seq::<TechId>::empty()
    &&& p.next_id == pid as int * 100_000 + 1
    &&& p.gold == 0
    &&& p.packs@ == Seq::<PlacedPack<P>>::empty()
    &&& p.ai_memory.last_enemy_kinds@ == Seq::<(UnitKind, u32)>::empty()
    &&& !p.ai_memory.last_result
    &&& if is_first_slot(old, pid, k) {
        exists|j: int|
            #![trigger old[j]]
            is_last_slot(old, pid, j) && p.deploy_zone == old[j].deploy_zone && p.color_index == old[j].color_index
                && p.name == old[j].name
    } else {
        p.color_index == 0 && p.name@ == "Player "@ + decimal(pid as nat)
    }
}

impl<P, Z: Copy + Default> MatchProgress<P, Z> {
    /// Last slot holding player `pid`, which occurs at slot `k`.
    fn last_slot_of(&self, pid: u16, k: usize) -> (j: usize)
        requires
            k < self.players@.len(),
            self.players@[k as int].player_id == pid,
        ensures
            is_last_slot(self.players@, pid, j as int),
    {
        let mut j: usize = self.players.len() - 1;
        while self.players[j].player_id != pid
            invariant
                k <= j < self.players@.len(),
                self.players@[k as int].player_id == pid,
                forall|m: int| j < m < self.players@.len() ==> (#[trigger] self.players@[m]).player_id != pid,
            decreases j,
        {
            j = j - 1;
        }
        j
    }

    /// A rematch: a fresh match at round 1 between the same players (same
    /// ids, in the same order), who keep their deploy zones, colours and names.
    pub fn rematch(&self) -> (m: Self)
        ensures
            m.round == 1,
            m.banned_kinds@ == Seq::<UnitKind>::empty(),
            m.players@.len() == self.players@.len(),
            forall|k: int| 0 <= k < self.players@.len() ==> rematched(#[trigger] m.players@[k], self.players@, k),
    {
        let mut players: Vec<PlayerState<P, Z>> = Vec::new();
        let mut k: usize = 0;
        while k < self.players.len()
            invariant
                k <= self.players@.len(),
                players@.len() == k,
                forall|i: int| 0 <= i < k ==> rematched(#[trigger] players@[i], self.players@, i),
            decreases self.players@.len() - k,
        {
            let pid = self.players[k].player_id;
            let mut p: PlayerState<P, Z> = PlayerState::new(pid);
            let mut first = true;
            let mut i: usize = 0;
            while i < k
                invariant
                    i <= k < self.players@.len(),
                    pid == self.players@[k as int].player_id,
                    first == forall|m: int| 0 <= m < i ==> (#[trigger] self.players@[m]).player_id != pid,
                decreases k - i,
            {
                if self.players[i].player_id == pid {
                    first = false;
                }
                i = i + 1;
            }
            if first {
                let j = self.last_slot_of(pid, k);
                p.deploy_zone = self.players[j].deploy_zone;
                p.color_index = self.players[j].color_index;
                p.name = self.players[j].name.clone();
            }
            players.push(p);
            k = k + 1;
        }
        Self { round: 1, players, banned_kinds: Vec::new() }
    }
}

/// A rematch between players with distinct ids: every player keeps its own
/// deploy zone, colour and name, and starts over with full life points, no
/// gold, packs or techs, and its first unit id.
pub proof fn lemma_rematch_keeps_identities<P, Z>(old: Seq<PlayerState<P, Z>>, new: Seq<PlayerState<P, Z>>)
    requires
        forall|a: int, b: int| 0 <= a < b < old.len() ==> (#[trigger] old[a]).player_id != (#[trigger] old[b]).player_id,
        new.len() == old.len(),
        forall|k: int| 0 <= k < old.len() ==> rematched(#[trigger] new[k], old, k),
    ensures
        forall|k: int| 0 <= k < old.len() ==> {
            &&& (#[trigger] new[k]).player_id == old[k].player_id
            &&& new[k].deploy_zone == old[k].deploy_zone
            &&& new[k].color_index == old[k].color_index
            &&& new[k].name == old[k].name
            &&& new[k].lp == STARTING_LP
            &&& new[k].gold == 0
            &&& new[k].packs@.len() == 0
        },
{
    assert forall|k: int| 0 <= k < old.len() implies {
        &&& (#[trigger] new[k]).player_id == old[k].player_id
        &&& new[k].deploy_zone == old[k].deploy_zone
        &&& new[k].color_index == old[k].color_index
        &&& new[k].name == old[k].name
        &&& new[k].lp == STARTING_LP
        &&& new[k].gold == 0
        &&& new[k].packs@.len() == 0
    } by {
        let pid = old[k].player_id;
        assert(rematched(new[k], old, k));
        assert(is_first_slot(old, pid, k)) by {
            assert forall|j: int| 0 <= j < k implies (#[trigger] old[j]).player_id != pid by {
                assert(old[j].player_id != old[k].player_id);
            }
        }
        let j = choose|j: int| #![trigger old[j]] is_last_slot(old, pid, j) && new[k].deploy_zone == old[j].deploy_zone
            && new[k].color_index == old[j].color_index && new[k].name == old[j].name;
        if j != k {
            if j < k {
                assert(old[j].player_id != old[k].player_id);
            } else {
                assert(old[k].player_id != old[j].player_id);
            }
        }
    }
}


/// `packs` with every pack locked.
pub open spec fn all_locked<P>(packs: Seq<PlacedPack<P>>) -> Seq<PlacedPack<P>> {
    packs.map_values(|p: PlacedPack<P>| PlacedPack { locked: true, ..p })
}

impl<P, Z> MatchProgress<P, Z> {
    /// Close the round for player `pid`: its unspent gold carries over, the
    /// round advances, and its board starts the new round holding this
    /// round's packs, now locked, with the carried gold plus the new round's
    /// allowance to spend and unit ids continuing where they stopped.
    pub fn carry_board_over(&mut self, pid: u16, board: &mut BuildState<P>)
        requires
            has_player(old(self).players@, pid),
            old(self).round < u32::MAX,
            200 * (old(self).round + 1) + old(board).gold_remaining <= u32::MAX,
        ensures
            final(self).round == old(self).round + 1,
            final(self).banned_kinds == old(self).banned_kinds,
            exists|i: int|
                is_first_slot(old(self).players@, pid, i) && final(self).players@ == old(self).players@.update(
                    i,
                    PlayerState { gold: old(board).gold_remaining, ..old(self).players@[i] },
                ),
            is_fresh_board(
                *final(board),
                (old(board).gold_remaining + 200 * (old(self).round + 1)) as u32,
                all_locked(old(board).placed_packs@),
                old(board).next_id,
            ),
    {
        let gold = self.start_next_round(pid, board.gold_remaining);
        board.lock_current_packs();
        let mut packs: Vec<PlacedPack<P>> = Vec::new();
        std::mem::swap(&mut packs, &mut board.placed_packs);
        proof {
            assert(packs@ =~= all_locked(old(board).placed_packs@));
        }
        let next_id = board.next_id;
        *board = BuildState::new_round(gold, packs, next_id);
    }
}


/// The winner a round-end report names for a final state.
pub open spec fn reported_winner(final_state: MatchState) -> Option<u16> {
    match final_state {
        MatchState::Winner(w) => Some(w),
        _ => None,
    }
}

/// `rd` is the authoritative report of a finished round: the winner, the LP
/// outcome, and for each player (in match order) its standing units, the
/// caller's HP total for it, and its timeout damage.
pub open spec fn is_round_end_report<P, Z>(
    players: Seq<PlayerState<P, Z>>,
    units: Seq<UnitStatus>,
    total_hp: Seq<i32>,
    final_state: MatchState,
    timed_out: bool,
    rd: RoundEndData,
) -> bool {
    &&& rd.winner == reported_winner(final_state)
    &&& (rd.lp_damage, rd.loser) == round_lp_outcome_spec(players, units, final_state, timed_out)
    &&& rd.per_player@.len() == players.len()
    &&& forall|k: int| 0 <= k < players.len() ==> #[trigger] rd.per_player@[k] == (RoundEndPlayerData {
        player_id: players[k].player_id,
        alive_count: alive_of(units, players[k].player_id).len() as u16,
        total_hp: total_hp[k],
        timeout_damage: if timed_out { alive_against(units, players[k].player_id).len() as i32 } else { 0 },
    })
}

impl<P, Z> MatchProgress<P, Z> {
    /// The report the authoritative side sends when a round ends (see
    /// `is_round_end_report`); `total_hp[k]` is the HP left to player `k`.
    pub fn round_end_report(&self, units: &[UnitStatus], total_hp: &[i32], final_state: MatchState, timed_out: bool) -> (rd: RoundEndData)
        requires
            total_hp@.len() == self.players@.len(),
            timed_out || final_state != MatchState::InProgress,
            final_state matches MatchState::Winner(w) ==> lp_damage(units@, w) <= i32::MAX,
        ensures
            is_round_end_report(self.players@, units@, total_hp@, final_state, timed_out, rd),
    {
        let (lp_damage, loser) = self.round_lp_outcome(units, final_state, timed_out);
        let winner = match final_state {
            MatchState::Winner(w) => Some(w),
            _ => None,
        };
        let mut per_player: Vec<RoundEndPlayerData> = Vec::new();
        let mut k: usize = 0;
        while k < self.players.len()
            invariant
                k <= self.players@.len(),
                total_hp@.len() == self.players@.len(),
                per_player@.len() == k,
                forall|j: int| 0 <= j < k ==> #[trigger] per_player@[j] == (RoundEndPlayerData {
                    player_id: self.players@[j].player_id,
                    alive_count: alive_of(units@, self.players@[j].player_id).len() as u16,
                    total_hp: total_hp@[j],
                    timeout_damage: if timed_out { alive_against(units@, self.players@[j].player_id).len() as i32 } else { 0 },
                }),
            decreases self.players@.len() - k,
        {
            let pid = self.players[k].player_id;
            per_player.push(RoundEndPlayerData {
                player_id: pid,
                alive_count: alive_count(units, pid),
                total_hp: total_hp[k],
                timeout_damage: timeout_damage(units, pid, timed_out),
            });
            k = k + 1;
        }
        RoundEndData { winner, lp_damage, loser, per_player }
    }
}

proof fn lemma_no_timeout_total_zero(per: Seq<RoundEndPlayerData>, pid: u16)
    requires
        forall|i: int| 0 <= i < per.len() ==> (#[trigger] per[i]).timeout_damage == 0,
    ensures
        timeout_total(per, pid) == 0,
    decreases per.len(),
{
    if per.len() > 0 {
        lemma_no_timeout_total_zero(per.drop_last(), pid);
    }
}

/// Host and guest charge alike: charging a player from the round-end report
/// (as the guest does) takes exactly what the host takes directly, the
/// timeout damages when the round ran out of time, otherwise the LP damage
/// from the loser.
pub proof fn lemma_report_charges_like_host<P, Z>(
    players: Seq<PlayerState<P, Z>>,
    units: Seq<UnitStatus>,
    total_hp: Seq<i32>,
    final_state: MatchState,
    timed_out: bool,
    rd: RoundEndData,
    pid: u16,
)
    requires
        units.len() <= i32::MAX,
        is_round_end_report(players, units, total_hp, final_state, timed_out, rd),
    ensures
        round_end_loss(rd, pid) == (if timed_out {
            timeout_total(rd.per_player@, pid)
        } else if rd.loser == Some(pid) {
            rd.lp_damage as int
        } else {
            0
        }),
{
    let per = rd.per_player@;
    assert forall|i: int| 0 <= i < per.len() implies (#[trigger] per[i]).timeout_damage >= 0 by {
        let q = players[i].player_id;
        units.lemma_filter_len(|u: UnitStatus| u.alive && u.player_id != q);
    }
    if !report_has_timeout(per) {
        assert forall|i: int| 0 <= i < per.len() implies (#[trigger] per[i]).timeout_damage == 0 by {
            if per[i].timeout_damage != 0 {
                assert(per[i].timeout_damage > 0);
            }
        }
        lemma_no_timeout_total_zero(per, pid);
    } else if !timed_out {
        let i = choose|i: int| 0 <= i < per.len() && (#[trigger] per[i]).timeout_damage > 0;
        assert(per[i].timeout_damage == 0);
    }
}

} // verus!
