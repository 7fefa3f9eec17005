use vstd::prelude::*;
use crate::unit::UnitStatus;

verus! {

/// Outcome of a battle as seen from the surviving units.
#[derive(PartialEq, Eq, Clone, Copy, Debug, Structural)]
pub enum MatchState {
    InProgress,
    Winner(u16),
    Draw,
}

/// Some unit is still standing.
pub open spec fn any_alive(units: Seq<UnitStatus>) -> bool {
    exists|i: int| 0 <= i < units.len() && (#[trigger] units[i]).alive
}

/// Every standing unit belongs to player `pid`.
pub open spec fn all_alive_belong_to(units: Seq<UnitStatus>, pid: u16) -> bool {
    forall|i: int| 0 <= i < units.len() && (#[trigger] units[i]).alive ==> units[i].player_id == pid
}

/// Check if the match is over: no survivors is a draw, survivors of a
/// single player make that player the winner, otherwise it goes on.
pub fn check_match_state(units: &[UnitStatus]) -> (state: MatchState)
    ensures
        (state == MatchState::Draw) <==> !any_alive(units@),
        (forall|w: u16| (state == MatchState::Winner(w)) <==> (any_alive(units@) && all_alive_belong_to(units@, w))),
        (state == MatchState::InProgress) <==> (exists|i: int, j: int|
            0 <= i < units@.len() && 0 <= j < units@.len() && (#[trigger] units@[i]).alive
                && (#[trigger] units@[j]).alive && units@[i].player_id != units@[j].player_id),
{
    let mut first: Option<u16> = None;
    let mut first_at: usize = 0;
    let mut i: usize = 0;
    while i < units.len()
        invariant
            i <= units@.len(),
            first is None ==> forall|j: int| 0 <= j < i ==> !(#[trigger] units@[j]).alive,
            first matches Some(w) ==> {
                &&& first_at < i
                &&& units@[first_at as int].alive
                &&& units@[first_at as int].player_id == w
                &&& forall|j: int| 0 <= j < i && (#[trigger] units@[j]).alive ==> units@[j].player_id == w
            },
        decreases units@.len() - i,
    {
        let u = &units[i];
        if u.alive {
            match first {
                None => {
                    first = Some(u.player_id);
                    first_at = i;
                },
                Some(w) => {
                    if u.player_id != w {
                        assert(units@[first_at as int].alive && units@[i as int].alive);
                        return MatchState::InProgress;
                    }
                },
            }
        }
        i = i + 1;
    }
    match first {
        None => MatchState::Draw,
        Some(w) => {
            assert(units@[first_at as int].alive);
            assert forall|w2: u16| all_alive_belong_to(units@, w2) implies w2 == w by {
                assert(units@[first_at as int].alive);
            }
            MatchState::Winner(w)
        },
    }
}

/// Standing units of player `pid`.
pub open spec fn alive_of(units: Seq<UnitStatus>, pid: u16) -> Seq<UnitStatus> {
    units.filter(|u: UnitStatus| u.alive && u.player_id == pid)
}

/// Standing units of every player other than `pid`.
pub open spec fn alive_against(units: Seq<UnitStatus>, pid: u16) -> Seq<UnitStatus> {
    units.filter(|u: UnitStatus| u.alive && u.player_id != pid)
}

/// Number of standing units of `pid`, as carried in a round-end report.
pub fn alive_count(units: &[UnitStatus], pid: u16) -> (n: u16)
    ensures
        n == alive_of(units@, pid).len() as u16,
{
    let ghost pred = |u: UnitStatus| u.alive && u.player_id == pid;
    let mut n: usize = 0;
    let mut i: usize = 0;
    while i < units.len()
        invariant
            pred == (|u: UnitStatus| u.alive && u.player_id == pid),
            i <= units@.len(),
            n == units@.take(i as int).filter(pred).len(),
            n <= i,
        decreases units@.len() - i,
    {
        proof {
            assert(units@.take(i as int + 1) =~= units@.take(i as int).push(units@[i as int]));
            units@.take(i as int).lemma_filter_push(units@[i as int], pred);
        }
        if units[i].alive && units[i].player_id == pid {
            n = n + 1;
        }
        i = i + 1;
    }
    assert(units@.take(units@.len() as int) =~= units@);
    n as u16
}

/// LP a player loses when the round runs out of time: one per enemy unit
/// still standing (none when the round ended normally).
pub fn timeout_damage(units: &[UnitStatus], pid: u16, timed_out: bool) -> (d: i32)
    ensures
        d == (if timed_out { alive_against(units@, pid).len() as i32 } else { 0 }),
{
    if !timed_out {
        return 0;
    }
    let ghost pred = |u: UnitStatus| u.alive && u.player_id != pid;
    let mut n: usize = 0;
    let mut i: usize = 0;
    while i < units.len()
        invariant
            pred == (|u: UnitStatus| u.alive && u.player_id != pid),
            i <= units@.len(),
            n == units@.take(i as int).filter(pred).len(),
            n <= i,
        decreases units@.len() - i,
    {
        proof {
            assert(units@.take(i as int + 1) =~= units@.take(i as int).push(units@[i as int]));
            units@.take(i as int).lemma_filter_push(units@[i as int], pred);
        }
        if units[i].alive && units[i].player_id != pid {
            n = n + 1;
        }
        i = i + 1;
    }
    assert(units@.take(units@.len() as int) =~= units@);
    n as i32
}

} // verus!
