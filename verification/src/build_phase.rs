use vstd::prelude::*;
use crate::game_state::{purchased, sold, BuildState, PlacedPack, UndoEntry};
use crate::pack::{pack_entry, PACK_COUNT};
use crate::tech::{tech_price, TechId, TechState};
use crate::unit::UnitKind;

verus! {

/// Buying `tech_id` for `kind` from the tech panel: when the gold covers
/// the kind's current tech price, the price is paid, the tech bought and
/// the purchase recorded for the round (for network sync and undo).
pub fn buy_tech(
    techs: &mut TechState,
    gold_remaining: &mut u32,
    round_tech_purchases: &mut Vec<(UnitKind, TechId)>,
    kind: UnitKind,
    tech_id: TechId,
) -> (bought: bool)
    ensures
        bought == (*old(gold_remaining) >= tech_price(old(techs).techs(kind).len())),
        bought ==> {
            &&& *final(gold_remaining) == *old(gold_remaining) - tech_price(old(techs).techs(kind).len())
            &&& final(round_tech_purchases)@ == old(round_tech_purchases)@.push((kind, tech_id))
            &&& final(techs).techs(kind) == (if old(techs).techs(kind).contains(tech_id) {
                old(techs).techs(kind)
            } else {
                old(techs).techs(kind).push(tech_id)
            })
            &&& forall|k: UnitKind| k != kind ==> (#[trigger] final(techs).techs(k)) == old(techs).techs(k)
        },
        !bought ==> {
            &&& *final(gold_remaining) == *old(gold_remaining)
            &&& final(round_tech_purchases)@ == old(round_tech_purchases)@
            &&& forall|k: UnitKind| (#[trigger] final(techs).techs(k)) == old(techs).techs(k)
        },
{
    let cost = techs.effective_cost(kind);
    if *gold_remaining >= cost {
        *gold_remaining = *gold_remaining - cost;
        let _ = techs.purchase(kind, tech_id);
        round_tech_purchases.push((kind, tech_id));
        true
    } else {
        false
    }
}

/// Index of the last `(kind, tech_id)` entry, if any.
pub open spec fn last_index_of(s: Seq<(UnitKind, TechId)>, e: (UnitKind, TechId)) -> Option<int>
    decreases s.len(),
{
    if s.len() == 0 {
        None
    } else if s.last() == e {
        Some(s.len() - 1)
    } else {
        last_index_of(s.drop_last(), e)
    }
}

/// Undo of a tech purchase: the tech is removed from the kind, the price
/// that buying it cost (the kind's tech price once it is removed) is
/// refunded, and the latest matching entry leaves the round's purchase list.
pub fn undo_tech(
    techs: &mut TechState,
    gold_remaining: &mut u32,
    round_tech_purchases: &mut Vec<(UnitKind, TechId)>,
    kind: UnitKind,
    tech_id: TechId,
)
    requires
        *old(gold_remaining) + tech_price(old(techs).techs(kind).filter(|t: TechId| t != tech_id).len()) <= u32::MAX,
    ensures
        final(techs).techs(kind) == old(techs).techs(kind).filter(|t: TechId| t != tech_id),
        *final(gold_remaining) == *old(gold_remaining) + tech_price(final(techs).techs(kind).len()),
        forall|k: UnitKind| k != kind ==> (#[trigger] final(techs).techs(k)) == old(techs).techs(k),
        final(round_tech_purchases)@ == (match last_index_of(old(round_tech_purchases)@, (kind, tech_id)) {
            Some(i) => old(round_tech_purchases)@.remove(i),
            None => old(round_tech_purchases)@,
        }),
{
    // Refund what the tech cost: the price at the count without it
    techs.unpurchase(kind, tech_id);
    let cost = techs.effective_cost(kind);
    *gold_remaining = *gold_remaining + cost;
    // Remove from round tech purchases
    let ghost before = round_tech_purchases@;
    let mut i: usize = round_tech_purchases.len();
    assert(before.take(i as int) =~= before);
    while i > 0
        invariant
            before == old(round_tech_purchases)@,
            before == round_tech_purchases@,
            techs.techs(kind) == old(techs).techs(kind).filter(|t: TechId| t != tech_id),
            *gold_remaining == *old(gold_remaining) + tech_price(techs.techs(kind).len()),
            forall|k: UnitKind| k != kind ==> (#[trigger] techs.techs(k)) == old(techs).techs(k),
            i <= before.len(),
            last_index_of(before, (kind, tech_id)) == last_index_of(before.take(i as int), (kind, tech_id)),
        decreases i,
    {
        let e = round_tech_purchases[i - 1];
        proof {
            assert(before.take(i as int).last() == e);
            assert(before.take(i as int).drop_last() =~= before.take(i - 1));
        }
        if e.0 == kind && e.1 == tech_id {
            round_tech_purchases.remove(i - 1);
            return;
        }
        i = i - 1;
    }
}

/// Undo law of the tech panel: buying a tech the kind did not own and then
/// undoing it leaves the kind's techs, the round's purchase list and the
/// gold as they were.
pub proof fn lemma_undo_after_buy(
    owned: Seq<TechId>,
    purchases: Seq<(UnitKind, TechId)>,
    gold: int,
    kind: UnitKind,
    tech_id: TechId,
)
    requires
        !owned.contains(tech_id),
        gold >= tech_price(owned.len()),
    ensures
        owned.push(tech_id).filter(|t: TechId| t != tech_id) == owned,
        last_index_of(purchases.push((kind, tech_id)), (kind, tech_id)) == Some(purchases.len() as int),
        purchases.push((kind, tech_id)).remove(purchases.len() as int) == purchases,
        (gold - tech_price(owned.len())) + tech_price(owned.push(tech_id).filter(|t: TechId| t != tech_id).len()) == gold,
{
    crate::tech::lemma_unpurchase_undoes_purchase(owned, tech_id);
    assert(purchases.push((kind, tech_id)).drop_last() =~= purchases);
    assert(purchases.push((kind, tech_id)).remove(purchases.len() as int) =~= purchases);
}


/// What the caller has to redo on its side after an undo.
#[derive(Clone, Debug)]
pub enum Undone {
    /// The undo stack was empty, or the entry no longer applied.
    Nothing,
    /// A placement was taken back: these units are gone.
    Removed(Vec<u64>),
    /// These packs got their former center (and orientation) back.
    Moved(Vec<usize>),
    /// A tech bought for this kind was taken back.
    TechRemoved(UnitKind),
}

/// The centers of `packs` after restoring, in order, `centers[j]` to the
/// pack at `indices[j]` for the first `n` pairs (indices past the end skipped).
pub open spec fn restore_upto<P>(packs: Seq<PlacedPack<P>>, indices: Seq<usize>, centers: Seq<P>, n: nat) -> Seq<PlacedPack<P>>
    decreases n,
{
    if n == 0 {
        packs
    } else {
        let prev = restore_upto(packs, indices, centers, (n - 1) as nat);
        let idx = indices[n - 1];
        if idx < prev.len() {
            prev.update(idx as int, PlacedPack { center: centers[n - 1], ..prev[idx as int] })
        } else {
            prev
        }
    }
}

proof fn lemma_restore_len<P>(packs: Seq<PlacedPack<P>>, indices: Seq<usize>, centers: Seq<P>, n: nat)
    ensures
        restore_upto(packs, indices, centers, n).len() == packs.len(),
    decreases n,
{
    if n > 0 {
        lemma_restore_len(packs, indices, centers, (n - 1) as nat);
    }
}

/// The newest undo entry can be taken back without running out of gold
/// range, and names a shop pack or enough saved centers where it needs them.
pub open spec fn undo_allowed<P>(b: BuildState<P>, techs: TechState) -> bool {
    b.undo_history@.len() > 0 ==> match b.undo_history@.last() {
        UndoEntry::Place { placed_index } => placed_index < b.placed_packs@.len() ==> {
            &&& b.placed_packs@[placed_index as int].pack_index < PACK_COUNT
            &&& b.gold_remaining + pack_entry(b.placed_packs@[placed_index as int].pack_index as int).3 <= u32::MAX
        },
        UndoEntry::MultiMove { indices, old_centers } => indices@.len() <= old_centers@.len(),
        UndoEntry::Tech { kind, tech_id } =>
            b.gold_remaining + tech_price(techs.techs(kind).filter(|t: TechId| t != tech_id).len()) <= u32::MAX,
        _ => true,
    }
}

/// `after` (with techs `t1`) is `before` (with techs `t0`) once its newest
/// undo entry is taken back, and `u` tells the caller what changed:
/// a placement is sold back (unless it has since been locked), a move or
/// rotation restores the former center and orientation, a group move
/// restores each former center, a tech purchase is removed and what it
/// cost refunded.
pub open spec fn undo_step<P>(before: BuildState<P>, t0: TechState, after: BuildState<P>, t1: TechState, u: Undone) -> bool {
    if before.undo_history@.len() == 0 {
        after == before && t1 == t0 && u is Nothing
    } else {
        let packs = before.placed_packs@;
        &&& after == BuildState {
            gold_remaining: after.gold_remaining,
            placed_packs: after.placed_packs,
            round_tech_purchases: after.round_tech_purchases,
            undo_history: after.undo_history,
            ..before
        }
        &&& after.undo_history@ == before.undo_history@.drop_last()
        &&& match before.undo_history@.last() {
            UndoEntry::Tech { kind, tech_id } => {
                &&& t1.techs(kind) == t0.techs(kind).filter(|t: TechId| t != tech_id)
                &&& after.gold_remaining == before.gold_remaining + tech_price(t1.techs(kind).len())
                &&& after.placed_packs == before.placed_packs
                &&& forall|k: UnitKind| k != kind ==> (#[trigger] t1.techs(k)) == t0.techs(k)
                &&& after.round_tech_purchases@ == (match last_index_of(before.round_tech_purchases@, (kind, tech_id)) {
                    Some(i) => before.round_tech_purchases@.remove(i),
                    None => before.round_tech_purchases@,
                })
                &&& u == Undone::TechRemoved(kind)
            },
            entry => {
                &&& t1 == t0
                &&& after.round_tech_purchases == before.round_tech_purchases
                &&& match entry {
                    UndoEntry::Place { placed_index: i } => if i < packs.len() && !packs[i as int].locked {
                        &&& after.gold_remaining == before.gold_remaining + pack_entry(packs[i as int].pack_index as int).3
                        &&& after.placed_packs@ == packs.remove(i as int)
                        &&& u matches Undone::Removed(ids) && ids == packs[i as int].unit_ids
                    } else {
                        after.gold_remaining == before.gold_remaining && after.placed_packs == before.placed_packs && u is Nothing
                    },
                    UndoEntry::Move { placed_index: i, old_center } => {
                        &&& after.gold_remaining == before.gold_remaining
                        &&& if i < packs.len() {
                            &&& after.placed_packs@ == packs.update(i as int, PlacedPack { center: old_center, ..packs[i as int] })
                            &&& u matches Undone::Moved(v) && v@ == seq![i]
                        } else {
                            after.placed_packs == before.placed_packs && u is Nothing
                        }
                    },
                    UndoEntry::Rotate { placed_index: i, was_rotated, old_center } => {
                        &&& after.gold_remaining == before.gold_remaining
                        &&& if i < packs.len() {
                            &&& after.placed_packs@ == packs.update(
                                i as int,
                                PlacedPack { rotated: was_rotated, center: old_center, ..packs[i as int] },
                            )
                            &&& u matches Undone::Moved(v) && v@ == seq![i]
                        } else {
                            after.placed_packs == before.placed_packs && u is Nothing
                        }
                    },
                    UndoEntry::MultiMove { indices, old_centers } => {
                        &&& after.gold_remaining == before.gold_remaining
                        &&& after.placed_packs@ == restore_upto(packs, indices@, old_centers@, indices@.len())
                        &&& u matches Undone::Moved(v) && v@ == indices@.filter(|x: usize| x < packs.len())
                    },
                    UndoEntry::Tech { .. } => true,
                }
            },
        }
    }
}

impl<P: Copy> BuildState<P> {
    /// Take back the newest build action (Ctrl+Z).
    pub fn undo(&mut self, techs: &mut TechState) -> (u: Undone)
        requires
            undo_allowed(*old(self), *old(techs)),
        ensures
            undo_step(*old(self), *old(techs), *final(self), *final(techs), u),
    {
        if self.undo_history.len() == 0 {
            return Undone::Nothing;
        }
        let entry = match self.undo_history.pop() {
            Some(e) => e,
            None => return Undone::Nothing,
        };
        let ghost mid = *self;
        match entry {
            UndoEntry::Place { placed_index } => {
                if placed_index < self.placed_packs.len() {
                    match self.sell_pack(placed_index) {
                        Some((_, ids)) => Undone::Removed(ids),
                        None => Undone::Nothing,
                    }
                } else {
                    Undone::Nothing
                }
            },
            UndoEntry::Move { placed_index, old_center } => {
                if placed_index < self.placed_packs.len() {
                    self.placed_packs[placed_index].center = old_center;
                    let v = vec![placed_index];
                    assert(v@ =~= seq![placed_index]);
                    Undone::Moved(v)
                } else {
                    Undone::Nothing
                }
            },
            UndoEntry::Rotate { placed_index, was_rotated, old_center } => {
                if placed_index < self.placed_packs.len() {
                    self.placed_packs[placed_index].rotated = was_rotated;
                    self.placed_packs[placed_index].center = old_center;
                    assert(self.placed_packs@ =~= mid.placed_packs@.update(
                        placed_index as int,
                        PlacedPack { rotated: was_rotated, center: old_center, ..mid.placed_packs@[placed_index as int] },
                    ));
                    let v = vec![placed_index];
                    assert(v@ =~= seq![placed_index]);
                    Undone::Moved(v)
                } else {
                    Undone::Nothing
                }
            },
            UndoEntry::MultiMove { indices, old_centers } => {
                let ghost len = self.placed_packs@.len();
                let ghost keep = |x: usize| x < len;
                let mut moved: Vec<usize> = Vec::new();
                let mut j: usize = 0;
                while j < indices.len()
                    invariant
                        j <= indices@.len(),
                        indices@.len() <= old_centers@.len(),
                        len == mid.placed_packs@.len(),
                        keep == (|x: usize| x < len),
                        *self == (BuildState { placed_packs: self.placed_packs, ..mid }),
                        self.placed_packs@ == restore_upto(mid.placed_packs@, indices@, old_centers@, j as nat),
                        moved@ == indices@.take(j as int).filter(keep),
                    decreases indices@.len() - j,
                {
                    proof {
                        lemma_restore_len(mid.placed_packs@, indices@, old_centers@, j as nat);
                        assert(indices@.take(j as int + 1) =~= indices@.take(j as int).push(indices@[j as int]));
                        indices@.take(j as int).lemma_filter_push(indices@[j as int], keep);
                    }
                    let idx = indices[j];
                    if idx < self.placed_packs.len() {
                        self.placed_packs[idx].center = old_centers[j];
                        moved.push(idx);
                    }
                    j = j + 1;
                }
                proof {
                    assert(indices@.take(indices@.len() as int) =~= indices@);
                }
                Undone::Moved(moved)
            },
            UndoEntry::Tech { kind, tech_id } => {
                undo_tech(techs, &mut self.gold_remaining, &mut self.round_tech_purchases, kind, tech_id);
                Undone::TechRemoved(kind)
            },
        }
    }
}

/// Undoing a pack purchase right after it gives the price back and leaves
/// the board's packs and undo stack as they were before the purchase; the
/// ids handed to the bought pack are not reused.
pub proof fn lemma_undo_purchase<P>(
    b0: BuildState<P>,
    b1: BuildState<P>,
    b2: BuildState<P>,
    t0: TechState,
    t1: TechState,
    u: Undone,
    pack_index: usize,
    center: P,
    round: u32,
)
    requires
        pack_index < PACK_COUNT,
        b1.placed_packs@.len() <= usize::MAX,
        purchased(b0, b1, pack_index, center, round),
        undo_step(b1, t0, b2, t1, u),
    ensures
        b2.gold_remaining == b0.gold_remaining,
        b2.placed_packs@ == b0.placed_packs@,
        b2.undo_history@ == b0.undo_history@,
        b2.next_id == b1.next_id,
        t1 == t0,
        u matches Undone::Removed(ids) && ids == b1.placed_packs@.last().unit_ids,
{
    let n = b0.placed_packs@.len();
    assert(b1.undo_history@.last() == UndoEntry::<P>::Place { placed_index: n as usize });
    assert(b1.placed_packs@[n as int] == b1.placed_packs@.last());
    assert(b1.placed_packs@.remove(n as int) =~= b1.placed_packs@.drop_last());
    assert(b1.undo_history@.drop_last() =~= b0.undo_history@);
}

} // verus!
