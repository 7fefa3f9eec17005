use vstd::prelude::*;
use std::collections::VecDeque;

verus! {

/// Number of recent hashes each peer keeps for comparison against incoming
/// peer hashes. Large enough to cover significant frame drift between clients.
pub const HASH_HISTORY_LEN: usize = 256;

/// Maximum simulation steps per render frame. Prevents burst stutter when
/// one client's dt spikes (e.g., GPU scheduling or OS focus changes).
pub const MAX_STEPS_PER_FRAME: u32 = 2;

/// Frame advantage threshold before time dilation kicks in. If one client
/// is more than this many frames ahead/behind, it slows down/speeds up.
pub const DILATION_THRESHOLD: i32 = 10;

/// Debounce window for host state sends: after sending a state correction,
/// the host won't send another for this many frames.
pub const STATE_SEND_DEBOUNCE_FRAMES: u32 = 12;

/// For diagnostics: dump per-frame state for the first N frames of each
/// battle round. Set to 0 to disable entirely.
pub const DEBUG_DUMP_FRAMES: u32 = 30;

/// The most recent `HASH_HISTORY_LEN` entries of `s`.
pub open spec fn keep_recent(s: Seq<(u32, u64)>) -> Seq<(u32, u64)> {
    if s.len() > HASH_HISTORY_LEN {
        s.skip(s.len() - HASH_HISTORY_LEN)
    } else {
        s
    }
}

/// Store this frame's local hash, dropping the oldest entries beyond the
/// history window.
pub fn record_local_hash(recent_hashes: &mut VecDeque<(u32, u64)>, frame: u32, hash: u64)
    ensures
        final(recent_hashes)@ == keep_recent(old(recent_hashes)@.push((frame, hash))),
        final(recent_hashes)@.len() <= HASH_HISTORY_LEN,
{
    let ghost full = recent_hashes@.push((frame, hash));
    recent_hashes.push_back((frame, hash));
    while recent_hashes.len() > HASH_HISTORY_LEN
        invariant
            full.len() >= recent_hashes@.len(),
            recent_hashes@ == full.skip(full.len() - recent_hashes@.len()),
            recent_hashes@.len() >= HASH_HISTORY_LEN || recent_hashes@ == full,
        decreases recent_hashes@.len(),
    {
        let _ = recent_hashes.pop_front();
        assert(recent_hashes@ =~= full.skip(full.len() - recent_hashes@.len()));
    }
    assert(recent_hashes@ =~= keep_recent(full));
}

/// The hash stored for `frame` (its earliest entry), if any.
pub open spec fn local_hash_of(recent: Seq<(u32, u64)>, frame: u32) -> Option<u64>
    decreases recent.len(),
{
    if recent.len() == 0 {
        None
    } else if recent[0].0 == frame {
        Some(recent[0].1)
    } else {
        local_hash_of(recent.drop_first(), frame)
    }
}

/// The first peer report whose frame we hashed too, with a different hash.
pub open spec fn first_mismatch(recent: Seq<(u32, u64)>, peer: Seq<(u32, u64)>) -> Option<u32>
    decreases peer.len(),
{
    if peer.len() == 0 {
        None
    } else if local_hash_of(recent, peer[0].0) matches Some(h) && h != peer[0].1 {
        Some(peer[0].0)
    } else {
        first_mismatch(recent, peer.drop_first())
    }
}

/// The peer's report `e` disagrees with our history: we hashed its frame
/// and got another hash.
pub open spec fn disagrees(recent: Seq<(u32, u64)>, e: (u32, u64)) -> bool {
    local_hash_of(recent, e.0) matches Some(h) && h != e.1
}

/// Desync detection neither misses drift nor raises false alarms: a
/// mismatch is declared exactly when some peer report disagrees with our
/// history, and the declared frame is the frame of such a report.
pub proof fn lemma_drift_is_detected(recent: Seq<(u32, u64)>, peer: Seq<(u32, u64)>)
    ensures
        first_mismatch(recent, peer) is Some <==> exists|i: int| 0 <= i < peer.len() && #[trigger] disagrees(recent, peer[i]),
        first_mismatch(recent, peer) matches Some(f) ==> exists|i: int|
            0 <= i < peer.len() && #[trigger] disagrees(recent, peer[i]) && peer[i].0 == f,
    decreases peer.len(),
{
    if peer.len() > 0 {
        let rest = peer.drop_first();
        lemma_drift_is_detected(recent, rest);
        if disagrees(recent, peer[0]) {
            assert(first_mismatch(recent, peer) == Some(peer[0].0));
            assert(0 <= 0 < peer.len() && disagrees(recent, peer[0]));
        } else {
            assert(first_mismatch(recent, peer) == first_mismatch(recent, rest));
            if exists|i: int| 0 <= i < peer.len() && #[trigger] disagrees(recent, peer[i]) {
                let i = choose|i: int| 0 <= i < peer.len() && #[trigger] disagrees(recent, peer[i]);
                assert(i > 0);
                assert(rest[i - 1] == peer[i]);
                assert(disagrees(recent, rest[i - 1]));
            }
            if first_mismatch(recent, rest) is Some {
                let f = first_mismatch(recent, rest)->0;
                let j = choose|j: int| 0 <= j < rest.len() && #[trigger] disagrees(recent, rest[j]) && rest[j].0 == f;
                assert(peer[j + 1] == rest[j]);
                assert(disagrees(recent, peer[j + 1]));
            }
        }
    }
}

/// `i` is the first entry of `recent` for its frame.
pub open spec fn first_entry_for(recent: Seq<(u32, u64)>, i: int) -> bool {
    &&& 0 <= i < recent.len()
    &&& forall|k: int| 0 <= k < i ==> recent[k].0 != recent[i].0
}

/// Looking a frame up in the history: there is no hash exactly when no
/// entry has that frame, and otherwise the hash is that of the frame's
/// first entry, wherever it stands (the newest entry included).
pub proof fn lemma_lookup_reads_history(recent: Seq<(u32, u64)>, frame: u32)
    ensures
        local_hash_of(recent, frame) is None <==> forall|i: int| 0 <= i < recent.len() ==> (#[trigger] recent[i]).0 != frame,
        forall|i: int| #[trigger] first_entry_for(recent, i) && recent[i].0 == frame
            ==> local_hash_of(recent, frame) == Some(recent[i].1),
    decreases recent.len(),
{
    if recent.len() > 0 {
        let rest = recent.drop_first();
        lemma_lookup_reads_history(rest, frame);
        assert forall|i: int| 0 <= i < rest.len() implies rest[i] == recent[i + 1] by {}
        if recent[0].0 != frame {
            assert((forall|i: int| 0 <= i < recent.len() ==> (#[trigger] recent[i]).0 != frame)
                <==> (forall|i: int| 0 <= i < rest.len() ==> (#[trigger] rest[i]).0 != frame)) by {
                if forall|i: int| 0 <= i < rest.len() ==> (#[trigger] rest[i]).0 != frame {
                    assert forall|i: int| 0 <= i < recent.len() implies (#[trigger] recent[i]).0 != frame by {
                        if i > 0 {
                            assert(rest[i - 1] == recent[i]);
                        }
                    }
                }
            }
            assert forall|i: int| #[trigger] first_entry_for(recent, i) && recent[i].0 == frame
                implies local_hash_of(recent, frame) == Some(recent[i].1) by {
                assert(i > 0);
                assert(rest[i - 1] == recent[i]);
                assert forall|k: int| 0 <= k < i - 1 implies (#[trigger] rest[k]).0 != rest[i - 1].0 by {
                    assert(rest[k] == recent[k + 1]);
                }
                assert(first_entry_for(rest, i - 1));
            }
        } else {
            assert forall|i: int| #[trigger] first_entry_for(recent, i) && recent[i].0 == frame
                implies local_hash_of(recent, frame) == Some(recent[i].1) by {
                if i > 0 {
                    assert(recent[0].0 != recent[i].0);
                }
            }
            assert(recent[0].0 == frame);
        }
    }
}

/// A disagreeing report is never missed: whenever the first history entry
/// for some frame and a peer report for that frame carry different hashes,
/// a mismatch is declared; and a declared frame always comes from such a
/// pair. When the history holds each frame once, this covers every entry.
pub proof fn lemma_disagreement_is_reported(recent: Seq<(u32, u64)>, peer: Seq<(u32, u64)>)
    ensures
        first_mismatch(recent, peer) is Some <==> exists|i: int, j: int|
            #[trigger] first_entry_for(recent, i) && 0 <= j < peer.len() && recent[i].0 == (#[trigger] peer[j]).0
                && recent[i].1 != peer[j].1,
        first_mismatch(recent, peer) matches Some(f) ==> exists|i: int, j: int|
            #[trigger] first_entry_for(recent, i) && 0 <= j < peer.len() && recent[i].0 == (#[trigger] peer[j]).0
                && recent[i].1 != peer[j].1 && peer[j].0 == f,
{
    lemma_drift_is_detected(recent, peer);
    assert forall|j: int| 0 <= j < peer.len() implies (#[trigger] disagrees(recent, peer[j]) <==> exists|i: int|
        #[trigger] first_entry_for(recent, i) && recent[i].0 == peer[j].0 && recent[i].1 != peer[j].1) by {
        lemma_lookup_reads_history(recent, peer[j].0);
        if disagrees(recent, peer[j]) {
            // the frame is in the history: take its first entry
            let i0 = choose|i: int| 0 <= i < recent.len() && (#[trigger] recent[i]).0 == peer[j].0;
            lemma_first_entry_exists(recent, i0);
            let i = choose|i: int| #[trigger] first_entry_for(recent, i) && recent[i].0 == recent[i0].0;
            assert(local_hash_of(recent, peer[j].0) == Some(recent[i].1));
        }
    }
    if first_mismatch(recent, peer) is Some {
        let j = choose|j: int| 0 <= j < peer.len() && #[trigger] disagrees(recent, peer[j]);
        let i = choose|i: int| #[trigger] first_entry_for(recent, i) && recent[i].0 == peer[j].0 && recent[i].1 != peer[j].1;
        assert(first_entry_for(recent, i) && 0 <= j < peer.len() && recent[i].0 == peer[j].0 && recent[i].1 != peer[j].1);
        let f = first_mismatch(recent, peer)->0;
        let j2 = choose|j2: int| 0 <= j2 < peer.len() && #[trigger] disagrees(recent, peer[j2]) && peer[j2].0 == f;
        let i2 = choose|i2: int| #[trigger] first_entry_for(recent, i2) && recent[i2].0 == peer[j2].0 && recent[i2].1 != peer[j2].1;
        assert(first_entry_for(recent, i2) && 0 <= j2 < peer.len() && recent[i2].0 == peer[j2].0 && recent[i2].1 != peer[j2].1 && peer[j2].0 == f);
    }
    if exists|i: int, j: int| #[trigger] first_entry_for(recent, i) && 0 <= j < peer.len() && recent[i].0 == (#[trigger] peer[j]).0
        && recent[i].1 != peer[j].1 {
        let (i, j) = choose|i: int, j: int| #[trigger] first_entry_for(recent, i) && 0 <= j < peer.len() && recent[i].0 == (#[trigger] peer[j]).0
            && recent[i].1 != peer[j].1;
        assert(disagrees(recent, peer[j]));
    }
}

/// Some entry of `recent` has the frame of entry `i0`; the earliest such
/// entry is the first entry for that frame.
proof fn lemma_first_entry_exists(recent: Seq<(u32, u64)>, i0: int)
    requires
        0 <= i0 < recent.len(),
    ensures
        exists|i: int| #[trigger] first_entry_for(recent, i) && recent[i].0 == recent[i0].0,
    decreases i0,
{
    if exists|k: int| 0 <= k < i0 && recent[k].0 == recent[i0].0 {
        let k = choose|k: int| 0 <= k < i0 && recent[k].0 == recent[i0].0;
        lemma_first_entry_exists(recent, k);
    } else {
        assert(first_entry_for(recent, i0));
    }
}

/// The newest hash is checked like any other: after recording `hash` for a
/// frame not yet in the history, a peer report for that frame with another
/// hash is reported as a mismatch on that frame.
pub proof fn lemma_newest_hash_is_checked(recent: Seq<(u32, u64)>, frame: u32, hash: u64, peer_hash: u64)
    requires
        forall|i: int| 0 <= i < recent.len() ==> (#[trigger] recent[i]).0 != frame,
        peer_hash != hash,
    ensures
        first_mismatch(keep_recent(recent.push((frame, hash))), seq![(frame, peer_hash)]) == Some(frame),
{
    let h = keep_recent(recent.push((frame, hash)));
    let n = h.len() - 1;
    assert(h[n] == (frame, hash));
    assert forall|k: int| 0 <= k < n implies h[k].0 != frame by {
        if recent.push((frame, hash)).len() > HASH_HISTORY_LEN {
            let off = recent.push((frame, hash)).len() - HASH_HISTORY_LEN;
            assert(h[k] == recent[k + off]);
        } else {
            assert(h[k] == recent[k]);
        }
    }
    assert(first_entry_for(h, n));
    lemma_lookup_reads_history(h, frame);
    let peer = seq![(frame, peer_hash)];
    assert(peer.drop_first() =~= Seq::<(u32, u64)>::empty());
}

proof fn lemma_first_disagreeing_report(recent: Seq<(u32, u64)>, peer: Seq<(u32, u64)>)
    ensures
        first_mismatch(recent, peer) matches Some(f) ==> exists|j: int|
            0 <= j < peer.len() && #[trigger] disagrees(recent, peer[j]) && peer[j].0 == f
                && forall|k: int| 0 <= k < j ==> !#[trigger] disagrees(recent, peer[k]),
    decreases peer.len(),
{
    if peer.len() > 0 {
        let rest = peer.drop_first();
        lemma_first_disagreeing_report(recent, rest);
        if disagrees(recent, peer[0]) {
            assert(0 <= 0 < peer.len() && disagrees(recent, peer[0]) && peer[0].0 == peer[0].0);
        } else if first_mismatch(recent, rest) is Some {
            let f = first_mismatch(recent, rest)->0;
            let j = choose|j: int| 0 <= j < rest.len() && #[trigger] disagrees(recent, rest[j]) && rest[j].0 == f
                && forall|k: int| 0 <= k < j ==> !#[trigger] disagrees(recent, rest[k]);
            assert(peer[j + 1] == rest[j]);
            assert forall|k: int| 0 <= k < j + 1 implies !#[trigger] disagrees(recent, peer[k]) by {
                if k > 0 {
                    assert(peer[k] == rest[k - 1]);
                }
            }
        }
    }
}

/// The declared frame is the peer's first report that can be checked and
/// disagrees: every earlier report either names a frame we never hashed or
/// carries the same hash as that frame's first entry in our history.
pub proof fn lemma_first_disagreement_wins(recent: Seq<(u32, u64)>, peer: Seq<(u32, u64)>)
    ensures
        first_mismatch(recent, peer) matches Some(f) ==> exists|j: int| {
            &&& 0 <= j < peer.len()
            &&& (#[trigger] peer[j]).0 == f
            &&& exists|i: int| #[trigger] first_entry_for(recent, i) && recent[i].0 == f && recent[i].1 != peer[j].1
            &&& forall|k: int, i: int| 0 <= k < j && #[trigger] first_entry_for(recent, i) && recent[i].0 == (#[trigger] peer[k]).0
                ==> recent[i].1 == peer[k].1
        },
{
    lemma_first_disagreeing_report(recent, peer);
    if first_mismatch(recent, peer) is Some {
        let f = first_mismatch(recent, peer)->0;
        let j = choose|j: int| 0 <= j < peer.len() && #[trigger] disagrees(recent, peer[j]) && peer[j].0 == f
            && forall|k: int| 0 <= k < j ==> !#[trigger] disagrees(recent, peer[k]);
        lemma_lookup_reads_history(recent, f);
        let i0 = choose|i: int| 0 <= i < recent.len() && (#[trigger] recent[i]).0 == f;
        lemma_first_entry_exists(recent, i0);
        let i = choose|i: int| #[trigger] first_entry_for(recent, i) && recent[i].0 == recent[i0].0;
        assert(first_entry_for(recent, i) && recent[i].0 == f && recent[i].1 != peer[j].1);
        assert forall|k: int, i2: int| 0 <= k < j && #[trigger] first_entry_for(recent, i2) && recent[i2].0 == (#[trigger] peer[k]).0
            implies recent[i2].1 == peer[k].1 by {
            lemma_lookup_reads_history(recent, peer[k].0);
            assert(!disagrees(recent, peer[k]));
        }
        assert(0 <= j < peer.len() && peer[j].0 == f);
    }
}

fn lookup_local_hash(recent: &VecDeque<(u32, u64)>, frame: u32) -> (h: Option<u64>)
    ensures
        h == local_hash_of(recent@, frame),
{
    let mut j: usize = 0;
    assert(recent@.skip(0) =~= recent@);
    while j < recent.len()
        invariant
            j <= recent@.len(),
            local_hash_of(recent@, frame) == local_hash_of(recent@.skip(j as int), frame),
        decreases recent@.len() - j,
    {
        let e = recent[j];
        proof {
            assert(recent@.skip(j as int)[0] == e);
            assert(recent@.skip(j as int).drop_first() =~= recent@.skip(j as int + 1));
        }
        if e.0 == frame {
            return Some(e.1);
        }
        j = j + 1;
    }
    None
}

/// Compare the peer's reported (frame, hash) pairs against our history:
/// the frame of the first report we can check that disagrees, if any.
pub fn find_mismatch(recent_hashes: &VecDeque<(u32, u64)>, peer_hashes: &[(u32, u64)]) -> (m: Option<u32>)
    ensures
        m == first_mismatch(recent_hashes@, peer_hashes@),
{
    let mut i: usize = 0;
    assert(peer_hashes@.skip(0) =~= peer_hashes@);
    while i < peer_hashes.len()
        invariant
            i <= peer_hashes@.len(),
            first_mismatch(recent_hashes@, peer_hashes@) == first_mismatch(recent_hashes@, peer_hashes@.skip(i as int)),
        decreases peer_hashes@.len() - i,
    {
        let (peer_frame, peer_hash) = peer_hashes[i];
        proof {
            assert(peer_hashes@.skip(i as int)[0] == (peer_frame, peer_hash));
            assert(peer_hashes@.skip(i as int).drop_first() =~= peer_hashes@.skip(i as int + 1));
        }
        if let Some(lh) = lookup_local_hash(recent_hashes, peer_frame) {
            if lh != peer_hash {
                return Some(peer_frame);
            }
        }
        i = i + 1;
    }
    None
}

/// The largest frame number among the peer's reports and `current`.
pub open spec fn max_frame(current: u32, peer: Seq<(u32, u64)>) -> u32
    decreases peer.len(),
{
    if peer.len() == 0 {
        current
    } else {
        let rest = max_frame(current, peer.drop_last());
        if peer.last().0 > rest { peer.last().0 } else { rest }
    }
}

/// Track the peer's latest frame (for time dilation): it only moves forward.
pub fn latest_peer_frame(peer_frame: u32, peer_hashes: &[(u32, u64)]) -> (f: u32)
    ensures
        f == max_frame(peer_frame, peer_hashes@),
        f >= peer_frame,
        forall|i: int| 0 <= i < peer_hashes@.len() ==> f >= (#[trigger] peer_hashes@[i]).0,
{
    let mut f = peer_frame;
    let mut i: usize = 0;
    while i < peer_hashes.len()
        invariant
            i <= peer_hashes@.len(),
            f == max_frame(peer_frame, peer_hashes@.take(i as int)),
            f >= peer_frame,
            forall|j: int| 0 <= j < i ==> f >= (#[trigger] peer_hashes@[j]).0,
        decreases peer_hashes@.len() - i,
    {
        proof {
            assert(peer_hashes@.take(i as int + 1).drop_last() =~= peer_hashes@.take(i as int));
        }
        if peer_hashes[i].0 > f {
            f = peer_hashes[i].0;
        }
        i = i + 1;
    }
    assert(peer_hashes@.take(peer_hashes@.len() as int) =~= peer_hashes@);
    f
}

/// Host debounce: a state correction may go out if none was sent yet, or
/// the last one is at least `STATE_SEND_DEBOUNCE_FRAMES` frames old.
pub fn should_send_state(last_state_send_frame: Option<u32>, frame: u32) -> (ok: bool)
    ensures
        ok == match last_state_send_frame {
            None => true,
            Some(last) => (if frame >= last { frame - last } else { 0 }) >= STATE_SEND_DEBOUNCE_FRAMES,
        },
{
    match last_state_send_frame {
        None => true,
        Some(last) => frame.saturating_sub(last) >= STATE_SEND_DEBOUNCE_FRAMES,
    }
}

/// Time-dilation decision from the frame advantage over the peer.
#[derive(Clone, Copy, Debug, PartialEq, Eq, Structural)]
pub enum Dilation {
    /// We are too far ahead: run slower.
    SlowDown,
    /// We are too far behind: run faster.
    SpeedUp,
    /// Within the threshold: run at normal speed.
    Normal,
}

/// Frame advantage (our frame minus the peer's, both read as `i32`).
pub open spec fn frame_advantage(frame: u32, peer_frame: u32) -> int {
    (frame as i32) as int - (peer_frame as i32) as int
}

/// Positive advantage = we're ahead, slow down. Negative = behind, speed up.
pub fn frame_dilation(frame: u32, peer_frame: u32) -> (d: Dilation)
    requires
        i32::MIN <= frame_advantage(frame, peer_frame) <= i32::MAX,
    ensures
        d == (if frame_advantage(frame, peer_frame) > DILATION_THRESHOLD {
            Dilation::SlowDown
        } else if frame_advantage(frame, peer_frame) < -DILATION_THRESHOLD {
            Dilation::SpeedUp
        } else {
            Dilation::Normal
        }),
{
    let frame_advantage = frame as i32 - peer_frame as i32;
    if frame_advantage > DILATION_THRESHOLD {
        Dilation::SlowDown
    } else if frame_advantage < -DILATION_THRESHOLD {
        Dilation::SpeedUp
    } else {
        Dilation::Normal
    }
}

} // verus!
