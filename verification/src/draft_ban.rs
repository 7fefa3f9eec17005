use vstd::prelude::*;
use crate::unit::{all_kinds_spec, kind_at, kind_index_spec, kinds_contain, lemma_all_kinds, UnitKind, KIND_COUNT};

verus! {

/// How many kinds one player may ban.
pub const MAX_BANS: usize = 2;

/// Result of a draft/ban step: still waiting, or the full list of bans.
#[derive(Clone, Debug)]
pub enum DraftBanResult {
    Waiting,
    Done(Vec<UnitKind>),
}

/// Clicking a kind's card: unban it if banned, otherwise ban it while fewer
/// than two kinds are banned.
pub fn toggle_ban(bans: &mut Vec<UnitKind>, kind: UnitKind)
    ensures
        final(bans)@ == (if old(bans)@.contains(kind) {
            old(bans)@.filter(|k: UnitKind| k != kind)
        } else if old(bans)@.len() < MAX_BANS {
            old(bans)@.push(kind)
        } else {
            old(bans)@
        }),
{
    if kinds_contain(bans.as_slice(), kind) {
        let ghost before = bans@;
        let ghost keep = |k: UnitKind| k != kind;
        let mut kept: Vec<UnitKind> = Vec::new();
        let mut i: usize = 0;
        while i < bans.len()
            invariant
                before == bans@,
                keep == (|k: UnitKind| k != kind),
                i <= before.len(),
                kept@ == before.take(i as int).filter(keep),
            decreases before.len() - i,
        {
            let k = bans[i];
            proof {
                assert(before.take(i as int + 1) =~= before.take(i as int).push(k));
                before.take(i as int).lemma_filter_push(k, keep);
            }
            if k != kind {
                kept.push(k);
            }
            i = i + 1;
        }
        assert(before.take(before.len() as int) =~= before);
        *bans = kept;
    } else if bans.len() < MAX_BANS {
        bans.push(kind);
    }
}

/// Wire form of a ban list: each kind's position in declaration order.
pub open spec fn ban_codes(bans: Seq<UnitKind>) -> Seq<u8> {
    bans.map_values(|k: UnitKind| kind_index_spec(k) as u8)
}

/// Encode bans for the network: each kind becomes its position in
/// declaration order.
pub fn encode_bans(bans: &[UnitKind]) -> (codes: Vec<u8>)
    ensures
        codes@ == ban_codes(bans@),
{
    let mut codes: Vec<u8> = Vec::new();
    let mut i: usize = 0;
    while i < bans.len()
        invariant
            i <= bans@.len(),
            codes@ == ban_codes(bans@.take(i as int)),
        decreases bans@.len() - i,
    {
        codes.push(bans[i].index() as u8);
        i = i + 1;
        assert(codes@ =~= ban_codes(bans@.take(i as int)));
    }
    assert(bans@.take(bans@.len() as int) =~= bans@);
    codes
}

/// Kinds named by received ban codes; codes that name no kind are dropped.
pub open spec fn decoded_bans(codes: Seq<u8>) -> Seq<UnitKind> {
    codes.filter(|c: u8| c < KIND_COUNT).map_values(|c: u8| all_kinds_spec()[c as int])
}

/// Decode the opponent's ban codes, skipping any code out of range.
pub fn decode_bans(codes: &[u8]) -> (bans: Vec<UnitKind>)
    ensures
        bans@ == decoded_bans(codes@),
{
    let ghost valid = |c: u8| c < KIND_COUNT;
    let mut bans: Vec<UnitKind> = Vec::new();
    let mut i: usize = 0;
    while i < codes.len()
        invariant
            valid == (|c: u8| c < KIND_COUNT),
            i <= codes@.len(),
            bans@ == codes@.take(i as int).filter(valid).map_values(|c: u8| all_kinds_spec()[c as int]),
        decreases codes@.len() - i,
    {
        let c = codes[i];
        proof {
            assert(codes@.take(i as int + 1) =~= codes@.take(i as int).push(c));
            codes@.take(i as int).lemma_filter_push(c, valid);
        }
        if (c as usize) < KIND_COUNT {
            bans.push(kind_at(c as usize));
        }
        i = i + 1;
        assert(bans@ =~= codes@.take(i as int).filter(valid).map_values(|c: u8| all_kinds_spec()[c as int]));
    }
    assert(codes@.take(codes@.len() as int) =~= codes@);
    bans
}

/// Round-trip law of the ban exchange: the opponent decodes exactly the
/// bans that were encoded.
pub proof fn lemma_ban_codes_round_trip(bans: Seq<UnitKind>)
    ensures
        decoded_bans(ban_codes(bans)) == bans,
    decreases bans.len(),
{
    let valid = |c: u8| c < KIND_COUNT;
    let to_kind = |c: u8| all_kinds_spec()[c as int];
    if bans.len() > 0 {
        let rest = bans.drop_last();
        let k = bans.last();
        lemma_ban_codes_round_trip(rest);
        lemma_all_kinds(k);
        assert(ban_codes(bans) =~= ban_codes(rest).push(kind_index_spec(k) as u8));
        ban_codes(rest).lemma_filter_push(kind_index_spec(k) as u8, valid);
        assert(ban_codes(rest).filter(valid).push(kind_index_spec(k) as u8).map_values(to_kind)
            =~= ban_codes(rest).filter(valid).map_values(to_kind).push(k));
        assert(rest.push(k) =~= bans);
    } else {
        assert(ban_codes(bans).filter(valid) =~= Seq::<u8>::empty()) by {
            reveal_with_fuel(Seq::<_>::filter, 1);
        }
        assert(decoded_bans(ban_codes(bans)) =~= bans);
    }
}

/// The draft ends once this player confirmed and, online, the opponent's
/// bans arrived; the match then bans ours followed by theirs.
pub fn draft_ban_result(bans: &Vec<UnitKind>, confirmed: bool, online: bool, peer_bans: &Option<Vec<UnitKind>>) -> (r: DraftBanResult)
    ensures
        match r {
            DraftBanResult::Done(all) => confirmed && (!online || peer_bans is Some) && all@ == bans@ + (match peer_bans {
                Some(p) => p@,
                None => Seq::<UnitKind>::empty(),
            }),
            DraftBanResult::Waiting => !(confirmed && (!online || peer_bans is Some)),
        },
{
    let ready = confirmed && (!online || peer_bans.is_some());
    if ready {
        let mut all_bans: Vec<UnitKind> = Vec::new();
        let mut i: usize = 0;
        while i < bans.len()
            invariant
                i <= bans@.len(),
                all_bans@ == bans@.take(i as int),
            decreases bans@.len() - i,
        {
            all_bans.push(bans[i]);
            i = i + 1;
            assert(all_bans@ =~= bans@.take(i as int));
        }
        assert(bans@.take(bans@.len() as int) =~= bans@);
        if let Some(ob) = peer_bans {
            let mut j: usize = 0;
            while j < ob.len()
                invariant
                    j <= ob@.len(),
                    all_bans@ == bans@ + ob@.take(j as int),
                decreases ob@.len() - j,
            {
                all_bans.push(ob[j]);
                j = j + 1;
                assert(all_bans@ =~= bans@ + ob@.take(j as int));
            }
            assert(ob@.take(ob@.len() as int) =~= ob@);
        } else {
            assert(all_bans@ =~= bans@ + Seq::<UnitKind>::empty());
        }
        return DraftBanResult::Done(all_bans);
    }
    DraftBanResult::Waiting
}


/// A player never bans more than `MAX_BANS` kinds, and never the same kind
/// twice: toggling keeps both properties.
pub proof fn lemma_ban_limit(bans: Seq<UnitKind>, kind: UnitKind)
    requires
        bans.len() <= MAX_BANS,
        bans.no_duplicates(),
    ensures
        ({
            let after = if bans.contains(kind) {
                bans.filter(|k: UnitKind| k != kind)
            } else if bans.len() < MAX_BANS {
                bans.push(kind)
            } else {
                bans
            };
            after.len() <= MAX_BANS && after.no_duplicates()
        }),
{
    let keep = |k: UnitKind| k != kind;
    bans.lemma_filter_len(keep);
    if bans.contains(kind) {
        lemma_filter_no_dup(bans, keep);
    } else if bans.len() < MAX_BANS {
        lemma_push_fresh_no_dup(bans, kind);
    }
}

proof fn lemma_push_fresh_no_dup<A>(q: Seq<A>, x: A)
    requires
        q.no_duplicates(),
        !q.contains(x),
    ensures
        q.push(x).no_duplicates(),
{
    assert forall|i: int, j: int| 0 <= i < j < q.len() + 1 implies q.push(x)[i] != q.push(x)[j] by {
        if j == q.len() {
            assert(q.push(x)[i] == q[i]);
        }
    }
}

proof fn lemma_filter_no_dup<A>(s: Seq<A>, p: spec_fn(A) -> bool)
    requires
        s.no_duplicates(),
    ensures
        s.filter(p).no_duplicates(),
    decreases s.len(),
{
    if s.len() == 0 {
        s.lemma_filter_len(p);
    } else {
        let r = s.drop_last();
        let x = s.last();
        assert(r.no_duplicates()) by {
            assert forall|i: int, j: int| 0 <= i < j < r.len() implies r[i] != r[j] by {
                assert(r[i] == s[i] && r[j] == s[j]);
            }
        }
        lemma_filter_no_dup(r, p);
        assert(s =~= r.push(x));
        r.lemma_filter_push(x, p);
        if p(x) {
            if r.filter(p).contains(x) {
                r.lemma_filter_contains_rev(p, x);
                let j = choose|j: int| 0 <= j < r.len() && r[j] == x;
                assert(s[j] == s[s.len() - 1]);
            }
            lemma_push_fresh_no_dup(r.filter(p), x);
        }
    }
}

} // verus!
