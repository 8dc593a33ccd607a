use vstd::prelude::*;
use crate::card::{CardSet, CardSetJson, CardSetView, clone_sets, set_views};

verus! {

/// How many card sets the catalog has: sets are numbered from zero up to,
/// not including, this count.
pub const CURRENT_SET: u8 = 2;

/// A cached card-set document with the time, in seconds since the Unix
/// epoch, until which it is fresh.
#[derive(Debug)]
pub struct ExpirationWrapper {
    pub expire_time: u64,
    pub card_set_json: CardSetJson,
}

/// What an envelope holds.
pub struct EnvelopeView {
    pub expire_time: u64,
    pub card_set: CardSetView,
}

impl View for ExpirationWrapper {
    type V = EnvelopeView;

    open spec fn view(&self) -> EnvelopeView {
        EnvelopeView { expire_time: self.expire_time, card_set: self.card_set_json.card_set@ }
    }
}

/// The views of a sequence of envelopes.
pub open spec fn envelope_views(ws: Seq<ExpirationWrapper>) -> Seq<EnvelopeView> {
    ws.map_values(|w: ExpirationWrapper| w@)
}

/// An envelope is fresh while its expiry lies strictly after `now`.
pub open spec fn is_fresh(w: EnvelopeView, now: u64) -> bool {
    w.expire_time > now
}

/// The sets of the fresh envelopes, in cache order.
pub open spec fn fresh_sets(ws: Seq<EnvelopeView>, now: u64) -> Seq<CardSetView>
    decreases ws.len(),
{
    if ws.len() == 0 {
        Seq::empty()
    } else if is_fresh(ws.last(), now) {
        fresh_sets(ws.drop_last(), now).push(ws.last().card_set)
    } else {
        fresh_sets(ws.drop_last(), now)
    }
}

/// Whether a fresh envelope holds the set with the given id.
pub open spec fn covered(ws: Seq<EnvelopeView>, now: u64, id: int) -> bool {
    exists|i: int|
        0 <= i < ws.len() && is_fresh(ws[i], now) && #[trigger] ws[i].card_set.set_info.set_id
            == id
}

/// The set ids below `n` that no fresh envelope holds, in increasing order.
pub open spec fn missing_below(ws: Seq<EnvelopeView>, now: u64, n: nat) -> Seq<u8>
    decreases n,
{
    if n == 0 {
        Seq::empty()
    } else if covered(ws, now, n - 1) {
        missing_below(ws, now, (n - 1) as nat)
    } else {
        missing_below(ws, now, (n - 1) as nat).push((n - 1) as u8)
    }
}

/// What a refresh takes from the cache, and what it still has to fetch.
#[derive(Debug)]
pub struct RefreshPlan {
    pub fresh: Vec<CardSet>,
    pub missing: Vec<u8>,
}

/// Sorts the cached envelopes: the sets of fresh ones are kept, in cache
/// order; every set id of the catalog that no fresh envelope holds, missing
/// or expired, is to be fetched, in increasing order.
pub fn plan_refresh(cached: &Vec<ExpirationWrapper>, now: u64) -> (r: RefreshPlan)
    ensures
        set_views(r.fresh@) == fresh_sets(envelope_views(cached@), now),
        r.missing@ == missing_below(envelope_views(cached@), now, CURRENT_SET as nat),
{
    let ghost ws = envelope_views(cached@);
    let mut fresh: Vec<CardSet> = Vec::new();
    let mut i: usize = 0;
    while i < cached.len()
        invariant
            i <= cached.len(),
            ws == envelope_views(cached@),
            set_views(fresh@) == fresh_sets(ws.take(i as int), now),
        decreases cached.len() - i,
    {
        proof {
            assert(ws.take(i + 1).drop_last() =~= ws.take(i as int));
            assert(ws.take(i + 1).last() == cached@[i as int]@);
        }
        if cached[i].expire_time > now {
            let ghost prev = fresh@;
            fresh.push(cached[i].card_set_json.card_set.clone());
            assert(set_views(fresh@) =~= set_views(prev).push(cached@[i as int]@.card_set));
        }
        i = i + 1;
    }
    assert(ws.take(cached.len() as int) =~= ws);
    let mut missing: Vec<u8> = Vec::new();
    let mut id: u8 = 0;
    while id < CURRENT_SET
        invariant
            id <= CURRENT_SET,
            ws == envelope_views(cached@),
            missing@ == missing_below(ws, now, id as nat),
        decreases CURRENT_SET - id,
    {
        let mut found = false;
        let mut j: usize = 0;
        while j < cached.len()
            invariant
                j <= cached.len(),
                ws == envelope_views(cached@),
                found == exists|k: int|
                    0 <= k < j && is_fresh(ws[k], now) && #[trigger] ws[k].card_set.set_info.set_id
                        == id,
            decreases cached.len() - j,
        {
            assert(ws[j as int] == cached@[j as int]@);
            if cached[j].expire_time > now && cached[j].card_set_json.card_set.set_info.set_id
                == id as u32 {
                found = true;
                assert(is_fresh(ws[j as int], now) && ws[j as int].card_set.set_info.set_id == id);
            } else {
                assert(!(is_fresh(ws[j as int], now) && ws[j as int].card_set.set_info.set_id
                    == id));
            }
            j = j + 1;
        }
        if !found {
            missing.push(id);
        }
        id = id + 1;
    }
    RefreshPlan { fresh, missing }
}

/// The merged result of a refresh: the sets taken from the cache, then those
/// just fetched, in the order given.
pub fn finish_refresh(fresh: Vec<CardSet>, fetched: &Vec<ExpirationWrapper>) -> (r: Vec<CardSet>)
    ensures
        set_views(r@) == set_views(fresh@) + envelope_views(fetched@).map_values(
            |w: EnvelopeView| w.card_set,
        ),
{
    let mut out = fresh;
    let ghost start = set_views(out@);
    let mut i: usize = 0;
    while i < fetched.len()
        invariant
            i <= fetched.len(),
            set_views(out@) == start + envelope_views(fetched@).take(i as int).map_values(
                |w: EnvelopeView| w.card_set,
            ),
        decreases fetched.len() - i,
    {
        let ghost prev = out@;
        out.push(fetched[i].card_set_json.card_set.clone());
        proof {
            let ev = envelope_views(fetched@);
            assert(set_views(out@) =~= set_views(prev).push(ev[i as int].card_set));
            assert(ev.take(i + 1).map_values(|w: EnvelopeView| w.card_set) =~= ev.take(
                i as int,
            ).map_values(|w: EnvelopeView| w.card_set).push(ev[i as int].card_set));
        }
        i = i + 1;
        assert(set_views(out@) =~= start + envelope_views(fetched@).take(i as int).map_values(
            |w: EnvelopeView| w.card_set,
        ));
    }
    assert(envelope_views(fetched@).take(fetched.len() as int) =~= envelope_views(fetched@));
    out
}

proof fn lemma_missing_below(ws: Seq<EnvelopeView>, now: u64, n: nat, id: int)
    requires
        0 <= id < n <= 256,
    ensures
        missing_below(ws, now, n).contains(id as u8) <==> !covered(ws, now, id),
    decreases n,
{
    let prev = missing_below(ws, now, (n - 1) as nat);
    assert forall|k: int| 0 <= k < prev.len() implies prev[k] < n - 1 by {
        lemma_missing_bound(ws, now, (n - 1) as nat, k);
    }
    if id < n - 1 {
        lemma_missing_below(ws, now, (n - 1) as nat, id);
        if !covered(ws, now, n - 1) {
            assert(missing_below(ws, now, n) == prev.push((n - 1) as u8));
            if missing_below(ws, now, n).contains(id as u8) {
                let k = choose|k: int|
                    0 <= k < missing_below(ws, now, n).len() && missing_below(ws, now, n)[k]
                        == id as u8;
                if k < prev.len() {
                    assert(prev[k] == id as u8);
                }
            }
            if prev.contains(id as u8) {
                let k = choose|k: int| 0 <= k < prev.len() && prev[k] == id as u8;
                assert(missing_below(ws, now, n)[k] == id as u8);
            }
        }
    } else {
        if !covered(ws, now, n - 1) {
            assert(missing_below(ws, now, n)[prev.len() as int] == id as u8);
        } else {
            if prev.contains(id as u8) {
                let k = choose|k: int| 0 <= k < prev.len() && prev[k] == id as u8;
            }
        }
    }
}

proof fn lemma_missing_bound(ws: Seq<EnvelopeView>, now: u64, n: nat, k: int)
    requires
        n <= 256,
        0 <= k < missing_below(ws, now, n).len(),
    ensures
        missing_below(ws, now, n)[k] < n,
    decreases n,
{
    let prev = missing_below(ws, now, (n - 1) as nat);
    if k < prev.len() {
        lemma_missing_bound(ws, now, (n - 1) as nat, k);
    }
}

/// Every set id of the catalog is either held by a fresh envelope of the
/// cache or among the ids that a refresh fetches, never both.
pub proof fn lemma_plan_covers_all_sets(ws: Seq<EnvelopeView>, now: u64, id: int)
    requires
        0 <= id < CURRENT_SET,
    ensures
        missing_below(ws, now, CURRENT_SET as nat).contains(id as u8) <==> !covered(ws, now, id),
{
    lemma_missing_below(ws, now, CURRENT_SET as nat, id);
}

/// Envelopes read back before they expire are taken as they are: their sets
/// come out of the cache unchanged, in order.
pub proof fn lemma_unexpired_envelopes_reload(ws: Seq<EnvelopeView>, now: u64)
    requires
        forall|i: int| 0 <= i < ws.len() ==> is_fresh(#[trigger] ws[i], now),
    ensures
        fresh_sets(ws, now) == ws.map_values(|w: EnvelopeView| w.card_set),
    decreases ws.len(),
{
    if ws.len() > 0 {
        let init = ws.drop_last();
        assert forall|i: int| 0 <= i < init.len() implies is_fresh(#[trigger] init[i], now) by {
            assert(init[i] == ws[i]);
        }
        lemma_unexpired_envelopes_reload(init, now);
        assert(is_fresh(ws[ws.len() - 1], now));
        assert(ws.map_values(|w: EnvelopeView| w.card_set) =~= init.map_values(
            |w: EnvelopeView| w.card_set,
        ).push(ws.last().card_set));
    } else {
        assert(ws.map_values(|w: EnvelopeView| w.card_set) =~= Seq::empty());
    }
}

proof fn lemma_fresh_sets_has(ws: Seq<EnvelopeView>, now: u64, i: int)
    requires
        0 <= i < ws.len(),
        is_fresh(ws[i], now),
    ensures
        exists|j: int|
            0 <= j < fresh_sets(ws, now).len() && fresh_sets(ws, now)[j] == ws[i].card_set,
    decreases ws.len(),
{
    let init = ws.drop_last();
    if i == ws.len() - 1 {
        assert(fresh_sets(ws, now)[fresh_sets(init, now).len() as int] == ws[i].card_set);
    } else {
        assert(init[i] == ws[i]);
        lemma_fresh_sets_has(init, now, i);
        let j = choose|j: int|
            0 <= j < fresh_sets(init, now).len() && fresh_sets(init, now)[j] == ws[i].card_set;
        assert(fresh_sets(ws, now)[j] == ws[i].card_set);
    }
}

/// When each id that a refresh fetches comes back as the set with that id,
/// every set of the catalog is in the merged result: from the cache when a
/// fresh envelope holds it, from the fetch otherwise.
pub proof fn lemma_refresh_has_every_set(
    ws: Seq<EnvelopeView>,
    now: u64,
    fetched: Seq<EnvelopeView>,
    id: int,
)
    requires
        0 <= id < CURRENT_SET,
        fetched.len() == missing_below(ws, now, CURRENT_SET as nat).len(),
        forall|i: int|
            0 <= i < fetched.len() ==> #[trigger] fetched[i].card_set.set_info.set_id
                == missing_below(ws, now, CURRENT_SET as nat)[i],
    ensures
        ({
            let merged = fresh_sets(ws, now) + fetched.map_values(|w: EnvelopeView| w.card_set);
            exists|j: int| 0 <= j < merged.len() && merged[j].set_info.set_id == id
        }),
{
    let fresh = fresh_sets(ws, now);
    let merged = fresh + fetched.map_values(|w: EnvelopeView| w.card_set);
    lemma_plan_covers_all_sets(ws, now, id);
    if covered(ws, now, id) {
        let i = choose|i: int|
            0 <= i < ws.len() && is_fresh(ws[i], now) && #[trigger] ws[i].card_set.set_info.set_id
                == id;
        lemma_fresh_sets_has(ws, now, i);
        let j = choose|j: int| 0 <= j < fresh.len() && fresh[j] == ws[i].card_set;
        assert(merged[j].set_info.set_id == id);
    } else {
        let missing = missing_below(ws, now, CURRENT_SET as nat);
        let k = choose|k: int| 0 <= k < missing.len() && missing[k] == id as u8;
        assert(fetched[k].card_set.set_info.set_id == id);
        assert(merged[fresh.len() + k] == fetched[k].card_set);
    }
}

} // verus!
