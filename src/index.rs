use vstd::prelude::*;
use std::collections::HashMap;
use crate::card::{Card, CardSet, CardSetView, CardView, card_views, clone_cards, set_views};

verus! {

broadcast use vstd::std_specs::hash::group_hash_axioms;

/// Every card of the sets: set after set, each set's cards in list order.
pub open spec fn all_cards(sets: Seq<CardSetView>) -> Seq<CardView>
    decreases sets.len(),
{
    if sets.len() == 0 {
        Seq::empty()
    } else {
        all_cards(sets.drop_last()) + sets.last().card_list
    }
}

/// The id index of a sequence of cards: each id maps to the last card that
/// carries it.
pub open spec fn id_index(cards: Seq<CardView>) -> Map<u32, CardView>
    decreases cards.len(),
{
    if cards.len() == 0 {
        Map::empty()
    } else {
        id_index(cards.drop_last()).insert(cards.last().card_id, cards.last())
    }
}

/// The views of the cards a map holds.
pub open spec fn map_card_views(m: Map<u32, Card>) -> Map<u32, CardView> {
    m.map_values(|c: Card| c@)
}

/// Copies the cards of all sets into one list, set after set.
pub fn collect_cards(sets: &Vec<CardSet>) -> (r: Vec<Card>)
    ensures
        card_views(r@) == all_cards(set_views(sets@)),
{
    let mut out: Vec<Card> = Vec::new();
    let mut i: usize = 0;
    while i < sets.len()
        invariant
            i <= sets.len(),
            card_views(out@) == all_cards(set_views(sets@.take(i as int))),
        decreases sets.len() - i,
    {
        let list = clone_cards(&sets[i].card_list);
        let ghost before = out@;
        let mut j: usize = 0;
        while j < list.len()
            invariant
                j <= list.len(),
                card_views(out@) == card_views(before) + card_views(list@.take(j as int)),
            decreases list.len() - j,
        {
            let ghost prev = out@;
            out.push(list[j].clone());
            proof {
                assert(card_views(out@) =~= card_views(prev).push(list@[j as int]@));
                assert(list@.take(j + 1) =~= list@.take(j as int).push(list@[j as int]));
                assert(card_views(list@.take(j + 1)) =~= card_views(list@.take(j as int)).push(
                    list@[j as int]@,
                ));
            }
            j = j + 1;
            assert(card_views(out@) =~= card_views(before) + card_views(list@.take(j as int)));
        }
        proof {
            assert(list@.take(list.len() as int) =~= list@);
            let next = set_views(sets@.take(i + 1));
            assert(next.drop_last() =~= set_views(sets@.take(i as int)));
            assert(next.last() == sets@[i as int]@);
        }
        i = i + 1;
    }
    assert(sets@.take(sets.len() as int) =~= sets@);
    out
}

/// Maps each card id to its card; where two cards share an id, the later one
/// wins.
pub fn map_ids_to_cards(sets: Vec<CardSet>) -> (r: HashMap<u32, Card>)
    ensures
        map_card_views(r@) == id_index(all_cards(set_views(sets@))),
{
    let cards = collect_cards(&sets);
    let ghost views = card_views(cards@);
    let mut map: HashMap<u32, Card> = HashMap::new();
    let mut i: usize = 0;
    assert(map_card_views(map@) =~= id_index(views.take(0)));
    while i < cards.len()
        invariant
            i <= cards.len(),
            views == card_views(cards@),
            map_card_views(map@) == id_index(views.take(i as int)),
        decreases cards.len() - i,
    {
        let card = cards[i].clone();
        let id = card.card_id;
        let ghost before = map@;
        map.insert(id, card);
        proof {
            assert(views.take(i + 1).drop_last() =~= views.take(i as int));
            assert(map_card_views(map@) =~= map_card_views(before).insert(id, cards@[i as int]@));
        }
        i = i + 1;
    }
    assert(views.take(cards.len() as int) =~= views);
    map
}

/// The index holds, for each position, the id of the card there, mapped to the
/// last card of the sequence that carries that id.
proof fn lemma_id_index_last(cards: Seq<CardView>, i: int)
    requires
        0 <= i < cards.len(),
    ensures
        id_index(cards).contains_key(cards[i].card_id),
        exists|j: int|
            i <= j < cards.len() && cards[j].card_id == cards[i].card_id
                && id_index(cards)[cards[i].card_id] == cards[j] && (forall|k: int|
                j < k < cards.len() ==> cards[k].card_id != cards[i].card_id),
    decreases cards.len(),
{
    let last = cards.len() - 1;
    if i == last || cards[last].card_id == cards[i].card_id {
        assert(id_index(cards)[cards[i].card_id] == cards[last]);
        assert(forall|k: int| last < k < cards.len() ==> cards[k].card_id != cards[i].card_id);
        assert(cards[last].card_id == cards[i].card_id);
    } else {
        lemma_id_index_last(cards.drop_last(), i);
        let j = choose|j: int|
            i <= j < cards.drop_last().len() && cards.drop_last()[j].card_id == cards[i].card_id
                && id_index(cards.drop_last())[cards[i].card_id] == cards.drop_last()[j] && (
            forall|k: int|
                j < k < cards.drop_last().len() ==> cards.drop_last()[k].card_id
                    != cards[i].card_id);
        assert(id_index(cards)[cards[i].card_id] == cards[j]);
        assert(cards.drop_last()[j] == cards[j]);
        assert(forall|k: int|
            j < k < cards.len() ==> cards[k].card_id != cards[i].card_id) by {
            assert(forall|k: int| j < k < last ==> cards.drop_last()[k] == cards[k]);
        }
    }
}

/// Each id of the index maps to a card that carries that id.
pub proof fn lemma_id_index_keys(cards: Seq<CardView>, id: u32)
    requires
        id_index(cards).contains_key(id),
    ensures
        id_index(cards)[id].card_id == id,
    decreases cards.len(),
{
    if cards.len() > 0 && cards.last().card_id != id {
        lemma_id_index_keys(cards.drop_last(), id);
    }
}

/// Every card of every set has an entry in the id index, and that entry is
/// the card of the last set, in set order, that defines the id.
pub proof fn lemma_id_map_last_wins(sets: Seq<CardSetView>, i: int)
    requires
        0 <= i < all_cards(sets).len(),
    ensures
        ({
            let cards = all_cards(sets);
            let id = cards[i].card_id;
            &&& id_index(cards).contains_key(id)
            &&& exists|j: int|
                i <= j < cards.len() && cards[j].card_id == id && id_index(cards)[id] == cards[j]
                    && (forall|k: int| j < k < cards.len() ==> cards[k].card_id != id)
        }),
{
    lemma_id_index_last(all_cards(sets), i);
}

} // verus!
