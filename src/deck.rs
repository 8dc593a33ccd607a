use vstd::prelude::*;
use std::cmp::Ordering;
use std::collections::HashMap;
use crate::card::{Card, CardColor, CardView, Reference, color_of, includes_tag};
use crate::index::map_card_views;

verus! {

broadcast use vstd::std_specs::hash::group_hash_axioms;

/// A hero of a deck, with the turn on which it is deployed. Two heroes are
/// the same when they come on the same turn.
#[derive(Debug, Eq)]
pub struct HeroCard {
    pub card: Card,
    pub turn: u32,
    pub color: CardColor,
}

/// What a hero entry holds.
pub struct HeroView {
    pub card: CardView,
    pub turn: u32,
    pub color: CardColor,
}

impl View for HeroCard {
    type V = HeroView;

    open spec fn view(&self) -> HeroView {
        HeroView { card: self.card@, turn: self.turn, color: self.color }
    }
}

impl PartialEq for HeroCard {
    fn eq(&self, other: &HeroCard) -> (r: bool) {
        self.turn == other.turn
    }
}

impl vstd::std_specs::cmp::PartialEqSpecImpl for HeroCard {
    open spec fn obeys_eq_spec() -> bool {
        true
    }

    open spec fn eq_spec(&self, other: &HeroCard) -> bool {
        self.turn == other.turn
    }
}

/// A card of a deck other than a hero, with the number of copies. Two entries
/// are the same when they hold the same card.
#[derive(Debug, Eq)]
pub struct CardCard {
    pub card: Card,
    pub count: u32,
    pub color: CardColor,
}

/// What a card entry holds.
pub struct CardCardView {
    pub card: CardView,
    pub count: u32,
    pub color: CardColor,
}

impl View for CardCard {
    type V = CardCardView;

    open spec fn view(&self) -> CardCardView {
        CardCardView { card: self.card@, count: self.count, color: self.color }
    }
}

impl PartialEq for CardCard {
    fn eq(&self, other: &CardCard) -> (r: bool) {
        self.card.card_id == other.card.card_id
    }
}

impl vstd::std_specs::cmp::PartialEqSpecImpl for CardCard {
    open spec fn obeys_eq_spec() -> bool {
        true
    }

    open spec fn eq_spec(&self, other: &CardCard) -> bool {
        self.card.card_id == other.card.card_id
    }
}

/// How two numbers compare.
pub open spec fn compare_u32(a: u32, b: u32) -> Ordering {
    if a < b {
        Ordering::Less
    } else if a == b {
        Ordering::Equal
    } else {
        Ordering::Greater
    }
}

fn cmp_u32(a: u32, b: u32) -> (r: Ordering)
    ensures
        r == compare_u32(a, b),
{
    if a < b {
        Ordering::Less
    } else if a == b {
        Ordering::Equal
    } else {
        Ordering::Greater
    }
}

/// The presentation order of heroes: by turn.
pub open spec fn hero_order(a: HeroView, b: HeroView) -> Ordering {
    compare_u32(a.turn, b.turn)
}

/// The presentation order of cards: coloured cards before items; coloured
/// cards by mana cost, items by gold cost.
pub open spec fn card_order(a: CardCardView, b: CardCardView) -> Ordering {
    if a.color == CardColor::Item {
        if b.color == CardColor::Item {
            compare_u32(a.card.gold_cost, b.card.gold_cost)
        } else {
            Ordering::Greater
        }
    } else if b.color == CardColor::Item {
        Ordering::Less
    } else {
        compare_u32(a.card.mana_cost, b.card.mana_cost)
    }
}

impl HeroCard {
    /// Compares two heroes in presentation order.
    pub fn cmp(&self, other: &HeroCard) -> (r: Ordering)
        ensures
            r == hero_order(self@, other@),
    {
        cmp_u32(self.turn, other.turn)
    }
}

impl PartialOrd for HeroCard {
    fn partial_cmp(&self, other: &HeroCard) -> (r: Option<Ordering>) {
        Some(self.cmp(other))
    }
}

impl vstd::std_specs::cmp::PartialOrdSpecImpl for HeroCard {
    open spec fn obeys_partial_cmp_spec() -> bool {
        true
    }

    open spec fn partial_cmp_spec(&self, other: &HeroCard) -> Option<Ordering> {
        Some(hero_order(self@, other@))
    }
}

impl CardCard {
    /// Compares two card entries in presentation order.
    pub fn cmp(&self, other: &CardCard) -> (r: Ordering)
        ensures
            r == card_order(self@, other@),
    {
        match self.color {
            CardColor::Item => match other.color {
                CardColor::Item => cmp_u32(self.card.gold_cost, other.card.gold_cost),
                _ => Ordering::Greater,
            },
            _ => match other.color {
                CardColor::Item => Ordering::Less,
                _ => cmp_u32(self.card.mana_cost, other.card.mana_cost),
            },
        }
    }
}

impl PartialOrd for CardCard {
    fn partial_cmp(&self, other: &CardCard) -> (r: Option<Ordering>) {
        Some(self.cmp(other))
    }
}

impl vstd::std_specs::cmp::PartialOrdSpecImpl for CardCard {
    open spec fn obeys_partial_cmp_spec() -> bool {
        true
    }

    open spec fn partial_cmp_spec(&self, other: &CardCard) -> Option<Ordering> {
        Some(card_order(self@, other@))
    }
}

/// A deck: its name, its heroes and its other cards.
#[derive(Debug)]
pub struct Deck {
    pub name: String,
    pub heroes: Vec<HeroCard>,
    pub cards: Vec<CardCard>,
}

impl Deck {
    /// An empty deck with an empty name.
    pub fn new() -> (r: Self)
        ensures
            r.name@ == Seq::<char>::empty(),
            r.heroes@.len() == 0,
            r.cards@.len() == 0,
    {
        Deck { name: String::new(), heroes: Vec::new(), cards: Vec::new() }
    }
}

/// A hero as a deck code gives it: a card id and a turn.
#[derive(Debug, Clone, Copy, PartialEq, Eq, Structural)]
pub struct RawHero {
    pub id: u32,
    pub turn: u32,
}

/// A card as a deck code gives it: a card id and a number of copies.
#[derive(Debug, Clone, Copy, PartialEq, Eq, Structural)]
pub struct RawCard {
    pub id: u32,
    pub count: u32,
}

/// A decoded deck code: a name, heroes and cards, all by id.
#[derive(Debug)]
pub struct RawDeck {
    pub name: String,
    pub heroes: Vec<RawHero>,
    pub cards: Vec<RawCard>,
}

/// The views of a sequence of hero entries.
pub open spec fn hero_views(hs: Seq<HeroCard>) -> Seq<HeroView> {
    hs.map_values(|h: HeroCard| h@)
}

/// The views of a sequence of card entries.
pub open spec fn card_card_views(cs: Seq<CardCard>) -> Seq<CardCardView> {
    cs.map_values(|c: CardCard| c@)
}

/// The heroes that resolve in the index, in order, each with its colour.
pub open spec fn hero_entries(heroes: Seq<RawHero>, m: Map<u32, CardView>) -> Seq<HeroView>
    decreases heroes.len(),
{
    if heroes.len() == 0 {
        Seq::empty()
    } else {
        let rest = hero_entries(heroes.drop_last(), m);
        let h = heroes.last();
        if m.contains_key(h.id) {
            rest.push(HeroView { card: m[h.id], turn: h.turn, color: color_of(m[h.id]) })
        } else {
            rest
        }
    }
}

/// The cards that a list of references pulls into a deck: one per
/// `"includes"` reference, in order.
pub open spec fn includes_of(refs: Seq<Reference>) -> Seq<RawCard>
    decreases refs.len(),
{
    if refs.len() == 0 {
        Seq::empty()
    } else {
        let rest = includes_of(refs.drop_last());
        let r = refs.last();
        if r.ref_type@ == includes_tag() {
            rest.push(RawCard { id: r.card_id, count: r.count })
        } else {
            rest
        }
    }
}

/// The cards that the resolved heroes pull into a deck, hero after hero.
pub open spec fn hero_includes(heroes: Seq<RawHero>, m: Map<u32, CardView>) -> Seq<RawCard>
    decreases heroes.len(),
{
    if heroes.len() == 0 {
        Seq::empty()
    } else {
        let rest = hero_includes(heroes.drop_last(), m);
        let h = heroes.last();
        if m.contains_key(h.id) {
            rest + includes_of(m[h.id].references)
        } else {
            rest
        }
    }
}

/// The card entries that resolve in the index, in order, each with its
/// colour.
pub open spec fn card_entries(cards: Seq<RawCard>, m: Map<u32, CardView>) -> Seq<CardCardView>
    decreases cards.len(),
{
    if cards.len() == 0 {
        Seq::empty()
    } else {
        let rest = card_entries(cards.drop_last(), m);
        let c = cards.last();
        if m.contains_key(c.id) {
            rest.push(CardCardView { card: m[c.id], count: c.count, color: color_of(m[c.id]) })
        } else {
            rest
        }
    }
}

/// The raw cards of a deck once its heroes' inclusions are appended.
pub open spec fn expanded_cards(raw_cards: Seq<RawCard>, heroes: Seq<RawHero>, m: Map<u32, CardView>) -> Seq<RawCard> {
    raw_cards + hero_includes(heroes, m)
}

/// Resolves a decoded deck against an id index. Heroes and cards whose id
/// the index lacks are left out; each resolved hero's `"includes"`
/// references are added to the cards, after those of the code. Nothing is
/// merged or sorted.
pub fn build_deck(raw: RawDeck, id_map: &HashMap<u32, Card>) -> (r: Deck)
    ensures
        r.name@ == raw.name@,
        hero_views(r.heroes@) == hero_entries(raw.heroes@, map_card_views(id_map@)),
        card_card_views(r.cards@) == card_entries(
            expanded_cards(raw.cards@, raw.heroes@, map_card_views(id_map@)),
            map_card_views(id_map@),
        ),
{
    let ghost m = map_card_views(id_map@);
    let RawDeck { name, heroes, cards } = raw;
    let tag = String::from_str("includes");
    let mut pending = cards;
    let mut out_heroes: Vec<HeroCard> = Vec::new();
    let mut i: usize = 0;
    while i < heroes.len()
        invariant
            i <= heroes.len(),
            m == map_card_views(id_map@),
            tag@ == includes_tag(),
            pending@ == raw.cards@ + hero_includes(heroes@.take(i as int), m),
            hero_views(out_heroes@) == hero_entries(heroes@.take(i as int), m),
            heroes@ == raw.heroes@,
        decreases heroes.len() - i,
    {
        let h = heroes[i];
        proof {
            assert(heroes@.take(i + 1).drop_last() =~= heroes@.take(i as int));
            assert(heroes@.take(i + 1).last() == h);
        }
        match id_map.get(&h.id) {
            Some(found) => {
                let card = found.clone();
                let color = card.get_color();
                let ghost before = pending@;
                let mut j: usize = 0;
                while j < card.references.len()
                    invariant
                        j <= card.references.len(),
                        tag@ == includes_tag(),
                        pending@ == before + includes_of(card.references@.take(j as int)),
                    decreases card.references.len() - j,
                {
                    let r = &card.references[j];
                    proof {
                        assert(card.references@.take(j + 1).drop_last() =~= card.references@.take(
                            j as int,
                        ));
                    }
                    if r.ref_type == tag {
                        pending.push(RawCard { id: r.card_id, count: r.count });
                    }
                    j = j + 1;
                    assert(pending@ =~= before + includes_of(card.references@.take(j as int)));
                }
                proof {
                    assert(card.references@.take(card.references.len() as int)
                        =~= card.references@);
                    assert(pending@ =~= raw.cards@ + hero_includes(heroes@.take(i + 1), m));
                }
                let ghost prev = out_heroes@;
                out_heroes.push(HeroCard { card, turn: h.turn, color });
                assert(hero_views(out_heroes@) =~= hero_views(prev).push(
                    HeroView { card: m[h.id], turn: h.turn, color: color_of(m[h.id]) },
                ));
            },
            None => {},
        }
        i = i + 1;
    }
    assert(heroes@.take(heroes.len() as int) =~= heroes@);
    let ghost all = pending@;
    let mut out_cards: Vec<CardCard> = Vec::new();
    let mut k: usize = 0;
    while k < pending.len()
        invariant
            k <= pending.len(),
            m == map_card_views(id_map@),
            pending@ == all,
            card_card_views(out_cards@) == card_entries(all.take(k as int), m),
        decreases pending.len() - k,
    {
        let c = pending[k];
        proof {
            assert(all.take(k + 1).drop_last() =~= all.take(k as int));
            assert(all.take(k + 1).last() == c);
        }
        match id_map.get(&c.id) {
            Some(found) => {
                let card = found.clone();
                let color = card.get_color();
                let ghost prev = out_cards@;
                out_cards.push(CardCard { card, count: c.count, color });
                assert(card_card_views(out_cards@) =~= card_card_views(prev).push(
                    CardCardView { card: m[c.id], count: c.count, color: color_of(m[c.id]) },
                ));
            },
            None => {},
        }
        k = k + 1;
    }
    assert(all.take(pending.len() as int) =~= all);
    Deck { name, heroes: out_heroes, cards: out_cards }
}

/// How many heroes of the sequence the index lacks.
pub open spec fn missing_heroes(heroes: Seq<RawHero>, m: Map<u32, CardView>) -> nat
    decreases heroes.len(),
{
    if heroes.len() == 0 {
        0
    } else if m.contains_key(heroes.last().id) {
        missing_heroes(heroes.drop_last(), m)
    } else {
        missing_heroes(heroes.drop_last(), m) + 1
    }
}

/// How many cards of the sequence the index lacks.
pub open spec fn missing_cards(cards: Seq<RawCard>, m: Map<u32, CardView>) -> nat
    decreases cards.len(),
{
    if cards.len() == 0 {
        0
    } else if m.contains_key(cards.last().id) {
        missing_cards(cards.drop_last(), m)
    } else {
        missing_cards(cards.drop_last(), m) + 1
    }
}

proof fn lemma_hero_entries_len(heroes: Seq<RawHero>, m: Map<u32, CardView>)
    ensures
        hero_entries(heroes, m).len() + missing_heroes(heroes, m) == heroes.len(),
    decreases heroes.len(),
{
    if heroes.len() > 0 {
        lemma_hero_entries_len(heroes.drop_last(), m);
    }
}

proof fn lemma_card_entries_len(cards: Seq<RawCard>, m: Map<u32, CardView>)
    ensures
        card_entries(cards, m).len() + missing_cards(cards, m) == cards.len(),
    decreases cards.len(),
{
    if cards.len() > 0 {
        lemma_card_entries_len(cards.drop_last(), m);
    }
}

/// Ids that the index lacks are dropped without error: the deck has one hero
/// fewer than the code for each unresolved hero, and one card entry fewer
/// than the expanded card list for each unresolved card.
pub proof fn lemma_unresolved_dropped(
    raw_cards: Seq<RawCard>,
    heroes: Seq<RawHero>,
    m: Map<u32, CardView>,
)
    ensures
        hero_entries(heroes, m).len() == heroes.len() - missing_heroes(heroes, m),
        card_entries(expanded_cards(raw_cards, heroes, m), m).len() == expanded_cards(
            raw_cards,
            heroes,
            m,
        ).len() - missing_cards(expanded_cards(raw_cards, heroes, m), m),
{
    lemma_hero_entries_len(heroes, m);
    lemma_card_entries_len(expanded_cards(raw_cards, heroes, m), m);
}

proof fn lemma_includes_of_has(refs: Seq<Reference>, ri: int)
    requires
        0 <= ri < refs.len(),
        refs[ri].ref_type@ == includes_tag(),
    ensures
        exists|p: int|
            0 <= p < includes_of(refs).len() && includes_of(refs)[p] == (RawCard {
                id: refs[ri].card_id,
                count: refs[ri].count,
            }),
    decreases refs.len(),
{
    let x = RawCard { id: refs[ri].card_id, count: refs[ri].count };
    if ri == refs.len() - 1 {
        assert(includes_of(refs)[includes_of(refs).len() - 1] == x);
    } else {
        lemma_includes_of_has(refs.drop_last(), ri);
        let p = choose|p: int|
            0 <= p < includes_of(refs.drop_last()).len() && includes_of(refs.drop_last())[p] == x;
        assert(includes_of(refs)[p] == x);
    }
}

proof fn lemma_hero_includes_has(heroes: Seq<RawHero>, m: Map<u32, CardView>, hi: int, x: RawCard)
    requires
        0 <= hi < heroes.len(),
        m.contains_key(heroes[hi].id),
        exists|p: int|
            0 <= p < includes_of(m[heroes[hi].id].references).len() && includes_of(
                m[heroes[hi].id].references,
            )[p] == x,
    ensures
        exists|q: int| 0 <= q < hero_includes(heroes, m).len() && hero_includes(heroes, m)[q] == x,
    decreases heroes.len(),
{
    let rest = hero_includes(heroes.drop_last(), m);
    if hi == heroes.len() - 1 {
        let own = includes_of(m[heroes[hi].id].references);
        let p = choose|p: int| 0 <= p < own.len() && own[p] == x;
        assert(hero_includes(heroes, m)[rest.len() + p] == x);
    } else {
        assert(heroes.drop_last()[hi] == heroes[hi]);
        lemma_hero_includes_has(heroes.drop_last(), m, hi, x);
        let q = choose|q: int| 0 <= q < rest.len() && rest[q] == x;
        assert(hero_includes(heroes, m)[q] == x);
    }
}

proof fn lemma_card_entries_has(cards: Seq<RawCard>, m: Map<u32, CardView>, p: int)
    requires
        0 <= p < cards.len(),
        m.contains_key(cards[p].id),
    ensures
        exists|t: int|
            0 <= t < card_entries(cards, m).len() && card_entries(cards, m)[t] == (CardCardView {
                card: m[cards[p].id],
                count: cards[p].count,
                color: color_of(m[cards[p].id]),
            }),
    decreases cards.len(),
{
    let e = CardCardView {
        card: m[cards[p].id],
        count: cards[p].count,
        color: color_of(m[cards[p].id]),
    };
    if p == cards.len() - 1 {
        assert(card_entries(cards, m)[card_entries(cards, m).len() - 1] == e);
    } else {
        lemma_card_entries_has(cards.drop_last(), m, p);
        let t = choose|t: int|
            0 <= t < card_entries(cards.drop_last(), m).len() && card_entries(
                cards.drop_last(),
                m,
            )[t] == e;
        assert(card_entries(cards, m)[t] == e);
    }
}

/// When a resolved hero holds an `"includes"` reference to a card that the
/// index holds, the deck has an entry of that card with the reference's
/// count, whether or not the code listed the card itself.
pub proof fn lemma_hero_includes_card(
    raw_cards: Seq<RawCard>,
    heroes: Seq<RawHero>,
    m: Map<u32, CardView>,
    hi: int,
    ri: int,
)
    requires
        0 <= hi < heroes.len(),
        m.contains_key(heroes[hi].id),
        0 <= ri < m[heroes[hi].id].references.len(),
        m[heroes[hi].id].references[ri].ref_type@ == includes_tag(),
        m.contains_key(m[heroes[hi].id].references[ri].card_id),
    ensures
        ({
            let r = m[heroes[hi].id].references[ri];
            let entries = card_entries(expanded_cards(raw_cards, heroes, m), m);
            exists|t: int|
                0 <= t < entries.len() && entries[t].card == m[r.card_id] && entries[t].count
                    == r.count
        }),
{
    let r = m[heroes[hi].id].references[ri];
    let x = RawCard { id: r.card_id, count: r.count };
    lemma_includes_of_has(m[heroes[hi].id].references, ri);
    lemma_hero_includes_has(heroes, m, hi, x);
    let all = expanded_cards(raw_cards, heroes, m);
    let q = choose|q: int|
        0 <= q < hero_includes(heroes, m).len() && hero_includes(heroes, m)[q] == x;
    assert(all[raw_cards.len() + q] == x);
    lemma_card_entries_has(all, m, raw_cards.len() + q);
}

} // verus!
