use vstd::prelude::*;
use std::collections::HashMap;
use crate::card::{Card, CardSet, CardView, clone_sets, set_views};
use crate::deck::{Deck, RawDeck, build_deck, card_entries, expanded_cards, hero_entries, hero_views, card_card_views};
use crate::index::{all_cards, id_index, map_card_views, map_ids_to_cards};
use crate::named::{NameEntry, NamedCard, cards_named, lookup_name, lower_of, lowercase, map_names_to_cards, name_index_of, routes_to};

verus! {

broadcast use vstd::std_specs::hash::group_hash_axioms;

/// The merged catalog: all card sets, an index by id and an index by folded
/// English name.
pub struct Artifact {
    pub card_sets: Vec<CardSet>,
    pub id_map: HashMap<u32, Card>,
    pub name_map: Vec<NameEntry>,
}

impl Artifact {
    /// Every card of the catalog, set after set.
    pub open spec fn cards(&self) -> Seq<CardView> {
        all_cards(set_views(self.card_sets@))
    }

    /// The id index that the catalog's cards define.
    pub open spec fn ids(&self) -> Map<u32, CardView> {
        id_index(self.cards())
    }

    /// Both indices are those of the catalog's cards.
    pub open spec fn wf(&self) -> bool {
        &&& map_card_views(self.id_map@) == self.ids()
        &&& name_index_of(self.name_map@, self.cards())
    }

    /// Builds the catalog and its indices from the merged card sets.
    pub fn new(card_sets: Vec<CardSet>) -> (r: Self)
        ensures
            r.card_sets@ == card_sets@,
            r.wf(),
    {
        let id_map = map_ids_to_cards(clone_sets(&card_sets));
        let name_map = map_names_to_cards(clone_sets(&card_sets));
        Artifact { card_sets, id_map, name_map }
    }

    /// The cards whose English name, folded to lower case, is that of `name`.
    pub fn card_from_name(&self, name: &str) -> (r: Option<&NamedCard>)
        requires
            self.wf(),
        ensures
            match r {
                Some(named) => routes_to(*named, cards_named(self.cards(), lower_of(name@))),
                None => cards_named(self.cards(), lower_of(name@)).len() == 0,
            },
    {
        self.card_from_name_string(&String::from_str(name))
    }

    /// The cards whose English name, folded to lower case, is that of `name`.
    pub fn card_from_name_string(&self, name: &String) -> (r: Option<&NamedCard>)
        requires
            self.wf(),
        ensures
            match r {
                Some(named) => routes_to(*named, cards_named(self.cards(), lower_of(name@))),
                None => cards_named(self.cards(), lower_of(name@)).len() == 0,
            },
    {
        let key = lowercase(name.as_str());
        self.card_from_folded_name(&key)
    }

    /// The cards whose English name, folded to lower case, is `key`.
    pub fn card_from_folded_name(&self, key: &String) -> (r: Option<&NamedCard>)
        requires
            self.wf(),
        ensures
            match r {
                Some(named) => routes_to(*named, cards_named(self.cards(), key@)),
                None => cards_named(self.cards(), key@).len() == 0,
            },
    {
        lookup_name(&self.name_map, key, Ghost(self.cards()))
    }

    /// The card with the given id: of two with that id, the later one.
    pub fn card_from_id(&self, id: u32) -> (r: Option<&Card>)
        requires
            self.wf(),
        ensures
            match r {
                Some(card) => self.ids().contains_key(id) && card@ == self.ids()[id],
                None => !self.ids().contains_key(id),
            },
    {
        let r = self.id_map.get(&id);
        proof {
            if !self.ids().contains_key(id) {
                assert(!map_card_views(self.id_map@).contains_key(id));
            }
        }
        r
    }

    /// Resolves a decoded deck code against the catalog: unknown ids are
    /// left out, and each hero's `"includes"` references join the cards.
    pub fn assemble_deck(&self, raw: RawDeck) -> (r: Deck)
        requires
            self.wf(),
        ensures
            r.name@ == raw.name@,
            hero_views(r.heroes@) == hero_entries(raw.heroes@, self.ids()),
            card_card_views(r.cards@) == card_entries(
                expanded_cards(raw.cards@, raw.heroes@, self.ids()),
                self.ids(),
            ),
    {
        build_deck(raw, &self.id_map)
    }
}

} // verus!
