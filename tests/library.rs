use artifact_lib::{
    Artifact, Card, CardCard, CardColor, CardSet, HeroCard, Image, NamedCard, RawCard, RawDeck,
    RawHero, Reference, SetInfo, TranslatedText, build_deck, collect_cards, group_by_keys, map_ids_to_cards,
    map_names_to_cards,
};

fn text(english: &str) -> TranslatedText {
    TranslatedText {
        english: String::from(english),
        german: String::new(),
        french: String::new(),
        italian: String::new(),
        koreana: String::new(),
        spanish: String::new(),
        schinese: String::new(),
        tchinese: String::new(),
        russian: String::new(),
        thai: String::new(),
        japanese: String::new(),
        portuguese: String::new(),
        polish: String::new(),
        danish: String::new(),
        dutch: String::new(),
        finnish: String::new(),
        norwegian: String::new(),
        swedish: String::new(),
        hungarian: String::new(),
        czech: String::new(),
        romanian: String::new(),
        turkish: String::new(),
        brazilian: String::new(),
        bulgarian: String::new(),
        greek: String::new(),
        ukrainian: String::new(),
        latam: String::new(),
        vietnamese: String::new(),
    }
}

fn image(url: &str) -> Image {
    Image { default: String::from(url) }
}

fn card(id: u32, name: &str) -> Card {
    Card {
        card_id: id,
        base_card_id: id,
        card_type: String::from("Spell"),
        sub_type: String::new(),
        card_name: text(name),
        card_text: text(""),
        mini_image: image(""),
        large_image: image(""),
        ingame_image: image(""),
        illustrator: String::new(),
        is_red: false,
        is_green: false,
        is_blue: false,
        is_black: false,
        gold_cost: 0,
        mana_cost: 0,
        attack: 0,
        armor: 0,
        hit_points: 0,
        references: Vec::new(),
    }
}

fn set(id: u32, cards: Vec<Card>) -> CardSet {
    CardSet {
        version: 1,
        set_info: SetInfo { set_id: id, pack_item_def: 0, name: text("Set") },
        card_list: cards,
    }
}

fn includes(id: u32, count: u32) -> Reference {
    Reference { card_id: id, ref_type: String::from("includes"), count }
}

fn catalog() -> Vec<CardSet> {
    let mut storm = card(10, "Storm Spirit");
    storm.is_blue = true;
    storm.large_image = image("storm.png");
    storm.references = vec![
        includes(11, 3),
        Reference { card_id: 12, ref_type: String::from("active_ability"), count: 0 },
    ];
    let mut spell = card(11, "Ball Lightning");
    spell.is_blue = true;
    spell.mana_cost = 3;
    let mut ability = card(12, "Storm Spirit");
    ability.card_type = String::from("Ability");
    let mut item = card(20, "Blink Dagger");
    item.gold_cost = 5;
    let mut creep = card(21, "Bronze Legionnaire");
    creep.is_red = true;
    creep.mana_cost = 4;
    vec![set(0, vec![storm, spell, ability]), set(1, vec![item, creep])]
}

#[test]
fn it_works() {
    assert_eq!(2 + 2, 4);
}

#[test]
fn test_artifact() {
    let my_artifact = Artifact::new(catalog());
    let named_card: &Card = match my_artifact.card_from_name("Storm Spirit") {
        Some(c) => match c {
            NamedCard::Single(s) => s,
            NamedCard::Multiple(m) => m.first().unwrap(),
        },
        None => panic!("could not get Storm Spirit"),
    };
    let id_card = my_artifact.card_from_id(named_card.card_id).expect("could not get card from id");
    assert_eq!(named_card, id_card);

    let my_adc = "ADCJWkTZX05uwGDCRV4XQGy3QGLmqUBg4GQJgGLGgO7AaABR3JlZW4vQmxhY2sgRXhhbXBsZQ__";
    let decoded = artifact_serde::de::decode(my_adc).expect("failed to decode adc");
    let raw = RawDeck {
        name: decoded.name.clone(),
        heroes: decoded
            .heroes
            .iter()
            .map(|h| RawHero { id: h.id as u32, turn: h.turn as u32 })
            .collect(),
        cards: decoded
            .cards
            .iter()
            .map(|c| RawCard { id: c.id as u32, count: c.count as u32 })
            .collect(),
    };
    let _my_deck = my_artifact.assemble_deck(raw);
}

#[test]
fn color_follows_flag_precedence() {
    let mut c = card(1, "X");
    assert_eq!(c.get_color(), CardColor::Item);
    c.is_green = true;
    assert_eq!(c.get_color(), CardColor::Green);
    c.is_black = true;
    assert_eq!(c.get_color(), CardColor::Black);
    c.is_blue = true;
    assert_eq!(c.get_color(), CardColor::Blue);
    c.is_red = true;
    assert_eq!(c.get_color(), CardColor::Red);
    let mut d = card(2, "Y");
    d.is_blue = true;
    d.is_green = true;
    assert_eq!(d.get_color(), CardColor::Blue);
}

#[test]
fn color_names() {
    assert_eq!(CardColor::Red.to_string(), "Red");
    assert_eq!(CardColor::Blue.to_string(), "Blue");
    assert_eq!(CardColor::Black.to_string(), "Black");
    assert_eq!(CardColor::Green.to_string(), "Green");
    assert_eq!(CardColor::Item.name(), "Item");
}

#[test]
fn shared_name_maps_to_multiple_in_order() {
    let mut a = card(1, "A");
    a.is_red = true;
    a.mana_cost = 2;
    let mut b = card(2, "A");
    b.is_blue = true;
    b.mana_cost = 1;
    let index = map_names_to_cards(vec![set(0, vec![a, b])]);
    assert_eq!(index.len(), 1);
    assert_eq!(index[0].name, "a");
    match &index[0].named {
        NamedCard::Multiple(m) => {
            assert_eq!(m.len(), 2);
            assert_eq!(m[0].card_id, 1);
            assert_eq!(m[1].card_id, 2);
        }
        NamedCard::Single(_) => panic!("expected two cards"),
    }
}

#[test]
fn distinct_names_map_to_single() {
    let index = map_names_to_cards(vec![set(0, vec![card(1, "Axe"), card(2, "Bristleback")])]);
    assert_eq!(index.len(), 2);
    assert!(index[0].named.is_single());
    assert!(index[1].named.is_single());
    assert_eq!(index[1].name, "bristleback");
}

#[test]
fn name_lookup_folds_case() {
    let artifact = Artifact::new(catalog());
    let found = artifact.card_from_name("BLINK dagger").expect("found by folded name");
    assert!(found.is_single());
    assert_eq!(found.clone().into_vec()[0].card_id, 20);
    let found = artifact.card_from_name_string(&String::from("storm spirit")).unwrap();
    assert!(!found.is_single());
    assert_eq!(found.clone().into_vec().len(), 2);
    assert!(artifact.card_from_name("Nobody").is_none());
    assert!(artifact.card_from_folded_name(&String::from("Blink Dagger")).is_none());
    assert!(artifact.card_from_folded_name(&String::from("blink dagger")).is_some());
}

#[test]
fn later_sets_win_on_shared_ids() {
    let mut first = card(7, "First");
    first.mana_cost = 1;
    let mut second = card(7, "Second");
    second.mana_cost = 9;
    let map = map_ids_to_cards(vec![set(0, vec![first, card(8, "Other")]), set(1, vec![second])]);
    assert_eq!(map.len(), 2);
    assert_eq!(map[&7].card_name.english, "Second");
    assert_eq!(map[&7].mana_cost, 9);
    assert_eq!(map[&8].card_name.english, "Other");
}

#[test]
fn id_lookup_misses_unknown_ids() {
    let artifact = Artifact::new(catalog());
    assert!(artifact.card_from_id(999).is_none());
    assert_eq!(artifact.card_from_id(21).unwrap().card_name.english, "Bronze Legionnaire");
    assert_eq!(artifact.card_sets.len(), 2);
}

#[test]
fn into_card_prefers_card_with_art() {
    let mut hero = card(10, "Storm Spirit");
    hero.large_image = image("storm.png");
    let ability = card(12, "Storm Spirit");
    let named = NamedCard::Multiple(vec![hero.clone(), ability.clone()]);
    assert_eq!(named.into_card().unwrap().card_id, 10);
    let named = NamedCard::Multiple(vec![ability.clone(), card(13, "Storm Spirit")]);
    assert!(named.into_card().is_none());
    assert_eq!(NamedCard::Single(ability).into_card().unwrap().card_id, 12);
}

#[test]
fn into_vec_lists_cards() {
    assert_eq!(NamedCard::Single(card(3, "C")).into_vec().len(), 1);
    let v = NamedCard::Multiple(vec![card(4, "D"), card(5, "D")]).into_vec();
    assert_eq!(v.iter().map(|c| c.card_id).collect::<Vec<u32>>(), vec![4, 5]);
}

#[test]
fn hero_includes_join_the_cards() {
    let artifact = Artifact::new(catalog());
    let raw = RawDeck {
        name: String::from("Deck"),
        heroes: vec![RawHero { id: 10, turn: 1 }],
        cards: vec![RawCard { id: 20, count: 2 }],
    };
    let deck = artifact.assemble_deck(raw);
    assert_eq!(deck.name, "Deck");
    assert_eq!(deck.heroes.len(), 1);
    assert_eq!(deck.heroes[0].turn, 1);
    assert_eq!(deck.heroes[0].color, CardColor::Blue);
    assert_eq!(deck.cards.len(), 2);
    assert_eq!(deck.cards[0].card.card_id, 20);
    assert_eq!(deck.cards[0].count, 2);
    assert_eq!(deck.cards[0].color, CardColor::Item);
    assert_eq!(deck.cards[1].card.card_id, 11);
    assert_eq!(deck.cards[1].count, 3);
    assert_eq!(deck.cards[1].color, CardColor::Blue);
}

#[test]
fn included_card_is_not_merged() {
    let artifact = Artifact::new(catalog());
    let raw = RawDeck {
        name: String::from("Twice"),
        heroes: vec![RawHero { id: 10, turn: 2 }],
        cards: vec![RawCard { id: 11, count: 1 }],
    };
    let deck = artifact.assemble_deck(raw);
    assert_eq!(deck.cards.len(), 2);
    assert_eq!(deck.cards[0].count, 1);
    assert_eq!(deck.cards[1].count, 3);
    assert!(deck.cards[0] == deck.cards[1]);
}

#[test]
fn unknown_ids_are_dropped() {
    let artifact = Artifact::new(catalog());
    let raw = RawDeck {
        name: String::new(),
        heroes: vec![RawHero { id: 500, turn: 1 }, RawHero { id: 10, turn: 3 }],
        cards: vec![RawCard { id: 600, count: 1 }, RawCard { id: 21, count: 3 }, RawCard { id: 700, count: 2 }],
    };
    let deck = artifact.assemble_deck(raw);
    assert_eq!(deck.heroes.len(), 1);
    assert_eq!(deck.heroes[0].card.card_id, 10);
    assert_eq!(deck.cards.len(), 2);
    assert_eq!(deck.cards[0].card.card_id, 21);
    assert_eq!(deck.cards[1].card.card_id, 11);
}

#[test]
fn build_deck_resolves_against_map() {
    let map = map_ids_to_cards(catalog());
    let raw = RawDeck {
        name: String::from("Direct"),
        heroes: vec![],
        cards: vec![RawCard { id: 21, count: 1 }],
    };
    let deck = build_deck(raw, &map);
    assert_eq!(deck.cards.len(), 1);
    assert_eq!(deck.cards[0].color, CardColor::Red);
    assert!(deck.heroes.is_empty());
}

#[test]
fn new_deck_is_empty() {
    let deck = artifact_lib::Deck::new();
    assert_eq!(deck.name, "");
    assert!(deck.heroes.is_empty());
    assert!(deck.cards.is_empty());
}

#[test]
fn heroes_order_by_turn() {
    let a = HeroCard { card: card(1, "A"), turn: 1, color: CardColor::Red };
    let b = HeroCard { card: card(2, "B"), turn: 3, color: CardColor::Red };
    let c = HeroCard { card: card(3, "C"), turn: 1, color: CardColor::Blue };
    assert_eq!(a.cmp(&b), std::cmp::Ordering::Less);
    assert_eq!(b.cmp(&a), std::cmp::Ordering::Greater);
    assert!(a < b);
    assert!(a == c);
}

#[test]
fn items_order_after_colored_cards() {
    let mut cheap_item = card(1, "Item");
    cheap_item.gold_cost = 1;
    let mut dear_item = card(2, "Item2");
    dear_item.gold_cost = 9;
    let mut spell = card(3, "Spell");
    spell.is_red = true;
    spell.mana_cost = 8;
    let mut other = card(4, "Spell2");
    other.is_green = true;
    other.mana_cost = 2;
    let i1 = CardCard { card: cheap_item, count: 1, color: CardColor::Item };
    let i2 = CardCard { card: dear_item, count: 1, color: CardColor::Item };
    let s1 = CardCard { card: spell, count: 1, color: CardColor::Red };
    let s2 = CardCard { card: other, count: 1, color: CardColor::Green };
    assert_eq!(i1.cmp(&s1), std::cmp::Ordering::Greater);
    assert_eq!(s1.cmp(&i2), std::cmp::Ordering::Less);
    assert_eq!(i1.cmp(&i2), std::cmp::Ordering::Less);
    assert_eq!(s1.cmp(&s2), std::cmp::Ordering::Greater);
    assert!(s2 < s1);
    let mut cards = vec![i2, s1, i1, s2];
    cards.sort_by(|a, b| a.cmp(b));
    let ids: Vec<u32> = cards.iter().map(|c| c.card.card_id).collect();
    assert_eq!(ids, vec![4, 3, 1, 2]);
}

#[test]
fn equality_is_by_identity() {
    let a = card(5, "Same");
    let mut b = card(5, "Other name");
    b.mana_cost = 4;
    assert!(a == b);
    assert!(card(5, "Same") != card(6, "Same"));
    assert!(text("Hi") == text("Hi"));
    let r1 = includes(3, 1);
    let r2 = Reference { card_id: 3, ref_type: String::from("passive_ability"), count: 0 };
    assert!(r1 == r2);
    assert!(image("a") != image("b"));
}

#[test]
fn clones_keep_every_field() {
    let mut c = card(9, "Copy");
    c.references = vec![includes(4, 2)];
    c.armor = -1;
    let d = c.clone();
    assert_eq!(d.references.len(), 1);
    assert_eq!(d.references[0].count, 2);
    assert_eq!(d.armor, -1);
    assert_eq!(d.card_name.english, "Copy");
    let s = set(3, vec![c]);
    let t = s.clone();
    assert_eq!(t.set_info.set_id, 3);
    assert_eq!(t.card_list[0].card_id, 9);
}

#[test]
fn grouping_follows_the_given_keys() {
    let cards = vec![card(1, "One"), card(2, "Two"), card(3, "Three")];
    let keys = vec![String::from("k"), String::from("j"), String::from("k")];
    let groups = group_by_keys(&cards, &keys);
    assert_eq!(groups.len(), 2);
    assert_eq!(groups[0].name, "k");
    let ids: Vec<u32> = groups[0].named.clone().into_vec().iter().map(|c| c.card_id).collect();
    assert_eq!(ids, vec![1, 3]);
    assert!(!groups[0].named.is_single());
    assert_eq!(groups[1].name, "j");
    assert!(groups[1].named.is_single());
}

#[test]
fn cards_are_collected_set_after_set() {
    let cards = collect_cards(&catalog());
    let ids: Vec<u32> = cards.iter().map(|c| c.card_id).collect();
    assert_eq!(ids, vec![10, 11, 12, 20, 21]);
}
