use artifact_lib::{
    CURRENT_SET, Card, CardSet, CardSetJson, ExpirationWrapper, Image, SetInfo, TranslatedText,
    JsonRef, finish_refresh, plan_refresh, redirect_url,
};

fn text(english: &str) -> TranslatedText {
    TranslatedText {
        english: String::from(english),
        german: String::new(),
        french: String::new(),
        italian: String::new(),
        koreana: String::new(),
        spanish: String::new(),
        schinese: String::new(),
        tchinese: String::new(),
        russian: String::new(),
        thai: String::new(),
        japanese: String::new(),
        portuguese: String::new(),
        polish: String::new(),
        danish: String::new(),
        dutch: String::new(),
        finnish: String::new(),
        norwegian: String::new(),
        swedish: String::new(),
        hungarian: String::new(),
        czech: String::new(),
        romanian: String::new(),
        turkish: String::new(),
        brazilian: String::new(),
        bulgarian: String::new(),
        greek: String::new(),
        ukrainian: String::new(),
        latam: String::new(),
        vietnamese: String::new(),
    }
}

fn image(url: &str) -> Image {
    Image { default: String::from(url) }
}

fn card(id: u32, name: &str) -> Card {
    Card {
        card_id: id,
        base_card_id: id,
        card_type: String::from("Spell"),
        sub_type: String::new(),
        card_name: text(name),
        card_text: text(""),
        mini_image: image(""),
        large_image: image(""),
        ingame_image: image(""),
        illustrator: String::new(),
        is_red: false,
        is_green: false,
        is_blue: false,
        is_black: false,
        gold_cost: 0,
        mana_cost: 0,
        attack: 0,
        armor: 0,
        hit_points: 0,
        references: Vec::new(),
    }
}

fn set(id: u32, cards: Vec<Card>) -> CardSet {
    CardSet {
        version: 1,
        set_info: SetInfo { set_id: id, pack_item_def: 0, name: text("Set") },
        card_list: cards,
    }
}

fn envelope(set_id: u32, expire_time: u64, cards: Vec<Card>) -> ExpirationWrapper {
    ExpirationWrapper { expire_time, card_set_json: CardSetJson { card_set: set(set_id, cards) } }
}

#[test]
fn expired_set_is_fetched_with_missing_one() {
    let now: u64 = 1_000;
    let cached = vec![envelope(0, 999, vec![card(1, "Old")])];
    let plan = plan_refresh(&cached, now);
    assert!(plan.fresh.is_empty());
    assert_eq!(plan.missing, vec![0, 1]);
    let fetched = vec![envelope(0, 5_000, vec![card(1, "New")]), envelope(1, 5_000, vec![card(2, "B")])];
    let sets = finish_refresh(plan.fresh, &fetched);
    assert_eq!(sets.len(), 2);
    assert_eq!(sets[0].set_info.set_id, 0);
    assert_eq!(sets[0].card_list[0].card_name.english, "New");
    assert_eq!(sets[1].set_info.set_id, 1);
}

#[test]
fn fresh_sets_are_kept_from_cache() {
    let now: u64 = 1_000;
    let cached = vec![envelope(1, 1_001, vec![card(7, "Kept")]), envelope(0, 1_000, vec![])];
    let plan = plan_refresh(&cached, now);
    assert_eq!(plan.fresh.len(), 1);
    assert_eq!(plan.fresh[0].set_info.set_id, 1);
    assert_eq!(plan.missing, vec![0]);
}

#[test]
fn full_cache_fetches_nothing() {
    let cached = vec![envelope(0, 50, vec![]), envelope(1, 60, vec![])];
    let plan = plan_refresh(&cached, 10);
    assert!(plan.missing.is_empty());
    assert_eq!(plan.fresh.len(), 2);
    let sets = finish_refresh(plan.fresh, &Vec::new());
    assert_eq!(sets.len(), 2);
}

#[test]
fn empty_cache_fetches_every_set() {
    let plan = plan_refresh(&Vec::new(), 0);
    assert_eq!(plan.missing.len(), CURRENT_SET as usize);
    assert_eq!(plan.missing, vec![0, 1]);
}

#[test]
fn unexpired_envelope_reloads_unchanged() {
    let mut c = card(42, "Keeper");
    c.is_black = true;
    c.attack = 4;
    c.large_image = Image { default: String::from("k.png") };
    let written = vec![envelope(0, 900, vec![c])];
    let plan = plan_refresh(&written, 899);
    assert_eq!(plan.fresh.len(), 1);
    let back = &plan.fresh[0].card_list[0];
    assert_eq!(back.card_id, 42);
    assert!(back.is_black);
    assert_eq!(back.attack, 4);
    assert_eq!(back.large_image.default, "k.png");
    assert_eq!(plan.fresh[0].set_info.name.english, "Set");
}

#[test]
fn redirect_url_writes_set_in_decimal() {
    assert_eq!(redirect_url(0), "https://playartifact.com/cardset/0");
    assert_eq!(redirect_url(1), "https://playartifact.com/cardset/1");
    assert_eq!(redirect_url(42), "https://playartifact.com/cardset/42");
    assert_eq!(redirect_url(255), "https://playartifact.com/cardset/255");
    assert_eq!(redirect_url(100), "https://playartifact.com/cardset/100");
}

#[test]
fn document_url_joins_root_and_path() {
    let location = JsonRef {
        cdn_root: String::from("https://cdn.example/"),
        url: String::from("sets/00.json"),
        expire_time: 77,
    };
    assert_eq!(location.document_url(), "https://cdn.example/sets/00.json");
    let wrapped = location.wrap(CardSetJson { card_set: set(0, vec![card(3, "C")]) });
    assert_eq!(wrapped.expire_time, 77);
    assert_eq!(wrapped.card_set_json.card_set.card_list[0].card_id, 3);
}

#[test]
fn every_set_present_after_refresh() {
    let cached = vec![envelope(1, 2_000, vec![card(5, "Cached")]), envelope(0, 10, vec![])];
    let plan = plan_refresh(&cached, 1_000);
    assert_eq!(plan.missing, vec![0]);
    let fetched = vec![envelope(0, 9_000, vec![card(6, "Fetched")])];
    let sets = finish_refresh(plan.fresh, &fetched);
    let ids: Vec<u32> = sets.iter().map(|s| s.set_info.set_id).collect();
    assert_eq!(ids, vec![1, 0]);
    assert_eq!(sets[1].card_list[0].card_name.english, "Fetched");
}
