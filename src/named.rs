use vstd::prelude::*;
use crate::card::{Card, CardSet, CardSetView, CardView, card_views, clone_cards, set_views};
use crate::index::{all_cards, collect_cards};

verus! {

/// The cards that go by one name: catalog names are not unique, so a name may
/// stand for several cards.
#[derive(Debug)]
pub enum NamedCard {
    Single(Card),
    Multiple(Vec<Card>),
}

impl View for NamedCard {
    type V = Seq<CardView>;

    /// The cards, in the order in which they were met.
    open spec fn view(&self) -> Seq<CardView> {
        match self {
            NamedCard::Single(c) => seq![c@],
            NamedCard::Multiple(m) => card_views(m@),
        }
    }
}

/// The view of the card the option holds, if any.
pub open spec fn option_view(o: Option<Card>) -> Option<CardView> {
    match o {
        Some(c) => Some(c@),
        None => None,
    }
}

/// Whether a card carries a large image.
pub open spec fn has_art(c: CardView) -> bool {
    c.large_image.default@.len() > 0
}

/// The last card of the sequence that carries a large image.
pub open spec fn last_with_art(cards: Seq<CardView>) -> Option<CardView>
    decreases cards.len(),
{
    if cards.len() == 0 {
        None
    } else if has_art(cards.last()) {
        Some(cards.last())
    } else {
        last_with_art(cards.drop_last())
    }
}

impl Clone for NamedCard {
    fn clone(&self) -> (r: Self)
        ensures
            r@ == self@,
            (r is Single) == (self is Single),
    {
        match self {
            NamedCard::Single(s) => NamedCard::Single(s.clone()),
            NamedCard::Multiple(m) => NamedCard::Multiple(clone_cards(m)),
        }
    }
}

impl NamedCard {
    /// Whether the name stands for one card.
    pub fn is_single(&self) -> (r: bool)
        ensures
            r == (self is Single),
    {
        match self {
            NamedCard::Single(_) => true,
            NamedCard::Multiple(_) => false,
        }
    }

    /// The cards, in the order in which they were met.
    pub fn into_vec(self) -> (r: Vec<Card>)
        ensures
            card_views(r@) == self@,
    {
        match self {
            NamedCard::Single(s) => {
                let v = vec![s];
                assert(card_views(v@) =~= seq![v@[0]@]);
                v
            },
            NamedCard::Multiple(m) => m,
        }
    }

    /// The card itself rather than one of its active parts: a single card as
    /// it is; of several, the last that carries a large image, if any does.
    pub fn into_card(self) -> (r: Option<Card>)
        ensures
            option_view(r) == (match self {
                NamedCard::Single(s) => Some(s@),
                NamedCard::Multiple(m) => last_with_art(card_views(m@)),
            }),
    {
        match self {
            NamedCard::Single(s) => Some(s),
            NamedCard::Multiple(m) => {
                let ghost views = card_views(m@);
                let mut ret: Option<Card> = None;
                let mut i: usize = 0;
                while i < m.len()
                    invariant
                        i <= m.len(),
                        views == card_views(m@),
                        option_view(ret) == last_with_art(views.take(i as int)),
                    decreases m.len() - i,
                {
                    assert(views.take(i + 1).drop_last() =~= views.take(i as int));
                    assert(views.take(i + 1).last() == m@[i as int]@);
                    if !m[i].large_image.default.as_str().is_empty() {
                        ret = Some(m[i].clone());
                    }
                    i = i + 1;
                }
                assert(views.take(m.len() as int) =~= views);
                ret
            },
        }
    }

    /// The same name standing for one more card, met after the others.
    fn with_card(&self, card: Card) -> (r: NamedCard)
        ensures
            r@ == self@.push(card@),
            r is Multiple,
    {
        match self {
            NamedCard::Single(s) => {
                let v = vec![s.clone(), card];
                assert(card_views(v@) =~= seq![s@, card@]);
                NamedCard::Multiple(v)
            },
            NamedCard::Multiple(m) => {
                let mut v = clone_cards(m);
                let ghost before = v@;
                v.push(card);
                assert(card_views(v@) =~= card_views(before).push(card@));
                NamedCard::Multiple(v)
            },
        }
    }
}

/// The name of a string folded to lower case.
pub uninterp spec fn lower_of(s: Seq<char>) -> Seq<char>;

/// Relies on str::to_lowercase: the result depends on the characters alone.
#[verifier::external_body]
pub(crate) fn lowercase(s: &str) -> (r: String)
    ensures
        r@ == lower_of(s@),
{
    s.to_lowercase()
}

/// A card's English name folded to lower case: the key it is found under.
pub open spec fn folded_name(c: CardView) -> Seq<char> {
    lower_of(c.card_name.english@)
}

/// The cards whose folded English name is `key`, in the order of `cards`.
pub open spec fn cards_named(cards: Seq<CardView>, key: Seq<char>) -> Seq<CardView> {
    cards.filter(|c: CardView| folded_name(c) == key)
}

/// One key of the name index and the cards it stands for.
#[derive(Debug)]
pub struct NameEntry {
    pub name: String,
    pub named: NamedCard,
}

/// Whether `named` stands for exactly the cards of `cards`: one card as
/// `Single`, two or more as `Multiple`.
pub open spec fn routes_to(named: NamedCard, cards: Seq<CardView>) -> bool {
    &&& cards.len() >= 1
    &&& named@ == cards
    &&& (named is Single) == (cards.len() == 1)
}

/// Whether `entries` is the name index of `cards`: one entry per folded name
/// that some card carries, and each entry routes to the cards of that name.
pub open spec fn name_index_of(entries: Seq<NameEntry>, cards: Seq<CardView>) -> bool {
    &&& forall|i: int, j: int|
        0 <= i < j < entries.len() ==> entries[i].name@ != entries[j].name@
    &&& forall|i: int|
        0 <= i < entries.len() ==> routes_to(
            #[trigger] entries[i].named,
            cards_named(cards, entries[i].name@),
        )
    &&& forall|k: int| 0 <= k < cards.len() ==> has_entry(entries, folded_name(#[trigger] cards[k]))
}

/// Whether some entry has the key.
pub open spec fn has_entry(entries: Seq<NameEntry>, key: Seq<char>) -> bool {
    exists|i: int| 0 <= i < entries.len() && #[trigger] entries[i].name@ == key
}

/// Where the entry with a given key stands, if one does.
pub fn find_entry(entries: &Vec<NameEntry>, key: &String) -> (r: Option<usize>)
    ensures
        match r {
            Some(i) => i < entries@.len() && entries@[i as int].name@ == key@ && forall|j: int|
                0 <= j < i ==> entries@[j].name@ != key@,
            None => forall|j: int| 0 <= j < entries@.len() ==> entries@[j].name@ != key@,
        },
{
    let mut i: usize = 0;
    while i < entries.len()
        invariant
            i <= entries@.len(),
            forall|j: int| 0 <= j < i ==> entries@[j].name@ != key@,
        decreases entries.len() - i,
    {
        if entries[i].name == *key {
            return Some(i);
        }
        i = i + 1;
    }
    None
}

/// The views of a sequence of strings.
pub open spec fn key_views(keys: Seq<String>) -> Seq<Seq<char>> {
    keys.map_values(|s: String| s@)
}

/// The cards whose key is `key`, in the order of `cards`; `keys[i]` is the
/// key of `cards[i]`.
pub open spec fn cards_keyed(cards: Seq<CardView>, keys: Seq<Seq<char>>, key: Seq<char>) -> Seq<
    CardView,
>
    decreases cards.len(),
{
    if cards.len() == 0 {
        Seq::empty()
    } else {
        let rest = cards_keyed(cards.drop_last(), keys.take(cards.len() - 1), key);
        if keys[cards.len() - 1] == key {
            rest.push(cards.last())
        } else {
            rest
        }
    }
}

/// Whether `entries` groups `cards` by the keys of `keys`: one entry per key
/// that some card has, and each entry routes to the cards with that key.
pub open spec fn keyed_index_of(
    entries: Seq<NameEntry>,
    cards: Seq<CardView>,
    keys: Seq<Seq<char>>,
) -> bool {
    &&& forall|i: int, j: int|
        0 <= i < j < entries.len() ==> entries[i].name@ != entries[j].name@
    &&& forall|i: int|
        0 <= i < entries.len() ==> routes_to(
            #[trigger] entries[i].named,
            cards_keyed(cards, keys, entries[i].name@),
        )
    &&& forall|k: int| 0 <= k < cards.len() ==> has_entry(entries, #[trigger] keys[k])
}

proof fn lemma_cards_keyed_none(cards: Seq<CardView>, keys: Seq<Seq<char>>, key: Seq<char>)
    requires
        cards.len() <= keys.len(),
        forall|k: int| 0 <= k < cards.len() ==> #[trigger] keys[k] != key,
    ensures
        cards_keyed(cards, keys, key) =~= Seq::empty(),
    decreases cards.len(),
{
    if cards.len() > 0 {
        let short = keys.take(cards.len() - 1);
        assert forall|k: int| 0 <= k < cards.len() - 1 implies #[trigger] short[k] != key by {
            assert(short[k] == keys[k]);
        }
        lemma_cards_keyed_none(cards.drop_last(), short, key);
    }
}

proof fn lemma_cards_keyed_is_named(cards: Seq<CardView>, keys: Seq<Seq<char>>, key: Seq<char>)
    requires
        cards.len() == keys.len(),
        forall|k: int| 0 <= k < cards.len() ==> #[trigger] keys[k] == folded_name(cards[k]),
    ensures
        cards_keyed(cards, keys, key) == cards_named(cards, key),
    decreases cards.len(),
{
    reveal(Seq::filter);
    if cards.len() > 0 {
        let short = keys.take(cards.len() - 1);
        let init = cards.drop_last();
        assert forall|k: int| 0 <= k < init.len() implies #[trigger] short[k] == folded_name(
            init[k],
        ) by {
            assert(short[k] == keys[k]);
            assert(init[k] == cards[k]);
        }
        lemma_cards_keyed_is_named(init, short, key);
    }
}

/// Groups cards by their keys: each key that some card has leads to the
/// cards with that key, in order, as one card or as several.
pub fn group_by_keys(cards: &Vec<Card>, keys: &Vec<String>) -> (r: Vec<NameEntry>)
    requires
        cards.len() == keys.len(),
    ensures
        keyed_index_of(r@, card_views(cards@), key_views(keys@)),
{
    let ghost views = card_views(cards@);
    let ghost kv = key_views(keys@);
    let mut entries: Vec<NameEntry> = Vec::new();
    let mut i: usize = 0;
    while i < cards.len()
        invariant
            i <= cards.len(),
            cards.len() == keys.len(),
            views == card_views(cards@),
            kv == key_views(keys@),
            keyed_index_of(entries@, views.take(i as int), kv.take(i as int)),
        decreases cards.len() - i,
    {
        let card = cards[i].clone();
        let key = keys[i].clone();
        let ghost c = views[i as int];
        let ghost old_entries = entries@;
        let ghost prev = views.take(i as int);
        let ghost next = views.take(i + 1);
        let ghost prev_keys = kv.take(i as int);
        let ghost next_keys = kv.take(i + 1);
        proof {
            assert(next.drop_last() =~= prev);
            assert(next_keys.take(i as int) =~= prev_keys);
            assert(next_keys[i as int] == key@);
            assert forall|k: int| 0 <= k < i implies #[trigger] next_keys[k] == prev_keys[k] by {}
        }
        match find_entry(&entries, &key) {
            Some(j) => {
                let named = entries[j].named.with_card(card);
                entries.set(j, NameEntry { name: key, named });
                proof {
                    assert forall|a: int|
                        0 <= a < entries@.len() implies routes_to(
                        #[trigger] entries@[a].named,
                        cards_keyed(next, next_keys, entries@[a].name@),
                    ) by {
                        if a != j {
                            assert(entries@[a] == old_entries[a]);
                        }
                    }
                    assert forall|k: int| 0 <= k < next.len() implies has_entry(
                        entries@,
                        #[trigger] next_keys[k],
                    ) by {
                        if k < i {
                            let a = choose|a: int|
                                0 <= a < old_entries.len() && #[trigger] old_entries[a].name@
                                    == prev_keys[k];
                            assert(entries@[a].name@ == old_entries[a].name@);
                        } else {
                            assert(entries@[j as int].name@ == next_keys[k]);
                        }
                    }
                }
            },
            None => {
                entries.push(NameEntry { name: key, named: NamedCard::Single(card) });
                proof {
                    let last = old_entries.len() as int;
                    assert forall|k: int| 0 <= k < prev.len() implies #[trigger] prev_keys[k]
                        != key@ by {
                        let a = choose|a: int|
                            0 <= a < old_entries.len() && #[trigger] old_entries[a].name@
                                == prev_keys[k];
                    }
                    lemma_cards_keyed_none(prev, prev_keys, key@);
                    assert forall|a: int|
                        0 <= a < entries@.len() implies routes_to(
                        #[trigger] entries@[a].named,
                        cards_keyed(next, next_keys, entries@[a].name@),
                    ) by {
                        if a != last {
                            assert(entries@[a] == old_entries[a]);
                        } else {
                            assert(cards_keyed(next, next_keys, key@) =~= seq![c]);
                        }
                    }
                    assert forall|k: int| 0 <= k < next.len() implies has_entry(
                        entries@,
                        #[trigger] next_keys[k],
                    ) by {
                        if k < i {
                            let a = choose|a: int|
                                0 <= a < old_entries.len() && #[trigger] old_entries[a].name@
                                    == prev_keys[k];
                            assert(entries@[a] == old_entries[a]);
                        } else {
                            assert(entries@[last].name@ == next_keys[k]);
                        }
                    }
                }
            },
        }
        i = i + 1;
    }
    assert(views.take(cards.len() as int) =~= views);
    assert(kv.take(cards.len() as int) =~= kv);
    entries
}

/// Maps each folded English name to the cards that carry it, in catalog order.
pub fn map_names_to_cards(sets: Vec<CardSet>) -> (r: Vec<NameEntry>)
    ensures
        name_index_of(r@, all_cards(set_views(sets@))),
{
    let cards = collect_cards(&sets);
    let ghost views = card_views(cards@);
    let mut keys: Vec<String> = Vec::new();
    let mut i: usize = 0;
    while i < cards.len()
        invariant
            i <= cards.len(),
            views == card_views(cards@),
            keys@.len() == i,
            forall|k: int| 0 <= k < i ==> (#[trigger] keys@[k])@ == folded_name(views[k]),
        decreases cards.len() - i,
    {
        keys.push(lowercase(cards[i].card_name.english.as_str()));
        i = i + 1;
    }
    let r = group_by_keys(&cards, &keys);
    proof {
        let kv = key_views(keys@);
        assert forall|k: int| 0 <= k < views.len() implies #[trigger] kv[k] == folded_name(
            views[k],
        ) by {}
        assert forall|key: Seq<char>| #[trigger]
            cards_named(views, key) == cards_keyed(views, kv, key) by {
            lemma_cards_keyed_is_named(views, kv, key);
        }
        assert forall|k: int| 0 <= k < views.len() implies has_entry(
            r@,
            folded_name(#[trigger] views[k]),
        ) by {
            assert(has_entry(r@, kv[k]));
        }
    }
    r
}

proof fn lemma_cards_named_none(cards: Seq<CardView>, key: Seq<char>)
    requires
        forall|k: int| 0 <= k < cards.len() ==> folded_name(#[trigger] cards[k]) != key,
    ensures
        cards_named(cards, key) =~= Seq::empty(),
    decreases cards.len(),
{
    reveal(Seq::filter);
    if cards.len() > 0 {
        lemma_cards_named_none(cards.drop_last(), key);
    }
}

proof fn lemma_cards_named_member(cards: Seq<CardView>, key: Seq<char>)
    requires
        cards_named(cards, key).len() > 0,
    ensures
        exists|k: int| 0 <= k < cards.len() && folded_name(#[trigger] cards[k]) == key,
{
    if forall|k: int| 0 <= k < cards.len() ==> folded_name(#[trigger] cards[k]) != key {
        lemma_cards_named_none(cards, key);
    }
}

/// Looks a folded name up in a name index.
pub(crate) fn lookup_name<'a>(
    entries: &'a Vec<NameEntry>,
    key: &String,
    Ghost(cards): Ghost<Seq<CardView>>,
) -> (r: Option<&'a NamedCard>)
    requires
        name_index_of(entries@, cards),
    ensures
        match r {
            Some(named) => routes_to(*named, cards_named(cards, key@)),
            None => cards_named(cards, key@).len() == 0,
        },
{
    match find_entry(entries, key) {
        Some(i) => Some(&entries[i].named),
        None => {
            proof {
                if cards_named(cards, key@).len() > 0 {
                    lemma_cards_named_member(cards, key@);
                    let k = choose|k: int| 0 <= k < cards.len() && folded_name(#[trigger] cards[k]) == key@;
                    assert(has_entry(entries@, folded_name(cards[k])));
                }
            }
            None
        },
    }
}

/// Every card of the catalog is found under its folded English name; that
/// name leads to `Multiple` exactly when two or more cards of the catalog
/// carry it, and to `Single` otherwise; the cards come in catalog order.
pub proof fn lemma_name_routing(sets: Seq<CardSetView>, entries: Seq<NameEntry>, k: int)
    requires
        name_index_of(entries, all_cards(sets)),
        0 <= k < all_cards(sets).len(),
    ensures
        ({
            let cards = all_cards(sets);
            let key = folded_name(cards[k]);
            exists|i: int|
                0 <= i < entries.len() && #[trigger] entries[i].name@ == key && entries[i].named@
                    == cards.filter(|c: CardView| folded_name(c) == key) && ((
                entries[i].named is Multiple) <==> cards_named(cards, key).len() >= 2)
        }),
{
    let cards = all_cards(sets);
    assert(has_entry(entries, folded_name(cards[k])));
}

} // verus!
