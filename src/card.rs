use vstd::prelude::*;
use crate::text::TranslatedText;

verus! {

/// An image of a card, by URL; empty when the catalog gives none.
#[derive(Debug, Eq)]
pub struct Image {
    pub default: String,
}

impl Clone for Image {
    fn clone(&self) -> (r: Self)
        ensures
            r == *self,
    {
        Image { default: self.default.clone() }
    }
}

/// Two images are the same when their URLs are.
impl PartialEq for Image {
    fn eq(&self, other: &Image) -> (r: bool) {
        self.default == other.default
    }
}

impl vstd::std_specs::cmp::PartialEqSpecImpl for Image {
    open spec fn obeys_eq_spec() -> bool {
        true
    }

    open spec fn eq_spec(&self, other: &Image) -> bool {
        self.default@ == other.default@
    }
}

/// A directed edge from one card to another, tagged by its kind.
/// The tag `"includes"` means that a deck holding the referring card also
/// holds `count` copies of the referenced one.
#[derive(Debug, Eq)]
pub struct Reference {
    pub card_id: u32,
    pub ref_type: String,
    pub count: u32,
}

impl Clone for Reference {
    fn clone(&self) -> (r: Self)
        ensures
            r == *self,
    {
        Reference { card_id: self.card_id, ref_type: self.ref_type.clone(), count: self.count }
    }
}

/// Two references are the same when they point at the same card.
impl PartialEq for Reference {
    fn eq(&self, other: &Reference) -> (r: bool) {
        self.card_id == other.card_id
    }
}

impl vstd::std_specs::cmp::PartialEqSpecImpl for Reference {
    open spec fn obeys_eq_spec() -> bool {
        true
    }

    open spec fn eq_spec(&self, other: &Reference) -> bool {
        self.card_id == other.card_id
    }
}

/// The tag of a reference that pulls its target into a deck.
pub open spec fn includes_tag() -> Seq<char> {
    "includes"@
}

/// Copies a list of references, element for element.
pub fn clone_references(refs: &Vec<Reference>) -> (r: Vec<Reference>)
    ensures
        r@ == refs@,
{
    let mut out: Vec<Reference> = Vec::new();
    let mut i: usize = 0;
    while i < refs.len()
        invariant
            i <= refs.len(),
            out@ == refs@.take(i as int),
        decreases refs.len() - i,
    {
        out.push(refs[i].clone());
        i = i + 1;
        assert(out@ =~= refs@.take(i as int));
    }
    assert(refs@.take(refs.len() as int) =~= refs@);
    out
}

/// The colour of a card, or `Item` for a card without one.
#[derive(Debug, Clone, Copy, PartialEq, Eq, Structural)]
pub enum CardColor {
    Red,
    Blue,
    Black,
    Green,
    Item,
}

impl CardColor {
    /// The colour's name, as a player reads it.
    pub fn name(&self) -> (r: &'static str)
        ensures
            r@ == color_name(*self),
    {
        match self {
            CardColor::Red => "Red",
            CardColor::Blue => "Blue",
            CardColor::Black => "Black",
            CardColor::Green => "Green",
            CardColor::Item => "Item",
        }
    }

    /// The colour's name as an owned string.
    pub fn to_string(&self) -> (r: String)
        ensures
            r@ == color_name(*self),
    {
        String::from_str(self.name())
    }
}

/// The name of a colour.
pub open spec fn color_name(c: CardColor) -> Seq<char> {
    match c {
        CardColor::Red => "Red"@,
        CardColor::Blue => "Blue"@,
        CardColor::Black => "Black"@,
        CardColor::Green => "Green"@,
        CardColor::Item => "Item"@,
    }
}

/// One card of the catalog. Two cards are the same card when their ids are
/// equal, whatever else they hold.
#[derive(Debug, Eq)]
pub struct Card {
    pub card_id: u32,
    pub base_card_id: u32,
    pub card_type: String,
    pub sub_type: String,
    pub card_name: TranslatedText,
    pub card_text: TranslatedText,
    pub mini_image: Image,
    pub large_image: Image,
    pub ingame_image: Image,
    pub illustrator: String,
    pub is_red: bool,
    pub is_green: bool,
    pub is_blue: bool,
    pub is_black: bool,
    pub gold_cost: u32,
    pub mana_cost: u32,
    pub attack: u32,
    pub armor: i32,
    pub hit_points: u32,
    pub references: Vec<Reference>,
}

/// What a card holds, with its references as a sequence.
pub struct CardView {
    pub card_id: u32,
    pub base_card_id: u32,
    pub card_type: String,
    pub sub_type: String,
    pub card_name: TranslatedText,
    pub card_text: TranslatedText,
    pub mini_image: Image,
    pub large_image: Image,
    pub ingame_image: Image,
    pub illustrator: String,
    pub is_red: bool,
    pub is_green: bool,
    pub is_blue: bool,
    pub is_black: bool,
    pub gold_cost: u32,
    pub mana_cost: u32,
    pub attack: u32,
    pub armor: i32,
    pub hit_points: u32,
    pub references: Seq<Reference>,
}

impl View for Card {
    type V = CardView;

    open spec fn view(&self) -> CardView {
        CardView {
            card_id: self.card_id,
            base_card_id: self.base_card_id,
            card_type: self.card_type,
            sub_type: self.sub_type,
            card_name: self.card_name,
            card_text: self.card_text,
            mini_image: self.mini_image,
            large_image: self.large_image,
            ingame_image: self.ingame_image,
            illustrator: self.illustrator,
            is_red: self.is_red,
            is_green: self.is_green,
            is_blue: self.is_blue,
            is_black: self.is_black,
            gold_cost: self.gold_cost,
            mana_cost: self.mana_cost,
            attack: self.attack,
            armor: self.armor,
            hit_points: self.hit_points,
            references: self.references@,
        }
    }
}

/// The views of a sequence of cards.
pub open spec fn card_views(cards: Seq<Card>) -> Seq<CardView> {
    cards.map_values(|c: Card| c@)
}

impl Clone for Card {
    fn clone(&self) -> (r: Self)
        ensures
            r@ == self@,
    {
        Card {
            card_id: self.card_id,
            base_card_id: self.base_card_id,
            card_type: self.card_type.clone(),
            sub_type: self.sub_type.clone(),
            card_name: self.card_name.clone(),
            card_text: self.card_text.clone(),
            mini_image: self.mini_image.clone(),
            large_image: self.large_image.clone(),
            ingame_image: self.ingame_image.clone(),
            illustrator: self.illustrator.clone(),
            is_red: self.is_red,
            is_green: self.is_green,
            is_blue: self.is_blue,
            is_black: self.is_black,
            gold_cost: self.gold_cost,
            mana_cost: self.mana_cost,
            attack: self.attack,
            armor: self.armor,
            hit_points: self.hit_points,
            references: clone_references(&self.references),
        }
    }
}

impl PartialEq for Card {
    fn eq(&self, other: &Card) -> (r: bool) {
        self.card_id == other.card_id
    }
}

impl vstd::std_specs::cmp::PartialEqSpecImpl for Card {
    open spec fn obeys_eq_spec() -> bool {
        true
    }

    open spec fn eq_spec(&self, other: &Card) -> bool {
        self.card_id == other.card_id
    }
}

/// The colour of a card from its four flags: red before blue before black
/// before green, and `Item` when no flag is set.
pub open spec fn color_of(card: CardView) -> CardColor {
    if card.is_red {
        CardColor::Red
    } else if card.is_blue {
        CardColor::Blue
    } else if card.is_black {
        CardColor::Black
    } else if card.is_green {
        CardColor::Green
    } else {
        CardColor::Item
    }
}

impl Card {
    /// The card's colour.
    pub fn get_color(&self) -> (r: CardColor)
        ensures
            r == color_of(self@),
    {
        if self.is_red {
            CardColor::Red
        } else if self.is_blue {
            CardColor::Blue
        } else if self.is_black {
            CardColor::Black
        } else if self.is_green {
            CardColor::Green
        } else {
            CardColor::Item
        }
    }
}

/// What identifies a set, and its name.
#[derive(Debug)]
pub struct SetInfo {
    pub set_id: u32,
    pub pack_item_def: u32,
    pub name: TranslatedText,
}

impl Clone for SetInfo {
    fn clone(&self) -> (r: Self)
        ensures
            r == *self,
    {
        SetInfo { set_id: self.set_id, pack_item_def: self.pack_item_def, name: self.name.clone() }
    }
}

/// One set of the catalog, with its cards in catalog order.
#[derive(Debug)]
pub struct CardSet {
    pub version: u32,
    pub set_info: SetInfo,
    pub card_list: Vec<Card>,
}

/// Copies a list of cards, element for element.
pub fn clone_cards(cards: &Vec<Card>) -> (r: Vec<Card>)
    ensures
        card_views(r@) == card_views(cards@),
{
    let mut out: Vec<Card> = Vec::new();
    let mut i: usize = 0;
    while i < cards.len()
        invariant
            i <= cards.len(),
            out@.len() == i,
            forall|j: int| 0 <= j < i ==> (#[trigger] out@[j])@ == cards@[j]@,
        decreases cards.len() - i,
    {
        out.push(cards[i].clone());
        i = i + 1;
    }
    assert(card_views(out@) =~= card_views(cards@));
    out
}

/// What a set holds, with its cards as a sequence of views.
pub struct CardSetView {
    pub version: u32,
    pub set_info: SetInfo,
    pub card_list: Seq<CardView>,
}

impl View for CardSet {
    type V = CardSetView;

    open spec fn view(&self) -> CardSetView {
        CardSetView {
            version: self.version,
            set_info: self.set_info,
            card_list: card_views(self.card_list@),
        }
    }
}

/// The views of a sequence of sets.
pub open spec fn set_views(sets: Seq<CardSet>) -> Seq<CardSetView> {
    sets.map_values(|s: CardSet| s@)
}

impl Clone for CardSet {
    fn clone(&self) -> (r: Self)
        ensures
            r@ == self@,
    {
        CardSet {
            version: self.version,
            set_info: self.set_info.clone(),
            card_list: clone_cards(&self.card_list),
        }
    }
}

/// The top level of a card-set document as the catalog service sends it.
#[derive(Debug)]
pub struct CardSetJson {
    pub card_set: CardSet,
}

/// Copies a list of sets, element for element.
pub fn clone_sets(sets: &Vec<CardSet>) -> (r: Vec<CardSet>)
    ensures
        set_views(r@) == set_views(sets@),
{
    let mut out: Vec<CardSet> = Vec::new();
    let mut i: usize = 0;
    while i < sets.len()
        invariant
            i <= sets.len(),
            out@.len() == i,
            forall|j: int| 0 <= j < i ==> (#[trigger] out@[j])@ == sets@[j]@,
        decreases sets.len() - i,
    {
        out.push(sets[i].clone());
        i = i + 1;
    }
    assert(set_views(out@) =~= set_views(sets@));
    out
}

} // verus!
