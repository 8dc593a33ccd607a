//! Card catalog cache and deck assembly for a trading-card game.
//!
//! The catalog is a set of card sets, each cached on disk for a limited time.
//! `cache` decides which cached sets are still fresh and which must be
//! fetched; `index` and `named` build the lookups by id and by name; `deck`
//! resolves a decoded deck code against the catalog.
pub mod artifact;
pub mod cache;
pub mod card;
pub mod deck;
pub mod index;
pub mod named;
pub mod service;
pub mod text;

pub use artifact::Artifact;
pub use cache::{CURRENT_SET, ExpirationWrapper, RefreshPlan, finish_refresh, plan_refresh};
pub use card::{Card, CardColor, CardSet, CardSetJson, Image, Reference, SetInfo};
pub use deck::{CardCard, Deck, HeroCard, RawCard, RawDeck, RawHero, build_deck};
pub use index::{collect_cards, map_ids_to_cards};
pub use named::{NameEntry, NamedCard, group_by_keys, map_names_to_cards};
pub use service::{JsonRef, redirect_url};
pub use text::TranslatedText;
