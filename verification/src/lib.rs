//! Data model and editing logic for a book of Pathfinder-style spell cards.
//!
//! The library holds the card data types, the text each part of a card is
//! rendered as, and the field-synchronisation rules a card editor follows:
//! every category of a card's overview list and of its roll-outcome list
//! appears at most once, and both lists stay sorted by category.

pub mod keyed;
pub mod spell_book;
pub mod spell_card;
pub mod text;

pub use spell_book::SpellBookProps;
pub use spell_card::Area;
pub use spell_card::CastTime;
pub use spell_card::Defence;
pub use spell_card::Heightened;
pub use spell_card::OverviewKind;
pub use spell_card::RollDegree;
pub use spell_card::RollResult;
pub use spell_card::SpellCard;
pub use spell_card::SpellHeaderProps;
pub use spell_card::SpellOverview;
pub use spell_card::SpellTraitProps;
pub use spell_card::SpellType;
pub use text::parse_u8;
pub use text::split_str;
pub use text::u8_to_string;
