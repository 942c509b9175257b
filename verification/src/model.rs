//! The menu document: a restaurant, its display settings and its sections
//! of items, each with the mathematical view that the contracts speak of.

use crate::price::Price;
use vstd::prelude::*;

verus! {

/// Whether an item is on offer. An item that says nothing is shown.
#[derive(Clone, Copy, Debug, PartialEq, Eq, Structural)]
pub enum Availability {
    Unset,
    Available,
    Unavailable,
}

impl Availability {
    /// An item is shown unless it is explicitly unavailable.
    pub open spec fn is_shown(self) -> bool {
        self != Availability::Unavailable
    }

    /// The availability that an optional flag stands for.
    pub open spec fn of_flag(flag: Option<bool>) -> Availability {
        match flag {
            None => Availability::Unset,
            Some(true) => Availability::Available,
            Some(false) => Availability::Unavailable,
        }
    }

    /// Whether an item with this availability is rendered.
    pub fn shown(&self) -> (r: bool)
        ensures
            r == self.is_shown(),
    {
        match self {
            Availability::Unavailable => false,
            _ => true,
        }
    }

    /// The availability that an optional flag stands for: absent is
    /// `Unset`.
    pub fn from_flag(flag: Option<bool>) -> (r: Availability)
        ensures
            r == Availability::of_flag(flag),
    {
        match flag {
            None => Availability::Unset,
            Some(true) => Availability::Available,
            Some(false) => Availability::Unavailable,
        }
    }

    /// The optional flag that stands for this availability.
    pub fn to_flag(&self) -> (r: Option<bool>)
        ensures
            Availability::of_flag(r) == *self,
    {
        match self {
            Availability::Unset => None,
            Availability::Available => Some(true),
            Availability::Unavailable => Some(false),
        }
    }
}

/// Per-menu display settings.
#[derive(Clone, Copy, Debug, PartialEq, Eq, Structural)]
pub struct Settings {
    /// The number of fractional digits of every price shown.
    pub price_decimals: u8,
    pub show_tags: bool,
    pub show_descriptions: bool,
}

/// Who the menu belongs to. An empty string means that the field is absent.
#[derive(Clone, Debug, PartialEq, Eq)]
pub struct Restaurant {
    pub name: String,
    pub address: String,
    pub phone: String,
    pub website: String,
    /// Kept with the document; it has no effect on the page.
    pub currency: String,
    pub note: String,
}

pub ghost struct RestaurantView {
    pub name: Seq<char>,
    pub address: Seq<char>,
    pub phone: Seq<char>,
    pub website: Seq<char>,
    pub currency: Seq<char>,
    pub note: Seq<char>,
}

impl View for Restaurant {
    type V = RestaurantView;

    open spec fn view(&self) -> RestaurantView {
        RestaurantView {
            name: self.name@,
            address: self.address@,
            phone: self.phone@,
            website: self.website@,
            currency: self.currency@,
            note: self.note@,
        }
    }
}

/// One entry of a menu.
#[derive(Clone, Debug, PartialEq, Eq)]
pub struct Item {
    pub id: String,
    pub name: String,
    pub description: String,
    pub price: Price,
    pub tags: Vec<String>,
    pub available: Availability,
}

pub ghost struct ItemView {
    pub id: Seq<char>,
    pub name: Seq<char>,
    pub description: Seq<char>,
    pub price: Price,
    pub tags: Seq<Seq<char>>,
    pub available: Availability,
}

impl View for Item {
    type V = ItemView;

    open spec fn view(&self) -> ItemView {
        ItemView {
            id: self.id@,
            name: self.name@,
            description: self.description@,
            price: self.price,
            tags: self.tags@.map_values(|t: String| t@),
            available: self.available,
        }
    }
}

/// A titled group of items, in display order.
#[derive(Clone, Debug, PartialEq, Eq)]
pub struct Section {
    pub id: String,
    pub title: String,
    pub note: String,
    pub items: Vec<Item>,
}

pub ghost struct SectionView {
    pub id: Seq<char>,
    pub title: Seq<char>,
    pub note: Seq<char>,
    pub items: Seq<ItemView>,
}

impl View for Section {
    type V = SectionView;

    open spec fn view(&self) -> SectionView {
        SectionView {
            id: self.id@,
            title: self.title@,
            note: self.note@,
            items: self.items@.map_values(|it: Item| it@),
        }
    }
}

/// The whole document, keyed by `id`.
#[derive(Clone, Debug, PartialEq, Eq)]
pub struct Menu {
    pub id: String,
    pub restaurant: Restaurant,
    pub settings: Settings,
    pub sections: Vec<Section>,
}

pub ghost struct MenuView {
    pub id: Seq<char>,
    pub restaurant: RestaurantView,
    pub settings: Settings,
    pub sections: Seq<SectionView>,
}

impl MenuView {
    /// A document can be stored by the service only under an identifier
    /// that is not empty.
    pub open spec fn has_identifier(self) -> bool {
        self.id.len() > 0
    }
}

impl Menu {
    /// Whether the document's identifier is present.
    pub fn has_identifier(&self) -> (r: bool)
        ensures
            r == self@.has_identifier(),
    {
        !self.id.as_str().is_empty()
    }
}

impl View for Menu {
    type V = MenuView;

    open spec fn view(&self) -> MenuView {
        MenuView {
            id: self.id@,
            restaurant: self.restaurant@,
            settings: self.settings,
            sections: self.sections@.map_values(|s: Section| s@),
        }
    }
}

} // verus!
