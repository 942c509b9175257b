//! What holds of the store and of the renderer for every menu, proved from
//! the spec functions that their contracts use.

use crate::escape::{html_escaped, lemma_escaped_nonempty};
use crate::model::{ItemView, MenuView, RestaurantView, SectionView, Settings};
use crate::render::{
    contact_html, contact_text, header_html, item_html, items_html, menu_html, note_html,
    page_close, page_open, section_html, sections_html,
};
use crate::store::{keyed, put_result};
use vstd::prelude::*;

verus! {

/// Putting a document a second time changes nothing, and after a put the
/// store holds exactly that document under its identifier.
pub proof fn lemma_put_idempotent(held: Map<Seq<char>, MenuView>, menu: MenuView)
    ensures
        put_result(put_result(held, menu), menu) == put_result(held, menu),
        put_result(held, menu).contains_key(menu.id),
        put_result(held, menu)[menu.id] == menu,
{
    assert(put_result(put_result(held, menu), menu) =~= put_result(held, menu));
}

/// A put touches one identifier only: every other one holds what it held,
/// and one that was absent stays absent.
pub proof fn lemma_put_leaves_others(held: Map<Seq<char>, MenuView>, menu: MenuView, id: Seq<char>)
    requires
        id != menu.id,
    ensures
        put_result(held, menu).contains_key(id) == held.contains_key(id),
        held.contains_key(id) ==> put_result(held, menu)[id] == held[id],
{
}

/// A put keeps every document under its own identifier.
pub proof fn lemma_put_keeps_keyed(held: Map<Seq<char>, MenuView>, menu: MenuView)
    requires
        keyed(held),
    ensures
        keyed(put_result(held, menu)),
{
}

/// Where every stored document has an identifier and the one put has one,
/// every stored document still has one.
pub proof fn lemma_put_keeps_identified(held: Map<Seq<char>, MenuView>, menu: MenuView)
    requires
        forall|id: Seq<char>| held.contains_key(id) ==> (#[trigger] held[id]).has_identifier(),
        menu.has_identifier(),
    ensures
        forall|id: Seq<char>|
            put_result(held, menu).contains_key(id) ==> (#[trigger] put_result(
                held,
                menu,
            )[id]).has_identifier(),
{
}

/// The page is a function of the menu's value: equal menus give equal
/// pages.
pub proof fn lemma_render_deterministic(a: MenuView, b: MenuView)
    requires
        a == b,
    ensures
        menu_html(a) == menu_html(b),
{
}

/// An item has a row exactly when it is not explicitly unavailable,
/// whatever the settings.
pub proof fn lemma_row_iff_shown(settings: Settings, item: ItemView)
    ensures
        (item_html(settings, item).len() > 0) == item.available.is_shown(),
{
    reveal_strlit("</div>\n    </div>\n");
}

/// The test that an item is shown.
pub open spec fn is_shown_item() -> spec_fn(ItemView) -> bool {
    |item: ItemView| item.available.is_shown()
}

/// The rows of a sequence of items are the rows of those among them that
/// are shown: an unavailable item leaves no trace.
pub proof fn lemma_rows_of_shown_items(settings: Settings, items: Seq<ItemView>)
    ensures
        items_html(settings, items) == items_html(settings, items.filter(is_shown_item())),
    decreases items.len(),
{
    reveal(Seq::filter);
    if items.len() > 0 {
        let front = items.drop_last();
        lemma_rows_of_shown_items(settings, front);
        let kept = front.filter(is_shown_item());
        if items.last().available.is_shown() {
            assert(kept.push(items.last()).drop_last() =~= kept);
            assert(items_html(settings, items) =~= items_html(
                settings,
                items.filter(is_shown_item()),
            ));
        } else {
            assert(items_html(settings, items) =~= items_html(settings, kept));
        }
    }
}

/// Two sequences of items with equal rows, one by one, have equal rows
/// altogether.
pub proof fn lemma_rows_pointwise(settings: Settings, a: Seq<ItemView>, b: Seq<ItemView>)
    requires
        a.len() == b.len(),
        forall|i: int| 0 <= i < a.len() ==> item_html(settings, a[i]) == item_html(settings, b[i]),
    ensures
        items_html(settings, a) == items_html(settings, b),
    decreases a.len(),
{
    if a.len() > 0 {
        lemma_rows_pointwise(settings, a.drop_last(), b.drop_last());
    }
}

/// The menu with every item that is explicitly unavailable taken out.
pub open spec fn menu_of_shown_items(menu: MenuView) -> MenuView {
    MenuView {
        sections: menu.sections.map_values(
            |s: SectionView| SectionView { items: s.items.filter(is_shown_item()), ..s },
        ),
        ..menu
    }
}

/// An unavailable item leaves no trace on the page, whatever the
/// settings: the page is that of the menu without such items.
pub proof fn lemma_page_of_shown_items(menu: MenuView)
    ensures
        menu_html(menu) == menu_html(menu_of_shown_items(menu)),
{
    let after = menu_of_shown_items(menu);
    assert forall|i: int| 0 <= i < menu.sections.len() implies section_html(
        menu.settings,
        menu.sections[i],
    ) == section_html(menu.settings, after.sections[i]) by {
        lemma_rows_of_shown_items(menu.settings, menu.sections[i].items);
    }
    lemma_sections_pointwise(menu.settings, menu.sections, after.sections);
}

/// Two sequences of sections with equal text, one by one, have equal text
/// altogether.
pub proof fn lemma_sections_pointwise(settings: Settings, a: Seq<SectionView>, b: Seq<SectionView>)
    requires
        a.len() == b.len(),
        forall|i: int|
            0 <= i < a.len() ==> section_html(settings, a[i]) == section_html(settings, b[i]),
    ensures
        sections_html(settings, a) == sections_html(settings, b),
    decreases a.len(),
{
    if a.len() > 0 {
        lemma_sections_pointwise(settings, a.drop_last(), b.drop_last());
    }
}

/// The item with its description taken out.
pub open spec fn item_without_description(item: ItemView) -> ItemView {
    ItemView { description: Seq::empty(), ..item }
}

/// The item with its tags taken out.
pub open spec fn item_without_tags(item: ItemView) -> ItemView {
    ItemView { tags: Seq::empty(), ..item }
}

/// The menu with every item changed by `change`.
pub open spec fn menu_with_items(menu: MenuView, change: spec_fn(ItemView) -> ItemView) -> MenuView {
    MenuView {
        sections: menu.sections.map_values(
            |s: SectionView| SectionView { items: s.items.map_values(change), ..s },
        ),
        ..menu
    }
}

/// Where a change of the items leaves every row as it was, it leaves the
/// page as it was.
pub proof fn lemma_page_unchanged(menu: MenuView, change: spec_fn(ItemView) -> ItemView)
    requires
        forall|item: ItemView|
            item_html(menu.settings, item) == item_html(menu.settings, #[trigger] change(item)),
    ensures
        menu_html(menu) == menu_html(menu_with_items(menu, change)),
{
    let after = menu_with_items(menu, change);
    assert forall|i: int| 0 <= i < menu.sections.len() implies section_html(
        menu.settings,
        menu.sections[i],
    ) == section_html(menu.settings, after.sections[i]) by {
        let s = menu.sections[i];
        lemma_rows_pointwise(menu.settings, s.items, s.items.map_values(change));
    }
    lemma_sections_pointwise(menu.settings, menu.sections, after.sections);
}

/// With descriptions switched off, the page does not depend on any
/// description: it is the page of the menu with every description taken
/// out.
pub proof fn lemma_descriptions_hidden(menu: MenuView)
    requires
        !menu.settings.show_descriptions,
    ensures
        menu_html(menu) == menu_html(
            menu_with_items(menu, |item: ItemView| item_without_description(item)),
        ),
{
    lemma_page_unchanged(menu, |item: ItemView| item_without_description(item));
}

/// With tags switched off, the page does not depend on any tag: it is the
/// page of the menu with every tag taken out.
pub proof fn lemma_tags_hidden(menu: MenuView)
    requires
        !menu.settings.show_tags,
    ensures
        menu_html(menu) == menu_html(menu_with_items(menu, |item: ItemView| item_without_tags(item))),
{
    lemma_page_unchanged(menu, |item: ItemView| item_without_tags(item));
}

/// With address, phone and website all empty there is no contact line.
pub proof fn lemma_contact_line_absent(r: RestaurantView)
    requires
        r.address.len() == 0,
        r.phone.len() == 0,
        r.website.len() == 0,
    ensures
        contact_html(r).len() == 0,
{
}

/// With only the phone empty, the contact line reads address, one
/// separator, website.
pub proof fn lemma_contact_without_phone(r: RestaurantView)
    requires
        r.address.len() > 0,
        r.phone.len() == 0,
        r.website.len() > 0,
    ensures
        contact_text(r) == html_escaped(r.address) + " \u{b7} "@ + html_escaped(r.website),
{
    lemma_escaped_nonempty(r.address);
}

/// A field that is empty leaves the contact line as it is without it: no
/// separator is written for it.
pub proof fn lemma_contact_skips_empty(r: RestaurantView)
    ensures
        r.address.len() == 0 ==> contact_text(r) == contact_text(
            RestaurantView { address: r.phone, phone: r.website, website: Seq::empty(), ..r },
        ),
        r.phone.len() == 0 ==> contact_text(r) == contact_text(
            RestaurantView { phone: r.website, website: Seq::empty(), ..r },
        ),
{
}

/// A section without items is its heading and, where it has one, its
/// note: no row follows.
pub proof fn lemma_empty_section(settings: Settings, section: SectionView)
    requires
        section.items.len() == 0,
    ensures
        section_html(settings, section) == "  <h2>"@ + html_escaped(section.title) + "</h2>\n"@
            + note_html(section.note),
{
    assert(section_html(settings, section) =~= "  <h2>"@ + html_escaped(section.title)
        + "</h2>\n"@ + note_html(section.note));
}

/// A menu without sections is the document shell and the header.
pub proof fn lemma_no_sections(menu: MenuView)
    requires
        menu.sections.len() == 0,
    ensures
        menu_html(menu) == page_open(menu.restaurant) + header_html(menu.restaurant)
            + page_close(),
{
    assert(menu_html(menu) =~= page_open(menu.restaurant) + header_html(menu.restaurant)
        + page_close());
}

} // verus!
