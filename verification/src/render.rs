//! The renderer: from a menu to a self-contained HTML page.
//!
//! Each fragment of the page has a spec function that gives its text and an
//! executable function that builds exactly that text. Every piece of text
//! taken from the menu is HTML-escaped; prices are rounded half to even.

use crate::escape::{escape_html, html_escaped};
use crate::model::{Item, ItemView, Menu, MenuView, Restaurant, RestaurantView, Section, SectionView, Settings};
use crate::price::price_text;
use vstd::prelude::*;

verus! {

/// The embedded stylesheet.
pub open spec fn stylesheet_text() -> Seq<char> {
    ":root { --bg:#fff; --fg:#111; --muted:#666; --border:#e5e5e5;}\n.right{padding:16px}.menu{max-width:900px;margin:0 auto}.menu h2{margin:24px 0 8px;border-bottom:2px solid #000;padding-bottom:6px;font-size:20px}\n.meta{color:#666;font-size:12px;margin-bottom:16px}.item{display:grid;grid-template-columns:1fr auto;gap:8px;padding:8px 0;border-bottom:1px dashed #e5e5e5}\n.item:last-child{border-bottom:0}.name{font-weight:600}.desc{color:#666;font-size:13px}.price{font-variant-numeric:tabular-nums;font-weight:600}\n.tag{border:1px solid #e5e5e5;border-radius:999px;font-size:10px;padding:2px 6px;color:#666}"@
}

/// The embedded stylesheet.
pub fn stylesheet() -> (r: &'static str)
    ensures
        r@ == stylesheet_text(),
{
    ":root { --bg:#fff; --fg:#111; --muted:#666; --border:#e5e5e5;}\n.right{padding:16px}.menu{max-width:900px;margin:0 auto}.menu h2{margin:24px 0 8px;border-bottom:2px solid #000;padding-bottom:6px;font-size:20px}\n.meta{color:#666;font-size:12px;margin-bottom:16px}.item{display:grid;grid-template-columns:1fr auto;gap:8px;padding:8px 0;border-bottom:1px dashed #e5e5e5}\n.item:last-child{border-bottom:0}.name{font-weight:600}.desc{color:#666;font-size:13px}.price{font-variant-numeric:tabular-nums;font-weight:600}\n.tag{border:1px solid #e5e5e5;border-radius:999px;font-size:10px;padding:2px 6px;color:#666}"
}

/// A metadata line that holds `text`.
pub open spec fn meta_div(text: Seq<char>) -> Seq<char> {
    "  <div class=\"meta\">"@ + text + "</div>\n"@
}

/// The metadata line of a note: nothing where the note is empty.
pub open spec fn note_html(note: Seq<char>) -> Seq<char> {
    if note.len() == 0 {
        Seq::empty()
    } else {
        meta_div(html_escaped(note))
    }
}

/// `line` with one more field joined on: an empty field adds nothing, and
/// the separator stands only between two fields that are present.
pub open spec fn joined(line: Seq<char>, field: Seq<char>) -> Seq<char> {
    if field.len() == 0 {
        line
    } else if line.len() == 0 {
        html_escaped(field)
    } else {
        line + " \u{b7} "@ + html_escaped(field)
    }
}

/// Address, phone and website, those that are present, joined by `" · "`.
pub open spec fn contact_text(r: RestaurantView) -> Seq<char> {
    joined(joined(joined(Seq::empty(), r.address), r.phone), r.website)
}

/// The contact line: nothing where address, phone and website are all empty.
pub open spec fn contact_html(r: RestaurantView) -> Seq<char> {
    if r.address.len() == 0 && r.phone.len() == 0 && r.website.len() == 0 {
        Seq::empty()
    } else {
        meta_div(contact_text(r))
    }
}

/// The page's header: the restaurant's name, its contact line and its note.
pub open spec fn header_html(r: RestaurantView) -> Seq<char> {
    "<header>\n  <h1 style=\"font-size:28px; margin:0;\">"@ + html_escaped(r.name) + "</h1>\n"@
        + contact_html(r) + note_html(r.note) + "</header>\n"@
}

/// The labels of an item's tags, in their stored order.
pub open spec fn tags_html(tags: Seq<Seq<char>>) -> Seq<char>
    decreases tags.len(),
{
    if tags.len() == 0 {
        Seq::empty()
    } else {
        tags_html(tags.drop_last()) + "<span class=\"tag\">"@ + html_escaped(tags.last())
            + "</span>"@
    }
}

/// An item's description line: only where descriptions are switched on and
/// the item has one.
pub open spec fn description_html(settings: Settings, item: ItemView) -> Seq<char> {
    if settings.show_descriptions && item.description.len() > 0 {
        "        <div class=\"desc\">"@ + html_escaped(item.description) + "</div>\n"@
    } else {
        Seq::empty()
    }
}

/// An item's tag list: only where tags are switched on and the item has
/// some.
pub open spec fn tag_list_html(settings: Settings, item: ItemView) -> Seq<char> {
    if settings.show_tags && item.tags.len() > 0 {
        "        <div class=\"tags\">"@ + tags_html(item.tags) + "</div>\n"@
    } else {
        Seq::empty()
    }
}

/// The row of one item: nothing for an item that is explicitly
/// unavailable, else its name, description, tags and price.
pub open spec fn item_html(settings: Settings, item: ItemView) -> Seq<char> {
    if !item.available.is_shown() {
        Seq::empty()
    } else {
        "    <div class=\"item\">\n      <div>\n        <div class=\"name\">"@ + html_escaped(
            item.name,
        ) + "</div>\n"@ + description_html(settings, item) + tag_list_html(settings, item)
            + "      </div>\n      <div class=\"price\">"@ + price_text(
            item.price.units(),
            item.price.scale(),
            settings.price_decimals as nat,
        ) + "</div>\n    </div>\n"@
    }
}

/// The rows of a sequence of items, in order.
pub open spec fn items_html(settings: Settings, items: Seq<ItemView>) -> Seq<char>
    decreases items.len(),
{
    if items.len() == 0 {
        Seq::empty()
    } else {
        items_html(settings, items.drop_last()) + item_html(settings, items.last())
    }
}

/// One section: its heading, its note and its rows.
pub open spec fn section_html(settings: Settings, section: SectionView) -> Seq<char> {
    "  <h2>"@ + html_escaped(section.title) + "</h2>\n"@ + note_html(section.note) + items_html(
        settings,
        section.items,
    )
}

/// The sections of a menu, in order.
pub open spec fn sections_html(settings: Settings, sections: Seq<SectionView>) -> Seq<char>
    decreases sections.len(),
{
    if sections.len() == 0 {
        Seq::empty()
    } else {
        sections_html(settings, sections.drop_last()) + section_html(settings, sections.last())
    }
}

/// The document up to the header: doctype, head and the opening tags.
pub open spec fn page_open(r: RestaurantView) -> Seq<char> {
    "<!doctype html><html><head>\n<meta charset=\"utf-8\"><meta name=\"viewport\" content=\"width=device-width,initial-scale=1\">\n<title>"@
        + html_escaped(r.name) + "</title>\n<style>"@ + stylesheet_text()
        + "</style>\n</head><body><main class=\"right\"><section class=\"menu\" id=\"preview\">\n"@
}

/// The closing tags of the document.
pub open spec fn page_close() -> Seq<char> {
    "</section></main></body></html>\n"@
}

/// The whole page of a menu.
pub open spec fn menu_html(menu: MenuView) -> Seq<char> {
    page_open(menu.restaurant) + header_html(menu.restaurant) + sections_html(
        menu.settings,
        menu.sections,
    ) + page_close()
}

/// A metadata line that holds the escaped `text`.
fn meta_line(text: &str) -> (r: String)
    ensures
        r@ == meta_div(html_escaped(text@)),
{
    let mut out = String::from_str("  <div class=\"meta\">");
    let body = escape_html(text);
    out.append(body.as_str());
    out.append("</div>\n");
    out
}

/// The metadata line of a note: empty where the note is.
pub fn note_line(note: &str) -> (r: String)
    ensures
        r@ == note_html(note@),
{
    if note.is_empty() {
        String::new()
    } else {
        meta_line(note)
    }
}

/// Joins one more field onto a contact line.
fn join_field(line: &mut String, field: &str)
    ensures
        final(line)@ == joined(old(line)@, field@),
{
    if !field.is_empty() {
        if !line.as_str().is_empty() {
            line.append(" \u{b7} ");
        }
        let body = escape_html(field);
        line.append(body.as_str());
        assert(line@ =~= joined(old(line)@, field@));
    }
}

/// The contact line of a restaurant: address, phone and website, those
/// that are present, joined by `" · "`; empty where none is.
pub fn contact_line(restaurant: &Restaurant) -> (r: String)
    ensures
        r@ == contact_html(restaurant@),
{
    let mut text = String::new();
    join_field(&mut text, restaurant.address.as_str());
    join_field(&mut text, restaurant.phone.as_str());
    join_field(&mut text, restaurant.website.as_str());
    if restaurant.address.as_str().is_empty() && restaurant.phone.as_str().is_empty()
        && restaurant.website.as_str().is_empty() {
        String::new()
    } else {
        let mut out = String::from_str("  <div class=\"meta\">");
        out.append(text.as_str());
        out.append("</div>\n");
        out
    }
}

/// The header of the page.
pub fn header(restaurant: &Restaurant) -> (r: String)
    ensures
        r@ == header_html(restaurant@),
{
    let mut out = String::from_str("<header>\n  <h1 style=\"font-size:28px; margin:0;\">");
    let name = escape_html(restaurant.name.as_str());
    out.append(name.as_str());
    out.append("</h1>\n");
    let contact = contact_line(restaurant);
    out.append(contact.as_str());
    let note = note_line(restaurant.note.as_str());
    out.append(note.as_str());
    out.append("</header>\n");
    assert(out@ =~= header_html(restaurant@));
    out
}

/// The labels of an item's tags.
fn tag_labels(item: &Item) -> (r: String)
    ensures
        r@ == tags_html(item@.tags),
{
    let mut out = String::new();
    let mut i: usize = 0;
    assert(item@.tags.take(0) =~= Seq::<Seq<char>>::empty());
    while i < item.tags.len()
        invariant
            i <= item.tags.len(),
            out@ == tags_html(item@.tags.take(i as int)),
        decreases item.tags.len() - i,
    {
        let label = escape_html(item.tags[i].as_str());
        out.append("<span class=\"tag\">");
        out.append(label.as_str());
        out.append("</span>");
        i = i + 1;
        proof {
            let now = item@.tags.take(i as int);
            assert(now.drop_last() =~= item@.tags.take(i - 1));
            assert(now.last() == item.tags@[i - 1]@);
            assert(out@ =~= tags_html(now));
        }
    }
    assert(item@.tags.take(i as int) =~= item@.tags);
    out
}

/// The row of one item: empty for an item that is explicitly unavailable.
pub fn item_row(settings: &Settings, item: &Item) -> (r: String)
    ensures
        r@ == item_html(*settings, item@),
{
    if !item.available.shown() {
        return String::new();
    }
    let mut out = String::from_str(
        "    <div class=\"item\">\n      <div>\n        <div class=\"name\">",
    );
    let name = escape_html(item.name.as_str());
    out.append(name.as_str());
    out.append("</div>\n");
    if settings.show_descriptions && !item.description.as_str().is_empty() {
        let text = escape_html(item.description.as_str());
        out.append("        <div class=\"desc\">");
        out.append(text.as_str());
        out.append("</div>\n");
    }
    if settings.show_tags && item.tags.len() > 0 {
        let labels = tag_labels(item);
        out.append("        <div class=\"tags\">");
        out.append(labels.as_str());
        out.append("</div>\n");
    }
    out.append("      </div>\n      <div class=\"price\">");
    let price = item.price.format(settings.price_decimals);
    out.append(price.as_str());
    out.append("</div>\n    </div>\n");
    assert(out@ =~= item_html(*settings, item@));
    out
}

/// One section: its heading, its note, and the rows of its items that are
/// shown.
pub fn section_block(settings: &Settings, section: &Section) -> (r: String)
    ensures
        r@ == section_html(*settings, section@),
{
    let mut out = String::from_str("  <h2>");
    let title = escape_html(section.title.as_str());
    out.append(title.as_str());
    out.append("</h2>\n");
    let note = note_line(section.note.as_str());
    out.append(note.as_str());
    let ghost head = out@;
    let mut i: usize = 0;
    assert(section@.items.take(0) =~= Seq::<ItemView>::empty());
    while i < section.items.len()
        invariant
            i <= section.items.len(),
            out@ == head + items_html(*settings, section@.items.take(i as int)),
        decreases section.items.len() - i,
    {
        let row = item_row(settings, &section.items[i]);
        out.append(row.as_str());
        i = i + 1;
        proof {
            let now = section@.items.take(i as int);
            assert(now.drop_last() =~= section@.items.take(i - 1));
            assert(now.last() == section.items@[i - 1]@);
            assert(out@ =~= head + items_html(*settings, now));
        }
    }
    assert(section@.items.take(i as int) =~= section@.items);
    assert(out@ =~= section_html(*settings, section@));
    out
}

/// The page of a menu.
pub fn render(menu: &Menu) -> (r: String)
    ensures
        r@ == menu_html(menu@),
{
    let mut out = String::from_str(
        "<!doctype html><html><head>\n<meta charset=\"utf-8\"><meta name=\"viewport\" content=\"width=device-width,initial-scale=1\">\n<title>",
    );
    let name = escape_html(menu.restaurant.name.as_str());
    out.append(name.as_str());
    out.append("</title>\n<style>");
    out.append(stylesheet());
    out.append(
        "</style>\n</head><body><main class=\"right\"><section class=\"menu\" id=\"preview\">\n",
    );
    assert(out@ =~= page_open(menu@.restaurant));
    let top = header(&menu.restaurant);
    out.append(top.as_str());
    let ghost head = out@;
    let mut i: usize = 0;
    assert(menu@.sections.take(0) =~= Seq::<SectionView>::empty());
    while i < menu.sections.len()
        invariant
            i <= menu.sections.len(),
            out@ == head + sections_html(menu.settings, menu@.sections.take(i as int)),
        decreases menu.sections.len() - i,
    {
        let block = section_block(&menu.settings, &menu.sections[i]);
        out.append(block.as_str());
        i = i + 1;
        proof {
            let now = menu@.sections.take(i as int);
            assert(now.drop_last() =~= menu@.sections.take(i - 1));
            assert(now.last() == menu.sections@[i - 1]@);
            assert(out@ =~= head + sections_html(menu.settings, now));
        }
    }
    assert(menu@.sections.take(i as int) =~= menu@.sections);
    out.append("</section></main></body></html>\n");
    assert(out@ =~= menu_html(menu@));
    out
}

} // verus!
