//! The store: the latest menu submitted under each identifier.

use crate::model::{Menu, MenuView};
use crate::render::{menu_html, render};
use vstd::prelude::*;

verus! {

/// Why a request was turned down.
#[derive(Clone, Copy, Debug, PartialEq, Eq, Structural)]
pub enum MenuError {
    /// The submitted document has an empty identifier.
    Validation,
    /// No document is stored under the identifier asked for.
    NotFound,
}

impl MenuError {
    /// A short description for the caller.
    pub fn message(&self) -> (r: String)
        ensures
            r@ == (match *self {
                MenuError::Validation => "identifier must not be empty"@,
                MenuError::NotFound => "not found"@,
            }),
    {
        match self {
            MenuError::Validation => String::from_str("identifier must not be empty"),
            MenuError::NotFound => String::from_str("not found"),
        }
    }
}

/// The map that a sequence of documents stands for: each under its
/// identifier, a later one replacing an earlier one of the same identifier.
pub open spec fn entries(menus: Seq<Menu>) -> Map<Seq<char>, MenuView>
    decreases menus.len(),
{
    if menus.len() == 0 {
        Map::empty()
    } else {
        entries(menus.drop_last()).insert(menus.last().id@, menus.last()@)
    }
}

/// No two documents share an identifier.
pub open spec fn distinct_ids(menus: Seq<Menu>) -> bool {
    forall|i: int, j: int|
        #![trigger menus[i], menus[j]]
        0 <= i < j < menus.len() ==> menus[i].id@ != menus[j].id@
}

/// What the store holds after `menu` is put into it.
pub open spec fn put_result(held: Map<Seq<char>, MenuView>, menu: MenuView) -> Map<
    Seq<char>,
    MenuView,
> {
    held.insert(menu.id, menu)
}

/// Every document stands under its own identifier.
pub open spec fn keyed(held: Map<Seq<char>, MenuView>) -> bool {
    forall|id: Seq<char>| held.contains_key(id) ==> (#[trigger] held[id]).id == id
}

/// The map of a sequence of documents holds each under its own identifier.
proof fn lemma_entries_keyed(menus: Seq<Menu>)
    ensures
        keyed(entries(menus)),
    decreases menus.len(),
{
    if menus.len() > 0 {
        lemma_entries_keyed(menus.drop_last());
    }
}

/// A key is in the map exactly when some document carries it.
proof fn lemma_entries_domain(menus: Seq<Menu>, key: Seq<char>)
    ensures
        entries(menus).contains_key(key) <==> exists|i: int|
            0 <= i < menus.len() && #[trigger] menus[i].id@ == key,
    decreases menus.len(),
{
    if menus.len() > 0 {
        let front = menus.drop_last();
        lemma_entries_domain(front, key);
        if entries(menus).contains_key(key) {
            if menus.last().id@ == key {
                assert(menus[menus.len() - 1].id@ == key);
            } else {
                let i = choose|i: int| 0 <= i < front.len() && #[trigger] front[i].id@ == key;
                assert(menus[i].id@ == key);
            }
        } else {
            assert forall|i: int| 0 <= i < menus.len() implies #[trigger] menus[i].id@ != key by {
                if i < front.len() {
                    assert(front[i].id@ == menus[i].id@);
                }
            }
        }
    }
}

/// Among distinct identifiers, the map holds each document under its own.
proof fn lemma_entries_lookup(menus: Seq<Menu>, i: int)
    requires
        distinct_ids(menus),
        0 <= i < menus.len(),
    ensures
        entries(menus).contains_key(menus[i].id@),
        entries(menus)[menus[i].id@] == menus[i]@,
    decreases menus.len(),
{
    let front = menus.drop_last();
    if i < menus.len() - 1 {
        assert(menus[i].id@ != menus[menus.len() - 1].id@);
        assert(distinct_ids(front)) by {
            assert forall|a: int, b: int| 0 <= a < b < front.len() implies front[a].id@
                != front[b].id@ by {
                assert(menus[a].id@ != menus[b].id@);
            }
        }
        lemma_entries_lookup(front, i);
    }
}

/// Replacing a document by one of the same identifier is an insertion
/// into the map, and keeps the identifiers distinct.
proof fn lemma_entries_update(menus: Seq<Menu>, i: int, menu: Menu)
    requires
        distinct_ids(menus),
        0 <= i < menus.len(),
        menus[i].id@ == menu.id@,
    ensures
        entries(menus.update(i, menu)) == entries(menus).insert(menu.id@, menu@),
        distinct_ids(menus.update(i, menu)),
    decreases menus.len(),
{
    let after = menus.update(i, menu);
    assert(distinct_ids(after)) by {
        assert forall|a: int, b: int| 0 <= a < b < after.len() implies after[a].id@
            != after[b].id@ by {
            assert(menus[a].id@ != menus[b].id@);
        }
    }
    let front = menus.drop_last();
    if i == menus.len() - 1 {
        assert(after.drop_last() =~= front);
        assert(entries(after) =~= entries(menus).insert(menu.id@, menu@));
    } else {
        assert(distinct_ids(front)) by {
            assert forall|a: int, b: int| 0 <= a < b < front.len() implies front[a].id@
                != front[b].id@ by {
                assert(menus[a].id@ != menus[b].id@);
            }
        }
        lemma_entries_update(front, i, menu);
        assert(after.drop_last() =~= front.update(i, menu));
        assert(after.last() == menus.last());
        assert(menus[i].id@ != menus[menus.len() - 1].id@);
        assert(entries(after) =~= entries(menus).insert(menu.id@, menu@));
    }
}

/// A keyed registry of menus. It holds at most one document per
/// identifier: the one that was put last.
pub struct MenuStore {
    menus: Vec<Menu>,
}

impl View for MenuStore {
    type V = Map<Seq<char>, MenuView>;

    closed spec fn view(&self) -> Map<Seq<char>, MenuView> {
        entries(self.menus@)
    }
}

impl MenuStore {
    #[verifier::type_invariant]
    spec fn inv(self) -> bool {
        distinct_ids(self.menus@)
    }

    /// Whatever was put, every document in the store stands under its own
    /// identifier.
    pub proof fn lemma_keyed(&self)
        ensures
            keyed(self@),
    {
        lemma_entries_keyed(self.menus@);
    }

    /// An empty store.
    pub fn new() -> (r: MenuStore)
        ensures
            r@ == Map::<Seq<char>, MenuView>::empty(),
    {
        MenuStore { menus: Vec::new() }
    }

    /// Where the document of this identifier stands, if there is one.
    fn position(&self, id: &String) -> (r: Option<usize>)
        ensures
            match r {
                Some(i) => i < self.menus@.len() && self.menus@[i as int].id@ == id@,
                None => forall|j: int|
                    0 <= j < self.menus@.len() ==> (#[trigger] self.menus@[j]).id@ != id@,
            },
    {
        let mut i: usize = 0;
        while i < self.menus.len()
            invariant
                i <= self.menus@.len(),
                forall|j: int| 0 <= j < i ==> (#[trigger] self.menus@[j]).id@ != id@,
            decreases self.menus@.len() - i,
        {
            if self.menus[i].id == *id {
                return Some(i);
            }
            i = i + 1;
        }
        None
    }

    /// Stores `menu` under its identifier, in place of the document that
    /// was there, if any. Nothing else in the store changes.
    pub fn put(&mut self, menu: Menu)
        ensures
            final(self)@ == put_result(old(self)@, menu@),
    {
        proof {
            use_type_invariant(&*self);
        }
        let found = self.position(&menu.id);
        let mut taken = MenuStore::new();
        core::mem::swap(self, &mut taken);
        let mut menus = taken.menus;
        match found {
            Some(i) => {
                proof {
                    lemma_entries_update(menus@, i as int, menu);
                }
                menus.set(i, menu);
            },
            None => {
                let ghost before = menus@;
                menus.push(menu);
                proof {
                    assert(menus@.drop_last() =~= before);
                    assert(distinct_ids(menus@)) by {
                        assert forall|a: int, b: int|
                            0 <= a < b < menus@.len() implies menus@[a].id@ != menus@[b].id@ by {
                            assert(before[a].id@ == menus@[a].id@);
                            if b < before.len() {
                                assert(before[a].id@ != before[b].id@);
                            }
                        }
                    }
                }
            },
        }
        *self = MenuStore { menus };
    }

    /// The document stored under `id`, if there is one.
    pub fn get(&self, id: &str) -> (r: Option<&Menu>)
        ensures
            r.is_some() == self@.contains_key(id@),
            r.is_some() ==> r.unwrap()@ == self@[id@],
            r.is_some() ==> r.unwrap()@.id == id@,
    {
        proof {
            use_type_invariant(self);
            lemma_entries_domain(self.menus@, id@);
        }
        let key = String::from_str(id);
        match self.position(&key) {
            Some(i) => {
                proof {
                    lemma_entries_lookup(self.menus@, i as int);
                }
                Some(&self.menus[i])
            },
            None => None,
        }
    }

    /// Takes in a document: one with an empty identifier is turned down
    /// and leaves the store as it was, any other is put.
    pub fn submit(&mut self, menu: Menu) -> (r: Result<(), MenuError>)
        ensures
            !menu@.has_identifier() ==> r == Err::<(), MenuError>(MenuError::Validation),
            !menu@.has_identifier() ==> final(self)@ == old(self)@,
            menu@.has_identifier() ==> r.is_ok(),
            menu@.has_identifier() ==> final(self)@ == put_result(old(self)@, menu@),
    {
        if menu.has_identifier() {
            self.put(menu);
            Ok(())
        } else {
            Err(MenuError::Validation)
        }
    }

    /// The page of the document stored under `id`; `NotFound` where there
    /// is none.
    pub fn fetch(&self, id: &str) -> (r: Result<String, MenuError>)
        ensures
            match r {
                Ok(html) => self@.contains_key(id@) && html@ == menu_html(self@[id@]),
                Err(e) => e == MenuError::NotFound && !self@.contains_key(id@),
            },
    {
        match self.get(id) {
            Some(menu) => Ok(render(menu)),
            None => Err(MenuError::NotFound),
        }
    }
}

} // verus!
