//! The category store the labeled paths are sorted into: a tree of named
//! categories, each selected by a key, each holding the paths labeled under
//! it. Reading and writing the per-category CSV files, and the interactive
//! key handling, are the surrounding application's concern; this module
//! holds the bookkeeping.

use vstd::prelude::*;

use crate::config::Category;

verus! {

/// One category: its display name, its selection key, and the paths
/// labeled under it so far.
pub struct CategoryTreeItem {
    name: String,
    key: char,
    paths: Vec<String>,
}

impl CategoryTreeItem {
    /// The category's name.
    pub closed spec fn spec_name(&self) -> Seq<char> {
        self.name@
    }

    /// The category's selection key.
    pub closed spec fn spec_key(&self) -> char {
        self.key
    }

    /// The paths labeled under this category, in insertion order.
    pub closed spec fn spec_paths(&self) -> Seq<Seq<char>> {
        self.paths@.map_values(|p: String| p@)
    }

    /// A fresh category with no labeled paths.
    pub fn new(name: String, key: char) -> (item: Self)
        ensures
            item.spec_name() == name@,
            item.spec_key() == key,
            item.spec_paths() == Seq::<Seq<char>>::empty(),
    {
        let item = Self { name, key, paths: Vec::new() };
        proof {
            assert(item.spec_paths() =~= Seq::<Seq<char>>::empty());
        }
        item
    }

    /// The category's name.
    pub fn name(&self) -> (r: &String)
        ensures
            r@ == self.spec_name(),
    {
        &self.name
    }

    /// Replaces the labeled paths wholesale (used when an earlier session's
    /// list is loaded back).
    pub fn set_paths(&mut self, paths: Vec<String>)
        ensures
            final(self).spec_name() == old(self).spec_name(),
            final(self).spec_key() == old(self).spec_key(),
            final(self).spec_paths() == paths@.map_values(|p: String| p@),
    {
        self.paths = paths;
    }

    /// The labeled paths, in insertion order.
    pub fn get_paths(&self) -> (r: &Vec<String>)
        ensures
            r@.map_values(|p: String| p@) == self.spec_paths(),
    {
        &self.paths
    }

    /// The key that selects this category.
    pub fn key(&self) -> (r: char)
        ensures
            r == self.spec_key(),
    {
        self.key
    }

    /// Labels one more path under this category.
    pub fn add_path(&mut self, path: String)
        ensures
            final(self).spec_name() == old(self).spec_name(),
            final(self).spec_key() == old(self).spec_key(),
            final(self).spec_paths() == old(self).spec_paths().push(path@),
    {
        self.paths.push(path);
        proof {
            assert(self.spec_paths() =~= old(self).spec_paths().push(
                self.paths@.last()@,
            ));
        }
    }

    /// The file the category's list is kept in: `<dir>/<name>.csv`. The
    /// category name carries no extension of its own.
    pub fn make_category_path(&self, dir: &str) -> (r: String)
        ensures
            r@ == dir@ + "/"@ + self.spec_name() + ".csv"@,
    {
        let mut r = String::from_str(dir);
        r.append("/");
        r.append(self.name.as_str());
        r.append(".csv");
        r
    }
}

/// The category store: one entry per category of the validated, flattened
/// configuration, plus the category the operator has currently selected.
/// The hierarchy itself only matters for display; every labeled path lives
/// with exactly one named category here.
pub struct CategoriesHolder {
    items: Vec<CategoryTreeItem>,
    selected_category: Option<String>,
}

impl CategoriesHolder {
    /// The stored categories.
    pub closed spec fn spec_items(&self) -> Seq<CategoryTreeItem> {
        self.items@
    }

    /// The currently selected category name, if any.
    pub closed spec fn spec_selected(&self) -> Option<Seq<char>> {
        match self.selected_category {
            Some(ref s) => Some(s@),
            None => None,
        }
    }

    /// Whether a category of this name is stored.
    pub open spec fn has_category(&self, name: Seq<char>) -> bool {
        exists|i: int|
            0 <= i < self.spec_items().len() && (#[trigger] self.spec_items()[i]).spec_name()
                == name
    }

    /// The store is coherent: a selected category always names one of the
    /// stored categories.
    pub open spec fn wf(&self) -> bool {
        self.spec_selected() matches Some(name) ==> self.has_category(name)
    }

    /// Builds the store from the flattened category list: one fresh entry
    /// per category, in flattening order, nothing selected.
    pub fn from_categories(flat: Vec<Category>) -> (holder: Self)
        ensures
            holder.wf(),
            holder.spec_selected() is None,
            holder.spec_items().len() == flat@.len(),
            forall|i: int|
                0 <= i < flat@.len() ==> (#[trigger] holder.spec_items()[i]).spec_name()
                    == flat@[i].name@ && holder.spec_items()[i].spec_key() == flat@[i].key
                    && holder.spec_items()[i].spec_paths() == Seq::<Seq<char>>::empty(),
    {
        let mut items: Vec<CategoryTreeItem> = Vec::new();
        let n = flat.len();
        let mut i: usize = 0;
        while i < n
            invariant
                n == flat@.len(),
                i <= n,
                items@.len() == i as int,
                forall|k: int|
                    0 <= k < i as int ==> (#[trigger] items@[k]).spec_name() == flat@[k].name@
                        && items@[k].spec_key() == flat@[k].key && items@[k].spec_paths()
                        == Seq::<Seq<char>>::empty(),
            decreases n - i,
        {
            let name = flat[i].name.clone();
            let key = flat[i].key;
            items.push(CategoryTreeItem::new(name, key));
            i += 1;
        }
        Self { items, selected_category: None }
    }

    /// The position of the category with this name, scanning in order.
    fn find_item_by_name(&self, category_name: &String) -> (r: Option<usize>)
        ensures
            r matches Some(i) ==> i < self.spec_items().len()
                && self.spec_items()[i as int].spec_name() == category_name@,
            r is None ==> !self.has_category(category_name@),
    {
        let n = self.items.len();
        let mut i: usize = 0;
        while i < n
            invariant
                n == self.items@.len(),
                i <= n,
                forall|k: int|
                    0 <= k < i as int ==> (#[trigger] self.items@[k]).spec_name()
                        != category_name@,
            decreases n - i,
        {
            if self.items[i].name().eq(category_name) {
                return Some(i);
            }
            i += 1;
        }
        None
    }

    /// Records the operator's selection. Selecting a name that no category
    /// carries leaves the store unchanged and reports so.
    pub fn select_category(&mut self, category_name: String) -> (b: bool)
        requires
            old(self).wf(),
        ensures
            final(self).wf(),
            final(self).spec_items() == old(self).spec_items(),
            b == old(self).has_category(category_name@),
            b ==> final(self).spec_selected() == Some(category_name@),
            !b ==> final(self).spec_selected() == old(self).spec_selected(),
    {
        match self.find_item_by_name(&category_name) {
            Some(i) => {
                let ghost w = i as int;
                self.selected_category = Some(category_name);
                proof {
                    assert(self.spec_items()[w].spec_name() == category_name@);
                    assert(self.has_category(category_name@));
                }
                true
            }
            None => false,
        }
    }

    /// Whether the operator has a category selected.
    pub fn is_there_a_selected_category(&self) -> (b: bool)
        ensures
            b == (self.spec_selected() is Some),
    {
        self.selected_category.is_some()
    }

    /// Labels `path` under the selected category and clears the selection;
    /// without a selection the store is unchanged and the call reports so.
    pub fn add_path_to_selected_category(&mut self, path: String) -> (b: bool)
        requires
            old(self).wf(),
        ensures
            final(self).wf(),
            b == (old(self).spec_selected() is Some),
            !b ==> final(self).spec_items() == old(self).spec_items(),
            !b ==> final(self).spec_selected() == old(self).spec_selected(),
            b ==> final(self).spec_selected() is None,
            b ==> exists|i: int|
                0 <= i < old(self).spec_items().len()
                    && (#[trigger] old(self).spec_items()[i]).spec_name() == old(
                    self,
                ).spec_selected().unwrap() && final(self).spec_items() == old(
                    self,
                ).spec_items().update(
                    i,
                    final(self).spec_items()[i],
                ) && final(self).spec_items()[i].spec_name() == old(
                    self,
                ).spec_items()[i].spec_name() && final(self).spec_items()[i].spec_key() == old(
                    self,
                ).spec_items()[i].spec_key() && final(self).spec_items()[i].spec_paths() == old(
                    self,
                ).spec_items()[i].spec_paths().push(path@),
    {
        let selected = self.selected_category.take();
        match selected {
            Some(category) => {
                let i = match self.find_item_by_name(&category) {
                    Some(i) => i,
                    None => {
                        // Unreachable under the invariant: the selection
                        // always names a stored category.
                        proof {
                            assert(false);
                        }
                        return false;
                    }
                };
                let mut item = self.items.remove(i);
                item.add_path(path);
                self.items.insert(i, item);
                proof {
                    assert(self.items@ =~= old(self).items@.update(i as int, self.items@[i as int]));
                }
                true
            }
            None => false,
        }
    }

    /// Every labeled path of every category, in store order. The caller
    /// uses this as the exclusion list for the next session's candidates.
    pub fn get_paths(&self) -> (r: Vec<String>)
        ensures
            r@.map_values(|p: String| p@) == all_paths(self.spec_items(), self.spec_items().len() as int),
    {
        let mut r: Vec<String> = Vec::new();
        let n = self.items.len();
        let mut i: usize = 0;
        while i < n
            invariant
                n == self.items@.len(),
                i <= n,
                r@.map_values(|p: String| p@) == all_paths(self.items@, i as int),
            decreases n - i,
        {
            let ghost before = r@;
            let paths = self.items[i].get_paths();
            let m = paths.len();
            let mut k: usize = 0;
            while k < m
                invariant
                    m == paths@.len(),
                    k <= m,
                    paths@.map_values(|p: String| p@) == self.items@[i as int].spec_paths(),
                    i < self.items@.len(),
                    r@.map_values(|p: String| p@) == before.map_values(|p: String| p@)
                        + self.items@[i as int].spec_paths().take(k as int),
                decreases m - k,
            {
                let ghost rpre = r@;
                r.push(paths[k].clone());
                proof {
                    assert(paths@.map_values(|p: String| p@)[k as int] == paths@[k as int]@);
                    assert(self.items@[i as int].spec_paths()[k as int] == paths@[k as int]@);
                    assert(r@.map_values(|p: String| p@) =~= rpre.map_values(
                        |p: String| p@,
                    ).push(paths@[k as int]@));
                    assert(self.items@[i as int].spec_paths().take(k as int + 1)
                        =~= self.items@[i as int].spec_paths().take(k as int).push(
                        paths@[k as int]@,
                    ));
                    assert(r@.map_values(|p: String| p@) =~= before.map_values(|p: String| p@)
                        + self.items@[i as int].spec_paths().take(k as int + 1));
                }
                k += 1;
            }
            proof {
                assert(self.items@[i as int].spec_paths().take(m as int) =~= self.items@[
                    i as int
                ].spec_paths());
                assert(all_paths(self.items@, i as int + 1) == all_paths(self.items@, i as int)
                    + self.items@[i as int].spec_paths());
                assert(r@.map_values(|p: String| p@) =~= all_paths(self.items@, i as int + 1));
            }
            i += 1;
        }
        r
    }

    /// How many categories are stored.
    pub fn items_len(&self) -> (n: usize)
        ensures
            n == self.spec_items().len(),
    {
        self.items.len()
    }

    /// The category at this position (used when the per-category lists are
    /// written out).
    pub fn item_at(&self, i: usize) -> (r: &CategoryTreeItem)
        requires
            i < self.spec_items().len(),
        ensures
            *r == self.spec_items()[i as int],
    {
        &self.items[i]
    }

    /// Replaces the labeled paths of the named category (used when an
    /// earlier session's lists are loaded back); reports whether the
    /// category exists.
    pub fn load_paths(&mut self, category_name: &String, paths: Vec<String>) -> (b: bool)
        requires
            old(self).wf(),
        ensures
            final(self).wf(),
            final(self).spec_selected() == old(self).spec_selected(),
            b == old(self).has_category(category_name@),
            !b ==> final(self).spec_items() == old(self).spec_items(),
            b ==> exists|i: int|
                0 <= i < old(self).spec_items().len()
                    && (#[trigger] old(self).spec_items()[i]).spec_name() == category_name@
                    && final(self).spec_items() == old(self).spec_items().update(
                    i,
                    final(self).spec_items()[i],
                ) && final(self).spec_items()[i].spec_name() == old(
                    self,
                ).spec_items()[i].spec_name() && final(self).spec_items()[i].spec_key() == old(
                    self,
                ).spec_items()[i].spec_key() && final(self).spec_items()[i].spec_paths()
                    == paths@.map_values(|p: String| p@),
    {
        match self.find_item_by_name(category_name) {
            Some(i) => {
                let mut item = self.items.remove(i);
                item.set_paths(paths);
                self.items.insert(i, item);
                proof {
                    assert(self.items@ =~= old(self).items@.update(i as int, self.items@[i as int]));
                    assert(old(self).has_category(category_name@)) by {
                        assert(old(self).spec_items()[i as int].spec_name() == category_name@);
                    }
                    if old(self).spec_selected() is Some {
                        let nm = old(self).spec_selected().unwrap();
                        let w = choose|w: int|
                            0 <= w < old(self).spec_items().len() && (#[trigger] old(
                                self,
                            ).spec_items()[w]).spec_name() == nm;
                        assert(self.spec_items()[w].spec_name() == nm);
                        assert(self.has_category(nm));
                    }
                }
                true
            }
            None => false,
        }
    }
}

/// The labeled paths of the first `n` categories, concatenated in order.
pub open spec fn all_paths(items: Seq<CategoryTreeItem>, n: int) -> Seq<Seq<char>>
    decreases n,
{
    if n <= 0 || n > items.len() {
        Seq::empty()
    } else {
        all_paths(items, n - 1) + items[n - 1].spec_paths()
    }
}

} // verus!
