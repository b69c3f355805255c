//! Configuration data the surrounding application hands to the pipeline,
//! and the assembly of the candidate path list it is built over.

use vstd::prelude::*;

verus! {

/// Where the candidate image paths come from: a directory to walk, or a
/// CSV manifest (optionally resolved against a root directory).
pub enum Input {
    Dir { root: String },
    Csv { ds: String, root: Option<String> },
}

/// One labeling category: a display name, the key that selects it, and its
/// sub-categories.
pub struct Category {
    pub name: String,
    pub key: char,
    pub sub_categories: Vec<Category>,
}

/// The whole configuration: where the candidate paths come from, where the
/// labeled lists go, and the category tree.
pub struct Config {
    pub input: Input,
    pub output_dir: String,
    pub categories: Vec<Category>,
}

/// A rejected configuration: two categories share a key, or a name occurs
/// more than once. Only these errors may abort pipeline creation.
pub enum ConfigError {
    DuplicateBindings((char, Vec<String>)),
    DuplicateName((String, usize)),
}

/// The name and key of each category, in flattening order: for every
/// category its sub-categories come first (recursively), then the category
/// itself.
pub open spec fn flatten_one(c: Category) -> Seq<(Seq<char>, char)>
    decreases c,
{
    flatten_list(c.sub_categories@, c.sub_categories@.len() as int).push((c.name@, c.key))
}

/// The flattening of the first `n` categories of a list, in order.
pub open spec fn flatten_list(s: Seq<Category>, n: int) -> Seq<(Seq<char>, char)>
    decreases s, n,
{
    if n <= 0 || n > s.len() {
        Seq::empty()
    } else {
        flatten_list(s, n - 1) + flatten_one(s[n - 1])
    }
}

/// The (name, key) view of an already-flat category list.
pub open spec fn cat_views(s: Seq<Category>) -> Seq<(Seq<char>, char)> {
    s.map_values(|c: Category| (c.name@, c.key))
}

/// Whether some name occurs twice in the flattened list.
pub open spec fn has_duplicate_name(s: Seq<(Seq<char>, char)>) -> bool {
    exists|i: int, j: int| 0 <= i < j < s.len() && s[i].0 == s[j].0
}

/// Whether some key occurs twice in the flattened list.
pub open spec fn has_duplicate_key(s: Seq<(Seq<char>, char)>) -> bool {
    exists|i: int, j: int| 0 <= i < j < s.len() && s[i].1 == s[j].1
}

/// How often `name` occurs in the flattened list.
pub open spec fn name_count(s: Seq<(Seq<char>, char)>, name: Seq<char>) -> nat
    decreases s.len(),
{
    if s.len() == 0 {
        0
    } else {
        name_count(s.drop_last(), name) + if s.last().0 == name {
            1nat
        } else {
            0nat
        }
    }
}

/// The names bound to `key`, in list order.
pub open spec fn names_with_key(s: Seq<(Seq<char>, char)>, key: char) -> Seq<Seq<char>>
    decreases s.len(),
{
    if s.len() == 0 {
        Seq::empty()
    } else {
        let rest = names_with_key(s.drop_last(), key);
        if s.last().1 == key {
            rest.push(s.last().0)
        } else {
            rest
        }
    }
}

impl Category {
    /// Appends this category's flattening — sub-categories first, then the
    /// category itself with its sub-categories stripped — to `result`.
    fn flatten_into(&self, result: &mut Vec<Category>)
        ensures
            cat_views(final(result)@) == cat_views(old(result)@) + flatten_one(*self),
        decreases *self,
    {
        let ghost pre = result@;
        let n = self.sub_categories.len();
        let mut i: usize = 0;
        while i < n
            invariant
                n == self.sub_categories@.len(),
                i <= n,
                cat_views(result@) == cat_views(pre) + flatten_list(
                    self.sub_categories@,
                    i as int,
                ),
            decreases n - i,
        {
            self.sub_categories[i].flatten_into(result);
            proof {
                assert(flatten_list(self.sub_categories@, i as int + 1) == flatten_list(
                    self.sub_categories@,
                    i as int,
                ) + flatten_one(self.sub_categories@[i as int]));
                assert(cat_views(result@) =~= cat_views(pre) + flatten_list(
                    self.sub_categories@,
                    i as int + 1,
                ));
            }
            i += 1;
        }
        let ghost before_push = result@;
        result.push(Category { name: self.name.clone(), key: self.key, sub_categories: Vec::new() });
        proof {
            assert(cat_views(result@) =~= cat_views(before_push).push((self.name@, self.key)));
            assert(cat_views(result@) =~= cat_views(pre) + flatten_one(*self));
        }
    }
}

impl Config {
    /// The flat category list: every category of the tree exactly once, in
    /// flattening order, each with its sub-categories stripped.
    pub fn flatten_categories(&self) -> (flat: Vec<Category>)
        ensures
            cat_views(flat@) == flatten_list(self.categories@, self.categories@.len() as int),
    {
        let mut flat: Vec<Category> = Vec::new();
        let n = self.categories.len();
        let mut i: usize = 0;
        while i < n
            invariant
                n == self.categories@.len(),
                i <= n,
                cat_views(flat@) == flatten_list(self.categories@, i as int),
            decreases n - i,
        {
            self.categories[i].flatten_into(&mut flat);
            proof {
                assert(flatten_list(self.categories@, i as int + 1) == flatten_list(
                    self.categories@,
                    i as int,
                ) + flatten_one(self.categories@[i as int]));
                assert(cat_views(flat@) =~= flatten_list(self.categories@, i as int + 1));
            }
            i += 1;
        }
        flat
    }

    /// Rejects a flat category list in which two categories carry the same
    /// name; the error reports a duplicated name and exactly how often it
    /// occurs.
    pub fn check_name_uniqueness(categories: &Vec<Category>) -> (r: Result<(), ConfigError>)
        ensures
            r is Ok <==> !has_duplicate_name(cat_views(categories@)),
            r matches Err(e) ==> (e matches ConfigError::DuplicateName(dup) && (exists|i: int, j: int|
                0 <= i < j < cat_views(categories@).len() && cat_views(categories@)[i].0
                    == cat_views(categories@)[j].0 && cat_views(categories@)[i].0 == dup.0@) && dup.1
                == name_count(cat_views(categories@), dup.0@)),
    {
        let ghost s = cat_views(categories@);
        let n = categories.len();
        let mut i: usize = 0;
        while i < n
            invariant
                n == categories@.len(),
                i <= n,
                s == cat_views(categories@),
                forall|a: int, b: int| 0 <= a < i as int && a < b < n as int ==> s[a].0 != s[b].0,
            decreases n - i,
        {
            let mut j: usize = i + 1;
            while j < n
                invariant
                    n == categories@.len(),
                    i < n,
                    i as int + 1 <= j as int && j as int <= n as int,
                    s == cat_views(categories@),
                    forall|b: int| (i as int) < b && b < j as int ==> s[i as int].0 != s[b].0,
                decreases n - j,
            {
                if categories[j].name.eq(&categories[i].name) {
                    proof {
                        assert(s[i as int].0 == categories@[i as int].name@);
                        assert(s[j as int].0 == categories@[j as int].name@);
                        assert(0 <= i as int && (i as int) < j as int && (j as int) < s.len() && s[i as int].0 == s[j as int].0);
                    }
                    let count = count_name(categories, &categories[i].name);
                    let name = categories[i].name.clone();
                    return Err(ConfigError::DuplicateName((name, count)));
                }
                j += 1;
            }
            i += 1;
        }
        Ok(())
    }

    /// Rejects a flat category list in which two categories share a key;
    /// the error reports a duplicated key and the names of all the
    /// categories bound to it, in list order.
    pub fn check_key_uniqueness(categories: &Vec<Category>) -> (r: Result<(), ConfigError>)
        ensures
            r is Ok <==> !has_duplicate_key(cat_views(categories@)),
            r matches Err(e) ==> (e matches ConfigError::DuplicateBindings(dup) && (exists|
                i: int,
                j: int,
            |
                0 <= i < j < cat_views(categories@).len() && cat_views(categories@)[i].1
                    == cat_views(categories@)[j].1 && cat_views(categories@)[i].1 == dup.0)
                && dup.1@.map_values(|nm: String| nm@) == names_with_key(
                cat_views(categories@),
                dup.0,
            )),
    {
        let ghost s = cat_views(categories@);
        let n = categories.len();
        let mut i: usize = 0;
        while i < n
            invariant
                n == categories@.len(),
                i <= n,
                s == cat_views(categories@),
                forall|a: int, b: int| 0 <= a < i as int && a < b < n as int ==> s[a].1 != s[b].1,
            decreases n - i,
        {
            let mut j: usize = i + 1;
            while j < n
                invariant
                    n == categories@.len(),
                    i < n,
                    i as int + 1 <= j as int && j as int <= n as int,
                    s == cat_views(categories@),
                    forall|b: int| (i as int) < b && b < j as int ==> s[i as int].1 != s[b].1,
                decreases n - j,
            {
                if categories[j].key == categories[i].key {
                    proof {
                        assert(s[i as int].1 == categories@[i as int].key);
                        assert(s[j as int].1 == categories@[j as int].key);
                        assert(0 <= i as int && (i as int) < j as int && (j as int) < s.len() && s[i as int].1 == s[j as int].1);
                    }
                    let key = categories[i].key;
                    let names = collect_names_with_key(categories, key);
                    return Err(ConfigError::DuplicateBindings((key, names)));
                }
                j += 1;
            }
            i += 1;
        }
        Ok(())
    }

    /// The validation the configuration must pass before the pipeline is
    /// built: over the flattened category list, names are unique and keys
    /// are unique. The name check runs first.
    pub fn validate(&self) -> (r: Result<(), ConfigError>)
        ensures
            ({
                let flat = flatten_list(self.categories@, self.categories@.len() as int);
                &&& r is Ok <==> (!has_duplicate_name(flat) && !has_duplicate_key(flat))
                &&& (r matches Err(e) ==> match e {
                    ConfigError::DuplicateName(dup) => has_duplicate_name(flat) && dup.1
                        == name_count(flat, dup.0@),
                    ConfigError::DuplicateBindings(dup) => !has_duplicate_name(flat)
                        && has_duplicate_key(flat) && dup.1@.map_values(|nm: String| nm@)
                        == names_with_key(flat, dup.0),
                })
            }),
    {
        let flat = self.flatten_categories();
        match Self::check_name_uniqueness(&flat) {
            Ok(()) => {}
            Err(e) => {
                return Err(e);
            }
        }
        match Self::check_key_uniqueness(&flat) {
            Ok(()) => {}
            Err(e) => {
                return Err(e);
            }
        }
        Ok(())
    }
}

/// How often this name occurs in the flat list.
fn count_name(categories: &Vec<Category>, name: &String) -> (count: usize)
    ensures
        count == name_count(cat_views(categories@), name@),
{
    let ghost s = cat_views(categories@);
    let n = categories.len();
    let mut count: usize = 0;
    let mut k: usize = 0;
    while k < n
        invariant
            n == categories@.len(),
            k <= n,
            s == cat_views(categories@),
            count as int == name_count(s.take(k as int), name@),
            count <= k,
        decreases n - k,
    {
        if categories[k].name.eq(name) {
            count += 1;
        }
        proof {
            assert(s.take(k as int + 1).drop_last() =~= s.take(k as int));
        }
        k += 1;
    }
    proof {
        assert(s.take(n as int) =~= s);
    }
    count
}

/// The names bound to this key in the flat list, in list order.
fn collect_names_with_key(categories: &Vec<Category>, key: char) -> (names: Vec<String>)
    ensures
        names@.map_values(|nm: String| nm@) == names_with_key(cat_views(categories@), key),
{
    let ghost s = cat_views(categories@);
    let n = categories.len();
    let mut names: Vec<String> = Vec::new();
    let mut k: usize = 0;
    while k < n
        invariant
            n == categories@.len(),
            k <= n,
            s == cat_views(categories@),
            names@.map_values(|nm: String| nm@) == names_with_key(s.take(k as int), key),
        decreases n - k,
    {
        if categories[k].key == key {
            names.push(categories[k].name.clone());
        }
        proof {
            assert(s.take(k as int + 1).drop_last() =~= s.take(k as int));
            assert(s.take(k as int + 1).last() == s[k as int]);
            if categories@[k as int].key == key {
                assert(names@.map_values(|nm: String| nm@) =~= names_with_key(
                    s.take(k as int + 1),
                    key,
                ));
            }
        }
        k += 1;
    }
    proof {
        assert(s.take(n as int) =~= s);
    }
    names
}

/// Whether `p` occurs in the list `excl`.
pub open spec fn contains_path(excl: Seq<Seq<char>>, p: Seq<char>) -> bool {
    exists|k: int| 0 <= k < excl.len() && excl[k] == p
}

/// The candidate list with every already-categorized path removed, order
/// otherwise preserved.
pub open spec fn kept_list(cands: Seq<Seq<char>>, excl: Seq<Seq<char>>) -> Seq<Seq<char>>
    decreases cands.len(),
{
    if cands.len() == 0 {
        Seq::empty()
    } else {
        let rest = kept_list(cands.drop_last(), excl);
        if contains_path(excl, cands.last()) {
            rest
        } else {
            rest.push(cands.last())
        }
    }
}

/// Whether this candidate is already categorized and must be left out.
fn is_excluded(exclude: &Vec<String>, p: &String) -> (b: bool)
    ensures
        b == contains_path(exclude@.map_values(|s: String| s@), p@),
{
    let ghost views = exclude@.map_values(|s: String| s@);
    let n = exclude.len();
    let mut k: usize = 0;
    while k < n
        invariant
            n == exclude@.len(),
            k <= n,
            views == exclude@.map_values(|s: String| s@),
            forall|j: int| 0 <= j < k as int ==> views[j] != p@,
        decreases n - k,
    {
        if exclude[k].eq(p) {
            proof {
                assert(views[k as int] == exclude@[k as int]@);
            }
            return true;
        }
        k += 1;
    }
    false
}

/// Builds the pipeline's path list: keeps the enumerated candidates in
/// their original order, dropping exactly those that were already
/// categorized. Enumeration itself (directory walk or CSV manifest) is the
/// surrounding application's concern; this is the filtering decision.
pub fn make_image_list(candidates: Vec<String>, exclude: &Vec<String>) -> (kept: Vec<String>)
    ensures
        kept@.map_values(|s: String| s@) == kept_list(
            candidates@.map_values(|s: String| s@),
            exclude@.map_values(|s: String| s@),
        ),
{
    let ghost cviews = candidates@.map_values(|s: String| s@);
    let ghost eviews = exclude@.map_values(|s: String| s@);
    let n = candidates.len();
    let mut kept: Vec<String> = Vec::new();
    let mut i: usize = 0;
    while i < n
        invariant
            n == candidates@.len(),
            i <= n,
            cviews == candidates@.map_values(|s: String| s@),
            eviews == exclude@.map_values(|s: String| s@),
            kept@.map_values(|s: String| s@) == kept_list(cviews.take(i as int), eviews),
        decreases n - i,
    {
        let ghost pre_kept = kept@.map_values(|s: String| s@);
        let keep = !is_excluded(exclude, &candidates[i]);
        if keep {
            let p = candidates[i].clone();
            kept.push(p);
        }
        proof {
            let t = cviews.take(i as int + 1);
            assert(t.drop_last() =~= cviews.take(i as int));
            assert(t.last() == cviews[i as int]);
            assert(kept@.map_values(|s: String| s@) =~= if keep {
                pre_kept.push(cviews[i as int])
            } else {
                pre_kept
            });
        }
        i += 1;
    }
    proof {
        assert(cviews.take(n as int) =~= cviews);
    }
    kept
}

} // verus!
