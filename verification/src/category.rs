//! Categories: every distinct name gets the next free identifier, counted
//! from zero in the order in which the names are first seen.

use crate::json::{member_values, Json, JsonValue};
use vstd::prelude::*;

verus! {

/// A named group of transactions.
#[derive(Debug)]
pub struct Category {
    pub id: u32,
    pub name: String,
}

/// The mathematical value of a [`Category`].
pub struct CategoryView {
    pub id: u32,
    pub name: Seq<char>,
}

impl View for Category {
    type V = CategoryView;

    open spec fn view(&self) -> CategoryView {
        CategoryView { id: self.id, name: self.name@ }
    }
}

impl DeepView for Category {
    type V = CategoryView;

    open spec fn deep_view(&self) -> CategoryView {
        self@
    }
}

/// The row of a category in the export.
pub open spec fn category_row(category: CategoryView) -> JsonValue {
    JsonValue::Object(
        seq![
            ("id"@, JsonValue::Number(category.id as nat)),
            ("name"@, JsonValue::Text(category.name)),
        ],
    )
}

/// The names after `name` has been looked up: unchanged where `name` is
/// among them, with `name` added at the end where it is not.
pub open spec fn with_name(names: Seq<Seq<char>>, name: Seq<char>) -> Seq<Seq<char>> {
    if names.contains(name) {
        names
    } else {
        names.push(name)
    }
}

/// The categories that stand for a list of distinct names: each name with
/// its place in the list as identifier.
pub open spec fn numbered(names: Seq<Seq<char>>) -> Seq<CategoryView> {
    Seq::new(names.len(), |i: int| CategoryView { id: i as u32, name: names[i] })
}

impl Category {
    /// The row of this category in the export: identifier and name.
    pub fn to_value(&self) -> (row: Json)
        ensures
            row@ == category_row(self@),
    {
        let mut members: Vec<(String, Json)> = Vec::new();
        members.push(("id".to_owned(), Json::number(self.id as u64)));
        members.push(("name".to_owned(), Json::text(self.name.clone())));
        assert(member_values(members@) =~= category_row(self@)->Object_0);
        Json::object(members)
    }
}

/// The categories seen so far, in the order of their identifiers.
#[derive(Debug)]
pub struct CategoryRegistry {
    categories: Vec<Category>,
}

impl View for CategoryRegistry {
    type V = Seq<Seq<char>>;

    /// The names, in the order of their identifiers.
    closed spec fn view(&self) -> Seq<Seq<char>> {
        Seq::new(self.categories.len() as nat, |i: int| self.categories[i].name@)
    }
}

impl CategoryRegistry {
    /// No name occurs twice, every identifier fits in 32 bits and is the
    /// place of its category.
    pub closed spec fn well_formed(&self) -> bool {
        &&& self@.no_duplicates()
        &&& self.categories.len() <= u32::MAX
        &&& forall|i: int|
            0 <= i < self.categories.len() ==> (#[trigger] self.categories[i]).id == i
    }

    /// A registry without categories.
    pub fn new() -> (registry: CategoryRegistry)
        ensures
            registry.well_formed(),
            registry@ == Seq::<Seq<char>>::empty(),
    {
        let registry = CategoryRegistry { categories: Vec::new() };
        assert(registry@ =~= Seq::<Seq<char>>::empty());
        registry
    }

    /// The number of categories.
    pub fn len(&self) -> (count: usize)
        ensures
            count == self@.len(),
    {
        self.categories.len()
    }

    /// The identifier of `name`, which is added as a new category where it
    /// has not been seen before. Names are compared character by character:
    /// names that differ in case are different names.
    pub fn resolve(&mut self, name: &str) -> (id: u32)
        requires
            old(self).well_formed(),
            old(self)@.contains(name@) || old(self)@.len() < u32::MAX,
        ensures
            final(self).well_formed(),
            final(self)@ == with_name(old(self)@, name@),
            id < final(self)@.len(),
            final(self)@[id as int] == name@,
    {
        let wanted = name.to_owned();
        let mut i: usize = 0;
        while i < self.categories.len()
            invariant
                i <= self.categories.len(),
                wanted@ == name@,
                *self == *old(self),
                self.well_formed(),
                forall|j: int| 0 <= j < i ==> self@[j] != name@,
            decreases self.categories.len() - i,
        {
            if self.categories[i].name == wanted {
                assert(self@[i as int] == name@);
                return self.categories[i].id;
            }
            i += 1;
        }
        assert(!self@.contains(name@));
        let id = self.categories.len() as u32;
        let ghost before = self@;
        self.categories.push(Category { id, name: wanted });
        assert(self@ =~= before.push(name@));
        assert(self@.no_duplicates()) by {
            assert forall|a: int, b: int|
                0 <= a < self@.len() && 0 <= b < self@.len() && a != b implies self@[a]
                != self@[b] by {
                if a < before.len() && b < before.len() {
                    assert(before[a] != before[b]);
                } else if a < before.len() {
                    assert(before.contains(before[a]));
                } else {
                    assert(before.contains(before[b]));
                }
            }
        }
        id
    }

    /// The categories, in the order of their identifiers.
    pub fn categories(&self) -> (categories: &Vec<Category>)
        requires
            self.well_formed(),
        ensures
            categories.deep_view() == numbered(self@),
    {
        assert(self.categories.deep_view() =~= numbered(self@));
        &self.categories
    }
}

} // verus!
