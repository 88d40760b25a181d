//! A user's browsing settings.

use crate::db::ModQueryOptions;
use crate::mods::Category;
use crate::text::holds_text;
use crate::text::texts_of;
use vstd::prelude::*;

verus! {

/// The name of the cookie that keeps the settings.
pub const SETTINGS_COOKIE: &'static str = "lcmt-settings";

/// What a user wants left out of, and let into, the mods shown.
#[derive(Debug)]
pub struct Settings {
    /// The names of the categories whose mods are left out.
    pub excluded_category: Vec<String>,
    pub include_nsfw: bool,
    pub include_deprecated: bool,
}

impl Default for Settings {
    fn default() -> (settings: Settings)
        ensures
            settings.excluded_category@.len() == 0,
            !settings.include_nsfw,
            !settings.include_deprecated,
    {
        Settings { excluded_category: Vec::new(), include_nsfw: false, include_deprecated: false }
    }
}

impl Settings {
    /// The options of the browsing query that these settings ask for, for at
    /// most `limit` mods.
    pub fn query_options(&self, limit: i32) -> (options: ModQueryOptions)
        ensures
            texts_of(options.ignored_categories@) == texts_of(self.excluded_category@),
            options.limit == limit,
            options.include_deprecated == self.include_deprecated,
            options.include_nsfw == self.include_nsfw,
    {
        let mut ignored: Vec<String> = Vec::new();
        let mut i: usize = 0;
        while i < self.excluded_category.len()
            invariant
                i <= self.excluded_category@.len(),
                ignored@.len() == i,
                forall|k: int| 0 <= k < i ==> ignored@[k]@ == self.excluded_category@[k]@,
            decreases self.excluded_category@.len() - i,
        {
            ignored.push(self.excluded_category[i].clone());
            i += 1;
        }
        proof {
            assert(texts_of(ignored@) =~= texts_of(self.excluded_category@));
        }
        ModQueryOptions {
            ignored_categories: ignored,
            limit,
            include_deprecated: self.include_deprecated,
            include_nsfw: self.include_nsfw,
        }
    }
}

/// One category on the settings page: ticked where the user leaves it out.
#[derive(Debug)]
pub struct CategoryCheckbox {
    pub name: String,
    pub id: i32,
    pub checked: bool,
}

impl CategoryCheckbox {
    /// The checkbox of a category.
    pub fn new(category: Category, checked: bool) -> (checkbox: CategoryCheckbox)
        ensures
            checkbox.name == category.name,
            checkbox.id == category.id,
            checkbox.checked == checked,
    {
        CategoryCheckbox { name: category.name, id: category.id, checked }
    }
}

/// The checkboxes of the settings page: one for each category, in order,
/// ticked where the settings leave the category out.
pub fn category_checkboxes(categories: &Vec<Category>, settings: &Settings) -> (checkboxes: Vec<
    CategoryCheckbox,
>)
    ensures
        checkboxes@.len() == categories@.len(),
        forall|i: int|
            0 <= i < checkboxes@.len() ==> (#[trigger] checkboxes@[i]).name@
                == categories@[i].name@ && checkboxes@[i].id == categories@[i].id
                && checkboxes@[i].checked == texts_of(settings.excluded_category@).contains(
                categories@[i].name@,
            ),
{
    let mut checkboxes: Vec<CategoryCheckbox> = Vec::new();
    let mut i: usize = 0;
    while i < categories.len()
        invariant
            i <= categories@.len(),
            checkboxes@.len() == i,
            forall|k: int|
                0 <= k < i ==> (#[trigger] checkboxes@[k]).name@ == categories@[k].name@
                    && checkboxes@[k].id == categories@[k].id && checkboxes@[k].checked
                    == texts_of(settings.excluded_category@).contains(categories@[k].name@),
        decreases categories@.len() - i,
    {
        let checked = holds_text(&settings.excluded_category, categories[i].name.as_str());
        checkboxes.push(CategoryCheckbox::new(categories[i].clone(), checked));
        i += 1;
    }
    checkboxes
}

} // verus!
