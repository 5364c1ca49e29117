//! The query engine: exclusive owner of the live catalog and the
//! filter settings. Every change to the search text or a toggle
//! re-evaluates the visible, ordered subset, whose indices consumers
//! read as immutable snapshots alongside the visible and total counts.

use vstd::prelude::*;

use crate::alias::AliasBatch;
use crate::alias::batch_names;
use crate::alias::is_entry_index;
use crate::alias::with_alias_target;
use crate::icon::IconData;
use crate::icon::IconView;
use crate::icon::dedup_first;
use crate::query::FilterMode;
use crate::query::QuerySettings;
use crate::query::QueryView;
use crate::query::cycle_filter_mode;
use crate::query::run_query;
use crate::query::spec_query;
use crate::text::contains_string;
use crate::text::str_eq;

verus! {

/// The engine: the catalog records, the live settings, the currently
/// visible ordered subset (as catalog indices), and the selection.
pub struct QueryEngine {
    pub catalog: Vec<IconData>,
    pub settings: QuerySettings,
    pub visible: Vec<usize>,
    pub selected: usize,
}

impl QueryEngine {
    /// The visible subset is exactly the query result for the current
    /// catalog and settings, and its indices lie inside the catalog.
    pub open spec fn synced(&self) -> bool {
        &&& self.visible@ == spec_query(self.catalog.deep_view(), self.settings@)
        &&& forall|k: int|
            0 <= k < self.visible@.len() ==> #[trigger] self.visible@[k] < self.catalog@.len()
    }

    /// Builds the engine around a catalog, with the default settings,
    /// and evaluates the first visible subset.
    pub fn new(catalog: Vec<IconData>) -> (r: QueryEngine)
        ensures
            r.catalog@ == catalog@,
            r.settings@.search_text.len() == 0,
            r.settings@.include_tags_in_search,
            r.settings@.symlink_mode == FilterMode::Not,
            r.settings@.symbolic_mode == FilterMode::Either,
            !r.settings@.display_invalid_symlinks,
            r.settings@.included_tags.len() == 0,
            r.settings@.included_categories == crate::query::known_category_prefixes().push(
                "unknown"@,
            ),
            r.selected == 0,
            r.synced(),
    {
        let settings = QuerySettings::new();
        let visible = run_query(&catalog, &settings);
        QueryEngine { catalog, settings, visible, selected: 0 }
    }

    /// Re-evaluates the visible subset against the current settings.
    fn refresh(&mut self)
        ensures
            final(self).catalog@ == old(self).catalog@,
            final(self).settings@ == old(self).settings@,
            final(self).selected == old(self).selected,
            final(self).synced(),
    {
        self.visible = run_query(&self.catalog, &self.settings);
    }

    /// The visible count and the total catalog count, reported after
    /// every re-evaluation.
    pub fn counts(&self) -> (r: (usize, usize))
        ensures
            r.0 == self.visible@.len(),
            r.1 == self.catalog@.len(),
    {
        (self.visible.len(), self.catalog.len())
    }

    /// The visible subset, as catalog indices in display order.
    pub fn visible_index(&self, position: usize) -> (r: usize)
        requires
            position < self.visible@.len(),
        ensures
            r == self.visible@[position as int],
    {
        self.visible[position]
    }

    /// Selects a display position.
    pub fn set_selected(&mut self, selected: usize)
        ensures
            final(self).selected == selected,
            final(self).catalog@ == old(self).catalog@,
            final(self).settings@ == old(self).settings@,
            final(self).visible@ == old(self).visible@,
    {
        self.selected = selected;
    }

    /// The record at the selected display position, if one is visible
    /// there. On an engine whose visible subset is in sync the index
    /// read from it always lies inside the catalog.
    pub fn get_selected_icon(&self) -> (r: Option<IconData>)
        ensures
            self.selected < self.visible@.len() && self.visible@[self.selected as int]
                < self.catalog@.len() ==> (r matches Option::Some(rec) && rec@
                == self.catalog.deep_view()[self.visible@[self.selected as int] as int]),
            self.selected >= self.visible@.len() || self.visible@[self.selected as int]
                >= self.catalog@.len() ==> r is None,
    {
        if self.selected < self.visible.len() {
            let idx = self.visible[self.selected];
            if idx < self.catalog.len() {
                Option::Some(self.catalog[idx].duplicate())
            } else {
                Option::None
            }
        } else {
            Option::None
        }
    }

    /// The record at the selected display position (the reading a
    /// consumer uses on activation).
    pub fn selected_icon(&self) -> (r: Option<IconData>)
        ensures
            self.selected < self.visible@.len() && self.visible@[self.selected as int]
                < self.catalog@.len() ==> (r matches Option::Some(rec) && rec@
                == self.catalog.deep_view()[self.visible@[self.selected as int] as int]),
            self.selected >= self.visible@.len() || self.visible@[self.selected as int]
                >= self.catalog@.len() ==> r is None,
    {
        self.get_selected_icon()
    }

    /// Replaces the search text and re-evaluates.
    pub fn set_search_text(&mut self, text: String)
        ensures
            final(self).settings@ == (QueryView { search_text: text@, ..old(self).settings@ }),
            final(self).catalog@ == old(self).catalog@,
            final(self).selected == old(self).selected,
            final(self).synced(),
    {
        self.settings.search_text = text;
        self.refresh();
    }

    /// Switches whether the fuzzy match covers the tags too, and
    /// re-evaluates.
    pub fn set_include_tags_in_search(&mut self, value: bool)
        ensures
            final(self).settings@ == (QueryView {
                include_tags_in_search: value,
                ..old(self).settings@
            }),
            final(self).catalog@ == old(self).catalog@,
            final(self).selected == old(self).selected,
            final(self).synced(),
    {
        self.settings.include_tags_in_search = value;
        self.refresh();
    }

    /// Replaces the required-tag set and re-evaluates.
    pub fn set_included_tags(&mut self, tags: Vec<String>)
        ensures
            final(self).settings@ == (QueryView {
                included_tags: tags.deep_view(),
                ..old(self).settings@
            }),
            final(self).catalog@ == old(self).catalog@,
            final(self).selected == old(self).selected,
            final(self).synced(),
    {
        self.settings.included_tags = tags;
        self.refresh();
    }

    /// Replaces the included-category set, keeping each category once,
    /// and re-evaluates.
    pub fn set_included_categories(&mut self, categories: Vec<String>)
        ensures
            final(self).settings@ == (QueryView {
                included_categories: dedup_first(categories.deep_view()),
                ..old(self).settings@
            }),
            final(self).catalog@ == old(self).catalog@,
            final(self).selected == old(self).selected,
            final(self).synced(),
    {
        self.settings.included_categories = dedup_strings(&categories);
        self.refresh();
    }

    /// Sets the symlink filter mode and re-evaluates.
    pub fn set_symlink_filter_mode(&mut self, mode: FilterMode)
        ensures
            final(self).settings@ == (QueryView { symlink_mode: mode, ..old(self).settings@ }),
            final(self).catalog@ == old(self).catalog@,
            final(self).selected == old(self).selected,
            final(self).synced(),
    {
        self.settings.symlink_mode = mode;
        self.refresh();
    }

    /// Sets the symbolic filter mode and re-evaluates.
    pub fn set_symbolic_filter_mode(&mut self, mode: FilterMode)
        ensures
            final(self).settings@ == (QueryView { symbolic_mode: mode, ..old(self).settings@ }),
            final(self).catalog@ == old(self).catalog@,
            final(self).selected == old(self).selected,
            final(self).synced(),
    {
        self.settings.symbolic_mode = mode;
        self.refresh();
    }

    /// One user toggle on the symlink filter: advances the mode
    /// through `Is -> Not -> Either -> Is` and re-evaluates.
    pub fn symlink_toggled(&mut self)
        ensures
            final(self).settings@ == (QueryView {
                symlink_mode: match old(self).settings@.symlink_mode {
                    FilterMode::Is => FilterMode::Not,
                    FilterMode::Not => FilterMode::Either,
                    FilterMode::Either => FilterMode::Is,
                },
                ..old(self).settings@
            }),
            final(self).catalog@ == old(self).catalog@,
            final(self).selected == old(self).selected,
            final(self).synced(),
    {
        let mode = cycle_filter_mode(self.settings.symlink_mode);
        self.set_symlink_filter_mode(mode);
    }

    /// One user toggle on the symbolic filter.
    pub fn symbolic_toggled(&mut self)
        ensures
            final(self).settings@ == (QueryView {
                symbolic_mode: match old(self).settings@.symbolic_mode {
                    FilterMode::Is => FilterMode::Not,
                    FilterMode::Not => FilterMode::Either,
                    FilterMode::Either => FilterMode::Is,
                },
                ..old(self).settings@
            }),
            final(self).catalog@ == old(self).catalog@,
            final(self).selected == old(self).selected,
            final(self).synced(),
    {
        let mode = cycle_filter_mode(self.settings.symbolic_mode);
        self.set_symbolic_filter_mode(mode);
    }

    /// Switches whether dangling symlinks stay visible under the `Not`
    /// symlink mode, and re-evaluates.
    pub fn set_display_invalid_symlinks(&mut self, value: bool)
        ensures
            final(self).settings@ == (QueryView {
                display_invalid_symlinks: value,
                ..old(self).settings@
            }),
            final(self).catalog@ == old(self).catalog@,
            final(self).selected == old(self).selected,
            final(self).synced(),
    {
        self.settings.display_invalid_symlinks = value;
        self.refresh();
    }

    /// Adds one category to the included set, keeping each category
    /// once, and re-evaluates.
    pub fn add_category(&mut self, category: String)
        ensures
            final(self).settings@ == (QueryView {
                included_categories: dedup_first(
                    old(self).settings@.included_categories.push(category@),
                ),
                ..old(self).settings@
            }),
            final(self).catalog@ == old(self).catalog@,
            final(self).selected == old(self).selected,
            final(self).synced(),
    {
        let ghost old_cats = self.settings@.included_categories;
        self.settings.included_categories.push(category);
        proof {
            assert(self.settings@.included_categories =~= old_cats.push(category@));
        }
        let deduped = dedup_strings(&self.settings.included_categories);
        self.settings.included_categories = deduped;
        self.refresh();
    }

    /// Removes every occurrence of one category from the included set
    /// and re-evaluates.
    pub fn remove_category(&mut self, category: &str)
        ensures
            final(self).settings@ == (QueryView {
                included_categories: old(self).settings@.included_categories.filter(
                    |c: Seq<char>| c != category@,
                ),
                ..old(self).settings@
            }),
            final(self).catalog@ == old(self).catalog@,
            final(self).selected == old(self).selected,
            final(self).synced(),
    {
        let ghost cats = self.settings@.included_categories;
        let mut kept: Vec<String> = Vec::new();
        let mut i: usize = 0;
        proof {
            assert(cats.take(0) =~= Seq::<Seq<char>>::empty());
            assert(kept.deep_view() =~= cats.take(0).filter(|c: Seq<char>| c != category@));
        }
        while i < self.settings.included_categories.len()
            invariant
                0 <= i <= self.settings.included_categories@.len(),
                self == old(self),
                cats == self.settings@.included_categories,
                cats.len() == self.settings.included_categories@.len(),
                forall|m: int|
                    0 <= m < cats.len() ==> cats[m]
                        == #[trigger] self.settings.included_categories@[m]@,
                kept.deep_view() == cats.take(i as int).filter(|c: Seq<char>| c != category@),
            decreases self.settings.included_categories@.len() - i,
        {
            proof {
                reveal(Seq::filter);
                assert(cats.take(i + 1).drop_last() =~= cats.take(i as int));
                assert(cats.take(i + 1).last() == cats[i as int]);
            }
            if !str_eq(self.settings.included_categories[i].as_str(), category) {
                let ghost old_dv = kept.deep_view();
                kept.push(self.settings.included_categories[i].clone());
                proof {
                    assert(kept.deep_view() =~= old_dv.push(cats[i as int]));
                }
            }
            i = i + 1;
        }
        proof {
            assert(cats.take(cats.len() as int) =~= cats);
        }
        self.settings.included_categories = kept;
        self.refresh();
    }

    /// Applies one resolver batch to the catalog (see
    /// `alias::apply_alias_batch`) and re-evaluates, so a later
    /// re-filter sees the fully updated records.
    pub fn apply_batch(&mut self, batch: &AliasBatch)
        requires
            batch.target_index < old(self).catalog@.len(),
            forall|k: int|
                0 <= k < batch@.aliases.len() ==> #[trigger] batch@.aliases[k].index < old(
                    self,
                ).catalog@.len() && batch@.aliases[k].index != batch.target_index,
            forall|k1: int, k2: int|
                0 <= k1 < k2 < batch@.aliases.len() ==> #[trigger] batch@.aliases[k1].index
                    != #[trigger] batch@.aliases[k2].index,
        ensures
            final(self).catalog@.len() == old(self).catalog@.len(),
            final(self).catalog.deep_view()[batch.target_index as int] == (IconView {
                aliases: dedup_first(
                    old(self).catalog.deep_view()[batch.target_index as int].aliases
                        + batch_names(batch@.aliases),
                ),
                ..old(self).catalog.deep_view()[batch.target_index as int]
            }),
            forall|k: int|
                0 <= k < batch@.aliases.len() ==> final(self).catalog.deep_view()[
                    #[trigger] batch@.aliases[k].index as int
                ] == with_alias_target(
                    old(self).catalog.deep_view()[batch@.aliases[k].index as int],
                    batch.target_index,
                ),
            forall|i: int|
                0 <= i < old(self).catalog@.len() && i != batch.target_index && !is_entry_index(
                    batch@.aliases,
                    i,
                ) ==> final(self).catalog.deep_view()[i] == old(self).catalog.deep_view()[i],
            final(self).settings@ == old(self).settings@,
            final(self).selected == old(self).selected,
            final(self).synced(),
    {
        crate::alias::apply_alias_batch(&mut self.catalog, batch);
        self.refresh();
    }
}

/// A copy of the strings with every later duplicate removed.
pub fn dedup_strings(v: &Vec<String>) -> (r: Vec<String>)
    ensures
        r.deep_view() == dedup_first(v.deep_view()),
{
    let ghost dv = v.deep_view();
    let mut out: Vec<String> = Vec::new();
    let mut i: usize = 0;
    proof {
        assert(dv.take(0) =~= Seq::<Seq<char>>::empty());
        assert(out.deep_view() =~= dedup_first(dv.take(0)));
    }
    while i < v.len()
        invariant
            0 <= i <= v@.len(),
            dv == v.deep_view(),
            dv.len() == v@.len(),
            forall|m: int| 0 <= m < v@.len() ==> dv[m] == #[trigger] v@[m]@,
            out.deep_view() == dedup_first(dv.take(i as int)),
            forall|x: Seq<char>| out.deep_view().contains(x) <==> dv.take(i as int).contains(x),
        decreases v@.len() - i,
    {
        let seen = contains_string(&out, v[i].as_str());
        let ghost cur = dv[i as int];
        proof {
            assert(dv.take(i + 1).drop_last() =~= dv.take(i as int));
            assert(dv.take(i + 1).last() == cur);
        }
        if !seen {
            let ghost old_dv = out.deep_view();
            out.push(v[i].clone());
            proof {
                assert(out.deep_view() =~= old_dv.push(cur));
                assert forall|x: Seq<char>|
                    out.deep_view().contains(x) <==> dv.take(i + 1).contains(x) by {
                    crate::text::lemma_push_contains(old_dv, cur, x);
                    crate::text::lemma_take_succ_contains(dv, i as int, x);
                }
            }
        } else {
            proof {
                assert forall|x: Seq<char>|
                    out.deep_view().contains(x) <==> dv.take(i + 1).contains(x) by {
                    crate::text::lemma_take_succ_contains(dv, i as int, x);
                }
            }
        }
        i = i + 1;
    }
    proof {
        assert(dv.take(dv.len() as int) =~= dv);
    }
    out
}

} // verus!
