//! The query pipeline: the composable filter predicate over the
//! catalog, the filter settings it reads, and the evaluation that
//! produces the currently visible, currently ordered subset.
//!
//! All filter axes must pass: the fuzzy text match, the three-valued
//! symlink and symbolic modes, the required-tag set, and the category
//! prefixes. The visible indices are then ranked (see `rank`).

use vstd::prelude::*;
use vstd::string::StringExecFns;

use crate::fuzzy::fuzzy_score;
use crate::fuzzy::fuzzy_match;
use crate::icon::IconData;
use crate::icon::IconView;
use crate::rank::rank_indices;
use crate::rank::sort_indices;
use crate::text::contains_string;
use crate::text::join_spaces;
use crate::text::join_with_spaces;
use crate::text::lower_seq;
use crate::text::starts_with_folded;
use crate::text::str_le;

verus! {

/// One three-valued filter axis: require the property, require its
/// absence, or ignore it.
#[derive(Clone, Copy, Debug, PartialEq, Eq, Structural)]
pub enum FilterMode {
    Is,
    Not,
    Either,
}

/// One user toggle action advances the mode through
/// `Is -> Not -> Either -> Is`.
pub fn cycle_filter_mode(mode: FilterMode) -> (r: FilterMode)
    ensures
        mode == FilterMode::Is ==> r == FilterMode::Not,
        mode == FilterMode::Not ==> r == FilterMode::Either,
        mode == FilterMode::Either ==> r == FilterMode::Is,
{
    match mode {
        FilterMode::Is => FilterMode::Not,
        FilterMode::Not => FilterMode::Either,
        FilterMode::Either => FilterMode::Is,
    }
}

/// How a check box shows a mode: checked for `Is`, inconsistent for
/// `Either`, clear for `Not`.
pub fn filter_mode_check_state(mode: FilterMode) -> (r: (bool, bool))
    ensures
        r.0 == (mode == FilterMode::Is),
        r.1 == (mode == FilterMode::Either),
{
    (mode == FilterMode::Is, mode == FilterMode::Either)
}

/// The category prefixes the catalog knows about.
pub open spec fn known_category_prefixes() -> Seq<Seq<char>> {
    seq![
        "actions"@,
        "animations"@,
        "apps"@,
        "categories"@,
        "devices"@,
        "emblems"@,
        "emotes"@,
        "intl"@,
        "mimetypes"@,
        "places"@,
        "status"@,
    ]
}

/// The known category prefixes as strings.
pub fn category_prefixes() -> (r: Vec<String>)
    ensures
        r.deep_view() == known_category_prefixes(),
{
    let mut r: Vec<String> = Vec::new();
    r.push(String::from_str("actions"));
    r.push(String::from_str("animations"));
    r.push(String::from_str("apps"));
    r.push(String::from_str("categories"));
    r.push(String::from_str("devices"));
    r.push(String::from_str("emblems"));
    r.push(String::from_str("emotes"));
    r.push(String::from_str("intl"));
    r.push(String::from_str("mimetypes"));
    r.push(String::from_str("places"));
    r.push(String::from_str("status"));
    proof {
        assert(r.deep_view() =~= known_category_prefixes());
    }
    r
}

/// The default included-category set: every known prefix plus the
/// synthetic `unknown` category.
pub fn default_included_categories() -> (r: Vec<String>)
    ensures
        r.deep_view() == known_category_prefixes().push("unknown"@),
{
    let mut r = category_prefixes();
    r.push(String::from_str("unknown"));
    proof {
        assert(r.deep_view() =~= known_category_prefixes().push("unknown"@));
    }
    r
}

/// The live filter settings of the query engine.
pub struct QuerySettings {
    /// The incremental search text.
    pub search_text: String,
    /// Whether the fuzzy match also considers the joined tags.
    pub include_tags_in_search: bool,
    /// The three-valued symlink filter.
    pub symlink_mode: FilterMode,
    /// The three-valued symbolic filter.
    pub symbolic_mode: FilterMode,
    /// Whether symlinks without a resolved target stay visible under
    /// the `Not` symlink mode.
    pub display_invalid_symlinks: bool,
    /// Tags that must all be present on a record.
    pub included_tags: Vec<String>,
    /// Category prefixes of which one must match, or `unknown`.
    pub included_categories: Vec<String>,
}

/// The mathematical model of the settings.
pub ghost struct QueryView {
    pub search_text: Seq<char>,
    pub include_tags_in_search: bool,
    pub symlink_mode: FilterMode,
    pub symbolic_mode: FilterMode,
    pub display_invalid_symlinks: bool,
    pub included_tags: Seq<Seq<char>>,
    pub included_categories: Seq<Seq<char>>,
}

impl View for QuerySettings {
    type V = QueryView;

    open spec fn view(&self) -> QueryView {
        QueryView {
            search_text: self.search_text@,
            include_tags_in_search: self.include_tags_in_search,
            symlink_mode: self.symlink_mode,
            symbolic_mode: self.symbolic_mode,
            display_invalid_symlinks: self.display_invalid_symlinks,
            included_tags: self.included_tags.deep_view(),
            included_categories: self.included_categories.deep_view(),
        }
    }
}

impl QuerySettings {
    /// The documented defaults: empty search that also covers tags,
    /// symlinks hidden, symbolic icons unfiltered, dangling symlinks
    /// hidden, no required tags, every category included.
    pub fn new() -> (r: QuerySettings)
        ensures
            r@.search_text.len() == 0,
            r@.include_tags_in_search,
            r@.symlink_mode == FilterMode::Not,
            r@.symbolic_mode == FilterMode::Either,
            !r@.display_invalid_symlinks,
            r@.included_tags.len() == 0,
            r@.included_categories == known_category_prefixes().push("unknown"@),
    {
        let r = QuerySettings {
            search_text: String::new(),
            include_tags_in_search: true,
            symlink_mode: FilterMode::Not,
            symbolic_mode: FilterMode::Either,
            display_invalid_symlinks: false,
            included_tags: Vec::new(),
            included_categories: default_included_categories(),
        };
        proof {
            assert(r@.included_tags =~= Seq::<Seq<char>>::empty());
        }
        r
    }
}

/// The text filter: an empty search passes everything; otherwise the
/// name must fuzzy-match, or, when tags are searched too, the
/// space-joined tags must.
pub open spec fn search_pass(rec: IconView, q: QueryView) -> bool {
    ||| q.search_text.len() == 0
    ||| fuzzy_score(rec.name, q.search_text) is Some
    ||| (q.include_tags_in_search && fuzzy_score(join_spaces(rec.tags), q.search_text) is Some)
}

/// Decides the text filter.
pub fn search_matches(rec: &IconData, q: &QuerySettings) -> (r: bool)
    ensures
        r == search_pass(rec@, q@),
{
    if q.search_text.as_str().is_empty() {
        return true;
    }
    if fuzzy_match(rec.name.as_str(), q.search_text.as_str()).is_some() {
        return true;
    }
    if q.include_tags_in_search {
        let joined = join_with_spaces(&rec.tags);
        return fuzzy_match(joined.as_str(), q.search_text.as_str()).is_some();
    }
    false
}

/// The symlink filter: `Is` keeps symlinks, `Not` keeps non-symlinks
/// and, when dangling symlinks are displayed, records without a
/// resolved alias target, `Either` keeps everything.
pub open spec fn symlink_pass(rec: IconView, q: QueryView) -> bool {
    match q.symlink_mode {
        FilterMode::Is => rec.symlink,
        FilterMode::Not => (q.display_invalid_symlinks && rec.alias_target is None)
            || !rec.symlink,
        FilterMode::Either => true,
    }
}

/// Decides the symlink filter.
pub fn symlink_matches(rec: &IconData, q: &QuerySettings) -> (r: bool)
    ensures
        r == symlink_pass(rec@, q@),
{
    match q.symlink_mode {
        FilterMode::Is => rec.symlink,
        FilterMode::Not => (q.display_invalid_symlinks && rec.alias_target.is_none())
            || !rec.symlink,
        FilterMode::Either => true,
    }
}

/// The symbolic filter, over the record's symbolic flag.
pub open spec fn symbolic_pass(rec: IconView, q: QueryView) -> bool {
    match q.symbolic_mode {
        FilterMode::Is => rec.symbolic,
        FilterMode::Not => !rec.symbolic,
        FilterMode::Either => true,
    }
}

/// Decides the symbolic filter.
pub fn symbolic_matches(rec: &IconData, q: &QuerySettings) -> (r: bool)
    ensures
        r == symbolic_pass(rec@, q@),
{
    match q.symbolic_mode {
        FilterMode::Is => rec.symbolic,
        FilterMode::Not => !rec.symbolic,
        FilterMode::Either => true,
    }
}

/// The required-tags filter: every included tag must be among the
/// record's tags.
pub open spec fn required_tags_pass(rec: IconView, q: QueryView) -> bool {
    forall|k: int|
        0 <= k < q.included_tags.len() ==> rec.tags.contains(#[trigger] q.included_tags[k])
}

/// Decides the required-tags filter.
pub fn required_tags_hold(rec: &IconData, q: &QuerySettings) -> (r: bool)
    ensures
        r == required_tags_pass(rec@, q@),
{
    let mut k: usize = 0;
    while k < q.included_tags.len()
        invariant
            0 <= k <= q.included_tags@.len(),
            q@.included_tags.len() == q.included_tags@.len(),
            forall|m: int|
                0 <= m < q.included_tags@.len() ==> q@.included_tags[m] == #[trigger] q.included_tags@[m]@,
            forall|m: int| 0 <= m < k ==> rec@.tags.contains(#[trigger] q@.included_tags[m]),
        decreases q.included_tags@.len() - k,
    {
        if !contains_string(&rec.tags, q.included_tags[k].as_str()) {
            proof {
                assert(!rec@.tags.contains(q@.included_tags[k as int]));
            }
            return false;
        }
        k = k + 1;
    }
    true
}

/// A record passes the required-tags filter exactly when the included
/// tags are a subset of its tag set; the empty set always passes.
pub proof fn lemma_required_tags_is_subset(rec: IconView, q: QueryView)
    ensures
        required_tags_pass(rec, q) <==> q.included_tags.to_set().subset_of(rec.tags.to_set()),
        q.included_tags.len() == 0 ==> required_tags_pass(rec, q),
{
    if required_tags_pass(rec, q) {
        assert forall|x: Seq<char>| q.included_tags.to_set().contains(x) implies rec.tags.to_set().contains(
            x,
        ) by {
            let k = choose|k: int|
                0 <= k < q.included_tags.len() && #[trigger] q.included_tags[k] == x;
        }
    }
    if q.included_tags.to_set().subset_of(rec.tags.to_set()) {
        assert forall|k: int| 0 <= k < q.included_tags.len() implies rec.tags.contains(
            #[trigger] q.included_tags[k],
        ) by {
            assert(q.included_tags.to_set().contains(q.included_tags[k]));
        }
    }
}

/// True iff the record's tag at this position starts, after case
/// folding, with one of the included category prefixes.
pub open spec fn tag_matches_included(rec: IconView, q: QueryView, i: int) -> bool {
    exists|c: int|
        0 <= c < q.included_categories.len() && (#[trigger] q.included_categories[c]).is_prefix_of(
            lower_seq(rec.tags[i]),
        )
}

/// True iff the record's tag at this position starts, after case
/// folding, with one of the known category prefixes.
pub open spec fn tag_matches_known(rec: IconView, i: int) -> bool {
    exists|c: int|
        0 <= c < known_category_prefixes().len() && (#[trigger] known_category_prefixes()[c]).is_prefix_of(
            lower_seq(rec.tags[i]),
        )
}

/// True of a record none of whose tags matches a known category.
pub open spec fn is_uncategorized(rec: IconView) -> bool {
    forall|i: int| 0 <= i < rec.tags.len() ==> !#[trigger] tag_matches_known(rec, i)
}

/// The category filter: some tag other than the record's own leading
/// tag matches an included category prefix, or the synthetic category
/// `unknown` is included and the record is uncategorized.
pub open spec fn category_pass(rec: IconView, q: QueryView) -> bool {
    ||| exists|i: int| 1 <= i < rec.tags.len() && #[trigger] tag_matches_included(rec, q, i)
    ||| (q.included_categories.contains("unknown"@) && is_uncategorized(rec))
}

/// Decides whether one tag matches one of the given prefixes.
fn tag_matches_any(tag: &String, prefixes: &Vec<String>) -> (r: bool)
    ensures
        r == exists|c: int|
            0 <= c < prefixes.deep_view().len() && (#[trigger] prefixes.deep_view()[c]).is_prefix_of(
                lower_seq(tag@),
            ),
{
    let mut c: usize = 0;
    while c < prefixes.len()
        invariant
            0 <= c <= prefixes@.len(),
            prefixes.deep_view().len() == prefixes@.len(),
            forall|m: int|
                0 <= m < prefixes@.len() ==> prefixes.deep_view()[m] == #[trigger] prefixes@[m]@,
            forall|m: int|
                0 <= m < c ==> !(#[trigger] prefixes.deep_view()[m]).is_prefix_of(lower_seq(tag@)),
        decreases prefixes@.len() - c,
    {
        if starts_with_folded(tag.as_str(), prefixes[c].as_str()) {
            proof {
                assert(prefixes.deep_view()[c as int].is_prefix_of(lower_seq(tag@)));
            }
            return true;
        }
        c = c + 1;
    }
    false
}

/// Decides the category filter.
pub fn category_matches(rec: &IconData, q: &QuerySettings) -> (r: bool)
    ensures
        r == category_pass(rec@, q@),
{
    let mut i: usize = 1;
    while i < rec.tags.len()
        invariant
            1 <= i <= rec.tags@.len() || (rec.tags@.len() == 0 && i == 1),
            rec@.tags.len() == rec.tags@.len(),
            forall|m: int| 0 <= m < rec.tags@.len() ==> rec@.tags[m] == #[trigger] rec.tags@[m]@,
            forall|m: int| 1 <= m < i ==> !#[trigger] tag_matches_included(rec@, q@, m),
        decreases rec.tags@.len() - i,
    {
        if tag_matches_any(&rec.tags[i], &q.included_categories) {
            proof {
                assert(tag_matches_included(rec@, q@, i as int));
            }
            return true;
        }
        i = i + 1;
    }
    if contains_string(&q.included_categories, "unknown") {
        let known = category_prefixes();
        let mut t: usize = 0;
        while t < rec.tags.len()
            invariant
                0 <= t <= rec.tags@.len(),
                rec@.tags.len() == rec.tags@.len(),
                known.deep_view() == known_category_prefixes(),
                q@.included_categories.contains("unknown"@),
                forall|m: int| 0 <= m < rec.tags@.len() ==> rec@.tags[m] == #[trigger] rec.tags@[m]@,
                forall|m: int| 1 <= m < rec@.tags.len() ==> !#[trigger] tag_matches_included(rec@, q@, m),
                forall|m: int| 0 <= m < t ==> !#[trigger] tag_matches_known(rec@, m),
            decreases rec.tags@.len() - t,
        {
            if tag_matches_any(&rec.tags[t], &known) {
                proof {
                    assert(tag_matches_known(rec@, t as int));
                    assert(!category_pass(rec@, q@));
                }
                return false;
            }
            t = t + 1;
        }
        proof {
            assert(is_uncategorized(rec@));
        }
        true
    } else {
        proof {
            assert(!q@.included_categories.contains("unknown"@));
            assert(!category_pass(rec@, q@));
        }
        false
    }
}

/// An uncategorized record passes the category filter exactly when
/// `unknown` is included — as long as every included category is a
/// known prefix or `unknown` itself.
pub proof fn lemma_unknown_category(rec: IconView, q: QueryView)
    requires
        is_uncategorized(rec),
        forall|c: int|
            0 <= c < q.included_categories.len() ==> (known_category_prefixes().contains(
                #[trigger] q.included_categories[c],
            ) || q.included_categories[c] == "unknown"@),
    ensures
        category_pass(rec, q) <==> q.included_categories.contains("unknown"@),
{
    if q.included_categories.contains("unknown"@) {
        assert(category_pass(rec, q));
    } else {
        assert forall|i: int| 1 <= i < rec.tags.len() implies !#[trigger] tag_matches_included(
            rec,
            q,
            i,
        ) by {
            if tag_matches_included(rec, q, i) {
                let c = choose|c: int|
                    0 <= c < q.included_categories.len()
                        && (#[trigger] q.included_categories[c]).is_prefix_of(lower_seq(rec.tags[i]));
                assert(known_category_prefixes().contains(q.included_categories[c]));
                let m = choose|m: int|
                    0 <= m < known_category_prefixes().len() && #[trigger] known_category_prefixes()[m]
                        == q.included_categories[c];
                assert(tag_matches_known(rec, i));
            }
        }
    }
}

/// The whole predicate: every filter axis must pass.
pub open spec fn record_passes(rec: IconView, q: QueryView) -> bool {
    &&& search_pass(rec, q)
    &&& symlink_pass(rec, q)
    &&& symbolic_pass(rec, q)
    &&& required_tags_pass(rec, q)
    &&& category_pass(rec, q)
}

/// Decides the whole predicate for one record.
pub fn passes(rec: &IconData, q: &QuerySettings) -> (r: bool)
    ensures
        r == record_passes(rec@, q@),
{
    search_matches(rec, q) && symlink_matches(rec, q) && symbolic_matches(rec, q)
        && required_tags_hold(rec, q) && category_matches(rec, q)
}

/// The indices of the passing records among the first `n`, ascending.
pub open spec fn visible_upto(cat: Seq<IconView>, q: QueryView, n: int) -> Seq<usize>
    decreases n,
{
    if n <= 0 {
        Seq::empty()
    } else {
        let rest = visible_upto(cat, q, n - 1);
        if record_passes(cat[n - 1], q) {
            rest.push((n - 1) as usize)
        } else {
            rest
        }
    }
}

/// The indices of all passing records, ascending.
pub open spec fn visible_indices(cat: Seq<IconView>, q: QueryView) -> Seq<usize> {
    visible_upto(cat, q, cat.len() as int)
}

/// The query result: the passing records' indices in ranking order.
/// It is a function of the catalog and the settings alone, so an
/// unchanged catalog and unchanged settings yield the identical
/// ordered sequence.
pub open spec fn spec_query(cat: Seq<IconView>, q: QueryView) -> Seq<usize> {
    sort_indices(cat, q.search_text, visible_indices(cat, q))
}

/// Evaluates the query: filters the catalog and ranks the passing
/// records.
pub fn run_query(records: &Vec<IconData>, q: &QuerySettings) -> (r: Vec<usize>)
    ensures
        r@ == spec_query(records.deep_view(), q@),
        forall|k: int| 0 <= k < r@.len() ==> #[trigger] r@[k] < records@.len(),
{
    let ghost cat = records.deep_view();
    let mut vis: Vec<usize> = Vec::new();
    let mut i: usize = 0;
    proof {
        assert(vis@ =~= visible_upto(cat, q@, 0));
    }
    while i < records.len()
        invariant
            0 <= i <= records@.len(),
            cat == records.deep_view(),
            cat.len() == records@.len(),
            forall|k: int| 0 <= k < records@.len() ==> cat[k] == #[trigger] records@[k]@,
            vis@ == visible_upto(cat, q@, i as int),
            forall|k: int| 0 <= k < vis@.len() ==> #[trigger] vis@[k] < records@.len(),
        decreases records@.len() - i,
    {
        if passes(&records[i], q) {
            let ghost old_v = vis@;
            vis.push(i);
            proof {
                assert(vis@ =~= old_v.push(i));
            }
        }
        i = i + 1;
    }
    rank_indices(records, q.search_text.as_str(), &vis)
}

/// Ranking stability: when two visible records carry the same fuzzy
/// score, the one with the lexicographically smaller name stands
/// first.
pub proof fn lemma_equal_scores_order_by_name(
    cat: Seq<IconView>,
    q: QueryView,
    p1: int,
    p2: int,
)
    ensures
        0 <= p1 < p2 < spec_query(cat, q).len() && crate::rank::spec_score(
            cat,
            q.search_text,
            spec_query(cat, q)[p1],
        ) == crate::rank::spec_score(cat, q.search_text, spec_query(cat, q)[p2]) ==> str_le(
            cat[spec_query(cat, q)[p1] as int].name,
            cat[spec_query(cat, q)[p2] as int].name,
        ),
{
    let s = spec_query(cat, q);
    if 0 <= p1 < p2 < s.len() && crate::rank::spec_score(cat, q.search_text, s[p1])
        == crate::rank::spec_score(cat, q.search_text, s[p2]) {
        crate::rank::lemma_sort_indices_ensures(cat, q.search_text, visible_indices(cat, q));
        assert(crate::rank::rank_le(cat, q.search_text, s[p1], s[p2]));
        crate::text::lemma_str_le_total(cat[s[p1] as int].name, cat[s[p1] as int].name);
    }
}

} // verus!
