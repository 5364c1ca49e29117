//! The path categorizer: turns an icon's filesystem path into an
//! ordered list of category tags.
//!
//! A path is held as a plain string of `/`-separated components. The
//! categorizer splits it, removes the components that are icon-theme
//! infrastructure (`usr`, `share`, `icons`, `.local`, `.icons`), and,
//! when the first remaining component is `home`, strips it together
//! with every occurrence of the username that follows it.

use vstd::prelude::*;
use vstd::string::StrSliceExecFns;
use vstd::string::StringExecFns;

use crate::icon::IconData;
use crate::text::str_eq;
use crate::text::starts_with;

verus! {

/// Length of the leading run of non-separator characters.
pub open spec fn run_len(s: Seq<char>) -> int
    decreases s.len(),
{
    if s.len() == 0 {
        0
    } else if s[0] == '/' {
        0
    } else {
        1 + run_len(s.drop_first())
    }
}

/// The non-empty `/`-separated components of a path string, in order.
pub open spec fn split_components(s: Seq<char>) -> Seq<Seq<char>>
    decreases s.len(),
    via split_components_decreases
{
    if s.len() == 0 {
        Seq::empty()
    } else if s[0] == '/' {
        split_components(s.drop_first())
    } else {
        seq![s.take(run_len(s))] + split_components(s.skip(run_len(s)))
    }
}

#[via_fn]
proof fn split_components_decreases(s: Seq<char>) {
    lemma_run_len_bound(s);
    if s.len() != 0 && s[0] != '/' {
        assert(run_len(s) >= 1);
    }
}

proof fn lemma_run_len_bound(s: Seq<char>)
    ensures
        0 <= run_len(s) <= s.len(),
        run_len(s) < s.len() ==> s[run_len(s)] == '/',
        forall|k: int| 0 <= k < run_len(s) ==> s[k] != '/',
    decreases s.len(),
{
    if s.len() == 0 || s[0] == '/' {
    } else {
        let t = s.drop_first();
        lemma_run_len_bound(t);
        assert(run_len(s) == 1 + run_len(t));
        assert forall|k: int| 0 <= k < run_len(s) implies s[k] != '/' by {
            if k > 0 {
                assert(t[k - 1] == s[k]);
            }
        }
    }
}

proof fn lemma_run_len_is(s: Seq<char>, m: int)
    requires
        0 <= m <= s.len(),
        forall|k: int| 0 <= k < m ==> s[k] != '/',
        m == s.len() || s[m] == '/',
    ensures
        run_len(s) == m,
    decreases m,
{
    if m == 0 {
    } else {
        assert(s[0] != '/');
        let t = s.drop_first();
        assert(forall|k: int| 0 <= k < m - 1 ==> t[k] == s[k + 1] && t[k] != '/');
        lemma_run_len_is(t, m - 1);
    }
}

/// Splits a path string into its non-empty `/`-separated components.
pub fn split_up_path(path: &str) -> (r: Vec<String>)
    ensures
        r.deep_view() == split_components(path@),
{
    let n = path.unicode_len();
    let mut out: Vec<String> = Vec::new();
    let mut i: usize = 0;
    proof {
        assert(path@.skip(0) =~= path@);
        assert(out.deep_view() =~= Seq::<Seq<char>>::empty());
        assert(out.deep_view() + split_components(path@) =~= split_components(path@));
    }
    while i < n
        invariant
            0 <= i <= n,
            n == path@.len(),
            split_components(path@) == out.deep_view() + split_components(path@.skip(i as int)),
        decreases n - i,
    {
        if path.get_char(i) == '/' {
            proof {
                let rest = path@.skip(i as int);
                assert(rest[0] == '/');
                assert(rest.drop_first() =~= path@.skip(i + 1));
            }
            i = i + 1;
        } else {
            let start = i;
            let mut j: usize = i;
            while j < n && path.get_char(j) != '/'
                invariant
                    start <= j <= n,
                    n == path@.len(),
                    forall|k: int| start <= k < j ==> path@[k] != '/',
                decreases n - j,
            {
                j = j + 1;
            }
            let comp = path.substring_char(start, j);
            let comp_string = String::from_str(comp);
            proof {
                let rest = path@.skip(start as int);
                assert(forall|k: int|
                    0 <= k < j - start ==> rest[k] == path@[k + start] && rest[k] != '/');
                assert(j < n ==> rest[j - start] == path@[j as int]);
                lemma_run_len_is(rest, j - start);
                assert(rest[0] != '/');
                assert(rest.take(j - start) =~= path@.subrange(start as int, j as int));
                assert(rest.skip(j - start) =~= path@.skip(j as int));
                assert(split_components(rest) == seq![comp_string@] + split_components(
                    path@.skip(j as int),
                ));
            }
            let ghost old_dv = out.deep_view();
            out.push(comp_string);
            proof {
                assert(out.deep_view() =~= old_dv.push(comp_string@));
                assert(out.deep_view() + split_components(path@.skip(j as int)) =~= old_dv + (
                seq![comp_string@] + split_components(path@.skip(j as int))));
            }
            i = j;
        }
    }
    proof {
        assert(path@.skip(n as int).len() == 0);
        assert(out.deep_view() + split_components(path@.skip(n as int)) =~= out.deep_view());
    }
    out
}

/// True of the path components that are icon-theme infrastructure
/// rather than semantic categories.
pub open spec fn is_infra(c: Seq<char>) -> bool {
    c == "usr"@ || c == "share"@ || c == "icons"@ || c == ".local"@ || c == ".icons"@
}

/// Removes the infrastructure components.
pub open spec fn strip_infra(cs: Seq<Seq<char>>) -> Seq<Seq<char>> {
    cs.filter(|c: Seq<char>| !is_infra(c))
}

/// When the first component is `home`, removes it and every
/// occurrence of the username component that follows it. A lone
/// `home` component is removed with no username to strip.
pub open spec fn strip_home(cs: Seq<Seq<char>>) -> Seq<Seq<char>> {
    if cs.len() >= 2 && cs[0] == "home"@ {
        cs.drop_first().filter(|c: Seq<char>| c != cs[1])
    } else if cs.len() == 1 && cs[0] == "home"@ {
        Seq::empty()
    } else {
        cs
    }
}

/// The ordered category tags derived from a path string.
pub open spec fn spec_categories(path: Seq<char>) -> Seq<Seq<char>> {
    strip_home(strip_infra(split_components(path)))
}

/// Decides whether one component is an infrastructure component.
fn is_infra_exec(c: &str) -> (r: bool)
    ensures
        r == is_infra(c@),
{
    str_eq(c, "usr") || str_eq(c, "share") || str_eq(c, "icons") || str_eq(c, ".local") || str_eq(
        c,
        ".icons",
    )
}

/// Derives the ordered category tags from a path string.
pub fn get_categories_from_path(path: &str) -> (r: Vec<String>)
    ensures
        r.deep_view() == spec_categories(path@),
{
    let comps = split_up_path(path);
    let ghost cdv = comps.deep_view();
    let mut kept: Vec<String> = Vec::new();
    let mut i: usize = 0;
    while i < comps.len()
        invariant
            0 <= i <= comps.len(),
            cdv == comps.deep_view(),
            cdv.len() == comps.len(),
            forall|k: int| 0 <= k < comps@.len() ==> cdv[k] == #[trigger] comps@[k]@,
            kept.deep_view() == cdv.take(i as int).filter(|c: Seq<char>| !is_infra(c)),
        decreases comps.len() - i,
    {
        proof {
            reveal(Seq::filter);
            assert(cdv.take(i + 1).drop_last() =~= cdv.take(i as int));
            assert(cdv.take(i + 1).last() == cdv[i as int]);
        }
        if !is_infra_exec(comps[i].as_str()) {
            let ghost old_dv = kept.deep_view();
            kept.push(comps[i].clone());
            proof {
                assert(kept.deep_view() =~= old_dv.push(cdv[i as int]));
            }
        }
        i = i + 1;
    }
    proof {
        assert(cdv.take(cdv.len() as int) =~= cdv);
    }
    let ghost kdv = kept.deep_view();
    // home-directory normalization
    if kept.len() >= 2 && str_eq(kept[0].as_str(), "home") {
        let user = kept[1].clone();
        let mut out: Vec<String> = Vec::new();
        let mut j: usize = 1;
        while j < kept.len()
            invariant
                1 <= j <= kept.len(),
                kdv == kept.deep_view(),
                kdv.len() == kept.len(),
                kdv.len() >= 2,
                forall|k: int| 0 <= k < kept@.len() ==> kdv[k] == #[trigger] kept@[k]@,
                user@ == kdv[1],
                out.deep_view() == kdv.drop_first().take(j - 1).filter(
                    |c: Seq<char>| c != kdv[1],
                ),
            decreases kept.len() - j,
        {
            proof {
                reveal(Seq::filter);
                let rest = kdv.drop_first();
                assert(rest.take(j as int).drop_last() =~= rest.take(j - 1));
                assert(rest.take(j as int).last() == rest[j - 1]);
                assert(rest[j - 1] == kdv[j as int]);
            }
            if !str_eq(kept[j].as_str(), user.as_str()) {
                let ghost old_dv = out.deep_view();
                out.push(kept[j].clone());
                proof {
                    assert(out.deep_view() =~= old_dv.push(kdv[j as int]));
                }
            }
            j = j + 1;
        }
        proof {
            let rest = kdv.drop_first();
            assert(rest.take(kept@.len() - 1) =~= rest);
        }
        out
    } else if kept.len() == 1 && str_eq(kept[0].as_str(), "home") {
        Vec::new()
    } else {
        proof {
            if kept.len() == 0 {
                assert(kept.deep_view() =~= spec_categories(path@));
            }
        }
        kept
    }
}

/// No derived category is an infrastructure component.
pub proof fn lemma_no_infra_categories(path: Seq<char>)
    ensures
        forall|i: int|
            0 <= i < spec_categories(path).len() ==> !is_infra(#[trigger] spec_categories(path)[i]),
{
    broadcast use vstd::seq_lib::group_seq_lib_default;

    let comps = split_components(path);
    let stripped = strip_infra(comps);
    let pred = |c: Seq<char>| !is_infra(c);
    assert forall|i: int|
        0 <= i < spec_categories(path).len() implies !is_infra(
        #[trigger] spec_categories(path)[i],
    ) by {
        let cats = spec_categories(path);
        if stripped.len() >= 2 && stripped[0] == "home"@ {
            let pred2 = |c: Seq<char>| c != stripped[1];
            let rest = stripped.drop_first();
            assert(cats == rest.filter(pred2));
            rest.lemma_filter_pred(pred2, i);
            rest.lemma_filter_contains_rev(pred2, cats[i]);
            assert(rest.contains(cats[i]));
            let j = choose|j: int| 0 <= j < rest.len() && rest[j] == cats[i];
            assert(stripped[j + 1] == cats[i]);
            comps.lemma_filter_pred(pred, j + 1);
        } else if stripped.len() == 1 && stripped[0] == "home"@ {
        } else {
            comps.lemma_filter_pred(pred, i);
        }
    }
}

/// The ordered tags of an icon record: the categories of its path with
/// any component that starts with the icon's own name removed; an icon
/// without a resolved path has no tags.
pub open spec fn spec_tags(name: Seq<char>, path: Option<Seq<char>>) -> Seq<Seq<char>> {
    match path {
        Option::Some(p) => spec_categories(p).filter(|c: Seq<char>| !name.is_prefix_of(c)),
        Option::None => Seq::empty(),
    }
}

/// Derives the category tags of one icon record from its name and
/// resolved path.
pub fn categorize_icon(icon: &IconData) -> (r: Vec<String>)
    ensures
        r.deep_view() == spec_tags(icon@.name, icon@.path),
{
    match &icon.path {
        Option::Some(path) => {
            let cats = get_categories_from_path(path.as_str());
            let ghost cdv = cats.deep_view();
            let mut out: Vec<String> = Vec::new();
            let mut i: usize = 0;
            while i < cats.len()
                invariant
                    0 <= i <= cats.len(),
                    cdv == cats.deep_view(),
                    cdv.len() == cats.len(),
                    forall|k: int| 0 <= k < cats@.len() ==> cdv[k] == #[trigger] cats@[k]@,
                    out.deep_view() == cdv.take(i as int).filter(
                        |c: Seq<char>| !icon@.name.is_prefix_of(c),
                    ),
                decreases cats.len() - i,
            {
                proof {
                    reveal(Seq::filter);
                    assert(cdv.take(i + 1).drop_last() =~= cdv.take(i as int));
                    assert(cdv.take(i + 1).last() == cdv[i as int]);
                }
                if !starts_with(cats[i].as_str(), icon.name.as_str()) {
                    let ghost old_dv = out.deep_view();
                    out.push(cats[i].clone());
                    proof {
                        assert(out.deep_view() =~= old_dv.push(cdv[i as int]));
                    }
                }
                i = i + 1;
            }
            proof {
                assert(cdv.take(cdv.len() as int) =~= cdv);
            }
            out
        },
        Option::None => Vec::new(),
    }
}

} // verus!
