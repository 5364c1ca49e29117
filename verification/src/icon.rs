//! The icon record: one entry of the catalog, with the metadata the
//! engine derives for it, and the operations that mutate a record
//! (metadata extraction at creation, alias attachment later).
//!
//! Filesystem paths are held as plain strings; the theme lookup and
//! the symlink metadata reads stay with the caller, which hands their
//! results in as plain values.

use vstd::prelude::*;

use crate::text::str_eq;

verus! {

/// One catalog entry.
pub struct IconData {
    /// The icon name, the identity key within one catalog generation.
    pub name: String,
    /// Names of other records that are symlinks to this record.
    pub aliases: Vec<String>,
    /// Ordered category tags derived from the resolved path.
    pub tags: Vec<String>,
    /// Filesystem location backing the icon, if the theme found one.
    pub path: Option<String>,
    /// The literal link target, when the backing file is a symlink.
    pub symlink_path: Option<String>,
    /// Whether the icon is a recolorable template icon.
    pub symbolic: bool,
    /// Whether the backing file is a symlink.
    pub symlink: bool,
    /// Index of the record this symlink resolves to, once discovered.
    pub alias_target: Option<usize>,
}

/// The mathematical model of a record: every string as a `Seq<char>`.
pub ghost struct IconView {
    pub name: Seq<char>,
    pub aliases: Seq<Seq<char>>,
    pub tags: Seq<Seq<char>>,
    pub path: Option<Seq<char>>,
    pub symlink_path: Option<Seq<char>>,
    pub symbolic: bool,
    pub symlink: bool,
    pub alias_target: Option<usize>,
}

impl View for IconData {
    type V = IconView;

    open spec fn view(&self) -> IconView {
        IconView {
            name: self.name@,
            aliases: self.aliases.deep_view(),
            tags: self.tags.deep_view(),
            path: self.path.deep_view(),
            symlink_path: self.symlink_path.deep_view(),
            symbolic: self.symbolic,
            symlink: self.symlink,
            alias_target: self.alias_target,
        }
    }
}

impl DeepView for IconData {
    type V = IconView;

    open spec fn deep_view(&self) -> IconView {
        self.view()
    }
}

/// A well-formed record: link metadata and alias fields are consistent.
/// A record is a symlink only with a resolved path and a stored link
/// target; aliases live only on non-symlink records and an alias
/// target only on symlink records.
pub open spec fn wf_icon(v: IconView) -> bool {
    &&& v.symlink ==> v.path is Some && v.symlink_path is Some
    &&& !v.symlink ==> v.symlink_path is None && v.alias_target is None
    &&& v.symlink ==> v.aliases.len() == 0
    &&& v.path is None ==> v.tags.len() == 0
}

impl IconData {
    /// A fresh record for a name the theme has not been asked about:
    /// no path, no tags, not a symlink.
    pub fn new(name: String) -> (r: IconData)
        ensures
            r@.name == name@,
            r@.aliases.len() == 0,
            r@.tags.len() == 0,
            r@.path is None,
            r@.symlink_path is None,
            !r@.symbolic,
            !r@.symlink,
            r@.alias_target is None,
            wf_icon(r@),
    {
        let r = IconData {
            name,
            aliases: Vec::new(),
            tags: Vec::new(),
            path: Option::None,
            symlink_path: Option::None,
            symbolic: false,
            symlink: false,
            alias_target: Option::None,
        };
        proof {
            assert(r@.aliases =~= Seq::<Seq<char>>::empty());
            assert(r@.tags =~= Seq::<Seq<char>>::empty());
        }
        r
    }

    /// An identical copy of the record.
    pub fn duplicate(&self) -> (r: IconData)
        ensures
            r@ == self@,
    {
        let r = IconData {
            name: self.name.clone(),
            aliases: clone_strings(&self.aliases),
            tags: clone_strings(&self.tags),
            path: clone_opt_string(&self.path),
            symlink_path: clone_opt_string(&self.symlink_path),
            symbolic: self.symbolic,
            symlink: self.symlink,
            alias_target: self.alias_target,
        };
        r
    }
}

/// A copy of a string vector, element by element.
pub fn clone_strings(v: &Vec<String>) -> (r: Vec<String>)
    ensures
        r.deep_view() == v.deep_view(),
{
    let mut r: Vec<String> = Vec::new();
    let mut i: usize = 0;
    while i < v.len()
        invariant
            0 <= i <= v.len(),
            r.deep_view().len() == i,
            forall|k: int| 0 <= k < i ==> r.deep_view()[k] == v.deep_view()[k],
        decreases v.len() - i,
    {
        r.push(v[i].clone());
        i = i + 1;
    }
    proof {
        assert(r.deep_view() =~= v.deep_view());
    }
    r
}

/// A copy of an optional string.
pub fn clone_opt_string(v: &Option<String>) -> (r: Option<String>)
    ensures
        r.deep_view() == v.deep_view(),
{
    match v {
        Option::Some(s) => Option::Some(s.clone()),
        Option::None => Option::None,
    }
}

/// The sequence with every later duplicate removed: each element kept
/// at its first occurrence only.
pub open spec fn dedup_first(s: Seq<Seq<char>>) -> Seq<Seq<char>>
    decreases s.len(),
{
    if s.len() == 0 {
        s
    } else {
        let rest = dedup_first(s.drop_last());
        if s.drop_last().contains(s.last()) {
            rest
        } else {
            rest.push(s.last())
        }
    }
}

/// Deduplication keeps exactly the set of elements and leaves no
/// duplicates behind.
pub proof fn lemma_dedup_first_ensures(s: Seq<Seq<char>>)
    ensures
        forall|x: Seq<char>| dedup_first(s).contains(x) <==> s.contains(x),
        forall|i: int, j: int|
            0 <= i < j < dedup_first(s).len() ==> dedup_first(s)[i] != dedup_first(s)[j],
    decreases s.len(),
{
    if s.len() > 0 {
        let d = dedup_first(s);
        let rest = dedup_first(s.drop_last());
        lemma_dedup_first_ensures(s.drop_last());
        assert forall|x: Seq<char>| d.contains(x) implies s.contains(x) by {
            if rest.contains(x) {
                assert(s.drop_last().contains(x));
                let j = choose|j: int| 0 <= j < s.drop_last().len() && s.drop_last()[j] == x;
                assert(s[j] == x);
            } else {
                assert(x == s.last());
                assert(s[s.len() - 1] == x);
            }
        }
        assert forall|x: Seq<char>| s.contains(x) implies d.contains(x) by {
            let j = choose|j: int| 0 <= j < s.len() && s[j] == x;
            if j < s.len() - 1 {
                assert(s.drop_last()[j] == x);
                assert(s.drop_last().contains(x));
                assert(rest.contains(x));
                if !s.drop_last().contains(s.last()) {
                    let k = choose|k: int| 0 <= k < rest.len() && rest[k] == x;
                    assert(d[k] == x);
                } else {
                    assert(d == rest);
                }
            } else {
                if s.drop_last().contains(s.last()) {
                    assert(rest.contains(x));
                } else {
                    assert(d[d.len() - 1] == x);
                }
            }
        }
        if !s.drop_last().contains(s.last()) {
            assert forall|i: int, j: int| 0 <= i < j < d.len() implies d[i] != d[j] by {
                if j < d.len() - 1 {
                    assert(rest[i] != rest[j]);
                } else {
                    assert(d[j] == s.last());
                    assert(rest.contains(d[i]) ==> s.drop_last().contains(d[i]));
                    assert(rest[i] == d[i]);
                }
            }
        }
    }
}

impl IconData {
    /// Adds alias names to the record, keeping each name once, at its
    /// first occurrence; nothing else changes.
    pub fn add_aliases(&mut self, aliases: Vec<String>)
        ensures
            final(self)@.aliases == dedup_first(old(self)@.aliases + aliases.deep_view()),
            final(self)@.name == old(self)@.name,
            final(self)@.tags == old(self)@.tags,
            final(self)@.path == old(self)@.path,
            final(self)@.symlink_path == old(self)@.symlink_path,
            final(self)@.symbolic == old(self)@.symbolic,
            final(self)@.symlink == old(self)@.symlink,
            final(self)@.alias_target == old(self)@.alias_target,
    {
        let ghost combined = old(self)@.aliases + aliases.deep_view();
        let mut out: Vec<String> = Vec::new();
        let n = self.aliases.len();
        let m = aliases.len();
        proof {
            assert(combined.len() == n + m);
            assert(combined.take(0) =~= Seq::<Seq<char>>::empty());
            assert(out.deep_view() =~= Seq::<Seq<char>>::empty());
        }
        let mut i: usize = 0;
        while i < n
            invariant
                0 <= i <= n,
                self@ == old(self)@,
                n == self.aliases@.len(),
                m == aliases@.len(),
                combined == self@.aliases + aliases.deep_view(),
                combined.len() == n + m,
                forall|k: int| 0 <= k < n ==> combined[k] == #[trigger] self.aliases@[k]@,
                out.deep_view() == dedup_first(combined.take(i as int)),
                forall|x: Seq<char>|
                    out.deep_view().contains(x) <==> combined.take(i as int).contains(x),
            decreases n - i,
        {
            let seen = crate::text::contains_string(&out, self.aliases[i].as_str());
            let ghost cur = combined[i as int];
            proof {
                assert(cur == self.aliases@[i as int]@);
                assert(combined.take(i + 1).drop_last() =~= combined.take(i as int));
                assert(combined.take(i + 1).last() == cur);
            }
            if !seen {
                let ghost old_dv = out.deep_view();
                out.push(self.aliases[i].clone());
                proof {
                    assert(out.deep_view() =~= old_dv.push(cur));
                    assert forall|x: Seq<char>|
                        out.deep_view().contains(x) <==> combined.take(i + 1).contains(x) by {
                        crate::text::lemma_push_contains(old_dv, cur, x);
                        crate::text::lemma_take_succ_contains(combined, i as int, x);
                    }
                }
            } else {
                proof {
                    assert forall|x: Seq<char>|
                        out.deep_view().contains(x) <==> combined.take(i + 1).contains(x) by {
                        crate::text::lemma_take_succ_contains(combined, i as int, x);
                    }
                }
            }
            i = i + 1;
        }
        let mut j: usize = 0;
        while j < m
            invariant
                0 <= j <= m,
                self@ == old(self)@,
                n == self.aliases@.len(),
                m == aliases@.len(),
                combined == self@.aliases + aliases.deep_view(),
                combined.len() == n + m,
                forall|k: int| n <= k < n + m ==> combined[k] == #[trigger] aliases@[k - n]@,
                out.deep_view() == dedup_first(combined.take(n + j)),
                forall|x: Seq<char>|
                    out.deep_view().contains(x) <==> combined.take(n + j).contains(x),
            decreases m - j,
        {
            let seen = crate::text::contains_string(&out, aliases[j].as_str());
            let ghost p = n + j;
            let ghost cur = combined[p];
            proof {
                assert(cur == aliases@[j as int]@);
                assert(combined.take(p + 1).drop_last() =~= combined.take(p));
                assert(combined.take(p + 1).last() == cur);
            }
            if !seen {
                let ghost old_dv = out.deep_view();
                out.push(aliases[j].clone());
                proof {
                    assert(out.deep_view() =~= old_dv.push(cur));
                    assert forall|x: Seq<char>|
                        out.deep_view().contains(x) <==> combined.take(p + 1).contains(x) by {
                        crate::text::lemma_push_contains(old_dv, cur, x);
                        crate::text::lemma_take_succ_contains(combined, p, x);
                    }
                }
            } else {
                proof {
                    assert forall|x: Seq<char>|
                        out.deep_view().contains(x) <==> combined.take(p + 1).contains(x) by {
                        crate::text::lemma_take_succ_contains(combined, p, x);
                    }
                }
            }
            j = j + 1;
        }
        proof {
            assert(combined.take((n + m) as int) =~= combined);
        }
        self.aliases = out;
    }
}

/// What a theme lookup and the filesystem said about one icon name:
/// the resolved path if a backing file was found, whether the icon is
/// symbolic, whether the file is a symlink, and the literal link
/// target read from it.
pub struct ThemeLookup {
    pub path: Option<String>,
    pub symbolic: bool,
    pub symlink: bool,
    pub symlink_target: Option<String>,
}

impl ThemeLookup {
    /// The lookup reports a symlink whose target could be read.
    pub open spec fn is_link(&self) -> bool {
        self.symlink && self.symlink_target is Some
    }
}

impl IconData {
    /// Applies a theme lookup to the record. With `update_identity`
    /// false (a mere size change) the record is returned unchanged.
    /// With it true and a backing file found, the path, link metadata,
    /// tags and symbolic flag are re-derived; a symlink whose target
    /// could not be read is classified as not a symlink. With it true
    /// and no backing file, only the symbolic flag is updated.
    pub fn apply_lookup(&self, lookup: &ThemeLookup, update_identity: bool) -> (r: IconData)
        ensures
            !update_identity ==> r@ == self@,
            update_identity && lookup.path is Some ==> r@ == (IconView {
                path: lookup.path.deep_view(),
                symbolic: lookup.symbolic,
                symlink: lookup.is_link(),
                symlink_path: if lookup.is_link() {
                    lookup.symlink_target.deep_view()
                } else {
                    Option::None
                },
                tags: crate::category::spec_tags(self@.name, lookup.path.deep_view()),
                ..self@
            }),
            update_identity && lookup.path is None ==> r@ == (IconView {
                symbolic: lookup.symbolic,
                ..self@
            }),
            wf_icon(self@) && self@.alias_target is None && self@.aliases.len() == 0 ==> wf_icon(
                r@,
            ),
    {
        if !update_identity {
            return self.duplicate();
        }
        match &lookup.path {
            Option::Some(_) => {
                let is_link = lookup.symlink && lookup.symlink_target.is_some();
                let mut r = IconData {
                    name: self.name.clone(),
                    aliases: clone_strings(&self.aliases),
                    tags: Vec::new(),
                    path: clone_opt_string(&lookup.path),
                    symlink_path: if is_link {
                        clone_opt_string(&lookup.symlink_target)
                    } else {
                        Option::None
                    },
                    symbolic: lookup.symbolic,
                    symlink: is_link,
                    alias_target: self.alias_target,
                };
                let tags = crate::category::categorize_icon(&r);
                r.tags = tags;
                r
            },
            Option::None => {
                let mut r = self.duplicate();
                r.symbolic = lookup.symbolic;
                r
            },
        }
    }
}

/// Which fields of a record changed between an old and a new value;
/// one flag per observable property.
pub struct DataChanges {
    pub aliases: bool,
    pub tags: bool,
    pub path: bool,
    pub symbolic: bool,
    pub symlink: bool,
    pub symlink_path: bool,
}

/// True iff two string vectors hold the same strings in order.
pub fn strings_eq(a: &Vec<String>, b: &Vec<String>) -> (r: bool)
    ensures
        r == (a.deep_view() == b.deep_view()),
{
    if a.len() != b.len() {
        proof {
            assert(a.deep_view().len() != b.deep_view().len());
        }
        return false;
    }
    let mut i: usize = 0;
    while i < a.len()
        invariant
            0 <= i <= a@.len(),
            a@.len() == b@.len(),
            a.deep_view().len() == a@.len(),
            b.deep_view().len() == b@.len(),
            forall|k: int| 0 <= k < a@.len() ==> a.deep_view()[k] == #[trigger] a@[k]@,
            forall|k: int| 0 <= k < b@.len() ==> b.deep_view()[k] == #[trigger] b@[k]@,
            forall|k: int| 0 <= k < i ==> a.deep_view()[k] == b.deep_view()[k],
        decreases a@.len() - i,
    {
        if !str_eq(a[i].as_str(), b[i].as_str()) {
            return false;
        }
        i = i + 1;
    }
    proof {
        assert(a.deep_view() =~= b.deep_view());
    }
    true
}

/// True iff two optional strings are equal.
pub fn opt_str_eq(a: &Option<String>, b: &Option<String>) -> (r: bool)
    ensures
        r == (a.deep_view() == b.deep_view()),
{
    match (a, b) {
        (Option::Some(x), Option::Some(y)) => str_eq(x.as_str(), y.as_str()),
        (Option::None, Option::None) => true,
        _ => false,
    }
}

/// Compares two records property by property, yielding one change
/// flag per property, as a caller that must announce changes needs.
pub fn data_changes(a: &IconData, b: &IconData) -> (r: DataChanges)
    ensures
        r.aliases == (a@.aliases != b@.aliases),
        r.tags == (a@.tags != b@.tags),
        r.path == (a@.path != b@.path),
        r.symbolic == (a@.symbolic != b@.symbolic),
        r.symlink == (a@.symlink != b@.symlink),
        r.symlink_path == (a@.symlink_path != b@.symlink_path),
{
    DataChanges {
        aliases: !strings_eq(&a.aliases, &b.aliases),
        tags: !strings_eq(&a.tags, &b.tags),
        path: !opt_str_eq(&a.path, &b.path),
        symbolic: a.symbolic != b.symbolic,
        symlink: a.symlink != b.symlink,
        symlink_path: !opt_str_eq(&a.symlink_path, &b.symlink_path),
    }
}

} // verus!
