//! The alias resolver: finds, for every symlink record, the non-symlink
//! record its link target points at, and reports the discovery as
//! per-target batches that the catalog owner applies in order.
//!
//! A link target is matched in both of its written forms: as an
//! absolute path equal to the target record's resolved path, or as a
//! path relative to that record's parent directory.

use vstd::prelude::*;
use vstd::string::StrSliceExecFns;
use vstd::string::StringExecFns;

use crate::icon::IconData;
use crate::icon::IconView;
use crate::icon::dedup_first;
use crate::text::str_eq;

verus! {

/// True of a path string that is written absolute.
pub open spec fn is_absolute(p: Seq<char>) -> bool {
    p.len() > 0 && p[0] == '/'
}

/// Index of the last separator in the path, `-1` when it has none.
pub open spec fn last_slash_at(p: Seq<char>) -> int
    decreases p.len(),
{
    if p.len() == 0 {
        -1
    } else if p[p.len() - 1] == '/' {
        p.len() - 1
    } else {
        last_slash_at(p.drop_last())
    }
}

/// The directory part of a path: everything before the last separator,
/// the root `/` alone when the separator leads, and the empty string
/// for a bare filename.
pub open spec fn parent_dir(p: Seq<char>) -> Seq<char> {
    let k = last_slash_at(p);
    if k == -1 {
        Seq::empty()
    } else if k == 0 {
        p.take(1)
    } else {
        p.take(k)
    }
}

/// Adjoins a path to a directory: an absolute path stands alone, and
/// otherwise a single separator joins the two.
pub open spec fn join_path(a: Seq<char>, b: Seq<char>) -> Seq<char> {
    if is_absolute(b) {
        b
    } else if a.len() == 0 {
        b
    } else if a[a.len() - 1] == '/' {
        a + b
    } else {
        a + seq!['/'] + b
    }
}

/// True iff a stored link target resolves to the given resolved path:
/// either as an absolute path equal to it, or relative to its parent
/// directory.
pub open spec fn resolves_to(target: Seq<char>, path: Seq<char>) -> bool {
    (is_absolute(target) && target == path) || join_path(parent_dir(path), target) == path
}

proof fn lemma_last_slash_at(p: Seq<char>, k0: int)
    requires
        -1 <= k0 < p.len(),
        k0 >= 0 ==> p[k0] == '/',
        forall|k: int| k0 < k < p.len() ==> p[k] != '/',
    ensures
        last_slash_at(p) == k0,
    decreases p.len(),
{
    if p.len() == 0 {
    } else if p[p.len() - 1] == '/' {
        assert(k0 == p.len() - 1);
    } else {
        assert(k0 < p.len() - 1);
        let t = p.drop_last();
        assert(forall|k: int| k0 < k < t.len() ==> t[k] == p[k] && t[k] != '/');
        lemma_last_slash_at(t, k0);
    }
}

/// The directory part of a path string.
pub fn parent_dir_of(p: &str) -> (r: String)
    ensures
        r@ == parent_dir(p@),
{
    let n = p.unicode_len();
    let mut j: usize = n;
    while j > 0
        invariant
            0 <= j <= n,
            n == p@.len(),
            forall|k: int| j <= k < n ==> p@[k] != '/',
        decreases j,
    {
        if p.get_char(j - 1) == '/' {
            proof {
                lemma_last_slash_at(p@, j - 1);
            }
            if j - 1 == 0 {
                let root = p.substring_char(0, 1);
                proof {
                    assert(root@ =~= p@.take(1));
                }
                return String::from_str(root);
            }
            let dir = p.substring_char(0, j - 1);
            proof {
                assert(dir@ =~= p@.take(j - 1));
            }
            return String::from_str(dir);
        }
        j = j - 1;
    }
    proof {
        lemma_last_slash_at(p@, -1);
    }
    String::new()
}

/// Joins a link target onto a directory.
pub fn join_path_exec(a: &str, b: &str) -> (r: String)
    ensures
        r@ == join_path(a@, b@),
{
    let blen = b.unicode_len();
    if blen > 0 && b.get_char(0) == '/' {
        return String::from_str(b);
    }
    let alen = a.unicode_len();
    if alen == 0 {
        return String::from_str(b);
    }
    let mut out = String::from_str(a);
    if a.get_char(alen - 1) == '/' {
        out.append(b);
        out
    } else {
        out.append("/");
        out.append(b);
        proof {
            reveal_strlit("/");
            assert("/"@ =~= seq!['/']);
        }
        out
    }
}

/// Decides whether a link target resolves to a resolved path.
pub fn resolves_to_exec(target: &str, path: &str) -> (r: bool)
    ensures
        r == resolves_to(target@, path@),
{
    let tlen = target.unicode_len();
    let absolute = tlen > 0 && target.get_char(0) == '/';
    if absolute && str_eq(target, path) {
        return true;
    }
    let dir = parent_dir_of(path);
    let joined = join_path_exec(dir.as_str(), target);
    str_eq(joined.as_str(), path)
}

/// True iff the candidate record is a symlink whose stored target
/// resolves to the target record's resolved path.
pub open spec fn alias_match(target: IconView, cand: IconView) -> bool {
    match (cand.symlink_path, target.path) {
        (Option::Some(t), Option::Some(p)) => cand.symlink && resolves_to(t, p),
        _ => false,
    }
}

/// Decides `alias_match` on two records.
pub fn alias_match_exec(target: &IconData, cand: &IconData) -> (r: bool)
    ensures
        r == alias_match(target@, cand@),
{
    if !cand.symlink {
        return false;
    }
    match (&cand.symlink_path, &target.path) {
        (Option::Some(t), Option::Some(p)) => resolves_to_exec(t.as_str(), p.as_str()),
        _ => false,
    }
}

/// One discovered alias: the symlink record's catalog index and name.
pub struct AliasEntry {
    pub index: usize,
    pub name: String,
}

/// The model of a discovered alias.
pub ghost struct AliasEntryView {
    pub index: int,
    pub name: Seq<char>,
}

impl View for AliasEntry {
    type V = AliasEntryView;

    open spec fn view(&self) -> AliasEntryView {
        AliasEntryView { index: self.index as int, name: self.name@ }
    }
}

impl DeepView for AliasEntry {
    type V = AliasEntryView;

    open spec fn deep_view(&self) -> AliasEntryView {
        self.view()
    }
}

/// The aliases of one target among the first `n` records: the records
/// in catalog order whose link target resolves to it.
pub open spec fn alias_entries_upto(cat: Seq<IconView>, t: int, n: int) -> Seq<AliasEntryView>
    decreases n,
{
    if n <= 0 {
        Seq::empty()
    } else {
        let rest = alias_entries_upto(cat, t, n - 1);
        if alias_match(cat[t], cat[n - 1]) {
            rest.push(AliasEntryView { index: n - 1, name: cat[n - 1].name })
        } else {
            rest
        }
    }
}

/// The aliases of one target across the whole catalog.
pub open spec fn alias_entries(cat: Seq<IconView>, t: int) -> Seq<AliasEntryView> {
    alias_entries_upto(cat, t, cat.len() as int)
}

/// Every reported alias is a real match, names are the symlinks' own,
/// and the indices come in strictly increasing catalog order.
pub proof fn lemma_alias_entries_sound(cat: Seq<IconView>, t: int, n: int)
    requires
        0 <= t < cat.len(),
        0 <= n <= cat.len(),
    ensures
        forall|k: int|
            0 <= k < alias_entries_upto(cat, t, n).len() ==> {
                let e = #[trigger] alias_entries_upto(cat, t, n)[k];
                0 <= e.index < n && alias_match(cat[t], cat[e.index]) && e.name == cat[e.index].name
            },
        forall|k1: int, k2: int|
            0 <= k1 < k2 < alias_entries_upto(cat, t, n).len()
                ==> #[trigger] alias_entries_upto(cat, t, n)[k1].index
                < #[trigger] alias_entries_upto(cat, t, n)[k2].index,
    decreases n,
{
    if n > 0 {
        lemma_alias_entries_sound(cat, t, n - 1);
        let rest = alias_entries_upto(cat, t, n - 1);
        let es = alias_entries_upto(cat, t, n);
        if alias_match(cat[t], cat[n - 1]) {
            let e = AliasEntryView { index: n - 1, name: cat[n - 1].name };
            assert(es == rest.push(e));
            assert forall|k: int|
                0 <= k < es.len() implies {
                let x = #[trigger] es[k];
                0 <= x.index < n && alias_match(cat[t], cat[x.index]) && x.name == cat[x.index].name
            } by {
                if k < rest.len() {
                    assert(es[k] == rest[k]);
                } else {
                    assert(es[k] == e);
                }
            }
            assert forall|k1: int, k2: int|
                0 <= k1 < k2 < es.len() implies #[trigger] es[k1].index
                < #[trigger] es[k2].index by {
                if k2 < rest.len() {
                    assert(es[k1] == rest[k1] && es[k2] == rest[k2]);
                } else {
                    assert(es[k1] == rest[k1] && es[k2] == e);
                    assert(rest[k1].index < n - 1);
                }
            }
        } else {
            assert(es == rest);
        }
    }
}

/// Every record whose link target resolves to the target is reported:
/// the resolver misses no alias.
pub proof fn lemma_alias_entries_complete(cat: Seq<IconView>, t: int, j: int, n: int)
    requires
        0 <= t < cat.len(),
        0 <= j < n <= cat.len(),
        alias_match(cat[t], cat[j]),
    ensures
        exists|k: int|
            0 <= k < alias_entries_upto(cat, t, n).len() && #[trigger] alias_entries_upto(
                cat,
                t,
                n,
            )[k] == (AliasEntryView { index: j, name: cat[j].name }),
    decreases n,
{
    let e = AliasEntryView { index: j, name: cat[j].name };
    if j == n - 1 {
        let es = alias_entries_upto(cat, t, n);
        assert(es[es.len() - 1] == e);
    } else {
        lemma_alias_entries_complete(cat, t, j, n - 1);
        let rest = alias_entries_upto(cat, t, n - 1);
        let k = choose|k: int| 0 <= k < rest.len() && #[trigger] rest[k] == e;
        assert(alias_entries_upto(cat, t, n)[k] == e);
    }
}

/// A symlink whose stored target is written absolute and equals the
/// target record's resolved path resolves to it, and the resolver
/// reports it among that record's aliases.
pub proof fn lemma_absolute_target_resolves(cat: Seq<IconView>, t: int, j: int, p: Seq<char>)
    requires
        0 <= t < cat.len(),
        0 <= j < cat.len(),
        cat[j].symlink,
        cat[j].symlink_path == Option::Some(p),
        is_absolute(p),
        cat[t].path == Option::Some(p),
    ensures
        alias_match(cat[t], cat[j]),
        exists|k: int|
            0 <= k < alias_entries(cat, t).len() && #[trigger] alias_entries(cat, t)[k] == (
            AliasEntryView { index: j, name: cat[j].name }),
{
    assert(resolves_to(p, p));
    lemma_alias_entries_complete(cat, t, j, cat.len() as int);
    let e = AliasEntryView { index: j, name: cat[j].name };
    let n = cat.len() as int;
    let k = choose|k: int|
        0 <= k < alias_entries_upto(cat, t, n).len() && #[trigger] alias_entries_upto(cat, t, n)[k]
            == e;
    assert(alias_entries(cat, t)[k] == e);
}

/// Collects the aliases of one target record: the symlink records
/// whose stored target resolves to its path, in catalog order.
pub fn compute_target_aliases(records: &Vec<IconData>, t: usize) -> (r: Vec<AliasEntry>)
    requires
        t < records@.len(),
    ensures
        r.deep_view() == alias_entries(records.deep_view(), t as int),
{
    let ghost cat = records.deep_view();
    let mut out: Vec<AliasEntry> = Vec::new();
    let mut j: usize = 0;
    proof {
        assert(out.deep_view() =~= alias_entries_upto(cat, t as int, 0));
    }
    while j < records.len()
        invariant
            0 <= j <= records@.len(),
            t < records@.len(),
            cat == records.deep_view(),
            cat.len() == records@.len(),
            forall|k: int| 0 <= k < records@.len() ==> cat[k] == #[trigger] records@[k]@,
            out.deep_view() == alias_entries_upto(cat, t as int, j as int),
        decreases records@.len() - j,
    {
        if alias_match_exec(&records[t], &records[j]) {
            let ghost old_dv = out.deep_view();
            let name = records[j].name.clone();
            out.push(AliasEntry { index: j, name });
            proof {
                assert(out.deep_view() =~= old_dv.push(
                    AliasEntryView { index: j as int, name: cat[j as int].name },
                ));
            }
        }
        j = j + 1;
    }
    out
}

/// One unit of resolver progress: a target record and the aliases
/// discovered for it. Batches are produced off the interactive path
/// and applied by the catalog owner in the order produced.
pub struct AliasBatch {
    pub target_index: usize,
    pub aliases: Vec<AliasEntry>,
}

/// The model of a batch.
pub ghost struct AliasBatchView {
    pub target_index: int,
    pub aliases: Seq<AliasEntryView>,
}

impl View for AliasBatch {
    type V = AliasBatchView;

    open spec fn view(&self) -> AliasBatchView {
        AliasBatchView {
            target_index: self.target_index as int,
            aliases: self.aliases.deep_view(),
        }
    }
}

impl DeepView for AliasBatch {
    type V = AliasBatchView;

    open spec fn deep_view(&self) -> AliasBatchView {
        self.view()
    }
}

/// The batches for the first `n` records: one per non-symlink record,
/// in catalog order.
pub open spec fn alias_batches_upto(cat: Seq<IconView>, n: int) -> Seq<AliasBatchView>
    decreases n,
{
    if n <= 0 {
        Seq::empty()
    } else {
        let rest = alias_batches_upto(cat, n - 1);
        if !cat[n - 1].symlink {
            rest.push(AliasBatchView { target_index: n - 1, aliases: alias_entries(cat, n - 1) })
        } else {
            rest
        }
    }
}

/// The batches of the whole catalog.
pub open spec fn alias_batches(cat: Seq<IconView>) -> Seq<AliasBatchView> {
    alias_batches_upto(cat, cat.len() as int)
}

/// The batches describe exactly the non-symlink records, in catalog
/// order, each paired with its full alias list; symlink records get no
/// batch.
pub proof fn lemma_alias_batches_sound(cat: Seq<IconView>, n: int)
    requires
        0 <= n <= cat.len(),
    ensures
        forall|k: int|
            0 <= k < alias_batches_upto(cat, n).len() ==> {
                let b = #[trigger] alias_batches_upto(cat, n)[k];
                0 <= b.target_index < n && !cat[b.target_index].symlink && b.aliases
                    == alias_entries(cat, b.target_index)
            },
        forall|k1: int, k2: int|
            0 <= k1 < k2 < alias_batches_upto(cat, n).len()
                ==> #[trigger] alias_batches_upto(cat, n)[k1].target_index
                < #[trigger] alias_batches_upto(cat, n)[k2].target_index,
        forall|j: int|
            0 <= j < n && !cat[j].symlink ==> exists|k: int|
                0 <= k < alias_batches_upto(cat, n).len() && (#[trigger] alias_batches_upto(
                    cat,
                    n,
                )[k]).target_index == j,
    decreases n,
{
    if n > 0 {
        lemma_alias_batches_sound(cat, n - 1);
        let rest = alias_batches_upto(cat, n - 1);
        let bs = alias_batches_upto(cat, n);
        if !cat[n - 1].symlink {
            let b = AliasBatchView { target_index: n - 1, aliases: alias_entries(cat, n - 1) };
            assert(bs == rest.push(b));
            assert(forall|k: int| 0 <= k < rest.len() ==> bs[k] == rest[k]);
            assert(bs[bs.len() - 1] == b);
            assert forall|j: int| 0 <= j < n && !cat[j].symlink implies exists|k: int|
                0 <= k < bs.len() && (#[trigger] bs[k]).target_index == j by {
                if j == n - 1 {
                    assert(bs[bs.len() - 1].target_index == j);
                } else {
                    let k = choose|k: int|
                        0 <= k < rest.len() && (#[trigger] rest[k]).target_index == j;
                    assert(bs[k].target_index == j);
                }
            }
        } else {
            assert(bs == rest);
        }
    }
}

/// Every batch the resolver produces meets the conditions under which
/// it can be applied: its target is a non-symlink record, its entries
/// lie inside the catalog at indices other than the target's, and
/// their indices are pairwise distinct.
pub proof fn lemma_batch_applicable(cat: Seq<IconView>, k: int)
    requires
        0 <= k < alias_batches(cat).len(),
    ensures
        0 <= alias_batches(cat)[k].target_index < cat.len(),
        !cat[alias_batches(cat)[k].target_index].symlink,
        forall|m: int|
            0 <= m < alias_batches(cat)[k].aliases.len() ==> {
                let e = #[trigger] alias_batches(cat)[k].aliases[m];
                0 <= e.index < cat.len() && e.index != alias_batches(cat)[k].target_index
            },
        forall|m1: int, m2: int|
            0 <= m1 < m2 < alias_batches(cat)[k].aliases.len()
                ==> #[trigger] alias_batches(cat)[k].aliases[m1].index
                != #[trigger] alias_batches(cat)[k].aliases[m2].index,
{
    lemma_alias_batches_sound(cat, cat.len() as int);
    let b = alias_batches(cat)[k];
    lemma_alias_entries_sound(cat, b.target_index, cat.len() as int);
    assert forall|m: int| 0 <= m < b.aliases.len() implies {
        let e = #[trigger] b.aliases[m];
        0 <= e.index < cat.len() && e.index != b.target_index
    } by {
        let e = b.aliases[m];
        assert(alias_match(cat[b.target_index], cat[e.index]));
        assert(cat[e.index].symlink);
    }
}

/// Applying a resolver batch keeps every record well-formed: the
/// target is not a symlink and only collects aliases, and each entry
/// is a symlink and only gains its alias target.
pub proof fn lemma_apply_batch_preserves_wf(
    cat0: Seq<IconView>,
    cat1: Seq<IconView>,
    batch: AliasBatchView,
    t: usize,
)
    requires
        forall|i: int| 0 <= i < cat0.len() ==> crate::icon::wf_icon(#[trigger] cat0[i]),
        t == batch.target_index,
        0 <= batch.target_index < cat0.len(),
        !cat0[batch.target_index].symlink,
        forall|k: int|
            0 <= k < batch.aliases.len() ==> 0 <= #[trigger] batch.aliases[k].index < cat0.len()
                && cat0[batch.aliases[k].index].symlink,
        cat1.len() == cat0.len(),
        cat1[batch.target_index] == (IconView {
            aliases: dedup_first(cat0[batch.target_index].aliases + batch_names(batch.aliases)),
            ..cat0[batch.target_index]
        }),
        forall|k: int|
            0 <= k < batch.aliases.len() ==> cat1[#[trigger] batch.aliases[k].index]
                == with_alias_target(cat0[batch.aliases[k].index], t),
        forall|i: int|
            0 <= i < cat0.len() && i != batch.target_index && !is_entry_index(batch.aliases, i)
                ==> cat1[i] == cat0[i],
    ensures
        forall|i: int| 0 <= i < cat1.len() ==> crate::icon::wf_icon(#[trigger] cat1[i]),
{
    assert forall|i: int| 0 <= i < cat1.len() implies crate::icon::wf_icon(
        #[trigger] cat1[i],
    ) by {
        if i == batch.target_index {
        } else if is_entry_index(batch.aliases, i) {
            let k = choose|k: int|
                0 <= k < batch.aliases.len() && #[trigger] batch.aliases[k].index == i;
            assert(cat1[i] == with_alias_target(cat0[i], t));
        } else {
            assert(cat1[i] == cat0[i]);
        }
    }
}

/// Runs the full resolution scan: one batch per non-symlink record in
/// catalog order, each holding every symlink that resolves to it.
pub fn compute_alias_batches(records: &Vec<IconData>) -> (r: Vec<AliasBatch>)
    ensures
        r.deep_view() == alias_batches(records.deep_view()),
{
    let ghost cat = records.deep_view();
    let mut out: Vec<AliasBatch> = Vec::new();
    let mut t: usize = 0;
    proof {
        assert(out.deep_view() =~= alias_batches_upto(cat, 0));
    }
    while t < records.len()
        invariant
            0 <= t <= records@.len(),
            cat == records.deep_view(),
            cat.len() == records@.len(),
            forall|k: int| 0 <= k < records@.len() ==> cat[k] == #[trigger] records@[k]@,
            out.deep_view() == alias_batches_upto(cat, t as int),
        decreases records@.len() - t,
    {
        if !records[t].symlink {
            let aliases = compute_target_aliases(records, t);
            let ghost old_dv = out.deep_view();
            out.push(AliasBatch { target_index: t, aliases });
            proof {
                assert(out.deep_view() =~= old_dv.push(
                    AliasBatchView { target_index: t as int, aliases: alias_entries(cat, t as int) },
                ));
            }
        }
        t = t + 1;
    }
    out
}

/// A record with its alias target set to the given catalog index.
pub open spec fn with_alias_target(v: IconView, t: usize) -> IconView {
    IconView { alias_target: Option::Some(t), ..v }
}

/// The names carried by a batch, in batch order.
pub open spec fn batch_names(entries: Seq<AliasEntryView>) -> Seq<Seq<char>> {
    entries.map_values(|e: AliasEntryView| e.name)
}

/// True iff some entry of the batch points at catalog index `i`.
pub open spec fn is_entry_index(entries: Seq<AliasEntryView>, i: int) -> bool {
    exists|k: int| 0 <= k < entries.len() && #[trigger] entries[k].index == i
}

/// Applies one batch to the catalog: every discovered symlink gets its
/// alias target set to the batch's target record, the target record
/// collects the symlinks' names as aliases, and no other record
/// changes.
pub fn apply_alias_batch(records: &mut Vec<IconData>, batch: &AliasBatch)
    requires
        batch.target_index < old(records)@.len(),
        forall|k: int|
            0 <= k < batch@.aliases.len() ==> #[trigger] batch@.aliases[k].index
                < old(records)@.len() && batch@.aliases[k].index != batch.target_index,
        forall|k1: int, k2: int|
            0 <= k1 < k2 < batch@.aliases.len() ==> #[trigger] batch@.aliases[k1].index
                != #[trigger] batch@.aliases[k2].index,
    ensures
        final(records)@.len() == old(records)@.len(),
        final(records).deep_view()[batch.target_index as int] == (IconView {
            aliases: dedup_first(
                old(records).deep_view()[batch.target_index as int].aliases + batch_names(
                    batch@.aliases,
                ),
            ),
            ..old(records).deep_view()[batch.target_index as int]
        }),
        forall|k: int|
            0 <= k < batch@.aliases.len() ==> final(records).deep_view()[
                #[trigger] batch@.aliases[k].index as int
            ] == with_alias_target(
                old(records).deep_view()[batch@.aliases[k].index as int],
                batch.target_index,
            ),
        forall|i: int|
            0 <= i < old(records)@.len() && i != batch.target_index && !is_entry_index(
                batch@.aliases,
                i,
            ) ==> final(records).deep_view()[i] == old(records).deep_view()[i],
{
    let ghost cat0 = old(records).deep_view();
    let t = batch.target_index;
    let mut names: Vec<String> = Vec::new();
    let mut k: usize = 0;
    while k < batch.aliases.len()
        invariant
            0 <= k <= batch@.aliases.len(),
            batch@.aliases.len() == batch.aliases@.len(),
            forall|q: int|
                0 <= q < batch.aliases@.len() ==> batch@.aliases[q] == #[trigger] batch.aliases@[q]@,
            names.deep_view().len() == k,
            forall|q: int| 0 <= q < k ==> names.deep_view()[q] == batch@.aliases[q].name,
        decreases batch.aliases@.len() - k,
    {
        let ghost old_dv = names.deep_view();
        names.push(batch.aliases[k].name.clone());
        proof {
            assert(names.deep_view() =~= old_dv.push(batch@.aliases[k as int].name));
        }
        k = k + 1;
    }
    proof {
        assert(names.deep_view() =~= batch_names(batch@.aliases));
    }
    let mut k2: usize = 0;
    while k2 < batch.aliases.len()
        invariant
            0 <= k2 <= batch@.aliases.len(),
            batch@.aliases.len() == batch.aliases@.len(),
            t == batch.target_index,
            t < records@.len(),
            forall|q: int|
                0 <= q < batch.aliases@.len() ==> batch@.aliases[q] == #[trigger] batch.aliases@[q]@,
            forall|q: int|
                0 <= q < batch@.aliases.len() ==> #[trigger] batch@.aliases[q].index
                    < records@.len() && batch@.aliases[q].index != t,
            forall|q1: int, q2: int|
                0 <= q1 < q2 < batch@.aliases.len() ==> #[trigger] batch@.aliases[q1].index
                    != #[trigger] batch@.aliases[q2].index,
            records@.len() == cat0.len(),
            forall|q: int|
                0 <= q < k2 ==> records.deep_view()[#[trigger] batch@.aliases[q].index as int]
                    == with_alias_target(cat0[batch@.aliases[q].index as int], t),
            forall|i: int|
                0 <= i < cat0.len() && !(exists|q: int|
                    0 <= q < k2 && #[trigger] batch@.aliases[q].index == i) ==> records.deep_view()[i]
                    == cat0[i],
        decreases batch.aliases@.len() - k2,
    {
        let idx = batch.aliases[k2].index;
        let ghost before = records.deep_view();
        proof {
            assert(idx == batch@.aliases[k2 as int].index);
            assert(!(exists|q: int| 0 <= q < k2 && #[trigger] batch@.aliases[q].index == idx));
            assert(before[idx as int] == cat0[idx as int]);
        }
        let mut rec = records[idx].duplicate();
        rec.alias_target = Option::Some(t);
        records[idx] = rec;
        proof {
            assert(records.deep_view() =~= before.update(
                idx as int,
                with_alias_target(cat0[idx as int], t),
            ));
        }
        k2 = k2 + 1;
    }
    let ghost mid = records.deep_view();
    proof {
        assert(mid[t as int] == cat0[t as int]);
    }
    let mut target_rec = records[t].duplicate();
    target_rec.add_aliases(names);
    let ghost target_view = target_rec@;
    records[t] = target_rec;
    proof {
        assert(records.deep_view() =~= mid.update(t as int, target_view));
        assert(records.deep_view()[t as int] == (IconView {
            aliases: dedup_first(cat0[t as int].aliases + batch_names(batch@.aliases)),
            ..cat0[t as int]
        }));
        assert(forall|i: int|
            0 <= i < cat0.len() && i != t ==> records.deep_view()[i] == mid[i]);
    }
}

} // verus!
