//! String helpers: equality, lexicographic order, prefix tests,
//! ASCII case folding, and joining, each proved against a spec
//! function over the string's view (a `Seq<char>`).

use vstd::prelude::*;
use vstd::string::StrSliceExecFns;
use vstd::string::StringExecFns;

verus! {

/// ASCII case folding of one character; other characters are unchanged.
pub open spec fn lower_char(c: char) -> char {
    if 'A' <= c && c <= 'Z' {
        ((c as u8) + 32) as char
    } else {
        c
    }
}

/// A string, character by character, after ASCII case folding.
pub open spec fn lower_seq(s: Seq<char>) -> Seq<char> {
    s.map_values(|c: char| lower_char(c))
}

/// Executable ASCII case folding of one character.
pub fn lower_char_exec(c: char) -> (r: char)
    ensures
        r == lower_char(c),
{
    if 'A' <= c && c <= 'Z' {
        (((c as u8) + 32) as char)
    } else {
        c
    }
}

/// True iff the two strings hold the same characters.
pub fn str_eq(a: &str, b: &str) -> (r: bool)
    ensures
        r == (a@ == b@),
{
    let alen = a.unicode_len();
    let blen = b.unicode_len();
    if alen != blen {
        return false;
    }
    let mut i: usize = 0;
    while i < alen
        invariant
            0 <= i <= alen,
            alen == a@.len(),
            blen == b@.len(),
            alen == blen,
            forall|k: int| 0 <= k < i ==> a@[k] == b@[k],
        decreases alen - i,
    {
        if a.get_char(i) != b.get_char(i) {
            return false;
        }
        i = i + 1;
    }
    proof {
        assert(a@ =~= b@);
    }
    true
}

/// Lexicographic order on strings by character code point, the order
/// in which `str` comparison sorts them.
pub open spec fn str_le(a: Seq<char>, b: Seq<char>) -> bool
    decreases a.len(),
{
    if a.len() == 0 {
        true
    } else if b.len() == 0 {
        false
    } else if a[0] < b[0] {
        true
    } else if b[0] < a[0] {
        false
    } else {
        str_le(a.drop_first(), b.drop_first())
    }
}

/// Any two strings are comparable under `str_le`.
pub proof fn lemma_str_le_total(a: Seq<char>, b: Seq<char>)
    ensures
        str_le(a, b) || str_le(b, a),
    decreases a.len(),
{
    if a.len() == 0 || b.len() == 0 {
    } else if a[0] < b[0] || b[0] < a[0] {
    } else {
        lemma_str_le_total(a.drop_first(), b.drop_first());
    }
}

/// Two strings below each other are equal.
pub proof fn lemma_str_le_antisymmetric(a: Seq<char>, b: Seq<char>)
    requires
        str_le(a, b),
        str_le(b, a),
    ensures
        a == b,
    decreases a.len(),
{
    if a.len() == 0 {
        assert(b.len() == 0);
        assert(a =~= b);
    } else {
        assert(b.len() != 0);
        assert(a[0] == b[0]);
        lemma_str_le_antisymmetric(a.drop_first(), b.drop_first());
        assert(a =~= b) by {
            assert(forall|i: int|
                0 < i < a.len() ==> a[i] == a.drop_first()[i - 1] && b[i] == b.drop_first()[i - 1]);
        }
    }
}

/// `str_le` is transitive.
pub proof fn lemma_str_le_transitive(a: Seq<char>, b: Seq<char>, c: Seq<char>)
    requires
        str_le(a, b),
        str_le(b, c),
    ensures
        str_le(a, c),
    decreases a.len(),
{
    if a.len() == 0 {
    } else {
        assert(b.len() != 0);
        assert(c.len() != 0);
        if a[0] == b[0] && b[0] == c[0] {
            lemma_str_le_transitive(a.drop_first(), b.drop_first(), c.drop_first());
        }
    }
}

/// Skipping a common prefix does not change the order of two strings.
proof fn lemma_str_le_common_prefix(a: Seq<char>, b: Seq<char>, i: int)
    requires
        0 <= i <= a.len(),
        i <= b.len(),
        forall|k: int| 0 <= k < i ==> a[k] == b[k],
    ensures
        str_le(a, b) == str_le(a.skip(i), b.skip(i)),
    decreases i,
{
    if i == 0 {
        assert(a.skip(0) =~= a);
        assert(b.skip(0) =~= b);
    } else {
        assert(a.len() > 0 && b.len() > 0 && a[0] == b[0]);
        assert(str_le(a, b) == str_le(a.drop_first(), b.drop_first()));
        assert(a.drop_first() =~= a.skip(1));
        assert(b.drop_first() =~= b.skip(1));
        lemma_str_le_common_prefix(a.skip(1), b.skip(1), i - 1);
        assert(a.skip(1).skip(i - 1) =~= a.skip(i));
        assert(b.skip(1).skip(i - 1) =~= b.skip(i));
    }
}

/// Decides `str_le` on two strings.
pub fn str_le_exec(a: &str, b: &str) -> (r: bool)
    ensures
        r == str_le(a@, b@),
{
    let alen = a.unicode_len();
    let blen = b.unicode_len();
    let min = if alen < blen {
        alen
    } else {
        blen
    };
    let mut i: usize = 0;
    while i < min
        invariant
            0 <= i <= min,
            alen == a@.len(),
            blen == b@.len(),
            min == if alen < blen {
                alen
            } else {
                blen
            },
            forall|k: int| 0 <= k < i ==> a@[k] == b@[k],
        decreases min - i,
    {
        let ca = a.get_char(i);
        let cb = b.get_char(i);
        if ca < cb {
            proof {
                lemma_str_le_common_prefix(a@, b@, i as int);
                assert(a@.skip(i as int)[0] == ca);
                assert(b@.skip(i as int)[0] == cb);
            }
            return true;
        }
        if cb < ca {
            proof {
                lemma_str_le_common_prefix(a@, b@, i as int);
                assert(a@.skip(i as int)[0] == ca);
                assert(b@.skip(i as int)[0] == cb);
            }
            return false;
        }
        i = i + 1;
    }
    proof {
        lemma_str_le_common_prefix(a@, b@, min as int);
        if alen <= blen {
            assert(a@.skip(min as int).len() == 0);
        } else {
            assert(a@.skip(min as int).len() > 0);
            assert(b@.skip(min as int).len() == 0);
        }
    }
    alen <= blen
}

/// True iff `p` is a prefix of `s`.
pub fn starts_with(s: &str, p: &str) -> (r: bool)
    ensures
        r == p@.is_prefix_of(s@),
{
    let slen = s.unicode_len();
    let plen = p.unicode_len();
    if plen > slen {
        return false;
    }
    let mut i: usize = 0;
    while i < plen
        invariant
            0 <= i <= plen,
            plen == p@.len(),
            slen == s@.len(),
            plen <= slen,
            forall|k: int| 0 <= k < i ==> p@[k] == s@[k],
        decreases plen - i,
    {
        if s.get_char(i) != p.get_char(i) {
            proof {
                assert(p@ != s@.subrange(0, plen as int)) by {
                    assert(s@.subrange(0, plen as int)[i as int] == s@[i as int]);
                }
            }
            return false;
        }
        i = i + 1;
    }
    proof {
        assert(p@ =~= s@.subrange(0, plen as int));
    }
    true
}

/// True iff `p` is a prefix of `s` after ASCII case folding of `s`.
pub fn starts_with_folded(s: &str, p: &str) -> (r: bool)
    ensures
        r == p@.is_prefix_of(lower_seq(s@)),
{
    let slen = s.unicode_len();
    let plen = p.unicode_len();
    proof {
        assert(lower_seq(s@).len() == s@.len());
    }
    if plen > slen {
        return false;
    }
    let mut i: usize = 0;
    while i < plen
        invariant
            0 <= i <= plen,
            plen == p@.len(),
            slen == s@.len(),
            lower_seq(s@).len() == slen,
            plen <= slen,
            forall|k: int| 0 <= k < i ==> p@[k] == lower_seq(s@)[k],
        decreases plen - i,
    {
        let c = lower_char_exec(s.get_char(i));
        if c != p.get_char(i) {
            proof {
                assert(lower_seq(s@)[i as int] == lower_char(s@[i as int]));
                assert(p@ != lower_seq(s@).subrange(0, plen as int)) by {
                    assert(lower_seq(s@).subrange(0, plen as int)[i as int] == lower_seq(
                        s@,
                    )[i as int]);
                }
            }
            return false;
        }
        proof {
            assert(lower_seq(s@)[i as int] == lower_char(s@[i as int]));
        }
        i = i + 1;
    }
    proof {
        assert(p@ =~= lower_seq(s@).subrange(0, plen as int));
    }
    true
}

/// True iff the vector holds a string with these characters.
pub fn contains_string(v: &Vec<String>, s: &str) -> (r: bool)
    ensures
        r == v.deep_view().contains(s@),
{
    let mut j: usize = 0;
    while j < v.len()
        invariant
            0 <= j <= v@.len(),
            v.deep_view().len() == v@.len(),
            forall|k: int| 0 <= k < v@.len() ==> v.deep_view()[k] == #[trigger] v@[k]@,
            forall|k: int| 0 <= k < j ==> v.deep_view()[k] != s@,
        decreases v@.len() - j,
    {
        if str_eq(v[j].as_str(), s) {
            proof {
                assert(v.deep_view()[j as int] == s@);
            }
            return true;
        }
        j = j + 1;
    }
    proof {
        assert(!v.deep_view().contains(s@));
    }
    false
}

/// An element is in a pushed sequence iff it is the new element or was
/// there before.
pub proof fn lemma_push_contains<A>(s: Seq<A>, y: A, x: A)
    ensures
        s.push(y).contains(x) <==> (s.contains(x) || x == y),
{
    if s.push(y).contains(x) {
        let k = choose|k: int| 0 <= k < s.push(y).len() && s.push(y)[k] == x;
        if k < s.len() {
            assert(s[k] == x);
        }
    }
    if s.contains(x) {
        let k = choose|k: int| 0 <= k < s.len() && s[k] == x;
        assert(s.push(y)[k] == x);
    }
    if x == y {
        assert(s.push(y)[s.len() as int] == x);
    }
}

/// An element is in a one-longer prefix iff it is the added element or
/// was in the shorter prefix.
pub proof fn lemma_take_succ_contains<A>(s: Seq<A>, i: int, x: A)
    requires
        0 <= i < s.len(),
    ensures
        s.take(i + 1).contains(x) <==> (s.take(i).contains(x) || x == s[i]),
{
    assert(s.take(i + 1) =~= s.take(i).push(s[i]));
    lemma_push_contains(s.take(i), s[i], x);
}

/// The parts joined with a single space between neighbours.
pub open spec fn join_spaces(parts: Seq<Seq<char>>) -> Seq<char>
    decreases parts.len(),
{
    if parts.len() == 0 {
        Seq::empty()
    } else if parts.len() == 1 {
        parts[0]
    } else {
        parts[0] + seq![' '] + join_spaces(parts.drop_first())
    }
}

/// Appending one part extends the joined string by a space and that part.
proof fn lemma_join_spaces_push(parts: Seq<Seq<char>>, x: Seq<char>)
    requires
        parts.len() > 0,
    ensures
        join_spaces(parts.push(x)) == join_spaces(parts) + seq![' '] + x,
    decreases parts.len(),
{
    let p = parts.push(x);
    assert(p[0] == parts[0]);
    if parts.len() == 1 {
        assert(p.drop_first() =~= seq![x]);
        assert(join_spaces(p.drop_first()) == x);
        assert(join_spaces(parts.push(x)) =~= join_spaces(parts) + seq![' '] + x);
    } else {
        lemma_join_spaces_push(parts.drop_first(), x);
        assert(p.drop_first() =~= parts.drop_first().push(x));
        assert(join_spaces(p) == p[0] + seq![' '] + join_spaces(parts.drop_first().push(x)));
        assert(join_spaces(parts.push(x)) =~= join_spaces(parts) + seq![' '] + x);
    }
}

/// Joins the strings with single spaces, as `join(" ")` does.
pub fn join_with_spaces(parts: &Vec<String>) -> (r: String)
    ensures
        r@ == join_spaces(parts.deep_view()),
{
    let mut out = String::new();
    let mut i: usize = 0;
    while i < parts.len()
        invariant
            0 <= i <= parts.len(),
            parts.deep_view().len() == parts.len(),
            forall|k: int|
                0 <= k < parts@.len() ==> parts.deep_view()[k] == #[trigger] parts@[k]@,
            out@ == join_spaces(parts.deep_view().take(i as int)),
        decreases parts.len() - i,
    {
        if i > 0 {
            out.append(" ");
            proof {
                reveal_strlit(" ");
            }
        }
        out.append(parts[i].as_str());
        proof {
            let dv = parts.deep_view();
            assert(dv.take(i + 1).drop_last() =~= dv.take(i as int));
            assert(dv.take(i + 1) =~= dv.take(i as int).push(dv[i as int]));
            if i > 0 {
                lemma_join_spaces_push(dv.take(i as int), dv[i as int]);
                assert(out@ =~= join_spaces(dv.take(i + 1)));
            } else {
                assert(dv.take(1) =~= seq![dv[0]]);
                assert(out@ =~= join_spaces(dv.take(1)));
            }
        }
        i = i + 1;
    }
    proof {
        assert(parts.deep_view().take(parts@.len() as int) =~= parts.deep_view());
    }
    out
}

} // verus!
