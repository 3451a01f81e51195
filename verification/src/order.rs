//! The order of texts that `String`'s `Ord` gives: lexicographic by
//! character, which is the byte order of their UTF-8 encodings.

use vstd::prelude::*;

use crate::process::model::string_views;
use crate::text::{chars_eq, chars_of};

verus! {

/// `a` sorts before `b`.
pub open spec fn text_lt(a: Seq<char>, b: Seq<char>) -> bool
    decreases a.len(),
{
    if a.len() == 0 {
        b.len() > 0
    } else if b.len() == 0 {
        false
    } else if a[0] != b[0] {
        a[0] < b[0]
    } else {
        text_lt(a.drop_first(), b.drop_first())
    }
}

pub proof fn lemma_text_lt_irreflexive(a: Seq<char>)
    ensures
        !text_lt(a, a),
    decreases a.len(),
{
    if a.len() > 0 {
        lemma_text_lt_irreflexive(a.drop_first());
    }
}

/// Two different texts are ordered one way or the other.
pub proof fn lemma_text_lt_total(a: Seq<char>, b: Seq<char>)
    requires
        a != b,
    ensures
        text_lt(a, b) || text_lt(b, a),
    decreases a.len(),
{
    if a.len() > 0 && b.len() > 0 && a[0] == b[0] {
        if a.drop_first() == b.drop_first() {
            assert(a =~= seq![a[0]] + a.drop_first());
            assert(b =~= seq![b[0]] + b.drop_first());
        }
        lemma_text_lt_total(a.drop_first(), b.drop_first());
    } else if a.len() == 0 && b.len() == 0 {
        assert(a =~= b);
    }
}

/// Whether `a` sorts before `b`.
pub fn text_less(a: &Vec<char>, b: &Vec<char>) -> (r: bool)
    ensures
        r == text_lt(a@, b@),
{
    let mut i: usize = 0;
    proof {
        assert(a@.skip(0) =~= a@);
        assert(b@.skip(0) =~= b@);
    }
    while i < a.len() && i < b.len() && a[i] == b[i]
        invariant
            i <= a.len(),
            i <= b.len(),
            text_lt(a@, b@) == text_lt(a@.skip(i as int), b@.skip(i as int)),
        decreases a.len() - i,
    {
        proof {
            assert(a@.skip(i as int).drop_first() =~= a@.skip(i + 1));
            assert(b@.skip(i as int).drop_first() =~= b@.skip(i + 1));
        }
        i = i + 1;
    }
    if i == a.len() {
        assert(a@.skip(i as int).len() == 0);
        i < b.len()
    } else if i == b.len() {
        false
    } else {
        assert(a@.skip(i as int)[0] == a@[i as int]);
        assert(b@.skip(i as int)[0] == b@[i as int]);
        a[i] < b[i]
    }
}

/// Each text sorts before the next.
pub open spec fn ascending_texts(s: Seq<Seq<char>>) -> bool {
    forall|i: int| 0 <= i < s.len() - 1 ==> #[trigger] text_lt(s[i], s[i + 1])
}

/// Adds a text to an ascending list of texts unless it is there already.
pub fn insert_text(v: &mut Vec<String>, x: &str)
    requires
        ascending_texts(string_views(old(v)@)),
    ensures
        ascending_texts(string_views(final(v)@)),
        string_views(final(v)@).to_set() == string_views(old(v)@).to_set().insert(x@),
{
    let ghost before = string_views(v@);
    let xv = chars_of(x);
    let mut i: usize = 0;
    while i < v.len()
        invariant
            i <= v.len(),
            before == string_views(v@),
            ascending_texts(before),
            xv@ == x@,
            forall|j: int| 0 <= j < i ==> before[j] != x@,
        decreases v.len() - i,
    {
        if chars_eq(&chars_of(v[i].as_str()), &xv) {
            proof {
                assert(before[i as int] == x@);
                assert(before.contains(x@));
                assert(before.to_set().insert(x@) =~= before.to_set());
                assert(ascending_texts(string_views(v@)));
            }
            return;
        }
        i = i + 1;
    }
    let mut p: usize = 0;
    while p < v.len() && text_less(&chars_of(v[p].as_str()), &xv)
        invariant
            p <= v.len(),
            before == string_views(v@),
            ascending_texts(before),
            forall|j: int| 0 <= j < before.len() ==> before[j] != x@,
            xv@ == x@,
            forall|j: int| 0 <= j < p ==> text_lt(before[j], x@),
        decreases v.len() - p,
    {
        p = p + 1;
    }
    proof {
        if p < v.len() {
            assert(before[p as int] != x@);
            lemma_text_lt_total(before[p as int], x@);
        }
    }
    v.insert(p, crate::text::owned(x));
    proof {
        let after = string_views(v@);
        assert(after =~= before.insert(p as int, x@));
        assert forall|k: int| 0 <= k < after.len() - 1 implies #[trigger] text_lt(after[k], after[k + 1]) by {
            if k + 1 < p {
                assert(after[k] == before[k] && after[k + 1] == before[k + 1]);
                assert(text_lt(before[k], before[k + 1]));
            } else if k + 1 == p {
                assert(after[k] == before[k]);
            } else if k == p {
                assert(after[k + 1] == before[k]);
            } else {
                assert(after[k] == before[k - 1] && after[k + 1] == before[k]);
                assert(text_lt(before[k - 1], before[(k - 1) + 1]));
            }
        }
        assert forall|y: Seq<char>| after.to_set().contains(y) == before.to_set().insert(x@).contains(y) by {
            if after.contains(y) {
                let k = choose|k: int| 0 <= k < after.len() && after[k] == y;
                if k < p {
                    assert(before[k] == y);
                } else if k > p {
                    assert(before[k - 1] == y);
                }
            }
            if before.contains(y) {
                let k = choose|k: int| 0 <= k < before.len() && before[k] == y;
                if k < p {
                    assert(after[k] == y);
                } else {
                    assert(after[k + 1] == y);
                }
            }
            if y == x@ {
                assert(after[p as int] == y);
            }
        }
        assert(after.to_set() =~= before.to_set().insert(x@));
        assert(ascending_texts(after));
    }
}

/// The order of texts is transitive.
pub proof fn lemma_text_lt_transitive(a: Seq<char>, b: Seq<char>, c: Seq<char>)
    requires
        text_lt(a, b),
        text_lt(b, c),
    ensures
        text_lt(a, c),
    decreases a.len(),
{
    if a.len() > 0 && b.len() > 0 && c.len() > 0 && a[0] == b[0] && b[0] == c[0] {
        lemma_text_lt_transitive(a.drop_first(), b.drop_first(), c.drop_first());
    }
}

/// In an ascending list every text sorts before every later one.
pub proof fn lemma_ascending_ordered(s: Seq<Seq<char>>, i: int, j: int)
    requires
        ascending_texts(s),
        0 <= i < j < s.len(),
    ensures
        text_lt(s[i], s[j]),
        s[i] != s[j],
    decreases j - i,
{
    if j > i + 1 {
        lemma_ascending_ordered(s, i, j - 1);
        assert(text_lt(s[j - 1], s[(j - 1) + 1]));
        lemma_text_lt_transitive(s[i], s[j - 1], s[j]);
    } else {
        assert(text_lt(s[i], s[i + 1]));
    }
    if s[i] == s[j] {
        lemma_text_lt_irreflexive(s[i]);
    }
}

} // verus!
