use vstd::prelude::*;

use crate::text::{is_ws, is_whitespace, slice_range};

verus! {

/// The views of a vector of character vectors.
pub open spec fn views(v: Seq<Vec<char>>) -> Seq<Seq<char>> {
    v.map_values(|x: Vec<char>| x@)
}

pub proof fn lemma_views_push(v: Seq<Vec<char>>, x: Vec<char>)
    ensures
        views(v.push(x)) == views(v).push(x@),
{
    assert(views(v.push(x)) =~= views(v).push(x@));
}

// ---------------------------------------------------------------------------
// Splitting on a separator character (`str::split(char)`)
// ---------------------------------------------------------------------------

/// The pieces between occurrences of `sep`; never empty.
pub open spec fn split_on(s: Seq<char>, sep: char) -> Seq<Seq<char>>
    decreases s.len(),
{
    if s.len() == 0 {
        seq![Seq::<char>::empty()]
    } else {
        let p = split_on(s.drop_last(), sep);
        if s.last() == sep {
            p.push(Seq::<char>::empty())
        } else {
            p.update(p.len() - 1, p.last().push(s.last()))
        }
    }
}

pub proof fn lemma_split_nonempty(s: Seq<char>, sep: char)
    ensures
        split_on(s, sep).len() >= 1,
    decreases s.len(),
{
    if s.len() > 0 {
        lemma_split_nonempty(s.drop_last(), sep);
    }
}

pub fn split_char(s: &Vec<char>, sep: char) -> (r: Vec<Vec<char>>)
    ensures
        views(r@) == split_on(s@, sep),
{
    let mut done: Vec<Vec<char>> = Vec::new();
    let mut cur: Vec<char> = Vec::new();
    let mut i: usize = 0;
    while i < s.len()
        invariant
            i <= s.len(),
            views(done@).push(cur@) == split_on(s@.take(i as int), sep),
        decreases s.len() - i,
    {
        let c = s[i];
        proof {
            assert(s@.take(i + 1).drop_last() == s@.take(i as int));
            lemma_split_nonempty(s@.take(i as int), sep);
        }
        if c == sep {
            let old_cur = cur;
            proof {
                lemma_views_push(done@, old_cur);
            }
            done.push(old_cur);
            cur = Vec::new();
            proof {
                assert(views(done@).push(cur@) =~= split_on(s@.take(i + 1), sep));
            }
        } else {
            cur.push(c);
            proof {
                assert(views(done@).push(cur@) =~= split_on(s@.take(i + 1), sep));
            }
        }
        i = i + 1;
    }
    proof {
        assert(s@.take(s.len() as int) == s@);
        lemma_views_push(done@, cur);
    }
    done.push(cur);
    done
}

// ---------------------------------------------------------------------------
// Lines (`str::lines`)
// ---------------------------------------------------------------------------

pub open spec fn strip_cr(l: Seq<char>) -> Seq<char> {
    if l.len() > 0 && l.last() == '\r' {
        l.drop_last()
    } else {
        l
    }
}

/// The lines of a text: pieces ended by `\n` lose a trailing `\r`, and a final
/// empty piece (after a last `\n`, or of an empty text) is not a line.
pub open spec fn lines(s: Seq<char>) -> Seq<Seq<char>> {
    let parts = split_on(s, '\n');
    let ended = parts.take(parts.len() - 1).map_values(|l: Seq<char>| strip_cr(l));
    if parts.last().len() == 0 {
        ended
    } else {
        ended.push(parts.last())
    }
}

pub fn strip_cr_exec(l: Vec<char>) -> (r: Vec<char>)
    ensures
        r@ == strip_cr(l@),
{
    let mut l = l;
    if l.len() > 0 && l[l.len() - 1] == '\r' {
        l.pop();
    }
    l
}

pub fn lines_of(s: &Vec<char>) -> (r: Vec<Vec<char>>)
    ensures
        views(r@) == lines(s@),
{
    let parts = split_char(s, '\n');
    proof {
        lemma_split_nonempty(s@, '\n');
    }
    let n = parts.len();
    let mut r: Vec<Vec<char>> = Vec::new();
    let mut i: usize = 0;
    while i + 1 < n
        invariant
            n == parts.len() >= 1,
            i + 1 <= n,
            views(parts@) == split_on(s@, '\n'),
            views(r@) == split_on(s@, '\n').take(i as int).map_values(
                |l: Seq<char>| strip_cr(l),
            ),
        decreases n - i,
    {
        let l = strip_cr_exec(parts[i].clone());
        proof {
            lemma_views_push(r@, l);
            assert(parts@[i as int]@ == split_on(s@, '\n')[i as int]);
        }
        r.push(l);
        proof {
            assert(split_on(s@, '\n').take(i + 1).map_values(|l: Seq<char>| strip_cr(l))
                =~= split_on(s@, '\n').take(i as int).map_values(|l: Seq<char>| strip_cr(l)).push(
                strip_cr(split_on(s@, '\n')[i as int]),
            ));
        }
        i = i + 1;
    }
    let last = parts[n - 1].clone();
    proof {
        assert(last@ == split_on(s@, '\n').last());
    }
    if last.len() > 0 {
        proof {
            lemma_views_push(r@, last);
        }
        r.push(last);
    }
    r
}

// ---------------------------------------------------------------------------
// Whitespace-separated fields (`str::split_whitespace`)
// ---------------------------------------------------------------------------

/// The maximal runs of non-whitespace characters.
pub open spec fn ws_fields(s: Seq<char>) -> Seq<Seq<char>>
    decreases s.len(),
{
    if s.len() == 0 {
        Seq::<Seq<char>>::empty()
    } else {
        let p = ws_fields(s.drop_last());
        let c = s.last();
        if is_ws(c) {
            p
        } else if s.len() >= 2 && !is_ws(s[s.len() - 2]) && p.len() > 0 {
            p.update(p.len() - 1, p.last().push(c))
        } else {
            p.push(seq![c])
        }
    }
}

pub fn ws_fields_of(s: &Vec<char>) -> (r: Vec<Vec<char>>)
    ensures
        views(r@) == ws_fields(s@),
{
    let mut done: Vec<Vec<char>> = Vec::new();
    let mut cur: Vec<char> = Vec::new();
    let mut i: usize = 0;
    while i < s.len()
        invariant
            i <= s.len(),
            cur@.len() == 0 ==> views(done@) == ws_fields(s@.take(i as int)),
            cur@.len() == 0 ==> i == 0 || is_ws(s@[i - 1]),
            cur@.len() > 0 ==> i > 0 && !is_ws(s@[i - 1]) && views(done@).push(cur@) == ws_fields(
                s@.take(i as int),
            ),
        decreases s.len() - i,
    {
        let c = s[i];
        proof {
            assert(s@.take(i + 1).drop_last() == s@.take(i as int));
            assert(s@.take(i + 1).last() == c);
        }
        if is_whitespace(c) {
            if cur.len() > 0 {
                let old_cur = cur;
                proof {
                    lemma_views_push(done@, old_cur);
                }
                done.push(old_cur);
                cur = Vec::new();
            }
        } else {
            proof {
                if cur@.len() > 0 {
                    assert(s@.take(i + 1)[i - 1] == s@[i - 1]);
                    let p = ws_fields(s@.take(i as int));
                    assert(p == views(done@).push(cur@));
                    assert(ws_fields(s@.take(i + 1)) == p.update(p.len() - 1, p.last().push(c)));
                    assert(views(done@).push(cur@.push(c)) =~= p.update(
                        p.len() - 1,
                        p.last().push(c),
                    ));
                } else {
                    if i >= 1 {
                        assert(s@.take(i + 1)[i - 1] == s@[i - 1]);
                    }
                    let p = ws_fields(s@.take(i as int));
                    assert(ws_fields(s@.take(i + 1)) == p.push(seq![c]));
                    assert(cur@.push(c) =~= seq![c]);
                    assert(views(done@).push(cur@.push(c)) =~= ws_fields(s@.take(i + 1)));
                }
            }
            cur.push(c);
        }
        i = i + 1;
    }
    proof {
        assert(s@.take(s.len() as int) == s@);
    }
    if cur.len() > 0 {
        proof {
            lemma_views_push(done@, cur);
        }
        done.push(cur);
    }
    done
}

// ---------------------------------------------------------------------------
// Trimming (`str::trim`)
// ---------------------------------------------------------------------------

pub open spec fn trim_start(s: Seq<char>) -> Seq<char>
    decreases s.len(),
{
    if s.len() > 0 && is_ws(s[0]) {
        trim_start(s.drop_first())
    } else {
        s
    }
}

pub open spec fn trim_end(s: Seq<char>) -> Seq<char>
    decreases s.len(),
{
    if s.len() > 0 && is_ws(s.last()) {
        trim_end(s.drop_last())
    } else {
        s
    }
}

pub open spec fn trim(s: Seq<char>) -> Seq<char> {
    trim_end(trim_start(s))
}

proof fn lemma_trim_start_skip(s: Seq<char>, i: int)
    requires
        0 <= i <= s.len(),
        forall|j: int| 0 <= j < i ==> is_ws(s[j]),
        i == s.len() || !is_ws(s[i]),
    ensures
        trim_start(s) == s.skip(i),
    decreases i,
{
    if i > 0 {
        assert(s.drop_first().skip(i - 1) == s.skip(i));
        lemma_trim_start_skip(s.drop_first(), i - 1);
    } else {
        assert(s.skip(0) == s);
    }
}

proof fn lemma_trim_end_take(s: Seq<char>, k: int)
    requires
        0 <= k <= s.len(),
        forall|j: int| k <= j < s.len() ==> is_ws(s[j]),
        k == 0 || !is_ws(s[k - 1]),
    ensures
        trim_end(s) == s.take(k),
    decreases s.len() - k,
{
    if k < s.len() {
        assert(s.drop_last().take(k) == s.take(k));
        lemma_trim_end_take(s.drop_last(), k);
    } else {
        assert(s.take(k) == s);
    }
}

pub fn trim_exec(s: &Vec<char>) -> (r: Vec<char>)
    ensures
        r@ == trim(s@),
{
    let mut a: usize = 0;
    while a < s.len() && is_whitespace(s[a])
        invariant
            a <= s.len(),
            forall|j: int| 0 <= j < a ==> is_ws(s@[j]),
        decreases s.len() - a,
    {
        a = a + 1;
    }
    proof {
        lemma_trim_start_skip(s@, a as int);
    }
    let mut b: usize = s.len();
    while b > a && is_whitespace(s[b - 1])
        invariant
            a <= b <= s.len(),
            forall|j: int| b <= j < s.len() ==> is_ws(s@[j]),
        decreases b,
    {
        b = b - 1;
    }
    proof {
        let t = s@.skip(a as int);
        assert forall|j: int| (b - a) <= j < t.len() implies is_ws(t[j]) by {
            assert(t[j] == s@[a + j]);
        }
        if b > a {
            assert(t[b - a - 1] == s@[b - 1]);
        }
        lemma_trim_end_take(t, b - a);
        assert(t.take(b - a) =~= s@.subrange(a as int, b as int));
    }
    slice_range(s, a, b)
}

// ---------------------------------------------------------------------------
// `split_once` with a character or a string pattern
// ---------------------------------------------------------------------------

pub open spec fn split_once_char(s: Seq<char>, c: char) -> Option<(Seq<char>, Seq<char>)> {
    if crate::text::has_char(s, c) {
        let i = choose|i: int| crate::text::first_at(s, c, i);
        Some((s.take(i), s.skip(i + 1)))
    } else {
        None
    }
}

pub proof fn lemma_first_at_unique(s: Seq<char>, c: char, i: int, j: int)
    requires
        crate::text::first_at(s, c, i),
        crate::text::first_at(s, c, j),
    ensures
        i == j,
{
}

pub fn split_once_char_exec(s: &Vec<char>, c: char) -> (r: Option<(Vec<char>, Vec<char>)>)
    ensures
        match (r, split_once_char(s@, c)) {
            (Some((a, b)), Some((x, y))) => a@ == x && b@ == y,
            (None, None) => true,
            _ => false,
        },
{
    let len = s.len();
    match crate::text::find_char(s, c) {
        Some(i) => {
            proof {
                let k = choose|k: int| crate::text::first_at(s@, c, k);
                lemma_first_at_unique(s@, c, i as int, k);
                assert(i < len);
            }
            Some((slice_range(s, 0, i), slice_range(s, i + 1, len)))
        },
        None => None,
    }
}

pub open spec fn split_once_sub(s: Seq<char>, n: Seq<char>) -> Option<(Seq<char>, Seq<char>)> {
    if crate::text::contains(s, n) {
        let i = choose|i: int|
            crate::text::matches_at(s, n, i) && forall|j: int|
                0 <= j < i ==> !#[trigger] crate::text::matches_at(s, n, j);
        Some((s.take(i), s.skip(i + n.len())))
    } else {
        None
    }
}

pub fn split_once_sub_exec(s: &Vec<char>, n: &Vec<char>) -> (r: Option<(Vec<char>, Vec<char>)>)
    ensures
        match (r, split_once_sub(s@, n@)) {
            (Some((a, b)), Some((x, y))) => a@ == x && b@ == y,
            (None, None) => true,
            _ => false,
        },
{
    let len = s.len();
    match crate::text::find_sub(s, n) {
        Some(i) => {
            proof {
                let k = choose|k: int|
                    crate::text::matches_at(s@, n@, k) && forall|j: int|
                        0 <= j < k ==> !#[trigger] crate::text::matches_at(s@, n@, j);
                if k < i {
                } else if i < k {
                }
                assert(k == i);
                assert(i + n@.len() <= len);
            }
            Some((slice_range(s, 0, i), slice_range(s, i + n.len(), len)))
        },
        None => None,
    }
}

} // verus!

verus! {

/// Every whitespace-separated field is non-empty.
pub proof fn lemma_ws_field_nonempty(s: Seq<char>, k: int)
    requires
        0 <= k < ws_fields(s).len(),
    ensures
        ws_fields(s)[k].len() > 0,
    decreases s.len(),
{
    if s.len() > 0 {
        let p = ws_fields(s.drop_last());
        if k < p.len() {
            lemma_ws_field_nonempty(s.drop_last(), k);
        }
    }
}

} // verus!
