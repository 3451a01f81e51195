use vstd::prelude::*;

use crate::split::{lemma_split_nonempty, split_char, split_on, views};
use crate::text::{chars_eq, eq_str, push_all};

verus! {

// Paths are held as text. Their components are read the way `Path::components`
// reads a Unix path: a leading `/` is the root, empty pieces and `.` pieces are
// skipped, except a `.` that starts a relative path.

pub open spec fn dot() -> Seq<char> {
    seq!['.']
}

pub open spec fn slash() -> Seq<char> {
    seq!['/']
}

/// Keeps the pieces that name something: not empty and not `.`.
pub open spec fn named_pieces(ps: Seq<Seq<char>>) -> Seq<Seq<char>>
    decreases ps.len(),
{
    if ps.len() == 0 {
        ps
    } else {
        let rest = named_pieces(ps.drop_last());
        if ps.last().len() == 0 || ps.last() == dot() {
            rest
        } else {
            rest.push(ps.last())
        }
    }
}

/// The components of a path, the root written `/`.
pub open spec fn components(p: Seq<char>) -> Seq<Seq<char>> {
    let ps = split_on(p, '/');
    if p.len() > 0 && p[0] == '/' {
        seq![slash()] + named_pieces(ps.drop_first())
    } else if ps[0] == dot() {
        seq![dot()] + named_pieces(ps.drop_first())
    } else {
        named_pieces(ps)
    }
}

/// The last component when it is a name (`Path::file_name`).
pub open spec fn file_name(p: Seq<char>) -> Option<Seq<char>> {
    let cs = components(p);
    if cs.len() == 0 {
        None
    } else {
        let last = cs.last();
        if last == slash() || last == dot() || last == seq!['.', '.'] {
            None
        } else {
            Some(last)
        }
    }
}

/// The path made by pushing components in order onto an empty path.
pub open spec fn join_components(cs: Seq<Seq<char>>) -> Seq<char>
    decreases cs.len(),
{
    if cs.len() == 0 {
        Seq::<char>::empty()
    } else {
        let p = join_components(cs.drop_last());
        if p.len() == 0 || p.last() == '/' {
            p + cs.last()
        } else {
            p + slash() + cs.last()
        }
    }
}

fn is_dot(v: &Vec<char>) -> (r: bool)
    ensures
        r == (v@ == dot()),
{
    let ok = v.len() == 1 && v[0] == '.';
    proof {
        if v@.len() == 1 && v@[0] == '.' {
            assert(v@ =~= dot());
        }
    }
    ok
}

fn is_dot_dot(v: &Vec<char>) -> (r: bool)
    ensures
        r == (v@ == seq!['.', '.']),
{
    let ok = v.len() == 2 && v[0] == '.' && v[1] == '.';
    proof {
        if v@.len() == 2 && v@[0] == '.' && v@[1] == '.' {
            assert(v@ =~= seq!['.', '.']);
        }
    }
    ok
}

fn is_slash(v: &Vec<char>) -> (r: bool)
    ensures
        r == (v@ == slash()),
{
    let ok = v.len() == 1 && v[0] == '/';
    proof {
        if v@.len() == 1 && v@[0] == '/' {
            assert(v@ =~= slash());
        }
    }
    ok
}

/// The components of a path.
pub fn components_of(p: &Vec<char>) -> (r: Vec<Vec<char>>)
    ensures
        views(r@) == components(p@),
{
    let pieces = split_char(p, '/');
    proof {
        lemma_split_nonempty(p@, '/');
    }
    let mut r: Vec<Vec<char>> = Vec::new();
    let ghost head: Seq<Seq<char>>;
    let mut i: usize;
    if p.len() > 0 && p[0] == '/' {
        let mut root: Vec<char> = Vec::new();
        root.push('/');
        r.push(root);
        i = 1;
        proof {
            head = seq![slash()];
            assert(views(r@) =~= head);
        }
    } else if is_dot(&pieces[0]) {
        let mut d: Vec<char> = Vec::new();
        d.push('.');
        r.push(d);
        i = 1;
        proof {
            head = seq![dot()];
            assert(views(r@) =~= head);
        }
    } else {
        i = 0;
        proof {
            head = Seq::empty();
            assert(views(r@) =~= head);
        }
    }
    let ghost start = i as int;
    proof {
        assert(named_pieces(split_on(p@, '/').subrange(start, start)) =~= Seq::<Seq<char>>::empty());
        assert(head + Seq::<Seq<char>>::empty() =~= head);
    }
    while i < pieces.len()
        invariant
            0 <= start <= i <= pieces.len(),
            pieces.len() >= 1,
            views(pieces@) == split_on(p@, '/'),
            views(r@) == head + named_pieces(split_on(p@, '/').subrange(start, i as int)),
        decreases pieces.len() - i,
    {
        let piece = &pieces[i];
        proof {
            let ps = split_on(p@, '/');
            assert(ps.subrange(start, i + 1).drop_last() == ps.subrange(start, i as int));
            assert(ps.subrange(start, i + 1).last() == piece@);
        }
        if piece.len() > 0 && !is_dot(piece) {
            let c = piece.clone();
            proof {
                crate::split::lemma_views_push(r@, c);
            }
            r.push(c);
            proof {
                let ps = split_on(p@, '/');
                assert(views(r@) =~= head + named_pieces(ps.subrange(start, i + 1)));
            }
        }
        i = i + 1;
    }
    proof {
        let ps = split_on(p@, '/');
        if start == 1 {
            assert(ps.subrange(1, ps.len() as int) == ps.drop_first());
        } else {
            assert(ps.subrange(0, ps.len() as int) == ps);
            assert(head + named_pieces(ps) =~= named_pieces(ps));
        }
    }
    r
}

/// The file name of a path.
pub fn file_name_of(p: &Vec<char>) -> (r: Option<Vec<char>>)
    ensures
        match (r, file_name(p@)) {
            (Some(a), Some(b)) => a@ == b,
            (None, None) => true,
            _ => false,
        },
{
    let cs = components_of(p);
    if cs.len() == 0 {
        return None;
    }
    let last = &cs[cs.len() - 1];
    proof {
        assert(last@ == components(p@).last());
    }
    if is_slash(last) || is_dot(last) || is_dot_dot(last) {
        None
    } else {
        Some(last.clone())
    }
}

} // verus!
