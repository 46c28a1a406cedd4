use vstd::prelude::*;

use crate::text::{chars_of, slices_equal_chars};

verus! {

/// The pieces of a path between its `/` separators, empty ones included.
pub open spec fn pieces(s: Seq<char>) -> Seq<Seq<char>>
    decreases s.len(),
{
    if s.len() == 0 {
        seq![seq![]]
    } else {
        let prev = pieces(s.drop_last());
        if s.last() == '/' {
            prev.push(seq![])
        } else {
            prev.update(prev.len() - 1, prev.last().push(s.last()))
        }
    }
}

pub proof fn lemma_pieces_nonempty(s: Seq<char>)
    ensures
        pieces(s).len() >= 1,
    decreases s.len(),
{
    if s.len() > 0 {
        lemma_pieces_nonempty(s.drop_last());
    }
}

/// Splits a path at its separators.
pub fn split_pieces(s: &str) -> (r: Vec<Vec<char>>)
    ensures
        r@.len() == pieces(s@).len(),
        forall|k: int| 0 <= k < r@.len() ==> (#[trigger] r@[k])@ == pieces(s@)[k],
{
    let cs = chars_of(s);
    let mut r: Vec<Vec<char>> = Vec::new();
    let mut cur: Vec<char> = Vec::new();
    let mut i: usize = 0;
    while i < cs.len()
        invariant
            i <= cs@.len(),
            cs@ == s@,
            r@.len() + 1 == pieces(cs@.take(i as int)).len(),
            forall|k: int| 0 <= k < r@.len() ==> (#[trigger] r@[k])@ == pieces(cs@.take(i as int))[k],
            cur@ == pieces(cs@.take(i as int)).last(),
        decreases cs@.len() - i,
    {
        proof {
            assert(cs@.take(i as int + 1).drop_last() =~= cs@.take(i as int));
            assert(cs@.take(i as int + 1).last() == cs@[i as int]);
            lemma_pieces_nonempty(cs@.take(i as int));
        }
        if cs[i] == '/' {
            let done = cur;
            r.push(done);
            cur = Vec::new();
        } else {
            cur.push(cs[i]);
        }
        i = i + 1;
    }
    assert(cs@.take(cs@.len() as int) =~= cs@);
    r.push(cur);
    r
}

pub open spec fn is_dot(p: Seq<char>) -> bool {
    p == Seq::<char>::empty() || p == "."@
}

/// Walks the pieces of a relative path from its starting directory: the
/// depth reached, and whether some `..` climbed above the start.
pub open spec fn walk(ps: Seq<Seq<char>>) -> (int, bool)
    decreases ps.len(),
{
    if ps.len() == 0 {
        (0, false)
    } else {
        let prev = walk(ps.drop_last());
        let p = ps.last();
        if is_dot(p) {
            prev
        } else if p == ".."@ {
            (prev.0 - 1, prev.1 || prev.0 - 1 < 0)
        } else {
            (prev.0 + 1, prev.1)
        }
    }
}

/// A relative path that leaves its starting directory on the way.
pub open spec fn escapes_spec(path: Seq<char>) -> bool {
    walk(pieces(path)).1
}

proof fn lemma_walk_depth(ps: Seq<Seq<char>>)
    ensures
        -(ps.len() as int) <= walk(ps).0 <= ps.len(),
    decreases ps.len(),
{
    if ps.len() > 0 {
        lemma_walk_depth(ps.drop_last());
    }
}

pub fn path_escapes(path: &str) -> (b: bool)
    ensures
        b == escapes_spec(path@),
{
    let ps = split_pieces(path);
    let ghost pv = pieces(path@);
    let dots = chars_of("..");
    let dot = chars_of(".");
    let mut depth: i128 = 0;
    let mut escaped = false;
    let mut i: usize = 0;
    while i < ps.len()
        invariant
            i <= ps@.len(),
            ps@.len() == pv.len(),
            pv == pieces(path@),
            dots@ == ".."@,
            dot@ == "."@,
            forall|k: int| 0 <= k < ps@.len() ==> (#[trigger] ps@[k])@ == pv[k],
            depth as int == walk(pv.take(i as int)).0,
            escaped == walk(pv.take(i as int)).1,
        decreases ps@.len() - i,
    {
        proof {
            assert(pv.take(i as int + 1).drop_last() =~= pv.take(i as int));
            assert(pv.take(i as int + 1).last() == pv[i as int]);
            lemma_walk_depth(pv.take(i as int));
        }
        let p = ps[i].as_slice();
        if p.len() == 0 || slices_equal_chars(p, dot.as_slice()) {
            assert(is_dot(pv[i as int])) by {
                if p@.len() == 0 {
                    assert(pv[i as int] =~= Seq::<char>::empty());
                }
            }
        } else if slices_equal_chars(p, dots.as_slice()) {
            assert(!is_dot(pv[i as int]));
            depth = depth - 1;
            escaped = escaped || depth < 0;
        } else {
            assert(!is_dot(pv[i as int])) by {
                if pv[i as int] == Seq::<char>::empty() {
                    assert(p@.len() == 0);
                }
            }
            depth = depth + 1;
        }
        i = i + 1;
    }
    assert(pv.take(pv.len() as int) =~= pv);
    escaped
}

/// The named components of a path: its pieces less empty and `.` ones.
pub open spec fn components(ps: Seq<Seq<char>>) -> Seq<Seq<char>>
    decreases ps.len(),
{
    if ps.len() == 0 {
        Seq::empty()
    } else {
        let prev = components(ps.drop_last());
        if is_dot(ps.last()) {
            prev
        } else {
            prev.push(ps.last())
        }
    }
}

pub open spec fn is_absolute_spec(path: Seq<char>) -> bool {
    path.len() > 0 && path[0] == '/'
}

/// `path` lies at or below `base`: both absolute or both relative, and the
/// components of `base` begin those of `path`.
pub open spec fn within_spec(base: Seq<char>, path: Seq<char>) -> bool {
    let b = components(pieces(base));
    let p = components(pieces(path));
    &&& is_absolute_spec(base) == is_absolute_spec(path)
    &&& b.len() <= p.len()
    &&& p.take(b.len() as int) == b
}

fn components_of(path: &str) -> (r: Vec<Vec<char>>)
    ensures
        r@.len() == components(pieces(path@)).len(),
        forall|k: int| 0 <= k < r@.len() ==> (#[trigger] r@[k])@ == components(pieces(path@))[k],
{
    let ps = split_pieces(path);
    let ghost pv = pieces(path@);
    let dot = chars_of(".");
    let mut r: Vec<Vec<char>> = Vec::new();
    let mut i: usize = 0;
    while i < ps.len()
        invariant
            i <= ps@.len(),
            ps@.len() == pv.len(),
            pv == pieces(path@),
            dot@ == "."@,
            forall|k: int| 0 <= k < ps@.len() ==> (#[trigger] ps@[k])@ == pv[k],
            r@.len() == components(pv.take(i as int)).len(),
            forall|k: int| 0 <= k < r@.len() ==> (#[trigger] r@[k])@ == components(pv.take(i as int))[k],
        decreases ps@.len() - i,
    {
        proof {
            assert(pv.take(i as int + 1).drop_last() =~= pv.take(i as int));
            assert(pv.take(i as int + 1).last() == pv[i as int]);
        }
        let p = ps[i].clone();
        assert(p@ == pv[i as int]);
        if p.len() == 0 || slices_equal_chars(p.as_slice(), dot.as_slice()) {
            assert(is_dot(pv[i as int])) by {
                if p@.len() == 0 {
                    assert(pv[i as int] =~= Seq::<char>::empty());
                }
            }
        } else {
            assert(!is_dot(pv[i as int])) by {
                if pv[i as int] == Seq::<char>::empty() {
                    assert(p@.len() == 0);
                }
            }
            r.push(p);
        }
        i = i + 1;
    }
    assert(pv.take(pv.len() as int) =~= pv);
    r
}

/// Whether `path` lies at or below `base`, compared component by component
/// as `Path::starts_with` does for paths without `.` or `..` components.
pub fn path_within(base: &str, path: &str) -> (b: bool)
    ensures
        b == within_spec(base@, path@),
{
    let bs = chars_of(base);
    let ps_chars = chars_of(path);
    let base_abs = bs.len() > 0 && bs[0] == '/';
    let path_abs = ps_chars.len() > 0 && ps_chars[0] == '/';
    if base_abs != path_abs {
        return false;
    }
    let b = components_of(base);
    let p = components_of(path);
    let ghost bv = components(pieces(base@));
    let ghost pv = components(pieces(path@));
    if b.len() > p.len() {
        return false;
    }
    let mut i: usize = 0;
    while i < b.len()
        invariant
            i <= b@.len(),
            b@.len() <= p@.len(),
            bv == components(pieces(base@)),
            pv == components(pieces(path@)),
            base_abs == path_abs,
            base_abs == is_absolute_spec(base@),
            path_abs == is_absolute_spec(path@),
            b@.len() == bv.len(),
            p@.len() == pv.len(),
            forall|k: int| 0 <= k < b@.len() ==> (#[trigger] b@[k])@ == bv[k],
            forall|k: int| 0 <= k < p@.len() ==> (#[trigger] p@[k])@ == pv[k],
            forall|k: int| 0 <= k < i ==> pv[k] == bv[k],
        decreases b@.len() - i,
    {
        if !slices_equal_chars(b[i].as_slice(), p[i].as_slice()) {
            assert(b@[i as int]@ != p@[i as int]@);
            assert(pv.take(bv.len() as int)[i as int] != bv[i as int]);
            assert(pv.take(bv.len() as int) != bv);
            return false;
        }
        i = i + 1;
    }
    assert(pv.take(bv.len() as int) =~= bv);
    true
}

} // verus!
