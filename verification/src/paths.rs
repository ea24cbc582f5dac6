//! Unix path text: joining, splitting into components, and component-wise
//! prefix tests.
//!
//! A path's components follow the standard library's reading of a Unix path:
//! a leading `/` is the root component, a leading `.` segment is the current
//! directory, empty segments and later `.` segments vanish, and every other
//! segment (`..` included) is a component of its own.

use vstd::prelude::*;

use crate::text::{chars_of, same_chars, string_of};

verus! {

/// The root component, as it is represented in [`components`].
pub open spec fn root_component() -> Seq<char> {
    seq!['/']
}

/// The current-directory component `.`.
pub open spec fn cur_component() -> Seq<char> {
    seq!['.']
}

/// The parent-directory component `..`.
pub open spec fn parent_component() -> Seq<char> {
    seq!['.', '.']
}

/// The text between the `/` separators of `s`, in order (`""` gives one empty segment).
pub open spec fn segments(s: Seq<char>) -> Seq<Seq<char>>
    decreases s.len(),
{
    if s.len() == 0 {
        seq![seq![]]
    } else {
        let p = segments(s.drop_last());
        if s.last() == '/' {
            p.push(seq![])
        } else {
            p.update(p.len() - 1, p.last().push(s.last()))
        }
    }
}

/// The segments that are components in their own right: non-empty and not `.`.
pub open spec fn normal_parts(segs: Seq<Seq<char>>) -> Seq<Seq<char>>
    decreases segs.len(),
{
    if segs.len() == 0 {
        seq![]
    } else {
        let p = normal_parts(segs.drop_last());
        let g = segs.last();
        if g.len() > 0 && g != cur_component() {
            p.push(g)
        } else {
            p
        }
    }
}

/// The components of a Unix path.
pub open spec fn components(s: Seq<char>) -> Seq<Seq<char>> {
    let segs = segments(s);
    if s.len() > 0 && s[0] == '/' {
        seq![root_component()] + normal_parts(segs)
    } else if segs[0] == cur_component() {
        seq![cur_component()] + normal_parts(segs.drop_first())
    } else {
        normal_parts(segs)
    }
}

/// `a + "/" + b`, or `a + b` when `a` is empty or already ends in `/` — the
/// standard library's `join` of a relative path.
pub open spec fn path_join(a: Seq<char>, b: Seq<char>) -> Seq<char> {
    if a.len() == 0 || a.last() == '/' {
        a + b
    } else {
        a + seq!['/'] + b
    }
}

proof fn lemma_segments_nonempty(s: Seq<char>)
    ensures
        segments(s).len() >= 1,
    decreases s.len(),
{
    if s.len() > 0 {
        lemma_segments_nonempty(s.drop_last());
    }
}

/// The segments of `cs`, as owned character vectors.
fn segments_of(cs: &[char]) -> (segs: Vec<Vec<char>>)
    ensures
        segs@.len() == segments(cs@).len(),
        forall|i: int| 0 <= i < segs@.len() ==> segs@[i]@ == segments(cs@)[i],
{
    let mut done: Vec<Vec<char>> = Vec::new();
    let mut cur: Vec<char> = Vec::new();
    let mut i: usize = 0;
    proof {
        assert(cs@.take(0) =~= Seq::<char>::empty());
    }
    while i < cs.len()
        invariant
            i <= cs@.len(),
            done@.len() + 1 == segments(cs@.take(i as int)).len(),
            forall|j: int| 0 <= j < done@.len() ==> done@[j]@ == segments(cs@.take(i as int))[j],
            cur@ == segments(cs@.take(i as int)).last(),
        decreases cs@.len() - i,
    {
        let c = cs[i];
        let ghost pre = cs@.take(i as int);
        proof {
            assert(cs@.take(i + 1).drop_last() =~= pre);
            assert(cs@.take(i + 1).last() == c);
            lemma_segments_nonempty(pre);
        }
        if c == '/' {
            let finished = cur;
            done.push(finished);
            cur = Vec::new();
        } else {
            cur.push(c);
        }
        proof {
            let segs = segments(cs@.take(i + 1));
            if c == '/' {
                assert(segs == segments(pre).push(seq![]));
            } else {
                assert(segs == segments(pre).update(
                    segments(pre).len() - 1,
                    segments(pre).last().push(c),
                ));
            }
            assert forall|j: int| 0 <= j < done@.len() implies done@[j]@ == segs[j] by {}
        }
        i += 1;
    }
    proof {
        assert(cs@.take(i as int) =~= cs@);
    }
    let ghost pre_done = done@;
    done.push(cur);
    proof {
        assert forall|j: int| 0 <= j < done@.len() implies done@[j]@ == segments(cs@)[j] by {
            if j < pre_done.len() {
            } else {
            }
        }
    }
    done
}

fn is_cur(g: &Vec<char>) -> (r: bool)
    ensures
        r == (g@ == cur_component()),
{
    let r = g.len() == 1 && g[0] == '.';
    proof {
        if g@.len() == 1 && g@[0] == '.' {
            assert(g@ =~= cur_component());
        }
    }
    r
}

/// The components of `cs`, as owned character vectors.
pub fn components_of(cs: &[char]) -> (comps: Vec<Vec<char>>)
    ensures
        comps@.len() == components(cs@).len(),
        forall|i: int| 0 <= i < comps@.len() ==> comps@[i]@ == components(cs@)[i],
{
    let segs = segments_of(cs);
    proof {
        lemma_segments_nonempty(cs@);
    }
    let ghost all = segments(cs@);
    let mut out: Vec<Vec<char>> = Vec::new();
    let absolute = cs.len() > 0 && cs[0] == '/';
    let mut start: usize = 0;
    if absolute {
        out.push(vec!['/']);
        proof {
            assert(out@[0]@ =~= root_component());
        }
    } else if is_cur(&segs[0]) {
        out.push(vec!['.']);
        proof {
            assert(out@[0]@ =~= cur_component());
        }
        start = 1;
    }
    let ghost head = out@.map_values(|v: Vec<char>| v@);
    let ghost base = if start == 1 {
        all.drop_first()
    } else {
        all
    };
    proof {
        assert(all.subrange(start as int, start as int) =~= Seq::<Seq<char>>::empty());
        assert(base =~= all.subrange(start as int, all.len() as int));
    }
    let mut k: usize = start;
    while k < segs.len()
        invariant
            start <= k <= segs@.len(),
            segs@.len() == all.len(),
            forall|i: int| 0 <= i < segs@.len() ==> segs@[i]@ == all[i],
            base == all.subrange(start as int, all.len() as int),
            head.len() <= out@.len(),
            forall|i: int| 0 <= i < head.len() ==> out@[i]@ == head[i],
            out@.len() == head.len() + normal_parts(all.subrange(start as int, k as int)).len(),
            forall|i: int|
                head.len() <= i < out@.len() ==> out@[i]@ == normal_parts(
                    all.subrange(start as int, k as int),
                )[i - head.len()],
        decreases segs@.len() - k,
    {
        let ghost pre = all.subrange(start as int, k as int);
        proof {
            assert(all.subrange(start as int, k + 1).drop_last() =~= pre);
            assert(all.subrange(start as int, k + 1).last() == all[k as int]);
        }
        let g = &segs[k];
        if g.len() > 0 && !is_cur(g) {
            out.push(g.clone());
            proof {
                assert(out@.last()@ == all[k as int]);
            }
        }
        k += 1;
    }
    proof {
        assert(all.subrange(start as int, k as int) =~= base);
        let spec = components(cs@);
        if absolute {
            assert(spec == seq![root_component()] + normal_parts(all));
            assert(head =~= seq![root_component()]);
        } else if start == 1 {
            assert(spec == seq![cur_component()] + normal_parts(all.drop_first()));
            assert(head =~= seq![cur_component()]);
        } else {
            assert(spec == normal_parts(all));
            assert(head =~= Seq::<Seq<char>>::empty());
        }
        assert forall|i: int| 0 <= i < out@.len() implies out@[i]@ == spec[i] by {
            if i >= head.len() {
                assert(spec[i] == normal_parts(base)[i - head.len()]);
            }
        }
    }
    out
}

/// Whether the components of `base` are a prefix of the components of `path`
/// (the standard library's `Path::starts_with`).
pub fn path_starts_with(path: &str, base: &str) -> (r: bool)
    ensures
        r == components(base@).is_prefix_of(components(path@)),
{
    let p = components_of(chars_of(path).as_slice());
    let b = components_of(chars_of(base).as_slice());
    if b.len() > p.len() {
        return false;
    }
    let mut i: usize = 0;
    while i < b.len()
        invariant
            b@.len() <= p@.len(),
            i <= b@.len(),
            b@.len() == components(base@).len(),
            p@.len() == components(path@).len(),
            forall|j: int| 0 <= j < b@.len() ==> b@[j]@ == components(base@)[j],
            forall|j: int| 0 <= j < p@.len() ==> p@[j]@ == components(path@)[j],
            forall|j: int| 0 <= j < i ==> components(base@)[j] == components(path@)[j],
        decreases b@.len() - i,
    {
        if !same_chars(b[i].as_slice(), p[i].as_slice()) {
            proof {
                let cb = components(base@);
                let cp = components(path@);
                if cb.is_prefix_of(cp) {
                    assert(cb[i as int] == cp.take(cb.len() as int)[i as int]);
                }
            }
            return false;
        }
        i += 1;
    }
    proof {
        assert(components(path@).take(components(base@).len() as int) =~= components(base@));
    }
    true
}

/// `a` joined with the relative path `b` (see [`path_join`]).
pub fn join(a: &str, b: &str) -> (s: String)
    ensures
        s@ == path_join(a@, b@),
{
    let mut cs = chars_of(a);
    if cs.len() > 0 && cs[cs.len() - 1] != '/' {
        cs.push('/');
    }
    let mut bs = chars_of(b);
    let ghost left = cs@;
    cs.append(&mut bs);
    let s = string_of(cs.as_slice(), 0, cs.len());
    proof {
        assert(cs@.subrange(0, cs@.len() as int) =~= cs@);
        if a@.len() == 0 || a@.last() == '/' {
            assert(left =~= a@);
        } else {
            assert(left =~= a@ + seq!['/']);
        }
    }
    s
}

/// Whether two paths have the same components (the standard library's path
/// equality: `a//b` and `a/b/` equal `a/b`).
pub fn same_path(a: &str, b: &str) -> (r: bool)
    ensures
        r == (components(a@) == components(b@)),
{
    let ca = components_of(chars_of(a).as_slice());
    let cb = components_of(chars_of(b).as_slice());
    if ca.len() != cb.len() {
        return false;
    }
    let mut i: usize = 0;
    while i < ca.len()
        invariant
            ca@.len() == cb@.len(),
            i <= ca@.len(),
            ca@.len() == components(a@).len(),
            cb@.len() == components(b@).len(),
            forall|j: int| 0 <= j < ca@.len() ==> ca@[j]@ == components(a@)[j],
            forall|j: int| 0 <= j < cb@.len() ==> cb@[j]@ == components(b@)[j],
            forall|j: int| 0 <= j < i ==> components(a@)[j] == components(b@)[j],
        decreases ca@.len() - i,
    {
        if !same_chars(ca[i].as_slice(), cb[i].as_slice()) {
            proof {
                assert(components(a@)[i as int] != components(b@)[i as int]);
            }
            return false;
        }
        i += 1;
    }
    proof {
        assert(components(a@) =~= components(b@));
    }
    true
}

// ---------------------------------------------------------------------------
// Ordering of paths
// ---------------------------------------------------------------------------

/// The rank of a component kind in the standard library's order of
/// components: root, then current directory, then parent, then normal names.
pub open spec fn component_rank(c: Seq<char>) -> int {
    if c == root_component() {
        1
    } else if c == cur_component() {
        2
    } else if c == parent_component() {
        3
    } else {
        4
    }
}

/// `a` comes before `b` in code-point order (a proper prefix comes first);
/// for UTF-8 text this is the order of the bytes.
pub open spec fn chars_before(a: Seq<char>, b: Seq<char>) -> bool
    decreases a.len(),
{
    if a.len() == 0 {
        b.len() > 0
    } else if b.len() == 0 {
        false
    } else if a[0] != b[0] {
        (a[0] as int) < (b[0] as int)
    } else {
        chars_before(a.drop_first(), b.drop_first())
    }
}

/// One component comes before another: by kind, and normal names by their
/// text.
pub open spec fn component_before(a: Seq<char>, b: Seq<char>) -> bool {
    component_rank(a) < component_rank(b) || (component_rank(a) == 4 && component_rank(b) == 4
        && chars_before(a, b))
}

/// One list of components comes before another, element by element (a
/// proper prefix comes first).
pub open spec fn components_before(a: Seq<Seq<char>>, b: Seq<Seq<char>>) -> bool
    decreases a.len(),
{
    if a.len() == 0 {
        b.len() > 0
    } else if b.len() == 0 {
        false
    } else if a[0] != b[0] {
        component_before(a[0], b[0])
    } else {
        components_before(a.drop_first(), b.drop_first())
    }
}

/// Path `a` sorts before path `b`, as the standard library orders paths:
/// component by component.
pub open spec fn path_before(a: Seq<char>, b: Seq<char>) -> bool {
    components_before(components(a), components(b))
}

fn chars_before_exec(a: &[char], b: &[char]) -> (r: bool)
    ensures
        r == chars_before(a@, b@),
{
    let mut i: usize = 0;
    proof {
        assert(a@.skip(0) =~= a@);
        assert(b@.skip(0) =~= b@);
    }
    while i < a.len() && i < b.len()
        invariant
            i <= a@.len(),
            i <= b@.len(),
            chars_before(a@.skip(i as int), b@.skip(i as int)) == chars_before(a@, b@),
        decreases a@.len() - i,
    {
        let x = a[i];
        let y = b[i];
        proof {
            assert(a@.skip(i as int)[0] == x);
            assert(b@.skip(i as int)[0] == y);
            assert(a@.skip(i as int).drop_first() =~= a@.skip(i + 1));
            assert(b@.skip(i as int).drop_first() =~= b@.skip(i + 1));
        }
        if x != y {
            return x < y;
        }
        i += 1;
    }
    proof {
        if i == a@.len() {
            assert(a@.skip(i as int).len() == 0);
        } else {
            assert(b@.skip(i as int).len() == 0);
        }
    }
    i == a.len() && i < b.len()
}

fn rank_of(c: &Vec<char>) -> (r: u8)
    ensures
        r as int == component_rank(c@),
{
    if c.len() == 1 && c[0] == '/' {
        assert(c@ =~= root_component());
        1
    } else if c.len() == 1 && c[0] == '.' {
        assert(c@ =~= cur_component());
        proof {
            assert(c@ != root_component());
        }
        2
    } else if c.len() == 2 && c[0] == '.' && c[1] == '.' {
        assert(c@ =~= parent_component());
        3
    } else {
        proof {
            if c@ == root_component() {
                assert(c@[0] == '/');
            }
            if c@ == cur_component() {
                assert(c@[0] == '.');
            }
            if c@ == parent_component() {
                assert(c@[0] == '.' && c@[1] == '.');
            }
        }
        4
    }
}

fn component_before_exec(a: &Vec<char>, b: &Vec<char>) -> (r: bool)
    ensures
        r == component_before(a@, b@),
{
    let ra = rank_of(a);
    let rb = rank_of(b);
    ra < rb || (ra == 4 && rb == 4 && chars_before_exec(a.as_slice(), b.as_slice()))
}

/// Whether path `a` sorts before path `b` (see [`path_before`]).
pub fn path_less(a: &str, b: &str) -> (r: bool)
    ensures
        r == path_before(a@, b@),
{
    let ca = components_of(chars_of(a).as_slice());
    let cb = components_of(chars_of(b).as_slice());
    let ghost va = components(a@);
    let ghost vb = components(b@);
    let mut i: usize = 0;
    proof {
        assert(va.skip(0) =~= va);
        assert(vb.skip(0) =~= vb);
    }
    while i < ca.len() && i < cb.len()
        invariant
            va == components(a@),
            vb == components(b@),
            ca@.len() == va.len(),
            cb@.len() == vb.len(),
            forall|j: int| 0 <= j < ca@.len() ==> ca@[j]@ == va[j],
            forall|j: int| 0 <= j < cb@.len() ==> cb@[j]@ == vb[j],
            i <= va.len(),
            i <= vb.len(),
            components_before(va.skip(i as int), vb.skip(i as int)) == components_before(va, vb),
        decreases va.len() - i,
    {
        proof {
            assert(va.skip(i as int)[0] == ca@[i as int]@);
            assert(vb.skip(i as int)[0] == cb@[i as int]@);
            assert(va.skip(i as int).drop_first() =~= va.skip(i + 1));
            assert(vb.skip(i as int).drop_first() =~= vb.skip(i + 1));
        }
        if !same_chars(ca[i].as_slice(), cb[i].as_slice()) {
            proof {
                assert(va[i as int] == ca@[i as int]@);
                assert(vb[i as int] == cb@[i as int]@);
                assert(va.skip(i as int)[0] != vb.skip(i as int)[0]);
                assert(components_before(va.skip(i as int), vb.skip(i as int)) == component_before(
                    va[i as int],
                    vb[i as int],
                ));
            }
            let r = component_before_exec(&ca[i], &cb[i]);
            return r;
        }
        i += 1;
    }
    proof {
        if i == va.len() {
            assert(va.skip(i as int).len() == 0);
        } else {
            assert(vb.skip(i as int).len() == 0);
        }
    }
    i == ca.len() && i < cb.len()
}

proof fn lemma_chars_before_order(a: Seq<char>, b: Seq<char>, c: Seq<char>)
    ensures
        !chars_before(a, a),
        chars_before(a, b) ==> !chars_before(b, a),
        a != b ==> chars_before(a, b) || chars_before(b, a),
        chars_before(a, b) && chars_before(b, c) ==> chars_before(a, c),
    decreases a.len(),
{
    if a.len() > 0 {
        lemma_chars_before_order(a.drop_first(), a.drop_first(), a.drop_first());
        if b.len() > 0 {
            lemma_chars_before_order(a.drop_first(), b.drop_first(), b.drop_first());

            if a != b && a[0] == b[0] {
                assert(a.drop_first() != b.drop_first()) by {
                    if a.drop_first() == b.drop_first() {
                        assert(a =~= seq![a[0]] + a.drop_first());
                        assert(b =~= seq![b[0]] + b.drop_first());
                    }
                }
            }
            if c.len() > 0 {
                lemma_chars_before_order(a.drop_first(), b.drop_first(), c.drop_first());
            }
        }
    } else {
        if b.len() == 0 {
            assert(a =~= b);
        }
    }
}

proof fn lemma_component_before_order(a: Seq<char>, b: Seq<char>, c: Seq<char>)
    ensures
        !component_before(a, a),
        component_before(a, b) ==> !component_before(b, a),
        a != b ==> component_before(a, b) || component_before(b, a),
        component_before(a, b) && component_before(b, c) ==> component_before(a, c),
{
    lemma_chars_before_order(a, b, c);
    if a != b && component_rank(a) == component_rank(b) && component_rank(a) < 4 {
        assert(a == b);
    }
}

proof fn lemma_components_before_order(a: Seq<Seq<char>>, b: Seq<Seq<char>>, c: Seq<Seq<char>>)
    ensures
        !components_before(a, a),
        components_before(a, b) ==> !components_before(b, a),
        a != b ==> components_before(a, b) || components_before(b, a),
        components_before(a, b) && components_before(b, c) ==> components_before(a, c),
    decreases a.len(),
{
    if a.len() > 0 {
        lemma_components_before_order(a.drop_first(), a.drop_first(), a.drop_first());
        if b.len() > 0 {
            lemma_component_before_order(a[0], b[0], b[0]);
            lemma_components_before_order(a.drop_first(), b.drop_first(), b.drop_first());
            if a != b && a[0] == b[0] {
                assert(a.drop_first() != b.drop_first()) by {
                    if a.drop_first() == b.drop_first() {
                        assert(a =~= seq![a[0]] + a.drop_first());
                        assert(b =~= seq![b[0]] + b.drop_first());
                    }
                }
            }
            if c.len() > 0 {
                lemma_component_before_order(a[0], b[0], c[0]);
                lemma_components_before_order(a.drop_first(), b.drop_first(), c.drop_first());
            }
        }
    } else {
        if b.len() == 0 {
            assert(a =~= b);
        }
    }
}

/// Paths are totally ordered: no path sorts before itself or before a path
/// that sorts before it, the order is transitive, and of two paths that are
/// not equal (as paths) one sorts first.
pub proof fn lemma_path_order(a: Seq<char>, b: Seq<char>, c: Seq<char>)
    ensures
        !path_before(a, a),
        path_before(a, b) ==> !path_before(b, a),
        components(a) != components(b) ==> path_before(a, b) || path_before(b, a),
        path_before(a, b) && path_before(b, c) ==> path_before(a, c),
{
    lemma_components_before_order(components(a), components(b), components(c));
}

} // verus!
