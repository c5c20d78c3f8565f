//! Paths as text: a path is a string of names separated by `/`. Nothing is
//! normalised: `.` and `..` are names like any other, and no link is followed.

use crate::text::{texts, to_chars};
use vstd::prelude::*;

verus! {

/// Whether `p` begins at the root.
pub open spec fn is_absolute(p: Seq<char>) -> bool {
    p.len() > 0 && p[0] == '/'
}

/// The names of `p` in order: the maximal runs of characters other than `/`.
pub open spec fn names(p: Seq<char>) -> Seq<Seq<char>>
    decreases p.len(),
{
    if p.len() == 0 {
        Seq::empty()
    } else {
        let before = names(p.drop_last());
        if p.last() == '/' {
            before
        } else if p.len() >= 2 && p[p.len() - 2] != '/' {
            before.drop_last().push(before.last().push(p.last()))
        } else {
            before.push(seq![p.last()])
        }
    }
}

/// The components of `p`: the root, written `/`, where `p` is absolute, then
/// its names.
pub open spec fn components(p: Seq<char>) -> Seq<Seq<char>> {
    if is_absolute(p) {
        seq![seq!['/']] + names(p)
    } else {
        names(p)
    }
}

/// Whether `path` is `base` or lies below it: the components of `base` begin
/// those of `path`.
pub open spec fn starts_with(path: Seq<char>, base: Seq<char>) -> bool {
    components(base).is_prefix_of(components(path))
}

/// Whether `name` can stand between two separators: it is not empty and
/// holds no separator.
pub open spec fn is_name(name: Seq<char>) -> bool {
    name.len() > 0 && !name.contains('/')
}

/// The number of separators at the front of `p`.
pub open spec fn leading_seps(p: Seq<char>) -> nat
    decreases p.len(),
{
    if p.len() > 0 && p[0] == '/' {
        1 + leading_seps(p.drop_first())
    } else {
        0
    }
}

/// `p` without the separators at its front.
pub open spec fn without_root(p: Seq<char>) -> Seq<char> {
    p.skip(leading_seps(p) as int)
}

/// `rel` placed below `base`, with one separator between the two unless
/// `base` is empty or ends in one.
pub open spec fn joined(base: Seq<char>, rel: Seq<char>) -> Seq<char> {
    if base.len() == 0 || base.last() == '/' {
        base + rel
    } else {
        base + seq!['/'] + rel
    }
}

/// `right` taken as relative and placed below `left`.
pub open spec fn joined_absolute(left: Seq<char>, right: Seq<char>) -> Seq<char> {
    joined(left, without_root(right))
}

/// `rel`, a list of names, placed below `base` one name after the other.
pub open spec fn extended(base: Seq<char>, rel: Seq<Seq<char>>) -> Seq<char>
    decreases rel.len(),
{
    if rel.len() == 0 {
        base
    } else {
        joined(extended(base, rel.drop_last()), rel.last())
    }
}

/// Where `path`, which is `source` or lies below it, comes to stand when
/// `source` is moved to `dest`.
pub open spec fn rebased(path: Seq<char>, source: Seq<char>, dest: Seq<char>) -> Option<
    Seq<char>,
> {
    if starts_with(path, source) {
        Some(extended(dest, names(path).skip(names(source).len() as int)))
    } else {
        None
    }
}

/// The names of `p`, in order.
pub fn split_names(p: &Vec<char>) -> (out: Vec<String>)
    ensures
        texts(out@) == names(p@),
{
    let mut out: Vec<String> = Vec::new();
    let mut cur = String::new();
    let mut i: usize = 0;
    while i < p.len()
        invariant
            i <= p.len(),
            cur@.len() > 0 <==> i > 0 && p@[i - 1] != '/',
            names(p@.take(i as int)) == if cur@.len() > 0 {
                texts(out@).push(cur@)
            } else {
                texts(out@)
            },
        decreases p.len() - i,
    {
        let c = p[i];
        let ghost head = p@.take(i as int);
        let ghost next = p@.take(i + 1);
        let ghost done = texts(out@);
        proof {
            assert(next.drop_last() == head);
            if i > 0 {
                assert(next[next.len() - 2] == p@[i - 1]);
            }
        }
        if c == '/' {
            if !cur.as_str().is_empty() {
                proof {
                    assert(texts(out@.push(cur)) == done.push(cur@));
                }
                out.push(cur);
                cur = String::new();
            }
        } else {
            proof {
                if cur@.len() > 0 {
                    assert(done.push(cur@).drop_last() == done);
                } else {
                    assert(cur@.push(c) == seq![c]);
                }
            }
            cur.push(c);
        }
        i += 1;
    }
    assert(p@.take(p@.len() as int) == p@);
    if !cur.as_str().is_empty() {
        proof {
            assert(texts(out@.push(cur)) == texts(out@).push(cur@));
        }
        out.push(cur);
    }
    out
}

/// Whether the names `base` begin the names `path`.
fn names_begin(base: &Vec<String>, path: &Vec<String>) -> (r: bool)
    ensures
        r == texts(base@).is_prefix_of(texts(path@)),
{
    if base.len() > path.len() {
        return false;
    }
    let mut i: usize = 0;
    while i < base.len()
        invariant
            i <= base.len() <= path.len(),
            forall|j: int| 0 <= j < i ==> texts(base@)[j] == texts(path@)[j],
        decreases base.len() - i,
    {
        if base[i] != path[i] {
            assert(texts(base@)[i as int] != texts(path@)[i as int]);
            return false;
        }
        i += 1;
    }
    true
}

/// Whether `path` is `base` or lies below it, name by name.
pub fn path_starts_with(path: &str, base: &str) -> (r: bool)
    ensures
        r == starts_with(path@, base@),
{
    let p = to_chars(path);
    let b = to_chars(base);
    let p_names = split_names(&p);
    let b_names = split_names(&b);
    let p_abs = p.len() > 0 && p[0] == '/';
    let b_abs = b.len() > 0 && b[0] == '/';
    proof {
        lemma_names_are_names(path@);
        lemma_names_are_names(base@);
    }
    if p_abs == b_abs {
        let r = names_begin(&b_names, &p_names);
        proof {
            if p_abs {
                lemma_prefix_behind_root(names(base@), names(path@));
            }
        }
        r
    } else if b_abs {
        proof {
            if components(base@).is_prefix_of(components(path@)) {
                assert(components(path@)[0] == components(base@)[0]);
                assert(seq!['/'].contains(seq!['/'][0]));
            }
        }
        false
    } else {
        proof {
            if b_names.len() > 0 {
                if components(base@).is_prefix_of(components(path@)) {
                    assert(components(path@)[0] == components(base@)[0]);
                    assert(seq!['/'].contains(seq!['/'][0]));
                }
            } else {
                assert(components(base@).is_prefix_of(components(path@)));
            }
        }
        b_names.len() == 0
    }
}

/// `rel` placed below `base`.
pub fn join(base: &str, rel: &str) -> (path: String)
    ensures
        path@ == joined(base@, rel@),
{
    let b = to_chars(base);
    let mut path = base.to_owned();
    if b.len() > 0 && b[b.len() - 1] != '/' {
        path.push('/');
    }
    path.append(rel);
    path
}

/// The path at which `path` comes to stand when `source` is moved to `dest`,
/// or `None` where `path` is neither `source` nor below it.
pub fn rebase(path: &str, source: &str, dest: &str) -> (moved: Option<String>)
    ensures
        moved.is_some() == starts_with(path@, source@),
        match moved {
            Some(m) => rebased(path@, source@, dest@) == Some(m@),
            None => rebased(path@, source@, dest@).is_none(),
        },
{
    if !path_starts_with(path, source) {
        return None;
    }
    let p_names = split_names(&to_chars(path));
    let s_names = split_names(&to_chars(source));
    proof {
        lemma_names_begin(path@, source@);
    }
    let mut moved = dest.to_owned();
    let mut i: usize = s_names.len();
    let ghost rel = names(path@).skip(names(source@).len() as int);
    while i < p_names.len()
        invariant
            s_names.len() <= i <= p_names.len(),
            texts(p_names@) == names(path@),
            texts(s_names@) == names(source@),
            rel == names(path@).skip(names(source@).len() as int),
            moved@ == extended(dest@, rel.take(i - s_names.len())),
        decreases p_names.len() - i,
    {
        let ghost k = i - s_names.len();
        proof {
            assert(rel.take(k + 1).drop_last() == rel.take(k));
        }
        moved = join(moved.as_str(), p_names[i].as_str());
        i += 1;
    }
    assert(rel.take(rel.len() as int) == rel);
    Some(moved)
}

/// Every entry of `names(p)` is a name, and a path that does not end in a
/// separator ends in its last name.
pub proof fn lemma_names_are_names(p: Seq<char>)
    ensures
        forall|i: int| 0 <= i < names(p).len() ==> is_name(#[trigger] names(p)[i]),
        p.len() > 0 && p.last() != '/' ==> names(p).len() > 0,
    decreases p.len(),
{
    if p.len() > 0 {
        let q = p.drop_last();
        lemma_names_are_names(q);
        let before = names(q);
        if p.last() == '/' {
            // A separator at the end adds nothing.
        } else if p.len() >= 2 && p[p.len() - 2] != '/' {
            let grown = before.last().push(p.last());
            assert forall|c: char| grown.contains(c) implies c != '/' by {
                let k = choose|k: int| 0 <= k < grown.len() && grown[k] == c;
                if k < before.last().len() {
                    assert(before.last().contains(grown[k]));
                }
            }
        } else {
            let single = seq![p.last()];
            assert forall|c: char| single.contains(c) implies c != '/' by {
                let k = choose|k: int| 0 <= k < single.len() && single[k] == c;
            }
        }
    }
}

/// Appending text after a separator appends its names.
pub proof fn lemma_names_after_sep(a: Seq<char>, b: Seq<char>)
    requires
        a.len() == 0 || a.last() == '/',
    ensures
        names(a + b) == names(a) + names(b),
    decreases b.len(),
{
    if b.len() == 0 {
        assert(a + b == a);
    } else {
        let p = a + b;
        let b0 = b.drop_last();
        assert(p.drop_last() == a + b0);
        lemma_names_after_sep(a, b0);
        lemma_names_are_names(b0);
        if b.last() == '/' {
            // A separator at the end adds nothing.
        } else if b.len() >= 2 && b[b.len() - 2] != '/' {
            let nb = names(b0);
            assert(nb.len() > 0);
        } else {
            if b.len() >= 2 {
                assert(p[p.len() - 2] == b[b.len() - 2]);
            } else if a.len() > 0 {
                assert(p[p.len() - 2] == a.last());
            }
        }
    }
}

/// A separator at the end of a path adds no name.
pub proof fn lemma_names_sep_last(a: Seq<char>)
    ensures
        names(a + seq!['/']) == names(a),
{
    let p = a + seq!['/'];
    assert(p.drop_last() == a);
}

/// Separators at the front of a path add no name.
pub proof fn lemma_names_without_root(p: Seq<char>)
    ensures
        names(without_root(p)) == names(p),
        !is_absolute(without_root(p)),
        leading_seps(p) <= p.len(),
    decreases p.len(),
{
    if p.len() > 0 && p[0] == '/' {
        let q = p.drop_first();
        lemma_names_without_root(q);
        assert(p.skip(leading_seps(p) as int) == q.skip(leading_seps(q) as int));
        assert(p == seq!['/'] + q);
        lemma_names_after_sep(seq!['/'], q);
        lemma_names_sep_last(Seq::<char>::empty());
    } else {
        assert(without_root(p) == p);
    }
}

/// The names of a joined path are those of its base, then those of what was
/// placed below it.
pub proof fn lemma_names_joined(base: Seq<char>, rel: Seq<char>)
    ensures
        names(joined(base, rel)) == names(base) + names(rel),
{
    if base.len() == 0 || base.last() == '/' {
        lemma_names_after_sep(base, rel);
    } else {
        let b = base + seq!['/'];
        lemma_names_sep_last(base);
        lemma_names_after_sep(b, rel);
    }
}

/// The names of a single name are that name alone.
pub proof fn lemma_names_of_name(name: Seq<char>)
    requires
        is_name(name),
    ensures
        names(name) == seq![name],
    decreases name.len(),
{
    let q = name.drop_last();
    assert(name.last() != '/') by {
        assert(name.contains(name[name.len() - 1]));
    }
    if name.len() == 1 {
        assert(names(q) == Seq::<Seq<char>>::empty());
        assert(seq![name.last()] == name);
    } else {
        assert forall|c: char| q.contains(c) implies c != '/' by {
            let k = choose|k: int| 0 <= k < q.len() && q[k] == c;
        }
        lemma_names_of_name(q);
        assert(name[name.len() - 2] != '/') by {
            assert(name.contains(name[name.len() - 2]));
        }
        assert(q.push(name.last()) == name);
    }
}

/// Placing names below a base appends them to its names.
pub proof fn lemma_names_extended(base: Seq<char>, rel: Seq<Seq<char>>)
    requires
        forall|i: int| 0 <= i < rel.len() ==> is_name(#[trigger] rel[i]),
    ensures
        names(extended(base, rel)) == names(base) + rel,
        rel.len() == 0 ==> extended(base, rel) == base,
        base.len() > 0 ==> extended(base, rel).len() > 0 && is_absolute(extended(base, rel))
            == is_absolute(base),
    decreases rel.len(),
{
    if rel.len() == 0 {
        assert(names(base) + rel == names(base));
    } else {
        let init = rel.drop_last();
        lemma_names_extended(base, init);
        let e = extended(base, init);
        lemma_names_joined(e, rel.last());
        lemma_names_of_name(rel.last());
        assert((names(base) + init) + seq![rel.last()] == names(base) + rel) by {
            assert(init.push(rel.last()) == rel);
        }
        if base.len() > 0 {
            assert(joined(e, rel.last())[0] == e[0]);
        }
    }
}

/// Names placed below a base leave it absolute or relative as it was.
proof fn lemma_extended_absolute(base: Seq<char>, rel: Seq<Seq<char>>)
    requires
        forall|i: int| 0 <= i < rel.len() ==> is_name(#[trigger] rel[i]),
    ensures
        is_absolute(extended(base, rel)) == is_absolute(base),
    decreases rel.len(),
{
    if rel.len() > 0 {
        let init = rel.drop_last();
        lemma_extended_absolute(base, init);
        let e = extended(base, init);
        let name = rel.last();
        if e.len() > 0 {
            assert(joined(e, name)[0] == e[0]);
        } else {
            assert(name.contains(name[0]));
        }
    }
}

/// One list begins another where both stand behind the root, and only there.
proof fn lemma_prefix_behind_root(a: Seq<Seq<char>>, b: Seq<Seq<char>>)
    ensures
        (seq![seq!['/']] + a).is_prefix_of(seq![seq!['/']] + b) == a.is_prefix_of(b),
{
    let ra = seq![seq!['/']] + a;
    let rb = seq![seq!['/']] + b;
    if a.is_prefix_of(b) {
        assert(rb.subrange(0, ra.len() as int) == ra);
    }
    if ra.is_prefix_of(rb) {
        assert forall|i: int| 0 <= i < a.len() implies a[i] == b[i] by {
            assert(ra[i + 1] == rb[i + 1]);
        }
    }
}

/// Where the components of `base` begin those of `path`, its names begin the
/// names of `path`.
pub proof fn lemma_names_begin(path: Seq<char>, base: Seq<char>)
    requires
        starts_with(path, base),
    ensures
        names(base).is_prefix_of(names(path)),
        names(base).len() <= names(path).len(),
{
    lemma_names_are_names(path);
    lemma_names_are_names(base);
    if is_absolute(base) == is_absolute(path) {
        if is_absolute(base) {
            lemma_prefix_behind_root(names(base), names(path));
        }
    } else if is_absolute(base) {
        assert(components(path)[0] == components(base)[0]);
        assert(seq!['/'].contains(seq!['/'][0]));
    } else {
        if names(base).len() > 0 {
            assert(components(path)[0] == components(base)[0]);
            assert(seq!['/'].contains(seq!['/'][0]));
        }
    }
}

/// The names of a path are the names of a base it lies below, then the rest.
pub proof fn lemma_names_split(path: Seq<char>, base: Seq<char>)
    requires
        starts_with(path, base),
    ensures
        names(path) == names(base) + names(path).skip(names(base).len() as int),
        forall|i: int|
            0 <= i < names(path).skip(names(base).len() as int).len() ==> is_name(
                #[trigger] names(path).skip(names(base).len() as int)[i],
            ),
{
    lemma_names_begin(path, base);
    lemma_names_are_names(path);
    let rest = names(path).skip(names(base).len() as int);
    assert forall|i: int| 0 <= i < rest.len() implies is_name(#[trigger] rest[i]) by {
        assert(rest[i] == names(path)[i + names(base).len()]);
    }
}

/// Whatever is placed below a base that is not empty lies below it.
pub proof fn lemma_joined_starts_with(base: Seq<char>, rel: Seq<char>)
    requires
        base.len() > 0,
    ensures
        starts_with(joined(base, rel), base),
        is_absolute(joined(base, rel)) == is_absolute(base),
{
    lemma_names_joined(base, rel);
    let j = joined(base, rel);
    assert(components(base).is_prefix_of(components(j))) by {
        if is_absolute(base) {
            assert(components(j) == seq![seq!['/']] + (names(base) + names(rel)));
        } else {
            assert(components(j).subrange(0, components(base).len() as int) == components(base));
        }
    }
}

/// A path that `joined_absolute` places below a root that is not empty lies
/// below that root, whatever is appended to it afterwards.
pub proof fn lemma_grave_below_root(root: Seq<char>, original: Seq<char>, suffix: Seq<char>)
    requires
        root.len() > 0,
    ensures
        starts_with(joined_absolute(root, original) + suffix, root),
        is_absolute(joined_absolute(root, original) + suffix) == is_absolute(root),
{
    let rel = without_root(original);
    assert(joined(root, rel) + suffix == joined(root, rel + suffix));
    lemma_joined_starts_with(root, rel + suffix);
}

/// A grave mirrors its original: the names of the path that `joined_absolute`
/// places below a root are the names of the root, then those of the
/// original.
pub proof fn lemma_grave_mirrors(root: Seq<char>, original: Seq<char>)
    ensures
        names(joined_absolute(root, original)) == names(root) + names(original),
{
    lemma_names_without_root(original);
    lemma_names_joined(root, without_root(original));
}

/// A moved tree keeps its shape: what lies below `source` comes to lie
/// below `dest`, under the same names in the same order.
pub proof fn lemma_rebased_mirrors(path: Seq<char>, source: Seq<char>, dest: Seq<char>)
    requires
        starts_with(path, source),
    ensures
        rebased(path, source, dest).is_some(),
        names(rebased(path, source, dest).unwrap()) == names(dest) + names(path).skip(
            names(source).len() as int,
        ),
        starts_with(rebased(path, source, dest).unwrap(), dest),
{
    lemma_names_split(path, source);
    let rest = names(path).skip(names(source).len() as int);
    let moved = extended(dest, rest);
    lemma_names_extended(dest, rest);
    assert(names(dest).is_prefix_of(names(moved))) by {
        assert(names(moved).subrange(0, names(dest).len() as int) == names(dest));
    }
    if dest.len() > 0 {
        if is_absolute(dest) {
            lemma_prefix_behind_root(names(dest), names(moved));
        }
    } else {
        assert(names(dest) == Seq::<Seq<char>>::empty());
    }
}

/// A path moved below a destination is absolute where the destination is;
/// below an empty destination it is relative.
proof fn lemma_rebased_absolute(dest: Seq<char>, path: Seq<char>, source: Seq<char>)
    requires
        starts_with(path, source),
    ensures
        is_absolute(rebased(path, source, dest).unwrap()) == is_absolute(dest),
{
    lemma_names_split(path, source);
    let rest = names(path).skip(names(source).len() as int);
    lemma_extended_absolute(dest, rest);
}

/// Moving a tree and moving it back gives every object the names it had.
pub proof fn lemma_rebased_back(path: Seq<char>, source: Seq<char>, dest: Seq<char>)
    requires
        starts_with(path, source),
    ensures
        rebased(rebased(path, source, dest).unwrap(), dest, source).is_some(),
        names(rebased(rebased(path, source, dest).unwrap(), dest, source).unwrap()) == names(path),
{
    lemma_rebased_mirrors(path, source, dest);
    let there = rebased(path, source, dest).unwrap();
    lemma_rebased_mirrors(there, dest, source);
    lemma_names_split(path, source);
    let rest = names(path).skip(names(source).len() as int);
    assert(names(there).skip(names(dest).len() as int) == rest);
}

/// Two objects of a tree with different names come to stand at different
/// places: none is put where another goes.
pub proof fn lemma_rebased_apart(p: Seq<char>, q: Seq<char>, source: Seq<char>, dest: Seq<char>)
    requires
        starts_with(p, source),
        starts_with(q, source),
        names(p) != names(q),
    ensures
        rebased(p, source, dest).unwrap() != rebased(q, source, dest).unwrap(),
{
    lemma_rebased_mirrors(p, source, dest);
    lemma_rebased_mirrors(q, source, dest);
    lemma_names_split(p, source);
    lemma_names_split(q, source);
    let rest_p = names(p).skip(names(source).len() as int);
    let rest_q = names(q).skip(names(source).len() as int);
    if rebased(p, source, dest).unwrap() == rebased(q, source, dest).unwrap() {
        assert((names(dest) + rest_p).skip(names(dest).len() as int) == rest_p);
        assert((names(dest) + rest_q).skip(names(dest).len() as int) == rest_q);
    }
}

/// What lies below an object of a tree lies below it in the moved tree too:
/// a directory comes to stand above everything that it held.
pub proof fn lemma_rebased_keeps_below(
    inner: Seq<char>,
    outer: Seq<char>,
    source: Seq<char>,
    dest: Seq<char>,
)
    requires
        starts_with(inner, source),
        starts_with(outer, source),
        starts_with(inner, outer),
    ensures
        starts_with(rebased(inner, source, dest).unwrap(), rebased(outer, source, dest).unwrap()),
{
    lemma_rebased_mirrors(inner, source, dest);
    lemma_rebased_mirrors(outer, source, dest);
    lemma_names_begin(inner, outer);
    lemma_names_begin(inner, source);
    lemma_names_begin(outer, source);
    let skip = names(source).len() as int;
    let rest_in = names(inner).skip(skip);
    let rest_out = names(outer).skip(skip);
    let there_in = rebased(inner, source, dest).unwrap();
    let there_out = rebased(outer, source, dest).unwrap();
    assert(names(there_out).is_prefix_of(names(there_in))) by {
        assert forall|i: int| 0 <= i < names(there_out).len() implies names(there_out)[i] == names(
            there_in,
        )[i] by {
            if i >= names(dest).len() {
                let k = i - names(dest).len();
                assert(rest_out[k] == names(outer)[k + skip]);
                assert(rest_in[k] == names(inner)[k + skip]);
            }
        }
    }
    lemma_rebased_absolute(dest, inner, source);
    lemma_rebased_absolute(dest, outer, source);
    if is_absolute(there_out) {
        lemma_prefix_behind_root(names(there_out), names(there_in));
    }
}

} // verus!
