//! Grave paths, fresh names for graves that collide, sizes for display and
//! answers to a yes-or-no question.

use crate::path::{joined_absolute, leading_seps};
use crate::text::{
    contains_text, decimal, lemma_decimal_injective, push_chars, push_decimal, texts, to_chars,
};
use vstd::prelude::*;
use vstd::set_lib::{lemma_int_range, lemma_len_subset, set_int_range};

verus! {

/// The number of separators at the front of `p` is the place of its first
/// character that is not one.
proof fn lemma_leading_seps(p: Seq<char>, k: int)
    requires
        0 <= k <= p.len(),
        forall|j: int| 0 <= j < k ==> p[j] == '/',
        k == p.len() || p[k] != '/',
    ensures
        leading_seps(p) == k,
    decreases p.len(),
{
    if k > 0 {
        let q = p.drop_first();
        assert forall|j: int| 0 <= j < k - 1 implies q[j] == '/' by {
            assert(q[j] == p[j + 1]);
        }
        lemma_leading_seps(q, k - 1);
    }
}

/// Concatenate two paths, even if the right argument is an absolute path:
/// `right` loses the separators at its front and is placed below `left`.
pub fn join_absolute(left: &str, right: &str) -> (path: String)
    ensures
        path@ == joined_absolute(left@, right@),
{
    let l = to_chars(left);
    let r = to_chars(right);
    let mut k: usize = 0;
    while k < r.len() && r[k] == '/'
        invariant
            k <= r.len(),
            forall|j: int| 0 <= j < k ==> r@[j] == '/',
        decreases r.len() - k,
    {
        k += 1;
    }
    proof {
        lemma_leading_seps(right@, k as int);
    }
    let mut path = left.to_owned();
    if l.len() > 0 && l[l.len() - 1] != '/' {
        path.push('/');
    }
    push_chars(&mut path, &r, k);
    path
}

/// The `i`-th other name for `grave`: `grave`, a tilde and `i` in decimal.
pub open spec fn candidate(grave: Seq<char>, i: nat) -> Seq<char> {
    grave + seq!['~'] + decimal(i)
}

/// Whether `k` numbers the first other name for `grave` that `occupied` does
/// not hold, counting from 1.
pub open spec fn is_first_free(grave: Seq<char>, occupied: Seq<Seq<char>>, k: nat) -> bool {
    &&& k >= 1
    &&& !occupied.contains(candidate(grave, k))
    &&& forall|j: nat| 1 <= j < k ==> occupied.contains(#[trigger] candidate(grave, j))
}

/// The number of the first other name for `grave` that `occupied` does not
/// hold.
pub open spec fn first_free(grave: Seq<char>, occupied: Seq<Seq<char>>) -> nat {
    choose|k: nat| is_first_free(grave, occupied, k)
}

/// The first other name for `grave` that `occupied` does not hold.
pub open spec fn renamed(grave: Seq<char>, occupied: Seq<Seq<char>>) -> Seq<char> {
    candidate(grave, first_free(grave, occupied))
}

/// Add a numbered extension to a duplicate name, so that nothing is
/// overwritten: the result is `grave~1`, or `grave~2` where `occupied` holds
/// `grave~1`, and so on, the first that `occupied` does not hold.
pub fn rename_grave(grave: &str, occupied: &Vec<String>) -> (fresh: String)
    ensures
        is_first_free(grave@, texts(occupied@), first_free(grave@, texts(occupied@))),
        fresh@ == renamed(grave@, texts(occupied@)),
        !texts(occupied@).contains(fresh@),
{
    let ghost taken = texts(occupied@);
    let ghost hit: Set<int> = Set::empty();
    let mut i: u128 = 1;
    loop
        invariant
            taken == texts(occupied@),
            1 <= i <= occupied.len() + 1,
            forall|j: nat| 1 <= j < i ==> taken.contains(#[trigger] candidate(grave@, j)),
            hit.finite(),
            hit.len() == i - 1,
            hit.subset_of(set_int_range(0, occupied.len() as int)),
            forall|x: int|
                hit.contains(x) ==> exists|j: nat| 1 <= j < i && taken[x] == candidate(grave@, j),
        decreases occupied.len() + 1 - i,
    {
        let mut name = grave.to_owned();
        name.push('~');
        push_decimal(&mut name, i);
        proof {
            assert(grave@.push('~') == grave@ + seq!['~']);
        }
        if !contains_text(occupied, &name) {
            proof {
                let k = first_free(grave@, taken);
                lemma_first_free_unique(grave@, taken, i as nat, k);
            }
            return name;
        }
        proof {
            let x = choose|x: int| 0 <= x < taken.len() && taken[x] == name@;
            if hit.contains(x) {
                let j = choose|j: nat| 1 <= j < i && taken[x] == candidate(grave@, j);
                lemma_candidate_injective(grave@, i as nat, j);
            }
            let grown = hit.insert(x);
            assert forall|y: int| grown.contains(y) implies exists|j: nat|
                1 <= j < i + 1 && taken[y] == candidate(grave@, j) by {
                if y == x {
                    assert(taken[y] == candidate(grave@, i as nat));
                } else {
                    let j = choose|j: nat| 1 <= j < i && taken[y] == candidate(grave@, j);
                }
            }
            lemma_int_range(0, occupied.len() as int);
            lemma_len_subset(grown, set_int_range(0, occupied.len() as int));
            hit = grown;
        }
        i += 1;
    }
}

/// Different numbers give different names.
pub proof fn lemma_candidate_injective(grave: Seq<char>, i: nat, j: nat)
    requires
        candidate(grave, i) == candidate(grave, j),
    ensures
        i == j,
{
    let head = grave + seq!['~'];
    assert(candidate(grave, i).skip(head.len() as int) == decimal(i));
    assert(candidate(grave, j).skip(head.len() as int) == decimal(j));
    lemma_decimal_injective(i, j);
}

/// At most one number is the first free one.
pub proof fn lemma_first_free_unique(grave: Seq<char>, occupied: Seq<Seq<char>>, a: nat, b: nat)
    requires
        is_first_free(grave, occupied, a),
        is_first_free(grave, occupied, b),
    ensures
        a == b,
{
    if a < b {
        assert(occupied.contains(candidate(grave, a)));
    } else if b < a {
        assert(occupied.contains(candidate(grave, b)));
    }
}

/// The search for a free name comes to an end: if the names numbered below
/// `i` are all occupied, each by another entry of `occupied`, there is a
/// first free name.
proof fn lemma_search_ends(grave: Seq<char>, occupied: Seq<Seq<char>>, i: nat, hit: Set<int>)
    requires
        i >= 1,
        forall|j: nat| 1 <= j < i ==> occupied.contains(#[trigger] candidate(grave, j)),
        hit.finite(),
        hit.len() == i - 1,
        hit.subset_of(set_int_range(0, occupied.len() as int)),
        forall|x: int|
            hit.contains(x) ==> exists|j: nat| 1 <= j < i && occupied[x] == candidate(grave, j),
    ensures
        exists|k: nat| is_first_free(grave, occupied, k),
    decreases occupied.len() + 1 - i,
{
    lemma_int_range(0, occupied.len() as int);
    lemma_len_subset(hit, set_int_range(0, occupied.len() as int));
    if !occupied.contains(candidate(grave, i)) {
        assert(is_first_free(grave, occupied, i));
    } else {
        let x = choose|x: int| 0 <= x < occupied.len() && occupied[x] == candidate(grave, i);
        if hit.contains(x) {
            let j = choose|j: nat| 1 <= j < i && occupied[x] == candidate(grave, j);
            lemma_candidate_injective(grave, i, j);
        }
        let grown = hit.insert(x);
        assert forall|y: int| grown.contains(y) implies exists|j: nat|
            1 <= j < i + 1 && occupied[y] == candidate(grave, j) by {
            if y == x {
                assert(occupied[y] == candidate(grave, i));
            } else {
                let j = choose|j: nat| 1 <= j < i && occupied[y] == candidate(grave, j);
            }
        }
        lemma_len_subset(grown, set_int_range(0, occupied.len() as int));
        lemma_search_ends(grave, occupied, i + 1, grown);
    }
}

/// Among the other names for a grave there is always a first that a list
/// does not hold, however long the list.
pub proof fn lemma_first_free_exists(grave: Seq<char>, occupied: Seq<Seq<char>>)
    ensures
        is_first_free(grave, occupied, first_free(grave, occupied)),
        !occupied.contains(renamed(grave, occupied)),
{
    lemma_search_ends(grave, occupied, 1, Set::empty());
}

/// The largest unit, counted from bytes (0) to terabytes (4), in which
/// `bytes` is more than ten; 0 where there is none.
pub open spec fn unit_scale(bytes: nat) -> nat {
    if bytes / 1_000_000_000_000 > 10 {
        4
    } else if bytes / 1_000_000_000 > 10 {
        3
    } else if bytes / 1_000_000 > 10 {
        2
    } else if bytes / 1_000 > 10 {
        1
    } else {
        0
    }
}

/// The number of bytes in one unit of the given scale.
pub open spec fn unit_size(scale: nat) -> nat {
    if scale == 0 {
        1
    } else if scale == 1 {
        1_000
    } else if scale == 2 {
        1_000_000
    } else if scale == 3 {
        1_000_000_000
    } else {
        1_000_000_000_000
    }
}

/// The name of the unit of the given scale.
pub open spec fn unit_name(scale: nat) -> Seq<char> {
    if scale == 0 {
        seq!['b', 'y', 't', 'e', 's']
    } else if scale == 1 {
        seq!['K', 'B']
    } else if scale == 2 {
        seq!['M', 'B']
    } else if scale == 3 {
        seq!['G', 'B']
    } else {
        seq!['T', 'B']
    }
}

/// A size for display: the whole number of units, a space and the unit's
/// name.
pub open spec fn humanized(bytes: nat) -> Seq<char> {
    decimal(bytes / unit_size(unit_scale(bytes))) + seq![' '] + unit_name(unit_scale(bytes))
}

/// A size in the largest unit in which it is more than ten, rounded down:
/// `10999 bytes`, `11 KB`, `500 MB`.
pub fn humanize_bytes(bytes: u64) -> (shown: String)
    ensures
        shown@ == humanized(bytes as nat),
{
    let mut shown = String::new();
    if bytes / 1_000_000_000_000 > 10 {
        push_decimal(&mut shown, (bytes / 1_000_000_000_000) as u128);
        shown.push(' ');
        shown.push('T');
        shown.push('B');
    } else if bytes / 1_000_000_000 > 10 {
        push_decimal(&mut shown, (bytes / 1_000_000_000) as u128);
        shown.push(' ');
        shown.push('G');
        shown.push('B');
    } else if bytes / 1_000_000 > 10 {
        push_decimal(&mut shown, (bytes / 1_000_000) as u128);
        shown.push(' ');
        shown.push('M');
        shown.push('B');
    } else if bytes / 1_000 > 10 {
        push_decimal(&mut shown, (bytes / 1_000) as u128);
        shown.push(' ');
        shown.push('K');
        shown.push('B');
    } else {
        push_decimal(&mut shown, bytes as u128);
        shown.push(' ');
        shown.push('b');
        shown.push('y');
        shown.push('t');
        shown.push('e');
        shown.push('s');
    }
    shown
}

/// Whether an answer begins with `y` or `Y`.
pub fn is_yes(answer: &str) -> (yes: bool)
    ensures
        yes == (answer@.len() > 0 && (answer@[0] == 'y' || answer@[0] == 'Y')),
{
    let a = to_chars(answer);
    a.len() > 0 && (a[0] == 'y' || a[0] == 'Y')
}

} // verus!
