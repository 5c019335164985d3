use vstd::prelude::*;

verus! {

/// Whether one name comes before another or equals it, comparing code
/// points from the first on; a name comes before every longer name it
/// begins.
pub open spec fn name_le(a: Seq<char>, b: Seq<char>) -> bool
    decreases a.len(),
{
    if a.len() == 0 {
        true
    } else if b.len() == 0 {
        false
    } else if (a[0] as int) != (b[0] as int) {
        (a[0] as int) < (b[0] as int)
    } else {
        name_le(a.drop_first(), b.drop_first())
    }
}

/// Names are ordered lexicographically by code point: a name comes before
/// or equals another exactly when it is a prefix of the other, or when at the
/// first place where the two differ its character has the smaller code point
/// (a character taken as an integer is its code point).
pub proof fn lemma_name_le_is_lexicographic(a: Seq<char>, b: Seq<char>)
    ensures
        name_le(a, b) <==> (a.is_prefix_of(b) || exists|k: int|
            #![trigger a[k], b[k]]
            0 <= k < a.len() && k < b.len() && a.take(k) == b.take(k) && (a[k] as int) < (
            b[k] as int)),
    decreases a.len(),
{
    if a.len() == 0 {
        assert(a =~= b.subrange(0, 0));
    } else if b.len() == 0 {
    } else {
        if a.is_prefix_of(b) {
            assert(a[0] == b.subrange(0, a.len() as int)[0]);
        }
        if (a[0] as int) != (b[0] as int) {
            if (a[0] as int) < (b[0] as int) {
                assert(a.take(0) =~= b.take(0));
                assert(a[0] == a[0] && b[0] == b[0]);
            }
            assert forall|k: int|
                #![trigger a[k], b[k]]
                0 <= k < a.len() && k < b.len() && a.take(k) == b.take(k) && (a[k] as int) < (
                b[k] as int) implies k == 0 by {
                if k > 0 {
                    assert(a.take(k)[0] == b.take(k)[0]);
                }
            }
        } else {
            let a1 = a.drop_first();
            let b1 = b.drop_first();
            lemma_name_le_is_lexicographic(a1, b1);
            assert(a[0] == b[0]);
            if a1.is_prefix_of(b1) {
                assert(a =~= b.subrange(0, a.len() as int)) by {
                    assert forall|i: int| 0 <= i < a.len() implies a[i] == b.subrange(
                        0,
                        a.len() as int,
                    )[i] by {
                        if i > 0 {
                            assert(a[i] == a1[i - 1]);
                            assert(a1[i - 1] == b1.subrange(0, a1.len() as int)[i - 1]);
                        }
                    }
                }
            }
            if a.is_prefix_of(b) {
                assert(a1 =~= b1.subrange(0, a1.len() as int)) by {
                    assert forall|i: int| 0 <= i < a1.len() implies a1[i] == b1.subrange(
                        0,
                        a1.len() as int,
                    )[i] by {
                        assert(a[i + 1] == b.subrange(0, a.len() as int)[i + 1]);
                    }
                }
            }
            if exists|k: int|
                #![trigger a1[k], b1[k]]
                0 <= k < a1.len() && k < b1.len() && a1.take(k) == b1.take(k) && (a1[k] as int) < (
                b1[k] as int) {
                let k = choose|k: int|
                    #![trigger a1[k], b1[k]]
                    0 <= k < a1.len() && k < b1.len() && a1.take(k) == b1.take(k) && (a1[k] as int)
                        < (b1[k] as int);
                assert(a.take(k + 1) =~= seq![a[0]] + a1.take(k));
                assert(b.take(k + 1) =~= seq![b[0]] + b1.take(k));
                assert(a[k + 1] == a1[k] && b[k + 1] == b1[k]);
            }
            if exists|k: int|
                #![trigger a[k], b[k]]
                0 <= k < a.len() && k < b.len() && a.take(k) == b.take(k) && (a[k] as int) < (
                b[k] as int) {
                let k = choose|k: int|
                    #![trigger a[k], b[k]]
                    0 <= k < a.len() && k < b.len() && a.take(k) == b.take(k) && (a[k] as int) < (
                    b[k] as int);
                assert(k > 0);
                assert(a1.take(k - 1) =~= a.take(k).drop_first());
                assert(b1.take(k - 1) =~= b.take(k).drop_first());
                assert(a1[k - 1] == a[k] && b1[k - 1] == b[k]);
            }
        }
    }
}

/// Any two names are ordered one way or the other.
pub proof fn lemma_name_le_total(a: Seq<char>, b: Seq<char>)
    ensures
        name_le(a, b) || name_le(b, a),
    decreases a.len(),
{
    if a.len() > 0 && b.len() > 0 && (a[0] as int) == (b[0] as int) {
        lemma_name_le_total(a.drop_first(), b.drop_first());
    }
}

/// Every name comes before or equals itself.
pub proof fn lemma_name_le_refl(a: Seq<char>)
    ensures
        name_le(a, a),
    decreases a.len(),
{
    if a.len() > 0 {
        lemma_name_le_refl(a.drop_first());
    }
}

/// The order is transitive.
pub proof fn lemma_name_le_trans(a: Seq<char>, b: Seq<char>, c: Seq<char>)
    requires
        name_le(a, b),
        name_le(b, c),
    ensures
        name_le(a, c),
    decreases a.len(),
{
    if a.len() > 0 && b.len() > 0 && c.len() > 0 && (a[0] as int) == (b[0] as int) && (b[0] as int)
        == (c[0] as int) {
        lemma_name_le_trans(a.drop_first(), b.drop_first(), c.drop_first());
    }
}

/// Names ordered both ways are the same name.
pub proof fn lemma_name_le_antisym(a: Seq<char>, b: Seq<char>)
    requires
        name_le(a, b),
        name_le(b, a),
    ensures
        a == b,
    decreases a.len(),
{
    if a.len() > 0 && b.len() > 0 {
        lemma_name_le_antisym(a.drop_first(), b.drop_first());
        assert(a[0] == b[0]);
        assert(a =~= seq![a[0]] + a.drop_first());
        assert(b =~= seq![b[0]] + b.drop_first());
    }
}

/// Whether one name comes before another or equals it.
pub fn names_in_order(a: &str, b: &str) -> (r: bool)
    ensures
        r == name_le(a@, b@),
        r <==> (a@.is_prefix_of(b@) || exists|k: int|
            #![trigger a@[k], b@[k]]
            0 <= k < a@.len() && k < b@.len() && a@.take(k) == b@.take(k) && (a@[k] as int) < (
            b@[k] as int)),
{
    proof {
        lemma_name_le_is_lexicographic(a@, b@);
    }
    let la = a.unicode_len();
    let lb = b.unicode_len();
    let mut i: usize = 0;
    assert(a@.skip(0) =~= a@ && b@.skip(0) =~= b@);
    while i < la && i < lb
        invariant
            la == a@.len(),
            lb == b@.len(),
            0 <= i <= la,
            0 <= i <= lb,
            name_le(a@, b@) == name_le(a@.skip(i as int), b@.skip(i as int)),
        decreases la - i,
    {
        let ca = a.get_char(i);
        let cb = b.get_char(i);
        assert(a@.skip(i as int)[0] == ca && b@.skip(i as int)[0] == cb);
        let ua: u32 = ca as u32;
        let ub: u32 = cb as u32;
        assert(ua as int == ca as int && ub as int == cb as int);
        if ua != ub {
            proof {
                lemma_name_le_is_lexicographic(a@, b@);
            }
            return ua < ub;
        }
        assert(a@.skip(i as int).drop_first() =~= a@.skip(i + 1));
        assert(b@.skip(i as int).drop_first() =~= b@.skip(i + 1));
        i = i + 1;
    }
    i == la
}

/// Each name comes before or equals every later one.
pub open spec fn sorted_by_name<T>(s: Seq<(String, T)>) -> bool {
    forall|i: int, j: int| 0 <= i < j < s.len() ==> name_le(s[i].0@, s[j].0@)
}

/// In items sorted by name, every earlier name is a prefix of every later
/// one or has, where the two first differ, the smaller code point.
pub proof fn lemma_sorted_names_are_lexicographic<T>(s: Seq<(String, T)>)
    requires
        sorted_by_name(s),
    ensures
        forall|i: int, j: int|
            #![trigger s[i], s[j]]
            0 <= i < j < s.len() ==> s[i].0@.is_prefix_of(s[j].0@) || exists|k: int|
                #![trigger s[i].0@[k], s[j].0@[k]]
                0 <= k < s[i].0@.len() && k < s[j].0@.len() && s[i].0@.take(k) == s[j].0@.take(k)
                    && (s[i].0@[k] as int) < (s[j].0@[k] as int),
{
    assert forall|i: int, j: int|
        #![trigger s[i], s[j]]
        0 <= i < j < s.len() implies s[i].0@.is_prefix_of(s[j].0@) || exists|k: int|
            #![trigger s[i].0@[k], s[j].0@[k]]
            0 <= k < s[i].0@.len() && k < s[j].0@.len() && s[i].0@.take(k) == s[j].0@.take(k)
                && (s[i].0@[k] as int) < (s[j].0@[k] as int) by {
        lemma_name_le_is_lexicographic(s[i].0@, s[j].0@);
    }
}

/// No two items share a name.
pub open spec fn item_names_distinct<T>(s: Seq<(String, T)>) -> bool {
    forall|i: int, j: int| 0 <= i < s.len() && 0 <= j < s.len() && i != j ==> s[i].0@ != s[j].0@
}

/// Puts named items in the order of their names; the same items come back.
pub fn sort_by_name<T>(items: Vec<(String, T)>) -> (r: Vec<(String, T)>)
    ensures
        r@.to_multiset() == items@.to_multiset(),
        sorted_by_name(r@),
{
    broadcast use vstd::seq_lib::group_to_multiset_ensures;

    let ghost original = items@;
    let mut rest = items;
    let mut out: Vec<(String, T)> = Vec::new();
    while rest.len() > 0
        invariant
            out@.to_multiset().add(rest@.to_multiset()) == original.to_multiset(),
            sorted_by_name(out@),
        decreases rest@.len(),
    {
        let ghost before_rest = rest@;
        let ghost before_out = out@;
        let x = match rest.pop() {
            Some(x) => x,
            None => {
                proof {
                    assert(false);
                }
                return out;
            },
        };
        proof {
            assert(before_rest =~= rest@.push(x));
            vstd::seq_lib::to_multiset_build(rest@, x);
        }
        let mut p: usize = 0;
        while p < out.len() && !names_in_order(x.0.as_str(), out[p].0.as_str())
            invariant
                out@ == before_out,
                0 <= p <= out@.len(),
                forall|k: int| 0 <= k < p ==> !name_le(x.0@, (#[trigger] out@[k]).0@),
            decreases out@.len() - p,
        {
            p = p + 1;
        }
        proof {
            assert forall|k: int| 0 <= k < p implies name_le((#[trigger] out@[k]).0@, x.0@) by {
                lemma_name_le_total(x.0@, out@[k].0@);
            }
            assert forall|k: int| p <= k < out@.len() implies name_le(x.0@, (#[trigger] out@[k]).0@) by {
                if k > p {
                    lemma_name_le_trans(x.0@, out@[p as int].0@, out@[k].0@);
                }
            }
            vstd::seq_lib::to_multiset_insert(out@, p as int, x);
        }
        out.insert(p, x);
        proof {
            let s = out@;
            assert forall|i: int, j: int| 0 <= i < j < s.len() implies name_le(s[i].0@, s[j].0@) by {
                if i < p && j == p {
                } else if i == p {
                    assert(s[j] == before_out[j - 1]);
                } else if j < p {
                } else if i < p {
                    assert(s[j] == before_out[j - 1]);
                    lemma_name_le_trans(s[i].0@, x.0@, s[j].0@);
                } else {
                    assert(s[i] == before_out[i - 1] && s[j] == before_out[j - 1]);
                }
            }
        }
    }
    proof {
        assert(rest@.to_multiset() =~= vstd::multiset::Multiset::empty());
    }
    out
}

/// Rearranging items keeps their names distinct.
pub proof fn lemma_distinct_names_kept<T>(a: Seq<(String, T)>, b: Seq<(String, T)>)
    requires
        item_names_distinct(a),
        a.to_multiset() == b.to_multiset(),
    ensures
        item_names_distinct(b),
{
    broadcast use vstd::seq_lib::group_to_multiset_ensures;

    assert(a.no_duplicates());
    a.lemma_multiset_has_no_duplicates();
    b.lemma_multiset_has_no_duplicates_conv();
    assert forall|i: int, j: int|
        0 <= i < b.len() && 0 <= j < b.len() && i != j implies b[i].0@ != b[j].0@ by {
        assert(b.to_multiset().contains(b[i]));
        assert(b.to_multiset().contains(b[j]));
        assert(a.contains(b[i]));
        assert(a.contains(b[j]));
        let x = choose|x: int| 0 <= x < a.len() && a[x] == b[i];
        let y = choose|y: int| 0 <= y < a.len() && a[y] == b[j];
        assert(b[i] != b[j]);
    }
}

/// Items with distinct names have one order by name: two sorted
/// arrangements of the same items are the same sequence. So what is built
/// from the sorted items depends on the items alone, not on the order they
/// were listed in.
pub proof fn lemma_sorted_order_is_unique<T>(a: Seq<(String, T)>, b: Seq<(String, T)>)
    requires
        sorted_by_name(a),
        sorted_by_name(b),
        item_names_distinct(a),
        a.to_multiset() == b.to_multiset(),
    ensures
        a == b,
    decreases a.len(),
{
    broadcast use vstd::seq_lib::group_to_multiset_ensures;

    if a.len() == 0 {
        assert(b.to_multiset().len() == 0);
        assert(b =~= a);
    } else {
        vstd::seq_lib::to_multiset_len(a);
        vstd::seq_lib::to_multiset_len(b);
        assert(b.len() == a.len());
        assert(a.to_multiset().contains(a[0]));
        assert(b.contains(a[0]));
        let j = choose|j: int| 0 <= j < b.len() && b[j] == a[0];
        assert(a.to_multiset().contains(b[0]));
        assert(a.contains(b[0]));
        let i = choose|i: int| 0 <= i < a.len() && a[i] == b[0];
        lemma_name_le_refl(a[0].0@);
        if j > 0 {
            assert(name_le(b[0].0@, b[j].0@));
        }
        if i > 0 {
            assert(name_le(a[0].0@, a[i].0@));
        }
        lemma_name_le_antisym(a[0].0@, b[0].0@);
        assert(i == 0);
        assert(a[0] == b[0]);
        let ra = a.drop_first();
        let rb = b.drop_first();
        vstd::seq_lib::to_multiset_remove(a, 0);
        vstd::seq_lib::to_multiset_remove(b, 0);
        assert(a.remove(0) =~= ra);
        assert(b.remove(0) =~= rb);
        assert(sorted_by_name(ra)) by {
            assert forall|x: int, y: int| 0 <= x < y < ra.len() implies name_le(ra[x].0@, ra[y].0@) by {
                assert(ra[x] == a[x + 1] && ra[y] == a[y + 1]);
            }
        }
        assert(sorted_by_name(rb)) by {
            assert forall|x: int, y: int| 0 <= x < y < rb.len() implies name_le(rb[x].0@, rb[y].0@) by {
                assert(rb[x] == b[x + 1] && rb[y] == b[y + 1]);
            }
        }
        assert(item_names_distinct(ra)) by {
            assert forall|x: int, y: int| 0 <= x < ra.len() && 0 <= y < ra.len() && x != y implies ra[x].0@ != ra[y].0@ by {
                assert(ra[x] == a[x + 1] && ra[y] == a[y + 1]);
            }
        }
        lemma_sorted_order_is_unique(ra, rb);
        assert(a =~= seq![a[0]] + ra);
        assert(b =~= seq![b[0]] + rb);
    }
}

} // verus!
