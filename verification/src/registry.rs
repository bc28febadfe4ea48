//! Registries keyed by id, kept in id order as a `BTreeMap` keeps them:
//! strict lexicographic order of the ids' characters, which is the byte
//! order of their UTF-8 spelling.
use vstd::prelude::*;
use crate::text::chars_of;

verus! {

/// `a < b` in lexicographic character order.
pub open spec fn lex_lt(a: Seq<char>, b: Seq<char>) -> bool
    decreases a.len(),
{
    if b.len() == 0 {
        false
    } else if a.len() == 0 {
        true
    } else if a[0] != b[0] {
        a[0] < b[0]
    } else {
        lex_lt(a.drop_first(), b.drop_first())
    }
}

pub proof fn lemma_lex_irreflexive(a: Seq<char>)
    ensures
        !lex_lt(a, a),
    decreases a.len(),
{
    if a.len() > 0 {
        lemma_lex_irreflexive(a.drop_first());
    }
}

pub proof fn lemma_lex_transitive(a: Seq<char>, b: Seq<char>, c: Seq<char>)
    requires
        lex_lt(a, b),
        lex_lt(b, c),
    ensures
        lex_lt(a, c),
    decreases a.len(),
{
    if a.len() > 0 && b.len() > 0 && c.len() > 0 && a[0] == b[0] && b[0] == c[0] {
        lemma_lex_transitive(a.drop_first(), b.drop_first(), c.drop_first());
    }
}

pub proof fn lemma_lex_total(a: Seq<char>, b: Seq<char>)
    requires
        a != b,
    ensures
        lex_lt(a, b) || lex_lt(b, a),
    decreases a.len(),
{
    if a.len() > 0 && b.len() > 0 && a[0] == b[0] {
        if a.drop_first() == b.drop_first() {
            assert(a =~= seq![a[0]] + a.drop_first());
            assert(b =~= seq![b[0]] + b.drop_first());
        }
        lemma_lex_total(a.drop_first(), b.drop_first());
    } else if a.len() == 0 && b.len() == 0 {
        assert(a =~= b);
    }
}

/// Whether `a < b` in the order a `BTreeMap<String, _>` keeps.
pub fn str_lt(a: &str, b: &str) -> (r: bool)
    ensures
        r == lex_lt(a@, b@),
{
    let x = chars_of(a);
    let y = chars_of(b);
    let mut i: usize = 0;
    assert(x@.skip(0) =~= x@);
    assert(y@.skip(0) =~= y@);
    while i < x.len() && i < y.len()
        invariant
            i <= x.len(),
            i <= y.len(),
            lex_lt(a@, b@) == lex_lt(x@.skip(i as int), y@.skip(i as int)),
            x@ == a@,
            y@ == b@,
        decreases x.len() - i,
    {
        assert(x@.skip(i as int)[0] == x@[i as int]);
        assert(y@.skip(i as int)[0] == y@[i as int]);
        if x[i] != y[i] {
            return x[i] < y[i];
        }
        assert(x@.skip(i as int).drop_first() =~= x@.skip(i + 1));
        assert(y@.skip(i as int).drop_first() =~= y@.skip(i + 1));
        i += 1;
    }
    i < y.len()
}

/// The ids of a registry, in order.
pub open spec fn ids<T>(r: Seq<(String, T)>) -> Seq<Seq<char>> {
    r.map_values(|e: (String, T)| e.0@)
}

/// Ids strictly increasing: the order of a `BTreeMap`.
pub open spec fn sorted<T>(r: Seq<(String, T)>) -> bool {
    forall|i: int, j: int| 0 <= i < j < r.len() ==> lex_lt(#[trigger] r[i].0@, #[trigger] r[j].0@)
}

/// The entry under `id`: the first one.
pub open spec fn reg_get<T>(r: Seq<(String, T)>, id: Seq<char>) -> Option<T>
    decreases r.len(),
{
    if r.len() == 0 {
        None
    } else if r[0].0@ == id {
        Some(r[0].1)
    } else {
        reg_get(r.drop_first(), id)
    }
}

/// An entry found under an id stands in the registry under that id.
pub proof fn lemma_reg_get_in<T>(r: Seq<(String, T)>, id: Seq<char>)
    ensures
        reg_get(r, id) matches Some(v) ==> exists|i: int|
            0 <= i < r.len() && #[trigger] r[i] == (r[i].0, v) && r[i].0@ == id,
    decreases r.len(),
{
    if r.len() > 0 && r[0].0@ != id {
        lemma_reg_get_in(r.drop_first(), id);
        if let Some(v) = reg_get(r, id) {
            let i = choose|i: int|
                0 <= i < r.drop_first().len() && #[trigger] r.drop_first()[i] == (
                    r.drop_first()[i].0,
                    v,
                ) && r.drop_first()[i].0@ == id;
            assert(r[i + 1] == r.drop_first()[i]);
        }
    } else if r.len() > 0 {
        assert(r[0] == (r[0].0, r[0].1));
    }
}

/// In a sorted registry the entry under an id is the one at its index.
pub proof fn lemma_reg_get_at<T>(r: Seq<(String, T)>, i: int)
    requires
        sorted(r),
        0 <= i < r.len(),
    ensures
        reg_get(r, r[i].0@) == Some(r[i].1),
    decreases i,
{
    if i > 0 {
        assert(lex_lt(r[0].0@, r[i].0@));
        lemma_lex_irreflexive(r[i].0@);
        assert(r.drop_first()[i - 1] == r[i]);
        assert(sorted(r.drop_first())) by {
            assert forall|a: int, b: int| 0 <= a < b < r.drop_first().len() implies lex_lt(
                #[trigger] r.drop_first()[a].0@,
                #[trigger] r.drop_first()[b].0@,
            ) by {
                assert(r.drop_first()[a] == r[a + 1]);
                assert(r.drop_first()[b] == r[b + 1]);
            }
        }
        lemma_reg_get_at(r.drop_first(), i - 1);
    }
}

/// An id no entry carries has no entry.
pub proof fn lemma_reg_get_absent<T>(r: Seq<(String, T)>, id: Seq<char>)
    requires
        forall|i: int| 0 <= i < r.len() ==> (#[trigger] r[i]).0@ != id,
    ensures
        reg_get(r, id) is None,
    decreases r.len(),
{
    if r.len() > 0 {
        assert forall|i: int| 0 <= i < r.drop_first().len() implies (#[trigger] r.drop_first()[i]).0@ != id by {
            assert(r.drop_first()[i] == r[i + 1]);
        }
        lemma_reg_get_absent(r.drop_first(), id);
    }
}

/// The entry under an id, when one has it; none otherwise.
pub proof fn lemma_reg_get_sorted<T>(r: Seq<(String, T)>, id: Seq<char>)
    requires
        sorted(r),
    ensures
        (exists|i: int| 0 <= i < r.len() && #[trigger] r[i].0@ == id) ==> reg_get(r, id) == Some(
            r[choose|i: int| 0 <= i < r.len() && #[trigger] r[i].0@ == id].1,
        ),
        !(exists|i: int| 0 <= i < r.len() && #[trigger] r[i].0@ == id) ==> reg_get(r, id) is None,
{
    if exists|i: int| 0 <= i < r.len() && #[trigger] r[i].0@ == id {
        let i = choose|i: int| 0 <= i < r.len() && #[trigger] r[i].0@ == id;
        lemma_reg_get_at(r, i);
    } else {
        lemma_reg_get_absent(r, id);
    }
}

/// The tail of a sorted registry is sorted.
pub proof fn lemma_sorted_tail<T>(r: Seq<(String, T)>)
    requires
        sorted(r),
        r.len() > 0,
    ensures
        sorted(r.drop_first()),
{
    assert forall|a: int, b: int| 0 <= a < b < r.drop_first().len() implies lex_lt(
        #[trigger] r.drop_first()[a].0@,
        #[trigger] r.drop_first()[b].0@,
    ) by {
        assert(r.drop_first()[a] == r[a + 1]);
        assert(r.drop_first()[b] == r[b + 1]);
    }
}

/// Two sorted registries with the same entry under every id list the same
/// ids, in the same order, with the same entries: a sorted registry is
/// determined by what it maps.
pub proof fn lemma_sorted_registries_agree<T>(a: Seq<(String, T)>, b: Seq<(String, T)>)
    requires
        sorted(a),
        sorted(b),
        forall|k: Seq<char>| #[trigger] reg_get(a, k) == reg_get(b, k),
    ensures
        a.len() == b.len(),
        forall|i: int| 0 <= i < a.len() ==> (#[trigger] a[i]).0@ == b[i].0@ && a[i].1 == b[i].1,
    decreases a.len(),
{
    if a.len() == 0 {
        if b.len() > 0 {
            lemma_reg_get_at(b, 0);
            assert(reg_get(a, b[0].0@) is None);
        }
    } else if b.len() == 0 {
        lemma_reg_get_at(a, 0);
        assert(reg_get(b, a[0].0@) is None);
    } else {
        let ka = a[0].0@;
        let kb = b[0].0@;
        lemma_reg_get_at(a, 0);
        lemma_reg_get_at(b, 0);
        assert(reg_get(b, ka) is Some);
        assert(reg_get(a, kb) is Some);
        lemma_reg_get_sorted(b, ka);
        lemma_reg_get_sorted(a, kb);
        if ka != kb {
            let j = choose|j: int| 0 <= j < b.len() && #[trigger] b[j].0@ == ka;
            let i = choose|i: int| 0 <= i < a.len() && #[trigger] a[i].0@ == kb;
            assert(j != 0 && i != 0);
            assert(lex_lt(b[0].0@, b[j].0@));
            assert(lex_lt(a[0].0@, a[i].0@));
            lemma_lex_transitive(ka, kb, ka);
            lemma_lex_irreflexive(ka);
        }
        assert(a[0].1 == b[0].1);
        lemma_sorted_tail(a);
        lemma_sorted_tail(b);
        let ta = a.drop_first();
        let tb = b.drop_first();
        assert forall|k: Seq<char>| #[trigger] reg_get(ta, k) == reg_get(tb, k) by {
            if k == ka {
                assert forall|i: int| 0 <= i < ta.len() implies (#[trigger] ta[i]).0@ != k by {
                    assert(ta[i] == a[i + 1]);
                    assert(lex_lt(a[0].0@, a[i + 1].0@));
                    lemma_lex_irreflexive(k);
                }
                assert forall|i: int| 0 <= i < tb.len() implies (#[trigger] tb[i]).0@ != k by {
                    assert(tb[i] == b[i + 1]);
                    assert(lex_lt(b[0].0@, b[i + 1].0@));
                    lemma_lex_irreflexive(k);
                }
                lemma_reg_get_absent(ta, k);
                lemma_reg_get_absent(tb, k);
            } else {
                assert(reg_get(a, k) == reg_get(ta, k));
                assert(reg_get(b, k) == reg_get(tb, k));
            }
        }
        lemma_sorted_registries_agree(ta, tb);
        assert forall|i: int| 0 <= i < a.len() implies (#[trigger] a[i]).0@ == b[i].0@ && a[i].1 == b[i].1 by {
            if i > 0 {
                assert(a[i] == ta[i - 1]);
                assert(b[i] == tb[i - 1]);
            }
        }
    }
}

/// The index an entry for `id` takes: the first whose id is not below it.
fn insertion_point<T>(r: &Vec<(String, T)>, id: &str) -> (p: usize)
    requires
        sorted(r@),
    ensures
        p <= r.len(),
        forall|i: int| 0 <= i < p ==> lex_lt((#[trigger] r@[i]).0@, id@),
        p < r.len() ==> !lex_lt(r@[p as int].0@, id@),
{
    let mut p: usize = 0;
    while p < r.len()
        invariant
            p <= r.len(),
            forall|i: int| 0 <= i < p ==> lex_lt((#[trigger] r@[i]).0@, id@),
        ensures
            p <= r.len(),
            forall|i: int| 0 <= i < p ==> lex_lt((#[trigger] r@[i]).0@, id@),
            p < r.len() ==> !lex_lt(r@[p as int].0@, id@),
        decreases r.len() - p,
    {
        if !str_lt(r[p].0.as_str(), id) {
            break;
        }
        p += 1;
    }
    p
}

/// `BTreeMap::insert`: the entry under `id` becomes `value`; the one it
/// replaces, if any, is handed back.
pub fn reg_insert<T>(r: &mut Vec<(String, T)>, id: String, value: T) -> (replaced: Option<T>)
    requires
        sorted(old(r)@),
    ensures
        sorted(final(r)@),
        replaced == reg_get(old(r)@, id@),
        forall|k: Seq<char>|
            #[trigger] reg_get(final(r)@, k) == if k == id@ {
                Some(value)
            } else {
                reg_get(old(r)@, k)
            },
        forall|k: Seq<char>|
            (ids(final(r)@).contains(k)) <==> (k == id@ || ids(old(r)@).contains(k)),
{
    let ghost o = r@;
    let p = insertion_point(r, id.as_str());
    let ghost idv = id@;
    let ghost val = value;
    if p < r.len() && crate::text::str_eq(r[p].0.as_str(), id.as_str()) {
        let (_, previous) = r.remove(p);
        r.insert(p, (id, value));
        proof {
            let n = r@;
            assert(n =~= o.update(p as int, (n[p as int].0, val)));
            assert(sorted(n)) by {
                assert forall|i: int, j: int| 0 <= i < j < n.len() implies lex_lt(
                    #[trigger] n[i].0@,
                    #[trigger] n[j].0@,
                ) by {
                    assert(o[i].0@ == n[i].0@ || i == p);
                    assert(o[j].0@ == n[j].0@ || j == p);
                }
            }
            lemma_reg_get_at(o, p as int);
            assert forall|k: Seq<char>| #[trigger] reg_get(n, k) == if k == idv {
                Some(val)
            } else {
                reg_get(o, k)
            } by {
                lemma_reg_get_sorted(n, k);
                lemma_reg_get_sorted(o, k);
                if k == idv {
                    lemma_reg_get_at(n, p as int);
                } else {
                    if exists|i: int| 0 <= i < o.len() && #[trigger] o[i].0@ == k {
                        let i = choose|i: int| 0 <= i < o.len() && #[trigger] o[i].0@ == k;
                        assert(n[i].0@ == k);
                        lemma_reg_get_at(n, i);
                        lemma_reg_get_at(o, i);
                    } else {
                        assert forall|i: int| 0 <= i < n.len() implies (#[trigger] n[i]).0@ != k by {
                            if i != p {
                                assert(n[i] == o[i]);
                            }
                        }
                        lemma_reg_get_absent(n, k);
                    }
                }
            }
            assert forall|k: Seq<char>| (ids(n).contains(k)) <==> (k == idv || ids(o).contains(k)) by {
                if ids(n).contains(k) {
                    let i = choose|i: int| 0 <= i < ids(n).len() && ids(n)[i] == k;
                    assert(ids(o)[i] == o[i].0@);
                }
                if k == idv {
                    assert(ids(n)[p as int] == k);
                }
                if ids(o).contains(k) {
                    let i = choose|i: int| 0 <= i < ids(o).len() && ids(o)[i] == k;
                    assert(ids(n)[i] == n[i].0@);
                }
            }
        }
        Some(previous)
    } else {
        r.insert(p, (id, value));
        proof {
            let n = r@;
            assert(n =~= o.insert(p as int, (n[p as int].0, val)));
            assert forall|i: int| 0 <= i < o.len() implies (#[trigger] o[i]).0@ != idv by {
                if i < p {
                    lemma_lex_irreflexive(idv);
                } else if i == p {
                } else {
                    assert(lex_lt(o[p as int].0@, o[i].0@));
                    lemma_lex_total(o[p as int].0@, idv);
                    if o[i].0@ == idv {
                        lemma_lex_transitive(idv, o[p as int].0@, o[i].0@);
                        lemma_lex_irreflexive(idv);
                    }
                }
            }
            assert(p < o.len() ==> lex_lt(idv, o[p as int].0@)) by {
                if p < o.len() {
                    lemma_lex_total(o[p as int].0@, idv);
                }
            }
            assert(sorted(n)) by {
                assert forall|i: int, j: int| 0 <= i < j < n.len() implies lex_lt(
                    #[trigger] n[i].0@,
                    #[trigger] n[j].0@,
                ) by {
                    if j < p {
                        assert(n[i] == o[i] && n[j] == o[j]);
                    } else if j == p {
                        assert(n[i] == o[i]);
                    } else if i == p {
                        assert(n[j] == o[j - 1]);
                        if j - 1 > p {
                            lemma_lex_transitive(idv, o[p as int].0@, o[j - 1].0@);
                        }
                    } else if i < p {
                        assert(n[i] == o[i] && n[j] == o[j - 1]);
                    } else {
                        assert(n[i] == o[i - 1] && n[j] == o[j - 1]);
                    }
                }
            }
            lemma_reg_get_absent(o, idv);
            assert forall|k: Seq<char>| #[trigger] reg_get(n, k) == if k == idv {
                Some(val)
            } else {
                reg_get(o, k)
            } by {
                lemma_reg_get_sorted(n, k);
                lemma_reg_get_sorted(o, k);
                if k == idv {
                    lemma_reg_get_at(n, p as int);
                } else {
                    if exists|i: int| 0 <= i < o.len() && #[trigger] o[i].0@ == k {
                        let i = choose|i: int| 0 <= i < o.len() && #[trigger] o[i].0@ == k;
                        let ni = if i < p { i } else { i + 1 };
                        assert(n[ni] == o[i]);
                        lemma_reg_get_at(n, ni);
                        lemma_reg_get_at(o, i);
                    } else {
                        assert forall|i: int| 0 <= i < n.len() implies (#[trigger] n[i]).0@ != k by {
                            if i < p {
                                assert(n[i] == o[i]);
                            } else if i > p {
                                assert(n[i] == o[i - 1]);
                            }
                        }
                        lemma_reg_get_absent(n, k);
                    }
                }
            }
            assert forall|k: Seq<char>| (ids(n).contains(k)) <==> (k == idv || ids(o).contains(k)) by {
                if ids(n).contains(k) {
                    let i = choose|i: int| 0 <= i < ids(n).len() && ids(n)[i] == k;
                    if i < p {
                        assert(ids(o)[i] == k);
                    } else if i > p {
                        assert(ids(o)[i - 1] == k);
                    }
                }
                if k == idv {
                    assert(ids(n)[p as int] == k);
                }
                if ids(o).contains(k) {
                    let i = choose|i: int| 0 <= i < ids(o).len() && ids(o)[i] == k;
                    if i < p {
                        assert(ids(n)[i] == k);
                    } else {
                        assert(ids(n)[i + 1] == k);
                    }
                }
            }
        }
        None
    }
}

/// `BTreeMap::remove`: the entry under `id` leaves and is handed back.
pub fn reg_remove<T>(r: &mut Vec<(String, T)>, id: &str) -> (removed: Option<T>)
    requires
        sorted(old(r)@),
    ensures
        sorted(final(r)@),
        removed == reg_get(old(r)@, id@),
        forall|k: Seq<char>|
            #[trigger] reg_get(final(r)@, k) == if k == id@ {
                None
            } else {
                reg_get(old(r)@, k)
            },
        forall|k: Seq<char>|
            (ids(final(r)@).contains(k)) <==> (k != id@ && ids(old(r)@).contains(k)),
{
    let ghost o = r@;
    let p = insertion_point(r, id);
    if p < r.len() && crate::text::str_eq(r[p].0.as_str(), id) {
        let (_, v) = r.remove(p);
        proof {
            let n = r@;
            assert(n =~= o.remove(p as int));
            lemma_reg_get_at(o, p as int);
            assert(sorted(n)) by {
                assert forall|i: int, j: int| 0 <= i < j < n.len() implies lex_lt(
                    #[trigger] n[i].0@,
                    #[trigger] n[j].0@,
                ) by {
                    if j < p {
                        assert(n[i] == o[i] && n[j] == o[j]);
                    } else if i < p {
                        assert(n[i] == o[i] && n[j] == o[j + 1]);
                    } else {
                        assert(n[i] == o[i + 1] && n[j] == o[j + 1]);
                    }
                }
            }
            assert forall|k: Seq<char>| #[trigger] reg_get(n, k) == if k == id@ {
                None
            } else {
                reg_get(o, k)
            } by {
                lemma_reg_get_sorted(n, k);
                lemma_reg_get_sorted(o, k);
                if k == id@ {
                    assert forall|i: int| 0 <= i < n.len() implies (#[trigger] n[i]).0@ != k by {
                        if i < p {
                            assert(n[i] == o[i]);
                            assert(lex_lt(o[i].0@, o[p as int].0@));
                            lemma_lex_irreflexive(k);
                        } else {
                            assert(n[i] == o[i + 1]);
                            assert(lex_lt(o[p as int].0@, o[i + 1].0@));
                            lemma_lex_irreflexive(k);
                        }
                    }
                    lemma_reg_get_absent(n, k);
                } else if exists|i: int| 0 <= i < o.len() && #[trigger] o[i].0@ == k {
                    let i = choose|i: int| 0 <= i < o.len() && #[trigger] o[i].0@ == k;
                    let ni = if i < p { i } else { i - 1 };
                    assert(n[ni] == o[i]);
                    lemma_reg_get_at(n, ni);
                    lemma_reg_get_at(o, i);
                } else {
                    assert forall|i: int| 0 <= i < n.len() implies (#[trigger] n[i]).0@ != k by {
                        if i < p {
                            assert(n[i] == o[i]);
                        } else {
                            assert(n[i] == o[i + 1]);
                        }
                    }
                    lemma_reg_get_absent(n, k);
                }
            }
            assert forall|k: Seq<char>| (ids(n).contains(k)) <==> (k != id@ && ids(o).contains(k)) by {
                if ids(n).contains(k) {
                    let i = choose|i: int| 0 <= i < ids(n).len() && ids(n)[i] == k;
                    if i < p {
                        assert(ids(o)[i] == k);
                        assert(lex_lt(o[i].0@, o[p as int].0@));
                        lemma_lex_irreflexive(k);
                    } else {
                        assert(ids(o)[i + 1] == k);
                        assert(lex_lt(o[p as int].0@, o[i + 1].0@));
                        lemma_lex_irreflexive(k);
                    }
                }
                if k != id@ && ids(o).contains(k) {
                    let i = choose|i: int| 0 <= i < ids(o).len() && ids(o)[i] == k;
                    if i < p {
                        assert(ids(n)[i] == k);
                    } else {
                        assert(i != p);
                        assert(ids(n)[i - 1] == k);
                    }
                }
            }
        }
        Some(v)
    } else {
        proof {
            assert forall|i: int| 0 <= i < o.len() implies (#[trigger] o[i]).0@ != id@ by {
                if i < p {
                    lemma_lex_irreflexive(id@);
                } else if i > p {
                    lemma_lex_total(o[p as int].0@, id@);
                    if o[i].0@ == id@ {
                        assert(lex_lt(o[p as int].0@, o[i].0@));
                    }
                }
            }
            lemma_reg_get_absent(o, id@);
            assert forall|k: Seq<char>| (ids(o).contains(k)) <==> (k != id@ && ids(o).contains(k)) by {
                if ids(o).contains(k) {
                    let i = choose|i: int| 0 <= i < ids(o).len() && ids(o)[i] == k;
                    assert(o[i].0@ == k);
                }
            }
        }
        None
    }
}

/// The entry under `id`, found by search.
pub fn reg_find<'a, T>(r: &'a Vec<(String, T)>, id: &str) -> (out: Option<&'a T>)
    ensures
        match out {
            Some(v) => reg_get(r@, id@) == Some(*v),
            None => reg_get(r@, id@) is None,
        },
{
    let mut i: usize = 0;
    assert(r@.skip(0) =~= r@);
    while i < r.len()
        invariant
            i <= r.len(),
            reg_get(r@, id@) == reg_get(r@.skip(i as int), id@),
        decreases r.len() - i,
    {
        assert(r@.skip(i as int)[0] == r@[i as int]);
        assert(r@.skip(i as int).drop_first() =~= r@.skip(i + 1));
        if crate::text::str_eq(r[i].0.as_str(), id) {
            return Some(&r[i].1);
        }
        i += 1;
    }
    None
}

/// Whether an entry stands under `id`.
pub fn reg_contains<T>(r: &Vec<(String, T)>, id: &str) -> (b: bool)
    ensures
        b == (reg_get(r@, id@) is Some),
{
    reg_find(r, id).is_some()
}

/// The entries of `over` laid on `base` by id: an id `over` has takes its
/// entry from `over`, any other keeps `base`'s.
pub fn reg_merge<T>(base: Vec<(String, T)>, over: Vec<(String, T)>) -> (out: Vec<(String, T)>)
    requires
        sorted(base@),
    ensures
        sorted(out@),
        forall|k: Seq<char>|
            #[trigger] reg_get(out@, k) == match reg_get(over@, k) {
                Some(v) => Some(v),
                None => reg_get(base@, k),
            },
        forall|k: Seq<char>|
            (ids(out@).contains(k)) <==> (ids(over@).contains(k) || ids(base@).contains(k)),
{
    let ghost b = base@;
    let ghost o = over@;
    let mut out = base;
    let mut rest = over;
    while rest.len() > 0
        invariant
            sorted(out@),
            rest@ == o.take(rest@.len() as int),
            rest@.len() <= o.len(),
            forall|k: Seq<char>|
                #[trigger] reg_get(out@, k) == match reg_get(o.skip(rest@.len() as int), k) {
                    Some(v) => Some(v),
                    None => reg_get(b, k),
                },
            forall|k: Seq<char>|
                (#[trigger] ids(out@).contains(k)) <==> (ids(o.skip(rest@.len() as int)).contains(k)
                    || ids(b).contains(k)),
        decreases rest.len(),
    {
        let ghost n = rest@.len() as int;
        let (id, value) = rest.pop().unwrap();
        let ghost e = o[n - 1];
        assert(e == (id, value));
        assert(rest@ =~= o.take(n - 1));
        let ghost s = o.skip(n - 1);
        assert(s.drop_first() =~= o.skip(n));
        assert(s[0] == e);
        let ghost prev = out@;
        reg_insert(&mut out, id, value);
        assert forall|k: Seq<char>| (ids(s).contains(k)) <==> (k == e.0@ || ids(o.skip(n)).contains(k)) by {
            if ids(s).contains(k) {
                let i = choose|i: int| 0 <= i < ids(s).len() && ids(s)[i] == k;
                if i > 0 {
                    assert(ids(o.skip(n))[i - 1] == k);
                }
            }
            if ids(o.skip(n)).contains(k) {
                let i = choose|i: int| 0 <= i < ids(o.skip(n)).len() && ids(o.skip(n))[i] == k;
                assert(ids(s)[i + 1] == k);
            }
            if k == e.0@ {
                assert(ids(s)[0] == k);
            }
        }
        assert forall|k: Seq<char>| (ids(out@).contains(k)) <==> (ids(s).contains(k) || ids(b).contains(k)) by {
            assert((ids(out@).contains(k)) <==> (k == e.0@ || ids(prev).contains(k)));
            assert((ids(prev).contains(k)) <==> (ids(o.skip(n)).contains(k) || ids(b).contains(k)));
            assert((ids(s).contains(k)) <==> (k == e.0@ || ids(o.skip(n)).contains(k)));
        }
    }
    assert(o.skip(0) =~= o);
    assert forall|k: Seq<char>| (ids(out@).contains(k)) <==> (ids(o).contains(k) || ids(b).contains(k)) by {
        assert((ids(out@).contains(k)) <==> (ids(o.skip(0)).contains(k) || ids(b).contains(k)));
    }
    out
}

} // verus!
