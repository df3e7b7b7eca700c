//! Response header collection and the wire-size estimate. Headers are
//! recorded in delivered order into an ordered name-to-value mapping in
//! which the last value of a repeated name wins; the size estimate models
//! `": "` and CRLF per line and a trailing CRLF.

use vstd::prelude::*;

verus! {

/// The pairs as the contracts speak of them: byte sequences.
pub open spec fn pairs_view(s: Seq<(Vec<u8>, Vec<u8>)>) -> Seq<(Seq<u8>, Seq<u8>)> {
    s.map_values(|p: (Vec<u8>, Vec<u8>)| (p.0@, p.1@))
}

/// Index of the first pair carrying `name`; the length when none does.
pub open spec fn find_name(m: Seq<(Seq<u8>, Seq<u8>)>, name: Seq<u8>) -> int
    decreases m.len(),
{
    if m.len() == 0 {
        0
    } else if m[0].0 == name {
        0
    } else {
        1 + find_name(m.skip(1), name)
    }
}

/// `find_name` names the first occurrence: no pair before it carries the
/// name, and the pair at it (when inside the mapping) does.
pub proof fn lemma_find_name(m: Seq<(Seq<u8>, Seq<u8>)>, name: Seq<u8>)
    ensures
        0 <= find_name(m, name) <= m.len(),
        forall|i: int| 0 <= i < find_name(m, name) ==> (#[trigger] m[i]).0 != name,
        find_name(m, name) < m.len() ==> m[find_name(m, name)].0 == name,
    decreases m.len(),
{
    if m.len() == 0 || m[0].0 == name {
    } else {
        lemma_find_name(m.skip(1), name);
        assert forall|i: int| 0 <= i < find_name(m, name) implies (#[trigger] m[i]).0 != name by {
            if i > 0 {
                assert(m.skip(1)[i - 1] == m[i]);
            }
        }
        if find_name(m, name) < m.len() {
            assert(m.skip(1)[find_name(m, name) - 1] == m[find_name(m, name)]);
        }
    }
}

/// Any position with no occurrence before it and one at it (or the end,
/// when the name is absent throughout) is `find_name`.
pub proof fn lemma_find_name_unique(m: Seq<(Seq<u8>, Seq<u8>)>, name: Seq<u8>, i: int)
    requires
        0 <= i <= m.len(),
        forall|j: int| 0 <= j < i ==> (#[trigger] m[j]).0 != name,
        i < m.len() ==> m[i].0 == name,
    ensures
        find_name(m, name) == i,
    decreases m.len(),
{
    if m.len() == 0 {
    } else if m[0].0 == name {
        assert(i == 0);
    } else {
        assert(i >= 1);
        assert forall|j: int| 0 <= j < i - 1 implies (#[trigger] m.skip(1)[j]).0 != name by {
            assert(m.skip(1)[j] == m[j + 1]);
        }
        if i - 1 < m.len() - 1 {
            assert(m.skip(1)[i - 1] == m[i]);
        }
        lemma_find_name_unique(m.skip(1), name, i - 1);
    }
}

/// Record one delivered pair: a fresh name is appended, a repeated name
/// keeps its place and takes the new value.
pub open spec fn spec_insert(
    m: Seq<(Seq<u8>, Seq<u8>)>,
    name: Seq<u8>,
    value: Seq<u8>,
) -> Seq<(Seq<u8>, Seq<u8>)> {
    if find_name(m, name) == m.len() {
        m.push((name, value))
    } else {
        m.update(find_name(m, name), (name, value))
    }
}

/// The mapping after recording every delivered pair in order.
pub open spec fn spec_collect(ps: Seq<(Seq<u8>, Seq<u8>)>) -> Seq<(Seq<u8>, Seq<u8>)>
    decreases ps.len(),
{
    if ps.len() == 0 {
        Seq::empty()
    } else {
        spec_insert(spec_collect(ps.drop_last()), ps.last().0, ps.last().1)
    }
}

/// No two entries of a mapping carry the same name.
pub open spec fn unique_names(m: Seq<(Seq<u8>, Seq<u8>)>) -> bool {
    forall|i: int, j: int| 0 <= i < j < m.len() ==> (#[trigger] m[i]).0 != (#[trigger] m[j]).0
}

/// Recording one pair keeps the names unique.
pub proof fn lemma_insert_unique(m: Seq<(Seq<u8>, Seq<u8>)>, name: Seq<u8>, value: Seq<u8>)
    requires
        unique_names(m),
    ensures
        unique_names(spec_insert(m, name, value)),
{
    lemma_find_name(m, name);
    let r = spec_insert(m, name, value);
    if find_name(m, name) == m.len() {
        assert forall|i: int, j: int| 0 <= i < j < r.len() implies (#[trigger] r[i]).0 != (
        #[trigger] r[j]).0 by {
            if j == m.len() {
                assert(r[i] == m[i]);
            } else {
                assert(r[i] == m[i] && r[j] == m[j]);
            }
        }
    } else {
        let f = find_name(m, name);
        assert forall|i: int, j: int| 0 <= i < j < r.len() implies (#[trigger] r[i]).0 != (
        #[trigger] r[j]).0 by {
            if i != f && j != f {
                assert(r[i] == m[i] && r[j] == m[j]);
            } else if i == f {
                assert(r[j] == m[j]);
                assert(m[j].0 != m[f].0);
            } else {
                assert(r[i] == m[i]);
                if i < f {
                    assert(m[i].0 != name);
                } else {
                    assert(m[i].0 != m[f].0);
                }
            }
        }
    }
}

/// Mapping law: whatever was delivered, the collected headers form a
/// mapping in which every name appears at most once.
pub proof fn lemma_collect_unique(ps: Seq<(Seq<u8>, Seq<u8>)>)
    ensures
        unique_names(spec_collect(ps)),
    decreases ps.len(),
{
    if ps.len() > 0 {
        lemma_collect_unique(ps.drop_last());
        lemma_insert_unique(spec_collect(ps.drop_last()), ps.last().0, ps.last().1);
    }
}

/// The value the mapping carries for `name`, when it carries one.
pub open spec fn lookup(m: Seq<(Seq<u8>, Seq<u8>)>, name: Seq<u8>) -> Option<Seq<u8>> {
    if find_name(m, name) < m.len() {
        Some(m[find_name(m, name)].1)
    } else {
        None
    }
}

/// The value of the last delivered pair carrying `name`, when any did.
pub open spec fn last_value(ps: Seq<(Seq<u8>, Seq<u8>)>, name: Seq<u8>) -> Option<Seq<u8>>
    decreases ps.len(),
{
    if ps.len() == 0 {
        None
    } else if ps.last().0 == name {
        Some(ps.last().1)
    } else {
        last_value(ps.drop_last(), name)
    }
}

/// Collection law: for every name, the mapping carries exactly the last
/// value delivered under it, and nothing for a name never delivered.
pub proof fn lemma_collect_last_value(ps: Seq<(Seq<u8>, Seq<u8>)>, name: Seq<u8>)
    ensures
        lookup(spec_collect(ps), name) == last_value(ps, name),
    decreases ps.len(),
{
    if ps.len() == 0 {
    } else {
        let m = spec_collect(ps.drop_last());
        let pn = ps.last().0;
        let pv = ps.last().1;
        let r = spec_insert(m, pn, pv);
        lemma_collect_last_value(ps.drop_last(), name);
        lemma_find_name(m, pn);
        lemma_find_name(m, name);
        let f = find_name(m, pn);
        if pn == name {
            if f == m.len() {
                assert forall|i: int| 0 <= i < m.len() implies (#[trigger] r[i]).0 != name by {
                    assert(r[i] == m[i]);
                }
                assert(r[m.len() as int].0 == name);
                lemma_find_name_unique(r, name, m.len() as int);
            } else {
                assert forall|i: int| 0 <= i < f implies (#[trigger] r[i]).0 != name by {
                    assert(r[i] == m[i]);
                }
                assert(r[f].0 == name);
                lemma_find_name_unique(r, name, f);
            }
            assert(lookup(r, name) == Some(pv));
        } else {
            let g = find_name(m, name);
            if f == m.len() {
                if g == m.len() {
                    assert forall|i: int| 0 <= i < r.len() implies (#[trigger] r[i]).0 != name by {
                        if i < m.len() {
                            assert(r[i] == m[i]);
                        } else {
                            assert(r[i].0 == pn);
                        }
                    }
                    lemma_find_name_unique(r, name, r.len() as int);
                    assert(lookup(r, name) is None);
                } else {
                    assert forall|i: int| 0 <= i < g implies (#[trigger] r[i]).0 != name by {
                        assert(r[i] == m[i]);
                    }
                    assert(r[g] == m[g]);
                    lemma_find_name_unique(r, name, g);
                    assert(lookup(r, name) == Some(m[g].1));
                }
            } else {
                if g == m.len() {
                    assert forall|i: int| 0 <= i < r.len() implies (#[trigger] r[i]).0 != name by {
                        if i == f {
                            assert(r[i].0 == pn);
                        } else {
                            assert(r[i] == m[i]);
                        }
                    }
                    lemma_find_name_unique(r, name, r.len() as int);
                    assert(lookup(r, name) is None);
                } else {
                    assert(m[g].0 == name && m[f].0 == pn);
                    assert(g != f);
                    assert forall|i: int| 0 <= i < g implies (#[trigger] r[i]).0 != name by {
                        if i == f {
                            assert(r[i].0 == pn);
                        } else {
                            assert(r[i] == m[i]);
                        }
                    }
                    assert(r[g] == m[g]);
                    lemma_find_name_unique(r, name, g);
                    assert(lookup(r, name) == Some(m[g].1));
                }
            }
        }
    }
}

/// Byte-wise equality of two buffers.
fn bytes_eq(a: &Vec<u8>, b: &Vec<u8>) -> (r: bool)
    ensures
        r == (a@ == b@),
{
    if a.len() != b.len() {
        return false;
    }
    let mut i: usize = 0;
    while i < a.len()
        invariant
            i <= a@.len(),
            a@.len() == b@.len(),
            forall|j: int| 0 <= j < i ==> a@[j] == b@[j],
        decreases a@.len() - i,
    {
        if a[i] != b[i] {
            return false;
        }
        i = i + 1;
    }
    proof {
        assert(a@ =~= b@);
    }
    true
}

/// Record the delivered headers in order; on a repeated name the last
/// value wins and the first position is kept.
#[verifier::loop_isolation(false)]
#[verifier::rlimit(60)]
pub fn collect_headers(delivered: &Vec<(Vec<u8>, Vec<u8>)>) -> (r: Vec<(Vec<u8>, Vec<u8>)>)
    ensures
        pairs_view(r@) == spec_collect(pairs_view(delivered@)),
        unique_names(pairs_view(r@)),
{
    let ghost ps = pairs_view(delivered@);
    let mut out: Vec<(Vec<u8>, Vec<u8>)> = Vec::new();
    let mut i: usize = 0;
    proof {
        assert(ps.take(0) =~= Seq::<(Seq<u8>, Seq<u8>)>::empty());
    }
    while i < delivered.len()
        invariant
            i <= delivered@.len(),
            pairs_view(out@) == spec_collect(ps.take(i as int)),
        decreases delivered@.len() - i,
    {
        let ghost old_out = out@;
        let p = &delivered[i];
        let nm: Vec<u8> = vstd::slice::slice_to_vec(p.0.as_slice());
        let vl: Vec<u8> = vstd::slice::slice_to_vec(p.1.as_slice());
        let mut j: usize = 0;
        while j < out.len() && !bytes_eq(&out[j].0, &nm)
            invariant
                j <= out@.len(),
                out@ == old_out,
                forall|k: int| 0 <= k < j ==> (#[trigger] out@[k]).0@ != nm@,
            decreases out@.len() - j,
        {
            j = j + 1;
        }
        proof {
            assert forall|k: int| 0 <= k < j implies (#[trigger] pairs_view(out@)[k]).0 != nm@ by {
                assert(pairs_view(out@)[k] == (out@[k].0@, out@[k].1@));
            }
            if j < out@.len() {
                assert(pairs_view(out@)[j as int] == (out@[j as int].0@, out@[j as int].1@));
            }
            lemma_find_name_unique(pairs_view(out@), nm@, j as int);
        }
        if j == out.len() {
            out.push((nm, vl));
            proof {
                assert(pairs_view(out@) =~= spec_insert(pairs_view(old_out), nm@, vl@));
            }
        } else {
            out.remove(j);
            out.insert(j, (nm, vl));
            proof {
                assert(pairs_view(out@) =~= spec_insert(pairs_view(old_out), nm@, vl@));
            }
        }
        proof {
            assert(ps.take(i + 1).drop_last() =~= ps.take(i as int));
            assert(ps.take(i + 1).last() == ps[i as int]);
            assert(ps[i as int] == (delivered@[i as int].0@, delivered@[i as int].1@));
            assert(pairs_view(out@) == spec_collect(ps.take(i + 1)));
        }
        i = i + 1;
    }
    proof {
        assert(ps.take(delivered@.len() as int) =~= ps);
        lemma_collect_unique(ps);
    }
    out
}

/// The wire-size estimate: `": "` and CRLF for each line, a trailing
/// CRLF, summed over the pairs as delivered.
pub open spec fn spec_headers_size(ps: Seq<(Seq<u8>, Seq<u8>)>) -> int
    decreases ps.len(),
{
    if ps.len() == 0 {
        2
    } else {
        spec_headers_size(ps.drop_last()) + ps.last().0.len() + ps.last().1.len() + 4
    }
}

/// Compute the estimate. The true sum always fits in practice; were it
/// ever to exceed the counter, the counter stops at its maximum rather
/// than wrap.
#[verifier::loop_isolation(false)]
pub fn headers_size(delivered: &Vec<(Vec<u8>, Vec<u8>)>) -> (r: u128)
    ensures
        spec_headers_size(pairs_view(delivered@)) <= u128::MAX ==> r == spec_headers_size(
            pairs_view(delivered@),
        ),
        r <= spec_headers_size(pairs_view(delivered@)),
{
    let ghost ps = pairs_view(delivered@);
    let mut total: u128 = 2;
    let mut i: usize = 0;
    proof {
        assert(ps.take(0) =~= Seq::<(Seq<u8>, Seq<u8>)>::empty());
    }
    while i < delivered.len()
        invariant
            i <= delivered@.len(),
            total <= spec_headers_size(ps.take(i as int)),
            spec_headers_size(ps.take(i as int)) <= u128::MAX ==> total == spec_headers_size(
                ps.take(i as int),
            ),
        decreases delivered@.len() - i,
    {
        let p = &delivered[i];
        let term: u128 = p.0.len() as u128 + p.1.len() as u128 + 4;
        proof {
            assert(ps.take(i + 1).drop_last() =~= ps.take(i as int));
            assert(ps.take(i + 1).last() == ps[i as int]);
            assert(ps[i as int] == (delivered@[i as int].0@, delivered@[i as int].1@));
        }
        if total <= u128::MAX - term {
            total = total + term;
        } else {
            total = u128::MAX;
        }
        i = i + 1;
    }
    proof {
        assert(ps.take(delivered@.len() as int) =~= ps);
    }
    total
}

} // verus!
