use vstd::prelude::*;

use crate::records::mats_view;
use crate::text::str_eq;

verus! {

/// View of a running shopping-list total; quantities are mathematical so
/// the model never wraps.
pub open spec fn totals_view(s: Seq<(String, u64)>) -> Seq<(Seq<char>, int)> {
    s.map_values(|p: (String, u64)| (p.0@, p.1 as int))
}

/// Index of the first totals entry with the given name; the length when
/// there is none.
pub open spec fn total_idx(s: Seq<(Seq<char>, int)>, name: Seq<char>) -> int
    decreases s.len(),
{
    if s.len() == 0 {
        0
    } else if s[0].0 == name {
        0
    } else {
        1 + total_idx(s.skip(1), name)
    }
}

proof fn lemma_total_idx(s: Seq<(Seq<char>, int)>, name: Seq<char>)
    ensures
        0 <= total_idx(s, name) <= s.len(),
        total_idx(s, name) < s.len() ==> s[total_idx(s, name)].0 == name,
        forall|j: int| 0 <= j < total_idx(s, name) ==> s[j].0 != name,
    decreases s.len(),
{
    if s.len() == 0 {
    } else if s[0].0 == name {
    } else {
        lemma_total_idx(s.skip(1), name);
        let idx = total_idx(s, name);
        assert forall|j: int| 0 <= j < idx implies s[j].0 != name by {
            if j > 0 {
                assert(s.skip(1)[j - 1] == s[j]);
            }
        }
        if idx < s.len() {
            assert(s.skip(1)[idx - 1] == s[idx]);
        }
    }
}

/// One material merged into the totals: an existing entry for the name
/// grows by the quantity, a new name is appended with it.
pub open spec fn bump(s: Seq<(Seq<char>, int)>, name: Seq<char>, q: u64) -> Seq<(Seq<char>, int)> {
    if total_idx(s, name) < s.len() {
        s.update(total_idx(s, name), (s[total_idx(s, name)].0, s[total_idx(s, name)].1 + q))
    } else {
        s.push((name, q as int))
    }
}

/// A whole materials list merged into the totals, in order.
pub open spec fn accum(s: Seq<(Seq<char>, int)>, mats: Seq<(Seq<char>, u64)>) -> Seq<
    (Seq<char>, int),
>
    decreases mats.len(),
{
    if mats.len() == 0 {
        s
    } else {
        accum(bump(s, mats[0].0, mats[0].1), mats.skip(1))
    }
}

/// Merging only grows the totals: every entry keeps its name and its
/// quantity never shrinks.
proof fn lemma_accum_grows(s: Seq<(Seq<char>, int)>, mats: Seq<(Seq<char>, u64)>)
    ensures
        ({
            let r = accum(s, mats);
            &&& s.len() <= r.len()
            &&& forall|i: int|
                0 <= i < s.len() ==> (#[trigger] r[i]).0 == s[i].0 && r[i].1 >= s[i].1
        }),
    decreases mats.len(),
{
    if mats.len() > 0 {
        let b = bump(s, mats[0].0, mats[0].1);
        lemma_total_idx(s, mats[0].0);
        assert forall|i: int| 0 <= i < s.len() implies (#[trigger] b[i]).0 == s[i].0 && b[i].1
            >= s[i].1 by {
            if total_idx(s, mats[0].0) < s.len() && i != total_idx(s, mats[0].0) {
                assert(b[i] == s[i]);
            }
            if total_idx(s, mats[0].0) >= s.len() {
                assert(b[i] == s[i]);
            }
        }
        lemma_accum_grows(b, mats.skip(1));
    }
}

/// Adds one scaled materials list into a running shopping-list total keyed
/// by item name: an existing entry grows by the quantity, a new name is
/// appended with its quantity. The merged totals must fit the counters.
#[verifier::loop_isolation(false)]
pub fn merge_material_quantities(totals: &mut Vec<(String, u64)>, mats: &Vec<(String, u64)>)
    requires
        forall|k: int|
            0 <= k < accum(totals_view(old(totals)@), mats_view(mats@)).len() ==> (
            #[trigger] accum(totals_view(old(totals)@), mats_view(mats@))[k]).1 <= u64::MAX,
    ensures
        totals_view(final(totals)@) == accum(totals_view(old(totals)@), mats_view(mats@)),
{
    let ghost full = accum(totals_view(old(totals)@), mats_view(mats@));
    let n: usize = mats.len();
    let mut i: usize = 0;
    proof {
        assert(mats_view(mats@).skip(0) =~= mats_view(mats@));
    }
    while i < n
        invariant
            i <= n,
            n == mats@.len(),
            full == accum(totals_view(totals@), mats_view(mats@).skip(i as int)),
        decreases n - i,
    {
        proof {
            assert(mats_view(mats@).skip(i as int)[0] == mats_view(mats@)[i as int]);
            assert(mats_view(mats@)[i as int] == (mats@[i as int].0@, mats@[i as int].1));
            assert(mats_view(mats@).skip(i as int).skip(1) =~= mats_view(mats@).skip(i + 1 as int));
        }
        let q: u64 = mats[i].1;
        let ghost cur = totals_view(totals@);
        let ghost name = mats@[i as int].0@;
        let ghost b = bump(cur, name, q);
        proof {
            lemma_total_idx(cur, name);
            lemma_accum_grows(b, mats_view(mats@).skip(i + 1 as int));
        }
        let m: usize = totals.len();
        let mut j: usize = 0;
        let mut hit: bool = false;
        while j < m && !hit
            invariant
                j <= m,
                m == totals@.len(),
                cur == totals_view(totals@),
                !hit ==> forall|t: int| 0 <= t < j ==> cur[t].0 != name,
                hit ==> j < m && cur[j as int].0 == name && forall|t: int|
                    0 <= t < j ==> cur[t].0 != name,
            decreases m - j + if hit { 0int } else { 1int },
        {
            if str_eq(totals[j].0.as_str(), mats[i].0.as_str()) {
                proof {
                    assert(cur[j as int] == (totals@[j as int].0@, totals@[j as int].1 as int));
                }
                hit = true;
            } else {
                proof {
                    assert(cur[j as int] == (totals@[j as int].0@, totals@[j as int].1 as int));
                }
                j += 1;
            }
        }
        if hit {
            proof {
                assert(total_idx(cur, name) == j as int);
                assert(b[j as int].1 == cur[j as int].1 + q);
                assert(full[j as int].1 <= u64::MAX);
            }
            let mut entry = totals.remove(j);
            proof {
                assert(cur[j as int].1 == entry.1 as int);
            }
            entry.1 = entry.1 + q;
            totals.insert(j, entry);
            proof {
                crate::database::lemma_remove_insert(cur, j as int, b[j as int]);
                assert forall|t: int| 0 <= t < cur.len() implies #[trigger] totals_view(totals@)[t]
                    == b[t] by {
                    if t != j {
                        assert(totals_view(totals@)[t] == cur[t]);
                    }
                }
                assert(totals_view(totals@) =~= b);
            }
        } else {
            proof {
                assert(total_idx(cur, name) == cur.len());
            }
            let ghost pre = totals@;
            totals.push((mats[i].0.clone(), q));
            proof {
                assert forall|t: int| 0 <= t < cur.len() + 1 implies #[trigger] totals_view(
                    totals@,
                )[t] == b[t] by {
                    if t < cur.len() {
                        assert(totals@[t] == pre[t]);
                        assert(totals_view(pre)[t] == cur[t]);
                    }
                }
                assert(totals_view(totals@) =~= b);
            }
        }
        i += 1;
    }
    proof {
        assert(mats_view(mats@).skip(n as int) =~= Seq::<(Seq<char>, u64)>::empty());
    }
}

} // verus!
