use vstd::prelude::*;

verus! {

/// How many times `v` occurs in `s`.
pub open spec fn occurrences(s: Seq<u128>, v: u128) -> nat
    decreases s.len(),
{
    if s.len() == 0 {
        0
    } else {
        occurrences(s.drop_last(), v) + if s.last() == v {
            1nat
        } else {
            0nat
        }
    }
}

pub proof fn lemma_occurrences_le_len(s: Seq<u128>, v: u128)
    ensures
        occurrences(s, v) <= s.len(),
    decreases s.len(),
{
    if s.len() > 0 {
        lemma_occurrences_le_len(s.drop_last(), v);
    }
}

/// Keys strictly ascending.
pub open spec fn keys_ascending(t: Seq<(u128, usize)>) -> bool {
    forall|a: int, b: int| 0 <= a < b < t.len() ==> t[a].0 < t[b].0
}

/// `t` is the bucket table of `values`: ascending distinct keys, each paired
/// with the number of values equal to it, and every value has its bucket.
pub open spec fn is_histogram(t: Seq<(u128, usize)>, values: Seq<u128>) -> bool {
    &&& keys_ascending(t)
    &&& forall|k: int| 0 <= k < t.len() ==> #[trigger] t[k].1 == occurrences(values, t[k].0) && t[k].1 >= 1
    &&& forall|v: u128| occurrences(values, v) > 0 ==> exists|k: int| 0 <= k < t.len() && #[trigger] t[k].0 == v
}

/// Bucket `values` by value: one `(value, number of occurrences)` pair per
/// distinct value, in ascending order of value.
pub fn histogram(values: &Vec<u128>) -> (r: Vec<(u128, usize)>)
    ensures
        is_histogram(r@, values@),
{
    let mut table: Vec<(u128, usize)> = Vec::new();
    let mut i: usize = 0;
    while i < values.len()
        invariant
            i <= values@.len(),
            is_histogram(table@, values@.subrange(0, i as int)),
        decreases values@.len() - i,
    {
        let v = values[i];
        let ghost prefix = values@.subrange(0, i as int);
        let ghost next = values@.subrange(0, i + 1);
        proof {
            assert(next =~= prefix.push(v));
            assert(next.drop_last() =~= prefix);
            lemma_occurrences_le_len(prefix, v);
        }
        let mut p: usize = 0;
        while p < table.len() && table[p].0 < v
            invariant
                p <= table@.len(),
                forall|j: int| 0 <= j < p ==> table@[j].0 < v,
            decreases table@.len() - p,
        {
            p = p + 1;
        }
        let ghost old_table = table@;
        if p < table.len() && table[p].0 == v {
            let c = table[p].1;
            table.set(p, (v, c + 1));
            proof {
                assert forall|k: int| 0 <= k < table@.len() implies #[trigger] table@[k].1 == occurrences(next, table@[k].0) && table@[k].1 >= 1 by {
                    assert(old_table[k].1 == occurrences(prefix, old_table[k].0));
                }
                assert forall|w: u128| occurrences(next, w) > 0 implies exists|k: int| 0 <= k < table@.len() && #[trigger] table@[k].0 == w by {
                    if w == v {
                        assert(table@[p as int].0 == w);
                    } else {
                        assert(next.last() == v);
                        assert(occurrences(next, w) == occurrences(prefix, w));
                        let k = choose|k: int| 0 <= k < old_table.len() && #[trigger] old_table[k].0 == w;
                        assert(table@[k].0 == w);
                    }
                }
            }
        } else {
            proof {
                assert forall|k: int| 0 <= k < old_table.len() implies #[trigger] old_table[k].0 != v by {
                    if p < old_table.len() && k >= p {
                        if k > p {
                            assert(old_table[p as int].0 < old_table[k].0);
                        }
                    }
                }
                if occurrences(prefix, v) > 0 {
                    let k = choose|k: int| 0 <= k < old_table.len() && #[trigger] old_table[k].0 == v;
                }
            }
            table.insert(p, (v, 1));
            proof {
                let t = table@;
                assert(t =~= old_table.insert(p as int, (v, 1usize)));
                assert forall|a: int, b: int| 0 <= a < b < t.len() implies t[a].0 < t[b].0 by {
                    let a2 = if a < p { a } else { a - 1 };
                    let b2 = if b < p { b } else { b - 1 };
                    if a != p && b != p {
                        assert(t[a] == old_table[a2]);
                        assert(t[b] == old_table[b2]);
                    } else if a == p {
                        assert(t[b] == old_table[b2]);
                        assert(b2 >= p);
                        if b2 > p {
                            assert(old_table[p as int].0 < old_table[b2].0);
                        }
                    } else {
                        assert(t[a] == old_table[a2]);
                    }
                }
                assert forall|k: int| 0 <= k < t.len() implies #[trigger] t[k].1 == occurrences(next, t[k].0) && t[k].1 >= 1 by {
                    if k < p {
                        assert(t[k] == old_table[k]);
                        assert(old_table[k].1 == occurrences(prefix, old_table[k].0));
                    } else if k > p {
                        assert(t[k] == old_table[k - 1]);
                        assert(old_table[k - 1].1 == occurrences(prefix, old_table[k - 1].0));
                    }
                }
                assert forall|w: u128| occurrences(next, w) > 0 implies exists|k: int| 0 <= k < t.len() && #[trigger] t[k].0 == w by {
                    if w == v {
                        assert(t[p as int].0 == w);
                    } else {
                        assert(next.last() == v);
                        assert(occurrences(next, w) == occurrences(prefix, w));
                        let k = choose|k: int| 0 <= k < old_table.len() && #[trigger] old_table[k].0 == w;
                        if k < p {
                            assert(t[k].0 == w);
                        } else {
                            assert(t[k + 1].0 == w);
                        }
                    }
                }
            }
        }
        i = i + 1;
    }
    assert(values@.subrange(0, values@.len() as int) =~= values@);
    table
}

} // verus!
