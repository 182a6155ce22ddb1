//! Splitting the pending cleanup tasks into one batch per organization, each
//! batch in step order.

use vstd::prelude::*;

use crate::org_cleanup::CleanupTask;
use crate::text::same_text;

verus! {

broadcast use {vstd::seq_lib::group_seq_properties, vstd::seq_lib::group_to_multiset_ensures};

/// The tasks of `tasks` that belong to organization `org`, in their order.
pub open spec fn of_org(tasks: Seq<CleanupTask>, org: Seq<char>) -> Seq<CleanupTask> {
    tasks.filter(belongs_to(org))
}

/// A task belongs to organization `org`.
pub open spec fn belongs_to(org: Seq<char>) -> spec_fn(CleanupTask) -> bool {
    |t: CleanupTask| t.org_id@ == org
}

/// The tasks run in non-decreasing step order.
pub open spec fn sorted_by_order(s: Seq<CleanupTask>) -> bool {
    forall|i: int, j: int| 0 <= i <= j < s.len() ==> s[i].step_order <= s[j].step_order
}

/// The organization of a batch: that of its first task.
pub open spec fn batch_org(batch: Seq<CleanupTask>) -> Seq<char> {
    batch[0].org_id@
}

/// The contents of each batch.
pub open spec fn batch_views(batches: Seq<Vec<CleanupTask>>) -> Seq<Seq<CleanupTask>> {
    batches.map_values(|b: Vec<CleanupTask>| b@)
}

/// Some batch belongs to organization `org`.
pub open spec fn has_batch_for(batches: Seq<Seq<CleanupTask>>, org: Seq<char>) -> bool {
    exists|b: int| 0 <= b < batches.len() && #[trigger] batch_org(batches[b]) == org
}

/// `batches` splits `tasks` by organization: one non-empty batch per
/// organization that has tasks, holding exactly that organization's tasks in
/// step order.
pub open spec fn batches_by_org(batches: Seq<Seq<CleanupTask>>, tasks: Seq<CleanupTask>) -> bool {
    &&& forall|b: int|
        #![trigger batches[b]]
        0 <= b < batches.len() ==> {
            &&& batches[b].len() > 0
            &&& sorted_by_order(batches[b])
            &&& batches[b].to_multiset() == of_org(tasks, batch_org(batches[b])).to_multiset()
            &&& forall|v: i32|
                #[trigger] batches[b].filter(has_order(v)) == of_org(tasks, batch_org(batches[b])).filter(
                    has_order(v),
                )
        }
    &&& forall|b: int, c: int|
        0 <= b < c < batches.len() ==> batch_org(batches[b]) != batch_org(batches[c])
    &&& forall|i: int| 0 <= i < tasks.len() ==> has_batch_for(batches, (#[trigger] tasks[i]).org_id@)
}

/// A task has step order `order`.
pub open spec fn has_order(order: i32) -> spec_fn(CleanupTask) -> bool {
    |t: CleanupTask| t.step_order == order
}

/// Inserts `t` into the step-ordered batch `batch`, ahead of the tasks of the
/// same order or later.
fn insert_by_order(batch: &mut Vec<CleanupTask>, t: CleanupTask)
    requires
        sorted_by_order(old(batch)@),
    ensures
        sorted_by_order(final(batch)@),
        final(batch)@.to_multiset() == old(batch)@.to_multiset().insert(t),
        final(batch)@.len() == old(batch)@.len() + 1,
        final(batch)@[0] == t || (old(batch)@.len() > 0 && final(batch)@[0] == old(batch)@[0]),
        forall|v: i32|
            #[trigger] final(batch)@.filter(has_order(v)) == if t.step_order == v {
                seq![t] + old(batch)@.filter(has_order(v))
            } else {
                old(batch)@.filter(has_order(v))
            },
{
    let n = batch.len();
    let mut pos: usize = 0;
    while pos < n && batch[pos].step_order < t.step_order
        invariant
            n == batch@.len(),
            pos <= n,
            forall|j: int| 0 <= j < pos ==> batch@[j].step_order < t.step_order,
        decreases n - pos,
    {
        pos = pos + 1;
    }
    let ghost before = batch@;
    batch.insert(pos, t);
    proof {
        assert(batch@ == before.insert(pos as int, t));
        assert forall|i: int, j: int| 0 <= i <= j < batch@.len() implies batch@[i].step_order
            <= batch@[j].step_order by {
            if pos < n {
                assert(before[pos as int].step_order >= t.step_order);
            }
        }
        let head = before.take(pos as int);
        let tail = before.skip(pos as int);
        assert(before =~= head + tail);
        assert(batch@ =~= head + seq![t] + tail);
        assert forall|v: i32|
            #[trigger] batch@.filter(has_order(v)) == if t.step_order == v {
                seq![t] + before.filter(has_order(v))
            } else {
                before.filter(has_order(v))
            } by {
            let p = has_order(v);
            Seq::filter_distributes_over_add(head, tail, p);
            Seq::filter_distributes_over_add(head + seq![t], tail, p);
            Seq::filter_distributes_over_add(head, seq![t], p);
            tail.lemma_filter_prepend(t, p);
            if t.step_order == v {
                assert forall|i: int| 0 <= i < head.len() implies !p(#[trigger] head[i]) by {
                    assert(head[i] == before[i]);
                }
                assert(head.all(|x: CleanupTask| !p(x)));
                head.lemma_all_neg_filter_empty(p);
                assert(head.filter(p) =~= Seq::<CleanupTask>::empty());
                assert(seq![t].filter(p) =~= seq![t]) by {
                    Seq::<CleanupTask>::empty().lemma_filter_prepend(t, p);
                    assert(seq![t] + Seq::<CleanupTask>::empty() =~= seq![t]);
                }
            } else {
                assert(seq![t].filter(p) =~= Seq::<CleanupTask>::empty()) by {
                    Seq::<CleanupTask>::empty().lemma_filter_prepend(t, p);
                    assert(seq![t] + Seq::<CleanupTask>::empty() =~= seq![t]);
                }
            }
        }
    }
}

/// The batches are non-empty, in step order, one per organization, and each
/// holds exactly the tasks of `done` that belong to its organization.
pub open spec fn batches_hold(batches: Seq<Seq<CleanupTask>>, done: Seq<CleanupTask>) -> bool {
    &&& forall|b: int|
        #![trigger batches[b]]
        0 <= b < batches.len() ==> {
            &&& batches[b].len() > 0
            &&& sorted_by_order(batches[b])
            &&& batches[b].to_multiset() == of_org(done, batch_org(batches[b])).to_multiset()
            &&& forall|v: i32|
                #[trigger] batches[b].filter(has_order(v)) == of_org(done, batch_org(batches[b])).filter(
                    has_order(v),
                )
        }
    &&& forall|b: int, c: int|
        0 <= b < c < batches.len() ==> batch_org(batches[b]) != batch_org(batches[c])
    &&& forall|i: int| 0 <= i < done.len() ==> has_batch_for(batches, (#[trigger] done[i]).org_id@)
}

/// The first batch whose first task belongs to organization `org`, or the
/// number of batches when there is none.
fn find_batch(batches: &Vec<Vec<CleanupTask>>, org: &str) -> (r: usize)
    requires
        forall|c: int| 0 <= c < batches@.len() ==> (#[trigger] batches@[c])@.len() > 0,
    ensures
        r <= batches@.len(),
        r < batches@.len() ==> batches@[r as int]@[0].org_id@ == org@,
        forall|c: int| 0 <= c < r ==> (#[trigger] batches@[c])@[0].org_id@ != org@,
{
    let m = batches.len();
    let mut b: usize = 0;
    while b < m
        invariant
            m == batches@.len(),
            b <= m,
            forall|c: int| 0 <= c < m ==> (#[trigger] batches@[c])@.len() > 0,
            forall|c: int| 0 <= c < b ==> (#[trigger] batches@[c])@[0].org_id@ != org@,
        decreases m - b,
    {
        let batch = &batches[b];
        if same_text(batch[0].org_id.as_str(), org) {
            return b;
        }
        b = b + 1;
    }
    m
}

/// Splits `tasks` into one batch per organization, each in step order.
pub fn batch_by_org(tasks: Vec<CleanupTask>) -> (r: Vec<Vec<CleanupTask>>)
    ensures
        batches_by_org(batch_views(r@), tasks@),
{
    let ghost all = tasks@;
    let ghost n = tasks@.len();
    let mut rest = tasks;
    let mut batches: Vec<Vec<CleanupTask>> = Vec::new();
    proof {
        assert(batches_hold(batch_views(batches@), all.subrange(n as int, n as int)));
    }
    while rest.len() > 0
        invariant
            n == all.len(),
            rest.len() <= n,
            rest@ == all.subrange(0, rest.len() as int),
            batches_hold(batch_views(batches@), all.subrange(rest.len() as int, n as int)),
        decreases rest.len(),
    {
        let ghost old_views = batch_views(batches@);
        let ghost done = all.subrange(rest.len() as int, n as int);
        let t = rest.pop().unwrap();
        let ghost k0 = rest.len() as int;
        let ghost done2 = all.subrange(k0, n as int);
        let ghost key = t.org_id@;
        proof {
            assert(t == all[k0]);
            assert(done2 =~= seq![t] + done);
        }
        let m = batches.len();
        proof {
            assert forall|c: int| 0 <= c < m implies (#[trigger] batches@[c])@ == old_views[c]
                && batches@[c]@.len() > 0 by {
                assert(old_views[c].len() > 0);
            }
        }
        let b = find_batch(&batches, t.org_id.as_str());
        proof {
            assert forall|c: int| 0 <= c < b implies batch_org(old_views[c]) != key by {
                assert(batches@[c]@ == old_views[c]);
            }
        }
        if b < m {
            proof {
                assert(old_views[b as int] == batches@[b as int]@);
                assert(batch_org(old_views[b as int]) == key);
            }
            insert_by_order(&mut batches[b], t);
            let ghost views = batch_views(batches@);
            proof {
                assert(views.len() == old_views.len());
                assert(batch_org(views[b as int]) == key);
                assert forall|c: int|
                    #![trigger views[c]]
                    0 <= c < views.len() implies {
                    &&& views[c].len() > 0
                    &&& sorted_by_order(views[c])
                    &&& views[c].to_multiset() == of_org(done2, batch_org(views[c])).to_multiset()
                    &&& forall|v: i32|
                        #[trigger] views[c].filter(has_order(v)) == of_org(done2, batch_org(views[c])).filter(
                            has_order(v),
                        )
                } by {
                    let org = batch_org(views[c]);
                    done.lemma_filter_prepend(t, belongs_to(org));
                    if c == b {
                        let f = of_org(done, key);
                        assert(seq![t] + f =~= f.insert(0, t));
                        assert(of_org(done2, key) =~= seq![t] + f);
                        assert forall|v: i32|
                            #[trigger] views[c].filter(has_order(v)) == of_org(done2, key).filter(
                                has_order(v),
                            ) by {
                            f.lemma_filter_prepend(t, has_order(v));
                            assert(old_views[c].filter(has_order(v)) == f.filter(has_order(v)));
                            if t.step_order != v {
                                assert(Seq::<CleanupTask>::empty() + f.filter(has_order(v)) =~= f.filter(
                                    has_order(v),
                                ));
                            }
                        }
                    } else {
                        assert(views[c] == old_views[c]);
                        if c < b {
                            assert(batch_org(old_views[c]) != batch_org(old_views[b as int]));
                        } else {
                            assert(batch_org(old_views[b as int]) != batch_org(old_views[c]));
                        }
                        assert(of_org(done2, org) =~= of_org(done, org));
                        assert(forall|v: i32|
                            #[trigger] old_views[c].filter(has_order(v)) == of_org(done, org).filter(
                                has_order(v),
                            ));
                    }
                }
                assert forall|c: int, d: int| 0 <= c < d < views.len() implies batch_org(views[c])
                    != batch_org(views[d]) by {
                    assert(batch_org(views[c]) == batch_org(old_views[c]));
                    assert(batch_org(views[d]) == batch_org(old_views[d]));
                }
                assert forall|i: int| 0 <= i < done2.len() implies has_batch_for(
                    views,
                    (#[trigger] done2[i]).org_id@,
                ) by {
                    if i == 0 {
                        assert(batch_org(views[b as int]) == done2[0].org_id@);
                    } else {
                        assert(done2[i] == done[i - 1]);
                        assert(has_batch_for(old_views, done[i - 1].org_id@));
                        let w = choose|w: int|
                            0 <= w < old_views.len() && #[trigger] batch_org(old_views[w])
                                == done[i - 1].org_id@;
                        assert(batch_org(views[w]) == batch_org(old_views[w]));
                    }
                }
            }
        } else {
            proof {
                assert forall|i: int| 0 <= i < done.len() implies !belongs_to(key)(
                    #[trigger] done[i],
                ) by {
                    assert(has_batch_for(old_views, done[i].org_id@));
                    let w = choose|w: int|
                        0 <= w < old_views.len() && #[trigger] batch_org(old_views[w])
                            == done[i].org_id@;
                }
                assert(done.all(|x: CleanupTask| !belongs_to(key)(x)));
                done.lemma_all_neg_filter_empty(belongs_to(key));
            }
            let mut batch: Vec<CleanupTask> = Vec::new();
            batch.push(t);
            batches.push(batch);
            let ghost views = batch_views(batches@);
            proof {
                assert(views.len() == m + 1);
                assert(views[m as int] =~= seq![t]);
                assert forall|c: int|
                    #![trigger views[c]]
                    0 <= c < views.len() implies {
                    &&& views[c].len() > 0
                    &&& sorted_by_order(views[c])
                    &&& views[c].to_multiset() == of_org(done2, batch_org(views[c])).to_multiset()
                    &&& forall|v: i32|
                        #[trigger] views[c].filter(has_order(v)) == of_org(done2, batch_org(views[c])).filter(
                            has_order(v),
                        )
                } by {
                    let org = batch_org(views[c]);
                    done.lemma_filter_prepend(t, belongs_to(org));
                    if c == m {
                        assert(of_org(done2, key) =~= seq![t]);
                        assert(seq![t] =~= Seq::<CleanupTask>::empty().push(t));
                    } else {
                        assert(views[c] == old_views[c]);
                        assert(of_org(done2, org) =~= of_org(done, org));
                        assert(forall|v: i32|
                            #[trigger] old_views[c].filter(has_order(v)) == of_org(done, org).filter(
                                has_order(v),
                            ));
                    }
                }
                assert forall|c: int, d: int| 0 <= c < d < views.len() implies batch_org(views[c])
                    != batch_org(views[d]) by {
                    assert(views[c] == old_views[c]);
                    if d < m {
                        assert(views[d] == old_views[d]);
                    }
                }
                assert forall|i: int| 0 <= i < done2.len() implies has_batch_for(
                    views,
                    (#[trigger] done2[i]).org_id@,
                ) by {
                    if i == 0 {
                        assert(batch_org(views[m as int]) == done2[0].org_id@);
                    } else {
                        assert(done2[i] == done[i - 1]);
                        assert(has_batch_for(old_views, done[i - 1].org_id@));
                        let w = choose|w: int|
                            0 <= w < old_views.len() && #[trigger] batch_org(old_views[w])
                                == done[i - 1].org_id@;
                        assert(views[w] == old_views[w]);
                    }
                }
            }
        }
    }
    proof {
        assert(all.subrange(0, n as int) =~= all);
    }
    batches
}

/// In a split by organization, a batch holds a task exactly when the task
/// is among those split and belongs to the batch's organization; the batch
/// is not empty and runs in non-decreasing step order; and every task split
/// has a batch of its organization.
pub proof fn lemma_batch_membership(
    batches: Seq<Seq<CleanupTask>>,
    tasks: Seq<CleanupTask>,
    b: int,
    x: CleanupTask,
)
    requires
        batches_by_org(batches, tasks),
        0 <= b < batches.len(),
    ensures
        batches[b].contains(x) <==> tasks.contains(x) && x.org_id@ == batches[b][0].org_id@,
        batches[b].len() > 0,
        forall|i: int, j: int|
            0 <= i <= j < batches[b].len() ==> batches[b][i].step_order <= batches[b][j].step_order,
        tasks.contains(x) ==> exists|c: int|
            0 <= c < batches.len() && #[trigger] batches[c][0].org_id@ == x.org_id@,
{
    let org = batches[b][0].org_id@;
    let own = of_org(tasks, org);
    assert(batch_org(batches[b]) == org);
    assert(batches[b].to_multiset() == own.to_multiset());
    vstd::seq_lib::to_multiset_contains(batches[b], x);
    vstd::seq_lib::to_multiset_contains(own, x);
    assert(batches[b].contains(x) == own.contains(x));
    if own.contains(x) {
        let k = choose|k: int| 0 <= k < own.len() && own[k] == x;
        tasks.lemma_filter_pred(belongs_to(org), k);
        tasks.lemma_filter_contains_rev(belongs_to(org), x);
    }
    if tasks.contains(x) && x.org_id@ == org {
        tasks.lemma_filter_contains_rev(belongs_to(org), x);
        let i = choose|i: int| 0 <= i < tasks.len() && tasks[i] == x;
        tasks.lemma_filter_contains(belongs_to(org), i);
    }
    if tasks.contains(x) {
        let i = choose|i: int| 0 <= i < tasks.len() && tasks[i] == x;
        assert(has_batch_for(batches, tasks[i].org_id@));
        let c = choose|c: int| 0 <= c < batches.len() && #[trigger] batch_org(batches[c]) == tasks[i].org_id@;
        assert(batches[c][0].org_id@ == x.org_id@);
    }
}

} // verus!
