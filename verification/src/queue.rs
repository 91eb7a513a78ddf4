//! A bag of evaluations that hands out the best one first.

use vstd::multiset::Multiset;
use vstd::prelude::*;
use vstd::seq_lib::{to_multiset_build, to_multiset_remove, to_multiset_update};

use crate::evaluation::{Evaluation, PointEval};

verus! {

/// No evaluation in `bag` has a greater value than `best`.
pub open spec fn is_best_of(bag: Multiset<Evaluation>, best: Evaluation) -> bool {
    forall|x: Evaluation| bag.contains(x) ==> x.value <= best.value
}

/// Taking `best` out of `before` leaves `after`, and nothing in `before` is
/// better than `best`.
pub open spec fn popped(
    before: Multiset<Evaluation>,
    best: Evaluation,
    after: Multiset<Evaluation>,
) -> bool {
    &&& before == after.insert(best)
    &&& is_best_of(before, best)
}

/// Of two evaluations popped one after the other, the second is not better
/// than the first.
pub proof fn lemma_successive_pops_descend(
    before: Multiset<Evaluation>,
    first: Evaluation,
    between: Multiset<Evaluation>,
    second: Evaluation,
    after: Multiset<Evaluation>,
)
    requires
        popped(before, first, between),
        popped(between, second, after),
    ensures
        second.value <= first.value,
{
    assert(between.contains(second));
    assert(before.contains(second));
}

/// The views of a sequence of evaluations.
pub open spec fn views_of(items: Seq<PointEval>) -> Seq<Evaluation> {
    items.map_values(|e: PointEval| e@)
}

/// `s` with the member at `i` taken out, the last member put in its place, and
/// the member taken out put at the end.
spec fn rotated(s: Seq<PointEval>, i: int) -> Seq<PointEval> {
    s.update(i, s.last()).drop_last().push(s[i])
}

proof fn lemma_swap_remove(s: Seq<Evaluation>, i: int)
    requires
        0 <= i < s.len(),
    ensures
        s.to_multiset() =~= s.update(i, s.last()).drop_last().to_multiset().insert(s[i]),
{
    broadcast use vstd::multiset::group_multiset_axioms;

    let last = s.len() - 1;
    let updated = s.update(i, s.last());
    to_multiset_update(s, i, s.last());
    assert(updated.drop_last() =~= updated.remove(last));
    to_multiset_remove(updated, last);
    s.to_multiset_ensures();
    assert(s.contains(s[i]));
    assert(s.contains(s[last]));
}

proof fn lemma_rotated(s: Seq<PointEval>, i: int)
    requires
        0 <= i < s.len(),
    ensures
        rotated(s, i).len() == s.len(),
        views_of(rotated(s, i)).to_multiset() =~= views_of(s).to_multiset(),
        rotated(s, i).last() == s[i],
        forall|k: int| 0 <= k < s.len() ==> exists|j: int| 0 <= j < s.len() && #[trigger] rotated(s, i)[k] == s[j],
{
    let views = views_of(s);
    assert(views_of(rotated(s, i)) =~= views.update(i, views.last()).drop_last().push(views[i]));
    lemma_swap_remove(views, i);
    to_multiset_build(views.update(i, views.last()).drop_last(), views[i]);
    let last = s.len() - 1;
    assert forall|k: int| 0 <= k < s.len() implies exists|j: int|
        0 <= j < s.len() && #[trigger] rotated(s, i)[k] == s[j] by {
        if k == last {
            assert(rotated(s, i)[k] == s[i]);
        } else if k == i {
            assert(rotated(s, i)[k] == s[last]);
        } else {
            assert(rotated(s, i)[k] == s[k]);
        }
    }
}

/// Bringing the member at `at` to the front keeps the members, and makes a
/// queue well formed where that member is a best one.
proof fn lemma_front(s: Seq<PointEval>, at: int)
    requires
        0 <= at < s.len(),
    ensures
        ({
            let t = rotated(rotated(s, at), 0);
            &&& t.len() == s.len()
            &&& views_of(t).to_multiset() =~= views_of(s).to_multiset()
            &&& t[0] == s[at]
            &&& forall|k: int| 0 <= k < s.len() ==> exists|j: int| 0 <= j < s.len() && #[trigger] t[k] == s[j]
        }),
{
    let m = rotated(s, at);
    lemma_rotated(s, at);
    lemma_rotated(m, 0);
    let t = rotated(m, 0);
    assert forall|k: int| 0 <= k < s.len() implies exists|j: int|
        0 <= j < s.len() && #[trigger] t[k] == s[j] by {
        let j1 = choose|j: int| 0 <= j < m.len() && t[k] == m[j];
        let j2 = choose|j: int| 0 <= j < s.len() && m[j1] == s[j];
        assert(t[k] == s[j2]);
    }
    if s.len() == 1 {
        assert(t[0] == s[at]);
    } else {
        assert(t[0] == m.last());
    }
}

/// A bag of evaluations whose best member stands first.
#[derive(Debug)]
pub struct BestQueue {
    items: Vec<PointEval>,
}

impl Clone for BestQueue {
    fn clone(&self) -> (r: Self)
        ensures
            r.contents() == self.contents(),
            self.wf() ==> r.wf(),
    {
        let mut items: Vec<PointEval> = Vec::new();
        let mut k: usize = 0;
        while k < self.items.len()
            invariant
                k <= self.items.len(),
                items.len() == k,
                forall|j: int| 0 <= j < k ==> (#[trigger] items[j])@ == self.items[j]@,
            decreases self.items.len() - k,
        {
            items.push(self.items[k].clone());
            k += 1;
        }
        proof {
            assert(views_of(items@) =~= views_of(self.items@));
        }
        BestQueue { items }
    }
}

impl BestQueue {
    /// What the queue holds, without an order.
    pub closed spec fn contents(&self) -> Multiset<Evaluation> {
        views_of(self.items@).to_multiset()
    }

    /// No member is better than the first one.
    pub closed spec fn wf(&self) -> bool {
        forall|i: int|
            0 <= i < self.items.len() ==> (#[trigger] self.items[i])@.value <= self.items[0]@.value
    }

    proof fn lemma_contents(&self)
        ensures
            self.contents().len() == self.items.len(),
            forall|i: int| 0 <= i < self.items.len() ==> self.contents().contains(#[trigger] self.items[i]@),
            forall|x: Evaluation| #[trigger]
                self.contents().contains(x) ==> exists|i: int|
                    0 <= i < self.items.len() && (#[trigger] self.items[i])@ == x,
    {
        let views = views_of(self.items@);
        views.to_multiset_ensures();
        assert forall|i: int| 0 <= i < self.items.len() implies self.contents().contains(
            #[trigger] self.items[i]@,
        ) by {
            assert(views[i] == self.items[i]@);
            assert(views.contains(views[i]));
        }
        assert forall|x: Evaluation| #[trigger] self.contents().contains(x) implies exists|i: int|
            0 <= i < self.items.len() && (#[trigger] self.items[i])@ == x by {
            assert(views.contains(x));
            let i = choose|i: int| 0 <= i < views.len() && views[i] == x;
            assert(self.items[i]@ == x);
        }
    }

    /// The empty queue.
    pub fn new() -> (r: Self)
        ensures
            r.wf(),
            r.contents() == Multiset::<Evaluation>::empty(),
    {
        let r = BestQueue { items: Vec::new() };
        proof {
            assert(views_of(r.items@) =~= Seq::<Evaluation>::empty());
            views_of(r.items@).to_multiset_ensures();
            assert(r.contents() =~= Multiset::<Evaluation>::empty());
        }
        r
    }

    /// How many evaluations the queue holds.
    pub fn len(&self) -> (r: usize)
        ensures
            r == self.contents().len(),
    {
        proof {
            self.lemma_contents();
        }
        self.items.len()
    }

    /// Whether the queue holds nothing.
    pub fn is_empty(&self) -> (r: bool)
        ensures
            r == (self.contents().len() == 0),
    {
        proof {
            self.lemma_contents();
        }
        self.items.len() == 0
    }

    /// Removes every evaluation.
    pub fn clear(&mut self)
        ensures
            final(self).wf(),
            final(self).contents() == Multiset::<Evaluation>::empty(),
    {
        self.items.clear();
        proof {
            assert(views_of(self.items@) =~= Seq::<Evaluation>::empty());
            views_of(self.items@).to_multiset_ensures();
            assert(self.contents() =~= Multiset::<Evaluation>::empty());
        }
    }

    /// Moves the member at `at` to the front.
    fn bring_to_front(&mut self, at: usize)
        requires
            at < old(self).items.len(),
        ensures
            final(self).items@ == rotated(rotated(old(self).items@, at as int), 0),
    {
        let top = self.items.swap_remove(at);
        self.items.push(top);
        let first = self.items.swap_remove(0);
        self.items.push(first);
    }

    /// Adds `item` to the queue.
    pub fn push(&mut self, item: PointEval)
        requires
            old(self).wf(),
        ensures
            final(self).wf(),
            final(self).contents() == old(self).contents().insert(item@),
    {
        let ghost before = self.items@;
        let better = self.items.len() > 0 && item.get_eval() > self.items[0].get_eval();
        self.items.push(item);
        let ghost pushed = self.items@;
        proof {
            assert(views_of(pushed) =~= views_of(before).push(item@));
            to_multiset_build(views_of(before), item@);
        }
        if better {
            let at = self.items.len() - 1;
            self.bring_to_front(at);
            proof {
                lemma_front(pushed, at as int);
            }
        }
    }

    /// The best evaluation, or `None` where the queue is empty.
    pub fn peek(&self) -> (r: Option<&PointEval>)
        requires
            self.wf(),
        ensures
            r is None <==> self.contents().len() == 0,
            r is Some ==> self.contents().contains(r->0@) && is_best_of(self.contents(), r->0@),
    {
        proof {
            self.lemma_contents();
        }
        if self.items.len() == 0 {
            None
        } else {
            Some(&self.items[0])
        }
    }

    /// Takes the best evaluation out of the queue, or returns `None` where the
    /// queue is empty.
    pub fn pop(&mut self) -> (r: Option<PointEval>)
        requires
            old(self).wf(),
        ensures
            final(self).wf(),
            r is None <==> old(self).contents().len() == 0,
            r is None ==> final(self).contents() == old(self).contents(),
            r is Some ==> popped(old(self).contents(), r->0@, final(self).contents()),
    {
        proof {
            self.lemma_contents();
        }
        if self.items.len() == 0 {
            return None;
        }
        let ghost before = self.items@;
        let best = self.items.swap_remove(0);
        let ghost rest = self.items@;
        proof {
            assert(views_of(rest) =~= views_of(before).update(
                0,
                views_of(before).last(),
            ).drop_last());
            lemma_swap_remove(views_of(before), 0);
        }
        if self.items.len() > 1 {
            let mut at: usize = 0;
            let mut i: usize = 1;
            while i < self.items.len()
                invariant
                    1 <= i <= self.items.len(),
                    at < i,
                    self.items@ == rest,
                    forall|k: int|
                        0 <= k < i ==> (#[trigger] self.items[k])@.value <= self.items[at as int]@.value,
                decreases self.items.len() - i,
            {
                if self.items[i].get_eval() > self.items[at].get_eval() {
                    at = i;
                }
                i += 1;
            }
            self.bring_to_front(at);
            proof {
                lemma_front(rest, at as int);
            }
        }
        proof {
            assert forall|x: Evaluation| old(self).contents().contains(x) implies x.value
                <= best@.value by {
                let i = choose|i: int| 0 <= i < before.len() && (#[trigger] before[i])@ == x;
                assert(before[i]@.value <= before[0]@.value);
            }
        }
        Some(best)
    }
}

} // verus!
