use vstd::prelude::*;

use crate::circle::{CircleView, all_false, all_true, first_index, is_first_index, lemma_first_index, opened, valid_terms};
use crate::error::CircleError;

verus! {

/// The deposits of `order`, one after the other, stopping at the first refusal.
pub open spec fn deposit_all(v: CircleView, order: Seq<Seq<u8>>) -> Result<CircleView, CircleError>
    decreases order.len(),
{
    if order.len() == 0 {
        Ok(v)
    } else {
        match v.deposit_step(order[0]) {
            Ok(w) => deposit_all(w, order.drop_first()),
            Err(e) => Err(e),
        }
    }
}

/// `order` names every member of `v` once.
pub open spec fn is_member_order(v: CircleView, order: Seq<Seq<u8>>) -> bool {
    &&& order.no_duplicates()
    &&& forall|x: Seq<u8>| order.contains(x) <==> v.members.contains(x)
}

/// The deposit flags once every identifier of `order` has paid in `v`.
pub open spec fn flags_after(v: CircleView, order: Seq<Seq<u8>>) -> Seq<bool> {
    Seq::new(
        v.deposits.len(),
        |j: int| v.deposits[j] || (order.contains(v.members[j]) && first_index(v.members, v.members[j]) == j),
    )
}

/// The outcome of depositing all of `order` in `v`, when no deposit is refused.
pub open spec fn outcome_after(v: CircleView, order: Seq<Seq<u8>>) -> Result<CircleView, CircleError> {
    let w = CircleView { deposits: flags_after(v, order), ..v };
    if all_true(w.deposits) {
        w.settle_step()
    } else {
        Ok(w)
    }
}

proof fn lemma_first_index_from(s: Seq<Seq<u8>>, m: Seq<u8>, i: int)
    requires
        0 <= i < s.len(),
        s[i] == m,
    ensures
        is_first_index(s, m, first_index(s, m)),
    decreases i,
{
    if exists|j: int| 0 <= j < i && s[j] == m {
        let j = choose|j: int| 0 <= j < i && s[j] == m;
        lemma_first_index_from(s, m, j);
    } else {
        lemma_first_index(s, m, i);
    }
}

/// A member's first position exists.
pub proof fn lemma_first_index_of_member(s: Seq<Seq<u8>>, m: Seq<u8>)
    requires
        s.contains(m),
    ensures
        is_first_index(s, m, first_index(s, m)),
{
    let i = choose|i: int| 0 <= i < s.len() && s[i] == m;
    lemma_first_index_from(s, m, i);
}

/// A circle as opened is well formed, with one deposit flag per member, none set.
pub proof fn lemma_opened_wf(id: u64, members: Seq<Seq<u8>>, amount: int, cycles: int)
    requires
        valid_terms(members, amount, cycles),
        cycles <= u32::MAX,
    ensures
        opened(id, members, amount, cycles).wf(),
        opened(id, members, amount, cycles).deposits.len() == members.len(),
        all_false(opened(id, members, amount, cycles).deposits),
{
}

/// Accepted deposits and settlements keep a circle well formed, and so keep
/// exactly one deposit flag per member; the member list never changes.
pub proof fn lemma_steps_keep_flags_parallel(v: CircleView, m: Seq<u8>)
    requires
        v.wf(),
    ensures
        v.settle_step() is Ok ==> {
            &&& v.settle_step()->Ok_0.wf()
            &&& v.settle_step()->Ok_0.members == v.members
            &&& v.settle_step()->Ok_0.deposits.len() == v.settle_step()->Ok_0.members.len()
        },
        v.deposit_step(m) is Ok ==> {
            &&& v.deposit_step(m)->Ok_0.wf()
            &&& v.deposit_step(m)->Ok_0.members == v.members
            &&& v.deposit_step(m)->Ok_0.deposits.len() == v.deposit_step(m)->Ok_0.members.len()
        },
{
    if v.deposit_step(m) is Ok {
        lemma_first_index_of_member(v.members, m);
    }
}

/// A deposit by someone who is not a member is refused as such.
pub proof fn lemma_non_member_refused(v: CircleView, m: Seq<u8>)
    requires
        !v.members.contains(m),
    ensures
        v.deposit_step(m) == Err::<CircleView, CircleError>(CircleError::NotAMember),
{
}

/// A member who has deposited cannot deposit again in the same cycle.
pub proof fn lemma_second_deposit_refused(v: CircleView, m: Seq<u8>)
    requires
        v.wf(),
        v.deposit_step(m) is Ok,
        v.deposit_step(m)->Ok_0.current_cycle == v.current_cycle,
        !v.deposit_step(m)->Ok_0.completed,
    ensures
        v.deposit_step(m)->Ok_0.deposit_step(m) == Err::<CircleView, CircleError>(
            CircleError::AlreadyDeposited,
        ),
{
    lemma_first_index_of_member(v.members, m);
    let k = first_index(v.members, m);
    let w = v.deposit_step(m)->Ok_0;
    assert(!v.completes_cycle(m));
    assert(w == v.marked(k));
    assert(w.deposits[k]);
}

/// Once the final cycle is settled the circle is completed and stays as it
/// is: a further settlement or deposit is refused and moves no cycle.
pub proof fn lemma_final_settlement_terminal(v: CircleView, m: Seq<u8>, n: Seq<u8>)
    requires
        v.wf(),
        v.current_cycle == v.total_cycles,
    ensures
        v.settle_step() is Ok ==> {
            let w = v.settle_step()->Ok_0;
            &&& w.completed
            &&& w.current_cycle == v.current_cycle
            &&& w.settle_step() == Err::<CircleView, CircleError>(CircleError::CircleCompleted)
            &&& w.deposit_step(n) is Err
        },
        v.deposit_step(m) is Ok && v.completes_cycle(m) ==> {
            let w = v.deposit_step(m)->Ok_0;
            &&& w.completed
            &&& w.current_cycle == v.current_cycle
            &&& w.settle_step() == Err::<CircleView, CircleError>(CircleError::CircleCompleted)
            &&& w.deposit_step(n) is Err
        },
{
}

proof fn lemma_deposit_all_outcome(w: CircleView, o: Seq<Seq<u8>>)
    requires
        w.wf(),
        !w.completed,
        o.len() >= 1,
        o.no_duplicates(),
        forall|i: int|
            0 <= i < o.len() ==> w.members.contains(#[trigger] o[i]) && !w.deposits[first_index(
                w.members,
                o[i],
            )],
    ensures
        deposit_all(w, o) == outcome_after(w, o),
    decreases o.len(),
{
    let x = o[0];
    assert(w.members.contains(o[0]));
    lemma_first_index_of_member(w.members, x);
    let k = first_index(w.members, x);
    let w1 = w.marked(k);
    let rest = o.drop_first();
    if o.len() == 1 {
        assert(flags_after(w, o) =~= w1.deposits) by {
            assert forall|j: int| 0 <= j < w.deposits.len() implies flags_after(w, o)[j]
                == w1.deposits[j] by {
                if o.contains(w.members[j]) && first_index(w.members, w.members[j]) == j {
                    assert(w.members[j] == x);
                }
                if j == k {
                    assert(o[0] == w.members[j]);
                }
            }
        }
        assert(CircleView { deposits: flags_after(w, o), ..w } == w1);
        assert(rest.len() == 0);
        assert(!w.deposits[k]);
        if all_true(w1.deposits) {
            assert(w.deposit_step(x) == w1.settle_step());
            if w1.settle_step() is Ok {
                assert(deposit_all(w1.settle_step()->Ok_0, rest) == w1.settle_step());
            }
        } else {
            assert(w.deposit_step(x) == Ok::<CircleView, CircleError>(w1));
            assert(deposit_all(w1, rest) == Ok::<CircleView, CircleError>(w1));
        }
    } else {
        let y = o[1];
        assert(w.members.contains(o[1]));
        lemma_first_index_of_member(w.members, y);
        let k1 = first_index(w.members, y);
        assert(x != y);
        assert(k1 != k);
        assert(!w1.deposits[k1]);
        assert(!w.deposits[k]);
        assert(!w.completes_cycle(x));
        assert(w.deposit_step(x) == Ok::<CircleView, CircleError>(w1));
        assert forall|i: int| 0 <= i < rest.len() implies w1.members.contains(#[trigger] rest[i])
            && !w1.deposits[first_index(w1.members, rest[i])] by {
            assert(rest[i] == o[i + 1]);
            assert(w.members.contains(o[i + 1]));
            lemma_first_index_of_member(w.members, rest[i]);
            assert(rest[i] != x);
        }
        lemma_deposit_all_outcome(w1, rest);
        assert(deposit_all(w, o) == deposit_all(w1, rest));
        assert(flags_after(w1, rest) =~= flags_after(w, o)) by {
            assert forall|j: int| 0 <= j < w.deposits.len() implies flags_after(w1, rest)[j]
                == flags_after(w, o)[j] by {
                if j == k {
                    assert(o[0] == w.members[j]);
                }
                if o.contains(w.members[j]) && w.members[j] != x {
                    let i = choose|i: int| 0 <= i < o.len() && o[i] == w.members[j];
                    assert(i != 0);
                    assert(rest[i - 1] == w.members[j]);
                }
                if rest.contains(w.members[j]) {
                    let i = choose|i: int| 0 <= i < rest.len() && rest[i] == w.members[j];
                    assert(o[i + 1] == w.members[j]);
                }
                if o.contains(w.members[j]) && first_index(w.members, w.members[j]) == j
                    && w.members[j] == x {
                    assert(j == k);
                }
            }
        }
        assert(CircleView { deposits: flags_after(w1, rest), ..w1 } == CircleView {
            deposits: flags_after(w, o),
            ..w
        });
    }
}

/// At the start of a cycle, the order in which the members deposit does not
/// matter: depositing every member once, in either of two orders, gives the
/// same outcome.
pub proof fn lemma_deposit_order_irrelevant(v: CircleView, o1: Seq<Seq<u8>>, o2: Seq<Seq<u8>>)
    requires
        v.wf(),
        all_false(v.deposits),
        is_member_order(v, o1),
        is_member_order(v, o2),
    ensures
        deposit_all(v, o1) == deposit_all(v, o2),
{
    assert(v.members.contains(v.members[0]));
    assert(o1.contains(v.members[0]));
    assert(o2.contains(v.members[0]));
    if v.completed {
        assert(o1.contains(o1[0]));
        assert(o2.contains(o2[0]));
        assert(v.deposit_step(o1[0]) == Err::<CircleView, CircleError>(CircleError::CircleCompleted));
        assert(v.deposit_step(o2[0]) == Err::<CircleView, CircleError>(CircleError::CircleCompleted));
    } else {
        assert forall|i: int| 0 <= i < o1.len() implies v.members.contains(#[trigger] o1[i])
            && !v.deposits[first_index(v.members, o1[i])] by {
            assert(o1.contains(o1[i]));
            lemma_first_index_of_member(v.members, o1[i]);
        }
        assert forall|i: int| 0 <= i < o2.len() implies v.members.contains(#[trigger] o2[i])
            && !v.deposits[first_index(v.members, o2[i])] by {
            assert(o2.contains(o2[i]));
            lemma_first_index_of_member(v.members, o2[i]);
        }
        lemma_deposit_all_outcome(v, o1);
        lemma_deposit_all_outcome(v, o2);
        assert forall|j: int| 0 <= j < v.deposits.len() implies o1.contains(v.members[j])
            == o2.contains(v.members[j]) by {
            assert(v.members.contains(v.members[j]));
        }
        assert(flags_after(v, o1) =~= flags_after(v, o2));
    }
}

} // verus!
