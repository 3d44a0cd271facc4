use vstd::prelude::*;

use crate::circle::{Circle, CircleView, DepositReceipt, MemberId, Payout, opened, valid_terms, member_keys};
use crate::error::CircleError;

verus! {

/// The identifier that the next circle gets, given the stored counter
/// (none before the first circle): one past the counter.
pub fn next_circle_id(counter: Option<u64>) -> (r: u64)
    requires
        counter != Some(u64::MAX),
    ensures
        r == match counter {
            Some(n) => n + 1,
            None => 1int,
        },
{
    match counter {
        Some(n) => n + 1,
        None => 1,
    }
}

/// The circles created so far, keyed by identifier. Identifiers are handed
/// out in order from 1, and no circle is ever removed.
pub struct SavingsCircleContract {
    counter: u64,
    circles: Vec<Circle>,
}

impl View for SavingsCircleContract {
    type V = Seq<CircleView>;

    /// The circle with identifier `k` stands at position `k - 1`.
    closed spec fn view(&self) -> Seq<CircleView> {
        self.circles@.map_values(|c: Circle| c@)
    }
}

/// The circle stored under `id` in `s`, if any.
pub open spec fn lookup(s: Seq<CircleView>, id: u64) -> Option<CircleView> {
    if 1 <= id <= s.len() {
        Some(s[id - 1])
    } else {
        None
    }
}

/// `s` with the circle stored under `id` replaced by `c`.
pub open spec fn replaced(s: Seq<CircleView>, id: u64, c: CircleView) -> Seq<CircleView> {
    s.update(id - 1, c)
}

impl SavingsCircleContract {
    pub closed spec fn wf(&self) -> bool {
        &&& self.counter == self.circles@.len()
        &&& forall|i: int|
            0 <= i < self.circles@.len() ==> (#[trigger] self.circles@[i])@.wf()
                && self.circles@[i].id == i + 1
    }

    /// How many circles have been created; also the last identifier given.
    pub open spec fn count(&self) -> nat {
        self@.len()
    }

    /// Where the circle stored under `circle_id` stands, if there is one.
    fn position(&self, circle_id: u64) -> (r: Option<usize>)
        requires
            self.wf(),
        ensures
            r is None <==> lookup(self@, circle_id) is None,
            r is Some ==> {
                &&& r->Some_0 == circle_id - 1
                &&& r->Some_0 < self.circles@.len()
                &&& self.circles@[r->Some_0 as int]@ == lookup(self@, circle_id)->Some_0
                &&& self.circles@[r->Some_0 as int]@.wf()
            },
    {
        let stored = self.circles.len();
        if circle_id == 0 || circle_id > self.counter {
            None
        } else {
            assert(circle_id <= stored);
            let i = (circle_id - 1) as usize;
            assert(self.circles@[i as int]@.wf());
            Some(i)
        }
    }

    /// Every stored circle is well formed, and so holds one deposit flag per member.
    pub proof fn lemma_stored_circles_wf(&self, circle_id: u64)
        requires
            self.wf(),
        ensures
            lookup(self@, circle_id) matches Some(c) ==> c.wf() && c.deposits.len()
                == c.members.len(),
    {
        if 1 <= circle_id <= self@.len() {
            assert(self@[circle_id - 1] == self.circles@[circle_id - 1]@);
        }
    }

    /// A store with no circles.
    pub fn new() -> (r: SavingsCircleContract)
        ensures
            r.wf(),
            r@ == Seq::<CircleView>::empty(),
    {
        let r = SavingsCircleContract { counter: 0, circles: Vec::new() };
        assert(r@ =~= Seq::<CircleView>::empty());
        r
    }

    /// How many circles have been created.
    pub fn circle_count(&self) -> (r: u64)
        requires
            self.wf(),
        ensures
            r == self.count(),
    {
        assert(self@.len() == self.circles@.len());
        self.counter
    }

    /// Creates a circle of `members`, in payout order, each paying `amount`
    /// per cycle for `cycles` cycles, and returns its identifier: one past
    /// the last one given.
    pub fn create_circle(&mut self, members: Vec<MemberId>, amount: i128, cycles: u32) -> (r: Result<
        u64,
        CircleError,
    >)
        requires
            old(self).wf(),
            old(self).count() < u64::MAX,
        ensures
            final(self).wf(),
            r is Ok <==> valid_terms(member_keys(members@), amount as int, cycles as int),
            r is Ok ==> {
                &&& r->Ok_0 == old(self).count() + 1
                &&& final(self)@ == old(self)@.push(
                    opened(r->Ok_0, member_keys(members@), amount as int, cycles as int),
                )
            },
            r is Err ==> r->Err_0 == CircleError::InvalidParameters && final(self)@ == old(self)@,
    {
        let id = next_circle_id(Some(self.counter));
        match Circle::open(id, members, amount, cycles) {
            Ok(c) => {
                self.circles.push(c);
                self.counter = id;
                assert(self@ =~= old(self)@.push(c@));
                Ok(id)
            },
            Err(e) => Err(e),
        }
    }

    /// Records `member`'s deposit in circle `circle_id`; the deposit that
    /// completes the cycle settles it, and the receipt carries the payout.
    pub fn join_circle(&mut self, circle_id: u64, member: &MemberId) -> (r: Result<
        DepositReceipt,
        CircleError,
    >)
        requires
            old(self).wf(),
        ensures
            final(self).wf(),
            lookup(old(self)@, circle_id) is None ==> r == Err::<DepositReceipt, CircleError>(
                CircleError::NotFound,
            ) && final(self)@ == old(self)@,
            lookup(old(self)@, circle_id) matches Some(c) ==> {
                &&& (r is Ok <==> c.deposit_step(member@) is Ok)
                &&& r is Ok ==> {
                    &&& final(self)@ == replaced(
                        old(self)@,
                        circle_id,
                        c.deposit_step(member@)->Ok_0,
                    )
                    &&& r->Ok_0.amount == c.contribution_amount
                    &&& (r->Ok_0.payout is Some <==> c.completes_cycle(member@))
                    &&& (r->Ok_0.payout is Some ==> r->Ok_0.payout->Some_0.recipient@
                        == c.recipient() && r->Ok_0.payout->Some_0.amount == c.pool())
                }
                &&& r is Err ==> r->Err_0 == c.deposit_step(member@)->Err_0 && final(self)@
                    == old(self)@
            },
    {
        let i = match self.position(circle_id) {
            None => {
                return Err(CircleError::NotFound);
            },
            Some(i) => i,
        };
        let mut c = self.circles[i].snapshot();
        let r = c.record_deposit(member);
        if r.is_ok() {
            self.circles.set(i, c);
            assert(self@ =~= replaced(old(self)@, circle_id, c@));
        }
        r
    }

    /// Pays out the current cycle of circle `circle_id`, whether or not
    /// everyone has deposited, and moves the circle on.
    pub fn distribute_cycle(&mut self, circle_id: u64) -> (r: Result<Payout, CircleError>)
        requires
            old(self).wf(),
        ensures
            final(self).wf(),
            lookup(old(self)@, circle_id) is None ==> r == Err::<Payout, CircleError>(
                CircleError::NotFound,
            ) && final(self)@ == old(self)@,
            lookup(old(self)@, circle_id) matches Some(c) ==> {
                &&& (r is Ok <==> c.settle_step() is Ok)
                &&& r is Ok ==> {
                    &&& final(self)@ == replaced(old(self)@, circle_id, c.settle_step()->Ok_0)
                    &&& r->Ok_0.recipient@ == c.recipient()
                    &&& r->Ok_0.amount == c.pool()
                }
                &&& r is Err ==> r->Err_0 == c.settle_step()->Err_0 && final(self)@ == old(self)@
            },
    {
        let i = match self.position(circle_id) {
            None => {
                return Err(CircleError::NotFound);
            },
            Some(i) => i,
        };
        let mut c = self.circles[i].snapshot();
        let r = c.settle_cycle();
        if r.is_ok() {
            self.circles.set(i, c);
            assert(self@ =~= replaced(old(self)@, circle_id, c@));
        }
        r
    }

    /// A copy of the circle stored under `circle_id`.
    pub fn get_state(&self, circle_id: u64) -> (r: Result<Circle, CircleError>)
        requires
            self.wf(),
        ensures
            lookup(self@, circle_id) is None ==> r == Err::<Circle, CircleError>(
                CircleError::NotFound,
            ),
            lookup(self@, circle_id) matches Some(c) ==> r is Ok && r->Ok_0@ == c,
    {
        match self.position(circle_id) {
            None => Err(CircleError::NotFound),
            Some(i) => Ok(self.circles[i].snapshot()),
        }
    }
}

} // verus!
