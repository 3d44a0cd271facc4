use vstd::prelude::*;

use crate::error::CircleError;

verus! {

/// A member's identifier: the bytes of the member's account address.
pub type MemberId = Vec<u8>;

/// Seconds in a week: the advisory cycle period recorded on every new circle.
pub const DEFAULT_CYCLE_PERIOD: u64 = 604800;

/// One savings circle. `deposits[i]` tells whether `members[i]` has paid in
/// the current cycle; cycle `k` pays the pool to `members[k - 1]`.
#[derive(Clone, Debug, PartialEq, Eq)]
pub struct Circle {
    pub id: u64,
    pub members: Vec<MemberId>,
    pub contribution_amount: i128,
    /// Advisory only: no rule reads it.
    pub cycle_period: u64,
    pub current_cycle: u32,
    pub total_cycles: u32,
    pub deposits: Vec<bool>,
    /// Set when the final cycle has been settled.
    pub completed: bool,
}

/// A transfer out of the pool that must accompany a settlement.
#[derive(Clone, Debug, PartialEq, Eq)]
pub struct Payout {
    pub recipient: MemberId,
    pub amount: i128,
}

/// The transfers that must accompany an accepted deposit: `amount` from the
/// member into the pool, then the payout if the deposit completed the cycle.
#[derive(Clone, Debug, PartialEq, Eq)]
pub struct DepositReceipt {
    pub amount: i128,
    pub payout: Option<Payout>,
}

/// The mathematical model of a circle.
pub struct CircleView {
    pub id: u64,
    pub members: Seq<Seq<u8>>,
    pub contribution_amount: int,
    pub cycle_period: u64,
    pub current_cycle: int,
    pub total_cycles: int,
    pub deposits: Seq<bool>,
    pub completed: bool,
}

pub open spec fn member_keys(members: Seq<MemberId>) -> Seq<Seq<u8>> {
    members.map_values(|m: MemberId| m@)
}

pub open spec fn all_true(s: Seq<bool>) -> bool {
    forall|i: int| 0 <= i < s.len() ==> s[i]
}

pub open spec fn all_false(s: Seq<bool>) -> bool {
    forall|i: int| 0 <= i < s.len() ==> !s[i]
}

/// `i` is the position of the first occurrence of `m` in `s`.
pub open spec fn is_first_index(s: Seq<Seq<u8>>, m: Seq<u8>, i: int) -> bool {
    &&& 0 <= i < s.len()
    &&& s[i] == m
    &&& forall|j: int| 0 <= j < i ==> s[j] != m
}

pub open spec fn first_index(s: Seq<Seq<u8>>, m: Seq<u8>) -> int {
    choose|i: int| is_first_index(s, m, i)
}

/// Terms a circle can be opened with: at least one member, a positive
/// amount whose full pool fits in an `i128`, at least one cycle.
pub open spec fn valid_terms(members: Seq<Seq<u8>>, amount: int, cycles: int) -> bool {
    &&& members.len() >= 1
    &&& amount > 0
    &&& amount * members.len() <= i128::MAX
    &&& cycles >= 1
}

/// A circle as it is opened.
pub open spec fn opened(id: u64, members: Seq<Seq<u8>>, amount: int, cycles: int) -> CircleView {
    CircleView {
        id,
        members,
        contribution_amount: amount,
        cycle_period: DEFAULT_CYCLE_PERIOD,
        current_cycle: 1,
        total_cycles: cycles,
        deposits: Seq::new(members.len(), |i: int| false),
        completed: false,
    }
}

impl CircleView {
    pub open spec fn wf(self) -> bool {
        &&& valid_terms(self.members, self.contribution_amount, self.total_cycles)
        &&& self.total_cycles <= u32::MAX
        &&& self.deposits.len() == self.members.len()
        &&& 1 <= self.current_cycle <= self.total_cycles
        &&& self.completed ==> self.current_cycle == self.total_cycles
    }

    /// The full pool of one cycle.
    pub open spec fn pool(self) -> int {
        self.contribution_amount * self.members.len()
    }

    /// The current cycle names a member to receive the pool.
    pub open spec fn has_recipient(self) -> bool {
        self.current_cycle - 1 < self.members.len()
    }

    pub open spec fn recipient(self) -> Seq<u8> {
        self.members[self.current_cycle - 1]
    }

    /// The state after the current cycle is paid out: the next cycle with
    /// nobody deposited, or, after the final cycle, the completed circle.
    pub open spec fn settled(self) -> CircleView {
        if self.current_cycle < self.total_cycles {
            CircleView {
                current_cycle: self.current_cycle + 1,
                deposits: Seq::new(self.deposits.len(), |i: int| false),
                ..self
            }
        } else {
            CircleView { completed: true, ..self }
        }
    }

    /// What a settlement does to the circle, or why it is refused.
    pub open spec fn settle_step(self) -> Result<CircleView, CircleError> {
        if self.completed {
            Err(CircleError::CircleCompleted)
        } else if !self.has_recipient() {
            Err(CircleError::RecipientIndexOutOfRange)
        } else {
            Ok(self.settled())
        }
    }

    /// The member at position `i` marked as deposited.
    pub open spec fn marked(self, i: int) -> CircleView {
        CircleView { deposits: self.deposits.update(i, true), ..self }
    }

    /// The deposit would complete the cycle and so settle it.
    pub open spec fn completes_cycle(self, m: Seq<u8>) -> bool {
        all_true(self.marked(first_index(self.members, m)).deposits)
    }

    /// What a deposit by `m` does to the circle, or why it is refused. The
    /// deposit that completes the cycle settles it as part of the same step.
    pub open spec fn deposit_step(self, m: Seq<u8>) -> Result<CircleView, CircleError> {
        if !self.members.contains(m) {
            Err(CircleError::NotAMember)
        } else if self.completed {
            Err(CircleError::CircleCompleted)
        } else if self.deposits[first_index(self.members, m)] {
            Err(CircleError::AlreadyDeposited)
        } else if self.completes_cycle(m) {
            self.marked(first_index(self.members, m)).settle_step()
        } else {
            Ok(self.marked(first_index(self.members, m)))
        }
    }
}

impl View for Circle {
    type V = CircleView;

    open spec fn view(&self) -> CircleView {
        CircleView {
            id: self.id,
            members: member_keys(self.members@),
            contribution_amount: self.contribution_amount as int,
            cycle_period: self.cycle_period,
            current_cycle: self.current_cycle as int,
            total_cycles: self.total_cycles as int,
            deposits: self.deposits@,
            completed: self.completed,
        }
    }
}

pub proof fn lemma_first_index(s: Seq<Seq<u8>>, m: Seq<u8>, i: int)
    requires
        is_first_index(s, m, i),
    ensures
        first_index(s, m) == i,
{
    let k = first_index(s, m);
    assert(is_first_index(s, m, k));
    if k < i {
        assert(s[k] != m);
    } else if i < k {
        assert(s[i] != m);
    }
}

/// Whether two identifiers hold the same bytes.
pub fn same_member(a: &MemberId, b: &MemberId) -> (r: bool)
    ensures
        r == (a@ == b@),
{
    if a.len() != b.len() {
        return false;
    }
    let mut i: usize = 0;
    while i < a.len()
        invariant
            a@.len() == b@.len(),
            0 <= i <= a@.len(),
            forall|j: int| 0 <= j < i ==> a@[j] == b@[j],
        decreases a@.len() - i,
    {
        if a[i] != b[i] {
            return false;
        }
        i = i + 1;
    }
    assert(a@ =~= b@);
    true
}

/// The position of the first occurrence of `m` in `members`, if any.
pub fn find_member(members: &Vec<MemberId>, m: &MemberId) -> (r: Option<usize>)
    ensures
        r is None <==> !member_keys(members@).contains(m@),
        r is Some ==> is_first_index(member_keys(members@), m@, r->Some_0 as int),
{
    let ghost keys = member_keys(members@);
    let mut i: usize = 0;
    while i < members.len()
        invariant
            keys == member_keys(members@),
            0 <= i <= members@.len(),
            forall|j: int| 0 <= j < i ==> keys[j] != m@,
        decreases members@.len() - i,
    {
        if same_member(&members[i], m) {
            assert(keys[i as int] == m@);
            return Some(i);
        }
        i = i + 1;
    }
    proof {
        if keys.contains(m@) {
            let k = choose|k: int| 0 <= k < keys.len() && keys[k] == m@;
            assert(keys[k] != m@);
        }
    }
    None
}

/// Whether every member has deposited.
pub fn all_deposited(deposits: &Vec<bool>) -> (r: bool)
    ensures
        r == all_true(deposits@),
{
    let mut i: usize = 0;
    while i < deposits.len()
        invariant
            0 <= i <= deposits@.len(),
            forall|j: int| 0 <= j < i ==> deposits@[j],
        decreases deposits@.len() - i,
    {
        if !deposits[i] {
            return false;
        }
        i = i + 1;
    }
    true
}

/// A copy of an identifier.
fn copy_member(m: &MemberId) -> (r: MemberId)
    ensures
        r@ == m@,
{
    let r = m.clone();
    assert(r@ =~= m@);
    r
}

impl Circle {
    /// Opens circle `id` with the members in payout order, each paying
    /// `amount` per cycle, for `cycles` cycles: cycle 1, nobody deposited.
    pub fn open(id: u64, members: Vec<MemberId>, amount: i128, cycles: u32) -> (r: Result<
        Circle,
        CircleError,
    >)
        ensures
            r is Ok <==> valid_terms(member_keys(members@), amount as int, cycles as int),
            r is Ok ==> r->Ok_0@ == opened(
                id,
                member_keys(members@),
                amount as int,
                cycles as int,
            ),
            r is Err ==> r->Err_0 == CircleError::InvalidParameters,
    {
        if members.len() == 0 || amount <= 0 || cycles == 0 {
            return Err(CircleError::InvalidParameters);
        }
        if amount.checked_mul(members.len() as i128).is_none() {
            return Err(CircleError::InvalidParameters);
        }
        let mut deposits: Vec<bool> = Vec::new();
        let mut i: usize = 0;
        while i < members.len()
            invariant
                0 <= i <= members@.len(),
                deposits@.len() == i,
                all_false(deposits@),
            decreases members@.len() - i,
        {
            deposits.push(false);
            i = i + 1;
        }
        let c = Circle {
            id,
            members,
            contribution_amount: amount,
            cycle_period: DEFAULT_CYCLE_PERIOD,
            current_cycle: 1,
            total_cycles: cycles,
            deposits,
            completed: false,
        };
        assert(c@.deposits =~= opened(id, c@.members, amount as int, cycles as int).deposits);
        Ok(c)
    }

    /// Pays out the current cycle: the whole pool goes to the member whose
    /// turn it is, then the next cycle starts with nobody deposited, or,
    /// after the final cycle, the circle is completed.
    pub fn settle_cycle(&mut self) -> (r: Result<Payout, CircleError>)
        requires
            old(self)@.wf(),
        ensures
            final(self)@.wf(),
            r is Ok <==> old(self)@.settle_step() is Ok,
            r is Ok ==> {
                &&& final(self)@ == old(self)@.settle_step()->Ok_0
                &&& r->Ok_0.recipient@ == old(self)@.recipient()
                &&& r->Ok_0.amount == old(self)@.pool()
            },
            r is Err ==> r->Err_0 == old(self)@.settle_step()->Err_0 && final(self)@ == old(self)@,
    {
        if self.completed {
            return Err(CircleError::CircleCompleted);
        }
        let idx = (self.current_cycle - 1) as usize;
        if idx >= self.members.len() {
            return Err(CircleError::RecipientIndexOutOfRange);
        }
        let recipient = copy_member(&self.members[idx]);
        let amount = self.contribution_amount * (self.members.len() as i128);
        if self.current_cycle < self.total_cycles {
            self.current_cycle = self.current_cycle + 1;
            let mut i: usize = 0;
            while i < self.deposits.len()
                invariant
                    self.deposits@.len() == old(self).deposits@.len(),
                    0 <= i <= self.deposits@.len(),
                    forall|j: int| 0 <= j < i ==> !self.deposits@[j],
                    self.members == old(self).members,
                    self.current_cycle == old(self).current_cycle + 1,
                    self.total_cycles == old(self).total_cycles,
                    self.contribution_amount == old(self).contribution_amount,
                    self.id == old(self).id,
                    self.cycle_period == old(self).cycle_period,
                    self.completed == old(self).completed,
                decreases self.deposits@.len() - i,
            {
                self.deposits.set(i, false);
                i = i + 1;
            }
            assert(self@.deposits =~= old(self)@.settled().deposits);
        } else {
            self.completed = true;
        }
        Ok(Payout { recipient, amount })
    }

    /// Records `member`'s payment for the current cycle. The deposit that
    /// completes the cycle settles it in the same step; if that settlement
    /// is refused, so is the deposit.
    pub fn record_deposit(&mut self, member: &MemberId) -> (r: Result<DepositReceipt, CircleError>)
        requires
            old(self)@.wf(),
        ensures
            final(self)@.wf(),
            r is Ok <==> old(self)@.deposit_step(member@) is Ok,
            r is Ok ==> {
                &&& final(self)@ == old(self)@.deposit_step(member@)->Ok_0
                &&& r->Ok_0.amount == old(self)@.contribution_amount
                &&& (r->Ok_0.payout is Some <==> old(self)@.completes_cycle(member@))
                &&& (r->Ok_0.payout is Some ==> r->Ok_0.payout->Some_0.recipient@
                    == old(self)@.recipient() && r->Ok_0.payout->Some_0.amount
                    == old(self)@.pool())
            },
            r is Err ==> r->Err_0 == old(self)@.deposit_step(member@)->Err_0 && final(self)@
                == old(self)@,
    {
        let idx = match find_member(&self.members, member) {
            None => {
                return Err(CircleError::NotAMember);
            },
            Some(i) => i,
        };
        proof {
            lemma_first_index(self@.members, member@, idx as int);
        }
        if self.completed {
            return Err(CircleError::CircleCompleted);
        }
        if self.deposits[idx] {
            return Err(CircleError::AlreadyDeposited);
        }
        let amount = self.contribution_amount;
        self.deposits.set(idx, true);
        assert(self@ == old(self)@.marked(idx as int));
        if all_deposited(&self.deposits) {
            match self.settle_cycle() {
                Ok(p) => Ok(DepositReceipt { amount, payout: Some(p) }),
                Err(e) => {
                    self.deposits.set(idx, false);
                    assert(self.deposits@ =~= old(self).deposits@);
                    Err(e)
                },
            }
        } else {
            Ok(DepositReceipt { amount, payout: None })
        }
    }

    /// Whether the circle satisfies the invariant that every operation keeps;
    /// a record read back from storage is tested with it before use.
    pub fn is_well_formed(&self) -> (r: bool)
        ensures
            r == self@.wf(),
    {
        if self.members.len() == 0 || self.contribution_amount <= 0 || self.total_cycles == 0 {
            return false;
        }
        proof {
            let a = self.contribution_amount as int;
            let n = self.members@.len() as int;
            assert(a * n >= a) by (nonlinear_arith)
                requires
                    a > 0,
                    n >= 1,
            ;
        }
        if self.contribution_amount.checked_mul(self.members.len() as i128).is_none() {
            return false;
        }
        if self.deposits.len() != self.members.len() {
            return false;
        }
        if self.current_cycle < 1 || self.current_cycle > self.total_cycles {
            return false;
        }
        if self.completed && self.current_cycle != self.total_cycles {
            return false;
        }
        true
    }

    /// A copy of the circle.
    pub fn snapshot(&self) -> (r: Circle)
        ensures
            r@ == self@,
    {
        let mut members: Vec<MemberId> = Vec::new();
        let mut i: usize = 0;
        while i < self.members.len()
            invariant
                0 <= i <= self.members@.len(),
                members@.len() == i,
                forall|j: int| 0 <= j < i ==> members@[j]@ == self.members@[j]@,
            decreases self.members@.len() - i,
        {
            members.push(copy_member(&self.members[i]));
            i = i + 1;
        }
        let mut deposits: Vec<bool> = Vec::new();
        let mut k: usize = 0;
        while k < self.deposits.len()
            invariant
                0 <= k <= self.deposits@.len(),
                deposits@ == self.deposits@.subrange(0, k as int),
            decreases self.deposits@.len() - k,
        {
            deposits.push(self.deposits[k]);
            k = k + 1;
        }
        assert(deposits@ =~= self.deposits@);
        let r = Circle {
            id: self.id,
            members,
            contribution_amount: self.contribution_amount,
            cycle_period: self.cycle_period,
            current_cycle: self.current_cycle,
            total_cycles: self.total_cycles,
            deposits,
            completed: self.completed,
        };
        assert(r@.members =~= self@.members);
        r
    }
}

} // verus!
