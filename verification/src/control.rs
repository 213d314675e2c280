//! The command controller: correlation IDs, the bounded result-history ring,
//! reply classification and timeout bookkeeping.
//!
//! The controller is driven from outside: the caller sends the job over its
//! own transport, drains arrived results into [`Controller::absorb_results`],
//! looks a correlation ID up with [`Controller::find_job_rets`], and closes
//! the call with [`Controller::conclude_job`].

use crate::error::TelloError;
use crate::text::char_vec;
use crate::text::is_u32_numeral;
use crate::text::parse_u32_text;
use crate::text::range_eq_lit;
use crate::text::u32_numeral_val;
use vstd::prelude::*;
use vstd::string::StringExecFns;

verus! {

/// Capacity of the result-history ring.
pub const JOB_RETS_SIZE: usize = 16;

/// The closed set of keyword commands.
#[derive(Debug, Clone, Copy, PartialEq, Eq, Structural)]
pub enum TelloCommand {
    Command,
    Takeoff,
    Land,
}

/// The exact ASCII keyword a command serializes to.
pub open spec fn cmd_text(c: TelloCommand) -> Seq<char> {
    match c {
        TelloCommand::Command => "command"@,
        TelloCommand::Takeoff => "takeoff"@,
        TelloCommand::Land => "land"@,
    }
}

impl TelloCommand {
    /// The keyword sent on the wire for this command.
    pub fn to_text(&self) -> (r: String)
        ensures
            r@ == cmd_text(*self),
    {
        match self {
            TelloCommand::Command => "command".to_owned(),
            TelloCommand::Takeoff => "takeoff".to_owned(),
            TelloCommand::Land => "land".to_owned(),
        }
    }
}

/// One queued command with its correlation ID.
#[derive(Debug, Clone, Copy, PartialEq, Eq)]
pub struct Job {
    pub id: u16,
    pub cmd: TelloCommand,
}

/// One classified reply with the correlation ID of the job it answers.
#[derive(Debug, PartialEq)]
pub struct JobRet {
    pub id: u16,
    pub ret: Result<u32, TelloError>,
}

impl Clone for JobRet {
    fn clone(&self) -> (r: Self)
        ensures
            r == self,
    {
        JobRet {
            id: self.id,
            ret: match &self.ret {
                Ok(v) => Ok(*v),
                Err(e) => Err(e.clone()),
            },
        }
    }
}

/// Inserting into the ring advances the cursor one slot (wrapping) and
/// overwrites that slot.
pub open spec fn ring_insert(rets: Seq<JobRet>, cur: int, r: JobRet) -> (Seq<JobRet>, int)
    recommends
        rets.len() == 16,
        0 <= cur < 16,
{
    let idx = if cur == 15 {
        0int
    } else {
        cur + 1
    };
    (rets.update(idx, r), idx)
}

/// The ring after inserting each element of `rs` in order.
pub open spec fn ring_insert_all(rets: Seq<JobRet>, cur: int, rs: Seq<JobRet>) -> (Seq<JobRet>, int)
    decreases rs.len(),
{
    if rs.len() == 0 {
        (rets, cur)
    } else {
        let p = ring_insert_all(rets, cur, rs.drop_last());
        ring_insert(p.0, p.1, rs.last())
    }
}

/// Backward scan from `pos`, visiting `k` slots, for the first entry whose
/// correlation ID is `id`.
pub open spec fn ring_scan(rets: Seq<JobRet>, pos: int, k: nat, id: u16) -> Option<JobRet>
    decreases k,
{
    if k == 0 {
        None
    } else if 0 <= pos < rets.len() && rets[pos].id == id {
        Some(rets[pos])
    } else {
        ring_scan(
            rets,
            if pos == 0 {
                15int
            } else {
                pos - 1
            },
            (k - 1) as nat,
            id,
        )
    }
}

/// Full backward scan of the ring: the most recently inserted entry with
/// this `id`, if any slot holds one.
pub open spec fn ring_find(rets: Seq<JobRet>, cur: int, id: u16) -> Option<JobRet> {
    ring_scan(rets, cur, 16, id)
}

/// How many slots lie behind `c` before the backward walk reaches `j`.
pub open spec fn ring_dist(c: int, j: int) -> int {
    if c >= j {
        c - j
    } else {
        c - j + 16
    }
}

/// The 16-bit correlation counter after one advance: it wraps to 0 past
/// 65535, matching 16-bit wraparound rather than decimal rollover.
pub open spec fn wrap_inc(n: u16) -> u16 {
    if n == 0xffff {
        0u16
    } else {
        (n + 1) as u16
    }
}

/// The counter value before the (k+1)-th synchronous call, starting at 1.
pub open spec fn counter_after(k: nat) -> u16
    decreases k,
{
    if k == 0 {
        1u16
    } else {
        wrap_inc(counter_after((k - 1) as nat))
    }
}

/// Description carried by a timeout error for `cmd`.
pub open spec fn timeout_text(cmd: TelloCommand) -> Seq<char> {
    "CMD["@ + cmd_text(cmd) + "]"@
}

/// Front end of the command path.  Owns the correlation counter, the
/// fixed-capacity result-history ring and the timeout policy.
#[derive(Debug)]
pub struct Controller {
    next_job_no: u16,
    job_rets: Vec<JobRet>,
    job_rets_cur_idx: usize,
    timeout_sec: u16,
}

impl Controller {
    /// The correlation ID the next submitted job will carry.
    pub closed spec fn spec_next_job_no(&self) -> u16 {
        self.next_job_no
    }

    /// The slots of the result-history ring.
    pub closed spec fn spec_rets(&self) -> Seq<JobRet> {
        self.job_rets@
    }

    /// The cursor: index of the most recently written slot.
    pub closed spec fn spec_cur_idx(&self) -> int {
        self.job_rets_cur_idx as int
    }

    /// The configured synchronous-call timeout, in seconds.
    pub closed spec fn spec_timeout_sec(&self) -> u16 {
        self.timeout_sec
    }

    /// Structural invariant: 16 slots, cursor in range.
    pub open spec fn wf(&self) -> bool {
        &&& self.spec_rets().len() == 16
        &&& 0 <= self.spec_cur_idx() < 16
    }

    /// A fresh controller: counter at 1, every slot holding the neutral
    /// result for correlation ID 0, cursor at slot 0, 30-second timeout.
    pub fn new() -> (r: Self)
        ensures
            r.wf(),
            r.spec_next_job_no() == 1,
            r.spec_next_job_no() == counter_after(0),
            r.spec_cur_idx() == 0,
            r.spec_timeout_sec() == 30,
            forall|i: int|
                0 <= i < 16 ==> r.spec_rets()[i] == (JobRet { id: 0u16, ret: Ok::<u32, TelloError>(0u32) }),
    {
        let mut rets: Vec<JobRet> = Vec::new();
        let mut i: usize = 0;
        while i < JOB_RETS_SIZE
            invariant
                i <= 16,
                rets@.len() == i,
                forall|j: int|
                    0 <= j < i ==> rets@[j] == (JobRet { id: 0u16, ret: Ok::<u32, TelloError>(0u32) }),
            decreases 16 - i,
        {
            rets.push(JobRet { id: 0, ret: Ok(0) });
            i = i + 1;
        }
        Controller { next_job_no: 1, job_rets: rets, job_rets_cur_idx: 0, timeout_sec: 30 }
    }

    /// Configure the synchronous-call timeout in seconds (default 30).
    pub fn set_timeout_sec(&mut self, sec: u16)
        ensures
            final(self).spec_timeout_sec() == sec,
            final(self).spec_next_job_no() == old(self).spec_next_job_no(),
            final(self).spec_rets() == old(self).spec_rets(),
            final(self).spec_cur_idx() == old(self).spec_cur_idx(),
    {
        self.timeout_sec = sec;
    }

    /// The iteration budget of one synchronous call: `timeout_sec * 10`
    /// polls at the fixed 100 ms interval.
    pub fn poll_budget(&self) -> (r: u32)
        ensures
            r == self.spec_timeout_sec() * 10,
    {
        (self.timeout_sec as u32) * 10
    }

    /// The job for `cmd` under the current correlation ID.
    pub fn begin_job(&self, cmd: TelloCommand) -> (j: Job)
        ensures
            j.id == self.spec_next_job_no(),
            j.cmd == cmd,
    {
        Job { id: self.next_job_no, cmd }
    }

    /// Insert one result into the history ring, overwriting the oldest slot.
    pub fn add_job_rets(&mut self, ret: JobRet)
        requires
            old(self).wf(),
        ensures
            final(self).wf(),
            (final(self).spec_rets(), final(self).spec_cur_idx()) == ring_insert(
                old(self).spec_rets(),
                old(self).spec_cur_idx(),
                ret,
            ),
            final(self).spec_next_job_no() == old(self).spec_next_job_no(),
            final(self).spec_timeout_sec() == old(self).spec_timeout_sec(),
    {
        let idx: usize = (self.job_rets_cur_idx + 1) % JOB_RETS_SIZE;
        self.job_rets.set(idx, ret);
        self.job_rets_cur_idx = idx;
    }

    /// Drain a batch of results into the history ring, oldest first.
    pub fn absorb_results(&mut self, batch: Vec<JobRet>)
        requires
            old(self).wf(),
        ensures
            final(self).wf(),
            (final(self).spec_rets(), final(self).spec_cur_idx()) == ring_insert_all(
                old(self).spec_rets(),
                old(self).spec_cur_idx(),
                batch@,
            ),
            final(self).spec_next_job_no() == old(self).spec_next_job_no(),
            final(self).spec_timeout_sec() == old(self).spec_timeout_sec(),
    {
        let mut i: usize = 0;
        while i < batch.len()
            invariant
                i <= batch@.len(),
                self.wf(),
                (self.spec_rets(), self.spec_cur_idx()) == ring_insert_all(
                    old(self).spec_rets(),
                    old(self).spec_cur_idx(),
                    batch@.take(i as int),
                ),
                self.spec_next_job_no() == old(self).spec_next_job_no(),
                self.spec_timeout_sec() == old(self).spec_timeout_sec(),
            decreases batch@.len() - i,
        {
            self.add_job_rets(batch[i].clone());
            i = i + 1;
            proof {
                assert(batch@.take(i as int).drop_last() =~= batch@.take(i - 1));
                assert(batch@.take(i as int).last() == batch@[i - 1]);
            }
        }
        proof {
            assert(batch@.take(batch@.len() as int) =~= batch@);
        }
    }

    /// Backward scan of the ring for the most recent result with this
    /// correlation ID; `None` after a full pass without a match.
    pub fn find_job_rets(&self, id: u16) -> (r: Option<JobRet>)
        requires
            self.wf(),
        ensures
            r == ring_find(self.spec_rets(), self.spec_cur_idx(), id),
    {
        let mut idx: usize = self.job_rets_cur_idx;
        let mut k: usize = 0;
        while k < JOB_RETS_SIZE
            invariant
                self.wf(),
                idx < 16,
                k <= 16,
                ring_find(self.spec_rets(), self.spec_cur_idx(), id) == ring_scan(
                    self.spec_rets(),
                    idx as int,
                    (16 - k) as nat,
                    id,
                ),
            decreases 16 - k,
        {
            if self.job_rets[idx].id == id {
                return Some(self.job_rets[idx].clone());
            }
            idx = if idx == 0 {
                15
            } else {
                idx - 1
            };
            k = k + 1;
        }
        None
    }

    /// Advance the wrapping 16-bit correlation counter by one.
    pub fn advance_job_no(&mut self)
        ensures
            final(self).spec_next_job_no() == wrap_inc(old(self).spec_next_job_no()),
            final(self).spec_rets() == old(self).spec_rets(),
            final(self).spec_cur_idx() == old(self).spec_cur_idx(),
            final(self).spec_timeout_sec() == old(self).spec_timeout_sec(),
    {
        if self.next_job_no == 0xffff {
            self.next_job_no = 0;
        } else {
            self.next_job_no = self.next_job_no + 1;
        }
    }

    /// Close one synchronous call: advance the correlation counter whatever
    /// happened, hand back the matched outcome, or a `TelloTimeout` carrying
    /// the command's description when none arrived within the budget.
    pub fn conclude_job(&mut self, cmd: TelloCommand, found: Option<Result<u32, TelloError>>) -> (r:
        Result<u32, TelloError>)
        ensures
            final(self).spec_next_job_no() == wrap_inc(old(self).spec_next_job_no()),
            final(self).spec_rets() == old(self).spec_rets(),
            final(self).spec_cur_idx() == old(self).spec_cur_idx(),
            final(self).spec_timeout_sec() == old(self).spec_timeout_sec(),
            found matches Some(x) ==> r == x,
            found is None ==> (r matches Err(e) && e matches TelloError::TelloTimeout(m) && m@
                == timeout_text(cmd)),
    {
        self.advance_job_no();
        match found {
            Some(x) => x,
            None => Err(
                TelloError::TelloTimeout("CMD[".to_owned().concat(cmd.to_text().as_str()).concat("]")),
            ),
        }
    }
}

/// Closed form of the correlation counter: before the (k+1)-th call it
/// stands at `(1 + k) mod 65536`.  [`Controller::new`] starts the counter at
/// `counter_after(0)` and every call advances it by [`wrap_inc`], so the
/// iterated definition describes exactly the exec state.
pub proof fn lemma_counter_closed_form(k: nat)
    ensures
        counter_after(k) == ((1 + k) % 0x10000) as u16,
    decreases k,
{
    if k == 0 {
    } else {
        lemma_counter_closed_form((k - 1) as nat);
        assert((1 + k) % 0x10000 == ((1 + (k - 1)) % 0x10000 + 1) % 0x10000) by (nonlinear_arith);
    }
}

/// The K-th synchronous call (1-based) uses correlation ID
/// `((K-1) mod 65536) + 1`.  That formula names a 16-bit value, and so
/// describes the counter, exactly when K is not a multiple of 65536; on the
/// multiples the wrapping counter emits 0 instead.
pub proof fn lemma_correlation_id(k: nat)
    requires
        k >= 1,
        k % 0x10000 != 0,
    ensures
        counter_after((k - 1) as nat) == ((k - 1) % 0x10000) + 1,
{
    lemma_counter_closed_form((k - 1) as nat);
    assert(k % 0x10000 == ((k - 1) % 0x10000 + 1) % 0x10000) by (nonlinear_arith);
    assert((k - 1) % 0x10000 < 0xffff ==> ((k - 1) % 0x10000 + 1) % 0x10000 == (k - 1) % 0x10000
        + 1);
    if (k - 1) % 0x10000 == 0xffff {
        assert(k % 0x10000 == 0);
    }
}

/// After `rs` is inserted, every slot within `rs.len()` backward steps of
/// the cursor holds one of the inserted results.
proof fn lemma_ring_insert_all_covers(rets: Seq<JobRet>, cur: int, rs: Seq<JobRet>, id: u16)
    requires
        rets.len() == 16,
        0 <= cur < 16,
        forall|i: int| 0 <= i < rs.len() ==> #[trigger] rs[i].id != id,
    ensures
        ({
            let p = ring_insert_all(rets, cur, rs);
            &&& p.0.len() == 16
            &&& 0 <= p.1 < 16
            &&& forall|j: int|
                0 <= j < 16 && ring_dist(p.1, j) < rs.len() ==> #[trigger] p.0[j].id != id
        }),
    decreases rs.len(),
{
    if rs.len() > 0 {
        let front = rs.drop_last();
        assert(forall|i: int| 0 <= i < front.len() ==> #[trigger] front[i].id != id);
        lemma_ring_insert_all_covers(rets, cur, front, id);
        let p1 = ring_insert_all(rets, cur, front);
        let p = ring_insert_all(rets, cur, rs);
        assert(p == ring_insert(p1.0, p1.1, rs.last()));
        assert forall|j: int| 0 <= j < 16 && ring_dist(p.1, j) < rs.len() implies #[trigger] p.0[j].id
            != id by {
            if j == p.1 {
                assert(p.0[j] == rs.last());
            } else {
                assert(ring_dist(p1.1, j) == ring_dist(p.1, j) - 1);
            }
        }
    }
}

/// A scan over a ring none of whose slots carries `id` finds nothing.
proof fn lemma_ring_scan_none(rets: Seq<JobRet>, pos: int, k: nat, id: u16)
    requires
        forall|j: int| 0 <= j < rets.len() ==> #[trigger] rets[j].id != id,
    ensures
        ring_scan(rets, pos, k, id) is None,
    decreases k,
{
    if k > 0 {
        lemma_ring_scan_none(
            rets,
            if pos == 0 {
                15int
            } else {
                pos - 1
            },
            (k - 1) as nat,
            id,
        );
    }
}

/// The history ring retains at most the 16 most recently inserted results:
/// after 16 or more insertions none of which carries `id`, a lookup for `id`
/// finds nothing, whatever the ring held before.
pub proof fn lemma_history_eviction(rets: Seq<JobRet>, cur: int, rs: Seq<JobRet>, id: u16)
    requires
        rets.len() == 16,
        0 <= cur < 16,
        rs.len() >= 16,
        forall|i: int| 0 <= i < rs.len() ==> #[trigger] rs[i].id != id,
    ensures
        ({
            let p = ring_insert_all(rets, cur, rs);
            ring_find(p.0, p.1, id) is None
        }),
{
    lemma_ring_insert_all_covers(rets, cur, rs, id);
    let p = ring_insert_all(rets, cur, rs);
    assert forall|j: int| 0 <= j < 16 implies #[trigger] p.0[j].id != id by {
        assert(ring_dist(p.1, j) < 16);
    }
    lemma_ring_scan_none(p.0, p.1, 16, id);
}

/// A poll pass that absorbs only results for other correlation IDs cannot
/// produce a match: when no slot carries `id` and no absorbed result does,
/// no slot carries `id` afterwards and the lookup still finds nothing.
/// Iterated over the poll loop, a call whose reply never arrives exhausts
/// its whole `timeout_sec * 10` budget and is concluded as a timeout.
pub proof fn lemma_silent_poll_finds_nothing(rets: Seq<JobRet>, cur: int, rs: Seq<JobRet>, id: u16)
    requires
        rets.len() == 16,
        0 <= cur < 16,
        forall|j: int| 0 <= j < 16 ==> #[trigger] rets[j].id != id,
        forall|i: int| 0 <= i < rs.len() ==> #[trigger] rs[i].id != id,
    ensures
        ({
            let p = ring_insert_all(rets, cur, rs);
            &&& p.0.len() == 16
            &&& 0 <= p.1 < 16
            &&& forall|j: int| 0 <= j < 16 ==> #[trigger] p.0[j].id != id
            &&& ring_find(p.0, p.1, id) is None
        }),
    decreases rs.len(),
{
    if rs.len() == 0 {
        lemma_ring_scan_none(rets, cur, 16, id);
    } else {
        let front = rs.drop_last();
        assert(forall|i: int| 0 <= i < front.len() ==> #[trigger] front[i].id != id);
        lemma_silent_poll_finds_nothing(rets, cur, front, id);
        let p1 = ring_insert_all(rets, cur, front);
        let p = ring_insert_all(rets, cur, rs);
        assert(p == ring_insert(p1.0, p1.1, rs.last()));
        lemma_ring_scan_none(p.0, p.1, 16, id);
    }
}

/// Classify one raw reply datagram, decoded as text: exactly `"ok"` is
/// success 0; exactly `"error"` is `TelloCmdFail` carrying the command's
/// keyword; any unsigned decimal numeral is success with that value; and
/// anything else is `TelloResponsIllegal` carrying the raw text.
pub fn classify_reply(reply: &str, cmd: TelloCommand) -> (r: Result<u32, TelloError>)
    ensures
        reply@ == "ok"@ ==> r == Ok::<u32, TelloError>(0u32),
        reply@ != "ok"@ && reply@ == "error"@ ==> (r matches Err(e) && e matches
            TelloError::TelloCmdFail(s) && s@ == cmd_text(cmd)),
        reply@ != "ok"@ && reply@ != "error"@ && is_u32_numeral(reply@) ==> (r matches Ok(v) && v
            as int == u32_numeral_val(reply@)),
        reply@ != "ok"@ && reply@ != "error"@ && !is_u32_numeral(reply@) ==> (r matches Err(e) && e
            matches TelloError::TelloResponsIllegal(s) && s@ == reply@),
{
    let v = char_vec(reply);
    let n: usize = v.len();
    proof {
        assert(v@.subrange(0, n as int) =~= reply@);
    }
    if range_eq_lit(&v, 0, n, "ok") {
        return Ok(0);
    }
    if range_eq_lit(&v, 0, n, "error") {
        return Err(TelloError::TelloCmdFail(cmd.to_text()));
    }
    proof {
        if is_u32_numeral(reply@) {
            crate::text::lemma_digits_val_nonneg(crate::text::u32_numeral_body(reply@));
        }
    }
    match parse_u32_text(&v, 0, n) {
        Some(x) => Ok(x),
        None => Err(TelloError::TelloResponsIllegal(reply.to_owned())),
    }
}


} // verus!
