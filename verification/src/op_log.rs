//! The operation log: a tournament's whole history as an append-only
//! sequence of operations, with slicing, rollback and two-log
//! reconciliation (sync). Every observable state is the deterministic
//! replay of a log prefix, which is what makes rollback and sync sound.

use vstd::prelude::*;

use crate::error::TournamentError;
use crate::identifiers::{fresh_id_bits, OpId};
use crate::operations::{op_result_view, FullOp, FullOpView, OpResult, TournOp};
use crate::tournament::{spec_apply, Tournament, TournamentView};

verus! {

/// The observable content of a sequence of logged operations.
pub open spec fn ops_view(s: Seq<FullOp>) -> Seq<FullOpView> {
    s.map_values(|o: FullOp| o@)
}

/// The state after folding the first `n` operations into `t`, skipping
/// nothing: a rejected operation leaves the state as it was (the transition
/// functions return the unchanged state beside the error).
pub open spec fn spec_fold_upto(t: TournamentView, ops: Seq<FullOpView>, n: int) -> TournamentView
    decreases n,
{
    if n <= 0 {
        t
    } else {
        spec_apply(spec_fold_upto(t, ops, n - 1), ops[n - 1]).0
    }
}

/// The state after folding a whole operation sequence into `t`. This is the
/// single deterministic replay that append, rollback and sync all share:
/// the same operations from the same state always yield the same state.
pub open spec fn spec_fold(t: TournamentView, ops: Seq<FullOpView>) -> TournamentView {
    spec_fold_upto(t, ops, ops.len() as int)
}

/// A valid log: operation `i` bears sequence number `i` and applies cleanly
/// to the state the previous operations fold to.
pub open spec fn spec_log_valid(base: TournamentView, ops: Seq<FullOpView>) -> bool {
    forall|i: int|
        0 <= i < ops.len() ==> ((#[trigger] ops[i]).seq == i && spec_apply(
            spec_fold_upto(base, ops, i),
            ops[i],
        ).1 is Ok)
}

/// Folds agree on any prefix on which the operation sequences agree.
pub proof fn lemma_fold_upto_agree(
    t: TournamentView,
    a: Seq<FullOpView>,
    b: Seq<FullOpView>,
    n: int,
)
    requires
        n <= a.len(),
        n <= b.len(),
        forall|i: int| 0 <= i < n ==> a[i] == b[i],
    ensures
        spec_fold_upto(t, a, n) == spec_fold_upto(t, b, n),
    decreases n,
{
    if n <= 0 {
    } else {
        lemma_fold_upto_agree(t, a, b, n - 1);
    }
}

/// Replaying a prefix is folding the truncated sequence: the fold of the
/// first `n` operations equals the fold of `take(n)`. Together with
/// `OpLog::rollback`'s contract this is rollback correctness: rolling back
/// to length `n` and replaying yields exactly the state that appending
/// those `n` operations from the initial state yields.
pub proof fn lemma_prefix_replay(t: TournamentView, ops: Seq<FullOpView>, n: int)
    requires
        0 <= n <= ops.len(),
    ensures
        spec_fold(t, ops.take(n)) == spec_fold_upto(t, ops, n),
{
    assert(ops.take(n).len() == n);
    lemma_fold_upto_agree(t, ops.take(n), ops, n);
}

/// Two replays of equal operation sequences from equal initial states end
/// in equal states: the fold is a mathematical function of its inputs.
pub proof fn lemma_replay_deterministic(
    t1: TournamentView,
    t2: TournamentView,
    a: Seq<FullOpView>,
    b: Seq<FullOpView>,
)
    requires
        t1 == t2,
        a == b,
    ensures
        spec_fold(t1, a) == spec_fold(t2, b),
{
}

/// The longest common prefix of two logs, comparing operation identity.
pub open spec fn spec_lcp_from(a: Seq<FullOpView>, b: Seq<FullOpView>, i: int) -> int
    decreases a.len() - i,
{
    if i < a.len() && i < b.len() && a[i].id == b[i].id {
        spec_lcp_from(a, b, i + 1)
    } else {
        i
    }
}

/// The longest common prefix of two logs.
pub open spec fn spec_lcp(a: Seq<FullOpView>, b: Seq<FullOpView>) -> int {
    spec_lcp_from(a, b, 0)
}

/// The common prefix length is within both logs.
pub proof fn lemma_lcp_bounds(a: Seq<FullOpView>, b: Seq<FullOpView>, i: int)
    requires
        0 <= i <= a.len(),
        0 <= i <= b.len(),
    ensures
        i <= spec_lcp_from(a, b, i) <= a.len(),
        spec_lcp_from(a, b, i) <= b.len(),
    decreases a.len() - i,
{
    if i < a.len() && i < b.len() && a[i].id == b[i].id {
        lemma_lcp_bounds(a, b, i + 1);
    }
}

/// Syncing a log with itself finds the whole log as common prefix.
pub proof fn lemma_lcp_self(a: Seq<FullOpView>, i: int)
    requires
        0 <= i <= a.len(),
    ensures
        spec_lcp_from(a, a, i) == a.len(),
    decreases a.len() - i,
{
    if i < a.len() {
        lemma_lcp_self(a, i + 1);
    }
}

/// The deterministic merge of two divergent suffixes: lower sequence number
/// first, ties broken by lower operation id with the local side first; an
/// operation present on both sides (same number, same id) is taken once.
pub open spec fn spec_merge(a: Seq<FullOpView>, b: Seq<FullOpView>) -> Seq<FullOpView>
    decreases a.len() + b.len(),
{
    if a.len() == 0 {
        b
    } else if b.len() == 0 {
        a
    } else if a[0].seq < b[0].seq {
        seq![a[0]] + spec_merge(a.drop_first(), b)
    } else if b[0].seq < a[0].seq {
        seq![b[0]] + spec_merge(a, b.drop_first())
    } else if a[0].id == b[0].id {
        seq![a[0]] + spec_merge(a.drop_first(), b.drop_first())
    } else if a[0].id < b[0].id {
        seq![a[0]] + spec_merge(a.drop_first(), b)
    } else {
        seq![b[0]] + spec_merge(a, b.drop_first())
    }
}

/// Replaying the merged suffix after the common prefix: each operation is
/// renumbered to its landing position and applied; one that fails
/// validation is put aside as a rejected conflict, never aborting the rest.
/// Yields the kept operations, the final state, and the rejected ones.
pub open spec fn spec_absorb(t: TournamentView, merged: Seq<FullOpView>, seq0: int) -> (
    Seq<FullOpView>,
    TournamentView,
    Seq<FullOpView>,
)
    decreases merged.len(),
{
    if merged.len() == 0 {
        (Seq::empty(), t, Seq::empty())
    } else {
        let m2 = FullOpView { seq: seq0 as u64, ..merged[0] };
        let (t2, res) = spec_apply(t, m2);
        if res is Ok {
            let (ks, tf, rj) = spec_absorb(t2, merged.drop_first(), seq0 + 1);
            (seq![m2] + ks, tf, rj)
        } else {
            let (ks, tf, rj) = spec_absorb(t, merged.drop_first(), seq0);
            (ks, tf, seq![merged[0]] + rj)
        }
    }
}

/// Whether the reconciled history stays inside the sequence-number space;
/// a machine limit, not a policy: every history that fits in memory does.
pub open spec fn spec_sync_fits(a: Seq<FullOpView>, b: Seq<FullOpView>) -> bool {
    spec_lcp(a, b) + spec_merge(a.skip(spec_lcp(a, b)), b.skip(spec_lcp(a, b))).len()
        <= u64::MAX
}

/// What a sync of two logs over one base state produces: the reconciled
/// operation sequence, the reconciled state, and the rejected conflicts.
pub open spec fn spec_sync_result(
    base: TournamentView,
    a: Seq<FullOpView>,
    b: Seq<FullOpView>,
) -> (Seq<FullOpView>, TournamentView, Seq<FullOpView>) {
    let k = spec_lcp(a, b);
    let merged = spec_merge(a.skip(k), b.skip(k));
    let pre = spec_fold_upto(base, a, k);
    let (ks, tf, rj) = spec_absorb(pre, merged, k);
    (a.take(k) + ks, tf, rj)
}

/// Syncing a log with an identical copy of itself is a no-op: the whole log
/// is the common prefix, both suffixes are empty, nothing is rejected, and
/// the state is the log's own fold.
pub proof fn lemma_sync_idempotent(base: TournamentView, a: Seq<FullOpView>)
    ensures
        spec_sync_result(base, a, a).0 =~= a,
        spec_sync_result(base, a, a).1 == spec_fold(base, a),
        spec_sync_result(base, a, a).2 =~= Seq::<FullOpView>::empty(),
{
    lemma_lcp_self(a, 0);
    let k = spec_lcp(a, a);
    assert(a.skip(k) =~= Seq::<FullOpView>::empty());
    assert(spec_merge(a.skip(k), a.skip(k)) =~= Seq::<FullOpView>::empty());
    assert(a.take(k) =~= a);
    assert(spec_sync_result(base, a, a).0 =~= a + Seq::<FullOpView>::empty());
}

/// Sync preserves the common prefix and applies exactly the deterministic
/// interleaving of the two suffixes after replaying that prefix: the
/// reconciled log starts with the prefix, and the reconciled state is the
/// prefix state folded through the merged suffix with conflicts skipped.
pub proof fn lemma_sync_prefix_preservation(
    base: TournamentView,
    a: Seq<FullOpView>,
    b: Seq<FullOpView>,
)
    ensures
        spec_sync_result(base, a, b).0.take(spec_lcp(a, b)) =~= a.take(spec_lcp(a, b)),
        spec_sync_result(base, a, b).1 == spec_absorb(
            spec_fold(base, a.take(spec_lcp(a, b))),
            spec_merge(a.skip(spec_lcp(a, b)), b.skip(spec_lcp(a, b))),
            spec_lcp(a, b),
        ).1,
{
    lemma_lcp_bounds(a, b, 0);
    let k = spec_lcp(a, b);
    lemma_prefix_replay(base, a, k);
    let merged = spec_merge(a.skip(k), b.skip(k));
    let ks = spec_absorb(spec_fold_upto(base, a, k), merged, k).0;
    assert(a.take(k).len() == k);
    assert forall|i: int| 0 <= i < k implies spec_sync_result(base, a, b).0.take(k)[i] == a.take(
        k,
    )[i] by {
        assert((a.take(k) + ks)[i] == a.take(k)[i]);
    }
    assert(spec_sync_result(base, a, b).0.take(k) =~= a.take(k));
}

/// Everything the absorption keeps applies cleanly in place: the kept
/// operations are numbered from their landing position and fold to the
/// final state.
pub proof fn lemma_absorb_valid(t: TournamentView, merged: Seq<FullOpView>, seq0: int)
    requires
        0 <= seq0,
        seq0 + merged.len() <= u64::MAX,
    ensures
        ({
            let (ks, tf, rj) = spec_absorb(t, merged, seq0);
            &&& spec_fold_upto(t, ks, ks.len() as int) == tf
            &&& forall|i: int|
                0 <= i < ks.len() ==> ((#[trigger] ks[i]).seq == seq0 + i && spec_apply(
                    spec_fold_upto(t, ks, i),
                    ks[i],
                ).1 is Ok)
            &&& rj.len() + ks.len() == merged.len()
        }),
    decreases merged.len(),
{
    if merged.len() == 0 {
    } else {
        let m2 = FullOpView { seq: seq0 as u64, ..merged[0] };
        let (t2, res) = spec_apply(t, m2);
        if res is Ok {
            lemma_absorb_valid(t2, merged.drop_first(), seq0 + 1);
            let (ks1, tf, rj) = spec_absorb(t2, merged.drop_first(), seq0 + 1);
            let ks = seq![m2] + ks1;
            assert(ks.drop_first() =~= ks1);
            assert(spec_apply(t, ks[0]).0 == t2);
            assert forall|i: int| 0 <= i < ks.len() implies ((#[trigger] ks[i]).seq == seq0 + i
                && spec_apply(spec_fold_upto(t, ks, i), ks[i]).1 is Ok) by {
                if i == 0 {
                    assert(ks[0] == m2);
                } else {
                    assert(ks[i] == ks1[i - 1]);
                    lemma_fold_shift(t, t2, ks, ks1, i);
                    assert(spec_apply(spec_fold_upto(t2, ks1, i - 1), ks1[i - 1]).1 is Ok);
                }
            }
            lemma_fold_shift(t, t2, ks, ks1, ks.len() as int);
        } else {
            lemma_absorb_valid(t, merged.drop_first(), seq0);
        }
    }
}

/// Folding `ks = [head] + ks1` for `i` steps equals folding `ks1` for
/// `i - 1` steps from the state `head` leads to.
pub proof fn lemma_fold_shift(
    t: TournamentView,
    t2: TournamentView,
    ks: Seq<FullOpView>,
    ks1: Seq<FullOpView>,
    i: int,
)
    requires
        1 <= i <= ks.len(),
        ks.len() == ks1.len() + 1,
        forall|j: int| 0 <= j < ks1.len() ==> ks[j + 1] == ks1[j],
        spec_apply(t, ks[0]).0 == t2,
    ensures
        spec_fold_upto(t, ks, i) == spec_fold_upto(t2, ks1, i - 1),
    decreases i,
{
    if i == 1 {
        assert(spec_fold_upto(t, ks, 1) == spec_apply(spec_fold_upto(t, ks, 0), ks[0]).0);
        assert(spec_fold_upto(t, ks, 0) == t);
        assert(spec_fold_upto(t2, ks1, 0) == t2);
    } else {
        lemma_fold_shift(t, t2, ks, ks1, i - 1);
        assert(ks[i - 1] == ks1[i - 2]);
        assert(spec_fold_upto(t, ks, i) == spec_apply(spec_fold_upto(t, ks, i - 1), ks[i - 1]).0);
        assert(spec_fold_upto(t2, ks1, i - 1) == spec_apply(
            spec_fold_upto(t2, ks1, i - 2),
            ks1[i - 2],
        ).0);
    }
}

/// Why a sync is refused outright: the two logs do not describe the same
/// tournament. Per-operation conflicts never abort a sync; they are
/// recorded and skipped.
#[derive(Debug, Clone, Copy, PartialEq, Eq, Structural)]
pub enum SyncError {
    /// The remote log belongs to a different tournament id.
    TournamentMismatch,
    /// The reconciled history would outrun the sequence-number space; no
    /// real history reaches this.
    HistoryOverflow,
}

/// What one successful or failed append looks like, for some operation id:
/// the outcome is the state machine's verdict, a success appends exactly
/// one operation under the next sequence number, and a failure changes
/// nothing.
pub open spec fn spec_append_obs(
    old_state: TournamentView,
    old_ops: Seq<FullOpView>,
    new_state: TournamentView,
    new_ops: Seq<FullOpView>,
    rv: Result<crate::operations::OpDataView, TournamentError>,
    idbits: u128,
    op: crate::operations::TournOpView,
) -> bool {
    let full = FullOpView { id: idbits, seq: old_ops.len() as u64, op };
    let (t2, res) = spec_apply(old_state, full);
    &&& rv == res
    &&& rv is Ok ==> new_ops == old_ops.push(full) && new_state == t2
    &&& rv is Err ==> new_ops == old_ops && new_state == old_state
}

/// A tournament's append-only history: the pristine initial state, the
/// operations in order, and the cached state the operations fold to.
#[derive(Debug)]
pub struct OpLog {
    pub base: Tournament,
    pub ops: Vec<FullOp>,
    pub state: Tournament,
}

impl OpLog {
    /// The log's invariant: both tournaments are well-formed, the cached
    /// state is the fold of the log, and the log is valid (numbered in
    /// order, every operation accepted when it was appended).
    pub open spec fn wf(&self) -> bool {
        &&& self.base.wf()
        &&& self.state.wf()
        &&& self.state@ == spec_fold(self.base@, ops_view(self.ops@))
        &&& spec_log_valid(self.base@, ops_view(self.ops@))
    }

    /// A fresh log for a tournament in its initial state.
    pub fn new(base: Tournament) -> (r: OpLog)
        requires
            base.wf(),
        ensures
            r.wf(),
            r.base@ == base@,
            ops_view(r.ops@) == Seq::<FullOpView>::empty(),
            r.state@ == base@,
    {
        let state = base.clone();
        let r = OpLog { base, ops: Vec::new(), state };
        proof {
            assert(ops_view(r.ops@) =~= Seq::<FullOpView>::empty());
        }
        r
    }

    /// How many operations the log holds.
    pub fn len(&self) -> (r: usize)
        ensures
            r == self.ops@.len(),
    {
        self.ops.len()
    }

    /// A borrow of the current state.
    pub fn get_state(&self) -> (r: &Tournament)
        ensures
            r@ == self.state@,
    {
        &self.state
    }

    /// Validates `op` against the current state under the given operation
    /// id and, only on success, commits the state change and appends the
    /// operation under the next sequence number. Failure changes nothing
    /// and hands the state machine's error through verbatim.
    #[verifier::rlimit(60)]
    pub fn append_with_id(&mut self, id: OpId, op: TournOp) -> (r: OpResult)
        requires
            old(self).wf(),
        ensures
            final(self).wf(),
            final(self).base@ == old(self).base@,
            ({
                let full = FullOpView { id: id.0, seq: old(self).ops@.len() as u64, op: op@ };
                let (t2, res) = spec_apply(old(self).state@, full);
                &&& op_result_view(r) == res
                &&& r is Ok ==> ops_view(final(self).ops@) == ops_view(old(self).ops@).push(full)
                    && final(self).state@ == t2
                &&& r is Err ==> ops_view(final(self).ops@) == ops_view(old(self).ops@)
                    && final(self).state@ == old(self).state@
            }),
    {
        let seq = self.ops.len() as u64;
        let full = FullOp { id, seq, op };
        let ghost prev_ops = ops_view(self.ops@);
        let ghost prev_state = self.state@;
        let r = self.state.apply_op(&full);
        match r {
            Ok(d) => {
                self.ops.push(full);
                proof {
                    let fv = FullOpView { id: id.0, seq: prev_ops.len() as u64, ..full@ };
                    assert(full@ == fv);
                    assert(ops_view(self.ops@) =~= prev_ops.push(full@));
                    let nops = ops_view(self.ops@);
                    assert forall|i: int| 0 <= i < nops.len() implies ((#[trigger] nops[i]).seq
                        == i && spec_apply(
                        spec_fold_upto(self.base@, nops, i),
                        nops[i],
                    ).1 is Ok) by {
                        lemma_fold_upto_agree(self.base@, nops, prev_ops, i);
                        if i < prev_ops.len() {
                            assert(nops[i] == prev_ops[i]);
                        } else {
                            assert(nops[i] == full@);
                            assert(spec_fold_upto(self.base@, prev_ops, i) == prev_state);
                        }
                    }
                    assert(spec_fold_upto(self.base@, nops, nops.len() as int) == self.state@) by {
                        lemma_fold_upto_agree(self.base@, nops, prev_ops, prev_ops.len() as int);
                    }
                }
                Ok(d)
            },
            Err(e) => {
                proof {
                    assert(ops_view(self.ops@) == prev_ops);
                }
                Err(e)
            },
        }
    }

    /// Appends under a freshly drawn operation id. The id is random, so the
    /// contract holds for whatever id was drawn.
    pub fn append(&mut self, op: TournOp) -> (r: OpResult)
        requires
            old(self).wf(),
        ensures
            final(self).wf(),
            final(self).base@ == old(self).base@,
            exists|idbits: u128|
                #[trigger] spec_append_obs(
                    old(self).state@,
                    ops_view(old(self).ops@),
                    final(self).state@,
                    ops_view(final(self).ops@),
                    op_result_view(r),
                    idbits,
                    op@,
                ),
    {
        let ghost opv = op@;
        let bits = fresh_id_bits();
        let r = self.append_with_id(OpId(bits), op);
        proof {
            assert(spec_append_obs(
                old(self).state@,
                ops_view(old(self).ops@),
                self.state@,
                ops_view(self.ops@),
                op_result_view(r),
                bits,
                opv,
            ));
        }
        r
    }

    /// A read-only, order-preserving copy of the operations with sequence
    /// numbers in `lo..hi`; out-of-range bounds are clamped, not an error.
    pub fn slice(&self, lo: u64, hi: u64) -> (r: Vec<FullOp>)
        ensures
            ({
                let n = self.ops@.len() as int;
                let a = if lo as int <= n {
                    lo as int
                } else {
                    n
                };
                let b = if hi as int <= n {
                    hi as int
                } else {
                    n
                };
                if a <= b {
                    ops_view(r@) == ops_view(self.ops@).subrange(a, b)
                } else {
                    ops_view(r@) == Seq::<FullOpView>::empty()
                }
            }),
    {
        let n = self.ops.len();
        let a: usize = if lo <= n as u64 {
            lo as usize
        } else {
            n
        };
        let b: usize = if hi <= n as u64 {
            hi as usize
        } else {
            n
        };
        let mut out: Vec<FullOp> = Vec::new();
        proof {
            assert(ops_view(out@) =~= Seq::<FullOpView>::empty());
        }
        if a >= b {
            return out;
        }
        let mut i: usize = a;
        while i < b
            invariant
                a <= i <= b <= self.ops@.len(),
                ops_view(out@) == ops_view(self.ops@).subrange(a as int, i as int),
            decreases b - i,
        {
            let ghost prev = out@;
            let c = self.ops[i].clone();
            out.push(c);
            proof {
                assert(ops_view(prev).len() == prev.len());
                assert(out@ == prev.push(c));
                assert forall|j: int| 0 <= j < out@.len() implies ops_view(out@)[j] == ops_view(
                    self.ops@,
                ).subrange(a as int, i as int + 1)[j] by {
                    if j < prev.len() {
                        assert(out@[j] == prev[j]);
                        assert(ops_view(prev)[j] == ops_view(self.ops@).subrange(
                            a as int,
                            i as int,
                        )[j]);
                    } else {
                        assert(out@[j] == c);
                        assert(ops_view(self.ops@)[a + j] == self.ops@[a + j]@);
                    }
                }
                assert(ops_view(out@) =~= ops_view(self.ops@).subrange(a as int, i as int + 1));
            }
            i += 1;
        }
        out
    }

    /// The single deterministic replay: folds `ops` into a copy of `init`,
    /// applying each operation in order; a rejected operation leaves the
    /// state unchanged.
    pub fn replay_from(init: &Tournament, ops: &Vec<FullOp>) -> (r: Tournament)
        requires
            init.wf(),
        ensures
            r@ == spec_fold(init@, ops_view(ops@)),
            r.wf(),
    {
        let mut cur = init.clone();
        let mut i: usize = 0;
        while i < ops.len()
            invariant
                i <= ops@.len(),
                cur.wf(),
                cur@ == spec_fold_upto(init@, ops_view(ops@), i as int),
            decreases ops@.len() - i,
        {
            proof {
                assert(ops_view(ops@)[i as int] == ops@[i as int]@);
            }
            let _ = cur.apply_op(&ops[i]);
            i += 1;
        }
        proof {
            assert(ops_view(ops@).len() == ops@.len());
        }
        cur
    }

    /// Discards every operation with sequence number greater than `to_seq`
    /// (a negative bound truncates to nothing; one beyond the end is a
    /// no-op), then recomputes the state by full replay of the remaining
    /// prefix from the initial state. Under the log invariant the replay
    /// cannot fail, so rollback always succeeds.
    #[verifier::rlimit(60)]
    pub fn rollback(&mut self, to_seq: i64) -> (r: Result<(), TournamentError>)
        requires
            old(self).wf(),
        ensures
            final(self).wf(),
            final(self).base@ == old(self).base@,
            r is Ok,
            ({
                let n = old(self).ops@.len() as int;
                let keep = if to_seq < 0 {
                    0
                } else if to_seq as int + 1 <= n {
                    to_seq as int + 1
                } else {
                    n
                };
                ops_view(final(self).ops@) == ops_view(old(self).ops@).take(keep)
                    && final(self).state@ == spec_fold(
                    old(self).base@,
                    ops_view(old(self).ops@).take(keep),
                )
            }),
    {
        let n = self.ops.len();
        let keep: usize = if to_seq < 0 {
            0
        } else if to_seq as u64 >= n as u64 {
            n
        } else {
            (to_seq as u64 as usize) + 1
        };
        let ghost prev_ops = ops_view(self.ops@);
        self.ops.truncate(keep);
        proof {
            assert(ops_view(self.ops@) =~= prev_ops.take(keep as int));
        }
        let st = Self::replay_from(&self.base, &self.ops);
        self.state = st;
        proof {
            let nops = ops_view(self.ops@);
            assert forall|i: int| 0 <= i < nops.len() implies ((#[trigger] nops[i]).seq == i
                && spec_apply(spec_fold_upto(self.base@, nops, i), nops[i]).1 is Ok) by {
                assert(nops[i] == prev_ops[i]);
                lemma_fold_upto_agree(self.base@, nops, prev_ops, i);
            }
        }
        Ok(())
    }

    /// Reconciles this log with another history of the same tournament: the
    /// longest common prefix is kept, the two divergent suffixes are
    /// interleaved deterministically, and the merged suffix is replayed on
    /// top of the prefix with conflicting operations skipped and reported.
    /// A remote log for a different tournament fails the whole sync with no
    /// effect. Under the log invariant the common prefix always replays
    /// cleanly, so that is the only hard failure.
    #[verifier::rlimit(100)]
    pub fn sync(&mut self, remote: &OpLog) -> (r: Result<Vec<FullOp>, SyncError>)
        requires
            old(self).wf(),
            remote.wf(),
        ensures
            final(self).wf(),
            final(self).base@ == old(self).base@,
            old(self).base@.id != remote.base@.id ==> r == Err::<Vec<FullOp>, SyncError>(
                SyncError::TournamentMismatch,
            ) && *final(self) == *old(self),
            old(self).base@.id == remote.base@.id && spec_sync_fits(
                ops_view(old(self).ops@),
                ops_view(remote.ops@),
            ) ==> r is Ok && ({
                let (nops, nstate, rejected) = spec_sync_result(
                    old(self).base@,
                    ops_view(old(self).ops@),
                    ops_view(remote.ops@),
                );
                &&& ops_view(final(self).ops@) == nops
                &&& final(self).state@ == nstate
                &&& ops_view(r.unwrap()@) == rejected
            }),
            old(self).base@.id == remote.base@.id && !spec_sync_fits(
                ops_view(old(self).ops@),
                ops_view(remote.ops@),
            ) ==> r == Err::<Vec<FullOp>, SyncError>(SyncError::HistoryOverflow)
                && *final(self) == *old(self),
    {
        if self.base.id.0 != remote.base.id.0 {
            return Err(SyncError::TournamentMismatch);
        }
        let ghost a = ops_view(self.ops@);
        let ghost b = ops_view(remote.ops@);
        // The longest common prefix, by operation identity.
        let mut k: usize = 0;
        while k < self.ops.len() && k < remote.ops.len() && self.ops[k].id.0 == remote.ops[k].id.0
            invariant
                a == ops_view(self.ops@),
                b == ops_view(remote.ops@),
                k <= a.len(),
                k <= b.len(),
                spec_lcp(a, b) == spec_lcp_from(a, b, k as int),
            decreases a.len() - k,
        {
            proof {
                assert(a[k as int].id == self.ops@[k as int]@.id);
                assert(b[k as int].id == remote.ops@[k as int]@.id);
            }
            k += 1;
        }
        proof {
            assert(spec_lcp(a, b) == k as int);
        }
        // The two divergent suffixes, merged deterministically.
        let merged = merge_suffixes(&self.ops, &remote.ops, k, k);
        proof {
            assert(ops_view(merged@).len() == merged@.len());
        }
        if merged.len() as u64 > u64::MAX - k as u64 {
            return Err(SyncError::HistoryOverflow);
        }
        // Replay the common prefix from the initial state.
        self.ops.truncate(k);
        proof {
            assert(ops_view(self.ops@) =~= a.take(k as int));
        }
        let pre_state = Self::replay_from(&self.base, &self.ops);
        proof {
            lemma_prefix_replay(self.base@, a, k as int);
        }
        // Apply the merged suffix on top, skipping and reporting conflicts.
        proof {
            assert(ops_view(merged@).skip(0) =~= ops_view(merged@));
        }
        let (mut kept, new_state, rejected) = absorb_rec(pre_state, &merged, 0, k as u64);
        let ghost ksv = ops_view(kept@);
        self.ops.append(&mut kept);
        self.state = new_state;
        proof {
            let prefix = a.take(k as int);
            let mv = ops_view(merged@);
            let pre = spec_fold_upto(self.base@, a, k as int);
            lemma_absorb_valid(pre, mv, k as int);
            let (ks, tf, rj) = spec_absorb(pre, mv, k as int);
            assert(ops_view(self.ops@) =~= prefix + ks);
            let nops = ops_view(self.ops@);
            assert forall|i: int| 0 <= i < nops.len() implies ((#[trigger] nops[i]).seq == i
                && spec_apply(spec_fold_upto(self.base@, nops, i), nops[i]).1 is Ok) by {
                if i < k as int {
                    assert(nops[i] == a[i]);
                    lemma_fold_upto_agree(self.base@, nops, a, i);
                } else {
                    assert(nops[i] == ks[i - k as int]);
                    lemma_fold_concat(self.base@, prefix, ks, i - k as int);
                    lemma_fold_upto_agree(self.base@, nops, prefix, k as int);
                    assert(spec_fold_upto(self.base@, prefix, k as int) == pre) by {
                        lemma_prefix_replay(self.base@, a, k as int);
                        lemma_fold_upto_agree(self.base@, prefix, a, k as int);
                    }
                }
            }
            assert(self.state@ == spec_fold(self.base@, nops)) by {
                assert(nops.len() == k as int + ks.len());
                lemma_fold_concat(self.base@, prefix, ks, ks.len() as int);
                lemma_fold_upto_agree(self.base@, nops, prefix, k as int);
                assert(spec_fold_upto(self.base@, prefix, k as int) == pre) by {
                    lemma_prefix_replay(self.base@, a, k as int);
                    lemma_fold_upto_agree(self.base@, prefix, a, k as int);
                }
            }
            assert(ops_view(self.ops@) == spec_sync_result(self.base@, a, b).0);
        }
        Ok(rejected)
    }
}

/// Folding a concatenation continues where the first part left off.
pub proof fn lemma_fold_concat(
    t: TournamentView,
    xs: Seq<FullOpView>,
    ys: Seq<FullOpView>,
    m: int,
)
    requires
        0 <= m <= ys.len(),
    ensures
        spec_fold_upto(t, xs + ys, xs.len() + m) == spec_fold_upto(
            spec_fold_upto(t, xs + ys, xs.len() as int),
            ys,
            m,
        ),
    decreases m,
{
    if m <= 0 {
    } else {
        lemma_fold_concat(t, xs, ys, m - 1);
        assert((xs + ys)[xs.len() + m - 1] == ys[m - 1]);
    }
}

/// Applies `merged[j..]` one by one from `st`, renumbering each landing
/// operation and putting rejected ones aside, mirroring `spec_absorb`.
fn absorb_rec(st: Tournament, merged: &Vec<FullOp>, j: usize, seq0: u64) -> (r: (
    Vec<FullOp>,
    Tournament,
    Vec<FullOp>,
))
    requires
        st.wf(),
        j <= merged@.len(),
        merged@.len() - j <= u64::MAX - seq0,
    ensures
        ({
            let (ks, tf, rj) = spec_absorb(st@, ops_view(merged@).skip(j as int), seq0 as int);
            &&& ops_view(r.0@) == ks
            &&& r.1@ == tf
            &&& r.1.wf()
            &&& ops_view(r.2@) == rj
        }),
    decreases merged@.len() - j,
{
    let ghost mv = ops_view(merged@).skip(j as int);
    proof {
        assert(ops_view(merged@).len() == merged@.len());
        if j < merged@.len() {
            assert(mv[0] == ops_view(merged@)[j as int]);
            assert(ops_view(merged@)[j as int] == merged@[j as int]@);
            assert(mv.drop_first() =~= ops_view(merged@).skip(j as int + 1));
        }
    }
    if j == merged.len() {
        let kept: Vec<FullOp> = Vec::new();
        let rejected: Vec<FullOp> = Vec::new();
        proof {
            assert(mv =~= Seq::<FullOpView>::empty());
            assert(ops_view(kept@) =~= Seq::<FullOpView>::empty());
            assert(ops_view(rejected@) =~= Seq::<FullOpView>::empty());
        }
        (kept, st, rejected)
    } else {
        let m = &merged[j];
        let full = FullOp { id: m.id, seq: seq0, op: m.op.clone() };
        proof {
            assert(full@ == FullOpView { seq: seq0, ..mv[0] });
        }
        let mut st2 = st;
        let res = st2.apply_op(&full);
        match res {
            Ok(_) => {
                let (mut ks, tf, rj) = absorb_rec(st2, merged, j + 1, seq0 + 1);
                let ghost kv = ops_view(ks@);
                ks.insert(0, full);
                proof {
                    assert(ops_view(ks@) =~= seq![FullOpView { seq: seq0, ..mv[0] }] + kv);
                }
                (ks, tf, rj)
            },
            Err(_) => {
                let orig = m.clone();
                let (ks, tf, mut rj) = absorb_rec(st2, merged, j + 1, seq0);
                let ghost rv = ops_view(rj@);
                rj.insert(0, orig);
                proof {
                    assert(ops_view(rj@) =~= seq![mv[0]] + rv);
                }
                (ks, tf, rj)
            },
        }
    }
}

/// The deterministic merge of `a[i..]` and `b[j..]`, mirroring
/// `spec_merge`; the operations are copied out of both logs.
fn merge_suffixes(a: &Vec<FullOp>, b: &Vec<FullOp>, i: usize, j: usize) -> (r: Vec<FullOp>)
    requires
        i <= a@.len(),
        j <= b@.len(),
    ensures
        ops_view(r@) == spec_merge(ops_view(a@).skip(i as int), ops_view(b@).skip(j as int)),
    decreases a@.len() - i + b@.len() - j,
{
    let ghost av = ops_view(a@).skip(i as int);
    let ghost bv = ops_view(b@).skip(j as int);
    proof {
        assert(ops_view(a@).len() == a@.len());
        assert(ops_view(b@).len() == b@.len());
        if i < a@.len() {
            assert(av[0] == ops_view(a@)[i as int]);
            assert(av.drop_first() =~= ops_view(a@).skip(i as int + 1));
        }
        if j < b@.len() {
            assert(bv[0] == ops_view(b@)[j as int]);
            assert(bv.drop_first() =~= ops_view(b@).skip(j as int + 1));
        }
    }
    if i == a.len() {
        let r = copy_ops_from(b, j);
        proof {
            assert(av =~= Seq::<FullOpView>::empty());
        }
        r
    } else if j == b.len() {
        let r = copy_ops_from(a, i);
        proof {
            assert(bv =~= Seq::<FullOpView>::empty());
        }
        r
    } else {
        let take_a = if a[i].seq < b[j].seq {
            true
        } else if b[j].seq < a[i].seq {
            false
        } else if a[i].id.0 == b[j].id.0 {
            true
        } else {
            a[i].id.0 < b[j].id.0
        };
        let both = a[i].seq == b[j].seq && a[i].id.0 == b[j].id.0;
        let head = if take_a {
            a[i].clone()
        } else {
            b[j].clone()
        };
        let mut rest = if both {
            merge_suffixes(a, b, i + 1, j + 1)
        } else if take_a {
            merge_suffixes(a, b, i + 1, j)
        } else {
            merge_suffixes(a, b, i, j + 1)
        };
        let ghost rv = ops_view(rest@);
        let ghost hv = head@;
        rest.insert(0, head);
        proof {
            assert(ops_view(rest@) =~= seq![hv] + rv);
        }
        rest
    }
}

/// A copy of `v[k..]`, preserving observable content.
fn copy_ops_from(v: &Vec<FullOp>, k: usize) -> (r: Vec<FullOp>)
    requires
        k <= v@.len(),
    ensures
        ops_view(r@) == ops_view(v@).skip(k as int),
{
    let mut out: Vec<FullOp> = Vec::new();
    let mut i: usize = k;
    proof {
        assert(ops_view(out@) =~= ops_view(v@).subrange(k as int, k as int));
    }
    while i < v.len()
        invariant
            k <= i <= v@.len(),
            ops_view(out@) == ops_view(v@).subrange(k as int, i as int),
        decreases v@.len() - i,
    {
        let ghost prev = out@;
        let c = v[i].clone();
        out.push(c);
        proof {
            assert(ops_view(prev).len() == prev.len());
            assert(out@ == prev.push(c));
            assert forall|m: int| 0 <= m < out@.len() implies ops_view(out@)[m] == ops_view(
                v@,
            ).subrange(k as int, i as int + 1)[m] by {
                if m < prev.len() {
                    assert(out@[m] == prev[m]);
                    assert(ops_view(prev)[m] == ops_view(v@).subrange(k as int, i as int)[m]);
                } else {
                    assert(out@[m] == c);
                    assert(ops_view(v@)[k + m] == v@[k + m]@);
                }
            }
            assert(ops_view(out@) =~= ops_view(v@).subrange(k as int, i as int + 1));
        }
        i += 1;
    }
    proof {
        assert(ops_view(v@).subrange(k as int, v@.len() as int) =~= ops_view(v@).skip(k as int));
    }
    out
}

} // verus!
