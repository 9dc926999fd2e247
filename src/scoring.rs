use vstd::prelude::*;

use crate::config::{lemma_subtask_start_monotone, subtask_start, subtask_score_total, lemma_subtask_score_total_monotone, Subtask, TaskConfig};
use crate::verdict::{get_status, status_name, RunVerdict};

verus! {

/// What running one test produced: the sandbox's verdict, whether the
/// checker accepted the output, and the resources the program used.
#[derive(Clone, Copy, Debug, PartialEq, Eq, Structural)]
pub struct TestOutcome {
    pub verdict: RunVerdict,
    pub checker_accepted: bool,
    pub time_ms: u64,
    pub memory_kb: u64,
}

impl TestOutcome {
    /// Stands for a test that the skip policy left unrun; grading does not read it.
    pub fn not_run() -> (r: TestOutcome)
        ensures
            r == (TestOutcome {
                verdict: RunVerdict::VerdictXX,
                checker_accepted: false,
                time_ms: 0,
                memory_kb: 0,
            }),
    {
        TestOutcome { verdict: RunVerdict::VerdictXX, checker_accepted: false, time_ms: 0, memory_kb: 0 }
    }
}

/// The reported result of one test.
pub struct RunResult {
    pub status: String,
    pub test_index: u64,
    pub subtask_index: u64,
    pub score: u64,
    pub time_ms: u64,
    pub memory_kb: u64,
}

/// The verdict of a whole submission.
pub struct JudgeResult {
    pub result: Vec<RunResult>,
    pub status: String,
    pub score: u64,
    pub time: u64,
    pub memory: u64,
}

/// A test is awarded when the program ran cleanly and the checker accepted its output.
pub open spec fn accepted(o: TestOutcome) -> bool {
    o.verdict == RunVerdict::VerdictOK && o.checker_accepted
}

/// The status reported for a test that was run.
pub open spec fn outcome_status(o: TestOutcome) -> Seq<char> {
    if accepted(o) {
        "Accepted"@
    } else if o.verdict == RunVerdict::VerdictOK {
        "Wrong Answer"@
    } else {
        status_name(o.verdict)
    }
}

/// Test `j` (counted from 0) belongs to subtask `s` (counted from 0).
pub open spec fn in_subtask(task: &TaskConfig, s: int, j: int) -> bool {
    &&& 0 <= s < task.subtasks@.len()
    &&& subtask_start(task.subtasks@, s) <= j < subtask_start(task.subtasks@, s + 1)
}

/// Under the skip policy, test `j` of subtask `s` is not run once an earlier
/// test of the same subtask failed.
pub open spec fn skipped(task: &TaskConfig, outs: Seq<TestOutcome>, s: int, j: int) -> bool {
    task.skip && exists|i: int|
        #![trigger outs[i]]
        subtask_start(task.subtasks@, s) <= i < j && !accepted(outs[i])
}

/// Every test of subtask `s` was accepted.
pub open spec fn subtask_passed(task: &TaskConfig, outs: Seq<TestOutcome>, s: int) -> bool {
    forall|i: int|
        #![trigger outs[i]]
        subtask_start(task.subtasks@, s) <= i < subtask_start(task.subtasks@, s + 1) ==> accepted(
            outs[i],
        )
}

/// What subtask `s` adds to the submission's score.
pub open spec fn subtask_contribution(task: &TaskConfig, outs: Seq<TestOutcome>, s: int) -> nat {
    if subtask_passed(task, outs, s) {
        task.subtasks@[s].full_score as nat
    } else {
        0
    }
}

/// The contributions of the first `s` subtasks, summed.
pub open spec fn subtask_awarded(task: &TaskConfig, outs: Seq<TestOutcome>, s: int) -> nat
    decreases s,
{
    if s <= 0 {
        0
    } else {
        subtask_awarded(task, outs, s - 1) + subtask_contribution(task, outs, s - 1)
    }
}

/// The score of one test in the flat layout.
pub open spec fn flat_test_score(task: &TaskConfig, o: TestOutcome) -> nat {
    if accepted(o) {
        (task.full_score / task.num_testcases) as nat
    } else {
        0
    }
}

/// The scores of the first `k` tests in the flat layout, summed.
pub open spec fn flat_awarded(task: &TaskConfig, outs: Seq<TestOutcome>, k: int) -> nat
    decreases k,
{
    if k <= 0 {
        0
    } else {
        flat_awarded(task, outs, k - 1) + flat_test_score(task, outs[k - 1])
    }
}

/// `r` is the result of test `j` in the flat layout.
pub open spec fn flat_result_ok(task: &TaskConfig, outs: Seq<TestOutcome>, j: int, r: RunResult) -> bool {
    &&& r.status@ == outcome_status(outs[j])
    &&& r.test_index == j + 1
    &&& r.subtask_index == 0
    &&& r.score == flat_test_score(task, outs[j])
    &&& r.time_ms == outs[j].time_ms
    &&& r.memory_kb == outs[j].memory_kb
}

/// The score of a test of subtask `s` that was run: its share of the
/// subtask's score when the whole subtask passed, else nothing.
pub open spec fn subtask_test_score(task: &TaskConfig, outs: Seq<TestOutcome>, s: int) -> nat {
    if subtask_passed(task, outs, s) {
        (task.subtasks@[s].full_score / task.subtasks@[s].num_testcases) as nat
    } else {
        0
    }
}

/// `r` is the result of test `j` of subtask `s`.
pub open spec fn subtask_result_ok(
    task: &TaskConfig,
    outs: Seq<TestOutcome>,
    s: int,
    j: int,
    r: RunResult,
) -> bool {
    &&& r.test_index == j + 1
    &&& r.subtask_index == s + 1
    &&& if skipped(task, outs, s, j) {
        &&& r.status@ == "Skipped"@
        &&& r.score == 0
        &&& r.time_ms == 0
        &&& r.memory_kb == 0
    } else {
        &&& r.status@ == outcome_status(outs[j])
        &&& r.score == subtask_test_score(task, outs, s)
        &&& r.time_ms == outs[j].time_ms
        &&& r.memory_kb == outs[j].memory_kb
    }
}

/// The largest time over a list of results (0 for none).
pub open spec fn max_time(rs: Seq<RunResult>) -> nat
    decreases rs.len(),
{
    if rs.len() == 0 {
        0
    } else {
        vstd::math::max(max_time(rs.drop_last()) as int, rs.last().time_ms as int) as nat
    }
}

/// The largest memory use over a list of results (0 for none).
pub open spec fn max_memory(rs: Seq<RunResult>) -> nat
    decreases rs.len(),
{
    if rs.len() == 0 {
        0
    } else {
        vstd::math::max(max_memory(rs.drop_last()) as int, rs.last().memory_kb as int) as nat
    }
}

/// `jr` is the verdict that the scoring rules give a submission of `task`
/// whose tests produced `outs`.
pub open spec fn graded(task: &TaskConfig, outs: Seq<TestOutcome>, jr: JudgeResult) -> bool {
    &&& jr.status@ == "Completed"@
    &&& jr.result@.len() == task.test_count()
    &&& task.is_flat() ==> {
        &&& forall|j: int|
            0 <= j < task.test_count() ==> #[trigger] flat_result_ok(task, outs, j, jr.result@[j])
        &&& jr.score == flat_awarded(task, outs, task.test_count() as int)
    }
    &&& !task.is_flat() ==> {
        &&& forall|s: int, j: int|
            #[trigger] in_subtask(task, s, j) ==> subtask_result_ok(task, outs, s, j, jr.result@[j])
        &&& jr.score == subtask_awarded(task, outs, task.subtasks@.len() as int)
    }
    &&& jr.time == max_time(jr.result@)
    &&& jr.memory == max_memory(jr.result@)
}


/// The status text of a test that was run.
fn outcome_status_text(o: &TestOutcome) -> (r: String)
    ensures
        r@ == outcome_status(*o),
{
    if o.verdict == RunVerdict::VerdictOK && o.checker_accepted {
        String::from_str("Accepted")
    } else if o.verdict == RunVerdict::VerdictOK {
        String::from_str("Wrong Answer")
    } else {
        get_status(o.verdict)
    }
}

/// The largest time and the largest memory use over `rs`.
fn maxima(rs: &Vec<RunResult>) -> (r: (u64, u64))
    ensures
        r.0 == max_time(rs@),
        r.1 == max_memory(rs@),
{
    let mut time: u64 = 0;
    let mut memory: u64 = 0;
    let mut i: usize = 0;
    while i < rs.len()
        invariant
            0 <= i <= rs@.len(),
            time == max_time(rs@.subrange(0, i as int)),
            memory == max_memory(rs@.subrange(0, i as int)),
        decreases rs@.len() - i,
    {
        let r = &rs[i];
        assert(rs@.subrange(0, i + 1).drop_last() =~= rs@.subrange(0, i as int));
        if r.time_ms > time {
            time = r.time_ms;
        }
        if r.memory_kb > memory {
            memory = r.memory_kb;
        }
        i = i + 1;
    }
    assert(rs@.subrange(0, rs@.len() as int) =~= rs@);
    (time, memory)
}

proof fn lemma_flat_awarded_bound(task: &TaskConfig, outs: Seq<TestOutcome>, k: int)
    requires
        0 <= k,
        task.num_testcases > 0,
    ensures
        flat_awarded(task, outs, k) <= k * (task.full_score / task.num_testcases),
    decreases k,
{
    if k > 0 {
        lemma_flat_awarded_bound(task, outs, k - 1);
        assert((k - 1) * (task.full_score / task.num_testcases) + (task.full_score
            / task.num_testcases) == k * (task.full_score / task.num_testcases)) by (nonlinear_arith);
    }
}

proof fn lemma_flat_awarded_fits(task: &TaskConfig, outs: Seq<TestOutcome>, k: int)
    requires
        0 <= k <= task.num_testcases,
        task.num_testcases > 0,
    ensures
        flat_awarded(task, outs, k) <= task.full_score,
{
    lemma_flat_awarded_bound(task, outs, k);
    let q = task.full_score / task.num_testcases;
    assert(k * q <= task.num_testcases * q) by (nonlinear_arith)
        requires
            0 <= k <= task.num_testcases,
            0 <= q,
    ;
    assert(task.num_testcases * q <= task.full_score) by (nonlinear_arith)
        requires
            q == task.full_score / task.num_testcases,
            task.num_testcases > 0,
    ;
}

/// Grades a task with no subtasks: each accepted test earns its share.
fn grade_flat(task: &TaskConfig, outs: &Vec<TestOutcome>) -> (r: (Vec<RunResult>, u64))
    requires
        task.is_flat(),
        outs@.len() == task.num_testcases,
    ensures
        r.0@.len() == task.num_testcases,
        forall|j: int|
            0 <= j < task.num_testcases ==> #[trigger] flat_result_ok(task, outs@, j, r.0@[j]),
        r.1 == flat_awarded(task, outs@, task.num_testcases as int),
{
    let n: usize = outs.len();
    let mut results: Vec<RunResult> = Vec::new();
    let mut score: u64 = 0;
    let mut k: usize = 0;
    while k < n
        invariant
            n == task.num_testcases,
            outs@.len() == n,
            0 <= k <= n,
            results@.len() == k,
            forall|j: int| 0 <= j < k ==> #[trigger] flat_result_ok(task, outs@, j, results@[j]),
            score == flat_awarded(task, outs@, k as int),
        decreases n - k,
    {
        let o = outs[k];
        let awarded = o.verdict == RunVerdict::VerdictOK && o.checker_accepted;
        let test_score = if awarded {
            task.full_score / task.num_testcases
        } else {
            0
        };
        proof {
            lemma_flat_awarded_fits(task, outs@, k + 1);
            assert(test_score == flat_test_score(task, outs@[k as int]));
            assert(flat_awarded(task, outs@, k + 1) == score + test_score);
        }
        score = score + test_score;
        let status = outcome_status_text(&o);
        let r = RunResult {
            status,
            test_index: k as u64 + 1,
            subtask_index: 0,
            score: test_score,
            time_ms: o.time_ms,
            memory_kb: o.memory_kb,
        };
        assert(flat_result_ok(task, outs@, k as int, r));
        results.push(r);
        k = k + 1;
        assert forall|j: int| 0 <= j < k implies #[trigger] flat_result_ok(task, outs@, j, results@[j]) by {
            if j < k - 1 {
                assert(flat_result_ok(task, outs@, j, results@[j]));
            }
        }
    }
    (results, score)
}


proof fn lemma_subtask_awarded_bound(task: &TaskConfig, outs: Seq<TestOutcome>, s: int)
    requires
        0 <= s,
    ensures
        subtask_awarded(task, outs, s) <= subtask_score_total(task.subtasks@, s),
    decreases s,
{
    if s > 0 {
        lemma_subtask_awarded_bound(task, outs, s - 1);
    }
}

/// A test of subtask `s` as recorded before the subtask's outcome is known:
/// an accepted test holds its share of the subtask's score.
spec fn provisional_ok(task: &TaskConfig, outs: Seq<TestOutcome>, s: int, j: int, r: RunResult) -> bool {
    &&& r.test_index == j + 1
    &&& r.subtask_index == s + 1
    &&& if skipped(task, outs, s, j) {
        &&& r.status@ == "Skipped"@
        &&& r.score == 0
        &&& r.time_ms == 0
        &&& r.memory_kb == 0
    } else {
        &&& r.status@ == outcome_status(outs[j])
        &&& r.score == (if accepted(outs[j]) {
            task.subtasks@[s].full_score / task.subtasks@[s].num_testcases
        } else {
            0
        })
        &&& r.time_ms == outs[j].time_ms
        &&& r.memory_kb == outs[j].memory_kb
    }
}

/// Runs through the tests of subtask `s`, which start at test `start`.
/// Returns their provisional results and whether one of them failed.
fn grade_one_subtask(task: &TaskConfig, outs: &Vec<TestOutcome>, s: usize, start: usize) -> (r: (
    Vec<RunResult>,
    bool,
))
    requires
        s < task.subtasks@.len(),
        start == subtask_start(task.subtasks@, s as int),
        subtask_start(task.subtasks@, s + 1) <= outs@.len(),
        subtask_start(task.subtasks@, s + 1) <= u64::MAX,
    ensures
        r.0@.len() == task.subtasks@[s as int].num_testcases,
        forall|k: int|
            0 <= k < r.0@.len() ==> #[trigger] provisional_ok(
                task,
                outs@,
                s as int,
                start + k,
                r.0@[k],
            ),
        r.1 == !subtask_passed(task, outs@, s as int),
{
    let st = task.subtasks[s];
    assert(subtask_start(task.subtasks@, s + 1) == start + st.num_testcases);
    let total = outs.len();
    let m = task.subtasks.len();
    let n = st.num_testcases as usize;
    let sub_index = s as u64 + 1;
    let mut sub: Vec<RunResult> = Vec::new();
    let mut failed = false;
    let mut t: usize = 0;
    while t < n
        invariant
            st == task.subtasks@[s as int],
            n == st.num_testcases,
            start + n == subtask_start(task.subtasks@, s + 1),
            start + n <= outs@.len(),
            start + n <= u64::MAX,
            total == outs@.len(),
            sub_index == s + 1,
            start == subtask_start(task.subtasks@, s as int),
            s < task.subtasks@.len(),
            0 <= t <= n,
            sub@.len() == t,
            failed == exists|i: int|
                #![trigger outs@[i]]
                start <= i < start + t && !accepted(outs@[i]),
            forall|k: int|
                0 <= k < t ==> #[trigger] provisional_ok(task, outs@, s as int, start + k, sub@[k]),
        decreases n - t,
    {
        let j = start + t;
        let ghost was = sub@;
        if task.skip && failed {
            assert(skipped(task, outs@, s as int, j as int));
            let r = RunResult {
                status: String::from_str("Skipped"),
                test_index: j as u64 + 1,
                subtask_index: sub_index,
                score: 0,
                time_ms: 0,
                memory_kb: 0,
            };
            sub.push(r);
        } else {
            assert(!skipped(task, outs@, s as int, j as int));
            let o = outs[j];
            let ok = o.verdict == RunVerdict::VerdictOK && o.checker_accepted;
            let test_score = if ok {
                st.full_score / st.num_testcases
            } else {
                0
            };
            if !ok {
                failed = true;
            }
            let r = RunResult {
                status: outcome_status_text(&o),
                test_index: j as u64 + 1,
                subtask_index: sub_index,
                score: test_score,
                time_ms: o.time_ms,
                memory_kb: o.memory_kb,
            };
            sub.push(r);
        }
        assert(provisional_ok(task, outs@, s as int, j as int, sub@[t as int]));
        t = t + 1;
        assert forall|k: int| 0 <= k < t implies #[trigger] provisional_ok(
            task,
            outs@,
            s as int,
            start + k,
            sub@[k],
        ) by {
            if k < t - 1 {
                assert(sub@[k] == was[k]);
            }
        }
    }
    (sub, failed)
}


/// Sets every score in `rs` to 0 and keeps the other fields.
fn clear_scores(rs: &mut Vec<RunResult>)
    ensures
        final(rs)@.len() == old(rs)@.len(),
        forall|k: int|
            0 <= k < old(rs)@.len() ==> {
                let a = #[trigger] final(rs)@[k];
                let b = old(rs)@[k];
                &&& a.score == 0
                &&& a.status == b.status
                &&& a.test_index == b.test_index
                &&& a.subtask_index == b.subtask_index
                &&& a.time_ms == b.time_ms
                &&& a.memory_kb == b.memory_kb
            },
{
    let ghost before = rs@;
    let mut k: usize = 0;
    while k < rs.len()
        invariant
            rs@.len() == before.len(),
            0 <= k <= rs@.len(),
            forall|i: int|
                0 <= i < rs@.len() ==> {
                    let a = #[trigger] rs@[i];
                    let b = before[i];
                    &&& (i < k ==> a.score == 0)
                    &&& (i >= k ==> a.score == b.score)
                    &&& a.status == b.status
                    &&& a.test_index == b.test_index
                    &&& a.subtask_index == b.subtask_index
                    &&& a.time_ms == b.time_ms
                    &&& a.memory_kb == b.memory_kb
                },
        decreases rs@.len() - k,
    {
        rs[k].score = 0;
        k = k + 1;
    }
}

/// Grades a task with subtasks: a subtask earns its full score only when all
/// of its tests are accepted, and otherwise every test in it scores 0.
fn grade_subtasks(task: &TaskConfig, outs: &Vec<TestOutcome>) -> (r: (Vec<RunResult>, u64))
    requires
        !task.is_flat(),
        task.wf(),
        outs@.len() == task.test_count(),
    ensures
        r.0@.len() == task.test_count(),
        forall|s: int, j: int|
            #[trigger] in_subtask(task, s, j) ==> subtask_result_ok(task, outs@, s, j, r.0@[j]),
        r.1 == subtask_awarded(task, outs@, task.subtasks@.len() as int),
{
    let m = task.subtasks.len();
    let mut results: Vec<RunResult> = Vec::new();
    let mut score: u64 = 0;
    let mut start: usize = 0;
    let mut s: usize = 0;
    while s < m
        invariant
            m == task.subtasks@.len(),
            !task.is_flat(),
            task.wf(),
            outs@.len() == task.test_count(),
            0 <= s <= m,
            start == subtask_start(task.subtasks@, s as int),
            results@.len() == start,
            forall|s2: int, j: int|
                0 <= s2 < s && #[trigger] in_subtask(task, s2, j) ==> subtask_result_ok(
                    task,
                    outs@,
                    s2,
                    j,
                    results@[j],
                ),
            score == subtask_awarded(task, outs@, s as int),
        decreases m - s,
    {
        proof {
            lemma_subtask_start_monotone(task.subtasks@, s + 1, m as int);
            lemma_subtask_score_total_monotone(task.subtasks@, s + 1, m as int);
            lemma_subtask_awarded_bound(task, outs@, s + 1);
        }
        let ghost before = results@;
        let (mut sub, failed) = grade_one_subtask(task, outs, s, start);
        let ghost provisional = sub@;
        let st = task.subtasks[s];
        let total = outs.len();
        assert(subtask_start(task.subtasks@, s + 1) == start + st.num_testcases);
        assert(start + st.num_testcases <= total);
        if failed {
            clear_scores(&mut sub);
        } else {
            score = score + st.full_score;
        }
        assert forall|k: int| 0 <= k < sub@.len() implies #[trigger] subtask_result_ok(
            task,
            outs@,
            s as int,
            start + k,
            sub@[k],
        ) by {
            assert(provisional_ok(task, outs@, s as int, start + k, provisional[k]));
            if !failed {
                assert(!skipped(task, outs@, s as int, start + k));
            }
        }
        let ghost finished = sub@;
        results.append(&mut sub);
        assert(results@ =~= before + finished);
        assert forall|s2: int, j: int|
            0 <= s2 < s + 1 && #[trigger] in_subtask(task, s2, j) implies subtask_result_ok(
            task,
            outs@,
            s2,
            j,
            results@[j],
        ) by {
            if s2 < s {
                lemma_subtask_start_monotone(task.subtasks@, s2 + 1, s as int);
                assert(results@[j] == before[j]);
            } else {
                let k = j - start;
                assert(subtask_result_ok(task, outs@, s as int, start + k, finished[k]));
                assert(start + k == j);
                assert(results@[j] == finished[k]);
            }
        }
        start = start + st.num_testcases as usize;
        s = s + 1;
    }
    (results, score)
}

/// Grades a compiled submission from the outcomes of its tests, in order of
/// test index. The outcome given for a test that the skip policy leaves
/// unrun is not read (see `is_skipped`).
pub fn grade(task: &TaskConfig, outs: &Vec<TestOutcome>) -> (r: JudgeResult)
    requires
        task.wf(),
        outs@.len() == task.test_count(),
    ensures
        graded(task, outs@, r),
{
    let (result, score) = if task.subtasks.len() == 0 {
        grade_flat(task, outs)
    } else {
        grade_subtasks(task, outs)
    };
    let (time, memory) = maxima(&result);
    JudgeResult { result, status: String::from_str("Completed"), score, time, memory }
}


/// Test `j` (counted from 0) is left unrun by the skip policy.
pub open spec fn test_skipped(task: &TaskConfig, outs: Seq<TestOutcome>, j: int) -> bool {
    exists|s: int| #[trigger] in_subtask(task, s, j) && skipped(task, outs, s, j)
}

/// A test belongs to at most one subtask.
pub proof fn lemma_subtask_unique(task: &TaskConfig, s1: int, s2: int, j: int)
    requires
        in_subtask(task, s1, j),
        in_subtask(task, s2, j),
    ensures
        s1 == s2,
{
    if s1 < s2 {
        lemma_subtask_start_monotone(task.subtasks@, s1 + 1, s2);
    } else if s2 < s1 {
        lemma_subtask_start_monotone(task.subtasks@, s2 + 1, s1);
    }
}

/// Decides whether the test numbered `test_index` (counted from 1) is to be
/// run, from the outcomes of the tests before it: under the skip policy a test
/// is skipped once an earlier test of its subtask failed.
pub fn is_skipped(task: &TaskConfig, outs: &Vec<TestOutcome>, test_index: u64) -> (r: bool)
    requires
        task.wf(),
        1 <= test_index <= task.test_count(),
        test_index - 1 <= outs@.len(),
    ensures
        r == test_skipped(task, outs@, test_index - 1),
{
    let m = task.subtasks.len();
    if !task.skip || m == 0 {
        assert forall|s2: int| #[trigger] in_subtask(task, s2, test_index - 1) implies !skipped(
            task,
            outs@,
            s2,
            test_index - 1,
        ) by {}
        return false;
    }
    let total = outs.len();
    let j = (test_index - 1) as usize;
    let mut s: usize = 0;
    let mut start: u64 = 0;
    proof {
        lemma_subtask_start_monotone(task.subtasks@, 1, m as int);
    }
    while start + task.subtasks[s].num_testcases <= j as u64
        invariant
            m == task.subtasks@.len(),
            m > 0,
            0 <= s < m,
            start == subtask_start(task.subtasks@, s as int),
            start <= j,
            j < task.test_count(),
            task.test_count() == subtask_start(task.subtasks@, m as int),
            task.wf(),
            subtask_start(task.subtasks@, s + 1) <= subtask_start(task.subtasks@, m as int),
        decreases m - s,
    {
        proof {
            lemma_subtask_start_monotone(task.subtasks@, s + 1, m as int);
        }
        start = start + task.subtasks[s].num_testcases;
        s = s + 1;
        if s == m {
            assert(false);
        }
        proof {
            lemma_subtask_start_monotone(task.subtasks@, s + 1, m as int);
        }
    }
    proof {
        lemma_subtask_start_monotone(task.subtasks@, s + 1, m as int);
    }
    assert(in_subtask(task, s as int, j as int));
    let mut i: usize = start as usize;
    let mut failed = false;
    while i < j
        invariant
            start <= i <= j,
            j <= outs@.len(),
            failed == exists|k: int| #![trigger outs@[k]] start <= k < i && !accepted(outs@[k]),
        decreases j - i,
    {
        let o = outs[i];
        if !(o.verdict == RunVerdict::VerdictOK && o.checker_accepted) {
            failed = true;
        }
        i = i + 1;
    }
    proof {
        if !failed {
            assert forall|s2: int| #[trigger] in_subtask(task, s2, j as int) implies !skipped(
                task,
                outs@,
                s2,
                j as int,
            ) by {
                lemma_subtask_unique(task, s as int, s2, j as int);
            }
        } else {
            assert(skipped(task, outs@, s as int, j as int));
        }
    }
    failed
}


/// Every test counted from 0 below `subtask_start(t)` lies in one of the first `t` subtasks.
proof fn lemma_locate(task: &TaskConfig, j: int, t: int)
    requires
        0 <= j < subtask_start(task.subtasks@, t),
        0 <= t <= task.subtasks@.len(),
    ensures
        exists|s: int| 0 <= s < t && #[trigger] in_subtask(task, s, j),
    decreases t,
{
    if j >= subtask_start(task.subtasks@, t - 1) {
        assert(in_subtask(task, t - 1, j));
    } else {
        lemma_locate(task, j, t - 1);
    }
}

proof fn lemma_result_index(task: &TaskConfig, outs: Seq<TestOutcome>, jr: JudgeResult, j: int)
    requires
        graded(task, outs, jr),
        0 <= j < jr.result@.len(),
    ensures
        jr.result@[j].test_index == j + 1,
{
    if task.is_flat() {
        assert(flat_result_ok(task, outs, j, jr.result@[j]));
    } else {
        lemma_locate(task, j, task.subtasks@.len() as int);
        let s = choose|s: int| 0 <= s < task.subtasks@.len() && #[trigger] in_subtask(task, s, j);
        assert(subtask_result_ok(task, outs, s, j, jr.result@[j]));
    }
}

/// The results of a graded submission are in strictly increasing order of
/// test index, starting at 1.
pub proof fn law_test_index_increasing(task: &TaskConfig, outs: Seq<TestOutcome>, jr: JudgeResult)
    requires
        task.wf(),
        outs.len() == task.test_count(),
        graded(task, outs, jr),
    ensures
        forall|a: int, b: int|
            0 <= a < b < jr.result@.len() ==> #[trigger] jr.result@[a].test_index
                < #[trigger] jr.result@[b].test_index,
        jr.result@.len() > 0 ==> jr.result@[0].test_index == 1,
{
    assert forall|a: int, b: int| 0 <= a < b < jr.result@.len() implies #[trigger] jr.result@[a].test_index
        < #[trigger] jr.result@[b].test_index by {
        lemma_result_index(task, outs, jr, a);
        lemma_result_index(task, outs, jr, b);
    }
    if jr.result@.len() > 0 {
        lemma_result_index(task, outs, jr, 0);
    }
}

/// The names a test can be reported under differ from "Accepted" but for an
/// accepted test.
proof fn lemma_only_accepted_is_accepted(o: TestOutcome)
    ensures
        outcome_status(o) == "Accepted"@ <==> accepted(o),
        "Skipped"@ != "Accepted"@,
{
    reveal_strlit("Accepted");
    reveal_strlit("Wrong Answer");
    reveal_strlit("Time Limit Exceeded");
    reveal_strlit("Memory Limit Exceeded");
    reveal_strlit("Runtime Error");
    reveal_strlit("Signal Error");
    reveal_strlit("Internal Error");
    reveal_strlit("Skipped");
    reveal_strlit("");
    assert("Accepted"@.len() == 8);
    assert("Wrong Answer"@.len() != 8);
    assert("Time Limit Exceeded"@.len() != 8);
    assert("Memory Limit Exceeded"@.len() != 8);
    assert("Runtime Error"@.len() != 8);
    assert("Signal Error"@.len() != 8);
    assert("Internal Error"@.len() != 8);
    assert("Skipped"@.len() != 8);
    assert(""@.len() != 8);
}

/// In a subtask where some test is not reported "Accepted", every test scores
/// 0 and the subtask adds nothing to the score; a subtask whose tests are all
/// reported "Accepted" adds its full score. The submission's score is the sum
/// of what the subtasks add.
pub proof fn law_subtask_all_or_nothing(
    task: &TaskConfig,
    outs: Seq<TestOutcome>,
    jr: JudgeResult,
    s: int,
)
    requires
        task.wf(),
        outs.len() == task.test_count(),
        graded(task, outs, jr),
        0 <= s < task.subtasks@.len(),
    ensures
        (exists|j: int| #[trigger] in_subtask(task, s, j) && jr.result@[j].status@ != "Accepted"@)
            ==> {
            &&& forall|j: int| #[trigger] in_subtask(task, s, j) ==> jr.result@[j].score == 0
            &&& subtask_contribution(task, outs, s) == 0
        },
        (forall|j: int| #[trigger] in_subtask(task, s, j) ==> jr.result@[j].status@ == "Accepted"@)
            ==> subtask_contribution(task, outs, s) == task.subtasks@[s].full_score,
        jr.score == subtask_awarded(task, outs, task.subtasks@.len() as int),
{
    if exists|j: int| #[trigger] in_subtask(task, s, j) && jr.result@[j].status@ != "Accepted"@ {
        let j = choose|j: int| #[trigger] in_subtask(task, s, j) && jr.result@[j].status@ != "Accepted"@;
        assert(subtask_result_ok(task, outs, s, j, jr.result@[j]));
        lemma_only_accepted_is_accepted(outs[j]);
        if !skipped(task, outs, s, j) {
            assert(!accepted(outs[j]));
        }
        assert(!subtask_passed(task, outs, s));
        assert forall|j2: int| #[trigger] in_subtask(task, s, j2) implies jr.result@[j2].score == 0 by {
            assert(subtask_result_ok(task, outs, s, j2, jr.result@[j2]));
        }
    }
    if forall|j: int| #[trigger] in_subtask(task, s, j) ==> jr.result@[j].status@ == "Accepted"@ {
        assert forall|i: int|
            subtask_start(task.subtasks@, s) <= i < subtask_start(task.subtasks@, s + 1) implies accepted(
            #[trigger] outs[i],
        ) by {
            assert(in_subtask(task, s, i));
            assert(subtask_result_ok(task, outs, s, i, jr.result@[i]));
            lemma_only_accepted_is_accepted(outs[i]);
        }
    }
}


impl JudgeResult {
    /// The verdict of a submission whose task lacks a test's input or answer:
    /// nothing is run.
    pub fn testcases_error() -> (r: JudgeResult)
        ensures
            r.status@ == "Testcases Error"@,
            r.result@.len() == 0,
            r.score == 0,
            r.time == 0,
            r.memory == 0,
    {
        JudgeResult {
            result: Vec::new(),
            status: String::from_str("Testcases Error"),
            score: 0,
            time: 0,
            memory: 0,
        }
    }

    /// The verdict of a submission that did not compile: no test is run.
    pub fn compilation_error() -> (r: JudgeResult)
        ensures
            r.status@ == "Compilation Error"@,
            r.result@.len() == 0,
            r.score == 0,
            r.time == 0,
            r.memory == 0,
    {
        JudgeResult {
            result: Vec::new(),
            status: String::from_str("Compilation Error"),
            score: 0,
            time: 0,
            memory: 0,
        }
    }
}

/// Two results agree on everything that is reported of them.
pub open spec fn same_report(a: RunResult, b: RunResult) -> bool {
    &&& a.status@ == b.status@
    &&& a.test_index == b.test_index
    &&& a.subtask_index == b.subtask_index
    &&& a.score == b.score
    &&& a.time_ms == b.time_ms
    &&& a.memory_kb == b.memory_kb
}

proof fn lemma_maxima_agree(a: Seq<RunResult>, b: Seq<RunResult>)
    requires
        a.len() == b.len(),
        forall|j: int| 0 <= j < a.len() ==> #[trigger] same_report(a[j], b[j]),
    ensures
        max_time(a) == max_time(b),
        max_memory(a) == max_memory(b),
    decreases a.len(),
{
    if a.len() > 0 {
        assert forall|j: int| 0 <= j < a.len() - 1 implies #[trigger] same_report(
            a.drop_last()[j],
            b.drop_last()[j],
        ) by {
            assert(same_report(a[j], b[j]));
        }
        assert(same_report(a[a.len() - 1], b[b.len() - 1]));
        lemma_maxima_agree(a.drop_last(), b.drop_last());
    }
}

/// Grading is deterministic: given equal outcomes, two verdicts agree on the status,
/// score, time, memory and every test's result, which depend on the manifest and the
/// outcomes alone.
pub proof fn law_regrade_same_verdict(
    task: &TaskConfig,
    outs: Seq<TestOutcome>,
    a: JudgeResult,
    b: JudgeResult,
)
    requires
        task.wf(),
        outs.len() == task.test_count(),
        graded(task, outs, a),
        graded(task, outs, b),
    ensures
        a.status@ == b.status@,
        a.score == b.score,
        a.time == b.time,
        a.memory == b.memory,
        a.result@.len() == b.result@.len(),
        forall|j: int| 0 <= j < a.result@.len() ==> #[trigger] same_report(a.result@[j], b.result@[j]),
{
    assert forall|j: int| 0 <= j < a.result@.len() implies #[trigger] same_report(
        a.result@[j],
        b.result@[j],
    ) by {
        if task.is_flat() {
            assert(flat_result_ok(task, outs, j, a.result@[j]));
            assert(flat_result_ok(task, outs, j, b.result@[j]));
        } else {
            lemma_locate(task, j, task.subtasks@.len() as int);
            let s = choose|s: int| 0 <= s < task.subtasks@.len() && #[trigger] in_subtask(task, s, j);
            assert(subtask_result_ok(task, outs, s, j, a.result@[j]));
            assert(subtask_result_ok(task, outs, s, j, b.result@[j]));
        }
    }
    lemma_maxima_agree(a.result@, b.result@);
}


/// Some test of subtask `s` before test `j` failed.
spec fn failed_before(task: &TaskConfig, outs: Seq<TestOutcome>, s: int, j: int) -> bool {
    exists|i: int| #![trigger outs[i]] subtask_start(task.subtasks@, s) <= i < j && !accepted(outs[i])
}

/// Two lists of outcomes agree on every test that is run under the first.
pub open spec fn agree_where_run(task: &TaskConfig, a: Seq<TestOutcome>, b: Seq<TestOutcome>) -> bool {
    &&& a.len() == b.len()
    &&& forall|j: int| 0 <= j < a.len() && !test_skipped(task, a, j) ==> #[trigger] a[j] == b[j]
}

proof fn lemma_failed_before_agree(
    task: &TaskConfig,
    a: Seq<TestOutcome>,
    b: Seq<TestOutcome>,
    s: int,
    j: int,
)
    requires
        agree_where_run(task, a, b),
        a.len() == task.test_count(),
        !task.is_flat(),
        0 <= s < task.subtasks@.len(),
        subtask_start(task.subtasks@, s) <= j <= subtask_start(task.subtasks@, s + 1),
    ensures
        failed_before(task, a, s, j) == failed_before(task, b, s, j),
    decreases j - subtask_start(task.subtasks@, s),
{
    let start = subtask_start(task.subtasks@, s);
    if j > start {
        let k = j - 1;
        lemma_failed_before_agree(task, a, b, s, k);
        lemma_subtask_start_monotone(task.subtasks@, s + 1, task.subtasks@.len() as int);
        assert(in_subtask(task, s, k));
        if !failed_before(task, a, s, k) {
            assert forall|s2: int| #[trigger] in_subtask(task, s2, k) implies !skipped(task, a, s2, k) by {
                lemma_subtask_unique(task, s, s2, k);
            }
            assert(!test_skipped(task, a, k));
            assert(a[k] == b[k]);
        }
        if failed_before(task, a, s, j) && !failed_before(task, a, s, k) {
            assert(!accepted(a[k]));
        }
        if failed_before(task, b, s, j) && !failed_before(task, b, s, k) {
            assert(!accepted(b[k]));
        }
    }
}

proof fn lemma_subtask_agree(task: &TaskConfig, a: Seq<TestOutcome>, b: Seq<TestOutcome>, s: int)
    requires
        agree_where_run(task, a, b),
        a.len() == task.test_count(),
        !task.is_flat(),
        0 <= s < task.subtasks@.len(),
    ensures
        subtask_passed(task, a, s) == subtask_passed(task, b, s),
        forall|j: int|
            #[trigger] in_subtask(task, s, j) ==> skipped(task, a, s, j) == skipped(task, b, s, j),
        forall|j: int|
            #[trigger] in_subtask(task, s, j) && !skipped(task, a, s, j) ==> a[j] == b[j],
{
    let end = subtask_start(task.subtasks@, s + 1);
    lemma_failed_before_agree(task, a, b, s, end as int);
    assert forall|j: int| #[trigger] in_subtask(task, s, j) implies skipped(task, a, s, j) == skipped(
        task,
        b,
        s,
        j,
    ) by {
        lemma_failed_before_agree(task, a, b, s, j);
    }
    assert forall|j: int| #[trigger] in_subtask(task, s, j) && !skipped(task, a, s, j) implies a[j]
        == b[j] by {
        lemma_subtask_start_monotone(task.subtasks@, s + 1, task.subtasks@.len() as int);
        assert forall|s2: int| #[trigger] in_subtask(task, s2, j) implies !skipped(task, a, s2, j) by {
            lemma_subtask_unique(task, s, s2, j);
        }
    }
}

proof fn lemma_awarded_agree(task: &TaskConfig, a: Seq<TestOutcome>, b: Seq<TestOutcome>, s: int)
    requires
        agree_where_run(task, a, b),
        a.len() == task.test_count(),
        !task.is_flat(),
        0 <= s <= task.subtasks@.len(),
    ensures
        subtask_awarded(task, a, s) == subtask_awarded(task, b, s),
    decreases s,
{
    if s > 0 {
        lemma_awarded_agree(task, a, b, s - 1);
        lemma_subtask_agree(task, a, b, s - 1);
    }
}

/// The outcome given for a test that the skip policy leaves unrun is never
/// read: outcomes that agree on the tests that are run give the same verdict.
pub proof fn law_unrun_outcomes_unread(
    task: &TaskConfig,
    a: Seq<TestOutcome>,
    b: Seq<TestOutcome>,
    jr: JudgeResult,
)
    requires
        task.wf(),
        a.len() == task.test_count(),
        agree_where_run(task, a, b),
        graded(task, a, jr),
    ensures
        graded(task, b, jr),
{
    if task.is_flat() {
        assert forall|j: int| 0 <= j < a.len() implies a[j] == b[j] by {
            assert(!test_skipped(task, a, j));
        }
        assert(a =~= b);
    } else {
        assert forall|s: int, j: int| #[trigger] in_subtask(task, s, j) implies subtask_result_ok(
            task,
            b,
            s,
            j,
            jr.result@[j],
        ) by {
            lemma_subtask_agree(task, a, b, s);
            assert(subtask_result_ok(task, a, s, j, jr.result@[j]));
        }
        lemma_awarded_agree(task, a, b, task.subtasks@.len() as int);
    }
}

} // verus!
