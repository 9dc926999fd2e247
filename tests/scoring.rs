use judge::config::{Subtask, TaskConfig};
use judge::meta::IsolateResult;
use judge::sandbox::Isolate;
use judge::scoring::{grade, is_skipped, JudgeResult, TestOutcome};
use judge::verdict::{get_status, RunVerdict};

fn task(full_score: u64, num_testcases: u64, subtasks: Vec<Subtask>, skip: bool) -> TaskConfig {
    TaskConfig {
        time_limit_ms: 1000,
        memory_limit: 256,
        checker: "checker".to_string(),
        skip,
        full_score,
        num_testcases,
        subtasks,
    }
}

fn accepted(time_ms: u64, memory_kb: u64) -> TestOutcome {
    TestOutcome { verdict: RunVerdict::VerdictOK, checker_accepted: true, time_ms, memory_kb }
}

fn wrong(time_ms: u64, memory_kb: u64) -> TestOutcome {
    TestOutcome { verdict: RunVerdict::VerdictOK, checker_accepted: false, time_ms, memory_kb }
}

fn not_run() -> TestOutcome {
    TestOutcome { verdict: RunVerdict::VerdictXX, checker_accepted: false, time_ms: 0, memory_kb: 0 }
}

/// Runs the tests in order as a worker does, asking before each whether it is skipped.
fn judge_in_order(task: &TaskConfig, run: &[TestOutcome]) -> (JudgeResult, Vec<u64>) {
    let mut outs = Vec::new();
    let mut ran = Vec::new();
    for (k, o) in run.iter().enumerate() {
        let index = k as u64 + 1;
        if is_skipped(task, &outs, index) {
            outs.push(not_run());
        } else {
            ran.push(index);
            outs.push(*o);
        }
    }
    (grade(task, &outs), ran)
}

#[test]
fn flat_all_accepted() {
    let t = task(100, 4, vec![], false);
    assert!(t.is_valid());
    let outs = vec![accepted(10, 100); 4];
    let r = grade(&t, &outs);
    assert_eq!(r.status, "Completed");
    assert_eq!(r.score, 100);
    assert_eq!(r.result.len(), 4);
    for (k, x) in r.result.iter().enumerate() {
        assert_eq!(x.score, 25);
        assert_eq!(x.status, "Accepted");
        assert_eq!(x.test_index, k as u64 + 1);
        assert_eq!(x.subtask_index, 0);
    }
}

#[test]
fn flat_one_wrong() {
    let t = task(100, 4, vec![], false);
    let outs = vec![accepted(10, 100), accepted(10, 100), wrong(10, 100), accepted(10, 100)];
    let r = grade(&t, &outs);
    assert_eq!(r.status, "Completed");
    assert_eq!(r.score, 75);
    assert_eq!(r.result[2].status, "Wrong Answer");
    assert_eq!(r.result[2].score, 0);
    assert_eq!(r.result[2].test_index, 3);
}

#[test]
fn subtasks_with_skip() {
    let subtasks = vec![
        Subtask { full_score: 40, num_testcases: 2 },
        Subtask { full_score: 60, num_testcases: 3 },
    ];
    let t = task(100, 5, subtasks, true);
    assert!(t.is_valid());
    let tle = TestOutcome { verdict: RunVerdict::VerdictTLE, checker_accepted: false, time_ms: 1000, memory_kb: 50 };
    let run = [accepted(5, 10), accepted(6, 11), accepted(7, 12), tle, accepted(8, 13)];
    let (r, ran) = judge_in_order(&t, &run);
    assert_eq!(ran, vec![1, 2, 3, 4]);
    assert_eq!(r.score, 40);
    assert_eq!(r.result.len(), 5);
    assert_eq!(r.result[0].score, 20);
    assert_eq!(r.result[1].score, 20);
    assert_eq!(r.result[0].subtask_index, 1);
    assert_eq!(r.result[2].subtask_index, 2);
    assert_eq!(r.result[2].status, "Accepted");
    assert_eq!(r.result[2].score, 0);
    assert_eq!(r.result[3].status, "Time Limit Exceeded");
    assert_eq!(r.result[3].score, 0);
    assert_eq!(r.result[4].status, "Skipped");
    assert_eq!(r.result[4].score, 0);
    assert_eq!(r.result[4].time_ms, 0);
    assert_eq!(r.result[4].memory_kb, 0);
    assert_eq!(r.time, 1000);
    assert_eq!(r.memory, 50);
}

#[test]
fn subtasks_without_skip_run_every_test() {
    let subtasks = vec![Subtask { full_score: 30, num_testcases: 3 }];
    let t = task(100, 3, subtasks, false);
    let run = [wrong(1, 1), accepted(2, 2), accepted(3, 3)];
    let (r, ran) = judge_in_order(&t, &run);
    assert_eq!(ran, vec![1, 2, 3]);
    assert_eq!(r.score, 0);
    assert!(r.result.iter().all(|x| x.score == 0));
    assert_eq!(r.result[1].status, "Accepted");
}

#[test]
fn test_indices_increase_from_one() {
    let subtasks = vec![
        Subtask { full_score: 10, num_testcases: 1 },
        Subtask { full_score: 20, num_testcases: 2 },
        Subtask { full_score: 70, num_testcases: 3 },
    ];
    let t = task(100, 6, subtasks, true);
    let outs = vec![accepted(1, 1); 6];
    let r = grade(&t, &outs);
    let indices: Vec<u64> = r.result.iter().map(|x| x.test_index).collect();
    assert_eq!(indices, vec![1, 2, 3, 4, 5, 6]);
    let subs: Vec<u64> = r.result.iter().map(|x| x.subtask_index).collect();
    assert_eq!(subs, vec![1, 2, 2, 3, 3, 3]);
    assert_eq!(r.score, 100);
}

#[test]
fn aggregates_are_maxima() {
    let t = task(90, 3, vec![], false);
    let outs = vec![accepted(120, 300), wrong(450, 100), accepted(30, 900)];
    let r = grade(&t, &outs);
    assert_eq!(r.time, 450);
    assert_eq!(r.memory, 900);
    assert_eq!(r.score, 60);
}

#[test]
fn verdict_names_in_results() {
    let t = task(50, 5, vec![], false);
    let v = |verdict| TestOutcome { verdict, checker_accepted: false, time_ms: 0, memory_kb: 0 };
    let outs = vec![
        v(RunVerdict::VerdictTLE),
        v(RunVerdict::VerdictMLE),
        v(RunVerdict::VerdictRE),
        v(RunVerdict::VerdictSG),
        v(RunVerdict::VerdictXX),
    ];
    let r = grade(&t, &outs);
    let names: Vec<&str> = r.result.iter().map(|x| x.status.as_str()).collect();
    assert_eq!(
        names,
        vec!["Time Limit Exceeded", "Memory Limit Exceeded", "Runtime Error", "Signal Error", "Internal Error"]
    );
    assert_eq!(r.score, 0);
}

#[test]
fn status_names() {
    assert_eq!(get_status(RunVerdict::VerdictOK), "Accepted");
    assert_eq!(get_status(RunVerdict::VerdictTLE), "Time Limit Exceeded");
    assert_eq!(get_status(RunVerdict::CompilationError), "");
    assert_eq!(RunVerdict::default(), RunVerdict::VerdictOK);
}

#[test]
fn flat_without_tests() {
    let t = task(100, 0, vec![], false);
    let r = grade(&t, &vec![]);
    assert_eq!(r.status, "Completed");
    assert_eq!(r.score, 0);
    assert!(r.result.is_empty());
}

#[test]
fn regrading_gives_the_same_verdict() {
    let subtasks = vec![Subtask { full_score: 40, num_testcases: 2 }, Subtask { full_score: 60, num_testcases: 2 }];
    let t = task(100, 4, subtasks, true);
    let outs = vec![accepted(3, 4), wrong(5, 6), not_run(), accepted(7, 8)];
    let a = grade(&t, &outs);
    let b = grade(&t, &outs);
    assert_eq!(a.score, b.score);
    assert_eq!(a.status, b.status);
    for (x, y) in a.result.iter().zip(b.result.iter()) {
        assert_eq!(x.status, y.status);
        assert_eq!(x.score, y.score);
    }
}

#[test]
fn compile_error_short_circuit() {
    let compiled = Isolate::compile_result(false);
    assert_eq!(compiled.status, RunVerdict::CompilationError);
    let r = JudgeResult::compilation_error();
    assert_eq!(r.status, "Compilation Error");
    assert!(r.result.is_empty());
    assert_eq!(r.score, 0);
    assert_eq!(Isolate::compile_result(true), IsolateResult { status: RunVerdict::VerdictOK, time_usage_ms: 0, memory_usage: 0 });
}

#[test]
fn missing_testcase_short_circuit() {
    let r = JudgeResult::testcases_error();
    assert_eq!(r.status, "Testcases Error");
    assert!(r.result.is_empty());
    assert_eq!((r.score, r.time, r.memory), (0, 0, 0));
}

#[test]
fn manifest_that_overflows_is_invalid() {
    let subtasks = vec![Subtask { full_score: u64::MAX, num_testcases: 1 }, Subtask { full_score: 1, num_testcases: 1 }];
    assert!(!task(0, 2, subtasks, false).is_valid());
    let mut t = task(0, 0, vec![], false);
    t.memory_limit = u64::MAX;
    assert!(!t.is_valid());
    t.memory_limit = 512;
    assert!(t.is_valid());
    assert_eq!(t.memory_limit_kb(), 512000);
}
