use judge::meta::{parse_meta, IsolateResult, MetaError};
use judge::verdict::RunVerdict;

#[test]
fn oom_killed_overrides_status() {
    let r = parse_meta(b"status:RE\ncg-oom-killed:1\n", 262144).unwrap();
    assert_eq!(r.status, RunVerdict::VerdictMLE);
}

#[test]
fn memory_at_limit_is_mle() {
    let r = parse_meta(b"time:0.010\ncg-mem:1000\n", 1000).unwrap();
    assert_eq!(r.status, RunVerdict::VerdictMLE);
    let r = parse_meta(b"time:0.010\ncg-mem:999\n", 1000).unwrap();
    assert_eq!(r.status, RunVerdict::VerdictOK);
}

#[test]
fn clean_exit_without_status() {
    let meta = b"time:0.123\ntime-wall:0.200\nmax-rss:2048\ncg-mem:1536\nexitcode:0\n";
    let r = parse_meta(meta, 262144).unwrap();
    assert_eq!(r, IsolateResult { status: RunVerdict::VerdictOK, time_usage_ms: 123, memory_usage: 1536 });
}

#[test]
fn status_letters() {
    let s = |text: &str| parse_meta(text.as_bytes(), 1000).unwrap().status;
    assert_eq!(s("status:RE"), RunVerdict::VerdictRE);
    assert_eq!(s("status:SG"), RunVerdict::VerdictSG);
    assert_eq!(s("status:TO"), RunVerdict::VerdictTLE);
    assert_eq!(s("status:XX"), RunVerdict::VerdictXX);
    assert_eq!(s("status:ZZ"), RunVerdict::VerdictSG);
    assert_eq!(s("status:TO\r\n"), RunVerdict::VerdictTLE);
}

#[test]
fn oom_flag_reads_trimmed_value() {
    let r = parse_meta(b"cg-oom-killed: 1 \n", 1000).unwrap();
    assert_eq!(r.status, RunVerdict::VerdictMLE);
    let r = parse_meta(b"cg-oom-killed:0\n", 1000).unwrap();
    assert_eq!(r.status, RunVerdict::VerdictOK);
}

#[test]
fn time_is_cut_to_milliseconds() {
    let t = |text: &str| parse_meta(text.as_bytes(), 1000).unwrap().time_usage_ms;
    assert_eq!(t("time:1.5"), 1500);
    assert_eq!(t("time:0.0129"), 12);
    assert_eq!(t("time:2"), 2000);
    assert_eq!(t("time:.25"), 250);
    assert_eq!(t("time:+3."), 3000);
}

#[test]
fn bad_numbers_are_errors() {
    assert_eq!(parse_meta(b"time:fast\n", 1000), Err(MetaError));
    assert_eq!(parse_meta(b"cg-mem:-5\n", 1000), Err(MetaError));
    assert_eq!(parse_meta(b"cg-mem:\n", 1000), Err(MetaError));
    assert_eq!(parse_meta(b"cg-mem:99999999999999999999\n", 1000), Err(MetaError));
    assert_eq!(parse_meta(b"time:.\n", 1000), Err(MetaError));
}

#[test]
fn lines_without_colon_or_unknown_keys_are_ignored() {
    let r = parse_meta(b"garbage\nkilled:1\nmessage:Time limit exceeded:x\n\ncg-mem:+42\n", 1000).unwrap();
    assert_eq!(r, IsolateResult { status: RunVerdict::VerdictOK, time_usage_ms: 0, memory_usage: 42 });
}

#[test]
fn empty_meta_is_a_clean_run() {
    let r = parse_meta(b"", 1000).unwrap();
    assert_eq!(r, IsolateResult { status: RunVerdict::VerdictOK, time_usage_ms: 0, memory_usage: 0 });
}
