use judge::config::{LanguageConfig, TaskConfig};
use judge::sandbox::{is_accepting_output, Isolate};
use judge::verdict::RunVerdict;

fn isolate(ext: &str, compile: &str, run: &str) -> Isolate {
    let task = TaskConfig {
        time_limit_ms: 1500,
        memory_limit: 256,
        checker: "diff".to_string(),
        skip: false,
        full_score: 100,
        num_testcases: 1,
        subtasks: vec![],
    };
    let language = LanguageConfig { ext: ext.to_string(), compile: compile.to_string(), run: run.to_string() };
    let mut b = Isolate::new(7, "t1".to_string(), &task, language);
    b.set_box_root("/var/local/lib/isolate/7");
    b
}

#[test]
fn checker_accepts_exact_output_only() {
    assert!(is_accepting_output(b"Correct\n100\n"));
    assert!(!is_accepting_output(b"Correct\n100"));
    assert!(!is_accepting_output(b"Correct\n100\n\n"));
    assert!(!is_accepting_output(b"Wrong\n0\n"));
    assert!(!is_accepting_output(b""));
    assert!(!is_accepting_output(&[0xff, 0xfe]));
}

#[test]
fn new_box_scales_memory_limit() {
    let b = isolate("cpp", "g++ {source_file} -o {output}", "{source}");
    assert_eq!(b.memory_limit, 256000);
    assert_eq!(b.box_path, "/var/local/lib/isolate/7/box");
    assert_eq!(b.checker, "diff");
}

#[test]
fn compile_command_fills_template() {
    let b = isolate("cpp", "g++ -O2 {source_file} -o {output}", "{source}");
    assert_eq!(
        b.compile_command(),
        vec![
            "g++",
            "-O2",
            "/var/local/lib/isolate/7/box/source.cpp",
            "-o",
            "/var/local/lib/isolate/7/box/source"
        ]
    );
}

#[test]
fn compile_command_keeps_output_for_python() {
    let b = isolate("py", "python3 -m py_compile {source_file} {output}", "/usr/bin/python3 {source}.py");
    assert_eq!(
        b.compile_command(),
        vec!["python3", "-m", "py_compile", "/var/local/lib/isolate/7/box/source.py", "{output}"]
    );
}

#[test]
fn run_command_sets_limits() {
    let b = isolate("py", "true", "/usr/bin/python3  {source}.py");
    assert_eq!(
        b.run_command(3),
        vec![
            "--cg",
            "--box-id=7",
            "--time=1.500",
            "--wall-time=6.500",
            "--extra-time=2.500",
            "--cg-mem=256000",
            "--meta=/var/local/lib/isolate/7/box/meta.txt",
            "--stdin=3.in",
            "--stdout=out.out",
            "--run",
            "--",
            "/usr/bin/python3",
            "",
            "source.py"
        ]
    );
}

#[test]
fn check_command_names_files() {
    let b = isolate("cpp", "true", "{source}");
    assert_eq!(
        b.check_command("/srv/checker", 12),
        vec![
            "/srv/checker/diff",
            "/var/local/lib/isolate/7/box/12.in",
            "/var/local/lib/isolate/7/box/out.out",
            "/var/local/lib/isolate/7/box/12.sol"
        ]
    );
}

#[test]
fn init_and_cleanup_commands() {
    let b = isolate("cpp", "true", "{source}");
    assert_eq!(b.init_command(), vec!["--cg", "--box-id=7", "--init"]);
    assert_eq!(b.cleanup_command(), vec!["--cg", "--box-id=7", "--cleanup"]);
}

#[test]
fn meta_is_read_against_box_limit() {
    let b = isolate("cpp", "true", "{source}");
    let r = b.get_result(b"status:RE\ncg-mem:256000\n").unwrap();
    assert_eq!(r.status, RunVerdict::VerdictMLE);
    let r = b.get_result(b"status:RE\ncg-mem:1000\n").unwrap();
    assert_eq!(r.status, RunVerdict::VerdictRE);
}
