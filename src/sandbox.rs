use vstd::prelude::*;

use crate::config::{LanguageConfig, TaskConfig};
use crate::meta::{finish, initial_report, parse_meta, range_eq, scan_meta, IsolateResult, MetaError};
use crate::text::{
    decimal,
    decimal_text,
    replace_all,
    replace_text,
    seconds_text,
    seconds_text_of,
    split_on,
    split_spaces,
};
use crate::verdict::RunVerdict;

verus! {

/// The text of each string in `v`.
pub open spec fn texts(v: Seq<String>) -> Seq<Seq<char>> {
    v.map_values(|s: String| s@)
}

/// What an accepting checker prints: `Correct`, then `100`, each on its own line.
pub open spec fn accepting_output() -> Seq<u8> {
    seq![67u8, 111, 114, 114, 101, 99, 116, 10, 49, 48, 48, 10]
}

/// Whether the checker accepted: its standard output is exactly `Correct\n100\n`.
pub fn is_accepting_output(stdout: &[u8]) -> (r: bool)
    ensures
        r == (stdout@ == accepting_output()),
{
    let expected = vec![67u8, 111, 114, 114, 101, 99, 116, 10, 49, 48, 48, 10];
    assert(expected@ == accepting_output());
    assert(stdout@.subrange(0, stdout@.len() as int) =~= stdout@);
    range_eq(stdout, 0, stdout.len(), &expected)
}

/// One sandbox box and what a submission needs inside it.
pub struct Isolate {
    pub box_path: String,
    pub box_id: u64,
    pub time_limit_ms: u64,
    pub memory_limit: u64,
    pub task_id: String,
    pub ext: String,
    pub compile_script: String,
    pub run_script: String,
    pub checker: String,
}

impl Isolate {
    /// A box for a submission of `task` in `language`; the memory limit is
    /// the manifest's, multiplied by 1000. The box path is set by `set_box_root`.
    pub fn new(box_id: u64, task_id: String, task: &TaskConfig, language: LanguageConfig) -> (r: Isolate)
        requires
            task.wf(),
        ensures
            r.box_path@ == Seq::<char>::empty(),
            r.box_id == box_id,
            r.time_limit_ms == task.time_limit_ms,
            r.memory_limit == task.memory_limit_kb_spec(),
            r.task_id@ == task_id@,
            r.ext@ == language.ext@,
            r.compile_script@ == language.compile@,
            r.run_script@ == language.run@,
            r.checker@ == task.checker@,
    {
        Isolate {
            box_path: String::new(),
            box_id,
            time_limit_ms: task.time_limit_ms,
            memory_limit: task.memory_limit_kb(),
            task_id,
            ext: language.ext,
            compile_script: language.compile,
            run_script: language.run,
            checker: task.checker.clone(),
        }
    }

    /// The working directory of the box whose root the sandbox printed.
    pub fn set_box_root(&mut self, root: &str)
        ensures
            final(self).box_path@ == root@ + "/box"@,
            final(self).box_id == old(self).box_id,
            final(self).time_limit_ms == old(self).time_limit_ms,
            final(self).memory_limit == old(self).memory_limit,
            final(self).task_id == old(self).task_id,
            final(self).ext == old(self).ext,
            final(self).compile_script == old(self).compile_script,
            final(self).run_script == old(self).run_script,
            final(self).checker == old(self).checker,
    {
        self.box_path = String::from_str(root).concat("/box");
    }

    pub open spec fn box_id_arg(&self) -> Seq<char> {
        "--box-id="@ + decimal(self.box_id as nat)
    }

    /// Arguments to the sandbox that create the box.
    pub open spec fn init_args(&self) -> Seq<Seq<char>> {
        seq!["--cg"@, self.box_id_arg(), "--init"@]
    }

    /// Arguments to the sandbox that remove the box.
    pub open spec fn cleanup_args(&self) -> Seq<Seq<char>> {
        seq!["--cg"@, self.box_id_arg(), "--cleanup"@]
    }

    fn box_id_text(&self) -> (r: String)
        ensures
            r@ == self.box_id_arg(),
    {
        String::from_str("--box-id=").concat(decimal_text(self.box_id).as_str())
    }

    /// Arguments to the sandbox that create the box.
    pub fn init_command(&self) -> (r: Vec<String>)
        ensures
            texts(r@) == self.init_args(),
    {
        let r = vec![String::from_str("--cg"), self.box_id_text(), String::from_str("--init")];
        assert(texts(r@) =~= self.init_args());
        r
    }

    /// Arguments to the sandbox that remove the box.
    pub fn cleanup_command(&self) -> (r: Vec<String>)
        ensures
            texts(r@) == self.cleanup_args(),
    {
        let r = vec![String::from_str("--cg"), self.box_id_text(), String::from_str("--cleanup")];
        assert(texts(r@) =~= self.cleanup_args());
        r
    }

    /// Where the source file lies in the box.
    pub open spec fn source_path(&self) -> Seq<char> {
        self.box_path@ + "/source."@ + self.ext@
    }

    /// Where the source file lies in the box.
    pub fn source_file(&self) -> (r: String)
        ensures
            r@ == self.source_path(),
    {
        self.box_path.clone().concat("/source.").concat(self.ext.as_str())
    }

    /// The compile template with the source file and, but for Python, the
    /// output file filled in.
    pub open spec fn compile_line(&self) -> Seq<char> {
        let with_source = replace_all(self.compile_script@, "{source_file}"@, self.source_path());
        if self.ext@ == "py"@ {
            with_source
        } else {
            replace_all(with_source, "{output}"@, self.box_path@ + "/source"@)
        }
    }

    /// The compile command, program first, split on single spaces.
    pub fn compile_command(&self) -> (r: Vec<String>)
        ensures
            texts(r@) == split_on(self.compile_line(), ' '),
    {
        proof {
            reveal_strlit("{source_file}");
            reveal_strlit("{output}");
        }
        let source = self.source_file();
        let mut script = replace_text(self.compile_script.as_str(), "{source_file}", source.as_str());
        let py = String::from_str("py");
        if self.ext != py {
            let output = self.box_path.clone().concat("/source");
            script = replace_text(script.as_str(), "{output}", output.as_str());
        }
        let r = split_spaces(script.as_str());
        assert(texts(r@) =~= split_on(self.compile_line(), ' '));
        r
    }

    /// Arguments to the sandbox that run test `test_index` under the limits:
    /// the time limit, a wall-clock limit five seconds longer, one extra
    /// second of grace, the memory limit, the meta file, the test's input as
    /// standard input, and the run template split on single spaces.
    pub open spec fn run_args(&self, test_index: u64) -> Seq<Seq<char>> {
        seq![
            "--cg"@,
            self.box_id_arg(),
            "--time="@ + seconds_text(self.time_limit_ms as nat),
            "--wall-time="@ + seconds_text((self.time_limit_ms + 5000) as nat),
            "--extra-time="@ + seconds_text((self.time_limit_ms + 1000) as nat),
            "--cg-mem="@ + decimal(self.memory_limit as nat),
            "--meta="@ + self.box_path@ + "/meta.txt"@,
            "--stdin="@ + decimal(test_index as nat) + ".in"@,
            "--stdout=out.out"@,
            "--run"@,
            "--"@,
        ] + split_on(replace_all(self.run_script@, "{source}"@, "source"@), ' ')
    }

    /// Arguments to the sandbox that run test `test_index`.
    pub fn run_command(&self, test_index: u64) -> (r: Vec<String>)
        requires
            self.time_limit_ms <= u64::MAX - 5000,
        ensures
            texts(r@) == self.run_args(test_index),
    {
        proof {
            reveal_strlit("{source}");
        }
        let mut r = vec![
            String::from_str("--cg"),
            self.box_id_text(),
            String::from_str("--time=").concat(seconds_text_of(self.time_limit_ms).as_str()),
            String::from_str("--wall-time=").concat(seconds_text_of(self.time_limit_ms + 5000).as_str()),
            String::from_str("--extra-time=").concat(seconds_text_of(self.time_limit_ms + 1000).as_str()),
            String::from_str("--cg-mem=").concat(decimal_text(self.memory_limit).as_str()),
            String::from_str("--meta=").concat(self.box_path.as_str()).concat("/meta.txt"),
            String::from_str("--stdin=").concat(decimal_text(test_index).as_str()).concat(".in"),
            String::from_str("--stdout=out.out"),
            String::from_str("--run"),
            String::from_str("--"),
        ];
        let script = replace_text(self.run_script.as_str(), "{source}", "source");
        let mut program = split_spaces(script.as_str());
        let ghost head = r@;
        let ghost tail = program@;
        r.append(&mut program);
        assert(texts(r@) =~= texts(head) + texts(tail));
        assert(texts(r@) =~= self.run_args(test_index));
        r
    }

    /// The checker's command: its path under `checker_dir`, then the test's
    /// input, the program's output and the reference answer, all in the box.
    pub open spec fn check_args(&self, checker_dir: Seq<char>, test_index: u64) -> Seq<Seq<char>> {
        seq![
            checker_dir + "/"@ + self.checker@,
            self.box_path@ + "/"@ + decimal(test_index as nat) + ".in"@,
            self.box_path@ + "/out.out"@,
            self.box_path@ + "/"@ + decimal(test_index as nat) + ".sol"@,
        ]
    }

    /// The checker's command for test `test_index`.
    pub fn check_command(&self, checker_dir: &str, test_index: u64) -> (r: Vec<String>)
        ensures
            texts(r@) == self.check_args(checker_dir@, test_index),
    {
        let index = decimal_text(test_index);
        let r = vec![
            String::from_str(checker_dir).concat("/").concat(self.checker.as_str()),
            self.box_path.clone().concat("/").concat(index.as_str()).concat(".in"),
            self.box_path.clone().concat("/out.out"),
            self.box_path.clone().concat("/").concat(index.as_str()).concat(".sol"),
        ];
        assert(texts(r@) =~= self.check_args(checker_dir@, test_index));
        r
    }

    /// The result of compiling: a compile that failed is a compilation error.
    pub fn compile_result(success: bool) -> (r: IsolateResult)
        ensures
            r.status == (if success {
                RunVerdict::VerdictOK
            } else {
                RunVerdict::CompilationError
            }),
            r.time_usage_ms == 0,
            r.memory_usage == 0,
    {
        IsolateResult {
            status: if success {
                RunVerdict::VerdictOK
            } else {
                RunVerdict::CompilationError
            },
            time_usage_ms: 0,
            memory_usage: 0,
        }
    }

    /// Reads the meta file of the last run against this box's memory limit.
    pub fn get_result(&self, meta: &[u8]) -> (r: Result<IsolateResult, MetaError>)
        ensures
            match scan_meta(meta@, initial_report()) {
                Some(st) => r == Ok::<IsolateResult, MetaError>(finish(st, self.memory_limit)),
                None => r.is_err(),
            },
    {
        parse_meta(meta, self.memory_limit)
    }
}

} // verus!
