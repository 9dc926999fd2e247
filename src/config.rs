use vstd::prelude::*;

verus! {

/// How a language is compiled and run. The templates hold the placeholders
/// `{source_file}`, `{output}` and `{source}`.
pub struct LanguageConfig {
    pub ext: String,
    pub compile: String,
    pub run: String,
}

/// One entry of the language table: a language's name and its profile.
pub struct LanguageEntry {
    pub name: String,
    pub profile: LanguageConfig,
}

/// Settings of the judge itself.
#[derive(Clone, Copy, Debug, PartialEq, Eq, Structural)]
pub struct JudgeConfig {
    pub max_worker: u64,
}

/// The global configuration: the languages that submissions may use, and the
/// judge's settings.
pub struct Config {
    pub language: Vec<LanguageEntry>,
    pub judge: JudgeConfig,
}

/// A submission names a language that the configuration does not know.
#[derive(Clone, Copy, Debug, PartialEq, Eq, Structural)]
pub enum ConfigError {
    UnsupportedLanguage,
}

impl ConfigError {
    /// The message reported to whoever made the request.
    pub fn message(&self) -> (r: String)
        ensures
            r@ == "Unsupported language"@,
    {
        String::from_str("Unsupported language")
    }
}

impl Config {
    /// No language is listed twice.
    pub open spec fn wf(&self) -> bool {
        forall|a: int, b: int|
            0 <= a < b < self.language@.len() ==> #[trigger] self.language@[a].name@
                != #[trigger] self.language@[b].name@
    }

    /// Checks that no language is listed twice.
    pub fn is_valid(&self) -> (r: bool)
        ensures
            r == self.wf(),
    {
        let n = self.language.len();
        let mut b: usize = 0;
        while b < n
            invariant
                n == self.language@.len(),
                0 <= b <= n,
                forall|x: int, y: int|
                    0 <= x < y < b ==> #[trigger] self.language@[x].name@
                        != #[trigger] self.language@[y].name@,
            decreases n - b,
        {
            let mut a: usize = 0;
            while a < b
                invariant
                    n == self.language@.len(),
                    0 <= a <= b < n,
                    forall|x: int, y: int|
                        0 <= x < y < b ==> #[trigger] self.language@[x].name@
                            != #[trigger] self.language@[y].name@,
                    forall|x: int| 0 <= x < a ==> #[trigger] self.language@[x].name@ != self.language@[b as int].name@,
                decreases b - a,
            {
                if self.language[a].name == self.language[b].name {
                    return false;
                }
                a = a + 1;
            }
            b = b + 1;
        }
        true
    }

    /// The language table holds `name`.
    pub open spec fn supports(&self, name: Seq<char>) -> bool {
        exists|i: int| 0 <= i < self.language@.len() && #[trigger] self.language@[i].name@ == name
    }
}

/// The judge's settings.
pub fn get_judge_config(config: &Config) -> (r: JudgeConfig)
    ensures
        r == config.judge,
{
    config.judge
}

/// The profile of `language`, copied out of the language table.
pub fn get_language_config(config: &Config, language: &str) -> (r: Result<LanguageConfig, ConfigError>)
    requires
        config.wf(),
    ensures
        config.supports(language@) <==> r is Ok,
        r is Err ==> r == Err::<LanguageConfig, ConfigError>(ConfigError::UnsupportedLanguage),
        forall|i: int|
            0 <= i < config.language@.len() && #[trigger] config.language@[i].name@ == language@
                ==> {
                let p = config.language@[i].profile;
                &&& r->Ok_0.ext@ == p.ext@
                &&& r->Ok_0.compile@ == p.compile@
                &&& r->Ok_0.run@ == p.run@
            },
{
    let wanted = String::from_str(language);
    let mut i: usize = 0;
    while i < config.language.len()
        invariant
            config.wf(),
            0 <= i <= config.language@.len(),
            wanted@ == language@,
            forall|k: int| 0 <= k < i ==> #[trigger] config.language@[k].name@ != language@,
        decreases config.language@.len() - i,
    {
        let entry = &config.language[i];
        if entry.name == wanted {
            let r = LanguageConfig {
                ext: entry.profile.ext.clone(),
                compile: entry.profile.compile.clone(),
                run: entry.profile.run.clone(),
            };
            assert forall|k: int|
                0 <= k < config.language@.len() && #[trigger] config.language@[k].name@ == language@
                implies k == i by {
                if k != i {
                    if k < i {
                        assert(config.language@[k].name@ != config.language@[i as int].name@);
                    } else {
                        assert(config.language@[i as int].name@ != config.language@[k].name@);
                    }
                }
            }
            return Ok(r);
        }
        i = i + 1;
    }
    Err(ConfigError::UnsupportedLanguage)
}

/// One group of consecutive tests, scored all-or-nothing.
#[derive(Clone, Copy, Debug, PartialEq, Eq, Structural)]
pub struct Subtask {
    pub full_score: u64,
    pub num_testcases: u64,
}

/// The limits and scoring layout of a task.
///
/// The time limit is held in milliseconds; the memory limit is in the
/// manifest's unit, which the sandbox receives multiplied by 1000.
pub struct TaskConfig {
    pub time_limit_ms: u64,
    pub memory_limit: u64,
    pub checker: String,
    pub skip: bool,
    pub full_score: u64,
    pub num_testcases: u64,
    pub subtasks: Vec<Subtask>,
}

/// Index of the first test of subtask `s`: the sizes of the subtasks before it, summed.
pub open spec fn subtask_start(subs: Seq<Subtask>, s: int) -> nat
    decreases s,
{
    if s <= 0 {
        0
    } else {
        (subtask_start(subs, s - 1) + subs[s - 1].num_testcases) as nat
    }
}

/// The full scores of the first `s` subtasks, summed.
pub open spec fn subtask_score_total(subs: Seq<Subtask>, s: int) -> nat
    decreases s,
{
    if s <= 0 {
        0
    } else {
        (subtask_score_total(subs, s - 1) + subs[s - 1].full_score) as nat
    }
}

/// Starts of subtasks never decrease.
pub proof fn lemma_subtask_start_monotone(subs: Seq<Subtask>, a: int, b: int)
    requires
        0 <= a <= b,
    ensures
        subtask_start(subs, a) <= subtask_start(subs, b),
    decreases b - a,
{
    if a < b {
        lemma_subtask_start_monotone(subs, a, b - 1);
    }
}

/// Score totals never decrease.
pub proof fn lemma_subtask_score_total_monotone(subs: Seq<Subtask>, a: int, b: int)
    requires
        0 <= a <= b,
    ensures
        subtask_score_total(subs, a) <= subtask_score_total(subs, b),
    decreases b - a,
{
    if a < b {
        lemma_subtask_score_total_monotone(subs, a, b - 1);
    }
}

impl TaskConfig {
    /// Whether the flat layout is used (no subtasks).
    pub open spec fn is_flat(&self) -> bool {
        self.subtasks@.len() == 0
    }

    /// How many tests a submission runs.
    pub open spec fn test_count(&self) -> nat {
        if self.is_flat() {
            self.num_testcases as nat
        } else {
            subtask_start(self.subtasks@, self.subtasks@.len() as int)
        }
    }

    /// The memory limit handed to the sandbox, in kilobytes.
    pub open spec fn memory_limit_kb_spec(&self) -> int {
        self.memory_limit * 1000
    }

    /// Test counts, score totals and the scaled memory limit all fit in a `u64`.
    pub open spec fn wf(&self) -> bool {
        &&& subtask_start(self.subtasks@, self.subtasks@.len() as int) <= u64::MAX
        &&& subtask_score_total(self.subtasks@, self.subtasks@.len() as int) <= u64::MAX
        &&& self.memory_limit_kb_spec() <= u64::MAX
    }

    /// Checks that the manifest's numbers fit the judge's counters.
    pub fn is_valid(&self) -> (r: bool)
        ensures
            r == self.wf(),
    {
        let n = self.subtasks.len();
        let mut tests: u64 = 0;
        let mut scores: u64 = 0;
        let mut i: usize = 0;
        while i < n
            invariant
                n == self.subtasks@.len(),
                0 <= i <= n,
                tests == subtask_start(self.subtasks@, i as int),
                scores == subtask_score_total(self.subtasks@, i as int),
            decreases n - i,
        {
            let st = self.subtasks[i];
            if tests > u64::MAX - st.num_testcases || scores > u64::MAX - st.full_score {
                proof {
                    lemma_subtask_start_monotone(self.subtasks@, i + 1, n as int);
                    lemma_subtask_score_total_monotone(self.subtasks@, i + 1, n as int);
                }
                return false;
            }
            tests = tests + st.num_testcases;
            scores = scores + st.full_score;
            i = i + 1;
        }
        self.memory_limit <= u64::MAX / 1000
    }

    /// How many tests a submission runs.
    pub fn total_tests(&self) -> (r: u64)
        requires
            self.wf(),
        ensures
            r == self.test_count(),
    {
        if self.subtasks.len() == 0 {
            return self.num_testcases;
        }
        let n = self.subtasks.len();
        let mut total: u64 = 0;
        let mut i: usize = 0;
        while i < n
            invariant
                n == self.subtasks@.len(),
                0 <= i <= n,
                total == subtask_start(self.subtasks@, i as int),
                subtask_start(self.subtasks@, n as int) <= u64::MAX,
            decreases n - i,
        {
            proof {
                lemma_subtask_start_monotone(self.subtasks@, i + 1, n as int);
            }
            total = total + self.subtasks[i].num_testcases;
            i = i + 1;
        }
        total
    }

    /// The memory limit handed to the sandbox, in kilobytes.
    pub fn memory_limit_kb(&self) -> (r: u64)
        requires
            self.wf(),
        ensures
            r == self.memory_limit_kb_spec(),
    {
        self.memory_limit * 1000
    }
}

} // verus!
