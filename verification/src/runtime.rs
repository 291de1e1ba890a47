//! The batch driver's pending state and its execution plan: one task unit
//! per configuration, each with the file paths its generator/solver pair
//! will use, plus the completion notice text and the worker-pool bound.
use crate::config::Config;
use crate::config::spec_generate_name;
use crate::config::ConfigView;
use crate::text::dec_str;
use crate::text::u64_to_string;
use vstd::prelude::*;
use vstd::string::StringExecFns;

verus! {

/// One unit of work: a configuration together with the input and output
/// file paths its generator/solver pair uses.
pub struct TaskUnit {
    pub config: Config,
    pub input_path: String,
    pub output_path: String,
}

/// The batch driver: a base output name and the configurations
/// accumulated so far. One-shot: turning it into its task units
/// consumes it.
pub struct Executor {
    name: String,
    config: Vec<Config>,
}

/// Spec-level image of an `Executor`.
pub struct ExecutorView {
    pub name: Seq<char>,
    pub configs: Seq<Config>,
}

impl View for Executor {
    type V = ExecutorView;

    closed spec fn view(&self) -> ExecutorView {
        ExecutorView { name: self.name@, configs: self.config@ }
    }
}

/// The completion notice for one finished configuration:
/// `Testcase {subtask}-{id} Generated`, or `Testcase {id} Generated`
/// without a subtask.
pub open spec fn spec_notice(c: ConfigView) -> Seq<char> {
    match c.subtask_id {
        Some(st) => "Testcase "@ + dec_str(st as nat) + "-"@ + dec_str(c.id as nat)
            + " Generated"@,
        None => "Testcase "@ + dec_str(c.id as nat) + " Generated"@,
    }
}

/// The completion notice text for a finished configuration.
pub fn completion_notice(config: &Config) -> (r: String)
    ensures
        r@ == spec_notice(config@),
{
    let mut s = "Testcase ".to_owned();
    match config.subtask_id() {
        Some(st) => {
            let st_str = u64_to_string(st as u64);
            s.append(st_str.as_str());
            s.append("-");
        },
        None => {},
    }
    let id_str = u64_to_string(config.id() as u64);
    s.append(id_str.as_str());
    s.append(" Generated");
    proof {
        assert(s@ =~= spec_notice(config@));
    }
    s
}

/// The number of workers a pool for `thread_num` is built with: at
/// least one.
pub fn pool_size(thread_num: usize) -> (r: usize)
    ensures
        r == if thread_num >= 1 {
            thread_num as int
        } else {
            1
        },
{
    if thread_num >= 1 {
        thread_num
    } else {
        1
    }
}

impl Executor {
    /// A driver for the given base output name, with no configurations.
    pub fn new(name: &str) -> (r: Self)
        ensures
            r@.name == name@,
            r@.configs == Seq::<Config>::empty(),
    {
        Self { name: name.to_owned(), config: Vec::new() }
    }

    /// Appends one configuration to the pending set (no uniqueness
    /// check: distinct identities are the caller's obligation).
    pub fn testcase(&mut self, config: Config)
        ensures
            final(self)@.name == old(self)@.name,
            final(self)@.configs == old(self)@.configs.push(config),
    {
        self.config.push(config)
    }

    /// The execution plan: exactly one task unit per accumulated
    /// configuration, in order, with the input path named `{base}{ids}.in`
    /// and the output path `{base}{ids}.out`. Consumes the driver, so a
    /// plan can be made only once.
    pub fn into_units(self) -> (r: Vec<TaskUnit>)
        ensures
            r@.len() == self@.configs.len(),
            forall|i: int|
                0 <= i < r@.len() ==> {
                    &&& (#[trigger] r@[i]).config == self@.configs[i]
                    &&& r@[i].input_path@ == spec_generate_name(
                        self@.configs[i]@,
                        self@.name,
                        "in"@,
                    )
                    &&& r@[i].output_path@ == spec_generate_name(
                        self@.configs[i]@,
                        self@.name,
                        "out"@,
                    )
                },
    {
        let ghost cfgs = self.config@;
        let Executor { name, config } = self;
        let mut config = config;
        let mut rev: Vec<Config> = Vec::new();
        while config.len() > 0
            invariant
                config@.len() + rev@.len() == cfgs.len(),
                forall|i: int| 0 <= i < config@.len() ==> #[trigger] config@[i] == cfgs[i],
                forall|j: int|
                    0 <= j < rev@.len() ==> #[trigger] rev@[j] == cfgs[cfgs.len() - 1 - j],
            decreases config@.len(),
        {
            let c = config.pop().unwrap();
            rev.push(c);
        }
        let mut units: Vec<TaskUnit> = Vec::new();
        while rev.len() > 0
            invariant
                units@.len() + rev@.len() == cfgs.len(),
                forall|j: int|
                    0 <= j < rev@.len() ==> #[trigger] rev@[j] == cfgs[cfgs.len() - 1 - j],
                forall|i: int|
                    0 <= i < units@.len() ==> {
                        &&& (#[trigger] units@[i]).config == cfgs[i]
                        &&& units@[i].input_path@ == spec_generate_name(cfgs[i]@, name@, "in"@)
                        &&& units@[i].output_path@ == spec_generate_name(cfgs[i]@, name@, "out"@)
                    },
            decreases rev@.len(),
        {
            let c = rev.pop().unwrap();
            let input_path = c.generate_name(name.as_str(), "in");
            let output_path = c.generate_name(name.as_str(), "out");
            units.push(TaskUnit { config: c, input_path, output_path });
        }
        units
    }
}

} // verus!
