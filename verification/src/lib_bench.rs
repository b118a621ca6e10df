//! The configuration of a library benchmark.

use vstd::prelude::*;
use crate::common::{
    as_flags, with_tool, with_tools, FlamegraphConfig, OutputFormat, RawArgs, Tool, Tools,
    ValgrindTool,
};
use crate::regression::RegressionConfig;
use crate::text::string_views;

verus! {

/// What is configured for a library benchmark, a group of them or a whole file.
#[derive(Debug)]
pub struct LibraryBenchmarkConfig {
    pub env_clear: Option<bool>,
    pub valgrind_args: RawArgs,
    pub callgrind_args: RawArgs,
    /// Environment variables: with a value to set, without one to pass through.
    pub envs: Vec<(String, Option<String>)>,
    pub flamegraph_config: Option<FlamegraphConfig>,
    pub regression_config: Option<RegressionConfig>,
    pub tools: Tools,
    pub tools_override: Option<Tools>,
    pub output_format: Option<OutputFormat>,
    pub default_tool: Option<ValgrindTool>,
}

impl Default for LibraryBenchmarkConfig {
    fn default() -> (r: Self)
        ensures
            r.env_clear.is_none(),
            r.valgrind_args.0@.len() == 0,
            r.callgrind_args.0@.len() == 0,
            r.envs@.len() == 0,
            r.flamegraph_config.is_none(),
            r.regression_config.is_none(),
            r.tools.0@.len() == 0,
            r.tools_override.is_none(),
            r.output_format.is_none(),
            r.default_tool.is_none(),
    {
        LibraryBenchmarkConfig {
            env_clear: None,
            valgrind_args: RawArgs(Vec::new()),
            callgrind_args: RawArgs(Vec::new()),
            envs: Vec::new(),
            flamegraph_config: None,
            regression_config: None,
            tools: Tools(Vec::new()),
            tools_override: None,
            output_format: None,
            default_tool: None,
        }
    }
}

/// The tools that an override holds; none where there is no override yet.
pub open spec fn override_tools(tools: Option<Tools>) -> Seq<Tool> {
    match tools {
        Some(t) => t.0@,
        None => Seq::empty(),
    }
}

/// The variables with the first `n` of `added` appended, each with its value.
pub open spec fn with_envs(
    envs: Seq<(String, Option<String>)>,
    added: Seq<(String, String)>,
    n: int,
) -> Seq<(String, Option<String>)>
    decreases n,
{
    if n <= 0 {
        envs
    } else {
        with_envs(envs, added, n - 1).push((added[n - 1].0, Some(added[n - 1].1)))
    }
}

/// The variables with the first `n` of `added` appended, each to be passed through.
pub open spec fn with_passed_envs(
    envs: Seq<(String, Option<String>)>,
    added: Seq<String>,
    n: int,
) -> Seq<(String, Option<String>)>
    decreases n,
{
    if n <= 0 {
        envs
    } else {
        with_passed_envs(envs, added, n - 1).push((added[n - 1], None))
    }
}

impl LibraryBenchmarkConfig {
    /// Appends arguments for every tool: blank ones are left out, the others
    /// are trimmed and get `--` before them unless they start with `-`.
    pub fn valgrind_args(&mut self, args: &Vec<String>) -> (ret: &mut Self)
        ensures
            string_views(ret.valgrind_args.0@) == string_views(old(self).valgrind_args.0@)
                + as_flags(string_views(args@), args@.len() as int),
            ret.env_clear == old(self).env_clear,
            ret.callgrind_args == old(self).callgrind_args,
            ret.envs == old(self).envs,
            ret.flamegraph_config == old(self).flamegraph_config,
            ret.regression_config == old(self).regression_config,
            ret.tools == old(self).tools,
            ret.tools_override == old(self).tools_override,
            ret.output_format == old(self).output_format,
            ret.default_tool == old(self).default_tool,
            *final(self) == *final(ret),
    {
        self.valgrind_args.extend_ignore_flag(args);
        self
    }

    /// Sets whether the environment is cleared before a benchmark runs.
    pub fn env_clear(&mut self, value: bool) -> (ret: &mut Self)
        ensures
            *ret == (LibraryBenchmarkConfig { env_clear: Some(value), ..*old(self) }),
            *final(self) == *final(ret),
    {
        self.env_clear = Some(value);
        self
    }

    /// Adds an environment variable that benchmarks will see.
    pub fn env(&mut self, key: String, value: String) -> (ret: &mut Self)
        ensures
            ret.envs@ == old(self).envs@.push((key, Some(value))),
            *ret == (LibraryBenchmarkConfig { envs: ret.envs, ..*old(self) }),
            *final(self) == *final(ret),
    {
        self.envs.push((key, Some(value)));
        self
    }

    /// Adds environment variables that benchmarks will see.
    pub fn envs(&mut self, envs: Vec<(String, String)>) -> (ret: &mut Self)
        ensures
            ret.envs@ == with_envs(old(self).envs@, envs@, envs@.len() as int),
            *ret == (LibraryBenchmarkConfig { envs: ret.envs, ..*old(self) }),
            *final(self) == *final(ret),
    {
        let mut rest = envs;
        let ghost all = rest@;
        assert(all.len() == rest.len());
        let mut taken: Vec<(String, String)> = Vec::new();
        while rest.len() > 0
            invariant
                all.len() <= usize::MAX,
                rest@.len() + taken@.len() == all.len(),
                forall|j: int| 0 <= j < rest@.len() ==> rest@[j] == all[j],
                forall|j: int| 0 <= j < taken@.len() ==> taken@[j] == all[all.len() - 1 - j],
            decreases rest.len(),
        {
            let pair = rest.pop().unwrap();
            taken.push(pair);
        }
        let mut done: usize = 0;
        while taken.len() > 0
            invariant
                all.len() <= usize::MAX,
                done + taken@.len() == all.len(),
                forall|j: int| 0 <= j < taken@.len() ==> taken@[j] == all[all.len() - 1 - j],
                self.envs@ == with_envs(old(self).envs@, all, done as int),
                *self == (LibraryBenchmarkConfig { envs: self.envs, ..*old(self) }),
            decreases taken.len(),
        {
            let (key, value) = taken.pop().unwrap();
            self.envs.push((key, Some(value)));
            done += 1;
        }
        self
    }

    /// Names an environment variable that is handed on to benchmarks as it is.
    pub fn pass_through_env(&mut self, key: String) -> (ret: &mut Self)
        ensures
            ret.envs@ == old(self).envs@.push((key, None)),
            *ret == (LibraryBenchmarkConfig { envs: ret.envs, ..*old(self) }),
            *final(self) == *final(ret),
    {
        self.envs.push((key, None));
        self
    }

    /// Names environment variables that are handed on to benchmarks as they are.
    pub fn pass_through_envs(&mut self, envs: Vec<String>) -> (ret: &mut Self)
        ensures
            ret.envs@ == with_passed_envs(old(self).envs@, envs@, envs@.len() as int),
            *ret == (LibraryBenchmarkConfig { envs: ret.envs, ..*old(self) }),
            *final(self) == *final(ret),
    {
        let mut rest = envs;
        let ghost all = rest@;
        assert(all.len() == rest.len());
        let mut taken: Vec<String> = Vec::new();
        while rest.len() > 0
            invariant
                all.len() <= usize::MAX,
                rest@.len() + taken@.len() == all.len(),
                forall|j: int| 0 <= j < rest@.len() ==> rest@[j] == all[j],
                forall|j: int| 0 <= j < taken@.len() ==> taken@[j] == all[all.len() - 1 - j],
            decreases rest.len(),
        {
            let key = rest.pop().unwrap();
            taken.push(key);
        }
        let mut done: usize = 0;
        while taken.len() > 0
            invariant
                all.len() <= usize::MAX,
                done + taken@.len() == all.len(),
                forall|j: int| 0 <= j < taken@.len() ==> taken@[j] == all[all.len() - 1 - j],
                self.envs@ == with_passed_envs(old(self).envs@, all, done as int),
                *self == (LibraryBenchmarkConfig { envs: self.envs, ..*old(self) }),
            decreases taken.len(),
        {
            let key = taken.pop().unwrap();
            self.envs.push((key, None));
            done += 1;
        }
        self
    }

    /// Configures a tool to run besides the default tool, in place of an
    /// earlier configuration of the same tool.
    pub fn tool(&mut self, tool: Tool) -> (ret: &mut Self)
        ensures
            ret.tools.0@ == with_tool(old(self).tools.0@, tool),
            *ret == (LibraryBenchmarkConfig { tools: ret.tools, ..*old(self) }),
            *final(self) == *final(ret),
    {
        self.tools.update(tool);
        self
    }

    /// Configures several tools in turn.
    pub fn tools(&mut self, tools: Vec<Tool>) -> (ret: &mut Self)
        ensures
            ret.tools.0@ == with_tools(old(self).tools.0@, tools@, tools@.len() as int),
            *ret == (LibraryBenchmarkConfig { tools: ret.tools, ..*old(self) }),
            *final(self) == *final(ret),
    {
        self.tools.update_all(tools);
        self
    }

    /// Configures a tool in the list that replaces the tools of the levels above.
    pub fn tool_override(&mut self, tool: Tool) -> (ret: &mut Self)
        ensures
            ret.tools_override.is_some(),
            override_tools(ret.tools_override) == with_tool(
                override_tools(old(self).tools_override),
                tool,
            ),
            *ret == (LibraryBenchmarkConfig { tools_override: ret.tools_override, ..*old(self) }),
            *final(self) == *final(ret),
    {
        let mut current: Option<Tools> = None;
        std::mem::swap(&mut self.tools_override, &mut current);
        let mut tools = match current {
            Some(t) => t,
            None => Tools::default(),
        };
        assert(tools.0@ =~= override_tools(old(self).tools_override));
        tools.update(tool);
        self.tools_override = Some(tools);
        self
    }

    /// Configures several tools in the list that replaces the tools of the
    /// levels above.
    pub fn tools_override(&mut self, tools: Vec<Tool>) -> (ret: &mut Self)
        ensures
            ret.tools_override.is_some(),
            override_tools(ret.tools_override) == with_tools(
                override_tools(old(self).tools_override),
                tools@,
                tools@.len() as int,
            ),
            *ret == (LibraryBenchmarkConfig { tools_override: ret.tools_override, ..*old(self) }),
            *final(self) == *final(ret),
    {
        let mut current: Option<Tools> = None;
        std::mem::swap(&mut self.tools_override, &mut current);
        let mut list = match current {
            Some(t) => t,
            None => Tools::default(),
        };
        assert(list.0@ =~= override_tools(old(self).tools_override));
        list.update_all(tools);
        self.tools_override = Some(list);
        self
    }

    /// Sets how the results are written to the terminal.
    pub fn output_format(&mut self, output_format: OutputFormat) -> (ret: &mut Self)
        ensures
            *ret == (LibraryBenchmarkConfig { output_format: Some(output_format), ..*old(self) }),
            *final(self) == *final(ret),
    {
        self.output_format = Some(output_format);
        self
    }

    /// Chooses the tool whose counts are shown first.
    pub fn default_tool(&mut self, tool: ValgrindTool) -> (ret: &mut Self)
        ensures
            *ret == (LibraryBenchmarkConfig { default_tool: Some(tool), ..*old(self) }),
            *final(self) == *final(ret),
    {
        self.default_tool = Some(tool);
        self
    }
}

} // verus!
