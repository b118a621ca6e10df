//! From the traces of an instruction-level profiler to regression verdicts.
//!
//! A trace is parsed into a cost map: counts per performance counter for
//! every function, identified by object file, source file and name, with
//! paths classified against the project root (`parser`, `callgrind_map`,
//! `metrics`, `source_path`). The cost maps of one benchmark run are merged
//! into one. New counts are compared with a saved baseline under configured
//! limits (`regression`, `baseline`), and baselines are kept as text
//! (`codec`, `framing`). The other modules hold the configuration of
//! benchmarks and the options of a run.
//!
//! Every function is verified against its contract. What is believed
//! without proof is marked: the calls into `clap`, `shlex` and two functions
//! of the standard library.

pub mod args;
pub mod assoc;
pub mod baseline;
pub mod callgrind_args;
pub mod callgrind_map;
pub mod cli;
pub mod codec;
pub mod common;
pub mod event_kind;
pub mod framing;
pub mod lib_bench;
pub mod metrics;
pub mod parser;
pub mod path_laws;
pub mod percent;
pub mod regression;
pub mod runs_on;
pub mod rust_version;
pub mod source_path;
pub mod text;
