//! Decision logic of the logging pipeline: which sink, verbosity floor,
//! rotation cadence and formatting the process installs, which records the
//! per-target filter lets through, and the guard that makes the global
//! installation happen exactly once.
//!
//! The embedding binary carries these decisions out: it opens the sink,
//! builds the subscriber, and holds the flush guard of the background
//! writer until exit.

use vstd::prelude::*;
use vstd::string::*;

use crate::config::{ApplicationConfig, LogLevel, ResolvedModel, Rotation};
use crate::text::str_eq;

verus! {

/// The build profile the pipeline is initialized for.
#[derive(Clone, Copy, Debug, PartialEq, Eq, Structural)]
pub enum Profile {
    /// Console output, fixed `debug` floor, colors, human-readable layout.
    Dev,
    /// Rolling file output driven by the resolved configuration.
    Prod,
}

/// Where log output goes.
#[derive(Debug, PartialEq, Eq)]
pub enum Sink {
    /// Standard output.
    Stdout,
    /// A rolling file `{dir}/{file_name}`, reopened at each period of the
    /// rotation cadence.
    File { dir: String, file_name: String, rotation: Rotation },
}

/// The mathematical counterpart of [`Sink`].
pub ghost enum SinkModel {
    Stdout,
    File { dir: Seq<char>, file_name: Seq<char>, rotation: Rotation },
}

/// Everything the embedding binary needs to assemble the log subscriber.
#[derive(Debug, PartialEq, Eq)]
pub struct LogPlan {
    /// Where the formatted records go.
    pub sink: Sink,
    /// Global verbosity floor.
    pub max_level: LogLevel,
    /// Colorized output.
    pub ansi: bool,
    /// Human-readable multi-line formatting.
    pub pretty: bool,
}

/// The mathematical counterpart of [`LogPlan`].
#[verifier::ext_equal]
pub ghost struct PlanModel {
    pub sink: SinkModel,
    pub max_level: LogLevel,
    pub ansi: bool,
    pub pretty: bool,
}

impl Sink {
    pub open spec fn model(self) -> SinkModel {
        match self {
            Sink::Stdout => SinkModel::Stdout,
            Sink::File { dir, file_name, rotation } => SinkModel::File {
                dir: dir@,
                file_name: file_name@,
                rotation,
            },
        }
    }
}

impl LogPlan {
    pub open spec fn model(self) -> PlanModel {
        PlanModel {
            sink: self.sink.model(),
            max_level: self.max_level,
            ansi: self.ansi,
            pretty: self.pretty,
        }
    }
}

/// The plan a profile and a resolved configuration call for. Development
/// builds log to the console at `debug` with colors and pretty layout;
/// production builds log to `{exe_dir}/logs/{server_name}.log` without
/// colors, at the configured level, rotated at the configured cadence.
pub open spec fn plan_of(profile: Profile, cfg: ResolvedModel) -> PlanModel {
    match profile {
        Profile::Dev => PlanModel {
            sink: SinkModel::Stdout,
            max_level: LogLevel::Debug,
            ansi: true,
            pretty: true,
        },
        Profile::Prod => PlanModel {
            sink: SinkModel::File {
                dir: cfg.exe_dir + "/logs"@,
                file_name: cfg.server_name + ".log"@,
                rotation: cfg.log_split,
            },
            max_level: cfg.log_level,
            ansi: false,
            pretty: false,
        },
    }
}

/// Computes the plan for a profile and a resolved configuration.
pub fn build_plan(profile: Profile, cfg: &ApplicationConfig) -> (r: LogPlan)
    ensures
        r.model() == plan_of(profile, cfg.model()),
{
    match profile {
        Profile::Dev => LogPlan {
            sink: Sink::Stdout,
            max_level: LogLevel::Debug,
            ansi: true,
            pretty: true,
        },
        Profile::Prod => {
            let mut dir = cfg.exe_dir.clone();
            dir.append("/logs");
            let mut file_name = cfg.server_name.clone();
            file_name.append(".log");
            let r = LogPlan {
                sink: Sink::File { dir, file_name, rotation: cfg.log_split },
                max_level: cfg.log_level,
                ansi: false,
                pretty: false,
            };
            proof {
                assert(r.model() =~= plan_of(Profile::Prod, cfg.model()));
            }
            r
        },
    }
}

/// How permissive a level is: a record passes a floor when its level ranks
/// at least as high.
pub open spec fn rank(l: LogLevel) -> int {
    match l {
        LogLevel::Trace => 0,
        LogLevel::Debug => 1,
        LogLevel::Info => 2,
        LogLevel::Warn => 3,
        LogLevel::Error => 4,
    }
}

/// Whether a record is visible: its target must not be the suppressed `h1`
/// transport target, and its level must pass both the per-target `debug`
/// default and the global floor.
pub open spec fn record_visible(target: Seq<char>, level: LogLevel, floor: LogLevel) -> bool {
    target != "h1"@ && rank(level) >= rank(LogLevel::Debug) && rank(level) >= rank(floor)
}

fn level_rank(l: LogLevel) -> (r: u8)
    ensures
        r as int == rank(l),
{
    match l {
        LogLevel::Trace => 0,
        LogLevel::Debug => 1,
        LogLevel::Info => 2,
        LogLevel::Warn => 3,
        LogLevel::Error => 4,
    }
}

/// Decides whether a record with the given target and level is let through
/// under the given global floor.
pub fn record_enabled(target: &str, level: LogLevel, floor: LogLevel) -> (r: bool)
    ensures
        r == record_visible(target@, level, floor),
{
    !str_eq(target, "h1") && level_rank(level) >= level_rank(LogLevel::Debug) && level_rank(level)
        >= level_rank(floor)
}

/// The `h1` target never appears in the output, whatever the record's level
/// and however permissive the global floor.
pub proof fn lemma_h1_never_visible(level: LogLevel, floor: LogLevel)
    ensures
        !record_visible("h1"@, level, floor),
{
}

/// Every other target appears at `debug` and above whenever the global
/// floor permits.
pub proof fn lemma_other_targets_visible(target: Seq<char>, level: LogLevel, floor: LogLevel)
    requires
        target != "h1"@,
        rank(level) >= rank(LogLevel::Debug),
        rank(level) >= rank(floor),
    ensures
        record_visible(target, level, floor),
{
}

/// Initialization failed: the global subscriber was already installed, so a
/// second initialization is a programming error and must abort startup.
#[derive(Clone, Copy, Debug, PartialEq, Eq, Structural)]
pub enum InitError {
    AlreadyInitialized,
}

/// Guard around the process-wide installation of the log pipeline: hands
/// out a plan exactly once.
pub struct LogInitializer {
    installed: bool,
}

impl LogInitializer {
    /// Whether the global pipeline has been installed.
    pub closed spec fn is_installed(self) -> bool {
        self.installed
    }

    /// A fresh process: nothing installed yet.
    pub fn new() -> (r: LogInitializer)
        ensures
            !r.is_installed(),
    {
        LogInitializer { installed: false }
    }

    /// Produces the plan for the global pipeline, exactly once: the first
    /// call returns it and marks the pipeline installed, every later call
    /// fails and changes nothing.
    pub fn init(&mut self, profile: Profile, cfg: &ApplicationConfig) -> (r: Result<
        LogPlan,
        InitError,
    >)
        ensures
            final(self).is_installed(),
            (match r {
                Ok(plan) => !old(self).is_installed() && plan.model() == plan_of(
                    profile,
                    cfg.model(),
                ),
                Err(e) => old(self).is_installed() && e == InitError::AlreadyInitialized,
            }),
    {
        if self.installed {
            return Err(InitError::AlreadyInitialized);
        }
        self.installed = true;
        Ok(build_plan(profile, cfg))
    }
}

} // verus!
