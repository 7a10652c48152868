//! Resolution of the runtime configuration: typing of the parsed key/value
//! pairs into the raw configuration, and field-by-field defaulting into the
//! immutable resolved configuration.

use vstd::prelude::*;

use crate::digits::{dec_rep, u64_to_dec};
use crate::text::str_eq;
use crate::toml::{parse_doc, parse_document, pairs_model, SpecValue, TomlValue};

verus! {

/// The raw configuration read from the source: every field optional, an
/// absent field meaning "use the default".
pub struct ConfigFile {
    /// Service name
    pub server_name: Option<String>,
    /// Service port
    pub port: Option<u16>,
    /// Log level
    pub log_level: Option<String>,
    /// Log split
    pub log_split: Option<String>,
    /// Synchronization interval
    pub sync_interval: Option<u64>,
}

/// The mathematical counterpart of [`ConfigFile`].
#[verifier::ext_equal]
pub ghost struct RawModel {
    pub server_name: Option<Seq<char>>,
    pub port: Option<u16>,
    pub log_level: Option<Seq<char>>,
    pub log_split: Option<Seq<char>>,
    pub sync_interval: Option<u64>,
}

impl RawModel {
    /// The raw configuration with every field absent.
    pub open spec fn empty() -> RawModel {
        RawModel {
            server_name: None,
            port: None,
            log_level: None,
            log_split: None,
            sync_interval: None,
        }
    }
}

impl ConfigFile {
    pub open spec fn model(self) -> RawModel {
        RawModel {
            server_name: match self.server_name {
                Some(s) => Some(s@),
                None => None,
            },
            port: self.port,
            log_level: match self.log_level {
                Some(s) => Some(s@),
                None => None,
            },
            log_split: match self.log_split {
                Some(s) => Some(s@),
                None => None,
            },
            sync_interval: self.sync_interval,
        }
    }

    /// The raw configuration with every field absent.
    pub fn empty() -> (r: ConfigFile)
        ensures
            r.model() == RawModel::empty(),
    {
        let r = ConfigFile {
            server_name: None,
            port: None,
            log_level: None,
            log_split: None,
            sync_interval: None,
        };
        proof {
            assert(r.model() =~= RawModel::empty());
        }
        r
    }
}

/// Verbosity levels, from most to least verbose.
#[derive(Clone, Copy, Debug, PartialEq, Eq, Structural)]
pub enum LogLevel {
    Trace,
    Debug,
    Info,
    Warn,
    Error,
}

/// Cadence at which the log file is rotated.
#[derive(Clone, Copy, Debug, PartialEq, Eq, Structural)]
pub enum Rotation {
    Hourly,
    Minutely,
    Daily,
}

/// The level a textual setting stands for; anything unrecognized degrades
/// to `Info`.
pub open spec fn level_of(s: Seq<char>) -> LogLevel {
    if s == "trace"@ {
        LogLevel::Trace
    } else if s == "debug"@ {
        LogLevel::Debug
    } else if s == "info"@ {
        LogLevel::Info
    } else if s == "warn"@ {
        LogLevel::Warn
    } else if s == "error"@ {
        LogLevel::Error
    } else {
        LogLevel::Info
    }
}

/// The rotation cadence a textual setting stands for; anything unrecognized
/// degrades to `Daily`.
pub open spec fn split_of(s: Seq<char>) -> Rotation {
    if s == "hour"@ {
        Rotation::Hourly
    } else if s == "minute"@ {
        Rotation::Minutely
    } else {
        Rotation::Daily
    }
}

/// Parses a log-level setting.
pub fn parse_log_level(s: &str) -> (r: LogLevel)
    ensures
        r == level_of(s@),
{
    if str_eq(s, "trace") {
        LogLevel::Trace
    } else if str_eq(s, "debug") {
        LogLevel::Debug
    } else if str_eq(s, "info") {
        LogLevel::Info
    } else if str_eq(s, "warn") {
        LogLevel::Warn
    } else if str_eq(s, "error") {
        LogLevel::Error
    } else {
        LogLevel::Info
    }
}

/// Parses a rotation setting.
pub fn parse_rotation(s: &str) -> (r: Rotation)
    ensures
        r == split_of(s@),
{
    if str_eq(s, "hour") {
        Rotation::Hourly
    } else if str_eq(s, "minute") {
        Rotation::Minutely
    } else {
        Rotation::Daily
    }
}

/// A fatal configuration error: the source is not well-formed, so the
/// service must not start.
#[derive(Clone, Copy, Debug, PartialEq, Eq, Structural)]
pub enum ConfigError {
    /// The source is not syntactically valid.
    Syntax,
    /// A key is duplicated, or a value has the wrong type or range.
    Invalid,
}

/// One key/value pair applied to the raw configuration built so far:
/// a known key must carry a well-typed, in-range value and must not repeat;
/// an unknown key is ignored.
pub open spec fn apply_pair(m: RawModel, k: Seq<char>, v: SpecValue) -> Option<RawModel> {
    if k == "server_name"@ {
        match v {
            SpecValue::Str(s) => if m.server_name is None {
                Some(RawModel { server_name: Some(s), ..m })
            } else {
                None
            },
            _ => None,
        }
    } else if k == "port"@ {
        match v {
            SpecValue::Int(n) => if m.port is None && 0 <= n <= 65535 {
                Some(RawModel { port: Some(n as u16), ..m })
            } else {
                None
            },
            _ => None,
        }
    } else if k == "log_level"@ {
        match v {
            SpecValue::Str(s) => if m.log_level is None {
                Some(RawModel { log_level: Some(s), ..m })
            } else {
                None
            },
            _ => None,
        }
    } else if k == "log_split"@ {
        match v {
            SpecValue::Str(s) => if m.log_split is None {
                Some(RawModel { log_split: Some(s), ..m })
            } else {
                None
            },
            _ => None,
        }
    } else if k == "sync_interval"@ {
        match v {
            SpecValue::Int(n) => if m.sync_interval is None && 0 <= n {
                Some(RawModel { sync_interval: Some(n as u64), ..m })
            } else {
                None
            },
            _ => None,
        }
    } else {
        Some(m)
    }
}

/// The raw configuration described by a sequence of pairs, applied in
/// order; `None` when any pair is rejected.
pub open spec fn build_raw(ps: Seq<(Seq<char>, SpecValue)>) -> Option<RawModel>
    decreases ps.len(),
{
    if ps.len() == 0 {
        Some(RawModel::empty())
    } else {
        match build_raw(ps.drop_last()) {
            None => None,
            Some(m) => apply_pair(m, ps.last().0, ps.last().1),
        }
    }
}

/// The raw configuration a whole source text stands for: `None` when the
/// text is malformed (bad syntax, duplicate key, ill-typed value).
pub open spec fn parse_config_spec(s: Seq<char>) -> Option<RawModel> {
    match parse_doc(s) {
        None => None,
        Some(ps) => build_raw(ps),
    }
}

proof fn lemma_build_raw_prefix_none(ps: Seq<(Seq<char>, SpecValue)>, i: int)
    requires
        0 <= i <= ps.len(),
        build_raw(ps.take(i)) is None,
    ensures
        build_raw(ps) is None,
    decreases ps.len() - i,
{
    if i == ps.len() {
        assert(ps.take(i) =~= ps);
    } else {
        assert(ps.take(i + 1).drop_last() =~= ps.take(i));
        assert(ps.take(i + 1).len() != 0);
        lemma_build_raw_prefix_none(ps, i + 1);
    }
}

/// Parses a configuration source into the raw configuration. `Err` exactly
/// when the source is malformed, with `Syntax` for a grammar error and
/// `Invalid` for a duplicate key or an ill-typed or out-of-range value.
pub fn parse_config(s: &str) -> (r: Result<ConfigFile, ConfigError>)
    ensures
        (match r {
            Ok(c) => parse_config_spec(s@) == Some(c.model()),
            Err(e) => parse_config_spec(s@) is None && ((e == ConfigError::Syntax) <==> parse_doc(
                s@,
            ) is None),
        }),
{
    let ps = match parse_document(s) {
        Err(_) => {
            return Err(ConfigError::Syntax);
        },
        Ok(ps) => ps,
    };
    let ghost pm = pairs_model(ps@);
    let mut m = ConfigFile::empty();
    let mut i: usize = 0;
    proof {
        assert(pm.take(0) =~= Seq::<(Seq<char>, SpecValue)>::empty());
    }
    while i < ps.len()
        invariant
            i <= ps.len(),
            pm == pairs_model(ps@),
            parse_doc(s@) == Some(pm),
            build_raw(pm.take(i as int)) == Some(m.model()),
        decreases ps.len() - i,
    {
        let ghost m0 = m.model();
        let p = &ps[i];
        let ghost k = pm[i as int].0;
        let ghost v = pm[i as int].1;
        proof {
            assert(pm.take(i + 1).drop_last() =~= pm.take(i as int));
            assert(pm.take(i + 1).last() == pm[i as int]);
        }
        if str_eq(p.0.as_str(), "server_name") {
            match &p.1 {
                TomlValue::Str(sv) => {
                    if m.server_name.is_some() {
                        proof {
                            lemma_build_raw_prefix_none(pm, i + 1);
                        }
                        return Err(ConfigError::Invalid);
                    }
                    m.server_name = Some(sv.clone());
                },
                _ => {
                    proof {
                        lemma_build_raw_prefix_none(pm, i + 1);
                    }
                    return Err(ConfigError::Invalid);
                },
            }
        } else if str_eq(p.0.as_str(), "port") {
            match &p.1 {
                TomlValue::Int(n) => {
                    if m.port.is_some() || !(0 <= *n && *n <= 65535) {
                        proof {
                            lemma_build_raw_prefix_none(pm, i + 1);
                        }
                        return Err(ConfigError::Invalid);
                    }
                    m.port = Some(*n as u16);
                },
                _ => {
                    proof {
                        lemma_build_raw_prefix_none(pm, i + 1);
                    }
                    return Err(ConfigError::Invalid);
                },
            }
        } else if str_eq(p.0.as_str(), "log_level") {
            match &p.1 {
                TomlValue::Str(sv) => {
                    if m.log_level.is_some() {
                        proof {
                            lemma_build_raw_prefix_none(pm, i + 1);
                        }
                        return Err(ConfigError::Invalid);
                    }
                    m.log_level = Some(sv.clone());
                },
                _ => {
                    proof {
                        lemma_build_raw_prefix_none(pm, i + 1);
                    }
                    return Err(ConfigError::Invalid);
                },
            }
        } else if str_eq(p.0.as_str(), "log_split") {
            match &p.1 {
                TomlValue::Str(sv) => {
                    if m.log_split.is_some() {
                        proof {
                            lemma_build_raw_prefix_none(pm, i + 1);
                        }
                        return Err(ConfigError::Invalid);
                    }
                    m.log_split = Some(sv.clone());
                },
                _ => {
                    proof {
                        lemma_build_raw_prefix_none(pm, i + 1);
                    }
                    return Err(ConfigError::Invalid);
                },
            }
        } else if str_eq(p.0.as_str(), "sync_interval") {
            match &p.1 {
                TomlValue::Int(n) => {
                    if m.sync_interval.is_some() || *n < 0 {
                        proof {
                            lemma_build_raw_prefix_none(pm, i + 1);
                        }
                        return Err(ConfigError::Invalid);
                    }
                    m.sync_interval = Some(*n as u64);
                },
                _ => {
                    proof {
                        lemma_build_raw_prefix_none(pm, i + 1);
                    }
                    return Err(ConfigError::Invalid);
                },
            }
        }
        proof {
            assert(apply_pair(m0, k, v) == Some(m.model()));
        }
        i = i + 1;
    }
    proof {
        assert(pm.take(ps@.len() as int) =~= pm);
    }
    Ok(m)
}

/// The resolved, immutable configuration the process runs with.
#[derive(Debug, Clone)]
pub struct ApplicationConfig {
    /// Service name
    pub server_name: String,
    /// Service address, `0.0.0.0:{port}`
    pub server_url: String,
    /// Log level
    pub log_level: LogLevel,
    /// Log split
    pub log_split: Rotation,
    /// Executable file directory
    pub exe_dir: String,
    /// Synchronization interval, in seconds
    pub sync_interval: u64,
}

/// The mathematical counterpart of [`ApplicationConfig`].
#[verifier::ext_equal]
pub ghost struct ResolvedModel {
    pub server_name: Seq<char>,
    pub server_url: Seq<char>,
    pub log_level: LogLevel,
    pub log_split: Rotation,
    pub exe_dir: Seq<char>,
    pub sync_interval: u64,
}

/// The compiled-in service name, used when the source names none.
pub open spec fn default_server_name() -> Seq<char> {
    "startup"@
}

/// The bind address derived from a port.
pub open spec fn addr_rep(port: u16) -> Seq<char> {
    "0.0.0.0:"@ + dec_rep(port as nat)
}

/// Field-by-field resolution of a raw configuration: a present field keeps
/// its supplied value, an absent one takes the documented default
/// (`server_name`: the compiled package name; port 8000; level `info`;
/// daily rotation; 30 second sync interval), and the bind address is
/// derived from the resolved port.
pub open spec fn resolved_model(m: RawModel, exe_dir: Seq<char>) -> ResolvedModel {
    ResolvedModel {
        server_name: match m.server_name {
            Some(s) => s,
            None => default_server_name(),
        },
        server_url: addr_rep(
            match m.port {
                Some(p) => p,
                None => 8000,
            },
        ),
        log_level: match m.log_level {
            Some(s) => level_of(s),
            None => LogLevel::Info,
        },
        log_split: match m.log_split {
            Some(s) => split_of(s),
            None => Rotation::Daily,
        },
        exe_dir: exe_dir,
        sync_interval: match m.sync_interval {
            Some(n) => n,
            None => 30,
        },
    }
}

impl ApplicationConfig {
    pub open spec fn model(self) -> ResolvedModel {
        ResolvedModel {
            server_name: self.server_name@,
            server_url: self.server_url@,
            log_level: self.log_level,
            log_split: self.log_split,
            exe_dir: self.exe_dir@,
            sync_interval: self.sync_interval,
        }
    }

    /// Merges a raw configuration into the resolved one, defaulting every
    /// absent field.
    pub fn resolve(raw: ConfigFile, exe_dir: String) -> (r: ApplicationConfig)
        ensures
            r.model() == resolved_model(raw.model(), exe_dir@),
    {
        let server_name = match raw.server_name {
            Some(s) => s,
            None => String::from_str("startup"),
        };
        let port: u16 = match raw.port {
            Some(p) => p,
            None => 8000,
        };
        let mut server_url = String::from_str("0.0.0.0:");
        let port_digits = u64_to_dec(port as u64);
        server_url.append(port_digits.as_str());
        let log_level = match &raw.log_level {
            Some(s) => parse_log_level(s.as_str()),
            None => LogLevel::Info,
        };
        let log_split = match &raw.log_split {
            Some(s) => parse_rotation(s.as_str()),
            None => Rotation::Daily,
        };
        let sync_interval: u64 = match raw.sync_interval {
            Some(n) => n,
            None => 30,
        };
        let r = ApplicationConfig {
            server_name,
            server_url,
            log_level,
            log_split,
            exe_dir,
            sync_interval,
        };
        proof {
            assert(r.model() =~= resolved_model(raw.model(), exe_dir@));
        }
        r
    }

    /// Resolves the configuration from an optional source text: an absent
    /// source is not an error and yields the embedded defaults, a malformed
    /// one is rejected.
    pub fn from_source(source: Option<&str>, exe_dir: String) -> (r: Result<
        ApplicationConfig,
        ConfigError,
    >)
        ensures
            (match source {
                None => r is Ok && r->Ok_0.model() == resolved_model(RawModel::empty(), exe_dir@),
                Some(s) => (match parse_config_spec(s@) {
                    Some(m) => r is Ok && r->Ok_0.model() == resolved_model(m, exe_dir@),
                    None => r is Err && ((r->Err_0 == ConfigError::Syntax) <==> parse_doc(
                        s@,
                    ) is None),
                }),
            }),
    {
        match source {
            None => Ok(ApplicationConfig::resolve(ConfigFile::empty(), exe_dir)),
            Some(s) => {
                let raw = match parse_config(s) {
                    Ok(raw) => raw,
                    Err(e) => {
                        return Err(e);
                    },
                };
                Ok(ApplicationConfig::resolve(raw, exe_dir))
            },
        }
    }
}

/// An absent source resolves to the documented defaults on every field.
pub proof fn lemma_default_resolution(exe_dir: Seq<char>)
    ensures
        resolved_model(RawModel::empty(), exe_dir).server_name == "startup"@,
        resolved_model(RawModel::empty(), exe_dir).server_url == addr_rep(8000),
        resolved_model(RawModel::empty(), exe_dir).log_level == LogLevel::Info,
        resolved_model(RawModel::empty(), exe_dir).log_split == Rotation::Daily,
        resolved_model(RawModel::empty(), exe_dir).exe_dir == exe_dir,
        resolved_model(RawModel::empty(), exe_dir).sync_interval == 30,
{
}

/// Every supplied field survives resolution unchanged: the resolved value
/// of a present field is the supplied one, and the bind address is derived
/// from the supplied port.
pub proof fn lemma_supplied_values(m: RawModel, exe_dir: Seq<char>)
    ensures
        m.server_name matches Some(s) ==> resolved_model(m, exe_dir).server_name == s,
        m.port matches Some(p) ==> resolved_model(m, exe_dir).server_url == addr_rep(p),
        m.log_level matches Some(s) ==> resolved_model(m, exe_dir).log_level == level_of(s),
        m.log_split matches Some(s) ==> resolved_model(m, exe_dir).log_split == split_of(s),
        m.sync_interval matches Some(n) ==> resolved_model(m, exe_dir).sync_interval == n,
{
}

/// The default bind address, written out: port 8000 on every interface.
pub proof fn lemma_default_addr()
    ensures
        addr_rep(8000) == "0.0.0.0:8000"@,
{
    reveal_strlit("0.0.0.0:");
    reveal_strlit("0.0.0.0:8000");
    assert(dec_rep(8) =~= seq!['8']);
    assert(dec_rep(80) =~= seq!['8', '0']);
    assert(dec_rep(800) =~= seq!['8', '0', '0']);
    assert(dec_rep(8000) =~= seq!['8', '0', '0', '0']);
    assert(addr_rep(8000) =~= "0.0.0.0:8000"@);
}

/// Any log-level setting outside the five recognized names resolves to
/// `info` rather than failing.
pub proof fn lemma_unrecognized_level_defaults(s: Seq<char>)
    requires
        s != "trace"@,
        s != "debug"@,
        s != "info"@,
        s != "warn"@,
        s != "error"@,
    ensures
        level_of(s) == LogLevel::Info,
{
}

/// Any rotation setting other than `hour` or `minute` resolves to daily
/// rotation rather than failing.
pub proof fn lemma_unrecognized_split_defaults(s: Seq<char>)
    requires
        s != "hour"@,
        s != "minute"@,
    ensures
        split_of(s) == Rotation::Daily,
{
}

} // verus!
