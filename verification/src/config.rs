//! Runtime configuration, built from explicit settings with the `LSPZ_*`
//! environment variables as fallback.
use vstd::prelude::*;

use crate::error::{config_error, LspzError};
use crate::text::{
    chars_of, parse_u64, parse_u64_range, push_str, str_eq, string_of_range, to_lowercase, trim,
    trim_range, lowercase,
};

verus! {

/// How intercepted results are written.
#[derive(Debug, Clone, Copy, PartialEq, Eq, Structural)]
pub enum OutputFormat {
    /// Compact JSON.
    Json,
    /// TOON (Token-Oriented Object Notation).
    Toon,
    /// Standard LSP JSON, uncompressed.
    Passthrough,
}

/// The output format a text names, after trimming and lowercasing.
pub open spec fn spec_output_format(s: Seq<char>) -> Option<OutputFormat> {
    let t = lowercase(trim(s));
    if t == "json"@ {
        Some(OutputFormat::Json)
    } else if t == "toon"@ {
        Some(OutputFormat::Toon)
    } else if t == "passthrough"@ {
        Some(OutputFormat::Passthrough)
    } else {
        None
    }
}

impl OutputFormat {
    /// Reads an output format name (`json`, `toon`, `passthrough`; surrounding
    /// spaces and case are ignored); a configuration error for any other text.
    pub fn from_str(s: &str) -> (r: Result<OutputFormat, LspzError>)
        ensures
            match spec_output_format(s@) {
                Some(f) => r == Ok::<OutputFormat, LspzError>(f),
                None => r matches Err(LspzError::Config(m)) && m@ == "unknown output format: "@ + s@,
            },
    {
        let v = chars_of(s);
        let (a, b) = trim_range(&v, 0, v.len());
        proof {
            assert(v@.subrange(0, v@.len() as int) =~= s@);
        }
        let t = string_of_range(&v, a, b);
        let low = to_lowercase(t.as_str());
        let l = low.as_str();
        if str_eq(l, "json") {
            Ok(OutputFormat::Json)
        } else if str_eq(l, "toon") {
            Ok(OutputFormat::Toon)
        } else if str_eq(l, "passthrough") {
            Ok(OutputFormat::Passthrough)
        } else {
            let mut m = "unknown output format: ".to_owned();
            push_str(&mut m, s);
            Err(LspzError::Config(m))
        }
    }
}

/// Per-type limits on the number of items a response keeps (0: no limit).
#[derive(Debug, Clone)]
pub struct CappingConfig {
    /// Diagnostics kept (0: all).
    pub max_diags: usize,
    /// Completion items kept (0: all).
    pub max_completions: usize,
    /// Document symbols kept (0: all).
    pub max_symbols: usize,
}

impl Default for CappingConfig {
    fn default() -> (r: CappingConfig)
        ensures
            r.max_diags == 0 && r.max_completions == 0 && r.max_symbols == 0,
    {
        CappingConfig { max_diags: 0, max_completions: 0, max_symbols: 0 }
    }
}

impl CappingConfig {
    /// Whether any limit is set.
    pub fn any_enabled(&self) -> (r: bool)
        ensures
            r == (self.max_diags > 0 || self.max_completions > 0 || self.max_symbols > 0),
    {
        self.max_diags > 0 || self.max_completions > 0 || self.max_symbols > 0
    }

    /// A copy of the limits.
    pub fn copy(&self) -> (r: CappingConfig)
        ensures
            r == *self,
    {
        CappingConfig {
            max_diags: self.max_diags,
            max_completions: self.max_completions,
            max_symbols: self.max_symbols,
        }
    }
}

/// The configuration of the proxy.
#[derive(Debug)]
pub struct Config {
    /// The command that starts the backend language server.
    pub backend_cmd: String,
    /// Response limits.
    pub capping: CappingConfig,
    /// Whether diagnostics are compressed.
    pub enable_diag_compress: bool,
    /// Whether completions are compressed.
    pub enable_completion_compress: bool,
    /// Whether hovers are compressed.
    pub enable_hover_compress: bool,
    /// Whether document symbols are compressed.
    pub enable_document_symbol_compress: bool,
    /// Whether locations are compressed.
    pub enable_location_compress: bool,
    /// How results are written.
    pub output_format: OutputFormat,
    /// The log level (trace, debug, info, warn, error).
    pub log_level: String,
}

impl Default for Config {
    fn default() -> (r: Config)
        ensures
            r.backend_cmd@ == Seq::<char>::empty(),
            r.capping.max_diags == 0 && r.capping.max_completions == 0 && r.capping.max_symbols == 0,
            r.enable_diag_compress && r.enable_completion_compress && r.enable_hover_compress
                && r.enable_document_symbol_compress && r.enable_location_compress,
            r.output_format == OutputFormat::Json,
            r.log_level@ == "info"@,
    {
        Config {
            backend_cmd: String::new(),
            capping: CappingConfig::default(),
            enable_diag_compress: true,
            enable_completion_compress: true,
            enable_hover_compress: true,
            enable_document_symbol_compress: true,
            enable_location_compress: true,
            output_format: OutputFormat::Json,
            log_level: "info".to_owned(),
        }
    }
}

impl Config {
    /// A builder with nothing set.
    pub fn builder() -> (r: ConfigBuilder)
        ensures
            r.is_empty(),
    {
        ConfigBuilder::default()
    }
}

/// The values of the `LSPZ_*` environment variables, each when it is set.
#[derive(Debug, Clone)]
pub struct EnvSettings {
    /// `LSPZ_BACKEND_CMD`.
    pub backend_cmd: Option<String>,
    /// `LSPZ_ENABLE_DIAG_COMPRESS`.
    pub enable_diag_compress: Option<String>,
    /// `LSPZ_ENABLE_COMPLETION_COMPRESS`.
    pub enable_completion_compress: Option<String>,
    /// `LSPZ_ENABLE_HOVER_COMPRESS`.
    pub enable_hover_compress: Option<String>,
    /// `LSPZ_ENABLE_DOCUMENT_SYMBOL_COMPRESS`.
    pub enable_document_symbol_compress: Option<String>,
    /// `LSPZ_ENABLE_LOCATION_COMPRESS`.
    pub enable_location_compress: Option<String>,
    /// `LSPZ_LOG_LEVEL`.
    pub log_level: Option<String>,
    /// `LSPZ_OUTPUT_FORMAT`.
    pub output_format: Option<String>,
    /// `LSPZ_MAX_DIAGS`.
    pub max_diags: Option<String>,
    /// `LSPZ_MAX_COMPLETIONS`.
    pub max_completions: Option<String>,
    /// `LSPZ_MAX_SYMBOLS`.
    pub max_symbols: Option<String>,
}

impl EnvSettings {
    /// No variable set.
    pub fn none() -> (r: EnvSettings)
        ensures
            r.backend_cmd is None && r.enable_diag_compress is None && r.enable_completion_compress
                is None && r.enable_hover_compress is None && r.enable_document_symbol_compress
                is None && r.enable_location_compress is None && r.log_level is None
                && r.output_format is None && r.max_diags is None && r.max_completions is None
                && r.max_symbols is None,
    {
        EnvSettings {
            backend_cmd: None,
            enable_diag_compress: None,
            enable_completion_compress: None,
            enable_hover_compress: None,
            enable_document_symbol_compress: None,
            enable_location_compress: None,
            log_level: None,
            output_format: None,
            max_diags: None,
            max_completions: None,
            max_symbols: None,
        }
    }
}

/// What `bool::from_str` gives: `true` and `false` exactly.
pub open spec fn parse_bool(s: Seq<char>) -> Option<bool> {
    if s == "true"@ {
        Some(true)
    } else if s == "false"@ {
        Some(false)
    } else {
        None
    }
}

/// What `usize::from_str` gives.
pub open spec fn parse_usize(s: Seq<char>) -> Option<int> {
    match parse_u64(s) {
        Some(n) => if n <= usize::MAX {
            Some(n)
        } else {
            None
        },
        None => None,
    }
}

/// A flag: the explicit setting, else the variable when it reads as a
/// boolean, else on.
pub open spec fn resolve_flag(explicit: Option<bool>, var: Option<Seq<char>>) -> bool {
    match explicit {
        Some(b) => b,
        None => match var {
            Some(v) => match parse_bool(v) {
                Some(b) => b,
                None => true,
            },
            None => true,
        },
    }
}

/// A limit from a variable: its value when it reads as a `usize`, else 0.
pub open spec fn resolve_limit(var: Option<Seq<char>>) -> int {
    match var {
        Some(v) => match parse_usize(v) {
            Some(n) => n,
            None => 0,
        },
        None => 0,
    }
}

/// The view of an optional string.
pub open spec fn opt_text(o: Option<String>) -> Option<Seq<char>> {
    match o {
        Some(s) => Some(s@),
        None => None,
    }
}

/// Reads a boolean as `bool::from_str` does.
pub fn parse_bool_str(s: &str) -> (r: Option<bool>)
    ensures
        r == parse_bool(s@),
{
    if str_eq(s, "true") {
        Some(true)
    } else if str_eq(s, "false") {
        Some(false)
    } else {
        None
    }
}

/// Reads a number as `usize::from_str` does.
pub fn parse_usize_str(s: &str) -> (r: Option<usize>)
    ensures
        match r {
            Some(n) => parse_usize(s@) == Some(n as int),
            None => parse_usize(s@) is None,
        },
{
    let v = chars_of(s);
    proof {
        assert(v@.subrange(0, v@.len() as int) =~= s@);
    }
    match parse_u64_range(&v, 0, v.len()) {
        Some(n) => if n <= usize::MAX as u64 {
            Some(n as usize)
        } else {
            None
        },
        None => None,
    }
}

fn resolve_flag_exec(explicit: Option<bool>, var: &Option<String>) -> (r: bool)
    ensures
        r == resolve_flag(explicit, opt_text(*var)),
{
    match explicit {
        Some(b) => b,
        None => match var {
            Some(v) => match parse_bool_str(v.as_str()) {
                Some(b) => b,
                None => true,
            },
            None => true,
        },
    }
}

fn resolve_limit_exec(var: &Option<String>) -> (r: usize)
    ensures
        r as int == resolve_limit(opt_text(*var)),
{
    match var {
        Some(v) => match parse_usize_str(v.as_str()) {
            Some(n) => n,
            None => 0,
        },
        None => 0,
    }
}

/// Builds a [`Config`]; each setting left unset falls back to its
/// environment variable, then to a default.
#[derive(Debug)]
pub struct ConfigBuilder {
    backend_cmd: Option<String>,
    capping: Option<CappingConfig>,
    enable_diag_compress: Option<bool>,
    enable_completion_compress: Option<bool>,
    enable_hover_compress: Option<bool>,
    enable_document_symbol_compress: Option<bool>,
    enable_location_compress: Option<bool>,
    output_format: Option<OutputFormat>,
    log_level: Option<String>,
}

/// The settings a builder holds.
pub struct BuilderV {
    pub backend_cmd: Option<Seq<char>>,
    pub capping: Option<CappingConfig>,
    pub enable_diag_compress: Option<bool>,
    pub enable_completion_compress: Option<bool>,
    pub enable_hover_compress: Option<bool>,
    pub enable_document_symbol_compress: Option<bool>,
    pub enable_location_compress: Option<bool>,
    pub output_format: Option<OutputFormat>,
    pub log_level: Option<Seq<char>>,
}

impl View for ConfigBuilder {
    type V = BuilderV;

    closed spec fn view(&self) -> BuilderV {
        BuilderV {
            backend_cmd: opt_text(self.backend_cmd),
            capping: self.capping,
            enable_diag_compress: self.enable_diag_compress,
            enable_completion_compress: self.enable_completion_compress,
            enable_hover_compress: self.enable_hover_compress,
            enable_document_symbol_compress: self.enable_document_symbol_compress,
            enable_location_compress: self.enable_location_compress,
            output_format: self.output_format,
            log_level: opt_text(self.log_level),
        }
    }
}

impl Default for ConfigBuilder {
    fn default() -> (r: ConfigBuilder)
        ensures
            r.is_empty(),
    {
        ConfigBuilder {
            backend_cmd: None,
            capping: None,
            enable_diag_compress: None,
            enable_completion_compress: None,
            enable_hover_compress: None,
            enable_document_symbol_compress: None,
            enable_location_compress: None,
            output_format: None,
            log_level: None,
        }
    }
}

/// The configuration that settings and variables give, when a backend
/// command is known.
pub struct ConfigV {
    pub backend_cmd: Seq<char>,
    pub max_diags: int,
    pub max_completions: int,
    pub max_symbols: int,
    pub enable_diag_compress: bool,
    pub enable_completion_compress: bool,
    pub enable_hover_compress: bool,
    pub enable_document_symbol_compress: bool,
    pub enable_location_compress: bool,
    pub output_format: OutputFormat,
    pub log_level: Seq<char>,
}

/// The model of a configuration.
pub open spec fn config_view(c: Config) -> ConfigV {
    ConfigV {
        backend_cmd: c.backend_cmd@,
        max_diags: c.capping.max_diags as int,
        max_completions: c.capping.max_completions as int,
        max_symbols: c.capping.max_symbols as int,
        enable_diag_compress: c.enable_diag_compress,
        enable_completion_compress: c.enable_completion_compress,
        enable_hover_compress: c.enable_hover_compress,
        enable_document_symbol_compress: c.enable_document_symbol_compress,
        enable_location_compress: c.enable_location_compress,
        output_format: c.output_format,
        log_level: c.log_level@,
    }
}

/// The configuration a builder gives with the given variables: each setting
/// that is set wins; else its variable when it reads; else the default (all
/// compression on, TOON output, log level `info`, no limits). `None` when no
/// backend command is set either way.
pub open spec fn spec_build(b: BuilderV, env: EnvSettings) -> Option<ConfigV> {
    let backend = match b.backend_cmd {
        Some(c) => Some(c),
        None => opt_text(env.backend_cmd),
    };
    match backend {
        None => None,
        Some(cmd) => Some(
            ConfigV {
                backend_cmd: cmd,
                max_diags: match b.capping {
                    Some(c) => c.max_diags as int,
                    None => resolve_limit(opt_text(env.max_diags)),
                },
                max_completions: match b.capping {
                    Some(c) => c.max_completions as int,
                    None => resolve_limit(opt_text(env.max_completions)),
                },
                max_symbols: match b.capping {
                    Some(c) => c.max_symbols as int,
                    None => resolve_limit(opt_text(env.max_symbols)),
                },
                enable_diag_compress: resolve_flag(b.enable_diag_compress, opt_text(env.enable_diag_compress)),
                enable_completion_compress: resolve_flag(
                    b.enable_completion_compress,
                    opt_text(env.enable_completion_compress),
                ),
                enable_hover_compress: resolve_flag(b.enable_hover_compress, opt_text(env.enable_hover_compress)),
                enable_document_symbol_compress: resolve_flag(
                    b.enable_document_symbol_compress,
                    opt_text(env.enable_document_symbol_compress),
                ),
                enable_location_compress: resolve_flag(
                    b.enable_location_compress,
                    opt_text(env.enable_location_compress),
                ),
                output_format: match b.output_format {
                    Some(f) => f,
                    None => match opt_text(env.output_format) {
                        Some(v) => match spec_output_format(v) {
                            Some(f) => f,
                            None => OutputFormat::Toon,
                        },
                        None => OutputFormat::Toon,
                    },
                },
                log_level: match b.log_level {
                    Some(l) => l,
                    None => match opt_text(env.log_level) {
                        Some(l) => l,
                        None => "info"@,
                    },
                },
            },
        ),
    }
}

/// What is set on the builder wins over the environment: with every setting
/// made on the builder, the environment changes nothing.
pub proof fn lemma_builder_settings_win(b: BuilderV, env1: EnvSettings, env2: EnvSettings)
    requires
        b.backend_cmd is Some,
        b.capping is Some,
        b.enable_diag_compress is Some,
        b.enable_completion_compress is Some,
        b.enable_hover_compress is Some,
        b.enable_document_symbol_compress is Some,
        b.enable_location_compress is Some,
        b.output_format is Some,
        b.log_level is Some,
    ensures
        spec_build(b, env1) == spec_build(b, env2),
        spec_build(b, env1) is Some,
{
}

/// A configuration can be built exactly when a backend command is given, on
/// the builder or in the environment.
pub proof fn lemma_backend_required(b: BuilderV, env: EnvSettings)
    ensures
        (spec_build(b, env) is Some) == (b.backend_cmd is Some || env.backend_cmd is Some),
{
}

fn copy_opt_string(o: &Option<String>) -> (r: Option<String>)
    ensures
        opt_text(r) == opt_text(*o),
{
    match o {
        Some(s) => Some(s.clone()),
        None => None,
    }
}

impl ConfigBuilder {
    /// Whether nothing is set.
    pub open spec fn is_empty(&self) -> bool {
        let v = self@;
        &&& v.backend_cmd is None
        &&& v.capping is None
        &&& v.enable_diag_compress is None
        &&& v.enable_completion_compress is None
        &&& v.enable_hover_compress is None
        &&& v.enable_document_symbol_compress is None
        &&& v.enable_location_compress is None
        &&& v.output_format is None
        &&& v.log_level is None
    }

    /// Sets the backend command.
    pub fn backend_cmd(self, cmd: &str) -> (r: ConfigBuilder)
        ensures
            r@ == (BuilderV { backend_cmd: Some(cmd@), ..self@ }),
    {
        ConfigBuilder { backend_cmd: Some(cmd.to_owned()), ..self }
    }

    /// Turns diagnostic compression on or off.
    pub fn enable_diag_compress(self, enable: bool) -> (r: ConfigBuilder)
        ensures
            r@ == (BuilderV { enable_diag_compress: Some(enable), ..self@ }),
    {
        ConfigBuilder { enable_diag_compress: Some(enable), ..self }
    }

    /// Turns completion compression on or off.
    pub fn enable_completion_compress(self, enable: bool) -> (r: ConfigBuilder)
        ensures
            r@ == (BuilderV { enable_completion_compress: Some(enable), ..self@ }),
    {
        ConfigBuilder { enable_completion_compress: Some(enable), ..self }
    }

    /// Turns hover compression on or off.
    pub fn enable_hover_compress(self, enable: bool) -> (r: ConfigBuilder)
        ensures
            r@ == (BuilderV { enable_hover_compress: Some(enable), ..self@ }),
    {
        ConfigBuilder { enable_hover_compress: Some(enable), ..self }
    }

    /// Turns document symbol compression on or off.
    pub fn enable_document_symbol_compress(self, enable: bool) -> (r: ConfigBuilder)
        ensures
            r@ == (BuilderV { enable_document_symbol_compress: Some(enable), ..self@ }),
    {
        ConfigBuilder { enable_document_symbol_compress: Some(enable), ..self }
    }

    /// Turns location compression on or off.
    pub fn enable_location_compress(self, enable: bool) -> (r: ConfigBuilder)
        ensures
            r@ == (BuilderV { enable_location_compress: Some(enable), ..self@ }),
    {
        ConfigBuilder { enable_location_compress: Some(enable), ..self }
    }

    /// Sets the output format.
    pub fn output_format(self, fmt: OutputFormat) -> (r: ConfigBuilder)
        ensures
            r@ == (BuilderV { output_format: Some(fmt), ..self@ }),
    {
        ConfigBuilder { output_format: Some(fmt), ..self }
    }

    /// Sets the log level.
    pub fn log_level(self, level: &str) -> (r: ConfigBuilder)
        ensures
            r@ == (BuilderV { log_level: Some(level@), ..self@ }),
    {
        ConfigBuilder { log_level: Some(level.to_owned()), ..self }
    }

    /// Sets the response limits.
    pub fn capping(self, capping: CappingConfig) -> (r: ConfigBuilder)
        ensures
            r@ == (BuilderV { capping: Some(capping), ..self@ }),
    {
        ConfigBuilder { capping: Some(capping), ..self }
    }

    /// Builds the configuration, with `env` holding the `LSPZ_*` variables; a
    /// configuration error when no backend command is set either way.
    pub fn build(self, env: &EnvSettings) -> (r: Result<Config, LspzError>)
        ensures
            match spec_build(self@, *env) {
                Some(c) => r matches Ok(cfg) && config_view(cfg) == c,
                None => r matches Err(LspzError::Config(m)) && m@ == "backend_cmd is required"@,
            },
    {
        let ghost b = self@;
        let backend_cmd = match self.backend_cmd {
            Some(c) => c,
            None => match copy_opt_string(&env.backend_cmd) {
                Some(c) => c,
                None => return Err(config_error("backend_cmd is required")),
            },
        };
        let enable_diag_compress = resolve_flag_exec(self.enable_diag_compress, &env.enable_diag_compress);
        let enable_completion_compress = resolve_flag_exec(
            self.enable_completion_compress,
            &env.enable_completion_compress,
        );
        let enable_hover_compress = resolve_flag_exec(self.enable_hover_compress, &env.enable_hover_compress);
        let enable_document_symbol_compress = resolve_flag_exec(
            self.enable_document_symbol_compress,
            &env.enable_document_symbol_compress,
        );
        let enable_location_compress = resolve_flag_exec(
            self.enable_location_compress,
            &env.enable_location_compress,
        );
        let log_level = match self.log_level {
            Some(l) => l,
            None => match copy_opt_string(&env.log_level) {
                Some(l) => l,
                None => "info".to_owned(),
            },
        };
        let output_format = match self.output_format {
            Some(f) => f,
            None => match &env.output_format {
                Some(v) => match OutputFormat::from_str(v.as_str()) {
                    Ok(f) => f,
                    Err(_) => OutputFormat::Toon,
                },
                None => OutputFormat::Toon,
            },
        };
        let capping = match self.capping {
            Some(c) => c,
            None => CappingConfig {
                max_diags: resolve_limit_exec(&env.max_diags),
                max_completions: resolve_limit_exec(&env.max_completions),
                max_symbols: resolve_limit_exec(&env.max_symbols),
            },
        };
        let cfg = Config {
            backend_cmd,
            capping,
            enable_diag_compress,
            enable_completion_compress,
            enable_hover_compress,
            enable_document_symbol_compress,
            enable_location_compress,
            output_format,
            log_level,
        };
        proof {
            assert(config_view(cfg) == spec_build(b, *env).unwrap());
        }
        Ok(cfg)
    }
}

} // verus!
