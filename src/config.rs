//! Configuration values and personal-access-token resolution. Reading and
//! writing the configuration file happens outside the library.

use vstd::prelude::*;
use crate::text::{trim, trimmed};

verus! {

/// Where the token comes from, or why there is none.
#[derive(Debug, Clone, Copy, PartialEq, Eq, Structural)]
pub enum PatSource {
    Env,
    Config,
    Missing,
    InvalidEnvWhitespace,
    InvalidConfigWhitespace,
}

/// The outcome of token resolution.
#[derive(Debug, Clone)]
pub enum PatResolution {
    Valid { source: PatSource, token: String },
    Missing,
    InvalidEnvWhitespace,
    InvalidConfigWhitespace,
}

/// The whole configuration.
#[derive(Debug, Clone)]
pub struct Config {
    pub azure_devops: AzureDevOpsConfig,
    pub branches: BranchConfig,
}

/// The work-item service settings.
#[derive(Debug, Clone)]
pub struct AzureDevOpsConfig {
    pub organization_url: String,
    pub pat: Option<String>,
}

/// Branch settings: patterns (with `*` wildcards) of protected branches.
#[derive(Debug, Clone)]
pub struct BranchConfig {
    pub protected: Vec<String>,
}

/// The patterns used when none are configured: `main` and `master`.
pub open spec fn default_patterns(p: Seq<String>) -> bool {
    p.len() == 2 && p[0]@ == "main"@ && p[1]@ == "master"@
}

/// The protected-branch patterns used when none are configured.
pub fn default_protected_patterns() -> (r: Vec<String>)
    ensures
        default_patterns(r@),
{
    let mut r: Vec<String> = Vec::new();
    r.push("main".to_string());
    r.push("master".to_string());
    r
}

/// Copies a list of strings.
fn copy_strings(v: &Vec<String>) -> (r: Vec<String>)
    ensures
        r@.len() == v@.len(),
        forall|i: int| 0 <= i < v@.len() ==> #[trigger] r@[i]@ == v@[i]@,
{
    let mut r: Vec<String> = Vec::new();
    let mut i: usize = 0;
    while i < v.len()
        invariant
            i <= v@.len(),
            r@.len() == i,
            forall|k: int| 0 <= k < i ==> #[trigger] r@[k]@ == v@[k]@,
        decreases v@.len() - i,
    {
        r.push(v[i].clone());
        i = i + 1;
    }
    r
}

impl Default for AzureDevOpsConfig {
    fn default() -> (r: Self)
        ensures
            r.organization_url@ == "https://dev.azure.com/your-organization"@,
            r.pat is None,
    {
        AzureDevOpsConfig {
            organization_url: "https://dev.azure.com/your-organization".to_string(),
            pat: None,
        }
    }
}

impl Default for BranchConfig {
    fn default() -> (r: Self)
        ensures
            r.protected@.len() == 0,
    {
        BranchConfig { protected: Vec::new() }
    }
}

impl Default for Config {
    fn default() -> (r: Self)
        ensures
            r.azure_devops.organization_url@ == "https://dev.azure.com/your-organization"@,
            r.azure_devops.pat is None,
            default_patterns(r.branches.protected@),
    {
        Config {
            azure_devops: AzureDevOpsConfig::default(),
            branches: BranchConfig { protected: default_protected_patterns() },
        }
    }
}

impl BranchConfig {
    /// The configured patterns, or the defaults when none are configured.
    pub fn protected_patterns(&self) -> (r: Vec<String>)
        ensures
            self.protected@.len() == 0 ==> default_patterns(r@),
            self.protected@.len() > 0 ==> r@.len() == self.protected@.len() && forall|i: int|
                0 <= i < r@.len() ==> #[trigger] r@[i]@ == self.protected@[i]@,
    {
        if self.protected.len() == 0 {
            default_protected_patterns()
        } else {
            copy_strings(&self.protected)
        }
    }
}

/// How the token resolves: a set environment variable wins over the
/// configuration; a value that is empty or white space is an error, with
/// no fallback.
pub open spec fn pat_outcome(env: Option<Seq<char>>, cfg: Option<Seq<char>>) -> (PatSource, Seq<char>) {
    match env {
        Some(e) => if trimmed(e).len() == 0 {
            (PatSource::InvalidEnvWhitespace, Seq::empty())
        } else {
            (PatSource::Env, trimmed(e))
        },
        None => match cfg {
            Some(c) => if trimmed(c).len() == 0 {
                (PatSource::InvalidConfigWhitespace, Seq::empty())
            } else {
                (PatSource::Config, trimmed(c))
            },
            None => (PatSource::Missing, Seq::empty()),
        },
    }
}

/// The view of an optional string.
pub open spec fn opt_view(o: Option<String>) -> Option<Seq<char>> {
    match o {
        Some(s) => Some(s@),
        None => None,
    }
}

impl Config {
    /// Resolves the token from the environment variable's value (if set) and the configuration.
    pub fn resolve_pat_resolution(&self, env_pat: Option<String>) -> (r: PatResolution)
        ensures
            ({
                let (src, tok) = pat_outcome(opt_view(env_pat), opt_view(self.azure_devops.pat));
                match r {
                    PatResolution::Valid { source, token } => (src == PatSource::Env || src
                        == PatSource::Config) && source == src && token@ == tok,
                    PatResolution::Missing => src == PatSource::Missing,
                    PatResolution::InvalidEnvWhitespace => src == PatSource::InvalidEnvWhitespace,
                    PatResolution::InvalidConfigWhitespace => src
                        == PatSource::InvalidConfigWhitespace,
                }
            }),
    {
        if let Some(pat) = env_pat {
            let t = trim(pat.as_str());
            if t.as_str().unicode_len() == 0 {
                return PatResolution::InvalidEnvWhitespace;
            }
            return PatResolution::Valid { source: PatSource::Env, token: t };
        }
        if let Some(pat) = &self.azure_devops.pat {
            let t = trim(pat.as_str());
            if t.as_str().unicode_len() == 0 {
                return PatResolution::InvalidConfigWhitespace;
            }
            return PatResolution::Valid { source: PatSource::Config, token: t };
        }
        PatResolution::Missing
    }

    /// The token, or an error that says how to provide one.
    pub fn resolve_pat(&self, env_pat: Option<String>) -> (r: Result<String, String>)
        ensures
            ({
                let (src, tok) = pat_outcome(opt_view(env_pat), opt_view(self.azure_devops.pat));
                &&& r is Ok <==> (src == PatSource::Env || src == PatSource::Config)
                &&& r matches Ok(t) ==> t@ == tok
                &&& r matches Err(e) ==> e@ == pat_error_message(src)
            }),
    {
        match self.resolve_pat_resolution(env_pat) {
            PatResolution::Valid { token, .. } => Ok(token),
            PatResolution::InvalidEnvWhitespace => Err(
                "CAZDO_PAT is set but empty/whitespace. Set a valid token or unset CAZDO_PAT to use config value.".to_string(),
            ),
            PatResolution::InvalidConfigWhitespace => Err(
                "Config value [azure_devops].pat is empty/whitespace. Set a valid token or remove the field.".to_string(),
            ),
            PatResolution::Missing => Err(
                "Azure DevOps PAT not found.\n\nYou can set it in two ways (checked in order):\n1. Environment variable: export CAZDO_PAT=\"your-token\"\n2. Config file: Add 'pat = \"your-token\"' under [azure_devops] section in config.toml\n\nThe PAT needs 'Work Items (Read)' permission.".to_string(),
            ),
        }
    }

    /// Where the token would come from, or why there is none.
    pub fn resolve_pat_source(&self, env_pat: Option<String>) -> (r: PatSource)
        ensures
            r == pat_outcome(opt_view(env_pat), opt_view(self.azure_devops.pat)).0,
    {
        match self.resolve_pat_resolution(env_pat) {
            PatResolution::Valid { source, .. } => source,
            PatResolution::Missing => PatSource::Missing,
            PatResolution::InvalidEnvWhitespace => PatSource::InvalidEnvWhitespace,
            PatResolution::InvalidConfigWhitespace => PatSource::InvalidConfigWhitespace,
        }
    }
}

/// The text without the slashes that end it.
pub open spec fn without_trailing_slashes(s: Seq<char>) -> Seq<char>
    decreases s.len(),
{
    if s.len() > 0 && s.last() == '/' {
        without_trailing_slashes(s.drop_last())
    } else {
        s
    }
}

impl AzureDevOpsConfig {
    /// The organization URL without trailing slashes, ready for API paths.
    pub fn base_url(&self) -> (r: String)
        ensures
            r@ == without_trailing_slashes(self.organization_url@),
    {
        let cs = crate::text::chars_of(self.organization_url.as_str());
        let mut n: usize = cs.len();
        assert(cs@.take(n as int) =~= cs@);
        while n > 0 && cs[n - 1] == '/'
            invariant
                n <= cs@.len(),
                without_trailing_slashes(cs@) == without_trailing_slashes(cs@.take(n as int)),
            decreases n,
        {
            assert(cs@.take(n as int).drop_last() =~= cs@.take(n - 1));
            n = n - 1;
        }
        let mut out: Vec<char> = Vec::new();
        let mut i: usize = 0;
        while i < n
            invariant
                i <= n <= cs@.len(),
                out@ == cs@.take(i as int),
            decreases n - i,
        {
            out.push(cs[i]);
            assert(cs@.take(i + 1) =~= cs@.take(i as int).push(cs@[i as int]));
            i = i + 1;
        }
        proof {
            if n > 0 {
                assert(cs@.take(n as int).last() == cs@[n - 1]);
            }
        }
        crate::text::string_of(&out)
    }
}

/// The error shown when no usable token resolves.
pub open spec fn pat_error_message(src: PatSource) -> Seq<char> {
    match src {
        PatSource::InvalidEnvWhitespace => "CAZDO_PAT is set but empty/whitespace. Set a valid token or unset CAZDO_PAT to use config value."@,
        PatSource::InvalidConfigWhitespace => "Config value [azure_devops].pat is empty/whitespace. Set a valid token or remove the field."@,
        _ => "Azure DevOps PAT not found.\n\nYou can set it in two ways (checked in order):\n1. Environment variable: export CAZDO_PAT=\"your-token\"\n2. Config file: Add 'pat = \"your-token\"' under [azure_devops] section in config.toml\n\nThe PAT needs 'Work Items (Read)' permission."@,
    }
}

} // verus!
