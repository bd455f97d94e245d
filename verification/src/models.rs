use crate::strutil::strings_equal;
use std::collections::HashMap;
use vstd::prelude::*;

verus! {

/// Which platform connection an environment variable refers to.
#[derive(Debug, Clone, Copy, PartialEq, Eq, PartialOrd, Ord, Hash)]
pub enum EnvVarRef {
    ReadOnlyConnection,
    ReadWriteConnection,
}

/// The wire label of an `EnvVarRef`.
pub open spec fn env_var_ref_label(v: EnvVarRef) -> Seq<char> {
    match v {
        EnvVarRef::ReadOnlyConnection => "ReadOnlyConnection"@,
        EnvVarRef::ReadWriteConnection => "ReadWriteConnection"@,
    }
}

impl EnvVarRef {
    /// The wire label of this value.
    pub fn to_string(&self) -> (r: String)
        ensures
            r@ == env_var_ref_label(*self),
    {
        match self {
            EnvVarRef::ReadOnlyConnection => "ReadOnlyConnection".to_owned(),
            EnvVarRef::ReadWriteConnection => "ReadWriteConnection".to_owned(),
        }
    }
}

impl Default for EnvVarRef {
    fn default() -> (r: EnvVarRef)
        ensures
            r == EnvVarRef::ReadOnlyConnection,
    {
        EnvVarRef::ReadOnlyConnection
    }
}

/// An environment variable handed to a provisioned container: a
/// literal value, or a reference the platform fills in.
#[derive(Debug, Clone, PartialEq)]
pub struct EnvVar {
    pub name: String,
    pub value: Option<Option<String>>,
    pub value_from_platform: Option<Option<EnvVarRef>>,
}

impl EnvVar {
    /// A variable with a name and nothing set.
    pub fn new(name: String) -> (r: EnvVar)
        ensures
            r.name@ == name@,
            r.value is None,
            r.value_from_platform is None,
    {
        EnvVar { name, value: None, value_from_platform: None }
    }
}

/// A memory allowance, in the sizes the control plane offers.
#[derive(Debug, Clone, Copy, PartialEq, Eq, PartialOrd, Ord, Hash)]
pub enum Memory {
    Variant1Gi,
    Variant2Gi,
    Variant4Gi,
    Variant8Gi,
    Variant16Gi,
    Variant32Gi,
}

/// The wire label of a `Memory`.
pub open spec fn memory_label(m: Memory) -> Seq<char> {
    match m {
        Memory::Variant1Gi => "1Gi"@,
        Memory::Variant2Gi => "2Gi"@,
        Memory::Variant4Gi => "4Gi"@,
        Memory::Variant8Gi => "8Gi"@,
        Memory::Variant16Gi => "16Gi"@,
        Memory::Variant32Gi => "32Gi"@,
    }
}

/// The `Memory` a wire label names, if any.
pub open spec fn spec_memory_from(s: Seq<char>) -> Result<Memory, ()> {
    if s == "1Gi"@ {
        Ok(Memory::Variant1Gi)
    } else if s == "2Gi"@ {
        Ok(Memory::Variant2Gi)
    } else if s == "4Gi"@ {
        Ok(Memory::Variant4Gi)
    } else if s == "8Gi"@ {
        Ok(Memory::Variant8Gi)
    } else if s == "16Gi"@ {
        Ok(Memory::Variant16Gi)
    } else if s == "32Gi"@ {
        Ok(Memory::Variant32Gi)
    } else {
        Err(())
    }
}

impl Memory {
    /// The wire label of this value.
    pub fn to_string(&self) -> (r: String)
        ensures
            r@ == memory_label(*self),
    {
        match self {
            Memory::Variant1Gi => "1Gi".to_owned(),
            Memory::Variant2Gi => "2Gi".to_owned(),
            Memory::Variant4Gi => "4Gi".to_owned(),
            Memory::Variant8Gi => "8Gi".to_owned(),
            Memory::Variant16Gi => "16Gi".to_owned(),
            Memory::Variant32Gi => "32Gi".to_owned(),
        }
    }

    /// Parses a wire label; exactly the six labels are accepted.
    pub fn from_str(input: &str) -> (r: Result<Memory, ()>)
        ensures
            r == spec_memory_from(input@),
    {
        if strings_equal(input, "1Gi") {
            Ok(Memory::Variant1Gi)
        } else if strings_equal(input, "2Gi") {
            Ok(Memory::Variant2Gi)
        } else if strings_equal(input, "4Gi") {
            Ok(Memory::Variant4Gi)
        } else if strings_equal(input, "8Gi") {
            Ok(Memory::Variant8Gi)
        } else if strings_equal(input, "16Gi") {
            Ok(Memory::Variant16Gi)
        } else if strings_equal(input, "32Gi") {
            Ok(Memory::Variant32Gi)
        } else {
            Err(())
        }
    }
}

impl Default for Memory {
    fn default() -> (r: Memory)
        ensures
            r == Memory::Variant1Gi,
    {
        Memory::Variant1Gi
    }
}

/// Postgres settings carried in an instance-settings section.
#[derive(Debug, Clone, PartialEq)]
pub struct PostgresConfig {
    pub statement_timeout: String,
}

/// A path-rewrite rule: a pattern and its replacement.
#[derive(Debug, Clone, PartialEq)]
pub struct ReplacePathRegexConfig {
    pub regex: String,
    pub replacement: String,
}

/// The middleware variant that rewrites request paths.
#[derive(Debug, Clone, PartialEq)]
pub struct MiddlewareOneOf2 {
    pub replace_path_regex: Box<ReplacePathRegexConfig>,
}

impl MiddlewareOneOf2 {
    /// Wraps a path-rewrite rule.
    pub fn new(replace_path_regex: ReplacePathRegexConfig) -> (r: MiddlewareOneOf2)
        ensures
            r.replace_path_regex.regex@ == replace_path_regex.regex@,
            r.replace_path_regex.replacement@ == replace_path_regex.replacement@,
    {
        MiddlewareOneOf2 { replace_path_regex: Box::new(replace_path_regex) }
    }
}

/// A named resource claim of a pooler container.
#[derive(Debug, Clone, PartialEq)]
pub struct PoolerTemplateSpecContainersResourcesClaims {
    pub name: String,
}

/// A resource quantity: a count or a unit-suffixed string.
#[derive(Debug, Clone, PartialEq)]
pub enum IntOrString {
    Int(i64),
    Str(String),
}

/// The resource section of a pooler container template.
#[derive(Debug, Clone, PartialEq)]
pub struct PoolerTemplateSpecContainersResources {
    pub claims: Option<Option<Vec<PoolerTemplateSpecContainersResourcesClaims>>>,
    pub limits: Option<Option<HashMap<String, IntOrString>>>,
    pub requests: Option<Option<HashMap<String, IntOrString>>>,
}

impl PoolerTemplateSpecContainersResources {
    /// A resource section with nothing set.
    pub fn new() -> (r: PoolerTemplateSpecContainersResources)
        ensures
            r.claims is None,
            r.limits is None,
            r.requests is None,
    {
        PoolerTemplateSpecContainersResources { claims: None, limits: None, requests: None }
    }
}

} // verus!
