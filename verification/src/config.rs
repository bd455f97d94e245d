use crate::instance::{Instance, InstanceView};
use vstd::prelude::*;

verus! {

/// The durable configuration aggregate: a format version, optional
/// cloud credentials, and the list of known instances.
#[derive(Debug, PartialEq)]
pub struct Config {
    pub version: String,
    pub jwt: Option<String>,
    pub org_id: Option<String>,
    pub instances: Vec<Instance>,
}

/// Mathematical image of a `Config`.
#[verifier::ext_equal]
pub ghost struct ConfigView {
    pub version: Seq<char>,
    pub jwt: Option<Seq<char>>,
    pub org_id: Option<Seq<char>>,
    pub instances: Seq<InstanceView>,
}

impl DeepView for Config {
    type V = ConfigView;

    open spec fn deep_view(&self) -> ConfigView {
        ConfigView {
            version: self.version.deep_view(),
            jwt: self.jwt.deep_view(),
            org_id: self.org_id.deep_view(),
            instances: self.instances.deep_view(),
        }
    }
}

impl ConfigView {
    /// Every persisted instance carries a name; the lookup and enable
    /// operations rely on this.
    pub open spec fn wf(self) -> bool {
        forall|k: int| 0 <= k < self.instances.len() ==> (#[trigger] self.instances[k].name) is Some
    }
}

impl Default for Config {
    /// The empty configuration a missing file is initialized to.
    fn default() -> (res: Self)
        ensures
            res.deep_view().version == "1.0"@,
            res.deep_view().jwt is None,
            res.deep_view().org_id is None,
            res.deep_view().instances =~= Seq::<InstanceView>::empty(),
            res.deep_view().wf(),
    {
        Config {
            version: "1.0".to_owned(),
            jwt: None,
            org_id: None,
            instances: Vec::new(),
        }
    }
}

impl Config {
    /// Appending to the configuration file in place is not supported;
    /// the file is always rewritten whole.  Kept as a successful no-op.
    pub fn append() -> (r: Result<(), crate::CliError>)
        ensures
            r is Ok,
    {
        Ok(())
    }
}

/// Relies on home::home_dir for the user's home directory.  The
/// result depends on the process environment, so nothing is promised
/// of it; callers take the returned value as an arbitrary input.
#[verifier::external_body]
pub fn home_dir_path() -> (r: Option<String>)
{
    match home::home_dir() {
        Some(p) => Some(p.display().to_string()),
        None => None,
    }
}

impl Config {
    /// Reads a configuration from file contents; anything that is not
    /// a well-formed configuration file is a configuration I/O error.
    ///
    /// Exactly the encodings of configurations load, and they load to
    /// the encoded configuration (see `crate::codec::parse_config`).
    pub fn load_str(contents: &str) -> (r: Result<Config, crate::CliError>)
        ensures
            r matches Ok(c) ==> contents@ == crate::codec::enc_config(c.deep_view()),
            r matches Err(e) ==> e == crate::CliError::ConfigIoError,
            forall|cv: ConfigView|
                contents@ == #[trigger] crate::codec::enc_config(cv) ==> (r is Ok
                    && r.unwrap().deep_view() == cv),
    {
        match crate::codec::parse_config(contents) {
            Some(c) => Ok(c),
            None => Err(crate::CliError::ConfigIoError),
        }
    }
}

/// A path is taken to be relative when it does not start with the
/// root separator.  Paths are modelled as plain strings joined by
/// `'/'`.
pub open spec fn is_relative_path(p: Seq<char>) -> bool {
    p.len() == 0 || p[0] != '/'
}

/// Decides `is_relative_path`.
pub fn path_is_relative(p: &str) -> (r: bool)
    ensures
        r == is_relative_path(p@),
{
    p.unicode_len() == 0 || p.get_char(0) != '/'
}

/// The configuration file location under a home directory.
pub open spec fn default_config_path(home: Seq<char>) -> Seq<char> {
    home + "/.config/tembo/configuration.toml"@
}

/// Resolves the configuration file path.
///
/// An explicit path wins, made absolute against `cwd` when relative;
/// otherwise the fixed file under the home directory is used; when no
/// home directory is known, the current directory itself.
///
/// The caller supplies the current and home directories, so the
/// resolution is a pure function of its arguments.
pub fn full_path(explicit: Option<&String>, cwd: &String, home: Option<&String>) -> (r: String)
    ensures
        match explicit {
            Some(p) => if is_relative_path(p@) {
                r@ == cwd@ + "/"@ + p@
            } else {
                r@ == p@
            },
            None => match home {
                Some(h) => r@ == default_config_path(h@),
                None => r@ == cwd@,
            },
        },
{
    match explicit {
        Some(p) => {
            if path_is_relative(p.as_str()) {
                let mut out = cwd.clone();
                out.append("/");
                out.append(p.as_str());
                out
            } else {
                p.clone()
            }
        },
        None => match home {
            Some(h) => {
                let mut out = h.clone();
                out.append("/.config/tembo/configuration.toml");
                out
            },
            None => cwd.clone(),
        },
    }
}

} // verus!
