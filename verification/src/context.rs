use vstd::prelude::*;

verus! {

/// The context file: a format version and the list of environments a
/// command can target.
#[derive(Debug, PartialEq)]
pub struct Context {
    pub version: String,
    pub environment: Vec<Environment>,
}

/// One target environment from the context file.
#[derive(Debug, PartialEq)]
pub struct Environment {
    pub name: String,
    pub target: String,
    pub org_id: Option<String>,
    pub set: Option<bool>,
}

/// The tool's own directory under a home directory.
pub fn tembo_home_dir(home: &String) -> (r: String)
    ensures
        r@ == home@ + "/.tembo"@,
{
    let mut out = home.clone();
    out.append("/.tembo");
    out
}

/// The context file location under a home directory.
///
/// The caller supplies the home directory, so the result is a pure
/// function of its argument.
pub fn tembo_context_file_path(home: &String) -> (r: String)
    ensures
        r@ == home@ + "/.tembo/context"@,
{
    let mut out = tembo_home_dir(home);
    out.append("/context");
    proof {
        reveal_strlit("/.tembo");
        reveal_strlit("/context");
        reveal_strlit("/.tembo/context");
        assert(("/.tembo"@ + "/context"@) =~= "/.tembo/context"@);
        assert(out@ =~= home@ + "/.tembo/context"@);
    }
    out
}

} // verus!
