use crate::extension::{clone_locations, clone_opt_string, ExtensionLocation, LocationView};
use vstd::prelude::*;

verus! {

/// A build-time extension install recorded on an instance.
#[derive(Debug, PartialEq)]
pub struct InstalledExtension {
    pub name: Option<String>,
    pub version: Option<String>,
    pub created_at: Option<u64>,
}

/// Mathematical image of an `InstalledExtension`.
#[verifier::ext_equal]
pub ghost struct InstalledExtensionView {
    pub name: Option<Seq<char>>,
    pub version: Option<Seq<char>>,
    pub created_at: Option<u64>,
}

impl DeepView for InstalledExtension {
    type V = InstalledExtensionView;

    open spec fn deep_view(&self) -> InstalledExtensionView {
        InstalledExtensionView {
            name: self.name.deep_view(),
            version: self.version.deep_view(),
            created_at: self.created_at,
        }
    }
}

impl Clone for InstalledExtension {
    fn clone(&self) -> (res: Self)
        ensures
            res.deep_view() == self.deep_view(),
    {
        let res = InstalledExtension {
            name: clone_opt_string(&self.name),
            version: clone_opt_string(&self.version),
            created_at: self.created_at,
        };
        assert(res.deep_view() =~= self.deep_view());
        res
    }
}

/// A runtime extension enable recorded on an instance, with the
/// locations it was enabled at.
#[derive(Debug, PartialEq)]
pub struct EnabledExtension {
    pub name: Option<String>,
    pub version: Option<String>,
    pub created_at: Option<u64>,
    pub locations: Vec<ExtensionLocation>,
}

/// Mathematical image of an `EnabledExtension`.
#[verifier::ext_equal]
pub ghost struct EnabledExtensionView {
    pub name: Option<Seq<char>>,
    pub version: Option<Seq<char>>,
    pub created_at: Option<u64>,
    pub locations: Seq<LocationView>,
}

impl DeepView for EnabledExtension {
    type V = EnabledExtensionView;

    open spec fn deep_view(&self) -> EnabledExtensionView {
        EnabledExtensionView {
            name: self.name.deep_view(),
            version: self.version.deep_view(),
            created_at: self.created_at,
            locations: self.locations.deep_view(),
        }
    }
}

impl Clone for EnabledExtension {
    fn clone(&self) -> (res: Self)
        ensures
            res.deep_view() == self.deep_view(),
    {
        let res = EnabledExtension {
            name: clone_opt_string(&self.name),
            version: clone_opt_string(&self.version),
            created_at: self.created_at,
            locations: clone_locations(&self.locations),
        };
        assert(res.deep_view() =~= self.deep_view());
        res
    }
}

/// A database that exists on an instance.
#[derive(Debug, PartialEq)]
pub struct Database {
    pub name: String,
}

/// Mathematical image of a `Database`.
#[verifier::ext_equal]
pub ghost struct DatabaseView {
    pub name: Seq<char>,
}

impl DeepView for Database {
    type V = DatabaseView;

    open spec fn deep_view(&self) -> DatabaseView {
        DatabaseView { name: self.name.deep_view() }
    }
}

impl Clone for Database {
    fn clone(&self) -> (res: Self)
        ensures
            res.deep_view() == self.deep_view(),
    {
        let res = Database { name: self.name.clone() };
        assert(res.deep_view() =~= self.deep_view());
        res
    }
}

/// A user-created local instance of a stack: the durable record the
/// configuration file persists.
///
/// `created_at` is seconds since the Unix epoch.
#[derive(Debug, PartialEq)]
pub struct Instance {
    pub name: Option<String>,
    pub stack_type: Option<String>,
    pub port: Option<String>,
    pub version: Option<String>,
    pub created_at: Option<u64>,
    pub installed_extensions: Vec<InstalledExtension>,
    pub enabled_extensions: Vec<EnabledExtension>,
    pub databases: Vec<Database>,
}

/// Mathematical image of an `Instance`.
#[verifier::ext_equal]
pub ghost struct InstanceView {
    pub name: Option<Seq<char>>,
    pub stack_type: Option<Seq<char>>,
    pub port: Option<Seq<char>>,
    pub version: Option<Seq<char>>,
    pub created_at: Option<u64>,
    pub installed_extensions: Seq<InstalledExtensionView>,
    pub enabled_extensions: Seq<EnabledExtensionView>,
    pub databases: Seq<DatabaseView>,
}

impl DeepView for Instance {
    type V = InstanceView;

    open spec fn deep_view(&self) -> InstanceView {
        InstanceView {
            name: self.name.deep_view(),
            stack_type: self.stack_type.deep_view(),
            port: self.port.deep_view(),
            version: self.version.deep_view(),
            created_at: self.created_at,
            installed_extensions: self.installed_extensions.deep_view(),
            enabled_extensions: self.enabled_extensions.deep_view(),
            databases: self.databases.deep_view(),
        }
    }
}

/// Clones an installed-extension list; the copy has the same view.
pub fn clone_installed(v: &Vec<InstalledExtension>) -> (res: Vec<InstalledExtension>)
    ensures
        res.deep_view() == v.deep_view(),
{
    let mut out: Vec<InstalledExtension> = Vec::new();
    let mut k: usize = 0;
    while k < v.len()
        invariant
            0 <= k <= v.len(),
            out.deep_view() =~~= v.deep_view().take(k as int),
        decreases v.len() - k,
    {
        let ghost pre = out.deep_view();
        let x = v[k].clone();
        out.push(x);
        assert(forall|i: int| 0 <= i < pre.len() ==> out.deep_view()[i] == pre[i]);
        assert(out.deep_view() =~~= v.deep_view().take(k + 1));
        k += 1;
    }
    assert(out.deep_view() =~~= v.deep_view());
    out
}

/// Clones an enabled-extension list; the copy has the same view.
pub fn clone_enabled(v: &Vec<EnabledExtension>) -> (res: Vec<EnabledExtension>)
    ensures
        res.deep_view() == v.deep_view(),
{
    let mut out: Vec<EnabledExtension> = Vec::new();
    let mut k: usize = 0;
    while k < v.len()
        invariant
            0 <= k <= v.len(),
            out.deep_view() =~~= v.deep_view().take(k as int),
        decreases v.len() - k,
    {
        let ghost pre = out.deep_view();
        let x = v[k].clone();
        out.push(x);
        assert(forall|i: int| 0 <= i < pre.len() ==> out.deep_view()[i] == pre[i]);
        assert(out.deep_view() =~~= v.deep_view().take(k + 1));
        k += 1;
    }
    assert(out.deep_view() =~~= v.deep_view());
    out
}

/// Clones a database list; the copy has the same view.
pub fn clone_databases(v: &Vec<Database>) -> (res: Vec<Database>)
    ensures
        res.deep_view() == v.deep_view(),
{
    let mut out: Vec<Database> = Vec::new();
    let mut k: usize = 0;
    while k < v.len()
        invariant
            0 <= k <= v.len(),
            out.deep_view() =~~= v.deep_view().take(k as int),
        decreases v.len() - k,
    {
        let ghost pre = out.deep_view();
        let x = v[k].clone();
        out.push(x);
        assert(forall|i: int| 0 <= i < pre.len() ==> out.deep_view()[i] == pre[i]);
        assert(out.deep_view() =~~= v.deep_view().take(k + 1));
        k += 1;
    }
    assert(out.deep_view() =~~= v.deep_view());
    out
}

impl Clone for Instance {
    fn clone(&self) -> (res: Self)
        ensures
            res.deep_view() == self.deep_view(),
    {
        let res = Instance {
            name: clone_opt_string(&self.name),
            stack_type: clone_opt_string(&self.stack_type),
            port: clone_opt_string(&self.port),
            version: clone_opt_string(&self.version),
            created_at: self.created_at,
            installed_extensions: clone_installed(&self.installed_extensions),
            enabled_extensions: clone_enabled(&self.enabled_extensions),
            databases: clone_databases(&self.databases),
        };
        assert(res.deep_view() =~= self.deep_view());
        res
    }
}

/// Failure to locate an instance by name; carries the name looked for.
#[derive(Debug, PartialEq)]
pub struct InstanceError {
    pub name: String,
}

} // verus!
