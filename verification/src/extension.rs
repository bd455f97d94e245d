use vstd::prelude::*;

verus! {

/// One place an extension is enabled at: a database, whether the
/// extension is enabled there, and the extension version used.
#[derive(Debug, PartialEq)]
pub struct ExtensionLocation {
    pub database: String,
    pub enabled: String,
    pub version: String,
}

/// Mathematical image of an `ExtensionLocation`.
#[verifier::ext_equal]
pub ghost struct LocationView {
    pub database: Seq<char>,
    pub enabled: Seq<char>,
    pub version: Seq<char>,
}

impl DeepView for ExtensionLocation {
    type V = LocationView;

    open spec fn deep_view(&self) -> LocationView {
        LocationView {
            database: self.database.deep_view(),
            enabled: self.enabled.deep_view(),
            version: self.version.deep_view(),
        }
    }
}

impl Clone for ExtensionLocation {
    fn clone(&self) -> (res: Self)
        ensures
            res.deep_view() == self.deep_view(),
    {
        let res = ExtensionLocation {
            database: self.database.clone(),
            enabled: self.enabled.clone(),
            version: self.version.clone(),
        };
        assert(res.deep_view() =~= self.deep_view());
        res
    }
}

/// A Postgres extension as a stack declares it: name, version, the
/// moment it was recorded, and the locations it is enabled at.
///
/// Timestamps are held as seconds since the Unix epoch.
#[derive(Debug, PartialEq)]
pub struct Extension {
    pub name: Option<String>,
    pub version: Option<String>,
    pub created_at: Option<u64>,
    pub locations: Vec<ExtensionLocation>,
}

/// Mathematical image of an `Extension`.
#[verifier::ext_equal]
pub ghost struct ExtensionView {
    pub name: Option<Seq<char>>,
    pub version: Option<Seq<char>>,
    pub created_at: Option<u64>,
    pub locations: Seq<LocationView>,
}

impl DeepView for Extension {
    type V = ExtensionView;

    open spec fn deep_view(&self) -> ExtensionView {
        ExtensionView {
            name: self.name.deep_view(),
            version: self.version.deep_view(),
            created_at: self.created_at,
            locations: self.locations.deep_view(),
        }
    }
}

impl Extension {
    /// The extension value built from operator-supplied name, version
    /// and database, marked enabled at that one location and stamped
    /// with the given moment.
    pub fn build(name: &str, version: &str, database: &str, now: u64) -> (r: Extension)
        ensures
            r.deep_view() == (ExtensionView {
                name: Some(name@),
                version: Some(version@),
                created_at: Some(now),
                locations: seq![
                    LocationView { database: database@, enabled: "true"@, version: version@ },
                ],
            }),
    {
        let location = ExtensionLocation {
            database: database.to_owned(),
            enabled: "true".to_owned(),
            version: version.to_owned(),
        };
        let mut locations: Vec<ExtensionLocation> = Vec::new();
        locations.push(location);
        let r = Extension {
            name: Some(name.to_owned()),
            version: Some(version.to_owned()),
            created_at: Some(now),
            locations,
        };
        assert(r.deep_view() =~~= (ExtensionView {
            name: Some(name@),
            version: Some(version@),
            created_at: Some(now),
            locations: seq![
                LocationView { database: database@, enabled: "true"@, version: version@ },
            ],
        }));
        r
    }
}

/// Clones an optional string; the copy has the same view.
pub fn clone_opt_string(s: &Option<String>) -> (res: Option<String>)
    ensures
        res.deep_view() == s.deep_view(),
{
    match s {
        Some(v) => Some(v.clone()),
        None => None,
    }
}

/// Clones a location list; the copy has the same view.
pub fn clone_locations(v: &Vec<ExtensionLocation>) -> (res: Vec<ExtensionLocation>)
    ensures
        res.deep_view() == v.deep_view(),
{
    let mut out: Vec<ExtensionLocation> = Vec::new();
    let mut k: usize = 0;
    while k < v.len()
        invariant
            0 <= k <= v.len(),
            out.len() == k,
            out.deep_view() =~~= v.deep_view().take(k as int),
        decreases v.len() - k,
    {
        let ghost pre = out.deep_view();
        let x = v[k].clone();
        out.push(x);
        assert forall|i: int| 0 <= i < k + 1 implies #[trigger] out.deep_view()[i]
            == v.deep_view()[i] by {
            if i < k {
                assert(out.deep_view()[i] == pre[i]);
            } else {
                assert(out@[k as int] == x);
                assert(out.deep_view()[i] == x.deep_view());
            }
        }
        assert(out.deep_view() =~~= v.deep_view().take(k + 1));
        k += 1;
    }
    assert(out.deep_view() =~~= v.deep_view());
    out
}

impl Clone for Extension {
    fn clone(&self) -> (res: Self)
        ensures
            res.deep_view() == self.deep_view(),
    {
        let res = Extension {
            name: clone_opt_string(&self.name),
            version: clone_opt_string(&self.version),
            created_at: self.created_at,
            locations: clone_locations(&self.locations),
        };
        assert(res.deep_view() =~= self.deep_view());
        res
    }
}

} // verus!
