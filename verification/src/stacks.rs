use crate::errors::CliError;
use crate::extension::{Extension, ExtensionLocation, ExtensionView, LocationView};
use crate::strutil::eq_ignore_case;
use crate::strutil::eq_ignore_ascii_case;
use vstd::prelude::*;

verus! {

/// A build-time extension install a stack declares.
#[derive(Debug, PartialEq)]
pub struct TrunkInstall {
    pub name: Option<String>,
    pub version: Option<String>,
    pub created_at: Option<u64>,
}

/// Mathematical image of a `TrunkInstall`.
#[verifier::ext_equal]
pub ghost struct TrunkInstallView {
    pub name: Option<Seq<char>>,
    pub version: Option<Seq<char>>,
    pub created_at: Option<u64>,
}

impl DeepView for TrunkInstall {
    type V = TrunkInstallView;

    open spec fn deep_view(&self) -> TrunkInstallView {
        TrunkInstallView {
            name: self.name.deep_view(),
            version: self.version.deep_view(),
            created_at: self.created_at,
        }
    }
}

/// A stack bundle: the software an instance of this type is built
/// from.  Catalog entries are immutable after load.
#[derive(Debug, PartialEq)]
pub struct Stack {
    pub name: String,
    pub description: String,
    pub version: String,
    pub trunk_installs: Vec<TrunkInstall>,
    pub extensions: Vec<Extension>,
}

/// Mathematical image of a `Stack`.
#[verifier::ext_equal]
pub ghost struct StackView {
    pub name: Seq<char>,
    pub description: Seq<char>,
    pub version: Seq<char>,
    pub trunk_installs: Seq<TrunkInstallView>,
    pub extensions: Seq<ExtensionView>,
}

impl DeepView for Stack {
    type V = StackView;

    open spec fn deep_view(&self) -> StackView {
        StackView {
            name: self.name.deep_view(),
            description: self.description.deep_view(),
            version: self.version.deep_view(),
            trunk_installs: self.trunk_installs.deep_view(),
            extensions: self.extensions.deep_view(),
        }
    }
}

/// The full stack registry.
#[derive(Debug, PartialEq)]
pub struct Stacks {
    pub stacks: Vec<Stack>,
}

/// The catalog's one entry so far: the standard stack.
pub open spec fn standard_stack() -> StackView {
    StackView {
        name: "standard"@,
        description: "A balanced general purpose stack"@,
        version: "14.1"@,
        trunk_installs: seq![
            TrunkInstallView { name: Some("pgmq"@), version: Some("1.0"@), created_at: None },
        ],
        extensions: seq![
            ExtensionView {
                name: Some("pg_partman"@),
                version: Some("1.0"@),
                created_at: None,
                locations: seq![
                    LocationView { database: "public"@, enabled: "true"@, version: "1.0"@ },
                ],
            },
        ],
    }
}

/// What the loaded catalog holds.
pub open spec fn catalog() -> Seq<StackView> {
    seq![standard_stack()]
}

/// Loads the full stack catalog.
pub fn define_stacks() -> (r: Stacks)
    ensures
        r.stacks.deep_view() =~~= catalog(),
{
    let location = ExtensionLocation {
        database: "public".to_owned(),
        enabled: "true".to_owned(),
        version: "1.0".to_owned(),
    };
    let mut locations: Vec<ExtensionLocation> = Vec::new();
    locations.push(location);
    let extension = Extension {
        name: Some("pg_partman".to_owned()),
        version: Some("1.0".to_owned()),
        created_at: None,
        locations,
    };
    let mut extensions: Vec<Extension> = Vec::new();
    extensions.push(extension);
    let install = TrunkInstall {
        name: Some("pgmq".to_owned()),
        version: Some("1.0".to_owned()),
        created_at: None,
    };
    let mut trunk_installs: Vec<TrunkInstall> = Vec::new();
    trunk_installs.push(install);
    let standard = Stack {
        name: "standard".to_owned(),
        description: "A balanced general purpose stack".to_owned(),
        version: "14.1".to_owned(),
        trunk_installs,
        extensions,
    };
    let mut stacks: Vec<Stack> = Vec::new();
    stacks.push(standard);
    let r = Stacks { stacks };
    assert(r.stacks.deep_view() =~~= catalog());
    r
}

/// There is a catalog entry whose name matches `name` up to ASCII
/// case.
pub open spec fn some_stack_matches(name: Seq<char>) -> bool {
    exists|k: int| 0 <= k < catalog().len() && eq_ignore_case(#[trigger] catalog()[k].name, name)
}

/// Resolves a requested stack type against the catalog,
/// case-insensitively.
///
/// Exactly the matched inputs succeed; the first matching entry is
/// returned; every non-matching input fails with `InvalidStackType`.
pub fn define_stack(name: &str) -> (r: Result<Stack, CliError>)
    ensures
        r is Ok <==> some_stack_matches(name@),
        r matches Ok(s) ==> exists|k: int|
            0 <= k < catalog().len() && s.deep_view() == #[trigger] catalog()[k]
                && eq_ignore_case(catalog()[k].name, name@) && (forall|j: int|
                0 <= j < k ==> !eq_ignore_case(#[trigger] catalog()[j].name, name@)),
        r matches Err(e) ==> e == CliError::InvalidStackType,
{
    let mut stacks = define_stacks();
    let mut k: usize = 0;
    let n: usize = stacks.stacks.len();
    while k < n
        invariant
            0 <= k <= n,
            n == stacks.stacks.len(),
            stacks.stacks.deep_view() =~~= catalog(),
            forall|j: int| 0 <= j < k ==> !eq_ignore_case(#[trigger] catalog()[j].name, name@),
        decreases n - k,
    {
        if eq_ignore_ascii_case(stacks.stacks[k].name.as_str(), name) {
            assert(eq_ignore_case(catalog()[k as int].name, name@));
            let s = stacks.stacks.remove(k);
            assert(s.deep_view() == catalog()[k as int]);
            return Ok(s);
        }
        k += 1;
    }
    assert(!some_stack_matches(name@));
    Err(CliError::InvalidStackType)
}

} // verus!
