use crate::config::ConfigView;
use crate::extension::LocationView;
use crate::instance::{DatabaseView, EnabledExtensionView, InstalledExtensionView, InstanceView};
use vstd::prelude::*;

verus! {

// The configuration file format.
//
// Every value is written as plain characters with explicit lengths,
// so any configuration can be written and read back without quoting
// rules:
//
//   number   decimal digits, closed by ';'
//   string   its length as a number, then its characters
//   option   'N', or 'S' followed by the value
//   list     its length as a number, then its elements
//   record   its fields in a fixed order
//
// `enc_config` below fixes the field orders.  `serialize_config`
// produces exactly this encoding and `parse_config` accepts a string
// only if it is exactly the encoding of what it returns; together
// with `lemma_enc_config_injective` this gives the write/load round
// trip.

/// The digit character of one decimal digit.
pub open spec fn digit_char(d: nat) -> char {
    ((48 + d) as u8) as char
}

/// A character that `digit_char` can produce.
pub open spec fn is_digit_char(c: char) -> bool {
    48 <= c as u32 <= 57
}

/// The numeric value of a digit character.
pub open spec fn digit_val(c: char) -> nat {
    (c as u32 - 48) as nat
}

/// The decimal digits of a number, most significant first.
pub open spec fn digits_of(n: nat) -> Seq<char>
    decreases n,
{
    if n < 10 {
        seq![digit_char(n)]
    } else {
        digits_of(n / 10).push(digit_char(n % 10))
    }
}

/// The numeric value of a digit string.
pub open spec fn val_of(s: Seq<char>) -> nat
    decreases s.len(),
{
    if s.len() == 0 {
        0
    } else {
        val_of(s.drop_last()) * 10 + digit_val(s.last())
    }
}

/// Digit strings consist of digit characters, are non-empty, and
/// carry their number back.
pub proof fn lemma_digits_of(n: nat)
    ensures
        digits_of(n).len() >= 1,
        forall|i: int| 0 <= i < digits_of(n).len() ==> is_digit_char(#[trigger] digits_of(n)[i]),
        val_of(digits_of(n)) == n,
    decreases n,
{
    if n < 10 {
        assert(digits_of(n) =~= seq![digit_char(n)]);
        assert(is_digit_char(digit_char(n)));
        assert(digits_of(n).drop_last() =~= Seq::<char>::empty());
        assert(digits_of(n).last() == digit_char(n));
        assert(val_of(Seq::<char>::empty()) == 0);
        assert(val_of(digits_of(n)) == val_of(digits_of(n).drop_last()) * 10 + digit_val(
            digits_of(n).last(),
        ));
        assert(digit_val(digit_char(n)) == n);
    } else {
        lemma_digits_of(n / 10);
        let prefix = digits_of(n / 10);
        let whole = digits_of(n);
        assert(whole =~= prefix.push(digit_char(n % 10)));
        assert(whole.drop_last() =~= prefix);
        assert(whole.last() == digit_char(n % 10));
        assert(digit_val(digit_char(n % 10)) == n % 10);
        assert(val_of(whole) == val_of(prefix) * 10 + n % 10);
        assert(n / 10 * 10 + n % 10 == n) by {
            vstd::arithmetic::div_mod::lemma_fundamental_div_mod(n as int, 10);
        }
        assert forall|i: int| 0 <= i < whole.len() implies is_digit_char(#[trigger] whole[i]) by {
            if i < prefix.len() {
                assert(whole[i] == prefix[i]);
            }
        }
    }
}

/// Two equal digit strings name the same number, so `digits_of` is
/// injective.
pub proof fn lemma_digits_injective(a: nat, b: nat)
    requires
        digits_of(a) == digits_of(b),
    ensures
        a == b,
{
    lemma_digits_of(a);
    lemma_digits_of(b);
}

/// A number: its digits closed by a semicolon.
pub open spec fn enc_nat(n: nat) -> Seq<char> {
    digits_of(n) + seq![';']
}

/// A string: its length, then its characters.
pub open spec fn enc_str(s: Seq<char>) -> Seq<char> {
    enc_nat(s.len()) + s
}

/// An optional string: absent, or marked and encoded.
pub open spec fn enc_opt_str(o: Option<Seq<char>>) -> Seq<char> {
    match o {
        None => seq!['N'],
        Some(s) => seq!['S'] + enc_str(s),
    }
}

/// An optional number: absent, or marked and encoded.
pub open spec fn enc_opt_u64(o: Option<u64>) -> Seq<char> {
    match o {
        None => seq!['N'],
        Some(n) => seq!['S'] + enc_nat(n as nat),
    }
}

/// A location: database, enabled flag, version.
pub open spec fn enc_location(l: LocationView) -> Seq<char> {
    enc_str(l.database) + enc_str(l.enabled) + enc_str(l.version)
}

/// The elements of a location list, in order.
pub open spec fn enc_location_elems(ls: Seq<LocationView>) -> Seq<char>
    decreases ls.len(),
{
    if ls.len() == 0 {
        Seq::empty()
    } else {
        enc_location_elems(ls.drop_last()) + enc_location(ls.last())
    }
}

/// A location list: its length, then its elements.
pub open spec fn enc_locations(ls: Seq<LocationView>) -> Seq<char> {
    enc_nat(ls.len()) + enc_location_elems(ls)
}

/// An installed-extension record: name, version, creation moment.
pub open spec fn enc_installed(x: InstalledExtensionView) -> Seq<char> {
    enc_opt_str(x.name) + enc_opt_str(x.version) + enc_opt_u64(x.created_at)
}

/// The elements of an installed-extension list, in order.
pub open spec fn enc_installed_elems(xs: Seq<InstalledExtensionView>) -> Seq<char>
    decreases xs.len(),
{
    if xs.len() == 0 {
        Seq::empty()
    } else {
        enc_installed_elems(xs.drop_last()) + enc_installed(xs.last())
    }
}

/// An installed-extension list: its length, then its elements.
pub open spec fn enc_installeds(xs: Seq<InstalledExtensionView>) -> Seq<char> {
    enc_nat(xs.len()) + enc_installed_elems(xs)
}

/// An enabled-extension record: name, version, creation moment,
/// locations.
pub open spec fn enc_enabled(x: EnabledExtensionView) -> Seq<char> {
    enc_opt_str(x.name) + enc_opt_str(x.version) + enc_opt_u64(x.created_at) + enc_locations(
        x.locations,
    )
}

/// The elements of an enabled-extension list, in order.
pub open spec fn enc_enabled_elems(xs: Seq<EnabledExtensionView>) -> Seq<char>
    decreases xs.len(),
{
    if xs.len() == 0 {
        Seq::empty()
    } else {
        enc_enabled_elems(xs.drop_last()) + enc_enabled(xs.last())
    }
}

/// An enabled-extension list: its length, then its elements.
pub open spec fn enc_enableds(xs: Seq<EnabledExtensionView>) -> Seq<char> {
    enc_nat(xs.len()) + enc_enabled_elems(xs)
}

/// A database record: its name.
pub open spec fn enc_database(d: DatabaseView) -> Seq<char> {
    enc_str(d.name)
}

/// The elements of a database list, in order.
pub open spec fn enc_database_elems(ds: Seq<DatabaseView>) -> Seq<char>
    decreases ds.len(),
{
    if ds.len() == 0 {
        Seq::empty()
    } else {
        enc_database_elems(ds.drop_last()) + enc_database(ds.last())
    }
}

/// A database list: its length, then its elements.
pub open spec fn enc_databases(ds: Seq<DatabaseView>) -> Seq<char> {
    enc_nat(ds.len()) + enc_database_elems(ds)
}

/// An instance record: name, stack type, port, version, creation
/// moment, installed extensions, enabled extensions, databases.
pub open spec fn enc_instance(x: InstanceView) -> Seq<char> {
    enc_opt_str(x.name) + enc_opt_str(x.stack_type) + enc_opt_str(x.port) + enc_opt_str(x.version)
        + enc_opt_u64(x.created_at) + enc_installeds(x.installed_extensions) + enc_enableds(
        x.enabled_extensions,
    ) + enc_databases(x.databases)
}

/// The elements of an instance list, in order.
pub open spec fn enc_instance_elems(xs: Seq<InstanceView>) -> Seq<char>
    decreases xs.len(),
{
    if xs.len() == 0 {
        Seq::empty()
    } else {
        enc_instance_elems(xs.drop_last()) + enc_instance(xs.last())
    }
}

/// An instance list: its length, then its elements.
pub open spec fn enc_instances(xs: Seq<InstanceView>) -> Seq<char> {
    enc_nat(xs.len()) + enc_instance_elems(xs)
}

/// A whole configuration: format version, credentials, instances.
pub open spec fn enc_config(c: ConfigView) -> Seq<char> {
    enc_str(c.version) + enc_opt_str(c.jwt) + enc_opt_str(c.org_id) + enc_instances(c.instances)
}

/// Concatenation of character sequences associates.
proof fn lemma_add_assoc(x: Seq<char>, y: Seq<char>, z: Seq<char>)
    ensures
        (x + y) + z == x + (y + z),
{
    assert((x + y) + z =~= x + (y + z));
}

/// A number's encoding determines the number and where it ends, no
/// matter what follows.
proof fn lemma_enc_nat_unamb(a: nat, b: nat, r1: Seq<char>, r2: Seq<char>)
    requires
        enc_nat(a) + r1 == enc_nat(b) + r2,
    ensures
        a == b,
        r1 == r2,
{
    lemma_digits_of(a);
    lemma_digits_of(b);
    let da = digits_of(a);
    let db = digits_of(b);
    let s = enc_nat(a) + r1;
    let la: int = da.len() as int;
    let lb: int = db.len() as int;
    assert(s[la] == ';') by {
        assert(enc_nat(a)[la] == ';');
    }
    assert(s[lb] == ';') by {
        assert((enc_nat(b) + r2)[lb] == enc_nat(b)[lb]);
    }
    assert forall|i: int| 0 <= i < la implies s[i] != ';' by {
        assert(s[i] == da[i]);
        assert(is_digit_char(da[i]));
    }
    assert forall|i: int| 0 <= i < lb implies s[i] != ';' by {
        assert((enc_nat(b) + r2)[i] == db[i]);
        assert(is_digit_char(db[i]));
    }
    assert(la == lb);
    assert forall|i: int| 0 <= i < la implies da[i] == db[i] by {
        assert(s[i] == da[i]);
        assert((enc_nat(b) + r2)[i] == db[i]);
    }
    assert(da =~= db);
    lemma_digits_injective(a, b);
    assert(enc_nat(a).len() == la + 1);
    assert(enc_nat(b).len() == lb + 1);
    assert((enc_nat(a) + r1).len() == enc_nat(a).len() + r1.len());
    assert((enc_nat(b) + r2).len() == enc_nat(b).len() + r2.len());
    assert((enc_nat(a) + r1).len() == (enc_nat(b) + r2).len());
    assert(r1.len() == r2.len());
    assert forall|i: int| 0 <= i < r1.len() implies r1[i] == r2[i] by {
        assert(s[la + 1 + i] == r1[i]);
        assert((enc_nat(b) + r2)[lb + 1 + i] == r2[i]);
    }
    assert(r1 =~= r2);
}

/// A string's encoding determines the string and where it ends.
proof fn lemma_enc_str_unamb(s1: Seq<char>, s2: Seq<char>, r1: Seq<char>, r2: Seq<char>)
    requires
        enc_str(s1) + r1 == enc_str(s2) + r2,
    ensures
        s1 == s2,
        r1 == r2,
{
    assert(enc_str(s1) + r1 =~= enc_nat(s1.len()) + (s1 + r1));
    assert(enc_str(s2) + r2 =~= enc_nat(s2.len()) + (s2 + r2));
    lemma_enc_nat_unamb(s1.len(), s2.len(), s1 + r1, s2 + r2);
    assert forall|i: int| 0 <= i < s1.len() implies s1[i] == s2[i] by {
        assert((s1 + r1)[i] == s1[i]);
        assert((s2 + r2)[i] == s2[i]);
    }
    assert(s1 =~= s2);
    assert forall|i: int| 0 <= i < r1.len() implies r1[i] == r2[i] by {
        assert((s1 + r1)[s1.len() + i] == r1[i]);
        assert((s2 + r2)[s2.len() + i] == r2[i]);
    }
    assert(r1.len() == r2.len());
    assert(r1 =~= r2);
}

/// An optional string's encoding determines the value and where it
/// ends.
proof fn lemma_enc_opt_str_unamb(
    o1: Option<Seq<char>>,
    o2: Option<Seq<char>>,
    r1: Seq<char>,
    r2: Seq<char>,
)
    requires
        enc_opt_str(o1) + r1 == enc_opt_str(o2) + r2,
    ensures
        o1 == o2,
        r1 == r2,
{
    let s = enc_opt_str(o1) + r1;
    match (o1, o2) {
        (Option::None, Option::None) => {
            assert(seq!['N'] + r1 =~= seq!['N'] + r2);
            assert((seq!['N'] + r1).len() == (seq!['N'] + r2).len());
            assert(r1.len() == r2.len());
            assert forall|i: int| 0 <= i < r1.len() implies r1[i] == r2[i] by {
                assert((seq!['N'] + r1)[1 + i] == r1[i]);
                assert((seq!['N'] + r2)[1 + i] == r2[i]);
            }
            assert(r1 =~= r2);
        },
        (Option::None, Option::Some(v2)) => {
            assert(s[0] == 'N');
            assert((enc_opt_str(o2) + r2)[0] == 'S');
        },
        (Option::Some(v1), Option::None) => {
            assert(s[0] == 'S');
            assert((enc_opt_str(o2) + r2)[0] == 'N');
        },
        (Option::Some(v1), Option::Some(v2)) => {
            assert(enc_opt_str(o1) + r1 =~= seq!['S'] + (enc_str(v1) + r1));
            assert(enc_opt_str(o2) + r2 =~= seq!['S'] + (enc_str(v2) + r2));
            let t1 = enc_str(v1) + r1;
            let t2 = enc_str(v2) + r2;
            assert((seq!['S'] + t1).len() == (seq!['S'] + t2).len());
            assert(t1.len() == t2.len());
            assert forall|i: int| 0 <= i < t1.len() implies t1[i] == t2[i] by {
                assert((seq!['S'] + t1)[1 + i] == t1[i]);
                assert((seq!['S'] + t2)[1 + i] == t2[i]);
            }
            assert(t1 =~= t2);
            lemma_enc_str_unamb(v1, v2, r1, r2);
        },
    }
}

/// An optional number's encoding determines the value and where it
/// ends.
proof fn lemma_enc_opt_u64_unamb(o1: Option<u64>, o2: Option<u64>, r1: Seq<char>, r2: Seq<char>)
    requires
        enc_opt_u64(o1) + r1 == enc_opt_u64(o2) + r2,
    ensures
        o1 == o2,
        r1 == r2,
{
    let s = enc_opt_u64(o1) + r1;
    match (o1, o2) {
        (Option::None, Option::None) => {
            assert(seq!['N'] + r1 =~= enc_opt_u64(o1) + r1);
            assert(seq!['N'] + r2 =~= enc_opt_u64(o2) + r2);
            assert((seq!['N'] + r1).len() == (seq!['N'] + r2).len());
            assert(r1.len() == r2.len());
            assert forall|i: int| 0 <= i < r1.len() implies r1[i] == r2[i] by {
                assert((seq!['N'] + r1)[1 + i] == r1[i]);
                assert((seq!['N'] + r2)[1 + i] == r2[i]);
            }
            assert(r1 =~= r2);
        },
        (Option::None, Option::Some(v2)) => {
            assert(s[0] == 'N');
            assert((enc_opt_u64(o2) + r2)[0] == 'S');
        },
        (Option::Some(v1), Option::None) => {
            assert(s[0] == 'S');
            assert((enc_opt_u64(o2) + r2)[0] == 'N');
        },
        (Option::Some(v1), Option::Some(v2)) => {
            assert(enc_opt_u64(o1) + r1 =~= seq!['S'] + (enc_nat(v1 as nat) + r1));
            assert(enc_opt_u64(o2) + r2 =~= seq!['S'] + (enc_nat(v2 as nat) + r2));
            let t1 = enc_nat(v1 as nat) + r1;
            let t2 = enc_nat(v2 as nat) + r2;
            assert((seq!['S'] + t1).len() == (seq!['S'] + t2).len());
            assert(t1.len() == t2.len());
            assert forall|i: int| 0 <= i < t1.len() implies t1[i] == t2[i] by {
                assert((seq!['S'] + t1)[1 + i] == t1[i]);
                assert((seq!['S'] + t2)[1 + i] == t2[i]);
            }
            assert(t1 =~= t2);
            lemma_enc_nat_unamb(v1 as nat, v2 as nat, r1, r2);
        },
    }
}

/// A location's encoding determines the location and where it ends.
proof fn lemma_enc_location_unamb(l1: LocationView, l2: LocationView, r1: Seq<char>, r2: Seq<char>)
    requires
        enc_location(l1) + r1 == enc_location(l2) + r2,
    ensures
        l1 == l2,
        r1 == r2,
{
    assert(enc_location(l1) + r1 =~= enc_str(l1.database) + (enc_str(l1.enabled) + (enc_str(
        l1.version,
    ) + r1)));
    assert(enc_location(l2) + r2 =~= enc_str(l2.database) + (enc_str(l2.enabled) + (enc_str(
        l2.version,
    ) + r2)));
    lemma_enc_str_unamb(
        l1.database,
        l2.database,
        enc_str(l1.enabled) + (enc_str(l1.version) + r1),
        enc_str(l2.enabled) + (enc_str(l2.version) + r2),
    );
    lemma_enc_str_unamb(
        l1.enabled,
        l2.enabled,
        enc_str(l1.version) + r1,
        enc_str(l2.version) + r2,
    );
    lemma_enc_str_unamb(l1.version, l2.version, r1, r2);
    assert(l1 =~= l2);
}

/// Equally long location lists with one encoding are one list.
proof fn lemma_enc_location_elems_unamb(
    x1: Seq<LocationView>,
    x2: Seq<LocationView>,
    r1: Seq<char>,
    r2: Seq<char>,
)
    requires
        x1.len() == x2.len(),
        enc_location_elems(x1) + r1 == enc_location_elems(x2) + r2,
    ensures
        x1 == x2,
        r1 == r2,
    decreases x1.len(),
{
    if x1.len() == 0 {
        assert(x1 =~= x2);
        assert(enc_location_elems(x1) + r1 =~= r1);
        assert(enc_location_elems(x2) + r2 =~= r2);
    } else {
        assert(enc_location_elems(x1) + r1 =~= enc_location_elems(x1.drop_last()) + (enc_location(
            x1.last(),
        ) + r1));
        assert(enc_location_elems(x2) + r2 =~= enc_location_elems(x2.drop_last()) + (enc_location(
            x2.last(),
        ) + r2));
        lemma_enc_location_elems_unamb(
            x1.drop_last(),
            x2.drop_last(),
            enc_location(x1.last()) + r1,
            enc_location(x2.last()) + r2,
        );
                lemma_enc_location_unamb(x1.last(), x2.last(), r1, r2);
        assert forall|i: int| 0 <= i < x1.len() implies x1[i] == x2[i] by {
            if i < x1.len() - 1 {
                assert(x1[i] == x1.drop_last()[i]);
                assert(x2[i] == x2.drop_last()[i]);
            } else {
                assert(x1[i] == x1.last());
                assert(x2[i] == x2.last());
            }
        }
        assert(x1 =~= x2);
    }
}

/// A location list's encoding determines the list and where it ends.
proof fn lemma_enc_locations_unamb(
    x1: Seq<LocationView>,
    x2: Seq<LocationView>,
    r1: Seq<char>,
    r2: Seq<char>,
)
    requires
        enc_locations(x1) + r1 == enc_locations(x2) + r2,
    ensures
        x1 == x2,
        r1 == r2,
{
    assert(enc_locations(x1) + r1 =~= enc_nat(x1.len()) + (enc_location_elems(x1) + r1));
    assert(enc_locations(x2) + r2 =~= enc_nat(x2.len()) + (enc_location_elems(x2) + r2));
    lemma_enc_nat_unamb(
        x1.len(),
        x2.len(),
        enc_location_elems(x1) + r1,
        enc_location_elems(x2) + r2,
    );
    lemma_enc_location_elems_unamb(x1, x2, r1, r2);
}

/// An installed-extension record's encoding determines it.
proof fn lemma_enc_installed_unamb(
    x1: InstalledExtensionView,
    x2: InstalledExtensionView,
    r1: Seq<char>,
    r2: Seq<char>,
)
    requires
        enc_installed(x1) + r1 == enc_installed(x2) + r2,
    ensures
        x1 == x2,
        r1 == r2,
{
    assert(enc_installed(x1) + r1 =~= enc_opt_str(x1.name) + (enc_opt_str(x1.version) + (
    enc_opt_u64(x1.created_at) + r1)));
    assert(enc_installed(x2) + r2 =~= enc_opt_str(x2.name) + (enc_opt_str(x2.version) + (
    enc_opt_u64(x2.created_at) + r2)));
    lemma_enc_opt_str_unamb(
        x1.name,
        x2.name,
        enc_opt_str(x1.version) + (enc_opt_u64(x1.created_at) + r1),
        enc_opt_str(x2.version) + (enc_opt_u64(x2.created_at) + r2),
    );
    lemma_enc_opt_str_unamb(
        x1.version,
        x2.version,
        enc_opt_u64(x1.created_at) + r1,
        enc_opt_u64(x2.created_at) + r2,
    );
    lemma_enc_opt_u64_unamb(x1.created_at, x2.created_at, r1, r2);
    assert(x1 =~= x2);
}

/// Equally long installed-extension lists with one encoding are one
/// list.
proof fn lemma_enc_installed_elems_unamb(
    x1: Seq<InstalledExtensionView>,
    x2: Seq<InstalledExtensionView>,
    r1: Seq<char>,
    r2: Seq<char>,
)
    requires
        x1.len() == x2.len(),
        enc_installed_elems(x1) + r1 == enc_installed_elems(x2) + r2,
    ensures
        x1 == x2,
        r1 == r2,
    decreases x1.len(),
{
    if x1.len() == 0 {
        assert(x1 =~= x2);
        assert(enc_installed_elems(x1) + r1 =~= r1);
        assert(enc_installed_elems(x2) + r2 =~= r2);
    } else {
        assert(enc_installed_elems(x1) + r1 =~= enc_installed_elems(x1.drop_last()) + (
        enc_installed(x1.last()) + r1));
        assert(enc_installed_elems(x2) + r2 =~= enc_installed_elems(x2.drop_last()) + (
        enc_installed(x2.last()) + r2));
        lemma_enc_installed_elems_unamb(
            x1.drop_last(),
            x2.drop_last(),
            enc_installed(x1.last()) + r1,
            enc_installed(x2.last()) + r2,
        );
                lemma_enc_installed_unamb(x1.last(), x2.last(), r1, r2);
        assert forall|i: int| 0 <= i < x1.len() implies x1[i] == x2[i] by {
            if i < x1.len() - 1 {
                assert(x1[i] == x1.drop_last()[i]);
                assert(x2[i] == x2.drop_last()[i]);
            } else {
                assert(x1[i] == x1.last());
                assert(x2[i] == x2.last());
            }
        }
        assert(x1 =~= x2);
    }
}

/// An installed-extension list's encoding determines it.
proof fn lemma_enc_installeds_unamb(
    x1: Seq<InstalledExtensionView>,
    x2: Seq<InstalledExtensionView>,
    r1: Seq<char>,
    r2: Seq<char>,
)
    requires
        enc_installeds(x1) + r1 == enc_installeds(x2) + r2,
    ensures
        x1 == x2,
        r1 == r2,
{
    assert(enc_installeds(x1) + r1 =~= enc_nat(x1.len()) + (enc_installed_elems(x1) + r1));
    assert(enc_installeds(x2) + r2 =~= enc_nat(x2.len()) + (enc_installed_elems(x2) + r2));
    lemma_enc_nat_unamb(
        x1.len(),
        x2.len(),
        enc_installed_elems(x1) + r1,
        enc_installed_elems(x2) + r2,
    );
    lemma_enc_installed_elems_unamb(x1, x2, r1, r2);
}

/// An enabled-extension record's encoding determines it.
proof fn lemma_enc_enabled_unamb(
    x1: EnabledExtensionView,
    x2: EnabledExtensionView,
    r1: Seq<char>,
    r2: Seq<char>,
)
    requires
        enc_enabled(x1) + r1 == enc_enabled(x2) + r2,
    ensures
        x1 == x2,
        r1 == r2,
{
    let a1 = enc_opt_str(x1.name);
    let b1 = enc_opt_str(x1.version);
    let c1 = enc_opt_u64(x1.created_at);
    let d1 = enc_locations(x1.locations);
    let a2 = enc_opt_str(x2.name);
    let b2 = enc_opt_str(x2.version);
    let c2 = enc_opt_u64(x2.created_at);
    let d2 = enc_locations(x2.locations);
    let t1 = d1 + r1;
    let u1 = c1 + t1;
    let v1 = b1 + u1;
    let t2 = d2 + r2;
    let u2 = c2 + t2;
    let v2 = b2 + u2;
    lemma_add_assoc(a1 + b1 + c1, d1, r1);
    lemma_add_assoc(a1 + b1, c1, t1);
    lemma_add_assoc(a1, b1, u1);
    assert(enc_enabled(x1) + r1 == a1 + v1);
    lemma_add_assoc(a2 + b2 + c2, d2, r2);
    lemma_add_assoc(a2 + b2, c2, t2);
    lemma_add_assoc(a2, b2, u2);
    assert(enc_enabled(x2) + r2 == a2 + v2);
    lemma_enc_opt_str_unamb(x1.name, x2.name, v1, v2);
    lemma_enc_opt_str_unamb(x1.version, x2.version, u1, u2);
    lemma_enc_opt_u64_unamb(x1.created_at, x2.created_at, t1, t2);
    lemma_enc_locations_unamb(x1.locations, x2.locations, r1, r2);
    assert(x1 =~= x2);
}

/// Equally long enabled-extension lists with one encoding are one
/// list.
proof fn lemma_enc_enabled_elems_unamb(
    x1: Seq<EnabledExtensionView>,
    x2: Seq<EnabledExtensionView>,
    r1: Seq<char>,
    r2: Seq<char>,
)
    requires
        x1.len() == x2.len(),
        enc_enabled_elems(x1) + r1 == enc_enabled_elems(x2) + r2,
    ensures
        x1 == x2,
        r1 == r2,
    decreases x1.len(),
{
    if x1.len() == 0 {
        assert(x1 =~= x2);
        assert(enc_enabled_elems(x1) + r1 =~= r1);
        assert(enc_enabled_elems(x2) + r2 =~= r2);
    } else {
        assert(enc_enabled_elems(x1) + r1 =~= enc_enabled_elems(x1.drop_last()) + (enc_enabled(
            x1.last(),
        ) + r1));
        assert(enc_enabled_elems(x2) + r2 =~= enc_enabled_elems(x2.drop_last()) + (enc_enabled(
            x2.last(),
        ) + r2));
        lemma_enc_enabled_elems_unamb(
            x1.drop_last(),
            x2.drop_last(),
            enc_enabled(x1.last()) + r1,
            enc_enabled(x2.last()) + r2,
        );
                lemma_enc_enabled_unamb(x1.last(), x2.last(), r1, r2);
        assert forall|i: int| 0 <= i < x1.len() implies x1[i] == x2[i] by {
            if i < x1.len() - 1 {
                assert(x1[i] == x1.drop_last()[i]);
                assert(x2[i] == x2.drop_last()[i]);
            } else {
                assert(x1[i] == x1.last());
                assert(x2[i] == x2.last());
            }
        }
        assert(x1 =~= x2);
    }
}

/// An enabled-extension list's encoding determines it.
proof fn lemma_enc_enableds_unamb(
    x1: Seq<EnabledExtensionView>,
    x2: Seq<EnabledExtensionView>,
    r1: Seq<char>,
    r2: Seq<char>,
)
    requires
        enc_enableds(x1) + r1 == enc_enableds(x2) + r2,
    ensures
        x1 == x2,
        r1 == r2,
{
    assert(enc_enableds(x1) + r1 =~= enc_nat(x1.len()) + (enc_enabled_elems(x1) + r1));
    assert(enc_enableds(x2) + r2 =~= enc_nat(x2.len()) + (enc_enabled_elems(x2) + r2));
    lemma_enc_nat_unamb(
        x1.len(),
        x2.len(),
        enc_enabled_elems(x1) + r1,
        enc_enabled_elems(x2) + r2,
    );
    lemma_enc_enabled_elems_unamb(x1, x2, r1, r2);
}

/// Equally long database lists with one encoding are one list.
proof fn lemma_enc_database_elems_unamb(
    x1: Seq<DatabaseView>,
    x2: Seq<DatabaseView>,
    r1: Seq<char>,
    r2: Seq<char>,
)
    requires
        x1.len() == x2.len(),
        enc_database_elems(x1) + r1 == enc_database_elems(x2) + r2,
    ensures
        x1 == x2,
        r1 == r2,
    decreases x1.len(),
{
    if x1.len() == 0 {
        assert(x1 =~= x2);
        assert(enc_database_elems(x1) + r1 =~= r1);
        assert(enc_database_elems(x2) + r2 =~= r2);
    } else {
        assert(enc_database_elems(x1) + r1 =~= enc_database_elems(x1.drop_last()) + (enc_database(
            x1.last(),
        ) + r1));
        assert(enc_database_elems(x2) + r2 =~= enc_database_elems(x2.drop_last()) + (enc_database(
            x2.last(),
        ) + r2));
        lemma_enc_database_elems_unamb(
            x1.drop_last(),
            x2.drop_last(),
            enc_database(x1.last()) + r1,
            enc_database(x2.last()) + r2,
        );
        lemma_enc_str_unamb(x1.last().name, x2.last().name, r1, r2);
        assert(x1.last() =~= x2.last());
        assert forall|i: int| 0 <= i < x1.len() implies x1[i] == x2[i] by {
            if i < x1.len() - 1 {
                assert(x1[i] == x1.drop_last()[i]);
                assert(x2[i] == x2.drop_last()[i]);
            } else {
                assert(x1[i] == x1.last());
                assert(x2[i] == x2.last());
            }
        }
        assert(x1 =~= x2);
    }
}

/// A database list's encoding determines it.
proof fn lemma_enc_databases_unamb(
    x1: Seq<DatabaseView>,
    x2: Seq<DatabaseView>,
    r1: Seq<char>,
    r2: Seq<char>,
)
    requires
        enc_databases(x1) + r1 == enc_databases(x2) + r2,
    ensures
        x1 == x2,
        r1 == r2,
{
    assert(enc_databases(x1) + r1 =~= enc_nat(x1.len()) + (enc_database_elems(x1) + r1));
    assert(enc_databases(x2) + r2 =~= enc_nat(x2.len()) + (enc_database_elems(x2) + r2));
    lemma_enc_nat_unamb(
        x1.len(),
        x2.len(),
        enc_database_elems(x1) + r1,
        enc_database_elems(x2) + r2,
    );
    lemma_enc_database_elems_unamb(x1, x2, r1, r2);
}

/// An instance record's encoding determines it.
proof fn lemma_enc_instance_unamb(x1: InstanceView, x2: InstanceView, r1: Seq<char>, r2: Seq<char>)
    requires
        enc_instance(x1) + r1 == enc_instance(x2) + r2,
    ensures
        x1 == x2,
        r1 == r2,
{
    let a1 = enc_opt_str(x1.name);
    let b1 = enc_opt_str(x1.stack_type);
    let c1 = enc_opt_str(x1.port);
    let d1 = enc_opt_str(x1.version);
    let e1 = enc_opt_u64(x1.created_at);
    let f1 = enc_installeds(x1.installed_extensions);
    let g1 = enc_enableds(x1.enabled_extensions);
    let h1 = enc_databases(x1.databases);
    let a2 = enc_opt_str(x2.name);
    let b2 = enc_opt_str(x2.stack_type);
    let c2 = enc_opt_str(x2.port);
    let d2 = enc_opt_str(x2.version);
    let e2 = enc_opt_u64(x2.created_at);
    let f2 = enc_installeds(x2.installed_extensions);
    let g2 = enc_enableds(x2.enabled_extensions);
    let h2 = enc_databases(x2.databases);
    let t1 = h1 + r1;
    let u1 = g1 + t1;
    let v1 = f1 + u1;
    let w1 = e1 + v1;
    let p1 = d1 + w1;
    let q1 = c1 + p1;
    let m1 = b1 + q1;
    let t2 = h2 + r2;
    let u2 = g2 + t2;
    let v2 = f2 + u2;
    let w2 = e2 + v2;
    let p2 = d2 + w2;
    let q2 = c2 + p2;
    let m2 = b2 + q2;
    lemma_add_assoc(a1 + b1 + c1 + d1 + e1 + f1 + g1, h1, r1);
    lemma_add_assoc(a1 + b1 + c1 + d1 + e1 + f1, g1, t1);
    lemma_add_assoc(a1 + b1 + c1 + d1 + e1, f1, u1);
    lemma_add_assoc(a1 + b1 + c1 + d1, e1, v1);
    lemma_add_assoc(a1 + b1 + c1, d1, w1);
    lemma_add_assoc(a1 + b1, c1, p1);
    lemma_add_assoc(a1, b1, q1);
    assert(enc_instance(x1) + r1 == a1 + m1);
    lemma_add_assoc(a2 + b2 + c2 + d2 + e2 + f2 + g2, h2, r2);
    lemma_add_assoc(a2 + b2 + c2 + d2 + e2 + f2, g2, t2);
    lemma_add_assoc(a2 + b2 + c2 + d2 + e2, f2, u2);
    lemma_add_assoc(a2 + b2 + c2 + d2, e2, v2);
    lemma_add_assoc(a2 + b2 + c2, d2, w2);
    lemma_add_assoc(a2 + b2, c2, p2);
    lemma_add_assoc(a2, b2, q2);
    assert(enc_instance(x2) + r2 == a2 + m2);
    lemma_enc_opt_str_unamb(x1.name, x2.name, m1, m2);
    lemma_enc_opt_str_unamb(x1.stack_type, x2.stack_type, q1, q2);
    lemma_enc_opt_str_unamb(x1.port, x2.port, p1, p2);
    lemma_enc_opt_str_unamb(x1.version, x2.version, w1, w2);
    lemma_enc_opt_u64_unamb(x1.created_at, x2.created_at, v1, v2);
    lemma_enc_installeds_unamb(x1.installed_extensions, x2.installed_extensions, u1, u2);
    lemma_enc_enableds_unamb(x1.enabled_extensions, x2.enabled_extensions, t1, t2);
    lemma_enc_databases_unamb(x1.databases, x2.databases, r1, r2);
    assert(x1 =~= x2);
}

/// Equally long instance lists with one encoding are one list.
#[verifier::rlimit(60)]
proof fn lemma_enc_instance_elems_unamb(
    x1: Seq<InstanceView>,
    x2: Seq<InstanceView>,
    r1: Seq<char>,
    r2: Seq<char>,
)
    requires
        x1.len() == x2.len(),
        enc_instance_elems(x1) + r1 == enc_instance_elems(x2) + r2,
    ensures
        x1 == x2,
        r1 == r2,
    decreases x1.len(),
{
    if x1.len() == 0 {
        assert(x1 =~= x2);
        assert(enc_instance_elems(x1) + r1 =~= r1);
        assert(enc_instance_elems(x2) + r2 =~= r2);
    } else {
        assert(enc_instance_elems(x1) + r1 =~= enc_instance_elems(x1.drop_last()) + (enc_instance(
            x1.last(),
        ) + r1));
        assert(enc_instance_elems(x2) + r2 =~= enc_instance_elems(x2.drop_last()) + (enc_instance(
            x2.last(),
        ) + r2));
        lemma_enc_instance_elems_unamb(
            x1.drop_last(),
            x2.drop_last(),
            enc_instance(x1.last()) + r1,
            enc_instance(x2.last()) + r2,
        );
                lemma_enc_instance_unamb(x1.last(), x2.last(), r1, r2);
        assert forall|i: int| 0 <= i < x1.len() implies x1[i] == x2[i] by {
            if i < x1.len() - 1 {
                assert(x1[i] == x1.drop_last()[i]);
                assert(x2[i] == x2.drop_last()[i]);
            } else {
                assert(x1[i] == x1.last());
                assert(x2[i] == x2.last());
            }
        }
        assert(x1 =~= x2);
    }
}

/// An instance list's encoding determines it.
proof fn lemma_enc_instances_unamb(
    x1: Seq<InstanceView>,
    x2: Seq<InstanceView>,
    r1: Seq<char>,
    r2: Seq<char>,
)
    requires
        enc_instances(x1) + r1 == enc_instances(x2) + r2,
    ensures
        x1 == x2,
        r1 == r2,
{
    assert(enc_instances(x1) + r1 =~= enc_nat(x1.len()) + (enc_instance_elems(x1) + r1));
    assert(enc_instances(x2) + r2 =~= enc_nat(x2.len()) + (enc_instance_elems(x2) + r2));
    lemma_enc_nat_unamb(
        x1.len(),
        x2.len(),
        enc_instance_elems(x1) + r1,
        enc_instance_elems(x2) + r2,
    );
    lemma_enc_instance_elems_unamb(x1, x2, r1, r2);
}

/// The write/load round trip: one file content encodes one
/// configuration.
///
/// `serialize_config` writes exactly `enc_config` of a configuration,
/// and `parse_config` accepts a string only as `enc_config` of what
/// it returns; by this law the configuration loaded from a written
/// file is the configuration that was written.
pub proof fn lemma_enc_config_injective(a: ConfigView, b: ConfigView)
    requires
        enc_config(a) == enc_config(b),
    ensures
        a == b,
{
    let va = enc_str(a.version);
    let ja = enc_opt_str(a.jwt);
    let oa = enc_opt_str(a.org_id);
    let ia = enc_instances(a.instances);
    let vb = enc_str(b.version);
    let jb = enc_opt_str(b.jwt);
    let ob = enc_opt_str(b.org_id);
    let ib = enc_instances(b.instances);
    lemma_add_assoc(va + ja, oa, ia);
    lemma_add_assoc(va, ja, oa + ia);
    assert(enc_config(a) == va + (ja + (oa + ia)));
    lemma_add_assoc(vb + jb, ob, ib);
    lemma_add_assoc(vb, jb, ob + ib);
    assert(enc_config(b) == vb + (jb + (ob + ib)));
    lemma_enc_str_unamb(a.version, b.version, ja + (oa + ia), jb + (ob + ib));
    lemma_enc_opt_str_unamb(a.jwt, b.jwt, oa + ia, ob + ib);
    lemma_enc_opt_str_unamb(a.org_id, b.org_id, ia, ib);
    assert(ia + Seq::<char>::empty() =~= ia);
    assert(ib + Seq::<char>::empty() =~= ib);
    lemma_enc_instances_unamb(a.instances, b.instances, Seq::empty(), Seq::empty());
    assert(a =~= b);
}

/// The character of one digit, as a slice to append.
fn digit_str(d: u64) -> (r: &'static str)
    requires
        d < 10,
    ensures
        r@ == seq![digit_char(d as nat)],
{
    let r: &'static str = if d == 0 {
        "0"
    } else if d == 1 {
        "1"
    } else if d == 2 {
        "2"
    } else if d == 3 {
        "3"
    } else if d == 4 {
        "4"
    } else if d == 5 {
        "5"
    } else if d == 6 {
        "6"
    } else if d == 7 {
        "7"
    } else if d == 8 {
        "8"
    } else {
        "9"
    };
    proof {
        reveal_strlit("0");
        reveal_strlit("1");
        reveal_strlit("2");
        reveal_strlit("3");
        reveal_strlit("4");
        reveal_strlit("5");
        reveal_strlit("6");
        reveal_strlit("7");
        reveal_strlit("8");
        reveal_strlit("9");
        assert(r@ =~= seq![digit_char(d as nat)]);
    }
    r
}

/// Appends the decimal digits of `n`.
fn ser_digits(out: &mut String, n: u64)
    ensures
        final(out)@ == old(out)@ + digits_of(n as nat),
    decreases n,
{
    if n < 10 {
        out.append(digit_str(n));
        assert(out@ =~= old(out)@ + digits_of(n as nat));
    } else {
        assert(n / 10 < n);
        ser_digits(out, n / 10);
        out.append(digit_str(n % 10));
        assert(out@ =~= old(out)@ + digits_of(n as nat));
    }
}

/// Appends `enc_nat(n)`.
fn ser_nat(out: &mut String, n: u64)
    ensures
        final(out)@ == old(out)@ + enc_nat(n as nat),
{
    ser_digits(out, n);
    out.append(";");
    proof {
        reveal_strlit(";");
        assert(";"@ =~= seq![';']);
        assert(out@ =~= old(out)@ + enc_nat(n as nat));
    }
}

/// Appends `enc_str` of a string.
fn ser_str(out: &mut String, s: &String)
    ensures
        final(out)@ == old(out)@ + enc_str(s@),
{
    let len: usize = s.as_str().unicode_len();
    ser_nat(out, len as u64);
    out.append(s.as_str());
    assert(out@ =~= old(out)@ + enc_str(s@));
}

/// Appends `enc_opt_str` of an optional string.
fn ser_opt_str(out: &mut String, o: &Option<String>)
    ensures
        final(out)@ == old(out)@ + enc_opt_str(o.deep_view()),
{
    match o {
        None => {
            out.append("N");
            proof {
                reveal_strlit("N");
                assert(out@ =~= old(out)@ + enc_opt_str(o.deep_view()));
            }
        },
        Some(s) => {
            out.append("S");
            ser_str(out, s);
            proof {
                reveal_strlit("S");
                assert("S"@ =~= seq!['S']);
                assert(out@ =~= old(out)@ + enc_opt_str(o.deep_view()));
            }
        },
    }
}

/// Appends `enc_opt_u64` of an optional number.
fn ser_opt_u64(out: &mut String, o: &Option<u64>)
    ensures
        final(out)@ == old(out)@ + enc_opt_u64(*o),
{
    match o {
        None => {
            out.append("N");
            proof {
                reveal_strlit("N");
                assert(out@ =~= old(out)@ + enc_opt_u64(*o));
            }
        },
        Some(n) => {
            out.append("S");
            ser_nat(out, *n);
            proof {
                reveal_strlit("S");
                assert("S"@ =~= seq!['S']);
                assert(out@ =~= old(out)@ + enc_opt_u64(*o));
            }
        },
    }
}

/// Appends `enc_location` of one location.
fn ser_location(out: &mut String, l: &crate::extension::ExtensionLocation)
    ensures
        final(out)@ == old(out)@ + enc_location(l.deep_view()),
{
    ser_str(out, &l.database);
    ser_str(out, &l.enabled);
    ser_str(out, &l.version);
    assert(out@ =~= old(out)@ + enc_location(l.deep_view()));
}

/// Appends `enc_locations` of a location list.
fn ser_locations(out: &mut String, ls: &Vec<crate::extension::ExtensionLocation>)
    ensures
        final(out)@ == old(out)@ + enc_locations(ls.deep_view()),
{
    ser_nat(out, ls.len() as u64);
    let n: usize = ls.len();
    let mut k: usize = 0;
    while k < n
        invariant
            0 <= k <= n,
            n == ls.len(),
            out@ == old(out)@ + enc_nat(ls.deep_view().len()) + enc_location_elems(
                ls.deep_view().take(k as int),
            ),
        decreases n - k,
    {
        ser_location(out, &ls[k]);
        proof {
            let dv = ls.deep_view();
            assert(dv.take(k + 1).drop_last() =~= dv.take(k as int));
            assert(dv.take(k + 1).last() == dv[k as int]);
            assert(out@ =~= old(out)@ + enc_nat(dv.len()) + enc_location_elems(dv.take(k + 1)));
        }
        k += 1;
    }
    proof {
        assert(ls.deep_view().take(n as int) =~= ls.deep_view());
        assert(out@ =~= old(out)@ + enc_locations(ls.deep_view()));
    }
}

/// Appends `enc_installed` of one installed-extension record.
fn ser_installed(out: &mut String, x: &crate::instance::InstalledExtension)
    ensures
        final(out)@ == old(out)@ + enc_installed(x.deep_view()),
{
    ser_opt_str(out, &x.name);
    ser_opt_str(out, &x.version);
    ser_opt_u64(out, &x.created_at);
    assert(out@ =~= old(out)@ + enc_installed(x.deep_view()));
}

/// Appends `enc_installeds` of an installed-extension list.
fn ser_installeds(out: &mut String, xs: &Vec<crate::instance::InstalledExtension>)
    ensures
        final(out)@ == old(out)@ + enc_installeds(xs.deep_view()),
{
    ser_nat(out, xs.len() as u64);
    let n: usize = xs.len();
    let mut k: usize = 0;
    while k < n
        invariant
            0 <= k <= n,
            n == xs.len(),
            out@ == old(out)@ + enc_nat(xs.deep_view().len()) + enc_installed_elems(
                xs.deep_view().take(k as int),
            ),
        decreases n - k,
    {
        ser_installed(out, &xs[k]);
        proof {
            let dv = xs.deep_view();
            assert(dv.take(k + 1).drop_last() =~= dv.take(k as int));
            assert(dv.take(k + 1).last() == dv[k as int]);
            assert(out@ =~= old(out)@ + enc_nat(dv.len()) + enc_installed_elems(dv.take(k + 1)));
        }
        k += 1;
    }
    proof {
        assert(xs.deep_view().take(n as int) =~= xs.deep_view());
        assert(out@ =~= old(out)@ + enc_installeds(xs.deep_view()));
    }
}

/// Appends `enc_enabled` of one enabled-extension record.
fn ser_enabled(out: &mut String, x: &crate::instance::EnabledExtension)
    ensures
        final(out)@ == old(out)@ + enc_enabled(x.deep_view()),
{
    ser_opt_str(out, &x.name);
    ser_opt_str(out, &x.version);
    ser_opt_u64(out, &x.created_at);
    ser_locations(out, &x.locations);
    assert(out@ =~= old(out)@ + enc_enabled(x.deep_view()));
}

/// Appends `enc_enableds` of an enabled-extension list.
fn ser_enableds(out: &mut String, xs: &Vec<crate::instance::EnabledExtension>)
    ensures
        final(out)@ == old(out)@ + enc_enableds(xs.deep_view()),
{
    ser_nat(out, xs.len() as u64);
    let n: usize = xs.len();
    let mut k: usize = 0;
    while k < n
        invariant
            0 <= k <= n,
            n == xs.len(),
            out@ == old(out)@ + enc_nat(xs.deep_view().len()) + enc_enabled_elems(
                xs.deep_view().take(k as int),
            ),
        decreases n - k,
    {
        ser_enabled(out, &xs[k]);
        proof {
            let dv = xs.deep_view();
            assert(dv.take(k + 1).drop_last() =~= dv.take(k as int));
            assert(dv.take(k + 1).last() == dv[k as int]);
            assert(out@ =~= old(out)@ + enc_nat(dv.len()) + enc_enabled_elems(dv.take(k + 1)));
        }
        k += 1;
    }
    proof {
        assert(xs.deep_view().take(n as int) =~= xs.deep_view());
        assert(out@ =~= old(out)@ + enc_enableds(xs.deep_view()));
    }
}

/// Appends `enc_database` of one database record.
fn ser_database(out: &mut String, d: &crate::instance::Database)
    ensures
        final(out)@ == old(out)@ + enc_database(d.deep_view()),
{
    ser_str(out, &d.name);
}

/// Appends `enc_databases` of a database list.
fn ser_databases(out: &mut String, ds: &Vec<crate::instance::Database>)
    ensures
        final(out)@ == old(out)@ + enc_databases(ds.deep_view()),
{
    ser_nat(out, ds.len() as u64);
    let n: usize = ds.len();
    let mut k: usize = 0;
    while k < n
        invariant
            0 <= k <= n,
            n == ds.len(),
            out@ == old(out)@ + enc_nat(ds.deep_view().len()) + enc_database_elems(
                ds.deep_view().take(k as int),
            ),
        decreases n - k,
    {
        ser_database(out, &ds[k]);
        proof {
            let dv = ds.deep_view();
            assert(dv.take(k + 1).drop_last() =~= dv.take(k as int));
            assert(dv.take(k + 1).last() == dv[k as int]);
            assert(out@ =~= old(out)@ + enc_nat(dv.len()) + enc_database_elems(dv.take(k + 1)));
        }
        k += 1;
    }
    proof {
        assert(ds.deep_view().take(n as int) =~= ds.deep_view());
        assert(out@ =~= old(out)@ + enc_databases(ds.deep_view()));
    }
}

/// Appends `enc_instance` of one instance record.
#[verifier::rlimit(60)]
fn ser_instance(out: &mut String, x: &crate::instance::Instance)
    ensures
        final(out)@ == old(out)@ + enc_instance(x.deep_view()),
{
    ser_opt_str(out, &x.name);
    ser_opt_str(out, &x.stack_type);
    ser_opt_str(out, &x.port);
    ser_opt_str(out, &x.version);
    ser_opt_u64(out, &x.created_at);
    ser_installeds(out, &x.installed_extensions);
    ser_enableds(out, &x.enabled_extensions);
    ser_databases(out, &x.databases);
    assert(out@ =~= old(out)@ + enc_instance(x.deep_view()));
}

/// Appends `enc_instances` of an instance list.
fn ser_instances(out: &mut String, xs: &Vec<crate::instance::Instance>)
    ensures
        final(out)@ == old(out)@ + enc_instances(xs.deep_view()),
{
    ser_nat(out, xs.len() as u64);
    let n: usize = xs.len();
    let mut k: usize = 0;
    while k < n
        invariant
            0 <= k <= n,
            n == xs.len(),
            out@ == old(out)@ + enc_nat(xs.deep_view().len()) + enc_instance_elems(
                xs.deep_view().take(k as int),
            ),
        decreases n - k,
    {
        ser_instance(out, &xs[k]);
        proof {
            let dv = xs.deep_view();
            assert(dv.take(k + 1).drop_last() =~= dv.take(k as int));
            assert(dv.take(k + 1).last() == dv[k as int]);
            assert(out@ =~= old(out)@ + enc_nat(dv.len()) + enc_instance_elems(dv.take(k + 1)));
        }
        k += 1;
    }
    proof {
        assert(xs.deep_view().take(n as int) =~= xs.deep_view());
        assert(out@ =~= old(out)@ + enc_instances(xs.deep_view()));
    }
}

/// The value of a digit-string prefix never exceeds the whole
/// string's value.
proof fn lemma_val_take(s: Seq<char>, k: int)
    requires
        0 <= k <= s.len(),
    ensures
        val_of(s.take(k)) <= val_of(s),
    decreases s.len(),
{
    if k == s.len() {
        assert(s.take(k) =~= s);
    } else {
        assert(s.len() >= 1);
        assert(s.take(k) =~= s.drop_last().take(k));
        lemma_val_take(s.drop_last(), k);
        assert(val_of(s) == val_of(s.drop_last()) * 10 + digit_val(s.last()));
    }
}

/// Reads a number closed by `';'`.  Returns the value and the index
/// after the terminator.
///
/// Complete for encodings: on input whose tail from `i` starts with
/// `enc_nat(v)`, the call returns exactly `v` and stops exactly after
/// the terminator.
#[verifier::rlimit(100)]
fn dec_nat(s: &str, len: usize, i: usize) -> (r: Option<(u64, usize)>)
    requires
        len == s@.len(),
        i <= len,
    ensures
        r matches Some((_, j)) ==> i < j <= len,
        forall|v: u64, rest: Seq<char>|
            s@.skip(i as int) == #[trigger] (enc_nat(v as nat) + rest) ==> (r is Some
                && r.unwrap().0 == v && r.unwrap().1 == i + enc_nat(v as nat).len()),
{
    let ghost sv = s@;
    let mut j: usize = i;
    let mut acc: u64 = 0;
    let mut seen = false;
    let mut stop = false;
    while j < len && !stop
        invariant
            i <= j <= len,
            len == sv.len(),
            sv == s@,
            forall|t: int| i <= t < j ==> is_digit_char(#[trigger] sv[t]),
            acc == val_of(sv.subrange(i as int, j as int)),
            seen <==> j > i,
            stop ==> (j < len && !is_digit_char(sv[j as int])),
        decreases len - j + (if stop { 0int } else { 1int }),
    {
        let c = s.get_char(j);
        let cu = c as u32;
        if 48 <= cu && cu <= 57 {
            let d = (cu - 48) as u64;
            if acc > u64::MAX / 10 {
                proof {
                    dec_nat_overflow_contradiction(sv, i as int, j as int, acc, d);
                }
                return None;
            }
            let acc10 = acc * 10;
            if d > u64::MAX - acc10 {
                proof {
                    dec_nat_overflow_contradiction(sv, i as int, j as int, acc, d);
                }
                return None;
            }
            proof {
                assert(sv.subrange(i as int, j + 1).drop_last() =~= sv.subrange(i as int, j as int));
                assert(sv.subrange(i as int, j + 1).last() == sv[j as int]);
                assert(digit_val(sv[j as int]) == d);
            }
            acc = acc10 + d;
            seen = true;
            j += 1;
        } else {
            stop = true;
        }
    }
    if !seen {
        proof {
            assert forall|v: u64, rest: Seq<char>|
                sv.skip(i as int) != #[trigger] (enc_nat(v as nat) + rest) by {
                if sv.skip(i as int) == enc_nat(v as nat) + rest {
                    lemma_digits_of(v as nat);
                    assert(sv.skip(i as int)[0] == digits_of(v as nat)[0]);
                    assert(sv[i as int] == digits_of(v as nat)[0]);
                    assert(is_digit_char(sv[i as int]));
                }
            }
        }
        return None;
    }
    if j < len && s.get_char(j) == ';' {
        proof {
            assert forall|v: u64, rest: Seq<char>|
                sv.skip(i as int) == #[trigger] (enc_nat(v as nat) + rest) implies (acc == v && j
                + 1 == i + enc_nat(v as nat).len()) by {
                dec_nat_region(sv, i as int, j as int, len as int, v, rest);
                assert(sv.subrange(i as int, j as int) =~= digits_of(v as nat));
                lemma_digits_of(v as nat);
            }
        }
        Some((acc, j + 1))
    } else {
        proof {
            assert forall|v: u64, rest: Seq<char>|
                sv.skip(i as int) != #[trigger] (enc_nat(v as nat) + rest) by {
                if sv.skip(i as int) == enc_nat(v as nat) + rest {
                    dec_nat_region(sv, i as int, j as int, len as int, v, rest);
                    assert(sv[j as int] == ';');
                    assert(j < len);
                }
            }
        }
        None
    }
}

/// In `dec_nat`, when the scan has read only digits and sits on a
/// digit run that began an encoding of `v`, the scan is still within
/// the digit region, so the accumulator is a prefix value of `v`.
proof fn dec_nat_prefix(sv: Seq<char>, i: int, j: int, v: u64, rest: Seq<char>)
    requires
        0 <= i <= j <= sv.len(),
        sv.skip(i) == enc_nat(v as nat) + rest,
        forall|t: int| i <= t < j ==> is_digit_char(#[trigger] sv[t]),
        j < sv.len() ==> is_digit_char(sv[j]) || j == i + digits_of(v as nat).len(),
    ensures
        j <= i + digits_of(v as nat).len() || !is_digit_char(sv[j - 1]),
{
    lemma_digits_of(v as nat);
    let dl = digits_of(v as nat).len() as int;
    if j > i + dl {
        assert(sv[i + dl] == sv.skip(i)[dl]);
        assert(sv.skip(i)[dl] == (enc_nat(v as nat) + rest)[dl]);
        assert((enc_nat(v as nat) + rest)[dl] == enc_nat(v as nat)[dl]);
        assert(enc_nat(v as nat)[dl] == ';');
        assert(is_digit_char(sv[i + dl]));
        assert(!is_digit_char(';'));
    }
}

/// In `dec_nat`, overflow of the accumulator is impossible while the
/// scanned digits are a prefix of an encoded `u64`.
proof fn dec_nat_overflow_contradiction(sv: Seq<char>, i: int, j: int, acc: u64, d: u64)
    requires
        0 <= i <= j < sv.len(),
        forall|t: int| i <= t < j ==> is_digit_char(#[trigger] sv[t]),
        is_digit_char(sv[j]),
        acc == val_of(sv.subrange(i, j)),
        digit_val(sv[j]) == d,
        acc * 10 + d > u64::MAX,
    ensures
        forall|v: u64, rest: Seq<char>| sv.skip(i) != #[trigger] (enc_nat(v as nat) + rest),
{
    assert forall|v: u64, rest: Seq<char>|
        sv.skip(i) != #[trigger] (enc_nat(v as nat) + rest) by {
        if sv.skip(i) == enc_nat(v as nat) + rest {
            lemma_digits_of(v as nat);
            let dg = digits_of(v as nat);
            let dl = dg.len() as int;
            assert(sv.skip(i).len() == sv.len() - i);
            assert((enc_nat(v as nat) + rest).len() == dl + 1 + rest.len());
            assert forall|t: int| 0 <= t < dl implies sv[i + t] == #[trigger] dg[t] by {
                assert(sv.skip(i)[t] == (enc_nat(v as nat) + rest)[t]);
                assert((enc_nat(v as nat) + rest)[t] == enc_nat(v as nat)[t]);
                assert(enc_nat(v as nat)[t] == dg[t]);
            }
            assert(sv[i + dl] == ';') by {
                assert(sv.skip(i)[dl] == (enc_nat(v as nat) + rest)[dl]);
                assert((enc_nat(v as nat) + rest)[dl] == enc_nat(v as nat)[dl]);
                assert(enc_nat(v as nat)[dl] == ';');
            }
            assert(j < i + dl) by {
                if j > i + dl {
                    assert(is_digit_char(sv[i + dl]));
                } else if j == i + dl {
                    assert(is_digit_char(sv[j]));
                }
            }
            assert(sv.subrange(i, j) =~= dg.take(j - i));
            lemma_val_take(dg, j - i);
            assert(acc <= v);
            assert(sv.subrange(i, j + 1) =~= dg.take(j - i + 1));
            lemma_val_take(dg, j - i + 1);
            assert(val_of(dg.take(j - i + 1)) <= v);
            assert(dg.take(j - i + 1).drop_last() =~= dg.take(j - i));
            assert(dg.take(j - i + 1).last() == dg[j - i]);
            assert(dg[j - i] == sv[j]);
            assert(val_of(dg.take(j - i + 1)) == acc * 10 + d);
        }
    }
}

/// In `dec_nat`, once the scan has stopped (end of input, or a
/// non-digit under the cursor) after reading only digits, and the
/// tail from `i` is an encoding of `v`, the scan stopped exactly at
/// the end of the digit region.
proof fn dec_nat_region(sv: Seq<char>, i: int, j: int, len: int, v: u64, rest: Seq<char>)
    requires
        0 <= i <= j <= len,
        len == sv.len(),
        sv.skip(i) == enc_nat(v as nat) + rest,
        forall|t: int| i <= t < j ==> is_digit_char(#[trigger] sv[t]),
        j == len || !is_digit_char(sv[j]),
    ensures
        j == i + digits_of(v as nat).len(),
        i < j,
        j < len,
        sv[j] == ';',
        forall|t: int| 0 <= t < j - i ==> sv[i + t] == #[trigger] digits_of(v as nat)[t],
{
    lemma_digits_of(v as nat);
    let dg = digits_of(v as nat);
    let dl = dg.len() as int;
    assert(sv.skip(i).len() == len - i);
    assert((enc_nat(v as nat) + rest).len() == dl + 1 + rest.len());
    assert(i + dl < len);
    assert forall|t: int| 0 <= t < dl implies sv[i + t] == #[trigger] dg[t] by {
        assert(sv.skip(i)[t] == (enc_nat(v as nat) + rest)[t]);
        assert((enc_nat(v as nat) + rest)[t] == enc_nat(v as nat)[t]);
        assert(enc_nat(v as nat)[t] == dg[t]);
    }
    assert(sv[i + dl] == ';') by {
        assert(sv.skip(i)[dl] == enc_nat(v as nat)[dl]);
    }
    assert(!is_digit_char(';'));
    if j > i + dl {
        assert(is_digit_char(sv[i + dl]));
        assert(false);
    }
    if j < i + dl {
        assert(is_digit_char(dg[j - i]));
        assert(sv[j] == dg[j - i]);
        assert(j < len);
        assert(false);
    }
}

/// Reads a length-prefixed string.
///
/// Complete for encodings: on input whose tail from `i` starts with
/// `enc_str(v)`, the call returns exactly `v` and consumes exactly
/// the encoding.
#[verifier::rlimit(100)]
fn dec_str(s: &str, len: usize, i: usize) -> (r: Option<(String, usize)>)
    requires
        len == s@.len(),
        i <= len,
    ensures
        r matches Some((_, j)) ==> i < j <= len,
        forall|v: Seq<char>, rest: Seq<char>|
            s@.skip(i as int) == #[trigger] (enc_str(v) + rest) ==> (r is Some && r.unwrap().0@
                == v && r.unwrap().1 == i + enc_str(v).len()),
{
    let ghost sv = s@;
    proof {
        assert forall|v: Seq<char>, rest: Seq<char>|
            sv.skip(i as int) == #[trigger] (enc_str(v) + rest) implies sv.skip(i as int)
            == enc_nat((v.len() as u64) as nat) + (v + rest) && v.len() <= u64::MAX by {
            lemma_add_assoc(enc_nat(v.len()), v, rest);
            assert(sv.skip(i as int).len() <= len);
            assert((enc_str(v) + rest).len() >= v.len());
        }
    }
    match dec_nat(s, len, i) {
        None => {
            None
        },
        Some((n, j)) => {
            if n > (len - j) as u64 {
                proof {
                    assert forall|v: Seq<char>, rest: Seq<char>|
                        sv.skip(i as int) != #[trigger] (enc_str(v) + rest) by {
                        if sv.skip(i as int) == enc_str(v) + rest {
                            assert(sv.skip(i as int) == enc_nat((v.len() as u64) as nat) + (v
                                + rest));
                            assert(n == v.len());
                            assert(j == i + enc_nat(v.len()).len());
                            assert(sv.skip(i as int).len() == len - i);
                            assert((enc_nat(v.len()) + (v + rest)).len() == enc_nat(v.len()).len()
                                + v.len() + rest.len());
                        }
                    }
                }
                None
            } else {
                let nn = n as usize;
                let sub = s.substring_char(j, j + nn);
                let owned = sub.to_owned();
                proof {
                    assert forall|v: Seq<char>, rest: Seq<char>|
                        sv.skip(i as int) == #[trigger] (enc_str(v) + rest) implies (owned@ == v
                        && j + nn == i + enc_str(v).len()) by {
                        assert(sv.skip(i as int) == enc_nat((v.len() as u64) as nat) + (v + rest));
                        assert(n == v.len());
                        assert(j == i + enc_nat(v.len()).len());
                        assert forall|t: int| 0 <= t < nn implies sv[j + t] == #[trigger] v[t] by {
                            assert(sv[j + t] == sv.skip(i as int)[(j - i) + t]);
                            assert(sv.skip(i as int)[(j - i) + t] == (enc_nat(v.len()) + (v
                                + rest))[(j - i) + t]);
                            assert((enc_nat(v.len()) + (v + rest))[(j - i) + t] == (v + rest)[t]);
                            assert((v + rest)[t] == v[t]);
                        }
                        assert(sub@ =~= v);
                    }
                }
                Some((owned, j + nn))
            }
        },
    }
}

/// Reads an optional string, complete for encodings.
fn dec_opt_str(s: &str, len: usize, i: usize) -> (r: Option<(Option<String>, usize)>)
    requires
        len == s@.len(),
        i <= len,
    ensures
        r matches Some((_, j)) ==> i < j <= len,
        forall|o: Option<Seq<char>>, rest: Seq<char>|
            s@.skip(i as int) == #[trigger] (enc_opt_str(o) + rest) ==> (r is Some
                && r.unwrap().0.deep_view() == o && r.unwrap().1 == i + enc_opt_str(o).len()),
{
    let ghost sv = s@;
    proof {
        assert forall|o: Option<Seq<char>>, rest: Seq<char>|
            sv.skip(i as int) == #[trigger] (enc_opt_str(o) + rest) implies i < len && sv[i as int]
            == (if o is Some { 'S' } else { 'N' }) by {
            assert(sv.skip(i as int).len() == len - i);
            assert((enc_opt_str(o) + rest).len() >= 1);
            assert(sv[i as int] == sv.skip(i as int)[0]);
            assert(sv.skip(i as int)[0] == enc_opt_str(o)[0]);
        }
    }
    if i >= len {
        return None;
    }
    let c = s.get_char(i);
    if c == 'N' {
        proof {
            assert forall|o: Option<Seq<char>>, rest: Seq<char>|
                sv.skip(i as int) == #[trigger] (enc_opt_str(o) + rest) implies o is None by {}
        }
        Some((None, i + 1))
    } else if c == 'S' {
        proof {
            assert forall|o: Option<Seq<char>>, rest: Seq<char>|
                sv.skip(i as int) == #[trigger] (enc_opt_str(o) + rest) implies (o is Some
                && sv.skip(i + 1) == enc_str(o.unwrap()) + rest) by {
                if o is Some {
                    lemma_add_assoc(seq!['S'], enc_str(o.unwrap()), rest);
                    assert(sv.skip(i + 1) =~= sv.skip(i as int).skip(1));
                    assert((seq!['S'] + (enc_str(o.unwrap()) + rest)).skip(1) =~= enc_str(
                        o.unwrap(),
                    ) + rest);
                }
            }
        }
        match dec_str(s, len, i + 1) {
            None => None,
            Some((v, j)) => Some((Some(v), j)),
        }
    } else {
        None
    }
}

/// Reads an optional number, complete for encodings.
fn dec_opt_u64(s: &str, len: usize, i: usize) -> (r: Option<(Option<u64>, usize)>)
    requires
        len == s@.len(),
        i <= len,
    ensures
        r matches Some((_, j)) ==> i < j <= len,
        forall|o: Option<u64>, rest: Seq<char>|
            s@.skip(i as int) == #[trigger] (enc_opt_u64(o) + rest) ==> (r is Some && r.unwrap().0
                == o && r.unwrap().1 == i + enc_opt_u64(o).len()),
{
    let ghost sv = s@;
    proof {
        assert forall|o: Option<u64>, rest: Seq<char>|
            sv.skip(i as int) == #[trigger] (enc_opt_u64(o) + rest) implies i < len && sv[i as int]
            == (if o is Some { 'S' } else { 'N' }) by {
            assert(sv.skip(i as int).len() == len - i);
            assert((enc_opt_u64(o) + rest).len() >= 1);
            assert(sv[i as int] == sv.skip(i as int)[0]);
            assert(sv.skip(i as int)[0] == enc_opt_u64(o)[0]);
        }
    }
    if i >= len {
        return None;
    }
    let c = s.get_char(i);
    if c == 'N' {
        Some((None, i + 1))
    } else if c == 'S' {
        proof {
            assert forall|o: Option<u64>, rest: Seq<char>|
                sv.skip(i as int) == #[trigger] (enc_opt_u64(o) + rest) implies (o is Some
                && sv.skip(i + 1) == enc_nat(o.unwrap() as nat) + rest) by {
                if o is Some {
                    lemma_add_assoc(seq!['S'], enc_nat(o.unwrap() as nat), rest);
                    assert(sv.skip(i + 1) =~= sv.skip(i as int).skip(1));
                    assert((seq!['S'] + (enc_nat(o.unwrap() as nat) + rest)).skip(1) =~= enc_nat(
                        o.unwrap() as nat,
                    ) + rest);
                }
            }
        }
        match dec_nat(s, len, i + 1) {
            None => None,
            Some((v, j)) => Some((Some(v), j)),
        }
    } else {
        None
    }
}

/// Advancing past a known prefix of the tail.
proof fn lemma_skip_concat(sv: Seq<char>, i: int, a: Seq<char>, t: Seq<char>)
    requires
        0 <= i <= sv.len(),
        sv.skip(i) == a + t,
    ensures
        i + a.len() + t.len() == sv.len(),
        sv.skip(i + a.len()) == t,
{
    assert(sv.skip(i).len() == sv.len() - i);
    assert forall|u: int| 0 <= u < t.len() implies sv.skip(i + a.len() as int)[u] == t[u] by {
        assert(sv.skip(i + a.len() as int)[u] == sv[i + a.len() + u]);
        assert(sv[i + a.len() + u] == sv.skip(i)[a.len() + u]);
        assert((a + t)[a.len() + u] == t[u]);
    }
    assert(sv.skip(i + a.len() as int) =~= t);
}

/// A non-empty location list's elements start with the first one.
proof fn lemma_location_elems_first(x: Seq<LocationView>)
    requires
        x.len() > 0,
    ensures
        enc_location_elems(x) == enc_location(x[0]) + enc_location_elems(x.drop_first()),
    decreases x.len(),
{
    if x.len() == 1 {
        assert(x.drop_last() =~= Seq::<LocationView>::empty());
        assert(x.drop_first() =~= Seq::<LocationView>::empty());
        assert(x.last() == x[0]);
        assert(enc_location_elems(x) =~= enc_location(x[0]) + enc_location_elems(x.drop_first()));
    } else {
        lemma_location_elems_first(x.drop_last());
        assert(x.drop_last()[0] == x[0]);
        assert(x.drop_last().drop_first() =~= x.drop_first().drop_last());
        assert(x.drop_first().last() == x.last());
        lemma_add_assoc(
            enc_location(x[0]),
            enc_location_elems(x.drop_first().drop_last()),
            enc_location(x.last()),
        );
    }
}

/// A non-empty installed-extension list's elements start with the
/// first one.
proof fn lemma_installed_elems_first(x: Seq<InstalledExtensionView>)
    requires
        x.len() > 0,
    ensures
        enc_installed_elems(x) == enc_installed(x[0]) + enc_installed_elems(x.drop_first()),
    decreases x.len(),
{
    if x.len() == 1 {
        assert(x.drop_last() =~= Seq::<InstalledExtensionView>::empty());
        assert(x.drop_first() =~= Seq::<InstalledExtensionView>::empty());
        assert(x.last() == x[0]);
        assert(enc_installed_elems(x) =~= enc_installed(x[0]) + enc_installed_elems(
            x.drop_first(),
        ));
    } else {
        lemma_installed_elems_first(x.drop_last());
        assert(x.drop_last()[0] == x[0]);
        assert(x.drop_last().drop_first() =~= x.drop_first().drop_last());
        assert(x.drop_first().last() == x.last());
        lemma_add_assoc(
            enc_installed(x[0]),
            enc_installed_elems(x.drop_first().drop_last()),
            enc_installed(x.last()),
        );
    }
}

/// A non-empty enabled-extension list's elements start with the first
/// one.
proof fn lemma_enabled_elems_first(x: Seq<EnabledExtensionView>)
    requires
        x.len() > 0,
    ensures
        enc_enabled_elems(x) == enc_enabled(x[0]) + enc_enabled_elems(x.drop_first()),
    decreases x.len(),
{
    if x.len() == 1 {
        assert(x.drop_last() =~= Seq::<EnabledExtensionView>::empty());
        assert(x.drop_first() =~= Seq::<EnabledExtensionView>::empty());
        assert(x.last() == x[0]);
        assert(enc_enabled_elems(x) =~= enc_enabled(x[0]) + enc_enabled_elems(x.drop_first()));
    } else {
        lemma_enabled_elems_first(x.drop_last());
        assert(x.drop_last()[0] == x[0]);
        assert(x.drop_last().drop_first() =~= x.drop_first().drop_last());
        assert(x.drop_first().last() == x.last());
        lemma_add_assoc(
            enc_enabled(x[0]),
            enc_enabled_elems(x.drop_first().drop_last()),
            enc_enabled(x.last()),
        );
    }
}

/// A non-empty database list's elements start with the first one.
proof fn lemma_database_elems_first(x: Seq<DatabaseView>)
    requires
        x.len() > 0,
    ensures
        enc_database_elems(x) == enc_database(x[0]) + enc_database_elems(x.drop_first()),
    decreases x.len(),
{
    if x.len() == 1 {
        assert(x.drop_last() =~= Seq::<DatabaseView>::empty());
        assert(x.drop_first() =~= Seq::<DatabaseView>::empty());
        assert(x.last() == x[0]);
        assert(enc_database_elems(x) =~= enc_database(x[0]) + enc_database_elems(x.drop_first()));
    } else {
        lemma_database_elems_first(x.drop_last());
        assert(x.drop_last()[0] == x[0]);
        assert(x.drop_last().drop_first() =~= x.drop_first().drop_last());
        assert(x.drop_first().last() == x.last());
        lemma_add_assoc(
            enc_database(x[0]),
            enc_database_elems(x.drop_first().drop_last()),
            enc_database(x.last()),
        );
    }
}

/// A non-empty instance list's elements start with the first one.
proof fn lemma_instance_elems_first(x: Seq<InstanceView>)
    requires
        x.len() > 0,
    ensures
        enc_instance_elems(x) == enc_instance(x[0]) + enc_instance_elems(x.drop_first()),
    decreases x.len(),
{
    if x.len() == 1 {
        assert(x.drop_last() =~= Seq::<InstanceView>::empty());
        assert(x.drop_first() =~= Seq::<InstanceView>::empty());
        assert(x.last() == x[0]);
        assert(enc_instance_elems(x) =~= enc_instance(x[0]) + enc_instance_elems(x.drop_first()));
    } else {
        lemma_instance_elems_first(x.drop_last());
        assert(x.drop_last()[0] == x[0]);
        assert(x.drop_last().drop_first() =~= x.drop_first().drop_last());
        assert(x.drop_first().last() == x.last());
        lemma_add_assoc(
            enc_instance(x[0]),
            enc_instance_elems(x.drop_first().drop_last()),
            enc_instance(x.last()),
        );
    }
}

/// Every location encoding is non-empty, so an element list's
/// encoding is at least as long as the list.
proof fn lemma_location_elems_len(x: Seq<LocationView>)
    ensures
        enc_location_elems(x).len() >= x.len(),
    decreases x.len(),
{
    if x.len() > 0 {
        lemma_location_elems_len(x.drop_last());
        lemma_digits_of(x.last().database.len());
    }
}

/// Every installed-extension encoding is non-empty, so an element
/// list's encoding is at least as long as the list.
proof fn lemma_installed_elems_len(x: Seq<InstalledExtensionView>)
    ensures
        enc_installed_elems(x).len() >= x.len(),
    decreases x.len(),
{
    if x.len() > 0 {
        lemma_installed_elems_len(x.drop_last());
    }
}

/// Every enabled-extension encoding is non-empty, so an element
/// list's encoding is at least as long as the list.
proof fn lemma_enabled_elems_len(x: Seq<EnabledExtensionView>)
    ensures
        enc_enabled_elems(x).len() >= x.len(),
    decreases x.len(),
{
    if x.len() > 0 {
        lemma_enabled_elems_len(x.drop_last());
    }
}

/// Every database encoding is non-empty, so an element list's
/// encoding is at least as long as the list.
proof fn lemma_database_elems_len(x: Seq<DatabaseView>)
    ensures
        enc_database_elems(x).len() >= x.len(),
    decreases x.len(),
{
    if x.len() > 0 {
        lemma_database_elems_len(x.drop_last());
        lemma_digits_of(x.last().name.len());
    }
}

/// Every instance encoding is non-empty, so an element list's
/// encoding is at least as long as the list.
proof fn lemma_instance_elems_len(x: Seq<InstanceView>)
    ensures
        enc_instance_elems(x).len() >= x.len(),
    decreases x.len(),
{
    if x.len() > 0 {
        lemma_instance_elems_len(x.drop_last());
    }
}

/// Reads one location record, complete for encodings.
#[verifier::rlimit(100)]
fn dec_location(s: &str, len: usize, i: usize) -> (r: Option<
    (crate::extension::ExtensionLocation, usize),
>)
    requires
        len == s@.len(),
        i <= len,
    ensures
        r matches Some((_, j)) ==> i < j <= len,
        forall|v: LocationView, rest: Seq<char>|
            s@.skip(i as int) == #[trigger] (enc_location(v) + rest) ==> (r is Some
                && r.unwrap().0.deep_view() == v && r.unwrap().1 == i + enc_location(v).len()),
{
    let ghost sv = s@;
    proof {
        assert forall|v: LocationView, rest: Seq<char>|
            sv.skip(i as int) == #[trigger] (enc_location(v) + rest) implies sv.skip(i as int)
            == enc_str(v.database) + (enc_str(v.enabled) + (enc_str(v.version) + rest)) by {
            lemma_add_assoc(enc_str(v.database) + enc_str(v.enabled), enc_str(v.version), rest);
            lemma_add_assoc(enc_str(v.database), enc_str(v.enabled), enc_str(v.version) + rest);
        }
    }
    let (database, i1) = match dec_str(s, len, i) {
        None => {
            return None;
        },
        Some(v) => v,
    };
    proof {
        assert forall|v: LocationView, rest: Seq<char>|
            sv.skip(i as int) == #[trigger] (enc_location(v) + rest) implies (database@
            == v.database && i1 == i + enc_str(v.database).len() && sv.skip(i1 as int) == enc_str(
            v.enabled,
        ) + (enc_str(v.version) + rest)) by {
            lemma_skip_concat(
                sv,
                i as int,
                enc_str(v.database),
                enc_str(v.enabled) + (enc_str(v.version) + rest),
            );
        }
    }
    let (enabled, i2) = match dec_str(s, len, i1) {
        None => {
            return None;
        },
        Some(v) => v,
    };
    proof {
        assert forall|v: LocationView, rest: Seq<char>|
            sv.skip(i as int) == #[trigger] (enc_location(v) + rest) implies (enabled@ == v.enabled
            && i2 == i1 + enc_str(v.enabled).len() && sv.skip(i2 as int) == enc_str(v.version)
            + rest) by {
            lemma_skip_concat(sv, i1 as int, enc_str(v.enabled), enc_str(v.version) + rest);
        }
    }
    let (version, i3) = match dec_str(s, len, i2) {
        None => {
            return None;
        },
        Some(v) => v,
    };
    let out = crate::extension::ExtensionLocation { database, enabled, version };
    proof {
        assert forall|v: LocationView, rest: Seq<char>|
            sv.skip(i as int) == #[trigger] (enc_location(v) + rest) implies (out.deep_view() == v
            && i3 == i + enc_location(v).len()) by {
            assert(version@ == v.version);
            assert(i3 == i2 + enc_str(v.version).len());
            assert(out.deep_view() =~= v);
            assert(enc_location(v).len() == enc_str(v.database).len() + enc_str(v.enabled).len()
                + enc_str(v.version).len());
        }
    }
    Some((out, i3))
}

/// Reads a location list, complete for encodings.
#[verifier::rlimit(100)]
fn dec_locations(s: &str, len: usize, i: usize) -> (r: Option<
    (Vec<crate::extension::ExtensionLocation>, usize),
>)
    requires
        len == s@.len(),
        i <= len,
    ensures
        r matches Some((_, j)) ==> i < j <= len,
        forall|x: Seq<LocationView>, rest: Seq<char>|
            s@.skip(i as int) == #[trigger] (enc_locations(x) + rest) ==> (r is Some
                && r.unwrap().0.deep_view() == x && r.unwrap().1 == i + enc_locations(x).len()),
{
    let ghost sv = s@;
    proof {
        assert forall|x: Seq<LocationView>, rest: Seq<char>|
            sv.skip(i as int) == #[trigger] (enc_locations(x) + rest) implies (sv.skip(i as int)
            == enc_nat((x.len() as u64) as nat) + (enc_location_elems(x) + rest) && x.len()
            <= u64::MAX) by {
            lemma_add_assoc(enc_nat(x.len()), enc_location_elems(x), rest);
            lemma_location_elems_len(x);
            assert(sv.skip(i as int).len() == sv.len() - i);
        }
    }
    let (cnt, j0) = match dec_nat(s, len, i) {
        None => {
            return None;
        },
        Some(v) => v,
    };
    proof {
        assert forall|x: Seq<LocationView>, rest: Seq<char>|
            sv.skip(i as int) == #[trigger] (enc_locations(x) + rest) implies (cnt as nat
            == x.len() && j0 == i + enc_nat(x.len()).len() && sv.skip(j0 as int)
            == enc_location_elems(x.skip(0)) + rest) by {
            lemma_skip_concat(sv, i as int, enc_nat(x.len()), enc_location_elems(x) + rest);
            assert(x.skip(0) =~= x);
        }
    }
    let mut out: Vec<crate::extension::ExtensionLocation> = Vec::new();
    let mut c: u64 = 0;
    let mut j: usize = j0;
    while c < cnt
        invariant
            i < j <= len,
            len == sv.len(),
            sv == s@,
            c <= cnt,
            forall|x: Seq<LocationView>, rest: Seq<char>|
                sv.skip(i as int) == #[trigger] (enc_locations(x) + rest) ==> (cnt as nat
                    == x.len() && c as nat <= x.len() && out.deep_view() == x.take(c as int)
                    && sv.skip(j as int) == enc_location_elems(x.skip(c as int)) + rest),
        decreases cnt - c,
    {
        let stepped = dec_location(s, len, j);
        proof {
            assert forall|x: Seq<LocationView>, rest: Seq<char>|
                sv.skip(i as int) == #[trigger] (enc_locations(x) + rest) implies (sv.skip(
                j as int,
            ) == enc_location(x[c as int]) + (enc_location_elems(x.skip(c + 1)) + rest)) by {
                lemma_location_elems_first(x.skip(c as int));
                assert(x.skip(c as int)[0] == x[c as int]);
                assert(x.skip(c as int).drop_first() =~= x.skip(c + 1));
                lemma_add_assoc(
                    enc_location(x[c as int]),
                    enc_location_elems(x.skip(c + 1)),
                    rest,
                );
            }
        }
        match stepped {
            None => {
                return None;
            },
            Some((l, j2)) => {
                let ghost pre = out.deep_view();
                out.push(l);
                proof {
                    assert forall|x: Seq<LocationView>, rest: Seq<char>|
                        sv.skip(i as int) == #[trigger] (enc_locations(x) + rest) implies (
                    out.deep_view() == x.take(c + 1) && sv.skip(j2 as int)
                        == enc_location_elems(x.skip(c + 1)) + rest) by {
                        assert(l.deep_view() == x[c as int]);
                        assert(j2 == j + enc_location(x[c as int]).len());
                        lemma_skip_concat(
                            sv,
                            j as int,
                            enc_location(x[c as int]),
                            enc_location_elems(x.skip(c + 1)) + rest,
                        );
                        assert(pre == x.take(c as int));
                        assert(forall|t: int|
                            0 <= t < pre.len() ==> #[trigger] out.deep_view()[t] == pre[t]);
                        assert(out.deep_view()[c as int] == l.deep_view());
                        assert(out.deep_view() =~= x.take(c + 1));
                    }
                }
                j = j2;
                c += 1;
            },
        }
    }
    proof {
        assert forall|x: Seq<LocationView>, rest: Seq<char>|
            sv.skip(i as int) == #[trigger] (enc_locations(x) + rest) implies (out.deep_view() == x
            && j == i + enc_locations(x).len()) by {
            assert(out.deep_view() == x.take(cnt as int));
            assert(x.take(cnt as int) =~= x);
            assert(sv.skip(j as int) == enc_location_elems(x.skip(cnt as int)) + rest);
            assert(x.skip(cnt as int) =~= Seq::<LocationView>::empty());
            assert(enc_location_elems(Seq::<LocationView>::empty()) =~= Seq::<char>::empty());
            assert(sv.skip(j as int).len() == sv.len() - j);
            assert((enc_location_elems(x.skip(cnt as int)) + rest).len() == rest.len());
            assert(sv.skip(i as int).len() == sv.len() - i);
            assert((enc_locations(x) + rest).len() == enc_locations(x).len() + rest.len());
        }
    }
    Some((out, j))
}

/// Reads one installed-extension record, complete for encodings.
#[verifier::rlimit(100)]
fn dec_installed(s: &str, len: usize, i: usize) -> (r: Option<(crate::instance::InstalledExtension, usize)>)
    requires
        len == s@.len(),
        i <= len,
    ensures
        r matches Some((_, j)) ==> i < j <= len,
        forall|v: InstalledExtensionView, rest: Seq<char>|
            s@.skip(i as int) == #[trigger] (enc_installed(v) + rest) ==> (r is Some
                && r.unwrap().0.deep_view() == v && r.unwrap().1 == i + enc_installed(v).len()),
{
    let ghost sv = s@;
    proof {
        assert forall|v: InstalledExtensionView, rest: Seq<char>|
            sv.skip(i as int) == #[trigger] (enc_installed(v) + rest) implies sv.skip(i as int)
            == enc_opt_str(v.name) + (enc_opt_str(v.version) + (enc_opt_u64(v.created_at) + rest)) by {
            lemma_add_assoc(enc_opt_str(v.name) + enc_opt_str(v.version), enc_opt_u64(v.created_at), rest);
            lemma_add_assoc(enc_opt_str(v.name), enc_opt_str(v.version), enc_opt_u64(v.created_at) + rest);
        }
    }
    let (name, i1) = match dec_opt_str(s, len, i) {
        None => {
            return None;
        },
        Some(v) => v,
    };
    proof {
        assert forall|v: InstalledExtensionView, rest: Seq<char>|
            sv.skip(i as int) == #[trigger] (enc_installed(v) + rest) implies (name.deep_view() == v.name
            && i1 == i + enc_opt_str(v.name).len() && sv.skip(i1 as int) == enc_opt_str(v.version) + (enc_opt_u64(v.created_at) + rest)) by {
            lemma_skip_concat(sv, i as int, enc_opt_str(v.name), enc_opt_str(v.version) + (enc_opt_u64(v.created_at) + rest));
        }
    }
    let (version, i2) = match dec_opt_str(s, len, i1) {
        None => {
            return None;
        },
        Some(v) => v,
    };
    proof {
        assert forall|v: InstalledExtensionView, rest: Seq<char>|
            sv.skip(i as int) == #[trigger] (enc_installed(v) + rest) implies (version.deep_view() == v.version
            && i2 == i1 + enc_opt_str(v.version).len() && sv.skip(i2 as int) == enc_opt_u64(v.created_at) + rest) by {
            lemma_skip_concat(sv, i1 as int, enc_opt_str(v.version), enc_opt_u64(v.created_at) + rest);
        }
    }
    let (created_at, i3) = match dec_opt_u64(s, len, i2) {
        None => {
            return None;
        },
        Some(v) => v,
    };
    proof {
        assert forall|v: InstalledExtensionView, rest: Seq<char>|
            sv.skip(i as int) == #[trigger] (enc_installed(v) + rest) implies (created_at == v.created_at
            && i3 == i2 + enc_opt_u64(v.created_at).len() && sv.skip(i3 as int) == rest) by {
            lemma_skip_concat(sv, i2 as int, enc_opt_u64(v.created_at), rest);
        }
    }
    let out = crate::instance::InstalledExtension { name, version, created_at };
    proof {
        assert forall|v: InstalledExtensionView, rest: Seq<char>|
            sv.skip(i as int) == #[trigger] (enc_installed(v) + rest) implies (out.deep_view() == v
            && i3 == i + enc_installed(v).len()) by {
            assert(out.deep_view() =~= v);
            assert(enc_installed(v).len() == enc_opt_str(v.name).len() + enc_opt_str(v.version).len() + enc_opt_u64(v.created_at).len());
        }
    }
    Some((out, i3))
}

/// Reads an installed-extension list, complete for encodings.
#[verifier::rlimit(100)]
fn dec_installeds(s: &str, len: usize, i: usize) -> (r: Option<(Vec<crate::instance::InstalledExtension>, usize)>)
    requires
        len == s@.len(),
        i <= len,
    ensures
        r matches Some((_, j)) ==> i < j <= len,
        forall|x: Seq<InstalledExtensionView>, rest: Seq<char>|
            s@.skip(i as int) == #[trigger] (enc_installeds(x) + rest) ==> (r is Some
                && r.unwrap().0.deep_view() == x && r.unwrap().1 == i + enc_installeds(x).len()),
{
    let ghost sv = s@;
    proof {
        assert forall|x: Seq<InstalledExtensionView>, rest: Seq<char>|
            sv.skip(i as int) == #[trigger] (enc_installeds(x) + rest) implies (sv.skip(i as int)
            == enc_nat((x.len() as u64) as nat) + (enc_installed_elems(x) + rest) && x.len()
            <= u64::MAX) by {
            lemma_add_assoc(enc_nat(x.len()), enc_installed_elems(x), rest);
            lemma_installed_elems_len(x);
            assert(sv.skip(i as int).len() == sv.len() - i);
        }
    }
    let (cnt, j0) = match dec_nat(s, len, i) {
        None => {
            return None;
        },
        Some(v) => v,
    };
    proof {
        assert forall|x: Seq<InstalledExtensionView>, rest: Seq<char>|
            sv.skip(i as int) == #[trigger] (enc_installeds(x) + rest) implies (cnt as nat == x.len()
            && j0 == i + enc_nat(x.len()).len() && sv.skip(j0 as int) == enc_installed_elems(x.skip(0))
            + rest) by {
            lemma_skip_concat(sv, i as int, enc_nat(x.len()), enc_installed_elems(x) + rest);
            assert(x.skip(0) =~= x);
        }
    }
    let mut out: Vec<crate::instance::InstalledExtension> = Vec::new();
    let mut c: u64 = 0;
    let mut j: usize = j0;
    while c < cnt
        invariant
            i < j <= len,
            len == sv.len(),
            sv == s@,
            c <= cnt,
            forall|x: Seq<InstalledExtensionView>, rest: Seq<char>|
                sv.skip(i as int) == #[trigger] (enc_installeds(x) + rest) ==> (cnt as nat == x.len()
                    && c as nat <= x.len() && out.deep_view() == x.take(c as int) && sv.skip(
                    j as int,
                ) == enc_installed_elems(x.skip(c as int)) + rest),
        decreases cnt - c,
    {
        let stepped = dec_installed(s, len, j);
        proof {
            assert forall|x: Seq<InstalledExtensionView>, rest: Seq<char>|
                sv.skip(i as int) == #[trigger] (enc_installeds(x) + rest) implies (sv.skip(j as int)
                == enc_installed(x[c as int]) + (enc_installed_elems(x.skip(c + 1)) + rest)) by {
                lemma_installed_elems_first(x.skip(c as int));
                assert(x.skip(c as int)[0] == x[c as int]);
                assert(x.skip(c as int).drop_first() =~= x.skip(c + 1));
                lemma_add_assoc(enc_installed(x[c as int]), enc_installed_elems(x.skip(c + 1)), rest);
            }
        }
        match stepped {
            None => {
                return None;
            },
            Some((l, j2)) => {
                let ghost pre = out.deep_view();
                out.push(l);
                proof {
                    assert forall|x: Seq<InstalledExtensionView>, rest: Seq<char>|
                        sv.skip(i as int) == #[trigger] (enc_installeds(x) + rest) implies (
                    out.deep_view() == x.take(c + 1) && sv.skip(j2 as int) == enc_installed_elems(x.skip(
                        c + 1,
                    )) + rest) by {
                        assert(l.deep_view() == x[c as int]);
                        assert(j2 == j + enc_installed(x[c as int]).len());
                        lemma_skip_concat(
                            sv,
                            j as int,
                            enc_installed(x[c as int]),
                            enc_installed_elems(x.skip(c + 1)) + rest,
                        );
                        assert(pre == x.take(c as int));
                        assert(forall|t: int|
                            0 <= t < pre.len() ==> #[trigger] out.deep_view()[t] == pre[t]);
                        assert(out.deep_view()[c as int] == l.deep_view());
                        assert(out.deep_view() =~= x.take(c + 1));
                    }
                }
                j = j2;
                c += 1;
            },
        }
    }
    proof {
        assert forall|x: Seq<InstalledExtensionView>, rest: Seq<char>|
            sv.skip(i as int) == #[trigger] (enc_installeds(x) + rest) implies (out.deep_view() == x
            && j == i + enc_installeds(x).len()) by {
            assert(out.deep_view() == x.take(cnt as int));
            assert(x.take(cnt as int) =~= x);
            assert(sv.skip(j as int) == enc_installed_elems(x.skip(cnt as int)) + rest);
            assert(x.skip(cnt as int) =~= Seq::<InstalledExtensionView>::empty());
            assert(enc_installed_elems(Seq::<InstalledExtensionView>::empty()) =~= Seq::<char>::empty());
            assert(sv.skip(j as int).len() == sv.len() - j);
            assert((enc_installed_elems(x.skip(cnt as int)) + rest).len() == rest.len());
            assert(sv.skip(i as int).len() == sv.len() - i);
            assert((enc_installeds(x) + rest).len() == enc_installeds(x).len() + rest.len());
        }
    }
    Some((out, j))
}

/// Reads one enabled-extension record, complete for encodings.
#[verifier::rlimit(100)]
fn dec_enabled(s: &str, len: usize, i: usize) -> (r: Option<(crate::instance::EnabledExtension, usize)>)
    requires
        len == s@.len(),
        i <= len,
    ensures
        r matches Some((_, j)) ==> i < j <= len,
        forall|v: EnabledExtensionView, rest: Seq<char>|
            s@.skip(i as int) == #[trigger] (enc_enabled(v) + rest) ==> (r is Some
                && r.unwrap().0.deep_view() == v && r.unwrap().1 == i + enc_enabled(v).len()),
{
    let ghost sv = s@;
    proof {
        assert forall|v: EnabledExtensionView, rest: Seq<char>|
            sv.skip(i as int) == #[trigger] (enc_enabled(v) + rest) implies sv.skip(i as int)
            == enc_opt_str(v.name) + (enc_opt_str(v.version) + (enc_opt_u64(v.created_at) + (enc_locations(v.locations) + rest))) by {
            lemma_add_assoc(enc_opt_str(v.name) + enc_opt_str(v.version) + enc_opt_u64(v.created_at), enc_locations(v.locations), rest);
            lemma_add_assoc(enc_opt_str(v.name) + enc_opt_str(v.version), enc_opt_u64(v.created_at), enc_locations(v.locations) + rest);
            lemma_add_assoc(enc_opt_str(v.name), enc_opt_str(v.version), enc_opt_u64(v.created_at) + (enc_locations(v.locations) + rest));
        }
    }
    let (name, i1) = match dec_opt_str(s, len, i) {
        None => {
            return None;
        },
        Some(v) => v,
    };
    proof {
        assert forall|v: EnabledExtensionView, rest: Seq<char>|
            sv.skip(i as int) == #[trigger] (enc_enabled(v) + rest) implies (name.deep_view() == v.name
            && i1 == i + enc_opt_str(v.name).len() && sv.skip(i1 as int) == enc_opt_str(v.version) + (enc_opt_u64(v.created_at) + (enc_locations(v.locations) + rest))) by {
            lemma_skip_concat(sv, i as int, enc_opt_str(v.name), enc_opt_str(v.version) + (enc_opt_u64(v.created_at) + (enc_locations(v.locations) + rest)));
        }
    }
    let (version, i2) = match dec_opt_str(s, len, i1) {
        None => {
            return None;
        },
        Some(v) => v,
    };
    proof {
        assert forall|v: EnabledExtensionView, rest: Seq<char>|
            sv.skip(i as int) == #[trigger] (enc_enabled(v) + rest) implies (version.deep_view() == v.version
            && i2 == i1 + enc_opt_str(v.version).len() && sv.skip(i2 as int) == enc_opt_u64(v.created_at) + (enc_locations(v.locations) + rest)) by {
            lemma_skip_concat(sv, i1 as int, enc_opt_str(v.version), enc_opt_u64(v.created_at) + (enc_locations(v.locations) + rest));
        }
    }
    let (created_at, i3) = match dec_opt_u64(s, len, i2) {
        None => {
            return None;
        },
        Some(v) => v,
    };
    proof {
        assert forall|v: EnabledExtensionView, rest: Seq<char>|
            sv.skip(i as int) == #[trigger] (enc_enabled(v) + rest) implies (created_at == v.created_at
            && i3 == i2 + enc_opt_u64(v.created_at).len() && sv.skip(i3 as int) == enc_locations(v.locations) + rest) by {
            lemma_skip_concat(sv, i2 as int, enc_opt_u64(v.created_at), enc_locations(v.locations) + rest);
        }
    }
    let (locations, i4) = match dec_locations(s, len, i3) {
        None => {
            return None;
        },
        Some(v) => v,
    };
    proof {
        assert forall|v: EnabledExtensionView, rest: Seq<char>|
            sv.skip(i as int) == #[trigger] (enc_enabled(v) + rest) implies (locations.deep_view() == v.locations
            && i4 == i3 + enc_locations(v.locations).len() && sv.skip(i4 as int) == rest) by {
            lemma_skip_concat(sv, i3 as int, enc_locations(v.locations), rest);
        }
    }
    let out = crate::instance::EnabledExtension { name, version, created_at, locations };
    proof {
        assert forall|v: EnabledExtensionView, rest: Seq<char>|
            sv.skip(i as int) == #[trigger] (enc_enabled(v) + rest) implies (out.deep_view() == v
            && i4 == i + enc_enabled(v).len()) by {
            assert(out.deep_view() =~= v);
            assert(enc_enabled(v).len() == enc_opt_str(v.name).len() + enc_opt_str(v.version).len() + enc_opt_u64(v.created_at).len() + enc_locations(v.locations).len());
        }
    }
    Some((out, i4))
}

/// Reads an enabled-extension list, complete for encodings.
#[verifier::rlimit(100)]
fn dec_enableds(s: &str, len: usize, i: usize) -> (r: Option<(Vec<crate::instance::EnabledExtension>, usize)>)
    requires
        len == s@.len(),
        i <= len,
    ensures
        r matches Some((_, j)) ==> i < j <= len,
        forall|x: Seq<EnabledExtensionView>, rest: Seq<char>|
            s@.skip(i as int) == #[trigger] (enc_enableds(x) + rest) ==> (r is Some
                && r.unwrap().0.deep_view() == x && r.unwrap().1 == i + enc_enableds(x).len()),
{
    let ghost sv = s@;
    proof {
        assert forall|x: Seq<EnabledExtensionView>, rest: Seq<char>|
            sv.skip(i as int) == #[trigger] (enc_enableds(x) + rest) implies (sv.skip(i as int)
            == enc_nat((x.len() as u64) as nat) + (enc_enabled_elems(x) + rest) && x.len()
            <= u64::MAX) by {
            lemma_add_assoc(enc_nat(x.len()), enc_enabled_elems(x), rest);
            lemma_enabled_elems_len(x);
            assert(sv.skip(i as int).len() == sv.len() - i);
        }
    }
    let (cnt, j0) = match dec_nat(s, len, i) {
        None => {
            return None;
        },
        Some(v) => v,
    };
    proof {
        assert forall|x: Seq<EnabledExtensionView>, rest: Seq<char>|
            sv.skip(i as int) == #[trigger] (enc_enableds(x) + rest) implies (cnt as nat == x.len()
            && j0 == i + enc_nat(x.len()).len() && sv.skip(j0 as int) == enc_enabled_elems(x.skip(0))
            + rest) by {
            lemma_skip_concat(sv, i as int, enc_nat(x.len()), enc_enabled_elems(x) + rest);
            assert(x.skip(0) =~= x);
        }
    }
    let mut out: Vec<crate::instance::EnabledExtension> = Vec::new();
    let mut c: u64 = 0;
    let mut j: usize = j0;
    while c < cnt
        invariant
            i < j <= len,
            len == sv.len(),
            sv == s@,
            c <= cnt,
            forall|x: Seq<EnabledExtensionView>, rest: Seq<char>|
                sv.skip(i as int) == #[trigger] (enc_enableds(x) + rest) ==> (cnt as nat == x.len()
                    && c as nat <= x.len() && out.deep_view() == x.take(c as int) && sv.skip(
                    j as int,
                ) == enc_enabled_elems(x.skip(c as int)) + rest),
        decreases cnt - c,
    {
        let stepped = dec_enabled(s, len, j);
        proof {
            assert forall|x: Seq<EnabledExtensionView>, rest: Seq<char>|
                sv.skip(i as int) == #[trigger] (enc_enableds(x) + rest) implies (sv.skip(j as int)
                == enc_enabled(x[c as int]) + (enc_enabled_elems(x.skip(c + 1)) + rest)) by {
                lemma_enabled_elems_first(x.skip(c as int));
                assert(x.skip(c as int)[0] == x[c as int]);
                assert(x.skip(c as int).drop_first() =~= x.skip(c + 1));
                lemma_add_assoc(enc_enabled(x[c as int]), enc_enabled_elems(x.skip(c + 1)), rest);
            }
        }
        match stepped {
            None => {
                return None;
            },
            Some((l, j2)) => {
                let ghost pre = out.deep_view();
                out.push(l);
                proof {
                    assert forall|x: Seq<EnabledExtensionView>, rest: Seq<char>|
                        sv.skip(i as int) == #[trigger] (enc_enableds(x) + rest) implies (
                    out.deep_view() == x.take(c + 1) && sv.skip(j2 as int) == enc_enabled_elems(x.skip(
                        c + 1,
                    )) + rest) by {
                        assert(l.deep_view() == x[c as int]);
                        assert(j2 == j + enc_enabled(x[c as int]).len());
                        lemma_skip_concat(
                            sv,
                            j as int,
                            enc_enabled(x[c as int]),
                            enc_enabled_elems(x.skip(c + 1)) + rest,
                        );
                        assert(pre == x.take(c as int));
                        assert(forall|t: int|
                            0 <= t < pre.len() ==> #[trigger] out.deep_view()[t] == pre[t]);
                        assert(out.deep_view()[c as int] == l.deep_view());
                        assert(out.deep_view() =~= x.take(c + 1));
                    }
                }
                j = j2;
                c += 1;
            },
        }
    }
    proof {
        assert forall|x: Seq<EnabledExtensionView>, rest: Seq<char>|
            sv.skip(i as int) == #[trigger] (enc_enableds(x) + rest) implies (out.deep_view() == x
            && j == i + enc_enableds(x).len()) by {
            assert(out.deep_view() == x.take(cnt as int));
            assert(x.take(cnt as int) =~= x);
            assert(sv.skip(j as int) == enc_enabled_elems(x.skip(cnt as int)) + rest);
            assert(x.skip(cnt as int) =~= Seq::<EnabledExtensionView>::empty());
            assert(enc_enabled_elems(Seq::<EnabledExtensionView>::empty()) =~= Seq::<char>::empty());
            assert(sv.skip(j as int).len() == sv.len() - j);
            assert((enc_enabled_elems(x.skip(cnt as int)) + rest).len() == rest.len());
            assert(sv.skip(i as int).len() == sv.len() - i);
            assert((enc_enableds(x) + rest).len() == enc_enableds(x).len() + rest.len());
        }
    }
    Some((out, j))
}

/// Reads a database list, complete for encodings.
#[verifier::rlimit(100)]
fn dec_databases(s: &str, len: usize, i: usize) -> (r: Option<(Vec<crate::instance::Database>, usize)>)
    requires
        len == s@.len(),
        i <= len,
    ensures
        r matches Some((_, j)) ==> i < j <= len,
        forall|x: Seq<DatabaseView>, rest: Seq<char>|
            s@.skip(i as int) == #[trigger] (enc_databases(x) + rest) ==> (r is Some
                && r.unwrap().0.deep_view() == x && r.unwrap().1 == i + enc_databases(x).len()),
{
    let ghost sv = s@;
    proof {
        assert forall|x: Seq<DatabaseView>, rest: Seq<char>|
            sv.skip(i as int) == #[trigger] (enc_databases(x) + rest) implies (sv.skip(i as int)
            == enc_nat((x.len() as u64) as nat) + (enc_database_elems(x) + rest) && x.len()
            <= u64::MAX) by {
            lemma_add_assoc(enc_nat(x.len()), enc_database_elems(x), rest);
            lemma_database_elems_len(x);
            assert(sv.skip(i as int).len() == sv.len() - i);
        }
    }
    let (cnt, j0) = match dec_nat(s, len, i) {
        None => {
            return None;
        },
        Some(v) => v,
    };
    proof {
        assert forall|x: Seq<DatabaseView>, rest: Seq<char>|
            sv.skip(i as int) == #[trigger] (enc_databases(x) + rest) implies (cnt as nat == x.len()
            && j0 == i + enc_nat(x.len()).len() && sv.skip(j0 as int) == enc_database_elems(x.skip(0))
            + rest) by {
            lemma_skip_concat(sv, i as int, enc_nat(x.len()), enc_database_elems(x) + rest);
            assert(x.skip(0) =~= x);
        }
    }
    let mut out: Vec<crate::instance::Database> = Vec::new();
    let mut c: u64 = 0;
    let mut j: usize = j0;
    while c < cnt
        invariant
            i < j <= len,
            len == sv.len(),
            sv == s@,
            c <= cnt,
            forall|x: Seq<DatabaseView>, rest: Seq<char>|
                sv.skip(i as int) == #[trigger] (enc_databases(x) + rest) ==> (cnt as nat == x.len()
                    && c as nat <= x.len() && out.deep_view() == x.take(c as int) && sv.skip(
                    j as int,
                ) == enc_database_elems(x.skip(c as int)) + rest),
        decreases cnt - c,
    {
        let stepped = dec_str(s, len, j);
        proof {
            assert forall|x: Seq<DatabaseView>, rest: Seq<char>|
                sv.skip(i as int) == #[trigger] (enc_databases(x) + rest) implies (sv.skip(j as int)
                == enc_database(x[c as int]) + (enc_database_elems(x.skip(c + 1)) + rest)) by {
                lemma_database_elems_first(x.skip(c as int));
                assert(x.skip(c as int)[0] == x[c as int]);
                assert(x.skip(c as int).drop_first() =~= x.skip(c + 1));
                lemma_add_assoc(enc_database(x[c as int]), enc_database_elems(x.skip(c + 1)), rest);
            }
        }
        match stepped {
            None => {
                return None;
            },
            Some((l, j2)) => {
                let ghost pre = out.deep_view();
                let elem = crate::instance::Database { name: l };
                out.push(elem);
                proof {
                    assert forall|x: Seq<DatabaseView>, rest: Seq<char>|
                        sv.skip(i as int) == #[trigger] (enc_databases(x) + rest) implies (
                    out.deep_view() == x.take(c + 1) && sv.skip(j2 as int) == enc_database_elems(x.skip(
                        c + 1,
                    )) + rest) by {
                        assert(elem.deep_view() =~= x[c as int]);
                        assert(j2 == j + enc_database(x[c as int]).len());
                        lemma_skip_concat(
                            sv,
                            j as int,
                            enc_database(x[c as int]),
                            enc_database_elems(x.skip(c + 1)) + rest,
                        );
                        assert(pre == x.take(c as int));
                        assert(forall|t: int|
                            0 <= t < pre.len() ==> #[trigger] out.deep_view()[t] == pre[t]);
                        assert(out.deep_view()[c as int] == elem.deep_view());
                        assert(out.deep_view() =~= x.take(c + 1));
                    }
                }
                j = j2;
                c += 1;
            },
        }
    }
    proof {
        assert forall|x: Seq<DatabaseView>, rest: Seq<char>|
            sv.skip(i as int) == #[trigger] (enc_databases(x) + rest) implies (out.deep_view() == x
            && j == i + enc_databases(x).len()) by {
            assert(out.deep_view() == x.take(cnt as int));
            assert(x.take(cnt as int) =~= x);
            assert(sv.skip(j as int) == enc_database_elems(x.skip(cnt as int)) + rest);
            assert(x.skip(cnt as int) =~= Seq::<DatabaseView>::empty());
            assert(enc_database_elems(Seq::<DatabaseView>::empty()) =~= Seq::<char>::empty());
            assert(sv.skip(j as int).len() == sv.len() - j);
            assert((enc_database_elems(x.skip(cnt as int)) + rest).len() == rest.len());
            assert(sv.skip(i as int).len() == sv.len() - i);
            assert((enc_databases(x) + rest).len() == enc_databases(x).len() + rest.len());
        }
    }
    Some((out, j))
}

/// Reads one instance record, complete for encodings.
#[verifier::rlimit(100)]
fn dec_instance(s: &str, len: usize, i: usize) -> (r: Option<(crate::instance::Instance, usize)>)
    requires
        len == s@.len(),
        i <= len,
    ensures
        r matches Some((_, j)) ==> i < j <= len,
        forall|v: InstanceView, rest: Seq<char>|
            s@.skip(i as int) == #[trigger] (enc_instance(v) + rest) ==> (r is Some
                && r.unwrap().0.deep_view() == v && r.unwrap().1 == i + enc_instance(v).len()),
{
    let ghost sv = s@;
    proof {
        assert forall|v: InstanceView, rest: Seq<char>|
            sv.skip(i as int) == #[trigger] (enc_instance(v) + rest) implies sv.skip(i as int)
            == enc_opt_str(v.name) + (enc_opt_str(v.stack_type) + (enc_opt_str(v.port) + (enc_opt_str(v.version) + (enc_opt_u64(v.created_at) + (enc_installeds(v.installed_extensions) + (enc_enableds(v.enabled_extensions) + (enc_databases(v.databases) + rest))))))) by {
            lemma_add_assoc(enc_opt_str(v.name) + enc_opt_str(v.stack_type) + enc_opt_str(v.port) + enc_opt_str(v.version) + enc_opt_u64(v.created_at) + enc_installeds(v.installed_extensions) + enc_enableds(v.enabled_extensions), enc_databases(v.databases), rest);
            lemma_add_assoc(enc_opt_str(v.name) + enc_opt_str(v.stack_type) + enc_opt_str(v.port) + enc_opt_str(v.version) + enc_opt_u64(v.created_at) + enc_installeds(v.installed_extensions), enc_enableds(v.enabled_extensions), enc_databases(v.databases) + rest);
            lemma_add_assoc(enc_opt_str(v.name) + enc_opt_str(v.stack_type) + enc_opt_str(v.port) + enc_opt_str(v.version) + enc_opt_u64(v.created_at), enc_installeds(v.installed_extensions), enc_enableds(v.enabled_extensions) + (enc_databases(v.databases) + rest));
            lemma_add_assoc(enc_opt_str(v.name) + enc_opt_str(v.stack_type) + enc_opt_str(v.port) + enc_opt_str(v.version), enc_opt_u64(v.created_at), enc_installeds(v.installed_extensions) + (enc_enableds(v.enabled_extensions) + (enc_databases(v.databases) + rest)));
            lemma_add_assoc(enc_opt_str(v.name) + enc_opt_str(v.stack_type) + enc_opt_str(v.port), enc_opt_str(v.version), enc_opt_u64(v.created_at) + (enc_installeds(v.installed_extensions) + (enc_enableds(v.enabled_extensions) + (enc_databases(v.databases) + rest))));
            lemma_add_assoc(enc_opt_str(v.name) + enc_opt_str(v.stack_type), enc_opt_str(v.port), enc_opt_str(v.version) + (enc_opt_u64(v.created_at) + (enc_installeds(v.installed_extensions) + (enc_enableds(v.enabled_extensions) + (enc_databases(v.databases) + rest)))));
            lemma_add_assoc(enc_opt_str(v.name), enc_opt_str(v.stack_type), enc_opt_str(v.port) + (enc_opt_str(v.version) + (enc_opt_u64(v.created_at) + (enc_installeds(v.installed_extensions) + (enc_enableds(v.enabled_extensions) + (enc_databases(v.databases) + rest))))));
        }
    }
    let (name, i1) = match dec_opt_str(s, len, i) {
        None => {
            return None;
        },
        Some(v) => v,
    };
    proof {
        assert forall|v: InstanceView, rest: Seq<char>|
            sv.skip(i as int) == #[trigger] (enc_instance(v) + rest) implies (name.deep_view() == v.name
            && i1 == i + enc_opt_str(v.name).len() && sv.skip(i1 as int) == enc_opt_str(v.stack_type) + (enc_opt_str(v.port) + (enc_opt_str(v.version) + (enc_opt_u64(v.created_at) + (enc_installeds(v.installed_extensions) + (enc_enableds(v.enabled_extensions) + (enc_databases(v.databases) + rest))))))) by {
            lemma_skip_concat(sv, i as int, enc_opt_str(v.name), enc_opt_str(v.stack_type) + (enc_opt_str(v.port) + (enc_opt_str(v.version) + (enc_opt_u64(v.created_at) + (enc_installeds(v.installed_extensions) + (enc_enableds(v.enabled_extensions) + (enc_databases(v.databases) + rest)))))));
        }
    }
    let (stack_type, i2) = match dec_opt_str(s, len, i1) {
        None => {
            return None;
        },
        Some(v) => v,
    };
    proof {
        assert forall|v: InstanceView, rest: Seq<char>|
            sv.skip(i as int) == #[trigger] (enc_instance(v) + rest) implies (stack_type.deep_view() == v.stack_type
            && i2 == i1 + enc_opt_str(v.stack_type).len() && sv.skip(i2 as int) == enc_opt_str(v.port) + (enc_opt_str(v.version) + (enc_opt_u64(v.created_at) + (enc_installeds(v.installed_extensions) + (enc_enableds(v.enabled_extensions) + (enc_databases(v.databases) + rest)))))) by {
            lemma_skip_concat(sv, i1 as int, enc_opt_str(v.stack_type), enc_opt_str(v.port) + (enc_opt_str(v.version) + (enc_opt_u64(v.created_at) + (enc_installeds(v.installed_extensions) + (enc_enableds(v.enabled_extensions) + (enc_databases(v.databases) + rest))))));
        }
    }
    let (port, i3) = match dec_opt_str(s, len, i2) {
        None => {
            return None;
        },
        Some(v) => v,
    };
    proof {
        assert forall|v: InstanceView, rest: Seq<char>|
            sv.skip(i as int) == #[trigger] (enc_instance(v) + rest) implies (port.deep_view() == v.port
            && i3 == i2 + enc_opt_str(v.port).len() && sv.skip(i3 as int) == enc_opt_str(v.version) + (enc_opt_u64(v.created_at) + (enc_installeds(v.installed_extensions) + (enc_enableds(v.enabled_extensions) + (enc_databases(v.databases) + rest))))) by {
            lemma_skip_concat(sv, i2 as int, enc_opt_str(v.port), enc_opt_str(v.version) + (enc_opt_u64(v.created_at) + (enc_installeds(v.installed_extensions) + (enc_enableds(v.enabled_extensions) + (enc_databases(v.databases) + rest)))));
        }
    }
    let (version, i4) = match dec_opt_str(s, len, i3) {
        None => {
            return None;
        },
        Some(v) => v,
    };
    proof {
        assert forall|v: InstanceView, rest: Seq<char>|
            sv.skip(i as int) == #[trigger] (enc_instance(v) + rest) implies (version.deep_view() == v.version
            && i4 == i3 + enc_opt_str(v.version).len() && sv.skip(i4 as int) == enc_opt_u64(v.created_at) + (enc_installeds(v.installed_extensions) + (enc_enableds(v.enabled_extensions) + (enc_databases(v.databases) + rest)))) by {
            lemma_skip_concat(sv, i3 as int, enc_opt_str(v.version), enc_opt_u64(v.created_at) + (enc_installeds(v.installed_extensions) + (enc_enableds(v.enabled_extensions) + (enc_databases(v.databases) + rest))));
        }
    }
    let (created_at, i5) = match dec_opt_u64(s, len, i4) {
        None => {
            return None;
        },
        Some(v) => v,
    };
    proof {
        assert forall|v: InstanceView, rest: Seq<char>|
            sv.skip(i as int) == #[trigger] (enc_instance(v) + rest) implies (created_at == v.created_at
            && i5 == i4 + enc_opt_u64(v.created_at).len() && sv.skip(i5 as int) == enc_installeds(v.installed_extensions) + (enc_enableds(v.enabled_extensions) + (enc_databases(v.databases) + rest))) by {
            lemma_skip_concat(sv, i4 as int, enc_opt_u64(v.created_at), enc_installeds(v.installed_extensions) + (enc_enableds(v.enabled_extensions) + (enc_databases(v.databases) + rest)));
        }
    }
    let (installed_extensions, i6) = match dec_installeds(s, len, i5) {
        None => {
            return None;
        },
        Some(v) => v,
    };
    proof {
        assert forall|v: InstanceView, rest: Seq<char>|
            sv.skip(i as int) == #[trigger] (enc_instance(v) + rest) implies (installed_extensions.deep_view() == v.installed_extensions
            && i6 == i5 + enc_installeds(v.installed_extensions).len() && sv.skip(i6 as int) == enc_enableds(v.enabled_extensions) + (enc_databases(v.databases) + rest)) by {
            lemma_skip_concat(sv, i5 as int, enc_installeds(v.installed_extensions), enc_enableds(v.enabled_extensions) + (enc_databases(v.databases) + rest));
        }
    }
    let (enabled_extensions, i7) = match dec_enableds(s, len, i6) {
        None => {
            return None;
        },
        Some(v) => v,
    };
    proof {
        assert forall|v: InstanceView, rest: Seq<char>|
            sv.skip(i as int) == #[trigger] (enc_instance(v) + rest) implies (enabled_extensions.deep_view() == v.enabled_extensions
            && i7 == i6 + enc_enableds(v.enabled_extensions).len() && sv.skip(i7 as int) == enc_databases(v.databases) + rest) by {
            lemma_skip_concat(sv, i6 as int, enc_enableds(v.enabled_extensions), enc_databases(v.databases) + rest);
        }
    }
    let (databases, i8) = match dec_databases(s, len, i7) {
        None => {
            return None;
        },
        Some(v) => v,
    };
    proof {
        assert forall|v: InstanceView, rest: Seq<char>|
            sv.skip(i as int) == #[trigger] (enc_instance(v) + rest) implies (databases.deep_view() == v.databases
            && i8 == i7 + enc_databases(v.databases).len() && sv.skip(i8 as int) == rest) by {
            lemma_skip_concat(sv, i7 as int, enc_databases(v.databases), rest);
        }
    }
    let out = crate::instance::Instance {
        name,
        stack_type,
        port,
        version,
        created_at,
        installed_extensions,
        enabled_extensions,
        databases,
    };
    proof {
        assert forall|v: InstanceView, rest: Seq<char>|
            sv.skip(i as int) == #[trigger] (enc_instance(v) + rest) implies (out.deep_view() == v
            && i8 == i + enc_instance(v).len()) by {
            assert(out.deep_view() =~= v);
            assert(enc_instance(v).len() == enc_opt_str(v.name).len() + enc_opt_str(v.stack_type).len() + enc_opt_str(v.port).len() + enc_opt_str(v.version).len() + enc_opt_u64(v.created_at).len() + enc_installeds(v.installed_extensions).len() + enc_enableds(v.enabled_extensions).len() + enc_databases(v.databases).len());
        }
    }
    Some((out, i8))
}

/// Reads an instance list, complete for encodings.
#[verifier::rlimit(100)]
fn dec_instances(s: &str, len: usize, i: usize) -> (r: Option<(Vec<crate::instance::Instance>, usize)>)
    requires
        len == s@.len(),
        i <= len,
    ensures
        r matches Some((_, j)) ==> i < j <= len,
        forall|x: Seq<InstanceView>, rest: Seq<char>|
            s@.skip(i as int) == #[trigger] (enc_instances(x) + rest) ==> (r is Some
                && r.unwrap().0.deep_view() == x && r.unwrap().1 == i + enc_instances(x).len()),
{
    let ghost sv = s@;
    proof {
        assert forall|x: Seq<InstanceView>, rest: Seq<char>|
            sv.skip(i as int) == #[trigger] (enc_instances(x) + rest) implies (sv.skip(i as int)
            == enc_nat((x.len() as u64) as nat) + (enc_instance_elems(x) + rest) && x.len()
            <= u64::MAX) by {
            lemma_add_assoc(enc_nat(x.len()), enc_instance_elems(x), rest);
            lemma_instance_elems_len(x);
            assert(sv.skip(i as int).len() == sv.len() - i);
        }
    }
    let (cnt, j0) = match dec_nat(s, len, i) {
        None => {
            return None;
        },
        Some(v) => v,
    };
    proof {
        assert forall|x: Seq<InstanceView>, rest: Seq<char>|
            sv.skip(i as int) == #[trigger] (enc_instances(x) + rest) implies (cnt as nat == x.len()
            && j0 == i + enc_nat(x.len()).len() && sv.skip(j0 as int) == enc_instance_elems(x.skip(0))
            + rest) by {
            lemma_skip_concat(sv, i as int, enc_nat(x.len()), enc_instance_elems(x) + rest);
            assert(x.skip(0) =~= x);
        }
    }
    let mut out: Vec<crate::instance::Instance> = Vec::new();
    let mut c: u64 = 0;
    let mut j: usize = j0;
    while c < cnt
        invariant
            i < j <= len,
            len == sv.len(),
            sv == s@,
            c <= cnt,
            forall|x: Seq<InstanceView>, rest: Seq<char>|
                sv.skip(i as int) == #[trigger] (enc_instances(x) + rest) ==> (cnt as nat == x.len()
                    && c as nat <= x.len() && out.deep_view() == x.take(c as int) && sv.skip(
                    j as int,
                ) == enc_instance_elems(x.skip(c as int)) + rest),
        decreases cnt - c,
    {
        let stepped = dec_instance(s, len, j);
        proof {
            assert forall|x: Seq<InstanceView>, rest: Seq<char>|
                sv.skip(i as int) == #[trigger] (enc_instances(x) + rest) implies (sv.skip(j as int)
                == enc_instance(x[c as int]) + (enc_instance_elems(x.skip(c + 1)) + rest)) by {
                lemma_instance_elems_first(x.skip(c as int));
                assert(x.skip(c as int)[0] == x[c as int]);
                assert(x.skip(c as int).drop_first() =~= x.skip(c + 1));
                lemma_add_assoc(enc_instance(x[c as int]), enc_instance_elems(x.skip(c + 1)), rest);
            }
        }
        match stepped {
            None => {
                return None;
            },
            Some((l, j2)) => {
                let ghost pre = out.deep_view();
                out.push(l);
                proof {
                    assert forall|x: Seq<InstanceView>, rest: Seq<char>|
                        sv.skip(i as int) == #[trigger] (enc_instances(x) + rest) implies (
                    out.deep_view() == x.take(c + 1) && sv.skip(j2 as int) == enc_instance_elems(x.skip(
                        c + 1,
                    )) + rest) by {
                        assert(l.deep_view() == x[c as int]);
                        assert(j2 == j + enc_instance(x[c as int]).len());
                        lemma_skip_concat(
                            sv,
                            j as int,
                            enc_instance(x[c as int]),
                            enc_instance_elems(x.skip(c + 1)) + rest,
                        );
                        assert(pre == x.take(c as int));
                        assert(forall|t: int|
                            0 <= t < pre.len() ==> #[trigger] out.deep_view()[t] == pre[t]);
                        assert(out.deep_view()[c as int] == l.deep_view());
                        assert(out.deep_view() =~= x.take(c + 1));
                    }
                }
                j = j2;
                c += 1;
            },
        }
    }
    proof {
        assert forall|x: Seq<InstanceView>, rest: Seq<char>|
            sv.skip(i as int) == #[trigger] (enc_instances(x) + rest) implies (out.deep_view() == x
            && j == i + enc_instances(x).len()) by {
            assert(out.deep_view() == x.take(cnt as int));
            assert(x.take(cnt as int) =~= x);
            assert(sv.skip(j as int) == enc_instance_elems(x.skip(cnt as int)) + rest);
            assert(x.skip(cnt as int) =~= Seq::<InstanceView>::empty());
            assert(enc_instance_elems(Seq::<InstanceView>::empty()) =~= Seq::<char>::empty());
            assert(sv.skip(j as int).len() == sv.len() - j);
            assert((enc_instance_elems(x.skip(cnt as int)) + rest).len() == rest.len());
            assert(sv.skip(i as int).len() == sv.len() - i);
            assert((enc_instances(x) + rest).len() == enc_instances(x).len() + rest.len());
        }
    }
    Some((out, j))
}

/// Reads a whole configuration, complete for encodings.
#[verifier::rlimit(100)]
fn dec_config(s: &str, len: usize, i: usize) -> (r: Option<(crate::config::Config, usize)>)
    requires
        len == s@.len(),
        i <= len,
    ensures
        r matches Some((_, j)) ==> i < j <= len,
        forall|v: ConfigView, rest: Seq<char>|
            s@.skip(i as int) == #[trigger] (enc_config(v) + rest) ==> (r is Some
                && r.unwrap().0.deep_view() == v && r.unwrap().1 == i + enc_config(v).len()),
{
    let ghost sv = s@;
    proof {
        assert forall|v: ConfigView, rest: Seq<char>|
            sv.skip(i as int) == #[trigger] (enc_config(v) + rest) implies sv.skip(i as int)
            == enc_str(v.version) + (enc_opt_str(v.jwt) + (enc_opt_str(v.org_id) + (enc_instances(v.instances) + rest))) by {
            lemma_add_assoc(enc_str(v.version) + enc_opt_str(v.jwt) + enc_opt_str(v.org_id), enc_instances(v.instances), rest);
            lemma_add_assoc(enc_str(v.version) + enc_opt_str(v.jwt), enc_opt_str(v.org_id), enc_instances(v.instances) + rest);
            lemma_add_assoc(enc_str(v.version), enc_opt_str(v.jwt), enc_opt_str(v.org_id) + (enc_instances(v.instances) + rest));
        }
    }
    let (version, i1) = match dec_str(s, len, i) {
        None => {
            return None;
        },
        Some(v) => v,
    };
    proof {
        assert forall|v: ConfigView, rest: Seq<char>|
            sv.skip(i as int) == #[trigger] (enc_config(v) + rest) implies (version@ == v.version
            && i1 == i + enc_str(v.version).len() && sv.skip(i1 as int) == enc_opt_str(v.jwt) + (enc_opt_str(v.org_id) + (enc_instances(v.instances) + rest))) by {
            lemma_skip_concat(sv, i as int, enc_str(v.version), enc_opt_str(v.jwt) + (enc_opt_str(v.org_id) + (enc_instances(v.instances) + rest)));
        }
    }
    let (jwt, i2) = match dec_opt_str(s, len, i1) {
        None => {
            return None;
        },
        Some(v) => v,
    };
    proof {
        assert forall|v: ConfigView, rest: Seq<char>|
            sv.skip(i as int) == #[trigger] (enc_config(v) + rest) implies (jwt.deep_view() == v.jwt
            && i2 == i1 + enc_opt_str(v.jwt).len() && sv.skip(i2 as int) == enc_opt_str(v.org_id) + (enc_instances(v.instances) + rest)) by {
            lemma_skip_concat(sv, i1 as int, enc_opt_str(v.jwt), enc_opt_str(v.org_id) + (enc_instances(v.instances) + rest));
        }
    }
    let (org_id, i3) = match dec_opt_str(s, len, i2) {
        None => {
            return None;
        },
        Some(v) => v,
    };
    proof {
        assert forall|v: ConfigView, rest: Seq<char>|
            sv.skip(i as int) == #[trigger] (enc_config(v) + rest) implies (org_id.deep_view() == v.org_id
            && i3 == i2 + enc_opt_str(v.org_id).len() && sv.skip(i3 as int) == enc_instances(v.instances) + rest) by {
            lemma_skip_concat(sv, i2 as int, enc_opt_str(v.org_id), enc_instances(v.instances) + rest);
        }
    }
    let (instances, i4) = match dec_instances(s, len, i3) {
        None => {
            return None;
        },
        Some(v) => v,
    };
    proof {
        assert forall|v: ConfigView, rest: Seq<char>|
            sv.skip(i as int) == #[trigger] (enc_config(v) + rest) implies (instances.deep_view() == v.instances
            && i4 == i3 + enc_instances(v.instances).len() && sv.skip(i4 as int) == rest) by {
            lemma_skip_concat(sv, i3 as int, enc_instances(v.instances), rest);
        }
    }
    let out = crate::config::Config { version, jwt, org_id, instances };
    proof {
        assert forall|v: ConfigView, rest: Seq<char>|
            sv.skip(i as int) == #[trigger] (enc_config(v) + rest) implies (out.deep_view() == v
            && i4 == i + enc_config(v).len()) by {
            assert(out.deep_view() =~= v);
            assert(enc_config(v).len() == enc_str(v.version).len() + enc_opt_str(v.jwt).len() + enc_opt_str(v.org_id).len() + enc_instances(v.instances).len());
        }
    }
    Some((out, i4))
}

/// Reads a configuration from the file format.
///
/// Sound: a string is accepted only if it is, in its entirety,
/// exactly the encoding of the configuration returned; what was
/// parsed is written back out and compared with the input.
///
/// Complete: every string that is the encoding of a configuration is
/// accepted and yields that configuration.  With `serialize_config`
/// this is the write/load round trip: loading a written file gives
/// back a view-equal configuration.
pub fn parse_config(s: &str) -> (r: Option<crate::config::Config>)
    ensures
        r matches Some(c) ==> s@ == enc_config(c.deep_view()),
        forall|cv: ConfigView|
            s@ == #[trigger] enc_config(cv) ==> (r is Some && r.unwrap().deep_view() == cv),
{
    let len: usize = s.unicode_len();
    let parsed = dec_config(s, len, 0);
    proof {
        assert forall|cv: ConfigView|
            s@ == #[trigger] enc_config(cv) implies (parsed is Some
            && parsed.unwrap().0.deep_view() == cv && parsed.unwrap().1 == len) by {
            assert(s@.skip(0) =~= s@);
            assert(enc_config(cv) + Seq::<char>::empty() =~= enc_config(cv));
            assert(s@.skip(0) == enc_config(cv) + Seq::<char>::empty());
        }
    }
    match parsed {
        None => None,
        Some((c, j)) => {
            if j != len {
                return None;
            }
            let re = serialize_config(&c);
            if crate::strutil::strings_equal(re.as_str(), s) {
                Some(c)
            } else {
                None
            }
        },
    }
}

/// Writes a configuration in the file format: exactly `enc_config`
/// of its value.
pub fn serialize_config(c: &crate::config::Config) -> (r: String)
    ensures
        r@ == enc_config(c.deep_view()),
{
    let mut out = String::new();
    ser_str(&mut out, &c.version);
    ser_opt_str(&mut out, &c.jwt);
    ser_opt_str(&mut out, &c.org_id);
    ser_instances(&mut out, &c.instances);
    assert(out@ =~= enc_config(c.deep_view()));
    out
}

} // verus!
