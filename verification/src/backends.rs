//! The catalogue of backend profiles: named partitions of the remote corpus,
//! each with a display label, and the membership check used to validate an
//! externally supplied profile identifier.

use vstd::prelude::*;
use vstd::string::StringExecFns;

use crate::text::str_eq;

verus! {

/// The known backend profiles as (identifier, display label) pairs, in
/// display order.
pub open spec fn backends_spec() -> Seq<(Seq<char>, Seq<char>)> {
    seq![
        ("search"@, "Everything"@),
        ("core"@, "MediaWiki core"@),
        ("extensions"@, "Extensions"@),
        ("skins"@, "Skins"@),
        ("things"@, "Extensions & things"@),
        ("bundled"@, "MW tarball"@),
        ("deployed"@, "Wikimedia deployed"@),
        ("libraries"@, "PHP libraries"@),
        ("operations"@, "Wikimedia Operations"@),
        ("ooui"@, "OOUI"@),
        ("milkshake"@, "Milkshake"@),
        ("pywikibot"@, "Pywikibot"@),
        ("services"@, "Wikimedia Services"@),
        ("analytics"@, "Analytics"@),
    ]
}

/// A profile identifier is valid when some catalogue entry carries it.
pub open spec fn backend_known(p: Seq<char>) -> bool {
    exists|i: int| 0 <= i < backends_spec().len() && (#[trigger] backends_spec()[i]).0 == p
}

/// The backend catalogue, as displayed: identifier and label pairs.
pub fn backends() -> (r: Vec<(String, String)>)
    ensures
        r@.map_values(|p: (String, String)| (p.0@, p.1@)) == backends_spec(),
{
    let mut r: Vec<(String, String)> = Vec::new();
    r.push((String::from_str("search"), String::from_str("Everything")));
    r.push((String::from_str("core"), String::from_str("MediaWiki core")));
    r.push((String::from_str("extensions"), String::from_str("Extensions")));
    r.push((String::from_str("skins"), String::from_str("Skins")));
    r.push((String::from_str("things"), String::from_str("Extensions & things")));
    r.push((String::from_str("bundled"), String::from_str("MW tarball")));
    r.push((String::from_str("deployed"), String::from_str("Wikimedia deployed")));
    r.push((String::from_str("libraries"), String::from_str("PHP libraries")));
    r.push((String::from_str("operations"), String::from_str("Wikimedia Operations")));
    r.push((String::from_str("ooui"), String::from_str("OOUI")));
    r.push((String::from_str("milkshake"), String::from_str("Milkshake")));
    r.push((String::from_str("pywikibot"), String::from_str("Pywikibot")));
    r.push((String::from_str("services"), String::from_str("Wikimedia Services")));
    r.push((String::from_str("analytics"), String::from_str("Analytics")));
    proof {
        assert(r@.map_values(|p: (String, String)| (p.0@, p.1@)) =~= backends_spec());
    }
    r
}

/// Whether the given identifier names a known backend profile.
pub fn is_valid_backend(profile: &str) -> (r: bool)
    ensures
        r == backend_known(profile@),
{
    let catalogue = backends();
    let n = catalogue.len();
    let mut i: usize = 0;
    while i < n
        invariant
            n == catalogue@.len(),
            i <= n,
            catalogue@.map_values(|p: (String, String)| (p.0@, p.1@)) == backends_spec(),
            forall|j: int| 0 <= j < i ==> (#[trigger] backends_spec()[j]).0 != profile@,
        decreases n - i,
    {
        if str_eq(catalogue[i].0.as_str(), profile) {
            proof {
                assert(backends_spec()[i as int].0 == profile@);
            }
            return true;
        }
        i = i + 1;
    }
    false
}

/// The profile a session starts under: the supplied identifier when it names
/// a known backend, the default profile otherwise.
pub fn resolve_profile(part: Option<&str>) -> (p: String)
    ensures
        match part {
            Some(s) => p@ == if backend_known(s@) {
                s@
            } else {
                "search"@
            },
            None => p@ == "search"@,
        },
{
    match part {
        Some(s) => {
            if is_valid_backend(s) {
                s.to_owned()
            } else {
                String::from_str("search")
            }
        },
        None => String::from_str("search"),
    }
}

} // verus!
