//! Locating the asset directory.

use crate::text::to_owned_string;
use vstd::prelude::*;

verus! {

/// `std::path::Path::exists`: whether something is found at `path` on disk.
/// What it returns depends on the file system at the moment of the call, so
/// nothing is stated of it.
#[verifier::external_body]
pub(crate) fn path_exists(path: &str) -> (r: bool) {
    std::path::Path::new(path).exists()
}

/// What `std::path::Path::parent` gives for `path`, as text.
pub uninterp spec fn parent_of(path: Seq<char>) -> Option<Seq<char>>;

/// `std::path::Path::parent`, as text: the path without its last component, if it has
/// one. Its result is named, not stated.
#[verifier::external_body]
pub(crate) fn path_parent(path: &str) -> (r: Option<String>)
    ensures
        r matches Some(p) ==> parent_of(path@) == Some(p@),
        r is None ==> parent_of(path@) is None,
{
    std::path::Path::new(path).parent().map(|p| p.to_string_lossy().to_string())
}

/// `std::path::Path::canonicalize`, converted lossily to a `String`: the canonical form of
/// `path` with links resolved, or `None` when that fails. Which path comes back depends on
/// the file system and the platform (on Windows it is a verbatim `\\?\` path), so nothing
/// is stated of it.
#[verifier::external_body]
fn canonical_path(path: &str) -> (r: Option<String>) {
    match std::path::Path::new(path).canonicalize() {
        Ok(p) => Some(p.to_string_lossy().to_string()),
        Err(_) => None,
    }
}

/// What `std::path::Path::join` gives for `base` and `part`, as text.
pub uninterp spec fn joined_path(base: Seq<char>, part: Seq<char>) -> Seq<char>;

/// `std::path::Path::join`, as text: `part` appended to `base` after the platform's
/// separator (or `part` alone when it is absolute). Its result is named, not stated; it
/// depends on the two paths alone, for the platform the library is built for.
#[verifier::external_body]
fn path_join(base: &str, part: &str) -> (r: String)
    ensures
        r@ == joined_path(base@, part@),
{
    std::path::Path::new(base).join(part).to_string_lossy().to_string()
}

/// The directories tried as the asset root, nearest first: `assets` here and up to three
/// levels up, then, when the directory of the crate's manifest is known, `assets` beside it.
pub open spec fn spec_asset_root_candidates(manifest_dir: Option<Seq<char>>) -> Seq<Seq<char>> {
    let relative = seq!["assets"@, "../assets"@, "../../assets"@, "../../../assets"@];
    match manifest_dir {
        Some(d) => relative.push(joined_path(joined_path(d, ".."@), "assets"@)),
        None => relative,
    }
}

/// The directories tried as the asset root, nearest first (see
/// [`spec_asset_root_candidates`]).
pub fn asset_root_candidates(manifest_dir: Option<&str>) -> (v: Vec<String>)
    ensures
        texts(v@) == spec_asset_root_candidates(
            match manifest_dir {
                Some(d) => Some(d@),
                None => None,
            },
        ),
{
    let mut v: Vec<String> = Vec::new();
    v.push(to_owned_string("assets"));
    v.push(to_owned_string("../assets"));
    v.push(to_owned_string("../../assets"));
    v.push(to_owned_string("../../../assets"));
    match manifest_dir {
        Some(d) => {
            let up = path_join(d, "..");
            v.push(path_join(up.as_str(), "assets"));
        },
        None => {},
    }
    assert(texts(v@) =~= spec_asset_root_candidates(
        match manifest_dir {
            Some(d) => Some(d@),
            None => None,
        },
    ));
    v
}

/// Index of the first candidate found on disk, given for each candidate whether it exists.
pub fn first_existing(exists: &[bool]) -> (r: Option<usize>)
    ensures
        match r {
            Some(i) => is_first_true(exists@, i as int),
            None => forall|j: int| 0 <= j < exists@.len() ==> !exists@[j],
        },
{
    let mut i: usize = 0;
    while i < exists.len()
        invariant
            i <= exists@.len(),
            forall|j: int| 0 <= j < i ==> !exists@[j],
        decreases exists@.len() - i,
    {
        if exists[i] {
            return Some(i);
        }
        i = i + 1;
    }
    None
}

/// Whether `i` is the first position holding `true` in `exists`.
pub open spec fn is_first_true(exists: Seq<bool>, i: int) -> bool {
    &&& 0 <= i < exists.len()
    &&& exists[i]
    &&& forall|j: int| 0 <= j < i ==> !exists[j]
}

/// The asset root chosen among `candidates`, given for each whether it exists on disk and
/// the canonical form of the first existing one, if that could be computed: that canonical
/// form, else the first existing candidate as written, and `assets` when none exists.
pub open spec fn asset_root_choice_spec(
    candidates: Seq<Seq<char>>,
    exists: Seq<bool>,
    canonical: Option<Seq<char>>,
) -> Seq<char> {
    if exists|i: int| is_first_true(exists, i) {
        let i = choose|i: int| is_first_true(exists, i);
        match canonical {
            Some(c) => c,
            None => candidates[i],
        }
    } else {
        "assets"@
    }
}

/// The strings of `v`, as text.
pub open spec fn texts(v: Seq<String>) -> Seq<Seq<char>> {
    v.map_values(|s: String| s@)
}

/// An optional string, as text.
pub open spec fn opt_text(o: Option<String>) -> Option<Seq<char>> {
    match o {
        Some(c) => Some(c@),
        None => None,
    }
}

/// The asset root chosen among `candidates` (see [`asset_root_choice_spec`]).
pub fn asset_root_choice(candidates: &[String], exists: &[bool], canonical: Option<String>) -> (r: String)
    requires
        candidates@.len() == exists@.len(),
    ensures
        r@ == asset_root_choice_spec(texts(candidates@), exists@, opt_text(canonical)),
{
    let ghost cv = opt_text(canonical);
    match first_existing(exists) {
        Some(k) => {
            proof {
                let i = choose|i: int| is_first_true(exists@, i);
                assert(is_first_true(exists@, i));
                if i < k {
                    assert(!exists@[i]);
                }
                if i > k {
                    assert(!exists@[k as int]);
                }
                assert(i == k);
                assert(texts(candidates@)[k as int] == candidates@[k as int]@);
            }
            match canonical {
                Some(c) => c,
                None => to_owned_string(candidates[k].as_str()),
            }
        },
        None => {
            proof {
                assert(!exists|i: int| is_first_true(exists@, i));
            }
            to_owned_string("assets")
        },
    }
}

/// Tries `candidates` in order on disk and returns the chosen asset root: for some
/// answers of the disk, and some canonical form of the first existing candidate, the
/// root is what [`asset_root_choice`] gives for them.
fn resolve_among(candidates: Vec<String>) -> (r: String)
    ensures
        exists|ex: Seq<bool>, canonical: Option<Seq<char>>|
            #![trigger asset_root_choice_spec(texts(candidates@), ex, canonical)]
            ex.len() == candidates@.len() && r@ == asset_root_choice_spec(texts(candidates@), ex, canonical),
{
    let mut exists: Vec<bool> = Vec::new();
    let mut i: usize = 0;
    while i < candidates.len()
        invariant
            i <= candidates@.len(),
            exists@.len() == i,
        decreases candidates@.len() - i,
    {
        exists.push(path_exists(candidates[i].as_str()));
        i = i + 1;
    }
    let canonical = match first_existing(exists.as_slice()) {
        Some(k) => canonical_path(candidates[k].as_str()),
        None => None,
    };
    let ghost cv = opt_text(canonical);
    let r = asset_root_choice(candidates.as_slice(), exists.as_slice(), canonical);
    assert(r@ == asset_root_choice_spec(texts(candidates@), exists@, cv));
    r
}

/// Resolves the asset root directory among the relative candidates (`assets` here and up
/// to three levels up): the first that exists, in canonical form when possible, or
/// `assets` when none does.
pub fn resolve_asset_root() -> (r: String)
    ensures
        exists|ex: Seq<bool>, canonical: Option<Seq<char>>|
            #![trigger asset_root_choice_spec(spec_asset_root_candidates(None), ex, canonical)]
            ex.len() == 4 && r@ == asset_root_choice_spec(spec_asset_root_candidates(None), ex, canonical),
{
    let candidates = asset_root_candidates(None);
    let ghost tc = texts(candidates@);
    let r = resolve_among(candidates);
    proof {
        let (ex, canonical) = choose|ex: Seq<bool>, canonical: Option<Seq<char>>|
            ex.len() == tc.len() && r@ == asset_root_choice_spec(tc, ex, canonical);
        assert(asset_root_choice_spec(spec_asset_root_candidates(None), ex, canonical) == r@);
    }
    r
}

/// Resolves the asset root directory among all candidates, the last being `assets` beside
/// `manifest_dir`, the directory of the crate's manifest: the first that exists, in
/// canonical form when possible, or `assets` when none does.
pub fn resolve_asset_root_from(manifest_dir: &str) -> (r: String)
    ensures
        exists|ex: Seq<bool>, canonical: Option<Seq<char>>|
            #![trigger asset_root_choice_spec(spec_asset_root_candidates(Some(manifest_dir@)), ex, canonical)]
            ex.len() == 5 && r@ == asset_root_choice_spec(
                spec_asset_root_candidates(Some(manifest_dir@)),
                ex,
                canonical,
            ),
{
    let candidates = asset_root_candidates(Some(manifest_dir));
    let ghost tc = texts(candidates@);
    let r = resolve_among(candidates);
    proof {
        let (ex, canonical) = choose|ex: Seq<bool>, canonical: Option<Seq<char>>|
            ex.len() == tc.len() && r@ == asset_root_choice_spec(tc, ex, canonical);
        assert(asset_root_choice_spec(spec_asset_root_candidates(Some(manifest_dir@)), ex, canonical) == r@);
    }
    r
}

} // verus!
