//! Asset manifests: the list of assets a mod ships, and the rules it must obey.

use crate::text::{chars_of, str_eq, to_owned_string};
use crate::utils::path_exists;
use vstd::prelude::*;
use vstd::string::StringExecFns;

verus! {

/// One asset listed in a manifest.
#[derive(Debug, Clone)]
pub struct AssetEntry {
    /// Path of the asset (relative to the asset directory).
    pub path: String,
    /// Kind of asset, as written in the manifest's `type` field.
    pub asset_type: String,
}

/// A mod's asset manifest.
#[derive(Debug, Clone)]
pub struct AssetManifest {
    /// Mod name.
    pub name: String,
    /// Version (SemVer).
    pub version: String,
    /// Listed assets.
    pub assets: Vec<AssetEntry>,
}

/// Why a manifest is rejected.
#[derive(Debug, Clone)]
pub enum ValidationError {
    /// A required field is empty.
    MissingField(String),
    /// A path contains `..`.
    InvalidPath(String),
    /// The file extension is not allowed.
    UnsupportedFormat(String),
    /// A path is listed twice.
    DuplicatePath(String),
    /// A listed file does not exist.
    FileNotFound(String),
    /// The version has no `.`.
    InvalidVersion(String),
}

/// A [`ValidationError`] with its string seen as a character sequence.
pub ghost enum ValidationErrorView {
    MissingField(Seq<char>),
    InvalidPath(Seq<char>),
    UnsupportedFormat(Seq<char>),
    DuplicatePath(Seq<char>),
    FileNotFound(Seq<char>),
    InvalidVersion(Seq<char>),
}

impl View for ValidationError {
    type V = ValidationErrorView;

    open spec fn view(&self) -> ValidationErrorView {
        match self {
            ValidationError::MissingField(s) => ValidationErrorView::MissingField(s@),
            ValidationError::InvalidPath(s) => ValidationErrorView::InvalidPath(s@),
            ValidationError::UnsupportedFormat(s) => ValidationErrorView::UnsupportedFormat(s@),
            ValidationError::DuplicatePath(s) => ValidationErrorView::DuplicatePath(s@),
            ValidationError::FileNotFound(s) => ValidationErrorView::FileNotFound(s@),
            ValidationError::InvalidVersion(s) => ValidationErrorView::InvalidVersion(s@),
        }
    }
}

/// The extension `std::path::Path::extension` finds in `path` (without the dot), or the
/// empty sequence when it finds none or it is not valid UTF-8.
pub uninterp spec fn path_extension(path: Seq<char>) -> Seq<char>;

/// `std::path::Path::extension`, converted to a `String` (empty when there is none).
#[verifier::external_body]
fn file_extension(path: &str) -> (r: String)
    ensures
        r@ == path_extension(path@),
{
    std::path::Path::new(path).extension().and_then(|e| e.to_str()).unwrap_or("").to_string()
}

/// Whether `s` holds two dots in a row.
pub open spec fn has_double_dot(s: Seq<char>) -> bool {
    exists|i: int| 0 <= i && i + 1 < s.len() && #[trigger] s[i] == '.' && s[i + 1] == '.'
}

/// The file extensions a manifest may list.
pub open spec fn allowed_extension(ext: Seq<char>) -> bool {
    ||| ext == "png"@
    ||| ext == "jpg"@
    ||| ext == "webp"@
    ||| ext == "gltf"@
    ||| ext == "glb"@
}

/// The error the rules give for entry `i`, given that every earlier entry passed them;
/// `exists[i]` tells whether its file is found on disk.
pub open spec fn entry_error(assets: Seq<AssetEntry>, exists: Seq<bool>, i: int) -> Option<ValidationErrorView> {
    entry_error_given(assets, exists, i, path_extension(assets[i].path@))
}

/// The error for entry `i` when its path has the extension `ext`.
pub open spec fn entry_error_given(
    assets: Seq<AssetEntry>,
    exists: Seq<bool>,
    i: int,
    ext: Seq<char>,
) -> Option<ValidationErrorView> {
    let p = assets[i].path@;
    if has_double_dot(p) {
        Some(ValidationErrorView::InvalidPath(p))
    } else if !allowed_extension(ext) {
        Some(ValidationErrorView::UnsupportedFormat(ext))
    } else if exists|j: int| #![trigger assets[j]] 0 <= j < i && assets[j].path@ == p {
        Some(ValidationErrorView::DuplicatePath(p))
    } else if !exists[i] {
        Some(ValidationErrorView::FileNotFound(p))
    } else {
        None
    }
}

/// The first error among the first `n` entries, checked in order.
pub open spec fn first_entry_error(assets: Seq<AssetEntry>, exists: Seq<bool>, n: nat) -> Option<ValidationErrorView>
    decreases n,
{
    if n == 0 {
        None
    } else {
        match first_entry_error(assets, exists, (n - 1) as nat) {
            Some(e) => Some(e),
            None => entry_error(assets, exists, n - 1),
        }
    }
}

/// The outcome of validating `m`, where `exists[i]` tells whether the file of entry `i`
/// is found on disk: the first rule broken, checked in order (name, version, assets,
/// version format, then each entry), or success.
pub open spec fn manifest_check(m: AssetManifest, exists: Seq<bool>) -> Result<(), ValidationErrorView> {
    if m.name@.len() == 0 {
        Err(ValidationErrorView::MissingField("name"@))
    } else if m.version@.len() == 0 {
        Err(ValidationErrorView::MissingField("version"@))
    } else if m.assets@.len() == 0 {
        Err(ValidationErrorView::MissingField("assets"@))
    } else if !m.version@.contains('.') {
        Err(ValidationErrorView::InvalidVersion(m.version@))
    } else {
        match first_entry_error(m.assets@, exists, m.assets@.len()) {
            Some(e) => Err(e),
            None => Ok(()),
        }
    }
}

proof fn lemma_first_error_stable(assets: Seq<AssetEntry>, exists: Seq<bool>, a: nat, b: nat)
    requires
        a <= b,
        first_entry_error(assets, exists, a) is Some,
    ensures
        first_entry_error(assets, exists, b) == first_entry_error(assets, exists, a),
    decreases b - a,
{
    if a < b {
        lemma_first_error_stable(assets, exists, a, (b - 1) as nat);
    }
}

/// Length of the part of `s` before its first `c` (all of `s` when there is none).
pub open spec fn prefix_len(s: Seq<char>, c: char) -> nat
    decreases s.len(),
{
    if s.len() == 0 {
        0
    } else if s[0] == c {
        0
    } else {
        1 + prefix_len(s.drop_first(), c)
    }
}

/// The major version: the part of `v` before its first `.`.
pub open spec fn major_version(v: Seq<char>) -> Seq<char> {
    v.take(prefix_len(v, '.') as int)
}

proof fn lemma_prefix_len(s: Seq<char>, c: char, i: int)
    requires
        0 <= i <= s.len(),
        forall|j: int| 0 <= j < i ==> s[j] != c,
        i == s.len() || s[i] == c,
    ensures
        prefix_len(s, c) == i,
    decreases i,
{
    if i > 0 {
        lemma_prefix_len(s.drop_first(), c, i - 1);
    }
}

/// Whether `c` occurs in `v`.
fn contains_char(v: &Vec<char>, c: char) -> (r: bool)
    ensures
        r == v@.contains(c),
{
    let mut i: usize = 0;
    while i < v.len()
        invariant
            i <= v@.len(),
            forall|j: int| 0 <= j < i ==> v@[j] != c,
        decreases v@.len() - i,
    {
        if v[i] == c {
            return true;
        }
        i = i + 1;
    }
    false
}

/// Whether `s` holds two dots in a row.
fn contains_double_dot(s: &str) -> (r: bool)
    ensures
        r == has_double_dot(s@),
{
    let v = chars_of(s);
    let mut i: usize = 0;
    while i < v.len() && i + 1 < v.len()
        invariant
            v@ == s@,
            forall|j: int| 0 <= j < i && j + 1 < v@.len() ==> !(#[trigger] v@[j] == '.' && v@[j + 1] == '.'),
        decreases v@.len() - i,
    {
        if v[i] == '.' && v[i + 1] == '.' {
            return true;
        }
        i = i + 1;
    }
    false
}

/// Whether `ext` is one of the allowed extensions.
fn is_allowed_extension(ext: &str) -> (r: bool)
    ensures
        r == allowed_extension(ext@),
{
    str_eq(ext, "png") || str_eq(ext, "jpg") || str_eq(ext, "webp") || str_eq(ext, "gltf")
        || str_eq(ext, "glb")
}

/// The error for entry `i`, whose path has the extension `ext` (what
/// `std::path::Path::extension` gives for it): a `..` in the path, then an extension not
/// allowed, then a path listed earlier, then a missing file.
pub fn check_entry(assets: &Vec<AssetEntry>, exists: &[bool], i: usize, ext: &str) -> (r: Option<ValidationError>)
    requires
        i < assets@.len(),
        exists@.len() == assets@.len(),
    ensures
        match r {
            Some(e) => entry_error_given(assets@, exists@, i as int, ext@) == Some(e@),
            None => entry_error_given(assets@, exists@, i as int, ext@) is None,
        },
{
    let p = assets[i].path.as_str();
    if contains_double_dot(p) {
        return Some(ValidationError::InvalidPath(to_owned_string(p)));
    }
    if !is_allowed_extension(ext) {
        return Some(ValidationError::UnsupportedFormat(to_owned_string(ext)));
    }
    let mut j: usize = 0;
    while j < i
        invariant
            i < assets@.len(),
            j <= i,
            p@ == assets@[i as int].path@,
            !has_double_dot(p@),
            allowed_extension(ext@),
            forall|k: int| 0 <= k < j ==> assets@[k].path@ != p@,
        decreases i - j,
    {
        if str_eq(assets[j].path.as_str(), p) {
            assert(assets@[j as int].path@ == p@);
            return Some(ValidationError::DuplicatePath(to_owned_string(p)));
        }
        j = j + 1;
    }
    if !exists[i] {
        return Some(ValidationError::FileNotFound(to_owned_string(p)));
    }
    None
}

impl AssetManifest {
    /// Validates the manifest, with `exists[i]` telling whether the file of entry `i` is
    /// found: the first rule broken, in order, or `Ok`.
    pub fn validate_with(&self, exists: &[bool]) -> (r: Result<(), ValidationError>)
        requires
            exists@.len() == self.assets@.len(),
        ensures
            match r {
                Ok(()) => manifest_check(*self, exists@) is Ok,
                Err(e) => manifest_check(*self, exists@) == Err::<(), ValidationErrorView>(e@),
            },
    {
        if self.name.as_str().is_empty() {
            return Err(ValidationError::MissingField(to_owned_string("name")));
        }
        if self.version.as_str().is_empty() {
            return Err(ValidationError::MissingField(to_owned_string("version")));
        }
        if self.assets.len() == 0 {
            return Err(ValidationError::MissingField(to_owned_string("assets")));
        }
        let version_chars = chars_of(self.version.as_str());
        if !contains_char(&version_chars, '.') {
            return Err(ValidationError::InvalidVersion(to_owned_string(self.version.as_str())));
        }
        let n = self.assets.len();
        let mut i: usize = 0;
        while i < n
            invariant
                n == self.assets@.len(),
                exists@.len() == n,
                i <= n,
                self.name@.len() != 0,
                self.version@.len() != 0,
                self.version@.contains('.'),
                first_entry_error(self.assets@, exists@, i as nat) is None,
            decreases n - i,
        {
            let ext = file_extension(self.assets[i].path.as_str());
            match check_entry(&self.assets, exists, i, ext.as_str()) {
                Some(e) => {
                    proof {
                        assert(first_entry_error(self.assets@, exists@, (i + 1) as nat) == Some(e@));
                        lemma_first_error_stable(self.assets@, exists@, (i + 1) as nat, n as nat);
                        assert(first_entry_error(self.assets@, exists@, self.assets@.len()) == Some(e@));
                        assert(manifest_check(*self, exists@) == Err::<(), ValidationErrorView>(e@));
                    }
                    return Err(e);
                },
                None => {},
            }
            i = i + 1;
        }
        Ok(())
    }

    /// Validates the manifest against the rules, looking each listed file up on disk.
    pub fn validate(&self) -> (r: Result<(), ValidationError>)
        ensures
            exists|ex: Seq<bool>| #![auto]
                ex.len() == self.assets@.len() && match r {
                    Ok(()) => manifest_check(*self, ex) is Ok,
                    Err(e) => manifest_check(*self, ex) == Err::<(), ValidationErrorView>(e@),
                },
    {
        let mut exists: Vec<bool> = Vec::new();
        let mut i: usize = 0;
        while i < self.assets.len()
            invariant
                i <= self.assets@.len(),
                exists@.len() == i,
            decreases self.assets@.len() - i,
        {
            exists.push(path_exists(self.assets[i].path.as_str()));
            i = i + 1;
        }
        self.validate_with(exists.as_slice())
    }

    /// Whether the manifest's version has the same major version as `other` (the part
    /// before the first `.`).
    pub fn is_compatible_with(&self, other: &str) -> (r: bool)
        ensures
            r == (major_version(self.version@) == major_version(other@)),
    {
        let a = major_prefix(self.version.as_str());
        let b = major_prefix(other);
        proof {
            assert(a@ =~= major_version(self.version@));
            assert(b@ =~= major_version(other@));
        }
        chars_equal(&a, &b)
    }
}

/// The characters of `s` before its first `.`.
fn major_prefix(s: &str) -> (r: Vec<char>)
    ensures
        r@ == major_version(s@),
{
    let v = chars_of(s);
    let mut out: Vec<char> = Vec::new();
    let mut i: usize = 0;
    while i < v.len() && v[i] != '.'
        invariant
            v@ == s@,
            i <= v@.len(),
            out@ == v@.take(i as int),
            forall|j: int| 0 <= j < i ==> v@[j] != '.',
        decreases v@.len() - i,
    {
        out.push(v[i]);
        proof {
            assert(out@ =~= v@.take(i + 1));
        }
        i = i + 1;
    }
    proof {
        lemma_prefix_len(s@, '.', i as int);
    }
    out
}

/// Whether two character sequences are equal.
fn chars_equal(a: &Vec<char>, b: &Vec<char>) -> (r: bool)
    ensures
        r == (a@ == b@),
{
    if a.len() != b.len() {
        return false;
    }
    let mut i: usize = 0;
    while i < a.len()
        invariant
            a@.len() == b@.len(),
            i <= a@.len(),
            forall|j: int| 0 <= j < i ==> a@[j] == b@[j],
        decreases a@.len() - i,
    {
        if a[i] != b[i] {
            return false;
        }
        i = i + 1;
    }
    proof {
        assert(a@ =~= b@);
    }
    true
}


impl ValidationError {
    /// The error as a human-readable message.
    pub fn message(&self) -> (r: String)
        ensures
            r@ == match self@ {
                ValidationErrorView::MissingField(s) => "缺少必填字段: "@ + s,
                ValidationErrorView::InvalidPath(s) => "非法路径: "@ + s,
                ValidationErrorView::UnsupportedFormat(s) => "不支持的文件格式: "@ + s,
                ValidationErrorView::DuplicatePath(s) => "重复路径: "@ + s,
                ValidationErrorView::FileNotFound(s) => "文件不存在: "@ + s,
                ValidationErrorView::InvalidVersion(s) => "版本格式错误: "@ + s,
            },
    {
        let (mut out, detail) = match self {
            ValidationError::MissingField(s) => (to_owned_string("缺少必填字段: "), s),
            ValidationError::InvalidPath(s) => (to_owned_string("非法路径: "), s),
            ValidationError::UnsupportedFormat(s) => (to_owned_string("不支持的文件格式: "), s),
            ValidationError::DuplicatePath(s) => (to_owned_string("重复路径: "), s),
            ValidationError::FileNotFound(s) => (to_owned_string("文件不存在: "), s),
            ValidationError::InvalidVersion(s) => (to_owned_string("版本格式错误: "), s),
        };
        out.append(detail.as_str());
        out
    }
}

/// Version compatibility is an equivalence: every version is compatible with itself, and
/// compatibility is symmetric and transitive.
pub proof fn law_compatibility_is_equivalence(a: Seq<char>, b: Seq<char>, c: Seq<char>)
    ensures
        major_version(a) == major_version(a),
        (major_version(a) == major_version(b)) == (major_version(b) == major_version(a)),
        major_version(a) == major_version(b) && major_version(b) == major_version(c) ==> major_version(a)
            == major_version(c),
{
}

proof fn lemma_no_error_prefix(assets: Seq<AssetEntry>, exists: Seq<bool>, n: nat, i: int)
    requires
        first_entry_error(assets, exists, n) is None,
        0 <= i < n,
    ensures
        entry_error(assets, exists, i) is None,
    decreases n,
{
    if i < n - 1 {
        lemma_no_error_prefix(assets, exists, (n - 1) as nat, i);
    }
}

/// A manifest that passes validation has a name, a version holding a `.` and at least one
/// asset; no path contains `..`, every extension is allowed, no path is listed twice and
/// every listed file was found.
pub proof fn law_accepted_manifest_is_sound(m: AssetManifest, exists: Seq<bool>)
    requires
        manifest_check(m, exists) is Ok,
        exists.len() == m.assets@.len(),
    ensures
        m.name@.len() > 0,
        m.version@.contains('.'),
        m.assets@.len() > 0,
        forall|i: int| 0 <= i < m.assets@.len() ==> !has_double_dot(#[trigger] m.assets@[i].path@),
        forall|i: int| 0 <= i < m.assets@.len() ==> allowed_extension(path_extension(#[trigger] m.assets@[i].path@)),
        forall|i: int| 0 <= i < m.assets@.len() ==> #[trigger] exists[i],
        forall|i: int, j: int| 0 <= i < j < m.assets@.len() ==> m.assets@[i].path@ != m.assets@[j].path@,
{
    let n = m.assets@.len();
    assert forall|i: int| 0 <= i < n implies entry_error(m.assets@, exists, i) is None by {
        lemma_no_error_prefix(m.assets@, exists, n, i);
    }
    assert forall|i: int, j: int| 0 <= i < j < n implies m.assets@[i].path@ != m.assets@[j].path@ by {
        assert(entry_error(m.assets@, exists, j) is None);
        if m.assets@[i].path@ == m.assets@[j].path@ {
            assert(m.assets@[i] == m.assets@[i]);
        }
    }
    assert forall|i: int| 0 <= i < n implies #[trigger] exists[i] by {
        assert(entry_error(m.assets@, exists, i) is None);
    }
    assert forall|i: int| 0 <= i < n implies !has_double_dot(#[trigger] m.assets@[i].path@) by {
        assert(entry_error(m.assets@, exists, i) is None);
    }
    assert forall|i: int| 0 <= i < n implies allowed_extension(path_extension(#[trigger] m.assets@[i].path@)) by {
        assert(entry_error(m.assets@, exists, i) is None);
    }
}

} // verus!
