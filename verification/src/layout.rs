//! The package build layout: the generated Rust crate under `target/faber/`
//! and the Cargo artifacts under the sibling `target/debug/` and
//! `target/release/` directories; and how a package input resolves to its
//! manifest, root and entry.
use vstd::prelude::*;
use crate::naming::lemma_sanitized_crate_name_chars;
use crate::naming::sanitize_crate_name;
use crate::naming::sanitized_crate_name;
use crate::paths::dot;
use crate::paths::dot_dot;
use crate::paths::file_name;
use crate::paths::lemma_join_file_name;
use crate::paths::join;
use crate::paths::normalize_path;
use crate::paths::normalized_path;
use crate::paths::path_file_name;
use crate::paths::path_join;
use crate::paths::is_absolute;
use crate::naming::push_char;
use crate::naming::str_chars;
use crate::naming::owned;

verus! {

broadcast use vstd::string::group_string_axioms;

/// The package manifest file name.
pub open spec fn manifest_file() -> Seq<char> {
    seq!['f', 'a', 'b', 'e', 'r', '.', 't', 'o', 'm', 'l']
}

/// The package manifest file name.
pub fn manifest_file_name() -> (s: String)
    ensures
        s@ == manifest_file(),
{
    let s = String::from_str("faber.toml");
    proof {
        reveal_strlit("faber.toml");
    }
    s
}

/// Layout for a package build: generated Rust crate under `target/faber/`,
/// Cargo artifacts under sibling `target/debug/` and `target/release/`.
///
/// This model is path-only and is the single source of truth for the package
/// build directory contract.
#[derive(Debug)]
pub struct BuildLayout {
    /// Directory containing `faber.toml`, or the legacy package root.
    pub package_root: String,
    /// Manifest path for manifest-backed packages.
    pub manifest_path: String,
    /// Root of the generated Rust crate.
    pub generated_crate_root: String,
    /// Cargo manifest written for the generated Rust crate.
    pub generated_cargo_manifest: String,
    /// Rust entrypoint written from the assembled package code.
    pub generated_rust_entry: String,
    /// Cargo target directory shared by generated build/test invocations.
    pub cargo_target_dir: String,
    /// Expected debug binary path produced by Cargo.
    pub debug_binary: String,
    /// Expected release binary path produced by Cargo.
    pub release_binary: String,
}

pub open spec fn target_piece() -> Seq<char> {
    seq!['t', 'a', 'r', 'g', 'e', 't']
}

pub open spec fn faber_piece() -> Seq<char> {
    seq!['f', 'a', 'b', 'e', 'r']
}

pub open spec fn debug_piece() -> Seq<char> {
    seq!['d', 'e', 'b', 'u', 'g']
}

pub open spec fn release_piece() -> Seq<char> {
    seq!['r', 'e', 'l', 'e', 'a', 's', 'e']
}

pub open spec fn cargo_toml_piece() -> Seq<char> {
    seq!['C', 'a', 'r', 'g', 'o', '.', 't', 'o', 'm', 'l']
}

pub open spec fn src_piece() -> Seq<char> {
    seq!['s', 'r', 'c']
}

pub open spec fn main_rs_piece() -> Seq<char> {
    seq!['m', 'a', 'i', 'n', '.', 'r', 's']
}

/// The layout fields of a package root and package name.
pub open spec fn layout_of(root: Seq<char>, package_name: Seq<char>) -> (Seq<char>, Seq<char>, Seq<char>, Seq<char>, Seq<char>, Seq<char>, Seq<char>, Seq<char>) {
    let package_root = normalized_path(root);
    let target = path_join(package_root, target_piece());
    let generated = path_join(target, faber_piece());
    let binary = sanitized_crate_name(package_name);
    (
        package_root,
        path_join(package_root, manifest_file()),
        generated,
        path_join(generated, cargo_toml_piece()),
        path_join(path_join(generated, src_piece()), main_rs_piece()),
        target,
        path_join(path_join(target, debug_piece()), binary),
        path_join(path_join(target, release_piece()), binary),
    )
}

impl Clone for BuildLayout {
    fn clone(&self) -> (r: Self)
        ensures
            r == *self,
    {
        BuildLayout {
            package_root: self.package_root.clone(),
            manifest_path: self.manifest_path.clone(),
            generated_crate_root: self.generated_crate_root.clone(),
            generated_cargo_manifest: self.generated_cargo_manifest.clone(),
            generated_rust_entry: self.generated_rust_entry.clone(),
            cargo_target_dir: self.cargo_target_dir.clone(),
            debug_binary: self.debug_binary.clone(),
            release_binary: self.release_binary.clone(),
        }
    }
}

impl BuildLayout {
    /// The layout's fields as one tuple, in declaration order.
    pub open spec fn fields(&self) -> (Seq<char>, Seq<char>, Seq<char>, Seq<char>, Seq<char>, Seq<char>, Seq<char>, Seq<char>) {
        (
            self.package_root@,
            self.manifest_path@,
            self.generated_crate_root@,
            self.generated_cargo_manifest@,
            self.generated_rust_entry@,
            self.cargo_target_dir@,
            self.debug_binary@,
            self.release_binary@,
        )
    }

    /// Build a layout from an explicit package root directory and the package
    /// name declared in its faber.toml (or a provided name for legacy cases).
    ///
    /// The root is lexically normalized; the supplied `package_name` is
    /// sanitized for use as a Rust crate/binary name.
    pub fn from_package_root(root: &str, package_name: &str) -> (layout: Self)
        ensures
            layout.fields() == layout_of(root@, package_name@),
    {
        let package_root = normalize_path(root);
        let manifest = manifest_file_name();
        let manifest_path = join(package_root.as_str(), manifest.as_str());
        let target_base = join(package_root.as_str(), "target");
        let generated_root = join(target_base.as_str(), "faber");
        let binary = sanitize_crate_name(package_name);
        let debug_dir = join(target_base.as_str(), "debug");
        let debug_binary = join(debug_dir.as_str(), binary.as_str());
        let release_dir = join(target_base.as_str(), "release");
        let release_binary = join(release_dir.as_str(), binary.as_str());
        let generated_cargo_manifest = join(generated_root.as_str(), "Cargo.toml");
        let generated_src = join(generated_root.as_str(), "src");
        let generated_rust_entry = join(generated_src.as_str(), "main.rs");
        proof {
            reveal_strlit("target");
            reveal_strlit("faber");
            reveal_strlit("debug");
            reveal_strlit("release");
            reveal_strlit("Cargo.toml");
            reveal_strlit("src");
            reveal_strlit("main.rs");
        }
        let layout = BuildLayout {
            package_root,
            manifest_path,
            generated_crate_root: generated_root,
            generated_cargo_manifest,
            generated_rust_entry,
            cargo_target_dir: target_base,
            debug_binary,
            release_binary,
        };
        assert(layout.fields() =~~= layout_of(root@, package_name@));
        layout
    }

    /// Returns the sanitized name used for the generated binary and crate:
    /// the final component of the debug binary path, or `package` when that
    /// path names none.
    pub fn binary_name(&self) -> (name: String)
        ensures
            name@ == match path_file_name(self.debug_binary@) {
                Some(n) => n,
                None => seq!['p', 'a', 'c', 'k', 'a', 'g', 'e'],
            },
    {
        match file_name(self.debug_binary.as_str()) {
            Some(n) => n,
            None => {
                let s = String::from_str("package");
                proof {
                    reveal_strlit("package");
                }
                assert(s@ =~= seq!['p', 'a', 'c', 'k', 'a', 'g', 'e']);
                s
            },
        }
    }
}

/// A layout built from a package root and name reports the sanitized package
/// name as its binary name: the debug binary path ends in exactly that name.
pub proof fn law_binary_name_is_sanitized_name(layout: BuildLayout, root: Seq<char>, package_name: Seq<char>)
    requires
        layout.fields() == layout_of(root, package_name),
    ensures
        path_file_name(layout.debug_binary@) == Some(sanitized_crate_name(package_name)),
{
    let binary = sanitized_crate_name(package_name);
    lemma_sanitized_crate_name_chars(package_name);
    assert(binary[0] != '.');
    assert(binary != dot());
    assert(binary != dot_dot());
    assert forall|i: int| 0 <= i < binary.len() implies binary[i] != '/' by {
        assert(crate::naming::is_crate_name_char(binary[i]));
    }
    let target = path_join(normalized_path(root), target_piece());
    lemma_join_file_name(path_join(target, debug_piece()), binary);
}

/// The package member a manifest's entry names: an absolute entry as it is,
/// a relative one under the manifest's source directory.
pub open spec fn entry_member(source: Seq<char>, entry: Seq<char>) -> Seq<char> {
    if is_absolute(entry) {
        entry
    } else {
        path_join(source, entry)
    }
}

/// The package member path of a manifest's entry (see [`entry_member`]);
/// the package resolves it against its root.
pub fn manifest_entry_path(source: &str, entry: &str) -> (member: String)
    ensures
        member@ == entry_member(source@, entry@),
{
    let e = str_chars(entry);
    if e.len() > 0 && e[0] == '/' {
        String::from_str(entry)
    } else {
        join(source, entry)
    }
}

/// The directory containing a normalized path: the text before its last
/// `/` (the root `/` for a top-level absolute path, empty for a single
/// relative component); none for the root and the empty path.
pub open spec fn parent_of(p: Seq<char>) -> Option<Seq<char>> {
    if p.len() == 0 || p == seq!['/'] {
        None
    } else {
        match last_slash(p) {
            None => Some(Seq::empty()),
            Some(i) => if i == 0 {
                Some(seq!['/'])
            } else {
                Some(p.take(i))
            },
        }
    }
}

/// The index of the last `/` of a text, if any.
pub open spec fn last_slash(p: Seq<char>) -> Option<int>
    decreases p.len(),
{
    if p.len() == 0 {
        None
    } else if p.last() == '/' {
        Some(p.len() - 1)
    } else {
        last_slash(p.drop_last())
    }
}

proof fn lemma_last_slash_bound(p: Seq<char>)
    ensures
        last_slash(p) matches Some(i) ==> 0 <= i < p.len() && p[i] == '/',
    decreases p.len(),
{
    if p.len() > 0 && p.last() != '/' {
        lemma_last_slash_bound(p.drop_last());
    }
}

/// The manifest paths to probe for a file, nearest first: the manifest file
/// in each directory from the file's own up to the top.
pub open spec fn manifest_candidates_of(p: Seq<char>) -> Seq<Seq<char>>
    decreases p.len(),
{
    match parent_of(p) {
        None => Seq::empty(),
        Some(d) => if d.len() < p.len() {
            seq![path_join(d, manifest_file())] + manifest_candidates_of(d)
        } else {
            Seq::empty()
        },
    }
}

fn parent_exec(p: &Vec<char>) -> (r: Option<Vec<char>>)
    ensures
        match r {
            Some(d) => parent_of(p@) == Some(d@) && d@.len() < p@.len(),
            None => parent_of(p@) is None,
        },
{
    if p.len() == 0 || (p.len() == 1 && p[0] == '/') {
        assert(p@.len() == 1 ==> (p@[0] == '/' ==> p@ =~= seq!['/']));
        return None;
    }
    proof {
        if p@ == seq!['/'] {
            assert(p@.len() == 1 && p@[0] == '/');
        }
    }
    let mut i: usize = p.len();
    assert(p@.take(i as int) =~= p@);
    while i > 0 && p[i - 1] != '/'
        invariant
            i <= p.len(),
            last_slash(p@) == last_slash(p@.take(i as int)),
        decreases i,
    {
        assert(p@.take(i as int).drop_last() =~= p@.take(i - 1));
        i = i - 1;
    }
    if i == 0 {
        assert(p@.take(0) =~= Seq::<char>::empty());
        return Some(Vec::new());
    }
    assert(p@.take(i as int).last() == '/');
    assert(last_slash(p@) == Some(i - 1));
    if i - 1 == 0 {
        let mut d: Vec<char> = Vec::new();
        d.push('/');
        assert(d@ =~= seq!['/']);
        assert(p@.len() >= 2);
        return Some(d);
    }
    let mut d: Vec<char> = Vec::new();
    let mut k: usize = 0;
    while k < i - 1
        invariant
            k <= i - 1,
            i - 1 < p.len(),
            d@ == p@.take(k as int),
        decreases i - 1 - k,
    {
        d.push(p[k]);
        k = k + 1;
        assert(d@ =~= p@.take(k as int));
    }
    Some(d)
}

/// The manifest paths to probe for a normalized file path, nearest first
/// (see [`manifest_candidates_of`]).
pub fn manifest_candidates(path: &str) -> (out: Vec<String>)
    ensures
        out@.len() == manifest_candidates_of(path@).len(),
        forall|i: int| 0 <= i < out@.len() ==> (#[trigger] out@[i])@ == manifest_candidates_of(path@)[i],
{
    let mut out: Vec<String> = Vec::new();
    let mut cur = str_chars(path);
    let name = manifest_file_name();
    let ghost rest0 = manifest_candidates_of(path@);
    loop
        invariant
            name@ == manifest_file(),
            rest0 == manifest_candidates_of(path@),
            out@.len() + manifest_candidates_of(cur@).len() == rest0.len(),
            forall|i: int| 0 <= i < out@.len() ==> (#[trigger] out@[i])@ == rest0[i],
            forall|i: int| 0 <= i < manifest_candidates_of(cur@).len() ==> #[trigger] manifest_candidates_of(cur@)[i]
                == rest0[out@.len() + i],
        decreases cur@.len(),
    {
        match parent_exec(&cur) {
            None => {
                return out;
            },
            Some(d) => {
                let dir = string_of_chars(&d);
                let candidate = join(dir.as_str(), name.as_str());
                let ghost tail = manifest_candidates_of(d@);
                assert(manifest_candidates_of(cur@) == seq![path_join(d@, manifest_file())] + tail);
                assert(manifest_candidates_of(cur@)[0] == path_join(d@, manifest_file()));
                assert forall|i: int| 0 <= i < tail.len() implies #[trigger] tail[i] == rest0[out@.len() + 1 + i] by {
                    assert(manifest_candidates_of(cur@)[i + 1] == tail[i]);
                }
                out.push(candidate);
                cur = d;
            },
        }
    }
}

fn string_of_chars(v: &Vec<char>) -> (s: String)
    ensures
        s@ == v@,
{
    let mut s = String::new();
    let mut i: usize = 0;
    while i < v.len()
        invariant
            i <= v.len(),
            s@ == v@.take(i as int),
        decreases v.len() - i,
    {
        push_char(&mut s, v[i]);
        i = i + 1;
        assert(s@ =~= v@.take(i as int));
    }
    assert(v@.take(v@.len() as int) =~= v@);
    s
}

} // verus!

verus! {

/// What probing the filesystem found for a package input.
#[derive(Debug, PartialEq, Eq)]
pub enum InputProbe {
    /// The input is a file named like the package manifest.
    ManifestFile,
    /// The input is a directory; whether it holds the manifest file.
    Directory { has_manifest: bool },
    /// The input is another file; the nearest manifest above it, if any.
    File { nearest_manifest: Option<String> },
}

/// How a package input resolves.
#[derive(Debug, PartialEq, Eq)]
pub enum PackageInput {
    /// A manifest-backed package: its manifest, its root (the manifest's
    /// directory), and the entry file when the input named one.
    Manifest { manifest: String, root: String, named_entry: Option<String> },
    /// A package without a manifest: its root and its entry file.
    Legacy { root: String, entry: String },
}

/// The directory holding a path, or `.` when it has none.
pub open spec fn parent_or_dot(p: Seq<char>) -> Seq<char> {
    match parent_of(p) {
        Some(d) => d,
        None => seq!['.'],
    }
}

/// The legacy entry file of a package directory.
pub open spec fn legacy_entry_file() -> Seq<char> {
    seq!['m', 'a', 'i', 'n', '.', 'f', 'a', 'b']
}

/// How an absolute, normalized input resolves, given the probe: a manifest
/// file is its own package's manifest; a directory is a package root, backed
/// by its manifest when it holds one and entered at `main.fab` otherwise; a
/// file is the entry of the package of the nearest manifest above it, or of
/// a legacy package rooted at its directory.
pub open spec fn resolves_to(input: Seq<char>, probe: InputProbe, r: PackageInput) -> bool {
    match probe {
        InputProbe::ManifestFile => match r {
            PackageInput::Manifest { manifest, root, named_entry } => {
                &&& manifest@ == input
                &&& root@ == parent_or_dot(input)
                &&& named_entry is None
            },
            PackageInput::Legacy { .. } => false,
        },
        InputProbe::Directory { has_manifest } => match r {
            PackageInput::Manifest { manifest, root, named_entry } => {
                &&& has_manifest
                &&& manifest@ == path_join(input, manifest_file())
                &&& root@ == input
                &&& named_entry is None
            },
            PackageInput::Legacy { root, entry } => {
                &&& !has_manifest
                &&& root@ == input
                &&& entry@ == path_join(input, legacy_entry_file())
            },
        },
        InputProbe::File { nearest_manifest } => match r {
            PackageInput::Manifest { manifest, root, named_entry } => {
                &&& nearest_manifest is Some
                &&& manifest@ == nearest_manifest.unwrap()@
                &&& root@ == parent_or_dot(manifest@)
                &&& named_entry is Some
                &&& named_entry.unwrap()@ == input
            },
            PackageInput::Legacy { root, entry } => {
                &&& nearest_manifest is None
                &&& root@ == parent_or_dot(input)
                &&& entry@ == input
            },
        },
    }
}

fn parent_or_dot_text(p: &str) -> (d: String)
    ensures
        d@ == parent_or_dot(p@),
{
    let chars = str_chars(p);
    match parent_exec(&chars) {
        Some(d) => string_of_chars(&d),
        None => {
            let s = String::from_str(".");
            proof {
                reveal_strlit(".");
            }
            s
        },
    }
}

/// Resolve an absolute, normalized package input from what probing the
/// filesystem found (see [`resolves_to`]).
pub fn package_input(input: &str, probe: InputProbe) -> (r: PackageInput)
    ensures
        resolves_to(input@, probe, r),
{
    match probe {
        InputProbe::ManifestFile => {
            let manifest = owned(input);
            let root = parent_or_dot_text(input);
            let r = PackageInput::Manifest { manifest, root, named_entry: None };
            assert(resolves_to(input@, probe, r));
            r
        },
        InputProbe::Directory { has_manifest } => {
            if has_manifest {
                let name = manifest_file_name();
                let r = PackageInput::Manifest { manifest: join(input, name.as_str()), root: owned(input), named_entry: None };
                assert(resolves_to(input@, probe, r));
                r
            } else {
                let entry = String::from_str("main.fab");
                proof {
                    reveal_strlit("main.fab");
                }
                assert(entry@ =~= legacy_entry_file());
                let r = PackageInput::Legacy { root: owned(input), entry: join(input, entry.as_str()) };
                assert(resolves_to(input@, probe, r));
                r
            }
        },
        InputProbe::File { nearest_manifest } => match nearest_manifest {
            Some(m) => {
                let root = parent_or_dot_text(m.as_str());
                let r = PackageInput::Manifest { manifest: m, root, named_entry: Some(owned(input)) };
                assert(resolves_to(input@, probe, r));
                r
            },
            None => {
                let r = PackageInput::Legacy { root: parent_or_dot_text(input), entry: owned(input) };
                assert(resolves_to(input@, probe, r));
                r
            },
        },
    }
}

/// The name a package without a manifest builds under: its root directory's
/// name, or `package` when the root names none.
pub open spec fn legacy_name(root: Seq<char>) -> Seq<char> {
    match path_file_name(root) {
        Some(n) => n,
        None => seq!['p', 'a', 'c', 'k', 'a', 'g', 'e'],
    }
}

/// The name a package without a manifest builds under (see
/// [`legacy_name`]).
pub fn legacy_package_name(root: &str) -> (name: String)
    ensures
        name@ == legacy_name(root@),
{
    match file_name(root) {
        Some(n) => n,
        None => {
            let s = String::from_str("package");
            proof {
                reveal_strlit("package");
            }
            s
        },
    }
}

} // verus!
