//! The filesystem service: which paths a request may reach.
//!
//! A request names a target relative to the root that the service was started
//! with. The target is taken apart into components, and only a target made of
//! plain names is served: anything that could lead out of the root, or start
//! again from the top, is refused.

use std::path::{Component, Path, PathBuf};
use vstd::prelude::*;
use crate::lump::LumpId;
use crate::process::ProcessMetadata;

verus! {

/// `std::path::PathBuf`, carried through as an opaque value.
#[verifier::external_type_specification]
#[verifier::external_body]
pub struct ExPathBuf(PathBuf);

/// One component of a path.
#[derive(Clone, Debug, PartialEq, Eq)]
pub enum PathPart {
    /// A drive or share prefix.
    Prefix,
    /// The root directory.
    RootDir,
    /// The directory itself: `.`.
    CurDir,
    /// The directory above: `..`.
    ParentDir,
    /// A plain name.
    Normal(String),
}

/// `Path::components`: the components of `target`, in order, each as a plain
/// value. How a text is split depends on the platform, so nothing is claimed
/// of the result.
#[verifier::external_body]
fn path_components(target: &str) -> (parts: Vec<PathPart>) {
    Path::new(target).components().map(|part| match part {
        Component::Prefix(_) => PathPart::Prefix,
        Component::RootDir => PathPart::RootDir,
        Component::CurDir => PathPart::CurDir,
        Component::ParentDir => PathPart::ParentDir,
        Component::Normal(name) => PathPart::Normal(name.to_string_lossy().into_owned()),
    }).collect()
}

/// What a request asks for.
#[derive(Clone, Copy, Debug, PartialEq, Eq, Structural)]
pub enum RequestKind {
    /// The content of the file, as a lump.
    Get,
    /// The entries of the directory.
    List,
}

/// A request to the filesystem service.
#[derive(Clone, Debug)]
pub struct Request {
    pub target: String,
    pub kind: RequestKind,
}

/// An entry of a directory.
#[derive(Clone, Debug, PartialEq, Eq)]
pub struct FileInfo {
    pub name: String,
}

/// What the service answers to a request that it served.
#[derive(Clone, Debug)]
pub enum Success {
    Get(LumpId),
    List(Vec<FileInfo>),
}

/// Why the service did not serve a request.
#[derive(Clone, Copy, Debug, PartialEq, Eq, Structural)]
pub enum Error {
    /// The target is no path.
    InvalidTarget,
    /// The target has a component that is not a plain name.
    DirectoryTraversal,
}

/// Whether a component is a plain name.
pub open spec fn is_normal(part: PathPart) -> bool {
    part is Normal
}

/// Whether every component is a plain name.
pub open spec fn all_normal(parts: Seq<PathPart>) -> bool {
    forall|i: int| 0 <= i < parts.len() ==> is_normal(#[trigger] parts[i])
}

/// The names of components that are all plain names.
pub open spec fn names_of(parts: Seq<PathPart>) -> Seq<Seq<char>> {
    Seq::new(parts.len(), |i: int| parts[i]->Normal_0@)
}

/// The plain names of `parts`, in order, where every component is one; else
/// the refusal `DirectoryTraversal`.
pub fn plain_names(parts: Vec<PathPart>) -> (r: Result<Vec<String>, Error>)
    ensures
        r is Ok <==> all_normal(parts@),
        r matches Err(e) ==> e == Error::DirectoryTraversal,
        r matches Ok(names) ==> names@.len() == parts@.len() && forall|i: int|
            0 <= i < names@.len() ==> (#[trigger] names@[i])@ == names_of(parts@)[i],
{
    let mut names: Vec<String> = Vec::new();
    let mut i: usize = 0;
    while i < parts.len()
        invariant
            i <= parts@.len(),
            names@.len() == i,
            forall|k: int| 0 <= k < i ==> is_normal(#[trigger] parts@[k]),
            forall|k: int| 0 <= k < i ==> (#[trigger] names@[k])@ == parts@[k]->Normal_0@,
        decreases parts@.len() - i,
    {
        match &parts[i] {
            PathPart::Normal(name) => {
                names.push(name.clone());
            },
            _ => {
                assert(!is_normal(parts@[i as int]));
                return Err(Error::DirectoryTraversal);
            },
        }
        i = i + 1;
    }
    Ok(names)
}

/// A path that the service serves: the root of the service, and below it the
/// plain names that lead to the file or directory, outermost first. No name
/// is a step upwards or a new start, so the path lies under the root.
#[derive(Debug)]
pub struct ServedPath<'a> {
    pub root: &'a PathBuf,
    pub names: Vec<String>,
}

impl<'a> ServedPath<'a> {
    /// The names below the root, each as a sequence of characters.
    pub open spec fn names(&self) -> Seq<Seq<char>> {
        Seq::new(self.names@.len(), |i: int| self.names@[i]@)
    }
}

/// The native filesystem access service.
pub struct FsPlugin {
    root: PathBuf,
}

impl FsPlugin {
    /// The directory that the service serves.
    pub closed spec fn root(&self) -> PathBuf {
        self.root
    }

    /// A service that serves what lies under `root`.
    pub fn new(root: PathBuf) -> (plugin: FsPlugin)
        ensures
            plugin.root() == root,
    {
        FsPlugin { root }
    }

    /// The directory that the service serves.
    pub fn root_path(&self) -> (root: &PathBuf)
        ensures
            *root == self.root(),
    {
        &self.root
    }

    /// The path that `target` names: the root of the service and, below it,
    /// the names that `target` is made of. Where a component of `target` is
    /// not a plain name, the refusal `DirectoryTraversal`.
    pub fn resolve(&self, target: &str) -> (r: Result<ServedPath<'_>, Error>)
        ensures
            r matches Err(e) ==> e == Error::DirectoryTraversal,
            r matches Ok(path) ==> *path.root == self.root(),
    {
        self.resolve_parts(path_components(target))
    }

    /// The path that the components `parts` lead to: served exactly where
    /// every component is a plain name, and then the root of the service with
    /// the names of `parts` below it, in their order.
    pub fn resolve_parts(&self, parts: Vec<PathPart>) -> (r: Result<ServedPath<'_>, Error>)
        ensures
            r is Ok <==> all_normal(parts@),
            r matches Err(e) ==> e == Error::DirectoryTraversal,
            r matches Ok(path) ==> *path.root == self.root() && path.names() == names_of(parts@),
    {
        match plain_names(parts) {
            Err(e) => Err(e),
            Ok(names) => {
                let path = ServedPath { root: &self.root, names };
                assert(path.names() =~= names_of(parts@));
                Ok(path)
            },
        }
    }

    /// The name under which the service is registered.
    pub fn name() -> (name: String)
        ensures
            name@ == "hearth.fs.Filesystem"@,
    {
        "hearth.fs.Filesystem".to_owned()
    }

    /// What the service process says of itself.
    pub fn get_process_metadata() -> (meta: ProcessMetadata)
        ensures
            meta.name is Some,
            meta.description is Some,
            meta.name->Some_0@ == "hearth.fs.Filesystem"@,
    {
        ProcessMetadata {
            name: Some("hearth.fs.Filesystem".to_owned()),
            description: Some(
                "The native filesystem access service. Accepts FsRequest.".to_owned(),
            ),
            authors: None,
            repository: None,
            homepage: None,
            license: None,
        }
    }
}

} // verus!
