//! One declaration file as a value.

use vstd::prelude::*;
use crate::bind::{binds_view, clone_binds, BindMount, BindMountView};
use crate::environment::{clone_ops, ops_view, EnvOp, EnvOpView};
use crate::error::{Error, ErrorView};
use crate::path::{
    anchored,
    home_path,
    is_absolute,
    is_home_relative,
    join_path,
    no_home_message,
    opt_str,
    parent,
    parent_of,
};
use crate::text::{clone_texts, opt_text, starts_with_char, texts};

verus! {

/// The schema version a declaration is written in.
#[derive(Debug, Clone, Copy, PartialEq, Eq, Structural)]
pub enum ApiVersion {
    V0,
}

impl Default for ApiVersion {
    fn default() -> (version: Self)
        ensures
            version == ApiVersion::V0,
    {
        ApiVersion::V0
    }
}

/// The value of `binary_only` where a declaration's package options leave it out.
pub fn default_binary_only() -> (flag: bool)
    ensures
        flag,
{
    true
}

/// Options controlling package resolution.
#[derive(Debug, PartialEq, Eq)]
pub struct PackageOptions {
    /// Resolve packages without building from source.
    pub binary_only: bool,
    /// Names of additional repositories to search.
    pub repositories: Vec<String>,
    /// Name of the solver to use.
    pub solver: Option<String>,
}

/// The mathematical value of [`PackageOptions`].
pub struct PackageOptionsView {
    pub binary_only: bool,
    pub repositories: Seq<Seq<char>>,
    pub solver: Option<Seq<char>>,
}

impl View for PackageOptions {
    type V = PackageOptionsView;

    open spec fn view(&self) -> PackageOptionsView {
        PackageOptionsView {
            binary_only: self.binary_only,
            repositories: texts(self.repositories@),
            solver: opt_text(self.solver),
        }
    }
}

impl Clone for PackageOptions {
    fn clone(&self) -> (out: Self)
        ensures
            out@ == self@,
    {
        PackageOptions {
            binary_only: self.binary_only,
            repositories: clone_texts(&self.repositories),
            solver: self.solver.clone(),
        }
    }
}

impl Default for PackageOptions {
    fn default() -> (options: Self)
        ensures
            options@ == (PackageOptionsView {
                binary_only: false,
                repositories: Seq::empty(),
                solver: None,
            }),
    {
        let options = PackageOptions { binary_only: false, repositories: Vec::new(), solver: None };
        assert(texts(options.repositories@) =~= Seq::empty());
        options
    }
}

/// The mathematical value of optional package options.
pub open spec fn opt_options(options: Option<PackageOptions>) -> Option<PackageOptionsView> {
    match options {
        Some(o) => Some(o@),
        None => None,
    }
}

/// A copy of optional package options.
pub fn clone_options(options: &Option<PackageOptions>) -> (out: Option<PackageOptions>)
    ensures
        opt_options(out) == opt_options(*options),
{
    match options {
        Some(o) => Some(o.clone()),
        None => None,
    }
}

/// One declaration: the contents of one declaration file, and where it was
/// loaded from.
#[derive(Debug, PartialEq, Eq)]
pub struct EnvSpec {
    /// Schema version.
    pub api: ApiVersion,
    /// Human-readable description.
    pub description: Option<String>,
    /// Whether discovery goes on to the directories above this file.
    pub inherit: bool,
    /// Files layered before this one: absolute, `~/`-relative, or relative to
    /// this file's directory.
    pub includes: Vec<String>,
    /// Layer references, in stacking order.
    pub layers: Vec<String>,
    /// Operations on the environment, in application order.
    pub environment: Vec<EnvOp>,
    /// Bind mounts into the runtime.
    pub contents: Vec<BindMount>,
    /// Package requests.
    pub packages: Vec<String>,
    /// Options controlling package resolution.
    pub package_options: Option<PackageOptions>,
    /// The file this declaration was loaded from; absent for one made in memory.
    pub source_path: Option<String>,
}

/// The mathematical value of an [`EnvSpec`].
pub struct EnvSpecView {
    pub api: ApiVersion,
    pub description: Option<Seq<char>>,
    pub inherit: bool,
    pub includes: Seq<Seq<char>>,
    pub layers: Seq<Seq<char>>,
    pub environment: Seq<EnvOpView>,
    pub contents: Seq<BindMountView>,
    pub packages: Seq<Seq<char>>,
    pub package_options: Option<PackageOptionsView>,
    pub source_path: Option<Seq<char>>,
}

impl View for EnvSpec {
    type V = EnvSpecView;

    open spec fn view(&self) -> EnvSpecView {
        EnvSpecView {
            api: self.api,
            description: opt_text(self.description),
            inherit: self.inherit,
            includes: texts(self.includes@),
            layers: texts(self.layers@),
            environment: ops_view(self.environment@),
            contents: binds_view(self.contents@),
            packages: texts(self.packages@),
            package_options: opt_options(self.package_options),
            source_path: opt_text(self.source_path),
        }
    }
}

impl EnvSpecView {
    /// The declaration that declares nothing.
    pub open spec fn empty() -> EnvSpecView {
        EnvSpecView {
            api: ApiVersion::V0,
            description: None,
            inherit: false,
            includes: Seq::empty(),
            layers: Seq::empty(),
            environment: Seq::empty(),
            contents: Seq::empty(),
            packages: Seq::empty(),
            package_options: None,
            source_path: None,
        }
    }

    /// This declaration as loaded from `path`.
    pub open spec fn loaded_from(self, path: Seq<char>) -> EnvSpecView {
        EnvSpecView { source_path: Some(path), ..self }
    }

    /// The directory of the file this declaration was loaded from.
    pub open spec fn directory(self) -> Option<Seq<char>> {
        match self.source_path {
            Some(p) => parent_of(p),
            None => None,
        }
    }
}

impl Clone for EnvSpec {
    fn clone(&self) -> (out: Self)
        ensures
            out@ == self@,
    {
        EnvSpec {
            api: self.api,
            description: self.description.clone(),
            inherit: self.inherit,
            includes: clone_texts(&self.includes),
            layers: clone_texts(&self.layers),
            environment: clone_ops(&self.environment),
            contents: clone_binds(&self.contents),
            packages: clone_texts(&self.packages),
            package_options: clone_options(&self.package_options),
            source_path: self.source_path.clone(),
        }
    }
}

impl Default for EnvSpec {
    fn default() -> (spec: Self)
        ensures
            spec@ == EnvSpecView::empty(),
    {
        let spec = EnvSpec {
            api: ApiVersion::V0,
            description: None,
            inherit: false,
            includes: Vec::new(),
            layers: Vec::new(),
            environment: Vec::new(),
            contents: Vec::new(),
            packages: Vec::new(),
            package_options: None,
            source_path: None,
        };
        proof {
            assert(texts(spec.includes@) =~= Seq::empty());
            assert(texts(spec.layers@) =~= Seq::empty());
            assert(texts(spec.packages@) =~= Seq::empty());
            assert(ops_view(spec.environment@) =~= Seq::empty());
            assert(binds_view(spec.contents@) =~= Seq::empty());
        }
        spec
    }
}

/// The mathematical values of a list of declarations.
pub open spec fn specs_view(specs: Seq<EnvSpec>) -> Seq<EnvSpecView> {
    specs.map_values(|s: EnvSpec| s@)
}

/// The message of the error for a declaration without a provenance path.
pub open spec fn no_source_message() -> Seq<char> {
    "source_path must be set"@
}

/// The message of the error for resolving includes without a base directory.
pub open spec fn no_base_message() -> Seq<char> {
    "Cannot resolve includes without source_path"@
}

/// Where each text of `includes` points, taken below `base` where relative:
/// the paths in order, or `None` where one of them is relative and there is
/// no base, or is home-relative and no home directory is known.
pub open spec fn anchored_all(
    includes: Seq<Seq<char>>,
    base: Option<Seq<char>>,
    home: Option<Seq<char>>,
) -> Option<Seq<Seq<char>>> {
    if forall|i: int| 0 <= i < includes.len() ==> anchored(#[trigger] includes[i], base, home) is Some {
        Some(Seq::new(includes.len(), |i: int| anchored(includes[i], base, home)->0))
    } else {
        None
    }
}

/// Whether entry `i` is the first of `includes` that points nowhere.
pub open spec fn first_unanchored(
    includes: Seq<Seq<char>>,
    base: Option<Seq<char>>,
    home: Option<Seq<char>>,
    i: int,
) -> bool {
    &&& 0 <= i < includes.len()
    &&& anchored(includes[i], base, home) is None
    &&& forall|j: int| 0 <= j < i ==> anchored(#[trigger] includes[j], base, home) is Some
}

/// The error for an entry that points nowhere: a home-relative one lacks
/// the home directory, any other the directory of the declaration's file.
pub open spec fn unanchored_error(entry: Seq<char>) -> ErrorView {
    if is_home_relative(entry) {
        ErrorView::ValidationFailed(no_home_message())
    } else {
        ErrorView::ValidationFailed(no_base_message())
    }
}

impl EnvSpec {
    /// Checks that this declaration records the file it was loaded from.
    pub fn validate(&self) -> (out: Result<(), Error>)
        ensures
            match out {
                Ok(_) => self.source_path is Some,
                Err(e) => self.source_path is None && e@ == ErrorView::ValidationFailed(
                    no_source_message(),
                ),
            },
    {
        if self.source_path.is_none() {
            return Err(Error::ValidationFailed("source_path must be set".to_owned()));
        }
        Ok(())
    }

    /// The paths that the `includes` entries point to, in order, before they
    /// are made canonical. Relative entries are taken below the directory of
    /// this declaration's own file.
    ///
    /// Every entry gets its path unless one of them points nowhere: a
    /// relative entry of a declaration that has no file, or whose file has no
    /// directory above it, or a home-relative entry while `home` is unknown.
    /// The error is that of the first such entry. A declaration without a
    /// file whose entries are all absolute or home-relative resolves.
    pub fn resolve_includes(&self, home: Option<&str>) -> (out: Result<Vec<String>, Error>)
        ensures
            match out {
                Ok(paths) => anchored_all(self@.includes, self@.directory(), opt_str(home))
                    == Some(texts(paths@)),
                Err(e) => exists|i: int| #[trigger]
                    first_unanchored(self@.includes, self@.directory(), opt_str(home), i) && e@
                        == unanchored_error(self@.includes[i]),
            },
    {
        let base_dir = match &self.source_path {
            Some(p) => parent(p.as_str()),
            None => None,
        };
        let ghost includes = self@.includes;
        let ghost base = self@.directory();
        let ghost h = opt_str(home);
        let mut resolved: Vec<String> = Vec::new();
        let mut i: usize = 0;
        while i < self.includes.len()
            invariant
                i <= self.includes.len(),
                includes == texts(self.includes@),
                h == opt_str(home),
                base == opt_text(base_dir),
                base == self@.directory(),
                resolved.len() == i,
                forall|j: int|
                    0 <= j < i ==> anchored(#[trigger] includes[j], base, h) == Some(resolved[j]@),
            decreases self.includes.len() - i,
        {
            let entry = self.includes[i].as_str();
            let path = if starts_with_char(entry, '~') {
                match home_path(entry, home) {
                    Ok(p) => p,
                    Err(e) => {
                        proof {
                            assert(first_unanchored(includes, base, h, i as int));
                        }
                        return Err(e);
                    },
                }
            } else if is_absolute(entry) {
                entry.to_owned()
            } else {
                match &base_dir {
                    Some(b) => join_path(b.as_str(), entry),
                    None => {
                        proof {
                            assert(first_unanchored(includes, base, h, i as int));
                        }
                        return Err(
                            Error::ValidationFailed(
                                "Cannot resolve includes without source_path".to_owned(),
                            ),
                        );
                    },
                }
            };
            resolved.push(path);
            i = i + 1;
        }
        proof {
            assert(anchored_all(includes, base, h) is Some);
            assert(anchored_all(includes, base, h)->0 =~= texts(resolved@));
        }
        Ok(resolved)
    }
}

} // verus!
