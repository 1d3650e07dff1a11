//! Finding and ordering the declarations that apply to a starting directory.
//!
//! Discovery is a conversation. The library decides what has to be known
//! next about the file system and says so in a [`Request`]; the caller finds
//! out and hands back a [`Reply`]; [`Discovery::advance`] takes it from there
//! until the ordered list of declarations, or an error, is
//! [`Progress::Done`]. All state of one run lives in its [`Discovery`] value,
//! so runs never interfere with each other.
//!
//! The order of the result is fixed: the includes supplied by the caller,
//! those supplied by the environment, the declarations found in the tree
//! from the outermost directory inwards, each preceded by what it includes,
//! and last the local override of the starting directory.
//!
//! Every file that a run loads counts as loaded from then on, by its
//! canonical path: the supplied files, the files of the tree and the
//! included ones. An entry of `includes` that leads to a file already loaded
//! ends the run with [`Error::CircularInclude`].

use vstd::prelude::*;
use crate::cycles::{lemma_begin_remembers, lemma_step_remembers, remembers};
use crate::declaration::{specs_view, EnvSpec, EnvSpecView};
use crate::error::{Error, ErrorView};
use crate::path::{
    anchored,
    home_path,
    is_absolute,
    is_home_relative,
    join_path,
    no_home_message,
    opt_str,
    parent,
    parent_of,
    path_is_absolute,
    path_join,
};
use crate::text::{
    clone_texts,
    contains_text,
    extend_texts,
    opt_text,
    split,
    split_on,
    starts_with_char,
    texts,
};
use crate::{SPENV_FILENAME, SPENV_LOCAL_FILENAME};

verus! {

/// Controls of one discovery run.
#[derive(Debug, PartialEq, Eq)]
pub struct DiscoveryOptions {
    /// Never go on to the directories above the starting directory.
    pub no_inherit: bool,
    /// Always go on to the directories above the starting directory.
    pub force_inherit: bool,
    /// Includes supplied by the caller, loaded first.
    pub cli_includes: Vec<String>,
    /// Includes supplied by the environment, loaded next.
    pub env_includes: Vec<String>,
}

/// The mathematical value of [`DiscoveryOptions`].
pub struct DiscoveryOptionsView {
    pub no_inherit: bool,
    pub force_inherit: bool,
    pub cli_includes: Seq<Seq<char>>,
    pub env_includes: Seq<Seq<char>>,
}

impl View for DiscoveryOptions {
    type V = DiscoveryOptionsView;

    open spec fn view(&self) -> DiscoveryOptionsView {
        DiscoveryOptionsView {
            no_inherit: self.no_inherit,
            force_inherit: self.force_inherit,
            cli_includes: texts(self.cli_includes@),
            env_includes: texts(self.env_includes@),
        }
    }
}

impl Default for DiscoveryOptions {
    fn default() -> (options: Self)
        ensures
            options@ == (DiscoveryOptionsView {
                no_inherit: false,
                force_inherit: false,
                cli_includes: Seq::empty(),
                env_includes: Seq::empty(),
            }),
    {
        let options = DiscoveryOptions {
            no_inherit: false,
            force_inherit: false,
            cli_includes: Vec::new(),
            env_includes: Vec::new(),
        };
        proof {
            assert(texts(options.cli_includes@) =~= Seq::empty());
            assert(texts(options.env_includes@) =~= Seq::empty());
        }
        options
    }
}

impl Clone for DiscoveryOptions {
    fn clone(&self) -> (out: Self)
        ensures
            out@ == self@,
    {
        DiscoveryOptions {
            no_inherit: self.no_inherit,
            force_inherit: self.force_inherit,
            cli_includes: clone_texts(&self.cli_includes),
            env_includes: clone_texts(&self.env_includes),
        }
    }
}

/// Whether the text of a switch in the process environment turns it on.
pub open spec fn truthy(value: Seq<char>) -> bool {
    value == "1"@ || value == "true"@ || value == "yes"@ || value == "on"@
}

/// Whether the text of a switch in the process environment turns it on: it
/// does when it is exactly `1`, `true`, `yes` or `on`.
pub fn is_truthy(value: &str) -> (on: bool)
    ensures
        on == truthy(value@),
{
    let v = value.to_owned();
    v == "1".to_owned() || v == "true".to_owned() || v == "yes".to_owned() || v == "on".to_owned()
}

/// Whether an optional switch of the process environment is on.
pub open spec fn switch_on(value: Option<Seq<char>>) -> bool {
    match value {
        Some(v) => truthy(v),
        None => false,
    }
}

/// The entries that the process environment supplies: the pieces of its
/// colon-separated list, where it has one.
pub open spec fn listed(value: Option<Seq<char>>) -> Seq<Seq<char>> {
    match value {
        Some(v) => split_on(v, ':'),
        None => Seq::empty(),
    }
}

impl DiscoveryOptions {
    /// The options of a run, from what the command line and the process
    /// environment say.
    ///
    /// A switch is on where the command line sets it or the environment's
    /// text for it is truthy. The caller's entries are those of the command
    /// line; the environment's are the pieces of its colon-separated list.
    pub fn from_inputs(
        no_inherit: bool,
        inherit: bool,
        includes: Vec<String>,
        env_includes: Option<&str>,
        env_inherit: Option<&str>,
        env_no_inherit: Option<&str>,
    ) -> (options: Self)
        ensures
            options@ == (DiscoveryOptionsView {
                no_inherit: no_inherit || switch_on(opt_str(env_no_inherit)),
                force_inherit: inherit || switch_on(opt_str(env_inherit)),
                cli_includes: texts(includes@),
                env_includes: listed(opt_str(env_includes)),
            }),
    {
        let env_off = match env_no_inherit {
            Some(v) => is_truthy(v),
            None => false,
        };
        let env_on = match env_inherit {
            Some(v) => is_truthy(v),
            None => false,
        };
        let from_env = match env_includes {
            Some(v) => split(v, ':'),
            None => Vec::new(),
        };
        proof {
            if env_includes is None {
                assert(texts(from_env@) =~= Seq::empty());
            }
        }
        DiscoveryOptions {
            no_inherit: no_inherit || env_off,
            force_inherit: inherit || env_on,
            cli_includes: includes,
            env_includes: from_env,
        }
    }
}

/// The message of the error for a relative entry of `includes` that has no
/// file to be relative to.
pub open spec fn no_base_directory_message(entry: Seq<char>) -> Seq<char> {
    "Cannot resolve relative include '"@ + entry + "' without base directory"@
}

/// Where an entry of `includes` points before it is made canonical, or why
/// that cannot be said: a home-relative entry needs the home directory, and a
/// relative one the directory of the file that names it.
pub open spec fn candidate(
    entry: Seq<char>,
    base: Option<Seq<char>>,
    home: Option<Seq<char>>,
) -> Result<Seq<char>, ErrorView> {
    match anchored(entry, base, home) {
        Some(p) => Ok(p),
        None => if is_home_relative(entry) {
            Err(ErrorView::ValidationFailed(no_home_message()))
        } else {
            Err(ErrorView::ValidationFailed(no_base_directory_message(entry)))
        },
    }
}

/// The mathematical value of a result that carries a path or an error.
pub open spec fn path_result(r: Result<String, Error>) -> Result<Seq<char>, ErrorView> {
    match r {
        Ok(p) => Ok(p@),
        Err(e) => Err(e@),
    }
}

/// Resolves an entry of `includes` to the path it points to, before that
/// path is made canonical.
///
/// An entry that starts with `~` is taken below `home`; an absolute one
/// stands for itself; any other is taken below `base_dir`, the directory of
/// the file that names it.
pub fn resolve_include_path(entry: &str, base_dir: Option<&str>, home: Option<&str>) -> (out:
    Result<String, Error>)
    ensures
        path_result(out) == candidate(entry@, opt_str(base_dir), opt_str(home)),
{
    if starts_with_char(entry, '~') {
        home_path(entry, home)
    } else if is_absolute(entry) {
        Ok(entry.to_owned())
    } else {
        match base_dir {
            Some(base) => Ok(join_path(base, entry)),
            None => {
                let mut message = "Cannot resolve relative include '".to_owned();
                message.append(entry);
                message.append("' without base directory");
                assert(message@ =~= no_base_directory_message(entry@));
                Err(Error::ValidationFailed(message))
            },
        }
    }
}

/// The starting directory as an absolute path.
pub open spec fn resolved_start(
    start: Seq<char>,
    pwd: Option<Seq<char>>,
    cwd: Seq<char>,
) -> Seq<char> {
    if path_is_absolute(start) {
        start
    } else {
        match pwd {
            Some(p) => path_join(p, start),
            None => path_join(cwd, start),
        }
    }
}

/// Makes the starting directory absolute. A relative one is taken below
/// `pwd`, the working directory as the caller's shell names it, where that is
/// known, so that symbolic links in it are kept; else below `cwd`, the
/// working directory of the process.
pub fn resolve_start_path(start_path: &str, pwd: Option<&str>, cwd: &str) -> (start: String)
    ensures
        start@ == resolved_start(start_path@, opt_str(pwd), cwd@),
{
    if is_absolute(start_path) {
        start_path.to_owned()
    } else {
        match pwd {
            Some(p) => join_path(p, start_path),
            None => join_path(cwd, start_path),
        }
    }
}

/// What discovery needs to know next.
#[derive(Debug, PartialEq, Eq)]
pub enum Request {
    /// The canonical form of `path`.
    Canonicalize { path: String },
    /// Whether `path` is a regular file.
    IsFile { path: String },
    /// The declaration that the file at `path` holds.
    Load { path: String },
}

/// The mathematical value of a [`Request`].
pub enum RequestView {
    Canonicalize { path: Seq<char> },
    IsFile { path: Seq<char> },
    Load { path: Seq<char> },
}

impl View for Request {
    type V = RequestView;

    open spec fn view(&self) -> RequestView {
        match *self {
            Request::Canonicalize { path } => RequestView::Canonicalize { path: path@ },
            Request::IsFile { path } => RequestView::IsFile { path: path@ },
            Request::Load { path } => RequestView::Load { path: path@ },
        }
    }
}

/// Why a declaration file gave no declaration.
#[derive(Debug, PartialEq, Eq)]
pub enum LoadFailure {
    /// The file could not be read.
    Unreadable { error: String },
    /// The file was read, and its text is not a valid declaration.
    Malformed { error: String, yaml_content: String },
}

/// The mathematical value of a [`LoadFailure`].
pub enum LoadFailureView {
    Unreadable { error: Seq<char> },
    Malformed { error: Seq<char>, yaml_content: Seq<char> },
}

impl View for LoadFailure {
    type V = LoadFailureView;

    open spec fn view(&self) -> LoadFailureView {
        match *self {
            LoadFailure::Unreadable { error } => LoadFailureView::Unreadable { error: error@ },
            LoadFailure::Malformed { error, yaml_content } => LoadFailureView::Malformed {
                error: error@,
                yaml_content: yaml_content@,
            },
        }
    }
}

/// The answer to a [`Request`].
#[derive(Debug, PartialEq, Eq)]
pub enum Reply {
    /// The canonical path, or why the path has none.
    Canonical(Result<String, String>),
    /// Whether the path is a regular file.
    IsFile(bool),
    /// The declaration in the file, or why there is none.
    Loaded(Result<EnvSpec, LoadFailure>),
}

/// The mathematical value of a [`Reply`].
pub enum ReplyView {
    Canonical(Result<Seq<char>, Seq<char>>),
    IsFile(bool),
    Loaded(Result<EnvSpecView, LoadFailureView>),
}

impl View for Reply {
    type V = ReplyView;

    open spec fn view(&self) -> ReplyView {
        match *self {
            Reply::Canonical(Ok(p)) => ReplyView::Canonical(Ok(p@)),
            Reply::Canonical(Err(e)) => ReplyView::Canonical(Err(e@)),
            Reply::IsFile(b) => ReplyView::IsFile(b),
            Reply::Loaded(Ok(s)) => ReplyView::Loaded(Ok(s@)),
            Reply::Loaded(Err(f)) => ReplyView::Loaded(Err(f@)),
        }
    }
}

/// Where a discovery run stands after a step.
#[derive(Debug, PartialEq, Eq)]
pub enum Progress {
    /// The run needs an answer to go on.
    Ask(Request),
    /// The run is over: the declarations in composition order, or the error.
    Done(Result<Vec<EnvSpec>, Error>),
}

/// The mathematical value of [`Progress`].
pub enum ProgressView {
    Ask(RequestView),
    Done(Result<Seq<EnvSpecView>, ErrorView>),
}

impl View for Progress {
    type V = ProgressView;

    open spec fn view(&self) -> ProgressView {
        match *self {
            Progress::Ask(r) => ProgressView::Ask(r@),
            Progress::Done(Ok(specs)) => ProgressView::Done(Ok(specs_view(specs@))),
            Progress::Done(Err(e)) => ProgressView::Done(Err(e@)),
        }
    }
}

/// What a discovery run is waiting for.
#[derive(Debug, Clone, Copy, PartialEq, Eq, Structural)]
pub enum Stage {
    /// The canonical path of a supplied entry.
    SuppliedCanonical,
    /// The declaration of a supplied entry.
    SuppliedLoad,
    /// Whether the starting directory has a declaration file.
    StartProbe,
    /// The canonical path of the declaration file of the starting directory.
    StartCanonical,
    /// The declaration of the starting directory.
    StartLoad,
    /// Whether a directory above has a declaration file.
    WalkProbe,
    /// The canonical path of the declaration file of a directory above.
    WalkCanonical,
    /// The declaration of a directory above.
    WalkLoad,
    /// The canonical path of an entry of a declaration's `includes`.
    IncludedCanonical,
    /// The declaration that an entry of a declaration's `includes` names.
    IncludedLoad,
    /// Whether the starting directory has a local override.
    LocalProbe,
    /// The local override.
    LocalLoad,
    /// Nothing: the run is over.
    Finished,
}

/// The request that goes with a stage.
pub open spec fn request_for(stage: Stage, path: Seq<char>) -> RequestView {
    match stage {
        Stage::SuppliedCanonical | Stage::StartCanonical | Stage::WalkCanonical
        | Stage::IncludedCanonical => RequestView::Canonicalize { path },
        Stage::SuppliedLoad | Stage::StartLoad | Stage::WalkLoad | Stage::IncludedLoad
        | Stage::LocalLoad => RequestView::Load { path },
        Stage::StartProbe | Stage::WalkProbe | Stage::LocalProbe | Stage::Finished => RequestView::IsFile {
            path,
        },
    }
}

/// A declaration loaded in this run, the path by which its file counts as
/// loaded, and how far the loading of its `includes` has got.
#[derive(Debug, PartialEq, Eq)]
pub struct Frame {
    pub spec: EnvSpec,
    /// The path by which the file counts as loaded: its canonical path, or,
    /// for a file of the tree that has none, the path it was loaded from.
    pub key: String,
    /// The number of entries of `includes` already taken up.
    pub next: usize,
}

/// The mathematical value of a [`Frame`].
pub struct FrameView {
    pub spec: EnvSpecView,
    pub key: Seq<char>,
    pub next: nat,
}

impl View for Frame {
    type V = FrameView;

    open spec fn view(&self) -> FrameView {
        FrameView { spec: self.spec@, key: self.key@, next: self.next as nat }
    }
}

impl Clone for Frame {
    fn clone(&self) -> (out: Self)
        ensures
            out@ == self@,
    {
        Frame { spec: self.spec.clone(), key: self.key.clone(), next: self.next }
    }
}

/// The declarations of a list of frames.
pub open spec fn specs_of(frames: Seq<FrameView>) -> Seq<EnvSpecView> {
    frames.map_values(|f: FrameView| f.spec)
}

/// The paths seen, with `key` among them.
pub open spec fn seen_with(seen: Seq<Seq<char>>, key: Seq<char>) -> Seq<Seq<char>> {
    if seen.contains(key) {
        seen
    } else {
        seen.push(key)
    }
}

/// The path by which a file of the tree counts as loaded, given what the
/// file system answered about its canonical form: the canonical path, or
/// the path itself where it has none.
pub open spec fn counted(path: Seq<char>, answer: Result<Seq<char>, Seq<char>>) -> Seq<char> {
    match answer {
        Ok(canonical) => canonical,
        Err(_) => path,
    }
}

/// The mathematical values of a stack of frames.
pub open spec fn frames_view(frames: Seq<Frame>) -> Seq<FrameView> {
    frames.map_values(|f: Frame| f@)
}

/// The error for a declaration file that gave no declaration.
pub open spec fn load_error(path: Seq<char>, failure: LoadFailureView) -> ErrorView {
    match failure {
        LoadFailureView::Unreadable { error } => ErrorView::ReadFailed { path, error },
        LoadFailureView::Malformed { error, yaml_content } => ErrorView::InvalidYaml {
            error,
            yaml_content,
        },
    }
}

/// The message of the error for a reply that does not answer the request.
pub open spec fn out_of_turn_message() -> Seq<char> {
    "Reply does not answer the pending request"@
}

/// The state of a discovery run as a mathematical value.
pub struct DiscoveryView {
    pub no_inherit: bool,
    pub force_inherit: bool,
    /// The supplied entries: the caller's, followed by the environment's.
    pub supplied: Seq<Seq<char>>,
    /// The starting directory, absolute.
    pub start: Seq<char>,
    pub home: Option<Seq<char>>,
    pub stage: Stage,
    /// The path that the pending request is about.
    pub pending: Seq<char>,
    /// The path by which the file that is being loaded counts as loaded.
    pub key: Seq<char>,
    /// The number of supplied entries already taken up.
    pub position: nat,
    /// The files loaded so far in this run, supplied, found in the tree or
    /// included, each by the path it counts by, and none twice.
    pub seen: Seq<Seq<char>>,
    /// The declarations gathered before includes are expanded.
    pub roots: Seq<FrameView>,
    /// The declarations found in the tree so far, outermost first.
    pub found: Seq<FrameView>,
    /// The directory that the walk up the tree has reached.
    pub current: Seq<char>,
    /// The number of roots already taken up for expansion.
    pub cursor: nat,
    /// The declarations whose `includes` are being loaded, innermost last.
    pub stack: Seq<FrameView>,
    /// The result so far.
    pub output: Seq<EnvSpecView>,
}

impl DiscoveryView {
    /// Ends the run with an error.
    pub open spec fn fail(self, error: ErrorView) -> (DiscoveryView, ProgressView) {
        (DiscoveryView { stage: Stage::Finished, ..self }, ProgressView::Done(Err(error)))
    }

    /// Ends the run with the declarations gathered.
    pub open spec fn finish(self) -> (DiscoveryView, ProgressView) {
        (
            DiscoveryView { stage: Stage::Finished, output: Seq::empty(), ..self },
            ProgressView::Done(Ok(self.output)),
        )
    }

    /// Asks about `path` and waits in `stage`.
    pub open spec fn ask(self, stage: Stage, path: Seq<char>) -> (DiscoveryView, ProgressView) {
        (
            DiscoveryView { stage, pending: path, ..self },
            ProgressView::Ask(request_for(stage, path)),
        )
    }

    /// Starts loading the file that `entry` names: asks for the canonical
    /// form of the path it points to, or fails where it points nowhere.
    pub open spec fn load_spec_from_include(
        self,
        entry: Seq<char>,
        base: Option<Seq<char>>,
        stage: Stage,
    ) -> (DiscoveryView, ProgressView) {
        match candidate(entry, base, self.home) {
            Ok(p) => self.ask(stage, p),
            Err(e) => self.fail(e),
        }
    }

    /// Takes up the next supplied entry, or turns to the tree when there is
    /// none left.
    pub open spec fn next_supplied(self) -> (DiscoveryView, ProgressView) {
        if self.position < self.supplied.len() {
            (DiscoveryView { position: self.position + 1, ..self }).load_spec_from_include(
                self.supplied[self.position as int],
                None,
                Stage::SuppliedCanonical,
            )
        } else {
            self.discover_in_tree()
        }
    }

    /// Turns to the tree: asks whether the starting directory has a
    /// declaration file.
    pub open spec fn discover_in_tree(self) -> (DiscoveryView, ProgressView) {
        self.ask(Stage::StartProbe, path_join(self.start, SPENV_FILENAME@))
    }

    /// Goes one directory up, or leaves the tree at its root.
    pub open spec fn climb(self) -> (DiscoveryView, ProgressView) {
        match parent_of(self.current) {
            Some(up) => (DiscoveryView { current: up, ..self }).ask(
                Stage::WalkProbe,
                path_join(up, SPENV_FILENAME@),
            ),
            None => self.leave_tree(),
        }
    }

    /// Ends the walk up the tree: with nothing found the run fails, else the
    /// declarations found join the roots and their includes are expanded.
    pub open spec fn leave_tree(self) -> (DiscoveryView, ProgressView) {
        if self.found.len() == 0 {
            self.fail(ErrorView::NotFoundInTree(self.start))
        } else {
            (DiscoveryView {
                roots: self.roots + self.found,
                found: Seq::empty(),
                ..self
            }).resolve_all_includes()
        }
    }

    /// The number of roots not yet taken up.
    pub open spec fn roots_left(self) -> nat {
        if self.cursor <= self.roots.len() {
            (self.roots.len() - self.cursor) as nat
        } else {
            0
        }
    }

    /// Expands includes until a file has to be asked about: the innermost
    /// declaration's next entry is taken up; a declaration whose entries are
    /// all loaded joins the output, behind what it includes; with no
    /// declaration open the next root is opened; and with no root left the
    /// run turns to the local override.
    pub open spec fn resolve_all_includes(self) -> (DiscoveryView, ProgressView)
        decreases self.roots_left(), self.stack.len(),
    {
        if self.stack.len() > 0 {
            let top = self.stack.last();
            if top.next < top.spec.includes.len() {
                (DiscoveryView {
                    stack: self.stack.drop_last().push(
                        FrameView { next: top.next + 1, ..top },
                    ),
                    ..self
                }).load_spec_from_include(
                    top.spec.includes[top.next as int],
                    top.spec.directory(),
                    Stage::IncludedCanonical,
                )
            } else {
                (DiscoveryView {
                    stack: self.stack.drop_last(),
                    output: self.output.push(top.spec),
                    ..self
                }).resolve_all_includes()
            }
        } else if self.cursor < self.roots.len() {
            (DiscoveryView {
                stack: seq![FrameView { next: 0, ..self.roots[self.cursor as int] }],
                cursor: self.cursor + 1,
                ..self
            }).resolve_all_includes()
        } else {
            self.ask(Stage::LocalProbe, path_join(self.start, SPENV_LOCAL_FILENAME@))
        }
    }

    /// Takes the answer to a request for a canonical path.
    ///
    /// A file of the tree counts as loaded from now on, by its canonical
    /// path, and is loaded from the path it was found at. A file that an
    /// entry leads to is a circular include where its canonical path is that
    /// of a file already loaded in this run; else it counts as loaded from
    /// now on and is loaded from its canonical path.
    pub open spec fn on_canonical(self, answer: Result<Seq<char>, Seq<char>>) -> (
        DiscoveryView,
        ProgressView,
    ) {
        if self.stage == Stage::StartCanonical || self.stage == Stage::WalkCanonical {
            let key = counted(self.pending, answer);
            (DiscoveryView { seen: seen_with(self.seen, key), key, ..self }).ask(
                if self.stage == Stage::StartCanonical {
                    Stage::StartLoad
                } else {
                    Stage::WalkLoad
                },
                self.pending,
            )
        } else {
            match answer {
                Err(reason) => self.fail(
                    ErrorView::IncludeNotFound { path: self.pending, error: reason },
                ),
                Ok(canonical) => if self.seen.contains(canonical) {
                    self.fail(ErrorView::CircularInclude(canonical))
                } else {
                    (DiscoveryView {
                        seen: self.seen.push(canonical),
                        key: canonical,
                        ..self
                    }).ask(
                        if self.stage == Stage::SuppliedCanonical {
                            Stage::SuppliedLoad
                        } else {
                            Stage::IncludedLoad
                        },
                        canonical,
                    )
                },
            }
        }
    }

    /// Takes the answer to whether the pending path is a regular file.
    pub open spec fn on_probe(self, present: bool) -> (DiscoveryView, ProgressView) {
        if self.stage == Stage::StartProbe {
            if present {
                self.ask(Stage::StartCanonical, self.pending)
            } else if self.no_inherit {
                self.fail(ErrorView::NotFoundAtPath(self.start))
            } else {
                (DiscoveryView { current: self.start, ..self }).climb()
            }
        } else if self.stage == Stage::WalkProbe {
            if present {
                self.ask(Stage::WalkCanonical, self.pending)
            } else {
                self.climb()
            }
        } else {
            if present {
                self.ask(Stage::LocalLoad, self.pending)
            } else {
                self.finish()
            }
        }
    }

    /// Takes the declaration loaded from the pending path.
    pub open spec fn on_loaded(self, raw: EnvSpecView) -> (DiscoveryView, ProgressView) {
        let spec = raw.loaded_from(self.pending);
        let frame = FrameView { spec, key: self.key, next: 0 };
        if self.stage == Stage::SuppliedLoad {
            (DiscoveryView { roots: self.roots.push(frame), ..self }).next_supplied()
        } else if self.stage == Stage::StartLoad {
            let found = DiscoveryView {
                found: seq![frame] + self.found,
                current: self.start,
                ..self
            };
            if self.force_inherit || (!self.no_inherit && spec.inherit) {
                found.climb()
            } else {
                found.leave_tree()
            }
        } else if self.stage == Stage::WalkLoad {
            let found = DiscoveryView { found: seq![frame] + self.found, ..self };
            if spec.inherit {
                found.climb()
            } else {
                found.leave_tree()
            }
        } else if self.stage == Stage::IncludedLoad {
            (DiscoveryView { stack: self.stack.push(frame), ..self }).resolve_all_includes()
        } else {
            (DiscoveryView { output: self.output.push(spec), ..self }).finish()
        }
    }

    /// Whether `reply` answers the request that the state is waiting for.
    pub open spec fn expects(self, reply: ReplyView) -> bool {
        match reply {
            ReplyView::Canonical(_) => self.stage == Stage::SuppliedCanonical || self.stage
                == Stage::StartCanonical || self.stage == Stage::WalkCanonical || self.stage
                == Stage::IncludedCanonical,
            ReplyView::IsFile(_) => self.stage == Stage::StartProbe || self.stage
                == Stage::WalkProbe || self.stage == Stage::LocalProbe,
            ReplyView::Loaded(_) => self.stage == Stage::SuppliedLoad || self.stage
                == Stage::StartLoad || self.stage == Stage::WalkLoad || self.stage
                == Stage::IncludedLoad || self.stage == Stage::LocalLoad,
        }
    }

    /// The state and progress after `reply`.
    pub open spec fn next(self, reply: ReplyView) -> (DiscoveryView, ProgressView) {
        if !self.expects(reply) {
            self.fail(ErrorView::ValidationFailed(out_of_turn_message()))
        } else {
            match reply {
                ReplyView::Canonical(answer) => self.on_canonical(answer),
                ReplyView::IsFile(present) => self.on_probe(present),
                ReplyView::Loaded(Ok(raw)) => self.on_loaded(raw),
                ReplyView::Loaded(Err(failure)) => self.fail(load_error(self.pending, failure)),
            }
        }
    }

    /// The state of a run before anything is asked: nothing seen, nothing
    /// gathered.
    pub open spec fn fresh(
        start: Seq<char>,
        options: DiscoveryOptionsView,
        home: Option<Seq<char>>,
    ) -> DiscoveryView {
        DiscoveryView {
            no_inherit: options.no_inherit,
            force_inherit: options.force_inherit,
            supplied: options.cli_includes + options.env_includes,
            start,
            home,
            stage: Stage::Finished,
            pending: Seq::empty(),
            key: Seq::empty(),
            position: 0,
            seen: Seq::empty(),
            roots: Seq::empty(),
            found: Seq::empty(),
            current: start,
            cursor: 0,
            stack: Seq::empty(),
            output: Seq::empty(),
        }
    }

    /// The state and progress at the start of a run.
    pub open spec fn begin(
        start: Seq<char>,
        options: DiscoveryOptionsView,
        home: Option<Seq<char>>,
    ) -> (DiscoveryView, ProgressView) {
        Self::fresh(start, options, home).next_supplied()
    }
}

/// One discovery run: everything it has gathered and what it is waiting for.
#[derive(Debug)]
pub struct Discovery {
    no_inherit: bool,
    force_inherit: bool,
    supplied: Vec<String>,
    start: String,
    home: Option<String>,
    stage: Stage,
    pending: String,
    key: String,
    position: usize,
    seen: Vec<String>,
    roots: Vec<Frame>,
    found: Vec<Frame>,
    current: String,
    cursor: usize,
    stack: Vec<Frame>,
    output: Vec<EnvSpec>,
}

impl View for Discovery {
    type V = DiscoveryView;

    closed spec fn view(&self) -> DiscoveryView {
        DiscoveryView {
            no_inherit: self.no_inherit,
            force_inherit: self.force_inherit,
            supplied: texts(self.supplied@),
            start: self.start@,
            home: opt_text(self.home),
            stage: self.stage,
            pending: self.pending@,
            key: self.key@,
            position: self.position as nat,
            seen: texts(self.seen@),
            roots: frames_view(self.roots@),
            found: frames_view(self.found@),
            current: self.current@,
            cursor: self.cursor as nat,
            stack: frames_view(self.stack@),
            output: specs_view(self.output@),
        }
    }
}

impl Discovery {
    /// What the run is waiting for.
    pub fn stage(&self) -> (stage: Stage)
        ensures
            stage == self@.stage,
    {
        self.stage
    }

    /// Ends the run with `error`.
    fn fail(&mut self, error: Error) -> (progress: Progress)
        ensures
            (final(self)@, progress@) == old(self)@.fail(error@),
    {
        self.stage = Stage::Finished;
        Progress::Done(Err(error))
    }

    /// Ends the run and hands out the declarations gathered.
    fn finish(&mut self) -> (progress: Progress)
        ensures
            (final(self)@, progress@) == old(self)@.finish(),
    {
        let mut specs: Vec<EnvSpec> = Vec::new();
        std::mem::swap(&mut self.output, &mut specs);
        self.stage = Stage::Finished;
        proof {
            assert(specs_view(self.output@) =~= Seq::empty());
        }
        Progress::Done(Ok(specs))
    }

    /// Asks about `path` and waits in `stage`.
    fn ask(&mut self, stage: Stage, path: String) -> (progress: Progress)
        ensures
            (final(self)@, progress@) == old(self)@.ask(stage, path@),
    {
        let request = match stage {
            Stage::SuppliedCanonical | Stage::StartCanonical | Stage::WalkCanonical
            | Stage::IncludedCanonical => Request::Canonicalize { path: path.clone() },
            Stage::SuppliedLoad | Stage::StartLoad | Stage::WalkLoad | Stage::IncludedLoad
            | Stage::LocalLoad => Request::Load { path: path.clone() },
            Stage::StartProbe | Stage::WalkProbe | Stage::LocalProbe | Stage::Finished => Request::IsFile {
                path: path.clone(),
            },
        };
        self.stage = stage;
        self.pending = path;
        Progress::Ask(request)
    }

    /// Starts loading the file that `entry` names.
    fn load_spec_from_include(&mut self, entry: &str, base_dir: Option<&str>, stage: Stage) -> (progress:
        Progress)
        ensures
            (final(self)@, progress@) == old(self)@.load_spec_from_include(
                entry@,
                opt_str(base_dir),
                stage,
            ),
    {
        let resolved = match &self.home {
            Some(h) => resolve_include_path(entry, base_dir, Some(h.as_str())),
            None => resolve_include_path(entry, base_dir, None),
        };
        match resolved {
            Ok(p) => self.ask(stage, p),
            Err(e) => self.fail(e),
        }
    }

    /// Takes up the next supplied entry, or turns to the tree.
    fn next_supplied(&mut self) -> (progress: Progress)
        ensures
            (final(self)@, progress@) == old(self)@.next_supplied(),
    {
        if self.position < self.supplied.len() {
            let entry = self.supplied[self.position].clone();
            self.position = self.position + 1;
            self.load_spec_from_include(entry.as_str(), None, Stage::SuppliedCanonical)
        } else {
            self.discover_in_tree()
        }
    }

    /// Turns to the tree, beginning at the starting directory.
    fn discover_in_tree(&mut self) -> (progress: Progress)
        ensures
            (final(self)@, progress@) == old(self)@.discover_in_tree(),
    {
        let path = join_path(self.start.as_str(), SPENV_FILENAME);
        self.ask(Stage::StartProbe, path)
    }

    /// Goes one directory up, or leaves the tree at its root.
    fn climb(&mut self) -> (progress: Progress)
        ensures
            (final(self)@, progress@) == old(self)@.climb(),
    {
        match parent(self.current.as_str()) {
            Some(up) => {
                let path = join_path(up.as_str(), SPENV_FILENAME);
                self.current = up;
                self.ask(Stage::WalkProbe, path)
            },
            None => self.leave_tree(),
        }
    }

    /// Ends the walk up the tree and turns to the includes of the roots.
    fn leave_tree(&mut self) -> (progress: Progress)
        ensures
            (final(self)@, progress@) == old(self)@.leave_tree(),
    {
        if self.found.len() == 0 {
            let start = self.start.clone();
            self.fail(Error::NotFoundInTree(start))
        } else {
            let ghost roots = self.roots@;
            let ghost found = self.found@;
            self.roots.append(&mut self.found);
            proof {
                assert(frames_view(self.roots@) =~= frames_view(roots) + frames_view(found));
                assert(frames_view(self.found@) =~= Seq::empty());
            }
            self.resolve_all_includes()
        }
    }

    /// Expands includes until a file has to be asked about.
    fn resolve_all_includes(&mut self) -> (progress: Progress)
        ensures
            (final(self)@, progress@) == old(self)@.resolve_all_includes(),
    {
        loop
            invariant
                self@.resolve_all_includes() == old(self)@.resolve_all_includes(),
            decreases self@.roots_left(), self.stack.len(),
        {
            let ghost before = self@;
            let ghost frames = self.stack@;
            match self.stack.pop() {
                Some(top) => {
                    proof {
                        assert(frames_view(frames).last() == top@);
                        assert(frames_view(self.stack@) =~= frames_view(frames).drop_last());
                    }
                    if top.next < top.spec.includes.len() {
                        let entry = top.spec.includes[top.next].clone();
                        let base = match &top.spec.source_path {
                            Some(p) => parent(p.as_str()),
                            None => None,
                        };
                        let ghost rest = self.stack@;
                        self.stack.push(Frame { spec: top.spec, key: top.key, next: top.next + 1 });
                        proof {
                            assert(frames_view(self.stack@) =~= frames_view(rest).push(
                                FrameView { next: top@.next + 1, ..top@ },
                            ));
                            assert(opt_text(base) == top@.spec.directory());
                        }
                        return match &base {
                            Some(b) => self.load_spec_from_include(
                                entry.as_str(),
                                Some(b.as_str()),
                                Stage::IncludedCanonical,
                            ),
                            None => self.load_spec_from_include(
                                entry.as_str(),
                                None,
                                Stage::IncludedCanonical,
                            ),
                        };
                    } else {
                        let ghost output = self.output@;
                        self.output.push(top.spec);
                        proof {
                            assert(specs_view(self.output@) =~= specs_view(output).push(top@.spec));
                        }
                    }
                },
                None => {
                    proof {
                        assert(frames_view(self.stack@) =~= Seq::empty());
                    }
                    if self.cursor < self.roots.len() {
                        let root = self.roots[self.cursor].clone();
                        self.stack.push(Frame { spec: root.spec, key: root.key, next: 0 });
                        self.cursor = self.cursor + 1;
                        proof {
                            assert(frames_view(self.roots@)[before.cursor as int] == root@);
                            assert(frames_view(self.stack@) =~= seq![
                                FrameView { next: 0, ..before.roots[before.cursor as int] },
                            ]);
                        }
                    } else {
                        let path = join_path(self.start.as_str(), SPENV_LOCAL_FILENAME);
                        return self.ask(Stage::LocalProbe, path);
                    }
                },
            }
        }
    }

    /// Takes the answer to a request for a canonical path.
    fn on_canonical(&mut self, answer: Result<String, String>) -> (progress: Progress)
        ensures
            (final(self)@, progress@) == old(self)@.on_canonical(
                match answer {
                    Ok(p) => Ok(p@),
                    Err(e) => Err(e@),
                },
            ),
    {
        match self.stage {
            Stage::StartCanonical | Stage::WalkCanonical => {
                let key = match answer {
                    Ok(canonical) => canonical,
                    Err(_) => self.pending.clone(),
                };
                if !contains_text(&self.seen, key.as_str()) {
                    let ghost seen = self.seen@;
                    self.seen.push(key.clone());
                    proof {
                        assert(texts(self.seen@) =~= texts(seen).push(key@));
                    }
                }
                let stage = match self.stage {
                    Stage::StartCanonical => Stage::StartLoad,
                    _ => Stage::WalkLoad,
                };
                self.key = key;
                let path = self.pending.clone();
                self.ask(stage, path)
            },
            _ => match answer {
                Err(reason) => {
                    let path = self.pending.clone();
                    self.fail(Error::IncludeNotFound { path, error: reason })
                },
                Ok(canonical) => {
                    if contains_text(&self.seen, canonical.as_str()) {
                        self.fail(Error::CircularInclude(canonical))
                    } else {
                        let ghost seen = self.seen@;
                        self.seen.push(canonical.clone());
                        proof {
                            assert(texts(self.seen@) =~= texts(seen).push(canonical@));
                        }
                        let stage = match self.stage {
                            Stage::SuppliedCanonical => Stage::SuppliedLoad,
                            _ => Stage::IncludedLoad,
                        };
                        self.key = canonical.clone();
                        self.ask(stage, canonical)
                    }
                },
            },
        }
    }

    /// Takes the answer to whether the pending path is a regular file.
    fn on_probe(&mut self, present: bool) -> (progress: Progress)
        ensures
            (final(self)@, progress@) == old(self)@.on_probe(present),
    {
        match self.stage {
            Stage::StartProbe => {
                if present {
                    let path = self.pending.clone();
                    self.ask(Stage::StartCanonical, path)
                } else if self.no_inherit {
                    let start = self.start.clone();
                    self.fail(Error::NotFoundAtPath(start))
                } else {
                    self.current = self.start.clone();
                    self.climb()
                }
            },
            Stage::WalkProbe => {
                if present {
                    let path = self.pending.clone();
                    self.ask(Stage::WalkCanonical, path)
                } else {
                    self.climb()
                }
            },
            _ => {
                if present {
                    let path = self.pending.clone();
                    self.ask(Stage::LocalLoad, path)
                } else {
                    self.finish()
                }
            },
        }
    }

    /// Takes the declaration loaded from the pending path.
    fn on_loaded(&mut self, raw: EnvSpec) -> (progress: Progress)
        ensures
            (final(self)@, progress@) == old(self)@.on_loaded(raw@),
    {
        let mut spec = raw;
        spec.source_path = Some(self.pending.clone());
        assert(spec@ == raw@.loaded_from(self.pending@));
        let inherit = spec.inherit;
        match self.stage {
            Stage::SuppliedLoad => {
                let ghost roots = self.roots@;
                let frame = Frame { spec, key: self.key.clone(), next: 0 };
                self.roots.push(frame);
                proof {
                    assert(frames_view(self.roots@) =~= frames_view(roots).push(frame@));
                }
                self.next_supplied()
            },
            Stage::StartLoad => {
                let ghost found = self.found@;
                let frame = Frame { spec, key: self.key.clone(), next: 0 };
                self.found.insert(0, frame);
                self.current = self.start.clone();
                proof {
                    assert(frames_view(self.found@) =~= seq![frame@] + frames_view(found));
                }
                if self.force_inherit || (!self.no_inherit && inherit) {
                    self.climb()
                } else {
                    self.leave_tree()
                }
            },
            Stage::WalkLoad => {
                let ghost found = self.found@;
                let frame = Frame { spec, key: self.key.clone(), next: 0 };
                self.found.insert(0, frame);
                proof {
                    assert(frames_view(self.found@) =~= seq![frame@] + frames_view(found));
                }
                if inherit {
                    self.climb()
                } else {
                    self.leave_tree()
                }
            },
            Stage::IncludedLoad => {
                let ghost frames = self.stack@;
                let frame = Frame { spec, key: self.key.clone(), next: 0 };
                self.stack.push(frame);
                proof {
                    assert(frames_view(self.stack@) =~= frames_view(frames).push(frame@));
                }
                self.resolve_all_includes()
            },
            _ => {
                let ghost output = self.output@;
                self.output.push(spec);
                proof {
                    assert(specs_view(self.output@) =~= specs_view(output).push(spec@));
                }
                self.finish()
            },
        }
    }

    /// Takes the answer to the pending request and says how the run goes on.
    ///
    /// A reply of the wrong kind, or any reply once the run is over, ends the
    /// run with [`Error::ValidationFailed`]. A run that remembers the files
    /// it has loaded, each once, goes on doing so.
    pub fn advance(&mut self, reply: Reply) -> (progress: Progress)
        ensures
            (final(self)@, progress@) == old(self)@.next(reply@),
            remembers(old(self)@) ==> remembers(final(self)@),
    {
        proof {
            if remembers(self@) {
                lemma_step_remembers(self@, reply@);
            }
        }
        match reply {
            Reply::Canonical(answer) => {
                match self.stage {
                    Stage::SuppliedCanonical | Stage::StartCanonical | Stage::WalkCanonical
                    | Stage::IncludedCanonical => self.on_canonical(answer),
                    _ => self.out_of_turn(),
                }
            },
            Reply::IsFile(present) => {
                match self.stage {
                    Stage::StartProbe | Stage::WalkProbe | Stage::LocalProbe => self.on_probe(present),
                    _ => self.out_of_turn(),
                }
            },
            Reply::Loaded(loaded) => {
                match self.stage {
                    Stage::SuppliedLoad | Stage::StartLoad | Stage::WalkLoad | Stage::IncludedLoad
                    | Stage::LocalLoad => match loaded {
                        Ok(raw) => self.on_loaded(raw),
                        Err(LoadFailure::Unreadable { error }) => {
                            let path = self.pending.clone();
                            self.fail(Error::ReadFailed { path, error })
                        },
                        Err(LoadFailure::Malformed { error, yaml_content }) => self.fail(
                            Error::InvalidYaml { error, yaml_content },
                        ),
                    },
                    _ => self.out_of_turn(),
                }
            },
        }
    }

    /// Ends the run because a reply did not answer the pending request.
    fn out_of_turn(&mut self) -> (progress: Progress)
        ensures
            (final(self)@, progress@) == old(self)@.fail(
                ErrorView::ValidationFailed(out_of_turn_message()),
            ),
    {
        self.fail(Error::ValidationFailed("Reply does not answer the pending request".to_owned()))
    }
}

/// Forgets which files this run has loaded. A run that goes on after this
/// catches only the circular includes among the files it loads from here on.
pub fn clear_seen_spec_cache(session: &mut Discovery)
    ensures
        final(session)@ == (DiscoveryView { seen: Seq::empty(), ..old(session)@ }),
{
    session.seen.clear();
    proof {
        assert(texts(session.seen@) =~= Seq::empty());
    }
}

/// Starts a discovery run from `start_path` and says what it needs first.
///
/// `home` is the caller's home directory, `pwd` the working directory as the
/// caller's shell names it, and `cwd` the working directory of the process.
/// The run starts with nothing seen and nothing gathered, and remembers
/// the files it loads, each once, from here on.
pub fn discover_specs(
    start_path: &str,
    options: &DiscoveryOptions,
    home: Option<&str>,
    pwd: Option<&str>,
    cwd: &str,
) -> (out: (Discovery, Progress))
    ensures
        (out.0@, out.1@) == DiscoveryView::begin(
            resolved_start(start_path@, opt_str(pwd), cwd@),
            options@,
            opt_str(home),
        ),
        remembers(out.0@),
{
    proof {
        lemma_begin_remembers(
            resolved_start(start_path@, opt_str(pwd), cwd@),
            options@,
            opt_str(home),
        );
    }
    let start = resolve_start_path(start_path, pwd, cwd);
    let mut supplied = clone_texts(&options.cli_includes);
    extend_texts(&mut supplied, &options.env_includes);
    let mut session = Discovery {
        no_inherit: options.no_inherit,
        force_inherit: options.force_inherit,
        supplied,
        current: start.clone(),
        start,
        home: match home {
            Some(h) => Some(h.to_owned()),
            None => None,
        },
        stage: Stage::Finished,
        pending: String::new(),
        key: String::new(),
        position: 0,
        seen: Vec::new(),
        roots: Vec::new(),
        found: Vec::new(),
        cursor: 0,
        stack: Vec::new(),
        output: Vec::new(),
    };
    proof {
        assert(texts(session.seen@) =~= Seq::empty());
        assert(frames_view(session.roots@) =~= Seq::empty());
        assert(frames_view(session.found@) =~= Seq::empty());
        assert(specs_view(session.output@) =~= Seq::empty());
        assert(frames_view(session.stack@) =~= Seq::empty());
    }
    let progress = session.next_supplied();
    (session, progress)
}

} // verus!
