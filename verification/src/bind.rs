//! Bind mounts declared under `contents:`.

use vstd::prelude::*;
use crate::error::{Error, ErrorView};
use crate::path::{anchor, anchored, no_home_message, opt_str};

verus! {

/// A host path to be mounted at a place inside the runtime.
#[derive(Debug, PartialEq, Eq)]
pub struct BindMount {
    /// Source path on the host: absolute, relative, or starting with `~/`.
    pub bind: String,
    /// Destination path inside the runtime.
    pub dest: String,
    /// Whether the mount is read-only.
    pub readonly: bool,
}

/// The mathematical value of a [`BindMount`].
pub struct BindMountView {
    pub bind: Seq<char>,
    pub dest: Seq<char>,
    pub readonly: bool,
}

impl View for BindMount {
    type V = BindMountView;

    open spec fn view(&self) -> BindMountView {
        BindMountView { bind: self.bind@, dest: self.dest@, readonly: self.readonly }
    }
}

impl Clone for BindMount {
    fn clone(&self) -> (out: Self)
        ensures
            out@ == self@,
    {
        BindMount { bind: self.bind.clone(), dest: self.dest.clone(), readonly: self.readonly }
    }
}

/// A bind mount as a live layer takes it: a canonical source and a destination.
#[derive(Debug, PartialEq, Eq)]
pub struct LiveLayerBind {
    pub src: String,
    pub dest: String,
}

/// The mathematical value of a [`LiveLayerBind`].
pub struct LiveLayerBindView {
    pub src: Seq<char>,
    pub dest: Seq<char>,
}

impl View for LiveLayerBind {
    type V = LiveLayerBindView;

    open spec fn view(&self) -> LiveLayerBindView {
        LiveLayerBindView { src: self.src@, dest: self.dest@ }
    }
}

/// The message for a bind source that cannot be made canonical.
pub open spec fn bad_source_message(source: Seq<char>, error: Seq<char>) -> Seq<char> {
    "Bind mount source not found or invalid: "@ + source + " ("@ + error + ")"@
}

/// The mathematical values of a list of bind mounts.
pub open spec fn binds_view(binds: Seq<BindMount>) -> Seq<BindMountView> {
    binds.map_values(|b: BindMount| b@)
}

/// Appends copies of the bind mounts of `more` to `list`, in order.
pub fn extend_binds(list: &mut Vec<BindMount>, more: &Vec<BindMount>)
    ensures
        binds_view(final(list)@) == binds_view(old(list)@) + binds_view(more@),
{
    let mut i: usize = 0;
    while i < more.len()
        invariant
            i <= more.len(),
            binds_view(list@) == binds_view(old(list)@) + binds_view(more@).take(i as int),
        decreases more.len() - i,
    {
        let ghost before = list@;
        list.push(more[i].clone());
        proof {
            assert(binds_view(list@) =~= binds_view(before).push(more[i as int]@));
            assert(binds_view(more@).take(i + 1) =~= binds_view(more@).take(i as int).push(
                more[i as int]@,
            ));
        }
        i = i + 1;
    }
    proof {
        assert(binds_view(more@).take(more.len() as int) =~= binds_view(more@));
    }
}

/// A copy of `binds` with equal contents.
pub fn clone_binds(binds: &Vec<BindMount>) -> (out: Vec<BindMount>)
    ensures
        binds_view(out@) == binds_view(binds@),
{
    let mut out: Vec<BindMount> = Vec::new();
    extend_binds(&mut out, binds);
    assert(binds_view(Seq::<BindMount>::empty()) + binds_view(binds@) =~= binds_view(binds@));
    out
}

impl BindMount {
    /// Where the source of this mount lies on the host, before it is made
    /// canonical: below the home directory, as written, or below `spec_dir`,
    /// the directory of the declaration that names it.
    pub fn source_path(&self, spec_dir: &str, home: Option<&str>) -> (out: Result<String, Error>)
        ensures
            match out {
                Ok(p) => anchored(self.bind@, Some(spec_dir@), opt_str(home)) == Some(p@),
                Err(e) => anchored(self.bind@, Some(spec_dir@), opt_str(home)) is None && e@
                    == ErrorView::ValidationFailed(no_home_message()),
            },
    {
        anchor(self.bind.as_str(), spec_dir, home)
    }

    /// The live-layer form of this mount, given what making `source`
    /// canonical gave: the canonical path, or the reason it has none.
    pub fn to_live_layer_bind(&self, source: &str, canonical: Result<String, String>) -> (out:
        Result<LiveLayerBind, Error>)
        ensures
            match canonical {
                Ok(c) => out matches Ok(live) && live@ == (LiveLayerBindView {
                    src: c@,
                    dest: self.dest@,
                }),
                Err(reason) => out matches Err(e) && e@ == ErrorView::ValidationFailed(
                    bad_source_message(source@, reason@),
                ),
            },
    {
        match canonical {
            Ok(c) => Ok(LiveLayerBind { src: c, dest: self.dest.clone() }),
            Err(reason) => {
                let mut message = "Bind mount source not found or invalid: ".to_owned();
                message.append(source);
                message.append(" (");
                message.append(reason.as_str());
                message.append(")");
                assert(message@ =~= bad_source_message(source@, reason@));
                Err(Error::ValidationFailed(message))
            },
        }
    }
}

} // verus!
