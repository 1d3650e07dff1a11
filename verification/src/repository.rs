//! Which package repositories a run may use.

use vstd::prelude::*;
use crate::text::{clone_texts, contains_text, texts};

verus! {

/// Repository selection as given on the command line or by the environment.
#[derive(Debug, PartialEq, Eq)]
pub struct RepoSelection {
    /// Repositories to use besides the default ones.
    pub enable_repo: Vec<String>,
    /// Repositories not to use.
    pub disable_repo: Vec<String>,
    /// Leave the local repository out.
    pub no_local_repo: bool,
    /// Use the local repository and no other.
    pub local_repo_only: bool,
}

/// The mathematical value of a [`RepoSelection`].
pub struct RepoSelectionView {
    pub enable_repo: Seq<Seq<char>>,
    pub disable_repo: Seq<Seq<char>>,
    pub no_local_repo: bool,
    pub local_repo_only: bool,
}

impl View for RepoSelection {
    type V = RepoSelectionView;

    open spec fn view(&self) -> RepoSelectionView {
        RepoSelectionView {
            enable_repo: texts(self.enable_repo@),
            disable_repo: texts(self.disable_repo@),
            no_local_repo: self.no_local_repo,
            local_repo_only: self.local_repo_only,
        }
    }
}

impl Default for RepoSelection {
    fn default() -> (selection: Self)
        ensures
            selection@ == (RepoSelectionView {
                enable_repo: Seq::empty(),
                disable_repo: Seq::empty(),
                no_local_repo: false,
                local_repo_only: false,
            }),
    {
        let selection = RepoSelection {
            enable_repo: Vec::new(),
            disable_repo: Vec::new(),
            no_local_repo: false,
            local_repo_only: false,
        };
        proof {
            assert(texts(selection.enable_repo@) =~= Seq::empty());
            assert(texts(selection.disable_repo@) =~= Seq::empty());
        }
        selection
    }
}

impl Clone for RepoSelection {
    fn clone(&self) -> (out: Self)
        ensures
            out@ == self@,
    {
        RepoSelection {
            enable_repo: clone_texts(&self.enable_repo),
            disable_repo: clone_texts(&self.disable_repo),
            no_local_repo: self.no_local_repo,
            local_repo_only: self.local_repo_only,
        }
    }
}

/// The repositories to open, in order.
#[derive(Debug, PartialEq, Eq)]
pub struct RepoPlan {
    /// Whether the local repository is tried first; it is passed over
    /// where it cannot be opened.
    pub local_first: bool,
    /// The names to open after that, in order. A name opened again replaces
    /// its earlier entry. A missing `origin` is passed over; any other
    /// failure is an error.
    pub named: Vec<String>,
}

/// The mathematical value of a [`RepoPlan`].
pub struct RepoPlanView {
    pub local_first: bool,
    pub named: Seq<Seq<char>>,
}

impl View for RepoPlan {
    type V = RepoPlanView;

    open spec fn view(&self) -> RepoPlanView {
        RepoPlanView { local_first: self.local_first, named: texts(self.named@) }
    }
}

/// The names of `names` that `disabled` does not hold, in order.
pub open spec fn enabled_names(names: Seq<Seq<char>>, disabled: Seq<Seq<char>>) -> Seq<Seq<char>> {
    names.filter(|n: Seq<char>| !disabled.contains(n))
}

/// The repositories that `selection` asks for.
pub open spec fn repo_plan(selection: RepoSelectionView) -> RepoPlanView {
    RepoPlanView {
        local_first: !selection.no_local_repo && !selection.disable_repo.contains("local"@),
        named: if selection.local_repo_only {
            Seq::empty()
        } else {
            enabled_names(selection.enable_repo.push("origin"@), selection.disable_repo)
        },
    }
}

/// Says which repositories to open for `selection`, and in which order.
///
/// The local repository comes first unless it is switched off or disabled.
/// Unless only the local one is wanted, the enabled repositories follow in
/// the order given, and `origin` last, each unless it is disabled.
pub fn resolve_spk_repositories(selection: &RepoSelection) -> (plan: RepoPlan)
    ensures
        plan@ == repo_plan(selection@),
{
    let local_first = !selection.no_local_repo && !contains_text(&selection.disable_repo, "local");
    let mut named: Vec<String> = Vec::new();
    if !selection.local_repo_only {
        let mut wanted = clone_texts(&selection.enable_repo);
        let ghost enabled = wanted@;
        wanted.push("origin".to_owned());
        let ghost names = texts(wanted@);
        let ghost disabled = texts(selection.disable_repo@);
        let ghost keep = |n: Seq<char>| !disabled.contains(n);
        proof {
            reveal(Seq::filter);
            assert(names =~= texts(enabled).push("origin"@));
            assert(names.take(0) =~= Seq::empty());
            assert(texts(named@) =~= Seq::empty());
        }
        let mut i: usize = 0;
        while i < wanted.len()
            invariant
                i <= wanted.len(),
                names == texts(wanted@),
                disabled == texts(selection.disable_repo@),
                keep == (|n: Seq<char>| !disabled.contains(n)),
                texts(named@) == names.take(i as int).filter(keep),
            decreases wanted.len() - i,
        {
            let ghost before = named@;
            proof {
                reveal(Seq::filter);
                assert(names.take(i + 1).drop_last() =~= names.take(i as int));
                assert(names.take(i + 1).last() == names[i as int]);
            }
            if !contains_text(&selection.disable_repo, wanted[i].as_str()) {
                named.push(wanted[i].clone());
                proof {
                    assert(texts(named@) =~= texts(before).push(names[i as int]));
                }
            }
            i = i + 1;
        }
        proof {
            assert(names.take(wanted.len() as int) =~= names);
        }
    } else {
        proof {
            assert(texts(named@) =~= Seq::empty());
        }
    }
    RepoPlan { local_first, named }
}

} // verus!
