//! From a configured path to the file that it stands for.

use vstd::prelude::*;

use crate::key_files::{Action, Answer, Event, PathId};

verus! {

/// How many links are followed from one path.
pub const MAX_KEY_SYMLINKS: usize = 40;

/// Why a path was not resolved.
#[derive(Clone, Copy, PartialEq, Eq, Structural, Debug)]
pub enum ResolveError {
    /// A further link is at this path, after as many as are followed.
    TooManySymlinks(PathId),
    /// What is at this path could not be told.
    Inspect(PathId),
    /// The link at this path could not be read.
    ReadLink(PathId),
}

/// The search for the file that a path stands for.
#[derive(Clone, Copy, PartialEq, Eq, Structural, Debug)]
pub enum Resolve {
    /// Find out what is at `path`, after `hops` links.
    Inspect { path: PathId, hops: usize },
    /// Follow the link at `path`, after `hops` others.
    Follow { path: PathId, hops: usize },
    /// The path stands for this one, where no link is.
    Resolved(PathId),
    Failed(ResolveError),
}

impl Resolve {
    /// No more links were followed than may be.
    pub open spec fn wf(self) -> bool {
        match self {
            Resolve::Inspect { path, hops } => hops <= MAX_KEY_SYMLINKS,
            Resolve::Follow { path, hops } => hops < MAX_KEY_SYMLINKS,
            _ => true,
        }
    }

    /// What is asked for in this state.
    pub open spec fn request(self) -> Option<Action> {
        match self {
            Resolve::Inspect { path, hops } => Some(Action::Inspect(path)),
            Resolve::Follow { path, hops } => Some(Action::FollowLink(path)),
            _ => None,
        }
    }

    /// The state after an answer: a link is followed while there are fewer than
    /// `MAX_KEY_SYMLINKS`, and the search ends where there is none.
    pub open spec fn after(self, answer: Answer) -> Resolve {
        match (self, answer) {
            (Resolve::Inspect { path, hops }, Answer::Symlink) => if hops < MAX_KEY_SYMLINKS {
                Resolve::Follow { path, hops }
            } else {
                Resolve::Failed(ResolveError::TooManySymlinks(path))
            },
            (Resolve::Inspect { path, hops }, Answer::Done) => Resolve::Resolved(path),
            (Resolve::Inspect { path, hops }, Answer::NotFound) => Resolve::Resolved(path),
            (Resolve::Inspect { path, hops }, _) => Resolve::Failed(ResolveError::Inspect(path)),
            (Resolve::Follow { path, hops }, Answer::Link(target)) => Resolve::Inspect {
                path: target,
                hops: (hops + 1) as usize,
            },
            (Resolve::Follow { path, hops }, _) => Resolve::Failed(ResolveError::ReadLink(path)),
            (done, _) => done,
        }
    }

    /// How many requests there can still be.
    pub open spec fn rank(self) -> nat {
        match self {
            Resolve::Inspect { path, hops } => if hops <= MAX_KEY_SYMLINKS {
                (2 * (MAX_KEY_SYMLINKS - hops) + 1) as nat
            } else {
                1
            },
            Resolve::Follow { path, hops } => if hops <= MAX_KEY_SYMLINKS {
                (2 * (MAX_KEY_SYMLINKS - hops)) as nat
            } else {
                1
            },
            _ => 0,
        }
    }

    /// What is asked for in this state.
    pub fn action(&self) -> (r: Option<Action>)
        ensures
            r == self.request(),
    {
        match *self {
            Resolve::Inspect { path, hops } => Some(Action::Inspect(path)),
            Resolve::Follow { path, hops } => Some(Action::FollowLink(path)),
            _ => None,
        }
    }

    /// Takes the answer to what was asked for.
    pub fn step(self, event: &Event) -> (r: Resolve)
        requires
            self.wf(),
        ensures
            r == self.after(event@),
            r.wf(),
    {
        match self {
            Resolve::Inspect { path, hops } => match event {
                Event::Symlink => if hops < MAX_KEY_SYMLINKS {
                    Resolve::Follow { path, hops }
                } else {
                    Resolve::Failed(ResolveError::TooManySymlinks(path))
                },
                Event::Done => Resolve::Resolved(path),
                Event::NotFound => Resolve::Resolved(path),
                _ => Resolve::Failed(ResolveError::Inspect(path)),
            },
            Resolve::Follow { path, hops } => match event {
                Event::Link(target) => Resolve::Inspect { path: *target, hops: hops + 1 },
                _ => Resolve::Failed(ResolveError::ReadLink(path)),
            },
            done => done,
        }
    }
}

/// Starts the search for the file that `path` stands for.
pub fn resolve_key_path(path: PathId) -> (r: Resolve)
    ensures
        r == resolving(path),
        r.wf(),
{
    Resolve::Inspect { path, hops: 0 }
}

/// The search for the file that `path` stands for, before its first request.
pub open spec fn resolving(path: PathId) -> Resolve {
    Resolve::Inspect { path, hops: 0 }
}

/// Whatever the answers, and so even while links change, each of them brings the end of the search
/// nearer.
pub proof fn resolving_is_bounded(state: Resolve, answer: Answer)
    requires
        state.wf(),
        state.request() is Some,
    ensures
        state.after(answer).wf(),
        state.after(answer).rank() < state.rank(),
        state.rank() <= 2 * MAX_KEY_SYMLINKS + 1,
{
}

/// Where `path` leads when at most `hops` links are followed.
pub open spec fn leads_to(links: Map<PathId, PathId>, path: PathId, hops: nat) -> Option<PathId>
    decreases hops,
{
    if !links.contains_key(path) {
        Some(path)
    } else if hops == 0 {
        None
    } else {
        leads_to(links, links[path], (hops - 1) as nat)
    }
}

/// The path that is `hops` links away from `path`, where there are so many.
pub open spec fn hops_away(links: Map<PathId, PathId>, path: PathId, hops: nat) -> PathId
    decreases hops,
{
    if hops == 0 {
        path
    } else {
        hops_away(links, links[path], (hops - 1) as nat)
    }
}

/// What is answered in a state where the links are `links` and stay so.
pub open spec fn honest_answer(links: Map<PathId, PathId>, state: Resolve) -> Answer {
    match state {
        Resolve::Inspect { path, hops } => if links.contains_key(path) {
            Answer::Symlink
        } else {
            Answer::Done
        },
        Resolve::Follow { path, hops } => Answer::Link(links[path]),
        _ => Answer::Done,
    }
}

/// How a search ends where the links are `links` and stay so.
pub open spec fn search_end(links: Map<PathId, PathId>, state: Resolve) -> Resolve
    decreases state.rank(),
{
    if state.wf() && state.request() is Some {
        search_end(links, state.after(honest_answer(links, state)))
    } else {
        state
    }
}

/// A path that leads to a file over at most `MAX_KEY_SYMLINKS` links is resolved to it. One that
/// leads further, or in a circle, is refused for having too many.
pub proof fn search_follows_links(links: Map<PathId, PathId>, path: PathId)
    ensures
        match leads_to(links, path, MAX_KEY_SYMLINKS as nat) {
            Some(target) => search_end(links, resolving(path)) == Resolve::Resolved(target),
            None => search_end(links, resolving(path)) == Resolve::Failed(
                ResolveError::TooManySymlinks(hops_away(links, path, MAX_KEY_SYMLINKS as nat)),
            ),
        },
{
    lemma_search_follows_links(links, path, 0);
}

proof fn lemma_search_follows_links(links: Map<PathId, PathId>, path: PathId, hops: usize)
    requires
        hops <= MAX_KEY_SYMLINKS,
    ensures
        match leads_to(links, path, (MAX_KEY_SYMLINKS - hops) as nat) {
            Some(target) => search_end(links, Resolve::Inspect { path, hops })
                == Resolve::Resolved(target),
            None => search_end(links, Resolve::Inspect { path, hops }) == Resolve::Failed(
                ResolveError::TooManySymlinks(
                    hops_away(links, path, (MAX_KEY_SYMLINKS - hops) as nat),
                ),
            ),
        },
    decreases MAX_KEY_SYMLINKS - hops,
{
    reveal_with_fuel(search_end, 3);
    if links.contains_key(path) && hops < MAX_KEY_SYMLINKS {
        lemma_search_follows_links(links, links[path], (hops + 1) as usize);
    }
}

/// Links that lead in a circle lead nowhere.
pub proof fn circle_leads_nowhere(
    links: Map<PathId, PathId>,
    circle: Set<PathId>,
    path: PathId,
    hops: nat,
)
    requires
        circle.contains(path),
        forall|p: PathId| #[trigger]
            circle.contains(p) ==> links.contains_key(p) && circle.contains(links[p]),
    ensures
        leads_to(links, path, hops) is None,
    decreases hops,
{
    if hops > 0 {
        circle_leads_nowhere(links, circle, links[path], (hops - 1) as nat);
    }
}

}
