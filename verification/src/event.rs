use vstd::prelude::*;
use crate::path::Path;
use crate::preview::{PreviewData, PreviewDataM};

verus! {

/// An outbound effect of the core: a fire-and-forget signal for the render
/// loop, or a request that a background task must perform. The core only
/// appends these to its outbox; the surrounding runtime drains the outbox,
/// performs each effect, and feeds results back through the `update_*`
/// entry points.
pub enum Event {
    /// The cursor moved; re-render the hover-dependent panes.
    Hover,
    /// The user confirmed leaving; shut the process down.
    Quit,
    /// Show a produced preview artifact for the given path.
    PreviewShow { path: Path, data: PreviewData },
    /// Force an immediate re-check of one watched directory.
    Trigger { path: Path },
    /// Replace the set of watched directories.
    Watch { paths: Vec<Path> },
    /// Probe the mimetypes of the given paths in the background.
    ProbeMime { paths: Vec<Path> },
    /// Ask the user whether to quit while this many jobs are running.
    PromptQuit { jobs: u64 },
    /// Ask the user for the name of an entry to create under `cwd`.
    PromptCreate { cwd: Path },
    /// Ask the user for a new name for the entry at `target`.
    PromptRename { target: Path },
    /// Pre-warm the image and video caches for newly known mimetypes.
    Precache { mimes: Vec<(Path, String)> },
    /// Link the yanked sources into the destination directory.
    FileLink { src: Vec<Path>, dest: Path, relative: bool, force: bool },
}

/// The abstract value of an `Event`.
pub ghost enum EventM {
    Hover,
    Quit,
    PreviewShow { path: Seq<Seq<char>>, data: PreviewDataM },
    Trigger { path: Seq<Seq<char>> },
    Watch { paths: Seq<Seq<Seq<char>>> },
    ProbeMime { paths: Seq<Seq<Seq<char>>> },
    PromptQuit { jobs: u64 },
    PromptCreate { cwd: Seq<Seq<char>> },
    PromptRename { target: Seq<Seq<char>> },
    Precache { mimes: Seq<(Seq<Seq<char>>, Seq<char>)> },
    FileLink { src: Seq<Seq<Seq<char>>>, dest: Seq<Seq<char>>, relative: bool, force: bool },
}

/// The abstract value of a list of path/mimetype pairs.
pub open spec fn mimes_view(v: Seq<(Path, String)>) -> Seq<(Seq<Seq<char>>, Seq<char>)> {
    Seq::new(v.len(), |i: int| (v[i].0@, v[i].1@))
}

impl Event {
    pub open spec fn m(&self) -> EventM {
        match self {
            Event::Hover => EventM::Hover,
            Event::Quit => EventM::Quit,
            Event::PreviewShow { path, data } => EventM::PreviewShow {
                path: path@,
                data: data.m(),
            },
            Event::Trigger { path } => EventM::Trigger { path: path@ },
            Event::Watch { paths } => EventM::Watch { paths: crate::path::paths_view(paths@) },
            Event::ProbeMime { paths } => EventM::ProbeMime {
                paths: crate::path::paths_view(paths@),
            },
            Event::PromptQuit { jobs } => EventM::PromptQuit { jobs: *jobs },
            Event::PromptCreate { cwd } => EventM::PromptCreate { cwd: cwd@ },
            Event::PromptRename { target } => EventM::PromptRename { target: target@ },
            Event::Precache { mimes } => EventM::Precache { mimes: mimes_view(mimes@) },
            Event::FileLink { src, dest, relative, force } => EventM::FileLink {
                src: crate::path::paths_view(src@),
                dest: dest@,
                relative: *relative,
                force: *force,
            },
        }
    }
}

/// The abstract value of the outbox.
pub open spec fn events_view(v: Seq<Event>) -> Seq<EventM> {
    Seq::new(v.len(), |i: int| v[i].m())
}

} // verus!
