use vstd::prelude::*;
use crate::event::{events_view, mimes_view, Event, EventM};
use crate::file::{files_view, File, FileM, FilesOp};
use crate::folder::{folder_update, Folder, FolderM};
use crate::mime::{cache_wf, mime_of};
use crate::path::{dup_paths, paths_view, split_name, split_segs, ends_with_sep, Path};
use crate::preview::{PreviewData, PreviewDataM, PreviewM};
use crate::tab::{Tab, TabM};
use crate::tabs::{idx_after_close, tabs_view, Tabs};

verus! {

/// The root orchestrator: the tabs, the clipboard of the last yank, the
/// mimetype cache, and the outbox of effects for the surrounding runtime.
/// Every entry point mutates state synchronously, appends the effects it
/// wants performed to the outbox, and reports whether a re-render is due.
pub struct Manager {
    pub tabs: Tabs,
    pub yanked: (bool, Vec<Path>),
    pub mimetype: Vec<(Path, String)>,
    pub events: Vec<Event>,
}

impl Manager {
    pub open spec fn wf(&self) -> bool {
        &&& self.tabs.wf()
        &&& cache_wf(mimes_view(self.mimetype@))
    }

    /// The abstract value of the active tab.
    pub open spec fn active_m(&self) -> TabM {
        self.tabs.m()[self.tabs.idx as int]
    }

    /// The abstract value of the active tab's current folder.
    pub open spec fn current_m(&self) -> FolderM {
        self.active_m().current
    }

    /// The abstract value of the hovered entry, if any.
    pub open spec fn hovered_m(&self) -> Option<FileM> {
        self.current_m().hovered_file()
    }

    /// The abstract value of the outbox.
    pub open spec fn events_m(&self) -> Seq<EventM> {
        events_view(self.events@)
    }

    /// What a command acts on: the current folder's multi-select set when it
    /// is non-empty, else the hovered entry alone, else nothing.
    pub open spec fn selection_m(&self) -> Seq<Seq<Seq<char>>> {
        if self.current_m().selected.len() > 0 {
            self.current_m().selected
        } else {
            match self.hovered_m() {
                Some(f) => seq![f.path],
                None => Seq::empty(),
            }
        }
    }

    /// A manager with one tab at the filesystem root, nothing yanked, an
    /// empty mimetype cache and an empty outbox.
    pub fn new() -> (r: Manager)
        ensures
            r.wf(),
            r.tabs.idx == 0,
            r.tabs.m() == seq![crate::tab::fresh_tab(Seq::<Seq<char>>::empty())],
            r.yanked.0 == false,
            r.yanked.1@.len() == 0,
            r.mimetype@.len() == 0,
            r.events@.len() == 0,
    {
        let root = Path::root();
        Manager {
            tabs: Tabs::new(&root),
            yanked: (false, Vec::new()),
            mimetype: Vec::new(),
            events: Vec::new(),
        }
    }

    /// Appends one effect to the outbox.
    fn emit(&mut self, e: Event)
        ensures
            final(self).tabs == old(self).tabs,
            final(self).yanked == old(self).yanked,
            final(self).mimetype == old(self).mimetype,
            final(self).events_m() == old(self).events_m().push(e.m()),
    {
        self.events.push(e);
        proof {
            assert(self.events_m() =~= old(self).events_m().push(self.events@.last().m()));
        }
    }

    /// Hands the accumulated effects out and empties the outbox.
    pub fn take_events(&mut self) -> (r: Vec<Event>)
        ensures
            final(self).tabs == old(self).tabs,
            final(self).yanked == old(self).yanked,
            final(self).mimetype == old(self).mimetype,
            final(self).events@.len() == 0,
            events_view(r@) == old(self).events_m(),
    {
        let r = self.events.split_off(0);
        proof {
            assert(events_view(r@) =~= old(self).events_m());
        }
        r
    }

    /// The paths a command acts on, per the selection rule.
    pub fn selected(&self) -> (r: Vec<Path>)
        requires
            self.wf(),
        ensures
            paths_view(r@) == self.selection_m(),
    {
        let cur = &self.tabs.active().current;
        if cur.has_selected() {
            dup_paths(&cur.selected)
        } else {
            match cur.hovered {
                Some(i) => {
                    let mut v: Vec<Path> = Vec::new();
                    v.push(cur.files[i].path.dup());
                    proof {
                        assert(paths_view(v@) =~= self.selection_m());
                    }
                    v
                },
                None => {
                    let v: Vec<Path> = Vec::new();
                    proof {
                        assert(paths_view(v@) =~= self.selection_m());
                    }
                    v
                },
            }
        }
    }

    /// Replaces the clipboard with the cut flag and a snapshot of the current
    /// selection. The snapshot is not live: later selection changes leave it
    /// alone.
    pub fn yank(&mut self, cut: bool) -> (r: bool)
        requires
            old(self).wf(),
        ensures
            final(self).wf(),
            final(self).yanked.0 == cut,
            paths_view(final(self).yanked.1@) == old(self).selection_m(),
            final(self).tabs == old(self).tabs,
            final(self).mimetype == old(self).mimetype,
            final(self).events == old(self).events,
            r == false,
    {
        let sel = self.selected();
        self.yanked = (cut, sel);
        false
    }

    /// The clipboard: the cut flag and the snapshot taken by the last yank.
    pub fn yanked(&self) -> (r: &(bool, Vec<Path>))
        ensures
            *r == self.yanked,
    {
        &self.yanked
    }

    /// With no job running, signals quit at once; otherwise asks the user
    /// first, and `quit_answer` decides when the answer arrives. Never
    /// signals quit here while jobs run.
    pub fn quit(&mut self, jobs: u64) -> (r: bool)
        requires
            old(self).wf(),
        ensures
            final(self).wf(),
            final(self).tabs == old(self).tabs,
            final(self).yanked == old(self).yanked,
            final(self).mimetype == old(self).mimetype,
            jobs == 0 ==> final(self).events_m() == old(self).events_m().push(EventM::Quit),
            jobs > 0 ==> final(self).events_m() == old(self).events_m().push(
                EventM::PromptQuit { jobs },
            ),
            r == false,
    {
        if jobs == 0 {
            self.emit(Event::Quit);
        } else {
            self.emit(Event::PromptQuit { jobs });
        }
        false
    }

    /// Takes the answer to the quit prompt: quit is signalled exactly on an
    /// affirmative answer; any other answer, and a cancelled prompt, signal
    /// nothing.
    pub fn quit_answer(&mut self, answer: Option<&str>) -> (r: bool)
        requires
            old(self).wf(),
        ensures
            final(self).wf(),
            final(self).tabs == old(self).tabs,
            final(self).yanked == old(self).yanked,
            final(self).mimetype == old(self).mimetype,
            (match answer {
                Some(s) => is_yes(s@),
                None => false,
            }) ==> final(self).events_m() == old(self).events_m().push(EventM::Quit),
            !(match answer {
                Some(s) => is_yes(s@),
                None => false,
            }) ==> final(self).events == old(self).events,
            r == false,
    {
        match answer {
            Some(s) => {
                let n: usize = s.unicode_len();
                if n == 1 {
                    let c = s.get_char(0);
                    if c == 'y' || c == 'Y' {
                        self.emit(Event::Quit);
                    }
                }
            },
            None => {},
        }
        false
    }

    /// Closes the active tab when more than one tab exists; with one tab it
    /// delegates to the quit flow.
    pub fn close(&mut self, jobs: u64) -> (r: bool)
        requires
            old(self).wf(),
        ensures
            final(self).wf(),
            final(self).yanked == old(self).yanked,
            final(self).mimetype == old(self).mimetype,
            old(self).tabs.m().len() > 1 ==> {
                &&& final(self).tabs.m() == old(self).tabs.m().remove(old(self).tabs.idx as int)
                &&& final(self).tabs.idx == idx_after_close(
                    old(self).tabs.idx as int,
                    old(self).tabs.idx as int,
                    old(self).tabs.m().len() - 1,
                )
                &&& final(self).events == old(self).events
                &&& r == true
            },
            old(self).tabs.m().len() == 1 ==> {
                &&& final(self).tabs == old(self).tabs
                &&& (jobs == 0 ==> final(self).events_m() == old(self).events_m().push(
                    EventM::Quit,
                ))
                &&& (jobs > 0 ==> final(self).events_m() == old(self).events_m().push(
                    EventM::PromptQuit { jobs },
                ))
                &&& r == false
            },
    {
        if self.tabs.len() > 1 {
            let i = self.tabs.idx();
            self.tabs.close(i)
        } else {
            self.quit(jobs)
        }
    }

    /// Asks the user for the name of an entry to create under the current
    /// directory; `create_plan` turns the answer into the filesystem request.
    pub fn create(&mut self) -> (r: bool)
        requires
            old(self).wf(),
        ensures
            final(self).wf(),
            final(self).tabs == old(self).tabs,
            final(self).yanked == old(self).yanked,
            final(self).mimetype == old(self).mimetype,
            final(self).events_m() == old(self).events_m().push(
                EventM::PromptCreate { cwd: old(self).current_m().cwd },
            ),
            r == false,
    {
        let cwd = self.tabs.active().current.cwd.dup();
        self.emit(Event::PromptCreate { cwd });
        false
    }

    /// With a multi-selection the bulk-rename flow would take over (a no-op
    /// here); with nothing hovered there is nothing to rename; otherwise asks
    /// the user for the new name, and `rename_target` turns the answer into
    /// the filesystem request.
    pub fn rename(&mut self) -> (r: bool)
        requires
            old(self).wf(),
        ensures
            final(self).wf(),
            final(self).tabs == old(self).tabs,
            final(self).yanked == old(self).yanked,
            final(self).mimetype == old(self).mimetype,
            old(self).current_m().selected.len() > 0 ==> final(self).events == old(self).events,
            (old(self).current_m().selected.len() == 0 && old(self).hovered_m() is None)
                ==> final(self).events == old(self).events,
            old(self).current_m().selected.len() == 0 ==> (old(self).hovered_m() matches Some(f)
                ==> final(self).events_m() == old(self).events_m().push(
                (EventM::PromptRename { target: f.path }),
            )),
            r == false,
    {
        if self.tabs.active().current.has_selected() {
            return self.bulk_rename();
        }
        let target = match self.hovered() {
            Some(f) => f.path.dup(),
            None => {
                return false;
            },
        };
        self.emit(Event::PromptRename { target });
        false
    }

    /// The bulk-rename flow is outside this core; it changes nothing here.
    fn bulk_rename(&self) -> (r: bool)
        ensures
            r == false,
    {
        false
    }

    /// Requests links for the yanked paths into the current directory. A
    /// cut-mode clipboard is refused: links are made from copies, not moves.
    /// Reports whether a request was issued.
    pub fn link(&mut self, opt: Opt) -> (r: bool)
        requires
            old(self).wf(),
        ensures
            final(self).wf(),
            final(self).tabs == old(self).tabs,
            final(self).yanked == old(self).yanked,
            final(self).mimetype == old(self).mimetype,
            old(self).yanked.0 ==> final(self).events == old(self).events && r == false,
            !old(self).yanked.0 ==> final(self).events_m() == old(self).events_m().push(
                EventM::FileLink {
                    src: paths_view(old(self).yanked.1@),
                    dest: old(self).current_m().cwd,
                    relative: opt.relative,
                    force: opt.force,
                },
            ) && r == true,
    {
        if self.yanked.0 {
            return false;
        }
        let src = dup_paths(&self.yanked.1);
        let dest = self.tabs.active().current.cwd.dup();
        self.emit(Event::FileLink { src, dest, relative: opt.relative, force: opt.force });
        true
    }

    /// The whole tab collection.
    pub fn tabs(&self) -> (r: &Tabs)
        ensures
            *r == self.tabs,
    {
        &self.tabs
    }

    /// The whole tab collection, for mutation.
    pub fn tabs_mut(&mut self) -> (r: &mut Tabs)
        ensures
            *r == old(self).tabs,
            final(self).tabs == *final(r),
            final(self).yanked == old(self).yanked,
            final(self).mimetype == old(self).mimetype,
            final(self).events == old(self).events,
    {
        &mut self.tabs
    }

    /// The active tab.
    pub fn active(&self) -> (t: &Tab)
        requires
            self.wf(),
        ensures
            t.m() == self.active_m(),
    {
        self.tabs.active()
    }

    /// The active tab, for mutation.
    pub fn active_mut(&mut self) -> (t: &mut Tab)
        requires
            old(self).wf(),
        ensures
            *t == old(self).tabs.items@[old(self).tabs.idx as int],
            final(self).tabs.items@ == old(self).tabs.items@.update(
                old(self).tabs.idx as int,
                *final(t),
            ),
            final(self).tabs.idx == old(self).tabs.idx,
            final(self).yanked == old(self).yanked,
            final(self).mimetype == old(self).mimetype,
            final(self).events == old(self).events,
    {
        let i = self.tabs.idx;
        &mut self.tabs.items[i]
    }

    /// The active tab's current folder.
    pub fn current(&self) -> (f: &Folder)
        requires
            self.wf(),
        ensures
            f.m() == self.current_m(),
    {
        &self.tabs.active().current
    }

    /// The active tab's current folder, for mutation.
    pub fn current_mut(&mut self) -> (f: &mut Folder)
        requires
            old(self).wf(),
        ensures
            *f == old(self).tabs.items@[old(self).tabs.idx as int].current,
            final(self).tabs.items@ == old(self).tabs.items@.update(
                old(self).tabs.idx as int,
                (Tab {
                    current: *final(f),
                    ..old(self).tabs.items@[old(self).tabs.idx as int]
                }),
            ),
            final(self).tabs.idx == old(self).tabs.idx,
            final(self).yanked == old(self).yanked,
            final(self).mimetype == old(self).mimetype,
            final(self).events == old(self).events,
    {
        let i = self.tabs.idx;
        &mut self.tabs.items[i].current
    }

    /// The active tab's parent folder, absent at the filesystem root.
    pub fn parent(&self) -> (r: Option<&Folder>)
        requires
            self.wf(),
        ensures
            match r {
                Some(f) => self.active_m().parent == Some(f.m()),
                None => self.active_m().parent is None,
            },
    {
        self.tabs.active().parent.as_ref()
    }

    /// The hovered entry of the active tab's current folder, if any.
    pub fn hovered(&self) -> (r: Option<&File>)
        requires
            self.wf(),
        ensures
            match r {
                Some(f) => self.hovered_m() == Some(f.m()),
                None => self.hovered_m() is None,
            },
    {
        let cur = &self.tabs.active().current;
        match cur.hovered {
            Some(i) => Some(&cur.files[i]),
            None => None,
        }
    }
}

impl Manager {
    /// Re-validates what is on screen: forces a re-check of the active tab's
    /// current and parent directories first, announces the cursor, and
    /// replaces the watch set with exactly the directories the tabs need
    /// watched.
    pub fn refresh(&mut self)
        requires
            old(self).wf(),
        ensures
            final(self).wf(),
            final(self).tabs == old(self).tabs,
            final(self).yanked == old(self).yanked,
            final(self).mimetype == old(self).mimetype,
            ({
                let pre = old(self).events_m() + (match old(self).active_m().parent {
                    Some(q) => seq![
                        EventM::Trigger { path: old(self).current_m().cwd },
                        EventM::Trigger { path: q.cwd },
                        EventM::Hover,
                    ],
                    None => seq![
                        EventM::Trigger { path: old(self).current_m().cwd },
                        EventM::Hover,
                    ],
                });
                &&& final(self).events_m().len() == pre.len() + 1
                &&& final(self).events_m().take(pre.len() as int) == pre
                &&& (final(self).events_m().last() matches EventM::Watch { paths }
                    && watch_ok(old(self).tabs.m(), paths))
            }),
    {
        let cwd = self.tabs.active().current.cwd.dup();
        let pcwd: Option<Path> = match &self.tabs.active().parent {
            Some(q) => Some(q.cwd.dup()),
            None => None,
        };
        self.emit(Event::Trigger { path: cwd });
        match pcwd {
            Some(pc) => self.emit(Event::Trigger { path: pc }),
            None => {},
        }
        self.emit(Event::Hover);
        let ghost pre = self.events_m();
        let mut ws: Vec<Path> = Vec::new();
        let mut t: usize = 0;
        while t < self.tabs.items.len()
            invariant
                self.wf(),
                t <= self.tabs.items@.len(),
                nodup_paths(paths_view(ws@)),
                forall|p: Seq<Seq<char>>| #[trigger] paths_view(ws@).contains(p) <==> watch_pred(
                    self.tabs.m(),
                    t as int,
                    p,
                ),
            decreases self.tabs.items@.len() - t,
        {
            let ghost tabs = self.tabs.m();
            let ghost ws0 = paths_view(ws@);
            let tab = &self.tabs.items[t];
            proof {
                assert(tab.m() == tabs[t as int]);
                assert(tabs[t as int].wf());
            }
            push_unique(&mut ws, &tab.current.cwd);
            let ghost ws1 = paths_view(ws@);
            match &tab.parent {
                Some(q) => push_unique(&mut ws, &q.cwd),
                None => {},
            }
            let ghost ws2 = paths_view(ws@);
            match tab.current.hovered {
                Some(i) => {
                    if tab.current.files[i].is_dir {
                        push_unique(&mut ws, &tab.current.files[i].path);
                    }
                },
                None => {},
            }
            proof {
                lemma_watch_pred_step(tabs, t as int);
                assert forall|p: Seq<Seq<char>>| #[trigger] paths_view(ws@).contains(p)
                    <==> watch_pred(tabs, t + 1, p) by {
                    assert(paths_view(ws@).contains(p) <==> (ws0.contains(p) || tab_watches(
                        tabs[t as int],
                        p,
                    )));
                }
            }
            t = t + 1;
        }
        proof {
            assert(forall|p: Seq<Seq<char>>| #[trigger] paths_view(ws@).contains(p) <==> watch_pred(
                old(self).tabs.m(),
                old(self).tabs.m().len() as int,
                p,
            ));
        }
        self.emit(Event::Watch { paths: ws });
        proof {
            assert(self.events_m().take(pre.len() as int) =~= pre);
        }
    }
}

/// Exactly what a non-trivial mimetype merge does, through the intermediate
/// state `mid`: the pairs of `adds` that change the cache are merged, one
/// pre-warm hint is announced for exactly them, and the preview dispatch
/// re-runs from `mid` to yield the final state.
pub open spec fn mimetype_step(
    pre: Manager,
    mid: Manager,
    adds: Seq<(Seq<Seq<char>>, Seq<char>)>,
    post: Manager,
) -> bool {
    let changed = crate::mime::changed_of(mimes_view(pre.mimetype@), adds);
    &&& mid.tabs == pre.tabs
    &&& mid.yanked == pre.yanked
    &&& mimes_view(mid.mimetype@) == crate::mime::cache_extend(
        mimes_view(pre.mimetype@),
        changed,
    )
    &&& mid.events_m() == pre.events_m().push((EventM::Precache { mimes: changed }))
    &&& (exists|pr: bool| preview_rel(mid, post, pr))
}

/// Applying a listing to the folder that owns its path: the current folder
/// when the path matches it and it is no search listing; else the parent
/// folder when the path matches it; else the archived folder for the path,
/// created on demand. The flag says whether this alone warrants a re-render:
/// a current or parent replacement always does, an archive replacement only
/// when the hovered entry is the read directory itself.
pub open spec fn read_apply(t: TabM, path: Seq<Seq<char>>, files: Seq<FileM>) -> (TabM, bool) {
    if t.current.cwd == path && !t.current.in_search {
        ((TabM { current: folder_update(t.current, files), ..t }), true)
    } else if t.parent is Some && t.parent.unwrap().cwd == path {
        ((TabM { parent: Some(folder_update(t.parent.unwrap(), files)), ..t }), true)
    } else {
        (
            (TabM {
                history: match crate::tab::hist_index(t.history, path) {
                    Some(k) => t.history.update(
                        k,
                        folder_update(t.history[k], files),
                    ),
                    None => t.history.push(
                        folder_update(crate::tab::empty_folder(path), files),
                    ),
                },
                ..t
            }),
            t.current.hovered_path() == Some(path),
        )
    }
}

/// Re-aiming the parent folder's cursor at the current directory.
pub open spec fn read_rehover_parent(t: TabM, cwd: Seq<Seq<char>>) -> (TabM, bool) {
    match t.parent {
        Some(p) => {
            let p2 = crate::folder::folder_rehover(p, cwd);
            ((TabM { parent: Some(p2), ..t }), p2.hovered != p.hovered)
        },
        None => (t, false),
    }
}

/// Re-aiming the current folder's cursor at the previously hovered path.
pub open spec fn read_rehover_current(t: TabM, h0: Option<Seq<Seq<char>>>) -> (TabM, bool) {
    match h0 {
        Some(hp) => {
            let c2 = crate::folder::folder_rehover(t.current, hp);
            ((TabM { current: c2, ..t }), c2.hovered != t.current.hovered)
        },
        None => (t, false),
    }
}

/// Exactly what one directory-read result does to the active tab, and
/// whether it warrants a re-render: the listing lands in the folder that owns
/// the path, then both cursors re-validate against what was on screen.
pub open spec fn tab_read(t: TabM, path: Seq<Seq<char>>, files: Seq<FileM>) -> (TabM, bool) {
    let h0 = t.current.hovered_path();
    let cwd = t.current.cwd;
    let (t1, b1) = read_apply(t, path, files);
    let (t2, b2) = read_rehover_parent(t1, cwd);
    let (t3, b3) = read_rehover_current(t2, h0);
    (t3, b1 || b2 || b3)
}

impl Manager {
    /// Applies a directory-read result, per `tab_read`, and announces the
    /// cursor exactly once when the effectively hovered entry changed
    /// identity.
    pub fn update_read(&mut self, op: FilesOp) -> (r: bool)
        requires
            old(self).wf(),
        ensures
            final(self).wf(),
            final(self).yanked == old(self).yanked,
            final(self).mimetype == old(self).mimetype,
            final(self).tabs.idx == old(self).tabs.idx,
            final(self).tabs.m() == old(self).tabs.m().update(
                old(self).tabs.idx as int,
                tab_read(old(self).active_m(), op.path@, files_view(op.files@)).0,
            ),
            r == tab_read(old(self).active_m(), op.path@, files_view(op.files@)).1,
            final(self).events_m() == (if old(self).active_m().current.hovered_path() != tab_read(
                old(self).active_m(),
                op.path@,
                files_view(op.files@),
            ).0.current.hovered_path() {
                old(self).events_m().push(EventM::Hover)
            } else {
                old(self).events_m()
            }),
    {
        let ghost t0 = self.active_m();
        let cwd = self.tabs.active().current.cwd.dup();
        let in_search = self.tabs.active().current.in_search;
        let hovered: Option<Path> = match self.hovered() {
            Some(f) => Some(f.path.dup()),
            None => None,
        };
        let cur_match = cwd.eq_path(&op.path);
        let par_match = match &self.tabs.active().parent {
            Some(p) => p.cwd.eq_path(&op.path),
            None => false,
        };
        let hov_is_path = match &hovered {
            Some(h) => h.eq_path(&op.path),
            None => false,
        };
        let ghost opath = op.path@;
        let ghost ofiles = files_view(op.files@);
        let mut b: bool;
        if cur_match && !in_search {
            let t = self.active_mut();
            b = t.current.update(op);
        } else if par_match {
            let t = self.active_mut();
            match &mut t.parent {
                Some(p) => {
                    b = p.update(op);
                },
                None => {
                    proof {
                        assert(false);
                    }
                    b = false;
                },
            }
        } else {
            let t = self.active_mut();
            t.history_update(op);
            b = hov_is_path;
        }
        proof {
            assert(self.tabs.m() =~= old(self).tabs.m().update(
                old(self).tabs.idx as int,
                read_apply(t0, opath, ofiles).0,
            ));
            assert(b == read_apply(t0, opath, ofiles).1);
        }
        let b2 = {
            let t = self.active_mut();
            match &mut t.parent {
                Some(p) => p.hover(&cwd),
                None => false,
            }
        };
        b = b || b2;
        proof {
            assert(self.tabs.m() =~= old(self).tabs.m().update(
                old(self).tabs.idx as int,
                read_rehover_parent(read_apply(t0, opath, ofiles).0, t0.current.cwd).0,
            ));
            assert(b2 == read_rehover_parent(read_apply(t0, opath, ofiles).0, t0.current.cwd).1);
        }
        let b3 = match &hovered {
            Some(h) => {
                let t = self.active_mut();
                t.current.hover(h)
            },
            None => false,
        };
        b = b || b3;
        proof {
            assert(self.tabs.m() =~= old(self).tabs.m().update(
                old(self).tabs.idx as int,
                tab_read(t0, opath, ofiles).0,
            ));
            assert(b == tab_read(t0, opath, ofiles).1);
        }
        let changed = {
            let t = self.tabs.active();
            match (&hovered, &t.current.hovered) {
                (None, None) => false,
                (Some(_), None) => true,
                (None, Some(_)) => true,
                (Some(h), Some(i)) => !h.eq_path(&t.current.files[*i].path),
            }
        };
        proof {
            assert(changed == (t0.current.hovered_path() != tab_read(
                t0,
                opath,
                ofiles,
            ).0.current.hovered_path()));
        }
        if changed {
            self.emit(Event::Hover);
        }
        b
    }

    /// Merges newly probed mimetypes, per `mimetype_step`. Pairs the cache
    /// same value are dropped first; when nothing remains the call is a
    /// no-op that leaves every part of the state untouched. Otherwise the
    /// rest are merged, one pre-warm hint is announced for exactly them, and
    /// the pending preview decision is re-run against the grown cache.
    pub fn update_mimetype(&mut self, mimes: Vec<(Path, String)>) -> (r: bool)
        requires
            old(self).wf(),
        ensures
            final(self).wf(),
            r == (crate::mime::changed_of(
                mimes_view(old(self).mimetype@),
                mimes_view(mimes@),
            ).len() != 0),
            !r ==> *final(self) == *old(self),
            r ==> (exists|mid: Manager| mimetype_step(
                *old(self),
                mid,
                mimes_view(mimes@),
                *final(self),
            )),
    {
        let ghost cache0 = mimes_view(self.mimetype@);
        let ghost adds = mimes_view(mimes@);
        let mut changed: Vec<(Path, String)> = Vec::new();
        let mut i: usize = 0;
        proof {
            assert(mimes_view(changed@) =~= crate::mime::changed_of(cache0, adds.take(0)));
        }
        while i < mimes.len()
            invariant
                *self == *old(self),
                cache0 == mimes_view(self.mimetype@),
                adds == mimes_view(mimes@),
                i <= mimes@.len(),
                mimes_view(changed@) == crate::mime::changed_of(cache0, adds.take(i as int)),
            decreases mimes@.len() - i,
        {
            let keep = match crate::mime::mime_lookup(&self.mimetype, &mimes[i].0) {
                Some(cur) => !(*cur == mimes[i].1),
                None => true,
            };
            let ghost before = mimes_view(changed@);
            proof {
                assert(adds[i as int] == (mimes@[i as int].0@, mimes@[i as int].1@));
                assert(keep == (crate::mime::mime_of(cache0, adds[i as int].0) != Some(
                    adds[i as int].1,
                )));
            }
            if keep {
                changed.push((mimes[i].0.dup(), mimes[i].1.clone()));
            }
            proof {
                assert(adds.take(i + 1).drop_last() =~= adds.take(i as int));
                assert(adds.take(i + 1).last() == adds[i as int]);
                if keep {
                    assert(changed@.last().0@ == adds[i as int].0);
                    assert(changed@.last().1@ == adds[i as int].1);
                    assert(mimes_view(changed@) =~= before.push(adds[i as int]));
                }
            }
            i = i + 1;
        }
        proof {
            assert(adds.take(mimes@.len() as int) =~= adds);
        }
        if changed.len() == 0 {
            return false;
        }
        let ghost changed_v = mimes_view(changed@);
        let mut copy: Vec<(Path, String)> = Vec::new();
        let mut j: usize = 0;
        proof {
            assert(mimes_view(copy@) =~= changed_v.take(0));
        }
        while j < changed.len()
            invariant
                j <= changed@.len(),
                changed_v == mimes_view(changed@),
                mimes_view(copy@) == changed_v.take(j as int),
            decreases changed@.len() - j,
        {
            let ghost copy0 = copy@;
            proof {
                assert(changed_v.len() == changed@.len());
                assert(mimes_view(copy0).len() == copy0.len());
                assert(copy0.len() == j);
            }
            copy.push((changed[j].0.dup(), changed[j].1.clone()));
            proof {
                assert(copy@ == copy0.push(copy@.last()));
                assert forall|k: int| 0 <= k < j implies mimes_view(copy@)[k] == mimes_view(
                    copy0,
                )[k] by {
                    assert(copy@[k] == copy0[k]);
                }
                assert(copy@.last().0@ == changed@[j as int].0@);
                assert(copy@.last().1@ == changed@[j as int].1@);
                assert(changed_v[j as int] == (changed@[j as int].0@, changed@[j as int].1@));
                assert(mimes_view(copy@) =~= changed_v.take(j + 1));
            }
            j = j + 1;
        }
        proof {
            assert(changed_v.take(changed@.len() as int) =~= changed_v);
        }
        self.emit(Event::Precache { mimes: copy });
        crate::mime::cache_put_all(&mut self.mimetype, &changed);
        proof {
            crate::mime::lemma_cache_extend_wf(cache0, changed_v);
        }
        let ghost mid = *self;
        let pr = self.preview();
        proof {
            assert(preview_rel(mid, *self, pr));
            assert(mimetype_step(*old(self), mid, mimes_view(mimes@), *self));
        }
        true
    }

    /// The input paths the cache does not know yet: exactly what one batch
    /// probe must be asked about before `absorb_mimes` and
    /// `mimetypes_cached` can answer for every input.
    pub fn mimetypes_missing(&self, files: &Vec<Path>) -> (r: Vec<Path>)
        ensures
            paths_view(r@) == crate::mime::missing_of(
                mimes_view(self.mimetype@),
                paths_view(files@),
            ),
    {
        let ghost cache0 = mimes_view(self.mimetype@);
        let ghost ps = paths_view(files@);
        let mut r: Vec<Path> = Vec::new();
        let mut i: usize = 0;
        proof {
            assert(paths_view(r@) =~= crate::mime::missing_of(cache0, ps.take(0)));
        }
        while i < files.len()
            invariant
                cache0 == mimes_view(self.mimetype@),
                ps == paths_view(files@),
                i <= files@.len(),
                paths_view(r@) == crate::mime::missing_of(cache0, ps.take(i as int)),
            decreases files@.len() - i,
        {
            let ghost before = paths_view(r@);
            if crate::mime::mime_lookup(&self.mimetype, &files[i]).is_none() {
                r.push(files[i].dup());
            }
            proof {
                assert(ps.take(i + 1).drop_last() =~= ps.take(i as int));
                assert(ps.take(i + 1).last() == ps[i as int]);
                if crate::mime::mime_of(cache0, ps[i as int]) is None {
                    assert(paths_view(r@) =~= before.push(ps[i as int]));
                }
            }
            i = i + 1;
        }
        proof {
            assert(ps.take(files@.len() as int) =~= ps);
        }
        r
    }

    /// Merges a probe's results into the cache unconditionally.
    pub fn absorb_mimes(&mut self, mimes: &Vec<(Path, String)>)
        requires
            old(self).wf(),
        ensures
            final(self).wf(),
            final(self).tabs == old(self).tabs,
            final(self).yanked == old(self).yanked,
            final(self).events == old(self).events,
            mimes_view(final(self).mimetype@) == crate::mime::cache_extend(
                mimes_view(old(self).mimetype@),
                mimes_view(mimes@),
            ),
    {
        crate::mime::cache_put_all(&mut self.mimetype, mimes);
        proof {
            crate::mime::lemma_cache_extend_wf(mimes_view(old(self).mimetype@), mimes_view(mimes@));
        }
    }

    /// Answers, in input order, what the cache knows of each path; an
    /// unprobed or undetermined path answers nothing.
    pub fn mimetypes_cached(&self, files: &Vec<Path>) -> (r: Vec<Option<String>>)
        ensures
            r@.len() == files@.len(),
            forall|i: int| 0 <= i < files@.len() ==> (match #[trigger] r@[i] {
                Some(s) => crate::mime::mime_of(mimes_view(self.mimetype@), files@[i]@) == Some(
                    s@,
                ),
                None => crate::mime::mime_of(mimes_view(self.mimetype@), files@[i]@) is None,
            }),
    {
        let mut r: Vec<Option<String>> = Vec::new();
        let mut i: usize = 0;
        while i < files.len()
            invariant
                i <= files@.len(),
                r@.len() == i,
                forall|j: int| 0 <= j < i ==> (match #[trigger] r@[j] {
                    Some(s) => crate::mime::mime_of(mimes_view(self.mimetype@), files@[j]@)
                        == Some(s@),
                    None => crate::mime::mime_of(mimes_view(self.mimetype@), files@[j]@) is None,
                }),
            decreases files@.len() - i,
        {
            match crate::mime::mime_lookup(&self.mimetype, &files[i]) {
                Some(s) => r.push(Some(s.clone())),
                None => r.push(None),
            }
            i = i + 1;
        }
        r
    }
}

/// The slot after a dispatch points at the path and mimetype; the artifact
/// survives only when the slot already pointed at the same path.
pub open spec fn go_slot(s: PreviewM, p: Seq<Seq<char>>, mime: Seq<char>) -> PreviewM {
    PreviewM {
        path: Some(p),
        mime: Some(mime),
        data: if s.path == Some(p) {
            s.data
        } else {
            PreviewDataM::Empty
        },
    }
}

/// Exactly what one preview dispatch does, given the state it starts from:
/// with nothing hovered the slot resets; a hovered directory points the slot
/// at the folder renderer, and shows an archived snapshot at once when one
/// exists; a hovered file with a cached mimetype points the slot at that
/// renderer; otherwise a background probe for just that path is requested
/// and the state is left for the probe's result to drive.
pub open spec fn preview_rel(pre: Manager, post: Manager, r: bool) -> bool {
    &&& post.tabs.idx == pre.tabs.idx
    &&& post.yanked == pre.yanked
    &&& post.mimetype == pre.mimetype
    &&& post.tabs.m() == pre.tabs.m().update(
        pre.tabs.idx as int,
        (TabM { preview: post.active_m().preview, ..pre.active_m() }),
    )
    &&& match pre.hovered_m() {
        None => {
            &&& post.active_m().preview == crate::preview::empty_preview()
            &&& post.events_m() == pre.events_m()
            &&& r == (pre.active_m().preview != crate::preview::empty_preview())
        },
        Some(f) => {
            &&& r == false
            &&& if f.is_dir {
                &&& post.active_m().preview == go_slot(
                    pre.active_m().preview,
                    f.path,
                    "inode/directory"@,
                )
                &&& post.events_m() == (if crate::tab::hist_index(
                    pre.active_m().history,
                    f.path,
                ) is Some {
                    pre.events_m().push(
                        EventM::PreviewShow { path: f.path, data: PreviewDataM::Folder },
                    )
                } else {
                    pre.events_m()
                })
            } else {
                match mime_of(mimes_view(pre.mimetype@), f.path) {
                    Some(mv) => post.active_m().preview == go_slot(
                        pre.active_m().preview,
                        f.path,
                        mv,
                    ) && post.events_m() == pre.events_m(),
                    None => post.active_m().preview == pre.active_m().preview && post.events_m()
                        == pre.events_m().push((EventM::ProbeMime { paths: seq![f.path] })),
                }
            }
        },
    }
}

impl Manager {
    /// Decides what to show for the hovered entry, per `preview_rel`. Never
    /// blocks: when only a probe can tell, the probe is requested and its
    /// result re-enters through `update_mimetype`.
    pub fn preview(&mut self) -> (r: bool)
        requires
            old(self).wf(),
        ensures
            final(self).wf(),
            preview_rel(*old(self), *final(self), r),
    {
        let hov: Option<(Path, bool)> = match self.hovered() {
            Some(f) => Some((f.path.dup(), f.is_dir)),
            None => None,
        };
        match hov {
            None => {
                let t = self.active_mut();
                let r = t.preview.reset();
                proof {
                    assert(self.tabs.m() =~= old(self).tabs.m().update(
                        old(self).tabs.idx as int,
                        (TabM { preview: self.active_m().preview, ..old(self).active_m() }),
                    ));
                }
                r
            },
            Some((hp, is_dir)) => {
                if is_dir {
                    {
                        let t = self.active_mut();
                        t.preview.go(&hp, "inode/directory");
                    }
                    proof {
                        assert(self.tabs.m() =~= old(self).tabs.m().update(
                            old(self).tabs.idx as int,
                            (TabM { preview: self.active_m().preview, ..old(self).active_m() }),
                        ));
                        assert(self.active_m().preview =~= go_slot(
                            old(self).active_m().preview,
                            hp@,
                            "inode/directory"@,
                        ));
                    }
                    if self.tabs.active().history_contains(&hp) {
                        self.emit(Event::PreviewShow { path: hp, data: PreviewData::Folder });
                    }
                    proof {
                        assert(self.tabs.m() =~= old(self).tabs.m().update(
                            old(self).tabs.idx as int,
                            (TabM { preview: self.active_m().preview, ..old(self).active_m() }),
                        ));
                    }
                    false
                } else {
                    let cached: Option<String> = match crate::mime::mime_lookup(
                        &self.mimetype,
                        &hp,
                    ) {
                        Some(s) => Some(s.clone()),
                        None => None,
                    };
                    match cached {
                        Some(m) => {
                            let t = self.active_mut();
                            t.preview.go(&hp, m.as_str());
                            proof {
                                assert(self.tabs.m() =~= old(self).tabs.m().update(
                                    old(self).tabs.idx as int,
                                    (TabM {
                                        preview: self.active_m().preview,
                                        ..old(self).active_m()
                                    }),
                                ));
                                assert(self.active_m().preview =~= go_slot(
                                    old(self).active_m().preview,
                                    hp@,
                                    m@,
                                ));
                            }
                            false
                        },
                        None => {
                            let mut ps: Vec<Path> = Vec::new();
                            ps.push(hp);
                            proof {
                                assert(crate::path::paths_view(ps@) =~= seq![
                                    old(self).hovered_m().unwrap().path,
                                ]);
                            }
                            self.emit(Event::ProbeMime { paths: ps });
                            proof {
                                assert(self.tabs.m() =~= old(self).tabs.m().update(
                                    old(self).tabs.idx as int,
                                    (TabM {
                                        preview: self.active_m().preview,
                                        ..old(self).active_m()
                                    }),
                                ));
                            }
                            false
                        },
                    }
                }
            },
        }
    }

    /// Accepts a produced preview artifact. With nothing hovered the slot
    /// resets; an artifact for any path but the hovered one is stale and is
    /// discarded without a trace; otherwise the slot takes it.
    pub fn update_preview(&mut self, path: Path, data: PreviewData) -> (r: bool)
        requires
            old(self).wf(),
        ensures
            final(self).wf(),
            final(self).yanked == old(self).yanked,
            final(self).mimetype == old(self).mimetype,
            final(self).events == old(self).events,
            final(self).tabs.idx == old(self).tabs.idx,
            match old(self).hovered_m() {
                None => {
                    &&& final(self).tabs.m() == old(self).tabs.m().update(
                        old(self).tabs.idx as int,
                        (TabM {
                            preview: crate::preview::empty_preview(),
                            ..old(self).active_m()
                        }),
                    )
                    &&& r == (old(self).active_m().preview != crate::preview::empty_preview())
                },
                Some(f) => {
                    &&& (f.path != path@ ==> final(self).tabs == old(self).tabs && r == false)
                    &&& (f.path == path@ ==> final(self).tabs.m() == old(self).tabs.m().update(
                        old(self).tabs.idx as int,
                        (TabM {
                            preview: (PreviewM {
                                path: Some(path@),
                                mime: old(self).active_m().preview.mime,
                                data: data.m(),
                            }),
                            ..old(self).active_m()
                        }),
                    ) && r == true)
                },
            },
    {
        let hov: Option<Path> = match self.hovered() {
            Some(f) => Some(f.path.dup()),
            None => None,
        };
        match hov {
            None => {
                let t = self.active_mut();
                let r = t.preview.reset();
                proof {
                    assert(self.tabs.m() =~= old(self).tabs.m().update(
                        old(self).tabs.idx as int,
                        (TabM {
                            preview: crate::preview::empty_preview(),
                            ..old(self).active_m()
                        }),
                    ));
                }
                r
            },
            Some(h) => {
                if !h.eq_path(&path) {
                    return false;
                }
                let t = self.active_mut();
                t.preview.path = Some(path);
                t.preview.data = data;
                proof {
                    assert(self.tabs.m() =~= old(self).tabs.m().update(
                        old(self).tabs.idx as int,
                        (TabM { preview: self.active_m().preview, ..old(self).active_m() }),
                    ));
                    assert(self.active_m().preview =~= (PreviewM {
                        path: Some(path@),
                        mime: old(self).active_m().preview.mime,
                        data: data.m(),
                    }));
                }
                true
            },
        }
    }

    /// Recovers from a directory that became unreadable: the matching
    /// current or parent folder takes an empty listing and the tab backs out
    /// to its parent. A path matching neither is ignored; archived folders
    /// are never touched by read errors.
    pub fn update_ioerr(&mut self, op: FilesOp) -> (r: bool)
        requires
            old(self).wf(),
        ensures
            final(self).wf(),
            final(self).yanked == old(self).yanked,
            final(self).mimetype == old(self).mimetype,
            final(self).events == old(self).events,
            final(self).tabs.idx == old(self).tabs.idx,
            ({
                let t0 = old(self).active_m();
                if t0.current.cwd == op.path@ {
                    final(self).tabs.m() == old(self).tabs.m().update(
                        old(self).tabs.idx as int,
                        crate::tab::tab_leave(
                            (TabM {
                                current: folder_update(t0.current, Seq::empty()),
                                ..t0
                            }),
                        ),
                    ) && r == true
                } else if t0.parent is Some && t0.parent.unwrap().cwd == op.path@ {
                    final(self).tabs.m() == old(self).tabs.m().update(
                        old(self).tabs.idx as int,
                        crate::tab::tab_leave(
                            (TabM {
                                parent: Some(folder_update(t0.parent.unwrap(), Seq::empty())),
                                ..t0
                            }),
                        ),
                    ) && r == true
                } else {
                    final(self).tabs == old(self).tabs && r == false
                }
            }),
    {
        let cur_match = self.tabs.active().current.cwd.eq_path(&op.path);
        let par_match = match &self.tabs.active().parent {
            Some(p) => p.cwd.eq_path(&op.path),
            None => false,
        };
        let empty_op = FilesOp { path: op.path, files: Vec::new() };
        proof {
            assert(crate::file::files_view(empty_op.files@) =~= Seq::<FileM>::empty());
        }
        if cur_match {
            let t = self.active_mut();
            t.current.update(empty_op);
            t.leave();
            proof {
                assert(self.tabs.m() =~= old(self).tabs.m().update(
                    old(self).tabs.idx as int,
                    crate::tab::tab_leave(
                        (TabM {
                            current: folder_update(old(self).active_m().current, Seq::empty()),
                            ..old(self).active_m()
                        }),
                    ),
                ));
            }
            true
        } else if par_match {
            let t = self.active_mut();
            if let Some(p) = &mut t.parent {
                p.update(empty_op);
            }
            t.leave();
            proof {
                assert(self.tabs.m() =~= old(self).tabs.m().update(
                    old(self).tabs.idx as int,
                    crate::tab::tab_leave(
                        (TabM {
                            parent: Some(
                                folder_update(
                                    old(self).active_m().parent.unwrap(),
                                    Seq::empty(),
                                ),
                            ),
                            ..old(self).active_m()
                        }),
                    ),
                ));
            }
            true
        } else {
            false
        }
    }

    /// Applies a search-result listing: a search already rooted there merges
    /// in place; otherwise a fresh search listing replaces the current
    /// folder, which is archived first — but only a real listing, never a
    /// search listing over another.
    pub fn update_search(&mut self, op: FilesOp) -> (r: bool)
        requires
            old(self).wf(),
        ensures
            final(self).wf(),
            final(self).yanked == old(self).yanked,
            final(self).mimetype == old(self).mimetype,
            final(self).events == old(self).events,
            final(self).tabs.idx == old(self).tabs.idx,
            r == true,
            ({
                let t0 = old(self).active_m();
                if t0.current.in_search && t0.current.cwd == op.path@ {
                    final(self).tabs.m() == old(self).tabs.m().update(
                        old(self).tabs.idx as int,
                        (TabM {
                            current: folder_update(t0.current, files_view(op.files@)),
                            ..t0
                        }),
                    )
                } else {
                    final(self).tabs.m() == old(self).tabs.m().update(
                        old(self).tabs.idx as int,
                        (TabM {
                            current: folder_update(
                                crate::tab::empty_search_folder(op.path@),
                                files_view(op.files@),
                            ),
                            history: (if !t0.current.in_search {
                                match crate::tab::hist_index(t0.history, t0.current.cwd) {
                                    Some(k) => t0.history.update(k, t0.current),
                                    None => t0.history.push(t0.current),
                                }
                            } else {
                                t0.history
                            }),
                            ..t0
                        }),
                    )
                }
            }),
    {
        let is_merge = {
            let cur = &self.tabs.active().current;
            cur.in_search && cur.cwd.eq_path(&op.path)
        };
        if is_merge {
            let t = self.active_mut();
            t.current.update(op);
            proof {
                assert(self.tabs.m() =~= old(self).tabs.m().update(
                    old(self).tabs.idx as int,
                    (TabM {
                        current: folder_update(
                            old(self).active_m().current,
                            files_view(op.files@),
                        ),
                        ..old(self).active_m()
                    }),
                ));
            }
            return true;
        }
        let mut fresh = Folder::new_search(&op.path);
        let t = self.active_mut();
        core::mem::swap(&mut t.current, &mut fresh);
        if !fresh.in_search {
            t.history_insert(fresh);
        }
        t.current.update(op);
        proof {
            assert(self.tabs.m() =~= old(self).tabs.m().update(
                old(self).tabs.idx as int,
                (TabM {
                    current: folder_update(
                        crate::tab::empty_search_folder(op.path@),
                        files_view(op.files@),
                    ),
                    history: (if !old(self).active_m().current.in_search {
                        match crate::tab::hist_index(
                            old(self).active_m().history,
                            old(self).active_m().current.cwd,
                        ) {
                            Some(k) => old(self).active_m().history.update(
                                k,
                                old(self).active_m().current,
                            ),
                            None => old(self).active_m().history.push(
                                old(self).active_m().current,
                            ),
                        }
                    } else {
                        old(self).active_m().history
                    }),
                    ..old(self).active_m()
                }),
            ));
        }
        true
    }
}

/// Appends the path unless an equal one is already in the list.
fn push_unique(v: &mut Vec<Path>, p: &Path)
    ensures
        nodup_paths(paths_view(old(v)@)) ==> nodup_paths(paths_view(final(v)@)),
        forall|q: Seq<Seq<char>>| #[trigger] paths_view(final(v)@).contains(q) <==> (paths_view(
            old(v)@,
        ).contains(q) || q == p@),
{
    let mut i: usize = 0;
    while i < v.len()
        invariant
            *v == *old(v),
            i <= v@.len(),
            forall|j: int| 0 <= j < i ==> paths_view(v@)[j] != p@,
        decreases v@.len() - i,
    {
        if v[i].eq_path(p) {
            proof {
                assert(paths_view(v@)[i as int] == p@);
                assert(paths_view(v@).contains(p@));
            }
            return ;
        }
        i = i + 1;
    }
    proof {
        assert forall|q: Seq<Seq<char>>| paths_view(v@).contains(q) implies q != p@ by {
            let k = choose|k: int|
                0 <= k < paths_view(v@).len() && paths_view(v@)[k] == q;
            assert(paths_view(v@)[k] != p@);
        }
    }
    let ghost before = paths_view(v@);
    v.push(p.dup());
    proof {
        assert(paths_view(v@) =~= before.push(p@));
        assert forall|q: Seq<Seq<char>>| #[trigger] paths_view(v@).contains(q) implies (
        before.contains(q) || q == p@) by {
            let k = choose|k: int|
                0 <= k < paths_view(v@).len() && paths_view(v@)[k] == q;
            if k < before.len() {
                assert(before[k] == q);
            }
        }
        assert forall|q: Seq<Seq<char>>| (before.contains(q) || q == p@) implies #[trigger]
        paths_view(v@).contains(q) by {
            if before.contains(q) {
                let k = choose|k: int| 0 <= k < before.len() && before[k] == q;
                assert(paths_view(v@)[k] == q);
            } else {
                assert(paths_view(v@)[before.len() as int] == q);
            }
        }
        if nodup_paths(before) {
            assert forall|a: int, b: int| 0 <= a < b < paths_view(v@).len() implies paths_view(
                v@,
            )[a] != paths_view(v@)[b] by {
                if b == before.len() {
                    assert(paths_view(v@)[a] == before[a]);
                }
            }
        }
    }
}

/// Whether the tab needs the directory watched: it is the tab's current
/// directory, its parent directory, or a hovered directory entry.
pub open spec fn tab_watches(t: TabM, p: Seq<Seq<char>>) -> bool {
    ||| t.current.cwd == p
    ||| (t.parent matches Some(q) && q.cwd == p)
    ||| (t.current.hovered_file() matches Some(f) && f.is_dir && f.path == p)
}

/// Whether one of the first `n` tabs needs the directory watched.
pub open spec fn watch_pred(tabs: Seq<TabM>, n: int, p: Seq<Seq<char>>) -> bool {
    exists|t: int| 0 <= t < n && tab_watches(tabs[t], p)
}

/// A list of paths without duplicates.
pub open spec fn nodup_paths(s: Seq<Seq<Seq<char>>>) -> bool {
    forall|i: int, j: int| 0 <= i < j < s.len() ==> s[i] != s[j]
}

/// The watch set is minimal: it holds exactly the directories some tab needs
/// watched, each once; the order says nothing.
pub open spec fn watch_ok(tabs: Seq<TabM>, ws: Seq<Seq<Seq<char>>>) -> bool {
    &&& (forall|p: Seq<Seq<char>>| #[trigger] ws.contains(p) <==> watch_pred(
        tabs,
        tabs.len() as int,
        p,
    ))
    &&& nodup_paths(ws)
}

/// Growing the prefix of tabs by one adds exactly that tab's directories.
proof fn lemma_watch_pred_step(tabs: Seq<TabM>, t: int)
    requires
        0 <= t < tabs.len(),
    ensures
        forall|p: Seq<Seq<char>>| #[trigger] watch_pred(tabs, t + 1, p) <==> (watch_pred(tabs, t, p)
            || tab_watches(tabs[t], p)),
{
    assert forall|p: Seq<Seq<char>>| #[trigger] watch_pred(tabs, t + 1, p) implies (watch_pred(
        tabs,
        t,
        p,
    ) || tab_watches(tabs[t], p)) by {
        let k = choose|k: int| 0 <= k < t + 1 && tab_watches(tabs[k], p);
        if k < t {
            assert(0 <= k < t && tab_watches(tabs[k], p));
        }
    }
    assert forall|p: Seq<Seq<char>>| (watch_pred(tabs, t, p) || tab_watches(tabs[t], p)) implies #[
    trigger] watch_pred(tabs, t + 1, p) by {
        if watch_pred(tabs, t, p) {
            let k = choose|k: int| 0 <= k < t && tab_watches(tabs[k], p);
            assert(0 <= k < t + 1 && tab_watches(tabs[k], p));
        } else {
            assert(0 <= t < t + 1 && tab_watches(tabs[t], p));
        }
    }
}

/// An affirmative answer to the quit prompt: exactly the one-character
/// answers whose lower case is the letter y.
pub open spec fn is_yes(s: Seq<char>) -> bool {
    s.len() == 1 && (s[0] == 'y' || s[0] == 'Y')
}

/// Options of the link command: whether to make relative symlinks, and
/// whether to overwrite an existing destination.
pub struct Opt {
    pub relative: bool,
    pub force: bool,
}

/// What the create command does with a prompted name: a name ending in the
/// separator makes a directory, any other name makes an empty file; missing
/// ancestors are created either way.
pub enum CreatePlan {
    MakeDir(Path),
    MakeFile(Path),
}

/// Turns the answer to the create prompt into the filesystem request: the
/// named path is resolved under `cwd`, and the trailing separator picks
/// directory over file.
pub fn create_plan(cwd: &Path, name: &str) -> (r: CreatePlan)
    ensures
        (name@.len() > 0 && name@.last() == '/') ==> (r matches CreatePlan::MakeDir(p) && p@
            == cwd@ + split_segs(name@)),
        !(name@.len() > 0 && name@.last() == '/') ==> (r matches CreatePlan::MakeFile(p) && p@
            == cwd@ + split_segs(name@)),
{
    let segs = split_name(name);
    let p = cwd.joined(&segs);
    if ends_with_sep(name) {
        CreatePlan::MakeDir(p)
    } else {
        CreatePlan::MakeFile(p)
    }
}

/// Turns the answer to the rename prompt into the filesystem request: the
/// new name is resolved beside the renamed entry, in the same parent
/// directory.
pub fn rename_target(old_path: &Path, name: &str) -> (r: Path)
    requires
        old_path@.len() > 0,
    ensures
        r@ == old_path@.drop_last() + split_segs(name@),
{
    let par = old_path.parent().unwrap();
    let segs = split_name(name);
    par.joined(&segs)
}

/// LAW: the clipboard is a snapshot, not a live view. What `selected`
/// resolves to depends on the tabs alone, never on the clipboard; so a yank,
/// which overwrites only the clipboard, pins down what later `selected` calls
/// return, and no read of the clipboard can change it.
pub proof fn lemma_selection_ignores_clipboard(a: Manager, b: Manager)
    requires
        a.tabs.m() == b.tabs.m(),
        a.tabs.idx == b.tabs.idx,
    ensures
        a.selection_m() == b.selection_m(),
{
}

} // verus!
