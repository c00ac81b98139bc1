use vstd::prelude::*;

use crate::config::Config;
use crate::entry::{
    child_views, entry_hidden_free, entry_views, entry_wf, hidden_name, is_hidden, ChildInfo,
    ChildV, Entry, EntryKind, EntryV,
};

verus! {

/// True exactly when `depth` lies within the inclusive window that the
/// configuration imposes on printed entries.
pub open spec fn depth_within(depth: nat, min_depth: nat, max_depth: nat) -> bool {
    min_depth <= depth && depth <= max_depth
}

/// A name passes the hidden-entry filter when hidden entries are shown or the
/// name carries no dot marker.
pub open spec fn visible(show_hidden: bool, name: Seq<char>) -> bool {
    show_hidden || !hidden_name(name)
}

/// The entry produced for child `c` of the directory whose components beneath
/// the root are `dir`.
pub open spec fn child_entry(dir: Seq<Seq<char>>, c: ChildV) -> EntryV {
    EntryV {
        components: dir.push(c.name),
        name: c.name,
        kind: c.kind,
        size: c.size,
        modified_secs: c.modified_secs,
        depth: dir.len() + 1,
    }
}

/// A child of a directory at depth `dir_depth` is printed when it passes the
/// hidden-entry filter and its own depth lies within the window.
pub open spec fn emits_child(
    min_depth: nat,
    max_depth: nat,
    show_hidden: bool,
    dir_depth: nat,
    c: ChildV,
) -> bool {
    visible(show_hidden, c.name) && depth_within(dir_depth + 1, min_depth, max_depth)
}

/// The walk descends into a child when it is a directory, passes the
/// hidden-entry filter, and its children would still lie within the window.
pub open spec fn descends_into(
    max_depth: nat,
    show_hidden: bool,
    dir_depth: nat,
    c: ChildV,
) -> bool {
    c.kind is Directory && visible(show_hidden, c.name) && dir_depth + 1 < max_depth
}

/// The entries printed for one directory listing, in listing order.
pub open spec fn emitted_children(
    min_depth: nat,
    max_depth: nat,
    show_hidden: bool,
    dir: Seq<Seq<char>>,
    cs: Seq<ChildV>,
) -> Seq<EntryV>
    decreases cs.len(),
{
    if cs.len() == 0 {
        Seq::empty()
    } else {
        let init = emitted_children(min_depth, max_depth, show_hidden, dir, cs.drop_last());
        if emits_child(min_depth, max_depth, show_hidden, dir.len(), cs.last()) {
            init.push(child_entry(dir, cs.last()))
        } else {
            init
        }
    }
}

/// The directories that one listing adds to the stack of directories still to
/// be read, bottom first: the listing's first directory ends on top, so it is
/// read next and the walk is depth first.
pub open spec fn stacked_frames(
    max_depth: nat,
    show_hidden: bool,
    dir: Seq<Seq<char>>,
    cs: Seq<ChildV>,
) -> Seq<Seq<Seq<char>>>
    decreases cs.len(),
{
    if cs.len() == 0 {
        Seq::empty()
    } else {
        let rest = stacked_frames(max_depth, show_hidden, dir, cs.drop_first());
        if descends_into(max_depth, show_hidden, dir.len(), cs.first()) {
            rest.push(dir.push(cs.first().name))
        } else {
            rest
        }
    }
}

/// A directory still to be read: its components beneath the root, and their
/// count as its depth.
struct Frame {
    components: Vec<String>,
    depth: usize,
}

impl Frame {
    spec fn frame_view(&self) -> Seq<Seq<char>> {
        self.components.deep_view()
    }
}

spec fn frames_view(s: Seq<Frame>) -> Seq<Seq<Seq<char>>> {
    s.map_values(|f: Frame| f.frame_view())
}

/// Mathematical image of a `Walker`: its configuration and the stack of
/// directories still to be read, each as its components beneath the root.
#[verifier::ext_equal]
pub ghost struct WalkerView {
    pub min_depth: nat,
    pub max_depth: nat,
    pub show_hidden: bool,
    pub pending: Seq<Seq<Seq<char>>>,
}

/// The depth-first walk planner. It never touches the filesystem itself: the
/// caller pops the next directory to read with `next_dir`, reads it, and hands
/// the listing back through `feed`, which returns the entries to print and
/// schedules the subdirectories the walk still descends into.
pub struct Walker {
    min_depth: usize,
    max_depth: usize,
    show_hidden: bool,
    pending: Vec<Frame>,
}

impl View for Walker {
    type V = WalkerView;

    closed spec fn view(&self) -> WalkerView {
        WalkerView {
            min_depth: self.min_depth as nat,
            max_depth: self.max_depth as nat,
            show_hidden: self.show_hidden,
            pending: frames_view(self.pending@),
        }
    }
}

/// No component of the frame is hidden.
pub open spec fn frame_hidden_free(frame: Seq<Seq<char>>) -> bool {
    forall|i: int| 0 <= i < frame.len() ==> !hidden_name(#[trigger] frame[i])
}

impl Walker {
    spec fn frame_inv(&self, f: Frame) -> bool {
        &&& f.depth == f.components@.len()
        &&& f.depth < self.max_depth
        &&& (!self.show_hidden ==> frame_hidden_free(f.frame_view()))
    }

    #[verifier::type_invariant]
    spec fn inv(&self) -> bool {
        forall|i: int| 0 <= i < self.pending@.len() ==> self.frame_inv(#[trigger] self.pending@[i])
    }

    /// Starts a walk below a root whose display name is `root_name`. The walk
    /// reads the root directory at all unless the window is empty
    /// (`max_depth` of zero), or the root itself would be printed
    /// (`min_depth` of zero) yet fails the hidden-entry filter — a root whose
    /// name merely starts with a dot, such as `.`, is otherwise walked.
    pub fn new(cfg: &Config, root_name: &str) -> (w: Walker)
        ensures
            w@.min_depth == cfg.min_depth as nat,
            w@.max_depth == cfg.max_depth as nat,
            w@.show_hidden == cfg.show_hidden,
            w@.pending == if cfg.max_depth >= 1 && (cfg.min_depth >= 1 || visible(
                cfg.show_hidden,
                root_name@,
            )) {
                seq![Seq::<Seq<char>>::empty()]
            } else {
                Seq::<Seq<Seq<char>>>::empty()
            },
    {
        let descend = cfg.max_depth >= 1 && (cfg.min_depth >= 1 || cfg.show_hidden
            || !is_hidden(root_name));
        let mut pending: Vec<Frame> = Vec::new();
        if descend {
            pending.push(Frame { components: Vec::new(), depth: 0 });
        }
        let w = Walker {
            min_depth: cfg.min_depth,
            max_depth: cfg.max_depth,
            show_hidden: cfg.show_hidden,
            pending,
        };
        proof {
            assert(w@.pending =~~= if cfg.max_depth >= 1 && (cfg.min_depth >= 1 || visible(
                cfg.show_hidden,
                root_name@,
            )) {
                seq![Seq::<Seq<char>>::empty()]
            } else {
                Seq::<Seq<Seq<char>>>::empty()
            });
        }
        w
    }

    /// The components, beneath the root, of the directory the walk reads
    /// next; `None` when the walk is finished.
    pub fn next_dir(&self) -> (r: Option<Vec<String>>)
        ensures
            match r {
                Option::None => self@.pending.len() == 0,
                Option::Some(c) => self@.pending.len() > 0 && c.deep_view()
                    == self@.pending.last(),
            },
    {
        if self.pending.len() == 0 {
            Option::None
        } else {
            let f = &self.pending[self.pending.len() - 1];
            Option::Some(clone_components(&f.components))
        }
    }

    /// Consumes the listing of the directory `next_dir` named: returns the
    /// entries to print for it, in listing order, and pushes the
    /// subdirectories still to be read, the listing's first one on top. Every
    /// returned entry is well formed and lies within the depth window; with
    /// hidden entries off, neither a printed entry nor a scheduled directory
    /// carries a hidden component. With nothing pending the listing is
    /// ignored.
    pub fn feed(&mut self, children: &Vec<ChildInfo>) -> (out: Vec<Entry>)
        ensures
            final(self)@.min_depth == old(self)@.min_depth,
            final(self)@.max_depth == old(self)@.max_depth,
            final(self)@.show_hidden == old(self)@.show_hidden,
            old(self)@.pending.len() == 0 ==> final(self)@ == old(self)@ && out@.len() == 0,
            old(self)@.pending.len() > 0 ==> {
                &&& entry_views(out@) == emitted_children(
                    old(self)@.min_depth,
                    old(self)@.max_depth,
                    old(self)@.show_hidden,
                    old(self)@.pending.last(),
                    child_views(children@),
                )
                &&& final(self)@.pending == old(self)@.pending.drop_last() + stacked_frames(
                    old(self)@.max_depth,
                    old(self)@.show_hidden,
                    old(self)@.pending.last(),
                    child_views(children@),
                )
            },
            forall|i: int|
                0 <= i < out@.len() ==> entry_wf(#[trigger] out@[i]@) && depth_within(
                    out@[i]@.depth,
                    old(self)@.min_depth,
                    old(self)@.max_depth,
                ),
            !old(self)@.show_hidden ==> forall|i: int|
                0 <= i < out@.len() ==> entry_hidden_free(#[trigger] out@[i]@),
            !old(self)@.show_hidden ==> forall|i: int|
                0 <= i < final(self)@.pending.len() ==> frame_hidden_free(
                    #[trigger] final(self)@.pending[i],
                ),
    {
        proof {
            use_type_invariant(&*self);
        }
        let ghost w0 = self@;
        let ghost cv = child_views(children@);
        let mut pending: Vec<Frame> = Vec::new();
        core::mem::swap(&mut pending, &mut self.pending);
        if pending.len() == 0 {
            core::mem::swap(&mut pending, &mut self.pending);
            proof {
                assert(self@ =~~= w0);
                assert(w0.pending =~~= Seq::<Seq<Seq<char>>>::empty());
            }
            return Vec::new();
        }
        let frame = pending.pop().unwrap();
        let ghost dir = frame.frame_view();
        let ghost rest = frames_view(pending@);
        proof {
            assert(w0.pending.last() == dir);
            assert(rest =~~= w0.pending.drop_last());
        }
        let mut out: Vec<Entry> = Vec::new();
        let mut i: usize = 0;
        while i < children.len()
            invariant
                i <= children@.len(),
                cv == child_views(children@),
                entry_views(out@) == emitted_children(
                    w0.min_depth,
                    w0.max_depth,
                    w0.show_hidden,
                    dir,
                    cv.take(i as int),
                ),
                frame.depth == frame.components@.len(),
                frame.depth < w0.max_depth,
                dir == frame.frame_view(),
                w0.min_depth == self.min_depth as nat,
                w0.max_depth == self.max_depth as nat,
                w0.show_hidden == self.show_hidden,
                !w0.show_hidden ==> frame_hidden_free(dir),
                forall|k: int|
                    0 <= k < out@.len() ==> entry_wf(#[trigger] out@[k]@) && depth_within(
                        out@[k]@.depth,
                        w0.min_depth,
                        w0.max_depth,
                    ),
                !w0.show_hidden ==> forall|k: int|
                    0 <= k < out@.len() ==> entry_hidden_free(#[trigger] out@[k]@),
            decreases children@.len() - i,
        {
            let c = &children[i];
            let printed = (self.show_hidden || !is_hidden(c.name.as_str())) && self.min_depth
                <= frame.depth + 1 && frame.depth + 1 <= self.max_depth;
            proof {
                assert(cv[i as int] == children@[i as int]@);
                assert(cv.take(i + 1).drop_last() =~~= cv.take(i as int));
                assert(cv.take(i + 1).last() == cv[i as int]);
            }
            if printed {
                let mut comps = clone_components(&frame.components);
                comps.push(clone_string(&c.name));
                let e = Entry {
                    components: comps,
                    name: clone_string(&c.name),
                    kind: c.kind,
                    size: c.size,
                    modified_secs: c.modified_secs,
                    depth: frame.depth + 1,
                };
                proof {
                    assert(e@.components =~~= dir.push(cv[i as int].name));
                    assert(e@ =~~= child_entry(dir, cv[i as int]));
                    assert(e@.components.drop_last() =~~= dir);
                }
                out.push(e);
                proof {
                    assert(entry_views(out@) =~~= emitted_children(
                        w0.min_depth,
                        w0.max_depth,
                        w0.show_hidden,
                        dir,
                        cv.take(i + 1),
                    ));
                    assert(forall|j: int|
                        0 <= j < e@.components.len() - 1 ==> e@.components[j] == dir[j]);
                }
            } else {
                proof {
                    assert(entry_views(out@) =~~= emitted_children(
                        w0.min_depth,
                        w0.max_depth,
                        w0.show_hidden,
                        dir,
                        cv.take(i + 1),
                    ));
                }
            }
            i += 1;
        }
        proof {
            assert(cv.take(children@.len() as int) =~~= cv);
        }
        let mut j: usize = children.len();
        while j > 0
            invariant
                j <= children@.len(),
                cv == child_views(children@),
                frames_view(pending@) == rest + stacked_frames(
                    w0.max_depth,
                    w0.show_hidden,
                    dir,
                    cv.skip(j as int),
                ),
                frame.depth == frame.components@.len(),
                frame.depth < w0.max_depth,
                dir == frame.frame_view(),
                w0.min_depth == self.min_depth as nat,
                w0.max_depth == self.max_depth as nat,
                w0.show_hidden == self.show_hidden,
                !w0.show_hidden ==> frame_hidden_free(dir),
                forall|k: int| 0 <= k < pending@.len() ==> self.frame_inv(#[trigger] pending@[k]),
            decreases j,
        {
            j -= 1;
            let c = &children[j];
            let descend = matches!(c.kind, EntryKind::Directory) && (self.show_hidden
                || !is_hidden(c.name.as_str())) && frame.depth + 1 < self.max_depth;
            proof {
                assert(cv[j as int] == children@[j as int]@);
                assert(cv.skip(j as int).first() == cv[j as int]);
                assert(cv.skip(j as int).drop_first() =~~= cv.skip(j + 1));
            }
            proof {
                assert(descend == descends_into(
                    w0.max_depth,
                    w0.show_hidden,
                    dir.len(),
                    cv[j as int],
                ));
            }
            if descend {
                let mut comps = clone_components(&frame.components);
                comps.push(clone_string(&c.name));
                let nf = Frame { components: comps, depth: frame.depth + 1 };
                proof {
                    assert(nf.frame_view() =~~= dir.push(cv[j as int].name));
                    if !w0.show_hidden {
                        assert forall|k: int| 0 <= k < nf.frame_view().len() implies !hidden_name(
                            #[trigger] nf.frame_view()[k],
                        ) by {
                            if k < dir.len() {
                                assert(nf.frame_view()[k] == dir[k]);
                            }
                        }
                    }
                }
                let ghost pprev = pending@;
                let ghost sj = stacked_frames(w0.max_depth, w0.show_hidden, dir, cv.skip(j as int));
                let ghost sj1 = stacked_frames(
                    w0.max_depth,
                    w0.show_hidden,
                    dir,
                    cv.skip(j + 1),
                );
                pending.push(nf);
                proof {
                    assert(frames_view(pprev) == rest + sj1);
                    assert(frames_view(pprev).len() == pprev.len());
                    assert(frames_view(pending@).len() == pending@.len());
                    assert(pprev.len() == rest.len() + sj1.len());
                    assert(sj == sj1.push(dir.push(cv[j as int].name)));
                    assert(nf.frame_view() == dir.push(cv[j as int].name));
                    assert(pending@ == pprev.push(nf));
                    assert forall|k: int| 0 <= k < frames_view(pending@).len() implies
                        frames_view(pending@)[k] == (rest + sj)[k] by {
                        if k < pprev.len() {
                            assert(frames_view(pending@)[k] == pending@[k].frame_view());
                            assert(pending@[k] == pprev[k]);
                            assert(frames_view(pprev)[k] == pprev[k].frame_view());
                            assert((rest + sj1)[k] == (rest + sj)[k]);
                        } else {
                            assert(pending@[k] == nf);
                            assert(frames_view(pending@)[k] == nf.frame_view());
                            assert(k == rest.len() + sj1.len());
                            assert((rest + sj)[k] == sj[sj1.len() as int]);
                        }
                    }
                    assert(frames_view(pending@) =~~= rest + sj);
                }
            } else {
                proof {
                    assert(stacked_frames(w0.max_depth, w0.show_hidden, dir, cv.skip(j as int))
                        == stacked_frames(w0.max_depth, w0.show_hidden, dir, cv.skip(j + 1)));
                }
            }
        }
        self.pending = pending;
        proof {
            assert(cv.skip(0) =~~= cv);
            assert(self@.pending == rest + stacked_frames(
                w0.max_depth,
                w0.show_hidden,
                dir,
                cv,
            ));
            if !w0.show_hidden {
                lemma_stacked_frames_hidden_free(w0.max_depth, w0.show_hidden, dir, cv);
                assert forall|k: int| 0 <= k < self@.pending.len() implies frame_hidden_free(
                    #[trigger] self@.pending[k],
                ) by {
                    if k < rest.len() {
                        assert(self@.pending[k] == rest[k]);
                        assert(rest[k] == w0.pending[k]);
                    } else {
                        assert(self@.pending[k] == stacked_frames(
                            w0.max_depth,
                            w0.show_hidden,
                            dir,
                            cv,
                        )[k - rest.len()]);
                    }
                }
            }
        }
        out
    }
}

/// Every frame that a listing schedules extends the read directory by one of
/// the listing's names; with hidden entries off, none of its components is
/// hidden when the directory's own components are not.
pub proof fn lemma_stacked_frames_hidden_free(
    max_depth: nat,
    show_hidden: bool,
    dir: Seq<Seq<char>>,
    cs: Seq<ChildV>,
)
    requires
        !show_hidden ==> frame_hidden_free(dir),
    ensures
        forall|i: int|
            0 <= i < stacked_frames(max_depth, show_hidden, dir, cs).len() ==> (!show_hidden
                ==> frame_hidden_free(
                #[trigger] stacked_frames(max_depth, show_hidden, dir, cs)[i],
            )),
    decreases cs.len(),
{
    if cs.len() > 0 {
        lemma_stacked_frames_hidden_free(max_depth, show_hidden, dir, cs.drop_first());
        let rest = stacked_frames(max_depth, show_hidden, dir, cs.drop_first());
        if descends_into(max_depth, show_hidden, dir.len(), cs.first()) {
            let nf = dir.push(cs.first().name);
            if !show_hidden {
                assert(visible(show_hidden, cs.first().name));
                assert forall|k: int| 0 <= k < nf.len() implies !hidden_name(#[trigger] nf[k]) by {
                    if k < dir.len() {
                        assert(nf[k] == dir[k]);
                    }
                }
            }
        }
    }
}

/// The entries a whole walk prints, one listing fed per step: what a caller
/// that pops directories with `next_dir` and answers each with `feed` prints,
/// in order.
pub open spec fn walk_emissions(w: WalkerView, listings: Seq<Seq<ChildV>>) -> Seq<EntryV>
    decreases listings.len(),
{
    if listings.len() == 0 || w.pending.len() == 0 {
        Seq::empty()
    } else {
        let dir = w.pending.last();
        let produced = emitted_children(
            w.min_depth,
            w.max_depth,
            w.show_hidden,
            dir,
            listings.first(),
        );
        let next = WalkerView {
            min_depth: w.min_depth,
            max_depth: w.max_depth,
            show_hidden: w.show_hidden,
            pending: w.pending.drop_last() + stacked_frames(
                w.max_depth,
                w.show_hidden,
                dir,
                listings.first(),
            ),
        };
        produced + walk_emissions(next, listings.drop_first())
    }
}

/// Every entry printed for one listing is well formed and lies within the
/// depth window; with hidden entries off, none carries a hidden component
/// when the read directory carries none.
pub proof fn lemma_emitted_children_bounds(
    min_depth: nat,
    max_depth: nat,
    show_hidden: bool,
    dir: Seq<Seq<char>>,
    cs: Seq<ChildV>,
)
    ensures
        forall|i: int|
            0 <= i < emitted_children(min_depth, max_depth, show_hidden, dir, cs).len()
                ==> entry_wf(
                #[trigger] emitted_children(min_depth, max_depth, show_hidden, dir, cs)[i],
            ) && depth_within(
                emitted_children(min_depth, max_depth, show_hidden, dir, cs)[i].depth,
                min_depth,
                max_depth,
            ),
        !show_hidden && frame_hidden_free(dir) ==> forall|i: int|
            0 <= i < emitted_children(min_depth, max_depth, show_hidden, dir, cs).len()
                ==> entry_hidden_free(
                #[trigger] emitted_children(min_depth, max_depth, show_hidden, dir, cs)[i],
            ),
    decreases cs.len(),
{
    if cs.len() > 0 {
        lemma_emitted_children_bounds(min_depth, max_depth, show_hidden, dir, cs.drop_last());
        if emits_child(min_depth, max_depth, show_hidden, dir.len(), cs.last()) {
            let e = child_entry(dir, cs.last());
            assert(e.components.last() == cs.last().name);
            if !show_hidden && frame_hidden_free(dir) {
                assert forall|k: int| 0 <= k < e.components.len() implies !hidden_name(
                    #[trigger] e.components[k],
                ) by {
                    if k < dir.len() {
                        assert(e.components[k] == dir[k]);
                    } else {
                        assert(e.components[k] == cs.last().name);
                    }
                }
            }
        }
    }
}

/// Depth bounds: every entry a walk prints lies within the inclusive window
/// `[min_depth, max_depth]`, whatever the tree holds.
pub proof fn lemma_walk_depth_bounds(w: WalkerView, listings: Seq<Seq<ChildV>>)
    ensures
        forall|i: int|
            0 <= i < walk_emissions(w, listings).len() ==> depth_within(
                (#[trigger] walk_emissions(w, listings)[i]).depth,
                w.min_depth,
                w.max_depth,
            ),
    decreases listings.len(),
{
    if listings.len() > 0 && w.pending.len() > 0 {
        let dir = w.pending.last();
        let produced = emitted_children(
            w.min_depth,
            w.max_depth,
            w.show_hidden,
            dir,
            listings.first(),
        );
        let next = WalkerView {
            min_depth: w.min_depth,
            max_depth: w.max_depth,
            show_hidden: w.show_hidden,
            pending: w.pending.drop_last() + stacked_frames(
                w.max_depth,
                w.show_hidden,
                dir,
                listings.first(),
            ),
        };
        lemma_emitted_children_bounds(
            w.min_depth,
            w.max_depth,
            w.show_hidden,
            dir,
            listings.first(),
        );
        lemma_walk_depth_bounds(next, listings.drop_first());
        assert forall|i: int| 0 <= i < walk_emissions(w, listings).len() implies depth_within(
            (#[trigger] walk_emissions(w, listings)[i]).depth,
            w.min_depth,
            w.max_depth,
        ) by {
            if i < produced.len() {
                assert(walk_emissions(w, listings)[i] == produced[i]);
            } else {
                assert(walk_emissions(w, listings)[i] == walk_emissions(
                    next,
                    listings.drop_first(),
                )[i - produced.len()]);
            }
        }
    }
}

/// Hidden-entry pruning: with hidden entries off, a walk whose scheduled
/// directories carry no hidden component — as a fresh walk's do — never
/// prints an entry with a hidden component, whatever listings the tree
/// yields: a hidden directory is never read, so nothing beneath one is ever
/// seen.
pub proof fn lemma_walk_hidden_free(w: WalkerView, listings: Seq<Seq<ChildV>>)
    requires
        !w.show_hidden,
        forall|i: int| 0 <= i < w.pending.len() ==> frame_hidden_free(#[trigger] w.pending[i]),
    ensures
        forall|i: int|
            0 <= i < walk_emissions(w, listings).len() ==> entry_hidden_free(
                #[trigger] walk_emissions(w, listings)[i],
            ),
    decreases listings.len(),
{
    if listings.len() > 0 && w.pending.len() > 0 {
        let dir = w.pending.last();
        let produced = emitted_children(
            w.min_depth,
            w.max_depth,
            w.show_hidden,
            dir,
            listings.first(),
        );
        let stacked = stacked_frames(w.max_depth, w.show_hidden, dir, listings.first());
        let next = WalkerView {
            min_depth: w.min_depth,
            max_depth: w.max_depth,
            show_hidden: w.show_hidden,
            pending: w.pending.drop_last() + stacked,
        };
        lemma_emitted_children_bounds(
            w.min_depth,
            w.max_depth,
            w.show_hidden,
            dir,
            listings.first(),
        );
        lemma_stacked_frames_hidden_free(w.max_depth, w.show_hidden, dir, listings.first());
        assert forall|i: int| 0 <= i < next.pending.len() implies frame_hidden_free(
            #[trigger] next.pending[i],
        ) by {
            if i < w.pending.len() - 1 {
                assert(next.pending[i] == w.pending[i]);
            } else {
                assert(next.pending[i] == stacked[i - (w.pending.len() - 1)]);
            }
        }
        lemma_walk_hidden_free(next, listings.drop_first());
        assert forall|i: int| 0 <= i < walk_emissions(w, listings).len() implies entry_hidden_free(
            #[trigger] walk_emissions(w, listings)[i],
        ) by {
            if i < produced.len() {
                assert(walk_emissions(w, listings)[i] == produced[i]);
            } else {
                assert(walk_emissions(w, listings)[i] == walk_emissions(
                    next,
                    listings.drop_first(),
                )[i - produced.len()]);
            }
        }
    }
}

/// Idempotence: two walks from the same state over the same listings print
/// the same entries, in the same order — a walk is a function of the
/// configuration and the directory contents alone.
pub proof fn lemma_walk_idempotent(
    w: WalkerView,
    listings: Seq<Seq<ChildV>>,
    out1: Seq<EntryV>,
    out2: Seq<EntryV>,
)
    requires
        out1 == walk_emissions(w, listings),
        out2 == walk_emissions(w, listings),
    ensures
        out1 == out2,
{
}

/// The entry printed for the walk's root itself: present exactly when the
/// window starts at depth zero and the root passes the hidden-entry filter.
pub fn root_entry(cfg: &Config, root: &ChildInfo) -> (r: Option<Entry>)
    ensures
        (r is Some) <==> (cfg.min_depth == 0 && visible(cfg.show_hidden, root.name@)),
        r matches Some(e) ==> e@ == (EntryV {
            components: Seq::empty(),
            name: root.name@,
            kind: root.kind,
            size: root.size,
            modified_secs: root.modified_secs,
            depth: 0,
        }),
{
    if cfg.min_depth == 0 && (cfg.show_hidden || !is_hidden(root.name.as_str())) {
        let e = Entry {
            components: Vec::new(),
            name: clone_string(&root.name),
            kind: root.kind,
            size: root.size,
            modified_secs: root.modified_secs,
            depth: 0,
        };
        proof {
            assert(e@.components =~~= Seq::<Seq<char>>::empty());
        }
        Option::Some(e)
    } else {
        Option::None
    }
}

/// A clone of one display name, character for character.
pub fn clone_string(s: &String) -> (r: String)
    ensures
        r@ == s@,
{
    s.clone()
}

/// A clone of a component list, component for component.
pub fn clone_components(v: &Vec<String>) -> (r: Vec<String>)
    ensures
        r.deep_view() == v.deep_view(),
{
    let mut r: Vec<String> = Vec::new();
    let mut i: usize = 0;
    while i < v.len()
        invariant
            i <= v@.len(),
            r@.len() == i,
            forall|k: int| 0 <= k < i ==> (#[trigger] r@[k])@ == v@[k]@,
        decreases v@.len() - i,
    {
        r.push(v[i].clone());
        i += 1;
    }
    proof {
        assert forall|k: int| 0 <= k < r.deep_view().len() implies r.deep_view()[k]
            == v.deep_view()[k] by {
            assert(r@[k]@ == v@[k]@);
        }
        assert(r.deep_view() =~~= v.deep_view());
    }
    r
}

} // verus!
