//! The order in which a start brings up a project's dependencies: a depth-
//! first walk over what each process starts first, that never descends into
//! a process whose start is already under way (so a dependency cycle ends).
//! The caller launches each process the walk names, in turn.
use super::lifecycle::start_deps_of;
use super::{ProcessManager, StatusView};
use crate::config::{strs, ProjectView};
use crate::text::{chars_of, copy_str, seq_eq};
use vstd::prelude::*;

verus! {

/// A process whose start is under way: its id, what it starts first (as
/// read when its start began), and how many of those were looked at.
pub struct StartFrame {
    pub id: String,
    pub deps: Vec<String>,
    pub next: usize,
}

pub struct FrameView {
    pub id: Seq<char>,
    pub deps: Seq<Seq<char>>,
    pub next: nat,
}

impl StartFrame {
    pub open spec fn view(&self) -> FrameView {
        FrameView { id: self.id@, deps: strs(self.deps@), next: self.next as nat }
    }
}

pub open spec fn frame_views(s: Seq<StartFrame>) -> Seq<FrameView> {
    s.map_values(|f: StartFrame| f.view())
}

/// The starts under way, outermost first.
pub struct StartWalk {
    pub frames: Vec<StartFrame>,
}

/// What one step of the walk did.
#[derive(PartialEq, Eq, Debug)]
pub enum WalkStep {
    /// Every dependency of this process was looked at: launch it now.
    Launch(String),
    /// A dependency that must be started: its own start begins.
    Descend,
    /// A dependency that is not stopped, not registered, or already being
    /// started further out: passed over.
    Skip,
    /// The walk is over.
    Done,
}

pub enum StepView {
    Launch(Seq<char>),
    Descend,
    Skip,
    Done,
}

impl WalkStep {
    pub open spec fn view(&self) -> StepView {
        match self {
            WalkStep::Launch(id) => StepView::Launch(id@),
            WalkStep::Descend => StepView::Descend,
            WalkStep::Skip => StepView::Skip,
            WalkStep::Done => StepView::Done,
        }
    }
}

/// The ids of the starts under way below the outermost one: a dependency
/// among these is not started again.
pub open spec fn chain_ids(frames: Seq<FrameView>) -> Seq<Seq<char>> {
    if frames.len() == 0 {
        Seq::empty()
    } else {
        frames.skip(1).map_values(|f: FrameView| f.id)
    }
}

/// A dependency is started when it is registered and stopped.
pub open spec fn stopped_in(t: Map<Seq<char>, (ProjectView, StatusView)>, k: Seq<char>) -> bool {
    t.contains_key(k) && t[k].1 == StatusView::Stopped
}

/// One step of the walk over table `t`: look at the next dependency of the
/// innermost start and begin its start when it is stopped and not already
/// under way, else pass it over; with none left, launch that process.
pub open spec fn step_of(frames: Seq<FrameView>, t: Map<Seq<char>, (ProjectView, StatusView)>) -> (
    Seq<FrameView>,
    StepView,
) {
    if frames.len() == 0 {
        (frames, StepView::Done)
    } else {
        let top = frames.last();
        if top.next < top.deps.len() {
            let dep = top.deps[top.next as int];
            let moved = frames.update(frames.len() - 1, FrameView { next: top.next + 1, ..top });
            if stopped_in(t, dep) && !chain_ids(frames).contains(dep) {
                (moved.push(FrameView { id: dep, deps: start_deps_of(t, dep), next: 0 }), StepView::Descend)
            } else {
                (moved, StepView::Skip)
            }
        } else {
            (frames.drop_last(), StepView::Launch(top.id))
        }
    }
}

/// The walk's invariant over table `t`: the starts under way below the
/// outermost one are of distinct, registered processes.
pub open spec fn walk_inv(frames: Seq<FrameView>, t: Map<Seq<char>, (ProjectView, StatusView)>) -> bool {
    &&& chain_ids(frames).no_duplicates()
    &&& forall|i: int| 0 <= i < chain_ids(frames).len() ==> t.contains_key(#[trigger] chain_ids(frames)[i])
}

/// A step keeps the invariant, also when the statuses changed since the
/// last step (a launch in between) but the same processes are registered.
pub proof fn law_step_keeps_walk_inv(
    frames: Seq<FrameView>,
    t: Map<Seq<char>, (ProjectView, StatusView)>,
    u: Map<Seq<char>, (ProjectView, StatusView)>,
)
    requires
        walk_inv(frames, t),
        u.dom() == t.dom(),
    ensures
        walk_inv(step_of(frames, u).0, t),
{
    if frames.len() > 0 {
        let top = frames.last();
        let c = chain_ids(frames);
        if top.next < top.deps.len() {
            let dep = top.deps[top.next as int];
            let moved = frames.update(frames.len() - 1, FrameView { next: top.next + 1, ..top });
            assert(chain_ids(moved) =~= c);
            if stopped_in(u, dep) && !c.contains(dep) {
                assert(t.contains_key(dep));
                let pushed = moved.push(FrameView { id: dep, deps: start_deps_of(u, dep), next: 0 });
                assert(chain_ids(pushed) =~= c.push(dep));
                assert(c.push(dep).no_duplicates()) by {
                    assert forall|i: int, j: int|
                        0 <= i < c.push(dep).len() && 0 <= j < c.push(dep).len() && i != j implies c.push(dep)[i]
                        != c.push(dep)[j] by {
                        if i == c.len() as int {
                            assert(c[j] == c.push(dep)[j]);
                        } else if j == c.len() as int {
                            assert(c[i] == c.push(dep)[i]);
                        }
                    }
                }
            }
        } else {
            if frames.len() > 1 {
                assert(chain_ids(frames.drop_last()) =~= c.drop_last());
            } else {
                assert(chain_ids(frames.drop_last()) =~= Seq::<Seq<char>>::empty());
            }
        }
    }
}

/// However dependencies loop, a walk over the table of a process manager
/// never has more starts under way than one more than the processes
/// registered.
pub proof fn law_walk_depth_bounded(m: ProcessManager, frames: Seq<FrameView>)
    requires
        walk_inv(frames, m.processes()),
    ensures
        frames.len() <= m.processes().dom().len() + 1,
{
    let c = chain_ids(frames);
    m.lemma_table_finite();
    c.unique_seq_to_set();
    assert(c.to_set().subset_of(m.processes().dom())) by {
        assert forall|k: Seq<char>| c.to_set().contains(k) implies m.processes().dom().contains(k) by {
            let i = choose|i: int| 0 <= i < c.len() && c[i] == k;
            assert(m.processes().contains_key(c[i]));
        }
    }
    vstd::set_lib::lemma_len_subset(c.to_set(), m.processes().dom());
    if frames.len() > 0 {
        assert(c.len() == frames.len() - 1);
    }
}

/// How many of a start's dependencies are still to be looked at.
pub open spec fn left_of(f: FrameView) -> int {
    if f.next < f.deps.len() {
        f.deps.len() - f.next
    } else {
        0
    }
}

/// What is left of each start under way, outermost first.
pub open spec fn progress(frames: Seq<FrameView>) -> Seq<int> {
    frames.map_values(|f: FrameView| left_of(f))
}

/// `a` comes before `b` in the order that compares what is left start by
/// start from the outermost, a missing start counting as less than any.
pub open spec fn lex_below(a: Seq<int>, b: Seq<int>) -> bool {
    exists|k: int|
        0 <= k <= a.len() && k <= b.len() && #[trigger] a.take(k) == b.take(k) && ((k == a.len() && k
            < b.len()) || (k < a.len() && k < b.len() && a[k] < b[k]))
}

/// Every step of an unfinished walk moves it down the order `lex_below`.
/// With the depth bounded (`law_walk_depth_bounded`) and what is left of
/// each start bounded by its dependencies, that order has no infinite
/// descent, so a walk ends, also over a dependency cycle.
pub proof fn law_step_descends(frames: Seq<FrameView>, t: Map<Seq<char>, (ProjectView, StatusView)>)
    requires
        frames.len() > 0,
    ensures
        lex_below(progress(step_of(frames, t).0), progress(frames)),
{
    let k = frames.len() - 1;
    let b = progress(frames);
    let a = progress(step_of(frames, t).0);
    let top = frames.last();
    if top.next < top.deps.len() {
        let moved = frames.update(k, FrameView { next: top.next + 1, ..top });
        assert(progress(moved).take(k) =~= b.take(k));
        assert(progress(moved)[k] < b[k]);
        let dep = top.deps[top.next as int];
        if stopped_in(t, dep) && !chain_ids(frames).contains(dep) {
            let pushed = moved.push(FrameView { id: dep, deps: start_deps_of(t, dep), next: 0 });
            assert(progress(pushed).take(k) =~= b.take(k));
            assert(progress(pushed)[k] == progress(moved)[k]);
        }
        assert(a.take(k) == b.take(k));
    } else {
        assert(a.take(k) =~= b.take(k));
    }
}

impl StartWalk {
    /// The walk of a start of `id`: its start under way, nothing of what it
    /// starts first looked at yet.
    pub fn new(id: &str, m: &ProcessManager) -> (w: Self)
        requires
            m.wf(),
        ensures
            frame_views(w.frames@) == seq![FrameView { id: id@, deps: start_deps_of(m.processes(), id@), next: 0 }],
            walk_inv(frame_views(w.frames@), m.processes()),
    {
        let deps = m.start_deps(id);
        let mut frames: Vec<StartFrame> = Vec::new();
        frames.push(StartFrame { id: copy_str(id), deps, next: 0 });
        assert(frame_views(frames@) =~= seq![FrameView { id: id@, deps: start_deps_of(m.processes(), id@), next: 0 }]);
        assert(chain_ids(frame_views(frames@)) =~= Seq::<Seq<char>>::empty());
        StartWalk { frames }
    }

    /// Whether `k` is among the starts under way below the outermost one.
    fn in_chain(&self, k: &[char]) -> (r: bool)
        ensures
            r == chain_ids(frame_views(self.frames@)).contains(k@),
    {
        let ghost fv = frame_views(self.frames@);
        let ghost c = chain_ids(fv);
        let mut i: usize = 1;
        while i < self.frames.len()
            invariant
                1 <= i <= self.frames@.len() || self.frames@.len() == 0,
                fv == frame_views(self.frames@),
                c == chain_ids(fv),
                forall|j: int| 1 <= j < i ==> self.frames@[j].id@ != k@,
            decreases self.frames@.len() - i,
        {
            if seq_eq(chars_of(self.frames[i].id.as_str()).as_slice(), k) {
                assert(c[i - 1] == k@);
                return true;
            }
            i = i + 1;
        }
        assert forall|j: int| 0 <= j < c.len() implies c[j] != k@ by {
            assert(c.len() == self.frames@.len() - 1);
            assert(c[j] == fv[j + 1].id);
            assert(fv[j + 1].id == self.frames@[j + 1].id@);
        }
        false
    }

    /// One step of the walk over the table of `m`.
    pub fn step(&mut self, m: &ProcessManager) -> (r: WalkStep)
        requires
            m.wf(),
        ensures
            (frame_views(final(self).frames@), r.view()) == step_of(frame_views(old(self).frames@), m.processes()),
    {
        let ghost fv = frame_views(self.frames@);
        let ghost t = m.processes();
        if self.frames.len() == 0 {
            return WalkStep::Done;
        }
        let mut top = self.frames.pop().unwrap();
        let ghost rest = self.frames@;
        assert(frame_views(rest) =~= fv.drop_last());
        if top.next < top.deps.len() {
            let n = top.next;
            let dep = copy_str(top.deps[n].as_str());
            assert(dep@ == fv.last().deps[n as int]);
            top.next = n + 1;
            self.frames.push(top);
            let ghost moved = fv.update(fv.len() - 1, FrameView { next: fv.last().next + 1, ..fv.last() });
            assert(frame_views(self.frames@) =~= moved);
            let d = chars_of(dep.as_str());
            let under_way = self.in_chain(d.as_slice());
            assert(chain_ids(moved) =~= chain_ids(fv));
            if m.needs_start(dep.as_str()) && !under_way {
                let deps = m.start_deps(dep.as_str());
                let ghost dv = dep@;
                self.frames.push(StartFrame { id: dep, deps, next: 0 });
                assert(frame_views(self.frames@) =~= moved.push(
                    FrameView { id: dv, deps: start_deps_of(t, dv), next: 0 },
                ));
                WalkStep::Descend
            } else {
                WalkStep::Skip
            }
        } else {
            WalkStep::Launch(top.id)
        }
    }
}

} // verus!
