//! The orchestrator's window-set management and the per-frame decisions
//! of the window redraw cycle: the pending-request queue, the shared font
//! table, viewport reconciliation against each frame's output, and the
//! small close/teardown decisions of the per-window state machine.
//!
//! Viewport ids are plain integers here: the UI library derives one per
//! viewport and treats one reserved value as the root viewport; the host
//! side converts. The shared viewport-id set is reconciled while its lock
//! is held for the entire step, so sibling viewports spawned by the same
//! frame never race on membership.

use vstd::prelude::*;
use vstd::seq_lib::*;

verus! {

/// The ids kept when the shared set is reduced to what the frame still
/// references, in set order.
pub open spec fn retain_known(set: Seq<u64>, frame: Seq<u64>) -> Seq<u64>
    decreases set.len(),
{
    if set.len() == 0 {
        Seq::empty()
    } else {
        retain_known(set.drop_last(), frame) + (if frame.contains(set.last()) {
            seq![set.last()]
        } else {
            Seq::empty()
        })
    }
}

/// The viewport ids the frame newly references: in frame order, not the
/// root id, and not already in the set.
pub open spec fn fresh_ids(set: Seq<u64>, frame: Seq<u64>, root: u64) -> Seq<u64>
    decreases frame.len(),
{
    if frame.len() == 0 {
        Seq::empty()
    } else {
        fresh_ids(set, frame.drop_last(), root) + (if frame.last() != root && !set.contains(
            frame.last(),
        ) {
            seq![frame.last()]
        } else {
            Seq::empty()
        })
    }
}

/// The shared viewport-id set as one reconciliation step leaves it: a
/// plain window first drops the ids its frame abandoned (a viewport
/// window drops nothing), then the ids the frame newly references are
/// appended.
pub open spec fn reconciled_set(set: Seq<u64>, frame: Seq<u64>, root: u64, is_viewport: bool) -> Seq<
    u64,
> {
    let mid = if is_viewport {
        set
    } else {
        retain_known(set, frame)
    };
    mid + fresh_ids(mid, frame, root)
}

/// The decisions of one frame's viewport reconciliation.
pub struct ReconcileOutcome {
    /// Whether this container must quit: it is a viewport window whose
    /// own id is no longer in the shared set.
    pub quit: bool,
    /// Ids of viewports newly referenced by the frame, in frame order;
    /// the orchestrator turns each into a pending viewport-window
    /// request.
    pub new_viewport_ids: Vec<u64>,
}

/// Scan for an id in a vector of ids.
fn contains_id(v: &Vec<u64>, x: u64) -> (r: bool)
    ensures
        r == v@.contains(x),
{
    let n = v.len();
    let mut i: usize = 0;
    while i < n
        invariant
            i <= n,
            n == v@.len(),
            forall|k: int| 0 <= k < i ==> v@[k] != x,
        decreases n - i,
    {
        if v[i] == x {
            return true;
        }
        i += 1;
    }
    proof {
        assert(forall|k: int| 0 <= k < v@.len() ==> v@[k] != x);
    }
    false
}

/// Reconcile the shared viewport-id set against the viewport ids one
/// finished frame wants alive. A plain window removes the ids its frame
/// abandoned; a viewport window instead quits if its own id was dropped.
/// Every newly referenced id other than the root id is inserted and
/// reported, so the orchestrator can spawn its window. The caller holds
/// the set's lock for this whole step.
pub fn reconcile_viewports(
    viewportset: &mut Vec<u64>,
    own_id: u64,
    is_viewport: bool,
    root_id: u64,
    frame_ids: &Vec<u64>,
) -> (out: ReconcileOutcome)
    requires
        old(viewportset)@.no_duplicates(),
        frame_ids@.no_duplicates(),
    ensures
        final(viewportset)@ == reconciled_set(
            old(viewportset)@,
            frame_ids@,
            root_id,
            is_viewport,
        ),
        final(viewportset)@.no_duplicates(),
        out.new_viewport_ids@ == fresh_ids(
            if is_viewport {
                old(viewportset)@
            } else {
                retain_known(old(viewportset)@, frame_ids@)
            },
            frame_ids@,
            root_id,
        ),
        out.quit == (is_viewport && !old(viewportset)@.contains(own_id)),
{
    let ghost set0 = viewportset@;
    let ghost frame = frame_ids@;
    let mut quit = false;
    if !is_viewport {
        let mut kept: Vec<u64> = Vec::new();
        let n = viewportset.len();
        let mut i: usize = 0;
        while i < n
            invariant
                i <= n,
                n == set0.len(),
                viewportset@ == set0,
                frame_ids@ == frame,
                kept@ == retain_known(set0.take(i as int), frame),
            decreases n - i,
        {
            proof {
                assert(set0.take(i + 1).drop_last() =~= set0.take(i as int));
                assert(set0.take(i + 1).last() == set0[i as int]);
            }
            if contains_id(frame_ids, viewportset[i]) {
                kept.push(viewportset[i]);
            }
            i += 1;
        }
        proof {
            assert(set0.take(n as int) =~= set0);
        }
        *viewportset = kept;
    } else {
        quit = !contains_id(viewportset, own_id);
    }
    let ghost mid = viewportset@;
    proof {
        lemma_retain_known_elems(set0, frame);
        lemma_fresh_ids_elems(mid, frame, root_id);
        assert(mid.no_duplicates());
    }
    let mut new_ids: Vec<u64> = Vec::new();
    let m = frame_ids.len();
    let mut j: usize = 0;
    while j < m
        invariant
            j <= m,
            m == frame.len(),
            frame_ids@ == frame,
            mid.no_duplicates(),
            frame.no_duplicates(),
            new_ids@ == fresh_ids(mid, frame.take(j as int), root_id),
            viewportset@ == mid + new_ids@,
        decreases m - j,
    {
        proof {
            assert(frame.take(j + 1).drop_last() =~= frame.take(j as int));
            assert(frame.take(j + 1).last() == frame[j as int]);
            lemma_fresh_ids_elems(mid, frame.take(j as int), root_id);
        }
        let id = frame_ids[j];
        if id != root_id && !contains_id(viewportset, id) {
            proof {
                broadcast use group_seq_properties;

                assert(!mid.contains(id));
                assert(viewportset@.push(id) =~= mid + new_ids@.push(id));
            }
            viewportset.push(id);
            new_ids.push(id);
        } else {
            proof {
                broadcast use group_seq_properties;

                if id != root_id {
                    assert((mid + new_ids@).contains(id));
                    if new_ids@.contains(id) {
                        assert(frame.take(j as int).contains(id));
                        let k = choose|k: int|
                            0 <= k < frame.take(j as int).len() && frame.take(j as int)[k] == id;
                        assert(frame[k] == id);
                        assert(frame[j as int] == id);
                        assert(false);
                    }
                    assert(mid.contains(id));
                }
            }
        }
        j += 1;
    }
    proof {
        assert(frame.take(m as int) =~= frame);
        lemma_fresh_ids_elems(mid, frame, root_id);
        assert forall|a: int, b: int|
            0 <= a < mid.len() && 0 <= b < new_ids@.len() implies mid[a] != new_ids@[b] by {
            assert(mid.contains(mid[a]));
            assert(new_ids@.contains(new_ids@[b]));
        }
        lemma_no_dup_in_concat(mid, new_ids@);
    }
    ReconcileOutcome { quit, new_viewport_ids: new_ids }
}

/// `retain_known` keeps exactly the set elements the frame still
/// references, without duplicating any.
proof fn lemma_retain_known_elems(set: Seq<u64>, frame: Seq<u64>)
    ensures
        forall|x: u64| #[trigger]
            retain_known(set, frame).contains(x) <==> (set.contains(x) && frame.contains(x)),
        set.no_duplicates() ==> retain_known(set, frame).no_duplicates(),
    decreases set.len(),
{
    broadcast use group_seq_properties;

    if set.len() == 0 {
    } else {
        let rest = set.drop_last();
        lemma_retain_known_elems(rest, frame);
        assert(set =~= rest.push(set.last()));
        let tail: Seq<u64> = if frame.contains(set.last()) {
            seq![set.last()]
        } else {
            Seq::empty()
        };
        assert forall|x: u64| #[trigger]
            retain_known(set, frame).contains(x) implies (set.contains(x) && frame.contains(
            x,
        )) by {
            if retain_known(rest, frame).contains(x) {
            } else {
                assert(tail.contains(x));
                assert(x == set.last());
            }
        }
        assert forall|x: u64|
            set.contains(x) && frame.contains(x) implies #[trigger] retain_known(
            set,
            frame,
        ).contains(x) by {
            if rest.contains(x) {
                assert(retain_known(rest, frame).contains(x));
            } else {
                assert(x == set.last());
                assert(tail[0] == x);
                assert(tail.contains(x));
            }
        }
        if set.no_duplicates() {
            assert(rest.no_duplicates());
            assert(!rest.contains(set.last()));
            assert forall|i: int, j: int|
                0 <= i < retain_known(rest, frame).len() && 0 <= j < tail.len() implies
                retain_known(rest, frame)[i] != tail[j] by {
                assert(retain_known(rest, frame).contains(retain_known(rest, frame)[i]));
                assert(tail[j] == set.last());
            }
            lemma_no_dup_in_concat(retain_known(rest, frame), tail);
        }
    }
}

/// `fresh_ids` holds exactly the frame's ids that are neither the root id
/// nor already present, without duplicating any.
proof fn lemma_fresh_ids_elems(set: Seq<u64>, frame: Seq<u64>, root: u64)
    ensures
        forall|x: u64| #[trigger]
            fresh_ids(set, frame, root).contains(x) <==> (frame.contains(x) && x != root
                && !set.contains(x)),
        frame.no_duplicates() ==> fresh_ids(set, frame, root).no_duplicates(),
    decreases frame.len(),
{
    broadcast use group_seq_properties;

    if frame.len() == 0 {
    } else {
        let rest = frame.drop_last();
        lemma_fresh_ids_elems(set, rest, root);
        assert(frame =~= rest.push(frame.last()));
        let tail: Seq<u64> = if frame.last() != root && !set.contains(frame.last()) {
            seq![frame.last()]
        } else {
            Seq::empty()
        };
        assert forall|x: u64| #[trigger]
            fresh_ids(set, frame, root).contains(x) implies (frame.contains(x) && x != root
            && !set.contains(x)) by {
            if fresh_ids(set, rest, root).contains(x) {
            } else {
                assert(tail.contains(x));
                assert(x == frame.last());
            }
        }
        assert forall|x: u64|
            frame.contains(x) && x != root && !set.contains(x) implies #[trigger] fresh_ids(
            set,
            frame,
            root,
        ).contains(x) by {
            if rest.contains(x) {
                assert(fresh_ids(set, rest, root).contains(x));
            } else {
                assert(x == frame.last());
                assert(tail[0] == x);
                assert(tail.contains(x));
            }
        }
        if frame.no_duplicates() {
            assert(rest.no_duplicates());
            assert(!rest.contains(frame.last()));
            assert forall|i: int, j: int|
                0 <= i < fresh_ids(set, rest, root).len() && 0 <= j < tail.len() implies fresh_ids(
                set,
                rest,
                root,
            )[i] != tail[j] by {
                assert(fresh_ids(set, rest, root).contains(fresh_ids(set, rest, root)[i]));
                assert(tail[j] == frame.last());
            }
            lemma_no_dup_in_concat(fresh_ids(set, rest, root), tail);
        }
    }
}

/// Reducing a set whose elements the frame all references keeps it
/// unchanged.
proof fn lemma_retain_known_all(set: Seq<u64>, frame: Seq<u64>)
    requires
        forall|i: int| 0 <= i < set.len() ==> frame.contains(#[trigger] set[i]),
    ensures
        retain_known(set, frame) == set,
    decreases set.len(),
{
    if set.len() == 0 {
        assert(retain_known(set, frame) =~= set);
    } else {
        let rest = set.drop_last();
        lemma_retain_known_all(rest, frame);
        assert(frame.contains(set.last()));
        assert(retain_known(set, frame) =~= rest + seq![set.last()]);
        assert(rest + seq![set.last()] =~= set);
    }
}

/// A frame none of whose ids is new produces no fresh ids.
proof fn lemma_fresh_ids_none(set: Seq<u64>, frame: Seq<u64>, root: u64)
    requires
        forall|i: int| 0 <= i < frame.len() ==> frame[i] == root || set.contains(#[trigger] frame[i]),
    ensures
        fresh_ids(set, frame, root) == Seq::<u64>::empty(),
    decreases frame.len(),
{
    if frame.len() == 0 {
        assert(fresh_ids(set, frame, root) =~= Seq::<u64>::empty());
    } else {
        let rest = frame.drop_last();
        lemma_fresh_ids_none(set, rest, root);
        assert(frame.last() == root || set.contains(frame.last()));
        assert(fresh_ids(set, frame, root) =~= Seq::<u64>::empty());
    }
}

/// Law: viewport reconciliation is idempotent. Re-running the step with
/// an unchanged frame output leaves the shared id set unchanged and
/// produces zero new window requests.
pub proof fn lemma_reconcile_idempotent(set: Seq<u64>, frame: Seq<u64>, root: u64, is_viewport: bool)
    requires
        set.no_duplicates(),
        frame.no_duplicates(),
    ensures
        reconciled_set(reconciled_set(set, frame, root, is_viewport), frame, root, is_viewport)
            == reconciled_set(set, frame, root, is_viewport),
        fresh_ids(
            if is_viewport {
                reconciled_set(set, frame, root, is_viewport)
            } else {
                retain_known(reconciled_set(set, frame, root, is_viewport), frame)
            },
            frame,
            root,
        ) == Seq::<u64>::empty(),
{
    broadcast use group_seq_properties;

    let mid1 = if is_viewport {
        set
    } else {
        retain_known(set, frame)
    };
    let s1 = reconciled_set(set, frame, root, is_viewport);
    lemma_retain_known_elems(set, frame);
    lemma_fresh_ids_elems(mid1, frame, root);
    assert(s1 == mid1 + fresh_ids(mid1, frame, root));
    let mid2 = if is_viewport {
        s1
    } else {
        retain_known(s1, frame)
    };
    if !is_viewport {
        assert forall|i: int| 0 <= i < s1.len() implies frame.contains(#[trigger] s1[i]) by {
            let x = s1[i];
            assert(s1.contains(x));
            if mid1.contains(x) {
            } else {
                assert(fresh_ids(mid1, frame, root).contains(x));
            }
        }
        lemma_retain_known_all(s1, frame);
    }
    assert(mid2 == s1);
    assert forall|i: int|
        0 <= i < frame.len() implies frame[i] == root || s1.contains(#[trigger] frame[i]) by {
        let x = frame[i];
        if x != root {
            if mid1.contains(x) {
            } else {
                assert(fresh_ids(mid1, frame, root).contains(x));
            }
        }
    }
    lemma_fresh_ids_none(s1, frame, root);
    assert(reconciled_set(s1, frame, root, is_viewport) =~= s1);
}

/// The return value of one window content's redraw hook. `R` is the
/// request type for windows the content wants created.
pub struct RedrawResponse<R> {
    /// Should the window exit?
    pub quit: bool,
    /// A list of windows that the window desires to have created.
    pub new_windows: Vec<R>,
}

impl<R> Default for RedrawResponse<R> {
    /// A frame that neither quits nor spawns windows.
    fn default() -> (r: Self)
        ensures
            !r.quit,
            r.new_windows@ == Seq::<R>::empty(),
    {
        Self { quit: false, new_windows: Vec::new() }
    }
}

/// A struct defining how a new window is to be created, consumed exactly
/// once by context and window creation. `S` is the application's
/// window-content type; `B` carries the host-side builder payload (the
/// window builder and, for viewport windows, the viewport builder and
/// deferred callback).
pub struct NewWindowRequest<S, B> {
    /// The actual struct containing window data; absent for viewport
    /// windows, which have no application content.
    pub window_state: Option<S>,
    /// Specifies how to build the window.
    pub builder: B,
    /// Other options for the window.
    pub options: crate::tracked_window::TrackedWindowOptions,
    /// The viewport id the window serves, for viewport windows.
    pub viewport_id: Option<u64>,
}

impl<S, B> NewWindowRequest<S, B> {
    /// Create a request for a plain window holding application content.
    pub fn new(
        window_state: S,
        builder: B,
        options: crate::tracked_window::TrackedWindowOptions,
    ) -> (r: Self)
        ensures
            r.window_state == Some(window_state),
            r.builder == builder,
            r.options == options,
            r.viewport_id is None,
    {
        Self { window_state: Some(window_state), builder, options, viewport_id: None }
    }

    /// Construct a new viewport window request.
    pub fn new_viewport(
        builder: B,
        options: crate::tracked_window::TrackedWindowOptions,
        vp_id: u64,
    ) -> (r: Self)
        ensures
            r.window_state is None,
            r.builder == builder,
            r.options == options,
            r.viewport_id == Some(vp_id),
    {
        Self { window_state: None, builder, options, viewport_id: Some(vp_id) }
    }

    /// Whether this request describes a viewport window.
    pub fn is_viewport(&self) -> (b: bool)
        ensures
            b == (self.window_state is None),
    {
        self.window_state.is_none()
    }
}

/// The main struct of the crate: the orchestrator's own state, namely the
/// pending window requests and the shared font table. The event loop, the
/// clipboard handle, and the live task set live on the host side; the
/// task set's bookkeeping is `Events`.
pub struct MultiWindow<S, B, D> {
    /// List of windows to be created.
    pending_windows: Vec<NewWindowRequest<S, B>>,
    /// Fonts to install on every window's UI instance, keyed by unique
    /// name. Fonts are latched into each UI instance at construction and
    /// never hot-reloaded, so all of them must be added before the first
    /// window is initialized.
    fonts: Vec<(String, D)>,
}

impl<S, B, D> MultiWindow<S, B, D> {
    /// The queued window requests, oldest first.
    pub closed spec fn pending(&self) -> Seq<NewWindowRequest<S, B>> {
        self.pending_windows@
    }

    /// The font table as name/payload pairs.
    pub closed spec fn font_table(&self) -> Seq<(String, D)> {
        self.fonts@
    }

    /// The font names, in insertion order.
    pub open spec fn font_names(&self) -> Seq<Seq<char>> {
        self.font_table().map_values(|p: (String, D)| p.0@)
    }

    /// Well-formedness: font names are unique.
    pub open spec fn wf(&self) -> bool {
        self.font_names().no_duplicates()
    }

    /// Creates a new orchestrator with nothing pending and no fonts.
    pub fn new() -> (r: Self)
        ensures
            r.wf(),
            r.pending() == Seq::<NewWindowRequest<S, B>>::empty(),
            r.font_table() == Seq::<(String, D)>::empty(),
    {
        Self { pending_windows: Vec::new(), fonts: Vec::new() }
    }

    /// Add a font that is applied to every window created afterwards. A
    /// font added under an existing name replaces that name's payload;
    /// otherwise the pair is appended.
    pub fn add_font(&mut self, name: String, fd: D)
        requires
            old(self).wf(),
        ensures
            final(self).wf(),
            final(self).pending() == old(self).pending(),
            !old(self).font_names().contains(name@) ==> final(self).font_table() == old(
                self,
            ).font_table().push((name, fd)),
            old(self).font_names().contains(name@) ==> exists|i: int|
                0 <= i < old(self).font_table().len() && old(self).font_table()[i].0@ == name@
                    && final(self).font_table() == old(self).font_table().update(
                    i,
                    (old(self).font_table()[i].0, fd),
                ),
    {
        let n = self.fonts.len();
        let mut i: usize = 0;
        while i < n
            invariant
                i <= n,
                n == self.fonts@.len(),
                *self == *old(self),
                old(self).wf(),
                forall|k: int| 0 <= k < i ==> self.fonts@[k].0@ != name@,
            decreases n - i,
        {
            if string_eq(&self.fonts[i].0, &name) {
                proof {
                    assert(self.font_names()[i as int] == name@);
                    assert(self.font_names().contains(name@));
                }
                let slot = &mut self.fonts[i].1;
                *slot = fd;
                proof {
                    assert(self.font_table() =~= old(self).font_table().update(
                        i as int,
                        (old(self).font_table()[i as int].0, fd),
                    ));
                    assert(self.font_names() =~= old(self).font_names());
                }
                return ;
            }
            i += 1;
        }
        proof {
            assert(forall|k: int|
                0 <= k < self.font_names().len() ==> self.font_names()[k] != name@);
            assert(!self.font_names().contains(name@));
        }
        self.fonts.push((name, fd));
        proof {
            assert(self.font_names() =~= old(self).font_names().push(name@));
            let names = old(self).font_names();
            assert forall|a: int, b: int|
                0 <= a < names.push(name@).len() && 0 <= b < names.push(name@).len() && a != b
                implies names.push(name@)[a] != names.push(name@)[b] by {
                if a < names.len() && b < names.len() {
                } else if a < names.len() {
                    assert(names.push(name@)[a] == names[a]);
                } else {
                    assert(names.push(name@)[b] == names[b]);
                }
            }
        }
    }

    /// Adds a new window request to the pending queue; callable at
    /// startup and from within any window's redraw cycle.
    pub fn add(&mut self, window: NewWindowRequest<S, B>)
        ensures
            final(self).pending() == old(self).pending().push(window),
            final(self).font_table() == old(self).font_table(),
    {
        self.pending_windows.push(window);
    }

    /// Take the next pending request, newest first; the drain order is
    /// not contractually significant because windows are independent.
    pub fn next_pending(&mut self) -> (r: Option<NewWindowRequest<S, B>>)
        ensures
            final(self).font_table() == old(self).font_table(),
            old(self).pending().len() == 0 ==> r is None && final(self).pending() == old(
                self,
            ).pending(),
            old(self).pending().len() > 0 ==> r == Some(
                old(self).pending().last(),
            ) && final(self).pending() == old(self).pending().drop_last(),
    {
        self.pending_windows.pop()
    }

    /// The number of fonts installed so far.
    pub fn font_count(&self) -> (n: usize)
        ensures
            n == self.font_table().len(),
    {
        self.fonts.len()
    }

    /// The font table itself, for installing into a new window's UI
    /// instance at construction.
    pub fn font_entries(&self) -> (r: &Vec<(String, D)>)
        ensures
            r@ == self.font_table(),
    {
        &self.fonts
    }
}

/// Compare two font names by contents.
fn string_eq(a: &String, b: &String) -> (r: bool)
    ensures
        r == (a@ == b@),
{
    a.eq(b)
}

/// Whether a running window must stop scheduling redraw cycles: the
/// windowing system asked it to close, its frame requested quit, or it is
/// a non-root window and no root window remains. All three triggers are
/// treated identically.
pub fn should_close(close_requested: bool, frame_quit: bool, root_backing_lost: bool) -> (c: bool)
    ensures
        c == (close_requested || frame_quit || root_backing_lost),
{
    close_requested || frame_quit || root_backing_lost
}

/// Whether a closing container may tear down its UI instance: a plain
/// window first asks its content for permission; a viewport window has no
/// veto and always may.
pub fn may_destroy_ui(is_viewport: bool, can_quit: bool) -> (d: bool)
    ensures
        d == (is_viewport || can_quit),
{
    is_viewport || can_quit
}

/// The repaint delay to schedule after a frame, in milliseconds: the
/// frame's own hint for this viewport, or one second when the frame says
/// nothing about it.
pub fn repaint_delay_ms(requested: Option<u64>) -> (d: u64)
    ensures
        d == (match requested {
            Some(ms) => ms,
            None => 1000u64,
        }),
{
    match requested {
        Some(ms) => ms,
        None => 1000,
    }
}

} // verus!
