//! The restore orchestrator: the order in which windows are hidden, the
//! saved layout is loaded and the windows are shown again.
//!
//! The library does not talk to the windowing system. It decides: a
//! [`Restore`] says what is to be done next, is told how that went, and moves
//! on. Whoever drives it performs the requests.

use crate::document::{
    children, digit_runs_fit, digit_runs_fit_in, get, json_model, lemma_children_smaller,
    lemma_member_smaller, members, parse, parsed, sizes, JsonView,
};
use crate::error::UtilError;
use crate::store::Util;
use json::JsonValue;
use vstd::prelude::*;
use vstd::string::*;

verus! {

/// The X11 window of a node of the raw tree, where the node carries window
/// properties and a window identifier.
pub open spec fn owned_window(node: JsonView) -> Seq<u32> {
    if node.get("window_properties"@).is_object() {
        match node.get("window"@).as_u32() {
            Some(id) => seq![id],
            None => Seq::empty(),
        }
    } else {
        Seq::empty()
    }
}

/// The windows of a raw tree in the order in which they are collected: a
/// node before its children, the last child first.
pub open spec fn collected(node: JsonView) -> Seq<u32>
    decreases node.size(), 0nat,
{
    owned_window(node) + {
        proof {
            lemma_children_smaller(node);
        }
        collected_below(children(node), children(node).len())
    }
}

/// The windows collected from the first `n` of `items`, the last of them
/// first.
pub open spec fn collected_below(items: Seq<JsonView>, n: nat) -> Seq<u32>
    decreases sizes(items), n + 1,
{
    if n == 0 || n > items.len() {
        Seq::empty()
    } else {
        proof {
            lemma_member_smaller(items, n - 1);
        }
        collected(items[n - 1]) + collected_below(items, (n - 1) as nat)
    }
}

/// Appends the windows of `node` to `out`.
fn collect(node: &JsonValue, out: &mut Vec<u32>)
    ensures
        final(out)@ == old(out)@ + collected(json_model(*node)),
    decreases json_model(*node).size(),
{
    let ghost source = json_model(*node);
    if get(node, "window_properties").is_object() {
        match get(node, "window").as_u32() {
            Some(id) => {
                out.push(id);
            },
            None => {},
        }
    }
    assert(out@ =~= old(out)@ + owned_window(source));
    let below = members(get(node, "nodes"));
    let ghost items = children(source);
    let mut n: usize = below.len();
    proof {
        lemma_children_smaller(source);
    }
    while n > 0
        invariant
            n <= below.len(),
            below@.len() == items.len(),
            items == children(source),
            sizes(items) < source.size(),
            source == json_model(*node),
            forall|k: int| 0 <= k < below@.len() ==> json_model(*#[trigger] below@[k]) == items[k],
            out@ + collected_below(items, n as nat) == old(out)@ + collected(source),
        decreases n,
    {
        n = n - 1;
        let ghost before = out@;
        proof {
            lemma_member_smaller(items, n as int);
        }
        collect(below[n], out);
        assert(out@ + collected_below(items, n as nat) =~= before + collected_below(
            items,
            (n + 1) as nat,
        ));
    }
    assert(out@ + collected_below(items, 0) =~= out@);
}

/// What is asked of whoever drives a restore.
#[derive(Clone, Copy, Debug, PartialEq, Eq, Structural)]
pub enum Request {
    /// Hide the window.
    Hide(u32),
    /// Say which process owns the window.
    Owner(u32),
    /// Destroy the window.
    Destroy(u32),
    /// Flush the requests sent to the windowing system.
    Flush,
    /// Have the window manager append the saved layout to the workspace.
    AppendLayout,
    /// Show the window.
    Show(u32),
    /// Read the marker of the window that was focused.
    ReadMarker,
    /// Have the window manager focus the window with this X11 identifier.
    FocusWindow(i32),
    /// Remove the backup.
    Clear,
    /// The restore is complete.
    Finished,
    /// The restore was given up; the backup is still there.
    Failed,
}

/// How a request went.
#[derive(Clone, Copy, Debug, PartialEq, Eq, Structural)]
pub enum Reply {
    /// It was carried out.
    Done,
    /// There was nothing to carry it out on.
    Missing,
    /// It failed.
    Failed,
    /// The process that owns the window, if one is known.
    Owner(Option<u32>),
    /// The window named by the marker, if there is a marker that names one.
    Marker(Option<i32>),
}

/// How far a restore has come. A number is the position of the window that
/// the step works on, counted in the order of the step.
#[derive(Clone, Copy, Debug, PartialEq, Eq, Structural)]
pub enum Phase {
    Hiding(usize),
    Probing(usize),
    Destroying(usize),
    FlushingHidden,
    Appending,
    Showing(usize),
    FlushingShown,
    ReadingMarker,
    Focusing(i32),
    Clearing,
    Finished,
    Failed,
}

/// Whether a phase fits a list of windows: a position lies within the list.
pub open spec fn phase_fits(windows: Seq<u32>, phase: Phase) -> bool {
    match phase {
        Phase::Hiding(i) | Phase::Probing(i) | Phase::Destroying(i) | Phase::Showing(i) => i
            < windows.len(),
        _ => true,
    }
}

/// The phase that hides the window at position `i`, or the one that follows
/// the hiding where no window is left.
pub open spec fn hiding_from(windows: Seq<u32>, i: int) -> Phase {
    if 0 <= i < windows.len() {
        Phase::Hiding(i as usize)
    } else {
        Phase::FlushingHidden
    }
}

/// The phase that shows the window at position `i` of the showing, or the one
/// that follows the showing where no window is left.
pub open spec fn showing_from(windows: Seq<u32>, i: int) -> Phase {
    if 0 <= i < windows.len() {
        Phase::Showing(i as usize)
    } else {
        Phase::FlushingShown
    }
}

/// What a restore asks for in a phase. Windows are hidden in the order in
/// which they were collected and shown in the reverse of it.
pub open spec fn request_at(windows: Seq<u32>, phase: Phase) -> Request {
    match phase {
        Phase::Hiding(i) => Request::Hide(windows[i as int]),
        Phase::Probing(i) => Request::Owner(windows[i as int]),
        Phase::Destroying(i) => Request::Destroy(windows[i as int]),
        Phase::FlushingHidden => Request::Flush,
        Phase::Appending => Request::AppendLayout,
        Phase::Showing(i) => Request::Show(windows[windows.len() - 1 - i]),
        Phase::FlushingShown => Request::Flush,
        Phase::ReadingMarker => Request::ReadMarker,
        Phase::Focusing(id) => Request::FocusWindow(id),
        Phase::Clearing => Request::Clear,
        Phase::Finished => Request::Finished,
        Phase::Failed => Request::Failed,
    }
}

/// The phase that follows `phase` once its request was answered by `reply`.
///
/// A window that no process owns is destroyed before the next one is hidden.
/// A backup that is already gone counts as removed. Every other answer than
/// the ones a phase can go on with gives the restore up.
pub open spec fn phase_after(windows: Seq<u32>, phase: Phase, reply: Reply) -> Phase {
    match (phase, reply) {
        (Phase::Hiding(i), Reply::Done) => Phase::Probing(i),
        (Phase::Probing(i), Reply::Owner(Some(_))) => hiding_from(windows, i + 1),
        (Phase::Probing(i), Reply::Owner(None)) => Phase::Destroying(i),
        (Phase::Destroying(i), Reply::Done) => hiding_from(windows, i + 1),
        (Phase::FlushingHidden, Reply::Done) => Phase::Appending,
        (Phase::Appending, Reply::Done) => showing_from(windows, 0),
        (Phase::Showing(i), Reply::Done) => showing_from(windows, i + 1),
        (Phase::FlushingShown, Reply::Done) => Phase::ReadingMarker,
        (Phase::ReadingMarker, Reply::Marker(Some(id))) => Phase::Focusing(id),
        (Phase::ReadingMarker, Reply::Marker(None)) => Phase::Clearing,
        (Phase::Focusing(_), Reply::Done) => Phase::Clearing,
        (Phase::Clearing, Reply::Done) => Phase::Finished,
        (Phase::Clearing, Reply::Missing) => Phase::Finished,
        (Phase::Finished, _) => Phase::Finished,
        _ => Phase::Failed,
    }
}

/// A restore in progress: the windows it works on and how far it has come.
#[derive(Debug)]
pub struct Restore {
    windows: Vec<u32>,
    phase: Phase,
}

impl Restore {
    #[verifier::type_invariant]
    spec fn fits(self) -> bool {
        phase_fits(self.windows@, self.phase)
    }

    /// The windows of the restore, in the order in which they were collected.
    pub closed spec fn windows(&self) -> Seq<u32> {
        self.windows@
    }

    /// How far the restore has come.
    pub closed spec fn phase(&self) -> Phase {
        self.phase
    }

    /// A restore of the given windows, about to begin.
    pub fn new(windows: Vec<u32>) -> (restore: Restore)
        ensures
            restore.windows() == windows@,
            restore.windows().len() <= usize::MAX,
            restore.phase() == hiding_from(windows@, 0),
    {
        let phase = if windows.len() > 0 {
            Phase::Hiding(0)
        } else {
            Phase::FlushingHidden
        };
        Restore { windows, phase }
    }

    /// What is to be done next.
    pub fn request(&self) -> (request: Request)
        ensures
            request == request_at(self.windows(), self.phase()),
    {
        proof {
            use_type_invariant(self);
        }
        match self.phase {
            Phase::Hiding(i) => Request::Hide(self.windows[i]),
            Phase::Probing(i) => Request::Owner(self.windows[i]),
            Phase::Destroying(i) => Request::Destroy(self.windows[i]),
            Phase::FlushingHidden => Request::Flush,
            Phase::Appending => Request::AppendLayout,
            Phase::Showing(i) => Request::Show(self.windows[self.windows.len() - 1 - i]),
            Phase::FlushingShown => Request::Flush,
            Phase::ReadingMarker => Request::ReadMarker,
            Phase::Focusing(id) => Request::FocusWindow(id),
            Phase::Clearing => Request::Clear,
            Phase::Finished => Request::Finished,
            Phase::Failed => Request::Failed,
        }
    }

    /// Takes the answer to the last request and moves on.
    pub fn advance(&mut self, reply: Reply)
        ensures
            final(self).windows() == old(self).windows(),
            final(self).phase() == phase_after(old(self).windows(), old(self).phase(), reply),
    {
        proof {
            use_type_invariant(&*self);
        }
        let count = self.windows.len();
        let next = match (self.phase, reply) {
            (Phase::Hiding(i), Reply::Done) => Phase::Probing(i),
            (Phase::Probing(i), Reply::Owner(Some(_))) => hide_next(count, i),
            (Phase::Probing(i), Reply::Owner(None)) => Phase::Destroying(i),
            (Phase::Destroying(i), Reply::Done) => hide_next(count, i),
            (Phase::FlushingHidden, Reply::Done) => Phase::Appending,
            (Phase::Appending, Reply::Done) => if count > 0 {
                Phase::Showing(0)
            } else {
                Phase::FlushingShown
            },
            (Phase::Showing(i), Reply::Done) => if i + 1 < count {
                Phase::Showing(i + 1)
            } else {
                Phase::FlushingShown
            },
            (Phase::FlushingShown, Reply::Done) => Phase::ReadingMarker,
            (Phase::ReadingMarker, Reply::Marker(Some(id))) => Phase::Focusing(id),
            (Phase::ReadingMarker, Reply::Marker(None)) => Phase::Clearing,
            (Phase::Focusing(_), Reply::Done) => Phase::Clearing,
            (Phase::Clearing, Reply::Done) => Phase::Finished,
            (Phase::Clearing, Reply::Missing) => Phase::Finished,
            (Phase::Finished, _) => Phase::Finished,
            _ => Phase::Failed,
        };
        self.phase = next;
    }
}

/// The phase that hides the window after the one at position `i`.
fn hide_next(count: usize, i: usize) -> (phase: Phase)
    requires
        i < count,
    ensures
        phase == if i + 1 < count {
            Phase::Hiding((i + 1) as usize)
        } else {
            Phase::FlushingHidden
        },
{
    if i + 1 < count {
        Phase::Hiding(i + 1)
    } else {
        Phase::FlushingHidden
    }
}

/// The process that owns a window, from the value of the property that
/// names it: the first number of the value, and none where the value is
/// empty.
pub fn owning_process(property: &Vec<u32>) -> (pid: Option<u32>)
    ensures
        pid == if property@.len() > 0 {
            Some(property@[0])
        } else {
            None
        },
{
    if property.len() > 0 {
        Some(property[0])
    } else {
        None
    }
}

impl Util {
    /// Reads the tree that the window manager reports from its text. A text
    /// that is no JSON document is refused, and so is one with a run of
    /// digits too long for the parser to count.
    pub fn raw_get_tree(text: &str) -> (r: Result<JsonValue, UtilError>)
        ensures
            r is Ok <==> digit_runs_fit(text.spec_bytes()) && parsed(text@) is Some,
            r matches Ok(tree) ==> parsed(text@) == Some(json_model(tree)),
            r matches Err(e) ==> e matches UtilError::Document,
    {
        if !digit_runs_fit_in(text) {
            return Err(UtilError::Document);
        }
        match parse(text) {
            Ok(tree) => Ok(tree),
            Err(_) => Err(UtilError::Document),
        }
    }

    /// Begins the restore of the workspace from the tree as the window
    /// manager reports it now.
    ///
    /// The windows of the restore are those of the nodes that carry window
    /// properties, in the order of the walk. They are hidden in that order, a
    /// window that no process owns is destroyed, the saved layout is
    /// appended, and the windows are shown in the reverse order, so that each
    /// finds the place it had. Then the window named by the marker is focused
    /// and the backup is removed. Any failure gives the restore up and leaves
    /// the backup where it is.
    pub fn restore_workspace(tree: &JsonValue) -> (restore: Restore)
        ensures
            restore.windows() == collected(json_model(*tree)),
            restore.windows().len() <= usize::MAX,
            restore.phase() == hiding_from(restore.windows(), 0),
    {
        let mut windows: Vec<u32> = Vec::new();
        collect(tree, &mut windows);
        assert(windows@ =~= collected(json_model(*tree)));
        Restore::new(windows)
    }
}

/// The answer that lets a restore go on from a phase: the request was
/// carried out, `owners` holds for each window the process that owns it, and
/// `marker` is the window that the marker names.
pub open spec fn going_on(phase: Phase, owners: Seq<Option<u32>>, marker: Option<i32>) -> Reply {
    match phase {
        Phase::Probing(i) => Reply::Owner(owners[i as int]),
        Phase::ReadingMarker => Reply::Marker(marker),
        _ => Reply::Done,
    }
}

/// The number of steps that a restore has before it, at most.
pub open spec fn steps_left(windows: Seq<u32>, phase: Phase) -> nat {
    let n = windows.len();
    match phase {
        Phase::Hiding(i) => (8 + n + 3 * (n - i)) as nat,
        Phase::Probing(i) => (7 + n + 3 * (n - i)) as nat,
        Phase::Destroying(i) => (6 + n + 3 * (n - i)) as nat,
        Phase::FlushingHidden => 7 + n,
        Phase::Appending => 6 + n,
        Phase::Showing(i) => (5 + n - i) as nat,
        Phase::FlushingShown => 4,
        Phase::ReadingMarker => 3,
        Phase::Focusing(_) => 2,
        Phase::Clearing => 1,
        Phase::Finished => 0,
        Phase::Failed => 0,
    }
}

/// Everything a restore asks for from a phase on, when each request is
/// answered so that the restore can go on.
pub open spec fn requests_from(
    windows: Seq<u32>,
    owners: Seq<Option<u32>>,
    marker: Option<i32>,
    phase: Phase,
) -> Seq<Request>
    decreases steps_left(windows, phase),
{
    if !phase_fits(windows, phase) || windows.len() > usize::MAX || phase == Phase::Finished
        || phase == Phase::Failed {
        seq![request_at(windows, phase)]
    } else {
        seq![request_at(windows, phase)] + requests_from(
            windows,
            owners,
            marker,
            phase_after(windows, phase, going_on(phase, owners, marker)),
        )
    }
}

/// What hiding asks for from the window at position `i` on: each window is
/// hidden and asked for its owner, and destroyed where it has none.
pub open spec fn hiding_script(windows: Seq<u32>, owners: Seq<Option<u32>>, i: int) -> Seq<Request>
    decreases windows.len() - i,
{
    if 0 <= i < windows.len() {
        seq![Request::Hide(windows[i]), Request::Owner(windows[i])] + (if owners[i] is None {
            seq![Request::Destroy(windows[i])]
        } else {
            Seq::empty()
        }) + hiding_script(windows, owners, i + 1)
    } else {
        Seq::empty()
    }
}

/// What showing asks for: every window, the last collected first.
pub open spec fn showing_script(windows: Seq<u32>) -> Seq<Request> {
    windows.reverse().map_values(|id: u32| Request::Show(id))
}

/// What a restore asks for after the windows are shown again.
pub open spec fn closing_script(marker: Option<i32>) -> Seq<Request> {
    seq![Request::Flush, Request::ReadMarker] + (match marker {
        Some(id) => seq![Request::FocusWindow(id)],
        None => Seq::empty(),
    }) + seq![Request::Clear, Request::Finished]
}

/// What a whole restore asks for, in order.
pub open spec fn script(windows: Seq<u32>, owners: Seq<Option<u32>>, marker: Option<i32>) -> Seq<
    Request,
> {
    hiding_script(windows, owners, 0) + seq![Request::Flush, Request::AppendLayout]
        + showing_script(windows) + closing_script(marker)
}

proof fn lemma_closing(windows: Seq<u32>, owners: Seq<Option<u32>>, marker: Option<i32>)
    requires
        windows.len() <= usize::MAX,
    ensures
        requests_from(windows, owners, marker, Phase::FlushingShown) == closing_script(marker),
{
    reveal_with_fuel(requests_from, 6);
    assert(requests_from(windows, owners, marker, Phase::Finished) =~= seq![Request::Finished]);
    assert(requests_from(windows, owners, marker, Phase::Clearing) =~= seq![
        Request::Clear,
        Request::Finished,
    ]);
    assert(requests_from(windows, owners, marker, Phase::FlushingShown) =~= closing_script(marker));
}

proof fn lemma_showing(windows: Seq<u32>, owners: Seq<Option<u32>>, marker: Option<i32>, i: int)
    requires
        0 <= i <= windows.len() <= usize::MAX,
    ensures
        requests_from(windows, owners, marker, showing_from(windows, i)) == showing_script(
            windows,
        ).skip(i) + closing_script(marker),
    decreases windows.len() - i,
{
    let shown = showing_script(windows);
    if i == windows.len() {
        lemma_closing(windows, owners, marker);
        assert(shown.skip(i) + closing_script(marker) =~= closing_script(marker));
    } else {
        lemma_showing(windows, owners, marker, i + 1);
        assert(shown[i] == Request::Show(windows[windows.len() - 1 - i]));
        assert(requests_from(windows, owners, marker, Phase::Showing(i as usize)) =~= seq![
            shown[i],
        ] + requests_from(windows, owners, marker, showing_from(windows, i + 1)));
        assert(shown.skip(i) =~= seq![shown[i]] + shown.skip(i + 1));
        assert(seq![shown[i]] + (shown.skip(i + 1) + closing_script(marker)) =~= shown.skip(i)
            + closing_script(marker));
    }
}

proof fn lemma_hiding(windows: Seq<u32>, owners: Seq<Option<u32>>, marker: Option<i32>, i: int)
    requires
        0 <= i <= windows.len() <= usize::MAX,
        owners.len() == windows.len(),
    ensures
        requests_from(windows, owners, marker, hiding_from(windows, i)) == hiding_script(
            windows,
            owners,
            i,
        ) + seq![Request::Flush, Request::AppendLayout] + showing_script(windows) + closing_script(
            marker,
        ),
    decreases windows.len() - i,
{
    let rest = seq![Request::Flush, Request::AppendLayout] + showing_script(windows)
        + closing_script(marker);
    if i == windows.len() {
        reveal_with_fuel(requests_from, 3);
        lemma_showing(windows, owners, marker, 0);
        assert(showing_script(windows).skip(0) =~= showing_script(windows));
        assert(requests_from(windows, owners, marker, Phase::FlushingHidden) =~= rest);
        assert(hiding_script(windows, owners, i) + seq![Request::Flush, Request::AppendLayout]
            + showing_script(windows) + closing_script(marker) =~= rest);
    } else {
        lemma_hiding(windows, owners, marker, i + 1);
        let next = requests_from(windows, owners, marker, hiding_from(windows, i + 1));
        let at = i as usize;
        assert(requests_from(windows, owners, marker, Phase::Destroying(at)) =~= seq![
            Request::Destroy(windows[i]),
        ] + next);
        assert(requests_from(windows, owners, marker, Phase::Probing(at)) =~= seq![
            Request::Owner(windows[i]),
        ] + (if owners[i] is None {
            seq![Request::Destroy(windows[i])]
        } else {
            Seq::empty()
        }) + next);
        assert(requests_from(windows, owners, marker, Phase::Hiding(at)) =~= seq![
            Request::Hide(windows[i]),
        ] + requests_from(windows, owners, marker, Phase::Probing(at)));
        assert(requests_from(windows, owners, marker, Phase::Hiding(at)) =~= hiding_script(
            windows,
            owners,
            i,
        ) + seq![Request::Flush, Request::AppendLayout] + showing_script(windows) + closing_script(
            marker,
        ));
    }
}

/// A restore in which nothing fails asks for exactly the script: the windows
/// are hidden in the order in which they were collected, the layout is
/// appended, and the windows are shown in the reverse of that order, before
/// the focus is given back and the backup is removed.
pub proof fn lemma_restore_script(
    windows: Seq<u32>,
    owners: Seq<Option<u32>>,
    marker: Option<i32>,
)
    requires
        owners.len() == windows.len(),
        windows.len() <= usize::MAX,
    ensures
        requests_from(windows, owners, marker, hiding_from(windows, 0)) == script(
            windows,
            owners,
            marker,
        ),
        showing_script(windows).len() == windows.len(),
        forall|k: int|
            0 <= k < windows.len() ==> #[trigger] showing_script(windows)[k] == Request::Show(
                windows[windows.len() - 1 - k],
            ),
{
    lemma_hiding(windows, owners, marker, 0);
}

/// A restore that was given up stays given up and asks for nothing more; in
/// particular it never asks to remove the backup.
pub proof fn lemma_failure_keeps_backup(windows: Seq<u32>, phase: Phase, reply: Reply)
    requires
        phase != Phase::Finished,
        reply == Reply::Failed || phase == Phase::Failed,
    ensures
        phase_after(windows, phase, reply) == Phase::Failed,
        request_at(windows, Phase::Failed) == Request::Failed,
{
}

/// Removing the backup succeeds whether or not there was one: an answer
/// that nothing was there ends the restore as well as the answer that it was
/// removed, and a restore that has ended stays ended whatever it is told.
pub proof fn lemma_clear_is_idempotent(windows: Seq<u32>, reply: Reply)
    ensures
        phase_after(windows, Phase::Clearing, Reply::Done) == Phase::Finished,
        phase_after(windows, Phase::Clearing, Reply::Missing) == Phase::Finished,
        phase_after(windows, Phase::Finished, reply) == Phase::Finished,
{
}

} // verus!
