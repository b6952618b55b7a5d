//! Choosing the window to focus: the windows that match a pattern, their
//! order for cycling, and the decision between raising a window and starting
//! a program.

use crate::command::{focus_command, focus_command_text};
use crate::error::UtilError;
use crate::pattern::{compile, finds, pattern_finds, pattern_valid, Pattern};
use crate::store::Util;
use crate::tree::{
    copy_text, focused_node, text_of, window_of, window_set, window_views, NodeView, TreeNode,
    Window, WindowView,
};
use vstd::prelude::*;
use vstd::string::*;

verus! {

/// Whether a pattern has a match in an optional text; a text that is absent
/// has none.
pub open spec fn text_matches(text: Option<Seq<char>>, pattern: Seq<char>) -> bool {
    match text {
        Some(text) => pattern_finds(pattern, text),
        None => false,
    }
}

/// Whether a window matches a pattern: by its name or by its class.
pub open spec fn window_matches(window: WindowView, pattern: Seq<char>) -> bool {
    text_matches(window.name, pattern) || text_matches(window.class, pattern)
}

/// The windows of `windows` that match `pattern`, in order.
pub open spec fn matching(windows: Seq<WindowView>, pattern: Seq<char>) -> Seq<WindowView>
    decreases windows.len(),
{
    if windows.len() == 0 {
        Seq::empty()
    } else if window_matches(windows.last(), pattern) {
        matching(windows.drop_last(), pattern).push(windows.last())
    } else {
        matching(windows.drop_last(), pattern)
    }
}

/// `window` put into `sorted` behind every window whose identifier is not
/// larger than its own.
pub open spec fn insert_sorted(sorted: Seq<WindowView>, window: WindowView) -> Seq<WindowView>
    decreases sorted.len(),
{
    if sorted.len() == 0 {
        seq![window]
    } else if sorted.last().id <= window.id {
        sorted.push(window)
    } else {
        insert_sorted(sorted.drop_last(), window).push(sorted.last())
    }
}

/// The windows in ascending order of their identifiers; windows with the
/// same identifier keep their order.
pub open spec fn sorted_by_id(windows: Seq<WindowView>) -> Seq<WindowView>
    decreases windows.len(),
{
    if windows.len() == 0 {
        Seq::empty()
    } else {
        insert_sorted(sorted_by_id(windows.drop_last()), windows.last())
    }
}

/// The position of the first focused window.
pub open spec fn first_focused_window(windows: Seq<WindowView>) -> Option<int>
    decreases windows.len(),
{
    if windows.len() == 0 {
        None
    } else if windows[0].focused {
        Some(0)
    } else {
        match first_focused_window(windows.drop_first()) {
            Some(i) => Some(i + 1),
            None => None,
        }
    }
}

/// The window to focus next among `windows`, taken in the given order: the
/// one after the first focused window, going round from the last to the
/// first; the first window where none is focused; none where there is no
/// window.
pub open spec fn next_in_cycle(windows: Seq<WindowView>) -> Option<i64> {
    if windows.len() == 0 {
        None
    } else {
        match first_focused_window(windows) {
            Some(i) => Some(windows[(i + 1) % (windows.len() as int)].id),
            None => Some(windows[0].id),
        }
    }
}

/// The focused window of a tree: the focused node, where it is a window.
pub open spec fn focused_window(root: NodeView) -> Option<WindowView> {
    match focused_node(root) {
        Some((_, node)) => if node.kind is Window {
            Some(window_of(node))
        } else {
            None
        },
        None => None,
    }
}

/// The pattern that a search goes by: the given one, or, where that is
/// empty, the class of the focused window. There is none where the given
/// pattern is empty and no focused window has a class.
pub open spec fn effective_pattern(root: NodeView, re: Seq<char>) -> Option<Seq<char>> {
    if re.len() == 0 {
        match focused_window(root) {
            Some(window) => window.class,
            None => None,
        }
    } else {
        Some(re)
    }
}

/// The identifier of the window that a search for `pattern` focuses.
pub open spec fn target(root: NodeView, pattern: Seq<char>) -> Option<i64> {
    next_in_cycle(sorted_by_id(matching(window_set(root), pattern)))
}

/// Where `window` goes into `sorted`, stated by position: behind the last
/// window whose identifier is not larger.
pub proof fn lemma_insert_sorted_at(sorted: Seq<WindowView>, window: WindowView, p: int)
    requires
        0 <= p <= sorted.len(),
        forall|k: int| p <= k < sorted.len() ==> sorted[k].id > window.id,
        p > 0 ==> sorted[p - 1].id <= window.id,
    ensures
        insert_sorted(sorted, window) == sorted.insert(p, window),
    decreases sorted.len(),
{
    if sorted.len() == 0 {
        assert(sorted.insert(p, window) =~= seq![window]);
    } else if p == sorted.len() {
        assert(sorted.insert(p, window) =~= sorted.push(window));
    } else {
        lemma_insert_sorted_at(sorted.drop_last(), window, p);
        assert(sorted.drop_last().insert(p, window).push(sorted.last()) =~= sorted.insert(
            p,
            window,
        ));
    }
}

/// Whether the identifiers of `windows` ascend.
pub open spec fn ascending(windows: Seq<WindowView>) -> bool {
    forall|i: int, j: int| 0 <= i < j < windows.len() ==> windows[i].id <= windows[j].id
}

proof fn lemma_insert_sorted(sorted: Seq<WindowView>, window: WindowView)
    requires
        ascending(sorted),
    ensures
        ascending(insert_sorted(sorted, window)),
        insert_sorted(sorted, window).len() == sorted.len() + 1,
        insert_sorted(sorted, window).to_multiset() == sorted.to_multiset().insert(window),
    decreases sorted.len(),
{
    broadcast use vstd::seq_lib::group_to_multiset_ensures;

    if sorted.len() == 0 {
        assert(seq![window] =~= Seq::<WindowView>::empty().push(window));
        assert(sorted =~= Seq::<WindowView>::empty());
    } else if sorted.last().id <= window.id {
    } else {
        let rest = sorted.drop_last();
        lemma_insert_sorted(rest, window);
        let placed = insert_sorted(rest, window);
        assert(sorted =~= rest.push(sorted.last()));
        assert forall|i: int| 0 <= i < placed.len() implies placed[i].id <= sorted.last().id by {
            assert(placed.to_multiset().count(placed[i]) > 0);
            if placed[i] != window {
                assert(rest.to_multiset().count(placed[i]) > 0);
                assert(rest.contains(placed[i]));
                let k = choose|k: int| 0 <= k < rest.len() && rest[k] == placed[i];
                assert(sorted[k] == placed[i]);
            }
        }
        assert(placed.push(sorted.last()).to_multiset() =~= sorted.to_multiset().insert(window));
    }
}

/// Sorting puts the windows in ascending order of identifier and neither
/// drops nor adds a window.
pub proof fn lemma_sorted_by_id(windows: Seq<WindowView>)
    ensures
        ascending(sorted_by_id(windows)),
        sorted_by_id(windows).len() == windows.len(),
        sorted_by_id(windows).to_multiset() == windows.to_multiset(),
    decreases windows.len(),
{
    broadcast use vstd::seq_lib::group_to_multiset_ensures;

    if windows.len() > 0 {
        lemma_sorted_by_id(windows.drop_last());
        lemma_insert_sorted(sorted_by_id(windows.drop_last()), windows.last());
        assert(windows =~= windows.drop_last().push(windows.last()));
    }
}

/// Whether the expression has a match in an optional text.
fn text_found(compiled: &Pattern, text: &Option<String>) -> (found: bool)
    ensures
        found == text_matches(text_of(*text), compiled.source()),
{
    match text {
        Some(text) => finds(compiled, text.as_str()),
        None => false,
    }
}

/// The windows of the tree that match the expression by name or by class,
/// in walk order.
pub fn search_windows(node: &TreeNode, name: &Pattern) -> (found: Vec<Window>)
    ensures
        window_views(found@) == matching(window_set(node@), name.source()),
{
    let windows = node.get_windows();
    let mut found: Vec<Window> = Vec::new();
    let mut i: usize = 0;
    assert(window_views(found@) =~= matching(window_views(windows@).take(0), name.source()));
    while i < windows.len()
        invariant
            i <= windows.len(),
            window_views(found@) == matching(
                window_views(windows@).take(i as int),
                name.source(),
            ),
        decreases windows.len() - i,
    {
        let window = &windows[i];
        proof {
            let seen = window_views(windows@).take(i as int + 1);
            assert(seen.drop_last() =~= window_views(windows@).take(i as int));
            assert(seen.last() == window@);
        }
        if text_found(name, &window.name) || text_found(name, &window.class) {
            let kept = Window {
                id: window.id,
                name: copy_text(&window.name),
                class: copy_text(&window.class),
                focused: window.focused,
            };
            let ghost before = found@;
            found.push(kept);
            assert(window_views(found@) =~= window_views(before).push(window@));
        }
        i = i + 1;
    }
    assert(window_views(windows@).take(windows.len() as int) =~= window_views(windows@));
    found
}

/// Sorts windows by identifier, ascending; equal identifiers keep their
/// order.
pub fn sort_by_id(windows: Vec<Window>) -> (sorted: Vec<Window>)
    ensures
        window_views(sorted@) == sorted_by_id(window_views(windows@)),
{
    let mut rest = windows;
    let mut sorted: Vec<Window> = Vec::new();
    let ghost all = window_views(windows@);
    let ghost mut done: int = 0;
    assert(all.take(0) =~= Seq::<WindowView>::empty());
    assert(window_views(sorted@) =~= Seq::<WindowView>::empty());
    assert(all.skip(0) =~= all);
    while rest.len() > 0
        invariant
            0 <= done <= all.len(),
            window_views(rest@) == all.skip(done),
            window_views(sorted@) == sorted_by_id(all.take(done)),
        decreases rest.len(),
    {
        let ghost before_rest = rest@;
        let window = rest.remove(0);
        proof {
            assert(window_views(before_rest) == all.skip(done));
            assert(window_views(before_rest).len() == before_rest.len());
            assert(all.skip(done).len() == all.len() - done);
            assert(window_views(before_rest)[0] == window@);
            assert(all.skip(done)[0] == all[done]);
            assert forall|k: int| 0 <= k < rest@.len() implies window_views(rest@)[k] == all.skip(
                done + 1,
            )[k] by {
                assert(rest@[k] == before_rest[k + 1]);
                assert(window_views(before_rest)[k + 1] == before_rest[k + 1]@);
                assert(all.skip(done)[k + 1] == all[done + k + 1]);
            }
            assert(window_views(rest@) =~= all.skip(done + 1));
            assert(all.take(done + 1).drop_last() =~= all.take(done));
        }
        let mut p: usize = sorted.len();
        while p > 0 && sorted[p - 1].id > window.id
            invariant
                p <= sorted.len(),
                forall|k: int| p <= k < sorted.len() ==> sorted@[k].id > window.id,
            decreases p,
        {
            p = p - 1;
        }
        proof {
            let views = window_views(sorted@);
            assert forall|k: int| p <= k < views.len() implies views[k].id > window@.id by {
                assert(views[k] == sorted@[k]@);
            }
            if p > 0 {
                assert(views[p - 1] == sorted@[p - 1]@);
            }
            lemma_insert_sorted_at(views, window@, p as int);
        }
        let ghost before = sorted@;
        sorted.insert(p, window);
        proof {
            assert(window_views(sorted@) =~= window_views(before).insert(p as int, window@));
            done = done + 1;
        }
    }
    proof {
        assert(window_views(rest@).len() == 0);
        assert(all.take(done) =~= all);
    }
    sorted
}

/// The window to focus next among windows in cycling order.
pub fn next_window(windows: &Vec<Window>) -> (next: Option<i64>)
    ensures
        next == next_in_cycle(window_views(windows@)),
{
    if windows.len() == 0 {
        return None;
    }
    let ghost views = window_views(windows@);
    let mut i: usize = 0;
    while i < windows.len()
        invariant
            i <= windows.len(),
            windows.len() > 0,
            views == window_views(windows@),
            forall|j: int| 0 <= j < i ==> !views[j].focused,
        decreases windows.len() - i,
    {
        assert(views[i as int] == windows@[i as int]@);
        if windows[i].focused {
            let following = if i + 1 == windows.len() {
                0
            } else {
                i + 1
            };
            proof {
                lemma_first_focused_window(views);
                assert(views[following as int] == windows@[following as int]@);
                let n = windows.len() as int;
                assert((i + 1) % n == following) by (nonlinear_arith)
                    requires
                        0 <= i < n,
                        following == if i + 1 == n {
                            0
                        } else {
                            i + 1
                        },
                ;
            }
            return Some(windows[following].id);
        }
        i = i + 1;
    }
    proof {
        lemma_first_focused_window(views);
        assert(views[0] == windows@[0]@);
    }
    Some(windows[0].id)
}

/// `first_focused_window` finds the first focused window, and only fails
/// where none is focused.
pub proof fn lemma_first_focused_window(windows: Seq<WindowView>)
    ensures
        match first_focused_window(windows) {
            Some(i) => 0 <= i < windows.len() && windows[i].focused && forall|j: int|
                0 <= j < i ==> !windows[j].focused,
            None => forall|j: int| 0 <= j < windows.len() ==> !windows[j].focused,
        },
    decreases windows.len(),
{
    if windows.len() > 0 && !windows[0].focused {
        let rest = windows.drop_first();
        lemma_first_focused_window(rest);
        match first_focused_window(rest) {
            Some(i) => {
                assert forall|j: int| 0 <= j < i + 1 implies !windows[j].focused by {
                    if j > 0 {
                        assert(!rest[j - 1].focused);
                    }
                }
            },
            None => {
                assert forall|j: int| 0 <= j < windows.len() implies !windows[j].focused by {
                    if j > 0 {
                        assert(!rest[j - 1].focused);
                    }
                }
            },
        }
    }
}

/// Whether no two of `windows` have the same identifier.
pub open spec fn distinct_ids(windows: Seq<WindowView>) -> bool {
    forall|i: int, j: int| 0 <= i < j < windows.len() ==> windows[i].id != windows[j].id
}

proof fn lemma_insert_keeps_distinct(sorted: Seq<WindowView>, window: WindowView)
    requires
        ascending(sorted),
        distinct_ids(sorted),
        forall|k: int| 0 <= k < sorted.len() ==> sorted[k].id != window.id,
    ensures
        distinct_ids(insert_sorted(sorted, window)),
    decreases sorted.len(),
{
    broadcast use vstd::seq_lib::group_to_multiset_ensures;

    if sorted.len() > 0 && sorted.last().id > window.id {
        let rest = sorted.drop_last();
        let inner = insert_sorted(rest, window);
        lemma_insert_keeps_distinct(rest, window);
        lemma_insert_sorted(rest, window);
        assert forall|k: int| 0 <= k < inner.len() implies inner[k].id != sorted.last().id by {
            assert(inner.to_multiset().count(inner[k]) > 0);
            if inner[k] != window {
                assert(rest.to_multiset().count(inner[k]) > 0);
                assert(rest.contains(inner[k]));
                let m = choose|m: int| 0 <= m < rest.len() && rest[m] == inner[k];
                assert(sorted[m] == inner[k]);
            }
        }
    }
}

/// Sorting windows with distinct identifiers gives windows with distinct
/// identifiers.
pub proof fn lemma_sorted_distinct(windows: Seq<WindowView>)
    requires
        distinct_ids(windows),
    ensures
        distinct_ids(sorted_by_id(windows)),
    decreases windows.len(),
{
    broadcast use vstd::seq_lib::group_to_multiset_ensures;

    if windows.len() > 0 {
        let rest = windows.drop_last();
        let sorted = sorted_by_id(rest);
        lemma_sorted_distinct(rest);
        lemma_sorted_by_id(rest);
        assert forall|k: int| 0 <= k < sorted.len() implies sorted[k].id != windows.last().id by {
            assert(sorted.to_multiset().count(sorted[k]) > 0);
            assert(rest.contains(sorted[k]));
            let m = choose|m: int| 0 <= m < rest.len() && rest[m] == sorted[k];
            assert(windows[m] == sorted[k]);
        }
        lemma_insert_keeps_distinct(sorted, windows.last());
    }
}

/// Two lists in ascending order of distinct identifiers that hold the same
/// windows are the same list.
proof fn lemma_same_order(a: Seq<WindowView>, b: Seq<WindowView>)
    requires
        ascending(a),
        ascending(b),
        distinct_ids(a),
        distinct_ids(b),
        forall|x: WindowView|
            #![trigger a.contains(x)]
            #![trigger b.contains(x)]
            a.contains(x) <==> b.contains(x),
    ensures
        a == b,
    decreases a.len(),
{
    if a.len() == 0 {
        if b.len() > 0 {
            assert(b.contains(b[0]));
            assert(a.contains(b[0]));
        }
        assert(a =~= b);
    } else {
        assert(a.contains(a.last()));
        assert(b.contains(a.last()));
        let k = choose|k: int| 0 <= k < b.len() && b[k] == a.last();
        assert(b.contains(b.last()));
        assert(a.contains(b.last()));
        let m = choose|m: int| 0 <= m < a.len() && a[m] == b.last();
        assert(a.last() == b.last());
        let ra = a.drop_last();
        let rb = b.drop_last();
        assert forall|x: WindowView|
            #![trigger ra.contains(x)]
            #![trigger rb.contains(x)]
            ra.contains(x) <==> rb.contains(x) by {
            if ra.contains(x) {
                let i = choose|i: int| 0 <= i < ra.len() && ra[i] == x;
                assert(a[i] == x);
                assert(a[i].id != a[a.len() - 1].id);
                assert(a.contains(x));
                assert(b.contains(x));
                let j = choose|j: int| 0 <= j < b.len() && b[j] == x;
                assert(j < b.len() - 1);
                assert(rb[j] == x);
            }
            if rb.contains(x) {
                let i = choose|i: int| 0 <= i < rb.len() && rb[i] == x;
                assert(b[i] == x);
                assert(b[i].id != b[b.len() - 1].id);
                assert(b.contains(x));
                assert(a.contains(x));
                let j = choose|j: int| 0 <= j < a.len() && a[j] == x;
                assert(j < a.len() - 1);
                assert(ra[j] == x);
            }
        }
        lemma_same_order(ra, rb);
        assert(a =~= ra.push(a.last()));
        assert(b =~= rb.push(b.last()));
    }
}

/// The cycling order does not depend on the order in which the windows were
/// found: two lists that hold the same windows, with distinct identifiers,
/// are sorted to the same list.
pub proof fn lemma_sorting_ignores_order(a: Seq<WindowView>, b: Seq<WindowView>)
    requires
        a.to_multiset() == b.to_multiset(),
        distinct_ids(a),
        distinct_ids(b),
    ensures
        sorted_by_id(a) == sorted_by_id(b),
{
    broadcast use vstd::seq_lib::group_to_multiset_ensures;

    lemma_sorted_by_id(a);
    lemma_sorted_by_id(b);
    lemma_sorted_distinct(a);
    lemma_sorted_distinct(b);
    let sa = sorted_by_id(a);
    let sb = sorted_by_id(b);
    assert forall|x: WindowView|
        #![trigger sa.contains(x)]
        #![trigger sb.contains(x)]
        sa.contains(x) <==> sb.contains(x) by {
        assert(sa.contains(x) <==> sa.to_multiset().count(x) > 0);
        assert(sb.contains(x) <==> sb.to_multiset().count(x) > 0);
    }
    lemma_same_order(sa, sb);
}

/// Cycling never leaves the windows: there is a next window exactly where
/// there is a window at all, and it is one of them.
pub proof fn lemma_next_is_a_window(windows: Seq<WindowView>)
    ensures
        next_in_cycle(windows) is Some <==> windows.len() > 0,
        next_in_cycle(windows) matches Some(id) ==> exists|k: int|
            0 <= k < windows.len() && windows[k].id == id,
{
    if windows.len() > 0 {
        lemma_first_focused_window(windows);
        match first_focused_window(windows) {
            Some(i) => {
                let n = windows.len() as int;
                let k = (i + 1) % n;
                assert(0 <= k < n) by (nonlinear_arith)
                    requires
                        0 <= i < n,
                        k == (i + 1) % n,
                ;
                assert(windows[k].id == next_in_cycle(windows)->0);
            },
            None => {
                assert(windows[0].id == next_in_cycle(windows)->0);
            },
        }
    }
}

/// What a search for the next match asks of the window manager: the
/// identifier of the container to focus, nothing, or the pattern that is
/// invalid.
pub open spec fn nextmatch(root: NodeView, re: Seq<char>) -> Result<Option<i64>, Seq<char>> {
    match effective_pattern(root, re) {
        None => Ok(None),
        Some(pattern) => if pattern_valid(pattern) {
            Ok(target(root, pattern))
        } else {
            Err(pattern)
        },
    }
}

/// Whether a result of the library says what `planned` says: the same
/// failure, nothing, or the command that focuses the planned container.
pub open spec fn focuses(
    r: Result<Option<String>, UtilError>,
    planned: Result<Option<i64>, Seq<char>>,
) -> bool {
    match planned {
        Ok(Some(id)) => r matches Ok(Some(cmd)) && cmd@ == focus_command_text(id as int),
        Ok(None) => r matches Ok(None),
        Err(pattern) => r matches Err(UtilError::Pattern(given)) && given@ == pattern,
    }
}

/// What running a program or raising a window comes to.
#[derive(Clone, Debug, PartialEq, Eq)]
pub enum RaiseAction {
    /// No window matches: the program is to be started in the background.
    Run(String),
    /// Some window matches: the command to send to the window manager, or
    /// nothing where cycling finds no window to focus.
    Focus(Option<String>),
}

/// Whether a result of the library is the decision between running `cmd`
/// and raising a window that matches `class`: the invalid pattern is
/// reported; without a matching window the program is run; with one, the
/// search for the next match decides, and the program is not run.
pub open spec fn raises(
    r: Result<RaiseAction, UtilError>,
    root: NodeView,
    cmd: Seq<char>,
    class: Seq<char>,
) -> bool {
    if !pattern_valid(class) {
        r matches Err(UtilError::Pattern(given)) && given@ == class
    } else if matching(window_set(root), class).len() == 0 {
        r matches Ok(RaiseAction::Run(program)) && program@ == cmd
    } else {
        match r {
            Ok(RaiseAction::Focus(command)) => focuses(Ok(command), nextmatch(root, class)),
            Ok(RaiseAction::Run(_)) => false,
            Err(e) => focuses(Err(e), nextmatch(root, class)),
        }
    }
}

impl Util {
    /// The focused window of the tree: the focused node, where it is a
    /// window.
    pub fn focused_window(tree: &TreeNode) -> (window: Option<Window>)
        ensures
            window is Some <==> focused_window(tree@) is Some,
            window matches Some(w) ==> focused_window(tree@) == Some(w@),
    {
        match tree.focused_node() {
            Some((_, node)) => match Window::try_from(node) {
                Ok(window) => Some(window),
                Err(_) => None,
            },
            None => None,
        }
    }

    /// The command that focuses the next window matching `re`.
    ///
    /// An empty `re` stands for the class of the focused window; where there
    /// is no such class nothing is done. The matching windows are taken in
    /// ascending order of identifier: the one after the focused window is
    /// next, the first one after the last, and the first one where none is
    /// focused. Without a matching window nothing is done. A pattern that
    /// does not compile is reported.
    pub fn focus_nextmatch(tree: &TreeNode, re: &str) -> (r: Result<Option<String>, UtilError>)
        ensures
            focuses(r, nextmatch(tree@, re@)),
    {
        if re.is_empty() {
            match Util::focused_window(tree) {
                Some(Window { class: Some(class), .. }) => Util::focus_matching(
                    tree,
                    class.as_str(),
                ),
                _ => Ok(None),
            }
        } else {
            Util::focus_matching(tree, re)
        }
    }

    /// The command that focuses the next window matching a pattern that is
    /// taken as it is.
    fn focus_matching(tree: &TreeNode, pattern: &str) -> (r: Result<Option<String>, UtilError>)
        ensures
            focuses(
                r,
                if pattern_valid(pattern@) {
                    Ok(target(tree@, pattern@))
                } else {
                    Err(pattern@)
                },
            ),
    {
        let compiled = match compile(pattern) {
            Ok(compiled) => compiled,
            Err(e) => {
                return Err(e);
            },
        };
        let windows = sort_by_id(search_windows(tree, &compiled));
        match next_window(&windows) {
            Some(id) => Ok(Some(focus_command(id))),
            None => Ok(None),
        }
    }

    /// Decides between starting a program and raising one of its windows.
    ///
    /// Where no window of the tree matches `class`, the program `cmd` is to
    /// be run; where one does, the next matching window is focused as
    /// [`Util::focus_nextmatch`] would. A pattern that does not compile is
    /// reported.
    pub fn run_or_raise(tree: &TreeNode, cmd: &str, class: &str) -> (r: Result<RaiseAction, UtilError>)
        ensures
            raises(r, tree@, cmd@, class@),
    {
        let compiled = match compile(class) {
            Ok(compiled) => compiled,
            Err(e) => {
                return Err(e);
            },
        };
        if search_windows(tree, &compiled).len() == 0 {
            Ok(RaiseAction::Run(String::from_str(cmd)))
        } else {
            match Util::focus_nextmatch(tree, class) {
                Ok(command) => Ok(RaiseAction::Focus(command)),
                Err(e) => Err(e),
            }
        }
    }
}

/// A search with an empty pattern is the search for the class of the focused
/// window.
pub proof fn lemma_empty_pattern_is_focused_class(root: NodeView, class: Seq<char>)
    requires
        focused_window(root) matches Some(window) && window.class == Some(class),
    ensures
        nextmatch(root, Seq::empty()) == nextmatch(root, class),
{
}

} // verus!
