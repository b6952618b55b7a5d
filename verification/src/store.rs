//! The layout store: where the backup of a workspace is kept and what the
//! marker of the focused window holds.
//!
//! The backup is a layout file and, beside it, a marker that names the
//! window that had the focus. The library names the files and reads and
//! writes their contents as text; it does not touch the disk.

use crate::error::UtilError;
use crate::text::{
    decimal, decimal_value, digits_value, integer_text, lemma_decimal_round_trip,
    lemma_digits_nonnegative, read_digits,
};
use crate::tree::{
    coherent_tree, first_focused, focus_chain, focused_node, lemma_chain_coherent,
    lemma_first_focused, NodeView, TreeNode,
};
use vstd::prelude::*;
use vstd::string::*;

verus! {

/// The controller of one invocation. It knows where the backup is kept and
/// decides what is asked of the window manager and of the windowing system;
/// it does not talk to either.
#[derive(Debug)]
pub struct Util {
    cache_dir: String,
}

/// `directories::ProjectDirs::from` and `ProjectDirs::cache_dir`: the cache
/// directory for an application. It depends on the user's environment, so
/// nothing is said of it.
#[verifier::external_body]
fn project_cache_dir(application: &str) -> Option<String> {
    directories::ProjectDirs::from("", "", application).and_then(
        |dirs| dirs.cache_dir().to_str().map(|path| path.to_string()),
    )
}

impl View for Util {
    type V = Seq<char>;

    /// The directory that holds the backup.
    closed spec fn view(&self) -> Seq<char> {
        self.cache_dir@
    }
}

/// The path of the layout file in a cache directory.
pub open spec fn layout_path(dir: Seq<char>) -> Seq<char> {
    dir + "/workspace_1_layout.json"@
}

/// The path of the marker of the focused window in a cache directory.
pub open spec fn marker_path(dir: Seq<char>) -> Seq<char> {
    dir + "/focused.json"@
}

/// The command that has the window manager append the layout file.
pub open spec fn append_layout_text(dir: Seq<char>) -> Seq<char> {
    "append_layout "@ + layout_path(dir)
}

/// The window that a line of the marker names: the integer the line stands
/// for, where it is one that an X11 identifier can hold.
pub open spec fn marker_window(line: Seq<char>) -> Option<i32> {
    match decimal_value(line) {
        Some(v) => if i32::MIN <= v <= i32::MAX {
            Some(v as i32)
        } else {
            None
        },
        None => None,
    }
}

/// What the marker holds for a tree: the X11 identifier of the focused
/// node's window in decimal. There is no marker where no node is focused or
/// the focused node has no window.
pub open spec fn focus_marker(root: NodeView) -> Option<Seq<char>> {
    match focused_node(root) {
        Some((_, node)) => match node.window {
            Some(id) => Some(decimal(id as int)),
            None => None,
        },
        None => None,
    }
}

/// The window that a line of the marker names. A line that is no integer,
/// or none that an X11 identifier can hold, names no window: the marker is a
/// convenience, and a bad one is passed over.
pub fn parse_marker(line: &str) -> (window: Option<i32>)
    ensures
        window == marker_window(line@),
{
    let n = line.unicode_len();
    if n == 0 {
        return None;
    }
    let first = line.get_char(0);
    let start: usize = if first == '-' || first == '+' {
        1
    } else {
        0
    };
    proof {
        if start == 1 {
            assert(line@.skip(1) =~= line@.drop_first());
        } else {
            assert(line@.skip(0) =~= line@);
        }
        if digits_value(line@.skip(start as int)) is Some {
            lemma_digits_nonnegative(line@.skip(start as int));
        }
    }
    match read_digits(line, start, 2147483648) {
        Some(value) => if first == '-' {
            Some((0 - (value as i64)) as i32)
        } else if value <= 2147483647 {
            Some(value as i32)
        } else {
            None
        },
        None => None,
    }
}

impl Util {
    /// A controller that keeps its backup in the cache directory of this
    /// user, or the report that no such directory can be named.
    pub fn new() -> (r: Result<Util, UtilError>)
        ensures
            r matches Err(e) ==> e == UtilError::NoCacheDirectory,
    {
        Util::in_directory(project_cache_dir(Util::application()))
    }

    /// The name under which the cache directory is looked up.
    pub fn application() -> (name: &'static str)
        ensures
            name@ == "i3ctl"@,
    {
        "i3ctl"
    }

    /// The controller for the cache directory that a lookup found: it keeps
    /// its backup there. A lookup that found none is reported.
    pub fn in_directory(found: Option<String>) -> (r: Result<Util, UtilError>)
        ensures
            match found {
                Some(dir) => r is Ok && r->Ok_0@ == dir@,
                None => r is Err && r->Err_0 == UtilError::NoCacheDirectory,
            },
    {
        match found {
            Some(dir) => Ok(Util { cache_dir: dir }),
            None => Err(UtilError::NoCacheDirectory),
        }
    }

    /// A controller that keeps its backup in the given directory.
    pub fn with_cache_dir(dir: &str) -> (util: Util)
        ensures
            util@ == dir@,
    {
        Util { cache_dir: String::from_str(dir) }
    }

    /// The directory that holds the backup.
    pub fn cache_dir(&self) -> (dir: String)
        ensures
            dir@ == self@,
    {
        self.cache_dir.clone()
    }

    /// The path of the layout file. The backup exists exactly when this file
    /// does.
    pub fn layout_file(&self) -> (path: String)
        ensures
            path@ == layout_path(self@),
    {
        let mut path = self.cache_dir.clone();
        path.append("/workspace_1_layout.json");
        path
    }

    /// The path of the marker of the focused window.
    pub fn focus_file(&self) -> (path: String)
        ensures
            path@ == marker_path(self@),
    {
        let mut path = self.cache_dir.clone();
        path.append("/focused.json");
        path
    }

    /// The command that has the window manager append the saved layout to
    /// the workspace.
    pub fn append_layout_command(&self) -> (cmd: String)
        ensures
            cmd@ == append_layout_text(self@),
    {
        let mut cmd = String::from_str("append_layout ");
        cmd.append(self.layout_file().as_str());
        cmd
    }

    /// What is written to the marker when the arrangement of the tree is
    /// saved: the X11 identifier of the focused window, or nothing where
    /// there is none.
    pub fn save_layout(tree: &TreeNode) -> (marker: Option<String>)
        ensures
            marker is Some <==> focus_marker(tree@) is Some,
            marker matches Some(text) ==> focus_marker(tree@) == Some(text@),
    {
        match tree.focused_node() {
            Some((_, node)) => match node.window {
                Some(id) => Some(integer_text(id as i64)),
                None => None,
            },
            None => None,
        }
    }
}

/// The marker that is written for a tree names, when it is read again, the
/// window of the focused node.
pub proof fn lemma_marker_round_trip(root: NodeView)
    requires
        focus_marker(root) is Some,
    ensures
        focused_node(root) matches Some((_, node)) && marker_window(focus_marker(root)->0)
            == node.window,
{
    match focused_node(root) {
        Some((_, node)) => {
            lemma_decimal_round_trip(node.window->0 as int);
        },
        None => {},
    }
}

/// In a tree whose kinds agree with its windows, a marker is written
/// exactly where the focused node is a window, a dock area apart: the node
/// that the focus commands take for a window is the node whose window the
/// marker names.
pub proof fn lemma_marker_of_focused_window(root: NodeView)
    requires
        coherent_tree(root),
        focused_node(root) is Some,
    ensures
        focused_node(root) matches Some((_, node)) && (node.kind is Window ==> focus_marker(root)
            is Some) && (focus_marker(root) is Some && !(node.kind is DockArea) ==> node.kind
            is Window),
{
    lemma_first_focused(focus_chain(root));
    lemma_chain_coherent(root, first_focused(focus_chain(root))->0);
}

} // verus!
