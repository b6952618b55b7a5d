//! The layout serializer: from a subtree of the window manager's tree to the
//! layout document that the window manager can load again.
//!
//! A layout node keeps a fixed set of attributes of its source node, a
//! `swallows` entry made from the window's class and instance, and the layout
//! nodes of the source's children under `nodes`. Everything else is dropped.

use crate::document::{
    children, dumped, duplicate, get, insert, json_model, lemma_get_smaller, lemma_lookup_add,
    lemma_member_smaller, lemma_store_fresh, lookup, members, push, sizes, text_value, JsonView,
    Member,
};
use crate::store::Util;
use crate::text::same_text;
use json::JsonValue;
use vstd::prelude::*;
use vstd::string::*;

verus! {

/// The attributes that a layout node takes over from its source, in the order
/// in which they are written.
pub open spec fn copied_keys() -> Seq<Seq<char>> {
    seq![
        "border"@,
        "current_border_width"@,
        "floating"@,
        "fullscreen_mode"@,
        "geometry"@,
        "layout"@,
        "name"@,
        "orientation"@,
        "percent"@,
        "scratchpad_state"@,
        "type"@,
        "workspace_layout"@,
    ]
}

/// The entries that `node` hands on for `keys`: one for each key that `node`
/// has, with the value `node` has for it, in the order of `keys`.
pub open spec fn copied(node: JsonView, keys: Seq<Seq<char>>) -> Seq<Member>
    decreases keys.len(),
{
    if keys.len() == 0 {
        Seq::empty()
    } else if node.has_key(keys.last()) {
        copied(node, keys.drop_last()).push(
            Member { key: keys.last(), value: node.get(keys.last()) },
        )
    } else {
        copied(node, keys.drop_last())
    }
}

/// The pattern that matches exactly `text`: `^text$`.
pub open spec fn anchored(text: Seq<char>) -> Seq<char> {
    seq!['^'] + text + seq!['$']
}

/// The entry of a swallow predicate for one window property: present where
/// the property is a string.
pub open spec fn swallow_entry(properties: JsonView, key: Seq<char>) -> Seq<Member> {
    match properties.get(key).as_str() {
        Some(text) => seq![Member { key, value: JsonView::Text(anchored(text)) }],
        None => Seq::empty(),
    }
}

/// The swallow predicate made from a node's window properties: its class and
/// its instance, each as an anchored pattern.
pub open spec fn swallows(properties: JsonView) -> JsonView {
    JsonView::Object(swallow_entry(properties, "class"@) + swallow_entry(properties, "instance"@))
}

/// The `swallows` entry of a layout node: present where the source has
/// window properties.
pub open spec fn swallows_member(node: JsonView) -> Seq<Member> {
    if node.has_key("window_properties"@) {
        seq![Member { key: "swallows"@, value: swallows(node.get("window_properties"@)) }]
    } else {
        Seq::empty()
    }
}

/// The layout node of one source node.
pub open spec fn layout_node(node: JsonView) -> JsonView
    decreases node.size(), 1nat,
{
    JsonView::Object(
        copied(node, copied_keys()) + swallows_member(node) + seq![
            Member {
                key: "nodes"@,
                value: {
                    proof {
                        lemma_get_smaller(node, "nodes"@);
                    }
                    layout(node.get("nodes"@))
                },
            },
        ],
    )
}

/// The layout nodes of the first `n` of `items`.
pub open spec fn layout_nodes(items: Seq<JsonView>, n: nat) -> Seq<JsonView>
    decreases sizes(items), n + 2,
{
    if n == 0 || n > items.len() {
        Seq::empty()
    } else {
        proof {
            lemma_member_smaller(items, n - 1);
        }
        layout_nodes(items, (n - 1) as nat).push(layout_node(items[n - 1]))
    }
}

/// The layout document of a list of source nodes: an array with one layout
/// node for each item of `src`, in order. What is no array has no items.
pub open spec fn layout(src: JsonView) -> JsonView
    decreases src.size(), 0nat,
{
    JsonView::Array(layout_nodes(src.members(), src.members().len()))
}

/// The key at position `i` of the attributes that are copied.
fn copied_key(i: usize) -> (key: &'static str)
    requires
        i < 12,
    ensures
        key@ == copied_keys()[i as int],
{
    match i {
        0 => "border",
        1 => "current_border_width",
        2 => "floating",
        3 => "fullscreen_mode",
        4 => "geometry",
        5 => "layout",
        6 => "name",
        7 => "orientation",
        8 => "percent",
        9 => "scratchpad_state",
        10 => "type",
        _ => "workspace_layout",
    }
}

/// No attribute is copied twice, and none of them is called `swallows` or
/// `nodes`.
pub proof fn lemma_keys_distinct()
    ensures
        copied_keys().len() == 12,
        forall|i: int, j: int|
            0 <= i < j < 12 ==> #[trigger] copied_keys()[i] != #[trigger] copied_keys()[j],
        forall|i: int| 0 <= i < 12 ==> #[trigger] copied_keys()[i] != "swallows"@,
        forall|i: int| 0 <= i < 12 ==> #[trigger] copied_keys()[i] != "nodes"@,
        "swallows"@ != "nodes"@,
        "class"@ != "instance"@,
{
    reveal_strlit("border");
    reveal_strlit("current_border_width");
    reveal_strlit("floating");
    reveal_strlit("fullscreen_mode");
    reveal_strlit("geometry");
    reveal_strlit("layout");
    reveal_strlit("name");
    reveal_strlit("orientation");
    reveal_strlit("percent");
    reveal_strlit("scratchpad_state");
    reveal_strlit("type");
    reveal_strlit("workspace_layout");
    reveal_strlit("swallows");
    reveal_strlit("nodes");
    reveal_strlit("class");
    reveal_strlit("instance");
    let keys = copied_keys();
    assert(keys[0].len() == 6 && keys[0][0] == 'b');
    assert(keys[1].len() == 20);
    assert(keys[2].len() == 8 && keys[2][0] == 'f');
    assert(keys[3].len() == 15);
    assert(keys[4].len() == 8 && keys[4][0] == 'g');
    assert(keys[5].len() == 6 && keys[5][0] == 'l');
    assert(keys[6].len() == 4 && keys[6][0] == 'n');
    assert(keys[7].len() == 11);
    assert(keys[8].len() == 7);
    assert(keys[9].len() == 16 && keys[9][0] == 's');
    assert(keys[10].len() == 4 && keys[10][0] == 't');
    assert(keys[11].len() == 16 && keys[11][0] == 'w');
    assert("swallows"@.len() == 8 && "swallows"@[0] == 's');
    assert("nodes"@.len() == 5);
    assert("class"@.len() == 5);
    assert("instance"@.len() == 8);
}

/// What the copied entries hold under a key: the source's value, where the
/// key is one of `keys` and the source has it; nothing otherwise.
pub proof fn lemma_copied_lookup(node: JsonView, keys: Seq<Seq<char>>, key: Seq<char>)
    ensures
        lookup(copied(node, keys), key) == if keys.contains(key) && node.has_key(key) {
            Some(node.get(key))
        } else {
            None
        },
    decreases keys.len(),
{
    if keys.len() > 0 {
        let rest = keys.drop_last();
        lemma_copied_lookup(node, rest, key);
        assert(keys.contains(key) <==> rest.contains(key) || keys.last() == key) by {
            if rest.contains(key) {
                let i = choose|i: int| 0 <= i < rest.len() && rest[i] == key;
                assert(keys[i] == key);
            }
            if keys.contains(key) {
                let i = choose|i: int| 0 <= i < keys.len() && keys[i] == key;
                if i < keys.len() - 1 {
                    assert(rest[i] == key);
                }
            }
        }
        if node.has_key(keys.last()) {
            let last = Member { key: keys.last(), value: node.get(keys.last()) };
            assert(copied(node, rest).push(last) =~= copied(node, rest) + seq![last]);
            lemma_lookup_add(copied(node, rest), seq![last], key);
            assert(seq![last].drop_first() =~= Seq::<Member>::empty());
            assert(lookup(Seq::<Member>::empty(), key) is None);
            assert(lookup(seq![last], key) == if last.key == key {
                Some(last.value)
            } else {
                None
            });
        }
    } else {
        assert(!keys.contains(key));
    }
}

/// The anchored pattern `^text$`.
fn anchor(text: &str) -> (pattern: String)
    ensures
        pattern@ == anchored(text@),
{
    let mut pattern = String::from_str("^");
    pattern.append(text);
    pattern.append("$");
    proof {
        reveal_strlit("^");
        reveal_strlit("$");
        assert("^"@ =~= seq!['^']);
        assert("$"@ =~= seq!['$']);
    }
    pattern
}

/// Adds to `object` the entry of a swallow predicate for one window property.
fn add_swallow(object: &mut JsonValue, properties: &JsonValue, key: &str)
    requires
        json_model(*old(object)) matches JsonView::Object(entries) && lookup(entries, key@)
            is None,
    ensures
        json_model(*final(object)) == JsonView::Object(
            json_model(*old(object))->Object_0 + swallow_entry(json_model(*properties), key@),
        ),
{
    let ghost entries = json_model(*object)->Object_0;
    match get(properties, key).as_str() {
        Some(text) => {
            let value = text_value(anchor(text));
            proof {
                lemma_store_fresh(entries, key@, json_model(value));
                assert(entries.push(Member { key: key@, value: json_model(value) }) =~= entries
                    + swallow_entry(json_model(*properties), key@));
            }
            let stored = insert(object, key, value);
            assert(stored is Ok);
        },
        None => {
            assert(entries + swallow_entry(json_model(*properties), key@) =~= entries);
        },
    }
}

/// The swallow predicate for a node's window properties.
fn swallows_of(properties: &JsonValue) -> (predicate: JsonValue)
    ensures
        json_model(predicate) == swallows(json_model(*properties)),
{
    let mut predicate = JsonValue::new_object();
    add_swallow(&mut predicate, properties, "class");
    proof {
        lemma_keys_distinct();
        let first = swallow_entry(json_model(*properties), "class"@);
        assert(Seq::<Member>::empty() + first =~= first);
        assert(lookup(first, "instance"@) is None) by {
            assert(lookup(Seq::<Member>::empty(), "instance"@) is None);
            if first.len() > 0 {
                assert(first.drop_first() =~= Seq::<Member>::empty());
            }
        }
    }
    add_swallow(&mut predicate, properties, "instance");
    predicate
}

/// The attributes that the layout node of `node` takes over.
fn copy_attributes(node: &JsonValue) -> (container: JsonValue)
    ensures
        json_model(container) == JsonView::Object(copied(json_model(*node), copied_keys())),
{
    let mut container = JsonValue::new_object();
    let mut k: usize = 0;
    proof {
        lemma_keys_distinct();
    }
    while k < 12
        invariant
            k <= 12,
            copied_keys().len() == 12,
            json_model(container) == JsonView::Object(
                copied(json_model(*node), copied_keys().take(k as int)),
            ),
        decreases 12 - k,
    {
        let key = copied_key(k);
        let ghost done = copied_keys().take(k as int);
        proof {
            assert(copied_keys().take(k as int + 1).drop_last() =~= done);
        }
        if node.has_key(key) {
            let value = duplicate(get(node, key));
            proof {
                lemma_keys_distinct();
                lemma_copied_lookup(json_model(*node), done, key@);
                lemma_store_fresh(copied(json_model(*node), done), key@, json_model(value));
            }
            let stored = insert(&mut container, key, value);
            assert(stored is Ok);
        }
        k = k + 1;
    }
    proof {
        assert(copied_keys().take(12) =~= copied_keys());
    }
    container
}

/// The layout node of one node of the tree.
fn build_node(node: &JsonValue) -> (container: JsonValue)
    ensures
        json_model(container) == layout_node(json_model(*node)),
    decreases json_model(*node).size(), 1nat,
{
    let ghost source = json_model(*node);
    let mut container = copy_attributes(node);
    proof {
        lemma_keys_distinct();
        lemma_copied_lookup(source, copied_keys(), "swallows"@);
        lemma_copied_lookup(source, copied_keys(), "nodes"@);
    }
    if node.has_key("window_properties") {
        let predicate = swallows_of(get(node, "window_properties"));
        proof {
            lemma_store_fresh(copied(source, copied_keys()), "swallows"@, json_model(predicate));
        }
        let stored = insert(&mut container, "swallows", predicate);
        assert(stored is Ok);
    }
    let ghost head = copied(source, copied_keys()) + swallows_member(source);
    assert(json_model(container) == JsonView::Object(head)) by {
        if source.has_key("window_properties"@) {
            assert(copied(source, copied_keys()).push(swallows_member(source)[0]) =~= head);
        } else {
            assert(copied(source, copied_keys()) =~= head);
        }
    }
    proof {
        lemma_get_smaller(source, "nodes"@);
    }
    let children = build_tree(get(node, "nodes"));
    proof {
        lemma_lookup_add(copied(source, copied_keys()), swallows_member(source), "nodes"@);
        assert(lookup(swallows_member(source), "nodes"@) is None) by {
            assert(lookup(Seq::<Member>::empty(), "nodes"@) is None);
            if swallows_member(source).len() > 0 {
                assert(swallows_member(source).drop_first() =~= Seq::<Member>::empty());
            }
        }
        lemma_store_fresh(head, "nodes"@, json_model(children));
        assert(head.push(Member { key: "nodes"@, value: json_model(children) }) =~= head + seq![
            Member { key: "nodes"@, value: json_model(children) },
        ]);
    }
    let stored = insert(&mut container, "nodes", children);
    assert(stored is Ok);
    container
}

/// The layout document for the nodes listed in `src`.
///
/// Each item of `src` becomes one layout node: the copied attributes that the
/// item has, a swallow predicate where it has window properties, and the
/// layout of its own children. A `src` that is empty, or no array at all,
/// gives the empty document.
pub fn build_tree(src: &JsonValue) -> (dst: JsonValue)
    ensures
        json_model(dst) == layout(json_model(*src)),
    decreases json_model(*src).size(), 0nat,
{
    let mut dst = JsonValue::new_array();
    if src.is_empty() {
        return dst;
    }
    let nodes = members(src);
    let ghost items = json_model(*src).members();
    let mut i: usize = 0;
    while i < nodes.len()
        invariant
            i <= nodes.len(),
            nodes@.len() == items.len(),
            items == json_model(*src).members(),
            forall|j: int| 0 <= j < nodes@.len() ==> json_model(*#[trigger] nodes@[j]) == items[j],
            json_model(dst) == JsonView::Array(layout_nodes(items, i as nat)),
        decreases nodes.len() - i,
    {
        proof {
            lemma_member_smaller(items, i as int);
        }
        let container = build_node(nodes[i]);
        let pushed = push(&mut dst, container);
        assert(pushed is Ok);
        i = i + 1;
    }
    dst
}

/// A layout node keeps each copied attribute exactly as its source has it:
/// present where the source has it, with the same value, absent where the
/// source has none.
pub proof fn lemma_layout_keeps_attributes(node: JsonView, key: Seq<char>)
    requires
        copied_keys().contains(key),
    ensures
        layout_node(node).has_key(key) == node.has_key(key),
        layout_node(node).get(key) == node.get(key),
{
    lemma_keys_distinct();
    lemma_copied_lookup(node, copied_keys(), key);
    let tail = swallows_member(node) + seq![
        Member { key: "nodes"@, value: layout(node.get("nodes"@)) },
    ];
    assert(layout_node(node)->Object_0 =~= copied(node, copied_keys()) + tail);
    lemma_lookup_add(copied(node, copied_keys()), tail, key);
    lemma_tail_lookup(node, key);
}

/// What the entries after the copied attributes hold under a key.
proof fn lemma_tail_lookup(node: JsonView, key: Seq<char>)
    ensures
        lookup(
            swallows_member(node) + seq![
                Member { key: "nodes"@, value: layout(node.get("nodes"@)) },
            ],
            key,
        ) == if key == "swallows"@ && node.has_key("window_properties"@) {
            Some(swallows(node.get("window_properties"@)))
        } else if key == "nodes"@ {
            Some(layout(node.get("nodes"@)))
        } else {
            None
        },
{
    lemma_keys_distinct();
    let last = seq![Member { key: "nodes"@, value: layout(node.get("nodes"@)) }];
    lemma_lookup_add(swallows_member(node), last, key);
    assert(lookup(Seq::<Member>::empty(), key) is None);
    assert(last.drop_first() =~= Seq::<Member>::empty());
    if swallows_member(node).len() > 0 {
        assert(swallows_member(node).drop_first() =~= Seq::<Member>::empty());
    }
}

/// A layout node holds nothing but copied attributes, `swallows` and `nodes`:
/// every other attribute of the source is dropped.
pub proof fn lemma_layout_drops_others(node: JsonView, key: Seq<char>)
    requires
        !copied_keys().contains(key),
        key != "swallows"@,
        key != "nodes"@,
    ensures
        !layout_node(node).has_key(key),
{
    lemma_copied_lookup(node, copied_keys(), key);
    let tail = swallows_member(node) + seq![
        Member { key: "nodes"@, value: layout(node.get("nodes"@)) },
    ];
    assert(layout_node(node)->Object_0 =~= copied(node, copied_keys()) + tail);
    lemma_lookup_add(copied(node, copied_keys()), tail, key);
    lemma_tail_lookup(node, key);
}

/// The shape of a layout document mirrors its source: one layout node for
/// each source node, in order, and under `nodes` the layout of the source's
/// own children.
pub proof fn lemma_layout_shape(src: JsonView, i: int)
    requires
        0 <= i < src.members().len(),
    ensures
        layout(src).members().len() == src.members().len(),
        layout(src).members()[i] == layout_node(src.members()[i]),
        layout_node(src.members()[i]).get("nodes"@) == layout(src.members()[i].get("nodes"@)),
{
    lemma_layout_nodes(src.members(), src.members().len(), i);
    let node = src.members()[i];
    lemma_copied_lookup(node, copied_keys(), "nodes"@);
    lemma_keys_distinct();
    let tail = swallows_member(node) + seq![
        Member { key: "nodes"@, value: layout(node.get("nodes"@)) },
    ];
    assert(layout_node(node)->Object_0 =~= copied(node, copied_keys()) + tail);
    lemma_lookup_add(copied(node, copied_keys()), tail, "nodes"@);
    lemma_tail_lookup(node, "nodes"@);
}

/// The layout nodes of a list, item by item.
proof fn lemma_layout_nodes(items: Seq<JsonView>, n: nat, i: int)
    requires
        n <= items.len(),
        0 <= i < n,
    ensures
        layout_nodes(items, n).len() == n,
        layout_nodes(items, n)[i] == layout_node(items[i]),
    decreases n,
{
    lemma_layout_len(items, n);
    lemma_layout_len(items, (n - 1) as nat);
    if i < n - 1 {
        lemma_layout_nodes(items, (n - 1) as nat, i);
    }
}

proof fn lemma_layout_len(items: Seq<JsonView>, n: nat)
    requires
        n <= items.len(),
    ensures
        layout_nodes(items, n).len() == n,
    decreases n,
{
    if n > 0 {
        lemma_layout_len(items, (n - 1) as nat);
    }
}

/// The children of each of `nodes`, one node's children after the other's.
pub open spec fn below_all(nodes: Seq<JsonView>) -> Seq<JsonView>
    decreases nodes.len(),
{
    if nodes.len() == 0 {
        Seq::empty()
    } else {
        below_all(nodes.drop_last()) + children(nodes.last())
    }
}

/// The workspaces of a tree: the nodes three levels below the root, which
/// holds outputs, which hold content areas, which hold workspaces.
pub open spec fn workspaces(tree: JsonView) -> Seq<JsonView> {
    below_all(below_all(children(tree)))
}

/// Whether a node has the given name.
pub open spec fn named(node: JsonView, name: Seq<char>) -> bool {
    node.get("name"@).as_str() == Some(name)
}

/// The first of `nodes` with the given name.
pub open spec fn first_named(nodes: Seq<JsonView>, name: Seq<char>) -> Option<JsonView>
    decreases nodes.len(),
{
    if nodes.len() == 0 {
        None
    } else if named(nodes[0], name) {
        Some(nodes[0])
    } else {
        first_named(nodes.drop_first(), name)
    }
}

/// The layout document of a workspace of the tree: the layout of what the
/// first workspace with that name holds. A tree without such a workspace has
/// none.
pub open spec fn workspace_layout(tree: JsonView, workspace: Seq<char>) -> Option<JsonView> {
    match first_named(workspaces(tree), workspace) {
        Some(node) => Some(layout(node.get("nodes"@))),
        None => None,
    }
}

/// The views of borrowed documents, in order.
pub open spec fn models_of(nodes: Seq<&JsonValue>) -> Seq<JsonView> {
    nodes.map_values(|node: &JsonValue| json_model(*node))
}

/// The children of each of `nodes`.
fn descend<'a>(nodes: &Vec<&'a JsonValue>) -> (below: Vec<&'a JsonValue>)
    ensures
        models_of(below@) == below_all(models_of(nodes@)),
{
    let mut below: Vec<&'a JsonValue> = Vec::new();
    let mut i: usize = 0;
    assert(models_of(below@) =~= below_all(models_of(nodes@).take(0)));
    while i < nodes.len()
        invariant
            i <= nodes.len(),
            models_of(below@) == below_all(models_of(nodes@).take(i as int)),
        decreases nodes.len() - i,
    {
        let mut found = members(get(nodes[i], "nodes"));
        let ghost before = below@;
        let ghost added = found@;
        proof {
            let seen = models_of(nodes@).take(i as int + 1);
            assert(seen.drop_last() =~= models_of(nodes@).take(i as int));
            assert(seen.last() == json_model(*nodes@[i as int]));
            assert(models_of(added) =~= children(seen.last()));
        }
        below.append(&mut found);
        assert(models_of(below@) =~= models_of(before) + models_of(added));
        i = i + 1;
    }
    assert(models_of(nodes@).take(nodes.len() as int) =~= models_of(nodes@));
    below
}

/// The first of `nodes` with the given name.
fn find_named<'a>(nodes: &Vec<&'a JsonValue>, name: &str) -> (found: Option<&'a JsonValue>)
    ensures
        found is Some <==> first_named(models_of(nodes@), name@) is Some,
        found matches Some(node) ==> first_named(models_of(nodes@), name@) == Some(
            json_model(*node),
        ),
{
    let ghost all = models_of(nodes@);
    let mut i: usize = 0;
    assert(all.skip(0) =~= all);
    while i < nodes.len()
        invariant
            i <= nodes.len(),
            all == models_of(nodes@),
            first_named(all, name@) == first_named(all.skip(i as int), name@),
        decreases nodes.len() - i,
    {
        let node = nodes[i];
        proof {
            assert(all.skip(i as int)[0] == json_model(*node));
            assert(all.skip(i as int).drop_first() =~= all.skip(i as int + 1));
        }
        let is_named = match get(node, "name").as_str() {
            Some(text) => same_text(text, name),
            None => false,
        };
        if is_named {
            return Some(node);
        }
        i = i + 1;
    }
    assert(all.skip(nodes.len() as int) =~= Seq::<JsonView>::empty());
    None
}

impl Util {
    /// The text of the layout document for a workspace of the tree, as it is
    /// written to the layout file. A tree without a workspace of that name
    /// gives nothing to write.
    pub fn save_workspace(tree: &JsonValue, workspace: &str) -> (document: Option<String>)
        ensures
            document is Some <==> workspace_layout(json_model(*tree), workspace@) is Some,
            document matches Some(text) ==> text@ == dumped(
                workspace_layout(json_model(*tree), workspace@)->0,
            ),
    {
        let outputs = members(get(tree, "nodes"));
        assert(models_of(outputs@) =~= children(json_model(*tree)));
        let areas = descend(&outputs);
        let candidates = descend(&areas);
        match find_named(&candidates, workspace) {
            Some(node) => Some(build_tree(get(node, "nodes")).dump()),
            None => None,
        }
    }
}

} // verus!
