//! The tree panel's logic: item labels and their icons, the path of an item
//! as the plugins see it, which nodes start expanded, and which nodes a
//! search keeps.

use vstd::prelude::*;

use crate::text::{
    append_range, append_str, chars_of, join_spec, lemma_join_take, push_char, same_text, split_bounds,
    split_spec, str_to_lowercase, string_of, to_lowercase,
};

verus! {

/// An RGB color.
pub type Rgb = (u8, u8, u8);

/// The color of a node whose label color is `name` (`modified`, `added`,
/// `untracked`, `conflict`, `ignored`), for a dark or a light theme.
pub open spec fn label_color_spec(name: Seq<char>, is_dark: bool) -> Option<Rgb> {
    if name == "modified"@ {
        Some(if is_dark { (229u8, 192u8, 123u8) } else { (190u8, 140u8, 40u8) })
    } else if name == "added"@ || name == "untracked"@ {
        Some(if is_dark { (152u8, 195u8, 121u8) } else { (60u8, 140u8, 50u8) })
    } else if name == "conflict"@ {
        Some(if is_dark { (224u8, 108u8, 117u8) } else { (190u8, 50u8, 50u8) })
    } else if name == "ignored"@ {
        Some(if is_dark { (120u8, 120u8, 120u8) } else { (160u8, 160u8, 160u8) })
    } else {
        None
    }
}

/// The color of a node's label (see `label_color_spec`).
pub fn label_color(name: &str, is_dark: bool) -> (r: Option<Rgb>)
    ensures
        r == label_color_spec(name@, is_dark),
{
    if same_text(name, "modified") {
        Some(if is_dark { (229, 192, 123) } else { (190, 140, 40) })
    } else if same_text(name, "added") || same_text(name, "untracked") {
        Some(if is_dark { (152, 195, 121) } else { (60, 140, 50) })
    } else if same_text(name, "conflict") {
        Some(if is_dark { (224, 108, 117) } else { (190, 50, 50) })
    } else if same_text(name, "ignored") {
        Some(if is_dark { (120, 120, 120) } else { (160, 160, 160) })
    } else {
        None
    }
}

/// The icon prefixes of item labels.
pub open spec fn folder_icon() -> Seq<char> {
    seq!['\u{1F4C1}', ' ']
}

pub open spec fn file_icon() -> Seq<char> {
    seq!['\u{1F4C4}', ' ']
}

pub open spec fn error_icon() -> Seq<char> {
    seq!['\u{274C}', ' ']
}

pub open spec fn warning_icon() -> Seq<char> {
    seq!['\u{26A0}', ' ']
}

pub open spec fn info_icon() -> Seq<char> {
    seq!['\u{2139}', ' ']
}

/// The icon of a node: the one its hint names (`folder`, `file`, `error`,
/// `warning`, `info`; none for another hint), else a folder for a node
/// with children and a file for a leaf.
pub open spec fn node_icon_spec(hint: Option<Seq<char>>, has_children: bool) -> Seq<char> {
    match hint {
        Some(h) => if h == "folder"@ {
            folder_icon()
        } else if h == "file"@ {
            file_icon()
        } else if h == "error"@ {
            error_icon()
        } else if h == "warning"@ {
            warning_icon()
        } else if h == "info"@ {
            info_icon()
        } else {
            Seq::empty()
        },
        None => if has_children {
            folder_icon()
        } else {
            file_icon()
        },
    }
}

/// The label of a node's item: its icon, then its label.
pub fn item_label(hint: Option<&str>, has_children: bool, label: &str) -> (r: String)
    ensures
        r@ == node_icon_spec(
            match hint {
                Some(h) => Some(h@),
                None => None,
            },
            has_children,
        ) + label@,
{
    let mut s = String::new();
    let (c, icon): (char, bool) = match hint {
        Some(h) => if same_text(h, "folder") {
            ('\u{1F4C1}', true)
        } else if same_text(h, "file") {
            ('\u{1F4C4}', true)
        } else if same_text(h, "error") {
            ('\u{274C}', true)
        } else if same_text(h, "warning") {
            ('\u{26A0}', true)
        } else if same_text(h, "info") {
            ('\u{2139}', true)
        } else {
            (' ', false)
        },
        None => if has_children {
            ('\u{1F4C1}', true)
        } else {
            ('\u{1F4C4}', true)
        },
    };
    if icon {
        push_char(&mut s, c);
        push_char(&mut s, ' ');
    }
    append_str(&mut s, label);
    proof {
        let h = match hint {
            Some(h) => Some(h@),
            None => None,
        };
        assert(s@ =~= node_icon_spec(h, has_children) + label@);
    }
    s
}

/// `s` with every leading repetition of `p` removed (what
/// `str::trim_start_matches` does with a string pattern).
pub open spec fn trim_start_all(s: Seq<char>, p: Seq<char>) -> Seq<char>
    decreases s.len(),
{
    if p.len() > 0 && p.len() <= s.len() && s.take(p.len() as int) == p {
        trim_start_all(s.skip(p.len() as int), p)
    } else {
        s
    }
}

/// A label without its icon: the folder, file, error, warning and info
/// prefixes trimmed in turn.
pub open spec fn strip_icon_spec(label: Seq<char>) -> Seq<char> {
    trim_start_all(
        trim_start_all(
            trim_start_all(trim_start_all(trim_start_all(label, folder_icon()), file_icon()), error_icon()),
            warning_icon(),
        ),
        info_icon(),
    )
}

/// The start of `v[lo..hi]` after trimming every leading `(a, ' ')`.
fn trim_icon_from(v: &Vec<char>, lo: usize, hi: usize, a: char) -> (r: usize)
    requires
        lo <= hi <= v@.len(),
    ensures
        lo <= r <= hi,
        v@.subrange(r as int, hi as int) == trim_start_all(v@.subrange(lo as int, hi as int), seq![a, ' ']),
{
    let mut k = lo;
    while hi - k >= 2 && v[k] == a && v[k + 1] == ' '
        invariant
            lo <= k <= hi <= v@.len(),
            trim_start_all(v@.subrange(lo as int, hi as int), seq![a, ' ']) == trim_start_all(
                v@.subrange(k as int, hi as int),
                seq![a, ' '],
            ),
        decreases hi - k,
    {
        proof {
            let s = v@.subrange(k as int, hi as int);
            assert(s.take(2) =~= seq![a, ' ']);
            assert(s.skip(2) =~= v@.subrange(k + 2, hi as int));
        }
        k += 2;
    }
    proof {
        let s = v@.subrange(k as int, hi as int);
        if s.len() >= 2 && s.take(2) == seq![a, ' '] {
            assert(s.take(2)[0] == v@[k as int]);
            assert(s.take(2)[1] == v@[k + 1]);
        }
    }
    k
}

/// The label without its icon (see `strip_icon_spec`).
pub fn strip_icon(label: &str) -> (r: String)
    ensures
        r@ == strip_icon_spec(label@),
{
    let v = chars_of(label);
    let n = v.len();
    assert(v@.subrange(0, n as int) =~= label@);
    let a = trim_icon_from(&v, 0, n, '\u{1F4C1}');
    let b = trim_icon_from(&v, a, n, '\u{1F4C4}');
    let c = trim_icon_from(&v, b, n, '\u{274C}');
    let d = trim_icon_from(&v, c, n, '\u{26A0}');
    let e = trim_icon_from(&v, d, n, '\u{2139}');
    let mut s = String::new();
    append_range(&mut s, &v, e, n);
    assert(s@ =~= v@.subrange(e as int, n as int));
    s
}

/// The path of an item as the plugins see it: the item's tree path split at
/// `/`, the first part (the project root) left out, icons stripped, joined
/// with `/`.
pub open spec fn semantic_key_spec(item_path: Seq<char>) -> Seq<char> {
    let parts = split_spec(item_path, '/').skip(1);
    join_spec(Seq::new(parts.len(), |i: int| strip_icon_spec(parts[i])), seq!['/'])
}

/// The path of an item as the plugins see it (see `semantic_key_spec`).
pub fn semantic_key(item_path: &str) -> (r: String)
    ensures
        r@ == semantic_key_spec(item_path@),
{
    let v = chars_of(item_path);
    let bounds = split_bounds(&v, '/');
    let ghost parts = split_spec(v@, '/').skip(1);
    let ghost stripped = Seq::new(parts.len(), |i: int| strip_icon_spec(parts[i]));
    let mut out = String::new();
    let mut i: usize = 1;
    assert(stripped.take(0) =~= Seq::<Seq<char>>::empty());
    proof {
        crate::text::lemma_split_len(v@, '/');
    }
    while i < bounds.len()
        invariant
            1 <= i <= bounds.len(),
            bounds@.len() == split_spec(v@, '/').len(),
            v@ == item_path@,
            parts == split_spec(v@, '/').skip(1),
            stripped == Seq::new(parts.len(), |i: int| strip_icon_spec(parts[i])),
            forall|k: int|
                0 <= k < bounds.len() ==> {
                    &&& (#[trigger] bounds@[k]).0 <= bounds@[k].1 <= v.len()
                    &&& v@.subrange(bounds@[k].0 as int, bounds@[k].1 as int) == split_spec(v@, '/')[k]
                },
            out@ == join_spec(stripped.take(i - 1), seq!['/']),
        decreases bounds.len() - i,
    {
        let ghost before = out@;
        let (lo, hi) = bounds[i];
        let piece = crate::text::string_from_range(&v, lo, hi);
        let st = strip_icon(piece.as_str());
        if i > 1 {
            push_char(&mut out, '/');
        }
        append_str(&mut out, st.as_str());
        proof {
            lemma_join_take(stripped, seq!['/'], i - 1);
            assert(parts[i - 1] == split_spec(v@, '/')[i as int]);
            assert(out@ =~= before + (if i - 1 > 0 {
                seq!['/']
            } else {
                Seq::empty()
            }) + stripped[i - 1]);
        }
        i += 1;
    }
    assert(stripped.take(i - 1) =~= stripped);
    out
}

/// Whether a node starts expanded: never a leaf; when expansion state was
/// saved, as it was saved; else when `expand_depth` is negative (expand
/// all) or the node lies above that depth.
pub fn should_expand(
    has_children: bool,
    has_saved_state: bool,
    saved_expanded: bool,
    expand_depth: i32,
    current_depth: i32,
) -> (r: bool)
    ensures
        r == (has_children && (if has_saved_state {
            saved_expanded
        } else {
            expand_depth < 0 || current_depth < expand_depth
        })),
{
    if !has_children {
        false
    } else if has_saved_state {
        saved_expanded
    } else if expand_depth < 0 {
        true
    } else {
        current_depth < expand_depth
    }
}

/// Whether `s` contains `q` as a contiguous part.
pub open spec fn contains_seq(s: Seq<char>, q: Seq<char>) -> bool {
    exists|i: int| 0 <= i && i + q.len() <= s.len() && #[trigger] s.subrange(i, i + q.len()) == q
}

/// Whether `s` contains `q` as a contiguous part.
pub fn contains_str(s: &Vec<char>, q: &Vec<char>) -> (r: bool)
    ensures
        r == contains_seq(s@, q@),
{
    if q.len() > s.len() {
        return false;
    }
    let last = s.len() - q.len();
    let mut i: usize = 0;
    loop
        invariant
            i <= last,
            last + q@.len() == s@.len(),
            forall|j: int| 0 <= j < i ==> #[trigger] s@.subrange(j, j + q@.len()) != q@,
        decreases last - i,
    {
        let mut k: usize = 0;
        let mut same = true;
        let n: usize = s.len();
        while k < q.len()
            invariant
                k <= q@.len(),
                n == s@.len(),
                i + q@.len() <= s@.len(),
                same == forall|j: int| 0 <= j < k ==> s@[i + j] == q@[j],
            decreases q@.len() - k,
        {
            if s[i + k] != q[k] {
                same = false;
            }
            k += 1;
        }
        if same {
            assert(s@.subrange(i as int, i + q@.len()) =~= q@);
            return true;
        } else {
            assert(s@.subrange(i as int, i + q@.len()) != q@) by {
                let j = choose|j: int| 0 <= j < q@.len() && s@[i + j] != q@[j];
                assert(s@.subrange(i as int, i + q@.len())[j] == s@[i + j]);
            }
        }
        if i == last {
            proof {
                assert forall|j: int| 0 <= j && j + q@.len() <= s@.len() implies #[trigger] s@.subrange(
                    j,
                    j + q@.len(),
                ) != q@ by {
                    assert(j <= last);
                }
            }
            return false;
        }
        i += 1;
    }
}

/// A node of the tree that a plugin shows.
pub struct TreeNode {
    pub label: String,
    pub icon: Option<String>,
    pub label_color: Option<String>,
    pub children: Vec<TreeNode>,
    pub lazy: bool,
}

/// Whether the node's label, lowercased, contains the (lowercase) query.
pub open spec fn label_matches(node: TreeNode, query: Seq<char>) -> bool {
    contains_seq(str_to_lowercase(node.label@), query)
}

/// Whether the node or a node below it matches the query.
pub open spec fn subtree_matches(node: TreeNode, query: Seq<char>) -> bool
    decreases node, 1int, 0int,
{
    label_matches(node, query) || any_child_matches(node, query, 0)
}

/// Whether a child of the node, from child `i` on, has a match in its
/// subtree.
pub open spec fn any_child_matches(node: TreeNode, query: Seq<char>, i: int) -> bool
    decreases node, 0int, node.children@.len() - i,
{
    if 0 <= i < node.children@.len() {
        subtree_matches(node.children@[i], query) || any_child_matches(node, query, i + 1)
    } else {
        false
    }
}

/// Whether child `i` of the node has a match in its subtree.
pub open spec fn subtree_matches_at(node: TreeNode, query: Seq<char>, i: int) -> bool {
    0 <= i < node.children@.len() && subtree_matches(node.children@[i], query)
}

/// Whether the node's label matches the (lowercase) query.
pub fn node_label_matches(node: &TreeNode, query: &Vec<char>) -> (r: bool)
    ensures
        r == label_matches(*node, query@),
{
    let lower = to_lowercase(node.label.as_str());
    let lv = chars_of(lower.as_str());
    contains_str(&lv, query)
}

/// Whether the node or a node below it matches the (lowercase) query.
pub fn node_subtree_matches(node: &TreeNode, query: &Vec<char>) -> (r: bool)
    ensures
        r == subtree_matches(*node, query@),
    decreases node,
{
    if node_label_matches(node, query) {
        return true;
    }
    let mut i: usize = 0;
    while i < node.children.len()
        invariant
            i <= node.children@.len(),
            !label_matches(*node, query@),
            subtree_matches(*node, query@) == any_child_matches(*node, query@, i as int),
        decreases node.children@.len() - i,
    {
        proof {
            assert(decreases_to!(*node => node.children@[i as int]));
        }
        if node_subtree_matches(&node.children[i], query) {
            return true;
        }
        i += 1;
    }
    false
}

/// Which children of a node a search shows: all of them when the node's
/// own label matches, else those whose subtree matches.
pub fn children_to_show(node: &TreeNode, query: &Vec<char>) -> (r: Vec<bool>)
    ensures
        r@.len() == node.children@.len(),
        forall|i: int|
            0 <= i < r@.len() ==> #[trigger] r@[i] == (label_matches(*node, query@) || subtree_matches_at(
                *node,
                query@,
                i,
            )),
{
    let self_matches = node_label_matches(node, query);
    let mut r: Vec<bool> = Vec::new();
    let mut i: usize = 0;
    while i < node.children.len()
        invariant
            i <= node.children@.len(),
            self_matches == label_matches(*node, query@),
            r@.len() == i,
            forall|j: int|
                0 <= j < i ==> #[trigger] r@[j] == (label_matches(*node, query@) || subtree_matches_at(
                    *node,
                    query@,
                    j,
                )),
        decreases node.children@.len() - i,
    {
        let m = node_subtree_matches(&node.children[i], query);
        let ghost before = r@;
        r.push(self_matches || m);
        assert(forall|j: int| 0 <= j < i ==> r@[j] == before[j]);
        assert(r@[i as int] == (label_matches(*node, query@) || subtree_matches_at(*node, query@, i as int)));
        i += 1;
    }
    r
}


/// The nodes a search shows, from `node` (whose position below the root
/// is `at`, as child indices) down, in the tree's order: a node is shown
/// when it or a node below it matches, its shown children after it; a
/// subtree without a match is left out. So the search shows exactly the
/// matching nodes and their ancestors, each once, in order.
pub open spec fn shown_paths(node: TreeNode, query: Seq<char>, at: Seq<usize>) -> Seq<Seq<usize>>
    decreases node, 1int, 0int,
{
    if subtree_matches(node, query) {
        seq![at] + shown_child_paths(node, query, at, 0)
    } else {
        Seq::empty()
    }
}

/// The shown nodes below the children of `node` from child `i` on.
pub open spec fn shown_child_paths(node: TreeNode, query: Seq<char>, at: Seq<usize>, i: int) -> Seq<Seq<usize>>
    decreases node, 0int, node.children@.len() - i,
{
    if 0 <= i < node.children@.len() {
        shown_paths(node.children@[i], query, at.push(i as usize)) + shown_child_paths(node, query, at, i + 1)
    } else {
        Seq::empty()
    }
}

/// The paths as plain values.
pub open spec fn path_views(v: Seq<Vec<usize>>) -> Seq<Seq<usize>> {
    Seq::new(v.len(), |i: int| v[i]@)
}

fn copy_path(p: &Vec<usize>) -> (r: Vec<usize>)
    ensures
        r@ == p@,
{
    let mut r: Vec<usize> = Vec::new();
    let mut i: usize = 0;
    while i < p.len()
        invariant
            i <= p@.len(),
            r@ == p@.take(i as int),
        decreases p@.len() - i,
    {
        r.push(p[i]);
        assert(r@ =~= p@.take(i + 1));
        i += 1;
    }
    assert(p@.take(i as int) =~= p@);
    r
}

fn push_shown(node: &TreeNode, query: &Vec<char>, at: &Vec<usize>, out: &mut Vec<Vec<usize>>)
    ensures
        path_views(final(out)@) == path_views(old(out)@) + shown_paths(*node, query@, at@),
    decreases node,
{
    let ghost start = path_views(out@);
    if !node_subtree_matches(node, query) {
        assert(path_views(out@) =~= start + shown_paths(*node, query@, at@));
        return;
    }
    out.push(copy_path(at));
    assert(path_views(out@) =~= start + seq![at@]);
    let mut i: usize = 0;
    while i < node.children.len()
        invariant
            i <= node.children@.len(),
            subtree_matches(*node, query@),
            path_views(out@) + shown_child_paths(*node, query@, at@, i as int) == start + shown_paths(
                *node,
                query@,
                at@,
            ),
        decreases node.children@.len() - i,
    {
        proof {
            assert(decreases_to!(*node => node.children@[i as int]));
        }
        let mut sub = copy_path(at);
        sub.push(i);
        let ghost before = path_views(out@);
        push_shown(&node.children[i], query, &sub, out);
        proof {
            let here = shown_paths(node.children@[i as int], query@, at@.push(i));
            assert(sub@ == at@.push(i));
            vstd::seq_lib::lemma_concat_associative(
                before,
                here,
                shown_child_paths(*node, query@, at@, i + 1),
            );
        }
        i += 1;
    }
    assert(path_views(out@) + shown_child_paths(*node, query@, at@, i as int) =~= path_views(out@));
}

/// The nodes a search for `query` (a non-empty one; matched without regard
/// to case) shows, as their positions below the root (child indices), in
/// the tree's order (see `shown_paths`); the tree shows them all opened.
pub fn search_tree_paths(root: &TreeNode, query: &str) -> (r: Vec<Vec<usize>>)
    ensures
        path_views(r@) == shown_paths(*root, str_to_lowercase(query@), Seq::empty()),
{
    let lower = to_lowercase(query);
    let q = chars_of(lower.as_str());
    let mut out: Vec<Vec<usize>> = Vec::new();
    let at: Vec<usize> = Vec::new();
    push_shown(root, &q, &at, &mut out);
    assert(path_views(out@) =~= path_views(Seq::<Vec<usize>>::empty()) + shown_paths(*root, q@, at@));
    out
}

/// Height of the tree panel's header row.
pub const HEADER_HEIGHT: i32 = 32;
/// Height of the search field.
pub const SEARCH_HEIGHT: i32 = 24;
/// Height of the tree when the panel sits below the editor.
pub const DEFAULT_HEIGHT: i32 = 200;
/// Width of the panel when it sits beside the editor.
pub const DEFAULT_WIDTH: i32 = 250;

/// The panel's height below the editor: header, search field and tree when
/// shown, nothing when hidden.
pub fn panel_height(visible: bool) -> (r: i32)
    ensures
        r == (if visible {
            HEADER_HEIGHT + SEARCH_HEIGHT + DEFAULT_HEIGHT
        } else {
            0
        }),
{
    if visible {
        HEADER_HEIGHT + SEARCH_HEIGHT + DEFAULT_HEIGHT
    } else {
        0
    }
}

/// The panel's width beside the editor: its default width when shown,
/// nothing when hidden.
pub fn panel_width(visible: bool) -> (r: i32)
    ensures
        r == (if visible {
            DEFAULT_WIDTH
        } else {
            0
        }),
{
    if visible {
        DEFAULT_WIDTH
    } else {
        0
    }
}


/// The labels that make up a node's path, from the node up to the tree's
/// root: each label there is, without its icon, unless it is the
/// toolkit's `ROOT`.
pub open spec fn kept_labels(labels: Seq<Option<Seq<char>>>) -> Seq<Seq<char>>
    decreases labels.len(),
{
    if labels.len() == 0 {
        Seq::empty()
    } else {
        let rest = kept_labels(labels.drop_last());
        match labels.last() {
            Some(l) => if strip_icon_spec(l) != "ROOT"@ {
                rest.push(strip_icon_spec(l))
            } else {
                rest
            },
            None => rest,
        }
    }
}

/// The path of a node as the plugins see it, from the root down: the kept
/// labels in reverse order, the first (the project root) left out; empty
/// for the project root itself.
pub open spec fn node_path_spec(labels: Seq<Option<Seq<char>>>) -> Seq<Seq<char>> {
    let k = kept_labels(labels);
    Seq::new(
        if k.len() == 0 {
            0
        } else {
            (k.len() - 1) as nat
        },
        |i: int| k[k.len() - 2 - i],
    )
}

/// The labels as plain values.
pub open spec fn label_views(labels: Seq<Option<String>>) -> Seq<Option<Seq<char>>> {
    Seq::new(labels.len(), |i: int| match labels[i] {
        Some(l) => Some(l@),
        None => None,
    })
}

/// The path of a node (see `node_path_spec`), given the labels from the
/// node up to the tree's root.
pub fn node_path(labels_upward: &[Option<String>]) -> (r: Vec<String>)
    ensures
        r@.len() == node_path_spec(label_views(labels_upward@)).len(),
        forall|i: int|
            0 <= i < r@.len() ==> (#[trigger] r@[i])@ == node_path_spec(label_views(labels_upward@))[i],
{
    let ghost lv = label_views(labels_upward@);
    let mut kept: Vec<String> = Vec::new();
    let mut j: usize = 0;
    while j < labels_upward.len()
        invariant
            j <= labels_upward@.len(),
            lv == label_views(labels_upward@),
            kept@.len() == kept_labels(lv.take(j as int)).len(),
            forall|m: int| 0 <= m < kept@.len() ==> (#[trigger] kept@[m])@ == kept_labels(lv.take(j as int))[m],
        decreases labels_upward@.len() - j,
    {
        proof {
            assert(lv.take(j + 1).drop_last() =~= lv.take(j as int));
            assert(lv.take(j + 1).last() == lv[j as int]);
        }
        match &labels_upward[j] {
            Some(l) => {
                let clean = strip_icon(l.as_str());
                if !same_text(clean.as_str(), "ROOT") {
                    kept.push(clean);
                }
            },
            None => {},
        }
        j += 1;
    }
    assert(lv.take(j as int) =~= lv);
    let ghost k = kept_labels(lv);
    let mut r: Vec<String> = Vec::new();
    let n = kept.len();
    if n > 0 {
        let mut i: usize = 0;
        while i < n - 1
            invariant
                n == kept@.len() == k.len(),
                n > 0,
                i <= n - 1,
                forall|m: int| 0 <= m < kept@.len() ==> (#[trigger] kept@[m])@ == k[m],
                r@.len() == i,
                forall|m: int| 0 <= m < i ==> (#[trigger] r@[m])@ == k[k.len() - 2 - m],
            decreases n - 1 - i,
        {
            let s = string_of(kept[n - 2 - i].as_str());
            r.push(s);
            i += 1;
        }
    }
    r
}

/// Whether a node is a folder: its label starts with the folder icon, or
/// it has children.
pub fn is_folder_item(label: Option<&str>, children: usize) -> (r: bool)
    ensures
        r == ((label matches Some(l) && l@.len() > 0 && l@[0] == '\u{1F4C1}') || children > 0),
{
    let icon = match label {
        Some(l) => {
            let v = chars_of(l);
            v.len() > 0 && v[0] == '\u{1F4C1}'
        },
        None => false,
    };
    icon || children > 0
}

} // verus!
