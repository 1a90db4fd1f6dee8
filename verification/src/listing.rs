//! Directory trees: how they are shown, walked and searched for names.
use crate::executor::{self, ToolExecutor, Tools, TruncationProfile};
use crate::paths;
use crate::sorting;
use crate::text;
use vstd::prelude::*;

verus! {

/// An entry of a directory tree. A link counts as a file or a directory where
/// it leads to one; what is no link is a file or a directory itself.
#[derive(Debug)]
pub struct DirNode {
    pub name: String,
    pub is_file: bool,
    pub is_dir: bool,
    pub is_file_itself: bool,
    pub is_dir_itself: bool,
    pub entries: Vec<DirNode>,
}

/// How deep the tree below an entry is.
pub open spec fn node_height(node: DirNode) -> nat
    decreases node, 0int,
{
    1 + forest_height(node.entries@, node.entries@.len() as int)
}

/// How deep the deepest of the first `n` trees is.
pub open spec fn forest_height(nodes: Seq<DirNode>, n: int) -> nat
    decreases nodes, n,
{
    if n <= 0 || n > nodes.len() {
        0
    } else {
        let rest = forest_height(nodes, n - 1);
        let last = node_height(nodes[n - 1]);
        if rest < last {
            last
        } else {
            rest
        }
    }
}

/// How deep the deepest of the trees is.
pub open spec fn height(nodes: Seq<DirNode>) -> nat {
    forest_height(nodes, nodes.len() as int)
}

/// The order in which the entries of a directory are shown: directories first,
/// then by name, without regard to case.
pub open spec fn shown_before(a: DirNode, b: DirNode) -> bool {
    if a.is_dir != b.is_dir {
        a.is_dir
    } else {
        text::less(text::lowercase(a.name@), text::lowercase(b.name@))
    }
}

/// The order in which the entries of a directory are shown.
pub open spec fn display_order() -> spec_fn(DirNode, DirNode) -> bool {
    |a: DirNode, b: DirNode| shown_before(a, b)
}

/// Whether the first entry is shown before the second.
fn by_display_order(a: &DirNode, b: &DirNode) -> (r: bool)
    ensures
        r == shown_before(*a, *b),
{
    if a.is_dir != b.is_dir {
        a.is_dir
    } else {
        let left = text::to_lowercase(&a.name);
        let right = text::to_lowercase(&b.name);
        text::comes_before(&left, &right)
    }
}

/// The order in which entries are shown is one: no entry is shown before
/// another that is shown before it, and of three entries the second comes before
/// or after one of the others where the first comes before the third.
pub proof fn law_display_order_is_an_order(a: DirNode, b: DirNode, c: DirNode)
    ensures
        shown_before(a, b) ==> !shown_before(b, a),
        shown_before(a, c) ==> shown_before(a, b) || shown_before(b, c),
{
    let x = text::lowercase(a.name@);
    let y = text::lowercase(b.name@);
    let z = text::lowercase(c.name@);
    if text::less(x, y) {
        text::lemma_less_asymmetric(x, y);
    }
    text::lemma_less_total(x, y);
    if text::less(x, z) && text::less(y, x) {
        text::lemma_less_transitive(y, x, z);
    }
}

/// The entries of a directory are shown with the directories first, each kind by name.
pub proof fn law_entries_are_shown_in_order(nodes: Seq<DirNode>)
    ensures
        sorting::in_order(sorting::sorted_by(nodes, display_order()), display_order()),
        sorting::sorted_by(nodes, display_order()).to_multiset() == nodes.to_multiset(),
{
    let less = display_order();
    assert forall|a: DirNode, b: DirNode| #[trigger] less(a, b) implies !less(b, a) by {
        law_display_order_is_an_order(a, b, a);
    }
    assert forall|a: DirNode, b: DirNode, c: DirNode| #[trigger] less(a, c) implies (
    #[trigger] less(a, b) || less(b, c)) by {
        law_display_order_is_an_order(a, b, c);
    }
    sorting::law_sorting_orders_items(nodes, less);
    sorting::law_sorting_keeps_items(nodes, less);
}

/// Those of the entries of `dir` that the tools may show.
pub open spec fn visible_nodes(tools: Tools, dir: Seq<char>, nodes: Seq<DirNode>) -> Seq<DirNode>
    decreases nodes.len(),
{
    if nodes.len() == 0 {
        seq![]
    } else {
        let node = nodes.last();
        let before = visible_nodes(tools, dir, nodes.drop_last());
        if paths::is_plain_name(node.name@) && executor::path_shown(
            tools,
            paths::below(dir, node.name@),
            node.is_dir,
        ) {
            before.push(node)
        } else {
            before
        }
    }
}

/// The entries of `dir` as they are shown.
pub open spec fn shown_nodes(tools: Tools, dir: Seq<char>, nodes: Seq<DirNode>) -> Seq<DirNode> {
    visible_nodes(tools, dir, sorting::sorted_by(nodes, display_order()))
}

/// A tree is no deeper than the deepest of the trees that it stands among.
pub proof fn lemma_node_height(nodes: Seq<DirNode>, n: int, i: int)
    requires
        0 <= i < n <= nodes.len(),
    ensures
        node_height(nodes[i]) <= forest_height(nodes, n),
    decreases n,
{
    if i < n - 1 {
        lemma_node_height(nodes, n - 1, i);
    }
}

/// Trees that are no deeper than `h` are together no deeper.
pub proof fn lemma_height_bound(nodes: Seq<DirNode>, n: int, h: nat)
    requires
        n <= nodes.len(),
        forall|i: int| 0 <= i < n ==> node_height(#[trigger] nodes[i]) <= h,
    ensures
        forest_height(nodes, n) <= h,
    decreases n,
{
    if n > 0 {
        lemma_height_bound(nodes, n - 1, h);
        assert(node_height(nodes[n - 1]) <= h);
    }
}

/// The entries that may be shown are among the entries.
proof fn lemma_visible_elements(tools: Tools, dir: Seq<char>, nodes: Seq<DirNode>)
    ensures
        forall|i: int|
            0 <= i < visible_nodes(tools, dir, nodes).len() ==> nodes.contains(
                #[trigger] visible_nodes(tools, dir, nodes)[i],
            ) && paths::is_plain_name(visible_nodes(tools, dir, nodes)[i].name@),
    decreases nodes.len(),
{
    if nodes.len() > 0 {
        let rest = nodes.drop_last();
        lemma_visible_elements(tools, dir, rest);
        let front = visible_nodes(tools, dir, rest);
        let all = visible_nodes(tools, dir, nodes);
        assert forall|i: int| 0 <= i < all.len() implies nodes.contains(#[trigger] all[i])
            && paths::is_plain_name(all[i].name@) by {
            if i < front.len() {
                assert(all[i] == front[i]);
                let k = choose|k: int| 0 <= k < rest.len() && rest[k] == front[i];
                assert(nodes[k] == all[i]);
            } else {
                assert(nodes[nodes.len() - 1] == all[i]);
            }
        }
    }
}

/// Of the entries of a directory exactly those are shown that the tools may show.
pub proof fn law_shown_entries_are_visible(
    tools: Tools,
    dir: Seq<char>,
    nodes: Seq<DirNode>,
    node: DirNode,
)
    ensures
        visible_nodes(tools, dir, nodes).contains(node) <==> nodes.contains(node)
            && paths::is_plain_name(node.name@) && executor::path_shown(
            tools,
            paths::below(dir, node.name@),
            node.is_dir,
        ),
    decreases nodes.len(),
{
    if nodes.len() > 0 {
        let rest = nodes.drop_last();
        let last = nodes.last();
        law_shown_entries_are_visible(tools, dir, rest, node);
        assert(nodes =~= rest.push(last));
        assert(nodes.contains(node) <==> rest.contains(node) || node == last) by {
            lemma_push_contains(rest, last, node);
        }
        lemma_push_contains(visible_nodes(tools, dir, rest), last, node);
    }
}

/// A longer list holds what the shorter one held, and the new entry.
proof fn lemma_push_contains(nodes: Seq<DirNode>, last: DirNode, node: DirNode)
    ensures
        nodes.push(last).contains(node) <==> nodes.contains(node) || node == last,
{
    let all = nodes.push(last);
    assert(all[nodes.len() as int] == last);
    if nodes.contains(node) {
        let k = choose|k: int| 0 <= k < nodes.len() && nodes[k] == node;
        assert(all[k] == node);
    }
    if all.contains(node) {
        let k = choose|k: int| 0 <= k < all.len() && all[k] == node;
        if k < nodes.len() {
            assert(nodes[k] == node);
        }
    }
}

/// What is shown of a directory is no deeper than the directory.
pub proof fn lemma_shown_height(tools: Tools, dir: Seq<char>, nodes: Seq<DirNode>)
    ensures
        height(shown_nodes(tools, dir, nodes)) <= height(nodes),
        forall|i: int|
            0 <= i < shown_nodes(tools, dir, nodes).len() ==> paths::is_plain_name(
                (#[trigger] shown_nodes(tools, dir, nodes)[i]).name@,
            ),
{
    let sorted = sorting::sorted_by(nodes, display_order());
    let all = shown_nodes(tools, dir, nodes);
    sorting::lemma_sorted_elements(nodes, display_order());
    lemma_visible_elements(tools, dir, sorted);
    assert forall|i: int| 0 <= i < all.len() implies node_height(#[trigger] all[i]) <= height(
        nodes,
    ) by {
        assert(sorted.contains(all[i]));
        let k = choose|k: int| 0 <= k < sorted.len() && sorted[k] == all[i];
        assert(nodes.contains(sorted[k]));
        let j = choose|j: int| 0 <= j < nodes.len() && nodes[j] == sorted[k];
        lemma_node_height(nodes, nodes.len() as int, j);
    }
    lemma_height_bound(all, all.len() as int, height(nodes));
}

/// What a directory without its first entry holds is no deeper than the directory.
pub proof fn lemma_rest_height(items: Seq<DirNode>)
    requires
        items.len() > 0,
    ensures
        height(items.skip(1)) <= height(items),
        height(items[0].entries@) < height(items),
{
    let rest = items.skip(1);
    assert forall|i: int| 0 <= i < rest.len() implies node_height(#[trigger] rest[i]) <= height(
        items,
    ) by {
        assert(rest[i] == items[i + 1]);
        lemma_node_height(items, items.len() as int, i + 1);
    }
    lemma_height_bound(rest, rest.len() as int, height(items));
    lemma_node_height(items, items.len() as int, 0);
}

/// Each of the lines behind `indent`.
pub open spec fn indented(lines: Seq<Seq<char>>, indent: Seq<char>) -> Seq<Seq<char>> {
    Seq::new(lines.len(), |i: int| indent + lines[i])
}

/// The number of levels below the first.
pub open spec fn next_levels(levels: Option<usize>) -> Option<usize> {
    match levels {
        Some(n) if n > 0 => Some((n - 1) as usize),
        Some(_) => Some(0),
        None => None,
    }
}

/// The lines for the entries `items` of `dir`, which are in order: each entry
/// behind a branch, and below a directory the lines for what it holds, as far as
/// `levels` reach.
pub open spec fn branch_lines(
    tools: Tools,
    dir: Seq<char>,
    items: Seq<DirNode>,
    levels: Option<usize>,
) -> Seq<Seq<char>>
    decreases height(items), items.len(),
{
    if items.len() == 0 || levels == Some(0usize) {
        seq![]
    } else {
        let node = items[0];
        let last = items.len() == 1;
        let path = paths::below(dir, node.name@);
        proof {
            lemma_rest_height(items);
            lemma_shown_height(tools, path, node.entries@);
        }
        let inner = if node.is_dir {
            branch_lines(
                tools,
                path,
                shown_nodes(tools, path, node.entries@),
                next_levels(levels),
            )
        } else {
            seq![]
        };
        seq![
            (if last {
                "└── "@
            } else {
                "├── "@
            }) + node.name@,
        ] + indented(
            inner,
            if last {
                "    "@
            } else {
                "│   "@
            },
        ) + branch_lines(tools, dir, items.skip(1), levels)
    }
}

/// The lines for what a directory holds.
pub open spec fn tree_lines(
    tools: Tools,
    dir: Seq<char>,
    nodes: Seq<DirNode>,
    levels: Option<usize>,
) -> Seq<Seq<char>> {
    branch_lines(tools, dir, shown_nodes(tools, dir, nodes), levels)
}

/// What is there of a directory whose tree is to be shown.
#[derive(Debug)]
pub enum TreeRead {
    NotADir,
    Entries(Vec<DirNode>),
}

/// What `tree` shows of a directory.
pub open spec fn tree_output(
    tools: Tools,
    path: Seq<char>,
    levels: Option<usize>,
    found: TreeRead,
) -> Seq<char> {
    if path.len() == 0 {
        "Error: missing or invalid path"@
    } else {
        match found {
            TreeRead::NotADir => "Error: dir not found: "@ + path,
            TreeRead::Entries(nodes) => executor::shown(
                tools,
                executor::remapped(
                    tools.root,
                    text::joined(
                        seq![path] + tree_lines(
                            tools,
                            executor::real_path(tools.windows, tools.root, path),
                            nodes@,
                            levels,
                        ),
                        "\n"@,
                    ),
                ),
                TruncationProfile::General,
            ),
        }
    }
}

impl ToolExecutor {
    /// The entries of `dir` as they are shown.
    pub(crate) fn select_nodes(&self, dir: &str, nodes: Vec<DirNode>) -> (r: Vec<DirNode>)
        requires
            self.well_formed(),
            executor::is_project_path(self@.root, dir@),
        ensures
            r@ == shown_nodes(self@, dir@, nodes@),
    {
        let sorted = sorting::sort_by(nodes, by_display_order, Ghost(display_order()));
        let ghost all = sorted@;
        let mut out: Vec<DirNode> = Vec::new();
        assert(all.take(0) =~= seq![]);
        for node in it: sorted
            invariant
                it.seq() == all,
                self.well_formed(),
                executor::is_project_path(self@.root, dir@),
                out@ == visible_nodes(self@, dir@, all.take(it.index())),
        {
            proof {
                let k = it.index();
                assert(all.take(k + 1).drop_last() =~= all.take(k));
                assert(all.take(k + 1).last() == all[k]);
                assert(node == all[k]);
            }
            if self.shows_entry(dir, &node.name, node.is_dir) {
                out.push(node);
            }
        }
        assert(all.take(all.len() as int) =~= all);
        out
    }

    /// The lines for the entries of `dir`, which are in order.
    fn draw_branches(&self, dir: &str, items: Vec<DirNode>, levels: Option<usize>) -> (r: Vec<
        String,
    >)
        requires
            self.well_formed(),
            executor::is_project_path(self@.root, dir@),
            forall|i: int| 0 <= i < items@.len() ==> paths::is_plain_name((#[trigger] items@[i]).name@),
        ensures
            text::views(r@) == branch_lines(self@, dir@, items@, levels),
        decreases height(items@),
    {
        let mut lines: Vec<String> = Vec::new();
        assert(text::views(lines@) =~= seq![]);
        if let Some(0) = levels {
            return lines;
        }
        let deeper: Option<usize> = match levels {
            Some(n) => if n > 0 {
                Some(n - 1)
            } else {
                Some(0)
            },
            None => None,
        };
        let count = items.len();
        let ghost all = items@;
        let mut i: usize = 0;
        assert(all.skip(0) =~= all);
        for node in it: items
            invariant
                it.seq() == all,
                all == items@,
                count == all.len(),
                i == it.index(),
                levels != Some(0usize),
                deeper == next_levels(levels),
                self.well_formed(),
                executor::is_project_path(self@.root, dir@),
                forall|k: int| 0 <= k < all.len() ==> paths::is_plain_name((#[trigger] all[k]).name@),
                text::views(lines@) + branch_lines(self@, dir@, all.skip(i as int), levels)
                    == branch_lines(self@, dir@, all, levels),
        {
            let ghost rest = all.skip(i as int);
            let ghost before = text::views(lines@);
            let ghost path_text = paths::below(dir@, node.name@);
            proof {
                assert(node == all[i as int]);
                assert(rest[0] == node);
                assert(rest.skip(1) =~= all.skip(i + 1));
                lemma_node_height(all, all.len() as int, i as int);
                lemma_shown_height(self@, path_text, node.entries@);
                paths::lemma_below_inside(self@.root, dir@, node.name@);
                paths::lemma_below_tidy(dir@, node.name@);
            }
            let last = i + 1 == count;
            let mut line = text::copied(
                if last {
                    "└── "
                } else {
                    "├── "
                },
            );
            line.append(&node.name);
            let ghost head = line@;
            lines.push(line);
            let ghost mut inner: Seq<Seq<char>> = seq![];
            let indent = if last {
                "    "
            } else {
                "│   "
            };
            if node.is_dir {
                let path = paths::join_path(dir, &node.name);
                let below = self.select_nodes(&path, node.entries);
                let sub_lines = self.draw_branches(&path, below, deeper);
                proof {
                    inner = text::views(sub_lines@);
                }
                append_indented(&mut lines, &sub_lines, indent);
            } else {
                assert(indented(inner, indent@) =~= seq![]);
            }
            proof {
                assert(text::views(lines@) =~= before + (seq![head] + indented(inner, indent@)));
                let tail = branch_lines(self@, dir@, all.skip(i + 1), levels);
                assert(branch_lines(self@, dir@, rest, levels) =~= seq![head] + indented(
                    inner,
                    indent@,
                ) + tail);
                assert(text::views(lines@) + tail =~= before + branch_lines(
                    self@,
                    dir@,
                    rest,
                    levels,
                ));
            }
            i += 1;
        }
        assert(all.skip(i as int) =~= seq![]);
        assert(text::views(lines@) + seq![] =~= text::views(lines@));
        lines
    }

    /// The lines for what a directory of the project holds.
    pub fn generate_tree_lines(&self, dir: &str, nodes: Vec<DirNode>, levels: Option<usize>) -> (r:
        Vec<String>)
        requires
            self.well_formed(),
            executor::is_project_path(self@.root, dir@),
        ensures
            text::views(r@) == tree_lines(self@, dir@, nodes@, levels),
    {
        proof {
            lemma_shown_height(self@, dir@, nodes@);
        }
        let items = self.select_nodes(dir, nodes);
        self.draw_branches(dir, items, levels)
    }

    /// What `tree` shows of a directory, given what is there of it on disk.
    pub fn execute_tree(&self, path: &str, levels: Option<usize>, found: TreeRead) -> (r: String)
        requires
            self.well_formed(),
        ensures
            r@ == tree_output(self@, path@, levels, found),
    {
        if path.is_empty() {
            return text::copied("Error: missing or invalid path");
        }
        match found {
            TreeRead::NotADir => {
                let mut out = text::copied("Error: dir not found: ");
                out.append(path);
                out
            },
            TreeRead::Entries(nodes) => {
                let dir = self.resolve(path);
                let branches = self.generate_tree_lines(&dir, nodes, levels);
                let ghost shown = text::views(branches@);
                let mut lines: Vec<String> = Vec::new();
                lines.push(text::copied(path));
                append_indented(&mut lines, &branches, "");
                proof {
                    reveal_strlit("");
                    assert(""@ =~= seq![]);
                    assert forall|i: int| 0 <= i < shown.len() implies #[trigger] indented(
                        shown,
                        ""@,
                    )[i] == shown[i] by {
                        assert(""@ + shown[i] =~= shown[i]);
                    }
                    assert(indented(shown, ""@) =~= shown);
                    assert(text::views(lines@) =~= seq![path@] + shown);
                }
                let stdout = text::join(&lines, "\n");
                let mapped = self.remap(&stdout);
                self.truncate_text(&mapped, TruncationProfile::General)
            },
        }
    }
}

/// Adds each of `more` behind `indent` to `lines`.
fn append_indented(lines: &mut Vec<String>, more: &Vec<String>, indent: &str)
    ensures
        text::views(final(lines)@) == text::views(old(lines)@) + indented(
            text::views(more@),
            indent@,
        ),
{
    let ghost before = text::views(lines@);
    let ghost all = indented(text::views(more@), indent@);
    let mut i: usize = 0;
    assert(text::views(lines@) =~= before + all.take(0));
    while i < more.len()
        invariant
            i <= more@.len(),
            all == indented(text::views(more@), indent@),
            text::views(lines@) == before + all.take(i as int),
        decreases more@.len() - i,
    {
        let ghost so_far = text::views(lines@);
        let mut line = text::copied(indent);
        line.append(&more[i]);
        lines.push(line);
        assert(text::views(lines@) =~= so_far.push(line@));
        assert(all[i as int] == line@);
        i += 1;
        assert(text::views(lines@) =~= before + all.take(i as int));
    }
    assert(all.take(i as int) =~= all);
}

/// The entries of a directory that are shown are all that may be shown, directories first
/// and by their names.
pub proof fn law_shown_entries_are_all_visible_ones(
    tools: Tools,
    dir: Seq<char>,
    nodes: Seq<DirNode>,
)
    ensures
        shown_nodes(tools, dir, nodes) == sorting::sorted_by(
            nodes,
            |a: DirNode, b: DirNode|
                a.is_dir && !b.is_dir || a.is_dir == b.is_dir && text::less(
                    text::lowercase(a.name@),
                    text::lowercase(b.name@),
                ),
        ).filter(
            |node: DirNode|
                paths::is_plain_name(node.name@) && executor::path_shown(
                    tools,
                    paths::below(dir, node.name@),
                    node.is_dir,
                ),
        ),
{
    let order = |a: DirNode, b: DirNode|
        a.is_dir && !b.is_dir || a.is_dir == b.is_dir && text::less(
            text::lowercase(a.name@),
            text::lowercase(b.name@),
        );
    assert(order =~= display_order());
    lemma_visible_filter(tools, dir, sorting::sorted_by(nodes, order));
}

/// What may be shown stays in its order.
proof fn lemma_visible_filter(tools: Tools, dir: Seq<char>, nodes: Seq<DirNode>)
    ensures
        visible_nodes(tools, dir, nodes) == nodes.filter(
            |node: DirNode|
                paths::is_plain_name(node.name@) && executor::path_shown(
                    tools,
                    paths::below(dir, node.name@),
                    node.is_dir,
                ),
        ),
    decreases nodes.len(),
{
    reveal(Seq::filter);
    if nodes.len() > 0 {
        lemma_visible_filter(tools, dir, nodes.drop_last());
    }
}

/// A tree is drawn entry by entry: first the name of the entry, behind a corner where it is
/// the last one and a branch where it is not; then, further in, what lies below it where it
/// is a directory and there are levels left; then the other entries.
pub proof fn law_tree_shows_every_entry(
    tools: Tools,
    dir: Seq<char>,
    items: Seq<DirNode>,
    levels: Option<usize>,
)
    requires
        items.len() > 0,
        levels != Some(0usize),
    ensures
        ({
            let node = items[0];
            let path = paths::below(dir, node.name@);
            let last = items.len() == 1;
            let inner = branch_lines(
                tools,
                path,
                shown_nodes(tools, path, node.entries@),
                match levels {
                    Some(n) => Some((n - 1) as usize),
                    None => None,
                },
            );
            let lines = branch_lines(tools, dir, items, levels);
            let rest = branch_lines(tools, dir, items.skip(1), levels);
            let indent = if last {
                "    "@
            } else {
                "│   "@
            };
            let below = if node.is_dir {
                inner.map_values(|line: Seq<char>| indent + line)
            } else {
                seq![]
            };
            &&& lines.len() == 1 + below.len() + rest.len()
            &&& lines[0] == (if last {
                "└── "@
            } else {
                "├── "@
            }) + node.name@
            &&& lines.skip(1) == below + rest
        }),
{
    let node = items[0];
    let path = paths::below(dir, node.name@);
    let inner = branch_lines(tools, path, shown_nodes(tools, path, node.entries@), next_levels(levels));
    let indent = if items.len() == 1 {
        "    "@
    } else {
        "│   "@
    };
    assert(inner.map_values(|line: Seq<char>| indent + line) =~= indented(inner, indent));
}

/// Nothing is drawn on no level, nor of no entries.
pub proof fn law_tree_ends(tools: Tools, dir: Seq<char>, items: Seq<DirNode>, levels: Option<usize>)
    ensures
        branch_lines(tools, dir, items, Some(0)).len() == 0,
        branch_lines(tools, dir, seq![], levels).len() == 0,
{
}

/// A limit on the levels that lies below everything changes nothing.
pub proof fn law_tree_without_limit_shows_all_levels(
    tools: Tools,
    dir: Seq<char>,
    items: Seq<DirNode>,
    levels: usize,
)
    requires
        height(items) <= levels,
    ensures
        branch_lines(tools, dir, items, Some(levels)) == branch_lines(tools, dir, items, None),
    decreases height(items), items.len(),
{
    if items.len() > 0 {
        let node = items[0];
        let path = paths::below(dir, node.name@);
        lemma_rest_height(items);
        lemma_shown_height(tools, path, node.entries@);
        law_tree_without_limit_shows_all_levels(tools, dir, items.skip(1), levels);
        if node.is_dir {
            law_tree_without_limit_shows_all_levels(
                tools,
                path,
                shown_nodes(tools, path, node.entries@),
                (levels - 1) as usize,
            );
        }
    }
}

/// The tree tool shows the path that was asked for and then the tree below it, with the
/// root of the project as `/codebase`.
pub proof fn law_tree_tool_shows_the_tree(
    tools: Tools,
    path: Seq<char>,
    levels: Option<usize>,
    nodes: Vec<DirNode>,
)
    requires
        path.len() > 0,
    ensures
        ({
            let dir = executor::real_path(tools.windows, tools.root, path);
            let lines = branch_lines(tools, dir, shown_nodes(tools, dir, nodes@), levels);
            tree_output(tools, path, levels, TreeRead::Entries(nodes)) == executor::truncated(
                text::replaced(
                    text::joined(seq![path] + lines, seq!['\n']),
                    tools.root,
                    "/codebase"@,
                ),
                tools.limits.result_max_lines as nat,
                tools.limits.line_max_chars as nat,
            )
        }),
        tree_output(tools, path, levels, TreeRead::NotADir) == "Error: dir not found: "@ + path,
{
    reveal_strlit("\n");
    assert("\n"@ =~= seq!['\n']);
}

} // verus!
