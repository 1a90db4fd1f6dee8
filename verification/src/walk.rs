//! Walks through directory trees: which files a search looks at, and which a
//! glob finds.
use crate::executor::{self, ToolExecutor, Tools, TruncationProfile};
use crate::listing::{self, DirNode};
use crate::paths::{self, Part, PathPart};
use crate::patterns;
use crate::sorting;
use crate::text;
use vstd::prelude::*;

verus! {

/// What a walk comes by.
#[derive(Debug, Clone)]
pub struct WalkItem {
    pub path: String,
    pub is_file: bool,
    pub is_dir: bool,
    pub is_file_itself: bool,
}

/// What is known of what a walk comes by.
#[verifier::ext_equal]
pub struct Item {
    pub path: Seq<char>,
    pub is_file: bool,
    pub is_dir: bool,
    pub is_file_itself: bool,
}

impl View for WalkItem {
    type V = Item;

    open spec fn view(&self) -> Item {
        Item {
            path: self.path@,
            is_file: self.is_file,
            is_dir: self.is_dir,
            is_file_itself: self.is_file_itself,
        }
    }
}

/// What is known of what a walk comes by.
pub open spec fn items_view(items: Seq<WalkItem>) -> Seq<Item> {
    Seq::new(items.len(), |i: int| items[i]@)
}

/// What a walk through the entries `nodes` of `dir` comes by. It passes over
/// what the tools may not show, with all that is below, and follows no links.
pub open spec fn walk_items(tools: Tools, dir: Seq<char>, nodes: Seq<DirNode>) -> Seq<Item>
    decreases listing::height(nodes), nodes.len(),
{
    if nodes.len() == 0 {
        seq![]
    } else {
        let node = nodes[0];
        let path = paths::below(dir, node.name@);
        proof {
            listing::lemma_rest_height(nodes);
        }
        let rest = walk_items(tools, dir, nodes.skip(1));
        if paths::is_plain_name(node.name@) && executor::path_shown(
            tools,
            path,
            node.is_dir_itself,
        ) {
            seq![
                Item {
                    path,
                    is_file: node.is_file,
                    is_dir: node.is_dir,
                    is_file_itself: node.is_file_itself,
                },
            ] + (if node.is_dir_itself {
                walk_items(tools, path, node.entries@)
            } else {
                seq![]
            }) + rest
        } else {
            rest
        }
    }
}

/// A walk stays below the directory that it starts in.
pub proof fn law_walk_stays_inside(
    tools: Tools,
    base: Seq<char>,
    dir: Seq<char>,
    nodes: Seq<DirNode>,
)
    requires
        paths::is_inside(base, dir),
    ensures
        forall|i: int|
            0 <= i < walk_items(tools, dir, nodes).len() ==> paths::is_inside(
                base,
                (#[trigger] walk_items(tools, dir, nodes)[i]).path,
            ),
    decreases listing::height(nodes), nodes.len(),
{
    if nodes.len() > 0 {
        let node = nodes[0];
        let path = paths::below(dir, node.name@);
        listing::lemma_rest_height(nodes);
        law_walk_stays_inside(tools, base, dir, nodes.skip(1));
        let all = walk_items(tools, dir, nodes);
        let rest = walk_items(tools, dir, nodes.skip(1));
        if paths::is_plain_name(node.name@) && executor::path_shown(
            tools,
            path,
            node.is_dir_itself,
        ) {
            paths::lemma_below_inside(base, dir, node.name@);
            let inner = if node.is_dir_itself {
                law_walk_stays_inside(tools, base, path, node.entries@);
                walk_items(tools, path, node.entries@)
            } else {
                seq![]
            };
            assert forall|i: int| 0 <= i < all.len() implies paths::is_inside(
                base,
                (#[trigger] all[i]).path,
            ) by {
                if i == 0 {
                } else if i <= inner.len() {
                    assert(all[i] == inner[i - 1]);
                } else {
                    assert(all[i] == rest[i - 1 - inner.len()]);
                }
            }
        }
    }
}

/// A walk that starts in a tidy directory comes by tidy paths.
proof fn lemma_walk_tidy(tools: Tools, dir: Seq<char>, nodes: Seq<DirNode>)
    requires
        paths::is_tidy(dir),
    ensures
        forall|i: int|
            0 <= i < walk_items(tools, dir, nodes).len() ==> paths::is_tidy(
                (#[trigger] walk_items(tools, dir, nodes)[i]).path,
            ),
    decreases listing::height(nodes), nodes.len(),
{
    if nodes.len() > 0 {
        let node = nodes[0];
        let path = paths::below(dir, node.name@);
        listing::lemma_rest_height(nodes);
        lemma_walk_tidy(tools, dir, nodes.skip(1));
        let all = walk_items(tools, dir, nodes);
        let rest = walk_items(tools, dir, nodes.skip(1));
        if paths::is_plain_name(node.name@) && executor::path_shown(
            tools,
            path,
            node.is_dir_itself,
        ) {
            paths::lemma_below_tidy(dir, node.name@);
            let inner = if node.is_dir_itself {
                lemma_walk_tidy(tools, path, node.entries@);
                walk_items(tools, path, node.entries@)
            } else {
                seq![]
            };
            assert forall|i: int| 0 <= i < all.len() implies paths::is_tidy(
                (#[trigger] all[i]).path,
            ) by {
                if i == 0 {
                } else if i <= inner.len() {
                    assert(all[i] == inner[i - 1]);
                } else {
                    assert(all[i] == rest[i - 1 - inner.len()]);
                }
            }
        }
    }
}

/// Whether the tools may show a path as that of a file or as that of a directory.
pub open spec fn may_be_shown(tools: Tools, path: Seq<char>) -> bool {
    executor::path_shown(tools, path, true) || executor::path_shown(tools, path, false)
}

/// A walk comes by nothing that the tools may not show.
pub proof fn law_walk_shows_visible_paths(tools: Tools, dir: Seq<char>, nodes: Seq<DirNode>)
    ensures
        forall|i: int|
            0 <= i < walk_items(tools, dir, nodes).len() ==> may_be_shown(
                tools,
                (#[trigger] walk_items(tools, dir, nodes)[i]).path,
            ),
    decreases listing::height(nodes), nodes.len(),
{
    if nodes.len() > 0 {
        let node = nodes[0];
        let path = paths::below(dir, node.name@);
        listing::lemma_rest_height(nodes);
        law_walk_shows_visible_paths(tools, dir, nodes.skip(1));
        let all = walk_items(tools, dir, nodes);
        let rest = walk_items(tools, dir, nodes.skip(1));
        if paths::is_plain_name(node.name@) && executor::path_shown(
            tools,
            path,
            node.is_dir_itself,
        ) {
            let inner = if node.is_dir_itself {
                law_walk_shows_visible_paths(tools, path, node.entries@);
                walk_items(tools, path, node.entries@)
            } else {
                seq![]
            };
            assert forall|i: int| 0 <= i < all.len() implies may_be_shown(
                tools,
                (#[trigger] all[i]).path,
            ) by {
                if i == 0 {
                } else if i <= inner.len() {
                    assert(all[i] == inner[i - 1]);
                } else {
                    assert(all[i] == rest[i - 1 - inner.len()]);
                }
            }
        }
    }
}

/// Where a part stands among parts of other kinds.
pub open spec fn part_rank(part: Part) -> int {
    match part {
        Part::Root => 0,
        Part::Cur => 1,
        Part::Parent => 2,
        Part::Name(_) => 3,
    }
}

/// Whether the first part comes before the second.
pub open spec fn part_before(a: Part, b: Part) -> bool {
    match (a, b) {
        (Part::Name(x), Part::Name(y)) => text::less(x, y),
        _ => part_rank(a) < part_rank(b),
    }
}

/// Whether the first list of parts comes before the second, part by part.
pub open spec fn parts_before(a: Seq<Part>, b: Seq<Part>) -> bool
    decreases a.len(),
{
    if b.len() == 0 {
        false
    } else if a.len() == 0 {
        true
    } else if a[0] != b[0] {
        part_before(a[0], b[0])
    } else {
        parts_before(a.skip(1), b.skip(1))
    }
}

/// Whether the first path comes before the second.
pub open spec fn path_before(a: Seq<char>, b: Seq<char>) -> bool {
    parts_before(paths::parts(a), paths::parts(b))
}

/// The order of paths.
pub open spec fn path_order() -> spec_fn(String, String) -> bool {
    |a: String, b: String| path_before(a@, b@)
}

/// Where a part stands among parts of other kinds.
fn rank(part: &PathPart) -> (r: u8)
    ensures
        r == part_rank(part@),
{
    match part {
        PathPart::Root => 0,
        PathPart::Cur => 1,
        PathPart::Parent => 2,
        PathPart::Name(_) => 3,
    }
}

/// Whether the first path comes before the second.
fn by_path(a: &String, b: &String) -> (r: bool)
    ensures
        r == path_before(a@, b@),
{
    let left = paths::split_path(a);
    let right = paths::split_path(b);
    let ghost x = paths::parts(a@);
    let ghost y = paths::parts(b@);
    let mut i: usize = 0;
    assert(x.skip(0) =~= x);
    assert(y.skip(0) =~= y);
    while i < left.len() && i < right.len()
        invariant
            x == paths::parts(a@),
            y == paths::parts(b@),
            paths::parts_view(left@) == x,
            paths::parts_view(right@) == y,
            i <= left@.len(),
            i <= right@.len(),
            parts_before(x.skip(i as int), y.skip(i as int)) == parts_before(x, y),
        decreases left@.len() - i,
    {
        assert(x[i as int] == left@[i as int]@);
        assert(y[i as int] == right@[i as int]@);
        assert(x.skip(i as int)[0] == x[i as int]);
        assert(y.skip(i as int)[0] == y[i as int]);
        match (&left[i], &right[i]) {
            (PathPart::Name(m), PathPart::Name(n)) => {
                if !text::same(m, n) {
                    return text::comes_before(m, n);
                }
            },
            _ => {
                let p = rank(&left[i]);
                let q = rank(&right[i]);
                if p != q {
                    return p < q;
                }
            },
        }
        assert(x.skip(i as int).skip(1) =~= x.skip(i + 1));
        assert(y.skip(i as int).skip(1) =~= y.skip(i + 1));
        i += 1;
    }
    i < right.len()
}

/// The paths in order.
fn sort_paths(list: Vec<String>) -> (r: Vec<String>)
    ensures
        r@ == sorting::sorted_by(list@, path_order()),
{
    sorting::sort_by(list, by_path, Ghost(path_order()))
}

/// Whether the first of two texts comes first in the order of `seq` views.
pub open spec fn view_order() -> spec_fn(Seq<char>, Seq<char>) -> bool {
    |a: Seq<char>, b: Seq<char>| path_before(a, b)
}

/// Placing a string places its text.
proof fn lemma_placed_views(list: Seq<String>, item: String)
    ensures
        text::views(sorting::placed(list, item, path_order())) == sorting::placed(
            text::views(list),
            item@,
            view_order(),
        ),
    decreases list.len(),
{
    let less = path_order();
    let shown = text::views(list);
    if list.len() > 0 && less(item, list.last()) {
        lemma_placed_views(list.drop_last(), item);
        assert(text::views(list.drop_last()) =~= shown.drop_last());
        assert(shown.last() == list.last()@);
        assert(text::views(sorting::placed(list, item, less)) =~= sorting::placed(
            shown,
            item@,
            view_order(),
        ));
    } else {
        if list.len() > 0 {
            assert(shown.last() == list.last()@);
        }
        assert(text::views(sorting::placed(list, item, less)) =~= sorting::placed(
            shown,
            item@,
            view_order(),
        ));
    }
}

/// Sorting strings sorts their texts.
proof fn lemma_sorted_views(list: Seq<String>)
    ensures
        text::views(sorting::sorted_by(list, path_order())) == sorting::sorted_by(
            text::views(list),
            view_order(),
        ),
    decreases list.len(),
{
    if list.len() > 0 {
        lemma_sorted_views(list.drop_last());
        lemma_placed_views(sorting::sorted_by(list.drop_last(), path_order()), list.last());
        assert(text::views(list.drop_last()) =~= text::views(list).drop_last());
        assert(text::views(list).last() == list.last()@);
    } else {
        assert(text::views(sorting::sorted_by(list, path_order())) =~= sorting::sorted_by(
            text::views(list),
            view_order(),
        ));
    }
}

/// The paths in order.
pub open spec fn sorted_paths(list: Seq<Seq<char>>) -> Seq<Seq<char>> {
    sorting::sorted_by(list, view_order())
}

/// The paths in order.
pub fn in_path_order(list: Vec<String>) -> (r: Vec<String>)
    ensures
        text::views(r@) == sorted_paths(text::views(list@)),
{
    proof {
        lemma_sorted_views(list@);
    }
    sort_paths(list)
}

impl ToolExecutor {
    /// Adds what a walk through the entries of `dir` comes by to `out`.
    fn walk_into(&self, dir: &str, nodes: &Vec<DirNode>, out: &mut Vec<WalkItem>)
        requires
            self.well_formed(),
            executor::is_project_path(self@.root, dir@),
        ensures
            items_view(final(out)@) == items_view(old(out)@) + walk_items(self@, dir@, nodes@),
        decreases listing::height(nodes@),
    {
        let ghost before = items_view(out@);
        let ghost all = nodes@;
        let mut i: usize = 0;
        assert(all.skip(0) =~= all);
        while i < nodes.len()
            invariant
                self.well_formed(),
                executor::is_project_path(self@.root, dir@),
                i <= nodes@.len(),
                all == nodes@,
                items_view(out@) + walk_items(self@, dir@, all.skip(i as int)) == before
                    + walk_items(self@, dir@, all),
            decreases nodes@.len() - i,
        {
            let node = &nodes[i];
            let ghost rest = all.skip(i as int);
            let ghost so_far = items_view(out@);
            let ghost tail = walk_items(self@, dir@, all.skip(i + 1));
            proof {
                assert(rest[0] == *node);
                assert(rest.skip(1) =~= all.skip(i + 1));
                listing::lemma_rest_height(rest);
                listing::lemma_node_height(all, all.len() as int, i as int);
            }
            if self.shows_entry(dir, &node.name, node.is_dir_itself) {
                proof {
                    paths::lemma_below_inside(self@.root, dir@, node.name@);
                    paths::lemma_below_tidy(dir@, node.name@);
                }
                let path = paths::join_path(dir, &node.name);
                let item = WalkItem {
                    path: path.clone(),
                    is_file: node.is_file,
                    is_dir: node.is_dir,
                    is_file_itself: node.is_file_itself,
                };
                let ghost shown = item@;
                out.push(item);
                assert(items_view(out@) =~= so_far.push(shown));
                let ghost mut inner: Seq<Item> = seq![];
                if node.is_dir_itself {
                    self.walk_into(&path, &node.entries, out);
                    proof {
                        inner = walk_items(self@, path@, node.entries@);
                    }
                }
                assert(items_view(out@) =~= so_far + (seq![shown] + inner));
                assert(walk_items(self@, dir@, rest) =~= seq![shown] + inner + tail);
                assert(items_view(out@) + tail =~= so_far + walk_items(self@, dir@, rest));
            }
            i += 1;
        }
        assert(all.skip(i as int) =~= seq![]);
        assert(items_view(out@) + seq![] =~= items_view(out@));
    }
}

/// Whether an item is of the kind that a glob asks for.
pub open spec fn is_of_type(is_file: bool, is_dir: bool, type_filter: Seq<char>) -> bool {
    if type_filter == "file"@ {
        is_file
    } else if type_filter == "directory"@ {
        is_dir
    } else {
        true
    }
}

/// Whether an item is of the kind that a glob asks for.
pub fn matches_type(is_file: bool, is_dir: bool, type_filter: &str) -> (r: bool)
    ensures
        r == is_of_type(is_file, is_dir, type_filter@),
{
    if text::same(type_filter, "file") {
        is_file
    } else if text::same(type_filter, "directory") {
        is_dir
    } else {
        true
    }
}

/// The part of a pattern behind a leading `**/`.
pub open spec fn clean_pattern(pattern: Seq<char>) -> Seq<char> {
    if "**/"@.is_prefix_of(pattern) {
        pattern.skip("**/"@.len() as int)
    } else {
        pattern
    }
}

/// Whether a glob that reaches through directories finds an item.
pub open spec fn deep_match(
    base: Seq<char>,
    pattern: Seq<char>,
    type_filter: Seq<char>,
    item: Item,
) -> bool {
    let rel = paths::slashed(paths::seen_from(base, item.path));
    &&& is_of_type(item.is_file, item.is_dir, type_filter)
    &&& patterns::glob_match(pattern, rel) || patterns::glob_match(clean_pattern(pattern), rel)
        || patterns::glob_match(clean_pattern(pattern), paths::last_name(item.path))
}

/// The paths of the items that a glob finds which reaches through directories.
pub open spec fn deep_matches(
    base: Seq<char>,
    pattern: Seq<char>,
    type_filter: Seq<char>,
    items: Seq<Item>,
) -> Seq<Seq<char>>
    decreases items.len(),
{
    if items.len() == 0 {
        seq![]
    } else {
        let before = deep_matches(base, pattern, type_filter, items.drop_last());
        if deep_match(base, pattern, type_filter, items.last()) {
            before.push(items.last().path)
        } else {
            before
        }
    }
}

/// The paths of the entries of `dir` that a glob finds which stays in it.
pub open spec fn flat_matches(
    tools: Tools,
    dir: Seq<char>,
    pattern: Seq<char>,
    type_filter: Seq<char>,
    nodes: Seq<DirNode>,
) -> Seq<Seq<char>>
    decreases nodes.len(),
{
    if nodes.len() == 0 {
        seq![]
    } else {
        let node = nodes.last();
        let before = flat_matches(tools, dir, pattern, type_filter, nodes.drop_last());
        if is_of_type(node.is_file, node.is_dir, type_filter) && paths::is_plain_name(node.name@)
            && executor::path_shown(tools, paths::below(dir, node.name@), node.is_dir)
            && patterns::glob_match(pattern, node.name@) {
            before.push(paths::below(dir, node.name@))
        } else {
            before
        }
    }
}

/// The paths that a glob finds in a directory, in no order yet. One with two
/// stars in a row reaches through directories, the directory itself among them.
pub open spec fn glob_paths(
    tools: Tools,
    dir: Seq<char>,
    pattern: Seq<char>,
    type_filter: Seq<char>,
    nodes: Seq<DirNode>,
) -> Seq<Seq<char>> {
    if text::contains(pattern, "**"@) {
        deep_matches(
            dir,
            pattern,
            type_filter,
            seq![Item { path: dir, is_file: false, is_dir: true, is_file_itself: false }]
                + walk_items(tools, dir, nodes),
        )
    } else {
        flat_matches(tools, dir, pattern, type_filter, nodes)
    }
}

/// The first `n` of the paths.
pub open spec fn first_paths(list: Seq<Seq<char>>, n: nat) -> Seq<Seq<char>> {
    if list.len() <= n {
        list
    } else {
        list.take(n as int)
    }
}

/// What a glob finds among items is one of them.
proof fn lemma_deep_matches(
    base: Seq<char>,
    pattern: Seq<char>,
    type_filter: Seq<char>,
    items: Seq<Item>,
)
    ensures
        forall|i: int|
            0 <= i < deep_matches(base, pattern, type_filter, items).len() ==> exists|k: int|
                0 <= k < items.len() && (#[trigger] items[k]).path == #[trigger] deep_matches(
                    base,
                    pattern,
                    type_filter,
                    items,
                )[i],
    decreases items.len(),
{
    if items.len() > 0 {
        let front = items.drop_last();
        lemma_deep_matches(base, pattern, type_filter, front);
        let before = deep_matches(base, pattern, type_filter, front);
        let all = deep_matches(base, pattern, type_filter, items);
        assert forall|i: int| 0 <= i < all.len() implies exists|k: int|
            0 <= k < items.len() && (#[trigger] items[k]).path == #[trigger] all[i] by {
            if i < before.len() {
                assert(all[i] == before[i]);
                let k = choose|k: int| 0 <= k < front.len() && (#[trigger] front[k]).path == before[i];
                assert(items[k].path == all[i]);
            } else {
                assert(items[items.len() - 1].path == all[i]);
            }
        }
    }
}

/// What a glob finds that stays in a directory is what the tools may show.
proof fn lemma_flat_matches(
    tools: Tools,
    dir: Seq<char>,
    pattern: Seq<char>,
    type_filter: Seq<char>,
    nodes: Seq<DirNode>,
)
    ensures
        forall|i: int|
            0 <= i < flat_matches(tools, dir, pattern, type_filter, nodes).len() ==> may_be_shown(
                tools,
                #[trigger] flat_matches(tools, dir, pattern, type_filter, nodes)[i],
            ),
    decreases nodes.len(),
{
    if nodes.len() > 0 {
        let rest = nodes.drop_last();
        lemma_flat_matches(tools, dir, pattern, type_filter, rest);
        let before = flat_matches(tools, dir, pattern, type_filter, rest);
        let all = flat_matches(tools, dir, pattern, type_filter, nodes);
        assert forall|i: int| 0 <= i < all.len() implies may_be_shown(tools, #[trigger] all[i]) by {
            if i < before.len() {
                assert(all[i] == before[i]);
            }
        }
    }
}

/// `glob` shows no more than a hundred paths, and besides the directory itself
/// none that the tools may not show.
pub proof fn law_glob_shows_visible_paths(
    tools: Tools,
    dir: Seq<char>,
    pattern: Seq<char>,
    type_filter: Seq<char>,
    nodes: Seq<DirNode>,
)
    ensures
        ({
            let kept = first_paths(
                sorted_paths(glob_paths(tools, dir, pattern, type_filter, nodes)),
                100,
            );
            &&& kept.len() <= 100
            &&& forall|i: int|
                0 <= i < kept.len() ==> #[trigger] kept[i] == dir || may_be_shown(tools, kept[i])
        }),
{
    let found = glob_paths(tools, dir, pattern, type_filter, nodes);
    let start = Item { path: dir, is_file: false, is_dir: true, is_file_itself: false };
    let walked = walk_items(tools, dir, nodes);
    let items = seq![start] + walked;
    law_walk_shows_visible_paths(tools, dir, nodes);
    lemma_deep_matches(dir, pattern, type_filter, items);
    lemma_flat_matches(tools, dir, pattern, type_filter, nodes);
    assert forall|i: int| 0 <= i < found.len() implies #[trigger] found[i] == dir || may_be_shown(
        tools,
        found[i],
    ) by {
        if text::contains(pattern, "**"@) {
            let k = choose|k: int| 0 <= k < items.len() && (#[trigger] items[k]).path == found[i];
            if k > 0 {
                assert(items[k] == walked[k - 1]);
            }
        }
    }
    let sorted = sorted_paths(found);
    let kept = first_paths(sorted, 100);
    sorting::lemma_sorted_elements(found, view_order());
    assert forall|i: int| 0 <= i < kept.len() implies #[trigger] kept[i] == dir || may_be_shown(
        tools,
        kept[i],
    ) by {
        assert(kept[i] == sorted[i]);
        assert(found.contains(sorted[i]));
    }
}

/// What is there of a directory that a glob looks at.
#[derive(Debug)]
pub enum GlobRead {
    NotADir,
    Entries(Vec<DirNode>),
}

/// What a glob shows for the paths that it found: the first hundred in order.
pub open spec fn glob_text(tools: Tools, found: Seq<Seq<char>>) -> Seq<char> {
    let kept = first_paths(sorted_paths(found), 100);
    let out = text::joined(
        Seq::new(kept.len(), |i: int| executor::remapped(tools.root, kept[i])),
        "\n"@,
    );
    if out.len() == 0 {
        "(no matches)"@
    } else {
        executor::shown(tools, out, TruncationProfile::General)
    }
}

/// What `glob` shows of a directory.
pub open spec fn glob_output(
    tools: Tools,
    pattern: Seq<char>,
    path: Seq<char>,
    type_filter: Seq<char>,
    found: GlobRead,
) -> Seq<char> {
    if pattern.len() == 0 {
        "Error: missing or invalid pattern"@
    } else if path.len() == 0 {
        "Error: missing or invalid path"@
    } else {
        match found {
            GlobRead::NotADir => "Error: dir not found: "@ + path,
            GlobRead::Entries(nodes) => glob_text(
                tools,
                glob_paths(
                    tools,
                    executor::real_path(tools.windows, tools.root, path),
                    pattern,
                    type_filter,
                    nodes@,
                ),
            ),
        }
    }
}

/// The paths of the items that a glob finds which reaches through directories.
fn find_deep(base: &str, pattern: &str, type_filter: &str, items: &Vec<WalkItem>) -> (r: Vec<String>)
    ensures
        text::views(r@) == deep_matches(base@, pattern@, type_filter@, items_view(items@)),
{
    let clean = match text::strip_prefix(pattern, "**/") {
        Some(rest) => rest,
        None => text::copied(pattern),
    };
    let ghost all = items_view(items@);
    let mut out: Vec<String> = Vec::new();
    let mut i: usize = 0;
    assert(text::views(out@) =~= seq![]);
    assert(all.take(0) =~= seq![]);
    while i < items.len()
        invariant
            i <= items@.len(),
            clean@ == clean_pattern(pattern@),
            all == items_view(items@),
            text::views(out@) == deep_matches(base@, pattern@, type_filter@, all.take(i as int)),
        decreases items@.len() - i,
    {
        let item = &items[i];
        let ghost before = text::views(out@);
        proof {
            assert(all.take(i + 1).drop_last() =~= all.take(i as int));
            assert(all.take(i + 1).last() == item@);
        }
        if matches_type(item.is_file, item.is_dir, type_filter) {
            let seen = paths::view_from(&item.path, base);
            let rel = paths::with_slashes(&seen);
            let name = paths::file_name(&item.path);
            if patterns::pattern_matches(pattern, &rel) || patterns::pattern_matches(&clean, &rel)
                || patterns::pattern_matches(&clean, &name) {
                out.push(item.path.clone());
                assert(text::views(out@) =~= before.push(item.path@));
            }
        }
        i += 1;
    }
    assert(all.take(i as int) =~= all);
    out
}

impl ToolExecutor {
    /// The paths of the entries of `dir` that a glob finds which stays in it.
    fn find_flat(&self, dir: &str, pattern: &str, type_filter: &str, nodes: &Vec<DirNode>) -> (r:
        Vec<String>)
        requires
            self.well_formed(),
            executor::is_project_path(self@.root, dir@),
        ensures
            text::views(r@) == flat_matches(self@, dir@, pattern@, type_filter@, nodes@),
    {
        let ghost all = nodes@;
        let mut out: Vec<String> = Vec::new();
        let mut i: usize = 0;
        assert(text::views(out@) =~= seq![]);
        assert(all.take(0) =~= seq![]);
        while i < nodes.len()
            invariant
                self.well_formed(),
                executor::is_project_path(self@.root, dir@),
                i <= nodes@.len(),
                all == nodes@,
                text::views(out@) == flat_matches(
                    self@,
                    dir@,
                    pattern@,
                    type_filter@,
                    all.take(i as int),
                ),
            decreases nodes@.len() - i,
        {
            let node = &nodes[i];
            let ghost before = text::views(out@);
            proof {
                assert(all.take(i + 1).drop_last() =~= all.take(i as int));
                assert(all.take(i + 1).last() == *node);
            }
            if matches_type(node.is_file, node.is_dir, type_filter) && self.shows_entry(
                dir,
                &node.name,
                node.is_dir,
            ) && patterns::pattern_matches(pattern, &node.name) {
                let path = paths::join_path(dir, &node.name);
                out.push(path);
                assert(text::views(out@) =~= before.push(path@));
            }
            i += 1;
        }
        assert(all.take(i as int) =~= all);
        out
    }

    /// What a glob shows for the paths that it found.
    fn render_matches(&self, found: Vec<String>) -> (r: String)
        ensures
            r@ == glob_text(self@, text::views(found@)),
    {
        let mut kept = in_path_order(found);
        let ghost sorted = text::views(kept@);
        if kept.len() > 100 {
            kept.truncate(100);
        }
        assert(text::views(kept@) =~= first_paths(sorted, 100));
        let mut lines: Vec<String> = Vec::new();
        let mut i: usize = 0;
        while i < kept.len()
            invariant
                i <= kept@.len(),
                lines@.len() == i,
                forall|k: int|
                    0 <= k < i ==> (#[trigger] lines@[k])@ == executor::remapped(
                        self@.root,
                        kept@[k]@,
                    ),
            decreases kept@.len() - i,
        {
            lines.push(self.remap(&kept[i]));
            i += 1;
        }
        let ghost shown = first_paths(sorted, 100);
        assert(text::views(lines@) =~= Seq::new(
            shown.len(),
            |i: int| executor::remapped(self@.root, shown[i]),
        )) by {
            assert forall|k: int| 0 <= k < lines@.len() implies (#[trigger] lines@[k])@
                == executor::remapped(self@.root, shown[k]) by {
                assert(shown[k] == kept@[k]@);
            }
        }
        let out = text::join(&lines, "\n");
        if out.as_str().is_empty() {
            text::copied("(no matches)")
        } else {
            self.truncate_text(&out, TruncationProfile::General)
        }
    }

    /// What `glob` shows of a directory, given what is there of it on disk.
    pub fn execute_glob(&self, pattern: &str, path: &str, type_filter: &str, found: &GlobRead) -> (r:
        String)
        requires
            self.well_formed(),
        ensures
            r@ == glob_output(self@, pattern@, path@, type_filter@, *found),
    {
        if pattern.is_empty() {
            return text::copied("Error: missing or invalid pattern");
        }
        if path.is_empty() {
            return text::copied("Error: missing or invalid path");
        }
        match found {
            GlobRead::NotADir => {
                let mut out = text::copied("Error: dir not found: ");
                out.append(path);
                out
            },
            GlobRead::Entries(nodes) => {
                let dir = self.resolve(path);
                let matches = if text::contains_text(pattern, "**") {
                    let mut items: Vec<WalkItem> = Vec::new();
                    let start = WalkItem {
                        path: dir.clone(),
                        is_file: false,
                        is_dir: true,
                        is_file_itself: false,
                    };
                    let ghost first = start@;
                    items.push(start);
                    assert(items_view(items@) =~= seq![first]);
                    self.walk_into(&dir, nodes, &mut items);
                    find_deep(&dir, pattern, type_filter, &items)
                } else {
                    self.find_flat(&dir, pattern, type_filter, nodes)
                };
                self.render_matches(matches)
            },
        }
    }
}

/// What is there of a path that is to be searched.
#[derive(Debug)]
pub enum SearchTarget {
    Missing,
    File,
    Dir(Vec<DirNode>),
}

/// Whether a search looks at a file of the project.
pub open spec fn is_searched(
    tools: Tools,
    path: Seq<char>,
    included: Option<Seq<Seq<char>>>,
    excluded: Option<Seq<Seq<char>>>,
) -> bool {
    let rel = paths::slashed(paths::seen_from(tools.root, path));
    let name = paths::last_name(path);
    &&& executor::path_shown(tools, path, false)
    &&& match included {
        Some(list) => list.len() == 0 || patterns::any_pattern_matches(list, name, rel),
        None => true,
    }
    &&& match excluded {
        Some(list) => !patterns::any_pattern_matches(list, name, rel),
        None => true,
    }
}

/// The files among the items that a search looks at.
pub open spec fn searched_items(
    tools: Tools,
    items: Seq<Item>,
    included: Option<Seq<Seq<char>>>,
    excluded: Option<Seq<Seq<char>>>,
) -> Seq<Seq<char>>
    decreases items.len(),
{
    if items.len() == 0 {
        seq![]
    } else {
        let before = searched_items(tools, items.drop_last(), included, excluded);
        let item = items.last();
        if item.is_file_itself && is_searched(tools, item.path, included, excluded) {
            before.push(item.path)
        } else {
            before
        }
    }
}

/// The files that a search looks at, in order.
pub open spec fn searched_files(
    tools: Tools,
    path: Seq<char>,
    target: SearchTarget,
    included: Option<Seq<Seq<char>>>,
    excluded: Option<Seq<Seq<char>>>,
) -> Seq<Seq<char>> {
    match target {
        SearchTarget::Missing => seq![],
        SearchTarget::File => if is_searched(tools, path, included, excluded) {
            seq![path]
        } else {
            seq![]
        },
        SearchTarget::Dir(nodes) => sorted_paths(
            searched_items(tools, walk_items(tools, path, nodes@), included, excluded),
        ),
    }
}

/// The files among the items that a search looks at are files that it may look at.
proof fn lemma_searched_items(
    tools: Tools,
    items: Seq<Item>,
    included: Option<Seq<Seq<char>>>,
    excluded: Option<Seq<Seq<char>>>,
)
    ensures
        forall|i: int|
            0 <= i < searched_items(tools, items, included, excluded).len() ==> is_searched(
                tools,
                #[trigger] searched_items(tools, items, included, excluded)[i],
                included,
                excluded,
            ),
    decreases items.len(),
{
    if items.len() > 0 {
        let rest = items.drop_last();
        lemma_searched_items(tools, rest, included, excluded);
        let before = searched_items(tools, rest, included, excluded);
        let all = searched_items(tools, items, included, excluded);
        assert forall|i: int| 0 <= i < all.len() implies is_searched(
            tools,
            #[trigger] all[i],
            included,
            excluded,
        ) by {
            if i < before.len() {
                assert(all[i] == before[i]);
            }
        }
    }
}

/// A search looks at no file that the tools may not show, or that its patterns
/// leave out.
pub proof fn law_search_looks_at_visible_files(
    tools: Tools,
    path: Seq<char>,
    target: SearchTarget,
    included: Option<Seq<Seq<char>>>,
    excluded: Option<Seq<Seq<char>>>,
)
    ensures
        forall|i: int|
            0 <= i < searched_files(tools, path, target, included, excluded).len() ==> is_searched(
                tools,
                #[trigger] searched_files(tools, path, target, included, excluded)[i],
                included,
                excluded,
            ),
{
    if let SearchTarget::Dir(nodes) = target {
        let list = searched_items(tools, walk_items(tools, path, nodes@), included, excluded);
        lemma_searched_items(tools, walk_items(tools, path, nodes@), included, excluded);
        sorting::lemma_sorted_elements(list, view_order());
        let all = searched_files(tools, path, target, included, excluded);
        assert forall|i: int| 0 <= i < all.len() implies is_searched(
            tools,
            #[trigger] all[i],
            included,
            excluded,
        ) by {
            assert(list.contains(all[i]));
        }
    }
}

/// What an optional reference to a list holds.
pub open spec fn list_view(list: Option<&Vec<String>>) -> Option<Seq<Seq<char>>> {
    match list {
        Some(list) => Some(text::views(list@)),
        None => None,
    }
}

impl ToolExecutor {
    /// Whether a search looks at a file of the project.
    pub fn is_visible_for_rg(
        &self,
        path: &str,
        included: Option<&Vec<String>>,
        excluded: Option<&Vec<String>>,
    ) -> (r: bool)
        requires
            crate::path_filter::can_tell(self@.filter, path@, false),
        ensures
            r == is_searched(self@, path@, list_view(included), list_view(excluded)),
    {
        if !self.is_visible_path(path, false) {
            return false;
        }
        let seen = paths::view_from(path, self.root());
        let rel = paths::with_slashes(&seen);
        let name = paths::file_name(path);
        if let Some(list) = included {
            if list.len() > 0 && !patterns::matches_any_pattern(list, &name, &rel) {
                return false;
            }
        }
        if let Some(list) = excluded {
            if patterns::matches_any_pattern(list, &name, &rel) {
                return false;
            }
        }
        true
    }

    /// The files that a search looks at, in order.
    pub fn rg_search_files(
        &self,
        path: &str,
        target: &SearchTarget,
        included: Option<&Vec<String>>,
        excluded: Option<&Vec<String>>,
    ) -> (r: Vec<String>)
        requires
            self.well_formed(),
            executor::is_project_path(self@.root, path@),
        ensures
            text::views(r@) == searched_files(
                self@,
                path@,
                *target,
                list_view(included),
                list_view(excluded),
            ),
    {
        let mut out: Vec<String> = Vec::new();
        assert(text::views(out@) =~= seq![]);
        match target {
            SearchTarget::Missing => out,
            SearchTarget::File => {
                proof {
                    self.lemma_can_tell(path@, false);
                }
                if self.is_visible_for_rg(path, included, excluded) {
                    out.push(text::copied(path));
                    assert(text::views(out@) =~= seq![path@]);
                }
                out
            },
            SearchTarget::Dir(nodes) => {
                let mut items: Vec<WalkItem> = Vec::new();
                assert(items_view(items@) =~= seq![]);
                self.walk_into(path, nodes, &mut items);
                let ghost all = walk_items(self@, path@, nodes@);
                proof {
                    assert(seq![] + all =~= all);
                    law_walk_stays_inside(self@, self@.root, path@, nodes@);
                    lemma_walk_tidy(self@, path@, nodes@);
                    assert(all.take(0) =~= seq![]);
                }
                let mut i: usize = 0;
                while i < items.len()
                    invariant
                        self.well_formed(),
                        i <= items@.len(),
                        all == items_view(items@),
                        forall|k: int|
                            0 <= k < all.len() ==> executor::is_project_path(
                                self@.root,
                                (#[trigger] all[k]).path,
                            ),
                        text::views(out@) == searched_items(
                            self@,
                            all.take(i as int),
                            list_view(included),
                            list_view(excluded),
                        ),
                    decreases items@.len() - i,
                {
                    let ghost before = text::views(out@);
                    proof {
                        assert(all.take(i + 1).drop_last() =~= all.take(i as int));
                        assert(all.take(i + 1).last() == items@[i as int]@);
                        assert(all[i as int] == items@[i as int]@);
                        self.lemma_can_tell(items@[i as int].path@, false);
                    }
                    if items[i].is_file_itself && self.is_visible_for_rg(
                        &items[i].path,
                        included,
                        excluded,
                    ) {
                        out.push(items[i].path.clone());
                        assert(text::views(out@) =~= before.push(items@[i as int].path@));
                    }
                    i += 1;
                }
                assert(all.take(i as int) =~= all);
                in_path_order(out)
            },
        }
    }
}

/// Whether a glob matches the name of a file or its path within the project.
pub open spec fn matched_by(tools: Tools, path: Seq<char>, pattern: Seq<char>) -> bool {
    ||| patterns::glob_matches(text::replaced(pattern, seq!['\\'], seq!['/']), paths::last_name(path))
        == Some(true)
    ||| patterns::glob_matches(pattern, paths::slashed(paths::seen_from(tools.root, path))) == Some(
        true,
    )
}

/// A search looks at no file that one of the exclude globs matches, whatever is included.
pub proof fn law_excluded_files_are_not_searched(
    tools: Tools,
    path: Seq<char>,
    target: SearchTarget,
    included: Option<Seq<Seq<char>>>,
    excluded: Seq<Seq<char>>,
    i: int,
)
    requires
        0 <= i < searched_files(tools, path, target, included, Some(excluded)).len(),
    ensures
        forall|k: int|
            0 <= k < excluded.len() ==> !matched_by(
                tools,
                searched_files(tools, path, target, included, Some(excluded))[i],
                #[trigger] excluded[k],
            ),
{
    law_search_looks_at_visible_files(tools, path, target, included, Some(excluded));
    let file = searched_files(tools, path, target, included, Some(excluded))[i];
    assert(is_searched(tools, file, included, Some(excluded)));
}

/// Where there are include globs, a search looks only at files that one of them matches,
/// whatever is excluded.
pub proof fn law_only_included_files_are_searched(
    tools: Tools,
    path: Seq<char>,
    target: SearchTarget,
    included: Seq<Seq<char>>,
    excluded: Option<Seq<Seq<char>>>,
    i: int,
)
    requires
        included.len() > 0,
        0 <= i < searched_files(tools, path, target, Some(included), excluded).len(),
    ensures
        exists|k: int|
            0 <= k < included.len() && matched_by(
                tools,
                searched_files(tools, path, target, Some(included), excluded)[i],
                #[trigger] included[k],
            ),
{
    law_search_looks_at_visible_files(tools, path, target, Some(included), excluded);
    let file = searched_files(tools, path, target, Some(included), excluded)[i];
    assert(is_searched(tools, file, Some(included), excluded));
}

/// Whether the globs of a search let a file through: one that is included, where there are
/// include globs, and not excluded.
pub open spec fn passes_globs(
    tools: Tools,
    path: Seq<char>,
    included: Option<Seq<Seq<char>>>,
    excluded: Option<Seq<Seq<char>>>,
) -> bool {
    &&& included matches Some(list) ==> list.len() > 0 ==> exists|k: int|
        0 <= k < list.len() && matched_by(tools, path, #[trigger] list[k])
    &&& excluded matches Some(list) ==> forall|k: int|
        0 <= k < list.len() ==> !matched_by(tools, path, #[trigger] list[k])
}

/// What the globs let through is what the search looks at among what may be shown.
proof fn lemma_passes_globs(
    tools: Tools,
    path: Seq<char>,
    included: Option<Seq<Seq<char>>>,
    excluded: Option<Seq<Seq<char>>>,
)
    ensures
        is_searched(tools, path, included, excluded) == (executor::path_shown(tools, path, false)
            && passes_globs(tools, path, included, excluded)),
{
    let rel = paths::slashed(paths::seen_from(tools.root, path));
    let name = paths::last_name(path);
    if let Some(list) = included {
        if patterns::any_pattern_matches(list, name, rel) {
            let k = choose|k: int|
                0 <= k < list.len() && (patterns::glob_match(
                    text::replaced(#[trigger] list[k], seq!['\\'], seq!['/']),
                    name,
                ) || patterns::glob_match(list[k], rel));
            assert(matched_by(tools, path, list[k]));
        }
    }
    if let Some(list) = excluded {
        if patterns::any_pattern_matches(list, name, rel) {
            let k = choose|k: int|
                0 <= k < list.len() && (patterns::glob_match(
                    text::replaced(#[trigger] list[k], seq!['\\'], seq!['/']),
                    name,
                ) || patterns::glob_match(list[k], rel));
            assert(matched_by(tools, path, list[k]));
        }
    }
}

/// The files that are searched are kept in the order of the walk.
proof fn lemma_searched_filter(
    tools: Tools,
    items: Seq<Item>,
    included: Option<Seq<Seq<char>>>,
    excluded: Option<Seq<Seq<char>>>,
)
    ensures
        searched_items(tools, items, included, excluded) == items.filter(
            |item: Item|
                item.is_file_itself && executor::path_shown(tools, item.path, false)
                    && passes_globs(tools, item.path, included, excluded),
        ).map_values(|item: Item| item.path),
    decreases items.len(),
{
    reveal(Seq::filter);
    let wanted = |item: Item|
        item.is_file_itself && executor::path_shown(tools, item.path, false) && passes_globs(
            tools,
            item.path,
            included,
            excluded,
        );
    if items.len() == 0 {
        assert(items.filter(wanted).map_values(|item: Item| item.path) =~= seq![]);
    } else {
        lemma_searched_filter(tools, items.drop_last(), included, excluded);
        lemma_passes_globs(tools, items.last().path, included, excluded);
        let before = items.drop_last().filter(wanted);
        if wanted(items.last()) {
            assert(before.push(items.last()).map_values(|item: Item| item.path)
                =~= before.map_values(|item: Item| item.path).push(items.last().path));
        }
    }
}

/// A search of a directory looks at every file below it that may be shown and that its
/// globs let through, at each as often as the walk comes to it, and at no other. A search
/// of a file looks at that file under the same conditions.
pub proof fn law_search_looks_at_every_file(
    tools: Tools,
    path: Seq<char>,
    nodes: Vec<DirNode>,
    included: Option<Seq<Seq<char>>>,
    excluded: Option<Seq<Seq<char>>>,
)
    ensures
        searched_files(tools, path, SearchTarget::Dir(nodes), included, excluded).to_multiset()
            == walk_items(tools, path, nodes@).filter(
            |item: Item|
                item.is_file_itself && executor::path_shown(tools, item.path, false)
                    && passes_globs(tools, item.path, included, excluded),
        ).map_values(|item: Item| item.path).to_multiset(),
        searched_files(tools, path, SearchTarget::File, included, excluded) == (if
        executor::path_shown(tools, path, false) && passes_globs(tools, path, included, excluded) {
            seq![path]
        } else {
            seq![]
        }),
        searched_files(tools, path, SearchTarget::Missing, included, excluded).len() == 0,
{
    let items = walk_items(tools, path, nodes@);
    lemma_searched_filter(tools, items, included, excluded);
    sorting::law_sorting_keeps_items(
        searched_items(tools, items, included, excluded),
        view_order(),
    );
    lemma_passes_globs(tools, path, included, excluded);
}

/// Names are ordered as texts are, and other parts come before them.
proof fn lemma_part_order(a: Part, b: Part, c: Part)
    ensures
        part_before(a, b) ==> !part_before(b, a),
        part_before(a, c) ==> part_before(a, b) || part_before(b, c),
        !part_before(a, a),
        a != b ==> part_before(a, b) || part_before(b, a),
{
    if let (Part::Name(x), Part::Name(y)) = (a, b) {
        text::lemma_less_total(x, y);
        if text::less(x, y) {
            text::lemma_less_asymmetric(x, y);
        }
        if let Part::Name(z) = c {
            text::lemma_less_total(y, z);
            if text::less(x, z) && text::less(z, y) {
                text::lemma_less_transitive(x, z, y);
            }
        }
    }
    if let Part::Name(x) = a {
        text::lemma_less_irreflexive(x);
    }
}

/// Paths are ordered part by part.
proof fn lemma_parts_order(a: Seq<Part>, b: Seq<Part>, c: Seq<Part>)
    ensures
        parts_before(a, b) ==> !parts_before(b, a),
        parts_before(a, c) ==> parts_before(a, b) || parts_before(b, c),
    decreases a.len() + b.len() + c.len(),
{
    if a.len() > 0 && b.len() > 0 {
        lemma_part_order(a[0], b[0], a[0]);
        if c.len() > 0 {
            lemma_part_order(a[0], b[0], c[0]);
            lemma_part_order(b[0], c[0], a[0]);
            lemma_part_order(a[0], c[0], b[0]);
        }
        let d = if c.len() > 0 {
            c.skip(1)
        } else {
            c
        };
        lemma_parts_order(a.skip(1), b.skip(1), d);
    }
}

/// Files are searched, and paths shown, in the order of their parts.
pub proof fn law_paths_are_in_order(list: Seq<Seq<char>>)
    ensures
        forall|i: int, j: int|
            0 <= i < j < sorted_paths(list).len() ==> !path_before(
                #[trigger] sorted_paths(list)[j],
                #[trigger] sorted_paths(list)[i],
            ),
        sorted_paths(list).to_multiset() == list.to_multiset(),
{
    let less = view_order();
    assert forall|a: Seq<char>, b: Seq<char>| #[trigger] less(a, b) implies !less(b, a) by {
        lemma_parts_order(paths::parts(a), paths::parts(b), paths::parts(a));
    }
    assert forall|a: Seq<char>, b: Seq<char>, c: Seq<char>| #[trigger]
        less(a, c) implies (#[trigger] less(a, b) || less(b, c)) by {
        lemma_parts_order(paths::parts(a), paths::parts(b), paths::parts(c));
    }
    sorting::law_sorting_orders_items(list, less);
    sorting::law_sorting_keeps_items(list, less);
    let all = sorted_paths(list);
    assert forall|i: int, j: int| 0 <= i < j < all.len() implies !path_before(
        #[trigger] all[j],
        #[trigger] all[i],
    ) by {
        assert(!less(all[j], all[i]));
    }
}

/// A path comes before what lies below it, and names decide as texts where paths part.
pub proof fn law_paths_are_ordered_by_their_parts(front: Seq<Part>, a: Seq<Part>, b: Seq<Part>)
    ensures
        a.len() > 0 ==> parts_before(front, front + a),
        a.len() > 0 && b.len() > 0 && a[0] != b[0] ==> (parts_before(front + a, front + b) <==> (
        match (a[0], b[0]) {
            (Part::Name(x), Part::Name(y)) => text::less(x, y),
            (_, Part::Name(_)) => true,
            (Part::Root, _) => true,
            (Part::Cur, Part::Parent) => true,
            _ => false,
        })),
    decreases front.len(),
{
    if front.len() == 0 {
        assert(front + a =~= a);
        assert(front + b =~= b);
    } else {
        law_paths_are_ordered_by_their_parts(front.skip(1), a, b);
        assert((front + a).skip(1) =~= front.skip(1) + a);
        assert((front + b).skip(1) =~= front.skip(1) + b);
    }
}

/// A walk comes to the entries of a directory one after the other: to what is below the
/// first ones, then to what is below the others.
pub proof fn law_walk_goes_entry_by_entry(
    tools: Tools,
    dir: Seq<char>,
    a: Seq<DirNode>,
    b: Seq<DirNode>,
)
    ensures
        walk_items(tools, dir, a + b) == walk_items(tools, dir, a) + walk_items(tools, dir, b),
    decreases a.len(),
{
    if a.len() == 0 {
        assert(a + b =~= b);
        assert(walk_items(tools, dir, a) + walk_items(tools, dir, b) =~= walk_items(tools, dir, b));
    } else {
        law_walk_goes_entry_by_entry(tools, dir, a.skip(1), b);
        assert((a + b).skip(1) =~= a.skip(1) + b);
        assert((a + b)[0] == a[0]);
        assert(walk_items(tools, dir, a + b) =~= walk_items(tools, dir, a) + walk_items(
            tools,
            dir,
            b,
        ));
    }
}

/// A walk comes to an entry that may be shown, and then, where that is a directory itself,
/// to everything below it. It comes to nothing of an entry that may not be shown.
pub proof fn law_walk_goes_into_directories(tools: Tools, dir: Seq<char>, node: DirNode)
    requires
        paths::is_plain_name(node.name@),
    ensures
        ({
            let path = paths::below(dir, node.name@);
            let items = walk_items(tools, dir, seq![node]);
            &&& !executor::path_shown(tools, path, node.is_dir_itself) ==> items.len() == 0
            &&& executor::path_shown(tools, path, node.is_dir_itself) ==> items.len() > 0
                && items[0] == (Item {
                path,
                is_file: node.is_file,
                is_dir: node.is_dir,
                is_file_itself: node.is_file_itself,
            }) && items.skip(1) == (if node.is_dir_itself {
                walk_items(tools, path, node.entries@)
            } else {
                seq![]
            })
        }),
{
    let path = paths::below(dir, node.name@);
    let items = walk_items(tools, dir, seq![node]);
    assert(seq![node].skip(1) =~= seq![]);
    assert(walk_items(tools, dir, seq![node].skip(1)) =~= seq![]);
    if executor::path_shown(tools, path, node.is_dir_itself) {
        assert(items.skip(1) =~= if node.is_dir_itself {
            walk_items(tools, path, node.entries@)
        } else {
            seq![]
        });
    }
}

/// The paths that a glob with `**` finds are those of the directory and of everything below
/// it that may be shown, where the kind is the one that is asked for and the pattern
/// matches, with or without its first `**/`, or without it the name alone.
pub proof fn law_deep_glob_finds_every_match(
    tools: Tools,
    dir: Seq<char>,
    pattern: Seq<char>,
    type_filter: Seq<char>,
    nodes: Seq<DirNode>,
)
    requires
        text::contains(pattern, "**"@),
    ensures
        ({
            let start = Item { path: dir, is_file: false, is_dir: true, is_file_itself: false };
            let short = if seq!['*', '*', '/'].is_prefix_of(pattern) {
                pattern.skip(3)
            } else {
                pattern
            };
            glob_paths(tools, dir, pattern, type_filter, nodes) == (seq![start] + walk_items(
                tools,
                dir,
                nodes,
            )).filter(
                |item: Item|
                    {
                        let rel = paths::slashed(paths::seen_from(dir, item.path));
                        &&& type_filter == "file"@ ==> item.is_file
                        &&& type_filter == "directory"@ ==> item.is_dir
                        &&& patterns::glob_matches(pattern, rel) == Some(true)
                            || patterns::glob_matches(short, rel) == Some(true)
                            || patterns::glob_matches(short, paths::last_name(item.path)) == Some(
                            true,
                        )
                    },
            ).map_values(|item: Item| item.path)
        }),
{
    let start = Item { path: dir, is_file: false, is_dir: true, is_file_itself: false };
    lemma_deep_filter(dir, pattern, type_filter, seq![start] + walk_items(tools, dir, nodes));
}

/// A deep match is found in its place.
proof fn lemma_deep_filter(
    dir: Seq<char>,
    pattern: Seq<char>,
    type_filter: Seq<char>,
    items: Seq<Item>,
)
    ensures
        ({
            let short = if seq!['*', '*', '/'].is_prefix_of(pattern) {
                pattern.skip(3)
            } else {
                pattern
            };
            deep_matches(dir, pattern, type_filter, items) == items.filter(
                |item: Item|
                    {
                        let rel = paths::slashed(paths::seen_from(dir, item.path));
                        &&& type_filter == "file"@ ==> item.is_file
                        &&& type_filter == "directory"@ ==> item.is_dir
                        &&& patterns::glob_matches(pattern, rel) == Some(true)
                            || patterns::glob_matches(short, rel) == Some(true)
                            || patterns::glob_matches(short, paths::last_name(item.path)) == Some(
                            true,
                        )
                    },
            ).map_values(|item: Item| item.path)
        }),
    decreases items.len(),
{
    reveal(Seq::filter);
    reveal_strlit("**/");
    reveal_strlit("file");
    reveal_strlit("directory");
    assert("**/"@ =~= seq!['*', '*', '/']);
    assert("file"@[0] != "directory"@[0]);
    let short = if seq!['*', '*', '/'].is_prefix_of(pattern) {
        pattern.skip(3)
    } else {
        pattern
    };
    let wanted = |item: Item|
        {
            let rel = paths::slashed(paths::seen_from(dir, item.path));
            &&& type_filter == "file"@ ==> item.is_file
            &&& type_filter == "directory"@ ==> item.is_dir
            &&& patterns::glob_matches(pattern, rel) == Some(true) || patterns::glob_matches(
                short,
                rel,
            ) == Some(true) || patterns::glob_matches(short, paths::last_name(item.path)) == Some(
                true,
            )
        };
    if items.len() == 0 {
        assert(items.filter(wanted).map_values(|item: Item| item.path) =~= seq![]);
    } else {
        lemma_deep_filter(dir, pattern, type_filter, items.drop_last());
        assert(deep_match(dir, pattern, type_filter, items.last()) == wanted(items.last()));
        let before = items.drop_last().filter(wanted);
        if wanted(items.last()) {
            assert(before.push(items.last()).map_values(|item: Item| item.path)
                =~= before.map_values(|item: Item| item.path).push(items.last().path));
        }
    }
}

/// The paths that a glob without `**` finds are those of the entries of the directory that
/// may be shown, where the kind is the one that is asked for and the pattern matches the
/// name.
pub proof fn law_flat_glob_finds_every_match(
    tools: Tools,
    dir: Seq<char>,
    pattern: Seq<char>,
    type_filter: Seq<char>,
    nodes: Seq<DirNode>,
)
    ensures
        !text::contains(pattern, "**"@) ==> glob_paths(tools, dir, pattern, type_filter, nodes)
            == flat_matches(tools, dir, pattern, type_filter, nodes),
        flat_matches(tools, dir, pattern, type_filter, nodes) == nodes.filter(
            |node: DirNode|
                {
                    &&& paths::is_plain_name(node.name@)
                    &&& executor::path_shown(tools, paths::below(dir, node.name@), node.is_dir)
                    &&& type_filter == "file"@ ==> node.is_file
                    &&& type_filter == "directory"@ ==> node.is_dir
                    &&& patterns::glob_matches(pattern, node.name@) == Some(true)
                },
        ).map_values(|node: DirNode| paths::below(dir, node.name@)),
    decreases nodes.len(),
{
    reveal(Seq::filter);
    reveal_strlit("file");
    reveal_strlit("directory");
    assert("file"@[0] != "directory"@[0]);
    let wanted = |node: DirNode|
        {
            &&& paths::is_plain_name(node.name@)
            &&& executor::path_shown(tools, paths::below(dir, node.name@), node.is_dir)
            &&& type_filter == "file"@ ==> node.is_file
            &&& type_filter == "directory"@ ==> node.is_dir
            &&& patterns::glob_matches(pattern, node.name@) == Some(true)
        };
    let place = |node: DirNode| paths::below(dir, node.name@);
    if nodes.len() == 0 {
        assert(nodes.filter(wanted).map_values(place) =~= seq![]);
    } else {
        law_flat_glob_finds_every_match(tools, dir, pattern, type_filter, nodes.drop_last());
        let before = nodes.drop_last().filter(wanted);
        if wanted(nodes.last()) {
            assert(before.push(nodes.last()).map_values(place) =~= before.map_values(place).push(
                paths::below(dir, nodes.last().name@),
            ));
        }
    }
}

/// A glob shows the first hundred of the paths that it finds, in order, all where there are
/// no more, each with the root of the project as `/codebase`; and says so where it finds
/// nothing to show.
pub proof fn law_glob_shows_what_it_finds(tools: Tools, found: Seq<Seq<char>>)
    ensures
        ({
            let sorted = sorted_paths(found);
            let shown = sorted.take(vstd::math::min(sorted.len() as int, 100)).map_values(
                |path: Seq<char>| text::replaced(path, tools.root, "/codebase"@),
            );
            let lines = text::joined(shown, seq!['\n']);
            &&& lines.len() > 0 ==> glob_text(tools, found) == executor::truncated(
                lines,
                tools.limits.result_max_lines as nat,
                tools.limits.line_max_chars as nat,
            )
            &&& lines.len() == 0 ==> glob_text(tools, found) == "(no matches)"@
        }),
{
    let sorted = sorted_paths(found);
    let kept = first_paths(sorted, 100);
    reveal_strlit("\n");
    assert("\n"@ =~= seq!['\n']);
    assert(kept =~= sorted.take(vstd::math::min(sorted.len() as int, 100)));
    assert(kept.map_values(|path: Seq<char>| text::replaced(path, tools.root, "/codebase"@))
        =~= Seq::new(kept.len(), |i: int| executor::remapped(tools.root, kept[i])));
}

/// A glob without a pattern or a path, or below what is no directory, says so.
pub proof fn law_glob_tells_what_is_wrong(
    tools: Tools,
    pattern: Seq<char>,
    path: Seq<char>,
    type_filter: Seq<char>,
    found: GlobRead,
)
    ensures
        pattern.len() == 0 ==> glob_output(tools, pattern, path, type_filter, found)
            == "Error: missing or invalid pattern"@,
        pattern.len() > 0 && path.len() == 0 ==> glob_output(
            tools,
            pattern,
            path,
            type_filter,
            found,
        ) == "Error: missing or invalid path"@,
        pattern.len() > 0 && path.len() > 0 ==> glob_output(
            tools,
            pattern,
            path,
            type_filter,
            GlobRead::NotADir,
        ) == "Error: dir not found: "@ + path,
{
}

} // verus!
