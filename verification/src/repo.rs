//! The scope snapshot of a project, and what an answer says of its files.
use crate::executor::{self, ToolExecutor, Tools};
use crate::listing::{self, DirNode};
use crate::paths;
use crate::text;
use crate::types::MAX_TREE_BYTES;
use vstd::prelude::*;

verus! {

/// A scope snapshot: the lines of the project's files down to some depth.
#[derive(Debug, Clone, PartialEq, Eq)]
pub struct RepoMap {
    pub tree: String,
    pub depth: usize,
    pub size_bytes: usize,
    pub fell_back: bool,
}

/// What a scope snapshot says.
#[verifier::ext_equal]
pub struct Snapshot {
    pub tree: Seq<char>,
    pub depth: usize,
    pub size_bytes: usize,
    pub fell_back: bool,
}

impl View for RepoMap {
    type V = Snapshot;

    open spec fn view(&self) -> Snapshot {
        Snapshot {
            tree: self.tree@,
            depth: self.depth,
            size_bytes: self.size_bytes,
            fell_back: self.fell_back,
        }
    }
}

/// The line for a path of the project.
pub open spec fn scope_line(root: Seq<char>, path: Seq<char>, is_dir: bool) -> Seq<char> {
    paths::slashed(paths::seen_from(root, path)) + (if is_dir {
        "/"@
    } else {
        ""@
    })
}

/// The line for a path of the project: relative to its root, with a slash
/// behind a directory.
pub fn manifest_line(root: &str, path: &str, is_dir: bool) -> (r: String)
    ensures
        r@ == scope_line(root@, path@, is_dir),
{
    let rel = paths::view_from(path, root);
    let mut out = paths::with_slashes(&rel);
    out.append(
        if is_dir {
            "/"
        } else {
            ""
        },
    );
    out
}

/// A line of a scope snapshot, and how deep its path lies.
#[verifier::ext_equal]
pub struct ScopeLine {
    pub level: nat,
    pub line: Seq<char>,
}

/// The lines for the entries `items` of `dir`, which are in order and lie at
/// `level`: below each directory those for what it holds, down to the level
/// `deepest`.
pub open spec fn scope_lines(
    tools: Tools,
    dir: Seq<char>,
    items: Seq<DirNode>,
    level: nat,
    deepest: nat,
) -> Seq<ScopeLine>
    decreases listing::height(items), items.len(),
{
    if items.len() == 0 || level > deepest {
        seq![]
    } else {
        let node = items[0];
        let path = paths::below(dir, node.name@);
        proof {
            listing::lemma_rest_height(items);
            listing::lemma_shown_height(tools, path, node.entries@);
        }
        seq![ScopeLine { level, line: scope_line(tools.root, path, node.is_dir) }] + (
        if node.is_dir {
            scope_lines(
                tools,
                path,
                listing::shown_nodes(tools, path, node.entries@),
                level + 1,
                deepest,
            )
        } else {
            seq![]
        }) + scope_lines(tools, dir, items.skip(1), level, deepest)
    }
}

/// The lines down to a level.
pub open spec fn down_to(lines: Seq<ScopeLine>, level: nat) -> Seq<ScopeLine>
    decreases lines.len(),
{
    if lines.len() == 0 {
        seq![]
    } else {
        let before = down_to(lines.drop_last(), level);
        if lines.last().level <= level {
            before.push(lines.last())
        } else {
            before
        }
    }
}

/// Lines one behind the other are cut off one behind the other.
proof fn lemma_down_to_concat(a: Seq<ScopeLine>, b: Seq<ScopeLine>, level: nat)
    ensures
        down_to(a + b, level) == down_to(a, level) + down_to(b, level),
    decreases b.len(),
{
    if b.len() == 0 {
        assert(a + b =~= a);
        assert(down_to(a, level) + down_to(b, level) =~= down_to(a, level));
    } else {
        lemma_down_to_concat(a, b.drop_last(), level);
        assert((a + b).drop_last() =~= a + b.drop_last());
        assert((a + b).last() == b.last());
        assert(down_to(a + b, level) =~= down_to(a, level) + down_to(b, level));
    }
}

/// A snapshot down to a level holds of a deeper one the lines down to that
/// level, in the same order.
pub proof fn law_shallow_snapshot_is_part_of_deep_one(
    tools: Tools,
    dir: Seq<char>,
    items: Seq<DirNode>,
    level: nat,
    deepest: nat,
    cut: nat,
)
    requires
        cut <= deepest,
    ensures
        down_to(scope_lines(tools, dir, items, level, deepest), cut) == scope_lines(
            tools,
            dir,
            items,
            level,
            cut,
        ),
    decreases listing::height(items), items.len(),
{
    if items.len() == 0 || level > deepest {
    } else {
        let node = items[0];
        let path = paths::below(dir, node.name@);
        listing::lemma_rest_height(items);
        listing::lemma_shown_height(tools, path, node.entries@);
        let below = listing::shown_nodes(tools, path, node.entries@);
        let head = seq![ScopeLine { level, line: scope_line(tools.root, path, node.is_dir) }];
        let inner = if node.is_dir {
            scope_lines(tools, path, below, level + 1, deepest)
        } else {
            seq![]
        };
        let rest = scope_lines(tools, dir, items.skip(1), level, deepest);
        law_shallow_snapshot_is_part_of_deep_one(tools, dir, items.skip(1), level, deepest, cut);
        if node.is_dir {
            law_shallow_snapshot_is_part_of_deep_one(tools, path, below, level + 1, deepest, cut);
        }
        lemma_down_to_concat(head + inner, rest, cut);
        lemma_down_to_concat(head, inner, cut);
        assert(head.drop_last() =~= seq![]);
        assert(down_to(head.drop_last(), cut) =~= seq![]);
        if level <= cut {
            assert(down_to(head, cut) =~= head);
        } else {
            assert(down_to(head, cut) =~= seq![]);
            assert(scope_lines(tools, dir, items, level, cut) =~= seq![]);
            assert(scope_lines(tools, path, below, level + 1, cut) =~= seq![]);
            assert(scope_lines(tools, dir, items.skip(1), level, cut) =~= seq![]);
            assert(down_to(inner, cut) =~= seq![]);
        }
    }
}

/// What the lines say.
pub open spec fn line_texts(lines: Seq<ScopeLine>) -> Seq<Seq<char>> {
    Seq::new(lines.len(), |i: int| lines[i].line)
}

/// The snapshot of a project whose root holds `nodes`, down to `depth`.
pub open spec fn scope_tree(tools: Tools, nodes: Seq<DirNode>, depth: nat) -> Seq<char> {
    text::joined(
        seq!["/codebase"@] + line_texts(
            scope_lines(
                tools,
                tools.root,
                listing::shown_nodes(tools, tools.root, nodes),
                1,
                depth,
            ),
        ),
        "\n"@,
    )
}

/// The lines for the entries at the root of the project.
pub open spec fn root_lines(tools: Tools, items: Seq<DirNode>) -> Seq<Seq<char>> {
    Seq::new(
        items.len(),
        |i: int|
            scope_line(tools.root, paths::below(tools.root, items[i].name@), items[i].is_dir),
    )
}

/// The mark behind a snapshot from which lines were left out.
pub open spec fn cut_mark() -> Seq<char> {
    "... (scope snapshot truncated) ..."@
}

/// Lines behind `tree`, each on a line of its own, as many as leave room for
/// the mark; the mark where not all did.
pub open spec fn capped_lines(tree: Seq<char>, lines: Seq<Seq<char>>) -> Seq<char>
    decreases lines.len(),
{
    if lines.len() == 0 {
        tree
    } else {
        let line = "\n"@ + lines[0];
        if text::size(tree) + text::size(line) + text::size(cut_mark()) + 1 > MAX_TREE_BYTES {
            tree + "\n"@ + cut_mark()
        } else {
            capped_lines(tree + line, lines.skip(1))
        }
    }
}

/// The snapshot that holds no more than the root of the project.
pub open spec fn capped_tree(tools: Tools, nodes: Seq<DirNode>) -> Seq<char> {
    capped_lines(
        "/codebase"@,
        root_lines(tools, listing::shown_nodes(tools, tools.root, nodes)),
    )
}

/// The snapshot at the greatest depth up to `depth` at which it fits.
pub open spec fn snapshot_from(
    tools: Tools,
    nodes: Seq<DirNode>,
    depth: nat,
    target: nat,
) -> Snapshot
    decreases depth,
{
    if depth == 0 {
        let tree = capped_tree(tools, nodes);
        Snapshot { tree, depth: 0, size_bytes: text::size(tree) as usize, fell_back: true }
    } else {
        let tree = scope_tree(tools, nodes, depth);
        if text::size(tree) <= MAX_TREE_BYTES {
            Snapshot {
                tree,
                depth: depth as usize,
                size_bytes: text::size(tree) as usize,
                fell_back: depth < target,
            }
        } else {
            snapshot_from(tools, nodes, (depth - 1) as nat, target)
        }
    }
}

/// The snapshot of a project, given what its root holds where that can be read.
pub open spec fn snapshot(tools: Tools, target_depth: nat, found: Option<Seq<DirNode>>) -> Snapshot {
    match found {
        Some(nodes) => snapshot_from(tools, nodes, target_depth, target_depth),
        None => Snapshot {
            tree: "/codebase\n(empty or inaccessible)"@,
            depth: 0,
            size_bytes: text::size("/codebase\n(empty or inaccessible)"@) as usize,
            fell_back: true,
        },
    }
}

/// What an optional list of entries holds.
pub open spec fn opt_nodes(found: Option<Vec<DirNode>>) -> Option<Seq<DirNode>> {
    match found {
        Some(nodes) => Some(nodes@),
        None => None,
    }
}

/// A line of a scope snapshot and its level.
struct LeveledLine {
    level: usize,
    line: String,
}

/// What leveled lines say.
spec fn leveled(lines: Seq<LeveledLine>) -> Seq<ScopeLine> {
    Seq::new(
        lines.len(),
        |i: int| ScopeLine { level: lines[i].level as nat, line: lines[i].line@ },
    )
}

impl ToolExecutor {
    /// Adds the lines for the entries of `dir`, which are in order.
    fn append_scope_manifest_entries(
        &self,
        lines: &mut Vec<LeveledLine>,
        dir: &str,
        items: Vec<DirNode>,
        level: usize,
        deepest: usize,
    )
        requires
            self.well_formed(),
            executor::is_project_path(self@.root, dir@),
            forall|i: int| 0 <= i < items@.len() ==> paths::is_plain_name((#[trigger] items@[i]).name@),
        ensures
            leveled(final(lines)@) == leveled(old(lines)@) + scope_lines(
                self@,
                dir@,
                items@,
                level as nat,
                deepest as nat,
            ),
        decreases listing::height(items@),
    {
        let ghost start = leveled(lines@);
        if level > deepest {
            assert(leveled(lines@) =~= start + seq![]);
            return;
        }
        let ghost all = items@;
        let ghost mut i: int = 0;
        assert(all.skip(0) =~= all);
        let ghost wanted = scope_lines(self@, dir@, all, level as nat, deepest as nat);
        for node in it: items
            invariant
                it.seq() == all,
                all == items@,
                i == it.index(),
                level <= deepest,
                self.well_formed(),
                executor::is_project_path(self@.root, dir@),
                forall|k: int| 0 <= k < all.len() ==> paths::is_plain_name((#[trigger] all[k]).name@),
                leveled(lines@) + scope_lines(
                    self@,
                    dir@,
                    all.skip(i),
                    level as nat,
                    deepest as nat,
                ) == start + wanted,
        {
            let ghost rest = all.skip(i);
            let ghost before = leveled(lines@);
            let ghost path_text = paths::below(dir@, node.name@);
            proof {
                assert(node == all[i]);
                assert(rest[0] == node);
                assert(rest.skip(1) =~= all.skip(i + 1));
                listing::lemma_node_height(all, all.len() as int, i);
                listing::lemma_shown_height(self@, path_text, node.entries@);
                paths::lemma_below_inside(self@.root, dir@, node.name@);
                paths::lemma_below_tidy(dir@, node.name@);
            }
            let path = paths::join_path(dir, &node.name);
            let line = manifest_line(self.root(), &path, node.is_dir);
            let ghost head = ScopeLine { level: level as nat, line: line@ };
            lines.push(LeveledLine { level, line });
            assert(leveled(lines@) =~= before.push(head));
            let ghost mut inner: Seq<ScopeLine> = seq![];
            if node.is_dir {
                proof {
                    inner = scope_lines(
                        self@,
                        path_text,
                        listing::shown_nodes(self@, path_text, node.entries@),
                        level as nat + 1,
                        deepest as nat,
                    );
                }
                if level < deepest {
                    let below = self.select_nodes(&path, node.entries);
                    self.append_scope_manifest_entries(lines, &path, below, level + 1, deepest);
                } else {
                    assert(inner =~= seq![]);
                }
            }
            proof {
                let tail = scope_lines(
                    self@,
                    dir@,
                    all.skip(i + 1),
                    level as nat,
                    deepest as nat,
                );
                assert(leveled(lines@) =~= before + (seq![head] + inner));
                assert(leveled(lines@) + tail =~= before + (seq![head] + inner + tail));
                i = i + 1;
            }
        }
        assert(all.skip(i) =~= seq![]);
        assert(leveled(lines@) + seq![] =~= leveled(lines@));
    }
}

/// The snapshot made of the lines down to a level.
fn join_lines(lines: &Vec<LeveledLine>, level: usize) -> (r: String)
    ensures
        r@ == text::joined(
            seq!["/codebase"@] + line_texts(down_to(leveled(lines@), level as nat)),
            "\n"@,
        ),
{
    let ghost all = leveled(lines@);
    let mut out: Vec<String> = Vec::new();
    out.push(text::copied("/codebase"));
    let ghost first = seq!["/codebase"@];
    let mut i: usize = 0;
    assert(all.take(0) =~= seq![]);
    assert(text::views(out@) =~= first + line_texts(down_to(all.take(0), level as nat)));
    while i < lines.len()
        invariant
            i <= lines@.len(),
            all == leveled(lines@),
            text::views(out@) == first + line_texts(down_to(all.take(i as int), level as nat)),
        decreases lines@.len() - i,
    {
        let ghost before = text::views(out@);
        proof {
            assert(all.take(i + 1).drop_last() =~= all.take(i as int));
            assert(all.take(i + 1).last() == all[i as int]);
        }
        if lines[i].level <= level {
            out.push(lines[i].line.clone());
            assert(text::views(out@) =~= before.push(all[i as int].line));
        }
        i += 1;
        assert(text::views(out@) =~= first + line_texts(
            down_to(all.take(i as int), level as nat),
        ));
    }
    assert(all.take(i as int) =~= all);
    text::join(&out, "\n")
}

/// The lines for the entries at the root of the project.
fn list_root(executor: &ToolExecutor, items: &Vec<DirNode>) -> (r: Vec<String>)
    ensures
        text::views(r@) == root_lines(executor@, items@),
{
    let ghost all = root_lines(executor@, items@);
    let mut out: Vec<String> = Vec::new();
    let mut i: usize = 0;
    assert(text::views(out@) =~= all.take(0));
    while i < items.len()
        invariant
            i <= items@.len(),
            all == root_lines(executor@, items@),
            text::views(out@) == all.take(i as int),
        decreases items@.len() - i,
    {
        let ghost before = text::views(out@);
        let path = paths::join_path(executor.root(), &items[i].name);
        let line = manifest_line(executor.root(), &path, items[i].is_dir);
        assert(all[i as int] == line@);
        out.push(line);
        assert(text::views(out@) =~= before.push(line@));
        i += 1;
        assert(text::views(out@) =~= all.take(i as int));
    }
    assert(all.take(i as int) =~= all);
    out
}

/// The lines behind the name of the project's root, as many as fit, with a
/// mark where not all did.
pub fn capped_root_manifest(lines: &Vec<String>) -> (r: String)
    ensures
        r@ == capped_lines("/codebase"@, text::views(lines@)),
{
    let suffix = "... (scope snapshot truncated) ...";
    let suffix_len = text::byte_len(suffix);
    let ghost all = text::views(lines@);
    let mut tree = text::copied("/codebase");
    proof {
        lemma_mark_size();
        assert(all.skip(0) =~= all);
    }
    let mut i: usize = 0;
    while i < lines.len()
        invariant
            i <= lines@.len(),
            all == text::views(lines@),
            suffix@ == cut_mark(),
            suffix_len == text::size(cut_mark()),
            suffix_len == 34,
            text::size(tree@) + 35 <= MAX_TREE_BYTES,
            capped_lines(tree@, all.skip(i as int)) == capped_lines("/codebase"@, all),
        decreases lines@.len() - i,
    {
        let ghost rest = all.skip(i as int);
        assert(rest[0] == lines@[i as int]@);
        assert(rest.skip(1) =~= all.skip(i + 1));
        let mut line = text::copied("\n");
        line.append(&lines[i]);
        let room = MAX_TREE_BYTES - text::byte_len(&tree) - suffix_len - 1;
        if text::byte_len(&line) > room {
            tree.append("\n");
            tree.append(suffix);
            return tree;
        }
        proof {
            text::lemma_encode_concat(tree@, line@);
        }
        tree.append(&line);
        i += 1;
    }
    tree
}

/// How many bytes the fixed parts of a capped snapshot take.
proof fn lemma_mark_size()
    ensures
        text::size(cut_mark()) == 34,
        text::size("/codebase"@) == 9,
        text::size("\n"@) == 1,
{
    reveal_strlit("... (scope snapshot truncated) ...");
    reveal_strlit("/codebase");
    reveal_strlit("\n");
    vstd::utf8::is_ascii_chars_encode_utf8(cut_mark());
    vstd::utf8::is_ascii_chars_encode_utf8("/codebase"@);
    vstd::utf8::is_ascii_chars_encode_utf8("\n"@);
}

/// A capped snapshot fits.
proof fn lemma_capped_size(tree: Seq<char>, lines: Seq<Seq<char>>)
    requires
        text::size(tree) + 35 <= MAX_TREE_BYTES,
    ensures
        text::size(capped_lines(tree, lines)) <= MAX_TREE_BYTES,
    decreases lines.len(),
{
    lemma_mark_size();
    if lines.len() > 0 {
        let line = "\n"@ + lines[0];
        text::lemma_encode_concat(tree, "\n"@);
        text::lemma_encode_concat(tree + "\n"@, cut_mark());
        text::lemma_encode_concat(tree, line);
        if text::size(tree) + text::size(line) + text::size(cut_mark()) + 1 <= MAX_TREE_BYTES {
            lemma_capped_size(tree + line, lines.skip(1));
        }
    }
}

/// A snapshot never takes more bytes than it may, says how many it takes, and
/// has fallen back where it is not as deep as it was to be.
pub proof fn law_snapshot_fits(tools: Tools, target_depth: usize, found: Option<Seq<DirNode>>)
    ensures
        ({
            let shown = snapshot(tools, target_depth as nat, found);
            &&& text::size(shown.tree) <= MAX_TREE_BYTES
            &&& shown.size_bytes == text::size(shown.tree)
            &&& shown.depth <= target_depth
            &&& shown.depth < target_depth ==> shown.fell_back
        }),
{
    match found {
        Some(nodes) => {
            lemma_snapshot_fits(tools, nodes, target_depth as nat, target_depth as nat);
        },
        None => {
            reveal_strlit("/codebase\n(empty or inaccessible)");
            vstd::utf8::is_ascii_chars_encode_utf8("/codebase\n(empty or inaccessible)"@);
        },
    }
}

/// The snapshot at the greatest depth at which it fits is one that fits.
proof fn lemma_snapshot_fits(tools: Tools, nodes: Seq<DirNode>, depth: nat, target: nat)
    requires
        depth <= target <= usize::MAX,
    ensures
        ({
            let shown = snapshot_from(tools, nodes, depth, target);
            &&& text::size(shown.tree) <= MAX_TREE_BYTES
            &&& shown.size_bytes == text::size(shown.tree)
            &&& shown.depth <= depth
            &&& shown.depth < target ==> shown.fell_back
        }),
    decreases depth,
{
    if depth == 0 {
        lemma_mark_size();
        lemma_capped_size(
            "/codebase"@,
            root_lines(tools, listing::shown_nodes(tools, tools.root, nodes)),
        );
    } else {
        lemma_snapshot_fits(tools, nodes, (depth - 1) as nat, target);
    }
}

/// The scope snapshot of a project, given what its root holds where that can
/// be read: as deep as fits, and where not even the root fits, as much of the
/// root as does.
pub fn get_repo_map(
    executor: &ToolExecutor,
    target_depth: usize,
    found: Option<Vec<DirNode>>,
) -> (r: RepoMap)
    requires
        executor.well_formed(),
    ensures
        r@ == snapshot(executor@, target_depth as nat, opt_nodes(found)),
{
    let nodes = match found {
        Some(nodes) => nodes,
        None => {
            proof {
                law_snapshot_fits(executor@, target_depth, opt_nodes(found));
            }
            let tree = text::copied("/codebase\n(empty or inaccessible)");
            let size_bytes = text::byte_len(&tree);
            return RepoMap { tree, depth: 0, size_bytes, fell_back: true };
        },
    };
    let ghost tools = executor@;
    let ghost all = nodes@;
    let ghost shown = listing::shown_nodes(tools, tools.root, all);
    proof {
        listing::lemma_shown_height(tools, tools.root, all);
    }
    let items = executor.select_nodes(executor.root(), nodes);
    let capped = list_root(executor, &items);
    let mut lines: Vec<LeveledLine> = Vec::new();
    executor.append_scope_manifest_entries(&mut lines, executor.root(), items, 1, target_depth);
    let ghost deep = scope_lines(tools, tools.root, shown, 1, target_depth as nat);
    assert(leveled(lines@) =~= deep);
    let mut depth: usize = target_depth;
    while depth > 0
        invariant
            depth <= target_depth,
            tools == executor@,
            opt_nodes(found) == Some(all),
            shown == listing::shown_nodes(tools, tools.root, all),
            deep == scope_lines(tools, tools.root, shown, 1, target_depth as nat),
            leveled(lines@) == deep,
            snapshot_from(tools, all, depth as nat, target_depth as nat) == snapshot_from(
                tools,
                all,
                target_depth as nat,
                target_depth as nat,
            ),
        decreases depth,
    {
        proof {
            law_shallow_snapshot_is_part_of_deep_one(
                tools,
                tools.root,
                shown,
                1,
                target_depth as nat,
                depth as nat,
            );
        }
        let tree = join_lines(&lines, depth);
        let size_bytes = text::byte_len(&tree);
        if size_bytes <= MAX_TREE_BYTES {
            return RepoMap { tree, depth, size_bytes, fell_back: depth < target_depth };
        }
        depth -= 1;
    }
    let tree = capped_root_manifest(&capped);
    let size_bytes = text::byte_len(&tree);
    RepoMap { tree, depth: 0, size_bytes, fell_back: true }
}

/// A snapshot lists the entries of a directory one after the other: the path of the entry
/// within the project, with a slash behind a directory, then what lies below it where the
/// snapshot goes deeper, then the other entries.
pub proof fn law_snapshot_lists_every_entry(
    tools: Tools,
    dir: Seq<char>,
    items: Seq<DirNode>,
    level: nat,
    deepest: nat,
)
    requires
        items.len() > 0,
        level <= deepest,
    ensures
        ({
            let node = items[0];
            let path = paths::below(dir, node.name@);
            let lines = scope_lines(tools, dir, items, level, deepest);
            let rest = scope_lines(tools, dir, items.skip(1), level, deepest);
            let below = if node.is_dir {
                scope_lines(
                    tools,
                    path,
                    listing::shown_nodes(tools, path, node.entries@),
                    level + 1,
                    deepest,
                )
            } else {
                seq![]
            };
            &&& lines.len() == 1 + below.len() + rest.len()
            &&& lines[0].level == level
            &&& lines[0].line == paths::slashed(paths::seen_from(tools.root, path)) + (
            if node.is_dir {
                seq!['/']
            } else {
                seq![]
            })
            &&& lines.skip(1) == below + rest
        }),
{
    reveal_strlit("/");
    reveal_strlit("");
    assert("/"@ =~= seq!['/']);
    assert(""@ =~= seq![]);
}

/// Nothing is listed deeper than the snapshot goes.
pub proof fn law_snapshot_ends(
    tools: Tools,
    dir: Seq<char>,
    items: Seq<DirNode>,
    level: nat,
    deepest: nat,
)
    ensures
        level > deepest ==> scope_lines(tools, dir, items, level, deepest).len() == 0,
        scope_lines(tools, dir, seq![], level, deepest).len() == 0,
{
}

/// The snapshot goes as deep as it may: it is the whole tree down to the greatest depth, up
/// to the one that is asked for, on which it fits, and says whether that is less than was
/// asked for. Where it fits on none, only the top of the project is listed.
pub proof fn law_snapshot_goes_as_deep_as_it_fits(
    tools: Tools,
    nodes: Seq<DirNode>,
    target: nat,
    depth: nat,
)
    requires
        depth <= target <= usize::MAX,
        forall|deeper: nat|
            depth < deeper <= target ==> text::size(#[trigger] scope_tree(tools, nodes, deeper))
                > MAX_TREE_BYTES,
        depth > 0 ==> text::size(scope_tree(tools, nodes, depth)) <= MAX_TREE_BYTES,
    ensures
        ({
            let shown = snapshot(tools, target, Some(nodes));
            &&& shown.depth == depth
            &&& shown.fell_back == (depth < target || depth == 0)
            &&& depth > 0 ==> shown.tree == scope_tree(tools, nodes, depth)
            &&& depth == 0 ==> shown.tree == capped_tree(tools, nodes)
            &&& depth > 0 ==> shown.tree == text::joined(
                seq!["/codebase"@] + scope_lines(
                    tools,
                    tools.root,
                    listing::shown_nodes(tools, tools.root, nodes),
                    1,
                    depth,
                ).map_values(|line: ScopeLine| line.line),
                seq!['\n'],
            )
        }),
{
    lemma_snapshot_goes_down(tools, nodes, target, target, depth);
    reveal_strlit("\n");
    assert("\n"@ =~= seq!['\n']);
    let lines = scope_lines(
        tools,
        tools.root,
        listing::shown_nodes(tools, tools.root, nodes),
        1,
        depth,
    );
    assert(lines.map_values(|line: ScopeLine| line.line) =~= line_texts(lines));
}

/// A snapshot that does not fit is tried one level higher.
proof fn lemma_snapshot_goes_down(
    tools: Tools,
    nodes: Seq<DirNode>,
    from: nat,
    target: nat,
    depth: nat,
)
    requires
        depth <= from <= target <= usize::MAX,
        forall|deeper: nat|
            depth < deeper <= from ==> text::size(#[trigger] scope_tree(tools, nodes, deeper))
                > MAX_TREE_BYTES,
        depth > 0 ==> text::size(scope_tree(tools, nodes, depth)) <= MAX_TREE_BYTES,
    ensures
        ({
            let shown = snapshot_from(tools, nodes, from, target);
            &&& shown.depth == depth
            &&& shown.fell_back == (depth < target || depth == 0)
            &&& depth > 0 ==> shown.tree == scope_tree(tools, nodes, depth)
            &&& depth == 0 ==> shown.tree == capped_tree(tools, nodes)
        }),
    decreases from,
{
    if from > depth {
        assert(text::size(scope_tree(tools, nodes, from)) > MAX_TREE_BYTES);
        lemma_snapshot_goes_down(tools, nodes, (from - 1) as nat, target, depth);
    }
}

/// Lines, each behind a line end.
pub open spec fn behind_line_ends(lines: Seq<Seq<char>>) -> Seq<char> {
    lines.map_values(|line: Seq<char>| seq!['\n'] + line).flatten()
}

/// A list that is too long is cut at a line and marked: `kept` lines stay, all that leave
/// room for the mark.
pub proof fn law_long_lists_are_cut_at_a_line(tree: Seq<char>, lines: Seq<Seq<char>>, kept: int)
    requires
        0 <= kept <= lines.len(),
        forall|k: int|
            0 < k <= kept ==> text::size(tree + behind_line_ends(#[trigger] lines.take(k)))
                + text::size(cut_mark()) + 1 <= MAX_TREE_BYTES,
        kept < lines.len() ==> text::size(tree + behind_line_ends(lines.take(kept + 1)))
            + text::size(cut_mark()) + 1 > MAX_TREE_BYTES,
    ensures
        capped_lines(tree, lines) == tree + behind_line_ends(lines.take(kept)) + (if kept
            < lines.len() {
            seq!['\n'] + "... (scope snapshot truncated) ..."@
        } else {
            seq![]
        }),
    decreases lines.len(),
{
    reveal_strlit("\n");
    assert("\n"@ =~= seq!['\n']);
    let shown = |line: Seq<char>| seq!['\n'] + line;
    if lines.len() == 0 {
        assert(lines.take(kept).map_values(shown) =~= seq![]);
        assert(tree + behind_line_ends(lines.take(kept)) + Seq::<char>::empty() =~= tree);
    } else {
        let line = seq!['\n'] + lines[0];
        let rest = lines.skip(1);
        text::lemma_encode_concat(tree, line);
        assert(behind_line_ends(lines.take(1)) =~= line) by {
            assert(lines.take(1).map_values(shown) =~= seq![line]);
            assert(seq![line].drop_first() =~= seq![]);
            seq![line].lemma_flatten_one_element();
        }
        if kept == 0 {
            assert(lines.take(0).map_values(shown) =~= seq![]);
            assert(tree + behind_line_ends(lines.take(0)) =~= tree);
            assert(tree + seq!['\n'] + cut_mark() =~= tree + (seq!['\n'] + cut_mark()));
        } else {
            assert(text::size(tree + behind_line_ends(lines.take(1))) + text::size(cut_mark()) + 1
                <= MAX_TREE_BYTES);
            assert forall|k: int| 0 <= k <= rest.len() implies tree + line + behind_line_ends(
                #[trigger] rest.take(k),
            ) == tree + behind_line_ends(lines.take(k + 1)) by {
                let all = lines.take(k + 1).map_values(shown);
                assert(all.drop_first() =~= rest.take(k).map_values(shown));
                assert(all.first() == line);
                assert(tree + line + behind_line_ends(rest.take(k)) =~= tree + (line
                    + behind_line_ends(rest.take(k))));
            }
            assert forall|k: int| 0 < k <= kept - 1 implies text::size(
                tree + line + behind_line_ends(#[trigger] rest.take(k)),
            ) + text::size(cut_mark()) + 1 <= MAX_TREE_BYTES by {
                assert(text::size(tree + behind_line_ends(lines.take(k + 1))) + text::size(
                    cut_mark(),
                ) + 1 <= MAX_TREE_BYTES);
            }
            if kept < lines.len() {
                assert(tree + line + behind_line_ends(rest.take(kept)) == tree + behind_line_ends(
                    lines.take(kept + 1),
                ));
            }
            law_long_lists_are_cut_at_a_line(tree + line, rest, kept - 1);
            assert(tree + line + behind_line_ends(rest.take(kept - 1)) == tree + behind_line_ends(
                lines.take(kept),
            ));
        }
    }
}

/// The top of the project is listed entry by entry, with a slash behind a directory.
pub proof fn law_top_lists_every_entry(tools: Tools, nodes: Seq<DirNode>)
    ensures
        capped_tree(tools, nodes) == capped_lines(
            "/codebase"@,
            listing::shown_nodes(tools, tools.root, nodes).map_values(
                |node: DirNode|
                    paths::slashed(
                        paths::seen_from(tools.root, paths::below(tools.root, node.name@)),
                    ) + (if node.is_dir {
                        seq!['/']
                    } else {
                        seq![]
                    }),
            ),
        ),
{
    reveal_strlit("/");
    reveal_strlit("");
    assert("/"@ =~= seq!['/']);
    assert(""@ =~= seq![]);
    let items = listing::shown_nodes(tools, tools.root, nodes);
    assert(items.map_values(
        |node: DirNode|
            paths::slashed(paths::seen_from(tools.root, paths::below(tools.root, node.name@))) + (
            if node.is_dir {
                seq!['/']
            } else {
                seq![]
            }),
    ) =~= root_lines(tools, items));
}

/// Of a project that cannot be read the snapshot says so.
pub proof fn law_unreadable_project_is_told(tools: Tools, target: nat)
    ensures
        ({
            let shown = snapshot(tools, target, None);
            &&& shown.tree == "/codebase\n(empty or inaccessible)"@
            &&& shown.depth == 0
            &&& shown.fell_back
        }),
{
}

} // verus!
