//! How the turns of a search are counted, and what is said of them.
use crate::output;
use crate::repo::{RepoMap, Snapshot};
use crate::text;
use crate::types::{Meta, SearchMeta};
use vstd::prelude::*;

verus! {

/// The number of turns that a search gets in place of those in which the model
/// gave no command.
pub const MAX_COMPENSATED_TURNS: usize = 2;

/// The number of turns that count when the given turn ends: those that were
/// made up for do not.
pub open spec fn turns_counted(turn: nat, compensated: nat) -> nat {
    if turn + 1 >= compensated {
        (turn + 1 - compensated) as nat
    } else {
        0
    }
}

/// The number of turns that count, but no more than there may be.
pub open spec fn turns_used(turn: nat, compensated: nat, max_turns: nat) -> nat {
    if turns_counted(turn, compensated) <= max_turns {
        turns_counted(turn, compensated)
    } else {
        max_turns
    }
}

/// The number of turns that count when the given turn ends.
pub fn count_turns(turn: usize, compensated_turns: usize) -> (r: usize)
    requires
        turn < usize::MAX,
    ensures
        r == turns_counted(turn as nat, compensated_turns as nat),
{
    if turn + 1 >= compensated_turns {
        turn + 1 - compensated_turns
    } else {
        0
    }
}

/// The number of turns that count, but no more than there may be.
pub fn effective_turns_used(turn: usize, compensated_turns: usize, max_turns: usize) -> (r: usize)
    requires
        turn < usize::MAX,
    ensures
        r == turns_used(turn as nat, compensated_turns as nat, max_turns as nat),
{
    let counted = count_turns(turn, compensated_turns);
    if counted <= max_turns {
        counted
    } else {
        max_turns
    }
}

/// What the model is told of the turns.
pub open spec fn turn_status(used: nat, max_turns: nat) -> Seq<char> {
    "Search turns used: "@ + text::decimal(used) + ". Search turns remaining: "@ + text::decimal(
        if used <= max_turns {
            (max_turns - used) as nat
        } else {
            0
        },
    ) + "."@
}

/// What the model is told of the turns.
pub fn format_search_turn_status(used: usize, max_turns: usize) -> (r: String)
    ensures
        r@ == turn_status(used as nat, max_turns as nat),
{
    let used_digits = text::decimal_usize(used);
    let left = text::decimal_usize(
        if used <= max_turns {
            max_turns - used
        } else {
            0
        },
    );
    let mut out = text::copied("Search turns used: ");
    out.append(&used_digits);
    out.append(". Search turns remaining: ");
    out.append(&left);
    out.append(".");
    out
}

/// Whether a turn is one that makes up for another.
pub open spec fn makes_up(turn: nat, compensated: nat, max_turns: nat) -> bool {
    compensated > 0 && turns_counted(turn, compensated) >= max_turns
}

/// Whether a turn is one that makes up for another.
pub fn is_compensation_turn(turn: usize, compensated_turns: usize, max_turns: usize) -> (r: bool)
    requires
        turn < usize::MAX,
    ensures
        r == makes_up(turn as nat, compensated_turns as nat, max_turns as nat),
{
    compensated_turns > 0 && count_turns(turn, compensated_turns) >= max_turns
}

/// Which turn of how many it is.
pub open spec fn turn_ref(turn: nat, compensated: nat, max_turns: nat) -> Seq<char> {
    let limit = if max_turns < 1 {
        1
    } else {
        max_turns
    };
    let counted = turns_counted(turn, compensated);
    let used = if counted < 1 {
        1
    } else if counted > limit {
        limit
    } else {
        counted
    };
    text::decimal(used) + "/"@ + text::decimal(limit)
}

/// Which turn of how many it is.
pub fn format_search_turn_ref(turn: usize, compensated_turns: usize, max_turns: usize) -> (r:
    String)
    requires
        turn < usize::MAX,
    ensures
        r@ == turn_ref(turn as nat, compensated_turns as nat, max_turns as nat),
{
    let limit = if max_turns < 1 {
        1
    } else {
        max_turns
    };
    let counted = count_turns(turn, compensated_turns);
    let used = if counted < 1 {
        1
    } else if counted > limit {
        limit
    } else {
        counted
    };
    let mut out = text::decimal_usize(used);
    let digits = text::decimal_usize(limit);
    out.append("/");
    out.append(&digits);
    out
}

/// What is shown when a turn starts.
pub open spec fn progress_line(turn: nat, compensated: nat, max_turns: nat, forced: bool) -> Seq<
    char,
> {
    if forced {
        "Final answer turn"@
    } else if makes_up(turn, compensated, max_turns) {
        "Compensation turn "@ + text::decimal(compensated) + "/2"@
    } else {
        "Turn "@ + turn_ref(turn, compensated, max_turns)
    }
}

/// What is shown when a turn starts.
pub fn format_search_progress_turn(
    turn: usize,
    compensated_turns: usize,
    max_turns: usize,
    force_answer_injected: bool,
) -> (r: String)
    requires
        turn < usize::MAX,
    ensures
        r@ == progress_line(
            turn as nat,
            compensated_turns as nat,
            max_turns as nat,
            force_answer_injected,
        ),
{
    if force_answer_injected {
        return text::copied("Final answer turn");
    }
    if is_compensation_turn(turn, compensated_turns, max_turns) {
        let mut out = text::copied("Compensation turn ");
        let digits = text::decimal_usize(compensated_turns);
        out.append(&digits);
        out.append("/2");
        return out;
    }
    let mut out = text::copied("Turn ");
    let place = format_search_turn_ref(turn, compensated_turns, max_turns);
    out.append(&place);
    out
}

/// The first question to the model.
pub open spec fn user_content(query: Seq<char>, map: Snapshot) -> Seq<char> {
    "Workspace scope snapshot (depth "@ + text::decimal(map.depth as nat) + "):\n```text\n"@
        + map.tree + "\n```\n\nPlease find the code context for the query: \"("@ + query
        + ")\". Constrain search to directory: \"(/codebase)\"."@
}

/// The first question to the model.
pub fn build_user_content(query: &str, repo_map: &RepoMap) -> (r: String)
    ensures
        r@ == user_content(query@, repo_map@),
{
    let digits = text::decimal_usize(repo_map.depth);
    let mut out = text::copied("Workspace scope snapshot (depth ");
    out.append(&digits);
    out.append("):\n```text\n");
    out.append(&repo_map.tree);
    out.append("\n```\n\nPlease find the code context for the query: \"(");
    out.append(query);
    out.append(")\". Constrain search to directory: \"(/codebase)\".");
    out
}

/// A size in bytes in tenths of a kilobyte, rounded to the nearest, halves up.
pub open spec fn size_tenths(size: nat) -> nat {
    (size * 20 + 1024) / 2048
}

/// The circumstances of a search.
pub open spec fn meta_of(
    project_root: Seq<char>,
    map: Snapshot,
    error_code: Option<Seq<char>>,
) -> Meta {
    Meta {
        tree_depth: Some(map.depth),
        tree_size_tenths_kb: Some(size_tenths(map.size_bytes as nat) as u64),
        fell_back: Some(map.fell_back),
        project_root: Some(project_root),
        error_code,
        context_trimmed: None,
        instant_context: Some(true),
    }
}

/// The circumstances of a search.
pub fn search_meta(project_root: &str, repo_map: &RepoMap, error_code: Option<&str>) -> (r:
    SearchMeta)
    ensures
        r@ == meta_of(project_root@, repo_map@, text::opt_str_view(error_code)),
        r@.tree_size_tenths_kb == Some(size_tenths(repo_map.size_bytes as nat) as u64)
            && size_tenths(repo_map.size_bytes as nat) <= u64::MAX,
{
    let tenths = (repo_map.size_bytes as u128 * 20 + 1024) / 2048;
    SearchMeta {
        tree_depth: Some(repo_map.depth),
        tree_size_tenths_kb: Some(tenths as u64),
        fell_back: Some(repo_map.fell_back),
        project_root: Some(text::copied(project_root)),
        error_code: match error_code {
            Some(code) => Some(text::copied(code)),
            None => None,
        },
        context_trimmed: None,
        instant_context: Some(true),
    }
}

/// A size in bytes in tenths of a kilobyte, rounded to the nearest, halves to
/// the even one.
pub open spec fn shown_tenths(size: nat) -> nat {
    let whole = size * 10 / 1024;
    let rest = size * 10 % 1024;
    if rest > 512 || (rest == 512 && whole % 2 == 1) {
        whole + 1
    } else {
        whole
    }
}

/// What is shown of the scope snapshot.
pub open spec fn repo_map_line(map: Snapshot) -> Seq<char> {
    "Repo map: scope snapshot depth "@ + text::decimal(map.depth as nat) + " ("@
        + output::tenths_text(shown_tenths(map.size_bytes as nat) as u64) + "KB)"@ + (
    if map.fell_back {
        " [fell back]"@
    } else {
        ""@
    })
}

/// What is shown of the scope snapshot.
pub fn format_repo_map_line(repo_map: &RepoMap) -> (r: String)
    ensures
        r@ == repo_map_line(repo_map@),
{
    let tenfold = repo_map.size_bytes as u128 * 10;
    let whole = tenfold / 1024;
    let rest = tenfold % 1024;
    let tenths = if rest > 512 || (rest == 512 && whole % 2 == 1) {
        whole + 1
    } else {
        whole
    };
    let digits = text::decimal_usize(repo_map.depth);
    let size = output::format_tenths(tenths as u64);
    let mut out = text::copied("Repo map: scope snapshot depth ");
    out.append(&digits);
    out.append(" (");
    out.append(&size);
    out.append("KB)");
    out.append(
        if repo_map.fell_back {
            " [fell back]"
        } else {
            ""
        },
    );
    out
}

/// The model is told how many turns it has used and how many it has left, which together
/// are all that it has.
pub proof fn law_turns_used_and_left_add_up(used: nat, left: nat)
    ensures
        turn_status(used, used + left) == "Search turns used: "@ + text::decimal(used)
            + ". Search turns remaining: "@ + text::decimal(left) + "."@,
{
}

/// The turns that count are those that were made, without those that were given back, and
/// never more than there are.
pub proof fn law_turns_are_counted(turn: nat, compensated: nat, max_turns: nat)
    requires
        compensated <= turn + 1,
    ensures
        turns_counted(turn, compensated) == turn + 1 - compensated,
        turns_used(turn, compensated, max_turns) == vstd::math::min(
            turn + 1 - compensated,
            max_turns as int,
        ),
        turns_counted(turn + 1, compensated + 1) == turns_counted(turn, compensated),
{
}

/// The line for a turn says which of the turns it is; that a turn is made up for, where
/// turns were given back and all others are used; and that it is the last one, once an
/// answer was demanded.
pub proof fn law_progress_tells_the_turn(turn: nat, compensated: nat, max_turns: nat)
    requires
        compensated <= turn,
        max_turns > 0,
    ensures
        ({
            let counted = turn + 1 - compensated;
            &&& progress_line(turn, compensated, max_turns, true) == "Final answer turn"@
            &&& compensated > 0 && counted >= max_turns ==> progress_line(
                turn,
                compensated,
                max_turns,
                false,
            ) == "Compensation turn "@ + text::decimal(compensated) + "/2"@
            &&& compensated == 0 || counted < max_turns ==> progress_line(
                turn,
                compensated,
                max_turns,
                false,
            ) == "Turn "@ + (text::decimal(vstd::math::min(counted, max_turns as int) as nat) + "/"@
                + text::decimal(max_turns))
        }),
{
}

/// The query and the snapshot reach the model as they are.
pub proof fn law_query_and_snapshot_are_sent(query: Seq<char>, map: Snapshot)
    ensures
        text::contains(user_content(query, map), query),
        text::contains(user_content(query, map), map.tree),
{
    let all = user_content(query, map);
    let head = "Workspace scope snapshot (depth "@ + text::decimal(map.depth as nat)
        + "):\n```text\n"@;
    let middle = head + map.tree
        + "\n```\n\nPlease find the code context for the query: \"("@;
    let n = head.len() as int;
    let m = middle.len() as int;
    assert(all.subrange(n, n + map.tree.len()) =~= map.tree);
    assert(all.subrange(m, m + query.len()) =~= query);
    assert(text::occurs_at(all, map.tree, n));
    assert(text::occurs_at(all, query, m));
}

/// Sizes are told in tenths of kilobytes, to the nearest: what is told is off by no more
/// than half a tenth.
pub proof fn law_sizes_are_rounded(size: nat)
    ensures
        -1024 <= size_tenths(size) * 2048 - size * 20 <= 1024,
        -512 <= shown_tenths(size) * 1024 - size * 10 <= 512,
{
}

/// What is reported of a search tells how deep and how large its snapshot was and whether
/// it fell back, where it ran, and how it failed.
pub proof fn law_reports_tell_of_the_snapshot(
    root: Seq<char>,
    map: Snapshot,
    code: Option<Seq<char>>,
)
    ensures
        ({
            let meta = meta_of(root, map, code);
            &&& meta.tree_depth == Some(map.depth)
            &&& meta.fell_back == Some(map.fell_back)
            &&& meta.project_root == Some(root)
            &&& meta.error_code == code
            &&& meta.context_trimmed is None
        }),
{
}

/// The line on the snapshot tells how deep it goes, how large it is and whether it fell back.
pub proof fn law_line_tells_of_the_snapshot(map: Snapshot)
    ensures
        ({
            let told = "Repo map: scope snapshot depth "@ + text::decimal(map.depth as nat) + " ("@
                + output::tenths_text(shown_tenths(map.size_bytes as nat) as u64) + "KB)"@;
            &&& map.fell_back ==> repo_map_line(map) == told + " [fell back]"@
            &&& !map.fell_back ==> repo_map_line(map) == told
        }),
{
    reveal_strlit("");
    assert(""@ =~= Seq::<char>::empty());
}

} // verus!
