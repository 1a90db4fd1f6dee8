//! Paths as sequences of parts, with `/` between them.
//!
//! A path of Windows is brought into this form by `unify`, which turns its backslashes
//! into slashes: a drive is then the first name of the path, and what is said here of
//! parts holds of it too. `normalize_on` does so by itself. Only `join_on` and
//! `parent_on` work on paths as Windows writes them. Network paths are not told from
//! paths that start at the root.
use crate::text;
use vstd::prelude::*;

verus! {

/// A part of a path: the root, the current or the parent directory, or a name.
#[verifier::ext_equal]
pub enum Part {
    Root,
    Cur,
    Parent,
    Name(Seq<char>),
}

/// What piece `index` of a path adds to its parts. Nothing comes of an empty
/// piece, nor of a dot that does not start a relative path.
pub open spec fn piece_parts(piece: Seq<char>, index: int, rooted: bool) -> Seq<Part> {
    if piece.len() == 0 {
        seq![]
    } else if piece == seq!['.'] {
        if index == 0 && !rooted {
            seq![Part::Cur]
        } else {
            seq![]
        }
    } else if piece == seq!['.', '.'] {
        seq![Part::Parent]
    } else {
        seq![Part::Name(piece)]
    }
}

/// What the pieces of a path add to its parts.
pub open spec fn pieces_parts(pieces: Seq<Seq<char>>, rooted: bool) -> Seq<Part>
    decreases pieces.len(),
{
    if pieces.len() == 0 {
        seq![]
    } else {
        pieces_parts(pieces.drop_last(), rooted) + piece_parts(
            pieces.last(),
            pieces.len() - 1,
            rooted,
        )
    }
}

/// Whether a path starts at the root.
pub open spec fn is_rooted(path: Seq<char>) -> bool {
    path.len() > 0 && path[0] == '/'
}

/// The parts of a path.
pub open spec fn parts(path: Seq<char>) -> Seq<Part> {
    (if is_rooted(path) {
        seq![Part::Root]
    } else {
        seq![]
    }) + pieces_parts(text::split(path, '/'), is_rooted(path))
}

/// A part of a path.
#[derive(Debug, Clone, PartialEq, Eq)]
pub enum PathPart {
    Root,
    Cur,
    Parent,
    Name(String),
}

impl View for PathPart {
    type V = Part;

    open spec fn view(&self) -> Part {
        match self {
            PathPart::Root => Part::Root,
            PathPart::Cur => Part::Cur,
            PathPart::Parent => Part::Parent,
            PathPart::Name(name) => Part::Name(name@),
        }
    }
}

/// What parts of a path stand for.
pub open spec fn parts_view(found: Seq<PathPart>) -> Seq<Part> {
    Seq::new(found.len(), |i: int| found[i]@)
}

/// Whether a path starts at the root.
pub fn has_root(path: &str) -> (r: bool)
    ensures
        r == is_rooted(path@),
{
    let chars = text::chars_of(path);
    chars.len() > 0 && chars[0] == '/'
}

/// The parts of a path.
pub fn split_path(path: &str) -> (r: Vec<PathPart>)
    ensures
        parts_view(r@) == parts(path@),
{
    let rooted = has_root(path);
    let pieces = text::split_on(path, '/');
    let ghost all = text::views(pieces@);
    let mut out: Vec<PathPart> = Vec::new();
    if rooted {
        out.push(PathPart::Root);
    }
    let ghost head = parts_view(out@);
    let mut i: usize = 0;
    proof {
        reveal_strlit(".");
        reveal_strlit("..");
        assert("."@ =~= seq!['.']);
        assert(".."@ =~= seq!['.', '.']);
        assert(all.take(0) =~= seq![]);
        assert(parts_view(out@) =~= head + pieces_parts(all.take(0), rooted));
    }
    while i < pieces.len()
        invariant
            "."@ == seq!['.'],
            ".."@ == seq!['.', '.'],
            i <= pieces@.len(),
            all == text::views(pieces@),
            parts_view(out@) == head + pieces_parts(all.take(i as int), rooted),
        decreases pieces@.len() - i,
    {
        let ghost before = parts_view(out@);
        proof {
            assert(all.take(i + 1).drop_last() =~= all.take(i as int));
            assert(all.take(i + 1).last() == pieces@[i as int]@);
        }
        let piece = &pieces[i];
        if piece.as_str().is_empty() {
        } else if text::same(piece, ".") {
            if i == 0 && !rooted {
                out.push(PathPart::Cur);
            }
        } else if text::same(piece, "..") {
            out.push(PathPart::Parent);
        } else {
            out.push(PathPart::Name(piece.clone()));
        }
        assert(parts_view(out@) =~= before + piece_parts(piece@, i as int, rooted));
        assert(parts_view(out@) =~= head + pieces_parts(all.take(i + 1), rooted));
        i += 1;
    }
    assert(all.take(i as int) =~= all);
    assert(head =~= if rooted {
        seq![Part::Root]
    } else {
        seq![]
    });
    out
}

/// The empty path has no parts.
pub proof fn lemma_parts_of_nothing()
    ensures
        parts(seq![]) == Seq::<Part>::empty(),
{
    let pieces = text::split(Seq::<char>::empty(), '/');
    assert(pieces.drop_last() =~= seq![]);
    assert(pieces_parts(pieces.drop_last(), false) =~= seq![]);
    assert(pieces_parts(pieces, false) =~= seq![]);
    assert(parts(Seq::<char>::empty()) =~= seq![]);
}

/// How a part other than the root is written.
pub open spec fn part_text(part: Part) -> Seq<char> {
    match part {
        Part::Root => seq![],
        Part::Cur => seq!['.'],
        Part::Parent => seq!['.', '.'],
        Part::Name(name) => name,
    }
}

/// The texts of the given parts.
pub open spec fn part_texts(list: Seq<Part>) -> Seq<Seq<char>> {
    Seq::new(list.len(), |i: int| part_text(list[i]))
}

/// How a sequence of parts is written: the root as a leading slash, the others
/// with a slash between each two.
pub open spec fn parts_text(list: Seq<Part>) -> Seq<char> {
    if list.len() > 0 && list[0] is Root {
        seq!['/'] + text::joined(part_texts(list.skip(1)), seq!['/'])
    } else {
        text::joined(part_texts(list), seq!['/'])
    }
}

/// How the parts `from..` are written.
pub fn write_parts(list: &Vec<PathPart>, from: usize) -> (r: String)
    requires
        from <= list@.len(),
    ensures
        r@ == parts_text(parts_view(list@).skip(from as int)),
{
    let ghost shown = parts_view(list@).skip(from as int);
    let mut names: Vec<String> = Vec::new();
    let mut start = from;
    let mut rooted = false;
    if from < list.len() {
        if let PathPart::Root = &list[from] {
            rooted = true;
            start = from + 1;
        }
    }
    proof {
        reveal_strlit(".");
        reveal_strlit("..");
        reveal_strlit("");
        reveal_strlit("/");
        assert("."@ =~= seq!['.']);
        assert(".."@ =~= seq!['.', '.']);
        assert(""@ =~= seq![]);
        assert("/"@ =~= seq!['/']);
    }
    let mut i: usize = start;
    while i < list.len()
        invariant
            "."@ == seq!['.'],
            ".."@ == seq!['.', '.'],
            ""@ == Seq::<char>::empty(),
            start <= i <= list@.len(),
            names@.len() == i - start,
            forall|k: int|
                0 <= k < names@.len() ==> (#[trigger] names@[k])@ == part_text(list@[start + k]@),
        decreases list@.len() - i,
    {
        let name = match &list[i] {
            PathPart::Root => text::copied(""),
            PathPart::Cur => text::copied("."),
            PathPart::Parent => text::copied(".."),
            PathPart::Name(name) => name.clone(),
        };
        names.push(name);
        i += 1;
    }
    let body = text::join(&names, "/");
    if rooted {
        assert(text::views(names@) =~= part_texts(shown.skip(1)));
        let mut out = text::copied("/");
        out.append(&body);
        out
    } else {
        assert(text::views(names@) =~= part_texts(shown));
        body
    }
}

/// Whether `path` is `base` or lies below it, by their parts.
pub open spec fn is_inside(base: Seq<char>, path: Seq<char>) -> bool {
    parts(base).is_prefix_of(parts(path))
}

/// Whether the two parts are the same.
fn same_part(a: &PathPart, b: &PathPart) -> (r: bool)
    ensures
        r == (a@ == b@),
{
    match (a, b) {
        (PathPart::Root, PathPart::Root) => true,
        (PathPart::Cur, PathPart::Cur) => true,
        (PathPart::Parent, PathPart::Parent) => true,
        (PathPart::Name(x), PathPart::Name(y)) => text::same(x, y),
        _ => false,
    }
}

/// Whether `whole` starts with `front`.
fn parts_start_with(whole: &Vec<PathPart>, front: &Vec<PathPart>) -> (r: bool)
    ensures
        r == parts_view(front@).is_prefix_of(parts_view(whole@)),
{
    if front.len() > whole.len() {
        return false;
    }
    let mut i: usize = 0;
    while i < front.len()
        invariant
            i <= front@.len() <= whole@.len(),
            forall|k: int| 0 <= k < i ==> (#[trigger] front@[k])@ == whole@[k]@,
        decreases front@.len() - i,
    {
        if !same_part(&front[i], &whole[i]) {
            assert(parts_view(whole@).subrange(0, front@.len() as int)[i as int]
                != parts_view(front@)[i as int]);
            return false;
        }
        i += 1;
    }
    assert(parts_view(whole@).subrange(0, front@.len() as int) =~= parts_view(front@));
    true
}

/// Whether `path` is `base` or lies below it, by their parts.
pub fn starts_with_path(path: &str, base: &str) -> (r: bool)
    ensures
        r == is_inside(base@, path@),
{
    let whole = split_path(path);
    let front = split_path(base);
    parts_start_with(&whole, &front)
}

/// `path` without the slashes and the dots at its end that mean nothing.
pub open spec fn without_end(path: Seq<char>) -> Seq<char>
    decreases path.len(),
{
    if path.len() > 1 && (path.last() == '/' || path.last() == '.' && path[path.len() - 2] == '/') {
        without_end(path.drop_last())
    } else {
        path
    }
}

/// What follows in a path, from the next part on: without the slashes before it and
/// the dots that mean nothing.
pub open spec fn from_part(rest: Seq<char>) -> Seq<char>
    decreases rest.len(),
{
    if rest.len() > 0 && rest[0] == '/' {
        from_part(rest.skip(1))
    } else if rest == seq!['.'] {
        seq![]
    } else if rest.len() > 1 && rest[0] == '.' && rest[1] == '/' {
        from_part(rest.skip(1))
    } else {
        rest
    }
}

/// What follows behind the part that a path starts with.
pub open spec fn behind_part(rest: Seq<char>) -> Seq<char>
    decreases rest.len(),
{
    if rest.len() == 0 || rest[0] == '/' {
        rest
    } else {
        behind_part(rest.skip(1))
    }
}

/// What follows in a path behind the next `n` parts.
pub open spec fn behind_parts(rest: Seq<char>, n: nat) -> Seq<char>
    decreases n,
{
    if n == 0 {
        rest
    } else {
        behind_parts(behind_part(from_part(rest)), (n - 1) as nat)
    }
}

/// What follows in a path behind its first part.
pub open spec fn behind_first(path: Seq<char>) -> Seq<char> {
    if is_rooted(path) {
        path.skip(1)
    } else {
        behind_part(path)
    }
}

/// The text of a path behind its first `n` parts, as it is written there.
pub open spec fn remaining(path: Seq<char>, n: nat) -> Seq<char> {
    if n == 0 {
        without_end(path)
    } else {
        without_end(from_part(behind_parts(behind_first(path), (n - 1) as nat)))
    }
}

/// Where the next part starts.
fn skip_to_part(chars: &Vec<char>, at: usize) -> (r: usize)
    requires
        at <= chars@.len(),
    ensures
        at <= r <= chars@.len(),
        chars@.skip(r as int) == from_part(chars@.skip(at as int)),
{
    let mut i: usize = at;
    while i < chars.len()
        invariant_except_break
            at <= i <= chars@.len(),
            from_part(chars@.skip(i as int)) == from_part(chars@.skip(at as int)),
        ensures
            at <= i <= chars@.len(),
            chars@.skip(i as int) == from_part(chars@.skip(at as int)),
        decreases chars@.len() - i,
    {
        let ghost here = chars@.skip(i as int);
        assert(here[0] == chars@[i as int]);
        assert(here.skip(1) =~= chars@.skip(i + 1));
        if chars[i] == '/' {
            i += 1;
        } else if chars[i] == '.' && i + 1 == chars.len() {
            assert(here =~= seq!['.']);
            i += 1;
            assert(chars@.skip(i as int) =~= seq![]);
        } else if chars[i] == '.' && chars[i + 1] == '/' {
            assert(here[1] == chars@[i + 1]);
            i += 1;
        } else {
            proof {
                if here == seq!['.'] {
                    assert(here.len() == 1);
                }
                if here.len() > 1 {
                    assert(here[1] == chars@[i + 1]);
                }
            }
            break;
        }
    }
    i
}

/// Where the part that starts at `at` ends.
fn skip_part(chars: &Vec<char>, at: usize) -> (r: usize)
    requires
        at <= chars@.len(),
    ensures
        at <= r <= chars@.len(),
        chars@.skip(r as int) == behind_part(chars@.skip(at as int)),
{
    let mut i: usize = at;
    while i < chars.len() && chars[i] != '/'
        invariant
            at <= i <= chars@.len(),
            behind_part(chars@.skip(i as int)) == behind_part(chars@.skip(at as int)),
        decreases chars@.len() - i,
    {
        assert(chars@.skip(i as int)[0] == chars@[i as int]);
        assert(chars@.skip(i as int).skip(1) =~= chars@.skip(i + 1));
        i += 1;
    }
    proof {
        if i < chars@.len() {
            assert(chars@.skip(i as int)[0] == chars@[i as int]);
        }
    }
    i
}

/// Where the text from `from` on ends, before what means nothing.
fn cut_end(chars: &Vec<char>, from: usize) -> (r: usize)
    requires
        from <= chars@.len(),
    ensures
        from <= r <= chars@.len(),
        chars@.subrange(from as int, r as int) == without_end(chars@.skip(from as int)),
{
    let mut to: usize = chars.len();
    assert(chars@.subrange(from as int, to as int) =~= chars@.skip(from as int));
    while to - from > 1 && (chars[to - 1] == '/' || chars[to - 1] == '.' && chars[to - 2] == '/')
        invariant
            from <= to <= chars@.len(),
            without_end(chars@.subrange(from as int, to as int)) == without_end(
                chars@.skip(from as int),
            ),
        decreases to - from,
    {
        let ghost here = chars@.subrange(from as int, to as int);
        assert(here.last() == chars@[to - 1]);
        assert(here[here.len() - 2] == chars@[to - 2]);
        assert(here.drop_last() =~= chars@.subrange(from as int, to - 1));
        to -= 1;
    }
    proof {
        let here = chars@.subrange(from as int, to as int);
        if here.len() > 1 {
            assert(here.last() == chars@[to - 1]);
            assert(here[here.len() - 2] == chars@[to - 2]);
        }
    }
    to
}

/// The text of a path behind its first `n` parts, as it is written there.
fn text_behind(path: &str, n: usize) -> (r: String)
    ensures
        r@ == remaining(path@, n as nat),
{
    let chars = text::chars_of(path);
    let mut from: usize = 0;
    assert(chars@.skip(0) =~= chars@);
    if n > 0 {
        let mut at: usize = if has_root(path) {
            1
        } else {
            skip_part(&chars, 0)
        };
        let mut left: usize = n - 1;
        while left > 0
            invariant
                at <= chars@.len(),
                behind_parts(chars@.skip(at as int), left as nat) == behind_parts(
                    behind_first(chars@),
                    (n - 1) as nat,
                ),
            decreases left,
        {
            let start = skip_to_part(&chars, at);
            at = skip_part(&chars, start);
            left -= 1;
        }
        from = skip_to_part(&chars, at);
    }
    let to = cut_end(&chars, from);
    text::from_range(&chars, from, to)
}

/// `path` as seen from `base`, where it lies in it: what is written behind the
/// parts of `base`.
pub open spec fn relative(base: Seq<char>, path: Seq<char>) -> Option<Seq<char>> {
    if is_inside(base, path) {
        Some(remaining(path, parts(base).len()))
    } else {
        None
    }
}

/// `path` as seen from `base`, where it lies in it.
pub fn strip_base(path: &str, base: &str) -> (r: Option<String>)
    ensures
        text::opt_view(r) == relative(base@, path@),
{
    let whole = split_path(path);
    let front = split_path(base);
    if parts_start_with(&whole, &front) {
        Some(text_behind(path, front.len()))
    } else {
        None
    }
}

/// `path` as seen from `base`; `path` itself where it does not lie in it.
pub open spec fn seen_from(base: Seq<char>, path: Seq<char>) -> Seq<char> {
    match relative(base, path) {
        Some(rel) => rel,
        None => path,
    }
}

/// `path` as seen from `base`; `path` itself where it does not lie in it.
pub fn view_from(path: &str, base: &str) -> (r: String)
    ensures
        r@ == seen_from(base@, path@),
{
    match strip_base(path, base) {
        Some(rel) => rel,
        None => text::copied(path),
    }
}

/// `text` with slashes in place of backslashes.
pub open spec fn slashed(path: Seq<char>) -> Seq<char> {
    text::replaced(path, seq!['\\'], seq!['/'])
}

/// `text` with slashes in place of backslashes.
pub fn with_slashes(path: &str) -> (r: String)
    ensures
        r@ == slashed(path@),
{
    proof {
        reveal_strlit("\\");
        reveal_strlit("/");
        assert("\\"@ =~= seq!['\\']);
        assert("/"@ =~= seq!['/']);
    }
    text::replace(path, "\\", "/")
}

/// A path without backslashes stays as it is.
pub proof fn lemma_slashed_keeps(path: Seq<char>)
    requires
        !path.contains('\\'),
    ensures
        slashed(path) == path,
    decreases path.len(),
{
    let from = seq!['\\'];
    if path.len() > 0 {
        assert(path[0] != '\\') by {
            if path[0] == '\\' {
                assert(path.contains(path[0]));
            }
        }
        assert(!from.is_prefix_of(path)) by {
            if from.is_prefix_of(path) {
                assert(path.subrange(0, 1)[0] == from[0]);
            }
        }
        assert forall|i: int| 0 <= i < path.skip(1).len() implies path.skip(1)[i] != '\\' by {
            assert(path.contains(path[i + 1]));
        }
        lemma_slashed_keeps(path.skip(1));
        assert(seq![path[0]] + path.skip(1) =~= path);
    }
}

/// The name at the end of a path; empty where it does not end in one.
pub open spec fn last_name(path: Seq<char>) -> Seq<char> {
    let list = parts(path);
    if list.len() > 0 {
        match list.last() {
            Part::Name(name) => name,
            _ => seq![],
        }
    } else {
        seq![]
    }
}

/// The name at the end of a path; empty where it does not end in one.
pub fn file_name(path: &str) -> (r: String)
    ensures
        r@ == last_name(path@),
{
    let list = split_path(path);
    if list.len() > 0 {
        assert(parts_view(list@).last() == list@[list@.len() - 1]@);
        if let PathPart::Name(name) = &list[list.len() - 1] {
            return name.clone();
        }
    }
    let r = String::new();
    assert(r@ =~= seq![]);
    r
}

/// `rel` below `base`. A path that starts at the root stays as it is.
pub open spec fn below(base: Seq<char>, rel: Seq<char>) -> Seq<char> {
    if is_rooted(rel) {
        rel
    } else if base.len() == 0 || base.last() == '/' {
        base + rel
    } else {
        base + seq!['/'] + rel
    }
}

/// `rel` below `base`. A path that starts at the root stays as it is.
pub fn join_path(base: &str, rel: &str) -> (r: String)
    ensures
        r@ == below(base@, rel@),
{
    if has_root(rel) {
        return text::copied(rel);
    }
    let chars = text::chars_of(base);
    let mut out = text::copied(base);
    if chars.len() > 0 && chars[chars.len() - 1] != '/' {
        out.push('/');
        assert(out@ =~= base@ + seq!['/']);
    }
    out.append(rel);
    out
}

/// Where a walk along the parts of a path ends: whether at the root or below,
/// and at which names. A parent leads back by one name, where there is one.
#[verifier::ext_equal]
pub struct Place {
    pub rooted: bool,
    pub names: Seq<Seq<char>>,
}

/// A walk one part further.
pub open spec fn walk_step(place: Place, part: Part) -> Place {
    match part {
        Part::Root => Place { rooted: true, names: seq![] },
        Part::Cur => place,
        Part::Parent => if place.names.len() > 0 {
            Place { names: place.names.drop_last(), ..place }
        } else {
            place
        },
        Part::Name(name) => Place { names: place.names.push(name), ..place },
    }
}

/// Where a walk along the given parts ends.
pub open spec fn walked(list: Seq<Part>) -> Place
    decreases list.len(),
{
    if list.len() == 0 {
        Place { rooted: false, names: seq![] }
    } else {
        walk_step(walked(list.drop_last()), list.last())
    }
}

/// How a place is written.
pub open spec fn place_text(place: Place) -> Seq<char> {
    (if place.rooted {
        seq!['/']
    } else {
        seq![]
    }) + text::joined(place.names, seq!['/'])
}

/// `path` without detours: no part of it is the current or the parent directory.
pub open spec fn normalized(path: Seq<char>) -> Seq<char> {
    place_text(walked(parts(path)))
}

/// `path` without detours.
pub fn normalize_path(path: &str) -> (r: String)
    ensures
        r@ == normalized(path@),
{
    let list = split_path(path);
    let ghost all = parts_view(list@);
    let mut rooted = false;
    let mut names: Vec<String> = Vec::new();
    let mut i: usize = 0;
    assert(text::views(names@) =~= seq![]);
    assert(all.take(0) =~= seq![]);
    while i < list.len()
        invariant
            i <= list@.len(),
            all == parts_view(list@),
            walked(all.take(i as int)) == (Place { rooted, names: text::views(names@) }),
        decreases list@.len() - i,
    {
        let ghost before = text::views(names@);
        proof {
            assert(all.take(i + 1).drop_last() =~= all.take(i as int));
            assert(all.take(i + 1).last() == list@[i as int]@);
        }
        match &list[i] {
            PathPart::Root => {
                rooted = true;
                names = Vec::new();
                assert(text::views(names@) =~= seq![]);
            },
            PathPart::Cur => {},
            PathPart::Parent => {
                let _ = names.pop();
                proof {
                    if before.len() > 0 {
                        assert(text::views(names@) =~= before.drop_last());
                    } else {
                        assert(text::views(names@) =~= before);
                    }
                }
            },
            PathPart::Name(name) => {
                names.push(name.clone());
                assert(text::views(names@) =~= before.push(name@));
            },
        }
        i += 1;
    }
    assert(all.take(i as int) =~= all);
    proof {
        reveal_strlit("/");
        assert("/"@ =~= seq!['/']);
    }
    let body = text::join(&names, "/");
    if rooted {
        let mut out = text::copied("/");
        out.append(&body);
        out
    } else {
        assert(seq![] + body@ =~= body@);
        body
    }
}

/// Whether a text can be a name in a path.
pub open spec fn is_plain_name(name: Seq<char>) -> bool {
    name.len() > 0 && name != seq!['.'] && name != seq!['.', '.'] && !name.contains('/')
}

/// The names among the parts of a path are plain.
proof fn lemma_pieces_plain(pieces: Seq<Seq<char>>, rooted: bool)
    requires
        forall|i: int| 0 <= i < pieces.len() ==> !(#[trigger] pieces[i]).contains('/'),
    ensures
        forall|i: int|
            0 <= i < pieces_parts(pieces, rooted).len() ==> match #[trigger] pieces_parts(
                pieces,
                rooted,
            )[i] {
                Part::Name(name) => is_plain_name(name),
                Part::Root => false,
                _ => true,
            },
    decreases pieces.len(),
{
    if pieces.len() > 0 {
        let rest = pieces.drop_last();
        lemma_pieces_plain(rest, rooted);
        let front = pieces_parts(rest, rooted);
        let all = pieces_parts(pieces, rooted);
        assert(!pieces[pieces.len() - 1].contains('/'));
        assert forall|i: int| 0 <= i < all.len() implies match #[trigger] all[i] {
            Part::Name(name) => is_plain_name(name),
            Part::Root => false,
            _ => true,
        } by {
            if i < front.len() {
                assert(all[i] == front[i]);
            }
        }
    }
}

/// A walk along the parts of a path ends at plain names.
proof fn lemma_walk_plain(list: Seq<Part>)
    requires
        forall|i: int|
            0 <= i < list.len() ==> match #[trigger] list[i] {
                Part::Name(name) => is_plain_name(name),
                _ => true,
            },
    ensures
        forall|i: int|
            0 <= i < walked(list).names.len() ==> is_plain_name(#[trigger] walked(list).names[i]),
    decreases list.len(),
{
    if list.len() > 0 {
        let rest = list.drop_last();
        assert forall|i: int| 0 <= i < rest.len() implies match #[trigger] rest[i] {
            Part::Name(name) => is_plain_name(name),
            _ => true,
        } by {
            assert(rest[i] == list[i]);
        }
        lemma_walk_plain(rest);
        let before = walked(rest).names;
        let names = walked(list).names;
        assert(match list[list.len() - 1] {
            Part::Name(name) => is_plain_name(name),
            _ => true,
        });
        assert forall|i: int| 0 <= i < names.len() implies is_plain_name(#[trigger] names[i]) by {
            if i < before.len() {
                assert(names[i] == before[i]);
            }
        }
    }
}

/// Plain names are what they add to the parts of a path.
proof fn lemma_plain_pieces(pieces: Seq<Seq<char>>, rooted: bool)
    requires
        forall|i: int| 0 <= i < pieces.len() ==> is_plain_name(#[trigger] pieces[i]),
    ensures
        pieces_parts(pieces, rooted) == Seq::new(pieces.len(), |i: int| Part::Name(pieces[i])),
    decreases pieces.len(),
{
    if pieces.len() > 0 {
        let rest = pieces.drop_last();
        lemma_plain_pieces(rest, rooted);
        assert(is_plain_name(pieces[pieces.len() - 1]));
    }
    assert(pieces_parts(pieces, rooted) =~= Seq::new(
        pieces.len(),
        |i: int| Part::Name(pieces[i]),
    ));
}

/// An empty piece in front adds nothing.
proof fn lemma_empty_piece_first(pieces: Seq<Seq<char>>)
    requires
        forall|i: int| 0 <= i < pieces.len() ==> is_plain_name(#[trigger] pieces[i]),
    ensures
        pieces_parts(seq![Seq::<char>::empty()] + pieces, true) == Seq::new(
            pieces.len(),
            |i: int| Part::Name(pieces[i]),
        ),
    decreases pieces.len(),
{
    let all = seq![Seq::<char>::empty()] + pieces;
    if pieces.len() == 0 {
        assert(all.drop_last() =~= seq![]);
        assert(all.last() == Seq::<char>::empty());
        assert(pieces_parts(all.drop_last(), true) == Seq::<Part>::empty());
        assert(pieces_parts(all, true) =~= seq![]);
    } else {
        let rest = pieces.drop_last();
        lemma_empty_piece_first(rest);
        assert(all.drop_last() =~= seq![Seq::<char>::empty()] + rest);
        assert(all.last() == pieces[pieces.len() - 1]);
        assert(is_plain_name(pieces[pieces.len() - 1]));
    }
    assert(pieces_parts(all, true) =~= Seq::new(pieces.len(), |i: int| Part::Name(pieces[i])));
}

/// The parts of a written place are its names, behind the root where it is rooted.
proof fn lemma_place_parts(place: Place)
    requires
        forall|i: int| 0 <= i < place.names.len() ==> is_plain_name(#[trigger] place.names[i]),
    ensures
        parts(place_text(place)) == (if place.rooted {
            seq![Part::Root]
        } else {
            seq![]
        }) + Seq::new(place.names.len(), |i: int| Part::Name(place.names[i])),
{
    let shown = place_text(place);
    let names = place.names;
    let body = text::joined(names, seq!['/']);
    let sep = '/';
    assert forall|i: int| 0 <= i < names.len() implies !(#[trigger] names[i]).contains('/') by {
        assert(is_plain_name(names[i]));
    }
    if names.len() == 0 {
        assert(body =~= seq![]);
        if place.rooted {
            assert(shown =~= seq!['/']);
            text::lemma_until_is(shown, sep, 0);
            assert(shown.take(0) =~= seq![]);
            assert(shown.skip(1) =~= seq![]);
            text::lemma_until_is(shown.skip(1), sep, 0);
            let pieces = text::split(shown, sep);
            assert(text::split(shown.skip(1), sep) =~= seq![Seq::<char>::empty()]);
            assert(pieces =~= seq![Seq::<char>::empty(), Seq::<char>::empty()]);
            assert(pieces.drop_last() =~= seq![Seq::<char>::empty()] + Seq::<Seq<char>>::empty());
            lemma_empty_piece_first(Seq::empty());
            assert(pieces_parts(pieces, true) =~= seq![]);
        } else {
            assert(shown =~= seq![]);
            text::lemma_until_is(shown, sep, 0);
            let pieces = text::split(shown, sep);
            assert(pieces =~= seq![Seq::<char>::empty()]);
            assert(pieces.drop_last() =~= seq![]);
            assert(pieces_parts(pieces.drop_last(), false) == Seq::<Part>::empty());
            assert(pieces_parts(pieces, false) =~= seq![]);
        }
    } else {
        text::law_split_joined(names, sep);
        assert(is_plain_name(names[0]));
        assert(!names[0].contains('/'));
        if place.rooted {
            text::lemma_until_is(shown, sep, 0);
            assert(shown.take(0) =~= seq![]);
            assert(shown.skip(1) =~= body);
            assert(text::split(shown, sep) =~= seq![Seq::<char>::empty()] + names);
            lemma_empty_piece_first(names);
        } else {
            assert(shown =~= body);
            lemma_plain_pieces(names, false);
            if names.len() > 1 {
                text::lemma_joined_first(names, seq!['/']);
            }
            assert(body[0] == names[0][0]);
            assert(names[0].contains(names[0][0]));
            assert(!is_rooted(shown));
        }
    }
}

/// A path without detours has no part that is the current or the parent
/// directory, and normalizing it again changes nothing.
pub proof fn law_normalized_has_no_detours(path: Seq<char>)
    ensures
        forall|i: int|
            0 <= i < parts(normalized(path)).len() ==> !(#[trigger] parts(normalized(path))[i] is Cur)
                && !(parts(normalized(path))[i] is Parent),
        normalized(normalized(path)) == normalized(path),
{
    let pieces = text::split(path, '/');
    text::lemma_split_pieces(path, '/');
    lemma_pieces_plain(pieces, is_rooted(path));
    let list = parts(path);
    let body = pieces_parts(pieces, is_rooted(path));
    assert forall|i: int| 0 <= i < list.len() implies match #[trigger] list[i] {
        Part::Name(name) => is_plain_name(name),
        _ => true,
    } by {
        let shift = list.len() - body.len();
        if i >= shift {
            assert(list[i] == body[i - shift]);
        }
    }
    lemma_walk_plain(list);
    let place = walked(list);
    lemma_place_parts(place);
    lemma_walk_names(place);
}

/// A walk along the parts of a written place ends at that place.
proof fn lemma_walk_names(place: Place)
    ensures
        walked(
            (if place.rooted {
                seq![Part::Root]
            } else {
                seq![]
            }) + Seq::new(place.names.len(), |i: int| Part::Name(place.names[i])),
        ) == place,
    decreases place.names.len(),
{
    let head = if place.rooted {
        seq![Part::Root]
    } else {
        seq![]
    };
    let list = head + Seq::new(place.names.len(), |i: int| Part::Name(place.names[i]));
    if place.names.len() == 0 {
        assert(list =~= head);
        if place.rooted {
            assert(list.drop_last() =~= seq![]);
        }
        assert(walked(list) =~= place);
    } else {
        let shorter = Place { names: place.names.drop_last(), ..place };
        lemma_walk_names(shorter);
        assert(list.drop_last() =~= head + Seq::new(
            shorter.names.len(),
            |i: int| Part::Name(shorter.names[i]),
        ));
        assert(list.last() == Part::Name(place.names.last()));
        assert(walked(list) =~= place);
    }
}

/// `path` up to the last slash in it.
pub open spec fn up_to_slash(path: Seq<char>) -> Seq<char>
    decreases path.len(),
{
    if path.len() == 0 || path.last() == '/' {
        path
    } else {
        up_to_slash(path.drop_last())
    }
}

/// The directory that holds a path, where there is one.
pub open spec fn parent_of(path: Seq<char>) -> Option<Seq<char>> {
    let list = parts(path);
    if list.len() == 0 || list.last() is Root {
        None
    } else {
        Some(without_end(up_to_slash(without_end(path))))
    }
}

/// `path` without the slashes and the dots at its end that mean nothing.
fn trim_end(path: &str) -> (r: String)
    ensures
        r@ == without_end(path@),
{
    let chars = text::chars_of(path);
    assert(chars@.skip(0) =~= chars@);
    let to = cut_end(&chars, 0);
    text::from_range(&chars, 0, to)
}

/// `path` up to the last slash in it.
fn cut_to_slash(path: &str) -> (r: String)
    ensures
        r@ == up_to_slash(path@),
{
    let chars = text::chars_of(path);
    let mut to: usize = chars.len();
    assert(chars@.take(to as int) =~= chars@);
    while to > 0 && chars[to - 1] != '/'
        invariant
            to <= chars@.len(),
            up_to_slash(chars@.take(to as int)) == up_to_slash(chars@),
        decreases to,
    {
        assert(chars@.take(to as int).last() == chars@[to - 1]);
        assert(chars@.take(to as int).drop_last() =~= chars@.take(to - 1));
        to -= 1;
    }
    proof {
        if to > 0 {
            assert(chars@.take(to as int).last() == chars@[to - 1]);
        }
        assert(chars@.take(to as int) =~= chars@.subrange(0, to as int));
    }
    text::from_range(&chars, 0, to)
}

/// The directory that holds a path, where there is one.
pub fn parent_path(path: &str) -> (r: Option<String>)
    ensures
        text::opt_view(r) == parent_of(path@),
{
    let list = split_path(path);
    if list.len() == 0 {
        return None;
    }
    let n = list.len() - 1;
    assert(parts_view(list@).last() == list@[n as int]@);
    if let PathPart::Root = &list[n] {
        return None;
    }
    let written = trim_end(path);
    let front = cut_to_slash(&written);
    Some(trim_end(&front))
}

/// Whether a part of a path is hidden: a name that starts with a dot.
pub open spec fn has_hidden_part(path: Seq<char>) -> bool {
    exists|i: int|
        0 <= i < parts(path).len() && match #[trigger] parts(path)[i] {
            Part::Name(name) => name.len() > 0 && name[0] == '.',
            _ => false,
        }
}

/// Whether a part of a path is hidden: a name that starts with a dot.
pub fn has_dot_component(path: &str) -> (r: bool)
    ensures
        r == has_hidden_part(path@),
{
    let list = split_path(path);
    let mut i: usize = 0;
    while i < list.len()
        invariant
            i <= list@.len(),
            parts_view(list@) == parts(path@),
            forall|k: int|
                0 <= k < i ==> match #[trigger] parts(path@)[k] {
                    Part::Name(name) => !(name.len() > 0 && name[0] == '.'),
                    _ => true,
                },
        decreases list@.len() - i,
    {
        assert(parts(path@)[i as int] == list@[i as int]@);
        if let PathPart::Name(name) = &list[i] {
            let chars = text::chars_of(name);
            if chars.len() > 0 && chars[0] == '.' {
                return true;
            }
        }
        i += 1;
    }
    false
}

/// Whether a text can be a name in a path.
pub fn is_plain(name: &str) -> (r: bool)
    ensures
        r == is_plain_name(name@),
{
    let chars = text::chars_of(name);
    let at = text::find_from(&chars, '/', 0);
    proof {
        assert(chars@.skip(0) =~= chars@);
        text::lemma_until(name@, '/');
        reveal_strlit(".");
        reveal_strlit("..");
        assert("."@ =~= seq!['.']);
        assert(".."@ =~= seq!['.', '.']);
        if at < name@.len() {
            assert(name@.contains(name@[at as int]));
        }
    }
    chars.len() > 0 && at == chars.len() && !text::same(name, ".") && !text::same(name, "..")
}

/// A name below a directory adds itself to the parts.
pub proof fn lemma_below_parts(dir: Seq<char>, name: Seq<char>)
    requires
        is_plain_name(name),
    ensures
        parts(below(dir, name)) == parts(dir).push(Part::Name(name)),
{
    let whole = below(dir, name);
    let sep = '/';
    let pieces = text::split(dir, sep);
    text::lemma_split_pieces(dir, sep);
    assert(!is_rooted(name)) by {
        if is_rooted(name) {
            assert(name.contains(name[0]));
        }
    }
    if dir.len() == 0 {
        assert(whole =~= name);
        text::lemma_until_is(dir, sep, 0);
        assert forall|i: int| 0 <= i < name.len() implies name[i] != sep by {
            assert(name.contains(name[i]));
        }
        text::lemma_until_is(name, sep, name.len() as int);
        assert(text::split(name, sep) =~= seq![name]);
        assert(seq![name].drop_last() =~= seq![]);
        assert(pieces =~= seq![dir]);
        assert(pieces.drop_last() =~= seq![]);
        assert(parts(whole) =~= parts(dir).push(Part::Name(name)));
    } else if dir.last() == '/' {
        let front = dir.drop_last();
        text::lemma_split_end(front, sep);
        assert(dir =~= front.push(sep));
        text::lemma_split_append(dir, name, sep);
        assert(pieces.last() + name =~= name);
        let rest = pieces.drop_last();
        assert(text::split(whole, sep) == rest.push(name));
        assert(rest.push(name).drop_last() =~= rest);
        assert(is_rooted(whole) == is_rooted(dir));
        assert(piece_parts(pieces.last(), pieces.len() - 1, is_rooted(dir)) =~= seq![]);
        assert(pieces_parts(pieces, is_rooted(dir)) =~= pieces_parts(rest, is_rooted(dir)));
        assert(parts(whole) =~= parts(dir).push(Part::Name(name)));
    } else {
        let longer = dir.push(sep);
        text::lemma_split_end(dir, sep);
        text::lemma_split_append(longer, name, sep);
        assert(whole =~= longer + name);
        let all = pieces.push(seq![]);
        assert(all.drop_last() =~= pieces);
        assert(all.last() + name =~= name);
        assert(text::split(whole, sep) == pieces.push(name));
        assert(pieces.push(name).drop_last() =~= pieces);
        assert(is_rooted(whole) == is_rooted(dir));
        assert(parts(whole) =~= parts(dir).push(Part::Name(name)));
    }
}

/// A name below a directory inside a base lies inside it too.
pub proof fn lemma_below_inside(base: Seq<char>, dir: Seq<char>, name: Seq<char>)
    requires
        is_inside(base, dir),
        is_plain_name(name),
    ensures
        is_inside(base, below(dir, name)),
{
    lemma_below_parts(dir, name);
    let n = parts(base).len() as int;
    assert(parts(below(dir, name)).subrange(0, n) =~= parts(dir).subrange(0, n));
}

/// A nonempty first piece of a relative path gives a part.
proof fn lemma_first_piece(pieces: Seq<Seq<char>>)
    requires
        pieces.len() > 0,
        pieces[0].len() > 0,
    ensures
        pieces_parts(pieces, false).len() > 0,
    decreases pieces.len(),
{
    if pieces.len() == 1 {
        assert(pieces.last() == pieces[0]);
        assert(piece_parts(pieces[0], 0, false).len() == 1);
    } else {
        assert(pieces.drop_last()[0] == pieces[0]);
        lemma_first_piece(pieces.drop_last());
    }
}

/// Only the empty path has no parts.
pub proof fn lemma_no_parts(path: Seq<char>)
    requires
        parts(path).len() == 0,
    ensures
        path.len() == 0,
{
    if path.len() > 0 && !is_rooted(path) {
        text::lemma_until(path, '/');
        let at = text::until(path, '/') as int;
        assert(at > 0);
        assert(text::split(path, '/')[0] == path.take(at));
        lemma_first_piece(text::split(path, '/'));
    }
}

/// `path` without doubled slashes and without dots that mean nothing.
pub open spec fn tidy(path: Seq<char>) -> Seq<char> {
    parts_text(parts(path))
}

/// `path` without doubled slashes and without dots that mean nothing.
pub fn tidy_path(path: &str) -> (r: String)
    ensures
        r@ == tidy(path@),
{
    let list = split_path(path);
    assert(parts_view(list@).skip(0) =~= parts_view(list@));
    write_parts(&list, 0)
}

/// Whether no two slashes stand side by side.
pub open spec fn no_double_slash(path: Seq<char>) -> bool {
    forall|i: int| 0 <= i < path.len() - 1 ==> !(#[trigger] path[i] == '/' && path[i + 1] == '/')
}

/// Whether the root stands in no place but the first, and the names are plain.
pub open spec fn is_part_list(list: Seq<Part>) -> bool {
    forall|i: int|
        0 <= i < list.len() ==> match #[trigger] list[i] {
            Part::Name(name) => is_plain_name(name),
            Part::Root => i == 0,
            _ => true,
        }
}

/// The parts of a path have the root in no place but the first, and plain names.
pub proof fn lemma_parts_shape(path: Seq<char>)
    ensures
        is_part_list(parts(path)),
        is_rooted(path) == (parts(path).len() > 0 && parts(path)[0] is Root),
{
    let pieces = text::split(path, '/');
    text::lemma_split_pieces(path, '/');
    lemma_pieces_plain(pieces, is_rooted(path));
    let list = parts(path);
    let body = pieces_parts(pieces, is_rooted(path));
    assert forall|i: int| 0 <= i < list.len() implies match #[trigger] list[i] {
        Part::Name(name) => is_plain_name(name),
        Part::Root => i == 0,
        _ => true,
    } by {
        let shift = list.len() - body.len();
        if i >= shift {
            assert(list[i] == body[i - shift]);
        }
    }
    if !is_rooted(path) && list.len() > 0 {
        assert(list[0] == body[0]);
    }
}

/// Nonempty texts without slashes, joined by slashes, have no two side by side.
proof fn lemma_joined_slashes(names: Seq<Seq<char>>)
    requires
        forall|i: int|
            0 <= i < names.len() ==> (#[trigger] names[i]).len() > 0 && !names[i].contains('/'),
    ensures
        no_double_slash(text::joined(names, seq!['/'])),
        names.len() > 0 ==> text::joined(names, seq!['/']).len() > 0,
        text::joined(names, seq!['/']).len() > 0 ==> text::joined(names, seq!['/'])[0] != '/'
            && text::joined(names, seq!['/']).last() != '/',
    decreases names.len(),
{
    let whole = text::joined(names, seq!['/']);
    if names.len() == 1 {
        assert(names[0].len() > 0 && !names[0].contains('/'));
        assert(names[0].contains(names[0][0]));
        assert(names[0].contains(names[0].last()));
        assert forall|i: int| 0 <= i < whole.len() - 1 implies !(#[trigger] whole[i] == '/'
            && whole[i + 1] == '/') by {
            assert(names[0].contains(names[0][i]));
        }
    } else if names.len() > 1 {
        let rest = names.drop_last();
        assert forall|i: int| 0 <= i < rest.len() implies (#[trigger] rest[i]).len() > 0
            && !rest[i].contains('/') by {
            assert(rest[i] == names[i]);
        }
        lemma_joined_slashes(rest);
        let front = text::joined(rest, seq!['/']);
        let last = names.last();
        assert(names[names.len() - 1].len() > 0 && !names[names.len() - 1].contains('/'));
        assert(last.contains(last[0]));
        assert(last.contains(last.last()));
        assert(whole.last() == last.last());
        assert(whole[0] == front[0]);
        assert forall|i: int| 0 <= i < whole.len() - 1 implies !(#[trigger] whole[i] == '/'
            && whole[i + 1] == '/') by {
            if i + 1 < front.len() {
                assert(whole[i] == front[i] && whole[i + 1] == front[i + 1]);
            } else if i + 1 == front.len() {
                assert(whole[i] == front.last());
            } else if i == front.len() {
                assert(whole[i + 1] == last[0]);
            } else {
                let k = i - front.len() - 1;
                assert(whole[i] == last[k]);
                assert(last.contains(last[k]));
            }
        }
    }
}

/// Written parts other than the root are nonempty and hold no slash.
proof fn lemma_part_texts(list: Seq<Part>)
    requires
        is_part_list(list),
        list.len() > 0 ==> !(list[0] is Root),
    ensures
        forall|i: int|
            0 <= i < part_texts(list).len() ==> (#[trigger] part_texts(list)[i]).len() > 0
                && !part_texts(list)[i].contains('/'),
{
    assert forall|i: int| 0 <= i < part_texts(list).len() implies (#[trigger] part_texts(
        list,
    )[i]).len() > 0 && !part_texts(list)[i].contains('/') by {
        assert(match list[i] {
            Part::Name(name) => is_plain_name(name),
            Part::Root => i == 0,
            _ => true,
        });
    }
}

/// Written parts have no two slashes side by side, and start with a slash
/// exactly where the root comes first.
pub proof fn lemma_parts_text_tidy(list: Seq<Part>)
    requires
        is_part_list(list),
    ensures
        no_double_slash(parts_text(list)),
        is_rooted(parts_text(list)) == (list.len() > 0 && list[0] is Root),
{
    if list.len() > 0 && list[0] is Root {
        let rest = list.skip(1);
        assert forall|i: int| 0 <= i < rest.len() implies match #[trigger] rest[i] {
            Part::Name(name) => is_plain_name(name),
            Part::Root => i == 0,
            _ => true,
        } by {
            assert(rest[i] == list[i + 1]);
        }
        if rest.len() > 0 {
            assert(rest[0] == list[1]);
        }
        lemma_part_texts(rest);
        lemma_joined_slashes(part_texts(rest));
        let body = text::joined(part_texts(rest), seq!['/']);
        let whole = parts_text(list);
        assert forall|i: int| 0 <= i < whole.len() - 1 implies !(#[trigger] whole[i] == '/'
            && whole[i + 1] == '/') by {
            if i > 0 {
                assert(whole[i] == body[i - 1] && whole[i + 1] == body[i]);
            } else {
                assert(whole[1] == body[0]);
            }
        }
    } else {
        lemma_part_texts(list);
        lemma_joined_slashes(part_texts(list));
    }
}

/// Joined texts start with the joined texts of the first of them.
proof fn lemma_joined_prefix(names: Seq<Seq<char>>, sep: Seq<char>, k: int)
    requires
        0 <= k <= names.len(),
    ensures
        text::joined(names.take(k), sep).is_prefix_of(text::joined(names, sep)),
    decreases names.len() - k,
{
    if k == names.len() {
        assert(names.take(k) =~= names);
        assert(text::joined(names, sep).subrange(0, text::joined(names, sep).len() as int)
            =~= text::joined(names, sep));
    } else {
        lemma_joined_prefix(names, sep, k + 1);
        let shorter = text::joined(names.take(k), sep);
        let longer = text::joined(names.take(k + 1), sep);
        let whole = text::joined(names, sep);
        assert(names.take(k + 1).drop_last() =~= names.take(k));
        assert(shorter =~= longer.subrange(0, shorter.len() as int)) by {
            if k == 0 {
                assert(shorter =~= seq![]);
            } else {
                assert(longer =~= shorter + sep + names[k]);
            }
        }
        assert(shorter =~= whole.subrange(0, shorter.len() as int)) by {
            assert(longer =~= whole.subrange(0, longer.len() as int));
            assert forall|i: int| 0 <= i < shorter.len() implies shorter[i] == whole.subrange(
                0,
                shorter.len() as int,
            )[i] by {
                assert(longer[i] == whole.subrange(0, longer.len() as int)[i]);
                assert(shorter[i] == longer.subrange(0, shorter.len() as int)[i]);
            }
        }
    }
}

/// A written path starts with what its first parts are written as.
pub proof fn lemma_parts_text_prefix(list: Seq<Part>, k: int)
    requires
        is_part_list(list),
        0 <= k <= list.len(),
    ensures
        parts_text(list.take(k)).is_prefix_of(parts_text(list)),
{
    let front = list.take(k);
    if list.len() > 0 && list[0] is Root {
        if k == 0 {
            assert(part_texts(front) =~= seq![]);
            assert(parts_text(front) =~= seq![]);
        } else {
            lemma_joined_prefix(part_texts(list.skip(1)), seq!['/'], k - 1);
            assert(part_texts(front.skip(1)) =~= part_texts(list.skip(1)).take(k - 1));
            let short = text::joined(part_texts(front.skip(1)), seq!['/']);
            let long = text::joined(part_texts(list.skip(1)), seq!['/']);
            assert(short =~= long.subrange(0, short.len() as int));
            assert(parts_text(front) =~= parts_text(list).subrange(
                0,
                parts_text(front).len() as int,
            )) by {
                assert forall|i: int| 0 <= i < short.len() implies #[trigger] short[i]
                    == long[i] by {
                    assert(long.subrange(0, short.len() as int)[i] == long[i]);
                }
            }
        }
    } else {
        lemma_joined_prefix(part_texts(list), seq!['/'], k);
        assert(part_texts(front) =~= part_texts(list).take(k));
        if k > 0 {
            assert(front[0] == list[0]);
        }
    }
}

/// Whether a path is written without doubled slashes and without dots that mean
/// nothing.
pub open spec fn is_tidy(path: Seq<char>) -> bool {
    path == tidy(path)
}

/// What is cut off at the end of a path leaves its start.
proof fn lemma_without_end(path: Seq<char>)
    ensures
        without_end(path).is_prefix_of(path),
        path.len() > 0 ==> without_end(path).len() > 0,
    decreases path.len(),
{
    if path.len() > 1 && (path.last() == '/' || path.last() == '.' && path[path.len() - 2] == '/') {
        let front = path.drop_last();
        lemma_without_end(front);
        let kept = without_end(front);
        assert forall|i: int| 0 <= i < kept.len() implies kept[i] == path[i] by {
            assert(kept[i] == front[i]);
        }
        assert(kept =~= path.take(kept.len() as int));
    }
}

/// What follows in a path does not start with a slash from the next part on, and
/// has no doubled slash where the path has none.
proof fn lemma_from_part(rest: Seq<char>)
    ensures
        !is_rooted(from_part(rest)),
        no_double_slash(rest) ==> no_double_slash(from_part(rest)),
    decreases rest.len(),
{
    if rest.len() > 0 && rest[0] == '/' || rest.len() > 1 && rest[0] == '.' && rest[1] == '/' {
        lemma_from_part(rest.skip(1));
        if no_double_slash(rest) {
            lemma_tail_slashes(rest);
        }
    }
}

/// The rest of a path has no doubled slash where the path has none.
proof fn lemma_tail_slashes(rest: Seq<char>)
    requires
        rest.len() > 0,
        no_double_slash(rest),
    ensures
        no_double_slash(rest.skip(1)),
{
    let tail = rest.skip(1);
    assert forall|i: int| 0 <= i < tail.len() - 1 implies !(#[trigger] tail[i] == '/' && tail[i + 1]
        == '/') by {
        assert(tail[i] == rest[i + 1] && tail[i + 1] == rest[i + 2]);
    }
}

/// Behind a part there is no doubled slash where there was none.
proof fn lemma_behind_part(rest: Seq<char>)
    requires
        no_double_slash(rest),
    ensures
        no_double_slash(behind_part(rest)),
    decreases rest.len(),
{
    if !(rest.len() == 0 || rest[0] == '/') {
        lemma_tail_slashes(rest);
        lemma_behind_part(rest.skip(1));
    }
}

/// Behind some parts there is no doubled slash where there was none.
proof fn lemma_behind_parts(rest: Seq<char>, n: nat)
    requires
        no_double_slash(rest),
    ensures
        no_double_slash(behind_parts(rest, n)),
    decreases n,
{
    if n > 0 {
        lemma_from_part(rest);
        lemma_behind_part(from_part(rest));
        lemma_behind_parts(behind_part(from_part(rest)), (n - 1) as nat);
    }
}

/// The start of a path has no doubled slash where the path has none.
proof fn lemma_start_slashes(start: Seq<char>, path: Seq<char>)
    requires
        start.is_prefix_of(path),
        no_double_slash(path),
    ensures
        no_double_slash(start),
{
    assert forall|i: int| 0 <= i < start.len() - 1 implies !(#[trigger] start[i] == '/' && start[i
        + 1] == '/') by {
        assert(start[i] == path[i] && start[i + 1] == path[i + 1]);
    }
}

/// What is written behind parts of a path has no doubled slash where the path has
/// none, and starts at the root only where the path does and no part comes before.
pub proof fn lemma_remaining(path: Seq<char>, n: nat)
    requires
        no_double_slash(path),
    ensures
        no_double_slash(remaining(path, n)),
        is_rooted(remaining(path, n)) ==> n == 0 && is_rooted(path),
{
    if n == 0 {
        lemma_without_end(path);
        lemma_start_slashes(without_end(path), path);
        if is_rooted(without_end(path)) {
            assert(path[0] == without_end(path)[0]);
        }
    } else {
        if is_rooted(path) {
            lemma_tail_slashes(path);
        } else {
            lemma_behind_part(path);
        }
        let behind = behind_parts(behind_first(path), (n - 1) as nat);
        lemma_behind_parts(behind_first(path), (n - 1) as nat);
        lemma_from_part(behind);
        let rest = from_part(behind);
        lemma_without_end(rest);
        lemma_start_slashes(without_end(rest), rest);
        if is_rooted(without_end(rest)) {
            assert(rest[0] == without_end(rest)[0]);
        }
    }
}

/// How a part is written on its own.
pub open spec fn part_name(part: Part) -> Seq<char> {
    if part is Root {
        seq!['/']
    } else {
        part_text(part)
    }
}

/// How a part is written on its own.
pub fn write_part(part: &PathPart) -> (r: String)
    ensures
        r@ == part_name(part@),
{
    let mut out = String::new();
    match part {
        PathPart::Root => {
            out.push('/');
            assert(out@ =~= seq!['/']);
        },
        PathPart::Cur => {
            out.push('.');
            assert(out@ =~= seq!['.']);
        },
        PathPart::Parent => {
            out.push('.');
            out.push('.');
            assert(out@ =~= seq!['.', '.']);
        },
        PathPart::Name(name) => {
            out.append(name);
            assert(out@ =~= name@);
        },
    }
    out
}

/// A part below written parts is written behind them.
pub proof fn lemma_below_written(list: Seq<Part>, part: Part)
    requires
        is_part_list(list.push(part)),
    ensures
        below(parts_text(list), part_name(part)) == parts_text(list.push(part)),
{
    let all = list.push(part);
    let n = list.len() as int;
    assert(all[n] == part);
    assert(is_part_list(list)) by {
        assert forall|i: int| 0 <= i < list.len() implies match #[trigger] list[i] {
            Part::Name(name) => is_plain_name(name),
            Part::Root => i == 0,
            _ => true,
        } by {
            assert(list[i] == all[i]);
        }
    }
    if part is Root {
        assert(list =~= seq![]);
        assert(part_texts(all.skip(1)) =~= seq![]);
        assert(parts_text(all) =~= seq!['/']);
    } else {
        let written = part_text(part);
        assert(written.len() > 0 && !written.contains('/')) by {
            match part {
                Part::Name(name) => {},
                Part::Cur => {},
                Part::Parent => {},
                Part::Root => {},
            }
        }
        assert(!is_rooted(written)) by {
            if is_rooted(written) {
                assert(written.contains(written[0]));
            }
        }
        if n == 0 {
            assert(part_texts(list) =~= seq![]);
            assert(part_texts(all) =~= seq![written]);
            assert(parts_text(list) =~= seq![]);
            assert(below(parts_text(list), written) =~= written);
        } else {
            assert(all[0] == list[0]);
            let from: int = if list[0] is Root {
                1
            } else {
                0
            };
            let names = part_texts(list.skip(from));
            assert(list.skip(0) =~= list);
            assert(all.skip(0) =~= all);
            assert(part_texts(all.skip(from)) =~= names.push(written));
            assert(names.push(written).drop_last() =~= names);
            let rest = list.skip(from);
            assert(is_part_list(rest)) by {
                assert forall|i: int| 0 <= i < rest.len() implies match #[trigger] rest[i] {
                    Part::Name(name) => is_plain_name(name),
                    Part::Root => i == 0,
                    _ => true,
                } by {
                    assert(rest[i] == list[i + from]);
                }
            }
            if rest.len() > 0 {
                assert(rest[0] == list[from]);
            }
            lemma_part_texts(rest);
            lemma_joined_slashes(names);
            let body = text::joined(names, seq!['/']);
            let base = parts_text(list);
            if names.len() == 0 {
                assert(base =~= seq!['/']);
                assert(below(base, written) =~= parts_text(all));
            } else {
                assert(base.last() == body.last());
                assert(text::joined(names.push(written), seq!['/']) =~= body + seq!['/'] + written);
                assert(below(base, written) =~= parts_text(all));
            }
        }
    }
}

/// A name below a tidy directory is tidy.
pub proof fn lemma_below_tidy(dir: Seq<char>, name: Seq<char>)
    requires
        is_tidy(dir),
        is_plain_name(name),
    ensures
        is_tidy(below(dir, name)),
{
    let list = parts(dir);
    lemma_below_parts(dir, name);
    lemma_parts_shape(below(dir, name));
    lemma_below_written(list, Part::Name(name));
}

/// A written place is tidy, and no part of it is the current or the parent directory.
proof fn lemma_place_tidy(place: Place)
    requires
        forall|i: int| 0 <= i < place.names.len() ==> is_plain_name(#[trigger] place.names[i]),
    ensures
        is_tidy(place_text(place)),
        forall|i: int|
            0 <= i < parts(place_text(place)).len() ==> !(#[trigger] parts(
                place_text(place),
            )[i] is Cur) && !(parts(place_text(place))[i] is Parent),
{
    lemma_place_parts(place);
    let shown = parts(place_text(place));
    let names = Seq::new(place.names.len(), |i: int| Part::Name(place.names[i]));
    assert(part_texts(names) =~= place.names);
    if place.rooted {
        assert(shown[0] is Root);
        assert(shown.skip(1) =~= names);
    } else {
        assert(shown =~= names);
    }
    assert(parts_text(shown) =~= place_text(place));
}

/// A walk that starts at the root ends at the root or below.
proof fn lemma_walk_rooted(list: Seq<Part>)
    requires
        list.len() > 0,
        list[0] is Root,
    ensures
        walked(list).rooted,
    decreases list.len(),
{
    if list.len() > 1 {
        lemma_walk_rooted(list.drop_last());
    }
}

/// Whether a character separates the parts of a path on Windows.
pub open spec fn is_separator(c: char) -> bool {
    c == '/' || c == '\\'
}

/// Whether a character can name a drive.
pub open spec fn is_letter(c: char) -> bool {
    'a' <= c <= 'z' || 'A' <= c <= 'Z'
}

/// Whether a character can name a drive.
fn is_drive_letter(c: char) -> (r: bool)
    ensures
        r == is_letter(c),
{
    'a' <= c && c <= 'z' || 'A' <= c && c <= 'Z'
}

/// Whether a path of Windows starts with a drive.
pub open spec fn has_drive(path: Seq<char>) -> bool {
    path.len() >= 2 && is_letter(path[0]) && path[1] == ':'
}

/// Whether a path of Windows starts with a drive.
pub fn starts_with_drive(path: &str) -> (r: bool)
    ensures
        r == has_drive(path@),
{
    let chars = text::chars_of(path);
    chars.len() >= 2 && is_drive_letter(chars[0]) && chars[1] == ':'
}

/// Whether a path is a drive of Windows and no more.
pub open spec fn is_drive(path: Seq<char>) -> bool {
    path.len() == 2 && has_drive(path)
}

/// A path of Windows without the mark of a path that is taken as it is, where a
/// drive follows it.
pub open spec fn without_mark(path: Seq<char>) -> Seq<char> {
    if path.len() >= 4 && path.take(4) == seq!['\\', '\\', '?', '\\'] && has_drive(path.skip(4)) {
        path.skip(4)
    } else {
        path
    }
}

/// A path of the system with `/` between its parts.
pub open spec fn unified(windows: bool, path: Seq<char>) -> Seq<char> {
    if windows {
        slashed(without_mark(path))
    } else {
        path
    }
}

/// A path of the system with `/` between its parts.
pub fn unify(windows: bool, path: &str) -> (r: String)
    ensures
        r@ == unified(windows, path@),
{
    if !windows {
        return text::copied(path);
    }
    let chars = text::chars_of(path);
    let n = chars.len();
    proof {
        if n >= 4 {
            let front = path@.take(4);
            let mark = seq!['\\', '\\', '?', '\\'];
            if front == mark {
                assert(front[0] == '\\' && front[1] == '\\' && front[2] == '?' && front[3] == '\\');
            } else if path@[0] == '\\' && path@[1] == '\\' && path@[2] == '?' && path@[3] == '\\' {
                assert(front =~= mark);
            }
        }
    }
    if n >= 6 && chars[0] == '\\' && chars[1] == '\\' && chars[2] == '?' && chars[3] == '\\'
        && is_drive_letter(chars[4]) && chars[5] == ':' {
        let rest = text::from_range(&chars, 4, n);
        assert(rest@ =~= path@.skip(4));
        return with_slashes(&rest);
    }
    with_slashes(path)
}

/// Whether a path with slashes starts at the root of a drive.
pub open spec fn starts_at_drive(path: Seq<char>) -> bool {
    has_drive(path) && path.len() > 2 && path[2] == '/'
}

/// The letter of a drive as a capital.
pub open spec fn capital(c: char) -> char {
    if 'a' <= c <= 'z' {
        (c as u32 - 32) as char
    } else {
        c
    }
}

/// A path of the system, with `/` between its parts, without detours. None leads up
/// from the root of a drive.
pub open spec fn normalized_on(windows: bool, path: Seq<char>) -> Seq<char> {
    let shown = unified(windows, path);
    if windows && starts_at_drive(shown) {
        place_text(
            Place {
                rooted: false,
                names: seq![seq![capital(shown[0]), ':']] + walked(parts(shown.skip(2))).names,
            },
        )
    } else {
        normalized(shown)
    }
}

/// A path without detours is tidy, and no part of it is the current or the parent
/// directory.
pub proof fn law_normalized_on_has_no_detours(windows: bool, path: Seq<char>)
    ensures
        is_tidy(normalized_on(windows, path)),
        forall|i: int|
            0 <= i < parts(normalized_on(windows, path)).len() ==> !(#[trigger] parts(
                normalized_on(windows, path),
            )[i] is Cur) && !(parts(normalized_on(windows, path))[i] is Parent),
{
    let shown = unified(windows, path);
    let list = if windows && starts_at_drive(shown) {
        parts(shown.skip(2))
    } else {
        parts(shown)
    };
    lemma_parts_shape(shown.skip(2));
    lemma_parts_shape(shown);
    lemma_walk_plain(list);
    let place = walked(list);
    if windows && starts_at_drive(shown) {
        let drive = seq![capital(shown[0]), ':'];
        let names = seq![drive] + place.names;
        assert(is_plain_name(drive)) by {
            assert(drive[1] == ':');
            assert(drive[0] != '/');
        }
        assert forall|i: int| 0 <= i < names.len() implies is_plain_name(#[trigger] names[i]) by {
            if i > 0 {
                assert(names[i] == place.names[i - 1]);
            }
        }
        lemma_place_tidy(Place { rooted: false, names });
    } else {
        lemma_place_tidy(place);
    }
}

/// No piece of a text holds what the text does not hold.
proof fn lemma_pieces_lack(path: Seq<char>, c: char)
    requires
        !path.contains(c),
    ensures
        forall|i: int|
            0 <= i < text::split(path, '/').len() ==> !(#[trigger] text::split(path, '/')[i]).contains(
                c,
            ),
    decreases path.len(),
{
    let at = text::until(path, '/') as int;
    let all = text::split(path, '/');
    text::lemma_until(path, '/');
    if at < path.len() {
        let front = path.take(at);
        let rest = path.skip(at + 1);
        assert forall|j: int| 0 <= j < rest.len() implies rest[j] != c by {
            assert(path.contains(path[at + 1 + j]));
        }
        assert forall|j: int| 0 <= j < front.len() implies front[j] != c by {
            assert(path.contains(path[j]));
        }
        lemma_pieces_lack(rest, c);
        assert forall|i: int| 0 <= i < all.len() implies !(#[trigger] all[i]).contains(c) by {
            if i > 0 {
                assert(all[i] == text::split(rest, '/')[i - 1]);
            }
        }
    }
}

/// A walk along the parts that pieces add ends at names that are pieces.
proof fn lemma_walk_lacks(pieces: Seq<Seq<char>>, rooted: bool, head: Seq<Part>, c: char)
    requires
        forall|i: int| 0 <= i < pieces.len() ==> !(#[trigger] pieces[i]).contains(c),
        head == seq![Part::Root] || head == Seq::<Part>::empty(),
    ensures
        forall|i: int|
            0 <= i < walked(head + pieces_parts(pieces, rooted)).names.len() ==> !(
            #[trigger] walked(head + pieces_parts(pieces, rooted)).names[i]).contains(c),
    decreases pieces.len(),
{
    let list = head + pieces_parts(pieces, rooted);
    if pieces.len() == 0 {
        assert(list =~= head);
        if head.len() > 0 {
            assert(head.drop_last() =~= seq![]);
        }
    } else {
        let last = pieces[pieces.len() - 1];
        lemma_walk_lacks(pieces.drop_last(), rooted, head, c);
        let before = head + pieces_parts(pieces.drop_last(), rooted);
        let more = piece_parts(last, pieces.len() - 1, rooted);
        if more.len() == 0 {
            assert(list =~= before);
        } else {
            assert(list.drop_last() =~= before);
            assert(list.last() == more[0]);
            let names = walked(list).names;
            assert forall|i: int| 0 <= i < names.len() implies !(#[trigger] names[i]).contains(c) by {
                if i < walked(before).names.len() {
                    assert(names[i] == walked(before).names[i]);
                }
            }
        }
    }
}

/// Joined texts hold what one of them holds, or what stands between them.
proof fn lemma_joined_lacks(names: Seq<Seq<char>>, c: char)
    requires
        c != '/',
        forall|i: int| 0 <= i < names.len() ==> !(#[trigger] names[i]).contains(c),
    ensures
        !text::joined(names, seq!['/']).contains(c),
    decreases names.len(),
{
    if names.len() > 1 {
        lemma_joined_lacks(names.drop_last(), c);
        let front = text::joined(names.drop_last(), seq!['/']);
        let last = names[names.len() - 1];
        let all = text::joined(names, seq!['/']);
        assert forall|j: int| 0 <= j < all.len() implies all[j] != c by {
            if j < front.len() {
                assert(front.contains(front[j]));
            } else if j > front.len() {
                assert(last.contains(last[j - front.len() - 1]));
            }
        }
    } else if names.len() == 1 {
        assert(!names[0].contains(c));
    }
}

/// No backslash stays in a path whose backslashes became slashes.
proof fn lemma_slashed(path: Seq<char>)
    ensures
        !slashed(path).contains('\\'),
    decreases path.len(),
{
    let from = seq!['\\'];
    let to = seq!['/'];
    let all = slashed(path);
    if path.len() > 0 {
        let rest = slashed(path.skip(1));
        lemma_slashed(path.skip(1));
        if from.is_prefix_of(path) {
            assert(all =~= to + rest);
        } else {
            assert(path[0] != '\\') by {
                if path[0] == '\\' {
                    assert(path.subrange(0, 1) =~= from);
                }
            }
            assert(all =~= seq![path[0]] + rest);
        }
        assert forall|j: int| 0 <= j < all.len() implies all[j] != '\\' by {
            if j > 0 {
                assert(rest.contains(rest[j - 1]));
            }
        }
    }
}

/// No name in a path of Windows without detours holds a separator of Windows, so
/// that its parts are those which Windows sees.
pub proof fn law_normalized_on_windows_has_no_backslash(path: Seq<char>)
    ensures
        !normalized_on(true, path).contains('\\'),
{
    let c = '\\';
    let shown = unified(true, path);
    lemma_slashed(without_mark(path));
    let start = if starts_at_drive(shown) {
        shown.skip(2)
    } else {
        shown
    };
    assert forall|j: int| 0 <= j < start.len() implies start[j] != c by {
        assert(shown.contains(shown[j + shown.len() - start.len()]));
    }
    let rooted = is_rooted(start);
    let head = if rooted {
        seq![Part::Root]
    } else {
        seq![]
    };
    lemma_pieces_lack(start, c);
    lemma_walk_lacks(text::split(start, '/'), rooted, head, c);
    let place = walked(parts(start));
    if starts_at_drive(shown) {
        let drive = seq![capital(shown[0]), ':'];
        let names = seq![drive] + place.names;
        assert forall|i: int| 0 <= i < names.len() implies !(#[trigger] names[i]).contains(c) by {
            if i > 0 {
                assert(names[i] == place.names[i - 1]);
            }
        }
        lemma_joined_lacks(names, c);
    } else {
        lemma_joined_lacks(place.names, c);
    }
    let all = normalized_on(true, path);
    assert forall|j: int| 0 <= j < all.len() implies all[j] != c by {
        let body = text::joined(
            if starts_at_drive(shown) {
                seq![seq![capital(shown[0]), ':']] + place.names
            } else {
                place.names
            },
            seq!['/'],
        );
        let shift = all.len() - body.len();
        if j >= shift {
            assert(all[j] == body[j - shift]);
            assert(body.contains(body[j - shift]));
        }
    }
}

/// A path of the system, with `/` between its parts, without detours.
pub fn normalize_on(windows: bool, path: &str) -> (r: String)
    ensures
        r@ == normalized_on(windows, path@),
        is_tidy(r@),
{
    proof {
        law_normalized_on_has_no_detours(windows, path@);
    }
    let shown = unify(windows, path);
    let chars = text::chars_of(&shown);
    let n = chars.len();
    if !(windows && n > 2 && is_drive_letter(chars[0]) && chars[1] == ':' && chars[2] == '/') {
        return normalize_path(&shown);
    }
    let rest = text::from_range(&chars, 2, n);
    let body = normalize_path(&rest);
    let c = chars[0];
    let letter = if 'a' <= c && c <= 'z' {
        (c as u8 - 32) as char
    } else {
        c
    };
    let mut out = String::new();
    out.push(letter);
    out.push(':');
    let ghost drive = seq![capital(shown@[0]), ':'];
    let ghost names = walked(parts(rest@)).names;
    proof {
        assert(out@ =~= drive);
        assert(rest@ =~= shown@.skip(2));
        assert(rest@[0] == '/');
        lemma_parts_shape(rest@);
        lemma_walk_rooted(parts(rest@));
        lemma_walk_plain(parts(rest@));
        if names.len() == 0 {
            assert(body@ =~= seq!['/']);
            assert(seq![drive] + names =~= seq![drive]);
            assert(text::joined(seq![drive], seq!['/']) =~= drive);
        } else {
            let all = seq![drive] + names;
            text::lemma_joined_first(all, seq!['/']);
            assert(all.skip(1) =~= names);
            lemma_joined_slashes(names);
        }
    }
    if text::chars_of(&body).len() > 1 {
        out.append(&body);
    }
    assert(out@ =~= normalized_on(windows, path@));
    out
}

/// `name` below `base`, with the separator of the system.
pub open spec fn below_on(windows: bool, base: Seq<char>, name: Seq<char>) -> Seq<char> {
    if !windows {
        below(base, name)
    } else if base.len() == 0 || is_separator(base.last()) || is_drive(base) {
        base + name
    } else {
        base + seq!['\\'] + name
    }
}

/// `name` below `base`, with the separator of the system.
pub fn join_on(windows: bool, base: &str, name: &str) -> (r: String)
    ensures
        r@ == below_on(windows, base@, name@),
{
    if !windows {
        return join_path(base, name);
    }
    let chars = text::chars_of(base);
    let n = chars.len();
    let mut out = text::copied(base);
    if !(n == 0 || chars[n - 1] == '/' || chars[n - 1] == '\\' || n == 2 && is_drive_letter(chars[0])
        && chars[1] == ':') {
        out.push('\\');
        assert(out@ =~= base@ + seq!['\\']);
    }
    out.append(name);
    out
}

/// A path of Windows without the separators and the dots at its end that mean
/// nothing. That of the root, behind a drive or not, is kept.
pub open spec fn without_end_on_windows(path: Seq<char>) -> Seq<char>
    decreases path.len(),
{
    let n = path.len() as int;
    if n > 1 && (is_separator(path[n - 1]) && !is_drive(path.drop_last()) || path[n - 1] == '.'
        && is_separator(path[n - 2])) {
        without_end_on_windows(path.drop_last())
    } else {
        path
    }
}

/// A path of Windows up to the last separator in it, or up to its drive.
pub open spec fn up_to_separator(path: Seq<char>) -> Seq<char>
    decreases path.len(),
{
    if path.len() == 0 || is_separator(path.last()) || is_drive(path) {
        path
    } else {
        up_to_separator(path.drop_last())
    }
}

/// The directory that holds a path, where there is one, on the system. The
/// separator behind the share of a network path is not kept.
pub open spec fn dir_on(windows: bool, path: Seq<char>) -> Option<Seq<char>> {
    if !windows {
        parent_of(path)
    } else {
        let shown = without_end_on_windows(path);
        if shown.len() == 0 || is_separator(shown.last()) || is_drive(shown) {
            None
        } else {
            Some(without_end_on_windows(up_to_separator(shown)))
        }
    }
}

/// Where a path of Windows ends, before what means nothing.
fn cut_end_on_windows(chars: &Vec<char>, end: usize) -> (r: usize)
    requires
        end <= chars@.len(),
    ensures
        r <= end,
        chars@.take(r as int) == without_end_on_windows(chars@.take(end as int)),
{
    let mut to: usize = end;
    while to > 1 && ((chars[to - 1] == '/' || chars[to - 1] == '\\') && !(to == 3
        && is_drive_letter(chars[0]) && chars[1] == ':') || chars[to - 1] == '.' && (chars[to - 2] == '/' || chars[to - 2] == '\\'))
        invariant
            to <= end <= chars@.len(),
            without_end_on_windows(chars@.take(to as int)) == without_end_on_windows(
                chars@.take(end as int),
            ),
        decreases to,
    {
        assert(chars@.take(to as int).drop_last() =~= chars@.take(to - 1));
        to -= 1;
    }
    proof {
        if to > 1 {
            assert(chars@.take(to as int).drop_last() =~= chars@.take(to - 1));
        }
    }
    to
}

/// Where the last separator of a path of Windows ends, or its drive.
fn cut_to_separator(chars: &Vec<char>, end: usize) -> (r: usize)
    requires
        end <= chars@.len(),
    ensures
        r <= end,
        chars@.take(r as int) == up_to_separator(chars@.take(end as int)),
{
    let mut to: usize = end;
    while to > 0 && chars[to - 1] != '/' && chars[to - 1] != '\\' && !(to == 2
        && is_drive_letter(chars[0]) && chars[1] == ':')
        invariant
            to <= end <= chars@.len(),
            up_to_separator(chars@.take(to as int)) == up_to_separator(chars@.take(end as int)),
        decreases to,
    {
        assert(chars@.take(to as int).drop_last() =~= chars@.take(to - 1));
        assert(chars@.take(to as int).last() == chars@[to - 1]);
        to -= 1;
    }
    proof {
        if to > 0 {
            assert(chars@.take(to as int).last() == chars@[to - 1]);
        }
    }
    to
}

/// The directory that holds a path, where there is one, on the system.
pub fn parent_on(windows: bool, path: &str) -> (r: Option<String>)
    ensures
        text::opt_view(r) == dir_on(windows, path@),
{
    if !windows {
        return parent_path(path);
    }
    let chars = text::chars_of(path);
    assert(chars@.take(chars@.len() as int) =~= chars@);
    let end = cut_end_on_windows(&chars, chars.len());
    if end == 0 || chars[end - 1] == '/' || chars[end - 1] == '\\' || end == 2
        && is_drive_letter(chars[0]) && chars[1] == ':' {
        return None;
    }
    let front = cut_to_separator(&chars, end);
    let to = cut_end_on_windows(&chars, front);
    assert(chars@.take(to as int) =~= chars@.subrange(0, to as int));
    Some(text::from_range(&chars, 0, to))
}

/// Down into a directory and up again leads nowhere, and neither does a `.`; the root starts
/// anew.
pub proof fn law_up_undoes_down(list: Seq<Part>, name: Seq<char>)
    ensures
        walked(list.push(Part::Name(name)).push(Part::Parent)) == walked(list),
        walked(list.push(Part::Cur)) == walked(list),
        walked(list.push(Part::Root)) == walked(seq![Part::Root]),
{
    let down = list.push(Part::Name(name));
    assert(down.push(Part::Parent).drop_last() =~= down);
    assert(down.drop_last() =~= list);
    assert(list.push(Part::Cur).drop_last() =~= list);
    assert(list.push(Part::Root).drop_last() =~= list);
    assert(seq![Part::Root].drop_last() =~= Seq::<Part>::empty());
    assert(walked(down).names.drop_last() =~= walked(list).names);
}

/// What stands in a directory is named by its last part, lies inside it, and leads to where
/// the directory does and then to the name.
pub proof fn law_entry_lies_in_its_directory(dir: Seq<char>, name: Seq<char>)
    requires
        is_plain_name(name),
    ensures
        last_name(below(dir, name)) == name,
        is_inside(dir, below(dir, name)),
        walked(parts(below(dir, name))).names == walked(parts(dir)).names.push(name),
        walked(parts(below(dir, name))).rooted == walked(parts(dir)).rooted,
        has_hidden_part(below(dir, name)) <==> has_hidden_part(dir) || name[0] == '.',
{
    lemma_below_parts(dir, name);
    let list = parts(dir);
    let all = parts(below(dir, name));
    assert(all =~= list.push(Part::Name(name)));
    assert(all.drop_last() =~= list);
    assert(all.subrange(0, list.len() as int) =~= list);
    assert(all[list.len() as int] == Part::Name(name));
    if has_hidden_part(dir) {
        let i = choose|i: int|
            0 <= i < list.len() && match #[trigger] list[i] {
                Part::Name(name) => name.len() > 0 && name[0] == '.',
                _ => false,
            };
        assert(all[i] == list[i]);
    }
    if has_hidden_part(below(dir, name)) {
        let i = choose|i: int|
            0 <= i < all.len() && match #[trigger] all[i] {
                Part::Name(name) => name.len() > 0 && name[0] == '.',
                _ => false,
            };
        if i < list.len() {
            assert(all[i] == list[i]);
        }
    }
}

/// Names with slashes between them, from the root or not, are the path of those names.
pub proof fn law_plain_paths_are_normal(rooted: bool, names: Seq<Seq<char>>)
    requires
        forall|i: int| 0 <= i < names.len() ==> is_plain_name(#[trigger] names[i]),
    ensures
        ({
            let path = (if rooted {
                seq!['/']
            } else {
                seq![]
            }) + text::joined(names, seq!['/']);
            normalized(path) == path
        }),
{
    let place = Place { rooted, names };
    lemma_place_parts(place);
    lemma_walk_names(place);
}

/// What is seen from elsewhere is seen by its whole path.
pub proof fn law_other_paths_are_seen_whole(base: Seq<char>, path: Seq<char>)
    requires
        !parts(base).is_prefix_of(parts(path)),
    ensures
        seen_from(base, path) == path,
        relative(base, path) is None,
{
}

/// Behind a name comes what follows its slash.
proof fn lemma_behind_name(name: Seq<char>, rest: Seq<char>)
    requires
        !name.contains('/'),
        rest.len() > 0 ==> rest[0] == '/',
    ensures
        behind_part(name + rest) == rest,
    decreases name.len(),
{
    let all = name + rest;
    if name.len() == 0 {
        assert(all =~= rest);
    } else {
        assert(all[0] == name[0]);
        assert(name.contains(name[0]));
        let less = name.skip(1);
        assert forall|i: int| 0 <= i < less.len() implies less[i] != '/' by {
            assert(less[i] == name[i + 1]);
            assert(name.contains(name[i + 1]));
        }
        lemma_behind_name(less, rest);
        assert(all.skip(1) =~= less + rest);
    }
}

/// Names with slashes between them start and end with a part.
proof fn lemma_names_are_parts(names: Seq<Seq<char>>)
    requires
        forall|i: int| 0 <= i < names.len() ==> is_plain_name(#[trigger] names[i]),
    ensures
        from_part(text::joined(names, seq!['/'])) == text::joined(names, seq!['/']),
        without_end(text::joined(names, seq!['/'])) == text::joined(names, seq!['/']),
        names.len() > 0 ==> text::joined(names, seq!['/']).len() > 0 && text::joined(
            names,
            seq!['/'],
        )[0] != '/' && text::joined(names, seq!['/']) != seq!['.'],
{
    let all = text::joined(names, seq!['/']);
    if names.len() > 0 {
        let first = names[0];
        let last = names.last();
        assert(is_plain_name(first) && is_plain_name(last));
        assert(first.contains(first[0]));
        assert(last.contains(last.last()));
        if names.len() > 1 {
            text::lemma_joined_first(names, seq!['/']);
            assert(all == text::joined(names.drop_last(), seq!['/']) + seq!['/'] + last);
        }
        assert(all[0] == first[0]);
        assert(all.last() == last.last());
        if first.len() > 1 {
            assert(all[1] == first[1]);
            assert(first.contains(first[1]));
        }
        if first.len() == 1 && first[0] == '.' {
            assert(first =~= seq!['.']);
        }
        if all == seq!['.'] {
            assert(all[0] == '.');
            assert(all.len() == 1 && first.len() == 1);
            assert(first =~= seq!['.']);
        }
        if last.len() > 1 {
            let n = all.len();
            assert(all[n - 2] == last[last.len() - 2]);
            assert(last.contains(last[last.len() - 2]));
        } else if last[0] == '.' {
            assert(last =~= seq!['.']);
        }
    }
}

/// Behind some of the names with slashes between them come the others.
proof fn lemma_behind_names(rest: Seq<char>, names: Seq<Seq<char>>, k: nat)
    requires
        forall|i: int| 0 <= i < names.len() ==> is_plain_name(#[trigger] names[i]),
        from_part(rest) == text::joined(names, seq!['/']),
        k <= names.len(),
    ensures
        from_part(behind_parts(rest, k)) == text::joined(names.skip(k as int), seq!['/']),
    decreases k,
{
    if k == 0 {
        assert(names.skip(0) =~= names);
    } else {
        let all = text::joined(names, seq!['/']);
        let fewer = names.skip(1);
        assert forall|i: int| 0 <= i < fewer.len() implies is_plain_name(#[trigger] fewer[i]) by {
            assert(fewer[i] == names[i + 1]);
        }
        assert(is_plain_name(names[0]));
        lemma_names_are_parts(fewer);
        let behind = behind_part(all);
        if names.len() > 1 {
            text::lemma_joined_first(names, seq!['/']);
            let tail = seq!['/'] + text::joined(fewer, seq!['/']);
            assert(all =~= names[0] + tail);
            lemma_behind_name(names[0], tail);
            assert(behind == tail);
            assert(tail.skip(1) =~= text::joined(fewer, seq!['/']));
        } else {
            let tail = Seq::<char>::empty();
            assert(all =~= names[0] + tail);
            lemma_behind_name(names[0], tail);
            assert(fewer.len() == 0);
        }
        assert(from_part(behind) == text::joined(fewer, seq!['/']));
        lemma_behind_names(behind, fewer, (k - 1) as nat);
        assert(fewer.skip(k - 1) =~= names.skip(k as int));
    }
}

/// What lies below a directory is seen from it by the names that lead from the directory to
/// it.
pub proof fn law_paths_are_seen_from_their_directory(base: Seq<Seq<char>>, names: Seq<Seq<char>>)
    requires
        forall|i: int| 0 <= i < base.len() ==> is_plain_name(#[trigger] base[i]),
        forall|i: int| 0 <= i < names.len() ==> is_plain_name(#[trigger] names[i]),
    ensures
        ({
            let dir = seq!['/'] + text::joined(base, seq!['/']);
            let path = seq!['/'] + text::joined(base + names, seq!['/']);
            &&& relative(dir, path) == Some(text::joined(names, seq!['/']))
            &&& seen_from(dir, path) == text::joined(names, seq!['/'])
        }),
{
    let dir = seq!['/'] + text::joined(base, seq!['/']);
    let path = seq!['/'] + text::joined(base + names, seq!['/']);
    let all = base + names;
    assert forall|i: int| 0 <= i < all.len() implies is_plain_name(#[trigger] all[i]) by {
        if i < base.len() {
            assert(all[i] == base[i]);
        } else {
            assert(all[i] == names[i - base.len()]);
        }
    }
    lemma_place_parts(Place { rooted: true, names: base });
    lemma_place_parts(Place { rooted: true, names: all });
    assert(parts(dir).len() == base.len() + 1);
    assert(parts(path).subrange(0, base.len() as int + 1) =~= parts(dir));
    assert(is_inside(dir, path));
    let inner = text::joined(all, seq!['/']);
    assert(path.skip(1) =~= inner);
    lemma_names_are_parts(all);
    lemma_names_are_parts(names);
    lemma_behind_names(inner, all, base.len());
    assert(all.skip(base.len() as int) =~= names);
}

/// The directory of an entry is what stands before its name.
pub proof fn law_entry_leads_to_its_directory(dir: Seq<Seq<char>>, name: Seq<char>)
    requires
        dir.len() > 0,
        forall|i: int| 0 <= i < dir.len() ==> is_plain_name(#[trigger] dir[i]),
        is_plain_name(name),
    ensures
        parent_of(text::joined(dir.push(name), seq!['/'])) == Some(text::joined(dir, seq!['/'])),
        parent_of(seq!['/'] + text::joined(dir.push(name), seq!['/'])) == Some(
            seq!['/'] + text::joined(dir, seq!['/']),
        ),
{
    let names = dir.push(name);
    let front = text::joined(dir, seq!['/']);
    let all = text::joined(names, seq!['/']);
    assert(names.drop_last() =~= dir);
    assert(all == front + seq!['/'] + name);
    assert forall|i: int| 0 <= i < names.len() implies is_plain_name(#[trigger] names[i]) by {
        if i < dir.len() {
            assert(names[i] == dir[i]);
        }
    }
    lemma_names_are_parts(names);
    lemma_names_are_parts(dir);
    lemma_place_parts(Place { rooted: false, names });
    lemma_place_parts(Place { rooted: true, names });
    assert(place_text(Place { rooted: false, names }) =~= all);
    assert(parts(all).last() is Name);
    lemma_up_to_slash(front + seq!['/'], name);
    assert(is_plain_name(dir.last()));
    assert(dir.last().contains(dir.last().last()));
    assert(front.len() > 0 && front.last() == dir.last().last());
    lemma_end_cut(front);
    assert(without_end(front + seq!['/']) == front);
    let rooted = seq!['/'] + all;
    assert(rooted =~= (seq!['/'] + front + seq!['/']) + name);
    assert(parts(rooted).last() is Name);
    lemma_up_to_slash(seq!['/'] + front + seq!['/'], name);
    lemma_root_kept(all);
    lemma_root_kept(front);
    lemma_end_cut(seq!['/'] + front);
}

/// A path cut at its last slash, where a name follows that slash.
proof fn lemma_up_to_slash(front: Seq<char>, name: Seq<char>)
    requires
        front.len() > 0,
        front.last() == '/',
        !name.contains('/'),
    ensures
        up_to_slash(front + name) == front,
    decreases name.len(),
{
    let all = front + name;
    if name.len() == 0 {
        assert(all =~= front);
    } else {
        assert(all.last() == name.last());
        assert(name.contains(name.last()));
        let less = name.drop_last();
        assert forall|i: int| 0 <= i < less.len() implies less[i] != '/' by {
            assert(name.contains(name[i]));
        }
        lemma_up_to_slash(front, less);
        assert(all.drop_last() =~= front + less);
    }
}

/// A slash at the end of a path is cut off.
proof fn lemma_end_cut(path: Seq<char>)
    requires
        path.len() > 0,
        without_end(path) == path,
    ensures
        without_end(path + seq!['/']) == path,
{
    assert((path + seq!['/']).drop_last() =~= path);
}

/// Nothing is cut from a path with the root before it where nothing is cut without it.
proof fn lemma_root_kept(path: Seq<char>)
    requires
        path.len() > 0,
        path[0] != '/',
        path != seq!['.'],
        without_end(path) == path,
    ensures
        without_end(seq!['/'] + path) == seq!['/'] + path,
{
    let all = seq!['/'] + path;
    assert(all.last() == path.last());
    if path.len() > 1 {
        assert(all[all.len() - 2] == path[path.len() - 2]);
        if path.last() == '/' || path.last() == '.' && path[path.len() - 2] == '/' {
            lemma_without_end(path.drop_last());
            assert(without_end(path).len() <= path.len() - 1);
        }
    } else if path[0] == '.' {
        assert(path =~= seq!['.']);
    }
}

} // verus!
