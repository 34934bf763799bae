//! Paths: how a platform writes them, what they are made of, and where they lead.
//!
//! Nothing here asks the file system: two paths are compared, joined and judged by how they are written.

use crate::text::{chars_of, same, string_of};
use vstd::prelude::*;
use vstd::string::{StrSliceExecFns, StringExecFns};

verus! {

/// `std::path::is_separator`: whether a character is one of the path separators of the platform. A slash
/// is one on every platform; of any other character the answer rests on the platform and is left open.
pub assume_specification[ std::path::is_separator ](c: char) -> (r: bool)
    ensures
        c == '/' ==> r,
;

/// The characters that separate the pieces of a path.
#[derive(Debug, Clone, Copy, PartialEq, Eq, Structural)]
pub struct Separators {
    /// Whether a slash does.
    pub slash: bool,
    /// Whether a backslash does.
    pub backslash: bool,
}

impl Separators {
    /// Whether `c` is one of them.
    pub open spec fn has(self, c: char) -> bool {
        (self.slash && c == '/') || (self.backslash && c == '\\')
    }

    fn separates(self, c: char) -> (r: bool)
        ensures
            r == self.has(c),
    {
        (self.slash && c == '/') || (self.backslash && c == '\\')
    }
}

/// How paths are written.
#[derive(Debug, Clone, Copy, PartialEq, Eq, Structural)]
pub enum Platform {
    /// Slashes separate the pieces of a path.
    Unix,
    /// Slashes and backslashes separate the pieces, and a path may start with a drive.
    Windows,
}

impl Platform {
    /// The separators.
    pub open spec fn separators(self) -> Separators {
        Separators { slash: true, backslash: self == Platform::Windows }
    }

    /// The separator that is written between two paths.
    pub open spec fn separator(self) -> Seq<char> {
        match self {
            Platform::Unix => "/"@,
            Platform::Windows => "\\"@,
        }
    }

    /// The platform, told by whether a backslash separates the pieces of a path there.
    pub fn of_backslash(separates: bool) -> (platform: Platform)
        ensures
            platform.separators().has('\\') == separates,
            platform == (if separates {
                Platform::Windows
            } else {
                Platform::Unix
            }),
    {
        if separates {
            Platform::Windows
        } else {
            Platform::Unix
        }
    }

    fn all_separators(self) -> (seps: Separators)
        ensures
            seps == self.separators(),
    {
        Separators { slash: true, backslash: self == Platform::Windows }
    }
}

/// The index of the first separator in `s`, or the length of `s` if there is none.
pub open spec fn first_separator(seps: Separators, s: Seq<char>) -> nat
    decreases s.len(),
{
    if s.len() == 0 || seps.has(s[0]) {
        0
    } else {
        1 + first_separator(seps, s.skip(1))
    }
}

/// The pieces of a path between its separators.
pub open spec fn pieces(seps: Separators, path: Seq<char>) -> Seq<Seq<char>>
    decreases path.len(),
{
    let end = first_separator(seps, path);
    if end >= path.len() {
        seq![path]
    } else {
        seq![path.take(end as int)] + pieces(seps, path.skip(end as int + 1))
    }
}

/// Whether a piece of a path names nothing: it is empty or the current directory.
pub open spec fn is_idle(piece: Seq<char>) -> bool {
    piece.len() == 0 || piece == "."@
}

/// The pieces that name something, in order.
pub open spec fn named(pieces: Seq<Seq<char>>) -> Seq<Seq<char>>
    decreases pieces.len(),
{
    if pieces.len() == 0 {
        Seq::empty()
    } else if is_idle(pieces.last()) {
        named(pieces.drop_last())
    } else {
        named(pieces.drop_last()).push(pieces.last())
    }
}

/// The number of a letter of the alphabet, small or capital.
pub open spec fn letter(c: char) -> Option<u32> {
    let u = c as u32;
    if 65 <= u <= 90 {
        Some((u - 65) as u32)
    } else if 97 <= u <= 122 {
        Some((u - 97) as u32)
    } else {
        None
    }
}

/// The drive that a path starts with, if it starts with one: a letter and a colon.
pub open spec fn drive(platform: Platform, path: Seq<char>) -> Option<u32> {
    if platform == Platform::Windows && path.len() >= 2 && path[1] == ':' {
        letter(path[0])
    } else {
        None
    }
}

/// A path without its drive.
pub open spec fn body(platform: Platform, path: Seq<char>) -> Seq<char> {
    if drive(platform, path) is Some {
        path.skip(2)
    } else {
        path
    }
}

/// Whether a path starts at the root of a file system.
pub open spec fn is_rooted(platform: Platform, path: Seq<char>) -> bool {
    body(platform, path).len() > 0 && platform.separators().has(body(platform, path)[0])
}

/// Whether a path says that it starts in the current directory.
pub open spec fn starts_here(platform: Platform, path: Seq<char>) -> bool {
    pieces(platform.separators(), body(platform, path))[0] == "."@
}

/// The pieces of a path that name something.
pub open spec fn components(platform: Platform, path: Seq<char>) -> Seq<Seq<char>> {
    named(pieces(platform.separators(), body(platform, path)))
}

impl Platform {
    /// Whether two paths name the same place component by component.
    pub open spec fn same_path(self, a: Seq<char>, b: Seq<char>) -> bool {
        &&& drive(self, a) == drive(self, b)
        &&& is_rooted(self, a) == is_rooted(self, b)
        &&& starts_here(self, a) == starts_here(self, b)
        &&& components(self, a) == components(self, b)
    }
}

/// Whether following `path` could lead out of the directory it starts from.
pub open spec fn escapes(platform: Platform, path: Seq<char>) -> bool {
    ||| drive(platform, path) is Some
    ||| is_rooted(platform, path)
    ||| pieces(platform.separators(), path).contains(".."@)
}

/// How a path starts that is taken literally: in it only a backslash separates, and nothing is resolved.
pub const VERBATIM: &'static str = "\\\\?\\";

/// Whether a path is taken literally.
pub open spec fn is_verbatim(platform: Platform, path: Seq<char>) -> bool {
    platform == Platform::Windows && VERBATIM@.is_prefix_of(path)
}

/// The pieces that are not empty, in order.
pub open spec fn filled(pieces: Seq<Seq<char>>) -> Seq<Seq<char>>
    decreases pieces.len(),
{
    if pieces.len() == 0 {
        Seq::empty()
    } else if pieces.last().len() == 0 {
        filled(pieces.drop_last())
    } else {
        filled(pieces.drop_last()).push(pieces.last())
    }
}

/// What a path that is taken literally is made of.
pub open spec fn verbatim_parts(path: Seq<char>) -> Seq<Seq<char>> {
    filled(pieces(Separators { slash: false, backslash: true }, path.skip(VERBATIM@.len() as int)))
}

/// The literal path that is made of `parts`.
pub open spec fn spelled(parts: Seq<Seq<char>>) -> Seq<char>
    decreases parts.len(),
{
    if parts.len() == 0 {
        VERBATIM@
    } else if parts.len() == 1 {
        VERBATIM@ + parts[0]
    } else {
        spelled(parts.drop_last()) + "\\"@ + parts.last()
    }
}

/// Where the first `n` of `steps` lead from `parts`. A step up ends at what the path starts with: a
/// drive, or a server and a share.
pub open spec fn walked(parts: Seq<Seq<char>>, steps: Seq<Seq<char>>, n: int) -> Seq<Seq<char>>
    decreases n,
{
    if n <= 0 {
        parts
    } else {
        let at = walked(parts, steps, n - 1);
        let fixed = if at.len() > 0 && at[0] == "UNC"@ {
            3
        } else {
            1int
        };
        if steps[n - 1] != ".."@ {
            at.push(steps[n - 1])
        } else if at.len() > fixed {
            at.drop_last()
        } else {
            at
        }
    }
}

/// Whether a path can be appended to `root` without a separator in between.
pub open spec fn is_open_ended(platform: Platform, root: Seq<char>) -> bool {
    ||| root.len() == 0
    ||| platform.separators().has(root.last())
    ||| drive(platform, root) is Some && root.len() == 2
}

/// `path`, which has no drive and no root of its own, below `root`. Below a root that is taken literally
/// nothing would resolve `path`, so its steps are taken one by one.
pub open spec fn join(platform: Platform, root: Seq<char>, path: Seq<char>) -> Seq<char> {
    if is_verbatim(platform, root) && path.len() > 0 {
        let steps = named(pieces(platform.separators(), path));
        spelled(walked(verbatim_parts(root), steps, steps.len() as int))
    } else if is_open_ended(platform, root) {
        root + path
    } else {
        root + platform.separator() + path
    }
}

proof fn lemma_first_separator(seps: Separators, s: Seq<char>, n: int)
    requires
        0 <= n <= s.len(),
        forall|k: int| 0 <= k < n ==> !seps.has(#[trigger] s[k]),
        n == s.len() || seps.has(s[n]),
    ensures
        first_separator(seps, s) == n,
    decreases s.len(),
{
    if s.len() > 0 && !seps.has(s[0]) {
        assert forall|k: int| 0 <= k < n - 1 implies !seps.has(#[trigger] s.skip(1)[k]) by {
            assert(s.skip(1)[k] == s[k + 1]);
        }
        lemma_first_separator(seps, s.skip(1), n - 1);
    }
}

fn split_path(seps: Separators, path: &Vec<char>, from: usize) -> (out: Vec<String>)
    requires
        from <= path@.len(),
    ensures
        crate::text::texts(out@) == pieces(seps, path@.skip(from as int)),
{
    let mut out: Vec<String> = Vec::new();
    let mut start: usize = from;
    let mut done = false;
    let ghost whole = pieces(seps, path@.skip(from as int));
    assert(crate::text::texts(out@) + whole =~= whole);
    while !done
        invariant
            start <= path@.len(),
            !done ==> crate::text::texts(out@) + pieces(seps, path@.skip(start as int)) == whole,
            done ==> crate::text::texts(out@) == whole,
        decreases path@.len() - start + (if done { 0int } else { 1int }),
    {
        let ghost rest = path@.skip(start as int);
        let mut end: usize = start;
        while end < path.len() && !seps.separates(path[end])
            invariant
                start <= end <= path@.len(),
                forall|k: int| start <= k < end ==> !seps.has(#[trigger] path@[k]),
            decreases path@.len() - end,
        {
            end += 1;
        }
        let ghost before = crate::text::texts(out@);
        out.push(string_of(path, start, end));
        proof {
            let piece = path@.subrange(start as int, end as int);
            assert forall|k: int| 0 <= k < end - start implies !seps.has(#[trigger] rest[k]) by {
                assert(rest[k] == path@[k + start]);
            }
            lemma_first_separator(seps, rest, end - start);
            assert(rest.take(end - start) =~= piece);
            assert(crate::text::texts(out@) =~= before + seq![piece]);
            if end == path@.len() {
                assert(rest =~= piece);
            } else {
                assert(rest.skip(end - start + 1) =~= path@.skip(end + 1));
                assert(crate::text::texts(out@) + pieces(seps, path@.skip(end + 1)) =~= before + (
                seq![piece] + pieces(seps, path@.skip(end + 1))));
            }
        }
        if end == path.len() {
            done = true;
        } else {
            start = end + 1;
        }
    }
    out
}

fn named_of(parts: &Vec<String>) -> (out: Vec<String>)
    ensures
        crate::text::texts(out@) == named(crate::text::texts(parts@)),
{
    let mut out: Vec<String> = Vec::new();
    let mut i: usize = 0;
    assert(crate::text::texts(parts@).take(0) =~= Seq::<Seq<char>>::empty());
    assert(crate::text::texts(out@) =~= Seq::<Seq<char>>::empty());
    while i < parts.len()
        invariant
            i <= parts@.len(),
            crate::text::texts(out@) == named(crate::text::texts(parts@).take(i as int)),
        decreases parts@.len() - i,
    {
        let piece: &str = parts[i].as_str();
        let ghost prefix = crate::text::texts(parts@).take(i as int + 1);
        assert(prefix.drop_last() =~= crate::text::texts(parts@).take(i as int));
        assert(prefix.last() == piece@);
        let ghost before = crate::text::texts(out@);
        if !(piece.is_empty() || same(piece, ".")) {
            out.push(piece.to_owned());
            assert(crate::text::texts(out@) =~= before.push(piece@));
        }
        i += 1;
    }
    assert(crate::text::texts(parts@).take(parts@.len() as int) =~= crate::text::texts(parts@));
    out
}

fn drive_of(platform: Platform, path: &Vec<char>) -> (r: Option<u32>)
    ensures
        r == drive(platform, path@),
{
    if platform == Platform::Windows && path.len() >= 2 && path[1] == ':' {
        let u: u32 = path[0] as u32;
        if 65 <= u && u <= 90 {
            Some(u - 65)
        } else if 97 <= u && u <= 122 {
            Some(u - 97)
        } else {
            None
        }
    } else {
        None
    }
}

/// Where a path's body starts.
fn body_start(platform: Platform, path: &Vec<char>) -> (at: usize)
    ensures
        at <= path@.len(),
        path@.skip(at as int) == body(platform, path@),
{
    if drive_of(platform, path).is_some() {
        2
    } else {
        assert(path@.skip(0) =~= path@);
        0
    }
}

fn rooted(platform: Platform, path: &Vec<char>) -> (r: bool)
    ensures
        r == is_rooted(platform, path@),
{
    let at: usize = body_start(platform, path);
    assert(at < path@.len() ==> body(platform, path@)[0] == path@[at as int]);
    at < path.len() && platform.all_separators().separates(path[at])
}

fn same_texts(a: &Vec<String>, b: &Vec<String>) -> (r: bool)
    ensures
        r == (crate::text::texts(a@) == crate::text::texts(b@)),
{
    if a.len() != b.len() {
        assert(crate::text::texts(a@).len() != crate::text::texts(b@).len());
        return false;
    }
    let mut i: usize = 0;
    while i < a.len()
        invariant
            i <= a@.len() == b@.len(),
            forall|k: int| 0 <= k < i ==> crate::text::texts(a@)[k] == crate::text::texts(b@)[k],
        decreases a@.len() - i,
    {
        if a[i] != b[i] {
            assert(crate::text::texts(a@)[i as int] != crate::text::texts(b@)[i as int]);
            return false;
        }
        i += 1;
    }
    assert(crate::text::texts(a@) =~= crate::text::texts(b@));
    true
}

/// Whether two paths name the same place, however often a separator or a `.` is repeated in them.
pub fn paths_agree(platform: Platform, a: &str, b: &str) -> (r: bool)
    ensures
        r == platform.same_path(a@, b@),
{
    let (x, y) = (chars_of(a), chars_of(b));
    let seps = platform.all_separators();
    let p = split_path(seps, &x, body_start(platform, &x));
    let q = split_path(seps, &y, body_start(platform, &y));
    assert(crate::text::texts(p@).len() > 0 && crate::text::texts(q@).len() > 0);
    assert(crate::text::texts(p@)[0] == p@[0]@ && crate::text::texts(q@)[0] == q@[0]@);
    drive_of(platform, &x) == drive_of(platform, &y) && rooted(platform, &x) == rooted(platform, &y)
        && same(p[0].as_str(), ".") == same(q[0].as_str(), ".") && same_texts(
        &named_of(&p),
        &named_of(&q),
    )
}

/// Whether following `path` could lead out of the directory it starts from.
pub fn leads_out(platform: Platform, path: &str) -> (r: bool)
    ensures
        r == escapes(platform, path@),
{
    let chars = chars_of(path);
    if drive_of(platform, &chars).is_some() || rooted(platform, &chars) {
        return true;
    }
    let parts = split_path(platform.all_separators(), &chars, 0);
    assert(path@.skip(0) =~= path@);
    let mut i: usize = 0;
    while i < parts.len()
        invariant
            i <= parts@.len(),
            crate::text::texts(parts@) == pieces(platform.separators(), path@),
            forall|k: int| 0 <= k < i ==> crate::text::texts(parts@)[k] != ".."@,
        decreases parts@.len() - i,
    {
        if same(parts[i].as_str(), "..") {
            assert(pieces(platform.separators(), path@)[i as int] == ".."@);
            return true;
        }
        i += 1;
    }
    false
}

fn filled_of(parts: &Vec<String>) -> (out: Vec<String>)
    ensures
        crate::text::texts(out@) == filled(crate::text::texts(parts@)),
{
    let mut out: Vec<String> = Vec::new();
    let mut i: usize = 0;
    assert(crate::text::texts(parts@).take(0) =~= Seq::<Seq<char>>::empty());
    assert(crate::text::texts(out@) =~= Seq::<Seq<char>>::empty());
    while i < parts.len()
        invariant
            i <= parts@.len(),
            crate::text::texts(out@) == filled(crate::text::texts(parts@).take(i as int)),
        decreases parts@.len() - i,
    {
        let piece: &str = parts[i].as_str();
        let ghost prefix = crate::text::texts(parts@).take(i as int + 1);
        assert(prefix.drop_last() =~= crate::text::texts(parts@).take(i as int));
        assert(prefix.last() == piece@);
        let ghost before = crate::text::texts(out@);
        if !piece.is_empty() {
            out.push(piece.to_owned());
            assert(crate::text::texts(out@) =~= before.push(piece@));
        }
        i += 1;
    }
    assert(crate::text::texts(parts@).take(parts@.len() as int) =~= crate::text::texts(parts@));
    out
}

fn starts_verbatim(platform: Platform, path: &Vec<char>) -> (r: bool)
    ensures
        r == is_verbatim(platform, path@),
{
    proof {
        reveal_strlit("\\\\?\\");
    }
    let r = platform == Platform::Windows && path.len() >= 4 && path[0] == '\\' && path[1] == '\\'
        && path[2] == '?' && path[3] == '\\';
    assert(VERBATIM@ =~= seq!['\\', '\\', '?', '\\']);
    proof {
        if r {
            assert(VERBATIM@ =~= path@.subrange(0, 4));
        } else if is_verbatim(platform, path@) {
            assert(path@[0] == VERBATIM@[0] && path@[1] == VERBATIM@[1]);
            assert(path@[2] == VERBATIM@[2] && path@[3] == VERBATIM@[3]);
        }
    }
    r
}

fn walk(parts: &mut Vec<String>, steps: &Vec<String>)
    ensures
        crate::text::texts(final(parts)@) == walked(
            crate::text::texts(old(parts)@),
            crate::text::texts(steps@),
            steps@.len() as int,
        ),
{
    let ghost start = crate::text::texts(parts@);
    let mut n: usize = 0;
    while n < steps.len()
        invariant
            n <= steps@.len(),
            crate::text::texts(parts@) == walked(start, crate::text::texts(steps@), n as int),
        decreases steps@.len() - n,
    {
        let step: &str = steps[n].as_str();
        let ghost at = crate::text::texts(parts@);
        assert(crate::text::texts(steps@)[n as int] == step@);
        if parts.len() > 0 {
            assert(at[0] == parts@[0]@);
        }
        let fixed: usize = if parts.len() > 0 && same(parts[0].as_str(), "UNC") {
            3
        } else {
            1
        };
        if !same(step, "..") {
            parts.push(step.to_owned());
            assert(crate::text::texts(parts@) =~= at.push(step@));
        } else if parts.len() > fixed {
            parts.pop();
            assert(crate::text::texts(parts@) =~= at.drop_last());
        }
        n += 1;
    }
}

fn spell(parts: &Vec<String>) -> (out: String)
    ensures
        out@ == spelled(crate::text::texts(parts@)),
{
    let mut out = VERBATIM.to_owned();
    let ghost all = crate::text::texts(parts@);
    let mut i: usize = 0;
    while i < parts.len()
        invariant
            i <= parts@.len(),
            all == crate::text::texts(parts@),
            out@ == spelled(all.take(i as int)),
        decreases parts@.len() - i,
    {
        assert(all.take(i as int + 1).drop_last() =~= all.take(i as int));
        assert(all.take(i as int + 1).last() == parts@[i as int]@);
        if i > 0 {
            out.append("\\");
        }
        out.append(parts[i].as_str());
        i += 1;
    }
    assert(all.take(all.len() as int) =~= all);
    out
}

/// `path`, which has no drive and no root of its own, below `root`.
pub fn join_paths(platform: Platform, root: &str, path: &str) -> (out: String)
    requires
        drive(platform, path@) is None,
        !is_rooted(platform, path@),
    ensures
        out@ == join(platform, root@, path@),
{
    let above = chars_of(root);
    let seps = platform.all_separators();
    if starts_verbatim(platform, &above) && !path.is_empty() {
        proof {
            reveal_strlit("\\\\?\\");
        }
        let mut parts = filled_of(
            &split_path(Separators { slash: false, backslash: true }, &above, 4),
        );
        assert(path@.skip(0) =~= path@);
        let steps = named_of(&split_path(seps, &chars_of(path), 0));
        walk(&mut parts, &steps);
        return spell(&parts);
    }
    let mut out = root.to_owned();
    if above.len() > 0 && !seps.separates(above[above.len() - 1]) && !(above.len() == 2 && drive_of(
        platform,
        &above,
    ).is_some()) {
        match platform {
            Platform::Unix => {
                out.append("/");
            },
            Platform::Windows => {
                out.append("\\");
            },
        }
    }
    out.append(path);
    out
}

proof fn lemma_separator_found(seps: Separators, s: Seq<char>)
    ensures
        first_separator(seps, s) <= s.len(),
        first_separator(seps, s) < s.len() ==> seps.has(s[first_separator(seps, s) as int]),
        forall|k: int| 0 <= k < first_separator(seps, s) ==> !seps.has(#[trigger] s[k]),
    decreases s.len(),
{
    if s.len() > 0 && !seps.has(s[0]) {
        let rest = s.skip(1);
        lemma_separator_found(seps, rest);
        assert forall|k: int| 0 <= k < first_separator(seps, s) implies !seps.has(#[trigger] s[k]) by {
            if k > 0 {
                assert(rest[k - 1] == s[k]);
            }
        }
        if first_separator(seps, s) < s.len() {
            assert(rest[first_separator(seps, rest) as int] == s[first_separator(seps, s) as int]);
        }
    }
}

proof fn lemma_pieces_append(seps: Separators, a: Seq<char>, c: char, b: Seq<char>)
    requires
        seps.has(c),
    ensures
        pieces(seps, a + seq![c] + b) == pieces(seps, a) + pieces(seps, b),
    decreases a.len(),
{
    let all = a + seq![c] + b;
    let end = first_separator(seps, a) as int;
    lemma_separator_found(seps, a);
    assert forall|k: int| 0 <= k < end implies !seps.has(#[trigger] all[k]) by {
        assert(all[k] == a[k]);
    }
    if end < a.len() {
        assert(all[end] == a[end]);
        lemma_first_separator(seps, all, end);
        assert(all.take(end) =~= a.take(end));
        assert(all.skip(end + 1) =~= a.skip(end + 1) + seq![c] + b);
        lemma_pieces_append(seps, a.skip(end + 1), c, b);
        assert(pieces(seps, all) =~= pieces(seps, a) + pieces(seps, b));
    } else {
        assert(all[end] == c);
        lemma_first_separator(seps, all, end);
        assert(all.take(end) =~= a);
        assert(all.skip(end + 1) =~= b);
        assert(pieces(seps, all) =~= pieces(seps, a) + pieces(seps, b));
    }
}

proof fn lemma_pieces_have_no_separator(seps: Separators, path: Seq<char>, i: int)
    requires
        0 <= i < pieces(seps, path).len(),
    ensures
        forall|k: int|
            0 <= k < pieces(seps, path)[i].len() ==> !seps.has(#[trigger] pieces(seps, path)[i][k]),
    decreases path.len(),
{
    let end = first_separator(seps, path) as int;
    lemma_separator_found(seps, path);
    if end < path.len() {
        if i == 0 {
            assert forall|k: int| 0 <= k < end implies !seps.has(#[trigger] path.take(end)[k]) by {
                assert(path.take(end)[k] == path[k]);
            }
        } else {
            lemma_pieces_have_no_separator(seps, path.skip(end + 1), i - 1);
        }
    }
}

proof fn lemma_named_append(a: Seq<Seq<char>>, b: Seq<Seq<char>>)
    ensures
        named(a + b) == named(a) + named(b),
    decreases b.len(),
{
    if b.len() == 0 {
        assert(a + b =~= a);
        assert(named(a) + named(b) =~= named(a));
    } else {
        assert((a + b).drop_last() =~= a + b.drop_last());
        assert((a + b).last() == b.last());
        lemma_named_append(a, b.drop_last());
        assert(named(a + b) =~= named(a) + named(b));
    }
}

proof fn lemma_named_members(p: Seq<Seq<char>>, i: int)
    requires
        0 <= i < named(p).len(),
    ensures
        !is_idle(named(p)[i]),
        p.contains(named(p)[i]),
    decreases p.len(),
{
    if p.len() > 0 {
        let rest = p.drop_last();
        if i < named(rest).len() {
            lemma_named_members(rest, i);
            let m = choose|m: int| 0 <= m < rest.len() && rest[m] == named(rest)[i];
            assert(p[m] == named(p)[i]);
        } else {
            assert(p[p.len() - 1] == named(p)[i]);
        }
    }
}

proof fn lemma_nothing_is_named()
    ensures
        forall|seps: Separators|
            named(#[trigger] pieces(seps, Seq::empty())) == Seq::<Seq<char>>::empty(),
{
    reveal_with_fuel(named, 2);
    assert forall|seps: Separators|
        named(#[trigger] pieces(seps, Seq::empty())) == Seq::<Seq<char>>::empty() by {
        assert(pieces(seps, Seq::empty()) =~= seq![Seq::<char>::empty()]);
        assert(seq![Seq::<char>::empty()].drop_last() =~= Seq::<Seq<char>>::empty());
    }
}

/// The named pieces of all parts, one part after the other.
spec fn flat(seps: Separators, parts: Seq<Seq<char>>) -> Seq<Seq<char>>
    decreases parts.len(),
{
    if parts.len() == 0 {
        Seq::empty()
    } else {
        flat(seps, parts.drop_last()) + named(pieces(seps, parts.last()))
    }
}

proof fn lemma_flat_append(seps: Separators, a: Seq<Seq<char>>, b: Seq<Seq<char>>)
    ensures
        flat(seps, a + b) == flat(seps, a) + flat(seps, b),
    decreases b.len(),
{
    if b.len() == 0 {
        assert(a + b =~= a);
        assert(flat(seps, a) + flat(seps, b) =~= flat(seps, a));
    } else {
        assert((a + b).drop_last() =~= a + b.drop_last());
        assert((a + b).last() == b.last());
        lemma_flat_append(seps, a, b.drop_last());
        assert(flat(seps, a + b) =~= flat(seps, a) + flat(seps, b));
    }
}

/// Parts that are named pieces already stay as they are.
proof fn lemma_flat_of_named(seps: Separators, steps: Seq<Seq<char>>)
    requires
        forall|i: int| 0 <= i < steps.len() ==> !is_idle(#[trigger] steps[i]),
        forall|i: int, k: int|
            0 <= i < steps.len() && 0 <= k < steps[i].len() ==> !seps.has(#[trigger] steps[i][k]),
    ensures
        flat(seps, steps) == steps,
    decreases steps.len(),
{
    if steps.len() == 0 {
        assert(flat(seps, steps) =~= steps);
    } else {
        let (rest, last) = (steps.drop_last(), steps.last());
        assert forall|i: int, k: int| 0 <= i < rest.len() && 0 <= k < rest[i].len() implies !seps.has(
            #[trigger] rest[i][k],
        ) by {
            assert(rest[i] == steps[i]);
        }
        lemma_flat_of_named(seps, rest);
        assert forall|k: int| 0 <= k < last.len() implies !seps.has(#[trigger] last[k]) by {
            assert(steps[steps.len() - 1][k] == last[k]);
        }
        lemma_first_separator(seps, last, last.len() as int);
        assert(pieces(seps, last) =~= seq![last]);
        assert(seq![last].drop_last() =~= Seq::<Seq<char>>::empty());
        reveal_with_fuel(named, 2);
        assert(named(seq![last]) =~= seq![last]);
        assert(flat(seps, steps) =~= steps);
    }
}

proof fn lemma_flat_of_filled(seps: Separators, parts: Seq<Seq<char>>)
    ensures
        flat(seps, filled(parts)) == flat(seps, parts),
    decreases parts.len(),
{
    if parts.len() > 0 {
        lemma_flat_of_filled(seps, parts.drop_last());
        if parts.last().len() == 0 {
            lemma_nothing_is_named();
            assert(parts.last() =~= Seq::<char>::empty());
            assert(flat(seps, parts) =~= flat(seps, parts.drop_last()));
        } else {
            let kept = filled(parts);
            assert(kept.drop_last() =~= filled(parts.drop_last()));
        }
    }
}

/// Splitting at some of the separators first and at the rest of them after that names the same pieces.
proof fn lemma_split_twice(few: Separators, all: Separators, path: Seq<char>)
    requires
        forall|c: char| few.has(c) ==> all.has(c),
    ensures
        flat(all, pieces(few, path)) == named(pieces(all, path)),
    decreases path.len(),
{
    let end = first_separator(few, path) as int;
    lemma_separator_found(few, path);
    if end >= path.len() {
        reveal_with_fuel(flat, 2);
        assert(pieces(few, path).drop_last() =~= Seq::<Seq<char>>::empty());
        assert(flat(all, pieces(few, path)) =~= named(pieces(all, path)));
    } else {
        let (head, tail) = (path.take(end), path.skip(end + 1));
        lemma_split_twice(few, all, tail);
        lemma_flat_append(all, seq![head], pieces(few, tail));
        reveal_with_fuel(flat, 2);
        assert(seq![head].drop_last() =~= Seq::<Seq<char>>::empty());
        assert(flat(all, seq![head]) =~= named(pieces(all, head)));
        assert(path =~= head + seq![path[end]] + tail);
        lemma_pieces_append(all, head, path[end], tail);
        lemma_named_append(pieces(all, head), pieces(all, tail));
    }
}

proof fn lemma_spelled(parts: Seq<Seq<char>>)
    ensures
        named(pieces(Platform::Windows.separators(), spelled(parts))) == named(
            pieces(Platform::Windows.separators(), VERBATIM@),
        ) + flat(Platform::Windows.separators(), parts),
        VERBATIM@.is_prefix_of(spelled(parts)),
    decreases parts.len(),
{
    let seps = Platform::Windows.separators();
    reveal_strlit("\\\\?\\");
    reveal_strlit("\\");
    assert("\\"@ =~= seq!['\\']);
    let start = seq!['\\', '\\', '?'];
    if parts.len() == 0 {
        assert(spelled(parts) =~= VERBATIM@);
        assert(named(pieces(seps, VERBATIM@)) + flat(seps, parts) =~= named(pieces(seps, VERBATIM@)));
    } else if parts.len() == 1 {
        let part = parts[0];
        let none = Seq::<char>::empty();
        assert(VERBATIM@ =~= start + seq!['\\'] + none);
        assert(spelled(parts) =~= start + seq!['\\'] + part);
        lemma_pieces_append(seps, start, '\\', none);
        lemma_pieces_append(seps, start, '\\', part);
        lemma_named_append(pieces(seps, start), pieces(seps, none));
        lemma_named_append(pieces(seps, start), pieces(seps, part));
        lemma_nothing_is_named();
        reveal_with_fuel(flat, 2);
        assert(parts.drop_last() =~= Seq::<Seq<char>>::empty());
        assert(flat(seps, parts) =~= named(pieces(seps, part)));
        assert(named(pieces(seps, VERBATIM@)) =~= named(pieces(seps, start)));
    } else {
        let (rest, last) = (parts.drop_last(), parts.last());
        lemma_spelled(rest);
        assert(spelled(parts) =~= spelled(rest) + seq!['\\'] + last);
        lemma_pieces_append(seps, spelled(rest), '\\', last);
        lemma_named_append(pieces(seps, spelled(rest)), pieces(seps, last));
        assert(named(pieces(seps, spelled(parts))) =~= named(pieces(seps, VERBATIM@)) + flat(seps, parts));
        assert forall|k: int| 0 <= k < VERBATIM@.len() implies spelled(parts)[k] == VERBATIM@[k] by {
            assert(spelled(parts)[k] == spelled(rest)[k]);
        }
        assert(VERBATIM@ =~= spelled(parts).subrange(0, VERBATIM@.len() as int));
    }
}

proof fn lemma_walked_down(parts: Seq<Seq<char>>, steps: Seq<Seq<char>>, n: int)
    requires
        0 <= n <= steps.len(),
        forall|i: int| 0 <= i < steps.len() ==> #[trigger] steps[i] != ".."@,
    ensures
        walked(parts, steps, n) == parts + steps.take(n),
    decreases n,
{
    if n > 0 {
        lemma_walked_down(parts, steps, n - 1);
        assert(walked(parts, steps, n) =~= parts + steps.take(n));
    } else {
        assert(parts + steps.take(0) =~= parts);
    }
}

/// Below a root, a path that does not lead out adds its components to those of the root, and the start of
/// the root stays the start.
proof fn lemma_join(platform: Platform, root: Seq<char>, path: Seq<char>)
    requires
        !escapes(platform, path),
    ensures
        components(platform, join(platform, root, path)) == components(platform, root) + components(
            platform,
            path,
        ),
        drive(platform, join(platform, root, path)) == drive(platform, root),
        is_rooted(platform, join(platform, root, path)) == is_rooted(platform, root),
{
    let seps = platform.separators();
    let (above, full) = (body(platform, root), join(platform, root, path));
    reveal_strlit("/");
    reveal_strlit("\\");
    assert("/"@ =~= seq!['/']);
    assert("\\"@ =~= seq!['\\']);
    if is_verbatim(platform, root) && path.len() > 0 {
        let parts = pieces(seps, path);
        let steps = named(parts);
        reveal_strlit("\\\\?\\");
        assert(root[0] == VERBATIM@[0] && root[1] == VERBATIM@[1]);
        assert forall|i: int| 0 <= i < steps.len() implies #[trigger] steps[i] != ".."@ && !is_idle(
            steps[i],
        ) by {
            lemma_named_members(parts, i);
        }
        assert forall|i: int, k: int| 0 <= i < steps.len() && 0 <= k < steps[i].len() implies !seps.has(
            #[trigger] steps[i][k],
        ) by {
            lemma_named_members(parts, i);
            let m = choose|m: int| 0 <= m < parts.len() && parts[m] == steps[i];
            lemma_pieces_have_no_separator(seps, path, m);
            assert(!seps.has(parts[m][k]));
        }
        let few = Separators { slash: false, backslash: true };
        let rest = root.skip(VERBATIM@.len() as int);
        let literal = verbatim_parts(root);
        lemma_walked_down(literal, steps, steps.len() as int);
        assert(steps.take(steps.len() as int) =~= steps);
        lemma_spelled(literal + steps);
        lemma_flat_append(seps, literal, steps);
        lemma_flat_of_named(seps, steps);
        lemma_flat_of_filled(seps, pieces(few, rest));
        lemma_split_twice(few, seps, rest);
        assert(full[0] == VERBATIM@[0] && full[1] == VERBATIM@[1]);
        // The root itself, taken apart the same way.
        let start = seq!['\\', '\\', '?'];
        let none = Seq::<char>::empty();
        assert(VERBATIM@ =~= start + seq!['\\'] + none);
        assert(root =~= start + seq!['\\'] + rest);
        lemma_pieces_append(seps, start, '\\', none);
        lemma_pieces_append(seps, start, '\\', rest);
        lemma_named_append(pieces(seps, start), pieces(seps, none));
        lemma_named_append(pieces(seps, start), pieces(seps, rest));
        lemma_nothing_is_named();
        assert(named(pieces(seps, VERBATIM@)) =~= named(pieces(seps, start)));
        assert(components(platform, full) =~= components(platform, root) + components(platform, path));
    } else if root.len() == 0 {
        assert(root + path =~= path);
        lemma_nothing_is_named();
        assert(root =~= Seq::<char>::empty());
        assert(components(platform, root) + components(platform, path) =~= components(platform, path));
    } else if seps.has(root.last()) {
        if drive(platform, root) is Some {
            assert(full[0] == root[0] && full[1] == root[1]);
            assert(above.last() == root.last());
        } else if root.len() >= 2 {
            assert(full[0] == root[0] && full[1] == root[1]);
        } else {
            assert(full[0] == root[0]);
        }
        let stem = above.drop_last();
        let none = Seq::<char>::empty();
        let c = root.last();
        assert(above =~= stem + seq![c] + none);
        assert(body(platform, full) =~= stem + seq![c] + path);
        lemma_pieces_append(seps, stem, c, none);
        lemma_pieces_append(seps, stem, c, path);
        lemma_named_append(pieces(seps, stem), pieces(seps, none));
        lemma_named_append(pieces(seps, stem), pieces(seps, path));
        lemma_nothing_is_named();
        assert(components(platform, root) =~= named(pieces(seps, stem)));
        assert(body(platform, full)[0] == above[0]);
    } else if drive(platform, root) is Some && root.len() == 2 {
        assert(full[0] == root[0] && full[1] == root[1]);
        assert(above =~= Seq::<char>::empty());
        assert(body(platform, full) =~= path);
        lemma_nothing_is_named();
        assert(components(platform, root) + components(platform, path) =~= components(platform, path));
    } else {
        let c = platform.separator()[0];
        assert(full =~= root + seq![c] + path);
        assert(full[0] == root[0]);
        if root.len() >= 2 {
            assert(full[1] == root[1]);
        } else {
            assert(full[1] == c);
        }
        assert(body(platform, full) =~= above + seq![c] + path);
        assert(body(platform, full)[0] == above[0]);
        lemma_pieces_append(seps, above, c, path);
        lemma_named_append(pieces(seps, above), pieces(seps, path));
    }
}

/// Whether `path` lies below `root`: it starts where the root starts, with the root's components, and
/// those that follow never lead back up.
pub open spec fn below(platform: Platform, root: Seq<char>, path: Seq<char>) -> bool {
    &&& drive(platform, path) == drive(platform, root)
    &&& is_rooted(platform, path) == is_rooted(platform, root)
    &&& components(platform, root).is_prefix_of(components(platform, path))
    &&& !components(platform, path).skip(components(platform, root).len() as int).contains(".."@)
}

/// A path that does not lead out lies below the root that it is joined to.
pub proof fn law_joined_paths_lie_below_the_root(platform: Platform, root: Seq<char>, path: Seq<char>)
    requires
        !escapes(platform, path),
    ensures
        below(platform, root, join(platform, root, path)),
{
    let (above, steps) = (components(platform, root), components(platform, path));
    lemma_join(platform, root, path);
    assert((above + steps).skip(above.len() as int) =~= steps);
    assert forall|i: int| 0 <= i < steps.len() implies #[trigger] steps[i] != ".."@ by {
        lemma_named_members(pieces(platform.separators(), path), i);
    }
}

/// What leads out on Unix leads out on Windows as well.
pub proof fn law_windows_refuses_what_unix_refuses(path: Seq<char>)
    requires
        escapes(Platform::Unix, path),
    ensures
        escapes(Platform::Windows, path),
{
    let (few, all) = (Platform::Unix.separators(), Platform::Windows.separators());
    if !is_rooted(Platform::Unix, path) {
        let i = choose|i: int| 0 <= i < pieces(few, path).len() && pieces(few, path)[i] == ".."@;
        lemma_parent_steps_remain(few, all, path, i);
    }
}

proof fn lemma_parent_steps_remain(few: Separators, all: Separators, path: Seq<char>, i: int)
    requires
        forall|c: char| few.has(c) ==> all.has(c),
        !all.has('.'),
        0 <= i < pieces(few, path).len(),
        pieces(few, path)[i] == ".."@,
    ensures
        pieces(all, path).contains(".."@),
    decreases path.len(),
{
    let end = first_separator(few, path) as int;
    lemma_separator_found(few, path);
    reveal_strlit("..");
    let up = ".."@;
    lemma_first_separator(all, up, 2);
    assert(pieces(all, up) =~= seq![up]);
    if end >= path.len() {
        assert(path == up);
        assert(pieces(all, path)[0] == up);
    } else {
        let (head, tail) = (path.take(end), path.skip(end + 1));
        assert(path =~= head + seq![path[end]] + tail);
        lemma_pieces_append(all, head, path[end], tail);
        if i == 0 {
            assert(pieces(all, path)[0] == up);
        } else {
            lemma_parent_steps_remain(few, all, tail, i - 1);
            let k = choose|k: int| 0 <= k < pieces(all, tail).len() && pieces(all, tail)[k] == up;
            assert(pieces(all, path)[pieces(all, head).len() + k] == up);
        }
    }
}

/// A slash separates everywhere, a backslash on Windows alone, and nothing else does; what is written
/// between two paths is a slash on Unix and a backslash on Windows.
pub proof fn law_platforms_have_their_separators(c: char)
    ensures
        Platform::Unix.separators().has(c) <==> c == '/',
        Platform::Windows.separators().has(c) <==> c == '/' || c == '\\',
        Platform::Unix.separator() == seq!['/'],
        Platform::Windows.separator() == seq!['\\'],
{
    reveal_strlit("/");
    reveal_strlit("\\");
}

/// A separator parts the pieces before it from the pieces after it.
pub proof fn law_separators_part_the_pieces(platform: Platform, a: Seq<char>, c: char, b: Seq<char>)
    requires
        c == '/' || platform == Platform::Windows && c == '\\',
    ensures
        pieces(platform.separators(), a + seq![c] + b) == pieces(platform.separators(), a) + pieces(
            platform.separators(),
            b,
        ),
{
    lemma_pieces_append(platform.separators(), a, c, b);
}

/// A path without a separator is its only piece.
pub proof fn law_a_path_without_separators_is_one_piece(platform: Platform, path: Seq<char>)
    requires
        !path.contains('/'),
        platform == Platform::Windows ==> !path.contains('\\'),
    ensures
        pieces(platform.separators(), path) == seq![path],
{
    assert forall|k: int| 0 <= k < path.len() implies !platform.separators().has(#[trigger] path[k]) by {
        assert(path.contains(path[k]));
    }
    lemma_first_separator(platform.separators(), path, path.len() as int);
}

/// The named pieces are those that are neither empty nor a single dot, in order; the filled ones are those
/// that are not empty.
pub proof fn law_idle_pieces_are_left_out(parts: Seq<Seq<char>>)
    ensures
        named(parts) == parts.filter(|piece: Seq<char>| piece.len() > 0 && piece != seq!['.']),
        filled(parts) == parts.filter(|piece: Seq<char>| piece.len() > 0),
    decreases parts.len(),
{
    reveal(Seq::filter);
    reveal_strlit(".");
    assert("."@ =~= seq!['.']);
    if parts.len() > 0 {
        law_idle_pieces_are_left_out(parts.drop_last());
    } else {
        assert(named(parts) =~= parts.filter(
            |piece: Seq<char>| piece.len() > 0 && piece != seq!['.'],
        ));
        assert(filled(parts) =~= parts.filter(|piece: Seq<char>| piece.len() > 0));
    }
}

/// A drive is a letter and a colon at the start of a path on Windows, small or capital; there are no
/// drives on Unix. What follows the drive is the path's body.
pub proof fn law_drives_are_letters(c: char, rest: Seq<char>)
    ensures
        drive(Platform::Windows, seq![c, ':'] + rest) is Some <==> 'a' <= c <= 'z' || 'A' <= c <= 'Z',
        drive(Platform::Unix, seq![c, ':'] + rest) is None,
        'a' <= c <= 'z' || 'A' <= c <= 'Z' ==> body(Platform::Windows, seq![c, ':'] + rest) == rest,
        body(Platform::Unix, rest) == rest,
        rest.len() < 2 || rest[1] != ':' ==> drive(Platform::Windows, rest) is None && body(
            Platform::Windows,
            rest,
        ) == rest,
{
    let path = seq![c, ':'] + rest;
    assert(path[0] == c && path[1] == ':');
    assert(path.skip(2) =~= rest);
}

/// Two letters name the same drive if they are the same letter, whether small or capital.
pub proof fn law_drives_ignore_case(c: char, d: char, rest: Seq<char>)
    requires
        'A' <= c <= 'Z',
    ensures
        'A' <= d <= 'Z' ==> (drive(Platform::Windows, seq![c, ':'] + rest) == drive(
            Platform::Windows,
            seq![d, ':'] + rest,
        ) <==> c == d),
        'a' <= d <= 'z' ==> (drive(Platform::Windows, seq![c, ':'] + rest) == drive(
            Platform::Windows,
            seq![d, ':'] + rest,
        ) <==> c as int + 32 == d as int),
{
    let (a, b) = (seq![c, ':'] + rest, seq![d, ':'] + rest);
    assert(a[0] == c && a[1] == ':' && b[0] == d && b[1] == ':');
}

/// A path that starts with a separator starts at the root, with a drive before it or without.
pub proof fn law_rooted_paths_start_with_a_separator(path: Seq<char>, c: char)
    ensures
        is_rooted(Platform::Unix, path) <==> path.len() > 0 && path[0] == '/',
        path.len() > 0 && (path[0] == '/' || path[0] == '\\') && (path.len() < 2 || path[1] != ':')
            ==> is_rooted(Platform::Windows, path),
        path.len() > 0 && path[0] != '/' && path[0] != '\\' && (path.len() < 2 || path[1] != ':')
            ==> !is_rooted(Platform::Windows, path),
        'A' <= c <= 'Z' ==> (is_rooted(Platform::Windows, seq![c, ':'] + path) <==> path.len() > 0 && (
        path[0] == '/' || path[0] == '\\')),
{
    law_drives_are_letters(c, path);
}

/// Whether two dots follow each other somewhere in a text.
pub open spec fn has_two_dots(path: Seq<char>) -> bool {
    exists|i: int| 0 <= i < path.len() - 1 && #[trigger] path[i] == '.' && path[i + 1] == '.'
}

proof fn lemma_pieces_are_found(seps: Separators, path: Seq<char>, i: int) -> (at: int)
    requires
        0 <= i < pieces(seps, path).len(),
    ensures
        0 <= at <= path.len() - pieces(seps, path)[i].len(),
        path.subrange(at, at + pieces(seps, path)[i].len()) == pieces(seps, path)[i],
    decreases path.len(),
{
    let end = first_separator(seps, path) as int;
    lemma_separator_found(seps, path);
    if end >= path.len() {
        assert(path.subrange(0, path.len() as int) =~= path);
        0
    } else if i == 0 {
        assert(path.subrange(0, end) =~= path.take(end));
        0
    } else {
        let tail = path.skip(end + 1);
        let at = lemma_pieces_are_found(seps, tail, i - 1);
        let piece = pieces(seps, tail)[i - 1];
        assert(path.subrange(at + end + 1, at + end + 1 + piece.len()) =~= tail.subrange(
            at,
            at + piece.len(),
        ));
        at + end + 1
    }
}

/// A step up leads out wherever in a path it stands, and so do a root and a drive.
pub proof fn law_steps_up_lead_out(platform: Platform, a: Seq<char>, b: Seq<char>, c: char)
    ensures
        escapes(platform, seq!['.', '.']),
        escapes(platform, seq!['.', '.', '/'] + b),
        escapes(platform, a + seq!['/', '.', '.']),
        escapes(platform, a + seq!['/', '.', '.', '/'] + b),
        escapes(platform, seq!['/'] + b),
        escapes(Platform::Windows, seq!['\\'] + b),
        escapes(Platform::Windows, a + seq!['\\', '.', '.']),
        escapes(Platform::Windows, a + seq!['\\', '.', '.', '\\'] + b),
        'A' <= c <= 'Z' || 'a' <= c <= 'z' ==> escapes(Platform::Windows, seq![c, ':'] + b),
{
    let seps = platform.separators();
    let all = Platform::Windows.separators();
    let up = seq!['.', '.'];
    reveal_strlit("..");
    assert(".."@ =~= up);
    lemma_first_separator(seps, up, 2);
    lemma_first_separator(all, up, 2);
    assert(pieces(seps, up) =~= seq![up]);
    assert(pieces(all, up) =~= seq![up]);
    assert(pieces(seps, up)[0] == up);
    assert(seq!['.', '.', '/'] + b =~= up + seq!['/'] + b);
    lemma_pieces_append(seps, up, '/', b);
    assert(pieces(seps, up + seq!['/'] + b)[0] == up);
    assert(a + seq!['/', '.', '.'] =~= a + seq!['/'] + up);
    lemma_pieces_append(seps, a, '/', up);
    assert(pieces(seps, a + seq!['/'] + up)[pieces(seps, a).len() as int] == up);
    let below_a = a + seq!['/'] + up;
    assert(a + seq!['/', '.', '.', '/'] + b =~= below_a + seq!['/'] + b);
    lemma_pieces_append(seps, below_a, '/', b);
    assert(pieces(seps, below_a + seq!['/'] + b)[pieces(seps, a).len() as int] == up);
    assert((seq!['/'] + b)[0] == '/');
    assert((seq!['\\'] + b)[0] == '\\');
    if b.len() > 0 {
        assert((seq!['/'] + b)[1] == b[0]);
        assert((seq!['\\'] + b)[1] == b[0]);
    }
    assert(a + seq!['\\', '.', '.'] =~= a + seq!['\\'] + up);
    lemma_pieces_append(all, a, '\\', up);
    assert(pieces(all, a + seq!['\\'] + up)[pieces(all, a).len() as int] == up);
    let below = a + seq!['\\'] + up;
    assert(a + seq!['\\', '.', '.', '\\'] + b =~= below + seq!['\\'] + b);
    lemma_pieces_append(all, below, '\\', b);
    assert(pieces(all, below + seq!['\\'] + b)[pieces(all, a).len() as int] == up);
    law_drives_are_letters(c, b);
}

/// Nothing else leads out: a path that starts with no separator and no drive, and in which no two dots
/// follow each other, stays inside.
pub proof fn law_other_paths_stay_inside(platform: Platform, path: Seq<char>)
    requires
        path.len() > 0 ==> path[0] != '/' && (platform == Platform::Windows ==> path[0] != '\\'),
        platform == Platform::Windows && path.len() > 1 ==> path[1] != ':',
        !has_two_dots(path),
    ensures
        !escapes(platform, path),
{
    let parts = pieces(platform.separators(), path);
    reveal_strlit("..");
    if parts.contains(".."@) {
        let i = choose|i: int| 0 <= i < parts.len() && parts[i] == ".."@;
        let at = lemma_pieces_are_found(platform.separators(), path, i);
        let found = path.subrange(at, at + 2);
        assert(found[0] == '.' && found[1] == '.');
        assert(path[at] == '.' && path[at + 1] == '.');
    }
}

/// Below a root a path is appended, with a separator in between unless there is one already or none is
/// wanted: below nothing, and right behind a drive.
pub proof fn law_paths_are_appended_to_the_root(root: Seq<char>, path: Seq<char>, c: char)
    ensures
        join(Platform::Unix, root, path) == (if root.len() == 0 || root.last() == '/' {
            root + path
        } else {
            root + seq!['/'] + path
        }),
        !(root.len() >= 4 && root.take(4) == seq!['\\', '\\', '?', '\\']) && root.len() != 2 ==> join(
            Platform::Windows,
            root,
            path,
        ) == (if root.len() == 0 || root.last() == '/' || root.last() == '\\' {
            root + path
        } else {
            root + seq!['\\'] + path
        }),
        'A' <= c <= 'Z' || 'a' <= c <= 'z' ==> join(Platform::Windows, seq![c, ':'], path) == seq![c, ':']
            + path,
{
    reveal_strlit("\\\\?\\");
    reveal_strlit("/");
    reveal_strlit("\\");
    assert("/"@ =~= seq!['/']);
    assert("\\"@ =~= seq!['\\']);
    assert(VERBATIM@ =~= seq!['\\', '\\', '?', '\\']);
    if VERBATIM@.is_prefix_of(root) {
        assert(root.take(4) =~= VERBATIM@);
    }
    let bare = seq![c, ':'];
    assert(bare[0] == c && bare[1] == ':');
    assert(bare + Seq::<char>::empty() =~= bare);
    law_drives_are_letters(c, Seq::empty());
}

/// Going down and up again leads back; going down keeps what is there; going up ends at what the path
/// starts with, which is one part, or three behind `UNC`.
pub proof fn law_steps_up_undo_steps_down(parts: Seq<Seq<char>>, name: Seq<char>)
    requires
        name != seq!['.', '.'],
    ensures
        walked(parts, seq![name], 1) == parts.push(name),
        parts.len() > 0 && parts[0] != seq!['U', 'N', 'C'] || parts.len() > 2 ==> walked(
            parts,
            seq![name, seq!['.', '.']],
            2,
        ) == parts,
        parts.len() == 1 ==> walked(parts, seq![seq!['.', '.']], 1) == parts,
        parts.len() <= 3 && parts.len() > 0 && parts[0] == seq!['U', 'N', 'C'] ==> walked(
            parts,
            seq![seq!['.', '.']],
            1,
        ) == parts,
{
    reveal_strlit("..");
    reveal_strlit("UNC");
    assert(".."@ =~= seq!['.', '.']);
    assert("UNC"@ =~= seq!['U', 'N', 'C']);
    reveal_with_fuel(walked, 3);
    assert(parts.push(name).drop_last() =~= parts);
    if parts.len() > 0 {
        assert(parts.push(name)[0] == parts[0]);
    }
    let there = seq![name, seq!['.', '.']];
    assert(there[0] == name && there[1] == seq!['.', '.']);
}

/// A literal path starts with two backslashes, a question mark and a backslash, and reads back: splitting
/// what follows at the backslashes gives the parts it was made of.
pub proof fn law_literal_paths_read_back(parts: Seq<Seq<char>>)
    requires
        parts.len() > 0,
        forall|i: int| 0 <= i < parts.len() ==> !(#[trigger] parts[i]).contains('\\'),
    ensures
        spelled(parts).take(4) == seq!['\\', '\\', '?', '\\'],
        pieces(Separators { slash: false, backslash: true }, spelled(parts).skip(4)) == parts,
    decreases parts.len(),
{
    let seps = Separators { slash: false, backslash: true };
    reveal_strlit("\\\\?\\");
    reveal_strlit("\\");
    let start = seq!['\\', '\\', '?', '\\'];
    assert(VERBATIM@ =~= start);
    assert("\\"@ =~= seq!['\\']);
    let (rest, last) = (parts.drop_last(), parts.last());
    assert(!parts[parts.len() - 1].contains('\\'));
    assert forall|k: int| 0 <= k < last.len() implies !seps.has(#[trigger] last[k]) by {
        assert(last.contains(last[k]));
    }
    lemma_first_separator(seps, last, last.len() as int);
    if parts.len() == 1 {
        assert(spelled(parts).take(4) =~= start);
        assert(spelled(parts).skip(4) =~= last);
        assert(seq![last] =~= parts);
    } else {
        assert forall|i: int| 0 <= i < rest.len() implies !(#[trigger] rest[i]).contains('\\') by {
            assert(rest[i] == parts[i]);
        }
        law_literal_paths_read_back(rest);
        lemma_spelled(rest);
        assert(VERBATIM@.len() == 4);
        assert(spelled(rest).len() >= 4);
        assert(spelled(parts).take(4) =~= spelled(rest).take(4));
        assert(spelled(parts).skip(4) =~= spelled(rest).skip(4) + seq!['\\'] + last);
        lemma_pieces_append(seps, spelled(rest).skip(4), '\\', last);
        assert(rest + seq![last] =~= parts);
    }
}

/// A root is literal if it starts with two backslashes, a question mark and a backslash, on Windows; its
/// parts are what stands between the backslashes behind that.
pub proof fn law_literal_roots_keep_their_parts(platform: Platform, root: Seq<char>)
    ensures
        is_verbatim(platform, root) <==> platform == Platform::Windows && root.len() >= 4 && root.take(4)
            == seq!['\\', '\\', '?', '\\'],
        is_verbatim(platform, root) ==> verbatim_parts(root) == pieces(
            Separators { slash: false, backslash: true },
            root.skip(4),
        ).filter(|piece: Seq<char>| piece.len() > 0),
{
    reveal_strlit("\\\\?\\");
    assert(VERBATIM@ =~= seq!['\\', '\\', '?', '\\']);
    if VERBATIM@.is_prefix_of(root) {
        assert(root.take(4) =~= VERBATIM@);
    }
    if root.len() >= 4 && root.take(4) == VERBATIM@ {
        assert(VERBATIM@ =~= root.subrange(0, 4));
    }
    law_idle_pieces_are_left_out(
        pieces(Separators { slash: false, backslash: true }, root.skip(4)),
    );
}

/// Repeating a separator, or putting a dot between two of them, names the same place.
pub proof fn law_idle_pieces_change_nothing(a: Seq<char>, b: Seq<char>)
    ensures
        Platform::Unix.same_path(a + seq!['/'] + b, a + seq!['/', '/'] + b),
        Platform::Unix.same_path(a + seq!['/'] + b, a + seq!['/', '.', '/'] + b),
{
    let seps = Platform::Unix.separators();
    let none = Seq::<char>::empty();
    let dot = seq!['.'];
    reveal_strlit(".");
    assert("."@ =~= dot);
    let plain = a + seq!['/'] + b;
    let twice = a + seq!['/'] + (none + seq!['/'] + b);
    let dotted = a + seq!['/'] + (dot + seq!['/'] + b);
    assert(a + seq!['/', '/'] + b =~= twice);
    assert(a + seq!['/', '.', '/'] + b =~= dotted);
    lemma_pieces_append(seps, a, '/', b);
    lemma_pieces_append(seps, a, '/', none + seq!['/'] + b);
    lemma_pieces_append(seps, a, '/', dot + seq!['/'] + b);
    lemma_pieces_append(seps, none, '/', b);
    lemma_pieces_append(seps, dot, '/', b);
    lemma_first_separator(seps, dot, 1);
    lemma_first_separator(seps, none, 0);
    lemma_named_append(pieces(seps, a), pieces(seps, b));
    lemma_named_append(pieces(seps, a), pieces(seps, none + seq!['/'] + b));
    lemma_named_append(pieces(seps, a), pieces(seps, dot + seq!['/'] + b));
    lemma_named_append(pieces(seps, none), pieces(seps, b));
    lemma_named_append(pieces(seps, dot), pieces(seps, b));
    reveal_with_fuel(named, 2);
    assert(pieces(seps, none) =~= seq![none]);
    assert(pieces(seps, dot) =~= seq![dot]);
    assert(seq![none].drop_last() =~= Seq::<Seq<char>>::empty());
    assert(seq![dot].drop_last() =~= Seq::<Seq<char>>::empty());
    assert(named(seq![none]) =~= Seq::<Seq<char>>::empty());
    assert(named(seq![dot]) =~= Seq::<Seq<char>>::empty());
    let (x, y) = (named(pieces(seps, a)), named(pieces(seps, b)));
    assert(Seq::<Seq<char>>::empty() + y =~= y);
    assert(components(Platform::Unix, plain) =~= x + y);
    assert(components(Platform::Unix, twice) =~= x + y);
    assert(components(Platform::Unix, dotted) =~= x + y);
    assert(pieces(seps, a).len() > 0);
    if a.len() > 0 {
        assert(plain[0] == a[0] && twice[0] == a[0] && dotted[0] == a[0]);
    } else {
        assert(plain[0] == '/' && twice[0] == '/' && dotted[0] == '/');
    }
    assert(pieces(seps, plain)[0] == pieces(seps, a)[0]);
    assert(pieces(seps, twice)[0] == pieces(seps, a)[0]);
    assert(pieces(seps, dotted)[0] == pieces(seps, a)[0]);
}

/// Different names are different places, and so are a rooted path and one that is not, and one that starts
/// with a dot and one that does not.
pub proof fn law_different_names_are_different_places(a: Seq<char>, b: Seq<char>, c: char, d: char)
    ensures
        a.len() > 0 && b.len() > 0 && a != seq!['.'] && b != seq!['.'] && !a.contains('/')
            && !b.contains('/') ==> (Platform::Unix.same_path(a, b) <==> a == b),
        a.len() > 0 && a[0] == '/' && (b.len() == 0 || b[0] != '/') ==> !Platform::Unix.same_path(a, b),
        a.len() == 0 || a[0] != '.' ==> !Platform::Unix.same_path(seq!['.', '/'] + b, a),
        'A' <= c <= 'Z' && 'A' <= d <= 'Z' && c != d ==> !Platform::Windows.same_path(
            seq![c, ':'] + a,
            seq![d, ':'] + b,
        ),
{
    let seps = Platform::Unix.separators();
    reveal_strlit(".");
    let dot = seq!['.'];
    assert("."@ =~= dot);
    if a.len() > 0 && b.len() > 0 && a != dot && b != dot && !a.contains('/') && !b.contains('/') {
        law_a_path_without_separators_is_one_piece(Platform::Unix, a);
        law_a_path_without_separators_is_one_piece(Platform::Unix, b);
        reveal_with_fuel(named, 2);
        assert(seq![a].drop_last() =~= Seq::<Seq<char>>::empty());
        assert(seq![b].drop_last() =~= Seq::<Seq<char>>::empty());
        assert(named(seq![a]) =~= seq![a]);
        assert(named(seq![b]) =~= seq![b]);
        assert(seq![a][0] == a && seq![b][0] == b);
    }
    let here = seq!['.', '/'] + b;
    assert(here =~= dot + seq!['/'] + b);
    lemma_pieces_append(seps, dot, '/', b);
    lemma_first_separator(seps, dot, 1);
    assert(pieces(seps, here)[0] == dot);
    if a.len() == 0 || a[0] != '.' {
        lemma_separator_found(seps, a);
        let first = pieces(seps, a)[0];
        if first == dot {
            assert(first[0] == a[0]);
        }
    }
    let (x, y) = (seq![c, ':'] + a, seq![d, ':'] + b);
    assert(x[0] == c && x[1] == ':' && y[0] == d && y[1] == ':');
}

} // verus!
