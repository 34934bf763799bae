//! The shader source preprocessor: one directive, for splitting shared code across files.
//!
//! ```wgsl
//! //#include "common/layout.wgsl"
//! ```

use crate::paths::{join_paths, leads_out, paths_agree, Platform};
use crate::text::{chars_of, push_decimal, string_of};
use vstd::prelude::*;
use vstd::string::{StrSliceExecFns, StringExecFns};

verus! {

/// How a directive line starts.
pub const DIRECTIVE: &'static str = "//#include";

/// Whether `c` has the Unicode property `White_Space`.
pub open spec fn is_white(c: char) -> bool {
    let u = c as u32;
    ||| 0x09 <= u <= 0x0d
    ||| u == 0x20
    ||| u == 0x85
    ||| u == 0xa0
    ||| u == 0x1680
    ||| 0x2000 <= u <= 0x200a
    ||| u == 0x2028
    ||| u == 0x2029
    ||| u == 0x202f
    ||| u == 0x205f
    ||| u == 0x3000
}

fn white(c: char) -> (r: bool)
    ensures
        r == is_white(c),
{
    let u: u32 = c as u32;
    (0x09 <= u && u <= 0x0d) || u == 0x20 || u == 0x85 || u == 0xa0 || u == 0x1680 || (0x2000 <= u
        && u <= 0x200a) || u == 0x2028 || u == 0x2029 || u == 0x202f || u == 0x205f || u == 0x3000
}

/// `s` without white space in front.
pub open spec fn trim_front(s: Seq<char>) -> Seq<char>
    decreases s.len(),
{
    if s.len() > 0 && is_white(s[0]) {
        trim_front(s.skip(1))
    } else {
        s
    }
}

/// `s` without white space behind.
pub open spec fn trim_back(s: Seq<char>) -> Seq<char>
    decreases s.len(),
{
    if s.len() > 0 && is_white(s.last()) {
        trim_back(s.drop_last())
    } else {
        s
    }
}

/// What a line asks for: nothing if it is ordinary source, else the quoted target, else a mistake.
pub open spec fn spec_target(line: Seq<char>) -> Option<Result<Seq<char>, ()>> {
    if !DIRECTIVE@.is_prefix_of(line) {
        None
    } else {
        let rest = trim_back(trim_front(line.skip(DIRECTIVE@.len() as int)));
        if rest.len() >= 3 && rest[0] == '"' && rest.last() == '"' {
            Some(Ok(rest.subrange(1, rest.len() - 1)))
        } else {
            Some(Err(()))
        }
    }
}

/// Recognises a directive line.
///
/// Returns `None` when the line is ordinary source, `Some(Ok(target))` for a well-formed directive
/// and `Some(Err(()))` for a directive-shaped line that is malformed.
pub fn include_target(line: &str) -> (r: Option<Result<&str, ()>>)
    ensures
        match r {
            None => spec_target(line@) is None,
            Some(Ok(target)) => spec_target(line@) == Some(Ok::<Seq<char>, ()>(target@)),
            Some(Err(_)) => spec_target(line@) == Some(Err::<Seq<char>, ()>(())),
        },
{
    let chars = chars_of(line);
    let directive = chars_of(DIRECTIVE);
    if chars.len() < directive.len() {
        return None;
    }
    let mut i: usize = 0;
    while i < directive.len()
        invariant
            i <= directive@.len() <= chars@.len(),
            chars@ == line@,
            directive@ == DIRECTIVE@,
            forall|k: int| 0 <= k < i ==> directive@[k] == chars@[k],
        decreases directive@.len() - i,
    {
        if directive[i] != chars[i] {
            return None;
        }
        i += 1;
    }
    assert(DIRECTIVE@.is_prefix_of(line@));
    let ghost tail = line@.skip(DIRECTIVE@.len() as int);
    let mut from: usize = directive.len();
    assert(line@.skip(from as int) == tail);
    while from < chars.len() && white(chars[from])
        invariant
            directive@.len() <= from <= chars@.len(),
            chars@ == line@,
            trim_front(line@.skip(from as int)) == trim_front(tail),
        decreases chars@.len() - from,
    {
        assert(line@.skip(from as int).skip(1) =~= line@.skip(from as int + 1));
        from += 1;
    }
    let ghost front = line@.skip(from as int);
    assert(trim_front(front) == front);
    let mut to: usize = chars.len();
    assert(line@.subrange(from as int, to as int) =~= front);
    while to > from && white(chars[to - 1])
        invariant
            from <= to <= chars@.len(),
            chars@ == line@,
            trim_back(line@.subrange(from as int, to as int)) == trim_back(front),
        decreases to,
    {
        assert(line@.subrange(from as int, to as int).drop_last() =~= line@.subrange(
            from as int,
            to as int - 1,
        ));
        to -= 1;
    }
    let ghost rest = line@.subrange(from as int, to as int);
    assert(trim_back(rest) == rest);
    if to - from >= 3 && chars[from] == '"' && chars[to - 1] == '"' {
        assert(rest.subrange(1, rest.len() - 1) =~= line@.subrange(from + 1, to - 1));
        Some(Ok(line.substring_char(from + 1, to - 1)))
    } else {
        Some(Err(()))
    }
}

/// The index of the first `c` in `s`, or the length of `s` if there is none.
pub open spec fn first_index(s: Seq<char>, c: char) -> nat
    decreases s.len(),
{
    if s.len() == 0 || s[0] == c {
        0
    } else {
        1 + first_index(s.skip(1), c)
    }
}

/// `line` without one carriage return at its end.
pub open spec fn without_return(line: Seq<char>) -> Seq<char> {
    if line.len() > 0 && line.last() == '\r' {
        line.drop_last()
    } else {
        line
    }
}

/// The lines of a text. A line ends with a line feed or with a carriage return and a line feed, and
/// the last line need not end at all.
pub open spec fn lines(text: Seq<char>) -> Seq<Seq<char>>
    decreases text.len(),
{
    let end = first_index(text, '\n');
    if text.len() == 0 {
        Seq::empty()
    } else if end >= text.len() {
        seq![text]
    } else {
        seq![without_return(text.take(end as int))] + lines(text.skip(end as int + 1))
    }
}

proof fn lemma_first_index(s: Seq<char>, c: char, n: int)
    requires
        0 <= n <= s.len(),
        forall|k: int| 0 <= k < n ==> s[k] != c,
        n == s.len() || s[n] == c,
    ensures
        first_index(s, c) == n,
    decreases s.len(),
{
    if s.len() > 0 && s[0] != c {
        assert forall|k: int| 0 <= k < n - 1 implies s.skip(1)[k] != c by {
            assert(s.skip(1)[k] == s[k + 1]);
        }
        lemma_first_index(s.skip(1), c, n - 1);
    }
}

/// Splits a text into its lines.
fn split_lines(text: &str) -> (out: Vec<String>)
    ensures
        crate::text::texts(out@) == lines(text@),
{
    let chars = chars_of(text);
    let mut out: Vec<String> = Vec::new();
    let mut start: usize = 0;
    assert(text@.skip(0) =~= text@);
    assert(crate::text::texts(out@) + lines(text@) =~= lines(text@));
    while start < chars.len()
        invariant
            start <= chars@.len(),
            chars@ == text@,
            crate::text::texts(out@) + lines(text@.skip(start as int)) == lines(text@),
        decreases chars@.len() - start,
    {
        let ghost rest = text@.skip(start as int);
        let mut end: usize = start;
        while end < chars.len() && chars[end] != '\n'
            invariant
                start <= end <= chars@.len(),
                chars@ == text@,
                forall|k: int| start <= k < end ==> text@[k] != '\n',
            decreases chars@.len() - end,
        {
            end += 1;
        }
        let ghost before = crate::text::texts(out@);
        proof {
            lemma_first_index(rest, '\n', end - start);
        }
        if end == chars.len() {
            out.push(string_of(&chars, start, end));
            proof {
                assert(text@.subrange(start as int, end as int) =~= rest);
                assert(crate::text::texts(out@) =~= before + seq![rest]);
                assert(text@.skip(end as int).len() == 0);
                assert(crate::text::texts(out@) + lines(text@.skip(end as int)) =~= before + seq![rest]);
            }
            start = end;
        } else {
            let stop: usize = if end > start && chars[end - 1] == '\r' {
                end - 1
            } else {
                end
            };
            out.push(string_of(&chars, start, stop));
            proof {
                let line = text@.subrange(start as int, stop as int);
                assert(rest.take(end - start) =~= text@.subrange(start as int, end as int));
                assert(line =~= without_return(rest.take(end - start)));
                assert(rest.skip(end - start + 1) =~= text@.skip(end + 1));
                assert(crate::text::texts(out@) =~= before + seq![line]);
                assert(crate::text::texts(out@) + lines(text@.skip(end + 1)) =~= before + (seq![line] + lines(
                    text@.skip(end + 1),
                )));
            }
            start = end + 1;
        }
    }
    assert(text@.skip(start as int).len() == 0);
    assert(crate::text::texts(out@) + lines(text@.skip(start as int)) =~= crate::text::texts(out@));
    out
}

/// Where a shader came from, for error messages.
pub type ShaderPath = String;

/// Why a shader could not be put together.
#[derive(Debug)]
pub enum ShaderError {
    /// The root directory does not exist.
    MissingRoot(ShaderPath),
    /// A file could not be read.
    Io {
        /// Path that failed.
        path: ShaderPath,
        /// What the file system said.
        source: String,
    },
    /// A file includes itself, directly or through others. The chain is reported in order.
    Cycle(Vec<ShaderPath>),
    /// A directive used a path that escapes the shader root.
    EscapesRoot {
        /// The offending target as written.
        target: String,
    },
    /// A directive is malformed.
    Malformed {
        /// File the directive was found in.
        path: ShaderPath,
        /// 1-based line number.
        line: usize,
        /// The offending line.
        text: String,
    },
}

/// A shader error with its texts as characters.
pub enum ShaderErrorView {
    MissingRoot(Seq<char>),
    Io { path: Seq<char>, source: Seq<char> },
    Cycle(Seq<Seq<char>>),
    EscapesRoot { target: Seq<char> },
    Malformed { path: Seq<char>, line: int, text: Seq<char> },
}

impl View for ShaderError {
    type V = ShaderErrorView;

    open spec fn view(&self) -> ShaderErrorView {
        match *self {
            ShaderError::MissingRoot(root) => ShaderErrorView::MissingRoot(root@),
            ShaderError::Io { path, source } => ShaderErrorView::Io { path: path@, source: source@ },
            ShaderError::Cycle(chain) => ShaderErrorView::Cycle(crate::text::texts(chain@)),
            ShaderError::EscapesRoot { target } => ShaderErrorView::EscapesRoot { target: target@ },
            ShaderError::Malformed { path, line, text } => ShaderErrorView::Malformed {
                path: path@,
                line: line as int,
                text: text@,
            },
        }
    }
}

/// The links of a chain, each behind an arrow.
pub open spec fn arrows(chain: Seq<Seq<char>>) -> Seq<char>
    decreases chain.len(),
{
    if chain.len() == 0 {
        Seq::empty()
    } else {
        arrows(chain.drop_last()) + " -> "@ + chain.last()
    }
}

impl ShaderErrorView {
    /// The error in words.
    pub open spec fn spec_message(self) -> Seq<char> {
        match self {
            ShaderErrorView::MissingRoot(root) => "shader root does not exist: "@ + root,
            ShaderErrorView::Io { path, source } => "reading "@ + path + ": "@ + source,
            ShaderErrorView::Cycle(chain) => "include cycle:"@ + arrows(chain),
            ShaderErrorView::EscapesRoot {
                target,
            } => "include target escapes the shader root: "@ + target,
            ShaderErrorView::Malformed { path, line, text } => "malformed include at "@ + path
                + ":"@ + crate::text::decimal(line as nat) + ": "@ + text,
        }
    }
}

impl ShaderError {
    /// The error in words.
    pub fn message(&self) -> (m: String)
        ensures
            m@ == self@.spec_message(),
    {
        match self {
            ShaderError::MissingRoot(root) => "shader root does not exist: ".to_owned().concat(
                root.as_str(),
            ),
            ShaderError::Io { path, source } => "reading ".to_owned().concat(path.as_str()).concat(
                ": ",
            ).concat(source.as_str()),
            ShaderError::Cycle(chain) => {
                let mut m = "include cycle:".to_owned();
                let mut i: usize = 0;
                assert(crate::text::texts(chain@).take(0) =~= Seq::<Seq<char>>::empty());
                assert(m@ =~= "include cycle:"@ + arrows(crate::text::texts(chain@).take(0)));
                while i < chain.len()
                    invariant
                        i <= chain@.len(),
                        m@ == "include cycle:"@ + arrows(crate::text::texts(chain@).take(i as int)),
                    decreases chain@.len() - i,
                {
                    let ghost prefix = crate::text::texts(chain@).take(i as int + 1);
                    assert(prefix.drop_last() =~= crate::text::texts(chain@).take(i as int));
                    assert(prefix.last() == chain@[i as int]@);
                    m.append(" -> ");
                    m.append(chain[i].as_str());
                    assert(m@ =~= "include cycle:"@ + arrows(prefix));
                    i += 1;
                }
                assert(crate::text::texts(chain@).take(chain@.len() as int) =~= crate::text::texts(chain@));
                m
            },
            ShaderError::EscapesRoot {
                target,
            } => "include target escapes the shader root: ".to_owned().concat(target.as_str()),
            ShaderError::Malformed { path, line, text } => {
                let mut m = "malformed include at ".to_owned().concat(path.as_str()).concat(":");
                push_decimal(&mut m, *line as u64);
                m.concat(": ").concat(text.as_str())
            },
        }
    }
}

/// A shader with everything it asked for, plus the provenance of what went into it.
#[derive(Debug)]
pub struct CompiledShader {
    /// Fully expanded source.
    pub source: String,
    /// Resolved files that contributed, in the order in which they were opened.
    pub sources: Vec<ShaderPath>,
}

/// A file that was read: its path, and its text or what the file system said instead.
#[derive(Debug)]
pub struct ShaderFile {
    /// The path it was read from.
    pub path: ShaderPath,
    /// Its text, or why there is none.
    pub text: Result<String, String>,
}

/// A file that was read, as characters.
pub type FileView = (Seq<char>, Result<Seq<char>, Seq<char>>);

impl View for ShaderFile {
    type V = FileView;

    open spec fn view(&self) -> FileView {
        (
            self.path@,
            match self.text {
                Ok(text) => Ok(text@),
                Err(e) => Err(e@),
            },
        )
    }
}

/// The files as characters.
pub open spec fn file_views(files: Seq<ShaderFile>) -> Seq<FileView> {
    Seq::new(files.len(), |i: int| files[i]@)
}

/// What reading `path` gave, if it has been read: the first entry for the path counts.
pub open spec fn read(
    platform: Platform,
    files: Seq<FileView>,
    path: Seq<char>,
) -> Option<Result<Seq<char>, Seq<char>>>
    decreases files.len(),
{
    if files.len() == 0 {
        None
    } else if platform.same_path(files[0].0, path) {
        Some(files[0].1)
    } else {
        read(platform, files.skip(1), path)
    }
}

/// Whether `path` is among `paths`.
pub open spec fn listed(platform: Platform, paths: Seq<Seq<char>>, path: Seq<char>) -> bool {
    exists|i: int| 0 <= i < paths.len() && platform.same_path(#[trigger] paths[i], path)
}

/// What keeps an expansion from finishing: a mistake, or a file that has not been read yet.
pub enum StopView {
    Error(ShaderErrorView),
    Need(Seq<char>),
}

/// What an expansion has put together so far.
pub struct Unit {
    /// The text.
    pub out: Seq<char>,
    /// The files that were asked for by a directive.
    pub visited: Seq<Seq<char>>,
    /// The files that were opened, in order.
    pub sources: Seq<Seq<char>>,
}

impl Unit {
    /// The unit with one more line of text.
    pub open spec fn line(self, text: Seq<char>) -> Unit {
        Unit { out: self.out + text + "\n"@, ..self }
    }
}

/// A loader: its root, and how paths are written where it runs.
pub struct LoaderView {
    pub root: Seq<char>,
    pub platform: Platform,
}

impl LoaderView {
    /// Whether a target could lead out of the root.
    pub open spec fn refuses(self, target: Seq<char>) -> bool {
        crate::paths::escapes(self.platform, target)
    }

    /// A target below the root.
    pub open spec fn join(self, target: Seq<char>) -> Seq<char> {
        crate::paths::join(self.platform, self.root, target)
    }

    /// Whether a path lies below the root.
    pub open spec fn holds(self, path: Seq<char>) -> bool {
        crate::paths::below(self.platform, self.root, path)
    }
}

/// `relative` below the root, unless it could escape it.
pub open spec fn spec_resolve(loader: LoaderView, relative: Seq<char>) -> Result<
    Seq<char>,
    ShaderErrorView,
> {
    if loader.refuses(relative) {
        Err(ShaderErrorView::EscapesRoot { target: relative })
    } else {
        Ok(loader.join(relative))
    }
}

/// The unit after reading `lines` from line `n` on, in the file on top of `stack`.
///
/// An ordinary line is kept. A directive is replaced by the expansion of the file it asks for, between
/// two markers, the first time that file is asked for, and by a remark after that. A file that is
/// still open cannot be opened again.
pub open spec fn spec_expand(
    files: Seq<FileView>,
    loader: LoaderView,
    stack: Seq<Seq<char>>,
    lines: Seq<Seq<char>>,
    n: int,
    unit: Unit,
) -> Result<Unit, StopView>
    decreases files.len() - stack.len(), lines.len() - n,
{
    if n >= lines.len() {
        Ok(unit)
    } else {
        match spec_target(lines[n]) {
            None => spec_expand(files, loader, stack, lines, n + 1, unit.line(lines[n])),
            Some(Err(_)) => Err(
                StopView::Error(
                    ShaderErrorView::Malformed { path: stack.last(), line: n + 1, text: lines[n] },
                ),
            ),
            Some(Ok(target)) => match spec_resolve(loader, target) {
                Err(e) => Err(StopView::Error(e)),
                Ok(path) => if listed(loader.platform, stack, path) {
                    Err(StopView::Error(ShaderErrorView::Cycle(stack.push(path))))
                } else if listed(loader.platform, unit.visited, path) {
                    spec_expand(
                        files,
                        loader,
                        stack,
                        lines,
                        n + 1,
                        unit.line("// (already included) "@ + target),
                    )
                } else {
                    match read(loader.platform, files, path) {
                        None => Err(StopView::Need(path)),
                        Some(Err(source)) => Err(StopView::Error(ShaderErrorView::Io { path, source })),
                        Some(Ok(text)) => if stack.len() >= files.len() {
                            // Every file on the stack has been read, and no two are the same.
                            arbitrary()
                        } else {
                            let opened = Unit {
                                out: Seq::empty(),
                                visited: unit.visited.push(path),
                                sources: unit.sources.push(path),
                            };
                            match spec_expand(
                                files,
                                loader,
                                stack.push(path),
                                crate::wgsl::lines(text),
                                0,
                                opened,
                            ) {
                                Err(stop) => Err(stop),
                                Ok(inner) => {
                                    let begun = unit.line("// >>> "@ + target);
                                    let filled = Unit { out: begun.out + inner.out, ..inner };
                                    spec_expand(
                                        files,
                                        loader,
                                        stack,
                                        lines,
                                        n + 1,
                                        filled.line("// <<< "@ + target),
                                    )
                                },
                            }
                        },
                    }
                },
            },
        }
    }
}

/// The unit that `relative` expands to below `root`, where `files` have been read.
pub open spec fn spec_compile(
    root_is_dir: bool,
    files: Seq<FileView>,
    loader: LoaderView,
    relative: Seq<char>,
) -> Result<Unit, StopView> {
    if !root_is_dir {
        Err(StopView::Error(ShaderErrorView::MissingRoot(loader.root)))
    } else {
        match spec_resolve(loader, relative) {
            Err(e) => Err(StopView::Error(e)),
            Ok(entry) => match read(loader.platform, files, entry) {
                None => Err(StopView::Need(entry)),
                Some(Err(source)) => Err(
                    StopView::Error(ShaderErrorView::Io { path: entry, source }),
                ),
                Some(Ok(text)) => spec_expand(
                    files,
                    loader,
                    seq![entry],
                    lines(text),
                    0,
                    Unit { out: Seq::empty(), visited: Seq::empty(), sources: seq![entry] },
                ),
            },
        }
    }
}

/// Whether every file on the stack has been read and no two of them are the same.
pub open spec fn well_stacked(platform: Platform, files: Seq<FileView>, stack: Seq<Seq<char>>) -> bool {
    &&& forall|i: int| 0 <= i < stack.len() ==> read(platform, files, #[trigger] stack[i]) is Some
    &&& forall|i: int, j: int|
        0 <= i < j < stack.len() ==> !platform.same_path(#[trigger] stack[i], #[trigger] stack[j])
}

proof fn lemma_stack_fits(platform: Platform, files: Seq<FileView>, stack: Seq<Seq<char>>)
    requires
        well_stacked(platform, files, stack),
    ensures
        stack.len() <= files.len(),
    decreases files.len(),
{
    if files.len() == 0 {
        if stack.len() > 0 {
            assert(read(platform, files, stack[0]) is Some);
        }
    } else {
        let rest = files.skip(1);
        if listed(platform, stack, files[0].0) {
            let i = choose|i: int|
                0 <= i < stack.len() && platform.same_path(#[trigger] stack[i], files[0].0);
            let others = stack.remove(i);
            assert forall|k: int|
                0 <= k < others.len() implies read(platform, rest, #[trigger] others[k]) is Some by {
                let m = if k < i {
                    k
                } else {
                    k + 1
                };
                assert(others[k] == stack[m]);
                assert(read(platform, files, stack[m]) is Some);
                if m < i {
                    assert(!platform.same_path(stack[m], stack[i]));
                } else {
                    assert(!platform.same_path(stack[i], stack[m]));
                }
            }
            assert(well_stacked(platform, rest, others));
            lemma_stack_fits(platform, rest, others);
        } else {
            assert forall|k: int|
                0 <= k < stack.len() implies read(platform, rest, #[trigger] stack[k]) is Some by {
                assert(read(platform, files, stack[k]) is Some);
                assert(!platform.same_path(stack[k], files[0].0));
            }
            lemma_stack_fits(platform, rest, stack);
        }
    }
}

/// What keeps an expansion from finishing: a mistake, or a file that has not been read yet.
#[derive(Debug)]
pub enum Stop {
    /// A mistake, which reading more files does not mend.
    Error(ShaderError),
    /// The next file to read.
    Need(ShaderPath),
}

impl View for Stop {
    type V = StopView;

    open spec fn view(&self) -> StopView {
        match *self {
            Stop::Error(e) => StopView::Error(e@),
            Stop::Need(path) => StopView::Need(path@),
        }
    }
}

fn is_listed(platform: Platform, paths: &Vec<String>, path: &str) -> (r: bool)
    ensures
        r == listed(platform, crate::text::texts(paths@), path@),
{
    let mut i: usize = 0;
    while i < paths.len()
        invariant
            i <= paths@.len(),
            forall|k: int|
                0 <= k < i ==> !platform.same_path(#[trigger] crate::text::texts(paths@)[k], path@),
        decreases paths@.len() - i,
    {
        assert(crate::text::texts(paths@)[i as int] == paths@[i as int]@);
        if paths_agree(platform, paths[i].as_str(), path) {
            return true;
        }
        i += 1;
    }
    false
}

fn copy_of(paths: &Vec<ShaderPath>) -> (out: Vec<ShaderPath>)
    ensures
        crate::text::texts(out@) == crate::text::texts(paths@),
{
    let mut out: Vec<ShaderPath> = Vec::new();
    let mut k: usize = 0;
    while k < paths.len()
        invariant
            k <= paths@.len(),
            out@.len() == k,
            forall|i: int| 0 <= i < k ==> (#[trigger] out@[i])@ == paths@[i]@,
        decreases paths@.len() - k,
    {
        out.push(paths[k].clone());
        k += 1;
    }
    assert(crate::text::texts(out@) =~= crate::text::texts(paths@));
    out
}

fn find(platform: Platform, files: &Vec<ShaderFile>, path: &str) -> (r: Option<usize>)
    ensures
        match r {
            Some(i) => i < files@.len()
                && read(platform, file_views(files@), path@) == Some(files@[i as int]@.1),
            None => read(platform, file_views(files@), path@) is None,
        },
{
    let ghost views = file_views(files@);
    let mut i: usize = 0;
    assert(views.skip(0) =~= views);
    while i < files.len()
        invariant
            i <= files@.len(),
            views == file_views(files@),
            read(platform, views, path@) == read(platform, views.skip(i as int), path@),
        decreases files@.len() - i,
    {
        assert(views.skip(i as int)[0] == files@[i as int]@);
        assert(views.skip(i as int).skip(1) =~= views.skip(i as int + 1));
        if paths_agree(platform, files[i].path.as_str(), path) {
            return Some(i);
        }
        i += 1;
    }
    None
}

/// The `shaders` directory two levels above a directory.
pub open spec fn shaders_above(platform: Platform, dir: Seq<char>) -> Seq<char> {
    crate::paths::join(
        platform,
        crate::paths::join(platform, crate::paths::join(platform, dir, ".."@), ".."@),
        "shaders"@,
    )
}

/// Resolves directives relative to a shader root directory.
#[derive(Debug)]
pub struct ShaderLoader {
    root: ShaderPath,
    platform: Platform,
}

impl View for ShaderLoader {
    type V = LoaderView;

    closed spec fn view(&self) -> LoaderView {
        LoaderView { root: self.root@, platform: self.platform }
    }
}

impl ShaderLoader {
    /// Creates a loader rooted at `root`, for paths as the machine writes them. Which of the platforms
    /// the machine has, is left open.
    pub fn new(root: &str) -> (loader: Self)
        ensures
            loader@.root == root@,
    {
        let platform = Platform::of_backslash(std::path::is_separator('\\'));
        ShaderLoader::for_platform(root, platform)
    }

    /// Creates a loader rooted at `root`, for paths as a platform writes them.
    pub fn for_platform(root: &str, platform: Platform) -> (loader: Self)
        ensures
            loader@ == (LoaderView { root: root@, platform }),
    {
        ShaderLoader { root: root.to_owned(), platform }
    }

    /// The shader root directory.
    pub fn root(&self) -> (root: &str)
        ensures
            root@ == self@.root,
    {
        self.root.as_str()
    }

    /// How paths are written.
    pub fn platform(&self) -> (platform: Platform)
        ensures
            platform == self@.platform,
    {
        self.platform
    }

    /// The default root: the `shaders` directory two levels above the manifest directory, with paths as
    /// the machine writes them.
    pub fn workspace_default(manifest_dir: &str) -> (loader: Self)
        ensures
            loader@.root == shaders_above(loader@.platform, manifest_dir@),
    {
        let platform = Platform::of_backslash(std::path::is_separator('\\'));
        ShaderLoader::workspace_on(manifest_dir, platform)
    }

    /// The default root, with paths as a platform writes them.
    pub fn workspace_on(manifest_dir: &str, platform: Platform) -> (loader: Self)
        ensures
            loader@ == (LoaderView { root: shaders_above(platform, manifest_dir@), platform }),
    {
        proof {
            reveal_strlit("..");
            reveal_strlit("shaders");
        }
        let up = join_paths(platform, manifest_dir, "..");
        let up = join_paths(platform, up.as_str(), "..");
        let root = join_paths(platform, up.as_str(), "shaders");
        ShaderLoader { root, platform }
    }

    /// Resolves a path relative to the root, rejecting anything that escapes it.
    ///
    /// Paths with a root or a drive of their own and parent traversal are rejected outright, without
    /// asking the file system where they lead.
    pub fn resolve(&self, relative: &str) -> (r: Result<ShaderPath, ShaderError>)
        ensures
            match r {
                Ok(path) => spec_resolve(self@, relative@) == Ok::<Seq<char>, ShaderErrorView>(path@),
                Err(e) => spec_resolve(self@, relative@) == Err::<Seq<char>, ShaderErrorView>(e@),
            },
    {
        if leads_out(self.platform, relative) {
            Err(ShaderError::EscapesRoot { target: relative.to_owned() })
        } else {
            Ok(join_paths(self.platform, self.root.as_str(), relative))
        }
    }

    /// Expands `text`, the contents of the file on top of `stack`.
    fn expand(
        &self,
        files: &Vec<ShaderFile>,
        text: &str,
        stack: &mut Vec<ShaderPath>,
        visited: &mut Vec<ShaderPath>,
        sources: &mut Vec<ShaderPath>,
    ) -> (r: Result<String, Stop>)
        requires
            old(stack)@.len() > 0,
            well_stacked(self@.platform, file_views(files@), crate::text::texts(old(stack)@)),
        ensures
            ({
                let expanded = spec_expand(
                    file_views(files@),
                    self@,
                    crate::text::texts(old(stack)@),
                    lines(text@),
                    0,
                    Unit {
                        out: Seq::empty(),
                        visited: crate::text::texts(old(visited)@),
                        sources: crate::text::texts(old(sources)@),
                    },
                );
                match r {
                    Ok(out) => {
                        &&& expanded == Ok::<Unit, StopView>(
                            Unit {
                                out: out@,
                                visited: crate::text::texts(final(visited)@),
                                sources: crate::text::texts(final(sources)@),
                            },
                        )
                        &&& final(stack)@ == old(stack)@
                    },
                    Err(stop) => expanded == Err::<Unit, StopView>(stop@),
                }
            }),
        decreases files@.len() - old(stack)@.len(),
    {
        let ghost views = file_views(files@);
        let ghost open = crate::text::texts(stack@);
        let all = split_lines(text);
        let mut out = String::new();
        let mut n: usize = 0;
        let ghost expanded = spec_expand(
            views,
            self@,
            open,
            lines(text@),
            0,
            Unit {
                out: Seq::empty(),
                visited: crate::text::texts(visited@),
                sources: crate::text::texts(sources@),
            },
        );
        while n < all.len()
            invariant
                n <= all@.len(),
                views == file_views(files@),
                crate::text::texts(all@) == lines(text@),
                stack@ == old(stack)@,
                stack@.len() > 0,
                open == crate::text::texts(stack@),
                well_stacked(self@.platform, views, open),
                expanded == spec_expand(
                    views,
                    self@,
                    crate::text::texts(old(stack)@),
                    lines(text@),
                    0,
                    Unit {
                        out: Seq::empty(),
                        visited: crate::text::texts(old(visited)@),
                        sources: crate::text::texts(old(sources)@),
                    },
                ),
                expanded == spec_expand(
                    views,
                    self@,
                    open,
                    lines(text@),
                    n as int,
                    Unit {
                        out: out@,
                        visited: crate::text::texts(visited@),
                        sources: crate::text::texts(sources@),
                    },
                ),
            decreases all@.len() - n,
        {
            let line: &str = all[n].as_str();
            assert(lines(text@)[n as int] == line@);
            let ghost unit = Unit {
                out: out@,
                visited: crate::text::texts(visited@),
                sources: crate::text::texts(sources@),
            };
            match include_target(line) {
                None => {
                    out.append(line);
                    out.append("\n");
                },
                Some(Err(_)) => {
                    let path = stack[stack.len() - 1].clone();
                    return Err(
                        Stop::Error(
                            ShaderError::Malformed { path, line: n + 1, text: line.to_owned() },
                        ),
                    );
                },
                Some(Ok(target)) => {
                    let path = match self.resolve(target) {
                        Err(e) => {
                            return Err(Stop::Error(e));
                        },
                        Ok(path) => path,
                    };
                    if is_listed(self.platform, stack, path.as_str()) {
                        let mut chain = copy_of(stack);
                        chain.push(path);
                        assert(crate::text::texts(chain@).drop_last() =~= open);
                        assert(crate::text::texts(chain@) =~= open.push(path@));
                        return Err(Stop::Error(ShaderError::Cycle(chain)));
                    }
                    if is_listed(self.platform, visited, path.as_str()) {
                        out.append("// (already included) ");
                        out.append(target);
                        out.append("\n");
                        assert(out@ =~= unit.line("// (already included) "@ + target@).out);
                    } else {
                        let found = match find(self.platform, files, path.as_str()) {
                            None => {
                                return Err(Stop::Need(path));
                            },
                            Some(i) => i,
                        };
                        match &files[found].text {
                            Err(source) => {
                                return Err(
                                    Stop::Error(ShaderError::Io { path, source: source.clone() }),
                                );
                            },
                            Ok(inner_text) => {
                                let ghost deeper = open.push(path@);
                                proof {
                                    assert forall|i: int, j: int|
                                        0 <= i < j < deeper.len() implies !self@.platform.same_path(
                                        #[trigger] deeper[i],
                                        #[trigger] deeper[j],
                                    ) by {
                                        if j == open.len() {
                                            assert(!self@.platform.same_path(open[i], path@));
                                        }
                                    }
                                    assert(well_stacked(self@.platform, views, deeper));
                                    lemma_stack_fits(self@.platform, views, deeper);
                                }
                                visited.push(path.clone());
                                sources.push(path.clone());
                                stack.push(path);
                                proof {
                                    assert(crate::text::texts(visited@) =~= unit.visited.push(path@));
                                    assert(crate::text::texts(sources@) =~= unit.sources.push(path@));
                                    assert(crate::text::texts(stack@) =~= deeper);
                                }
                                let inner = match self.expand(
                                    files,
                                    inner_text.as_str(),
                                    stack,
                                    visited,
                                    sources,
                                ) {
                                    Err(stop) => {
                                        return Err(stop);
                                    },
                                    Ok(inner) => inner,
                                };
                                stack.pop();
                                assert(stack@ =~= old(stack)@);
                                // Markers make compiler errors point at the file they are in.
                                out.append("// >>> ");
                                out.append(target);
                                out.append("\n");
                                out.append(inner.as_str());
                                out.append("// <<< ");
                                out.append(target);
                                out.append("\n");
                                proof {
                                    let begun = unit.line("// >>> "@ + target@);
                                    let filled = Unit {
                                        out: begun.out + inner@,
                                        visited: crate::text::texts(visited@),
                                        sources: crate::text::texts(sources@),
                                    };
                                    assert(out@ =~= filled.line("// <<< "@ + target@).out);
                                }
                            },
                        }
                    }
                },
            }
            n += 1;
        }
        Ok(out)
    }

    /// Compiles `relative` (e.g. `"sim/integrate.wgsl"`) from the files read so far, or names the
    /// next file to read.
    ///
    /// A caller starts with no files and adds, after each `Stop::Need`, what reading that path gave:
    /// a result that is no `Stop::Need` does not change when more files are read.
    pub fn compile_step(&self, relative: &str, tree: &ShaderTree) -> (r: Result<
        CompiledShader,
        Stop,
    >)
        ensures
            match r {
                Ok(shader) => spec_compile(tree@.root_is_dir, tree@.files, self@, relative@) matches Ok(unit)
                    && unit.out == shader.source@ && unit.sources == crate::text::texts(shader.sources@),
                Err(stop) => spec_compile(tree@.root_is_dir, tree@.files, self@, relative@) == Err::<
                    Unit,
                    StopView,
                >(stop@),
            },
    {
        if !tree.root_is_dir {
            return Err(Stop::Error(ShaderError::MissingRoot(self.root.clone())));
        }
        let entry = match self.resolve(relative) {
            Err(e) => {
                return Err(Stop::Error(e));
            },
            Ok(entry) => entry,
        };
        let found = match find(self.platform, &tree.files, entry.as_str()) {
            None => {
                return Err(Stop::Need(entry));
            },
            Some(i) => i,
        };
        match &tree.files[found].text {
            Err(source) => Err(Stop::Error(ShaderError::Io { path: entry, source: source.clone() })),
            Ok(text) => {
                let mut sources: Vec<ShaderPath> = Vec::new();
                let mut visited: Vec<ShaderPath> = Vec::new();
                let mut stack: Vec<ShaderPath> = Vec::new();
                sources.push(entry.clone());
                stack.push(entry);
                assert(crate::text::texts(stack@) =~= seq![entry@]);
                assert(crate::text::texts(sources@) =~= seq![entry@]);
                assert(crate::text::texts(visited@) =~= Seq::<Seq<char>>::empty());
                match self.expand(
                    &tree.files,
                    text.as_str(),
                    &mut stack,
                    &mut visited,
                    &mut sources,
                ) {
                    Err(stop) => Err(stop),
                    Ok(source) => Ok(CompiledShader { source, sources }),
                }
            },
        }
    }

    /// Compiles `relative` (e.g. `"sim/integrate.wgsl"`), inlining everything it asks for, where
    /// `tree` holds every file there is.
    ///
    /// Fails if a file is missing, a directive is malformed or leads back to an open file, or a
    /// target escapes the shader root.
    pub fn compile(&self, relative: &str, tree: &ShaderTree) -> (r: Result<
        CompiledShader,
        ShaderError,
    >)
        ensures
            match r {
                Ok(shader) => spec_compile(tree@.root_is_dir, tree@.files, self@, relative@) matches Ok(unit)
                    && unit.out == shader.source@ && unit.sources == crate::text::texts(shader.sources@),
                Err(e) => match spec_compile(tree@.root_is_dir, tree@.files, self@, relative@) {
                    Ok(_) => false,
                    Err(StopView::Error(error)) => e@ == error,
                    Err(StopView::Need(path)) => e@ == (ShaderErrorView::Io {
                        path,
                        source: NOT_FOUND@,
                    }),
                },
            },
    {
        match self.compile_step(relative, tree) {
            Ok(shader) => Ok(shader),
            Err(Stop::Error(e)) => Err(e),
            Err(Stop::Need(path)) => Err(ShaderError::Io { path, source: NOT_FOUND.to_owned() }),
        }
    }
}

/// What is said of a file that is not in the tree.
pub const NOT_FOUND: &'static str = "no such file";

/// What is known of a shader directory.
#[derive(Debug)]
pub struct ShaderTree {
    /// Whether the root is a directory.
    pub root_is_dir: bool,
    /// The files that were read.
    pub files: Vec<ShaderFile>,
}

/// A shader directory with its texts as characters.
pub struct TreeView {
    /// Whether the root is a directory.
    pub root_is_dir: bool,
    /// The files that were read.
    pub files: Seq<FileView>,
}

impl View for ShaderTree {
    type V = TreeView;

    open spec fn view(&self) -> TreeView {
        TreeView { root_is_dir: self.root_is_dir, files: file_views(self.files@) }
    }
}

proof fn lemma_first_index_bounds(s: Seq<char>, c: char)
    ensures
        first_index(s, c) <= s.len(),
        first_index(s, c) < s.len() ==> s[first_index(s, c) as int] == c,
        forall|k: int| 0 <= k < first_index(s, c) ==> s[k] != c,
    decreases s.len(),
{
    if s.len() > 0 && s[0] != c {
        let rest = s.skip(1);
        lemma_first_index_bounds(rest, c);
        assert forall|k: int| 0 <= k < first_index(s, c) implies s[k] != c by {
            if k > 0 {
                assert(rest[k - 1] == s[k]);
            }
        }
        if first_index(s, c) < s.len() {
            assert(rest[first_index(rest, c) as int] == s[first_index(s, c) as int]);
        }
    }
}

/// What resolves, resolves to a place below the root.
pub proof fn law_resolved_paths_lie_below_the_root(loader: LoaderView, relative: Seq<char>)
    ensures
        spec_resolve(loader, relative) matches Ok(path) ==> loader.holds(path),
{
    if !loader.refuses(relative) {
        crate::paths::law_joined_paths_lie_below_the_root(loader.platform, loader.root, relative);
    }
}

/// Whether no two of the paths name the same file.
pub open spec fn distinct(platform: Platform, paths: Seq<Seq<char>>) -> bool {
    forall|i: int, j: int|
        0 <= i < j < paths.len() ==> !platform.same_path(#[trigger] paths[i], #[trigger] paths[j])
}

/// What the files opened so far have in common while an expansion runs.
spec fn sound_sources(loader: LoaderView, stack: Seq<Seq<char>>, unit: Unit) -> bool {
    &&& distinct(loader.platform, unit.sources)
    &&& forall|i: int| 0 <= i < unit.sources.len() ==> loader.holds(#[trigger] unit.sources[i])
    &&& forall|i: int|
        0 <= i < unit.sources.len() ==> listed(loader.platform, unit.visited, #[trigger] unit.sources[i])
            || loader.platform.same_path(
            unit.sources[i],
            stack[0],
        )
}

proof fn lemma_sound_sources(
    files: Seq<FileView>,
    loader: LoaderView,
    stack: Seq<Seq<char>>,
    all: Seq<Seq<char>>,
    n: int,
    unit: Unit,
)
    requires
        0 <= n,
        stack.len() > 0,
        well_stacked(loader.platform, files, stack),
        sound_sources(loader, stack, unit),
    ensures
        spec_expand(files, loader, stack, all, n, unit) matches Ok(u) ==> sound_sources(loader, stack, u),
    decreases files.len() - stack.len(), all.len() - n,
{
    if n < all.len() {
        match spec_target(all[n]) {
            None => {
                lemma_sound_sources(files, loader, stack, all, n + 1, unit.line(all[n]));
            },
            Some(Err(_)) => {},
            Some(Ok(target)) => {
                if !loader.refuses(target) {
                    let path = loader.join(target);
                    law_resolved_paths_lie_below_the_root(loader, target);
                    if listed(loader.platform, stack, path) {
                    } else if listed(loader.platform, unit.visited, path) {
                        lemma_sound_sources(
                            files,
                            loader,
                            stack,
                            all,
                            n + 1,
                            unit.line("// (already included) "@ + target),
                        );
                    } else if let Some(Ok(text)) = read(loader.platform, files, path) {
                        let deeper = stack.push(path);
                        lemma_deeper(loader.platform, files, stack, path);
                        let opened = Unit {
                            out: Seq::empty(),
                            visited: unit.visited.push(path),
                            sources: unit.sources.push(path),
                        };
                        lemma_opened(loader, stack, path, unit);
                        lemma_sound_sources(files, loader, deeper, lines(text), 0, opened);
                        if let Ok(inner) = spec_expand(files, loader, deeper, lines(text), 0, opened) {
                            let begun = unit.line("// >>> "@ + target);
                            let filled = Unit { out: begun.out + inner.out, ..inner };
                            assert(sound_sources(loader, stack, filled.line("// <<< "@ + target)));
                            lemma_sound_sources(
                                files,
                                loader,
                                stack,
                                all,
                                n + 1,
                                filled.line("// <<< "@ + target),
                            );
                        }
                    }
                }
            },
        }
    }
}

proof fn lemma_deeper(platform: Platform, files: Seq<FileView>, stack: Seq<Seq<char>>, path: Seq<char>)
    requires
        well_stacked(platform, files, stack),
        !listed(platform, stack, path),
        read(platform, files, path) is Some,
    ensures
        well_stacked(platform, files, stack.push(path)),
        stack.len() < files.len(),
{
    let deeper = stack.push(path);
    assert forall|i: int, j: int| 0 <= i < j < deeper.len() implies !platform.same_path(
        #[trigger] deeper[i],
        #[trigger] deeper[j],
    ) by {
        if j == stack.len() {
            assert(!platform.same_path(stack[i], path));
        }
    }
    lemma_stack_fits(platform, files, deeper);
}

proof fn lemma_opened(loader: LoaderView, stack: Seq<Seq<char>>, path: Seq<char>, unit: Unit)
    requires
        stack.len() > 0,
        sound_sources(loader, stack, unit),
        loader.holds(path),
        !listed(loader.platform, stack, path),
        !listed(loader.platform, unit.visited, path),
    ensures
        sound_sources(
            loader,
            stack.push(path),
            Unit {
                out: Seq::empty(),
                visited: unit.visited.push(path),
                sources: unit.sources.push(path),
            },
        ),
{
    let visited = unit.visited.push(path);
    let sources = unit.sources.push(path);
    assert(!loader.platform.same_path(stack[0], path));
    assert(loader.platform.same_path(visited[visited.len() - 1], path));
    assert forall|i: int|
        0 <= i < sources.len() implies (listed(loader.platform, visited, #[trigger] sources[i])
        || loader.platform.same_path(sources[i], stack[0])) && loader.holds(sources[i]) by {
        if i < unit.sources.len() {
            assert(sources[i] == unit.sources[i]);
            if listed(loader.platform, unit.visited, unit.sources[i]) {
                let k = choose|k: int|
                    0 <= k < unit.visited.len() && loader.platform.same_path(
                        #[trigger] unit.visited[k],
                        unit.sources[i],
                    );
                assert(visited[k] == unit.visited[k]);
            }
        }
    }
    assert forall|i: int, j: int| 0 <= i < j < sources.len() implies !loader.platform.same_path(
        #[trigger] sources[i],
        #[trigger] sources[j],
    ) by {
        if j == unit.sources.len() {
            let s = unit.sources[i];
            if loader.platform.same_path(s, path) {
                if listed(loader.platform, unit.visited, s) {
                    let k = choose|k: int|
                        0 <= k < unit.visited.len() && loader.platform.same_path(
                            #[trigger] unit.visited[k],
                            s,
                        );
                    assert(loader.platform.same_path(unit.visited[k], path));
                } else {
                    assert(loader.platform.same_path(stack[0], path));
                }
            }
        }
    }
}

/// Each file is opened at most once per shader, and only files below the root are opened.
pub proof fn law_each_file_is_opened_once(
    root_is_dir: bool,
    files: Seq<FileView>,
    loader: LoaderView,
    relative: Seq<char>,
)
    ensures
        spec_compile(root_is_dir, files, loader, relative) matches Ok(unit) ==> {
            &&& distinct(loader.platform, unit.sources)
            &&& forall|i: int| 0 <= i < unit.sources.len() ==> loader.holds(#[trigger] unit.sources[i])
        },
{
    if root_is_dir && !loader.refuses(relative) {
        let entry = loader.join(relative);
        law_resolved_paths_lie_below_the_root(loader, relative);
        if let Some(Ok(text)) = read(loader.platform, files, entry) {
            let unit = Unit { out: Seq::empty(), visited: Seq::empty(), sources: seq![entry] };
            lemma_sound_sources(files, loader, seq![entry], lines(text), 0, unit);
        }
    }
}

/// Whether a text is empty or ends with a line feed.
pub open spec fn is_whole_lines(text: Seq<char>) -> bool {
    text.len() == 0 || text.last() == '\n'
}

/// Whether no line of the text is a directive, well-formed or not.
pub open spec fn has_no_directive(text: Seq<char>) -> bool {
    forall|i: int| 0 <= i < lines(text).len() ==> spec_target(#[trigger] lines(text)[i]) is None
}

proof fn lemma_lines_append(a: Seq<char>, b: Seq<char>)
    requires
        is_whole_lines(a),
    ensures
        lines(a + b) == lines(a) + lines(b),
    decreases a.len(),
{
    let all = a + b;
    if a.len() == 0 {
        assert(all =~= b);
        assert(lines(a) + lines(b) =~= lines(b));
    } else {
        let end = first_index(a, '\n') as int;
        lemma_first_index_bounds(a, '\n');
        if end == a.len() {
            assert(a[a.len() - 1] != '\n');
        }
        assert forall|k: int| 0 <= k < end implies all[k] != '\n' by {
            assert(all[k] == a[k]);
        }
        lemma_first_index(all, '\n', end);
        let rest = a.skip(end + 1);
        assert(all.take(end) =~= a.take(end));
        assert(all.skip(end + 1) =~= rest + b);
        if rest.len() > 0 {
            assert(rest.last() == a.last());
        }
        lemma_lines_append(rest, b);
        assert(lines(all) =~= lines(a) + lines(b));
    }
}

proof fn lemma_line_feeds_are_gone(text: Seq<char>, i: int)
    requires
        0 <= i < lines(text).len(),
    ensures
        !lines(text)[i].contains('\n'),
    decreases text.len(),
{
    let end = first_index(text, '\n') as int;
    lemma_first_index_bounds(text, '\n');
    if end < text.len() {
        if i == 0 {
            let line = without_return(text.take(end));
            assert forall|k: int| 0 <= k < line.len() implies line[k] != '\n' by {
                assert(line[k] == text[k]);
            }
        } else {
            lemma_line_feeds_are_gone(text.skip(end + 1), i - 1);
        }
    }
}

/// One more line that is no directive leaves a text without directives.
proof fn lemma_one_more_line(text: Seq<char>, line: Seq<char>)
    requires
        is_whole_lines(text),
        has_no_directive(text),
        !line.contains('\n'),
        spec_target(line) is None,
    ensures
        is_whole_lines(text + line + "\n"@),
        has_no_directive(text + line + "\n"@),
{
    reveal_strlit("\n");
    let tail = line + "\n"@;
    assert(text + line + "\n"@ =~= text + tail);
    lemma_lines_append(text, tail);
    assert forall|k: int| 0 <= k < line.len() implies tail[k] != '\n' by {
        assert(line.contains(line[k]));
    }
    assert(tail[line.len() as int] == '\n');
    lemma_first_index(tail, '\n', line.len() as int);
    assert(tail.take(line.len() as int) =~= line);
    assert(lines(tail.skip(line.len() as int + 1)) =~= Seq::<Seq<char>>::empty());
    assert(lines(tail) =~= seq![without_return(line)]);
    assert(spec_target(without_return(line)) is None) by {
        if DIRECTIVE@.is_prefix_of(without_return(line)) {
            assert(DIRECTIVE@.is_prefix_of(line));
        }
    }
}

/// A remark that the preprocessor writes is no directive.
proof fn lemma_remark(mark: Seq<char>, target: Seq<char>)
    requires
        mark == "// >>> "@ || mark == "// <<< "@ || mark == "// (already included) "@,
        !target.contains('\n'),
    ensures
        !(mark + target).contains('\n'),
        spec_target(mark + target) is None,
{
    reveal_strlit("// >>> ");
    reveal_strlit("// <<< ");
    reveal_strlit("// (already included) ");
    reveal_strlit("//#include");
    assert(DIRECTIVE@[2] == '#');
    assert((mark + target)[2] == ' ');
    assert forall|k: int| 0 <= k < (mark + target).len() implies (mark + target)[k] != '\n' by {
        if k >= mark.len() {
            assert(target.contains(target[k - mark.len()]));
        }
    }
}

proof fn lemma_target_has_no_line_feed(line: Seq<char>)
    requires
        !line.contains('\n'),
    ensures
        spec_target(line) matches Some(Ok(target)) ==> !target.contains('\n'),
{
    if let Some(Ok(target)) = spec_target(line) {
        let tail = line.skip(DIRECTIVE@.len() as int);
        lemma_trim_front_is_suffix(tail);
        lemma_trim_back_is_prefix(trim_front(tail));
        assert forall|k: int| 0 <= k < target.len() implies target[k] != '\n' by {
            let front = trim_front(tail);
            let drop = tail.len() - front.len();
            assert(target[k] == trim_back(front)[k + 1]);
            assert(target[k] == front[k + 1]);
            assert(target[k] == tail[k + 1 + drop]);
            assert(line.contains(line[k + 1 + drop + DIRECTIVE@.len()]));
        }
    }
}

proof fn lemma_trim_front_is_suffix(s: Seq<char>)
    ensures
        trim_front(s).len() <= s.len(),
        trim_front(s) == s.skip(s.len() - trim_front(s).len()),
    decreases s.len(),
{
    if s.len() > 0 && is_white(s[0]) {
        lemma_trim_front_is_suffix(s.skip(1));
        assert(s.skip(1).skip(s.skip(1).len() - trim_front(s).len()) =~= s.skip(
            s.len() - trim_front(s).len(),
        ));
    } else {
        assert(s.skip(0) =~= s);
    }
}

proof fn lemma_trim_back_is_prefix(s: Seq<char>)
    ensures
        trim_back(s).is_prefix_of(s),
    decreases s.len(),
{
    if s.len() > 0 && is_white(s.last()) {
        lemma_trim_back_is_prefix(s.drop_last());
    }
}

proof fn lemma_no_directive_left(
    files: Seq<FileView>,
    loader: LoaderView,
    stack: Seq<Seq<char>>,
    text: Seq<char>,
    n: int,
    unit: Unit,
)
    requires
        0 <= n,
        stack.len() > 0,
        well_stacked(loader.platform, files, stack),
        is_whole_lines(unit.out),
        has_no_directive(unit.out),
    ensures
        spec_expand(files, loader, stack, lines(text), n, unit) matches Ok(u) ==> is_whole_lines(u.out)
            && has_no_directive(u.out),
    decreases files.len() - stack.len(), lines(text).len() - n,
{
    let all = lines(text);
    if n < all.len() {
        lemma_line_feeds_are_gone(text, n);
        lemma_target_has_no_line_feed(all[n]);
        match spec_target(all[n]) {
            None => {
                lemma_one_more_line(unit.out, all[n]);
                lemma_no_directive_left(files, loader, stack, text, n + 1, unit.line(all[n]));
            },
            Some(Err(_)) => {},
            Some(Ok(target)) => {
                if !loader.refuses(target) {
                    let path = loader.join(target);
                    if listed(loader.platform, stack, path) {
                    } else if listed(loader.platform, unit.visited, path) {
                        let remark = "// (already included) "@ + target;
                        lemma_remark("// (already included) "@, target);
                        lemma_one_more_line(unit.out, remark);
                        lemma_no_directive_left(files, loader, stack, text, n + 1, unit.line(remark));
                    } else if let Some(Ok(inner_text)) = read(loader.platform, files, path) {
                        let deeper = stack.push(path);
                        lemma_deeper(loader.platform, files, stack, path);
                        let opened = Unit {
                            out: Seq::empty(),
                            visited: unit.visited.push(path),
                            sources: unit.sources.push(path),
                        };
                        lemma_no_directive_left(files, loader, deeper, inner_text, 0, opened);
                        let inner = spec_expand(files, loader, deeper, lines(inner_text), 0, opened);
                        if let Ok(inner) = inner {
                            let begun = unit.line("// >>> "@ + target);
                            let filled = Unit { out: begun.out + inner.out, ..inner };
                            lemma_remark("// >>> "@, target);
                            lemma_one_more_line(unit.out, "// >>> "@ + target);
                            lemma_lines_append(begun.out, inner.out);
                            lemma_remark("// <<< "@, target);
                            lemma_one_more_line(filled.out, "// <<< "@ + target);
                            lemma_no_directive_left(
                                files,
                                loader,
                                stack,
                                text,
                                n + 1,
                                filled.line("// <<< "@ + target),
                            );
                        }
                    }
                }
            },
        }
    }
}

/// Nothing is left to expand in a finished shader: no line of it is a directive.
pub proof fn law_no_directive_is_left(
    root_is_dir: bool,
    files: Seq<FileView>,
    loader: LoaderView,
    relative: Seq<char>,
)
    ensures
        spec_compile(root_is_dir, files, loader, relative) matches Ok(unit) ==> has_no_directive(unit.out),
{
    if root_is_dir && !loader.refuses(relative) {
        let entry = loader.join(relative);
        if let Some(Ok(text)) = read(loader.platform, files, entry) {
            let unit = Unit { out: Seq::empty(), visited: Seq::empty(), sources: seq![entry] };
            lemma_no_directive_left(files, loader, seq![entry], text, 0, unit);
        }
    }
}

/// Whether line `k` of a file asks for `wanted`.
pub open spec fn asks(all: Seq<Seq<char>>, loader: LoaderView, k: int, wanted: Seq<char>) -> bool {
    &&& 0 <= k < all.len()
    &&& spec_target(all[k]) matches Some(Ok(target)) && spec_resolve(loader, target) == Ok::<
        Seq<char>,
        ShaderErrorView,
    >(wanted)
}

/// Whether every file in `order` has been read and comes behind every file that it asks for.
pub open spec fn is_dependency_order(
    files: Seq<FileView>,
    loader: LoaderView,
    order: Seq<Seq<char>>,
) -> bool {
    forall|i: int| 0 <= i < order.len() ==> is_ready(files, loader, order.take(i), #[trigger] order[i])
}

/// Whether `path` has been read and everything that it asks for is among `earlier`.
pub open spec fn is_ready(
    files: Seq<FileView>,
    loader: LoaderView,
    earlier: Seq<Seq<char>>,
    path: Seq<char>,
) -> bool {
    read(loader.platform, files, path) matches Some(Ok(text)) && forall|k: int, wanted: Seq<char>| #[trigger]
        asks(lines(text), loader, k, wanted) ==> listed(loader.platform, earlier, wanted)
}

proof fn lemma_listed(
    platform: Platform,
    paths: Seq<Seq<char>>,
    more: Seq<Seq<char>>,
    a: Seq<char>,
    b: Seq<char>,
)
    requires
        paths.is_prefix_of(more),
        platform.same_path(a, b),
    ensures
        listed(platform, paths, a) ==> listed(platform, more, b),
{
    if listed(platform, paths, a) {
        let i = choose|i: int| 0 <= i < paths.len() && platform.same_path(#[trigger] paths[i], a);
        assert(more[i] == paths[i]);
        assert(platform.same_path(more[i], b));
    }
}

/// Whether every path is in `order` or on the stack.
spec fn accounted(
    platform: Platform,
    order: Seq<Seq<char>>,
    stack: Seq<Seq<char>>,
    paths: Seq<Seq<char>>,
) -> bool {
    forall|i: int|
        0 <= i < paths.len() ==> listed(platform, order, #[trigger] paths[i])
            || listed(platform, stack, paths[i])
}

proof fn lemma_accounted(
    platform: Platform,
    order: Seq<Seq<char>>,
    more: Seq<Seq<char>>,
    stack: Seq<Seq<char>>,
    path: Seq<char>,
    paths: Seq<Seq<char>>,
)
    requires
        accounted(platform, order, stack.push(path), paths),
        more == order.push(path),
    ensures
        accounted(platform, more, stack, paths),
{
    assert forall|i: int|
        0 <= i < paths.len() implies listed(platform, more, #[trigger] paths[i]) || listed(
        platform,
        stack,
        paths[i],
    ) by {
        lemma_listed(platform, order, more, paths[i], paths[i]);
        if listed(platform, stack.push(path), paths[i]) {
            let k = choose|k: int|
                0 <= k < stack.push(path).len() && platform.same_path(
                    #[trigger] stack.push(path)[k],
                    paths[i],
                );
            if k < stack.len() {
                assert(platform.same_path(stack[k], paths[i]));
            } else {
                assert(platform.same_path(more[more.len() - 1], paths[i]));
            }
        }
    }
}

proof fn lemma_accounted_grows(
    platform: Platform,
    order: Seq<Seq<char>>,
    stack: Seq<Seq<char>>,
    path: Seq<char>,
    paths: Seq<Seq<char>>,
)
    requires
        accounted(platform, order, stack, paths),
    ensures
        accounted(platform, order, stack.push(path), paths.push(path)),
{
    let grown = paths.push(path);
    assert(platform.same_path(stack.push(path)[stack.len() as int], path));
    assert forall|i: int|
        0 <= i < grown.len() implies listed(platform, order, #[trigger] grown[i]) || listed(
        platform,
        stack.push(path),
        grown[i],
    ) by {
        if i < paths.len() {
            assert(grown[i] == paths[i]);
            lemma_listed(platform, stack, stack.push(path), paths[i], paths[i]);
        }
    }
}

proof fn lemma_dependency_order(
    files: Seq<FileView>,
    loader: LoaderView,
    stack: Seq<Seq<char>>,
    all: Seq<Seq<char>>,
    n: int,
    unit: Unit,
    order: Seq<Seq<char>>,
) -> (more: Seq<Seq<char>>)
    requires
        0 <= n,
        stack.len() > 0,
        well_stacked(loader.platform, files, stack),
        is_dependency_order(files, loader, order),
        accounted(loader.platform, order, stack, unit.visited),
        accounted(loader.platform, order, stack, unit.sources),
    ensures
        spec_expand(files, loader, stack, all, n, unit) matches Ok(u) ==> {
            &&& is_dependency_order(files, loader, more)
            &&& order.is_prefix_of(more)
            &&& accounted(loader.platform, more, stack, u.visited)
            &&& accounted(loader.platform, more, stack, u.sources)
            &&& forall|k: int, wanted: Seq<char>|
                n <= k && #[trigger] asks(all, loader, k, wanted) ==> listed(loader.platform, more, wanted)
        },
    decreases files.len() - stack.len(), all.len() - n,
{
    if n >= all.len() {
        order
    } else {
        match spec_target(all[n]) {
            None => lemma_dependency_order(files, loader, stack, all, n + 1, unit.line(all[n]), order),
            Some(Err(_)) => order,
            Some(Ok(target)) => {
                let path = loader.join(target);
                if loader.refuses(target) || listed(loader.platform, stack, path) {
                    order
                } else if listed(loader.platform, unit.visited, path) {
                    let v = choose|v: int|
                        0 <= v < unit.visited.len() && loader.platform.same_path(
                            #[trigger] unit.visited[v],
                            path,
                        );
                    let more = lemma_dependency_order(
                        files,
                        loader,
                        stack,
                        all,
                        n + 1,
                        unit.line("// (already included) "@ + target),
                        order,
                    );
                    if spec_expand(files, loader, stack, all, n, unit) is Ok {
                        lemma_listed(loader.platform, order, more, unit.visited[v], path);
                        lemma_listed(loader.platform, stack, stack, unit.visited[v], path);
                    }
                    more
                } else if let Some(Ok(text)) = read(loader.platform, files, path) {
                    let deeper = stack.push(path);
                    lemma_deeper(loader.platform, files, stack, path);
                    let opened = Unit {
                        out: Seq::empty(),
                        visited: unit.visited.push(path),
                        sources: unit.sources.push(path),
                    };
                    lemma_accounted_grows(loader.platform, order, stack, path, unit.visited);
                    lemma_accounted_grows(loader.platform, order, stack, path, unit.sources);
                    let before = lemma_dependency_order(
                        files,
                        loader,
                        deeper,
                        lines(text),
                        0,
                        opened,
                        order,
                    );
                    match spec_expand(files, loader, deeper, lines(text), 0, opened) {
                        Err(_) => order,
                        Ok(inner) => {
                            let begun = unit.line("// >>> "@ + target);
                            let filled = Unit { out: begun.out + inner.out, ..inner };
                            let closed_order = before.push(path);
                            assert(is_ready(files, loader, before, path));
                            lemma_order_push(files, loader, before, path);
                            lemma_accounted(
                                loader.platform,
                                before,
                                closed_order,
                                stack,
                                path,
                                inner.visited,
                            );
                            lemma_accounted(
                                loader.platform,
                                before,
                                closed_order,
                                stack,
                                path,
                                inner.sources,
                            );
                            let more = lemma_dependency_order(
                                files,
                                loader,
                                stack,
                                all,
                                n + 1,
                                filled.line("// <<< "@ + target),
                                closed_order,
                            );
                            if spec_expand(files, loader, stack, all, n, unit) is Ok {
                                assert(loader.platform.same_path(closed_order[before.len() as int], path));
                                lemma_listed(loader.platform, closed_order, more, path, path);
                            }
                            more
                        },
                    }
                } else {
                    order
                }
            },
        }
    }
}

proof fn lemma_order_push(
    files: Seq<FileView>,
    loader: LoaderView,
    order: Seq<Seq<char>>,
    path: Seq<char>,
)
    requires
        is_dependency_order(files, loader, order),
        is_ready(files, loader, order, path),
    ensures
        is_dependency_order(files, loader, order.push(path)),
{
    let more = order.push(path);
    assert forall|i: int| 0 <= i < more.len() implies is_ready(
        files,
        loader,
        more.take(i),
        #[trigger] more[i],
    ) by {
        assert(more.take(i) =~= order.take(i));
        if i < order.len() {
            assert(more[i] == order[i]);
        } else {
            assert(order.take(i) =~= order);
        }
    }
}

/// A finished shader is complete and free of cycles: its files can be put in an order in which each
/// comes behind every file that it asks for.
///
/// So a shader whose files ask for each other in a ring is never finished.
pub proof fn law_finished_shaders_are_complete_and_acyclic(
    root_is_dir: bool,
    files: Seq<FileView>,
    loader: LoaderView,
    relative: Seq<char>,
)
    ensures
        spec_compile(root_is_dir, files, loader, relative) matches Ok(unit) ==> exists|
            order: Seq<Seq<char>>,
        | #[trigger]
            is_dependency_order(files, loader, order) && forall|i: int|
                0 <= i < unit.sources.len() ==> listed(loader.platform, order, #[trigger] unit.sources[i]),
{
    if root_is_dir && !loader.refuses(relative) {
        let entry = loader.join(relative);
        if let Some(Ok(text)) = read(loader.platform, files, entry) {
            let stack = seq![entry];
            let unit = Unit { out: Seq::empty(), visited: Seq::empty(), sources: seq![entry] };
            let none = Seq::<Seq<char>>::empty();
            assert(loader.platform.same_path(stack[0], entry));
            let before = lemma_dependency_order(files, loader, stack, lines(text), 0, unit, none);
            if let Ok(u) = spec_expand(files, loader, stack, lines(text), 0, unit) {
                let order = before.push(entry);
                assert(is_ready(files, loader, before, entry));
                lemma_order_push(files, loader, before, entry);
                assert(stack =~= none.push(entry));
                lemma_accounted(loader.platform, before, order, none, entry, u.sources);
            }
        }
    }
}

/// Whether the file at `path` asks for `wanted`.
pub open spec fn file_asks(
    files: Seq<FileView>,
    loader: LoaderView,
    path: Seq<char>,
    wanted: Seq<char>,
) -> bool {
    read(loader.platform, files, path) matches Some(Ok(text)) && exists|k: int, w: Seq<char>| #[trigger]
        asks(lines(text), loader, k, w) && loader.platform.same_path(w, wanted)
}

/// Whether each of the files asks for the next and the last for the first.
pub open spec fn is_ring(files: Seq<FileView>, loader: LoaderView, ring: Seq<Seq<char>>) -> bool {
    &&& ring.len() > 0
    &&& forall|i: int|
        0 <= i < ring.len() ==> file_asks(
            files,
            loader,
            #[trigger] ring[i],
            if i + 1 < ring.len() {
                ring[i + 1]
            } else {
                ring[0]
            },
        )
}

proof fn lemma_read_respects_paths(platform: Platform, files: Seq<FileView>, a: Seq<char>, b: Seq<char>)
    requires
        platform.same_path(a, b),
    ensures
        read(platform, files, a) == read(platform, files, b),
    decreases files.len(),
{
    if files.len() > 0 {
        lemma_read_respects_paths(platform, files.skip(1), a, b);
    }
}

proof fn lemma_rings_have_no_order(
    files: Seq<FileView>,
    loader: LoaderView,
    ring: Seq<Seq<char>>,
    order: Seq<Seq<char>>,
    bound: int,
    i: int,
)
    requires
        is_ring(files, loader, ring),
        is_dependency_order(files, loader, order),
        0 <= bound <= order.len(),
        0 <= i < ring.len(),
    ensures
        !listed(loader.platform, order.take(bound), ring[i]),
    decreases bound,
{
    if listed(loader.platform, order.take(bound), ring[i]) {
        let j = choose|j: int|
            0 <= j < order.take(bound).len() && loader.platform.same_path(
                #[trigger] order.take(bound)[j],
                ring[i],
            );
        assert(order.take(bound)[j] == order[j]);
        assert(is_ready(files, loader, order.take(j), order[j]));
        lemma_read_respects_paths(loader.platform, files, order[j], ring[i]);
        let next = if i + 1 < ring.len() {
            i + 1
        } else {
            0
        };
        assert(file_asks(files, loader, ring[i], ring[next]));
        let text = read(loader.platform, files, ring[i])->Some_0->Ok_0;
        let (k, w) = choose|k: int, w: Seq<char>| #[trigger]
            asks(lines(text), loader, k, w) && loader.platform.same_path(w, ring[next]);
        lemma_listed(loader.platform, order.take(j), order.take(j), w, ring[next]);
        lemma_rings_have_no_order(files, loader, ring, order, j, next);
    }
}

/// Cycles are errors, not a hang: a shader that takes in any file of a ring is never finished.
pub proof fn law_rings_are_never_finished(
    root_is_dir: bool,
    files: Seq<FileView>,
    loader: LoaderView,
    relative: Seq<char>,
    ring: Seq<Seq<char>>,
    i: int,
)
    requires
        is_ring(files, loader, ring),
        0 <= i < ring.len(),
    ensures
        spec_compile(root_is_dir, files, loader, relative) matches Ok(unit) ==> !listed(
            loader.platform,
            unit.sources,
            ring[i],
        ),
{
    if let Ok(unit) = spec_compile(root_is_dir, files, loader, relative) {
        law_finished_shaders_are_complete_and_acyclic(root_is_dir, files, loader, relative);
        let order = choose|order: Seq<Seq<char>>| #[trigger]
            is_dependency_order(files, loader, order) && forall|i: int|
                0 <= i < unit.sources.len() ==> listed(loader.platform, order, #[trigger] unit.sources[i]);
        if listed(loader.platform, unit.sources, ring[i]) {
            let k = choose|k: int|
                0 <= k < unit.sources.len() && loader.platform.same_path(#[trigger] unit.sources[k], ring[i]);
            lemma_listed(loader.platform, order, order, unit.sources[k], ring[i]);
            assert(order.take(order.len() as int) =~= order);
            lemma_rings_have_no_order(files, loader, ring, order, order.len() as int, i);
        }
    }
}

proof fn lemma_read_grows(platform: Platform, files: Seq<FileView>, extra: Seq<FileView>, path: Seq<char>)
    ensures
        read(platform, files, path) is Some ==> read(platform, files + extra, path)
            == read(platform, files, path),
    decreases files.len(),
{
    if files.len() > 0 {
        lemma_read_grows(platform, files.skip(1), extra, path);
        assert((files + extra)[0] == files[0]);
        assert((files + extra).skip(1) =~= files.skip(1) + extra);
    }
}

proof fn lemma_expand_grows(
    files: Seq<FileView>,
    extra: Seq<FileView>,
    loader: LoaderView,
    stack: Seq<Seq<char>>,
    all: Seq<Seq<char>>,
    n: int,
    unit: Unit,
)
    requires
        0 <= n,
        stack.len() > 0,
        well_stacked(loader.platform, files, stack),
        !(spec_expand(files, loader, stack, all, n, unit) matches Err(StopView::Need(_))),
    ensures
        spec_expand(files + extra, loader, stack, all, n, unit) == spec_expand(
            files,
            loader,
            stack,
            all,
            n,
            unit,
        ),
    decreases files.len() - stack.len(), all.len() - n,
{
    if n < all.len() {
        match spec_target(all[n]) {
            None => {
                lemma_expand_grows(files, extra, loader, stack, all, n + 1, unit.line(all[n]));
            },
            Some(Err(_)) => {},
            Some(Ok(target)) => {
                if !loader.refuses(target) {
                    let path = loader.join(target);
                    lemma_read_grows(loader.platform, files, extra, path);
                    if listed(loader.platform, stack, path) {
                    } else if listed(loader.platform, unit.visited, path) {
                        lemma_expand_grows(
                            files,
                            extra,
                            loader,
                            stack,
                            all,
                            n + 1,
                            unit.line("// (already included) "@ + target),
                        );
                    } else if let Some(Ok(text)) = read(loader.platform, files, path) {
                        let deeper = stack.push(path);
                        lemma_deeper(loader.platform, files, stack, path);
                        let opened = Unit {
                            out: Seq::empty(),
                            visited: unit.visited.push(path),
                            sources: unit.sources.push(path),
                        };
                        lemma_expand_grows(files, extra, loader, deeper, lines(text), 0, opened);
                        if let Ok(inner) = spec_expand(files, loader, deeper, lines(text), 0, opened) {
                            let begun = unit.line("// >>> "@ + target);
                            let filled = Unit { out: begun.out + inner.out, ..inner };
                            lemma_expand_grows(
                                files,
                                extra,
                                loader,
                                stack,
                                all,
                                n + 1,
                                filled.line("// <<< "@ + target),
                            );
                        }
                    }
                }
            },
        }
    }
}

/// Reading more files changes neither a finished shader nor a mistake, so files can be read one at a
/// time, as they are asked for.
pub proof fn law_more_files_do_not_change_a_result(
    root_is_dir: bool,
    files: Seq<FileView>,
    extra: Seq<FileView>,
    loader: LoaderView,
    relative: Seq<char>,
)
    requires
        !(spec_compile(root_is_dir, files, loader, relative) matches Err(StopView::Need(_))),
    ensures
        spec_compile(root_is_dir, files + extra, loader, relative) == spec_compile(
            root_is_dir,
            files,
            loader,
            relative,
        ),
{
    if root_is_dir && !loader.refuses(relative) {
        let entry = loader.join(relative);
        lemma_read_grows(loader.platform, files, extra, entry);
        if let Some(Ok(text)) = read(loader.platform, files, entry) {
            let unit = Unit { out: Seq::empty(), visited: Seq::empty(), sources: seq![entry] };
            lemma_expand_grows(files, extra, loader, seq![entry], lines(text), 0, unit);
        }
    }
}

proof fn lemma_needed_is_unread(
    files: Seq<FileView>,
    loader: LoaderView,
    stack: Seq<Seq<char>>,
    all: Seq<Seq<char>>,
    n: int,
    unit: Unit,
)
    requires
        0 <= n,
        stack.len() > 0,
        well_stacked(loader.platform, files, stack),
    ensures
        spec_expand(files, loader, stack, all, n, unit) matches Err(StopView::Need(path)) ==> read(
            loader.platform,
            files,
            path,
        ) is None,
    decreases files.len() - stack.len(), all.len() - n,
{
    if n < all.len() {
        match spec_target(all[n]) {
            None => {
                lemma_needed_is_unread(files, loader, stack, all, n + 1, unit.line(all[n]));
            },
            Some(Err(_)) => {},
            Some(Ok(target)) => {
                if !loader.refuses(target) {
                    let path = loader.join(target);
                    if listed(loader.platform, stack, path) {
                    } else if listed(loader.platform, unit.visited, path) {
                        lemma_needed_is_unread(
                            files,
                            loader,
                            stack,
                            all,
                            n + 1,
                            unit.line("// (already included) "@ + target),
                        );
                    } else if let Some(Ok(text)) = read(loader.platform, files, path) {
                        let deeper = stack.push(path);
                        lemma_deeper(loader.platform, files, stack, path);
                        let opened = Unit {
                            out: Seq::empty(),
                            visited: unit.visited.push(path),
                            sources: unit.sources.push(path),
                        };
                        lemma_needed_is_unread(files, loader, deeper, lines(text), 0, opened);
                        if let Ok(inner) = spec_expand(files, loader, deeper, lines(text), 0, opened) {
                            let begun = unit.line("// >>> "@ + target);
                            let filled = Unit { out: begun.out + inner.out, ..inner };
                            lemma_needed_is_unread(
                                files,
                                loader,
                                stack,
                                all,
                                n + 1,
                                filled.line("// <<< "@ + target),
                            );
                        }
                    }
                }
            },
        }
    }
}

/// No file is asked for twice: a file that is named as the next to read has not been read.
pub proof fn law_the_next_file_has_not_been_read(
    root_is_dir: bool,
    files: Seq<FileView>,
    loader: LoaderView,
    relative: Seq<char>,
)
    ensures
        spec_compile(root_is_dir, files, loader, relative) matches Err(StopView::Need(path)) ==> read(
            loader.platform,
            files,
            path,
        ) is None,
{
    if root_is_dir && !loader.refuses(relative) {
        let entry = loader.join(relative);
        if let Some(Ok(text)) = read(loader.platform, files, entry) {
            let unit = Unit { out: Seq::empty(), visited: Seq::empty(), sources: seq![entry] };
            lemma_needed_is_unread(files, loader, seq![entry], lines(text), 0, unit);
        }
    }
}

/// Lines as a text: each is followed by `end`.
pub open spec fn joined(all: Seq<Seq<char>>, end: Seq<char>) -> Seq<char>
    decreases all.len(),
{
    if all.len() == 0 {
        Seq::empty()
    } else {
        all[0] + end + joined(all.skip(1), end)
    }
}

proof fn lemma_joined_append(a: Seq<Seq<char>>, b: Seq<Seq<char>>, end: Seq<char>)
    ensures
        joined(a + b, end) == joined(a, end) + joined(b, end),
    decreases a.len(),
{
    if a.len() == 0 {
        assert(a + b =~= b);
        assert(joined(a, end) + joined(b, end) =~= joined(b, end));
    } else {
        assert((a + b).skip(1) =~= a.skip(1) + b);
        lemma_joined_append(a.skip(1), b, end);
        assert(joined(a + b, end) =~= joined(a, end) + joined(b, end));
    }
}

proof fn lemma_joined_one(line: Seq<char>, end: Seq<char>)
    ensures
        joined(seq![line], end) == line + end,
{
    reveal_with_fuel(joined, 2);
    assert(seq![line].skip(1) =~= Seq::<Seq<char>>::empty());
    assert(joined(seq![line], end) =~= line + end);
}

/// Taking a text apart into lines loses nothing: a text without carriage returns is its lines, each
/// followed by a line feed, up to the line feed that its last line may lack.
pub proof fn law_lines_join_back(text: Seq<char>)
    requires
        !text.contains('\r'),
    ensures
        joined(lines(text), seq!['\n']) == (if text.len() == 0 || text.last() == '\n' {
            text
        } else {
            text.push('\n')
        }),
    decreases text.len(),
{
    let feed = seq!['\n'];
    let end = first_index(text, '\n') as int;
    lemma_first_index_bounds(text, '\n');
    if text.len() == 0 {
    } else if end >= text.len() {
        lemma_joined_one(text, feed);
        assert(text.last() != '\n');
        assert(text + feed =~= text.push('\n'));
    } else {
        let (head, rest) = (text.take(end), text.skip(end + 1));
        assert forall|k: int| 0 <= k < rest.len() implies rest[k] != '\r' by {
            assert(text.contains(text[k + end + 1]));
        }
        if head.len() > 0 {
            assert(text.contains(text[end - 1]));
        }
        law_lines_join_back(rest);
        assert(lines(text).skip(1) =~= lines(rest));
        assert(lines(text)[0] == head);
        if rest.len() > 0 {
            assert(rest.last() == text.last());
            assert(head + feed + rest =~= text);
            assert(head + feed + rest.push('\n') =~= text.push('\n'));
        } else {
            assert(head + feed + rest =~= text);
        }
    }
}

/// Lines that are written are the lines that are read, whether each ends with a line feed or with a
/// carriage return and a line feed, and whether or not a last line follows that does not end at all.
pub proof fn law_written_lines_read_back(all: Seq<Seq<char>>, end: Seq<char>, tail: Seq<char>)
    requires
        end == seq!['\n'] || end == seq!['\r', '\n'],
        forall|i: int| 0 <= i < all.len() ==> !(#[trigger] all[i]).contains('\n'),
        end == seq!['\n'] ==> forall|i: int|
            0 <= i < all.len() ==> (#[trigger] all[i]).len() == 0 || all[i].last() != '\r',
        !tail.contains('\n'),
    ensures
        lines(joined(all, end) + tail) == (if tail.len() == 0 {
            all
        } else {
            all.push(tail)
        }),
    decreases all.len(),
{
    if all.len() == 0 {
        assert(joined(all, end) + tail =~= tail);
        if tail.len() > 0 {
            assert forall|k: int| 0 <= k < tail.len() implies tail[k] != '\n' by {
                assert(tail.contains(tail[k]));
            }
            lemma_first_index(tail, '\n', tail.len() as int);
            assert(lines(tail) =~= all.push(tail));
        } else {
            assert(lines(tail) =~= all);
        }
    } else {
        let (line, rest) = (all[0], all.skip(1));
        law_written_lines_read_back(rest, end, tail);
        let text = joined(all, end) + tail;
        let n = line.len() + end.len() - 1;
        assert forall|k: int| 0 <= k < n implies text[k] != '\n' by {
            if k < line.len() {
                assert(text[k] == line[k]);
                assert(line.contains(line[k]));
            } else {
                assert(text[k] == end[k - line.len()]);
            }
        }
        assert(text[n] == end[end.len() - 1]);
        lemma_first_index(text, '\n', n);
        assert(text.skip(n + 1) =~= joined(rest, end) + tail);
        if end.len() == 1 {
            assert(text.take(n) =~= line);
        } else {
            assert(text.take(n) =~= line.push('\r'));
            assert(line.push('\r').drop_last() =~= line);
        }
        assert(without_return(text.take(n)) == line);
        assert(lines(text) =~= seq![line] + lines(joined(rest, end) + tail));
        if tail.len() == 0 {
            assert(lines(text) =~= all);
        } else {
            assert(lines(text) =~= all.push(tail));
        }
    }
}

/// A directive asks for what stands between its quotes, whatever that is, as long as it is something;
/// white space around the quotes does not matter.
pub proof fn law_a_directive_asks_for_its_target(before: Seq<char>, target: Seq<char>, after: Seq<char>)
    requires
        target.len() > 0,
        forall|i: int| 0 <= i < before.len() ==> is_white(#[trigger] before[i]),
        forall|i: int| 0 <= i < after.len() ==> is_white(#[trigger] after[i]),
    ensures
        spec_target("//#include"@ + before + seq!['"'] + target + seq!['"'] + after) == Some(
            Ok::<Seq<char>, ()>(target),
        ),
{
    let quoted = seq!['"'] + target + seq!['"'];
    let line = "//#include"@ + before + seq!['"'] + target + seq!['"'] + after;
    let rest = before + quoted + after;
    assert(line =~= "//#include"@ + rest);
    assert(line.skip("//#include"@.len() as int) =~= rest);
    lemma_trim_front(before, quoted + after);
    assert(rest =~= before + (quoted + after));
    assert((quoted + after)[0] == '"');
    lemma_trim_back(quoted, after);
    assert(quoted.last() == '"');
    assert(quoted.subrange(1, quoted.len() - 1) =~= target);
    assert(DIRECTIVE@.is_prefix_of(line));
}

proof fn lemma_trim_front(space: Seq<char>, s: Seq<char>)
    requires
        forall|i: int| 0 <= i < space.len() ==> is_white(#[trigger] space[i]),
        s.len() > 0 ==> !is_white(s[0]),
    ensures
        trim_front(space + s) == s,
    decreases space.len(),
{
    if space.len() == 0 {
        assert(space + s =~= s);
    } else {
        assert((space + s)[0] == space[0]);
        assert((space + s).skip(1) =~= space.skip(1) + s);
        lemma_trim_front(space.skip(1), s);
    }
}

proof fn lemma_trim_back(s: Seq<char>, space: Seq<char>)
    requires
        forall|i: int| 0 <= i < space.len() ==> is_white(#[trigger] space[i]),
        s.len() > 0 ==> !is_white(s.last()),
    ensures
        trim_back(s + space) == s,
    decreases space.len(),
{
    if space.len() == 0 {
        assert(s + space =~= s);
    } else {
        assert((s + space).last() == space.last());
        assert((s + space).drop_last() =~= s + space.drop_last());
        lemma_trim_back(s, space.drop_last());
    }
}

/// A line is a directive if and only if it starts with the directive's word, at the first column; a
/// directive without two quotes around something is a mistake.
pub proof fn law_only_the_word_makes_a_directive(line: Seq<char>)
    ensures
        spec_target(line) is None <==> !"//#include"@.is_prefix_of(line),
        "//#include"@.is_prefix_of(line) && !line.skip(10).contains('"') ==> spec_target(line) == Some(
            Err::<Seq<char>, ()>(()),
        ),
        "//#include"@.is_prefix_of(line) && line.len() > 10 && '!' <= line.last() <= '~' && line.last()
            != '"' ==> spec_target(line) == Some(Err::<Seq<char>, ()>(())),
        "//#include"@.is_prefix_of(line) && line.len() > 10 && '!' <= line[10] <= '~' && line[10] != '"'
            ==> spec_target(line) == Some(Err::<Seq<char>, ()>(())),
        spec_target(line) matches Some(Ok(target)) ==> target.len() > 0 && exists|i: int, j: int|
            10 < i <= j < line.len() && target == #[trigger] line.subrange(i, j) && line[i - 1] == '"'
                && line[j] == '"',
{
    reveal_strlit("//#include");
    if "//#include"@.is_prefix_of(line) {
        let tail = line.skip(10);
        let front = trim_front(tail);
        let rest = trim_back(front);
        lemma_trim_front_is_suffix(tail);
        lemma_trim_back_is_prefix(front);
        if line.len() > 10 {
            assert(tail[0] == line[10] && tail.last() == line.last());
            if '!' <= line.last() <= '~' && rest.len() > 0 {
                assert(front.last() == tail.last());
                assert(rest == front);
            }
        }
        if rest.len() >= 3 && rest[0] == '"' && rest.last() == '"' {
            let i = 11 + (tail.len() - front.len());
            let j = i + rest.len() - 2;
            assert(rest[0] == front[0]);
            assert(front[0] == tail[tail.len() - front.len()]);
            assert(line[i - 1] == '"');
            assert(tail.contains(tail[i - 11]));
            assert(rest.last() == front[rest.len() - 1]);
            assert(line[j] == '"');
            assert(rest.subrange(1, rest.len() - 1) =~= line.subrange(i, j));
        }
    }
}

/// The lines that are no directive, in order.
pub open spec fn ordinary(all: Seq<Seq<char>>) -> Seq<Seq<char>>
    decreases all.len(),
{
    if all.len() == 0 {
        Seq::empty()
    } else if "//#include"@.is_prefix_of(all[0]) {
        ordinary(all.skip(1))
    } else {
        seq![all[0]] + ordinary(all.skip(1))
    }
}

/// Whether the lines of `a` are among those of `b`, in the same order.
pub open spec fn within(a: Seq<Seq<char>>, b: Seq<Seq<char>>) -> bool
    decreases b.len(),
{
    ||| a.len() == 0
    ||| b.len() > 0 && a[0] == b[0] && within(a.skip(1), b.skip(1))
    ||| b.len() > 0 && within(a, b.skip(1))
}

/// Whether a line is a remark of the preprocessor.
pub open spec fn is_remark(line: Seq<char>) -> bool {
    ||| "// >>> "@.is_prefix_of(line)
    ||| "// <<< "@.is_prefix_of(line)
    ||| "// (already included) "@.is_prefix_of(line)
}

/// Whether the ordinary lines of the file at `path` are among `out`, in order.
pub open spec fn comes_through(
    files: Seq<FileView>,
    platform: Platform,
    path: Seq<char>,
    out: Seq<Seq<char>>,
) -> bool {
    read(platform, files, path) matches Some(Ok(text)) && within(ordinary(lines(text)), out)
}

/// Whether a line is an ordinary line of one of the files.
pub open spec fn stems(
    files: Seq<FileView>,
    platform: Platform,
    paths: Seq<Seq<char>>,
    line: Seq<char>,
) -> bool {
    exists|i: int| 0 <= i < paths.len() && holds_line(files, platform, #[trigger] paths[i], line)
}

/// Whether a line is an ordinary line of a file.
pub open spec fn holds_line(
    files: Seq<FileView>,
    platform: Platform,
    path: Seq<char>,
    line: Seq<char>,
) -> bool {
    read(platform, files, path) matches Some(Ok(text)) && ordinary(lines(text)).contains(line)
}

proof fn lemma_within_behind(a: Seq<Seq<char>>, before: Seq<Seq<char>>, b: Seq<Seq<char>>)
    requires
        within(a, b),
    ensures
        within(a, before + b),
    decreases before.len(),
{
    if before.len() == 0 {
        assert(before + b =~= b);
    } else {
        lemma_within_behind(a, before.skip(1), b);
        assert((before + b).skip(1) =~= before.skip(1) + b);
    }
}

proof fn lemma_within_ahead(a: Seq<Seq<char>>, b: Seq<Seq<char>>, after: Seq<Seq<char>>)
    requires
        within(a, b),
    ensures
        within(a, b + after),
    decreases b.len(),
{
    if a.len() > 0 {
        assert((b + after).skip(1) =~= b.skip(1) + after);
        assert((b + after)[0] == b[0]);
        if a[0] == b[0] && within(a.skip(1), b.skip(1)) {
            lemma_within_ahead(a.skip(1), b.skip(1), after);
        } else {
            lemma_within_ahead(a, b.skip(1), after);
        }
    }
}

proof fn lemma_within_one_more(line: Seq<char>, a: Seq<Seq<char>>, b: Seq<Seq<char>>)
    requires
        within(a, b),
    ensures
        within(seq![line] + a, seq![line] + b),
{
    assert((seq![line] + a).skip(1) =~= a);
    assert((seq![line] + b).skip(1) =~= b);
}

proof fn lemma_stems_grows(
    files: Seq<FileView>,
    platform: Platform,
    paths: Seq<Seq<char>>,
    more: Seq<Seq<char>>,
    line: Seq<char>,
)
    requires
        paths.is_prefix_of(more),
        stems(files, platform, paths, line),
    ensures
        stems(files, platform, more, line),
{
    let i = choose|i: int|
        0 <= i < paths.len() && holds_line(files, platform, #[trigger] paths[i], line);
    assert(more[i] == paths[i]);
}

/// What an expansion adds: a row of lines that the ordinary lines of every file opened on the way come
/// through in, and nothing but these and remarks.
spec fn is_emitted(
    files: Seq<FileView>,
    platform: Platform,
    all: Seq<Seq<char>>,
    before: Unit,
    after: Unit,
    out: Seq<Seq<char>>,
) -> bool {
    &&& after.out == before.out + joined(out, seq!['\n'])
    &&& before.sources.is_prefix_of(after.sources)
    &&& within(ordinary(all), out)
    &&& forall|i: int|
        before.sources.len() <= i < after.sources.len() ==> comes_through(
            files,
            platform,
            #[trigger] after.sources[i],
            out,
        )
    &&& forall|k: int|
        0 <= k < out.len() ==> is_remark(#[trigger] out[k]) || ordinary(all).contains(out[k]) || stems(
            files,
            platform,
            after.sources,
            out[k],
        )
}

proof fn lemma_emit_line(
    files: Seq<FileView>,
    platform: Platform,
    all: Seq<Seq<char>>,
    line: Seq<char>,
    before: Unit,
    after: Unit,
    out: Seq<Seq<char>>,
)
    requires
        all.len() > 0,
        is_emitted(files, platform, all.skip(1), before.line(line), after, out),
        "//#include"@.is_prefix_of(all[0]) ==> is_remark(line),
        !"//#include"@.is_prefix_of(all[0]) ==> line == all[0],
    ensures
        is_emitted(files, platform, all, before, after, seq![line] + out),
{
    let feed = seq!['\n'];
    let grown = seq![line] + out;
    reveal_strlit("\n");
    assert("\n"@ =~= feed);
    assert(grown.skip(1) =~= out);
    assert(after.out =~= before.out + joined(grown, feed));
    if "//#include"@.is_prefix_of(all[0]) {
        lemma_within_behind(ordinary(all), seq![line], out);
    } else {
        lemma_within_one_more(line, ordinary(all.skip(1)), out);
        assert(ordinary(all)[0] == line);
    }
    assert forall|i: int| before.sources.len() <= i < after.sources.len() implies comes_through(
        files,
        platform,
        #[trigger] after.sources[i],
        grown,
    ) by {
        let text = read(platform, files, after.sources[i])->Some_0->Ok_0;
        lemma_within_behind(ordinary(lines(text)), seq![line], out);
    }
    assert forall|k: int| 0 <= k < grown.len() implies is_remark(#[trigger] grown[k]) || ordinary(
        all,
    ).contains(grown[k]) || stems(files, platform, after.sources, grown[k]) by {
        if k > 0 {
            assert(grown[k] == out[k - 1]);
            if ordinary(all.skip(1)).contains(out[k - 1]) {
                let m = choose|m: int|
                    0 <= m < ordinary(all.skip(1)).len() && ordinary(all.skip(1))[m] == out[k - 1];
                if "//#include"@.is_prefix_of(all[0]) {
                    assert(ordinary(all)[m] == grown[k]);
                } else {
                    assert(ordinary(all)[m + 1] == grown[k]);
                }
            }
        }
    }
}

proof fn lemma_emit_file(
    files: Seq<FileView>,
    platform: Platform,
    all: Seq<Seq<char>>,
    path: Seq<char>,
    open_mark: Seq<char>,
    close_mark: Seq<char>,
    before: Unit,
    inner: Unit,
    inner_out: Seq<Seq<char>>,
    after: Unit,
    out: Seq<Seq<char>>,
)
    requires
        all.len() > 0,
        "//#include"@.is_prefix_of(all[0]),
        is_remark(open_mark),
        is_remark(close_mark),
        read(platform, files, path) matches Some(Ok(text)) && is_emitted(
            files,
            platform,
            lines(text),
            Unit {
                out: Seq::empty(),
                visited: before.visited.push(path),
                sources: before.sources.push(path),
            },
            inner,
            inner_out,
        ),
        is_emitted(
            files,
            platform,
            all.skip(1),
            (Unit { out: before.line(open_mark).out + inner.out, ..inner }).line(close_mark),
            after,
            out,
        ),
    ensures
        is_emitted(
            files,
            platform,
            all,
            before,
            after,
            seq![open_mark] + inner_out + seq![close_mark] + out,
        ),
{
    let feed = seq!['\n'];
    reveal_strlit("\n");
    assert("\n"@ =~= feed);
    let text = read(platform, files, path)->Some_0->Ok_0;
    let head = seq![open_mark] + inner_out + seq![close_mark];
    let grown = head + out;
    lemma_joined_append(head, out, feed);
    lemma_joined_append(seq![open_mark] + inner_out, seq![close_mark], feed);
    lemma_joined_append(seq![open_mark], inner_out, feed);
    lemma_joined_one(open_mark, feed);
    lemma_joined_one(close_mark, feed);
    assert(inner.out =~= joined(inner_out, feed));
    assert(after.out =~= before.out + joined(grown, feed));
    assert(ordinary(all) == ordinary(all.skip(1)));
    lemma_within_behind(ordinary(all), head, out);
    let opened = before.sources.push(path);
    let count = before.sources.len() as int;
    assert(opened[count] == inner.sources[count]);
    assert(opened[count] == path);
    assert(inner.sources.is_prefix_of(after.sources));
    assert(before.sources.is_prefix_of(after.sources)) by {
        assert forall|i: int| 0 <= i < count implies before.sources[i] == after.sources[i] by {
            assert(opened[i] == inner.sources[i]);
            assert(inner.sources[i] == after.sources[i]);
        }
        assert(before.sources =~= after.sources.subrange(0, count));
    }
    assert forall|i: int| before.sources.len() <= i < after.sources.len() implies comes_through(
        files,
        platform,
        #[trigger] after.sources[i],
        grown,
    ) by {
        let body = read(platform, files, after.sources[i])->Some_0->Ok_0;
        if i < inner.sources.len() {
            assert(after.sources[i] == inner.sources[i]);
            if i == before.sources.len() {
                assert(body == text);
            } else {
                assert(comes_through(files, platform, inner.sources[i], inner_out));
            }
            lemma_within_behind(ordinary(lines(body)), seq![open_mark], inner_out);
            lemma_within_ahead(ordinary(lines(body)), seq![open_mark] + inner_out, seq![close_mark] + out);
            assert(grown =~= seq![open_mark] + inner_out + (seq![close_mark] + out));
        } else {
            lemma_within_behind(ordinary(lines(body)), head, out);
        }
    }
    assert forall|k: int| 0 <= k < grown.len() implies is_remark(#[trigger] grown[k]) || ordinary(
        all,
    ).contains(grown[k]) || stems(files, platform, after.sources, grown[k]) by {
        if k == 0 || k == head.len() - 1 {
        } else if k < head.len() {
            let line = inner_out[k - 1];
            assert(grown[k] == line);
            if ordinary(lines(text)).contains(line) {
                assert(holds_line(files, platform, inner.sources[before.sources.len() as int], line));
                assert(stems(files, platform, inner.sources, line));
            }
            if stems(files, platform, inner.sources, line) {
                lemma_stems_grows(files, platform, inner.sources, after.sources, line);
            }
        } else {
            assert(grown[k] == out[k - head.len()]);
        }
    }
}

proof fn lemma_emitted(
    files: Seq<FileView>,
    loader: LoaderView,
    stack: Seq<Seq<char>>,
    all: Seq<Seq<char>>,
    n: int,
    unit: Unit,
) -> (out: Seq<Seq<char>>)
    requires
        0 <= n <= all.len(),
        stack.len() > 0,
        well_stacked(loader.platform, files, stack),
    ensures
        spec_expand(files, loader, stack, all, n, unit) matches Ok(u) ==> is_emitted(
            files,
            loader.platform,
            all.skip(n),
            unit,
            u,
            out,
        ),
    decreases files.len() - stack.len(), all.len() - n,
{
    let none = Seq::<Seq<char>>::empty();
    let expanded = spec_expand(files, loader, stack, all, n, unit);
    if n >= all.len() {
        assert(unit.out =~= unit.out + joined(none, seq!['\n']));
        none
    } else {
        let rest = all.skip(n);
        assert(rest.skip(1) =~= all.skip(n + 1));
        assert(rest[0] == all[n]);
        law_only_the_word_makes_a_directive(all[n]);
        match spec_target(all[n]) {
            None => {
                let out = lemma_emitted(files, loader, stack, all, n + 1, unit.line(all[n]));
                if let Ok(u) = expanded {
                    lemma_emit_line(files, loader.platform, rest, all[n], unit, u, out);
                }
                seq![all[n]] + out
            },
            Some(Err(_)) => none,
            Some(Ok(target)) => {
                let path = loader.join(target);
                if loader.refuses(target) || listed(loader.platform, stack, path) {
                    none
                } else if listed(loader.platform, unit.visited, path) {
                    let remark = "// (already included) "@ + target;
                    let out = lemma_emitted(files, loader, stack, all, n + 1, unit.line(remark));
                    if let Ok(u) = expanded {
                        assert("// (already included) "@.is_prefix_of(remark));
                        lemma_emit_line(files, loader.platform, rest, remark, unit, u, out);
                    }
                    seq![remark] + out
                } else if let Some(Ok(text)) = read(loader.platform, files, path) {
                    let deeper = stack.push(path);
                    lemma_deeper(loader.platform, files, stack, path);
                    let opened = Unit {
                        out: Seq::empty(),
                        visited: unit.visited.push(path),
                        sources: unit.sources.push(path),
                    };
                    let inner_out = lemma_emitted(files, loader, deeper, lines(text), 0, opened);
                    assert(lines(text).skip(0) =~= lines(text));
                    match spec_expand(files, loader, deeper, lines(text), 0, opened) {
                        Err(_) => none,
                        Ok(inner) => {
                            let (open_mark, close_mark) = ("// >>> "@ + target, "// <<< "@ + target);
                            let begun = unit.line(open_mark);
                            let filled = Unit { out: begun.out + inner.out, ..inner };
                            let next = filled.line(close_mark);
                            let out = lemma_emitted(files, loader, stack, all, n + 1, next);
                            if let Ok(u) = expanded {
                                assert("// >>> "@.is_prefix_of(open_mark));
                                assert("// <<< "@.is_prefix_of(close_mark));
                                lemma_emit_file(
                                    files,
                                    loader.platform,
                                    rest,
                                    path,
                                    open_mark,
                                    close_mark,
                                    unit,
                                    inner,
                                    inner_out,
                                    u,
                                    out,
                                );
                            }
                            seq![open_mark] + inner_out + seq![close_mark] + out
                        },
                    }
                } else {
                    none
                }
            },
        }
    }
}

/// Ordinary lines come through as they are written: a finished shader is a row of lines, each followed by
/// a line feed, in which the ordinary lines of every opened file stand in order, character for character,
/// and in which nothing else stands but remarks. The file that was asked for is opened first.
pub proof fn law_ordinary_lines_come_through(
    root_is_dir: bool,
    files: Seq<FileView>,
    loader: LoaderView,
    relative: Seq<char>,
)
    ensures
        spec_compile(root_is_dir, files, loader, relative) matches Ok(unit) ==> {
            &&& unit.sources.len() > 0
            &&& unit.sources[0] == loader.join(relative)
            &&& exists|out: Seq<Seq<char>>|
                {
                    &&& unit.out == #[trigger] joined(out, seq!['\n'])
                    &&& forall|i: int|
                        0 <= i < unit.sources.len() ==> comes_through(
                            files,
                            loader.platform,
                            #[trigger] unit.sources[i],
                            out,
                        )
                    &&& forall|k: int|
                        0 <= k < out.len() ==> is_remark(#[trigger] out[k]) || stems(
                            files,
                            loader.platform,
                            unit.sources,
                            out[k],
                        )
                }
        },
{
    if root_is_dir && !loader.refuses(relative) {
        let entry = loader.join(relative);
        if let Some(Ok(text)) = read(loader.platform, files, entry) {
            let unit = Unit { out: Seq::empty(), visited: Seq::empty(), sources: seq![entry] };
            let out = lemma_emitted(files, loader, seq![entry], lines(text), 0, unit);
            assert(lines(text).skip(0) =~= lines(text));
            if let Ok(u) = spec_expand(files, loader, seq![entry], lines(text), 0, unit) {
                assert(u.out =~= joined(out, seq!['\n']));
                assert(u.sources[0] == unit.sources[0]);
                assert forall|k: int| 0 <= k < out.len() implies is_remark(#[trigger] out[k]) || stems(
                    files,
                    loader.platform,
                    u.sources,
                    out[k],
                ) by {
                    if ordinary(lines(text)).contains(out[k]) {
                        assert(holds_line(files, loader.platform, u.sources[0], out[k]));
                    }
                }
            }
        }
    }
}

proof fn lemma_plain(
    files: Seq<FileView>,
    loader: LoaderView,
    stack: Seq<Seq<char>>,
    all: Seq<Seq<char>>,
    n: int,
    unit: Unit,
)
    requires
        0 <= n <= all.len(),
        forall|i: int| 0 <= i < all.len() ==> !"//#include"@.is_prefix_of(#[trigger] all[i]),
    ensures
        spec_expand(files, loader, stack, all, n, unit) == Ok::<Unit, StopView>(
            Unit { out: unit.out + joined(all.skip(n), seq!['\n']), ..unit },
        ),
    decreases all.len() - n,
{
    reveal_strlit("\n");
    assert("\n"@ =~= seq!['\n']);
    if n < all.len() {
        law_only_the_word_makes_a_directive(all[n]);
        lemma_plain(files, loader, stack, all, n + 1, unit.line(all[n]));
        assert(all.skip(n).skip(1) =~= all.skip(n + 1));
        assert(unit.out + joined(all.skip(n), seq!['\n']) =~= unit.line(all[n]).out + joined(
            all.skip(n + 1),
            seq!['\n'],
        ));
    } else {
        assert(unit.out + joined(all.skip(n), seq!['\n']) =~= unit.out);
    }
}

/// A file that asks for nothing is its own shader: if it is there, it compiles, and the source is its text,
/// character for character, with a line feed behind the last line.
pub proof fn law_plain_files_compile_to_themselves(
    files: Seq<FileView>,
    loader: LoaderView,
    relative: Seq<char>,
    text: Seq<char>,
)
    requires
        !loader.refuses(relative),
        read(loader.platform, files, loader.join(relative)) == Some(Ok::<Seq<char>, Seq<char>>(text)),
        forall|i: int|
            0 <= i < lines(text).len() ==> !"//#include"@.is_prefix_of(#[trigger] lines(text)[i]),
    ensures
        spec_compile(true, files, loader, relative) matches Ok(unit) && {
            &&& unit.sources == seq![loader.join(relative)]
            &&& unit.out == joined(lines(text), seq!['\n'])
            &&& !text.contains('\r') && text.len() > 0 && text.last() == '\n' ==> unit.out == text
        },
{
    let entry = loader.join(relative);
    let unit = Unit { out: Seq::empty(), visited: Seq::empty(), sources: seq![entry] };
    lemma_plain(files, loader, seq![entry], lines(text), 0, unit);
    assert(lines(text).skip(0) =~= lines(text));
    assert(unit.out + joined(lines(text), seq!['\n']) =~= joined(lines(text), seq!['\n']));
    if !text.contains('\r') {
        law_lines_join_back(text);
    }
}

/// What was read last under a path that had not been read is what reading the path gives, and other paths
/// are not affected.
pub proof fn law_a_file_is_found_under_its_path(
    platform: Platform,
    files: Seq<FileView>,
    path: Seq<char>,
    content: Result<Seq<char>, Seq<char>>,
    other: Seq<char>,
)
    requires
        read(platform, files, path) is None,
    ensures
        read(platform, files.push((path, content)), path) == Some(content),
        !platform.same_path(path, other) ==> read(platform, files.push((path, content)), other) == read(
            platform,
            files,
            other,
        ),
    decreases files.len(),
{
    let grown = files.push((path, content));
    if files.len() > 0 {
        assert(grown[0] == files[0]);
        assert(grown.skip(1) =~= files.skip(1).push((path, content)));
        law_a_file_is_found_under_its_path(platform, files.skip(1), path, content, other);
    } else {
        assert(grown.skip(1) =~= files);
    }
}

/// White space is the twenty-five characters that Unicode counts as such, and no printable ASCII character
/// is among them.
pub proof fn law_white_space_is_known(c: char)
    ensures
        is_white(c) <==> seq![
            0x09u32,
            0x0a,
            0x0b,
            0x0c,
            0x0d,
            0x20,
            0x85,
            0xa0,
            0x1680,
            0x2000,
            0x2001,
            0x2002,
            0x2003,
            0x2004,
            0x2005,
            0x2006,
            0x2007,
            0x2008,
            0x2009,
            0x200a,
            0x2028,
            0x2029,
            0x202f,
            0x205f,
            0x3000,
        ].contains(c as u32),
        '!' <= c <= '~' ==> !is_white(c),
{
    let all = seq![
        0x09u32,
        0x0a,
        0x0b,
        0x0c,
        0x0d,
        0x20,
        0x85,
        0xa0,
        0x1680,
        0x2000,
        0x2001,
        0x2002,
        0x2003,
        0x2004,
        0x2005,
        0x2006,
        0x2007,
        0x2008,
        0x2009,
        0x200a,
        0x2028,
        0x2029,
        0x202f,
        0x205f,
        0x3000,
    ];
    let u = c as u32;
    if is_white(c) {
        let i = if u <= 0x0d {
            u - 0x09
        } else if u == 0x20 {
            5
        } else if u == 0x85 {
            6
        } else if u == 0xa0 {
            7
        } else if u == 0x1680 {
            8
        } else if u <= 0x200a {
            9 + (u - 0x2000)
        } else if u == 0x2028 {
            20
        } else if u == 0x2029 {
            21
        } else if u == 0x202f {
            22
        } else if u == 0x205f {
            23
        } else {
            24
        };
        assert(all[i] == u);
    }
}

/// Every error names what it is about: the root, the file and what went wrong with it, the chain of
/// includes in order, the target, or the file, the line and its text.
pub proof fn law_errors_name_what_they_are_about(
    path: Seq<char>,
    text: Seq<char>,
    line: int,
    chain: Seq<Seq<char>>,
)
    ensures
        ShaderErrorView::MissingRoot(path).spec_message() == "shader root does not exist: "@ + path,
        (ShaderErrorView::Io { path, source: text }).spec_message() == "reading "@ + path + ": "@ + text,
        ShaderErrorView::Cycle(Seq::empty()).spec_message() == "include cycle:"@,
        ShaderErrorView::Cycle(chain.push(path)).spec_message() == ShaderErrorView::Cycle(
            chain,
        ).spec_message() + " -> "@ + path,
        (ShaderErrorView::EscapesRoot {
            target: path,
        }).spec_message() == "include target escapes the shader root: "@ + path,
        (ShaderErrorView::Malformed { path, line, text }).spec_message() == "malformed include at "@ + path
            + ":"@ + crate::text::decimal(line as nat) + ": "@ + text,
        NOT_FOUND@ == "no such file"@,
{
    assert(chain.push(path).drop_last() =~= chain);
    assert("include cycle:"@ + arrows(Seq::empty()) =~= "include cycle:"@);
    assert("include cycle:"@ + arrows(chain.push(path)) =~= "include cycle:"@ + arrows(chain) + " -> "@
        + path);
}

proof fn lemma_run(
    files: Seq<FileView>,
    loader: LoaderView,
    stack: Seq<Seq<char>>,
    all: Seq<Seq<char>>,
    n: int,
    m: int,
    unit: Unit,
)
    requires
        0 <= n <= m <= all.len(),
        forall|i: int| n <= i < m ==> !"//#include"@.is_prefix_of(#[trigger] all[i]),
    ensures
        spec_expand(files, loader, stack, all, n, unit) == spec_expand(
            files,
            loader,
            stack,
            all,
            m,
            Unit { out: unit.out + joined(all.subrange(n, m), seq!['\n']), ..unit },
        ),
    decreases m - n,
{
    reveal_strlit("\n");
    assert("\n"@ =~= seq!['\n']);
    let run = all.subrange(n, m);
    if n < m {
        law_only_the_word_makes_a_directive(all[n]);
        lemma_run(files, loader, stack, all, n + 1, m, unit.line(all[n]));
        assert(run.skip(1) =~= all.subrange(n + 1, m));
        assert(unit.out + joined(run, seq!['\n']) =~= unit.line(all[n]).out + joined(
            all.subrange(n + 1, m),
            seq!['\n'],
        ));
    } else {
        assert(unit.out + joined(run, seq!['\n']) =~= unit.out);
    }
}

/// Whether no line is a directive.
pub open spec fn is_plain(all: Seq<Seq<char>>) -> bool {
    forall|i: int| 0 <= i < all.len() ==> !"//#include"@.is_prefix_of(#[trigger] all[i])
}

proof fn lemma_run_to(
    files: Seq<FileView>,
    loader: LoaderView,
    stack: Seq<Seq<char>>,
    done: Seq<Seq<char>>,
    before: Seq<Seq<char>>,
    after: Seq<Seq<char>>,
    unit: Unit,
)
    requires
        is_plain(before),
    ensures
        spec_expand(files, loader, stack, done + before + after, done.len() as int, unit) == spec_expand(
            files,
            loader,
            stack,
            done + before + after,
            (done.len() + before.len()) as int,
            Unit { out: unit.out + joined(before, seq!['\n']), ..unit },
        ),
{
    let all = done + before + after;
    let (n, m) = (done.len() as int, (done.len() + before.len()) as int);
    assert forall|i: int| n <= i < m implies !"//#include"@.is_prefix_of(#[trigger] all[i]) by {
        assert(all[i] == before[i - n]);
    }
    lemma_run(files, loader, stack, all, n, m, unit);
    assert(all.subrange(n, m) =~= before);
}

/// The first directive of a file decides: a malformed one is reported with the file, its line, counted from
/// one, and its text; one that leads out, with its target; one that asks for the file itself, as a cycle;
/// and one whose file has not been read, or could not be, with that file.
pub proof fn law_the_first_directive_decides(
    files: Seq<FileView>,
    loader: LoaderView,
    relative: Seq<char>,
    text: Seq<char>,
    before: Seq<Seq<char>>,
    line: Seq<char>,
    rest: Seq<Seq<char>>,
    target: Seq<char>,
    source: Seq<char>,
)
    requires
        !loader.refuses(relative),
        read(loader.platform, files, loader.join(relative)) == Some(Ok::<Seq<char>, Seq<char>>(text)),
        lines(text) == before + seq![line] + rest,
        is_plain(before),
    ensures
        spec_target(line) == Some(Err::<Seq<char>, ()>(())) ==> spec_compile(true, files, loader, relative)
            == Err::<Unit, StopView>(
            StopView::Error(
                ShaderErrorView::Malformed {
                    path: loader.join(relative),
                    line: before.len() as int + 1,
                    text: line,
                },
            ),
        ),
        spec_target(line) == Some(Ok::<Seq<char>, ()>(target)) ==> {
            let path = loader.join(target);
            let result = spec_compile(true, files, loader, relative);
            &&& loader.refuses(target) ==> result == Err::<Unit, StopView>(
                StopView::Error(ShaderErrorView::EscapesRoot { target }),
            )
            &&& !loader.refuses(target) && loader.platform.same_path(loader.join(relative), path)
                ==> result == Err::<Unit, StopView>(
                StopView::Error(ShaderErrorView::Cycle(seq![loader.join(relative), path])),
            )
            &&& !loader.refuses(target) && !loader.platform.same_path(loader.join(relative), path) && read(
                loader.platform,
                files,
                path,
            ) is None ==> result == Err::<Unit, StopView>(StopView::Need(path))
            &&& !loader.refuses(target) && !loader.platform.same_path(loader.join(relative), path) && read(
                loader.platform,
                files,
                path,
            ) == Some(Err::<Seq<char>, Seq<char>>(source)) ==> result == Err::<Unit, StopView>(
                StopView::Error(ShaderErrorView::Io { path, source }),
            )
        },
{
    let entry = loader.join(relative);
    let all = lines(text);
    let n = before.len() as int;
    let unit = Unit { out: Seq::empty(), visited: Seq::empty(), sources: seq![entry] };
    let none = Seq::<Seq<char>>::empty();
    assert(none + before + (seq![line] + rest) =~= all);
    lemma_run_to(files, loader, seq![entry], none, before, seq![line] + rest, unit);
    assert(all[n] == line);
    assert(seq![entry][0] == entry);
    assert(seq![entry].push(loader.join(target)) =~= seq![entry, loader.join(target)]);
}

/// Without a root, for an entry that leads out, and for one that has not been read or could not be, there is
/// nothing to expand.
pub proof fn law_an_entry_has_to_be_there(
    root_is_dir: bool,
    files: Seq<FileView>,
    loader: LoaderView,
    relative: Seq<char>,
    source: Seq<char>,
)
    ensures
        !root_is_dir ==> spec_compile(root_is_dir, files, loader, relative) == Err::<Unit, StopView>(
            StopView::Error(ShaderErrorView::MissingRoot(loader.root)),
        ),
        root_is_dir && loader.refuses(relative) ==> spec_compile(root_is_dir, files, loader, relative)
            == Err::<Unit, StopView>(
            StopView::Error(ShaderErrorView::EscapesRoot { target: relative }),
        ),
        root_is_dir && !loader.refuses(relative) && read(loader.platform, files, loader.join(relative)) is None
            ==> spec_compile(root_is_dir, files, loader, relative) == Err::<Unit, StopView>(
            StopView::Need(loader.join(relative)),
        ),
        root_is_dir && !loader.refuses(relative) && read(loader.platform, files, loader.join(relative))
            == Some(Err::<Seq<char>, Seq<char>>(source)) ==> spec_compile(
            root_is_dir,
            files,
            loader,
            relative,
        ) == Err::<Unit, StopView>(
            StopView::Error(ShaderErrorView::Io { path: loader.join(relative), source }),
        ),
{
}

/// A mistake in an included file is reported with that file, and a way back to the file that is still open
/// as a cycle, from the entry on, in the order in which the files were opened.
pub proof fn law_mistakes_are_reported_where_they_are(
    files: Seq<FileView>,
    loader: LoaderView,
    relative: Seq<char>,
    text: Seq<char>,
    before: Seq<Seq<char>>,
    line: Seq<char>,
    rest: Seq<Seq<char>>,
    target: Seq<char>,
    inner: Seq<char>,
    inner_before: Seq<Seq<char>>,
    inner_line: Seq<char>,
    inner_rest: Seq<Seq<char>>,
    back: Seq<char>,
)
    requires
        !loader.refuses(relative),
        read(loader.platform, files, loader.join(relative)) == Some(Ok::<Seq<char>, Seq<char>>(text)),
        lines(text) == before + seq![line] + rest,
        is_plain(before),
        spec_target(line) == Some(Ok::<Seq<char>, ()>(target)),
        !loader.refuses(target),
        !loader.platform.same_path(loader.join(relative), loader.join(target)),
        read(loader.platform, files, loader.join(target)) == Some(Ok::<Seq<char>, Seq<char>>(inner)),
        lines(inner) == inner_before + seq![inner_line] + inner_rest,
        is_plain(inner_before),
    ensures
        spec_target(inner_line) == Some(Err::<Seq<char>, ()>(())) ==> spec_compile(
            true,
            files,
            loader,
            relative,
        ) == Err::<Unit, StopView>(
            StopView::Error(
                ShaderErrorView::Malformed {
                    path: loader.join(target),
                    line: inner_before.len() as int + 1,
                    text: inner_line,
                },
            ),
        ),
        spec_target(inner_line) == Some(Ok::<Seq<char>, ()>(back)) && !loader.refuses(back) && (
        loader.platform.same_path(loader.join(relative), loader.join(back)) || loader.platform.same_path(
            loader.join(target),
            loader.join(back),
        )) ==> spec_compile(true, files, loader, relative) == Err::<Unit, StopView>(
            StopView::Error(
                ShaderErrorView::Cycle(
                    seq![loader.join(relative), loader.join(target), loader.join(back)],
                ),
            ),
        ),
{
    let (entry, path) = (loader.join(relative), loader.join(target));
    let all = lines(text);
    let n = before.len() as int;
    let unit = Unit { out: Seq::empty(), visited: Seq::empty(), sources: seq![entry] };
    let none = Seq::<Seq<char>>::empty();
    assert(none + before + (seq![line] + rest) =~= all);
    lemma_run_to(files, loader, seq![entry], none, before, seq![line] + rest, unit);
    assert(all[n] == line);
    let stack = seq![entry].push(path);
    assert(stack =~= seq![entry, path]);
    lemma_two_fit(loader.platform, files, entry, path);
    let opened = Unit {
        out: Seq::empty(),
        visited: unit.visited.push(path),
        sources: unit.sources.push(path),
    };
    assert(none + inner_before + (seq![inner_line] + inner_rest) =~= lines(inner));
    lemma_run_to(files, loader, stack, none, inner_before, seq![inner_line] + inner_rest, opened);
    assert(lines(inner)[inner_before.len() as int] == inner_line);
    assert(stack[0] == entry && stack[1] == path);
    assert(stack.push(loader.join(back)) =~= seq![entry, path, loader.join(back)]);
}

proof fn lemma_two_fit(platform: Platform, files: Seq<FileView>, entry: Seq<char>, path: Seq<char>)
    requires
        read(platform, files, entry) is Some,
        read(platform, files, path) is Some,
        !platform.same_path(entry, path),
    ensures
        files.len() >= 2,
{
    let stack = seq![entry, path];
    assert(stack[0] == entry && stack[1] == path);
    assert(well_stacked(platform, files, stack));
    lemma_stack_fits(platform, files, stack);
}

proof fn lemma_include(
    files: Seq<FileView>,
    loader: LoaderView,
    entry: Seq<char>,
    all: Seq<Seq<char>>,
    n: int,
    unit: Unit,
    target: Seq<char>,
    inner: Seq<char>,
)
    requires
        0 <= n < all.len(),
        spec_target(all[n]) == Some(Ok::<Seq<char>, ()>(target)),
        !loader.refuses(target),
        !loader.platform.same_path(entry, loader.join(target)),
        !listed(loader.platform, unit.visited, loader.join(target)),
        read(loader.platform, files, entry) is Some,
        read(loader.platform, files, loader.join(target)) == Some(Ok::<Seq<char>, Seq<char>>(inner)),
        is_plain(lines(inner)),
    ensures
        spec_expand(files, loader, seq![entry], all, n, unit) == spec_expand(
            files,
            loader,
            seq![entry],
            all,
            n + 1,
            Unit {
                out: unit.out + ("// >>> "@ + target + seq!['\n']) + joined(lines(inner), seq!['\n']) + (
                "// <<< "@ + target + seq!['\n']),
                visited: unit.visited.push(loader.join(target)),
                sources: unit.sources.push(loader.join(target)),
            },
        ),
{
    let path = loader.join(target);
    reveal_strlit("\n");
    assert("\n"@ =~= seq!['\n']);
    assert(seq![entry][0] == entry);
    lemma_two_fit(loader.platform, files, entry, path);
    let opened = Unit {
        out: Seq::empty(),
        visited: unit.visited.push(path),
        sources: unit.sources.push(path),
    };
    lemma_plain(files, loader, seq![entry].push(path), lines(inner), 0, opened);
    assert(lines(inner).skip(0) =~= lines(inner));
    let body = joined(lines(inner), seq!['\n']);
    assert(opened.out + body =~= body);
    let filled = Unit { out: unit.line("// >>> "@ + target).out + body, ..opened };
    assert(filled.line("// <<< "@ + target).out =~= unit.out + ("// >>> "@ + target + seq!['\n']) + body + (
    "// <<< "@ + target + seq!['\n']));
}

/// A directive is replaced by the file it asks for, line by line, between two markers that name the target;
/// what stands before it and behind it stays before it and behind it, and the files are listed in the order
/// in which they were opened. A second directive for the same file is replaced by a remark that names its
/// target.
pub proof fn law_a_directive_is_replaced_by_its_file(
    files: Seq<FileView>,
    loader: LoaderView,
    relative: Seq<char>,
    text: Seq<char>,
    before: Seq<Seq<char>>,
    line: Seq<char>,
    between: Seq<Seq<char>>,
    again: Seq<char>,
    rest: Seq<Seq<char>>,
    target: Seq<char>,
    second: Seq<char>,
    inner: Seq<char>,
)
    requires
        !loader.refuses(relative),
        read(loader.platform, files, loader.join(relative)) == Some(Ok::<Seq<char>, Seq<char>>(text)),
        is_plain(before),
        is_plain(between),
        is_plain(rest),
        spec_target(line) == Some(Ok::<Seq<char>, ()>(target)),
        !loader.refuses(target),
        !loader.platform.same_path(loader.join(relative), loader.join(target)),
        read(loader.platform, files, loader.join(target)) == Some(Ok::<Seq<char>, Seq<char>>(inner)),
        is_plain(lines(inner)),
    ensures
        lines(text) == before + seq![line] + rest ==> (spec_compile(true, files, loader, relative) matches Ok(
            unit,
        ) && {
            &&& unit.sources == seq![loader.join(relative), loader.join(target)]
            &&& unit.out == joined(before, seq!['\n']) + ("// >>> "@ + target + seq!['\n']) + joined(
                lines(inner),
                seq!['\n'],
            ) + ("// <<< "@ + target + seq!['\n']) + joined(rest, seq!['\n'])
        }),
        lines(text) == before + seq![line] + between + seq![again] + rest && spec_target(again) == Some(
            Ok::<Seq<char>, ()>(second),
        ) && !loader.refuses(second) && !loader.platform.same_path(loader.join(relative), loader.join(second))
            && loader.platform.same_path(loader.join(target), loader.join(second)) ==> (spec_compile(
            true,
            files,
            loader,
            relative,
        ) matches Ok(unit) && {
            &&& unit.sources == seq![loader.join(relative), loader.join(target)]
            &&& unit.out == joined(before, seq!['\n']) + ("// >>> "@ + target + seq!['\n']) + joined(
                lines(inner),
                seq!['\n'],
            ) + ("// <<< "@ + target + seq!['\n']) + joined(between, seq!['\n']) + (
            "// (already included) "@ + second + seq!['\n']) + joined(rest, seq!['\n'])
        }),
{
    let (entry, path) = (loader.join(relative), loader.join(target));
    let all = lines(text);
    let stack = seq![entry];
    let n = before.len() as int;
    let none = Seq::<Seq<char>>::empty();
    let unit = Unit { out: Seq::empty(), visited: Seq::empty(), sources: stack };
    reveal_strlit("\n");
    assert("\n"@ =~= seq!['\n']);
    assert(stack[0] == entry);
    let ahead = Unit { out: unit.out + joined(before, seq!['\n']), ..unit };
    let body = ahead.out + ("// >>> "@ + target + seq!['\n']) + joined(lines(inner), seq!['\n']) + ("// <<< "@
        + target + seq!['\n']);
    let included = Unit {
        out: body,
        visited: unit.visited.push(path),
        sources: unit.sources.push(path),
    };
    assert(unit.out + joined(before, seq!['\n']) =~= joined(before, seq!['\n']));
    assert(stack.push(path) =~= seq![entry, path]);
    if all == before + seq![line] + rest {
        assert(none + before + (seq![line] + rest) =~= all);
        lemma_run_to(files, loader, stack, none, before, seq![line] + rest, unit);
        assert(all[n] == line);
        lemma_include(files, loader, entry, all, n, ahead, target, inner);
        let done = before + seq![line];
        assert(done + rest + none =~= all);
        lemma_run_to(files, loader, stack, done, rest, none, included);
    }
    if all == before + seq![line] + between + seq![again] + rest && spec_target(again) == Some(
        Ok::<Seq<char>, ()>(second),
    ) && !loader.refuses(second) && !loader.platform.same_path(entry, loader.join(second))
        && loader.platform.same_path(path, loader.join(second)) {
        let tail = between + seq![again] + rest;
        assert(none + before + (seq![line] + tail) =~= all);
        lemma_run_to(files, loader, stack, none, before, seq![line] + tail, unit);
        assert(all[n] == line);
        lemma_include(files, loader, entry, all, n, ahead, target, inner);
        let done = before + seq![line];
        assert(done + between + (seq![again] + rest) =~= all);
        lemma_run_to(files, loader, stack, done, between, seq![again] + rest, included);
        let m = n + 1 + between.len();
        assert(all[m] == again);
        let reached = Unit { out: body + joined(between, seq!['\n']), ..included };
        assert(included.visited[0] == path);
        let remarked = reached.line("// (already included) "@ + second);
        assert(spec_expand(files, loader, stack, all, m, reached) == spec_expand(
            files,
            loader,
            stack,
            all,
            m + 1,
            remarked,
        ));
        let most = done + between + seq![again];
        assert(most + rest + none =~= all);
        lemma_run_to(files, loader, stack, most, rest, none, remarked);
        assert(remarked.out =~= body + joined(between, seq!['\n']) + ("// (already included) "@ + second
            + seq!['\n']));
    }
}

/// The default root is two levels up and down again.
pub proof fn law_the_default_root_is_two_levels_up(dir: Seq<char>)
    requires
        dir.len() > 0,
        dir.last() != '/',
    ensures
        shaders_above(Platform::Unix, dir) == dir + "/../../shaders"@,
{
    reveal_strlit("..");
    reveal_strlit("shaders");
    reveal_strlit("/../../shaders");
    let up = dir + seq!['/'] + ".."@;
    let upper = up + seq!['/'] + ".."@;
    crate::paths::law_paths_are_appended_to_the_root(dir, ".."@, 'A');
    assert(up.last() == '.');
    crate::paths::law_paths_are_appended_to_the_root(up, ".."@, 'A');
    assert(upper.last() == '.');
    crate::paths::law_paths_are_appended_to_the_root(upper, "shaders"@, 'A');
    assert(upper + seq!['/'] + "shaders"@ =~= dir + "/../../shaders"@);
}

} // verus!
