//! Semantic command AST: the data types every consumer reads.
//!
//! A parsed input is a sequence of pipeline elements; each element
//! carries its command, first subcommand, flags and typed positionals,
//! all with byte ranges into the input string.

use vstd::prelude::*;

verus! {

/// Type of a positional argument, as declared by the command spec.
#[derive(Debug, Clone, PartialEq, Eq, Hash)]
pub enum ArgKind {
    /// Filesystem path.
    Path {
        /// Report an error when the path does not exist.
        must_exist: bool,
        /// Expected shape: file, directory, or either.
        kind: PathKind,
    },
    /// A git ref — branch / tag / remote / commit hash.
    GitRef { scope: GitScope },
    /// An RFC-3986 URL.
    Url,
    /// Environment variable name.
    EnvVar,
    /// Unix process id.
    ProcessId,
    /// One of a known set of literals.
    Enum(Vec<&'static str>),
    /// Free-form literal.
    Literal,
    /// Unclassified token.
    Unknown,
}

/// Expected filesystem shape for a `Path` arg.
#[derive(Debug, Clone, Copy, PartialEq, Eq, Hash, Structural)]
pub enum PathKind {
    File,
    Directory,
    Any,
}

/// Scope of a git-ref positional.
#[derive(Debug, Clone, Copy, PartialEq, Eq, Hash, Structural)]
pub enum GitScope {
    Branch,
    Tag,
    Remote,
    Commit,
    Any,
}

/// The top-level command — `git` in `git checkout main`.
#[derive(Debug, Clone, PartialEq, Eq, Hash)]
pub struct CommandNode {
    pub name: String,
    pub range: Range,
}

/// Subcommand — `checkout` in `git checkout main`.
#[derive(Debug, Clone, PartialEq, Eq, Hash)]
pub struct SubcommandNode {
    pub name: String,
    pub depth: u8,
    pub range: Range,
}

/// A flag — short (`-v`) or long (`--verbose`), optionally with a value.
#[derive(Debug, Clone, PartialEq, Eq, Hash)]
pub struct FlagNode {
    pub name: String,
    pub value: Option<String>,
    /// `true` for `--long`, `false` for `-s`.
    pub is_long: bool,
    pub range: Range,
}

/// A positional argument plus its classification.
#[derive(Debug, Clone, PartialEq, Eq, Hash)]
pub struct PositionalNode {
    pub value: String,
    pub kind: ArgKind,
    pub range: Range,
}

/// A semantic error attached to a byte range of the input.
#[derive(Debug, Clone, PartialEq, Eq, Hash)]
pub struct AstError {
    pub range: Range,
    pub message: String,
    pub severity: ErrorSeverity,
}

#[derive(Debug, Clone, Copy, PartialEq, Eq, Hash, Structural)]
pub enum ErrorSeverity {
    /// Blocks run-on-submit.
    Error,
    /// Run-on-submit still allowed.
    Warning,
    /// Informational.
    Hint,
}

/// A byte range inside the input string. Half-open `[start, end)`.
#[derive(Debug, Clone, Copy, PartialEq, Eq, Hash, Structural)]
pub struct Range {
    pub start: usize,
    pub end: usize,
}

impl Range {
    /// Whether `offset` lies in `[start, end)`.
    pub open spec fn spec_contains(self, offset: int) -> bool {
        self.start <= offset && offset < self.end
    }

    pub fn new(start: usize, end: usize) -> (r: Self)
        ensures
            r.start == start,
            r.end == end,
    {
        Self { start, end }
    }

    /// `end - start`, saturating at zero.
    pub fn len(&self) -> (r: usize)
        ensures
            r == (if self.end >= self.start { self.end - self.start } else { 0 }),
    {
        if self.end >= self.start {
            self.end - self.start
        } else {
            0
        }
    }

    pub fn is_empty(&self) -> (r: bool)
        ensures
            r == (self.start >= self.end),
    {
        self.start >= self.end
    }

    pub fn contains(&self, offset: usize) -> (r: bool)
        ensures
            r == self.spec_contains(offset as int),
    {
        offset >= self.start && offset < self.end
    }
}

/// Kind of separator token between two pipeline elements.
#[derive(Debug, Clone, Copy, PartialEq, Eq, Hash, Structural)]
pub enum SeparatorKind {
    /// `|`
    Pipe,
    /// `&&`
    And,
    /// `||`
    Or,
    /// `;` or newline
    Sequence,
}

/// A separator token preceding a pipeline element.
#[derive(Debug, Clone, Copy, PartialEq, Eq, Hash, Structural)]
pub struct Separator {
    pub kind: SeparatorKind,
    pub range: Range,
}

/// One element of a pipeline — a single command between separators.
#[derive(Debug, Clone, Default, PartialEq, Eq, Hash)]
pub struct PipelineElement {
    /// Separator token preceding this element; `None` for the first.
    pub separator: Option<Separator>,
    pub command: Option<CommandNode>,
    pub subcommand: Option<SubcommandNode>,
    pub flags: Vec<FlagNode>,
    pub positionals: Vec<PositionalNode>,
}

/// Index of the first positional of `ps` covering `offset`, if any.
pub open spec fn first_covering(ps: Seq<PositionalNode>, offset: int) -> Option<int> {
    if exists|i: int| 0 <= i < ps.len() && ps[i].range.spec_contains(offset) {
        Some(
            choose|i: int|
                0 <= i < ps.len() && ps[i].range.spec_contains(offset) && forall|j: int|
                    0 <= j < i ==> !ps[j].range.spec_contains(offset),
        )
    } else {
        None
    }
}

/// Every byte range an element carries, in field order: separator,
/// command, subcommand, flags, positionals.
pub open spec fn element_spans(e: PipelineElement) -> Seq<Range> {
    let sep = match e.separator {
        Some(s) => seq![s.range],
        None => Seq::empty(),
    };
    let cmd = match e.command {
        Some(c) => seq![c.range],
        None => Seq::empty(),
    };
    let sub = match e.subcommand {
        Some(s) => seq![s.range],
        None => Seq::empty(),
    };
    sep + cmd + sub + e.flags@.map_values(|f: FlagNode| f.range) + e.positionals@.map_values(
        |p: PositionalNode| p.range,
    )
}

/// Smallest start among `spans` (`usize::MAX` when empty).
pub open spec fn min_start(spans: Seq<Range>) -> int
    decreases spans.len(),
{
    if spans.len() == 0 {
        usize::MAX as int
    } else {
        let rest = min_start(spans.drop_last());
        if (spans.last().start as int) < rest {
            spans.last().start as int
        } else {
            rest
        }
    }
}

/// Largest end among `spans` (`0` when empty).
pub open spec fn max_end(spans: Seq<Range>) -> int
    decreases spans.len(),
{
    if spans.len() == 0 {
        0
    } else {
        let rest = max_end(spans.drop_last());
        if (spans.last().end as int) > rest {
            spans.last().end as int
        } else {
            rest
        }
    }
}

/// Whether `offset` falls in the overall span of the element: from the
/// smallest start of its nodes up to (excluding) their largest end.
pub open spec fn spec_element_span_contains(e: PipelineElement, offset: int) -> bool {
    let spans = element_spans(e);
    spans.len() > 0 && min_start(spans) <= offset && offset < max_end(spans)
}

/// Whether the element carries nothing at all.
pub open spec fn element_is_blank(e: PipelineElement) -> bool {
    &&& e.separator.is_none()
    &&& e.command.is_none()
    &&& e.subcommand.is_none()
    &&& e.flags@.len() == 0
    &&& e.positionals@.len() == 0
}

impl PipelineElement {
    /// Depth of the command chain: `0` without a subcommand, otherwise
    /// the subcommand's depth plus one.
    pub open spec fn spec_depth(self) -> int {
        match self.subcommand {
            Some(s) => s.depth + 1,
            None => 0,
        }
    }

    /// Empty element — no command yet.
    pub fn empty() -> (r: Self)
        ensures
            element_is_blank(r),
    {
        PipelineElement {
            separator: None,
            command: None,
            subcommand: None,
            flags: Vec::new(),
            positionals: Vec::new(),
        }
    }

    pub fn has_command(&self) -> (r: bool)
        ensures
            r == self.command.is_some(),
    {
        self.command.is_some()
    }

    /// The first positional whose range covers `byte_offset`.
    pub fn positional_at(&self, byte_offset: usize) -> (r: Option<&PositionalNode>)
        ensures
            match first_covering(self.positionals@, byte_offset as int) {
                Some(i) => r == Some(&self.positionals@[i]),
                None => r.is_none(),
            },
    {
        let mut i: usize = 0;
        while i < self.positionals.len()
            invariant
                i <= self.positionals.len(),
                forall|j: int|
                    0 <= j < i ==> !self.positionals@[j].range.spec_contains(byte_offset as int),
            decreases self.positionals.len() - i,
        {
            if self.positionals[i].range.contains(byte_offset) {
                let ghost ps = self.positionals@;
                proof {
                    let k = choose|k: int|
                        0 <= k < ps.len() && ps[k].range.spec_contains(byte_offset as int)
                            && forall|j: int|
                            0 <= j < k ==> !ps[j].range.spec_contains(byte_offset as int);
                    assert(ps[i as int].range.spec_contains(byte_offset as int));
                    if k < i {
                    } else if k > i {
                    }
                    assert(k == i);
                }
                return Some(&self.positionals[i]);
            }
            i += 1;
        }
        None
    }

    /// Depth of the command chain in this element.
    pub fn depth(&self) -> (r: u8)
        ensures
            r as int == (if self.spec_depth() <= u8::MAX { self.spec_depth() } else { 0 }),
    {
        match &self.subcommand {
            Some(s) => {
                if s.depth < u8::MAX {
                    s.depth + 1
                } else {
                    0
                }
            },
            None => 0,
        }
    }
}

/// The full parsed command as understood by the cmdline.
#[derive(Debug, Clone, Default, PartialEq, Eq, Hash)]
pub struct CommandAst {
    /// Pipeline stages in source order.
    pub elements: Vec<PipelineElement>,
    /// Errors spanning the input or crossing stages.
    pub errors: Vec<AstError>,
}

/// Whether any element has a command.
pub open spec fn spec_has_command(elements: Seq<PipelineElement>) -> bool {
    exists|i: int| 0 <= i < elements.len() && elements[i].command.is_some()
}

/// Whether any error has severity `Error`.
pub open spec fn spec_has_blocking_error(errors: Seq<AstError>) -> bool {
    exists|i: int| 0 <= i < errors.len() && errors[i].severity == ErrorSeverity::Error
}

/// Whether a positional of element `ei` at index `pi` covers `offset`.
pub open spec fn covers_at(elements: Seq<PipelineElement>, ei: int, pi: int, offset: int) -> bool {
    0 <= ei < elements.len() && 0 <= pi < elements[ei].positionals@.len()
        && elements[ei].positionals@[pi].range.spec_contains(offset)
}

impl CommandAst {
    /// Whether the AST describes at least one parseable command.
    pub open spec fn spec_is_complete(self) -> bool {
        &&& spec_has_command(self.elements@)
        &&& !spec_has_blocking_error(self.errors@)
        &&& self.elements@.last().command.is_some()
    }

    /// Empty AST — no command parsed yet.
    pub fn empty() -> (r: Self)
        ensures
            r.elements@.len() == 0,
            r.errors@.len() == 0,
    {
        CommandAst { elements: Vec::new(), errors: Vec::new() }
    }

    /// AST from a single element; an element carrying nothing yields
    /// an empty AST.
    pub fn from_element(element: PipelineElement) -> (r: Self)
        ensures
            r.errors@.len() == 0,
            element_is_blank(element) ==> r.elements@.len() == 0,
            !element_is_blank(element) ==> r.elements@ == seq![element],
    {
        let blank = element.separator.is_none() && element.command.is_none()
            && element.subcommand.is_none() && element.flags.len() == 0
            && element.positionals.len() == 0;
        if blank {
            CommandAst { elements: Vec::new(), errors: Vec::new() }
        } else {
            let mut elements = Vec::new();
            elements.push(element);
            CommandAst { elements, errors: Vec::new() }
        }
    }

    /// First element of the pipeline.
    pub fn first(&self) -> (r: Option<&PipelineElement>)
        ensures
            self.elements@.len() == 0 ==> r.is_none(),
            self.elements@.len() > 0 ==> r == Some(&self.elements@[0]),
    {
        if self.elements.len() == 0 {
            None
        } else {
            Some(&self.elements[0])
        }
    }

    /// Whether any element has a command.
    pub fn has_command(&self) -> (r: bool)
        ensures
            r == spec_has_command(self.elements@),
    {
        let mut i: usize = 0;
        while i < self.elements.len()
            invariant
                i <= self.elements.len(),
                forall|j: int| 0 <= j < i ==> self.elements@[j].command.is_none(),
            decreases self.elements.len() - i,
        {
            if self.elements[i].command.is_some() {
                return true;
            }
            i += 1;
        }
        false
    }

    /// Whether any error has severity `Error` (run should be blocked).
    pub fn has_blocking_error(&self) -> (r: bool)
        ensures
            r == spec_has_blocking_error(self.errors@),
    {
        let mut i: usize = 0;
        while i < self.errors.len()
            invariant
                i <= self.errors.len(),
                forall|j: int| 0 <= j < i ==> self.errors@[j].severity != ErrorSeverity::Error,
            decreases self.errors.len() - i,
        {
            if self.errors[i].severity == ErrorSeverity::Error {
                return true;
            }
            i += 1;
        }
        false
    }

    /// The positional covering `byte_offset`, searching the elements in
    /// order and, within each, the positionals in order.
    pub fn positional_at(&self, byte_offset: usize) -> (r: Option<&PositionalNode>)
        ensures
            match r {
                Some(p) => exists|ei: int, pi: int|
                    covers_at(self.elements@, ei, pi, byte_offset as int) && p
                        == &self.elements@[ei].positionals@[pi] && forall|ej: int, pj: int|
                        (ej < ei || (ej == ei && pj < pi)) ==> !covers_at(
                            self.elements@,
                            ej,
                            pj,
                            byte_offset as int,
                        ),
                None => forall|ei: int, pi: int|
                    !covers_at(self.elements@, ei, pi, byte_offset as int),
            },
    {
        let mut e: usize = 0;
        while e < self.elements.len()
            invariant
                e <= self.elements.len(),
                forall|ej: int, pj: int|
                    ej < e ==> !covers_at(self.elements@, ej, pj, byte_offset as int),
            decreases self.elements.len() - e,
        {
            let el = &self.elements[e];
            let mut p: usize = 0;
            while p < el.positionals.len()
                invariant
                    e < self.elements.len(),
                    el == &self.elements@[e as int],
                    p <= el.positionals.len(),
                    forall|ej: int, pj: int|
                        ej < e ==> !covers_at(self.elements@, ej, pj, byte_offset as int),
                    forall|pj: int|
                        pj < p ==> !covers_at(self.elements@, e as int, pj, byte_offset as int),
                decreases el.positionals.len() - p,
            {
                if el.positionals[p].range.contains(byte_offset) {
                    assert(covers_at(self.elements@, e as int, p as int, byte_offset as int));
                    return Some(&el.positionals[p]);
                }
                p += 1;
            }
            e += 1;
        }
        None
    }

    /// The first element whose overall span contains `byte_offset`.
    pub fn element_at(&self, byte_offset: usize) -> (r: Option<&PipelineElement>)
        ensures
            match r {
                Some(el) => exists|i: int|
                    0 <= i < self.elements@.len() && el == &self.elements@[i]
                        && spec_element_span_contains(self.elements@[i], byte_offset as int)
                        && forall|j: int|
                        0 <= j < i ==> !spec_element_span_contains(
                            self.elements@[j],
                            byte_offset as int,
                        ),
                None => forall|i: int|
                    0 <= i < self.elements@.len() ==> !spec_element_span_contains(
                        self.elements@[i],
                        byte_offset as int,
                    ),
            },
    {
        let mut i: usize = 0;
        while i < self.elements.len()
            invariant
                i <= self.elements.len(),
                forall|j: int|
                    0 <= j < i ==> !spec_element_span_contains(
                        self.elements@[j],
                        byte_offset as int,
                    ),
            decreases self.elements.len() - i,
        {
            if element_span_contains(&self.elements[i], byte_offset) {
                return Some(&self.elements[i]);
            }
            i += 1;
        }
        None
    }

    /// Depth of the leading element's command chain.
    pub fn depth(&self) -> (r: u8)
        ensures
            self.elements@.len() == 0 ==> r == 0,
            self.elements@.len() > 0 ==> r as int == (if self.elements@[0].spec_depth()
                <= u8::MAX {
                self.elements@[0].spec_depth()
            } else {
                0
            }),
    {
        match self.first() {
            Some(e) => e.depth(),
            None => 0,
        }
    }

    /// `true` if the input has more than one pipeline element.
    pub fn has_pipeline(&self) -> (r: bool)
        ensures
            r == (self.elements@.len() > 1),
    {
        self.elements.len() > 1
    }

    /// Total element count.
    pub fn stage_count(&self) -> (r: usize)
        ensures
            r == self.elements@.len(),
    {
        self.elements.len()
    }

    /// Whether the AST is complete enough to submit: at least one
    /// command, no blocking error, and the last element has a command
    /// (no dangling pipe).
    pub fn is_complete(&self) -> (r: bool)
        ensures
            r == self.spec_is_complete(),
    {
        if !self.has_command() {
            return false;
        }
        if self.has_blocking_error() {
            return false;
        }
        let n = self.elements.len();
        self.elements[n - 1].command.is_some()
    }
}

/// Spans of an element, collected into a vector in field order.
fn collect_spans(element: &PipelineElement) -> (r: Vec<Range>)
    ensures
        r@ == element_spans(*element),
{
    let mut v: Vec<Range> = Vec::new();
    if let Some(s) = &element.separator {
        v.push(s.range);
    }
    if let Some(c) = &element.command {
        v.push(c.range);
    }
    if let Some(s) = &element.subcommand {
        v.push(s.range);
    }
    let ghost head = v@;
    let mut i: usize = 0;
    while i < element.flags.len()
        invariant
            i <= element.flags.len(),
            v@ == head + element.flags@.take(i as int).map_values(|f: FlagNode| f.range),
        decreases element.flags.len() - i,
    {
        v.push(element.flags[i].range);
        i += 1;
        assert(element.flags@.take(i as int) =~= element.flags@.take(i - 1).push(
            element.flags@[i - 1],
        ));
    }
    assert(element.flags@.take(element.flags.len() as int) =~= element.flags@);
    let ghost mid = v@;
    let mut j: usize = 0;
    while j < element.positionals.len()
        invariant
            j <= element.positionals.len(),
            v@ == mid + element.positionals@.take(j as int).map_values(
                |p: PositionalNode| p.range,
            ),
        decreases element.positionals.len() - j,
    {
        v.push(element.positionals[j].range);
        j += 1;
        assert(element.positionals@.take(j as int) =~= element.positionals@.take(j - 1).push(
            element.positionals@[j - 1],
        ));
    }
    assert(element.positionals@.take(element.positionals.len() as int)
        =~= element.positionals@);
    proof {
        let sep = match &element.separator {
            Some(s) => seq![s.range],
            None => Seq::<Range>::empty(),
        };
        let cmd = match &element.command {
            Some(c) => seq![c.range],
            None => Seq::<Range>::empty(),
        };
        let sub = match &element.subcommand {
            Some(s) => seq![s.range],
            None => Seq::<Range>::empty(),
        };
        assert(head =~= sep + cmd + sub);
    }
    v
}

/// Whether `offset` falls inside the element's overall span.
fn element_span_contains(element: &PipelineElement, offset: usize) -> (r: bool)
    ensures
        r == spec_element_span_contains(*element, offset as int),
{
    let spans = collect_spans(element);
    let mut start: usize = usize::MAX;
    let mut end: usize = 0;
    let mut i: usize = 0;
    while i < spans.len()
        invariant
            i <= spans.len(),
            start as int == min_start(spans@.take(i as int)),
            end as int == max_end(spans@.take(i as int)),
        decreases spans.len() - i,
    {
        let ghost pre = spans@.take(i as int);
        assert(spans@.take(i + 1).drop_last() =~= pre);
        if spans[i].start < start {
            start = spans[i].start;
        }
        if spans[i].end > end {
            end = spans[i].end;
        }
        i += 1;
    }
    assert(spans@.take(spans.len() as int) =~= spans@);
    spans.len() > 0 && offset >= start && offset < end
}

} // verus!
