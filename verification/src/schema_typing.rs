//! Schema-driven positional typing.
//!
//! [`crate::parse::parse_simple`] leaves every positional
//! [`ArgKind::Unknown`]. A command's completion spec ([`CliSpec`])
//! says what its arguments are; this module upgrades each positional
//! of a matching command to the kind its argument slot declares.
//!
//! The slot of the `i`-th positional is the `i`-th argument of the
//! deepest spec: the subcommand's spec when the element has a
//! subcommand the spec knows, else the command's. Positionals past
//! the last argument reuse it (variadic tail); a spec without
//! arguments types nothing, nor does an argument without a template.

use vstd::prelude::*;
use crate::ast::{ArgKind, CommandAst, GitScope, PathKind, PipelineElement, PositionalNode};
use crate::text::str_eq;

verus! {

/// Where an argument's completions come from.
#[derive(Debug, Clone, PartialEq, Eq)]
pub enum ArgTemplate {
    Filepaths,
    Folders,
    GitBranches,
    GitTags,
    GitRemotes,
    GitFiles,
    EnvVars,
    ProcessIds,
    /// A fixed list of values.
    Custom(Vec<String>),
    History,
}

/// One positional argument of a command.
#[derive(Debug, Clone, PartialEq, Eq)]
pub struct CliArg {
    pub name: String,
    pub description: Option<String>,
    pub template: Option<ArgTemplate>,
    pub is_optional: bool,
    pub is_variadic: bool,
}

/// One option (flag) of a command.
#[derive(Debug, Clone, PartialEq, Eq)]
pub struct CliOption {
    pub names: Vec<String>,
    pub description: Option<String>,
}

/// A command's completion spec.
#[derive(Debug)]
pub struct CliSpec {
    pub name: String,
    pub aliases: Vec<String>,
    pub description: Option<String>,
    pub subcommands: Vec<CliSpec>,
    pub options: Vec<CliOption>,
    pub args: Vec<CliArg>,
}

/// Whether `s` answers to `name`, by its name or one of its aliases.
pub open spec fn answers_to(s: CliSpec, name: Seq<char>) -> bool {
    s.name@ == name || exists|k: int| 0 <= k < s.aliases@.len() && (#[trigger] s.aliases@[k])@ == name
}

/// Index of the first subcommand of `spec` answering to `name`.
pub open spec fn subcommand_index(spec: CliSpec, name: Seq<char>) -> Option<int> {
    if exists|k: int| 0 <= k < spec.subcommands@.len() && answers_to(#[trigger] spec.subcommands@[k], name) {
        Some(
            choose|k: int|
                0 <= k < spec.subcommands@.len() && answers_to(spec.subcommands@[k], name) && forall|j: int|
                    0 <= j < k ==> !answers_to(#[trigger] spec.subcommands@[j], name),
        )
    } else {
        None
    }
}

fn answers_to_exec(s: &CliSpec, name: &str) -> (r: bool)
    ensures
        r == answers_to(*s, name@),
{
    if str_eq(s.name.as_str(), name) {
        return true;
    }
    let mut k: usize = 0;
    while k < s.aliases.len()
        invariant
            k <= s.aliases@.len(),
            s.name@ != name@,
            forall|j: int| 0 <= j < k ==> (#[trigger] s.aliases@[j])@ != name@,
        decreases s.aliases@.len() - k,
    {
        if str_eq(s.aliases[k].as_str(), name) {
            return true;
        }
        k += 1;
    }
    false
}

impl CliSpec {
    /// The first direct subcommand answering to `name`.
    pub fn find_subcommand(&self, name: &str) -> (r: Option<&CliSpec>)
        ensures
            match subcommand_index(*self, name@) {
                Some(k) => r == Some(&self.subcommands@[k]),
                None => r is None,
            },
    {
        let mut k: usize = 0;
        while k < self.subcommands.len()
            invariant
                k <= self.subcommands@.len(),
                forall|j: int| 0 <= j < k ==> !answers_to(#[trigger] self.subcommands@[j], name@),
            decreases self.subcommands@.len() - k,
        {
            if answers_to_exec(&self.subcommands[k], name) {
                proof {
                    let c = choose|c: int|
                        0 <= c < self.subcommands@.len() && answers_to(self.subcommands@[c], name@) && forall|j: int|
                            0 <= j < c ==> !answers_to(#[trigger] self.subcommands@[j], name@);
                    assert(answers_to(self.subcommands@[k as int], name@));
                    if c < k {
                        assert(!answers_to(self.subcommands@[c], name@));
                    }
                    if k < c {
                        assert(!answers_to(self.subcommands@[k as int], name@));
                    }
                }
                return Some(&self.subcommands[k]);
            }
            k += 1;
        }
        None
    }
}

/// The kind a template gives its argument. Custom value lists give
/// [`ArgKind::Literal`]: their values are loaded at run time, while
/// [`ArgKind::Enum`] holds fixed ones.
pub open spec fn spec_template_kind(t: ArgTemplate) -> ArgKind {
    match t {
        ArgTemplate::Filepaths => ArgKind::Path { must_exist: false, kind: PathKind::Any },
        ArgTemplate::Folders => ArgKind::Path { must_exist: false, kind: PathKind::Directory },
        ArgTemplate::GitBranches => ArgKind::GitRef { scope: GitScope::Branch },
        ArgTemplate::GitTags => ArgKind::GitRef { scope: GitScope::Tag },
        ArgTemplate::GitRemotes => ArgKind::GitRef { scope: GitScope::Remote },
        ArgTemplate::GitFiles => ArgKind::Path { must_exist: true, kind: PathKind::File },
        ArgTemplate::EnvVars => ArgKind::EnvVar,
        ArgTemplate::ProcessIds => ArgKind::ProcessId,
        ArgTemplate::Custom(_) => ArgKind::Literal,
        ArgTemplate::History => ArgKind::Literal,
    }
}

/// Map an [`ArgTemplate`] onto the typed [`ArgKind`].
pub fn arg_template_to_kind(template: &ArgTemplate) -> (k: ArgKind)
    ensures
        k == spec_template_kind(*template),
{
    match template {
        ArgTemplate::Filepaths => ArgKind::Path { must_exist: false, kind: PathKind::Any },
        ArgTemplate::Folders => ArgKind::Path { must_exist: false, kind: PathKind::Directory },
        ArgTemplate::GitBranches => ArgKind::GitRef { scope: GitScope::Branch },
        ArgTemplate::GitTags => ArgKind::GitRef { scope: GitScope::Tag },
        ArgTemplate::GitRemotes => ArgKind::GitRef { scope: GitScope::Remote },
        ArgTemplate::GitFiles => ArgKind::Path { must_exist: true, kind: PathKind::File },
        ArgTemplate::EnvVars => ArgKind::EnvVar,
        ArgTemplate::ProcessIds => ArgKind::ProcessId,
        ArgTemplate::Custom(_) => ArgKind::Literal,
        ArgTemplate::History => ArgKind::Literal,
    }
}

/// The spec that types the element's positionals: its subcommand's,
/// when `spec` knows that subcommand, else `spec` itself.
pub open spec fn deepest_spec(e: PipelineElement, spec: CliSpec) -> CliSpec {
    match e.subcommand {
        Some(sub) => match subcommand_index(spec, sub.name@) {
            Some(k) => spec.subcommands@[k],
            None => spec,
        },
        None => spec,
    }
}

/// The template of the slot of positional `i` under `spec`, if any.
pub open spec fn slot_template(spec: CliSpec, i: int) -> Option<ArgTemplate> {
    let args = spec.args@;
    if args.len() == 0 {
        None
    } else if i >= args.len() {
        args.last().template
    } else {
        args[i].template
    }
}

/// `new` is `old` with its positionals typed by `spec`.
pub open spec fn typed_element(old: PipelineElement, new: PipelineElement, spec: CliSpec) -> bool {
    let deep = deepest_spec(old, spec);
    &&& new.separator == old.separator
    &&& new.command == old.command
    &&& new.subcommand == old.subcommand
    &&& new.flags == old.flags
    &&& new.positionals@.len() == old.positionals@.len()
    &&& forall|i: int|
        0 <= i < old.positionals@.len() ==> {
            let (o, n) = (old.positionals@[i], #[trigger] new.positionals@[i]);
            &&& n.value == o.value
            &&& n.range == o.range
            &&& n.kind == match slot_template(deep, i) {
                Some(t) => spec_template_kind(t),
                None => o.kind,
            }
        }
}

fn type_element_positionals(element: &mut PipelineElement, spec: &CliSpec)
    ensures
        typed_element(*old(element), *final(element), *spec),
{
    let deepest: &CliSpec = match &element.subcommand {
        Some(sub) => match spec.find_subcommand(sub.name.as_str()) {
            Some(s) => s,
            None => spec,
        },
        None => spec,
    };
    let ghost old_ps = element.positionals@;
    let mut rest: Vec<PositionalNode> = Vec::new();
    std::mem::swap(&mut rest, &mut element.positionals);
    let mut out: Vec<PositionalNode> = Vec::new();
    let n = rest.len();
    let mut i: usize = 0;
    while i < n
        invariant
            n == old_ps.len(),
            i <= n,
            rest@ == old_ps.skip(i as int),
            out@.len() == i,
            forall|j: int|
                0 <= j < i ==> {
                    let (o, p) = (old_ps[j], #[trigger] out@[j]);
                    &&& p.value == o.value
                    &&& p.range == o.range
                    &&& p.kind == match slot_template(*deepest, j) {
                        Some(t) => spec_template_kind(t),
                        None => o.kind,
                    }
                },
        decreases n - i,
    {
        let mut p = rest.remove(0);
        proof {
            assert(old_ps.skip(i as int)[0] == old_ps[i as int]);
        }
        let nargs = deepest.args.len();
        let slot: Option<&CliArg> = if nargs == 0 {
            None
        } else if i >= nargs {
            Some(&deepest.args[nargs - 1])
        } else {
            Some(&deepest.args[i])
        };
        match slot {
            Some(arg) => match &arg.template {
                Some(t) => {
                    p.kind = arg_template_to_kind(t);
                },
                None => {},
            },
            None => {},
        }
        out.push(p);
        proof {
            assert(rest@ =~= old_ps.skip(i + 1));
        }
        i += 1;
    }
    element.positionals = out;
}

/// `new` is `old` with every element whose command is named after
/// `spec` typed by it; other elements unchanged.
pub open spec fn typed_by(old: Seq<PipelineElement>, new: Seq<PipelineElement>, spec: CliSpec) -> bool {
    &&& new.len() == old.len()
    &&& forall|i: int|
        0 <= i < old.len() ==> if (old[i].command matches Some(c) && c.name@ == spec.name@) {
            typed_element(old[i], #[trigger] new[i], spec)
        } else {
            new[i] == old[i]
        }
}

/// Type the positionals of every pipeline element whose command is
/// named after `spec`.
pub fn type_positionals(ast: &mut CommandAst, spec: &CliSpec)
    ensures
        typed_by(old(ast).elements@, final(ast).elements@, *spec),
        final(ast).errors == old(ast).errors,
{
    let ghost olds = ast.elements@;
    let mut rest: Vec<PipelineElement> = Vec::new();
    std::mem::swap(&mut rest, &mut ast.elements);
    let mut out: Vec<PipelineElement> = Vec::new();
    let n = rest.len();
    let mut i: usize = 0;
    while i < n
        invariant
            n == olds.len(),
            i <= n,
            rest@ == olds.skip(i as int),
            typed_by(olds.take(i as int), out@, *spec),
        decreases n - i,
    {
        let mut e = rest.remove(0);
        proof {
            assert(olds.skip(i as int)[0] == olds[i as int]);
        }
        let ghost before = e;
        let matches_command = match &e.command {
            Some(c) => str_eq(c.name.as_str(), spec.name.as_str()),
            None => false,
        };
        if matches_command {
            type_element_positionals(&mut e, spec);
        }
        let ghost prev = out@;
        out.push(e);
        proof {
            assert(rest@ =~= olds.skip(i + 1));
            assert(olds.take(i + 1) =~= olds.take(i as int).push(before));
            assert(out@ == prev.push(e));
        }
        i += 1;
    }
    assert(olds.take(n as int) =~= olds);
    ast.elements = out;
}

/// Index of the first entry of `specs` keyed `name`.
pub open spec fn spec_index(specs: Seq<(String, CliSpec)>, name: Seq<char>) -> Option<int> {
    if exists|k: int| 0 <= k < specs.len() && (#[trigger] specs[k]).0@ == name {
        Some(choose|k: int| 0 <= k < specs.len() && specs[k].0@ == name && forall|j: int| 0 <= j < k ==> (#[trigger] specs[j]).0@ != name)
    } else {
        None
    }
}

fn lookup_spec<'a>(specs: &'a Vec<(String, CliSpec)>, name: &str) -> (r: Option<&'a CliSpec>)
    ensures
        match spec_index(specs@, name@) {
            Some(k) => r == Some(&specs@[k].1),
            None => r is None,
        },
{
    let mut k: usize = 0;
    while k < specs.len()
        invariant
            k <= specs@.len(),
            forall|j: int| 0 <= j < k ==> (#[trigger] specs@[j]).0@ != name@,
        decreases specs@.len() - k,
    {
        if str_eq(specs[k].0.as_str(), name) {
            proof {
                let c = choose|c: int| 0 <= c < specs@.len() && specs@[c].0@ == name@ && forall|j: int| 0 <= j < c ==> (#[trigger] specs@[j]).0@ != name@;
                assert(specs@[k as int].0@ == name@);
                if c < k {
                    assert(specs@[c].0@ != name@);
                }
                if k < c {
                    assert(specs@[k as int].0@ != name@);
                }
            }
            return Some(&specs[k].1);
        }
        k += 1;
    }
    None
}

/// `new` is `old` with each element typed by the spec keyed by its
/// command's name; elements without a command or a spec unchanged.
pub open spec fn typed_by_specs(old: Seq<PipelineElement>, new: Seq<PipelineElement>, specs: Seq<(String, CliSpec)>) -> bool {
    &&& new.len() == old.len()
    &&& forall|i: int|
        0 <= i < old.len() ==> match old[i].command {
            Some(c) => match spec_index(specs, c.name@) {
                Some(k) => typed_element(old[i], #[trigger] new[i], specs[k].1),
                None => new[i] == old[i],
            },
            None => new[i] == old[i],
        }
}

/// Look up each pipeline element's command name among the keyed
/// `specs` (the first entry under a name counts) and type its
/// positionals with that spec.
pub fn apply_specs(ast: &mut CommandAst, specs: &Vec<(String, CliSpec)>)
    ensures
        typed_by_specs(old(ast).elements@, final(ast).elements@, specs@),
        final(ast).errors == old(ast).errors,
{
    let ghost olds = ast.elements@;
    let mut rest: Vec<PipelineElement> = Vec::new();
    std::mem::swap(&mut rest, &mut ast.elements);
    let mut out: Vec<PipelineElement> = Vec::new();
    let n = rest.len();
    let mut i: usize = 0;
    while i < n
        invariant
            n == olds.len(),
            i <= n,
            rest@ == olds.skip(i as int),
            typed_by_specs(olds.take(i as int), out@, specs@),
        decreases n - i,
    {
        let mut e = rest.remove(0);
        proof {
            assert(olds.skip(i as int)[0] == olds[i as int]);
        }
        let ghost before = e;
        let spec = match &e.command {
            Some(c) => lookup_spec(specs, c.name.as_str()),
            None => None,
        };
        match spec {
            Some(s) => type_element_positionals(&mut e, s),
            None => {},
        }
        let ghost prev = out@;
        out.push(e);
        proof {
            assert(rest@ =~= olds.skip(i + 1));
            assert(olds.take(i + 1) =~= olds.take(i as int).push(before));
            assert(out@ == prev.push(e));
        }
        i += 1;
    }
    assert(olds.take(n as int) =~= olds);
    ast.elements = out;
}

} // verus!
