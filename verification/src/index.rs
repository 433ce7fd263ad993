//! What the language server has indexed, as far as init specifiers need it.
//!
//! The server's syntax tree and analysis belong to the compiler. These types hold, as
//! plain values, what the handling of init specifiers reads of them.

use crate::names::unescape;
use crate::phases::{phase_info, PhaseInfo};
use crate::{names, path, phases, text};
use std::collections::HashMap;
use vstd::prelude::*;

verus! {

broadcast use vstd::std_specs::hash::group_hash_axioms;

/// A zero-based position in a document.
#[derive(Debug, Clone, Copy, PartialEq, Eq, Structural)]
pub struct Position {
    pub line: u32,
    pub character: u32,
}

/// A range of positions in a document.
#[derive(Debug, Clone, Copy, PartialEq, Eq, Structural)]
pub struct Range {
    pub start: Position,
    pub end: Position,
}

/// The expression that names the phase of an init specifier.
#[derive(Debug)]
pub struct PhaseExpr {
    pub node_id: u64,
    /// Position of its first byte in the source.
    pub start: usize,
    /// Position of its end in the source.
    pub end: usize,
}

/// An init specifier: `phase <Phase> """ code """`.
#[derive(Debug)]
pub struct SpecInit {
    pub phase: PhaseExpr,
    /// The code as it is written, with its escapes.
    pub code: String,
    /// The path of the file that holds the specifier, if it lies in a file.
    pub file_path: Option<String>,
    /// Where in the file the specifier stands.
    pub range: Range,
}

/// The definition of a component instance.
#[derive(Debug)]
pub struct DefComponentInstance {
    pub id: u64,
}

/// A node of the syntax tree.
#[derive(Debug)]
pub enum Node {
    SpecInit(SpecInit),
    DefComponentInstance(DefComponentInstance),
    Other,
}

/// The symbol of a component instance.
#[derive(Debug)]
pub struct Symbol {
    pub qualified_name: String,
    /// Qualified name of the instance's component, if that is resolved.
    pub component: Option<String>,
}

/// A resolved topology.
#[derive(Debug)]
pub struct Topology {
    /// Fully qualified name.
    pub name: String,
    /// Name without its qualifier.
    pub symbol_name: String,
    /// The path of the file that defines the topology, if it lies in a file.
    pub source_path: Option<String>,
    /// The qualified names of the component instances that the topology includes,
    /// directly or through other topologies.
    pub instances: Vec<String>,
}

/// The analysis of all sources.
pub struct Analysis {
    /// The integer values of expressions, by node.
    pub int_values: HashMap<u64, i128>,
    /// The symbols of component instances, by the node of their definition.
    pub symbol_map: HashMap<u64, Symbol>,
    /// The topologies, in no particular order.
    pub topology_map: Vec<Topology>,
}

/// How the workspace was indexed.
#[derive(Debug)]
pub enum Workspace {
    /// From a locations file, with its path if it lies in a file system.
    LocsFile(Option<String>),
    /// In any other way.
    Other,
}

/// The state of the language server.
pub struct GlobalState {
    pub analysis: Analysis,
    pub workspace: Workspace,
}

/// The init specifier under the cursor, together with the instance defining it.
pub struct InitSpecAt<'a> {
    pub spec: &'a SpecInit,
    pub instance: &'a DefComponentInstance,
}

/// Index of the first init specifier at or after `from`, or the number of nodes.
pub open spec fn first_spec(nodes: Seq<Node>, from: int) -> int
    decreases nodes.len() - from,
{
    if from >= nodes.len() || nodes[from] is SpecInit {
        from
    } else {
        first_spec(nodes, from + 1)
    }
}

/// Index of the first instance definition at or after `from`, or the number of nodes.
pub open spec fn first_instance(nodes: Seq<Node>, from: int) -> int
    decreases nodes.len() - from,
{
    if from >= nodes.len() || nodes[from] is DefComponentInstance {
        from
    } else {
        first_instance(nodes, from + 1)
    }
}

/// Whether the nodes under the cursor are those of an init specifier in an instance, and
/// the cursor is not on the expression that names the phase.
pub open spec fn is_on_init_spec(nodes: Seq<Node>, offset: usize) -> bool {
    &&& first_spec(nodes, 0) < nodes.len()
    &&& first_instance(nodes, 0) < nodes.len()
    &&& !({
        let phase = nodes[first_spec(nodes, 0)]->SpecInit_0.phase;
        phase.start <= offset <= phase.end
    })
}

/// The index found is that of the first init specifier, or the number of nodes.
proof fn lemma_first_spec(nodes: Seq<Node>, from: int)
    requires
        0 <= from <= nodes.len(),
    ensures
        from <= first_spec(nodes, from) <= nodes.len(),
        first_spec(nodes, from) < nodes.len() ==> nodes[first_spec(nodes, from)] is SpecInit,
        forall|k: int| from <= k < first_spec(nodes, from) ==> (#[trigger] nodes[k]) !is SpecInit,
    decreases nodes.len() - from,
{
    if from < nodes.len() && nodes[from] !is SpecInit {
        lemma_first_spec(nodes, from + 1);
    }
}

/// The index found is that of the first instance definition, or the number of nodes.
proof fn lemma_first_instance(nodes: Seq<Node>, from: int)
    requires
        0 <= from <= nodes.len(),
    ensures
        from <= first_instance(nodes, from) <= nodes.len(),
        first_instance(nodes, from) < nodes.len() ==> nodes[first_instance(
            nodes,
            from,
        )] is DefComponentInstance,
        forall|k: int|
            from <= k < first_instance(nodes, from) ==> (
            #[trigger] nodes[k]) !is DefComponentInstance,
    decreases nodes.len() - from,
{
    if from < nodes.len() && nodes[from] !is DefComponentInstance {
        lemma_first_instance(nodes, from + 1);
    }
}

/// The cursor is on an init specifier if and only if there is one under it, in an instance, and
/// the cursor is before the start of the expression that names the phase of the first of them,
/// or after its end.
pub proof fn law_phase_expression_is_left_alone(nodes: Seq<Node>, offset: usize, i: int)
    ensures
        (forall|k: int| 0 <= k < nodes.len() ==> (#[trigger] nodes[k]) !is SpecInit)
            ==> !is_on_init_spec(nodes, offset),
        (forall|k: int| 0 <= k < nodes.len() ==> (#[trigger] nodes[k]) !is DefComponentInstance)
            ==> !is_on_init_spec(nodes, offset),
        0 <= i < nodes.len() && (forall|k: int| 0 <= k < i ==> (#[trigger] nodes[k]) !is SpecInit)
            && (exists|j: int|
            0 <= j < nodes.len() && (#[trigger] nodes[j]) is DefComponentInstance) ==> (
        nodes[i] matches Node::SpecInit(spec) ==> (is_on_init_spec(nodes, offset) <==> offset
            < spec.phase.start || spec.phase.end < offset)),
{
    lemma_first_spec(nodes, 0);
    lemma_first_instance(nodes, 0);
}

/// Find the init specifier at `offset`, if the cursor is on the `phase` keyword
/// or inside the code string. The phase expression itself is excluded so that
/// hover/definition on it keeps resolving to the phase constant. `nodes` are the nodes
/// at `offset`, if the document is known.
pub fn init_spec_at_offset<'a>(nodes: Option<&'a Vec<Node>>, offset: usize) -> (r: Option<
    InitSpecAt<'a>,
>)
    ensures
        r is Some <==> (nodes matches Some(all) && is_on_init_spec(all@, offset)),
        r matches Some(at) ==> {
            &&& Node::SpecInit(*at.spec) == nodes->0@[first_spec(nodes->0@, 0)]
            &&& Node::DefComponentInstance(*at.instance) == nodes->0@[first_instance(
                nodes->0@,
                0,
            )]
        },
        r is Some <==> (nodes matches Some(all) && exists|i: int, j: int|
            #![trigger all@[i], all@[j]]
            0 <= i < all@.len() && 0 <= j < all@.len() && (forall|k: int|
                0 <= k < i ==> (#[trigger] all@[k]) !is SpecInit) && (forall|k: int|
                0 <= k < j ==> (#[trigger] all@[k]) !is DefComponentInstance) && (
            all@[i] matches Node::SpecInit(spec) && (offset < spec.phase.start || spec.phase.end
                < offset)) && all@[j] is DefComponentInstance),
        r matches Some(at) ==> {
            let all = nodes->0@;
            &&& offset < at.spec.phase.start || at.spec.phase.end < offset
            &&& exists|i: int|
                0 <= i < all.len() && #[trigger] all[i] == Node::SpecInit(*at.spec) && forall|k: int|
                    0 <= k < i ==> (#[trigger] all[k]) !is SpecInit
            &&& exists|j: int|
                0 <= j < all.len() && #[trigger] all[j] == Node::DefComponentInstance(*at.instance)
                    && forall|k: int|
                    0 <= k < j ==> (#[trigger] all[k]) !is DefComponentInstance
        },
{
    let all: &'a Vec<Node> = match nodes {
        Some(all) => all,
        None => {
            return None;
        },
    };
    let mut spec_index: usize = 0;
    while spec_index < all.len() && !matches!(all[spec_index], Node::SpecInit(_))
        invariant
            spec_index <= all@.len(),
            first_spec(all@, 0) == first_spec(all@, spec_index as int),
            forall|k: int| 0 <= k < spec_index ==> (#[trigger] all@[k]) !is SpecInit,
        decreases all@.len() - spec_index,
    {
        spec_index += 1;
    }
    let mut instance_index: usize = 0;
    while instance_index < all.len() && !matches!(all[instance_index], Node::DefComponentInstance(_))
        invariant
            instance_index <= all@.len(),
            first_instance(all@, 0) == first_instance(all@, instance_index as int),
            forall|k: int|
                0 <= k < instance_index ==> (#[trigger] all@[k]) !is DefComponentInstance,
        decreases all@.len() - instance_index,
    {
        instance_index += 1;
    }
    if spec_index == all.len() || instance_index == all.len() {
        return None;
    }
    match (&all[spec_index], &all[instance_index]) {
        (Node::SpecInit(spec), Node::DefComponentInstance(instance)) => {
            if offset >= spec.phase.start && offset <= spec.phase.end {
                None
            } else {
                Some(InitSpecAt { spec, instance })
            }
        },
        _ => None,
    }
}

/// Everything known about an init specifier, resolved from the analysis.
pub struct PhaseContext {
    pub ordinal: i128,
    pub phase: Option<PhaseInfo>,
    pub instance_qualified_name: String,
    pub component_qualified_name: Option<String>,
    /// The snippet with FPP escapes removed, as it is generated.
    pub code: String,
    /// The FPP source file holding the init specifier.
    pub source_path: Option<String>,
}

/// Everything known about an init specifier, as a value.
#[verifier::ext_equal]
pub struct ContextView {
    pub ordinal: int,
    pub phase: Option<PhaseInfo>,
    pub instance: Seq<char>,
    pub component: Option<Seq<char>>,
    pub code: Seq<char>,
    pub source_path: Option<Seq<char>>,
}

impl View for PhaseContext {
    type V = ContextView;

    open spec fn view(&self) -> ContextView {
        ContextView {
            ordinal: self.ordinal as int,
            phase: self.phase,
            instance: self.instance_qualified_name@,
            component: text::optional(self.component_qualified_name),
            code: self.code@,
            source_path: text::optional(self.source_path),
        }
    }
}

/// What the analysis knows of the init specifier; nothing where the phase has no integer
/// value or the instance no symbol.
pub open spec fn context_of(
    analysis: Analysis,
    spec: SpecInit,
    instance: DefComponentInstance,
) -> Option<ContextView> {
    if !analysis.int_values@.contains_key(spec.phase.node_id) {
        None
    } else if !analysis.symbol_map@.contains_key(instance.id) {
        None
    } else {
        let ordinal = analysis.int_values@[spec.phase.node_id] as int;
        let symbol = analysis.symbol_map@[instance.id];
        Some(
            ContextView {
                ordinal,
                phase: phases::phase_of(ordinal),
                instance: symbol.qualified_name@,
                component: text::optional(symbol.component),
                code: names::unescaped(spec.code@),
                source_path: text::optional(spec.file_path),
            },
        )
    }
}

/// All that is known of an init specifier is told, and nothing else.
pub proof fn law_context_is_told_whole(ctx: PhaseContext)
    ensures
        ctx@.ordinal == ctx.ordinal,
        ctx@.phase == ctx.phase,
        ctx@.instance == ctx.instance_qualified_name@,
        ctx@.component == (match ctx.component_qualified_name {
            Some(name) => Some(name@),
            None => None,
        }),
        ctx@.code == ctx.code@,
        ctx@.source_path == (match ctx.source_path {
            Some(path) => Some(path@),
            None => None,
        }),
{
}

/// A specifier is known if and only if its phase has an integer value and its instance a symbol.
/// The phase is the one of that ordinal, the names are those of the symbol, and the source is
/// the specifier's own.
pub proof fn law_context_is_what_the_analysis_holds(
    analysis: Analysis,
    spec: SpecInit,
    instance: DefComponentInstance,
)
    ensures
        ({
            let known = context_of(analysis, spec, instance);
            let symbol = analysis.symbol_map@[instance.id];
            &&& known is Some <==> analysis.int_values@.contains_key(spec.phase.node_id)
                && analysis.symbol_map@.contains_key(instance.id)
            &&& known matches Some(ctx) ==> {
                &&& ctx.ordinal == analysis.int_values@[spec.phase.node_id]
                &&& ctx.phase is Some <==> 0 <= ctx.ordinal <= 12
                &&& ctx.phase matches Some(phase) ==> phase.ordinal == ctx.ordinal
                    && phases::phase_table().contains(phase)
                &&& ctx.instance == symbol.qualified_name@
                &&& ctx.component == (match symbol.component {
                    Some(name) => Some(name@),
                    None => None,
                })
                &&& ctx.source_path == (match spec.file_path {
                    Some(path) => Some(path@),
                    None => None,
                })
            }
        }),
{
    phases::law_phase_is_known_by_its_ordinal(
        analysis.int_values@[spec.phase.node_id] as int,
    );
}

/// Code that is written with its backslashes and any other characters escaped is known as it
/// was before. Nothing but the escapes is removed, and they are removed once.
pub proof fn law_code_is_known_as_it_is_generated(
    analysis: Analysis,
    spec: SpecInit,
    instance: DefComponentInstance,
    code: Seq<char>,
    picked: Seq<bool>,
)
    requires
        picked.len() == code.len(),
        spec.code@ == names::escaped(code, picked),
    ensures
        context_of(analysis, spec, instance) matches Some(ctx) ==> ctx.code == code,
{
    names::law_unescaping_undoes_escaping(code, picked);
}

/// What the analysis knows of the init specifier; nothing where the phase has no integer
/// value or the instance no symbol.
pub fn phase_context(state: &GlobalState, at: &InitSpecAt<'_>) -> (r: Option<PhaseContext>)
    ensures
        match r {
            Some(ctx) => context_of(state.analysis, *at.spec, *at.instance) == Some(ctx@),
            None => context_of(state.analysis, *at.spec, *at.instance) is None,
        },
        r is Some <==> state.analysis.int_values@.contains_key(at.spec.phase.node_id)
            && state.analysis.symbol_map@.contains_key(at.instance.id),
        r matches Some(ctx) ==> {
            let symbol = state.analysis.symbol_map@[at.instance.id];
            &&& ctx.ordinal == state.analysis.int_values@[at.spec.phase.node_id]
            &&& ctx.phase is Some <==> 0 <= ctx.ordinal <= 12
            &&& ctx.phase matches Some(phase) ==> phase.ordinal == ctx.ordinal
                && phases::phase_table().contains(phase)
            &&& ctx.instance_qualified_name@ == symbol.qualified_name@
            &&& match symbol.component {
                Some(name) => ctx.component_qualified_name matches Some(c) && c@ == name@,
                None => ctx.component_qualified_name is None,
            }
            &&& match at.spec.file_path {
                Some(path) => ctx.source_path matches Some(p) && p@ == path@,
                None => ctx.source_path is None,
            }
            &&& forall|t: Seq<char>, picked: Seq<bool>|
                picked.len() == t.len() && at.spec.code@ == #[trigger] names::escaped(t, picked)
                    ==> ctx.code@ == t
            &&& !at.spec.code@.contains('\\') ==> ctx.code@ == at.spec.code@
        },
{
    let ordinal: i128 = *state.analysis.int_values.get(&at.spec.phase.node_id)?;
    let symbol: &Symbol = state.analysis.symbol_map.get(&at.instance.id)?;
    let ctx: PhaseContext = PhaseContext {
        ordinal,
        phase: phase_info(ordinal),
        instance_qualified_name: symbol.qualified_name.clone(),
        component_qualified_name: symbol.component.clone(),
        code: unescape(at.spec.code.as_str()),
        source_path: at.spec.file_path.clone(),
    };
    assert(ctx@ =~= context_of(state.analysis, *at.spec, *at.instance)->0);
    proof {
        phases::law_phase_is_known_by_its_ordinal(ordinal as int);
        assert forall|t: Seq<char>, picked: Seq<bool>|
            picked.len() == t.len() && at.spec.code@ == #[trigger] names::escaped(
                t,
                picked,
            ) implies ctx.code@ == t by {
            names::law_unescaping_undoes_escaping(t, picked);
        }
        if !at.spec.code@.contains('\\') {
            names::law_plain_text_is_kept(at.spec.code@);
        }
    }
    Some(ctx)
}

/// The directory of the locations file that the workspace was indexed from.
pub open spec fn cache_dir(workspace: Workspace) -> Option<Seq<char>> {
    match workspace {
        Workspace::LocsFile(Some(locs)) => path::parent_of(locs@),
        _ => None,
    }
}

/// The build cache is the directory that the locations file lies in, whatever its name.
pub proof fn law_build_cache_holds_the_locations_file(
    locs: String,
    dir: Seq<char>,
    name: Seq<char>,
)
    requires
        path::is_name(name),
        locs@ == path::joined(dir, name),
    ensures
        cache_dir(Workspace::LocsFile(Some(locs))) matches Some(cache) && path::components(cache)
            == path::components(dir),
        cache_dir(Workspace::LocsFile(None)) is None,
        cache_dir(Workspace::Other) is None,
{
    path::law_parent_undoes_joining_a_name(dir, name);
}

/// The build cache directory: the parent of the locations file the workspace was
/// indexed from.
pub fn build_cache_dir(state: &GlobalState) -> (r: Option<String>)
    ensures
        text::optional(r) == cache_dir(state.workspace),
        r is Some <==> (state.workspace matches Workspace::LocsFile(Some(locs))
            && path::components(locs@).len() > 0 && path::components(locs@) != seq!["/"@]),
        r matches Some(dir) ==> (state.workspace matches Workspace::LocsFile(Some(locs))
            && path::components(dir@) == path::components(locs@).drop_last()),
{
    proof {
        if let Workspace::LocsFile(Some(locs)) = &state.workspace {
            path::law_parent_components(locs@);
        }
    }
    match &state.workspace {
        Workspace::LocsFile(Some(locs)) => path::parent(locs.as_str()),
        _ => None,
    }
}

} // verus!
