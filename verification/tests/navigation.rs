//! From a position in a model to the generated code, end to end, on a file system in memory.

use fpp_phases::files::{Answer, DirEntry, Request};
use fpp_phases::hover::{hover_for_init_spec, Hover};
use fpp_phases::index::{
    build_cache_dir, init_spec_at_offset, phase_context, Analysis, DefComponentInstance,
    GlobalState, Node, PhaseExpr, Position, Range, SpecInit, Symbol, Topology, Workspace,
};
use fpp_phases::phases::GeneratedFile;
use fpp_phases::resolve::{generated_targets, TargetSearch};
use fpp_phases::search::generated_file_for_topology;
use fpp_phases::targets::{GeneratedTarget, Location, Unresolved};
use fpp_phases::topologies::topologies_containing;
use std::collections::{BTreeMap, HashMap};

const TOP_FPP: &str = r#"module Fpp {
  module ToCpp {
    enum Phases : U8 {
      configConstants
      configObjects
      instances
      initComponents
      configComponents
      regCommands
    }
  }
}

module Ref {
  passive component C {
    sync input port p: Fw.Ping
  }

  instance c: C base id 0x100 {
    phase Fpp.ToCpp.Phases.configComponents """
      c.configure(1);
      """
    phase Fpp.ToCpp.Phases.configObjects """
      int x = 1;
      """
  }

  instance unused: C base id 0x200 {
    phase Fpp.ToCpp.Phases.configComponents """
      unused.configure(1);
      """
  }

  instance shared: C base id 0x300 {
    phase Fpp.ToCpp.Phases.configConstants """
      enum { SHARED_LIMIT = 3 };
      """
    phase Fpp.ToCpp.Phases.configComponents """
      shared.configure(SHARED_LIMIT);
      """
  }

  topology Ref {
    instance c
    instance shared
  }

  topology Alt {
    instance shared
  }
}
"#;

const GENERATED_CPP: &str = r#"// Generated
namespace Ref {

  namespace ConfigObjects {

    namespace Ref_c {
      int x = 1;
    }

  }

  void initComponents(const TopologyState& state) {
    c.init();
  }

  void configComponents(const TopologyState& state) {
    c.configure(1);
    shared.configure(SHARED_LIMIT);
  }

}
"#;

const GENERATED_HPP: &str = r#"// Generated
namespace Ref {

  namespace ConfigConstants {
    namespace Ref_shared {
      enum { SHARED_LIMIT = 3 };
    }
  }

}
"#;

const GENERATED_ALT_CPP: &str = r#"// Generated
namespace Ref {

  void configComponents(const TopologyState& state) {
    shared.configure(SHARED_LIMIT);
  }

}
"#;

/// A file system: the texts of its files and their times, by path.
struct Files {
    texts: BTreeMap<String, String>,
    times: BTreeMap<String, i128>,
}

impl Files {
    fn new() -> Files {
        Files { texts: BTreeMap::new(), times: BTreeMap::new() }
    }

    fn write(&mut self, path: &str, text: &str, time: i128) {
        self.texts.insert(path.to_string(), text.to_string());
        self.times.insert(path.to_string(), time);
    }

    fn remove(&mut self, path: &str) {
        self.texts.remove(path);
        self.times.remove(path);
    }

    /// The entries of a directory, by name.
    fn list(&self, dir: &str) -> Option<Vec<DirEntry>> {
        let prefix = format!("{}/", dir.trim_end_matches('/'));
        let mut entries: BTreeMap<String, bool> = BTreeMap::new();
        for path in self.texts.keys() {
            if let Some(rest) = path.strip_prefix(&prefix) {
                match rest.split_once('/') {
                    Some((name, _)) => entries.insert(name.to_string(), true),
                    None => entries.insert(rest.to_string(), false),
                };
            }
        }
        if entries.is_empty() {
            return None;
        }
        Some(entries.into_iter().map(|(name, is_dir)| DirEntry { name, is_dir }).collect())
    }

    fn answer(&self, request: &Request) -> Answer {
        match request {
            Request::ReadText(path) => Answer::Text(self.texts.get(path).cloned()),
            Request::IsFile(path) => Answer::Flag(self.texts.contains_key(path)),
            Request::ListDir(path) => Answer::Entries(self.list(path)),
            Request::ModifiedTime(path) => Answer::Time(self.times.get(path).copied()),
        }
    }

    fn run(&self, search: TargetSearch) -> Result<Vec<GeneratedTarget>, Unresolved> {
        let mut search = search;
        while let Some(request) = search.request() {
            search = search.advance(self.answer(&request));
        }
        assert!(search.is_done());
        search.finish()
    }

    fn find(&self, build_cache: &str, dir: Option<&str>, name: &str, file: GeneratedFile) -> Option<String> {
        let mut search = generated_file_for_topology(build_cache, dir, name, file);
        while let Some(request) = search.request() {
            search = search.advance(self.answer(&request));
        }
        assert!(search.is_done());
        search.found()
    }
}

const TOP: &str = "/work/Top/Top.fpp";
const BUILD: &str = "/work/build-fprime-automatic-native";
const REF_CPP: &str = "/work/build-fprime-automatic-native/Top/RefTopologyAc.cpp";
const REF_HPP: &str = "/work/build-fprime-automatic-native/Top/RefTopologyAc.hpp";
const ALT_CPP: &str = "/work/build-fprime-automatic-native/Top/AltTopologyAc.cpp";

/// A project whose build cache holds the generated files of two topologies.
fn fixture() -> Files {
    let mut files = Files::new();
    files.write(TOP, TOP_FPP, 1000);
    files.write("/work/build-fprime-automatic-native/locs.fpp", "", 1000);
    files.write(
        "/work/build-fprime-automatic-native/fprime-locations.fprime-util",
        "/work\n/work/build-fprime-automatic-native\n",
        1000,
    );
    files.write(REF_CPP, GENERATED_CPP, 2000);
    files.write(REF_HPP, GENERATED_HPP, 2000);
    files.write(ALT_CPP, GENERATED_ALT_CPP, 2000);
    files
}

/// The instances of the model, by the node of their definition.
const INSTANCES: [(&str, u64); 3] = [("c", 1), ("unused", 2), ("shared", 3)];

/// The phases that the model defines, in order. The node of a phase expression has the
/// ordinal of its phase, and a hundred more.
const PHASE_NAMES: [&str; 6] = [
    "configConstants",
    "configObjects",
    "instances",
    "initComponents",
    "configComponents",
    "regCommands",
];

fn position_at(text: &str, offset: usize) -> Position {
    let before = &text[..offset];
    let line_start = before.rfind('\n').map(|i| i + 1).unwrap_or(0);
    Position {
        line: before.matches('\n').count() as u32,
        character: (offset - line_start) as u32,
    }
}

/// The offset of an occurrence of `needle` in the model.
fn offset_of(needle: &str, occurrence: usize) -> usize {
    let mut idx = 0;
    let mut from = 0;
    for _ in 0..=occurrence {
        idx = TOP_FPP[from..].find(needle).expect("needle not found") + from;
        from = idx + 1;
    }
    idx
}

/// The nodes of the model at `offset`: the instance definition there, and the init
/// specifier.
fn nodes_at_offset(offset: usize) -> Vec<Node> {
    let mut nodes = vec![Node::Other];
    for (name, id) in INSTANCES {
        let start = offset_of(&format!("instance {}: C", name), 0);
        let end = start + TOP_FPP[start..].find("\n  }\n").unwrap();
        if offset < start || offset > end {
            continue;
        }
        nodes.push(Node::DefComponentInstance(DefComponentInstance { id }));
        let mut from = start;
        while let Some(at) = TOP_FPP[from..end].find("phase ") {
            let spec_start = from + at;
            let open = spec_start + TOP_FPP[spec_start..].find("\"\"\"").unwrap();
            let close = open + 3 + TOP_FPP[open + 3..].find("\"\"\"").unwrap();
            let spec_end = close + 3;
            let phase = TOP_FPP[spec_start + 6..open].trim();
            let name = phase.strip_prefix("Fpp.ToCpp.Phases.").unwrap();
            let ordinal = PHASE_NAMES.iter().position(|p| *p == name).unwrap() as u64;
            if offset >= spec_start && offset <= spec_end {
                nodes.push(Node::SpecInit(SpecInit {
                    phase: PhaseExpr {
                        node_id: 100 + ordinal,
                        start: spec_start + 6,
                        end: spec_start + 6 + phase.len(),
                    },
                    code: TOP_FPP[open + 3..close].to_string(),
                    file_path: Some(TOP.to_string()),
                    range: Range {
                        start: position_at(TOP_FPP, spec_start),
                        end: position_at(TOP_FPP, spec_end),
                    },
                }));
            }
            from = spec_end;
        }
    }
    nodes
}

fn topology(name: &str, instances: &[&str]) -> Topology {
    Topology {
        name: format!("Ref.{}", name),
        symbol_name: name.to_string(),
        source_path: Some(TOP.to_string()),
        instances: instances.iter().map(|i| i.to_string()).collect(),
    }
}

fn state() -> GlobalState {
    let mut int_values = HashMap::new();
    for ordinal in 0..PHASE_NAMES.len() {
        int_values.insert(100 + ordinal as u64, ordinal as i128);
    }
    let mut symbol_map = HashMap::new();
    for (name, id) in INSTANCES {
        symbol_map.insert(
            id,
            Symbol {
                qualified_name: format!("Ref.{}", name),
                component: Some("Ref.C".to_string()),
            },
        );
    }
    GlobalState {
        analysis: Analysis {
            int_values,
            symbol_map,
            topology_map: vec![
                topology("Ref", &["Ref.c", "Ref.shared"]),
                topology("Alt", &["Ref.shared"]),
            ],
        },
        workspace: Workspace::LocsFile(Some(
            "/work/build-fprime-automatic-native/locs.fpp".to_string(),
        )),
    }
}

fn line_of(text: &str, needle: &str) -> u32 {
    text.lines().position(|l| l.contains(needle)).unwrap() as u32
}

fn uri_of(path: &str) -> String {
    format!("file://{}", path)
}

fn path_of(location: &Location) -> String {
    location.uri.strip_prefix("file://").unwrap().to_string()
}

fn resolve(files: &Files, state: &GlobalState, offset: usize) -> Result<Vec<GeneratedTarget>, Unresolved> {
    let nodes = nodes_at_offset(offset);
    let at = init_spec_at_offset(Some(&nodes), offset).unwrap();
    let ctx = phase_context(state, &at).unwrap();
    files.run(generated_targets(state, &ctx)?)
}

fn goto(files: &Files, state: &GlobalState, offset: usize) -> Vec<Location> {
    match resolve(files, state, offset) {
        Ok(targets) => targets
            .iter()
            .filter_map(|t| t.location(Some(&uri_of(&t.path))))
            .collect(),
        Err(_) => vec![],
    }
}

fn hover_at(files: &Files, state: &GlobalState, offset: usize) -> Option<Hover> {
    let nodes = nodes_at_offset(offset);
    let at = init_spec_at_offset(Some(&nodes), offset)?;
    let resolved = resolve(files, state, offset);
    let uris: Vec<Option<String>> = match &resolved {
        Ok(targets) => targets.iter().map(|t| Some(uri_of(&t.path))).collect(),
        Err(_) => vec![],
    };
    hover_for_init_spec(state, &at, &resolved, &uris)
}

fn hover(files: &Files, state: &GlobalState, offset: usize) -> Option<String> {
    hover_at(files, state, offset).map(|h| h.value)
}

#[test]
fn goto_on_phase_keyword_jumps_to_generated_snippet() {
    let files = fixture();
    let state = state();

    let pos = offset_of("phase Fpp.ToCpp.Phases.configComponents", 0);
    let locs = goto(&files, &state, pos);
    assert_eq!(locs.len(), 1, "{locs:?}");
    assert_eq!(path_of(&locs[0]), REF_CPP);
    assert_eq!(
        locs[0].range.start.line,
        line_of(GENERATED_CPP, "c.configure(1);")
    );
    assert_eq!(locs[0].range.start, locs[0].range.end);
    assert_eq!(locs[0].range.start.character, 0);
}

#[test]
fn goto_inside_code_string_jumps_to_generated_snippet() {
    let files = fixture();
    let state = state();

    let pos = offset_of("c.configure(1);", 0);
    let locs = goto(&files, &state, pos);
    assert_eq!(locs.len(), 1, "{locs:?}");
    assert_eq!(path_of(&locs[0]), REF_CPP);
    assert_eq!(
        locs[0].range.start.line,
        line_of(GENERATED_CPP, "c.configure(1);")
    );

    // `configObjects` lands in the `ConfigObjects::Ref_c` namespace.
    let pos = offset_of("int x = 1;", 0);
    let locs = goto(&files, &state, pos);
    assert_eq!(locs.len(), 1, "{locs:?}");
    assert_eq!(
        locs[0].range.start.line,
        line_of(GENERATED_CPP, "int x = 1;")
    );
}

/// What the server resolves where no init specifier is concerned: the definition of the
/// enum constant whose name the offset is in.
fn enum_constant_at(offset: usize) -> Location {
    let is_name = |c: char| c.is_ascii_alphanumeric();
    let start = TOP_FPP[..offset].rfind(|c| !is_name(c)).unwrap() + 1;
    let end = offset + TOP_FPP[offset..].find(|c| !is_name(c)).unwrap();
    let line = TOP_FPP.lines().position(|l| l.trim() == &TOP_FPP[start..end]).unwrap() as u32;
    let pos = Position { line, character: 6 };
    Location { uri: uri_of(TOP), range: Range { start: pos, end: pos } }
}

/// The definition at the offset: that of the init specifier there or, where there is none,
/// of the enum constant.
fn goto_definition(files: &Files, state: &GlobalState, offset: usize) -> Vec<Location> {
    let nodes = nodes_at_offset(offset);
    match init_spec_at_offset(Some(&nodes), offset) {
        Some(_) => goto(files, state, offset),
        None => vec![enum_constant_at(offset)],
    }
}

#[test]
fn goto_on_phase_name_still_resolves_enum_constant() {
    let files = fixture();
    let state = state();

    let pos = offset_of("Phases.configComponents", 0) + "Phases.".len() + 2;
    let locs = goto_definition(&files, &state, pos);
    assert_eq!(locs.len(), 1, "{locs:?}");
    assert_eq!(path_of(&locs[0]), TOP);
    assert_eq!(
        locs[0].range.start.line,
        line_of(TOP_FPP, "      configComponents")
    );
    // The keyword in front of it is the init specifier's.
    let locs = goto_definition(&files, &state, offset_of("phase Fpp.ToCpp.Phases.configComponents", 0));
    assert_eq!(path_of(&locs[0]), REF_CPP);
}

#[test]
fn goto_lists_every_topology_including_the_instance() {
    let files = fixture();
    let state = state();

    let pos = offset_of("shared.configure(SHARED_LIMIT);", 0);
    let mut locs = goto(&files, &state, pos);
    locs.sort_by_key(path_of);
    assert_eq!(locs.len(), 2, "{locs:?}");
    assert_eq!(path_of(&locs[0]), ALT_CPP);
    assert_eq!(
        locs[0].range.start.line,
        line_of(GENERATED_ALT_CPP, "shared.configure(SHARED_LIMIT);")
    );
    assert_eq!(path_of(&locs[1]), REF_CPP);
    assert_eq!(
        locs[1].range.start.line,
        line_of(GENERATED_CPP, "shared.configure(SHARED_LIMIT);")
    );

    let text = hover(&files, &state, pos).unwrap();
    assert!(text.contains("`Ref.Alt`"), "{text}");
    assert!(text.contains("`Ref.Ref`"), "{text}");
}

#[test]
fn goto_on_config_constants_targets_the_generated_header() {
    let files = fixture();
    let state = state();

    // Only `Ref` has a generated header, so `Alt` contributes no target.
    let pos = offset_of("enum { SHARED_LIMIT = 3 };", 0);
    let locs = goto(&files, &state, pos);
    assert_eq!(locs.len(), 1, "{locs:?}");
    assert_eq!(path_of(&locs[0]), REF_HPP);
    assert_eq!(
        locs[0].range.start.line,
        line_of(GENERATED_HPP, "enum { SHARED_LIMIT = 3 };")
    );
}

#[test]
fn goto_without_topology_or_generated_file_yields_nothing() {
    let mut files = fixture();
    let state = state();

    // `unused` is not in any topology.
    let pos = offset_of("unused.configure(1);", 0);
    assert!(goto(&files, &state, pos).is_empty());
    let text = hover(&files, &state, pos).unwrap();
    assert!(text.contains("not part of any topology"), "{text}");

    // Generated file removed: nothing to jump to, hover explains why.
    files.remove(REF_CPP);
    let pos = offset_of("c.configure(1);", 0);
    assert!(goto(&files, &state, pos).is_empty());
    let text = hover(&files, &state, pos).unwrap();
    assert!(text.contains("no `TopologyAc` file found"), "{text}");
    assert!(text.contains("`Ref.Ref`"), "{text}");
}

#[test]
fn hover_on_phase_describes_phase_and_links_generated_code() {
    let files = fixture();
    let state = state();

    let pos = offset_of("phase Fpp.ToCpp.Phases.configComponents", 0);
    let text = hover(&files, &state, pos).unwrap();
    assert!(text.contains("`configComponents`"), "{text}");
    assert!(text.contains("ordinal 4"), "{text}");
    assert!(text.contains("`setup()`"), "{text}");
    assert!(
        text.contains("void configComponents(const TopologyState& state)"),
        "{text}"
    );
    assert!(text.contains("**Instance** `Ref.c` : `Ref.C`"), "{text}");
    let expected_link = format!(
        "RefTopologyAc.cpp:{}",
        line_of(GENERATED_CPP, "c.configure(1);") + 1
    );
    assert!(text.contains(&expected_link), "{text}");
    assert!(!text.contains("stale"), "{text}");
}

#[test]
fn hover_warns_when_generated_file_is_older_than_source() {
    let mut files = fixture();
    let state = state();

    files.times.insert(REF_CPP.to_string(), 1000 - 3600);

    let pos = offset_of("c.configure(1);", 0);
    let text = hover(&files, &state, pos).unwrap();
    assert!(text.contains("build cache may be stale"), "{text}");
}

/// The hover at the offset: that of the init specifier there or, where there is none, of the
/// enum constant.
fn hover_anything(files: &Files, state: &GlobalState, offset: usize) -> Option<String> {
    let nodes = nodes_at_offset(offset);
    match init_spec_at_offset(Some(&nodes), offset) {
        Some(_) => hover(files, state, offset),
        None => Some(format!("enum constant, line {}", enum_constant_at(offset).range.start.line)),
    }
}

#[test]
fn hover_on_phase_name_is_the_enum_hover() {
    let files = fixture();
    let state = state();

    let pos = offset_of("Phases.configComponents", 0) + "Phases.".len() + 2;
    let text = hover_anything(&files, &state, pos).unwrap();
    assert!(!text.contains("Init phase"), "{text}");
    // The keyword in front of it has the hover of the init specifier.
    let keyword = offset_of("phase Fpp.ToCpp.Phases.configComponents", 0);
    let text = hover_anything(&files, &state, keyword).unwrap();
    assert!(text.contains("Init phase"), "{text}");
}

#[test]
fn phase_expression_is_left_out() {
    let keyword = offset_of("phase Fpp.ToCpp.Phases.configComponents", 0);
    let start = keyword + "phase ".len();
    let end = start + "Fpp.ToCpp.Phases.configComponents".len();
    for (offset, expected) in [
        (keyword, true),
        (start - 1, true),
        (start, false),
        (start + 7, false),
        (end, false),
        (end + 1, true),
    ] {
        let nodes = nodes_at_offset(offset);
        let at = init_spec_at_offset(Some(&nodes), offset);
        assert_eq!(at.is_some(), expected, "{}", offset);
    }
}

#[test]
fn init_specifier_needs_both_nodes() {
    assert!(init_spec_at_offset(None, 0).is_none());
    let offset = offset_of("c.configure(1);", 0);
    let mut nodes = nodes_at_offset(offset);
    assert_eq!(nodes.len(), 3);
    let at = init_spec_at_offset(Some(&nodes), offset).unwrap();
    assert_eq!(at.instance.id, 1);
    assert!(at.spec.code.contains("c.configure(1);"));
    let spec = nodes.pop().unwrap();
    assert!(init_spec_at_offset(Some(&nodes), offset).is_none());
    assert!(init_spec_at_offset(Some(&vec![spec]), offset).is_none());
    assert!(init_spec_at_offset(Some(&vec![]), offset).is_none());
}

#[test]
fn context_holds_what_the_analysis_knows() {
    let mut state = state();
    let offset = offset_of("c.configure(1);", 0);
    let nodes = nodes_at_offset(offset);
    let at = init_spec_at_offset(Some(&nodes), offset).unwrap();
    let ctx = phase_context(&state, &at).unwrap();
    assert_eq!(ctx.ordinal, 4);
    assert_eq!(ctx.phase.unwrap().name, "configComponents");
    assert_eq!(ctx.instance_qualified_name, "Ref.c");
    assert_eq!(ctx.component_qualified_name.as_deref(), Some("Ref.C"));
    assert_eq!(ctx.code.trim(), "c.configure(1);");
    assert_eq!(ctx.source_path.as_deref(), Some(TOP));

    state.analysis.int_values.insert(104, 99);
    assert!(phase_context(&state, &at).unwrap().phase.is_none());
    state.analysis.int_values.remove(&104);
    assert!(phase_context(&state, &at).is_none());
    state.analysis.int_values.insert(104, 4);
    state.analysis.symbol_map.remove(&1);
    assert!(phase_context(&state, &at).is_none());
}

#[test]
fn escapes_are_removed_from_the_code() {
    let state = state();
    let spec = SpecInit {
        phase: PhaseExpr { node_id: 104, start: 10, end: 20 },
        code: "say(\\\"hi\\\");".to_string(),
        file_path: None,
        range: Range {
            start: Position { line: 0, character: 0 },
            end: Position { line: 0, character: 0 },
        },
    };
    let nodes = vec![
        Node::SpecInit(spec),
        Node::DefComponentInstance(DefComponentInstance { id: 1 }),
    ];
    let at = init_spec_at_offset(Some(&nodes), 5).unwrap();
    let ctx = phase_context(&state, &at).unwrap();
    assert_eq!(ctx.code, "say(\"hi\");");
    assert_eq!(ctx.source_path, None);
}

#[test]
fn reasons_come_in_order() {
    let files = fixture();
    let mut state = state();
    let offset = offset_of("c.configure(1);", 0);
    assert!(resolve(&files, &state, offset).is_ok());

    // Nothing is generated.
    let empty = Files::new();
    assert_eq!(
        resolve(&empty, &state, offset).unwrap_err(),
        Unresolved::NotGenerated(vec!["Ref.Ref".to_string()])
    );
    let shared = offset_of("shared.configure(SHARED_LIMIT);", 0);
    let why = resolve(&empty, &state, shared).unwrap_err();
    assert_eq!(
        why,
        Unresolved::NotGenerated(vec!["Ref.Alt".to_string(), "Ref.Ref".to_string()])
    );
    assert_eq!(why.clone(), why);

    // There is no build cache.
    state.workspace = Workspace::LocsFile(None);
    assert_eq!(resolve(&files, &state, offset).unwrap_err(), Unresolved::NoBuildCache);
    state.workspace = Workspace::Other;
    assert_eq!(resolve(&files, &state, offset).unwrap_err(), Unresolved::NoBuildCache);

    // No topology includes the instance.
    state.analysis.topology_map.clear();
    assert_eq!(resolve(&files, &state, offset).unwrap_err(), Unresolved::NoTopology);

    // The phase is unknown.
    state.analysis.int_values.insert(104, -7);
    assert_eq!(resolve(&files, &state, offset).unwrap_err(), Unresolved::UnknownPhase(-7));
}

#[test]
fn build_cache_is_the_directory_of_the_locations_file() {
    let mut state = state();
    assert_eq!(build_cache_dir(&state).as_deref(), Some(BUILD));
    state.workspace = Workspace::LocsFile(Some("/".to_string()));
    assert_eq!(build_cache_dir(&state), None);
    state.workspace = Workspace::LocsFile(Some("locs.fpp".to_string()));
    assert_eq!(build_cache_dir(&state).as_deref(), Some(""));
}

#[test]
fn topologies_are_listed_by_name() {
    let mut state = state();
    state.analysis.topology_map = vec![
        topology("C", &["Ref.c"]),
        topology("A", &["Ref.x", "Ref.c"]),
        topology("B", &["Ref.x"]),
        topology("AA", &["Ref.c", "Ref.c"]),
    ];
    let names = |instance: &str| -> Vec<String> {
        topologies_containing(&state, instance).iter().map(|t| t.symbol_name.clone()).collect()
    };
    assert_eq!(names("Ref.c"), vec!["A", "AA", "C"]);
    assert_eq!(names("Ref.x"), vec!["A", "B"]);
    assert!(names("c").is_empty());
}

#[test]
fn order_of_the_table_does_not_matter() {
    let mut state = state();
    let listed = |state: &GlobalState| -> Vec<String> {
        topologies_containing(state, "Ref.shared").iter().map(|t| t.name.clone()).collect()
    };
    let before = listed(&state);
    assert_eq!(before, vec!["Ref.Alt", "Ref.Ref"]);
    state.analysis.topology_map.reverse();
    assert_eq!(listed(&state), before);
}

#[test]
fn target_is_stale_only_where_both_times_are_known() {
    let mut files = fixture();
    let state = state();
    let offset = offset_of("c.configure(1);", 0);
    let stale = |files: &Files| resolve(files, &state, offset).unwrap()[0].stale;
    assert!(!stale(&files));
    files.times.insert(REF_CPP.to_string(), 1000);
    assert!(!stale(&files));
    files.times.insert(REF_CPP.to_string(), 999);
    assert!(stale(&files));
    files.times.remove(TOP);
    assert!(!stale(&files));
    files.times.insert(TOP.to_string(), 1000);
    files.times.remove(REF_CPP);
    assert!(!stale(&files));
}

#[test]
fn source_without_a_path_is_never_newer() {
    let mut files = fixture();
    files.times.insert(REF_CPP.to_string(), 0);
    let state = state();
    let offset = offset_of("c.configure(1);", 0);
    let nodes = nodes_at_offset(offset);
    let at = init_spec_at_offset(Some(&nodes), offset).unwrap();
    let mut ctx = phase_context(&state, &at).unwrap();
    ctx.source_path = None;
    let targets = files.run(generated_targets(&state, &ctx).unwrap()).unwrap();
    assert_eq!(targets.len(), 1);
    assert!(!targets[0].stale);
    assert!(targets[0].exact);
    let copy = targets[0].clone();
    assert_eq!(copy.path, targets[0].path);
    assert_eq!(copy.line, targets[0].line);
}

#[test]
fn file_that_cannot_be_read_gives_no_target() {
    let mut files = fixture();
    let state = state();
    // The scan finds the name, but the text of the file is not to be had.
    files.remove("/work/build-fprime-automatic-native/fprime-locations.fprime-util");
    let offset = offset_of("c.configure(1);", 0);
    let nodes = nodes_at_offset(offset);
    let at = init_spec_at_offset(Some(&nodes), offset).unwrap();
    let ctx = phase_context(&state, &at).unwrap();
    let mut search = generated_targets(&state, &ctx).unwrap();
    while let Some(request) = search.request() {
        let answer = match &request {
            Request::ReadText(_) => Answer::Text(None),
            _ => files.answer(&request),
        };
        search = search.advance(answer);
    }
    assert_eq!(
        search.finish().unwrap_err(),
        Unresolved::NotGenerated(vec!["Ref.Ref".to_string()])
    );
}

#[test]
fn mapped_file_is_taken_before_a_scan() {
    let mut files = fixture();
    files.write("/work/build-fprime-automatic-native/RefTopologyAc.cpp", "", 0);
    let found = |dir: Option<&str>, files: &Files| files.find(BUILD, dir, "Ref", GeneratedFile::Cpp);
    assert_eq!(found(Some("/work/Top"), &files).as_deref(), Some(REF_CPP));
    let top = "/work/build-fprime-automatic-native/RefTopologyAc.cpp";
    assert_eq!(found(Some("/work/Other"), &files).as_deref(), Some(top));
    assert_eq!(found(Some("/elsewhere"), &files).as_deref(), Some(top));
    assert_eq!(found(None, &files).as_deref(), Some(top));
    files.remove("/work/build-fprime-automatic-native/fprime-locations.fprime-util");
    assert_eq!(found(Some("/work/Top"), &files).as_deref(), Some(top));
    files.remove(top);
    assert_eq!(found(Some("/work/Top"), &files).as_deref(), Some(REF_CPP));
    assert_eq!(files.find(BUILD, None, "Ref", GeneratedFile::Hpp).as_deref(), Some(REF_HPP));
    assert_eq!(files.find(BUILD, None, "Alt", GeneratedFile::Hpp), None);
    assert_eq!(files.find("/nowhere", None, "Ref", GeneratedFile::Cpp), None);
}

#[test]
fn generated_file_is_named_after_its_topology() {
    let files = fixture();
    for (name, file) in [("Ref", GeneratedFile::Cpp), ("Ref", GeneratedFile::Hpp), ("Alt", GeneratedFile::Cpp)] {
        let expected = format!("/{}TopologyAc.{}", name, file.extension());
        for dir in [None, Some("/work/Top")] {
            assert!(files.find(BUILD, dir, name, file).unwrap().ends_with(&expected));
        }
    }
}

#[test]
fn scan_leaves_directories_out() {
    for skipped in ["CMakeFiles", "lib", "bin"] {
        let mut files = Files::new();
        files.write(&format!("/b/{}/TTopologyAc.cpp", skipped), "", 0);
        assert_eq!(files.find("/b", None, "T", GeneratedFile::Cpp), None);
        files.write("/b/library/x/TTopologyAc.cpp", "", 0);
        assert_eq!(
            files.find("/b", None, "T", GeneratedFile::Cpp).as_deref(),
            Some("/b/library/x/TTopologyAc.cpp")
        );
    }
}

#[test]
fn scan_takes_files_before_directories() {
    let mut files = Files::new();
    files.write("/b/a/a/TTopologyAc.cpp", "", 0);
    files.write("/b/c/TTopologyAc.cpp", "", 0);
    // The directories are scanned in turn, each to its end.
    assert_eq!(
        files.find("/b", None, "T", GeneratedFile::Cpp).as_deref(),
        Some("/b/a/a/TTopologyAc.cpp")
    );
    files.write("/b/TTopologyAc.cpp", "", 0);
    assert_eq!(
        files.find("/b", None, "T", GeneratedFile::Cpp).as_deref(),
        Some("/b/TTopologyAc.cpp")
    );
}

#[test]
fn directory_of_the_name_is_no_generated_file() {
    let mut files = Files::new();
    files.write("/b/TTopologyAc.cpp/TTopologyAc.cpp", "", 0);
    assert_eq!(
        files.find("/b", None, "T", GeneratedFile::Cpp).as_deref(),
        Some("/b/TTopologyAc.cpp/TTopologyAc.cpp")
    );
}

#[test]
fn scan_goes_twelve_directories_down() {
    let mut files = Files::new();
    let deep = format!("/b{}/TTopologyAc.cpp", "/d".repeat(12));
    files.write(&deep, "", 0);
    assert_eq!(files.find("/b", None, "T", GeneratedFile::Cpp), Some(deep));
    let mut files = Files::new();
    files.write(&format!("/b{}/TTopologyAc.cpp", "/d".repeat(13)), "", 0);
    assert_eq!(files.find("/b", None, "T", GeneratedFile::Cpp), None);
}

#[test]
fn location_needs_a_uri() {
    let target = GeneratedTarget {
        topology: "Ref.Ref".to_string(),
        path: "/a b/RefTopologyAc.cpp".to_string(),
        line: 7,
        exact: true,
        stale: false,
    };
    let location = target.location(Some("file:///a%20b/RefTopologyAc.cpp")).unwrap();
    assert_eq!(location.uri, "file:///a%20b/RefTopologyAc.cpp");
    assert_eq!(location.range.start, Position { line: 7, character: 0 });
    assert_eq!(location.range.end, location.range.start);
    assert!(target.location(Some("file:///a b/RefTopologyAc.cpp")).is_none());
    assert!(target.location(None).is_none());
    assert_eq!(target.location_in("x".to_string()).uri, "x");
}

#[test]
fn file_name_is_the_end_of_the_path() {
    let named = |path: &str| GeneratedTarget {
        topology: String::new(),
        path: path.to_string(),
        line: 0,
        exact: false,
        stale: false,
    };
    assert_eq!(named("/a/RefTopologyAc.cpp").file_name(), "RefTopologyAc.cpp");
    assert_eq!(named("/a/..").file_name(), "");
    assert_eq!(named("/").file_name(), "");
}

#[test]
fn hover_text_is_complete() {
    let mut files = fixture();
    let mut state = state();
    let offset = offset_of("c.configure(1);", 0);
    let shown = hover_at(&files, &state, offset).unwrap();
    let start = offset_of("phase Fpp.ToCpp.Phases.configComponents", 0);
    assert_eq!(shown.range.start, position_at(TOP_FPP, start));
    assert_eq!(
        shown.value,
        "**Init phase** `configComponents` — `Fpp.ToCpp.Phases` ordinal 4, runs during `setup()`\n\
         \n\
         Implementation-specific configuration code for the instance.\n\
         \n\
         Default code: None.\n\
         \n\
         Generated into `void configComponents(const TopologyState& state)` in `<Top>TopologyAc.cpp`.\n\
         \n\
         **Instance** `Ref.c` : `Ref.C`\n\
         \n\
         **Generated code** (Ctrl+click the `phase` keyword or the code to jump)\n\
         \n\
         - `Ref.Ref` → [RefTopologyAc.cpp:17](file:///work/build-fprime-automatic-native/Top/RefTopologyAc.cpp#L17)"
    );

    // The snippet was edited and the file is old.
    files.write(REF_CPP, "void configComponents(int) {\n}\n", 1);
    let text = hover(&files, &state, offset).unwrap();
    assert!(
        text.ends_with(
            "\n- `Ref.Ref` → [RefTopologyAc.cpp:1](file:///work/build-fprime-automatic-native/Top/RefTopologyAc.cpp#L1) \
             — snippet text not found, pointing at the phase section \
             — **build cache may be stale** (generated file is older than this source; run `fprime-util build`)"
        ),
        "{text}"
    );

    // Nothing is generated.
    let shared = offset_of("shared.configure(SHARED_LIMIT);", 0);
    let text = hover(&Files::new(), &state, shared).unwrap();
    assert!(
        text.ends_with(
            "\n\n**Generated code**: no `TopologyAc` file found in the build cache for `Ref.Alt`, `Ref.Ref` — run `fprime-util generate`/`build`."
        ),
        "{text}"
    );

    // There is no build cache.
    state.workspace = Workspace::Other;
    let text = hover(&files, &state, offset).unwrap();
    assert!(
        text.ends_with(
            "\n\n**Generated code**: no build cache configured (set `buildCache` in `.fpp-lsp`)."
        ),
        "{text}"
    );

    // The instance is in no topology.
    state.analysis.topology_map.clear();
    let text = hover(&files, &state, offset).unwrap();
    assert!(
        text.ends_with("\n\n**Generated code**: instance is not part of any topology."),
        "{text}"
    );

    // The phase is unknown, and so is the component.
    state.analysis.int_values.insert(104, 13);
    if let Some(symbol) = state.analysis.symbol_map.get_mut(&1) {
        symbol.component = None;
    }
    assert_eq!(
        hover(&files, &state, offset).unwrap(),
        "**Init phase** ordinal 13 — not a phase known to fpp-to-cpp (`Fpp.ToCpp.Phases` defines 0..12).\n\
         \n\
         **Instance** `Ref.c`"
    );

    // Nothing is known.
    state.analysis.symbol_map.clear();
    let nodes = nodes_at_offset(offset);
    let at = init_spec_at_offset(Some(&nodes), offset).unwrap();
    let resolved: Result<Vec<GeneratedTarget>, Unresolved> = Err(Unresolved::NoTopology);
    assert!(hover_for_init_spec(&state, &at, &resolved, &vec![]).is_none());
}

#[test]
fn target_without_a_uri_is_shown_with_an_empty_link() {
    let files = fixture();
    let state = state();
    let offset = offset_of("enum { SHARED_LIMIT = 3 };", 0);
    let nodes = nodes_at_offset(offset);
    let at = init_spec_at_offset(Some(&nodes), offset).unwrap();
    let resolved = resolve(&files, &state, offset);
    let text = hover_for_init_spec(&state, &at, &resolved, &vec![None]).unwrap().value;
    assert!(text.contains("ordinal 0, static, file scope\n"), "{text}");
    assert!(
        text.contains("Generated into `namespace ConfigConstants::Ref_shared` in `<Top>TopologyAc.hpp`."),
        "{text}"
    );
    assert!(text.ends_with("\n- `Ref.Ref` → [RefTopologyAc.hpp:6](#L6)"), "{text}");
}
