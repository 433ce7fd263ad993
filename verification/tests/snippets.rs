//! Finding the code of an init specifier in a generated file, and the phase table.

use fpp_phases::names::{instance_cpp_name, unescape};
use fpp_phases::phases::{phase_info, phases, GeneratedFile, PhaseInfo, Placement, Stage};
use fpp_phases::snippet::{block_end, find_lines, locate_snippet, phase_section};
use fpp_phases::text::TextLines;

const GENERATED: &str = r#"namespace Ref {

  Svc::WasmSequencer wasmSeq(FW_OPTIONAL_NAME("Ref.wasmSeq"));

}

namespace Ref {

  namespace ConfigObjects {

    namespace CdhCore_health {
      Svc::Health::PingEntry pingEntries[NUM_PING_ENTRIES] = {
        {
          PingEntries::CdhCore_cmdDisp::WARN,
          "CdhCore_cmdDisp"
        }
      };
    }

    namespace Ref_other {
      int x = 1;
    }

  }

  void initComponents(const TopologyState& state) {
    wasmSeq.init(QueueSizes::Ref_wasmSeq, InstanceIds::Ref_wasmSeq);
  }

  void configComponents(const TopologyState& state) {
    CdhCore::health.setPingEntries(
        ConfigObjects::CdhCore_health::pingEntries,
        FW_NUM_ARRAY_ELEMENTS(ConfigObjects::CdhCore_health::pingEntries),
        Svc::Health::HEALTH_WATCHDOG_CODE
    );
    wasmSeq.configure(Svc::WasmSequencer::Config(), memAllocator);
  }

  void regCommands() {
    wasmSeq.regCommands();
  }

}
"#;

fn phase(name: &str) -> PhaseInfo {
    phases().into_iter().find(|p| p.name == name).unwrap()
}

fn line_of(text: &str, needle: &str) -> u32 {
    text.lines().position(|l| l.contains(needle)).unwrap() as u32
}

#[test]
fn finds_snippet_in_function() {
    let code = "\n  wasmSeq.configure(Svc::WasmSequencer::Config(), memAllocator);\n  ";
    let (line, exact) =
        locate_snippet(GENERATED, &phase("configComponents"), "Ref_wasmSeq", code);
    assert!(exact);
    assert_eq!(line, line_of(GENERATED, "wasmSeq.configure("));
}

#[test]
fn finds_multiline_snippet_with_different_indentation() {
    let code = "CdhCore::health.setPingEntries(\n    ConfigObjects::CdhCore_health::pingEntries,\n    FW_NUM_ARRAY_ELEMENTS(ConfigObjects::CdhCore_health::pingEntries),\n    Svc::Health::HEALTH_WATCHDOG_CODE\n);";
    let (line, exact) =
        locate_snippet(GENERATED, &phase("configComponents"), "CdhCore_health", code);
    assert!(exact);
    assert_eq!(line, line_of(GENERATED, "CdhCore::health.setPingEntries("));
}

#[test]
fn falls_back_to_function_when_snippet_missing() {
    let (line, exact) = locate_snippet(
        GENERATED,
        &phase("configComponents"),
        "Ref_wasmSeq",
        "wasmSeq.configure(NewConfig());",
    );
    assert!(!exact);
    assert_eq!(line, line_of(GENERATED, "void configComponents("));
}

#[test]
fn does_not_match_snippet_outside_its_phase_function() {
    // The same text exists in `regCommands`, not `initComponents`.
    let (line, exact) = locate_snippet(
        GENERATED,
        &phase("initComponents"),
        "Ref_wasmSeq",
        "wasmSeq.regCommands();",
    );
    // Falls back to a whole-file search (the build cache may predate a
    // phase move) and still finds it.
    assert!(exact);
    assert_eq!(line, line_of(GENERATED, "wasmSeq.regCommands();"));
}

#[test]
fn finds_config_object_namespace() {
    let code = "int x = 1;";
    let (line, exact) = locate_snippet(GENERATED, &phase("configObjects"), "Ref_other", code);
    assert!(exact);
    assert_eq!(line, line_of(GENERATED, "int x = 1;"));

    let (line, exact) =
        locate_snippet(GENERATED, &phase("configObjects"), "Ref_other", "int y;");
    assert!(!exact);
    assert_eq!(line, line_of(GENERATED, "namespace Ref_other {"));
}

#[test]
fn finds_instance_definition() {
    let code = "Svc::WasmSequencer wasmSeq(FW_OPTIONAL_NAME(\"Ref.wasmSeq\"));";
    let (line, exact) = locate_snippet(GENERATED, &phase("instances"), "Ref_wasmSeq", code);
    assert!(exact);
    assert_eq!(line, line_of(GENERATED, "Svc::WasmSequencer wasmSeq("));
}

#[test]
fn missing_section_points_at_top() {
    let (line, exact) = locate_snippet(GENERATED, &phase("startTasks"), "Ref_wasmSeq", "foo();");
    assert!(!exact);
    assert_eq!(line, 0);
}

#[test]
fn unescapes_fpp_strings() {
    assert_eq!(unescape(r#"a \"b\" \\ c"#), r#"a "b" \ c"#);
    assert_eq!(unescape("plain"), "plain");
}

#[test]
fn unescape_drops_a_last_backslash() {
    assert_eq!(unescape("a\\"), "a");
    assert_eq!(unescape("\\"), "");
    assert_eq!(unescape(""), "");
    assert_eq!(unescape("\\n\\\\\\"), "n\\");
    assert_eq!(unescape("\\\u{e9}x"), "\u{e9}x");
}

#[test]
fn phase_table_matches_fpp_to_cpp_ordinals() {
    for (i, p) in phases().iter().enumerate() {
        assert_eq!(p.ordinal, i as i128, "{}", p.name);
    }
    assert_eq!(phase_info(4).unwrap().name, "configComponents");
    assert!(phase_info(13).is_none());
}

#[test]
fn phases_are_those_of_the_table_only() {
    assert_eq!(phases().len(), 13);
    assert!(phase_info(-1).is_none());
    assert!(phase_info(i128::MAX).is_none());
    assert!(phase_info(i128::MIN).is_none());
    assert_eq!(phase_info(0).unwrap().name, "configConstants");
    assert_eq!(phase_info(12).unwrap().name, "deinitComponents");
    assert_eq!(phase_info(0).unwrap().file, GeneratedFile::Hpp);
    assert!(phases().iter().skip(1).all(|p| p.file == GeneratedFile::Cpp));
    assert_eq!(phase_info(2).unwrap().placement, Placement::Instances);
    assert_eq!(phase_info(1).unwrap().placement, Placement::Namespace("ConfigObjects"));
    assert_eq!(phase_info(5).unwrap().placement, Placement::Function(""));
    assert_eq!(
        phase_info(8).unwrap().placement,
        Placement::Function("const TopologyState& state")
    );
    assert_eq!(phase_info(1).unwrap().stage, Stage::Static);
    assert_eq!(phase_info(8).unwrap().stage, Stage::Setup);
    assert_eq!(phase_info(9).unwrap().stage, Stage::Teardown);
    assert_eq!(
        phase_info(6).unwrap().description,
        "Code for reading parameters from a file. Ordinarily used only by the parameter database instance."
    );
    assert_eq!(phase_info(6).unwrap().default_code, "None.");
    assert_eq!(phase_info(11).unwrap().default_code, "None.");
    assert_eq!(
        phase_info(12).unwrap().default_code,
        "The standard call to `deinit` for the instance."
    );
}

#[test]
fn signatures_follow_the_placement() {
    assert_eq!(
        phase("configConstants").signature("Ref_c"),
        "namespace ConfigConstants::Ref_c"
    );
    assert_eq!(
        phase("instances").signature("Ref_c"),
        "anonymous namespace (instance definitions)"
    );
    assert_eq!(phase("regCommands").signature("Ref_c"), "void regCommands()");
    assert_eq!(
        phase("freeThreads").signature("Ref_c"),
        "void freeThreads(const TopologyState& state)"
    );
}

#[test]
fn extensions_name_the_generated_files() {
    assert_eq!(GeneratedFile::Hpp.extension(), "hpp");
    assert_eq!(GeneratedFile::Cpp.extension(), "cpp");
}

#[test]
fn cpp_name_replaces_every_dot() {
    assert_eq!(instance_cpp_name("Ref.c"), "Ref_c");
    assert_eq!(instance_cpp_name("A.B.c_d"), "A_B_c_d");
    assert_eq!(instance_cpp_name(".."), "__");
    assert_eq!(instance_cpp_name("plain"), "plain");
    assert_eq!(instance_cpp_name(""), "");
}

#[test]
fn section_of_the_phase_is_preferred() {
    let generated = "x();\nvoid initComponents(int a) {\n  y();\n  x();\n}\nx();\n";
    let (line, exact) = locate_snippet(generated, &phase("initComponents"), "i", "x();");
    assert!(exact);
    assert_eq!(line, 3);
    // In another phase that has no function, the first place in the file is taken.
    let (line, exact) = locate_snippet(generated, &phase("stopTasks"), "i", "x();");
    assert!(exact);
    assert_eq!(line, 0);
}

#[test]
fn snippet_is_found_across_blank_lines_and_carriage_returns() {
    let generated = "void regCommands() {\r\n\r\n   a();\t\r\n\r\n\t\r\n  b();\r\n}\r\n";
    let (line, exact) = locate_snippet(generated, &phase("regCommands"), "i", "\n\na();\n  \n  b();");
    assert!(exact);
    assert_eq!(line, 2);
    // The same snippet, written otherwise, lands at the same place.
    let (other, exact) = locate_snippet(generated, &phase("regCommands"), "i", "      a();\n\u{a0}b();\n\n");
    assert!(exact);
    assert_eq!(other, line);
}

#[test]
fn blank_snippet_is_never_exact() {
    for code in ["", "\n", "  \n\t\n", "\u{2003}"] {
        let (line, exact) = locate_snippet(GENERATED, &phase("regCommands"), "i", code);
        assert!(!exact);
        assert_eq!(line, line_of(GENERATED, "void regCommands("));
    }
}

#[test]
fn empty_file_points_at_top() {
    for p in phases() {
        assert_eq!(locate_snippet("", &p, "i", "x();"), (0, false));
    }
}

#[test]
fn snippet_that_begins_the_file_is_exact_at_line_zero() {
    let (line, exact) = locate_snippet("x();", &phase("startTasks"), "i", "x();");
    assert_eq!((line, exact), (0, true));
}

#[test]
fn whole_line_must_match() {
    let generated = "void regCommands() {\n  xx();\n  x(); // why\n}\n";
    assert_eq!(locate_snippet(generated, &phase("regCommands"), "i", "x();"), (0, false));
}

#[test]
fn first_of_several_occurrences_is_taken() {
    let generated = "void regCommands() {\n  a();\n  a();\n  b();\n  a();\n  b();\n}\n";
    assert_eq!(locate_snippet(generated, &phase("regCommands"), "i", "a();\nb();"), (2, true));
    assert_eq!(locate_snippet(generated, &phase("regCommands"), "i", "a();"), (1, true));
}

#[test]
fn instance_definitions_end_at_the_configuration_objects() {
    let generated = "a\nnamespace ConfigObjects {\nb\n}\n";
    let lines = TextLines::split(generated);
    assert_eq!(phase_section(&lines, &phase("instances"), "i"), Some((0, 1)));
    assert_eq!(phase_section(&TextLines::split("a\nb"), &phase("instances"), "i"), Some((0, 2)));
    // The whole file is searched after the section.
    assert_eq!(locate_snippet(generated, &phase("instances"), "i", "b"), (2, true));
}

#[test]
fn namespace_of_another_instance_is_no_section() {
    let generated = "namespace ConfigObjects {\n namespace A {\n  x\n }\n}\nnamespace B {\n}\n";
    let lines = TextLines::split(generated);
    assert_eq!(phase_section(&lines, &phase("configObjects"), "A"), Some((1, 4)));
    assert_eq!(phase_section(&lines, &phase("configObjects"), "B"), None);
    assert_eq!(phase_section(&lines, &phase("configConstants"), "A"), None);
}

#[test]
fn block_ends_where_its_braces_close() {
    let lines = TextLines::split("f() {\n  if (x) {\n  }\n}\nrest\n");
    assert_eq!(block_end(&lines, 0), 4);
    assert_eq!(block_end(&lines, 1), 3);
    // No brace is opened from there on.
    assert_eq!(block_end(&lines, 4), 5);
    // Braces that are opened and closed on one line close the block there.
    assert_eq!(block_end(&TextLines::split("{ }\n{\n}"), 0), 1);
    // A block that is never closed ends with the file.
    assert_eq!(block_end(&TextLines::split("{\n{\n}"), 0), 3);
    // A closing brace in front does not close the block before it is opened.
    assert_eq!(block_end(&TextLines::split("}\n{\n{\n}\n"), 0), 2);
    assert_eq!(block_end(&lines, 9), 5);
}

#[test]
fn lines_are_found_in_their_range_only() {
    let lines = TextLines::split("a\nb\n\na\nb\n");
    assert_eq!(find_lines(&lines, 0, 5, "a\nb"), Some(0));
    assert_eq!(find_lines(&lines, 1, 5, "a\nb"), Some(3));
    assert_eq!(find_lines(&lines, 1, 4, "a\nb"), None);
    assert_eq!(find_lines(&lines, 1, 4, "b\na"), Some(1));
    assert_eq!(find_lines(&lines, 0, 5, "\n"), None);
    assert_eq!(find_lines(&lines, 2, 2, "a"), None);
}

#[test]
fn unescaping_undoes_escaping() {
    for text in ["", "plain", "\"", "\\", "a \"b\" \\ c", "\\\\\"\"", "\u{e9}\\n"] {
        let len = text.chars().count();
        // Every choice of characters that are escaped besides the backslashes.
        for picks in 0..(1usize << len) {
            let mut escaped = String::new();
            for (i, c) in text.chars().enumerate() {
                if c == '\\' || picks & (1 << i) != 0 {
                    escaped.push('\\');
                }
                escaped.push(c);
            }
            assert_eq!(unescape(&escaped), text);
        }
        assert!(unescape(text).len() <= text.len());
    }
}

#[test]
fn unescaping_goes_part_by_part() {
    for (a, b) in [("a\\\"", "\\\\b"), ("", "\\x"), ("x\\\\", "y"), ("x", "")] {
        assert_eq!(
            unescape(&format!("{}{}", a, b)),
            format!("{}{}", unescape(a), unescape(b))
        );
    }
    // A backslash at the end of the first part takes the first character of the second.
    assert_eq!(unescape("a\\"), "a");
    assert_eq!(unescape("\\b"), "b");
    assert_eq!(unescape("a\\\\b"), "a\\b");
    assert_eq!(unescape("a\\\\\\b"), "a\\b");
}

#[test]
fn cpp_names_tell_all_but_dots_and_underscores() {
    assert_eq!(instance_cpp_name("A.b_c"), instance_cpp_name("A_b.c"));
    assert_ne!(instance_cpp_name("A.b"), instance_cpp_name("A.B"));
    assert_ne!(instance_cpp_name("A.b"), instance_cpp_name("A.b."));
    assert!(!instance_cpp_name("A.b.c").contains('.'));
}

#[test]
fn spliced_snippet_is_found() {
    let code = "\n  one(\n    two\n  );\n\nthree();\n";
    for indent in ["", " ", "\t\t", "      "] {
        let spliced: Vec<String> = code.lines().map(|l| format!("{}{}", indent, l)).collect();
        let generated = format!(
            "three();\nvoid startTasks(const TopologyState& state) {{\n  zero();\n{}\n  four();\n}}\n",
            spliced.join("\n")
        );
        let (line, exact) = locate_snippet(&generated, &phase("startTasks"), "i", code);
        assert!(exact);
        assert_eq!(line, 4);
        assert_eq!(line, line_of(&generated, "one("));
    }
}
