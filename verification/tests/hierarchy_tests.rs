//! Hierarchy tests

use waveform_mcp::collect_signals_from_scope;
use waveform_mcp::find_scope_by_path;
use waveform_mcp::find_signal_by_path;
use waveform_mcp::find_variable_by_path;
use waveform_mcp::get_signal_metadata;
use waveform_mcp::list_signals;
use waveform_mcp::{EvalError, Hierarchy, Scope, Variable};

/// Reads the declarations of the small subset of the VCD format that these
/// tests use into a hierarchy; signals are numbered in the order of their
/// declaration.
fn read_hierarchy(text: &str) -> Hierarchy {
    let mut top = Hierarchy { variables: Vec::new(), scopes: Vec::new() };
    let mut open: Vec<Scope> = Vec::new();
    let mut scope_count = 0;
    let mut signal_count = 0;
    let mut words = text.split_whitespace();
    while let Some(word) = words.next() {
        let mut fields: Vec<&str> = Vec::new();
        while let Some(field) = words.next() {
            if field == "$end" {
                break;
            }
            fields.push(field);
        }
        match word {
            "$scope" => {
                let name = fields[1].to_string();
                let path = match open.last() {
                    Some(parent) => format!("{}.{}", parent.path, name),
                    None => name.clone(),
                };
                open.push(Scope {
                    id: scope_count,
                    path,
                    variables: Vec::new(),
                    scopes: Vec::new(),
                });
                scope_count += 1;
            }
            "$upscope" => {
                let closed = open.pop().expect("an open scope");
                match open.last_mut() {
                    Some(parent) => parent.scopes.push(closed),
                    None => top.scopes.push(closed),
                }
            }
            "$var" => {
                let name = fields[3].to_string();
                let path = match open.last() {
                    Some(parent) => format!("{}.{}", parent.path, name),
                    None => name.clone(),
                };
                let variable = Variable {
                    path,
                    var_type: "Wire".to_string(),
                    width: Some(fields[1].parse().expect("signal width")),
                    index: None,
                    signal: signal_count,
                };
                signal_count += 1;
                match open.last_mut() {
                    Some(parent) => parent.variables.push(variable),
                    None => top.variables.push(variable),
                }
            }
            "$enddefinitions" => break,
            _ => {}
        }
    }
    top
}

#[test]
fn hierarchy_tests_test_signal_full_name() {
    // Create a simple VCD file with hierarchy
    let vcd_content = "\
$date 2024-01-01 $end\n\
$version Test VCD file $end\n\
$timescale 1ns $end\n\
$scope module top $end\n\
$scope module submodule $end\n\
$var wire 1 0 clk $end\n\
$upscope $end\n\
$var wire 8 1 data $end\n\
$upscope $end\n\
$enddefinitions $end\n\
#0\n\
00\n\
b000000001";

    let hierarchy = read_hierarchy(vcd_content);

    // Check full names of variables
    let full_names = list_signals(&hierarchy, None, None, true, None);
    assert_eq!(full_names, vec!["top.data", "top.submodule.clk"]);
    for full_name in full_names {
        println!("Variable full name: {}", full_name);
        assert!(!full_name.is_empty(), "Full name should not be empty");
    }
}

#[test]
fn hierarchy_tests_test_list_signals_function() {
    // Create a simple VCD file
    let vcd_content = "\
$date 2024-01-01 $end\n\
$version Test VCD file $end\n\
$timescale 1ns $end\n\
$scope module top $end\n\
$var wire 1 0 clk $end\n\
$var wire 8 1 data $end\n\
$upscope $end\n\
$enddefinitions $end\n\
#0\n\
00\n\
b000000001";

    let hierarchy = read_hierarchy(vcd_content);

    // Simulate list_signals function
    let mut signals = Vec::new();
    for path in list_signals(&hierarchy, None, None, true, None) {
        let signal = find_signal_by_path(&hierarchy, &path).expect("a listed signal");
        signals.push(format!("{} ({})", path, signal));
    }

    println!("Found signals: {}", signals.join("\n"));
    assert!(!signals.is_empty(), "Should have found at least one signal");
}

#[test]
fn hierarchy_tests_test_find_signal_by_path() {
    let vcd_content = "\
$date 2024-01-01 $end\n\
$version Test VCD file $end\n\
$timescale 1ns $end\n\
$scope module top $end\n\
$var wire 1 ! clk $end\n\
$upscope $end\n\
$enddefinitions $end\n\
#0\n\
0!";

    let hierarchy = read_hierarchy(vcd_content);

    // Debug: print all available signals
    for path in list_signals(&hierarchy, None, None, true, None) {
        println!("Signal path: {}", path);
    }

    // Test finding existing signal - use the correct path format
    let result = find_signal_by_path(&hierarchy, "top.clk");
    assert!(result.is_some(), "Should find 'top.clk' signal");

    // Test finding non-existing signal
    let result = find_signal_by_path(&hierarchy, "nonexistent");
    assert!(result.is_none(), "Should not find 'nonexistent' signal");
}

#[test]
fn hierarchy_tests_test_list_signals_recursive() {
    // Create a VCD file with nested hierarchy
    let vcd_content = "\
$date 2024-01-01 $end\n\
$version Test VCD file $end\n\
$timescale 1ns $end\n\
$scope module top $end\n\
$var wire 1 ! clk $end\n\
$scope module submodule1 $end\n\
$var wire 1 @ data1 $end\n\
$scope module inner $end\n\
$var wire 1 # data2 $end\n\
$upscope $end\n\
$upscope $end\n\
$scope module submodule2 $end\n\
$var wire 1 $ data3 $end\n\
$upscope $end\n\
$upscope $end\n\
$enddefinitions $end\n\
#0\n\
0!\n\
0@\n\
0#\n\
0$";

    let hierarchy = read_hierarchy(vcd_content);

    // Test recursive mode (default): should find all signals at all levels
    let all_signals: Vec<String> = list_signals(&hierarchy, None, None, true, None);
    assert!(
        !all_signals.is_empty(),
        "Should find signals in recursive mode"
    );

    // Test non-recursive mode at top level (top scope)
    let mut top_level_signals: Vec<String> = Vec::new();
    for scope in hierarchy.scopes.iter() {
        if scope.path == "top" {
            // Top-level scope
            for var in scope.variables.iter() {
                top_level_signals.push(var.path.clone());
            }
            break;
        }
    }
    assert_eq!(
        top_level_signals.len(),
        1,
        "Should find 1 signal at top level"
    );
    assert!(
        top_level_signals.contains(&"top.clk".to_string()),
        "Should find 'clk' at top level"
    );

    // Test non-recursive mode at submodule level
    let mut submodule1_signals: Vec<String> = Vec::new();
    if let Some(submodule1) = find_scope_by_path(&hierarchy, "top.submodule1") {
        for var in submodule1.variables.iter() {
            submodule1_signals.push(var.path.clone());
        }
    }
    assert_eq!(
        submodule1_signals.len(),
        1,
        "Should find 1 signal at submodule1 level"
    );
    assert!(
        submodule1_signals.contains(&"top.submodule1.data1".to_string()),
        "Should find 'data1' at submodule1 level"
    );

    // Verify that inner module signal is not included in submodule1 non-recursive list
    assert!(
        !submodule1_signals.iter().any(|s| s.contains("inner")),
        "Should not include inner module signals in submodule1 non-recursive list"
    );
}

#[test]
fn hierarchy_tests_test_list_signals_lib() {
    // Create a VCD file with multiple signals
    let vcd_content = "\
$date 2024-01-01 $end\n\
$version Test VCD file $end\n\
$timescale 1ns $end\n\
$scope module top $end\n\
$var wire 1 0 clk $end\n\
$var wire 1 1 data $end\n\
$var wire 1 2 enable $end\n\
$upscope $end\n\
$enddefinitions $end\n\
#0\n\
00\n\
01\n\
02";

    let hierarchy = read_hierarchy(vcd_content);

    // Test listing all signals (recursive)
    let signals = list_signals(&hierarchy, None, None, true, None);
    assert_eq!(signals.len(), 3, "Should find 3 signals");

    // Test filtering by name pattern
    let clk_signals = list_signals(&hierarchy, Some("clk"), None, true, None);
    assert_eq!(clk_signals.len(), 1, "Should find 1 signal matching 'clk'");
    assert!(
        clk_signals[0].contains("clk"),
        "Signal should contain 'clk'"
    );

    // Test filtering by hierarchy prefix
    let top_signals = list_signals(&hierarchy, None, Some("top"), true, None);
    assert_eq!(top_signals.len(), 3, "Should find 3 signals under 'top'");

    // Test limit
    let limited_signals = list_signals(&hierarchy, None, None, true, Some(2));
    assert_eq!(limited_signals.len(), 2, "Should limit to 2 signals");

    // Test unlimited limit (-1)
    let unlimited_signals = list_signals(&hierarchy, None, None, true, Some(-1));
    assert_eq!(
        unlimited_signals.len(),
        3,
        "Should return all signals with -1 limit"
    );
}

fn variable(path: &str, signal: usize) -> Variable {
    Variable {
        path: path.to_string(),
        var_type: "Reg".to_string(),
        width: Some(8),
        index: Some((7, 0)),
        signal,
    }
}

fn scope(id: usize, path: &str, variables: Vec<Variable>, scopes: Vec<Scope>) -> Scope {
    Scope { id, path: path.to_string(), variables, scopes }
}

fn design() -> Hierarchy {
    Hierarchy {
        variables: vec![variable("loose", 0)],
        scopes: vec![
            scope(0, "top",
                vec![variable("top.clk", 1), variable("top.Data", 2)],
                vec![
                    scope(1, "top.cpu",
                        vec![variable("top.cpu.pc", 3)],
                        vec![scope(2, "top.cpu.alu", vec![variable("top.cpu.alu.data_out", 4)], vec![])],
                    ),
                    scope(3, "top.mem", vec![variable("top.mem.addr", 5)], vec![]),
                ],
            ),
            scope(4, "bench", vec![variable("bench.clk", 6)], vec![]),
            scope(5, "top", vec![variable("top.shadow", 7)], vec![]),
        ],
    }
}

#[test]
fn listing_goes_through_a_scope_before_the_scopes_within_it() {
    let hierarchy = design();
    assert_eq!(
        list_signals(&hierarchy, None, None, true, None),
        vec![
            "top.clk",
            "top.Data",
            "top.cpu.pc",
            "top.cpu.alu.data_out",
            "top.mem.addr",
            "bench.clk",
            "top.shadow",
        ]
    );
    assert_eq!(
        list_signals(&hierarchy, None, None, false, None),
        vec!["top.clk", "top.Data", "bench.clk", "top.shadow"]
    );
    assert_eq!(
        list_signals(&hierarchy, None, Some("top.cpu"), true, None),
        vec!["top.cpu.pc", "top.cpu.alu.data_out"]
    );
    assert_eq!(list_signals(&hierarchy, None, Some("top.cpu"), false, None), vec!["top.cpu.pc"]);
    assert_eq!(list_signals(&hierarchy, None, Some("top.gpu"), true, None), Vec::<String>::new());
    assert_eq!(list_signals(&hierarchy, None, Some("top.cpu.pc"), true, None), Vec::<String>::new());
}

#[test]
fn listing_by_pattern_ignores_case_and_keeps_order() {
    let hierarchy = design();
    assert_eq!(
        list_signals(&hierarchy, Some("DATA"), None, true, None),
        vec!["top.Data", "top.cpu.alu.data_out"]
    );
    assert_eq!(
        list_signals(&hierarchy, Some("clk"), None, true, None),
        vec!["top.clk", "bench.clk"]
    );
    assert_eq!(
        list_signals(&hierarchy, Some("P.C"), None, true, None),
        vec!["top.clk", "top.cpu.pc", "top.cpu.alu.data_out"]
    );
    assert_eq!(list_signals(&hierarchy, Some(""), None, false, None).len(), 4);
    assert_eq!(list_signals(&hierarchy, Some("nothing"), None, true, None), Vec::<String>::new());
    assert_eq!(
        list_signals(&hierarchy, Some("top."), Some("top"), true, Some(3)),
        vec!["top.clk", "top.Data", "top.cpu.pc"]
    );
}

#[test]
fn listing_stops_at_the_limit() {
    let hierarchy = design();
    assert_eq!(list_signals(&hierarchy, None, None, true, Some(0)), Vec::<String>::new());
    assert_eq!(list_signals(&hierarchy, None, None, true, Some(1)), vec!["top.clk"]);
    assert_eq!(list_signals(&hierarchy, None, None, true, Some(7)).len(), 7);
    assert_eq!(list_signals(&hierarchy, None, None, true, Some(70)).len(), 7);
    assert_eq!(list_signals(&hierarchy, None, None, true, Some(-1)).len(), 7);
    assert_eq!(list_signals(&hierarchy, None, None, true, Some(isize::MIN)).len(), 7);
    assert_eq!(
        list_signals(&hierarchy, Some("clk"), None, true, Some(1)),
        vec!["top.clk"]
    );
}

#[test]
fn signals_of_one_scope() {
    let hierarchy = design();
    let cpu = find_scope_by_path(&hierarchy, "top.cpu").unwrap();
    assert_eq!(
        collect_signals_from_scope(cpu, true, None),
        vec!["top.cpu.pc", "top.cpu.alu.data_out"]
    );
    assert_eq!(collect_signals_from_scope(cpu, false, None), vec!["top.cpu.pc"]);
    assert_eq!(
        collect_signals_from_scope(cpu, true, Some("OUT")),
        vec!["top.cpu.alu.data_out"]
    );
    assert_eq!(collect_signals_from_scope(cpu, false, Some("out")), Vec::<String>::new());
}

#[test]
fn scope_is_found_by_its_full_path_first_in_depth() {
    let hierarchy = design();
    assert_eq!(find_scope_by_path(&hierarchy, "top").map(|s| s.id), Some(0));
    assert_eq!(find_scope_by_path(&hierarchy, "top.cpu.alu").map(|s| s.id), Some(2));
    assert_eq!(find_scope_by_path(&hierarchy, "top.mem").map(|s| s.id), Some(3));
    assert_eq!(find_scope_by_path(&hierarchy, "bench").map(|s| s.id), Some(4));
    assert_eq!(find_scope_by_path(&hierarchy, "alu"), None);
    assert_eq!(find_scope_by_path(&hierarchy, "top.clk"), None);
    assert_eq!(find_scope_by_path(&hierarchy, ""), None);
}

#[test]
fn signal_is_found_by_its_full_path() {
    let hierarchy = design();
    assert_eq!(find_signal_by_path(&hierarchy, "loose"), Some(0));
    assert_eq!(find_signal_by_path(&hierarchy, "top.clk"), Some(1));
    assert_eq!(find_signal_by_path(&hierarchy, "top.cpu.alu.data_out"), Some(4));
    assert_eq!(find_signal_by_path(&hierarchy, "bench.clk"), Some(6));
    assert_eq!(find_signal_by_path(&hierarchy, "top.shadow"), Some(7));
    assert_eq!(find_signal_by_path(&hierarchy, "clk"), None);
    assert_eq!(find_signal_by_path(&hierarchy, "top.cpu"), None);
    assert_eq!(find_signal_by_path(&hierarchy, "TOP.CLK"), None);
}

#[test]
fn metadata_text_is_exact() {
    let mut hierarchy = design();
    assert_eq!(
        get_signal_metadata("top.cpu.pc", find_variable_by_path(&hierarchy, "top.cpu.pc")),
        Ok("Signal: top.cpu.pc\nType: Reg\nWidth: 8 bits\nIndex: [7:0]".to_string())
    );
    assert_eq!(
        get_signal_metadata("asked.for", find_variable_by_path(&hierarchy, "loose")),
        Ok("Signal: asked.for\nType: Reg\nWidth: 8 bits\nIndex: [7:0]".to_string())
    );
    hierarchy.variables[0].width = None;
    hierarchy.variables[0].index = None;
    hierarchy.variables[0].var_type = "String".to_string();
    assert_eq!(
        get_signal_metadata("loose", Some(&hierarchy.variables[0])),
        Ok("Signal: loose\nType: String\nWidth: variable length (string/real)\nIndex: N/A".to_string())
    );
    hierarchy.variables[0].index = Some((-3, i64::MIN));
    assert_eq!(
        get_signal_metadata("loose", Some(&hierarchy.variables[0])),
        Ok("Signal: loose\nType: String\nWidth: variable length (string/real)\nIndex: [-3:-9223372036854775808]".to_string())
    );
}

#[test]
fn metadata_of_a_signal_that_was_not_found() {
    let hierarchy = design();
    for path in ["nonexistent", "top", "top.cpu", "cpu.pc", ""] {
        assert_eq!(
            get_signal_metadata(path, find_variable_by_path(&hierarchy, path)),
            Err(EvalError::SignalNotFound(path.to_string())),
            "path {:?}",
            path
        );
    }
}

#[test]
fn paths_are_kept_by_their_prefix() {
    let paths: Vec<String> = ["top.clk", "top.cpu.pc", "bench.clk", "top", "to", "top.cpu.alu.out", "Top.x"]
        .iter()
        .map(|path| path.to_string())
        .collect();
    assert_eq!(
        waveform_mcp::paths_with_prefix(&paths, "top"),
        vec!["top.clk", "top.cpu.pc", "top", "top.cpu.alu.out"]
    );
    assert_eq!(
        waveform_mcp::paths_with_prefix(&paths, "top.cpu"),
        vec!["top.cpu.pc", "top.cpu.alu.out"]
    );
    assert_eq!(waveform_mcp::paths_with_prefix(&paths, ""), paths);
    assert_eq!(waveform_mcp::paths_with_prefix(&paths, "top.cpu.alu.out.x"), Vec::<String>::new());
    assert_eq!(waveform_mcp::paths_with_prefix(&paths, "TOP"), Vec::<String>::new());
    assert_eq!(waveform_mcp::paths_with_prefix(&Vec::new(), "top"), Vec::<String>::new());
}

#[test]
fn names_are_chosen_by_pattern_in_either_case() {
    let paths: Vec<String> = ["top.CLK", "top.clk_div", "top.reset", "top.Größe", "top.ÉTAT"]
        .iter()
        .map(|path| path.to_string())
        .collect();
    assert_eq!(
        waveform_mcp::filter_signal_names(&paths, Some("clk"), None),
        vec!["top.CLK", "top.clk_div"]
    );
    assert_eq!(
        waveform_mcp::filter_signal_names(&paths, Some("CLK_"), None),
        vec!["top.clk_div"]
    );
    assert_eq!(waveform_mcp::filter_signal_names(&paths, Some("GRÖSSE"), None), Vec::<String>::new());
    assert_eq!(waveform_mcp::filter_signal_names(&paths, Some("GRÖ"), None), vec!["top.Größe"]);
    assert_eq!(waveform_mcp::filter_signal_names(&paths, Some("état"), None), vec!["top.ÉTAT"]);
    assert_eq!(waveform_mcp::filter_signal_names(&paths, None, Some(2)), vec!["top.CLK", "top.clk_div"]);
    assert_eq!(waveform_mcp::filter_signal_names(&paths, Some("top"), Some(-1)).len(), 5);
    assert_eq!(waveform_mcp::filter_signal_names(&paths, Some("top.clk_divider"), None), Vec::<String>::new());
    assert_eq!(waveform_mcp::filter_signal_names(&Vec::new(), Some("x"), Some(3)), Vec::<String>::new());
}
