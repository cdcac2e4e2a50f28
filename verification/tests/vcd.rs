use tiny_verilog::engine::{Engine, Snapshot};
use tiny_verilog::test_procs::build_clock;
use tiny_verilog::vcd::{VcdWriter, HEADER, MAX_VARS, TURNAROUND};

fn strings(names: &[&str]) -> Vec<String> {
    names.iter().map(|name| name.to_string()).collect()
}

#[test]
fn header_opens_the_dump() {
    let writer = VcdWriter::new();
    assert_eq!(writer.write_header(), HEADER);
    assert!(HEADER.starts_with("$date\n"));
    assert!(HEADER.ends_with("$timescale 1ps $end\n$scope module logic $end\n"));
}

#[test]
fn variables_are_declared_under_short_names() {
    let mut writer = VcdWriter::new();
    let text = writer.declare_vars(&strings(&["clk", "a", "b"]));
    assert_eq!(
        text,
        "$var wire 32 # clk $end\n$var wire 32 $ a $end\n$var wire 32 % b $end\n$upscope $end\n$enddefinitions $end\n$dumpvars\n$end\n"
    );
    assert_eq!(TURNAROUND, "$upscope $end\n$enddefinitions $end\n$dumpvars\n$end\n");
}

#[test]
fn no_variables_are_declared_by_the_closing_text_alone() {
    let mut writer = VcdWriter::new();
    assert_eq!(writer.declare_vars(&vec![]), TURNAROUND);
}

#[test]
fn at_most_thirty_three_variables_are_declared() {
    assert_eq!(MAX_VARS, 33);
    let names: Vec<String> = (0..40).map(|i| format!("v{}", i)).collect();
    let mut writer = VcdWriter::new();
    let text = writer.declare_vars(&names);
    let lines: Vec<&str> = text.lines().collect();
    assert_eq!(lines.len(), 33);
    assert_eq!(lines[0], "$var wire 32 # v0 $end");
    assert_eq!(lines[13], "$var wire 32 0 v13 $end");
    assert_eq!(lines[32], "$var wire 32 C v32 $end");
    let mut values = vec![None; 40];
    values[32] = Some(1);
    values[33] = Some(1);
    assert_eq!(writer.dump(&names, &Snapshot { time: 3, values }), "\n#3\nb1 C\n");
}

#[test]
fn thirty_two_variables_are_closed_and_thirty_three_are_not() {
    let names: Vec<String> = (0..32).map(|i| format!("v{}", i)).collect();
    let mut writer = VcdWriter::new();
    assert!(writer.declare_vars(&names).ends_with(TURNAROUND));
    let names: Vec<String> = (0..33).map(|i| format!("v{}", i)).collect();
    let mut writer = VcdWriter::new();
    let text = writer.declare_vars(&names);
    assert!(text.ends_with("$var wire 32 C v32 $end\n"));
    assert_eq!(text.lines().count(), 33);
}

#[test]
fn a_snapshot_gives_the_values_in_binary() {
    let vars = strings(&["clk", "a", "b"]);
    let mut writer = VcdWriter::new();
    writer.declare_vars(&vars);
    assert_eq!(
        writer.dump(&vars, &Snapshot { time: 15, values: vec![Some(1), None, Some(10)] }),
        "\n#15\nb1 #\nb1010 %\n"
    );
    assert_eq!(
        writer.dump(&vars, &Snapshot { time: 0, values: vec![Some(0)] }),
        "\n#0\nb0 #\n"
    );
    assert_eq!(writer.dump(&vars, &Snapshot { time: 7, values: vec![] }), "\n#7\n");
}

#[test]
fn a_variable_that_was_not_declared_is_left_out() {
    let mut writer = VcdWriter::new();
    writer.declare_vars(&strings(&["a"]));
    assert_eq!(
        writer.dump(
            &strings(&["b", "a"]),
            &Snapshot { time: 1, values: vec![Some(2), Some(3)] }
        ),
        "\n#1\nb11 #\n"
    );
}

#[test]
fn a_run_of_the_clock_as_a_dump() {
    let mut engine = Engine::new();
    engine.add_proc(build_clock(5, 1));
    assert_eq!(engine.init(), Ok(()));
    let mut writer = VcdWriter::new();
    let mut text = writer.declare_vars(engine.identifiers());
    let report = engine.run();
    for snapshot in &report.snapshots {
        text.push_str(&writer.dump(engine.identifiers(), snapshot));
    }
    assert_eq!(
        text,
        "$var wire 32 # clk $end\n$upscope $end\n$enddefinitions $end\n$dumpvars\n$end\n\n#0\n\n#0\nb0 #\n\n#5\nb1 #\n\n#10\nb0 #\n\n#10\nb0 #\n"
    );
}
