use powerflow::process_energy::parse_top_output;

#[test]
fn parses_the_final_sample_frame() {
    let text = "\
Processes: 500 total
PID    COMMAND          POWER
1      launchd          0.0
2      kernel_task      0.0

Processes: 500 total
PID    COMMAND          POWER
608    WindowServer     37.1
57345  Code Helper (Ren 21.8
41538  top              5.2
";
    let rows = parse_top_output(text);
    assert_eq!(rows.len(), 2, "top itself and zero-impact rows are dropped");
    assert_eq!(rows[0].pid, 608);
    assert_eq!(rows[0].name, "WindowServer");
    assert!((rows[0].power.parse::<f32>().unwrap() - 37.1).abs() < f32::EPSILON);
    assert_eq!(rows[1].name, "Code Helper (Ren");
}

#[test]
fn tolerates_unusable_output() {
    assert!(parse_top_output("").is_empty());
    assert!(parse_top_output("no header here").is_empty());
    assert!(parse_top_output("PID COMMAND POWER\n").is_empty());
}

#[test]
fn rows_need_a_numeric_pid_and_three_words() {
    let rows = parse_top_output("PID COMMAND POWER\nabc x 1.0\n12 onlytwo\n-7 a  b\t c 3\r\n99999999999 big 1.0\n");
    assert_eq!(rows.len(), 1);
    assert_eq!(rows[0].pid, -7);
    assert_eq!(rows[0].name, "a b c");
    assert_eq!(rows[0].power, "3");
}
