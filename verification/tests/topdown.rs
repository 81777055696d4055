use mv_toolkit::extract::{parse_vm_rss_kb, ExtractorArgs};
use mv_toolkit::topdown::{build_call_tree, call_tree_html, read_topdown, TopdownError};

const REPORT: &str = "Function Stack\tCPU Time:Total\tCPU Time:Self\tModule\nTotal\t100.0\t0\t\n main\t90.0\t1.5\tapp\n  decode\t60.0\t10\tapp\n   parse<x>\t30.0\t30\tapp\n  \n  write\t20.0\t20\tapp\n idle\t10.0\t10\tapp\nother\t5\n";

#[test]
fn topdown_rows_are_read() {
    let rows = read_topdown(REPORT, true).unwrap();
    assert_eq!(rows.len(), 7);
    assert_eq!(rows[0].name, "Total");
    assert_eq!(rows[0].level, 0);
    assert_eq!(rows[1].name, "main");
    assert_eq!(rows[1].level, 1);
    assert_eq!(rows[3].name, "parse<x>");
    assert_eq!(rows[3].level, 3);
    assert_eq!(rows[3].line, 3);
    assert_eq!(rows[4].name, "write");
    assert_eq!(rows[4].line, 5);
    assert_eq!(rows[2].cpu_total, Some("60.0".to_string()));
    assert_eq!(rows[2].cpu_self, Some("10".to_string()));
    assert_eq!(rows[6].cpu_total, Some("5".to_string()));
    assert_eq!(rows[6].cpu_self, None);
}

#[test]
fn topdown_errors() {
    assert_eq!(read_topdown("", true).err(), Some(TopdownError::Empty));
    assert_eq!(read_topdown("A\tB\n", true).err(), Some(TopdownError::MissingFunctionStack));
    assert_eq!(read_topdown("Function Stack\n", true).err(), Some(TopdownError::MissingCpuTotal));
    assert_eq!(read_topdown("Function Stack\tCPU Time:Total\n", true).err(), Some(TopdownError::MissingCpuSelf));
    assert!(read_topdown("Function Stack\tCPU Time:Total\n", false).unwrap().is_empty());
    assert_eq!(TopdownError::MissingCpuSelf.message(), "Missing 'CPU Time:Self' column");
    assert_eq!(TopdownError::Empty.message(), "Empty CSV file");
}

#[test]
fn call_tree_follows_indentation() {
    let rows = read_topdown(REPORT, true).unwrap();
    let t = build_call_tree(&rows);
    assert_eq!(t.parent, vec![None, Some(0), Some(1), Some(2), Some(1), Some(0), None]);
    assert_eq!(t.roots, vec![0, 6]);
    assert_eq!(t.children[0], vec![1, 5]);
    assert_eq!(t.children[1], vec![2, 4]);
    assert_eq!(t.children[2], vec![3]);
    assert!(t.children[3].is_empty());
}

#[test]
fn call_tree_every_function_listed_once() {
    let rows = read_topdown(REPORT, true).unwrap();
    let t = build_call_tree(&rows);
    let mut seen = vec![0; rows.len()];
    for &r in &t.roots {
        seen[r] += 1;
    }
    for c in &t.children {
        for &k in c {
            seen[k] += 1;
        }
    }
    assert!(seen.iter().all(|&n| n == 1));
}

#[test]
fn call_tree_html_nests_children() {
    let report = "Function Stack\tCPU Time:Total\tCPU Time:Self\na&b\t1\t2\n \"c\"\t3\t4\n";
    let rows = read_topdown(report, true).unwrap();
    let t = build_call_tree(&rows);
    let labels = vec![("1.0".to_string(), "2.0".to_string()), ("3.0".to_string(), "4.0".to_string())];
    let html = call_tree_html(&rows, &t, &labels);
    let expected = "<li class=\"tree-node collapsed\" data-node=\"node_0\">\n  <span class=\"node-content\" onclick=\"toggleNode('node_0')\">\n    <span class=\"arrow\">></span>\n    <span class=\"name\">a&amp;b</span>\n    <span class=\"cpu-total\">1.0%</span>\n    <span class=\"cpu-self\">2.0s</span>\n  </span>\n  <ul class=\"children\" id=\"children_node_0\" style=\"display: none;\">\n<li class=\"tree-node \" data-node=\"node_1\">\n  <span class=\"node-content\" onclick=\"toggleNode('node_1')\">\n    <span class=\"arrow\"></span>\n    <span class=\"name\">&quot;c&quot;</span>\n    <span class=\"cpu-total\">3.0%</span>\n    <span class=\"cpu-self\">4.0s</span>\n  </span>\n</li>\n  </ul>\n</li>\n";
    assert_eq!(html, expected);
}

#[test]
fn extractor_args_from_the_argument_vector() {
    let argv: Vec<String> = ["x", "in.mp4", "1", "out.csv", "0", "7"].iter().map(|s| s.to_string()).collect();
    let a = ExtractorArgs::from_args(&argv).unwrap();
    assert_eq!(a.video_file, "in.mp4");
    assert!(a.do_print);
    assert_eq!(a.output_file, "out.csv");
    assert!(!a.is_verbose);
    assert!(a.is_single_threaded);
    let b: Vec<String> = ["x", "in", "yes", "o", "-1", "0"].iter().map(|s| s.to_string()).collect();
    let b = ExtractorArgs::from_args(&b).unwrap();
    assert!(!b.do_print);
    assert!(b.is_verbose);
    assert!(ExtractorArgs::from_args(&argv[..5].to_vec()).is_none());
}

#[test]
fn vm_rss_from_process_status() {
    assert_eq!(parse_vm_rss_kb("Name:\tx\nVmPeak:\t 9 kB\nVmRSS:\t   5120 kB\nVmRSS:\t1 kB\n"), 5120);
    assert_eq!(parse_vm_rss_kb("Name:\tx\n"), 0);
    assert_eq!(parse_vm_rss_kb("VmRSS: lots kB\n"), 0);
}
