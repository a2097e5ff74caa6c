use optparse::Fail::{DuplicatedArgument, MissingArgument, UnexpectedArgument, UnknownArgument};
use optparse::{ArgVal, OptParser};

fn strings(v: &[&str]) -> Vec<String> {
    v.iter().map(|s| s.to_string()).collect()
}

#[test]
fn test_long() {
    let long_args = vec!("--test=20".to_string());
    let mut opts = OptParser::new();
    opts.add_optional_arg("t", "test", "test times", "=times");
    let m = opts.parse_arguments(long_args).unwrap();
    let ret = m.get_val("test").unwrap();
    assert_eq!(ret, "20");
}

#[test]
fn test_short() {
    let short_args = vec!("-t".to_string(), "20".to_string());
    let mut opts = OptParser::new();
    opts.add_optional_arg("t", "test", "test times", "=times");
    let m = opts.parse_arguments(short_args).unwrap();
    let ret = m.get_val("test").unwrap();
    assert_eq!(ret, "20");
}

#[test]
fn test_report_missing() {
    let args = vec!("--test=20".to_string());
    let mut opts = OptParser::new();
    opts.add_optional_arg("t", "test", "test times", "=times");
    opts.add_necessary_flag("i", "index", "include mode");
    match opts.parse_arguments(args) {
        Err(MissingArgument(nm)) => {
            println!("missing argument: {}", nm);
        }
        _ => panic!("is not missing argument"),
    }
}

#[test]
fn test_report_unknown() {
    let args = vec!("-i".to_string());
    let mut opts = OptParser::new();
    opts.add_optional_arg("t", "test", "test times", "=times");
    match opts.parse_arguments(args) {
        Err(UnknownArgument(nm)) => {
            println!("unknown argument: {}", nm);
        }
        _ => panic!("is not unknown argument"),
    }
}

#[test]
fn test_report_duplicated() {
    let args = vec!("-t".to_string(), "20".to_string(), "-t".to_string(), "15".to_string());
    let mut opts = OptParser::new();
    opts.add_optional_arg("t", "test", "test times", "=times");
    match opts.parse_arguments(args) {
        Err(DuplicatedArgument(nm)) => {
            println!("duplicated argument: {}", nm);
        }
        _ => panic!("is not duplicated argument"),
    }
}

#[test]
fn test_report_unexpected() {
    let args = vec!("--test=20".to_string());
    let mut opts = OptParser::new();
    opts.add_optional_flag("t", "test", "run test");
    match opts.parse_arguments(args) {
        Err(UnexpectedArgument(nm)) => {
            println!("unexpected argument: {}", nm);
        }
        _ => panic!("is not unexpected argument"),
    }

    let args = vec!("-t".to_string(), "20".to_string(), "file".to_string());
    let mut opts = OptParser::new();
    opts.choose_strict_style().add_optional_arg("t", "test", "test time", "=times");
    match opts.parse_arguments(args) {
        Err(UnexpectedArgument(nm)) => {
            println!("unexpected argument: {}", nm);
        }
        _ => panic!("is not unexpected argument"),
    }

    let args = vec!("-t".to_string());
    let mut opts = OptParser::new();
    opts.add_optional_arg("t", "test", "test times", "=times");
    match opts.parse_arguments(args) {
        Err(UnexpectedArgument(nm)) => {
            println!("unexpected argument: {}", nm);
        }
        _ => panic!("is not missing argument"),
    }
}

#[test]
fn test_usage() {
    let mut opts = OptParser::new();
    opts.add_optional_arg("t", "test", "Specifies the test times", "TIMES");
    opts.add_optional_arg("f", "file", "Specifies the input file", "");
    opts.add_optional_arg("", "sdk", "Specifies the sdk path", "sdk_path");
    println!("{}", opts.usage("this software arguments:"));
}

#[test]
fn usage_lines_are_aligned() {
    let mut opts = OptParser::new();
    opts.add_optional_arg("t", "test", "Specifies the test times", "TIMES");
    opts.add_optional_arg("f", "file", "Specifies the input file", "");
    opts.add_optional_arg("", "sdk", "Specifies the sdk path", "sdk_path");
    opts.add_optional_flag("v", "", "Verbose");
    opts.add_argument("o", "out", "FILE", "Output", optparse::HasArg::May, optparse::Occur::Opt);
    let text = opts.usage("this software arguments:");
    let expected = format!(
        "this software arguments:\n\nOptions:\n{}\n{}\n{}\n{}\n{}\n",
        format!("    -t  --test  TIMES\n{}Specifies the test times", " ".repeat(24)),
        format!("    -f  --file  {}Specifies the input file", " ".repeat(8)),
        format!("    --sdk  sdk_path{}Specifies the sdk path", " ".repeat(5)),
        format!("    -v  {}Verbose", " ".repeat(16)),
        format!("    -o  --out  [FILE]\n{}Output", " ".repeat(24)),
    );
    assert_eq!(text, expected);
    let rows = opts.usage_items();
    assert_eq!(rows.len(), 5);
    let joined = opts.usage_with_format(|rows| rows.join("|"));
    assert_eq!(joined, rows.join("|"));
}

#[test]
fn inline_and_separate_values_agree() {
    let mut opts = OptParser::new();
    opts.add_necessary_arg("n", "name", "a name", "NAME");
    let a = opts.parse_arguments(strings(&["--name=value"])).unwrap();
    let b = opts.parse_arguments(strings(&["--name", "value"])).unwrap();
    assert_eq!(a.get_val("name"), Some("value".to_string()));
    assert_eq!(b.get_val("name"), Some("value".to_string()));
    assert_eq!(a.get_val("n"), b.get_val("n"));
}

#[test]
fn clustered_flags_match_separate_flags() {
    let mut opts = OptParser::new();
    opts.add_optional_flag("a", "", "a");
    opts.add_optional_flag("b", "", "b");
    opts.add_optional_flag("c", "", "c");
    opts.add_optional_flag("d", "", "d");
    let joined = opts.parse_arguments(strings(&["-abc"])).unwrap();
    let apart = opts.parse_arguments(strings(&["-a", "-b", "-c"])).unwrap();
    for n in ["a", "b", "c", "d"] {
        assert_eq!(joined.get_flag(n), apart.get_flag(n));
    }
    assert!(joined.get_flag("a") && joined.get_flag("b") && joined.get_flag("c"));
    assert!(!joined.get_flag("d"));
}

#[test]
fn missing_exactly_once_option() {
    let mut opts = OptParser::new();
    opts.add_optional_arg("t", "test", "test times", "=times");
    opts.add_necessary_flag("i", "index", "include mode");
    let r = opts.parse_arguments(strings(&["--test=20"]));
    assert!(matches!(r, Err(MissingArgument(ref s)) if s == " --index  -i "));
    let ok = opts.parse_arguments(strings(&["-i"])).unwrap();
    assert!(ok.get_flag("index"));
    assert!(!ok.get_flag("test"));
}

#[test]
fn at_most_once_twice_is_duplicated() {
    let mut opts = OptParser::new();
    opts.add_optional_arg("t", "test", "test times", "=times");
    let r = opts.parse_arguments(strings(&["-t", "20", "-t", "15"]));
    assert!(matches!(r, Err(DuplicatedArgument(ref s)) if s == " --test  -t "));
    let once = opts.parse_arguments(strings(&["-t", "20"])).unwrap();
    assert_eq!(once.get_val("t"), Some("20".to_string()));
    let none = opts.parse_arguments(strings(&[])).unwrap();
    assert_eq!(none.get_val("t"), None);
    assert!(!none.get_flag("t"));
}

#[test]
fn exactly_once_twice_is_duplicated() {
    let mut opts = OptParser::new();
    opts.add_necessary_arg("", "path", "a path", "P");
    let r = opts.parse_arguments(strings(&["--path", "a", "--path=b"]));
    assert!(matches!(r, Err(DuplicatedArgument(ref s)) if s == " --path "));
}

#[test]
fn optional_value_capture() {
    let mut opts = OptParser::new();
    opts.add_argument("o", "opt", "V", "maybe a value", optparse::HasArg::May, optparse::Occur::Multi);
    opts.add_optional_flag("x", "", "x");
    let t = opts.parse_arguments(strings(&["-o", "-x", "-o", "v", "-o"])).unwrap();
    let vals = t.get_vals("opt");
    assert_eq!(vals.len(), 3);
    assert!(matches!(vals[0], ArgVal::Given));
    assert!(matches!(vals[1], ArgVal::Val(ref s) if s == "v"));
    assert!(matches!(vals[2], ArgVal::Given));
    assert_eq!(t.get_val("o"), None);
    assert_eq!(t.free, Some(Vec::<String>::new()));
    let u = opts.parse_arguments(strings(&["--opt=w"])).unwrap();
    assert_eq!(u.get_val("opt"), Some("w".to_string()));
}

#[test]
fn strict_and_free_styles() {
    let mut opts = OptParser::new();
    opts.add_optional_flag("v", "verbose", "v");
    let t = opts.parse_arguments(strings(&["one", "-v", "two"])).unwrap();
    assert_eq!(t.free, Some(strings(&["one", "two"])));
    opts.choose_strict_style();
    let r = opts.parse_arguments(strings(&["-v", "one"]));
    assert!(matches!(r, Err(UnexpectedArgument(ref s)) if s == "one"));
    let lone_dash = opts.parse_arguments(strings(&["-"]));
    assert!(matches!(lone_dash, Err(UnexpectedArgument(ref s)) if s == "-"));
    opts.choose_free_style();
    let back = opts.parse_arguments(strings(&["-"])).unwrap();
    assert_eq!(back.free, Some(strings(&["-"])));
}

#[test]
fn double_dash_ends_options() {
    let mut opts = OptParser::new();
    opts.choose_strict_style();
    opts.add_optional_flag("v", "verbose", "v");
    let t = opts.parse_arguments(strings(&["-v", "--", "-v", "--x=1", "plain"])).unwrap();
    assert_eq!(t.free, Some(strings(&["-v", "--x=1", "plain"])));
    assert!(t.get_flag("verbose"));
}

#[test]
fn scenario_long_value() {
    let mut opts = OptParser::new();
    opts.add_optional_arg("t", "test", "test times", "=times");
    let t = opts.parse_arguments(strings(&["--test=20"])).unwrap();
    assert_eq!(t.get_val("test"), Some("20".to_string()));
    assert_eq!(t.free, Some(Vec::<String>::new()));
}

#[test]
fn scenario_unknown_short() {
    let mut opts = OptParser::new();
    opts.add_optional_arg("t", "test", "test times", "=times");
    let r = opts.parse_arguments(strings(&["-i"]));
    assert!(matches!(r, Err(UnknownArgument(ref s)) if s == "i"));
    let r = opts.parse_arguments(strings(&["--nope"]));
    assert!(matches!(r, Err(UnknownArgument(ref s)) if s == "nope"));
}

#[test]
fn flag_with_inline_value_is_unexpected() {
    let mut opts = OptParser::new();
    opts.add_optional_flag("t", "test", "run test");
    let r = opts.parse_arguments(strings(&["--test=20"]));
    assert!(matches!(r, Err(UnexpectedArgument(ref s)) if s == "test"));
    let r = opts.parse_arguments(strings(&["--t=1"]));
    assert!(matches!(r, Err(UnexpectedArgument(ref s)) if s == "t"));
}

#[test]
fn required_value_at_end_is_unexpected() {
    let mut opts = OptParser::new();
    opts.add_multi_arg("I", "include", "include dir", "DIR");
    let r = opts.parse_arguments(strings(&["-I", "a", "--include", "-x", "-I"]));
    assert!(matches!(r, Err(UnexpectedArgument(ref s)) if s == "I"));
    let t = opts.parse_arguments(strings(&["-I", "a", "--include", "-x", "--include==b"])).unwrap();
    let vals = t.get_vals("I");
    let texts: Vec<String> = vals
        .iter()
        .map(|v| match v {
            ArgVal::Val(s) => s.clone(),
            ArgVal::Given => String::new(),
        })
        .collect();
    assert_eq!(texts, strings(&["a", "-x", "=b"]));
}

#[test]
fn failure_messages() {
    let e = MissingArgument(" --index  -i ".to_string());
    assert_eq!(e.description(), "missing argument");
    assert_eq!(e.to_string(), "missing argument:  --index  -i .\n");
    assert_eq!(UnknownArgument("i".to_string()).to_string(), "unknown argument: i.\n");
    assert_eq!(DuplicatedArgument("x".to_string()).description(), "duplicated argument");
    assert_eq!(UnexpectedArgument("y".to_string()).to_string(), "unexpected argument: y.\n");
}
