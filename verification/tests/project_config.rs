use ish::lang::config::{config_has_bad_item, parse_bool_exec, parse_config_str, parse_usize_exec, IshConfig};

const INIT_FILE: &str = "[Project]
Name: \"MyProject\";
Version: \"1.0.0\";
Author: \"Unknown\";
Entry-File: \"Main.ish\";
Entry-Class: \"Program\";
Entry-Method: \"Main\";
With-Args: true;
Verbose: false;
DotEnv: false;

[Configuration]
Max-Memory-Threshold: 100;
Max-variables: 1000;
Array-Size-Limit: 5000;
Map-Size-Limit: 5000;
";

#[test]
fn defaults() {
    let c = IshConfig::default();
    assert_eq!(c.project.name, "Ish-Project");
    assert_eq!(c.project.version, "1.0.0");
    assert_eq!(c.project.author, "Unknown");
    assert_eq!(c.project.readme, None);
    assert_eq!(c.project.entry_file, "Main.ish");
    assert_eq!(c.project.entry_class, "Program");
    assert_eq!(c.project.entry_method, "Main");
    assert!(c.project.with_args);
    assert!(c.project.include_dirs.is_empty());
    assert!(!c.project.verbose);
    assert!(!c.project.dotenv);
    assert_eq!(c.interpreter.array_size_limit, 1024);
    assert_eq!(c.interpreter.list_size_limit, 1024);
    assert_eq!(c.interpreter.map_size_limit, 1024);
    assert_eq!(c.interpreter.string_length_limit, 1024);
    assert_eq!(c.interpreter.max_variables, 1024);
    assert_eq!(c.interpreter.max_memory_threshold_mb, 128);
}

#[test]
fn reads_the_init_file() {
    let c = parse_config_str(INIT_FILE).unwrap();
    assert_eq!(c.project.name, "MyProject");
    assert_eq!(c.project.entry_file, "Main.ish");
    assert!(c.project.with_args);
    assert!(!c.project.verbose);
    assert_eq!(c.interpreter.max_memory_threshold_mb, 100);
    assert_eq!(c.interpreter.max_variables, 1000);
    assert_eq!(c.interpreter.array_size_limit, 5000);
    assert_eq!(c.interpreter.map_size_limit, 5000);
    assert_eq!(c.interpreter.list_size_limit, 1024);
}

#[test]
fn include_items_and_comments() {
    let text = "// project file\nName: Demo // trailing\nInclude:\n  - \"lib/**\";\n  - src\n[Configuration]\n- ignored\n";
    let c = parse_config_str(text).unwrap();
    assert_eq!(c.project.name, "Demo");
    assert_eq!(c.project.include_dirs, vec!["lib/**".to_string(), "src".to_string()]);
}

#[test]
fn items_outside_include_are_ignored() {
    let c = parse_config_str("Other:\n- a\n").unwrap();
    assert!(c.project.include_dirs.is_empty());
    let c = parse_config_str("- a\n").unwrap();
    assert!(c.project.include_dirs.is_empty());
}

#[test]
fn flags_fall_back_to_defaults() {
    let c = parse_config_str("With-Args: maybe\nVerbose: yes\nDotEnv: true\nReadme: \"README.md\"\n").unwrap();
    assert!(c.project.with_args);
    assert!(!c.project.verbose);
    assert!(c.project.dotenv);
    assert_eq!(c.project.readme, Some("README.md".to_string()));
    let c = parse_config_str("With-Args: false\n").unwrap();
    assert!(!c.project.with_args);
}

#[test]
fn limits_need_numbers() {
    let c = parse_config_str("[Configuration]\nArray-Size-Limit: +7\nList-Size-Limit: -1\nMap-Size-Limit: 12x\nMax-variables: 99999999999999999999999999\nString-Length-Limit: 64\n").unwrap();
    assert_eq!(c.interpreter.array_size_limit, 7);
    assert_eq!(c.interpreter.list_size_limit, 1024);
    assert_eq!(c.interpreter.map_size_limit, 1024);
    assert_eq!(c.interpreter.max_variables, 1024);
    assert_eq!(c.interpreter.string_length_limit, 64);
}

#[test]
fn sections_and_unknown_keys() {
    let c = parse_config_str("[ Configuration ]\nName: X\nMax-Memory-Threshold: 5\n[Other]\nMax-Memory-Threshold: 6\n").unwrap();
    assert_eq!(c.project.name, "Ish-Project");
    assert_eq!(c.interpreter.max_memory_threshold_mb, 5);
}

#[test]
fn crlf_lines() {
    let c = parse_config_str("Name: \"Win\"\r\nAuthor: Me\r\n").unwrap();
    assert_eq!(c.project.name, "Win");
    assert_eq!(c.project.author, "Me");
}

#[test]
fn number_and_flag_reading() {
    let v = |s: &str| s.chars().collect::<Vec<char>>();
    assert_eq!(parse_usize_exec(&v("42")), Some(42));
    assert_eq!(parse_usize_exec(&v("+0")), Some(0));
    assert_eq!(parse_usize_exec(&v("+")), None);
    assert_eq!(parse_usize_exec(&v("")), None);
    assert_eq!(parse_usize_exec(&v("4 2")), None);
    assert_eq!(parse_usize_exec(&v("18446744073709551615")), Some(18446744073709551615));
    assert_eq!(parse_usize_exec(&v("18446744073709551616")), None);
    assert_eq!(parse_bool_exec(&v("true")), Some(true));
    assert_eq!(parse_bool_exec(&v("false")), Some(false));
    assert_eq!(parse_bool_exec(&v("True")), None);
}

#[test]
fn lone_quote_items_are_detected() {
    assert!(config_has_bad_item("Include:\n- \"\n"));
    assert!(config_has_bad_item("Include:\n- \";\n"));
    assert!(!config_has_bad_item("Include:\n- \"\"\n"));
    assert!(!config_has_bad_item("- \"\n"));
    assert!(!config_has_bad_item(INIT_FILE));
    let c = parse_config_str("Include:\n- \"\"\n").unwrap();
    assert_eq!(c.project.include_dirs, vec![String::new()]);
}
