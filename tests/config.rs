use rust_enum_derive::batch::{config_job, is_config_extension};
use rust_enum_derive::cli::{check_args, Args, UsageError};
use rust_enum_derive::config::{file_args_from_document, parse_config, ConfigError, ConfigValue};
use rust_enum_derive::FileArgs;

fn entry(k: &str, v: ConfigValue) -> (String, ConfigValue) {
    (String::from(k), v)
}

fn section(entries: Vec<(String, ConfigValue)>) -> Vec<(String, ConfigValue)> {
    vec![entry("rust-enum-derive", ConfigValue::Table(entries))]
}

#[test]
fn document_settings_fill_the_arguments() {
    let doc = section(vec![
        entry("name", ConfigValue::Str(String::from("Netlink"))),
        entry("derive", ConfigValue::Str(String::from("Debug"))),
        entry("define", ConfigValue::Bool(true)),
        entry("hex", ConfigValue::Bool(true)),
        entry("pretty_fmt", ConfigValue::Bool(false)),
        entry("unrelated", ConfigValue::Other),
    ]);
    let fa = file_args_from_document(&doc).unwrap();
    assert_eq!(fa.name.as_deref(), Some("Netlink"));
    assert_eq!(fa.derive.as_deref(), Some("Debug"));
    assert!(fa.define && fa.hex);
    assert!(!fa.default && !fa.display && !fa.fromstr && !fa.fromprimative && !fa.pretty_fmt);
}

#[test]
fn empty_section_gives_defaults() {
    let fa = file_args_from_document(&section(Vec::new())).unwrap();
    assert!(fa.name.is_none() && fa.derive.is_none() && !fa.define);
}

#[test]
fn document_errors() {
    let none: Vec<(String, ConfigValue)> = vec![entry("other", ConfigValue::Bool(true))];
    assert_eq!(file_args_from_document(&none).unwrap_err(), ConfigError::MissingSection);
    let flat = vec![entry("rust-enum-derive", ConfigValue::Bool(true))];
    assert_eq!(file_args_from_document(&flat).unwrap_err(), ConfigError::SectionNotTable);
    let bad_name = section(vec![entry("name", ConfigValue::Bool(true))]);
    assert_eq!(
        file_args_from_document(&bad_name).unwrap_err(),
        ConfigError::NotAString(String::from("name"))
    );
    let bad_hex = section(vec![
        entry("hex", ConfigValue::Str(String::from("yes"))),
        entry("define", ConfigValue::Bool(true)),
    ]);
    assert_eq!(
        file_args_from_document(&bad_hex).unwrap_err(),
        ConfigError::NotABool(String::from("hex"))
    );
}

#[test]
fn configuration_files_are_found_by_extension() {
    let job = config_job("netlink.toml").unwrap();
    assert_eq!(job.stem, "netlink");
    assert_eq!(job.input_name, "netlink.in");
    assert_eq!(job.output_name, "netlink.rs");
    let upper = config_job("Flags.TOML").unwrap();
    assert_eq!(upper.input_name, "Flags.in");
    let dotted = config_job("a.b.toml").unwrap();
    assert_eq!(dotted.stem, "a.b");
    assert!(config_job("netlink.in").is_none());
    assert!(config_job("b.txt").is_none());
    assert!(config_job("b.Toml").is_some());
    assert!(config_job(".toml").is_none());
    assert!(config_job("toml").is_none());
    assert!(config_job("x.toml.bak").is_none());
}

#[test]
fn only_lowered_toml_marks_a_configuration() {
    assert!(is_config_extension("toml"));
    assert!(!is_config_extension("TOML"));
    assert!(!is_config_extension("tom"));
}

#[test]
fn argument_combinations() {
    let s = || Some(String::from("x"));
    assert_eq!(check_args(&Args::default()), Ok(()));
    assert_eq!(check_args(&Args { input: s(), output: s(), ..Args::default() }), Ok(()));
    assert_eq!(check_args(&Args { input_dir: s(), output_dir: s(), ..Args::default() }), Ok(()));
    assert_eq!(
        check_args(&Args { input: s(), input_dir: s(), output_dir: s(), ..Args::default() }),
        Err(UsageError::InputAndInputDir)
    );
    assert_eq!(
        check_args(&Args { output: s(), output_dir: s(), ..Args::default() }),
        Err(UsageError::OutputAndOutputDir)
    );
    assert_eq!(
        check_args(&Args { input_dir: s(), ..Args::default() }),
        Err(UsageError::InputDirWithoutOutputDir)
    );
}

#[test]
fn enable_all_keeps_the_other_settings() {
    let mut fa = FileArgs { hex: true, name: Some(String::from("K")), ..FileArgs::default() };
    fa.enable_all();
    assert!(fa.default && fa.display && fa.fromprimative && fa.fromstr && fa.pretty_fmt);
    assert!(fa.hex && !fa.define);
    assert_eq!(fa.name.as_deref(), Some("K"));
}

#[test]
fn toml_text_is_read_into_arguments() {
    let text = "[rust-enum-derive]\nname = \"Netlink\"\ndefine = true\nhex = true\n";
    let fa = parse_config(text).unwrap();
    assert_eq!(fa.name.as_deref(), Some("Netlink"));
    assert!(fa.define && fa.hex && !fa.display);
    assert_eq!(parse_config("not = [toml").unwrap_err(), ConfigError::Syntax);
    assert_eq!(parse_config("other = 1\n").unwrap_err(), ConfigError::MissingSection);
    assert_eq!(parse_config("rust-enum-derive = 1\n").unwrap_err(), ConfigError::SectionNotTable);
    assert_eq!(
        parse_config("[rust-enum-derive]\ndisplay = \"yes\"\n").unwrap_err(),
        ConfigError::NotABool(String::from("display"))
    );
    assert_eq!(
        parse_config("[rust-enum-derive]\nderive = 3\n").unwrap_err(),
        ConfigError::NotAString(String::from("derive"))
    );
    let nested = "[rust-enum-derive]\nfromstr = true\n[rust-enum-derive.inner]\nx = 1\n";
    assert!(parse_config(nested).unwrap().fromstr);
}
