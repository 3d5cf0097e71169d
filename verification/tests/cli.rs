use gooir::cli::{
    command_line, compile_input_limits, decimal_string, derive_sources_ready, parse_unsigned_text,
    positive_u64_value, positive_usize_value, raw_file_evidence_kind, reject_flags, value_paths, BuildArguments,
    Command, CompileArguments, CompileInputLimits, DocumentBudget, OutputId, USAGE,
};
use gooir::identity::{CapabilityId, PortName};

fn strings(values: &[&str]) -> Vec<String> {
    values.iter().map(|value| (*value).to_owned()).collect()
}

fn compile_args() -> Vec<String> {
    strings(&[
        "compile",
        "test.value/target@1.0.0",
        "--package",
        "package",
        "--policy",
        "policy.json",
        "--observation",
        "observation.json",
        "--attester",
        "attester.json",
        "--stdin-bytes",
        "1024",
        "--stdout-bytes",
        "2048",
        "--stderr-bytes",
        "512",
        "--timeout-ms",
        "1000",
    ])
}

fn build_args() -> Vec<String> {
    strings(&[
        "build",
        "test.generator/rust@1.0.0",
        "files",
        "--toolchain",
        "toolchain",
        "--source",
        "specs/api.bin",
        "--source-authority",
        "source-authority.json",
        "--policy",
        "policy.json",
        "--observation",
        "context.json",
        "--output",
        "generated",
        "--output-id",
        "test.generated@1.0.0",
        "--stdin-bytes",
        "1024",
        "--stdout-bytes",
        "2048",
        "--stderr-bytes",
        "512",
        "--timeout-ms",
        "1000",
    ])
}

fn test_input_limits(max_document_bytes: u64, max_total_document_bytes: u64) -> CompileInputLimits {
    CompileInputLimits {
        max_packages: 4,
        max_observations: 4,
        max_attesters: 4,
        max_documents: 9,
        max_document_bytes,
        max_total_document_bytes,
    }
}

#[test]
fn help_separates_package_planning_from_legacy_execution() {
    assert!(USAGE.contains("Compiler driver (GOOIR 0.1)"));
    assert!(USAGE.contains("Managed admitted artifact build"));
    assert!(USAGE.contains("gooir build <capability> <output-port>"));
    assert!(USAGE.contains("org.gooi.cli.evidence/raw-file-sha256@1.0.0"));
    assert!(USAGE.contains("caller-supplied untrusted claim"));
    assert!(USAGE.contains("exact copied package"));
    assert!(USAGE.contains("N must be\npositive"));
    assert!(USAGE.contains("not a new stable compile receipt protocol"));
    assert!(USAGE.contains("Package inspection and planning (GOOIR 0.1)"));
    assert!(USAGE.contains("--package DIR"));
    assert!(USAGE.contains("Legacy execution compatibility bridge"));
    assert!(USAGE.contains("not a universal provider"));
}

#[test]
fn modern_and_legacy_installation_flags_cannot_be_mixed() {
    let modern = strings(&["facts", "--pack"]);
    assert!(reject_flags(&modern, &["--pack", "--plugin"], "modern")
        .unwrap_err()
        .contains("does not accept --pack"));

    let legacy = strings(&["derive", "--package"]);
    assert!(reject_flags(&legacy, &["--package"], "legacy")
        .unwrap_err()
        .contains("does not accept --package"));
}

#[test]
fn repeated_installation_and_input_flags_keep_caller_order() {
    let args = strings(&[
        "derive",
        "result",
        "--pack",
        "one.json",
        "--from",
        "first.json",
        "--pack",
        "two.json",
        "--from",
        "second.json",
    ]);
    assert_eq!(value_paths(&args, "--pack"), ["one.json", "two.json"]);
    assert_eq!(value_paths(&args, "--from"), ["first.json", "second.json"]);
}

#[test]
fn compile_grammar_is_closed_and_limits_are_positive_singletons() {
    let parsed = CompileArguments::parse(&compile_args(), compile_input_limits()).unwrap();
    assert_eq!(parsed.packages, ["package"]);
    assert_eq!(parsed.observations, ["observation.json"]);
    assert_eq!(parsed.attesters, ["attester.json"]);
    assert_eq!(parsed.stdio_limits.max_stdin_bytes, 1024);
    assert_eq!(parsed.stdio_limits.max_stdout_bytes, 2048);
    assert_eq!(parsed.stdio_limits.max_stderr_bytes, 512);
    assert_eq!(parsed.stdio_limits.timeout_milliseconds, 1000);

    let mut trailing_attester = compile_args();
    trailing_attester.push("--attester".to_owned());
    assert!(CompileArguments::parse(&trailing_attester, compile_input_limits())
        .unwrap_err()
        .contains("--attester requires a value"));

    let mut unknown = compile_args();
    unknown.push("--unknown".to_owned());
    assert!(CompileArguments::parse(&unknown, compile_input_limits())
        .unwrap_err()
        .contains("unknown gooir compile flag"));

    let mut positional = compile_args();
    positional.push("extra".to_owned());
    assert!(CompileArguments::parse(&positional, compile_input_limits())
        .unwrap_err()
        .contains("unexpected extra gooir compile argument"));

    let mut duplicate = compile_args();
    duplicate.extend(["--timeout-ms".to_owned(), "2".to_owned()]);
    assert!(CompileArguments::parse(&duplicate, compile_input_limits())
        .unwrap_err()
        .contains("--timeout-ms exactly once"));

    let mut zero = compile_args();
    let timeout = zero.iter().position(|value| value == "--timeout-ms").unwrap();
    zero[timeout + 1] = "0".to_owned();
    assert!(CompileArguments::parse(&zero, compile_input_limits())
        .unwrap_err()
        .contains("--timeout-ms must be positive"));
}

#[test]
fn build_grammar_names_one_exact_output_and_closes_every_host_input() {
    let parsed = BuildArguments::parse(&build_args(), compile_input_limits()).unwrap();
    assert!(parsed.target.capability.same_as(&CapabilityId::new("test.generator", "rust", "1.0.0")));
    assert!(parsed.target.output_port.same_as(&PortName::parse("files".to_owned()).unwrap()));
    assert_eq!(parsed.toolchain, "toolchain");
    assert_eq!(parsed.sources, ["specs/api.bin"]);
    assert_eq!(parsed.observations, ["context.json"]);
    assert_eq!(parsed.output.id().as_str(), "test.generated@1.0.0");
    assert_eq!(parsed.output.destination(), "generated");
    assert_eq!(parsed.stdio_limits.max_stdin_bytes, 1024);
    assert_eq!(parsed.stdio_limits.max_stdout_bytes, 2048);
    assert_eq!(parsed.stdio_limits.max_stderr_bytes, 512);
    assert_eq!(parsed.stdio_limits.timeout_milliseconds, 1000);

    let mut slash_port = build_args();
    slash_port[2] = "generated/files".to_owned();
    assert!(BuildArguments::parse(&slash_port, compile_input_limits())
        .unwrap()
        .target
        .output_port
        .same_as(&PortName::parse("generated/files".to_owned()).unwrap()));

    for removed in [
        "--toolchain",
        "--source",
        "--source-authority",
        "--policy",
        "--output",
        "--output-id",
        "--stdin-bytes",
        "--stdout-bytes",
        "--stderr-bytes",
        "--timeout-ms",
    ] {
        let mut missing = build_args();
        let position = missing.iter().position(|value| value == removed).unwrap();
        missing.drain(position..=position + 1);
        let error = BuildArguments::parse(&missing, compile_input_limits()).unwrap_err();
        assert!(
            error.contains(if removed == "--source" { "at least one --source" } else { removed }),
            "{removed}: {error}"
        );
    }

    let mut duplicate = build_args();
    duplicate.extend(["--output".to_owned(), "elsewhere".to_owned()]);
    assert!(BuildArguments::parse(&duplicate, compile_input_limits())
        .unwrap_err()
        .contains("accepts --output exactly once"));
    let mut unknown = build_args();
    unknown.push("--package".to_owned());
    assert!(BuildArguments::parse(&unknown, compile_input_limits())
        .unwrap_err()
        .contains("unknown gooir build flag `--package`"));
    let mut positional = build_args();
    positional.push("extra".to_owned());
    assert!(BuildArguments::parse(&positional, compile_input_limits())
        .unwrap_err()
        .contains("unexpected extra gooir build argument"));
}

#[test]
fn compile_grammar_rejects_path_counts_before_accepting_excess_values() {
    let mut package_limited = compile_input_limits();
    package_limited.max_packages = 1;
    let mut packages = compile_args();
    packages.extend(["--package".to_owned(), "second-package".to_owned()]);
    assert!(CompileArguments::parse(&packages, package_limited)
        .unwrap_err()
        .contains("package paths exceed limit 1"));

    let mut observation_limited = compile_input_limits();
    observation_limited.max_observations = 1;
    let mut observations = compile_args();
    observations.extend(["--observation".to_owned(), "second.json".to_owned()]);
    assert!(CompileArguments::parse(&observations, observation_limited)
        .unwrap_err()
        .contains("observation documents exceed limit 1"));

    let mut aggregate_limited = compile_input_limits();
    aggregate_limited.max_documents = 3;
    let mut documents = compile_args();
    documents.extend(["--attester".to_owned(), "second.json".to_owned()]);
    assert!(CompileArguments::parse(&documents, aggregate_limited)
        .unwrap_err()
        .contains("aggregate count limit 3"));
}

#[test]
fn decimal_rendering_and_unsigned_parsing_agree() {
    assert_eq!(decimal_string(0), "0");
    assert_eq!(decimal_string(4096), "4096");
    assert_eq!(decimal_string(u64::MAX), "18446744073709551615");
    assert_eq!(parse_unsigned_text("4096", u64::MAX), Some(4096));
    assert_eq!(parse_unsigned_text("18446744073709551615", u64::MAX), Some(u64::MAX));
    assert_eq!(parse_unsigned_text("18446744073709551616", u64::MAX), None);
    assert_eq!(parse_unsigned_text("256", 255), None);
    assert_eq!(parse_unsigned_text("", u64::MAX), None);
    assert_eq!(parse_unsigned_text("+1", u64::MAX), Some(1));
    assert_eq!(parse_unsigned_text("+", u64::MAX), None);
    assert_eq!(parse_unsigned_text("-1", u64::MAX), None);
    assert_eq!(parse_unsigned_text("1a", u64::MAX), None);
}

#[test]
fn positive_values_refuse_zero_and_garbage() {
    assert_eq!(positive_usize_value("--stdin-bytes", "7"), Ok(7));
    assert!(positive_usize_value("--stdin-bytes", "0").unwrap_err().contains("--stdin-bytes must be positive"));
    assert!(positive_usize_value("--stdin-bytes", "x").is_err());
    assert_eq!(positive_u64_value("--timeout-ms", "1000"), Ok(1000));
    assert!(positive_u64_value("--timeout-ms", "0").unwrap_err().contains("--timeout-ms must be positive"));
}

#[test]
fn output_ids_are_exact_single_segment_names() {
    assert_eq!(OutputId::parse("test.generated@1.0.0").unwrap().as_str(), "test.generated@1.0.0");
    assert!(OutputId::parse("").is_err());
    assert!(OutputId::parse("no-version").is_err());
    assert!(OutputId::parse("a@b@c").is_err());
    assert!(OutputId::parse("has space@1.0.0").is_err());
    assert_eq!(
        OutputId::parse("@1.0.0").unwrap_err(),
        "`@1.0.0` is not an exact NAME@VERSION output identity"
    );
}

#[test]
fn command_lines_dispatch_and_refuse_foreign_flags() {
    assert!(matches!(command_line(&[]), Ok(Command::Help)));
    assert!(matches!(command_line(&strings(&["--help"])), Ok(Command::Help)));
    match command_line(&strings(&["facts", "--package", "a", "--package", "b"])).unwrap() {
        Command::Facts { packages } => assert_eq!(packages, ["a", "b"]),
        other => panic!("{other:?}"),
    }
    assert!(command_line(&strings(&["facts", "--plugin", "p"])).unwrap_err().contains("does not accept --plugin"));
    assert!(command_line(&strings(&["derive", "t", "--package", "p"]))
        .unwrap_err()
        .contains("does not accept --package"));
    assert_eq!(command_line(&strings(&["plan"])).unwrap_err(), "usage: gooir plan <target>");
    match command_line(&strings(&["derive", "t", "--from", "f.json", "--json"])).unwrap() {
        Command::Derive { target, sources, json, .. } => {
            assert_eq!(target, "t");
            assert_eq!(sources, ["f.json"]);
            assert!(json);
        }
        other => panic!("{other:?}"),
    }
    assert!(command_line(&strings(&["frobnicate"])).unwrap_err().starts_with("unknown command `frobnicate`"));
    assert!(matches!(command_line(&compile_args()), Ok(Command::Compile(_))));
    assert!(matches!(command_line(&build_args()), Ok(Command::Build(_))));
    assert!(derive_sources_ready(&Vec::new()).is_err());
    assert!(derive_sources_ready(&strings(&["f.json"])).is_ok());
}

#[test]
fn document_budget_counts_and_bounds_reads() {
    assert!(DocumentBudget::for_command(test_input_limits(0, 10), "build").is_err());
    let mut budget = DocumentBudget::for_command(test_input_limits(10, 15), "build").unwrap();
    assert!(budget.admit_size("dir", false, 1).unwrap_err().contains("build input must be a regular file"));
    assert_eq!(budget.admit_size("a", true, 4), Ok(10));
    assert!(budget.admit_size("a", true, 11).unwrap_err().contains("exceeds per-document limit 10"));
    budget.record("a", 8).unwrap();
    assert_eq!(budget.documents(), 1);
    assert_eq!(budget.bytes(), 8);
    assert_eq!(budget.admit_size("b", true, 7), Ok(7));
    assert!(budget.admit_size("b", true, 8).unwrap_err().contains("exceeds remaining aggregate limit 7"));
    assert!(budget.record("b", 8).is_err());
    assert_eq!(budget.bytes(), 8);
    let mut one = DocumentBudget::for_command(
        CompileInputLimits { max_documents: 1, ..test_input_limits(10, 20) },
        "compile",
    )
    .unwrap();
    one.record("a", 1).unwrap();
    assert!(one.check_slot("b").unwrap_err().contains("aggregate document count exceeds 1"));
}

#[test]
fn raw_file_evidence_kind_is_the_documented_identity() {
    assert_eq!(raw_file_evidence_kind().render(), "org.gooi.cli.evidence/raw-file-sha256@1.0.0");
}

#[test]
fn a_refused_output_port_is_shown_escaped() {
    let mut quoted = build_args();
    quoted[2] = "bad\"port\n".to_owned();
    let error = BuildArguments::parse(&quoted, compile_input_limits()).unwrap_err();
    assert_eq!(error, "invalid build output port: `bad\\\"port\\n` is not an exact port name");
}
