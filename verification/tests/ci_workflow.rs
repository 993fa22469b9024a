use localtools::ci::error::CiError;
use localtools::ci::workflow::{
    expand_matrix_string, flatten_workflows, logical_lines, parse_matrix, parse_needs,
    parse_workflow_text, validate_nix_only, workflow_file_names, workflows_dir, Workflow,
    WorkflowJob,
};
use localtools::ci::yaml::Yaml;

/// The library's form of a YAML value read by serde_yaml.
fn convert(v: &serde_yaml::Value) -> Yaml {
    match v {
        serde_yaml::Value::Null => Yaml::Null,
        serde_yaml::Value::Bool(b) => Yaml::Bool(*b),
        serde_yaml::Value::Number(n) => Yaml::Number(n.to_string()),
        serde_yaml::Value::String(s) => Yaml::String(s.clone()),
        serde_yaml::Value::Sequence(xs) => Yaml::Sequence(xs.iter().map(convert).collect()),
        serde_yaml::Value::Mapping(m) => {
            Yaml::Mapping(m.iter().map(|(k, x)| (convert(k), convert(x))).collect())
        }
        serde_yaml::Value::Tagged(t) => Yaml::Tagged(t.tag.to_string(), Box::new(convert(&t.value))),
    }
}

fn doc(text: &str) -> Yaml {
    convert(&serde_yaml::from_str::<serde_yaml::Value>(text).unwrap())
}

fn parse_workflow(text: &str, origin: &str) -> Result<Workflow, CiError> {
    parse_workflow_text(text, origin)
}

fn detail(e: CiError) -> String {
    match e {
        CiError::ConfigValidation { detail } => detail,
        other => panic!("unexpected: {other:?}"),
    }
}

#[test]
fn parse_simple_workflow() {
    let yaml = r#"
name: "CI"
on: push
jobs:
  build:
    runs-on: ubuntu-latest
    steps:
      - uses: actions/checkout@v4
      - name: Build
        run: nix build -L .#default
"#;
    let workflow = parse_workflow(yaml, "test.yml").unwrap();
    assert_eq!(workflow.name, "CI");
    assert_eq!(workflow.jobs.len(), 1);
    assert_eq!(workflow.jobs[0].name, "build");
    assert_eq!(workflow.jobs[0].steps.len(), 1);
    assert_eq!(workflow.jobs[0].steps[0].name, "Build");
    assert!(workflow.jobs[0].steps[0].run.contains("nix build"));
}

#[test]
fn parse_workflow_with_needs() {
    let yaml = r#"
name: "CI"
on: push
jobs:
  lint:
    runs-on: ubuntu-latest
    steps:
      - uses: actions/checkout@v4
      - name: Lint
        run: nix build -L .#checks.x86_64-linux.lint
  test:
    needs: lint
    runs-on: ubuntu-latest
    steps:
      - uses: actions/checkout@v4
      - name: Test
        run: nix build -L .#checks.x86_64-linux.test
"#;
    let workflow = parse_workflow(yaml, "test.yml").unwrap();
    assert_eq!(workflow.jobs.len(), 2);
    assert!(workflow.jobs[0].needs.is_empty());
    assert_eq!(workflow.jobs[1].needs, vec!["lint"]);
}

#[test]
fn parse_workflow_with_needs_list() {
    let yaml = r#"
name: "CI"
on: push
jobs:
  a:
    runs-on: ubuntu-latest
    steps:
      - name: A
        run: nix build .#a
  b:
    runs-on: ubuntu-latest
    steps:
      - name: B
        run: nix build .#b
  c:
    needs: [a, b]
    runs-on: ubuntu-latest
    steps:
      - name: C
        run: nix build .#c
"#;
    let workflow = parse_workflow(yaml, "test.yml").unwrap();
    let c = workflow.jobs.iter().find(|j| j.job_id == "c").unwrap();
    assert_eq!(c.needs, vec!["a", "b"]);
}

#[test]
fn parse_matrix_expansion() {
    let yaml = r#"
name: "CI"
on: push
jobs:
  test:
    name: "Test ${{ matrix.check }}"
    runs-on: ubuntu-latest
    strategy:
      matrix:
        check:
          - unit
          - integration
          - lint
    steps:
      - uses: actions/checkout@v4
      - name: Run check
        run: nix build -L .#checks.x86_64-linux.${{ matrix.check }}
"#;
    let workflow = parse_workflow(yaml, "test.yml").unwrap();
    assert_eq!(workflow.jobs.len(), 3);
    assert_eq!(workflow.jobs[0].name, "Test unit");
    assert_eq!(workflow.jobs[1].name, "Test integration");
    assert_eq!(workflow.jobs[2].name, "Test lint");
    assert!(workflow.jobs[0].steps[0].run.contains(".#checks.x86_64-linux.unit"));
    assert!(workflow.jobs[2].steps[0].run.contains(".#checks.x86_64-linux.lint"));
    assert_eq!(workflow.jobs[1].job_id, "test (integration)");
}

#[test]
fn reject_non_nix_command() {
    let yaml = r#"
name: "CI"
on: push
jobs:
  build:
    runs-on: ubuntu-latest
    steps:
      - name: Bad step
        run: cargo build --release
"#;
    let result = parse_workflow(yaml, "test.yml");
    assert!(result.is_err());
    let err = detail(result.unwrap_err());
    assert!(err.contains("does not start with 'nix'"), "got: {err}");
    assert_eq!(
        err,
        "job 'build', step 0: run command does not start with 'nix': 'cargo build --release' (in test.yml). ci-local only supports nix commands."
    );
}

#[test]
fn uses_steps_are_skipped() {
    let yaml = r#"
name: "CI"
on: push
jobs:
  build:
    runs-on: ubuntu-latest
    steps:
      - uses: actions/checkout@v4
      - uses: DeterminateSystems/nix-installer-action@main
      - name: Build
        run: nix build -L .#default
"#;
    let workflow = parse_workflow(yaml, "test.yml").unwrap();
    assert_eq!(workflow.jobs[0].steps.len(), 1);
    assert_eq!(workflow.jobs[0].steps[0].name, "Build");
}

#[test]
fn multiline_continuation_nix_command() {
    let yaml = r#"
name: "CI"
on: push
jobs:
  lint:
    runs-on: ubuntu-latest
    steps:
      - name: Lint
        run: |
          nix build -L \
            .#checks.x86_64-linux.lint-deadnix \
            .#checks.x86_64-linux.lint-statix
"#;
    let workflow = parse_workflow(yaml, "test.yml").unwrap();
    assert_eq!(workflow.jobs[0].steps.len(), 1);
}

#[test]
fn reject_mixed_nix_and_non_nix() {
    let yaml = r#"
name: "CI"
on: push
jobs:
  build:
    runs-on: ubuntu-latest
    steps:
      - name: Mixed
        run: |
          nix build .#foo
          echo "done"
"#;
    let result = parse_workflow(yaml, "test.yml");
    assert!(result.is_err());
}

#[test]
fn matrix_needs_are_preserved() {
    let yaml = r#"
name: "CI"
on: push
jobs:
  fast:
    runs-on: ubuntu-latest
    steps:
      - name: Fast
        run: nix build .#fast
  checks:
    needs: fast
    runs-on: ubuntu-latest
    strategy:
      matrix:
        check: [a, b]
    steps:
      - name: Check
        run: nix build .#checks.x86_64-linux.${{ matrix.check }}
"#;
    let workflow = parse_workflow(yaml, "test.yml").unwrap();
    assert_eq!(workflow.jobs.len(), 3);
    for job in &workflow.jobs[1..] {
        assert_eq!(job.needs, vec!["fast"]);
    }
}

#[test]
fn workflow_name_defaults_to_filename() {
    let yaml = r#"
on: push
jobs:
  build:
    runs-on: ubuntu-latest
    steps:
      - name: Build
        run: nix build .#pkg
"#;
    let workflow = parse_workflow(yaml, "my-ci.yml").unwrap();
    assert_eq!(workflow.name, "my-ci");
}

#[test]
fn nix_run_command_accepted() {
    let yaml = r#"
name: "CI"
on: push
jobs:
  examples:
    runs-on: ubuntu-latest
    steps:
      - name: Check examples
        run: nix run -L .#check-examples
"#;
    let workflow = parse_workflow(yaml, "test.yml").unwrap();
    assert_eq!(workflow.jobs[0].steps.len(), 1);
    assert!(workflow.jobs[0].steps[0].run.contains("nix run"));
}

#[test]
fn parse_repx_workflow() {
    let yaml = r#"
name: "Nix Build and Test"
on:
  push:
    branches: [ "main" ]
jobs:
  fast-checks:
    name: Fast Checks
    runs-on: ubuntu-latest
    steps:
      - uses: actions/checkout@v4
      - uses: DeterminateSystems/nix-installer-action@main
      - name: Run Fast Checks
        run: |
          nix build -L \
            .#checks.x86_64-linux.lint-deadnix \
            .#checks.x86_64-linux.lint-statix \
            .#checks.x86_64-linux.lint-formatting
  checks:
    name: Check ${{ matrix.check }}
    needs: fast-checks
    runs-on: ubuntu-latest
    strategy:
      fail-fast: false
      matrix:
        check:
          - unit-tests
          - integration
    steps:
      - uses: actions/checkout@v4
      - uses: DeterminateSystems/nix-installer-action@main
      - name: Run Check
        run: nix build -L .#checks.x86_64-linux.${{ matrix.check }}
  example-checks:
    name: Example Checks
    needs: fast-checks
    runs-on: ubuntu-latest
    steps:
      - uses: actions/checkout@v4
      - uses: DeterminateSystems/nix-installer-action@main
      - name: Run Example Checks
        run: nix run -L .#check-repx-examples
"#;
    let workflow = parse_workflow(yaml, "main.yml").unwrap();
    assert_eq!(workflow.name, "Nix Build and Test");
    assert_eq!(workflow.jobs.len(), 4);
    let fast = workflow.jobs.iter().find(|j| j.job_id == "fast-checks").unwrap();
    assert!(fast.needs.is_empty());
    assert_eq!(fast.steps.len(), 1);
    let examples = workflow.jobs.iter().find(|j| j.job_id == "example-checks").unwrap();
    assert_eq!(examples.needs, vec!["fast-checks"]);
    let matrix_jobs: Vec<&WorkflowJob> =
        workflow.jobs.iter().filter(|j| j.job_id.starts_with("checks")).collect();
    assert_eq!(matrix_jobs.len(), 2);
    for mj in &matrix_jobs {
        assert_eq!(mj.needs, vec!["fast-checks"]);
    }
}

#[test]
fn workflow_errors() {
    assert_eq!(detail(parse_workflow("name: x\n", "w.yml").unwrap_err()), "no 'jobs' key in workflow w.yml");
    assert_eq!(
        detail(parse_workflow("jobs:\n  b:\n    runs-on: x\n", "w.yml").unwrap_err()),
        "job 'b' has no 'steps' in w.yml"
    );
    assert_eq!(
        detail(parse_workflow("jobs:\n  1: {steps: []}\n", "w.yml").unwrap_err()),
        "non-string job key in w.yml"
    );
}

#[test]
fn unnamed_steps_get_their_index() {
    let w = parse_workflow("jobs:\n  j:\n    steps:\n      - uses: x\n      - run: nix fmt\n", "w.yml").unwrap();
    assert_eq!(w.jobs[0].steps[0].name, "step-1");
}

#[test]
fn matrices_of_several_axes() {
    let job = doc("strategy:\n  matrix:\n    os: [linux, mac]\n    ver: [1, true]\n    include: [x]\n");
    let combos = parse_matrix(&job);
    assert_eq!(combos.len(), 4);
    assert_eq!(combos[0], vec![("os".to_string(), "linux".to_string()), ("ver".to_string(), "1".to_string())]);
    assert_eq!(combos[3], vec![("os".to_string(), "mac".to_string()), ("ver".to_string(), "true".to_string())]);
    let w = parse_workflow(
        "jobs:\n  t:\n    strategy:\n      matrix:\n        os: [linux]\n        ver: [1]\n    steps:\n      - run: nix build .#${{ matrix.os }}\n",
        "w.yml",
    )
    .unwrap();
    assert_eq!(w.jobs[0].job_id, "t (os=linux, ver=1)");
    assert_eq!(w.jobs[0].steps[0].run, "nix build .#linux");
    assert!(parse_matrix(&doc("steps: []\n")).is_empty());
}

#[test]
fn needs_forms() {
    assert_eq!(parse_needs(&doc("needs: a\n")), vec!["a"]);
    assert_eq!(parse_needs(&doc("needs: [a, 1, b]\n")), vec!["a", "b"]);
    assert!(parse_needs(&doc("needs: 3\n")).is_empty());
    assert!(parse_needs(&doc("x: 1\n")).is_empty());
}

#[test]
fn matrix_placeholders_are_replaced() {
    let combo = vec![("check".to_string(), "unit".to_string())];
    assert_eq!(expand_matrix_string("a ${{ matrix.check }} b ${{ matrix.check }}", &combo), "a unit b unit");
    assert_eq!(expand_matrix_string("${{ matrix.other }}", &combo), "${{ matrix.other }}");
}

#[test]
fn logical_lines_join_continuations() {
    let lines = logical_lines("nix build \\\n  .#a \\\n  .#b\n\n# comment\nnix run .#c\n");
    let texts: Vec<String> = lines.iter().map(|l| l.iter().collect()).collect();
    assert_eq!(texts, vec!["nix build .#a .#b", "nix run .#c"]);
    assert!(validate_nix_only("nix build \\\n  .#a\n", "j", 0, "w.yml").is_ok());
    assert!(validate_nix_only("  \n# only a comment\n", "j", 0, "w.yml").is_ok());
    let e = validate_nix_only("nixos-rebuild switch", "j", 2, "w.yml").unwrap_err();
    assert!(detail(e).starts_with("job 'j', step 2: run command does not start with 'nix': 'nixos-rebuild switch'"));
}

#[test]
fn workflow_files_are_filtered_and_sorted() {
    let names: Vec<String> = ["z.yaml", "README.md", "a.yml", "b.yml.bak"].iter().map(|s| s.to_string()).collect();
    assert_eq!(workflow_file_names(&names), vec!["a.yml", "z.yaml"]);
    assert_eq!(workflows_dir("/r"), "/r/.github/workflows");
}

#[test]
fn workflows_flatten_in_order() {
    let w1 = parse_workflow("jobs:\n  a:\n    steps: []\n", "1.yml").unwrap();
    let w2 = parse_workflow("jobs:\n  b:\n    steps: []\n  c:\n    steps: []\n", "2.yml").unwrap();
    let jobs = flatten_workflows(&[w1, w2]);
    let ids: Vec<&str> = jobs.iter().map(|j| j.job_id.as_str()).collect();
    assert_eq!(ids, vec!["a", "b", "c"]);
}

#[test]
fn matrix_values_other_than_scalars_are_written_as_yaml() {
    let combos = parse_matrix(&doc("strategy:\n  matrix:\n    v: [~, {a: 1}]\n"));
    assert_eq!(combos.len(), 2);
    assert_eq!(combos[0], vec![("v".to_string(), "null\n".to_string())]);
    assert_eq!(combos[1], vec![("v".to_string(), "a: 1\n".to_string())]);
}

#[test]
fn text_that_is_no_yaml_is_a_validation_error() {
    let d = detail(parse_workflow_text("jobs: [unclosed\n", "/w/ci.yml").unwrap_err());
    assert!(d.starts_with("failed to parse YAML /w/ci.yml: "), "{d}");
    assert!(d.len() > "failed to parse YAML /w/ci.yml: ".len());
}
