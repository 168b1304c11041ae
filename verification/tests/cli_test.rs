use oxirast::cli::{cargo_manifest, parse_command, project_name, scaffold_plan, wasm_path, Command, LIB_TEMPLATE, STYLE_TEMPLATE};

fn args(v: &[&str]) -> Vec<String> {
    v.iter().map(|s| s.to_string()).collect()
}

#[test]
fn init_command() {
    match parse_command(&args(&["oxirast-cli", "init", "my_dapp"])) {
        Command::Init(n) => assert_eq!(n, "my_dapp"),
        Command::Serve => panic!("expected init"),
    }
}

#[test]
fn serve_command() {
    assert!(matches!(parse_command(&args(&["oxirast-cli"])), Command::Serve));
    assert!(matches!(parse_command(&args(&["oxirast-cli", "init"])), Command::Serve));
    assert!(matches!(parse_command(&args(&["oxirast-cli", "serve", "x"])), Command::Serve));
}

#[test]
fn project_name_from_manifest() {
    let toml = "[package]\r\n  name = \"my-cool-app\"\r\nversion = \"0.1.0\"\n";
    assert_eq!(project_name(toml), "my_cool_app");
}

#[test]
fn project_name_first_line_wins() {
    let toml = "[package]\nname = \"first\"\n[lib]\nname = \"second\"\n";
    assert_eq!(project_name(toml), "first");
}

#[test]
fn project_name_missing() {
    assert_eq!(project_name("[package]\nversion = \"1\"\n"), "");
    assert_eq!(project_name("name = unquoted\n"), "");
    assert_eq!(project_name(""), "");
}

#[test]
fn wasm_path_of_name() {
    assert_eq!(wasm_path("my_app"), "target/wasm32-unknown-unknown/debug/my_app.wasm");
}

#[test]
fn manifest_names_project() {
    let m = cargo_manifest("demo");
    assert!(m.starts_with("[package]\nname = \"demo\"\nversion = \"0.1.0\"\n"));
    assert!(m.contains("serde = { version = \"1.0\", features = [\"derive\"] }\n"));
    assert_eq!(project_name(&m), "demo");
}

#[test]
fn scaffold_plan_layout() {
    let p = scaffold_plan("site");
    assert_eq!(p.dirs, vec!["site/src/pages".to_string(), "site/public/assets".to_string()]);
    assert_eq!(p.files[0].0, "site/Cargo.toml");
    assert_eq!(p.files[1].0, "site/src/lib.rs");
    assert_eq!(p.files[1].1, LIB_TEMPLATE);
    assert_eq!(p.files[2].0, "site/public/style.css");
    assert_eq!(p.files[2].1, STYLE_TEMPLATE);
    assert!(STYLE_TEMPLATE.contains("h1 { color: #ff4500; }"));
}
