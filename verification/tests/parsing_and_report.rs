use pacdef_core::error::Error;
use pacdef_core::get_version_string;
use pacdef_core::group::{find_group, Group};
use pacdef_core::package::Package;
use pacdef_core::rustup::Rustup;
use pacdef_core::todo::{collect_todo, BackendQuery, BackendTodo, ToDoPerBackend};

fn pkg(repo: Option<&str>, name: &str) -> Package {
    Package::new(name.to_string(), repo.map(|r| r.to_string()))
}

#[test]
fn toolchain_lines_are_truncated_at_the_first_separator() {
    let output = "stable-x86_64-unknown-linux-gnu (default)\nnightly-x86_64-unknown-linux-gnu\n";
    let toolchains = Rustup::parse_installed_toolchains(output);
    assert_eq!(toolchains, vec!["stable".to_string(), "nightly".to_string()]);
}

#[test]
fn toolchain_parsing_handles_crlf_and_missing_final_newline() {
    let output = "stable-x86_64\r\nbeta-x86_64";
    let toolchains = Rustup::parse_installed_toolchains(output);
    assert_eq!(toolchains, vec!["stable".to_string(), "beta".to_string()]);
}

#[test]
fn known_components_are_taken_from_the_first_segment() {
    let output = "cargo-x86_64-unknown-linux-gnu\nclippy-x86_64-unknown-linux-gnu\n";
    let comps = Rustup::parse_installed_components("stable", output).unwrap();
    let got: Vec<(Option<String>, String)> =
        comps.iter().map(|p| (p.repo.clone(), p.name.clone())).collect();
    assert_eq!(
        got,
        vec![
            (Some("component".to_string()), "stable/cargo".to_string()),
            (Some("component".to_string()), "stable/clippy".to_string()),
        ]
    );
}

#[test]
fn unknown_components_fall_back_to_joining_the_first_two_segments() {
    let output = "rust-analyzer-preview-x86_64\n";
    let comps = Rustup::parse_installed_components("nightly", output).unwrap();
    assert_eq!(comps.len(), 1);
    assert_eq!(comps[0].repo.as_deref(), Some("component"));
    assert_eq!(comps[0].name, "nightly/rust-analyzer");
}

#[test]
fn a_line_with_no_second_segment_is_a_parse_failure() {
    let output = "mystery\n";
    let r = Rustup::parse_installed_components("stable", output);
    assert_eq!(r.unwrap_err(), Error::ParseFailure);
}

#[test]
fn installed_packages_union_toolchains_and_components() {
    let backend = Rustup::new();
    let toolchains = vec!["stable".to_string(), "nightly".to_string()];
    let outputs = vec!["cargo-x86_64\n".to_string(), "miri-x86_64\n".to_string()];
    let installed = backend.get_all_installed_packages(&toolchains, &outputs).unwrap();
    let got: Vec<(Option<String>, String)> =
        installed.iter().map(|p| (p.repo.clone(), p.name.clone())).collect();
    assert_eq!(
        got,
        vec![
            (Some("toolchain".to_string()), "stable".to_string()),
            (Some("toolchain".to_string()), "nightly".to_string()),
            (Some("component".to_string()), "stable/cargo".to_string()),
            (Some("component".to_string()), "nightly/miri".to_string()),
        ]
    );

    let explicit = backend.get_explicitly_installed_packages(&toolchains, &outputs).unwrap();
    let got_explicit: Vec<(Option<String>, String)> =
        explicit.iter().map(|p| (p.repo.clone(), p.name.clone())).collect();
    assert_eq!(got, got_explicit);
}

#[test]
fn scenario_one_backend_fails_and_the_other_is_still_collected() {
    let queries = vec![
        BackendQuery {
            section: "pacman".to_string(),
            outcome: Err(Error::SpawnFailure),
        },
        BackendQuery {
            section: "rustup".to_string(),
            outcome: Ok(vec![pkg(Some("toolchain"), "stable")]),
        },
    ];
    let (todo, skipped) = collect_todo(&queries);

    assert_eq!(todo.entries.len(), 1);
    assert_eq!(todo.entries[0].section, "rustup");
    assert_eq!(todo.entries[0].packages.len(), 1);
    assert_eq!(todo.entries[0].packages[0].name, "stable");

    assert_eq!(skipped.len(), 1);
    assert_eq!(skipped[0].section, "pacman");
    assert_eq!(skipped[0].error, Error::SpawnFailure);

    assert!(!todo.nothing_to_do_for_all_backends());
    let report = todo.show();
    assert_eq!(report, "rustup\ntoolchain/stable\n");
}

#[test]
fn nothing_to_do_only_when_every_diff_is_empty() {
    let mut todo = ToDoPerBackend::new();
    assert!(todo.nothing_to_do_for_all_backends());

    todo.push(BackendTodo { section: "rustup".to_string(), packages: Vec::new() });
    assert!(todo.nothing_to_do_for_all_backends());

    todo.push(BackendTodo {
        section: "pacman".to_string(),
        packages: vec![pkg(None, "vim")],
    });
    assert!(!todo.nothing_to_do_for_all_backends());
}

#[test]
fn report_skips_backends_with_empty_diffs() {
    let mut todo = ToDoPerBackend::new();
    todo.push(BackendTodo { section: "pacman".to_string(), packages: Vec::new() });
    todo.push(BackendTodo {
        section: "rustup".to_string(),
        packages: vec![pkg(Some("toolchain"), "beta"), pkg(Some("toolchain"), "stable")],
    });
    assert_eq!(todo.show(), "rustup\ntoolchain/beta\ntoolchain/stable\n");
}

#[test]
fn package_display_prefixes_the_repo_tag() {
    assert_eq!(pkg(Some("toolchain"), "stable").display(), "toolchain/stable");
    assert_eq!(pkg(None, "vim").display(), "vim");
}

#[test]
fn package_equality_and_order_go_by_repo_then_name() {
    let a = pkg(Some("component"), "stable/clippy");
    let b = pkg(Some("component"), "stable/clippy");
    let c = pkg(Some("toolchain"), "stable");
    let d = pkg(None, "stable");
    assert!(a.same_as(&b));
    assert!(!a.same_as(&c));
    assert!(a.comes_before(&c));
    assert!(!c.comes_before(&a));
    assert!(d.comes_before(&a));
}

#[test]
fn error_messages_name_each_failure_kind() {
    assert_eq!(Error::SpawnFailure.message(), "could not run the backend process");
    assert_eq!(Error::ParseFailure.message(), "could not parse the backend's output");
    assert_eq!(Error::CapabilityNotSupported.message(), "not supported by this backend");
    assert_eq!(Error::NonzeroExit(2).message(), "the backend process reported failure");
    assert_eq!(
        Error::RepoTagMissing.message(),
        "not specified whether it is a toolchain or a component"
    );
    assert_eq!(
        Error::PackageNameMalformed.message(),
        "component is not scoped to a toolchain"
    );
}

#[test]
fn find_group_returns_the_first_match() {
    let groups = vec![
        Group { name: "base".to_string(), sections: Vec::new() },
        Group { name: "extra".to_string(), sections: Vec::new() },
    ];
    assert_eq!(find_group(&groups, "extra"), Some(1));
    assert_eq!(find_group(&groups, "base"), Some(0));
    assert_eq!(find_group(&groups, "absent"), None);
}

#[test]
fn version_string_is_stable() {
    assert_eq!(get_version_string(), "pacdef, version: 1.0.0");
}

#[test]
fn empty_output_names_no_toolchains() {
    assert!(Rustup::parse_installed_toolchains("").is_empty());
    let comps = Rustup::parse_installed_components("stable", "").unwrap();
    assert!(comps.is_empty());
}

#[test]
fn component_with_trailing_separator_keeps_the_empty_second_segment() {
    let comps = Rustup::parse_installed_components("stable", "foo-\n").unwrap();
    assert_eq!(comps.len(), 1);
    assert_eq!(comps[0].name, "stable/foo-");
}
