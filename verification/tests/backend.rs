use pacdef_core::error::Error;
use pacdef_core::group::{Group, Section};
use pacdef_core::package::Package;
use pacdef_core::rustup::{InstallStep, Rustup};

fn pkg(repo: Option<&str>, name: &str) -> Package {
    Package::new(name.to_string(), repo.map(|r| r.to_string()))
}

fn names(v: &[Package]) -> Vec<(Option<String>, String)> {
    v.iter().map(|p| (p.repo.clone(), p.name.clone())).collect()
}

fn one_group(section: &str, packages: Vec<Package>) -> Group {
    Group {
        name: "base".to_string(),
        sections: vec![Section { name: section.to_string(), packages }],
    }
}

#[test]
fn scenario_toolchain_missing_then_installed() {
    let mut backend = Rustup::new();
    let groups = vec![one_group("rustup", vec![pkg(Some("toolchain"), "stable")])];
    backend.load(&groups);

    let missing = backend.get_missing_packages_sorted(&Vec::new());
    assert_eq!(
        names(&missing),
        vec![(Some("toolchain".to_string()), "stable".to_string())]
    );

    let installed = vec![pkg(Some("toolchain"), "stable")];
    let missing_after = backend.get_missing_packages_sorted(&installed);
    assert!(missing_after.is_empty());
}

#[test]
fn scenario_component_missing_with_toolchain_present() {
    let mut backend = Rustup::new();
    let groups = vec![one_group(
        "rustup",
        vec![pkg(Some("component"), "stable/clippy")],
    )];
    backend.load(&groups);

    let installed = backend
        .get_all_installed_packages(&vec!["stable".to_string()], &vec![String::new()])
        .unwrap();
    assert_eq!(
        names(&installed),
        vec![(Some("toolchain".to_string()), "stable".to_string())]
    );

    let missing = backend.get_missing_packages_sorted(&installed);
    assert_eq!(
        names(&missing),
        vec![(Some("component".to_string()), "stable/clippy".to_string())]
    );

    let plan = backend.install_plan(&missing).unwrap();
    assert_eq!(plan.len(), 1);
    match &plan[0] {
        InstallStep::Component(toolchain, component) => {
            assert_eq!(toolchain, "stable");
            assert_eq!(component, "clippy");
        }
        InstallStep::Toolchain(_) => panic!("no toolchain install expected"),
    }
}

#[test]
fn scenario_unmanaged_sorted_by_repo_then_name() {
    let mut backend = Rustup::new();
    backend.load(&Vec::new());

    let explicit = vec![
        pkg(Some("toolchain"), "nightly"),
        pkg(Some("component"), "nightly/rustfmt"),
    ];
    let unmanaged = backend.get_unmanaged_packages_sorted(&explicit);
    assert_eq!(
        names(&unmanaged),
        vec![
            (Some("component".to_string()), "nightly/rustfmt".to_string()),
            (Some("toolchain".to_string()), "nightly".to_string()),
        ]
    );
}

#[test]
fn missing_is_set_difference_sorted_without_duplicates() {
    let mut backend = Rustup::new();
    let groups = vec![one_group(
        "rustup",
        vec![
            pkg(Some("toolchain"), "stable"),
            pkg(Some("toolchain"), "beta"),
            pkg(Some("toolchain"), "stable"),
            pkg(Some("component"), "stable/clippy"),
            pkg(Some("toolchain"), "nightly"),
        ],
    )];
    backend.load(&groups);

    let installed = vec![pkg(Some("toolchain"), "nightly")];
    let missing = backend.get_missing_packages_sorted(&installed);
    assert_eq!(
        names(&missing),
        vec![
            (Some("component".to_string()), "stable/clippy".to_string()),
            (Some("toolchain".to_string()), "beta".to_string()),
            (Some("toolchain".to_string()), "stable".to_string()),
        ]
    );
}

#[test]
fn diff_is_identical_when_recomputed_on_same_snapshot() {
    let mut backend = Rustup::new();
    let groups = vec![one_group(
        "rustup",
        vec![pkg(Some("toolchain"), "beta"), pkg(Some("toolchain"), "stable")],
    )];
    backend.load(&groups);

    let installed = vec![pkg(Some("toolchain"), "beta")];
    let first = backend.get_missing_packages_sorted(&installed);
    let second = backend.get_missing_packages_sorted(&installed);
    assert_eq!(names(&first), names(&second));
}

#[test]
fn installing_every_missing_package_leaves_nothing_missing() {
    let mut backend = Rustup::new();
    let groups = vec![one_group(
        "rustup",
        vec![pkg(Some("toolchain"), "stable"), pkg(Some("component"), "stable/miri")],
    )];
    backend.load(&groups);

    let before: Vec<Package> = Vec::new();
    let missing = backend.get_missing_packages_sorted(&before);
    assert_eq!(missing.len(), 2);

    let mut after = before;
    for p in &missing {
        after.push(Package::new(p.name.clone(), p.repo.clone()));
    }
    let missing_after = backend.get_missing_packages_sorted(&after);
    assert!(missing_after.is_empty());
}

#[test]
fn install_plan_puts_every_toolchain_before_any_component() {
    let backend = Rustup::new();
    let batch = vec![
        pkg(Some("component"), "stable/clippy"),
        pkg(Some("toolchain"), "stable"),
        pkg(Some("component"), "nightly/miri"),
        pkg(Some("toolchain"), "nightly"),
    ];
    let plan = backend.install_plan(&batch).unwrap();
    assert_eq!(plan.len(), 4);
    assert!(matches!(&plan[0], InstallStep::Toolchain(t) if t == "stable"));
    assert!(matches!(&plan[1], InstallStep::Toolchain(t) if t == "nightly"));
    assert!(
        matches!(&plan[2], InstallStep::Component(t, c) if t == "stable" && c == "clippy")
    );
    assert!(
        matches!(&plan[3], InstallStep::Component(t, c) if t == "nightly" && c == "miri")
    );
}

#[test]
fn install_plan_rejects_package_without_repo_tag() {
    let backend = Rustup::new();
    let batch = vec![pkg(Some("toolchain"), "stable"), pkg(None, "mystery")];
    assert_eq!(backend.install_plan(&batch).unwrap_err(), Error::RepoTagMissing);
}

#[test]
fn install_plan_rejects_component_not_scoped_to_a_toolchain() {
    let backend = Rustup::new();
    let batch = vec![pkg(Some("component"), "clippy")];
    assert_eq!(backend.install_plan(&batch).unwrap_err(), Error::PackageNameMalformed);
}

#[test]
fn install_plan_missing_tag_wins_over_malformed_name() {
    let backend = Rustup::new();
    let batch = vec![pkg(Some("component"), "clippy"), pkg(None, "mystery")];
    assert_eq!(backend.install_plan(&batch).unwrap_err(), Error::RepoTagMissing);
}

#[test]
fn install_plan_skips_packages_of_unknown_repo() {
    let backend = Rustup::new();
    let batch = vec![pkg(Some("elsewhere"), "thing"), pkg(Some("toolchain"), "stable")];
    let plan = backend.install_plan(&batch).unwrap();
    assert_eq!(plan.len(), 1);
    assert!(matches!(&plan[0], InstallStep::Toolchain(t) if t == "stable"));
}

#[test]
fn make_dependency_always_fails() {
    let backend = Rustup::new();
    let r = backend.make_dependency(&vec![pkg(Some("toolchain"), "stable")]);
    assert_eq!(r, Err(Error::CapabilityNotSupported));
    let r2 = backend.make_dependency(&Vec::new());
    assert_eq!(r2, Err(Error::CapabilityNotSupported));
}

#[test]
fn load_gathers_only_matching_sections_across_groups() {
    let mut backend = Rustup::new();
    let g1 = Group {
        name: "first".to_string(),
        sections: vec![
            Section {
                name: "pacman".to_string(),
                packages: vec![pkg(None, "vim")],
            },
            Section {
                name: "rustup".to_string(),
                packages: vec![pkg(Some("toolchain"), "stable")],
            },
        ],
    };
    let g2 = Group {
        name: "second".to_string(),
        sections: vec![Section {
            name: "rustup".to_string(),
            packages: vec![pkg(Some("component"), "stable/clippy")],
        }],
    };
    backend.load(&vec![g1, g2]);
    assert_eq!(
        names(&backend.packages),
        vec![
            (Some("toolchain".to_string()), "stable".to_string()),
            (Some("component".to_string()), "stable/clippy".to_string()),
        ]
    );
}

#[test]
fn backend_constants() {
    let backend = Rustup::new();
    assert_eq!(backend.get_binary(), "rustup");
    assert_eq!(backend.get_section(), "rustup");
    assert!(!backend.supports_as_dependency());
}
