use cafemake::{
    join, source_kind, with_extension, Build, Config, Package, SourceFile, SourceKind, System,
};

fn config(name: &str) -> Config {
    Config {
        package: Package { name: name.to_string() },
        system: System { compiler: None, fflags: None },
    }
}

fn file(path: &str, lines: &[&str]) -> SourceFile {
    SourceFile {
        path: path.to_string(),
        lines: Some(lines.iter().map(|l| Some(l.to_string())).collect()),
    }
}

fn scenario() -> Vec<SourceFile> {
    vec![
        file("a.f90", &["module a", "end module a"]),
        file("b.f90", &["module b", "  use a", "end module b"]),
        file("main.f90", &["program main", "use a", "end program main"]),
    ]
}

#[test]
fn paths_are_joined_and_extensions_replaced() {
    assert_eq!(join("build", "a.f90"), "build/a.f90");
    assert_eq!(with_extension("build/sub/a.f90", "o"), "build/sub/a.o");
    assert_eq!(with_extension("build/pkg", "a"), "build/pkg.a");
    assert_eq!(with_extension("build/x.tar.gz", "o"), "build/x.tar.o");
    assert_eq!(with_extension("build/.hidden", "o"), "build/.hidden.o");
    assert_eq!(with_extension("a.b/c", "mod"), "a.b/c.mod");
    assert_eq!(with_extension("a.f90", ""), "a");
}

#[test]
fn sources_are_classified() {
    assert_eq!(source_kind("a.f90"), SourceKind::Ordinary);
    assert_eq!(source_kind("sub/b.F"), SourceKind::Ordinary);
    assert_eq!(source_kind("main.f90"), SourceKind::EntryPoint);
    assert_eq!(source_kind("tools/main.F08"), SourceKind::EntryPoint);
    assert_eq!(source_kind("main.c"), SourceKind::Other);
    assert_eq!(source_kind(".f90"), SourceKind::Other);
    assert_eq!(source_kind("README"), SourceKind::Other);
    assert_eq!(source_kind("a."), SourceKind::Other);
    assert_eq!(source_kind("mainx.f"), SourceKind::Ordinary);
}

#[test]
fn new_build_is_empty() {
    let b = Build::new();
    assert!(b.variables.is_empty());
    assert!(b.compiles.is_empty());
    assert!(b.archives.is_empty());
    assert!(b.links.is_empty());
    assert_eq!(b.build_dir, "build");
    assert_eq!(b.mod_dir, "build");
    assert_eq!(b.source_dir, "src");
}

#[test]
fn variables_fall_back_to_defaults() {
    let b = Build::try_from_config(&config("pkg"), &Vec::new()).unwrap();
    let vars: Vec<(String, String)> = b.variables.clone();
    assert_eq!(
        vars,
        vec![
            ("fc".to_string(), "gfortran".to_string()),
            ("fflags".to_string(), "".to_string()),
            ("ar".to_string(), "ar".to_string()),
            ("install_prefix".to_string(), "/usr/local".to_string()),
        ]
    );
    let mut c = config("pkg");
    c.system.compiler = Some("ifort".to_string());
    c.system.fflags = Some("-O2".to_string());
    let b = Build::try_from_config(&c, &Vec::new()).unwrap();
    assert_eq!(b.variables[0].1, "ifort");
    assert_eq!(b.variables[1].1, "-O2");
}

#[test]
fn empty_tree_has_an_empty_archive_and_no_links() {
    let b = Build::try_from_config(&config("pkg"), &Vec::new()).unwrap();
    assert!(b.compiles.is_empty());
    assert_eq!(b.archives.len(), 1);
    assert_eq!(b.archives[0].product, "build/pkg.a");
    assert!(b.archives[0].objects.is_empty());
    assert!(b.links.is_empty());
}

#[test]
fn end_to_end_graph() {
    let b = Build::try_from_config(&config("pkg"), &scenario()).unwrap();
    assert_eq!(b.compiles.len(), 3);
    let a = &b.compiles[0];
    assert_eq!(a.source, "src/a.f90");
    assert_eq!(a.object, "build/a.o");
    assert_eq!(a.modules, vec!["build/a.mod".to_string()]);
    assert!(a.uses.is_empty());
    let bb = &b.compiles[1];
    assert_eq!(bb.object, "build/b.o");
    assert_eq!(bb.modules, vec!["build/b.mod".to_string()]);
    assert_eq!(bb.uses, vec!["build/a.mod".to_string()]);
    let m = &b.compiles[2];
    assert_eq!(m.source, "src/main.f90");
    assert_eq!(m.object, "build/main.o");
    assert_eq!(m.uses, vec!["build/a.mod".to_string()]);
    assert_eq!(b.archives.len(), 1);
    assert_eq!(b.archives[0].product, "build/pkg.a");
    assert_eq!(
        b.archives[0].objects,
        vec!["build/a.o".to_string(), "build/b.o".to_string()]
    );
    assert_eq!(b.links.len(), 1);
    assert_eq!(b.links[0].product, "build/pkg");
    assert_eq!(b.links[0].objects, vec!["build/main.o".to_string()]);
    assert_eq!(b.links[0].libs, vec!["build/pkg.a".to_string()]);
}

#[test]
fn use_line_resolves_to_module_dir() {
    let files = vec![file("x.f", &["   use foo"])];
    let b = Build::try_from_config(&config("pkg"), &files).unwrap();
    assert_eq!(b.compiles[0].uses, vec!["build/foo.mod".to_string()]);
}

#[test]
fn used_paths_equal_declared_paths() {
    let b = Build::try_from_config(&config("pkg"), &scenario()).unwrap();
    let declared = &b.compiles[0].modules[0];
    assert_eq!(&b.compiles[1].uses[0], declared);
    assert_eq!(&b.compiles[2].uses[0], declared);
}

#[test]
fn archive_and_links_partition_objects() {
    let files = vec![
        file("a.f90", &[]),
        file("sub/main.f90", &[]),
        file("c.F", &[]),
        file("main.f", &[]),
        file("notes.txt", &[]),
    ];
    let b = Build::try_from_config(&config("pkg"), &files).unwrap();
    let mut all: Vec<String> = b.compiles.iter().map(|c| c.object.clone()).collect();
    let archived = b.archives[0].objects.clone();
    let mut linked: Vec<String> = Vec::new();
    for l in &b.links {
        linked.extend(l.objects.iter().cloned());
    }
    for o in &archived {
        assert!(!linked.contains(o));
    }
    let mut union = archived.clone();
    union.extend(linked.iter().cloned());
    union.sort();
    all.sort();
    assert_eq!(union, all);
    assert_eq!(b.links.len(), 2);
    assert_eq!(b.links[0].product, "build/pkg");
    assert_eq!(b.links[1].product, "build/sub/pkg");
}

#[test]
fn building_twice_gives_the_same_graph() {
    let first = Build::try_from_config(&config("pkg"), &scenario()).unwrap();
    let second = Build::try_from_config(&config("pkg"), &scenario()).unwrap();
    assert_eq!(format!("{:?}", first), format!("{:?}", second));
}

#[test]
fn unreadable_source_fails_the_build() {
    let mut files = scenario();
    files.insert(1, SourceFile { path: "sub/broken.f90".to_string(), lines: None });
    files.push(SourceFile { path: "late.f".to_string(), lines: None });
    // the first unreadable source in path order is reported
    let err = Build::try_from_config(&config("pkg"), &files).unwrap_err();
    assert_eq!(err.path, "src/late.f");
}

#[test]
fn unreadable_other_file_is_ignored() {
    let mut files = scenario();
    files.push(SourceFile { path: "image.png".to_string(), lines: None });
    assert!(Build::try_from_config(&config("pkg"), &files).is_ok());
}

#[test]
fn listing_order_does_not_matter() {
    let mut reversed = scenario();
    reversed.reverse();
    let first = Build::try_from_config(&config("pkg"), &scenario()).unwrap();
    let second = Build::try_from_config(&config("pkg"), &reversed).unwrap();
    assert_eq!(format!("{:?}", first), format!("{:?}", second));
    assert_eq!(second.compiles[0].source, "src/a.f90");
    assert_eq!(second.compiles[1].source, "src/b.f90");
}

#[test]
fn sources_are_taken_in_path_order() {
    let files = vec![
        file("z.f90", &[]),
        file("sub/y.f90", &[]),
        file("B.f", &[]),
        file("a.f90", &[]),
        file("sub.f90", &[]),
    ];
    let b = Build::try_from_config(&config("pkg"), &files).unwrap();
    let sources: Vec<&str> = b.compiles.iter().map(|c| c.source.as_str()).collect();
    assert_eq!(
        sources,
        vec!["src/B.f", "src/a.f90", "src/sub.f90", "src/sub/y.f90", "src/z.f90"]
    );
}
