use cafemake::buildsystem::{format_paths, make, ninja};
use cafemake::{Build, BuildSystem, Config, Package, SourceFile, System};

fn config(name: &str) -> Config {
    Config {
        package: Package { name: name.to_string() },
        system: System { compiler: None, fflags: None },
    }
}

fn file(path: &str, lines: &[&str]) -> SourceFile {
    SourceFile {
        path: path.to_string(),
        lines: Some(lines.iter().map(|l| Some(l.to_string())).collect()),
    }
}

fn scenario() -> Build {
    let files = vec![
        file("a.f90", &["module a", "end module a"]),
        file("b.f90", &["module b", "  use a", "end module b"]),
        file("main.f90", &["program main", "use a", "end program main"]),
    ];
    Build::try_from_config(&config("pkg"), &files).unwrap()
}

const NINJA: &str = "fc = gfortran
fflags = 
ar = ar
install_prefix = /usr/local
moddir = build

rule mod
  command = touch -c $out
rule fc
  command = $fc $fflags -I$moddir -J$moddir -c -o $out $in
rule ar
  command = $ar ruUc $out $in
rule link
  command = $fc -o $out $in -Wl,-start-group $libs -Wl,-end-group
rule cp
  command = cp $in $out
rule rm
  command = rm -f $files

build build/pkg: link build/main.o| build/pkg.a
  libs = build/pkg.a
build $install_prefix/bin/pkg: cp build/pkg
default build/pkg
build install: phony $install_prefix/bin/pkg
build build/pkg.a: ar build/a.o build/b.o
build build/a.o: fc src/a.f90
build build/a.mod: mod | src/a.f90 build/a.o
build build/b.o: fc src/b.f90 | build/a.mod
build build/b.mod: mod | src/b.f90 build/b.o
build build/main.o: fc src/main.f90 | build/a.mod
build clean: rm
  files = build/pkg build/pkg.a build/a.o build/a.mod build/b.o build/b.mod build/main.o
";

const MAKE: &str = ".SUFFIXES:

fc = gfortran
fflags = 
ar = ar
install_prefix = /usr/local
moddir = build

.PHONY: all
all: build/pkg
build/pkg: build/main.o build/pkg.a
\t$(fc) -o $@ build/main.o -Wl,-start-group build/pkg.a -Wl,-end-group
build/pkg.a: build/a.o build/b.o
\t$(ar) ruUc $@ $^
build/a.o: src/a.f90
\t$(fc) $(fflags) -I$(moddir) -J$(moddir) -c -o $@ $<
build/a.mod: src/a.f90 build/a.o
\ttouch -c $@
build/b.o: src/b.f90 build/a.mod
\t$(fc) $(fflags) -I$(moddir) -J$(moddir) -c -o $@ $<
build/b.mod: src/b.f90 build/b.o
\ttouch -c $@
build/main.o: src/main.f90 build/a.mod
\t$(fc) $(fflags) -I$(moddir) -J$(moddir) -c -o $@ $<
.PHONY: install
install: $(install_prefix)/bin/pkg
$(install_prefix)/bin/pkg: build/pkg
\tcp $< $@
.PHONY: clean
clean:
\t@rm -f build/pkg build/pkg.a build/a.o build/a.mod build/b.o build/b.mod build/main.o
\t@echo Cleaning up...
";

#[test]
fn ninja_file_of_the_scenario() {
    let mut out = String::new();
    ninja::write_build(&mut out, &scenario());
    assert_eq!(out, NINJA);
}

#[test]
fn makefile_of_the_scenario() {
    let mut out = String::new();
    make::write_build(&mut out, &scenario());
    assert_eq!(out, MAKE);
}

#[test]
fn interface_file_edges_in_ninja() {
    let mut out = String::new();
    ninja::write_build(&mut out, &scenario());
    assert!(out.contains("build build/b.o: fc src/b.f90 | build/a.mod\n"));
    assert!(out.contains("build build/a.mod: mod | src/a.f90 build/a.o\n"));
    assert!(out.contains("rule mod\n  command = touch -c $out\n"));
}

#[test]
fn writers_append_to_what_is_there() {
    let mut out = String::from("# head\n");
    ninja::write_build(&mut out, &scenario());
    assert!(out.starts_with("# head\nfc = gfortran\n"));
    assert_eq!(out.len(), "# head\n".len() + NINJA.len());
}

#[test]
fn build_system_dispatches() {
    let mut n = String::new();
    BuildSystem::Ninja.write_build(&mut n, &scenario());
    assert_eq!(n, NINJA);
    let mut m = String::new();
    BuildSystem::Make.write_build(&mut m, &scenario());
    assert_eq!(m, MAKE);
    assert_eq!(BuildSystem::Ninja.file_name(), "build.ninja");
    assert_eq!(BuildSystem::Make.file_name(), "Makefile");
    assert_eq!(BuildSystem::Ninja.command(), vec!["ninja".to_string()]);
    assert_eq!(
        BuildSystem::Make.command(),
        vec!["make".to_string(), "-j2".to_string()]
    );
}

#[test]
fn build_system_names() {
    assert_eq!(BuildSystem::parse("ninja").unwrap(), BuildSystem::Ninja);
    assert_eq!(BuildSystem::parse("make").unwrap(), BuildSystem::Make);
    assert!(BuildSystem::parse("cmake").is_err());
    assert!(BuildSystem::parse("Ninja").is_err());
    assert!(BuildSystem::parse("").is_err());
    let parsed: BuildSystem = "make".parse().unwrap();
    assert_eq!(parsed, BuildSystem::Make);
}

#[test]
fn paths_are_space_separated() {
    assert_eq!(format_paths(&Vec::new()), "");
    assert_eq!(format_paths(&vec!["a".to_string()]), "a");
    assert_eq!(
        format_paths(&vec!["a".to_string(), "b/c".to_string(), "d".to_string()]),
        "a b/c d"
    );
}

#[test]
fn empty_graph_in_both_syntaxes() {
    let b = Build::try_from_config(&config("pkg"), &Vec::new()).unwrap();
    let mut n = String::new();
    ninja::write_build(&mut n, &b);
    assert!(n.contains("\nbuild install: phony \nbuild build/pkg.a: ar \n"));
    assert!(!n.contains("default"));
    assert!(n.ends_with("build clean: rm\n  files = build/pkg.a\n"));
    let mut m = String::new();
    make::write_build(&mut m, &b);
    assert!(m.contains("all: \nbuild/pkg.a: \n\t$(ar) ruUc $@ $^\n"));
}

#[test]
fn link_without_libraries() {
    let mut b = scenario();
    b.links[0].libs.clear();
    let mut n = String::new();
    ninja::write_build(&mut n, &b);
    assert!(n.contains("build build/pkg: link build/main.o\nbuild $install_prefix/bin/pkg: cp build/pkg\n"));
    let mut m = String::new();
    make::write_build(&mut m, &b);
    assert!(m.contains("build/pkg: build/main.o\n\t$(fc) -o $@ build/main.o\n"));
}
