use vstd::prelude::*;

use super::{clean_list, clean_paths, format_paths, line, link_products, spaced, variable_lines};
use crate::graph::{Archive, ArchiveView, Build, BuildView, Compile, CompileView, Link, LinkView};
use crate::paths::{file_name, file_name_of};
use crate::scan::words_view;

verus! {

/// Where `install` puts a program: under its own name in the `bin`
/// directory of the install prefix.
pub open spec fn install_path(product: Seq<char>) -> Seq<char> {
    "$(install_prefix)/bin/"@ + file_name(product)
}

pub open spec fn install_paths(links: Seq<LinkView>) -> Seq<Seq<char>> {
    links.map_values(|l: LinkView| install_path(l.product))
}

/// The libraries of a link recipe, in a group that the linker searches
/// until no reference is left open.
pub open spec fn lib_group(libs: Seq<char>) -> Seq<char> {
    if libs.len() > 0 {
        " -Wl,-start-group "@ + libs + " -Wl,-end-group"@
    } else {
        Seq::empty()
    }
}

/// A program with its objects and libraries as prerequisites; the recipe
/// passes the libraries as a group.
pub open spec fn link_text(l: LinkView) -> Seq<char> {
    l.product + ": "@ + spaced(l.objects) + (if spaced(l.libs).len() > 0 {
        " "@ + spaced(l.libs)
    } else {
        Seq::empty()
    }) + "\n"@ + line("\t$(fc) -o $@ "@ + spaced(l.objects) + lib_group(spaced(l.libs)))
}

pub open spec fn archive_text(a: ArchiveView) -> Seq<char> {
    line(a.product + ": "@ + spaced(a.objects)) + line("\t$(ar) ruUc $@ $^"@)
}

/// An interface file, refreshed by `touch` after its source is compiled.
pub open spec fn module_text(m: Seq<char>, source: Seq<char>, object: Seq<char>) -> Seq<char> {
    line(m + ": "@ + source + " "@ + object) + line("\ttouch -c $@"@)
}

pub open spec fn modules_text(ms: Seq<Seq<char>>, source: Seq<char>, object: Seq<char>) -> Seq<char>
    decreases ms.len(),
{
    if ms.len() == 0 {
        Seq::empty()
    } else {
        modules_text(ms.drop_last(), source, object) + module_text(ms.last(), source, object)
    }
}

/// An object with its source and the used interface files as prerequisites;
/// only the source is passed to the compiler.
pub open spec fn compile_text(c: CompileView) -> Seq<char> {
    c.object + ": "@ + c.source + (if c.uses.len() > 0 {
        " "@ + spaced(c.uses)
    } else {
        Seq::empty()
    }) + "\n"@ + line("\t$(fc) $(fflags) -I$(moddir) -J$(moddir) -c -o $@ $<"@) + modules_text(
        c.modules,
        c.source,
        c.object,
    )
}

/// The rule that copies a program to its install place.
pub open spec fn copy_text(l: LinkView) -> Seq<char> {
    line(install_path(l.product) + ": "@ + l.product) + line("\tcp $< $@"@)
}

pub open spec fn links_text(ls: Seq<LinkView>) -> Seq<char>
    decreases ls.len(),
{
    if ls.len() == 0 {
        Seq::empty()
    } else {
        links_text(ls.drop_last()) + link_text(ls.last())
    }
}

pub open spec fn copies_text(ls: Seq<LinkView>) -> Seq<char>
    decreases ls.len(),
{
    if ls.len() == 0 {
        Seq::empty()
    } else {
        copies_text(ls.drop_last()) + copy_text(ls.last())
    }
}

pub open spec fn archives_text(as_: Seq<ArchiveView>) -> Seq<char>
    decreases as_.len(),
{
    if as_.len() == 0 {
        Seq::empty()
    } else {
        archives_text(as_.drop_last()) + archive_text(as_.last())
    }
}

pub open spec fn compiles_text(cs: Seq<CompileView>) -> Seq<char>
    decreases cs.len(),
{
    if cs.len() == 0 {
        Seq::empty()
    } else {
        compiles_text(cs.drop_last()) + compile_text(cs.last())
    }
}

/// No implicit rules, then the variables and the interface-file directory.
pub open spec fn make_head(b: BuildView) -> Seq<char> {
    line(".SUFFIXES:"@) + "\n"@ + variable_lines(b.variables) + line("moddir = "@ + b.mod_dir)
        + "\n"@
}

/// The default target, which names every program.
pub open spec fn make_default(b: BuildView) -> Seq<char> {
    line(".PHONY: all"@) + line("all: "@ + spaced(link_products(b.links)))
}

/// The `install` target and the copy rules behind it.
pub open spec fn make_install(b: BuildView) -> Seq<char> {
    line(".PHONY: install"@) + line("install: "@ + spaced(install_paths(b.links))) + copies_text(
        b.links,
    )
}

/// The `clean` target, which removes everything the graph produces.
pub open spec fn make_clean(b: BuildView) -> Seq<char> {
    line(".PHONY: clean"@) + line("clean:"@) + line("\t@rm -f "@ + spaced(clean_paths(b))) + line(
        "\t@echo Cleaning up..."@,
    )
}

/// The Makefile of a graph: variables, the default target, link, archive and
/// compile rules, `install` and `clean`.
pub open spec fn make_text(b: BuildView) -> Seq<char> {
    make_head(b) + make_default(b) + links_text(b.links) + archives_text(b.archives) + compiles_text(
        b.compiles,
    ) + make_install(b) + make_clean(b)
}

/// Appends a link rule to `f`.
fn write_link(f: &mut String, link: &Link)
    ensures
        final(f)@ == old(f)@ + link_text(link@),
{
    let libs = format_paths(&link.libs);
    let objects = format_paths(&link.objects);
    f.append(link.product.as_str());
    f.append(": ");
    f.append(objects.as_str());
    let ghost mid = f@;
    if libs.unicode_len() > 0 {
        f.append(" ");
        f.append(libs.as_str());
    }
    f.append("\n");
    let ghost mid2 = f@;
    f.append("\t$(fc) -o $@ ");
    f.append(objects.as_str());
    if libs.unicode_len() > 0 {
        f.append(" -Wl,-start-group ");
        f.append(libs.as_str());
        f.append(" -Wl,-end-group");
    }
    f.append("\n");
    assert(f@ =~= mid2 + line("\t$(fc) -o $@ "@ + spaced(link@.objects) + lib_group(
        spaced(link@.libs),
    )));
    assert(final(f)@ =~= old(f)@ + link_text(link@));
}

/// Appends an archive rule to `f`.
fn write_archive(f: &mut String, archive: &Archive)
    ensures
        final(f)@ == old(f)@ + archive_text(archive@),
{
    let objects = format_paths(&archive.objects);
    f.append(archive.product.as_str());
    f.append(": ");
    f.append(objects.as_str());
    f.append("\n");
    f.append("\t$(ar) ruUc $@ $^");
    f.append("\n");
    assert(final(f)@ =~= old(f)@ + archive_text(archive@));
}

/// Appends a compile rule and its interface-file rules to `f`.
fn write_compile(f: &mut String, compile: &Compile)
    ensures
        final(f)@ == old(f)@ + compile_text(compile@),
{
    let c = compile;
    f.append(c.object.as_str());
    f.append(": ");
    f.append(c.source.as_str());
    let ghost mid = f@;
    if c.uses.len() > 0 {
        let uses = format_paths(&c.uses);
        f.append(" ");
        f.append(uses.as_str());
        assert(f@ =~= mid + " "@ + spaced(c@.uses));
    }
    f.append("\n");
    f.append("\t$(fc) $(fflags) -I$(moddir) -J$(moddir) -c -o $@ $<");
    f.append("\n");
    let ghost head = f@;
    assert(head =~= old(f)@ + (c@.object + ": "@ + c@.source + (if c@.uses.len() > 0 {
        " "@ + spaced(c@.uses)
    } else {
        Seq::empty()
    }) + "\n"@ + line("\t$(fc) $(fflags) -I$(moddir) -J$(moddir) -c -o $@ $<"@)));
    let ghost ms = c@.modules;
    let mut i: usize = 0;
    while i < c.modules.len()
        invariant
            i <= c.modules@.len(),
            ms == c@.modules,
            f@ == head + modules_text(ms.take(i as int), c@.source, c@.object),
        decreases c.modules@.len() - i,
    {
        assert(ms.take(i + 1).drop_last() =~= ms.take(i as int));
        let ghost before = f@;
        f.append(c.modules[i].as_str());
        f.append(": ");
        f.append(c.source.as_str());
        f.append(" ");
        f.append(c.object.as_str());
        f.append("\n");
        f.append("\ttouch -c $@");
        f.append("\n");
        assert(f@ =~= before + module_text(ms[i as int], c@.source, c@.object));
        i = i + 1;
    }
    assert(ms.take(i as int) =~= ms);
    assert(final(f)@ =~= old(f)@ + compile_text(c@));
}

fn write_head(f: &mut String, build: &Build)
    ensures
        final(f)@ == old(f)@ + make_head(build@),
{
    let ghost b = build@;
    f.append(".SUFFIXES:");
    f.append("\n");
    f.append("\n");
    let ghost f0 = f@;
    let mut i: usize = 0;
    while i < build.variables.len()
        invariant
            i <= build.variables@.len(),
            b == build@,
            f@ == f0 + variable_lines(b.variables.take(i as int)),
        decreases build.variables@.len() - i,
    {
        assert(b.variables.take(i + 1).drop_last() =~= b.variables.take(i as int));
        let ghost before = f@;
        let (name, value) = &build.variables[i];
        f.append(name.as_str());
        f.append(" = ");
        f.append(value.as_str());
        f.append("\n");
        assert(f@ =~= before + line(b.variables[i as int].0 + " = "@ + b.variables[i as int].1));
        i = i + 1;
    }
    assert(b.variables.take(i as int) =~= b.variables);
    f.append("moddir = ");
    f.append(build.mod_dir.as_str());
    f.append("\n");
    f.append("\n");
    assert(final(f)@ =~= old(f)@ + make_head(b));
}

/// Appends the default target and the link rules to `f`.
fn write_links(f: &mut String, build: &Build)
    ensures
        final(f)@ == old(f)@ + make_default(build@) + links_text(build@.links),
{
    let ghost b = build@;
    let mut products: Vec<String> = Vec::new();
    let mut i: usize = 0;
    while i < build.links.len()
        invariant
            i <= build.links@.len(),
            b == build@,
            words_view(products@) == link_products(b.links.take(i as int)),
        decreases build.links@.len() - i,
    {
        let ghost p0 = products@;
        products.push(build.links[i].product.clone());
        assert(words_view(products@) =~= words_view(p0).push(b.links[i as int].product));
        assert(link_products(b.links.take(i + 1)) =~= link_products(b.links.take(i as int)).push(
            b.links[i as int].product,
        ));
        i = i + 1;
    }
    assert(b.links.take(i as int) =~= b.links);
    f.append(".PHONY: all");
    f.append("\n");
    f.append("all: ");
    f.append(format_paths(&products).as_str());
    f.append("\n");
    let ghost s1 = f@;
    assert(s1 =~= old(f)@ + make_default(b));
    let mut i: usize = 0;
    while i < build.links.len()
        invariant
            i <= build.links@.len(),
            b == build@,
            f@ == s1 + links_text(b.links.take(i as int)),
        decreases build.links@.len() - i,
    {
        assert(b.links.take(i + 1).drop_last() =~= b.links.take(i as int));
        write_link(f, &build.links[i]);
        i = i + 1;
    }
    assert(b.links.take(i as int) =~= b.links);
}

fn write_archives(f: &mut String, build: &Build)
    ensures
        final(f)@ == old(f)@ + archives_text(build@.archives),
{
    let ghost b = build@;
    let ghost s0 = f@;
    let mut i: usize = 0;
    while i < build.archives.len()
        invariant
            i <= build.archives@.len(),
            b == build@,
            f@ == s0 + archives_text(b.archives.take(i as int)),
        decreases build.archives@.len() - i,
    {
        assert(b.archives.take(i + 1).drop_last() =~= b.archives.take(i as int));
        write_archive(f, &build.archives[i]);
        i = i + 1;
    }
    assert(b.archives.take(i as int) =~= b.archives);
}

fn write_compiles(f: &mut String, build: &Build)
    ensures
        final(f)@ == old(f)@ + compiles_text(build@.compiles),
{
    let ghost b = build@;
    let ghost s0 = f@;
    let mut i: usize = 0;
    while i < build.compiles.len()
        invariant
            i <= build.compiles@.len(),
            b == build@,
            f@ == s0 + compiles_text(b.compiles.take(i as int)),
        decreases build.compiles@.len() - i,
    {
        assert(b.compiles.take(i + 1).drop_last() =~= b.compiles.take(i as int));
        write_compile(f, &build.compiles[i]);
        i = i + 1;
    }
    assert(b.compiles.take(i as int) =~= b.compiles);
}

/// Appends the `install` target and its copy rules to `f`.
fn write_install(f: &mut String, build: &Build)
    ensures
        final(f)@ == old(f)@ + make_install(build@),
{
    let ghost b = build@;
    let mut installs: Vec<String> = Vec::new();
    let mut i: usize = 0;
    while i < build.links.len()
        invariant
            i <= build.links@.len(),
            b == build@,
            words_view(installs@) == install_paths(b.links.take(i as int)),
        decreases build.links@.len() - i,
    {
        let ghost i0 = installs@;
        let mut installed = String::from_str("$(install_prefix)/bin/");
        installed.append(file_name_of(build.links[i].product.as_str()).as_str());
        installs.push(installed);
        assert(words_view(installs@) =~= words_view(i0).push(install_path(b.links[i as int].product)));
        assert(install_paths(b.links.take(i + 1)) =~= install_paths(b.links.take(i as int)).push(
            install_path(b.links[i as int].product),
        ));
        i = i + 1;
    }
    assert(b.links.take(i as int) =~= b.links);
    f.append(".PHONY: install");
    f.append("\n");
    f.append("install: ");
    f.append(format_paths(&installs).as_str());
    f.append("\n");
    let ghost s1 = f@;
    let mut i: usize = 0;
    while i < build.links.len()
        invariant
            i <= build.links@.len(),
            b == build@,
            f@ == s1 + copies_text(b.links.take(i as int)),
        decreases build.links@.len() - i,
    {
        assert(b.links.take(i + 1).drop_last() =~= b.links.take(i as int));
        let ghost before = f@;
        let product = build.links[i].product.as_str();
        let name = file_name_of(product);
        f.append("$(install_prefix)/bin/");
        f.append(name.as_str());
        f.append(": ");
        f.append(product);
        f.append("\n");
        f.append("\tcp $< $@");
        f.append("\n");
        assert(f@ =~= before + copy_text(b.links[i as int]));
        i = i + 1;
    }
    assert(b.links.take(i as int) =~= b.links);
    assert(final(f)@ =~= old(f)@ + make_install(b));
}

fn write_clean(f: &mut String, build: &Build)
    ensures
        final(f)@ == old(f)@ + make_clean(build@),
{
    let cleaned = format_paths(&clean_list(build));
    f.append(".PHONY: clean");
    f.append("\n");
    f.append("clean:");
    f.append("\n");
    f.append("\t@rm -f ");
    f.append(cleaned.as_str());
    f.append("\n");
    f.append("\t@echo Cleaning up...");
    f.append("\n");
    assert(final(f)@ =~= old(f)@ + make_clean(build@));
}

/// Appends the Makefile of `build` to `f`.
pub fn write_build(f: &mut String, build: &Build)
    ensures
        final(f)@ == old(f)@ + make_text(build@),
{
    let ghost b = build@;
    write_head(f, build);
    write_links(f, build);
    write_archives(f, build);
    write_compiles(f, build);
    write_install(f, build);
    write_clean(f, build);
    proof {
        let head = make_head(b);
        let default = make_default(b);
        let links = links_text(b.links);
        let archives = archives_text(b.archives);
        let compiles = compiles_text(b.compiles);
        let install = make_install(b);
        let clean = make_clean(b);
        assert(final(f)@ =~= old(f)@ + (head + default + links + archives + compiles + install
            + clean));
    }
}

} // verus!
