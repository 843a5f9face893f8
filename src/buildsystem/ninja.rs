use vstd::prelude::*;

use super::{clean_list, clean_paths, format_paths, line, link_products, spaced, variable_lines};
use crate::graph::{Archive, ArchiveView, Build, BuildView, Compile, CompileView, Link, LinkView, variables_view};
use crate::paths::{file_name, file_name_of};
use crate::scan::words_view;

verus! {

/// `n` levels of two-space indentation.
pub open spec fn indent_text(n: nat) -> Seq<char>
    decreases n,
{
    if n == 0 {
        Seq::empty()
    } else {
        indent_text((n - 1) as nat) + "  "@
    }
}

fn indent(n: usize) -> (r: String)
    ensures
        r@ == indent_text(n as nat),
{
    let mut r = String::new();
    let mut i: usize = 0;
    while i < n
        invariant
            i <= n,
            r@ == indent_text(i as nat),
        decreases n - i,
    {
        r.append("  ");
        i = i + 1;
    }
    r
}

/// A rule with its command.
pub open spec fn rule_text(name: Seq<char>, command: Seq<char>) -> Seq<char> {
    line("rule "@ + name) + line(indent_text(1) + "command = "@ + command)
}

/// Where `install` puts a program: under its own name in the `bin`
/// directory of the install prefix.
pub open spec fn install_path(product: Seq<char>) -> Seq<char> {
    "$install_prefix/bin/"@ + file_name(product)
}

pub open spec fn install_paths(links: Seq<LinkView>) -> Seq<Seq<char>> {
    links.map_values(|l: LinkView| install_path(l.product))
}

/// A link statement, the archive as an implicit input passed through `$libs`,
/// and the statement that copies the program to its install place.
pub open spec fn link_text(l: LinkView) -> Seq<char> {
    "build "@ + l.product + ": link "@ + spaced(l.objects) + (if l.libs.len() > 0 {
        line("| "@ + spaced(l.libs)) + line(indent_text(1) + "libs = "@ + spaced(l.libs))
    } else {
        "\n"@
    }) + line("build "@ + install_path(l.product) + ": cp "@ + l.product)
}

pub open spec fn archive_text(a: ArchiveView) -> Seq<char> {
    line("build "@ + a.product + ": ar "@ + spaced(a.objects))
}

/// An interface file, refreshed by `touch` after its source is compiled.
pub open spec fn module_text(m: Seq<char>, source: Seq<char>, object: Seq<char>) -> Seq<char> {
    line("build "@ + m + ": mod | "@ + source + " "@ + object)
}

pub open spec fn modules_text(ms: Seq<Seq<char>>, source: Seq<char>, object: Seq<char>) -> Seq<char>
    decreases ms.len(),
{
    if ms.len() == 0 {
        Seq::empty()
    } else {
        modules_text(ms.drop_last(), source, object) + module_text(ms.last(), source, object)
    }
}

/// A compile statement, with the used interface files as implicit inputs,
/// followed by one statement per interface file that it produces.
pub open spec fn compile_text(c: CompileView) -> Seq<char> {
    "build "@ + c.object + ": fc "@ + c.source + (if c.uses.len() != 0 {
        " | "@ + spaced(c.uses)
    } else {
        Seq::empty()
    }) + "\n"@ + modules_text(c.modules, c.source, c.object)
}

pub open spec fn links_text(ls: Seq<LinkView>) -> Seq<char>
    decreases ls.len(),
{
    if ls.len() == 0 {
        Seq::empty()
    } else {
        links_text(ls.drop_last()) + link_text(ls.last())
    }
}

pub open spec fn archives_text(as_: Seq<ArchiveView>) -> Seq<char>
    decreases as_.len(),
{
    if as_.len() == 0 {
        Seq::empty()
    } else {
        archives_text(as_.drop_last()) + archive_text(as_.last())
    }
}

pub open spec fn compiles_text(cs: Seq<CompileView>) -> Seq<char>
    decreases cs.len(),
{
    if cs.len() == 0 {
        Seq::empty()
    } else {
        compiles_text(cs.drop_last()) + compile_text(cs.last())
    }
}

pub open spec fn ninja_rules() -> Seq<char> {
    rule_text("mod"@, "touch -c $out"@) + rule_text(
        "fc"@,
        "$fc $fflags -I$moddir -J$moddir -c -o $out $in"@,
    ) + rule_text("ar"@, "$ar ruUc $out $in"@) + rule_text(
        "link"@,
        "$fc -o $out $in -Wl,-start-group $libs -Wl,-end-group"@,
    ) + rule_text("cp"@, "cp $in $out"@) + rule_text("rm"@, "rm -f $files"@)
}

/// The variables, the interface-file directory and the rules.
pub open spec fn ninja_head(b: BuildView) -> Seq<char> {
    variable_lines(b.variables) + line("moddir = "@ + b.mod_dir) + "\n"@ + ninja_rules() + "\n"@
}

/// The default target's line, which names every program; Ninja refuses an
/// empty one, so it is left out when there is no program.
pub open spec fn default_text(links: Seq<LinkView>) -> Seq<char> {
    if links.len() > 0 {
        line("default "@ + spaced(link_products(links)))
    } else {
        Seq::empty()
    }
}

/// The link statements, then the default and `install` targets.
pub open spec fn ninja_targets(b: BuildView) -> Seq<char> {
    links_text(b.links) + default_text(b.links) + line(
        "build install: phony "@ + spaced(install_paths(b.links)),
    )
}

/// The `clean` target, which removes everything the graph produces.
pub open spec fn ninja_clean(b: BuildView) -> Seq<char> {
    line("build clean: rm"@) + line(indent_text(1) + "files = "@ + spaced(clean_paths(b)))
}

/// The Ninja file of a graph: variables, rules, link statements, the default
/// and `install` targets, archive and compile statements, and `clean`.
pub open spec fn ninja_text(b: BuildView) -> Seq<char> {
    ninja_head(b) + ninja_targets(b) + archives_text(b.archives) + compiles_text(b.compiles)
        + ninja_clean(b)
}

/// Appends a rule to `f`.
fn write_rule(f: &mut String, name: &str, command: &str)
    ensures
        final(f)@ == old(f)@ + rule_text(name@, command@),
{
    f.append("rule ");
    f.append(name);
    f.append("\n");
    f.append(indent(1).as_str());
    f.append("command = ");
    f.append(command);
    f.append("\n");
    assert(final(f)@ =~= old(f)@ + rule_text(name@, command@));
}

/// Appends a link statement and its install statement to `f`.
fn write_link(f: &mut String, link: &Link)
    ensures
        final(f)@ == old(f)@ + link_text(link@),
{
    let objects = format_paths(&link.objects);
    f.append("build ");
    f.append(link.product.as_str());
    f.append(": link ");
    f.append(objects.as_str());
    let ghost mid = f@;
    if link.libs.len() > 0 {
        let libs = format_paths(&link.libs);
        f.append("| ");
        f.append(libs.as_str());
        f.append("\n");
        f.append(indent(1).as_str());
        f.append("libs = ");
        f.append(libs.as_str());
        f.append("\n");
        assert(f@ =~= mid + line("| "@ + spaced(link@.libs)) + line(
            indent_text(1) + "libs = "@ + spaced(link@.libs),
        ));
    } else {
        f.append("\n");
    }
    let ghost mid2 = f@;
    let name = file_name_of(link.product.as_str());
    f.append("build ");
    f.append("$install_prefix/bin/");
    f.append(name.as_str());
    f.append(": cp ");
    f.append(link.product.as_str());
    f.append("\n");
    assert(f@ =~= mid2 + line("build "@ + install_path(link@.product) + ": cp "@ + link@.product));
    assert(final(f)@ =~= old(f)@ + link_text(link@));
}

/// Appends an archive statement to `f`.
fn write_archive(f: &mut String, archive: &Archive)
    ensures
        final(f)@ == old(f)@ + archive_text(archive@),
{
    let objects = format_paths(&archive.objects);
    f.append("build ");
    f.append(archive.product.as_str());
    f.append(": ar ");
    f.append(objects.as_str());
    f.append("\n");
    assert(final(f)@ =~= old(f)@ + archive_text(archive@));
}

/// Appends a compile statement and its interface-file statements to `f`.
fn write_compile(f: &mut String, compile: &Compile)
    ensures
        final(f)@ == old(f)@ + compile_text(compile@),
{
    let c = compile;
    f.append("build ");
    f.append(c.object.as_str());
    f.append(": fc ");
    f.append(c.source.as_str());
    let ghost mid = f@;
    if c.uses.len() != 0 {
        let uses = format_paths(&c.uses);
        f.append(" | ");
        f.append(uses.as_str());
        assert(f@ =~= mid + " | "@ + spaced(c@.uses));
    }
    f.append("\n");
    let ghost head = f@;
    assert(head =~= old(f)@ + ("build "@ + c@.object + ": fc "@ + c@.source + (if c@.uses.len()
        != 0 {
        " | "@ + spaced(c@.uses)
    } else {
        Seq::empty()
    }) + "\n"@));
    let ghost ms = c@.modules;
    let mut i: usize = 0;
    while i < c.modules.len()
        invariant
            i <= c.modules@.len(),
            ms == c@.modules,
            f@ == head + modules_text(ms.take(i as int), c@.source, c@.object),
        decreases c.modules@.len() - i,
    {
        assert(ms.take(i + 1).drop_last() =~= ms.take(i as int));
        let ghost before = f@;
        f.append("build ");
        f.append(c.modules[i].as_str());
        f.append(": mod | ");
        f.append(c.source.as_str());
        f.append(" ");
        f.append(c.object.as_str());
        f.append("\n");
        assert(f@ =~= before + module_text(ms[i as int], c@.source, c@.object));
        i = i + 1;
    }
    assert(ms.take(i as int) =~= ms);
    assert(final(f)@ =~= old(f)@ + compile_text(c@));
}

fn write_head(f: &mut String, build: &Build)
    ensures
        final(f)@ == old(f)@ + ninja_head(build@),
{
    let ghost b = build@;
    let ghost f0 = f@;
    let mut i: usize = 0;
    while i < build.variables.len()
        invariant
            i <= build.variables@.len(),
            b == build@,
            f@ == f0 + variable_lines(b.variables.take(i as int)),
        decreases build.variables@.len() - i,
    {
        assert(b.variables.take(i + 1).drop_last() =~= b.variables.take(i as int));
        let ghost before = f@;
        let (name, value) = &build.variables[i];
        f.append(name.as_str());
        f.append(" = ");
        f.append(value.as_str());
        f.append("\n");
        assert(f@ =~= before + line(b.variables[i as int].0 + " = "@ + b.variables[i as int].1));
        i = i + 1;
    }
    assert(b.variables.take(i as int) =~= b.variables);
    let ghost s1 = f@;
    f.append("moddir = ");
    f.append(build.mod_dir.as_str());
    f.append("\n");
    f.append("\n");
    write_rule(f, "mod", "touch -c $out");
    write_rule(f, "fc", "$fc $fflags -I$moddir -J$moddir -c -o $out $in");
    write_rule(f, "ar", "$ar ruUc $out $in");
    write_rule(f, "link", "$fc -o $out $in -Wl,-start-group $libs -Wl,-end-group");
    write_rule(f, "cp", "cp $in $out");
    write_rule(f, "rm", "rm -f $files");
    f.append("\n");
    assert(f@ =~= s1 + line("moddir = "@ + b.mod_dir) + "\n"@ + ninja_rules() + "\n"@);
    assert(final(f)@ =~= old(f)@ + ninja_head(b));
}

fn write_targets(f: &mut String, build: &Build)
    ensures
        final(f)@ == old(f)@ + ninja_targets(build@),
{
    let ghost b = build@;
    let ghost s2 = f@;
    let mut products: Vec<String> = Vec::new();
    let mut installs: Vec<String> = Vec::new();
    let mut i: usize = 0;
    while i < build.links.len()
        invariant
            i <= build.links@.len(),
            b == build@,
            f@ == s2 + links_text(b.links.take(i as int)),
            words_view(products@) == link_products(b.links.take(i as int)),
            words_view(installs@) == install_paths(b.links.take(i as int)),
        decreases build.links@.len() - i,
    {
        assert(b.links.take(i + 1).drop_last() =~= b.links.take(i as int));
        let link = &build.links[i];
        write_link(f, link);
        let ghost p0 = products@;
        let ghost i0 = installs@;
        products.push(link.product.clone());
        let mut installed = String::from_str("$install_prefix/bin/");
        installed.append(file_name_of(link.product.as_str()).as_str());
        installs.push(installed);
        assert(words_view(products@) =~= words_view(p0).push(link@.product));
        assert(words_view(installs@) =~= words_view(i0).push(install_path(link@.product)));
        assert(link_products(b.links.take(i + 1)) =~= link_products(b.links.take(i as int)).push(
            link@.product,
        ));
        assert(install_paths(b.links.take(i + 1)) =~= install_paths(b.links.take(i as int)).push(
            install_path(link@.product),
        ));
        i = i + 1;
    }
    assert(b.links.take(i as int) =~= b.links);
    let ghost s3 = f@;
    if build.links.len() > 0 {
        f.append("default ");
        f.append(format_paths(&products).as_str());
        f.append("\n");
    }
    assert(f@ =~= s3 + default_text(b.links));
    f.append("build install: phony ");
    f.append(format_paths(&installs).as_str());
    f.append("\n");
    assert(final(f)@ =~= s2 + ninja_targets(b));
}

fn write_archives(f: &mut String, build: &Build)
    ensures
        final(f)@ == old(f)@ + archives_text(build@.archives),
{
    let ghost b = build@;
    let ghost s3 = f@;
    let mut i: usize = 0;
    while i < build.archives.len()
        invariant
            i <= build.archives@.len(),
            b == build@,
            f@ == s3 + archives_text(b.archives.take(i as int)),
        decreases build.archives@.len() - i,
    {
        assert(b.archives.take(i + 1).drop_last() =~= b.archives.take(i as int));
        write_archive(f, &build.archives[i]);
        i = i + 1;
    }
    assert(b.archives.take(i as int) =~= b.archives);
}

fn write_compiles(f: &mut String, build: &Build)
    ensures
        final(f)@ == old(f)@ + compiles_text(build@.compiles),
{
    let ghost b = build@;
    let ghost s4 = f@;
    let mut i: usize = 0;
    while i < build.compiles.len()
        invariant
            i <= build.compiles@.len(),
            b == build@,
            f@ == s4 + compiles_text(b.compiles.take(i as int)),
        decreases build.compiles@.len() - i,
    {
        assert(b.compiles.take(i + 1).drop_last() =~= b.compiles.take(i as int));
        write_compile(f, &build.compiles[i]);
        i = i + 1;
    }
    assert(b.compiles.take(i as int) =~= b.compiles);
}

fn write_clean(f: &mut String, build: &Build)
    ensures
        final(f)@ == old(f)@ + ninja_clean(build@),
{
    let cleaned = format_paths(&clean_list(build));
    f.append("build clean: rm");
    f.append("\n");
    f.append(indent(1).as_str());
    f.append("files = ");
    f.append(cleaned.as_str());
    f.append("\n");
    assert(final(f)@ =~= old(f)@ + ninja_clean(build@));
}

/// Appends the Ninja file of `build` to `f`.
pub fn write_build(f: &mut String, build: &Build)
    ensures
        final(f)@ == old(f)@ + ninja_text(build@),
{
    let ghost b = build@;
    write_head(f, build);
    let ghost s1 = f@;
    write_targets(f, build);
    let ghost s2 = f@;
    write_archives(f, build);
    let ghost s3 = f@;
    write_compiles(f, build);
    let ghost s4 = f@;
    write_clean(f, build);
    let ghost s5 = f@;
    proof {
        let head = ninja_head(b);
        let targets = ninja_targets(b);
        let archives = archives_text(b.archives);
        let compiles = compiles_text(b.compiles);
        let clean = ninja_clean(b);
        assert(s5 =~= old(f)@ + (head + targets + archives + compiles + clean));
    }
}

} // verus!
