use vstd::prelude::*;

use crate::graph::{ArchiveView, Build, BuildView, CompileView, LinkView};
use crate::scan::words_view;

pub mod make;
pub mod ninja;

verus! {

/// The build executors whose input files can be written.
#[derive(Clone, Copy, Debug, PartialEq, Eq, Structural)]
pub enum BuildSystem {
    Ninja,
    Make,
}

/// A build system name that is neither `ninja` nor `make`.
#[derive(Debug)]
pub struct ParseBuildSystemError;

/// `s` followed by a line break.
pub open spec fn line(s: Seq<char>) -> Seq<char> {
    s + "\n"@
}

/// The paths separated by single spaces.
pub open spec fn spaced(paths: Seq<Seq<char>>) -> Seq<char>
    decreases paths.len(),
{
    if paths.len() == 0 {
        Seq::empty()
    } else if paths.len() == 1 {
        paths[0]
    } else {
        spaced(paths.drop_last()) + " "@ + paths.last()
    }
}

/// One `name = value` line per variable.
pub open spec fn variable_lines(vars: Seq<(Seq<char>, Seq<char>)>) -> Seq<char>
    decreases vars.len(),
{
    if vars.len() == 0 {
        Seq::empty()
    } else {
        variable_lines(vars.drop_last()) + line(vars.last().0 + " = "@ + vars.last().1)
    }
}

pub open spec fn link_products(links: Seq<LinkView>) -> Seq<Seq<char>> {
    links.map_values(|l: LinkView| l.product)
}

pub open spec fn archive_products(archives: Seq<ArchiveView>) -> Seq<Seq<char>> {
    archives.map_values(|a: ArchiveView| a.product)
}

/// Each compile step's object followed by its interface files.
pub open spec fn compile_outputs(compiles: Seq<CompileView>) -> Seq<Seq<char>>
    decreases compiles.len(),
{
    if compiles.len() == 0 {
        Seq::empty()
    } else {
        compile_outputs(compiles.drop_last()) + seq![compiles.last().object]
            + compiles.last().modules
    }
}

/// Everything that building the graph produces: programs, archives, objects
/// and interface files.
pub open spec fn clean_paths(b: BuildView) -> Seq<Seq<char>> {
    link_products(b.links) + archive_products(b.archives) + compile_outputs(b.compiles)
}

/// The paths separated by single spaces.
pub fn format_paths(paths: &Vec<String>) -> (r: String)
    ensures
        r@ == spaced(words_view(paths@)),
{
    let ghost ps = words_view(paths@);
    let mut r = String::new();
    let mut i: usize = 0;
    while i < paths.len()
        invariant
            i <= paths@.len(),
            ps == words_view(paths@),
            r@ == spaced(ps.take(i as int)),
        decreases paths@.len() - i,
    {
        assert(ps.take(i + 1).drop_last() =~= ps.take(i as int));
        if i > 0 {
            r.append(" ");
        }
        r.append(paths[i].as_str());
        proof {
            if i == 0 {
                assert(r@ =~= ps.take(1)[0]);
            }
        }
        i = i + 1;
    }
    assert(ps.take(i as int) =~= ps);
    r
}

/// Every path that building `build` produces, as `clean_paths` lists them.
pub fn clean_list(build: &Build) -> (r: Vec<String>)
    ensures
        words_view(r@) == clean_paths(build@),
{
    let ghost b = build@;
    let mut r: Vec<String> = Vec::new();
    let mut i: usize = 0;
    while i < build.links.len()
        invariant
            i <= build.links@.len(),
            b == build@,
            words_view(r@) =~= link_products(b.links.take(i as int)),
        decreases build.links@.len() - i,
    {
        let ghost prev = r@;
        r.push(build.links[i].product.clone());
        assert(b.links.take(i + 1) =~= b.links.take(i as int).push(b.links[i as int]));
        assert(words_view(r@) =~= words_view(prev).push(r@[i as int]@));
        i = i + 1;
    }
    assert(b.links.take(i as int) =~= b.links);
    let ghost n1 = r@.len();
    let mut i: usize = 0;
    while i < build.archives.len()
        invariant
            i <= build.archives@.len(),
            b == build@,
            words_view(r@) =~= link_products(b.links) + archive_products(b.archives.take(i as int)),
        decreases build.archives@.len() - i,
    {
        let ghost prev = r@;
        r.push(build.archives[i].product.clone());
        assert(b.archives.take(i + 1) =~= b.archives.take(i as int).push(b.archives[i as int]));
        assert(words_view(r@) =~= words_view(prev).push(build.archives@[i as int].product@));
        i = i + 1;
    }
    assert(b.archives.take(i as int) =~= b.archives);
    let mut i: usize = 0;
    while i < build.compiles.len()
        invariant
            i <= build.compiles@.len(),
            b == build@,
            words_view(r@) =~= link_products(b.links) + archive_products(b.archives)
                + compile_outputs(b.compiles.take(i as int)),
        decreases build.compiles@.len() - i,
    {
        assert(b.compiles.take(i + 1).drop_last() =~= b.compiles.take(i as int));
        let compile = &build.compiles[i];
        let ghost prev = words_view(r@);
        r.push(compile.object.clone());
        let mut j: usize = 0;
        while j < compile.modules.len()
            invariant
                j <= compile.modules@.len(),
                words_view(r@) =~= prev + seq![compile.object@] + words_view(
                    compile.modules@,
                ).take(j as int),
            decreases compile.modules@.len() - j,
        {
            let ghost before = words_view(r@);
            r.push(compile.modules[j].clone());
            assert(words_view(r@) =~= before.push(compile.modules@[j as int]@));
            j = j + 1;
        }
        assert(words_view(compile.modules@).take(j as int) =~= words_view(compile.modules@));
        i = i + 1;
    }
    assert(b.compiles.take(i as int) =~= b.compiles);
    r
}

/// The text of the Ninja or Make input for `build`.
pub open spec fn build_text(s: BuildSystem, b: BuildView) -> Seq<char> {
    match s {
        BuildSystem::Ninja => ninja::ninja_text(b),
        BuildSystem::Make => make::make_text(b),
    }
}

impl BuildSystem {
    /// The build system named `s`: `ninja` or `make`.
    pub fn parse(s: &str) -> (r: Result<Self, ParseBuildSystemError>)
        ensures
            s@ == "ninja"@ ==> r == Ok::<Self, ParseBuildSystemError>(BuildSystem::Ninja),
            s@ == "make"@ ==> r == Ok::<Self, ParseBuildSystemError>(BuildSystem::Make),
            s@ != "ninja"@ && s@ != "make"@ ==> r is Err,
    {
        proof {
            reveal_strlit("ninja");
            reveal_strlit("make");
            assert("ninja"@.len() != "make"@.len());
        }
        let name = String::from_str(s);
        if name == String::from_str("ninja") {
            Ok(BuildSystem::Ninja)
        } else if name == String::from_str("make") {
            Ok(BuildSystem::Make)
        } else {
            Err(ParseBuildSystemError)
        }
    }

    /// The file that the executor reads by default.
    pub fn file_name(&self) -> (r: String)
        ensures
            r@ == match self {
                BuildSystem::Ninja => "build.ninja"@,
                BuildSystem::Make => "Makefile"@,
            },
    {
        match self {
            BuildSystem::Ninja => String::from_str("build.ninja"),
            BuildSystem::Make => String::from_str("Makefile"),
        }
    }

    /// The command line that runs the executor: the program, then its arguments.
    pub fn command(&self) -> (r: Vec<String>)
        ensures
            words_view(r@) == match self {
                BuildSystem::Ninja => seq!["ninja"@],
                BuildSystem::Make => seq!["make"@, "-j2"@],
            },
    {
        match self {
            BuildSystem::Ninja => {
                let r = vec![String::from_str("ninja")];
                assert(words_view(r@) =~= seq!["ninja"@]);
                r
            },
            BuildSystem::Make => {
                let r = vec![String::from_str("make"), String::from_str("-j2")];
                assert(words_view(r@) =~= seq!["make"@, "-j2"@]);
                r
            },
        }
    }

    /// Appends the executor's input for `build` to `f`.
    pub fn write_build(&self, f: &mut String, build: &Build)
        ensures
            final(f)@ == old(f)@ + build_text(*self, build@),
    {
        match self {
            BuildSystem::Ninja => ninja::write_build(f, build),
            BuildSystem::Make => make::write_build(f, build),
        }
    }
}

impl std::str::FromStr for BuildSystem {
    type Err = ParseBuildSystemError;

    fn from_str(s: &str) -> (r: Result<Self, Self::Err>)
        ensures
            s@ == "ninja"@ ==> r == Ok::<Self, ParseBuildSystemError>(BuildSystem::Ninja),
            s@ == "make"@ ==> r == Ok::<Self, ParseBuildSystemError>(BuildSystem::Make),
            s@ != "ninja"@ && s@ != "make"@ ==> r is Err,
    {
        BuildSystem::parse(s)
    }
}

} // verus!
