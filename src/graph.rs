use vstd::prelude::*;

use crate::config::{Config, ConfigView};
use crate::buildsystem::build_text;
use crate::order::{
    distinct_paths, lemma_sort_contents, lemma_sort_distinct, lemma_sort_sorted,
    lemma_sorted_unique, path_order, pick, sort_by_path,
};
use crate::paths::{
    extension, file_stem, join, join_path, last_index, lemma_append_extension,
    lemma_last_index_of, lemma_relocated_stem, name_start, replace_extension, with_extension,
};
use crate::scan::{
    keyword_capture, lemma_module_procedure_not_defined, lemma_single_bad_line, procedure_words,
    unreadable_numbers,
    defined_modules, is_module_name, is_space, is_word, lemma_names_are_module_names,
    lemma_names_distinct, lemma_use_line, lemma_used_line_collected, line_used, lines_view,
    module_names, use_names, used_modules, words_view,
};

verus! {

/// One source file: its path below the source root, and its lines as read
/// (`None` for a line that could not be decoded), or `None` when the file
/// itself could not be read.
pub struct SourceFile {
    pub path: String,
    pub lines: Option<Vec<Option<String>>>,
}

pub struct SourceView {
    pub path: Seq<char>,
    pub lines: Option<Seq<Option<Seq<char>>>>,
}

impl View for SourceFile {
    type V = SourceView;

    open spec fn view(&self) -> SourceView {
        SourceView {
            path: self.path@,
            lines: match self.lines {
                Some(l) => Some(lines_view(l@)),
                None => None,
            },
        }
    }
}

pub open spec fn files_view(files: Seq<SourceFile>) -> Seq<SourceView> {
    files.map_values(|f: SourceFile| f@)
}

/// What a file under the source root is to the build.
#[derive(Clone, Copy, Debug, PartialEq, Eq, Structural)]
pub enum SourceKind {
    /// A source compiled into the package's archive.
    Ordinary,
    /// A program's main unit, linked on its own against the archive.
    EntryPoint,
    /// Not a source file.
    Other,
}

/// A source is a file whose extension starts with `f` in either case; an
/// entry point is a source whose stem is `main`.
pub open spec fn kind_of(p: Seq<char>) -> SourceKind {
    match extension(p) {
        Some(e) => if e.len() > 0 && (e[0] == 'f' || e[0] == 'F') {
            if file_stem(p) == "main"@ {
                SourceKind::EntryPoint
            } else {
                SourceKind::Ordinary
            }
        } else {
            SourceKind::Other
        },
        None => SourceKind::Other,
    }
}

/// Compiles one source file into one object, producing the interface files
/// of the modules it declares and needing those of the modules it uses.
#[derive(Clone, Debug)]
pub struct Compile {
    pub source: String,
    pub object: String,
    pub modules: Vec<String>,
    pub uses: Vec<String>,
}

/// Links a program from its objects and libraries.
#[derive(Clone, Debug)]
pub struct Link {
    pub product: String,
    pub objects: Vec<String>,
    pub libs: Vec<String>,
}

/// Bundles objects into a static library.
#[derive(Clone, Debug)]
pub struct Archive {
    pub product: String,
    pub objects: Vec<String>,
}

pub struct CompileView {
    pub source: Seq<char>,
    pub object: Seq<char>,
    pub modules: Seq<Seq<char>>,
    pub uses: Seq<Seq<char>>,
}

pub struct LinkView {
    pub product: Seq<char>,
    pub objects: Seq<Seq<char>>,
    pub libs: Seq<Seq<char>>,
}

pub struct ArchiveView {
    pub product: Seq<char>,
    pub objects: Seq<Seq<char>>,
}

impl View for Compile {
    type V = CompileView;

    open spec fn view(&self) -> CompileView {
        CompileView {
            source: self.source@,
            object: self.object@,
            modules: words_view(self.modules@),
            uses: words_view(self.uses@),
        }
    }
}

impl View for Link {
    type V = LinkView;

    open spec fn view(&self) -> LinkView {
        LinkView {
            product: self.product@,
            objects: words_view(self.objects@),
            libs: words_view(self.libs@),
        }
    }
}

impl View for Archive {
    type V = ArchiveView;

    open spec fn view(&self) -> ArchiveView {
        ArchiveView { product: self.product@, objects: words_view(self.objects@) }
    }
}

/// The build graph: substitution variables, and the compile, archive and link
/// steps, in the order in which they are emitted.
#[derive(Debug)]
pub struct Build {
    pub variables: Vec<(String, String)>,
    pub compiles: Vec<Compile>,
    pub archives: Vec<Archive>,
    pub links: Vec<Link>,
    pub mod_dir: String,
    pub build_dir: String,
    pub source_dir: String,
}

pub struct BuildView {
    pub variables: Seq<(Seq<char>, Seq<char>)>,
    pub compiles: Seq<CompileView>,
    pub archives: Seq<ArchiveView>,
    pub links: Seq<LinkView>,
    pub mod_dir: Seq<char>,
    pub build_dir: Seq<char>,
    pub source_dir: Seq<char>,
}

pub open spec fn variables_view(v: Seq<(String, String)>) -> Seq<(Seq<char>, Seq<char>)> {
    v.map_values(|p: (String, String)| (p.0@, p.1@))
}

pub open spec fn compiles_view(v: Seq<Compile>) -> Seq<CompileView> {
    v.map_values(|c: Compile| c@)
}

pub open spec fn links_view(v: Seq<Link>) -> Seq<LinkView> {
    v.map_values(|l: Link| l@)
}

pub open spec fn archives_view(v: Seq<Archive>) -> Seq<ArchiveView> {
    v.map_values(|a: Archive| a@)
}

impl View for Build {
    type V = BuildView;

    open spec fn view(&self) -> BuildView {
        BuildView {
            variables: variables_view(self.variables@),
            compiles: compiles_view(self.compiles@),
            archives: archives_view(self.archives@),
            links: links_view(self.links@),
            mod_dir: self.mod_dir@,
            build_dir: self.build_dir@,
            source_dir: self.source_dir@,
        }
    }
}

/// An empty graph: sources under `src`, objects and interface files under `build`.
pub open spec fn empty_build() -> BuildView {
    BuildView {
        variables: Seq::empty(),
        compiles: Seq::empty(),
        archives: Seq::empty(),
        links: Seq::empty(),
        mod_dir: "build"@,
        build_dir: "build"@,
        source_dir: "src"@,
    }
}

/// The interface file of module `name`.
pub open spec fn mod_path(mod_dir: Seq<char>, name: Seq<char>) -> Seq<char> {
    replace_extension(join_path(mod_dir, name), "mod"@)
}

pub open spec fn mod_paths(mod_dir: Seq<char>, names: Seq<Seq<char>>) -> Seq<Seq<char>> {
    names.map_values(|n: Seq<char>| mod_path(mod_dir, n))
}

/// The object of the source at `rel` below the source root.
pub open spec fn object_path(build_dir: Seq<char>, rel: Seq<char>) -> Seq<char> {
    replace_extension(join_path(build_dir, rel), "o"@)
}

/// The compile step of the source at `rel` with the given lines.
pub open spec fn compile_of(b: BuildView, rel: Seq<char>, lines: Seq<Option<Seq<char>>>) -> CompileView {
    CompileView {
        source: join_path(b.source_dir, rel),
        object: object_path(b.build_dir, rel),
        modules: mod_paths(b.mod_dir, module_names(lines)),
        uses: mod_paths(b.mod_dir, use_names(lines)),
    }
}

pub open spec fn lines_of(f: SourceView) -> Seq<Option<Seq<char>>> {
    match f.lines {
        Some(l) => l,
        None => Seq::empty(),
    }
}

/// The compile steps of the files of kind `k`, in the order of `files`.
pub open spec fn units_of(b: BuildView, files: Seq<SourceView>, k: SourceKind) -> Seq<CompileView>
    decreases files.len(),
{
    if files.len() == 0 {
        Seq::empty()
    } else {
        let prev = units_of(b, files.drop_last(), k);
        let f = files.last();
        if kind_of(f.path) == k {
            prev.push(compile_of(b, f.path, lines_of(f)))
        } else {
            prev
        }
    }
}

/// The package's static library.
pub open spec fn archive_product(b: BuildView, name: Seq<char>) -> Seq<char> {
    replace_extension(join_path(b.build_dir, name), "a"@)
}

/// The program of the entry point at `rel`: named after the package, in the
/// build directory's counterpart of the entry point's directory.
pub open spec fn link_product(b: BuildView, rel: Seq<char>, name: Seq<char>) -> Seq<char> {
    join_path(b.build_dir, rel.take(name_start(rel)) + name)
}

/// One link step per entry point, in the order of `files`.
pub open spec fn links_of(b: BuildView, files: Seq<SourceView>, name: Seq<char>) -> Seq<LinkView>
    decreases files.len(),
{
    if files.len() == 0 {
        Seq::empty()
    } else {
        let prev = links_of(b, files.drop_last(), name);
        let f = files.last();
        if kind_of(f.path) == SourceKind::EntryPoint {
            prev.push(
                LinkView {
                    product: link_product(b, f.path, name),
                    objects: seq![object_path(b.build_dir, f.path)],
                    libs: seq![archive_product(b, name)],
                },
            )
        } else {
            prev
        }
    }
}

pub open spec fn objects_of(units: Seq<CompileView>) -> Seq<Seq<char>> {
    units.map_values(|u: CompileView| u.object)
}

pub open spec fn or_default(o: Option<Seq<char>>, d: Seq<char>) -> Seq<char> {
    match o {
        Some(s) => s,
        None => d,
    }
}

/// The substitution variables: compiler, flags, archiver and install prefix.
pub open spec fn config_variables(c: ConfigView) -> Seq<(Seq<char>, Seq<char>)> {
    seq![
        ("fc"@, or_default(c.compiler, "gfortran"@)),
        ("fflags"@, or_default(c.fflags, ""@)),
        ("ar"@, "ar"@),
        ("install_prefix"@, "/usr/local"@),
    ]
}

/// The graph of a configuration and a source tree: the ordinary sources'
/// compile steps, then the entry points'; one archive of the ordinary objects;
/// one link step per entry point.
pub open spec fn graph_of(c: ConfigView, files: Seq<SourceView>) -> BuildView {
    let b = empty_build();
    let ordinary = units_of(b, files, SourceKind::Ordinary);
    BuildView {
        variables: config_variables(c),
        compiles: ordinary + units_of(b, files, SourceKind::EntryPoint),
        archives: seq![ArchiveView { product: archive_product(b, c.name), objects: objects_of(ordinary) }],
        links: links_of(b, files, c.name),
        ..b
    }
}

/// The graph of a configuration and a source tree listed in any order: the
/// listing is put in path order first.
pub open spec fn tree_graph(c: ConfigView, files: Seq<SourceView>) -> BuildView {
    graph_of(c, sort_by_path(files))
}

/// A source file that could not be read.
pub open spec fn unreadable(f: SourceView) -> bool {
    kind_of(f.path) != SourceKind::Other && f.lines is None
}

/// A source file that could not be read, named by its path.
#[derive(Debug)]
pub struct ReadError {
    pub path: String,
}

/// What kind of file `path` names.
pub fn source_kind(path: &str) -> (r: SourceKind)
    ensures
        r == kind_of(path@),
{
    let len = path.unicode_len();
    proof {
        lemma_last_index_of(path@, '/');
    }
    let start: usize = match last_index(path, '/') {
        Some(i) => i + 1,
        None => 0,
    };
    let name = path.substring_char(start, len);
    assert(name@ == crate::paths::file_name(path@));
    proof {
        lemma_last_index_of(name@, '.');
    }
    match last_index(name, '.') {
        Some(d) => {
            if d == 0 {
                return SourceKind::Other;
            }
            let name_len = name.unicode_len();
            if d + 1 == name_len {
                return SourceKind::Other;
            }
            let first = name.get_char(d + 1);
            assert(name@.skip(d + 1)[0] == first);
            if first != 'f' && first != 'F' {
                return SourceKind::Other;
            }
            let stem = String::from_str(name.substring_char(0, d));
            if stem == String::from_str("main") {
                SourceKind::EntryPoint
            } else {
                SourceKind::Ordinary
            }
        },
        None => SourceKind::Other,
    }
}

impl Build {
    /// An empty graph with sources under `src` and outputs under `build`.
    pub fn new() -> (r: Self)
        ensures
            r@ == empty_build(),
    {
        let r = Build {
            variables: Vec::new(),
            compiles: Vec::new(),
            archives: Vec::new(),
            links: Vec::new(),
            build_dir: String::from_str("build"),
            source_dir: String::from_str("src"),
            mod_dir: String::from_str("build"),
        };
        assert(r@.variables =~= Seq::empty());
        assert(r@.compiles =~= Seq::empty());
        assert(r@.archives =~= Seq::empty());
        assert(r@.links =~= Seq::empty());
        r
    }

    fn push_variables(&mut self, name: &str, value: String)
        ensures
            final(self)@ == (BuildView {
                variables: old(self)@.variables.push((name@, value@)),
                ..old(self)@
            }),
    {
        self.variables.push((String::from_str(name), value));
        assert(final(self)@.variables =~= old(self)@.variables.push((name@, value@)));
    }

    /// The object of the source at `rel` below the source root.
    fn get_objpath(&self, rel: &str) -> (r: String)
        ensures
            r@ == object_path(self.build_dir@, rel@),
    {
        with_extension(join(self.build_dir.as_str(), rel).as_str(), "o")
    }

    /// The interface file of module `name`.
    fn get_mod_path(&self, name: &str) -> (r: String)
        ensures
            r@ == mod_path(self.mod_dir@, name@),
    {
        with_extension(join(self.mod_dir.as_str(), name).as_str(), "mod")
    }

    fn get_mod_paths(&self, names: &Vec<String>) -> (r: Vec<String>)
        ensures
            words_view(r@) == mod_paths(self.mod_dir@, words_view(names@)),
    {
        let mut r: Vec<String> = Vec::new();
        let mut i: usize = 0;
        while i < names.len()
            invariant
                i <= names@.len(),
                words_view(r@) =~= mod_paths(self.mod_dir@, words_view(names@).take(i as int)),
            decreases names@.len() - i,
        {
            let ghost prev = r@;
            r.push(self.get_mod_path(names[i].as_str()));
            assert(words_view(names@).take(i + 1) =~= words_view(names@).take(i as int).push(
                names@[i as int]@,
            ));
            assert(words_view(r@) =~= words_view(prev).push(r@[i as int]@));
            i = i + 1;
        }
        assert(words_view(names@).take(i as int) =~= words_view(names@));
        r
    }

    /// The compile step of the source at `rel` below the source root, whose
    /// lines are `lines`.
    pub fn resolve_dependencies(&self, rel: &str, lines: &Vec<Option<String>>) -> (r: Compile)
        ensures
            r@ == compile_of(self@, rel@, lines_view(lines@)),
    {
        let modules = defined_modules(lines);
        let uses = used_modules(lines);
        Compile {
            source: join(self.source_dir.as_str(), rel),
            object: self.get_objpath(rel),
            modules: self.get_mod_paths(&modules),
            uses: self.get_mod_paths(&uses),
        }
    }

    /// The graph of `config` and the files found under the source root, taken
    /// in path order; or, if a source file could not be read, the first such
    /// file in path order.
    pub fn try_from_config(config: &Config, files: &Vec<SourceFile>) -> (r: Result<Self, ReadError>)
        ensures
            r is Err <==> exists|i: int| 0 <= i < files@.len() && unreadable(#[trigger] files@[i]@),
            r matches Err(e) ==> exists|i: int|
                0 <= i < sort_by_path(files_view(files@)).len() && unreadable(
                    #[trigger] sort_by_path(files_view(files@))[i],
                ) && (forall|j: int|
                    0 <= j < i ==> !unreadable(#[trigger] sort_by_path(files_view(files@))[j]))
                    && e.path@ == join_path(
                    empty_build().source_dir,
                    sort_by_path(files_view(files@))[i].path,
                ),
            r matches Ok(b) ==> b@ == tree_graph(config@, files_view(files@)),
    {
        let mut build = Self::new();
        let ghost fv = files_view(files@);
        let order = path_order(files);
        let ghost sv = sort_by_path(fv);
        proof {
            lemma_sort_contents(fv);
            assert forall|k: int| 0 <= k < order@.len() implies #[trigger] sv[k] == files@[order@[k] as int]@ by {
                assert(pick(fv, order@)[k] == fv[order@[k] as int]);
            }
        }
        let mut k: usize = 0;
        while k < order.len()
            invariant
                k <= order@.len(),
                order@.len() == sv.len(),
                forall|m: int| 0 <= m < order@.len() ==> order@[m] < files@.len(),
                forall|m: int| 0 <= m < order@.len() ==> #[trigger] sv[m] == files@[order@[m] as int]@,
                build@ == empty_build(),
                fv == files_view(files@),
                sv == sort_by_path(fv),
                forall|j: int| 0 <= j < k ==> !unreadable(#[trigger] sv[j]),
            decreases order@.len() - k,
        {
            let file = &files[order[k]];
            let kind = source_kind(file.path.as_str());
            if kind != SourceKind::Other && file.lines.is_none() {
                assert(unreadable(sv[k as int]));
                assert(build.source_dir@ == empty_build().source_dir);
                proof {
                    lemma_sort_contents(fv);
                    assert(sv.contains(sv[k as int]));
                    let i = choose|i: int| 0 <= i < fv.len() && fv[i] == sv[k as int];
                    assert(unreadable(files@[i]@));
                }
                return Err(ReadError { path: join(build.source_dir.as_str(), file.path.as_str()) });
            }
            k = k + 1;
        }
        proof {
            lemma_sort_contents(fv);
            assert forall|i: int| 0 <= i < files@.len() implies !unreadable(#[trigger] files@[i]@) by {
                assert(fv[i] == files@[i]@);
                assert(fv.contains(fv[i]));
                assert(sv.contains(fv[i]));
                let m = choose|m: int| 0 <= m < sv.len() && sv[m] == fv[i];
                assert(!unreadable(sv[m]));
            }
        }
        let compiler = match &config.system.compiler {
            Some(c) => c.clone(),
            None => String::from_str("gfortran"),
        };
        build.push_variables("fc", compiler);
        let fflags = match &config.system.fflags {
            Some(f) => f.clone(),
            None => String::from_str(""),
        };
        build.push_variables("fflags", fflags);
        build.push_variables("ar", String::from_str("ar"));
        build.push_variables("install_prefix", String::from_str("/usr/local"));
        assert(build@.variables =~= config_variables(config@));
        let ghost b0 = empty_build();

        let mut i: usize = 0;
        while i < order.len()
            invariant
                i <= order@.len(),
                order@.len() == sv.len(),
                forall|m: int| 0 <= m < order@.len() ==> order@[m] < files@.len(),
                forall|m: int| 0 <= m < order@.len() ==> #[trigger] sv[m] == files@[order@[m] as int]@,
                forall|j: int| 0 <= j < sv.len() ==> !unreadable(#[trigger] sv[j]),
                build@ == (BuildView {
                    variables: config_variables(config@),
                    compiles: units_of(b0, sv.take(i as int), SourceKind::Ordinary),
                    ..b0
                }),
            decreases order@.len() - i,
        {
            assert(sv.take(i + 1).drop_last() =~= sv.take(i as int));
            assert(sv.take(i + 1).last() == sv[i as int]);
            let file = &files[order[i]];
            let kind = source_kind(file.path.as_str());
            if kind == SourceKind::Ordinary {
                assert(!unreadable(sv[i as int]));
                match &file.lines {
                    Some(lines) => {
                        let c = build.resolve_dependencies(file.path.as_str(), lines);
                        assert(lines_of(sv[i as int]) == lines_view(lines@));
                        assert(c@ == compile_of(b0, sv[i as int].path, lines_view(lines@)));
                        let ghost before = build.compiles@;
                        build.compiles.push(c);
                        assert(compiles_view(build.compiles@) =~= compiles_view(before).push(c@));
                    },
                    None => {},
                }
            }
            i = i + 1;
        }
        assert(sv.take(i as int) =~= sv);
        let ghost ordinary = units_of(b0, sv, SourceKind::Ordinary);

        let archive_path = with_extension(
            join(build.build_dir.as_str(), config.package.name.as_str()).as_str(),
            "a",
        );
        let mut objects: Vec<String> = Vec::new();
        let mut j: usize = 0;
        while j < build.compiles.len()
            invariant
                j <= build.compiles@.len(),
                compiles_view(build.compiles@) == ordinary,
                words_view(objects@) =~= objects_of(ordinary.take(j as int)),
            decreases build.compiles@.len() - j,
        {
            let ghost prev = objects@;
            objects.push(build.compiles[j].object.clone());
            assert(ordinary[j as int] == build.compiles@[j as int]@);
            assert(ordinary.take(j + 1) =~= ordinary.take(j as int).push(ordinary[j as int]));
            assert(words_view(objects@) =~= words_view(prev).push(objects@[j as int]@));
            j = j + 1;
        }
        assert(ordinary.take(j as int) =~= ordinary);
        let archive = Archive { product: archive_path.clone(), objects };
        build.archives.push(archive);
        assert(archives_view(build.archives@) =~= seq![
            ArchiveView { product: archive_product(b0, config@.name), objects: objects_of(ordinary) },
        ]);

        let mut i: usize = 0;
        while i < order.len()
            invariant
                i <= order@.len(),
                order@.len() == sv.len(),
                forall|m: int| 0 <= m < order@.len() ==> order@[m] < files@.len(),
                forall|m: int| 0 <= m < order@.len() ==> #[trigger] sv[m] == files@[order@[m] as int]@,
                archive_path@ == archive_product(b0, config@.name),
                forall|j: int| 0 <= j < sv.len() ==> !unreadable(#[trigger] sv[j]),
                build@ == (BuildView {
                    variables: config_variables(config@),
                    compiles: ordinary + units_of(b0, sv.take(i as int), SourceKind::EntryPoint),
                    archives: seq![
                        ArchiveView {
                            product: archive_product(b0, config@.name),
                            objects: objects_of(ordinary),
                        },
                    ],
                    links: links_of(b0, sv.take(i as int), config@.name),
                    ..b0
                }),
            decreases order@.len() - i,
        {
            assert(sv.take(i + 1).drop_last() =~= sv.take(i as int));
            assert(sv.take(i + 1).last() == sv[i as int]);
            let file = &files[order[i]];
            let kind = source_kind(file.path.as_str());
            if kind == SourceKind::EntryPoint {
                assert(!unreadable(sv[i as int]));
                match &file.lines {
                    Some(lines) => {
                        let rel = file.path.as_str();
                        let c = build.resolve_dependencies(rel, lines);
                        assert(lines_of(sv[i as int]) == lines_view(lines@));
                        assert(c@ == compile_of(b0, rel@, lines_view(lines@)));
                        let object = c.object.clone();
                        let ghost before = build.compiles@;
                        build.compiles.push(c);
                        assert(compiles_view(build.compiles@) =~= compiles_view(before).push(c@));
                        proof {
                            lemma_last_index_of(rel@, '/');
                        }
                        let start: usize = match last_index(rel, '/') {
                            Some(s) => s + 1,
                            None => 0,
                        };
                        let mut dir = String::from_str(rel.substring_char(0, start));
                        dir.append(config.package.name.as_str());
                        let link = Link {
                            product: join(build.build_dir.as_str(), dir.as_str()),
                            objects: vec![object],
                            libs: vec![archive_path.clone()],
                        };
                        let ghost lbefore = build.links@;
                        build.links.push(link);
                        assert(words_view(link.objects@) =~= seq![object@]);
                        assert(words_view(link.libs@) =~= seq![archive_path@]);
                        assert(links_view(build.links@) =~= links_view(lbefore).push(link@));
                    },
                    None => {},
                }
            }
            i = i + 1;
        }
        assert(sv.take(i as int) =~= sv);
        Ok(build)
    }
}

/// The interface file of a module is its name under the module directory,
/// with the extension `mod`.
pub proof fn lemma_mod_path(d: Seq<char>, name: Seq<char>)
    requires
        is_module_name(name),
    ensures
        mod_path(d, name) == d + seq!['/'] + name + seq!['.', 'm', 'o', 'd'],
{
    reveal_strlit("mod");
    lemma_append_extension(d, name, "mod"@);
    assert(seq!['.'] + "mod"@ =~= seq!['.', 'm', 'o', 'd']);
    assert(d + seq!['/'] + name + seq!['.'] + "mod"@ =~= d + seq!['/'] + name + seq![
        '.',
        'm',
        'o',
        'd',
    ]);
}

/// Two modules share an interface file only if they share their name.
pub proof fn lemma_mod_path_injective(d: Seq<char>, x: Seq<char>, y: Seq<char>)
    requires
        is_module_name(x),
        is_module_name(y),
    ensures
        mod_path(d, x) == mod_path(d, y) <==> x == y,
{
    lemma_mod_path(d, x);
    lemma_mod_path(d, y);
    if mod_path(d, x) == mod_path(d, y) {
        let px = mod_path(d, x);
        let py = mod_path(d, y);
        assert(px.len() == py.len());
        assert(x =~= px.subrange(d.len() + 1int, d.len() + 1int + x.len()));
        assert(y =~= py.subrange(d.len() + 1int, d.len() + 1int + y.len()));
    }
}

/// Interface paths of a file's modules are equal exactly when the module names are.
pub proof fn lemma_paths_match_names(b: BuildView, r1: Seq<char>, l1: Seq<Option<Seq<char>>>, r2: Seq<char>, l2: Seq<Option<Seq<char>>>, a: int, c: int)
    requires
        0 <= a < use_names(l1).len(),
        0 <= c < module_names(l2).len(),
    ensures
        compile_of(b, r1, l1).uses[a] == compile_of(b, r2, l2).modules[c] <==> use_names(l1)[a]
            == module_names(l2)[c],
{
    lemma_names_are_module_names(l1);
    lemma_names_are_module_names(l2);
    lemma_mod_path_injective(b.mod_dir, use_names(l1)[a], module_names(l2)[c]);
}

/// A module that one source uses and another declares resolves to the same
/// interface file on both sides: the used path is among the declaring unit's
/// interface files.
pub proof fn lemma_use_meets_declaration(b: BuildView, r1: Seq<char>, l1: Seq<Option<Seq<char>>>, r2: Seq<char>, l2: Seq<Option<Seq<char>>>, name: Seq<char>)
    requires
        use_names(l1).contains(name),
        module_names(l2).contains(name),
    ensures
        compile_of(b, r1, l1).uses.contains(mod_path(b.mod_dir, name)),
        compile_of(b, r2, l2).modules.contains(mod_path(b.mod_dir, name)),
{
    let w1 = choose|w: int| 0 <= w < use_names(l1).len() && use_names(l1)[w] == name;
    assert(compile_of(b, r1, l1).uses[w1] == mod_path(b.mod_dir, name));
    let w2 = choose|w: int| 0 <= w < module_names(l2).len() && module_names(l2)[w] == name;
    assert(compile_of(b, r2, l2).modules[w2] == mod_path(b.mod_dir, name));
}

/// A `use foo` line, whatever whitespace leads it, makes `<moduleDir>/foo.mod`
/// one of the file's used interface files, and only once.
pub proof fn lemma_use_line_resolves(
    b: BuildView,
    rel: Seq<char>,
    lines: Seq<Option<Seq<char>>>,
    k: int,
    ws: Seq<char>,
    sep: Seq<char>,
    name: Seq<char>,
    rest: Seq<char>,
)
    requires
        0 <= k < lines.len(),
        lines[k] == Some(ws + "use"@ + sep + name + rest),
        forall|i: int| 0 <= i < ws.len() ==> is_space(ws[i]),
        sep.len() > 0,
        forall|i: int| 0 <= i < sep.len() ==> is_space(sep[i]),
        is_module_name(name),
        rest.len() > 0 ==> !is_word(rest[0]),
    ensures
        mod_path(b.mod_dir, name) == b.mod_dir + seq!['/'] + name + seq!['.', 'm', 'o', 'd'],
        compile_of(b, rel, lines).uses.contains(mod_path(b.mod_dir, name)),
        forall|a: int, a2: int|
            0 <= a < compile_of(b, rel, lines).uses.len() && 0 <= a2 < compile_of(
                b,
                rel,
                lines,
            ).uses.len() && #[trigger] compile_of(b, rel, lines).uses[a] == mod_path(b.mod_dir, name)
                && #[trigger] compile_of(b, rel, lines).uses[a2] == mod_path(b.mod_dir, name) ==> a
                == a2,
{
    lemma_use_line(ws, sep, name, rest);
    lemma_mod_path(b.mod_dir, name);
    assert(line_used(lines[k]) == Some(name));
    lemma_used_line_collected(lines, k);
    let names = use_names(lines);
    let w = choose|w: int| 0 <= w < names.len() && names[w] == name;
    assert(compile_of(b, rel, lines).uses[w] == mod_path(b.mod_dir, name));
    lemma_names_are_module_names(lines);
    lemma_names_distinct(lines);
    let uses = compile_of(b, rel, lines).uses;
    assert forall|a: int, a2: int|
        0 <= a < uses.len() && 0 <= a2 < uses.len() && #[trigger] uses[a] == mod_path(b.mod_dir, name)
            && #[trigger] uses[a2] == mod_path(b.mod_dir, name) implies a == a2 by {
        lemma_mod_path_injective(b.mod_dir, names[a], name);
        lemma_mod_path_injective(b.mod_dir, names[a2], name);
    }
}

/// Each file of kind `k` has its compile step among the units of kind `k`.
proof fn lemma_units_cover(b: BuildView, files: Seq<SourceView>, k: SourceKind, j: int)
    requires
        0 <= j < files.len(),
        kind_of(files[j].path) == k,
    ensures
        exists|u: int|
            0 <= u < units_of(b, files, k).len() && units_of(b, files, k)[u] == compile_of(
                b,
                files[j].path,
                lines_of(files[j]),
            ),
    decreases files.len(),
{
    let prev = units_of(b, files.drop_last(), k);
    if j < files.len() - 1 {
        lemma_units_cover(b, files.drop_last(), k, j);
        assert(files.drop_last()[j] == files[j]);
        let u = choose|u: int|
            0 <= u < prev.len() && prev[u] == compile_of(b, files[j].path, lines_of(files[j]));
        assert(units_of(b, files, k)[u] == prev[u]);
    } else {
        assert(units_of(b, files, k)[prev.len() as int] == compile_of(
            b,
            files[j].path,
            lines_of(files[j]),
        ));
    }
}

/// Each unit of kind `k` is the compile step of a file of that kind.
proof fn lemma_units_from(b: BuildView, files: Seq<SourceView>, k: SourceKind, u: int)
    requires
        0 <= u < units_of(b, files, k).len(),
    ensures
        exists|j: int|
            0 <= j < files.len() && kind_of(files[j].path) == k && units_of(b, files, k)[u]
                == compile_of(b, files[j].path, lines_of(files[j])),
    decreases files.len(),
{
    let prev = units_of(b, files.drop_last(), k);
    if u < prev.len() {
        lemma_units_from(b, files.drop_last(), k, u);
        let j = choose|j: int|
            0 <= j < files.drop_last().len() && kind_of(files.drop_last()[j].path) == k && prev[u]
                == compile_of(b, files.drop_last()[j].path, lines_of(files.drop_last()[j]));
        assert(files.drop_last()[j] == files[j]);
    } else {
        assert(units_of(b, files, k)[u] == compile_of(
            b,
            files[files.len() - 1].path,
            lines_of(files[files.len() - 1]),
        ));
    }
}

/// The link steps follow the entry points' compile steps one for one.
proof fn lemma_links_follow_entries(b: BuildView, files: Seq<SourceView>, name: Seq<char>)
    ensures
        links_of(b, files, name).len() == units_of(b, files, SourceKind::EntryPoint).len(),
        forall|l: int|
            0 <= l < links_of(b, files, name).len() ==> #[trigger] links_of(b, files, name)[l].objects
                == seq![units_of(b, files, SourceKind::EntryPoint)[l].object],
    decreases files.len(),
{
    if files.len() > 0 {
        lemma_links_follow_entries(b, files.drop_last(), name);
        let ls = links_of(b, files, name);
        let us = units_of(b, files, SourceKind::EntryPoint);
        let lp = links_of(b, files.drop_last(), name);
        let up = units_of(b, files.drop_last(), SourceKind::EntryPoint);
        assert forall|l: int| 0 <= l < ls.len() implies #[trigger] ls[l].objects == seq![us[l].object] by {
            if l < lp.len() {
                assert(ls[l] == lp[l]);
                assert(us[l] == up[l]);
            }
        }
    }
}

/// The object of a source at `rel` has the source's stem.
proof fn lemma_object_stem(b: BuildView, rel: Seq<char>)
    requires
        kind_of(rel) != SourceKind::Other,
    ensures
        file_stem(object_path(b.build_dir, rel)) == file_stem(rel),
{
    reveal_strlit("o");
    lemma_relocated_stem(b.build_dir, rel, "o"@);
}

pub open spec fn archived(g: BuildView, p: Seq<char>) -> bool {
    g.archives[0].objects.contains(p)
}

pub open spec fn linked(g: BuildView, p: Seq<char>) -> bool {
    exists|l: int| 0 <= l < g.links.len() && #[trigger] g.links[l].objects.contains(p)
}

pub open spec fn compiled(g: BuildView, p: Seq<char>) -> bool {
    exists|u: int| 0 <= u < g.compiles.len() && #[trigger] g.compiles[u].object == p
}

/// Every object goes into the archive or into a link step, and none into
/// both: the archive's objects and the link steps' objects together are the
/// compile steps' objects, and the archive shares no object with a link step.
pub proof fn lemma_archive_membership(c: ConfigView, files: Seq<SourceView>)
    ensures
        graph_of(c, files).archives.len() == 1,
        forall|p: Seq<char>|
            #![trigger archived(graph_of(c, files), p)]
            #![trigger linked(graph_of(c, files), p)]
            #![trigger compiled(graph_of(c, files), p)]
            archived(graph_of(c, files), p) || linked(graph_of(c, files), p) <==> compiled(
                graph_of(c, files),
                p,
            ),
        forall|p: Seq<char>, l: int|
            0 <= l < graph_of(c, files).links.len() && archived(graph_of(c, files), p)
                ==> !(#[trigger] graph_of(c, files).links[l].objects.contains(p)),
{
    let g = graph_of(c, files);
    let b = empty_build();
    let ord = units_of(b, files, SourceKind::Ordinary);
    let ent = units_of(b, files, SourceKind::EntryPoint);
    lemma_links_follow_entries(b, files, c.name);
    assert(g.compiles == ord + ent);
    assert forall|p: Seq<char>|
        #![trigger archived(g, p)]
        #![trigger linked(g, p)]
        #![trigger compiled(g, p)]
        archived(g, p) || linked(g, p) <==> compiled(g, p) by {
        if archived(g, p) {
            let w = choose|w: int| 0 <= w < objects_of(ord).len() && objects_of(ord)[w] == p;
            assert(g.compiles[w] == ord[w]);
            assert(g.compiles[w].object == p);
            assert(compiled(g, p));
        }
        if linked(g, p) {
            let l = choose|l: int| 0 <= l < g.links.len() && #[trigger] g.links[l].objects.contains(p);
            assert(g.links[l].objects == seq![ent[l].object]);
            assert(g.links[l].objects[0] == p);
            assert(g.compiles[ord.len() + l] == ent[l]);
            assert(g.compiles[ord.len() + l].object == p);
            assert(compiled(g, p));
        }
        if compiled(g, p) {
            let u = choose|u: int| 0 <= u < g.compiles.len() && #[trigger] g.compiles[u].object == p;
            if u < ord.len() {
                assert(g.compiles[u] == ord[u]);
                assert(objects_of(ord)[u] == p);
                assert(archived(g, p));
            } else {
                let l = u - ord.len();
                assert(g.compiles[u] == ent[l]);
                assert(g.links[l].objects == seq![ent[l].object]);
                assert(g.links[l].objects[0] == p);
                assert(g.links[l].objects.contains(p));
                assert(linked(g, p));
            }
        }
    }
    assert forall|p: Seq<char>, l: int|
        0 <= l < g.links.len() && archived(g, p) implies !(#[trigger] g.links[l].objects.contains(
        p,
    )) by {
        let w = choose|w: int| 0 <= w < objects_of(ord).len() && objects_of(ord)[w] == p;
        lemma_units_from(b, files, SourceKind::Ordinary, w);
        let j1 = choose|j: int|
            0 <= j < files.len() && kind_of(files[j].path) == SourceKind::Ordinary && ord[w]
                == compile_of(b, files[j].path, lines_of(files[j]));
        lemma_object_stem(b, files[j1].path);
        lemma_units_from(b, files, SourceKind::EntryPoint, l);
        let j2 = choose|j: int|
            0 <= j < files.len() && kind_of(files[j].path) == SourceKind::EntryPoint && ent[l]
                == compile_of(b, files[j].path, lines_of(files[j]));
        lemma_object_stem(b, files[j2].path);
        assert(g.links[l].objects == seq![ent[l].object]);
        if g.links[l].objects.contains(p) {
            assert(g.links[l].objects[0] == p);
            assert(file_stem(p) == "main"@);
            assert(file_stem(p) != "main"@);
        }
    }
}

/// A module that one source uses and another declares: both sources have
/// their compile step in the graph, and the used interface path stands, by
/// path equality, among the declaring step's interface files.
pub proof fn lemma_used_paths_meet_declarations(c: ConfigView, files: Seq<SourceView>, i: int, j: int, name: Seq<char>)
    requires
        0 <= i < files.len(),
        0 <= j < files.len(),
        kind_of(files[i].path) != SourceKind::Other,
        kind_of(files[j].path) != SourceKind::Other,
        use_names(lines_of(files[i])).contains(name),
        module_names(lines_of(files[j])).contains(name),
    ensures
        exists|u: int, v: int|
            0 <= u < graph_of(c, files).compiles.len() && 0 <= v < graph_of(c, files).compiles.len()
                && #[trigger] graph_of(c, files).compiles[u] == compile_of(
                empty_build(),
                files[i].path,
                lines_of(files[i]),
            ) && #[trigger] graph_of(c, files).compiles[v] == compile_of(
                empty_build(),
                files[j].path,
                lines_of(files[j]),
            ) && graph_of(c, files).compiles[u].uses.contains(mod_path(empty_build().mod_dir, name))
                && graph_of(c, files).compiles[v].modules.contains(
                mod_path(empty_build().mod_dir, name),
            ),
{
    let g = graph_of(c, files);
    let b = empty_build();
    let ord = units_of(b, files, SourceKind::Ordinary);
    let ent = units_of(b, files, SourceKind::EntryPoint);
    assert(g.compiles == ord + ent);
    lemma_use_meets_declaration(b, files[i].path, lines_of(files[i]), files[j].path, lines_of(files[j]), name);
    let ki = kind_of(files[i].path);
    lemma_units_cover(b, files, ki, i);
    let ui = choose|u: int|
        0 <= u < units_of(b, files, ki).len() && units_of(b, files, ki)[u] == compile_of(
            b,
            files[i].path,
            lines_of(files[i]),
        );
    let u = if ki == SourceKind::Ordinary { ui } else { ord.len() + ui };
    assert(g.compiles[u] == compile_of(b, files[i].path, lines_of(files[i])));
    let kj = kind_of(files[j].path);
    lemma_units_cover(b, files, kj, j);
    let vj = choose|v: int|
        0 <= v < units_of(b, files, kj).len() && units_of(b, files, kj)[v] == compile_of(
            b,
            files[j].path,
            lines_of(files[j]),
        );
    let v = if kj == SourceKind::Ordinary { vj } else { ord.len() + vj };
    assert(g.compiles[v] == compile_of(b, files[j].path, lines_of(files[j])));
}

/// A `module procedure X` line adds no interface file to its compile step:
/// the step is the one of the file without that line, but for nothing else.
pub proof fn lemma_procedure_line_adds_no_interface(b: BuildView, rel: Seq<char>, lines: Seq<Option<Seq<char>>>, k: int)
    requires
        0 <= k < lines.len(),
        lines[k] is Some,
        keyword_capture(procedure_words(), lines[k]->Some_0) is Some,
    ensures
        compile_of(b, rel, lines).modules == compile_of(b, rel, lines.remove(k)).modules,
{
    lemma_module_procedure_not_defined(lines, k);
}

/// A file whose only undecodable line is at index `k` warns once, for line
/// `k + 1`, and its compile step is the one of the file without that line.
pub proof fn lemma_bad_line_skipped(b: BuildView, rel: Seq<char>, lines: Seq<Option<Seq<char>>>, k: int)
    requires
        0 <= k < lines.len(),
        lines[k] is None,
        forall|i: int| 0 <= i < lines.len() && i != k ==> lines[i] is Some,
    ensures
        unreadable_numbers(lines) == seq![k + 1],
        compile_of(b, rel, lines) == compile_of(b, rel, lines.remove(k)),
{
    lemma_single_bad_line(lines, k);
}

/// The same for the graph that `try_from_config` builds from a listing in
/// any order: a module that one source uses and another declares has, in the
/// user's compile step, the interface path that the declaring step produces.
pub proof fn lemma_tree_paths_meet_declarations(c: ConfigView, files: Seq<SourceView>, i: int, j: int, name: Seq<char>)
    requires
        0 <= i < files.len(),
        0 <= j < files.len(),
        kind_of(files[i].path) != SourceKind::Other,
        kind_of(files[j].path) != SourceKind::Other,
        use_names(lines_of(files[i])).contains(name),
        module_names(lines_of(files[j])).contains(name),
    ensures
        exists|u: int, v: int|
            0 <= u < tree_graph(c, files).compiles.len() && 0 <= v < tree_graph(c, files).compiles.len()
                && #[trigger] tree_graph(c, files).compiles[u] == compile_of(
                empty_build(),
                files[i].path,
                lines_of(files[i]),
            ) && #[trigger] tree_graph(c, files).compiles[v] == compile_of(
                empty_build(),
                files[j].path,
                lines_of(files[j]),
            ) && tree_graph(c, files).compiles[u].uses.contains(mod_path(empty_build().mod_dir, name))
                && tree_graph(c, files).compiles[v].modules.contains(
                mod_path(empty_build().mod_dir, name),
            ),
{
    let sv = sort_by_path(files);
    lemma_sort_contents(files);
    assert(files.contains(files[i]));
    assert(files.contains(files[j]));
    assert(sv.contains(files[i]));
    assert(sv.contains(files[j]));
    let i2 = choose|x: int| 0 <= x < sv.len() && sv[x] == files[i];
    let j2 = choose|x: int| 0 <= x < sv.len() && sv[x] == files[j];
    lemma_used_paths_meet_declarations(c, sv, i2, j2, name);
    let g = tree_graph(c, files);
    assert(g == graph_of(c, sv));
    let p = mod_path(empty_build().mod_dir, name);
    let (u, v) = choose|u: int, v: int|
        0 <= u < g.compiles.len() && 0 <= v < g.compiles.len() && #[trigger] g.compiles[u]
            == compile_of(empty_build(), sv[i2].path, lines_of(sv[i2])) && #[trigger] g.compiles[v]
            == compile_of(empty_build(), sv[j2].path, lines_of(sv[j2])) && g.compiles[u].uses.contains(p)
            && g.compiles[v].modules.contains(p);
    assert(g.compiles[u] == compile_of(empty_build(), files[i].path, lines_of(files[i])));
    assert(g.compiles[v] == compile_of(empty_build(), files[j].path, lines_of(files[j])));
}

/// Building twice from an unchanged source tree gives the same graph, and so
/// the same Ninja file and Makefile, in whatever order the walk lists the
/// tree's files: two listings of the same files, neither naming a path twice,
/// give equal graphs.
pub proof fn lemma_build_idempotent(c: ConfigView, f1: Seq<SourceView>, f2: Seq<SourceView>)
    requires
        distinct_paths(f1),
        distinct_paths(f2),
        forall|x: SourceView| f1.contains(x) <==> f2.contains(x),
    ensures
        tree_graph(c, f1) == tree_graph(c, f2),
        forall|s: crate::buildsystem::BuildSystem|
            #[trigger] build_text(s, tree_graph(c, f1)) == build_text(s, tree_graph(c, f2)),
{
    lemma_sort_contents(f1);
    lemma_sort_contents(f2);
    lemma_sort_sorted(f1);
    lemma_sort_sorted(f2);
    lemma_sort_distinct(f1);
    lemma_sort_distinct(f2);
    let s1 = sort_by_path(f1);
    let s2 = sort_by_path(f2);
    assert forall|x: SourceView| s1.contains(x) <==> s2.contains(x) by {
        assert(s1.contains(x) <==> f1.contains(x));
        assert(s2.contains(x) <==> f2.contains(x));
    }
    lemma_sorted_unique(s1, s2);
}

} // verus!
