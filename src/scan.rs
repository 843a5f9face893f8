use vstd::prelude::*;

verus! {

/// Unicode `White_Space`, which is what `\s` matches.
pub open spec fn is_space(c: char) -> bool {
    let u = c as u32;
    (0x09 <= u <= 0x0d) || u == 0x20 || u == 0x85 || u == 0xa0 || u == 0x1680 || (0x2000 <= u
        <= 0x200a) || u == 0x2028 || u == 0x2029 || u == 0x202f || u == 0x205f || u == 0x3000
}

/// An ASCII letter.
pub open spec fn is_alpha(c: char) -> bool {
    ('a' <= c <= 'z') || ('A' <= c <= 'Z')
}

/// `[[:word:]]`: an ASCII letter, digit or underscore.
pub open spec fn is_word(c: char) -> bool {
    is_alpha(c) || ('0' <= c <= '9') || c == '_'
}

/// `s` without its leading whitespace.
pub open spec fn trim_space(s: Seq<char>) -> Seq<char>
    decreases s.len(),
{
    if s.len() > 0 && is_space(s[0]) {
        trim_space(s.drop_first())
    } else {
        s
    }
}

/// The longest prefix of `s` made of word characters.
pub open spec fn word_prefix(s: Seq<char>) -> Seq<char>
    decreases s.len(),
{
    if s.len() > 0 && is_word(s[0]) {
        seq![s[0]] + word_prefix(s.drop_first())
    } else {
        Seq::empty()
    }
}

/// The name that follows the keywords `words` at the start of `s`: optional
/// leading whitespace, each keyword followed by at least one whitespace, then
/// the longest run of word characters, of which there must be one.
pub open spec fn keyword_capture(words: Seq<Seq<char>>, s: Seq<char>) -> Option<Seq<char>>
    decreases words.len(),
{
    let t = trim_space(s);
    if words.len() == 0 {
        if t.len() > 0 && is_word(t[0]) {
            Some(word_prefix(t))
        } else {
            None
        }
    } else {
        let w = words[0];
        let rest = t.skip(w.len() as int);
        if t.len() >= w.len() && t.take(w.len() as int) == w && rest.len() > 0 && is_space(rest[0]) {
            keyword_capture(words.skip(1), rest)
        } else {
            None
        }
    }
}

/// The pattern text from the keywords onwards.
pub open spec fn keyword_tail(words: Seq<Seq<char>>) -> Seq<char>
    decreases words.len(),
{
    if words.len() == 0 {
        "([[:word:]]+)"@
    } else {
        words[0] + "\\s+"@ + keyword_tail(words.skip(1))
    }
}

/// The regular expression `^\s*w1\s+w2...\s+([[:word:]]+)`.
pub open spec fn keyword_pattern(words: Seq<Seq<char>>) -> Seq<char> {
    "^\\s*"@ + keyword_tail(words)
}

pub open spec fn opt_view(o: Option<String>) -> Option<Seq<char>> {
    match o {
        Some(s) => Some(s@),
        None => None,
    }
}

pub open spec fn words_view(words: Seq<String>) -> Seq<Seq<char>> {
    words.map_values(|w: String| w@)
}

/// Relies on `regex::Regex::new` and `regex::Regex::captures`: each of the
/// three line patterns compiles, and its first group holds what
/// `keyword_capture` states (`\s` is Unicode whitespace, `[[:word:]]` is the
/// ASCII class, the match is anchored at the start and the repetitions are
/// greedy).
#[verifier::external_body]
fn first_capture(pattern: &str, line: &str) -> (r: Option<String>)
    ensures
        pattern@ == keyword_pattern(module_words()) ==> opt_view(r) == keyword_capture(
            module_words(),
            line@,
        ),
        pattern@ == keyword_pattern(procedure_words()) ==> opt_view(r) == keyword_capture(
            procedure_words(),
            line@,
        ),
        pattern@ == keyword_pattern(use_words()) ==> opt_view(r) == keyword_capture(
            use_words(),
            line@,
        ),
{
    match regex::Regex::new(pattern) {
        Ok(re) => re.captures(line).and_then(|c| c.get(1)).map(|m| m.as_str().to_string()),
        Err(_) => None,
    }
}

/// The pattern text that matches a line starting with `words`.
fn pattern_for(words: &Vec<String>) -> (r: String)
    ensures
        r@ == keyword_pattern(words_view(words@)),
{
    let ghost ws = words_view(words@);
    let mut r = String::from_str("^\\s*");
    let mut i: usize = 0;
    assert(ws.skip(0) =~= ws);
    while i < words.len()
        invariant
            i <= words@.len(),
            ws == words_view(words@),
            r@ + keyword_tail(ws.skip(i as int)) == keyword_pattern(ws),
        decreases words@.len() - i,
    {
        proof {
            let rest = ws.skip(i as int);
            assert(rest.skip(1) =~= ws.skip(i + 1));
            assert(rest[0] == words@[i as int]@);
            assert(r@ + keyword_tail(rest) =~= r@ + words@[i as int]@ + "\\s+"@ + keyword_tail(
                ws.skip(i + 1),
            ));
        }
        r.append(words[i].as_str());
        r.append("\\s+");
        i = i + 1;
    }
    proof {
        assert(ws.skip(i as int) =~= Seq::<Seq<char>>::empty());
    }
    r.append("([[:word:]]+)");
    r
}

/// The keywords of a module declaration.
pub open spec fn module_words() -> Seq<Seq<char>> {
    seq!["module"@]
}

/// The keywords of a module procedure, which begins as a module declaration does.
pub open spec fn procedure_words() -> Seq<Seq<char>> {
    seq!["module"@, "procedure"@]
}

/// The keywords of a module use.
pub open spec fn use_words() -> Seq<Seq<char>> {
    seq!["use"@]
}

/// The module that a line declares: a `module X` line that is not a
/// `module procedure Y` line.
pub open spec fn defined_name(line: Seq<char>) -> Option<Seq<char>> {
    if keyword_capture(procedure_words(), line) is Some {
        None
    } else {
        keyword_capture(module_words(), line)
    }
}

/// The module that a `use X` line uses.
pub open spec fn used_name(line: Seq<char>) -> Option<Seq<char>> {
    keyword_capture(use_words(), line)
}

/// The module that `line` declares, if any. A `module procedure` line
/// declares none.
pub fn get_defined_module(line: &str) -> (r: Option<String>)
    ensures
        opt_view(r) == defined_name(line@),
{
    let procedure = vec![String::from_str("module"), String::from_str("procedure")];
    assert(words_view(procedure@) =~= procedure_words());
    let found = first_capture(pattern_for(&procedure).as_str(), line);
    if found.is_some() {
        return None;
    }
    let module = vec![String::from_str("module")];
    assert(words_view(module@) =~= module_words());
    first_capture(pattern_for(&module).as_str(), line)
}

/// The module that `line` uses, if any.
pub fn get_used_module(line: &str) -> (r: Option<String>)
    ensures
        opt_view(r) == used_name(line@),
{
    let uses = vec![String::from_str("use")];
    assert(words_view(uses@) =~= use_words());
    first_capture(pattern_for(&uses).as_str(), line)
}

/// The lines of a file as text; `None` stands for a line that could not be decoded.
pub open spec fn lines_view(lines: Seq<Option<String>>) -> Seq<Option<Seq<char>>> {
    lines.map_values(|l: Option<String>| opt_view(l))
}

/// `acc` with `n` added at its end, unless `n` is absent or already there.
pub open spec fn add_name(acc: Seq<Seq<char>>, n: Option<Seq<char>>) -> Seq<Seq<char>> {
    match n {
        Some(x) => if acc.contains(x) {
            acc
        } else {
            acc.push(x)
        },
        None => acc,
    }
}

pub open spec fn line_defined(l: Option<Seq<char>>) -> Option<Seq<char>> {
    match l {
        Some(t) => defined_name(t),
        None => None,
    }
}

pub open spec fn line_used(l: Option<Seq<char>>) -> Option<Seq<char>> {
    match l {
        Some(t) => used_name(t),
        None => None,
    }
}

/// The modules that the readable lines declare, each once, in order of first
/// declaration.
pub open spec fn module_names(lines: Seq<Option<Seq<char>>>) -> Seq<Seq<char>>
    decreases lines.len(),
{
    if lines.len() == 0 {
        Seq::empty()
    } else {
        add_name(module_names(lines.drop_last()), line_defined(lines.last()))
    }
}

/// The modules that the readable lines use, each once, in order of first use.
pub open spec fn use_names(lines: Seq<Option<Seq<char>>>) -> Seq<Seq<char>>
    decreases lines.len(),
{
    if lines.len() == 0 {
        Seq::empty()
    } else {
        add_name(use_names(lines.drop_last()), line_used(lines.last()))
    }
}

/// The 1-based numbers of the lines that could not be decoded, in order.
pub open spec fn unreadable_numbers(lines: Seq<Option<Seq<char>>>) -> Seq<int>
    decreases lines.len(),
{
    if lines.len() == 0 {
        Seq::empty()
    } else if lines.last() is None {
        unreadable_numbers(lines.drop_last()).push(lines.len() as int)
    } else {
        unreadable_numbers(lines.drop_last())
    }
}

/// Adds `n` to `names` unless it is absent or already there.
fn push_unique(names: &mut Vec<String>, n: Option<String>)
    ensures
        words_view(final(names)@) == add_name(words_view(old(names)@), opt_view(n)),
{
    if let Some(x) = n {
        let ghost before = words_view(names@);
        let mut j: usize = 0;
        while j < names.len()
            invariant
                j <= names@.len(),
                names@ == old(names)@,
                opt_view(n) == Some(x@),
                before == words_view(names@),
                forall|k: int| 0 <= k < j ==> before[k] != x@,
            decreases names@.len() - j,
        {
            if names[j] == x {
                assert(before[j as int] == x@);
                assert(before.contains(x@));
                return;
            }
            j = j + 1;
        }
        assert(!before.contains(x@));
        names.push(x);
        assert(words_view(names@) =~= before.push(x@));
    }
}

/// The modules that a file's lines declare, each once, in order of first
/// declaration. Lines that could not be decoded are skipped.
pub fn defined_modules(lines: &Vec<Option<String>>) -> (r: Vec<String>)
    ensures
        words_view(r@) == module_names(lines_view(lines@)),
{
    let ghost ls = lines_view(lines@);
    let mut r: Vec<String> = Vec::new();
    let mut i: usize = 0;
    assert(words_view(r@) =~= Seq::<Seq<char>>::empty());
    while i < lines.len()
        invariant
            i <= lines@.len(),
            ls == lines_view(lines@),
            words_view(r@) == module_names(ls.take(i as int)),
        decreases lines@.len() - i,
    {
        assert(ls.take(i + 1).drop_last() =~= ls.take(i as int));
        let found = match &lines[i] {
            Some(l) => get_defined_module(l.as_str()),
            None => None,
        };
        push_unique(&mut r, found);
        i = i + 1;
    }
    assert(ls.take(i as int) =~= ls);
    r
}

/// The modules that a file's lines use, each once, in order of first use.
/// Lines that could not be decoded are skipped.
pub fn used_modules(lines: &Vec<Option<String>>) -> (r: Vec<String>)
    ensures
        words_view(r@) == use_names(lines_view(lines@)),
{
    let ghost ls = lines_view(lines@);
    let mut r: Vec<String> = Vec::new();
    let mut i: usize = 0;
    assert(words_view(r@) =~= Seq::<Seq<char>>::empty());
    while i < lines.len()
        invariant
            i <= lines@.len(),
            ls == lines_view(lines@),
            words_view(r@) == use_names(ls.take(i as int)),
        decreases lines@.len() - i,
    {
        assert(ls.take(i + 1).drop_last() =~= ls.take(i as int));
        let found = match &lines[i] {
            Some(l) => get_used_module(l.as_str()),
            None => None,
        };
        push_unique(&mut r, found);
        i = i + 1;
    }
    assert(ls.take(i as int) =~= ls);
    r
}

/// The 1-based numbers of the lines that could not be decoded; each one is
/// worth a warning.
pub fn unreadable_lines(lines: &Vec<Option<String>>) -> (r: Vec<usize>)
    ensures
        r@.map_values(|n: usize| n as int) == unreadable_numbers(lines_view(lines@)),
{
    let ghost ls = lines_view(lines@);
    let mut r: Vec<usize> = Vec::new();
    let mut i: usize = 0;
    assert(r@.map_values(|n: usize| n as int) =~= Seq::<int>::empty());
    while i < lines.len()
        invariant
            i <= lines@.len(),
            ls == lines_view(lines@),
            r@.map_values(|n: usize| n as int) == unreadable_numbers(ls.take(i as int)),
        decreases lines@.len() - i,
    {
        let ghost prev = r@;
        assert(ls.take(i + 1).drop_last() =~= ls.take(i as int));
        if lines[i].is_none() {
            r.push(i + 1);
            assert(r@.map_values(|n: usize| n as int) =~= prev.map_values(|n: usize| n as int).push(
                i + 1,
            ));
        }
        i = i + 1;
    }
    assert(ls.take(i as int) =~= ls);
    r
}

/// A line that declares no module can be dropped without changing what the
/// file declares.
pub proof fn lemma_silent_line_defines_nothing(lines: Seq<Option<Seq<char>>>, k: int)
    requires
        0 <= k < lines.len(),
        line_defined(lines[k]) is None,
    ensures
        module_names(lines) == module_names(lines.remove(k)),
    decreases lines.len(),
{
    if k == lines.len() - 1 {
        assert(lines.remove(k) =~= lines.drop_last());
    } else {
        lemma_silent_line_defines_nothing(lines.drop_last(), k);
        assert(lines.remove(k).drop_last() =~= lines.drop_last().remove(k));
        assert(lines.remove(k).last() == lines.last());
    }
}

/// A line that uses no module can be dropped without changing what the file
/// uses.
pub proof fn lemma_silent_line_uses_nothing(lines: Seq<Option<Seq<char>>>, k: int)
    requires
        0 <= k < lines.len(),
        line_used(lines[k]) is None,
    ensures
        use_names(lines) == use_names(lines.remove(k)),
    decreases lines.len(),
{
    if k == lines.len() - 1 {
        assert(lines.remove(k) =~= lines.drop_last());
    } else {
        lemma_silent_line_uses_nothing(lines.drop_last(), k);
        assert(lines.remove(k).drop_last() =~= lines.drop_last().remove(k));
        assert(lines.remove(k).last() == lines.last());
    }
}

/// A `module procedure X` line never contributes `X`, nor anything else, to
/// the modules that a file declares.
pub proof fn lemma_module_procedure_not_defined(lines: Seq<Option<Seq<char>>>, k: int)
    requires
        0 <= k < lines.len(),
        lines[k] is Some,
        keyword_capture(procedure_words(), lines[k]->Some_0) is Some,
    ensures
        defined_name(lines[k]->Some_0) is None,
        module_names(lines) == module_names(lines.remove(k)),
{
    lemma_silent_line_defines_nothing(lines, k);
}

/// The numbers of the unreadable lines, read off one by one.
proof fn lemma_unreadable_numbers(lines: Seq<Option<Seq<char>>>)
    ensures
        forall|n: int|
            unreadable_numbers(lines).contains(n) <==> 1 <= n <= lines.len() && lines[n - 1] is None,
        forall|a: int, b: int|
            0 <= a < b < unreadable_numbers(lines).len() ==> unreadable_numbers(lines)[a]
                < unreadable_numbers(lines)[b],
    decreases lines.len(),
{
    if lines.len() > 0 {
        let prev = lines.drop_last();
        lemma_unreadable_numbers(prev);
        let u = unreadable_numbers(lines);
        let up = unreadable_numbers(prev);
        assert forall|a: int| 0 <= a < up.len() implies up[a] < lines.len() by {
            assert(up.contains(up[a]));
        }
        assert forall|n: int| u.contains(n) <==> 1 <= n <= lines.len() && lines[n - 1] is None by {
            if 1 <= n <= lines.len() && lines[n - 1] is None {
                if n == lines.len() {
                    assert(u.last() == n);
                } else {
                    assert(up.contains(n));
                    let w = choose|w: int| 0 <= w < up.len() && up[w] == n;
                    assert(u[w] == n);
                }
            }
            if u.contains(n) {
                let w = choose|w: int| 0 <= w < u.len() && u[w] == n;
                if w < up.len() {
                    assert(up[w] == n);
                    assert(up.contains(n));
                }
            }
        }
    }
}

/// A file whose only undecodable line is at index `k` gets exactly one
/// warning, naming line `k + 1`; every other line is still scanned.
pub proof fn lemma_single_bad_line(lines: Seq<Option<Seq<char>>>, k: int)
    requires
        0 <= k < lines.len(),
        lines[k] is None,
        forall|i: int| 0 <= i < lines.len() && i != k ==> lines[i] is Some,
    ensures
        unreadable_numbers(lines) == seq![k + 1],
        module_names(lines) == module_names(lines.remove(k)),
        use_names(lines) == use_names(lines.remove(k)),
{
    lemma_unreadable_numbers(lines);
    lemma_silent_line_defines_nothing(lines, k);
    lemma_silent_line_uses_nothing(lines, k);
    let u = unreadable_numbers(lines);
    assert(u.contains(k + 1));
    let w = choose|w: int| 0 <= w < u.len() && u[w] == k + 1;
    assert forall|a: int| 0 <= a < u.len() implies u[a] == k + 1 by {
        assert(u.contains(u[a]));
    }
    if u.len() > 1 {
        assert(u[0] < u[1]);
    }
    assert(u =~= seq![k + 1]);
}

/// Leading whitespace is skipped up to the first other character.
proof fn lemma_trim_space(ws: Seq<char>, x: Seq<char>)
    requires
        forall|i: int| 0 <= i < ws.len() ==> is_space(ws[i]),
        x.len() > 0 ==> !is_space(x[0]),
    ensures
        trim_space(ws + x) == x,
    decreases ws.len(),
{
    if ws.len() == 0 {
        assert(ws + x =~= x);
    } else {
        assert((ws + x).drop_first() =~= ws.drop_first() + x);
        lemma_trim_space(ws.drop_first(), x);
    }
}

/// A module name: one or more word characters.
pub open spec fn is_module_name(name: Seq<char>) -> bool {
    name.len() > 0 && forall|i: int| 0 <= i < name.len() ==> is_word(name[i])
}

/// A name's word characters end where the name does.
proof fn lemma_word_prefix(name: Seq<char>, rest: Seq<char>)
    requires
        forall|i: int| 0 <= i < name.len() ==> is_word(name[i]),
        rest.len() > 0 ==> !is_word(rest[0]),
    ensures
        word_prefix(name + rest) == name,
    decreases name.len(),
{
    if name.len() == 0 {
        assert(name + rest =~= rest);
    } else {
        assert((name + rest).drop_first() =~= name.drop_first() + rest);
        lemma_word_prefix(name.drop_first(), rest);
        assert(name =~= seq![name[0]] + name.drop_first());
    }
}

/// A `use foo` line, with any leading whitespace and any whitespace between
/// the keyword and the name, uses exactly `foo`.
pub proof fn lemma_use_line(ws: Seq<char>, sep: Seq<char>, name: Seq<char>, rest: Seq<char>)
    requires
        forall|i: int| 0 <= i < ws.len() ==> is_space(ws[i]),
        sep.len() > 0,
        forall|i: int| 0 <= i < sep.len() ==> is_space(sep[i]),
        is_module_name(name),
        rest.len() > 0 ==> !is_word(rest[0]),
    ensures
        used_name(ws + "use"@ + sep + name + rest) == Some(name),
{
    reveal_strlit("use");
    let kw = "use"@;
    let line = ws + kw + sep + name + rest;
    let t = kw + sep + name + rest;
    assert(line =~= ws + t);
    assert(t[0] == 'u');
    assert(!is_space('u'));
    assert(!is_space(name[0]));
    lemma_trim_space(ws, t);
    assert(trim_space(line) == t);
    assert(t.take(3) =~= kw);
    let after = t.skip(3);
    assert(after =~= sep + (name + rest));
    lemma_trim_space(sep, name + rest);
    lemma_word_prefix(name, rest);
    assert(use_words().skip(1) =~= Seq::<Seq<char>>::empty());
    assert((name + rest)[0] == name[0]);
    assert(keyword_capture(Seq::<Seq<char>>::empty(), after) == Some(name));
    assert(t.len() >= kw.len() && t.take(kw.len() as int) == kw && after.len() > 0 && is_space(after[0]));
}

proof fn lemma_word_prefix_words(s: Seq<char>)
    ensures
        forall|i: int| 0 <= i < word_prefix(s).len() ==> is_word(word_prefix(s)[i]),
        s.len() > 0 && is_word(s[0]) ==> word_prefix(s).len() > 0 && word_prefix(s)[0] == s[0],
    decreases s.len(),
{
    if s.len() > 0 && is_word(s[0]) {
        lemma_word_prefix_words(s.drop_first());
        let w = word_prefix(s);
        assert forall|i: int| 0 <= i < w.len() implies is_word(w[i]) by {
            if i > 0 {
                assert(w[i] == word_prefix(s.drop_first())[i - 1]);
            }
        }
    }
}

/// What a keyword pattern captures is a module name.
pub proof fn lemma_capture_is_name(words: Seq<Seq<char>>, s: Seq<char>)
    ensures
        keyword_capture(words, s) matches Some(x) ==> is_module_name(x),
    decreases words.len(),
{
    let t = trim_space(s);
    if words.len() == 0 {
        lemma_word_prefix_words(t);
    } else {
        let rest = t.skip(words[0].len() as int);
        lemma_capture_is_name(words.skip(1), rest);
    }
}

/// Every module that a file declares or uses has a module name.
pub proof fn lemma_names_are_module_names(lines: Seq<Option<Seq<char>>>)
    ensures
        forall|i: int| 0 <= i < module_names(lines).len() ==> is_module_name(#[trigger] module_names(lines)[i]),
        forall|i: int| 0 <= i < use_names(lines).len() ==> is_module_name(#[trigger] use_names(lines)[i]),
    decreases lines.len(),
{
    if lines.len() > 0 {
        let prev = lines.drop_last();
        lemma_names_are_module_names(prev);
        if let Some(l) = lines.last() {
            lemma_capture_is_name(procedure_words(), l);
            lemma_capture_is_name(module_words(), l);
            lemma_capture_is_name(use_words(), l);
        }
        let m = module_names(lines);
        assert forall|i: int| 0 <= i < m.len() implies is_module_name(#[trigger] m[i]) by {
            if i < module_names(prev).len() {
                assert(m[i] == module_names(prev)[i]);
            }
        }
        let u = use_names(lines);
        assert forall|i: int| 0 <= i < u.len() implies is_module_name(#[trigger] u[i]) by {
            if i < use_names(prev).len() {
                assert(u[i] == use_names(prev)[i]);
            }
        }
    }
}

/// Names are collected once each.
pub proof fn lemma_names_distinct(lines: Seq<Option<Seq<char>>>)
    ensures
        module_names(lines).no_duplicates(),
        use_names(lines).no_duplicates(),
    decreases lines.len(),
{
    if lines.len() > 0 {
        lemma_names_distinct(lines.drop_last());
    }
}

/// A line that uses a module puts it among the file's used modules.
pub proof fn lemma_used_line_collected(lines: Seq<Option<Seq<char>>>, k: int)
    requires
        0 <= k < lines.len(),
        line_used(lines[k]) is Some,
    ensures
        use_names(lines).contains(line_used(lines[k])->Some_0),
    decreases lines.len(),
{
    let x = line_used(lines[k])->Some_0;
    let prev = use_names(lines.drop_last());
    if k < lines.len() - 1 {
        lemma_used_line_collected(lines.drop_last(), k);
        assert(lines.drop_last()[k] == lines[k]);
    }
    let cur = use_names(lines);
    if prev.contains(x) {
        let w = choose|w: int| 0 <= w < prev.len() && prev[w] == x;
        assert(cur[w] == x);
    } else {
        assert(k == lines.len() - 1);
        assert(cur[cur.len() - 1] == x);
    }
}

} // verus!
