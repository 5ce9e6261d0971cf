use vstd::prelude::*;

verus! {

// ── regex ────────────────────────────────────────────────────────────────────

#[verifier::external_type_specification]
#[verifier::external_body]
pub struct ExRegex(regex::Regex);

#[verifier::external_type_specification]
#[verifier::external_body]
pub struct ExRegexError(regex::Error);

/// Whether `regex::Regex::new` accepts `pattern`.
pub uninterp spec fn regex_accepts(pattern: Seq<char>) -> bool;

/// The byte offset at which the leftmost-first match of `pattern` in `text`
/// starts (`Regex::find`), if there is a match.
pub uninterp spec fn regex_first_match(pattern: Seq<char>, text: Seq<char>) -> Option<usize>;

/// The number of successive non-overlapping matches of `pattern` in `text`
/// (`Regex::find_iter`).
pub uninterp spec fn regex_match_count(pattern: Seq<char>, text: Seq<char>) -> nat;

/// `text` with its first match of `pattern` replaced by `rep`, where `rep`
/// may refer to capture groups with `$name` (`Regex::replace`).
pub uninterp spec fn regex_replace_first(pattern: Seq<char>, text: Seq<char>, rep: Seq<char>) -> Seq<char>;

/// `text` with every non-overlapping match of `pattern` replaced by `rep`
/// (`Regex::replace_all`).
pub uninterp spec fn regex_replace_every(pattern: Seq<char>, text: Seq<char>, rep: Seq<char>) -> Seq<char>;

/// A compiled regular expression together with the pattern it was compiled
/// from. Only `regex_new` makes one, so `re` is always `source` compiled.
pub struct RegexPattern {
    source: String,
    re: regex::Regex,
}

impl RegexPattern {
    /// The pattern that this regular expression was compiled from.
    pub closed spec fn source(&self) -> Seq<char> {
        self.source@
    }
}

/// `regex::Regex::new`: compiles `pattern`; it succeeds exactly when the
/// pattern is accepted, and the result remembers the pattern.
#[verifier::external_body]
fn regex_new(pattern: &str) -> (r: Result<RegexPattern, regex::Error>)
    ensures
        r is Ok <==> regex_accepts(pattern@),
        r matches Ok(p) ==> p.source() == pattern@,
{
    regex::Regex::new(pattern).map(|re| RegexPattern { source: pattern.to_string(), re })
}

/// `regex::Error`'s message (`to_string`); nothing is stated of its text.
#[verifier::external_body]
fn regex_error_text(e: &regex::Error) -> String {
    e.to_string()
}

/// `Regex::find(..).start()`: where the first match starts, in bytes; the
/// offset lies within the text.
#[verifier::external_body]
pub(crate) fn regex_find_start(p: &RegexPattern, text: &str) -> (r: Option<usize>)
    ensures
        r == regex_first_match(p.source(), text@),
        r matches Some(s) ==> s <= text.len(),
{
    p.re.find(text).map(|m| m.start())
}

/// `Regex::is_match`: true exactly when there is a match, that is when
/// `find` gives one.
#[verifier::external_body]
pub(crate) fn regex_is_match(p: &RegexPattern, text: &str) -> (r: bool)
    ensures
        r == (regex_first_match(p.source(), text@) is Some),
{
    p.re.is_match(text)
}

/// `Regex::find_iter(..).count()`: the number of matches; it is positive
/// exactly when there is a first match.
#[verifier::external_body]
pub(crate) fn regex_count(p: &RegexPattern, text: &str) -> (r: usize)
    ensures
        r as nat == regex_match_count(p.source(), text@),
        (r > 0) == (regex_first_match(p.source(), text@) is Some),
{
    p.re.find_iter(text).count()
}

/// `Regex::replace`: the text with its first match replaced; without a
/// match the text comes back unchanged.
#[verifier::external_body]
pub(crate) fn regex_replace(p: &RegexPattern, text: &str, rep: &str) -> (r: String)
    ensures
        r@ == regex_replace_first(p.source(), text@, rep@),
        regex_first_match(p.source(), text@) is None ==> r@ == text@,
{
    p.re.replace(text, rep).to_string()
}

/// `Regex::replace_all`: the text with every match replaced; without a
/// match the text comes back unchanged.
#[verifier::external_body]
pub(crate) fn regex_replace_all(p: &RegexPattern, text: &str, rep: &str) -> (r: String)
    ensures
        r@ == regex_replace_every(p.source(), text@, rep@),
        regex_first_match(p.source(), text@) is None ==> r@ == text@,
{
    p.re.replace_all(text, rep).to_string()
}

/// The prefix of the message given for a pattern that does not compile.
pub open spec fn invalid_regex_prefix() -> Seq<char> {
    "invalid regex: "@
}

/// Whether `m` starts with `prefix`.
pub open spec fn starts_with(m: Seq<char>, prefix: Seq<char>) -> bool {
    m.len() >= prefix.len() && m.take(prefix.len() as int) == prefix
}

/// Compiles a regular expression; a pattern that does not compile gives
/// `invalid regex: ` followed by the compiler's message.
pub fn compile_regex(pattern: &str) -> (r: Result<RegexPattern, String>)
    ensures
        r is Ok <==> regex_accepts(pattern@),
        r matches Ok(p) ==> p.source() == pattern@,
        r matches Err(m) ==> starts_with(m@, invalid_regex_prefix()),
{
    match regex_new(pattern) {
        Ok(p) => Ok(p),
        Err(e) => {
            let mut m = String::new();
            m.append("invalid regex: ");
            let t = regex_error_text(&e);
            m.append(t.as_str());
            assert(m@.take(invalid_regex_prefix().len() as int) =~= invalid_regex_prefix());
            Err(m)
        },
    }
}

// ── globset ──────────────────────────────────────────────────────────────────

#[verifier::external_type_specification]
#[verifier::external_body]
pub struct ExGlob(globset::Glob);

#[verifier::external_type_specification]
#[verifier::external_body]
pub struct ExGlobSet(globset::GlobSet);

#[verifier::external_type_specification]
#[verifier::external_body]
pub struct ExGlobSetBuilder(globset::GlobSetBuilder);

#[verifier::external_type_specification]
#[verifier::external_body]
pub struct ExGlobError(globset::Error);

/// Whether `globset::Glob::new` accepts `pattern`.
pub uninterp spec fn glob_accepts(pattern: Seq<char>) -> bool;

/// Whether the glob `pattern` matches `path` (`globset::GlobSet::is_match`
/// asks this of each glob of the set).
pub uninterp spec fn glob_matches(pattern: Seq<char>, path: Seq<char>) -> bool;

/// Whether `GlobSetBuilder::build` succeeds for these globs.
pub uninterp spec fn glob_set_builds(globs: Seq<Seq<char>>) -> bool;

/// The patterns of the globs added to a builder, in order.
pub uninterp spec fn builder_globs(b: globset::GlobSetBuilder) -> Seq<Seq<char>>;

/// The patterns of the globs in a set, in order.
pub uninterp spec fn set_globs(s: globset::GlobSet) -> Seq<Seq<char>>;

/// Whether some of the glob patterns matches `path`.
pub open spec fn any_glob_matches(globs: Seq<Seq<char>>, path: Seq<char>) -> bool {
    exists|i: int| 0 <= i < globs.len() && glob_matches(#[trigger] globs[i], path)
}

/// A parsed glob together with its pattern. Only `glob_new` makes one, so
/// `glob` is always `source` parsed.
pub struct GlobPattern {
    source: String,
    glob: globset::Glob,
}

impl GlobPattern {
    /// The pattern that this glob was parsed from.
    pub closed spec fn source(&self) -> Seq<char> {
        self.source@
    }
}

/// `globset::Glob::new`: parses `pattern`; it succeeds exactly when the
/// pattern is accepted, and the result remembers the pattern.
#[verifier::external_body]
fn glob_new(pattern: &str) -> (r: Result<GlobPattern, globset::Error>)
    ensures
        r is Ok <==> glob_accepts(pattern@),
        r matches Ok(g) ==> g.source() == pattern@,
{
    globset::Glob::new(pattern).map(|glob| GlobPattern { source: pattern.to_string(), glob })
}

/// `globset::GlobSetBuilder::new`: a builder without globs.
#[verifier::external_body]
fn glob_builder_new() -> (b: globset::GlobSetBuilder)
    ensures
        builder_globs(b) == Seq::<Seq<char>>::empty(),
{
    globset::GlobSetBuilder::new()
}

/// `globset::GlobSetBuilder::add`: appends the glob.
#[verifier::external_body]
fn glob_builder_add(b: &mut globset::GlobSetBuilder, g: GlobPattern)
    ensures
        builder_globs(*final(b)) == builder_globs(*old(b)).push(g.source()),
{
    b.add(g.glob);
}

/// `globset::GlobSetBuilder::build`: a set of the globs added, when their
/// matchers can be built.
#[verifier::external_body]
fn glob_builder_build(b: &globset::GlobSetBuilder) -> (r: Result<globset::GlobSet, globset::Error>)
    ensures
        r is Ok <==> glob_set_builds(builder_globs(*b)),
        r matches Ok(s) ==> set_globs(s) == builder_globs(*b),
{
    b.build()
}

/// `globset::GlobSet::is_match`: whether some glob of the set matches the
/// path.
#[verifier::external_body]
pub(crate) fn glob_set_is_match(s: &globset::GlobSet, path: &str) -> (r: bool)
    ensures
        r == (exists|i: int| 0 <= i < set_globs(*s).len() && glob_matches(#[trigger] set_globs(*s)[i], path@)),
{
    s.is_match(path)
}

/// `globset::Error`'s message (`to_string`); nothing is stated of its text.
#[verifier::external_body]
fn glob_error_text(e: &globset::Error) -> String {
    e.to_string()
}

/// The prefix of the message for a glob that does not parse.
pub open spec fn invalid_glob_prefix() -> Seq<char> {
    "invalid glob: "@
}

/// The prefix of the message for a glob set that cannot be built.
pub open spec fn glob_error_prefix() -> Seq<char> {
    "glob error: "@
}

pub(crate) fn prefixed(prefix: &str, text: String) -> (m: String)
    ensures
        m@ == prefix@ + text@,
        starts_with(m@, prefix@),
{
    let mut m = prefix.to_owned();
    m.append(text.as_str());
    assert(m@.take(prefix@.len() as int) =~= prefix@);
    m
}

/// Builds a glob set holding the single glob `pattern`; a pattern that
/// does not parse gives `invalid glob: ...`, a set that cannot be built
/// `glob error: ...`.
pub fn compile_glob(pattern: &str) -> (r: Result<globset::GlobSet, String>)
    ensures
        r is Ok <==> glob_accepts(pattern@) && glob_set_builds(seq![pattern@]),
        r matches Ok(s) ==> set_globs(s) == seq![pattern@],
        !glob_accepts(pattern@) ==> (r matches Err(m) && starts_with(m@, invalid_glob_prefix())),
        glob_accepts(pattern@) && !glob_set_builds(seq![pattern@]) ==> (r matches Err(m) && starts_with(
            m@,
            glob_error_prefix(),
        )),
{
    let g = match glob_new(pattern) {
        Ok(g) => g,
        Err(e) => return Err(prefixed("invalid glob: ", glob_error_text(&e))),
    };
    let mut b = glob_builder_new();
    glob_builder_add(&mut b, g);
    assert(builder_globs(b) == seq![pattern@]);
    match glob_builder_build(&b) {
        Ok(s) => Ok(s),
        Err(e) => Err(prefixed("glob error: ", glob_error_text(&e))),
    }
}

// ── ignore (file types) ──────────────────────────────────────────────────────

#[verifier::external_type_specification]
#[verifier::external_body]
pub struct ExTypesBuilder(ignore::types::TypesBuilder);

#[verifier::external_type_specification]
#[verifier::external_body]
pub struct ExTypes(ignore::types::Types);

#[verifier::external_type_specification]
#[verifier::external_body]
pub struct ExIgnoreError(ignore::Error);

/// The names selected in a types builder, in order.
pub uninterp spec fn type_selections(tb: ignore::types::TypesBuilder) -> Seq<Seq<char>>;

/// The file type definitions of a types builder: each defined name with
/// its globs, in the order they were added.
pub uninterp spec fn type_globs(tb: ignore::types::TypesBuilder) -> Map<Seq<char>, Seq<Seq<char>>>;

/// The names of the file types defined in a types builder.
pub open spec fn type_definitions(tb: ignore::types::TypesBuilder) -> Set<Seq<char>> {
    type_globs(tb).dom()
}

/// The names selected in a file type matcher, in order.
pub uninterp spec fn types_selected(t: ignore::types::Types) -> Seq<Seq<char>>;

/// Whether every one of `globs`, compiled with `literal_separator`, is
/// accepted and a glob set of all of them, in order, can be built.
pub uninterp spec fn typed_globs_build(globs: Seq<Seq<char>>) -> bool;

/// The globs of the selected types, selection after selection.
pub open spec fn selected_globs(sel: Seq<Seq<char>>, defs: Map<Seq<char>, Seq<Seq<char>>>) -> Seq<Seq<char>>
    decreases sel.len(),
{
    if sel.len() == 0 {
        Seq::<Seq<char>>::empty()
    } else {
        selected_globs(sel.drop_last(), defs) + defs[sel.last()]
    }
}

/// Whether `after` is `before` followed by every name of `defs`, each
/// once, in some order.
pub open spec fn adds_every_defined(before: Seq<Seq<char>>, after: Seq<Seq<char>>, defs: Set<Seq<char>>) -> bool {
    &&& after.len() >= before.len()
    &&& after.take(before.len() as int) == before
    &&& after.skip(before.len() as int).no_duplicates()
    &&& after.skip(before.len() as int).to_set() == defs
}

/// Whether every selected name is defined.
pub open spec fn all_defined(sel: Seq<Seq<char>>, defs: Set<Seq<char>>) -> bool {
    forall|i: int| 0 <= i < sel.len() ==> defs.contains(#[trigger] sel[i])
}

/// `TypesBuilder::new`: no definitions and no selections.
#[verifier::external_body]
pub(crate) fn types_builder_new() -> (tb: ignore::types::TypesBuilder)
    ensures
        type_selections(tb) == Seq::<Seq<char>>::empty(),
        type_globs(tb).dom() == Set::<Seq<char>>::empty(),
{
    ignore::types::TypesBuilder::new()
}

/// The definitions after adding the default ones to a builder that had the
/// definitions `before`.
pub uninterp spec fn with_default_types(before: Map<Seq<char>, Seq<Seq<char>>>) -> Map<Seq<char>, Seq<Seq<char>>>;

/// `TypesBuilder::add_defaults`: adds the default definitions (keeping the
/// names there were) and keeps the selections.
#[verifier::external_body]
pub(crate) fn types_builder_add_defaults(tb: &mut ignore::types::TypesBuilder)
    ensures
        type_selections(*final(tb)) == type_selections(*old(tb)),
        type_globs(*final(tb)) == with_default_types(type_globs(*old(tb))),
        type_definitions(*old(tb)).subset_of(type_definitions(*final(tb))),
{
    tb.add_defaults();
}

/// `TypesBuilder::select`: selects `name`; `all` selects every defined
/// type once each (in an order that is not stated).
#[verifier::external_body]
pub(crate) fn types_builder_select(tb: &mut ignore::types::TypesBuilder, name: &str)
    ensures
        type_globs(*final(tb)) == type_globs(*old(tb)),
        name@ != "all"@ ==> type_selections(*final(tb)) == type_selections(*old(tb)).push(name@),
        name@ == "all"@ ==> adds_every_defined(
            type_selections(*old(tb)),
            type_selections(*final(tb)),
            type_definitions(*old(tb)),
        ),
{
    tb.select(name);
}

/// `TypesBuilder::build`: succeeds exactly when every selected name is
/// defined and the globs of the selected types build; the matcher selects
/// the builder's selections.
#[verifier::external_body]
pub(crate) fn types_builder_build(tb: &ignore::types::TypesBuilder) -> (r: Result<ignore::types::Types, ignore::Error>)
    ensures
        (r is Ok) == (all_defined(type_selections(*tb), type_definitions(*tb))
            && typed_globs_build(selected_globs(type_selections(*tb), type_globs(*tb)))),
        r matches Ok(t) ==> types_selected(t) == type_selections(*tb),
{
    tb.build()
}

/// `ignore::Error`'s message (`to_string`); nothing is stated of its text.
#[verifier::external_body]
pub(crate) fn ignore_error_text(e: &ignore::Error) -> String {
    e.to_string()
}

/// The prefix of the message for file types that cannot be built.
pub open spec fn type_error_prefix() -> Seq<char> {
    "type error: "@
}

} // verus!
