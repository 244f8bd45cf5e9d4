//! Glob patterns, as the `globset` crate reads and matches them.
//!
//! Nothing here is proved of the crate: each declaration below states what
//! its source and documentation show, and the verified functions of this
//! module are proved from those statements.

use vstd::prelude::*;
use crate::text::views;

verus! {

/// `globset::Glob`: a parsed pattern. Nothing is known of its inside.
#[verifier::external_type_specification]
#[verifier::external_body]
pub struct ExGlob(globset::Glob);

/// `globset::GlobSet`: globs compiled into one matcher. Nothing is known
/// of its inside.
#[verifier::external_type_specification]
#[verifier::external_body]
pub struct ExGlobSet(globset::GlobSet);

/// `globset::GlobSetBuilder`: the globs that a set is to be built of.
/// Nothing is known of its inside.
#[verifier::external_type_specification]
#[verifier::external_body]
pub struct ExGlobSetBuilder(globset::GlobSetBuilder);

/// `globset::Error`: why a pattern is no glob, or why no set was built.
/// Nothing is known of its inside.
#[verifier::external_type_specification]
#[verifier::external_body]
pub struct ExGlobError(globset::Error);

/// Whether `globset::Glob::new` accepts `pattern` as a glob.
pub uninterp spec fn glob_parses(pattern: Seq<char>) -> bool;

/// The pattern text that a parsed glob was made from, which
/// `globset::Glob::glob` returns.
pub uninterp spec fn glob_text(glob: globset::Glob) -> Seq<char>;

/// The pattern texts of the globs added to a builder, in the order of
/// their addition.
pub uninterp spec fn builder_globs(builder: globset::GlobSetBuilder) -> Seq<Seq<char>>;

/// Whether `globset::GlobSetBuilder::build` succeeds on globs parsed from
/// these patterns: whether their matchers fit the crate's size limit.
pub uninterp spec fn globset_builds(patterns: Seq<Seq<char>>) -> bool;

/// The pattern texts of the globs that a set was built from.
pub uninterp spec fn globset_globs(set: globset::GlobSet) -> Seq<Seq<char>>;

/// Whether the glob parsed from `pattern` matches `path`, in the sense in
/// which `globset::GlobSet::is_match` speaks of one glob of a set.
pub uninterp spec fn glob_matches(pattern: Seq<char>, path: Seq<char>) -> bool;

/// Some pattern of `patterns` matches `path`.
pub open spec fn matches_any(patterns: Seq<Seq<char>>, path: Seq<char>) -> bool {
    exists|i: int| 0 <= i < patterns.len() && #[trigger] glob_matches(patterns[i], path)
}

/// Every pattern parses, and a set can be built of them all.
pub open spec fn patterns_compile(patterns: Seq<Seq<char>>) -> bool {
    &&& forall|i: int| 0 <= i < patterns.len() ==> #[trigger] glob_parses(patterns[i])
    &&& globset_builds(patterns)
}

/// `globset::Glob::new`: parses a pattern with the default options. It
/// returns a glob exactly for the patterns that parse, and the glob keeps
/// the pattern's text.
#[verifier::external_body]
pub(crate) fn glob_new(pattern: &str) -> (r: Result<globset::Glob, globset::Error>)
    ensures
        r is Ok <==> glob_parses(pattern@),
        r matches Ok(glob) ==> glob_text(glob) == pattern@,
{
    globset::Glob::new(pattern)
}

/// `globset::GlobSetBuilder::new`: a builder that holds no glob.
#[verifier::external_body]
pub(crate) fn builder_new() -> (builder: globset::GlobSetBuilder)
    ensures
        builder_globs(builder) == Seq::<Seq<char>>::empty(),
{
    globset::GlobSetBuilder::new()
}

/// `globset::GlobSetBuilder::add`: appends one glob to the builder's list.
#[verifier::external_body]
pub(crate) fn builder_add(builder: &mut globset::GlobSetBuilder, glob: globset::Glob)
    ensures
        builder_globs(*final(builder)) == builder_globs(*old(builder)).push(glob_text(glob)),
{
    builder.add(glob);
}

/// `globset::GlobSetBuilder::build`: makes the set of the globs added so
/// far, or fails where their matchers cannot be compiled.
#[verifier::external_body]
pub(crate) fn builder_build(builder: &globset::GlobSetBuilder) -> (r: Result<
    globset::GlobSet,
    globset::Error,
>)
    ensures
        r is Ok <==> globset_builds(builder_globs(*builder)),
        r matches Ok(set) ==> globset_globs(set) == builder_globs(*builder),
{
    builder.build()
}

/// `globset::GlobSet::is_match`: true if any glob in the set matches the
/// path.
#[verifier::external_body]
pub(crate) fn globset_is_match(set: &globset::GlobSet, path: &str) -> (r: bool)
    ensures
        r == (exists|i: int|
            0 <= i < globset_globs(*set).len() && #[trigger] glob_matches(
                globset_globs(*set)[i],
                path@,
            )),
{
    set.is_match(path)
}

/// Patterns compiled into one matcher. Only this module makes one, so each
/// is built of globs that were parsed with the default options.
pub struct PatternSet {
    set: globset::GlobSet,
}

impl PatternSet {
    /// The patterns that the set was compiled from, in their order.
    pub closed spec fn patterns(&self) -> Seq<Seq<char>> {
        globset_globs(self.set)
    }

    /// Whether some pattern of the set matches `text`.
    pub fn matches(&self, text: &str) -> (r: bool)
        ensures
            r == matches_any(self.patterns(), text@),
    {
        globset_is_match(&self.set, text)
    }
}

/// Why a list of patterns gave no matcher.
#[derive(Debug, Clone, Copy, PartialEq, Eq)]
pub enum PatternError {
    /// The pattern at this position is no glob.
    Invalid { index: usize },
    /// Each pattern is a glob, but no set could be built of them.
    Unbuildable,
}

/// The first position whose pattern does not parse, if there is one.
pub open spec fn first_invalid(patterns: Seq<Seq<char>>) -> Option<int> {
    if forall|i: int| 0 <= i < patterns.len() ==> #[trigger] glob_parses(patterns[i]) {
        None
    } else {
        Some(
            choose|i: int|
                0 <= i < patterns.len() && !#[trigger] glob_parses(patterns[i]) && forall|j: int|
                    0 <= j < i ==> #[trigger] glob_parses(patterns[j]),
        )
    }
}

/// What compiling `patterns` gives: the error of the first pattern that is
/// no glob, else that of the set, else none.
pub open spec fn compile_failure(patterns: Seq<Seq<char>>) -> Option<PatternError> {
    match first_invalid(patterns) {
        Some(i) => Some(PatternError::Invalid { index: i as usize }),
        None => if globset_builds(patterns) {
            None
        } else {
            Some(PatternError::Unbuildable)
        },
    }
}

/// The position `i` is the first whose pattern does not parse.
proof fn lemma_first_invalid(patterns: Seq<Seq<char>>, i: int)
    requires
        0 <= i < patterns.len(),
        !glob_parses(patterns[i]),
        forall|j: int| 0 <= j < i ==> #[trigger] glob_parses(patterns[j]),
    ensures
        first_invalid(patterns) == Some(i),
{
    let k = first_invalid(patterns)->0;
    assert(0 <= k < patterns.len() && !glob_parses(patterns[k]) && forall|j: int|
        0 <= j < k ==> #[trigger] glob_parses(patterns[j]));
}

/// Compiles the patterns into one set that matches what any of them matches.
pub fn compile_patterns(patterns: &Vec<String>) -> (r: Result<PatternSet, PatternError>)
    ensures
        match r {
            Ok(set) => compile_failure(views(patterns@)) is None && set.patterns() == views(
                patterns@,
            ),
            Err(e) => compile_failure(views(patterns@)) == Some(e),
        },
{
    let mut builder = builder_new();
    let mut i: usize = 0;
    while i < patterns.len()
        invariant
            i <= patterns.len(),
            builder_globs(builder) == views(patterns@).take(i as int),
            forall|j: int| 0 <= j < i ==> #[trigger] glob_parses(views(patterns@)[j]),
        decreases patterns.len() - i,
    {
        match glob_new(patterns[i].as_str()) {
            Ok(glob) => {
                builder_add(&mut builder, glob);
                assert(views(patterns@).take(i + 1) =~= views(patterns@).take(i as int).push(
                    patterns@[i as int]@,
                ));
            },
            Err(_) => {
                proof {
                    lemma_first_invalid(views(patterns@), i as int);
                }
                return Err(PatternError::Invalid { index: i });
            },
        }
        i = i + 1;
    }
    assert(views(patterns@).take(patterns@.len() as int) =~= views(patterns@));
    match builder_build(&builder) {
        Ok(set) => Ok(PatternSet { set }),
        Err(_) => Err(PatternError::Unbuildable),
    }
}

/// Compiles one pattern into a set of its own.
pub fn compile_pattern(pattern: &str) -> (r: Result<PatternSet, PatternError>)
    ensures
        match r {
            Ok(set) => patterns_compile(seq![pattern@]) && set.patterns() == seq![pattern@],
            Err(e) => !patterns_compile(seq![pattern@]) && e == if glob_parses(pattern@) {
                PatternError::Unbuildable
            } else {
                PatternError::Invalid { index: 0 }
            },
        },
{
    let mut builder = builder_new();
    match glob_new(pattern) {
        Ok(glob) => {
            builder_add(&mut builder, glob);
            match builder_build(&builder) {
                Ok(set) => Ok(PatternSet { set }),
                Err(_) => Err(PatternError::Unbuildable),
            }
        },
        Err(_) => {
            assert(seq![pattern@][0] == pattern@);
            Err(PatternError::Invalid { index: 0 })
        },
    }
}

/// A list of one pattern matches what that pattern matches.
pub proof fn lemma_matches_single(pattern: Seq<char>, text: Seq<char>)
    ensures
        matches_any(seq![pattern], text) == glob_matches(pattern, text),
{
    if glob_matches(pattern, text) {
        assert(glob_matches(seq![pattern][0], text));
    }
}

} // verus!
