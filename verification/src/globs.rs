//! The compiled exclude matcher, backed by the globset crate.
//!
//! The matcher is opaque to the verifier: what a glob set holds and what it
//! matches are named by uninterpreted functions, and each globset call the
//! scanner makes goes through one trusted wrapper stated over those names.

use vstd::prelude::*;

verus! {

#[verifier::external_type_specification]
#[verifier::external_body]
pub struct ExGlob(globset::Glob);

#[verifier::external_type_specification]
#[verifier::external_body]
pub struct ExGlobSet(globset::GlobSet);

#[verifier::external_type_specification]
#[verifier::external_body]
pub struct ExGlobSetBuilder(globset::GlobSetBuilder);

/// The pattern a compiled glob was built from.
pub uninterp spec fn glob_pattern(g: globset::Glob) -> Seq<char>;

/// Whether the glob language accepts this pattern text; what Glob::new
/// decides, a function of the text alone.
pub uninterp spec fn glob_valid(pattern: Seq<char>) -> bool;

/// Whether the glob compiler can combine this pattern list into one
/// matcher; what GlobSetBuilder::build decides, a function of the
/// patterns alone. It can refuse a list of individually valid patterns
/// only at sizes far beyond any real exclude list.
pub uninterp spec fn globset_buildable(patterns: Seq<Seq<char>>) -> bool;

/// The patterns a glob set builder holds so far, in the order added.
pub uninterp spec fn builder_patterns(b: globset::GlobSetBuilder) -> Seq<Seq<char>>;

/// The patterns a compiled glob set was built from, in order.
pub uninterp spec fn globset_patterns(gs: globset::GlobSet) -> Seq<Seq<char>>;

/// Whether the glob language judges some pattern of the list to match the
/// path; a function of the patterns and the path alone.
pub uninterp spec fn glob_match(patterns: Seq<Seq<char>>, path: Seq<char>) -> bool;

/// Relies on globset's Glob::new: Ok exactly when the pattern text is a
/// valid glob, and the compiled glob then carries that pattern.
#[verifier::external_body]
pub fn glob_new(pattern: &String) -> (r: Result<globset::Glob, String>)
    ensures
        r is Ok <==> glob_valid(pattern@),
        r matches Ok(g) ==> glob_pattern(g) == pattern@,
{
    match globset::Glob::new(pattern.as_str()) {
        Ok(g) => Ok(g),
        Err(e) => Err(e.to_string()),
    }
}

/// Relies on globset's GlobSetBuilder::new: a fresh builder holds no
/// patterns.
#[verifier::external_body]
pub fn glob_builder_new() -> (r: globset::GlobSetBuilder)
    ensures
        builder_patterns(r) == Seq::<Seq<char>>::empty(),
{
    globset::GlobSetBuilder::new()
}

/// Relies on globset's GlobSetBuilder::add: the builder then holds the
/// glob's pattern after the ones it already held.
#[verifier::external_body]
pub fn glob_builder_add(b: &mut globset::GlobSetBuilder, g: globset::Glob)
    ensures
        builder_patterns(*final(b)) == builder_patterns(*old(b)).push(glob_pattern(g)),
{
    b.add(g);
}

/// Relies on globset's GlobSetBuilder::build: whether it succeeds is a
/// function of the patterns the builder holds, and the compiled set then
/// holds exactly those patterns.
#[verifier::external_body]
pub fn glob_builder_build(b: &globset::GlobSetBuilder) -> (r: Result<globset::GlobSet, String>)
    ensures
        r is Ok <==> globset_buildable(builder_patterns(*b)),
        r matches Ok(gs) ==> globset_patterns(gs) == builder_patterns(*b),
{
    match b.build() {
        Ok(gs) => Ok(gs),
        Err(e) => Err(e.to_string()),
    }
}

/// Relies on globset's GlobSet::is_match: deterministic in the compiled
/// patterns and the path text.
#[verifier::external_body]
pub fn glob_set_is_match(gs: &globset::GlobSet, path: &String) -> (r: bool)
    ensures
        r == glob_match(globset_patterns(*gs), path@),
{
    gs.is_match(path.as_str())
}

/// Compile a list of glob patterns into a matcher. Succeeds exactly when
/// every pattern is a valid glob and the compiler accepts the list as one
/// set; the compiled set then holds exactly the given patterns.
pub fn build_exclude_matcher(patterns: &Vec<String>) -> (r: Result<globset::GlobSet, String>)
    ensures
        r is Ok <==> ((forall|i: int|
            0 <= i < patterns.deep_view().len() ==> glob_valid(
                #[trigger] patterns.deep_view()[i],
            )) && globset_buildable(patterns.deep_view())),
        r matches Ok(gs) ==> globset_patterns(gs) == patterns.deep_view(),
{
    let mut builder = glob_builder_new();
    let n = patterns.len();
    let mut i: usize = 0;
    proof {
        assert(patterns.deep_view().take(0) =~= Seq::<Seq<char>>::empty());
    }
    while i < n
        invariant
            i <= n,
            n == patterns@.len(),
            builder_patterns(builder) == patterns.deep_view().take(i as int),
            forall|j: int| 0 <= j < i ==> glob_valid(#[trigger] patterns.deep_view()[j]),
        decreases n - i,
    {
        let g = match glob_new(&patterns[i]) {
            Ok(g) => g,
            Err(e) => {
                assert(!glob_valid(patterns.deep_view()[i as int]));
                return Err(e);
            },
        };
        glob_builder_add(&mut builder, g);
        proof {
            assert(patterns.deep_view().take(i + 1) =~= patterns.deep_view().take(i as int).push(
                patterns.deep_view()[i as int],
            ));
        }
        i += 1;
    }
    proof {
        assert(patterns.deep_view().take(n as int) =~= patterns.deep_view());
    }
    glob_builder_build(&builder)
}

} // verus!
