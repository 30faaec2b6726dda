//! Glob patterns and glob sets, as `globset` compiles and matches them.
//!
//! What a pattern means is `globset`'s business, on the platform that the crate is built for: a
//! backslash escapes, except where it separates paths. Here it is known by three names: which
//! patterns are valid, which lists compile, and which texts a pattern matches.

use vstd::prelude::*;

use globset::{Glob, GlobSet, GlobSetBuilder};

verus! {

/// `globset`'s parsed pattern.
#[verifier::external_type_specification]
#[verifier::external_body]
pub struct ExGlob(globset::Glob);

/// `globset`'s set under construction.
#[verifier::external_type_specification]
#[verifier::external_body]
pub struct ExGlobSetBuilder(globset::GlobSetBuilder);

/// `globset`'s compiled set.
#[verifier::external_type_specification]
#[verifier::external_body]
pub struct ExGlobSet(globset::GlobSet);

/// `globset`'s parse and compile error.
#[verifier::external_type_specification]
#[verifier::external_body]
pub struct ExGlobError(globset::Error);

/// Whether `Glob::new` accepts `pattern`.
pub uninterp spec fn glob_valid(pattern: Seq<char>) -> bool;

/// Whether `GlobSetBuilder::build` can compile the valid patterns `patterns` into one set.
pub uninterp spec fn globs_compile(patterns: Seq<Seq<char>>) -> bool;

/// Whether the valid pattern `pattern`, alone in a compiled set, matches `text`.
pub uninterp spec fn glob_matches(pattern: Seq<char>, text: Seq<char>) -> bool;

/// The pattern that a parsed glob was made from.
pub uninterp spec fn glob_text(glob: Glob) -> Seq<char>;

/// The patterns added to a builder, in order.
pub uninterp spec fn builder_patterns(builder: GlobSetBuilder) -> Seq<Seq<char>>;

/// The patterns of a compiled set, in order.
pub uninterp spec fn set_patterns(set: GlobSet) -> Seq<Seq<char>>;

/// Whether one of `patterns` matches `text`.
pub open spec fn any_matches(patterns: Seq<Seq<char>>, text: Seq<char>) -> bool {
    exists|i: int| 0 <= i < patterns.len() && #[trigger] glob_matches(patterns[i], text)
}

/// The patterns of `patterns` that are valid, in order.
pub open spec fn valid_patterns(patterns: Seq<Seq<char>>) -> Seq<Seq<char>> {
    patterns.filter(|pattern: Seq<char>| glob_valid(pattern))
}

/// What a list of patterns compiles to: its valid patterns, or none of them where those are too
/// much for one set.
pub open spec fn compiled(patterns: Seq<Seq<char>>) -> Seq<Seq<char>> {
    if globs_compile(valid_patterns(patterns)) {
        valid_patterns(patterns)
    } else {
        Seq::empty()
    }
}

/// Parses a pattern with `globset::Glob::new`, with that crate's default options. Which patterns
/// are valid is left to `glob_valid`; the parsed glob remembers its pattern.
#[verifier::external_body]
fn parse_glob(pattern: &str) -> (parsed: Result<Glob, globset::Error>)
    ensures
        parsed is Ok <==> glob_valid(pattern@),
        parsed matches Ok(glob) ==> glob_text(glob) == pattern@,
{
    Glob::new(pattern)
}

/// `globset::GlobSetBuilder::new`: a builder without patterns.
#[verifier::external_body]
fn new_set_builder() -> (builder: GlobSetBuilder)
    ensures
        builder_patterns(builder) == Seq::<Seq<char>>::empty(),
{
    GlobSetBuilder::new()
}

/// `globset::GlobSetBuilder::add`: appends one parsed pattern.
#[verifier::external_body]
fn add_glob(builder: &mut GlobSetBuilder, glob: Glob)
    ensures
        builder_patterns(*final(builder)) == builder_patterns(*old(builder)).push(
            glob_text(glob),
        ),
{
    builder.add(glob);
}

/// `globset::GlobSetBuilder::build`: compiles the patterns added so far, all of them or none.
/// Which lists can be compiled is left to `globs_compile`.
#[verifier::external_body]
fn build_set(builder: &GlobSetBuilder) -> (built: Result<GlobSet, globset::Error>)
    ensures
        built is Ok <==> globs_compile(builder_patterns(*builder)),
        built matches Ok(set) ==> set_patterns(set) == builder_patterns(*builder),
{
    builder.build()
}

/// `globset::GlobSet::empty`: the set without patterns.
#[verifier::external_body]
fn empty_set() -> (set: GlobSet)
    ensures
        set_patterns(set) == Seq::<Seq<char>>::empty(),
{
    GlobSet::empty()
}

/// `globset::GlobSet::is_match`: true where at least one pattern of the set matches the text.
#[verifier::external_body]
pub(crate) fn set_matches(set: &GlobSet, text: &str) -> (hit: bool)
    ensures
        hit == (exists|i: int|
            0 <= i < set_patterns(*set).len() && #[trigger] glob_matches(
                set_patterns(*set)[i],
                text@,
            )),
{
    set.is_match(text)
}

/// The clone of a `globset::GlobSet` holds the same patterns.
pub assume_specification[ <GlobSet as Clone>::clone ](set: &GlobSet) -> (copy: GlobSet)
    ensures
        set_patterns(copy) == set_patterns(*set),
;

/// The views of a list of patterns.
pub open spec fn pattern_views(patterns: Seq<String>) -> Seq<Seq<char>> {
    patterns.map_values(|pattern: String| pattern@)
}

/// Compiles `patterns` into one set. A pattern that does not parse is left out, and a list that
/// cannot be compiled gives the empty set, so that no input fails.
pub fn compile(patterns: &Vec<String>) -> (set: GlobSet)
    ensures
        set_patterns(set) == compiled(pattern_views(patterns@)),
{
    let ghost views = pattern_views(patterns@);
    let mut builder = new_set_builder();
    assert(views.take(0) =~= Seq::<Seq<char>>::empty());
    reveal(Seq::filter);
    for i in 0..patterns.len()
        invariant
            views == pattern_views(patterns@),
            builder_patterns(builder) == valid_patterns(views.take(i as int)),
    {
        proof {
            reveal(Seq::filter);
            assert(views.take(i + 1).drop_last() =~= views.take(i as int));
        }
        match parse_glob(patterns[i].as_str()) {
            Ok(glob) => {
                add_glob(&mut builder, glob);
            },
            Err(_) => {},
        }
    }
    assert(views.take(patterns.len() as int) =~= views);
    match build_set(&builder) {
        Ok(set) => set,
        Err(_) => empty_set(),
    }
}

/// Dropping the invalid patterns of a list before it is compiled changes nothing, and neither does
/// adding an invalid pattern at any place.
pub proof fn invalid_patterns_change_nothing(
    front: Seq<Seq<char>>,
    invalid: Seq<char>,
    back: Seq<Seq<char>>,
)
    requires
        !glob_valid(invalid),
    ensures
        compiled(valid_patterns(front)) == compiled(front),
        compiled(front + seq![invalid] + back) == compiled(front + back),
{
    lemma_valid_patterns_are_valid(front);
    let valid = |pattern: Seq<char>| glob_valid(pattern);
    Seq::filter_distributes_over_add(front, back, valid);
    Seq::filter_distributes_over_add(front, seq![invalid], valid);
    Seq::filter_distributes_over_add(front + seq![invalid], back, valid);
    assert(seq![invalid].filter(valid) =~= Seq::empty()) by {
        Seq::<Seq<char>>::empty().lemma_filter_push(invalid, valid);
        Seq::<Seq<char>>::empty().lemma_filter_len(valid);
        assert(seq![invalid] =~= Seq::<Seq<char>>::empty().push(invalid));
    }
    assert(valid_patterns(front + seq![invalid] + back) =~= valid_patterns(front + back));
}

/// Filtering the valid patterns again keeps them all.
proof fn lemma_valid_patterns_are_valid(patterns: Seq<Seq<char>>)
    ensures
        valid_patterns(valid_patterns(patterns)) == valid_patterns(patterns),
        forall|i: int|
            0 <= i < valid_patterns(patterns).len() ==> glob_valid(
                #[trigger] valid_patterns(patterns)[i],
            ),
    decreases patterns.len(),
{
    reveal(Seq::filter);
    if patterns.len() > 0 {
        let front = valid_patterns(patterns.drop_last());
        lemma_valid_patterns_are_valid(patterns.drop_last());
        if glob_valid(patterns.last()) {
            assert(valid_patterns(patterns) =~= front.push(patterns.last()));
            assert(front.push(patterns.last()).drop_last() =~= front);
        }
    }
}

/// The view of a list of patterns is the text of each pattern, in order.
pub proof fn pattern_views_show_every_pattern(patterns: Seq<String>)
    ensures
        pattern_views(patterns).len() == patterns.len(),
        forall|i: int|
            0 <= i < patterns.len() ==> #[trigger] pattern_views(patterns)[i] == patterns[i]@,
{
}

/// The valid patterns of a list are exactly those of its patterns that are valid: none of them is
/// lost, none is made up, and they keep their order.
pub proof fn valid_patterns_are_all_kept(front: Seq<Seq<char>>, pattern: Seq<char>)
    ensures
        valid_patterns(Seq::empty()) == Seq::<Seq<char>>::empty(),
        glob_valid(pattern) ==> valid_patterns(front.push(pattern)) == valid_patterns(front).push(
            pattern,
        ),
        !glob_valid(pattern) ==> valid_patterns(front.push(pattern)) == valid_patterns(front),
{
    reveal(Seq::filter);
    assert(front.push(pattern).drop_last() =~= front);
    assert(valid_patterns(Seq::empty()) =~= Seq::<Seq<char>>::empty());
}

/// The valid patterns of a list, by a test of one's own.
pub(crate) proof fn lemma_valid_patterns(
    patterns: Seq<Seq<char>>,
    valid: spec_fn(Seq<char>) -> bool,
)
    requires
        forall|pattern: Seq<char>| #[trigger] valid(pattern) == glob_valid(pattern),
    ensures
        valid_patterns(patterns) == patterns.filter(valid),
    decreases patterns.len(),
{
    reveal(Seq::filter);
    if patterns.len() > 0 {
        lemma_valid_patterns(patterns.drop_last(), valid);
        assert(valid(patterns.last()) == glob_valid(patterns.last()));
    }
}

/// A list matches a text where one of its patterns does: one pattern matches as it does alone, and
/// of two lists put together either is enough.
pub proof fn one_match_is_enough(
    front: Seq<Seq<char>>,
    back: Seq<Seq<char>>,
    pattern: Seq<char>,
    text: Seq<char>,
)
    ensures
        !any_matches(Seq::empty(), text),
        any_matches(seq![pattern], text) == glob_matches(pattern, text),
        any_matches(front + back, text) == (any_matches(front, text) || any_matches(back, text)),
{
    let both = front + back;
    if glob_matches(pattern, text) {
        assert(glob_matches(seq![pattern][0], text));
    }
    if any_matches(front, text) {
        let i = choose|i: int| 0 <= i < front.len() && #[trigger] glob_matches(front[i], text);
        assert(both[i] == front[i]);
        assert(glob_matches(both[i], text));
    }
    if any_matches(back, text) {
        let i = choose|i: int| 0 <= i < back.len() && #[trigger] glob_matches(back[i], text);
        assert(both[front.len() + i] == back[i]);
        assert(glob_matches(both[front.len() + i], text));
    }
    if any_matches(both, text) {
        let i = choose|i: int| 0 <= i < both.len() && #[trigger] glob_matches(both[i], text);
        if i < front.len() {
            assert(glob_matches(front[i], text));
        } else {
            assert(glob_matches(back[i - front.len()], text));
        }
    }
}

/// What a list of patterns compiles to matches a text exactly where the valid patterns of the list
/// can be compiled and one of them, wherever it stands in the list, matches the text.
pub proof fn every_given_pattern_counts(patterns: Seq<Seq<char>>, text: Seq<char>)
    ensures
        any_matches(compiled(patterns), text) == (globs_compile(
            patterns.filter(|pattern: Seq<char>| glob_valid(pattern)),
        ) && exists|i: int|
            0 <= i < patterns.len() && glob_valid(patterns[i]) && #[trigger] glob_matches(
                patterns[i],
                text,
            )),
{
    let valid = |pattern: Seq<char>| glob_valid(pattern);
    let kept = patterns.filter(valid);
    lemma_valid_patterns(patterns, valid);
    if globs_compile(kept) {
        assert(compiled(patterns) == kept);
        if any_matches(kept, text) {
            let i = choose|i: int| 0 <= i < kept.len() && #[trigger] glob_matches(kept[i], text);
            patterns.lemma_filter_pred(valid, i);
            patterns.lemma_filter_contains_rev(valid, kept[i]);
            let j = choose|j: int| 0 <= j < patterns.len() && patterns[j] == kept[i];
            assert(glob_valid(patterns[j]) && glob_matches(patterns[j], text));
        }
        if exists|i: int|
            0 <= i < patterns.len() && glob_valid(patterns[i]) && #[trigger] glob_matches(
                patterns[i],
                text,
            ) {
            let i = choose|i: int|
                0 <= i < patterns.len() && glob_valid(patterns[i]) && #[trigger] glob_matches(
                    patterns[i],
                    text,
                );
            assert(valid(patterns[i]));
            patterns.lemma_filter_contains(valid, i);
            let j = choose|j: int| 0 <= j < kept.len() && kept[j] == patterns[i];
            assert(glob_matches(kept[j], text));
        }
    } else {
        assert(compiled(patterns) == Seq::<Seq<char>>::empty());
    }
}

} // verus!
