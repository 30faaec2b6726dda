//! Which metric keys produce an event for every single update.

use vstd::prelude::*;

use globset::GlobSet;

use crate::globs;
use crate::globs::{compile, set_matches};

verus! {

/// The mathematical value of a [`StreamFilter`]: its three compiled pattern lists, and whether
/// the allow list was empty before it was compiled.
#[verifier::ext_equal]
pub struct FilterView {
    pub allow: Seq<Seq<char>>,
    pub deny: Seq<Seq<char>>,
    pub histograms: Seq<Seq<char>>,
    pub allow_all: bool,
}

impl FilterView {
    /// Whether a counter or gauge with this rendered key streams.
    pub open spec fn allows(self, rendered_key: Seq<char>) -> bool {
        &&& !globs::any_matches(self.deny, rendered_key)
        &&& self.allow_all || globs::any_matches(self.allow, rendered_key)
    }

    /// Whether a histogram with this rendered key streams.
    pub open spec fn allows_histogram(self, rendered_key: Seq<char>) -> bool {
        &&& !globs::any_matches(self.deny, rendered_key)
        &&& globs::any_matches(self.histograms, rendered_key)
    }
}

/// Decides which metric keys produce an event per update.
///
/// Built from glob patterns that are matched against the rendered key (`name` or `name{k=v,..}`).
/// An empty allow list allows every key; a deny match always wins. Histograms are gated by a list
/// of their own, so that a hot histogram cannot turn into one event per observation just because
/// its name matches the general allow list.
#[derive(Debug)]
pub struct StreamFilter {
    key_allow: GlobSet,
    key_deny: GlobSet,
    histogram_keys: GlobSet,
    allow_empty: bool,
}

impl View for StreamFilter {
    type V = FilterView;

    closed spec fn view(&self) -> FilterView {
        FilterView {
            allow: globs::set_patterns(self.key_allow),
            deny: globs::set_patterns(self.key_deny),
            histograms: globs::set_patterns(self.histogram_keys),
            allow_all: self.allow_empty,
        }
    }
}

impl Clone for StreamFilter {
    fn clone(&self) -> (copy: Self)
        ensures
            copy@ == self@,
    {
        StreamFilter {
            key_allow: self.key_allow.clone(),
            key_deny: self.key_deny.clone(),
            histogram_keys: self.histogram_keys.clone(),
            allow_empty: self.allow_empty,
        }
    }
}

impl StreamFilter {
    /// Starts a filter that allows every counter and gauge and no histogram.
    pub fn builder() -> (builder: StreamFilterBuilder)
        ensures
            builder@ == no_patterns(),
    {
        StreamFilterBuilder::default()
    }

    /// Whether a counter or gauge key streams an event per update.
    pub fn allows(&self, rendered_key: &str) -> (allowed: bool)
        ensures
            allowed == self@.allows(rendered_key@),
            allowed <==> (forall|i: int|
                0 <= i < self@.deny.len() ==> !#[trigger] globs::glob_matches(
                    self@.deny[i],
                    rendered_key@,
                )) && (self@.allow_all || exists|i: int|
                0 <= i < self@.allow.len() && #[trigger] globs::glob_matches(
                    self@.allow[i],
                    rendered_key@,
                )),
    {
        if set_matches(&self.key_deny, rendered_key) {
            return false;
        }
        self.allow_empty || set_matches(&self.key_allow, rendered_key)
    }

    /// Whether a histogram key streams an event per observation: it needs a match of its own list
    /// and must survive the deny list.
    pub fn allows_histogram(&self, rendered_key: &str) -> (allowed: bool)
        ensures
            allowed == self@.allows_histogram(rendered_key@),
            allowed <==> (forall|i: int|
                0 <= i < self@.deny.len() ==> !#[trigger] globs::glob_matches(
                    self@.deny[i],
                    rendered_key@,
                )) && (exists|i: int|
                0 <= i < self@.histograms.len() && #[trigger] globs::glob_matches(
                    self@.histograms[i],
                    rendered_key@,
                )),
    {
        if set_matches(&self.key_deny, rendered_key) {
            return false;
        }
        set_matches(&self.histogram_keys, rendered_key)
    }
}

/// The mathematical value of a [`StreamFilterBuilder`]: the patterns given so far.
#[verifier::ext_equal]
pub struct FilterPatterns {
    pub allow: Seq<Seq<char>>,
    pub deny: Seq<Seq<char>>,
    pub histograms: Seq<Seq<char>>,
}

/// A builder's value before any pattern was given.
pub open spec fn no_patterns() -> FilterPatterns {
    FilterPatterns { allow: Seq::empty(), deny: Seq::empty(), histograms: Seq::empty() }
}

/// The filter that a builder's patterns give.
pub open spec fn built(patterns: FilterPatterns) -> FilterView {
    FilterView {
        allow: globs::compiled(patterns.allow),
        deny: globs::compiled(patterns.deny),
        histograms: globs::compiled(patterns.histograms),
        allow_all: patterns.allow.len() == 0,
    }
}

/// The views of a list of string slices.
pub open spec fn slice_views(patterns: Seq<&str>) -> Seq<Seq<char>> {
    patterns.map_values(|pattern: &str| pattern@)
}

/// Builds a [`StreamFilter`]. A pattern that is not a valid glob is silently left out, so that a
/// bad pattern cannot keep a recorder from being installed.
#[derive(Debug)]
pub struct StreamFilterBuilder {
    allow: Vec<String>,
    deny: Vec<String>,
    histograms: Vec<String>,
}

impl View for StreamFilterBuilder {
    type V = FilterPatterns;

    closed spec fn view(&self) -> FilterPatterns {
        FilterPatterns {
            allow: globs::pattern_views(self.allow@),
            deny: globs::pattern_views(self.deny@),
            histograms: globs::pattern_views(self.histograms@),
        }
    }
}

impl Default for StreamFilterBuilder {
    fn default() -> (builder: Self)
        ensures
            builder@ == no_patterns(),
    {
        StreamFilterBuilder { allow: Vec::new(), deny: Vec::new(), histograms: Vec::new() }
    }
}

/// Appends copies of `patterns` to `list`.
fn extend_patterns(list: &mut Vec<String>, patterns: &[&str])
    ensures
        globs::pattern_views(final(list)@) == globs::pattern_views(old(list)@)
            + slice_views(patterns@),
{
    for i in 0..patterns.len()
        invariant
            globs::pattern_views(list@) =~= globs::pattern_views(old(list)@)
                + slice_views(patterns@).take(i as int),
    {
        let pattern = patterns[i].to_owned();
        let ghost before = list@;
        list.push(pattern);
        assert(globs::pattern_views(list@) =~= globs::pattern_views(before).push(pattern@));
        assert(slice_views(patterns@).take(i + 1) =~= slice_views(patterns@).take(i as int).push(
            pattern@,
        ));
    }
}

impl StreamFilterBuilder {
    /// Adds globs that allow counter and gauge keys to stream. With none, every key is allowed.
    pub fn allow(self, patterns: &[&str]) -> (extended: Self)
        ensures
            extended@ == (FilterPatterns {
                allow: self@.allow + slice_views(patterns@),
                ..self@
            }),
            extended@.allow.len() == self@.allow.len() + patterns@.len(),
            forall|i: int|
                0 <= i < patterns@.len() ==> #[trigger] extended@.allow[self@.allow.len() + i]
                    == patterns@[i]@,
    {
        let mut builder = self;
        extend_patterns(&mut builder.allow, patterns);
        builder
    }

    /// Adds globs that suppress streaming for every matching key, whatever the other lists say.
    pub fn deny(self, patterns: &[&str]) -> (extended: Self)
        ensures
            extended@ == (FilterPatterns {
                deny: self@.deny + slice_views(patterns@),
                ..self@
            }),
            extended@.deny.len() == self@.deny.len() + patterns@.len(),
            forall|i: int|
                0 <= i < patterns@.len() ==> #[trigger] extended@.deny[self@.deny.len() + i]
                    == patterns@[i]@,
    {
        let mut builder = self;
        extend_patterns(&mut builder.deny, patterns);
        builder
    }

    /// Adds globs that let histogram keys stream an event per observation.
    pub fn histograms(self, patterns: &[&str]) -> (extended: Self)
        ensures
            extended@ == (FilterPatterns {
                histograms: self@.histograms + slice_views(patterns@),
                ..self@
            }),
            extended@.histograms.len() == self@.histograms.len() + patterns@.len(),
            forall|i: int|
                0 <= i < patterns@.len() ==> #[trigger] extended@.histograms[self@.histograms.len() + i]
                    == patterns@[i]@,
    {
        let mut builder = self;
        extend_patterns(&mut builder.histograms, patterns);
        builder
    }

    /// Compiles the three lists into a filter.
    pub fn build(self) -> (filter: StreamFilter)
        ensures
            filter@ == built(self@),
    {
        let allow_empty = self.allow.len() == 0;
        StreamFilter {
            key_allow: compile(&self.allow),
            key_deny: compile(&self.deny),
            histogram_keys: compile(&self.histograms),
            allow_empty,
        }
    }
}

/// A deny match suppresses every stream, whatever the other lists say.
pub proof fn deny_always_wins(filter: FilterView, rendered_key: Seq<char>)
    requires
        globs::any_matches(filter.deny, rendered_key),
    ensures
        !filter.allows(rendered_key),
        !filter.allows_histogram(rendered_key),
{
}

/// With an empty allow list every counter and gauge key is allowed that is not denied; with
/// nothing configured at all, every one is, and no histogram.
pub proof fn empty_allow_list_allows_all(patterns: FilterPatterns, rendered_key: Seq<char>)
    requires
        patterns.allow.len() == 0,
    ensures
        built(patterns).allows(rendered_key) == !globs::any_matches(
            built(patterns).deny,
            rendered_key,
        ),
        built(no_patterns()).allows(rendered_key),
        !built(no_patterns()).allows_histogram(rendered_key),
{
    lemma_empty_list_matches_nothing(rendered_key);
}

/// A list without patterns matches nothing.
proof fn lemma_empty_list_matches_nothing(rendered_key: Seq<char>)
    ensures
        !globs::any_matches(globs::compiled(Seq::empty()), rendered_key),
{
    reveal(Seq::filter);
    assert(globs::compiled(Seq::empty()) =~= Seq::<Seq<char>>::empty());
}

/// An allow list whose patterns are all invalid is not an empty one: it allows nothing.
pub proof fn invalid_allow_list_allows_nothing(patterns: FilterPatterns, rendered_key: Seq<char>)
    requires
        patterns.allow.len() > 0,
        forall|i: int|
            0 <= i < patterns.allow.len() ==> !globs::glob_valid(#[trigger] patterns.allow[i]),
    ensures
        !built(patterns).allows(rendered_key),
{
    lemma_no_valid_patterns(patterns.allow);
}

/// Filtering a list of invalid patterns leaves none.
proof fn lemma_no_valid_patterns(patterns: Seq<Seq<char>>)
    requires
        forall|i: int|
            0 <= i < patterns.len() ==> !globs::glob_valid(#[trigger] patterns[i]),
    ensures
        globs::valid_patterns(patterns) == Seq::<Seq<char>>::empty(),
    decreases patterns.len(),
{
    reveal(Seq::filter);
    if patterns.len() > 0 {
        assert(!globs::glob_valid(patterns[patterns.len() - 1]));
        lemma_no_valid_patterns(patterns.drop_last());
    }
}

/// Histograms stream only through a list of their own: the allow list has no say, and without a
/// histogram pattern none streams.
pub proof fn histograms_need_their_own_list(
    patterns: FilterPatterns,
    other_allow: Seq<Seq<char>>,
    rendered_key: Seq<char>,
)
    ensures
        built(patterns).allows_histogram(rendered_key) == built(
            FilterPatterns { allow: other_allow, ..patterns },
        ).allows_histogram(rendered_key),
        patterns.histograms.len() == 0 ==> !built(patterns).allows_histogram(rendered_key),
{
    if patterns.histograms.len() == 0 {
        assert(patterns.histograms =~= Seq::<Seq<char>>::empty());
        lemma_empty_list_matches_nothing(rendered_key);
    }
}

/// The patterns that a builder was given decide, all of them: a built filter denies a key where a
/// valid pattern of the given deny list matches it. Of what is not denied, it allows a counter or
/// gauge where no allow pattern was given or a valid one matches, and a histogram where a valid
/// pattern of the given histogram list matches. A list whose valid patterns cannot be compiled
/// matches nothing.
pub proof fn given_patterns_decide(patterns: FilterPatterns, rendered_key: Seq<char>)
    ensures
        ({
            let valid = |pattern: Seq<char>| globs::glob_valid(pattern);
            let denied = globs::globs_compile(patterns.deny.filter(valid)) && exists|i: int|
                0 <= i < patterns.deny.len() && globs::glob_valid(patterns.deny[i])
                    && #[trigger] globs::glob_matches(patterns.deny[i], rendered_key);
            let allowed = globs::globs_compile(patterns.allow.filter(valid)) && exists|i: int|
                0 <= i < patterns.allow.len() && globs::glob_valid(patterns.allow[i])
                    && #[trigger] globs::glob_matches(patterns.allow[i], rendered_key);
            let listed = globs::globs_compile(patterns.histograms.filter(valid)) && exists|i: int|
                0 <= i < patterns.histograms.len() && globs::glob_valid(patterns.histograms[i])
                    && #[trigger] globs::glob_matches(patterns.histograms[i], rendered_key);
            &&& built(patterns).allows(rendered_key) == (!denied && (patterns.allow.len() == 0
                || allowed))
            &&& built(patterns).allows_histogram(rendered_key) == (!denied && listed)
        }),
{
    globs::every_given_pattern_counts(patterns.deny, rendered_key);
    globs::every_given_pattern_counts(patterns.allow, rendered_key);
    globs::every_given_pattern_counts(patterns.histograms, rendered_key);
}

/// Every pattern that a builder was given counts, wherever it stands in its list: where it is valid
/// and its list can be compiled, a deny pattern denies what it matches, and an allow or histogram
/// pattern allows what it matches and no deny pattern does.
pub proof fn each_given_pattern_counts(patterns: FilterPatterns, i: int, rendered_key: Seq<char>)
    ensures
        0 <= i < patterns.deny.len() && globs::glob_valid(patterns.deny[i])
            && globs::glob_matches(patterns.deny[i], rendered_key) && globs::globs_compile(
            patterns.deny.filter(|pattern: Seq<char>| globs::glob_valid(pattern)),
        ) ==> !built(patterns).allows(rendered_key) && !built(patterns).allows_histogram(
            rendered_key,
        ),
        0 <= i < patterns.allow.len() && globs::glob_valid(patterns.allow[i])
            && globs::glob_matches(patterns.allow[i], rendered_key) && globs::globs_compile(
            patterns.allow.filter(|pattern: Seq<char>| globs::glob_valid(pattern)),
        ) && (forall|j: int|
            0 <= j < patterns.deny.len() ==> !#[trigger] globs::glob_matches(
                patterns.deny[j],
                rendered_key,
            )) ==> built(patterns).allows(rendered_key),
        0 <= i < patterns.histograms.len() && globs::glob_valid(patterns.histograms[i])
            && globs::glob_matches(patterns.histograms[i], rendered_key) && globs::globs_compile(
            patterns.histograms.filter(|pattern: Seq<char>| globs::glob_valid(pattern)),
        ) && (forall|j: int|
            0 <= j < patterns.deny.len() ==> !#[trigger] globs::glob_matches(
                patterns.deny[j],
                rendered_key,
            )) ==> built(patterns).allows_histogram(rendered_key),
{
    globs::every_given_pattern_counts(patterns.deny, rendered_key);
    globs::every_given_pattern_counts(patterns.allow, rendered_key);
    globs::every_given_pattern_counts(patterns.histograms, rendered_key);
}

/// A filter decides by its three lists: a key is denied where a deny pattern matches it, a counter
/// or gauge needs a match of the allow list unless everything is allowed, and a histogram needs a
/// match of its own list, whatever the allow list says.
pub proof fn lists_decide(filter: FilterView, rendered_key: Seq<char>)
    ensures
        filter.allows(rendered_key) <==> (forall|i: int|
            0 <= i < filter.deny.len() ==> !#[trigger] globs::glob_matches(
                filter.deny[i],
                rendered_key,
            )) && (filter.allow_all || exists|i: int|
            0 <= i < filter.allow.len() && #[trigger] globs::glob_matches(
                filter.allow[i],
                rendered_key,
            )),
        filter.allows_histogram(rendered_key) <==> (forall|i: int|
            0 <= i < filter.deny.len() ==> !#[trigger] globs::glob_matches(
                filter.deny[i],
                rendered_key,
            )) && (exists|i: int|
            0 <= i < filter.histograms.len() && #[trigger] globs::glob_matches(
                filter.histograms[i],
                rendered_key,
            )),
{
}

/// A builder starts without patterns, and the patterns that it is given are all there, in order.
pub proof fn builders_collect_patterns(patterns: Seq<&str>)
    ensures
        no_patterns().allow.len() == 0,
        no_patterns().deny.len() == 0,
        no_patterns().histograms.len() == 0,
        slice_views(patterns).len() == patterns.len(),
        forall|i: int|
            0 <= i < patterns.len() ==> #[trigger] slice_views(patterns)[i] == patterns[i]@,
{
}

} // verus!
