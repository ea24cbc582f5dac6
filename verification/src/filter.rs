//! Path filtering for the walk: ordered include/exclude rules plus an optional
//! explicit `--files-from` allowlist.
//!
//! Rules are matched against a tree-relative path, first match wins, and the
//! default for an unmatched path is *include*. Precedence, highest first:
//!
//! 1. `--filter "+ pat"` / `--filter "- pat"` rules, in the order given;
//! 2. `--include pat` rules;
//! 3. `--exclude pat` rules.
//!
//! So the common idiom `--include '*.rs' --exclude '*'` keeps only Rust files.
//!
//! Filtering applies to files and symlinks; directory entries are always kept
//! so that their contents can still be reached. A pattern also matches nested
//! anywhere and everything beneath a matching directory (for example
//! `--exclude node_modules` drops `node_modules/**` at any depth).
//!
//! Glob matching itself is done by the `globset` crate.

use vstd::prelude::*;
use vstd::slice::slice_subrange;

use crate::error::{Error, FilterError};
use crate::paths::{components, same_path};
use crate::pathset::{lemma_last_with_path_exists, PathIndex};
use crate::text::{chars_of, string_of};

verus! {

/// `globset::GlobSetBuilder`: globs collected for one set.
#[verifier::external_type_specification]
#[verifier::external_body]
pub struct ExGlobSetBuilder(globset::GlobSetBuilder);

/// `globset::GlobSet`: a compiled set of globs matched together.
#[verifier::external_type_specification]
#[verifier::external_body]
pub struct ExGlobSet(globset::GlobSet);

/// Names whether `globset::Glob::new` accepts `pattern`.
pub uninterp spec fn glob_parses(pattern: Seq<char>) -> bool;

/// Names whether a glob built from `pattern` with default options matches
/// `path`.
pub uninterp spec fn glob_matches(pattern: Seq<char>, path: Seq<char>) -> bool;

/// Names whether `GlobSetBuilder::build` succeeds for these patterns.
pub uninterp spec fn set_builds(patterns: Seq<Seq<char>>) -> bool;

/// Names the patterns added to a builder, in order.
pub uninterp spec fn builder_patterns(b: globset::GlobSetBuilder) -> Seq<Seq<char>>;

/// Names the patterns a compiled set was built from, in order.
pub uninterp spec fn set_patterns(s: globset::GlobSet) -> Seq<Seq<char>>;

/// Calls `GlobSetBuilder::new()`. Claims the new builder holds no pattern.
#[verifier::external_body]
fn new_builder() -> (b: globset::GlobSetBuilder)
    ensures
        builder_patterns(b) == Seq::<Seq<char>>::empty(),
{
    globset::GlobSetBuilder::new()
}

/// Calls `Glob::new(pat)` and, when it parses, `GlobSetBuilder::add` with the
/// glob. Claims: the result says whether the pattern parsed, and a parsed
/// pattern is appended to the builder's patterns while a refused one leaves
/// them unchanged.
#[verifier::external_body]
fn add_pattern(b: &mut globset::GlobSetBuilder, pat: &str) -> (ok: bool)
    ensures
        ok == glob_parses(pat@),
        ok ==> builder_patterns(*final(b)) == builder_patterns(*old(b)).push(pat@),
        !ok ==> builder_patterns(*final(b)) == builder_patterns(*old(b)),
{
    match globset::Glob::new(pat) {
        Ok(glob) => {
            b.add(glob);
            true
        },
        Err(_) => false,
    }
}

/// Calls `GlobSetBuilder::build`. Claims: it succeeds exactly when
/// `set_builds` says so for the builder's patterns, and the set holds those
/// patterns.
#[verifier::external_body]
fn build_set(b: &globset::GlobSetBuilder) -> (r: Option<globset::GlobSet>)
    ensures
        r is Some == set_builds(builder_patterns(*b)),
        r matches Some(s) ==> set_patterns(s) == builder_patterns(*b),
{
    b.build().ok()
}

/// Calls `GlobSet::is_match(path)`. Claims what the crate documents: true if
/// any glob in the set matches the path.
#[verifier::external_body]
fn set_is_match(s: &globset::GlobSet, path: &str) -> (r: bool)
    ensures
        r == (exists|i: int|
            0 <= i < set_patterns(*s).len() && glob_matches(#[trigger] set_patterns(*s)[i], path@)),
{
    s.is_match(path)
}

/// Whether `c` has the Unicode `White_Space` property.
pub open spec fn is_whitespace_spec(c: char) -> bool {
    ||| '\u{9}' <= c <= '\u{d}'
    ||| c == ' '
    ||| c == '\u{85}'
    ||| c == '\u{a0}'
    ||| c == '\u{1680}'
    ||| '\u{2000}' <= c <= '\u{200a}'
    ||| c == '\u{2028}'
    ||| c == '\u{2029}'
    ||| c == '\u{202f}'
    ||| c == '\u{205f}'
    ||| c == '\u{3000}'
}

/// Whether `c` has the Unicode `White_Space` property (what
/// `char::is_whitespace` decides).
pub(crate) fn is_whitespace(c: char) -> (r: bool)
    ensures
        r == is_whitespace_spec(c),
{
    ('\u{9}' <= c && c <= '\u{d}') || c == ' ' || c == '\u{85}' || c == '\u{a0}' || c
        == '\u{1680}' || ('\u{2000}' <= c && c <= '\u{200a}') || c == '\u{2028}' || c == '\u{2029}'
        || c == '\u{202f}' || c == '\u{205f}' || c == '\u{3000}'
}

/// `s` without leading whitespace.
pub open spec fn trim_start(s: Seq<char>) -> Seq<char>
    decreases s.len(),
{
    if s.len() > 0 && is_whitespace_spec(s[0]) {
        trim_start(s.drop_first())
    } else {
        s
    }
}

/// `s` without trailing whitespace.
pub open spec fn trim_end(s: Seq<char>) -> Seq<char>
    decreases s.len(),
{
    if s.len() > 0 && is_whitespace_spec(s.last()) {
        trim_end(s.drop_last())
    } else {
        s
    }
}

/// `s` without leading and trailing whitespace (`str::trim`).
pub open spec fn trim(s: Seq<char>) -> Seq<char> {
    trim_end(trim_start(s))
}

/// Index of the first whitespace character in `s`, or `s.len()` if none.
pub open spec fn first_whitespace(s: Seq<char>) -> int
    decreases s.len(),
{
    if s.len() == 0 {
        0
    } else if is_whitespace_spec(s[0]) {
        0
    } else {
        1 + first_whitespace(s.drop_first())
    }
}

proof fn lemma_first_whitespace_bounds(s: Seq<char>)
    ensures
        0 <= first_whitespace(s) <= s.len(),
        first_whitespace(s) < s.len() ==> is_whitespace_spec(s[first_whitespace(s)]),
        forall|j: int| 0 <= j < first_whitespace(s) ==> !is_whitespace_spec(#[trigger] s[j]),
    decreases s.len(),
{
    if s.len() > 0 && !is_whitespace_spec(s[0]) {
        lemma_first_whitespace_bounds(s.drop_first());
        assert forall|j: int| 0 <= j < first_whitespace(s) implies !is_whitespace_spec(
            #[trigger] s[j],
        ) by {
            if j > 0 {
                assert(s[j] == s.drop_first()[j - 1]);
            }
        }
    }
}

pub(crate) fn trim_chars(cs: &[char]) -> (r: (usize, usize))
    ensures
        r.0 <= r.1 <= cs@.len(),
        cs@.subrange(r.0 as int, r.1 as int) == trim(cs@),
{
    let mut lo: usize = 0;
    proof {
        assert(cs@.skip(0) =~= cs@);
    }
    while lo < cs.len() && is_whitespace(cs[lo])
        invariant
            lo <= cs@.len(),
            trim_start(cs@.skip(lo as int)) == trim_start(cs@),
        decreases cs@.len() - lo,
    {
        proof {
            assert(cs@.skip(lo as int).drop_first() =~= cs@.skip(lo + 1));
        }
        lo += 1;
    }
    proof {
        if lo == 0 {
            assert(cs@.skip(0) =~= cs@);
        }
    }
    let ghost start = cs@.skip(lo as int);
    proof {
        assert(trim_start(start) == start);
    }
    let mut hi: usize = cs.len();
    proof {
        assert(start.take((hi - lo) as int) =~= start);
    }
    while hi > lo && is_whitespace(cs[hi - 1])
        invariant
            lo <= hi <= cs@.len(),
            start == cs@.skip(lo as int),
            trim_end(start.take(hi - lo)) == trim_end(start),
        decreases hi,
    {
        proof {
            let t = start.take(hi - lo);
            assert(t.last() == cs@[hi - 1]);
            assert(t.drop_last() =~= start.take(hi - 1 - lo));
        }
        hi -= 1;
    }
    proof {
        let t = start.take(hi - lo);
        if hi > lo {
            assert(t.last() == cs@[hi - 1]);
        }
        assert(trim_end(t) == t);
        assert(cs@.subrange(lo as int, hi as int) =~= t);
    }
    (lo, hi)
}

/// How a `--filter` rule reads: `Some((keep, pattern))`, or `None` when
/// the trimmed rule has no whitespace after its sign.
pub open spec fn split_rule(rule: Seq<char>) -> Option<(Seq<char>, Seq<char>)> {
    let t = trim(rule);
    let i = first_whitespace(t);
    if i >= t.len() {
        None
    } else {
        Some((t.take(i), trim(t.skip(i + 1))))
    }
}

/// What the builder has collected, as plain values.
pub struct FilterBuilderView {
    /// `--filter` rules: (keep, pattern), in order.
    pub filters: Seq<(bool, Seq<char>)>,
    /// `--include` patterns.
    pub includes: Seq<Seq<char>>,
    /// `--exclude` patterns.
    pub excludes: Seq<Seq<char>>,
    /// The `--files-from` allowlist, if given.
    pub files_from: Option<Seq<Seq<char>>>,
}

/// Builds a [`Filter`] from command-line inputs.
pub struct FilterBuilder {
    filters: Vec<(bool, String)>,
    includes: Vec<String>,
    excludes: Vec<String>,
    files_from: Option<Vec<String>>,
}

impl View for FilterBuilder {
    type V = FilterBuilderView;

    closed spec fn view(&self) -> FilterBuilderView {
        FilterBuilderView {
            filters: self.filters@.map_values(|f: (bool, String)| (f.0, f.1@)),
            includes: self.includes@.map_values(|s: String| s@),
            excludes: self.excludes@.map_values(|s: String| s@),
            files_from: match self.files_from {
                Some(v) => Some(v@.map_values(|s: String| s@)),
                None => None,
            },
        }
    }
}

impl Default for FilterBuilder {
    fn default() -> (b: Self)
        ensures
            b@.filters.len() == 0,
            b@.includes.len() == 0,
            b@.excludes.len() == 0,
            b@.files_from is None,
    {
        FilterBuilder {
            filters: Vec::new(),
            includes: Vec::new(),
            excludes: Vec::new(),
            files_from: None,
        }
    }
}

/// A filter rule as compiled: whether a match includes, and the globs tried.
pub struct Rule {
    keep: bool,
    set: globset::GlobSet,
}

/// A compiled filter, as plain values: each rule's sign and the patterns of
/// its globs, and the allowlist if any.
pub struct FilterView {
    /// (keep, glob patterns) per rule, in precedence order.
    pub rules: Seq<(bool, Seq<Seq<char>>)>,
    /// The `--files-from` allowlist, if given.
    pub allow: Option<Seq<Seq<char>>>,
}

/// A compiled set of include/exclude rules and an optional files-from
/// allowlist, with a hash index over the allowlist's paths.
pub struct Filter {
    rules: Vec<Rule>,
    files_from: Option<Vec<String>>,
    allow_index: PathIndex,
}

impl Filter {
    /// The index covers the allowlist.
    #[verifier::type_invariant]
    spec fn allow_indexed(self) -> bool {
        match self.files_from {
            Some(v) => self.allow_index.indexes(v@),
            None => true,
        }
    }
}

impl View for Filter {
    type V = FilterView;

    closed spec fn view(&self) -> FilterView {
        FilterView {
            rules: self.rules@.map_values(|r: Rule| (r.keep, set_patterns(r.set))),
            allow: match self.files_from {
                Some(v) => Some(v@.map_values(|s: String| s@)),
                None => None,
            },
        }
    }
}

/// One of a rule's globs matches `rel`.
pub open spec fn rule_matches(rule: (bool, Seq<Seq<char>>), rel: Seq<char>) -> bool {
    exists|i: int| 0 <= i < rule.1.len() && glob_matches(#[trigger] rule.1[i], rel)
}

/// The first matching rule decides: an exclude rule drops the path, an
/// include rule keeps it; with no matching rule the path is kept.
pub open spec fn first_match_excludes(rules: Seq<(bool, Seq<Seq<char>>)>, rel: Seq<char>) -> bool
    decreases rules.len(),
{
    if rules.len() == 0 {
        false
    } else if rule_matches(rules[0], rel) {
        !rules[0].0
    } else {
        first_match_excludes(rules.drop_first(), rel)
    }
}

/// Whether a filter drops `rel`: directories never; with an allowlist,
/// exactly the paths not on it (compared as paths); otherwise as the first
/// matching rule says.
pub open spec fn excluded_spec(f: FilterView, rel: Seq<char>, is_dir: bool) -> bool {
    if is_dir {
        false
    } else {
        match f.allow {
            Some(allow) => !(exists|i: int|
                0 <= i < allow.len() && components(#[trigger] allow[i]) == components(rel)),
            None => first_match_excludes(f.rules, rel),
        }
    }
}

/// The pattern contains `**`.
pub open spec fn has_double_star(p: Seq<char>) -> bool {
    exists|i: int| 0 <= i < p.len() - 1 && p[i] == '*' && #[trigger] p[i + 1] == '*'
}

/// The globs a pattern compiles to: the pattern itself and, unless it already
/// holds `**`, its nested form, its subtree form, and both together.
pub open spec fn pattern_variants(p: Seq<char>) -> Seq<Seq<char>> {
    if has_double_star(p) {
        seq![p]
    } else {
        seq![
            p,
            seq!['*', '*', '/'] + p,
            p + seq!['/', '*', '*'],
            seq!['*', '*', '/'] + p + seq!['/', '*', '*'],
        ]
    }
}

/// Index of the first variant that does not parse, or the number of variants.
pub open spec fn first_unparsed(vs: Seq<Seq<char>>) -> int
    decreases vs.len(),
{
    if vs.len() == 0 {
        0
    } else if !glob_parses(vs[0]) {
        0
    } else {
        1 + first_unparsed(vs.drop_first())
    }
}

/// Every variant of the pattern parses and the set builds.
pub open spec fn rule_compiles(p: Seq<char>) -> bool {
    first_unparsed(pattern_variants(p)) == pattern_variants(p).len() && set_builds(
        pattern_variants(p),
    )
}

/// The error a pattern that does not compile is refused with: the first
/// variant that does not parse, or else the set that does not build.
pub open spec fn rule_error(e: Error, p: Seq<char>) -> bool {
    let vs = pattern_variants(p);
    let k = first_unparsed(vs);
    if k < vs.len() {
        e matches Error::Filter(FilterError::InvalidPattern(g)) && g@ == vs[k]
    } else {
        e matches Error::Filter(FilterError::Unbuildable(g)) && g@ == p
    }
}

/// The rules of a builder in precedence order: `--filter` rules, then
/// includes, then excludes.
pub open spec fn rule_sources(b: FilterBuilderView) -> Seq<(bool, Seq<char>)> {
    b.filters + b.includes.map_values(|p: Seq<char>| (true, p)) + b.excludes.map_values(
        |p: Seq<char>| (false, p),
    )
}

proof fn lemma_first_unparsed_bounds(vs: Seq<Seq<char>>)
    ensures
        0 <= first_unparsed(vs) <= vs.len(),
        first_unparsed(vs) < vs.len() ==> !glob_parses(vs[first_unparsed(vs)]),
        forall|j: int| 0 <= j < first_unparsed(vs) ==> glob_parses(#[trigger] vs[j]),
    decreases vs.len(),
{
    if vs.len() > 0 && glob_parses(vs[0]) {
        lemma_first_unparsed_bounds(vs.drop_first());
        assert forall|j: int| 0 <= j < first_unparsed(vs) implies glob_parses(#[trigger] vs[j]) by {
            if j > 0 {
                assert(vs[j] == vs.drop_first()[j - 1]);
            }
        }
    }
}

fn has_double_star_exec(p: &[char]) -> (r: bool)
    ensures
        r == has_double_star(p@),
{
    if p.len() < 2 {
        return false;
    }
    let mut i: usize = 0;
    while i < p.len() - 1
        invariant
            p@.len() >= 2,
            i <= p@.len() - 1,
            forall|j: int| 0 <= j < i ==> !(p@[j] == '*' && #[trigger] p@[j + 1] == '*'),
        decreases p@.len() - i,
    {
        if p[i] == '*' && p[i + 1] == '*' {
            return true;
        }
        i += 1;
    }
    false
}

fn variants_of(pat: &str) -> (vs: Vec<String>)
    ensures
        vs@.map_values(|s: String| s@) == pattern_variants(pat@),
        vs@.len() >= 1 && vs@[0]@ == pat@,
        !has_double_star(pat@) ==> vs@.len() == 4 && vs@[1]@ == seq!['*', '*', '/'] + pat@
            && vs@[2]@ == pat@ + seq!['/', '*', '*'] && vs@[3]@ == seq!['*', '*', '/'] + pat@
            + seq!['/', '*', '*'],
        has_double_star(pat@) ==> vs@.len() == 1,
{
    let cs = chars_of(pat);
    let mut out: Vec<String> = Vec::new();
    out.push(pat.to_owned());
    if !has_double_star_exec(cs.as_slice()) {
        let mut nested: Vec<char> = vec!['*', '*', '/'];
        let mut c1 = cs.clone();
        nested.append(&mut c1);
        let mut below = cs.clone();
        below.push('/');
        below.push('*');
        below.push('*');
        let mut both = nested.clone();
        both.push('/');
        both.push('*');
        both.push('*');
        out.push(string_of(nested.as_slice(), 0, nested.len()));
        out.push(string_of(below.as_slice(), 0, below.len()));
        out.push(string_of(both.as_slice(), 0, both.len()));
        proof {
            assert(nested@.subrange(0, nested@.len() as int) =~= seq!['*', '*', '/'] + pat@);
            assert(below@.subrange(0, below@.len() as int) =~= pat@ + seq!['/', '*', '*']);
            assert(both@.subrange(0, both@.len() as int) =~= seq!['*', '*', '/'] + pat@ + seq![
                '/',
                '*',
                '*',
            ]);
        }
    }
    proof {
        assert(out@.map_values(|s: String| s@) =~= pattern_variants(pat@));
        assert(out@.map_values(|s: String| s@)[0] == out@[0]@);
        if !has_double_star(pat@) {
            assert(out@.map_values(|s: String| s@)[1] == out@[1]@);
            assert(out@.map_values(|s: String| s@)[2] == out@[2]@);
            assert(out@.map_values(|s: String| s@)[3] == out@[3]@);
        }
    }
    out
}

/// A pattern matches at the root, nested at any depth, and everything
/// beneath a matching directory: unless it already holds `**`, its globs
/// are the pattern itself, `**/` before it, `/**` after it, and both; a
/// pattern holding `**` is used as written.
pub proof fn lemma_pattern_reaches_everywhere(p: Seq<char>)
    ensures
        pattern_variants(p).contains(p),
        !has_double_star(p) ==> pattern_variants(p).contains(seq!['*', '*', '/'] + p)
            && pattern_variants(p).contains(p + seq!['/', '*', '*']) && pattern_variants(p).contains(
            seq!['*', '*', '/'] + p + seq!['/', '*', '*'],
        ),
        has_double_star(p) ==> pattern_variants(p) == seq![p],
{
    let v = pattern_variants(p);
    assert(v[0] == p);
    if !has_double_star(p) {
        assert(v[1] == seq!['*', '*', '/'] + p);
        assert(v[2] == p + seq!['/', '*', '*']);
        assert(v[3] == seq!['*', '*', '/'] + p + seq!['/', '*', '*']);
    }
}

/// An exclude rule for `p` drops a file that `**/p` matches (so `p` found
/// anywhere below the root), provided no earlier rule matched it first.
pub proof fn lemma_exclude_drops_nested(
    rules: Seq<(bool, Seq<Seq<char>>)>,
    i: int,
    p: Seq<char>,
    rel: Seq<char>,
)
    requires
        0 <= i < rules.len(),
        rules[i] == (false, pattern_variants(p)),
        !has_double_star(p),
        glob_matches(seq!['*', '*', '/'] + p, rel),
        forall|j: int| 0 <= j < i ==> !rule_matches(#[trigger] rules[j], rel),
    ensures
        first_match_excludes(rules, rel),
        excluded_spec(FilterView { rules, allow: None }, rel, false),
    decreases i,
{
    lemma_pattern_reaches_everywhere(p);
    let v = pattern_variants(p);
    assert(v[1] == seq!['*', '*', '/'] + p);
    assert(rules[i].1[1] == seq!['*', '*', '/'] + p);
    assert(glob_matches(rules[i].1[1], rel));
    assert(rule_matches(rules[i], rel));
    if i > 0 {
        assert(!rule_matches(rules[0], rel));
        let rest = rules.drop_first();
        assert forall|j: int| 0 <= j < i - 1 implies !rule_matches(#[trigger] rest[j], rel) by {
            assert(rest[j] == rules[j + 1]);
        }
        lemma_exclude_drops_nested(rest, i - 1, p, rel);
    }
}

/// Compiles one pattern into a rule: each pattern matches at the root,
/// nested anywhere, and everything beneath a matching directory.
fn compile_rule(keep: bool, pat: &str) -> (r: Result<Rule, Error>)
    ensures
        r is Ok <==> rule_compiles(pat@),
        r matches Ok(rule) ==> rule.keep == keep && set_patterns(rule.set)
            == pattern_variants(pat@),
        r matches Err(e) ==> rule_error(e, pat@),
{
    let vs = variants_of(pat);
    let ghost views = vs@.map_values(|s: String| s@);
    let mut builder = new_builder();
    let mut i: usize = 0;
    proof {
        lemma_first_unparsed_bounds(views);
        assert(views.take(0) =~= Seq::<Seq<char>>::empty());
    }
    while i < vs.len()
        invariant
            views == vs@.map_values(|s: String| s@),
            views == pattern_variants(pat@),
            i <= vs@.len(),
            builder_patterns(builder) == views.take(i as int),
            forall|j: int| 0 <= j < i ==> glob_parses(#[trigger] views[j]),
            0 <= first_unparsed(views) <= views.len(),
            first_unparsed(views) < views.len() ==> !glob_parses(views[first_unparsed(views)]),
            forall|j: int| 0 <= j < first_unparsed(views) ==> glob_parses(#[trigger] views[j]),
        decreases vs@.len() - i,
    {
        if !add_pattern(&mut builder, vs[i].as_str()) {
            proof {
                assert(views[i as int] == vs@[i as int]@);
                assert(first_unparsed(views) == i);
            }
            return Err(Error::Filter(FilterError::InvalidPattern(vs[i].clone())));
        }
        proof {
            assert(views[i as int] == vs@[i as int]@);
            assert(views.take(i + 1) =~= views.take(i as int).push(views[i as int]));
        }
        i += 1;
    }
    proof {
        assert(views.take(i as int) =~= views);
        if first_unparsed(views) < views.len() {
            assert(glob_parses(views[first_unparsed(views)]));
        }
    }
    match build_set(&builder) {
        Some(set) => Ok(Rule { keep, set }),
        None => Err(Error::Filter(FilterError::Unbuildable(pat.to_owned()))),
    }
}

impl Filter {
    /// An empty filter that includes everything.
    pub fn none() -> (f: Filter)
        ensures
            f@.rules.len() == 0,
            f@.allow is None,
    {
        let none: Vec<String> = Vec::new();
        Filter { rules: Vec::new(), files_from: None, allow_index: PathIndex::new(&none) }
    }

    /// Whether this filter would drop nothing (fast path for the walk).
    pub fn is_empty(&self) -> (r: bool)
        ensures
            r == (self@.rules.len() == 0 && self@.allow is None),
    {
        self.rules.len() == 0 && self.files_from.is_none()
    }

    /// Whether `rel` (relative to the walk root) is dropped (see
    /// [`excluded_spec`]). Directories are always kept.
    pub fn is_excluded(&self, rel: &str, is_dir: bool) -> (r: bool)
        ensures
            r == excluded_spec(self@, rel@, is_dir),
    {
        if is_dir {
            return false;
        }
        proof {
            use_type_invariant(self);
        }
        match &self.files_from {
            Some(allow) => {
                let found = self.allow_index.last_of(allow, rel);
                proof {
                    lemma_last_with_path_exists(allow@, rel@, allow@.len() as int);
                    let v = self@.allow->Some_0;
                    assert forall|j: int| 0 <= j < v.len() implies #[trigger] v[j] == allow@[j]@ by {}
                    if found is Some {
                        let i = choose|i: int|
                            0 <= i < allow@.len() && components(#[trigger] allow@[i]@) == components(rel@);
                        assert(components(v[i]) == components(rel@));
                    } else {
                        assert forall|j: int| 0 <= j < v.len() implies components(#[trigger] v[j])
                            != components(rel@) by {
                            assert(v[j] == allow@[j]@);
                        }
                    }
                }
                found.is_none()
            },
            None => {
                let ghost rules = self@.rules;
                let mut i: usize = 0;
                proof {
                    assert(rules.skip(0) =~= rules);
                }
                while i < self.rules.len()
                    invariant
                        !is_dir,
                        rules == self@.rules,
                        rules.len() == self.rules@.len(),
                        self.files_from is None,
                        i <= rules.len(),
                        first_match_excludes(rules.skip(i as int), rel@) == first_match_excludes(
                            rules,
                            rel@,
                        ),
                    decreases rules.len() - i,
                {
                    let rule = &self.rules[i];
                    proof {
                        let rest = rules.skip(i as int);
                        assert(rest[0] == rules[i as int]);
                        assert(rules[i as int] == (rule.keep, set_patterns(rule.set)));
                        assert(rest.drop_first() =~= rules.skip(i + 1));
                    }
                    let matched = set_is_match(&rule.set, rel);
                    proof {
                        let r0 = rules[i as int];
                        if matched {
                            let w = choose|j: int|
                                0 <= j < set_patterns(rule.set).len() && glob_matches(
                                    #[trigger] set_patterns(rule.set)[j],
                                    rel@,
                                );
                            assert(r0.1[w] == set_patterns(rule.set)[w]);
                            assert(rule_matches(r0, rel@));
                        } else {
                            assert forall|j: int| 0 <= j < r0.1.len() implies !glob_matches(
                                #[trigger] r0.1[j],
                                rel@,
                            ) by {
                                assert(r0.1[j] == set_patterns(rule.set)[j]);
                            }
                            assert(!rule_matches(r0, rel@));
                        }
                    }
                    if matched {
                        proof {
                            assert(first_match_excludes(rules.skip(i as int), rel@) == !rule.keep);
                        }
                        return !rule.keep;
                    }
                    i += 1;
                }
                proof {
                    assert(rules.skip(i as int) =~= Seq::<(bool, Seq<Seq<char>>)>::empty());
                }
                false
            },
        }
    }
}

impl FilterBuilder {
    /// Adds a raw `--filter` rule of the form `"+ pattern"` or `"- pattern"`.
    /// The rule is trimmed and split at its first whitespace; the pattern is
    /// trimmed too. Fails when there is no whitespace after the sign
    /// ([`FilterError::MissingPattern`], naming the rule) or the sign is
    /// neither `+` nor `-` ([`FilterError::BadSign`], naming the sign); the
    /// builder is then unchanged.
    pub fn filter_rule(&mut self, rule: &str) -> (r: Result<(), Error>)
        ensures
            match split_rule(rule@) {
                None => r matches Err(Error::Filter(FilterError::MissingPattern(s))) && s@
                    == rule@ && final(self)@ == old(self)@,
                Some((sign, pat)) => if sign == seq!['+'] || sign == seq!['-'] {
                    r is Ok && final(self)@ == (FilterBuilderView {
                        filters: old(self)@.filters.push((sign == seq!['+'], pat)),
                        ..old(self)@
                    })
                } else {
                    r matches Err(Error::Filter(FilterError::BadSign(s))) && s@ == sign
                        && final(self)@ == old(self)@
                },
            },
    {
        let cs = chars_of(rule);
        let (lo, hi) = trim_chars(cs.as_slice());
        let ghost t = trim(rule@);
        let mut i: usize = lo;
        proof {
            lemma_first_whitespace_bounds(t);
            assert(cs@.subrange(lo as int, hi as int) == t);
        }
        while i < hi && !is_whitespace(cs[i])
            invariant
                lo <= i <= hi <= cs@.len(),
                cs@ == rule@,
                cs@.subrange(lo as int, hi as int) == t,
                forall|j: int| lo <= j < i ==> !is_whitespace_spec(#[trigger] cs@[j]),
            decreases hi - i,
        {
            i += 1;
        }
        proof {
            let k = (i - lo) as int;
            assert forall|j: int| 0 <= j < k implies !is_whitespace_spec(#[trigger] t[j]) by {
                assert(t[j] == cs@[lo + j]);
            }
            if i < hi {
                assert(t[k] == cs@[i as int]);
                assert(is_whitespace_spec(t[k]));
            }
            // first_whitespace(t) is the first whitespace index
            if first_whitespace(t) < k {
                assert(!is_whitespace_spec(t[first_whitespace(t)]));
            }
            if k < first_whitespace(t) {
                assert(!is_whitespace_spec(t[k]));
            }
            assert(first_whitespace(t) == k);
        }
        if i >= hi {
            return Err(Error::Filter(FilterError::MissingPattern(rule.to_owned())));
        }
        let sign_is_plus = i - lo == 1 && cs[lo] == '+';
        let sign_is_minus = i - lo == 1 && cs[lo] == '-';
        let ghost sign = t.take((i - lo) as int);
        proof {
            assert(sign =~= cs@.subrange(lo as int, i as int));
            if sign_is_plus {
                assert(sign =~= seq!['+']);
            }
            if sign_is_minus {
                assert(sign =~= seq!['-']);
            }
            if sign == seq!['+'] {
                assert(sign[0] == cs@[lo as int]);
            }
            if sign == seq!['-'] {
                assert(sign[0] == cs@[lo as int]);
            }
        }
        if !sign_is_plus && !sign_is_minus {
            return Err(Error::Filter(FilterError::BadSign(string_of(cs.as_slice(), lo, i))));
        }
        let rest = string_of(cs.as_slice(), i + 1, hi);
        let rest_cs = chars_of(rest.as_str());
        let (plo, phi) = trim_chars(rest_cs.as_slice());
        let pat = string_of(rest_cs.as_slice(), plo, phi);
        proof {
            assert(rest@ =~= t.skip((i - lo) + 1));
        }
        self.filters.push((sign_is_plus, pat));
        proof {
            assert(self@.filters =~= old(self)@.filters.push((sign == seq!['+'], trim(t.skip((i - lo) + 1)))));
        }
        Ok(())
    }

    /// Adds an `--include` pattern.
    pub fn add_include(&mut self, pat: &str)
        ensures
            final(self)@ == (FilterBuilderView { includes: old(self)@.includes.push(pat@), ..old(self)@ }),
    {
        self.includes.push(pat.to_owned());
        proof {
            assert(self@.includes =~= old(self)@.includes.push(pat@));
        }
    }

    /// Adds an `--exclude` pattern.
    pub fn exclude(&mut self, pat: &str)
        ensures
            final(self)@ == (FilterBuilderView { excludes: old(self)@.excludes.push(pat@), ..old(self)@ }),
    {
        self.excludes.push(pat.to_owned());
        proof {
            assert(self@.excludes =~= old(self)@.excludes.push(pat@));
        }
    }

    /// Sets the explicit allowlist of relative paths (`--files-from`).
    pub fn files_from(&mut self, paths: Vec<String>)
        ensures
            final(self)@ == (FilterBuilderView {
                files_from: Some(paths@.map_values(|s: String| s@)),
                ..old(self)@
            }),
    {
        self.files_from = Some(paths);
    }

    /// Compiles the [`Filter`]: one rule per `--filter`, then per include,
    /// then per exclude (see [`rule_sources`]). Fails on the first rule whose
    /// pattern does not compile, with that rule's [`rule_error`].
    pub fn build(self) -> (r: Result<Filter, Error>)
        ensures
            ({
                let src = rule_sources(self@);
                &&& (r is Ok <==> forall|i: int| 0 <= i < src.len() ==> rule_compiles(#[trigger] src[i].1))
                &&& r matches Ok(f) ==> {
                    &&& f@.rules.len() == src.len()
                    &&& forall|i: int| 0 <= i < src.len() ==> #[trigger] f@.rules[i] == (src[i].0, pattern_variants(src[i].1))
                    &&& f@.allow == self@.files_from
                }
                &&& r matches Err(e) ==> exists|i: int|
                    0 <= i < src.len() && !rule_compiles(#[trigger] src[i].1) && rule_error(e, src[i].1)
                        && forall|j: int| 0 <= j < i ==> rule_compiles(#[trigger] src[j].1)
            }),
            r matches Ok(f) ==> forall|i: int|
                0 <= i < rule_sources(self@).len() ==> (#[trigger] f@.rules[i]).1.contains(
                    rule_sources(self@)[i].1,
                ) && (!has_double_star(rule_sources(self@)[i].1) ==> f@.rules[i].1.contains(
                    seq!['*', '*', '/'] + rule_sources(self@)[i].1,
                )),
    {
        let ghost v = self@;
        let ghost src = rule_sources(v);
        let ghost nf = v.filters.len() as int;
        let ghost ni = v.includes.len() as int;
        let ghost ne = v.excludes.len() as int;
        proof {
            assert(src.len() == nf + ni + ne);
            assert forall|t: int| 0 <= t < nf implies #[trigger] src[t] == v.filters[t] by {}
            assert forall|t: int| 0 <= t < ni implies #[trigger] src[nf + t] == (true, v.includes[t]) by {}
            assert forall|t: int| 0 <= t < ne implies #[trigger] src[nf + ni + t] == (false, v.excludes[t]) by {}
        }
        let mut rules: Vec<Rule> = Vec::new();
        let mut k: usize = 0;
        while k < self.filters.len()
            invariant
                v == self@,
                src == rule_sources(v),
                nf == v.filters.len(),
                forall|t: int| 0 <= t < nf ==> #[trigger] src[t] == v.filters[t],
                k <= nf,
                rules@.len() == k,
                forall|t: int| 0 <= t < k ==> (#[trigger] rules@[t]).keep == src[t].0 && set_patterns(rules@[t].set) == pattern_variants(src[t].1),
                forall|t: int| 0 <= t < k ==> rule_compiles(#[trigger] src[t].1),
            decreases nf - k,
        {
            let item = &self.filters[k];
            proof {
                assert(v.filters[k as int] == (self.filters@[k as int].0, self.filters@[k as int].1@));
            }
            match compile_rule(item.0, item.1.as_str()) {
                Ok(rule) => {
                    rules.push(rule);
                },
                Err(e) => {
                    proof {
                        assert(!rule_compiles(src[k as int].1) && rule_error(e, src[k as int].1));
                    }
                    return Err(e);
                },
            }
            k += 1;
        }
        k = 0;
        while k < self.includes.len()
            invariant
                v == self@,
                src == rule_sources(v),
                nf == v.filters.len(),
                ni == v.includes.len(),
                forall|t: int| 0 <= t < ni ==> #[trigger] src[nf + t] == (true, v.includes[t]),
                k <= ni,
                rules@.len() == nf + k,
                forall|t: int| 0 <= t < nf + k ==> (#[trigger] rules@[t]).keep == src[t].0 && set_patterns(rules@[t].set) == pattern_variants(src[t].1),
                forall|t: int| 0 <= t < nf + k ==> rule_compiles(#[trigger] src[t].1),
            decreases ni - k,
        {
            proof {
                assert(v.includes[k as int] == self.includes@[k as int]@);
                assert(src[nf + k] == (true, v.includes[k as int]));
            }
            match compile_rule(true, self.includes[k].as_str()) {
                Ok(rule) => {
                    rules.push(rule);
                },
                Err(e) => {
                    proof {
                        assert(!rule_compiles(src[nf + k].1) && rule_error(e, src[nf + k].1));
                    }
                    return Err(e);
                },
            }
            k += 1;
        }
        k = 0;
        while k < self.excludes.len()
            invariant
                v == self@,
                src == rule_sources(v),
                nf == v.filters.len(),
                ni == v.includes.len(),
                ne == v.excludes.len(),
                src.len() == nf + ni + ne,
                forall|t: int| 0 <= t < ne ==> #[trigger] src[nf + ni + t] == (false, v.excludes[t]),
                k <= ne,
                rules@.len() == nf + ni + k,
                forall|t: int| 0 <= t < nf + ni + k ==> (#[trigger] rules@[t]).keep == src[t].0 && set_patterns(rules@[t].set) == pattern_variants(src[t].1),
                forall|t: int| 0 <= t < nf + ni + k ==> rule_compiles(#[trigger] src[t].1),
            decreases ne - k,
        {
            proof {
                assert(v.excludes[k as int] == self.excludes@[k as int]@);
                assert(src[nf + ni + k] == (false, v.excludes[k as int]));
            }
            match compile_rule(false, self.excludes[k].as_str()) {
                Ok(rule) => {
                    rules.push(rule);
                },
                Err(e) => {
                    proof {
                        assert(!rule_compiles(src[nf + ni + k].1) && rule_error(e, src[nf + ni + k].1));
                    }
                    return Err(e);
                },
            }
            k += 1;
        }
        let allow_index = match &self.files_from {
            Some(paths) => PathIndex::new(paths),
            None => PathIndex::new(&Vec::new()),
        };
        let f = Filter { rules, files_from: self.files_from, allow_index };
        proof {
            assert forall|i: int| 0 <= i < src.len() implies #[trigger] f@.rules[i] == (src[i].0, pattern_variants(src[i].1)) by {
                assert(f@.rules[i] == (f.rules@[i].keep, set_patterns(f.rules@[i].set)));
            }
            assert forall|i: int| 0 <= i < src.len() implies (#[trigger] f@.rules[i]).1.contains(
                src[i].1,
            ) && (!has_double_star(src[i].1) ==> f@.rules[i].1.contains(
                seq!['*', '*', '/'] + src[i].1,
            )) by {
                lemma_pattern_reaches_everywhere(src[i].1);
            }
        }
        Ok(f)
    }
}

/// A filter built from nothing excludes nothing.
pub proof fn lemma_empty_filter_keeps_everything(f: FilterView, rel: Seq<char>, is_dir: bool)
    requires
        f.rules.len() == 0,
        f.allow is None,
    ensures
        !excluded_spec(f, rel, is_dir),
{
}

/// Rules are tried in order and the first that matches decides: a path that
/// the first rule matches takes that rule's verdict whatever follows.
pub proof fn lemma_first_rule_wins(
    rules: Seq<(bool, Seq<Seq<char>>)>,
    rel: Seq<char>,
)
    requires
        rules.len() > 0,
        rule_matches(rules[0], rel),
    ensures
        first_match_excludes(rules, rel) == !rules[0].0,
        forall|more: Seq<(bool, Seq<Seq<char>>)>| #[trigger] first_match_excludes(rules + more, rel) == !rules[0].0,
{
    assert forall|more: Seq<(bool, Seq<Seq<char>>)>| #[trigger] first_match_excludes(rules + more, rel) == !rules[0].0 by {
        assert((rules + more)[0] == rules[0]);
    }
}

// ---------------------------------------------------------------------------
// The walk's exclude set
// ---------------------------------------------------------------------------

/// The globs an exclude pattern stands for: itself and, unless it already
/// spans directories (`**`), the same pattern nested anywhere.
pub open spec fn exclude_variants(p: Seq<char>) -> Seq<Seq<char>> {
    if has_double_star(p) {
        seq![p]
    } else {
        seq![p, seq!['*', '*', '/'] + p]
    }
}

/// The globs of a list of exclude patterns, in order.
pub open spec fn exclude_globs(pats: Seq<Seq<char>>) -> Seq<Seq<char>>
    decreases pats.len(),
{
    if pats.len() == 0 {
        seq![]
    } else {
        exclude_globs(pats.drop_last()) + exclude_variants(pats.last())
    }
}

/// The compiled exclude set a walk drops entries by.
pub struct Excludes {
    set: globset::GlobSet,
}

impl Excludes {
    /// The globs the set was built from, in order.
    pub closed spec fn globs(&self) -> Seq<Seq<char>> {
        set_patterns(self.set)
    }

    /// Whether any glob of the set matches `rel`.
    pub fn matches(&self, rel: &str) -> (r: bool)
        ensures
            r == (exists|i: int|
                0 <= i < self.globs().len() && glob_matches(#[trigger] self.globs()[i], rel@)),
    {
        set_is_match(&self.set, rel)
    }
}

/// Compiles exclude patterns (see [`exclude_globs`]). Fails on the first glob
/// that does not parse, naming it, or when the set does not build.
pub fn build_excludes(patterns: &Vec<String>) -> (r: Result<Excludes, Error>)
    ensures
        ({
            let gs = exclude_globs(patterns@.map_values(|s: String| s@));
            let k = first_unparsed(gs);
            &&& k < gs.len() ==> (r matches Err(Error::Filter(FilterError::InvalidPattern(g)))
                && g@ == gs[k])
            &&& (k >= gs.len() && set_builds(gs)) ==> (r matches Ok(x) && x.globs() == gs)
            &&& (k >= gs.len() && !set_builds(gs)) ==> (r matches Err(
                Error::Filter(FilterError::ExcludesUnbuildable),
            ))
        }),
{
    let ghost pats = patterns@.map_values(|s: String| s@);
    let mut globs: Vec<String> = Vec::new();
    let mut i: usize = 0;
    proof {
        assert(pats.take(0) =~= Seq::<Seq<char>>::empty());
        assert(globs@.map_values(|s: String| s@) =~= Seq::<Seq<char>>::empty());
    }
    while i < patterns.len()
        invariant
            i <= patterns@.len(),
            pats == patterns@.map_values(|s: String| s@),
            globs@.map_values(|s: String| s@) == exclude_globs(pats.take(i as int)),
        decreases patterns@.len() - i,
    {
        let p = &patterns[i];
        let cs = chars_of(p.as_str());
        let ghost before = globs@.map_values(|s: String| s@);
        globs.push(p.clone());
        if !has_double_star_exec(cs.as_slice()) {
            let mut nested: Vec<char> = vec!['*', '*', '/'];
            let mut c1 = cs.clone();
            nested.append(&mut c1);
            globs.push(string_of(nested.as_slice(), 0, nested.len()));
            proof {
                assert(nested@.subrange(0, nested@.len() as int) =~= seq!['*', '*', '/'] + p@);
            }
        }
        proof {
            assert(pats.take(i + 1).drop_last() =~= pats.take(i as int));
            assert(pats.take(i + 1).last() == p@);
            assert(globs@.map_values(|s: String| s@) =~= before + exclude_variants(p@));
        }
        i += 1;
    }
    proof {
        assert(pats.take(patterns@.len() as int) =~= pats);
    }
    let ghost views = globs@.map_values(|s: String| s@);
    let mut builder = new_builder();
    let mut j: usize = 0;
    proof {
        lemma_first_unparsed_bounds(views);
        assert(views.take(0) =~= Seq::<Seq<char>>::empty());
    }
    while j < globs.len()
        invariant
            views == globs@.map_values(|s: String| s@),
            views == exclude_globs(patterns@.map_values(|s: String| s@)),
            j <= globs@.len(),
            builder_patterns(builder) == views.take(j as int),
            forall|t: int| 0 <= t < j ==> glob_parses(#[trigger] views[t]),
            0 <= first_unparsed(views) <= views.len(),
            first_unparsed(views) < views.len() ==> !glob_parses(views[first_unparsed(views)]),
            forall|t: int| 0 <= t < first_unparsed(views) ==> glob_parses(#[trigger] views[t]),
        decreases globs@.len() - j,
    {
        if !add_pattern(&mut builder, globs[j].as_str()) {
            proof {
                assert(views[j as int] == globs@[j as int]@);
                assert(first_unparsed(views) == j);
            }
            return Err(Error::Filter(FilterError::InvalidPattern(globs[j].clone())));
        }
        proof {
            assert(views[j as int] == globs@[j as int]@);
            assert(views.take(j + 1) =~= views.take(j as int).push(views[j as int]));
        }
        j += 1;
    }
    proof {
        assert(views.take(j as int) =~= views);
        if first_unparsed(views) < views.len() {
            assert(glob_parses(views[first_unparsed(views)]));
        }
    }
    match build_set(&builder) {
        Some(set) => Ok(Excludes { set }),
        None => Err(Error::Filter(FilterError::ExcludesUnbuildable)),
    }
}

// ---------------------------------------------------------------------------
// The --files-from list
// ---------------------------------------------------------------------------

/// What one line of a files-from list contributes: the line trimmed, unless
/// it is blank or a `#` comment.
pub open spec fn listed(line: Seq<char>) -> Seq<Seq<char>> {
    let t = trim(line);
    if t.len() == 0 || t[0] == '#' {
        seq![]
    } else {
        seq![t]
    }
}

/// Reading a list line by line: the paths of the complete lines so far, and
/// the characters of the line being read.
pub open spec fn scan_list(s: Seq<char>) -> (Seq<Seq<char>>, Seq<char>)
    decreases s.len(),
{
    if s.len() == 0 {
        (seq![], seq![])
    } else {
        let (paths, cur) = scan_list(s.drop_last());
        if s.last() == '\n' {
            (paths + listed(cur), seq![])
        } else {
            (paths, cur.push(s.last()))
        }
    }
}

/// The paths a files-from list names, one per line, in order.
pub open spec fn listed_paths(s: Seq<char>) -> Seq<Seq<char>> {
    let (paths, cur) = scan_list(s);
    paths + listed(cur)
}

/// What one line contributes (see [`listed`]).
fn listed_line(seg: &[char]) -> (r: Option<String>)
    ensures
        listed(seg@).len() == 0 ==> r is None,
        listed(seg@).len() > 0 ==> (r matches Some(p) && seq![p@] == listed(seg@)),
{
    let (lo, hi) = trim_chars(seg);
    if lo == hi || seg[lo] == '#' {
        proof {
            if lo < hi {
                assert(trim(seg@)[0] == seg@[lo as int]);
            }
        }
        None
    } else {
        proof {
            assert(trim(seg@)[0] == seg@[lo as int]);
        }
        Some(string_of(seg, lo, hi))
    }
}

/// The paths of a files-from list (see [`listed_paths`]): one per line,
/// trimmed, blank lines and `#` comments skipped.
pub fn files_from_list(text: &str) -> (v: Vec<String>)
    ensures
        v@.map_values(|p: String| p@) == listed_paths(text@),
{
    let cs = chars_of(text);
    let mut out: Vec<String> = Vec::new();
    let mut start: usize = 0;
    let mut i: usize = 0;
    proof {
        assert(cs@.take(0) =~= Seq::<char>::empty());
        assert(out@.map_values(|p: String| p@) =~= Seq::<Seq<char>>::empty());
        assert(cs@.subrange(0, 0) =~= Seq::<char>::empty());
    }
    while i < cs.len()
        invariant
            cs@ == text@,
            start <= i <= cs@.len(),
            out@.map_values(|p: String| p@) == scan_list(cs@.take(i as int)).0,
            cs@.subrange(start as int, i as int) == scan_list(cs@.take(i as int)).1,
        decreases cs@.len() - i,
    {
        proof {
            let t = cs@.take(i + 1);
            assert(t.drop_last() =~= cs@.take(i as int));
            assert(t.last() == cs@[i as int]);
        }
        if cs[i] == '\n' {
            let seg = slice_subrange(cs.as_slice(), start, i);
            let ghost before = out@.map_values(|p: String| p@);
            match listed_line(seg) {
                Some(p) => {
                    out.push(p);
                    proof {
                        assert(out@.map_values(|p: String| p@) =~= before + listed(seg@));
                    }
                },
                None => {
                    proof {
                        assert(listed(seg@) =~= Seq::<Seq<char>>::empty());
                        assert(before + listed(seg@) =~= before);
                    }
                },
            }
            start = i + 1;
            proof {
                assert(cs@.subrange(start as int, i + 1) =~= Seq::<char>::empty());
            }
        } else {
            proof {
                assert(cs@.subrange(start as int, i + 1) =~= cs@.subrange(start as int, i as int).push(
                    cs@[i as int],
                ));
            }
        }
        i += 1;
    }
    proof {
        assert(cs@.take(cs@.len() as int) =~= cs@);
    }
    let seg = slice_subrange(cs.as_slice(), start, cs.len());
    let ghost before = out@.map_values(|p: String| p@);
    match listed_line(seg) {
        Some(p) => {
            out.push(p);
            proof {
                assert(out@.map_values(|p: String| p@) =~= before + listed(seg@));
            }
        },
        None => {
            proof {
                assert(listed(seg@) =~= Seq::<Seq<char>>::empty());
                assert(before + listed(seg@) =~= before);
            }
        },
    }
    out
}

} // verus!
