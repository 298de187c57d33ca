//! Classification rules: named categories of ways, tried in order.

use vstd::prelude::*;
use crate::matcher::{tags_view, Matcher, MatcherView, Tags};

verus! {

/// The mathematical form of a list of matchers.
pub open spec fn matchers_view(ms: Seq<Matcher>) -> Seq<MatcherView> {
    ms.map_values(|m: Matcher| m@)
}

/// A named category: a way belongs to it when every `requires` matcher and
/// no `excludes` matcher matches its tags.
pub struct GraphConfigOption {
    pub name: String,
    pub requires: Vec<Matcher>,
    pub excludes: Vec<Matcher>,
}

pub struct OptionView {
    pub name: Seq<char>,
    pub requires: Seq<MatcherView>,
    pub excludes: Seq<MatcherView>,
}

impl OptionView {
    /// No exclude matches and every require matches.
    pub open spec fn matches(self, tags: Seq<(Seq<char>, Seq<char>)>) -> bool {
        &&& forall|i: int| 0 <= i < self.excludes.len() ==> !#[trigger] self.excludes[i].matches(tags)
        &&& forall|i: int| 0 <= i < self.requires.len() ==> #[trigger] self.requires[i].matches(tags)
    }
}

impl View for GraphConfigOption {
    type V = OptionView;

    open spec fn view(&self) -> OptionView {
        OptionView {
            name: self.name@,
            requires: matchers_view(self.requires@),
            excludes: matchers_view(self.excludes@),
        }
    }
}

fn clone_matchers(ms: &Vec<Matcher>) -> (r: Vec<Matcher>)
    ensures
        matchers_view(r@) == matchers_view(ms@),
{
    let mut r: Vec<Matcher> = Vec::new();
    let mut i: usize = 0;
    while i < ms.len()
        invariant
            i <= ms.len(),
            r.len() == i,
            forall|k: int| 0 <= k < i ==> #[trigger] r@[k]@ == ms@[k]@,
        decreases ms.len() - i,
    {
        let m = ms[i].clone();
        assert(m@ == ms@[i as int]@);
        r.push(m);
        i += 1;
    }
    assert(matchers_view(r@) =~= matchers_view(ms@));
    r
}

impl Clone for GraphConfigOption {
    fn clone(&self) -> (r: Self)
        ensures
            r@ == self@,
    {
        GraphConfigOption {
            name: self.name.clone(),
            requires: clone_matchers(&self.requires),
            excludes: clone_matchers(&self.excludes),
        }
    }
}

/// Whether some matcher of `ms` matches `tags`.
fn any_matches(ms: &Vec<Matcher>, tags: &Tags) -> (r: bool)
    ensures
        r == exists|i: int|
            0 <= i < matchers_view(ms@).len() && #[trigger] matchers_view(ms@)[i].matches(tags_view(tags@)),
{
    let mut i: usize = 0;
    while i < ms.len()
        invariant
            i <= ms.len(),
            forall|j: int| 0 <= j < i ==> !#[trigger] matchers_view(ms@)[j].matches(tags_view(tags@)),
        decreases ms.len() - i,
    {
        if ms[i].match_tags(tags) {
            assert(matchers_view(ms@)[i as int].matches(tags_view(tags@)));
            return true;
        }
        i += 1;
    }
    false
}

/// Whether every matcher of `ms` matches `tags`.
fn all_match(ms: &Vec<Matcher>, tags: &Tags) -> (r: bool)
    ensures
        r == forall|i: int|
            0 <= i < matchers_view(ms@).len() ==> #[trigger] matchers_view(ms@)[i].matches(tags_view(tags@)),
{
    let mut i: usize = 0;
    while i < ms.len()
        invariant
            i <= ms.len(),
            forall|j: int| 0 <= j < i ==> #[trigger] matchers_view(ms@)[j].matches(tags_view(tags@)),
        decreases ms.len() - i,
    {
        if !ms[i].match_tags(tags) {
            assert(!matchers_view(ms@)[i as int].matches(tags_view(tags@)));
            return false;
        }
        i += 1;
    }
    true
}

impl GraphConfigOption {
    /// Whether a way with `tags` belongs to this category.
    pub fn check_match(&self, tags: &Tags) -> (r: bool)
        ensures
            r == self@.matches(tags_view(tags@)),
    {
        let excluded = any_matches(&self.excludes, tags);
        assert(self@.excludes == matchers_view(self.excludes@));
        assert(self@.requires == matchers_view(self.requires@));
        if excluded {
            let ghost i = choose|i: int|
                0 <= i < matchers_view(self.excludes@).len() && #[trigger] matchers_view(
                    self.excludes@,
                )[i].matches(tags_view(tags@));
            assert(self@.excludes[i].matches(tags_view(tags@)));
            return false;
        }
        let required = all_match(&self.requires, tags);
        required
    }
}

/// A network definition: an ordered list of categories, where the first one
/// that matches wins.
pub struct GraphConfig {
    pub name: String,
    pub options: Vec<GraphConfigOption>,
}

pub struct ConfigView {
    pub name: Seq<char>,
    pub options: Seq<OptionView>,
}

/// The first of `opts` that matches `tags`, if any.
pub open spec fn first_match_in(opts: Seq<OptionView>, tags: Seq<(Seq<char>, Seq<char>)>) -> Option<OptionView>
    decreases opts.len(),
{
    if opts.len() == 0 {
        None
    } else if opts[0].matches(tags) {
        Some(opts[0])
    } else {
        first_match_in(opts.drop_first(), tags)
    }
}

impl ConfigView {
    /// The category of a way with `tags`: the first option that matches.
    pub open spec fn first_match(self, tags: Seq<(Seq<char>, Seq<char>)>) -> Option<OptionView> {
        first_match_in(self.options, tags)
    }

    /// Whether some option matches `tags`.
    pub open spec fn is_classified(self, tags: Seq<(Seq<char>, Seq<char>)>) -> bool {
        self.first_match(tags) is Some
    }
}

/// The mathematical form of a list of options.
pub open spec fn options_view(os: Seq<GraphConfigOption>) -> Seq<OptionView> {
    os.map_values(|o: GraphConfigOption| o@)
}

impl View for GraphConfig {
    type V = ConfigView;

    open spec fn view(&self) -> ConfigView {
        ConfigView { name: self.name@, options: options_view(self.options@) }
    }
}

/// The mathematical form of an optional category.
pub open spec fn option_view(o: Option<GraphConfigOption>) -> Option<OptionView> {
    match o {
        Some(o) => Some(o@),
        None => None,
    }
}

/// `first_match_in` skips a prefix of options that do not match.
proof fn lemma_first_match_skip(opts: Seq<OptionView>, tags: Seq<(Seq<char>, Seq<char>)>, i: int)
    requires
        0 <= i <= opts.len(),
        forall|j: int| 0 <= j < i ==> !#[trigger] opts[j].matches(tags),
    ensures
        first_match_in(opts, tags) == first_match_in(opts.subrange(i, opts.len() as int), tags),
    decreases i,
{
    if i > 0 {
        lemma_first_match_skip(opts.drop_first(), tags, i - 1);
        assert(opts.drop_first().subrange(i - 1, opts.len() - 1) =~= opts.subrange(i, opts.len() as int));
    } else {
        assert(opts.subrange(0, opts.len() as int) =~= opts);
    }
}

impl GraphConfig {
    /// The first option, in declared order, whose rule matches `tags`.
    pub fn matching_option(&self, tags: &Tags) -> (r: Option<GraphConfigOption>)
        ensures
            option_view(r) == self@.first_match(tags_view(tags@)),
    {
        let mut i: usize = 0;
        while i < self.options.len()
            invariant
                i <= self.options.len(),
                forall|j: int| 0 <= j < i ==> !#[trigger] self@.options[j].matches(tags_view(tags@)),
            decreases self.options.len() - i,
        {
            if self.options[i].check_match(tags) {
                proof {
                    lemma_first_match_skip(self@.options, tags_view(tags@), i as int);
                }
                return Some(self.options[i].clone());
            }
            i += 1;
        }
        proof {
            lemma_first_match_skip(self@.options, tags_view(tags@), i as int);
        }
        None
    }

    /// Whether some option's rule matches `tags`.
    pub fn is_match(&self, tags: &Tags) -> (r: bool)
        ensures
            r == self@.is_classified(tags_view(tags@)),
    {
        let mut i: usize = 0;
        while i < self.options.len()
            invariant
                i <= self.options.len(),
                forall|j: int| 0 <= j < i ==> !#[trigger] self@.options[j].matches(tags_view(tags@)),
            decreases self.options.len() - i,
        {
            if self.options[i].check_match(tags) {
                proof {
                    lemma_first_match_skip(self@.options, tags_view(tags@), i as int);
                }
                return true;
            }
            i += 1;
        }
        proof {
            lemma_first_match_skip(self@.options, tags_view(tags@), i as int);
        }
        false
    }
}

/// The category chosen for a tag set is the earliest option that matches it:
/// every option before it fails to match, so a later option is never preferred,
/// and there is none when no option matches.
pub proof fn lemma_first_match_is_earliest(g: ConfigView, t: Seq<(Seq<char>, Seq<char>)>)
    ensures
        match g.first_match(t) {
            Some(o) => exists|i: int|
                0 <= i < g.options.len() && g.options[i] == o && o.matches(t) && forall|j: int|
                    0 <= j < i ==> !(#[trigger] g.options[j]).matches(t),
            None => forall|i: int| 0 <= i < g.options.len() ==> !(#[trigger] g.options[i]).matches(t),
        },
{
    lemma_first_match_in(g.options, t);
}

proof fn lemma_first_match_in(opts: Seq<OptionView>, t: Seq<(Seq<char>, Seq<char>)>)
    ensures
        match first_match_in(opts, t) {
            Some(o) => exists|i: int|
                0 <= i < opts.len() && opts[i] == o && o.matches(t) && forall|j: int|
                    0 <= j < i ==> !(#[trigger] opts[j]).matches(t),
            None => forall|i: int| 0 <= i < opts.len() ==> !(#[trigger] opts[i]).matches(t),
        },
    decreases opts.len(),
{
    if opts.len() > 0 && !opts[0].matches(t) {
        let rest = opts.drop_first();
        lemma_first_match_in(rest, t);
        match first_match_in(rest, t) {
            Some(o) => {
                let i = choose|i: int|
                    0 <= i < rest.len() && rest[i] == o && o.matches(t) && forall|j: int|
                        0 <= j < i ==> !(#[trigger] rest[j]).matches(t);
                assert forall|j: int| 0 <= j < i + 1 implies !(#[trigger] opts[j]).matches(t) by {
                    if j > 0 {
                        assert(opts[j] == rest[j - 1]);
                    }
                }
                assert(opts[i + 1] == o);
            },
            None => {
                assert forall|i: int| 0 <= i < opts.len() implies !(#[trigger] opts[i]).matches(t) by {
                    if i > 0 {
                        assert(opts[i] == rest[i - 1]);
                    }
                }
            },
        }
    }
}

/// A matcher of kind `Exact(v)` matches a tag set iff some tag has the
/// matcher's key and the value `v`; `InList(vs)` iff some tag has the key and a
/// value in `vs`; `All` iff some tag has the key, whatever its value.
pub proof fn lemma_matcher_kinds(m: MatcherView, t: Seq<(Seq<char>, Seq<char>)>)
    ensures
        m.kind is Exact ==> (m.matches(t) <==> exists|i: int|
            0 <= i < t.len() && (#[trigger] t[i]).0 == m.key && t[i].1 == m.kind->Exact_0),
        m.kind is InList ==> (m.matches(t) <==> exists|i: int|
            0 <= i < t.len() && (#[trigger] t[i]).0 == m.key && m.kind->InList_0.contains(t[i].1)),
        m.kind is All ==> (m.matches(t) <==> exists|i: int| 0 <= i < t.len() && (#[trigger] t[i]).0 == m.key),
{
    if m.matches(t) {
        let i = choose|i: int| 0 <= i < t.len() && #[trigger] m.accepts(t[i].0, t[i].1);
        assert(t[i].0 == m.key);
    }
    if exists|i: int| 0 <= i < t.len() && (#[trigger] t[i]).0 == m.key && m.kind.accepts(t[i].1) {
        let i = choose|i: int| 0 <= i < t.len() && (#[trigger] t[i]).0 == m.key && m.kind.accepts(t[i].1);
        assert(m.accepts(t[i].0, t[i].1));
    }
}

/// An option matches a tag set iff none of its excludes matches it and all of
/// its requires match it.
pub proof fn lemma_option_match(o: OptionView, t: Seq<(Seq<char>, Seq<char>)>)
    ensures
        o.matches(t) <==> (!exists|i: int| 0 <= i < o.excludes.len() && (#[trigger] o.excludes[i]).matches(t))
            && (forall|i: int| 0 <= i < o.requires.len() ==> (#[trigger] o.requires[i]).matches(t)),
{
}

} // verus!
