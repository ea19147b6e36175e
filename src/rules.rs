//! The table of washing rules: which hosts and paths carry tracking cruft, and what to do about it.
use crate::web_url::{copy_string, copy_strings, strings_view, WebUrl, WebUrlView};
use vstd::prelude::*;
use vstd::string::StringExecFns;

verus! {

/// One transformation of a URL.
#[derive(Debug)]
pub enum WashingProgram {
    /// Resolve the URL to the target it redirects to.
    ResolveRedirection,
    /// Drop the query pairs with these names.
    RemoveSomeParams(Vec<String>),
    /// Drop the whole query.
    RemoveAllParams,
}

pub ghost enum ProgramView {
    ResolveRedirection,
    RemoveSomeParams(Seq<Seq<char>>),
    RemoveAllParams,
}

impl View for WashingProgram {
    type V = ProgramView;

    open spec fn view(&self) -> ProgramView {
        match self {
            WashingProgram::ResolveRedirection => ProgramView::ResolveRedirection,
            WashingProgram::RemoveSomeParams(names) => ProgramView::RemoveSomeParams(
                strings_view(names@),
            ),
            WashingProgram::RemoveAllParams => ProgramView::RemoveAllParams,
        }
    }
}

pub open spec fn programs_view(v: Seq<WashingProgram>) -> Seq<ProgramView> {
    v.map_values(|p: WashingProgram| p@)
}

pub open spec fn pattern_view(v: Seq<Option<String>>) -> Seq<Option<Seq<char>>> {
    v.map_values(
        |p: Option<String>|
            match p {
                Some(s) => Some(s@),
                None => None,
            },
    )
}

/// A named rule: the hosts it covers, an optional path shape, and the programs it runs.
pub ghost struct RuleView {
    pub name: Seq<char>,
    pub domains: Seq<Seq<char>>,
    pub path_pattern: Seq<Option<Seq<char>>>,
    pub programs: Seq<ProgramView>,
}

impl RuleView {
    pub open spec fn matches_domain(self, domain: Seq<char>) -> bool {
        self.domains.contains(domain)
    }

    /// An empty pattern matches every path; otherwise each fixed segment of the pattern
    /// must equal the path segment at its position, and wildcards match anything.
    pub open spec fn matches_path(self, segments: Option<Seq<Seq<char>>>) -> bool {
        self.path_pattern.len() == 0 || match segments {
            Some(segs) => forall|i: int|
                0 <= i < self.path_pattern.len() && #[trigger] self.path_pattern[i] is Some ==> i
                    < segs.len() && segs[i] == self.path_pattern[i]->Some_0,
            None => false,
        }
    }

    pub open spec fn applies_to(self, u: WebUrlView) -> bool {
        &&& u.domain is Some
        &&& self.matches_domain(u.domain->Some_0)
        &&& self.matches_path(u.segments)
    }
}

/// Whether rule `i` is the first rule of `rules` that applies to `u`.
pub open spec fn is_first_match(rules: Seq<RuleView>, u: WebUrlView, i: int) -> bool {
    &&& 0 <= i < rules.len()
    &&& rules[i].applies_to(u)
    &&& forall|j: int| 0 <= j < i ==> !#[trigger] rules[j].applies_to(u)
}

/// The index of the first rule in table order that applies to `u`, if any.
pub open spec fn first_match(rules: Seq<RuleView>, u: WebUrlView) -> Option<int> {
    if exists|i: int| is_first_match(rules, u, i) {
        Some(choose|i: int| is_first_match(rules, u, i))
    } else {
        None
    }
}

pub proof fn lemma_first_match_unique(rules: Seq<RuleView>, u: WebUrlView, i: int)
    requires
        is_first_match(rules, u, i),
    ensures
        first_match(rules, u) == Some(i),
{
    let k = choose|k: int| is_first_match(rules, u, k);
    if k < i {
        assert(!rules[k].applies_to(u));
    }
    if i < k {
        assert(!rules[i].applies_to(u));
    }
}

/// A washing rule, as the table holds it.
#[derive(Debug)]
pub struct DirtyUrlRule {
    pub name: String,
    pub domains: Vec<String>,
    pub path_pattern: Vec<Option<String>>,
    pub washing_programs: Vec<WashingProgram>,
}

impl View for DirtyUrlRule {
    type V = RuleView;

    open spec fn view(&self) -> RuleView {
        RuleView {
            name: self.name@,
            domains: strings_view(self.domains@),
            path_pattern: pattern_view(self.path_pattern@),
            programs: programs_view(self.washing_programs@),
        }
    }
}

pub open spec fn rules_view(v: Seq<DirtyUrlRule>) -> Seq<RuleView> {
    v.map_values(|r: DirtyUrlRule| r@)
}

impl WashingProgram {
    /// A program that drops the query pairs named in `values`.
    pub fn remove_some_params(values: &[&str]) -> (r: WashingProgram)
        ensures
            r@ == ProgramView::RemoveSomeParams(names_view(values@)),
    {
        WashingProgram::RemoveSomeParams(strings_of(values))
    }

    pub fn is_resolve_redirection(&self) -> (r: bool)
        ensures
            r == (self@ == ProgramView::ResolveRedirection),
    {
        match self {
            WashingProgram::ResolveRedirection => true,
            _ => false,
        }
    }

    pub fn duplicate(&self) -> (r: WashingProgram)
        ensures
            r@ == self@,
    {
        match self {
            WashingProgram::ResolveRedirection => WashingProgram::ResolveRedirection,
            WashingProgram::RemoveSomeParams(names) => WashingProgram::RemoveSomeParams(
                copy_strings(names),
            ),
            WashingProgram::RemoveAllParams => WashingProgram::RemoveAllParams,
        }
    }
}

impl DirtyUrlRule {
    /// Whether `domain` is, exactly, one of the rule's hosts.
    pub fn matches_domain(&self, domain: &str) -> (r: bool)
        ensures
            r == self@.matches_domain(domain@),
    {
        let d = String::from_str(domain);
        let mut i: usize = 0;
        while i < self.domains.len()
            invariant
                i <= self.domains.len(),
                d@ == domain@,
                forall|j: int| 0 <= j < i ==> self.domains@[j]@ != domain@,
            decreases self.domains.len() - i,
        {
            if self.domains[i] == d {
                proof {
                    assert(self@.domains[i as int] == domain@);
                }
                return true;
            }
            i = i + 1;
        }
        proof {
            if self@.domains.contains(domain@) {
                let j = choose|j: int| 0 <= j < self@.domains.len() && self@.domains[j] == domain@;
                assert(self.domains@[j]@ == domain@);
            }
        }
        false
    }

    /// Whether the path of `url` has the shape of the rule's pattern.
    pub fn matches_path(&self, url: &WebUrl) -> (r: bool)
        ensures
            r == self@.matches_path(url@.segments),
    {
        if self.path_pattern.len() == 0 {
            return true;
        }
        let segments = match &url.segments {
            Some(s) => s,
            None => return false,
        };
        let ghost pat = self@.path_pattern;
        let ghost segs = strings_view(segments@);
        let mut i: usize = 0;
        while i < self.path_pattern.len()
            invariant
                i <= self.path_pattern.len(),
                pat == self@.path_pattern,
                segs == strings_view(segments@),
                url@.segments == Some(segs),
                forall|j: int|
                    0 <= j < i && #[trigger] pat[j] is Some ==> j < segs.len() && segs[j]
                        == pat[j]->Some_0,
            decreases self.path_pattern.len() - i,
        {
            match &self.path_pattern[i] {
                Some(expected) => {
                    proof {
                        assert(pat[i as int] == Some(expected@));
                    }
                    if i >= segments.len() {
                        return false;
                    }
                    if segments[i] != *expected {
                        proof {
                            assert(segs[i as int] != pat[i as int]->Some_0);
                        }
                        return false;
                    }
                },
                None => {},
            }
            i = i + 1;
        }
        true
    }

    pub fn applies_to(&self, url: &WebUrl) -> (r: bool)
        ensures
            r == self@.applies_to(url@),
    {
        match &url.domain {
            Some(d) => self.matches_domain(d.as_str()) && self.matches_path(url),
            None => false,
        }
    }
}

pub open spec fn names_view(values: Seq<&str>) -> Seq<Seq<char>> {
    values.map_values(|s: &str| s@)
}

/// The table that `rule_set` builds, in order.
pub open spec fn default_rules() -> Seq<RuleView> {
    seq![
        RuleView {
            name: "youtu.be"@,
            domains: seq!["youtu.be"@],
            path_pattern: seq![],
            programs: seq![ProgramView::RemoveSomeParams(seq!["si"@])],
        },
        RuleView {
            name: "youtube.com & music.youtube.com"@,
            domains: seq!["youtube.com"@, "www.youtube.com"@, "music.youtube.com"@],
            path_pattern: seq![],
            programs: seq![ProgramView::RemoveSomeParams(seq!["si"@])],
        },
        RuleView {
            name: "twitter.com"@,
            domains: seq!["twitter.com"@, "x.com"@],
            path_pattern: seq![],
            programs: seq![ProgramView::RemoveAllParams],
        },
        RuleView {
            name: "vm.tiktok.com"@,
            domains: seq!["vm.tiktok.com"@],
            path_pattern: seq![],
            programs: seq![ProgramView::ResolveRedirection, ProgramView::RemoveAllParams],
        },
        RuleView {
            name: "on.soundcloud.com"@,
            domains: seq!["on.soundcloud.com"@],
            path_pattern: seq![],
            programs: seq![ProgramView::ResolveRedirection, ProgramView::RemoveAllParams],
        },
    ]
}

fn strings_of(values: &[&str]) -> (r: Vec<String>)
    ensures
        strings_view(r@) == names_view(values@),
{
    let mut names: Vec<String> = Vec::new();
    let mut i: usize = 0;
    while i < values.len()
        invariant
            i <= values.len(),
            strings_view(names@) == names_view(values@.subrange(0, i as int)),
        decreases values.len() - i,
    {
        let ghost prev = names@;
        names.push(String::from_str(values[i]));
        proof {
            assert(strings_view(names@) =~= strings_view(prev).push(values@[i as int]@));
            assert(names_view(values@.subrange(0, i + 1)) =~= names_view(
                values@.subrange(0, i as int),
            ).push(values@[i as int]@));
        }
        i = i + 1;
    }
    proof {
        assert(values@.subrange(0, values@.len() as int) =~= values@);
    }
    names
}

fn host_rule(name: &str, domains: Vec<String>, programs: Vec<WashingProgram>) -> (r: DirtyUrlRule)
    ensures
        r@ == (RuleView {
            name: name@,
            domains: strings_view(domains@),
            path_pattern: seq![],
            programs: programs_view(programs@),
        }),
{
    let r = DirtyUrlRule {
        name: String::from_str(name),
        domains,
        path_pattern: Vec::new(),
        washing_programs: programs,
    };
    assert(pattern_view(r.path_pattern@) =~= seq![]);
    r
}

fn strings1(a: &str) -> (r: Vec<String>)
    ensures
        strings_view(r@) == seq![a@],
{
    let r = vec![String::from_str(a)];
    assert(strings_view(r@) =~= seq![a@]);
    r
}

fn strings2(a: &str, b: &str) -> (r: Vec<String>)
    ensures
        strings_view(r@) == seq![a@, b@],
{
    let r = vec![String::from_str(a), String::from_str(b)];
    assert(strings_view(r@) =~= seq![a@, b@]);
    r
}

fn strings3(a: &str, b: &str, c: &str) -> (r: Vec<String>)
    ensures
        strings_view(r@) == seq![a@, b@, c@],
{
    let r = vec![String::from_str(a), String::from_str(b), String::from_str(c)];
    assert(strings_view(r@) =~= seq![a@, b@, c@]);
    r
}

fn strip_tracking_id() -> (r: Vec<WashingProgram>)
    ensures
        programs_view(r@) == seq![ProgramView::RemoveSomeParams(seq!["si"@])],
{
    let r = vec![WashingProgram::RemoveSomeParams(strings1("si"))];
    assert(programs_view(r@) =~= seq![ProgramView::RemoveSomeParams(seq!["si"@])]);
    r
}

fn resolve_then_strip() -> (r: Vec<WashingProgram>)
    ensures
        programs_view(r@) == seq![ProgramView::ResolveRedirection, ProgramView::RemoveAllParams],
{
    let r = vec![WashingProgram::ResolveRedirection, WashingProgram::RemoveAllParams];
    assert(programs_view(r@) =~= seq![
        ProgramView::ResolveRedirection,
        ProgramView::RemoveAllParams,
    ]);
    r
}

/// Builds the table of washing rules, in the order in which they are tried.
pub fn rule_set() -> (r: Vec<DirtyUrlRule>)
    ensures
        rules_view(r@) == default_rules(),
{
    let youtu_be = host_rule("youtu.be", strings1("youtu.be"), strip_tracking_id());
    let youtube = host_rule(
        "youtube.com & music.youtube.com",
        strings3("youtube.com", "www.youtube.com", "music.youtube.com"),
        strip_tracking_id(),
    );
    let strip_all = vec![WashingProgram::RemoveAllParams];
    assert(programs_view(strip_all@) =~= seq![ProgramView::RemoveAllParams]);
    let twitter = host_rule("twitter.com", strings2("twitter.com", "x.com"), strip_all);
    let tiktok = host_rule("vm.tiktok.com", strings1("vm.tiktok.com"), resolve_then_strip());
    let soundcloud = host_rule(
        "on.soundcloud.com",
        strings1("on.soundcloud.com"),
        resolve_then_strip(),
    );
    let r = vec![youtu_be, youtube, twitter, tiktok, soundcloud];
    proof {
        assert(rules_view(r@) =~= default_rules());
    }
    r
}

/// The index of the first rule of `rules` that applies to `url`.
pub fn find_rule(rules: &Vec<DirtyUrlRule>, url: &WebUrl) -> (r: Option<usize>)
    ensures
        match r {
            Some(i) => first_match(rules_view(rules@), url@) == Some(i as int),
            None => first_match(rules_view(rules@), url@) is None,
        },
{
    let ghost rv = rules_view(rules@);
    let mut i: usize = 0;
    while i < rules.len()
        invariant
            i <= rules.len(),
            rv == rules_view(rules@),
            forall|j: int| 0 <= j < i ==> !#[trigger] rv[j].applies_to(url@),
        decreases rules.len() - i,
    {
        if rules[i].applies_to(url) {
            proof {
                assert(is_first_match(rv, url@, i as int));
                lemma_first_match_unique(rv, url@, i as int);
            }
            return Some(i);
        }
        i = i + 1;
    }
    proof {
        if exists|k: int| is_first_match(rv, url@, k) {
            let k = choose|k: int| is_first_match(rv, url@, k);
            assert(!rv[k].applies_to(url@));
        }
    }
    None
}

} // verus!
