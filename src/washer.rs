//! Washing one URL: cache lookup, rule lookup, and running the rule's programs,
//! pausing whenever a redirect has to be resolved over the network.
use crate::cache::{
    cache_ages, cache_capacity, cache_entries, cache_get, cache_put, new_cache, stored, UrlCache,
};
use crate::config::{
    copy_opt_url, opt_url_view, policy_in, redirect_defaults, ConfigView, RedirectWashPolicy,
    UrlWasherConfig,
};
use crate::redirect::{RedirectRequest, RequestView, WashError};
use crate::rules::{
    default_rules, find_rule, first_match, is_first_match, programs_view, rule_set, rules_view,
    DirtyUrlRule, ProgramView, RuleView, WashingProgram,
};
use crate::web_url::{
    kept_pairs, lacks_names, lemma_dropping_keeps_absent, lemma_removed_names_gone,
    lemma_removing_absent_names, settled, WebUrl, WebUrlView,
};
use vstd::prelude::*;
use vstd::string::StringExecFns;

verus! {

pub ghost enum RunView {
    Done(WebUrlView),
    Failed(WashError),
    Blocked(RequestView, Seq<ProgramView>),
}

/// Runs `progs` in order on `u`: query edits are applied at once; a redirect is skipped
/// under `Ignore`, and otherwise stops the run with the request to make and the programs
/// still to run after it.
pub open spec fn run_programs(
    progs: Seq<ProgramView>,
    u: WebUrlView,
    policy: RedirectWashPolicy,
    mixer: Option<WebUrlView>,
) -> RunView
    decreases progs.len(),
{
    if progs.len() == 0 {
        RunView::Done(u)
    } else {
        let rest = progs.drop_first();
        match progs[0] {
            ProgramView::RemoveAllParams => run_programs(rest, u.without_query(), policy, mixer),
            ProgramView::RemoveSomeParams(names) => run_programs(
                rest,
                u.removing_params(names),
                policy,
                mixer,
            ),
            ProgramView::ResolveRedirection => match policy {
                RedirectWashPolicy::Ignore => run_programs(rest, u, policy, mixer),
                RedirectWashPolicy::Locally => RunView::Blocked(RequestView::Direct(u), rest),
                RedirectWashPolicy::ViaMixer => match mixer {
                    None => RunView::Failed(WashError::MixerNotConfigured),
                    Some(m) => RunView::Blocked(RequestView::ViaMixer(m, u), rest),
                },
            },
        }
    }
}

/// `a` and `b` differ at most in their queries.
pub open spec fn same_but_query(a: WebUrlView, b: WebUrlView) -> bool {
    a.without_query() == b.without_query()
}

/// Rules look only at the host and the path, so URLs that differ only in their query
/// meet the same first rule.
pub proof fn lemma_query_does_not_choose_rule(rules: Seq<RuleView>, u: WebUrlView, w: WebUrlView)
    requires
        same_but_query(u, w),
    ensures
        first_match(rules, u) == first_match(rules, w),
{
    assert(u.domain == w.domain && u.segments == w.segments) by {
        assert(u.without_query().domain == w.without_query().domain);
        assert(u.without_query().segments == w.without_query().segments);
    }
    assert forall|j: int| #![trigger rules[j].applies_to(u)] #![trigger rules[j].applies_to(w)]
        0 <= j < rules.len() implies rules[j].applies_to(u) == rules[j].applies_to(w) by {}
    if first_match(rules, u) is Some {
        let i = first_match(rules, u)->Some_0;
        assert(is_first_match(rules, u, i));
        assert(is_first_match(rules, w, i));
        crate::rules::lemma_first_match_unique(rules, w, i);
    } else if first_match(rules, w) is Some {
        let i = first_match(rules, w)->Some_0;
        assert(is_first_match(rules, w, i));
        assert(is_first_match(rules, u, i));
    }
}

/// Washing `w`, with no cache entry for it, finishes at once with `w` itself.
pub open spec fn washes_to_itself(rules: Seq<RuleView>, cfg: ConfigView, w: WebUrlView) -> bool {
    forall|m: Map<Seq<char>, WebUrlView>|
        !m.contains_key(w.text()) ==> #[trigger] wash_spec(rules, cfg, m, w) == StepView::Finished(
            Ok(Some(w)),
        )
}

/// Running `p` on `w` gives `w` back, with no request made.
pub open spec fn fixes(w: WebUrlView, p: ProgramView, policy: RedirectWashPolicy) -> bool {
    match p {
        ProgramView::RemoveAllParams => w.query is None,
        ProgramView::RemoveSomeParams(names) => settled(w) && lacks_names(w, names),
        ProgramView::ResolveRedirection => policy == RedirectWashPolicy::Ignore,
    }
}

/// A URL that every program of a list fixes comes out of the list unchanged.
pub proof fn lemma_rerun_fixed(
    progs: Seq<ProgramView>,
    w: WebUrlView,
    policy: RedirectWashPolicy,
    mixer: Option<WebUrlView>,
)
    requires
        forall|j: int| 0 <= j < progs.len() ==> fixes(w, #[trigger] progs[j], policy),
    ensures
        run_programs(progs, w, policy, mixer) == RunView::Done(w),
    decreases progs.len(),
{
    if progs.len() > 0 {
        let rest = progs.drop_first();
        assert(fixes(w, progs[0], policy));
        assert forall|j: int| 0 <= j < rest.len() implies fixes(w, #[trigger] rest[j], policy) by {
            assert(rest[j] == progs[j + 1]);
        }
        lemma_rerun_fixed(rest, w, policy, mixer);
        match progs[0] {
            ProgramView::RemoveAllParams => {
                assert(w.without_query() == w);
            },
            ProgramView::RemoveSomeParams(names) => {
                lemma_removing_absent_names(w, names);
            },
            ProgramView::ResolveRedirection => {},
        }
    }
}

enum Run {
    Done(WebUrl),
    Failed(WashError),
    Blocked(RedirectRequest, Vec<WashingProgram>),
}

impl View for Run {
    type V = RunView;

    closed spec fn view(&self) -> RunView {
        match self {
            Run::Done(u) => RunView::Done(u@),
            Run::Failed(e) => RunView::Failed(*e),
            Run::Blocked(req, rest) => RunView::Blocked(req@, programs_view(rest@)),
        }
    }
}

fn copy_programs_from(progs: &Vec<WashingProgram>, start: usize) -> (r: Vec<WashingProgram>)
    requires
        start <= progs.len(),
    ensures
        programs_view(r@) == programs_view(progs@).subrange(start as int, progs@.len() as int),
{
    let mut r: Vec<WashingProgram> = Vec::new();
    let mut i: usize = start;
    while i < progs.len()
        invariant
            start <= i <= progs.len(),
            programs_view(r@) == programs_view(progs@).subrange(start as int, i as int),
        decreases progs.len() - i,
    {
        let ghost prev = r@;
        r.push(progs[i].duplicate());
        proof {
            assert(programs_view(r@) =~= programs_view(prev).push(progs@[i as int]@));
            assert(programs_view(progs@).subrange(start as int, i + 1) =~= programs_view(
                progs@,
            ).subrange(start as int, i as int).push(progs@[i as int]@));
        }
        i = i + 1;
    }
    r
}

fn run(
    progs: &Vec<WashingProgram>,
    url: WebUrl,
    policy: RedirectWashPolicy,
    mixer: &Option<WebUrl>,
) -> (r: Run)
    ensures
        r@ == run_programs(programs_view(progs@), url@, policy, opt_url_view(*mixer)),
        r@ matches RunView::Done(w) ==> forall|j: int|
            0 <= j < progs@.len() ==> fixes(w, #[trigger] programs_view(progs@)[j], policy),
        r@ matches RunView::Done(w) ==> same_but_query(w, url@),
{
    let ghost all = programs_view(progs@);
    let ghost mv = opt_url_view(*mixer);
    let ghost goal = run_programs(all, url@, policy, mv);
    let mut cur = url;
    let mut i: usize = 0;
    assert(all.subrange(0, all.len() as int) =~= all);
    while i < progs.len()
        invariant
            i <= progs.len(),
            all == programs_view(progs@),
            mv == opt_url_view(*mixer),
            goal == run_programs(all, url@, policy, mv),
            goal == run_programs(all.subrange(i as int, all.len() as int), cur@, policy, mv),
            forall|j: int| 0 <= j < i ==> fixes(cur@, #[trigger] all[j], policy),
            same_but_query(cur@, url@),
        decreases progs.len() - i,
    {
        let ghost s = all.subrange(i as int, all.len() as int);
        let ghost prev = cur@;
        proof {
            assert(s.drop_first() =~= all.subrange(i + 1, all.len() as int));
            assert(s[0] == progs@[i as int]@);
        }
        match &progs[i] {
            WashingProgram::RemoveAllParams => {
                cur = cur.without_query();
                proof {
                    assert forall|j: int| 0 <= j <= i implies fixes(cur@, #[trigger] all[j], policy) by {
                        if j < i {
                            assert(fixes(prev, all[j], policy));
                        }
                    }
                }
            },
            WashingProgram::RemoveSomeParams(names) => {
                cur = cur.removing_params(names);
                proof {
                    let n = crate::web_url::strings_view(names@);
                    assert(all[i as int] == ProgramView::RemoveSomeParams(n));
                    lemma_removed_names_gone(prev.pairs(), n);
                    assert forall|j: int| 0 <= j <= i implies fixes(cur@, #[trigger] all[j], policy) by {
                        if j < i {
                            assert(fixes(prev, all[j], policy));
                            match all[j] {
                                ProgramView::RemoveAllParams => {
                                    assert(prev.pairs().len() == 0);
                                    reveal(Seq::filter);
                                    assert(kept_pairs(prev.pairs(), n).len() == 0);
                                },
                                ProgramView::RemoveSomeParams(m) => {
                                    lemma_dropping_keeps_absent(prev.pairs(), n, m);
                                },
                                ProgramView::ResolveRedirection => {},
                            }
                        }
                    }
                }
            },
            WashingProgram::ResolveRedirection => {
                match policy {
                    RedirectWashPolicy::Ignore => {},
                    RedirectWashPolicy::Locally => {
                        let rest = copy_programs_from(progs, i + 1);
                        assert(s[0] == ProgramView::ResolveRedirection);
                        assert(goal == RunView::Blocked(RequestView::Direct(cur@), s.drop_first()));
                        let r = Run::Blocked(RedirectRequest::Direct { target: cur }, rest);
                        assert(r@ == RunView::Blocked(RequestView::Direct(cur@), programs_view(rest@)));
                        return r;
                    },
                    RedirectWashPolicy::ViaMixer => {
                        match mixer {
                            None => {
                                return Run::Failed(WashError::MixerNotConfigured);
                            },
                            Some(m) => {
                                let rest = copy_programs_from(progs, i + 1);
                                assert(s[0] == ProgramView::ResolveRedirection);
                                assert(goal == RunView::Blocked(
                                    RequestView::ViaMixer(m@, cur@),
                                    s.drop_first(),
                                ));
                                let r = Run::Blocked(
                                    RedirectRequest::ViaMixer { mixer: m.duplicate(), target: cur },
                                    rest,
                                );
                                assert(r@ == RunView::Blocked(
                                    RequestView::ViaMixer(m@, cur@),
                                    programs_view(rest@),
                                ));
                                return r;
                            },
                        }
                    },
                }
            },
        }
        proof {
            assert forall|j: int| 0 <= j < i + 1 implies fixes(cur@, #[trigger] all[j], policy) by {
                if j < i {
                    assert(fixes(prev, all[j], policy));
                }
            }
        }
        i = i + 1;
    }
    Run::Done(cur)
}

/// A wash waiting for a redirect to be resolved.
#[derive(Debug)]
pub struct PendingWash {
    key: String,
    remaining: Vec<WashingProgram>,
    policy: RedirectWashPolicy,
    mixer: Option<WebUrl>,
    request: RedirectRequest,
}

pub ghost struct PendingView {
    /// The text of the dirty URL, under which the result will be cached.
    pub key: Seq<char>,
    /// The programs to run on the resolved target.
    pub remaining: Seq<ProgramView>,
    pub policy: RedirectWashPolicy,
    pub mixer: Option<WebUrlView>,
    pub request: RequestView,
}

impl View for PendingWash {
    type V = PendingView;

    closed spec fn view(&self) -> PendingView {
        PendingView {
            key: self.key@,
            remaining: programs_view(self.remaining@),
            policy: self.policy,
            mixer: opt_url_view(self.mixer),
            request: self.request@,
        }
    }
}

impl PendingWash {
    /// The request whose answer the wash waits for.
    pub fn request(&self) -> (r: &RedirectRequest)
        ensures
            r@ == self@.request,
    {
        &self.request
    }
}

/// One step of a wash: either it is over, or it waits for a redirect.
#[derive(Debug)]
pub enum WashStep {
    /// The wash is over: the washed URL, `None` where no rule applies, or the failure.
    Finished(Result<Option<WebUrl>, WashError>),
    /// The wash waits for the answer to the pending request.
    Resolve(PendingWash),
}

pub ghost enum StepView {
    Finished(Result<Option<WebUrlView>, WashError>),
    Resolve(PendingView),
}

pub open spec fn outcome_view(o: Result<Option<WebUrl>, WashError>) -> Result<Option<WebUrlView>, WashError> {
    match o {
        Ok(Some(u)) => Ok(Some(u@)),
        Ok(None) => Ok(None),
        Err(e) => Err(e),
    }
}

impl View for WashStep {
    type V = StepView;

    open spec fn view(&self) -> StepView {
        match self {
            WashStep::Finished(o) => StepView::Finished(outcome_view(*o)),
            WashStep::Resolve(p) => StepView::Resolve(p@),
        }
    }
}

/// The step that a run of programs comes to, for the dirty URL whose text is `key`.
pub open spec fn step_of(
    key: Seq<char>,
    run: RunView,
    policy: RedirectWashPolicy,
    mixer: Option<WebUrlView>,
) -> StepView {
    match run {
        RunView::Done(w) => StepView::Finished(Ok(Some(w))),
        RunView::Failed(e) => StepView::Finished(Err(e)),
        RunView::Blocked(req, rest) => StepView::Resolve(
            PendingView { key, remaining: rest, policy, mixer, request: req },
        ),
    }
}

/// The first step of washing `u`: anything but http(s) is no match; a cached URL gives
/// its cached result; otherwise the first rule that applies is run, and no rule is no match.
pub open spec fn wash_spec(
    rules: Seq<RuleView>,
    cfg: ConfigView,
    cache: Map<Seq<char>, WebUrlView>,
    u: WebUrlView,
) -> StepView {
    if !u.is_web() {
        StepView::Finished(Ok(None))
    } else if cache.contains_key(u.text()) {
        StepView::Finished(Ok(Some(cache[u.text()])))
    } else {
        match first_match(rules, u) {
            None => StepView::Finished(Ok(None)),
            Some(i) => {
                let policy = policy_in(cfg.policies, rules[i].name);
                step_of(u.text(), run_programs(rules[i].programs, u, policy, cfg.mixer), policy, cfg.mixer)
            },
        }
    }
}

/// The step after the pending redirect resolved to `target`, or failed.
pub open spec fn resume_spec(p: PendingView, target: Result<WebUrlView, WashError>) -> StepView {
    match target {
        Err(e) => StepView::Finished(Err(e)),
        Ok(t) => step_of(p.key, run_programs(p.remaining, t, p.policy, p.mixer), p.policy, p.mixer),
    }
}

/// How the cache changes with a step for `key`: a washed URL is stored; nothing else is.
pub open spec fn cache_after(
    before: Map<Seq<char>, WebUrlView>,
    after: Map<Seq<char>, WebUrlView>,
    key: Seq<char>,
    step: StepView,
) -> bool {
    match step {
        StepView::Finished(Ok(Some(w))) => stored(before, after, key, w),
        _ => after == before,
    }
}

/// Once a wash of `u` has ended with a washed URL, and the cache changed as `wash` and
/// `resume` change it, washing `u` again finishes at once with the same URL: it is
/// served from the cache, and no request is made.
pub proof fn law_second_wash_is_served_from_cache(
    rules: Seq<RuleView>,
    cfg: ConfigView,
    before: Map<Seq<char>, WebUrlView>,
    after: Map<Seq<char>, WebUrlView>,
    u: WebUrlView,
    first: StepView,
)
    requires
        u.is_web(),
        first matches StepView::Finished(Ok(Some(_))),
        cache_after(before, after, u.text(), first),
    ensures
        wash_spec(rules, cfg, after, u) == first,
{
}

/// From `m0`, `a0` to `m1`, `a1`: each entry other than `key` aged by one at most, and
/// each that was younger than `cap - 1` stayed, with its value.
pub open spec fn aged_by_one(
    m0: Map<Seq<char>, WebUrlView>,
    a0: Map<Seq<char>, nat>,
    m1: Map<Seq<char>, WebUrlView>,
    a1: Map<Seq<char>, nat>,
    key: Seq<char>,
    cap: nat,
) -> bool {
    forall|x: Seq<char>|
        x != key && #[trigger] m0.contains_key(x) && a0[x] + 1 < cap ==> m1.contains_key(x)
            && m1[x] == m0[x] && a1[x] <= a0[x] + 1
}

/// Step `i` of a run washed a URL other than `k`, and changed the cache as a wash does.
pub open spec fn washed_other(
    caches: Seq<Map<Seq<char>, WebUrlView>>,
    ages: Seq<Map<Seq<char>, nat>>,
    keys: Seq<Seq<char>>,
    cap: nat,
    k: Seq<char>,
    i: int,
) -> bool {
    &&& keys[i] != k
    &&& aged_by_one(caches[i], ages[i], caches[i + 1], ages[i + 1], keys[i], cap)
}

/// Once a wash of `u` has stored `w` (as the most recently used entry), `u` stays cached
/// with `w` through fewer than `cap` washes or resumes of other URLs, as those change the
/// cache; washing `u` then finishes at once with `w`, and no request is made.
pub proof fn law_cached_through_other_washes(
    rules: Seq<RuleView>,
    cfg: ConfigView,
    u: WebUrlView,
    w: WebUrlView,
    caches: Seq<Map<Seq<char>, WebUrlView>>,
    ages: Seq<Map<Seq<char>, nat>>,
    keys: Seq<Seq<char>>,
    cap: nat,
)
    requires
        u.is_web(),
        caches.len() == keys.len() + 1,
        ages.len() == keys.len() + 1,
        keys.len() < cap,
        caches[0].contains_key(u.text()),
        caches[0][u.text()] == w,
        ages[0][u.text()] == 0,
        forall|i: int|
            0 <= i < keys.len() ==> #[trigger] washed_other(caches, ages, keys, cap, u.text(), i),
    ensures
        wash_spec(rules, cfg, caches.last(), u) == StepView::Finished(Ok(Some(w))),
{
    lemma_still_cached(u.text(), w, caches, ages, keys, cap, keys.len() as int);
}

proof fn lemma_still_cached(
    k: Seq<char>,
    w: WebUrlView,
    caches: Seq<Map<Seq<char>, WebUrlView>>,
    ages: Seq<Map<Seq<char>, nat>>,
    keys: Seq<Seq<char>>,
    cap: nat,
    j: int,
)
    requires
        caches.len() == keys.len() + 1,
        ages.len() == keys.len() + 1,
        0 <= j <= keys.len() < cap,
        caches[0].contains_key(k),
        caches[0][k] == w,
        ages[0][k] == 0,
        forall|i: int|
            0 <= i < keys.len() ==> #[trigger] washed_other(caches, ages, keys, cap, k, i),
    ensures
        caches[j].contains_key(k),
        caches[j][k] == w,
        ages[j][k] <= j,
    decreases j,
{
    if j > 0 {
        lemma_still_cached(k, w, caches, ages, keys, cap, j - 1);
        assert(washed_other(caches, ages, keys, cap, k, j - 1));
    }
}

pub const CACHE_CAPACITY: usize = 1024;

/// Washes URLs by the rule table, remembering recent results.
pub struct UrlWasher {
    cache: UrlCache,
    rules: Vec<DirtyUrlRule>,
    config: UrlWasherConfig,
}

impl UrlWasher {
    pub closed spec fn rules_spec(&self) -> Seq<RuleView> {
        rules_view(self.rules@)
    }

    pub closed spec fn config_spec(&self) -> ConfigView {
        self.config@
    }

    pub closed spec fn cache_spec(&self) -> Map<Seq<char>, WebUrlView> {
        cache_entries(self.cache)
    }

    /// How many cache entries were used more recently than each key.
    pub closed spec fn ages_spec(&self) -> Map<Seq<char>, nat> {
        cache_ages(self.cache)
    }

    pub closed spec fn capacity_spec(&self) -> nat {
        cache_capacity(self.cache)
    }

    /// A washer over the rule table, with `config` and an empty cache.
    pub fn new(config: UrlWasherConfig) -> (r: UrlWasher)
        requires
            config@.wf(),
        ensures
            r.rules_spec() == default_rules(),
            r.config_spec() == config@,
            r.cache_spec().dom() == Set::<Seq<char>>::empty(),
            r.capacity_spec() == CACHE_CAPACITY,
    {
        UrlWasher { cache: new_cache(CACHE_CAPACITY), rules: rule_set(), config }
    }

    /// Replaces the configuration; the cache is kept.
    pub fn set_config(&mut self, config: UrlWasherConfig)
        requires
            config@.wf(),
        ensures
            final(self).config_spec() == config@,
            final(self).rules_spec() == old(self).rules_spec(),
            final(self).cache_spec() == old(self).cache_spec(),
    {
        self.config = config;
    }

    pub fn config(&self) -> (r: &UrlWasherConfig)
        ensures
            r@ == self.config_spec(),
    {
        &self.config
    }

    fn finish(
        &mut self,
        key: String,
        outcome: Run,
        policy: RedirectWashPolicy,
        mixer: Option<WebUrl>,
    ) -> (r: WashStep)
        ensures
            r@ == step_of(key@, outcome@, policy, opt_url_view(mixer)),
            cache_after(old(self).cache_spec(), final(self).cache_spec(), key@, r@),
            final(self).rules_spec() == old(self).rules_spec(),
            final(self).config_spec() == old(self).config_spec(),
            final(self).capacity_spec() == old(self).capacity_spec(),
            aged_by_one(
                old(self).cache_spec(),
                old(self).ages_spec(),
                final(self).cache_spec(),
                final(self).ages_spec(),
                key@,
                old(self).capacity_spec(),
            ),
            r@ matches StepView::Finished(Ok(Some(_))) ==> final(self).ages_spec()[key@] == 0,
    {
        match outcome {
            Run::Done(w) => {
                cache_put(&mut self.cache, key, w.duplicate());
                WashStep::Finished(Ok(Some(w)))
            },
            Run::Failed(e) => WashStep::Finished(Err(e)),
            Run::Blocked(request, remaining) => WashStep::Resolve(
                PendingWash { key, remaining, policy, mixer, request },
            ),
        }
    }

    /// Starts washing `url`. The result is final unless a redirect has to be resolved;
    /// then `resume` takes the answer.
    pub fn wash(&mut self, url: &WebUrl) -> (r: WashStep)
        ensures
            r@ == wash_spec(old(self).rules_spec(), old(self).config_spec(), old(self).cache_spec(), url@),
            cache_after(old(self).cache_spec(), final(self).cache_spec(), url@.text(), r@),
            final(self).rules_spec() == old(self).rules_spec(),
            final(self).config_spec() == old(self).config_spec(),
            final(self).capacity_spec() == old(self).capacity_spec(),
            aged_by_one(
                old(self).cache_spec(),
                old(self).ages_spec(),
                final(self).cache_spec(),
                final(self).ages_spec(),
                url@.text(),
                old(self).capacity_spec(),
            ),
            r@ matches StepView::Finished(Ok(Some(_))) ==> final(self).ages_spec()[url@.text()] == 0,
            !old(self).cache_spec().contains_key(url@.text()) ==> (r@ matches StepView::Finished(
                Ok(Some(w)),
            ) ==> washes_to_itself(old(self).rules_spec(), old(self).config_spec(), w)),
    {
        if !is_web(url) {
            return WashStep::Finished(Ok(None));
        }
        let key = url.text();
        match cache_get(&mut self.cache, &key) {
            Some(w) => {
                return WashStep::Finished(Ok(Some(w)));
            },
            None => {},
        }
        match find_rule(&self.rules, url) {
            None => WashStep::Finished(Ok(None)),
            Some(i) => {
                let rule = &self.rules[i];
                proof {
                    assert(self.rules_spec()[i as int] == rule@);
                }
                let policy = self.config.policy_for(&rule.name);
                let mixer = copy_opt_url(&self.config.mixer_instance);
                let outcome = run(&rule.washing_programs, url.duplicate(), policy, &mixer);
                proof {
                    let rules = self.rules_spec();
                    let cfg = self.config_spec();
                    if let RunView::Done(w) = outcome@ {
                        lemma_query_does_not_choose_rule(rules, url@, w);
                        assert(w.is_web()) by {
                            assert(w.without_query().scheme == url@.without_query().scheme);
                        }
                        lemma_rerun_fixed(rules[i as int].programs, w, policy, cfg.mixer);
                        assert forall|m: Map<Seq<char>, WebUrlView>|
                            !m.contains_key(w.text()) implies #[trigger] wash_spec(rules, cfg, m, w)
                            == StepView::Finished(Ok(Some(w))) by {}
                    }
                }
                self.finish(key, outcome, policy, mixer)
            },
        }
    }

    /// Goes on with a wash that waited for a redirect, given where the redirect led
    /// or why resolving it failed.
    pub fn resume(&mut self, pending: PendingWash, target: Result<WebUrl, WashError>) -> (r: WashStep)
        ensures
            r@ == resume_spec(pending@, match target { Ok(t) => Ok(t@), Err(e) => Err(e) }),
            cache_after(old(self).cache_spec(), final(self).cache_spec(), pending@.key, r@),
            final(self).rules_spec() == old(self).rules_spec(),
            final(self).config_spec() == old(self).config_spec(),
            final(self).capacity_spec() == old(self).capacity_spec(),
            aged_by_one(
                old(self).cache_spec(),
                old(self).ages_spec(),
                final(self).cache_spec(),
                final(self).ages_spec(),
                pending@.key,
                old(self).capacity_spec(),
            ),
            r@ matches StepView::Finished(Ok(Some(_))) ==> final(self).ages_spec()[pending@.key] == 0,
    {
        let PendingWash { key, remaining, policy, mixer, request: _ } = pending;
        match target {
            Err(e) => WashStep::Finished(Err(e)),
            Ok(t) => {
                let outcome = run(&remaining, t, policy, &mixer);
                self.finish(key, outcome, policy, mixer)
            },
        }
    }
}

impl Default for UrlWasher {
    fn default() -> (r: UrlWasher)
        ensures
            r.rules_spec() == default_rules(),
            r.config_spec().mixer is None,
            r.config_spec().policies == redirect_defaults(default_rules()),
            r.cache_spec().dom() == Set::<Seq<char>>::empty(),
    {
        UrlWasher::new(UrlWasherConfig::new())
    }
}

/// Whether the scheme of `url` is `http` or `https`.
pub fn is_web(url: &WebUrl) -> (r: bool)
    ensures
        r == url@.is_web(),
{
    url.scheme == String::from_str("http") || url.scheme == String::from_str("https")
}

} // verus!
