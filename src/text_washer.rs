//! Washing free text: every whitespace-separated token that is an http(s) URL is
//! washed, and the text is put back together with its separators where they were.
use crate::rules::{first_match, RuleView};
use crate::config::{ConfigView, UrlWasherConfig};
use crate::redirect::{target_view, RedirectRequest, WashError};
use crate::washer::{
    cache_after, outcome_view, resume_spec, wash_spec, PendingView, PendingWash, StepView, UrlWasher, WashStep,
};
use crate::web_url::{parsed_url, strings_view, WebUrl, WebUrlView};
use vstd::prelude::*;
use vstd::string::StringExecFns;

verus! {

/// Unicode's White_Space characters, which `char::is_whitespace` tests for.
pub open spec fn is_separator(c: char) -> bool {
    let n = c as u32;
    (0x9 <= n <= 0xd) || n == 0x20 || n == 0x85 || n == 0xa0 || n == 0x1680 || (0x2000 <= n
        <= 0x200a) || n == 0x2028 || n == 0x2029 || n == 0x202f || n == 0x205f || n == 0x3000
}

pub fn is_separator_char(c: char) -> (r: bool)
    ensures
        r == is_separator(c),
{
    let n = c as u32;
    (0x9 <= n && n <= 0xd) || n == 0x20 || n == 0x85 || n == 0xa0 || n == 0x1680 || (0x2000 <= n
        && n <= 0x200a) || n == 0x2028 || n == 0x2029 || n == 0x202f || n == 0x205f || n == 0x3000
}

/// The tokens of `t` and the separators between them: a separator ends one token and
/// starts the next, so there is always one token more than separators.
pub open spec fn split_spec(t: Seq<char>) -> (Seq<Seq<char>>, Seq<char>)
    decreases t.len(),
{
    if t.len() == 0 {
        (seq![Seq::empty()], Seq::empty())
    } else {
        let (toks, seps) = split_spec(t.drop_last());
        let c = t.last();
        if is_separator(c) {
            (toks.push(Seq::empty()), seps.push(c))
        } else {
            (toks.update(toks.len() - 1, toks.last().push(c)), seps)
        }
    }
}

/// The tokens with `seps[i]` put between token `i` and token `i + 1`.
pub open spec fn join_spec(toks: Seq<Seq<char>>, seps: Seq<char>) -> Seq<char>
    decreases toks.len(),
{
    if toks.len() == 0 {
        Seq::empty()
    } else if toks.len() == 1 {
        toks[0]
    } else {
        join_spec(toks.drop_last(), seps) + seq![seps[toks.len() - 2]] + toks.last()
    }
}

pub proof fn lemma_split_len(t: Seq<char>)
    ensures
        split_spec(t).0.len() == split_spec(t).1.len() + 1,
    decreases t.len(),
{
    if t.len() > 0 {
        lemma_split_len(t.drop_last());
    }
}

proof fn lemma_join_extra_seps(toks: Seq<Seq<char>>, seps: Seq<char>, c: char)
    requires
        toks.len() <= seps.len() + 1,
    ensures
        join_spec(toks, seps.push(c)) == join_spec(toks, seps),
    decreases toks.len(),
{
    if toks.len() > 1 {
        lemma_join_extra_seps(toks.drop_last(), seps, c);
    }
}

/// Putting the tokens of a text back together with its separators gives the text again,
/// character for character.
pub proof fn lemma_join_split(t: Seq<char>)
    ensures
        join_spec(split_spec(t).0, split_spec(t).1) == t,
    decreases t.len(),
{
    if t.len() > 0 {
        let p = t.drop_last();
        lemma_join_split(p);
        lemma_split_len(p);
        let (toks, seps) = split_spec(p);
        let c = t.last();
        if is_separator(c) {
            lemma_join_extra_seps(toks, seps, c);
            let nt = toks.push(Seq::empty());
            assert(nt.drop_last() =~= toks);
            assert(join_spec(nt, seps.push(c)) =~= join_spec(toks, seps.push(c)) + seq![c]);
        } else {
            let nt = toks.update(toks.len() - 1, toks.last().push(c));
            if toks.len() == 1 {
                assert(join_spec(nt, seps) =~= p.push(c));
            } else {
                assert(nt.drop_last() =~= toks.drop_last());
                assert(join_spec(nt, seps) =~= join_spec(toks, seps).push(c));
            }
        }
        assert(p.push(c) =~= t);
    }
}

/// A finished wash of `text` joins its tokens with the separators of `text`, in order;
/// so where no token changed, it gives `text` back, whitespace included.
pub proof fn law_washed_text_keeps_separators(text: Seq<char>, job: TextWashView)
    requires
        job.wf(),
        job.is_done(),
        job.tokens == split_spec(text).0,
        job.separators == split_spec(text).1,
    ensures
        (forall|i: int| 0 <= i < job.washed.len() ==> job.washed[i] == job.tokens[i])
            ==> join_spec(job.washed, job.separators) == text,
{
    if forall|i: int| 0 <= i < job.washed.len() ==> job.washed[i] == job.tokens[i] {
        assert(job.washed =~= job.tokens);
        lemma_join_split(text);
    }
}

/// Relies on `str::chars`: the characters of `s`, in order.
#[verifier::external_body]
fn chars_of(s: &str) -> (r: Vec<char>)
    ensures
        r@ == s@,
{
    s.chars().collect()
}

/// Relies on `String::push`: appends `c`.
#[verifier::external_body]
fn push_char(s: &mut String, c: char)
    ensures
        final(s)@ == old(s)@.push(c),
{
    s.push(c)
}

/// Splits `text` into its tokens and the separators between them.
pub fn split_text(text: &str) -> (r: (Vec<String>, Vec<char>))
    ensures
        strings_view(r.0@) == split_spec(text@).0,
        r.1@ == split_spec(text@).1,
{
    let chars = chars_of(text);
    let mut done: Vec<String> = Vec::new();
    let mut current = String::new();
    let mut seps: Vec<char> = Vec::new();
    let mut i: usize = 0;
    while i < chars.len()
        invariant
            i <= chars.len(),
            chars@ == text@,
            strings_view(done@).push(current@) == split_spec(text@.subrange(0, i as int)).0,
            seps@ == split_spec(text@.subrange(0, i as int)).1,
        decreases chars.len() - i,
    {
        let c = chars[i];
        let ghost before = strings_view(done@);
        let ghost cur = current@;
        proof {
            let s = text@.subrange(0, i + 1);
            assert(s.drop_last() =~= text@.subrange(0, i as int));
            assert(s.last() == c);
        }
        if is_separator_char(c) {
            done.push(current);
            current = String::new();
            seps.push(c);
            proof {
                assert(strings_view(done@) =~= before.push(cur));
            }
        } else {
            push_char(&mut current, c);
            proof {
                assert(strings_view(done@).push(current@) =~= before.push(cur).update(
                    before.len() as int,
                    cur.push(c),
                ));
            }
        }
        i = i + 1;
    }
    done.push(current);
    proof {
        assert(text@.subrange(0, chars@.len() as int) =~= text@);
    }
    (done, seps)
}


/// Puts `toks` back together with `seps` between them.
pub fn join_text(toks: &Vec<String>, seps: &Vec<char>) -> (r: String)
    requires
        toks.len() <= seps.len() + 1,
    ensures
        r@ == join_spec(strings_view(toks@), seps@),
{
    let mut r = String::new();
    let ghost ts = strings_view(toks@);
    let mut i: usize = 0;
    while i < toks.len()
        invariant
            i <= toks.len() <= seps.len() + 1,
            ts == strings_view(toks@),
            r@ == join_spec(ts.subrange(0, i as int), seps@),
        decreases toks.len() - i,
    {
        let ghost prev = r@;
        if i > 0 {
            push_char(&mut r, seps[i - 1]);
        }
        r.append(toks[i].as_str());
        proof {
            let s = ts.subrange(0, i + 1);
            assert(s.drop_last() =~= ts.subrange(0, i as int));
            assert(s.last() == toks@[i as int]@);
            if i == 0 {
                assert(r@ =~= s[0]);
            } else {
                assert(r@ =~= prev + seq![seps@[i - 1]] + s.last());
            }
        }
        i = i + 1;
    }
    proof {
        assert(ts.subrange(0, toks@.len() as int) =~= ts);
    }
    r
}

/// Whether `t` starts with `http://` or `https://`.
pub open spec fn web_prefixed(t: Seq<char>) -> bool {
    ||| (t.len() >= 7 && t.subrange(0, 7) == seq!['h', 't', 't', 'p', ':', '/', '/'])
    ||| (t.len() >= 8 && t.subrange(0, 8) == seq!['h', 't', 't', 'p', 's', ':', '/', '/'])
}

fn has_prefix(t: &Vec<char>, p: &Vec<char>) -> (r: bool)
    ensures
        r == (t@.len() >= p@.len() && t@.subrange(0, p@.len() as int) == p@),
{
    if t.len() < p.len() {
        return false;
    }
    let mut i: usize = 0;
    while i < p.len()
        invariant
            i <= p.len() <= t.len(),
            forall|j: int| 0 <= j < i ==> t@[j] == p@[j],
        decreases p.len() - i,
    {
        if t[i] != p[i] {
            proof {
                assert(t@.subrange(0, p@.len() as int)[i as int] != p@[i as int]);
            }
            return false;
        }
        i = i + 1;
    }
    proof {
        assert(t@.subrange(0, p@.len() as int) =~= p@);
    }
    true
}

/// The URL that `token` stands for, where it starts with `http://` or `https://` and
/// parses as a URL.
pub fn url_token(token: &str) -> (r: Option<WebUrl>)
    ensures
        match r {
            Some(u) => web_prefixed(token@) && parsed_url(token@) == Some(u@),
            None => !web_prefixed(token@) || parsed_url(token@) is None,
        },
{
    let t = chars_of(token);
    let http = vec!['h', 't', 't', 'p', ':', '/', '/'];
    let https = vec!['h', 't', 't', 'p', 's', ':', '/', '/'];
    if !has_prefix(&t, &http) && !has_prefix(&t, &https) {
        return None;
    }
    WebUrl::parse(token)
}

/// Whether `t` is a token that gets washed: it starts with `http://` or `https://`
/// and parses as a URL.
pub open spec fn url_candidate(t: Seq<char>) -> bool {
    web_prefixed(t) && parsed_url(t) is Some
}

/// What a token becomes: the washed URL's text where washing gave one, else the token.
pub open spec fn substitute(token: Seq<char>, outcome: Result<Option<WebUrlView>, WashError>) -> Seq<char> {
    match outcome {
        Ok(Some(w)) => w.text(),
        _ => token,
    }
}

/// A URL that no rule applies to, and that the cache does not hold, is no match; and a
/// token whose wash is no match stays as it was, character for character.
pub proof fn law_unmatched_url_is_left_alone(
    rules: Seq<RuleView>,
    cfg: ConfigView,
    cache: Map<Seq<char>, WebUrlView>,
    u: WebUrlView,
    token: Seq<char>,
)
    requires
        first_match(rules, u) is None,
        !cache.contains_key(u.text()),
    ensures
        wash_spec(rules, cfg, cache, u) == StepView::Finished(Ok(None)),
        substitute(token, Ok(None)) == token,
{
}

fn substitute_token(token: String, outcome: Result<Option<WebUrl>, WashError>) -> (r: String)
    ensures
        r@ == substitute(token@, outcome_view(outcome)),
{
    match outcome {
        Ok(Some(w)) => w.text(),
        _ => token,
    }
}

/// The washer's state when the wash of one token began.
pub ghost struct WashStart {
    pub rules: Seq<RuleView>,
    pub cfg: ConfigView,
    pub cache: Map<Seq<char>, WebUrlView>,
    pub url: WebUrlView,
}

impl WashStart {
    /// The first step of that wash.
    pub open spec fn first_step(self) -> StepView {
        wash_spec(self.rules, self.cfg, self.cache, self.url)
    }
}

pub ghost struct TextWashView {
    pub tokens: Seq<Seq<char>>,
    pub separators: Seq<char>,
    /// What the tokens washed so far became.
    pub washed: Seq<Seq<char>>,
    /// What washing gave for each of those tokens; `Ok(None)` for a token that is not
    /// an http(s) URL.
    pub outcomes: Seq<Result<Option<WebUrlView>, WashError>>,
    /// For each of those tokens, the washer's state when its wash began (for a token
    /// that is not a URL, only the cache is meaningful).
    pub starts: Seq<WashStart>,
    /// For each of those tokens, the cache that its wash left.
    pub ends: Seq<Map<Seq<char>, WebUrlView>>,
    /// The wash of the next token, where it waits for a redirect.
    pub pending: Option<PendingView>,
    /// The washer's state when the waiting wash began.
    pub pending_start: WashStart,
}

impl TextWashView {
    pub open spec fn wf(self) -> bool {
        &&& self.tokens.len() == self.separators.len() + 1
        &&& self.washed.len() <= self.tokens.len()
        &&& self.outcomes.len() == self.washed.len()
        &&& self.starts.len() == self.washed.len()
        &&& self.ends.len() == self.washed.len()
        &&& forall|i: int|
            0 <= i < self.washed.len() && !#[trigger] url_candidate(self.tokens[i]) ==> self.ends[i]
                == self.starts[i].cache
        &&& forall|i: int|
            0 <= i < self.washed.len() && #[trigger] url_candidate(self.tokens[i])
                && self.starts[i].first_step() is Finished ==> cache_after(
                self.starts[i].cache,
                self.ends[i],
                self.starts[i].url.text(),
                self.starts[i].first_step(),
            )
        &&& forall|i: int|
            0 <= i < self.washed.len() ==> #[trigger] self.washed[i] == substitute(
                self.tokens[i],
                self.outcomes[i],
            )
        &&& forall|i: int|
            0 <= i < self.washed.len() && !#[trigger] url_candidate(self.tokens[i]) ==> self.outcomes[i]
                == Ok::<Option<WebUrlView>, WashError>(None)
        &&& forall|i: int|
            0 <= i < self.washed.len() && #[trigger] url_candidate(self.tokens[i]) ==> {
                &&& Some(self.starts[i].url) == parsed_url(self.tokens[i])
                &&& self.starts[i].first_step() matches StepView::Finished(o) ==> self.outcomes[i]
                    == o
            }
        &&& self.pending is Some ==> {
            &&& self.washed.len() < self.tokens.len()
            &&& url_candidate(self.tokens[self.washed.len() as int])
            &&& Some(self.pending_start.url) == parsed_url(self.tokens[self.washed.len() as int])
            &&& self.pending_start.first_step() is Resolve
            &&& self.pending->Some_0.key == self.pending_start.url.text()
        }
    }

    pub open spec fn is_done(self) -> bool {
        self.pending is None && self.washed.len() == self.tokens.len()
    }

    /// The washes of tokens `from` and on ran one after another on the washer's cache:
    /// token `from` began with `m`, and each later token, the waiting one included,
    /// with the cache that the token before it left.
    pub open spec fn threaded(self, from: int, m: Map<Seq<char>, WebUrlView>) -> bool {
        &&& forall|i: int|
            from <= i < self.washed.len() ==> #[trigger] self.starts[i].cache == if i == from {
                m
            } else {
                self.ends[i - 1]
            }
        &&& self.pending is Some && from <= self.washed.len() ==> self.pending_start.cache == if self.washed.len()
            == from {
            m
        } else {
            self.ends[self.washed.len() - 1]
        }
    }

    /// The cache after the washes of tokens `from` and on, where token `from` began with `m`.
    pub open spec fn left_cache(self, from: int, m: Map<Seq<char>, WebUrlView>) -> Map<
        Seq<char>,
        WebUrlView,
    > {
        if self.pending is Some {
            self.pending_start.cache
        } else if self.washed.len() == from {
            m
        } else {
            self.ends[self.washed.len() - 1]
        }
    }

    /// The tokens from `from` on that are URLs began their wash with `rules` and `cfg`,
    /// and so did the waiting wash, if any.
    pub open spec fn started_with(self, from: int, rules: Seq<RuleView>, cfg: ConfigView) -> bool {
        &&& forall|i: int|
            from <= i < self.washed.len() && #[trigger] url_candidate(self.tokens[i])
                ==> self.starts[i].rules == rules && self.starts[i].cfg == cfg
        &&& self.pending is Some && from <= self.washed.len() ==> self.pending_start.rules == rules
            && self.pending_start.cfg == cfg
    }
}

/// In a text being washed, a washed token stays exactly as it was when it is not an
/// http(s) URL, or when no rule applies to its URL and the cache did not hold that URL
/// when its wash began.
pub proof fn law_unmatched_tokens_are_kept(job: TextWashView, i: int)
    requires
        job.wf(),
        0 <= i < job.washed.len(),
        !url_candidate(job.tokens[i]) || (first_match(job.starts[i].rules, job.starts[i].url) is None
            && !job.starts[i].cache.contains_key(job.starts[i].url.text())),
    ensures
        job.washed[i] == job.tokens[i],
{
    if url_candidate(job.tokens[i]) {
        assert(job.starts[i].first_step() == StepView::Finished(Ok(None)));
    }
}

/// A text being washed, token by token.
pub struct TextWash {
    tokens: Vec<String>,
    separators: Vec<char>,
    washed: Vec<String>,
    outcomes: Ghost<Seq<Result<Option<WebUrlView>, WashError>>>,
    starts: Ghost<Seq<WashStart>>,
    ends: Ghost<Seq<Map<Seq<char>, WebUrlView>>>,
    pending: Option<PendingWash>,
    pending_start: Ghost<WashStart>,
}

impl View for TextWash {
    type V = TextWashView;

    closed spec fn view(&self) -> TextWashView {
        TextWashView {
            tokens: strings_view(self.tokens@),
            separators: self.separators@,
            washed: strings_view(self.washed@),
            outcomes: self.outcomes@,
            starts: self.starts@,
            ends: self.ends@,
            pending: match self.pending {
                Some(p) => Some(p@),
                None => None,
            },
            pending_start: self.pending_start@,
        }
    }
}

impl TextWash {
    /// The request the wash waits for, if it waits.
    pub fn request(&self) -> (r: Option<&RedirectRequest>)
        ensures
            r is Some == self@.pending is Some,
            r is Some ==> r->Some_0@ == self@.pending->Some_0.request,
    {
        match &self.pending {
            Some(p) => Some(p.request()),
            None => None,
        }
    }

    pub fn is_done(&self) -> (r: bool)
        requires
            self@.wf(),
        ensures
            r == self@.is_done(),
    {
        self.pending.is_none() && self.washed.len() == self.tokens.len()
    }

    /// The washed text: the washed tokens with the input's separators between them.
    pub fn text(&self) -> (r: String)
        requires
            self@.wf(),
            self@.is_done(),
        ensures
            r@ == join_spec(self@.washed, self@.separators),
    {
        join_text(&self.washed, &self.separators)
    }
}

/// Washes the URLs in free text.
pub struct TextWasher {
    pub url_washer: UrlWasher,
}

impl Default for TextWasher {
    fn default() -> (r: TextWasher)
        ensures
            r.url_washer.rules_spec() == crate::rules::default_rules(),
            r.url_washer.cache_spec().dom() == Set::<Seq<char>>::empty(),
    {
        TextWasher::new(UrlWasherConfig::new())
    }
}

impl TextWasher {
    pub fn new(config: UrlWasherConfig) -> (r: TextWasher)
        requires
            config@.wf(),
        ensures
            r.url_washer.config_spec() == config@,
            r.url_washer.rules_spec() == crate::rules::default_rules(),
            r.url_washer.cache_spec().dom() == Set::<Seq<char>>::empty(),
    {
        TextWasher { url_washer: UrlWasher::new(config) }
    }

    /// Washes tokens until one waits for a redirect or none is left.
    fn advance(&mut self, job: &mut TextWash)
        requires
            old(job)@.wf(),
            old(job)@.pending is None,
        ensures
            final(job)@.wf(),
            final(job)@.tokens == old(job)@.tokens,
            final(job)@.separators == old(job)@.separators,
            final(job)@.washed.len() >= old(job)@.washed.len(),
            final(job)@.washed.subrange(0, old(job)@.washed.len() as int) == old(job)@.washed,
            final(job)@.outcomes.subrange(0, old(job)@.outcomes.len() as int) == old(job)@.outcomes,
            final(job)@.starts.subrange(0, old(job)@.starts.len() as int) == old(job)@.starts,
            final(job)@.ends.subrange(0, old(job)@.ends.len() as int) == old(job)@.ends,
            final(job)@.started_with(
                old(job)@.washed.len() as int,
                old(self).url_washer.rules_spec(),
                old(self).url_washer.config_spec(),
            ),
            final(job)@.threaded(old(job)@.washed.len() as int, old(self).url_washer.cache_spec()),
            final(self).url_washer.cache_spec() == final(job)@.left_cache(
                old(job)@.washed.len() as int,
                old(self).url_washer.cache_spec(),
            ),
            final(self).url_washer.rules_spec() == old(self).url_washer.rules_spec(),
            final(self).url_washer.config_spec() == old(self).url_washer.config_spec(),
            final(job)@.is_done() || final(job)@.pending is Some,
    {
        let ghost w0 = job@.washed;
        let ghost o0 = job@.outcomes;
        let ghost s0 = job@.starts;
        let ghost e0 = job@.ends;
        let ghost m0 = self.url_washer.cache_spec();
        let ghost rules = self.url_washer.rules_spec();
        let ghost cfg = self.url_washer.config_spec();
        while job.washed.len() < job.tokens.len()
            invariant
                job@.wf(),
                job@.pending is None,
                job@.tokens == old(job)@.tokens,
                job@.separators == old(job)@.separators,
                job@.washed.subrange(0, w0.len() as int) == w0,
                job@.outcomes.subrange(0, o0.len() as int) == o0,
                job@.starts.subrange(0, s0.len() as int) == s0,
                job@.ends.subrange(0, e0.len() as int) == e0,
                w0 == old(job)@.washed,
                o0 == old(job)@.outcomes,
                s0 == old(job)@.starts,
                e0 == old(job)@.ends,
                w0.len() <= job@.washed.len(),
                o0.len() == w0.len(),
                s0.len() == w0.len(),
                e0.len() == w0.len(),
                rules == old(self).url_washer.rules_spec(),
                cfg == old(self).url_washer.config_spec(),
                m0 == old(self).url_washer.cache_spec(),
                self.url_washer.rules_spec() == rules,
                self.url_washer.config_spec() == cfg,
                job@.started_with(w0.len() as int, rules, cfg),
                job@.threaded(w0.len() as int, m0),
                self.url_washer.cache_spec() == job@.left_cache(w0.len() as int, m0),
            decreases job.tokens.len() - job.washed.len(),
        {
            let n = job.washed.len();
            let ghost jv = job@;
            let ghost before = self.url_washer.cache_spec();
            let candidate = url_token(job.tokens[n].as_str());
            match candidate {
                None => {
                    let t = job.tokens[n].clone();
                    job.washed.push(t);
                    proof {
                        job.outcomes@ = job.outcomes@.push(Ok(None));
                        let start = WashStart {
                            rules,
                            cfg,
                            cache: before,
                            url: vstd::pervasive::arbitrary(),
                        };
                        job.starts@ = job.starts@.push(start);
                        job.ends@ = job.ends@.push(before);
                        assert(!url_candidate(jv.tokens[n as int]));
                    }
                },
                Some(u) => {
                    let ghost start = WashStart { rules, cfg, cache: before, url: u@ };
                    let step = self.url_washer.wash(&u);
                    match step {
                        WashStep::Finished(o) => {
                            let ghost ov = outcome_view(o);
                            let t = substitute_token(job.tokens[n].clone(), o);
                            job.washed.push(t);
                            proof {
                                job.outcomes@ = job.outcomes@.push(ov);
                                job.starts@ = job.starts@.push(start);
                                job.ends@ = job.ends@.push(self.url_washer.cache_spec());
                            }
                        },
                        WashStep::Resolve(p) => {
                            job.pending = Some(p);
                            proof {
                                job.pending_start@ = start;
                                assert(job@.washed == jv.washed);
                            }
                            return;
                        },
                    }
                },
            }
            proof {
                assert(job@.washed =~= jv.washed.push(job@.washed[n as int]));
                assert(job@.outcomes =~= jv.outcomes.push(job@.outcomes[n as int]));
                assert(job@.starts =~= jv.starts.push(job@.starts[n as int]));
                assert(job@.ends =~= jv.ends.push(job@.ends[n as int]));
                assert(job@.washed.subrange(0, w0.len() as int) =~= jv.washed.subrange(0, w0.len() as int));
                assert(job@.outcomes.subrange(0, o0.len() as int) =~= jv.outcomes.subrange(
                    0,
                    o0.len() as int,
                ));
                assert(job@.starts.subrange(0, s0.len() as int) =~= jv.starts.subrange(
                    0,
                    s0.len() as int,
                ));
                assert(job@.ends.subrange(0, e0.len() as int) =~= jv.ends.subrange(
                    0,
                    e0.len() as int,
                ));
            }
        }
    }

    /// Starts washing `text`: splits it, and washes its tokens in order until one
    /// waits for a redirect (see `TextWash::request`) or all are washed. The washes run
    /// one after another on this washer's cache.
    pub fn wash(&mut self, text: &str) -> (job: TextWash)
        ensures
            job@.wf(),
            job@.tokens == split_spec(text@).0,
            job@.separators == split_spec(text@).1,
            job@.is_done() || job@.pending is Some,
            job@.started_with(0, old(self).url_washer.rules_spec(), old(self).url_washer.config_spec()),
            job@.threaded(0, old(self).url_washer.cache_spec()),
            final(self).url_washer.cache_spec() == job@.left_cache(0, old(self).url_washer.cache_spec()),
            final(self).url_washer.rules_spec() == old(self).url_washer.rules_spec(),
            final(self).url_washer.config_spec() == old(self).url_washer.config_spec(),
    {
        let (tokens, separators) = split_text(text);
        proof {
            lemma_split_len(text@);
        }
        let mut job = TextWash {
            tokens,
            separators,
            washed: Vec::new(),
            outcomes: Ghost(Seq::empty()),
            starts: Ghost(Seq::empty()),
            ends: Ghost(Seq::empty()),
            pending: None,
            pending_start: Ghost(vstd::pervasive::arbitrary()),
        };
        proof {
            assert(job@.washed =~= Seq::<Seq<char>>::empty());
        }
        self.advance(&mut job);
        job
    }

    /// Gives the waiting token's wash where its redirect led, or why resolving it
    /// failed, and washes on. The washes run one after another on this washer's cache.
    pub fn resume(&mut self, job: &mut TextWash, target: Result<WebUrl, WashError>)
        requires
            old(job)@.wf(),
            old(job)@.pending is Some,
        ensures
            final(job)@.wf(),
            final(job)@.tokens == old(job)@.tokens,
            final(job)@.separators == old(job)@.separators,
            final(job)@.washed.len() >= old(job)@.washed.len(),
            final(job)@.washed.subrange(0, old(job)@.washed.len() as int) == old(job)@.washed,
            final(job)@.is_done() || final(job)@.pending is Some,
            match resume_spec(old(job)@.pending->Some_0, target_view(target)) {
                StepView::Finished(o) => {
                    let n = old(job)@.washed.len() as int;
                    &&& final(job)@.washed.len() > n
                    &&& final(job)@.outcomes[n] == o
                    &&& final(job)@.starts[n] == old(job)@.pending_start
                    &&& cache_after(
                        old(self).url_washer.cache_spec(),
                        final(job)@.ends[n],
                        old(job)@.pending_start.url.text(),
                        StepView::Finished(o),
                    )
                    &&& final(job)@.started_with(
                        n + 1,
                        old(self).url_washer.rules_spec(),
                        old(self).url_washer.config_spec(),
                    )
                    &&& final(job)@.threaded(n + 1, final(job)@.ends[n])
                    &&& final(self).url_washer.cache_spec() == final(job)@.left_cache(
                        n + 1,
                        final(job)@.ends[n],
                    )
                },
                StepView::Resolve(p) => {
                    &&& final(job)@.washed == old(job)@.washed
                    &&& final(job)@.pending == Some(p)
                    &&& final(job)@.pending_start == old(job)@.pending_start
                    &&& final(self).url_washer.cache_spec() == old(self).url_washer.cache_spec()
                },
            },
            final(self).url_washer.rules_spec() == old(self).url_washer.rules_spec(),
            final(self).url_washer.config_spec() == old(self).url_washer.config_spec(),
    {
        let ghost jv = job@;
        let n = job.washed.len();
        let pending = job.pending.take();
        let pending = match pending {
            Some(p) => p,
            None => {
                return;
            },
        };
        let step = self.url_washer.resume(pending, target);
        match step {
            WashStep::Finished(o) => {
                let ghost ov = outcome_view(o);
                let t = substitute_token(job.tokens[n].clone(), o);
                job.washed.push(t);
                proof {
                    job.outcomes@ = job.outcomes@.push(ov);
                    job.starts@ = job.starts@.push(jv.pending_start);
                    job.ends@ = job.ends@.push(self.url_washer.cache_spec());
                    assert(job@.washed =~= jv.washed.push(job@.washed[n as int]));
                    assert(job@.washed.subrange(0, n as int) =~= jv.washed);
                    assert(job@.outcomes.subrange(0, n as int) =~= jv.outcomes);
                    assert(jv.tokens.len() > n);
                    assert(job@.starts[n as int] == jv.pending_start);
                    assert(job@.ends[n as int] == self.url_washer.cache_spec());
                }
                let ghost mid = job@;
                self.advance(job);
                proof {
                    assert(job@.washed.subrange(0, n as int) =~= job@.washed.subrange(
                        0,
                        n + 1,
                    ).subrange(0, n as int));
                    assert(job@.washed.subrange(0, n as int) =~= mid.washed.subrange(0, n as int));
                    assert(job@.outcomes[n as int] == job@.outcomes.subrange(0, n + 1)[n as int]);
                    assert(job@.outcomes[n as int] == mid.outcomes[n as int]);
                    assert(job@.starts[n as int] == job@.starts.subrange(0, n + 1)[n as int]);
                    assert(job@.ends[n as int] == job@.ends.subrange(0, n + 1)[n as int]);
                }
            },
            WashStep::Resolve(p) => {
                job.pending = Some(p);
                proof {
                    assert(job@.washed =~= jv.washed);
                }
            },
        }
    }
}

} // verus!
