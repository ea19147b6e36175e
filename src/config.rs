//! How a washer is configured: the mixer instance to use, and how each rule's
//! redirects are resolved.
use crate::rules::{default_rules, rule_set, rules_view, DirtyUrlRule, ProgramView, RuleView};
use crate::web_url::{copy_string, WebUrl, WebUrlView};
use vstd::prelude::*;
use vstd::string::StringExecFns;

verus! {

/// How, if at all, a rule's redirect is resolved.
#[derive(Clone, Copy, PartialEq, Eq, Debug, Structural)]
pub enum RedirectWashPolicy {
    /// Do not resolve the redirect.
    Ignore,
    /// Request the URL directly; this shows the caller's address to its server.
    Locally,
    /// Ask the configured mixer instance; this shows the URL to whoever runs it.
    ViaMixer,
}

impl RedirectWashPolicy {
    /// The name under which the policy is shown to users.
    pub fn label(&self) -> (r: String)
        ensures
            r@ == match self {
                RedirectWashPolicy::Ignore => "ignore"@,
                RedirectWashPolicy::Locally => "locally"@,
                RedirectWashPolicy::ViaMixer => "via mixer"@,
            },
    {
        match self {
            RedirectWashPolicy::Ignore => String::from_str("ignore"),
            RedirectWashPolicy::Locally => String::from_str("locally"),
            RedirectWashPolicy::ViaMixer => String::from_str("via mixer"),
        }
    }
}


pub ghost struct ConfigView {
    pub mixer: Option<WebUrlView>,
    pub policies: Seq<(Seq<char>, RedirectWashPolicy)>,
}

/// No rule name has two entries: the entries form a map from rule name to policy.
pub open spec fn names_unique(entries: Seq<(Seq<char>, RedirectWashPolicy)>) -> bool {
    forall|i: int, j: int|
        0 <= i < j < entries.len() ==> #[trigger] entries[i].0 != #[trigger] entries[j].0
}

impl ConfigView {
    pub open spec fn wf(self) -> bool {
        names_unique(self.policies)
    }
}

/// Whether `entries` has an entry for `name`.
pub open spec fn has_entry(entries: Seq<(Seq<char>, RedirectWashPolicy)>, name: Seq<char>) -> bool {
    exists|i: int| 0 <= i < entries.len() && entries[i].0 == name
}

/// `entries` with `name` mapped to `p`: its entry replaced where it has one, else one added.
pub open spec fn with_policy(
    entries: Seq<(Seq<char>, RedirectWashPolicy)>,
    name: Seq<char>,
    p: RedirectWashPolicy,
) -> Seq<(Seq<char>, RedirectWashPolicy)> {
    if has_entry(entries, name) {
        entries.update(choose|i: int| 0 <= i < entries.len() && entries[i].0 == name, (name, p))
    } else {
        entries.push((name, p))
    }
}

/// Where names are unique, the policy of `name` is that of its entry, else `Ignore`.
pub proof fn lemma_policy_of_entry(entries: Seq<(Seq<char>, RedirectWashPolicy)>, name: Seq<char>)
    requires
        names_unique(entries),
    ensures
        forall|i: int|
            0 <= i < entries.len() && entries[i].0 == name ==> policy_in(entries, name)
                == #[trigger] entries[i].1,
        !has_entry(entries, name) ==> policy_in(entries, name) == RedirectWashPolicy::Ignore,
    decreases entries.len(),
{
    if entries.len() > 0 {
        let rest = entries.drop_first();
        assert(names_unique(rest)) by {
            assert forall|i: int, j: int| 0 <= i < j < rest.len() implies #[trigger] rest[i].0
                != #[trigger] rest[j].0 by {
                assert(entries[i + 1].0 != entries[j + 1].0);
            }
        }
        lemma_policy_of_entry(rest, name);
        assert forall|i: int|
            0 <= i < entries.len() && entries[i].0 == name implies policy_in(entries, name)
                == #[trigger] entries[i].1 by {
            if i > 0 {
                assert(entries[0].0 != entries[i].0);
                assert(rest[i - 1] == entries[i]);
            }
        }
        if !has_entry(entries, name) {
            assert(entries[0].0 != name);
            assert(!has_entry(rest, name)) by {
                if has_entry(rest, name) {
                    let j = choose|j: int| 0 <= j < rest.len() && rest[j].0 == name;
                    assert(entries[j + 1].0 == name);
                }
            }
        }
    }
}

/// The policy set for rule `name`: the first entry under that name, else `Ignore`.
pub open spec fn policy_in(
    entries: Seq<(Seq<char>, RedirectWashPolicy)>,
    name: Seq<char>,
) -> RedirectWashPolicy
    decreases entries.len(),
{
    if entries.len() == 0 {
        RedirectWashPolicy::Ignore
    } else if entries[0].0 == name {
        entries[0].1
    } else {
        policy_in(entries.drop_first(), name)
    }
}

pub open spec fn opt_url_view(o: Option<WebUrl>) -> Option<WebUrlView> {
    match o {
        Some(u) => Some(u@),
        None => None,
    }
}

pub open spec fn policies_view(v: Seq<(String, RedirectWashPolicy)>) -> Seq<(Seq<char>, RedirectWashPolicy)> {
    v.map_values(|e: (String, RedirectWashPolicy)| (e.0@, e.1))
}

/// Where the mixer instance is, and how each rule's redirects are resolved.
#[derive(Debug)]
pub struct UrlWasherConfig {
    pub mixer_instance: Option<WebUrl>,
    pub redirect_policy: Vec<(String, RedirectWashPolicy)>,
}

impl View for UrlWasherConfig {
    type V = ConfigView;

    open spec fn view(&self) -> ConfigView {
        ConfigView {
            mixer: opt_url_view(self.mixer_instance),
            policies: policies_view(self.redirect_policy@),
        }
    }
}

/// `Locally` for each rule of `rules` that resolves redirects, in table order.
pub open spec fn redirect_defaults(rules: Seq<RuleView>) -> Seq<(Seq<char>, RedirectWashPolicy)>
    decreases rules.len(),
{
    if rules.len() == 0 {
        Seq::empty()
    } else {
        let rest = redirect_defaults(rules.drop_last());
        if rules.last().programs.contains(ProgramView::ResolveRedirection) {
            with_policy(rest, rules.last().name, RedirectWashPolicy::Locally)
        } else {
            rest
        }
    }
}

fn has_redirect(rule: &DirtyUrlRule) -> (r: bool)
    ensures
        r == rule@.programs.contains(ProgramView::ResolveRedirection),
{
    let mut i: usize = 0;
    while i < rule.washing_programs.len()
        invariant
            i <= rule.washing_programs.len(),
            forall|j: int| 0 <= j < i ==> rule@.programs[j] != ProgramView::ResolveRedirection,
        decreases rule.washing_programs.len() - i,
    {
        if rule.washing_programs[i].is_resolve_redirection() {
            proof {
                assert(rule@.programs[i as int] == ProgramView::ResolveRedirection);
            }
            return true;
        }
        i = i + 1;
    }
    false
}

impl UrlWasherConfig {
    /// No mixer instance, and `Locally` for every rule of the table that resolves redirects.
    pub fn new() -> (r: UrlWasherConfig)
        ensures
            r@.mixer is None,
            r@.policies == redirect_defaults(default_rules()),
            r@.wf(),
    {
        let rules = rule_set();
        let mut config = UrlWasherConfig { mixer_instance: None, redirect_policy: Vec::new() };
        let ghost rv = rules_view(rules@);
        let mut i: usize = 0;
        while i < rules.len()
            invariant
                i <= rules.len(),
                rv == rules_view(rules@),
                config@.mixer is None,
                config@.wf(),
                config@.policies == redirect_defaults(rv.subrange(0, i as int)),
            decreases rules.len() - i,
        {
            let wanted = has_redirect(&rules[i]);
            if wanted {
                config.set_policy(copy_string(&rules[i].name), RedirectWashPolicy::Locally);
            }
            proof {
                let s = rv.subrange(0, i + 1);
                assert(s.drop_last() =~= rv.subrange(0, i as int));
                assert(s.last() == rules@[i as int]@);
            }
            i = i + 1;
        }
        proof {
            assert(rv.subrange(0, rules@.len() as int) =~= rv);
        }
        config
    }

    /// Sets the policy of the rule named `name`, replacing the one it had.
    pub fn set_policy(&mut self, name: String, policy: RedirectWashPolicy)
        requires
            old(self)@.wf(),
        ensures
            final(self)@.wf(),
            final(self)@.mixer == old(self)@.mixer,
            final(self)@.policies == with_policy(old(self)@.policies, name@, policy),
            policy_in(final(self)@.policies, name@) == policy,
    {
        let ghost old_entries = self@.policies;
        let ghost old_mixer = self@.mixer;
        let mut i: usize = 0;
        while i < self.redirect_policy.len()
            invariant
                i <= self.redirect_policy.len(),
                self@.policies == old_entries,
                self@.mixer == old_mixer,
                old_mixer == old(self)@.mixer,
                old_entries == old(self)@.policies,
                names_unique(old_entries),
                forall|j: int| 0 <= j < i ==> self@.policies[j].0 != name@,
            decreases self.redirect_policy.len() - i,
        {
            if self.redirect_policy[i].0 == name {
                let ghost nv = name@;
                assert(old_entries[i as int].0 == nv);
                self.redirect_policy.set(i, (name, policy));
                proof {
                    assert(has_entry(old_entries, nv));
                    let k = choose|k: int| 0 <= k < old_entries.len() && old_entries[k].0 == nv;
                    if k != i {
                        assert(old_entries[k].0 != old_entries[i as int].0);
                    }
                    assert(self@.policies =~= old_entries.update(i as int, (nv, policy)));
                    assert(names_unique(self@.policies)) by {
                        assert forall|a: int, b: int| 0 <= a < b < self@.policies.len() implies
                            #[trigger] self@.policies[a].0 != #[trigger] self@.policies[b].0 by {
                            assert(old_entries[a].0 != old_entries[b].0);
                        }
                    }
                    lemma_policy_of_entry(self@.policies, nv);
                    assert(self@.policies[i as int].1 == policy);
                }
                return;
            }
            i = i + 1;
        }
        let ghost nv = name@;
        self.redirect_policy.push((name, policy));
        proof {
            assert(!has_entry(old_entries, nv));
            assert(self@.policies =~= old_entries.push((nv, policy)));
            assert(names_unique(self@.policies)) by {
                assert forall|a: int, b: int| 0 <= a < b < self@.policies.len() implies
                    #[trigger] self@.policies[a].0 != #[trigger] self@.policies[b].0 by {
                    if b == old_entries.len() {
                        assert(old_entries[a].0 != nv);
                    } else {
                        assert(old_entries[a].0 != old_entries[b].0);
                    }
                }
            }
            lemma_policy_of_entry(self@.policies, nv);
            assert(self@.policies[old_entries.len() as int].0 == nv);
            assert(self@.policies[old_entries.len() as int].1 == policy);
        }
    }

    /// Whether no rule name has two entries.
    pub fn is_well_formed(&self) -> (r: bool)
        ensures
            r == self@.wf(),
    {
        let n = self.redirect_policy.len();
        let mut j: usize = 0;
        while j < n
            invariant
                n == self.redirect_policy.len(),
                j <= n,
                forall|a: int, b: int| 0 <= a < b < j ==> #[trigger] self@.policies[a].0
                    != #[trigger] self@.policies[b].0,
            decreases n - j,
        {
            let mut i: usize = 0;
            while i < j
                invariant
                    n == self.redirect_policy.len(),
                    i <= j < n,
                    forall|a: int, b: int| 0 <= a < b < j ==> #[trigger] self@.policies[a].0
                        != #[trigger] self@.policies[b].0,
                    forall|a: int| 0 <= a < i ==> self@.policies[a].0 != self@.policies[j as int].0,
                decreases j - i,
            {
                if self.redirect_policy[i].0 == self.redirect_policy[j].0 {
                    proof {
                        assert(self@.policies[i as int].0 == self@.policies[j as int].0);
                    }
                    return false;
                }
                i = i + 1;
            }
            j = j + 1;
        }
        true
    }

    /// The policy configured for the rule named `name`; `Ignore` where none is.
    pub fn policy_for(&self, name: &String) -> (r: RedirectWashPolicy)
        ensures
            r == policy_in(self@.policies, name@),
    {
        let ghost all = self@.policies;
        assert(all.subrange(0, all.len() as int) =~= all);
        let mut i: usize = 0;
        while i < self.redirect_policy.len()
            invariant
                i <= self.redirect_policy.len(),
                all == self@.policies,
                policy_in(all, name@) == policy_in(all.subrange(i as int, all.len() as int), name@),
            decreases self.redirect_policy.len() - i,
        {
            proof {
                let s = all.subrange(i as int, all.len() as int);
                assert(s.drop_first() =~= all.subrange(i + 1, all.len() as int));
                assert(s[0] == all[i as int]);
            }
            if self.redirect_policy[i].0 == *name {
                return self.redirect_policy[i].1;
            }
            i = i + 1;
        }
        proof {
            assert(all.subrange(i as int, all.len() as int).len() == 0);
        }
        RedirectWashPolicy::Ignore
    }

    pub fn duplicate(&self) -> (r: UrlWasherConfig)
        ensures
            r@ == self@,
    {
        let mut policies: Vec<(String, RedirectWashPolicy)> = Vec::new();
        let mut i: usize = 0;
        while i < self.redirect_policy.len()
            invariant
                i <= self.redirect_policy.len(),
                policies_view(policies@) == policies_view(self.redirect_policy@.subrange(0, i as int)),
            decreases self.redirect_policy.len() - i,
        {
            let ghost prev = policies@;
            policies.push((copy_string(&self.redirect_policy[i].0), self.redirect_policy[i].1));
            proof {
                assert(policies_view(policies@) =~= policies_view(prev).push(self@.policies[i as int]));
                assert(policies_view(self.redirect_policy@.subrange(0, i + 1)) =~= policies_view(
                    self.redirect_policy@.subrange(0, i as int),
                ).push(self@.policies[i as int]));
            }
            i = i + 1;
        }
        proof {
            assert(self.redirect_policy@.subrange(0, self.redirect_policy@.len() as int)
                =~= self.redirect_policy@);
        }
        UrlWasherConfig { mixer_instance: copy_opt_url(&self.mixer_instance), redirect_policy: policies }
    }
}

impl Default for UrlWasherConfig {
    fn default() -> (r: UrlWasherConfig)
        ensures
            r@.mixer is None,
            r@.policies == redirect_defaults(default_rules()),
    {
        UrlWasherConfig::new()
    }
}

pub fn copy_opt_url(o: &Option<WebUrl>) -> (r: Option<WebUrl>)
    ensures
        opt_url_view(r) == opt_url_view(*o),
{
    match o {
        Some(u) => Some(u.duplicate()),
        None => None,
    }
}

} // verus!
