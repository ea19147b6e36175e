//! An absolute URL held as its parts, and the query operations washing needs.
use vstd::prelude::*;
use vstd::string::StringExecFns;

verus! {

/// The parts of a parsed URL that washing reads or rewrites.
pub ghost struct WebUrlView {
    pub scheme: Seq<char>,
    pub domain: Option<Seq<char>>,
    pub segments: Option<Seq<Seq<char>>>,
    /// The serialization up to the end of the path.
    pub base: Seq<char>,
    pub query: Option<Seq<char>>,
    pub fragment: Option<Seq<char>>,
}

pub open spec fn optional_part(prefix: char, part: Option<Seq<char>>) -> Seq<char> {
    match part {
        Some(p) => seq![prefix] + p,
        None => Seq::empty(),
    }
}

impl WebUrlView {
    /// The full serialization: base, then `?query`, then `#fragment`.
    pub open spec fn text(self) -> Seq<char> {
        self.base + optional_part('?', self.query) + optional_part('#', self.fragment)
    }

    pub open spec fn is_web(self) -> bool {
        self.scheme == "http"@ || self.scheme == "https"@
    }

    pub open spec fn without_query(self) -> WebUrlView {
        WebUrlView { query: None, ..self }
    }

    /// The decoded name/value pairs of the query; none when there is no query.
    pub open spec fn pairs(self) -> Seq<(Seq<char>, Seq<char>)> {
        match self.query {
            Some(q) => query_pairs_of(q),
            None => Seq::empty(),
        }
    }

    /// The URL with every query pair named in `names` dropped, the others kept in order;
    /// a query left with no pair is removed.
    pub open spec fn removing_params(self, names: Seq<Seq<char>>) -> WebUrlView {
        let kept = kept_pairs(self.pairs(), names);
        WebUrlView { query: if kept.len() == 0 { None } else { Some(query_text_of(kept)) }, ..self }
    }
}

pub open spec fn kept_pairs(
    pairs: Seq<(Seq<char>, Seq<char>)>,
    names: Seq<Seq<char>>,
) -> Seq<(Seq<char>, Seq<char>)> {
    pairs.filter(|p: (Seq<char>, Seq<char>)| !names.contains(p.0))
}

/// No pair of the query of `u` has a name in `names`.
pub open spec fn lacks_names(u: WebUrlView, names: Seq<Seq<char>>) -> bool {
    forall|k: int| 0 <= k < u.pairs().len() ==> !names.contains(#[trigger] u.pairs()[k].0)
}

/// The query is absent, or it is the encoding of its own pairs, of which there is one at least.
pub open spec fn settled(u: WebUrlView) -> bool {
    match u.query {
        None => true,
        Some(q) => u.pairs().len() > 0 && q == query_text_of(u.pairs()),
    }
}

proof fn lemma_nothing_dropped(s: Seq<(Seq<char>, Seq<char>)>, names: Seq<Seq<char>>)
    requires
        forall|k: int| 0 <= k < s.len() ==> !names.contains(#[trigger] s[k].0),
    ensures
        kept_pairs(s, names) == s,
    decreases s.len(),
{
    reveal(Seq::filter);
    if s.len() > 0 {
        lemma_nothing_dropped(s.drop_last(), names);
        assert(s.drop_last().push(s.last()) =~= s);
    }
}

/// Removing names that a settled URL's query does not hold leaves the URL as it is.
pub proof fn lemma_removing_absent_names(u: WebUrlView, names: Seq<Seq<char>>)
    requires
        settled(u),
        lacks_names(u, names),
    ensures
        u.removing_params(names) == u,
{
    lemma_nothing_dropped(u.pairs(), names);
}

/// Dropping pairs keeps every name that was absent absent.
pub proof fn lemma_dropping_keeps_absent(
    s: Seq<(Seq<char>, Seq<char>)>,
    dropped: Seq<Seq<char>>,
    absent: Seq<Seq<char>>,
)
    requires
        forall|k: int| 0 <= k < s.len() ==> !absent.contains(#[trigger] s[k].0),
    ensures
        forall|k: int|
            0 <= k < kept_pairs(s, dropped).len() ==> !absent.contains(
                #[trigger] kept_pairs(s, dropped)[k].0,
            ),
{
    let pred = |p: (Seq<char>, Seq<char>)| !dropped.contains(p.0);
    assert forall|k: int| 0 <= k < kept_pairs(s, dropped).len() implies !absent.contains(
        #[trigger] kept_pairs(s, dropped)[k].0,
    ) by {
        let e = kept_pairs(s, dropped)[k];
        assert(s.filter(pred).contains(e));
        s.lemma_filter_contains_rev(pred, e);
        let j = choose|j: int| 0 <= j < s.len() && s[j] == e;
        assert(!absent.contains(s[j].0));
    }
}

/// What removal keeps has none of the removed names.
pub proof fn lemma_removed_names_gone(s: Seq<(Seq<char>, Seq<char>)>, names: Seq<Seq<char>>)
    ensures
        forall|k: int|
            0 <= k < kept_pairs(s, names).len() ==> !names.contains(
                #[trigger] kept_pairs(s, names)[k].0,
            ),
{
    broadcast use vstd::seq_lib::group_filter_ensures;

    let pred = |p: (Seq<char>, Seq<char>)| !names.contains(p.0);
    assert forall|k: int| 0 <= k < kept_pairs(s, names).len() implies !names.contains(
        #[trigger] kept_pairs(s, names)[k].0,
    ) by {
        assert(pred(s.filter(pred)[k]));
    }
}

pub open spec fn opt_view(o: Option<String>) -> Option<Seq<char>> {
    match o {
        Some(s) => Some(s@),
        None => None,
    }
}

pub open spec fn strings_view(v: Seq<String>) -> Seq<Seq<char>> {
    v.map_values(|s: String| s@)
}

pub open spec fn pairs_view(v: Seq<(String, String)>) -> Seq<(Seq<char>, Seq<char>)> {
    v.map_values(|p: (String, String)| (p.0@, p.1@))
}

/// An absolute URL, held as the parts that washing reads or rewrites.
#[derive(Clone, Debug)]
pub struct WebUrl {
    pub scheme: String,
    pub domain: Option<String>,
    pub segments: Option<Vec<String>>,
    pub base: String,
    pub query: Option<String>,
    pub fragment: Option<String>,
}

impl View for WebUrl {
    type V = WebUrlView;

    open spec fn view(&self) -> WebUrlView {
        WebUrlView {
            scheme: self.scheme@,
            domain: opt_view(self.domain),
            segments: match self.segments {
                Some(v) => Some(strings_view(v@)),
                None => None,
            },
            base: self.base@,
            query: opt_view(self.query),
            fragment: opt_view(self.fragment),
        }
    }
}

/// What parsing a string as an absolute URL gives, part by part.
pub uninterp spec fn parsed_url(s: Seq<char>) -> Option<WebUrlView>;

/// The decoded name/value pairs of a query string.
pub uninterp spec fn query_pairs_of(q: Seq<char>) -> Seq<(Seq<char>, Seq<char>)>;

/// The query string that encodes the given name/value pairs.
pub uninterp spec fn query_text_of(p: Seq<(Seq<char>, Seq<char>)>) -> Seq<char>;

/// Relies on `url::Url::parse` to parse `s`, and on its accessors `scheme`, `domain`,
/// `path_segments`, `query`, `fragment` and the slice up to `Position::AfterPath` to
/// read the parts back out.
#[verifier::external_body]
fn parse_parts(s: &str) -> (r: Option<WebUrl>)
    ensures
        match r {
            Some(u) => parsed_url(s@) == Some(u@),
            None => parsed_url(s@) is None,
        },
{
    let u = url::Url::parse(s).ok()?;
    Some(WebUrl {
        scheme: u.scheme().to_string(),
        domain: u.domain().map(|d| d.to_string()),
        segments: u.path_segments().map(|p| p.map(|x| x.to_string()).collect()),
        base: u[..url::Position::AfterPath].to_string(),
        query: u.query().map(|q| q.to_string()),
        fragment: u.fragment().map(|f| f.to_string()),
    })
}

/// Relies on `form_urlencoded::parse` (re-exported by `url`): the percent-decoded
/// name/value pairs of a query, in order.
#[verifier::external_body]
fn decode_query(q: &str) -> (r: Vec<(String, String)>)
    ensures
        pairs_view(r@) == query_pairs_of(q@),
{
    url::form_urlencoded::parse(q.as_bytes()).into_owned().collect()
}

/// Relies on `form_urlencoded::Serializer`: pairs written as `name=value` joined by `&`,
/// with `&`, `=`, `+` and `%` in names and values percent-encoded, so that
/// `form_urlencoded::parse` reads the same pairs back.
#[verifier::external_body]
fn encode_query(p: &Vec<(String, String)>) -> (r: String)
    ensures
        r@ == query_text_of(pairs_view(p@)),
        query_pairs_of(r@) == pairs_view(p@),
{
    url::form_urlencoded::Serializer::new(String::new()).extend_pairs(p.iter()).finish()
}

pub fn copy_string(s: &String) -> (r: String)
    ensures
        r@ == s@,
{
    s.clone()
}

pub fn copy_opt_string(s: &Option<String>) -> (r: Option<String>)
    ensures
        opt_view(r) == opt_view(*s),
{
    match s {
        Some(x) => Some(x.clone()),
        None => None,
    }
}

pub fn copy_strings(v: &Vec<String>) -> (r: Vec<String>)
    ensures
        strings_view(r@) == strings_view(v@),
{
    let mut r: Vec<String> = Vec::new();
    let mut i: usize = 0;
    while i < v.len()
        invariant
            i <= v.len(),
            strings_view(r@) == strings_view(v@.subrange(0, i as int)),
        decreases v.len() - i,
    {
        let ghost prev = r@;
        r.push(v[i].clone());
        proof {
            assert(v@.subrange(0, i + 1) == v@.subrange(0, i as int).push(v@[i as int]));
            assert(strings_view(r@) =~= strings_view(prev).push(v@[i as int]@));
            assert(strings_view(v@.subrange(0, i + 1)) =~= strings_view(
                v@.subrange(0, i as int),
            ).push(v@[i as int]@));
        }
        i = i + 1;
    }
    proof {
        assert(v@.subrange(0, v@.len() as int) == v@);
    }
    r
}

/// Whether `names` holds `name`.
pub fn contains_name(names: &Vec<String>, name: &String) -> (r: bool)
    ensures
        r == strings_view(names@).contains(name@),
{
    let mut i: usize = 0;
    while i < names.len()
        invariant
            i <= names.len(),
            forall|j: int| 0 <= j < i ==> names@[j]@ != name@,
        decreases names.len() - i,
    {
        if names[i] == *name {
            proof {
                assert(strings_view(names@)[i as int] == name@);
            }
            return true;
        }
        i = i + 1;
    }
    proof {
        if strings_view(names@).contains(name@) {
            let j = choose|j: int| 0 <= j < names@.len() && strings_view(names@)[j] == name@;
            assert(names@[j]@ == name@);
        }
    }
    false
}

impl WebUrl {
    /// The full serialization of the URL.
    pub fn text(&self) -> (r: String)
        ensures
            r@ == self@.text(),
    {
        let mut r = copy_string(&self.base);
        match &self.query {
            Some(q) => {
                proof {
                    reveal_strlit("?");
                }
                r.append("?");
                r.append(q.as_str());
            },
            None => {},
        }
        proof {
            assert(r@ == self@.base + optional_part('?', self@.query));
        }
        match &self.fragment {
            Some(f) => {
                proof {
                    reveal_strlit("#");
                }
                r.append("#");
                r.append(f.as_str());
            },
            None => {},
        }
        r
    }

    /// The same URL with no query.
    pub fn without_query(&self) -> (r: WebUrl)
        ensures
            r@ == self@.without_query(),
    {
        let mut r = self.duplicate();
        r.query = None;
        r
    }

    /// Drops the query pairs whose name is in `names`, keeping the others in order;
    /// a query left empty is removed, with its `?`.
    pub fn removing_params(&self, names: &Vec<String>) -> (r: WebUrl)
        ensures
            r@ == self@.removing_params(strings_view(names@)),
            r@.pairs() == kept_pairs(self@.pairs(), strings_view(names@)),
            settled(r@),
    {
        let ghost nv = strings_view(names@);
        let all: Vec<(String, String)> = match &self.query {
            Some(q) => decode_query(q.as_str()),
            None => Vec::new(),
        };
        proof {
            reveal(Seq::filter);
            if self.query is None {
                assert(pairs_view(all@) =~= Seq::<(Seq<char>, Seq<char>)>::empty());
            }
        }
        let ghost allv = pairs_view(all@);
        assert(allv == self@.pairs());
        let mut kept: Vec<(String, String)> = Vec::new();
        let mut i: usize = 0;
        while i < all.len()
            invariant
                i <= all.len(),
                allv == pairs_view(all@),
                nv == strings_view(names@),
                pairs_view(kept@) == kept_pairs(allv.subrange(0, i as int), nv),
            decreases all.len() - i,
        {
            let ghost prev = kept@;
            let keep = !contains_name(names, &all[i].0);
            if keep {
                kept.push((all[i].0.clone(), all[i].1.clone()));
            }
            proof {
                let s = allv.subrange(0, i + 1);
                assert(s.drop_last() =~= allv.subrange(0, i as int));
                assert(s.last() == allv[i as int]);
                assert(allv[i as int].0 == all@[i as int].0@);
                assert(keep == !nv.contains(allv[i as int].0));
                reveal(Seq::filter);
                assert(kept_pairs(s, nv) == {
                    let sub = kept_pairs(s.drop_last(), nv);
                    if !nv.contains(s.last().0) {
                        sub.push(s.last())
                    } else {
                        sub
                    }
                });
                if keep {
                    assert(pairs_view(kept@) =~= pairs_view(prev).push(allv[i as int]));
                } else {
                    assert(pairs_view(kept@) =~= pairs_view(prev));
                }
            }
            i = i + 1;
        }
        proof {
            assert(allv.subrange(0, all@.len() as int) =~= allv);
        }
        let mut r = self.duplicate();
        if kept.len() == 0 {
            r.query = None;
        } else {
            r.query = Some(encode_query(&kept));
        }
        r
    }

    /// Parses `s` as an absolute URL.
    pub fn parse(s: &str) -> (r: Option<WebUrl>)
        ensures
            match r {
                Some(u) => parsed_url(s@) == Some(u@),
                None => parsed_url(s@) is None,
            },
    {
        parse_parts(s)
    }

    pub fn duplicate(&self) -> (r: WebUrl)
        ensures
            r@ == self@,
    {
        WebUrl {
            scheme: copy_string(&self.scheme),
            domain: copy_opt_string(&self.domain),
            segments: match &self.segments {
                Some(v) => Some(copy_strings(v)),
                None => None,
            },
            base: copy_string(&self.base),
            query: copy_opt_string(&self.query),
            fragment: copy_opt_string(&self.fragment),
        }
    }
}

} // verus!
