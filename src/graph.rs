use vstd::prelude::*;
use matchit::Router as Matcher;
use vstd::utf8::encode_utf8;

verus! {

#[verifier::external_type_specification]
#[verifier::external_body]
#[verifier::reject_recursive_types(T)]
pub struct ExMatcher<T>(Matcher<T>);

#[verifier::external_type_specification]
#[verifier::external_body]
pub struct ExInsertError(matchit::InsertError);

/// The routes inserted into a matcher, with their values, in the order of insertion.
pub uninterp spec fn matcher_entries(m: Matcher<usize>) -> Seq<(Seq<char>, usize)>;

/// Whether the matcher accepts `template` once the given routes are in it.
pub uninterp spec fn template_accepted(entries: Seq<(Seq<char>, usize)>, template: Seq<char>) -> bool;

/// The value and the named parameters of the route that the matcher finds for
/// `path` among the given routes, if it finds one.
pub uninterp spec fn matched(entries: Seq<(Seq<char>, usize)>, path: Seq<char>) -> Option<
    (usize, Seq<(Seq<char>, Seq<char>)>),
>;

/// Name/value pairs of strings, seen as sequences of characters.
pub open spec fn pairs_view(v: Seq<(String, String)>) -> Seq<(Seq<char>, Seq<char>)> {
    v.map_values(|p: (String, String)| (p.0@, p.1@))
}

/// The number of `{` bytes in `s`.
pub open spec fn open_braces(s: Seq<u8>) -> nat
    decreases s.len(),
{
    if s.len() == 0 {
        0
    } else {
        open_braces(s.drop_last()) + if s.last() == 123u8 {
            1nat
        } else {
            0nat
        }
    }
}

/// The most parameters a template may have: the matcher names them `a` to `z`
/// and cannot name a twenty-sixth.
pub const MAX_PARAMS: usize = 25;

/// Whether the template has few enough `{` to stay within `MAX_PARAMS`
/// parameters.
pub open spec fn params_fit(template: Seq<char>) -> bool {
    open_braces(encode_utf8(template)) <= MAX_PARAMS
}

/// Counts the `{` bytes of `s`.
pub fn count_open_braces(s: &str) -> (r: usize)
    ensures
        r == open_braces(encode_utf8(s@)),
{
    let bytes = s.as_bytes();
    let mut n: usize = 0;
    let mut i: usize = 0;
    while i < bytes.len()
        invariant
            bytes@ == encode_utf8(s@),
            0 <= i <= bytes@.len(),
            n == open_braces(bytes@.take(i as int)),
            n <= i,
        decreases bytes@.len() - i,
    {
        assert(bytes@.take(i + 1).drop_last() =~= bytes@.take(i as int));
        if bytes[i] == 123u8 {
            n = n + 1;
        }
        i = i + 1;
    }
    assert(bytes@.take(i as int) =~= bytes@);
    n
}

/// Relies on matchit::Router::new: a new router holds no route.
#[verifier::external_body]
fn new_matcher() -> (r: Matcher<usize>)
    ensures
        matcher_entries(r) == Seq::<(Seq<char>, usize)>::empty(),
{
    Matcher::new()
}

/// Relies on matchit::Router::insert: it succeeds or fails by the routes already
/// in the router and the new template, and on success the route is added. It
/// panics on a template of more than `MAX_PARAMS` parameters, each of which
/// opens with `{`.
#[verifier::external_body]
fn matcher_insert(m: &mut Matcher<usize>, template: &str, value: usize) -> (r: Result<
    (),
    matchit::InsertError,
>)
    requires
        params_fit(template@),
    ensures
        r.is_ok() == template_accepted(matcher_entries(*old(m)), template@),
        r.is_ok() ==> matcher_entries(*final(m)) == matcher_entries(*old(m)).push((template@, value)),
{
    m.insert(template, value)
}

/// Relies on matchit::Router::at: the value and parameters of the route that
/// matches `path`; the value is one that was inserted.
#[verifier::external_body]
fn matcher_at(m: &Matcher<usize>, path: &str) -> (r: Option<(usize, Vec<(String, String)>)>)
    ensures
        r is None ==> matched(matcher_entries(*m), path@) is None,
        r matches Some((v, ps)) ==> matched(matcher_entries(*m), path@) == Some((v, pairs_view(ps@))),
        r matches Some((v, ps)) ==> exists|i: int|
            0 <= i < matcher_entries(*m).len() && (#[trigger] matcher_entries(*m)[i]).1 == v,
{
    match m.at(path) {
        Ok(found) => Some(
            (
                *found.value,
                found.params.iter().map(|(k, v)| (k.to_string(), v.to_string())).collect(),
            ),
        ),
        Err(_) => None,
    }
}

/// The index of a route in a router's list, which is also its value in the matcher.
#[derive(Clone, Copy, Debug, PartialEq, Eq, Structural, PartialOrd, Ord, Hash)]
pub struct RouteId(pub usize);

/// The path table of a router: the matcher, and the template of each route id.
#[derive(Debug)]
pub struct Graph {
    inner: Matcher<usize>,
    paths: Vec<String>,
}

impl Graph {
    /// The template of each route id, in id order.
    pub closed spec fn templates(self) -> Seq<Seq<char>> {
        self.paths@.map_values(|p: String| p@)
    }

    /// The routes in the matcher, in insertion order.
    pub closed spec fn entries(self) -> Seq<(Seq<char>, usize)> {
        matcher_entries(self.inner)
    }

    /// The matcher holds route id `i` under template `i`, no template twice,
    /// and each template fits the parameter bound and was accepted after the
    /// ones before it.
    pub closed spec fn wf(self) -> bool {
        &&& self.entries().len() == self.paths@.len()
        &&& forall|i: int| 0 <= i < self.paths@.len() ==> params_fit(#[trigger] self.paths@[i]@)
        &&& forall|i: int|
            0 <= i < self.paths@.len() ==> template_accepted(
                self.entries().take(i),
                #[trigger] self.paths@[i]@,
            )
        &&& forall|i: int|
            0 <= i < self.paths@.len() ==> #[trigger] self.entries()[i] == (self.paths@[i]@, i as usize)
        &&& forall|i: int, j: int|
            0 <= i < j < self.paths@.len() ==> self.paths@[i]@ != self.paths@[j]@
    }

    /// What well-formedness says of the two views.
    pub proof fn lemma_wf(self)
        requires
            self.wf(),
        ensures
            self.entries().len() == self.templates().len(),
            forall|i: int|
                0 <= i < self.templates().len() ==> #[trigger] self.entries()[i] == (
                    self.templates()[i],
                    i as usize,
                ),
            forall|i: int, j: int|
                0 <= i < j < self.templates().len() ==> self.templates()[i] != self.templates()[j],
            forall|i: int|
                0 <= i < self.templates().len() ==> template_accepted(
                    self.entries().take(i),
                    #[trigger] self.templates()[i],
                ),
            forall|i: int| 0 <= i < self.templates().len() ==> params_fit(#[trigger] self.templates()[i]),
    {
        assert forall|i: int| 0 <= i < self.templates().len() implies params_fit(
            #[trigger] self.templates()[i],
        ) by {
            assert(self.templates()[i] == self.paths@[i]@);
        }
        assert forall|i: int| 0 <= i < self.templates().len() implies template_accepted(
            self.entries().take(i),
            #[trigger] self.templates()[i],
        ) by {
            assert(self.templates()[i] == self.paths@[i]@);
        }
    }

    pub open spec fn has_template(self, path: Seq<char>) -> bool {
        self.templates().contains(path)
    }

    /// What the matcher finds for `path`: a route id and the named parameters.
    pub open spec fn lookup(self, path: Seq<char>) -> Option<(usize, Seq<(Seq<char>, Seq<char>)>)> {
        matched(self.entries(), path)
    }

    pub fn new() -> (r: Self)
        ensures
            r.wf(),
            r.templates() == Seq::<Seq<char>>::empty(),
    {
        let g = Graph { inner: new_matcher(), paths: Vec::new() };
        assert(g.templates() =~= Seq::<Seq<char>>::empty());
        g
    }

    pub fn len(&self) -> (r: usize)
        requires
            self.wf(),
        ensures
            r == self.templates().len(),
    {
        self.paths.len()
    }

    /// The route id registered under exactly the template `path`.
    pub fn route_id(&self, path: &str) -> (r: Option<RouteId>)
        requires
            self.wf(),
        ensures
            r is None <==> !self.has_template(path@),
            r matches Some(id) ==> id.0 < self.templates().len() && self.templates()[id.0 as int]
                == path@,
    {
        let wanted = path.to_owned();
        let mut i: usize = 0;
        while i < self.paths.len()
            invariant
                self.wf(),
                wanted@ == path@,
                0 <= i <= self.paths@.len(),
                forall|k: int| 0 <= k < i ==> self.templates()[k] != path@,
            decreases self.paths@.len() - i,
        {
            if self.paths[i] == wanted {
                assert(self.templates()[i as int] == path@);
                return Some(RouteId(i));
            }
            i = i + 1;
        }
        assert(!self.has_template(path@)) by {
            if self.templates().contains(path@) {
                let k = choose|k: int| 0 <= k < self.templates().len() && self.templates()[k] == path@;
                assert(self.templates()[k] != path@);
            }
        }
        None
    }

    /// The template of route `id`.
    pub fn path_of(&self, id: RouteId) -> (r: &String)
        requires
            self.wf(),
            id.0 < self.templates().len(),
        ensures
            r@ == self.templates()[id.0 as int],
    {
        &self.paths[id.0]
    }

    /// Adds the template `path` under the next route id.
    pub fn insert(&mut self, path: &str, id: RouteId) -> (r: Result<(), matchit::InsertError>)
        requires
            old(self).wf(),
            params_fit(path@),
            id.0 == old(self).templates().len(),
            !old(self).has_template(path@),
        ensures
            r.is_ok() == template_accepted(old(self).entries(), path@),
            r.is_ok() ==> final(self).wf() && final(self).templates() == old(self).templates().push(
                path@,
            ),
    {
        let res = matcher_insert(&mut self.inner, path, id.0);
        match res {
            Ok(()) => {
                let ghost before = self.paths@;
                self.paths.push(path.to_owned());
                proof {
                    assert(self.templates() =~= old(self).templates().push(path@));
                    assert forall|i: int| 0 <= i < self.paths@.len() implies template_accepted(
                        self.entries().take(i),
                        #[trigger] self.paths@[i]@,
                    ) by {
                        if i < before.len() {
                            assert(self.entries().take(i) =~= old(self).entries().take(i));
                            assert(self.paths@[i] == before[i]);
                        } else {
                            assert(self.entries().take(i) =~= old(self).entries());
                        }
                    }
                    assert forall|i: int| 0 <= i < self.paths@.len() implies params_fit(
                        #[trigger] self.paths@[i]@,
                    ) by {
                        if i < before.len() {
                            assert(self.paths@[i] == before[i]);
                        }
                    }
                    assert forall|i: int, j: int|
                        0 <= i < j < self.paths@.len() implies self.paths@[i]@ != self.paths@[j]@ by {
                        if j == before.len() {
                            assert(old(self).templates()[i] == before[i]@);
                        }
                    }
                }
                Ok(())
            },
            Err(e) => Err(e),
        }
    }

    /// The route id and parameters that the matcher finds for `path`.
    pub fn at(&self, path: &str) -> (r: Option<(RouteId, Vec<(String, String)>)>)
        requires
            self.wf(),
        ensures
            r is None <==> self.lookup(path@) is None,
            r matches Some((id, ps)) ==> self.lookup(path@) == Some((id.0, pairs_view(ps@))) && id.0
                < self.templates().len(),
    {
        match matcher_at(&self.inner, path) {
            Some((v, params)) => {
                proof {
                    let i = choose|i: int| 0 <= i < self.entries().len() && (#[trigger] self.entries()[i]).1 == v;
                    assert(self.entries()[i] == (self.paths@[i]@, i as usize));
                }
                Some((RouteId(v), params))
            },
            None => None,
        }
    }
}

} // verus!
