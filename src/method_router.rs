use vstd::prelude::*;
use crate::method::Method;
use crate::response::{StatusCode, METHOD_NOT_ALLOWED};
use crate::handler::HandlerService;
use crate::route::{fallback_bound, route_bound, Fallback, Route};

verus! {

/// The method table that a list of (method, route) pairs stands for; a later
/// pair wins over an earlier one with the same method.
pub open spec fn table_of<H>(s: Seq<(Method, Route<H>)>) -> Map<Method, Route<H>>
    decreases s.len(),
{
    if s.len() == 0 {
        Map::empty()
    } else {
        table_of(s.drop_last()).insert(s.last().0, s.last().1)
    }
}

/// The route that a request with method `m` is dispatched to, given a method
/// table and a fallback: the route registered for `m`; for HEAD without a route
/// of its own, the GET route; else the fallback.
pub open spec fn resolve_in<H>(t: Map<Method, Route<H>>, fallback: Fallback<H>, m: Method) -> Route<H> {
    if t.contains_key(m) {
        t[m]
    } else if m == Method::Head && t.contains_key(Method::Get) {
        t[Method::Get]
    } else {
        fallback.spec_route()
    }
}

/// What merging two method routers, seen as table and fallback, gives: nothing
/// when a method is in both tables or both fallbacks are their users' own.
pub open spec fn merge_views<H>(
    a: (Map<Method, Route<H>>, Fallback<H>),
    b: (Map<Method, Route<H>>, Fallback<H>),
) -> Option<(Map<Method, Route<H>>, Fallback<H>)> {
    if exists|m: Method| a.0.contains_key(m) && b.0.contains_key(m) {
        None
    } else {
        match a.1.spec_merge(b.1) {
            Some(f) => Some((a.0.union_prefer_right(b.0), f)),
            None => None,
        }
    }
}

/// `b` is the method table `t` with `state` bound to each route.
pub open spec fn table_bound<H, X, S: Clone>(
    t: Map<Method, Route<H>>,
    b: Map<Method, Route<HandlerService<H, X, S>>>,
    state: S,
) -> bool {
    &&& t.dom() == b.dom()
    &&& forall|m: Method| #[trigger] t.contains_key(m) ==> route_bound(t[m], b[m], state)
}

proof fn lemma_table_bound<H, X, S: Clone>(
    a: Seq<(Method, Route<H>)>,
    b: Seq<(Method, Route<HandlerService<H, X, S>>)>,
    state: S,
)
    requires
        a.len() == b.len(),
        forall|i: int| 0 <= i < a.len() ==> (#[trigger] a[i]).0 == b[i].0 && route_bound(a[i].1, b[i].1, state),
    ensures
        table_bound(table_of(a), table_of(b), state),
    decreases a.len(),
{
    if a.len() > 0 {
        lemma_table_bound(a.drop_last(), b.drop_last(), state);
        assert(a[a.len() - 1] == a.last());
        assert(table_of(a).dom() =~= table_of(b).dom());
    }
}

/// No method occurs twice in the list.
pub open spec fn keys_unique<H>(s: Seq<(Method, Route<H>)>) -> bool {
    forall|i: int, j: int| 0 <= i < j < s.len() ==> s[i].0 != s[j].0
}

proof fn lemma_table_has<H>(s: Seq<(Method, Route<H>)>, m: Method)
    ensures
        table_of(s).contains_key(m) <==> exists|i: int| 0 <= i < s.len() && (#[trigger] s[i]).0 == m,
    decreases s.len(),
{
    if s.len() > 0 {
        lemma_table_has(s.drop_last(), m);
        if table_of(s.drop_last()).contains_key(m) {
            let i = choose|i: int| 0 <= i < s.len() - 1 && (#[trigger] s.drop_last()[i]).0 == m;
            assert(s[i].0 == m);
        }
        if exists|i: int| 0 <= i < s.len() && (#[trigger] s[i]).0 == m {
            let i = choose|i: int| 0 <= i < s.len() && (#[trigger] s[i]).0 == m;
            if i < s.len() - 1 {
                assert(s.drop_last()[i].0 == m);
            }
        }
    }
}

proof fn lemma_table_at<H>(s: Seq<(Method, Route<H>)>, i: int)
    requires
        keys_unique(s),
        0 <= i < s.len(),
    ensures
        table_of(s).contains_key(s[i].0),
        table_of(s)[s[i].0] == s[i].1,
    decreases s.len(),
{
    if i < s.len() - 1 {
        lemma_table_at(s.drop_last(), i);
        assert(s.drop_last()[i] == s[i]);
    }
}

proof fn lemma_table_append<H>(a: Seq<(Method, Route<H>)>, b: Seq<(Method, Route<H>)>)
    ensures
        table_of(a + b) == table_of(a).union_prefer_right(table_of(b)),
    decreases b.len(),
{
    if b.len() == 0 {
        assert(a + b =~= a);
        assert(table_of(a).union_prefer_right(table_of(b)) =~= table_of(a));
    } else {
        lemma_table_append(a, b.drop_last());
        assert((a + b).drop_last() =~= a + b.drop_last());
        assert(table_of(a + b) =~= table_of(a).union_prefer_right(table_of(b)));
    }
}

/// The routes of one path, by method, and the fallback for the other methods.
#[derive(Clone, Debug)]
pub struct MethodRouter<H> {
    mapping: Vec<(Method, Route<H>)>,
    fallback: Fallback<H>,
}

/// Why two method routers could not be merged.
#[derive(Clone, Debug, PartialEq, Eq)]
pub enum MergeError {
    /// Both define `method`; `path` is the path they were merged for, if known.
    Overlap { method: Method, path: Option<String> },
    /// Both have a fallback of their own.
    FallbackConflict,
}

impl<H> View for MethodRouter<H> {
    type V = (Map<Method, Route<H>>, Fallback<H>);

    open spec fn view(&self) -> (Map<Method, Route<H>>, Fallback<H>) {
        (self.table(), self.spec_fallback())
    }
}

impl<H> MethodRouter<H> {
    /// The route registered for each method.
    pub closed spec fn table(self) -> Map<Method, Route<H>> {
        table_of(self.mapping@)
    }

    pub closed spec fn spec_fallback(self) -> Fallback<H> {
        self.fallback
    }

    /// No method twice; a default fallback answers 405 Method Not Allowed.
    pub closed spec fn wf(self) -> bool {
        &&& keys_unique(self.mapping@)
        &&& self.fallback is Default ==> self.fallback == Fallback::Default(
            Route::<H>::Status(StatusCode(METHOD_NOT_ALLOWED)),
        )
    }

    /// What well-formedness says of the fallback.
    pub proof fn lemma_default_fallback(self)
        requires
            self.wf(),
        ensures
            self.spec_fallback() is Default ==> self.spec_fallback() == Fallback::Default(
                Route::<H>::Status(StatusCode(METHOD_NOT_ALLOWED)),
            ),
    {
    }

    /// The route that a request with method `m` is dispatched to: the one
    /// registered for `m`; for HEAD without a route of its own, the GET route;
    /// else the fallback.
    pub open spec fn resolve(self, m: Method) -> Route<H> {
        resolve_in(self.table(), self.spec_fallback(), m)
    }

    /// Whether a method is registered in both.
    pub open spec fn overlaps(self, other: Self) -> bool {
        exists|m: Method| self.table().contains_key(m) && other.table().contains_key(m)
    }

    pub fn new() -> (r: Self)
        ensures
            r.wf(),
            r.table() == Map::<Method, Route<H>>::empty(),
            r.spec_fallback() == Fallback::Default(Route::<H>::Status(StatusCode(METHOD_NOT_ALLOWED))),
    {
        MethodRouter { mapping: Vec::new(), fallback: Fallback::Default(Route::method_not_allowed()) }
    }

    /// Where `m` stands in the mapping, if it is registered.
    fn position(&self, m: Method) -> (r: Option<usize>)
        requires
            self.wf(),
        ensures
            r is None <==> !self.table().contains_key(m),
            r matches Some(i) ==> i < self.mapping@.len() && self.mapping@[i as int].0 == m
                && self.table()[m] == self.mapping@[i as int].1,
    {
        let mut i: usize = 0;
        while i < self.mapping.len()
            invariant
                self.wf(),
                0 <= i <= self.mapping@.len(),
                forall|k: int| 0 <= k < i ==> self.mapping@[k].0 != m,
            decreases self.mapping@.len() - i,
        {
            if self.mapping[i].0 == m {
                proof {
                    lemma_table_at(self.mapping@, i as int);
                }
                return Some(i);
            }
            i = i + 1;
        }
        proof {
            lemma_table_has(self.mapping@, m);
        }
        None
    }

    /// Whether a route is registered for `m`.
    pub fn has(&self, m: Method) -> (r: bool)
        requires
            self.wf(),
        ensures
            r == self.table().contains_key(m),
    {
        self.position(m).is_some()
    }

    /// Registers `handler` for `method`, which must not have a route yet.
    pub fn on(self, method: Method, handler: H) -> (r: Self)
        requires
            self.wf(),
            !self.table().contains_key(method),
        ensures
            r.wf(),
            r.table() == self.table().insert(method, Route::Service(handler)),
            r.spec_fallback() == self.spec_fallback(),
    {
        let ghost before = self.mapping@;
        let mut this = self;
        proof {
            lemma_table_has(before, method);
        }
        this.mapping.push((method, Route::new(handler)));
        proof {
            assert(this.mapping@.drop_last() =~= before);
            assert forall|i: int, j: int| 0 <= i < j < this.mapping@.len() implies this.mapping@[i].0
                != this.mapping@[j].0 by {
                if j == before.len() {
                    assert(before[i] == this.mapping@[i]);
                }
            }
        }
        this
    }

    pub fn get(self, handler: H) -> (r: Self)
        requires
            self.wf(),
            !self.table().contains_key(Method::Get),
        ensures
            r.wf(),
            r.table() == self.table().insert(Method::Get, Route::Service(handler)),
            r.spec_fallback() == self.spec_fallback(),
    {
        self.on(Method::Get, handler)
    }

    pub fn post(self, handler: H) -> (r: Self)
        requires
            self.wf(),
            !self.table().contains_key(Method::Post),
        ensures
            r.wf(),
            r.table() == self.table().insert(Method::Post, Route::Service(handler)),
            r.spec_fallback() == self.spec_fallback(),
    {
        self.on(Method::Post, handler)
    }

    /// Replaces the fallback for unregistered methods by `handler`.
    pub fn fallback(self, handler: H) -> (r: Self)
        requires
            self.wf(),
        ensures
            r.wf(),
            r.table() == self.table(),
            r.spec_fallback() == Fallback::Service(Route::Service(handler)),
    {
        MethodRouter { mapping: self.mapping, fallback: Fallback::Service(Route::new(handler)) }
    }

    /// Binds `state` to every route of the method router.
    pub fn with_state<X, S: Clone>(self, state: &S) -> (r: MethodRouter<HandlerService<H, X, S>>)
        requires
            self.wf(),
        ensures
            r.wf(),
            table_bound(self.table(), r.table(), *state),
            fallback_bound(self.spec_fallback(), r.spec_fallback(), *state),
    {
        let ghost orig = self.mapping@;
        let MethodRouter { mapping: mut rest, fallback } = self;
        let mut out: Vec<(Method, Route<HandlerService<H, X, S>>)> = Vec::new();
        let n = rest.len();
        let mut k: usize = 0;
        while k < n
            invariant
                n == orig.len(),
                k <= n,
                rest@ == orig.subrange(k as int, n as int),
                out@.len() == k,
                forall|i: int|
                    0 <= i < k ==> (#[trigger] out@[i]).0 == orig[i].0 && route_bound(
                        orig[i].1,
                        out@[i].1,
                        *state,
                    ),
            decreases n - k,
        {
            let (m, route) = rest.remove(0);
            assert((m, route) == orig[k as int]);
            out.push((m, route.with_state(state)));
            k = k + 1;
            assert(rest@ =~= orig.subrange(k as int, n as int));
        }
        proof {
            lemma_table_bound(orig, out@, *state);
            assert forall|i: int, j: int| 0 <= i < j < out@.len() implies out@[i].0 != out@[j].0 by {
                assert(out@[i].0 == orig[i].0 && out@[j].0 == orig[j].0);
            }
        }
        MethodRouter { mapping: out, fallback: fallback.with_state(state) }
    }

    /// The route for methods without one of their own.
    pub fn fallback_route(&self) -> (r: &Route<H>)
        ensures
            *r == self.spec_fallback().spec_route(),
    {
        self.fallback.route()
    }

    /// The route for a request with method `m`.
    pub fn call(&self, m: Method) -> (r: &Route<H>)
        requires
            self.wf(),
        ensures
            *r == self.resolve(m),
    {
        match self.position(m) {
            Some(i) => &self.mapping[i].1,
            None => {
                if m == Method::Head {
                    match self.position(Method::Get) {
                        Some(i) => &self.mapping[i].1,
                        None => self.fallback.route(),
                    }
                } else {
                    self.fallback.route()
                }
            },
        }
    }

    /// A method registered in both `self` and `other`, if there is one.
    fn first_overlap(&self, other: &Self) -> (r: Option<Method>)
        requires
            self.wf(),
            other.wf(),
        ensures
            r is None <==> !self.overlaps(*other),
            r matches Some(m) ==> self.table().contains_key(m) && other.table().contains_key(m),
    {
        let mut i: usize = 0;
        while i < self.mapping.len()
            invariant
                self.wf(),
                other.wf(),
                0 <= i <= self.mapping@.len(),
                forall|k: int| 0 <= k < i ==> !other.table().contains_key(#[trigger] self.mapping@[k].0),
            decreases self.mapping@.len() - i,
        {
            let m = self.mapping[i].0;
            if other.has(m) {
                proof {
                    lemma_table_at(self.mapping@, i as int);
                }
                return Some(m);
            }
            i = i + 1;
        }
        proof {
            if self.overlaps(*other) {
                let m = choose|m: Method| self.table().contains_key(m) && other.table().contains_key(m);
                lemma_table_has(self.mapping@, m);
                let k = choose|k: int| 0 <= k < self.mapping@.len() && (#[trigger] self.mapping@[k]).0 == m;
                assert(!other.table().contains_key(self.mapping@[k].0));
            }
        }
        None
    }

    /// Merges the routes of `other` into `self`. It fails when both register
    /// one method, or both have a fallback of their own.
    pub fn merge_for_path(self, path: Option<&str>, other: Self) -> (r: Result<Self, MergeError>)
        requires
            self.wf(),
            other.wf(),
        ensures
            r matches Err(MergeError::Overlap { method: m, path: p }) ==> self.table().contains_key(m)
                && other.table().contains_key(m) && (p matches Some(s) ==> path matches Some(q) && s@
                == q@) && (p is None ==> path is None),
            r matches Err(MergeError::FallbackConflict) ==> !self.overlaps(other)
                && self.spec_fallback().spec_merge(other.spec_fallback()) is None,
            r is Ok <==> !self.overlaps(other) && self.spec_fallback().spec_merge(
                other.spec_fallback(),
            ) is Some,
            r matches Ok(merged) ==> merged.wf() && merged.table() == self.table().union_prefer_right(
                other.table(),
            ) && Some(merged.spec_fallback()) == self.spec_fallback().spec_merge(
                other.spec_fallback(),
            ),
            r is Ok <==> merge_views(self@, other@) is Some,
            r matches Ok(merged) ==> Some(merged@) == merge_views(self@, other@),
    {
        if let Some(method) = self.first_overlap(&other) {
            let p = match path {
                Some(s) => Some(s.to_owned()),
                None => None,
            };
            return Err(MergeError::Overlap { method, path: p });
        }
        let ghost a = self.mapping@;
        let ghost b = other.mapping@;
        proof {
            assert forall|i: int, j: int| 0 <= i < a.len() && 0 <= j < b.len() implies a[i].0
                != b[j].0 by {
                lemma_table_at(a, i);
                lemma_table_at(b, j);
                if a[i].0 == b[j].0 {
                    let m = a[i].0;
                    assert(self.table().contains_key(m) && other.table().contains_key(m));
                }
            }
        }
        let MethodRouter { mapping: mut mapping, fallback } = self;
        let MethodRouter { mapping: mut extra, fallback: other_fallback } = other;
        mapping.append(&mut extra);
        proof {
            assert(mapping@ =~= a + b);
            lemma_table_append(a, b);
            assert forall|i: int, j: int| 0 <= i < j < mapping@.len() implies mapping@[i].0
                != mapping@[j].0 by {
                if j >= a.len() && i < a.len() {
                    assert(mapping@[j] == b[j - a.len()]);
                } else if i >= a.len() {
                    assert(mapping@[j] == b[j - a.len()] && mapping@[i] == b[i - a.len()]);
                }
            }
        }
        match fallback.merge(other_fallback) {
            Some(f) => Ok(MethodRouter { mapping, fallback: f }),
            None => Err(MergeError::FallbackConflict),
        }
    }
}

/// A HEAD request goes to the GET route when no HEAD route is registered, and
/// to the HEAD route when one is.
pub proof fn lemma_head_uses_get<H>(r: MethodRouter<H>)
    ensures
        r.table().contains_key(Method::Get) && !r.table().contains_key(Method::Head) ==> r.resolve(
            Method::Head,
        ) == r.table()[Method::Get],
        r.table().contains_key(Method::Head) ==> r.resolve(Method::Head) == r.table()[Method::Head],
{
}

/// Two fallbacks that give the same result whichever side of a merge each is on.
pub open spec fn fallbacks_commute<H>(a: Fallback<H>, b: Fallback<H>) -> bool {
    &&& !(a is Service && b is Service)
    &&& (a is Default && b is Default ==> a == b)
}

/// Merging method routers with disjoint methods and commuting fallbacks gives
/// the same method table and fallback in either order; merging a third one
/// into the result does too.
pub proof fn lemma_merge_order<H>(
    e: (Map<Method, Route<H>>, Fallback<H>),
    a: (Map<Method, Route<H>>, Fallback<H>),
    b: (Map<Method, Route<H>>, Fallback<H>),
)
    requires
        forall|m: Method| !(a.0.contains_key(m) && b.0.contains_key(m)),
        fallbacks_commute(a.1, b.1),
    ensures
        merge_views(a, b) == merge_views(b, a),
        merge_views(a, b) is Some,
        (match merge_views(e, a) {
            Some(x) => merge_views(x, b),
            None => None,
        }) == (match merge_views(e, b) {
            Some(y) => merge_views(y, a),
            None => None,
        }),
{
    assert(a.0.union_prefer_right(b.0) =~= b.0.union_prefer_right(a.0));
    let ea = merge_views(e, a);
    let eb = merge_views(e, b);
    if ea is Some && eb is Some {
        let x = ea->Some_0;
        let y = eb->Some_0;
        assert(x.0.union_prefer_right(b.0) =~= y.0.union_prefer_right(a.0));
        if exists|m: Method| x.0.contains_key(m) && b.0.contains_key(m) {
            let m = choose|m: Method| x.0.contains_key(m) && b.0.contains_key(m);
            assert(e.0.contains_key(m) && b.0.contains_key(m));
        }
        if exists|m: Method| y.0.contains_key(m) && a.0.contains_key(m) {
            let m = choose|m: Method| y.0.contains_key(m) && a.0.contains_key(m);
            assert(e.0.contains_key(m) && a.0.contains_key(m));
        }
    } else if ea is Some {
        let x = ea->Some_0;
        if exists|m: Method| e.0.contains_key(m) && b.0.contains_key(m) {
            let m = choose|m: Method| e.0.contains_key(m) && b.0.contains_key(m);
            assert(x.0.contains_key(m) && b.0.contains_key(m));
        }
    } else if eb is Some {
        let y = eb->Some_0;
        if exists|m: Method| e.0.contains_key(m) && a.0.contains_key(m) {
            let m = choose|m: Method| e.0.contains_key(m) && a.0.contains_key(m);
            assert(y.0.contains_key(m) && a.0.contains_key(m));
        }
    }
}

/// Merging two well-formed method routers for a path, with no method in both
/// and not both with a fallback of their own, succeeds in either order and
/// gives the same method table and fallback.
pub proof fn lemma_merge_for_path_order<H>(a: MethodRouter<H>, b: MethodRouter<H>)
    requires
        a.wf(),
        b.wf(),
        !a.overlaps(b),
        !(a.spec_fallback() is Service && b.spec_fallback() is Service),
    ensures
        merge_views(a@, b@) is Some,
        merge_views(a@, b@) == merge_views(b@, a@),
{
    a.lemma_default_fallback();
    b.lemma_default_fallback();
    lemma_merge_order(a@, a@, b@);
}

/// After `on` registers a method, the method is in the table, so a second
/// `on` for it is outside `on`'s precondition: one route per method.
pub proof fn lemma_registered_method_refused<H>(r: MethodRouter<H>, m: Method, h: H, after: MethodRouter<H>)
    requires
        after.table() == r.table().insert(m, Route::Service(h)),
    ensures
        after.table().contains_key(m),
{
}

/// A method router with `handler` registered for GET.
pub fn get<H>(handler: H) -> (r: MethodRouter<H>)
    ensures
        r.wf(),
        r.table() == map![Method::Get => Route::Service(handler)],
        r.spec_fallback() == Fallback::Default(Route::<H>::Status(StatusCode(METHOD_NOT_ALLOWED))),
{
    let r = MethodRouter::new().get(handler);
    assert(r.table() =~= map![Method::Get => Route::Service(handler)]);
    r
}

/// A method router with `handler` registered for POST.
pub fn post<H>(handler: H) -> (r: MethodRouter<H>)
    ensures
        r.wf(),
        r.table() == map![Method::Post => Route::Service(handler)],
        r.spec_fallback() == Fallback::Default(Route::<H>::Status(StatusCode(METHOD_NOT_ALLOWED))),
{
    let r = MethodRouter::new().post(handler);
    assert(r.table() =~= map![Method::Post => Route::Service(handler)]);
    r
}

} // verus!
