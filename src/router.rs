use vstd::prelude::*;
use vstd::string::{StrSliceExecFns, StringExecFns};

verus! {

/// One segment of a route pattern.
pub enum Segment {
    /// Matches exactly this text.
    Literal(String),
    /// Captures one path segment under this name.
    Param(String),
    /// Captures all remaining segments, possibly none, under this name; last only.
    Wildcard(String),
}

/// The mathematical value of a `Segment`.
pub enum SegView {
    Literal(Seq<char>),
    Param(Seq<char>),
    Wildcard(Seq<char>),
}

impl View for Segment {
    type V = SegView;

    open spec fn view(&self) -> SegView {
        match self {
            Segment::Literal(s) => SegView::Literal(s@),
            Segment::Param(s) => SegView::Param(s@),
            Segment::Wildcard(s) => SegView::Wildcard(s@),
        }
    }
}

impl Segment {
    /// A copy of this segment.
    pub fn duplicate(&self) -> (r: Segment)
        ensures
            r@ == self@,
    {
        match self {
            Segment::Literal(s) => Segment::Literal(s.clone()),
            Segment::Param(s) => Segment::Param(s.clone()),
            Segment::Wildcard(s) => Segment::Wildcard(s.clone()),
        }
    }
}

/// The values of a sequence of segments.
pub open spec fn seg_views(p: Seq<Segment>) -> Seq<SegView> {
    p.map_values(|s: Segment| s@)
}

/// The values of a sequence of strings.
pub open spec fn str_views(p: Seq<String>) -> Seq<Seq<char>> {
    p.map_values(|s: String| s@)
}

/// A wildcard may stand only as the last segment of a pattern.
pub open spec fn valid_pattern(p: Seq<SegView>) -> bool {
    forall|i: int| 0 <= i < p.len() - 1 ==> !(#[trigger] p[i] is Wildcard)
}

/// The pattern ends in a wildcard.
pub open spec fn ends_in_wildcard(p: Seq<SegView>) -> bool {
    p.len() > 0 && p.last() is Wildcard
}

/// Segment pattern `p` accepts path segment `s`.
pub open spec fn seg_fits(p: SegView, s: Seq<char>) -> bool {
    match p {
        SegView::Literal(l) => l == s,
        _ => true,
    }
}

/// Pattern `p` matches the path made of `path`'s segments.
pub open spec fn fits(p: Seq<SegView>, path: Seq<Seq<char>>) -> bool {
    if ends_in_wildcard(p) {
        p.len() - 1 <= path.len() && forall|i: int| 0 <= i < p.len() - 1 ==> seg_fits(
            #[trigger] p[i],
            path[i],
        )
    } else {
        p.len() == path.len() && forall|i: int| 0 <= i < p.len() ==> seg_fits(#[trigger] p[i], path[i])
    }
}

/// How specific pattern `p` is at depth `i`: a literal before a parameter, a parameter
/// before the end of a pattern, the end before a wildcard.
pub open spec fn rank(p: Seq<SegView>, i: int) -> nat {
    if 0 <= i < p.len() {
        match p[i] {
            SegView::Literal(_) => 0,
            SegView::Param(_) => 1,
            SegView::Wildcard(_) => 3,
        }
    } else {
        2
    }
}

/// `a` is more specific than `b` from depth `i` on: at the first depth where their ranks
/// differ, `a` has the smaller one.
pub open spec fn better_from(a: Seq<SegView>, b: Seq<SegView>, i: nat) -> bool
    decreases a.len() + b.len() - i,
{
    if rank(a, i as int) != rank(b, i as int) {
        rank(a, i as int) < rank(b, i as int)
    } else if i >= a.len() && i >= b.len() {
        false
    } else {
        better_from(a, b, i + 1)
    }
}

/// `a` is more specific than `b`.
pub open spec fn better(a: Seq<SegView>, b: Seq<SegView>) -> bool {
    better_from(a, b, 0)
}

/// `a` and `b` have the same rank at every depth.
pub open spec fn same_shape(a: Seq<SegView>, b: Seq<SegView>) -> bool {
    forall|i: int| rank(a, i) == rank(b, i)
}

/// `path` joined with `/` between segments.
pub open spec fn joined(path: Seq<Seq<char>>) -> Seq<char>
    decreases path.len(),
{
    if path.len() == 0 {
        Seq::empty()
    } else if path.len() == 1 {
        path[0]
    } else {
        joined(path.drop_last()) + seq!['/'] + path.last()
    }
}

/// What pattern segment `i` of `p` captures from `path`: nothing for a literal, one
/// segment for a parameter, the rest of the path joined for a wildcard.
pub open spec fn capture_at(p: Seq<SegView>, path: Seq<Seq<char>>, i: int) -> Option<Seq<char>> {
    match p[i] {
        SegView::Literal(_) => None,
        SegView::Param(_) => Some(path[i]),
        SegView::Wildcard(_) => Some(joined(path.subrange(i, path.len() as int))),
    }
}

/// The captures of `p` on `path`, one entry per pattern segment.
pub open spec fn captures(p: Seq<SegView>, path: Seq<Seq<char>>) -> Seq<Option<Seq<char>>> {
    Seq::new(p.len(), |i: int| capture_at(p, path, i))
}

/// Being more specific is transitive.
pub proof fn lemma_better_from_transitive(a: Seq<SegView>, b: Seq<SegView>, c: Seq<SegView>, i: nat)
    requires
        better_from(a, b, i),
        better_from(b, c, i),
    ensures
        better_from(a, c, i),
    decreases a.len() + b.len() + c.len() + 1 - i,
{
    if rank(a, i as int) == rank(b, i as int) && rank(b, i as int) == rank(c, i as int) {
        lemma_better_from_transitive(a, b, c, i + 1);
    }
}

/// If `x` is more specific than `y` and `z` is not, then `x` is more specific than `z`.
pub proof fn lemma_better_from_negative_transitive(x: Seq<SegView>, y: Seq<SegView>, z: Seq<SegView>, i: nat)
    requires
        better_from(x, y, i),
        !better_from(z, y, i),
    ensures
        better_from(x, z, i),
    decreases x.len() + y.len() + z.len() + 1 - i,
{
    if rank(x, i as int) == rank(y, i as int) && rank(y, i as int) == rank(z, i as int) {
        lemma_better_from_negative_transitive(x, y, z, i + 1);
    }
}

/// No pattern is more specific than itself.
pub proof fn lemma_better_from_irreflexive(a: Seq<SegView>, i: nat)
    ensures
        !better_from(a, a, i),
    decreases a.len() + a.len() - i,
{
    if !(i >= a.len()) {
        lemma_better_from_irreflexive(a, i + 1);
    }
}

/// Where two patterns agree in rank up to depth `d` and differ there, the one with the
/// smaller rank at `d` is the more specific.
pub proof fn lemma_better_at(a: Seq<SegView>, b: Seq<SegView>, d: nat, i: nat)
    requires
        i <= d,
        forall|k: int| i <= k < d ==> rank(a, k) == rank(b, k),
        rank(a, d as int) < rank(b, d as int),
    ensures
        better_from(a, b, i),
    decreases d - i,
{
    if i < d {
        lemma_better_at(a, b, d, i + 1);
    }
}

/// A route: the method it answers, a pattern, the middleware bound to it, in order, and its
/// goal handler.
pub struct Route {
    pub method: String,
    pub pattern: Vec<Segment>,
    pub hoops: Vec<usize>,
    pub goal: usize,
}

/// The mathematical value of a `Route`.
pub struct RouteView {
    pub method: Seq<char>,
    pub pattern: Seq<SegView>,
    pub hoops: Seq<usize>,
    pub goal: usize,
}

impl View for Route {
    type V = RouteView;

    open spec fn view(&self) -> RouteView {
        RouteView { method: self.method@, pattern: seg_views(self.pattern@), hoops: self.hoops@, goal: self.goal }
    }
}

/// `child` placed under a parent node: the parent's pattern comes first, and the parent's
/// middleware run before the child's, which they wrap.
pub fn nest(prefix: &Vec<Segment>, prefix_hoops: &Vec<usize>, child: Route) -> (r: Route)
    ensures
        r@ == (RouteView {
            method: child@.method,
            pattern: seg_views(prefix@) + child@.pattern,
            hoops: prefix_hoops@ + child@.hoops,
            goal: child@.goal,
        }),
{
    let mut pattern: Vec<Segment> = Vec::new();
    let mut i: usize = 0;
    while i < prefix.len()
        invariant
            i <= prefix.len(),
            seg_views(pattern@) =~= seg_views(prefix@).subrange(0, i as int),
        decreases prefix.len() - i,
    {
        let ghost prior = pattern@;
        let seg = prefix[i].duplicate();
        pattern.push(seg);
        assert(seg_views(pattern@) =~= seg_views(prior).push(seg@));
        assert(seg_views(prefix@).subrange(0, i as int + 1) =~= seg_views(prefix@).subrange(0, i as int).push(seg@));
        i = i + 1;
    }
    let mut j: usize = 0;
    while j < child.pattern.len()
        invariant
            j <= child.pattern.len(),
            seg_views(pattern@) =~= seg_views(prefix@) + seg_views(child.pattern@).subrange(0, j as int),
        decreases child.pattern.len() - j,
    {
        let ghost prior = pattern@;
        let seg = child.pattern[j].duplicate();
        pattern.push(seg);
        assert(seg_views(pattern@) =~= seg_views(prior).push(seg@));
        assert(seg_views(child.pattern@).subrange(0, j as int + 1) =~= seg_views(child.pattern@).subrange(0, j as int).push(seg@));
        j = j + 1;
    }
    assert(seg_views(child.pattern@).subrange(0, child.pattern@.len() as int) =~= seg_views(child.pattern@));
    let mut hoops: Vec<usize> = Vec::new();
    let mut k: usize = 0;
    while k < prefix_hoops.len()
        invariant
            k <= prefix_hoops.len(),
            hoops@ =~= prefix_hoops@.subrange(0, k as int),
        decreases prefix_hoops.len() - k,
    {
        hoops.push(prefix_hoops[k]);
        k = k + 1;
    }
    let mut m: usize = 0;
    while m < child.hoops.len()
        invariant
            m <= child.hoops.len(),
            hoops@ =~= prefix_hoops@ + child.hoops@.subrange(0, m as int),
        decreases child.hoops.len() - m,
    {
        hoops.push(child.hoops[m]);
        m = m + 1;
    }
    assert(child.hoops@.subrange(0, child.hoops@.len() as int) =~= child.hoops@);
    Route { method: child.method, pattern, hoops, goal: child.goal }
}

/// Why a route was refused.
#[derive(PartialEq, Eq, Structural, Debug, Clone, Copy)]
pub enum RouteError {
    /// A wildcard stands before the last segment.
    MisplacedWildcard,
}

/// A successful match: which route, and what each of its pattern segments captured.
pub struct RouteMatch {
    pub route: usize,
    pub captures: Vec<Option<String>>,
}

/// The values of a sequence of optional strings.
pub open spec fn opt_views(s: Seq<Option<String>>) -> Seq<Option<Seq<char>>> {
    s.map_values(|o: Option<String>| match o {
        Some(v) => Some(v@),
        None => None,
    })
}

/// Route `r` answers `method` and its pattern fits `path`.
pub open spec fn serves(r: RouteView, method: Seq<char>, path: Seq<Seq<char>>) -> bool {
    r.method == method && fits(r.pattern, path)
}

/// Route `k` of `routes` serves the request and no route that serves it is more specific.
pub open spec fn is_best(routes: Seq<RouteView>, method: Seq<char>, path: Seq<Seq<char>>, k: int) -> bool {
    &&& 0 <= k < routes.len()
    &&& serves(routes[k], method, path)
    &&& forall|j: int| 0 <= j < routes.len() && serves(#[trigger] routes[j], method, path)
        ==> !better(routes[j].pattern, routes[k].pattern)
}

/// Route `k` is the one a lookup picks: a most specific route that serves the request, and
/// more specific than every such route added before it.
pub open spec fn is_chosen(routes: Seq<RouteView>, method: Seq<char>, path: Seq<Seq<char>>, k: int) -> bool {
    &&& is_best(routes, method, path, k)
    &&& forall|j: int| 0 <= j < k && serves(#[trigger] routes[j], method, path)
        ==> better(routes[k].pattern, routes[j].pattern)
}

/// Some route of `routes` serves the request.
pub open spec fn any_serves(routes: Seq<RouteView>, method: Seq<char>, path: Seq<Seq<char>>) -> bool {
    exists|j: int| 0 <= j < routes.len() && serves(#[trigger] routes[j], method, path)
}

/// The rank of segment `i` of `p`, as `rank` gives it.
fn rank_of(p: &Vec<Segment>, i: usize) -> (r: u8)
    ensures
        r as nat == rank(seg_views(p@), i as int),
{
    if i < p.len() {
        match &p[i] {
            Segment::Literal(_) => 0,
            Segment::Param(_) => 1,
            Segment::Wildcard(_) => 3,
        }
    } else {
        2
    }
}

/// Whether pattern `a` is more specific than pattern `b`.
pub fn is_better(a: &Vec<Segment>, b: &Vec<Segment>) -> (r: bool)
    ensures
        r == better(seg_views(a@), seg_views(b@)),
{
    let mut i: usize = 0;
    loop
        invariant
            i <= a.len() || i <= b.len(),
            better(seg_views(a@), seg_views(b@)) == better_from(seg_views(a@), seg_views(b@), i as nat),
        decreases a.len() + b.len() - i,
    {
        let ra = rank_of(a, i);
        let rb = rank_of(b, i);
        if ra != rb {
            return ra < rb;
        }
        if i >= a.len() && i >= b.len() {
            return false;
        }
        i = i + 1;
    }
}

/// Whether pattern `p` matches the path made of `path`'s segments.
pub fn fits_path(p: &Vec<Segment>, path: &Vec<String>) -> (r: bool)
    ensures
        r == fits(seg_views(p@), str_views(path@)),
{
    let n = p.len();
    let wild = n > 0 && matches!(p[n - 1], Segment::Wildcard(_));
    let fixed: usize = if wild { n - 1 } else { n };
    if wild && fixed > path.len() {
        return false;
    }
    if !wild && fixed != path.len() {
        return false;
    }
    let mut i: usize = 0;
    while i < fixed
        invariant
            fixed <= path.len(),
            fixed <= n == p.len(),
            wild == ends_in_wildcard(seg_views(p@)),
            fixed == if wild { n - 1 } else { n as int },
            forall|k: int| 0 <= k < i ==> seg_fits(#[trigger] seg_views(p@)[k], str_views(path@)[k]),
        decreases fixed - i,
    {
        let ok = match &p[i] {
            Segment::Literal(l) => *l == path[i],
            _ => true,
        };
        if !ok {
            assert(!seg_fits(seg_views(p@)[i as int], str_views(path@)[i as int]));
            return false;
        }
        i = i + 1;
    }
    true
}

/// The segments of `path` from `start` on, joined with `/`.
fn join_from(path: &Vec<String>, start: usize) -> (r: String)
    requires
        start <= path.len(),
    ensures
        r@ == joined(str_views(path@).subrange(start as int, path@.len() as int)),
{
    let ghost v = str_views(path@);
    let mut out = String::new();
    let mut i: usize = start;
    assert(v.subrange(start as int, start as int) =~= Seq::<Seq<char>>::empty());
    while i < path.len()
        invariant
            start <= i <= path.len(),
            v == str_views(path@),
            out@ == joined(v.subrange(start as int, i as int)),
        decreases path.len() - i,
    {
        let ghost sub = v.subrange(start as int, i as int + 1);
        assert(sub.drop_last() =~= v.subrange(start as int, i as int));
        assert(sub.last() == path@[i as int]@);
        if i > start {
            proof {
                reveal_strlit("/");
            }
            out.append("/");
        } else {
            assert(sub.len() == 1);
        }
        out.append(path[i].as_str());
        i = i + 1;
    }
    out
}

/// The captures of pattern `p` on `path`, one entry per pattern segment.
fn capture_values(p: &Vec<Segment>, path: &Vec<String>) -> (r: Vec<Option<String>>)
    requires
        fits(seg_views(p@), str_views(path@)),
        valid_pattern(seg_views(p@)),
    ensures
        opt_views(r@) == captures(seg_views(p@), str_views(path@)),
{
    let ghost pv = seg_views(p@);
    let ghost sv = str_views(path@);
    let mut out: Vec<Option<String>> = Vec::new();
    let mut i: usize = 0;
    while i < p.len()
        invariant
            i <= p.len(),
            pv == seg_views(p@),
            sv == str_views(path@),
            fits(pv, sv),
            valid_pattern(pv),
            out@.len() == i,
            forall|k: int| 0 <= k < i ==> #[trigger] opt_views(out@)[k] == capture_at(pv, sv, k),
        decreases p.len() - i,
    {
        assert(pv[i as int] == p@[i as int]@);
        let c: Option<String> = match &p[i] {
            Segment::Literal(_) => None,
            Segment::Param(_) => {
                assert(!ends_in_wildcard(pv) || i < p.len() - 1);
                let v = path[i].clone();
                assert(v@ == sv[i as int]);
                Some(v)
            },
            Segment::Wildcard(_) => {
                assert(i == p.len() - 1);
                Some(join_from(path, i))
            },
        };
        let ghost cv: Option<Seq<char>> = match &c {
            Some(v) => Some(v@),
            None => None,
        };
        assert(cv == capture_at(pv, sv, i as int));
        let ghost out0 = out@;
        out.push(c);
        assert(opt_views(out@)[i as int] == cv);
        assert forall|k: int| 0 <= k < i + 1 implies #[trigger] opt_views(out@)[k] == capture_at(pv, sv, k) by {
            if k < i {
                assert(out@[k] == out0[k]);
                assert(opt_views(out0)[k] == capture_at(pv, sv, k));
            }
        }
        i = i + 1;
    }
    assert(opt_views(out@) =~= captures(pv, sv));
    out
}

/// A table of routes, tried by specificity.
pub struct Router {
    routes: Vec<Route>,
}

impl View for Router {
    type V = Seq<RouteView>;

    closed spec fn view(&self) -> Seq<RouteView> {
        self.routes@.map_values(|r: Route| r@)
    }
}

impl Router {
    /// Every pattern of the table is valid.
    pub open spec fn wf(&self) -> bool {
        forall|k: int| 0 <= k < self@.len() ==> valid_pattern(#[trigger] self@[k].pattern)
    }

    /// A router with no routes.
    pub fn new() -> (r: Router)
        ensures
            r.wf(),
            r@ == Seq::<RouteView>::empty(),
    {
        let r = Router { routes: Vec::new() };
        assert(r@ =~= Seq::<RouteView>::empty());
        r
    }

    /// Number of routes.
    pub fn len(&self) -> (r: usize)
        ensures
            r == self@.len(),
    {
        self.routes.len()
    }

    /// Adds a route and returns its index, unless a wildcard stands before the last segment.
    pub fn add(&mut self, route: Route) -> (r: Result<usize, RouteError>)
        requires
            old(self).wf(),
        ensures
            final(self).wf(),
            valid_pattern(route@.pattern) ==> r == Ok::<usize, RouteError>(old(self)@.len() as usize)
                && final(self)@ == old(self)@.push(route@),
            !valid_pattern(route@.pattern) ==> r == Err::<usize, RouteError>(RouteError::MisplacedWildcard)
                && final(self)@ == old(self)@,
    {
        let n = route.pattern.len();
        let mut i: usize = 0;
        while n > 0 && i < n - 1
            invariant
                n == route.pattern.len(),
                i <= n,
                self.wf(),
                self@ == old(self)@,
                forall|k: int| 0 <= k < i ==> !(#[trigger] seg_views(route.pattern@)[k] is Wildcard),
            decreases n - i,
        {
            if matches!(route.pattern[i], Segment::Wildcard(_)) {
                assert(seg_views(route.pattern@)[i as int] is Wildcard);
                return Err(RouteError::MisplacedWildcard);
            }
            i = i + 1;
        }
        let k = self.routes.len();
        let ghost before = self@;
        let ghost rv = route@;
        self.routes.push(route);
        assert(self@ =~= before.push(rv));
        Ok(k)
    }

    /// The route at index `k`.
    pub fn route(&self, k: usize) -> (r: &Route)
        requires
            k < self@.len(),
        ensures
            r@ == self@[k as int],
    {
        &self.routes[k]
    }

    /// The most specific route that answers `method` and fits `path`, the earliest added
    /// among equally specific ones, with its captures; `None` when no route serves it.
    pub fn find(&self, method: &String, path: &Vec<String>) -> (r: Option<RouteMatch>)
        requires
            self.wf(),
        ensures
            r is None <==> !any_serves(self@, method@, str_views(path@)),
            r matches Some(m) ==> is_chosen(self@, method@, str_views(path@), m.route as int)
                && opt_views(m.captures@) == captures(
                self@[m.route as int].pattern,
                str_views(path@),
            ),
    {
        let ghost sv = str_views(path@);
        let mut best: Option<usize> = None;
        let mut i: usize = 0;
        while i < self.routes.len()
            invariant
                i <= self.routes.len(),
                self@.len() == self.routes.len(),
                sv == str_views(path@),
                best is None <==> (forall|j: int| 0 <= j < i ==> !serves(#[trigger] self@[j], method@, sv)),
                best matches Some(b) ==> b < i && serves(self@[b as int], method@, sv) && forall|j: int|
                    0 <= j < i && serves(#[trigger] self@[j], method@, sv) ==> !better(
                        self@[j].pattern,
                        self@[b as int].pattern,
                    ) && forall|j: int| 0 <= j < b && serves(#[trigger] self@[j], method@, sv) ==> better(
                        self@[b as int].pattern,
                        self@[j].pattern,
                    ),
            decreases self.routes.len() - i,
        {
            assert(self.routes@[i as int]@ == self@[i as int]);
            if self.routes[i].method == *method && fits_path(&self.routes[i].pattern, path) {
                match best {
                    None => {
                        proof {
                            lemma_better_from_irreflexive(self@[i as int].pattern, 0);
                        }
                        best = Some(i);
                    },
                    Some(b) => {
                        assert(self.routes@[b as int]@ == self@[b as int]);
                        if is_better(&self.routes[i].pattern, &self.routes[b].pattern) {
                            assert forall|j: int| 0 <= j < i + 1 && serves(#[trigger] self@[j], method@, sv)
                                implies !better(self@[j].pattern, self@[i as int].pattern) by {
                                if j == i {
                                    lemma_better_from_irreflexive(self@[i as int].pattern, 0);
                                } else if better(self@[j].pattern, self@[i as int].pattern) {
                                    lemma_better_from_transitive(
                                        self@[j].pattern,
                                        self@[i as int].pattern,
                                        self@[b as int].pattern,
                                        0,
                                    );
                                }
                            }
                            assert forall|j: int| 0 <= j < i && serves(#[trigger] self@[j], method@, sv)
                                implies better(self@[i as int].pattern, self@[j].pattern) by {
                                if j < b {
                                    lemma_better_from_transitive(
                                        self@[i as int].pattern,
                                        self@[b as int].pattern,
                                        self@[j].pattern,
                                        0,
                                    );
                                } else if j > b {
                                    lemma_better_from_negative_transitive(
                                        self@[i as int].pattern,
                                        self@[b as int].pattern,
                                        self@[j].pattern,
                                        0,
                                    );
                                }
                            }
                            best = Some(i);
                        }
                    },
                }
            }
            i = i + 1;
        }
        match best {
            None => None,
            Some(b) => {
                assert(self.routes@[b as int]@ == self@[b as int]);
                let captures = capture_values(&self.routes[b].pattern, path);
                Some(RouteMatch { route: b, captures })
            },
        }
    }
}

/// Lookup is deterministic: on one table and one path, at most one route is the chosen one.
pub proof fn lemma_chosen_unique(
    routes: Seq<RouteView>,
    method: Seq<char>,
    path: Seq<Seq<char>>,
    k1: int,
    k2: int,
)
    requires
        is_chosen(routes, method, path, k1),
        is_chosen(routes, method, path, k2),
    ensures
        k1 == k2,
{
    if k1 < k2 {
        assert(serves(routes[k1], method, path));
    } else if k2 < k1 {
        assert(serves(routes[k2], method, path));
    }
}

/// A literal outranks a parameter at the same depth: where two routes serve a request, agree
/// in rank above depth `d`, and the first has a literal at `d` where the second has a
/// parameter, the second is never the most specific.
pub proof fn lemma_literal_beats_param(
    routes: Seq<RouteView>,
    method: Seq<char>,
    path: Seq<Seq<char>>,
    a: int,
    b: int,
    d: int,
)
    requires
        0 <= a < routes.len(),
        0 <= b < routes.len(),
        serves(routes[a], method, path),
        0 <= d < routes[a].pattern.len(),
        d < routes[b].pattern.len(),
        forall|k: int| 0 <= k < d ==> rank(routes[a].pattern, k) == rank(routes[b].pattern, k),
        routes[a].pattern[d] is Literal,
        routes[b].pattern[d] is Param,
    ensures
        better(routes[a].pattern, routes[b].pattern),
        !is_best(routes, method, path, b),
{
    lemma_better_at(routes[a].pattern, routes[b].pattern, d as nat, 0);
}

/// A trailing wildcard fits a path whatever remains after the fixed segments, none or
/// many, and captures exactly that remainder joined with `/` (empty when none remains).
pub proof fn lemma_wildcard_takes_rest(p: Seq<SegView>, prefix: Seq<Seq<char>>, rest: Seq<Seq<char>>)
    requires
        valid_pattern(p),
        ends_in_wildcard(p),
        prefix.len() == p.len() - 1,
        forall|i: int| 0 <= i < prefix.len() ==> seg_fits(#[trigger] p[i], prefix[i]),
    ensures
        fits(p, prefix + rest),
        captures(p, prefix + rest)[p.len() - 1] == Some(joined(rest)),
        rest.len() == 0 ==> captures(p, prefix + rest)[p.len() - 1] == Some(Seq::<char>::empty()),
{
    let path = prefix + rest;
    assert forall|i: int| 0 <= i < p.len() - 1 implies seg_fits(#[trigger] p[i], path[i]) by {
        assert(path[i] == prefix[i]);
    }
    assert(path.subrange(p.len() - 1, path.len() as int) =~= rest);
    assert(p[p.len() - 1] is Wildcard);
}

/// The segments completed so far and the one in progress, after reading the text `s` of a
/// path: a `/` ends the segment in progress, and an empty one is dropped.
pub open spec fn split_state(s: Seq<char>) -> (Seq<Seq<char>>, Seq<char>)
    decreases s.len(),
{
    if s.len() == 0 {
        (Seq::empty(), Seq::empty())
    } else {
        let prev = split_state(s.drop_last());
        if s.last() == '/' {
            if prev.1.len() > 0 {
                (prev.0.push(prev.1), Seq::empty())
            } else {
                (prev.0, Seq::empty())
            }
        } else {
            (prev.0, prev.1.push(s.last()))
        }
    }
}

/// The non-empty segments of path text `s`, between its `/` separators, in order.
pub open spec fn path_segments(s: Seq<char>) -> Seq<Seq<char>> {
    let st = split_state(s);
    if st.1.len() > 0 {
        st.0.push(st.1)
    } else {
        st.0
    }
}

/// Splits a request path into its non-empty segments.
pub fn split_path(path: &str) -> (r: Vec<String>)
    ensures
        str_views(r@) == path_segments(path@),
{
    let ghost s = path@;
    let n = path.unicode_len();
    let mut out: Vec<String> = Vec::new();
    let mut start: usize = 0;
    let mut i: usize = 0;
    while i < n
        invariant
            n == s.len(),
            s == path@,
            start <= i <= n,
            split_state(s.subrange(0, i as int)) == (str_views(out@), s.subrange(start as int, i as int)),
        decreases n - i,
    {
        let c = path.get_char(i);
        let ghost pre = s.subrange(0, i as int);
        let ghost next = s.subrange(0, i as int + 1);
        assert(next.drop_last() =~= pre);
        assert(next.last() == c);
        if c == '/' {
            if i > start {
                let seg = String::from_str(path.substring_char(start, i));
                let ghost out0 = out@;
                out.push(seg);
                assert(str_views(out@) =~= str_views(out0).push(seg@));
            } else {
                assert(s.subrange(start as int, i as int).len() == 0);
            }
            start = i + 1;
            assert(s.subrange(start as int, i as int + 1) =~= Seq::<char>::empty());
        } else {
            assert(s.subrange(start as int, i as int + 1) =~= s.subrange(start as int, i as int).push(c));
        }
        i = i + 1;
    }
    assert(s.subrange(0, n as int) =~= s);
    if start < n {
        let seg = String::from_str(path.substring_char(start, n));
        let ghost out0 = out@;
        out.push(seg);
        assert(str_views(out@) =~= str_views(out0).push(seg@));
    }
    out
}

} // verus!
