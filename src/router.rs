use sequence_trie::SequenceTrie;
use vstd::prelude::*;
use vstd::string::*;

verus! {

/// One segment of a command route: a fixed token or a named placeholder.
#[derive(PartialEq, Eq, Clone, Copy, Hash, Debug)]
pub enum RouteSegment {
    Literal(&'static str),
    Variable(&'static str),
}

/// The mathematical value of a route segment.
pub enum SegmentView {
    Literal(Seq<char>),
    Variable(Seq<char>),
}

impl View for RouteSegment {
    type V = SegmentView;

    open spec fn view(&self) -> SegmentView {
        match self {
            RouteSegment::Literal(s) => SegmentView::Literal(s@),
            RouteSegment::Variable(s) => SegmentView::Variable(s@),
        }
    }
}

pub open spec fn segs_view(s: Seq<RouteSegment>) -> Seq<SegmentView> {
    s.map_values(|x: RouteSegment| x@)
}

pub open spec fn toks_view(s: Seq<&str>) -> Seq<Seq<char>> {
    s.map_values(|x: &str| x@)
}

/// Whether a segment accepts a concrete token.
pub open spec fn accepts(seg: SegmentView, tok: Seq<char>) -> bool {
    match seg {
        SegmentView::Literal(l) => l == tok,
        SegmentView::Variable(_) => true,
    }
}

pub open spec fn is_literal(seg: SegmentView) -> bool {
    seg is Literal
}

/// A route matches a token path when it has the same length and each of its
/// segments accepts the token at its position.
pub open spec fn route_matches(route: Seq<SegmentView>, toks: Seq<Seq<char>>) -> bool {
    &&& route.len() == toks.len()
    &&& forall|i: int| 0 <= i < route.len() ==> #[trigger] accepts(route[i], toks[i])
}

/// The value of one binary digit at position `n`, counted from the right.
pub open spec fn place(n: nat) -> nat
    decreases n,
{
    if n == 0 {
        1
    } else {
        2 * place((n - 1) as nat)
    }
}

/// Specificity of a route: its literal positions read as a binary number, the
/// first segment most significant. Between two routes of one length, the one
/// with a literal at the first position where they differ in kind ranks higher.
pub open spec fn specificity(route: Seq<SegmentView>) -> nat
    decreases route.len(),
{
    if route.len() == 0 {
        0
    } else {
        (if is_literal(route[0]) { place((route.len() - 1) as nat) } else { 0 })
            + specificity(route.drop_first())
    }
}

pub open spec fn has_prefix(route: Seq<SegmentView>, prefix: Seq<SegmentView>) -> bool {
    prefix.len() <= route.len() && route.subrange(0, prefix.len() as int) == prefix
}

/// `route` is a registered route that matches `toks`, and every other
/// registered route that matches `toks` ranks below it.
pub open spec fn is_best_route<H>(
    table: Map<Seq<SegmentView>, H>,
    toks: Seq<Seq<char>>,
    route: Seq<SegmentView>,
) -> bool {
    &&& table.contains_key(route)
    &&& route_matches(route, toks)
    &&& forall|q: Seq<SegmentView>|
        table.contains_key(q) && route_matches(q, toks) && q != route ==> ranks_below(q, route)
}

/// Text order: by character code at the first difference, a proper prefix first.
pub open spec fn text_before(s: Seq<char>, t: Seq<char>) -> bool
    decreases s.len(),
{
    if s.len() == 0 {
        t.len() > 0
    } else if t.len() == 0 {
        false
    } else if s[0] != t[0] {
        (s[0] as int) < (t[0] as int)
    } else {
        text_before(s.drop_first(), t.drop_first())
    }
}

/// Segment order: a literal before a variable, and within a kind by text.
pub open spec fn seg_before(x: SegmentView, y: SegmentView) -> bool {
    match (x, y) {
        (SegmentView::Literal(l), SegmentView::Literal(m)) => text_before(l, m),
        (SegmentView::Literal(_), SegmentView::Variable(_)) => true,
        (SegmentView::Variable(_), SegmentView::Literal(_)) => false,
        (SegmentView::Variable(m), SegmentView::Variable(n)) => text_before(m, n),
    }
}

/// Route order: by segment at the first position where two routes differ.
pub open spec fn route_before(a: Seq<SegmentView>, b: Seq<SegmentView>) -> bool
    decreases a.len(),
{
    if a.len() == 0 || b.len() == 0 {
        false
    } else if a[0] != b[0] {
        seg_before(a[0], b[0])
    } else {
        route_before(a.drop_first(), b.drop_first())
    }
}

/// Route `q` ranks below route `p`: it is less specific, or as specific and
/// after `p` in route order. Among routes that match one token path, equally
/// specific routes differ only in variable names, so the first differing
/// variable name decides between them.
pub open spec fn ranks_below(q: Seq<SegmentView>, p: Seq<SegmentView>) -> bool {
    ||| specificity(q) < specificity(p)
    ||| specificity(q) == specificity(p) && route_before(p, q)
}

/// The variable bindings that a route produces for a token path of the same
/// length: each variable's name with the token at its position, in route order.
pub open spec fn bindings_of(route: Seq<SegmentView>, toks: Seq<Seq<char>>) -> Seq<(Seq<char>, Seq<char>)>
    decreases route.len(),
{
    if route.len() == 0 || toks.len() == 0 {
        seq![]
    } else {
        let rest = bindings_of(route.drop_last(), toks.drop_last());
        match route.last() {
            SegmentView::Variable(name) => rest.push((name, toks.last())),
            SegmentView::Literal(_) => rest,
        }
    }
}

pub open spec fn pairs_view(v: Seq<(String, String)>) -> Seq<(Seq<char>, Seq<char>)> {
    v.map_values(|p: (String, String)| (p.0@, p.1@))
}

/// The route trie: segments along the edges, a handler index at the nodes
/// where a route ends. It holds a `sequence_trie::SequenceTrie` that only the
/// functions below touch, and they only insert, so its nodes are exactly the
/// prefixes of the stored keys.
#[verifier::external_body]
pub struct RouteTrie {
    inner: SequenceTrie<RouteSegment, usize>,
}

/// Some stored key continues `prefix` with `seg`.
pub open spec fn edge_from(
    entries: Map<Seq<SegmentView>, usize>,
    prefix: Seq<SegmentView>,
    seg: SegmentView,
) -> bool {
    exists|k: Seq<SegmentView>|
        #[trigger] entries.contains_key(k) && has_prefix(k, prefix) && k.len() > prefix.len()
            && k[prefix.len() as int] == seg
}

/// What a route trie holds: each registered route with its value.
pub uninterp spec fn trie_entries(t: RouteTrie) -> Map<Seq<SegmentView>, usize>;

/// Relies on `SequenceTrie::new`: a new trie holds no entries.
#[verifier::external_body]
fn trie_new() -> (r: RouteTrie)
    ensures
        trie_entries(r) =~= Map::empty(),
{
    RouteTrie { inner: SequenceTrie::new() }
}

/// Relies on `SequenceTrie::insert_owned`: the key maps to the value afterwards,
/// every other entry is kept.
#[verifier::external_body]
fn trie_insert(t: &mut RouteTrie, key: Vec<RouteSegment>, value: usize)
    ensures
        trie_entries(*final(t)) == trie_entries(*old(t)).insert(segs_view(key@), value),
{
    t.inner.insert_owned(key, value);
}

/// Relies on `SequenceTrie::get`: the value stored under exactly this key.
#[verifier::external_body]
fn trie_get(t: &RouteTrie, key: &[RouteSegment]) -> (r: Option<usize>)
    ensures
        r is Some <==> trie_entries(*t).contains_key(segs_view(key@)),
        r is Some ==> r->0 == trie_entries(*t)[segs_view(key@)],
{
    t.inner.get(key.iter()).copied()
}

/// Relies on `SequenceTrie::get_node` and `children_with_keys`: a node exists
/// for each prefix of a stored key, and its children are keyed by the segments
/// that follow that prefix in the stored keys.
#[verifier::external_body]
fn trie_children(t: &RouteTrie, prefix: &[RouteSegment]) -> (r: Vec<
    RouteSegment,
>)
    ensures
        forall|i: int|
            0 <= i < r@.len() ==> edge_from(trie_entries(*t), segs_view(prefix@), #[trigger] r@[i]@),
        forall|k: Seq<SegmentView>|
            #[trigger] trie_entries(*t).contains_key(k) && has_prefix(k, segs_view(prefix@))
                && k.len() > prefix@.len() ==> exists|i: int|
                0 <= i < r@.len() && k[prefix@.len() as int] == #[trigger] r@[i]@,
{
    t.inner.get_node(prefix.iter()).map(|n| n.children_with_keys().into_iter().map(|(k, _)| *k).collect()).unwrap_or_default()
}

proof fn lemma_specificity_bound(s: Seq<SegmentView>)
    ensures
        specificity(s) < place(s.len()),
    decreases s.len(),
{
    if s.len() > 0 {
        lemma_specificity_bound(s.drop_first());
    }
}

/// Where two routes of one length first differ in kind, the one with the
/// literal there is the more specific.
proof fn lemma_first_difference(a: Seq<SegmentView>, b: Seq<SegmentView>, i: int)
    requires
        a.len() == b.len(),
        0 <= i < a.len(),
        forall|j: int| 0 <= j < i ==> is_literal(#[trigger] a[j]) == is_literal(b[j]),
        is_literal(a[i]),
        !is_literal(b[i]),
    ensures
        specificity(a) > specificity(b),
    decreases i,
{
    if i == 0 {
        lemma_specificity_bound(b.drop_first());
    } else {
        let (ta, tb) = (a.drop_first(), b.drop_first());
        assert forall|j: int| 0 <= j < i - 1 implies is_literal(#[trigger] ta[j]) == is_literal(tb[j]) by {
            assert(ta[j] == a[j + 1] && tb[j] == b[j + 1]);
        }
        assert(is_literal(a[0]) == is_literal(b[0]));
        lemma_first_difference(ta, tb, i - 1);
    }
}

proof fn lemma_same_kinds(a: Seq<SegmentView>, b: Seq<SegmentView>)
    requires
        a.len() == b.len(),
        forall|j: int| 0 <= j < a.len() ==> is_literal(#[trigger] a[j]) == is_literal(b[j]),
    ensures
        specificity(a) == specificity(b),
    decreases a.len(),
{
    if a.len() > 0 {
        let (ta, tb) = (a.drop_first(), b.drop_first());
        assert forall|j: int| 0 <= j < ta.len() implies is_literal(#[trigger] ta[j]) == is_literal(tb[j]) by {
            assert(ta[j] == a[j + 1] && tb[j] == b[j + 1]);
        }
        assert(is_literal(a[0]) == is_literal(b[0]));
        lemma_same_kinds(ta, tb);
    }
}

proof fn lemma_text_order(s: Seq<char>, t: Seq<char>, u: Seq<char>)
    ensures
        !(text_before(s, t) && text_before(t, s)),
        text_before(s, t) && text_before(t, u) ==> text_before(s, u),
        s != t ==> text_before(s, t) || text_before(t, s),
    decreases s.len(),
{
    if s.len() > 0 && t.len() > 0 {
        if u.len() > 0 {
            lemma_text_order(s.drop_first(), t.drop_first(), u.drop_first());
        } else {
            lemma_text_order(s.drop_first(), t.drop_first(), u);
        }
        if s[0] == t[0] && s.drop_first() == t.drop_first() {
            assert(s =~= seq![s[0]] + s.drop_first());
            assert(t =~= seq![t[0]] + t.drop_first());
        }
        if s[0] != t[0] {
            assert(s[0] as int != t[0] as int);
        }
    } else if s.len() == 0 && t.len() == 0 {
        assert(s =~= t);
    }
}

proof fn lemma_seg_order(x: SegmentView, y: SegmentView, z: SegmentView)
    ensures
        !(seg_before(x, y) && seg_before(y, x)),
        seg_before(x, y) && seg_before(y, z) ==> seg_before(x, z),
        x != y ==> seg_before(x, y) || seg_before(y, x),
{
    match (x, y, z) {
        (SegmentView::Literal(a), SegmentView::Literal(b), SegmentView::Literal(c)) => lemma_text_order(a, b, c),
        (SegmentView::Variable(a), SegmentView::Variable(b), SegmentView::Variable(c)) => lemma_text_order(a, b, c),
        (SegmentView::Literal(a), SegmentView::Literal(b), SegmentView::Variable(c)) => lemma_text_order(a, b, c),
        (SegmentView::Variable(a), SegmentView::Variable(b), SegmentView::Literal(c)) => lemma_text_order(a, b, c),
        _ => {},
    }
}

proof fn lemma_route_order(a: Seq<SegmentView>, b: Seq<SegmentView>, c: Seq<SegmentView>)
    requires
        a.len() == b.len(),
        b.len() == c.len(),
    ensures
        !(route_before(a, b) && route_before(b, a)),
        route_before(a, b) && route_before(b, c) ==> route_before(a, c),
        a != b ==> route_before(a, b) || route_before(b, a),
    decreases a.len(),
{
    if a.len() > 0 {
        lemma_seg_order(a[0], b[0], c[0]);
        lemma_route_order(a.drop_first(), b.drop_first(), c.drop_first());
        if a[0] == b[0] && a.drop_first() == b.drop_first() {
            assert(a =~= seq![a[0]] + a.drop_first());
            assert(b =~= seq![b[0]] + b.drop_first());
        }
    } else {
        assert(a =~= b);
    }
}

/// Ranking is a strict total order on the routes of one length.
proof fn lemma_rank_order(a: Seq<SegmentView>, b: Seq<SegmentView>, c: Seq<SegmentView>)
    requires
        a.len() == b.len(),
        b.len() == c.len(),
    ensures
        !(ranks_below(a, b) && ranks_below(b, a)),
        ranks_below(a, b) && ranks_below(b, c) ==> ranks_below(a, c),
        a != b ==> ranks_below(a, b) || ranks_below(b, a),
{
    lemma_route_order(a, b, c);
    lemma_route_order(c, b, a);
    lemma_route_order(b, a, c);
}

/// A token path has at most one best route: what a resolution returns is
/// fixed by the registered table alone, not by the order of registration.
pub proof fn best_route_is_unique<H>(
    table: Map<Seq<SegmentView>, H>,
    toks: Seq<Seq<char>>,
    p: Seq<SegmentView>,
    q: Seq<SegmentView>,
)
    requires
        is_best_route(table, toks, p),
        is_best_route(table, toks, q),
    ensures
        p == q,
{
    lemma_rank_order(p, q, p);
}

/// Equality of two strings, character by character.
fn same_text(a: &str, b: &str) -> (r: bool)
    ensures
        r == (a@ == b@),
{
    let n = a.unicode_len();
    if n != b.unicode_len() {
        return false;
    }
    let mut i: usize = 0;
    while i < n
        invariant
            n == a@.len(),
            n == b@.len(),
            i <= n,
            forall|j: int| 0 <= j < i ==> a@[j] == b@[j],
        decreases n - i,
    {
        if a.get_char(i) != b.get_char(i) {
            return false;
        }
        i += 1;
    }
    assert(a@ =~= b@);
    true
}

impl RouteSegment {
    pub fn is_literal(&self) -> (r: bool)
        ensures
            r == is_literal(self@),
    {
        match self {
            RouteSegment::Literal(_) => true,
            RouteSegment::Variable(_) => false,
        }
    }

    /// Whether this segment accepts `token`: a literal only its own text, a
    /// variable any token.
    pub fn accepts(&self, token: &str) -> (r: bool)
        ensures
            r == accepts(self@, token@),
    {
        match self {
            RouteSegment::Literal(l) => same_text(l, token),
            RouteSegment::Variable(_) => true,
        }
    }
}

fn copy_route(v: &Vec<RouteSegment>) -> (r: Vec<RouteSegment>)
    ensures
        r@ == v@,
{
    let mut out: Vec<RouteSegment> = Vec::new();
    let mut i: usize = 0;
    while i < v.len()
        invariant
            i <= v@.len(),
            out@ == v@.take(i as int),
        decreases v@.len() - i,
    {
        out.push(v[i]);
        assert(out@ =~= v@.take(i + 1));
        i += 1;
    }
    assert(v@.take(v@.len() as int) =~= v@);
    out
}

/// Whether route `a` is strictly more specific than route `b` of the same length.
fn outranks(a: &Vec<RouteSegment>, b: &Vec<RouteSegment>) -> (r: bool)
    requires
        a@.len() == b@.len(),
    ensures
        r == (specificity(segs_view(a@)) > specificity(segs_view(b@))),
{
    let ghost (sa, sb) = (segs_view(a@), segs_view(b@));
    let mut i: usize = 0;
    while i < a.len()
        invariant
            a@.len() == b@.len(),
            sa == segs_view(a@),
            sb == segs_view(b@),
            i <= a@.len(),
            forall|j: int| 0 <= j < i ==> is_literal(#[trigger] sa[j]) == is_literal(sb[j]),
        decreases a@.len() - i,
    {
        let la = a[i].is_literal();
        let lb = b[i].is_literal();
        if la != lb {
            proof {
                if la {
                    lemma_first_difference(sa, sb, i as int);
                } else {
                    lemma_first_difference(sb, sa, i as int);
                }
            }
            return la;
        }
        i += 1;
    }
    proof {
        lemma_same_kinds(sa, sb);
    }
    false
}

/// Whether text `a` comes before text `b`.
fn text_precedes(a: &str, b: &str) -> (r: bool)
    ensures
        r == text_before(a@, b@),
{
    let n = a.unicode_len();
    let m = b.unicode_len();
    let mut i: usize = 0;
    assert(a@.subrange(0, n as int) =~= a@ && b@.subrange(0, m as int) =~= b@);
    while i < n && i < m
        invariant
            n == a@.len(),
            m == b@.len(),
            i <= n,
            i <= m,
            a@.subrange(0, i as int) == b@.subrange(0, i as int),
            text_before(a@, b@) == text_before(a@.subrange(i as int, n as int), b@.subrange(i as int, m as int)),
        decreases n - i,
    {
        let ca = a.get_char(i);
        let cb = b.get_char(i);
        let ghost (sa, sb) = (a@.subrange(i as int, n as int), b@.subrange(i as int, m as int));
        assert(sa[0] == ca && sb[0] == cb);
        if ca != cb {
            return (ca as u32) < (cb as u32);
        }
        assert(sa.drop_first() =~= a@.subrange(i + 1, n as int));
        assert(sb.drop_first() =~= b@.subrange(i + 1, m as int));
        assert(a@.subrange(0, i + 1) =~= a@.subrange(0, i as int).push(ca));
        assert(b@.subrange(0, i + 1) =~= b@.subrange(0, i as int).push(cb));
        i += 1;
    }
    i < m
}

/// Whether segment `x` comes before segment `y`.
fn seg_precedes(x: RouteSegment, y: RouteSegment) -> (r: bool)
    ensures
        r == seg_before(x@, y@),
{
    match (x, y) {
        (RouteSegment::Literal(l), RouteSegment::Literal(m)) => text_precedes(l, m),
        (RouteSegment::Literal(_), RouteSegment::Variable(_)) => true,
        (RouteSegment::Variable(_), RouteSegment::Literal(_)) => false,
        (RouteSegment::Variable(m), RouteSegment::Variable(n)) => text_precedes(m, n),
    }
}

fn same_segment(x: RouteSegment, y: RouteSegment) -> (r: bool)
    ensures
        r == (x@ == y@),
{
    match (x, y) {
        (RouteSegment::Literal(l), RouteSegment::Literal(m)) => same_text(l, m),
        (RouteSegment::Variable(m), RouteSegment::Variable(n)) => same_text(m, n),
        _ => false,
    }
}

/// Whether route `a` comes before route `b` of the same length.
fn route_precedes(a: &Vec<RouteSegment>, b: &Vec<RouteSegment>) -> (r: bool)
    requires
        a@.len() == b@.len(),
    ensures
        r == route_before(segs_view(a@), segs_view(b@)),
{
    let ghost (sa, sb) = (segs_view(a@), segs_view(b@));
    let n = a.len();
    let mut i: usize = 0;
    assert(sa.subrange(0, n as int) =~= sa && sb.subrange(0, n as int) =~= sb);
    while i < n
        invariant
            n == a@.len(),
            n == b@.len(),
            sa == segs_view(a@),
            sb == segs_view(b@),
            i <= n,
            route_before(sa, sb) == route_before(sa.subrange(i as int, n as int), sb.subrange(i as int, n as int)),
        decreases n - i,
    {
        let ghost (ta, tb) = (sa.subrange(i as int, n as int), sb.subrange(i as int, n as int));
        assert(ta[0] == a@[i as int]@ && tb[0] == b@[i as int]@);
        if !same_segment(a[i], b[i]) {
            return seg_precedes(a[i], b[i]);
        }
        assert(ta.drop_first() =~= sa.subrange(i + 1, n as int));
        assert(tb.drop_first() =~= sb.subrange(i + 1, n as int));
        i += 1;
    }
    false
}

/// Whether route `b` ranks below route `a`, both of one length.
fn ranks_above(a: &Vec<RouteSegment>, b: &Vec<RouteSegment>) -> (r: bool)
    requires
        a@.len() == b@.len(),
    ensures
        r == ranks_below(segs_view(b@), segs_view(a@)),
{
    if outranks(a, b) {
        true
    } else if outranks(b, a) {
        false
    } else {
        route_precedes(a, b)
    }
}

/// The variable bindings of `route` for `tokens`.
fn bind(route: &Vec<RouteSegment>, tokens: &[&str]) -> (r: Vec<(String, String)>)
    requires
        route@.len() == tokens@.len(),
    ensures
        pairs_view(r@) == bindings_of(segs_view(route@), toks_view(tokens@)),
{
    let ghost (rv, tv) = (segs_view(route@), toks_view(tokens@));
    let mut out: Vec<(String, String)> = Vec::new();
    let mut i: usize = 0;
    while i < route.len()
        invariant
            route@.len() == tokens@.len(),
            rv == segs_view(route@),
            tv == toks_view(tokens@),
            i <= route@.len(),
            pairs_view(out@) == bindings_of(rv.take(i as int), tv.take(i as int)),
        decreases route@.len() - i,
    {
        assert(rv.take(i + 1).drop_last() =~= rv.take(i as int));
        assert(tv.take(i + 1).drop_last() =~= tv.take(i as int));
        match route[i] {
            RouteSegment::Variable(name) => {
                out.push((name.to_owned(), tokens[i].to_owned()));
            },
            RouteSegment::Literal(_) => {},
        }
        assert(pairs_view(out@) =~= bindings_of(rv.take(i + 1), tv.take(i + 1)));
        i += 1;
    }
    assert(rv.take(route@.len() as int) =~= rv);
    assert(tv.take(route@.len() as int) =~= tv);
    out
}

/// Why a route could not be registered or resolved.
#[derive(PartialEq, Eq, Structural, Clone, Copy, Debug)]
pub enum RouteError {
    /// No registered route matches the whole token path.
    RouteNotFound,
    /// A handler is already registered at exactly this route.
    DuplicateRoute,
}

/// A command router: a trie of route segments whose nodes may hold a handler.
pub struct Router<H> {
    trie: RouteTrie,
    handlers: Vec<H>,
}

impl<H> View for Router<H> {
    type V = Map<Seq<SegmentView>, H>;

    closed spec fn view(&self) -> Map<Seq<SegmentView>, H> {
        Map::new(
            |k: Seq<SegmentView>| trie_entries(self.trie).contains_key(k),
            |k: Seq<SegmentView>| self.handlers@[trie_entries(self.trie)[k] as int],
        )
    }
}

impl<H> Router<H> {
    /// Every route in the trie refers to a stored handler.
    pub closed spec fn wf(&self) -> bool {
        forall|k: Seq<SegmentView>|
            #[trigger] trie_entries(self.trie).contains_key(k) ==> trie_entries(self.trie)[k]
                < self.handlers@.len()
    }

    pub fn new() -> (r: Router<H>)
        ensures
            r.wf(),
            r@ == Map::<Seq<SegmentView>, H>::empty(),
    {
        let r = Router { trie: trie_new(), handlers: Vec::new() };
        assert(r@ =~= Map::<Seq<SegmentView>, H>::empty());
        r
    }

    /// Registers `handler` at `route`. Fails, leaving the router unchanged,
    /// exactly when a handler is already registered at this very route.
    pub fn add(&mut self, route: Vec<RouteSegment>, handler: H) -> (r: Result<(), RouteError>)
        requires
            old(self).wf(),
        ensures
            final(self).wf(),
            r is Err <==> old(self)@.contains_key(segs_view(route@)),
            r is Err ==> r == Err::<(), RouteError>(RouteError::DuplicateRoute) && final(self)@
                == old(self)@,
            r is Ok ==> final(self)@ == old(self)@.insert(segs_view(route@), handler),
    {
        if trie_get(&self.trie, route.as_slice()).is_some() {
            return Err(RouteError::DuplicateRoute);
        }
        let ghost key = segs_view(route@);
        let ghost before = self@;
        let index = self.handlers.len();
        trie_insert(&mut self.trie, route, index);
        self.handlers.push(handler);
        assert(self@ =~= before.insert(key, handler));
        Ok(())
    }

    /// The best ranked registered route under `prefix` that matches
    /// `tokens`, found by walking the trie from the node at `prefix`.
    fn best_match(&self, prefix: &mut Vec<RouteSegment>, tokens: &[&str]) -> (r: Option<
        Vec<RouteSegment>,
    >)
        requires
            self.wf(),
            old(prefix)@.len() <= tokens@.len(),
            forall|j: int|
                0 <= j < old(prefix)@.len() ==> accepts(
                    #[trigger] segs_view(old(prefix)@)[j],
                    toks_view(tokens@)[j],
                ),
        ensures
            final(prefix)@ == old(prefix)@,
            r is Some ==> {
                let best = segs_view(r->0@);
                &&& trie_entries(self.trie).contains_key(best)
                &&& has_prefix(best, segs_view(old(prefix)@))
                &&& route_matches(best, toks_view(tokens@))
                &&& forall|q: Seq<SegmentView>|
                    #[trigger] trie_entries(self.trie).contains_key(q) && has_prefix(
                        q,
                        segs_view(old(prefix)@),
                    ) && route_matches(q, toks_view(tokens@)) ==> q == best || ranks_below(q, best)
            },
            r is None ==> forall|q: Seq<SegmentView>|
                #[trigger] trie_entries(self.trie).contains_key(q) && has_prefix(
                    q,
                    segs_view(old(prefix)@),
                ) ==> !route_matches(q, toks_view(tokens@)),
        decreases tokens@.len() - old(prefix)@.len(),
    {
        let ghost entries = trie_entries(self.trie);
        let ghost p = segs_view(prefix@);
        let ghost t = toks_view(tokens@);
        let n = prefix.len();
        if n == tokens.len() {
            assert forall|q: Seq<SegmentView>|
                entries.contains_key(q) && has_prefix(q, p) && route_matches(q, t) implies q
                == p by {
                assert(q.subrange(0, p.len() as int) =~= q);
            }
            if trie_get(&self.trie, prefix.as_slice()).is_some() {
                assert(p.subrange(0, p.len() as int) =~= p);
                assert(route_matches(p, t));
                return Some(copy_route(prefix));
            } else {
                return None;
            }
        }
        let token = tokens[n];
        let children = trie_children(&self.trie, prefix.as_slice());
        let ghost cv = segs_view(children@);
        let mut best: Option<Vec<RouteSegment>> = None;
        let mut i: usize = 0;
        while i < children.len()
            invariant
                self.wf(),
                entries == trie_entries(self.trie),
                prefix@ == old(prefix)@,
                p == segs_view(prefix@),
                t == toks_view(tokens@),
                n == p.len(),
                n < t.len(),
                token@ == t[n as int],
                cv == segs_view(children@),
                i <= children@.len(),
                forall|j: int| 0 <= j < n ==> accepts(#[trigger] p[j], t[j]),
                best is Some ==> {
                    let b = segs_view(best->0@);
                    &&& entries.contains_key(b)
                    &&& has_prefix(b, p)
                    &&& route_matches(b, t)
                    &&& forall|q: Seq<SegmentView>|
                        #[trigger] entries.contains_key(q) && has_prefix(q, p) && route_matches(q, t)
                            && cv.take(i as int).contains(q[n as int]) ==> q == b || ranks_below(q, b)
                },
                best is None ==> forall|q: Seq<SegmentView>|
                    #[trigger] entries.contains_key(q) && has_prefix(q, p) && route_matches(q, t)
                        ==> !cv.take(i as int).contains(q[n as int]),
            decreases children@.len() - i,
        {
            let seg = children[i];
            let ghost c = seg@;
            let ghost best_before = best;
            if seg.accepts(token) {
                prefix.push(seg);
                let ghost deeper = segs_view(prefix@);
                assert(deeper =~= p.push(c));
                let found = self.best_match(prefix, tokens);
                prefix.pop();
                assert(prefix@ =~= old(prefix)@);
                // A route under `p` whose next segment is `c` lies under `deeper`.
                assert forall|q: Seq<SegmentView>|
                    has_prefix(q, p) && q.len() > n && q[n as int] == c implies has_prefix(q, deeper) by {
                    assert(q.subrange(0, n + 1) =~= q.subrange(0, n as int).push(q[n as int]));
                }
                assert(deeper.subrange(0, n as int) =~= p);
                assert forall|q: Seq<SegmentView>| has_prefix(q, deeper) implies has_prefix(q, p) by {
                    assert(q.subrange(0, n as int) =~= q.subrange(0, n + 1).subrange(0, n as int));
                }
                let ghost fv = match &found {
                    Some(f) => Some(segs_view(f@)),
                    None => None::<Seq<SegmentView>>,
                };
                match found {
                    Some(cand) => {
                        let replace = match &best {
                            Some(b) => ranks_above(&cand, b),
                            None => true,
                        };
                        if replace {
                            best = Some(cand);
                        }
                    },
                    None => {},
                }
                proof {
                    assert forall|q: Seq<SegmentView>|
                        #[trigger] entries.contains_key(q) && has_prefix(q, p) && route_matches(q, t)
                            && (cv.take(i as int).contains(q[n as int]) || q[n as int] == c)
                            && best is Some implies q == segs_view(best->0@) || ranks_below(
                        q,
                        segs_view(best->0@),
                    ) by {
                        if best_before is Some && fv is Some {
                            let bo = segs_view(best_before->0@);
                            let f = fv->0;
                            lemma_rank_order(q, bo, f);
                            lemma_rank_order(q, f, bo);
                            lemma_rank_order(f, bo, q);
                        }
                    }
                }
            } else {
                assert forall|q: Seq<SegmentView>|
                    has_prefix(q, p) && route_matches(q, t) implies q[n as int] != c by {
                    assert(accepts(q[n as int], t[n as int]));
                }
            }
            assert forall|q: SegmentView|
                #[trigger] cv.take(i + 1).contains(q) implies cv.take(i as int).contains(q) || q
                == c by {
                let k = choose|k: int| 0 <= k < i + 1 && #[trigger] cv.take(i + 1)[k] == q;
                if k < i {
                    assert(cv.take(i as int)[k] == q);
                }
            }
            assert forall|q: SegmentView|
                #[trigger] cv.take(i as int).contains(q) implies cv.take(i + 1).contains(q) by {
                let k = choose|k: int| 0 <= k < i && #[trigger] cv.take(i as int)[k] == q;
                assert(cv.take(i + 1)[k] == q);
            }
            assert(cv.take(i + 1)[i as int] == c);
            i += 1;
        }
        proof {
            assert forall|q: Seq<SegmentView>|
                entries.contains_key(q) && has_prefix(q, p) && route_matches(q, t) implies cv.take(
                    children@.len() as int,
                ).contains(q[n as int]) by {
                let k = choose|k: int| 0 <= k < children@.len() && q[n as int] == #[trigger] children@[k]@;
                assert(cv.take(children@.len() as int)[k] == q[n as int]);
            }
        }
        best
    }

    /// Resolves a token path to the handler of the most specific registered
    /// route that matches it, with the tokens that its variables bind.
    /// A literal segment accepts only its own text, a variable any token; where
    /// matching routes differ, the one with a literal at the first position
    /// where they differ in kind wins, and between routes that differ only in
    /// variable names, the one whose first differing name comes first in text
    /// order. The result is that of the one best route of the table, whatever
    /// the order in which routes were registered.
    pub fn resolve(&self, tokens: &[&str]) -> (r: Result<(&H, Vec<(String, String)>), RouteError>)
        requires
            self.wf(),
        ensures
            r is Err <==> !exists|q: Seq<SegmentView>|
                #[trigger] self@.contains_key(q) && route_matches(q, toks_view(tokens@)),
            r is Err ==> r->Err_0 == RouteError::RouteNotFound,
            r is Ok ==> exists|route: Seq<SegmentView>|
                #[trigger] is_best_route(self@, toks_view(tokens@), route),
            r is Ok ==> forall|route: Seq<SegmentView>|
                #[trigger] is_best_route(self@, toks_view(tokens@), route) ==> *r->Ok_0.0
                    == self@[route] && pairs_view(r->Ok_0.1@) == bindings_of(
                    route,
                    toks_view(tokens@),
                ),
    {
        let mut prefix: Vec<RouteSegment> = Vec::new();
        proof {
            assert forall|q: Seq<SegmentView>| #[trigger] has_prefix(q, segs_view(prefix@)) by {
                assert(q.subrange(0, 0) =~= segs_view(prefix@));
            }
        }
        match self.best_match(&mut prefix, tokens) {
            Some(route) => {
                let index = trie_get(&self.trie, route.as_slice()).unwrap();
                let bindings = bind(&route, tokens);
                let ghost best = segs_view(route@);
                assert(is_best_route(self@, toks_view(tokens@), best));
                assert forall|q: Seq<SegmentView>|
                    #[trigger] is_best_route(self@, toks_view(tokens@), q) implies q == best by {
                    best_route_is_unique(self@, toks_view(tokens@), q, best);
                }
                Ok((&self.handlers[index], bindings))
            },
            None => Err(RouteError::RouteNotFound),
        }
    }
}

/// Where two registered routes both match a token path and first differ in
/// kind at position `i`, literal against variable, the route with the variable
/// there is never the one a resolution returns.
pub proof fn literal_precedence<H>(
    table: Map<Seq<SegmentView>, H>,
    toks: Seq<Seq<char>>,
    literal_route: Seq<SegmentView>,
    variable_route: Seq<SegmentView>,
    i: int,
)
    requires
        table.contains_key(literal_route),
        route_matches(literal_route, toks),
        route_matches(variable_route, toks),
        0 <= i < toks.len(),
        forall|j: int|
            0 <= j < i ==> is_literal(#[trigger] literal_route[j]) == is_literal(variable_route[j]),
        is_literal(literal_route[i]),
        !is_literal(variable_route[i]),
    ensures
        !is_best_route(table, toks, variable_route),
{
    lemma_first_difference(literal_route, variable_route, i);
}

/// Registering two different routes in either order leaves the router with
/// the same table. Since `resolve` returns the handler of the one best route
/// of the table (`best_route_is_unique`), lookup does not depend on the order
/// of registration.
pub proof fn registration_order_is_invisible<H>(
    table: Map<Seq<SegmentView>, H>,
    first: Seq<SegmentView>,
    first_handler: H,
    second: Seq<SegmentView>,
    second_handler: H,
)
    requires
        first != second,
    ensures
        table.insert(first, first_handler).insert(second, second_handler) == table.insert(
            second,
            second_handler,
        ).insert(first, first_handler),
{
    assert(table.insert(first, first_handler).insert(second, second_handler) =~= table.insert(
        second,
        second_handler,
    ).insert(first, first_handler));
}

/// A command-line argument of a command: its name and an optional help text.
pub struct Arg<'a, 'b> {
    pub name: &'a str,
    pub help: Option<&'b str>,
}

} // verus!
