use vstd::prelude::*;

verus! {

/// The texts between the `/` characters of `s`, left to right; `s` with no
/// `/` is a single piece, and the empty text is one empty piece.
pub open spec fn split_slashes(s: Seq<char>) -> Seq<Seq<char>>
    decreases s.len(),
{
    if s.len() == 0 {
        seq![Seq::<char>::empty()]
    } else {
        let init = split_slashes(s.drop_last());
        if s.last() == '/' {
            init.push(Seq::<char>::empty())
        } else {
            init.update(init.len() - 1, init.last().push(s.last()))
        }
    }
}

/// A path or a pattern: text that starts with `/`.
pub open spec fn rooted(p: Seq<char>) -> bool {
    p.len() >= 1 && p[0] == '/'
}

/// The segments of a rooted path or pattern: none for `/` itself, else
/// what lies between the slashes after the leading one.
pub open spec fn segments_of(p: Seq<char>) -> Seq<Seq<char>> {
    if p.len() <= 1 {
        Seq::empty()
    } else {
        split_slashes(p.drop_first())
    }
}

/// The views of a vector of strings.
pub open spec fn texts(v: Seq<String>) -> Seq<Seq<char>> {
    v.map_values(|s: String| s@)
}

/// The segments of the rooted text `p`, as strings.
fn split_segments(p: &str) -> (r: Vec<String>)
    requires
        rooted(p@),
    ensures
        texts(r@) == segments_of(p@),
{
    let n = p.unicode_len();
    let mut parts: Vec<String> = Vec::new();
    if n == 1 {
        assert(texts(parts@) =~= Seq::<Seq<char>>::empty());
        return parts;
    }
    let mut start: usize = 1;
    let mut i: usize = 1;
    assert(p@.subrange(1, 1) =~= Seq::<char>::empty());
    assert(texts(parts@) + seq![p@.subrange(1, 1)] =~= split_slashes(p@.subrange(1, 1)));
    while i < n
        invariant
            n == p@.len(),
            1 <= start <= i <= n,
            texts(parts@) + seq![p@.subrange(start as int, i as int)] == split_slashes(
                p@.subrange(1, i as int),
            ),
        decreases n - i,
    {
        let c = p.get_char(i);
        let ghost prev = p@.subrange(1, i as int);
        let ghost next = p@.subrange(1, i + 1);
        assert(next.drop_last() =~= prev);
        assert(next.last() == c);
        if c == '/' {
            let piece = p.substring_char(start, i);
            parts.push(piece.to_owned());
            start = i + 1;
            assert(p@.subrange(start as int, i + 1) =~= Seq::<char>::empty());
            assert(texts(parts@) + seq![p@.subrange(start as int, i + 1)] =~= split_slashes(next));
        } else {
            assert(p@.subrange(start as int, i + 1) =~= p@.subrange(start as int, i as int).push(c));
            assert(texts(parts@) + seq![p@.subrange(start as int, i + 1)] =~= split_slashes(next));
        }
        i = i + 1;
    }
    let piece = p.substring_char(start, n);
    parts.push(piece.to_owned());
    assert(p@.drop_first() =~= p@.subrange(1, n as int));
    assert(texts(parts@) =~= segments_of(p@));
    parts
}

} // verus!

verus! {

/// The catch-all segment `*`.
pub open spec fn is_wildcard(x: Seq<char>) -> bool {
    x == seq!['*']
}

/// A capture segment `:name`.
pub open spec fn is_capture(x: Seq<char>) -> bool {
    x.len() > 0 && x[0] == ':'
}

/// Whether `x` holds a `*` anywhere.
pub open spec fn has_star(x: Seq<char>) -> bool {
    exists|k: int| 0 <= k < x.len() && x[k] == '*'
}

/// Pattern syntax: no empty segment, no capture without a name, `*` only as
/// a whole last segment, no capture name twice.
pub open spec fn valid_segments(ps: Seq<Seq<char>>) -> bool {
    &&& forall|i: int| 0 <= i < ps.len() ==> #[trigger] ps[i].len() > 0
    &&& forall|i: int| 0 <= i < ps.len() && is_capture(#[trigger] ps[i]) ==> ps[i].len() > 1
    &&& forall|i: int|
        0 <= i < ps.len() && has_star(#[trigger] ps[i]) ==> is_wildcard(ps[i]) && i == ps.len() - 1
    &&& forall|i: int, j: int|
        0 <= i < j < ps.len() && is_capture(#[trigger] ps[i]) ==> ps[i] != #[trigger] ps[j]
}

/// A rooted pattern whose segments follow the pattern syntax.
pub open spec fn valid_pattern(p: Seq<char>) -> bool {
    rooted(p) && valid_segments(segments_of(p))
}

fn is_wildcard_exec(x: &String) -> (r: bool)
    ensures
        r == is_wildcard(x@),
{
    let s = x.as_str();
    let n = s.unicode_len();
    if n != 1 {
        return false;
    }
    let c = s.get_char(0);
    proof {
        if c == '*' {
            assert(x@ =~= seq!['*']);
        }
    }
    c == '*'
}

fn is_capture_exec(x: &String) -> (r: bool)
    ensures
        r == is_capture(x@),
{
    let s = x.as_str();
    let n = s.unicode_len();
    n > 0 && s.get_char(0) == ':'
}

fn has_star_exec(x: &String) -> (r: bool)
    ensures
        r == has_star(x@),
{
    let s = x.as_str();
    let n = s.unicode_len();
    let mut k: usize = 0;
    while k < n
        invariant
            n == x@.len(),
            s@ == x@,
            k <= n,
            forall|j: int| 0 <= j < k ==> x@[j] != '*',
        decreases n - k,
    {
        if s.get_char(k) == '*' {
            return true;
        }
        k = k + 1;
    }
    false
}

fn valid_segments_exec(ps: &Vec<String>) -> (r: bool)
    ensures
        r == valid_segments(texts(ps@)),
{
    let ghost v = texts(ps@);
    let n = ps.len();
    let mut i: usize = 0;
    while i < n
        invariant
            n == ps@.len(),
            v == texts(ps@),
            i <= n,
            forall|a: int| 0 <= a < i ==> #[trigger] v[a].len() > 0,
            forall|a: int| 0 <= a < i && is_capture(#[trigger] v[a]) ==> v[a].len() > 1,
            forall|a: int| 0 <= a < i && has_star(#[trigger] v[a]) ==> is_wildcard(v[a]) && a == n - 1,
            forall|a: int, b: int| 0 <= a < b < i && is_capture(#[trigger] v[a]) ==> v[a] != #[trigger] v[b],
        decreases n - i,
    {
        let x = &ps[i];
        assert(v[i as int] == x@);
        let len = x.as_str().unicode_len();
        if len == 0 {
            return false;
        }
        let cap = is_capture_exec(x);
        if cap && len == 1 {
            return false;
        }
        if has_star_exec(x) && !(is_wildcard_exec(x) && i == n - 1) {
            return false;
        }
        let mut j: usize = 0;
        while j < i
            invariant
                n == ps@.len(),
                v == texts(ps@),
                j <= i < n,
                x@ == v[i as int],
                forall|a: int| 0 <= a < j && is_capture(#[trigger] v[a]) ==> v[a] != v[i as int],
            decreases i - j,
        {
            let y = &ps[j];
            assert(v[j as int] == y@);
            if is_capture_exec(y) && *y == *x {
                return false;
            }
            j = j + 1;
        }
        i = i + 1;
    }
    true
}

} // verus!

verus! {

/// Whether one pattern segment accepts one path segment: `*` any text,
/// a capture any non-empty text, a literal only itself.
pub open spec fn segment_matches(x: Seq<char>, s: Seq<char>) -> bool {
    if is_wildcard(x) {
        true
    } else if is_capture(x) {
        s.len() > 0
    } else {
        x == s
    }
}

/// Whether the pattern segments `ps` accept the path segments `ss`; a
/// trailing `*` takes whatever remains, nothing included.
pub open spec fn segments_match(ps: Seq<Seq<char>>, ss: Seq<Seq<char>>) -> bool {
    if ps.len() > 0 && is_wildcard(ps.last()) {
        &&& ss.len() >= ps.len() - 1
        &&& forall|i: int| 0 <= i < ps.len() - 1 ==> segment_matches(#[trigger] ps[i], ss[i])
    } else {
        &&& ss.len() == ps.len()
        &&& forall|i: int| 0 <= i < ps.len() ==> segment_matches(#[trigger] ps[i], ss[i])
    }
}

/// How general a segment is: a literal 0, a capture 1, `*` 2.
pub open spec fn rank(x: Seq<char>) -> int {
    if is_wildcard(x) {
        2
    } else if is_capture(x) {
        1
    } else {
        0
    }
}

/// The rank of each segment, in order.
pub open spec fn ranks(ps: Seq<Seq<char>>) -> Seq<int> {
    Seq::new(ps.len(), |i: int| rank(ps[i]))
}

/// Lexicographic order, a proper prefix first: at the first position where
/// two patterns differ in kind, the less general one is more specific.
pub open spec fn lex_less(a: Seq<int>, b: Seq<int>) -> bool
    decreases a.len(),
{
    if a.len() == 0 {
        b.len() > 0
    } else if b.len() == 0 {
        false
    } else if a[0] != b[0] {
        a[0] < b[0]
    } else {
        lex_less(a.drop_first(), b.drop_first())
    }
}

/// The specificity order is transitive.
pub proof fn lemma_lex_transitive(a: Seq<int>, b: Seq<int>, c: Seq<int>)
    requires
        lex_less(a, b),
        lex_less(b, c),
    ensures
        lex_less(a, c),
    decreases a.len(),
{
    if a.len() > 0 && b.len() > 0 && c.len() > 0 && a[0] == b[0] && b[0] == c[0] {
        lemma_lex_transitive(a.drop_first(), b.drop_first(), c.drop_first());
    }
}

/// Of two different rank sequences, one is more specific than the other.
pub proof fn lemma_lex_total(a: Seq<int>, b: Seq<int>)
    ensures
        a == b || lex_less(a, b) || lex_less(b, a),
    decreases a.len(),
{
    if a.len() > 0 && b.len() > 0 && a[0] == b[0] {
        lemma_lex_total(a.drop_first(), b.drop_first());
        if a.drop_first() == b.drop_first() {
            assert(a =~= seq![a[0]] + a.drop_first());
            assert(b =~= seq![b[0]] + b.drop_first());
        }
    } else if a.len() == 0 && b.len() == 0 {
        assert(a =~= b);
    }
}

fn rank_exec(x: &String) -> (r: u8)
    ensures
        r as int == rank(x@),
{
    if is_wildcard_exec(x) {
        2
    } else if is_capture_exec(x) {
        1
    } else {
        0
    }
}

/// Whether the segments `a` are more specific than the segments `b`.
fn more_specific(a: &Vec<String>, b: &Vec<String>) -> (r: bool)
    ensures
        r == lex_less(ranks(texts(a@)), ranks(texts(b@))),
{
    let ghost ra = ranks(texts(a@));
    let ghost rb = ranks(texts(b@));
    let mut k: usize = 0;
    assert(ra.skip(0) =~= ra && rb.skip(0) =~= rb);
    while k < a.len() && k < b.len()
        invariant
            ra == ranks(texts(a@)),
            rb == ranks(texts(b@)),
            k <= a@.len(),
            k <= b@.len(),
            lex_less(ra, rb) == lex_less(ra.skip(k as int), rb.skip(k as int)),
        decreases a@.len() - k,
    {
        let x = rank_exec(&a[k]);
        let y = rank_exec(&b[k]);
        assert(texts(a@)[k as int] == a@[k as int]@);
        assert(texts(b@)[k as int] == b@[k as int]@);
        assert(ra.skip(k as int)[0] == x as int);
        assert(rb.skip(k as int)[0] == y as int);
        if x != y {
            return x < y;
        }
        assert(ra.skip(k as int).drop_first() =~= ra.skip(k + 1));
        assert(rb.skip(k as int).drop_first() =~= rb.skip(k + 1));
        k = k + 1;
    }
    k == a.len() && k < b.len()
}

/// Whether the segments `ps` accept the segments `ss`.
fn segments_match_exec(ps: &Vec<String>, ss: &Vec<String>) -> (r: bool)
    ensures
        r == segments_match(texts(ps@), texts(ss@)),
{
    let ghost p = texts(ps@);
    let ghost s = texts(ss@);
    let n = ps.len();
    let mut fixed = n;
    if n > 0 && is_wildcard_exec(&ps[n - 1]) {
        assert(p.last() == ps@[n - 1]@);
        fixed = n - 1;
        if ss.len() < fixed {
            return false;
        }
    } else {
        assert(n > 0 ==> p.last() == ps@[n - 1]@);
        if ss.len() != n {
            return false;
        }
    }
    let mut i: usize = 0;
    while i < fixed
        invariant
            p == texts(ps@),
            s == texts(ss@),
            fixed <= n == ps@.len(),
            fixed <= ss@.len(),
            i <= fixed,
            forall|j: int| 0 <= j < i ==> segment_matches(#[trigger] p[j], s[j]),
        decreases fixed - i,
    {
        let x = &ps[i];
        let y = &ss[i];
        assert(p[i as int] == x@ && s[i as int] == y@);
        let ok = if is_wildcard_exec(x) {
            true
        } else if is_capture_exec(x) {
            y.as_str().unicode_len() > 0
        } else {
            *x == *y
        };
        if !ok {
            return false;
        }
        i = i + 1;
    }
    true
}

} // verus!

verus! {

/// The captures among the first `k` segments, in declaration order: each
/// name, without its `:`, with the path text at its position.
pub open spec fn params_upto(ps: Seq<Seq<char>>, ss: Seq<Seq<char>>, k: int) -> Seq<
    (Seq<char>, Seq<char>),
>
    decreases k,
{
    if k <= 0 {
        Seq::empty()
    } else {
        let prev = params_upto(ps, ss, k - 1);
        if is_capture(ps[k - 1]) {
            prev.push((ps[k - 1].drop_first(), ss[k - 1]))
        } else {
            prev
        }
    }
}

/// The parameters that the pattern segments `ps` take from the path
/// segments `ss`.
pub open spec fn params_of(ps: Seq<Seq<char>>, ss: Seq<Seq<char>>) -> Seq<(Seq<char>, Seq<char>)> {
    params_upto(ps, ss, ps.len() as int)
}

/// The views of a list of parameters.
pub open spec fn pairs(v: Seq<(String, String)>) -> Seq<(Seq<char>, Seq<char>)> {
    v.map_values(|p: (String, String)| (p.0@, p.1@))
}

/// Whether the pattern `pattern` accepts the path `path`.
pub open spec fn accepts(pattern: Seq<char>, path: Seq<char>) -> bool {
    rooted(path) && segments_match(segments_of(pattern), segments_of(path))
}

/// The ranks of a pattern's segments: the lower, the more specific.
pub open spec fn specificity(pattern: Seq<char>) -> Seq<int> {
    ranks(segments_of(pattern))
}

/// Entry `i` of `pats` is the one chosen for `path`: it accepts the path,
/// no accepting entry is more specific, and every accepting entry registered
/// before it is less specific.
pub open spec fn best_match(pats: Seq<Seq<char>>, path: Seq<char>, i: int) -> bool {
    &&& 0 <= i < pats.len()
    &&& accepts(pats[i], path)
    &&& forall|j: int|
        #![trigger pats[j]]
        0 <= j < pats.len() && j != i && accepts(pats[j], path) ==> if j < i {
            lex_less(specificity(pats[i]), specificity(pats[j]))
        } else {
            !lex_less(specificity(pats[j]), specificity(pats[i]))
        }
}

/// Why a route could not be added or a path could not be resolved.
#[derive(PartialEq, Eq, Structural, Clone, Copy, Debug)]
pub enum RouteError {
    /// The same pattern is registered already.
    DuplicateRoute,
    /// The pattern breaks the pattern syntax.
    InvalidPattern,
    /// No pattern accepts the path.
    RouteNotFound,
}

/// The outcome of a resolution: which route, and the captured parameters.
pub struct Resolved {
    pub route: usize,
    pub params: Vec<(String, String)>,
}

struct Route<H> {
    pattern: String,
    segments: Vec<String>,
    handler: H,
}

/// Patterns with their handlers, in registration order.
pub struct RouteTable<H> {
    routes: Vec<Route<H>>,
}

/// The parameters that `ps` takes from `ss`, as strings.
fn collect_params(ps: &Vec<String>, ss: &Vec<String>) -> (r: Vec<(String, String)>)
    requires
        segments_match(texts(ps@), texts(ss@)),
    ensures
        pairs(r@) == params_of(texts(ps@), texts(ss@)),
{
    let ghost p = texts(ps@);
    let ghost s = texts(ss@);
    let mut out: Vec<(String, String)> = Vec::new();
    let mut i: usize = 0;
    assert(pairs(out@) =~= params_upto(p, s, 0));
    while i < ps.len()
        invariant
            p == texts(ps@),
            s == texts(ss@),
            segments_match(p, s),
            i <= ps@.len(),
            pairs(out@) == params_upto(p, s, i as int),
        decreases ps@.len() - i,
    {
        let x = &ps[i];
        assert(p[i as int] == x@);
        if is_capture_exec(x) {
            assert(!is_wildcard(p[i as int]));
            assert(i < ss@.len());
            let y = &ss[i];
            assert(s[i as int] == y@);
            let xs = x.as_str();
            let len = xs.unicode_len();
            let name = xs.substring_char(1, len).to_owned();
            assert(name@ =~= p[i as int].drop_first());
            out.push((name, y.clone()));
            assert(pairs(out@) =~= params_upto(p, s, i + 1));
        } else {
            assert(pairs(out@) =~= params_upto(p, s, i + 1));
        }
        i = i + 1;
    }
    out
}

fn is_rooted(p: &str) -> (r: bool)
    ensures
        r == rooted(p@),
{
    p.unicode_len() >= 1 && p.get_char(0) == '/'
}

impl<H> RouteTable<H> {
    /// The patterns, in registration order.
    pub closed spec fn patterns(&self) -> Seq<Seq<char>> {
        self.routes@.map_values(|r: Route<H>| r.pattern@)
    }

    /// The handlers, in registration order.
    pub closed spec fn handlers(&self) -> Seq<H> {
        self.routes@.map_values(|r: Route<H>| r.handler)
    }

    /// Every pattern is valid and registered once.
    pub closed spec fn wf(&self) -> bool {
        &&& forall|i: int|
            #![trigger self.routes@[i]]
            0 <= i < self.routes@.len() ==> valid_pattern(self.routes@[i].pattern@) && texts(
                self.routes@[i].segments@,
            ) == segments_of(self.routes@[i].pattern@)
        &&& forall|i: int, j: int|
            0 <= i < j < self.routes@.len() ==> #[trigger] self.routes@[i].pattern@
                != #[trigger] self.routes@[j].pattern@
    }

    /// What adding `pattern` gives: refused as malformed, refused as
    /// registered already, or accepted.
    pub open spec fn add_outcome(&self, pattern: Seq<char>) -> Result<(), RouteError> {
        if !valid_pattern(pattern) {
            Err(RouteError::InvalidPattern)
        } else if self.patterns().contains(pattern) {
            Err(RouteError::DuplicateRoute)
        } else {
            Ok(())
        }
    }

    /// An empty table.
    pub fn new() -> (r: Self)
        ensures
            r.wf(),
            r.patterns() == Seq::<Seq<char>>::empty(),
            r.handlers() == Seq::<H>::empty(),
    {
        let r = RouteTable { routes: Vec::new() };
        assert(r.patterns() =~= Seq::<Seq<char>>::empty());
        assert(r.handlers() =~= Seq::<H>::empty());
        r
    }

    /// The number of routes.
    pub fn len(&self) -> (r: usize)
        ensures
            r == self.patterns().len(),
    {
        self.routes.len()
    }

    /// The handler of route `i`.
    pub fn handler(&self, i: usize) -> (r: &H)
        requires
            i < self.patterns().len(),
        ensures
            *r == self.handlers()[i as int],
    {
        &self.routes[i].handler
    }

    /// Registers `handler` under `pattern`, after those already there.
    pub fn add(&mut self, pattern: &str, handler: H) -> (r: Result<(), RouteError>)
        requires
            old(self).wf(),
        ensures
            final(self).wf(),
            r == old(self).add_outcome(pattern@),
            !valid_pattern(pattern@) ==> r == Err::<(), RouteError>(RouteError::InvalidPattern),
            valid_pattern(pattern@) && old(self).patterns().contains(pattern@) ==> r == Err::<
                (),
                RouteError,
            >(RouteError::DuplicateRoute),
            valid_pattern(pattern@) && !old(self).patterns().contains(pattern@) ==> r == Ok::<
                (),
                RouteError,
            >(()),
            r is Ok ==> final(self).patterns() == old(self).patterns().push(pattern@)
                && final(self).handlers() == old(self).handlers().push(handler),
            r is Err ==> *final(self) == *old(self),
    {
        if !is_rooted(pattern) {
            return Err(RouteError::InvalidPattern);
        }
        let segments = split_segments(pattern);
        if !valid_segments_exec(&segments) {
            return Err(RouteError::InvalidPattern);
        }
        let text = pattern.to_owned();
        let n = self.routes.len();
        let mut i: usize = 0;
        while i < n
            invariant
                n == self.routes@.len(),
                i <= n,
                text@ == pattern@,
                self.wf(),
                self == old(self),
                valid_pattern(pattern@),
                texts(segments@) == segments_of(pattern@),
                forall|j: int| 0 <= j < i ==> self.patterns()[j] != pattern@,
            decreases n - i,
        {
            if self.routes[i].pattern == text {
                assert(self.patterns()[i as int] == pattern@);
                return Err(RouteError::DuplicateRoute);
            }
            i = i + 1;
        }
        assert(!self.patterns().contains(pattern@));
        let ghost before = *self;
        self.routes.push(Route { pattern: text, segments, handler });
        assert(self.patterns() =~= before.patterns().push(pattern@));
        assert(self.handlers() =~= before.handlers().push(handler));
        assert forall|i: int, j: int|
            0 <= i < j < self.routes@.len() implies #[trigger] self.routes@[i].pattern@
            != #[trigger] self.routes@[j].pattern@ by {
            if j == n {
                assert(before.patterns()[i] == self.routes@[i].pattern@);
            }
        }
        Ok(())
    }

    /// The route chosen for `path`, with its parameters: of the patterns
    /// that accept the path, the most specific, and of equally specific
    /// ones the first registered. Fails when no pattern accepts the path.
    pub fn resolve(&self, path: &str) -> (r: Result<Resolved, RouteError>)
        requires
            self.wf(),
        ensures
            r is Ok <==> exists|i: int|
                0 <= i < self.patterns().len() && accepts(#[trigger] self.patterns()[i], path@),
            r is Err ==> r == Err::<Resolved, RouteError>(RouteError::RouteNotFound),
            r matches Ok(res) ==> best_match(self.patterns(), path@, res.route as int)
                && pairs(res.params@) == params_of(
                segments_of(self.patterns()[res.route as int]),
                segments_of(path@),
            ),
    {
        if !is_rooted(path) {
            return Err(RouteError::RouteNotFound);
        }
        let segs = split_segments(path);
        let ghost pats = self.patterns();
        let n = self.routes.len();
        let mut best: usize = 0;
        let mut found = false;
        let mut i: usize = 0;
        while i < n
            invariant
                n == self.routes@.len() == pats.len(),
                pats == self.patterns(),
                self.wf(),
                rooted(path@),
                texts(segs@) == segments_of(path@),
                i <= n,
                !found ==> forall|j: int| 0 <= j < i ==> !accepts(#[trigger] pats[j], path@),
                found ==> best < i && accepts(pats[best as int], path@),
                found ==> forall|j: int|
                    #![trigger pats[j]]
                    0 <= j < i && j != best && accepts(pats[j], path@) ==> if j < best {
                        lex_less(specificity(pats[best as int]), specificity(pats[j]))
                    } else {
                        !lex_less(specificity(pats[j]), specificity(pats[best as int]))
                    },
            decreases n - i,
        {
            let route = &self.routes[i];
            assert(pats[i as int] == route.pattern@);
            assert(texts(route.segments@) == segments_of(pats[i as int]));
            if segments_match_exec(&route.segments, &segs) {
                if !found {
                    best = i;
                    found = true;
                } else {
                    let cur = &self.routes[best];
                    assert(pats[best as int] == cur.pattern@);
                    assert(texts(cur.segments@) == segments_of(pats[best as int]));
                    if more_specific(&route.segments, &cur.segments) {
                        let ghost ri = specificity(pats[i as int]);
                        let ghost rb = specificity(pats[best as int]);
                        assert forall|j: int|
                            #![trigger pats[j]]
                            0 <= j < i && j != best && accepts(pats[j], path@) implies lex_less(
                            ri,
                            specificity(pats[j]),
                        ) by {
                            let rj = specificity(pats[j]);
                            if j < best {
                                lemma_lex_transitive(ri, rb, rj);
                            } else {
                                lemma_lex_total(rj, rb);
                                if rj != rb {
                                    lemma_lex_transitive(ri, rb, rj);
                                }
                            }
                        }
                        best = i;
                    }
                }
            }
            i = i + 1;
        }
        if !found {
            return Err(RouteError::RouteNotFound);
        }
        let chosen = &self.routes[best];
        assert(pats[best as int] == chosen.pattern@);
        let params = collect_params(&chosen.segments, &segs);
        Ok(Resolved { route: best, params })
    }
}

} // verus!
