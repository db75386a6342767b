use vstd::prelude::*;
use crate::cell::{ReactiveCell, delivered};
use crate::effect::NodeRegistry;
use crate::route::{
    RouteError, RouteTable, Resolved, accepts, best_match, pairs, params_of, segments_of,
};

verus! {

/// What the platform is asked to do with its history after an event.
pub enum HistoryAction {
    /// Leave the history as it is.
    Keep,
    /// Append an entry for this path.
    Push(String),
    /// Rewrite the current entry to this path.
    Replace(String),
}

/// `post` is `pre` after a string with the view `p` was set.
pub open spec fn announced(pre: ReactiveCell<String>, post: ReactiveCell<String>, p: Seq<char>) -> bool {
    exists|v: String| v@ == p && #[trigger] delivered(pre, post, v)
}

/// The fragment named by a platform hash: the text after its leading marker.
pub open spec fn fragment_of(hash: Seq<char>) -> Seq<char> {
    if hash.len() == 0 {
        hash
    } else {
        hash.drop_first()
    }
}

/// The canonical current location, fed by navigation events.
pub struct RouterHandle {
    current: ReactiveCell<String>,
}

impl RouterHandle {
    /// The location cell.
    pub closed spec fn cell(&self) -> ReactiveCell<String> {
        self.current
    }

    /// The current location.
    pub open spec fn location(&self) -> Seq<char> {
        self.cell().current()@
    }

    /// A handle whose location is `path`, with no subscribers.
    pub fn new(path: &str) -> (r: Self)
        ensures
            r.location() == path@,
            r.cell().count() == 0,
    {
        RouterHandle { current: ReactiveCell::new(path.to_owned()) }
    }

    /// A copy of the current location.
    pub fn current(&self) -> (r: String)
        ensures
            r@ == self.location(),
    {
        self.current.get()
    }

    /// Navigation by the application: the location becomes `path`, always,
    /// and the platform is to append a history entry for it.
    pub fn push(&mut self, path: &str) -> (r: HistoryAction)
        ensures
            announced(old(self).cell(), final(self).cell(), path@),
            r matches HistoryAction::Push(p) && p@ == path@,
    {
        let v = path.to_owned();
        let ghost g = v;
        self.current.set(v);
        assert(delivered(old(self).cell(), self.cell(), g));
        HistoryAction::Push(path.to_owned())
    }

    /// A new subscription to the location, which receives each location
    /// set from now on.
    pub fn signal(&mut self) -> (r: usize)
        ensures
            r == old(self).cell().count(),
            final(self).cell().count() == old(self).cell().count() + 1,
            final(self).location() == old(self).location(),
            final(self).cell().is_active(r as int),
            final(self).cell().inbox(r as int) == Seq::<String>::empty(),
            forall|i: int|
                #![trigger final(self).cell().inbox(i)]
                0 <= i < old(self).cell().count() ==> final(self).cell().inbox(i) == old(self).cell().inbox(i)
                    && final(self).cell().is_active(i) == old(self).cell().is_active(i),
    {
        self.current.subscribe()
    }

    /// History traversal by the user. While the platform shows a fragment
    /// nothing happens, as the fragment change is reported on its own;
    /// otherwise the location becomes the platform's path.
    pub fn on_pop(&mut self, current_path: &str, current_hash: &str) -> (r: HistoryAction)
        ensures
            r is Keep,
            current_hash@.len() > 0 ==> *final(self) == *old(self),
            current_hash@.len() == 0 ==> announced(old(self).cell(), final(self).cell(), current_path@),
    {
        if current_hash.unicode_len() > 0 {
            return HistoryAction::Keep;
        }
        let v = current_path.to_owned();
        let ghost g = v;
        self.current.set(v);
        assert(delivered(old(self).cell(), self.cell(), g));
        HistoryAction::Keep
    }

    /// A change of the fragment alone: the location becomes the fragment,
    /// and the platform is to rewrite its current history entry to it.
    pub fn on_hash_change(&mut self, hash: &str) -> (r: HistoryAction)
        ensures
            announced(old(self).cell(), final(self).cell(), fragment_of(hash@)),
            r matches HistoryAction::Replace(p) && p@ == fragment_of(hash@),
    {
        let n = hash.unicode_len();
        let fragment = if n == 0 {
            hash.to_owned()
        } else {
            let f = hash.substring_char(1, n).to_owned();
            assert(f@ =~= hash@.drop_first());
            f
        };
        let copy = fragment.clone();
        let ghost g = fragment;
        self.current.set(fragment);
        assert(delivered(old(self).cell(), self.cell(), g));
        HistoryAction::Replace(copy)
    }
}

} // verus!

verus! {

/// A navigation event, as the router's single stream of events sees it.
pub enum NavigationEvent {
    /// The application navigates to this path.
    Navigate(String),
    /// The user traversed history; the platform now shows this path and
    /// this fragment.
    Pop { path: String, hash: String },
    /// Only the fragment changed; the platform now shows this one.
    HashChange(String),
}

/// Over any run of location changes, each subscriber of the location that
/// was active at the start receives every new location, in order, behind
/// what it already held: one delivery per change and subscriber, equal
/// locations included.
pub proof fn lemma_every_location_in_order(cells: Seq<ReactiveCell<String>>, paths: Seq<Seq<char>>)
    requires
        cells.len() == paths.len() + 1,
        forall|k: int| 0 <= k < paths.len() ==> #[trigger] announced(cells[k], cells[k + 1], paths[k]),
    ensures
        cells.last().count() == cells[0].count(),
        forall|i: int|
            0 <= i < cells[0].count() ==> #[trigger] cells.last().is_active(i) == cells[0].is_active(i),
        forall|i: int|
            #![trigger cells.last().inbox(i)]
            0 <= i < cells[0].count() && cells[0].is_active(i) ==> {
                &&& cells.last().inbox(i).len() == cells[0].inbox(i).len() + paths.len()
                &&& cells.last().inbox(i).subrange(0, cells[0].inbox(i).len() as int) == cells[0].inbox(i)
                &&& forall|k: int|
                    0 <= k < paths.len() ==> (#[trigger] cells.last().inbox(i)[cells[0].inbox(i).len() + k])@
                        == paths[k]
            },
{
    let values = Seq::new(
        paths.len(),
        |k: int| choose|v: String| v@ == paths[k] && delivered(cells[k], cells[k + 1], v),
    );
    assert forall|k: int| 0 <= k < values.len() implies delivered(cells[k], cells[k + 1], #[trigger] values[k]) && values[k]@ == paths[k] by {
        assert(announced(cells[k], cells[k + 1], paths[k]));
    }
    crate::cell::lemma_every_value_in_order(cells, values);
    assert forall|i: int|
        #![trigger cells.last().inbox(i)]
        0 <= i < cells[0].count() && cells[0].is_active(i) implies forall|k: int|
            0 <= k < paths.len() ==> (#[trigger] cells.last().inbox(i)[cells[0].inbox(i).len() + k])@
                == paths[k] by {
        assert forall|k: int| 0 <= k < paths.len() implies (#[trigger] cells.last().inbox(i)[cells[0].inbox(i).len() + k])@
                == paths[k] by {
            assert(cloned(values[k], cells.last().inbox(i)[cells[0].inbox(i).len() + k]));
            assert(values[k]@ == paths[k]);
        }
    }
}

/// Where the router stands: nothing resolved yet, or the location last
/// resolved with its route and parameters.
pub enum RouterState {
    Idle,
    Resolved { location: String, route: usize, params: Vec<(String, String)> },
}

/// Whether `st` records `path` resolved to `route` with `params`.
pub open spec fn resolved_to(
    st: RouterState,
    path: Seq<char>,
    route: usize,
    params: Seq<(Seq<char>, Seq<char>)>,
) -> bool {
    match st {
        RouterState::Resolved { location, route: r, params: p } => location@ == path && r == route
            && pairs(p@) == params,
        RouterState::Idle => false,
    }
}

/// A page mounted by the router: its fresh root node, the route and
/// parameters it was made for, and the effects of the replaced page, in the
/// order they were disposed.
pub struct Page {
    pub root: usize,
    pub route: usize,
    pub params: Vec<(String, String)>,
    pub disposed: Vec<usize>,
}

/// A single-page router: the location, the routes, and the mounted page.
pub struct Router<H> {
    pub handler: RouterHandle,
    inner: RouteTable<H>,
    follower: usize,
    state: RouterState,
    nodes: NodeRegistry,
    root: Option<usize>,
}

/// A copy of a list of parameters.
fn copy_params(ps: &Vec<(String, String)>) -> (r: Vec<(String, String)>)
    ensures
        pairs(r@) == pairs(ps@),
{
    let mut out: Vec<(String, String)> = Vec::new();
    let mut i: usize = 0;
    while i < ps.len()
        invariant
            i <= ps@.len(),
            pairs(out@) == pairs(ps@.subrange(0, i as int)),
        decreases ps@.len() - i,
    {
        let a = ps[i].0.clone();
        let b = ps[i].1.clone();
        let ghost before = out@;
        out.push((a, b));
        assert(out@ == before.push((a, b)));
        assert(pairs(out@) =~= pairs(before).push((a@, b@)));
        assert(ps@.subrange(0, i + 1) =~= ps@.subrange(0, i as int).push(ps@[i as int]));
        assert(pairs(out@) =~= pairs(ps@.subrange(0, i + 1)));
        i = i + 1;
    }
    assert(ps@.subrange(0, i as int) =~= ps@);
    out
}

impl<H> Router<H> {
    pub closed spec fn handle(&self) -> RouterHandle {
        self.handler
    }

    pub closed spec fn table(&self) -> RouteTable<H> {
        self.inner
    }

    pub closed spec fn registry(&self) -> NodeRegistry {
        self.nodes
    }

    pub closed spec fn mount_point(&self) -> Option<usize> {
        self.root
    }

    pub closed spec fn current_state(&self) -> RouterState {
        self.state
    }

    /// The subscription by which the router follows its location.
    pub closed spec fn follower(&self) -> int {
        self.follower as int
    }

    pub closed spec fn wf(&self) -> bool {
        &&& self.inner.wf()
        &&& self.nodes.wf()
        &&& self.root matches Some(r) ==> r < self.nodes.node_count() && self.nodes.is_mounted(r as int)
    }

    /// A router at `path`, with no routes, nothing mounted, and a
    /// subscription of its own to the location.
    pub fn new(path: &str) -> (r: Self)
        ensures
            r.wf(),
            r.handle().location() == path@,
            r.handle().cell().count() == 1,
            r.follower() == 0,
            r.handle().cell().inbox(0) == Seq::<String>::empty(),
            r.table().patterns() == Seq::<Seq<char>>::empty(),
            r.table().handlers() == Seq::<H>::empty(),
            r.current_state() is Idle,
            r.mount_point() is None,
            r.registry().node_count() == 0,
    {
        let mut handler = RouterHandle::new(path);
        let follower = handler.signal();
        Router {
            handler,
            inner: RouteTable::new(),
            follower,
            state: RouterState::Idle,
            nodes: NodeRegistry::new(),
            root: None,
        }
    }

    /// This router's location, now serving another application type: the
    /// same location cell and subscription, with no routes and nothing
    /// mounted.
    pub fn coerce<T>(self) -> (r: Router<T>)
        ensures
            r.wf(),
            r.handle() == self.handle(),
            r.follower() == self.follower(),
            r.table().patterns() == Seq::<Seq<char>>::empty(),
            r.table().handlers() == Seq::<T>::empty(),
            r.current_state() is Idle,
            r.mount_point() is None,
            r.registry().node_count() == 0,
    {
        Router {
            handler: self.handler,
            inner: RouteTable::new(),
            follower: self.follower,
            state: RouterState::Idle,
            nodes: NodeRegistry::new(),
            root: None,
        }
    }

    /// Binds a new effect, fed by location subscription `subscription`, to
    /// the mounted node `node` of the router's pages; it is disposed with
    /// the page, after the effects bound later.
    pub fn spawn(&mut self, node: usize, subscription: usize) -> (r: usize)
        requires
            old(self).wf(),
            node < old(self).registry().node_count(),
            old(self).registry().is_mounted(node as int),
        ensures
            final(self).wf(),
            final(self).handle() == old(self).handle(),
            final(self).table() == old(self).table(),
            final(self).current_state() == old(self).current_state(),
            final(self).mount_point() == old(self).mount_point(),
            final(self).follower() == old(self).follower(),
            r == old(self).registry().effect_count(),
            final(self).registry().effect_count() == old(self).registry().effect_count() + 1,
            final(self).registry().node_count() == old(self).registry().node_count(),
            final(self).registry().owner(r as int) == node,
            final(self).registry().subscription(r as int) == subscription,
            !final(self).registry().is_disposed(r as int),
            final(self).registry().disposal_list(node as int) == old(self).registry().disposal_list(
                node as int,
            ).push(r),
            forall|n: int|
                #![trigger final(self).registry().disposal_list(n)]
                0 <= n < old(self).registry().node_count() && n != node ==> final(self).registry().disposal_list(n) == old(self).registry().disposal_list(n),
            forall|n: int|
                #![trigger final(self).registry().is_mounted(n)]
                0 <= n < old(self).registry().node_count() ==> final(self).registry().is_mounted(n)
                    == old(self).registry().is_mounted(n) && final(self).registry().text_of(n)
                    == old(self).registry().text_of(n),
            forall|e: int|
                #![trigger final(self).registry().is_disposed(e)]
                0 <= e < old(self).registry().effect_count() ==> final(self).registry().is_disposed(e)
                    == old(self).registry().is_disposed(e) && final(self).registry().owner(e)
                    == old(self).registry().owner(e) && final(self).registry().subscription(e)
                    == old(self).registry().subscription(e),
    {
        self.nodes.spawn(node, subscription)
    }

    /// Adds a route: `page` makes the page for paths that `path` accepts.
    pub fn route(&mut self, path: &str, page: H) -> (r: Result<(), RouteError>)
        requires
            old(self).wf(),
        ensures
            final(self).wf(),
            r == old(self).table().add_outcome(path@),
            r is Ok ==> final(self).table().patterns() == old(self).table().patterns().push(path@)
                && final(self).table().handlers() == old(self).table().handlers().push(page),
            r is Err ==> final(self).table() == old(self).table(),
            final(self).handle() == old(self).handle(),
            final(self).current_state() == old(self).current_state(),
            final(self).registry() == old(self).registry(),
            final(self).mount_point() == old(self).mount_point(),
            final(self).follower() == old(self).follower(),
    {
        self.inner.add(path, page)
    }

    /// A resolution of `path` and what it did to the router, apart from its
    /// location: no pattern accepts the path, and nothing changed; or the
    /// chosen route's page replaced the mounted one, whose effects were
    /// disposed last first, on a fresh root node.
    pub open spec fn mounted_page(pre: Self, post: Self, path: Seq<char>, r: Result<Page, RouteError>) -> bool {
        let pats = pre.table().patterns();
        &&& post.wf()
        &&& post.table() == pre.table()
        &&& post.follower() == pre.follower()
        &&& r is Ok <==> exists|i: int| 0 <= i < pats.len() && accepts(#[trigger] pats[i], path)
        &&& r is Err ==> r == Err::<Page, RouteError>(RouteError::RouteNotFound)
            && post.registry() == pre.registry() && post.current_state() == pre.current_state()
            && post.mount_point() == pre.mount_point()
        &&& r matches Ok(page) ==> {
            &&& best_match(pats, path, page.route as int)
            &&& pairs(page.params@) == params_of(segments_of(pats[page.route as int]), segments_of(path))
            &&& resolved_to(post.current_state(), path, page.route, pairs(page.params@))
            &&& page.root == pre.registry().node_count()
            &&& post.mount_point() == Some(page.root)
            &&& post.registry().disposal_list(page.root as int) == Seq::<usize>::empty()
            &&& pre.mount_point() matches Some(o) ==> page.disposed@ == pre.registry().disposal_list(
                o as int,
            ).reverse() && !post.registry().is_mounted(o as int)
            &&& pre.mount_point() is None ==> page.disposed@ == Seq::<usize>::empty()
            &&& post.registry().node_count() == pre.registry().node_count() + 1
            &&& post.registry().effect_count() == pre.registry().effect_count()
            &&& forall|k: int|
                0 <= k < page.disposed@.len() ==> post.registry().is_disposed(
                    #[trigger] page.disposed@[k] as int,
                )
            &&& forall|x: int|
                #![trigger post.registry().owner(x)]
                0 <= x < pre.registry().effect_count() ==> post.registry().owner(x) == pre.registry().owner(x)
                    && post.registry().subscription(x) == pre.registry().subscription(x)
            &&& forall|x: usize|
                #![trigger post.registry().is_disposed(x as int)]
                x < pre.registry().effect_count() && !page.disposed@.contains(x)
                    ==> post.registry().is_disposed(x as int) == pre.registry().is_disposed(x as int)
            &&& forall|n: int|
                #![trigger post.registry().disposal_list(n)]
                0 <= n < pre.registry().node_count() && pre.mount_point() != Some(n as usize)
                    ==> post.registry().disposal_list(n) == pre.registry().disposal_list(n)
                    && post.registry().is_mounted(n) == pre.registry().is_mounted(n)
        }
    }

    /// Resolves `path` and, when a route accepts it, mounts that route's
    /// page in place of the mounted one.
    pub fn mount(&mut self, path: &str) -> (r: Result<Page, RouteError>)
        requires
            old(self).wf(),
        ensures
            Self::mounted_page(*old(self), *final(self), path@, r),
            final(self).handle() == old(self).handle(),
    {
        let ghost pre = *self;
        assert(pre.table().patterns() == self.inner.patterns());
        let res = self.inner.resolve(path);
        let found = match res {
            Ok(found) => found,
            Err(e) => {
                return Err(e);
            },
        };
        let disposed = match self.root {
            Some(o) => self.nodes.unmount(o),
            None => Vec::new(),
        };
        let ghost mid = self.nodes;
        let root = self.nodes.create_node();
        self.root = Some(root);
        let params = copy_params(&found.params);
        self.state = RouterState::Resolved {
            location: path.to_owned(),
            route: found.route,
            params: params,
        };
        let page = Page { root, route: found.route, params: found.params, disposed };
        assert(best_match(pre.table().patterns(), path@, page.route as int));
        assert(resolved_to(self.current_state(), path@, page.route, pairs(page.params@)));
        assert(self.wf());
        assert(self.table() == pre.table());
        assert(page.root == pre.registry().node_count());
        assert(self.registry().disposal_list(page.root as int) == Seq::<usize>::empty());
        assert(pre.mount_point() matches Some(o) ==> page.disposed@ == pre.registry().disposal_list(
                o as int,
            ).reverse() && !self.registry().is_mounted(o as int));
        assert(pre.mount_point() is None ==> page.disposed@ == Seq::<usize>::empty());
        proof {
            let post = self.nodes;
            assert(mid.effect_count() == pre.registry().effect_count());
            assert forall|k: int| 0 <= k < page.disposed@.len() implies post.is_disposed(
                #[trigger] page.disposed@[k] as int,
            ) by {
                assert(mid.is_disposed(page.disposed@[k] as int));
            }
            assert forall|x: int| 0 <= x < pre.registry().effect_count() implies #[trigger] post.owner(x)
                == pre.registry().owner(x) && post.subscription(x) == pre.registry().subscription(x) by {
                assert(post.is_disposed(x) == mid.is_disposed(x));
            }
            assert forall|x: usize|
                x < pre.registry().effect_count() && !page.disposed@.contains(x)
                implies #[trigger] post.is_disposed(x as int) == pre.registry().is_disposed(x as int) by {
                assert(post.is_disposed(x as int) == mid.is_disposed(x as int));
                if let Some(o) = pre.mount_point() {
                    if pre.registry().disposal_list(o as int).contains(x) {
                        let j = choose|j: int| 0 <= j < pre.registry().disposal_list(o as int).len()
                            && pre.registry().disposal_list(o as int)[j] == x;
                        let l = pre.registry().disposal_list(o as int);
                        assert(page.disposed@[l.len() - 1 - j] == x);
                    }
                }
            }
            assert forall|n: int|
                0 <= n < pre.registry().node_count() && pre.mount_point() != Some(n as usize)
                implies #[trigger] post.disposal_list(n) == pre.registry().disposal_list(n)
                && post.is_mounted(n) == pre.registry().is_mounted(n) by {
                assert(post.disposal_list(n) == mid.disposal_list(n));
                assert(post.is_mounted(n) == mid.is_mounted(n));
            }
        }
        Ok(page)
    }

    /// The first mount: resolves the current location.
    pub fn render(&mut self) -> (r: Result<Page, RouteError>)
        requires
            old(self).wf(),
        ensures
            Self::mounted_page(*old(self), *final(self), old(self).handle().location(), r),
            final(self).handle() == old(self).handle(),
    {
        let path = self.handler.current();
        self.mount(path.as_str())
    }

    /// Handles the oldest location change not handled yet, if any: one at a
    /// time, so a navigation made while a page is being mounted waits for
    /// the next call.
    pub fn advance(&mut self) -> (r: Option<Result<Page, RouteError>>)
        requires
            old(self).wf(),
        ensures
            final(self).wf(),
            !(old(self).follower() < old(self).handle().cell().count()) ==> r is None && *final(self)
                == *old(self),
            old(self).follower() < old(self).handle().cell().count() ==> {
                let inbox = old(self).handle().cell().inbox(old(self).follower());
                &&& inbox.len() == 0 ==> r is None && *final(self) == *old(self)
                &&& inbox.len() > 0 ==> {
                    &&& r matches Some(res) && Self::mounted_page(*old(self), *final(self), inbox[0]@, res)
                    &&& final(self).handle().location() == old(self).handle().location()
                    &&& final(self).handle().cell().count() == old(self).handle().cell().count()
                    &&& final(self).handle().cell().inbox(old(self).follower()) == inbox.drop_first()
                }
            },
    {
        if self.follower >= self.handler.current.subscriber_count() {
            return None;
        }
        let ghost pre = *self;
        let next = self.handler.current.take(self.follower);
        match next {
            None => {
                assert(self.handler == pre.handler);
                assert(*self == pre);
                assert(pre.handle().cell().inbox(pre.follower()).len() == 0);
                assert(!(pre.handle().cell().inbox(pre.follower()).len() > 0));
                None
            },
            Some(path) => {
                let ghost mid = *self;
                assert(mid.table() == pre.table() && mid.registry() == pre.registry()
                    && mid.current_state() == pre.current_state() && mid.mount_point()
                    == pre.mount_point() && mid.follower() == pre.follower());
                let res = self.mount(path.as_str());
                assert(Self::mounted_page(mid, *self, path@, res));
                assert(Self::mounted_page(pre, *self, path@, res));
                Some(res)
            },
        }
    }

    /// The parameters of the current location under its route.
    pub fn current_params(&self) -> (r: Result<Vec<(String, String)>, RouteError>)
        requires
            self.wf(),
        ensures
            r is Ok <==> exists|i: int|
                0 <= i < self.table().patterns().len() && accepts(
                    #[trigger] self.table().patterns()[i],
                    self.handle().location(),
                ),
            r is Err ==> r == Err::<Vec<(String, String)>, RouteError>(RouteError::RouteNotFound),
            r matches Ok(ps) ==> exists|i: int|
                best_match(self.table().patterns(), self.handle().location(), i) && pairs(ps@)
                    == params_of(
                    segments_of(#[trigger] self.table().patterns()[i]),
                    segments_of(self.handle().location()),
                ),
    {
        let path = self.handler.current();
        assert(self.table().patterns() == self.inner.patterns());
        assert(path@ == self.handle().location());
        match self.inner.resolve(path.as_str()) {
            Ok(found) => Ok(found.params),
            Err(e) => Err(e),
        }
    }

    /// Where the router stands.
    pub fn state(&self) -> (r: &RouterState)
        ensures
            *r == self.current_state(),
    {
        &self.state
    }

    /// The root node of the mounted page, if any.
    pub fn mounted_root(&self) -> (r: Option<usize>)
        ensures
            r == self.mount_point(),
    {
        self.root
    }

    /// The node registry of the mounted pages.
    pub fn nodes(&self) -> (r: &NodeRegistry)
        ensures
            *r == self.registry(),
    {
        &self.nodes
    }

    /// The routes.
    pub fn routes(&self) -> (r: &RouteTable<H>)
        ensures
            *r == self.table(),
    {
        &self.inner
    }

    /// Feeds one navigation event to the location; nothing else changes.
    /// A navigation always sets the location and pushes a history entry; a
    /// pop sets it to the platform's path only while no fragment shows; a
    /// fragment change sets it to the fragment and rewrites the current
    /// history entry.
    pub fn dispatch(&mut self, event: NavigationEvent) -> (r: HistoryAction)
        ensures
            final(self).table() == old(self).table(),
            final(self).registry() == old(self).registry(),
            final(self).current_state() == old(self).current_state(),
            final(self).mount_point() == old(self).mount_point(),
            final(self).follower() == old(self).follower(),
            event matches NavigationEvent::Navigate(p) ==> announced(
                old(self).handle().cell(),
                final(self).handle().cell(),
                p@,
            ) && (r matches HistoryAction::Push(q) && q@ == p@),
            event matches NavigationEvent::Pop { path, hash } ==> r is Keep && (hash@.len() > 0
                ==> *final(self) == *old(self)) && (hash@.len() == 0 ==> announced(
                old(self).handle().cell(),
                final(self).handle().cell(),
                path@,
            )),
            event matches NavigationEvent::HashChange(h) ==> announced(
                old(self).handle().cell(),
                final(self).handle().cell(),
                fragment_of(h@),
            ) && (r matches HistoryAction::Replace(q) && q@ == fragment_of(h@)),
    {
        match event {
            NavigationEvent::Navigate(p) => self.handler.push(p.as_str()),
            NavigationEvent::Pop { path, hash } => self.handler.on_pop(path.as_str(), hash.as_str()),
            NavigationEvent::HashChange(h) => self.handler.on_hash_change(h.as_str()),
        }
    }
}

} // verus!
