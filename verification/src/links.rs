use vstd::prelude::*;
use vstd::string::*;
use std::collections::VecDeque;
use crate::analysis::{find_named, named_entry};
use crate::balances::{keys_sorted, write_entry};
use crate::representations::{copy_string, str_equals};
use crate::settings::InitialLink;
use crate::text::views;

verus! {

broadcast use vstd::std_specs::vec::group_vec_axioms;

/// A link as plain values: the contract's identifier, the node to ask and the cache.
pub type LinkView = (Seq<char>, Option<Seq<char>>, Option<Seq<char>>);

/// A resolved contract: its identifier, its source and the contracts it depends on.
pub type ResolvedView = (Seq<char>, Seq<char>, Seq<Seq<char>>);

/// The state of the resolution of the initial links: the index of the next link to start
/// from, the contracts retrieved, the contracts linked (identifier and source), whether a
/// link is being resolved, and, for that link, the queue of links to visit, the sources
/// fetched, the dependencies found and the contracts resolved.
pub type RequirementsView = (
    int,
    Seq<Seq<char>>,
    Seq<(Seq<char>, Seq<char>)>,
    bool,
    Seq<LinkView>,
    Map<Seq<char>, Seq<char>>,
    Map<Seq<char>, Seq<Seq<char>>>,
    Seq<ResolvedView>,
);

pub open spec fn text_option(o: Option<String>) -> Option<Seq<char>> {
    match o {
        Some(s) => Some(s@),
        None => None,
    }
}

pub open spec fn link_view(l: InitialLink) -> LinkView {
    (l.contract_id@, text_option(l.stacks_node_addr), text_option(l.cache))
}

pub open spec fn links_view(q: Seq<InitialLink>) -> Seq<LinkView> {
    q.map_values(|l: InitialLink| link_view(l))
}

pub open spec fn link_option(o: Option<InitialLink>) -> Option<LinkView> {
    match o {
        Some(l) => Some(link_view(l)),
        None => None,
    }
}

/// The dependencies found for `id`; none where none were.
pub open spec fn deps_in(deps: Map<Seq<char>, Seq<Seq<char>>>, id: Seq<char>) -> Seq<Seq<char>> {
    if deps.contains_key(id) {
        deps[id]
    } else {
        Seq::empty()
    }
}

/// The links of the dependencies `deps` of `link`: they are fetched from the same node and
/// cache.
pub open spec fn dependency_links(deps: Seq<Seq<char>>, link: LinkView) -> Seq<LinkView> {
    deps.map_values(|d: Seq<char>| (d, link.1, link.2))
}

/// Visits the front of the queue until a link needs fetching: a contract already retrieved
/// is passed over, and one already fetched is resolved with the dependencies found for it.
/// Gives the queue, whose front is the link to fetch where there is one, and the contracts
/// resolved.
pub open spec fn settle(
    q: Seq<LinkView>,
    handled: Map<Seq<char>, Seq<char>>,
    deps: Map<Seq<char>, Seq<Seq<char>>>,
    resolved: Seq<ResolvedView>,
    retrieved: Seq<Seq<char>>,
) -> (Seq<LinkView>, Seq<ResolvedView>)
    decreases q.len(),
{
    if q.len() == 0 {
        (q, resolved)
    } else if retrieved.contains(q[0].0) {
        settle(q.drop_first(), handled, deps, resolved, retrieved)
    } else if handled.contains_key(q[0].0) {
        settle(q.drop_first(), handled, deps, resolved.push((q[0].0, handled[q[0].0], deps_in(deps, q[0].0))), retrieved)
    } else {
        (q, resolved)
    }
}

/// The contracts retrieved and linked once the contracts `res` are added, in order, each
/// but once.
pub open spec fn merged(retrieved: Seq<Seq<char>>, linked: Seq<(Seq<char>, Seq<char>)>, res: Seq<ResolvedView>) -> (
    Seq<Seq<char>>,
    Seq<(Seq<char>, Seq<char>)>,
)
    decreases res.len(),
{
    if res.len() == 0 {
        (retrieved, linked)
    } else {
        let (r, l) = merged(retrieved, linked, res.drop_last());
        let e = res.last();
        if r.contains(e.0) {
            (r, l)
        } else {
            (r.push(e.0), l.push((e.0, e.1)))
        }
    }
}

/// Runs the resolution of the initial links `links` from state `s` until a link needs
/// fetching, or until every link is resolved: gives the state then and the link to fetch.
/// A link whose contract was retrieved already is passed over; each other is resolved in
/// turn, and the contracts it resolves are linked.
pub open spec fn advance(links: Seq<LinkView>, s: RequirementsView) -> (RequirementsView, Option<LinkView>)
    decreases links.len() - s.0, if s.3 {
        1int
    } else {
        0int
    },
{
    if s.3 {
        let (q2, res2) = settle(s.4, s.5, s.6, s.7, s.1);
        if q2.len() > 0 {
            ((s.0, s.1, s.2, true, q2.drop_first(), s.5, s.6, res2), Some(q2[0]))
        } else {
            let (r2, l2) = merged(s.1, s.2, res2);
            advance(links, (s.0, r2, l2, false, Seq::empty(), Map::empty(), Map::empty(), Seq::empty()))
        }
    } else if 0 <= s.0 < links.len() {
        let l = links[s.0];
        if s.1.contains(l.0) {
            advance(links, (s.0 + 1, s.1, s.2, false, s.4, s.5, s.6, s.7))
        } else {
            advance(links, (s.0 + 1, s.1, s.2, true, seq![l], Map::empty(), Map::empty(), Seq::empty()))
        }
    } else {
        (s, None)
    }
}

/// What fetching `link` brings to state `s`: its source `code` and its dependencies
/// `deps`. A link with dependencies is visited again after them; one without is resolved.
pub open spec fn supplied(s: RequirementsView, link: LinkView, code: Seq<char>, deps: Seq<Seq<char>>) -> RequirementsView {
    let handled = s.5.insert(link.0, code);
    if deps.len() > 0 {
        (s.0, s.1, s.2, s.3, s.4 + dependency_links(deps, link).push(link), handled, s.6.insert(link.0, deps), s.7)
    } else {
        (s.0, s.1, s.2, s.3, s.4, handled, s.6, s.7.push((link.0, code, deps_in(s.6, link.0))))
    }
}

/// The identifiers of the contracts linked.
pub open spec fn linked_ids(l: Seq<(Seq<char>, Seq<char>)>) -> Seq<Seq<char>> {
    l.map_values(|p: (Seq<char>, Seq<char>)| p.0)
}

/// Whether each contract linked is linked once, and is among those retrieved.
pub open spec fn links_unique(retrieved: Seq<Seq<char>>, linked: Seq<(Seq<char>, Seq<char>)>) -> bool {
    &&& linked_ids(linked).no_duplicates()
    &&& forall|i: int| 0 <= i < linked.len() ==> retrieved.contains(#[trigger] linked[i].0)
}

proof fn lemma_merged_unique(retrieved: Seq<Seq<char>>, linked: Seq<(Seq<char>, Seq<char>)>, res: Seq<ResolvedView>)
    requires
        links_unique(retrieved, linked),
    ensures
        links_unique(merged(retrieved, linked, res).0, merged(retrieved, linked, res).1),
    decreases res.len(),
{
    if res.len() > 0 {
        lemma_merged_unique(retrieved, linked, res.drop_last());
        let (r, l) = merged(retrieved, linked, res.drop_last());
        let e = res.last();
        if !r.contains(e.0) {
            let l2 = l.push((e.0, e.1));
            let r2 = r.push(e.0);
            assert(linked_ids(l2) =~= linked_ids(l).push(e.0));
            assert forall|i: int, j: int| 0 <= i < j < linked_ids(l2).len() implies linked_ids(l2)[i] != linked_ids(l2)[j] by {
                if j == linked_ids(l2).len() - 1 {
                    assert(linked_ids(l2)[i] == l[i].0);
                    assert(r.contains(l[i].0));
                } else {
                    assert(linked_ids(l2)[i] == linked_ids(l)[i]);
                    assert(linked_ids(l2)[j] == linked_ids(l)[j]);
                }
            }
            assert forall|i: int| 0 <= i < l2.len() implies r2.contains(#[trigger] l2[i].0) by {
                if i < l.len() {
                    assert(l2[i] == l[i]);
                    let k = choose|k: int| 0 <= k < r.len() && r[k] == l[i].0;
                    assert(r2[k] == l[i].0);
                } else {
                    assert(r2[r.len() as int] == e.0);
                }
            }
        }
    }
}

/// Each contract is linked at most once: every step of the resolution, whether it goes on
/// to the next link to fetch or takes in what a fetch gave, keeps the contracts linked free
/// of repeats and among those retrieved.
pub proof fn each_contract_linked_once(links: Seq<LinkView>, s: RequirementsView, link: LinkView, code: Seq<char>, deps: Seq<Seq<char>>)
    requires
        links_unique(s.1, s.2),
    ensures
        links_unique(advance(links, s).0.1, advance(links, s).0.2),
        links_unique(supplied(s, link, code, deps).1, supplied(s, link, code, deps).2),
    decreases links.len() - s.0, if s.3 {
        1int
    } else {
        0int
    },
{
    if s.3 {
        let (q2, res2) = settle(s.4, s.5, s.6, s.7, s.1);
        if q2.len() == 0 {
            lemma_merged_unique(s.1, s.2, res2);
            let (r2, l2) = merged(s.1, s.2, res2);
            each_contract_linked_once(
                links,
                (s.0, r2, l2, false, Seq::empty(), Map::empty(), Map::empty(), Seq::empty()),
                link,
                code,
                deps,
            );
        }
    } else if 0 <= s.0 < links.len() {
        let l = links[s.0];
        if s.1.contains(l.0) {
            each_contract_linked_once(links, (s.0 + 1, s.1, s.2, false, s.4, s.5, s.6, s.7), link, code, deps);
        } else {
            each_contract_linked_once(
                links,
                (s.0 + 1, s.1, s.2, true, seq![l], Map::empty(), Map::empty(), Seq::empty()),
                link,
                code,
                deps,
            );
        }
    }
}

/// The entries of a keyed sequence, as a map.
pub open spec fn texts_map(s: Seq<(String, String)>) -> Map<Seq<char>, Seq<char>> {
    Map::new(|k: Seq<char>| named_entry(s, k) is Some, |k: Seq<char>| named_entry(s, k)->0@)
}

pub open spec fn lists_map(s: Seq<(String, Vec<String>)>) -> Map<Seq<char>, Seq<Seq<char>>> {
    Map::new(|k: Seq<char>| named_entry(s, k) is Some, |k: Seq<char>| views(named_entry(s, k)->0@))
}

pub open spec fn resolved_view(r: Seq<(String, String, Vec<String>)>) -> Seq<ResolvedView> {
    r.map_values(|e: (String, String, Vec<String>)| (e.0@, e.1@, views(e.2@)))
}

pub open spec fn pairs_view(r: Seq<(String, String)>) -> Seq<(Seq<char>, Seq<char>)> {
    r.map_values(|e: (String, String)| (e.0@, e.1@))
}

/// Whether `s` holds `t`.
pub fn contains_text(v: &Vec<String>, t: &str) -> (r: bool)
    ensures
        r == views(v@).contains(t@),
{
    let mut i: usize = 0;
    while i < v.len()
        invariant
            i <= v@.len(),
            forall|k: int| 0 <= k < i ==> v@[k]@ != t@,
        decreases v.len() - i,
    {
        if str_equals(v[i].as_str(), t) {
            proof {
                assert(views(v@)[i as int] == t@);
            }
            return true;
        }
        i = i + 1;
    }
    proof {
        if views(v@).contains(t@) {
            let k = choose|k: int| 0 <= k < views(v@).len() && views(v@)[k] == t@;
            assert(v@[k]@ == t@);
        }
    }
    false
}

fn copy_text_option(o: &Option<String>) -> (r: Option<String>)
    ensures
        text_option(r) == text_option(*o),
{
    match o {
        Some(s) => Some(copy_string(s)),
        None => None,
    }
}

fn copy_link(l: &InitialLink) -> (r: InitialLink)
    ensures
        link_view(r) == link_view(*l),
{
    InitialLink {
        contract_id: copy_string(&l.contract_id),
        stacks_node_addr: copy_text_option(&l.stacks_node_addr),
        cache: copy_text_option(&l.cache),
    }
}

/// A copy of the strings of `v`.
pub fn copy_strings(v: &Vec<String>) -> (r: Vec<String>)
    ensures
        views(r@) == views(v@),
{
    let mut r: Vec<String> = Vec::new();
    let mut i: usize = 0;
    while i < v.len()
        invariant
            i <= v@.len(),
            views(r@) == views(v@).take(i as int),
        decreases v.len() - i,
    {
        let ghost r0 = r@;
        r.push(copy_string(&v[i]));
        proof {
            assert(r@ =~= r0.push(r@.last()));
            assert(views(r@) =~= views(r0).push(v@[i as int]@));
            assert(views(v@).take(i + 1) =~= views(v@).take(i as int).push(v@[i as int]@));
        }
        i = i + 1;
    }
    proof {
        assert(views(v@).take(i as int) =~= views(v@));
    }
    r
}

/// The resolution of the initial links of a session: which contracts are to be fetched,
/// in what order, and which are linked once fetched. The fetching is left to the caller,
/// which asks for the next link to fetch and hands back its source and dependencies.
pub struct Requirements {
    links: Vec<InitialLink>,
    next: usize,
    retrieved: Vec<String>,
    linked: Vec<(String, String)>,
    active: bool,
    queue: VecDeque<InitialLink>,
    handled: Vec<(String, String)>,
    dependencies: Vec<(String, Vec<String>)>,
    resolved: Vec<(String, String, Vec<String>)>,
}

impl Requirements {
    /// Whether the sources and the dependencies are kept sorted by identifier.
    pub closed spec fn wf(&self) -> bool {
        &&& keys_sorted(self.handled@)
        &&& keys_sorted(self.dependencies@)
    }

    /// The initial links to resolve.
    pub closed spec fn links_spec(&self) -> Seq<LinkView> {
        links_view(self.links@)
    }

    /// The state of the resolution.
    pub closed spec fn state(&self) -> RequirementsView {
        (
            self.next as int,
            views(self.retrieved@),
            pairs_view(self.linked@),
            self.active,
            links_view(self.queue@),
            texts_map(self.handled@),
            lists_map(self.dependencies@),
            resolved_view(self.resolved@),
        )
    }

    /// The resolution of `links`, before any was started.
    pub fn new(links: &Vec<InitialLink>) -> (r: Requirements)
        ensures
            r.wf(),
            r.links_spec() == links_view(links@),
            r.state() == (
                0int,
                Seq::<Seq<char>>::empty(),
                Seq::<(Seq<char>, Seq<char>)>::empty(),
                false,
                Seq::<LinkView>::empty(),
                Map::<Seq<char>, Seq<char>>::empty(),
                Map::<Seq<char>, Seq<Seq<char>>>::empty(),
                Seq::<ResolvedView>::empty(),
            ),
    {
        let mut copied: Vec<InitialLink> = Vec::new();
        let mut i: usize = 0;
        while i < links.len()
            invariant
                i <= links@.len(),
                links_view(copied@) == links_view(links@).take(i as int),
            decreases links.len() - i,
        {
            let ghost c0 = copied@;
            copied.push(copy_link(&links[i]));
            proof {
                assert(copied@ =~= c0.push(copied@.last()));
                assert(links_view(copied@) =~= links_view(c0).push(link_view(links@[i as int])));
                assert(links_view(links@).take(i + 1) =~= links_view(links@).take(i as int).push(link_view(links@[i as int])));
            }
            i = i + 1;
        }
        proof {
            assert(links_view(links@).take(i as int) =~= links_view(links@));
        }
        let r = Requirements {
            links: copied,
            next: 0,
            retrieved: Vec::new(),
            linked: Vec::new(),
            active: false,
            queue: VecDeque::new(),
            handled: Vec::new(),
            dependencies: Vec::new(),
            resolved: Vec::new(),
        };
        proof {
            assert(views(r.retrieved@) =~= Seq::<Seq<char>>::empty());
            assert(pairs_view(r.linked@) =~= Seq::<(Seq<char>, Seq<char>)>::empty());
            assert(links_view(r.queue@) =~= Seq::<LinkView>::empty());
            assert(texts_map(r.handled@) =~= Map::<Seq<char>, Seq<char>>::empty());
            assert(lists_map(r.dependencies@) =~= Map::<Seq<char>, Seq<Seq<char>>>::empty());
            assert(resolved_view(r.resolved@) =~= Seq::<ResolvedView>::empty());
        }
        r
    }

    /// The contracts linked so far: identifier and source, in the order they were resolved.
    pub fn linked(&self) -> (r: &Vec<(String, String)>)
        ensures
            pairs_view(r@) == self.state().2,
    {
        &self.linked
    }

    /// Visits the queue of the link being resolved until a link needs fetching.
    fn pop_fetch(&mut self) -> (r: Option<InitialLink>)
        requires
            old(self).wf(),
        ensures
            final(self).wf(),
            ({
                let s = old(self).state();
                let (q2, res2) = settle(s.4, s.5, s.6, s.7, s.1);
                &&& final(self).state() == (s.0, s.1, s.2, s.3, if q2.len() > 0 {
                    q2.drop_first()
                } else {
                    q2
                }, s.5, s.6, res2)
                &&& link_option(r) == if q2.len() > 0 {
                    Some(q2[0])
                } else {
                    None::<LinkView>
                }
            }),
            final(self).links_spec() == old(self).links_spec(),
    {
        let ghost s = self.state();
        loop
            invariant
                self.wf(),
                s == old(self).state(),
                self.links_spec() == old(self).links_spec(),
                self.state().0 == s.0,
                self.state().1 == s.1,
                self.state().2 == s.2,
                self.state().3 == s.3,
                self.state().5 == s.5,
                self.state().6 == s.6,
                settle(self.state().4, s.5, s.6, self.state().7, s.1) == settle(s.4, s.5, s.6, s.7, s.1),
            decreases self.queue@.len(),
        {
            let ghost q = self.state().4;
            let ghost res = self.state().7;
            let link = match self.queue.pop_front() {
                Some(l) => l,
                None => {
                    proof {
                        assert(q.len() == 0);
                        assert(settle(q, s.5, s.6, res, s.1) == (q, res));
                        assert(self.state() == (s.0, s.1, s.2, s.3, q, s.5, s.6, res));
                    }
                    return None;
                },
            };
            proof {
                assert(links_view(self.queue@) =~= q.drop_first());
                assert(q[0] == link_view(link));
            }
            if contains_text(&self.retrieved, link.contract_id.as_str()) {
                proof {
                    assert(self.state().4 == q.drop_first());
                }
            } else {
                let found = match find_named(&self.handled, link.contract_id.as_str()) {
                    Some(c) => Some(copy_string(c)),
                    None => None,
                };
                match found {
                    Some(code) => {
                        let deps = match find_named(&self.dependencies, link.contract_id.as_str()) {
                            Some(v) => copy_strings(v),
                            None => Vec::new(),
                        };
                        proof {
                            assert(views(deps@) == deps_in(s.6, link.contract_id@)) by {
                                if !s.6.contains_key(link.contract_id@) {
                                    assert(views(deps@) =~= Seq::<Seq<char>>::empty());
                                }
                            }
                        }
                        let id = copy_string(&link.contract_id);
                        self.resolved.push((id, code, deps));
                        proof {
                            assert(resolved_view(self.resolved@) =~= res.push(
                                (q[0].0, s.5[q[0].0], deps_in(s.6, q[0].0)),
                            ));
                        }
                    },
                    None => {
                        proof {
                            assert(!s.5.contains_key(q[0].0));
                            assert(!s.1.contains(q[0].0));
                            assert(settle(q, s.5, s.6, res, s.1) == (q, res));
                            assert(self.state() == (s.0, s.1, s.2, s.3, q.drop_first(), s.5, s.6, res));
                        }
                        return Some(link);
                    },
                }
            }
        }
    }

    /// Adds the contracts resolved to those retrieved and linked, each but once.
    fn merge_resolved(&mut self)
        requires
            old(self).wf(),
        ensures
            final(self).wf(),
            ({
                let s = old(self).state();
                final(self).state() == (s.0, merged(s.1, s.2, s.7).0, merged(s.1, s.2, s.7).1, s.3, s.4, s.5, s.6, s.7)
            }),
            final(self).links_spec() == old(self).links_spec(),
    {
        let ghost s = self.state();
        let mut i: usize = 0;
        proof {
            assert(s.7.take(0) =~= Seq::<ResolvedView>::empty());
        }
        while i < self.resolved.len()
            invariant
                i <= s.7.len(),
                s == old(self).state(),
                self.wf(),
                self.links_spec() == old(self).links_spec(),
                self.state().0 == s.0,
                self.state().3 == s.3,
                self.state().4 == s.4,
                self.state().5 == s.5,
                self.state().6 == s.6,
                self.state().7 == s.7,
                (self.state().1, self.state().2) == merged(s.1, s.2, s.7.take(i as int)),
            decreases self.resolved.len() - i,
        {
            proof {
                assert(s.7.take(i + 1).drop_last() =~= s.7.take(i as int));
                assert(s.7.take(i + 1).last() == s.7[i as int]);
            }
            if !contains_text(&self.retrieved, self.resolved[i].0.as_str()) {
                let id = copy_string(&self.resolved[i].0);
                let code = copy_string(&self.resolved[i].1);
                let ghost r0 = views(self.retrieved@);
                let ghost l0 = pairs_view(self.linked@);
                self.retrieved.push(copy_string(&id));
                self.linked.push((id, code));
                proof {
                    assert(views(self.retrieved@) =~= r0.push(s.7[i as int].0));
                    assert(pairs_view(self.linked@) =~= l0.push((s.7[i as int].0, s.7[i as int].1)));
                }
            }
            i = i + 1;
        }
        proof {
            assert(s.7.take(i as int) =~= s.7);
        }
    }

    /// The next link to fetch, where one is left: the resolution goes on until a link needs
    /// fetching or every initial link is resolved.
    pub fn next_fetch(&mut self) -> (r: Option<InitialLink>)
        requires
            old(self).wf(),
        ensures
            final(self).wf(),
            (final(self).state(), link_option(r)) == advance(old(self).links_spec(), old(self).state()),
            final(self).links_spec() == old(self).links_spec(),
    {
        loop
            invariant
                self.wf(),
                self.links_spec() == old(self).links_spec(),
                advance(self.links_spec(), self.state()) == advance(old(self).links_spec(), old(self).state()),
            decreases self.links@.len() - self.next, if self.active {
                1int
            } else {
                0int
            },
        {
            if self.active {
                let r = self.pop_fetch();
                match r {
                    Some(l) => {
                        return Some(l);
                    },
                    None => {
                        self.merge_resolved();
                        self.active = false;
                        self.queue = VecDeque::new();
                        self.handled = Vec::new();
                        self.dependencies = Vec::new();
                        self.resolved = Vec::new();
                        proof {
                            assert(links_view(self.queue@) =~= Seq::<LinkView>::empty());
                            assert(texts_map(self.handled@) =~= Map::<Seq<char>, Seq<char>>::empty());
                            assert(lists_map(self.dependencies@) =~= Map::<Seq<char>, Seq<Seq<char>>>::empty());
                            assert(resolved_view(self.resolved@) =~= Seq::<ResolvedView>::empty());
                        }
                    },
                }
            } else if self.next < self.links.len() {
                let link = copy_link(&self.links[self.next]);
                proof {
                    assert(self.links_spec()[self.next as int] == link_view(link));
                }
                self.next = self.next + 1;
                if !contains_text(&self.retrieved, link.contract_id.as_str()) {
                    self.active = true;
                    let ghost lv = link_view(link);
                    let mut q = VecDeque::new();
                    q.push_back(link);
                    self.queue = q;
                    self.handled = Vec::new();
                    self.dependencies = Vec::new();
                    self.resolved = Vec::new();
                    proof {
                        assert(links_view(self.queue@) =~= seq![lv]);
                        assert(texts_map(self.handled@) =~= Map::<Seq<char>, Seq<char>>::empty());
                        assert(lists_map(self.dependencies@) =~= Map::<Seq<char>, Seq<Seq<char>>>::empty());
                        assert(resolved_view(self.resolved@) =~= Seq::<ResolvedView>::empty());
                    }
                }
            } else {
                return None;
            }
        }
    }

    /// Hands back what fetching `link` gave: its source `code` and its dependencies `deps`.
    pub fn supply(&mut self, link: InitialLink, code: String, deps: Vec<String>)
        requires
            old(self).wf(),
        ensures
            final(self).wf(),
            final(self).state() == supplied(old(self).state(), link_view(link), code@, views(deps@)),
            final(self).links_spec() == old(self).links_spec(),
    {
        let ghost s = self.state();
        let id = copy_string(&link.contract_id);
        write_entry(&mut self.handled, id.as_str(), code);
        proof {
            assert(texts_map(self.handled@) =~= s.5.insert(link.contract_id@, code@));
        }
        if deps.len() > 0 {
            let mut i: usize = 0;
            let ghost q0 = links_view(self.queue@);
            while i < deps.len()
                invariant
                    i <= deps@.len(),
                    self.wf(),
                    self.state().0 == s.0,
                    self.state().1 == s.1,
                    self.state().2 == s.2,
                    self.state().3 == s.3,
                    self.state().5 == s.5.insert(link.contract_id@, code@),
                    self.state().6 == s.6,
                    self.state().7 == s.7,
                    self.links_spec() == old(self).links_spec(),
                    links_view(self.queue@) == q0 + dependency_links(views(deps@), link_view(link)).take(i as int),
                decreases deps.len() - i,
            {
                let l = InitialLink {
                    contract_id: copy_string(&deps[i]),
                    stacks_node_addr: copy_text_option(&link.stacks_node_addr),
                    cache: copy_text_option(&link.cache),
                };
                let ghost lv = link_view(l);
                let ghost qb = self.queue@;
                self.queue.push_back(l);
                proof {
                    let dl = dependency_links(views(deps@), link_view(link));
                    assert(dl[i as int] == lv);
                    assert(dl.take(i + 1) =~= dl.take(i as int).push(lv));
                    assert(links_view(self.queue@) =~= links_view(qb).push(lv));
                    assert(links_view(self.queue@) =~= q0 + dl.take(i + 1));
                }
                i = i + 1;
            }
            let copied = copy_strings(&deps);
            write_entry(&mut self.dependencies, id.as_str(), copied);
            let ghost lv = link_view(link);
            let ghost qb = self.queue@;
            self.queue.push_back(link);
            proof {
                assert(links_view(self.queue@) =~= links_view(qb).push(lv));
                assert(dependency_links(views(deps@), lv).take(i as int) =~= dependency_links(views(deps@), lv));
                assert(links_view(self.queue@) =~= s.4 + dependency_links(views(deps@), lv).push(lv));
                assert(lists_map(self.dependencies@) =~= s.6.insert(lv.0, views(deps@)));
            }
        } else {
            let found = match find_named(&self.dependencies, id.as_str()) {
                Some(v) => copy_strings(v),
                None => Vec::new(),
            };
            proof {
                assert(views(found@) == deps_in(s.6, id@)) by {
                    if !s.6.contains_key(id@) {
                        assert(views(found@) =~= Seq::<Seq<char>>::empty());
                    }
                }
            }
            let code_copy = match find_named(&self.handled, id.as_str()) {
                Some(c) => copy_string(c),
                None => String::new(),
            };
            let ghost ids = id@;
            self.resolved.push((id, code_copy, found));
            proof {
                assert(resolved_view(self.resolved@) =~= s.7.push((ids, code@, deps_in(s.6, ids))));
            }
        }
    }
}

} // verus!
