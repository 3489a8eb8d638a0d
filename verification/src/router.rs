//! The request routing tree.  An inner node maps one path segment to a
//! child node; a leaf carries the action the dispatcher takes.  The
//! trees are built once at startup and only read afterwards; lookup is
//! a total function of the tree, the method and the path segments.

use vstd::prelude::*;

verus! {

/// What a matched route asks the dispatcher to do.
#[derive(Clone, Copy, PartialEq, Eq, Structural, Debug)]
pub enum HandlerKind {
    IndexPage,
    HomePage,
    FileFetch,
    Favicon,
}

/// The payload of a route leaf.
#[derive(Clone, Copy, PartialEq, Eq, Structural, Debug)]
pub enum Content {
    HandlerFunction(HandlerKind),
    LoginRequest,
    RegisterRequest,
    LogoutRequest,
    UserDataRequest,
    UserCommand,
    TelemetryQuery,
}

/// A node is a leaf when `leaf` is set; otherwise it is a branch whose
/// children are keyed by path segment.
pub struct RouteNode {
    pub children: Vec<(String, RouteNode)>,
    pub leaf: Option<Content>,
}

/// What a node holds, as the building API phrases it.
pub enum NodeData {
    Branch(Vec<(String, RouteNode)>),
    Leaf(Content),
}

/// The character sequences of a vector of segment strings.
pub open spec fn seg_views(segs: Seq<String>) -> Seq<Seq<char>> {
    segs.map_values(|s: String| s@)
}

/// Index of the child with this segment name, or -1.
pub open spec fn find_child(ch: Seq<(String, RouteNode)>, t: Seq<char>) -> int
    decreases ch.len(),
{
    if ch.len() == 0 {
        -1
    } else if ch[0].0@ == t {
        0
    } else {
        let r = find_child(ch.skip(1), t);
        if r < 0 {
            -1
        } else {
            r + 1
        }
    }
}

pub proof fn lemma_find_child(ch: Seq<(String, RouteNode)>, t: Seq<char>)
    ensures
        -1 <= find_child(ch, t) < ch.len(),
        find_child(ch, t) >= 0 ==> ch[find_child(ch, t)].0@ == t,
        find_child(ch, t) == -1 ==> forall|i: int|
            0 <= i < ch.len() ==> (#[trigger] ch[i]).0@ != t,
        forall|i: int| 0 <= i < find_child(ch, t) ==> (#[trigger] ch[i]).0@ != t,
    decreases ch.len(),
{
    if ch.len() > 0 && ch[0].0@ != t {
        lemma_find_child(ch.skip(1), t);
        assert(forall|i: int| 1 <= i < ch.len() ==> #[trigger] ch[i] == ch.skip(1)[i - 1]);
    }
}

/// A name on no child resolves to no position.
pub proof fn lemma_child_absent(ch: Seq<(String, RouteNode)>, t: Seq<char>)
    requires
        forall|i: int| 0 <= i < ch.len() ==> (#[trigger] ch[i]).0@ != t,
    ensures
        find_child(ch, t) == -1,
{
    lemma_find_child(ch, t);
    if find_child(ch, t) >= 0 {
        assert(ch[find_child(ch, t)].0@ == t);
    }
}

/// The fixed route ids of this server are pairwise distinct where they
/// share a branch.
proof fn lemma_route_ids_distinct()
    ensures
        "home"@ != "/"@,
        "file"@ != "/"@,
        "file"@ != "home"@,
        "favicon.ico"@ != "/"@,
        "favicon.ico"@ != "home"@,
        "favicon.ico"@ != "file"@,
        "user"@ != "/"@,
        "user"@ != "home"@,
        "user"@ != "file"@,
        "user"@ != "favicon.ico"@,
        "probe_telemetry"@ != "/"@,
        "probe_telemetry"@ != "home"@,
        "probe_telemetry"@ != "file"@,
        "probe_telemetry"@ != "favicon.ico"@,
        "probe_telemetry"@ != "user"@,
        "login"@ != "register"@,
        "logout"@ != "register"@,
        "logout"@ != "login"@,
        "user"@ != "users"@,
{
    reveal_strlit("/");
    reveal_strlit("home");
    reveal_strlit("file");
    reveal_strlit("favicon.ico");
    reveal_strlit("user");
    reveal_strlit("probe_telemetry");
    reveal_strlit("users");
    reveal_strlit("register");
    reveal_strlit("login");
    reveal_strlit("logout");
    assert("/"@.len() == 1);
    assert("home"@.len() == 4);
    assert("file"@.len() == 4);
    assert("favicon.ico"@.len() == 11);
    assert("user"@.len() == 4);
    assert("probe_telemetry"@.len() == 15);
    assert("users"@.len() == 5);
    assert("register"@.len() == 8);
    assert("login"@.len() == 5);
    assert("logout"@.len() == 6);
    assert("home"@[0] != "file"@[0]);
    assert("home"@[0] != "user"@[0]);
    assert("file"@[0] != "user"@[0]);
}

/// The lookup: at a leaf the action is found, whatever path remains; at
/// a branch the next segment (or `"/"` when the path is exhausted)
/// selects the child, and a missing child means no route.
pub open spec fn spec_route(n: RouteNode, segs: Seq<Seq<char>>, i: int) -> Option<(Content, int)>
    decreases n,
{
    match n.leaf {
        Some(c) => Some((c, i)),
        None => {
            let t = if 0 <= i < segs.len() {
                segs[i]
            } else {
                "/"@
            };
            let k = find_child(n.children@, t);
            if k < 0 || k >= n.children@.len() {
                None
            } else {
                spec_route(
                    n.children@[k].1,
                    segs,
                    if 0 <= i < segs.len() {
                        i + 1
                    } else {
                        i
                    },
                )
            }
        }
    }
}

impl RouteNode {
    /// A fresh node around the given data.
    pub fn new(data: NodeData) -> (r: RouteNode)
        ensures
            match data {
                NodeData::Branch(ch) => r.children == ch && r.leaf is None,
                NodeData::Leaf(c) => r.leaf == Some(c),
            },
    {
        match data {
            NodeData::Branch(ch) => RouteNode { children: ch, leaf: None },
            NodeData::Leaf(c) => RouteNode { children: Vec::new(), leaf: Some(c) },
        }
    }

    /// A fresh branch node without children.
    pub fn branch() -> (r: RouteNode)
        ensures
            r.children@ == Seq::<(String, RouteNode)>::empty(),
            r.leaf is None,
    {
        RouteNode { children: Vec::new(), leaf: None }
    }

    /// A fresh leaf node.
    pub fn leaf_node(c: Content) -> (r: RouteNode)
        ensures
            r.leaf == Some(c),
            r.children@ == Seq::<(String, RouteNode)>::empty(),
    {
        RouteNode { children: Vec::new(), leaf: Some(c) }
    }

    /// Position of the child carrying this segment name, if any.
    fn child_position(&self, id: &str) -> (r: Option<usize>)
        ensures
            match r {
                Some(i) => i as int == find_child(self.children@, id@) && i
                    < self.children@.len(),
                None => find_child(self.children@, id@) == -1,
            },
    {
        let ch = &self.children;
        let mut i: usize = 0;
        while i < ch.len()
            invariant
                ch == &self.children,
                i <= ch@.len(),
                forall|j: int| 0 <= j < i ==> (#[trigger] ch@[j]).0@ != id@,
            decreases ch@.len() - i,
        {
            let elem = &ch[i];
            if str_eq(elem.0.as_str(), id) {
                proof {
                    lemma_find_child(ch@, id@);
                    let kk = find_child(ch@, id@);
                    assert(ch@[i as int].0@ == id@);
                    if kk == -1 {
                        assert(false);
                    } else if kk < i {
                        assert(ch@[kk].0@ == id@);
                        assert(false);
                    } else if kk > i {
                        assert(ch@[i as int].0@ != id@);
                        assert(false);
                    }
                }
                return Some(i);
            }
            i = i + 1;
        }
        proof {
            lemma_find_child(ch@, id@);
        }
        None
    }

    /// Adds a child under this segment name — replacing the child of
    /// that name when one already exists — and returns the node, so
    /// that calls chain.
    pub fn add_child(self, id: &str, child: RouteNode) -> (r: RouteNode)
        ensures
            r.leaf == self.leaf,
            ({
                let es = self.children@;
                let k = find_child(es, id@);
                if k >= 0 {
                    &&& r.children@.len() == es.len()
                    &&& (forall|i: int|
                        0 <= i < es.len() && i != k ==> r.children@[i] == #[trigger] es[i])
                    &&& r.children@[k].0@ == id@
                    &&& r.children@[k].1 == child
                } else {
                    &&& r.children@.len() == es.len() + 1
                    &&& r.children@.subrange(0, es.len() as int) == es
                    &&& r.children@.last().0@ == id@
                    &&& r.children@.last().1 == child
                }
            }),
    {
        let at = self.child_position(id);
        let mut ch = self.children;
        match at {
            Some(i) => {
                ch[i] = (String::from_str(id), child);
            }
            None => {
                ch.push((String::from_str(id), child));
                proof {
                    assert(ch@.subrange(0, ch@.len() - 1) =~= ch@.drop_last());
                }
            }
        }
        RouteNode { children: ch, leaf: self.leaf }
    }

    /// Attaches a fresh node built from the data under this segment
    /// name, replacing any previous child so named.  The fluent
    /// original hands a mutable reference to the new child back for
    /// chaining; a mutable reference into the tree cannot be returned
    /// here, so the parent comes back whole and deeper routes are
    /// grown child-first (see the route builders below), with
    /// `select_child` for reading a child back.
    pub fn add_and_select_child(self, id: &str, data: NodeData) -> (r: RouteNode)
        ensures
            r.leaf == self.leaf,
            ({
                let es = self.children@;
                let k = find_child(es, id@);
                let attached = if k >= 0 {
                    r.children@[k]
                } else {
                    r.children@.last()
                };
                &&& (match data {
                    NodeData::Branch(sub) => attached.1.children == sub && attached.1.leaf is None,
                    NodeData::Leaf(c) => attached.1.leaf == Some(c),
                })
                &&& attached.0@ == id@
                &&& (if k >= 0 {
                    r.children@.len() == es.len() && (forall|i: int|
                        0 <= i < es.len() && i != k ==> r.children@[i] == #[trigger] es[i])
                } else {
                    r.children@.len() == es.len() + 1 && r.children@.subrange(0, es.len() as int)
                        == es
                })
            }),
    {
        let child = RouteNode::new(data);
        self.add_child(id, child)
    }

    /// The child under this segment name, if any.
    pub fn select_child(&self, id: &str) -> (r: Option<&RouteNode>)
        ensures
            ({
                let k = find_child(self.children@, id@);
                if k >= 0 {
                    r matches Some(n) && *n == self.children@[k].1
                } else {
                    r is None
                }
            }),
    {
        let ch = &self.children;
        let mut i: usize = 0;
        while i < ch.len()
            invariant
                ch == &self.children,
                i <= ch@.len(),
                forall|j: int| 0 <= j < i ==> (#[trigger] ch@[j]).0@ != id@,
            decreases ch@.len() - i,
        {
            let elem = &ch[i];
            if str_eq(elem.0.as_str(), id) {
                proof {
                    lemma_find_child(ch@, id@);
                    let kk = find_child(ch@, id@);
                    assert(ch@[i as int].0@ == id@);
                    if kk == -1 {
                        assert(false);
                    } else if kk < i {
                        assert(ch@[kk].0@ == id@);
                        assert(false);
                    } else if kk > i {
                        assert(ch@[i as int].0@ != id@);
                        assert(false);
                    }
                }
                return Some(&elem.1);
            }
            i = i + 1;
        }
        proof {
            lemma_find_child(ch@, id@);
        }
        None
    }

    /// Follows the path from this node, as the lookup specifies; a hit
    /// also reports the depth at which the leaf stood.
    pub fn route(&self, segs: &Vec<String>, i: usize) -> (r: Option<(Content, usize)>)
        ensures
            r matches Some(p) ==> spec_route(*self, seg_views(segs@), i as int) == Some(
                (p.0, p.1 as int),
            ),
            r is None ==> spec_route(*self, seg_views(segs@), i as int) is None,
        decreases *self,
    {
        let ghost gsegs = seg_views(segs@);
        match &self.leaf {
            Some(c) => Some((*c, i)),
            None => {
                let ch = &self.children;
                let mut k: usize = 0;
                while k < ch.len()
                    invariant
                        ch == &self.children,
                        self.leaf is None,
                        gsegs == seg_views(segs@),
                        k <= ch@.len(),
                        forall|j: int|
                            0 <= j < k ==> (#[trigger] ch@[j]).0@ != (if 0 <= i < gsegs.len() {
                                gsegs[i as int]
                            } else {
                                "/"@
                            }),
                    decreases ch@.len() - k,
                {
                    let elem = &ch[k];
                    let hit = if i < segs.len() {
                        elem.0 == segs[i]
                    } else {
                        str_eq(elem.0.as_str(), "/")
                    };
                    if hit {
                        proof {
                            let t = if 0 <= i < gsegs.len() {
                                gsegs[i as int]
                            } else {
                                "/"@
                            };
                            lemma_find_child(ch@, t);
                            let kk = find_child(ch@, t);
                            assert(ch@[k as int].0@ == t);
                            if kk == -1 {
                                assert(false);
                            } else if kk < k {
                                assert(ch@[kk].0@ == t);
                                assert(false);
                            } else if kk > k {
                                assert(ch@[k as int].0@ != t);
                                assert(false);
                            }
                        }
                        let next_i: usize = if i < segs.len() {
                            i + 1
                        } else {
                            i
                        };
                        proof {
                            assert(decreases_to!(*self => self.children));
                            assert(decreases_to!(self.children => self.children@));
                            assert(decreases_to!(self.children@ => self.children@[k as int]));
                            assert(decreases_to!(self.children@[k as int] => self.children@[
                                k as int
                            ].1));
                        }
                        let r = elem.1.route(segs, next_i);
                        proof {
                            let t = if 0 <= i < gsegs.len() {
                                gsegs[i as int]
                            } else {
                                "/"@
                            };
                            let kk = find_child(ch@, t);
                            assert(kk == k as int);
                            assert(next_i as int == (if 0 <= i < gsegs.len() {
                                i + 1
                            } else {
                                i as int
                            }));
                            assert(spec_route(*self, gsegs, i as int) == spec_route(
                                ch@[kk].1,
                                gsegs,
                                if 0 <= i < gsegs.len() {
                                    i + 1
                                } else {
                                    i as int
                                },
                            ));
                        }
                        return r;
                    }
                    k = k + 1;
                }
                proof {
                    lemma_find_child(ch@, if 0 <= i < gsegs.len() {
                        gsegs[i as int]
                    } else {
                        "/"@
                    });
                }
                None
            }
        }
    }
}

/// Why no action came out of a lookup.
#[derive(Clone, Copy, PartialEq, Eq, Structural, Debug)]
pub enum RouteError {
    NotFound,
    MethodNotAllowed,
}

/// The router: one tree per accepted method.
pub struct Router {
    pub get: RouteNode,
    pub post: RouteNode,
}

/// Which action a (method, path) pair selects: the method (folded to
/// lower case) picks the tree, the path segments walk it.
pub open spec fn spec_router_route(r: Router, method: Seq<char>, segs: Seq<Seq<char>>) -> Result<
    (Content, int),
    RouteError,
> {
    let m = crate::text::lower(method);
    if m == "get"@ {
        match spec_route(r.get, segs, 0) {
            Some(c) => Ok(c),
            None => Err(RouteError::NotFound),
        }
    } else if m == "post"@ {
        match spec_route(r.post, segs, 0) {
            Some(c) => Ok(c),
            None => Err(RouteError::NotFound),
        }
    } else {
        Err(RouteError::MethodNotAllowed)
    }
}

/// Law: the route lookup is a total function of the router, the method
/// and the path segments alone; equal inputs always select the same
/// action or error.
pub proof fn lemma_route_lookup_deterministic(
    r1: Router,
    r2: Router,
    m1: Seq<char>,
    m2: Seq<char>,
    s1: Seq<Seq<char>>,
    s2: Seq<Seq<char>>,
)
    requires
        r1 == r2,
        m1 == m2,
        s1 == s2,
    ensures
        spec_router_route(r1, m1, s1) == spec_router_route(r2, m2, s2),
{
}

impl Router {
    /// The fixed routes this server answers.
    pub fn new() -> (r: Router)
        ensures
            r.get.leaf is None,
            r.get.children@.len() == 1,
            r.get.children@[0].0@ == "/"@,
            ({
                let g = r.get.children@[0].1;
                &&& g.leaf is None
                &&& g.children@.len() == 6
                &&& g.children@[0].0@ == "/"@
                &&& g.children@[0].1.leaf == Some(
                    Content::HandlerFunction(HandlerKind::IndexPage),
                )
                &&& g.children@[1].0@ == "home"@
                &&& g.children@[1].1.leaf == Some(Content::HandlerFunction(HandlerKind::HomePage))
                &&& g.children@[2].0@ == "file"@
                &&& g.children@[2].1.leaf == Some(Content::HandlerFunction(HandlerKind::FileFetch))
                &&& g.children@[3].0@ == "favicon.ico"@
                &&& g.children@[3].1.leaf == Some(Content::HandlerFunction(HandlerKind::Favicon))
                &&& g.children@[4].0@ == "user"@
                &&& g.children@[4].1.leaf == Some(Content::UserDataRequest)
                &&& g.children@[5].0@ == "probe_telemetry"@
                &&& g.children@[5].1.leaf == Some(Content::TelemetryQuery)
            }),
            r.post.leaf is None,
            r.post.children@.len() == 1,
            r.post.children@[0].0@ == "/"@,
            ({
                let p = r.post.children@[0].1;
                &&& p.leaf is None
                &&& p.children@.len() == 2
                &&& p.children@[0].0@ == "users"@
                &&& p.children@[0].1.leaf is None
                &&& p.children@[0].1.children@.len() == 3
                &&& p.children@[0].1.children@[0].0@ == "register"@
                &&& p.children@[0].1.children@[0].1.leaf == Some(Content::RegisterRequest)
                &&& p.children@[0].1.children@[1].0@ == "login"@
                &&& p.children@[0].1.children@[1].1.leaf == Some(Content::LoginRequest)
                &&& p.children@[0].1.children@[2].0@ == "logout"@
                &&& p.children@[0].1.children@[2].1.leaf == Some(Content::LogoutRequest)
                &&& p.children@[1].0@ == "user"@
                &&& p.children@[1].1.leaf == Some(Content::UserCommand)
            }),
    {
        Router { get: Router::build_get_routes(), post: Router::build_post_routes() }
    }

    /// The GET tree: the index page, the home page, static files, the
    /// favicon, the budget snapshot, and the telemetry probe.
    fn build_get_routes() -> (r: RouteNode)
        ensures
            r.leaf is None,
            r.children@.len() == 1,
            r.children@[0].0@ == "/"@,
            ({
                let g = r.children@[0].1;
                &&& g.leaf is None
                &&& g.children@.len() == 6
                &&& g.children@[0].0@ == "/"@
                &&& g.children@[0].1.leaf == Some(
                    Content::HandlerFunction(HandlerKind::IndexPage),
                )
                &&& g.children@[1].0@ == "home"@
                &&& g.children@[1].1.leaf == Some(Content::HandlerFunction(HandlerKind::HomePage))
                &&& g.children@[2].0@ == "file"@
                &&& g.children@[2].1.leaf == Some(Content::HandlerFunction(HandlerKind::FileFetch))
                &&& g.children@[3].0@ == "favicon.ico"@
                &&& g.children@[3].1.leaf == Some(Content::HandlerFunction(HandlerKind::Favicon))
                &&& g.children@[4].0@ == "user"@
                &&& g.children@[4].1.leaf == Some(Content::UserDataRequest)
                &&& g.children@[5].0@ == "probe_telemetry"@
                &&& g.children@[5].1.leaf == Some(Content::TelemetryQuery)
            }),
    {
        proof {
            lemma_route_ids_distinct();
        }
        let n0 = RouteNode::branch();
        proof {
            lemma_child_absent(n0.children@, "/"@);
        }
        let n1 = n0.add_child(
            "/",
            RouteNode::leaf_node(Content::HandlerFunction(HandlerKind::IndexPage)),
        );
        proof {
            lemma_child_absent(n1.children@, "home"@);
        }
        let n2 = n1.add_child(
            "home",
            RouteNode::leaf_node(Content::HandlerFunction(HandlerKind::HomePage)),
        );
        proof {
            lemma_child_absent(n2.children@, "file"@);
        }
        let n3 = n2.add_child(
            "file",
            RouteNode::leaf_node(Content::HandlerFunction(HandlerKind::FileFetch)),
        );
        proof {
            lemma_child_absent(n3.children@, "favicon.ico"@);
        }
        let n4 = n3.add_child(
            "favicon.ico",
            RouteNode::leaf_node(Content::HandlerFunction(HandlerKind::Favicon)),
        );
        proof {
            lemma_child_absent(n4.children@, "user"@);
        }
        let n5 = n4.add_child("user", RouteNode::leaf_node(Content::UserDataRequest));
        proof {
            lemma_child_absent(n5.children@, "probe_telemetry"@);
        }
        let inner = n5.add_child(
            "probe_telemetry",
            RouteNode::leaf_node(Content::TelemetryQuery),
        );
        let root = RouteNode::branch();
        proof {
            lemma_child_absent(root.children@, "/"@);
        }
        root.add_child("/", inner)
    }

    /// The POST tree: register, login, logout, and the command endpoint.
    fn build_post_routes() -> (r: RouteNode)
        ensures
            r.leaf is None,
            r.children@.len() == 1,
            r.children@[0].0@ == "/"@,
            ({
                let p = r.children@[0].1;
                &&& p.leaf is None
                &&& p.children@.len() == 2
                &&& p.children@[0].0@ == "users"@
                &&& p.children@[0].1.leaf is None
                &&& p.children@[0].1.children@.len() == 3
                &&& p.children@[0].1.children@[0].0@ == "register"@
                &&& p.children@[0].1.children@[0].1.leaf == Some(Content::RegisterRequest)
                &&& p.children@[0].1.children@[1].0@ == "login"@
                &&& p.children@[0].1.children@[1].1.leaf == Some(Content::LoginRequest)
                &&& p.children@[0].1.children@[2].0@ == "logout"@
                &&& p.children@[0].1.children@[2].1.leaf == Some(Content::LogoutRequest)
                &&& p.children@[1].0@ == "user"@
                &&& p.children@[1].1.leaf == Some(Content::UserCommand)
            }),
    {
        proof {
            lemma_route_ids_distinct();
        }
        let u0 = RouteNode::branch();
        proof {
            lemma_child_absent(u0.children@, "register"@);
        }
        let u1 = u0.add_child("register", RouteNode::leaf_node(Content::RegisterRequest));
        proof {
            lemma_child_absent(u1.children@, "login"@);
        }
        let u2 = u1.add_child("login", RouteNode::leaf_node(Content::LoginRequest));
        proof {
            lemma_child_absent(u2.children@, "logout"@);
        }
        let users = u2.add_child("logout", RouteNode::leaf_node(Content::LogoutRequest));
        let i0 = RouteNode::branch();
        proof {
            lemma_child_absent(i0.children@, "users"@);
        }
        let i1 = i0.add_child("users", users);
        proof {
            lemma_child_absent(i1.children@, "user"@);
        }
        let inner = i1.add_child("user", RouteNode::leaf_node(Content::UserCommand));
        let root = RouteNode::branch();
        proof {
            lemma_child_absent(root.children@, "/"@);
        }
        root.add_child("/", inner)
    }

    /// Selects the tree for the method (case-insensitively) and walks
    /// it with the path segments.
    pub fn route(&self, method: &str, segs: &Vec<String>) -> (r: Result<
        (Content, usize),
        RouteError,
    >)
        ensures
            r matches Ok(p) ==> spec_router_route(*self, method@, seg_views(segs@)) == Ok::<
                (Content, int),
                RouteError,
            >((p.0, p.1 as int)),
            r matches Err(e) ==> spec_router_route(*self, method@, seg_views(segs@)) == Err::<
                (Content, int),
                RouteError,
            >(e),
    {
        let mcs = crate::text::chars_of_str(method);
        let lowered = crate::text::to_lower_chars(&mcs);
        let m = crate::text::string_from_chars(&lowered);
        if str_eq(m.as_str(), "get") {
            match self.get.route(segs, 0) {
                Some(c) => Ok(c),
                None => Err(RouteError::NotFound),
            }
        } else if str_eq(m.as_str(), "post") {
            match self.post.route(segs, 0) {
                Some(c) => Ok(c),
                None => Err(RouteError::NotFound),
            }
        } else {
            Err(RouteError::MethodNotAllowed)
        }
    }
}

/// Character-wise equality of two string slices.
pub fn str_eq(a: &str, b: &str) -> (r: bool)
    ensures
        r == (a@ == b@),
{
    let va = crate::text::chars_of_str(a);
    let vb = crate::text::chars_of_str(b);
    if va.len() != vb.len() {
        return false;
    }
    let mut i: usize = 0;
    while i < va.len()
        invariant
            va@ == a@,
            vb@ == b@,
            va@.len() == vb@.len(),
            i <= va@.len(),
            forall|j: int| 0 <= j < i ==> va@[j] == vb@[j],
        decreases va@.len() - i,
    {
        if va[i] != vb[i] {
            return false;
        }
        i = i + 1;
    }
    proof {
        assert(a@ =~= b@);
    }
    true
}

} // verus!
