use vstd::prelude::*;

verus! {

/// Position and size of a window, as the display server reports them.
#[derive(Copy, Clone, Debug, PartialEq, Eq, Structural)]
pub struct Geometry {
    pub x: i32,
    pub y: i32,
    pub width: u32,
    pub height: u32,
}

/// One managed window: its handle, its last recorded geometry and whether it
/// covers the whole screen.
#[derive(Copy, Clone, Debug, PartialEq, Eq, Structural)]
pub struct Client {
    pub window: u64,
    pub fullscreen: bool,
    pub workspace_x: i32,
    pub workspace_y: i32,
    pub workspace_width: u32,
    pub workspace_height: u32,
}

impl Client {
    /// A client for `window`, not fullscreen, with an all-zero geometry.
    pub fn new(window: u64) -> (client: Self)
        ensures
            client == Client::fresh(window),
    {
        Client {
            window,
            fullscreen: false,
            workspace_x: 0,
            workspace_y: 0,
            workspace_width: 0,
            workspace_height: 0,
        }
    }

    /// The client that `new` builds for `window`.
    pub open spec fn fresh(window: u64) -> Client {
        Client {
            window,
            fullscreen: false,
            workspace_x: 0,
            workspace_y: 0,
            workspace_width: 0,
            workspace_height: 0,
        }
    }

    /// This client with its recorded geometry replaced by `g`.
    pub open spec fn with_geometry(self, g: Geometry) -> Client {
        Client {
            window: self.window,
            fullscreen: self.fullscreen,
            workspace_x: g.x,
            workspace_y: g.y,
            workspace_width: g.width,
            workspace_height: g.height,
        }
    }

    /// This client with its fullscreen flag replaced by `on`.
    pub open spec fn with_fullscreen(self, on: bool) -> Client {
        Client {
            window: self.window,
            fullscreen: on,
            workspace_x: self.workspace_x,
            workspace_y: self.workspace_y,
            workspace_width: self.workspace_width,
            workspace_height: self.workspace_height,
        }
    }

    /// The recorded geometry of this client.
    pub open spec fn spec_geometry(self) -> Geometry {
        Geometry {
            x: self.workspace_x,
            y: self.workspace_y,
            width: self.workspace_width,
            height: self.workspace_height,
        }
    }

    #[verifier::when_used_as_spec(spec_geometry)]
    pub fn geometry(self) -> (g: Geometry)
        ensures
            g == self.spec_geometry(),
    {
        Geometry {
            x: self.workspace_x,
            y: self.workspace_y,
            width: self.workspace_width,
            height: self.workspace_height,
        }
    }
}

/// A stable handle to a client held by a `ClientRegistry`. It stays valid, and
/// keeps naming the same client, until that client is removed.
#[derive(Copy, Clone, Debug, PartialEq, Eq, Structural)]
pub struct ClientRef {
    pub index: usize,
}

/// One cell of the registry's node store.
#[derive(Copy, Clone, Debug)]
struct Slot {
    client: Client,
    next: usize,
    prev: usize,
    live: bool,
}

/// Whether position `j` comes directly after position `i` in a ring of `n`
/// positions.
spec fn follows(i: int, j: int, n: int) -> bool {
    j == i + 1 || (i == n - 1 && j == 0)
}

/// Whether `order` names slot `s`.
spec fn listed(order: Seq<usize>, s: int) -> bool {
    exists|i: int| 0 <= i < order.len() && #[trigger] order[i] == s
}

/// Whether the `next` / `prev` fields of the slots named by `order` tie them
/// into one ring, in the order in which `order` lists them, and no other slot
/// is live.
spec fn ring(slots: Seq<Slot>, order: Seq<usize>) -> bool {
    let n = order.len() as int;
    &&& order.no_duplicates()
    &&& forall|i: int| 0 <= i < n ==> (#[trigger] order[i]) < slots.len()
    &&& forall|i: int| 0 <= i < n ==> slots[#[trigger] order[i] as int].live
    &&& forall|s: int| 0 <= s < slots.len() && (#[trigger] slots[s]).live ==> listed(order, s)
    &&& forall|i: int, j: int|
        0 <= i < n && 0 <= j < n && follows(i, j, n) ==> {
            &&& slots[#[trigger] order[i] as int].next == #[trigger] order[j]
            &&& slots[order[j] as int].prev == order[i]
        }
}

/// Distinct indices below `m` are at most `m` many.
proof fn lemma_distinct_bounded(order: Seq<usize>, m: nat)
    requires
        order.no_duplicates(),
        forall|i: int| 0 <= i < order.len() ==> (#[trigger] order[i]) < m,
    ensures
        order.len() <= m,
    decreases m,
{
    if order.len() > 0 {
        if m == 0 {
            assert(order[0] < m);
        } else if exists|k: int| 0 <= k < order.len() && order[k] == (m - 1) {
            let k = choose|k: int| 0 <= k < order.len() && order[k] == (m - 1);
            let rest = order.remove(k);
            assert forall|i: int| 0 <= i < rest.len() implies (#[trigger] rest[i]) < (m - 1) as nat by {
                if i < k {
                    assert(rest[i] == order[i]);
                } else {
                    assert(rest[i] == order[i + 1]);
                }
            }
            assert(rest.no_duplicates()) by {
                assert forall|i: int, j: int| 0 <= i < rest.len() && 0 <= j < rest.len() && i != j implies rest[i] != rest[j] by {
                    let oi = if i < k { i } else { i + 1 };
                    let oj = if j < k { j } else { j + 1 };
                    assert(rest[i] == order[oi]);
                    assert(rest[j] == order[oj]);
                }
            }
            lemma_distinct_bounded(rest, (m - 1) as nat);
        } else {
            assert forall|i: int| 0 <= i < order.len() implies (#[trigger] order[i]) < (m - 1) as nat by {
                assert(order[i] < m);
            }
            lemma_distinct_bounded(order, (m - 1) as nat);
        }
    }
}

/// The position of the last occurrence of `window` in `windows`, if it occurs.
pub open spec fn last_index(windows: Seq<u64>, window: u64) -> Option<int>
    decreases windows.len(),
{
    if windows.len() == 0 {
        None
    } else if windows.last() == window {
        Some(windows.len() - 1)
    } else {
        last_index(windows.drop_last(), window)
    }
}

/// `last_index` finds a position exactly when the window occurs, and the
/// position it finds holds the window and is followed by no other occurrence.
pub proof fn lemma_last_index(windows: Seq<u64>, window: u64)
    ensures
        last_index(windows, window).is_none() <==> !windows.contains(window),
        last_index(windows, window) matches Some(k) ==> {
            &&& 0 <= k < windows.len()
            &&& windows[k] == window
            &&& forall|j: int| k < j < windows.len() ==> windows[j] != window
        },
    decreases windows.len(),
{
    if windows.len() > 0 {
        if windows.last() == window {
            assert(windows[windows.len() - 1] == window);
        } else {
            let front = windows.drop_last();
            lemma_last_index(front, window);
            if front.contains(window) {
                let k = front.index_of(window);
                assert(windows[k] == window);
            }
            if windows.contains(window) {
                let k = windows.index_of(window);
                assert(front[k] == window);
            }
            if let Some(k) = last_index(front, window) {
                assert forall|j: int| k < j < windows.len() implies windows[j] != window by {
                    if j < front.len() {
                        assert(front[j] == windows[j]);
                    }
                }
            }
        }
    }
}

/// The collection of managed windows: a circular, doubly linked sequence kept
/// in insertion order inside an owned node store, with one client optionally
/// marked as focused.
pub struct ClientRegistry {
    slots: Vec<Slot>,
    head: Option<usize>,
    focus: Option<usize>,
    count: usize,
    workspaces: Vec<Option<usize>>,
    order: Ghost<Seq<usize>>,
}

/// The number of workspaces. They are numbered from 1; number 0 is not used.
pub const WORKSPACES: usize = 10;

impl ClientRegistry {
    /// The structural invariant: the live slots form one ring that starts at
    /// the head, the stored count is the ring's length, the focus, if set,
    /// names a live client, and every workspace refers to the head.
    pub closed spec fn wf(&self) -> bool {
        &&& self.linked()
        &&& self.workspaces@.len() == WORKSPACES + 1
        &&& forall|w: int| 1 <= w <= WORKSPACES ==> #[trigger] self.workspaces@[w] == self.head
    }

    /// The part of the invariant that speaks of the ring and the focus.
    spec fn linked(&self) -> bool {
        &&& ring(self.slots@, self.order@)
        &&& self.count == self.order@.len()
        &&& self.head == (if self.order@.len() > 0 { Some(self.order@[0]) } else { None })
        &&& match self.focus {
            Some(f) => f < self.slots@.len() && self.slots@[f as int].live,
            None => true,
        }
    }

    /// The handles of the clients, head first, in traversal order.
    pub closed spec fn refs(&self) -> Seq<ClientRef> {
        Seq::new(self.order@.len(), |i: int| ClientRef { index: self.order@[i] })
    }

    /// The clients, head first, in traversal order.
    pub closed spec fn clients(&self) -> Seq<Client> {
        Seq::new(self.order@.len(), |i: int| self.slots@[self.order@[i] as int].client)
    }

    /// The window handles, head first, in traversal order.
    pub open spec fn windows(&self) -> Seq<u64> {
        Seq::new(self.clients().len(), |i: int| self.clients()[i].window)
    }

    /// The focused client, if any.
    pub closed spec fn spec_focused(&self) -> Option<ClientRef> {
        match self.focus {
            Some(f) => Some(ClientRef { index: f }),
            None => None,
        }
    }

    /// The handle that follows `r` in the ring, as the node store links it.
    pub closed spec fn next_of(&self, r: ClientRef) -> ClientRef {
        ClientRef { index: self.slots@[r.index as int].next }
    }

    /// The handle that precedes `r` in the ring, as the node store links it.
    pub closed spec fn prev_of(&self, r: ClientRef) -> ClientRef {
        ClientRef { index: self.slots@[r.index as int].prev }
    }

    /// An empty registry with nothing focused.
    pub fn new() -> (reg: Self)
        ensures
            reg.wf(),
            reg.refs() == Seq::<ClientRef>::empty(),
            reg.clients() == Seq::<Client>::empty(),
            reg.spec_focused().is_none(),
    {
        let mut workspaces: Vec<Option<usize>> = Vec::new();
        let mut w: usize = 0;
        while w <= WORKSPACES
            invariant
                w <= WORKSPACES + 1,
                workspaces@.len() == w,
                forall|v: int| 0 <= v < w ==> #[trigger] workspaces@[v] == None::<usize>,
            decreases WORKSPACES + 1 - w,
        {
            workspaces.push(None);
            w += 1;
        }
        let reg = ClientRegistry {
            slots: Vec::new(),
            head: None,
            focus: None,
            count: 0,
            workspaces,
            order: Ghost(Seq::empty()),
        };
        assert(reg.refs() =~= Seq::<ClientRef>::empty());
        assert(reg.clients() =~= Seq::<Client>::empty());
        reg
    }

    /// The number of managed clients.
    pub fn len(&self) -> (n: usize)
        requires
            self.wf(),
        ensures
            n == self.refs().len(),
            n == self.clients().len(),
    {
        self.count
    }

    /// The focused client, if any.
    #[verifier::when_used_as_spec(spec_focused)]
    pub fn focused(&self) -> (r: Option<ClientRef>)
        requires
            self.wf(),
        ensures
            r == self.spec_focused(),
            r.is_some() ==> self.refs().contains(r.unwrap()),
    {
        proof {
            self.lemma_focus_held();
        }
        match self.focus {
            Some(f) => Some(ClientRef { index: f }),
            None => None,
        }
    }

    /// The focused client is one that the registry holds; an empty registry
    /// has no focus.
    pub proof fn lemma_focus_held(&self)
        requires
            self.wf(),
        ensures
            self.spec_focused() matches Some(r) ==> self.refs().contains(r),
    {
        if let Some(f) = self.focus {
            assert(self.slots@[f as int].live);
            assert(listed(self.order@, f as int));
            let k = choose|k: int| 0 <= k < self.order@.len() && self.order@[k] == f;
            assert(self.refs()[k] == ClientRef { index: f });
        }
    }

    /// The index of a slot that holds no client; the store's length if every
    /// slot is taken.
    fn vacant(&self) -> (idx: usize)
        ensures
            idx <= self.slots@.len(),
            idx < self.slots@.len() ==> !self.slots@[idx as int].live,
    {
        let mut i: usize = 0;
        while i < self.slots.len()
            invariant
                i <= self.slots@.len(),
            decreases self.slots@.len() - i,
        {
            if !self.slots[i].live {
                return i;
            }
            i += 1;
        }
        i
    }

    /// Makes every workspace refer to the head of the ring.
    fn sync_workspaces(&mut self)
        requires
            old(self).linked(),
            old(self).workspaces@.len() == WORKSPACES + 1,
        ensures
            final(self).wf(),
            final(self).refs() == old(self).refs(),
            final(self).clients() == old(self).clients(),
            final(self).spec_focused() == old(self).spec_focused(),
    {
        let mut w: usize = 1;
        while w <= WORKSPACES
            invariant
                1 <= w <= WORKSPACES + 1,
                self.slots == old(self).slots,
                self.head == old(self).head,
                self.focus == old(self).focus,
                self.count == old(self).count,
                self.order == old(self).order,
                self.workspaces@.len() == WORKSPACES + 1,
                forall|v: int| 1 <= v < w ==> #[trigger] self.workspaces@[v] == self.head,
            decreases WORKSPACES + 1 - w,
        {
            self.workspaces.set(w, self.head);
            w += 1;
        }
    }

    /// Adds a client for `window` at the tail of the ring and returns its
    /// handle. The head, the focus and every other client stay as they were,
    /// and every workspace refers to the head afterwards.
    pub fn insert(&mut self, window: u64) -> (r: ClientRef)
        requires
            old(self).wf(),
        ensures
            final(self).wf(),
            !old(self).refs().contains(r),
            final(self).refs() == old(self).refs().push(r),
            final(self).clients() == old(self).clients().push(Client::fresh(window)),
            final(self).spec_focused() == old(self).spec_focused(),
    {
        let r = self.link_tail(window);
        self.sync_workspaces();
        r
    }

    /// Links a client for `window` in at the tail of the ring.
    fn link_tail(&mut self, window: u64) -> (r: ClientRef)
        requires
            old(self).linked(),
        ensures
            final(self).linked(),
            final(self).workspaces == old(self).workspaces,
            !old(self).refs().contains(r),
            final(self).refs() == old(self).refs().push(r),
            final(self).clients() == old(self).clients().push(Client::fresh(window)),
            final(self).spec_focused() == old(self).spec_focused(),
    {
        let idx = self.vacant();
        let fresh = Slot { client: Client::new(window), next: idx, prev: idx, live: false };
        if idx == self.slots.len() {
            self.slots.push(fresh);
        } else {
            self.slots.set(idx, fresh);
        }
        let total = self.slots.len();
        let ghost before = self.order@;
        let ghost mid = self.slots@;
        proof {
            assert forall|i: int| 0 <= i < before.len() implies #[trigger] before[i] != idx by {
                if before[i] == idx {
                    assert(old(self).slots@[before[i] as int].live);
                }
            }
            assert forall|s: int| 0 <= s < mid.len() && (#[trigger] mid[s]).live implies listed(
                before,
                s,
            ) by {
                assert(old(self).slots@[s].live);
            }
            assert(ring(mid, before));
            let grown = before.push(idx);
            assert(grown.no_duplicates());
            assert forall|i: int| 0 <= i < grown.len() implies (#[trigger] grown[i]) < mid.len() by {
                if i < before.len() {
                    assert(grown[i] == before[i]);
                }
            }
            lemma_distinct_bounded(grown, mid.len());
            assert(self.count < total);
        }
        match self.head {
            None => {
                self.slots.set(idx, Slot { client: fresh.client, next: idx, prev: idx, live: true });
                self.head = Some(idx);
            },
            Some(h) => {
                proof {
                    let n = before.len() as int;
                    assert(follows(n - 1, 0, n));
                    assert(mid[before[n - 1] as int].next == before[0]);
                }
                let tail = self.slots[h].prev;
                let mut t = self.slots[tail];
                t.next = idx;
                self.slots.set(tail, t);
                let mut hs = self.slots[h];
                hs.prev = idx;
                self.slots.set(h, hs);
                self.slots.set(idx, Slot { client: fresh.client, next: h, prev: tail, live: true });
            },
        }
        self.count = self.count + 1;
        self.order = Ghost(before.push(idx));
        let r = ClientRef { index: idx };
        proof {
            let after = self.order@;
            let now = self.slots@;
            let n = before.len() as int;
            assert(now.len() == mid.len());
            assert forall|i: int| 0 <= i < n implies before[i] != idx && after[i] == before[i] by {
                if before[i] == idx {
                    assert(mid[before[i] as int].live);
                }
            }
            assert forall|s: int| 0 <= s < now.len() && (#[trigger] now[s]).live implies listed(
                after,
                s,
            ) by {
                if s == idx {
                    assert(after[n] == idx);
                } else {
                    assert(mid[s].live);
                    let k = choose|k: int| 0 <= k < before.len() && before[k] == s;
                    assert(after[k] == s);
                }
            }
            assert forall|i: int, j: int|
                0 <= i < n + 1 && 0 <= j < n + 1 && follows(i, j, n + 1) implies {
                &&& now[#[trigger] after[i] as int].next == #[trigger] after[j]
                &&& now[after[j] as int].prev == after[i]
            } by {
                if n > 0 {
                    assert(follows(n - 1, 0, n));
                    assert(mid[before[n - 1] as int].next == before[0]);
                    if i < n && j < n {
                        assert(follows(i, j, n));
                        assert(mid[before[i] as int].next == before[j]);
                    }
                }
            }
            assert forall|i: int| 0 <= i < n + 1 implies now[#[trigger] after[i] as int].live by {
                if i < n {
                    assert(mid[before[i] as int].live);
                }
            }
            assert(ring(now, after));
            assert forall|i: int| 0 <= i < n implies now[#[trigger] after[i] as int].client
                == mid[before[i] as int].client by {}
            assert(self.refs() =~= old(self).refs().push(r));
            assert(self.clients() =~= old(self).clients().push(Client::fresh(window)));
            assert(!old(self).refs().contains(r)) by {
                if old(self).refs().contains(r) {
                    let k = old(self).refs().index_of(r);
                    assert(before[k] == idx);
                }
            }
        }
        r
    }

    /// Removes the last client, in traversal order, whose window is `window`,
    /// and returns the handle it had. The clients before it keep their
    /// places and those after it move up by one; the focus is cleared if it
    /// was on the removed client. When no client has that window nothing
    /// changes.
    pub fn remove(&mut self, window: u64) -> (r: Option<ClientRef>)
        requires
            old(self).wf(),
        ensures
            final(self).wf(),
            match last_index(old(self).windows(), window) {
                None => {
                    &&& r.is_none()
                    &&& final(self).refs() == old(self).refs()
                    &&& final(self).clients() == old(self).clients()
                    &&& final(self).spec_focused() == old(self).spec_focused()
                },
                Some(k) => {
                    &&& r == Some(old(self).refs()[k])
                    &&& final(self).refs() == old(self).refs().remove(k)
                    &&& final(self).clients() == old(self).clients().remove(k)
                    &&& final(self).spec_focused() == (if old(self).spec_focused() == r {
                        None
                    } else {
                        old(self).spec_focused()
                    })
                },
            },
    {
        let found = self.locate(window);
        match found {
            None => None,
            Some(x) => {
                let ghost k = last_index(self.windows(), window).unwrap();
                proof {
                    lemma_last_index(self.windows(), window);
                    assert(self.refs()[k] == ClientRef { index: x });
                }
                self.unlink(x, Ghost(k));
                self.sync_workspaces();
                Some(ClientRef { index: x })
            },
        }
    }

    /// The slot of the last client, in traversal order, whose window is
    /// `window`.
    fn locate(&self, window: u64) -> (found: Option<usize>)
        requires
            self.wf(),
        ensures
            match last_index(self.windows(), window) {
                None => found.is_none(),
                Some(k) => 0 <= k < self.order@.len() && found == Some(self.order@[k]),
            },
    {
        let ghost order = self.order@;
        let ghost ws = self.windows();
        let ghost n = order.len() as int;
        let ghost mut k: int = -1;
        let mut found: Option<usize> = None;
        let mut cur: usize = match self.head {
            Some(h) => h,
            None => 0,
        };
        let mut i: usize = 0;
        while i < self.count
            invariant
                self.wf(),
                order == self.order@,
                ws == self.windows(),
                n == order.len(),
                i <= n,
                i < n ==> cur == order[i as int],
                last_index(ws.take(i as int), window) == (if k >= 0 {
                    Some(k)
                } else {
                    None
                }),
                -1 <= k < i,
                found == (if k >= 0 {
                    Some(order[k])
                } else {
                    None
                }),
            decreases n - i,
        {
            proof {
                let j = if i + 1 == n { 0 } else { i + 1 };
                assert(follows(i as int, j, n));
                assert(self.slots@[order[i as int] as int].next == order[j]);
                assert(ws.take(i + 1).drop_last() =~= ws.take(i as int));
                assert(ws.take(i + 1).last() == ws[i as int]);
                assert(ws[i as int] == self.slots@[order[i as int] as int].client.window);
            }
            if self.slots[cur].client.window == window {
                found = Some(cur);
                proof {
                    k = i as int;
                }
            }
            cur = self.slots[cur].next;
            i += 1;
        }
        proof {
            assert(ws.take(n) =~= ws);
        }
        found
    }

    /// Takes the client in slot `x`, which stands at position `k`, out of the
    /// ring.
    fn unlink(&mut self, x: usize, Ghost(k): Ghost<int>)
        requires
            old(self).linked(),
            0 <= k < old(self).order@.len(),
            old(self).order@[k] == x,
        ensures
            final(self).linked(),
            final(self).workspaces == old(self).workspaces,
            final(self).refs() == old(self).refs().remove(k),
            final(self).clients() == old(self).clients().remove(k),
            final(self).spec_focused() == (if old(self).spec_focused() == Some(
                ClientRef { index: x },
            ) {
                None
            } else {
                old(self).spec_focused()
            }),
    {
        let ghost order = self.order@;
        let ghost n = order.len() as int;
        let ghost mid = self.slots@;
        let ghost pk = if k == 0 { n - 1 } else { k - 1 };
        let ghost nk = if k == n - 1 { 0 } else { k + 1 };
        proof {
            assert(follows(pk, k, n));
            assert(follows(k, nk, n));
            assert(mid[order[pk] as int].next == order[k]);
            assert(mid[order[k] as int].next == order[nk]);
        }
        let p = self.slots[x].prev;
        let nx = self.slots[x].next;
        if self.count == 1 {
            self.head = None;
        } else {
            let mut ps = self.slots[p];
            ps.next = nx;
            self.slots.set(p, ps);
            let mut ns = self.slots[nx];
            ns.prev = p;
            self.slots.set(nx, ns);
            if self.head == Some(x) {
                self.head = Some(nx);
            }
        }
        let mut xs = self.slots[x];
        xs.live = false;
        self.slots.set(x, xs);
        if self.focus == Some(x) {
            self.focus = None;
        }
        self.count = self.count - 1;
        self.order = Ghost(order.remove(k));
        proof {
            let now = self.slots@;
            assert(p == order[pk] && nx == order[nk]);
            assert forall|s: int| 0 <= s < mid.len() implies now[s].client == mid[s].client
                && (#[trigger] now[s]).live == (mid[s].live && s != order[k]) by {}
            assert forall|i: int, j: int|
                0 <= i < n && 0 <= j < n && i != k && j != k && (follows(i, j, n) || (follows(
                    i,
                    k,
                    n,
                ) && follows(k, j, n))) implies {
                &&& now[#[trigger] order[i] as int].next == #[trigger] order[j]
                &&& now[order[j] as int].prev == order[i]
            } by {
                if follows(i, j, n) {
                    assert(mid[order[i] as int].next == order[j]);
                    assert(i != pk);
                    assert(j != nk);
                    assert(order[i] != order[pk]);
                    assert(order[j] != order[nk]);
                } else {
                    assert(i == pk && j == nk);
                }
            }
            Self::lemma_unlinked(mid, now, order, k);
            let after = self.order@;
            assert forall|i: int| 0 <= i < n - 1 implies now[#[trigger] after[i] as int].client
                == mid[order[if i < k { i } else { i + 1 }] as int].client by {}
            assert(self.refs() =~= old(self).refs().remove(k));
            assert(self.clients() =~= old(self).clients().remove(k));
            if k == 0 && n > 1 {
                assert(after[0] == order[1]);
            }
        }
    }

    /// Taking the slot at position `k` out of a ring, and tying its two
    /// neighbours to each other, leaves a ring of the remaining slots.
    proof fn lemma_unlinked(mid: Seq<Slot>, now: Seq<Slot>, order: Seq<usize>, k: int)
        requires
            ring(mid, order),
            0 <= k < order.len(),
            now.len() == mid.len(),
            forall|s: int| 0 <= s < mid.len() ==> (#[trigger] now[s]).live == (mid[s].live && s
                != order[k]),
            forall|i: int, j: int|
                0 <= i < order.len() && 0 <= j < order.len() && i != k && j != k && (follows(
                    i,
                    j,
                    order.len() as int,
                ) || (follows(i, k, order.len() as int) && follows(k, j, order.len() as int)))
                    ==> {
                    &&& now[#[trigger] order[i] as int].next == #[trigger] order[j]
                    &&& now[order[j] as int].prev == order[i]
                },
        ensures
            ring(now, order.remove(k)),
    {
        let n = order.len() as int;
        let after = order.remove(k);
        assert forall|i: int| 0 <= i < n - 1 implies #[trigger] after[i] == order[if i < k {
            i
        } else {
            i + 1
        }] by {}
        assert(after.no_duplicates()) by {
            assert forall|i: int, j: int|
                0 <= i < after.len() && 0 <= j < after.len() && i != j implies after[i]
                != after[j] by {
                let oi = if i < k { i } else { i + 1 };
                let oj = if j < k { j } else { j + 1 };
                assert(after[i] == order[oi]);
                assert(after[j] == order[oj]);
            }
        }
        assert forall|i: int| 0 <= i < n - 1 implies now[#[trigger] after[i] as int].live by {
            let oi = if i < k { i } else { i + 1 };
            assert(after[i] == order[oi]);
            assert(mid[order[oi] as int].live);
        }
        assert forall|s: int| 0 <= s < now.len() && (#[trigger] now[s]).live implies listed(
            after,
            s,
        ) by {
            assert(mid[s].live);
            assert(listed(order, s));
            let o = choose|o: int| 0 <= o < order.len() && order[o] == s;
            let i = if o < k { o } else { o - 1 };
            assert(after[i] == s);
        }
        assert forall|i: int, j: int|
            0 <= i < n - 1 && 0 <= j < n - 1 && follows(i, j, n - 1) implies {
            &&& now[#[trigger] after[i] as int].next == #[trigger] after[j]
            &&& now[after[j] as int].prev == after[i]
        } by {
            let oi = if i < k { i } else { i + 1 };
            let oj = if j < k { j } else { j + 1 };
            assert(after[i] == order[oi]);
            assert(after[j] == order[oj]);
            assert(follows(oi, oj, n) || (follows(oi, k, n) && follows(k, oj, n)));
        }
    }

    /// The position of `r` among the handles; meaningful when `r` is held.
    pub open spec fn position(&self, r: ClientRef) -> int {
        self.refs().index_of(r)
    }

    /// The position that follows `i` in a ring of `n` positions.
    pub open spec fn succ(i: int, n: int) -> int {
        if i + 1 == n {
            0
        } else {
            i + 1
        }
    }

    /// The position that precedes `i` in a ring of `n` positions.
    pub open spec fn pred(i: int, n: int) -> int {
        if i == 0 {
            n - 1
        } else {
            i - 1
        }
    }

    /// No handle is held twice, and there is one handle for each client.
    pub proof fn lemma_refs_distinct(&self)
        requires
            self.wf(),
        ensures
            self.refs().no_duplicates(),
            self.refs().len() == self.clients().len(),
            self.windows().len() == self.clients().len(),
            forall|i: int| 0 <= i < self.refs().len() ==> self.position(#[trigger] self.refs()[i]) == i,
    {
        assert forall|i: int| 0 <= i < self.refs().len() implies self.position(
            #[trigger] self.refs()[i],
        ) == i by {
            let r = self.refs()[i];
            assert(self.refs().contains(r));
            let k = self.refs().index_of(r);
            assert(self.order@[k] == self.order@[i]);
        }
    }

    /// Every `next` / `prev` pair is mutually consistent, and `next` leads
    /// from each position of the traversal to the one after it, from the last
    /// back to the head: walking `next` from the head returns to it after
    /// exactly as many steps as there are clients.
    pub proof fn lemma_links_consistent(&self, i: int)
        requires
            self.wf(),
            0 <= i < self.refs().len(),
        ensures
            self.next_of(self.refs()[i]) == self.refs()[Self::succ(i, self.refs().len() as int)],
            self.prev_of(self.refs()[Self::succ(i, self.refs().len() as int)]) == self.refs()[i],
            self.prev_of(self.next_of(self.refs()[i])) == self.refs()[i],
            self.next_of(self.prev_of(self.refs()[i])) == self.refs()[i],
    {
        let n = self.order@.len() as int;
        let j = Self::succ(i, n);
        let h = if i == 0 { n - 1 } else { i - 1 };
        assert(follows(i, j, n));
        assert(follows(h, i, n));
        assert(self.slots@[self.order@[i] as int].next == self.order@[j]);
        assert(self.slots@[self.order@[h] as int].next == self.order@[i]);
    }

    /// Whether `r` names a client that the registry holds.
    pub fn contains(&self, r: ClientRef) -> (held: bool)
        requires
            self.wf(),
        ensures
            held == self.refs().contains(r),
    {
        if r.index < self.slots.len() && self.slots[r.index].live {
            proof {
                assert(listed(self.order@, r.index as int));
                let k = choose|k: int| 0 <= k < self.order@.len() && self.order@[k] == r.index;
                assert(self.refs()[k] == r);
            }
            true
        } else {
            proof {
                if self.refs().contains(r) {
                    let k = self.refs().index_of(r);
                    assert(self.order@[k] == r.index);
                }
            }
            false
        }
    }

    /// The client that `r` names, if the registry holds it.
    pub fn get(&self, r: ClientRef) -> (c: Option<Client>)
        requires
            self.wf(),
        ensures
            c == (if self.refs().contains(r) {
                Some(self.clients()[self.position(r)])
            } else {
                None
            }),
    {
        if self.contains(r) {
            proof {
                let k = self.refs().index_of(r);
                assert(self.order@[k] == r.index);
            }
            Some(self.slots[r.index].client)
        } else {
            None
        }
    }

    /// The head of the ring: the client that has been held longest.
    pub fn head(&self) -> (r: Option<ClientRef>)
        requires
            self.wf(),
        ensures
            r == (if self.refs().len() > 0 {
                Some(self.refs()[0])
            } else {
                None
            }),
    {
        match self.head {
            Some(h) => Some(ClientRef { index: h }),
            None => None,
        }
    }

    /// The tail of the ring: the client that was inserted last.
    pub fn tail(&self) -> (r: Option<ClientRef>)
        requires
            self.wf(),
        ensures
            r == (if self.refs().len() > 0 {
                Some(self.refs()[self.refs().len() - 1])
            } else {
                None
            }),
    {
        match self.head {
            Some(h) => {
                proof {
                    let n = self.order@.len() as int;
                    assert(follows(n - 1, 0, n));
                    assert(self.slots@[self.order@[n - 1] as int].next == self.order@[0]);
                }
                Some(ClientRef { index: self.slots[h].prev })
            },
            None => None,
        }
    }

    /// The client after `r` in the ring, if the registry holds `r`.
    pub fn next(&self, r: ClientRef) -> (s: Option<ClientRef>)
        requires
            self.wf(),
        ensures
            s == (if self.refs().contains(r) {
                Some(self.refs()[Self::succ(self.position(r), self.refs().len() as int)])
            } else {
                None
            }),
            self.refs().contains(r) ==> s == Some(self.next_of(r)),
    {
        if self.contains(r) {
            proof {
                let k = self.refs().index_of(r);
                self.lemma_links_consistent(k);
            }
            Some(ClientRef { index: self.slots[r.index].next })
        } else {
            None
        }
    }

    /// The client before `r` in the ring, if the registry holds `r`.
    pub fn prev(&self, r: ClientRef) -> (s: Option<ClientRef>)
        requires
            self.wf(),
        ensures
            s == (if self.refs().contains(r) {
                Some(self.refs()[Self::pred(self.position(r), self.refs().len() as int)])
            } else {
                None
            }),
            self.refs().contains(r) ==> s == Some(self.prev_of(r)),
    {
        if self.contains(r) {
            proof {
                let n = self.order@.len() as int;
                let k = self.refs().index_of(r);
                assert(self.order@[k] == r.index);
                let h = if k == 0 { n - 1 } else { k - 1 };
                assert(follows(h, k, n));
                assert(self.slots@[self.order@[h] as int].next == self.order@[k]);
                assert(self.refs()[h] == ClientRef { index: self.order@[h] });
            }
            Some(ClientRef { index: self.slots[r.index].prev })
        } else {
            None
        }
    }

    /// The last client, in traversal order, whose window is `window`.
    pub fn find(&self, window: u64) -> (r: Option<ClientRef>)
        requires
            self.wf(),
        ensures
            r == match last_index(self.windows(), window) {
                Some(k) => Some(self.refs()[k]),
                None => None,
            },
    {
        proof {
            lemma_last_index(self.windows(), window);
        }
        match self.locate(window) {
            Some(x) => Some(ClientRef { index: x }),
            None => None,
        }
    }

    /// One full pass over the ring: every handle once, head first. The pass is
    /// bounded by the number of clients, not by meeting the head again.
    pub fn iter(&self) -> (out: Vec<ClientRef>)
        requires
            self.wf(),
        ensures
            out@ == self.refs(),
    {
        let ghost order = self.order@;
        let ghost n = order.len() as int;
        let mut out: Vec<ClientRef> = Vec::new();
        let mut cur: usize = match self.head {
            Some(h) => h,
            None => 0,
        };
        let mut i: usize = 0;
        while i < self.count
            invariant
                self.wf(),
                order == self.order@,
                n == order.len(),
                i <= n,
                i < n ==> cur == order[i as int],
                out@ == self.refs().take(i as int),
            decreases n - i,
        {
            proof {
                let j = if i + 1 == n { 0 } else { i + 1 };
                assert(follows(i as int, j, n));
                assert(self.slots@[order[i as int] as int].next == order[j]);
                assert(self.refs().take(i + 1) =~= self.refs().take(i as int).push(
                    ClientRef { index: cur },
                ));
            }
            out.push(ClientRef { index: cur });
            cur = self.slots[cur].next;
            i += 1;
        }
        proof {
            assert(self.refs().take(n) =~= self.refs());
        }
        out
    }

    /// Marks `r` as focused if the registry holds it; otherwise changes
    /// nothing. Tells which it was.
    pub fn set_focused(&mut self, r: ClientRef) -> (held: bool)
        requires
            old(self).wf(),
        ensures
            final(self).wf(),
            held == old(self).refs().contains(r),
            final(self).refs() == old(self).refs(),
            final(self).clients() == old(self).clients(),
            final(self).spec_focused() == (if held {
                Some(r)
            } else {
                old(self).spec_focused()
            }),
    {
        if self.contains(r) {
            proof {
                let k = self.refs().index_of(r);
                assert(self.order@[k] == r.index);
            }
            self.focus = Some(r.index);
            true
        } else {
            false
        }
    }

    /// Leaves no client focused.
    pub fn clear_focus(&mut self)
        requires
            old(self).wf(),
        ensures
            final(self).wf(),
            final(self).refs() == old(self).refs(),
            final(self).clients() == old(self).clients(),
            final(self).spec_focused().is_none(),
    {
        self.focus = None;
    }

    /// Replaces the record of the client that `r` names, keeping its window
    /// handle; changes nothing if the registry does not hold `r`.
    fn replace(&mut self, r: ClientRef, client: Client) -> (held: bool)
        requires
            old(self).wf(),
        ensures
            final(self).wf(),
            held == old(self).refs().contains(r),
            final(self).refs() == old(self).refs(),
            final(self).spec_focused() == old(self).spec_focused(),
            final(self).clients() == (if held {
                old(self).clients().update(old(self).position(r), client)
            } else {
                old(self).clients()
            }),
    {
        if self.contains(r) {
            let ghost k = self.refs().index_of(r);
            proof {
                assert(self.order@[k] == r.index);
            }
            let mut slot = self.slots[r.index];
            slot.client = client;
            self.slots.set(r.index, slot);
            proof {
                let order = self.order@;
                assert forall|s: int| 0 <= s < self.slots@.len() && (#[trigger] self.slots@[s]).live implies listed(
                    order,
                    s,
                ) by {
                    assert(old(self).slots@[s].live);
                }
                assert forall|i: int, j: int|
                    0 <= i < order.len() && 0 <= j < order.len() && follows(
                        i,
                        j,
                        order.len() as int,
                    ) implies {
                    &&& self.slots@[#[trigger] order[i] as int].next == #[trigger] order[j]
                    &&& self.slots@[order[j] as int].prev == order[i]
                } by {
                    assert(old(self).slots@[order[i] as int].next == order[j]);
                }
                assert forall|i: int| 0 <= i < order.len() implies self.slots@[#[trigger] order[i] as int].live by {
                    assert(old(self).slots@[order[i] as int].live);
                }
                assert(self.refs() =~= old(self).refs());
                assert forall|i: int| 0 <= i < order.len() && i != k implies order[i] != r.index by {}
                assert(self.clients() =~= old(self).clients().update(k, client));
            }
            true
        } else {
            false
        }
    }

    /// Records `g` as the geometry of the client that `r` names; changes
    /// nothing if the registry does not hold `r`.
    pub fn set_geometry(&mut self, r: ClientRef, g: Geometry) -> (held: bool)
        requires
            old(self).wf(),
        ensures
            final(self).wf(),
            held == old(self).refs().contains(r),
            final(self).refs() == old(self).refs(),
            final(self).spec_focused() == old(self).spec_focused(),
            final(self).clients() == (if held {
                old(self).clients().update(
                    old(self).position(r),
                    old(self).clients()[old(self).position(r)].with_geometry(g),
                )
            } else {
                old(self).clients()
            }),
    {
        match self.get(r) {
            Some(c) => {
                let updated = Client {
                    window: c.window,
                    fullscreen: c.fullscreen,
                    workspace_x: g.x,
                    workspace_y: g.y,
                    workspace_width: g.width,
                    workspace_height: g.height,
                };
                self.replace(r, updated)
            },
            None => false,
        }
    }

    /// Sets the fullscreen flag of the client that `r` names; changes nothing
    /// if the registry does not hold `r`.
    pub fn set_fullscreen(&mut self, r: ClientRef, on: bool) -> (held: bool)
        requires
            old(self).wf(),
        ensures
            final(self).wf(),
            held == old(self).refs().contains(r),
            final(self).refs() == old(self).refs(),
            final(self).spec_focused() == old(self).spec_focused(),
            final(self).clients() == (if held {
                old(self).clients().update(
                    old(self).position(r),
                    old(self).clients()[old(self).position(r)].with_fullscreen(on),
                )
            } else {
                old(self).clients()
            }),
    {
        match self.get(r) {
            Some(c) => {
                let updated = Client {
                    window: c.window,
                    fullscreen: on,
                    workspace_x: c.workspace_x,
                    workspace_y: c.workspace_y,
                    workspace_width: c.workspace_width,
                    workspace_height: c.workspace_height,
                };
                self.replace(r, updated)
            },
            None => false,
        }
    }

    /// The client sequence that workspace `index` refers to: the head of the
    /// ring for each of the workspaces 1 to 10, nothing for any other index.
    pub fn workspace(&self, index: usize) -> (r: Option<ClientRef>)
        requires
            self.wf(),
        ensures
            r == (if 1 <= index <= WORKSPACES && self.refs().len() > 0 {
                Some(self.refs()[0])
            } else {
                None
            }),
    {
        if 1 <= index && index <= WORKSPACES {
            match self.workspaces[index] {
                Some(h) => Some(ClientRef { index: h }),
                None => None,
            }
        } else {
            None
        }
    }

    /// Removing a client leaves the others in their relative order: those
    /// before it keep their places, those after it move up by one. Removing
    /// the only client leaves the registry empty. `before` is a registry and
    /// `after` what became of it when the client at position `k` left.
    pub proof fn lemma_remove_keeps_order(before: Self, after: Self, k: int)
        requires
            0 <= k < before.refs().len(),
            after.refs() == before.refs().remove(k),
            after.clients() == before.clients().remove(k),
            before.refs().len() == before.clients().len(),
        ensures
            after.refs().len() == before.refs().len() - 1,
            before.refs().len() == 1 ==> after.refs() == Seq::<ClientRef>::empty() && after.clients()
                == Seq::<Client>::empty(),
            forall|i: int| 0 <= i < k ==> after.refs()[i] == before.refs()[i],
            forall|i: int| 0 <= i < k ==> after.clients()[i] == before.clients()[i],
            forall|i: int| k <= i < after.refs().len() ==> after.refs()[i] == before.refs()[i + 1],
            forall|i: int|
                k <= i < after.clients().len() ==> after.clients()[i] == before.clients()[i + 1],
    {
        if before.refs().len() == 1 {
            assert(after.refs() =~= Seq::<ClientRef>::empty());
            assert(after.clients() =~= Seq::<Client>::empty());
        }
    }
}

} // verus!
