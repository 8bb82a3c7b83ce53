use vstd::prelude::*;
use crate::ptracer::{byte_patch_ops, Ptracer, TraceOp, TracePort};
use crate::target_desc::Target;

verus! {

/// What the session does on its own when a breakpoint of this kind is hit:
/// nothing special, entering the main program, or a dynamic-linker load
/// event.
#[derive(Clone, Copy, PartialEq, Eq, Structural, Debug)]
pub enum Action {
    EnterMainBinary,
    UpdateRDebug,
}

/// One software breakpoint: its identity, its runtime address, the byte the
/// trap replaced (meaningful only while active), whether its trap is
/// currently installed, and its automatic action.
#[derive(Clone, Copy, Debug)]
pub struct Breakpoint {
    pub id: i32,
    pub addr: u64,
    pub token: u8,
    pub is_active: bool,
    pub action: Option<Action>,
}

impl Breakpoint {
    pub fn id(&self) -> (r: i32)
        ensures
            r == self.id,
    {
        self.id
    }

    pub fn addr(&self) -> (r: u64)
        ensures
            r == self.addr,
    {
        self.addr
    }

    pub fn token(&self) -> (r: u8)
        ensures
            r == self.token,
    {
        self.token
    }

    pub fn action(&self) -> (r: &Option<Action>)
        ensures
            *r == self.action,
    {
        &self.action
    }
}

/// `k` is the position of the first table entry at address `addr`.
pub open spec fn is_first_bp_at_addr(bps: Seq<Breakpoint>, addr: u64, k: int) -> bool {
    &&& 0 <= k < bps.len()
    &&& bps[k].addr == addr
    &&& forall|j: int| 0 <= j < k ==> bps[j].addr != addr
}

/// The first table entry at address `addr`, if any.
pub open spec fn spec_find_by_addr(bps: Seq<Breakpoint>, addr: u64) -> Option<Breakpoint> {
    if exists|k: int| is_first_bp_at_addr(bps, addr, k) {
        Some(bps[choose|k: int| is_first_bp_at_addr(bps, addr, k)])
    } else {
        None
    }
}

/// `k` is the position of the first table entry with identity `id`.
pub open spec fn is_first_bp_with_id(bps: Seq<Breakpoint>, id: i32, k: int) -> bool {
    &&& 0 <= k < bps.len()
    &&& bps[k].id == id
    &&& forall|j: int| 0 <= j < k ==> bps[j].id != id
}

/// The first table entry with identity `id`, if any.
pub open spec fn spec_find_by_id(bps: Seq<Breakpoint>, id: i32) -> Option<Breakpoint> {
    if exists|k: int| is_first_bp_with_id(bps, id, k) {
        Some(bps[choose|k: int| is_first_bp_with_id(bps, id, k)])
    } else {
        None
    }
}

/// In a well-formed table identities are unique, so looking an entry's own
/// identity up finds that entry.
pub proof fn lemma_unique_find_by_id(m: BreakpointManager, k: int)
    requires
        m.wf(),
        0 <= k < m.breakpoints@.len(),
    ensures
        spec_find_by_id(m.breakpoints@, m.breakpoints@[k].id) == Some(m.breakpoints@[k]),
{
    let bps = m.breakpoints@;
    let id = bps[k].id;
    assert(is_first_bp_with_id(bps, id, k)) by {
        assert forall|j: int| 0 <= j < k implies bps[j].id != id by {
            assert(bps[j].id != bps[k].id);
        }
    }
    let k2 = choose|k2: int| is_first_bp_with_id(bps, id, k2);
    if k2 < k {
        assert(bps[k2].id != bps[k].id);
    } else if k2 > k {
        assert(bps[k].id != id);
    }
}

/// The port traffic of installing a trap at every entry of `bps` in
/// order, each patch reading the word `ws[i]` there.
pub open spec fn install_ops(bps: Seq<Breakpoint>, ws: Seq<u64>, trap: u8) -> Seq<TraceOp>
    decreases bps.len(),
{
    if bps.len() == 0 {
        Seq::empty()
    } else {
        install_ops(bps.drop_last(), ws.drop_last(), trap) + byte_patch_ops(
            bps.last().addr,
            ws.last(),
            trap,
        )
    }
}

/// Installing a trap at each of `bps` issues exactly two port calls per
/// entry.
pub proof fn lemma_install_ops_len(bps: Seq<Breakpoint>, ws: Seq<u64>, trap: u8)
    ensures
        install_ops(bps, ws, trap).len() == 2 * bps.len(),
    decreases bps.len(),
{
    if bps.len() > 0 {
        lemma_install_ops_len(bps.drop_last(), ws.drop_last(), trap);
    }
}

/// The table of every breakpoint of the session, with the two counters the
/// identities come from: user breakpoints count up from one, internal ones
/// count down from minus one, so the two spaces never collide.
pub struct BreakpointManager {
    pub breakpoints: Vec<Breakpoint>,
    pub next_id: i32,
    pub next_sys_id: i32,
}

impl BreakpointManager {
    /// Identities are sound: the counters have not crossed zero and every
    /// entry carries an identity one of them has handed out.
    pub open spec fn wf(self) -> bool {
        &&& self.next_id >= 0
        &&& self.next_sys_id <= 0
        &&& forall|i: int|
            0 <= i < self.breakpoints@.len() ==> {
                let id = (#[trigger] self.breakpoints@[i]).id;
                (0 < id <= self.next_id) || (self.next_sys_id <= id < 0)
            }
        &&& forall|i: int, j: int|
            0 <= i < j < self.breakpoints@.len() ==> (#[trigger] self.breakpoints@[i]).id != (
            #[trigger] self.breakpoints@[j]).id
    }

    /// Every trap is installed.
    pub open spec fn all_active(self) -> bool {
        forall|i: int|
            0 <= i < self.breakpoints@.len() ==> (#[trigger] self.breakpoints@[i]).is_active
    }

    /// No trap is installed.
    pub open spec fn all_inactive(self) -> bool {
        forall|i: int|
            0 <= i < self.breakpoints@.len() ==> !(#[trigger] self.breakpoints@[i]).is_active
    }

    /// Entry `i` keeps its identity, address and action.
    pub open spec fn same_entry(self, other: Self, i: int) -> bool {
        &&& other.breakpoints@[i].id == self.breakpoints@[i].id
        &&& other.breakpoints@[i].addr == self.breakpoints@[i].addr
        &&& other.breakpoints@[i].action == self.breakpoints@[i].action
    }

    pub fn new() -> (r: Self)
        ensures
            r.breakpoints@.len() == 0,
            r.next_id == 0,
            r.next_sys_id == 0,
            r.wf(),
            r.all_inactive(),
    {
        BreakpointManager { breakpoints: Vec::new(), next_id: 0, next_sys_id: 0 }
    }

    /// Installs the trap of every breakpoint, in table order: each becomes
    /// active exactly once, remembering the byte its trap replaced.  Called
    /// once right after a fresh process begins running, so breakpoints
    /// registered before any process existed take effect.
    #[verifier::loop_isolation(false)]
    pub fn notify_start<P: TracePort>(
        &mut self,
        tracer: &mut Ptracer,
        port: &mut P,
        target: &Target,
    )
        requires
            old(self).all_inactive(),
            target.wf(),
        ensures
            final(self).breakpoints@.len() == old(self).breakpoints@.len(),
            final(self).next_id == old(self).next_id,
            final(self).next_sys_id == old(self).next_sys_id,
            final(self).all_active(),
            forall|i: int|
                0 <= i < old(self).breakpoints@.len() ==> old(self).same_entry(*final(self), i),
            final(tracer).pid == old(tracer).pid,
            exists|ws: Seq<u64>|
                ws.len() == old(self).breakpoints@.len() && final(tracer).ops@ == old(
                    tracer,
                ).ops@ + install_ops(old(self).breakpoints@, ws, target.breakpoint_op) && forall|
                    i: int,
                |
                    0 <= i < ws.len() ==> (#[trigger] final(self).breakpoints@[i]).token == (
                    ws[i] & 0xffu64) as u8,
            old(self).wf() ==> final(self).wf(),
    {
        let n = self.breakpoints.len();
        let mut i: usize = 0;
        let ghost mut ws: Seq<u64> = Seq::empty();
        while i < n
            invariant
                i <= n,
                n == self.breakpoints@.len(),
                old(self).breakpoints@.len() == n,
                self.next_id == old(self).next_id,
                self.next_sys_id == old(self).next_sys_id,
                forall|j: int|
                    0 <= j < n ==> {
                        let e = #[trigger] self.breakpoints@[j];
                        e.id == old(self).breakpoints@[j].id && e.addr == old(
                            self,
                        ).breakpoints@[j].addr && e.action == old(self).breakpoints@[j].action
                    },
                forall|j: int|
                    i <= j < n ==> (#[trigger] self.breakpoints@[j]) == old(self).breakpoints@[j],
                forall|j: int| 0 <= j < i ==> (#[trigger] self.breakpoints@[j]).is_active,
                tracer.pid == old(tracer).pid,
                ws.len() == i,
                tracer.ops@ == old(tracer).ops@ + install_ops(
                    old(self).breakpoints@.take(i as int),
                    ws,
                    target.breakpoint_op,
                ),
                forall|j: int|
                    0 <= j < i ==> (#[trigger] self.breakpoints@[j]).token == (ws[j]
                        & 0xffu64) as u8,
            decreases n - i,
        {
            let mut bp = self.breakpoints[i];
            let ghost pre = self.breakpoints@;
            let ghost pre_ops = tracer.ops@;
            bp.token = tracer.poke_breakpoint(port, bp.addr, target);
            bp.is_active = true;
            self.breakpoints[i] = bp;
            proof {
                let w = choose|w: u64|
                    tracer.ops@ == pre_ops + byte_patch_ops(bp.addr, w, target.breakpoint_op)
                        && bp.token == (w & 0xffu64) as u8;
                let pre_ws = ws;
                ws = ws.push(w);
                assert(forall|j: int|
                    0 <= j < n && j != i ==> (#[trigger] self.breakpoints@[j]) == pre[j]);
                assert(old(self).breakpoints@.take(i + 1).drop_last() =~= old(
                    self,
                ).breakpoints@.take(i as int));
                assert(old(self).breakpoints@.take(i + 1).last() == old(self).breakpoints@[i as int]);
                assert(ws.drop_last() =~= pre_ws);
                assert(ws.last() == w);
                assert(install_ops(
                    old(self).breakpoints@.take(i + 1),
                    ws,
                    target.breakpoint_op,
                ) == install_ops(old(self).breakpoints@.take(i as int), pre_ws, target.breakpoint_op)
                    + byte_patch_ops(bp.addr, w, target.breakpoint_op));
                assert(tracer.ops@ =~= old(tracer).ops@ + install_ops(
                    old(self).breakpoints@.take(i + 1),
                    ws,
                    target.breakpoint_op,
                ));
            }
            i += 1;
        }
        proof {
            assert forall|j: int| 0 <= j < n implies old(self).same_entry(*self, j) by {
                assert(self.breakpoints@[j].id == old(self).breakpoints@[j].id);
            }
            assert(old(self).breakpoints@.take(n as int) =~= old(self).breakpoints@);
            assert(tracer.ops@ == old(tracer).ops@ + install_ops(
                old(self).breakpoints@,
                ws,
                target.breakpoint_op,
            ));
            if old(self).wf() {
                assert forall|j: int|
                    0 <= j < self.breakpoints@.len() implies {
                        let id = (#[trigger] self.breakpoints@[j]).id;
                        (0 < id <= self.next_id) || (self.next_sys_id <= id < 0)
                    } by {
                    assert(self.breakpoints@[j].id == old(self).breakpoints@[j].id);
                    assert(old(self).wf());
                }
                assert forall|j: int, k: int|
                    0 <= j < k < self.breakpoints@.len() implies (
                    #[trigger] self.breakpoints@[j]).id != (#[trigger] self.breakpoints@[k]).id by {
                    assert(self.breakpoints@[j].id == old(self).breakpoints@[j].id);
                    assert(self.breakpoints@[k].id == old(self).breakpoints@[k].id);
                    assert(old(self).breakpoints@[j].id != old(self).breakpoints@[k].id);
                }
            }
        }
    }

    /// Marks every breakpoint inactive and drops its saved byte: a fresh
    /// process loads fresh code, so stale bytes would mean nothing.  Called
    /// once when the traced process ends.
    #[verifier::loop_isolation(false)]
    pub fn notify_finish(&mut self)
        requires
            old(self).all_active(),
        ensures
            final(self).breakpoints@.len() == old(self).breakpoints@.len(),
            final(self).next_id == old(self).next_id,
            final(self).next_sys_id == old(self).next_sys_id,
            final(self).all_inactive(),
            forall|i: int|
                0 <= i < old(self).breakpoints@.len() ==> old(self).same_entry(*final(self), i)
                    && final(self).breakpoints@[i].token == 0,
            old(self).wf() ==> final(self).wf(),
    {
        let n = self.breakpoints.len();
        let mut i: usize = 0;
        while i < n
            invariant
                i <= n,
                n == self.breakpoints@.len(),
                old(self).breakpoints@.len() == n,
                self.next_id == old(self).next_id,
                self.next_sys_id == old(self).next_sys_id,
                forall|j: int|
                    0 <= j < n ==> {
                        let e = #[trigger] self.breakpoints@[j];
                        e.id == old(self).breakpoints@[j].id && e.addr == old(
                            self,
                        ).breakpoints@[j].addr && e.action == old(self).breakpoints@[j].action
                    },
                forall|j: int|
                    i <= j < n ==> (#[trigger] self.breakpoints@[j]) == old(self).breakpoints@[j],
                forall|j: int|
                    0 <= j < i ==> !(#[trigger] self.breakpoints@[j]).is_active
                        && self.breakpoints@[j].token == 0,
            decreases n - i,
        {
            let mut bp = self.breakpoints[i];
            let ghost pre = self.breakpoints@;
            bp.token = 0;
            bp.is_active = false;
            self.breakpoints[i] = bp;
            proof {
                assert(forall|j: int|
                    0 <= j < n && j != i ==> (#[trigger] self.breakpoints@[j]) == pre[j]);
            }
            i += 1;
        }
        proof {
            assert forall|j: int| 0 <= j < n implies old(self).same_entry(*self, j) by {
                assert(self.breakpoints@[j].id == old(self).breakpoints@[j].id);
            }
            if old(self).wf() {
                assert forall|j: int|
                    0 <= j < self.breakpoints@.len() implies {
                        let id = (#[trigger] self.breakpoints@[j]).id;
                        (0 < id <= self.next_id) || (self.next_sys_id <= id < 0)
                    } by {
                    assert(self.breakpoints@[j].id == old(self).breakpoints@[j].id);
                    assert(old(self).wf());
                }
                assert forall|j: int, k: int|
                    0 <= j < k < self.breakpoints@.len() implies (
                    #[trigger] self.breakpoints@[j]).id != (#[trigger] self.breakpoints@[k]).id by {
                    assert(self.breakpoints@[j].id == old(self).breakpoints@[j].id);
                    assert(self.breakpoints@[k].id == old(self).breakpoints@[k].id);
                    assert(old(self).breakpoints@[j].id != old(self).breakpoints@[k].id);
                }
            }
        }
    }

    /// Registers a breakpoint at `addr`, drawing its identity from the user
    /// or the internal counter.  With a live process the trap is installed
    /// at once; without one the entry waits, inactive, for the next
    /// process start.
    pub fn add<P: TracePort>(
        &mut self,
        addr: u64,
        by_user: bool,
        action: Option<Action>,
        tracer: &mut Option<Ptracer>,
        port: &mut P,
        target: &Target,
    ) -> (r: Breakpoint)
        requires
            by_user ==> old(self).next_id < i32::MAX,
            !by_user ==> old(self).next_sys_id > i32::MIN,
            target.wf(),
        ensures
            by_user ==> r.id == old(self).next_id + 1 && final(self).next_id == r.id && final(
                self).next_sys_id == old(self).next_sys_id,
            !by_user ==> r.id == old(self).next_sys_id - 1 && final(self).next_sys_id == r.id
                && final(self).next_id == old(self).next_id,
            r.addr == addr,
            r.action == action,
            final(self).breakpoints@ == old(self).breakpoints@.push(r),
            old(self).wf() ==> final(self).wf(),
            match *old(tracer) {
                Some(pt) => {
                    &&& r.is_active
                    &&& (*final(tracer) matches Some(pt2) && pt2.pid == pt.pid && exists|w: u64|
                        pt2.ops@ == pt.ops@ + byte_patch_ops(addr, w, target.breakpoint_op)
                            && r.token == (w & 0xffu64) as u8)
                },
                None => !r.is_active && r.token == 0 && *final(tracer) is None,
            },
    {
        let id: i32 = if by_user {
            self.next_id += 1;
            self.next_id
        } else {
            self.next_sys_id -= 1;
            self.next_sys_id
        };
        let bp: Breakpoint;
        match tracer {
            Some(pt) => {
                let token = pt.poke_breakpoint(port, addr, target);
                bp = Breakpoint { id, addr, token, is_active: true, action };
            },
            None => {
                bp = Breakpoint { id, addr, token: 0, is_active: false, action };
            },
        }
        self.breakpoints.push(bp);
        proof {
            if old(self).wf() {
                let bps = self.breakpoints@;
                let n = bps.len() - 1;
                assert forall|j: int, k: int| 0 <= j < k < bps.len() implies (
                    #[trigger] bps[j]).id != (#[trigger] bps[k]).id by {
                    if k < n {
                        assert(old(self).breakpoints@[j].id != old(self).breakpoints@[k].id);
                    } else {
                        assert(bps[k] == bp);
                        assert(old(self).wf());
                        assert({
                            let jid = old(self).breakpoints@[j].id;
                            (0 < jid <= old(self).next_id) || (old(self).next_sys_id <= jid < 0)
                        });
                    }
                }
            }
        }
        bp
    }

    /// The first breakpoint at `addr`, if any: the table is small, a scan
    /// does.
    pub fn find_by_addr(&self, addr: u64) -> (r: Option<Breakpoint>)
        ensures
            r == spec_find_by_addr(self.breakpoints@, addr),
    {
        let n = self.breakpoints.len();
        let mut i: usize = 0;
        while i < n
            invariant
                i <= n,
                n == self.breakpoints@.len(),
                forall|j: int| 0 <= j < i ==> (#[trigger] self.breakpoints@[j]).addr != addr,
            decreases n - i,
        {
            let bp = self.breakpoints[i];
            if bp.addr == addr {
                proof {
                    let bps = self.breakpoints@;
                    assert(is_first_bp_at_addr(bps, addr, i as int));
                    let k = choose|k: int| is_first_bp_at_addr(bps, addr, k);
                    if k < i {
                        assert(bps[k].addr != addr);
                    } else if k > i {
                        assert(bps[i as int].addr != addr);
                    }
                }
                return Some(bp);
            }
            i += 1;
        }
        proof {
            if exists|k: int| is_first_bp_at_addr(self.breakpoints@, addr, k) {
                let k = choose|k: int| is_first_bp_at_addr(self.breakpoints@, addr, k);
                assert(self.breakpoints@[k].addr != addr);
            }
        }
        None
    }

    /// The first breakpoint with identity `id`, if any.
    pub fn find_by_id(&self, id: i32) -> (r: Option<Breakpoint>)
        ensures
            r == spec_find_by_id(self.breakpoints@, id),
    {
        let n = self.breakpoints.len();
        let mut i: usize = 0;
        while i < n
            invariant
                i <= n,
                n == self.breakpoints@.len(),
                forall|j: int| 0 <= j < i ==> (#[trigger] self.breakpoints@[j]).id != id,
            decreases n - i,
        {
            let bp = self.breakpoints[i];
            if bp.id == id {
                proof {
                    let bps = self.breakpoints@;
                    assert(is_first_bp_with_id(bps, id, i as int));
                    let k = choose|k: int| is_first_bp_with_id(bps, id, k);
                    if k < i {
                        assert(bps[k].id != id);
                    } else if k > i {
                        assert(bps[i as int].id != id);
                    }
                }
                return Some(bp);
            }
            i += 1;
        }
        proof {
            if exists|k: int| is_first_bp_with_id(self.breakpoints@, id, k) {
                let k = choose|k: int| is_first_bp_with_id(self.breakpoints@, id, k);
                assert(self.breakpoints@[k].id != id);
            }
        }
        None
    }
}

} // verus!
