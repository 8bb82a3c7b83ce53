use vstd::prelude::*;
use vstd::string::StrSliceExecFns;
use vstd::string::StringExecFns;
use crate::binary::{Binary, Symbol, SymbolV};
use crate::breakpoint::{Action, Breakpoint, BreakpointManager};
use crate::breakpoint;
use crate::ptracer::{ProcessState, Ptracer, Registers, TraceOp, TracePort};
use crate::ptracer;
use crate::target_desc::Target;
use crate::target_desc;
use crate::text;

verus! {

// ------------------------------------------------------------------
// The literal status strings
// ------------------------------------------------------------------

pub open spec fn reading_symbols_msg(path: Seq<char>) -> Seq<char> {
    "Reading symbols from "@ + path + "...done."@
}

pub open spec fn starting_msg(path: Seq<char>, pid: int) -> Seq<char> {
    "Starting program: "@ + path + " (pid="@ + text::dec_seq_signed(pid) + ")"@
}

pub open spec fn breakpoint_added_msg(id: int, addr: int) -> Seq<char> {
    "Breakpoint "@ + text::dec_seq_signed(id) + " at 0x"@ + text::hex_seq(addr)
}

pub open spec fn breakpoint_hit_msg(id: int, ip: int) -> Seq<char> {
    "Breakpoint "@ + text::dec_seq_signed(id) + ", 0x"@ + text::hex_seq(ip)
}

pub open spec fn exited_msg(pid: int, code: int) -> Seq<char> {
    "Process "@ + text::dec_seq_signed(pid) + " exited with code "@ + text::dec_seq_signed(code)
}

pub open spec fn signaled_msg(pid: int, sig: int) -> Seq<char> {
    "Process "@ + text::dec_seq_signed(pid) + " signaled with code "@ + text::dec_seq_signed(sig)
}

pub open spec fn not_running_msg() -> Seq<char> {
    "The program is not being run."@
}

pub open spec fn no_executable_msg() -> Seq<char> {
    "No executable specified."@
}

// ------------------------------------------------------------------
// Symbol lookup
// ------------------------------------------------------------------

/// The address of `name` in the catalog; of several entries with one name
/// the last wins, as a map filled in order would have it.
pub open spec fn spec_resolve(syms: Seq<SymbolV>, name: Seq<char>) -> Option<u64>
    decreases syms.len(),
{
    if syms.len() == 0 {
        None
    } else if syms.last().name == name {
        Some(syms.last().value)
    } else {
        spec_resolve(syms.drop_last(), name)
    }
}

/// The address of the first catalog entry named `name`, if any.
pub open spec fn spec_first_sym(syms: Seq<SymbolV>, name: Seq<char>) -> Option<u64>
    decreases syms.len(),
{
    if syms.len() == 0 {
        None
    } else if syms[0].name == name {
        Some(syms[0].value)
    } else {
        spec_first_sym(syms.drop_first(), name)
    }
}

// ------------------------------------------------------------------
// The issued-operation patterns the contracts promise
// ------------------------------------------------------------------

/// The step-over-before-resume protocol at a breakpoint: patch the
/// original byte back in, step the real instruction, absorb the stop,
/// patch the trap back, and only then resume.  Anything else would
/// re-trap at once on the unmodified instruction.
pub open spec fn is_step_over_resume(
    pre: Seq<TraceOp>,
    post: Seq<TraceOp>,
    addr: u64,
    token: u8,
    trap: u8,
) -> bool {
    exists|w1: u64, st: i32, w2: u64|
        post == pre + ptracer::byte_patch_ops(addr, w1, token) + seq![
            TraceOp::Step,
            TraceOp::Wait { status: st },
        ] + ptracer::byte_patch_ops(addr, w2, trap) + seq![TraceOp::Cont]
}

// ------------------------------------------------------------------
// The session
// ------------------------------------------------------------------

/// One debugging session: the loaded binaries, the name map, the optional
/// live process, the breakpoint table, and the run/continue/step
/// bookkeeping.
pub struct Context {
    pub main_binary: Option<Binary>,
    pub interp: Option<Binary>,
    pub args: Vec<String>,
    pub symtab: Vec<Symbol>,
    pub ptracer: Option<Ptracer>,
    pub breakpoints: BreakpointManager,
    pub needs_wait: bool,
    pub regs: Registers,
    pub target: Target,
    pub cur_breakpoint: i32,
    pub r_map: u64,
}

impl Context {
    /// The session invariant: sound breakpoint identities; an unmet wait
    /// only with a live process and never while halted at a breakpoint; a
    /// halted breakpoint only with a live process; and the breakpoint
    /// lifecycle — every trap installed while a process lives, none
    /// installed while none does.
    pub open spec fn wf(self) -> bool {
        &&& self.target.wf()
        &&& self.breakpoints.wf()
        &&& self.needs_wait ==> self.ptracer is Some && self.cur_breakpoint == 0
        &&& self.cur_breakpoint != 0 ==> self.ptracer is Some
        &&& self.ptracer is Some ==> self.breakpoints.all_active()
        &&& self.ptracer is None ==> self.breakpoints.all_inactive()
    }

    /// Everything that does not concern the live process is as it was.
    pub open spec fn same_session(self, other: Context) -> bool {
        &&& other.main_binary == self.main_binary
        &&& other.interp == self.interp
        &&& other.args == self.args
        &&& other.symtab == self.symtab
        &&& other.target == self.target
        &&& other.r_map == self.r_map
    }

    pub fn new(args: &Vec<String>) -> (r: Context)
        ensures
            r.wf(),
            r.main_binary is None,
            r.interp is None,
            r.args@ == args@,
            r.symtab@.len() == 0,
            r.ptracer is None,
            r.breakpoints.breakpoints@.len() == 0,
            r.breakpoints.next_id == 0,
            r.breakpoints.next_sys_id == 0,
            !r.needs_wait,
            r.regs.ip == 0,
            r.regs.sp == 0,
            r.regs.bp == 0,
            r.regs.gps@.len() == 0,
            r.cur_breakpoint == 0,
            r.r_map == 0,
            r.target.wf(),
    {
        Context {
            main_binary: None,
            interp: None,
            args: args.clone(),
            symtab: Vec::new(),
            ptracer: None,
            breakpoints: BreakpointManager::new(),
            needs_wait: false,
            regs: Registers::empty(),
            target: target_desc::get_target(),
            cur_breakpoint: 0,
            r_map: 0,
        }
    }

    /// The most recently cached instruction pointer.
    pub fn ip(&self) -> (r: u64)
        ensures
            r == self.regs.ip,
    {
        self.regs.ip()
    }

    pub fn is_running(&self) -> (r: bool)
        ensures
            r == (self.ptracer is Some),
    {
        self.ptracer.is_some()
    }

    pub fn needs_wait(&self) -> (r: bool)
        ensures
            r == self.needs_wait,
    {
        self.needs_wait
    }

    /// The loaded interpreter image, if any.
    pub fn interp(&self) -> (r: Option<&Binary>)
        ensures
            match r {
                Some(b) => self.interp == Some(*b),
                None => self.interp is None,
            },
    {
        self.interp.as_ref()
    }

    /// The handle on the live process.
    pub fn ptracer(&self) -> (r: Ptracer)
        requires
            self.ptracer is Some,
        ensures
            r == self.ptracer.unwrap(),
    {
        match &self.ptracer {
            Some(pt) => *pt,
            None => vstd::pervasive::unreached(),
        }
    }

    /// The address of `name`, if the loaded binary defines it; absence is
    /// an ordinary outcome.
    pub fn resolve(&self, name: &str) -> (r: Option<u64>)
        ensures
            r == spec_resolve(self.symtab.deep_view(), name@),
    {
        let n = self.symtab.len();
        let mut i: usize = n;
        proof {
            assert(self.symtab.deep_view().take(n as int) =~= self.symtab.deep_view());
        }
        while i > 0
            invariant
                i <= n,
                n == self.symtab@.len(),
                spec_resolve(self.symtab.deep_view(), name@) == spec_resolve(
                    self.symtab.deep_view().take(i as int),
                    name@,
                ),
            decreases i,
        {
            let sym = &self.symtab[i - 1];
            proof {
                assert(self.symtab.deep_view().take(i as int).last() == self.symtab@[i - 1]@);
                assert(self.symtab.deep_view().take(i as int).drop_last() =~= self.symtab.deep_view().take(i - 1));
            }
            if text::str_eq(sym.name.as_str(), name) {
                return Some(sym.value);
            }
            i -= 1;
        }
        proof {
            assert(self.symtab.deep_view().take(0) =~= Seq::<SymbolV>::empty());
        }
        None
    }

    /// Installs `bin` as the main binary, rebuilding the name map from its
    /// catalog wholesale, together with the interpreter image its header
    /// requests, already loaded by the caller.
    pub fn set_main_binary(&mut self, bin: Binary, interp: Option<Binary>) -> (r: Result<
        String,
        String,
    >)
        requires
            (interp is Some) <==> (bin.interp is Some),
        ensures
            r matches Ok(m) && m@ == reading_symbols_msg(bin.filename@),
            final(self).main_binary == Some(bin),
            final(self).interp == interp,
            final(self).symtab.deep_view() == bin.syms.deep_view(),
            final(self).args == old(self).args,
            final(self).ptracer == old(self).ptracer,
            final(self).breakpoints == old(self).breakpoints,
            final(self).needs_wait == old(self).needs_wait,
            final(self).regs == old(self).regs,
            final(self).target == old(self).target,
            final(self).cur_breakpoint == old(self).cur_breakpoint,
            final(self).r_map == old(self).r_map,
            old(self).wf() ==> final(self).wf(),
    {
        let mut m = String::from_str("Reading symbols from ");
        m.append(bin.filename().as_str());
        m.append("...done.");
        self.symtab.clear();
        let mut i: usize = 0;
        let syms = &bin.syms;
        let n = syms.len();
        while i < n
            invariant
                i <= n,
                n == bin.syms@.len(),
                self.symtab.deep_view() =~= bin.syms.deep_view().take(i as int),
                syms == &bin.syms,
                self.main_binary == old(self).main_binary,
                self.interp == old(self).interp,
                self.args == old(self).args,
                self.ptracer == old(self).ptracer,
                self.breakpoints == old(self).breakpoints,
                self.needs_wait == old(self).needs_wait,
                self.regs == old(self).regs,
                self.target == old(self).target,
                self.cur_breakpoint == old(self).cur_breakpoint,
                self.r_map == old(self).r_map,
            decreases n - i,
        {
            let sym = &syms[i];
            let ghost prev = self.symtab.deep_view();
            self.symtab.push(Symbol { name: sym.name.clone(), value: sym.value });
            proof {
                assert(self.symtab.deep_view() =~= prev.push(bin.syms@[i as int]@));
                assert(self.symtab.deep_view() =~= bin.syms.deep_view().take(i + 1));
            }
            i += 1;
        }
        proof {
            assert(bin.syms.deep_view().take(n as int) =~= bin.syms.deep_view());
        }
        self.interp = interp;
        self.main_binary = Some(bin);
        Ok(m)
    }
}

/// Addition modulo the 64-bit range.
pub open spec fn wadd(a: u64, b: u64) -> u64 {
    vstd::wrapping::u64_specs::wrapping_add(a, b)
}

/// Subtraction modulo the 64-bit range.
pub open spec fn wsub(a: u64, b: u64) -> u64 {
    vstd::wrapping::u64_specs::wrapping_sub(a, b)
}

impl Context {
    fn pid(&self) -> (r: i32)
        requires
            self.ptracer is Some,
        ensures
            r == self.ptracer.unwrap().pid,
    {
        match &self.ptracer {
            Some(pt) => pt.pid(),
            None => vstd::pervasive::unreached(),
        }
    }

    /// Stores the load bias a fresh process revealed — observed entry
    /// instruction pointer minus file entry — on whichever image actually
    /// drives execution: the interpreter when one is loaded, else the main
    /// binary.
    fn set_entry_bias(&mut self, ip: u64)
        requires
            old(self).interp is Some || old(self).main_binary is Some,
        ensures
            old(self).interp matches Some(b) ==> {
                &&& (final(self).interp matches Some(b2) && b2.bias == wsub(ip, b.entry)
                    && b2.filename == b.filename && b2.syms == b.syms && b2.entry == b.entry
                    && b2.interp == b.interp)
                &&& final(self).main_binary == old(self).main_binary
            },
            old(self).interp is None ==> {
                let b = old(self).main_binary.unwrap();
                &&& (final(self).main_binary matches Some(b2) && b2.bias == wsub(ip, b.entry)
                    && b2.filename == b.filename && b2.syms == b.syms && b2.entry == b.entry
                    && b2.interp == b.interp)
                &&& final(self).interp is None
            },
            final(self).args == old(self).args,
            final(self).symtab == old(self).symtab,
            final(self).ptracer == old(self).ptracer,
            final(self).breakpoints == old(self).breakpoints,
            final(self).needs_wait == old(self).needs_wait,
            final(self).regs == old(self).regs,
            final(self).target == old(self).target,
            final(self).cur_breakpoint == old(self).cur_breakpoint,
            final(self).r_map == old(self).r_map,
    {
        match &mut self.interp {
            Some(interp) => {
                let entry = interp.entry();
                interp.set_bias(ip.wrapping_sub(entry));
            },
            None => match &mut self.main_binary {
                Some(main_binary) => {
                    let entry = main_binary.entry();
                    main_binary.set_bias(ip.wrapping_sub(entry));
                },
                None => vstd::pervasive::unreached(),
            },
        }
    }

    /// Resumes the target.  From a halt at a breakpoint the step-over
    /// protocol runs first — restore, step, absorb the stop, re-arm — so
    /// the very next wait cannot report the same address again unless
    /// execution independently returns there.  Sets the needs-wait flag;
    /// does not itself block.
    pub fn cont<P: TracePort>(&mut self, port: &mut P) -> (r: Result<String, String>)
        requires
            old(self).wf(),
            old(self).ptracer is Some ==> !old(self).needs_wait,
        ensures
            final(self).wf(),
            old(self).ptracer is None ==> (r matches Err(m) && m@ == not_running_msg()) && *final(
                self) == *old(self),
            old(self).ptracer is Some ==> {
                let pt = old(self).ptracer.unwrap();
                let pt2 = final(self).ptracer.unwrap();
                &&& r matches Ok(m) && m@ == "Continuing."@
                &&& final(self).needs_wait
                &&& final(self).cur_breakpoint == 0
                &&& final(self).breakpoints == old(self).breakpoints
                &&& final(self).regs == old(self).regs
                &&& old(self).same_session(*final(self))
                &&& final(self).ptracer is Some
                &&& pt2.pid == pt.pid
                &&& if old(self).cur_breakpoint != 0 {
                    match breakpoint::spec_find_by_id(
                        old(self).breakpoints.breakpoints@,
                        old(self).cur_breakpoint,
                    ) {
                        Some(bp) => is_step_over_resume(
                            pt.ops@,
                            pt2.ops@,
                            bp.addr,
                            bp.token,
                            old(self).target.breakpoint_op,
                        ),
                        None => pt2.ops@ == pt.ops@.push(TraceOp::Cont),
                    }
                } else {
                    pt2.ops@ == pt.ops@.push(TraceOp::Cont)
                }
            },
    {
        if self.ptracer.is_none() {
            return Err(String::from_str("The program is not being run."));
        }
        let mut pt = match self.ptracer {
            Some(pt) => pt,
            None => vstd::pervasive::unreached(),
        };
        let ghost pre_ops = pt.ops@;
        if self.cur_breakpoint != 0 {
            match self.breakpoints.find_by_id(self.cur_breakpoint) {
                Some(bp) => {
                    let _restored = pt.poke_byte(port, bp.addr(), bp.token(), &self.target);
                    let ghost w1 = choose|w: u64|
                        pt.ops@ == pre_ops + ptracer::byte_patch_ops(bp.addr, w, bp.token)
                            && _restored == (w & 0xffu64) as u8;
                    pt.single_step(port);
                    let st = pt.wait(port);
                    let ghost mid_ops = pt.ops@;
                    let _trapped = pt.poke_breakpoint(port, bp.addr(), &self.target);
                    let ghost w2 = choose|w: u64|
                        pt.ops@ == mid_ops + ptracer::byte_patch_ops(
                            bp.addr,
                            w,
                            self.target.breakpoint_op,
                        ) && _trapped == (w & 0xffu64) as u8;
                    pt.cont(port);
                    proof {
                        assert(pt.ops@ =~= pre_ops + ptracer::byte_patch_ops(
                            bp.addr,
                            w1,
                            bp.token,
                        ) + seq![TraceOp::Step, TraceOp::Wait { status: st }]
                            + ptracer::byte_patch_ops(bp.addr, w2, self.target.breakpoint_op)
                            + seq![TraceOp::Cont]);
                        assert(is_step_over_resume(
                            pre_ops,
                            pt.ops@,
                            bp.addr,
                            bp.token,
                            self.target.breakpoint_op,
                        ));
                    }
                },
                None => {
                    pt.cont(port);
                },
            }
            self.cur_breakpoint = 0;
        } else {
            pt.cont(port);
        }
        self.ptracer = Some(pt);
        self.needs_wait = true;
        Ok(String::from_str("Continuing."))
    }
}

/// `post_r` is `pre_r` with the instruction pointer rewound to `hit`, in
/// the cached field and in the raw buffer.
pub open spec fn is_rewound(pre_r: Registers, post_r: Registers, hit: u64, target: Target) -> bool {
    &&& post_r.ip == hit
    &&& post_r.sp == pre_r.sp
    &&& post_r.bp == pre_r.bp
    &&& post_r.gps@ == if target.ip_index < pre_r.gps@.len() {
        pre_r.gps@.update(target.ip_index as int, hit)
    } else {
        pre_r.gps@
    }
}

/// The main binary now carries the bias the halt at `hit` revealed;
/// everything parsed from its image stays as it was.
pub open spec fn bias_now(pre_b: Option<Binary>, post_b: Option<Binary>, hit: u64) -> bool {
    match pre_b {
        Some(b) => post_b matches Some(b2) && b2.bias == wsub(hit, b.entry) && b2.filename
            == b.filename && b2.syms == b.syms && b2.entry == b.entry && b2.interp == b.interp,
        None => post_b is None,
    }
}

/// What handling a stop of the traced process does, given the register
/// snapshot `rg` the process reported and the word `w` the restoring
/// patch read.  A bare step only caches the snapshot.  Otherwise the true
/// hit address is the reported instruction pointer minus the trap size;
/// with no breakpoint there the stop is surfaced as a neutral result,
/// never silently resumed.  At a breakpoint the instruction pointer is
/// rewound and written back and the original byte restored; a plain
/// breakpoint reports the hit and leaves the session halted at it, while
/// an internal one does its bookkeeping — entering the main binary
/// computes the deferred load bias — and resumes invisibly through the
/// step-over protocol.
pub open spec fn stop_post(
    pre: Context,
    post: Context,
    is_single_step: bool,
    base: Seq<TraceOp>,
    rg: Registers,
    w: u64,
    r: Result<String, String>,
) -> bool {
    let pt2 = post.ptracer.unwrap();
    let fetched = base.push(TraceOp::GetRegs { gps: rg.gps@ });
    &&& post.ptracer is Some
    &&& pt2.pid == pre.ptracer.unwrap().pid
    &&& rg.ip == ptracer::gp_or_zero(rg.gps@, pre.target.ip_index as int)
    &&& rg.sp == ptracer::gp_or_zero(rg.gps@, pre.target.sp_index as int)
    &&& rg.bp == ptracer::gp_or_zero(rg.gps@, pre.target.bp_index as int)
    &&& if is_single_step {
        &&& post.regs == rg
        &&& pt2.ops@ == fetched
        &&& (r matches Ok(m) && m@ == Seq::<char>::empty())
        &&& post.breakpoints == pre.breakpoints
        &&& post.needs_wait == false
        &&& post.cur_breakpoint == pre.cur_breakpoint
        &&& pre.same_session(post)
    } else {
        let hit = wsub(rg.ip, pre.target.breakpoint_size as u64);
        match breakpoint::spec_find_by_addr(pre.breakpoints.breakpoints@, hit) {
            None => {
                &&& post.regs == rg
                &&& pt2.ops@ == fetched
                &&& (r matches Ok(m) && m@ == Seq::<char>::empty())
                &&& post.breakpoints == pre.breakpoints
                &&& post.needs_wait == false
                &&& post.cur_breakpoint == pre.cur_breakpoint
                &&& pre.same_session(post)
            },
            Some(bp) => {
                let after_poke = fetched.push(TraceOp::SetRegs { gps: post.regs.gps@ })
                    + ptracer::byte_patch_ops(hit, w, bp.token);
                &&& is_rewound(rg, post.regs, hit, pre.target)
                &&& post.breakpoints == pre.breakpoints
                &&& match bp.action {
                    None => {
                        &&& post.cur_breakpoint == bp.id
                        &&& post.needs_wait == false
                        &&& pt2.ops@ == after_poke
                        &&& (r matches Ok(m) && m@ == breakpoint_hit_msg(
                            bp.id as int,
                            hit as int,
                        ))
                        &&& pre.same_session(post)
                    },
                    Some(Action::UpdateRDebug) => {
                        &&& post.cur_breakpoint == 0
                        &&& post.needs_wait == true
                        &&& is_step_over_resume(
                            after_poke,
                            pt2.ops@,
                            bp.addr,
                            bp.token,
                            pre.target.breakpoint_op,
                        )
                        &&& (r matches Ok(m) && m@ == Seq::<char>::empty())
                        &&& pre.same_session(post)
                    },
                    Some(Action::EnterMainBinary) => {
                        &&& post.cur_breakpoint == 0
                        &&& post.needs_wait == true
                        &&& is_step_over_resume(
                            after_poke,
                            pt2.ops@,
                            bp.addr,
                            bp.token,
                            pre.target.breakpoint_op,
                        )
                        &&& (r matches Ok(m) && m@ == Seq::<char>::empty())
                        &&& bias_now(pre.main_binary, post.main_binary, hit)
                        &&& post.interp == pre.interp
                        &&& post.args == pre.args
                        &&& post.symtab == pre.symtab
                        &&& post.target == pre.target
                        &&& post.r_map == pre.r_map
                    },
                }
            },
        }
    }
}

/// The process is gone and the session knows it: no handle, no unmet
/// wait, no halted breakpoint, and every breakpoint inactive with its
/// saved byte dropped — identities and addresses kept for the next run.
pub open spec fn teardown_post(pre: Context, post: Context) -> bool {
    &&& post.ptracer is None
    &&& !post.needs_wait
    &&& post.cur_breakpoint == 0
    &&& post.regs == pre.regs
    &&& pre.same_session(post)
    &&& post.breakpoints.breakpoints@.len() == pre.breakpoints.breakpoints@.len()
    &&& post.breakpoints.next_id == pre.breakpoints.next_id
    &&& post.breakpoints.next_sys_id == pre.breakpoints.next_sys_id
    &&& post.breakpoints.all_inactive()
    &&& forall|i: int|
        0 <= i < pre.breakpoints.breakpoints@.len() ==> pre.breakpoints.same_entry(
            post.breakpoints,
            i,
        )
}

/// What one blocking wait does, by the decoded status `st`: a stop is
/// handled as [`stop_post`] describes; an exit or a termination by signal
/// tears the process down and reports it; an undecodable status is
/// surfaced as an error with nothing else disturbed.
pub open spec fn wait_outcome(
    pre: Context,
    post: Context,
    is_single_step: bool,
    base: Seq<TraceOp>,
    st: i32,
    r: Result<String, String>,
) -> bool {
    let based = base.push(TraceOp::Wait { status: st });
    match ptracer::wait_decode(st) {
        Some(ProcessState::Stop(_)) => exists|rg: Registers, w: u64|
            stop_post(pre, post, is_single_step, based, rg, w, r),
        Some(ProcessState::Exit(code)) => teardown_post(pre, post) && (r matches Ok(m) && m@
            == exited_msg(pre.ptracer.unwrap().pid as int, code as int)),
        Some(ProcessState::Signal(sig)) => teardown_post(pre, post) && (r matches Ok(m) && m@
            == signaled_msg(pre.ptracer.unwrap().pid as int, sig as int)),
        None => {
            &&& (post.ptracer matches Some(pt2) && pt2.pid == pre.ptracer.unwrap().pid && pt2.ops@
                == based)
            &&& post.needs_wait == false
            &&& post.cur_breakpoint == pre.cur_breakpoint
            &&& post.breakpoints == pre.breakpoints
            &&& post.regs == pre.regs
            &&& pre.same_session(post)
            &&& (r matches Err(m) && m@ == "Unknown status: "@ + text::dec_seq_signed(st as int))
        },
    }
}

/// [`stop_post`] reads nothing of its pre-state but the fields these two
/// share, so the pre-state may be swapped for one that agrees on them.
proof fn lemma_stop_post_pre_swap(
    pre1: Context,
    pre2: Context,
    post: Context,
    is_single_step: bool,
    base: Seq<TraceOp>,
    rg: Registers,
    w: u64,
    r: Result<String, String>,
)
    requires
        stop_post(pre1, post, is_single_step, base, rg, w, r),
        pre2.breakpoints == pre1.breakpoints,
        pre2.main_binary == pre1.main_binary,
        pre2.interp == pre1.interp,
        pre2.args == pre1.args,
        pre2.symtab == pre1.symtab,
        pre2.target == pre1.target,
        pre2.r_map == pre1.r_map,
        pre2.cur_breakpoint == pre1.cur_breakpoint,
        pre2.regs == pre1.regs,
        pre1.ptracer is Some,
        pre2.ptracer is Some,
        pre2.ptracer.unwrap().pid == pre1.ptracer.unwrap().pid,
    ensures
        stop_post(pre2, post, is_single_step, base, rg, w, r),
{
}

/// The same for [`wait_outcome`].
proof fn lemma_wait_outcome_pre_swap(
    pre1: Context,
    pre2: Context,
    post: Context,
    is_single_step: bool,
    base: Seq<TraceOp>,
    st: i32,
    r: Result<String, String>,
)
    requires
        wait_outcome(pre1, post, is_single_step, base, st, r),
        pre2.breakpoints == pre1.breakpoints,
        pre2.main_binary == pre1.main_binary,
        pre2.interp == pre1.interp,
        pre2.args == pre1.args,
        pre2.symtab == pre1.symtab,
        pre2.target == pre1.target,
        pre2.r_map == pre1.r_map,
        pre2.cur_breakpoint == pre1.cur_breakpoint,
        pre2.regs == pre1.regs,
        pre1.ptracer is Some,
        pre2.ptracer is Some,
        pre2.ptracer.unwrap().pid == pre1.ptracer.unwrap().pid,
    ensures
        wait_outcome(pre2, post, is_single_step, base, st, r),
{
    let based = base.push(TraceOp::Wait { status: st });
    match ptracer::wait_decode(st) {
        Some(ProcessState::Stop(_)) => {
            let (rg, w) = choose|rg: Registers, w: u64|
                stop_post(pre1, post, is_single_step, based, rg, w, r);
            lemma_stop_post_pre_swap(pre1, pre2, post, is_single_step, based, rg, w, r);
            assert(stop_post(pre2, post, is_single_step, based, rg, w, r));
        },
        _ => {},
    }
}

impl Context {
    /// Handles a stop of the traced process, as [`stop_post`] describes.
    fn handle_breakpoint<P: TracePort>(&mut self, is_single_step: bool, port: &mut P) -> (r: Result<
        String,
        String,
    >)
        requires
            old(self).wf(),
            old(self).ptracer is Some,
            !old(self).needs_wait,
            !is_single_step ==> old(self).cur_breakpoint == 0,
        ensures
            final(self).wf(),
            exists|rg: Registers, w: u64|
                stop_post(
                    *old(self),
                    *final(self),
                    is_single_step,
                    old(self).ptracer.unwrap().ops@,
                    rg,
                    w,
                    r,
                ),
    {
        let mut pt = match self.ptracer {
            Some(pt) => pt,
            None => vstd::pervasive::unreached(),
        };
        let ghost base = pt.ops@;
        let rg = pt.get_regs(port, &self.target);
        let ghost grg = rg;
        self.regs = rg;
        if is_single_step {
            self.ptracer = Some(pt);
            let r = Ok(String::new());
            proof {
                assert(stop_post(*old(self), *self, is_single_step, base, grg, 0u64, r));
            }
            return r;
        }
        let hit = self.regs.ip().wrapping_sub(self.target.breakpoint_size as u64);
        match self.breakpoints.find_by_addr(hit) {
            Some(bp) => {
                self.regs.update_ip(hit, &self.target);
                pt.set_regs(port, &self.regs);
                let ghost pre_patch = pt.ops@;
                let _displaced = pt.poke_byte(port, hit, bp.token(), &self.target);
                let ghost w = choose|w: u64|
                    pt.ops@ == pre_patch + ptracer::byte_patch_ops(hit, w, bp.token) && _displaced
                        == (w & 0xffu64) as u8;
                self.cur_breakpoint = bp.id();
                self.ptracer = Some(pt);
                proof {
                    let bps = self.breakpoints.breakpoints@;
                    let k = choose|k: int| breakpoint::is_first_bp_at_addr(bps, hit, k);
                    assert(bp == bps[k]);
                    breakpoint::lemma_unique_find_by_id(self.breakpoints, k);
                }
                match *bp.action() {
                    Some(Action::UpdateRDebug) => {
                        let res = self.cont(port);
                        let r: Result<String, String> = match res {
                            Ok(_) => Ok(String::new()),
                            Err(e) => Err(e),
                        };
                        proof {
                            assert(stop_post(*old(self), *self, is_single_step, base, grg, w, r));
                        }
                        r
                    },
                    Some(Action::EnterMainBinary) => {
                        // The main program is mapped now: compute the
                        // deferred half of its load bias.
                        match &mut self.main_binary {
                            Some(mb) => {
                                let e = mb.entry();
                                mb.set_bias(hit.wrapping_sub(e));
                            },
                            None => {},
                        }
                        let res = self.cont(port);
                        let r: Result<String, String> = match res {
                            Ok(_) => Ok(String::new()),
                            Err(e) => Err(e),
                        };
                        proof {
                            assert(stop_post(*old(self), *self, is_single_step, base, grg, w, r));
                        }
                        r
                    },
                    None => {
                        let mut m = String::from_str("Breakpoint ");
                        text::push_dec_i64(bp.id() as i64, &mut m);
                        m.append(", 0x");
                        text::push_hex_u64(hit, &mut m);
                        proof {
                            assert(m@ =~= breakpoint_hit_msg(bp.id as int, hit as int));
                        }
                        let r = Ok(m);
                        proof {
                            assert(stop_post(*old(self), *self, is_single_step, base, grg, w, r));
                        }
                        r
                    },
                }
            },
            None => {
                self.ptracer = Some(pt);
                let r = Ok(String::new());
                proof {
                    assert(stop_post(*old(self), *self, is_single_step, base, grg, 0u64, r));
                }
                r
            },
        }
    }

    /// One blocking wait and whatever it entails, as [`wait_outcome`]
    /// describes.
    fn wait_impl<P: TracePort>(&mut self, is_single_step: bool, port: &mut P) -> (r: Result<
        String,
        String,
    >)
        requires
            old(self).wf(),
            old(self).ptracer is Some,
            !is_single_step ==> old(self).cur_breakpoint == 0,
        ensures
            final(self).wf(),
            exists|st: i32|
                wait_outcome(
                    *old(self),
                    *final(self),
                    is_single_step,
                    old(self).ptracer.unwrap().ops@,
                    st,
                    r,
                ),
    {
        self.needs_wait = false;
        let mut pt = match self.ptracer {
            Some(pt) => pt,
            None => vstd::pervasive::unreached(),
        };
        let st = pt.wait(port);
        self.ptracer = Some(pt);
        match ptracer::decode_wait_status(st) {
            Some(ProcessState::Stop(_)) => {
                let ghost mid = *self;
                let r = self.handle_breakpoint(is_single_step, port);
                proof {
                    let based = old(self).ptracer.unwrap().ops@.push(TraceOp::Wait { status: st });
                    let (rg, w) = choose|rg: Registers, w: u64|
                        stop_post(mid, *self, is_single_step, based, rg, w, r);
                    lemma_stop_post_pre_swap(
                        mid,
                        *old(self),
                        *self,
                        is_single_step,
                        based,
                        rg,
                        w,
                        r,
                    );
                    assert(wait_outcome(
                        *old(self),
                        *self,
                        is_single_step,
                        old(self).ptracer.unwrap().ops@,
                        st,
                        r,
                    ));
                }
                r
            },
            Some(ProcessState::Exit(code)) => {
                let pid = self.pid();
                self.breakpoints.notify_finish();
                self.ptracer = None;
                self.cur_breakpoint = 0;
                let mut m = String::from_str("Process ");
                text::push_dec_i64(pid as i64, &mut m);
                m.append(" exited with code ");
                text::push_dec_i64(code as i64, &mut m);
                proof {
                    assert(m@ =~= exited_msg(pid as int, code as int));
                }
                let r = Ok(m);
                proof {
                    assert(wait_outcome(
                        *old(self),
                        *self,
                        is_single_step,
                        old(self).ptracer.unwrap().ops@,
                        st,
                        r,
                    ));
                }
                r
            },
            Some(ProcessState::Signal(sig)) => {
                let pid = self.pid();
                self.breakpoints.notify_finish();
                self.ptracer = None;
                self.cur_breakpoint = 0;
                let mut m = String::from_str("Process ");
                text::push_dec_i64(pid as i64, &mut m);
                m.append(" signaled with code ");
                text::push_dec_i64(sig as i64, &mut m);
                proof {
                    assert(m@ =~= signaled_msg(pid as int, sig as int));
                }
                let r = Ok(m);
                proof {
                    assert(wait_outcome(
                        *old(self),
                        *self,
                        is_single_step,
                        old(self).ptracer.unwrap().ops@,
                        st,
                        r,
                    ));
                }
                r
            },
            None => {
                let mut m = String::from_str("Unknown status: ");
                text::push_dec_i64(st as i64, &mut m);
                proof {
                    assert(m@ =~= "Unknown status: "@ + text::dec_seq_signed(st as int));
                }
                let r = Err(m);
                proof {
                    assert(wait_outcome(
                        *old(self),
                        *self,
                        is_single_step,
                        old(self).ptracer.unwrap().ops@,
                        st,
                        r,
                    ));
                }
                r
            },
        }
    }

    /// Blocks until the traced process changes state, then reports what
    /// happened, as [`wait_outcome`] describes.  Only meaningful while a
    /// wait is owed.
    pub fn wait<P: TracePort>(&mut self, port: &mut P) -> (r: Result<String, String>)
        requires
            old(self).wf(),
            old(self).needs_wait,
        ensures
            final(self).wf(),
            exists|st: i32|
                wait_outcome(
                    *old(self),
                    *final(self),
                    false,
                    old(self).ptracer.unwrap().ops@,
                    st,
                    r,
                ),
    {
        self.wait_impl(false, port)
    }

    /// Executes exactly one machine instruction and synchronously absorbs
    /// the following stop, caching the fresh registers; no breakpoint-hit
    /// interpretation is run for the step itself.  Like every entry
    /// point, refused while a wait is unmet.
    pub fn single_step<P: TracePort>(&mut self, port: &mut P) -> (r: Result<String, String>)
        requires
            old(self).wf(),
            old(self).ptracer is Some ==> !old(self).needs_wait,
        ensures
            final(self).wf(),
            old(self).ptracer is None ==> (r matches Err(m) && m@ == not_running_msg()) && *final(
                self) == *old(self),
            old(self).ptracer is Some ==> exists|st: i32, inner: Result<String, String>|
                wait_outcome(
                    *old(self),
                    *final(self),
                    true,
                    old(self).ptracer.unwrap().ops@.push(TraceOp::Step),
                    st,
                    inner,
                ) && (match inner {
                    Ok(_) => r matches Ok(m) && m@ == Seq::<char>::empty(),
                    Err(e) => r matches Err(e2) && e2 == e,
                }),
    {
        if self.ptracer.is_none() {
            return Err(String::from_str("The program is not being run."));
        }
        let mut pt = match self.ptracer {
            Some(pt) => pt,
            None => vstd::pervasive::unreached(),
        };
        pt.single_step(port);
        self.ptracer = Some(pt);
        let ghost mid = *self;
        let inner = self.wait_impl(true, port);
        proof {
            let st = choose|st: i32|
                wait_outcome(mid, *self, true, mid.ptracer.unwrap().ops@, st, inner);
            lemma_wait_outcome_pre_swap(
                mid,
                *old(self),
                *self,
                true,
                mid.ptracer.unwrap().ops@,
                st,
                inner,
            );
        }
        match inner {
            Ok(_) => Ok(String::new()),
            Err(e) => Err(e),
        }
    }
}

/// The argument vector a start hands to the spawn: the main binary's
/// path first, then the explicit arguments when any were given, else the
/// stored defaults.
pub open spec fn spec_argv(pre: Context, args: Seq<Seq<char>>) -> Seq<Seq<char>> {
    seq![pre.main_binary.unwrap().filename@] + if args.len() > 0 {
        args
    } else {
        pre.args.deep_view()
    }
}

/// The complaint when the port cannot spawn the target, carrying the
/// port's own words.
pub open spec fn spawn_failed_msg(e: Seq<char>) -> Seq<char> {
    "Failed to start program: "@ + e
}

/// What a successful start leaves behind: a live stopped process, its
/// start message, every breakpoint armed, the load bias computed from the
/// observed entry instruction pointer — on the interpreter when one is
/// loaded, else on the main binary — and the boot-entry interception
/// armed: an internal breakpoint at the main binary's entry when an
/// interpreter drives execution, else one at the dynamic linker's load
/// notification point read through `_r_debug`.  The transcript opens
/// with the spawn of exactly the assembled argument vector, followed by
/// the register read the bias came from.
pub open spec fn start_ok(pre: Context, post: Context, args: Seq<Seq<char>>, msg: Seq<char>) -> bool {
    let pt2 = post.ptracer.unwrap();
    let main = pre.main_binary.unwrap();
    let pre_bps = pre.breakpoints.breakpoints@;
    let post_bps = post.breakpoints.breakpoints@;
    &&& pre.main_binary is Some
    &&& post.ptracer is Some
    &&& msg == starting_msg(main.filename@, pt2.pid as int)
    &&& !post.needs_wait
    &&& post.cur_breakpoint == 0
    &&& post.args == pre.args
    &&& post.symtab == pre.symtab
    &&& post.target == pre.target
    &&& post.breakpoints.all_active()
    &&& post.breakpoints.next_id == pre.breakpoints.next_id
    &&& post.regs == pre.regs
    &&& pt2.ops@.len() >= 2 + 2 * pre_bps.len()
    &&& pt2.ops@[0] == (TraceOp::Spawn { argv: spec_argv(pre, args), pid: pt2.pid })
    &&& exists|ws: Seq<u64>|
        ws.len() == pre_bps.len() && pt2.ops@.subrange(2, 2 + 2 * pre_bps.len() as int)
            == breakpoint::install_ops(pre_bps, ws, pre.target.breakpoint_op) && forall|i: int|
            0 <= i < ws.len() ==> (#[trigger] post_bps[i]).token == (ws[i] & 0xffu64) as u8
    &&& (pt2.ops@[1] matches TraceOp::GetRegs { gps } && {
        let ip0 = ptracer::gp_or_zero(gps, pre.target.ip_index as int);
        &&& match pre.interp {
            Some(it) => {
            // The interpreter drives execution: it takes the bias, and one
            // internal breakpoint intercepts the main binary's entry.
            let nb = post_bps.last();
            &&& (post.interp matches Some(it2) && it2.bias == wsub(ip0, it.entry) && it2.filename
                == it.filename && it2.syms == it.syms && it2.entry == it.entry && it2.interp
                == it.interp)
            &&& post.main_binary == pre.main_binary
            &&& post_bps.len() == pre_bps.len() + 1
            &&& nb.addr == wadd(main.entry, main.bias)
            &&& nb.action == Some(Action::EnterMainBinary)
            &&& nb.id == pre.breakpoints.next_sys_id - 1
            &&& post.breakpoints.next_sys_id == pre.breakpoints.next_sys_id - 1
            &&& post.r_map == pre.r_map
            &&& pt2.ops@.len() == 4 + 2 * pre_bps.len()
            &&& exists|w: u64|
                pt2.ops@.subrange(
                    pt2.ops@.len() - 2,
                    pt2.ops@.len() as int,
                ) == ptracer::byte_patch_ops(nb.addr, w, pre.target.breakpoint_op) && nb.token == (
                w & 0xffu64) as u8
            },
            None => {
            // The main binary takes the bias; the dynamic linker's load
            // notification point is read through its `_r_debug` symbol.
            let bias = wsub(ip0, main.entry);
            &&& bias_now(pre.main_binary, post.main_binary, ip0)
            &&& post.interp is None
            &&& match spec_first_sym(main.syms.deep_view(), "_r_debug"@) {
                None => {
                    &&& post_bps.len() == pre_bps.len()
                    &&& post.r_map == pre.r_map
                    &&& post.breakpoints.next_sys_id == pre.breakpoints.next_sys_id
                    &&& pt2.ops@.len() == 2 + 2 * pre_bps.len()
                },
                Some(v) => {
                    let rda = wadd(v, bias);
                    let nb = post_bps.last();
                    let opslen = pt2.ops@.len() as int;
                    &&& post_bps.len() == pre_bps.len() + 1
                    &&& nb.action == Some(Action::UpdateRDebug)
                    &&& nb.id == pre.breakpoints.next_sys_id - 1
                    &&& post.breakpoints.next_sys_id == pre.breakpoints.next_sys_id - 1
                    &&& post.r_map == wadd(rda, 8)
                    &&& pt2.ops@.len() == 5 + 2 * pre_bps.len()
                    &&& pt2.ops@[opslen - 3] == (TraceOp::PeekWord {
                        addr: wadd(rda, 16),
                        val: nb.addr,
                    })
                    &&& exists|w: u64|
                        pt2.ops@.subrange(opslen - 2, opslen) == ptracer::byte_patch_ops(
                            nb.addr,
                            w,
                            pre.target.breakpoint_op,
                        ) && nb.token == (w & 0xffu64) as u8
                },
            }
            },
        }
    })
}

impl Context {
    /// Arms the boot-entry interception right after a fresh process
    /// started: under an interpreter, an internal breakpoint at the main
    /// binary's bias-adjusted entry defers symbol work until the program
    /// is mapped; otherwise the load-event point is read through
    /// `_r_debug`.
    fn handle_boot_entry<P: TracePort>(&mut self, port: &mut P)
        requires
            old(self).ptracer is Some,
            old(self).main_binary is Some,
            old(self).target.wf(),
            old(self).breakpoints.wf(),
            old(self).breakpoints.next_sys_id > i32::MIN,
            old(self).breakpoints.all_active(),
        ensures
            final(self).breakpoints.wf(),
            final(self).breakpoints.all_active(),
            final(self).breakpoints.next_id == old(self).breakpoints.next_id,
            final(self).ptracer is Some,
            final(self).ptracer.unwrap().pid == old(self).ptracer.unwrap().pid,
            final(self).main_binary == old(self).main_binary,
            final(self).interp == old(self).interp,
            final(self).args == old(self).args,
            final(self).symtab == old(self).symtab,
            final(self).target == old(self).target,
            final(self).regs == old(self).regs,
            final(self).needs_wait == old(self).needs_wait,
            final(self).cur_breakpoint == old(self).cur_breakpoint,
            ({
                let pt = old(self).ptracer.unwrap();
                let pt2 = final(self).ptracer.unwrap();
                let pre_bps = old(self).breakpoints.breakpoints@;
                let post_bps = final(self).breakpoints.breakpoints@;
                let main = old(self).main_binary.unwrap();
                if old(self).interp is Some {
                    let nb = post_bps.last();
                    &&& post_bps == pre_bps.push(nb)
                    &&& nb.addr == wadd(main.entry, main.bias)
                    &&& nb.action == Some(Action::EnterMainBinary)
                    &&& nb.is_active
                    &&& nb.id == old(self).breakpoints.next_sys_id - 1
                    &&& final(self).breakpoints.next_sys_id == old(
                        self,
                    ).breakpoints.next_sys_id - 1
                    &&& exists|w: u64|
                        pt2.ops@ == pt.ops@ + ptracer::byte_patch_ops(
                            nb.addr,
                            w,
                            old(self).target.breakpoint_op,
                        ) && nb.token == (w & 0xffu64) as u8
                    &&& final(self).r_map == old(self).r_map
                } else {
                    match spec_first_sym(main.syms.deep_view(), "_r_debug"@) {
                        None => {
                            &&& final(self).breakpoints == old(self).breakpoints
                            &&& final(self).r_map == old(self).r_map
                            &&& pt2.ops@ == pt.ops@
                        },
                        Some(v) => {
                            let rda = wadd(v, main.bias);
                            let nb = post_bps.last();
                            &&& post_bps == pre_bps.push(nb)
                            &&& nb.action == Some(Action::UpdateRDebug)
                            &&& nb.is_active
                            &&& nb.id == old(self).breakpoints.next_sys_id - 1
                            &&& final(self).breakpoints.next_sys_id == old(
                                self,
                            ).breakpoints.next_sys_id - 1
                            &&& final(self).r_map == wadd(rda, 8)
                            &&& exists|w: u64|
                                pt2.ops@ == pt.ops@.push(
                                    TraceOp::PeekWord { addr: wadd(rda, 16), val: nb.addr },
                                ) + ptracer::byte_patch_ops(
                                    nb.addr,
                                    w,
                                    old(self).target.breakpoint_op,
                                ) && nb.token == (w & 0xffu64) as u8
                        },
                    }
                }
            }),
    {
        if self.interp.is_some() {
            let addr = match &self.main_binary {
                Some(mb) => mb.entry().wrapping_add(mb.bias()),
                None => vstd::pervasive::unreached(),
            };
            let ghost pre_bps = self.breakpoints.breakpoints@;
            let nb = self.breakpoints.add(
                addr,
                false,
                Some(Action::EnterMainBinary),
                &mut self.ptracer,
                port,
                &self.target,
            );
            proof {
                assert(self.breakpoints.breakpoints@.last() == nb);
                assert forall|i: int| 0 <= i < self.breakpoints.breakpoints@.len() implies (
                #[trigger] self.breakpoints.breakpoints@[i]).is_active by {
                    if i < pre_bps.len() {
                        assert(pre_bps[i].is_active);
                    }
                }
            }
        } else {
            self.read_r_debug(port);
        }
    }

    /// Finds the dynamic linker's load-notification point: the word one
    /// platform word past the list head inside the `_r_debug` structure,
    /// read from the running image, gets an internal breakpoint, so
    /// future shared-library load events can be observed without
    /// instrumenting the target's code.
    fn read_r_debug<P: TracePort>(&mut self, port: &mut P)
        requires
            old(self).ptracer is Some,
            old(self).main_binary is Some,
            old(self).interp is None,
            old(self).target.wf(),
            old(self).breakpoints.wf(),
            old(self).breakpoints.next_sys_id > i32::MIN,
            old(self).breakpoints.all_active(),
        ensures
            final(self).breakpoints.wf(),
            final(self).breakpoints.all_active(),
            final(self).breakpoints.next_id == old(self).breakpoints.next_id,
            final(self).ptracer is Some,
            final(self).ptracer.unwrap().pid == old(self).ptracer.unwrap().pid,
            final(self).main_binary == old(self).main_binary,
            final(self).interp == old(self).interp,
            final(self).args == old(self).args,
            final(self).symtab == old(self).symtab,
            final(self).target == old(self).target,
            final(self).regs == old(self).regs,
            final(self).needs_wait == old(self).needs_wait,
            final(self).cur_breakpoint == old(self).cur_breakpoint,
            ({
                let pt = old(self).ptracer.unwrap();
                let pt2 = final(self).ptracer.unwrap();
                let pre_bps = old(self).breakpoints.breakpoints@;
                let post_bps = final(self).breakpoints.breakpoints@;
                let main = old(self).main_binary.unwrap();
                match spec_first_sym(main.syms.deep_view(), "_r_debug"@) {
                    None => {
                        &&& final(self).breakpoints == old(self).breakpoints
                        &&& final(self).r_map == old(self).r_map
                        &&& pt2.ops@ == pt.ops@
                    },
                    Some(v) => {
                        let rda = wadd(v, main.bias);
                        let nb = post_bps.last();
                        &&& post_bps == pre_bps.push(nb)
                        &&& nb.action == Some(Action::UpdateRDebug)
                        &&& nb.is_active
                        &&& nb.id == old(self).breakpoints.next_sys_id - 1
                        &&& final(self).breakpoints.next_sys_id == old(
                            self,
                        ).breakpoints.next_sys_id - 1
                        &&& final(self).r_map == wadd(rda, 8)
                        &&& exists|w: u64|
                            pt2.ops@ == pt.ops@.push(
                                TraceOp::PeekWord { addr: wadd(rda, 16), val: nb.addr },
                            ) + ptracer::byte_patch_ops(
                                nb.addr,
                                w,
                                old(self).target.breakpoint_op,
                            ) && nb.token == (w & 0xffu64) as u8
                    },
                }
            }),
    {
        let (found, value) = match &self.main_binary {
            Some(mb) => Self::find_first_sym(&mb.syms, "_r_debug"),
            None => vstd::pervasive::unreached(),
        };
        if !found {
            return ;
        }
        let bias = match &self.main_binary {
            Some(mb) => mb.bias(),
            None => vstd::pervasive::unreached(),
        };
        let r_debug_addr = value.wrapping_add(bias);
        let gp = self.target.gp_size as u64;
        self.r_map = r_debug_addr.wrapping_add(gp);
        let mut pt = match self.ptracer {
            Some(pt) => pt,
            None => vstd::pervasive::unreached(),
        };
        let notify = pt.peek_word(port, r_debug_addr.wrapping_add(gp.wrapping_mul(2)));
        self.ptracer = Some(pt);
        let ghost pre_bps = self.breakpoints.breakpoints@;
        let nb = self.breakpoints.add(
            notify,
            false,
            Some(Action::UpdateRDebug),
            &mut self.ptracer,
            port,
            &self.target,
        );
        proof {
            assert(wadd(r_debug_addr, 8) == wadd(wadd(value, bias), 8));
            assert(gp == 8);
            assert(gp.wrapping_mul(2) == 16);
            assert forall|i: int| 0 <= i < self.breakpoints.breakpoints@.len() implies (
            #[trigger] self.breakpoints.breakpoints@[i]).is_active by {
                if i < pre_bps.len() {
                    assert(pre_bps[i].is_active);
                }
            }
        }
    }

    /// The value of the first catalog entry named `name`, with a flag
    /// saying whether one exists.
    fn find_first_sym(syms: &Vec<Symbol>, name: &str) -> (r: (bool, u64))
        ensures
            r.0 ==> spec_first_sym(syms.deep_view(), name@) == Some(r.1),
            !r.0 ==> spec_first_sym(syms.deep_view(), name@) is None,
    {
        let n = syms.len();
        let mut i: usize = 0;
        proof {
            assert(syms.deep_view().skip(0) =~= syms.deep_view());
        }
        while i < n
            invariant
                i <= n,
                n == syms@.len(),
                spec_first_sym(syms.deep_view(), name@) == spec_first_sym(
                    syms.deep_view().skip(i as int),
                    name@,
                ),
            decreases n - i,
        {
            let sym = &syms[i];
            proof {
                assert(syms.deep_view().skip(i as int)[0] == syms@[i as int]@);
                assert(syms.deep_view().skip(i as int).drop_first() =~= syms.deep_view().skip(
                    i + 1,
                ));
            }
            if text::str_eq(sym.name.as_str(), name) {
                return (true, sym.value);
            }
            i += 1;
        }
        (false, 0)
    }

    /// Assembles the argument vector — explicit arguments override the
    /// stored defaults — spawns a traced child with it, computes the load
    /// bias from its observed entry instruction pointer, installs every
    /// registered breakpoint, and arms the boot-entry interception, as
    /// [`start_ok`] describes.  Fails with its own complaint exactly when
    /// no main binary is set, and with the port's spawn failure, wrapped
    /// recognisably, when the spawn is refused.
    pub fn start<P: TracePort>(&mut self, args: Vec<String>, port: &mut P) -> (r: Result<
        String,
        String,
    >)
        requires
            old(self).wf(),
            old(self).ptracer is None,
            old(self).breakpoints.next_sys_id > i32::MIN,
        ensures
            final(self).wf(),
            old(self).main_binary is None ==> (r matches Err(m) && m@ == no_executable_msg())
                && *final(self) == *old(self),
            (r matches Err(m) && m@ == no_executable_msg()) ==> old(self).main_binary is None,
            old(self).main_binary is Some ==> (r matches Err(m) ==> exists|e: Seq<char>|
                m@ == spawn_failed_msg(e)),
            r is Err ==> *final(self) == *old(self),
            r matches Ok(m) ==> start_ok(*old(self), *final(self), args.deep_view(), m@),
    {
        let ghost argsv = args.deep_view();
        if self.main_binary.is_none() {
            return Err(String::from_str("No executable specified."));
        }
        let mut argv: Vec<String> = Vec::new();
        match &self.main_binary {
            Some(mb) => {
                argv.push(mb.filename().clone());
            },
            None => {
                vstd::pervasive::unreached::<()>();
            },
        }
        if args.len() > 0 {
            let mut rest = args;
            argv.append(&mut rest);
        } else {
            let mut rest = self.args.clone();
            argv.append(&mut rest);
        }
        proof {
            assert(argv.deep_view() =~= spec_argv(*old(self), argsv));
        }
        let mut pt = match Ptracer::new(port, &argv) {
            Ok(pt) => pt,
            Err(e) => {
                let mut m = String::from_str("Failed to start program: ");
                m.append(e.as_str());
                proof {
                    assert(m@ =~= spawn_failed_msg(e@));
                    reveal_strlit("Failed to start program: ");
                    reveal_strlit("No executable specified.");
                    assert(m@[0] == 'F');
                    assert(no_executable_msg()[0] == 'N');
                }
                return Err(m);
            },
        };
        let pid = pt.pid();
        let mut msg = String::from_str("Starting program: ");
        msg.append(argv[0].as_str());
        msg.append(" (pid=");
        text::push_dec_i64(pid as i64, &mut msg);
        msg.append(")");
        let rg = pt.get_regs(port, &self.target);
        let ip0 = rg.ip();
        self.set_entry_bias(ip0);
        let ghost pre_install_ops = pt.ops@;
        self.breakpoints.notify_start(&mut pt, port, &self.target);
        let ghost pre_bps = old(self).breakpoints.breakpoints@;
        let ghost ws = choose|ws: Seq<u64>|
            ws.len() == pre_bps.len() && pt.ops@ == pre_install_ops + breakpoint::install_ops(
                pre_bps,
                ws,
                self.target.breakpoint_op,
            ) && forall|i: int|
                0 <= i < ws.len() ==> (#[trigger] self.breakpoints.breakpoints@[i]).token == (
                ws[i] & 0xffu64) as u8;
        proof {
            breakpoint::lemma_install_ops_len(pre_bps, ws, self.target.breakpoint_op);
        }
        self.ptracer = Some(pt);
        let ghost mid_ops = pt.ops@;
        self.handle_boot_entry(port);
        proof {
            assert(msg@ =~= starting_msg(old(self).main_binary.unwrap().filename@, pid as int));
            let pt2 = self.ptracer.unwrap();
            assert(pt2.ops@.subrange(2, 2 + 2 * pre_bps.len() as int) =~= breakpoint::install_ops(
                pre_bps,
                ws,
                self.target.breakpoint_op,
            ));
            assert(forall|i: int|
                0 <= i < ws.len() ==> (#[trigger] self.breakpoints.breakpoints@[i]).token == (
                ws[i] & 0xffu64) as u8);
            if old(self).interp is Some {
                let nb = self.breakpoints.breakpoints@.last();
                let bw = choose|w: u64|
                    pt2.ops@ == mid_ops + ptracer::byte_patch_ops(
                        nb.addr,
                        w,
                        self.target.breakpoint_op,
                    ) && nb.token == (w & 0xffu64) as u8;
                let opslen = pt2.ops@.len() as int;
                assert(pt2.ops@.subrange(opslen - 2, opslen) =~= ptracer::byte_patch_ops(
                    nb.addr,
                    bw,
                    self.target.breakpoint_op,
                ));
            }
            if old(self).interp is None && spec_first_sym(
                old(self).main_binary.unwrap().syms.deep_view(),
                "_r_debug"@,
            ) is Some {
                let nb = self.breakpoints.breakpoints@.last();
                let w = choose|w: u64|
                    pt2.ops@ == mid_ops.push(
                        TraceOp::PeekWord {
                            addr: wadd(wadd(spec_first_sym(
                                old(self).main_binary.unwrap().syms.deep_view(),
                                "_r_debug"@,
                            ).unwrap(), self.main_binary.unwrap().bias), 16),
                            val: nb.addr,
                        },
                    ) + ptracer::byte_patch_ops(nb.addr, w, self.target.breakpoint_op)
                        && nb.token == (w & 0xffu64) as u8;
                let opslen = pt2.ops@.len() as int;
                assert(pt2.ops@.subrange(opslen - 2, opslen) =~= ptracer::byte_patch_ops(
                    nb.addr,
                    w,
                    self.target.breakpoint_op,
                ));
            }
            assert(start_ok(*old(self), *self, argsv, msg@));
        }
        Ok(msg)
    }

    /// Starts the program and immediately resumes it: everything
    /// [`start_ok`] promises of the start holds of an intermediate state
    /// the resume then leaves alone, except that a wait is now owed and
    /// the transcript ends with the resume.
    pub fn run<P: TracePort>(&mut self, args: Vec<String>, port: &mut P) -> (r: Result<
        String,
        String,
    >)
        requires
            old(self).wf(),
            old(self).ptracer is None,
            old(self).breakpoints.next_sys_id > i32::MIN,
        ensures
            final(self).wf(),
            old(self).main_binary is None ==> (r matches Err(m) && m@ == no_executable_msg())
                && *final(self) == *old(self),
            (r matches Err(m) && m@ == no_executable_msg()) ==> old(self).main_binary is None,
            r is Err ==> *final(self) == *old(self),
            r matches Ok(m) ==> exists|mid: Context|
                {
                    &&& #[trigger] start_ok(*old(self), mid, args.deep_view(), m@)
                    &&& mid.same_session(*final(self))
                    &&& final(self).breakpoints == mid.breakpoints
                    &&& final(self).regs == mid.regs
                    &&& final(self).needs_wait
                    &&& final(self).cur_breakpoint == 0
                    &&& (final(self).ptracer matches Some(pf) && mid.ptracer matches Some(pm)
                        && pf.pid == pm.pid && pf.ops@ == pm.ops@.push(TraceOp::Cont))
                },
    {
        let ghost argsv = args.deep_view();
        let msg = match self.start(args, port) {
            Ok(m) => m,
            Err(e) => {
                return Err(e);
            },
        };
        let ghost mid = *self;
        match self.cont(port) {
            Ok(_) => {
                proof {
                    assert(start_ok(*old(self), mid, argsv, msg@));
                }
                Ok(msg)
            },
            Err(e) => Err(e),
        }
    }

    /// Registers a user breakpoint at `addr`, live or deferred, and names
    /// it.
    pub fn add_breakpoint<P: TracePort>(&mut self, addr: u64, port: &mut P) -> (r: Result<
        String,
        String,
    >)
        requires
            old(self).wf(),
            old(self).breakpoints.next_id < i32::MAX,
        ensures
            final(self).wf(),
            ({
                let nb = final(self).breakpoints.breakpoints@.last();
                &&& (r matches Ok(m) && m@ == breakpoint_added_msg(
                    old(self).breakpoints.next_id + 1,
                    addr as int,
                ))
                &&& final(self).breakpoints.breakpoints@ == old(
                    self,
                ).breakpoints.breakpoints@.push(nb)
                &&& nb.id == old(self).breakpoints.next_id + 1
                &&& nb.addr == addr
                &&& nb.action is None
                &&& nb.is_active == (old(self).ptracer is Some)
                &&& final(self).breakpoints.next_id == nb.id
                &&& final(self).breakpoints.next_sys_id == old(self).breakpoints.next_sys_id
                &&& final(self).needs_wait == old(self).needs_wait
                &&& final(self).cur_breakpoint == old(self).cur_breakpoint
                &&& final(self).regs == old(self).regs
                &&& old(self).same_session(*final(self))
                &&& match old(self).ptracer {
                    Some(pt) => final(self).ptracer matches Some(pt2) && pt2.pid == pt.pid
                        && exists|w: u64|
                        pt2.ops@ == pt.ops@ + ptracer::byte_patch_ops(
                            addr,
                            w,
                            old(self).target.breakpoint_op,
                        ) && nb.token == (w & 0xffu64) as u8,
                    None => final(self).ptracer is None,
                }
            }),
    {
        let ghost pre_bps = self.breakpoints.breakpoints@;
        let bp = self.breakpoints.add(addr, true, None, &mut self.ptracer, port, &self.target);
        let mut m = String::from_str("Breakpoint ");
        text::push_dec_i64(bp.id() as i64, &mut m);
        m.append(" at 0x");
        text::push_hex_u64(bp.addr(), &mut m);
        proof {
            assert(m@ =~= breakpoint_added_msg(old(self).breakpoints.next_id + 1, addr as int));
            if self.ptracer is Some {
                assert forall|i: int| 0 <= i < self.breakpoints.breakpoints@.len() implies (
                #[trigger] self.breakpoints.breakpoints@[i]).is_active by {
                    if i < pre_bps.len() {
                        assert(pre_bps[i].is_active);
                    }
                }
            } else {
                assert forall|i: int| 0 <= i < self.breakpoints.breakpoints@.len() implies !(
                #[trigger] self.breakpoints.breakpoints@[i]).is_active by {
                    if i < pre_bps.len() {
                        assert(!pre_bps[i].is_active);
                    }
                }
            }
        }
        Ok(m)
    }
}

/// Evaluates an address expression: a literal is its own (64-bit) value, a
/// name resolves through the symbol map or falls back to zero, and the
/// empty expression is zero.
pub open spec fn spec_eval(ctx: Context, e: crate::expr::ExprV) -> u64 {
    match e {
        crate::expr::ExprV::Empty => 0,
        crate::expr::ExprV::Num(v) => v as u64,
        crate::expr::ExprV::Ident(nm) => match spec_resolve(ctx.symtab.deep_view(), nm) {
            Some(v) => v,
            None => 0,
        },
    }
}

} // verus!
