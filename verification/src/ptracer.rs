use vstd::prelude::*;
use vstd::string::StringExecFns;
use crate::target_desc::Target;

verus! {

/// What one wait on the traced process reported: stopped by a signal,
/// exited with a code, or killed by a signal.
#[derive(Clone, Copy, Debug)]
pub enum ProcessState {
    Stop(i32),
    Exit(i32),
    Signal(i32),
}

impl ProcessState {
    pub fn is_stopped(&self) -> (r: bool)
        ensures
            r == (self is Stop),
    {
        match self {
            ProcessState::Stop(_) => true,
            _ => false,
        }
    }
}

/// The raw wait status decoded as the kernel encodes it: the low byte
/// `0x7f` marks a stop (the signal sits in the next byte), a zero low
/// seven bits mark an exit (the code sits in the next byte), and a low
/// seven bits naming a signal mark a termination by that signal.  Nothing
/// for the one remaining pattern.
pub open spec fn wait_decode(status: i32) -> Option<ProcessState> {
    let s = (status as u32) as int;
    if s % 256 == 0x7f {
        Some(ProcessState::Stop(((s / 256) % 256) as i32))
    } else if s % 128 == 0 {
        Some(ProcessState::Exit(((s / 256) % 256) as i32))
    } else if s % 128 != 0x7f {
        Some(ProcessState::Signal((s % 128) as i32))
    } else {
        None
    }
}

/// Decodes a raw wait status, as [`wait_decode`] describes.
pub fn decode_wait_status(status: i32) -> (r: Option<ProcessState>)
    ensures
        r == wait_decode(status),
{
    #[verifier::truncate]
    let s: u32 = status as u32;
    let low8 = s % 256;
    let low7 = s % 128;
    if low8 == 0x7f {
        Some(ProcessState::Stop(((s / 256) % 256) as i32))
    } else if low7 == 0 {
        Some(ProcessState::Exit(((s / 256) % 256) as i32))
    } else if low7 != 0x7f {
        Some(ProcessState::Signal(low7 as i32))
    } else {
        None
    }
}

/// A register snapshot: the general-purpose registers in buffer order,
/// with the instruction, stack and base pointers pulled out by their
/// indices.
pub struct Registers {
    pub gps: Vec<u64>,
    pub ip: u64,
    pub sp: u64,
    pub bp: u64,
}

/// The register at `i`, or zero when the snapshot is too short.
pub open spec fn gp_or_zero(gps: Seq<u64>, i: int) -> u64 {
    if 0 <= i < gps.len() {
        gps[i]
    } else {
        0
    }
}

impl Registers {
    pub fn ip(&self) -> (r: u64)
        ensures
            r == self.ip,
    {
        self.ip
    }

    pub fn sp(&self) -> (r: u64)
        ensures
            r == self.sp,
    {
        self.sp
    }

    pub fn bp(&self) -> (r: u64)
        ensures
            r == self.bp,
    {
        self.bp
    }

    pub fn empty() -> (r: Self)
        ensures
            r.gps@.len() == 0,
            r.ip == 0,
            r.sp == 0,
            r.bp == 0,
    {
        Registers { gps: Vec::new(), ip: 0, sp: 0, bp: 0 }
    }

    /// A snapshot built from a raw register buffer, the three pointers
    /// drawn out by the target's indices.
    pub fn from_gps(gps: Vec<u64>, target: &Target) -> (r: Self)
        ensures
            r.gps == gps,
            r.ip == gp_or_zero(gps@, target.ip_index as int),
            r.sp == gp_or_zero(gps@, target.sp_index as int),
            r.bp == gp_or_zero(gps@, target.bp_index as int),
    {
        let n = gps.len();
        let ip = if target.ip_index < n {
            gps[target.ip_index]
        } else {
            0
        };
        let sp = if target.sp_index < n {
            gps[target.sp_index]
        } else {
            0
        };
        let bp = if target.bp_index < n {
            gps[target.bp_index]
        } else {
            0
        };
        Registers { gps, ip, sp, bp }
    }

    /// Rewrites the instruction pointer, in the cached field and in the
    /// raw buffer, leaving every other register alone.
    pub fn update_ip(&mut self, ip: u64, target: &Target)
        ensures
            final(self).ip == ip,
            final(self).gps@ == if target.ip_index < old(self).gps@.len() {
                old(self).gps@.update(target.ip_index as int, ip)
            } else {
                old(self).gps@
            },
            final(self).sp == old(self).sp,
            final(self).bp == old(self).bp,
    {
        self.ip = ip;
        if target.ip_index < self.gps.len() {
            self.gps[target.ip_index] = ip;
        }
    }
}

/// One call of a port primitive, as the ghost log records it.  Each
/// operation carries exactly what was handed to the port and what came
/// back: the log is the session's full transcript of the process
/// interaction.
pub enum TraceOp {
    Spawn { argv: Seq<Seq<char>>, pid: i32 },
    GetRegs { gps: Seq<u64> },
    SetRegs { gps: Seq<u64> },
    PeekWord { addr: u64, val: u64 },
    PokeWord { addr: u64, val: u64 },
    Step,
    Cont,
    Wait { status: i32 },
}

/// The two-call pattern of one byte patch: read the word at `addr` —
/// obtaining `w` — and write it back with only its low byte replaced by
/// `byte`; the upper seven bytes are kept.
pub open spec fn byte_patch_ops(addr: u64, w: u64, byte: u8) -> Seq<TraceOp> {
    seq![
        TraceOp::PeekWord { addr, val: w },
        TraceOp::PokeWord { addr, val: (w & !0xffu64) | (byte as u64) },
    ]
}

/// The process-tracing primitives the embedding program supplies: spawn a
/// traced child, read and write its registers and memory, step, resume,
/// and wait.  No behaviour is assumed of any of them — everything the
/// session guarantees holds for every possible traced process.
pub trait TracePort {
    /// Spawns `argv` as a traced child, stopped at its first trap, and
    /// yields its process id.
    fn spawn(&mut self, argv: &Vec<String>) -> Result<i32, String>;

    /// The raw general-purpose register buffer, in buffer order.
    fn get_regs(&mut self, pid: i32) -> Vec<u64>;

    /// Writes the raw general-purpose register buffer back.
    fn set_regs(&mut self, pid: i32, gps: &Vec<u64>);

    /// One machine word of the target's memory.
    fn peek_word(&mut self, pid: i32, addr: u64) -> u64;

    /// Writes one machine word of the target's memory.
    fn poke_word(&mut self, pid: i32, addr: u64, data: u64);

    /// Lets the target execute exactly one instruction.
    fn single_step(&mut self, pid: i32);

    /// Resumes the target until the next trap, signal or exit.
    fn cont(&mut self, pid: i32);

    /// Blocks until the target changes state; the raw wait status.
    fn wait(&mut self) -> i32;
}

/// The handle on one traced process: its id, and the ghost transcript of
/// every operation issued to it.
#[derive(Clone, Copy)]
pub struct Ptracer {
    pub pid: i32,
    pub ops: Ghost<Seq<TraceOp>>,
}

impl Ptracer {
    /// Spawns `argv` as a traced child through the port and adopts it; the
    /// transcript opens with the spawn.  Whether spawning succeeds is the
    /// port's alone.
    pub fn new<P: TracePort>(port: &mut P, argv: &Vec<String>) -> (r: Result<Self, String>)
        ensures
            r matches Ok(pt) ==> pt.ops@ == seq![
                TraceOp::Spawn { argv: argv.deep_view(), pid: pt.pid },
            ],
    {
        match port.spawn(argv) {
            Ok(pid) => Ok(
                Ptracer {
                    pid,
                    ops: Ghost(Seq::empty().push(TraceOp::Spawn { argv: argv.deep_view(), pid })),
                },
            ),
            Err(e) => Err(e),
        }
    }

    pub fn pid(&self) -> (r: i32)
        ensures
            r == self.pid,
    {
        self.pid
    }

    /// Lets the target execute exactly one instruction; the caller must
    /// wait afterwards.
    pub fn single_step<P: TracePort>(&mut self, port: &mut P)
        ensures
            final(self).pid == old(self).pid,
            final(self).ops@ == old(self).ops@.push(TraceOp::Step),
    {
        port.single_step(self.pid);
        proof {
            self.ops@ = self.ops@.push(TraceOp::Step);
        }
    }

    /// Resumes the target; the caller must wait afterwards.
    pub fn cont<P: TracePort>(&mut self, port: &mut P)
        ensures
            final(self).pid == old(self).pid,
            final(self).ops@ == old(self).ops@.push(TraceOp::Cont),
    {
        port.cont(self.pid);
        proof {
            self.ops@ = self.ops@.push(TraceOp::Cont);
        }
    }

    /// Blocks until the target changes state; the raw wait status, for the
    /// caller to decode.
    pub fn wait<P: TracePort>(&mut self, port: &mut P) -> (r: i32)
        ensures
            final(self).pid == old(self).pid,
            final(self).ops@ == old(self).ops@.push(TraceOp::Wait { status: r }),
    {
        let status = port.wait();
        proof {
            self.ops@ = self.ops@.push(TraceOp::Wait { status });
        }
        status
    }

    /// A fresh register snapshot of the target; the transcript records the
    /// raw buffer the port handed back.
    pub fn get_regs<P: TracePort>(&mut self, port: &mut P, target: &Target) -> (r: Registers)
        ensures
            final(self).pid == old(self).pid,
            final(self).ops@ == old(self).ops@.push(TraceOp::GetRegs { gps: r.gps@ }),
            r.ip == gp_or_zero(r.gps@, target.ip_index as int),
            r.sp == gp_or_zero(r.gps@, target.sp_index as int),
            r.bp == gp_or_zero(r.gps@, target.bp_index as int),
    {
        let gps = port.get_regs(self.pid);
        let r = Registers::from_gps(gps, target);
        proof {
            self.ops@ = self.ops@.push(TraceOp::GetRegs { gps: r.gps@ });
        }
        r
    }

    /// Writes a register snapshot back to the target; the transcript
    /// records the full buffer handed to the port.
    pub fn set_regs<P: TracePort>(&mut self, port: &mut P, regs: &Registers)
        ensures
            final(self).pid == old(self).pid,
            final(self).ops@ == old(self).ops@.push(TraceOp::SetRegs { gps: regs.gps@ }),
    {
        port.set_regs(self.pid, &regs.gps);
        proof {
            self.ops@ = self.ops@.push(TraceOp::SetRegs { gps: regs.gps@ });
        }
    }

    /// One machine word of the target's memory.
    pub fn peek_word<P: TracePort>(&mut self, port: &mut P, addr: u64) -> (r: u64)
        ensures
            final(self).pid == old(self).pid,
            final(self).ops@ == old(self).ops@.push(TraceOp::PeekWord { addr, val: r }),
    {
        let val = port.peek_word(self.pid, addr);
        proof {
            self.ops@ = self.ops@.push(TraceOp::PeekWord { addr, val });
        }
        val
    }

    /// Writes one machine word of the target's memory.
    pub fn poke_word<P: TracePort>(&mut self, port: &mut P, addr: u64, data: u64)
        ensures
            final(self).pid == old(self).pid,
            final(self).ops@ == old(self).ops@.push(TraceOp::PokeWord { addr, val: data }),
    {
        port.poke_word(self.pid, addr, data);
        proof {
            self.ops@ = self.ops@.push(TraceOp::PokeWord { addr, val: data });
        }
    }

    /// Replaces the low byte of the word at `addr` with `data`, returning
    /// the byte that was there: the mechanism of every trap patch, on a
    /// little-endian target.  The word read comes back with only its low
    /// byte replaced; the result is the low byte it had.
    pub fn poke_byte<P: TracePort>(&mut self, port: &mut P, addr: u64, data: u8, target: &Target) -> (r:
        u8)
        requires
            target.le,
        ensures
            final(self).pid == old(self).pid,
            exists|w: u64|
                final(self).ops@ == old(self).ops@ + byte_patch_ops(addr, w, data) && r == (w
                    & 0xffu64) as u8,
    {
        let w = self.peek_word(port, addr);
        let word = (w & !0xffu64) | (data as u64);
        self.poke_word(port, addr, word);
        let r = (w & 0xff) as u8;
        proof {
            assert(self.ops@ =~= old(self).ops@ + byte_patch_ops(addr, w, data));
        }
        r
    }

    /// Installs the one-byte trap opcode at `addr`, returning the byte it
    /// replaced.
    pub fn poke_breakpoint<P: TracePort>(&mut self, port: &mut P, addr: u64, target: &Target) -> (r:
        u8)
        requires
            target.wf(),
        ensures
            final(self).pid == old(self).pid,
            exists|w: u64|
                final(self).ops@ == old(self).ops@ + byte_patch_ops(
                    addr,
                    w,
                    target.breakpoint_op,
                ) && r == (w & 0xffu64) as u8,
    {
        self.poke_byte(port, addr, target.breakpoint_op, target)
    }
}

/// Turns the return convention of the raw OS primitives — negative means
/// failure — into a result, naming the failed call.
pub fn check_libc(retval: i32, msg: &str) -> (r: Result<i32, String>)
    ensures
        retval >= 0 ==> r == Ok::<i32, String>(retval),
        retval < 0 ==> (r matches Err(m) && m@ == msg@),
{
    if retval < 0 {
        Err(String::from_str(msg))
    } else {
        Ok(retval)
    }
}

} // verus!
