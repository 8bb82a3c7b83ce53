use std::collections::HashMap;
use vdb::binary::Binary;
use vdb::context::Context;
use vdb::expr::Expr;
use vdb::ptracer::{decode_wait_status, ProcessState, TracePort};

// ------------------------------------------------------------------
// A minimal 64-bit little-endian ELF image, built in memory
// ------------------------------------------------------------------

fn put_u16(b: &mut Vec<u8>, off: usize, v: u16) {
    b[off] = (v & 0xff) as u8;
    b[off + 1] = (v >> 8) as u8;
}

fn put_u32(b: &mut Vec<u8>, off: usize, v: u32) {
    for i in 0..4 {
        b[off + i] = ((v >> (8 * i)) & 0xff) as u8;
    }
}

fn put_u64(b: &mut Vec<u8>, off: usize, v: u64) {
    for i in 0..8 {
        b[off + i] = ((v >> (8 * i)) & 0xff) as u8;
    }
}

/// Builds an image with one symbol table (static or dynamic), its string
/// table, and optionally one interpreter segment.
fn build_elf(entry: u64, interp: Option<&str>, syms: &[(&str, u64)], dynamic: bool) -> Vec<u8> {
    let phnum: usize = if interp.is_some() { 1 } else { 0 };
    let shnum: usize = 2;
    let phoff: usize = 0x40;
    let shoff: usize = phoff + 56 * phnum;
    let symoff: usize = shoff + 64 * shnum;
    let symsize: usize = 24 * syms.len();
    let stroff: usize = symoff + symsize;

    let mut strtab: Vec<u8> = vec![0];
    let mut name_offs: Vec<u32> = Vec::new();
    for (name, _) in syms {
        name_offs.push(strtab.len() as u32);
        strtab.extend_from_slice(name.as_bytes());
        strtab.push(0);
    }
    let interp_off: usize = stroff + strtab.len();
    let interp_bytes: Vec<u8> = match interp {
        Some(p) => {
            let mut v = p.as_bytes().to_vec();
            v.push(0);
            v
        }
        None => Vec::new(),
    };
    let total = interp_off + interp_bytes.len();
    let mut img = vec![0u8; total];

    img[0] = 0x7f;
    img[1] = 0x45;
    img[2] = 0x4c;
    img[3] = 0x46;
    img[4] = 2; // 64-bit
    img[5] = 1; // little-endian
    put_u64(&mut img, 0x18, entry);
    put_u64(&mut img, 0x20, phoff as u64);
    put_u64(&mut img, 0x28, shoff as u64);
    put_u16(&mut img, 0x38, phnum as u16);
    put_u16(&mut img, 0x3c, shnum as u16);

    if interp.is_some() {
        put_u32(&mut img, phoff, 3); // PT_INTERP
        put_u64(&mut img, phoff + 0x8, interp_off as u64);
        put_u64(&mut img, phoff + 0x20, interp_bytes.len() as u64);
    }

    // Section 0: the symbol table, linked to section 1.
    put_u32(&mut img, shoff + 0x4, if dynamic { 11 } else { 2 });
    put_u64(&mut img, shoff + 0x18, symoff as u64);
    put_u64(&mut img, shoff + 0x20, symsize as u64);
    put_u32(&mut img, shoff + 0x28, 1);
    // Section 1: the string table.
    put_u32(&mut img, shoff + 64 + 0x4, 3);
    put_u64(&mut img, shoff + 64 + 0x18, stroff as u64);
    put_u64(&mut img, shoff + 64 + 0x20, strtab.len() as u64);

    for (i, (_, value)) in syms.iter().enumerate() {
        put_u32(&mut img, symoff + 24 * i, name_offs[i]);
        put_u64(&mut img, symoff + 24 * i + 8, *value);
    }
    img[stroff..stroff + strtab.len()].copy_from_slice(&strtab);
    if !interp_bytes.is_empty() {
        img[interp_off..interp_off + interp_bytes.len()].copy_from_slice(&interp_bytes);
    }
    img
}

// ------------------------------------------------------------------
// A scripted stand-in for the traced process
// ------------------------------------------------------------------

#[derive(Debug, PartialEq, Clone)]
enum FakeOp {
    Peek(u64, u64),
    Poke(u64, u64),
    Step,
    Cont,
    Wait(i32),
    GetRegs(u64),
    SetRegs(u64),
}

struct FakePort {
    pid: i32,
    mem: HashMap<u64, u64>,
    default_word: u64,
    statuses: Vec<i32>,
    ips: Vec<u64>,
    log: Vec<FakeOp>,
    fail_spawn: bool,
    spawned_argv: Vec<String>,
}

impl FakePort {
    fn new(pid: i32, statuses: Vec<i32>, ips: Vec<u64>) -> FakePort {
        FakePort {
            pid,
            mem: HashMap::new(),
            default_word: 0x1122334455667788,
            statuses,
            ips,
            log: Vec::new(),
            fail_spawn: false,
            spawned_argv: Vec::new(),
        }
    }
}

impl TracePort for FakePort {
    fn spawn(&mut self, argv: &Vec<String>) -> Result<i32, String> {
        if self.fail_spawn {
            return Err("fork: resources exhausted".to_string());
        }
        self.spawned_argv = argv.clone();
        Ok(self.pid)
    }

    fn get_regs(&mut self, _pid: i32) -> Vec<u64> {
        let ip = if self.ips.is_empty() {
            0
        } else {
            self.ips.remove(0)
        };
        let mut gps = vec![0u64; 27];
        gps[16] = ip;
        self.log.push(FakeOp::GetRegs(ip));
        gps
    }

    fn set_regs(&mut self, _pid: i32, gps: &Vec<u64>) {
        self.log.push(FakeOp::SetRegs(gps[16]));
    }

    fn peek_word(&mut self, _pid: i32, addr: u64) -> u64 {
        let v = *self.mem.get(&addr).unwrap_or(&self.default_word);
        self.log.push(FakeOp::Peek(addr, v));
        v
    }

    fn poke_word(&mut self, _pid: i32, addr: u64, data: u64) {
        self.mem.insert(addr, data);
        self.log.push(FakeOp::Poke(addr, data));
    }

    fn single_step(&mut self, _pid: i32) {
        self.log.push(FakeOp::Step);
    }

    fn cont(&mut self, _pid: i32) {
        self.log.push(FakeOp::Cont);
    }

    fn wait(&mut self) -> i32 {
        let st = if self.statuses.is_empty() {
            0
        } else {
            self.statuses.remove(0)
        };
        self.log.push(FakeOp::Wait(st));
        st
    }
}

const SIGTRAP_STOP: i32 = (5 << 8) | 0x7f;

fn hello_binaries() -> (Binary, Binary) {
    let main_img = build_elf(
        0x4004a0,
        Some("fake_ld"),
        &[("start_here", 0x4004a0), ("main", 0x4005d0)],
        false,
    );
    let ld_img = build_elf(0x1000, None, &[("_ld_entry", 0x1000)], false);
    let main_bin = Binary::new("test/data/hello", &main_img).unwrap();
    let ld_bin = Binary::new("fake_ld", &ld_img).unwrap();
    (main_bin, ld_bin)
}

fn ok_match(pat: &str, result: Result<String, String>, expr: &str) {
    match result {
        Err(err) => {
            panic!("assertion failed: `{}` is an err: {}", expr, err);
        }
        Ok(msg) => {
            let re = regex::Regex::new(pat).unwrap();
            if !re.is_match(&msg) {
                panic!(
                    "assertion failed: `{}` (\"{}\"), does not match {}",
                    expr, msg, pat
                );
            }
        }
    }
}

// ------------------------------------------------------------------
// The catalog itself
// ------------------------------------------------------------------

#[test]
fn test_c_binary() {
    let img = build_elf(
        0x4004a0,
        Some("fake_ld"),
        &[("start_here", 0x4004a0), ("main", 0x4005d0)],
        false,
    );
    let bin = Binary::new("test/data/hello", &img).unwrap();
    let mut found_count = 0;
    for sym in bin.syms() {
        if sym.name == "main" {
            assert_eq!(0x4005d0, sym.value);
            found_count += 1;
        }
    }
    assert_eq!(1, found_count);
}

#[test]
fn test_parse_failures() {
    assert_eq!(
        Err("Parse failed: short".to_string()),
        Binary::new("short", &[0x7f, 0x45, 0x4c, 0x46]).map(|_| ())
    );
    let mut img = build_elf(0x1000, None, &[("a", 1)], false);
    img[4] = 1; // 32-bit class is refused
    assert_eq!(
        Err("Parse failed: class".to_string()),
        Binary::new("class", &img).map(|_| ())
    );
}

#[test]
fn test_empty_names_skipped() {
    // A name offset of zero and a name offset pointing straight at a
    // terminator are both skipped; a corrupt offset skips only its own
    // entry.
    let mut img = build_elf(0x1000, None, &[("keep", 7), ("drop", 8)], false);
    // Patch the second symbol's name offset to point far outside the
    // string table.
    let shoff = 0x40;
    let symoff = shoff + 128;
    put_u32(&mut img, symoff + 24 + 0, 0xffff);
    let bin = Binary::new("x", &img).unwrap();
    assert_eq!(bin.syms().len(), 1);
    assert_eq!(bin.syms()[0].name, "keep");
    assert_eq!(bin.syms()[0].value, 7);
}

#[test]
fn test_dynamic_fallback() {
    let img = build_elf(0x1000, None, &[("dynsym", 0x2000)], true);
    let bin = Binary::new("stripped", &img).unwrap();
    assert_eq!(bin.syms().len(), 1);
    assert_eq!(bin.syms()[0].name, "dynsym");
}

#[test]
fn test_interpreter_request() {
    let img = build_elf(0x1000, Some("/lib64/ld-linux-x86-64.so.2"), &[], false);
    let bin = Binary::new("dyn", &img).unwrap();
    assert_eq!(bin.interp().unwrap().as_str(), "/lib64/ld-linux-x86-64.so.2");
    assert_eq!(bin.entry(), 0x1000);
    assert_eq!(bin.bias(), 0);
    let img2 = build_elf(0x1000, None, &[], false);
    let bin2 = Binary::new("static", &img2).unwrap();
    assert!(bin2.interp().is_none());
}

// ------------------------------------------------------------------
// Flags, evaluation, and the platform descriptor
// ------------------------------------------------------------------

#[test]
fn test_flags() {
    let f = vdb::flags::parse(vec!["vdb".to_string(), "a.out".to_string()]);
    assert_eq!(f.args, vec!["a.out".to_string()]);
    assert!(f.core.is_none());

    let f = vdb::flags::parse(vec![
        "vdb".to_string(),
        "a.out".to_string(),
        "core".to_string(),
    ]);
    assert_eq!(f.args, vec!["a.out".to_string()]);
    assert_eq!(f.core, Some("core".to_string()));

    // `--args` reserves the slot after it.
    let f = vdb::flags::parse(vec![
        "vdb".to_string(),
        "--args".to_string(),
        "skipped".to_string(),
        "a.out".to_string(),
    ]);
    assert_eq!(f.args, vec!["a.out".to_string()]);
}

#[test]
fn test_eval() {
    let args: Vec<String> = vec![];
    let mut ctx = Context::new(&args);
    let img = build_elf(0x1000, None, &[("main", 0x4005d0)], false);
    let bin = Binary::new("hello", &img).unwrap();
    assert!(ctx.set_main_binary(bin, None).is_ok());
    assert_eq!(vdb::eval::eval(&ctx, Expr::Empty), 0);
    assert_eq!(vdb::eval::eval(&ctx, Expr::Num(42)), 42);
    assert_eq!(vdb::eval::eval(&ctx, Expr::Num(-1)), u64::MAX);
    assert_eq!(vdb::eval::eval(&ctx, Expr::Ident("main".to_string())), 0x4005d0);
    assert_eq!(vdb::eval::eval(&ctx, Expr::Ident("nope".to_string())), 0);
}

#[test]
fn test_target_descriptor() {
    let t = vdb::target_desc::get_target();
    assert_eq!(t.gp_size, 8);
    assert_eq!(t.gp_names.len(), 27);
    assert_eq!(t.gp_names[t.ip_index], "rip");
    assert_eq!(t.gp_names[t.sp_index], "rsp");
    assert_eq!(t.gp_names[t.bp_index], "rbp");
    assert!(t.le);
    assert_eq!(t.breakpoint_op, 0xcc);
    assert_eq!(t.breakpoint_size, 1);
}

#[test]
fn test_wait_status_decoding() {
    assert!(matches!(
        decode_wait_status((5 << 8) | 0x7f),
        Some(ProcessState::Stop(5))
    ));
    assert!(matches!(
        decode_wait_status(3 << 8),
        Some(ProcessState::Exit(3))
    ));
    assert!(matches!(
        decode_wait_status(11),
        Some(ProcessState::Signal(11))
    ));
    assert!(decode_wait_status(0xff).is_none());
    let st = decode_wait_status(0);
    assert!(matches!(st, Some(ProcessState::Exit(0))));
    assert!(st.unwrap().is_stopped() == false);
}

#[test]
fn test_exact_messages() {
    let args = vec!["hello".to_string()];
    let mut ctx = Context::new(&args);
    let img = build_elf(0x400400, None, &[("main", 0x4005d0)], false);
    let bin = Binary::new("hello", &img).unwrap();
    assert_eq!(
        Ok("Reading symbols from hello...done.".to_string()),
        ctx.set_main_binary(bin, None)
    );
    let mut port = FakePort::new(4242, vec![0], vec![0x400400]);
    assert_eq!(
        Ok("Breakpoint 1 at 0x4005d0".to_string()),
        ctx.add_breakpoint(0x4005d0, &mut port)
    );
    assert_eq!(
        Ok("Starting program: hello (pid=4242)".to_string()),
        ctx.start(vec![], &mut port)
    );
    assert_eq!(Ok("Continuing.".to_string()), ctx.cont(&mut port));
    assert_eq!(
        Ok("Process 4242 exited with code 0".to_string()),
        ctx.wait(&mut port)
    );
}

// ------------------------------------------------------------------
// The scenarios
// ------------------------------------------------------------------

#[test]
fn test_start() {
    let args = vec!["test/data/hello".to_string()];
    let mut ctx = Context::new(&args);
    assert!(!ctx.is_running());
    let (main_bin, ld_bin) = hello_binaries();
    assert!(ctx.set_main_binary(main_bin, Some(ld_bin)).is_ok());
    let mut port = FakePort::new(4242, vec![], vec![0x7f0000001000]);
    assert!(ctx.start(vec![], &mut port).is_ok());
    assert!(ctx.is_running());
    assert!(ctx.interp().unwrap().bias() != 0);
}

#[test]
fn test_hello() {
    let args = vec!["test/data/hello".to_string()];
    let mut ctx = Context::new(&args);
    assert!(!ctx.is_running());
    let (main_bin, ld_bin) = hello_binaries();
    assert!(ctx.set_main_binary(main_bin, Some(ld_bin)).is_ok());

    let addr = ctx.resolve("main");
    assert!(addr.is_some());
    let addr = addr.unwrap();
    assert_eq!(addr, 0x4005d0);
    let mut port = FakePort::new(
        4242,
        vec![
            SIGTRAP_STOP, // the boot-entry interception fires
            SIGTRAP_STOP, // its step-over completes
            SIGTRAP_STOP, // the user breakpoint fires
            SIGTRAP_STOP, // the single step completes
            SIGTRAP_STOP, // the resume's step-over completes
            0,            // the program exits with code 0
        ],
        vec![
            0x1000,     // observed at spawn: a non-PIE link address, bias 0
            0x4004a1,   // one past the boot-entry trap
            0x4005d1,   // one past the user trap
            0x4005d1,   // after stepping the restored one-byte instruction
        ],
    );
    ok_match(r"Breakpoint 1 at 0x", ctx.add_breakpoint(addr, &mut port), "add_breakpoint");
    assert!(!ctx.is_running());

    assert!(ctx.run(vec![], &mut port).is_ok());
    assert!(ctx.wait(&mut port).is_ok());
    ok_match(r"Breakpoint 1, ", ctx.wait(&mut port), "ctx.wait()");
    assert!(ctx.is_running());
    assert_eq!(ctx.ip(), addr);
    assert!(ctx.single_step(&mut port).is_ok());
    assert_eq!(ctx.ip(), addr + 1);
    assert!(ctx.is_running());
    assert!(ctx.cont(&mut port).is_ok());
    ok_match(r"Process \d+ exited with code 0", ctx.wait(&mut port), "ctx.wait()");
    assert!(!ctx.is_running());
}

#[test]
fn test_segv() {
    let args = vec!["test/data/segv".to_string()];
    let mut ctx = Context::new(&args);
    assert!(!ctx.is_running());
    let main_img = build_elf(0x4004a0, Some("fake_ld"), &[("main", 0x4005d0)], false);
    let ld_img = build_elf(0x1000, None, &[], false);
    let main_bin = Binary::new("test/data/segv", &main_img).unwrap();
    let ld_bin = Binary::new("fake_ld", &ld_img).unwrap();
    assert!(ctx.set_main_binary(main_bin, Some(ld_bin)).is_ok());
    let mut port = FakePort::new(
        4243,
        vec![SIGTRAP_STOP, SIGTRAP_STOP, 11],
        vec![0x1000, 0x4004a1],
    );
    assert!(ctx.run(vec![], &mut port).is_ok());
    assert!(ctx.wait(&mut port).is_ok());
    ok_match(
        r"Process \d+ signaled with code \d+",
        ctx.wait(&mut port),
        "ctx.wait()",
    );
    assert!(!ctx.is_running());
}

#[test]
fn test_neg_one() {
    let args = vec!["test/data/neg_one".to_string()];
    let mut ctx = Context::new(&args);
    assert!(!ctx.is_running());
    let main_img = build_elf(0x400400, None, &[("neg_one", 0x601030)], false);
    let main_bin = Binary::new("test/data/neg_one", &main_img).unwrap();
    assert!(ctx.set_main_binary(main_bin, None).is_ok());
    let mut port = FakePort::new(4244, vec![], vec![0x400400]);
    port.mem.insert(0x601030, u64::MAX);
    assert!(ctx.start(vec![], &mut port).is_ok());

    let addr = ctx.resolve("neg_one").unwrap();
    let mut pt = ctx.ptracer();
    assert_eq!(-1, pt.peek_word(&mut port, addr) as i64);
}

// The PIE bias: with no interpreter, the main binary's bias is exactly the
// observed entry instruction pointer minus the file entry, and a
// breakpoint set at a resolved address plus that bias reports its hit at
// that very address.
#[test]
fn test_pie_bias() {
    let args = vec!["pie".to_string()];
    let mut ctx = Context::new(&args);
    let main_img = build_elf(0x1040, None, &[("main", 0x1129)], false);
    let main_bin = Binary::new("pie", &main_img).unwrap();
    assert!(ctx.set_main_binary(main_bin, None).is_ok());

    let base: u64 = 0x555555554000;
    let main_addr = ctx.resolve("main").unwrap() + base;
    let mut port = FakePort::new(
        4245,
        vec![SIGTRAP_STOP],
        vec![base + 0x1040, main_addr + 1],
    );
    ok_match(r"Breakpoint 1 at 0x", ctx.add_breakpoint(main_addr, &mut port), "add");
    assert!(ctx.run(vec![], &mut port).is_ok());
    assert_eq!(ctx.main_binary.as_ref().unwrap().bias(), base);
    ok_match(r"Breakpoint 1, 0x", ctx.wait(&mut port), "ctx.wait()");
    assert_eq!(ctx.ip(), main_addr);
}

// The step-over protocol, watched from the target's side: resuming from a
// hit restores the original byte, steps, and re-arms the trap before the
// real continue.
#[test]
fn test_step_over_protocol() {
    let args = vec!["hello".to_string()];
    let mut ctx = Context::new(&args);
    let main_img = build_elf(0x400400, None, &[("main", 0x400500)], false);
    let main_bin = Binary::new("hello", &main_img).unwrap();
    assert!(ctx.set_main_binary(main_bin, None).is_ok());

    let mut port = FakePort::new(
        4246,
        vec![SIGTRAP_STOP, SIGTRAP_STOP],
        vec![0x400400, 0x400501],
    );
    let orig_word: u64 = 0xaabbccdd11223344;
    port.mem.insert(0x400500, orig_word);
    assert!(ctx.add_breakpoint(0x400500, &mut port).is_ok());
    assert!(ctx.run(vec![], &mut port).is_ok());
    // The trap byte sits in the word's low byte now.
    assert_eq!(port.mem[&0x400500], (orig_word & !0xff) | 0xcc);
    assert!(ctx.wait(&mut port).is_ok());
    assert_eq!(ctx.ip(), 0x400500);

    port.log.clear();
    assert!(ctx.cont(&mut port).is_ok());
    // Restore, step, absorb the stop, re-arm, resume — in that order.
    assert_eq!(
        port.log,
        vec![
            FakeOp::Peek(0x400500, orig_word),
            FakeOp::Poke(0x400500, orig_word),
            FakeOp::Step,
            FakeOp::Wait(SIGTRAP_STOP),
            FakeOp::Peek(0x400500, orig_word),
            FakeOp::Poke(0x400500, (orig_word & !0xff) | 0xcc),
            FakeOp::Cont,
        ]
    );
    // The trap is armed again for the next pass.
    assert_eq!(port.mem[&0x400500], (orig_word & !0xff) | 0xcc);
}

// The breakpoint lifecycle: breakpoints registered before any process
// exists become active exactly once per start and inactive exactly once
// per process end, across run/end cycles.
#[test]
fn test_breakpoint_lifecycle() {
    let args = vec!["hello".to_string()];
    let mut ctx = Context::new(&args);
    let main_img = build_elf(0x400400, None, &[("main", 0x400500)], false);
    let main_bin = Binary::new("hello", &main_img).unwrap();
    assert!(ctx.set_main_binary(main_bin, None).is_ok());

    let mut port = FakePort::new(4247, vec![0, 0], vec![0x400400, 0x400400]);
    assert!(ctx.add_breakpoint(0x400500, &mut port).is_ok());
    assert!(!ctx.breakpoints.breakpoints[0].is_active);

    for _ in 0..2 {
        assert!(ctx.run(vec![], &mut port).is_ok());
        assert!(ctx.breakpoints.breakpoints.iter().all(|b| b.is_active));
        ok_match(r"Process \d+ exited with code 0", ctx.wait(&mut port), "ctx.wait()");
        assert!(ctx.breakpoints.breakpoints.iter().all(|b| !b.is_active));
    }
}

// A refused spawn surfaces as a recognisable error and leaves the
// session untouched; the assembled argument vector puts the binary's
// path first and lets explicit arguments override the stored defaults.
#[test]
fn test_spawn() {
    let args = vec!["hello".to_string()];
    let mut ctx = Context::new(&args);
    let main_img = build_elf(0x400400, None, &[("main", 0x400500)], false);
    let main_bin = Binary::new("hello", &main_img).unwrap();
    assert!(ctx.set_main_binary(main_bin, None).is_ok());

    let mut port = FakePort::new(4251, vec![], vec![0x400400, 0x400400]);
    port.fail_spawn = true;
    assert_eq!(
        Err("Failed to start program: fork: resources exhausted".to_string()),
        ctx.start(vec![], &mut port)
    );
    assert!(!ctx.is_running());

    port.fail_spawn = false;
    assert!(ctx.start(vec![], &mut port).is_ok());
    // The default argument vector: the binary's path twice, as stored.
    assert_eq!(port.spawned_argv, vec!["hello".to_string(), "hello".to_string()]);

    // Explicit arguments override the stored defaults.
    let mut ctx2 = Context::new(&args);
    let main_img2 = build_elf(0x400400, None, &[("main", 0x400500)], false);
    let main_bin2 = Binary::new("hello", &main_img2).unwrap();
    assert!(ctx2.set_main_binary(main_bin2, None).is_ok());
    let mut port2 = FakePort::new(4252, vec![], vec![0x400400]);
    assert!(ctx2.start(vec!["hello".to_string(), "-v".to_string()], &mut port2).is_ok());
    assert_eq!(
        port2.spawned_argv,
        vec!["hello".to_string(), "hello".to_string(), "-v".to_string()]
    );
}

// Continuing with no process set is refused and disturbs nothing.
#[test]
fn test_cont_without_process() {
    let args: Vec<String> = vec![];
    let mut ctx = Context::new(&args);
    let mut port = FakePort::new(0, vec![], vec![]);
    assert!(ctx.add_breakpoint(0x1000, &mut port).is_ok());
    assert_eq!(
        Err("The program is not being run.".to_string()),
        ctx.cont(&mut port)
    );
    assert_eq!(ctx.breakpoints.breakpoints.len(), 1);
    assert_eq!(ctx.breakpoints.breakpoints[0].addr, 0x1000);
    assert!(!ctx.needs_wait());
}

// Under an interpreter the boot-entry interception sits at the main
// binary's bias-adjusted entry: with a stored non-zero bias the internal
// breakpoint lands at entry plus bias, and its trap is planted there.
#[test]
fn test_boot_entry_bias_adjusted() {
    let args = vec!["test/data/hello".to_string()];
    let mut ctx = Context::new(&args);
    let (main_bin, ld_bin) = hello_binaries();
    assert!(ctx.set_main_binary(main_bin, Some(ld_bin)).is_ok());
    ctx.main_binary.as_mut().unwrap().set_bias(0x200000);

    let mut port = FakePort::new(4253, vec![], vec![0x7f0000001000]);
    assert!(ctx.start(vec![], &mut port).is_ok());
    let bps = &ctx.breakpoints.breakpoints;
    assert_eq!(bps.len(), 1);
    assert_eq!(bps[0].id, -1);
    assert_eq!(bps[0].addr, 0x4004a0 + 0x200000);
    assert_eq!(port.mem[&(0x4004a0 + 0x200000)] & 0xff, 0xcc);
}

// A stop with no breakpoint at the rewound address is surfaced as a
// neutral result, never silently resumed.
#[test]
fn test_unexpected_stop() {
    let args = vec!["hello".to_string()];
    let mut ctx = Context::new(&args);
    let main_img = build_elf(0x400400, None, &[("main", 0x400500)], false);
    let main_bin = Binary::new("hello", &main_img).unwrap();
    assert!(ctx.set_main_binary(main_bin, None).is_ok());
    let mut port = FakePort::new(4249, vec![(11 << 8) | 0x7f], vec![0x400400, 0x7777]);
    assert!(ctx.run(vec![], &mut port).is_ok());
    assert_eq!(Ok(String::new()), ctx.wait(&mut port));
    assert!(ctx.is_running());
    assert!(!ctx.needs_wait());
}

// A wait status that fits none of the three patterns is surfaced as an
// error instead of ending the debugger.
#[test]
fn test_unknown_status() {
    let args = vec!["hello".to_string()];
    let mut ctx = Context::new(&args);
    let main_img = build_elf(0x400400, None, &[], false);
    let main_bin = Binary::new("hello", &main_img).unwrap();
    assert!(ctx.set_main_binary(main_bin, None).is_ok());
    let mut port = FakePort::new(4250, vec![0xff], vec![0x400400]);
    assert!(ctx.run(vec![], &mut port).is_ok());
    assert_eq!(Err("Unknown status: 255".to_string()), ctx.wait(&mut port));
    assert!(ctx.is_running());
}

// The dynamic-linker load-event interception: with no interpreter, the
// notification address is read one word past the `_r_debug` list head and
// gets an internal breakpoint.
#[test]
fn test_r_debug_interception() {
    let args = vec!["hello".to_string()];
    let mut ctx = Context::new(&args);
    let main_img = build_elf(
        0x400400,
        None,
        &[("_r_debug", 0x600000), ("main", 0x400500)],
        false,
    );
    let main_bin = Binary::new("hello", &main_img).unwrap();
    assert!(ctx.set_main_binary(main_bin, None).is_ok());

    let mut port = FakePort::new(4248, vec![], vec![0x400400]);
    port.mem.insert(0x600010, 0x7f000000abcd); // the notification point
    assert!(ctx.start(vec![], &mut port).is_ok());
    assert_eq!(ctx.r_map, 0x600008);
    let bps = &ctx.breakpoints.breakpoints;
    assert_eq!(bps.len(), 1);
    assert_eq!(bps[0].addr, 0x7f000000abcd);
    assert_eq!(bps[0].id, -1);
    assert!(bps[0].is_active);
    // The trap byte was planted at the notification point.
    assert_eq!(port.mem[&0x7f000000abcd] & 0xff, 0xcc);
}
