use vstd::prelude::*;

verus! {

/// Static description of one machine: word size, general-purpose register
/// count and order, the indices of the instruction, stack and base pointers
/// inside the register file, the trap opcode and its size, and endianness.
pub struct Target {
    /// Size in bytes of the raw register buffer the kernel exposes.
    pub user_size: usize,
    /// Size in bytes of one general-purpose register.
    pub gp_size: usize,
    /// Byte offset of the general-purpose registers inside the raw buffer.
    pub gp_off: isize,
    /// Names of the general-purpose registers, in buffer order.
    pub gp_names: Vec<String>,
    /// Index of the instruction pointer in `gp_names` order.
    pub ip_index: usize,
    /// Index of the stack pointer in `gp_names` order.
    pub sp_index: usize,
    /// Index of the base pointer in `gp_names` order.
    pub bp_index: usize,
    /// Whether the target is little-endian.
    pub le: bool,
    /// The opcode of the software-breakpoint trap instruction.
    pub breakpoint_op: u8,
    /// Size in bytes of the trap instruction.
    pub breakpoint_size: usize,
}

impl Target {
    /// A usable descriptor: 8-byte little-endian words, a one-byte trap,
    /// and register indices that fall inside the register file.
    pub open spec fn wf(self) -> bool {
        &&& self.gp_size == 8
        &&& self.ip_index < self.gp_names@.len()
        &&& self.sp_index < self.gp_names@.len()
        &&& self.bp_index < self.gp_names@.len()
        &&& self.le
        &&& self.breakpoint_size == 1
    }
}

/// The one concrete descriptor this crate ships: x86-64, 27 general-purpose
/// registers in kernel buffer order, `int3` (0xcc) as the trap opcode.
pub fn get_target() -> (t: Target)
    ensures
        t.wf(),
        t.user_size == 912,
        t.gp_size == 8,
        t.gp_off == 0isize,
        t.gp_names@.len() == 27,
        t.ip_index == 16,
        t.sp_index == 19,
        t.bp_index == 4,
        t.le,
        t.breakpoint_op == 0xcc,
        t.breakpoint_size == 1,
{
    let gp_names: Vec<String> = vec![
        "r15".to_owned(),
        "r14".to_owned(),
        "r13".to_owned(),
        "r12".to_owned(),
        "rbp".to_owned(),
        "rbx".to_owned(),
        "r11".to_owned(),
        "r10".to_owned(),
        "r9".to_owned(),
        "r8".to_owned(),
        "rax".to_owned(),
        "rcx".to_owned(),
        "rdx".to_owned(),
        "rsi".to_owned(),
        "rdi".to_owned(),
        "orig_rax".to_owned(),
        "rip".to_owned(),
        "cs".to_owned(),
        "eflags".to_owned(),
        "rsp".to_owned(),
        "ss".to_owned(),
        "fs_base".to_owned(),
        "gs_base".to_owned(),
        "ds".to_owned(),
        "es".to_owned(),
        "fs".to_owned(),
        "gs".to_owned(),
    ];
    Target {
        user_size: 912,
        gp_size: 8,
        gp_off: 0,
        gp_names,
        ip_index: 16,
        sp_index: 19,
        bp_index: 4,
        le: true,
        breakpoint_op: 0xcc,
        breakpoint_size: 1,
    }
}

} // verus!
