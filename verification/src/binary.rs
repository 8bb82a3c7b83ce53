use vstd::prelude::*;
use vstd::string::StringExecFns;
use vstd::arithmetic::div_mod::lemma_fundamental_div_mod;
use crate::text;

verus! {

// ------------------------------------------------------------------
// Little-endian readers
// ------------------------------------------------------------------

/// The value of the two bytes at `off`, little-endian.
pub open spec fn le16(s: Seq<u8>, off: int) -> int {
    s[off] + 0x100 * s[off + 1]
}

/// The value of the four bytes at `off`, little-endian.
pub open spec fn le32(s: Seq<u8>, off: int) -> int {
    s[off] + 0x100 * s[off + 1] + 0x10000 * s[off + 2] + 0x1000000 * s[off + 3]
}

/// The value of the eight bytes at `off`, little-endian.
pub open spec fn le64(s: Seq<u8>, off: int) -> int {
    s[off] + 0x100 * s[off + 1] + 0x10000 * s[off + 2] + 0x1000000 * s[off + 3] + 0x100000000 * s[
        off + 4
    ] + 0x10000000000 * s[off + 5] + 0x1000000000000 * s[off + 6] + 0x100000000000000 * s[off + 7]
}

fn read_u16(b: &[u8], off: usize) -> (r: u64)
    requires
        off + 2 <= b@.len(),
    ensures
        r == le16(b@, off as int),
{
    b[off] as u64 + 0x100u64 * (b[off + 1] as u64)
}

fn read_u32(b: &[u8], off: usize) -> (r: u64)
    requires
        off + 4 <= b@.len(),
    ensures
        r == le32(b@, off as int),
{
    b[off] as u64 + 0x100u64 * (b[off + 1] as u64) + 0x10000u64 * (b[off + 2] as u64)
        + 0x1000000u64 * (b[off + 3] as u64)
}

fn read_u64(b: &[u8], off: usize) -> (r: u64)
    requires
        off + 8 <= b@.len(),
    ensures
        r == le64(b@, off as int),
{
    b[off] as u64 + 0x100u64 * (b[off + 1] as u64) + 0x10000u64 * (b[off + 2] as u64)
        + 0x1000000u64 * (b[off + 3] as u64) + 0x100000000u64 * (b[off + 4] as u64)
        + 0x10000000000u64 * (b[off + 5] as u64) + 0x1000000000000u64 * (b[off + 6] as u64)
        + 0x100000000000000u64 * (b[off + 7] as u64)
}

// ------------------------------------------------------------------
// The shape of a 64-bit little-endian ELF image
// ------------------------------------------------------------------

/// The image opens with a well-formed 64-bit little-endian ELF header.
pub open spec fn wf_header(img: Seq<u8>) -> bool {
    &&& img.len() >= 0x40
    &&& img[0] == 0x7f
    &&& img[1] == 0x45
    &&& img[2] == 0x4c
    &&& img[3] == 0x46
    &&& img[4] == 2
    &&& img[5] == 1
}

pub open spec fn entry_of(img: Seq<u8>) -> int {
    le64(img, 0x18)
}

pub open spec fn phoff_of(img: Seq<u8>) -> int {
    le64(img, 0x20)
}

pub open spec fn phnum_of(img: Seq<u8>) -> int {
    le16(img, 0x38)
}

pub open spec fn shoff_of(img: Seq<u8>) -> int {
    le64(img, 0x28)
}

pub open spec fn shnum_of(img: Seq<u8>) -> int {
    le16(img, 0x3c)
}

/// The program-header table lies inside the image.
pub open spec fn ph_table_ok(img: Seq<u8>) -> bool {
    phoff_of(img) + phnum_of(img) * 56 <= img.len()
}

/// The section-header table lies inside the image.
pub open spec fn sh_table_ok(img: Seq<u8>) -> bool {
    shoff_of(img) + shnum_of(img) * 64 <= img.len()
}

pub open spec fn ph_type(img: Seq<u8>, i: int) -> int {
    le32(img, phoff_of(img) + i * 56)
}

pub open spec fn ph_offset(img: Seq<u8>, i: int) -> int {
    le64(img, phoff_of(img) + i * 56 + 0x8)
}

pub open spec fn ph_filesz(img: Seq<u8>, i: int) -> int {
    le64(img, phoff_of(img) + i * 56 + 0x20)
}

pub open spec fn sh_type(img: Seq<u8>, i: int) -> int {
    le32(img, shoff_of(img) + i * 64 + 0x4)
}

pub open spec fn sh_offset(img: Seq<u8>, i: int) -> int {
    le64(img, shoff_of(img) + i * 64 + 0x18)
}

pub open spec fn sh_size(img: Seq<u8>, i: int) -> int {
    le64(img, shoff_of(img) + i * 64 + 0x20)
}

pub open spec fn sh_link(img: Seq<u8>, i: int) -> int {
    le32(img, shoff_of(img) + i * 64 + 0x28)
}

/// The data of section `i` lies inside the image.
pub open spec fn sec_data_ok(img: Seq<u8>, i: int) -> bool {
    sh_offset(img, i) + sh_size(img, i) <= img.len()
}

/// `i` is the first program header of type `ty`.
pub open spec fn is_first_ph_of_type(img: Seq<u8>, ty: int, i: int) -> bool {
    &&& 0 <= i < phnum_of(img)
    &&& ph_type(img, i) == ty
    &&& forall|j: int| 0 <= j < i ==> ph_type(img, j) != ty
}

/// `i` is the first section of type `ty`.
pub open spec fn is_first_sec_of_type(img: Seq<u8>, ty: int, i: int) -> bool {
    &&& 0 <= i < shnum_of(img)
    &&& sh_type(img, i) == ty
    &&& forall|j: int| 0 <= j < i ==> sh_type(img, j) != ty
}

pub open spec fn first_ph_of_type(img: Seq<u8>, ty: int) -> Option<int> {
    if exists|i: int| is_first_ph_of_type(img, ty, i) {
        Some(choose|i: int| is_first_ph_of_type(img, ty, i))
    } else {
        None
    }
}

pub open spec fn first_sec_of_type(img: Seq<u8>, ty: int) -> Option<int> {
    if exists|i: int| is_first_sec_of_type(img, ty, i) {
        Some(choose|i: int| is_first_sec_of_type(img, ty, i))
    } else {
        None
    }
}

/// The symbol table driving the catalog: the static one when it has
/// entries, else the dynamic one — so stripped executables still resolve.
pub open spec fn chosen_tab(img: Seq<u8>) -> Option<int> {
    match first_sec_of_type(img, 2) {
        Some(i) => if sh_size(img, i) / 24 > 0 {
            Some(i)
        } else {
            first_sec_of_type(img, 11)
        },
        None => first_sec_of_type(img, 11),
    }
}

/// The bytes of `bs` as characters, one character per byte.
pub open spec fn byte_chars(bs: Seq<u8>) -> Seq<char> {
    Seq::new(bs.len(), |i: int| bs[i] as char)
}

/// `k` is the position of the first zero byte at or after `off`.
pub open spec fn is_first_nul_at(s: Seq<u8>, off: int, k: int) -> bool {
    &&& off <= k < s.len()
    &&& s[k] == 0
    &&& forall|j: int| off <= j < k ==> s[j] != 0
}

/// The characters from `off` up to the first zero byte, if one follows.
pub open spec fn name_at(s: Seq<u8>, off: int) -> Option<Seq<char>> {
    if exists|k: int| is_first_nul_at(s, off, k) {
        let k = choose|k: int| is_first_nul_at(s, off, k);
        Some(byte_chars(s.subrange(off, k)))
    } else {
        None
    }
}

/// One catalogued symbol: a name and the raw value the image stores.
pub struct SymbolV {
    pub name: Seq<char>,
    pub value: u64,
}

pub open spec fn sym_name_off(img: Seq<u8>, t: int, i: int) -> int {
    le32(img, sh_offset(img, t) + i * 24)
}

pub open spec fn sym_value(img: Seq<u8>, t: int, i: int) -> int {
    le64(img, sh_offset(img, t) + i * 24 + 8)
}

/// The string table of symbol table `t`: the section its link names.
pub open spec fn strtab_of(img: Seq<u8>, t: int) -> Seq<u8> {
    img.subrange(
        sh_offset(img, sh_link(img, t)),
        sh_offset(img, sh_link(img, t)) + sh_size(img, sh_link(img, t)),
    )
}

/// Whether symbol `i` of table `t` enters the catalog: its name offset is
/// in the string table, terminated there, and names something non-empty.
pub open spec fn sym_included(img: Seq<u8>, t: int, i: int) -> bool {
    &&& sym_name_off(img, t, i) != 0
    &&& sym_name_off(img, t, i) < strtab_of(img, t).len()
    &&& match name_at(strtab_of(img, t), sym_name_off(img, t, i)) {
        Some(nm) => nm.len() > 0,
        None => false,
    }
}

pub open spec fn sym_at(img: Seq<u8>, t: int, i: int) -> SymbolV {
    SymbolV {
        name: name_at(strtab_of(img, t), sym_name_off(img, t, i)).unwrap(),
        value: sym_value(img, t, i) as u64,
    }
}

/// The catalog drawn from the first `n` entries of table `t`, in order.
pub open spec fn syms_upto(img: Seq<u8>, t: int, n: int) -> Seq<SymbolV>
    decreases n,
{
    if n <= 0 {
        Seq::empty()
    } else {
        syms_upto(img, t, n - 1) + if sym_included(img, t, n - 1) {
            seq![sym_at(img, t, n - 1)]
        } else {
            Seq::empty()
        }
    }
}

/// The whole catalog of the image.
pub open spec fn syms_of(img: Seq<u8>) -> Seq<SymbolV> {
    match chosen_tab(img) {
        Some(t) => syms_upto(img, t, sh_size(img, t) / 24),
        None => Seq::empty(),
    }
}

proof fn lemma_syms_upto_sound(img: Seq<u8>, t: int, n: int)
    ensures
        forall|j: int|
            0 <= j < syms_upto(img, t, n).len() ==> (#[trigger] syms_upto(img, t, n)[j]).name.len()
                > 0,
        forall|i: int|
            0 <= i < n && sym_included(img, t, i) ==> syms_upto(img, t, n).contains(
                sym_at(img, t, i),
            ),
    decreases n,
{
    if n > 0 {
        lemma_syms_upto_sound(img, t, n - 1);
        let prev = syms_upto(img, t, n - 1);
        let cur = syms_upto(img, t, n);
        assert forall|i: int| 0 <= i < n && sym_included(img, t, i) implies cur.contains(
            sym_at(img, t, i),
        ) by {
            if i < n - 1 {
                let k = choose|k: int| 0 <= k < prev.len() && prev[k] == sym_at(img, t, i);
                assert(cur[k] == sym_at(img, t, i));
            } else {
                assert(cur[cur.len() - 1] == sym_at(img, t, i));
            }
        }
    }
}

/// Whatever enters the catalog carries a non-empty name, and every table
/// entry whose name offset is valid — resolvable to a terminated,
/// non-empty string — does enter it: corrupt entries are skipped one by
/// one, never the whole table.
pub proof fn lemma_catalog_sound(img: Seq<u8>)
    ensures
        forall|j: int|
            0 <= j < syms_of(img).len() ==> (#[trigger] syms_of(img)[j]).name.len() > 0,
        forall|i: int|
            (chosen_tab(img) is Some && 0 <= i < sh_size(img, chosen_tab(img).unwrap()) / 24
                && sym_included(img, chosen_tab(img).unwrap(), i)) ==> syms_of(img).contains(
                #[trigger] sym_at(img, chosen_tab(img).unwrap(), i),
            ),
{
    match chosen_tab(img) {
        Some(t) => {
            lemma_syms_upto_sound(img, t, sh_size(img, t) / 24);
        },
        None => {},
    }
}

/// The interpreter path the image requests, if any: the contents of the
/// first interpreter segment, up to its terminating zero byte.
pub open spec fn interp_of(img: Seq<u8>) -> Option<Seq<char>> {
    match first_ph_of_type(img, 3) {
        Some(i) => {
            let seg = img.subrange(ph_offset(img, i), ph_offset(img, i) + ph_filesz(img, i));
            match name_at(seg, 0) {
                Some(nm) => Some(nm),
                None => Some(byte_chars(seg)),
            }
        },
        None => None,
    }
}

/// Everything image parsing checks: a well-formed header, both header
/// tables inside the image, any interpreter segment inside the image, and
/// the chosen symbol table with its string table inside the image.
pub open spec fn wf_elf64(img: Seq<u8>) -> bool {
    &&& wf_header(img)
    &&& ph_table_ok(img)
    &&& sh_table_ok(img)
    &&& match first_ph_of_type(img, 3) {
        Some(i) => ph_offset(img, i) + ph_filesz(img, i) <= img.len(),
        None => true,
    }
    &&& match chosen_tab(img) {
        Some(t) => sec_data_ok(img, t) && sh_link(img, t) < shnum_of(img) && sec_data_ok(
            img,
            sh_link(img, t),
        ),
        None => true,
    }
}

// ------------------------------------------------------------------
// Resolving the choose-based specifications
// ------------------------------------------------------------------

proof fn lemma_first_ph_some(img: Seq<u8>, ty: int, i: int)
    requires
        is_first_ph_of_type(img, ty, i),
    ensures
        first_ph_of_type(img, ty) == Some(i),
{
    let k = choose|k: int| is_first_ph_of_type(img, ty, k);
    if k < i {
        assert(ph_type(img, k) != ty);
    } else if k > i {
        assert(ph_type(img, i) != ty);
    }
}

proof fn lemma_first_ph_none(img: Seq<u8>, ty: int)
    requires
        forall|j: int| 0 <= j < phnum_of(img) ==> ph_type(img, j) != ty,
    ensures
        first_ph_of_type(img, ty) is None,
{
    if exists|k: int| is_first_ph_of_type(img, ty, k) {
        let k = choose|k: int| is_first_ph_of_type(img, ty, k);
        assert(ph_type(img, k) != ty);
    }
}

proof fn lemma_first_sec_some(img: Seq<u8>, ty: int, i: int)
    requires
        is_first_sec_of_type(img, ty, i),
    ensures
        first_sec_of_type(img, ty) == Some(i),
{
    let k = choose|k: int| is_first_sec_of_type(img, ty, k);
    if k < i {
        assert(sh_type(img, k) != ty);
    } else if k > i {
        assert(sh_type(img, i) != ty);
    }
}

proof fn lemma_first_sec_none(img: Seq<u8>, ty: int)
    requires
        forall|j: int| 0 <= j < shnum_of(img) ==> sh_type(img, j) != ty,
    ensures
        first_sec_of_type(img, ty) is None,
{
    if exists|k: int| is_first_sec_of_type(img, ty, k) {
        let k = choose|k: int| is_first_sec_of_type(img, ty, k);
        assert(sh_type(img, k) != ty);
    }
}

proof fn lemma_name_at_some(s: Seq<u8>, off: int, k: int)
    requires
        is_first_nul_at(s, off, k),
    ensures
        name_at(s, off) == Some(byte_chars(s.subrange(off, k))),
{
    let k2 = choose|k2: int| is_first_nul_at(s, off, k2);
    if k2 < k {
        assert(s[k2] != 0);
    } else if k2 > k {
        assert(s[k] != 0);
    }
}

proof fn lemma_name_at_none(s: Seq<u8>, off: int)
    requires
        forall|j: int| off <= j < s.len() ==> s[j] != 0,
    ensures
        name_at(s, off) is None,
{
    if exists|k: int| is_first_nul_at(s, off, k) {
        let k = choose|k: int| is_first_nul_at(s, off, k);
        assert(s[k] != 0);
    }
}

// ------------------------------------------------------------------
// Executable helpers
// ------------------------------------------------------------------

/// Position of the first zero byte of `b` at or after `from`, if any.
fn find_nul(b: &[u8], from: usize) -> (r: Option<usize>)
    requires
        from <= b@.len(),
    ensures
        match r {
            Some(k) => is_first_nul_at(b@, from as int, k as int),
            None => forall|j: int| from <= j < b@.len() ==> b@[j] != 0,
        },
{
    let n = b.len();
    let mut k = from;
    while k < n
        invariant
            from <= k <= n,
            n == b@.len(),
            forall|j: int| from <= j < k ==> b@[j] != 0,
        decreases n - k,
    {
        if *vstd::slice::slice_index_get(b, k) == 0 {
            return Some(k);
        }
        k += 1;
    }
    None
}

/// The bytes of `b` between `from` and `to` as a string, one character per
/// byte.
#[verifier::loop_isolation(false)]
fn bytes_string(b: &[u8], from: usize, to: usize) -> (s: String)
    requires
        from <= to <= b@.len(),
    ensures
        s@ == byte_chars(b@.subrange(from as int, to as int)),
{
    let mut s = String::new();
    let mut k = from;
    while k < to
        invariant
            from <= k <= to,
            s@ == byte_chars(b@.subrange(from as int, k as int)),
        decreases to - k,
    {
        let c = text::char_of_byte(*vstd::slice::slice_index_get(b, k));
        text::push_char(&mut s, c);
        proof {
            assert(s@ =~= byte_chars(b@.subrange(from as int, k + 1)));
        }
        k += 1;
    }
    proof {
        assert(s@ =~= byte_chars(b@.subrange(from as int, to as int)));
    }
    s
}

/// The string that byte offset `off` names inside the string table `b`:
/// the bytes up to the first terminating zero, or nothing when no zero
/// follows.
fn read_name(b: &[u8], off: usize) -> (r: Option<String>)
    requires
        off <= b@.len(),
    ensures
        match r {
            Some(s) => name_at(b@, off as int) == Some(s@),
            None => name_at(b@, off as int) is None,
        },
{
    match find_nul(b, off) {
        Some(k) => {
            proof {
                lemma_name_at_some(b@, off as int, k as int);
            }
            Some(bytes_string(b, off, k))
        },
        None => {
            proof {
                lemma_name_at_none(b@, off as int);
            }
            None
        },
    }
}


/// Reads the type field of section header `i`.
fn sec_type(image: &[u8], shoff: u64, shnum: u64, i: u64) -> (r: u64)
    requires
        shoff == shoff_of(image@),
        shnum == shnum_of(image@),
        sh_table_ok(image@),
        i < shnum,
    ensures
        r == sh_type(image@, i as int),
{
    let n = image.len();
    proof {
        assert(i * 64 + 64 <= shnum * 64) by (nonlinear_arith)
            requires
                i < shnum,
        ;
    }
    read_u32(image, (shoff + i * 64 + 0x4) as usize)
}

/// Reads the file offset field of section header `i`.
fn sec_offset(image: &[u8], shoff: u64, shnum: u64, i: u64) -> (r: u64)
    requires
        shoff == shoff_of(image@),
        shnum == shnum_of(image@),
        sh_table_ok(image@),
        i < shnum,
    ensures
        r == sh_offset(image@, i as int),
{
    let n = image.len();
    proof {
        assert(i * 64 + 64 <= shnum * 64) by (nonlinear_arith)
            requires
                i < shnum,
        ;
    }
    read_u64(image, (shoff + i * 64 + 0x18) as usize)
}

/// Reads the size field of section header `i`.
fn sec_size(image: &[u8], shoff: u64, shnum: u64, i: u64) -> (r: u64)
    requires
        shoff == shoff_of(image@),
        shnum == shnum_of(image@),
        sh_table_ok(image@),
        i < shnum,
    ensures
        r == sh_size(image@, i as int),
{
    let n = image.len();
    proof {
        assert(i * 64 + 64 <= shnum * 64) by (nonlinear_arith)
            requires
                i < shnum,
        ;
    }
    read_u64(image, (shoff + i * 64 + 0x20) as usize)
}

/// Reads the link field of section header `i`.
fn sec_link(image: &[u8], shoff: u64, shnum: u64, i: u64) -> (r: u64)
    requires
        shoff == shoff_of(image@),
        shnum == shnum_of(image@),
        sh_table_ok(image@),
        i < shnum,
    ensures
        r == sh_link(image@, i as int),
{
    let n = image.len();
    proof {
        assert(i * 64 + 64 <= shnum * 64) by (nonlinear_arith)
            requires
                i < shnum,
        ;
    }
    read_u32(image, (shoff + i * 64 + 0x28) as usize)
}

/// Reads one field of program header `i`, at byte `field` of the entry.
fn ph_u64(image: &[u8], phoff: u64, phnum: u64, i: u64, field: u64) -> (r: u64)
    requires
        phoff == phoff_of(image@),
        phnum == phnum_of(image@),
        ph_table_ok(image@),
        i < phnum,
        field + 8 <= 56,
    ensures
        r == le64(image@, phoff_of(image@) + i * 56 + field),
{
    let n = image.len();
    proof {
        assert(i * 56 + 56 <= phnum * 56) by (nonlinear_arith)
            requires
                i < phnum,
        ;
    }
    read_u64(image, (phoff + i * 56 + field) as usize)
}

/// Reads the type field of program header `i`.
fn ph_type_read(image: &[u8], phoff: u64, phnum: u64, i: u64) -> (r: u64)
    requires
        phoff == phoff_of(image@),
        phnum == phnum_of(image@),
        ph_table_ok(image@),
        i < phnum,
    ensures
        r == ph_type(image@, i as int),
{
    let n = image.len();
    proof {
        assert(i * 56 + 56 <= phnum * 56) by (nonlinear_arith)
            requires
                i < phnum,
        ;
    }
    read_u32(image, (phoff + i * 56) as usize)
}

// ------------------------------------------------------------------
// The catalog itself
// ------------------------------------------------------------------

/// One symbol of the catalog.
pub struct Symbol {
    pub name: String,
    pub value: u64,
}

impl View for Symbol {
    type V = SymbolV;

    open spec fn view(&self) -> SymbolV {
        SymbolV { name: self.name@, value: self.value }
    }
}

impl DeepView for Symbol {
    type V = SymbolV;

    open spec fn deep_view(&self) -> SymbolV {
        self.view()
    }
}

/// One loaded executable image: its name, the parsed symbol catalog, the
/// file-relative entry address, the interpreter it requests, and the load
/// bias a live process later reveals.
pub struct Binary {
    pub filename: String,
    pub syms: Vec<Symbol>,
    pub entry: u64,
    pub interp: Option<String>,
    pub bias: u64,
}

impl Binary {
    /// The image `image` parsed as a 64-bit little-endian ELF executable.
    /// Succeeds exactly on well-formed images and yields the catalog, the
    /// entry address and the interpreter request, with a zero bias.
    pub fn new(filename: &str, image: &[u8]) -> (r: Result<Binary, String>)
        ensures
            match r {
                Ok(b) => {
                    &&& wf_elf64(image@)
                    &&& b.filename@ == filename@
                    &&& b.entry == entry_of(image@)
                    &&& b.bias == 0
                    &&& b.syms.deep_view() == syms_of(image@)
                    &&& match b.interp {
                        Some(s) => interp_of(image@) == Some(s@),
                        None => interp_of(image@) is None,
                    }
                },
                Err(m) => !wf_elf64(image@) && m@ == "Parse failed: "@ + filename@,
            },
    {
        match Self::parse(filename, image) {
            Some(b) => Ok(b),
            None => {
                let mut m = String::from_str("Parse failed: ");
                m.append(filename);
                Err(m)
            },
        }
    }

    /// The parse proper; nothing on a malformed image.
    #[verifier::rlimit(100)]
    #[verifier::loop_isolation(false)]
    fn parse(filename: &str, image: &[u8]) -> (r: Option<Binary>)
        ensures
            match r {
                Some(b) => {
                    &&& wf_elf64(image@)
                    &&& b.filename@ == filename@
                    &&& b.entry == entry_of(image@)
                    &&& b.bias == 0
                    &&& b.syms.deep_view() == syms_of(image@)
                    &&& match b.interp {
                        Some(s) => interp_of(image@) == Some(s@),
                        None => interp_of(image@) is None,
                    }
                },
                None => !wf_elf64(image@),
            },
    {
        let ghost img = image@;
        let n = image.len();
        if n < 0x40 {
            return None;
        }
        let ok = *vstd::slice::slice_index_get(image, 0) == 0x7f && *vstd::slice::slice_index_get(
            image,
            1,
        ) == 0x45 && *vstd::slice::slice_index_get(image, 2) == 0x4c
            && *vstd::slice::slice_index_get(image, 3) == 0x46 && *vstd::slice::slice_index_get(
            image,
            4,
        ) == 2 && *vstd::slice::slice_index_get(image, 5) == 1;
        if !ok {
            return None;
        }
        let entry = read_u64(image, 0x18);
        let phoff = read_u64(image, 0x20);
        let phnum = read_u16(image, 0x38);
        let shoff = read_u64(image, 0x28);
        let shnum = read_u16(image, 0x3c);
        if phoff > n as u64 || phnum * 56 > n as u64 - phoff {
            return None;
        }
        if shoff > n as u64 || shnum * 64 > n as u64 - shoff {
            return None;
        }
        // The interpreter request: the first interpreter segment, if any.
        let mut pi: u64 = 0;
        let mut pfound = false;
        while pi < phnum && !pfound
            invariant
                0 <= pi <= phnum,
                !pfound ==> forall|j: int| 0 <= j < pi ==> ph_type(img, j) != 3,
                pfound ==> is_first_ph_of_type(img, 3, pi as int),
            decreases phnum - pi + if pfound {
                0int
            } else {
                1int
            },
        {
            if ph_type_read(image, phoff, phnum, pi) == 3 {
                pfound = true;
            } else {
                pi += 1;
            }
        }
        let interp: Option<String>;
        if pfound {
            proof {
                lemma_first_ph_some(img, 3, pi as int);
            }
            let poff = ph_u64(image, phoff, phnum, pi, 0x8);
            let psz = ph_u64(image, phoff, phnum, pi, 0x20);
            if poff > n as u64 || psz > n as u64 - poff {
                return None;
            }
            let seg: &[u8] = &image[poff as usize..(poff + psz) as usize];
            let nm = match read_name(seg, 0) {
                Some(s) => s,
                None => bytes_string(seg, 0, seg.len()),
            };
            interp = Some(nm);
        } else {
            proof {
                lemma_first_ph_none(img, 3);
            }
            interp = None;
        }
        // The symbol table: the static one when it has entries, else the
        // dynamic one.
        let (sfound, si) = Self::find_section(image, 2, shoff, shnum);
        let (dfound, di) = Self::find_section(image, 11, shoff, shnum);
        let tfound: bool;
        let ti: u64;
        if sfound && sec_size(image, shoff, shnum, si) / 24 > 0 {
            tfound = true;
            ti = si;
        } else {
            tfound = dfound;
            ti = di;
        }
        proof {
            assert(chosen_tab(img) == if tfound {
                Some(ti as int)
            } else {
                None::<int>
            });
        }
        let mut syms: Vec<Symbol> = Vec::new();
        if tfound {
            let tab_off = sec_offset(image, shoff, shnum, ti);
            let tab_size = sec_size(image, shoff, shnum, ti);
            let link = sec_link(image, shoff, shnum, ti);
            if tab_off > n as u64 || tab_size > n as u64 - tab_off {
                return None;
            }
            if link >= shnum {
                return None;
            }
            let str_off = sec_offset(image, shoff, shnum, link);
            let str_size = sec_size(image, shoff, shnum, link);
            if str_off > n as u64 || str_size > n as u64 - str_off {
                return None;
            }
            let strtab: &[u8] = &image[str_off as usize..(str_off + str_size) as usize];
            proof {
                assert(strtab@ == strtab_of(img, ti as int));
            }
            let count = tab_size / 24;
            let mut i: u64 = 0;
            while i < count
                invariant
                    0 <= i <= count,
                    syms.deep_view() == syms_upto(img, ti as int, i as int),
                decreases count - i,
            {
                proof {
                    lemma_fundamental_div_mod(tab_size as int, 24);
                    assert(i * 24 + 24 <= count * 24) by (nonlinear_arith)
                        requires
                            i < count,
                    ;
                }
                let base = (tab_off + i * 24) as usize;
                let st_name = read_u32(image, base);
                let st_value = read_u64(image, base + 8);
                let ghost prev = syms.deep_view();
                if st_name != 0 && st_name < str_size {
                    match read_name(strtab, st_name as usize) {
                        Some(nm) => {
                            if nm.unicode_len() > 0 {
                                syms.push(Symbol { name: nm, value: st_value });
                                proof {
                                    assert(syms.deep_view() =~= prev.push(
                                        sym_at(img, ti as int, i as int),
                                    ));
                                }
                            }
                        },
                        None => {},
                    }
                }
                proof {
                    assert(syms.deep_view() =~= syms_upto(img, ti as int, i + 1));
                }
                i += 1;
            }
        }
        Some(
            Binary {
                filename: filename.to_owned(),
                syms,
                entry,
                interp,
                bias: 0,
            },
        )
    }

    /// Index of the first section of type `ty`, with a flag saying whether
    /// one exists.
    #[verifier::loop_isolation(false)]
    fn find_section(image: &[u8], ty: u64, shoff: u64, shnum: u64) -> (r: (bool, u64))
        requires
            shoff == shoff_of(image@),
            shnum == shnum_of(image@),
            sh_table_ok(image@),
        ensures
            r.0 ==> first_sec_of_type(image@, ty as int) == Some(r.1 as int) && r.1 < shnum,
            !r.0 ==> first_sec_of_type(image@, ty as int) is None,
    {
        let ghost img = image@;
        let mut i: u64 = 0;
        while i < shnum
            invariant
                0 <= i <= shnum,
                shoff == shoff_of(img),
                shnum == shnum_of(img),
                sh_table_ok(img),
                forall|j: int| 0 <= j < i ==> sh_type(img, j) != ty,
            decreases shnum - i,
        {
            if sec_type(image, shoff, shnum, i) == ty {
                proof {
                    lemma_first_sec_some(img, ty as int, i as int);
                }
                return (true, i);
            }
            i += 1;
        }
        proof {
            lemma_first_sec_none(img, ty as int);
        }
        (false, 0)
    }

    pub fn filename(&self) -> (r: &String)
        ensures
            r@ == self.filename@,
    {
        &self.filename
    }

    pub fn syms(&self) -> (r: &Vec<Symbol>)
        ensures
            r.deep_view() == self.syms.deep_view(),
    {
        &self.syms
    }

    pub fn interp(&self) -> (r: Option<&String>)
        ensures
            match r {
                Some(s) => self.interp == Some(*s),
                None => self.interp is None,
            },
    {
        self.interp.as_ref()
    }

    pub fn entry(&self) -> (r: u64)
        ensures
            r == self.entry,
    {
        self.entry
    }

    pub fn bias(&self) -> (r: u64)
        ensures
            r == self.bias,
    {
        self.bias
    }

    /// Records the load bias a live process revealed; everything parsed
    /// from the image stays as it was.
    pub fn set_bias(&mut self, bias: u64)
        ensures
            final(self).bias == bias,
            final(self).filename == old(self).filename,
            final(self).syms == old(self).syms,
            final(self).entry == old(self).entry,
            final(self).interp == old(self).interp,
    {
        self.bias = bias;
    }
}

} // verus!
