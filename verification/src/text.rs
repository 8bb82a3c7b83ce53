use vstd::prelude::*;
use vstd::string::StrSliceExecFns;

verus! {

/// Whitespace as the command reader strips it.
pub open spec fn is_space(c: char) -> bool {
    c == ' ' || c == '\t' || c == '\n' || c == '\r'
}

/// `s` without leading whitespace.
pub open spec fn trim_front_seq(s: Seq<char>) -> Seq<char>
    decreases s.len(),
{
    if s.len() > 0 && is_space(s[0]) {
        trim_front_seq(s.drop_first())
    } else {
        s
    }
}

/// `s` without trailing whitespace.
pub open spec fn trim_back_seq(s: Seq<char>) -> Seq<char>
    decreases s.len(),
{
    if s.len() > 0 && is_space(s[s.len() - 1]) {
        trim_back_seq(s.drop_last())
    } else {
        s
    }
}

/// `s` without leading and trailing whitespace.
pub open spec fn trim_seq(s: Seq<char>) -> Seq<char> {
    trim_back_seq(trim_front_seq(s))
}

/// Whether `p` is a prefix of `s`.
pub open spec fn has_prefix(s: Seq<char>, p: Seq<char>) -> bool {
    p.len() <= s.len() && s.take(p.len() as int) == p
}

pub fn ch_is_space(c: char) -> (b: bool)
    ensures
        b == is_space(c),
{
    c == ' ' || c == '\t' || c == '\n' || c == '\r'
}

/// The borrowed middle of `s` with surrounding whitespace stripped.
pub fn trim_str<'a>(s: &'a str) -> (t: &'a str)
    ensures
        t@ == trim_seq(s@),
{
    let n = s.unicode_len();
    let mut i: usize = 0;
    proof {
        assert(s@.skip(0) =~= s@);
    }
    while i < n && ch_is_space(s.get_char(i))
        invariant
            i <= n,
            n == s@.len(),
            trim_front_seq(s@) == trim_front_seq(s@.skip(i as int)),
        decreases n - i,
    {
        proof {
            assert(s@.skip(i as int).drop_first() =~= s@.skip(i + 1));
        }
        i += 1;
    }
    proof {
        assert(trim_front_seq(s@.skip(i as int)) == s@.skip(i as int));
    }
    let mut j: usize = n;
    while j > i && ch_is_space(s.get_char(j - 1))
        invariant
            i <= j <= n,
            n == s@.len(),
            trim_front_seq(s@) == s@.skip(i as int),
            trim_back_seq(s@.subrange(i as int, n as int)) == trim_back_seq(
                s@.subrange(i as int, j as int),
            ),
        decreases j,
    {
        proof {
            assert(s@.subrange(i as int, j as int).drop_last() =~= s@.subrange(
                i as int,
                j - 1,
            ));
        }
        j -= 1;
    }
    proof {
        assert(trim_back_seq(s@.subrange(i as int, j as int)) == s@.subrange(i as int, j as int));
        assert(s@.skip(i as int) =~= s@.subrange(i as int, n as int));
    }
    s.substring_char(i, j)
}

/// Whether two strings hold the same characters.
pub fn str_eq(a: &str, b: &str) -> (r: bool)
    ensures
        r == (a@ == b@),
{
    let an = a.unicode_len();
    let bn = b.unicode_len();
    if an != bn {
        return false;
    }
    let mut i: usize = 0;
    while i < an
        invariant
            i <= an,
            an == a@.len(),
            an == b@.len(),
            forall|k: int| 0 <= k < i ==> a@[k] == b@[k],
        decreases an - i,
    {
        if a.get_char(i) != b.get_char(i) {
            return false;
        }
        i += 1;
    }
    proof {
        assert(a@ =~= b@);
    }
    true
}

/// Length of the run of non-whitespace characters opening `s`.
pub open spec fn word_len(s: Seq<char>) -> int
    decreases s.len(),
{
    if s.len() == 0 || is_space(s[0]) {
        0
    } else {
        1 + word_len(s.drop_first())
    }
}

proof fn lemma_word_len_le(s: Seq<char>)
    ensures
        0 <= word_len(s) <= s.len(),
    decreases s.len(),
{
    if s.len() > 0 && !is_space(s[0]) {
        lemma_word_len_le(s.drop_first());
    }
}

/// `s` broken at runs of whitespace, in order, without empty words.
pub open spec fn split_ws(s: Seq<char>) -> Seq<Seq<char>>
    decreases s.len(),
    via split_ws_decreases
{
    if s.len() == 0 {
        Seq::empty()
    } else if is_space(s[0]) {
        split_ws(s.drop_first())
    } else {
        let w = word_len(s);
        seq![s.take(w)] + split_ws(s.skip(w))
    }
}

#[via_fn]
proof fn split_ws_decreases(s: Seq<char>) {
    if s.len() > 0 && !is_space(s[0]) {
        lemma_word_len_le(s.drop_first());
    }
}

/// The opening word of `s` runs exactly to `m` when everything before `m`
/// is solid and `m` itself is a break or the end.
proof fn lemma_word_len_exact(s: Seq<char>, m: int)
    requires
        0 <= m <= s.len(),
        forall|k: int| 0 <= k < m ==> !is_space(s[k]),
        m < s.len() ==> is_space(s[m]),
    ensures
        word_len(s) == m,
    decreases m,
{
    if m == 0 {
    } else {
        assert(!is_space(s[0]));
        lemma_word_len_exact(s.drop_first(), m - 1);
    }
}

/// Splits `s` at runs of whitespace, as [`split_ws`] describes.
#[verifier::loop_isolation(false)]
pub fn split_ws_str(s: &str) -> (v: Vec<String>)
    ensures
        v.deep_view() == split_ws(s@),
{
    let n = s.unicode_len();
    let mut v: Vec<String> = Vec::new();
    let mut i: usize = 0;
    proof {
        assert(s@.skip(0) =~= s@);
    }
    while i < n
        invariant
            i <= n,
            split_ws(s@) == v.deep_view() + split_ws(s@.skip(i as int)),
        decreases n - i,
    {
        let c = s.get_char(i);
        if ch_is_space(c) {
            proof {
                assert(s@.skip(i as int).drop_first() =~= s@.skip(i + 1));
            }
            i += 1;
        } else {
            let mut j = i + 1;
            while j < n && !ch_is_space(s.get_char(j))
                invariant
                    i < j <= n,
                    forall|k: int| i <= k < j ==> !is_space(s@[k]),
                decreases n - j,
            {
                j += 1;
            }
            let ghost u = s@.skip(i as int);
            proof {
                assert(forall|k: int| 0 <= k < j - i ==> u[k] == s@[k + i] && !is_space(u[k]));
                lemma_word_len_exact(u, j - i);
                assert(u.take(j - i) =~= s@.subrange(i as int, j as int));
                assert(u.skip(j - i) =~= s@.skip(j as int));
            }
            let word = s.substring_char(i, j).to_owned();
            let ghost prev = v.deep_view();
            v.push(word);
            proof {
                assert(v.deep_view() =~= prev.push(word@));
                assert(split_ws(u) == seq![u.take(j - i)] + split_ws(u.skip(j - i)));
                assert(v.deep_view() + split_ws(s@.skip(j as int)) =~= split_ws(s@));
            }
            i = j;
        }
    }
    proof {
        assert(s@.skip(n as int) =~= Seq::<char>::empty());
        assert(v.deep_view() =~= split_ws(s@));
    }
    v
}

/// Whether the characters of `p` open the string `s`.
pub fn str_has_prefix(s: &str, p: &str) -> (b: bool)
    ensures
        b == has_prefix(s@, p@),
{
    let pn = p.unicode_len();
    let sn = s.unicode_len();
    if pn > sn {
        return false;
    }
    let mut i: usize = 0;
    while i < pn
        invariant
            i <= pn <= sn,
            pn == p@.len(),
            sn == s@.len(),
            forall|k: int| 0 <= k < i ==> s@[k] == p@[k],
        decreases pn - i,
    {
        if s.get_char(i) != p.get_char(i) {
            proof {
                assert(s@.take(pn as int)[i as int] != p@[i as int]);
            }
            return false;
        }
        i += 1;
    }
    proof {
        assert(s@.take(pn as int) =~= p@);
    }
    true
}

/// The decimal digit character for `d`.
pub open spec fn dec_digit(d: int) -> char {
    if d == 0 {
        '0'
    } else if d == 1 {
        '1'
    } else if d == 2 {
        '2'
    } else if d == 3 {
        '3'
    } else if d == 4 {
        '4'
    } else if d == 5 {
        '5'
    } else if d == 6 {
        '6'
    } else if d == 7 {
        '7'
    } else if d == 8 {
        '8'
    } else {
        '9'
    }
}

/// The lowercase hexadecimal digit character for `d`.
pub open spec fn hex_digit(d: int) -> char {
    if d < 10 {
        dec_digit(d)
    } else if d == 10 {
        'a'
    } else if d == 11 {
        'b'
    } else if d == 12 {
        'c'
    } else if d == 13 {
        'd'
    } else if d == 14 {
        'e'
    } else {
        'f'
    }
}

/// Decimal digits of `n` without the leading zero of `n == 0`.
pub open spec fn dec_seq_rec(n: int) -> Seq<char>
    decreases n,
{
    if n <= 0 {
        Seq::empty()
    } else {
        dec_seq_rec(n / 10).push(dec_digit(n % 10))
    }
}

/// The decimal rendering of a non-negative number, as `{}` formatting
/// prints it.
pub open spec fn dec_seq(n: int) -> Seq<char> {
    if n == 0 {
        seq!['0']
    } else {
        dec_seq_rec(n)
    }
}

/// The decimal rendering of a possibly negative number.
pub open spec fn dec_seq_signed(n: int) -> Seq<char> {
    if n < 0 {
        seq!['-'] + dec_seq(-n)
    } else {
        dec_seq(n)
    }
}

/// Lowercase hexadecimal digits of `n` without the leading zero of `n == 0`.
pub open spec fn hex_seq_rec(n: int) -> Seq<char>
    decreases n,
{
    if n <= 0 {
        Seq::empty()
    } else {
        hex_seq_rec(n / 16).push(hex_digit(n % 16))
    }
}

/// The lowercase hexadecimal rendering of a number, as `{:x}` formatting
/// prints it (no `0x` prefix).
pub open spec fn hex_seq(n: int) -> Seq<char> {
    if n == 0 {
        seq!['0']
    } else {
        hex_seq_rec(n)
    }
}

/// The character with the byte's code point.
pub fn char_of_byte(b: u8) -> (c: char)
    ensures
        c == b as char,
{
    b as char
}

/// Relies on `String::push` from std: appends one character.
#[verifier::external_body]
pub fn push_char(s: &mut String, c: char)
    ensures
        final(s)@ == old(s)@.push(c),
{
    s.push(c);
}

fn dec_digit_ch(d: u64) -> (c: char)
    requires
        d < 10,
    ensures
        c == dec_digit(d as int),
{
    match d {
        0 => '0',
        1 => '1',
        2 => '2',
        3 => '3',
        4 => '4',
        5 => '5',
        6 => '6',
        7 => '7',
        8 => '8',
        _ => '9',
    }
}

fn hex_digit_ch(d: u64) -> (c: char)
    requires
        d < 16,
    ensures
        c == hex_digit(d as int),
{
    match d {
        0 => '0',
        1 => '1',
        2 => '2',
        3 => '3',
        4 => '4',
        5 => '5',
        6 => '6',
        7 => '7',
        8 => '8',
        9 => '9',
        10 => 'a',
        11 => 'b',
        12 => 'c',
        13 => 'd',
        14 => 'e',
        _ => 'f',
    }
}

fn dec_push_rec(n: u64, s: &mut String)
    ensures
        final(s)@ == old(s)@ + dec_seq_rec(n as int),
    decreases n,
{
    if n > 0 {
        dec_push_rec(n / 10, s);
        let c = dec_digit_ch(n % 10);
        push_char(s, c);
        assert(final(s)@ =~= old(s)@ + dec_seq_rec(n as int));
    } else {
        assert(final(s)@ =~= old(s)@ + dec_seq_rec(n as int));
    }
}

/// Appends the decimal rendering of `n` to `s`.
pub fn push_dec_u64(n: u64, s: &mut String)
    ensures
        final(s)@ == old(s)@ + dec_seq(n as int),
{
    if n == 0 {
        push_char(s, '0');
        assert(final(s)@ =~= old(s)@ + dec_seq(n as int));
    } else {
        dec_push_rec(n, s);
    }
}

/// Appends the decimal rendering of `n`, with a sign when negative, to `s`.
pub fn push_dec_i64(n: i64, s: &mut String)
    ensures
        final(s)@ == old(s)@ + dec_seq_signed(n as int),
{
    if n < 0 {
        push_char(s, '-');
        let m: u64 = if n == i64::MIN {
            0x8000000000000000u64
        } else {
            (-n) as u64
        };
        assert(m == -(n as int)) by {
            assert(n == i64::MIN ==> -(n as int) == 0x8000000000000000);
        }
        push_dec_u64(m, s);
        assert(final(s)@ =~= old(s)@ + dec_seq_signed(n as int));
    } else {
        push_dec_u64(n as u64, s);
    }
}

fn hex_push_rec(n: u64, s: &mut String)
    ensures
        final(s)@ == old(s)@ + hex_seq_rec(n as int),
    decreases n,
{
    if n > 0 {
        hex_push_rec(n / 16, s);
        let c = hex_digit_ch(n % 16);
        push_char(s, c);
        assert(final(s)@ =~= old(s)@ + hex_seq_rec(n as int));
    } else {
        assert(final(s)@ =~= old(s)@ + hex_seq_rec(n as int));
    }
}

/// Appends the lowercase hexadecimal rendering of `n` to `s`.
pub fn push_hex_u64(n: u64, s: &mut String)
    ensures
        final(s)@ == old(s)@ + hex_seq(n as int),
{
    if n == 0 {
        push_char(s, '0');
        assert(final(s)@ =~= old(s)@ + hex_seq(n as int));
    } else {
        hex_push_rec(n, s);
    }
}

} // verus!
