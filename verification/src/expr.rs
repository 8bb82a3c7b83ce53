use vstd::prelude::*;
use vstd::string::StrSliceExecFns;
use vstd::string::StringExecFns;
use crate::text;

verus! {

/// An address expression typed at the prompt: nothing, a numeric literal, or
/// a symbol name.
#[derive(PartialEq, Debug)]
pub enum Expr {
    Empty,
    Num(i64),
    Ident(String),
}

/// Mathematical image of an [`Expr`].
pub enum ExprV {
    Empty,
    Num(int),
    Ident(Seq<char>),
}

impl View for Expr {
    type V = ExprV;

    open spec fn view(&self) -> ExprV {
        match self {
            Expr::Empty => ExprV::Empty,
            Expr::Num(v) => ExprV::Num(*v as int),
            Expr::Ident(s) => ExprV::Ident(s@),
        }
    }
}

/// The value of `c` as a digit, or 99 when `c` is no digit in any radix this
/// crate reads (digits and the letters `a` through `f` in either case).
pub open spec fn char_val(c: char) -> int {
    let v = c as int;
    if 48 <= v <= 57 {
        v - 48
    } else if 97 <= v <= 102 {
        v - 87
    } else if 65 <= v <= 70 {
        v - 55
    } else {
        99
    }
}

/// Every character of `s` is a digit of the given radix.
pub open spec fn all_digits(s: Seq<char>, radix: int) -> bool {
    forall|i: int| 0 <= i < s.len() ==> 0 <= #[trigger] char_val(s[i]) < radix
}

/// The number the digit string `s` denotes in the given radix.
pub open spec fn digits_val(s: Seq<char>, radix: int) -> int
    decreases s.len(),
{
    if s.len() == 0 {
        0
    } else {
        digits_val(s.drop_last(), radix) * radix + char_val(s.last())
    }
}

/// The 64-bit signed number an optionally signed digit string denotes, as
/// radix parsing reads it: `None` for an empty or malformed digit string and
/// for a value outside the 64-bit signed range.
pub open spec fn radix_parse(s: Seq<char>, radix: int) -> Option<int> {
    let neg = s.len() > 0 && s[0] == '-';
    let ds = if s.len() > 0 && (s[0] == '-' || s[0] == '+') {
        s.drop_first()
    } else {
        s
    };
    if ds.len() == 0 || !all_digits(ds, radix) {
        None
    } else {
        let v = if neg {
            -digits_val(ds, radix)
        } else {
            digits_val(ds, radix)
        };
        if i64::MIN <= v <= i64::MAX {
            Some(v)
        } else {
            None
        }
    }
}

/// The complaint for a malformed numeric literal.
pub open spec fn invalid_number_msg(t: Seq<char>) -> Seq<char> {
    "Invalid number \""@ + t + "\"."@
}

/// What parsing an expression string yields: the trimmed input read as an
/// empty expression, a numeric literal (`0x` hexadecimal, `0` octal, or
/// decimal), or an identifier.
pub open spec fn spec_parse(s: Seq<char>) -> Result<ExprV, Seq<char>> {
    let t = text::trim_seq(s);
    if t.len() == 0 {
        Ok(ExprV::Empty)
    } else if t.len() >= 2 && t[0] == '0' && t[1] == 'x' {
        if t.len() == 2 {
            Err(invalid_number_msg(t))
        } else {
            match radix_parse(t.skip(2), 16) {
                Some(v) => Ok(ExprV::Num(v)),
                None => Err(invalid_number_msg(t)),
            }
        }
    } else if t[0] == '0' {
        match radix_parse(t.skip(1), 8) {
            Some(v) => Ok(ExprV::Num(v)),
            None => Err(invalid_number_msg(t)),
        }
    } else if 48 <= t[0] as int <= 57 {
        match radix_parse(t, 10) {
            Some(v) => Ok(ExprV::Num(v)),
            None => Err(invalid_number_msg(t)),
        }
    } else {
        Ok(ExprV::Ident(t))
    }
}

proof fn lemma_digits_val_nonneg(s: Seq<char>, radix: int)
    requires
        all_digits(s, radix),
        radix >= 2,
    ensures
        digits_val(s, radix) >= 0,
    decreases s.len(),
{
    if s.len() > 0 {
        assert(all_digits(s.drop_last(), radix));
        lemma_digits_val_nonneg(s.drop_last(), radix);
        assert(digits_val(s.drop_last(), radix) * radix >= 0) by (nonlinear_arith)
            requires
                digits_val(s.drop_last(), radix) >= 0,
                radix >= 2,
        ;
    }
}

/// A digit string is worth at least what any of its prefixes is worth.
proof fn lemma_digits_val_prefix_le(s: Seq<char>, radix: int, k: int)
    requires
        all_digits(s, radix),
        radix >= 2,
        0 <= k <= s.len(),
    ensures
        digits_val(s.take(k), radix) <= digits_val(s, radix),
    decreases s.len() - k,
{
    if k < s.len() {
        let t = s.take(k + 1);
        assert(all_digits(t, radix)) by {
            assert(forall|i: int| 0 <= i < t.len() ==> t[i] == s[i]);
        }
        assert(t.drop_last() =~= s.take(k));
        lemma_digits_val_nonneg(s.take(k), radix);
        assert(digits_val(s.take(k), radix) * radix >= digits_val(s.take(k), radix))
            by (nonlinear_arith)
            requires
                digits_val(s.take(k), radix) >= 0,
                radix >= 2,
        ;
        assert(digits_val(t, radix) == digits_val(s.take(k), radix) * radix + char_val(t.last()));
        lemma_digits_val_prefix_le(s, radix, k + 1);
    } else {
        assert(s.take(k) =~= s);
    }
}

/// The value of `c` as a digit, matching [`char_val`].
fn digit_ch_val(c: char) -> (d: u64)
    ensures
        d == char_val(c),
{
    let v = c as u32;
    if 48 <= v && v <= 57 {
        (v - 48) as u64
    } else if 97 <= v && v <= 102 {
        (v - 87) as u64
    } else if 65 <= v && v <= 70 {
        (v - 55) as u64
    } else {
        99
    }
}

/// Reads the characters of `s` from `start` on as an optionally signed
/// number in the given radix, refusing malformed input and overflow exactly
/// as [`radix_parse`] describes.
#[verifier::loop_isolation(false)]
fn parse_i64_radix(s: &str, start: usize, radix: u64) -> (r: Option<i64>)
    requires
        start <= s@.len(),
        radix == 8 || radix == 10 || radix == 16,
    ensures
        match r {
            Some(v) => radix_parse(s@.skip(start as int), radix as int) == Some(v as int),
            None => radix_parse(s@.skip(start as int), radix as int) is None,
        },
{
    let ghost whole = s@.skip(start as int);
    let n = s.unicode_len();
    let mut i: usize = start;
    let mut neg = false;
    if i < n {
        let c = s.get_char(i);
        if c == '-' {
            neg = true;
            i += 1;
        } else if c == '+' {
            i += 1;
        }
    }
    let ghost ds = s@.subrange(i as int, n as int);
    proof {
        if i > start {
            assert(ds =~= whole.drop_first());
        } else {
            assert(ds =~= whole);
        }
    }
    if i >= n {
        return None;
    }
    let mut acc: i64 = 0;
    let mut j = i;
    while j < n
        invariant
            i <= j <= n,
            n == s@.len(),
            radix == 8 || radix == 10 || radix == 16,
            ds == s@.subrange(i as int, n as int),
            ds.len() > 0,
            all_digits(s@.subrange(i as int, j as int), radix as int),
            acc as int == if neg {
                -digits_val(s@.subrange(i as int, j as int), radix as int)
            } else {
                digits_val(s@.subrange(i as int, j as int), radix as int)
            },
            radix_parse(whole, radix as int) == {
                if ds.len() == 0 || !all_digits(ds, radix as int) {
                    None::<int>
                } else {
                    let v = if neg {
                        -digits_val(ds, radix as int)
                    } else {
                        digits_val(ds, radix as int)
                    };
                    if i64::MIN <= v <= i64::MAX {
                        Some(v)
                    } else {
                        None
                    }
                }
            },
        decreases n - j,
    {
        let ghost pre = s@.subrange(i as int, j as int);
        let c = s.get_char(j);
        let d = digit_ch_val(c);
        if d >= radix {
            proof {
                assert(ds[j - i] == c);
                assert(char_val(ds[j - i]) >= radix);
                assert(!all_digits(ds, radix as int));
            }
            return None;
        }
        proof {
            assert(s@.subrange(i as int, j + 1).drop_last() =~= pre);
            assert(s@.subrange(i as int, j + 1).last() == c);
            assert(all_digits(s@.subrange(i as int, j + 1), radix as int)) by {
                assert(forall|k: int|
                    0 <= k < pre.len() ==> s@.subrange(i as int, j + 1)[k] == pre[k]);
            }
            assert(ds.take(j + 1 - i) =~= s@.subrange(i as int, j + 1));
            assert(ds.take(j - i) =~= pre);
        }
        let step = if neg {
            match acc.checked_mul(radix as i64) {
                Some(a) => a.checked_sub(d as i64),
                None => None,
            }
        } else {
            match acc.checked_mul(radix as i64) {
                Some(a) => a.checked_add(d as i64),
                None => None,
            }
        };
        match step {
            Some(a) => {
                acc = a;
            },
            None => {
                proof {
                    let r = radix as int;
                    let full = digits_val(ds, r);
                    let part = digits_val(ds.take(j + 1 - i), r);
                    let pv = digits_val(pre, r);
                    // Either a later character is no digit — then the whole
                    // read fails anyway — or the value keeps growing past
                    // what was already out of range here.
                    if all_digits(ds, r) {
                        lemma_digits_val_prefix_le(ds, r, j + 1 - i);
                        assert(part <= full);
                        assert(part == pv * r + char_val(c));
                        assert(all_digits(pre, r));
                        lemma_digits_val_nonneg(pre, r);
                        if neg {
                            // acc == -pv with pv >= 0; the checked step
                            // failed, so acc * r - d lies below the
                            // representable range.
                            assert(acc * r == -(pv * r)) by (nonlinear_arith)
                                requires
                                    acc as int == -pv,
                                    r == radix as int,
                            ;
                            assert(acc * r <= 0) by (nonlinear_arith)
                                requires
                                    acc <= 0,
                                    r >= 2,
                            ;
                            assert(-part == acc * r - d);
                            assert(-part < i64::MIN);
                            assert(-full <= -part);
                        } else {
                            assert(acc * r == pv * r);
                            assert(acc * r >= 0) by (nonlinear_arith)
                                requires
                                    acc >= 0,
                                    r >= 2,
                            ;
                            assert(part == acc * r + d);
                            assert(part > i64::MAX);
                            assert(full >= part);
                        }
                    }
                    assert(radix_parse(whole, r) is None);
                }
                return None;
            },
        }
        j += 1;
    }
    proof {
        assert(s@.subrange(i as int, j as int) =~= ds);
    }
    Some(acc)
}

/// Turns the result of a numeric read into an expression, complaining about
/// the literal `e` when the read failed.
fn parse_num_from_result(r: Option<i64>, e: &str) -> (res: Result<Expr, String>)
    ensures
        match res {
            Ok(x) => r is Some && x == Expr::Num(r.unwrap()),
            Err(m) => r is None && m@ == invalid_number_msg(e@),
        },
{
    match r {
        Some(v) => Ok(Expr::Num(v)),
        None => {
            let mut m = String::from_str("Invalid number \"");
            m.append(e);
            m.append("\".");
            Err(m)
        },
    }
}

/// Reads a trimmed line as an expression: empty input, a `0x` hexadecimal,
/// leading-zero octal or decimal literal, or an identifier.
pub fn parse(s: &str) -> (r: Result<Expr, String>)
    ensures
        match r {
            Ok(e) => spec_parse(s@) == Ok::<ExprV, Seq<char>>(e@),
            Err(m) => spec_parse(s@) == Err::<ExprV, Seq<char>>(m@),
        },
{
    let t = text::trim_str(s);
    let n = t.unicode_len();
    if n == 0 {
        return Ok(Expr::Empty);
    }
    let c0 = t.get_char(0);
    if n >= 2 && c0 == '0' && t.get_char(1) == 'x' {
        if n == 2 {
            return parse_num_from_result(None, t);
        }
        return parse_num_from_result(parse_i64_radix(t, 2, 16), t);
    } else if c0 == '0' {
        return parse_num_from_result(parse_i64_radix(t, 1, 8), t);
    } else {
        let cv = c0 as u32;
        if 48 <= cv && cv <= 57 {
            proof {
                assert(t@.skip(0) =~= t@);
            }
            return parse_num_from_result(parse_i64_radix(t, 0, 10), t);
        }
        proof {
            assert(t@.skip(0) =~= t@);
        }
        return Ok(Expr::Ident(t.to_owned()));
    }
}

} // verus!
