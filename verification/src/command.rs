use vstd::prelude::*;
use vstd::string::StrSliceExecFns;
use vstd::string::StringExecFns;
use crate::expr;
use crate::expr::Expr;
use crate::expr::ExprV;
use crate::text;

verus! {

/// One debugger command as typed at the prompt.
#[derive(PartialEq, Debug)]
pub enum Command {
    Break(Expr),
    Cont,
    Info,
    Print(Expr),
    Run(Vec<String>),
    Start(Vec<String>),
    StepI,
    X(usize, i32, Expr),
}

/// Mathematical image of a [`Command`].
pub enum CommandV {
    Break(ExprV),
    Cont,
    Info,
    Print(ExprV),
    Run(Seq<Seq<char>>),
    Start(Seq<Seq<char>>),
    StepI,
    X(int, int, ExprV),
}

impl View for Command {
    type V = CommandV;

    open spec fn view(&self) -> CommandV {
        match self {
            Command::Break(e) => CommandV::Break(e@),
            Command::Cont => CommandV::Cont,
            Command::Info => CommandV::Info,
            Command::Print(e) => CommandV::Print(e@),
            Command::Run(args) => CommandV::Run(args.deep_view()),
            Command::Start(args) => CommandV::Start(args.deep_view()),
            Command::StepI => CommandV::StepI,
            Command::X(n, b, e) => CommandV::X(*n as int, *b as int, e@),
        }
    }
}

/// The command words the prompt accepts, in the order they are tried.
pub open spec fn command_names() -> Seq<Seq<char>> {
    seq![
        "break"@,
        "continue"@,
        "info"@,
        "print"@,
        "run"@,
        "si"@,
        "start"@,
        "stepi"@,
        "x"@,
    ]
}

/// Whether the typed word `cmd` abbreviates command number `i`.
pub open spec fn name_matches(cmd: Seq<char>, i: int) -> bool {
    text::has_prefix(command_names()[i], cmd)
}

/// How many command words `cmd` abbreviates.
pub open spec fn match_count(cmd: Seq<char>) -> int {
    match_count_upto(cmd, 9)
}

/// How many of the first `n` command words `cmd` abbreviates.
pub open spec fn match_count_upto(cmd: Seq<char>, n: int) -> int
    decreases n,
{
    if n <= 0 {
        0
    } else {
        match_count_upto(cmd, n - 1) + if name_matches(cmd, n - 1) {
            1int
        } else {
            0int
        }
    }
}

/// `name` wrapped in double quotes.
pub open spec fn quoted(name: Seq<char>) -> Seq<char> {
    "\""@ + name + "\""@
}

/// The command words among the first `n` that `cmd` abbreviates, quoted and
/// joined with commas, as a list is printed.
pub open spec fn joined_upto(cmd: Seq<char>, n: int) -> Seq<char>
    decreases n,
{
    if n <= 0 {
        Seq::empty()
    } else {
        joined_upto(cmd, n - 1) + if name_matches(cmd, n - 1) {
            (if match_count_upto(cmd, n - 1) > 0 {
                ", "@
            } else {
                Seq::<char>::empty()
            }) + quoted(command_names()[n - 1])
        } else {
            Seq::<char>::empty()
        }
    }
}

/// The complaint for an ambiguous abbreviation, listing every candidate.
pub open spec fn multiple_msg(cmd: Seq<char>) -> Seq<char> {
    "Multiple candidates for `"@ + cmd + "': ["@ + joined_upto(cmd, 9) + "]"@
}

/// The complaint for an unknown command word.
pub open spec fn no_such_msg(cmd: Seq<char>) -> Seq<char> {
    "No such command: "@ + cmd
}

/// Index of the first space of `t`, if any.
pub open spec fn first_space(t: Seq<char>) -> Option<int> {
    if exists|k: int| is_first_space_at(t, k) {
        Some(choose|k: int| is_first_space_at(t, k))
    } else {
        None
    }
}

pub open spec fn is_first_space_at(t: Seq<char>, k: int) -> bool {
    0 <= k < t.len() && t[k] == ' ' && forall|j: int| 0 <= j < k ==> t[j] != ' '
}

/// The typed word: `t` up to its first space.
pub open spec fn cmd_of(t: Seq<char>) -> Seq<char> {
    match first_space(t) {
        Some(k) => t.take(k),
        None => t,
    }
}

/// The argument text: `t` after its first space.
pub open spec fn rest_of(t: Seq<char>) -> Seq<char> {
    match first_space(t) {
        Some(k) => t.skip(k + 1),
        None => Seq::empty(),
    }
}

/// Lifts what expression parsing yields to a command.
pub open spec fn expr_to_cmd(r: Result<ExprV, Seq<char>>, f: spec_fn(ExprV) -> CommandV) -> Result<
    CommandV,
    Seq<char>,
> {
    match r {
        Ok(e) => Ok(f(e)),
        Err(m) => Err(m),
    }
}

/// What parsing a command line yields: the abbreviation-dispatch over
/// [`command_names`], with the examine form (`x`, `x/...`) read before
/// abbreviation matching, an error naming the word when nothing matches,
/// and an error listing the candidates when several do.
pub open spec fn spec_parse(line: Seq<char>) -> Result<CommandV, Seq<char>> {
    let t = text::trim_seq(line);
    if t.len() == 0 {
        Err(Seq::empty())
    } else {
        let cmd = cmd_of(t);
        let rest = rest_of(t);
        if (cmd.len() == 1 && cmd[0] == 'x') || (cmd.len() >= 2 && cmd[0] == 'x' && cmd[1]
            == '/') {
            expr_to_cmd(expr::spec_parse(rest), |e: ExprV| CommandV::X(1, 16, e))
        } else if match_count(cmd) == 0 {
            Err(no_such_msg(cmd))
        } else if match_count(cmd) > 1 {
            Err(multiple_msg(cmd))
        } else if name_matches(cmd, 0) {
            expr_to_cmd(expr::spec_parse(rest), |e: ExprV| CommandV::Break(e))
        } else if name_matches(cmd, 1) {
            Ok(CommandV::Cont)
        } else if name_matches(cmd, 2) {
            Ok(CommandV::Info)
        } else if name_matches(cmd, 3) {
            expr_to_cmd(expr::spec_parse(rest), |e: ExprV| CommandV::Print(e))
        } else if name_matches(cmd, 4) {
            Ok(CommandV::Run(text::split_ws(rest)))
        } else if name_matches(cmd, 5) {
            Ok(CommandV::StepI)
        } else if name_matches(cmd, 6) {
            Ok(CommandV::Start(text::split_ws(rest)))
        } else if name_matches(cmd, 7) {
            Ok(CommandV::StepI)
        } else {
            Err("Shouldn't happen"@)
        }
    }
}

fn parse_print(s: &str) -> (r: Result<Command, String>)
    ensures
        match r {
            Ok(c) => expr_to_cmd(expr::spec_parse(s@), |e: ExprV| CommandV::Print(e)) == Ok::<
                CommandV,
                Seq<char>,
            >(c@),
            Err(m) => expr_to_cmd(expr::spec_parse(s@), |e: ExprV| CommandV::Print(e)) == Err::<
                CommandV,
                Seq<char>,
            >(m@),
        },
{
    match expr::parse(s) {
        Ok(e) => Ok(Command::Print(e)),
        Err(m) => Err(m),
    }
}

fn parse_break(s: &str) -> (r: Result<Command, String>)
    ensures
        match r {
            Ok(c) => expr_to_cmd(expr::spec_parse(s@), |e: ExprV| CommandV::Break(e)) == Ok::<
                CommandV,
                Seq<char>,
            >(c@),
            Err(m) => expr_to_cmd(expr::spec_parse(s@), |e: ExprV| CommandV::Break(e)) == Err::<
                CommandV,
                Seq<char>,
            >(m@),
        },
{
    match expr::parse(s) {
        Ok(e) => Ok(Command::Break(e)),
        Err(m) => Err(m),
    }
}

fn parse_x(_cmd: &str, s: &str) -> (r: Result<Command, String>)
    ensures
        match r {
            Ok(c) => expr_to_cmd(expr::spec_parse(s@), |e: ExprV| CommandV::X(1, 16, e)) == Ok::<
                CommandV,
                Seq<char>,
            >(c@),
            Err(m) => expr_to_cmd(expr::spec_parse(s@), |e: ExprV| CommandV::X(1, 16, e)) == Err::<
                CommandV,
                Seq<char>,
            >(m@),
        },
{
    let num: usize = 1;
    let base: i32 = 16;
    match expr::parse(s) {
        Ok(e) => Ok(Command::X(num, base, e)),
        Err(m) => Err(m),
    }
}

fn parse_run(s: &str) -> (r: Result<Command, String>)
    ensures
        r is Ok,
        r.unwrap()@ == CommandV::Run(text::split_ws(s@)),
{
    Ok(Command::Run(text::split_ws_str(s)))
}

fn parse_start(s: &str) -> (r: Result<Command, String>)
    ensures
        r is Ok,
        r.unwrap()@ == CommandV::Start(text::split_ws(s@)),
{
    Ok(Command::Start(text::split_ws_str(s)))
}

/// Reads one line from the prompt as a command, as [`spec_parse`] (of this
/// module) describes.
/// Splits the trimmed line at its first space into the command word and
/// the argument text.
fn split_cmd_rest<'a>(t: &'a str) -> (r: (&'a str, &'a str))
    ensures
        r.0@ == cmd_of(t@),
        r.1@ == rest_of(t@),
{
    let n = t.unicode_len();
    let mut sp: usize = 0;
    let mut found = false;
    while sp < n && !found
        invariant
            0 <= sp <= n,
            n == t@.len(),
            !found ==> forall|j: int| 0 <= j < sp ==> t@[j] != ' ',
            found ==> is_first_space_at(t@, sp as int),
        decreases n - sp + if found {
            0int
        } else {
            1int
        },
    {
        if t.get_char(sp) == ' ' {
            found = true;
        } else {
            sp += 1;
        }
    }
    let ghost tv = t@;
    proof {
        if found {
            assert(first_space(tv) == Some(sp as int)) by {
                assert(is_first_space_at(tv, sp as int));
                let k = choose|k: int| is_first_space_at(tv, k);
                if k < sp {
                    assert(tv[k] != ' ');
                } else if k > sp {
                    assert(tv[sp as int] != ' ');
                }
            }
        } else {
            assert(first_space(tv) is None) by {
                if exists|k: int| is_first_space_at(tv, k) {
                    let k = choose|k: int| is_first_space_at(tv, k);
                    assert(tv[k] != ' ');
                }
            }
        }
    }
    if found {
        let cmd = t.substring_char(0, sp);
        let rest = t.substring_char(sp + 1, n);
        proof {
            assert(cmd@ =~= cmd_of(tv));
            assert(rest@ =~= rest_of(tv));
        }
        (cmd, rest)
    } else {
        proof {
            reveal_strlit("");
            assert(t@ =~= cmd_of(tv));
            assert(""@ =~= rest_of(tv));
        }
        (t, "")
    }
}

/// Which command words one typed word abbreviates, and how many.
struct CmdMatches {
    m0: bool,
    m1: bool,
    m2: bool,
    m3: bool,
    m4: bool,
    m5: bool,
    m6: bool,
    m7: bool,
    m8: bool,
    count: u64,
}

fn match_cmd(cmd: &str) -> (r: CmdMatches)
    ensures
        r.m0 == name_matches(cmd@, 0),
        r.m1 == name_matches(cmd@, 1),
        r.m2 == name_matches(cmd@, 2),
        r.m3 == name_matches(cmd@, 3),
        r.m4 == name_matches(cmd@, 4),
        r.m5 == name_matches(cmd@, 5),
        r.m6 == name_matches(cmd@, 6),
        r.m7 == name_matches(cmd@, 7),
        r.m8 == name_matches(cmd@, 8),
        r.count == match_count(cmd@),
{
    let m0 = text::str_has_prefix("break", cmd);
    let m1 = text::str_has_prefix("continue", cmd);
    let m2 = text::str_has_prefix("info", cmd);
    let m3 = text::str_has_prefix("print", cmd);
    let m4 = text::str_has_prefix("run", cmd);
    let m5 = text::str_has_prefix("si", cmd);
    let m6 = text::str_has_prefix("start", cmd);
    let m7 = text::str_has_prefix("stepi", cmd);
    let m8 = text::str_has_prefix("x", cmd);
    let mut count: u64 = 0;
    proof {
        reveal_with_fuel(match_count_upto, 11);
    }
    if m0 {
        count += 1;
    }
    assert(count == match_count_upto(cmd@, 1) && count <= 1);
    if m1 {
        count += 1;
    }
    assert(count == match_count_upto(cmd@, 2) && count <= 2);
    if m2 {
        count += 1;
    }
    assert(count == match_count_upto(cmd@, 3) && count <= 3);
    if m3 {
        count += 1;
    }
    assert(count == match_count_upto(cmd@, 4) && count <= 4);
    if m4 {
        count += 1;
    }
    assert(count == match_count_upto(cmd@, 5) && count <= 5);
    if m5 {
        count += 1;
    }
    assert(count == match_count_upto(cmd@, 6) && count <= 6);
    if m6 {
        count += 1;
    }
    assert(count == match_count_upto(cmd@, 7) && count <= 7);
    if m7 {
        count += 1;
    }
    assert(count == match_count_upto(cmd@, 8) && count <= 8);
    if m8 {
        count += 1;
    }
    assert(count == match_count_upto(cmd@, 9) && count <= 9);
    CmdMatches { m0, m1, m2, m3, m4, m5, m6, m7, m8, count }
}

/// Reads one line from the prompt as a command, as [`spec_parse`] (of this
/// module) describes.
#[verifier::rlimit(60)]
pub fn parse(line: &str) -> (r: Result<Command, String>)
    ensures
        match r {
            Ok(c) => spec_parse(line@) == Ok::<CommandV, Seq<char>>(c@),
            Err(m) => spec_parse(line@) == Err::<CommandV, Seq<char>>(m@),
        },
{
    let t = text::trim_str(line);
    let n = t.unicode_len();
    if n == 0 {
        return Err(String::new());
    }
    let (cmd, rest) = split_cmd_rest(t);
    let cn = cmd.unicode_len();
    if (cn == 1 && cmd.get_char(0) == 'x') || (cn >= 2 && cmd.get_char(0) == 'x' && cmd.get_char(1)
        == '/') {
        return parse_x(cmd, rest);
    }
    let m = match_cmd(cmd);
    if m.count == 0 {
        let mut msg = String::from_str("No such command: ");
        msg.append(cmd);
        return Err(msg);
    }
    if m.count > 1 {
        return Err(build_multiple_msg(cmd, m));
    }
    if m.m0 {
        return parse_break(rest);
    } else if m.m1 {
        return Ok(Command::Cont);
    } else if m.m2 {
        return Ok(Command::Info);
    } else if m.m3 {
        return parse_print(rest);
    } else if m.m4 {
        return parse_run(rest);
    } else if m.m5 {
        return Ok(Command::StepI);
    } else if m.m6 {
        return parse_start(rest);
    } else if m.m7 {
        return Ok(Command::StepI);
    } else {
        return Err(String::from_str("Shouldn't happen"));
    }
}

/// Appends the candidate for one command word: quoted, with a separating
/// comma when it is not the first.
fn cand_step(
    m: &mut String,
    cnt: &mut u64,
    matched: bool,
    name: &str,
    Ghost(pfx): Ghost<Seq<char>>,
    Ghost(cmd): Ghost<Seq<char>>,
    Ghost(i): Ghost<int>,
)
    requires
        0 <= i < 9,
        matched == name_matches(cmd, i),
        name@ == command_names()[i],
        *old(cnt) == match_count_upto(cmd, i),
        *old(cnt) <= i,
        old(m)@ == pfx + joined_upto(cmd, i),
    ensures
        final(m)@ == pfx + joined_upto(cmd, i + 1),
        *final(cnt) == match_count_upto(cmd, i + 1),
        *final(cnt) <= i + 1,
{
    if matched {
        if *cnt > 0 {
            m.append(", ");
        }
        m.append("\"");
        m.append(name);
        m.append("\"");
        *cnt += 1;
        proof {
            assert(m@ =~= pfx + joined_upto(cmd, i + 1));
        }
    } else {
        proof {
            assert(m@ =~= pfx + joined_upto(cmd, i + 1));
        }
    }
}

/// Builds the ambiguous-abbreviation complaint listing every candidate.
fn build_multiple_msg(cmd: &str, m: CmdMatches) -> (r: String)
    requires
        m.m0 == name_matches(cmd@, 0),
        m.m1 == name_matches(cmd@, 1),
        m.m2 == name_matches(cmd@, 2),
        m.m3 == name_matches(cmd@, 3),
        m.m4 == name_matches(cmd@, 4),
        m.m5 == name_matches(cmd@, 5),
        m.m6 == name_matches(cmd@, 6),
        m.m7 == name_matches(cmd@, 7),
        m.m8 == name_matches(cmd@, 8),
    ensures
        r@ == multiple_msg(cmd@),
{
    let mut msg = String::from_str("Multiple candidates for `");
    msg.append(cmd);
    msg.append("': [");
    let ghost pfx = msg@;
    let mut cnt: u64 = 0;
    proof {
        assert(msg@ =~= pfx + joined_upto(cmd@, 0));
    }
    cand_step(&mut msg, &mut cnt, m.m0, "break", Ghost(pfx), Ghost(cmd@), Ghost(0));
    cand_step(&mut msg, &mut cnt, m.m1, "continue", Ghost(pfx), Ghost(cmd@), Ghost(1));
    cand_step(&mut msg, &mut cnt, m.m2, "info", Ghost(pfx), Ghost(cmd@), Ghost(2));
    cand_step(&mut msg, &mut cnt, m.m3, "print", Ghost(pfx), Ghost(cmd@), Ghost(3));
    cand_step(&mut msg, &mut cnt, m.m4, "run", Ghost(pfx), Ghost(cmd@), Ghost(4));
    cand_step(&mut msg, &mut cnt, m.m5, "si", Ghost(pfx), Ghost(cmd@), Ghost(5));
    cand_step(&mut msg, &mut cnt, m.m6, "start", Ghost(pfx), Ghost(cmd@), Ghost(6));
    cand_step(&mut msg, &mut cnt, m.m7, "stepi", Ghost(pfx), Ghost(cmd@), Ghost(7));
    cand_step(&mut msg, &mut cnt, m.m8, "x", Ghost(pfx), Ghost(cmd@), Ghost(8));
    msg.append("]");
    proof {
        assert(msg@ =~= multiple_msg(cmd@));
    }
    msg
}

} // verus!
