//! The closed set of command variants and the parser that maps a token
//! sequence onto it.
//!
//! The first token selects the variant and the remaining tokens become
//! its arguments.  An empty line is a distinguished silent no-op failure
//! (an empty message); a `type` with no argument is the one hard parse
//! failure.  Any unrecognized first token becomes an external-command
//! invocation, which never fails to parse.

use vstd::prelude::*;

use crate::tokenizer::spec_tokenize;
use crate::tokenizer::tokenize;

verus! {

/// One parsed command, constructed from a single input line and consumed
/// exactly once by the executor.
#[derive(Debug)]
pub enum Commands {
    Exit(Option<i32>),
    Echo(Vec<String>),
    Type(String),
    External(String, Vec<String>),
    Pwd(),
    Cd(String),
}

/// The mathematical model of a parsed command.
pub enum CommandView {
    Exit(Option<i32>),
    Echo(Seq<Seq<char>>),
    Type(Seq<char>),
    External(Seq<char>, Seq<Seq<char>>),
    Pwd,
    Cd(Seq<char>),
}

impl View for Commands {
    type V = CommandView;

    open spec fn view(&self) -> CommandView {
        match self {
            Commands::Exit(code) => CommandView::Exit(*code),
            Commands::Echo(args) => CommandView::Echo(args.deep_view()),
            Commands::Type(name) => CommandView::Type(name@),
            Commands::External(name, args) => CommandView::External(name@, args.deep_view()),
            Commands::Pwd() => CommandView::Pwd,
            Commands::Cd(path) => CommandView::Cd(path@),
        }
    }
}

/// Whether `name` is one of the fixed built-in command names.  The
/// registry is immutable: exactly `exit`, `echo`, `type`, `pwd` and `cd`.
pub open spec fn spec_is_builtin(name: Seq<char>) -> bool {
    name == "exit"@ || name == "echo"@ || name == "type"@ || name == "pwd"@ || name == "cd"@
}

/// Whether `c` is a decimal digit.
pub open spec fn is_digit_char(c: char) -> bool {
    48 <= c as int && c as int <= 57
}

/// The numeric value of the digit `c`.
pub open spec fn digit_val(c: char) -> int {
    c as int - 48
}

/// Whether `s` is one or more decimal digits and nothing else.
pub open spec fn all_digits(s: Seq<char>) -> bool {
    s.len() > 0 && forall|i: int| 0 <= i < s.len() ==> is_digit_char(s[i])
}

/// The value of the digit string `s`, most significant digit first.
pub open spec fn digits_val(s: Seq<char>) -> int
    decreases s.len(),
{
    if s.len() == 0 {
        0
    } else {
        digits_val(s.drop_last()) * 10 + digit_val(s.last())
    }
}

/// The value `str::parse::<i32>` gives to `s`: an optional single sign,
/// then at least one decimal digit, with the signed value in range;
/// anything else is rejected.
pub open spec fn spec_parse_i32(s: Seq<char>) -> Option<i32> {
    if s.len() > 0 && (s[0] == '+' || s[0] == '-') {
        if all_digits(s.drop_first()) {
            let v = if s[0] == '-' {
                -digits_val(s.drop_first())
            } else {
                digits_val(s.drop_first())
            };
            if i32::MIN <= v <= i32::MAX {
                Some(v as i32)
            } else {
                None
            }
        } else {
            None
        }
    } else {
        if all_digits(s) {
            let v = digits_val(s);
            if v <= i32::MAX {
                Some(v as i32)
            } else {
                None
            }
        } else {
            None
        }
    }
}

/// The command denoted by a token sequence, or the exact parse failure.
pub open spec fn spec_parse(toks: Seq<Seq<char>>) -> Result<CommandView, Seq<char>> {
    if toks.len() == 0 {
        Err(Seq::empty())
    } else {
        let cmd = toks[0];
        let args = toks.drop_first();
        if cmd == "exit"@ {
            Ok(
                CommandView::Exit(
                    if args.len() > 0 {
                        spec_parse_i32(args[0])
                    } else {
                        None
                    },
                ),
            )
        } else if cmd == "echo"@ {
            Ok(CommandView::Echo(args))
        } else if cmd == "type"@ {
            if args.len() > 0 {
                Ok(CommandView::Type(args[0]))
            } else {
                Err("type: missing argument"@)
            }
        } else if cmd == "cd"@ {
            Ok(
                CommandView::Cd(
                    if args.len() > 0 {
                        args[0]
                    } else {
                        "~"@
                    },
                ),
            )
        } else if cmd == "pwd"@ {
            Ok(CommandView::Pwd)
        } else {
            Ok(CommandView::External(cmd, args))
        }
    }
}

/// Character-by-character equality of two string slices.
pub fn str_eq(a: &str, b: &str) -> (r: bool)
    ensures
        r == (a@ == b@),
{
    let na = a.unicode_len();
    let nb = b.unicode_len();
    if na != nb {
        return false;
    }
    let mut i: usize = 0;
    while i < na
        invariant
            i <= na,
            na == a@.len(),
            na == b@.len(),
            forall|j: int| 0 <= j < i ==> a@[j] == b@[j],
        decreases na - i,
    {
        if a.get_char(i) != b.get_char(i) {
            return false;
        }
        i = i + 1;
    }
    proof {
        assert(a@ =~= b@);
    }
    true
}

/// Every digit string has a non-negative value.
proof fn lemma_digits_val_nonneg(s: Seq<char>)
    requires
        forall|i: int| 0 <= i < s.len() ==> is_digit_char(s[i]),
    ensures
        digits_val(s) >= 0,
    decreases s.len(),
{
    if s.len() > 0 {
        lemma_digits_val_nonneg(s.drop_last());
    }
}

/// Parses `s` as `str::parse::<i32>` does: an optional single sign, then
/// one or more decimal digits, with the value within range.
pub fn parse_i32(s: &str) -> (r: Option<i32>)
    ensures
        r == spec_parse_i32(s@),
{
    let n = s.unicode_len();
    let mut start: usize = 0;
    let mut neg = false;
    if n > 0 {
        let c0 = s.get_char(0);
        if c0 == '+' {
            start = 1;
        } else if c0 == '-' {
            neg = true;
            start = 1;
        }
    }
    let ghost digits: Seq<char> = s@.subrange(start as int, n as int);
    proof {
        if start == 1 {
            assert(digits =~= s@.drop_first());
        } else {
            assert(digits =~= s@);
        }
    }
    if start == n {
        return None;
    }
    let mut acc: i64 = 0;
    let mut i: usize = start;
    while i < n
        invariant
            start <= i <= n,
            n == s@.len(),
            start < n,
            start <= 1,
            start == 1 <==> s@.len() > 0 && (s@[0] == '+' || s@[0] == '-'),
            neg <==> (start == 1 && s@[0] == '-'),
            digits == s@.subrange(start as int, n as int),
            forall|j: int| start <= j < i ==> is_digit_char(s@[j]),
            0 <= acc <= 2147483649i64,
            digits_val(s@.subrange(start as int, i as int)) <= 2147483648 ==> acc as int
                == digits_val(s@.subrange(start as int, i as int)),
            digits_val(s@.subrange(start as int, i as int)) > 2147483648 ==> acc == 2147483649i64,
        decreases n - i,
    {
        let c = s.get_char(i);
        let u = c as u32;
        if u < 48 || u > 57 {
            proof {
                assert(!is_digit_char(digits[i - start]));
            }
            return None;
        }
        let d: i64 = (u - 48) as i64;
        let ghost pre = s@.subrange(start as int, i as int);
        proof {
            assert(s@.subrange(start as int, i + 1) =~= pre.push(s@[i as int]));
            assert(s@.subrange(start as int, i + 1).drop_last() =~= pre);
            lemma_digits_val_nonneg(pre);
        }
        acc = acc * 10 + d;
        if acc > 2147483648i64 {
            acc = 2147483649i64;
        }
        i = i + 1;
    }
    proof {
        assert(digits == s@.subrange(start as int, n as int));
        assert(all_digits(digits));
        lemma_digits_val_nonneg(digits);
    }
    if neg {
        if acc <= 2147483648i64 {
            Some((-acc) as i32)
        } else {
            None
        }
    } else {
        if acc <= 2147483647i64 {
            Some(acc as i32)
        } else {
            None
        }
    }
}

/// The argument tokens: everything after the command name, cloned.
fn tail_args(parts: &Vec<String>) -> (r: Vec<String>)
    requires
        parts.len() >= 1,
    ensures
        r.deep_view() == parts.deep_view().drop_first(),
{
    let mut r: Vec<String> = Vec::new();
    let mut i: usize = 1;
    while i < parts.len()
        invariant
            1 <= i <= parts.len(),
            r.deep_view() == parts.deep_view().subrange(1, i as int),
        decreases parts.len() - i,
    {
        let ghost pre = r.deep_view();
        r.push(parts[i].clone());
        proof {
            assert(r.deep_view() =~= pre.push(parts@[i as int]@));
            assert(parts.deep_view().subrange(1, i + 1) =~= parts.deep_view().subrange(
                1,
                i as int,
            ).push(parts.deep_view()[i as int]));
        }
        i = i + 1;
    }
    proof {
        assert(parts.deep_view().subrange(1, parts.len() as int) =~= parts.deep_view().drop_first());
    }
    r
}

impl Commands {
    /// Whether `name` is a recognized built-in command name.
    pub fn is_builtin(name: &str) -> (r: bool)
        ensures
            r == spec_is_builtin(name@),
    {
        str_eq(name, "exit") || str_eq(name, "echo") || str_eq(name, "type") || str_eq(name, "pwd")
            || str_eq(name, "cd")
    }

    /// Parses one input line into a command variant, or the exact parse
    /// failure: an empty message for a line with no tokens (a silent
    /// no-op), and `type: missing argument` for a bare `type`.
    pub fn parse(input: &str) -> (r: Result<Commands, String>)
        ensures
            (r matches Ok(c) ==> spec_parse(spec_tokenize(input@)) == Ok::<
                CommandView,
                Seq<char>,
            >(c@)),
            (r matches Err(e) ==> spec_parse(spec_tokenize(input@)) == Err::<
                CommandView,
                Seq<char>,
            >(e@)),
    {
        let parts: Vec<String> = tokenize(input);
        let ghost toks = spec_tokenize(input@);
        if parts.len() == 0 {
            let empty_msg = String::new();
            proof {
                assert(toks.len() == 0);
                assert(empty_msg@ =~= Seq::<char>::empty());
            }
            return Err(empty_msg);
        }
        proof {
            assert(parts.deep_view()[0] == parts@[0]@);
        }
        let cmd = &parts[0];
        if str_eq(cmd.as_str(), "exit") {
            let code = if parts.len() > 1 {
                proof {
                    assert(parts.deep_view()[1] == parts@[1]@);
                    assert(toks.drop_first()[0] == toks[1]);
                }
                parse_i32(parts[1].as_str())
            } else {
                None
            };
            Ok(Commands::Exit(code))
        } else if str_eq(cmd.as_str(), "echo") {
            Ok(Commands::Echo(tail_args(&parts)))
        } else if str_eq(cmd.as_str(), "type") {
            if parts.len() > 1 {
                proof {
                    assert(parts.deep_view()[1] == parts@[1]@);
                    assert(toks.drop_first()[0] == toks[1]);
                }
                Ok(Commands::Type(parts[1].clone()))
            } else {
                Err(String::from_str("type: missing argument"))
            }
        } else if str_eq(cmd.as_str(), "cd") {
            if parts.len() > 1 {
                proof {
                    assert(parts.deep_view()[1] == parts@[1]@);
                    assert(toks.drop_first()[0] == toks[1]);
                }
                Ok(Commands::Cd(parts[1].clone()))
            } else {
                Ok(Commands::Cd(String::from_str("~")))
            }
        } else if str_eq(cmd.as_str(), "pwd") {
            Ok(Commands::Pwd())
        } else {
            Ok(Commands::External(parts[0].clone(), tail_args(&parts)))
        }
    }
}

} // verus!
