//! Decision functions of the executor: the exact lines the interpreter
//! prints and the exact exit statuses it propagates.
//!
//! The side effects themselves — printing, changing directory, spawning
//! a child process, terminating — are performed by the surrounding
//! program; everything it prints or does it first obtains from one of
//! these functions, whose contracts fix the wire format and the status
//! codes for every input.

use vstd::prelude::*;

use crate::command::Commands;
use crate::command::spec_is_builtin;
use crate::resolver::is_candidate_path;
use crate::tokenizer::spec_join_space;

verus! {

/// The exit status requested by `exit`: the given code, or 0 for none.
pub fn exit_status(code: Option<i32>) -> (r: i32)
    ensures
        r == (match code {
            Some(c) => c,
            None => 0i32,
        }),
{
    match code {
        Some(c) => c,
        None => 0,
    }
}

/// What the interpreter does after a spawned command finishes: `None`
/// to continue the loop, or the exit status it must itself terminate
/// with.  A child that failed without a code propagates 1.
pub fn external_exit_code(success: bool, code: Option<i32>) -> (r: Option<i32>)
    ensures
        success ==> r is None,
        !success ==> r == Some(
            match code {
                Some(c) => c,
                None => 1i32,
            },
        ),
{
    if success {
        None
    } else {
        match code {
            Some(c) => Some(c),
            None => Some(1),
        }
    }
}

/// Appending one more token to a space-joined line.
proof fn lemma_join_snoc(ts: Seq<Seq<char>>, t: Seq<char>)
    ensures
        spec_join_space(ts.push(t)) == (if ts.len() == 0 {
            t
        } else {
            spec_join_space(ts) + seq![' '] + t
        }),
    decreases ts.len(),
{
    if ts.len() == 0 {
        assert(ts.push(t)[0] == t);
    } else if ts.len() == 1 {
        assert(ts.push(t)[0] == ts[0]);
        assert(ts.push(t).drop_first() =~= seq![t]);
        assert(spec_join_space(seq![t]) == t);
        assert(spec_join_space(ts) == ts[0]);
    } else {
        assert(ts.push(t)[0] == ts[0]);
        assert(ts.push(t).drop_first() =~= ts.drop_first().push(t));
        lemma_join_snoc(ts.drop_first(), t);
        assert(ts.drop_first().len() > 0);
        assert((ts[0] + seq![' ']) + (spec_join_space(ts.drop_first()) + seq![' '] + t) =~= ((ts[0]
            + seq![' ']) + spec_join_space(ts.drop_first())) + seq![' '] + t);
    }
}

/// The line `echo` prints: its arguments joined with single spaces.
pub fn echo_line(args: &Vec<String>) -> (r: String)
    ensures
        r@ == spec_join_space(args.deep_view()),
{
    let mut out = String::new();
    let mut i: usize = 0;
    while i < args.len()
        invariant
            i <= args.len(),
            out@ == spec_join_space(args.deep_view().subrange(0, i as int)),
        decreases args.len() - i,
    {
        let ghost pre = args.deep_view().subrange(0, i as int);
        if i > 0 {
            out.append(" ");
        }
        out.append(args[i].as_str());
        proof {
            reveal_strlit(" ");
            assert(" "@ =~= seq![' ']);
            assert(args.deep_view()[i as int] == args@[i as int]@);
            assert(args.deep_view().subrange(0, i + 1) =~= pre.push(args.deep_view()[i as int]));
            lemma_join_snoc(pre, args.deep_view()[i as int]);
            if i > 0 {
                assert(out@ =~= spec_join_space(pre) + seq![' '] + args@[i as int]@);
            } else {
                assert(pre.len() == 0);
                assert(spec_join_space(pre) =~= Seq::<char>::empty());
            }
        }
        i = i + 1;
    }
    proof {
        assert(args.deep_view().subrange(0, args.len() as int) =~= args.deep_view());
    }
    out
}

/// The exact `not found` line for an unresolvable command name.
pub fn not_found_line(name: &str) -> (r: String)
    ensures
        r@ == name@ + ": not found"@,
{
    String::from_str(name).concat(": not found")
}

/// The exact line `type` prints for `name`, given the resolver's
/// answer.  Built-in status takes precedence over any identically-named
/// executable: the built-in line holds whatever `resolved` is.
pub fn type_line(name: &str, resolved: &Option<String>) -> (r: String)
    ensures
        spec_is_builtin(name@) ==> r@ == name@ + " is a shell builtin"@,
        !spec_is_builtin(name@) ==> (match resolved {
            Some(p) => r@ == name@ + " is "@ + p@,
            None => r@ == name@ + ": not found"@,
        }),
{
    if Commands::is_builtin(name) {
        String::from_str(name).concat(" is a shell builtin")
    } else {
        match resolved {
            Some(p) => String::from_str(name).concat(" is ").concat(p.as_str()),
            None => not_found_line(name),
        }
    }
}

/// The whole `type` built-in for `name`: a built-in is reported as such
/// whatever the search path holds; anything else is resolved against
/// `path_var` and reported either with the resolved candidate path or
/// as not found.
pub fn run_type(name: &str, path_var: &str) -> (r: String)
    ensures
        spec_is_builtin(name@) ==> r@ == name@ + " is a shell builtin"@,
        !spec_is_builtin(name@) ==> (r@ == name@ + ": not found"@ || exists|p: Seq<char>|
            #[trigger] is_candidate_path(p, name@, path_var@) && r@ == name@ + " is "@ + p),
{
    let resolved = if Commands::is_builtin(name) {
        None
    } else {
        Commands::find_cmd(name, path_var)
    };
    proof {
        if !spec_is_builtin(name@) && resolved is Some {
            assert(is_candidate_path(resolved.unwrap()@, name@, path_var@));
        }
    }
    type_line(name, &resolved)
}

/// Whether the `cd` target begins with the home-directory shorthand.
pub open spec fn needs_home(path: Seq<char>) -> bool {
    path == "~"@ || (path.len() >= 2 && path[0] == '~' && path[1] == '/')
}

/// The literal target after resolving the shorthand against home `h`:
/// a bare `~` becomes `h`, and a `~/` prefix is replaced by `h`.
pub open spec fn spec_cd_target(path: Seq<char>, h: Seq<char>) -> Seq<char> {
    if path == "~"@ {
        h
    } else {
        h + path.drop_first()
    }
}

/// The directory `cd` must change to.  `~` and `~/...` resolve against
/// the home directory; any other target passes through literally.
/// `None` means the home directory was needed but is unavailable, and
/// the operation must abort without changing directory.
pub fn resolve_cd_target(path: &str, home: &Option<String>) -> (r: Option<String>)
    ensures
        needs_home(path@) ==> (match home {
            Some(h) => r matches Some(t) && t@ == spec_cd_target(path@, h@),
            None => r is None,
        }),
        !needs_home(path@) ==> (r matches Some(t) && t@ == path@),
{
    let n = path.unicode_len();
    if n >= 1 && path.get_char(0) == '~' {
        if n == 1 {
            proof {
                reveal_strlit("~");
                assert(path@ =~= "~"@);
            }
            match home {
                Some(h) => Some(h.clone()),
                None => None,
            }
        } else if path.get_char(1) == '/' {
            proof {
                reveal_strlit("~");
                assert(path@ != "~"@);
            }
            match home {
                Some(h) => {
                    let rest = path.substring_char(1, n);
                    proof {
                        assert(rest@ =~= path@.drop_first());
                    }
                    Some(h.clone().concat(rest))
                },
                None => None,
            }
        } else {
            proof {
                reveal_strlit("~");
                assert(path@ != "~"@);
            }
            Some(String::from_str(path))
        }
    } else {
        proof {
            reveal_strlit("~");
            if n >= 1 {
                assert(path@ != "~"@);
            }
        }
        Some(String::from_str(path))
    }
}

/// The exact error line when changing directory fails: a missing target
/// gets the fixed wording, any other failure carries its message.
pub fn cd_error_line(target: &str, not_found: bool, msg: &str) -> (r: String)
    ensures
        not_found ==> r@ == "cd: "@ + target@ + ": No such file or directory"@,
        !not_found ==> r@ == "cd: "@ + target@ + ": "@ + msg@,
{
    if not_found {
        String::from_str("cd: ").concat(target).concat(": No such file or directory")
    } else {
        String::from_str("cd: ").concat(target).concat(": ").concat(msg)
    }
}

/// The exact error line when the home directory is unavailable to `cd`.
pub fn cd_home_error_line(msg: &str) -> (r: String)
    ensures
        r@ == "cd: HOME: "@ + msg@,
{
    String::from_str("cd: HOME: ").concat(msg)
}

/// The exact error line for the fatal failure to query the working
/// directory.
pub fn pwd_error_line(msg: &str) -> (r: String)
    ensures
        r@ == "pwd: "@ + msg@,
{
    String::from_str("pwd: ").concat(msg)
}

/// The exact error line when spawning a resolved command still fails.
pub fn spawn_error_line(name: &str, msg: &str) -> (r: String)
    ensures
        r@ == name@ + ": "@ + msg@,
{
    String::from_str(name).concat(": ").concat(msg)
}

} // verus!
