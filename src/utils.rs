//! Shell and tmux text helpers: checking tmux names, splitting an editor
//! command line, quoting arguments for tmux, and reading a yes/no reply.
use vstd::prelude::*;
use vstd::string::*;
pub use crate::error::Error;
pub use crate::paths::get_project_namespace;
use crate::store::views;
use vstd::std_specs::cmp::PartialEqSpec;

verus! {

#[verifier::external_type_specification]
#[verifier::external_body]
pub struct ExParseError(shell_words::ParseError);

/// The words that `shell_words::split` makes of a command line, or `None`
/// where it rejects the line (an unclosed quote or a trailing escape).
pub uninterp spec fn shell_split_of(s: Seq<char>) -> Option<Seq<Seq<char>>>;

/// What `shell_words::quote` makes of a string.
pub uninterp spec fn shell_quote_of(s: Seq<char>) -> Seq<char>;

/// Relies on `shell_words::split`: splits a command line into words by the
/// rules of the Unix shell; its result depends on the line alone.
#[verifier::external_body]
fn split_words(s: &str) -> (r: Result<Vec<String>, shell_words::ParseError>)
    ensures
        match r {
            Ok(words) => shell_split_of(s@) == Some(views(words@)),
            Err(_) => shell_split_of(s@) is None,
        },
{
    shell_words::split(s)
}

/// Relies on `shell_words::quote`: escapes a string so that the shell reads
/// it as one literal word; its result depends on the string alone.
#[verifier::external_body]
fn shell_quote(s: &str) -> (r: String)
    ensures
        r@ == shell_quote_of(s@),
{
    shell_words::quote(s).into_owned()
}

/// A character that tmux does not accept in a session or window name.
pub open spec fn tmux_illegal(c: char) -> bool {
    c == '.' || c == ':'
}

/// Checks a tmux session or window name: it holds neither `.` nor `:` and
/// is not empty. Illegal characters are reported first.
pub fn valid_tmux_identifier(identifier: &str) -> (r: Result<(), Error>)
    ensures
        (exists|i: int| 0 <= i < identifier@.len() && tmux_illegal(#[trigger] identifier@[i]))
            ==> match r {
            Err(Error::TmuxIdentifierIllegalCharacters { identifier: id }) => id@ == identifier@,
            _ => false,
        },
        (forall|i: int| 0 <= i < identifier@.len() ==> !tmux_illegal(#[trigger] identifier@[i]))
            ==> if identifier@.len() == 0 {
            r matches Err(Error::TmuxIdentifierEmpty {  })
        } else {
            r is Ok
        },
{
    let n = identifier.unicode_len();
    let mut i: usize = 0;
    while i < n
        invariant
            n == identifier@.len(),
            i <= n,
            forall|j: int| 0 <= j < i ==> !tmux_illegal(#[trigger] identifier@[j]),
        decreases n - i,
    {
        let c = identifier.get_char(i);
        if c == '.' || c == ':' {
            return Err(
                Error::TmuxIdentifierIllegalCharacters { identifier: String::from_str(identifier) },
            );
        }
        i = i + 1;
    }
    if n == 0 {
        return Err(Error::TmuxIdentifierEmpty {  });
    }
    Ok(())
}

/// `r` is the program and arguments that the words `all` make: the first
/// word is the program, the rest its arguments; no word at all is an empty
/// command.
pub open spec fn command_of(all: Seq<Seq<char>>, r: Result<(String, Vec<String>), Error>) -> bool {
    if all.len() == 0 {
        r matches Err(Error::EmptyCommand {  })
    } else {
        match r {
            Ok((program, rest)) => program@ == all[0] && views(rest@) == all.skip(1),
            Err(_) => false,
        }
    }
}

/// The contents of a list of string slices.
pub open spec fn str_views(args: Seq<&str>) -> Seq<Seq<char>> {
    args.map_values(|a: &str| a@)
}

/// Makes a program and its arguments of the words of a command line
/// followed by the extra arguments `args`.
pub fn assemble_command(words: Vec<String>, args: &[&str]) -> (r: Result<(String, Vec<String>), Error>)
    ensures
        command_of(views(words@) + str_views(args@), r),
{
    let ghost all = views(words@) + str_views(args@);
    let mut parts: Vec<String> = words;
    let mut i: usize = 0;
    while i < args.len()
        invariant
            i <= args@.len(),
            all == views(words@) + str_views(args@),
            views(parts@) == views(words@) + str_views(args@).take(i as int),
        decreases args@.len() - i,
    {
        let ghost before = parts@;
        let a = String::from_str(args[i]);
        parts.push(a);
        proof {
            assert(views(parts@) =~= views(before).push(a@));
            assert(str_views(args@).take(i + 1) =~= str_views(args@).take(i as int).push(a@));
            assert(views(parts@) =~= views(words@) + str_views(args@).take(i + 1));
        }
        i = i + 1;
    }
    proof {
        assert(str_views(args@).take(i as int) =~= str_views(args@));
    }
    if parts.len() == 0 {
        return Err(Error::EmptyCommand {  });
    }
    let ghost before = parts@;
    let program = parts.remove(0);
    proof {
        assert(views(parts@) =~= views(before).skip(1));
    }
    Ok((program, parts))
}

/// Splits the command line `command` by the shell's rules and appends
/// `args`: the first word is the program to run, the rest its arguments.
pub fn parse_command(command: &str, args: &[&str]) -> (r: Result<(String, Vec<String>), Error>)
    ensures
        command@.len() == 0 ==> r matches Err(Error::EmptyCommand {  }),
        command@.len() > 0 ==> match shell_split_of(command@) {
            None => r matches Err(Error::InvalidCommand {  }),
            Some(words) => command_of(words + str_views(args@), r),
        },
{
    if command.unicode_len() == 0 {
        return Err(Error::EmptyCommand {  });
    }
    match split_words(command) {
        Ok(words) => assemble_command(words, args),
        Err(_) => Err(Error::InvalidCommand {  }),
    }
}

/// How the shell quoting escapes a single quote inside a quoted word.
pub open spec fn shell_escaped_quote() -> Seq<char> {
    seq!['\'', '\\', '\'', '\'']
}

/// How tmux needs that quote escaped instead.
pub open spec fn tmux_escaped_quote() -> Seq<char> {
    seq!['\'', '"', '\'', '"', '\'']
}

/// `s` with each escaped quote of the shell, from left to right and without
/// overlap, written the way tmux reads it.
pub open spec fn requoted(s: Seq<char>) -> Seq<char>
    decreases s.len(),
{
    if s.len() == 0 {
        s
    } else if s.len() >= 4 && s.subrange(0, 4) == shell_escaped_quote() {
        tmux_escaped_quote() + requoted(s.subrange(4, s.len() as int))
    } else {
        seq![s[0]] + requoted(s.subrange(1, s.len() as int))
    }
}

/// A word quoted for a tmux command line.
pub open spec fn tmux_quoted(s: Seq<char>) -> Seq<char> {
    requoted(shell_quote_of(s))
}

/// Words separated by single spaces.
pub open spec fn joined_words(ws: Seq<Seq<char>>) -> Seq<char>
    decreases ws.len(),
{
    if ws.len() == 0 {
        Seq::empty()
    } else if ws.len() == 1 {
        ws[0]
    } else {
        joined_words(ws.drop_last()) + seq![' '] + ws.last()
    }
}

/// Rewrites the shell's escaped quotes of an already quoted word into the
/// form that tmux reads.
pub fn requote(s: &str) -> (r: String)
    ensures
        r@ == requoted(s@),
{
    let n = s.unicode_len();
    let rep = "'\"'\"'";
    proof {
        reveal_strlit("'\"'\"'");
        assert(rep@ =~= tmux_escaped_quote());
    }
    let mut out = String::new();
    let mut i: usize = 0;
    proof {
        assert(s@.subrange(0, n as int) =~= s@);
        assert(out@ + requoted(s@.subrange(0, n as int)) =~= requoted(s@));
    }
    while i < n
        invariant
            n == s@.len(),
            i <= n,
            rep@ == tmux_escaped_quote(),
            out@ + requoted(s@.subrange(i as int, n as int)) == requoted(s@),
        decreases n - i,
    {
        let ghost rest = s@.subrange(i as int, n as int);
        let ghost before = out@;
        if n - i >= 4 && s.get_char(i) == '\'' && s.get_char(i + 1) == '\\' && s.get_char(i + 2)
            == '\'' && s.get_char(i + 3) == '\'' {
            out.append(rep);
            proof {
                assert(rest.subrange(0, 4) =~= shell_escaped_quote());
                assert(rest.subrange(4, rest.len() as int) =~= s@.subrange(i + 4, n as int));
                assert(out@ + requoted(s@.subrange(i + 4, n as int)) =~= before + requoted(rest));
            }
            i = i + 4;
        } else {
            let c = s.substring_char(i, i + 1);
            out.append(c);
            proof {
                if rest.len() >= 4 && rest.subrange(0, 4) == shell_escaped_quote() {
                    assert(rest[0] == rest.subrange(0, 4)[0]);
                    assert(rest[1] == rest.subrange(0, 4)[1]);
                    assert(rest[2] == rest.subrange(0, 4)[2]);
                    assert(rest[3] == rest.subrange(0, 4)[3]);
                }
                assert(c@ =~= seq![rest[0]]);
                assert(rest.subrange(1, rest.len() as int) =~= s@.subrange(i + 1, n as int));
                assert(out@ + requoted(s@.subrange(i + 1, n as int)) =~= before + requoted(rest));
            }
            i = i + 1;
        }
    }
    proof {
        assert(out@ =~= out@ + requoted(s@.subrange(i as int, n as int)));
    }
    out
}

/// Quotes one argument for a tmux command line.
pub fn tmux_quote(part: &str) -> (r: String)
    ensures
        r@ == tmux_quoted(part@),
{
    let quoted = shell_quote(part);
    requote(quoted.as_str())
}

/// Quotes each argument for tmux and joins them with single spaces.
pub fn tmux_join(parts: &[&str]) -> (r: String)
    ensures
        r@ == joined_words(parts@.map_values(|p: &str| tmux_quoted(p@))),
{
    let ghost ws = parts@.map_values(|p: &str| tmux_quoted(p@));
    let mut out = String::new();
    let mut i: usize = 0;
    while i < parts.len()
        invariant
            i <= parts@.len(),
            ws == parts@.map_values(|p: &str| tmux_quoted(p@)),
            out@ == joined_words(ws.take(i as int)),
        decreases parts@.len() - i,
    {
        let q = tmux_quote(parts[i]);
        proof {
            assert(ws.take(i + 1).drop_last() =~= ws.take(i as int));
        }
        if i > 0 {
            let sp = " ";
            proof {
                reveal_strlit(" ");
            }
            out.append(sp);
            proof {
                assert(out@ =~= joined_words(ws.take(i as int)) + seq![' ']);
            }
        } else {
            proof {
                assert(joined_words(ws.take(1)) == ws.take(1)[0]);
                assert(out@ =~= Seq::<char>::empty());
            }
        }
        out.append(q.as_str());
        proof {
            assert(out@ =~= joined_words(ws.take(i + 1)));
        }
        i = i + 1;
    }
    proof {
        assert(ws.take(i as int) =~= ws);
    }
    out
}

/// Whether `t` equals its type's default value.
pub fn is_default<T: Default + PartialEq>(t: &T) -> (r: bool)
    ensures
        T::obeys_eq_spec() ==> exists|d: T| call_ensures(T::default, (), d) && r == t.eq_spec(&d),
{
    let d = T::default();
    t.eq(&d)
}

/// The hint shown after a yes/no question: the default answer in capitals.
pub fn reply_hint(default: bool) -> (r: &'static str)
    ensures
        r@ == if default {
            seq!['Y', '/', 'n']
        } else {
            seq!['y', '/', 'N']
        },
{
    proof {
        reveal_strlit("Y/n");
        reveal_strlit("y/N");
    }
    if default {
        "Y/n"
    } else {
        "y/N"
    }
}

/// The answer that the key `reply` gives to a yes/no question: Enter takes
/// the default, and only `y` or `Y` means yes.
pub fn confirmation_reply(reply: char, default: bool) -> (r: bool)
    ensures
        r == if reply == '\n' {
            default
        } else {
            reply == 'y' || reply == 'Y'
        },
{
    if reply == '\n' {
        default
    } else {
        reply == 'y' || reply == 'Y'
    }
}

} // verus!
