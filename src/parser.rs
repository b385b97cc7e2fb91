use vstd::prelude::*;

use crate::command::{
    insert_option, insert_parameter, pair_map, string_seqs, string_set, Command, CommandView,
};
use crate::error::ParseError;

verus! {

/// Where the parser stands between two characters.
#[derive(Debug, Clone, Copy, PartialEq, Eq, Structural)]
pub enum ParseState {
    /// Before the first character, which must be the prefix.
    Prefix,
    /// Reading the command name.
    Name,
    /// Between tokens.
    Default,
    /// Reading an unquoted argument.
    Argument,
    /// Reading a quoted argument.
    LongArgument,
    /// Right after a backslash in a quoted argument.
    EscapeLongArg,
    /// Reading a flag, or the key of a parameter.
    OptionToken,
    /// Right after the `:` of a parameter.
    ParamConnector,
    /// Reading an unquoted parameter value.
    ParamVal,
    /// Reading a quoted parameter value.
    ParamLongVal,
    /// Right after a backslash in a quoted parameter value.
    EscapeLongParamVal,
}

/// What a parse has built after some prefix of its input: the state, the
/// parts committed so far, the token being read and the pending parameter key.
pub struct Progress {
    pub state: ParseState,
    pub command: CommandView,
    pub buffer: Seq<char>,
    pub key: Seq<char>,
}

/// The progress before any character is read.
pub open spec fn initial_progress(prefix: char, option_prefix: char) -> Progress {
    Progress {
        state: ParseState::Prefix,
        command: CommandView {
            prefix,
            option_prefix,
            name: Seq::empty(),
            arguments: Seq::empty(),
            options: Set::empty(),
            parameters: Map::empty(),
        },
        buffer: Seq::empty(),
        key: Seq::empty(),
    }
}

/// `p` moved to state `s`.
pub open spec fn goto(p: Progress, s: ParseState) -> Progress {
    Progress { state: s, ..p }
}

/// `p` with `c` appended to the token buffer.
pub open spec fn append(p: Progress, c: char) -> Progress {
    Progress { buffer: p.buffer.push(c), ..p }
}

/// The buffer committed as the next argument; back between tokens.
pub open spec fn commit_argument(p: Progress) -> Progress {
    Progress {
        state: ParseState::Default,
        command: CommandView { arguments: p.command.arguments.push(p.buffer), ..p.command },
        buffer: Seq::empty(),
        ..p
    }
}

/// The buffer committed as a flag; back between tokens.
pub open spec fn commit_option(p: Progress) -> Progress {
    Progress {
        state: ParseState::Default,
        command: CommandView { options: p.command.options.insert(p.buffer), ..p.command },
        buffer: Seq::empty(),
        ..p
    }
}

/// The pending key given the buffer as its value; back between tokens.
pub open spec fn commit_parameter(p: Progress) -> Progress {
    Progress {
        state: ParseState::Default,
        command: CommandView {
            parameters: p.command.parameters.insert(p.key, p.buffer),
            ..p.command
        },
        buffer: Seq::empty(),
        key: Seq::empty(),
    }
}

/// One transition: the parser in progress `p` reads character `c` at position `i`.
pub open spec fn step(prefix: char, option_prefix: char, p: Progress, i: int, c: char) -> Result<
    Progress,
    ParseError,
> {
    match p.state {
        ParseState::Prefix => if c == prefix {
            Ok(goto(p, ParseState::Name))
        } else {
            Err(ParseError::PrefixError(i as usize, c))
        },
        ParseState::Name => if c == ' ' {
            if i == 1 {
                Err(ParseError::NameError(i as usize, c))
            } else {
                Ok(goto(p, ParseState::Default))
            }
        } else {
            Ok(Progress { command: CommandView { name: p.command.name.push(c), ..p.command }, ..p })
        },
        ParseState::Default => if c == ' ' {
            Ok(p)
        } else if c == '"' {
            Ok(goto(p, ParseState::LongArgument))
        } else if c == option_prefix {
            Ok(goto(p, ParseState::OptionToken))
        } else {
            Ok(goto(append(p, c), ParseState::Argument))
        },
        ParseState::Argument => if c == ' ' {
            Ok(commit_argument(p))
        } else {
            Ok(append(p, c))
        },
        ParseState::LongArgument => if c == '"' {
            Ok(commit_argument(p))
        } else if c == '\\' {
            Ok(goto(p, ParseState::EscapeLongArg))
        } else {
            Ok(append(p, c))
        },
        ParseState::EscapeLongArg => if c == '"' || c == '\\' {
            Ok(goto(append(p, c), ParseState::LongArgument))
        } else {
            Err(ParseError::EscapeError(i as usize, c))
        },
        ParseState::OptionToken => if c == ' ' {
            Ok(commit_option(p))
        } else if c == ':' {
            Ok(Progress { state: ParseState::ParamConnector, key: p.buffer, buffer: Seq::empty(), ..p })
        } else {
            Ok(append(p, c))
        },
        ParseState::ParamConnector => if c == '"' {
            Ok(goto(p, ParseState::ParamLongVal))
        } else if c == ' ' {
            Ok(commit_parameter(p))
        } else {
            Ok(goto(append(p, c), ParseState::ParamVal))
        },
        ParseState::ParamVal => if c == ' ' {
            Ok(commit_parameter(p))
        } else {
            Ok(append(p, c))
        },
        ParseState::ParamLongVal => if c == '"' {
            Ok(commit_parameter(p))
        } else if c == '\\' {
            Ok(goto(p, ParseState::EscapeLongParamVal))
        } else {
            Ok(append(p, c))
        },
        ParseState::EscapeLongParamVal => if c == '"' || c == '\\' {
            Ok(goto(append(p, c), ParseState::ParamLongVal))
        } else {
            Err(ParseError::EscapeError(i as usize, c))
        },
    }
}

/// The parser run over all of `s`, stopping at the first error.
pub open spec fn run(prefix: char, option_prefix: char, s: Seq<char>) -> Result<
    Progress,
    ParseError,
>
    decreases s.len(),
{
    if s.len() == 0 {
        Ok(initial_progress(prefix, option_prefix))
    } else {
        match run(prefix, option_prefix, s.drop_last()) {
            Ok(p) => step(prefix, option_prefix, p, s.len() - 1, s.last()),
            Err(e) => Err(e),
        }
    }
}

/// The result of parsing `s`: what was committed when the input ran out
/// (a token still being read is dropped), or the first error.
pub open spec fn parse_result(prefix: char, option_prefix: char, s: Seq<char>) -> Result<
    CommandView,
    ParseError,
> {
    match run(prefix, option_prefix, s) {
        Ok(p) => Ok(p.command),
        Err(e) => Err(e),
    }
}


/// Relies on `String::push`: appends the character to the end of the string.
#[verifier::external_body]
fn push_char(s: &mut String, c: char)
    ensures
        final(s)@ == old(s)@.push(c),
{
    s.push(c);
}

/// Moves the characters out of `s`, leaving it empty.
fn take_string(s: &mut String) -> (r: String)
    ensures
        r@ == old(s)@,
        final(s)@ == Seq::<char>::empty(),
{
    let mut r = String::new();
    std::mem::swap(&mut r, s);
    r
}

/// The exec counterpart of [`Progress`].
struct Pending {
    state: ParseState,
    command: Command,
    buffer: String,
    key: String,
}

impl View for Pending {
    type V = Progress;

    closed spec fn view(&self) -> Progress {
        Progress {
            state: self.state,
            command: self.command@,
            buffer: self.buffer@,
            key: self.key@,
        }
    }
}

/// Turns lines of text into [`Command`]s.
///
/// A line reads `<prefix><name> <arg> "<quoted arg>" <option_prefix><flag>
/// <option_prefix><key>:<value> <option_prefix><key>:"<quoted value>"`.
/// Inside quotes `\"` stands for `"` and `\\` for `\`.
#[derive(Debug)]
pub struct Parser {
    /// The character that opens a command. A space is a poor choice, as chat
    /// transports often trim leading spaces.
    pub prefix: char,
    /// The character that opens a flag or a parameter. Neither a space nor `"`
    /// gives the expected results.
    pub option_prefix: char,
}

impl Parser {
    pub fn new(prefix: char, option_prefix: char) -> (r: Parser)
        ensures
            r.prefix == prefix,
            r.option_prefix == option_prefix,
    {
        Parser { prefix, option_prefix }
    }

    /// Commits the buffer as the next argument.
    fn commit_argument(acc: &mut Pending)
        requires
            old(acc).command.well_formed(),
        ensures
            final(acc)@ == commit_argument(old(acc)@),
            final(acc).command.well_formed(),
    {
        let b = take_string(&mut acc.buffer);
        acc.command.arguments.push(b);
        acc.state = ParseState::Default;
        assert(string_seqs(acc.command.arguments@) =~= string_seqs(old(acc).command.arguments@).push(
            old(acc).buffer@,
        ));
        assert(acc@ == commit_argument(old(acc)@));
    }

    /// Commits the buffer as a flag.
    fn commit_option(acc: &mut Pending)
        requires
            old(acc).command.well_formed(),
        ensures
            final(acc)@ == commit_option(old(acc)@),
            final(acc).command.well_formed(),
    {
        let b = take_string(&mut acc.buffer);
        insert_option(&mut acc.command.options, b);
        acc.state = ParseState::Default;
    }

    /// Commits the pending key with the buffer as its value.
    fn commit_parameter(acc: &mut Pending)
        requires
            old(acc).command.well_formed(),
        ensures
            final(acc)@ == commit_parameter(old(acc)@),
            final(acc).command.well_formed(),
    {
        let k = take_string(&mut acc.key);
        let v = take_string(&mut acc.buffer);
        insert_parameter(&mut acc.command.parameters, k, v);
        acc.state = ParseState::Default;
    }

    /// Reads character `c` at position `cursor`.
    fn step(&self, acc: &mut Pending, cursor: usize, c: char) -> (r: Result<(), ParseError>)
        requires
            old(acc).command.well_formed(),
        ensures
            match step(self.prefix, self.option_prefix, old(acc)@, cursor as int, c) {
                Ok(p) => r is Ok && final(acc)@ == p && final(acc).command.well_formed(),
                Err(e) => r == Err::<(), ParseError>(e),
            },
    {
        match acc.state {
            ParseState::Prefix => {
                if c == self.prefix {
                    acc.state = ParseState::Name;
                } else {
                    return Err(ParseError::PrefixError(cursor, c));
                }
            },
            ParseState::Name => {
                if c == ' ' {
                    if cursor == 1 {
                        return Err(ParseError::NameError(cursor, c));
                    } else {
                        acc.state = ParseState::Default;
                    }
                } else {
                    push_char(&mut acc.command.name, c);
                }
            },
            ParseState::Default => {
                if c == ' ' {
                } else if c == '"' {
                    acc.state = ParseState::LongArgument;
                } else if c == self.option_prefix {
                    acc.state = ParseState::OptionToken;
                } else {
                    push_char(&mut acc.buffer, c);
                    acc.state = ParseState::Argument;
                }
            },
            ParseState::Argument => {
                if c == ' ' {
                    Self::commit_argument(acc);
                } else {
                    push_char(&mut acc.buffer, c);
                }
            },
            ParseState::LongArgument => {
                if c == '"' {
                    Self::commit_argument(acc);
                } else if c == '\\' {
                    acc.state = ParseState::EscapeLongArg;
                } else {
                    push_char(&mut acc.buffer, c);
                }
            },
            ParseState::EscapeLongArg => {
                if c == '"' || c == '\\' {
                    push_char(&mut acc.buffer, c);
                    acc.state = ParseState::LongArgument;
                } else {
                    return Err(ParseError::EscapeError(cursor, c));
                }
            },
            ParseState::OptionToken => {
                if c == ' ' {
                    Self::commit_option(acc);
                } else if c == ':' {
                    acc.key = take_string(&mut acc.buffer);
                    acc.state = ParseState::ParamConnector;
                } else {
                    push_char(&mut acc.buffer, c);
                }
            },
            ParseState::ParamConnector => {
                if c == '"' {
                    acc.state = ParseState::ParamLongVal;
                } else if c == ' ' {
                    Self::commit_parameter(acc);
                } else {
                    push_char(&mut acc.buffer, c);
                    acc.state = ParseState::ParamVal;
                }
            },
            ParseState::ParamVal => {
                if c == ' ' {
                    Self::commit_parameter(acc);
                } else {
                    push_char(&mut acc.buffer, c);
                }
            },
            ParseState::ParamLongVal => {
                if c == '"' {
                    Self::commit_parameter(acc);
                } else if c == '\\' {
                    acc.state = ParseState::EscapeLongParamVal;
                } else {
                    push_char(&mut acc.buffer, c);
                }
            },
            ParseState::EscapeLongParamVal => {
                if c == '"' || c == '\\' {
                    push_char(&mut acc.buffer, c);
                    acc.state = ParseState::ParamLongVal;
                } else {
                    return Err(ParseError::EscapeError(cursor, c));
                }
            },
        }
        Ok(())
    }

    /// Parses `raw` into a [`Command`], or reports the first error with its
    /// character position. A token that is still unterminated (by a space or
    /// a closing quote) when the input ends is dropped.
    pub fn parse(&self, raw: &str) -> (r: Result<Command, ParseError>)
        requires
            raw@.len() <= usize::MAX,
        ensures
            match parse_result(self.prefix, self.option_prefix, raw@) {
                Ok(v) => r is Ok && r->Ok_0@ == v && r->Ok_0.well_formed(),
                Err(e) => r == Err::<Command, ParseError>(e),
            },
    {
        let mut acc = Pending {
            state: ParseState::Prefix,
            command: Command::new(
                self.prefix,
                self.option_prefix,
                String::new(),
                Vec::new(),
                Vec::new(),
                Vec::new(),
            ),
            buffer: String::new(),
            key: String::new(),
        };
        assert(string_seqs(acc.command.arguments@) =~= Seq::empty());
        assert(string_set(acc.command.options@) =~= Set::empty());
        assert(pair_map(acc.command.parameters@) =~= Map::empty());
        assert(raw@.take(0) =~= Seq::<char>::empty());
        let mut cursor: usize = 0;
        for c in it: raw.chars()
            invariant
                it.seq() == raw@,
                cursor == it.index(),
                raw@.len() <= usize::MAX,
                acc.command.well_formed(),
                run(self.prefix, self.option_prefix, raw@.take(cursor as int)) == Ok::<
                    Progress,
                    ParseError,
                >(acc@),
        {
            assert(raw@.take(cursor + 1).drop_last() =~= raw@.take(cursor as int));
            match self.step(&mut acc, cursor, c) {
                Ok(()) => {},
                Err(e) => {
                    proof {
                        lemma_error_persists(self.prefix, self.option_prefix, raw@, cursor + 1);
                    }
                    return Err(e);
                },
            }
            cursor = cursor + 1;
        }
        assert(raw@.take(cursor as int) =~= raw@);
        Ok(acc.command)
    }
}

/// Once a prefix of the input has failed, the whole input fails the same way.
pub proof fn lemma_error_persists(prefix: char, option_prefix: char, s: Seq<char>, k: int)
    requires
        0 <= k <= s.len(),
        run(prefix, option_prefix, s.take(k)) is Err,
    ensures
        run(prefix, option_prefix, s) == run(prefix, option_prefix, s.take(k)),
    decreases s.len(),
{
    if k == s.len() {
        assert(s.take(k) =~= s);
    } else {
        assert(s.drop_last().take(k) =~= s.take(k));
        lemma_error_persists(prefix, option_prefix, s.drop_last(), k);
    }
}

} // verus!
