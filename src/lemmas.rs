use vstd::prelude::*;

use crate::command::CommandView;
use crate::error::ParseError;
use crate::parser::{initial_progress, lemma_error_persists, parse_result, run, ParseState, Progress};

verus! {

/// A line whose first character is not the prefix fails at position 0,
/// reporting that character.
pub proof fn lemma_missing_prefix_fails(prefix: char, option_prefix: char, s: Seq<char>)
    requires
        s.len() > 0,
        s[0] != prefix,
    ensures
        parse_result(prefix, option_prefix, s) == Err::<CommandView, ParseError>(
            ParseError::PrefixError(0, s[0]),
        ),
{
    assert(s.take(1).drop_last() =~= Seq::<char>::empty());
    assert(run(prefix, option_prefix, s.take(1).drop_last()) == Ok::<Progress, ParseError>(
        initial_progress(prefix, option_prefix),
    ));
    assert(s.take(1).last() == s[0]);
    lemma_error_persists(prefix, option_prefix, s, 1);
}

/// A line whose prefix is followed right away by a space fails at position 1
/// with a name error.
pub proof fn lemma_empty_name_fails(prefix: char, option_prefix: char, s: Seq<char>)
    requires
        s.len() >= 2,
        s[0] == prefix,
        s[1] == ' ',
    ensures
        parse_result(prefix, option_prefix, s) == Err::<CommandView, ParseError>(
            ParseError::NameError(1, ' '),
        ),
{
    assert(s.take(1).drop_last() =~= Seq::<char>::empty());
    assert(run(prefix, option_prefix, s.take(1).drop_last()) == Ok::<Progress, ParseError>(
        initial_progress(prefix, option_prefix),
    ));
    assert(s.take(1).last() == s[0]);
    assert(s.take(2).drop_last() =~= s.take(1));
    assert(s.take(2).last() == s[1]);
    assert(run(prefix, option_prefix, s.take(1))->Ok_0.state == ParseState::Name);
    lemma_error_persists(prefix, option_prefix, s, 2);
}

/// A backslash inside a quoted argument or a quoted parameter value that is
/// followed by a character other than `"` or `\` makes the parse fail at
/// that character, reporting it.
pub proof fn lemma_bad_escape_fails(prefix: char, option_prefix: char, s: Seq<char>, i: int)
    requires
        1 <= i < s.len(),
        s[i - 1] == '\\',
        s[i] != '"',
        s[i] != '\\',
        run(prefix, option_prefix, s.take(i - 1)) is Ok,
        run(prefix, option_prefix, s.take(i - 1))->Ok_0.state == ParseState::LongArgument
            || run(prefix, option_prefix, s.take(i - 1))->Ok_0.state == ParseState::ParamLongVal,
    ensures
        parse_result(prefix, option_prefix, s) == Err::<CommandView, ParseError>(
            ParseError::EscapeError(i as usize, s[i]),
        ),
{
    assert(s.take(i).drop_last() =~= s.take(i - 1));
    assert(s.take(i).last() == s[i - 1]);
    assert(s.take(i + 1).drop_last() =~= s.take(i));
    assert(s.take(i + 1).last() == s[i]);
    let p = run(prefix, option_prefix, s.take(i))->Ok_0;
    assert(p.state == ParseState::EscapeLongArg || p.state == ParseState::EscapeLongParamVal);
    lemma_error_persists(prefix, option_prefix, s, i + 1);
}

/// How the name read so far sits in the input read so far.
spec fn name_shape(prefix: char, s: Seq<char>, p: Progress) -> bool {
    let name = p.command.name;
    if s.len() == 0 {
        p.state == ParseState::Prefix && name.len() == 0
    } else {
        &&& s[0] == prefix
        &&& p.state != ParseState::Prefix
        &&& name.len() + 1 <= s.len()
        &&& s.subrange(1, name.len() + 1int) == name
        &&& forall|j: int| 0 <= j < name.len() ==> name[j] != ' '
        &&& (p.state == ParseState::Name) == (name.len() + 1 == s.len())
        &&& name.len() + 1 < s.len() ==> s[name.len() + 1int] == ' '
    }
}

proof fn lemma_name_shape(prefix: char, option_prefix: char, s: Seq<char>)
    requires
        run(prefix, option_prefix, s) is Ok,
    ensures
        name_shape(prefix, s, run(prefix, option_prefix, s)->Ok_0),
    decreases s.len(),
{
    if s.len() > 0 {
        let t = s.drop_last();
        lemma_name_shape(prefix, option_prefix, t);
        let q = run(prefix, option_prefix, t)->Ok_0;
        let p = run(prefix, option_prefix, s)->Ok_0;
        if t.len() > 0 {
            assert(s[0] == t[0]);
            if q.state == ParseState::Name && s.last() != ' ' {
                assert(s.subrange(1, p.command.name.len() + 1int) =~= t.subrange(
                    1,
                    q.command.name.len() + 1int,
                ).push(s.last()));
            } else {
                assert(s.subrange(1, p.command.name.len() + 1int) =~= t.subrange(
                    1,
                    q.command.name.len() + 1int,
                ));
            }
        } else {
            assert(s.subrange(1, 1) =~= Seq::<char>::empty());
        }
    }
}

/// On success, the name is the longest run of non-space characters right
/// after the prefix: the line is the prefix, then the name, then either
/// nothing or a space.
pub proof fn lemma_name_is_first_word(prefix: char, option_prefix: char, s: Seq<char>)
    requires
        s.len() > 0,
        parse_result(prefix, option_prefix, s) is Ok,
    ensures
        ({
            let name = parse_result(prefix, option_prefix, s)->Ok_0.name;
            &&& s[0] == prefix
            &&& s.subrange(1, name.len() + 1int) == name
            &&& forall|j: int| 0 <= j < name.len() ==> name[j] != ' '
            &&& name.len() + 1 == s.len() || s[name.len() + 1int] == ' '
        }),
{
    lemma_name_shape(prefix, option_prefix, s);
}

} // verus!
