//! The background-setter command line: validation and splitting into the
//! argument vector that the boundary executes.
use vstd::prelude::*;
use vstd::string::StrSliceExecFns;
use vstd::string::StringExecFns;
use crate::error::BackgroundPickerError;

verus! {

/// Unicode whitespace (the `White_Space` property, as Rust's trimming and
/// splitting use): the separators the command string is split on.
pub open spec fn is_space(c: char) -> bool {
    ||| c == '\u{0009}'
    ||| c == '\u{000a}'
    ||| c == '\u{000b}'
    ||| c == '\u{000c}'
    ||| c == '\u{000d}'
    ||| c == ' '
    ||| c == '\u{0085}'
    ||| c == '\u{00a0}'
    ||| c == '\u{1680}'
    ||| c == '\u{2000}'
    ||| c == '\u{2001}'
    ||| c == '\u{2002}'
    ||| c == '\u{2003}'
    ||| c == '\u{2004}'
    ||| c == '\u{2005}'
    ||| c == '\u{2006}'
    ||| c == '\u{2007}'
    ||| c == '\u{2008}'
    ||| c == '\u{2009}'
    ||| c == '\u{200a}'
    ||| c == '\u{2028}'
    ||| c == '\u{2029}'
    ||| c == '\u{202f}'
    ||| c == '\u{205f}'
    ||| c == '\u{3000}'
}

pub open spec fn all_space(s: Seq<char>) -> bool {
    forall|i: int| 0 <= i < s.len() ==> is_space(#[trigger] s[i])
}

fn is_space_char(c: char) -> (r: bool)
    ensures
        r == is_space(c),
{
    match c {
        '\u{0009}' | '\u{000a}' | '\u{000b}' | '\u{000c}' | '\u{000d}' | ' ' | '\u{0085}'
            | '\u{00a0}' | '\u{1680}' | '\u{2000}' | '\u{2001}' | '\u{2002}' | '\u{2003}'
            | '\u{2004}' | '\u{2005}' | '\u{2006}' | '\u{2007}' | '\u{2008}' | '\u{2009}'
            | '\u{200a}' | '\u{2028}' | '\u{2029}' | '\u{202f}' | '\u{205f}' | '\u{3000}' => true,
        _ => false,
    }
}

/// The whitespace-separated tokens of `s` after the ones in `acc`, with
/// `cur` the partial token read so far.
pub open spec fn tokens_acc(s: Seq<char>, cur: Seq<char>, acc: Seq<Seq<char>>) -> Seq<Seq<char>>
    decreases s.len(),
{
    if s.len() == 0 {
        if cur.len() > 0 {
            acc.push(cur)
        } else {
            acc
        }
    } else if is_space(s[0]) {
        if cur.len() > 0 {
            tokens_acc(s.drop_first(), Seq::empty(), acc.push(cur))
        } else {
            tokens_acc(s.drop_first(), Seq::empty(), acc)
        }
    } else {
        tokens_acc(s.drop_first(), cur.push(s[0]), acc)
    }
}

/// The whitespace-separated tokens of `s`, in order.
pub open spec fn tokens(s: Seq<char>) -> Seq<Seq<char>> {
    tokens_acc(s, Seq::empty(), Seq::empty())
}

proof fn lemma_tokens_acc_empty(s: Seq<char>, cur: Seq<char>, acc: Seq<Seq<char>>)
    ensures
        tokens_acc(s, cur, acc).len() == 0 <==> acc.len() == 0 && cur.len() == 0 && all_space(s),
    decreases s.len(),
{
    if s.len() == 0 {
    } else if is_space(s[0]) {
        if cur.len() > 0 {
            lemma_tokens_acc_empty(s.drop_first(), Seq::empty(), acc.push(cur));
        } else {
            lemma_tokens_acc_empty(s.drop_first(), Seq::empty(), acc);
        }
        assert forall|i: int| 0 <= i < s.len() && all_space(s.drop_first()) implies is_space(
            s[i],
        ) by {
            if i > 0 {
                assert(s.drop_first()[i - 1] == s[i]);
            }
        }
        if all_space(s) {
            assert forall|i: int| 0 <= i < s.drop_first().len() implies is_space(
                #[trigger] s.drop_first()[i],
            ) by {
                assert(s.drop_first()[i] == s[i + 1]);
            }
        }
    } else {
        lemma_tokens_acc_empty(s.drop_first(), cur.push(s[0]), acc);
        assert(!is_space(s[0]));
        assert(!all_space(s));
        assert(cur.push(s[0]).len() > 0);
    }
}

/// A command is empty exactly when it has no token: when every character is
/// whitespace.
pub proof fn lemma_tokens_empty(s: Seq<char>)
    ensures
        tokens(s).len() == 0 <==> all_space(s),
{
    lemma_tokens_acc_empty(s, Seq::empty(), Seq::empty());
}

/// A configured command is rejected before execution exactly when it holds
/// no non-whitespace character.
pub fn validate_command(command: &str) -> (r: Result<(), BackgroundPickerError>)
    ensures
        r is Ok <==> !all_space(command@),
        r is Err ==> r->Err_0 is CommandExecution && r->Err_0->CommandExecution_0@
            == "Empty command"@,
{
    let n: usize = command.unicode_len();
    let mut i: usize = 0;
    while i < n
        invariant
            i <= n,
            n == command@.len(),
            forall|j: int| 0 <= j < i ==> is_space(#[trigger] command@[j]),
        decreases n - i,
    {
        if !is_space_char(command.get_char(i)) {
            return Ok(());
        }
        i = i + 1;
    }
    Err(BackgroundPickerError::CommandExecution(String::from_str("Empty command")))
}

/// The whitespace-separated parts of `command`, in order.
pub fn split_command(command: &str) -> (parts: Vec<String>)
    ensures
        parts@.map_values(|p: String| p@) == tokens(command@),
{
    let n: usize = command.unicode_len();
    let mut parts: Vec<String> = Vec::new();
    let mut start: Option<usize> = None;
    let mut i: usize = 0;
    proof {
        assert(command@.subrange(0, n as int) =~= command@);
        assert(parts@.map_values(|p: String| p@) =~= Seq::<Seq<char>>::empty());
    }
    while i < n
        invariant
            i <= n,
            n == command@.len(),
            match start {
                None => tokens_acc(
                    command@.subrange(i as int, n as int),
                    Seq::empty(),
                    parts@.map_values(|p: String| p@),
                ) == tokens(command@),
                Some(js) => js < i && tokens_acc(
                    command@.subrange(i as int, n as int),
                    command@.subrange(js as int, i as int),
                    parts@.map_values(|p: String| p@),
                ) == tokens(command@) && command@.subrange(js as int, i as int).len() > 0,
            },
        decreases n - i,
    {
        proof {
            assert(command@.subrange(i as int, n as int).drop_first() =~= command@.subrange(
                i as int + 1,
                n as int,
            ));
            assert(command@.subrange(i as int, n as int)[0] == command@[i as int]);
        }
        let c = command.get_char(i);
        if is_space_char(c) {
            match start {
                Some(js) => {
                    let ghost oldparts = parts@;
                    let tok: String = command.substring_char(js, i).to_owned();
                    parts.push(tok);
                    proof {
                        assert(parts@.map_values(|p: String| p@) =~= oldparts.map_values(
                            |p: String| p@,
                        ).push(command@.subrange(js as int, i as int)));
                    }
                    start = None;
                },
                None => {},
            }
        } else {
            match start {
                Some(js) => {
                    proof {
                        assert(command@.subrange(js as int, i as int).push(command@[i as int])
                            =~= command@.subrange(js as int, i as int + 1));
                    }
                },
                None => {
                    start = Some(i);
                    proof {
                        assert(Seq::<char>::empty().push(command@[i as int]) =~= command@.subrange(
                            i as int,
                            i as int + 1,
                        ));
                    }
                },
            }
        }
        i = i + 1;
    }
    match start {
        Some(js) => {
            let ghost oldparts = parts@;
            let tok: String = command.substring_char(js, n).to_owned();
            parts.push(tok);
            proof {
                assert(command@.subrange(n as int, n as int).len() == 0);
                assert(parts@.map_values(|p: String| p@) =~= oldparts.map_values(|p: String| p@)
                    .push(command@.subrange(js as int, n as int)));
            }
        },
        None => {
            proof {
                assert(command@.subrange(n as int, n as int).len() == 0);
            }
        },
    }
    parts
}

/// The argument vector that applies `path` as the background: the command
/// split on whitespace, with the path appended as the final argument.  An
/// all-whitespace command is rejected before execution.
pub fn set_background_command(command: &str, path: &str) -> (r: Result<
    Vec<String>,
    BackgroundPickerError,
>)
    ensures
        r is Ok <==> tokens(command@).len() > 0,
        r is Ok ==> r->Ok_0@.map_values(|p: String| p@) == tokens(command@).push(path@),
        r is Err ==> r->Err_0 is CommandExecution && r->Err_0->CommandExecution_0@
            == "Empty command"@,
{
    let mut parts = split_command(command);
    if parts.len() == 0 {
        return Err(BackgroundPickerError::CommandExecution(String::from_str("Empty command")));
    }
    let ghost oldparts = parts@;
    parts.push(String::from_str(path));
    proof {
        assert(parts@.map_values(|p: String| p@) =~= oldparts.map_values(|p: String| p@).push(
            path@,
        ));
    }
    Ok(parts)
}

} // verus!
