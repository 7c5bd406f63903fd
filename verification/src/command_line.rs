//! Splitting a command string into a program and its arguments, with
//! the quoting rules of a POSIX shell as the `shlex` crate applies them.
use vstd::prelude::*;

verus! {

/// The words that `shlex::split` makes of `s`, or `None` where the
/// input is erroneous (such as unbalanced quotes).
pub uninterp spec fn shell_words(s: Seq<char>) -> Option<Seq<Seq<char>>>;

/// `shlex::split`: the words of `s` split as a POSIX shell would, or
/// `None` where the input is erroneous. Its result depends on `s`
/// alone.
#[verifier::external_body]
fn shlex_split(s: &str) -> (res: Option<Vec<String>>)
    ensures
        res is None <==> shell_words(s@) is None,
        res matches Some(v) ==> shell_words(s@) == Some(v@.map_values(|w: String| w@)),
{
    shlex::split(s)
}

/// The program of a command made of `words`: the first word, or the
/// empty text when there is none.
pub open spec fn program_of(words: Seq<Seq<char>>) -> Seq<char> {
    if words.len() > 0 {
        words[0]
    } else {
        Seq::empty()
    }
}

/// The arguments of a command made of `words`: every word after the
/// first.
pub open spec fn args_of(words: Seq<Seq<char>>) -> Seq<Seq<char>> {
    if words.len() > 0 {
        words.drop_first()
    } else {
        Seq::empty()
    }
}

/// Split `words` into the program, the first word or empty text, and
/// the arguments that follow it.
pub fn program_and_args(words: Vec<String>) -> (res: (String, Vec<String>))
    ensures
        res.0@ == program_of(words@.map_values(|w: String| w@)),
        res.1@.map_values(|w: String| w@) == args_of(words@.map_values(|w: String| w@)),
{
    let ghost ws = words@.map_values(|w: String| w@);
    let mut words = words;
    if words.len() == 0 {
        let args: Vec<String> = Vec::new();
        assert(args@.map_values(|w: String| w@) =~= args_of(ws));
        return (String::new(), args);
    }
    let program = words.remove(0);
    assert(words@.map_values(|w: String| w@) =~= ws.drop_first());
    (program, words)
}

/// The program and the arguments of the command line `s`, or `None`
/// where its quoting is erroneous.
pub fn command_words(s: &str) -> (res: Option<(String, Vec<String>)>)
    ensures
        res is None <==> shell_words(s@) is None,
        res matches Some(r) ==> ({
            let w = shell_words(s@)->0;
            &&& r.0@ == program_of(w)
            &&& r.1@.map_values(|a: String| a@) == args_of(w)
        }),
{
    match shlex_split(s) {
        Some(words) => Some(program_and_args(words)),
        None => None,
    }
}

} // verus!
