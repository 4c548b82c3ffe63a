use vstd::prelude::*;
use vstd::string::*;
use crate::session::Session;
use crate::settings::SessionSettings;

verus! {

/// The prompt that the terminal shows.
pub struct Prompt {
    pub promt: String,
}

impl Prompt {
    pub fn prompty(&self) -> (r: &str)
        ensures
            r@ == self.promt@,
    {
        self.promt.as_str()
    }
}

/// Reads the brackets of `s`: each `(` or `{` opens, and each `)` or `}` closes the last
/// one open; a `)` that closes a `{`, or a `}` that closes a `(`, is a mismatch, given as
/// the closing bracket expected and the one found. Gives the brackets left open.
pub open spec fn open_brackets(s: Seq<char>) -> Result<Seq<char>, (char, char)>
    decreases s.len(),
{
    if s.len() == 0 {
        Ok(Seq::empty())
    } else {
        match open_brackets(s.drop_last()) {
            Err(e) => Err(e),
            Ok(stack) => {
                let c = s.last();
                if c == '(' || c == '{' {
                    Ok(stack.push(c))
                } else if c == ')' || c == '}' {
                    if stack.len() == 0 {
                        Ok(stack)
                    } else if stack.last() == '(' && c == '}' {
                        Err((')', '}'))
                    } else if stack.last() == '{' && c == ')' {
                        Err(('}', ')'))
                    } else {
                        Ok(stack.drop_last())
                    }
                } else {
                    Ok(stack)
                }
            },
        }
    }
}

/// A mismatch found in a prefix is the mismatch of the whole text.
proof fn lemma_mismatch_stays(s: Seq<char>, k: int)
    requires
        0 <= k <= s.len(),
        open_brackets(s.take(k)) is Err,
    ensures
        open_brackets(s) == open_brackets(s.take(k)),
    decreases s.len() - k,
{
    if k < s.len() {
        assert(s.take(k + 1).drop_last() =~= s.take(k));
        lemma_mismatch_stays(s, k + 1);
    } else {
        assert(s.take(k) =~= s);
    }
}

/// Whether the input is complete: the bracket left open last, where one is, or the
/// mismatch found.
pub fn complete_input(s: &str) -> (r: Result<Option<char>, (char, char)>)
    ensures
        r == match open_brackets(s@) {
            Err(e) => Err::<Option<char>, (char, char)>(e),
            Ok(stack) => Ok(
                if stack.len() > 0 {
                    Some(stack.last())
                } else {
                    None
                },
            ),
        },
{
    let n = s.unicode_len();
    let mut brackets: Vec<char> = Vec::new();
    let mut i: usize = 0;
    proof {
        assert(s@.take(0) =~= Seq::<char>::empty());
    }
    while i < n
        invariant
            i <= n,
            n == s@.len(),
            open_brackets(s@.take(i as int)) == Ok::<Seq<char>, (char, char)>(brackets@),
        decreases n - i,
    {
        let c = s.get_char(i);
        proof {
            assert(s@.take(i + 1).drop_last() =~= s@.take(i as int));
            assert(s@.take(i + 1).last() == c);
        }
        if c == '(' || c == '{' {
            brackets.push(c);
        } else if c == ')' || c == '}' {
            match brackets.pop() {
                Some(open) => {
                    if open == '(' && c == '}' {
                        proof {
                            lemma_mismatch_stays(s@, i + 1);
                        }
                        return Err((')', '}'));
                    } else if open == '{' && c == ')' {
                        proof {
                            lemma_mismatch_stays(s@, i + 1);
                        }
                        return Err(('}', ')'));
                    }
                },
                None => {},
            }
        }
        i = i + 1;
    }
    proof {
        assert(s@.take(i as int) =~= s@);
    }
    match brackets.last() {
        Some(c) => Ok(Some(*c)),
        None => Ok(None),
    }
}

/// The terminal of the REPL: the session it drives.
pub struct Terminal {
    pub session: Session,
}

impl Terminal {
    /// A terminal over a new session.
    pub fn new(session_settings: SessionSettings) -> (r: Terminal)
        requires
            session_settings.initial_deployer matches Some(a) ==> crate::debug::address_ok(a.address@),
        ensures
            r.session.contracts@.len() == 0,
            !r.session.show_costs,
    {
        Terminal { session: Session::new(session_settings) }
    }
}

} // verus!
