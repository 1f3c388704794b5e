//! Priorities `(A)` to `(Z)`, held as ranks 0 to 25.

use vstd::prelude::*;
use vstd::string::*;

verus! {

#[derive(Clone, Copy, Debug, PartialEq, Eq, Structural)]
pub struct TodoPriority {
    pub priority: Option<u8>,
}

#[derive(Clone, Copy, Debug, PartialEq, Eq, Structural)]
pub struct TodoPriorityParseError;

/// The letter of rank `p`.
pub open spec fn rank_letter(p: u8) -> char {
    (0x41 + p) as char
}

/// `(` + an upper-case letter + `)`, read as the letter's rank.
pub open spec fn priority_of(s: Seq<char>) -> Option<u8> {
    if s.len() == 3 && s[0] == '(' && s[2] == ')' && 0x41 <= (s[1] as u32) <= 0x5A {
        Some((s[1] as u32 - 0x41) as u8)
    } else {
        None
    }
}

/// Three characters `(`, one ASCII character, `)`: a word in a record that
/// must be a priority.
pub open spec fn priority_shaped(s: Seq<char>) -> bool {
    s.len() == 3 && s[0] == '(' && s[2] == ')' && (s[1] as u32) < 0x80
}

impl TodoPriority {
    pub open spec fn wf(self) -> bool {
        self.priority matches Some(p) ==> p < 26
    }

    /// The written form: `(X)`, or nothing when there is no priority.
    pub open spec fn text(self) -> Seq<char> {
        match self.priority {
            Some(p) => seq!['(', rank_letter(p), ')'],
            None => seq![],
        }
    }

    pub fn parse(s: &str) -> (r: Result<TodoPriority, TodoPriorityParseError>)
        ensures
            r matches Ok(p) ==> p.priority == priority_of(s@) && p.priority is Some && p.wf(),
            r is Err <==> priority_of(s@) is None,
    {
        if s.unicode_len() != 3 {
            return Err(TodoPriorityParseError);
        }
        let open = s.get_char(0);
        let letter = s.get_char(1);
        let close = s.get_char(2);
        let u = letter as u32;
        if open == '(' && close == ')' && 0x41 <= u && u <= 0x5A {
            Ok(TodoPriority { priority: Some((u - 0x41) as u8) })
        } else {
            Err(TodoPriorityParseError)
        }
    }

    pub fn to_string(&self) -> (r: String)
        requires
            self.wf(),
        ensures
            r@ == self.text(),
    {
        match self.priority {
            Some(p) => {
                let letters = "ABCDEFGHIJKLMNOPQRSTUVWXYZ";
                proof {
                    reveal_strlit("ABCDEFGHIJKLMNOPQRSTUVWXYZ");
                    reveal_strlit("(");
                    reveal_strlit(")");
                }
                let mut out = String::new();
                out.append("(");
                out.append(letters.substring_char(p as usize, p as usize + 1));
                out.append(")");
                assert(letters@[p as int] == rank_letter(p));
                assert(out@ =~= self.text());
                out
            },
            None => String::new(),
        }
    }
}

/// A priority's text reads back as the same priority.
pub proof fn lemma_priority_text(p: TodoPriority)
    requires
        p.wf(),
        p.priority is Some,
    ensures
        priority_of(p.text()) == p.priority,
        priority_shaped(p.text()),
{
}

impl std::str::FromStr for TodoPriority {
    type Err = TodoPriorityParseError;

    fn from_str(s: &str) -> Result<TodoPriority, TodoPriorityParseError> {
        TodoPriority::parse(s)
    }
}

} // verus!
