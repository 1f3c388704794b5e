//! Project tags `+name`.

use vstd::prelude::*;
use vstd::string::*;

verus! {

#[derive(Clone, Debug, PartialEq, Eq)]
pub struct TodoProject {
    pub name: String,
}

#[derive(Clone, Copy, Debug, PartialEq, Eq, Structural)]
pub struct TodoProjectParseError;

/// `+` followed by at least one character, read as what follows the marker.
pub open spec fn project_of(s: Seq<char>) -> Option<Seq<char>> {
    if s.len() > 1 && s[0] == '+' {
        Some(s.drop_first())
    } else {
        None
    }
}

impl TodoProject {
    pub open spec fn view(self) -> Seq<char> {
        self.name@
    }

    /// The written form: the marker, then the name.
    pub open spec fn text(self) -> Seq<char> {
        seq!['+'] + self.name@
    }

    pub fn parse(s: &str) -> (r: Result<TodoProject, TodoProjectParseError>)
        ensures
            r matches Ok(t) ==> project_of(s@) == Some(t.name@),
            r is Err <==> project_of(s@) is None,
    {
        let n = s.unicode_len();
        if n > 1 && s.get_char(0) == '+' {
            let name = s.substring_char(1, n).to_owned();
            assert(name@ =~= s@.drop_first());
            Ok(TodoProject { name })
        } else {
            Err(TodoProjectParseError)
        }
    }

    pub fn to_string(&self) -> (r: String)
        ensures
            r@ == self.text(),
    {
        let mut out = String::new();
        out.append("+");
        proof {
            reveal_strlit("+");
        }
        out.append(self.name.as_str());
        assert(out@ =~= self.text());
        out
    }

    /// A copy with the same name.
    pub fn duplicate(&self) -> (r: TodoProject)
        ensures
            r.name@ == self.name@,
    {
        TodoProject { name: self.name.clone() }
    }
}

/// A tag with a non-empty name reads back as itself.
pub proof fn lemma_project_text(t: TodoProject)
    requires
        t.name@.len() > 0,
    ensures
        project_of(t.text()) == Some(t.name@),
{
    assert(t.text().drop_first() =~= t.name@);
}

impl std::str::FromStr for TodoProject {
    type Err = TodoProjectParseError;

    fn from_str(s: &str) -> Result<TodoProject, TodoProjectParseError> {
        TodoProject::parse(s)
    }
}

} // verus!
