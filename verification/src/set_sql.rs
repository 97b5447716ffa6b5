//! The assignments of an `UPDATE`.
use vstd::prelude::*;
use crate::errors::SqlError;
use crate::text::same_text;
use crate::utils::is_set;

verus! {

/// The assignments of an `UPDATE`, in the order in which they were written:
/// each gives a column a literal value.
#[derive(Debug, PartialEq)]
pub struct SetClause(pub Vec<(String, String)>);

impl View for SetClause {
    type V = Seq<(Seq<char>, Seq<char>)>;

    open spec fn view(&self) -> Seq<(Seq<char>, Seq<char>)> {
        self.0.deep_view()
    }
}

/// The assignments that the `=` tokens before `upto` write: each `=` that
/// has a token behind it pairs the token before it with that one.
pub open spec fn assignments(tokens: Seq<Seq<char>>, upto: int) -> Seq<(Seq<char>, Seq<char>)>
    decreases upto,
{
    if upto <= 1 {
        Seq::empty()
    } else {
        let i = upto - 1;
        let before = assignments(tokens, i);
        if tokens[i] == "="@ && i + 1 < tokens.len() {
            before.push((tokens[i - 1], tokens[i + 1]))
        } else {
            before
        }
    }
}

impl SetClause {
    /// The assignments that `tokens` write: the word `SET`, then at least
    /// one `=`.
    pub open spec fn spec_new(tokens: Seq<Seq<char>>) -> Result<
        Seq<(Seq<char>, Seq<char>)>,
        SqlError,
    > {
        if tokens.len() > 0 && tokens[0] == "SET"@ && tokens.contains("="@) {
            Ok(assignments(tokens, tokens.len() as int))
        } else {
            Err(SqlError::InvalidSyntax)
        }
    }

    /// Builds the assignments that `tokens` write.
    ///
    /// Fails with `InvalidSyntax` unless the first token is `SET` and some
    /// token is `=`.
    pub fn new_from_tokens(tokens: Vec<&str>) -> (r: Result<Self, SqlError>)
        ensures
            match r {
                Ok(s) => Self::spec_new(tokens.deep_view()) == Ok::<
                    Seq<(Seq<char>, Seq<char>)>,
                    SqlError,
                >(s@),
                Err(e) => Self::spec_new(tokens.deep_view()) == Err::<
                    Seq<(Seq<char>, Seq<char>)>,
                    SqlError,
                >(e),
            },
    {
        let ghost toks = tokens.deep_view();
        if tokens.len() == 0 || !is_set(tokens[0]) {
            return Err(SqlError::InvalidSyntax);
        }
        let mut set: Vec<(String, String)> = Vec::new();
        let mut found = false;
        let mut i: usize = 1;
        proof {
            reveal_strlit("=");
            reveal_strlit("SET");
            assert(toks[0] == tokens@[0]@);
        }
        while i < tokens.len()
            invariant
                toks == tokens.deep_view(),
                1 <= i <= tokens.len(),
                toks[0] == "SET"@,
                found == (exists|k: int| 0 <= k < i && #[trigger] toks[k] == "="@),
                set.deep_view() == assignments(toks, i as int),
            decreases tokens.len() - i,
        {
            assert(toks[i as int] == tokens@[i as int]@);
            if same_text(tokens[i], "=") {
                found = true;
                if i + 1 < tokens.len() {
                    let ghost before = set.deep_view();
                    set.push((tokens[i - 1].to_owned(), tokens[i + 1].to_owned()));
                    assert(set.deep_view() =~= before.push((toks[i - 1], toks[i + 1])));
                }
            }
            i += 1;
        }
        if !found {
            return Err(SqlError::InvalidSyntax);
        }
        Ok(SetClause(set))
    }
}

} // verus!
