//! The key-value parser: splits a `key=value` command-line token at its
//! first `=` and reports tokens without a separator.

use vstd::prelude::*;
use vstd::string::*;

verus! {

/// A single parsed `key=value` token destined for a POST body.
pub struct KvPair {
    pub key: String,
    pub value: String,
}

/// A pre-flight argument error; each variant names the offending token
/// verbatim.
pub enum CliError {
    MalformedUrl { token: String },
    MalformedPair { token: String },
}

impl CliError {
    /// The token that failed to parse, exactly as it was given.
    pub open spec fn spec_token(&self) -> Seq<char> {
        match self {
            CliError::MalformedUrl { token } => token@,
            CliError::MalformedPair { token } => token@,
        }
    }

    /// A diagnostic line naming the offending token verbatim.
    pub fn message(&self) -> (r: String)
        ensures
            r@ == "Failed to parse "@ + self.spec_token(),
    {
        let mut m = "Failed to parse ".to_owned();
        match self {
            CliError::MalformedUrl { token } => m.append(token.as_str()),
            CliError::MalformedPair { token } => m.append(token.as_str()),
        }
        m
    }
}

/// Whether the token holds at least one `=` separator.
pub open spec fn has_separator(s: Seq<char>) -> bool {
    exists|i: int| 0 <= i < s.len() && s[i] == '='
}

/// Position `i` is the first `=` of the token.
pub open spec fn first_separator_at(s: Seq<char>, i: int) -> bool {
    &&& 0 <= i < s.len()
    &&& s[i] == '='
    &&& forall|j: int| 0 <= j < i ==> s[j] != '='
}

/// The pair is exactly what splitting the token at its first `=` gives:
/// the key is everything before it, the value everything after it (any
/// later `=` stays inside the value).
pub open spec fn pair_of_token(p: KvPair, t: Seq<char>) -> bool {
    exists|i: int|
        {
            &&& first_separator_at(t, i)
            &&& p.key@ == t.subrange(0, i)
            &&& p.value@ == t.subrange(i + 1, t.len() as int)
        }
}

impl KvPair {
    /// Parses one token: succeeds exactly when the token holds an `=`, in
    /// which case it is split at the first one, with no trimming; a token
    /// without `=` is rejected with an error naming that exact token.
    pub fn parse(token: &str) -> (r: Result<KvPair, CliError>)
        ensures
            r is Ok <==> has_separator(token@),
            (r matches Ok(p) ==> pair_of_token(p, token@)),
            (r matches Err(e) ==> e is MalformedPair && e.spec_token() == token@),
    {
        let n = token.unicode_len();
        let mut i: usize = 0;
        while i < n
            invariant
                n == token@.len(),
                0 <= i <= n,
                forall|j: int| 0 <= j < i ==> token@[j] != '=',
            decreases n - i,
        {
            if token.get_char(i) == '=' {
                let key = token.substring_char(0, i).to_owned();
                let value = token.substring_char(i + 1, n).to_owned();
                let p = KvPair { key, value };
                proof {
                    assert(first_separator_at(token@, i as int));
                }
                return Ok(p);
            }
            i = i + 1;
        }
        Err(CliError::MalformedPair { token: token.to_owned() })
    }
}

/// The views of a sequence of pairs.
pub open spec fn kvs(ps: Seq<KvPair>) -> Seq<(Seq<char>, Seq<char>)> {
    ps.map_values(|p: KvPair| (p.key@, p.value@))
}

} // verus!
