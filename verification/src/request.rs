//! The argument model and request builder: validated request descriptors
//! from CLI tokens, and the HTTP envelope built from a descriptor (GET has
//! no body; POST carries a JSON object in which the last occurrence of a
//! key wins).

use vstd::prelude::*;
use vstd::string::*;
use crate::json::object_text;
use crate::json::object_string;
use crate::kv::{kvs, has_separator, pair_of_token, CliError, KvPair};

verus! {

/// Whether `url::Url::parse` accepts the text as an absolute URL.
pub uninterp spec fn url_accepts(s: Seq<char>) -> bool;

/// Relies on url::Url::parse: it accepts a syntactically valid absolute URL
/// (a relative reference without a base is rejected), and acceptance is a
/// function of the text alone.
#[verifier::external_body]
fn url_parses(s: &str) -> (r: bool)
    ensures
        r == url_accepts(s@),
{
    url::Url::parse(s).is_ok()
}

/// The HTTP method of a request; the only two this client issues.
#[derive(Clone, Copy, Debug, PartialEq, Eq, Structural)]
pub enum Method {
    Get,
    Post,
}

/// A validated, immutable description of the request to send.
pub struct RequestSpec {
    pub method: Method,
    pub url: String,
    pub body: Vec<KvPair>,
}

impl RequestSpec {
    /// Validity: the URL was accepted, and a GET carries no body pairs.
    pub open spec fn well_formed(&self) -> bool {
        &&& url_accepts(self.url@)
        &&& self.method is Get ==> self.body@.len() == 0
    }

    /// Validates the URL and makes a GET descriptor. A GET descriptor never
    /// holds body pairs, whatever the command line said.
    pub fn get(url: &str) -> (r: Result<RequestSpec, CliError>)
        ensures
            r is Ok <==> url_accepts(url@),
            (r matches Ok(s) ==> {
                &&& s.method is Get
                &&& s.url@ == url@
                &&& s.body@.len() == 0
                &&& s.well_formed()
            }),
            (r matches Err(e) ==> e is MalformedUrl && e.spec_token() == url@),
    {
        if url_parses(url) {
            Ok(RequestSpec { method: Method::Get, url: url.to_owned(), body: Vec::new() })
        } else {
            Err(CliError::MalformedUrl { token: url.to_owned() })
        }
    }

    /// Validates the URL, parses every `key=value` token, and makes a POST
    /// descriptor. It fails on an unacceptable URL, or else on the first
    /// token without a `=`, naming the offending token; nothing is sent in
    /// either case.
    pub fn post(url: &str, tokens: &Vec<String>) -> (r: Result<RequestSpec, CliError>)
        ensures
            r is Ok <==> url_accepts(url@) && (forall|i: int|
                0 <= i < tokens@.len() ==> has_separator(#[trigger] tokens@[i]@)),
            (r matches Ok(s) ==> {
                &&& s.method is Post
                &&& s.url@ == url@
                &&& s.well_formed()
                &&& s.body@.len() == tokens@.len()
                &&& forall|i: int|
                    0 <= i < tokens@.len() ==> pair_of_token(#[trigger] s.body@[i], tokens@[i]@)
            }),
            (r matches Err(e) ==> {
                ||| (e is MalformedUrl && e.spec_token() == url@ && !url_accepts(url@))
                ||| (e is MalformedPair && url_accepts(url@) && exists|i: int|
                    {
                        &&& 0 <= i < tokens@.len()
                        &&& e.spec_token() == #[trigger] tokens@[i]@
                        &&& !has_separator(tokens@[i]@)
                        &&& forall|j: int| 0 <= j < i ==> has_separator(#[trigger] tokens@[j]@)
                    })
            }),
    {
        if !url_parses(url) {
            return Err(CliError::MalformedUrl { token: url.to_owned() });
        }
        let mut body: Vec<KvPair> = Vec::new();
        let n = tokens.len();
        let mut i: usize = 0;
        while i < n
            invariant
                url_accepts(url@),
                n == tokens@.len(),
                0 <= i <= n,
                body@.len() == i,
                forall|j: int| 0 <= j < i ==> pair_of_token(#[trigger] body@[j], tokens@[j]@),
                forall|j: int| 0 <= j < i ==> has_separator(#[trigger] tokens@[j]@),
            decreases n - i,
        {
            match KvPair::parse(tokens[i].as_str()) {
                Ok(p) => {
                    body.push(p);
                },
                Err(e) => {
                    proof {
                        assert(!has_separator(tokens@[i as int]@));
                        assert(e.spec_token() == tokens@[i as int]@);
                        assert(exists|w: int|
                            {
                                &&& 0 <= w < tokens@.len()
                                &&& e.spec_token() == #[trigger] tokens@[w]@
                                &&& !has_separator(tokens@[w]@)
                                &&& forall|j: int|
                                    0 <= j < w ==> has_separator(#[trigger] tokens@[j]@)
                            }) by {
                            assert((i as int) < tokens@.len() && e.spec_token() == tokens@[i as int]@
                                && !has_separator(tokens@[i as int]@) && forall|j: int|
                                0 <= j < i as int ==> has_separator(#[trigger] tokens@[j]@));
                        }
                    }
                    return Err(e);
                },
            }
            i = i + 1;
        }
        Ok(RequestSpec { method: Method::Post, url: url.to_owned(), body })
    }
}

/// Whether some entry has key `k`.
pub open spec fn has_key(es: Seq<(Seq<char>, Seq<char>)>, k: Seq<char>) -> bool {
    exists|i: int| 0 <= i < es.len() && (#[trigger] es[i]).0 == k
}

/// Keeps, for each key, only its last occurrence with its last value; an
/// entry is kept exactly when no later entry repeats its key.
pub open spec fn dedup_last(es: Seq<(Seq<char>, Seq<char>)>) -> Seq<(Seq<char>, Seq<char>)>
    decreases es.len(),
{
    if es.len() == 0 {
        Seq::empty()
    } else if has_key(es.drop_first(), es[0].0) {
        dedup_last(es.drop_first())
    } else {
        seq![es[0]] + dedup_last(es.drop_first())
    }
}

/// The value of the first entry with key `k` (the empty text when none has
/// it).
pub open spec fn lookup(es: Seq<(Seq<char>, Seq<char>)>, k: Seq<char>) -> Seq<char>
    decreases es.len(),
{
    if es.len() == 0 {
        Seq::empty()
    } else if es[0].0 == k {
        es[0].1
    } else {
        lookup(es.drop_first(), k)
    }
}

/// The value of the last entry with key `k` (the empty text when none has
/// it).
pub open spec fn last_value(es: Seq<(Seq<char>, Seq<char>)>, k: Seq<char>) -> Seq<char>
    decreases es.len(),
{
    if es.len() == 0 {
        Seq::empty()
    } else if has_key(es.drop_first(), k) {
        last_value(es.drop_first(), k)
    } else if es[0].0 == k {
        es[0].1
    } else {
        last_value(es.drop_first(), k)
    }
}

/// Deduplication keeps exactly the keys that occur.
pub proof fn lemma_dedup_keys(es: Seq<(Seq<char>, Seq<char>)>, k: Seq<char>)
    ensures
        has_key(dedup_last(es), k) <==> has_key(es, k),
    decreases es.len(),
{
    if es.len() == 0 {
    } else {
        let tail = es.drop_first();
        lemma_dedup_keys(tail, k);
        if has_key(es.drop_first(), es[0].0) {
            if es[0].0 == k {
                assert(has_key(es, k)) by {
                    assert(es[0].0 == k);
                }
            }
            if has_key(es, k) && es[0].0 != k {
                let i = choose|i: int| 0 <= i < es.len() && (#[trigger] es[i]).0 == k;
                assert(tail[i - 1].0 == k);
                assert(has_key(tail, k));
            }
        } else {
            let d = seq![es[0]] + dedup_last(tail);
            if has_key(dedup_last(es), k) {
                let i = choose|i: int| 0 <= i < d.len() && (#[trigger] d[i]).0 == k;
                if i == 0 {
                    assert(es[0].0 == k);
                } else {
                    assert(dedup_last(tail)[i - 1].0 == k);
                    assert(has_key(dedup_last(tail), k));
                    let j = choose|j: int| 0 <= j < tail.len() && (#[trigger] tail[j]).0 == k;
                    assert(es[j + 1].0 == k);
                }
                assert(has_key(es, k));
            }
            if has_key(es, k) {
                let i = choose|i: int| 0 <= i < es.len() && (#[trigger] es[i]).0 == k;
                if i == 0 {
                    assert(d[0].0 == k);
                } else {
                    assert(tail[i - 1].0 == k);
                    assert(has_key(tail, k));
                    let j = choose|j: int|
                        0 <= j < dedup_last(tail).len() && (#[trigger] dedup_last(tail)[j]).0 == k;
                    assert(d[j + 1].0 == k);
                }
                assert(has_key(dedup_last(es), k));
            }
        }
    }
}

/// The last occurrence of a key wins: after deduplication, each key that
/// occurs among the pairs is mapped to the value of its last pair.
pub proof fn lemma_last_occurrence_wins(es: Seq<(Seq<char>, Seq<char>)>, k: Seq<char>)
    requires
        has_key(es, k),
    ensures
        has_key(dedup_last(es), k),
        lookup(dedup_last(es), k) == last_value(es, k),
    decreases es.len(),
{
    lemma_dedup_keys(es, k);
    let tail = es.drop_first();
    if es[0].0 == k && !has_key(tail, k) {
        assert(!has_key(tail, es[0].0));
        let d = seq![es[0]] + dedup_last(tail);
        assert(d[0].0 == k);
        assert(lookup(d, k) == es[0].1);
        assert(last_value(es, k) == es[0].1);
    } else {
        assert(has_key(tail, k)) by {
            let i = choose|i: int| 0 <= i < es.len() && (#[trigger] es[i]).0 == k;
            if i > 0 {
                assert(tail[i - 1].0 == k);
            }
        }
        lemma_last_occurrence_wins(tail, k);
        assert(last_value(es, k) == last_value(tail, k));
        if has_key(tail, es[0].0) {
            assert(dedup_last(es) == dedup_last(tail));
        } else {
            assert(es[0].0 != k);
            let d = seq![es[0]] + dedup_last(tail);
            assert(d.drop_first() =~= dedup_last(tail));
            assert(lookup(d, k) == lookup(dedup_last(tail), k));
        }
    }
}

/// The request envelope handed to the HTTP transport. A body, when present,
/// is JSON text and the request declares a JSON content type.
pub struct BuiltRequest {
    pub method: Method,
    pub url: String,
    pub body: Option<String>,
}

/// The body the builder owes: none for GET; for POST the serialized JSON
/// object of the deduplicated pairs.
pub open spec fn built_body(req: RequestSpec) -> Option<Seq<char>> {
    match req.method {
        Method::Get => None,
        Method::Post => Some(object_text(dedup_last(kvs(req.body@)))),
    }
}

/// Whether any pair in `ps` from position `from` on has key `k`.
fn key_in_tail(ps: &Vec<KvPair>, from: usize, k: &String) -> (r: bool)
    requires
        from <= ps@.len(),
    ensures
        r == exists|i: int| from <= i < ps@.len() && (#[trigger] ps@[i]).key@ == k@,
{
    let n = ps.len();
    let mut i: usize = from;
    while i < n
        invariant
            from <= i <= n,
            n == ps@.len(),
            forall|j: int| from <= j < i ==> (#[trigger] ps@[j]).key@ != k@,
        decreases n - i,
    {
        if ps[i].key.eq(k) {
            return true;
        }
        i = i + 1;
    }
    false
}

/// `has_key` on the views of a tail of pairs says exactly that some later
/// pair carries the key.
proof fn lemma_key_in_tail(ps: Seq<KvPair>, from: int, k: Seq<char>)
    requires
        0 <= from <= ps.len(),
    ensures
        has_key(kvs(ps).skip(from), k) <==> exists|i: int|
            from <= i < ps.len() && (#[trigger] ps[i]).key@ == k,
{
    let tail = kvs(ps).skip(from);
    if has_key(tail, k) {
        let i = choose|i: int| 0 <= i < tail.len() && (#[trigger] tail[i]).0 == k;
        assert(tail[i] == kvs(ps)[from + i]);
        assert(ps[from + i].key@ == k);
    }
    if exists|i: int| from <= i < ps.len() && (#[trigger] ps[i]).key@ == k {
        let i = choose|i: int| from <= i < ps.len() && (#[trigger] ps[i]).key@ == k;
        assert(tail[i - from] == kvs(ps)[i]);
        assert(tail[i - from].0 == k);
        assert(has_key(tail, k));
    }
}

/// Builds the HTTP envelope from a descriptor: a GET never attaches a body;
/// a POST serializes its pairs as a JSON object in which, of duplicate
/// keys, the last occurrence wins.
pub fn build_request(req: &RequestSpec) -> (r: BuiltRequest)
    ensures
        r.method == req.method,
        r.url@ == req.url@,
        req.method is Get ==> r.body is None,
        (match built_body(*req) {
            Option::None => r.body is None,
            Option::Some(b) => r.body matches Some(s) && s@ == b,
        }),
{
    match req.method {
        Method::Get => {
            BuiltRequest { method: Method::Get, url: req.url.clone(), body: None }
        },
        Method::Post => {
            let ghost full = kvs(req.body@);
            let mut entries: Vec<KvPair> = Vec::new();
            let n = req.body.len();
            let mut i: usize = 0;
            proof {
                assert(full.skip(0) =~= full);
            }
            while i < n
                invariant
                    n == req.body@.len(),
                    0 <= i <= n,
                    full == kvs(req.body@),
                    kvs(entries@) + dedup_last(full.skip(i as int)) == dedup_last(full),
                decreases n - i,
            {
                let p = &req.body[i];
                let keep = !key_in_tail(&req.body, i + 1, &p.key);
                proof {
                    lemma_key_in_tail(req.body@, i as int + 1, p.key@);
                    let t = full.skip(i as int);
                    assert(t.drop_first() =~= full.skip(i as int + 1));
                    assert(t[0] == full[i as int]);
                    assert(t[0] == (p.key@, p.value@));
                }
                if keep {
                    let kept = KvPair { key: p.key.clone(), value: p.value.clone() };
                    entries.push(kept);
                    proof {
                        assert(kvs(entries@) =~= kvs(entries@.drop_last()) + seq![
                            (p.key@, p.value@),
                        ]);
                        assert(kvs(entries@) + dedup_last(full.skip(i as int + 1)) =~= dedup_last(
                            full,
                        ));
                    }
                }
                i = i + 1;
            }
            proof {
                assert(full.skip(n as int) =~= Seq::empty());
                assert(kvs(entries@) + dedup_last(full.skip(n as int)) =~= kvs(entries@));
                assert(kvs(entries@) == dedup_last(full));
            }
            let body = object_string(&entries);
            BuiltRequest { method: Method::Post, url: req.url.clone(), body: Some(body) }
        },
    }
}

} // verus!
