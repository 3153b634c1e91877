//! Extracting the authorization code from an HTTP request line.
//!
//! The redirect that completes the flow arrives as a single request line,
//! `GET /callback?state=...&code=<value>&... HTTP/1.1`. The code is the value
//! of the first `code=` pair of the query string: the request line is split on
//! whitespace, the second token is the request target, everything after the
//! target's first `?` is the query string, the query string is split on `&`
//! into pairs, each pair is split on its first `=` into key and value, and the
//! first pair whose key is exactly `code` wins. Values are taken verbatim, not
//! URL-decoded.

use vstd::prelude::*;

verus! {

/// ASCII whitespace, as the request-line tokenizer understands it.
pub open spec fn is_ws(c: char) -> bool {
    c == ' ' || c == '\t' || c == '\r' || c == '\n'
}

/// The longest whitespace-free prefix of `s`: the token starting at `s`.
pub open spec fn take_token(s: Seq<char>) -> Seq<char>
    decreases s.len(),
{
    if s.len() == 0 || is_ws(s[0]) {
        Seq::empty()
    } else {
        seq![s[0]] + take_token(s.drop_first())
    }
}

/// What remains of `s` after the token starting at `s`.
pub open spec fn after_token(s: Seq<char>) -> Seq<char>
    decreases s.len(),
{
    if s.len() == 0 || is_ws(s[0]) {
        s
    } else {
        after_token(s.drop_first())
    }
}

/// `s` without its leading whitespace.
pub open spec fn skip_ws(s: Seq<char>) -> Seq<char>
    decreases s.len(),
{
    if s.len() == 0 || !is_ws(s[0]) {
        s
    } else {
        skip_ws(s.drop_first())
    }
}

/// The prefix of `s` before the first occurrence of `c`; all of `s` if `c`
/// does not occur.
pub open spec fn split_before(s: Seq<char>, c: char) -> Seq<char>
    decreases s.len(),
{
    if s.len() == 0 || s[0] == c {
        Seq::empty()
    } else {
        seq![s[0]] + split_before(s.drop_first(), c)
    }
}

/// The suffix of `s` after the first occurrence of `c`; `None` if `c` does
/// not occur.
pub open spec fn split_after(s: Seq<char>, c: char) -> Option<Seq<char>>
    decreases s.len(),
{
    if s.len() == 0 {
        None
    } else if s[0] == c {
        Some(s.drop_first())
    } else {
        split_after(s.drop_first(), c)
    }
}

/// The request target: the second whitespace-separated token of the request
/// line, if the line has one.
pub open spec fn uri_of(line: Seq<char>) -> Option<Seq<char>> {
    let rest = skip_ws(after_token(skip_ws(line)));
    let tok = take_token(rest);
    if tok.len() == 0 {
        None
    } else {
        Some(tok)
    }
}

/// The query string: everything after the first `?` of the request target.
pub open spec fn query_of(uri: Seq<char>) -> Option<Seq<char>> {
    split_after(uri, '?')
}

/// The four characters of the query key that carries the authorization code.
pub open spec fn code_key() -> Seq<char> {
    seq!['c', 'o', 'd', 'e']
}

/// The value carried by one `key=value` pair when its key is exactly `code`:
/// the text after the pair's first `=`, verbatim. A pair without `=`, or with
/// any other key, carries no code.
pub open spec fn pair_code(p: Seq<char>) -> Option<Seq<char>> {
    if split_before(p, '=') == code_key() {
        split_after(p, '=')
    } else {
        None
    }
}

/// The value of the first `code=` pair among the `&`-separated pairs of `q`.
pub open spec fn find_code(q: Seq<char>) -> Option<Seq<char>>
    decreases q.len() via find_code_decreases
{
    match pair_code(split_before(q, '&')) {
        Some(v) => Some(v),
        None => match split_after(q, '&') {
            Some(rest) => find_code(rest),
            None => None,
        },
    }
}

#[via_fn]
proof fn find_code_decreases(q: Seq<char>) {
    lemma_split_after_shorter(q, '&');
}

/// The authorization code carried by a request line, if any: the value of the
/// first `code=` pair of the query string of the request target.
pub open spec fn code_of_line(line: Seq<char>) -> Option<Seq<char>> {
    match uri_of(line) {
        Some(uri) => match query_of(uri) {
            Some(q) => find_code(q),
            None => None,
        },
        None => None,
    }
}

/// Splitting after a character that occurs always shortens the sequence.
pub proof fn lemma_split_after_shorter(s: Seq<char>, c: char)
    ensures
        split_after(s, c) matches Some(r) ==> r.len() < s.len(),
    decreases s.len(),
{
    if s.len() > 0 && s[0] != c {
        lemma_split_after_shorter(s.drop_first(), c);
    }
}

/// A whitespace-free stretch followed by whitespace (or by the end) is
/// exactly the token at its start, and what follows it is what remains.
pub proof fn lemma_token_concat(a: Seq<char>, b: Seq<char>)
    requires
        forall|i: int| 0 <= i < a.len() ==> !is_ws(a[i]),
        b.len() == 0 || is_ws(b[0]),
    ensures
        take_token(a + b) == a,
        after_token(a + b) == b,
    decreases a.len(),
{
    if a.len() == 0 {
        assert(a + b =~= b);
        assert(a =~= Seq::<char>::empty());
    } else {
        assert((a + b)[0] == a[0]);
        assert((a + b).drop_first() =~= a.drop_first() + b);
        lemma_token_concat(a.drop_first(), b);
        assert(seq![a[0]] + a.drop_first() =~= a);
    }
}

/// Splitting on `c` at its first occurrence: a `c`-free prefix, the
/// character itself, and the rest.
pub proof fn lemma_split_found(a: Seq<char>, b: Seq<char>, c: char)
    requires
        forall|i: int| 0 <= i < a.len() ==> a[i] != c,
    ensures
        split_before(a + seq![c] + b, c) == a,
        split_after(a + seq![c] + b, c) == Some(b),
    decreases a.len(),
{
    let s = a + seq![c] + b;
    if a.len() == 0 {
        assert(s[0] == c);
        assert(s.drop_first() =~= b);
        assert(split_before(s, c) =~= a);
    } else {
        assert(s[0] == a[0]);
        assert(s.drop_first() =~= a.drop_first() + seq![c] + b);
        lemma_split_found(a.drop_first(), b, c);
        assert(seq![a[0]] + a.drop_first() =~= a);
    }
}

/// Whether `c` is request-line whitespace.
fn is_ws_char(c: char) -> (b: bool)
    ensures
        b == is_ws(c),
{
    c == ' ' || c == '\t' || c == '\r' || c == '\n'
}

/// First position at or after `i` holding a non-whitespace character.
fn scan_ws(s: &str, n: usize, i: usize) -> (j: usize)
    requires
        n == s@.len(),
        i <= n,
    ensures
        i <= j <= n,
        skip_ws(s@.skip(i as int)) == s@.skip(j as int),
{
    let mut j = i;
    while j < n
        invariant
            i <= j <= n,
            n == s@.len(),
            skip_ws(s@.skip(i as int)) == skip_ws(s@.skip(j as int)),
        ensures
            i <= j <= n,
            skip_ws(s@.skip(i as int)) == skip_ws(s@.skip(j as int)),
            j == n || !is_ws(s@[j as int]),
        decreases n - j,
    {
        if is_ws_char(s.get_char(j)) {
            proof {
                assert(s@.skip(j as int).drop_first() =~= s@.skip(j + 1 as int));
            }
            j = j + 1;
        } else {
            break;
        }
    }
    proof {
        if j == n {
            assert(s@.skip(j as int) =~= Seq::<char>::empty());
        } else {
            assert(s@.skip(j as int)[0] == s@[j as int]);
        }
    }
    j
}

/// End of the token starting at `i`: the first position at or after `i`
/// holding whitespace.
fn scan_token(s: &str, n: usize, i: usize) -> (j: usize)
    requires
        n == s@.len(),
        i <= n,
    ensures
        i <= j <= n,
        take_token(s@.skip(i as int)) == s@.subrange(i as int, j as int),
        after_token(s@.skip(i as int)) == s@.skip(j as int),
{
    proof {
        assert(s@.subrange(i as int, i as int) + take_token(s@.skip(i as int)) =~= take_token(
            s@.skip(i as int),
        ));
    }
    let mut j = i;
    while j < n
        invariant
            i <= j <= n,
            n == s@.len(),
            take_token(s@.skip(i as int)) == s@.subrange(i as int, j as int) + take_token(
                s@.skip(j as int),
            ),
            after_token(s@.skip(i as int)) == after_token(s@.skip(j as int)),
        ensures
            i <= j <= n,
            take_token(s@.skip(i as int)) == s@.subrange(i as int, j as int) + take_token(
                s@.skip(j as int),
            ),
            after_token(s@.skip(i as int)) == after_token(s@.skip(j as int)),
            j == n || is_ws(s@[j as int]),
        decreases n - j,
    {
        if is_ws_char(s.get_char(j)) {
            break;
        } else {
            proof {
                assert(s@.skip(j as int)[0] == s@[j as int]);
                assert(s@.skip(j as int).drop_first() =~= s@.skip(j + 1 as int));
                assert(s@.subrange(i as int, j as int) + (seq![s@[j as int]] + take_token(
                    s@.skip(j + 1 as int),
                )) =~= s@.subrange(i as int, j + 1 as int) + take_token(s@.skip(j + 1 as int)));
            }
            j = j + 1;
        }
    }
    proof {
        if j == n {
            assert(s@.skip(j as int) =~= Seq::<char>::empty());
        } else {
            assert(s@.skip(j as int)[0] == s@[j as int]);
        }
        assert(s@.subrange(i as int, j as int) + Seq::<char>::empty() =~= s@.subrange(
            i as int,
            j as int,
        ));
    }
    j
}

/// Position of the first occurrence of `c` within `s[i..e]`, if any.
fn scan_to_char(s: &str, e: usize, i: usize, c: char) -> (r: Option<usize>)
    requires
        e <= s@.len(),
        i <= e,
    ensures
        match r {
            Some(j) => {
                &&& i <= j < e
                &&& s@[j as int] == c
                &&& split_before(s@.subrange(i as int, e as int), c) == s@.subrange(
                    i as int,
                    j as int,
                )
                &&& split_after(s@.subrange(i as int, e as int), c) == Some(
                    s@.subrange(j + 1 as int, e as int),
                )
            },
            None => {
                &&& split_before(s@.subrange(i as int, e as int), c) == s@.subrange(
                    i as int,
                    e as int,
                )
                &&& split_after(s@.subrange(i as int, e as int), c) is None
            },
        },
{
    proof {
        assert(s@.subrange(i as int, i as int) + split_before(s@.subrange(i as int, e as int), c)
            =~= split_before(s@.subrange(i as int, e as int), c));
    }
    let mut j = i;
    while j < e
        invariant
            i <= j <= e <= s@.len(),
            split_before(s@.subrange(i as int, e as int), c) == s@.subrange(i as int, j as int)
                + split_before(s@.subrange(j as int, e as int), c),
            split_after(s@.subrange(i as int, e as int), c) == split_after(
                s@.subrange(j as int, e as int),
                c,
            ),
        ensures
            i <= j <= e,
            split_before(s@.subrange(i as int, e as int), c) == s@.subrange(i as int, j as int)
                + split_before(s@.subrange(j as int, e as int), c),
            split_after(s@.subrange(i as int, e as int), c) == split_after(
                s@.subrange(j as int, e as int),
                c,
            ),
            j == e || s@[j as int] == c,
        decreases e - j,
    {
        if s.get_char(j) == c {
            break;
        } else {
            proof {
                assert(s@.subrange(j as int, e as int)[0] == s@[j as int]);
                assert(s@.subrange(j as int, e as int).drop_first() =~= s@.subrange(
                    j + 1 as int,
                    e as int,
                ));
                assert(s@.subrange(i as int, j as int) + (seq![s@[j as int]] + split_before(
                    s@.subrange(j + 1 as int, e as int),
                    c,
                )) =~= s@.subrange(i as int, j + 1 as int) + split_before(
                    s@.subrange(j + 1 as int, e as int),
                    c,
                ));
            }
            j = j + 1;
        }
    }
    if j < e {
        proof {
            assert(s@.subrange(j as int, e as int)[0] == s@[j as int]);
            assert(s@.subrange(j as int, e as int).drop_first() =~= s@.subrange(
                j + 1 as int,
                e as int,
            ));
        }
        Some(j)
    } else {
        proof {
            assert(s@.subrange(j as int, e as int) =~= Seq::<char>::empty());
            assert(s@.subrange(i as int, j as int) + Seq::<char>::empty() =~= s@.subrange(
                i as int,
                j as int,
            ));
        }
        None
    }
}

/// A well-formed redirect request line whose `code=` pair carries `v`,
/// between a `state` pair and a trailing pair.
pub open spec fn redirect_line(v: Seq<char>) -> Seq<char> {
    "GET /callback?state=abc&code="@ + v + "&foo=bar HTTP/1.1"@
}

/// A redirect request line whose query string carries two `code=` pairs,
/// the first with `v1` and the second with `v2`.
pub open spec fn duplicate_code_line(v1: Seq<char>, v2: Seq<char>) -> Seq<char> {
    "GET /callback?code="@ + v1 + "&code="@ + v2 + " HTTP/1.1"@
}

/// For every well-formed redirect request line whose `code=` value is a
/// non-empty `v` holding no `&`, `=` or whitespace, the extracted code is
/// exactly `v`.
pub proof fn lemma_wellformed_code_extracted(v: Seq<char>)
    requires
        v.len() > 0,
        forall|i: int| 0 <= i < v.len() ==> v[i] != '&' && v[i] != '=' && !is_ws(#[trigger] v[i]),
    ensures
        code_of_line(redirect_line(v)) == Some(v),
{
    reveal_strlit("GET /callback?state=abc&code=");
    reveal_strlit("&foo=bar HTTP/1.1");
    reveal_strlit("GET");
    reveal_strlit(" ");
    reveal_strlit("/callback");
    reveal_strlit("?");
    reveal_strlit("state=abc");
    reveal_strlit("state");
    reveal_strlit("abc");
    reveal_strlit("&");
    reveal_strlit("code=");
    reveal_strlit("&foo=bar");
    reveal_strlit("foo=bar");
    reveal_strlit(" HTTP/1.1");
    let line = redirect_line(v);
    let uri = "/callback"@ + "?"@ + "state=abc"@ + "&"@ + "code="@ + v + "&foo=bar"@;
    let tail = " HTTP/1.1"@;
    // the line splits into its method token, one space, and the rest
    let s1 = " "@ + uri + tail;
    assert(line =~= "GET"@ + s1);
    assert(forall|i: int| 0 <= i < "GET"@.len() ==> !is_ws(#[trigger] "GET"@[i]));
    lemma_token_concat("GET"@, s1);
    assert(!is_ws(line[0]));
    assert(skip_ws(line) == line);
    assert(s1.drop_first() =~= uri + tail);
    assert(skip_ws(s1) == skip_ws(uri + tail));
    // the request target is the second token
    assert(forall|i: int| 0 <= i < "/callback"@.len() ==> !is_ws(#[trigger] "/callback"@[i]));
    assert(forall|i: int| 0 <= i < "state=abc"@.len() ==> !is_ws(#[trigger] "state=abc"@[i]));
    assert(forall|i: int| 0 <= i < "code="@.len() ==> !is_ws(#[trigger] "code="@[i]));
    assert(forall|i: int| 0 <= i < "&foo=bar"@.len() ==> !is_ws(#[trigger] "&foo=bar"@[i]));
    assert(forall|i: int| 0 <= i < uri.len() ==> !is_ws(#[trigger] uri[i]));
    assert(is_ws(tail[0]));
    lemma_token_concat(uri, tail);
    assert((uri + tail)[0] == '/' && !is_ws('/'));
    assert(skip_ws(uri + tail) == uri + tail);
    assert(uri_of(line) == Some(uri));
    // the query string follows the target's first `?`
    let q = "state=abc"@ + "&"@ + "code="@ + v + "&foo=bar"@;
    assert(uri =~= "/callback"@ + seq!['?'] + q);
    assert(forall|i: int| 0 <= i < "/callback"@.len() ==> "/callback"@[i] != '?');
    lemma_split_found("/callback"@, q, '?');
    assert(query_of(uri) == Some(q));
    // the first pair's key is `state`, not `code`
    let r1 = "code="@ + v + "&foo=bar"@;
    assert(q =~= "state=abc"@ + seq!['&'] + r1);
    assert(forall|i: int| 0 <= i < "state=abc"@.len() ==> "state=abc"@[i] != '&');
    lemma_split_found("state=abc"@, r1, '&');
    assert("state=abc"@ =~= "state"@ + seq!['='] + "abc"@);
    assert(forall|i: int| 0 <= i < "state"@.len() ==> "state"@[i] != '=');
    lemma_split_found("state"@, "abc"@, '=');
    assert("state"@.len() == 5 && code_key().len() == 4);
    assert(pair_code("state=abc"@) is None);
    assert(find_code(q) == find_code(r1));
    // the second pair's key is `code`; its value is `v`, verbatim
    let p2 = "code="@ + v;
    assert(r1 =~= p2 + seq!['&'] + "foo=bar"@);
    assert(forall|i: int| 0 <= i < p2.len() ==> #[trigger] p2[i] != '&');
    lemma_split_found(p2, "foo=bar"@, '&');
    assert(p2 =~= code_key() + seq!['='] + v);
    assert(forall|i: int| 0 <= i < code_key().len() ==> #[trigger] code_key()[i] != '=');
    lemma_split_found(code_key(), v, '=');
    assert(pair_code(p2) == Some(v));
    assert(find_code(r1) == Some(v));
}

/// When the query string carries two `code=` pairs, the value of the first
/// one is extracted; the second is never looked at.
pub proof fn lemma_first_code_wins(v1: Seq<char>, v2: Seq<char>)
    requires
        forall|i: int| 0 <= i < v1.len() ==> v1[i] != '&' && !is_ws(#[trigger] v1[i]),
        forall|i: int| 0 <= i < v2.len() ==> !is_ws(#[trigger] v2[i]),
    ensures
        code_of_line(duplicate_code_line(v1, v2)) == Some(v1),
{
    reveal_strlit("GET /callback?code=");
    reveal_strlit("&code=");
    reveal_strlit(" HTTP/1.1");
    reveal_strlit("GET");
    reveal_strlit(" ");
    reveal_strlit("/callback");
    reveal_strlit("?");
    reveal_strlit("&");
    reveal_strlit("code=");
    let line = duplicate_code_line(v1, v2);
    let uri = "/callback"@ + "?"@ + "code="@ + v1 + "&"@ + "code="@ + v2;
    let tail = " HTTP/1.1"@;
    // the line splits into its method token, one space, and the rest
    let s1 = " "@ + uri + tail;
    assert(line =~= "GET"@ + s1);
    assert(forall|i: int| 0 <= i < "GET"@.len() ==> !is_ws(#[trigger] "GET"@[i]));
    lemma_token_concat("GET"@, s1);
    assert(!is_ws(line[0]));
    assert(skip_ws(line) == line);
    assert(s1.drop_first() =~= uri + tail);
    assert(skip_ws(s1) == skip_ws(uri + tail));
    // the request target is the second token
    assert(forall|i: int| 0 <= i < "/callback"@.len() ==> !is_ws(#[trigger] "/callback"@[i]));
    assert(forall|i: int| 0 <= i < "code="@.len() ==> !is_ws(#[trigger] "code="@[i]));
    assert(forall|i: int| 0 <= i < uri.len() ==> !is_ws(#[trigger] uri[i]));
    assert(is_ws(tail[0]));
    lemma_token_concat(uri, tail);
    assert((uri + tail)[0] == '/' && !is_ws('/'));
    assert(skip_ws(uri + tail) == uri + tail);
    assert(uri_of(line) == Some(uri));
    // the query string follows the target's first `?`
    let q = "code="@ + v1 + "&"@ + "code="@ + v2;
    assert(uri =~= "/callback"@ + seq!['?'] + q);
    assert(forall|i: int| 0 <= i < "/callback"@.len() ==> "/callback"@[i] != '?');
    lemma_split_found("/callback"@, q, '?');
    assert(query_of(uri) == Some(q));
    // the first pair's key is already `code`: its value wins
    let p1 = "code="@ + v1;
    let r1 = "code="@ + v2;
    assert(q =~= p1 + seq!['&'] + r1);
    assert(forall|i: int| 0 <= i < p1.len() ==> #[trigger] p1[i] != '&');
    lemma_split_found(p1, r1, '&');
    assert(p1 =~= code_key() + seq!['='] + v1);
    assert(forall|i: int| 0 <= i < code_key().len() ==> #[trigger] code_key()[i] != '=');
    lemma_split_found(code_key(), v1, '=');
    assert(pair_code(p1) == Some(v1));
    assert(find_code(q) == Some(v1));
}

/// Extract the authorization code from one HTTP request line.
///
/// The result is the value of the first `code=` pair of the query string of
/// the request target, verbatim (not URL-decoded); `None` when the line
/// carries no such pair, in which case the redirect is malformed.
pub fn extract_code(line: &str) -> (r: Option<String>)
    ensures
        match r {
            Some(v) => code_of_line(line@) == Some(v@),
            None => code_of_line(line@) is None,
        },
{
    let n = line.unicode_len();
    proof {
        assert(line@.skip(0) =~= line@);
    }
    let i1 = scan_ws(line, n, 0);  // start of the method token
    let j1 = scan_token(line, n, i1);  // end of the method token
    let i2 = scan_ws(line, n, j1);  // start of the request target
    let j2 = scan_token(line, n, i2);  // end of the request target
    if i2 == j2 {
        // fewer than two tokens: no request target, so no code
        proof {
            assert(take_token(line@.skip(i2 as int)) =~= Seq::<char>::empty());
        }
        return None;
    }
    let ghost uri = line@.subrange(i2 as int, j2 as int);
    proof {
        assert(uri_of(line@) == Some(uri));
    }
    let qmark = scan_to_char(line, j2, i2, '?');
    let qs = match qmark {
        Some(k) => k + 1,
        None => {
            // the target has no query string
            return None;
        },
    };
    let ghost query = line@.subrange(qs as int, j2 as int);
    proof {
        assert(query_of(uri) == Some(query));
        assert(code_of_line(line@) == find_code(query));
    }
    let mut p = qs;
    loop
        invariant
            qs <= p <= j2 <= n,
            n == line@.len(),
            code_of_line(line@) == find_code(line@.subrange(p as int, j2 as int)),
        decreases j2 - p,
    {
        let ghost region = line@.subrange(p as int, j2 as int);
        let amp = scan_to_char(line, j2, p, '&');
        let pe = match amp {
            Some(a) => a,
            None => j2,
        };
        let ghost pair = line@.subrange(p as int, pe as int);
        proof {
            assert(split_before(region, '&') == pair);
        }
        let eq = scan_to_char(line, pe, p, '=');
        match eq {
            Some(epos) => {
                if epos - p == 4 && line.get_char(p) == 'c' && line.get_char(p + 1) == 'o'
                    && line.get_char(p + 2) == 'd' && line.get_char(p + 3) == 'e' {
                    // the first `code=` pair: its value, verbatim, is the code
                    proof {
                        assert(line@.subrange(p as int, epos as int) =~= code_key());
                        assert(pair_code(pair) == Some(
                            line@.subrange(epos + 1 as int, pe as int),
                        ));
                    }
                    let v = line.substring_char(epos + 1, pe);
                    return Some(v.to_owned());
                } else {
                    proof {
                        let key = line@.subrange(p as int, epos as int);
                        assert(split_before(pair, '=') == key);
                        if key == code_key() {
                            assert(key.len() == 4);
                            assert(key[0] == 'c' && key[1] == 'o' && key[2] == 'd' && key[3]
                                == 'e');
                            assert(false);
                        }
                        assert(pair_code(pair) is None);
                    }
                }
            },
            None => {
                // a pair without `=` carries no value, so no code
                proof {
                    assert(split_after(pair, '=') is None);
                    assert(pair_code(pair) is None);
                }
            },
        }
        match amp {
            Some(a) => {
                proof {
                    assert(split_after(region, '&') == Some(
                        line@.subrange(a + 1 as int, j2 as int),
                    ));
                }
                p = a + 1;
            },
            None => {
                // the last pair is spent and none carried a code
                proof {
                    assert(split_after(region, '&') is None);
                    assert(find_code(region) is None);
                }
                return None;
            },
        }
    }
}

} // verus!
