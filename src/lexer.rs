//! Splitting clause text into tokens: `=>`, `,`, the wildcard `_`, quoted
//! literals (with the prefixes `b`, `c`, and the raw forms `r`, `br`, `cr`
//! with any number of `#`) and bare literal words such as `true`, `8080` or
//! `- 1`. Comments are not read: token streams printed by the compiler hold
//! none.
use vstd::prelude::*;

verus! {

/// What a token is; `End` marks the end of the text and `Bad` a character
/// that starts no token.
#[derive(Clone, Copy, Debug, PartialEq, Eq, Structural)]
pub enum TokenKind {
    End,
    Bad,
    Arrow,
    Comma,
    Wild,
    Word,
    Quoted,
}

pub open spec fn is_space(c: char) -> bool {
    c == ' ' || c == '\t' || c == '\n' || c == '\r'
}

/// Characters that make up a bare literal such as `true`, `8080`, `-1.5e3`.
pub open spec fn is_word_char(c: char) -> bool {
    ('a' <= c && c <= 'z') || ('A' <= c && c <= 'Z') || ('0' <= c && c <= '9') || c == '_'
        || c == '.' || c == '-'
}

/// The first position at or after `i` that does not hold a space.
pub open spec fn skip_space(s: Seq<char>, i: int) -> int
    decreases s.len() - i,
{
    if 0 <= i < s.len() && is_space(s[i]) {
        skip_space(s, i + 1)
    } else {
        i
    }
}

/// The end of the run of word characters that starts at `i`.
pub open spec fn word_end(s: Seq<char>, i: int) -> int
    decreases s.len() - i,
{
    if 0 <= i < s.len() && is_word_char(s[i]) {
        word_end(s, i + 1)
    } else {
        i
    }
}

/// Scanning the inside of a literal opened by quote `q`, from `i`: the
/// position just past the closing quote, or -1 when the literal is never
/// closed. A backslash escapes the character after it.
pub open spec fn quote_end(s: Seq<char>, i: int, q: char) -> int
    decreases s.len() - i,
{
    if i < 0 || i >= s.len() {
        -1
    } else if s[i] == '\\' {
        if i + 1 < s.len() {
            quote_end(s, i + 2, q)
        } else {
            -1
        }
    } else if s[i] == q {
        i + 1
    } else {
        quote_end(s, i + 1, q)
    }
}

/// The end of the run of `#` that starts at `i`.
pub open spec fn hash_end(s: Seq<char>, i: int) -> int
    decreases s.len() - i,
{
    if 0 <= i < s.len() && s[i] == '#' {
        hash_end(s, i + 1)
    } else {
        i
    }
}

/// Whether `k` characters `#` stand from position `p` on.
pub open spec fn hashes_at(s: Seq<char>, p: int, k: int) -> bool {
    0 <= p && p + k <= s.len() && forall|j: int| p <= j < p + k ==> s[j] == '#'
}

/// Scanning the inside of a raw literal closed by `"` and `k` characters
/// `#`, from `i`: the position just past its end, or -1 when it is never
/// closed.
pub open spec fn raw_end(s: Seq<char>, i: int, k: int) -> int
    decreases s.len() - i,
{
    if i < 0 || i >= s.len() {
        -1
    } else if s[i] == '"' && hashes_at(s, i + 1, k) {
        i + 1 + k
    } else {
        raw_end(s, i + 1, k)
    }
}

/// Where the `r` of a raw literal's prefix (`r`, `br` or `cr`) that starts
/// at `a` ends, or -1 where no such prefix starts there.
pub open spec fn raw_prefix_end(s: Seq<char>, a: int) -> int {
    if s[a] == 'r' {
        a + 1
    } else if (s[a] == 'b' || s[a] == 'c') && a + 1 < s.len() && s[a + 1] == 'r' {
        a + 2
    } else {
        -1
    }
}

/// Whether a byte literal (`b"`, `b'`) or a C string (`c"`) starts at `a`.
pub open spec fn is_quote_prefix(s: Seq<char>, a: int) -> bool {
    a + 1 < s.len() && ((s[a] == 'b' && (s[a + 1] == '"' || s[a + 1] == '\'')) || (s[a] == 'c'
        && s[a + 1] == '"'))
}

/// The token of word characters that starts at `a`: `_` alone is the
/// wildcard, and a lone `-` takes in the word after the spaces that follow it.
pub open spec fn word_token(s: Seq<char>, a: int) -> (TokenKind, int, int) {
    let e = word_end(s, a);
    if e == a + 1 && s[a] == '_' {
        (TokenKind::Wild, a, e)
    } else if e == a + 1 && s[a] == '-' {
        let b = skip_space(s, a + 1);
        if b < s.len() && is_word_char(s[b]) {
            (TokenKind::Word, a, word_end(s, b))
        } else {
            (TokenKind::Word, a, e)
        }
    } else {
        (TokenKind::Word, a, e)
    }
}

/// The raw literal whose prefix ends at `p`, starting at `a`.
pub open spec fn raw_token(s: Seq<char>, a: int, p: int) -> (TokenKind, int, int) {
    let h = hash_end(s, p);
    if h < s.len() && s[h] == '"' && raw_end(s, h + 1, h - p) >= 0 {
        (TokenKind::Quoted, a, raw_end(s, h + 1, h - p))
    } else {
        (TokenKind::Bad, a, a)
    }
}

/// The token that follows position `i`, as its kind, start and end.
#[verifier::opaque]
pub open spec fn next_token(s: Seq<char>, i: int) -> (TokenKind, int, int) {
    let a = skip_space(s, i);
    if a >= s.len() {
        (TokenKind::End, a, a)
    } else if s[a] == ',' {
        (TokenKind::Comma, a, a + 1)
    } else if s[a] == '=' {
        if a + 1 < s.len() && s[a + 1] == '>' {
            (TokenKind::Arrow, a, a + 2)
        } else {
            (TokenKind::Bad, a, a)
        }
    } else if s[a] == '"' || s[a] == '\'' {
        let e = quote_end(s, a + 1, s[a]);
        if e < 0 {
            (TokenKind::Bad, a, a)
        } else {
            (TokenKind::Quoted, a, e)
        }
    } else if is_quote_prefix(s, a) {
        let e = quote_end(s, a + 2, s[a + 1]);
        if e < 0 {
            (TokenKind::Bad, a, a)
        } else {
            (TokenKind::Quoted, a, e)
        }
    } else if raw_prefix_end(s, a) >= 0 && raw_prefix_end(s, a) < s.len() && (s[raw_prefix_end(
        s,
        a,
    )] == '"' || s[raw_prefix_end(s, a)] == '#') {
        raw_token(s, a, raw_prefix_end(s, a))
    } else if is_word_char(s[a]) {
        word_token(s, a)
    } else {
        (TokenKind::Bad, a, a)
    }
}

pub proof fn lemma_skip_space_bounds(s: Seq<char>, i: int)
    requires
        0 <= i <= s.len(),
    ensures
        i <= skip_space(s, i) <= s.len(),
        skip_space(s, i) < s.len() ==> !is_space(s[skip_space(s, i)]),
        forall|k: int| i <= k < skip_space(s, i) ==> is_space(#[trigger] s[k]),
    decreases s.len() - i,
{
    if i < s.len() && is_space(s[i]) {
        lemma_skip_space_bounds(s, i + 1);
    }
}

pub proof fn lemma_word_end_bounds(s: Seq<char>, i: int)
    requires
        0 <= i <= s.len(),
    ensures
        i <= word_end(s, i) <= s.len(),
    decreases s.len() - i,
{
    if i < s.len() && is_word_char(s[i]) {
        lemma_word_end_bounds(s, i + 1);
    }
}

pub proof fn lemma_quote_end_bounds(s: Seq<char>, i: int, q: char)
    requires
        0 <= i,
    ensures
        quote_end(s, i, q) == -1 || i < quote_end(s, i, q) <= s.len(),
    decreases s.len() - i,
{
    if i < s.len() {
        if s[i] == '\\' {
            if i + 1 < s.len() {
                lemma_quote_end_bounds(s, i + 2, q);
            }
        } else if s[i] != q {
            lemma_quote_end_bounds(s, i + 1, q);
        }
    }
}

pub proof fn lemma_hash_end_bounds(s: Seq<char>, i: int)
    requires
        0 <= i <= s.len(),
    ensures
        i <= hash_end(s, i) <= s.len(),
    decreases s.len() - i,
{
    if i < s.len() && s[i] == '#' {
        lemma_hash_end_bounds(s, i + 1);
    }
}

pub proof fn lemma_raw_end_bounds(s: Seq<char>, i: int, k: int)
    requires
        0 <= i,
        0 <= k,
    ensures
        raw_end(s, i, k) == -1 || i < raw_end(s, i, k) <= s.len(),
    decreases s.len() - i,
{
    if i < s.len() && !(s[i] == '"' && hashes_at(s, i + 1, k)) {
        lemma_raw_end_bounds(s, i + 1, k);
    }
}

/// A token starts at or after where the scan began, and ends within the text.
pub proof fn lemma_next_token_bounds(s: Seq<char>, i: int)
    requires
        0 <= i <= s.len(),
    ensures
        i <= next_token(s, i).1 <= next_token(s, i).2 <= s.len(),
        next_token(s, i).0 == TokenKind::Comma ==> next_token(s, i).2 == next_token(s, i).1 + 1,
        next_token(s, i).0 == TokenKind::End ==> next_token(s, i).1 == s.len(),
        (next_token(s, i).0 == TokenKind::Quoted || next_token(s, i).0 == TokenKind::Word
            || next_token(s, i).0 == TokenKind::Wild) ==> next_token(s, i).1 < next_token(s, i).2,
{
    reveal(next_token);
    lemma_skip_space_bounds(s, i);
    let a = skip_space(s, i);
    if a < s.len() {
        if s[a] == '"' || s[a] == '\'' {
            lemma_quote_end_bounds(s, a + 1, s[a]);
        } else if is_quote_prefix(s, a) {
            lemma_quote_end_bounds(s, a + 2, s[a + 1]);
        } else if raw_prefix_end(s, a) >= 0 && raw_prefix_end(s, a) < s.len() {
            let p = raw_prefix_end(s, a);
            lemma_hash_end_bounds(s, p);
            lemma_raw_end_bounds(s, hash_end(s, p) + 1, hash_end(s, p) - p);
        }
        if is_word_char(s[a]) {
            lemma_word_end_bounds(s, a);
            assert(word_end(s, a) == word_end(s, a + 1));
            lemma_word_end_bounds(s, a + 1);
            lemma_skip_space_bounds(s, a + 1);
            let b = skip_space(s, a + 1);
            if b < s.len() {
                lemma_word_end_bounds(s, b);
            }
        }
    }
}

proof fn lemma_skip_space_push_comma(s: Seq<char>, i: int)
    requires
        0 <= i <= s.len(),
    ensures
        skip_space(s.push(','), i) == skip_space(s, i),
    decreases s.len() - i,
{
    if i < s.len() {
        assert(s.push(',')[i] == s[i]);
        if is_space(s[i]) {
            lemma_skip_space_push_comma(s, i + 1);
        }
    } else {
        assert(s.push(',')[i] == ',');
    }
}

proof fn lemma_word_end_push_comma(s: Seq<char>, i: int)
    requires
        0 <= i <= s.len(),
    ensures
        word_end(s.push(','), i) == word_end(s, i),
    decreases s.len() - i,
{
    if i < s.len() {
        assert(s.push(',')[i] == s[i]);
        if is_word_char(s[i]) {
            lemma_word_end_push_comma(s, i + 1);
        }
    } else {
        assert(s.push(',')[i] == ',');
    }
}

proof fn lemma_quote_end_push_comma(s: Seq<char>, i: int, q: char)
    requires
        0 <= i <= s.len(),
        q != ',',
    ensures
        quote_end(s.push(','), i, q) == quote_end(s, i, q),
    decreases s.len() - i,
{
    let s2 = s.push(',');
    if i < s.len() {
        assert(s2[i] == s[i]);
        if s[i] == '\\' {
            if i + 1 < s.len() {
                lemma_quote_end_push_comma(s, i + 2, q);
            } else {
                assert(quote_end(s2, i + 2, q) == -1);
            }
        } else if s[i] != q {
            lemma_quote_end_push_comma(s, i + 1, q);
        }
    } else {
        assert(s2[i] == ',');
        assert(quote_end(s2, i + 1, q) == -1);
    }
}

proof fn lemma_hash_end_push_comma(s: Seq<char>, i: int)
    requires
        0 <= i <= s.len(),
    ensures
        hash_end(s.push(','), i) == hash_end(s, i),
    decreases s.len() - i,
{
    if i < s.len() {
        assert(s.push(',')[i] == s[i]);
        if s[i] == '#' {
            lemma_hash_end_push_comma(s, i + 1);
        }
    } else {
        assert(s.push(',')[i] == ',');
    }
}

proof fn lemma_raw_end_push_comma(s: Seq<char>, i: int, k: int)
    requires
        0 <= i <= s.len(),
        0 <= k,
    ensures
        raw_end(s.push(','), i, k) == raw_end(s, i, k),
    decreases s.len() - i,
{
    let s2 = s.push(',');
    if i < s.len() {
        assert(s2[i] == s[i]);
        if hashes_at(s2, i + 1, k) && !hashes_at(s, i + 1, k) {
            if i + 1 + k > s.len() {
                assert(s2[s.len() as int] == ',');
                assert(s2[s.len() as int] == '#');
            } else {
                let j = choose|j: int| i + 1 <= j < i + 1 + k && s[j] != '#';
                assert(s2[j] == s[j]);
            }
        }
        if hashes_at(s, i + 1, k) {
            assert forall|j: int| i + 1 <= j < i + 1 + k implies s2[j] == '#' by {
                assert(s2[j] == s[j]);
            }
        }
        if !(s[i] == '"' && hashes_at(s, i + 1, k)) {
            lemma_raw_end_push_comma(s, i + 1, k);
        }
    } else {
        assert(s2[i] == ',');
        assert(raw_end(s2, i + 1, k) == -1);
    }
}

/// Appending `,` to the text changes no token before it: where the text
/// ended, the comma now stands.
pub proof fn lemma_next_token_push_comma(s: Seq<char>, i: int)
    requires
        0 <= i <= s.len(),
    ensures
        next_token(s, i).0 != TokenKind::End ==> next_token(s.push(','), i) == next_token(s, i),
        next_token(s, i).0 == TokenKind::End ==> next_token(s.push(','), i) == (
            TokenKind::Comma,
            s.len() as int,
            s.len() as int + 1,
        ),
        next_token(s, i).0 == TokenKind::Comma ==> s[next_token(s, i).1] == ',',
{
    reveal(next_token);
    let s2 = s.push(',');
    lemma_skip_space_bounds(s, i);
    lemma_skip_space_push_comma(s, i);
    let a = skip_space(s, i);
    if a < s.len() {
        assert(s2[a] == s[a]);
        if a + 1 < s.len() {
            assert(s2[a + 1] == s[a + 1]);
        } else {
            assert(s2[a + 1] == ',');
        }
        if a + 2 < s.len() {
            assert(s2[a + 2] == s[a + 2]);
        } else if a + 2 == s.len() {
            assert(s2[a + 2] == ',');
        }
        if s[a] == '"' || s[a] == '\'' {
            lemma_quote_end_push_comma(s, a + 1, s[a]);
        } else if is_quote_prefix(s, a) {
            lemma_quote_end_push_comma(s, a + 2, s[a + 1]);
        } else if raw_prefix_end(s, a) >= 0 && raw_prefix_end(s, a) < s.len() {
            let p = raw_prefix_end(s, a);
            lemma_hash_end_bounds(s, p);
            lemma_hash_end_push_comma(s, p);
            let h = hash_end(s, p);
            if h < s.len() {
                assert(s2[h] == s[h]);
                lemma_raw_end_push_comma(s, h + 1, h - p);
            } else {
                assert(s2[h] == ',');
            }
        }
        if is_word_char(s[a]) {
            lemma_word_end_push_comma(s, a);
            lemma_word_end_bounds(s, a);
            lemma_skip_space_bounds(s, a + 1);
            lemma_skip_space_push_comma(s, a + 1);
            let b = skip_space(s, a + 1);
            if b < s.len() {
                assert(s2[b] == s[b]);
                lemma_word_end_push_comma(s, b);
            } else {
                assert(s2[b] == ',');
            }
        }
    } else {
        assert(s2[a] == ',');
    }
}

fn is_space_char(c: char) -> (r: bool)
    ensures
        r == is_space(c),
{
    c == ' ' || c == '\t' || c == '\n' || c == '\r'
}

fn is_word(c: char) -> (r: bool)
    ensures
        r == is_word_char(c),
{
    ('a' <= c && c <= 'z') || ('A' <= c && c <= 'Z') || ('0' <= c && c <= '9') || c == '_'
        || c == '.' || c == '-'
}

fn scan_space(text: &str, n: usize, i: usize) -> (r: usize)
    requires
        n == text@.len(),
        i <= n,
    ensures
        r as int == skip_space(text@, i as int),
{
    let mut j = i;
    while j < n && is_space_char(text.get_char(j))
        invariant
            i <= j <= n,
            n == text@.len(),
            skip_space(text@, i as int) == skip_space(text@, j as int),
        decreases n - j,
    {
        j = j + 1;
    }
    j
}

fn scan_word(text: &str, n: usize, i: usize) -> (r: usize)
    requires
        n == text@.len(),
        i <= n,
    ensures
        r as int == word_end(text@, i as int),
{
    let mut j = i;
    while j < n && is_word(text.get_char(j))
        invariant
            i <= j <= n,
            n == text@.len(),
            word_end(text@, i as int) == word_end(text@, j as int),
        decreases n - j,
    {
        j = j + 1;
    }
    j
}

fn scan_hashes(text: &str, n: usize, i: usize) -> (r: usize)
    requires
        n == text@.len(),
        i <= n,
    ensures
        r as int == hash_end(text@, i as int),
{
    let mut j = i;
    while j < n && text.get_char(j) == '#'
        invariant
            i <= j <= n,
            n == text@.len(),
            hash_end(text@, i as int) == hash_end(text@, j as int),
        decreases n - j,
    {
        j = j + 1;
    }
    j
}

fn scan_quoted(text: &str, n: usize, i: usize, q: char) -> (r: Option<usize>)
    requires
        n == text@.len(),
        i <= n,
    ensures
        match r {
            Some(e) => quote_end(text@, i as int, q) == e as int,
            None => quote_end(text@, i as int, q) == -1,
        },
{
    let mut j = i;
    while j < n
        invariant
            i <= j <= n,
            n == text@.len(),
            quote_end(text@, i as int, q) == quote_end(text@, j as int, q),
        decreases n - j,
    {
        let d = text.get_char(j);
        if d == '\\' {
            if j + 1 < n {
                j = j + 2;
            } else {
                return None;
            }
        } else if d == q {
            return Some(j + 1);
        } else {
            j = j + 1;
        }
    }
    None
}

fn has_hashes(text: &str, n: usize, p: usize, k: usize) -> (r: bool)
    requires
        n == text@.len(),
        p <= n,
    ensures
        r == hashes_at(text@, p as int, k as int),
{
    if k > n - p {
        return false;
    }
    let mut j: usize = 0;
    while j < k
        invariant
            j <= k,
            p + k <= n,
            n == text@.len(),
            forall|m: int| p <= m < p + j ==> text@[m] == '#',
        decreases k - j,
    {
        if text.get_char(p + j) != '#' {
            return false;
        }
        j = j + 1;
    }
    true
}

fn scan_raw(text: &str, n: usize, i: usize, k: usize) -> (r: Option<usize>)
    requires
        n == text@.len(),
        i <= n,
    ensures
        match r {
            Some(e) => raw_end(text@, i as int, k as int) == e as int,
            None => raw_end(text@, i as int, k as int) == -1,
        },
{
    let mut j = i;
    while j < n
        invariant
            i <= j <= n,
            n == text@.len(),
            raw_end(text@, i as int, k as int) == raw_end(text@, j as int, k as int),
        decreases n - j,
    {
        if text.get_char(j) == '"' && has_hashes(text, n, j + 1, k) {
            return Some(j + 1 + k);
        }
        j = j + 1;
    }
    None
}

/// Reads the token that follows position `i` of `text`, whose length in
/// characters is `n`.
pub fn read_token(text: &str, n: usize, i: usize) -> (r: (TokenKind, usize, usize))
    requires
        n == text@.len(),
        i <= n,
    ensures
        (r.0, r.1 as int, r.2 as int) == next_token(text@, i as int),
{
    reveal(next_token);
    let ghost s = text@;
    proof {
        lemma_skip_space_bounds(s, i as int);
    }
    let a = scan_space(text, n, i);
    if a >= n {
        return (TokenKind::End, a, a);
    }
    let c = text.get_char(a);
    let c1 = if a + 1 < n {
        text.get_char(a + 1)
    } else {
        ' '
    };
    let p: usize = if c == 'r' {
        a + 1
    } else if (c == 'b' || c == 'c') && c1 == 'r' {
        a + 2
    } else {
        0
    };
    let mut raw_here = false;
    if p > a && p < n {
        let d = text.get_char(p);
        raw_here = d == '"' || d == '#';
    }
    if c == ',' {
        (TokenKind::Comma, a, a + 1)
    } else if c == '=' {
        if c1 == '>' {
            (TokenKind::Arrow, a, a + 2)
        } else {
            (TokenKind::Bad, a, a)
        }
    } else if c == '"' || c == '\'' {
        match scan_quoted(text, n, a + 1, c) {
            Some(e) => (TokenKind::Quoted, a, e),
            None => (TokenKind::Bad, a, a),
        }
    } else if (c == 'b' && (c1 == '"' || c1 == '\'')) || (c == 'c' && c1 == '"') {
        match scan_quoted(text, n, a + 2, c1) {
            Some(e) => (TokenKind::Quoted, a, e),
            None => (TokenKind::Bad, a, a),
        }
    } else if raw_here {
        let h = scan_hashes(text, n, p);
        proof {
            lemma_hash_end_bounds(s, p as int);
        }
        if h < n && text.get_char(h) == '"' {
            match scan_raw(text, n, h + 1, h - p) {
                Some(e) => (TokenKind::Quoted, a, e),
                None => (TokenKind::Bad, a, a),
            }
        } else {
            (TokenKind::Bad, a, a)
        }
    } else if is_word(c) {
        let e = scan_word(text, n, a);
        if e == a + 1 && c == '_' {
            (TokenKind::Wild, a, e)
        } else if e == a + 1 && c == '-' {
            proof {
                lemma_skip_space_bounds(s, a + 1);
            }
            let b = scan_space(text, n, a + 1);
            if b < n && is_word(text.get_char(b)) {
                (TokenKind::Word, a, scan_word(text, n, b))
            } else {
                (TokenKind::Word, a, e)
            }
        } else {
            (TokenKind::Word, a, e)
        }
    } else {
        (TokenKind::Bad, a, a)
    }
}

} // verus!
