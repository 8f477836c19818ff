//! Character-sequence utilities the codec is specified with: line splitting,
//! whitespace tokenizing, single-character splitting, trimming, joining and
//! decimal formatting, each as a spec function with a verified executable
//! mirror.
//!
//! Whitespace here is ASCII whitespace (space, tab, carriage return, line
//! feed); lines split at `\n` with an optional trailing `\r` removed and no
//! empty final line, as the protocol text arrives on the wire.

use vstd::prelude::*;

verus! {

/// ASCII whitespace.
pub open spec fn is_ws(c: char) -> bool {
    c == ' ' || c == '\t' || c == '\r' || c == '\n'
}

/// The views of a sequence of strings.
pub open spec fn views_of(q: Seq<String>) -> Seq<Seq<char>> {
    q.map_values(|x: String| x@)
}

/// Appending a string appends its view.
pub proof fn lemma_views_push(q: Seq<String>, x: String)
    ensures
        views_of(q.push(x)) == views_of(q).push(x@),
{
    assert(views_of(q.push(x)) =~= views_of(q).push(x@));
}

/// The index of the first occurrence of `c` in `s`, or `s.len()` if absent.
pub open spec fn find_idx(s: Seq<char>, c: char) -> int
    decreases s.len(),
{
    if s.len() == 0 {
        0
    } else if s[0] == c {
        0
    } else {
        1 + find_idx(s.drop_first(), c)
    }
}

/// A position with no `c` before it and `c` (or the end) at it is `find_idx`.
pub proof fn lemma_find_idx_at(s: Seq<char>, c: char, j: int)
    requires
        0 <= j <= s.len(),
        forall|i: int| 0 <= i < j ==> s[i] != c,
        j == s.len() || s[j] == c,
    ensures
        find_idx(s, c) == j,
    decreases s.len(),
{
    if s.len() > 0 && s[0] != c {
        assert forall|i: int| 0 <= i < j - 1 implies s.drop_first()[i] != c by {
            assert(s.drop_first()[i] == s[i + 1]);
        }
        if j < s.len() {
            assert(s.drop_first()[j - 1] == s[j]);
        }
        lemma_find_idx_at(s.drop_first(), c, j - 1);
    }
}

/// The pieces of `s` between occurrences of `sep`, in order; one piece more
/// than there are separators, so never empty.
pub open spec fn split_chars(s: Seq<char>, sep: char) -> Seq<Seq<char>>
    decreases s.len(),
{
    if s.len() == 0 {
        seq![Seq::<char>::empty()]
    } else if s[0] == sep {
        seq![Seq::<char>::empty()] + split_chars(s.drop_first(), sep)
    } else {
        let r = split_chars(s.drop_first(), sep);
        seq![seq![s[0]] + r[0]] + r.drop_first()
    }
}

pub proof fn lemma_split_nonempty(s: Seq<char>, sep: char)
    ensures
        split_chars(s, sep).len() >= 1,
    decreases s.len(),
{
    if s.len() > 0 {
        lemma_split_nonempty(s.drop_first(), sep);
    }
}

/// A separator-free sequence is one piece.
pub proof fn lemma_split_no_sep(s: Seq<char>, sep: char)
    requires
        forall|i: int| 0 <= i < s.len() ==> s[i] != sep,
    ensures
        split_chars(s, sep) == seq![s],
    decreases s.len(),
{
    if s.len() == 0 {
        assert(s =~= Seq::<char>::empty());
        assert(split_chars(s, sep) =~= seq![s]);
    } else {
        assert forall|i: int| 0 <= i < s.drop_first().len() implies s.drop_first()[i] != sep by {
            assert(s.drop_first()[i] == s[i + 1]);
        }
        lemma_split_no_sep(s.drop_first(), sep);
        let r = split_chars(s.drop_first(), sep);
        assert(r == seq![s.drop_first()]);
        assert(r[0] == s.drop_first());
        assert(r.drop_first() =~= Seq::<Seq<char>>::empty());
        assert(seq![s[0]] + r[0] =~= s);
        assert(split_chars(s, sep) == seq![seq![s[0]] + r[0]] + r.drop_first());
        assert(split_chars(s, sep) =~= seq![s]);
    }
}

/// Splitting starts with the first separator-free piece.
pub proof fn lemma_split_first(a: Seq<char>, rest: Seq<char>, sep: char)
    requires
        forall|i: int| 0 <= i < a.len() ==> a[i] != sep,
    ensures
        split_chars(a + seq![sep] + rest, sep) == seq![a] + split_chars(rest, sep),
    decreases a.len(),
{
    let s = a + seq![sep] + rest;
    if a.len() == 0 {
        assert(s =~= seq![sep] + rest);
        assert(s[0] == sep);
        assert(s.drop_first() =~= rest);
        assert(a =~= Seq::<char>::empty());
        assert(split_chars(s, sep) =~= seq![a] + split_chars(rest, sep));
    } else {
        assert forall|i: int| 0 <= i < a.drop_first().len() implies a.drop_first()[i] != sep by {
            assert(a.drop_first()[i] == a[i + 1]);
        }
        lemma_split_first(a.drop_first(), rest, sep);
        assert(s[0] == a[0]);
        assert(s.drop_first() =~= a.drop_first() + seq![sep] + rest);
        lemma_split_nonempty(rest, sep);
        let r = split_chars(s.drop_first(), sep);
        assert(r == seq![a.drop_first()] + split_chars(rest, sep));
        assert(r[0] == a.drop_first());
        assert(seq![a[0]] + r[0] =~= a);
        assert(r.drop_first() =~= split_chars(rest, sep));
        assert(split_chars(s, sep) =~= seq![a] + split_chars(rest, sep));
    }
}

/// The maximal whitespace-free words of `s`, in order, without empties.
pub open spec fn ws_tokens(s: Seq<char>) -> Seq<Seq<char>>
    decreases s.len(),
{
    if s.len() == 0 {
        Seq::<Seq<char>>::empty()
    } else if is_ws(s[0]) {
        ws_tokens(s.drop_first())
    } else if s.len() == 1 {
        seq![s]
    } else if is_ws(s[1]) {
        seq![seq![s[0]]] + ws_tokens(s.drop_first())
    } else {
        let r = ws_tokens(s.drop_first());
        seq![seq![s[0]] + r[0]] + r.drop_first()
    }
}

/// Tokenizing starts with the first whitespace-free word.
pub proof fn lemma_tokens_first(tok: Seq<char>, rest: Seq<char>)
    requires
        tok.len() > 0,
        forall|i: int| 0 <= i < tok.len() ==> !is_ws(tok[i]),
        rest.len() == 0 || is_ws(rest[0]),
    ensures
        ws_tokens(tok + rest) == seq![tok] + ws_tokens(rest),
    decreases tok.len(),
{
    let s = tok + rest;
    assert(s[0] == tok[0]);
    assert(!is_ws(s[0]));
    if tok.len() == 1 {
        if rest.len() == 0 {
            assert(s =~= tok);
            assert(s.len() == 1);
            assert(ws_tokens(s) == seq![s]);
            assert(ws_tokens(rest) =~= Seq::<Seq<char>>::empty());
            assert(seq![tok] + ws_tokens(rest) =~= seq![s]);
        } else {
            assert(s.len() > 1);
            assert(s[1] == rest[0]);
            assert(is_ws(s[1]));
            assert(s.drop_first() =~= rest);
            assert(seq![s[0]] =~= tok);
            assert(ws_tokens(s) == seq![seq![s[0]]] + ws_tokens(rest));
            assert(ws_tokens(s) =~= seq![tok] + ws_tokens(rest));
        }
    } else {
        assert forall|i: int| 0 <= i < tok.drop_first().len() implies !is_ws(tok.drop_first()[i]) by {
            assert(tok.drop_first()[i] == tok[i + 1]);
        }
        lemma_tokens_first(tok.drop_first(), rest);
        assert(s.len() > 1);
        assert(s[1] == tok[1]);
        assert(!is_ws(s[1]));
        assert(s.drop_first() =~= tok.drop_first() + rest);
        let r = ws_tokens(s.drop_first());
        assert(r == seq![tok.drop_first()] + ws_tokens(rest));
        assert(r[0] == tok.drop_first());
        assert(seq![s[0]] + r[0] =~= tok);
        assert(r.drop_first() =~= ws_tokens(rest));
        assert(ws_tokens(s) =~= seq![tok] + ws_tokens(rest));
    }
}

/// `s` without a final `'\r'`, if it has one.
pub open spec fn strip_cr(s: Seq<char>) -> Seq<char> {
    if s.len() > 0 && s.last() == '\r' {
        s.drop_last()
    } else {
        s
    }
}

/// `strip_cr` applied to each element.
pub open spec fn strip_all(q: Seq<Seq<char>>) -> Seq<Seq<char>> {
    q.map_values(|p: Seq<char>| strip_cr(p))
}

/// The lines of `s`: split at `'\n'`, each with an optional trailing `'\r'`
/// removed, and no empty final line when `s` ends with `'\n'`.
pub open spec fn lines_spec(s: Seq<char>) -> Seq<Seq<char>> {
    if s.len() == 0 {
        Seq::<Seq<char>>::empty()
    } else {
        let p = split_chars(s, '\n');
        if s.last() == '\n' {
            strip_all(p.drop_last())
        } else {
            strip_all(p)
        }
    }
}

/// `s` without leading whitespace.
pub open spec fn trim_front(s: Seq<char>) -> Seq<char>
    decreases s.len(),
{
    if s.len() > 0 && is_ws(s[0]) {
        trim_front(s.drop_first())
    } else {
        s
    }
}

/// `s` without trailing whitespace.
pub open spec fn trim_back(s: Seq<char>) -> Seq<char>
    decreases s.len(),
{
    if s.len() > 0 && is_ws(s.last()) {
        trim_back(s.drop_last())
    } else {
        s
    }
}

/// `s` without leading and trailing whitespace.
pub open spec fn trim_spec(s: Seq<char>) -> Seq<char> {
    trim_back(trim_front(s))
}

/// Dropping the whitespace prefix up to the first non-whitespace position.
pub proof fn lemma_trim_front_at(s: Seq<char>, a: int)
    requires
        0 <= a <= s.len(),
        forall|i: int| 0 <= i < a ==> is_ws(s[i]),
        a == s.len() || !is_ws(s[a]),
    ensures
        trim_front(s) == s.skip(a),
    decreases a,
{
    if a == 0 {
        assert(s.skip(0) =~= s);
    } else {
        lemma_trim_front_at(s.drop_first(), a - 1);
        assert(s.drop_first().skip(a - 1) =~= s.skip(a));
    }
}

/// Dropping the whitespace suffix down to the last non-whitespace position.
pub proof fn lemma_trim_back_at(s: Seq<char>, b: int)
    requires
        0 <= b <= s.len(),
        forall|i: int| b <= i < s.len() ==> is_ws(s[i]),
        b == 0 || !is_ws(s[b - 1]),
    ensures
        trim_back(s) == s.take(b),
    decreases s.len(),
{
    if b == s.len() {
        assert(s.take(b) =~= s);
    } else {
        lemma_trim_back_at(s.drop_last(), b);
        assert(s.drop_last().take(b) =~= s.take(b));
    }
}

/// The lines joined with CRLF between them.
pub open spec fn join_crlf(ls: Seq<Seq<char>>) -> Seq<char>
    decreases ls.len(),
{
    if ls.len() == 0 {
        Seq::<char>::empty()
    } else if ls.len() == 1 {
        ls[0]
    } else {
        ls[0] + "\r\n"@ + join_crlf(ls.drop_first())
    }
}

/// Joining one more line appends a CRLF and the line.
pub proof fn lemma_join_snoc(ls: Seq<Seq<char>>, x: Seq<char>)
    requires
        ls.len() >= 1,
    ensures
        join_crlf(ls.push(x)) == join_crlf(ls) + "\r\n"@ + x,
    decreases ls.len(),
{
    let p = ls.push(x);
    if ls.len() == 1 {
        assert(p[0] == ls[0]);
        assert(p.drop_first() =~= seq![x]);
        assert(join_crlf(p.drop_first()) == x);
    } else {
        lemma_join_snoc(ls.drop_first(), x);
        assert(p[0] == ls[0]);
        assert(p.drop_first() =~= ls.drop_first().push(x));
        assert(join_crlf(ls) + "\r\n"@ + x =~= ls[0] + "\r\n"@ + (join_crlf(
            ls.drop_first(),
        ) + "\r\n"@ + x));
    }
}

/// The digit character for a value below ten.
pub open spec fn digit_char(d: int) -> char {
    if d == 0 {
        '0'
    } else if d == 1 {
        '1'
    } else if d == 2 {
        '2'
    } else if d == 3 {
        '3'
    } else if d == 4 {
        '4'
    } else if d == 5 {
        '5'
    } else if d == 6 {
        '6'
    } else if d == 7 {
        '7'
    } else if d == 8 {
        '8'
    } else {
        '9'
    }
}

/// The decimal digits of a non-negative number, most significant first.
pub open spec fn dec_str(n: int) -> Seq<char>
    decreases n,
{
    if n < 0 {
        Seq::<char>::empty()
    } else if n < 10 {
        seq![digit_char(n)]
    } else {
        dec_str(n / 10).push(digit_char(n % 10))
    }
}

/// ASCII whitespace test.
pub fn is_space(c: char) -> (b: bool)
    ensures
        b == is_ws(c),
{
    c == ' ' || c == '\t' || c == '\r' || c == '\n'
}

/// The first occurrence of `c` in `s`, if any.
pub fn find_char(s: &str, c: char) -> (r: Option<usize>)
    ensures
        match r {
            Some(j) => j == find_idx(s@, c) && j < s@.len(),
            None => find_idx(s@, c) == s@.len(),
        },
{
    let n = s.unicode_len();
    let mut i: usize = 0;
    while i < n
        invariant
            i <= n == s@.len(),
            forall|j: int| 0 <= j < i ==> s@[j] != c,
        decreases n - i,
    {
        if s.get_char(i) == c {
            proof {
                lemma_find_idx_at(s@, c, i as int);
            }
            return Some(i);
        }
        i += 1;
    }
    proof {
        lemma_find_idx_at(s@, c, n as int);
    }
    None
}

/// The pieces of `s` between occurrences of `sep`.
pub fn split_on(s: &str, sep: char) -> (r: Vec<String>)
    ensures
        views_of(r@) == split_chars(s@, sep),
{
    let n = s.unicode_len();
    let ghost big = split_chars(s@, sep);
    let mut r: Vec<String> = Vec::new();
    let mut start: usize = 0;
    let mut i: usize = 0;
    proof {
        assert(s@.subrange(0, n as int) =~= s@);
        assert(big.skip(0) =~= big);
        assert(views_of(r@) =~= big.take(0));
    }
    while i < n
        invariant
            start <= i <= n == s@.len(),
            r.len() <= big.len(),
            split_chars(s@.subrange(start as int, n as int), sep) == big.skip(r.len() as int),
            views_of(r@) == big.take(r.len() as int),
            forall|j: int| start <= j < i ==> s@[j] != sep,
        decreases n - i,
    {
        if s.get_char(i) == sep {
            let piece = s.substring_char(start, i).to_owned();
            proof {
                let ghost k = r.len() as int;
                let ghost pre = s@.subrange(start as int, i as int);
                let ghost post = s@.subrange(i as int + 1, n as int);
                lemma_split_first(pre, post, sep);
                assert(s@.subrange(start as int, n as int) =~= pre + seq![sep] + post);
                assert(big.skip(k) == seq![pre] + split_chars(post, sep));
                lemma_split_nonempty(post, sep);
                assert(big.skip(k).len() >= 1);
                assert(0 <= k < big.len());
                assert(big[k] == big.skip(k)[0]);
                assert(big[k] == pre);
                assert(big.skip(k).drop_first() =~= big.skip(k + 1));
                assert(split_chars(post, sep) =~= big.skip(k).drop_first());
                lemma_views_push(r@, piece);
                assert(views_of(r@).push(piece@) =~= big.take(k + 1));
            }
            r.push(piece);
            start = i + 1;
        }
        i += 1;
    }
    let piece = s.substring_char(start, n).to_owned();
    proof {
        let ghost k = r.len() as int;
        lemma_split_no_sep(s@.subrange(start as int, n as int), sep);
        assert(big.skip(k) =~= seq![s@.subrange(start as int, n as int)]);
        assert(big.len() == k + 1);
        assert(big[k] == big.skip(k)[0]);
        assert(big[k] == s@.subrange(start as int, n as int));
        lemma_views_push(r@, piece);
        assert(views_of(r@).push(piece@) =~= big.take(k + 1));
        assert(big.take(k + 1) =~= big);
    }
    r.push(piece);
    r
}

/// The lines of `s`, as `lines_spec` describes them.
pub fn lines_of(s: &str) -> (r: Vec<String>)
    ensures
        views_of(r@) == lines_spec(s@),
{
    let n = s.unicode_len();
    let ghost big = split_chars(s@, '\n');
    let mut r: Vec<String> = Vec::new();
    let mut start: usize = 0;
    let mut i: usize = 0;
    proof {
        assert(s@.subrange(0, n as int) =~= s@);
        assert(big.skip(0) =~= big);
        assert(views_of(r@) =~= strip_all(big.take(0)));
    }
    while i < n
        invariant
            start <= i <= n == s@.len(),
            r.len() <= big.len(),
            split_chars(s@.subrange(start as int, n as int), '\n') == big.skip(r.len() as int),
            views_of(r@) == strip_all(big.take(r.len() as int)),
            forall|j: int| start <= j < i ==> s@[j] != '\n',
            start == 0 || s@[start as int - 1] == '\n',
        decreases n - i,
    {
        if s.get_char(i) == '\n' {
            let piece = if i > start && s.get_char(i - 1) == '\r' {
                s.substring_char(start, i - 1).to_owned()
            } else {
                s.substring_char(start, i).to_owned()
            };
            proof {
                let ghost k = r.len() as int;
                let ghost pre = s@.subrange(start as int, i as int);
                let ghost post = s@.subrange(i as int + 1, n as int);
                lemma_split_first(pre, post, '\n');
                assert(s@.subrange(start as int, n as int) =~= pre + seq!['\n'] + post);
                assert(big.skip(k) == seq![pre] + split_chars(post, '\n'));
                lemma_split_nonempty(post, '\n');
                assert(big.skip(k).len() >= 1);
                assert(0 <= k < big.len());
                assert(big[k] == big.skip(k)[0]);
                assert(big[k] == pre);
                assert(big.skip(k).drop_first() =~= big.skip(k + 1));
                assert(split_chars(post, '\n') =~= big.skip(k).drop_first());
                if i > start && s@[i as int - 1] == '\r' {
                    assert(s@.subrange(start as int, i as int).last() == '\r');
                    assert(s@.subrange(start as int, i as int).drop_last() =~= s@.subrange(
                        start as int,
                        i as int - 1,
                    ));
                    assert(piece@ == strip_cr(big[k]));
                } else {
                    assert(piece@ == strip_cr(big[k]));
                }
                lemma_views_push(r@, piece);
                assert(views_of(r@).push(piece@) =~= strip_all(big.take(k + 1)));
            }
            r.push(piece);
            start = i + 1;
        }
        i += 1;
    }
    if start < n {
        let piece = if n > start && s.get_char(n - 1) == '\r' {
            s.substring_char(start, n - 1).to_owned()
        } else {
            s.substring_char(start, n).to_owned()
        };
        proof {
            let ghost k = r.len() as int;
            lemma_split_no_sep(s@.subrange(start as int, n as int), '\n');
            assert(big.skip(k) =~= seq![s@.subrange(start as int, n as int)]);
            assert(big.len() == k + 1);
            assert(big[k] == big.skip(k)[0]);
            assert(big[k] == s@.subrange(start as int, n as int));
            if n > start && s@[n as int - 1] == '\r' {
                assert(s@.subrange(start as int, n as int).last() == '\r');
                assert(s@.subrange(start as int, n as int).drop_last() =~= s@.subrange(
                    start as int,
                    n as int - 1,
                ));
            }
            assert(piece@ == strip_cr(big[k]));
            lemma_views_push(r@, piece);
            assert(views_of(r@).push(piece@) =~= strip_all(big.take(k + 1)));
            assert(big.take(k + 1) =~= big);
            assert(s@.last() == s@[n as int - 1]);
            assert(s@.last() != '\n');
        }
        r.push(piece);
    } else {
        proof {
            let ghost k = r.len() as int;
            assert(s@.subrange(start as int, n as int) =~= Seq::<char>::empty());
            assert(big.skip(k) =~= seq![Seq::<char>::empty()]);
            assert(big.len() == k + 1);
            if n > 0 {
                assert(s@.last() == '\n');
                assert(big.drop_last() =~= big.take(k));
            } else {
                assert(views_of(r@) =~= Seq::<Seq<char>>::empty());
            }
        }
    }
    r
}

/// The whitespace-separated words of `s`.
pub fn ws_tokens_of(s: &str) -> (r: Vec<String>)
    ensures
        views_of(r@) == ws_tokens(s@),
{
    let n = s.unicode_len();
    let mut r: Vec<String> = Vec::new();
    let mut i: usize = 0;
    proof {
        assert(s@.skip(0) =~= s@);
        assert(views_of(r@) + ws_tokens(s@) =~= ws_tokens(s@));
    }
    while i < n
        invariant
            i <= n == s@.len(),
            ws_tokens(s@) == views_of(r@) + ws_tokens(s@.skip(i as int)),
        decreases n - i,
    {
        if is_space(s.get_char(i)) {
            proof {
                assert(s@.skip(i as int).drop_first() =~= s@.skip(i as int + 1));
            }
            i += 1;
        } else {
            let mut j = i + 1;
            while j < n && !is_space(s.get_char(j))
                invariant
                    i < j <= n == s@.len(),
                    forall|k: int| i <= k < j ==> !is_ws(s@[k]),
                decreases n - j,
            {
                j += 1;
            }
            let tok = s.substring_char(i, j).to_owned();
            proof {
                lemma_tokens_first(s@.subrange(i as int, j as int), s@.skip(j as int));
                assert(s@.skip(i as int) =~= s@.subrange(i as int, j as int) + s@.skip(j as int));
                lemma_views_push(r@, tok);
                assert(views_of(r@) + (seq![tok@] + ws_tokens(s@.skip(j as int))) =~= views_of(
                    r@,
                ).push(tok@) + ws_tokens(s@.skip(j as int)));
            }
            r.push(tok);
            i = j;
        }
    }
    proof {
        assert(s@.skip(n as int) =~= Seq::<char>::empty());
        assert(views_of(r@) + ws_tokens(Seq::<char>::empty()) =~= views_of(r@));
    }
    r
}

/// `s` without leading and trailing ASCII whitespace.
pub fn trim_of(s: &str) -> (r: String)
    ensures
        r@ == trim_spec(s@),
{
    let n = s.unicode_len();
    let mut a: usize = 0;
    while a < n && is_space(s.get_char(a))
        invariant
            a <= n == s@.len(),
            forall|i: int| 0 <= i < a ==> is_ws(s@[i]),
        decreases n - a,
    {
        a += 1;
    }
    proof {
        lemma_trim_front_at(s@, a as int);
    }
    let mut b = n;
    while b > a && is_space(s.get_char(b - 1))
        invariant
            a <= b <= n == s@.len(),
            forall|i: int| b <= i < n ==> is_ws(s@[i]),
        decreases b,
    {
        b -= 1;
    }
    proof {
        lemma_trim_back_at(s@.skip(a as int), b as int - a as int);
        assert(s@.skip(a as int).take(b as int - a as int) =~= s@.subrange(a as int, b as int));
    }
    s.substring_char(a, b).to_owned()
}

/// Appends the digit character of a value below ten.
fn push_digit(out: &mut String, d: u16)
    requires
        d < 10,
    ensures
        final(out)@ == old(out)@.push(digit_char(d as int)),
{
    proof {
        reveal_strlit("0");
        reveal_strlit("1");
        reveal_strlit("2");
        reveal_strlit("3");
        reveal_strlit("4");
        reveal_strlit("5");
        reveal_strlit("6");
        reveal_strlit("7");
        reveal_strlit("8");
        reveal_strlit("9");
    }
    if d == 0 {
        out.append("0");
    } else if d == 1 {
        out.append("1");
    } else if d == 2 {
        out.append("2");
    } else if d == 3 {
        out.append("3");
    } else if d == 4 {
        out.append("4");
    } else if d == 5 {
        out.append("5");
    } else if d == 6 {
        out.append("6");
    } else if d == 7 {
        out.append("7");
    } else if d == 8 {
        out.append("8");
    } else {
        out.append("9");
    }
    proof {
        assert(out@ =~= old(out)@.push(digit_char(d as int)));
    }
}

/// The decimal notation of `x`.
pub fn decimal_string(x: u16) -> (r: String)
    ensures
        r@ == dec_str(x as int),
    decreases x,
{
    if x < 10 {
        let mut s = String::new();
        push_digit(&mut s, x);
        proof {
            assert(s@ =~= dec_str(x as int));
        }
        s
    } else {
        let mut s = decimal_string(x / 10);
        push_digit(&mut s, x % 10);
        s
    }
}

} // verus!
