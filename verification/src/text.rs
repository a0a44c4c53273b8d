//! Character level text processing shared by the assemblers and scanners:
//! views of strings as character sequences, trimming, splitting into words,
//! fields and lines, and decimal number parsing, each with the meaning that
//! the standard library gives it.

use vstd::prelude::*;

verus! {

/// The characters of `s`, in order.
pub fn chars_of(s: &str) -> (v: Vec<char>)
    ensures
        v@ == s@,
{
    let mut v: Vec<char> = Vec::new();
    for c in it: s.chars()
        invariant
            v@ == it.seq().take(it.index() as int),
            it.seq() == s@,
    {
        v.push(c);
    }
    v
}

/// The string made of the characters of `v` (`String::from_iter`).
#[verifier::external_body]
pub fn string_from_chars(v: &Vec<char>) -> (s: String)
    ensures
        s@ == v@,
{
    v.iter().collect()
}

/// Whether `v` holds exactly the characters of `lit`.
pub fn eq_lit(v: &Vec<char>, lit: &str) -> (b: bool)
    ensures
        b == (v@ == lit@),
{
    let l = chars_of(lit);
    eq_chars(v, &l)
}

/// Whether two character vectors are equal.
pub fn eq_chars(v: &Vec<char>, w: &Vec<char>) -> (b: bool)
    ensures
        b == (v@ == w@),
{
    if v.len() != w.len() {
        return false;
    }
    let mut i: usize = 0;
    while i < v.len()
        invariant
            v.len() == w.len(),
            i <= v.len(),
            forall|j: int| 0 <= j < i ==> v@[j] == w@[j],
        decreases v.len() - i,
    {
        if v[i] != w[i] {
            return false;
        }
        i = i + 1;
    }
    assert(v@ =~= w@);
    true
}

/// The characters of `v` from `from` (included) to `to` (excluded).
pub fn slice_of(v: &Vec<char>, from: usize, to: usize) -> (r: Vec<char>)
    requires
        from <= to <= v.len(),
    ensures
        r@ == v@.subrange(from as int, to as int),
{
    let mut r: Vec<char> = Vec::new();
    let mut i = from;
    while i < to
        invariant
            from <= i <= to <= v.len(),
            r@ == v@.subrange(from as int, i as int),
        decreases to - i,
    {
        r.push(v[i]);
        i = i + 1;
        assert(r@ =~= v@.subrange(from as int, i as int));
    }
    r
}

/// ASCII whitespace as `char::is_ascii_whitespace` defines it.
pub open spec fn is_ascii_ws(c: char) -> bool {
    c == ' ' || c == '\t' || c == '\n' || c == '\x0C' || c == '\r'
}

/// Unicode White_Space, as `char::is_whitespace` defines it.
pub open spec fn is_white_space(c: char) -> bool {
    let n = c as u32;
    (0x09 <= n && n <= 0x0D) || n == 0x20 || n == 0x85 || n == 0xA0 || n == 0x1680 || (0x2000
        <= n && n <= 0x200A) || n == 0x2028 || n == 0x2029 || n == 0x202F || n == 0x205F || n
        == 0x3000
}

pub fn is_ascii_ws_exec(c: char) -> (b: bool)
    ensures
        b == is_ascii_ws(c),
{
    c == ' ' || c == '\t' || c == '\n' || c == '\x0C' || c == '\r'
}

pub fn is_white_space_exec(c: char) -> (b: bool)
    ensures
        b == is_white_space(c),
{
    let n = c as u32;
    (0x09 <= n && n <= 0x0D) || n == 0x20 || n == 0x85 || n == 0xA0 || n == 0x1680 || (0x2000
        <= n && n <= 0x200A) || n == 0x2028 || n == 0x2029 || n == 0x202F || n == 0x205F || n
        == 0x3000
}

/// `s` without its leading whitespace (`str::trim_start`).
pub open spec fn trim_start(s: Seq<char>) -> Seq<char>
    decreases s.len(),
{
    if s.len() > 0 && is_white_space(s[0]) {
        trim_start(s.drop_first())
    } else {
        s
    }
}

/// `s` without its trailing whitespace (`str::trim_end`).
pub open spec fn trim_end(s: Seq<char>) -> Seq<char>
    decreases s.len(),
{
    if s.len() > 0 && is_white_space(s.last()) {
        trim_end(s.drop_last())
    } else {
        s
    }
}

pub fn trim_start_exec(s: &Vec<char>) -> (r: Vec<char>)
    ensures
        r@ == trim_start(s@),
{
    let mut i: usize = 0;
    assert(s@.subrange(0, s@.len() as int) =~= s@);
    while i < s.len() && is_white_space_exec(s[i])
        invariant
            i <= s.len(),
            trim_start(s@) == trim_start(s@.subrange(i as int, s@.len() as int)),
        decreases s.len() - i,
    {
        assert(s@.subrange(i as int, s@.len() as int).drop_first() =~= s@.subrange(
            i + 1,
            s@.len() as int,
        ));
        i = i + 1;
    }
    slice_of(s, i, s.len())
}

pub fn trim_end_exec(s: &Vec<char>) -> (r: Vec<char>)
    ensures
        r@ == trim_end(s@),
{
    let mut j: usize = s.len();
    assert(s@.subrange(0, s@.len() as int) =~= s@);
    while j > 0 && is_white_space_exec(s[j - 1])
        invariant
            j <= s.len(),
            trim_end(s@) == trim_end(s@.subrange(0, j as int)),
        decreases j,
    {
        assert(s@.subrange(0, j as int).drop_last() =~= s@.subrange(0, j - 1));
        j = j - 1;
    }
    slice_of(s, 0, j)
}

/// Whether `s` starts with `c` (`str::starts_with` with a character).
pub open spec fn starts_with(s: Seq<char>, c: char) -> bool {
    s.len() > 0 && s[0] == c
}

pub fn starts_with_exec(s: &Vec<char>, c: char) -> (b: bool)
    ensures
        b == starts_with(s@, c),
{
    s.len() > 0 && s[0] == c
}

/// The number of characters of `s` before the first one that `p` accepts.
pub open spec fn run_until_ws(s: Seq<char>) -> nat
    decreases s.len(),
{
    if s.len() == 0 || is_ascii_ws(s[0]) {
        0
    } else {
        1 + run_until_ws(s.drop_first())
    }
}

/// The number of ASCII whitespace characters that start `s`.
pub open spec fn run_of_ws(s: Seq<char>) -> nat
    decreases s.len(),
{
    if s.len() > 0 && is_ascii_ws(s[0]) {
        1 + run_of_ws(s.drop_first())
    } else {
        0
    }
}

pub proof fn lemma_run_until_ws_bound(s: Seq<char>)
    ensures
        run_until_ws(s) <= s.len(),
        s.len() > 0 && !is_ascii_ws(s[0]) ==> run_until_ws(s) > 0,
        forall|j: int| 0 <= j < run_until_ws(s) ==> !is_ascii_ws(#[trigger] s[j]),
        run_until_ws(s) < s.len() ==> is_ascii_ws(s[run_until_ws(s) as int]),
    decreases s.len(),
{
    if s.len() > 0 && !is_ascii_ws(s[0]) {
        lemma_run_until_ws_bound(s.drop_first());
        assert forall|j: int| 0 <= j < run_until_ws(s) implies !is_ascii_ws(#[trigger] s[j]) by {
            if j > 0 {
                assert(s[j] == s.drop_first()[j - 1]);
            }
        }
    }
}

pub proof fn lemma_run_of_ws_bound(s: Seq<char>)
    ensures
        run_of_ws(s) <= s.len(),
        forall|j: int| 0 <= j < run_of_ws(s) ==> is_ascii_ws(#[trigger] s[j]),
        run_of_ws(s) < s.len() ==> !is_ascii_ws(s[run_of_ws(s) as int]),
    decreases s.len(),
{
    if s.len() > 0 && is_ascii_ws(s[0]) {
        lemma_run_of_ws_bound(s.drop_first());
        assert forall|j: int| 0 <= j < run_of_ws(s) implies is_ascii_ws(#[trigger] s[j]) by {
            if j > 0 {
                assert(s[j] == s.drop_first()[j - 1]);
            }
        }
    }
}

/// The words of `s`: its maximal runs of characters that are not ASCII
/// whitespace (`str::split_ascii_whitespace`).
pub open spec fn words(s: Seq<char>) -> Seq<Seq<char>>
    decreases s.len(),
{
    if s.len() == 0 {
        seq![]
    } else if is_ascii_ws(s[0]) {
        words(s.drop_first())
    } else {
        proof {
            lemma_run_until_ws_bound(s);
        }
        seq![s.take(run_until_ws(s) as int)] + words(s.skip(run_until_ws(s) as int))
    }
}

/// The views of a sequence of character vectors.
pub open spec fn views(v: Seq<Vec<char>>) -> Seq<Seq<char>> {
    v.map_values(|x: Vec<char>| x@)
}

proof fn lemma_run_until_ws_exact(s: Seq<char>, n: int)
    requires
        0 <= n <= s.len(),
        forall|j: int| 0 <= j < n ==> !is_ascii_ws(#[trigger] s[j]),
        n == s.len() || is_ascii_ws(s[n]),
    ensures
        run_until_ws(s) == n,
    decreases n,
{
    if n > 0 {
        assert forall|j: int| 0 <= j < n - 1 implies !is_ascii_ws(#[trigger] s.drop_first()[j]) by {
            assert(s.drop_first()[j] == s[j + 1]);
        }
        lemma_run_until_ws_exact(s.drop_first(), n - 1);
    }
}

pub proof fn lemma_views_push(v: Seq<Vec<char>>, x: Vec<char>)
    ensures
        views(v.push(x)) == views(v).push(x@),
{
    assert(views(v.push(x)) =~= views(v).push(x@));
}

/// The words of `s`, as `str::split_ascii_whitespace` gives them.
pub fn words_exec(s: &Vec<char>) -> (r: Vec<Vec<char>>)
    ensures
        views(r@) == words(s@),
{
    let mut r: Vec<Vec<char>> = Vec::new();
    let mut i: usize = 0;
    assert(s@.skip(0) =~= s@);
    while i < s.len()
        invariant
            i <= s.len(),
            words(s@) == views(r@) + words(s@.skip(i as int)),
        decreases s.len() - i,
    {
        let ghost t = s@.skip(i as int);
        if is_ascii_ws_exec(s[i]) {
            assert(t.drop_first() =~= s@.skip(i + 1));
            i = i + 1;
        } else {
            let mut j = i + 1;
            while j < s.len() && !is_ascii_ws_exec(s[j])
                invariant
                    i < j <= s.len(),
                    forall|k: int| i <= k < j ==> !is_ascii_ws(#[trigger] s@[k]),
                decreases s.len() - j,
            {
                j = j + 1;
            }
            proof {
                assert forall|k: int| 0 <= k < j - i implies !is_ascii_ws(#[trigger] t[k]) by {
                    assert(t[k] == s@[i + k]);
                }
                lemma_run_until_ws_exact(t, j - i);
                assert(t.take(j - i) =~= s@.subrange(i as int, j as int));
                assert(t.skip(j - i) =~= s@.skip(j as int));
            }
            let w = slice_of(s, i, j);
            proof {
                lemma_views_push(r@, w);
            }
            r.push(w);
            i = j;
        }
    }
    proof {
        assert(s@.skip(i as int) =~= Seq::<char>::empty());
        assert(views(r@) + Seq::<Seq<char>>::empty() =~= views(r@));
    }
    r
}

/// The number of characters of `s` before its first `c`, or its length.
pub open spec fn run_until(s: Seq<char>, c: char) -> nat
    decreases s.len(),
{
    if s.len() == 0 || s[0] == c {
        0
    } else {
        1 + run_until(s.drop_first(), c)
    }
}

pub proof fn lemma_run_until_bound(s: Seq<char>, c: char)
    ensures
        run_until(s, c) <= s.len(),
        forall|j: int| 0 <= j < run_until(s, c) ==> #[trigger] s[j] != c,
        run_until(s, c) < s.len() ==> s[run_until(s, c) as int] == c,
    decreases s.len(),
{
    if s.len() > 0 && s[0] != c {
        lemma_run_until_bound(s.drop_first(), c);
        assert forall|j: int| 0 <= j < run_until(s, c) implies #[trigger] s[j] != c by {
            if j > 0 {
                assert(s[j] == s.drop_first()[j - 1]);
            }
        }
    }
}

proof fn lemma_run_until_exact(s: Seq<char>, c: char, n: int)
    requires
        0 <= n <= s.len(),
        forall|j: int| 0 <= j < n ==> #[trigger] s[j] != c,
        n == s.len() || s[n] == c,
    ensures
        run_until(s, c) == n,
    decreases n,
{
    if n > 0 {
        assert forall|j: int| 0 <= j < n - 1 implies #[trigger] s.drop_first()[j] != c by {
            assert(s.drop_first()[j] == s[j + 1]);
        }
        lemma_run_until_exact(s.drop_first(), c, n - 1);
    }
}

/// The index of the first `c` in `s` at or after `from`, or the length of `s`.
pub fn find_from(s: &Vec<char>, from: usize, c: char) -> (j: usize)
    requires
        from <= s.len(),
    ensures
        from <= j <= s.len(),
        j - from == run_until(s@.skip(from as int), c),
{
    let mut j = from;
    while j < s.len() && s[j] != c
        invariant
            from <= j <= s.len(),
            forall|k: int| from <= k < j ==> #[trigger] s@[k] != c,
        decreases s.len() - j,
    {
        j = j + 1;
    }
    proof {
        let t = s@.skip(from as int);
        assert forall|k: int| 0 <= k < j - from implies #[trigger] t[k] != c by {
            assert(t[k] == s@[from + k]);
        }
        lemma_run_until_exact(t, c, j - from);
    }
    j
}

/// `s` before its first `c`: the `c` and what follows it are dropped.
pub open spec fn before(s: Seq<char>, c: char) -> Seq<char> {
    s.take(run_until(s, c) as int)
}

pub fn before_exec(s: &Vec<char>, c: char) -> (r: Vec<char>)
    ensures
        r@ == before(s@, c),
{
    let j = find_from(s, 0, c);
    assert(s@.skip(0) =~= s@);
    let r = slice_of(s, 0, j);
    assert(r@ =~= before(s@, c));
    r
}

/// The pieces of `s` between the copies of `c` (`str::split` with a character).
pub open spec fn fields(s: Seq<char>, c: char) -> Seq<Seq<char>>
    decreases s.len(),
{
    proof {
        lemma_run_until_bound(s, c);
    }
    if run_until(s, c) >= s.len() {
        seq![s]
    } else {
        seq![s.take(run_until(s, c) as int)] + fields(s.skip(run_until(s, c) as int + 1), c)
    }
}

pub fn fields_exec(s: &Vec<char>, c: char) -> (r: Vec<Vec<char>>)
    ensures
        views(r@) == fields(s@, c),
{
    let mut r: Vec<Vec<char>> = Vec::new();
    let mut i: usize = 0;
    assert(s@.skip(0) =~= s@);
    loop
        invariant
            i <= s.len(),
            fields(s@, c) == views(r@) + fields(s@.skip(i as int), c),
        decreases s.len() - i,
    {
        let ghost t = s@.skip(i as int);
        let j = find_from(s, i, c);
        let w = slice_of(s, i, j);
        proof {
            lemma_views_push(r@, w);
            lemma_run_until_bound(t, c);
        }
        r.push(w);
        if j == s.len() {
            proof {
                assert(t =~= w@);
                assert(views(r@) =~= views(r@.drop_last()) + seq![w@]);
            }
            return r;
        }
        proof {
            assert(t.take(j - i) =~= w@);
            assert(t.skip(j - i + 1) =~= s@.skip(j + 1));
            assert(views(r@) =~= views(r@.drop_last()) + seq![w@]);
        }
        i = j + 1;
    }
}

/// `s` without the carriage return that ends it, if any.
pub open spec fn strip_cr(s: Seq<char>) -> Seq<char> {
    if s.len() > 0 && s.last() == '\r' {
        s.drop_last()
    } else {
        s
    }
}

/// The lines of `s` (`str::lines`): pieces between line feeds, a carriage
/// return before a line feed being part of the line ending, and no last empty
/// line after a final line feed.
pub open spec fn lines(s: Seq<char>) -> Seq<Seq<char>>
    decreases s.len(),
{
    proof {
        lemma_run_until_bound(s, '\n');
    }
    if s.len() == 0 {
        seq![]
    } else if run_until(s, '\n') >= s.len() {
        seq![s]
    } else {
        seq![strip_cr(s.take(run_until(s, '\n') as int))] + lines(
            s.skip(run_until(s, '\n') as int + 1),
        )
    }
}

/// A text has at most as many lines as characters.
pub proof fn lemma_lines_len(s: Seq<char>)
    ensures
        lines(s).len() <= s.len(),
    decreases s.len(),
{
    lemma_run_until_bound(s, '\n');
    if s.len() > 0 && run_until(s, '\n') < s.len() {
        lemma_lines_len(s.skip(run_until(s, '\n') as int + 1));
    }
}

/// No line is longer than the text.
pub proof fn lemma_lines_bound(s: Seq<char>, j: int)
    requires
        0 <= j < lines(s).len(),
    ensures
        lines(s)[j].len() <= s.len(),
    decreases s.len(),
{
    lemma_run_until_bound(s, '\n');
    if s.len() > 0 && run_until(s, '\n') < s.len() && j > 0 {
        lemma_lines_bound(s.skip(run_until(s, '\n') as int + 1), j - 1);
    }
}

pub fn lines_exec(s: &Vec<char>) -> (r: Vec<Vec<char>>)
    ensures
        views(r@) == lines(s@),
{
    let mut r: Vec<Vec<char>> = Vec::new();
    let mut i: usize = 0;
    assert(s@.skip(0) =~= s@);
    while i < s.len()
        invariant
            i <= s.len(),
            lines(s@) == views(r@) + lines(s@.skip(i as int)),
        decreases s.len() - i,
    {
        let ghost t = s@.skip(i as int);
        let j = find_from(s, i, '\n');
        proof {
            lemma_run_until_bound(t, '\n');
        }
        if j == s.len() {
            let w = slice_of(s, i, j);
            proof {
                lemma_views_push(r@, w);
                assert(t =~= w@);
                assert(s@.skip(j as int) =~= Seq::<char>::empty());
                assert(views(r@.push(w)) =~= views(r@) + seq![w@]);
            }
            r.push(w);
            i = j;
        } else {
            let mut e = j;
            if e > i && s[e - 1] == '\r' {
                e = e - 1;
            }
            let w = slice_of(s, i, e);
            proof {
                lemma_views_push(r@, w);
                assert(strip_cr(t.take(j - i)) =~= w@);
                assert(t.skip(j - i + 1) =~= s@.skip(j + 1));
                assert(views(r@.push(w)) =~= views(r@) + seq![w@]);
            }
            r.push(w);
            i = j + 1;
        }
    }
    proof {
        assert(s@.skip(i as int) =~= Seq::<char>::empty());
        assert(views(r@) + Seq::<Seq<char>>::empty() =~= views(r@));
    }
    r
}

/// Whether `c` is an ASCII decimal digit.
pub open spec fn is_digit(c: char) -> bool {
    '0' <= c && c <= '9'
}

/// The value of the decimal digit `c`.
pub open spec fn digit_value(c: char) -> nat {
    (c as u32 - '0' as u32) as nat
}

pub open spec fn all_digits(s: Seq<char>) -> bool {
    forall|i: int| 0 <= i < s.len() ==> is_digit(#[trigger] s[i])
}

/// The number that the decimal digits `s` write.
pub open spec fn digits_value(s: Seq<char>) -> nat
    decreases s.len(),
{
    if s.len() == 0 {
        0
    } else {
        digits_value(s.drop_last()) * 10 + digit_value(s.last())
    }
}

/// `s` without one leading sign character `sign`.
pub open spec fn drop_sign(s: Seq<char>, sign: char) -> Seq<char> {
    if s.len() > 0 && s[0] == sign {
        s.drop_first()
    } else {
        s
    }
}

/// What `s.parse::<u32>()` gives: an optional `+` then decimal digits whose
/// value fits.
pub open spec fn parse_u32(s: Seq<char>) -> Option<u32> {
    let d = drop_sign(s, '+');
    if d.len() > 0 && all_digits(d) && digits_value(d) <= u32::MAX {
        Some(digits_value(d) as u32)
    } else {
        None
    }
}

/// What `s.parse::<i32>()` gives: an optional `+` or `-` then decimal digits
/// whose value, with its sign, fits.
pub open spec fn parse_i32(s: Seq<char>) -> Option<i32> {
    let neg = s.len() > 0 && s[0] == '-';
    let d = if s.len() > 0 && (s[0] == '+' || s[0] == '-') {
        s.drop_first()
    } else {
        s
    };
    if d.len() > 0 && all_digits(d) {
        if neg && digits_value(d) <= 0x8000_0000 {
            Some((-digits_value(d)) as i32)
        } else if !neg && digits_value(d) <= 0x7fff_ffff {
            Some(digits_value(d) as i32)
        } else {
            None
        }
    } else {
        None
    }
}

/// The number of ASCII digits from index `p` on.
pub open spec fn digit_run(text: Seq<char>, p: int) -> nat
    decreases text.len() - p,
{
    if 0 <= p < text.len() && is_digit(text[p]) {
        1 + digit_run(text, p + 1)
    } else {
        0
    }
}

/// The digits counted by `digit_run`.
pub proof fn lemma_digit_run(text: Seq<char>, p: int)
    requires
        0 <= p <= text.len(),
    ensures
        p + digit_run(text, p) <= text.len(),
        forall|j: int| p <= j < p + digit_run(text, p) ==> is_digit(#[trigger] text[j]),
        p + digit_run(text, p) < text.len() ==> !is_digit(text[p + digit_run(text, p)]),
    decreases text.len() - p,
{
    if p < text.len() && is_digit(text[p]) {
        lemma_digit_run(text, p + 1);
    }
}

/// Whether the run of digits at `p` writes a number of at most `cap`.
pub fn run_within(text: &Vec<char>, p: usize, cap: u32) -> (b: bool)
    requires
        p < text.len(),
    ensures
        b == (digits_value(text@.subrange(p as int, p + digit_run(text@, p as int))) <= cap),
{
    let ghost k = digit_run(text@, p as int);
    let ghost whole = text@.subrange(p as int, p + k);
    proof {
        lemma_digit_run(text@, p as int);
        assert forall|i: int| 0 <= i < whole.len() implies is_digit(#[trigger] whole[i]) by {
            assert(whole[i] == text@[p + i]);
        }
        assert(text@.subrange(p as int, p as int) =~= Seq::<char>::empty());
    }
    let mut v: u64 = 0;
    let mut q: usize = p;
    while q < text.len() && '0' <= text[q] && text[q] <= '9'
        invariant
            p <= q <= p + k,
            p + k <= text.len(),
            k == digit_run(text@, p as int),
            whole == text@.subrange(p as int, p + k),
            all_digits(whole),
            forall|j: int| p <= j < p + k ==> is_digit(#[trigger] text@[j]),
            p + k < text.len() ==> !is_digit(text@[p + k]),
            v == digits_value(text@.subrange(p as int, q as int)),
            v <= cap,
        decreases text.len() - q,
    {
        let d = (text[q] as u64) - ('0' as u64);
        proof {
            let j = q - p + 1;
            assert(whole.take(j) =~= text@.subrange(p as int, q + 1));
            assert(text@.subrange(p as int, q + 1).drop_last() =~= text@.subrange(p as int, q as int));
            lemma_digits_value_prefix(whole, j);
        }
        v = v * 10 + d;
        q = q + 1;
        if v > cap as u64 {
            return false;
        }
    }
    assert(q == p + k);
    true
}

pub proof fn lemma_digits_value_prefix(s: Seq<char>, k: int)
    requires
        all_digits(s),
        0 <= k <= s.len(),
    ensures
        digits_value(s.take(k)) <= digits_value(s),
    decreases s.len(),
{
    if k < s.len() {
        assert(s.drop_last().take(k) =~= s.take(k));
        lemma_digits_value_prefix(s.drop_last(), k);
    } else {
        assert(s.take(k) =~= s);
    }
}

/// The value of the digits `s[from..]` if they are all digits and their
/// value is at most `limit`.
fn digits_value_within(s: &Vec<char>, from: usize, limit: u64) -> (r: Option<u64>)
    requires
        from <= s.len(),
        limit <= u32::MAX + 1,
    ensures
        ({
            let d = s@.skip(from as int);
            match r {
                Some(v) => all_digits(d) && digits_value(d) <= limit && v == digits_value(d),
                None => !(all_digits(d) && digits_value(d) <= limit),
            }
        }),
{
    let ghost d = s@.skip(from as int);
    let mut v: u64 = 0;
    let mut i = from;
    assert(d.take(0) =~= Seq::<char>::empty());
    while i < s.len()
        invariant
            from <= i <= s.len(),
            d == s@.skip(from as int),
            limit <= u32::MAX + 1,
            all_digits(d.take(i - from)),
            v == digits_value(d.take(i - from)),
            v <= limit,
        decreases s.len() - i,
    {
        let c = s[i];
        if !('0' <= c && c <= '9') {
            assert(d[i - from] == c);
            return None;
        }
        let dv = (c as u32 - '0' as u32) as u64;
        proof {
            assert(d.take(i - from + 1).drop_last() =~= d.take(i - from));
            assert(d.take(i - from + 1).last() == c);
        }
        if v * 10 + dv > limit {
            proof {
                assert forall|j: int| 0 <= j < i - from + 1 implies is_digit(
                    #[trigger] d.take(i - from + 1)[j],
                ) by {
                    if j < i - from {
                        assert(d.take(i - from + 1)[j] == d.take(i - from)[j]);
                    }
                }
                if all_digits(d) {
                    lemma_digits_value_prefix(d, i - from + 1);
                }
            }
            return None;
        }
        proof {
            assert forall|j: int| 0 <= j < i - from + 1 implies is_digit(
                #[trigger] d.take(i - from + 1)[j],
            ) by {
                if j < i - from {
                    assert(d.take(i - from + 1)[j] == d.take(i - from)[j]);
                }
            }
        }
        v = v * 10 + dv;
        i = i + 1;
    }
    assert(d.take(i - from) =~= d);
    Some(v)
}

/// `s.parse::<u32>()`, with the error dropped.
pub fn parse_u32_exec(s: &Vec<char>) -> (r: Option<u32>)
    ensures
        r == parse_u32(s@),
{
    let from: usize = if s.len() > 0 && s[0] == '+' {
        1
    } else {
        0
    };
    assert(drop_sign(s@, '+') =~= s@.skip(from as int));
    if from == s.len() {
        return None;
    }
    match digits_value_within(s, from, 0xffff_ffff) {
        Some(v) => Some(v as u32),
        None => None,
    }
}

/// `s.parse::<i32>()`, with the error dropped.
pub fn parse_i32_exec(s: &Vec<char>) -> (r: Option<i32>)
    ensures
        r == parse_i32(s@),
{
    let neg = s.len() > 0 && s[0] == '-';
    let from: usize = if s.len() > 0 && (s[0] == '+' || s[0] == '-') {
        1
    } else {
        0
    };
    proof {
        if from == 1 {
            assert(s@.drop_first() =~= s@.skip(1));
        } else {
            assert(s@ =~= s@.skip(0));
        }
    }
    if from == s.len() {
        return None;
    }
    let limit: u64 = if neg {
        0x8000_0000
    } else {
        0x7fff_ffff
    };
    match digits_value_within(s, from, limit) {
        Some(v) => {
            if neg {
                Some((0 - (v as i64)) as i32)
            } else {
                Some(v as i32)
            }
        },
        None => None,
    }
}

/// What `s.parse::<usize>()` gives: an optional `+` then decimal digits
/// whose value fits.
pub open spec fn parse_usize(s: Seq<char>) -> Option<usize> {
    let d = drop_sign(s, '+');
    if d.len() > 0 && all_digits(d) && digits_value(d) <= usize::MAX {
        Some(digits_value(d) as usize)
    } else {
        None
    }
}

/// `s.parse::<usize>()`, with the error dropped.
pub fn parse_usize_exec(s: &Vec<char>) -> (r: Option<usize>)
    ensures
        r == parse_usize(s@),
{
    let from: usize = if s.len() > 0 && s[0] == '+' {
        1
    } else {
        0
    };
    let ghost d = s@.skip(from as int);
    assert(drop_sign(s@, '+') =~= d);
    if from == s.len() {
        return None;
    }
    let mut v: u128 = 0;
    let mut i = from;
    assert(d.take(0) =~= Seq::<char>::empty());
    while i < s.len()
        invariant
            from <= i <= s.len(),
            d == s@.skip(from as int),
            drop_sign(s@, '+') == d,
            all_digits(d.take(i - from)),
            v == digits_value(d.take(i - from)),
            v <= usize::MAX,
        decreases s.len() - i,
    {
        let c = s[i];
        if !('0' <= c && c <= '9') {
            assert(d[i - from] == c);
            return None;
        }
        let dv = (c as u32 - '0' as u32) as u128;
        proof {
            assert(d.take(i - from + 1).drop_last() =~= d.take(i - from));
            assert(d.take(i - from + 1).last() == c);
            assert forall|j: int| 0 <= j < i - from + 1 implies is_digit(#[trigger] d.take(i - from + 1)[j]) by {
                if j < i - from {
                    assert(d.take(i - from + 1)[j] == d.take(i - from)[j]);
                }
            }
        }
        if v * 10 + dv > usize::MAX as u128 {
            proof {
                if all_digits(d) {
                    lemma_digits_value_prefix(d, i - from + 1);
                }
            }
            return None;
        }
        v = v * 10 + dv;
        i = i + 1;
    }
    assert(d.take(i - from) =~= d);
    Some(v as usize)
}

} // verus!
