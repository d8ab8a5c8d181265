//! Operations on text that the conversion and the formatting use: trimming,
//! searching, joining, splitting into lines, decimal numbers.
use vstd::prelude::*;

verus! {

/// `char::is_whitespace`: the characters with the Unicode `White_Space` property.
pub open spec fn is_ws(c: char) -> bool {
    ||| ('\t' <= c && c <= '\r')
    ||| c == ' '
    ||| c == '\u{85}'
    ||| c == '\u{A0}'
    ||| c == '\u{1680}'
    ||| ('\u{2000}' <= c && c <= '\u{200A}')
    ||| c == '\u{2028}'
    ||| c == '\u{2029}'
    ||| c == '\u{202F}'
    ||| c == '\u{205F}'
    ||| c == '\u{3000}'
}

pub fn is_whitespace(c: char) -> (b: bool)
    ensures
        b == is_ws(c),
{
    ('\t' <= c && c <= '\r') || c == ' ' || c == '\u{85}' || c == '\u{A0}' || c == '\u{1680}'
        || ('\u{2000}' <= c && c <= '\u{200A}') || c == '\u{2028}' || c == '\u{2029}' || c
        == '\u{202F}' || c == '\u{205F}' || c == '\u{3000}'
}

/// `str::trim_start`.
pub open spec fn trim_left(s: Seq<char>) -> Seq<char>
    decreases s.len(),
{
    if s.len() > 0 && is_ws(s[0]) {
        trim_left(s.drop_first())
    } else {
        s
    }
}

/// `str::trim_end`.
pub open spec fn trim_right(s: Seq<char>) -> Seq<char>
    decreases s.len(),
{
    if s.len() > 0 && is_ws(s.last()) {
        trim_right(s.drop_last())
    } else {
        s
    }
}

/// `str::trim`: the text without its leading and trailing white space.
pub open spec fn trim(s: Seq<char>) -> Seq<char> {
    trim_right(trim_left(s))
}

/// Every character is white space (`s.trim().is_empty()`).
pub open spec fn is_blank(s: Seq<char>) -> bool {
    forall|i: int| 0 <= i < s.len() ==> is_ws(#[trigger] s[i])
}

/// `str::trim_end_matches` with a single character.
pub open spec fn trim_end_char(s: Seq<char>, c: char) -> Seq<char>
    decreases s.len(),
{
    if s.len() > 0 && s.last() == c {
        trim_end_char(s.drop_last(), c)
    } else {
        s
    }
}

/// `needle` occurs in `s`.
pub open spec fn contains_seq(s: Seq<char>, needle: Seq<char>) -> bool {
    exists|i: int| 0 <= i && i + needle.len() <= s.len() && #[trigger] s.subrange(i, i + needle.len()) == needle
}

/// The parts, with `sep` between each two of them (`[String]::join`).
pub open spec fn join(parts: Seq<Seq<char>>, sep: Seq<char>) -> Seq<char>
    decreases parts.len(),
{
    if parts.len() == 0 {
        seq![]
    } else if parts.len() == 1 {
        parts[0]
    } else {
        join(parts.drop_last(), sep) + sep + parts.last()
    }
}

/// `s` repeated `n` times (`str::repeat`).
pub open spec fn repeat(s: Seq<char>, n: nat) -> Seq<char>
    decreases n,
{
    if n == 0 {
        seq![]
    } else {
        repeat(s, (n - 1) as nat) + s
    }
}

/// The index of the first line feed, or the length where there is none.
pub open spec fn newline_index(s: Seq<char>) -> int
    decreases s.len(),
{
    if s.len() == 0 {
        0
    } else if s[0] == '\n' {
        0
    } else {
        1 + newline_index(s.drop_first())
    }
}

/// A line without the carriage return that ends it, if one does.
pub open spec fn strip_cr(s: Seq<char>) -> Seq<char> {
    if s.len() > 0 && s.last() == '\r' {
        s.drop_last()
    } else {
        s
    }
}

/// `str::lines`: the text split at each `\n` (a `\r` before it is dropped); a
/// last line ending adds no empty line, and the empty text has no line.
pub open spec fn lines(s: Seq<char>) -> Seq<Seq<char>>
    decreases s.len(),
{
    if s.len() == 0 {
        seq![]
    } else {
        let k: int = newline_index(s);
        if k < 0 || k >= s.len() {
            seq![s]
        } else {
            seq![strip_cr(s.take(k))] + lines(s.skip(k + 1))
        }
    }
}

/// The decimal digits of `n` (`usize`'s `Display`).
pub open spec fn decimal(n: nat) -> Seq<char>
    decreases n,
{
    if n < 10 {
        seq![digit_char(n)]
    } else {
        decimal(n / 10) + seq![digit_char(n % 10)]
    }
}

pub open spec fn digit_char(d: nat) -> char {
    if d == 0 {
        '0'
    } else if d == 1 {
        '1'
    } else if d == 2 {
        '2'
    } else if d == 3 {
        '3'
    } else if d == 4 {
        '4'
    } else if d == 5 {
        '5'
    } else if d == 6 {
        '6'
    } else if d == 7 {
        '7'
    } else if d == 8 {
        '8'
    } else {
        '9'
    }
}

/// The model of a list of strings.
pub open spec fn strings_view(s: Seq<String>) -> Seq<Seq<char>> {
    s.map_values(|x: String| x@)
}

/// Whether the two strings hold the same characters.
pub fn str_eq(a: &str, b: &str) -> (r: bool)
    ensures
        r == (a@ == b@),
{
    let v = chars_of(a);
    let w = chars_of(b);
    if v.len() != w.len() {
        return false;
    }
    let mut i: usize = 0;
    while i < v.len()
        invariant
            v@ == a@,
            w@ == b@,
            v.len() == w.len(),
            i <= v.len(),
            forall|q: int| 0 <= q < i ==> v@[q] == w@[q],
        decreases v.len() - i,
    {
        if v[i] != w[i] {
            return false;
        }
        i = i + 1;
    }
    assert(v@ =~= w@);
    true
}

/// `String::push`.
#[verifier::external_body]
pub fn push_char(s: &mut String, c: char)
    ensures
        final(s)@ == old(s)@.push(c),
{
    s.push(c);
}

/// The characters of `s`.
pub fn chars_of(s: &str) -> (v: Vec<char>)
    ensures
        v@ == s@,
{
    let mut v: Vec<char> = Vec::new();
    for c in it: s.chars()
        invariant
            v@ == it.seq().take(it.index() as int),
    {
        v.push(c);
    }
    v
}

/// A string holding the characters `v[from..to]`.
pub fn string_of(v: &Vec<char>, from: usize, to: usize) -> (s: String)
    requires
        from <= to <= v.len(),
    ensures
        s@ == v@.subrange(from as int, to as int),
{
    let mut s = String::new();
    let mut k: usize = from;
    while k < to
        invariant
            from <= k <= to <= v.len(),
            s@ == v@.subrange(from as int, k as int),
        decreases to - k,
    {
        push_char(&mut s, v[k]);
        assert(v@.subrange(from as int, k + 1) =~= v@.subrange(from as int, k as int).push(v@[k as int]));
        k = k + 1;
    }
    s
}

pub proof fn lemma_trim_left_skip(s: Seq<char>, k: int)
    requires
        0 <= k <= s.len(),
        forall|i: int| 0 <= i < k ==> is_ws(#[trigger] s[i]),
        k == s.len() || !is_ws(s[k]),
    ensures
        trim_left(s) == s.skip(k),
    decreases k,
{
    if k == 0 {
        assert(s.skip(0) =~= s);
    } else {
        lemma_trim_left_skip(s.drop_first(), k - 1);
        assert(s.drop_first().skip(k - 1) =~= s.skip(k));
    }
}

pub proof fn lemma_trim_right_take(s: Seq<char>, k: int)
    requires
        0 <= k <= s.len(),
        forall|i: int| k <= i < s.len() ==> is_ws(#[trigger] s[i]),
        k == 0 || !is_ws(s[k - 1]),
    ensures
        trim_right(s) == s.take(k),
    decreases s.len() - k,
{
    if k == s.len() {
        assert(s.take(k) =~= s);
    } else {
        lemma_trim_right_take(s.drop_last(), k);
        assert(s.drop_last().take(k) =~= s.take(k));
    }
}

pub proof fn lemma_trim_left_shape(s: Seq<char>) -> (j: int)
    ensures
        0 <= j <= s.len(),
        trim_left(s) == s.skip(j),
        j == s.len() || !is_ws(s[j]),
    decreases s.len(),
{
    if s.len() > 0 && is_ws(s[0]) {
        let j0: int = lemma_trim_left_shape(s.drop_first());
        assert(s.drop_first().skip(j0) =~= s.skip(j0 + 1));
        j0 + 1
    } else {
        assert(s.skip(0) =~= s);
        0
    }
}

pub proof fn lemma_trim_right_shape(s: Seq<char>) -> (j: int)
    ensures
        0 <= j <= s.len(),
        trim_right(s) == s.take(j),
        j == 0 || !is_ws(s[j - 1]),
    decreases s.len(),
{
    if s.len() > 0 && is_ws(s.last()) {
        let j0: int = lemma_trim_right_shape(s.drop_last());
        assert(s.drop_last().take(j0) =~= s.take(j0));
        j0
    } else {
        assert(s.take(s.len() as int) =~= s);
        s.len() as int
    }
}

/// The trimmed text is a piece of the text, and, where it is not empty, it
/// neither starts nor ends with white space.
pub proof fn lemma_trim_ends(s: Seq<char>) -> (r: (int, int))
    ensures
        0 <= r.0 <= r.1 <= s.len(),
        trim(s) == s.subrange(r.0, r.1),
        trim(s).len() > 0 ==> !is_ws(trim(s)[0]) && !is_ws(trim(s).last()),
{
    let a: int = lemma_trim_left_shape(s);
    let l = s.skip(a);
    let b: int = lemma_trim_right_shape(l);
    assert(l.take(b) =~= s.subrange(a, a + b));
    if b > 0 {
        assert(trim(s)[0] == s[a]);
        assert(trim(s).last() == l[b - 1]);
    }
    (a, a + b)
}

/// `str::trim`.
pub fn trim_str(s: &str) -> (r: String)
    ensures
        r@ == trim(s@),
{
    let v = chars_of(s);
    let mut a: usize = 0;
    while a < v.len() && is_whitespace(v[a])
        invariant
            a <= v.len(),
            v@ == s@,
            forall|i: int| 0 <= i < a ==> is_ws(#[trigger] v@[i]),
        decreases v.len() - a,
    {
        a = a + 1;
    }
    proof {
        lemma_trim_left_skip(s@, a as int);
    }
    let mut b: usize = v.len();
    while b > a && is_whitespace(v[b - 1])
        invariant
            a <= b <= v.len(),
            v@ == s@,
            forall|i: int| b <= i < v.len() ==> is_ws(#[trigger] v@[i]),
        decreases b,
    {
        b = b - 1;
    }
    proof {
        let l = s@.skip(a as int);
        assert forall|i: int| (b - a) <= i < l.len() implies is_ws(#[trigger] l[i]) by {
            assert(l[i] == v@[i + a]);
        }
        if b > a {
            assert(l[b - a - 1] == v@[b - 1]);
        }
        lemma_trim_right_take(l, b - a);
        assert(l.take(b - a) =~= v@.subrange(a as int, b as int));
    }
    string_of(&v, a, b)
}

/// `str::trim` on a `String`.
pub fn trim_string(s: &String) -> (r: String)
    ensures
        r@ == trim(s@),
{
    trim_str(s.as_str())
}

/// `s.trim().is_empty()`.
pub fn blank(s: &str) -> (b: bool)
    ensures
        b == is_blank(s@),
{
    let v = chars_of(s);
    let mut k: usize = 0;
    while k < v.len()
        invariant
            k <= v.len(),
            v@ == s@,
            forall|i: int| 0 <= i < k ==> is_ws(#[trigger] s@[i]),
        decreases v.len() - k,
    {
        if !is_whitespace(v[k]) {
            return false;
        }
        k = k + 1;
    }
    true
}

/// `s.contains(c)`.
pub fn has_char(s: &str, c: char) -> (b: bool)
    ensures
        b == s@.contains(c),
{
    let v = chars_of(s);
    let mut k: usize = 0;
    while k < v.len()
        invariant
            k <= v.len(),
            v@ == s@,
            forall|i: int| 0 <= i < k ==> #[trigger] s@[i] != c,
        decreases v.len() - k,
    {
        if v[k] == c {
            assert(s@[k as int] == c);
            return true;
        }
        k = k + 1;
    }
    false
}

/// `s.contains(needle)`.
pub fn has_str(s: &str, needle: &str) -> (b: bool)
    ensures
        b == contains_seq(s@, needle@),
{
    let v = chars_of(s);
    let w = chars_of(needle);
    if w.len() > v.len() {
        return false;
    }
    let mut i: usize = 0;
    while i <= v.len() - w.len()
        invariant
            v@ == s@,
            w@ == needle@,
            w.len() <= v.len(),
            forall|p: int| 0 <= p < i ==> #[trigger] s@.subrange(p, p + needle@.len()) != needle@,
        decreases v.len() - i,
    {
        let mut j: usize = 0;
        while j < w.len() && v[i + j] == w[j]
            invariant
                j <= w.len(),
                i + w.len() <= v.len(),
                forall|q: int| 0 <= q < j ==> v@[i + q] == w@[q],
            decreases w.len() - j,
        {
            j = j + 1;
        }
        if j == w.len() {
            assert(s@.subrange(i as int, i + needle@.len()) =~= needle@);
            return true;
        }
        assert(s@.subrange(i as int, i + needle@.len())[j as int] != needle@[j as int]);
        i = i + 1;
    }
    proof {
        assert forall|p: int|
            0 <= p && p + needle@.len() <= s@.len() implies #[trigger] s@.subrange(
            p,
            p + needle@.len(),
        ) != needle@ by {
            assert(p < i);
        }
    }
    false
}

/// `s.starts_with(c)`.
pub fn starts_with_char(s: &str, c: char) -> (b: bool)
    ensures
        b == (s@.len() > 0 && s@[0] == c),
{
    let v = chars_of(s);
    v.len() > 0 && v[0] == c
}

/// `s.trim_end_matches(c)`.
pub fn trim_end_matches_char(s: &str, c: char) -> (r: String)
    ensures
        r@ == trim_end_char(s@, c),
{
    let v = chars_of(s);
    let mut b: usize = v.len();
    assert(s@.take(b as int) =~= s@);
    while b > 0 && v[b - 1] == c
        invariant
            b <= v.len(),
            v@ == s@,
            trim_end_char(s@, c) == trim_end_char(s@.take(b as int), c),
        decreases b,
    {
        assert(s@.take(b as int).drop_last() =~= s@.take(b - 1));
        b = b - 1;
    }
    assert(s@.subrange(0, b as int) =~= s@.take(b as int));
    string_of(&v, 0, b)
}

/// `s` repeated `n` times.
pub fn repeat_str(s: &str, n: usize) -> (r: String)
    ensures
        r@ == repeat(s@, n as nat),
{
    let mut r = String::new();
    let mut k: usize = 0;
    while k < n
        invariant
            k <= n,
            r@ == repeat(s@, k as nat),
        decreases n - k,
    {
        r.append(s);
        k = k + 1;
    }
    r
}

/// Appends the decimal digits of `n`.
pub fn push_decimal(out: &mut String, n: usize)
    ensures
        final(out)@ == old(out)@ + decimal(n as nat),
    decreases n,
{
    if n >= 10 {
        push_decimal(out, n / 10);
    }
    let d: usize = n % 10;
    let c = if d == 0 {
        '0'
    } else if d == 1 {
        '1'
    } else if d == 2 {
        '2'
    } else if d == 3 {
        '3'
    } else if d == 4 {
        '4'
    } else if d == 5 {
        '5'
    } else if d == 6 {
        '6'
    } else if d == 7 {
        '7'
    } else if d == 8 {
        '8'
    } else {
        '9'
    };
    push_char(out, c);
}

/// The parts, with `sep` between each two of them.
pub fn join_strings(parts: &Vec<String>, sep: &str) -> (r: String)
    ensures
        r@ == join(strings_view(parts@), sep@),
{
    let ghost pv = strings_view(parts@);
    let mut r = String::new();
    let mut k: usize = 0;
    while k < parts.len()
        invariant
            k <= parts.len(),
            pv == strings_view(parts@),
            r@ == join(pv.take(k as int), sep@),
        decreases parts.len() - k,
    {
        assert(pv.take(k + 1).drop_last() =~= pv.take(k as int));
        if k > 0 {
            r.append(sep);
        } else {
            assert(pv.take(1) =~= seq![pv[0]]);
        }
        r.append(parts[k].as_str());
        k = k + 1;
    }
    assert(pv.take(parts.len() as int) =~= pv);
    r
}


pub proof fn lemma_newline_index(t: Seq<char>, k: int)
    requires
        0 <= k <= t.len(),
        forall|m: int| 0 <= m < k ==> #[trigger] t[m] != '\n',
        k == t.len() || t[k] == '\n',
    ensures
        newline_index(t) == k,
    decreases k,
{
    if k > 0 {
        lemma_newline_index(t.drop_first(), k - 1);
    }
}

proof fn lemma_newline_index_props(t: Seq<char>)
    ensures
        0 <= newline_index(t) <= t.len(),
        forall|m: int| 0 <= m < newline_index(t) ==> #[trigger] t[m] != '\n',
        newline_index(t) < t.len() ==> t[newline_index(t)] == '\n',
    decreases t.len(),
{
    if t.len() > 0 && t[0] != '\n' {
        lemma_newline_index_props(t.drop_first());
        assert forall|m: int| 0 <= m < newline_index(t) implies #[trigger] t[m] != '\n' by {
            if m > 0 {
                assert(t[m] == t.drop_first()[m - 1]);
            }
        }
    }
}

pub open spec fn lacks(s: Seq<char>, c: char) -> bool {
    forall|i: int| 0 <= i < s.len() ==> #[trigger] s[i] != c
}

proof fn lemma_join_front(parts: Seq<Seq<char>>, sep: Seq<char>)
    requires
        parts.len() >= 2,
    ensures
        join(parts, sep) == parts[0] + sep + join(parts.drop_first(), sep),
    decreases parts.len(),
{
    if parts.len() == 2 {
        assert(parts.drop_last() =~= seq![parts[0]]);
        assert(parts.drop_first() =~= seq![parts[1]]);
        assert(join(parts.drop_last(), sep) == parts[0]);
        assert(join(parts.drop_first(), sep) == parts[1]);
        assert(join(parts, sep) == join(parts.drop_last(), sep) + sep + parts.last());
        assert(join(parts, sep) =~= parts[0] + sep + join(parts.drop_first(), sep));
    } else {
        lemma_join_front(parts.drop_last(), sep);
        assert(parts.drop_last().drop_first() =~= parts.drop_first().drop_last());
        assert(parts.drop_first().last() == parts.last());
        assert(parts.drop_last()[0] == parts[0]);
        let df = parts.drop_first();
        assert(join(df, sep) == join(df.drop_last(), sep) + sep + df.last());
        assert(join(parts, sep) == join(parts.drop_last(), sep) + sep + parts.last());
        assert(join(parts, sep) =~= parts[0] + sep + join(df, sep));
    }
}

/// Splitting at line feeds undoes joining with line feeds, for lines that are not
/// empty, hold no line feed, and do not end with a carriage return.
pub proof fn lemma_lines_of_join(parts: Seq<Seq<char>>)
    requires
        forall|i: int| 0 <= i < parts.len() ==> (#[trigger] parts[i]).len() > 0 && lacks(parts[i], '\n')
            && parts[i].last() != '\r',
    ensures
        lines(join(parts, seq!['\n'])) == parts,
    decreases parts.len(),
{
    if parts.len() == 0 {
    } else if parts.len() == 1 {
        let p = parts[0];
        assert(join(parts, seq!['\n']) == p);
        lemma_newline_index(p, p.len() as int);
        assert(lines(p) =~= parts);
    } else {
        lemma_join_front(parts, seq!['\n']);
        let p = parts[0];
        let rest = join(parts.drop_first(), seq!['\n']);
        let j = join(parts, seq!['\n']);
        assert(j == p + seq!['\n'] + rest);
        assert forall|m: int| 0 <= m < p.len() implies #[trigger] j[m] != '\n' by {
            assert(j[m] == p[m]);
        }
        assert(j[p.len() as int] == '\n');
        lemma_newline_index(j, p.len() as int);
        assert(j.take(p.len() as int) =~= p);
        assert(j.skip(p.len() as int + 1) =~= rest);
        assert forall|i: int| 0 <= i < parts.drop_first().len() implies (
        #[trigger] parts.drop_first()[i]).len() > 0 && lacks(parts.drop_first()[i], '\n')
            && parts.drop_first()[i].last() != '\r' by {
            assert(parts.drop_first()[i] == parts[i + 1]);
        }
        lemma_lines_of_join(parts.drop_first());
        assert(lines(j) =~= seq![p] + parts.drop_first());
    }
}

/// Every line of a text holds no line feed, and no carriage return where the text has none.
pub proof fn lemma_lines_clean(t: Seq<char>)
    ensures
        forall|i: int| 0 <= i < lines(t).len() ==> lacks(#[trigger] lines(t)[i], '\n'),
        lacks(t, '\r') ==> forall|i: int| 0 <= i < lines(t).len() ==> lacks(#[trigger] lines(t)[i], '\r'),
    decreases t.len(),
{
    if t.len() > 0 {
        lemma_newline_index_props(t);
        let k: int = newline_index(t);
        if k >= t.len() {
            assert(lines(t) =~= seq![t]);
        } else {
            let rest = t.skip(k + 1);
            lemma_lines_clean(rest);
            let first = strip_cr(t.take(k));
            assert(lines(t) == seq![first] + lines(rest));
            assert(lacks(first, '\n'));
            if lacks(t, '\r') {
                assert(lacks(rest, '\r')) by {
                    assert forall|i: int| 0 <= i < rest.len() implies #[trigger] rest[i] != '\r' by {
                        assert(rest[i] == t[i + k + 1]);
                    }
                }
                assert(lacks(first, '\r'));
            }
            assert forall|i: int| 0 <= i < lines(t).len() implies lacks(#[trigger] lines(t)[i], '\n') by {
                if i > 0 {
                    assert(lines(t)[i] == lines(rest)[i - 1]);
                }
            }
            if lacks(t, '\r') {
                assert forall|i: int| 0 <= i < lines(t).len() implies lacks(#[trigger] lines(t)[i], '\r') by {
                    if i > 0 {
                        assert(lines(t)[i] == lines(rest)[i - 1]);
                    }
                }
            }
        }
    }
}

/// For a text without carriage returns and a prefix that is not empty and holds no
/// line break, the lines of the result are the prefix followed by each line of the text.
pub proof fn lemma_prefix_lines_lines(text: Seq<char>, prefix: Seq<char>)
    requires
        prefix.len() > 0,
        lacks(prefix, '\n'),
        lacks(prefix, '\r'),
        lacks(text, '\r'),
    ensures
        lines(prefix_lines_spec(text, prefix)) == lines(text).map_values(|l: Seq<char>| prefix + l),
{
    let ls = lines(text);
    let m = ls.map_values(|l: Seq<char>| prefix + l);
    lemma_lines_clean(text);
    assert forall|i: int| 0 <= i < m.len() implies (#[trigger] m[i]).len() > 0 && lacks(m[i], '\n')
        && m[i].last() != '\r' by {
        let l = ls[i];
        assert(m[i] == prefix + l);
        assert(lacks(l, '\n'));
        assert(lacks(l, '\r'));
        assert forall|c: int| 0 <= c < m[i].len() implies #[trigger] m[i][c] != '\n' by {
            if c < prefix.len() {
                assert(m[i][c] == prefix[c]);
            } else {
                assert(m[i][c] == l[c - prefix.len()]);
            }
        }
        if l.len() > 0 {
            assert(m[i].last() == l.last());
        } else {
            assert(m[i].last() == prefix.last());
        }
    }
    lemma_lines_of_join(m);
}

/// Joining the lines of a text with line feeds gives the text back, where it has
/// no carriage return and does not end with a line feed.
pub proof fn lemma_join_lines(t: Seq<char>)
    requires
        lacks(t, '\r'),
        t.len() == 0 || t.last() != '\n',
    ensures
        join(lines(t), seq!['\n']) == t,
    decreases t.len(),
{
    if t.len() > 0 {
        lemma_newline_index_props(t);
        let k: int = newline_index(t);
        if k < t.len() {
            let first = t.take(k);
            let rest = t.skip(k + 1);
            assert(rest.len() > 0) by {
                if rest.len() == 0 {
                    assert(t.last() == t[k]);
                }
            }
            assert(!(first.len() > 0 && first.last() == '\r')) by {
                if first.len() > 0 {
                    assert(first.last() == t[k - 1]);
                }
            }
            assert(strip_cr(first) == first);
            assert(lacks(rest, '\r')) by {
                assert forall|i: int| 0 <= i < rest.len() implies #[trigger] rest[i] != '\r' by {
                    assert(rest[i] == t[i + k + 1]);
                }
            }
            assert(rest.last() == t.last());
            lemma_join_lines(rest);
            lemma_newline_index_props(rest);
            let ls = lines(t);
            assert(ls == seq![first] + lines(rest));
            assert(lines(rest).len() > 0);
            assert(ls.drop_first() =~= lines(rest));
            assert(ls[0] == first);
            lemma_join_front(ls, seq!['\n']);
            assert(t =~= first + seq!['\n'] + rest);
        } else {
            assert(lines(t) =~= seq![t]);
        }
    }
}

/// With an empty prefix, `prefix_lines` gives back a text that holds no carriage
/// return and does not end with a line feed.
pub proof fn lemma_prefix_lines_empty_prefix(text: Seq<char>)
    requires
        lacks(text, '\r'),
        text.len() == 0 || text.last() != '\n',
    ensures
        prefix_lines_spec(text, seq![]) == text,
{
    let ls = lines(text);
    let m = ls.map_values(|l: Seq<char>| Seq::<char>::empty() + l);
    assert forall|i: int| 0 <= i < ls.len() implies #[trigger] m[i] == ls[i] by {
        assert(Seq::<char>::empty() + ls[i] =~= ls[i]);
    }
    assert(m =~= ls);
    lemma_join_lines(text);
}

/// Each line of the text with `prefix` in front, the lines joined by `\n`.
pub open spec fn prefix_lines_spec(text: Seq<char>, prefix: Seq<char>) -> Seq<char> {
    join(lines(text).map_values(|l: Seq<char>| prefix + l), seq!['\n'])
}

/// Puts `prefix` in front of each line of `text`.
pub fn prefix_lines(text: &str, prefix: &str) -> (r: String)
    ensures
        r@ == prefix_lines_spec(text@, prefix@),
{
    let v = chars_of(text);
    let ghost f = |l: Seq<char>| prefix@ + l;
    let mut out = String::new();
    let mut pos: usize = 0;
    let ghost mut done: Seq<Seq<char>> = seq![];
    assert(text@.skip(0) =~= text@);
    while pos < v.len()
        invariant
            pos <= v.len(),
            v@ == text@,
            f == (|l: Seq<char>| prefix@ + l),
            lines(text@) == done + lines(text@.skip(pos as int)),
            out@ == join(done.map_values(f), seq!['\n']),
            (pos == 0) == (done.len() == 0),
        decreases v.len() - pos,
    {
        let mut j: usize = pos;
        while j < v.len() && v[j] != '\n'
            invariant
                pos <= j <= v.len(),
                v@ == text@,
                forall|m: int| pos <= m < j ==> #[trigger] v@[m] != '\n',
            decreases v.len() - j,
        {
            j = j + 1;
        }
        let ghost t = text@.skip(pos as int);
        proof {
            assert forall|m: int| 0 <= m < j - pos implies #[trigger] t[m] != '\n' by {
                assert(t[m] == v@[pos + m]);
            }
            if j < v.len() {
                assert(t[j - pos] == v@[j as int]);
            }
            lemma_newline_index(t, j - pos);
        }
        let line_end: usize = if j < v.len() && j > pos && v[j - 1] == '\r' {
            j - 1
        } else {
            j
        };
        let line = string_of(&v, pos, line_end);
        let ghost l = line@;
        proof {
            if j < v.len() {
                assert(t.take(j - pos) =~= v@.subrange(pos as int, j as int));
                if j > pos && v@[j - 1] == '\r' {
                    assert(strip_cr(t.take(j - pos)) =~= l);
                } else {
                    assert(strip_cr(t.take(j - pos)) =~= l);
                }
                assert(t.skip(j - pos + 1) =~= text@.skip(j + 1));
            } else {
                assert(t =~= l);
            }
        }
        let ghost old_done = done;
        proof {
            done = done.push(l);
            assert(done.map_values(f).drop_last() =~= old_done.map_values(f));
            assert(done.map_values(f).last() == prefix@ + l);
        }
        let ghost before = out@;
        if pos > 0 {
            out.append("\n");
        }
        out.append(prefix);
        out.append(line.as_str());
        proof {
            reveal_strlit("\n");
            let dm = done.map_values(f);
            if old_done.len() == 0 {
                assert(dm =~= seq![prefix@ + l]);
                assert(join(dm, seq!['\n']) == dm[0]);
                assert(out@ =~= join(dm, seq!['\n']));
            } else {
                assert(dm.len() >= 2);
                assert(join(dm, seq!['\n']) == join(dm.drop_last(), seq!['\n']) + seq!['\n'] + dm.last());
                assert(out@ =~= before + seq!['\n'] + (prefix@ + l));
            }
        }
        pos = if j < v.len() {
            j + 1
        } else {
            j
        };
        proof {
            if j == v.len() {
                assert(text@.skip(pos as int) =~= Seq::<char>::empty());
            }
        }
    }
    assert(text@.skip(pos as int) =~= Seq::<char>::empty());
    assert(done + lines(Seq::<char>::empty()) =~= done);
    out
}

} // verus!
